//! Entries of vectors, extensions, transforms and codewords in plain arithmetic.

use crate::brakedown::{
    a_offset, a_offset_mono, b_offset, b_offset_mono, cells_image, codeword, image, image_vec,
    reed_solomon, word_a, word_a_len, word_b, word_b_len, Brakedown, Cell,
};
use crate::brakingbase::{decimal, digit};
use crate::classic_sumcheck::{coeff_value, values_determine_polynomial};
use crate::field::{
    canon, canon_consts, f_units, fadd, fmul, fsub, ops_red, red, red_add, red_id, red_mul, red_red,
    red_sub, MAX_SMALL, PrimeField, Residue,
};
use crate::interpolation::poly_value;
use crate::linear::{
    column, comb, comb_entry, dot, pows, pows_step, rect, vals, vcanon, vmul, vsub, vsum,
    vsum_canon, vsum_concat, vsum_push, vsum_sub, vsum_zero, vzero,
};
use crate::mle::{eq_at, eq_evals, exp2, exp2_adds, exp2_is_pow2, log2, mle};
use crate::parity::{word_a_in_codeword, Entry};
use crate::qa_code::{is_pow2, parity, row_bounds, walsh, walsh_shape, walsh_twice};
use crate::qabase::boolean_point;
use crate::qabase_relations::batch_value;
use crate::qapcs_shape::{
    best_at, ceil_div, is_shape, objective, proximity_tests, QAPCSPolicy, QAPCSShape,
};
use crate::quasar_gkr::{flat_index, GkrChallenges};
use crate::spark_memory::{
    audit_counts, memory_hash, occurrences, read_counts, static_vectors, vprod,
};
use crate::sumcheck::{product_at, summand, Term};
use vstd::arithmetic::div_mod::{
    lemma_fundamental_div_mod, lemma_fundamental_div_mod_converse, lemma_mod_bound,
};
use vstd::arithmetic::power::{lemma_pow0, pow};
use vstd::prelude::*;

verus! {

/// The sum of integers.
pub open spec fn total(v: Seq<int>) -> int {
    v.fold_left(0int, |a: int, x: int| a + x)
}

/// The product of integers.
pub open spec fn product(v: Seq<int>) -> int {
    v.fold_left(1int, |a: int, x: int| a * x)
}

/// The sum of residues is the sum of integers, reduced.
pub proof fn sum_is_total<F: Residue>(v: Seq<int>)
    ensures
        vsum::<F>(v) == total(v) % F::modulus(),
    decreases v.len(),
{
    canon_consts::<F>();
    reveal(red);
    if v.len() == 0 {
        assert(red::<F>(0) == 0);
    } else {
        let (front, x) = (v.drop_last(), v.last());
        sum_is_total::<F>(front);
        ops_red::<F>(red::<F>(total(front)), x);
        ops_red::<F>(total(front), x);
        red_red::<F>(total(front));
        assert(total(v) == total(front) + x);
    }
}

/// An inner product is the sum of the products of integers, reduced.
pub proof fn dot_is_total<F: Residue>(a: Seq<int>, b: Seq<int>)
    ensures
        dot::<F>(a, b) == total(Seq::new(a.len(), |i: int| a[i] * b[i])) % F::modulus(),
{
    let p = Seq::new(a.len(), |i: int| a[i] * b[i]);
    let q = vmul::<F>(a, b);
    sum_is_total::<F>(q);
    assert(q =~= Seq::new(p.len(), |i: int| red::<F>(p[i]))) by {
        assert forall|i: int| 0 <= i < a.len() implies q[i] == red::<F>(p[i]) by {
            ops_red::<F>(a[i], b[i]);
        }
    }
    total_of_reduced::<F>(p);
}

proof fn total_of_reduced<F: Residue>(p: Seq<int>)
    ensures
        total(Seq::new(p.len(), |i: int| red::<F>(p[i]))) % F::modulus() == total(p) % F::modulus(),
    decreases p.len(),
{
    let q = Seq::new(p.len(), |i: int| red::<F>(p[i]));
    if p.len() > 0 {
        let front = p.drop_last();
        let qf = Seq::new(front.len(), |i: int| red::<F>(front[i]));
        assert(q.drop_last() =~= qf);
        total_of_reduced::<F>(front);
        reveal(red);
        red_add::<F>(total(qf), q.last());
        red_add::<F>(total(front), p.last());
        red_red::<F>(p.last());
        assert(total(q) == total(qf) + q.last());
        assert(total(p) == total(front) + p.last());
        assert(red::<F>(total(q)) == red::<F>(total(p)));
    }
}

/// Entry `j` of a combination of rows is the sum of weight times entry, reduced.
pub proof fn combination_entries<F: Residue>(w: Seq<int>, rows: Seq<Seq<int>>, n: nat, j: int)
    requires
        w.len() == rows.len(),
        rect(rows, n),
        0 <= j < n,
    ensures
        comb::<F>(w, rows, n)[j] == total(Seq::new(rows.len(), |i: int| w[i] * rows[i][j]))
            % F::modulus(),
{
    comb_entry::<F>(w, rows, n, j);
    assert(w.take(rows.len() as int) =~= w);
    dot_is_total::<F>(w, column(rows, j));
    assert(Seq::new(w.len(), |i: int| w[i] * column(rows, j)[i]) =~= Seq::new(
        rows.len(),
        |i: int| w[i] * rows[i][j],
    ));
}

/// The product of residues is the product of integers, reduced.
pub proof fn product_is_product<F: Residue>(v: Seq<int>)
    ensures
        vprod::<F>(v) == product(v) % F::modulus(),
    decreases v.len(),
{
    canon_consts::<F>();
    reveal(red);
    if v.len() == 0 {
        assert(red::<F>(1) == 1);
    } else {
        let (front, x) = (v.drop_last(), v.last());
        product_is_product::<F>(front);
        ops_red::<F>(red::<F>(product(front)), x);
        ops_red::<F>(product(front), x);
        red_red::<F>(product(front));
        assert(product(v) == product(front) * x);
    }
}

/// The powers of an element are its powers as an integer, reduced.
pub proof fn powers_are_powers<F: Residue>(x: int, n: nat, k: nat)
    requires
        k < n,
    ensures
        pows::<F>(x, n).len() == n,
        pows::<F>(x, n)[k as int] == pow(x, k) % F::modulus(),
    decreases n,
{
    let m = (n - 1) as nat;
    pows_step::<F>(x, m);
    if k < m {
        powers_are_powers::<F>(x, m, k);
        assert(pows::<F>(x, n)[k as int] == pows::<F>(x, n).take(m as int)[k as int]);
    } else {
        canon_consts::<F>();
        reveal(red);
        if k == 0 {
            lemma_pow0(x);
        } else {
            let j = (k - 1) as nat;
            powers_are_powers::<F>(x, m, j);
            ops_red::<F>(red::<F>(pow(x, j)), x);
            ops_red::<F>(pow(x, j), x);
            red_red::<F>(pow(x, j));
            assert(pow(x, k) == x * pow(x, j)) by {
                reveal_with_fuel(pow, 2);
            }
            assert(x * pow(x, j) == pow(x, j) * x) by (nonlinear_arith);
        }
    }
}

/// Entry `o` of the Reed-Solomon codeword is the value of the polynomial at `o + 1`.
pub proof fn reed_solomon_evaluates<F: Residue>(coeffs: Seq<int>, n: nat, o: int)
    requires
        0 <= o < n,
    ensures
        reed_solomon::<F>(coeffs, n).len() == n,
        reed_solomon::<F>(coeffs, n)[o] == total(
            Seq::new(coeffs.len(), |k: int| coeffs[k] * pow(o + 1, k as nat)),
        ) % F::modulus(),
{
    let x = red::<F>(o + 1);
    let p = pows::<F>(x, coeffs.len());
    pows_step::<F>(x, coeffs.len());
    dot_is_total::<F>(coeffs, p);
    let a = Seq::new(coeffs.len(), |k: int| coeffs[k] * p[k]);
    let b = Seq::new(coeffs.len(), |k: int| coeffs[k] * pow(o + 1, k as nat));
    let ra = Seq::new(a.len(), |k: int| red::<F>(a[k]));
    let rb = Seq::new(b.len(), |k: int| red::<F>(b[k]));
    assert forall|k: int| 0 <= k < a.len() implies ra[k] == rb[k] by {
        powers_are_powers::<F>(x, coeffs.len(), k as nat);
        reveal(red);
        pow_of_reduced::<F>(o + 1, k as nat);
        ops_red::<F>(coeffs[k], p[k]);
        ops_red::<F>(coeffs[k], pow(o + 1, k as nat));
        red_red::<F>(pow(o + 1, k as nat));
    }
    assert(ra =~= rb);
    total_of_reduced::<F>(a);
    total_of_reduced::<F>(b);
}

proof fn pow_of_reduced<F: Residue>(x: int, k: nat)
    ensures
        red::<F>(pow(red::<F>(x), k)) == red::<F>(pow(x, k)),
    decreases k,
{
    lemma_pow0(x);
    lemma_pow0(red::<F>(x));
    if k > 0 {
        let j = (k - 1) as nat;
        pow_of_reduced::<F>(x, j);
        reveal_with_fuel(pow, 2);
        red_mul::<F>(red::<F>(x), pow(red::<F>(x), j));
        red_mul::<F>(x, pow(x, j));
        red_red::<F>(x);
    }
}

/// `exp2(k)` is two to the power `k`: such numbers count as powers of two, and `k`
/// is their logarithm.
pub proof fn powers_of_two(k: nat)
    ensures
        exp2(k) == pow(2, k),
        is_pow2(exp2(k) as int),
        log2(exp2(k) as int) == k,
    decreases k,
{
    lemma_pow0(2);
    exp2_is_pow2(k);
    if k > 0 {
        powers_of_two((k - 1) as nat);
        assert(pow(2, k) == 2 * pow(2, (k - 1) as nat)) by {
            reveal_with_fuel(pow, 2);
        }
    }
}

/// Bit `k` of `i`.
pub open spec fn bit(i: int, k: nat) -> int {
    (i / (exp2(k) as int)) % 2
}

/// Lower bits do not depend on a higher power of two.
proof fn low_bits(i: int, k: nat, n: nat)
    requires
        k < n,
        exp2(n) <= i,
    ensures
        bit(i - exp2(n), k) == bit(i, k),
{
    let e = exp2(k) as int;
    let m = exp2((n - k - 1) as nat) as int;
    exp2_is_pow2(k);
    exp2_adds(k, (n - k) as nat);
    assert(exp2((n - k) as nat) == 2 * m);
    let q = i / e;
    lemma_fundamental_div_mod(i, e);
    lemma_mod_bound(i, e);
    assert(i - e * (2 * m) == (q - 2 * m) * e + i % e) by (nonlinear_arith)
        requires
            i == e * q + i % e,
    ;
    lemma_fundamental_div_mod_converse(i - exp2(n), e, q - 2 * m, i % e);
}

/// The highest bit tells the halves apart.
proof fn high_bit(i: int, n: nat)
    requires
        0 <= i < exp2(n + 1),
    ensures
        bit(i, n) == if i >= exp2(n) {
            1int
        } else {
            0int
        },
{
    let h = exp2(n) as int;
    exp2_is_pow2(n);
    assert(exp2(n + 1) == 2 * h);
    if i >= h {
        lemma_fundamental_div_mod_converse(i, h, 1, i - h);
    } else {
        lemma_fundamental_div_mod_converse(i, h, 0, i);
    }
}

/// Where every coordinate is a bit of `i`, the weight of `i` is one and every other
/// weight is zero.
pub proof fn weights_at_corner<F: Residue>(z: Seq<int>, i: int, j: int)
    requires
        0 <= i < exp2(z.len()),
        0 <= j < exp2(z.len()),
        forall|k: int| 0 <= k < z.len() ==> #[trigger] z[k] == bit(i, k as nat),
    ensures
        eq_at::<F>(j, z) == if i == j {
            1int
        } else {
            0int
        },
    decreases z.len(),
{
    canon_consts::<F>();
    if z.len() > 0 {
        let n = (z.len() - 1) as nat;
        let h = exp2(n) as int;
        let zd = z.drop_last();
        high_bit(i, n);
        assert(z.last() == bit(i, n));
        let il = if i >= h { i - h } else { i };
        let jl = if j >= h { j - h } else { j };
        assert forall|k: int| 0 <= k < zd.len() implies #[trigger] zd[k] == bit(il, k as nat) by {
            assert(zd[k] == z[k]);
            assert(z[k] == bit(i, k as nat));
            if i >= h {
                low_bits(i, k as nat, n);
            }
        }
        weights_at_corner::<F>(zd, il, jl);
        f_units::<F>(0);
        f_units::<F>(1);
    }
}

/// The multilinear extension takes the value of index `i` where every coordinate is
/// a bit of `i`, the lowest first.
pub proof fn extension_at_corner<F: Residue>(evals: Seq<int>, z: Seq<int>, i: int)
    requires
        evals.len() == exp2(z.len()),
        vcanon::<F>(evals),
        0 <= i < evals.len(),
        forall|k: int| 0 <= k < z.len() ==> #[trigger] z[k] == bit(i, k as nat),
    ensures
        mle::<F>(evals, z) == evals[i],
{
    let p = vmul::<F>(evals, eq_evals::<F>(z));
    assert(canon::<F>(evals[i]));
    assert forall|j: int| 0 <= j < p.len() implies #[trigger] p[j] == if i == j {
        evals[i]
    } else {
        0int
    } by {
        assert(canon::<F>(evals[j]));
        weights_at_corner::<F>(z, i, j);
        f_units::<F>(evals[j]);
    }
    sum_of_one::<F>(p, i);
}

/// A sum with one term is that term.
proof fn sum_of_one<F: Residue>(p: Seq<int>, i: int)
    requires
        0 <= i < p.len(),
        canon::<F>(p[i]),
        forall|j: int| 0 <= j < p.len() && j != i ==> #[trigger] p[j] == 0,
    ensures
        vsum::<F>(p) == p[i],
{
    let (lo, hi) = (p.take(i), p.skip(i + 1));
    assert(p =~= lo.push(p[i]) + hi);
    vsum_concat::<F>(lo.push(p[i]), hi);
    vsum_push::<F>(lo, p[i]);
    assert(lo =~= vzero(lo.len()));
    assert(hi =~= vzero(hi.len()));
    vsum_zero::<F>(lo.len());
    vsum_zero::<F>(hi.len());
    f_units::<F>(p[i]);
}

/// The coordinates of the point of an index are its bits, the lowest first.
pub proof fn boolean_point_is_bits(index: int, num_vars: nat, k: int)
    requires
        0 <= index,
        0 <= k < num_vars,
    ensures
        boolean_point(index, num_vars).len() == num_vars,
        boolean_point(index, num_vars)[k] == bit(index, k as nat),
    decreases num_vars,
{
    let rest = boolean_point(index / 2, (num_vars - 1) as nat);
    if num_vars > 1 {
        boolean_point_is_bits(index / 2, (num_vars - 1) as nat, if k > 0 { k - 1 } else { 0 });
    }
    if k > 0 {
        let j = (k - 1) as nat;
        exp2_is_pow2(j);
        assert(exp2(k as nat) == 2 * exp2(j));
        vstd::arithmetic::div_mod::lemma_div_denominator(index, 2, exp2(j) as int);
        assert(boolean_point(index, num_vars)[k] == rest[k - 1]);
    } else {
        assert(exp2(0) == 1);
    }
}

/// The number of bits, among the lowest `n`, that `i` and `j` have in common.
pub open spec fn common_bits(i: int, j: int, n: nat) -> nat
    decreases n,
{
    if n == 0 {
        0
    } else {
        let k = (n - 1) as nat;
        common_bits(i, j, k) + (if bit(i, k) == 1 && bit(j, k) == 1 {
            1nat
        } else {
            0
        })
    }
}

proof fn common_low_bits(i: int, j: int, n: nat, m: nat)
    requires
        m <= n,
        0 <= i,
        0 <= j,
    ensures
        i >= exp2(n) ==> common_bits(i - exp2(n), j, m) == common_bits(i, j, m),
        j >= exp2(n) ==> common_bits(i, j - exp2(n), m) == common_bits(i, j, m),
    decreases m,
{
    if m > 0 {
        let k = (m - 1) as nat;
        common_low_bits(i, j, n, k);
        if i >= exp2(n) {
            low_bits(i, k, n);
        }
        if j >= exp2(n) {
            low_bits(j, k, n);
        }
    }
}

/// The entries of a vector, negated where the index has an odd number of bits in
/// common with `j`.
pub open spec fn signed<F: Residue>(x: Seq<int>, j: int, n: nat) -> Seq<int> {
    Seq::new(
        x.len(),
        |i: int|
            if common_bits(i, j, n) % 2 == 0 {
                x[i]
            } else {
                fsub::<F>(0, x[i])
            },
    )
}

/// Entry `j` of the Walsh-Hadamard transform is the sum of all entries, each negated
/// where its index has an odd number of bits in common with `j`.
pub proof fn transform_entries<F: Residue>(x: Seq<int>, n: nat, j: int)
    requires
        x.len() == exp2(n),
        vcanon::<F>(x),
        0 <= j < x.len(),
    ensures
        walsh::<F>(x).len() == x.len(),
        walsh::<F>(x)[j] == vsum::<F>(signed::<F>(x, j, n)),
    decreases n,
{
    let s = signed::<F>(x, j, n);
    exp2_is_pow2(n);
    walsh_shape::<F>(x);
    canon_consts::<F>();
    if n == 0 {
        assert(canon::<F>(x[0]));
        assert(s =~= Seq::<int>::empty().push(x[0]));
        vsum_push::<F>(Seq::empty(), x[0]);
        f_units::<F>(x[0]);
    } else {
        let m = (n - 1) as nat;
        let h = exp2(m) as int;
        assert(x.len() == 2 * h);
        assert(x.len() / 2 == h);
        let (xl, xh) = (x.take(h), x.skip(h));
        let jl = if j >= h { j - h } else { j };
        assert forall|i: int| 0 <= i < h implies canon::<F>(#[trigger] xl[i]) && canon::<F>(
            xh[i],
        ) by {
            assert(canon::<F>(x[i]) && canon::<F>(x[h + i]));
        }
        assert(vcanon::<F>(xh)) by {
            assert forall|i: int| 0 <= i < h implies canon::<F>(#[trigger] xh[i]) by {
                assert(canon::<F>(x[h + i]));
            }
        }
        transform_entries::<F>(xl, m, jl);
        transform_entries::<F>(xh, m, jl);
        let (sl, sh) = (signed::<F>(xl, jl, m), signed::<F>(xh, jl, m));
        let tail = if j >= h { vsub::<F>(vzero(h as nat), sh) } else { sh };
        high_bit(j, m);
        assert forall|i: int| 0 <= i < x.len() implies s[i] == (sl + tail)[i] by {
            high_bit(i, m);
            common_low_bits(i, j, m, m);
            if i >= h {
                common_low_bits(i - h, j, m, m);
                let v = xh[i - h];
                assert(canon::<F>(v));
                negated_twice::<F>(v);
            }
        }
        assert(s =~= sl + tail);
        vsum_concat::<F>(sl, tail);
        vsum_zero::<F>(h as nat);
        vsum_sub::<F>(vzero(h as nat), sh);
        let (a, b) = (vsum::<F>(sl), vsum::<F>(sh));
        vsum_canon::<F>(sl);
        vsum_canon::<F>(sh);
        if j >= h {
            add_negated::<F>(a, b);
        }
    }
}

proof fn negated_twice<F: Residue>(v: int)
    requires
        canon::<F>(v),
    ensures
        fsub::<F>(0, fsub::<F>(0, v)) == v,
{
    ops_red::<F>(0, v);
    ops_red::<F>(0, fsub::<F>(0, v));
    red_red::<F>(0 - v);
    red_sub::<F>(0, 0 - v);
    red_id::<F>(v);
}

proof fn add_negated<F: Residue>(a: int, b: int)
    ensures
        fadd::<F>(a, fsub::<F>(0, b)) == fsub::<F>(a, b),
{
    ops_red::<F>(0, b);
    ops_red::<F>(a, b);
    ops_red::<F>(a, fsub::<F>(0, b));
    red_red::<F>(0 - b);
    red_add::<F>(a, 0 - b);
}

/// The transform of a parity block is, entry by entry, the length times coefficient
/// times transform of the message.
pub proof fn parity_block_transform<F: Residue>(msg: Seq<int>, e: Seq<int>, n: nat, k: int)
    requires
        msg.len() == exp2(n),
        e.len() == msg.len(),
        vcanon::<F>(msg),
        0 <= k < msg.len(),
    ensures
        parity::<F>(msg, e).len() == msg.len(),
        walsh::<F>(parity::<F>(msg, e))[k] == fmul::<F>(
            red::<F>(msg.len() as int),
            fmul::<F>(vsum::<F>(signed::<F>(msg, k, n)), e[k]),
        ),
{
    exp2_is_pow2(n);
    walsh_shape::<F>(msg);
    let p = vmul::<F>(walsh::<F>(msg), e);
    assert(vcanon::<F>(p)) by {
        broadcast use crate::field::fmul_canon;

    }
    walsh_shape::<F>(p);
    walsh_twice::<F>(p);
    transform_entries::<F>(msg, n, k);
}

/// A memory tuple is hashed to address plus `gamma` times value plus the square of
/// `gamma` times timestamp, minus `tau`.
pub proof fn memory_hash_is_polynomial<F: Residue>(
    address: int,
    value: int,
    timestamp: int,
    gamma: int,
    tau: int,
)
    ensures
        memory_hash::<F>(address, value, timestamp, gamma, tau) == (address + gamma * value + gamma
            * gamma * timestamp - tau) % F::modulus(),
{
    let (gv, gg) = (gamma * value, gamma * gamma);
    reveal(red);
    ops_red::<F>(gamma, value);
    ops_red::<F>(gamma, gamma);
    ops_red::<F>(fmul::<F>(gamma, gamma), timestamp);
    ops_red::<F>(gg, timestamp);
    red_red::<F>(gg);
    red_red::<F>(gv);
    let a = fadd::<F>(address, fmul::<F>(gamma, value));
    ops_red::<F>(address, fmul::<F>(gamma, value));
    ops_red::<F>(address, gv);
    let t = fmul::<F>(fmul::<F>(gamma, gamma), timestamp);
    ops_red::<F>(a, t);
    red_red::<F>(address + gv);
    red_red::<F>(gg * timestamp);
    red_add::<F>(address + gv, gg * timestamp);
    let b = fadd::<F>(a, t);
    ops_red::<F>(b, tau);
    red_red::<F>(address + gv + gg * timestamp);
    red_sub::<F>(address + gv + gg * timestamp, tau);
}

/// The number of occurrences of an address is its multiplicity.
pub proof fn occurrences_are_counted(addresses: Seq<int>, a: int)
    ensures
        occurrences(addresses, a) == addresses.to_multiset().count(a),
    decreases addresses.len(),
{
    broadcast use vstd::seq_lib::group_to_multiset_ensures;

    if addresses.len() > 0 {
        let front = addresses.drop_last();
        occurrences_are_counted(front, a);
        assert(addresses =~= front.push(addresses.last()));
    }
}

/// The timestamp that an access reads is the number of earlier accesses to its
/// address; the timestamp left in a cell is the number of all accesses to it.
pub proof fn timestamps_count_accesses(addresses: Seq<int>, cells: nat, i: int, a: int)
    requires
        0 <= i < addresses.len(),
        0 <= a < cells,
    ensures
        read_counts(addresses).len() == addresses.len(),
        read_counts(addresses)[i] == addresses.take(i).to_multiset().count(addresses[i]),
        audit_counts(addresses, cells).len() == cells,
        audit_counts(addresses, cells)[a] == addresses.to_multiset().count(a),
{
    occurrences_are_counted(addresses.take(i), addresses[i]);
    occurrences_are_counted(addresses, a);
}

/// The number of proximity tests is the least positive number of tests whose bits
/// add up to the security demanded.
pub proof fn proximity_tests_are_least(field_bits: int, codeword_len: int, security_bits: int, t: int)
    requires
        field_bits > log2(codeword_len),
        security_bits >= 0,
    ensures
        ({
            let tests = proximity_tests(field_bits, codeword_len, security_bits);
            let bits = field_bits - log2(codeword_len);
            &&& tests >= 1
            &&& tests * bits >= security_bits
            &&& t >= 1 && t * bits >= security_bits ==> t >= tests
        }),
{
    let b = field_bits - log2(codeword_len);
    let s = security_bits;
    let c = ceil_div(s, b);
    lemma_fundamental_div_mod(s, b);
    lemma_mod_bound(s, b);
    let q = s / b;
    assert(q * b <= s < (q + 1) * b) by (nonlinear_arith)
        requires
            s == b * q + s % b,
            0 <= s % b < b,
    ;
    assert(s % b == 0 ==> q * b == s) by (nonlinear_arith)
        requires
            s == b * q + s % b,
    ;
    assert(q >= 0) by (nonlinear_arith)
        requires
            s < (q + 1) * b,
            s >= 0,
            b > 0,
    ;
    assert(c * b >= s);
    if c < 1 {
        assert(1 * b >= s);
    }
    if t >= 1 && t * b >= s && t < proximity_tests(field_bits, codeword_len, s) {
        assert(t <= c - 1);
        assert(t * b <= (c - 1) * b) by (nonlinear_arith)
            requires
                t <= c - 1,
                b > 0,
        ;
        if s % b == 0 {
            assert((q - 1) * b == q * b - b) by (nonlinear_arith);
        } else {
            assert(q * b < s) by (nonlinear_arith)
                requires
                    s == b * q + s % b,
                    s % b > 0,
            ;
        }
    }
}

/// The coefficients of the cells of one input that lead to output `j`.
pub open spec fn coefficients_to(cells: Seq<Cell>, j: int) -> Seq<int> {
    Seq::new(
        cells.len(),
        |k: int|
            if cells[k].out == j {
                cells[k].coeff
            } else {
                0
            },
    )
}

/// What one input contributes to output `j` is the input times the sum of the
/// coefficients of its cells that lead there.
pub proof fn cells_add_up<F: Residue>(cells: Seq<Cell>, x: int, j: int)
    ensures
        cells_image::<F>(cells, x, j) == (x * total(coefficients_to(cells, j))) % F::modulus(),
    decreases cells.len(),
{
    let c = coefficients_to(cells, j);
    canon_consts::<F>();
    reveal(red);
    if cells.len() == 0 {
        assert(x * 0 == 0) by (nonlinear_arith);
        assert(red::<F>(0) == 0);
    } else {
        let front = cells.drop_last();
        let cf = coefficients_to(front, j);
        cells_add_up::<F>(front, x, j);
        assert(c.drop_last() =~= cf);
        let t = total(cf);
        assert(total(c) == t + c.last());
        assert(x * (t + c.last()) == x * t + x * c.last()) by (nonlinear_arith);
        if cells.last().out == j {
            let y = cells.last().coeff;
            ops_red::<F>(x, y);
            ops_red::<F>(cells_image::<F>(front, x, j), fmul::<F>(x, y));
            red_red::<F>(x * t);
            red_red::<F>(x * y);
            red_add::<F>(x * t, x * y);
        } else {
            assert(x * 0 == 0) by (nonlinear_arith);
        }
    }
}

/// Output `j` of a sparse matrix is the sum over all inputs of input times the sum of
/// its coefficients that lead there, reduced.
pub proof fn image_is_matrix_product<F: Residue>(rows: Seq<Seq<Cell>>, x: Seq<int>, j: int)
    requires
        x.len() == rows.len(),
    ensures
        image::<F>(rows, x, j) == total(
            Seq::new(rows.len(), |i: int| x[i] * total(coefficients_to(rows[i], j))),
        ) % F::modulus(),
    decreases rows.len(),
{
    let all = Seq::new(rows.len(), |i: int| x[i] * total(coefficients_to(rows[i], j)));
    canon_consts::<F>();
    reveal(red);
    if rows.len() == 0 {
        assert(red::<F>(0) == 0);
    } else {
        let (rf, xf) = (rows.drop_last(), x.drop_last());
        let front = Seq::new(rf.len(), |i: int| xf[i] * total(coefficients_to(rf[i], j)));
        image_is_matrix_product::<F>(rf, xf, j);
        image_of_prefix::<F>(rf, x, xf, j);
        assert(all.drop_last() =~= front);
        assert(total(all) == total(front) + all.last());
        cells_add_up::<F>(rows.last(), x.last(), j);
        red_add::<F>(total(front), all.last());
    }
}

proof fn image_of_prefix<F: Residue>(rows: Seq<Seq<Cell>>, x: Seq<int>, y: Seq<int>, j: int)
    requires
        x.len() >= rows.len(),
        y.len() >= rows.len(),
        forall|i: int| 0 <= i < rows.len() ==> x[i] == #[trigger] y[i],
    ensures
        image::<F>(rows, x, j) == image::<F>(rows, y, j),
    decreases rows.len(),
{
    if rows.len() > 0 {
        image_of_prefix::<F>(rows.drop_last(), x, y, j);
        assert(x[rows.len() - 1] == y[rows.len() - 1]);
    }
}

/// The steps after the base code only append to the codeword.
proof fn word_b_in_codeword<F: PrimeField>(code: Brakedown<F>, msg: Seq<int>, t: nat, u: nat)
    requires
        code.wf(),
        msg.len() == code.row_len,
        t <= u <= code.a@.len(),
    ensures
        word_b(code, msg, t) == word_b(code, msg, u).take(b_offset(code, t)),
        b_offset(code, t) <= word_b(code, msg, u).len(),
    decreases u,
{
    word_b_len(code, msg, t);
    word_b_len(code, msg, u);
    if t < u {
        let v = (u - 1) as nat;
        word_b_in_codeword(code, msg, t, v);
        word_b_len(code, msg, v);
        b_offset_mono(code, t, v);
        assert(word_b(code, msg, u).take(b_offset(code, t)) =~= word_b(code, msg, v).take(
            b_offset(code, t),
        ));
    } else {
        assert(word_b(code, msg, t).take(b_offset(code, t)) =~= word_b(code, msg, t));
    }
}

/// The segment of a codeword that lies between two positions.
pub open spec fn segment(w: Seq<int>, from: int, len: int) -> Seq<int> {
    w.subrange(from, from + len)
}

/// A codeword begins with the message, and every inner segment is the image of the
/// one before it.
pub proof fn codeword_inner_segments<F: PrimeField>(code: Brakedown<F>, msg: Seq<int>, i: int)
    requires
        code.wf(),
        msg.len() == code.row_len,
        0 <= i < code.a@.len() - 1,
    ensures
        ({
            let w = codeword(code, msg);
            let (a, next) = (code.a@[i], code.a@[i + 1]);
            let (at, after) = (a_offset(code.a@, i as nat), a_offset(code.a@, (i + 1) as nat));
            &&& w.take(msg.len() as int) == msg
            &&& after == at + a.n
            &&& next.n == a.m
            &&& after + a.m <= w.len()
            &&& segment(w, after, a.m as int) == image_vec::<F>(
                a.cells(),
                segment(w, at, a.n as int),
                a.m as nat,
            )
        }),
{
    let w = codeword(code, msg);
    let a = code.a@[i];
    let (at, after) = (a_offset(code.a@, i as nat), a_offset(code.a@, (i + 1) as nat));
    let (x, y) = (word_a(code, msg, i as nat), word_a(code, msg, (i + 1) as nat));
    word_a_in_codeword(code, msg, 0);
    word_a_in_codeword(code, msg, i as nat);
    word_a_in_codeword(code, msg, (i + 1) as nat);
    word_a_len(code, msg, i as nat);
    word_a_len(code, msg, (i + 1) as nat);
    a_offset_mono(code.a@, i as nat, (i + 1) as nat);
    a_offset_mono(code.a@, 0, i as nat);
    assert(a_offset(code.a@, 1) == a_offset(code.a@, 0) + code.a@[0].n);
    assert(code.a@[i + 1].n == code.a@[i].m);
    assert(a_offset(code.a@, (i + 2) as nat) == after + a.m);
    assert(x.subrange(at, at + a.n) =~= segment(w, at, a.n as int));
    let im = image_vec::<F>(a.cells(), x.subrange(at, at + a.n), a.m as nat);
    assert(y == x + im);
    assert(segment(w, after, a.m as int) =~= y.subrange(after, after + a.m));
    assert(y.subrange(after, after + a.m) =~= im);
}

/// The base segment of a codeword is the Reed-Solomon codeword of the image of the
/// last inner segment.
pub proof fn codeword_base_segment<F: PrimeField>(code: Brakedown<F>, msg: Seq<int>)
    requires
        code.wf(),
        msg.len() == code.row_len,
    ensures
        ({
            let w = codeword(code, msg);
            let k = code.a@.len();
            let last = code.a@[k - 1];
            let (at, after) = (a_offset(code.a@, (k - 1) as nat), a_offset(code.a@, k));
            let n = code.b@[k - 1].n;
            &&& w.take(msg.len() as int) == msg
            &&& after == at + last.n
            &&& after + n <= w.len()
            &&& segment(w, after, n as int) == reed_solomon::<F>(
                image_vec::<F>(last.cells(), segment(w, at, last.n as int), last.m as nat),
                n as nat,
            )
        }),
{
    let w = codeword(code, msg);
    let k = code.a@.len();
    let last = code.a@[k - 1];
    let (at, after) = (a_offset(code.a@, (k - 1) as nat), a_offset(code.a@, k));
    let n = code.b@[k - 1].n;
    let x = word_a(code, msg, (k - 1) as nat);
    let y = word_b(code, msg, 0);
    word_a_in_codeword(code, msg, 0);
    word_a_in_codeword(code, msg, (k - 1) as nat);
    word_a_len(code, msg, (k - 1) as nat);
    word_b_in_codeword(code, msg, 0, k);
    word_b_len(code, msg, 0);
    a_offset_mono(code.a@, (k - 1) as nat, k);
    assert(a_offset(code.a@, 1) == a_offset(code.a@, 0) + code.a@[0].n);
    assert(x.subrange(at, at + last.n) =~= segment(w, at, last.n as int));
    let rs = reed_solomon::<F>(
        image_vec::<F>(last.cells(), x.subrange(at, at + last.n), last.m as nat),
        n as nat,
    );
    assert(y == x + rs);
    assert(segment(w, after, n as int) =~= y.subrange(after, after + n));
    assert(y.subrange(after, after + n) =~= rs);
}

/// Every segment of a codeword after the base segment is the image of what begins at
/// the inner segment of its level.
pub proof fn codeword_outer_segments<F: PrimeField>(code: Brakedown<F>, msg: Seq<int>, t: nat)
    requires
        code.wf(),
        msg.len() == code.row_len,
        t < code.a@.len(),
    ensures
        ({
            let w = codeword(code, msg);
            let k = code.a@.len();
            let m = code.b@[k - 1 - t];
            let at = a_offset(code.a@, (k - t) as nat);
            let (from, to) = (b_offset(code, t), b_offset(code, t + 1));
            &&& to == from + m.m
            &&& to <= w.len()
            &&& at + m.n <= from
            &&& w.len() == code.codeword_len
            &&& segment(w, from, m.m as int) == image_vec::<F>(
                m.cells(),
                segment(w, at, m.n as int),
                m.m as nat,
            )
        }),
{
    let w = codeword(code, msg);
    let k = code.a@.len();
    let m = code.b@[k - 1 - t];
    let at = a_offset(code.a@, (k - t) as nat);
    let (from, to) = (b_offset(code, t), b_offset(code, t + 1));
    let (x, y) = (word_b(code, msg, t), word_b(code, msg, t + 1));
    word_b_in_codeword(code, msg, t, k);
    word_b_in_codeword(code, msg, t + 1, k);
    word_b_len(code, msg, t);
    word_b_len(code, msg, t + 1);
    word_b_len(code, msg, k);
    a_offset_mono(code.a@, 0, (k - t) as nat);
    assert(k - (t + 1) == k - 1 - t);
    assert(x.subrange(at, at + m.n) =~= segment(w, at, m.n as int));
    let im = image_vec::<F>(m.cells(), x.subrange(at, at + m.n), m.m as nat);
    assert(y == x + im);
    assert(segment(w, from, m.m as int) =~= y.subrange(from, from + m.m));
    assert(y.subrange(from, from + m.m) =~= im);
}

/// The number that decimal digits stand for.
pub open spec fn read_digits(text: Seq<char>) -> int
    decreases text.len(),
{
    if text.len() == 0 {
        0
    } else {
        10 * read_digits(text.drop_last()) + (text.last() as int - '0' as int)
    }
}

/// The decimal digits of a number stand for it, and are digits.
pub proof fn decimal_stands_for(n: nat)
    ensures
        read_digits(decimal(n)) == n,
        decimal(n).len() >= 1,
        forall|i: int|
            0 <= i < decimal(n).len() ==> '0' as int <= #[trigger] decimal(n)[i] as int
                && decimal(n)[i] as int <= '9' as int,
        1 <= n ==> decimal(n)[0] != '0',
    decreases n,
{
    let d = (n % 10) as int;
    assert(0 <= d < 10);
    assert(digit(d) as int == 48 + d);
    if n < 10 {
        assert(seq![digit(n as int)].drop_last() =~= Seq::<char>::empty());
        assert(read_digits(Seq::empty()) == 0);
        assert(read_digits(decimal(n)) == 10 * 0 + d);
    } else {
        decimal_stands_for(n / 10);
        let front = decimal(n / 10);
        assert(front.push(digit(d)).drop_last() =~= front);
        assert(decimal(n)[0] == front[0]);
        assert(read_digits(decimal(n)) == 10 * (n / 10) + d);
    }
}

/// The shape that was chosen has the least objective of all candidate shapes, and the
/// shortest rows of those: no candidate of smaller rows has an objective as
/// small. Its rows make up the whole polynomial.
pub proof fn chosen_shape_is_best(
    s: QAPCSShape,
    other: QAPCSShape,
    policy: QAPCSPolicy,
    total_vars: int,
    field_bits: int,
    queries: Seq<usize>,
)
    requires
        total_vars >= 0,
        best_at(
            s,
            policy,
            total_vars,
            s.row_log_size as int,
            total_vars,
            field_bits,
            queries,
        ),
        is_shape(
            other,
            policy,
            total_vars,
            other.row_log_size as int,
            field_bits,
            queries[other.row_log_size as int] as int,
        ),
        policy.min_row_log_size <= other.row_log_size <= total_vars || other.row_log_size
            == total_vars,
    ensures
        s.proof_proxy <= other.proof_proxy,
        other.row_log_size < s.row_log_size ==> s.proof_proxy < other.proof_proxy,
        s.row_log_size <= total_vars,
        s.row_log_size >= policy.min_row_log_size || s.row_log_size == total_vars,
        s.row_len == exp2(s.row_log_size as nat),
        s.num_rows * s.row_len == exp2(total_vars as nat),
        s.codeword_len == policy.inverse_rate * s.row_len,
        s.num_column_opening == queries[s.row_log_size as int],
{
    let (r, c) = (s.row_log_size as int, other.row_log_size as int);
    exp2_adds((total_vars - r) as nat, r as nat);
    assert(objective(policy, total_vars, r, field_bits, queries) == s.proof_proxy);
    assert(objective(policy, total_vars, c, field_bits, queries) == other.proof_proxy);
}

/// The vectors of a sparse matrix hold row, column and value of every entry, and zeros
/// behind the last.
pub proof fn matrix_vectors_hold_entries<F: Residue>(
    entries: Seq<Entry>,
    num_ops: nat,
    cells: nat,
    k: int,
)
    requires
        entries.len() <= num_ops,
        0 <= k < num_ops,
    ensures
        ({
            let v = static_vectors::<F>(entries, num_ops, cells);
            &&& v.len() == 7
            &&& v[0].len() == num_ops
            &&& v[1].len() == num_ops
            &&& v[2].len() == num_ops
            &&& k < entries.len() ==> {
                &&& v[0][k] == entries[k].row % F::modulus()
                &&& v[1][k] == entries[k].col % F::modulus()
                &&& v[2][k] == entries[k].value
            }
            &&& k >= entries.len() ==> v[0][k] == 0 && v[1][k] == 0 && v[2][k] == 0
        }),
{
    reveal(red);
    canon_consts::<F>();
}

proof fn total_first(a: int, s: Seq<int>)
    ensures
        total(seq![a] + s) == a + total(s),
    decreases s.len(),
{
    let all = seq![a] + s;
    if s.len() == 0 {
        assert(all =~= seq![a]);
        assert(all.drop_last() =~= Seq::<int>::empty());
        assert(total(all) == total(all.drop_last()) + all.last());
    } else {
        total_first(a, s.drop_last());
        assert(all.drop_last() =~= seq![a] + s.drop_last());
        assert(total(all) == total(all.drop_last()) + all.last());
        assert(total(s) == total(s.drop_last()) + s.last());
    }
}

proof fn total_scaled(x: int, s: Seq<int>)
    ensures
        total(Seq::new(s.len(), |i: int| x * s[i])) == x * total(s),
    decreases s.len(),
{
    let all = Seq::new(s.len(), |i: int| x * s[i]);
    if s.len() == 0 {
        assert(x * 0 == 0) by (nonlinear_arith);
    } else {
        let front = s.drop_last();
        total_scaled(x, front);
        assert(all.drop_last() =~= Seq::new(front.len(), |i: int| x * front[i]));
        assert(total(all) == total(all.drop_last()) + all.last());
        assert(total(s) == total(front) + s.last());
        assert(x * (total(front) + s.last()) == x * total(front) + x * s.last())
            by (nonlinear_arith);
    }
}

/// The value of a polynomial is the sum of coefficient times power, reduced.
pub proof fn coefficients_evaluate<F: Residue>(c: Seq<int>, x: int)
    ensures
        coeff_value::<F>(c, x) == total(Seq::new(c.len(), |k: int| c[k] * pow(x, k as nat)))
            % F::modulus(),
    decreases c.len(),
{
    let all = Seq::new(c.len(), |k: int| c[k] * pow(x, k as nat));
    canon_consts::<F>();
    reveal(red);
    if c.len() == 0 {
        assert(red::<F>(0) == 0);
    } else {
        let d = c.drop_first();
        let rest = Seq::new(d.len(), |k: int| d[k] * pow(x, k as nat));
        let shifted = Seq::new(rest.len(), |k: int| x * rest[k]);
        coefficients_evaluate::<F>(d, x);
        assert forall|k: int| 0 <= k < c.len() implies all[k] == (seq![c[0]] + shifted)[k] by {
            if k == 0 {
                lemma_pow0(x);
            } else {
                let p = pow(x, (k - 1) as nat);
                assert(pow(x, k as nat) == x * p) by {
                    reveal_with_fuel(pow, 2);
                }
                assert(c[k] * (x * p) == x * (c[k] * p)) by (nonlinear_arith);
            }
        }
        assert(all =~= seq![c[0]] + shifted);
        total_first(c[0], shifted);
        total_scaled(x, rest);
        let t = total(rest);
        ops_red::<F>(x, red::<F>(t));
        ops_red::<F>(x, t);
        red_red::<F>(t);
        ops_red::<F>(c[0], red::<F>(x * t));
        ops_red::<F>(c[0], x * t);
        red_red::<F>(x * t);
    }
}

/// The values of a polynomial of low degree at the first places give its value at every
/// place.
pub proof fn message_evaluates<F: Residue>(c: Seq<int>, e: Seq<int>, x: int)
    requires
        vcanon::<F>(c),
        e.len() == c.len(),
        c.len() <= MAX_SMALL + 1,
        forall|i: int|
            0 <= i < e.len() ==> #[trigger] e[i] == total(
                Seq::new(c.len(), |k: int| c[k] * pow(red::<F>(i), k as nat)),
            ) % F::modulus(),
    ensures
        poly_value::<F>(e, x) == total(Seq::new(c.len(), |k: int| c[k] * pow(x, k as nat)))
            % F::modulus(),
{
    values_determine_polynomial::<F>(c, x);
    coefficients_evaluate::<F>(c, x);
    assert forall|i: int| 0 <= i < e.len() implies e[i] == coeff_value::<F>(c, red::<F>(i)) by {
        coefficients_evaluate::<F>(c, red::<F>(i));
    }
    assert(e =~= Seq::new(c.len(), |i: int| coeff_value::<F>(c, red::<F>(i))));
}

/// Values combined with the powers of a challenge are the value of the polynomial with
/// those coefficients.
pub proof fn batch_is_polynomial<F: Residue>(alpha: int, v: Seq<int>)
    ensures
        batch_value::<F>(alpha, v) == total(Seq::new(v.len(), |i: int| v[i] * pow(alpha, i as nat)))
            % F::modulus(),
{
    let p = pows::<F>(alpha, v.len());
    pows_step::<F>(alpha, v.len());
    dot_is_total::<F>(p, v);
    let a = Seq::new(v.len(), |i: int| p[i] * v[i]);
    let b = Seq::new(v.len(), |i: int| v[i] * pow(alpha, i as nat));
    assert(Seq::new(p.len(), |i: int| p[i] * v[i]) =~= a);
    let ra = Seq::new(a.len(), |k: int| red::<F>(a[k]));
    let rb = Seq::new(b.len(), |k: int| red::<F>(b[k]));
    assert forall|k: int| 0 <= k < a.len() implies ra[k] == rb[k] by {
        powers_are_powers::<F>(alpha, v.len(), k as nat);
        reveal(red);
        let q = pow(alpha, k as nat);
        assert(p[k] * v[k] == v[k] * p[k]) by (nonlinear_arith);
        ops_red::<F>(v[k], p[k]);
        ops_red::<F>(v[k], q);
        red_red::<F>(q);
    }
    assert(ra =~= rb);
    total_of_reduced::<F>(a);
    total_of_reduced::<F>(b);
}

/// The weight of an output is a power of the challenge of the instances times a power
/// of the challenge of the blocks.
pub proof fn output_weights_are_powers<F: PrimeField>(
    ch: GkrChallenges<F>,
    k: nat,
    np: nat,
    num_vars: nat,
    b: int,
    i: int,
)
    requires
        ch.wf(k, np, num_vars),
        0 <= b < k,
        0 <= i < np,
    ensures
        ch.weights(k, np).len() == k * np,
        ch.weights(k, np)[b * np + i] == (pow(ch.instance_batch_challenge.val(), b as nat) * pow(
            ch.block_batch_challenge.val(),
            i as nat,
        )) % F::modulus(),
{
    let (x, y) = (ch.instance_batch_challenge.val(), ch.block_batch_challenge.val());
    powers_are_powers::<F>(x, k, b as nat);
    powers_are_powers::<F>(y, np, i as nat);
    flat_index(b, i, np as int);
    row_bounds(b, k, np);
    reveal(red);
    assert(vals(ch.instance_powers@)[b] == ch.instance_powers@[b].val());
    assert(vals(ch.block_powers@)[i] == ch.block_powers@[i].val());
    red_mul::<F>(pow(x, b as nat), pow(y, i as nat));
}

/// A product of factors is the product of their values, reduced.
pub proof fn factors_multiply<F: Residue>(factors: Seq<usize>, values: Seq<int>)
    ensures
        product_at::<F>(factors, values) == product(
            Seq::new(factors.len(), |i: int| values[factors[i] as int]),
        ) % F::modulus(),
    decreases factors.len(),
{
    let v = Seq::new(factors.len(), |i: int| values[factors[i] as int]);
    canon_consts::<F>();
    reveal(red);
    if factors.len() == 0 {
        assert(red::<F>(1) == 1);
    } else {
        let fd = factors.drop_last();
        let vd = Seq::new(fd.len(), |i: int| values[fd[i] as int]);
        factors_multiply::<F>(fd, values);
        assert(v.drop_last() =~= vd);
        assert(product(v) == product(vd) * v.last());
        ops_red::<F>(red::<F>(product(vd)), v.last());
        ops_red::<F>(product(vd), v.last());
        red_red::<F>(product(vd));
    }
}

/// The summand of a sum-check is the sum over the terms of coefficient times product of
/// factors, reduced.
pub proof fn terms_add_up<F: Residue>(terms: Seq<Term>, values: Seq<int>)
    ensures
        summand::<F>(terms, values) == total(
            Seq::new(
                terms.len(),
                |t: int|
                    terms[t].coeff * product(
                        Seq::new(
                            terms[t].factors.len(),
                            |i: int| values[terms[t].factors[i] as int],
                        ),
                    ),
            ),
        ) % F::modulus(),
    decreases terms.len(),
{
    let all = Seq::new(
        terms.len(),
        |t: int|
            terms[t].coeff * product(
                Seq::new(terms[t].factors.len(), |i: int| values[terms[t].factors[i] as int]),
            ),
    );
    canon_consts::<F>();
    reveal(red);
    if terms.len() == 0 {
        assert(red::<F>(0) == 0);
    } else {
        let td = terms.drop_last();
        let front = Seq::new(
            td.len(),
            |t: int|
                td[t].coeff * product(
                    Seq::new(td[t].factors.len(), |i: int| values[td[t].factors[i] as int]),
                ),
        );
        terms_add_up::<F>(td, values);
        assert forall|t: int| 0 <= t < front.len() implies all[t] == front[t] by {
            assert(td[t] == terms[t]);
        }
        assert(all.drop_last() =~= front);
        assert(total(all) == total(front) + all.last());
        let last = terms.last();
        let q = product(Seq::new(last.factors.len(), |i: int| values[last.factors[i] as int]));
        factors_multiply::<F>(last.factors, values);
        ops_red::<F>(last.coeff, red::<F>(q));
        ops_red::<F>(last.coeff, q);
        red_red::<F>(q);
        red_add::<F>(total(front), last.coeff * q);
    }
}

} // verus!
