//! The memory of a sparse matrix: addresses, timestamps, and the hashes of the
//! offline memory check.

use crate::field::{
    canon, canon_consts, f_interpolate, f_units, fadd, fadd_comm, fmul, fmul_assoc, fmul_canon,
    fmul_comm, fsub, ops_red, red, red_add, red_canon, PrimeField, Residue,
};
use crate::linear::{
    dot_add, dot_canon, dot_scale, dot_sub, ints, mat, vadd, vals, vals_push, vscale, vsub, vzero,
};
use crate::mle::{eq_evals, exp2, exp2_mono, mle, mle_halves, mle_point};
use crate::parity::{entries_of, entries_within, Entry, SparseEntry};
use crate::qa_code::is_pow2;
use vstd::prelude::*;

verus! {

/// The smallest power of two that is not below `x`.
pub open spec fn next_pow2(x: int) -> int
    decreases x,
{
    if x <= 1 {
        1
    } else {
        2 * next_pow2((x + 1) / 2)
    }
}

/// `next_pow2` is the least power of two that is not below its argument.
pub proof fn next_pow2_least(x: int, p: int)
    requires
        is_pow2(p),
        p >= x,
    ensures
        is_pow2(next_pow2(x)),
        x <= next_pow2(x) <= p,
    decreases x,
{
    if x > 1 {
        assert(is_pow2(p / 2));
        next_pow2_least((x + 1) / 2, p / 2);
    } else {
        assert(p >= 1);
    }
}

/// Rounding up ends in a power of two that is large enough.
pub proof fn next_pow2_is_pow2(x: int)
    ensures
        is_pow2(next_pow2(x)),
        next_pow2(x) >= x,
        next_pow2(x) >= 1,
    decreases x,
{
    if x > 1 {
        next_pow2_is_pow2((x + 1) / 2);
    }
}

/// Powers of two are not rounded.
pub proof fn next_pow2_fixed(p: int)
    requires
        is_pow2(p),
    ensures
        next_pow2(p) == p,
{
    next_pow2_least(p, p);
}

/// The smallest power of two that is not below `x`.
pub fn next_power_of_two(x: usize) -> (r: usize)
    requires
        next_pow2(x as int) <= usize::MAX,
    ensures
        r == next_pow2(x as int),
{
    let mut r: usize = 1;
    proof {
        next_pow2_is_pow2(x as int);
    }
    while r < x
        invariant
            r >= 1,
            is_pow2(r as int),
            is_pow2(next_pow2(x as int)),
            x <= next_pow2(x as int) <= usize::MAX,
            r <= next_pow2(x as int),
        decreases next_pow2(x as int) - r,
    {
        proof {
            pow2_double(r as int, next_pow2(x as int));
        }
        r = r * 2;
    }
    proof {
        next_pow2_least(x as int, r as int);
    }
    r
}

/// A larger power of two is at least twice a smaller one.
proof fn pow2_double(a: int, b: int)
    requires
        is_pow2(a),
        is_pow2(b),
        a < b,
    ensures
        2 * a <= b,
        is_pow2(2 * a),
    decreases a,
{
    assert((2 * a) / 2 == a);
    if a > 1 {
        pow2_double(a / 2, b / 2);
    }
}

/// A vector padded with zeros.
pub open spec fn padded(v: Seq<int>, len: nat) -> Seq<int> {
    v + vzero((len - v.len()) as nat)
}

/// A point extended by zeros.
pub open spec fn extended(point: Seq<int>, num_vars: nat) -> Seq<int> {
    point + vzero((num_vars - point.len()) as nat)
}

/// Pads a vector with zeros to a power of two.
pub fn pad_poly<F: PrimeField>(values: Vec<F>, len: usize) -> (r: Vec<F>)
    requires
        is_pow2(len as int),
        values@.len() <= len,
    ensures
        vals(r@) == padded(vals(values@), len as nat),
        r@.len() == len,
{
    let ghost v = vals(values@);
    let mut out = values;
    assert(vals(out@) =~= padded(v, out@.len()));
    while out.len() < len
        invariant
            v.len() <= out@.len() <= len,
            vals(out@) == padded(v, out@.len()),
        decreases len - out@.len(),
    {
        let ghost before = out@;
        out.push(F::zero());
        proof {
            vals_push(before, out@[out@.len() - 1]);
            assert(vals(out@) =~= padded(v, out@.len()));
        }
    }
    out
}

/// Extends a point by zeros.
pub fn extend_point<F: PrimeField>(point: &[F], num_vars: usize) -> (r: Vec<F>)
    requires
        point@.len() <= num_vars,
    ensures
        vals(r@) == extended(vals(point@), num_vars as nat),
        r@.len() == num_vars,
{
    let ghost p = vals(point@);
    let mut out = crate::qa_code::copied(point);
    assert(vals(out@).len() == out@.len());
    assert(vals(out@) =~= extended(p, out@.len()));
    while out.len() < num_vars
        invariant
            p.len() <= out@.len() <= num_vars,
            vals(out@) == extended(p, out@.len()),
        decreases num_vars - out@.len(),
    {
        let ghost before = out@;
        out.push(F::zero());
        proof {
            vals_push(before, out@[out@.len() - 1]);
            assert(vals(out@) =~= extended(p, out@.len()));
        }
    }
    out
}

/// Padding a vector and extending the point leave the evaluation unchanged.
pub proof fn padding_keeps_evaluation<F: Residue>(v: Seq<int>, point: Seq<int>, num_vars: nat)
    requires
        v.len() == exp2(point.len()),
        point.len() <= num_vars,
    ensures
        mle::<F>(padded(v, exp2(num_vars)), extended(point, num_vars)) == mle::<F>(v, point),
    decreases num_vars,
{
    if num_vars == point.len() {
        assert(padded(v, exp2(num_vars)) =~= v);
        assert(extended(point, num_vars) =~= point);
    } else {
        let d = (num_vars - 1) as nat;
        padding_keeps_evaluation::<F>(v, point, d);
        exp2_mono(point.len(), d);
        let lo = padded(v, exp2(d));
        let hi = vzero(exp2(d));
        let z = extended(point, num_vars);
        assert(padded(v, exp2(num_vars)) =~= lo + hi);
        assert(z.drop_last() =~= extended(point, d));
        assert(z.last() == 0);
        mle_halves::<F>(lo, hi, z);
        dot_canon::<F>(lo, eq_evals::<F>(z.drop_last()));
        dot_canon::<F>(hi, eq_evals::<F>(z.drop_last()));
        canon_consts::<F>();
        f_units::<F>(1);
        f_units::<F>(mle::<F>(lo, z.drop_last()));
        f_units::<F>(mle::<F>(hi, z.drop_last()));
    }
}

/// The vector of ones.
pub open spec fn ones(n: nat) -> Seq<int> {
    Seq::new(n, |i: int| 1int)
}

/// The equality polynomial sums to one.
pub proof fn mle_of_ones<F: Residue>(z: Seq<int>)
    ensures
        mle::<F>(ones(exp2(z.len())), z) == 1,
    decreases z.len(),
{
    canon_consts::<F>();
    if z.len() == 0 {
        mle_point::<F>(ones(1), z);
    } else {
        let h = exp2((z.len() - 1) as nat);
        let zl = z.drop_last();
        mle_of_ones::<F>(zl);
        assert(ones(exp2(z.len())) =~= ones(h) + ones(h));
        mle_halves::<F>(ones(h), ones(h), z);
        f_interpolate::<F>(1, 1, z.last());
        f_units::<F>(1);
        ops_red::<F>(z.last(), 0);
        assert(z.last() * 0 == 0) by (nonlinear_arith);
    }
}

/// The number of `a` among the addresses.
pub open spec fn occurrences(addresses: Seq<int>, a: int) -> nat
    decreases addresses.len(),
{
    if addresses.len() == 0 {
        0
    } else {
        let prev = occurrences(addresses.drop_last(), a);
        if addresses.last() == a {
            prev + 1
        } else {
            prev
        }
    }
}

/// An address occurs at most as often as there are addresses.
pub proof fn occurrences_bound(addresses: Seq<int>, a: int)
    ensures
        occurrences(addresses, a) <= addresses.len(),
    decreases addresses.len(),
{
    if addresses.len() > 0 {
        occurrences_bound(addresses.drop_last(), a);
    }
}

/// How often each address was read before.
pub open spec fn read_counts(addresses: Seq<int>) -> Seq<int> {
    Seq::new(
        addresses.len(),
        |i: int| occurrences(addresses.take(i), addresses[i]) as int,
    )
}

/// How often each cell is read.
pub open spec fn audit_counts(addresses: Seq<int>, cells: nat) -> Seq<int> {
    Seq::new(cells, |a: int| occurrences(addresses, a) as int)
}

/// Integers as residues.
pub open spec fn reds<F: Residue>(v: Seq<int>) -> Seq<int> {
    Seq::new(v.len(), |i: int| red::<F>(v[i]))
}

/// The read timestamps of the accesses and the final timestamps of the cells.
pub fn timestamps(addresses: &[usize], cells: usize) -> (r: (Vec<usize>, Vec<usize>))
    requires
        forall|i: int| 0 <= i < addresses@.len() ==> #[trigger] addresses@[i] < cells,
    ensures
        ints(r.0@) == read_counts(ints(addresses@)),
        ints(r.1@) == audit_counts(ints(addresses@), cells as nat),
        r.0@.len() == addresses@.len(),
        r.1@.len() == cells,
{
    let ghost adr = ints(addresses@);
    let mut audit: Vec<usize> = Vec::new();
    while audit.len() < cells
        invariant
            audit@.len() <= cells,
            forall|a: int| 0 <= a < audit@.len() ==> audit@[a] == 0,
        decreases cells - audit@.len(),
    {
        audit.push(0);
    }
    let mut read: Vec<usize> = Vec::new();
    let mut i: usize = 0;
    assert(ints(audit@) =~= audit_counts(adr.take(0), cells as nat));
    while i < addresses.len()
        invariant
            i <= addresses@.len(),
            adr == ints(addresses@),
            forall|i: int| 0 <= i < addresses@.len() ==> #[trigger] addresses@[i] < cells,
            audit@.len() == cells,
            read@.len() == i,
            ints(read@) == read_counts(adr).take(i as int),
            ints(audit@) == audit_counts(adr.take(i as int), cells as nat),
        decreases addresses@.len() - i,
    {
        let address: usize = addresses[i];
        let count: usize = audit[address];
        proof {
            assert(ints(audit@)[address as int] == occurrences(adr.take(i as int), address as int));
            occurrences_bound(adr.take(i as int), address as int);
            assert(adr.take(i as int + 1).drop_last() =~= adr.take(i as int));
            assert(adr.take(i as int + 1).last() == address);
        }
        let ghost before = ints(audit@);
        read.push(count);
        audit.set(address, count + 1);
        i = i + 1;
        proof {
            assert forall|a: int| 0 <= a < cells implies ints(audit@)[a] == occurrences(
                adr.take(i as int),
                a,
            ) by {
                assert(before[a] == occurrences(adr.take(i - 1), a));
            }
            assert(ints(audit@) =~= audit_counts(adr.take(i as int), cells as nat));
            assert(ints(read@) =~= read_counts(adr).take(i as int));
        }
    }
    proof {
        assert(adr.take(i as int) =~= adr);
        assert(read_counts(adr).take(i as int) =~= read_counts(adr));
    }
    (read, audit)
}

/// Integers as field elements.
fn to_field<F: PrimeField>(values: &[usize]) -> (r: Vec<F>)
    ensures
        vals(r@) == reds::<F>(ints(values@)),
        r@.len() == values@.len(),
{
    let ghost goal = reds::<F>(ints(values@));
    let mut out: Vec<F> = Vec::new();
    let mut i: usize = 0;
    while i < values.len()
        invariant
            i <= values@.len(),
            goal == reds::<F>(ints(values@)),
            out@.len() == i,
            vals(out@) == goal.take(i as int),
        decreases values@.len() - i,
    {
        let x = F::from_u64(values[i] as u64);
        proof {
            assert(x.val() == red::<F>(values@[i as int] as int)) by {
                reveal(red);
            }
            vals_push(out@, x);
            assert(goal.take(i as int + 1) =~= goal.take(i as int).push(goal[i as int]));
        }
        out.push(x);
        i = i + 1;
    }
    assert(goal.take(i as int) =~= goal);
    out
}

/// The identity polynomial of `k` variables: the index itself.
pub open spec fn identity<F: Residue>(z: Seq<int>) -> int
    decreases z.len(),
{
    if z.len() == 0 {
        0
    } else {
        fadd::<F>(
            identity::<F>(z.drop_last()),
            fmul::<F>(red::<F>(exp2((z.len() - 1) as nat) as int), z.last()),
        )
    }
}

/// The value at a point of the polynomial that is the index itself.
pub fn identity_eval<F: PrimeField>(point: &[F]) -> (r: F)
    ensures
        r.val() == identity::<F>(vals(point@)),
{
    let ghost z = vals(point@);
    let mut power = F::one();
    let mut acc = F::zero();
    let mut i: usize = 0;
    proof {
        canon_consts::<F>();
    }
    while i < point.len()
        invariant
            i <= point@.len(),
            z == vals(point@),
            power.val() == red::<F>(exp2(i as nat) as int),
            acc.val() == identity::<F>(z.take(i as int)),
        decreases point@.len() - i,
    {
        proof {
            assert(z.take(i as int + 1).drop_last() =~= z.take(i as int));
            red_add::<F>(exp2(i as nat) as int, exp2(i as nat) as int);
        }
        acc = acc.plus(power.times(point[i]));
        power = power.plus(power);
        i = i + 1;
    }
    assert(z.take(i as int) =~= z);
    acc
}

/// The indices `0, 1, ..., n - 1` as residues.
pub open spec fn indices<F: Residue>(n: nat) -> Seq<int> {
    Seq::new(n, |i: int| red::<F>(i))
}

/// The identity polynomial extends the indices.
pub proof fn identity_extends_indices<F: Residue>(z: Seq<int>)
    ensures
        mle::<F>(indices::<F>(exp2(z.len())), z) == identity::<F>(z),
    decreases z.len(),
{
    canon_consts::<F>();
    if z.len() == 0 {
        mle_point::<F>(indices::<F>(1), z);
    } else {
        let h = exp2((z.len() - 1) as nat);
        let zl = z.drop_last();
        identity_extends_indices::<F>(zl);
        mle_of_ones::<F>(zl);
        let lo = indices::<F>(h);
        let c = red::<F>(h as int);
        red_canon::<F>(h as int);
        let shift = vscale::<F>(c, ones(h));
        let hi = vadd::<F>(lo, shift);
        let all = indices::<F>(exp2(z.len()));
        assert forall|i: int| 0 <= i < all.len() implies all[i] == (lo + hi)[i] by {
            if i >= h {
                red_add::<F>(i - h, h as int);
                f_units::<F>(c);
            }
        }
        assert(all =~= lo + hi);
        mle_halves::<F>(lo, hi, z);
        dot_add::<F>(lo, shift, eq_evals::<F>(zl));
        dot_scale::<F>(c, ones(h), eq_evals::<F>(zl));
        let m = mle::<F>(lo, zl);
        dot_canon::<F>(lo, eq_evals::<F>(zl));
        f_units::<F>(c);
        f_interpolate::<F>(m, fadd::<F>(m, c), z.last());
        fadd_comm::<F>(m, c);
        crate::field::f_cancel::<F>(c, m);
        fmul_comm::<F>(z.last(), c);
    }
}

/// The hash of a memory cell: address, value and timestamp.
pub open spec fn memory_hash<F: Residue>(
    address: int,
    value: int,
    timestamp: int,
    gamma: int,
    tau: int,
) -> int {
    fsub::<F>(
        fadd::<F>(
            fadd::<F>(address, fmul::<F>(gamma, value)),
            fmul::<F>(fmul::<F>(gamma, gamma), timestamp),
        ),
        tau,
    )
}

/// Hashes a memory cell.
pub fn hash_memory_tuple<F: PrimeField>(
    address: F,
    value: F,
    timestamp: F,
    gamma: F,
    tau: F,
) -> (r: F)
    ensures
        r.val() == memory_hash::<F>(
            address.val(),
            value.val(),
            timestamp.val(),
            gamma.val(),
            tau.val(),
        ),
{
    address.plus(gamma.times(value)).plus(gamma.times(gamma).times(timestamp)).minus(tau)
}

/// The hashes of a list of cells.
pub open spec fn memory_hashes<F: Residue>(
    addresses: Seq<int>,
    values: Seq<int>,
    times: Seq<int>,
    gamma: int,
    tau: int,
) -> Seq<int> {
    Seq::new(
        addresses.len(),
        |i: int| memory_hash::<F>(addresses[i], values[i], times[i], gamma, tau),
    )
}

/// Hashes a list of cells.
pub fn hash_memory<F: PrimeField>(
    addresses: &[F],
    values: &[F],
    times: &[F],
    gamma: F,
    tau: F,
) -> (r: Vec<F>)
    requires
        addresses@.len() == values@.len() == times@.len(),
    ensures
        vals(r@) == memory_hashes::<F>(
            vals(addresses@),
            vals(values@),
            vals(times@),
            gamma.val(),
            tau.val(),
        ),
        r@.len() == addresses@.len(),
{
    let ghost goal = memory_hashes::<F>(
        vals(addresses@),
        vals(values@),
        vals(times@),
        gamma.val(),
        tau.val(),
    );
    let mut out: Vec<F> = Vec::new();
    let mut i: usize = 0;
    while i < addresses.len()
        invariant
            i <= addresses@.len(),
            addresses@.len() == values@.len() == times@.len(),
            goal == memory_hashes::<F>(
                vals(addresses@),
                vals(values@),
                vals(times@),
                gamma.val(),
                tau.val(),
            ),
            out@.len() == i,
            vals(out@) == goal.take(i as int),
        decreases addresses@.len() - i,
    {
        let h = hash_memory_tuple(addresses[i], values[i], times[i], gamma, tau);
        proof {
            vals_push(out@, h);
            assert(goal.take(i as int + 1) =~= goal.take(i as int).push(goal[i as int]));
        }
        out.push(h);
        i = i + 1;
    }
    assert(goal.take(i as int) =~= goal);
    out
}

/// The extension of a list of hashes is the hash of the extensions.
pub proof fn hashes_extend<F: Residue>(
    addresses: Seq<int>,
    values: Seq<int>,
    times: Seq<int>,
    gamma: int,
    tau: int,
    z: Seq<int>,
)
    requires
        addresses.len() == exp2(z.len()),
        values.len() == addresses.len(),
        times.len() == addresses.len(),
        canon::<F>(tau),
    ensures
        mle::<F>(memory_hashes::<F>(addresses, values, times, gamma, tau), z) == memory_hash::<F>(
            mle::<F>(addresses, z),
            mle::<F>(values, z),
            mle::<F>(times, z),
            gamma,
            tau,
        ),
{
    let e = eq_evals::<F>(z);
    let n = addresses.len();
    let g2 = fmul::<F>(gamma, gamma);
    let p = vadd::<F>(addresses, vscale::<F>(gamma, values));
    let q = vadd::<F>(p, vscale::<F>(g2, times));
    let t = vscale::<F>(tau, ones(n));
    f_units::<F>(tau);
    assert(memory_hashes::<F>(addresses, values, times, gamma, tau) =~= vsub::<F>(q, t));
    dot_sub::<F>(q, t, e);
    dot_add::<F>(p, vscale::<F>(g2, times), e);
    dot_add::<F>(addresses, vscale::<F>(gamma, values), e);
    dot_scale::<F>(gamma, values, e);
    dot_scale::<F>(g2, times, e);
    dot_scale::<F>(tau, ones(n), e);
    mle_of_ones::<F>(z);
}

/// The product of a vector.
pub open spec fn vprod<F: Residue>(v: Seq<int>) -> int
    decreases v.len(),
{
    if v.len() == 0 {
        1
    } else {
        fmul::<F>(vprod::<F>(v.drop_last()), v.last())
    }
}

/// Products are canonical.
pub proof fn vprod_canon<F: Residue>(v: Seq<int>)
    ensures
        canon::<F>(vprod::<F>(v)),
{
    canon_consts::<F>();
    broadcast use fmul_canon;

}

/// Replacing one factor.
pub proof fn vprod_update<F: Residue>(v: Seq<int>, l: int, x: int)
    requires
        0 <= l < v.len(),
    ensures
        fmul::<F>(vprod::<F>(v.update(l, x)), v[l]) == fmul::<F>(vprod::<F>(v), x),
    decreases v.len(),
{
    let k = v.len() - 1;
    let vd = v.drop_last();
    if l == k {
        assert(v.update(l, x).drop_last() =~= vd);
        fmul_assoc::<F>(vprod::<F>(vd), x, v[l]);
        fmul_assoc::<F>(vprod::<F>(vd), v[l], x);
        fmul_comm::<F>(x, v[l]);
    } else {
        vprod_update::<F>(vd, l, x);
        assert(v.update(l, x).drop_last() =~= vd.update(l, x));
        let (a, b, c) = (vprod::<F>(vd.update(l, x)), vprod::<F>(vd), v[k]);
        fmul_assoc::<F>(a, c, v[l]);
        fmul_comm::<F>(c, v[l]);
        fmul_assoc::<F>(a, v[l], c);
        fmul_assoc::<F>(b, x, c);
        fmul_comm::<F>(x, c);
        fmul_assoc::<F>(b, c, x);
    }
}

/// The values at the addresses.
pub open spec fn fetched(mem: Seq<int>, addresses: Seq<int>) -> Seq<int> {
    Seq::new(addresses.len(), |i: int| mem[addresses[i]])
}

/// Every timestamp one later.
pub open spec fn later<F: Residue>(times: Seq<int>) -> Seq<int> {
    Seq::new(times.len(), |i: int| fadd::<F>(times[i], 1))
}

/// Offline memory checking: reads that return what the memory holds, with the
/// timestamps of the accesses, leave the products of the hashes balanced. What
/// is there at first times what is written equals what is read times what is
/// there at last.
pub proof fn memory_is_balanced<F: Residue>(
    addresses: Seq<int>,
    mem: Seq<int>,
    gamma: int,
    tau: int,
)
    requires
        forall|i: int| 0 <= i < addresses.len() ==> 0 <= #[trigger] addresses[i] < mem.len(),
    ensures
        ({
            let adr = reds::<F>(addresses);
            let cells = indices::<F>(mem.len());
            let read = fetched(mem, addresses);
            let times = reds::<F>(read_counts(addresses));
            fmul::<F>(
                vprod::<F>(memory_hashes::<F>(cells, mem, vzero(mem.len()), gamma, tau)),
                vprod::<F>(memory_hashes::<F>(adr, read, later::<F>(times), gamma, tau)),
            ) == fmul::<F>(
                vprod::<F>(memory_hashes::<F>(adr, read, times, gamma, tau)),
                vprod::<F>(
                    memory_hashes::<F>(
                        cells,
                        mem,
                        reds::<F>(audit_counts(addresses, mem.len())),
                        gamma,
                        tau,
                    ),
                ),
            )
        }),
    decreases addresses.len(),
{
    let n = mem.len();
    let adr = reds::<F>(addresses);
    let cells = indices::<F>(n);
    let read = fetched(mem, addresses);
    let times = reds::<F>(read_counts(addresses));
    let init = memory_hashes::<F>(cells, mem, vzero(n), gamma, tau);
    let write = memory_hashes::<F>(adr, read, later::<F>(times), gamma, tau);
    let reads = memory_hashes::<F>(adr, read, times, gamma, tau);
    let audit = memory_hashes::<F>(
        cells,
        mem,
        reds::<F>(audit_counts(addresses, n)),
        gamma,
        tau,
    );
    canon_consts::<F>();
    if addresses.len() == 0 {
        assert(audit =~= init);
        fmul_comm::<F>(vprod::<F>(init), 1);
    } else {
        let k = addresses.len() - 1;
        let ad = addresses.drop_last();
        let a = addresses[k];
        assert forall|i: int| 0 <= i < ad.len() implies 0 <= #[trigger] ad[i] < mem.len() by {
            assert(ad[i] == addresses[i]);
        }
        memory_is_balanced::<F>(ad, mem, gamma, tau);
        let td = reds::<F>(read_counts(ad));
        assert forall|i: int| 0 <= i < k implies read_counts(ad)[i] == read_counts(addresses)[i] by {
            assert(ad.take(i) =~= addresses.take(i));
        }
        assert(times.drop_last() =~= td);
        let adr_d = reds::<F>(ad);
        let read_d = fetched(mem, ad);
        let write_d = memory_hashes::<F>(adr_d, read_d, later::<F>(td), gamma, tau);
        let reads_d = memory_hashes::<F>(adr_d, read_d, td, gamma, tau);
        let audit_d = memory_hashes::<F>(
            cells,
            mem,
            reds::<F>(audit_counts(ad, n)),
            gamma,
            tau,
        );
        assert(write.drop_last() =~= write_d);
        assert(reads.drop_last() =~= reads_d);
        assert(addresses.take(k) =~= ad);
        let old_hash = reads[k];
        let new_hash = write[k];
        let t = occurrences(ad, a) as int;
        assert(audit_d[a] == old_hash);
        red_add::<F>(t, 1);
        assert(audit[a] == new_hash);
        assert(audit =~= audit_d.update(a, new_hash));
        vprod_update::<F>(audit_d, a, new_hash);
        let (pi, pw, pr, pa) = (
            vprod::<F>(init),
            vprod::<F>(write_d),
            vprod::<F>(reads_d),
            vprod::<F>(audit_d),
        );
        let pn = vprod::<F>(audit);
        fmul_assoc::<F>(pi, pw, new_hash);
        fmul_assoc::<F>(pr, pa, new_hash);
        fmul_assoc::<F>(pr, old_hash, pn);
        fmul_comm::<F>(old_hash, pn);
    }
}

/// What is fixed of a sparse matrix before any proof.
pub struct SparkProverData<F> {
    pub entries: Vec<SparseEntry<F>>,
    pub row_addr: Vec<usize>,
    pub col_addr: Vec<usize>,
    pub static_polys: Vec<Vec<F>>,
    pub num_ops: usize,
    pub num_mem_cells: usize,
    pub aux_len: usize,
}

pub const ROW_ADDR: usize = 0;

pub const COL_ADDR: usize = 1;

pub const MATRIX_VAL: usize = 2;

pub const ROW_READ_TS: usize = 3;

pub const ROW_AUDIT_TS: usize = 4;

pub const COL_READ_TS: usize = 5;

pub const COL_AUDIT_TS: usize = 6;

pub const NUM_SPARK_STATIC_POLYS: usize = 7;

/// The larger of two integers.
pub open spec fn larger(a: int, b: int) -> int {
    if a >= b {
        a
    } else {
        b
    }
}

/// The rows that the accesses read, with row zero behind the last cell.
pub open spec fn row_addresses(entries: Seq<Entry>, num_ops: nat) -> Seq<int> {
    Seq::new(num_ops, |i: int| if i < entries.len() { entries[i].row } else { 0 })
}

/// The columns that the accesses read, with column zero behind the last cell.
pub open spec fn col_addresses(entries: Seq<Entry>, num_ops: nat) -> Seq<int> {
    Seq::new(num_ops, |i: int| if i < entries.len() { entries[i].col } else { 0 })
}

/// The values of the accesses, zero behind the last cell.
pub open spec fn cell_values(entries: Seq<Entry>, num_ops: nat) -> Seq<int> {
    Seq::new(num_ops, |i: int| if i < entries.len() { entries[i].value } else { 0 })
}

/// The fixed vectors of a sparse matrix before padding.
pub open spec fn static_vectors<F: Residue>(
    entries: Seq<Entry>,
    num_ops: nat,
    cells: nat,
) -> Seq<Seq<int>> {
    let rows = row_addresses(entries, num_ops);
    let cols = col_addresses(entries, num_ops);
    seq![
        reds::<F>(rows),
        reds::<F>(cols),
        cell_values(entries, num_ops),
        reds::<F>(read_counts(rows)),
        reds::<F>(audit_counts(rows, cells)),
        reds::<F>(read_counts(cols)),
        reds::<F>(audit_counts(cols, cells)),
    ]
}

impl<F: PrimeField> SparkProverData<F> {
    /// The sizes are powers of two, the addresses name cells of the memory and
    /// the fixed polynomials are those of the entries.
    pub open spec fn wf(self) -> bool {
        let e = entries_of(self.entries@);
        let v = static_vectors::<F>(e, self.num_ops as nat, self.num_mem_cells as nat);
        &&& is_pow2(self.num_ops as int)
        &&& is_pow2(self.num_mem_cells as int)
        &&& is_pow2(self.aux_len as int)
        &&& self.num_ops >= 2
        &&& self.entries@.len() <= self.num_ops <= self.aux_len
        &&& self.num_mem_cells <= self.aux_len
        &&& entries_within(
            self.entries@,
            self.num_mem_cells as nat,
            self.num_mem_cells as nat,
        )
        &&& ints(self.row_addr@) == row_addresses(e, self.num_ops as nat)
        &&& ints(self.col_addr@) == col_addresses(e, self.num_ops as nat)
        &&& mat(self.static_polys@) == Seq::new(
            7,
            |k: int| padded(v[k], self.aux_len as nat),
        )
    }
}

/// Fixes addresses, values and timestamps of a sparse matrix.
pub fn spark_preprocess<F: PrimeField>(
    entries: Vec<SparseEntry<F>>,
    matrix_rows: usize,
    matrix_cols: usize,
    minimum_aux_len: usize,
) -> (r: SparkProverData<F>)
    requires
        is_pow2(matrix_rows as int),
        is_pow2(matrix_cols as int),
        entries_within(entries@, matrix_rows as nat, matrix_cols as nat),
        next_pow2(entries@.len() as int) <= usize::MAX,
        next_pow2(minimum_aux_len as int) <= usize::MAX,
    ensures
        r.wf(),
        r.entries == entries,
        r.num_mem_cells == larger(matrix_rows as int, matrix_cols as int),
        r.num_ops == next_pow2(larger(entries@.len() as int, 2)),
        r.aux_len == next_pow2(
            larger(
                larger(r.num_ops as int, r.num_mem_cells as int),
                minimum_aux_len as int,
            ),
        ),
{
    let num_mem_cells: usize = if matrix_rows >= matrix_cols {
        matrix_rows
    } else {
        matrix_cols
    };
    let at_least_two: usize = if entries.len() >= 2 {
        entries.len()
    } else {
        2
    };
    proof {
        reveal_with_fuel(next_pow2, 3);
        next_pow2_is_pow2(at_least_two as int);
    }
    let num_ops: usize = next_power_of_two(at_least_two);
    let mut aux_len: usize = if num_ops >= num_mem_cells {
        num_ops
    } else {
        num_mem_cells
    };
    if aux_len < minimum_aux_len {
        aux_len = minimum_aux_len;
    }
    proof {
        if aux_len != minimum_aux_len {
            next_pow2_fixed(aux_len as int);
        }
        next_pow2_is_pow2(aux_len as int);
    }
    let aux_len: usize = next_power_of_two(aux_len);
    let ghost e = entries_of(entries@);
    let mut row_addr: Vec<usize> = Vec::new();
    let mut col_addr: Vec<usize> = Vec::new();
    let mut values: Vec<F> = Vec::new();
    while row_addr.len() < num_ops
        invariant
            row_addr@.len() <= num_ops,
            col_addr@.len() == row_addr@.len(),
            values@.len() == row_addr@.len(),
            entries@.len() <= num_ops,
            num_mem_cells > 0,
            matrix_rows <= num_mem_cells,
            matrix_cols <= num_mem_cells,
            e == entries_of(entries@),
            entries_within(entries@, matrix_rows as nat, matrix_cols as nat),
            forall|i: int| 0 <= i < row_addr@.len() ==> #[trigger] row_addr@[i] < num_mem_cells,
            forall|i: int| 0 <= i < col_addr@.len() ==> #[trigger] col_addr@[i] < num_mem_cells,
            ints(row_addr@) == row_addresses(e, num_ops as nat).take(row_addr@.len() as int),
            ints(col_addr@) == col_addresses(e, num_ops as nat).take(row_addr@.len() as int),
            vals(values@) == cell_values(e, num_ops as nat).take(row_addr@.len() as int),
        decreases num_ops - row_addr@.len(),
    {
        let i: usize = row_addr.len();
        let ghost old_values = values@;
        if i < entries.len() {
            assert(entries@[i as int].row < matrix_rows && entries@[i as int].col < matrix_cols);
            row_addr.push(entries[i].row);
            col_addr.push(entries[i].col);
            values.push(entries[i].value);
        } else {
            row_addr.push(0);
            col_addr.push(0);
            values.push(F::zero());
        }
        proof {
            let next = i as int + 1;
            assert(ints(row_addr@) =~= row_addresses(e, num_ops as nat).take(next));
            assert(ints(col_addr@) =~= col_addresses(e, num_ops as nat).take(next));
            assert(values@ == old_values.push(values@[i as int]));
            assert(vals(values@) =~= cell_values(e, num_ops as nat).take(next));
        }
    }
    proof {
        let full = num_ops as int;
        assert(row_addresses(e, num_ops as nat).take(full) =~= row_addresses(e, num_ops as nat));
        assert(col_addresses(e, num_ops as nat).take(full) =~= col_addresses(e, num_ops as nat));
        assert(cell_values(e, num_ops as nat).take(full) =~= cell_values(e, num_ops as nat));
    }
    let (row_read, row_audit) = timestamps(&row_addr, num_mem_cells);
    let (col_read, col_audit) = timestamps(&col_addr, num_mem_cells);
    let mut static_polys: Vec<Vec<F>> = Vec::new();
    static_polys.push(pad_poly(to_field(&row_addr), aux_len));
    static_polys.push(pad_poly(to_field(&col_addr), aux_len));
    static_polys.push(pad_poly(values, aux_len));
    static_polys.push(pad_poly(to_field(&row_read), aux_len));
    static_polys.push(pad_poly(to_field(&row_audit), aux_len));
    static_polys.push(pad_poly(to_field(&col_read), aux_len));
    static_polys.push(pad_poly(to_field(&col_audit), aux_len));
    proof {
        let v = static_vectors::<F>(e, num_ops as nat, num_mem_cells as nat);
        assert(mat(static_polys@) =~= Seq::new(7, |k: int| padded(v[k], aux_len as nat)));
    }
    SparkProverData {
        entries,
        row_addr,
        col_addr,
        static_polys,
        num_ops,
        num_mem_cells,
        aux_len,
    }
}

} // verus!
