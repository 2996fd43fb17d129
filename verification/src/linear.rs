//! Vectors of residues: pointwise operations, inner products and row
//! combinations, with the identities that the codes and protocols rest on.

use crate::field::{
    canon, canon_consts, f_interchange, f_units, fadd, fadd_assoc, fadd_canon, fmul, fmul_assoc,
    fmul_canon, fmul_comm, fmul_fadd, fmul_fsub, fsub, val_canon, PrimeField, Residue,
};
use vstd::prelude::*;

verus! {

/// The canonical integers of a sequence of field elements.
pub open spec fn vals<F: Residue>(s: Seq<F>) -> Seq<int> {
    Seq::new(s.len(), |i: int| s[i].val())
}

/// The canonical integers of a sequence of rows.
pub open spec fn mat<F: Residue>(m: Seq<Vec<F>>) -> Seq<Seq<int>> {
    Seq::new(m.len(), |i: int| vals(m[i]@))
}

/// Every entry is a canonical residue.
pub open spec fn vcanon<F: Residue>(a: Seq<int>) -> bool {
    forall|i: int| 0 <= i < a.len() ==> canon::<F>(#[trigger] a[i])
}

/// The zero vector.
pub open spec fn vzero(n: nat) -> Seq<int> {
    Seq::new(n, |i: int| 0int)
}

/// Entrywise sum.
pub open spec fn vadd<F: Residue>(a: Seq<int>, b: Seq<int>) -> Seq<int> {
    Seq::new(a.len(), |i: int| fadd::<F>(a[i], b[i]))
}

/// The integers of a list.
pub open spec fn ints(v: Seq<usize>) -> Seq<int> {
    Seq::new(v.len(), |i: int| v[i] as int)
}

/// Entrywise difference.
pub open spec fn vsub<F: Residue>(a: Seq<int>, b: Seq<int>) -> Seq<int> {
    Seq::new(a.len(), |i: int| fsub::<F>(a[i], b[i]))
}

/// Entrywise product.
pub open spec fn vmul<F: Residue>(a: Seq<int>, b: Seq<int>) -> Seq<int> {
    Seq::new(a.len(), |i: int| fmul::<F>(a[i], b[i]))
}

/// Multiple of a vector.
pub open spec fn vscale<F: Residue>(c: int, a: Seq<int>) -> Seq<int> {
    Seq::new(a.len(), |i: int| fmul::<F>(c, a[i]))
}

/// Sum of all entries.
pub open spec fn vsum<F: Residue>(a: Seq<int>) -> int
    decreases a.len(),
{
    if a.len() == 0 {
        0
    } else {
        fadd::<F>(vsum::<F>(a.drop_last()), a.last())
    }
}

/// Inner product.
pub open spec fn dot<F: Residue>(a: Seq<int>, b: Seq<int>) -> int {
    vsum::<F>(vmul::<F>(a, b))
}

/// Linear combination of the rows of a matrix with `n` columns.
pub open spec fn comb<F: Residue>(w: Seq<int>, rows: Seq<Seq<int>>, n: nat) -> Seq<int>
    decreases rows.len(),
{
    if rows.len() == 0 {
        vzero(n)
    } else {
        vadd::<F>(
            comb::<F>(w, rows.drop_last(), n),
            vscale::<F>(w[rows.len() - 1], rows.last()),
        )
    }
}

/// The column of a matrix at an index.
pub open spec fn column(rows: Seq<Seq<int>>, j: int) -> Seq<int> {
    Seq::new(rows.len(), |i: int| rows[i][j])
}

/// The rows of a matrix one after the other.
pub open spec fn flatten(rows: Seq<Seq<int>>) -> Seq<int>
    decreases rows.len(),
{
    if rows.len() == 0 {
        Seq::empty()
    } else {
        flatten(rows.drop_last()) + rows.last()
    }
}

/// Every row has `n` entries.
pub open spec fn rect(rows: Seq<Seq<int>>, n: nat) -> bool {
    forall|i: int| 0 <= i < rows.len() ==> (#[trigger] rows[i]).len() == n
}

/// Every entry of every row is a canonical residue.
pub open spec fn mcanon<F: Residue>(rows: Seq<Seq<int>>) -> bool {
    forall|i: int| 0 <= i < rows.len() ==> vcanon::<F>(#[trigger] rows[i])
}

pub broadcast proof fn vals_push<F: Residue>(s: Seq<F>, x: F)
    ensures
        #[trigger] vals(s.push(x)) == vals(s).push(x.val()),
{
    assert(vals(s.push(x)) =~= vals(s).push(x.val()));
}

pub broadcast proof fn vals_concat<F: Residue>(s: Seq<F>, t: Seq<F>)
    ensures
        #[trigger] vals(s + t) == vals(s) + vals(t),
{
    assert(vals(s + t) =~= vals(s) + vals(t));
}

pub broadcast proof fn mat_push<F: Residue>(s: Seq<Vec<F>>, x: Vec<F>)
    ensures
        #[trigger] mat(s.push(x)) == mat(s).push(vals(x@)),
{
    assert(mat(s.push(x)) =~= mat(s).push(vals(x@)));
}

pub broadcast group group_vals {
    vals_push,
    vals_concat,
    mat_push,
    vals_canon,
    mat_canon,
}

pub broadcast proof fn vals_canon<F: Residue>(s: Seq<F>)
    ensures
        vcanon::<F>(#[trigger] vals(s)),
{
    broadcast use val_canon;

}

pub broadcast proof fn mat_canon<F: Residue>(m: Seq<Vec<F>>)
    ensures
        mcanon::<F>(#[trigger] mat(m)),
{
    broadcast use vals_canon;

}

/// Sums are canonical.
pub proof fn vsum_canon<F: Residue>(a: Seq<int>)
    ensures
        canon::<F>(vsum::<F>(a)),
{
    canon_consts::<F>();
    broadcast use fadd_canon;

}

/// Inner products are canonical.
pub proof fn dot_canon<F: Residue>(a: Seq<int>, b: Seq<int>)
    ensures
        canon::<F>(dot::<F>(a, b)),
{
    vsum_canon::<F>(vmul::<F>(a, b));
}

/// One more term in a sum.
pub proof fn vsum_push<F: Residue>(a: Seq<int>, x: int)
    ensures
        vsum::<F>(a.push(x)) == fadd::<F>(vsum::<F>(a), x),
{
    assert(a.push(x).drop_last() =~= a);
}

/// One more term in an inner product.
pub proof fn dot_push<F: Residue>(a: Seq<int>, b: Seq<int>, x: int, y: int)
    requires
        a.len() == b.len(),
    ensures
        dot::<F>(a.push(x), b.push(y)) == fadd::<F>(dot::<F>(a, b), fmul::<F>(x, y)),
{
    assert(vmul::<F>(a.push(x), b.push(y)) =~= vmul::<F>(a, b).push(fmul::<F>(x, y)));
    vsum_push::<F>(vmul::<F>(a, b), fmul::<F>(x, y));
}

/// An inner product of prefixes, one index further.
pub proof fn dot_take<F: Residue>(a: Seq<int>, b: Seq<int>, i: int)
    requires
        a.len() == b.len(),
        0 <= i < a.len(),
    ensures
        dot::<F>(a.take(i + 1), b.take(i + 1)) == fadd::<F>(
            dot::<F>(a.take(i), b.take(i)),
            fmul::<F>(a[i], b[i]),
        ),
{
    assert(a.take(i + 1) =~= a.take(i).push(a[i]));
    assert(b.take(i + 1) =~= b.take(i).push(b[i]));
    dot_push::<F>(a.take(i), b.take(i), a[i], b[i]);
}

/// The empty inner product is zero.
pub proof fn dot_nil<F: Residue>(a: Seq<int>, b: Seq<int>)
    ensures
        dot::<F>(a.take(0), b.take(0)) == 0,
{
}

/// The sum of a concatenation.
pub proof fn vsum_concat<F: Residue>(a: Seq<int>, b: Seq<int>)
    ensures
        vsum::<F>(a + b) == fadd::<F>(vsum::<F>(a), vsum::<F>(b)),
    decreases b.len(),
{
    if b.len() == 0 {
        assert(a + b =~= a);
        vsum_canon::<F>(a);
        f_units::<F>(vsum::<F>(a));
    } else {
        assert((a + b).drop_last() =~= a + b.drop_last());
        vsum_concat::<F>(a, b.drop_last());
        fadd_assoc::<F>(vsum::<F>(a), vsum::<F>(b.drop_last()), b.last());
    }
}

/// The inner product of concatenations.
pub proof fn dot_concat<F: Residue>(a: Seq<int>, b: Seq<int>, c: Seq<int>, d: Seq<int>)
    requires
        a.len() == c.len(),
        b.len() == d.len(),
    ensures
        dot::<F>(a + b, c + d) == fadd::<F>(dot::<F>(a, c), dot::<F>(b, d)),
{
    assert(vmul::<F>(a + b, c + d) =~= vmul::<F>(a, c) + vmul::<F>(b, d));
    vsum_concat::<F>(vmul::<F>(a, c), vmul::<F>(b, d));
}

/// The sum of an entrywise sum.
pub proof fn vsum_add<F: Residue>(a: Seq<int>, b: Seq<int>)
    requires
        a.len() == b.len(),
    ensures
        vsum::<F>(vadd::<F>(a, b)) == fadd::<F>(vsum::<F>(a), vsum::<F>(b)),
    decreases a.len(),
{
    if a.len() == 0 {
        canon_consts::<F>();
        f_units::<F>(0);
    } else {
        assert(vadd::<F>(a, b).drop_last() =~= vadd::<F>(a.drop_last(), b.drop_last()));
        vsum_add::<F>(a.drop_last(), b.drop_last());
        f_interchange::<F>(
            vsum::<F>(a.drop_last()),
            vsum::<F>(b.drop_last()),
            a.last(),
            b.last(),
        );
    }
}

/// The sum of an entrywise difference.
pub proof fn vsum_sub<F: Residue>(a: Seq<int>, b: Seq<int>)
    requires
        a.len() == b.len(),
    ensures
        vsum::<F>(vsub::<F>(a, b)) == fsub::<F>(vsum::<F>(a), vsum::<F>(b)),
    decreases a.len(),
{
    if a.len() == 0 {
        canon_consts::<F>();
        f_units::<F>(0);
    } else {
        assert(vsub::<F>(a, b).drop_last() =~= vsub::<F>(a.drop_last(), b.drop_last()));
        vsum_sub::<F>(a.drop_last(), b.drop_last());
        f_interchange::<F>(
            vsum::<F>(a.drop_last()),
            a.last(),
            vsum::<F>(b.drop_last()),
            b.last(),
        );
    }
}

/// The sum of a multiple.
pub proof fn vsum_scale<F: Residue>(c: int, a: Seq<int>)
    ensures
        vsum::<F>(vscale::<F>(c, a)) == fmul::<F>(c, vsum::<F>(a)),
    decreases a.len(),
{
    if a.len() == 0 {
        reveal(fmul);
        F::lemma_modulus();
        assert(c * 0 == 0) by (nonlinear_arith);
        vstd::arithmetic::div_mod::lemma_small_mod(0, F::modulus() as nat);
    } else {
        assert(vscale::<F>(c, a).drop_last() =~= vscale::<F>(c, a.drop_last()));
        vsum_scale::<F>(c, a.drop_last());
        fmul_fadd::<F>(c, vsum::<F>(a.drop_last()), a.last());
    }
}

/// The inner product is symmetric.
pub proof fn dot_comm<F: Residue>(a: Seq<int>, b: Seq<int>)
    requires
        a.len() == b.len(),
    ensures
        dot::<F>(a, b) == dot::<F>(b, a),
{
    assert(vmul::<F>(a, b) =~= vmul::<F>(b, a)) by {
        broadcast use fmul_comm;

    }
}

/// The inner product is additive in its first argument.
pub proof fn dot_add<F: Residue>(a: Seq<int>, b: Seq<int>, c: Seq<int>)
    requires
        a.len() == b.len() == c.len(),
    ensures
        dot::<F>(vadd::<F>(a, b), c) == fadd::<F>(dot::<F>(a, c), dot::<F>(b, c)),
        dot::<F>(c, vadd::<F>(a, b)) == fadd::<F>(dot::<F>(c, a), dot::<F>(c, b)),
{
    dot_comm::<F>(c, vadd::<F>(a, b));
    dot_comm::<F>(c, a);
    dot_comm::<F>(c, b);
    assert forall|i: int| 0 <= i < a.len() implies fmul::<F>(fadd::<F>(a[i], b[i]), c[i])
        == fadd::<F>(fmul::<F>(a[i], c[i]), fmul::<F>(b[i], c[i])) by {
        fmul_comm::<F>(fadd::<F>(a[i], b[i]), c[i]);
        fmul_fadd::<F>(c[i], a[i], b[i]);
        fmul_comm::<F>(c[i], a[i]);
        fmul_comm::<F>(c[i], b[i]);
    }
    assert(vmul::<F>(vadd::<F>(a, b), c) =~= vadd::<F>(vmul::<F>(a, c), vmul::<F>(b, c)));
    vsum_add::<F>(vmul::<F>(a, c), vmul::<F>(b, c));
}

/// The inner product respects differences in its first argument.
pub proof fn dot_sub<F: Residue>(a: Seq<int>, b: Seq<int>, c: Seq<int>)
    requires
        a.len() == b.len() == c.len(),
    ensures
        dot::<F>(vsub::<F>(a, b), c) == fsub::<F>(dot::<F>(a, c), dot::<F>(b, c)),
{
    assert forall|i: int| 0 <= i < a.len() implies fmul::<F>(fsub::<F>(a[i], b[i]), c[i])
        == fsub::<F>(fmul::<F>(a[i], c[i]), fmul::<F>(b[i], c[i])) by {
        fmul_comm::<F>(fsub::<F>(a[i], b[i]), c[i]);
        fmul_fsub::<F>(c[i], a[i], b[i]);
        fmul_comm::<F>(c[i], a[i]);
        fmul_comm::<F>(c[i], b[i]);
    }
    assert(vmul::<F>(vsub::<F>(a, b), c) =~= vsub::<F>(vmul::<F>(a, c), vmul::<F>(b, c)));
    vsum_sub::<F>(vmul::<F>(a, c), vmul::<F>(b, c));
}

/// The inner product is homogeneous in either argument.
pub proof fn dot_scale<F: Residue>(k: int, a: Seq<int>, c: Seq<int>)
    requires
        a.len() == c.len(),
    ensures
        dot::<F>(vscale::<F>(k, a), c) == fmul::<F>(k, dot::<F>(a, c)),
        dot::<F>(c, vscale::<F>(k, a)) == fmul::<F>(k, dot::<F>(c, a)),
{
    dot_comm::<F>(c, vscale::<F>(k, a));
    dot_comm::<F>(c, a);
    assert(vmul::<F>(vscale::<F>(k, a), c) =~= vscale::<F>(k, vmul::<F>(a, c))) by {
        broadcast use fmul_assoc;

    }
    vsum_scale::<F>(k, vmul::<F>(a, c));
}

/// The zero vector is orthogonal to everything.
pub proof fn dot_zero<F: Residue>(n: nat, c: Seq<int>)
    requires
        c.len() == n,
    ensures
        dot::<F>(vzero(n), c) == 0,
{
    assert forall|i: int| 0 <= i < n implies fmul::<F>(0, c[i]) == 0 by {
        reveal(fmul);
        F::lemma_modulus();
        assert(0 * c[i] == 0) by (nonlinear_arith);
        vstd::arithmetic::div_mod::lemma_small_mod(0, F::modulus() as nat);
    }
    assert(vmul::<F>(vzero(n), c) =~= vzero(n));
    vsum_zero::<F>(n);
}

/// Zeros sum to zero.
pub proof fn vsum_zero<F: Residue>(n: nat)
    ensures
        vsum::<F>(vzero(n)) == 0,
    decreases n,
{
    if n > 0 {
        assert(vzero(n).drop_last() =~= vzero((n - 1) as nat));
        vsum_zero::<F>((n - 1) as nat);
        canon_consts::<F>();
        f_units::<F>(0);
    }
}

/// A row combination has as many entries as the rows have.
pub proof fn comb_len<F: Residue>(w: Seq<int>, rows: Seq<Seq<int>>, n: nat)
    ensures
        comb::<F>(w, rows, n).len() == n,
        vcanon::<F>(comb::<F>(w, rows, n)),
    decreases rows.len(),
{
    canon_consts::<F>();
    if rows.len() > 0 {
        comb_len::<F>(w, rows.drop_last(), n);
        broadcast use fadd_canon;

    }
}

/// Each entry of a row combination is an inner product with a column.
pub proof fn comb_entry<F: Residue>(w: Seq<int>, rows: Seq<Seq<int>>, n: nat, j: int)
    requires
        w.len() >= rows.len(),
        rect(rows, n),
        0 <= j < n,
    ensures
        comb::<F>(w, rows, n).len() == n,
        comb::<F>(w, rows, n)[j] == dot::<F>(w.take(rows.len() as int), column(rows, j)),
    decreases rows.len(),
{
    comb_len::<F>(w, rows, n);
    if rows.len() > 0 {
        let k = rows.len() - 1;
        comb_len::<F>(w, rows.drop_last(), n);
        comb_entry::<F>(w, rows.drop_last(), n, j);
        assert(column(rows, j) =~= column(rows.drop_last(), j).push(rows[k][j]));
        assert(w.take(rows.len() as int) =~= w.take(k).push(w[k]));
        dot_push::<F>(w.take(k), column(rows.drop_last(), j), w[k], rows[k][j]);
    }
}

/// A row combination depends only on the weights of its rows.
pub proof fn comb_take<F: Residue>(w: Seq<int>, rows: Seq<Seq<int>>, n: nat)
    requires
        w.len() >= rows.len(),
    ensures
        comb::<F>(w.take(rows.len() as int), rows, n) == comb::<F>(w, rows, n),
    decreases rows.len(),
{
    if rows.len() > 0 {
        let k = rows.len() - 1;
        comb_take::<F>(w, rows.drop_last(), n);
        comb_take::<F>(w.take(k + 1), rows.drop_last(), n);
        assert(w.take(k + 1).take(k) =~= w.take(k));
    }
}

/// The inner product with a row combination is the combination of the inner
/// products.
pub proof fn dot_comb<F: Residue>(w: Seq<int>, rows: Seq<Seq<int>>, n: nat, c: Seq<int>)
    requires
        w.len() == rows.len(),
        rect(rows, n),
        c.len() == n,
    ensures
        dot::<F>(comb::<F>(w, rows, n), c) == dot::<F>(
            w,
            Seq::new(rows.len(), |i: int| dot::<F>(rows[i], c)),
        ),
    decreases rows.len(),
{
    let prods = Seq::new(rows.len(), |i: int| dot::<F>(rows[i], c));
    if rows.len() == 0 {
        dot_zero::<F>(n, c);
    } else {
        let k = rows.len() - 1;
        let wk = w.drop_last();
        let rk = rows.drop_last();
        dot_comb::<F>(wk, rk, n, c);
        comb_take::<F>(w, rk, n);
        assert(w.take(k) =~= wk);
        comb_len::<F>(w, rk, n);
        dot_add::<F>(comb::<F>(w, rk, n), vscale::<F>(w[k], rows[k]), c);
        dot_scale::<F>(w[k], rows[k], c);
        let pk = Seq::new(rk.len(), |i: int| dot::<F>(rk[i], c));
        assert(prods =~= pk.push(dot::<F>(rows[k], c)));
        assert(w =~= wk.push(w[k]));
        dot_push::<F>(wk, pk, w[k], dot::<F>(rows[k], c));
    }
}

/// The powers `1, x, x^2, ...`, the first `n` of them.
pub open spec fn pows<F: Residue>(x: int, n: nat) -> Seq<int>
    decreases n,
{
    if n == 0 {
        Seq::empty()
    } else if n == 1 {
        seq![1int]
    } else {
        let p = pows::<F>(x, (n - 1) as nat);
        p.push(fmul::<F>(p.last(), x))
    }
}

/// One more power.
pub proof fn pows_step<F: Residue>(x: int, n: nat)
    ensures
        pows::<F>(x, n).len() == n,
        vcanon::<F>(pows::<F>(x, n)),
        pows::<F>(x, n + 1).take(n as int) == pows::<F>(x, n),
        n > 0 ==> pows::<F>(x, n + 1)[n as int] == fmul::<F>(pows::<F>(x, n)[n - 1], x),
        pows::<F>(x, n + 1)[0] == 1,
        pows::<F>(x, n + 1).len() == n + 1,
    decreases n,
{
    canon_consts::<F>();
    if n > 0 {
        pows_step::<F>(x, (n - 1) as nat);
        broadcast use fmul_canon;

        assert(pows::<F>(x, n + 1).take(n as int) =~= pows::<F>(x, n));
    } else {
        assert(pows::<F>(x, 1).take(0) =~= pows::<F>(x, 0));
    }
}

/// The first powers of an element.
pub fn powers<F: PrimeField>(base: F, count: usize) -> (r: Vec<F>)
    ensures
        vals(r@) == pows::<F>(base.val(), count as nat),
{
    let mut out: Vec<F> = Vec::new();
    let mut power = F::one();
    let mut i: usize = 0;
    assert(vals(out@) =~= pows::<F>(base.val(), 0));
    while i < count
        invariant
            i <= count,
            vals(out@) == pows::<F>(base.val(), i as nat),
            power.val() == pows::<F>(base.val(), (i + 1) as nat)[i as int],
        decreases count - i,
    {
        proof {
            let p = pows::<F>(base.val(), (i + 1) as nat);
            pows_step::<F>(base.val(), i as nat);
            pows_step::<F>(base.val(), (i + 1) as nat);
            vals_push(out@, power);
            assert(p =~= p.take(i as int).push(p[i as int]));
        }
        out.push(power);
        power = power.times(base);
        i = i + 1;
    }
    out
}

/// The inner product of two vectors of one length.
pub fn inner_product<F: PrimeField>(a: &[F], b: &[F]) -> (r: F)
    requires
        a@.len() == b@.len(),
    ensures
        r.val() == dot::<F>(vals(a@), vals(b@)),
{
    let ghost (x, y) = (vals(a@), vals(b@));
    let mut acc = F::zero();
    let mut i: usize = 0;
    while i < a.len()
        invariant
            i <= a@.len(),
            a@.len() == b@.len(),
            x == vals(a@),
            y == vals(b@),
            acc.val() == dot::<F>(x.take(i as int), y.take(i as int)),
        decreases a@.len() - i,
    {
        proof {
            dot_take::<F>(x, y, i as int);
        }
        acc = acc.plus(a[i].times(b[i]));
        i = i + 1;
    }
    proof {
        assert(x.take(i as int) =~= x);
        assert(y.take(i as int) =~= y);
    }
    acc
}

/// A vector of zeros.
pub fn zero_vec<F: PrimeField>(n: usize) -> (r: Vec<F>)
    ensures
        vals(r@) == vzero(n as nat),
        r@.len() == n,
{
    let mut out: Vec<F> = Vec::new();
    let mut i: usize = 0;
    while i < n
        invariant
            i <= n,
            out@.len() == i,
            vals(out@) == vzero(i as nat),
        decreases n - i,
    {
        let z = F::zero();
        proof {
            vals_push(out@, z);
            assert(vzero((i + 1) as nat) =~= vzero(i as nat).push(0));
        }
        out.push(z);
        i = i + 1;
    }
    out
}

/// Adds a multiple of a vector to another.
pub fn add_scaled<F: PrimeField>(acc: &mut Vec<F>, k: F, row: &[F])
    requires
        old(acc)@.len() == row@.len(),
    ensures
        final(acc)@.len() == old(acc)@.len(),
        vals(final(acc)@) == vadd::<F>(vals(old(acc)@), vscale::<F>(k.val(), vals(row@))),
{
    let n: usize = acc.len();
    let ghost a0 = vals(acc@);
    let mut i: usize = 0;
    while i < n
        invariant
            i <= n,
            n == acc@.len(),
            n == row@.len(),
            n == a0.len(),
            forall|j: int|
                0 <= j < i ==> (#[trigger] acc@[j]).val() == fadd::<F>(
                    a0[j],
                    fmul::<F>(k.val(), row@[j].val()),
                ),
            forall|j: int| i <= j < n ==> (#[trigger] acc@[j]).val() == a0[j],
        decreases n - i,
    {
        let value = acc[i].plus(k.times(row[i]));
        acc.set(i, value);
        i = i + 1;
    }
    assert(vals(acc@) =~= vadd::<F>(a0, vscale::<F>(k.val(), vals(row@))));
}

/// Linear combination of rows of one length.
pub fn linear_combine_rows<F: PrimeField>(rows: &[Vec<F>], challenges: &[F]) -> (r: Vec<F>)
    requires
        rows@.len() > 0,
        rows@.len() == challenges@.len(),
        rect(mat(rows@), rows@[0]@.len()),
    ensures
        vals(r@) == comb::<F>(vals(challenges@), mat(rows@), rows@[0]@.len()),
{
    let n: usize = rows[0].len();
    let ghost m = mat(rows@);
    let ghost w = vals(challenges@);
    let mut out = zero_vec::<F>(n);
    let mut i: usize = 0;
    assert(m.take(0) =~= Seq::empty());
    while i < rows.len()
        invariant
            i <= rows@.len(),
            rows@.len() == challenges@.len(),
            m == mat(rows@),
            w == vals(challenges@),
            rect(m, n as nat),
            out@.len() == n,
            vals(out@) == comb::<F>(w, m.take(i as int), n as nat),
        decreases rows@.len() - i,
    {
        proof {
            assert(m[i as int].len() == n);
            assert(m.take(i as int + 1).drop_last() =~= m.take(i as int));
        }
        add_scaled(&mut out, challenges[i], &rows[i]);
        i = i + 1;
    }
    assert(m.take(i as int) =~= m);
    out
}

} // verus!
