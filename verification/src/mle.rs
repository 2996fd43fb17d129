//! Multilinear extensions over the Boolean hypercube.
//!
//! A vector of `2^k` residues lists the values of a multilinear polynomial on
//! the hypercube; bit `i` of an index is the value of variable `i`.

use crate::field::{
    canon, canon_consts, f_units, fadd, fadd_assoc, fmul, fmul_assoc, fmul_canon, fmul_comm,
    fmul_fadd, fsub, group_canon, ops_red, red, red_add, red_id, red_mul, red_red, red_sub,
    PrimeField, Residue,
};
use crate::linear::{
    comb, dot, dot_add, dot_canon, dot_comb, dot_concat, dot_scale, dot_sub, flatten, rect, vadd,
    vals, vals_canon, vals_push, vcanon, vmul, vscale, vsub, vsum, vsum_push,
};
use crate::qa_code::{copied, flatten_entry, flatten_len, flatten_push, is_pow2, walsh, walsh_shape};
use vstd::prelude::*;

verus! {

/// `2^k`.
pub open spec fn exp2(k: nat) -> nat
    decreases k,
{
    if k == 0 {
        1
    } else {
        2 * exp2((k - 1) as nat)
    }
}

/// The exponent of a power of two.
pub open spec fn log2(n: int) -> nat
    decreases n,
{
    if n <= 1 {
        0
    } else {
        1 + log2(n / 2)
    }
}

/// Powers of two are what `exp2` yields.
pub proof fn exp2_is_pow2(k: nat)
    ensures
        is_pow2(exp2(k) as int),
        exp2(k) > 0,
        log2(exp2(k) as int) == k,
    decreases k,
{
    if k > 0 {
        exp2_is_pow2((k - 1) as nat);
        assert(exp2(k) / 2 == exp2((k - 1) as nat));
    }
}

/// A power of two is two to its exponent.
pub proof fn pow2_is_exp2(n: int)
    requires
        is_pow2(n),
    ensures
        exp2(log2(n)) == n,
    decreases n,
{
    if n > 1 {
        pow2_is_exp2(n / 2);
    }
}

/// Powers of two grow with the exponent.
pub proof fn exp2_mono(a: nat, b: nat)
    requires
        a <= b,
    ensures
        exp2(a) <= exp2(b),
    decreases b,
{
    if a < b {
        exp2_mono(a, (b - 1) as nat);
    }
}

/// Exponents add.
pub proof fn exp2_adds(a: nat, b: nat)
    ensures
        exp2(a + b) == exp2(a) * exp2(b),
    decreases b,
{
    if b > 0 {
        exp2_adds(a, (b - 1) as nat);
        let (x, y) = (exp2(a), exp2((b - 1) as nat));
        assert(2 * (x * y) == x * (2 * y)) by (nonlinear_arith);
    } else {
        assert(exp2(a) * 1 == exp2(a));
    }
}

/// The value of one variable's factor in the equality polynomial.
pub open spec fn sel<F: Residue>(bit: bool, r: int) -> int {
    if bit {
        r
    } else {
        fsub::<F>(1, r)
    }
}

/// The equality polynomial at a Boolean index and a point.
pub open spec fn eq_at<F: Residue>(i: int, z: Seq<int>) -> int
    decreases z.len(),
{
    if z.len() == 0 {
        1
    } else {
        let h = exp2((z.len() - 1) as nat);
        if i >= h {
            fmul::<F>(z.last(), eq_at::<F>(i - h, z.drop_last()))
        } else {
            fmul::<F>(fsub::<F>(1, z.last()), eq_at::<F>(i, z.drop_last()))
        }
    }
}

/// The equality polynomial of a point at every Boolean index.
pub open spec fn eq_evals<F: Residue>(z: Seq<int>) -> Seq<int> {
    Seq::new(exp2(z.len()), |i: int| eq_at::<F>(i, z))
}

/// The value at `z` of the multilinear extension of `evals`.
pub open spec fn mle<F: Residue>(evals: Seq<int>, z: Seq<int>) -> int {
    dot::<F>(evals, eq_evals::<F>(z))
}

/// Weights are canonical.
pub proof fn eq_at_canon<F: Residue>(i: int, z: Seq<int>)
    ensures
        canon::<F>(eq_at::<F>(i, z)),
{
    canon_consts::<F>();
    broadcast use fmul_canon;

}

/// All weights of a point are canonical.
pub proof fn eq_evals_canon<F: Residue>(z: Seq<int>)
    ensures
        vcanon::<F>(eq_evals::<F>(z)),
{
    assert forall|i: int| 0 <= i < exp2(z.len()) implies canon::<F>(
        #[trigger] eq_evals::<F>(z)[i],
    ) by {
        eq_at_canon::<F>(i, z);
    }
}

/// `eq_evals` with one more variable.
pub proof fn eq_evals_step<F: Residue>(z: Seq<int>)
    requires
        z.len() > 0,
    ensures
        eq_evals::<F>(z) == vscale::<F>(fsub::<F>(1, z.last()), eq_evals::<F>(z.drop_last()))
            + vscale::<F>(z.last(), eq_evals::<F>(z.drop_last())),
{
    assert(eq_evals::<F>(z) =~= vscale::<F>(
        fsub::<F>(1, z.last()),
        eq_evals::<F>(z.drop_last()),
    ) + vscale::<F>(z.last(), eq_evals::<F>(z.drop_last())));
}

/// A product rearranged: `a * (b * c) == b * (a * c)`.
pub proof fn f_swap<F: Residue>(a: int, b: int, c: int)
    ensures
        fmul::<F>(a, fmul::<F>(b, c)) == fmul::<F>(b, fmul::<F>(a, c)),
{
    fmul_assoc::<F>(a, b, c);
    fmul_comm::<F>(a, b);
    fmul_assoc::<F>(b, a, c);
}

/// The equality polynomial split at its first variable.
pub proof fn eq_at_first<F: Residue>(bit: bool, q: int, z: Seq<int>)
    requires
        z.len() > 0,
        0 <= q < exp2((z.len() - 1) as nat),
    ensures
        eq_at::<F>(2 * q + (if bit { 1int } else { 0int }), z) == fmul::<F>(
            sel::<F>(bit, z[0]),
            eq_at::<F>(q, z.drop_first()),
        ),
    decreases z.len(),
{
    let b = if bit { 1int } else { 0int };
    let i = 2 * q + b;
    if z.len() == 1 {
        assert(z.drop_last() =~= Seq::empty());
        assert(z.drop_first() =~= Seq::empty());
    } else {
        let zl = z.drop_last();
        let zf = z.drop_first();
        let h = exp2((z.len() - 1) as nat);
        let hh = exp2((z.len() - 2) as nat);
        assert(h == 2 * hh);
        assert(zl.drop_first() =~= zf.drop_last());
        assert(zf.last() == z.last());
        assert(zl[0] == z[0]);
        if q >= hh {
            eq_at_first::<F>(bit, q - hh, zl);
            assert(i - h == 2 * (q - hh) + b);
            f_swap::<F>(z.last(), sel::<F>(bit, z[0]), eq_at::<F>(q - hh, zl.drop_first()));
        } else {
            eq_at_first::<F>(bit, q, zl);
            f_swap::<F>(
                fsub::<F>(1, z.last()),
                sel::<F>(bit, z[0]),
                eq_at::<F>(q, zl.drop_first()),
            );
        }
    }
}

/// Binding the first variable of a multilinear extension.
pub open spec fn fold_low<F: Residue>(evals: Seq<int>, r: int) -> Seq<int> {
    Seq::new(
        (evals.len() / 2) as nat,
        |i: int|
            fadd::<F>(
                fmul::<F>(evals[2 * i], fsub::<F>(1, r)),
                fmul::<F>(evals[2 * i + 1], r),
            ),
    )
}

/// A sum taken two entries at a time.
pub proof fn vsum_pairs<F: Residue>(a: Seq<int>, b: Seq<int>)
    requires
        a.len() == 2 * b.len(),
        forall|i: int| 0 <= i < b.len() ==> #[trigger] b[i] == fadd::<F>(a[2 * i], a[2 * i + 1]),
    ensures
        vsum::<F>(a) == vsum::<F>(b),
    decreases b.len(),
{
    if b.len() > 0 {
        let k = b.len() - 1;
        let a2 = a.take(2 * k);
        let bk = b.drop_last();
        assert forall|i: int| 0 <= i < bk.len() implies #[trigger] bk[i] == fadd::<F>(
            a2[2 * i],
            a2[2 * i + 1],
        ) by {
            assert(b[i] == fadd::<F>(a[2 * i], a[2 * i + 1]));
        }
        vsum_pairs::<F>(a2, bk);
        assert(a =~= a2.push(a[2 * k]).push(a[2 * k + 1]));
        vsum_push::<F>(a2, a[2 * k]);
        vsum_push::<F>(a2.push(a[2 * k]), a[2 * k + 1]);
        fadd_assoc::<F>(vsum::<F>(a2), a[2 * k], a[2 * k + 1]);
        assert(b[k] == fadd::<F>(a[2 * k], a[2 * k + 1]));
    }
}

/// Evaluation may bind the first variable first.
pub proof fn mle_fold_low<F: Residue>(evals: Seq<int>, z: Seq<int>)
    requires
        z.len() > 0,
        evals.len() == exp2(z.len()),
    ensures
        mle::<F>(evals, z) == mle::<F>(fold_low::<F>(evals, z[0]), z.drop_first()),
{
    let m = exp2((z.len() - 1) as nat) as int;
    let f = fold_low::<F>(evals, z[0]);
    let zf = z.drop_first();
    let a = vmul::<F>(evals, eq_evals::<F>(z));
    let b = vmul::<F>(f, eq_evals::<F>(zf));
    assert forall|i: int| 0 <= i < b.len() implies #[trigger] b[i] == fadd::<F>(
        a[2 * i],
        a[2 * i + 1],
    ) by {
        eq_at_first::<F>(false, i, z);
        eq_at_first::<F>(true, i, z);
        let e = eq_at::<F>(i, zf);
        let (s0, s1) = (fsub::<F>(1, z[0]), z[0]);
        let (x, y) = (evals[2 * i], evals[2 * i + 1]);
        assert(a[2 * i] == fmul::<F>(x, fmul::<F>(s0, e)));
        assert(a[2 * i + 1] == fmul::<F>(y, fmul::<F>(s1, e)));
        fmul_assoc::<F>(x, s0, e);
        fmul_assoc::<F>(y, s1, e);
        fmul_comm::<F>(fmul::<F>(x, s0), e);
        fmul_comm::<F>(fmul::<F>(y, s1), e);
        fmul_fadd::<F>(e, fmul::<F>(x, s0), fmul::<F>(y, s1));
        fmul_comm::<F>(e, f[i]);
    }
    vsum_pairs::<F>(a, b);
}

/// Evaluation splits at the last variable.
pub proof fn mle_halves<F: Residue>(lo: Seq<int>, hi: Seq<int>, z: Seq<int>)
    requires
        z.len() > 0,
        lo.len() == exp2((z.len() - 1) as nat),
        hi.len() == lo.len(),
    ensures
        mle::<F>(lo + hi, z) == fadd::<F>(
            fmul::<F>(fsub::<F>(1, z.last()), mle::<F>(lo, z.drop_last())),
            fmul::<F>(z.last(), mle::<F>(hi, z.drop_last())),
        ),
{
    let e = eq_evals::<F>(z.drop_last());
    eq_evals_step::<F>(z);
    dot_concat::<F>(lo, hi, vscale::<F>(fsub::<F>(1, z.last()), e), vscale::<F>(z.last(), e));
    dot_scale::<F>(fsub::<F>(1, z.last()), e, lo);
    dot_scale::<F>(z.last(), e, hi);
}

/// The extension of a constant-length-one vector is its entry.
pub proof fn mle_point<F: Residue>(evals: Seq<int>, z: Seq<int>)
    requires
        z.len() == 0,
        evals.len() == 1,
        canon::<F>(evals[0]),
    ensures
        mle::<F>(evals, z) == evals[0],
{
    let p = vmul::<F>(evals, eq_evals::<F>(z));
    assert(p =~= Seq::<int>::empty().push(fmul::<F>(evals[0], 1)));
    vsum_push::<F>(Seq::empty(), fmul::<F>(evals[0], 1));
    f_units::<F>(evals[0]);
}

/// The product `prod_k (1 - 2 a_k b_k)`, the extension of the transform matrix.
pub open spec fn hadamard<F: Residue>(a: Seq<int>, b: Seq<int>) -> int
    decreases a.len(),
{
    if a.len() == 0 {
        1
    } else {
        fmul::<F>(
            hadamard::<F>(a.drop_last(), b.drop_last()),
            fsub::<F>(1, fmul::<F>(fmul::<F>(red::<F>(2), a.last()), b.last())),
        )
    }
}

/// `1 - 2 g`.
pub open spec fn flip<F: Residue>(g: int) -> int {
    fsub::<F>(1, fmul::<F>(red::<F>(2), g))
}

/// The row of the transform matrix selected by a point.
pub open spec fn had_evals<F: Residue>(gamma: Seq<int>) -> Seq<int>
    decreases gamma.len(),
{
    if gamma.len() == 0 {
        seq![1int]
    } else {
        let p = had_evals::<F>(gamma.drop_last());
        p + vscale::<F>(flip::<F>(gamma.last()), p)
    }
}

/// A row of the transform matrix has one canonical entry for every vertex.
pub proof fn had_evals_shape<F: Residue>(gamma: Seq<int>)
    ensures
        had_evals::<F>(gamma).len() == exp2(gamma.len()),
        vcanon::<F>(had_evals::<F>(gamma)),
    decreases gamma.len(),
{
    canon_consts::<F>();
    if gamma.len() > 0 {
        had_evals_shape::<F>(gamma.drop_last());
        broadcast use fmul_canon;

    }
}

/// `(1 - g)(a + b) + g (a - b) == a + (1 - 2 g) b`.
proof fn f_butterfly<F: Residue>(a: int, b: int, g: int)
    requires
        canon::<F>(a),
    ensures
        fadd::<F>(
            fmul::<F>(fsub::<F>(1, g), fadd::<F>(a, b)),
            fmul::<F>(g, fsub::<F>(a, b)),
        ) == fadd::<F>(a, fmul::<F>(flip::<F>(g), b)),
{
    ops_red::<F>(1, g);
    ops_red::<F>(a, b);
    red_mul::<F>(1 - g, a + b);
    ops_red::<F>(g, fsub::<F>(a, b));
    red_red::<F>(a - b);
    red_mul::<F>(g, a - b);
    red_add::<F>((1 - g) * (a + b), g * (a - b));
    let l = (1 - g) * (a + b) + g * (a - b);
    ops_red::<F>(red::<F>(2), g);
    red_red::<F>(2);
    red_mul::<F>(2, g);
    ops_red::<F>(1, fmul::<F>(red::<F>(2), g));
    red_red::<F>(2 * g);
    red_sub::<F>(1, 2 * g);
    assert(flip::<F>(g) == red::<F>(1 - 2 * g));
    ops_red::<F>(flip::<F>(g), b);
    red_red::<F>(1 - 2 * g);
    red_mul::<F>(1 - 2 * g, b);
    red_id::<F>(a);
    red_add::<F>(a, (1 - 2 * g) * b);
    assert(l == a + (1 - 2 * g) * b) by (nonlinear_arith)
        requires
            l == (1 - g) * (a + b) + g * (a - b),
    ;
}

/// Evaluating the extension of a transformed vector is the inner product of
/// the vector with a row of the extended transform matrix.
pub proof fn mle_of_walsh<F: Residue>(x: Seq<int>, gamma: Seq<int>)
    requires
        x.len() == exp2(gamma.len()),
        vcanon::<F>(x),
    ensures
        mle::<F>(walsh::<F>(x), gamma) == dot::<F>(x, had_evals::<F>(gamma)),
    decreases gamma.len(),
{
    exp2_is_pow2(gamma.len());
    if gamma.len() == 0 {
        mle_point::<F>(x, gamma);
        let p = vmul::<F>(x, seq![1int]);
        assert(p =~= Seq::<int>::empty().push(fmul::<F>(x[0], 1)));
        vsum_push::<F>(Seq::empty(), fmul::<F>(x[0], 1));
        f_units::<F>(x[0]);
    } else {
        let h = exp2((gamma.len() - 1) as nat) as int;
        let gl = gamma.drop_last();
        let g = gamma.last();
        let (lo, hi) = (x.take(h), x.skip(h));
        exp2_is_pow2((gamma.len() - 1) as nat);
        walsh_shape::<F>(lo);
        walsh_shape::<F>(hi);
        mle_of_walsh::<F>(lo, gl);
        mle_of_walsh::<F>(hi, gl);
        let (a, b) = (walsh::<F>(lo), walsh::<F>(hi));
        mle_halves::<F>(vadd::<F>(a, b), vsub::<F>(a, b), gamma);
        dot_add::<F>(a, b, eq_evals::<F>(gl));
        dot_sub::<F>(a, b, eq_evals::<F>(gl));
        dot_canon::<F>(a, eq_evals::<F>(gl));
        let (ma, mb) = (mle::<F>(a, gl), mle::<F>(b, gl));
        f_butterfly::<F>(ma, mb, g);
        had_evals_shape::<F>(gl);
        let p = had_evals::<F>(gl);
        assert(x =~= lo + hi);
        dot_concat::<F>(lo, hi, p, vscale::<F>(flip::<F>(g), p));
        dot_scale::<F>(flip::<F>(g), p, hi);
    }
}

/// `(1 - r) m + r ((1 - 2 g) m) == m (1 - 2 g r)`.
proof fn f_flip_mix<F: Residue>(m: int, g: int, r: int)
    ensures
        fadd::<F>(
            fmul::<F>(fsub::<F>(1, r), m),
            fmul::<F>(r, fmul::<F>(flip::<F>(g), m)),
        ) == fmul::<F>(m, fsub::<F>(1, fmul::<F>(fmul::<F>(red::<F>(2), g), r))),
{
    red_red::<F>(2);
    ops_red::<F>(red::<F>(2), g);
    red_mul::<F>(2, g);
    let t = fmul::<F>(red::<F>(2), g);
    assert(t == red::<F>(2 * g));
    red_red::<F>(2 * g);
    ops_red::<F>(1, t);
    red_sub::<F>(1, 2 * g);
    assert(flip::<F>(g) == red::<F>(1 - 2 * g));
    red_red::<F>(1 - 2 * g);
    ops_red::<F>(flip::<F>(g), m);
    red_mul::<F>(1 - 2 * g, m);
    let fm = (1 - 2 * g) * m;
    red_red::<F>(fm);
    ops_red::<F>(r, fmul::<F>(flip::<F>(g), m));
    red_mul::<F>(r, fm);
    ops_red::<F>(1, r);
    red_red::<F>(1 - r);
    ops_red::<F>(fsub::<F>(1, r), m);
    red_mul::<F>(1 - r, m);
    red_add::<F>((1 - r) * m, r * fm);
    ops_red::<F>(t, r);
    red_mul::<F>(2 * g, r);
    let tr = fmul::<F>(t, r);
    assert(tr == red::<F>(2 * g * r));
    red_red::<F>(2 * g * r);
    ops_red::<F>(1, tr);
    red_sub::<F>(1, 2 * g * r);
    let s = fsub::<F>(1, tr);
    assert(s == red::<F>(1 - 2 * g * r));
    red_red::<F>(1 - 2 * g * r);
    ops_red::<F>(m, s);
    red_mul::<F>(m, 1 - 2 * g * r);
    assert((1 - r) * m + r * ((1 - 2 * g) * m) == m * (1 - 2 * g * r)) by (nonlinear_arith);
}

/// The extension of a row of the transform matrix has the product form.
pub proof fn mle_of_had_evals<F: Residue>(gamma: Seq<int>, r: Seq<int>)
    requires
        gamma.len() == r.len(),
    ensures
        mle::<F>(had_evals::<F>(gamma), r) == hadamard::<F>(gamma, r),
    decreases r.len(),
{
    if r.len() == 0 {
        canon_consts::<F>();
        mle_point::<F>(seq![1int], r);
    } else {
        let (gl, rl) = (gamma.drop_last(), r.drop_last());
        mle_of_had_evals::<F>(gl, rl);
        had_evals_shape::<F>(gl);
        let p = had_evals::<F>(gl);
        let f = flip::<F>(gamma.last());
        mle_halves::<F>(p, vscale::<F>(f, p), r);
        dot_scale::<F>(f, p, eq_evals::<F>(rl));
        f_flip_mix::<F>(mle::<F>(p, rl), gamma.last(), r.last());
    }
}

/// The product `prod_k ((1 - a_k)(1 - b_k) + a_k b_k)`.
pub open spec fn eq_product<F: Residue>(a: Seq<int>, b: Seq<int>) -> int
    decreases a.len(),
{
    if a.len() == 0 {
        1
    } else {
        fmul::<F>(
            eq_product::<F>(a.drop_last(), b.drop_last()),
            fadd::<F>(
                fmul::<F>(fsub::<F>(1, a.last()), fsub::<F>(1, b.last())),
                fmul::<F>(a.last(), b.last()),
            ),
        )
    }
}

/// The extension of the equality values of one point at another point has the
/// product form.
pub proof fn mle_of_eq_evals<F: Residue>(a: Seq<int>, b: Seq<int>)
    requires
        a.len() == b.len(),
    ensures
        mle::<F>(eq_evals::<F>(a), b) == eq_product::<F>(a, b),
    decreases b.len(),
{
    if b.len() == 0 {
        canon_consts::<F>();
        assert(eq_evals::<F>(a) =~= seq![1int]);
        mle_point::<F>(seq![1int], b);
    } else {
        let (al, bl) = (a.drop_last(), b.drop_last());
        mle_of_eq_evals::<F>(al, bl);
        let p = eq_evals::<F>(al);
        let (x, y) = (a.last(), b.last());
        eq_evals_step::<F>(a);
        let (x0, y0) = (fsub::<F>(1, x), fsub::<F>(1, y));
        mle_halves::<F>(vscale::<F>(x0, p), vscale::<F>(x, p), b);
        dot_scale::<F>(x0, p, eq_evals::<F>(bl));
        dot_scale::<F>(x, p, eq_evals::<F>(bl));
        let m = mle::<F>(p, bl);
        fmul_assoc::<F>(y0, x0, m);
        fmul_assoc::<F>(y, x, m);
        fmul_comm::<F>(y0, x0);
        fmul_comm::<F>(y, x);
        fmul_comm::<F>(fmul::<F>(x0, y0), m);
        fmul_comm::<F>(fmul::<F>(x, y), m);
        fmul_fadd::<F>(m, fmul::<F>(x0, y0), fmul::<F>(x, y));
    }
}

/// The equality values of a concatenated point form a Kronecker product.
pub proof fn eq_evals_concat<F: Residue>(a: Seq<int>, b: Seq<int>)
    ensures
        eq_evals::<F>(a + b) == flatten(
            Seq::new(exp2(b.len()), |i: int| vscale::<F>(eq_at::<F>(i, b), eq_evals::<F>(a))),
        ),
    decreases b.len(),
{
    let ea = eq_evals::<F>(a);
    let n = exp2(a.len());
    let rows = Seq::new(exp2(b.len()), |i: int| vscale::<F>(eq_at::<F>(i, b), ea));
    if b.len() == 0 {
        assert(a + b =~= a);
        assert(rows =~= Seq::<Seq<int>>::empty().push(vscale::<F>(1, ea)));
        flatten_push(Seq::<Seq<int>>::empty(), vscale::<F>(1, ea));
        assert(flatten(rows) =~= vscale::<F>(1, ea));
        eq_evals_canon::<F>(a);
        assert forall|i: int| 0 <= i < ea.len() implies vscale::<F>(1, ea)[i] == ea[i] by {
            f_units::<F>(ea[i]);
        }
        assert(vscale::<F>(1, ea) =~= ea);
    } else {
        let bl = b.drop_last();
        let k = b.last();
        let h = exp2(bl.len());
        let half = Seq::new(h, |i: int| vscale::<F>(eq_at::<F>(i, bl), ea));
        eq_evals_concat::<F>(a, bl);
        assert((a + b).drop_last() =~= a + bl);
        eq_evals_step::<F>(a + b);
        flatten_len(half, n);
        flatten_len(rows, n);
        assert((2 * h) * n == h * n + h * n) by (nonlinear_arith);
        let lhs = eq_evals::<F>(a + b);
        let rhs = flatten(rows);
        assert forall|t: int| 0 <= t < rhs.len() implies lhs[t] == rhs[t] by {
            let i = t / (n as int);
            let j = t % (n as int);
            exp2_is_pow2(a.len());
            vstd::arithmetic::div_mod::lemma_fundamental_div_mod(t, n as int);
            vstd::arithmetic::div_mod::lemma_mod_bound(t, n as int);
            assert(t == i * n + j) by (nonlinear_arith)
                requires
                    t == n * i + j,
            ;
            assert(0 <= i < 2 * h) by (nonlinear_arith)
                requires
                    t == i * n + j,
                    0 <= j < n,
                    0 <= t < (2 * h) * n,
            ;
            flatten_entry(rows, n, i, j);
            if i < h {
                flatten_entry(half, n, i, j);
                assert(i * n + j < h * n) by (nonlinear_arith)
                    requires
                        i < h,
                        0 <= j < n,
                        0 <= i,
                ;
                fmul_assoc::<F>(fsub::<F>(1, k), eq_at::<F>(i, bl), ea[j]);
            } else {
                flatten_entry(half, n, i - h, j);
                assert((i - h) * n == i * n - h * n) by (nonlinear_arith);
                fmul_assoc::<F>(k, eq_at::<F>(i - h, bl), ea[j]);
            }
        }
        exp2_adds(a.len(), b.len());
        assert(exp2(a.len()) * exp2(b.len()) == exp2(b.len()) * exp2(a.len()))
            by (nonlinear_arith);
        assert((a + b).len() == a.len() + b.len());
        assert(lhs =~= rhs);
    }
}

/// Inner product of two matrices laid out row after row.
proof fn dot_flatten<F: Residue>(x: Seq<Seq<int>>, y: Seq<Seq<int>>, n: nat)
    requires
        x.len() == y.len(),
        rect(x, n),
        rect(y, n),
    ensures
        dot::<F>(flatten(x), flatten(y)) == vsum::<F>(
            Seq::new(x.len(), |i: int| dot::<F>(x[i], y[i])),
        ),
    decreases x.len(),
{
    let d = Seq::new(x.len(), |i: int| dot::<F>(x[i], y[i]));
    if x.len() > 0 {
        let (xd, yd) = (x.drop_last(), y.drop_last());
        dot_flatten::<F>(xd, yd, n);
        flatten_len(xd, n);
        flatten_len(yd, n);
        dot_concat::<F>(flatten(xd), x.last(), flatten(yd), y.last());
        assert(d.drop_last() =~= Seq::new(xd.len(), |i: int| dot::<F>(xd[i], yd[i])));
    }
}

/// Evaluating a matrix laid out row after row: the last variables combine the
/// rows, the first variables evaluate the combined row.
pub proof fn mle_row_major<F: Residue>(
    rows: Seq<Seq<int>>,
    n: nat,
    z_cols: Seq<int>,
    z_rows: Seq<int>,
)
    requires
        rect(rows, n),
        n == exp2(z_cols.len()),
        rows.len() == exp2(z_rows.len()),
    ensures
        mle::<F>(flatten(rows), z_cols + z_rows) == mle::<F>(
            comb::<F>(eq_evals::<F>(z_rows), rows, n),
            z_cols,
        ),
{
    let ec = eq_evals::<F>(z_cols);
    let er = eq_evals::<F>(z_rows);
    let kron = Seq::new(exp2(z_rows.len()), |i: int| vscale::<F>(eq_at::<F>(i, z_rows), ec));
    eq_evals_concat::<F>(z_cols, z_rows);
    dot_flatten::<F>(rows, kron, n);
    dot_comb::<F>(er, rows, n, ec);
    let prods = Seq::new(rows.len(), |i: int| dot::<F>(rows[i], ec));
    assert forall|i: int| 0 <= i < rows.len() implies dot::<F>(rows[i], kron[i]) == fmul::<F>(
        er[i],
        prods[i],
    ) by {
        dot_scale::<F>(er[i], ec, rows[i]);
    }
    assert(Seq::new(rows.len(), |i: int| dot::<F>(rows[i], kron[i])) =~= vmul::<F>(er, prods));
}

/// `2^k` as a machine integer.
pub fn power_of_two(k: usize) -> (r: usize)
    requires
        exp2(k as nat) <= usize::MAX,
    ensures
        r == exp2(k as nat),
{
    let mut r: usize = 1;
    let mut i: usize = 0;
    while i < k
        invariant
            i <= k,
            r == exp2(i as nat),
            exp2(k as nat) <= usize::MAX,
        decreases k - i,
    {
        proof {
            exp2_mono((i + 1) as nat, k as nat);
        }
        r = r * 2;
        i = i + 1;
    }
    r
}

/// The exponent of a power of two.
pub fn log2_power_of_two(x: usize) -> (r: usize)
    requires
        is_pow2(x as int),
    ensures
        r == log2(x as int),
        exp2(r as nat) == x,
{
    let mut rest: usize = x;
    let mut r: usize = 0;
    while rest > 1
        invariant
            is_pow2(rest as int),
            r + log2(rest as int) == log2(x as int),
            r + rest <= x,
        decreases rest,
    {
        rest = rest / 2;
        r = r + 1;
    }
    proof {
        pow2_is_exp2(x as int);
    }
    r
}

/// Whether an integer is a power of two.
pub fn is_power_of_two(x: usize) -> (r: bool)
    ensures
        r == is_pow2(x as int),
{
    let mut rest: usize = x;
    while rest > 1
        invariant
            is_pow2(rest as int) == is_pow2(x as int),
        decreases rest,
    {
        if rest % 2 != 0 {
            return false;
        }
        rest = rest / 2;
    }
    rest == 1
}

/// The equality polynomial at a Boolean index and a point.
pub fn equality_mle_eval_at_index<F: PrimeField>(index: usize, num_vars: usize, point: &[F]) -> (r:
    F)
    requires
        point@.len() == num_vars,
        index < exp2(num_vars as nat),
    ensures
        r.val() == eq_at::<F>(index as int, vals(point@)),
{
    let ghost z = vals(point@);
    let mut acc = F::one();
    let mut rest: usize = index;
    let mut i: usize = 0;
    proof {
        assert(z.skip(0) =~= z);
        eq_at_canon::<F>(index as int, z);
        f_units::<F>(eq_at::<F>(index as int, z));
    }
    while i < num_vars
        invariant
            i <= num_vars,
            point@.len() == num_vars,
            z == vals(point@),
            rest < exp2((num_vars - i) as nat),
            fmul::<F>(acc.val(), eq_at::<F>(rest as int, z.skip(i as int))) == eq_at::<F>(
                index as int,
                z,
            ),
        decreases num_vars - i,
    {
        let bit: bool = rest % 2 == 1;
        let factor = if bit {
            point[i]
        } else {
            F::one().minus(point[i])
        };
        proof {
            let tail = z.skip(i as int);
            eq_at_first::<F>(bit, rest as int / 2, tail);
            assert(tail.drop_first() =~= z.skip(i as int + 1));
            assert(factor.val() == sel::<F>(bit, tail[0]));
            fmul_assoc::<F>(
                acc.val(),
                factor.val(),
                eq_at::<F>(rest as int / 2, z.skip(i as int + 1)),
            );
        }
        acc = acc.times(factor);
        rest = rest / 2;
        i = i + 1;
    }
    proof {
        broadcast use group_canon;

        f_units::<F>(acc.val());
    }
    acc
}

/// The extension of the transform matrix at a pair of points.
pub fn hadamard_tensor_mle_eval<F: PrimeField>(a: &[F], b: &[F]) -> (r: F)
    requires
        a@.len() == b@.len(),
    ensures
        r.val() == hadamard::<F>(vals(a@), vals(b@)),
{
    let ghost (x, y) = (vals(a@), vals(b@));
    let two = F::from_u64(2);
    assert(two.val() == red::<F>(2)) by {
        reveal(red);
    }
    let mut acc = F::one();
    let mut i: usize = 0;
    while i < a.len()
        invariant
            i <= a@.len(),
            a@.len() == b@.len(),
            x == vals(a@),
            y == vals(b@),
            two.val() == red::<F>(2),
            acc.val() == hadamard::<F>(x.take(i as int), y.take(i as int)),
        decreases a@.len() - i,
    {
        acc = acc.times(F::one().minus(two.times(a[i]).times(b[i])));
        proof {
            assert(x.take(i as int + 1).drop_last() =~= x.take(i as int));
            assert(y.take(i as int + 1).drop_last() =~= y.take(i as int));
        }
        i = i + 1;
    }
    proof {
        assert(x.take(i as int) =~= x);
        assert(y.take(i as int) =~= y);
    }
    acc
}

/// The row of the transform matrix selected by a point.
pub fn hadamard_tensor_mle_evals_on_hypercube<F: PrimeField>(gamma: &[F]) -> (r: Vec<F>)
    requires
        exp2(gamma@.len()) <= usize::MAX,
    ensures
        vals(r@) == had_evals::<F>(vals(gamma@)),
{
    let ghost g = vals(gamma@);
    let two = F::from_u64(2);
    assert(two.val() == red::<F>(2)) by {
        reveal(red);
    }
    let mut evals: Vec<F> = Vec::new();
    evals.push(F::one());
    let mut k: usize = 0;
    proof {
        assert(vals(evals@) =~= had_evals::<F>(g.take(0)));
    }
    while k < gamma.len()
        invariant
            k <= gamma@.len(),
            g == vals(gamma@),
            two.val() == red::<F>(2),
            vals(evals@) == had_evals::<F>(g.take(k as int)),
        decreases gamma@.len() - k,
    {
        let factor = F::one().minus(two.times(gamma[k]));
        let ghost p = vals(evals@);
        let ghost f = flip::<F>(g[k as int]);
        let old_len: usize = evals.len();
        let mut i: usize = 0;
        while i < old_len
            invariant
                i <= old_len,
                old_len == p.len(),
                evals@.len() == old_len + i,
                factor.val() == f,
                vals(evals@) == p + vscale::<F>(f, p).take(i as int),
            decreases old_len - i,
        {
            proof {
                let t = vscale::<F>(f, p);
                assert(vals(evals@)[i as int] == p[i as int]);
                fmul_comm::<F>(p[i as int], f);
                assert(t.take(i as int + 1) =~= t.take(i as int).push(t[i as int]));
                assert((p + t.take(i as int)).push(t[i as int]) =~= p + t.take(i as int).push(
                    t[i as int],
                ));
            }
            let value = evals[i].times(factor);
            proof {
                vals_push(evals@, value);
            }
            evals.push(value);
            i = i + 1;
        }
        proof {
            assert(vscale::<F>(f, p).take(i as int) =~= vscale::<F>(f, p));
            assert(g.take(k as int + 1).drop_last() =~= g.take(k as int));
        }
        k = k + 1;
    }
    proof {
        assert(g.take(k as int) =~= g);
    }
    evals
}

/// The value at a point of the multilinear extension of a vector.
pub fn eval_mle_from_evals<F: PrimeField>(evals: &[F], point: &[F]) -> (r: F)
    requires
        evals@.len() == exp2(point@.len()),
    ensures
        r.val() == mle::<F>(vals(evals@), vals(point@)),
{
    let ghost z = vals(point@);
    let ghost v = vals(evals@);
    let mut layer = copied(evals);
    let mut k: usize = 0;
    proof {
        assert(z.skip(0) =~= z);
    }
    while k < point.len()
        invariant
            k <= point@.len(),
            z == vals(point@),
            layer@.len() == exp2((point@.len() - k) as nat),
            mle::<F>(vals(layer@), z.skip(k as int)) == mle::<F>(v, z),
        decreases point@.len() - k,
    {
        let r = point[k];
        let size: usize = layer.len();
        let half: usize = size / 2;
        let ghost l = vals(layer@);
        let ghost f = fold_low::<F>(l, r.val());
        let mut next: Vec<F> = Vec::new();
        let mut i: usize = 0;
        while i < half
            invariant
                i <= half,
                half == size / 2,
                size == layer@.len(),
                l == vals(layer@),
                f == fold_low::<F>(l, r.val()),
                vals(next@) == f.take(i as int),
            decreases half - i,
        {
            let left = layer[2 * i];
            let right = layer[2 * i + 1];
            let value = left.times(F::one().minus(r)).plus(right.times(r));
            proof {
                vals_push(next@, value);
                assert(f.take(i as int + 1) =~= f.take(i as int).push(f[i as int]));
            }
            next.push(value);
            i = i + 1;
        }
        proof {
            assert(f.take(i as int) =~= f);
            let tail = z.skip(k as int);
            mle_fold_low::<F>(l, tail);
            assert(tail.drop_first() =~= z.skip(k as int + 1));
            assert(vals(next@).len() == next@.len());
        }
        layer = next;
        k = k + 1;
    }
    proof {
        broadcast use vals_canon;

        mle_point::<F>(vals(layer@), z.skip(k as int));
    }
    layer[0]
}

/// The equality polynomial at a pair of points.
pub fn equality_mle_eval<F: PrimeField>(a: &[F], b: &[F]) -> (r: F)
    requires
        a@.len() == b@.len(),
    ensures
        r.val() == eq_product::<F>(vals(a@), vals(b@)),
{
    let ghost (x, y) = (vals(a@), vals(b@));
    let mut acc = F::one();
    let mut i: usize = 0;
    while i < a.len()
        invariant
            i <= a@.len(),
            a@.len() == b@.len(),
            x == vals(a@),
            y == vals(b@),
            acc.val() == eq_product::<F>(x.take(i as int), y.take(i as int)),
        decreases a@.len() - i,
    {
        let off = F::one().minus(a[i]).times(F::one().minus(b[i]));
        acc = acc.times(off.plus(a[i].times(b[i])));
        proof {
            assert(x.take(i as int + 1).drop_last() =~= x.take(i as int));
            assert(y.take(i as int + 1).drop_last() =~= y.take(i as int));
        }
        i = i + 1;
    }
    proof {
        assert(x.take(i as int) =~= x);
        assert(y.take(i as int) =~= y);
    }
    acc
}

/// The equality polynomial of a point at every Boolean index.
pub fn equality_mle_evals_on_hypercube<F: PrimeField>(beta: &[F]) -> (r: Vec<F>)
    requires
        exp2(beta@.len()) <= usize::MAX,
    ensures
        vals(r@) == eq_evals::<F>(vals(beta@)),
{
    let ghost z = vals(beta@);
    let mut evals: Vec<F> = Vec::new();
    evals.push(F::one());
    let mut k: usize = 0;
    proof {
        assert(vals(evals@) =~= eq_evals::<F>(z.take(0)));
    }
    while k < beta.len()
        invariant
            k <= beta@.len(),
            z == vals(beta@),
            vals(evals@) == eq_evals::<F>(z.take(k as int)),
        decreases beta@.len() - k,
    {
        let r = beta[k];
        let s = F::one().minus(r);
        let ghost p = vals(evals@);
        let ghost lo = vscale::<F>(s.val(), p);
        let ghost hi = vscale::<F>(r.val(), p);
        let mut low: Vec<F> = Vec::new();
        let mut high: Vec<F> = Vec::new();
        let mut i: usize = 0;
        while i < evals.len()
            invariant
                i <= evals@.len(),
                p == vals(evals@),
                lo == vscale::<F>(s.val(), p),
                hi == vscale::<F>(r.val(), p),
                vals(low@) == lo.take(i as int),
                vals(high@) == hi.take(i as int),
            decreases evals@.len() - i,
        {
            let a = evals[i].times(s);
            let b = evals[i].times(r);
            proof {
                fmul_comm::<F>(p[i as int], s.val());
                fmul_comm::<F>(p[i as int], r.val());
                vals_push(low@, a);
                vals_push(high@, b);
                assert(lo.take(i as int + 1) =~= lo.take(i as int).push(lo[i as int]));
                assert(hi.take(i as int + 1) =~= hi.take(i as int).push(hi[i as int]));
            }
            low.push(a);
            high.push(b);
            i = i + 1;
        }
        proof {
            assert(lo.take(i as int) =~= lo);
            assert(hi.take(i as int) =~= hi);
            eq_evals_step::<F>(z.take(k as int + 1));
            assert(z.take(k as int + 1).drop_last() =~= z.take(k as int));
            crate::linear::vals_concat(low@, high@);
        }
        low.append(&mut high);
        evals = low;
        k = k + 1;
    }
    proof {
        assert(z.take(k as int) =~= z);
    }
    evals
}

} // verus!
