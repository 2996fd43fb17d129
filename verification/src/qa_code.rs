//! The Walsh-Hadamard transform and the quasi-abelian code built from it.

use crate::field::{
    canon_consts, f_interchange, f_units, fadd, fadd_canon, fmul, fmul_assoc, fmul_comm, fmul_fadd,
    fmul_fsub, fsub, fsub_canon, ops_red, red, red_add, PrimeField, Residue,
};
use crate::linear::{
    comb, comb_len, flatten, mat, mat_push, rect, vadd, vals, vals_concat, vcanon, vmul, vscale,
    vsub, vzero,
};
use vstd::prelude::*;

verus! {

/// Powers of two.
pub open spec fn is_pow2(n: int) -> bool
    decreases n,
{
    if n <= 1 {
        n == 1
    } else {
        n % 2 == 0 && is_pow2(n / 2)
    }
}

/// The Walsh-Hadamard transform: the matrix of the transform of length `2n` is
/// the Kronecker product of `[[1, 1], [1, -1]]` with that of length `n`.
pub open spec fn walsh<F: Residue>(x: Seq<int>) -> Seq<int>
    decreases x.len(),
{
    if x.len() <= 1 {
        x
    } else {
        let h = (x.len() / 2) as int;
        let lo = walsh::<F>(x.take(h));
        let hi = walsh::<F>(x.skip(h));
        vadd::<F>(lo, hi) + vsub::<F>(lo, hi)
    }
}

/// The transform keeps lengths and canonical residues.
pub proof fn walsh_shape<F: Residue>(x: Seq<int>)
    requires
        is_pow2(x.len() as int),
    ensures
        walsh::<F>(x).len() == x.len(),
        vcanon::<F>(x) ==> vcanon::<F>(walsh::<F>(x)),
    decreases x.len(),
{
    if x.len() > 1 {
        let h = (x.len() / 2) as int;
        walsh_shape::<F>(x.take(h));
        walsh_shape::<F>(x.skip(h));
        broadcast use {fadd_canon, fsub_canon};

    }
}

/// The transform is additive.
pub proof fn walsh_add<F: Residue>(x: Seq<int>, y: Seq<int>)
    requires
        is_pow2(x.len() as int),
        x.len() == y.len(),
    ensures
        walsh::<F>(vadd::<F>(x, y)) == vadd::<F>(walsh::<F>(x), walsh::<F>(y)),
    decreases x.len(),
{
    walsh_shape::<F>(x);
    walsh_shape::<F>(y);
    if x.len() > 1 {
        let h = (x.len() / 2) as int;
        let (xl, xh, yl, yh) = (x.take(h), x.skip(h), y.take(h), y.skip(h));
        walsh_add::<F>(xl, yl);
        walsh_add::<F>(xh, yh);
        walsh_shape::<F>(xl);
        walsh_shape::<F>(xh);
        walsh_shape::<F>(yl);
        walsh_shape::<F>(yh);
        let s = vadd::<F>(x, y);
        assert(s.take(h) =~= vadd::<F>(xl, yl));
        assert(s.skip(h) =~= vadd::<F>(xh, yh));
        let (a, b, c, d) = (walsh::<F>(xl), walsh::<F>(xh), walsh::<F>(yl), walsh::<F>(yh));
        assert forall|i: int| 0 <= i < h implies fadd::<F>(
            #[trigger] fadd::<F>(a[i], c[i]),
            fadd::<F>(b[i], d[i]),
        ) == fadd::<F>(fadd::<F>(a[i], b[i]), fadd::<F>(c[i], d[i])) && fsub::<F>(
            fadd::<F>(a[i], c[i]),
            fadd::<F>(b[i], d[i]),
        ) == fadd::<F>(fsub::<F>(a[i], b[i]), fsub::<F>(c[i], d[i])) by {
            f_interchange::<F>(a[i], c[i], b[i], d[i]);
        }
        assert(walsh::<F>(s) =~= vadd::<F>(walsh::<F>(x), walsh::<F>(y)));
    }
}

/// The transform is homogeneous.
pub proof fn walsh_scale<F: Residue>(k: int, x: Seq<int>)
    requires
        is_pow2(x.len() as int),
    ensures
        walsh::<F>(vscale::<F>(k, x)) == vscale::<F>(k, walsh::<F>(x)),
    decreases x.len(),
{
    walsh_shape::<F>(x);
    if x.len() > 1 {
        let h = (x.len() / 2) as int;
        let (xl, xh) = (x.take(h), x.skip(h));
        walsh_scale::<F>(k, xl);
        walsh_scale::<F>(k, xh);
        walsh_shape::<F>(xl);
        walsh_shape::<F>(xh);
        let s = vscale::<F>(k, x);
        assert(s.take(h) =~= vscale::<F>(k, xl));
        assert(s.skip(h) =~= vscale::<F>(k, xh));
        let (a, b) = (walsh::<F>(xl), walsh::<F>(xh));
        assert forall|i: int| 0 <= i < h implies #[trigger] fmul::<F>(
            k,
            fadd::<F>(a[i], b[i]),
        ) == fadd::<F>(fmul::<F>(k, a[i]), fmul::<F>(k, b[i])) && fmul::<F>(
            k,
            fsub::<F>(a[i], b[i]),
        ) == fsub::<F>(fmul::<F>(k, a[i]), fmul::<F>(k, b[i])) by {
            fmul_fadd::<F>(k, a[i], b[i]);
            fmul_fsub::<F>(k, a[i], b[i]);
        }
        assert forall|i: int| 0 <= i < x.len() implies walsh::<F>(s)[i] == vscale::<F>(
            k,
            walsh::<F>(x),
        )[i] by {
            if i < h {
                fmul_fadd::<F>(k, a[i], b[i]);
            } else {
                fmul_fsub::<F>(k, a[i - h], b[i - h]);
            }
        }
        assert(walsh::<F>(s) =~= vscale::<F>(k, walsh::<F>(x)));
    }
}

/// Transforming the sum and the difference of two vectors.
proof fn walsh_sub<F: Residue>(x: Seq<int>, y: Seq<int>)
    requires
        is_pow2(x.len() as int),
        x.len() == y.len(),
    ensures
        walsh::<F>(vsub::<F>(x, y)) == vsub::<F>(walsh::<F>(x), walsh::<F>(y)),
    decreases x.len(),
{
    walsh_shape::<F>(x);
    walsh_shape::<F>(y);
    if x.len() > 1 {
        let h = (x.len() / 2) as int;
        let (xl, xh, yl, yh) = (x.take(h), x.skip(h), y.take(h), y.skip(h));
        walsh_sub::<F>(xl, yl);
        walsh_sub::<F>(xh, yh);
        walsh_shape::<F>(xl);
        walsh_shape::<F>(xh);
        walsh_shape::<F>(yl);
        walsh_shape::<F>(yh);
        let s = vsub::<F>(x, y);
        assert(s.take(h) =~= vsub::<F>(xl, yl));
        assert(s.skip(h) =~= vsub::<F>(xh, yh));
        let (a, b, c, d) = (walsh::<F>(xl), walsh::<F>(xh), walsh::<F>(yl), walsh::<F>(yh));
        assert forall|i: int| 0 <= i < h implies fadd::<F>(
            #[trigger] fsub::<F>(a[i], c[i]),
            fsub::<F>(b[i], d[i]),
        ) == fsub::<F>(fadd::<F>(a[i], b[i]), fadd::<F>(c[i], d[i])) && fsub::<F>(
            fsub::<F>(a[i], c[i]),
            fsub::<F>(b[i], d[i]),
        ) == fsub::<F>(fsub::<F>(a[i], b[i]), fsub::<F>(c[i], d[i])) by {
            f_interchange::<F>(a[i], b[i], c[i], d[i]);
            f_interchange::<F>(a[i], c[i], b[i], d[i]);
        }
        assert(walsh::<F>(s) =~= vsub::<F>(walsh::<F>(x), walsh::<F>(y)));
    }
}

/// Applying the transform twice multiplies by the length.
pub proof fn walsh_twice<F: Residue>(x: Seq<int>)
    requires
        is_pow2(x.len() as int),
        vcanon::<F>(x),
    ensures
        walsh::<F>(walsh::<F>(x)) == vscale::<F>(red::<F>(x.len() as int), x),
    decreases x.len(),
{
    walsh_shape::<F>(x);
    if x.len() == 1 {
        canon_consts::<F>();
        f_units::<F>(x[0]);
        assert(vscale::<F>(red::<F>(1), x) =~= x);
    } else {
        let h = (x.len() / 2) as int;
        let (xl, xh) = (x.take(h), x.skip(h));
        walsh_shape::<F>(xl);
        walsh_shape::<F>(xh);
        let (a, b) = (walsh::<F>(xl), walsh::<F>(xh));
        let y = walsh::<F>(x);
        assert(y.take(h) =~= vadd::<F>(a, b));
        assert(y.skip(h) =~= vsub::<F>(a, b));
        walsh_add::<F>(a, b);
        walsh_sub::<F>(a, b);
        walsh_twice::<F>(xl);
        walsh_twice::<F>(xh);
        walsh_shape::<F>(a);
        walsh_shape::<F>(b);
        let (p, q) = (walsh::<F>(a), walsh::<F>(b));
        let m = red::<F>(h);
        let n = red::<F>(x.len() as int);
        red_add::<F>(h, h);
        assert(n == fadd::<F>(m, m));
        assert forall|i: int| 0 <= i < x.len() implies walsh::<F>(y)[i] == vscale::<F>(n, x)[i] by {
            let k = if i < h { i } else { i - h };
            f_interchange::<F>(p[k], q[k], p[k], q[k]);
            let v = x[i];
            fmul_comm::<F>(n, v);
            fmul_fadd::<F>(v, m, m);
            fmul_comm::<F>(v, m);
            assert(fmul::<F>(n, v) == fadd::<F>(fmul::<F>(m, v), fmul::<F>(m, v)));
            if i < h {
                assert(p[k] == fmul::<F>(m, xl[k]));
            } else {
                assert(q[k] == fmul::<F>(m, xh[k]));
            }
        }
        assert(walsh::<F>(y) =~= vscale::<F>(n, x));
    }
}

/// The butterfly transform of the block of `x` that starts at `start`.
fn wht_block<F: PrimeField>(x: &mut [F], start: usize, len: usize)
    requires
        is_pow2(len as int),
        start + len <= old(x)@.len(),
    ensures
        final(x)@.len() == old(x)@.len(),
        vals(final(x)@).subrange(start as int, start + len) == walsh::<F>(
            vals(old(x)@).subrange(start as int, start + len),
        ),
        forall|j: int|
            0 <= j < old(x)@.len() && !(start <= j < start + len) ==> final(x)@[j] == old(x)@[j],
    decreases len,
{
    if len <= 1 {
        return;
    }
    let h: usize = len / 2;
    let end: usize = x.len();
    let ghost s = start as int;
    let ghost x0 = vals(x@).subrange(s, s + len);
    wht_block(x, start, h);
    let ghost x1 = x@;
    wht_block(x, start + h, h);
    let ghost x2 = x@;
    let ghost lo = walsh::<F>(x0.take(h as int));
    let ghost hi = walsh::<F>(x0.skip(h as int));
    proof {
        walsh_shape::<F>(x0.take(h as int));
        walsh_shape::<F>(x0.skip(h as int));
        assert(vals(old(x)@).subrange(s, s + h) =~= x0.take(h as int));
        assert(vals(x1).subrange(s + h, s + len) =~= x0.skip(h as int));
        assert forall|j: int| 0 <= j < h implies x2[s + j].val() == lo[j] by {
            assert(vals(x1).subrange(s, s + h)[j] == x1[s + j].val());
        }
        assert forall|j: int| 0 <= j < h implies x2[s + h + j].val() == hi[j] by {
            assert(vals(x2).subrange(s + h, s + len)[j] == x2[s + h + j].val());
        }
    }
    let mut i: usize = 0;
    while i < h
        invariant
            i <= h,
            h == len / 2,
            len == h + h,
            start + len <= end,
            end == x@.len(),
            x@.len() == x2.len(),
            s == start as int,
            lo.len() == h,
            hi.len() == h,
            forall|j: int| 0 <= j < h ==> x2[s + j].val() == #[trigger] lo[j],
            forall|j: int| 0 <= j < h ==> x2[s + h + j].val() == #[trigger] hi[j],
            forall|j: int| 0 <= j < i ==> x@[s + j].val() == #[trigger] fadd::<F>(lo[j], hi[j]),
            forall|j: int| 0 <= j < i ==> x@[s + h + j].val() == #[trigger] fsub::<F>(lo[j], hi[j]),
            forall|j: int| i <= j < h ==> #[trigger] x@[s + j] == x2[s + j],
            forall|j: int| i <= j < h ==> #[trigger] x@[s + h + j] == x2[s + h + j],
            forall|j: int| 0 <= j < x2.len() && !(s <= j < s + len) ==> #[trigger] x@[j] == x2[j],
        decreases h - i,
    {
        let u = x[start + i];
        let v = x[start + h + i];
        assert(x@[s + i] == x2[s + i] && x@[s + h + i] == x2[s + h + i]);
        assert(u.val() == lo[i as int] && v.val() == hi[i as int]);
        x[start + i] = u.plus(v);
        x[start + h + i] = u.minus(v);
        i = i + 1;
    }
    proof {
        let y = vals(x@).subrange(s, s + len);
        let w = walsh::<F>(x0);
        assert(w == vadd::<F>(lo, hi) + vsub::<F>(lo, hi));
        assert forall|j: int| 0 <= j < len implies y[j] == w[j] by {
            if j < h {
                assert(w[j] == fadd::<F>(lo[j], hi[j]));
            } else {
                assert(w[j] == fsub::<F>(lo[j - h], hi[j - h]));
                assert(x@[s + h + (j - h)].val() == fsub::<F>(lo[j - h], hi[j - h]));
            }
        }
        assert(y =~= w);
    }
}

/// In-place Walsh-Hadamard transform, not normalised.
pub fn wht<F: PrimeField>(x: &mut [F])
    requires
        is_pow2(old(x)@.len() as int),
    ensures
        final(x)@.len() == old(x)@.len(),
        vals(final(x)@) == walsh::<F>(vals(old(x)@)),
{
    let n: usize = x.len();
    let ghost x0 = vals(x@);
    wht_block(x, 0, n);
    proof {
        assert(x0.subrange(0, n as int) =~= x0);
        assert(vals(x@).subrange(0, n as int) =~= vals(x@));
    }
}

/// Transforms two vectors, each on a thread of its own where one is free.
///
/// Calls `rayon::join` and claims that it runs both closures to the end, so
/// that each vector is transformed as [`wht`] does.
#[verifier::external_body]
fn join_wht<F: PrimeField + Send>(left: &mut Vec<F>, right: &mut Vec<F>)
    requires
        is_pow2(old(left)@.len() as int),
        is_pow2(old(right)@.len() as int),
    ensures
        final(left)@.len() == old(left)@.len(),
        final(right)@.len() == old(right)@.len(),
        vals(final(left)@) == walsh::<F>(vals(old(left)@)),
        vals(final(right)@) == walsh::<F>(vals(old(right)@)),
{
    rayon::join(|| wht(left), || wht(right));
}

/// Vectors shorter than this are transformed on the calling thread.
const PARALLEL_LEN: usize = 2048;

/// In-place Walsh-Hadamard transform on two threads.
pub fn wht_parallel<F: PrimeField + Send>(x: &mut [F])
    requires
        is_pow2(old(x)@.len() as int),
    ensures
        final(x)@.len() == old(x)@.len(),
        vals(final(x)@) == walsh::<F>(vals(old(x)@)),
{
    let n: usize = x.len();
    if n < PARALLEL_LEN {
        wht(x);
        return;
    }
    let h: usize = n / 2;
    let ghost x0 = vals(x@);
    let mut lo: Vec<F> = Vec::new();
    let mut hi: Vec<F> = Vec::new();
    let mut i: usize = 0;
    while i < h
        invariant
            i <= h,
            h + h == n,
            n == x@.len(),
            x0 == vals(x@),
            lo@.len() == i,
            hi@.len() == i,
            forall|j: int| 0 <= j < i ==> lo@[j].val() == #[trigger] x0[j],
            forall|j: int| 0 <= j < i ==> (#[trigger] hi@[j]).val() == x0[h + j],
        decreases h - i,
    {
        lo.push(x[i]);
        hi.push(x[h + i]);
        i = i + 1;
    }
    proof {
        assert(vals(lo@) =~= x0.take(h as int));
        assert(vals(hi@) =~= x0.skip(h as int));
    }
    join_wht(&mut lo, &mut hi);
    let ghost a = vals(lo@);
    let ghost b = vals(hi@);
    i = 0;
    while i < h
        invariant
            i <= h,
            h + h == n,
            n == x@.len(),
            lo@.len() == h,
            hi@.len() == h,
            a == vals(lo@),
            b == vals(hi@),
            forall|j: int| 0 <= j < i ==> x@[j].val() == #[trigger] fadd::<F>(a[j], b[j]),
            forall|j: int| 0 <= j < i ==> x@[h + j].val() == #[trigger] fsub::<F>(a[j], b[j]),
        decreases h - i,
    {
        x[i] = lo[i].plus(hi[i]);
        x[h + i] = lo[i].minus(hi[i]);
        assert(a[i as int] == lo@[i as int].val() && b[i as int] == hi@[i as int].val());
        i = i + 1;
    }
    proof {
        let w = walsh::<F>(x0);
        assert(w == vadd::<F>(a, b) + vsub::<F>(a, b));
        assert forall|j: int| 0 <= j < n implies vals(x@)[j] == w[j] by {
            if j < h {
                assert(w[j] == fadd::<F>(a[j], b[j]));
            } else {
                assert(w[j] == fsub::<F>(a[j - h], b[j - h]));
                assert(x@[h + (j - h)].val() == fsub::<F>(a[j - h], b[j - h]));
            }
        }
        assert(vals(x@) =~= w);
    }
}

/// A copy of a slice of field elements.
pub fn copied<F: PrimeField>(x: &[F]) -> (r: Vec<F>)
    ensures
        r@ == x@,
{
    let mut out: Vec<F> = Vec::new();
    let mut i: usize = 0;
    while i < x.len()
        invariant
            i <= x@.len(),
            out@ == x@.take(i as int),
        decreases x@.len() - i,
    {
        out.push(x[i]);
        assert(x@.take(i as int + 1) =~= x@.take(i as int).push(x@[i as int]));
        i = i + 1;
    }
    assert(x@.take(i as int) =~= x@);
    out
}

/// The coefficient vectors of a quasi-abelian code.
#[derive(Clone, Debug)]
pub struct QAParams<F> {
    pub inverse_rate: usize,
    pub e: Vec<Vec<F>>,
}

impl<F: PrimeField> QAParams<F> {
    /// One coefficient vector of length `n` for each parity block.
    pub open spec fn wf(self, n: nat) -> bool {
        &&& is_pow2(n as int)
        &&& self.inverse_rate >= 2
        &&& self.e@.len() == self.inverse_rate - 1
        &&& forall|i: int| 0 <= i < self.e@.len() ==> (#[trigger] self.e@[i])@.len() == n
        &&& self.inverse_rate * n <= usize::MAX
    }

    /// The coefficients as residues.
    pub open spec fn coeffs(self) -> Seq<Seq<int>> {
        mat(self.e@)
    }
}

/// A parity block: `WHT(E .* WHT(m))`.
pub open spec fn parity<F: Residue>(msg: Seq<int>, e: Seq<int>) -> Seq<int> {
    walsh::<F>(vmul::<F>(walsh::<F>(msg), e))
}

/// All parity blocks.
pub open spec fn parities<F: Residue>(msg: Seq<int>, e: Seq<Seq<int>>) -> Seq<Seq<int>> {
    Seq::new(e.len(), |i: int| parity::<F>(msg, e[i]))
}

/// The codeword: the message, then every parity block.
pub open spec fn encode<F: Residue>(msg: Seq<int>, e: Seq<Seq<int>>) -> Seq<int> {
    msg + flatten(parities::<F>(msg, e))
}

/// Lengths of the blocks of a codeword.
pub proof fn encode_shape<F: Residue>(msg: Seq<int>, e: Seq<Seq<int>>)
    requires
        is_pow2(msg.len() as int),
        rect(e, msg.len()),
    ensures
        rect(parities::<F>(msg, e), msg.len()),
        encode::<F>(msg, e).len() == (e.len() + 1) * msg.len(),
{
    assert forall|i: int| 0 <= i < e.len() implies (#[trigger] parities::<F>(msg, e)[i]).len()
        == msg.len() by {
        walsh_shape::<F>(msg);
        walsh_shape::<F>(vmul::<F>(walsh::<F>(msg), e[i]));
    }
    flatten_len(parities::<F>(msg, e), msg.len());
    assert((e.len() + 1) * msg.len() == e.len() * msg.len() + msg.len()) by (nonlinear_arith);
}

/// Length of the rows of a matrix laid out one after the other.
pub proof fn flatten_len(rows: Seq<Seq<int>>, n: nat)
    requires
        rect(rows, n),
    ensures
        flatten(rows).len() == rows.len() * n,
    decreases rows.len(),
{
    if rows.len() > 0 {
        flatten_len(rows.drop_last(), n);
        let k = (rows.len() - 1) as nat;
        assert((k + 1) * n == k * n + n) by (nonlinear_arith);
    } else {
        assert(0 * n == 0) by (nonlinear_arith);
    }
}

/// An entry of the rows of a matrix laid out one after the other.
pub proof fn flatten_entry(rows: Seq<Seq<int>>, n: nat, i: int, j: int)
    requires
        rect(rows, n),
        0 <= i < rows.len(),
        0 <= j < n,
    ensures
        0 <= i * n + j < flatten(rows).len(),
        flatten(rows)[i * n + j] == rows[i][j],
    decreases rows.len(),
{
    flatten_len(rows, n);
    let k = rows.len() - 1;
    flatten_len(rows.drop_last(), n);
    if i < k {
        flatten_entry(rows.drop_last(), n, i, j);
        assert(i * n + j < k * n) by (nonlinear_arith)
            requires
                i < k,
                0 <= j < n,
                0 <= i,
        ;
    }
    assert(0 <= i * n) by (nonlinear_arith)
        requires
            0 <= i,
    ;
    assert(k * n + n == (k + 1) * n) by (nonlinear_arith);
}

/// `flatten` of one more row.
pub proof fn flatten_push(rows: Seq<Seq<int>>, row: Seq<int>)
    ensures
        flatten(rows.push(row)) == flatten(rows) + row,
{
    assert(rows.push(row).drop_last() =~= rows);
}

/// Every intermediate value of one encoding.
#[derive(Clone, Debug)]
pub struct QAWitness<F> {
    pub msg: Vec<F>,
    pub msg_wht: Vec<F>,
    pub scaled_wht_blocks: Vec<Vec<F>>,
    pub parity_blocks: Vec<Vec<F>>,
    pub codeword: Vec<F>,
}

/// The scaled transforms `E_i .* WHT(m)`.
pub open spec fn scaled_blocks<F: Residue>(msg: Seq<int>, e: Seq<Seq<int>>) -> Seq<Seq<int>> {
    Seq::new(e.len(), |i: int| vmul::<F>(walsh::<F>(msg), e[i]))
}

impl<F: PrimeField> QAWitness<F> {
    /// The intermediate values are those of the encoding of `msg` under `e`.
    pub open spec fn of(self, msg: Seq<int>, e: Seq<Seq<int>>) -> bool {
        &&& vals(self.msg@) == msg
        &&& vals(self.msg_wht@) == walsh::<F>(msg)
        &&& mat(self.scaled_wht_blocks@) == scaled_blocks::<F>(msg, e)
        &&& mat(self.parity_blocks@) == parities::<F>(msg, e)
        &&& vals(self.codeword@) == encode::<F>(msg, e)
    }
}

/// Entrywise product of two vectors of one length.
fn pointwise<F: PrimeField>(a: &[F], b: &[F]) -> (r: Vec<F>)
    requires
        a@.len() == b@.len(),
    ensures
        vals(r@) == vmul::<F>(vals(a@), vals(b@)),
{
    let mut out: Vec<F> = Vec::new();
    let mut i: usize = 0;
    while i < a.len()
        invariant
            i <= a@.len(),
            a@.len() == b@.len(),
            out@.len() == i,
            forall|j: int|
                0 <= j < i ==> (#[trigger] out@[j]).val() == fmul::<F>(a@[j].val(), b@[j].val()),
        decreases a@.len() - i,
    {
        out.push(a[i].times(b[i]));
        i = i + 1;
    }
    assert(vals(out@) =~= vmul::<F>(vals(a@), vals(b@)));
    out
}

/// One parity block together with the scaled transform it comes from.
fn parity_block<F: PrimeField + Send>(middle: &[F], coeffs: &[F], parallel: bool) -> (r: (
    Vec<F>,
    Vec<F>,
))
    requires
        is_pow2(middle@.len() as int),
        coeffs@.len() == middle@.len(),
    ensures
        vals(r.0@) == vmul::<F>(vals(middle@), vals(coeffs@)),
        vals(r.1@) == walsh::<F>(vmul::<F>(vals(middle@), vals(coeffs@))),
{
    let scaled = pointwise(middle, coeffs);
    assert(vals(scaled@).len() == middle@.len());
    let mut block = copied(&scaled);
    if parallel {
        wht_parallel(&mut block);
    } else {
        wht(&mut block);
    }
    (scaled, block)
}

fn encode_blocks<F: PrimeField + Send>(msg: &[F], params: &QAParams<F>, parallel: bool) -> (w:
    QAWitness<F>)
    requires
        params.wf(msg@.len()),
    ensures
        w.of(vals(msg@), params.coeffs()),
{
    let rho: usize = params.inverse_rate;
    let ghost m = vals(msg@);
    let ghost e = params.coeffs();
    let mut msg_wht = copied(msg);
    if parallel {
        wht_parallel(&mut msg_wht);
    } else {
        wht(&mut msg_wht);
    }
    let mut scaled_wht_blocks: Vec<Vec<F>> = Vec::new();
    let mut parity_blocks: Vec<Vec<F>> = Vec::new();
    let mut codeword = copied(msg);
    let mut i: usize = 0;
    proof {
        walsh_shape::<F>(m);
        assert(mat(scaled_wht_blocks@) =~= scaled_blocks::<F>(m, e).take(0));
        assert(mat(parity_blocks@) =~= parities::<F>(m, e).take(0));
        assert(vals(codeword@) =~= m + flatten(parities::<F>(m, e).take(0)));
    }
    while i < rho - 1
        invariant
            i <= rho - 1,
            rho == params.inverse_rate,
            params.wf(msg@.len()),
            m == vals(msg@),
            e == params.coeffs(),
            vals(msg_wht@) == walsh::<F>(m),
            msg_wht@.len() == msg@.len(),
            mat(scaled_wht_blocks@) == scaled_blocks::<F>(m, e).take(i as int),
            mat(parity_blocks@) == parities::<F>(m, e).take(i as int),
            vals(codeword@) == m + flatten(parities::<F>(m, e).take(i as int)),
        decreases rho - 1 - i,
    {
        broadcast use {vals_concat, mat_push};

        let (scaled, block) = parity_block(&msg_wht, &params.e[i], parallel);
        proof {
            let ps = parities::<F>(m, e);
            let ss = scaled_blocks::<F>(m, e);
            assert(e[i as int] == vals(params.e@[i as int]@));
            assert(ps.take(i as int + 1) =~= ps.take(i as int).push(ps[i as int]));
            assert(ss.take(i as int + 1) =~= ss.take(i as int).push(ss[i as int]));
            flatten_push(ps.take(i as int), ps[i as int]);
            assert(m + flatten(ps.take(i as int)) + ps[i as int] =~= m + (flatten(
                ps.take(i as int),
            ) + ps[i as int]));
        }
        let mut tail = copied(&block);
        codeword.append(&mut tail);
        scaled_wht_blocks.push(scaled);
        parity_blocks.push(block);
        i = i + 1;
    }
    proof {
        assert(parities::<F>(m, e).take(i as int) =~= parities::<F>(m, e));
        assert(scaled_blocks::<F>(m, e).take(i as int) =~= scaled_blocks::<F>(m, e));
    }
    QAWitness { msg: copied(msg), msg_wht, scaled_wht_blocks, parity_blocks, codeword }
}

/// Encodes a message and keeps every intermediate value.
pub fn qa_encode_with_witness<F: PrimeField + Send>(msg: &[F], params: &QAParams<F>) -> (w:
    QAWitness<F>)
    requires
        params.wf(msg@.len()),
    ensures
        w.of(vals(msg@), params.coeffs()),
{
    encode_blocks(msg, params, false)
}

/// Encodes one long message on several threads and keeps every intermediate
/// value.
pub fn qa_encode_with_witness_parallel<F: PrimeField + Send>(
    msg: &[F],
    params: &QAParams<F>,
) -> (w: QAWitness<F>)
    requires
        params.wf(msg@.len()),
    ensures
        w.of(vals(msg@), params.coeffs()),
{
    encode_blocks(msg, params, true)
}

/// Encodes a message without keeping the intermediate values.
pub fn qa_encode_codeword_only<F: PrimeField>(msg: &[F], params: &QAParams<F>) -> (codeword: Vec<
    F,
>)
    requires
        params.wf(msg@.len()),
    ensures
        vals(codeword@) == encode::<F>(vals(msg@), params.coeffs()),
{
    let rho: usize = params.inverse_rate;
    let ghost m = vals(msg@);
    let ghost e = params.coeffs();
    let mut middle = copied(msg);
    wht(&mut middle);
    let mut codeword = copied(msg);
    let mut i: usize = 0;
    proof {
        walsh_shape::<F>(m);
        assert(vals(codeword@) =~= m + flatten(parities::<F>(m, e).take(0)));
    }
    while i < rho - 1
        invariant
            i <= rho - 1,
            rho == params.inverse_rate,
            params.wf(msg@.len()),
            m == vals(msg@),
            e == params.coeffs(),
            vals(middle@) == walsh::<F>(m),
            middle@.len() == msg@.len(),
            vals(codeword@) == m + flatten(parities::<F>(m, e).take(i as int)),
        decreases rho - 1 - i,
    {
        broadcast use vals_concat;

        let mut block = pointwise(&middle, &params.e[i]);
        assert(vals(block@).len() == middle@.len());
        wht(&mut block);
        proof {
            let ps = parities::<F>(m, e);
            assert(e[i as int] == vals(params.e@[i as int]@));
            assert(ps.take(i as int + 1) =~= ps.take(i as int).push(ps[i as int]));
            flatten_push(ps.take(i as int), ps[i as int]);
            assert(m + flatten(ps.take(i as int)) + ps[i as int] =~= m + (flatten(
                ps.take(i as int),
            ) + ps[i as int]));
        }
        codeword.append(&mut block);
        i = i + 1;
    }
    proof {
        assert(parities::<F>(m, e).take(i as int) =~= parities::<F>(m, e));
    }
    codeword
}

/// The block of a codeword that holds the message.
pub fn qa_message_block_index() -> (r: usize)
    ensures
        r == 0,
{
    0
}

/// The block of a codeword that holds a parity block.
pub fn qa_parity_block_index(i: usize) -> (r: usize)
    requires
        i < usize::MAX,
    ensures
        r == i + 1,
{
    i + 1
}

/// One block of a codeword.
pub fn qa_codeword_block<F>(codeword: &[F], block_len: usize, block_index: usize) -> (r: &[F])
    requires
        (block_index + 1) * block_len <= codeword@.len(),
    ensures
        r@ == codeword@.subrange(block_index * block_len, (block_index + 1) * block_len),
{
    let total: usize = codeword.len();
    proof {
        assert((block_index + 1) * block_len == block_index * block_len + block_len)
            by (nonlinear_arith);
    }
    let start: usize = block_index * block_len;
    let end: usize = start + block_len;
    vstd::slice::slice_subrange(codeword, start, end)
}

/// A codeword starts with its message.
pub proof fn encode_is_systematic<F: Residue>(msg: Seq<int>, e: Seq<Seq<int>>)
    ensures
        encode::<F>(msg, e).take(msg.len() as int) == msg,
{
    assert(encode::<F>(msg, e).take(msg.len() as int) =~= msg);
}

/// The block after the message is the first parity block, and so on.
pub proof fn encode_parity_block<F: Residue>(msg: Seq<int>, e: Seq<Seq<int>>, i: int)
    requires
        is_pow2(msg.len() as int),
        rect(e, msg.len()),
        0 <= i < e.len(),
    ensures
        (i + 2) * msg.len() <= encode::<F>(msg, e).len(),
        encode::<F>(msg, e).subrange((i + 1) * msg.len(), (i + 2) * msg.len()) == parity::<F>(
            msg,
            e[i],
        ),
{
    let n = msg.len();
    let ps = parities::<F>(msg, e);
    encode_shape::<F>(msg, e);
    flatten_len(ps, n);
    assert((i + 1) * n == i * n + n && (i + 2) * n == i * n + n + n) by (nonlinear_arith);
    assert((i + 2) * n <= (e.len() + 1) * n) by (nonlinear_arith)
        requires
            i < e.len(),
    ;
    assert(0 <= i * n) by (nonlinear_arith)
        requires
            0 <= i,
    ;
    let sub = encode::<F>(msg, e).subrange((i + 1) * n, (i + 2) * n);
    assert forall|j: int| 0 <= j < n implies sub[j] == ps[i][j] by {
        flatten_entry(ps, n, i, j);
    }
    assert(ps[i].len() == n);
    assert(sub =~= parity::<F>(msg, e[i]));
}

/// Parity blocks are additive and homogeneous in the message.
proof fn parity_linear<F: Residue>(x: Seq<int>, y: Seq<int>, k: int, e: Seq<int>)
    requires
        is_pow2(x.len() as int),
        x.len() == y.len() == e.len(),
    ensures
        parity::<F>(vadd::<F>(x, y), e) == vadd::<F>(parity::<F>(x, e), parity::<F>(y, e)),
        parity::<F>(vscale::<F>(k, x), e) == vscale::<F>(k, parity::<F>(x, e)),
{
    walsh_shape::<F>(x);
    walsh_shape::<F>(y);
    walsh_add::<F>(x, y);
    walsh_scale::<F>(k, x);
    let (a, b) = (walsh::<F>(x), walsh::<F>(y));
    assert forall|i: int| 0 <= i < e.len() implies fmul::<F>(fadd::<F>(a[i], b[i]), e[i])
        == fadd::<F>(fmul::<F>(a[i], e[i]), fmul::<F>(b[i], e[i])) by {
        fmul_comm::<F>(fadd::<F>(a[i], b[i]), e[i]);
        fmul_fadd::<F>(e[i], a[i], b[i]);
        fmul_comm::<F>(e[i], a[i]);
        fmul_comm::<F>(e[i], b[i]);
    }
    assert(vmul::<F>(vadd::<F>(a, b), e) =~= vadd::<F>(vmul::<F>(a, e), vmul::<F>(b, e)));
    walsh_add::<F>(vmul::<F>(a, e), vmul::<F>(b, e));
    assert(vmul::<F>(vscale::<F>(k, a), e) =~= vscale::<F>(k, vmul::<F>(a, e))) by {
        broadcast use fmul_assoc;

    }
    walsh_scale::<F>(k, vmul::<F>(a, e));
}

proof fn flatten_linear<F: Residue>(x: Seq<Seq<int>>, y: Seq<Seq<int>>, k: int, n: nat)
    requires
        rect(x, n),
        rect(y, n),
        x.len() == y.len(),
    ensures
        flatten(Seq::new(x.len(), |i: int| vadd::<F>(x[i], y[i]))) == vadd::<F>(
            flatten(x),
            flatten(y),
        ),
        flatten(Seq::new(x.len(), |i: int| vscale::<F>(k, x[i]))) == vscale::<F>(k, flatten(x)),
    decreases x.len(),
{
    flatten_len(x, n);
    flatten_len(y, n);
    if x.len() > 0 {
        let (xd, yd) = (x.drop_last(), y.drop_last());
        flatten_len(xd, n);
        flatten_len(yd, n);
        flatten_linear::<F>(xd, yd, k, n);
        let s = Seq::new(x.len(), |i: int| vadd::<F>(x[i], y[i]));
        assert(s.drop_last() =~= Seq::new(xd.len(), |i: int| vadd::<F>(xd[i], yd[i])));
        assert(flatten(s) =~= vadd::<F>(flatten(x), flatten(y)));
        let t = Seq::new(x.len(), |i: int| vscale::<F>(k, x[i]));
        assert(t.drop_last() =~= Seq::new(xd.len(), |i: int| vscale::<F>(k, xd[i])));
        assert(flatten(t) =~= vscale::<F>(k, flatten(x)));
    } else {
        assert(flatten(Seq::new(x.len(), |i: int| vadd::<F>(x[i], y[i]))) =~= vadd::<F>(
            flatten(x),
            flatten(y),
        ));
        assert(flatten(Seq::new(x.len(), |i: int| vscale::<F>(k, x[i]))) =~= vscale::<F>(
            k,
            flatten(x),
        ));
    }
}

/// The code is linear: the codeword of a sum is the sum of the codewords, and
/// the codeword of a multiple is the multiple of the codeword.
pub proof fn encode_linear<F: Residue>(x: Seq<int>, y: Seq<int>, k: int, e: Seq<Seq<int>>)
    requires
        is_pow2(x.len() as int),
        x.len() == y.len(),
        rect(e, x.len()),
    ensures
        encode::<F>(vadd::<F>(x, y), e) == vadd::<F>(encode::<F>(x, e), encode::<F>(y, e)),
        encode::<F>(vscale::<F>(k, x), e) == vscale::<F>(k, encode::<F>(x, e)),
{
    let n = x.len();
    encode_shape::<F>(x, e);
    encode_shape::<F>(y, e);
    let (px, py) = (parities::<F>(x, e), parities::<F>(y, e));
    assert forall|i: int| 0 <= i < e.len() implies #[trigger] parity::<F>(vadd::<F>(x, y), e[i])
        == vadd::<F>(px[i], py[i]) && parity::<F>(vscale::<F>(k, x), e[i]) == vscale::<F>(
        k,
        px[i],
    ) by {
        parity_linear::<F>(x, y, k, e[i]);
    }
    assert(parities::<F>(vadd::<F>(x, y), e) =~= Seq::new(
        px.len(),
        |i: int| vadd::<F>(px[i], py[i]),
    ));
    assert forall|i: int| 0 <= i < e.len() implies #[trigger] parities::<F>(
        vscale::<F>(k, x),
        e,
    )[i] == vscale::<F>(k, px[i]) by {
        parity_linear::<F>(x, y, k, e[i]);
    }
    assert(parities::<F>(vscale::<F>(k, x), e) =~= Seq::new(
        px.len(),
        |i: int| vscale::<F>(k, px[i]),
    ));
    flatten_linear::<F>(px, py, k, n);
    flatten_len(px, n);
    flatten_len(py, n);
    assert(encode::<F>(vadd::<F>(x, y), e) =~= vadd::<F>(encode::<F>(x, e), encode::<F>(y, e)));
    assert(encode::<F>(vscale::<F>(k, x), e) =~= vscale::<F>(k, encode::<F>(x, e)));
}

/// The codewords of the rows of a matrix.
pub open spec fn encode_rows<F: Residue>(rows: Seq<Seq<int>>, e: Seq<Seq<int>>) -> Seq<Seq<int>> {
    Seq::new(rows.len(), |i: int| encode::<F>(rows[i], e))
}

/// The zero message has the zero codeword.
proof fn encode_zero<F: Residue>(n: nat, e: Seq<Seq<int>>)
    requires
        is_pow2(n as int),
        rect(e, n),
    ensures
        encode::<F>(vzero(n), e) == vzero(encode::<F>(vzero(n), e).len()),
{
    let z = vzero(n);
    encode_linear::<F>(z, z, 0, e);
    canon_consts::<F>();
    f_units::<F>(0);
    assert(vscale::<F>(0, z) =~= z);
    let c = encode::<F>(z, e);
    assert forall|i: int| 0 <= i < c.len() implies c[i] == 0 by {
        assert(c[i] == vscale::<F>(0, c)[i]);
        ops_red::<F>(0, c[i]);
        assert(0 * c[i] == 0) by (nonlinear_arith);
    }
    assert(c =~= vzero(c.len()));
}

/// Encoding commutes with row combinations: the combination of the codewords
/// of the rows is the codeword of the combination of the rows.
pub proof fn encode_comb<F: Residue>(
    w: Seq<int>,
    rows: Seq<Seq<int>>,
    n: nat,
    e: Seq<Seq<int>>,
)
    requires
        is_pow2(n as int),
        rect(rows, n),
        rect(e, n),
    ensures
        encode::<F>(comb::<F>(w, rows, n), e) == comb::<F>(
            w,
            encode_rows::<F>(rows, e),
            (e.len() + 1) * n,
        ),
    decreases rows.len(),
{
    let z = vzero(n);
    encode_shape::<F>(z, e);
    if rows.len() == 0 {
        encode_zero::<F>(n, e);
    } else {
        let rd = rows.drop_last();
        let k = w[rows.len() - 1];
        encode_comb::<F>(w, rd, n, e);
        comb_len::<F>(w, rd, n);
        let c = comb::<F>(w, rd, n);
        let last = rows.last();
        encode_linear::<F>(c, vscale::<F>(k, last), k, e);
        encode_linear::<F>(last, last, k, e);
        assert(encode_rows::<F>(rows, e).drop_last() =~= encode_rows::<F>(rd, e));
        assert(encode_rows::<F>(rows, e).last() == encode::<F>(last, e));
    }
}

/// The rows of a row-major matrix.
pub open spec fn rows_of(evals: Seq<int>, num_rows: nat, row_len: nat) -> Seq<Seq<int>> {
    Seq::new(num_rows, |i: int| evals.subrange(i * row_len, (i + 1) * row_len))
}

/// The rows of a matrix are as long as they should be and make up the matrix.
pub proof fn rows_of_shape(evals: Seq<int>, num_rows: nat, row_len: nat)
    requires
        evals.len() == num_rows * row_len,
    ensures
        rect(rows_of(evals, num_rows, row_len), row_len),
        flatten(rows_of(evals, num_rows, row_len)) == evals,
    decreases num_rows,
{
    let rows = rows_of(evals, num_rows, row_len);
    assert forall|i: int| 0 <= i < num_rows implies (#[trigger] rows[i]).len() == row_len by {
        row_bounds(i, num_rows, row_len);
    }
    if num_rows > 0 {
        let k = (num_rows - 1) as nat;
        row_bounds(k as int, num_rows, row_len);
        let front = evals.take((k * row_len) as int);
        rows_of_shape(front, k, row_len);
        assert forall|i: int| 0 <= i < k implies rows.drop_last()[i] == rows_of(
            front,
            k,
            row_len,
        )[i] by {
            row_bounds(i, k, row_len);
            assert(rows[i] =~= front.subrange(i * row_len, (i + 1) * row_len));
        }
        assert(rows.drop_last() =~= rows_of(front, k, row_len));
        assert(flatten(rows) =~= evals);
    } else {
        assert(0 * row_len == 0) by (nonlinear_arith);
        assert(flatten(rows) =~= evals);
    }
}

/// A row lies inside of the matrix.
pub proof fn row_bounds(i: int, num_rows: nat, row_len: nat)
    requires
        0 <= i < num_rows,
    ensures
        0 <= i * row_len,
        (i + 1) * row_len == i * row_len + row_len,
        (i + 1) * row_len <= num_rows * row_len,
{
    assert(0 <= i * row_len && (i + 1) * row_len == i * row_len + row_len && (i + 1) * row_len
        <= num_rows * row_len) by (nonlinear_arith)
        requires
            0 <= i < num_rows,
    ;
}

/// Cuts a vector into rows of one length.
pub fn split_rows<F: PrimeField>(values: &[F], num_rows: usize, row_len: usize) -> (r: Vec<Vec<F>>)
    requires
        values@.len() == num_rows * row_len,
    ensures
        mat(r@) == rows_of(vals(values@), num_rows as nat, row_len as nat),
        r@.len() == num_rows,
        forall|i: int| 0 <= i < num_rows ==> (#[trigger] r@[i])@.len() == row_len,
{
    let ghost m = rows_of(vals(values@), num_rows as nat, row_len as nat);
    let total: usize = values.len();
    let mut out: Vec<Vec<F>> = Vec::new();
    let mut base: usize = 0;
    assert(0 * row_len == 0) by (nonlinear_arith);
    assert(mat(out@) =~= m.take(0));
    while out.len() < num_rows
        invariant
            out@.len() <= num_rows,
            base == out@.len() * row_len,
            total == values@.len(),
            values@.len() == num_rows * row_len,
            m == rows_of(vals(values@), num_rows as nat, row_len as nat),
            mat(out@) == m.take(out@.len() as int),
            forall|i: int| 0 <= i < out@.len() ==> (#[trigger] out@[i])@.len() == row_len,
        decreases num_rows - out@.len(),
    {
        let ghost i = out@.len() as int;
        proof {
            row_bounds(i, num_rows as nat, row_len as nat);
        }
        let row = copied(vstd::slice::slice_subrange(values, base, base + row_len));
        proof {
            assert(vals(row@) =~= m[i]);
            mat_push(out@, row);
            assert(m.take(i + 1) =~= m.take(i).push(m[i]));
        }
        out.push(row);
        base = base + row_len;
    }
    assert(m.take(num_rows as int) =~= m);
    out
}

impl<F: PrimeField> QAParams<F> {
    /// The code whose coefficients are the values drawn, in the order in which
    /// they were drawn.
    pub fn new_random(msg_len: usize, inverse_rate: usize, drawn: &[F]) -> (r: Self)
        requires
            is_pow2(msg_len as int),
            inverse_rate >= 2,
            inverse_rate * msg_len <= usize::MAX,
            drawn@.len() == (inverse_rate - 1) * msg_len,
        ensures
            r.wf(msg_len as nat),
            r.inverse_rate == inverse_rate,
            r.coeffs() == rows_of(vals(drawn@), (inverse_rate - 1) as nat, msg_len as nat),
    {
        QAParams { inverse_rate, e: split_rows(drawn, inverse_rate - 1, msg_len) }
    }

    /// A copy of the coefficients.
    pub fn duplicate(&self) -> (r: Self)
        ensures
            r.inverse_rate == self.inverse_rate,
            r.coeffs() == self.coeffs(),
            forall|n: nat| self.wf(n) ==> r.wf(n),
    {
        QAParams { inverse_rate: self.inverse_rate, e: copied_rows(&self.e) }
    }
}

/// A copy of a matrix.
pub fn copied_rows<F: PrimeField>(rows: &[Vec<F>]) -> (r: Vec<Vec<F>>)
    ensures
        mat(r@) == mat(rows@),
        r@.len() == rows@.len(),
        forall|i: int| 0 <= i < rows@.len() ==> (#[trigger] r@[i])@ == rows@[i]@,
{
    let mut out: Vec<Vec<F>> = Vec::new();
    let mut i: usize = 0;
    while i < rows.len()
        invariant
            i <= rows@.len(),
            out@.len() == i,
            forall|k: int| 0 <= k < i ==> (#[trigger] out@[k])@ == rows@[k]@,
        decreases rows@.len() - i,
    {
        out.push(copied(&rows[i]));
        i = i + 1;
    }
    assert(mat(out@) =~= mat(rows@));
    out
}

} // verus!
