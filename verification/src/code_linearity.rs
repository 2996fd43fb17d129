//! The recursive sparse code is linear.

use crate::brakedown::{
    a_offset, a_offset_mono, b_offset, b_offset_mono, cells_image, codeword, image, image_vec,
    reed_solomon, word_a, word_a_len, word_b, word_b_len, Brakedown, Cell,
};
use crate::field::{
    canon_consts, f_interchange, f_units, fadd, fmul, fmul_assoc, fmul_comm, fmul_fadd, red,
    PrimeField, Residue,
};
use crate::linear::{
    comb, comb_len, dot_add, dot_scale, dot_zero, pows, pows_step, rect, vadd, vscale, vzero,
};
use vstd::prelude::*;

verus! {

/// `y + c x`, entry by entry.
pub open spec fn add_multiple<F: Residue>(y: Seq<int>, c: int, x: Seq<int>) -> Seq<int> {
    vadd::<F>(y, vscale::<F>(c, x))
}

proof fn cells_image_linear<F: Residue>(cells: Seq<Cell>, y: int, c: int, x: int, j: int)
    ensures
        cells_image::<F>(cells, fadd::<F>(y, fmul::<F>(c, x)), j) == fadd::<F>(
            cells_image::<F>(cells, y, j),
            fmul::<F>(c, cells_image::<F>(cells, x, j)),
        ),
    decreases cells.len(),
{
    if cells.len() == 0 {
        canon_consts::<F>();
        f_units::<F>(0);
        crate::field::ops_red::<F>(c, 0);
        assert(c * 0 == 0) by (nonlinear_arith);
    } else {
        let cd = cells.drop_last();
        cells_image_linear::<F>(cd, y, c, x, j);
        if cells.last().out == j {
            let k = cells.last().coeff;
            let (a, b) = (cells_image::<F>(cd, y, j), cells_image::<F>(cd, x, j));
            let z = fadd::<F>(y, fmul::<F>(c, x));
            fmul_comm::<F>(z, k);
            fmul_fadd::<F>(k, y, fmul::<F>(c, x));
            fmul_comm::<F>(k, y);
            fmul_comm::<F>(k, fmul::<F>(c, x));
            fmul_assoc::<F>(c, x, k);
            fmul_fadd::<F>(c, b, fmul::<F>(x, k));
            f_interchange::<F>(
                a,
                fmul::<F>(c, b),
                fmul::<F>(y, k),
                fmul::<F>(c, fmul::<F>(x, k)),
            );
        }
    }
}

proof fn image_linear<F: Residue>(
    rows: Seq<Seq<Cell>>,
    y: Seq<int>,
    c: int,
    x: Seq<int>,
    j: int,
)
    requires
        y.len() == x.len(),
        rows.len() <= x.len(),
    ensures
        image::<F>(rows, add_multiple::<F>(y, c, x), j) == fadd::<F>(
            image::<F>(rows, y, j),
            fmul::<F>(c, image::<F>(rows, x, j)),
        ),
    decreases rows.len(),
{
    if rows.len() == 0 {
        canon_consts::<F>();
        f_units::<F>(0);
        crate::field::ops_red::<F>(c, 0);
        assert(c * 0 == 0) by (nonlinear_arith);
    } else {
        let k = rows.len() - 1;
        let rd = rows.drop_last();
        image_linear::<F>(rd, y, c, x, j);
        cells_image_linear::<F>(rows.last(), y[k], c, x[k], j);
        let (a, b) = (image::<F>(rd, y, j), image::<F>(rd, x, j));
        let (p, q) = (
            cells_image::<F>(rows.last(), y[k], j),
            cells_image::<F>(rows.last(), x[k], j),
        );
        fmul_fadd::<F>(c, b, q);
        f_interchange::<F>(a, fmul::<F>(c, b), p, fmul::<F>(c, q));
    }
}

proof fn image_vec_linear<F: Residue>(
    rows: Seq<Seq<Cell>>,
    y: Seq<int>,
    c: int,
    x: Seq<int>,
    m: nat,
)
    requires
        y.len() == x.len(),
        rows.len() <= x.len(),
    ensures
        image_vec::<F>(rows, add_multiple::<F>(y, c, x), m) == add_multiple::<F>(
            image_vec::<F>(rows, y, m),
            c,
            image_vec::<F>(rows, x, m),
        ),
{
    let l = image_vec::<F>(rows, add_multiple::<F>(y, c, x), m);
    let r = add_multiple::<F>(image_vec::<F>(rows, y, m), c, image_vec::<F>(rows, x, m));
    assert forall|j: int| 0 <= j < m implies l[j] == r[j] by {
        image_linear::<F>(rows, y, c, x, j);
    }
    assert(l =~= r);
}

proof fn reed_solomon_linear<F: Residue>(y: Seq<int>, c: int, x: Seq<int>, n: nat)
    requires
        y.len() == x.len(),
    ensures
        reed_solomon::<F>(add_multiple::<F>(y, c, x), n) == add_multiple::<F>(
            reed_solomon::<F>(y, n),
            c,
            reed_solomon::<F>(x, n),
        ),
{
    let z = add_multiple::<F>(y, c, x);
    let l = reed_solomon::<F>(z, n);
    let r = add_multiple::<F>(reed_solomon::<F>(y, n), c, reed_solomon::<F>(x, n));
    assert forall|o: int| 0 <= o < n implies l[o] == r[o] by {
        let p = pows::<F>(red::<F>(o + 1), x.len());
        pows_step::<F>(red::<F>(o + 1), x.len());
        dot_add::<F>(y, vscale::<F>(c, x), p);
        dot_scale::<F>(c, x, p);
    }
    assert(l =~= r);
}

proof fn add_multiple_concat<F: Residue>(
    y1: Seq<int>,
    y2: Seq<int>,
    c: int,
    x1: Seq<int>,
    x2: Seq<int>,
)
    requires
        y1.len() == x1.len(),
        y2.len() == x2.len(),
    ensures
        add_multiple::<F>(y1, c, x1) + add_multiple::<F>(y2, c, x2) == add_multiple::<F>(
            y1 + y2,
            c,
            x1 + x2,
        ),
{
    assert(add_multiple::<F>(y1, c, x1) + add_multiple::<F>(y2, c, x2) =~= add_multiple::<F>(
        y1 + y2,
        c,
        x1 + x2,
    ));
}

proof fn add_multiple_subrange<F: Residue>(y: Seq<int>, c: int, x: Seq<int>, lo: int, hi: int)
    requires
        y.len() == x.len(),
        0 <= lo <= hi <= x.len(),
    ensures
        add_multiple::<F>(y, c, x).subrange(lo, hi) == add_multiple::<F>(
            y.subrange(lo, hi),
            c,
            x.subrange(lo, hi),
        ),
{
    assert(add_multiple::<F>(y, c, x).subrange(lo, hi) =~= add_multiple::<F>(
        y.subrange(lo, hi),
        c,
        x.subrange(lo, hi),
    ));
}

proof fn word_a_linear<F: PrimeField>(
    code: Brakedown<F>,
    y: Seq<int>,
    c: int,
    x: Seq<int>,
    i: nat,
)
    requires
        code.wf(),
        y.len() == code.row_len,
        x.len() == code.row_len,
        i < code.a@.len(),
    ensures
        word_a(code, add_multiple::<F>(y, c, x), i) == add_multiple::<F>(
            word_a(code, y, i),
            c,
            word_a(code, x, i),
        ),
    decreases i,
{
    if i > 0 {
        let d = (i - 1) as nat;
        word_a_linear(code, y, c, x, d);
        word_a_len(code, y, d);
        word_a_len(code, x, d);
        a_offset_mono(code.a@, 0, d);
        let (wy, wx) = (word_a(code, y, d), word_a(code, x, d));
        let m = code.a@[d as int];
        assert(m.wf());
        let off = a_offset(code.a@, d);
        add_multiple_subrange::<F>(wy, c, wx, off, off + m.n);
        let (sy, sx) = (wy.subrange(off, off + m.n), wx.subrange(off, off + m.n));
        image_vec_linear::<F>(m.cells(), sy, c, sx, m.m as nat);
        add_multiple_concat::<F>(
            wy,
            image_vec::<F>(m.cells(), sy, m.m as nat),
            c,
            wx,
            image_vec::<F>(m.cells(), sx, m.m as nat),
        );
    }
}

proof fn word_b_linear<F: PrimeField>(
    code: Brakedown<F>,
    y: Seq<int>,
    c: int,
    x: Seq<int>,
    t: nat,
)
    requires
        code.wf(),
        y.len() == code.row_len,
        x.len() == code.row_len,
        t <= code.a@.len(),
    ensures
        word_b(code, add_multiple::<F>(y, c, x), t) == add_multiple::<F>(
            word_b(code, y, t),
            c,
            word_b(code, x, t),
        ),
    decreases t,
{
    let k = code.a@.len();
    if t == 0 {
        let d = (k - 1) as nat;
        word_a_linear(code, y, c, x, d);
        word_a_len(code, y, d);
        word_a_len(code, x, d);
        a_offset_mono(code.a@, 0, d);
        let (wy, wx) = (word_a(code, y, d), word_a(code, x, d));
        let m = code.a@[d as int];
        assert(m.wf());
        let off = a_offset(code.a@, d);
        add_multiple_subrange::<F>(wy, c, wx, off, off + m.n);
        let (sy, sx) = (wy.subrange(off, off + m.n), wx.subrange(off, off + m.n));
        image_vec_linear::<F>(m.cells(), sy, c, sx, m.m as nat);
        let (iy, ix) = (
            image_vec::<F>(m.cells(), sy, m.m as nat),
            image_vec::<F>(m.cells(), sx, m.m as nat),
        );
        let n = code.b@[k - 1].n as nat;
        reed_solomon_linear::<F>(iy, c, ix, n);
        add_multiple_concat::<F>(
            wy,
            reed_solomon::<F>(iy, n),
            c,
            wx,
            reed_solomon::<F>(ix, n),
        );
    } else {
        let d = (t - 1) as nat;
        word_b_linear(code, y, c, x, d);
        word_b_len(code, y, d);
        word_b_len(code, x, d);
        a_offset_mono(code.a@, 0, (k - d) as nat);
        let (wy, wx) = (word_b(code, y, d), word_b(code, x, d));
        let m = code.b@[k - t];
        assert(code.b@[k - 1 - d] == m);
        assert(m.wf());
        let off = a_offset(code.a@, (k - d) as nat);
        add_multiple_subrange::<F>(wy, c, wx, off, off + m.n);
        let (sy, sx) = (wy.subrange(off, off + m.n), wx.subrange(off, off + m.n));
        image_vec_linear::<F>(m.cells(), sy, c, sx, m.m as nat);
        add_multiple_concat::<F>(
            wy,
            image_vec::<F>(m.cells(), sy, m.m as nat),
            c,
            wx,
            image_vec::<F>(m.cells(), sx, m.m as nat),
        );
    }
}

proof fn image_of_zero<F: Residue>(rows: Seq<Seq<Cell>>, n: nat, m: nat)
    requires
        rows.len() <= n,
    ensures
        image_vec::<F>(rows, vzero(n), m) == vzero(m),
{
    assert forall|j: int| 0 <= j < m implies image_vec::<F>(rows, vzero(n), m)[j] == 0 by {
        zero_entry::<F>(rows, n, j);
    }
    assert(image_vec::<F>(rows, vzero(n), m) =~= vzero(m));
}

proof fn zero_entry<F: Residue>(rows: Seq<Seq<Cell>>, n: nat, j: int)
    requires
        rows.len() <= n,
    ensures
        image::<F>(rows, vzero(n), j) == 0,
    decreases rows.len(),
{
    if rows.len() > 0 {
        zero_entry::<F>(rows.drop_last(), n, j);
        zero_cells::<F>(rows.last(), j);
        canon_consts::<F>();
        f_units::<F>(0);
    }
}

proof fn zero_cells<F: Residue>(cells: Seq<Cell>, j: int)
    ensures
        cells_image::<F>(cells, 0, j) == 0,
    decreases cells.len(),
{
    if cells.len() > 0 {
        zero_cells::<F>(cells.drop_last(), j);
        canon_consts::<F>();
        f_units::<F>(0);
        crate::field::ops_red::<F>(0, cells.last().coeff);
        assert(0 * cells.last().coeff == 0) by (nonlinear_arith);
    }
}

proof fn word_a_of_zero<F: PrimeField>(code: Brakedown<F>, i: nat)
    requires
        code.wf(),
        i < code.a@.len(),
    ensures
        word_a(code, vzero(code.row_len as nat), i) == vzero(a_offset(code.a@, i + 1) as nat),
    decreases i,
{
    let z = vzero(code.row_len as nat);
    word_a_len(code, z, i);
    if i > 0 {
        let d = (i - 1) as nat;
        word_a_of_zero(code, d);
        word_a_len(code, z, d);
        a_offset_mono(code.a@, 0, d);
        let m = code.a@[d as int];
        assert(m.wf());
        let off = a_offset(code.a@, d);
        let w = word_a(code, z, d);
        assert(w.subrange(off, off + m.n) =~= vzero(m.n as nat));
        image_of_zero::<F>(m.cells(), m.n as nat, m.m as nat);
    }
    assert(word_a(code, z, i) =~= vzero(a_offset(code.a@, i + 1) as nat));
}

proof fn word_b_of_zero<F: PrimeField>(code: Brakedown<F>, t: nat)
    requires
        code.wf(),
        t <= code.a@.len(),
    ensures
        word_b(code, vzero(code.row_len as nat), t) == vzero(b_offset(code, t) as nat),
    decreases t,
{
    let k = code.a@.len();
    let z = vzero(code.row_len as nat);
    word_b_len(code, z, t);
    b_offset_mono(code, t, t);
    if t == 0 {
        let d = (k - 1) as nat;
        word_a_of_zero(code, d);
        word_a_len(code, z, d);
        a_offset_mono(code.a@, 0, d);
        let m = code.a@[d as int];
        assert(m.wf());
        let off = a_offset(code.a@, d);
        let w = word_a(code, z, d);
        assert(w.subrange(off, off + m.n) =~= vzero(m.n as nat));
        image_of_zero::<F>(m.cells(), m.n as nat, m.m as nat);
        let n = code.b@[k - 1].n as nat;
        let rs = reed_solomon::<F>(vzero(m.m as nat), n);
        assert forall|o: int| 0 <= o < n implies rs[o] == 0 by {
            pows_step::<F>(red::<F>(o + 1), m.m as nat);
            dot_zero::<F>(m.m as nat, pows::<F>(red::<F>(o + 1), m.m as nat));
        }
        assert(rs =~= vzero(n));
    } else {
        let d = (t - 1) as nat;
        word_b_of_zero(code, d);
        word_b_len(code, z, d);
        a_offset_mono(code.a@, 0, (k - d) as nat);
        let m = code.b@[k - t];
        assert(code.b@[k - 1 - d] == m);
        assert(m.wf());
        let off = a_offset(code.a@, (k - d) as nat);
        let w = word_b(code, z, d);
        assert(w.subrange(off, off + m.n) =~= vzero(m.n as nat));
        image_of_zero::<F>(m.cells(), m.n as nat, m.m as nat);
    }
    assert(word_b(code, z, t) =~= vzero(b_offset(code, t) as nat));
}

/// The codewords of a list of messages.
pub open spec fn codewords<F: PrimeField>(code: Brakedown<F>, msgs: Seq<Seq<int>>) -> Seq<Seq<int>> {
    Seq::new(msgs.len(), |i: int| codeword(code, msgs[i]))
}

/// The code is linear: adding a multiple of a message adds the same multiple of
/// its codeword.
pub proof fn codeword_linear<F: PrimeField>(code: Brakedown<F>, y: Seq<int>, c: int, x: Seq<int>)
    requires
        code.wf(),
        y.len() == code.row_len,
        x.len() == code.row_len,
    ensures
        codeword(code, add_multiple::<F>(y, c, x)) == add_multiple::<F>(
            codeword(code, y),
            c,
            codeword(code, x),
        ),
{
    word_b_linear(code, y, c, x, code.a@.len());
}

/// The codeword of zero is zero.
pub proof fn codeword_of_zero<F: PrimeField>(code: Brakedown<F>)
    requires
        code.wf(),
    ensures
        codeword(code, vzero(code.row_len as nat)) == vzero(code.codeword_len as nat),
{
    word_b_of_zero(code, code.a@.len());
}

/// The codeword of a combination of messages is the combination of their
/// codewords.
pub proof fn codeword_of_combination<F: PrimeField>(
    code: Brakedown<F>,
    w: Seq<int>,
    msgs: Seq<Seq<int>>,
)
    requires
        code.wf(),
        rect(msgs, code.row_len as nat),
    ensures
        codeword(code, comb::<F>(w, msgs, code.row_len as nat)) == comb::<F>(
            w,
            codewords(code, msgs),
            code.codeword_len as nat,
        ),
    decreases msgs.len(),
{
    if msgs.len() == 0 {
        codeword_of_zero(code);
    } else {
        let md = msgs.drop_last();
        codeword_of_combination(code, w, md);
        comb_len::<F>(w, md, code.row_len as nat);
        assert(msgs[msgs.len() - 1].len() == code.row_len);
        codeword_linear(
            code,
            comb::<F>(w, md, code.row_len as nat),
            w[msgs.len() - 1],
            msgs.last(),
        );
        assert(codewords(code, msgs).drop_last() =~= codewords(code, md));
    }
}

} // verus!
