//! The recursive sparse code of the row encoder, and its parity-check matrix.

use crate::field::{
    canon, canon_consts, f_units, fadd, fadd_assoc, fadd_canon, fmul, fmul_assoc, fmul_fadd,
    ops_red, red, PrimeField, Residue,
};
use crate::linear::{
    dot, dot_canon, dot_zero, inner_product, powers, pows, pows_step, vals, vals_push, vcanon,
    vzero, zero_vec,
};
use crate::qa_code::copied;
use crate::quasar_columns::dot_update;
use vstd::prelude::*;

verus! {

/// A sparse matrix that maps `n` inputs to `m` outputs: `rows[i]` lists the
/// outputs that input `i` goes to, with coefficients.
pub struct SparseMatrix<F> {
    pub n: usize,
    pub m: usize,
    pub rows: Vec<Vec<(usize, F)>>,
}

/// A cell: output index and coefficient.
pub struct Cell {
    pub out: int,
    pub coeff: int,
}

/// The cells of one input as residues.
pub open spec fn cells_of<F: PrimeField>(cells: Seq<(usize, F)>) -> Seq<Cell> {
    Seq::new(cells.len(), |k: int| Cell { out: cells[k].0 as int, coeff: cells[k].1.val() })
}

/// The cells of all inputs as residues.
pub open spec fn rows_of_cells<F: PrimeField>(rows: Seq<Vec<(usize, F)>>) -> Seq<Seq<Cell>> {
    Seq::new(rows.len(), |i: int| cells_of(rows[i]@))
}

impl<F: PrimeField> SparseMatrix<F> {
    /// One list of cells an input, every cell names an output.
    pub open spec fn wf(self) -> bool {
        &&& self.rows@.len() == self.n
        &&& forall|i: int, k: int|
            0 <= i < self.n && 0 <= k < self.rows@[i]@.len() ==> (#[trigger] self.rows@[i]@[k]).0
                < self.m
    }

    /// The cells as residues.
    pub open spec fn cells(self) -> Seq<Seq<Cell>> {
        rows_of_cells(self.rows@)
    }
}

/// What one input contributes to output `j`.
pub open spec fn cells_image<F: Residue>(cells: Seq<Cell>, x: int, j: int) -> int
    decreases cells.len(),
{
    if cells.len() == 0 {
        0
    } else {
        let prev = cells_image::<F>(cells.drop_last(), x, j);
        if cells.last().out == j {
            fadd::<F>(prev, fmul::<F>(x, cells.last().coeff))
        } else {
            prev
        }
    }
}

/// Output `j` of a sparse matrix.
pub open spec fn image<F: Residue>(rows: Seq<Seq<Cell>>, x: Seq<int>, j: int) -> int
    decreases rows.len(),
{
    if rows.len() == 0 {
        0
    } else {
        let k = rows.len() - 1;
        fadd::<F>(
            image::<F>(rows.drop_last(), x, j),
            cells_image::<F>(rows.last(), x[k], j),
        )
    }
}

/// All outputs of a sparse matrix.
pub open spec fn image_vec<F: Residue>(rows: Seq<Seq<Cell>>, x: Seq<int>, m: nat) -> Seq<int> {
    Seq::new(m, |j: int| image::<F>(rows, x, j))
}

/// Outputs are canonical.
pub proof fn image_canon<F: Residue>(rows: Seq<Seq<Cell>>, x: Seq<int>, j: int)
    ensures
        canon::<F>(image::<F>(rows, x, j)),
{
    canon_consts::<F>();
    broadcast use fadd_canon;

}

/// Applies a sparse matrix to a vector.
pub fn sparse_dot<F: PrimeField>(matrix: &SparseMatrix<F>, x: &[F]) -> (r: Vec<F>)
    requires
        matrix.wf(),
        x@.len() == matrix.n,
    ensures
        vals(r@) == image_vec::<F>(matrix.cells(), vals(x@), matrix.m as nat),
        r@.len() == matrix.m,
{
    let ghost rows = matrix.cells();
    let ghost v = vals(x@);
    let m: usize = matrix.m;
    let mut out = zero_vec::<F>(m);
    let mut i: usize = 0;
    assert(vals(out@) =~= image_vec::<F>(rows.take(0), v, m as nat));
    while i < matrix.n
        invariant
            i <= matrix.n,
            matrix.wf(),
            m == matrix.m,
            rows == matrix.cells(),
            v == vals(x@),
            x@.len() == matrix.n,
            out@.len() == m,
            vals(out@) == image_vec::<F>(rows.take(i as int), v, m as nat),
        decreases matrix.n - i,
    {
        let ghost before = vals(out@);
        let ghost cells = rows[i as int];
        let ghost xi = v[i as int];
        let mut k: usize = 0;
        proof {
            assert forall|j: int| 0 <= j < m implies before[j] == #[trigger] fadd::<F>(
                before[j],
                cells_image::<F>(cells.take(0), xi, j),
            ) by {
                assert(cells.take(0) =~= Seq::empty());
                image_canon::<F>(rows.take(i as int), v, j);
                f_units::<F>(before[j]);
            }
            assert(vals(out@) =~= Seq::new(
                m as nat,
                |j: int| fadd::<F>(before[j], cells_image::<F>(cells.take(0), xi, j)),
            ));
        }
        while k < matrix.rows[i].len()
            invariant
                i < matrix.n,
                matrix.wf(),
                m == matrix.m,
                x@.len() == matrix.n,
                k <= matrix.rows@[i as int]@.len(),
                cells == cells_of(matrix.rows@[i as int]@),
                xi == x@[i as int].val(),
                out@.len() == m,
                before.len() == m,
                vals(out@) == Seq::new(
                    m as nat,
                    |j: int| fadd::<F>(before[j], cells_image::<F>(cells.take(k as int), xi, j)),
                ),
            decreases matrix.rows@[i as int]@.len() - k,
        {
            let cell = matrix.rows[i][k];
            assert(matrix.rows@[i as int]@[k as int].0 < m);
            let ghost prev = vals(out@);
            let old_value = out[cell.0];
            let value = old_value.plus(x[i].times(cell.1));
            out.set(cell.0, value);
            proof {
                let ck = cells.take(k as int);
                let ck1 = cells.take(k as int + 1);
                assert(ck1.drop_last() =~= ck);
                assert(ck1.last() == cells[k as int]);
                assert forall|j: int| 0 <= j < m implies vals(out@)[j] == fadd::<F>(
                    before[j],
                    cells_image::<F>(ck1, xi, j),
                ) by {
                    assert(prev[j] == fadd::<F>(before[j], cells_image::<F>(ck, xi, j)));
                    assert(ck1.last().out == cell.0 && ck1.last().coeff == cell.1.val());
                    if j == cell.0 {
                        assert(vals(out@)[j] == value.val());
                        assert(prev[j] == old_value.val());
                        fadd_assoc::<F>(
                            before[j],
                            cells_image::<F>(ck, xi, j),
                            fmul::<F>(xi, cell.1.val()),
                        );
                    } else {
                        assert(vals(out@)[j] == prev[j]);
                    }
                }
                assert(vals(out@) =~= Seq::new(
                    m as nat,
                    |j: int| fadd::<F>(before[j], cells_image::<F>(ck1, xi, j)),
                ));
            }
            k = k + 1;
        }
        proof {
            assert(cells.take(k as int) =~= cells);
            assert(rows.take(i as int + 1).drop_last() =~= rows.take(i as int));
            assert(vals(out@) =~= image_vec::<F>(rows.take(i as int + 1), v, m as nat));
        }
        i = i + 1;
    }
    assert(rows.take(i as int) =~= rows);
    out
}

/// The inner product of the cells of one input with a vector.
pub open spec fn cells_dot<F: Residue>(cells: Seq<Cell>, p: Seq<int>) -> int
    decreases cells.len(),
{
    if cells.len() == 0 {
        0
    } else {
        fadd::<F>(
            cells_dot::<F>(cells.drop_last(), p),
            fmul::<F>(cells.last().coeff, p[cells.last().out]),
        )
    }
}

/// The inner product of the outputs of a sparse matrix with a vector, taken
/// input by input.
pub open spec fn transposed_dot<F: Residue>(rows: Seq<Seq<Cell>>, x: Seq<int>, p: Seq<int>) -> int
    decreases rows.len(),
{
    if rows.len() == 0 {
        0
    } else {
        fadd::<F>(
            transposed_dot::<F>(rows.drop_last(), x, p),
            fmul::<F>(x[rows.len() - 1], cells_dot::<F>(rows.last(), p)),
        )
    }
}

/// Every cell names one of `m` outputs.
pub open spec fn cells_in(rows: Seq<Seq<Cell>>, m: nat) -> bool {
    forall|i: int, k: int|
        0 <= i < rows.len() && 0 <= k < rows[i].len() ==> 0 <= (#[trigger] rows[i][k]).out < m
}

/// Adding what one input contributes.
proof fn dot_cells<F: Residue>(base: Seq<int>, cells: Seq<Cell>, x: int, p: Seq<int>, m: nat)
    requires
        base.len() == m,
        p.len() == m,
        forall|k: int| 0 <= k < cells.len() ==> 0 <= (#[trigger] cells[k]).out < m,
        vcanon::<F>(base),
    ensures
        dot::<F>(
            Seq::new(m, |j: int| fadd::<F>(base[j], cells_image::<F>(cells, x, j))),
            p,
        ) == fadd::<F>(dot::<F>(base, p), fmul::<F>(x, cells_dot::<F>(cells, p))),
    decreases cells.len(),
{
    let sum = Seq::new(m, |j: int| fadd::<F>(base[j], cells_image::<F>(cells, x, j)));
    if cells.len() == 0 {
        assert forall|j: int| 0 <= j < m implies sum[j] == base[j] by {
            f_units::<F>(base[j]);
        }
        assert(sum =~= base);
        dot_canon::<F>(base, p);
        f_units::<F>(dot::<F>(base, p));
        ops_red::<F>(x, 0);
        assert(x * 0 == 0) by (nonlinear_arith);
        canon_consts::<F>();
    } else {
        let cd = cells.drop_last();
        let last = cells.last();
        assert forall|k: int| 0 <= k < cd.len() implies 0 <= (#[trigger] cd[k]).out < m by {
            assert(cd[k] == cells[k]);
        }
        dot_cells::<F>(base, cd, x, p, m);
        assert(0 <= cells[cells.len() - 1].out < m);
        let prev = Seq::new(m, |j: int| fadd::<F>(base[j], cells_image::<F>(cd, x, j)));
        let add = fmul::<F>(x, last.coeff);
        assert forall|j: int| 0 <= j < m implies sum[j] == prev.update(
            last.out,
            fadd::<F>(prev[last.out], add),
        )[j] by {
            if j == last.out {
                fadd_assoc::<F>(base[j], cells_image::<F>(cd, x, j), add);
            }
        }
        assert(sum =~= prev.update(last.out, fadd::<F>(prev[last.out], add)));
        dot_update::<F>(prev, p, last.out, add);
        let q = p[last.out];
        fmul_assoc::<F>(x, last.coeff, q);
        let d0 = dot::<F>(base, p);
        let c0 = cells_dot::<F>(cd, p);
        fmul_fadd::<F>(x, c0, fmul::<F>(last.coeff, q));
        fadd_assoc::<F>(d0, fmul::<F>(x, c0), fmul::<F>(x, fmul::<F>(last.coeff, q)));
    }
}

/// The inner product with the outputs may be taken input by input.
pub proof fn dot_image<F: Residue>(rows: Seq<Seq<Cell>>, x: Seq<int>, p: Seq<int>, m: nat)
    requires
        p.len() == m,
        cells_in(rows, m),
    ensures
        dot::<F>(image_vec::<F>(rows, x, m), p) == transposed_dot::<F>(rows, x, p),
    decreases rows.len(),
{
    if rows.len() == 0 {
        assert(image_vec::<F>(rows, x, m) =~= vzero(m));
        dot_zero::<F>(m, p);
    } else {
        let rd = rows.drop_last();
        let k = rows.len() - 1;
        assert forall|i: int, c: int| 0 <= i < rd.len() && 0 <= c < rd[i].len() implies 0 <= (
        #[trigger] rd[i][c]).out < m by {
            assert(rd[i][c] == rows[i][c]);
        }
        dot_image::<F>(rd, x, p, m);
        let base = image_vec::<F>(rd, x, m);
        assert forall|j: int| 0 <= j < m implies canon::<F>(#[trigger] base[j]) by {
            image_canon::<F>(rd, x, j);
        }
        let last = rows.last();
        assert forall|c: int| 0 <= c < last.len() implies 0 <= (#[trigger] last[c]).out < m by {
            assert(rows[k][c] == last[c]);
        }
        dot_cells::<F>(base, last, x[k], p, m);
        assert(image_vec::<F>(rows, x, m) =~= Seq::new(
            m,
            |j: int| fadd::<F>(base[j], cells_image::<F>(last, x[k], j)),
        ));
    }
}

/// A recursive sparse code: the first matrices of each level, the second
/// matrices of each level, and the query counts that go with it.
pub struct Brakedown<F> {
    pub row_len: usize,
    pub codeword_len: usize,
    pub num_column_opening: usize,
    pub num_proximity_testing: usize,
    pub a: Vec<SparseMatrix<F>>,
    pub b: Vec<SparseMatrix<F>>,
}

/// Where the input of the first matrix of level `i` starts.
pub open spec fn a_offset<F: PrimeField>(a: Seq<SparseMatrix<F>>, i: nat) -> int
    decreases i,
{
    if i == 0 {
        0
    } else {
        a_offset(a, (i - 1) as nat) + a[i - 1].n
    }
}

/// Where the output of the second matrix of the `t`-th level from the deepest
/// starts.
pub open spec fn b_offset<F: PrimeField>(code: Brakedown<F>, t: nat) -> int
    decreases t,
{
    let k = code.a@.len();
    if t == 0 {
        a_offset(code.a@, k) + code.b@[k - 1].n
    } else {
        b_offset(code, (t - 1) as nat) + code.b@[k - t].m
    }
}

impl<F: PrimeField> Brakedown<F> {
    /// The dimensions of the levels fit together.
    pub open spec fn wf(self) -> bool {
        let k = self.a@.len();
        &&& k > 0
        &&& self.b@.len() == k
        &&& self.row_len == self.a@[0].n
        &&& forall|i: int| 0 <= i < k ==> (#[trigger] self.a@[i]).wf()
        &&& forall|i: int| 0 <= i < k ==> (#[trigger] self.b@[i]).wf()
        &&& forall|i: int| 0 < i < k ==> (#[trigger] self.a@[i]).n == self.a@[i - 1].m
        &&& forall|t: int|
            0 <= t < k ==> a_offset(self.a@, (k - t) as nat) + (#[trigger] self.b@[k - 1 - t]).n
                <= b_offset(self, t as nat)
        &&& b_offset(self, k) == self.codeword_len
    }

    pub fn row_len(&self) -> (r: usize)
        ensures
            r == self.row_len,
    {
        self.row_len
    }

    pub fn codeword_len(&self) -> (r: usize)
        ensures
            r == self.codeword_len,
    {
        self.codeword_len
    }
}

/// Inputs of deeper levels start later.
pub proof fn a_offset_mono<F: PrimeField>(a: Seq<SparseMatrix<F>>, i: nat, j: nat)
    requires
        i <= j,
    ensures
        0 <= a_offset(a, i) <= a_offset(a, j),
    decreases j,
{
    if i < j {
        a_offset_mono(a, i, (j - 1) as nat);
    } else if j > 0 {
        a_offset_mono(a, (j - 1) as nat, (j - 1) as nat);
    }
}

/// Outputs of outer levels start later.
pub proof fn b_offset_mono<F: PrimeField>(code: Brakedown<F>, t: nat, u: nat)
    requires
        t <= u,
    ensures
        a_offset(code.a@, code.a@.len()) <= b_offset(code, t) <= b_offset(code, u),
    decreases u,
{
    a_offset_mono(code.a@, 0, code.a@.len());
    if t < u {
        b_offset_mono(code, t, (u - 1) as nat);
    } else if u > 0 {
        b_offset_mono(code, (u - 1) as nat, (u - 1) as nat);
    }
}

/// The word after the first `i` levels of first matrices.
pub open spec fn word_a<F: PrimeField>(code: Brakedown<F>, msg: Seq<int>, i: nat) -> Seq<int>
    decreases i,
{
    if i == 0 {
        msg
    } else {
        let w = word_a(code, msg, (i - 1) as nat);
        let m = code.a@[i - 1];
        let off = a_offset(code.a@, (i - 1) as nat);
        w + image_vec::<F>(m.cells(), w.subrange(off, off + m.n), m.m as nat)
    }
}

/// The values at `1, 2, ..., n` of the polynomial with the given coefficients.
pub open spec fn reed_solomon<F: Residue>(coeffs: Seq<int>, n: nat) -> Seq<int> {
    Seq::new(n, |o: int| dot::<F>(coeffs, pows::<F>(red::<F>(o + 1), coeffs.len())))
}

/// The word after the base code and the `t` deepest levels of second matrices.
pub open spec fn word_b<F: PrimeField>(code: Brakedown<F>, msg: Seq<int>, t: nat) -> Seq<int>
    decreases t,
{
    let k = code.a@.len();
    if t == 0 {
        let w = word_a(code, msg, (k - 1) as nat);
        let last = code.a@[k - 1];
        let off = a_offset(code.a@, (k - 1) as nat);
        w + reed_solomon::<F>(
            image_vec::<F>(last.cells(), w.subrange(off, off + last.n), last.m as nat),
            code.b@[k - 1].n as nat,
        )
    } else {
        let w = word_b(code, msg, (t - 1) as nat);
        let m = code.b@[k - t];
        let off = a_offset(code.a@, (k - (t - 1)) as nat);
        w + image_vec::<F>(m.cells(), w.subrange(off, off + m.n), m.m as nat)
    }
}

/// The codeword of a message.
pub open spec fn codeword<F: PrimeField>(code: Brakedown<F>, msg: Seq<int>) -> Seq<int> {
    word_b(code, msg, code.a@.len())
}

/// Lengths of the growing word.
pub proof fn word_a_len<F: PrimeField>(code: Brakedown<F>, msg: Seq<int>, i: nat)
    requires
        code.wf(),
        msg.len() == code.row_len,
        i < code.a@.len(),
    ensures
        word_a(code, msg, i).len() == a_offset(code.a@, i + 1),
    decreases i,
{
    if i > 0 {
        word_a_len(code, msg, (i - 1) as nat);
        assert(code.a@[i as int].n == code.a@[i - 1].m);
    } else {
        assert(a_offset(code.a@, 1) == a_offset(code.a@, 0) + code.a@[0].n);
    }
}

/// The word grows to the offset of the next level.
pub proof fn word_b_len<F: PrimeField>(code: Brakedown<F>, msg: Seq<int>, t: nat)
    requires
        code.wf(),
        msg.len() == code.row_len,
        t <= code.a@.len(),
    ensures
        word_b(code, msg, t).len() == b_offset(code, t),
    decreases t,
{
    let k = code.a@.len();
    if t > 0 {
        word_b_len(code, msg, (t - 1) as nat);
    } else {
        word_a_len(code, msg, (k - 1) as nat);
    }
}

/// The values at `1, 2, ..., n` of a polynomial.
fn reed_solomon_vec<F: PrimeField>(coeffs: &[F], n: usize) -> (r: Vec<F>)
    ensures
        vals(r@) == reed_solomon::<F>(vals(coeffs@), n as nat),
{
    let ghost c = vals(coeffs@);
    let ghost goal = reed_solomon::<F>(c, n as nat);
    let mut out: Vec<F> = Vec::new();
    let mut o: usize = 0;
    while o < n
        invariant
            o <= n,
            c == vals(coeffs@),
            goal == reed_solomon::<F>(c, n as nat),
            vals(out@) == goal.take(o as int),
        decreases n - o,
    {
        let x = F::from_u64((o + 1) as u64);
        let p = powers(x, coeffs.len());
        proof {
            assert(x.val() == red::<F>(o + 1)) by {
                reveal(red);
            }
            pows_step::<F>(x.val(), coeffs@.len());
            assert(vals(p@).len() == coeffs@.len());
        }
        let value = inner_product(coeffs, &p);
        proof {
            vals_push(out@, value);
            assert(goal.take(o as int + 1) =~= goal.take(o as int).push(goal[o as int]));
        }
        out.push(value);
        o = o + 1;
    }
    assert(goal.take(o as int) =~= goal);
    out
}

impl<F: PrimeField> Brakedown<F> {
    /// Encodes a message.
    pub fn encode(&self, msg: &[F]) -> (r: Vec<F>)
        requires
            self.wf(),
            msg@.len() == self.row_len,
        ensures
            vals(r@) == codeword(*self, vals(msg@)),
            r@.len() == self.codeword_len,
    {
        let ghost m = vals(msg@);
        let k: usize = self.a.len();
        let mut word = copied(msg);
        let mut off: usize = 0;
        let mut i: usize = 0;
        proof {
            b_offset_mono(*self, 0, k as nat);
        }
        while i < k - 1
            invariant
                i <= k - 1,
                k == self.a@.len(),
                self.wf(),
                m == vals(msg@),
                msg@.len() == self.row_len,
                off == a_offset(self.a@, i as nat),
                a_offset(self.a@, k as nat) <= self.codeword_len,
                vals(word@) == word_a(*self, m, i as nat),
            decreases k - i,
        {
            proof {
                word_a_len(*self, m, i as nat);
                a_offset_mono(self.a@, (i + 1) as nat, k as nat);
                assert(vals(word@).len() == word@.len());
                assert(self.a@[i as int].wf());
            }
            let matrix = &self.a[i];
            let input = vstd::slice::slice_subrange(word.as_slice(), off, off + matrix.n);
            let mut image = sparse_dot(matrix, input);
            proof {
                assert(vals(input@) =~= vals(word@).subrange(off as int, off + matrix.n));
                crate::linear::vals_concat(word@, image@);
            }
            word.append(&mut image);
            off = off + matrix.n;
            i = i + 1;
        }
        proof {
            word_a_len(*self, m, (k - 1) as nat);
            assert(vals(word@).len() == word@.len());
            assert(self.a@[k - 1].wf());
        }
        let last = &self.a[k - 1];
        let input = vstd::slice::slice_subrange(word.as_slice(), off, off + last.n);
        let tmp = sparse_dot(last, input);
        let mut base = reed_solomon_vec(&tmp, self.b[k - 1].n);
        proof {
            assert(vals(input@) =~= vals(word@).subrange(off as int, off + last.n));
            crate::linear::vals_concat(word@, base@);
        }
        word.append(&mut base);
        off = off + last.n;
        let mut t: usize = 0;
        while t < k
            invariant
                t <= k,
                k == self.a@.len(),
                self.wf(),
                m == vals(msg@),
                msg@.len() == self.row_len,
                off == a_offset(self.a@, (k - t) as nat),
                vals(word@) == word_b(*self, m, t as nat),
            decreases k - t,
        {
            proof {
                word_b_len(*self, m, t as nat);
                b_offset_mono(*self, t as nat, k as nat);
                assert(vals(word@).len() == word@.len());
                assert(self.b@[k - 1 - t].wf());
                a_offset_mono(self.a@, (k - t - 1) as nat, (k - t) as nat);
            }
            let matrix = &self.b[k - 1 - t];
            let input = vstd::slice::slice_subrange(word.as_slice(), off, off + matrix.n);
            let mut image = sparse_dot(matrix, input);
            proof {
                assert(vals(input@) =~= vals(word@).subrange(off as int, off + matrix.n));
                crate::linear::vals_concat(word@, image@);
            }
            word.append(&mut image);
            off = off - self.a[k - 1 - t].n;
            t = t + 1;
        }
        proof {
            word_b_len(*self, m, k as nat);
            assert(vals(word@).len() == word@.len());
        }
        word
    }
}

} // verus!
