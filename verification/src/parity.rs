//! The sparse parity-check matrix of the recursive code.

use crate::brakedown::{
    a_offset, a_offset_mono, b_offset, b_offset_mono, cells_dot, cells_image, cells_in, cells_of,
    codeword, dot_image, image, image_canon, image_vec, reed_solomon, transposed_dot, word_a,
    word_a_len, word_b, word_b_len, Brakedown, Cell, SparseMatrix,
};
use crate::field::{
    canon, canon_consts, f_units, fadd, fadd_assoc, fadd_canon, fadd_comm, fmul, fmul_canon,
    fmul_fsub, fsub, ops_red, red, PrimeField, Residue,
};
use crate::linear::{dot_canon, powers, pows, pows_step, vals, vcanon};
use vstd::prelude::*;

verus! {

/// A nonzero cell of a sparse matrix.
pub struct SparseEntry<F> {
    pub row: usize,
    pub col: usize,
    pub value: F,
}

/// A cell as integers.
pub struct Entry {
    pub row: int,
    pub col: int,
    pub value: int,
}

/// A cell of the matrix as integers.
pub open spec fn entry_of<F: PrimeField>(e: SparseEntry<F>) -> Entry {
    Entry { row: e.row as int, col: e.col as int, value: e.value.val() }
}

/// The cells of a sparse matrix as integers.
pub open spec fn entries_of<F: PrimeField>(s: Seq<SparseEntry<F>>) -> Seq<Entry> {
    Seq::new(s.len(), |k: int| entry_of(s[k]))
}

pub broadcast proof fn entries_push<F: PrimeField>(s: Seq<SparseEntry<F>>, e: SparseEntry<F>)
    ensures
        #[trigger] entries_of(s.push(e)) == entries_of(s).push(entry_of(e)),
{
    assert(entries_of(s.push(e)) =~= entries_of(s).push(entry_of(e)));
}

/// Minus one.
pub open spec fn minus_one<F: Residue>() -> int {
    fsub::<F>(0, 1)
}

/// The cells that one input of a relation leads to.
pub open spec fn cell_entries(cells: Seq<Cell>, row: int, con: int) -> Seq<Entry> {
    Seq::new(
        cells.len(),
        |k: int| Entry { row, col: con + cells[k].out, value: cells[k].coeff },
    )
}

/// The cells that the inputs of a relation lead to.
pub open spec fn matrix_entries(rows: Seq<Seq<Cell>>, inp: int, con: int) -> Seq<Entry>
    decreases rows.len(),
{
    if rows.len() == 0 {
        Seq::empty()
    } else {
        matrix_entries(rows.drop_last(), inp, con) + cell_entries(
            rows.last(),
            inp + rows.len() - 1,
            con,
        )
    }
}

/// The cells of the outputs of a relation.
pub open spec fn output_entries<F: Residue>(out: int, con: int, m: nat) -> Seq<Entry> {
    Seq::new(m, |j: int| Entry { row: out + j, col: con + j, value: minus_one::<F>() })
}

/// The cells of the relation `image of the inputs - outputs = 0`.
pub open spec fn relation_entries<F: Residue>(
    rows: Seq<Seq<Cell>>,
    inp: int,
    out: int,
    con: int,
    m: nat,
) -> Seq<Entry> {
    matrix_entries(rows, inp, con) + output_entries::<F>(out, con, m)
}

/// The nonzero cells of one output of the base code.
pub open spec fn base_row_entries<F: Residue>(
    rows: Seq<Seq<Cell>>,
    p: Seq<int>,
    inp: int,
    col: int,
) -> Seq<Entry>
    decreases rows.len(),
{
    if rows.len() == 0 {
        Seq::empty()
    } else {
        let prev = base_row_entries::<F>(rows.drop_last(), p, inp, col);
        let c = cells_dot::<F>(rows.last(), p);
        if c != 0 {
            prev.push(Entry { row: inp + rows.len() - 1, col, value: c })
        } else {
            prev
        }
    }
}

/// The cells of the first `n` outputs of the base code.
pub open spec fn base_entries<F: Residue>(
    rows: Seq<Seq<Cell>>,
    m: nat,
    inp: int,
    base: int,
    con: int,
    n: nat,
) -> Seq<Entry>
    decreases n,
{
    if n == 0 {
        Seq::empty()
    } else {
        let o = n - 1;
        (base_entries::<F>(rows, m, inp, base, con, o as nat) + base_row_entries::<F>(
            rows,
            pows::<F>(red::<F>(o + 1), m),
            inp,
            con + o,
        )).push(Entry { row: base + o, col: con + o, value: minus_one::<F>() })
    }
}

/// The cells of the first `i` stored levels.
pub open spec fn entries_a<F: PrimeField>(code: Brakedown<F>, i: nat) -> Seq<Entry>
    decreases i,
{
    if i == 0 {
        Seq::empty()
    } else {
        let m = code.a@[i - 1];
        entries_a(code, (i - 1) as nat) + relation_entries::<F>(
            m.cells(),
            a_offset(code.a@, (i - 1) as nat),
            a_offset(code.a@, i),
            a_offset(code.a@, i) - code.row_len,
            m.m as nat,
        )
    }
}

/// The cells of the stored levels, of the base code and of the `t` deepest
/// second matrices.
pub open spec fn entries_b<F: PrimeField>(code: Brakedown<F>, t: nat) -> Seq<Entry>
    decreases t,
{
    let k = code.a@.len();
    if t == 0 {
        let last = code.a@[k - 1];
        let base = a_offset(code.a@, k);
        entries_a(code, (k - 1) as nat) + base_entries::<F>(
            last.cells(),
            last.m as nat,
            a_offset(code.a@, (k - 1) as nat),
            base,
            base - code.row_len,
            code.b@[k - 1].n as nat,
        )
    } else {
        let m = code.b@[k - t];
        let out = b_offset(code, (t - 1) as nat);
        entries_b(code, (t - 1) as nat) + relation_entries::<F>(
            m.cells(),
            a_offset(code.a@, (k - (t - 1)) as nat),
            out,
            out - code.row_len,
            m.m as nat,
        )
    }
}

/// The cells of the parity-check matrix: one column for every position of the
/// codeword behind the message.
pub open spec fn parity_entries<F: PrimeField>(code: Brakedown<F>) -> Seq<Entry> {
    entries_b(code, code.a@.len())
}

/// Column `c` of the product of a word with a sparse matrix.
pub open spec fn syndrome<F: Residue>(entries: Seq<Entry>, w: Seq<int>, c: int) -> int
    decreases entries.len(),
{
    if entries.len() == 0 {
        0
    } else {
        let e = entries.last();
        let prev = syndrome::<F>(entries.drop_last(), w, c);
        if e.col == c {
            fadd::<F>(prev, fmul::<F>(w[e.row], e.value))
        } else {
            prev
        }
    }
}

/// Syndromes are canonical.
pub proof fn syndrome_canon<F: Residue>(entries: Seq<Entry>, w: Seq<int>, c: int)
    ensures
        canon::<F>(syndrome::<F>(entries, w, c)),
    decreases entries.len(),
{
    canon_consts::<F>();
    broadcast use fadd_canon;

    if entries.len() > 0 {
        syndrome_canon::<F>(entries.drop_last(), w, c);
    }
}

/// Cells may be taken in two parts.
pub proof fn syndrome_concat<F: Residue>(x: Seq<Entry>, y: Seq<Entry>, w: Seq<int>, c: int)
    ensures
        syndrome::<F>(x + y, w, c) == fadd::<F>(syndrome::<F>(x, w, c), syndrome::<F>(y, w, c)),
    decreases y.len(),
{
    syndrome_canon::<F>(x, w, c);
    if y.len() == 0 {
        assert(x + y =~= x);
        f_units::<F>(syndrome::<F>(x, w, c));
    } else {
        let yd = y.drop_last();
        syndrome_concat::<F>(x, yd, w, c);
        assert((x + y).drop_last() =~= x + yd);
        assert((x + y).last() == y.last());
        fadd_assoc::<F>(
            syndrome::<F>(x, w, c),
            syndrome::<F>(yd, w, c),
            fmul::<F>(w[y.last().row], y.last().value),
        );
    }
}

proof fn syndrome_cells<F: Residue>(cells: Seq<Cell>, row: int, con: int, w: Seq<int>, c: int)
    ensures
        syndrome::<F>(cell_entries(cells, row, con), w, c) == cells_image::<F>(
            cells,
            w[row],
            c - con,
        ),
    decreases cells.len(),
{
    if cells.len() > 0 {
        syndrome_cells::<F>(cells.drop_last(), row, con, w, c);
        let e = cell_entries(cells, row, con);
        assert(e.drop_last() =~= cell_entries(cells.drop_last(), row, con));
    }
}

proof fn syndrome_matrix<F: Residue>(
    rows: Seq<Seq<Cell>>,
    inp: int,
    con: int,
    w: Seq<int>,
    x: Seq<int>,
    c: int,
)
    requires
        forall|k: int| 0 <= k < rows.len() ==> w[inp + k] == #[trigger] x[k],
    ensures
        syndrome::<F>(matrix_entries(rows, inp, con), w, c) == image::<F>(rows, x, c - con),
    decreases rows.len(),
{
    if rows.len() > 0 {
        let k = rows.len() - 1;
        assert(w[inp + k] == x[k]);
        syndrome_matrix::<F>(rows.drop_last(), inp, con, w, x, c);
        syndrome_cells::<F>(rows.last(), inp + k, con, w, c);
        syndrome_concat::<F>(
            matrix_entries(rows.drop_last(), inp, con),
            cell_entries(rows.last(), inp + k, con),
            w,
            c,
        );
    }
}

proof fn syndrome_outputs<F: Residue>(out: int, con: int, m: nat, w: Seq<int>, c: int)
    ensures
        syndrome::<F>(output_entries::<F>(out, con, m), w, c) == if con <= c < con + m {
            fmul::<F>(w[out + (c - con)], minus_one::<F>())
        } else {
            0
        },
    decreases m,
{
    if m > 0 {
        let d = (m - 1) as nat;
        syndrome_outputs::<F>(out, con, d, w, c);
        let e = output_entries::<F>(out, con, m);
        assert(e.drop_last() =~= output_entries::<F>(out, con, d));
        let term = fmul::<F>(w[out + d], minus_one::<F>());
        fmul_canon::<F>(w[out + d], minus_one::<F>());
        f_units::<F>(term);
    }
}

/// A value and its opposite add up to zero.
pub proof fn opposite_cancels<F: Residue>(v: int)
    requires
        canon::<F>(v),
    ensures
        fadd::<F>(v, fmul::<F>(v, minus_one::<F>())) == 0,
{
    canon_consts::<F>();
    f_units::<F>(v);
    fmul_fsub::<F>(v, 0, 1);
    ops_red::<F>(0, v);
    ops_red::<F>(v, fsub::<F>(0, v));
    crate::field::red_red::<F>(0 - v);
    crate::field::red_add::<F>(v, 0 - v);
}

/// No cell of a sparse matrix leads outside of its outputs.
proof fn image_outside<F: Residue>(rows: Seq<Seq<Cell>>, x: Seq<int>, m: nat, j: int)
    requires
        cells_in(rows, m),
        j < 0 || j >= m,
    ensures
        image::<F>(rows, x, j) == 0,
    decreases rows.len(),
{
    if rows.len() > 0 {
        let rd = rows.drop_last();
        assert forall|i: int, c: int| 0 <= i < rd.len() && 0 <= c < rd[i].len() implies 0 <= (
        #[trigger] rd[i][c]).out < m by {
            assert(rd[i][c] == rows[i][c]);
        }
        image_outside::<F>(rd, x, m, j);
        let last = rows.last();
        assert forall|c: int| 0 <= c < last.len() implies 0 <= (#[trigger] last[c]).out < m by {
            assert(rows[rows.len() - 1][c] == last[c]);
        }
        cells_outside::<F>(last, x[rows.len() - 1], m, j);
        canon_consts::<F>();
        f_units::<F>(0);
    }
}

proof fn cells_outside<F: Residue>(cells: Seq<Cell>, x: int, m: nat, j: int)
    requires
        forall|c: int| 0 <= c < cells.len() ==> 0 <= (#[trigger] cells[c]).out < m,
        j < 0 || j >= m,
    ensures
        cells_image::<F>(cells, x, j) == 0,
    decreases cells.len(),
{
    if cells.len() > 0 {
        let cd = cells.drop_last();
        assert forall|c: int| 0 <= c < cd.len() implies 0 <= (#[trigger] cd[c]).out < m by {
            assert(cd[c] == cells[c]);
        }
        cells_outside::<F>(cd, x, m, j);
        assert(0 <= cells[cells.len() - 1].out < m);
    }
}

/// A word whose outputs are the image of its inputs meets the relation.
proof fn relation_met<F: Residue>(
    rows: Seq<Seq<Cell>>,
    inp: int,
    out: int,
    con: int,
    m: nat,
    w: Seq<int>,
    x: Seq<int>,
    c: int,
)
    requires
        cells_in(rows, m),
        forall|k: int| 0 <= k < rows.len() ==> w[inp + k] == #[trigger] x[k],
        forall|j: int| 0 <= j < m ==> #[trigger] image::<F>(rows, x, j) == w[out + j],
    ensures
        syndrome::<F>(relation_entries::<F>(rows, inp, out, con, m), w, c) == 0,
{
    syndrome_matrix::<F>(rows, inp, con, w, x, c);
    syndrome_outputs::<F>(out, con, m, w, c);
    syndrome_concat::<F>(
        matrix_entries(rows, inp, con),
        output_entries::<F>(out, con, m),
        w,
        c,
    );
    image_canon::<F>(rows, x, c - con);
    if con <= c < con + m {
        opposite_cancels::<F>(image::<F>(rows, x, c - con));
    } else {
        image_outside::<F>(rows, x, m, c - con);
        f_units::<F>(0);
    }
}

/// Transposed inner products are canonical.
pub proof fn transposed_dot_canon<F: Residue>(rows: Seq<Seq<Cell>>, x: Seq<int>, p: Seq<int>)
    ensures
        canon::<F>(transposed_dot::<F>(rows, x, p)),
{
    canon_consts::<F>();
    broadcast use fadd_canon;

}

proof fn syndrome_base_row<F: Residue>(
    rows: Seq<Seq<Cell>>,
    p: Seq<int>,
    inp: int,
    col: int,
    w: Seq<int>,
    x: Seq<int>,
    c: int,
)
    requires
        forall|k: int| 0 <= k < rows.len() ==> w[inp + k] == #[trigger] x[k],
    ensures
        syndrome::<F>(base_row_entries::<F>(rows, p, inp, col), w, c) == if c == col {
            transposed_dot::<F>(rows, x, p)
        } else {
            0
        },
    decreases rows.len(),
{
    if rows.len() > 0 {
        let k = rows.len() - 1;
        assert(w[inp + k] == x[k]);
        let rd = rows.drop_last();
        syndrome_base_row::<F>(rd, p, inp, col, w, x, c);
        let coeff = cells_dot::<F>(rows.last(), p);
        let prev = base_row_entries::<F>(rd, p, inp, col);
        if coeff != 0 {
            let e = Entry { row: inp + k, col, value: coeff };
            assert(prev.push(e).drop_last() =~= prev);
        } else {
            transposed_dot_canon::<F>(rd, x, p);
            f_units::<F>(transposed_dot::<F>(rd, x, p));
            ops_red::<F>(x[k], 0);
            assert(x[k] * 0 == 0) by (nonlinear_arith);
            canon_consts::<F>();
        }
    }
}

/// A word that holds the base codeword of its inputs meets the base relation.
proof fn base_met<F: Residue>(
    rows: Seq<Seq<Cell>>,
    m: nat,
    inp: int,
    base: int,
    con: int,
    n: nat,
    w: Seq<int>,
    x: Seq<int>,
    c: int,
)
    requires
        cells_in(rows, m),
        forall|k: int| 0 <= k < rows.len() ==> w[inp + k] == #[trigger] x[k],
        forall|o: int|
            0 <= o < n ==> w[base + o] == #[trigger] reed_solomon::<F>(
                image_vec::<F>(rows, x, m),
                n,
            )[o],
    ensures
        syndrome::<F>(base_entries::<F>(rows, m, inp, base, con, n), w, c) == 0,
    decreases n,
{
    if n > 0 {
        let o = n - 1;
        let y = image_vec::<F>(rows, x, m);
        assert forall|q: int| 0 <= q < o implies w[base + q] == #[trigger] reed_solomon::<F>(
            y,
            o as nat,
        )[q] by {
            assert(w[base + q] == reed_solomon::<F>(y, n)[q]);
        }
        base_met::<F>(rows, m, inp, base, con, o as nat, w, x, c);
        let p = pows::<F>(red::<F>(o + 1), m);
        pows_step::<F>(red::<F>(o + 1), m);
        let prev = base_entries::<F>(rows, m, inp, base, con, o as nat);
        let row = base_row_entries::<F>(rows, p, inp, con + o);
        syndrome_concat::<F>(prev, row, w, c);
        syndrome_base_row::<F>(rows, p, inp, con + o, w, x, c);
        let e = Entry { row: base + o, col: con + o, value: minus_one::<F>() };
        assert((prev + row).push(e).drop_last() =~= prev + row);
        canon_consts::<F>();
        f_units::<F>(0);
        if c == con + o {
            assert(w[base + o] == reed_solomon::<F>(y, n)[o]);
            dot_image::<F>(rows, x, p, m);
            transposed_dot_canon::<F>(rows, x, p);
            f_units::<F>(transposed_dot::<F>(rows, x, p));
            opposite_cancels::<F>(w[base + o]);
        }
    }
}

/// The cells of a well-formed matrix lead to its outputs.
pub proof fn matrix_cells_in<F: PrimeField>(m: SparseMatrix<F>)
    requires
        m.wf(),
    ensures
        cells_in(m.cells(), m.m as nat),
        m.cells().len() == m.n,
{
    assert forall|i: int, k: int| 0 <= i < m.cells().len() && 0 <= k < m.cells()[i].len() implies 0
        <= (#[trigger] m.cells()[i][k]).out < m.m by {
        assert(m.rows@[i]@[k].0 < m.m);
    }
}

/// The growing word keeps what it has.
proof fn word_prefix<F: PrimeField>(code: Brakedown<F>, msg: Seq<int>, t: nat, u: nat)
    requires
        code.wf(),
        msg.len() == code.row_len,
        t <= u <= code.a@.len(),
    ensures
        word_b(code, msg, t) == word_b(code, msg, u).take(b_offset(code, t)),
    decreases u,
{
    word_b_len(code, msg, t);
    if t < u {
        word_prefix(code, msg, t, (u - 1) as nat);
        word_b_len(code, msg, (u - 1) as nat);
        word_b_len(code, msg, u);
        b_offset_mono(code, t, (u - 1) as nat);
        b_offset_mono(code, (u - 1) as nat, u);
        let full = word_b(code, msg, u);
        assert(full.take(b_offset(code, (u - 1) as nat)) =~= word_b(code, msg, (u - 1) as nat));
        assert(full.take(b_offset(code, t)) =~= word_b(code, msg, (u - 1) as nat).take(
            b_offset(code, t),
        ));
    } else {
        assert(word_b(code, msg, u).take(b_offset(code, t)) =~= word_b(code, msg, u));
    }
}

proof fn word_prefix_a<F: PrimeField>(code: Brakedown<F>, msg: Seq<int>, i: nat, j: nat)
    requires
        code.wf(),
        msg.len() == code.row_len,
        i <= j < code.a@.len(),
    ensures
        word_a(code, msg, i) == word_a(code, msg, j).take(a_offset(code.a@, i + 1)),
    decreases j,
{
    word_a_len(code, msg, i);
    if i < j {
        word_prefix_a(code, msg, i, (j - 1) as nat);
        word_a_len(code, msg, (j - 1) as nat);
        word_a_len(code, msg, j);
        a_offset_mono(code.a@, i + 1, j);
        a_offset_mono(code.a@, j, j + 1);
        let full = word_a(code, msg, j);
        assert(full.take(a_offset(code.a@, j)) =~= word_a(code, msg, (j - 1) as nat));
        assert(full.take(a_offset(code.a@, i + 1)) =~= word_a(code, msg, (j - 1) as nat).take(
            a_offset(code.a@, i + 1),
        ));
    } else {
        assert(word_a(code, msg, j).take(a_offset(code.a@, i + 1)) =~= word_a(code, msg, j));
    }
}

/// The stored first words are a prefix of the codeword.
pub proof fn word_a_in_codeword<F: PrimeField>(code: Brakedown<F>, msg: Seq<int>, i: nat)
    requires
        code.wf(),
        msg.len() == code.row_len,
        i < code.a@.len(),
    ensures
        word_a(code, msg, i) == codeword(code, msg).take(a_offset(code.a@, i + 1)),
        a_offset(code.a@, i + 1) <= codeword(code, msg).len(),
{
    let k = code.a@.len();
    word_prefix_a(code, msg, i, (k - 1) as nat);
    word_a_len(code, msg, (k - 1) as nat);
    word_a_len(code, msg, i);
    word_prefix(code, msg, 0, k);
    word_b_len(code, msg, 0);
    word_b_len(code, msg, k);
    a_offset_mono(code.a@, i + 1, k);
    b_offset_mono(code, 0, k);
    let full = codeword(code, msg);
    assert(word_b(code, msg, 0).take(a_offset(code.a@, k)) =~= word_a(code, msg, (k - 1) as nat));
    assert(full.take(a_offset(code.a@, i + 1)) =~= word_a(code, msg, (k - 1) as nat).take(
        a_offset(code.a@, i + 1),
    ));
}

proof fn entries_a_met<F: PrimeField>(code: Brakedown<F>, msg: Seq<int>, i: nat, c: int)
    requires
        code.wf(),
        msg.len() == code.row_len,
        i < code.a@.len(),
    ensures
        syndrome::<F>(entries_a(code, i), codeword(code, msg), c) == 0,
    decreases i,
{
    if i > 0 {
        let d = (i - 1) as nat;
        let w = codeword(code, msg);
        entries_a_met(code, msg, d, c);
        let m = code.a@[d as int];
        assert(m.wf());
        matrix_cells_in(m);
        let inp = a_offset(code.a@, d);
        let out = a_offset(code.a@, i);
        word_a_in_codeword(code, msg, d);
        word_a_in_codeword(code, msg, i);
        word_a_len(code, msg, d);
        word_a_len(code, msg, i);
        let prev = word_a(code, msg, d);
        let next = word_a(code, msg, i);
        let x = prev.subrange(inp, inp + m.n);
        a_offset_mono(code.a@, 0, d);
        assert(code.a@[i as int].n == m.m);
        assert forall|j: int| 0 <= j < m.m implies #[trigger] image::<F>(m.cells(), x, j) == w[out
            + j] by {
            assert(next[out + j] == image_vec::<F>(m.cells(), x, m.m as nat)[j]);
            assert(next[out + j] == w[out + j]);
        }
        assert forall|k: int| 0 <= k < m.n implies w[inp + k] == #[trigger] x[k] by {
            assert(prev[inp + k] == w[inp + k]);
        }
        relation_met::<F>(m.cells(), inp, out, out - code.row_len, m.m as nat, w, x, c);
        syndrome_concat::<F>(
            entries_a(code, d),
            relation_entries::<F>(m.cells(), inp, out, out - code.row_len, m.m as nat),
            w,
            c,
        );
        canon_consts::<F>();
        f_units::<F>(0);
    }
}

proof fn entries_b_met<F: PrimeField>(code: Brakedown<F>, msg: Seq<int>, t: nat, c: int)
    requires
        code.wf(),
        msg.len() == code.row_len,
        t <= code.a@.len(),
    ensures
        syndrome::<F>(entries_b(code, t), codeword(code, msg), c) == 0,
    decreases t,
{
    let k = code.a@.len();
    let w = codeword(code, msg);
    canon_consts::<F>();
    f_units::<F>(0);
    word_prefix(code, msg, t, k);
    word_b_len(code, msg, t);
    word_b_len(code, msg, k);
    b_offset_mono(code, t, k);
    let next = word_b(code, msg, t);
    if t == 0 {
        let last = code.a@[k - 1];
        assert(last.wf());
        matrix_cells_in(last);
        entries_a_met(code, msg, (k - 1) as nat, c);
        let inp = a_offset(code.a@, (k - 1) as nat);
        let base = a_offset(code.a@, k);
        word_a_in_codeword(code, msg, (k - 1) as nat);
        word_a_len(code, msg, (k - 1) as nat);
        a_offset_mono(code.a@, 0, (k - 1) as nat);
        let prev = word_a(code, msg, (k - 1) as nat);
        let x = prev.subrange(inp, inp + last.n);
        let n = code.b@[k - 1].n as nat;
        assert forall|i: int| 0 <= i < last.n implies w[inp + i] == #[trigger] x[i] by {
            assert(prev[inp + i] == w[inp + i]);
        }
        let rs = reed_solomon::<F>(image_vec::<F>(last.cells(), x, last.m as nat), n);
        assert forall|o: int| 0 <= o < n implies w[base + o] == #[trigger] rs[o] by {
            assert(next[base + o] == w[base + o]);
        }
        base_met::<F>(
            last.cells(),
            last.m as nat,
            inp,
            base,
            base - code.row_len,
            n,
            w,
            x,
            c,
        );
        syndrome_concat::<F>(
            entries_a(code, (k - 1) as nat),
            base_entries::<F>(
                last.cells(),
                last.m as nat,
                inp,
                base,
                base - code.row_len,
                n,
            ),
            w,
            c,
        );
    } else {
        let d = (t - 1) as nat;
        entries_b_met(code, msg, d, c);
        let m = code.b@[k - t];
        assert(m.wf());
        matrix_cells_in(m);
        let inp = a_offset(code.a@, (k - d) as nat);
        let out = b_offset(code, d);
        word_prefix(code, msg, d, k);
        word_b_len(code, msg, d);
        b_offset_mono(code, d, k);
        a_offset_mono(code.a@, 0, (k - d) as nat);
        let prev = word_b(code, msg, d);
        assert(code.b@[k - 1 - d] == m);
        let x = prev.subrange(inp, inp + m.n);
        assert forall|j: int| 0 <= j < m.m implies #[trigger] image::<F>(m.cells(), x, j) == w[out
            + j] by {
            assert(next[out + j] == image_vec::<F>(m.cells(), x, m.m as nat)[j]);
            assert(next[out + j] == w[out + j]);
        }
        assert forall|i: int| 0 <= i < m.n implies w[inp + i] == #[trigger] x[i] by {
            assert(prev[inp + i] == w[inp + i]);
        }
        relation_met::<F>(m.cells(), inp, out, out - code.row_len, m.m as nat, w, x, c);
        syndrome_concat::<F>(
            entries_b(code, d),
            relation_entries::<F>(m.cells(), inp, out, out - code.row_len, m.m as nat),
            w,
            c,
        );
    }
}

/// The parity-check matrix annihilates what the encoder returns: every column
/// of the product of a codeword with the matrix is zero.
pub proof fn parity_annihilates_codewords<F: PrimeField>(code: Brakedown<F>, msg: Seq<int>, c: int)
    requires
        code.wf(),
        msg.len() == code.row_len,
    ensures
        syndrome::<F>(parity_entries(code), codeword(code, msg), c) == 0,
{
    entries_b_met(code, msg, code.a@.len(), c);
}

/// The cell of the position that column `c` checks.
pub open spec fn checked_cell<F: Residue>(n: int, c: int) -> Entry {
    Entry { row: n + c, col: c, value: minus_one::<F>() }
}

/// Column `c` holds minus one at row `n + c`, once, and otherwise only cells of
/// earlier rows.
pub open spec fn column_shaped<F: Residue>(entries: Seq<Entry>, n: int, c: int) -> bool {
    exists|d: int|
        {
            &&& 0 <= d < entries.len()
            &&& #[trigger] entries[d] == checked_cell::<F>(n, c)
            &&& forall|k: int|
                0 <= k < entries.len() && k != d && (#[trigger] entries[k]).col == c ==> 0
                    <= entries[k].row < n + c
        }
}

/// All cells are of columns from `lo` to `hi`, and those have their shape.
pub open spec fn columns_shaped<F: Residue>(
    entries: Seq<Entry>,
    n: int,
    lo: int,
    hi: int,
) -> bool {
    &&& forall|k: int| 0 <= k < entries.len() ==> lo <= (#[trigger] entries[k]).col < hi
    &&& forall|c: int| lo <= c < hi ==> #[trigger] column_shaped::<F>(entries, n, c)
}

/// Two portions of columns.
proof fn columns_shaped_concat<F: Residue>(
    x: Seq<Entry>,
    y: Seq<Entry>,
    n: int,
    lo: int,
    mid: int,
    hi: int,
)
    requires
        lo <= mid <= hi,
        columns_shaped::<F>(x, n, lo, mid),
        columns_shaped::<F>(y, n, mid, hi),
    ensures
        columns_shaped::<F>(x + y, n, lo, hi),
{
    let z = x + y;
    assert forall|k: int| 0 <= k < z.len() implies lo <= (#[trigger] z[k]).col < hi by {
        if k < x.len() {
            assert(z[k] == x[k]);
        } else {
            assert(z[k] == y[k - x.len()]);
        }
    }
    assert forall|c: int| lo <= c < hi implies #[trigger] column_shaped::<F>(z, n, c) by {
        if c < mid {
            assert(column_shaped::<F>(x, n, c));
            let d = choose|d: int|
                {
                    &&& 0 <= d < x.len()
                    &&& #[trigger] x[d] == checked_cell::<F>(n, c)
                    &&& forall|k: int|
                        0 <= k < x.len() && k != d && (#[trigger] x[k]).col == c ==> 0 <= x[k].row
                            < n + c
                };
            assert(z[d] == checked_cell::<F>(n, c));
            assert forall|k: int|
                0 <= k < z.len() && k != d && (#[trigger] z[k]).col == c implies 0 <= z[k].row < n
                + c by {
                if k < x.len() {
                    assert(z[k] == x[k]);
                } else {
                    assert(z[k] == y[k - x.len()]);
                }
            }
        } else {
            assert(column_shaped::<F>(y, n, c));
            let d = choose|d: int|
                {
                    &&& 0 <= d < y.len()
                    &&& #[trigger] y[d] == checked_cell::<F>(n, c)
                    &&& forall|k: int|
                        0 <= k < y.len() && k != d && (#[trigger] y[k]).col == c ==> 0 <= y[k].row
                            < n + c
                };
            assert(z[x.len() + d] == checked_cell::<F>(n, c));
            assert forall|k: int|
                0 <= k < z.len() && k != x.len() + d && (#[trigger] z[k]).col == c implies 0
                <= z[k].row < n + c by {
                if k < x.len() {
                    assert(z[k] == x[k]);
                } else {
                    assert(z[k] == y[k - x.len()]);
                }
            }
        }
    }
}

/// The cells of the inputs of a relation are of their rows and of its columns.
proof fn matrix_entries_within(rows: Seq<Seq<Cell>>, inp: int, con: int, m: nat, k: int)
    requires
        cells_in(rows, m),
        0 <= k < matrix_entries(rows, inp, con).len(),
    ensures
        con <= matrix_entries(rows, inp, con)[k].col < con + m,
        inp <= matrix_entries(rows, inp, con)[k].row < inp + rows.len(),
    decreases rows.len(),
{
    let rd = rows.drop_last();
    let prev = matrix_entries(rd, inp, con);
    let i = rows.len() - 1;
    if k < prev.len() {
        assert forall|j: int, c: int| 0 <= j < rd.len() && 0 <= c < rd[j].len() implies 0 <= (
        #[trigger] rd[j][c]).out < m by {
            assert(rd[j][c] == rows[j][c]);
        }
        matrix_entries_within(rd, inp, con, m, k);
        assert(matrix_entries(rows, inp, con)[k] == prev[k]);
    } else {
        let j = k - prev.len();
        assert(matrix_entries(rows, inp, con)[k] == cell_entries(rows.last(), inp + i, con)[j]);
        assert(0 <= rows[i][j].out < m);
    }
}

/// The columns of a relation whose inputs come before its outputs.
proof fn relation_columns_shaped<F: Residue>(
    rows: Seq<Seq<Cell>>,
    inp: int,
    out: int,
    con: int,
    m: nat,
    n: int,
)
    requires
        cells_in(rows, m),
        0 <= inp,
        inp + rows.len() <= out,
        out == n + con,
    ensures
        columns_shaped::<F>(relation_entries::<F>(rows, inp, out, con, m), n, con, con + m),
{
    let x = matrix_entries(rows, inp, con);
    let y = output_entries::<F>(out, con, m);
    let z = relation_entries::<F>(rows, inp, out, con, m);
    assert forall|k: int| 0 <= k < z.len() implies con <= (#[trigger] z[k]).col < con + m by {
        if k < x.len() {
            matrix_entries_within(rows, inp, con, m, k);
            assert(z[k] == x[k]);
        } else {
            assert(z[k] == y[k - x.len()]);
        }
    }
    assert forall|c: int| con <= c < con + m implies #[trigger] column_shaped::<F>(z, n, c) by {
        let d = x.len() + (c - con);
        assert(z[d] == y[c - con]);
        assert(z[d] == checked_cell::<F>(n, c));
        assert forall|k: int|
            0 <= k < z.len() && k != d && (#[trigger] z[k]).col == c implies 0 <= z[k].row < n
            + c by {
            if k < x.len() {
                matrix_entries_within(rows, inp, con, m, k);
                assert(z[k] == x[k]);
            } else {
                assert(z[k] == y[k - x.len()]);
            }
        }
    }
}

/// The cells of one output of the base code are of one column and of the rows of
/// the inputs.
proof fn base_row_within<F: Residue>(
    rows: Seq<Seq<Cell>>,
    p: Seq<int>,
    inp: int,
    col: int,
    k: int,
)
    requires
        0 <= k < base_row_entries::<F>(rows, p, inp, col).len(),
    ensures
        base_row_entries::<F>(rows, p, inp, col)[k].col == col,
        inp <= base_row_entries::<F>(rows, p, inp, col)[k].row < inp + rows.len(),
    decreases rows.len(),
{
    let rd = rows.drop_last();
    let prev = base_row_entries::<F>(rd, p, inp, col);
    if k < prev.len() {
        base_row_within::<F>(rd, p, inp, col, k);
        assert(base_row_entries::<F>(rows, p, inp, col)[k] == prev[k]);
    }
}

/// The columns of the base code.
proof fn base_columns_shaped<F: Residue>(
    rows: Seq<Seq<Cell>>,
    m: nat,
    inp: int,
    base: int,
    con: int,
    outputs: nat,
    n: int,
)
    requires
        0 <= inp,
        inp + rows.len() <= base,
        base == n + con,
    ensures
        columns_shaped::<F>(
            base_entries::<F>(rows, m, inp, base, con, outputs),
            n,
            con,
            con + outputs,
        ),
    decreases outputs,
{
    if outputs > 0 {
        let o = outputs - 1;
        base_columns_shaped::<F>(rows, m, inp, base, con, o as nat, n);
        let p = pows::<F>(red::<F>(o + 1), m);
        let prev = base_entries::<F>(rows, m, inp, base, con, o as nat);
        let row = base_row_entries::<F>(rows, p, inp, con + o);
        let e = Entry { row: base + o, col: con + o, value: minus_one::<F>() };
        let last = row.push(e);
        assert forall|k: int| 0 <= k < last.len() implies con + o <= (#[trigger] last[k]).col < con
            + o + 1 by {
            if k < row.len() {
                base_row_within::<F>(rows, p, inp, con + o, k);
                assert(last[k] == row[k]);
            }
        }
        assert forall|c: int| con + o <= c < con + o + 1 implies #[trigger] column_shaped::<F>(
            last,
            n,
            c,
        ) by {
            let d = row.len() as int;
            assert(last[d] == checked_cell::<F>(n, c));
            assert forall|k: int|
                0 <= k < last.len() && k != d && (#[trigger] last[k]).col == c implies 0
                <= last[k].row < n + c by {
                base_row_within::<F>(rows, p, inp, con + o, k);
                assert(last[k] == row[k]);
            }
        }
        columns_shaped_concat::<F>(prev, last, n, con, con + o, con + o + 1);
        assert(prev + last =~= (prev + row).push(e));
    }
}

/// The columns of the stored levels.
proof fn columns_a_shaped<F: PrimeField>(code: Brakedown<F>, i: nat)
    requires
        code.wf(),
        i < code.a@.len(),
    ensures
        columns_shaped::<F>(
            entries_a(code, i),
            code.row_len as int,
            0,
            a_offset(code.a@, i + 1) - code.row_len,
        ),
    decreases i,
{
    let n = code.row_len as int;
    assert(a_offset(code.a@, 1) == a_offset(code.a@, 0) + code.a@[0].n);
    if i > 0 {
        let d = (i - 1) as nat;
        columns_a_shaped(code, d);
        let m = code.a@[d as int];
        assert(m.wf());
        matrix_cells_in(m);
        let inp = a_offset(code.a@, d);
        let out = a_offset(code.a@, i);
        a_offset_mono(code.a@, 0, d);
        a_offset_mono(code.a@, 1, i);
        assert(code.a@[i as int].n == m.m);
        relation_columns_shaped::<F>(m.cells(), inp, out, out - n, m.m as nat, n);
        columns_shaped_concat::<F>(
            entries_a(code, d),
            relation_entries::<F>(m.cells(), inp, out, out - n, m.m as nat),
            n,
            0,
            out - n,
            out - n + m.m,
        );
    }
}

/// The columns of the base code and of the deepest second matrices.
proof fn columns_b_shaped<F: PrimeField>(code: Brakedown<F>, t: nat)
    requires
        code.wf(),
        t <= code.a@.len(),
    ensures
        columns_shaped::<F>(
            entries_b(code, t),
            code.row_len as int,
            0,
            b_offset(code, t) - code.row_len,
        ),
    decreases t,
{
    let k = code.a@.len();
    let n = code.row_len as int;
    assert(a_offset(code.a@, 1) == a_offset(code.a@, 0) + code.a@[0].n);
    a_offset_mono(code.a@, 1, k);
    if t == 0 {
        let last = code.a@[k - 1];
        assert(last.wf());
        matrix_cells_in(last);
        let inp = a_offset(code.a@, (k - 1) as nat);
        let base = a_offset(code.a@, k);
        let outputs = code.b@[k - 1].n as nat;
        columns_a_shaped(code, (k - 1) as nat);
        a_offset_mono(code.a@, 0, (k - 1) as nat);
        base_columns_shaped::<F>(
            last.cells(),
            last.m as nat,
            inp,
            base,
            base - n,
            outputs,
            n,
        );
        columns_shaped_concat::<F>(
            entries_a(code, (k - 1) as nat),
            base_entries::<F>(last.cells(), last.m as nat, inp, base, base - n, outputs),
            n,
            0,
            base - n,
            base - n + outputs,
        );
    } else {
        let d = (t - 1) as nat;
        columns_b_shaped(code, d);
        let m = code.b@[k - t];
        assert(m.wf());
        matrix_cells_in(m);
        let inp = a_offset(code.a@, (k - d) as nat);
        let out = b_offset(code, d);
        b_offset_mono(code, 0, d);
        a_offset_mono(code.a@, 0, (k - d) as nat);
        assert(code.b@[k - 1 - d] == m);
        relation_columns_shaped::<F>(m.cells(), inp, out, out - n, m.m as nat, n);
        columns_shaped_concat::<F>(
            entries_b(code, d),
            relation_entries::<F>(m.cells(), inp, out, out - n, m.m as nat),
            n,
            0,
            out - n,
            out - n + m.m,
        );
    }
}

/// The parity-check matrix has one column for every position behind the message:
/// minus one at that position, once, and otherwise only cells of earlier ones.
pub proof fn parity_columns_are_shaped<F: PrimeField>(code: Brakedown<F>)
    requires
        code.wf(),
    ensures
        columns_shaped::<F>(
            parity_entries(code),
            code.row_len as int,
            0,
            code.codeword_len - code.row_len,
        ),
{
    columns_b_shaped(code, code.a@.len());
}

/// A syndrome depends only on the rows that its column has cells of.
proof fn syndrome_agrees<F: Residue>(
    entries: Seq<Entry>,
    w: Seq<int>,
    v: Seq<int>,
    top: int,
    c: int,
)
    requires
        forall|k: int|
            0 <= k < entries.len() && (#[trigger] entries[k]).col == c ==> 0 <= entries[k].row
                < top,
        forall|i: int| 0 <= i < top ==> w[i] == v[i],
    ensures
        syndrome::<F>(entries, w, c) == syndrome::<F>(entries, v, c),
    decreases entries.len(),
{
    if entries.len() > 0 {
        let front = entries.drop_last();
        assert forall|k: int| 0 <= k < front.len() && (#[trigger] front[k]).col == c implies 0
            <= front[k].row < top by {
            assert(front[k] == entries[k]);
        }
        syndrome_agrees::<F>(front, w, v, top, c);
        assert(entries.last() == entries[entries.len() - 1]);
    }
}

/// The checked position can be taken out of a syndrome.
proof fn syndrome_splits<F: Residue>(entries: Seq<Entry>, w: Seq<int>, d: int, c: int)
    requires
        0 <= d < entries.len(),
        entries[d].col == c,
    ensures
        syndrome::<F>(entries, w, c) == fadd::<F>(
            syndrome::<F>(entries.take(d) + entries.skip(d + 1), w, c),
            fmul::<F>(w[entries[d].row], entries[d].value),
        ),
{
    let x = entries.take(d);
    let one = seq![entries[d]];
    let y = entries.skip(d + 1);
    let term = fmul::<F>(w[entries[d].row], entries[d].value);
    assert(entries =~= x + one + y);
    syndrome_concat::<F>(x + one, y, w, c);
    syndrome_concat::<F>(x, one, w, c);
    syndrome_concat::<F>(x, y, w, c);
    assert(one.drop_last() =~= Seq::empty());
    fmul_canon::<F>(w[entries[d].row], entries[d].value);
    f_units::<F>(term);
    assert(syndrome::<F>(one.drop_last(), w, c) == 0);
    assert(syndrome::<F>(one, w, c) == fadd::<F>(0, term));
    fadd_comm::<F>(0, term);
    let (sx, sy) = (syndrome::<F>(x, w, c), syndrome::<F>(y, w, c));
    fadd_assoc::<F>(sx, term, sy);
    fadd_comm::<F>(term, sy);
    fadd_assoc::<F>(sx, sy, term);
}

/// A value is known from what its opposite adds up to.
proof fn opposite_determines<F: Residue>(r: int, a: int, b: int)
    requires
        canon::<F>(a),
        canon::<F>(b),
        fadd::<F>(r, fmul::<F>(a, minus_one::<F>())) == 0,
        fadd::<F>(r, fmul::<F>(b, minus_one::<F>())) == 0,
    ensures
        a == b,
{
    let (x, y) = (fmul::<F>(a, minus_one::<F>()), fmul::<F>(b, minus_one::<F>()));
    opposite_cancels::<F>(a);
    opposite_cancels::<F>(b);
    fadd_assoc::<F>(r, x, a);
    fadd_comm::<F>(x, a);
    fadd_comm::<F>(0, a);
    f_units::<F>(a);
    fadd_assoc::<F>(r, y, b);
    fadd_comm::<F>(y, b);
    fadd_comm::<F>(0, b);
    f_units::<F>(b);
}

/// Words that agree on the message and pass the check agree up to any length.
proof fn passing_words_agree<F: PrimeField>(
    code: Brakedown<F>,
    w: Seq<int>,
    v: Seq<int>,
    c: nat,
)
    requires
        code.wf(),
        w.len() == code.codeword_len,
        v.len() == code.codeword_len,
        vcanon::<F>(w),
        vcanon::<F>(v),
        c <= code.codeword_len - code.row_len,
        forall|i: int| 0 <= i < code.row_len ==> w[i] == v[i],
        forall|j: int|
            0 <= j < code.codeword_len - code.row_len ==> #[trigger] syndrome::<F>(
                parity_entries(code),
                w,
                j,
            ) == 0,
        forall|j: int|
            0 <= j < code.codeword_len - code.row_len ==> #[trigger] syndrome::<F>(
                parity_entries(code),
                v,
                j,
            ) == 0,
    ensures
        forall|i: int| 0 <= i < code.row_len + c ==> w[i] == v[i],
    decreases c,
{
    if c > 0 {
        let j = c - 1;
        let n = code.row_len as int;
        let entries = parity_entries(code);
        passing_words_agree(code, w, v, j as nat);
        parity_columns_are_shaped(code);
        assert(column_shaped::<F>(entries, n, j));
        let d = choose|d: int|
            {
                &&& 0 <= d < entries.len()
                &&& #[trigger] entries[d] == checked_cell::<F>(n, j)
                &&& forall|k: int|
                    0 <= k < entries.len() && k != d && (#[trigger] entries[k]).col == j ==> 0
                        <= entries[k].row < n + j
            };
        syndrome_splits::<F>(entries, w, d, j);
        syndrome_splits::<F>(entries, v, d, j);
        let rest = entries.take(d) + entries.skip(d + 1);
        assert forall|k: int| 0 <= k < rest.len() && (#[trigger] rest[k]).col == j implies 0
            <= rest[k].row < n + j by {
            if k < d {
                assert(rest[k] == entries[k]);
            } else {
                assert(rest[k] == entries[k + 1]);
            }
        }
        syndrome_agrees::<F>(rest, w, v, n + j, j);
        assert(syndrome::<F>(entries, w, j) == 0);
        assert(syndrome::<F>(entries, v, j) == 0);
        opposite_determines::<F>(syndrome::<F>(rest, w, j), w[n + j], v[n + j]);
    }
}

/// The growing word of a canonical message is canonical.
proof fn word_a_canon<F: PrimeField>(code: Brakedown<F>, msg: Seq<int>, i: nat)
    requires
        vcanon::<F>(msg),
    ensures
        vcanon::<F>(word_a(code, msg, i)),
    decreases i,
{
    if i > 0 {
        let w = word_a(code, msg, (i - 1) as nat);
        let m = code.a@[i - 1];
        let off = a_offset(code.a@, (i - 1) as nat);
        let x = w.subrange(off, off + m.n);
        word_a_canon(code, msg, (i - 1) as nat);
        let next = word_a(code, msg, i);
        assert forall|j: int| 0 <= j < next.len() implies canon::<F>(#[trigger] next[j]) by {
            if j < w.len() {
                assert(next[j] == w[j]);
            } else {
                image_canon::<F>(m.cells(), x, j - w.len());
            }
        }
    }
}

/// Codewords of canonical messages are canonical.
proof fn word_b_canon<F: PrimeField>(code: Brakedown<F>, msg: Seq<int>, t: nat)
    requires
        vcanon::<F>(msg),
    ensures
        vcanon::<F>(word_b(code, msg, t)),
    decreases t,
{
    let k = code.a@.len();
    let next = word_b(code, msg, t);
    if t == 0 {
        let w = word_a(code, msg, (k - 1) as nat);
        word_a_canon(code, msg, (k - 1) as nat);
        let last = code.a@[k - 1];
        let off = a_offset(code.a@, (k - 1) as nat);
        let y = image_vec::<F>(last.cells(), w.subrange(off, off + last.n), last.m as nat);
        assert forall|j: int| 0 <= j < next.len() implies canon::<F>(#[trigger] next[j]) by {
            if j < w.len() {
                assert(next[j] == w[j]);
            } else {
                let o = j - w.len();
                dot_canon::<F>(y, pows::<F>(red::<F>(o + 1), y.len()));
            }
        }
    } else {
        let w = word_b(code, msg, (t - 1) as nat);
        let m = code.b@[k - t];
        let off = a_offset(code.a@, (k - (t - 1)) as nat);
        let x = w.subrange(off, off + m.n);
        word_b_canon(code, msg, (t - 1) as nat);
        assert forall|j: int| 0 <= j < next.len() implies canon::<F>(#[trigger] next[j]) by {
            if j < w.len() {
                assert(next[j] == w[j]);
            } else {
                image_canon::<F>(m.cells(), x, j - w.len());
            }
        }
    }
}

/// A word passes the check exactly if it is the encoding of its first part: every
/// column of its product with the parity-check matrix is zero if and only if the
/// encoder makes the word of its first `row_len` entries.
pub proof fn word_passes_iff_codeword<F: PrimeField>(code: Brakedown<F>, w: Seq<int>)
    requires
        code.wf(),
        w.len() == code.codeword_len,
        vcanon::<F>(w),
    ensures
        (forall|c: int|
            0 <= c < code.codeword_len - code.row_len ==> #[trigger] syndrome::<F>(
                parity_entries(code),
                w,
                c,
            ) == 0) <==> w == codeword(code, w.take(code.row_len as int)),
{
    let n = code.row_len as int;
    let k = code.a@.len();
    assert(a_offset(code.a@, 1) == a_offset(code.a@, 0) + code.a@[0].n);
    a_offset_mono(code.a@, 1, k);
    b_offset_mono(code, 0, k);
    let msg = w.take(n);
    assert forall|i: int| 0 <= i < msg.len() implies canon::<F>(#[trigger] msg[i]) by {
        assert(msg[i] == w[i]);
    }
    let v = codeword(code, msg);
    word_b_len(code, msg, k);
    word_b_canon(code, msg, k);
    word_a_in_codeword(code, msg, 0);
    assert forall|c: int| 0 <= c < code.codeword_len - n implies #[trigger] syndrome::<F>(
        parity_entries(code),
        v,
        c,
    ) == 0 by {
        parity_annihilates_codewords(code, msg, c);
    }
    assert forall|i: int| 0 <= i < n implies w[i] == v[i] by {
        assert(v.take(n)[i] == msg[i]);
    }
    if forall|c: int|
        0 <= c < code.codeword_len - n ==> #[trigger] syndrome::<F>(
            parity_entries(code),
            w,
            c,
        ) == 0 {
        passing_words_agree(code, w, v, (code.codeword_len - n) as nat);
        assert(w =~= v);
    }
}

/// Every cell lies in a matrix of the given size.
pub open spec fn entries_within<F: PrimeField>(
    entries: Seq<SparseEntry<F>>,
    num_rows: nat,
    num_cols: nat,
) -> bool {
    forall|k: int|
        0 <= k < entries.len() ==> (#[trigger] entries[k]).row < num_rows && entries[k].col
            < num_cols
}

/// Appends the cells of a relation.
fn push_relation<F: PrimeField>(
    entries: &mut Vec<SparseEntry<F>>,
    matrix: &SparseMatrix<F>,
    inp: usize,
    out: usize,
    con: usize,
    Ghost(size): Ghost<(nat, nat)>,
)
    requires
        matrix.wf(),
        inp + matrix.n <= size.0,
        out + matrix.m <= size.0,
        con + matrix.m <= size.1,
        size.0 <= usize::MAX,
        size.1 <= usize::MAX,
        entries_within(old(entries)@, size.0, size.1),
    ensures
        entries_of(final(entries)@) == entries_of(old(entries)@) + relation_entries::<F>(
            matrix.cells(),
            inp as int,
            out as int,
            con as int,
            matrix.m as nat,
        ),
        entries_within(final(entries)@, size.0, size.1),
{
    broadcast use entries_push;

    let ghost start = entries_of(entries@);
    let ghost rows = matrix.cells();
    let mut i: usize = 0;
    assert(entries_of(entries@) =~= start + matrix_entries(rows.take(0), inp as int, con as int));
    while i < matrix.n
        invariant
            i <= matrix.n,
            matrix.wf(),
            rows == matrix.cells(),
            inp + matrix.n <= size.0,
            con + matrix.m <= size.1,
            size.0 <= usize::MAX,
            size.1 <= usize::MAX,
            entries_within(entries@, size.0, size.1),
            entries_of(entries@) == start + matrix_entries(
                rows.take(i as int),
                inp as int,
                con as int,
            ),
        decreases matrix.n - i,
    {
        let ghost before = entries_of(entries@);
        let ghost cells = rows[i as int];
        let mut k: usize = 0;
        assert(entries_of(entries@) =~= before + cell_entries(
            cells.take(0),
            inp + i,
            con as int,
        ));
        while k < matrix.rows[i].len()
            invariant
                i < matrix.n,
                matrix.wf(),
                cells == cells_of(matrix.rows@[i as int]@),
                k <= matrix.rows@[i as int]@.len(),
                inp + matrix.n <= size.0,
                con + matrix.m <= size.1,
                size.0 <= usize::MAX,
                size.1 <= usize::MAX,
                entries_within(entries@, size.0, size.1),
                entries_of(entries@) == before + cell_entries(
                    cells.take(k as int),
                    inp + i,
                    con as int,
                ),
            decreases matrix.rows@[i as int]@.len() - k,
        {
            broadcast use entries_push;

            let cell = matrix.rows[i][k];
            assert(matrix.rows@[i as int]@[k as int].0 < matrix.m);
            entries.push(SparseEntry { row: inp + i, col: con + cell.0, value: cell.1 });
            k = k + 1;
            assert(entries_of(entries@) =~= before + cell_entries(
                cells.take(k as int),
                inp + i,
                con as int,
            ));
        }
        proof {
            assert(cells.take(k as int) =~= cells);
            let next = rows.take(i as int + 1);
            assert(next.drop_last() =~= rows.take(i as int));
            assert(entries_of(entries@) =~= start + matrix_entries(next, inp as int, con as int));
        }
        i = i + 1;
    }
    assert(rows.take(i as int) =~= rows);
    let ghost middle = entries_of(entries@);
    let minus = F::zero().minus(F::one());
    let mut j: usize = 0;
    assert(entries_of(entries@) =~= middle + output_entries::<F>(out as int, con as int, 0));
    while j < matrix.m
        invariant
            j <= matrix.m,
            out + matrix.m <= size.0,
            con + matrix.m <= size.1,
            size.0 <= usize::MAX,
            size.1 <= usize::MAX,
            minus.val() == minus_one::<F>(),
            entries_within(entries@, size.0, size.1),
            entries_of(entries@) == middle + output_entries::<F>(
                out as int,
                con as int,
                j as nat,
            ),
        decreases matrix.m - j,
    {
        broadcast use entries_push;

        entries.push(SparseEntry { row: out + j, col: con + j, value: minus });
        j = j + 1;
        assert(entries_of(entries@) =~= middle + output_entries::<F>(
            out as int,
            con as int,
            j as nat,
        ));
    }
    assert(entries_of(entries@) =~= start + relation_entries::<F>(
        rows,
        inp as int,
        out as int,
        con as int,
        matrix.m as nat,
    ));
}

/// The coefficient with which an input enters an output of the base code.
fn base_coefficient<F: PrimeField>(cells: &[(usize, F)], p: &[F]) -> (r: F)
    requires
        forall|k: int| 0 <= k < cells@.len() ==> (#[trigger] cells@[k]).0 < p@.len(),
    ensures
        r.val() == cells_dot::<F>(cells_of(cells@), vals(p@)),
{
    let ghost c = cells_of(cells@);
    let mut acc = F::zero();
    let mut k: usize = 0;
    while k < cells.len()
        invariant
            k <= cells@.len(),
            c == cells_of(cells@),
            forall|k: int| 0 <= k < cells@.len() ==> (#[trigger] cells@[k]).0 < p@.len(),
            acc.val() == cells_dot::<F>(c.take(k as int), vals(p@)),
        decreases cells@.len() - k,
    {
        let cell = cells[k];
        assert(cells@[k as int].0 < p@.len());
        acc = acc.plus(cell.1.times(p[cell.0]));
        proof {
            let next = c.take(k as int + 1);
            assert(next.drop_last() =~= c.take(k as int));
            assert(next.last() == c[k as int]);
        }
        k = k + 1;
    }
    assert(c.take(k as int) =~= c);
    acc
}

/// Appends the cells of the base code.
fn push_base<F: PrimeField>(
    entries: &mut Vec<SparseEntry<F>>,
    matrix: &SparseMatrix<F>,
    inp: usize,
    base: usize,
    con: usize,
    n: usize,
    Ghost(size): Ghost<(nat, nat)>,
)
    requires
        matrix.wf(),
        inp + matrix.n <= size.0,
        base + n <= size.0,
        con + n <= size.1,
        size.0 <= usize::MAX,
        size.1 <= usize::MAX,
        entries_within(old(entries)@, size.0, size.1),
    ensures
        entries_of(final(entries)@) == entries_of(old(entries)@) + base_entries::<F>(
            matrix.cells(),
            matrix.m as nat,
            inp as int,
            base as int,
            con as int,
            n as nat,
        ),
        entries_within(final(entries)@, size.0, size.1),
{
    let ghost start = entries_of(entries@);
    let ghost rows = matrix.cells();
    let ghost m = matrix.m as nat;
    let minus = F::zero().minus(F::one());
    let mut o: usize = 0;
    assert(entries_of(entries@) =~= start + base_entries::<F>(
        rows,
        m,
        inp as int,
        base as int,
        con as int,
        0,
    ));
    while o < n
        invariant
            o <= n,
            matrix.wf(),
            rows == matrix.cells(),
            m == matrix.m,
            inp + matrix.n <= size.0,
            base + n <= size.0,
            con + n <= size.1,
            size.0 <= usize::MAX,
            size.1 <= usize::MAX,
            minus.val() == minus_one::<F>(),
            entries_within(entries@, size.0, size.1),
            entries_of(entries@) == start + base_entries::<F>(
                rows,
                m,
                inp as int,
                base as int,
                con as int,
                o as nat,
            ),
        decreases n - o,
    {
        broadcast use entries_push;

        let x = F::from_u64((o + 1) as u64);
        let powers = powers(x, matrix.m);
        let ghost p = vals(powers@);
        proof {
            assert(x.val() == red::<F>(o + 1)) by {
                reveal(red);
            }
            pows_step::<F>(x.val(), m);
            assert(p.len() == m);
        }
        let ghost before = entries_of(entries@);
        let mut i: usize = 0;
        assert(entries_of(entries@) =~= before + base_row_entries::<F>(
            rows.take(0),
            p,
            inp as int,
            con + o,
        ));
        while i < matrix.n
            invariant
                i <= matrix.n,
                o < n,
                matrix.wf(),
                rows == matrix.cells(),
                p == vals(powers@),
                p.len() == matrix.m,
                inp + matrix.n <= size.0,
                con + n <= size.1,
                size.0 <= usize::MAX,
                size.1 <= usize::MAX,
                entries_within(entries@, size.0, size.1),
                entries_of(entries@) == before + base_row_entries::<F>(
                    rows.take(i as int),
                    p,
                    inp as int,
                    con + o,
                ),
            decreases matrix.n - i,
        {
            broadcast use entries_push;

            proof {
                assert forall|k: int| 0 <= k < matrix.rows@[i as int]@.len() implies (
                #[trigger] matrix.rows@[i as int]@[k]).0 < powers@.len() by {
                    assert(matrix.rows@[i as int]@[k].0 < matrix.m);
                    assert(p.len() == powers@.len());
                }
                let next = rows.take(i as int + 1);
                assert(next.drop_last() =~= rows.take(i as int));
                assert(next.last() == cells_of(matrix.rows@[i as int]@));
            }
            let coeff = base_coefficient(matrix.rows[i].as_slice(), &powers);
            if !coeff.equals(F::zero()) {
                entries.push(SparseEntry { row: inp + i, col: con + o, value: coeff });
            }
            i = i + 1;
            assert(entries_of(entries@) =~= before + base_row_entries::<F>(
                rows.take(i as int),
                p,
                inp as int,
                con + o,
            ));
        }
        assert(rows.take(i as int) =~= rows);
        entries.push(SparseEntry { row: base + o, col: con + o, value: minus });
        o = o + 1;
        assert(entries_of(entries@) =~= start + base_entries::<F>(
            rows,
            m,
            inp as int,
            base as int,
            con as int,
            o as nat,
        ));
    }
}

/// The nonzero cells of the parity-check matrix of a code: level by level, the
/// stored first images, the base code, then the second images from the deepest
/// level outwards.
pub fn parity_check_entries<F: PrimeField>(code: &Brakedown<F>) -> (r: Vec<SparseEntry<F>>)
    requires
        code.wf(),
    ensures
        entries_of(r@) == parity_entries(*code),
        entries_within(
            r@,
            code.codeword_len as nat,
            (code.codeword_len - code.row_len) as nat,
        ),
{
    let ghost size = (code.codeword_len as nat, (code.codeword_len - code.row_len) as nat);
    let k: usize = code.a.len();
    let mut entries: Vec<SparseEntry<F>> = Vec::new();
    let mut constraint: usize = 0;
    let mut input_offset: usize = 0;
    proof {
        b_offset_mono(*code, 0, k as nat);
        a_offset_mono(code.a@, 1, k as nat);
        assert(a_offset(code.a@, 1) == a_offset(code.a@, 0) + code.a@[0].n);
        assert(entries_of(entries@) =~= entries_a(*code, 0));
    }
    let mut i: usize = 0;
    while i < k - 1
        invariant
            i <= k - 1,
            k == code.a@.len(),
            code.wf(),
            size == (code.codeword_len as nat, (code.codeword_len - code.row_len) as nat),
            code.row_len <= code.codeword_len,
            a_offset(code.a@, k as nat) <= code.codeword_len,
            input_offset == a_offset(code.a@, i as nat),
            constraint == a_offset(code.a@, (i + 1) as nat) - code.row_len,
            entries_within(entries@, size.0, size.1),
            entries_of(entries@) == entries_a(*code, i as nat),
        decreases k - i,
    {
        let matrix = &code.a[i];
        proof {
            assert(code.a@[i as int].wf());
            assert(code.a@[i + 1].n == matrix.m);
            a_offset_mono(code.a@, (i + 2) as nat, k as nat);
            a_offset_mono(code.a@, 0, i as nat);
        }
        let output_offset: usize = input_offset + matrix.n;
        push_relation(
            &mut entries,
            matrix,
            input_offset,
            output_offset,
            constraint,
            Ghost(size),
        );
        constraint = constraint + matrix.m;
        input_offset = output_offset;
        i = i + 1;
    }
    let last = &code.a[k - 1];
    let base_len: usize = code.b[k - 1].n;
    let base_offset: usize = input_offset + last.n;
    proof {
        assert(code.a@[k - 1].wf());
        a_offset_mono(code.a@, 0, (k - 1) as nat);
    }
    push_base(
        &mut entries,
        last,
        input_offset,
        base_offset,
        constraint,
        base_len,
        Ghost(size),
    );
    constraint = constraint + base_len;
    let mut output_offset: usize = base_offset + base_len;
    let mut encoded_input_offset: usize = base_offset;
    let mut t: usize = 0;
    while t < k
        invariant
            t <= k,
            k == code.a@.len(),
            code.wf(),
            size == (code.codeword_len as nat, (code.codeword_len - code.row_len) as nat),
            code.row_len <= code.codeword_len,
            encoded_input_offset == a_offset(code.a@, (k - t) as nat),
            output_offset == b_offset(*code, t as nat),
            constraint == output_offset - code.row_len,
            entries_within(entries@, size.0, size.1),
            entries_of(entries@) == entries_b(*code, t as nat),
        decreases k - t,
    {
        let matrix = &code.b[k - 1 - t];
        proof {
            assert(code.b@[k - 1 - t].wf());
            b_offset_mono(*code, (t + 1) as nat, k as nat);
            a_offset_mono(code.a@, 0, (k - t - 1) as nat);
        }
        push_relation(
            &mut entries,
            matrix,
            encoded_input_offset,
            output_offset,
            constraint,
            Ghost(size),
        );
        constraint = constraint + matrix.m;
        output_offset = output_offset + matrix.m;
        encoded_input_offset = encoded_input_offset - code.a[k - 1 - t].n;
        t = t + 1;
    }
    entries
}

} // verus!
