//! Commitments bind: what two commitments with one root hold is the same, or the
//! hash function has a collision.

use crate::brakingbase::{padded_leaves, BrakingBaseCommitment, BrakingBaseProverParam};
use crate::field::{
    canon, le_bytes, le_bytes_determine, le_bytes_digit, le_bytes_len, PrimeField, Residue,
};
use crate::hash::{collides, collision, HashFunction};
use crate::linear::{column, mat, mat_canon, mcanon, rect, vcanon};
use crate::merkle::{
    climb, climb_own_path, column_bytes, column_leaves, layers_shape, leaf, next_layer, node, path,
    root, tree_view,
};
use crate::mle::{exp2, log2};
use crate::parity::word_a_in_codeword;
use crate::qa_code::{encode_is_systematic, encode_rows, is_pow2, rows_of};
use crate::qapcs::{MultilinearQAPCSCommitment, MultilinearQAPCSParams};
use crate::quasar::tree_over;
use crate::spark_memory::next_pow2_is_pow2;
use vstd::arithmetic::power::pow;
use vstd::prelude::*;

verus! {

/// The encoding of a column has all bytes of all of its entries, in their order:
/// byte `j` of entry `i` is digit `j` of that entry to the base 256.
pub proof fn column_bytes_digits<F: Residue>(col: Seq<int>, i: int, j: int)
    requires
        vcanon::<F>(col),
        0 <= i < col.len(),
        0 <= j < F::repr_len(),
    ensures
        column_bytes::<F>(col).len() == col.len() * F::repr_len(),
        0 <= i * F::repr_len() + j < column_bytes::<F>(col).len(),
        column_bytes::<F>(col)[i * F::repr_len() + j] as int == (col[i] / pow(256, j as nat)) % 256,
    decreases col.len(),
{
    let n = F::repr_len();
    let k = col.len() - 1;
    let front = col.drop_last();
    column_bytes_len::<F>(col);
    column_bytes_len::<F>(front);
    assert(canon::<F>(col[i]));
    assert(i * n + j < col.len() * n && 0 <= i * n) by (nonlinear_arith)
        requires
            0 <= i < col.len(),
            0 <= j < n,
    ;
    if i < k {
        assert forall|t: int| 0 <= t < front.len() implies canon::<F>(#[trigger] front[t]) by {
            assert(front[t] == col[t]);
        }
        column_bytes_digits::<F>(front, i, j);
    } else {
        le_bytes_digit(col[i], n, j as nat);
    }
}

/// The encoding of a column has as many bytes as its entries together.
pub proof fn column_bytes_len<F: Residue>(col: Seq<int>)
    ensures
        column_bytes::<F>(col).len() == col.len() * F::repr_len(),
    decreases col.len(),
{
    let n = F::repr_len();
    if col.len() > 0 {
        column_bytes_len::<F>(col.drop_last());
        le_bytes_len(col.last(), n);
        assert((col.len() - 1) * n + n == col.len() * n) by (nonlinear_arith);
    } else {
        assert(0 * n == 0) by (nonlinear_arith);
    }
}

/// The bytes that are hashed for a column determine the column.
pub proof fn column_bytes_determine<F: Residue>(a: Seq<int>, b: Seq<int>)
    requires
        vcanon::<F>(a),
        vcanon::<F>(b),
        a.len() == b.len(),
        column_bytes::<F>(a) == column_bytes::<F>(b),
    ensures
        a == b,
    decreases a.len(),
{
    if a.len() > 0 {
        let n = F::repr_len();
        let (x, y) = (a.drop_last(), b.drop_last());
        column_bytes_len::<F>(x);
        column_bytes_len::<F>(y);
        le_bytes_len(a.last(), n);
        le_bytes_len(b.last(), n);
        let m = column_bytes::<F>(x).len() as int;
        assert(column_bytes::<F>(x) =~= column_bytes::<F>(a).take(m));
        assert(column_bytes::<F>(y) =~= column_bytes::<F>(b).take(m));
        assert(le_bytes(a.last(), n) =~= column_bytes::<F>(a).skip(m));
        assert(le_bytes(b.last(), n) =~= column_bytes::<F>(b).skip(m));
        assert forall|t: int| 0 <= t < x.len() implies canon::<F>(#[trigger] x[t]) by {
            assert(x[t] == a[t]);
        }
        assert forall|t: int| 0 <= t < y.len() implies canon::<F>(#[trigger] y[t]) by {
            assert(y[t] == b[t]);
        }
        column_bytes_determine::<F>(x, y);
        F::lemma_repr();
        assert(canon::<F>(a[a.len() - 1]) && canon::<F>(b[b.len() - 1]));
        le_bytes_determine(a.last(), b.last(), n);
        assert(a =~= x.push(a.last()));
        assert(b =~= y.push(b.last()));
    } else {
        assert(a =~= b);
    }
}

/// Byte strings with one digest are the same, or collide.
pub proof fn digest_binds<H: HashFunction>(x: Seq<u8>, y: Seq<u8>)
    requires
        H::hashed(x) == H::hashed(y),
    ensures
        x == y || collision::<H>(),
{
    if x != y {
        assert(collides::<H>(x, y));
    }
}

/// Columns with one leaf are the same.
pub proof fn leaf_binds<F: Residue, H: HashFunction>(a: Seq<int>, b: Seq<int>)
    requires
        vcanon::<F>(a),
        vcanon::<F>(b),
        a.len() == b.len(),
        leaf::<F, H>(a) == leaf::<F, H>(b),
    ensures
        a == b || collision::<H>(),
{
    digest_binds::<H>(column_bytes::<F>(a), column_bytes::<F>(b));
    if column_bytes::<F>(a) == column_bytes::<F>(b) {
        column_bytes_determine::<F>(a, b);
    }
}

/// Nodes with one digest have the same children.
pub proof fn node_binds<H: HashFunction>(
    a: H::Output,
    b: H::Output,
    c: H::Output,
    d: H::Output,
)
    requires
        node::<H>(a, b) == node::<H>(c, d),
    ensures
        (a == c && b == d) || collision::<H>(),
{
    let (x, y) = (H::digest_bytes(a) + H::digest_bytes(b), H::digest_bytes(c) + H::digest_bytes(d));
    digest_binds::<H>(x, y);
    H::lemma_digest(a, c);
    H::lemma_digest(b, d);
    if x == y {
        let n = H::digest_len() as int;
        assert(H::digest_bytes(a) =~= x.take(n));
        assert(H::digest_bytes(c) =~= y.take(n));
        assert(H::digest_bytes(b) =~= x.skip(n));
        assert(H::digest_bytes(d) =~= y.skip(n));
    }
}

/// A root binds all leaves: as many leaves with the same root are the same leaves.
pub proof fn root_binds<H: HashFunction>(a: Seq<H::Output>, b: Seq<H::Output>)
    requires
        is_pow2(a.len() as int),
        a.len() == b.len(),
        root::<H>(a) == root::<H>(b),
    ensures
        a == b || collision::<H>(),
    decreases a.len(),
{
    if a.len() <= 1 {
        assert(a =~= b);
    } else {
        let (x, y) = (next_layer::<H>(a), next_layer::<H>(b));
        root_binds::<H>(x, y);
        if x == y && !collision::<H>() {
            assert forall|i: int| 0 <= i < a.len() implies a[i] == b[i] by {
                let h = i / 2;
                assert(x[h] == y[h]);
                node_binds::<H>(a[2 * h], a[2 * h + 1], b[2 * h], b[2 * h + 1]);
            }
            assert(a =~= b);
        }
    }
}

/// From one root one place leads down to one node along one path.
pub proof fn path_binds<H: HashFunction>(
    a: H::Output,
    p: Seq<H::Output>,
    b: H::Output,
    q: Seq<H::Output>,
    index: int,
)
    requires
        p.len() == q.len(),
        climb::<H>(a, p, index) == climb::<H>(b, q, index),
    ensures
        (a == b && p == q) || collision::<H>(),
    decreases p.len(),
{
    if p.len() == 0 {
        assert(p =~= q);
    } else {
        let (s, t) = (p[0], q[0]);
        let (x, y) = if index % 2 == 0 {
            (node::<H>(a, s), node::<H>(b, t))
        } else {
            (node::<H>(s, a), node::<H>(t, b))
        };
        path_binds::<H>(x, p.drop_first(), y, q.drop_first(), index / 2);
        if x == y {
            if index % 2 == 0 {
                node_binds::<H>(a, s, b, t);
            } else {
                node_binds::<H>(s, a, t, b);
            }
        }
        assert(p =~= seq![s] + p.drop_first());
        assert(q =~= seq![t] + q.drop_first());
    }
}

/// What leads to the root of a tree along a path of its depth is the leaf at that
/// place, and the path is that of the tree.
pub proof fn opened_leaf_is_committed<H: HashFunction>(
    leaves: Seq<H::Output>,
    index: int,
    x: H::Output,
    siblings: Seq<H::Output>,
)
    requires
        is_pow2(leaves.len() as int),
        0 <= index < leaves.len(),
        siblings.len() == log2(leaves.len() as int),
        climb::<H>(x, siblings, index) == root::<H>(leaves),
    ensures
        (x == leaves[index] && siblings == path::<H>(leaves, index)) || collision::<H>(),
{
    climb_own_path::<H>(leaves, index);
    path_binds::<H>(x, siblings, leaves[index], path::<H>(leaves, index), index);
}

/// A column that leads to the root over the columns of a matrix is the column of
/// the matrix at that place.
pub proof fn opened_column_is_committed<F: Residue, H: HashFunction>(
    rows: Seq<Seq<int>>,
    n: nat,
    index: int,
    col: Seq<int>,
    siblings: Seq<H::Output>,
)
    requires
        is_pow2(n as int),
        0 <= index < n,
        rect(rows, n),
        mcanon::<F>(rows),
        vcanon::<F>(col),
        col.len() == rows.len(),
        siblings.len() == log2(n as int),
        climb::<H>(leaf::<F, H>(col), siblings, index) == root::<H>(
            column_leaves::<F, H>(rows, n),
        ),
    ensures
        col == column(rows, index) || collision::<H>(),
{
    let leaves = column_leaves::<F, H>(rows, n);
    opened_leaf_is_committed::<H>(leaves, index, leaf::<F, H>(col), siblings);
    column_canon::<F>(rows, n, index);
    if !collision::<H>() {
        leaf_binds::<F, H>(col, column(rows, index));
    }
}

/// Columns of canonical matrices are canonical.
pub proof fn column_canon<F: Residue>(rows: Seq<Seq<int>>, n: nat, j: int)
    requires
        rect(rows, n),
        mcanon::<F>(rows),
        0 <= j < n,
    ensures
        vcanon::<F>(column(rows, j)),
{
    let c = column(rows, j);
    assert forall|i: int| 0 <= i < c.len() implies canon::<F>(#[trigger] c[i]) by {
        assert(rows[i].len() == n && vcanon::<F>(rows[i]));
        assert(canon::<F>(rows[i][j]));
    }
}

/// The root over the columns of a matrix binds every entry of the matrix.
pub proof fn matrix_binds<F: Residue, H: HashFunction>(
    a: Seq<Seq<int>>,
    b: Seq<Seq<int>>,
    n: nat,
)
    requires
        is_pow2(n as int),
        a.len() == b.len(),
        rect(a, n),
        rect(b, n),
        mcanon::<F>(a),
        mcanon::<F>(b),
        root::<H>(column_leaves::<F, H>(a, n)) == root::<H>(column_leaves::<F, H>(b, n)),
    ensures
        a == b || collision::<H>(),
{
    let (x, y) = (column_leaves::<F, H>(a, n), column_leaves::<F, H>(b, n));
    root_binds::<H>(x, y);
    if x == y && !collision::<H>() {
        same_leaves_same_matrix::<F, H>(a, b, n);
    }
}

/// Matrices with the same leaves over their columns are the same.
proof fn same_leaves_same_matrix<F: Residue, H: HashFunction>(
    a: Seq<Seq<int>>,
    b: Seq<Seq<int>>,
    n: nat,
)
    requires
        a.len() == b.len(),
        rect(a, n),
        rect(b, n),
        mcanon::<F>(a),
        mcanon::<F>(b),
        column_leaves::<F, H>(a, n) == column_leaves::<F, H>(b, n),
        !collision::<H>(),
    ensures
        a == b,
{
    let (x, y) = (column_leaves::<F, H>(a, n), column_leaves::<F, H>(b, n));
    assert forall|i: int| 0 <= i < a.len() implies a[i] == b[i] by {
        assert(a[i].len() == n && b[i].len() == n);
        assert forall|j: int| 0 <= j < n implies a[i][j] == b[i][j] by {
            assert(x[j] == y[j]);
            column_canon::<F>(a, n, j);
            column_canon::<F>(b, n, j);
            leaf_binds::<F, H>(column(a, j), column(b, j));
            assert(column(a, j)[i] == column(b, j)[i]);
        }
        assert(a[i] =~= b[i]);
    }
    assert(a =~= b);
}

/// Evaluations are known from their rows.
proof fn rows_determine(a: Seq<int>, b: Seq<int>, num_rows: nat, row_len: nat)
    requires
        a.len() == num_rows * row_len,
        b.len() == num_rows * row_len,
        rows_of(a, num_rows, row_len) == rows_of(b, num_rows, row_len),
    ensures
        a == b,
{
    assert forall|t: int| 0 <= t < a.len() implies a[t] == b[t] by {
        if row_len == 0 {
            assert(num_rows * row_len == 0) by (nonlinear_arith)
                requires
                    row_len == 0,
            ;
        } else {
            let (i, j) = (t / row_len as int, t % row_len as int);
            assert(t == i * row_len + j && 0 <= j < row_len && 0 <= i < num_rows && (i + 1)
                * row_len <= num_rows * row_len && i * row_len + row_len == (i + 1) * row_len)
                by (nonlinear_arith)
                requires
                    0 <= t < num_rows * row_len,
                    row_len > 0,
                    i == t / row_len as int,
                    j == t % row_len as int,
            ;
            assert(0 <= i * row_len) by (nonlinear_arith)
                requires
                    0 <= i,
            ;
            let (x, y) = (rows_of(a, num_rows, row_len)[i], rows_of(b, num_rows, row_len)[i]);
            assert(x == y);
            assert(x[j] == a[i * row_len + j]);
            assert(y[j] == b[i * row_len + j]);
        }
    }
    assert(a =~= b);
}

/// A commitment binds the polynomial: commitments to two polynomials under the
/// same parameters have different roots.
pub proof fn qapcs_commitment_binds<F: PrimeField, H: HashFunction>(
    pp: MultilinearQAPCSParams<F>,
    comm1: MultilinearQAPCSCommitment<F, H>,
    evals1: Seq<int>,
    comm2: MultilinearQAPCSCommitment<F, H>,
    evals2: Seq<int>,
)
    requires
        pp.wf(),
        evals1.len() == exp2(pp.num_vars as nat),
        evals2.len() == exp2(pp.num_vars as nat),
        comm1.commits_to(pp, evals1),
        comm2.commits_to(pp, evals2),
        comm1.root == comm2.root,
    ensures
        evals1 == evals2 || collision::<H>(),
{
    let (rows, len) = (pp.num_rows as nat, pp.qa.row_len as nat);
    let n = pp.qa.codeword_len as nat;
    let e = pp.qa.qa_params.coeffs();
    let (r1, r2) = (rows_of(evals1, rows, len), rows_of(evals2, rows, len));
    let (a, b) = (encode_rows::<F>(r1, e), encode_rows::<F>(r2, e));
    crate::qa_code::rows_of_shape(evals1, rows, len);
    crate::qa_code::rows_of_shape(evals2, rows, len);
    mat_canon(comm1.rows@);
    mat_canon(comm2.rows@);
    assert forall|i: int| 0 <= i < rows implies (#[trigger] a[i]).len() == n by {
        assert(r1[i].len() == len);
        crate::qa_code::encode_shape::<F>(r1[i], e);
    }
    assert forall|i: int| 0 <= i < rows implies (#[trigger] b[i]).len() == n by {
        assert(r2[i].len() == len);
        crate::qa_code::encode_shape::<F>(r2[i], e);
    }
    matrix_binds::<F, H>(a, b, n);
    if a == b {
        same_codewords_same_rows::<F>(r1, r2, e, len);
        rows_determine(evals1, evals2, rows, len);
    }
}

/// Rows of one length are known from their codewords.
proof fn same_codewords_same_rows<F: Residue>(
    r1: Seq<Seq<int>>,
    r2: Seq<Seq<int>>,
    e: Seq<Seq<int>>,
    len: nat,
)
    requires
        rect(r1, len),
        rect(r2, len),
        r1.len() == r2.len(),
        encode_rows::<F>(r1, e) == encode_rows::<F>(r2, e),
    ensures
        r1 == r2,
{
    let (a, b) = (encode_rows::<F>(r1, e), encode_rows::<F>(r2, e));
    assert forall|i: int| 0 <= i < r1.len() implies r1[i] == r2[i] by {
        assert(r1[i].len() == len && r2[i].len() == len);
        assert(a[i] == b[i]);
        encode_is_systematic::<F>(r1[i], e);
        encode_is_systematic::<F>(r2[i], e);
    }
    assert(r1 =~= r2);
}

/// The tree over an encoded matrix binds the matrix: trees over the encodings of
/// two matrices of one size have different roots.
pub proof fn quasar_commitment_binds<F: PrimeField, H: HashFunction>(
    tree1: Seq<Vec<H::Output>>,
    tree2: Seq<Vec<H::Output>>,
    rows1: Seq<Seq<int>>,
    rows2: Seq<Seq<int>>,
    e: Seq<Seq<int>>,
    len: nat,
)
    requires
        is_pow2(len as int),
        is_pow2(((e.len() + 1) * len) as int),
        rect(e, len),
        rows1.len() == rows2.len(),
        rect(rows1, len),
        rect(rows2, len),
        mcanon::<F>(encode_rows::<F>(rows1, e)),
        mcanon::<F>(encode_rows::<F>(rows2, e)),
        tree_over::<H, F>(tree1, encode_rows::<F>(rows1, e), (e.len() + 1) * len),
        tree_over::<H, F>(tree2, encode_rows::<F>(rows2, e), (e.len() + 1) * len),
        tree1.last()@[0] == tree2.last()@[0],
    ensures
        rows1 == rows2 || collision::<H>(),
{
    let n = (e.len() + 1) * len;
    let (a, b) = (encode_rows::<F>(rows1, e), encode_rows::<F>(rows2, e));
    layers_shape::<H>(column_leaves::<F, H>(a, n));
    layers_shape::<H>(column_leaves::<F, H>(b, n));
    assert(tree_view(tree1).last() == tree1.last()@);
    assert(tree_view(tree2).last() == tree2.last()@);
    assert forall|i: int| 0 <= i < a.len() implies (#[trigger] a[i]).len() == n by {
        assert(rows1[i].len() == len);
        crate::qa_code::encode_shape::<F>(rows1[i], e);
    }
    assert forall|i: int| 0 <= i < b.len() implies (#[trigger] b[i]).len() == n by {
        assert(rows2[i].len() == len);
        crate::qa_code::encode_shape::<F>(rows2[i], e);
    }
    matrix_binds::<F, H>(a, b, n);
    if a == b {
        same_codewords_same_rows::<F>(rows1, rows2, e, len);
    }
}

/// A commitment binds the polynomial, also under the recursive sparse code.
pub proof fn brakingbase_commitment_binds<F: PrimeField, H: HashFunction, P, C>(
    pp: BrakingBaseProverParam<F, P, C>,
    comm1: BrakingBaseCommitment<F, H>,
    poly1: Seq<int>,
    comm2: BrakingBaseCommitment<F, H>,
    poly2: Seq<int>,
)
    requires
        pp.wf(),
        poly1.len() == exp2(pp.num_vars as nat),
        poly2.len() == exp2(pp.num_vars as nat),
        comm1.commits_to(pp, poly1),
        comm2.commits_to(pp, poly2),
        comm1.root == comm2.root,
    ensures
        poly1 == poly2 || collision::<H>(),
{
    let (rows, len) = (pp.num_rows as nat, pp.row_len as nat);
    let n = pp.codeword_len as nat;
    let (r1, r2) = (rows_of(poly1, rows, len), rows_of(poly2, rows, len));
    let (a, b) = (mat(comm1.rows@), mat(comm2.rows@));
    crate::brakingbase_open::shape_logs(pp);
    crate::qa_code::rows_of_shape(poly1, rows, len);
    crate::qa_code::rows_of_shape(poly2, rows, len);
    mat_canon(comm1.rows@);
    mat_canon(comm2.rows@);
    next_pow2_is_pow2(n as int);
    let (x, y) = (padded_leaves::<F, H>(a, n), padded_leaves::<F, H>(b, n));
    root_binds::<H>(x, y);
    if x == y && !collision::<H>() {
        assert(column_leaves::<F, H>(a, n) =~= x.take(n as int));
        assert(column_leaves::<F, H>(b, n) =~= y.take(n as int));
        same_leaves_same_matrix::<F, H>(a, b, n);
        assert forall|i: int| 0 <= i < rows implies r1[i] == r2[i] by {
            assert(r1[i].len() == len && r2[i].len() == len);
            assert(a[i] == b[i]);
            word_a_in_codeword(pp.brakedown, r1[i], 0);
            word_a_in_codeword(pp.brakedown, r2[i], 0);
        }
        assert(r1 =~= r2);
        rows_determine(poly1, poly2, rows, len);
    }
}

} // verus!
