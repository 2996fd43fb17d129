//! A commitment scheme for multilinear polynomials: rows encoded with the
//! recursive sparse code, columns committed by a hash tree, and membership in
//! the code shown with its sparse parity-check matrix.

use crate::brakedown::{word_b_len, Brakedown};
use crate::code_linearity::codewords;
use crate::error::Error;
use crate::field::{PrimeField, Residue};
use crate::hash::HashFunction;
use crate::linear::{column, mat, mat_push, rect, vals};
use crate::merkle::{
    climb, climb_own_path, column_leaves, hash_columns, hash_field_slice, layers, layers_shape,
    leaf, merkelize_from_leaves, merkle_path, path, read_column_of, root, same_trees, tree_view,
    verify_merkle_path_with_leaf,
};
use crate::mle::{exp2, exp2_is_pow2, is_power_of_two, log2, log2_power_of_two, power_of_two};
use crate::parity::{entries_of, parity_check_entries, parity_entries};
use crate::qa_code::{copied, is_pow2, rows_of, split_rows};
use crate::spark_memory::{
    larger, next_pow2, next_pow2_fixed, next_pow2_is_pow2, next_power_of_two, pad_poly, padded,
    spark_preprocess, SparkProverData,
};
use crate::transcript::{
    cut_later, cut_within, read_commitments, read_field_elements, sent_commitments, sent_fields,
    went, went_plain, write_commitments, write_field_elements, Event, TranscriptRead,
    TranscriptWrite,
};
use vstd::prelude::*;

verus! {

/// Rows of at most this length have no recursive code.
pub const BASE_CODE_THRESHOLD: usize = 20;

/// Prover parameters: the code, its parity-check matrix, and what the scheme
/// for the auxiliary polynomials needs.
pub struct BrakingBaseProverParam<F, P, C> {
    pub num_vars: usize,
    pub num_rows: usize,
    pub row_len: usize,
    pub codeword_len: usize,
    pub num_queries: usize,
    pub brakedown: Brakedown<F>,
    pub spark: SparkProverData<F>,
    pub basefold: P,
    pub spark_comms: Vec<C>,
}

/// Verifier parameters.
pub struct BrakingBaseVerifierParam<V, C> {
    pub num_vars: usize,
    pub num_rows: usize,
    pub row_len: usize,
    pub codeword_len: usize,
    pub num_queries: usize,
    pub num_ops: usize,
    pub num_mem_cells: usize,
    pub aux_len: usize,
    pub basefold: V,
    pub spark_comms: Vec<C>,
}

/// Parameters of both sides.
pub struct BrakingBaseParams<F, P, V, C> {
    pub prover: BrakingBaseProverParam<F, P, C>,
    pub verifier: BrakingBaseVerifierParam<V, C>,
}

/// The sizes of a matrix of `2^num_vars` entries and of its code.
pub open spec fn shaped(num_vars: int, num_rows: int, row_len: int, codeword_len: int) -> bool {
    &&& 0 <= num_vars
    &&& is_pow2(num_rows)
    &&& is_pow2(row_len)
    &&& num_rows * row_len == exp2(num_vars as nat)
    &&& exp2(num_vars as nat) <= usize::MAX
    &&& row_len > BASE_CODE_THRESHOLD
    &&& codeword_len == 2 * row_len
    &&& codeword_len <= usize::MAX
}

impl<F: PrimeField, P, C> BrakingBaseProverParam<F, P, C> {
    /// The sizes fit together, and the sparse matrix is the parity-check matrix
    /// of the code.
    pub open spec fn wf(self) -> bool {
        &&& shaped(
            self.num_vars as int,
            self.num_rows as int,
            self.row_len as int,
            self.codeword_len as int,
        )
        &&& self.brakedown.wf()
        &&& self.brakedown.row_len == self.row_len
        &&& self.brakedown.codeword_len == self.codeword_len
        &&& self.num_queries == self.brakedown.num_column_opening
        &&& self.spark.wf()
        &&& entries_of(self.spark.entries@) == parity_entries(self.brakedown)
        &&& crate::parity::entries_within(
            self.spark.entries@,
            self.codeword_len as nat,
            self.row_len as nat,
        )
        &&& self.spark.num_mem_cells == self.codeword_len
    }

    pub fn num_vars(&self) -> (r: usize)
        ensures
            r == self.num_vars,
    {
        self.num_vars
    }

    pub fn num_rows(&self) -> (r: usize)
        ensures
            r == self.num_rows,
    {
        self.num_rows
    }

    pub fn row_len(&self) -> (r: usize)
        ensures
            r == self.row_len,
    {
        self.row_len
    }

    pub fn codeword_len(&self) -> (r: usize)
        ensures
            r == self.codeword_len,
    {
        self.codeword_len
    }

    pub fn num_queries(&self) -> (r: usize)
        ensures
            r == self.num_queries,
    {
        self.num_queries
    }

    pub fn spark_num_ops(&self) -> (r: usize)
        ensures
            r == self.spark.num_ops,
    {
        self.spark.num_ops
    }

    pub fn spark_aux_len(&self) -> (r: usize)
        ensures
            r == self.spark.aux_len,
    {
        self.spark.aux_len
    }
}

impl<V, C> BrakingBaseVerifierParam<V, C> {
    /// The sizes fit together.
    pub open spec fn wf(self) -> bool {
        &&& shaped(
            self.num_vars as int,
            self.num_rows as int,
            self.row_len as int,
            self.codeword_len as int,
        )
        &&& is_pow2(self.num_ops as int)
        &&& is_pow2(self.aux_len as int)
        &&& self.num_ops <= self.aux_len
        &&& self.num_mem_cells == self.codeword_len
        &&& self.num_mem_cells <= self.aux_len
    }

    pub fn num_vars(&self) -> (r: usize)
        ensures
            r == self.num_vars,
    {
        self.num_vars
    }

    pub fn num_rows(&self) -> (r: usize)
        ensures
            r == self.num_rows,
    {
        self.num_rows
    }

    pub fn row_len(&self) -> (r: usize)
        ensures
            r == self.row_len,
    {
        self.row_len
    }

    pub fn codeword_len(&self) -> (r: usize)
        ensures
            r == self.codeword_len,
    {
        self.codeword_len
    }

    pub fn num_queries(&self) -> (r: usize)
        ensures
            r == self.num_queries,
    {
        self.num_queries
    }

    pub fn spark_num_ops(&self) -> (r: usize)
        ensures
            r == self.num_ops,
    {
        self.num_ops
    }

    pub fn spark_aux_len(&self) -> (r: usize)
        ensures
            r == self.aux_len,
    {
        self.aux_len
    }
}

/// Both sides agree on all sizes.
pub open spec fn params_agree<F: PrimeField, P, V, C>(
    pp: BrakingBaseProverParam<F, P, C>,
    vp: BrakingBaseVerifierParam<V, C>,
) -> bool {
    &&& vp.num_vars == pp.num_vars
    &&& vp.num_rows == pp.num_rows
    &&& vp.row_len == pp.row_len
    &&& vp.codeword_len == pp.codeword_len
    &&& vp.num_queries == pp.num_queries
    &&& vp.num_ops == pp.spark.num_ops
    &&& vp.num_mem_cells == pp.spark.num_mem_cells
    &&& vp.aux_len == pp.spark.aux_len
}

/// The number of rows where none is given.
pub fn brakingbase_num_rows(num_vars: usize) -> (r: usize)
    requires
        next_pow2(num_vars as int) <= usize::MAX,
    ensures
        r == next_pow2(num_vars as int),
{
    next_power_of_two(num_vars)
}

/// A decimal digit.
pub open spec fn digit(d: int) -> char {
    (48 + d) as u8 as char
}

/// The decimal digits of a number.
pub open spec fn decimal(n: nat) -> Seq<char>
    decreases n,
{
    if n < 10 {
        seq![digit(n as int)]
    } else {
        decimal(n / 10).push(digit((n % 10) as int))
    }
}

/// What is said of a code that does not double its messages.
pub open spec fn rate_text(codeword_len: nat, row_len: nat) -> Seq<char> {
    "BrakingBase currently requires an exact rate-1/2 Brakedown code (got "@ + decimal(codeword_len)
        + "/"@ + decimal(row_len) + ")"@
}

/// Calls `format!` of the standard library, which writes integers in decimal.
#[verifier::external_body]
fn rate_message(codeword_len: usize, row_len: usize) -> (r: String)
    ensures
        r@ == rate_text(codeword_len as nat, row_len as nat),
{
    format!("BrakingBase currently requires an exact rate-1/2 Brakedown code (got {codeword_len}/{row_len})")
}

/// Dividing powers of two.
proof fn pow2_quotient(a: int, b: int)
    requires
        is_pow2(a),
        is_pow2(b),
        b <= a,
    ensures
        a % b == 0,
        is_pow2(a / b),
        (a / b) * b == a,
    decreases b,
{
    if b == 1 {
    } else {
        let (c, d) = (a / 2, b / 2);
        assert(a == 2 * c && b == 2 * d);
        pow2_quotient(c, d);
        let q = c / d;
        assert(2 * c == q * (2 * d)) by (nonlinear_arith)
            requires
                q * d == c,
        ;
        vstd::arithmetic::div_mod::lemma_fundamental_div_mod_converse(a, b, q, 0);
    }
}

/// Whether a row count splits a polynomial of the given size.
pub open spec fn rows_fit(poly_size: int, num_rows: int) -> bool {
    is_pow2(num_rows) && num_rows <= poly_size
}

/// The number of variables and the row length of a polynomial of the given size
/// in the given number of rows.
pub fn brakingbase_shape(poly_size: usize, num_rows: usize) -> (r: Result<(usize, usize), Error>)
    ensures
        r is Ok <==> {
            &&& is_pow2(poly_size as int)
            &&& rows_fit(poly_size as int, num_rows as int)
            &&& poly_size as int / num_rows as int > BASE_CODE_THRESHOLD
        },
        r matches Ok(shape) ==> {
            &&& exp2(shape.0 as nat) == poly_size
            &&& shape.1 * num_rows == poly_size
            &&& shape.1 == poly_size as int / num_rows as int
            &&& is_pow2(shape.1 as int)
        },
        r matches Err(e) ==> if !is_pow2(poly_size as int) {
            e.is_param("BrakingBase polynomial size must be a power of two")
        } else if !rows_fit(poly_size as int, num_rows as int) {
            e.is_param(
                "BrakingBase row count must be a power-of-two divisor of the polynomial size",
            )
        } else {
            e.is_param("BrakingBase row length is below the Brakedown base threshold")
        },
{
    if !is_power_of_two(poly_size) {
        return Err(Error::param("BrakingBase polynomial size must be a power of two"));
    }
    if !is_power_of_two(num_rows) || num_rows > poly_size {
        return Err(
            Error::param(
                "BrakingBase row count must be a power-of-two divisor of the polynomial size",
            ),
        );
    }
    proof {
        pow2_quotient(poly_size as int, num_rows as int);
    }
    let num_vars: usize = log2_power_of_two(poly_size);
    let row_len: usize = poly_size / num_rows;
    if row_len <= BASE_CODE_THRESHOLD {
        return Err(Error::param("BrakingBase row length is below the Brakedown base threshold"));
    }
    Ok((num_vars, row_len))
}

/// What is fixed of the parameters before the scheme for the auxiliary
/// polynomials is set up.
pub struct BrakingBaseSetup<F> {
    pub num_vars: usize,
    pub num_rows: usize,
    pub brakedown: Brakedown<F>,
    pub spark: SparkProverData<F>,
}

impl<F: PrimeField> BrakingBaseSetup<F> {
    pub open spec fn wf(self) -> bool {
        &&& shaped(
            self.num_vars as int,
            self.num_rows as int,
            self.brakedown.row_len as int,
            self.brakedown.codeword_len as int,
        )
        &&& self.brakedown.wf()
        &&& self.spark.wf()
        &&& entries_of(self.spark.entries@) == parity_entries(self.brakedown)
        &&& crate::parity::entries_within(
            self.spark.entries@,
            self.brakedown.codeword_len as nat,
            self.brakedown.row_len as nat,
        )
        &&& self.spark.num_mem_cells == self.brakedown.codeword_len
    }
}

/// The commitment scheme with field `F` and hash `H`.
#[derive(Debug)]
pub struct MultilinearBrakingBase<F, H>(core::marker::PhantomData<(F, H)>);

/// A commitment: the encoded rows, the tree over their columns, and its root.
/// The verifier knows the root alone.
pub struct BrakingBaseCommitment<F: PrimeField, H: HashFunction> {
    pub rows: Vec<Vec<F>>,
    pub tree: Vec<Vec<H::Output>>,
    pub root: H::Output,
}

/// The leaves over the columns, filled up with leaves of empty columns to a
/// power of two.
pub open spec fn padded_leaves<F: Residue, H: HashFunction>(rows: Seq<Seq<int>>, n: nat) -> Seq<
    H::Output,
> {
    column_leaves::<F, H>(rows, n) + Seq::new(
        (next_pow2(n as int) - n) as nat,
        |i: int| leaf::<F, H>(Seq::empty()),
    )
}

/// Builds the tree over the columns of a matrix.
pub fn merkelize_columns<F: PrimeField, H: HashFunction>(
    rows: &[Vec<F>],
    codeword_len: usize,
) -> (tree: Vec<Vec<H::Output>>)
    requires
        rect(mat(rows@), codeword_len as nat),
        next_pow2(codeword_len as int) <= usize::MAX,
    ensures
        tree_view(tree@) == layers::<H>(padded_leaves::<F, H>(mat(rows@), codeword_len as nat)),
{
    let ghost goal = padded_leaves::<F, H>(mat(rows@), codeword_len as nat);
    proof {
        next_pow2_is_pow2(codeword_len as int);
    }
    let leaf_count: usize = next_power_of_two(codeword_len);
    let mut leaves = hash_columns::<H, F>(rows, codeword_len);
    assert(leaves@ =~= goal.take(codeword_len as int));
    while leaves.len() < leaf_count
        invariant
            codeword_len <= leaves@.len() <= leaf_count,
            leaf_count == next_pow2(codeword_len as int),
            goal == padded_leaves::<F, H>(mat(rows@), codeword_len as nat),
            leaves@ == goal.take(leaves@.len() as int),
        decreases leaf_count - leaves@.len(),
    {
        let nothing: Vec<F> = Vec::new();
        assert(vals(nothing@) =~= Seq::empty());
        let ghost before = leaves@;
        leaves.push(hash_field_slice::<H, F>(&nothing));
        assert(leaves@ =~= goal.take(leaves@.len() as int));
    }
    assert(goal.take(leaf_count as int) =~= goal);
    merkelize_from_leaves::<H>(leaves)
}

impl<F: PrimeField, H: HashFunction> BrakingBaseCommitment<F, H> {
    /// A commitment of which the root alone is known.
    pub fn from_root(root: H::Output) -> (r: Self)
        ensures
            r.root == root,
            r.rows@.len() == 0,
            r.tree@.len() == 0,
    {
        BrakingBaseCommitment { rows: Vec::new(), tree: Vec::new(), root }
    }

    pub fn root(&self) -> (r: &H::Output)
        ensures
            *r == self.root,
    {
        &self.root
    }

    /// The commitment holds a matrix of the given size and a tree.
    pub open spec fn has_data(self, num_rows: nat, codeword_len: nat) -> bool {
        &&& self.rows@.len() == num_rows
        &&& rect(mat(self.rows@), codeword_len)
        &&& self.tree@.len() > 0
    }

    /// The leaves over the columns.
    pub open spec fn leaves(self, codeword_len: nat) -> Seq<H::Output> {
        padded_leaves::<F, H>(mat(self.rows@), codeword_len)
    }

    /// The tree is the one over the columns, and its root is the root.
    pub open spec fn consistent(self, codeword_len: nat) -> bool {
        &&& tree_view(self.tree@) == layers::<H>(self.leaves(codeword_len))
        &&& self.root == root::<H>(self.leaves(codeword_len))
    }

    /// The commitment to a polynomial.
    pub open spec fn commits_to<P, C>(
        self,
        pp: BrakingBaseProverParam<F, P, C>,
        poly: Seq<int>,
    ) -> bool {
        &&& mat(self.rows@) == codewords(
            pp.brakedown,
            rows_of(poly, pp.num_rows as nat, pp.row_len as nat),
        )
        &&& self.has_data(pp.num_rows as nat, pp.codeword_len as nat)
        &&& self.consistent(pp.codeword_len as nat)
    }

    /// Whether the commitment holds what an opening needs.
    pub fn check_data(&self, num_rows: usize, codeword_len: usize) -> (r: bool)
        ensures
            r == self.has_data(num_rows as nat, codeword_len as nat),
    {
        if self.rows.len() != num_rows || self.tree.len() == 0 {
            return false;
        }
        let mut i: usize = 0;
        while i < num_rows
            invariant
                i <= num_rows,
                self.rows@.len() == num_rows,
                forall|k: int| 0 <= k < i ==> (#[trigger] mat(self.rows@)[k]).len() == codeword_len,
            decreases num_rows - i,
        {
            assert(mat(self.rows@)[i as int].len() == self.rows@[i as int]@.len());
            if self.rows[i].len() != codeword_len {
                return false;
            }
            i = i + 1;
        }
        true
    }

    /// Whether the tree is the one over the columns and has the root.
    pub fn check_tree(&self, codeword_len: usize) -> (r: bool)
        requires
            rect(mat(self.rows@), codeword_len as nat),
            next_pow2(codeword_len as int) <= usize::MAX,
        ensures
            r == self.consistent(codeword_len as nat),
    {
        let tree = merkelize_columns::<F, H>(&self.rows, codeword_len);
        proof {
            next_pow2_is_pow2(codeword_len as int);
            layers_shape::<H>(self.leaves(codeword_len as nat));
            assert(tree_view(tree@).len() == tree@.len());
            assert(tree_view(tree@).last() == tree@[tree@.len() - 1]@);
        }
        same_trees::<H>(&tree, &self.tree) && H::same(&tree[tree.len() - 1][0], &self.root)
    }
}

/// The columns of a commitment lead to its root along the paths of its tree.
pub proof fn committed_columns_are_authentic<F: PrimeField, H: HashFunction>(
    comm: BrakingBaseCommitment<F, H>,
    codeword_len: nat,
    j: int,
)
    requires
        comm.consistent(codeword_len),
        0 <= j < codeword_len,
    ensures
        climb::<H>(
            leaf::<F, H>(column(mat(comm.rows@), j)),
            path::<H>(comm.leaves(codeword_len), j),
            j,
        ) == comm.root,
        path::<H>(comm.leaves(codeword_len), j).len() == log2(next_pow2(codeword_len as int)),
{
    next_pow2_is_pow2(codeword_len as int);
    climb_own_path::<H>(comm.leaves(codeword_len), j);
}

/// Writes a column of a commitment and its path.
pub fn write_column_opening<F: PrimeField, H: HashFunction, T: TranscriptWrite<F, H::Output>>(
    comm: &BrakingBaseCommitment<F, H>,
    codeword_len: usize,
    column_index: usize,
    transcript: &mut T,
) -> (r: Result<(), Error>)
    requires
        comm.has_data(comm.rows@.len(), codeword_len as nat),
        comm.consistent(codeword_len as nat),
        column_index < codeword_len,
    ensures
        T::infallible() ==> r is Ok,
        r matches Err(e) ==> e is Transcript,
        r is Ok ==> final(transcript).log() == old(transcript).log() + sent_fields(
            column(mat(comm.rows@), column_index as int),
        ) + sent_commitments(
            path::<H>(comm.leaves(codeword_len as nat), column_index as int),
        ),
{
    proof {
        let leaves = comm.leaves(codeword_len as nat);
        next_pow2_is_pow2(codeword_len as int);
        layers_shape::<H>(leaves);
        assert(tree_view(comm.tree@)[0] == comm.tree@[0]@);
        assert forall|i: int| 0 <= i < comm.rows@.len() implies column_index < (
        #[trigger] comm.rows@[i])@.len() by {
            assert(mat(comm.rows@)[i].len() == codeword_len);
        }
    }
    let values = read_column_of(&comm.rows, column_index);
    match write_field_elements(transcript, &values) {
        Ok(_) => {},
        Err(e) => {
            return Err(e);
        },
    }
    match merkle_path::<H>(&comm.tree, column_index) {
        Some(siblings) => write_commitments(transcript, &siblings),
        None => Ok(()),
    }
}

/// A column and a path were read.
pub open spec fn column_read<O>(
    log0: Seq<Event<O>>,
    log1: Seq<Event<O>>,
    num_rows: nat,
    depth: nat,
    values: Seq<int>,
    siblings: Seq<O>,
) -> bool {
    &&& values.len() == num_rows
    &&& siblings.len() == depth
    &&& log1 == log0 + sent_fields(values) + sent_commitments(siblings)
}

/// A column was read that leads to the root.
pub open spec fn column_passed<F: PrimeField, H: HashFunction>(
    root: H::Output,
    num_rows: nat,
    codeword_len: nat,
    index: int,
    values: Seq<int>,
    log0: Seq<Event<H::Output>>,
    log1: Seq<Event<H::Output>>,
) -> bool {
    exists|siblings: Seq<H::Output>|
        {
            &&& #[trigger] column_read(
                log0,
                log1,
                num_rows,
                log2(next_pow2(codeword_len as int)),
                values,
                siblings,
            )
            &&& climb::<H>(leaf::<F, H>(values), siblings, index) == root
        }
}

/// A column was read that does not lead to the root.
pub open spec fn column_refused<F: PrimeField, H: HashFunction>(
    root: H::Output,
    num_rows: nat,
    codeword_len: nat,
    index: int,
    log0: Seq<Event<H::Output>>,
    log1: Seq<Event<H::Output>>,
) -> bool {
    exists|values: Seq<int>, siblings: Seq<H::Output>|
        {
            &&& #[trigger] column_read(
                log0,
                log1,
                num_rows,
                log2(next_pow2(codeword_len as int)),
                values,
                siblings,
            )
            &&& climb::<H>(leaf::<F, H>(values), siblings, index) != root
        }
}

/// Reads a column and its path and holds them to the root.
pub fn read_and_verify_column<F: PrimeField, H: HashFunction, T: TranscriptRead<F, H::Output>>(
    root: &H::Output,
    num_rows: usize,
    codeword_len: usize,
    column_index: usize,
    transcript: &mut T,
) -> (r: Result<Vec<F>, Error>)
    requires
        next_pow2(codeword_len as int) <= usize::MAX,
    ensures
        final(transcript).held() == old(transcript).held(),
        r matches Ok(values) ==> values@.len() == num_rows && column_passed::<F, H>(
            *root,
            num_rows as nat,
            codeword_len as nat,
            column_index as int,
            vals(values@),
            old(transcript).log(),
            final(transcript).log(),
        ),
        r matches Err(e) ==> cut_within(
            e,
            old(transcript).log(),
            final(transcript).log(),
            num_rows as nat,
            log2(next_pow2(codeword_len as int)),
        ) || (e.is_open("BrakingBase column Merkle path failed")
            && column_refused::<F, H>(
            *root,
            num_rows as nat,
            codeword_len as nat,
            column_index as int,
            old(transcript).log(),
            final(transcript).log(),
        )),
{
    let ghost log0 = transcript.log();
    proof {
        next_pow2_is_pow2(codeword_len as int);
    }
    let depth: usize = log2_power_of_two(next_power_of_two(codeword_len));
    let values = match read_field_elements(transcript, num_rows) {
        Ok(values) => values,
        Err(e) => {
            proof {
                assert(went(log0, log0, 0, 0));
                cut_later(
                    e,
                    log0,
                    log0,
                    transcript.log(),
                    0,
                    0,
                    num_rows as nat,
                    0,
                    num_rows as nat,
                    depth as nat,
                );
            }
            return Err(e);
        },
    };
    let ghost between = transcript.log();
    proof {
        went_plain::<H::Output>(log0, vals(values@), Seq::empty());
    }
    let siblings: Vec<H::Output> = match read_commitments(transcript, depth) {
        Ok(siblings) => siblings,
        Err(e) => {
            proof {
                cut_later(
                    e,
                    log0,
                    between,
                    transcript.log(),
                    num_rows as nat,
                    0,
                    0,
                    depth as nat,
                    num_rows as nat,
                    depth as nat,
                );
            }
            return Err(e);
        },
    };
    proof {
        assert(vals(values@).len() == num_rows);
        assert(column_read(
            log0,
            transcript.log(),
            num_rows as nat,
            depth as nat,
            vals(values@),
            siblings@,
        ));
    }
    if !verify_merkle_path_with_leaf::<H, F>(root, &values, &siblings, column_index) {
        return Err(Error::open("BrakingBase column Merkle path failed"));
    }
    Ok(values)
}

impl<F: PrimeField, H: HashFunction> MultilinearBrakingBase<F, H> {
    /// Parameters for polynomials of the given size in the given number of rows
    /// with a code for rows of that length.
    pub fn setup_with_num_rows(
        poly_size: usize,
        num_rows: usize,
        brakedown: Brakedown<F>,
    ) -> (r: Result<BrakingBaseSetup<F>, Error>)
        requires
            brakedown.wf(),
            num_rows > 0 ==> brakedown.row_len == poly_size as int / num_rows as int,
            next_pow2(parity_entries(brakedown).len() as int) <= usize::MAX,
        ensures
            r is Ok <==> {
                &&& is_pow2(poly_size as int)
                &&& rows_fit(poly_size as int, num_rows as int)
                &&& brakedown.row_len > BASE_CODE_THRESHOLD
                &&& brakedown.num_proximity_testing == 1
                &&& brakedown.codeword_len == 2 * brakedown.row_len
            },
            r matches Ok(setup) ==> {
                &&& setup.wf()
                &&& setup.num_rows == num_rows
                &&& exp2(setup.num_vars as nat) == poly_size
                &&& setup.brakedown == brakedown
                &&& setup.spark.num_ops == next_pow2(
                    larger(parity_entries(brakedown).len() as int, 2),
                )
                &&& setup.spark.aux_len == next_pow2(
                    larger(
                        larger(setup.spark.num_ops as int, brakedown.codeword_len as int),
                        brakedown.row_len as int,
                    ),
                )
            },
            r matches Err(e) ==> if !is_pow2(poly_size as int) {
                e.is_param("BrakingBase polynomial size must be a power of two")
            } else if !rows_fit(poly_size as int, num_rows as int) {
                e.is_param(
                    "BrakingBase row count must be a power-of-two divisor of the polynomial size",
                )
            } else if brakedown.row_len <= BASE_CODE_THRESHOLD {
                e.is_param("BrakingBase row length is below the Brakedown base threshold")
            } else if brakedown.num_proximity_testing != 1 {
                e.is_param(
                    "BrakingBase requires a field/parameter set with one random-row proximity test",
                )
            } else {
                e matches Error::InvalidPcsParam(m) && m@ == rate_text(
                    brakedown.codeword_len as nat,
                    brakedown.row_len as nat,
                )
            },
    {
        let (num_vars, row_len) = match brakingbase_shape(poly_size, num_rows) {
            Ok(shape) => shape,
            Err(e) => {
                return Err(e);
            },
        };
        if brakedown.num_proximity_testing != 1 {
            return Err(
                Error::param(
                    "BrakingBase requires a field/parameter set with one random-row proximity test",
                ),
            );
        }
        let codeword_len: usize = brakedown.codeword_len();
        if codeword_len % 2 != 0 || codeword_len / 2 != row_len {
            return Err(Error::InvalidPcsParam(rate_message(codeword_len, row_len)));
        }
        proof {
            assert(is_pow2(codeword_len as int));
            next_pow2_fixed(row_len as int);
        }
        let entries = parity_check_entries(&brakedown);
        proof {
            assert(entries_of(entries@).len() == entries@.len());
        }
        let spark = spark_preprocess(entries, codeword_len, row_len, row_len);
        proof {
            assert(num_rows * row_len == row_len * num_rows) by (nonlinear_arith);
        }
        Ok(BrakingBaseSetup { num_vars, num_rows, brakedown, spark })
    }

    /// The number of rows of a polynomial of the given size where none is given.
    pub fn default_num_rows(poly_size: usize) -> (r: usize)
        ensures
            r == if is_pow2(poly_size as int) {
                next_pow2(log2(poly_size as int) as int)
            } else {
                1
            },
    {
        if is_power_of_two(poly_size) {
            let num_vars: usize = log2_power_of_two(poly_size);
            proof {
                log2_below(poly_size as int);
                crate::spark_memory::next_pow2_least(num_vars as int, poly_size as int);
            }
            brakingbase_num_rows(num_vars)
        } else {
            1
        }
    }

    /// Parameters for polynomials of the given size in the number of rows that
    /// goes with it.
    pub fn setup(poly_size: usize, brakedown: Brakedown<F>) -> (r: Result<
        BrakingBaseSetup<F>,
        Error,
    >)
        requires
            brakedown.wf(),
            brakedown.row_len == poly_size as int / if is_pow2(poly_size as int) {
                next_pow2(log2(poly_size as int) as int)
            } else {
                1
            },
            next_pow2(parity_entries(brakedown).len() as int) <= usize::MAX,
        ensures
            r is Ok <==> {
                &&& is_pow2(poly_size as int)
                &&& brakedown.row_len > BASE_CODE_THRESHOLD
                &&& brakedown.num_proximity_testing == 1
                &&& brakedown.codeword_len == 2 * brakedown.row_len
            },
            r matches Ok(setup) ==> {
                &&& setup.wf()
                &&& setup.num_rows == next_pow2(log2(poly_size as int) as int)
                &&& exp2(setup.num_vars as nat) == poly_size
                &&& setup.brakedown == brakedown
            },
            r matches Err(e) ==> if !is_pow2(poly_size as int) {
                e.is_param("BrakingBase polynomial size must be a power of two")
            } else if brakedown.row_len <= BASE_CODE_THRESHOLD {
                e.is_param("BrakingBase row length is below the Brakedown base threshold")
            } else if brakedown.num_proximity_testing != 1 {
                e.is_param(
                    "BrakingBase requires a field/parameter set with one random-row proximity test",
                )
            } else {
                e matches Error::InvalidPcsParam(m) && m@ == rate_text(
                    brakedown.codeword_len as nat,
                    brakedown.row_len as nat,
                )
            },
    {
        let num_rows: usize = Self::default_num_rows(poly_size);
        proof {
            if is_pow2(poly_size as int) {
                let num_vars = log2(poly_size as int);
                log2_below(poly_size as int);
                next_pow2_is_pow2(num_vars as int);
                crate::spark_memory::next_pow2_least(num_vars as int, poly_size as int);
            }
        }
        Self::setup_with_num_rows(poly_size, num_rows, brakedown)
    }

    /// Puts the parameters of both sides together.
    pub fn assemble<P, V, C>(
        setup: BrakingBaseSetup<F>,
        basefold_prover: P,
        basefold_verifier: V,
        prover_comms: Vec<C>,
        verifier_comms: Vec<C>,
    ) -> (r: BrakingBaseParams<F, P, V, C>)
        requires
            setup.wf(),
        ensures
            r.prover.wf(),
            r.verifier.wf(),
            params_agree(r.prover, r.verifier),
            r.prover.num_vars == setup.num_vars,
            r.prover.num_rows == setup.num_rows,
            r.prover.brakedown == setup.brakedown,
            r.prover.spark == setup.spark,
            r.prover.basefold == basefold_prover,
            r.verifier.basefold == basefold_verifier,
            r.prover.spark_comms == prover_comms,
            r.verifier.spark_comms == verifier_comms,
    {
        let num_vars: usize = setup.num_vars;
        let num_rows: usize = setup.num_rows;
        let row_len: usize = setup.brakedown.row_len;
        let codeword_len: usize = setup.brakedown.codeword_len;
        let num_queries: usize = setup.brakedown.num_column_opening;
        let verifier = BrakingBaseVerifierParam {
            num_vars,
            num_rows,
            row_len,
            codeword_len,
            num_queries,
            num_ops: setup.spark.num_ops,
            num_mem_cells: setup.spark.num_mem_cells,
            aux_len: setup.spark.aux_len,
            basefold: basefold_verifier,
            spark_comms: verifier_comms,
        };
        let prover = BrakingBaseProverParam {
            num_vars,
            num_rows,
            row_len,
            codeword_len,
            num_queries,
            brakedown: setup.brakedown,
            spark: setup.spark,
            basefold: basefold_prover,
            spark_comms: prover_comms,
        };
        BrakingBaseParams { prover, verifier }
    }

    /// The parameters of both sides, for the size they were made for.
    pub fn trim<P, V, C>(param: &BrakingBaseParams<F, P, V, C>, poly_size: usize) -> (r: Result<
        (&BrakingBaseProverParam<F, P, C>, &BrakingBaseVerifierParam<V, C>),
        Error,
    >)
        requires
            param.prover.wf(),
        ensures
            r is Ok <==> poly_size == exp2(param.prover.num_vars as nat),
            r matches Ok(sides) ==> *sides.0 == param.prover && *sides.1 == param.verifier,
            r matches Err(e) ==> e.is_param(
                "BrakingBase does not support trimming to a different size",
            ),
    {
        if poly_size != power_of_two(param.prover.num_vars) {
            return Err(Error::param("BrakingBase does not support trimming to a different size"));
        }
        Ok((&param.prover, &param.verifier))
    }

    /// Commits to a polynomial given by its evaluations. Rows that it does not
    /// reach are zero.
    pub fn commit<P, C>(pp: &BrakingBaseProverParam<F, P, C>, poly: &[F]) -> (r: Result<
        BrakingBaseCommitment<F, H>,
        Error,
    >)
        requires
            pp.wf(),
            poly@.len() < exp2(pp.num_vars as nat) ==> poly@.len() % (pp.row_len as nat) == 0,
        ensures
            r is Ok <==> poly@.len() <= exp2(pp.num_vars as nat),
            r matches Ok(comm) ==> comm.commits_to(
                *pp,
                padded(vals(poly@), exp2(pp.num_vars as nat)),
            ),
            poly@.len() == exp2(pp.num_vars as nat) ==> r is Ok && r->Ok_0.commits_to(
                *pp,
                vals(poly@),
            ),
            r matches Err(e) ==> e is InvalidPcsParam,
    {
        let size: usize = power_of_two(pp.num_vars);
        if poly.len() > size {
            return Err(Error::param("too many variables of poly to commit"));
        }
        proof {
            exp2_is_pow2(pp.num_vars as nat);
            if poly@.len() == size {
                assert(padded(vals(poly@), size as nat) =~= vals(poly@));
            }
        }
        let filled = pad_poly(copied(poly), size);
        let ghost m = rows_of(vals(filled@), pp.num_rows as nat, pp.row_len as nat);
        let ghost cw = codewords(pp.brakedown, m);
        let messages = split_rows(&filled, pp.num_rows, pp.row_len);
        let mut rows: Vec<Vec<F>> = Vec::new();
        let mut i: usize = 0;
        assert(mat(rows@) =~= cw.take(0));
        while i < pp.num_rows
            invariant
                i <= pp.num_rows,
                pp.wf(),
                messages@.len() == pp.num_rows,
                mat(messages@) == m,
                m.len() == pp.num_rows,
                cw == codewords(pp.brakedown, m),
                forall|k: int|
                    0 <= k < pp.num_rows ==> (#[trigger] messages@[k])@.len() == pp.row_len,
                mat(rows@) == cw.take(i as int),
            decreases pp.num_rows - i,
        {
            let row = pp.brakedown.encode(&messages[i]);
            proof {
                assert(m[i as int] == vals(messages@[i as int]@));
                mat_push(rows@, row);
                assert(cw.take(i as int + 1) =~= cw.take(i as int).push(cw[i as int]));
            }
            rows.push(row);
            i = i + 1;
        }
        proof {
            assert(cw.take(i as int) =~= cw);
            assert(mat(rows@).len() == rows@.len());
            assert forall|k: int| 0 <= k < cw.len() implies (#[trigger] cw[k]).len()
                == pp.codeword_len by {
                assert(m[k] == vals(messages@[k]@));
                assert(messages@[k]@.len() == pp.row_len);
                word_b_len(pp.brakedown, m[k], pp.brakedown.a@.len());
            }
            next_pow2_fixed(pp.row_len as int);
            assert(is_pow2(pp.codeword_len as int));
            next_pow2_fixed(pp.codeword_len as int);
        }
        let tree = merkelize_columns::<F, H>(&rows, pp.codeword_len);
        let ghost leaves = padded_leaves::<F, H>(mat(rows@), pp.codeword_len as nat);
        proof {
            next_pow2_is_pow2(pp.codeword_len as int);
            layers_shape::<H>(leaves);
            assert(tree_view(tree@).len() == tree@.len());
            assert(tree_view(tree@).last() == tree@[tree@.len() - 1]@);
        }
        let root = tree[tree.len() - 1][0];
        Ok(BrakingBaseCommitment { rows, tree, root })
    }

    /// Commits to several polynomials.
    pub fn batch_commit<P, C>(pp: &BrakingBaseProverParam<F, P, C>, polys: &[Vec<F>]) -> (r: Result<
        Vec<BrakingBaseCommitment<F, H>>,
        Error,
    >)
        requires
            pp.wf(),
            forall|i: int|
                0 <= i < polys@.len() && (#[trigger] polys@[i])@.len() < exp2(pp.num_vars as nat)
                    ==> polys@[i]@.len() % (pp.row_len as nat) == 0,
        ensures
            r is Ok <==> forall|i: int|
                0 <= i < polys@.len() ==> (#[trigger] polys@[i])@.len() <= exp2(
                    pp.num_vars as nat,
                ),
            r matches Ok(comms) ==> {
                &&& comms@.len() == polys@.len()
                &&& forall|i: int|
                    0 <= i < polys@.len() ==> (#[trigger] comms@[i]).commits_to(
                        *pp,
                        padded(vals(polys@[i]@), exp2(pp.num_vars as nat)),
                    )
            },
            r matches Err(e) ==> e is InvalidPcsParam,
    {
        let mut out: Vec<BrakingBaseCommitment<F, H>> = Vec::new();
        let mut i: usize = 0;
        while i < polys.len()
            invariant
                i <= polys@.len(),
                pp.wf(),
                forall|k: int|
                    0 <= k < polys@.len() && (#[trigger] polys@[k])@.len() < exp2(
                        pp.num_vars as nat,
                    ) ==> polys@[k]@.len() % (pp.row_len as nat) == 0,
                forall|k: int|
                    0 <= k < i ==> (#[trigger] polys@[k])@.len() <= exp2(pp.num_vars as nat),
                out@.len() == i,
                forall|k: int|
                    0 <= k < i ==> (#[trigger] out@[k]).commits_to(
                        *pp,
                        padded(vals(polys@[k]@), exp2(pp.num_vars as nat)),
                    ),
            decreases polys@.len() - i,
        {
            match Self::commit(pp, &polys[i]) {
                Ok(comm) => {
                    out.push(comm);
                },
                Err(e) => {
                    return Err(e);
                },
            }
            i = i + 1;
        }
        Ok(out)
    }

    /// Reads commitments, of which the roots alone are sent.
    pub fn read_commitments<T: TranscriptRead<F, H::Output>>(
        num_polys: usize,
        transcript: &mut T,
    ) -> (r: Result<Vec<BrakingBaseCommitment<F, H>>, Error>)
        ensures
            final(transcript).held() == old(transcript).held(),
            r matches Err(e) ==> cut_within(
                e,
                old(transcript).log(),
                final(transcript).log(),
                0,
                num_polys as nat,
            ),
            r matches Ok(comms) ==> {
                &&& comms@.len() == num_polys
                &&& final(transcript).log() == old(transcript).log() + sent_commitments(
                    Seq::new(num_polys as nat, |i: int| comms@[i].root),
                )
                &&& forall|i: int|
                    0 <= i < num_polys ==> (#[trigger] comms@[i]).rows@.len() == 0
                        && comms@[i].tree@.len() == 0
            },
    {
        let roots: Vec<H::Output> = match read_commitments(transcript, num_polys) {
            Ok(roots) => roots,
            Err(e) => {
                return Err(e);
            },
        };
        let mut out: Vec<BrakingBaseCommitment<F, H>> = Vec::new();
        let mut i: usize = 0;
        while i < num_polys
            invariant
                i <= num_polys,
                roots@.len() == num_polys,
                out@.len() == i,
                forall|k: int|
                    0 <= k < i ==> (#[trigger] out@[k]).root == roots@[k] && out@[k].rows@.len()
                        == 0 && out@[k].tree@.len() == 0,
            decreases num_polys - i,
        {
            out.push(BrakingBaseCommitment::from_root(roots[i]));
            i = i + 1;
        }
        assert(Seq::new(num_polys as nat, |i: int| out@[i].root) =~= roots@);
        Ok(out)
    }
}

/// The exponent of a power of two is below it.
proof fn log2_below(n: int)
    requires
        is_pow2(n),
    ensures
        log2(n) < n,
    decreases n,
{
    if n > 1 {
        log2_below(n / 2);
    }
}

} // verus!
