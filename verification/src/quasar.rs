//! Openings by a two-layer sum-check over quasi-abelian encodings.
//!
//! The rows of a message matrix are encoded and the columns of the encoded
//! matrix are committed in a Merkle tree. An opening folds the rows twice, by
//! random weights and by the weights of the evaluation point, and certifies
//! both encodings with two sum-checks over the transform matrix. Sampled
//! columns tie the folded rows to the committed matrix. What is left are claims
//! about values of multilinear polynomials.

use crate::error::Error;
use crate::field::PrimeField;
use crate::hash::HashFunction;
use crate::linear::{column, mat, mat_push, rect, vals};
use crate::merkle::{
    column_leaves, hash_field_slice, layers, layers_shape, merkelize_from_leaves, root, tree_view,
};
use crate::mle::{exp2, exp2_is_pow2, log2, power_of_two};
use crate::qa_code::{
    copied_rows, encode_rows, encode_shape, is_pow2, parities, qa_encode_codeword_only, rows_of,
    walsh, QAParams,
};
use crate::transcript::{Event, TranscriptWrite};
use vstd::prelude::*;

verus! {

/// Sizes and soundness targets of an instance.
#[derive(Clone, Copy, Debug)]
pub struct QABaseSecurityConfig {
    pub total_log_size: usize,
    pub log_rows: usize,
    pub inverse_rate: usize,
    pub field_bits: usize,
    pub security_bits: usize,
    pub distance_failure_bits: usize,
}

impl QABaseSecurityConfig {
    /// Exponent of the row length.
    pub fn row_log_size(&self) -> (r: usize)
        requires
            self.total_log_size >= self.log_rows,
        ensures
            r == self.total_log_size - self.log_rows,
    {
        self.total_log_size - self.log_rows
    }

    /// Number of rows.
    pub fn num_rows(&self) -> (r: usize)
        requires
            exp2(self.log_rows as nat) <= usize::MAX,
        ensures
            r == exp2(self.log_rows as nat),
    {
        power_of_two(self.log_rows)
    }

    /// Row length.
    pub fn row_size(&self) -> (r: usize)
        requires
            self.total_log_size >= self.log_rows,
            exp2((self.total_log_size - self.log_rows) as nat) <= usize::MAX,
        ensures
            r == exp2((self.total_log_size - self.log_rows) as nat),
    {
        power_of_two(self.row_log_size())
    }
}

/// Parameters of the inner polynomial commitment.
#[derive(Clone, Copy, Debug)]
pub struct QABaseFoldConfig;

impl QABaseFoldConfig {
    /// Number of query repetitions.
    pub fn get_reps() -> (r: usize)
        ensures
            r == 249,
    {
        249
    }

    /// Logarithm of the inverse rate.
    pub fn get_rate() -> (r: usize)
        ensures
            r == 1,
    {
        1
    }

    /// Rounds handled by the base code.
    pub fn get_basecode_rounds() -> (r: usize)
        ensures
            r == 0,
    {
        0
    }

    /// Whether the base code is a Reed-Solomon code.
    pub fn get_rs_basecode() -> (r: bool)
        ensures
            !r,
    {
        false
    }

    /// The kind of foldable code.
    pub fn get_code_type() -> (r: String)
        ensures
            r@ == "random"@,
    {
        "random".to_owned()
    }
}

/// The blocks of the codeword of `input`, and its transform.
pub fn qa_encode_endpoint_instance<F: PrimeField + Send>(
    input: Vec<F>,
    params: &QAParams<F>,
) -> (r: (Vec<Vec<F>>, Vec<F>))
    requires
        params.wf(input@.len()),
    ensures
        r.0@.len() == params.inverse_rate,
        mat(r.0@) == seq![vals(input@)] + parities::<F>(vals(input@), params.coeffs()),
        vals(r.1@) == walsh::<F>(vals(input@)),
{
    let witness = crate::qa_code::qa_encode_with_witness_parallel(&input, params);
    let ghost m = vals(input@);
    let ghost ps = parities::<F>(m, params.coeffs());
    let mut blocks: Vec<Vec<F>> = Vec::new();
    blocks.push(input);
    let mut parity_blocks = witness.parity_blocks;
    blocks.append(&mut parity_blocks);
    proof {
        assert(mat(witness.parity_blocks@) == ps);
        assert(mat(blocks@) =~= seq![m] + ps) by {
            assert forall|i: int| 0 <= i < blocks@.len() implies mat(blocks@)[i] == (seq![m]
                + ps)[i] by {
                if i > 0 {
                    assert(mat(witness.parity_blocks@)[i - 1] == vals(
                        witness.parity_blocks@[i - 1]@,
                    ));
                }
            }
        }
        assert(mat(witness.parity_blocks@).len() == params.coeffs().len());
    }
    (blocks, witness.msg_wht)
}

/// Row access to an encoded matrix.
pub trait QACodewordRows<F: PrimeField> {
    /// The rows.
    spec fn matrix(&self) -> Seq<Seq<F>>;

    fn num_rows(&self) -> (r: usize)
        ensures
            r == self.matrix().len(),
    ;

    fn num_cols(&self) -> (r: usize)
        ensures
            r == (if self.matrix().len() > 0 {
                self.matrix()[0].len()
            } else {
                0
            }),
    ;

    fn row(&self, row_index: usize) -> (r: &[F])
        requires
            row_index < self.matrix().len(),
        ensures
            r@ == self.matrix()[row_index as int],
    ;
}

/// Column access to an encoded matrix. Reading may fail where the matrix is
/// held outside the process.
pub trait QACodewordColumns<F: PrimeField> {
    /// The rows.
    spec fn encoded(&self) -> Seq<Seq<F>>;

    /// Whether reading an existing column always succeeds.
    spec fn readable(&self) -> bool;

    fn row_count(&self) -> (r: usize)
        ensures
            r == self.encoded().len(),
    ;

    fn column_count(&self) -> (r: usize)
        ensures
            r == (if self.encoded().len() > 0 {
                self.encoded()[0].len()
            } else {
                0
            }),
    ;

    fn read_column(&self, column_index: usize) -> (r: Result<Vec<F>, String>)
        requires
            forall|i: int|
                0 <= i < self.encoded().len() ==> (#[trigger] self.encoded()[i]).len()
                    == self.encoded()[0].len(),
        ensures
            r is Ok ==> self.encoded().len() > 0 && column_index < self.encoded()[0].len(),
            r matches Ok(c) ==> c@.len() == self.encoded().len() && forall|i: int|
                0 <= i < c@.len() ==> #[trigger] c@[i] == self.encoded()[i][column_index as int],
            self.readable() && self.encoded().len() > 0 && column_index < self.encoded()[0].len()
                ==> r is Ok,
    ;
}

impl<F: PrimeField> QACodewordRows<F> for Vec<Vec<F>> {
    open spec fn matrix(&self) -> Seq<Seq<F>> {
        tree_view(self@)
    }

    fn num_rows(&self) -> (r: usize) {
        self.len()
    }

    fn num_cols(&self) -> (r: usize) {
        if self.len() > 0 {
            self[0].len()
        } else {
            0
        }
    }

    fn row(&self, row_index: usize) -> (r: &[F]) {
        self[row_index].as_slice()
    }
}

impl<F: PrimeField> QACodewordColumns<F> for Vec<Vec<F>> {
    open spec fn encoded(&self) -> Seq<Seq<F>> {
        tree_view(self@)
    }

    open spec fn readable(&self) -> bool {
        true
    }

    fn row_count(&self) -> (r: usize) {
        self.len()
    }

    fn column_count(&self) -> (r: usize) {
        if self.len() > 0 {
            self[0].len()
        } else {
            0
        }
    }

    fn read_column(&self, column_index: usize) -> (r: Result<Vec<F>, String>)
        ensures
            r matches Err(e) ==> e@ == "Quasar column index is out of bounds"@,
    {
        if self.len() == 0 || column_index >= self[0].len() {
            return Err("Quasar column index is out of bounds".to_owned());
        }
        assert forall|i: int| 0 <= i < self@.len() implies column_index < (
        #[trigger] self@[i])@.len() by {
            assert(self.encoded()[i].len() == self.encoded()[0].len());
        }
        Ok(crate::merkle::read_column_of(self, column_index))
    }
}

/// The rows as residues.
pub open spec fn residues<F: PrimeField>(m: Seq<Seq<F>>) -> Seq<Seq<int>> {
    Seq::new(m.len(), |i: int| vals(m[i]))
}

/// The residues of a matrix held as rows.
pub proof fn residues_of_rows<F: PrimeField>(m: Seq<Vec<F>>)
    ensures
        residues::<F>(tree_view(m)) == mat(m),
{
    assert(residues::<F>(tree_view(m)) =~= mat(m));
}

/// Builds the Merkle tree over the columns of an encoded matrix.
pub fn merkelize_long<H: HashFunction, F: PrimeField, C: QACodewordRows<F>>(codeword: &C) -> (tree:
    Vec<Vec<H::Output>>)
    requires
        codeword.matrix().len() > 0,
        is_pow2(codeword.matrix()[0].len() as int),
        rect(residues::<F>(codeword.matrix()), codeword.matrix()[0].len()),
    ensures
        tree_view(tree@) == layers::<H>(
            column_leaves::<F, H>(
                residues::<F>(codeword.matrix()),
                codeword.matrix()[0].len(),
            ),
        ),
        tree@.len() > 0,
{
    let num_cols: usize = codeword.num_cols();
    let ghost m = residues::<F>(codeword.matrix());
    let ghost goal = column_leaves::<F, H>(m, num_cols as nat);
    let mut leaves: Vec<H::Output> = Vec::new();
    let mut col: usize = 0;
    while col < num_cols
        invariant
            col <= num_cols,
            num_cols == codeword.matrix()[0].len(),
            m == residues::<F>(codeword.matrix()),
            rect(m, num_cols as nat),
            goal == column_leaves::<F, H>(m, num_cols as nat),
            leaves@ == goal.take(col as int),
        decreases num_cols - col,
    {
        let mut values: Vec<F> = Vec::new();
        let mut i: usize = 0;
        while i < codeword.num_rows()
            invariant
                i <= codeword.matrix().len(),
                col < num_cols,
                m == residues::<F>(codeword.matrix()),
                rect(m, num_cols as nat),
                values@.len() == i,
                forall|k: int| 0 <= k < i ==> (#[trigger] values@[k]).val() == m[k][col as int],
            decreases codeword.matrix().len() - i,
        {
            assert(m[i as int].len() == num_cols);
            values.push(codeword.row(i)[col]);
            i = i + 1;
        }
        assert(vals(values@) =~= column(m, col as int));
        leaves.push(hash_field_slice::<H, F>(&values));
        assert(goal.take(col as int + 1) =~= goal.take(col as int).push(goal[col as int]));
        col = col + 1;
    }
    proof {
        assert(goal.take(col as int) =~= goal);
        layers_shape::<H>(goal);
    }
    let tree = merkelize_from_leaves::<H>(leaves);
    assert(tree_view(tree@).len() == tree@.len());
    tree
}

/// Public parameters.
#[derive(Clone, Debug)]
pub struct QABaseParams<F> {
    pub qa_params: QAParams<F>,
    pub num_vars: usize,
    pub num_rows: usize,
    pub inverse_rate: usize,
    pub num_queries: usize,
}

/// The sizes of an instance fit together.
pub open spec fn sized<F: PrimeField>(
    qa_params: QAParams<F>,
    num_vars: usize,
    num_rows: usize,
    inverse_rate: usize,
) -> bool {
    &&& qa_params.wf(exp2(num_vars as nat))
    &&& qa_params.inverse_rate == inverse_rate
    &&& is_pow2(inverse_rate as int)
    &&& num_rows > 0
    &&& is_pow2(inverse_rate * exp2(num_vars as nat))
}

impl<F: PrimeField> QABaseParams<F> {
    pub open spec fn wf(self) -> bool {
        sized::<F>(self.qa_params, self.num_vars, self.num_rows, self.inverse_rate)
    }
}

/// Prover parameters. `e_commitments` are the commitments to the coefficient
/// vectors, in whatever form the inner commitment scheme has them.
pub struct QABaseProverParams<F, C> {
    pub qa_params: QAParams<F>,
    pub num_vars: usize,
    pub num_rows: usize,
    pub inverse_rate: usize,
    pub num_queries: usize,
    pub e_polys: Vec<Vec<F>>,
    pub e_commitments: Vec<C>,
}

/// Verifier parameters.
pub struct QABaseVerifierParams<F, C> {
    pub qa_params: QAParams<F>,
    pub num_vars: usize,
    pub num_rows: usize,
    pub inverse_rate: usize,
    pub num_queries: usize,
    pub e_commitments: Vec<C>,
}

impl<F: PrimeField, C> QABaseProverParams<F, C> {
    pub open spec fn wf(self) -> bool {
        &&& sized::<F>(self.qa_params, self.num_vars, self.num_rows, self.inverse_rate)
        &&& mat(self.e_polys@) == self.qa_params.coeffs()
        &&& self.e_commitments@.len() == self.inverse_rate - 1
    }
}

impl<F: PrimeField, C> QABaseVerifierParams<F, C> {
    pub open spec fn wf(self) -> bool {
        &&& sized::<F>(self.qa_params, self.num_vars, self.num_rows, self.inverse_rate)
        &&& self.e_commitments@.len() == self.inverse_rate - 1
    }
}

/// Parameters for a power of two of rows of `poly_size` entries with the
/// coefficients drawn. Sixty-four rows, rate one half and 504 queries where
/// nothing is given.
pub fn setup<F: PrimeField>(
    poly_size: usize,
    num_rows: Option<usize>,
    inverse_rate: Option<usize>,
    num_queries: Option<usize>,
    drawn: &[F],
) -> (r: QABaseParams<F>)
    requires
        is_pow2(poly_size as int),
        num_rows matches Some(n) ==> is_pow2(n as int),
        inverse_rate matches Some(c) ==> c >= 2 && is_pow2(c as int),
        inverse_rate.unwrap_or(2) * poly_size <= usize::MAX,
        drawn@.len() == (inverse_rate.unwrap_or(2) - 1) * poly_size,
    ensures
        r.wf(),
        is_pow2(r.num_rows as int),
        r.num_vars == log2(poly_size as int),
        r.num_rows == num_rows.unwrap_or(64),
        r.inverse_rate == inverse_rate.unwrap_or(2),
        r.num_queries == num_queries.unwrap_or(504),
        r.qa_params.coeffs() == rows_of(
            vals(drawn@),
            (inverse_rate.unwrap_or(2) - 1) as nat,
            poly_size as nat,
        ),
{
    proof {
        reveal_with_fuel(is_pow2, 8);
    }
    crate::qabase::setup(poly_size, num_rows, inverse_rate, num_queries, drawn)
}

/// Parameters of the sizes that a security configuration asks for, with the
/// number of queries that its distance leads to and the coefficients drawn.
pub fn setup_from_security_config<F: PrimeField>(
    cfg: &QABaseSecurityConfig,
    num_queries: usize,
    drawn: &[F],
) -> (r: QABaseParams<F>)
    requires
        cfg.total_log_size >= cfg.log_rows,
        exp2(cfg.log_rows as nat) <= usize::MAX,
        cfg.inverse_rate >= 2,
        is_pow2(cfg.inverse_rate as int),
        cfg.inverse_rate * exp2((cfg.total_log_size - cfg.log_rows) as nat) <= usize::MAX,
        drawn@.len() == (cfg.inverse_rate - 1) * exp2((cfg.total_log_size - cfg.log_rows) as nat),
    ensures
        r.wf(),
        is_pow2(r.num_rows as int),
        r.num_vars == cfg.total_log_size - cfg.log_rows,
        r.num_rows == exp2(cfg.log_rows as nat),
        r.inverse_rate == cfg.inverse_rate,
        r.num_queries == num_queries,
        r.qa_params.coeffs() == rows_of(
            vals(drawn@),
            (cfg.inverse_rate - 1) as nat,
            exp2((cfg.total_log_size - cfg.log_rows) as nat),
        ),
{
    proof {
        let n = exp2((cfg.total_log_size - cfg.log_rows) as nat) as int;
        exp2_is_pow2((cfg.total_log_size - cfg.log_rows) as nat);
        exp2_is_pow2(cfg.log_rows as nat);
        assert(n <= cfg.inverse_rate * n) by (nonlinear_arith)
            requires
                cfg.inverse_rate >= 2,
                n > 0,
        ;
    }
    setup(
        cfg.row_size(),
        Some(cfg.num_rows()),
        Some(cfg.inverse_rate),
        Some(num_queries),
        drawn,
    )
}

/// Prover and verifier parameters; the two lists hold the commitments of the
/// inner scheme to the coefficient vectors.
pub fn trim<F: PrimeField, C>(
    param: &QABaseParams<F>,
    prover_e_commitments: Vec<C>,
    verifier_e_commitments: Vec<C>,
) -> (r: (QABaseProverParams<F, C>, QABaseVerifierParams<F, C>))
    requires
        param.wf(),
        prover_e_commitments@.len() == param.inverse_rate - 1,
        verifier_e_commitments@.len() == param.inverse_rate - 1,
    ensures
        r.0.wf(),
        r.1.wf(),
        r.0.num_vars == param.num_vars,
        r.1.num_vars == param.num_vars,
        r.0.num_rows == param.num_rows,
        r.1.num_rows == param.num_rows,
        r.0.num_queries == param.num_queries,
        r.1.num_queries == param.num_queries,
        r.0.inverse_rate == param.inverse_rate,
        r.1.inverse_rate == param.inverse_rate,
        r.0.qa_params.coeffs() == param.qa_params.coeffs(),
        r.1.qa_params.coeffs() == param.qa_params.coeffs(),
        r.0.e_commitments == prover_e_commitments,
        r.1.e_commitments == verifier_e_commitments,
{
    (
        QABaseProverParams {
            qa_params: param.qa_params.duplicate(),
            num_vars: param.num_vars,
            num_rows: param.num_rows,
            inverse_rate: param.inverse_rate,
            num_queries: param.num_queries,
            e_polys: copied_rows(&param.qa_params.e),
            e_commitments: prover_e_commitments,
        },
        QABaseVerifierParams {
            qa_params: param.qa_params.duplicate(),
            num_vars: param.num_vars,
            num_rows: param.num_rows,
            inverse_rate: param.inverse_rate,
            num_queries: param.num_queries,
            e_commitments: verifier_e_commitments,
        },
    )
}

/// A commitment: the encoded matrix and the tree over its columns.
pub struct QABaseCommitment<H: HashFunction, W> {
    pub codeword: W,
    pub codeword_tree: Vec<Vec<H::Output>>,
}

impl<H: HashFunction, W> QABaseCommitment<H, W> {
    /// The tree has a root.
    pub open spec fn rooted(self) -> bool {
        self.codeword_tree@.len() > 0 && self.codeword_tree@.last()@.len() > 0
    }

    /// The root of the tree.
    pub open spec fn root_spec(self) -> H::Output {
        self.codeword_tree@.last()@[0]
    }

    pub fn into_codeword(self) -> (r: W)
        ensures
            r == self.codeword,
    {
        self.codeword
    }

    /// The root of the tree.
    pub fn as_root(&self) -> (r: &H::Output)
        requires
            self.rooted(),
        ensures
            *r == self.root_spec(),
    {
        let top: usize = self.codeword_tree.len() - 1;
        &self.codeword_tree[top][0]
    }
}

/// `tree` is the tree over the columns of `rows`, which have `n` entries.
pub open spec fn tree_over<H: HashFunction, F: PrimeField>(
    tree: Seq<Vec<H::Output>>,
    rows: Seq<Seq<int>>,
    n: nat,
) -> bool {
    tree_view(tree) == layers::<H>(column_leaves::<F, H>(rows, n))
}

/// The root of a complete tree.
pub proof fn tree_root<H: HashFunction, F: PrimeField>(
    tree: Seq<Vec<H::Output>>,
    rows: Seq<Seq<int>>,
    n: nat,
)
    requires
        tree_over::<H, F>(tree, rows, n),
        is_pow2(n as int),
    ensures
        tree.len() == log2(n as int) + 1,
        tree[0]@ == column_leaves::<F, H>(rows, n),
        tree.last()@.len() == 1,
        tree.last()@[0] == root::<H>(column_leaves::<F, H>(rows, n)),
{
    let leaves = column_leaves::<F, H>(rows, n);
    layers_shape::<H>(leaves);
    assert(tree_view(tree)[0] == tree[0]@);
    assert(tree_view(tree).last() == tree.last()@);
}

/// Finishes a commitment from an encoded matrix and a complete tree, and
/// writes the root.
pub fn commit_tree_and_write<
    F: PrimeField,
    H: HashFunction,
    C,
    W: QACodewordColumns<F>,
    T: TranscriptWrite<F, H::Output>,
>(
    pp: &QABaseProverParams<F, C>,
    codeword: W,
    codeword_tree: Vec<Vec<H::Output>>,
    transcript: &mut T,
) -> (r: Result<QABaseCommitment<H, W>, Error>)
    requires
        codeword.encoded().len() == pp.num_rows,
        codeword.encoded().len() > 0,
        codeword.encoded()[0].len() == pp.inverse_rate * exp2(pp.num_vars as nat),
        codeword_tree@.len() > 0,
        codeword_tree@[0]@.len() == codeword.encoded()[0].len(),
        codeword_tree@.last()@.len() == 1,
    ensures
        T::infallible() ==> r is Ok,
        r matches Ok(comm) ==> {
            &&& comm.codeword == codeword
            &&& comm.codeword_tree == codeword_tree
            &&& comm.rooted()
            &&& final(transcript).log() == old(transcript).log().push(
                Event::Commitment(comm.root_spec()),
            )
        },
        r matches Err(e) ==> e is Transcript,
{
    let top: usize = codeword_tree.len() - 1;
    match transcript.write_commitment(codeword_tree[top][0]) {
        Ok(_) => Ok(QABaseCommitment { codeword, codeword_tree }),
        Err(e) => Err(e),
    }
}

/// Finishes a commitment from an encoded matrix and writes the root.
pub fn commit_encoded_and_write<
    F: PrimeField,
    H: HashFunction,
    C,
    W: QACodewordRows<F> + QACodewordColumns<F>,
    T: TranscriptWrite<F, H::Output>,
>(pp: &QABaseProverParams<F, C>, codeword: W, transcript: &mut T) -> (r: Result<
    QABaseCommitment<H, W>,
    Error,
>)
    requires
        pp.wf(),
        codeword.matrix() == codeword.encoded(),
        codeword.matrix().len() == pp.num_rows,
        rect(
            residues::<F>(codeword.matrix()),
            (pp.inverse_rate * exp2(pp.num_vars as nat)) as nat,
        ),
    ensures
        T::infallible() ==> r is Ok,
        r matches Ok(comm) ==> {
            &&& comm.codeword == codeword
            &&& tree_over::<H, F>(
                comm.codeword_tree@,
                residues::<F>(codeword.matrix()),
                (pp.inverse_rate * exp2(pp.num_vars as nat)) as nat,
            )
            &&& comm.rooted()
            &&& final(transcript).log() == old(transcript).log().push(
                Event::Commitment(comm.root_spec()),
            )
        },
        r matches Err(e) ==> e is Transcript,
{
    let ghost m = residues::<F>(codeword.matrix());
    let ghost n = (pp.inverse_rate * exp2(pp.num_vars as nat)) as nat;
    proof {
        assert(m[0].len() == codeword.matrix()[0].len());
        assert(m[0].len() == n);
    }
    let codeword_tree = merkelize_long::<H, F, W>(&codeword);
    proof {
        tree_root::<H, F>(codeword_tree@, m, n);
    }
    commit_tree_and_write::<F, H, C, W, T>(pp, codeword, codeword_tree, transcript)
}

/// Encodes the rows of a message matrix, commits to the columns and writes the
/// root.
pub fn commit_and_write<
    F: PrimeField,
    H: HashFunction,
    C,
    R: QACodewordRows<F>,
    T: TranscriptWrite<F, H::Output>,
>(pp: &QABaseProverParams<F, C>, word: &R, transcript: &mut T) -> (r: Result<
    QABaseCommitment<H, Vec<Vec<F>>>,
    Error,
>)
    requires
        pp.wf(),
        word.matrix().len() == pp.num_rows,
        rect(residues::<F>(word.matrix()), exp2(pp.num_vars as nat)),
    ensures
        T::infallible() ==> r is Ok,
        r matches Ok(comm) ==> {
            &&& mat(comm.codeword@) == encode_rows::<F>(
                residues::<F>(word.matrix()),
                pp.qa_params.coeffs(),
            )
            &&& tree_over::<H, F>(
                comm.codeword_tree@,
                mat(comm.codeword@),
                (pp.inverse_rate * exp2(pp.num_vars as nat)) as nat,
            )
            &&& comm.rooted()
            &&& final(transcript).log() == old(transcript).log().push(
                Event::Commitment(comm.root_spec()),
            )
        },
        r matches Err(e) ==> e is Transcript,
{
    let ghost m = residues::<F>(word.matrix());
    let ghost e = pp.qa_params.coeffs();
    let ghost cw = encode_rows::<F>(m, e);
    let ghost n = exp2(pp.num_vars as nat);
    let mut codeword: Vec<Vec<F>> = Vec::new();
    let mut i: usize = 0;
    assert(mat(codeword@) =~= cw.take(0));
    while i < word.num_rows()
        invariant
            i <= word.matrix().len(),
            pp.wf(),
            m == residues::<F>(word.matrix()),
            e == pp.qa_params.coeffs(),
            cw == encode_rows::<F>(m, e),
            n == exp2(pp.num_vars as nat),
            rect(m, n),
            mat(codeword@) == cw.take(i as int),
        decreases word.matrix().len() - i,
    {
        assert(m[i as int].len() == n);
        let row = qa_encode_codeword_only(word.row(i), &pp.qa_params);
        proof {
            mat_push(codeword@, row);
            assert(cw.take(i as int + 1) =~= cw.take(i as int).push(cw[i as int]));
        }
        codeword.push(row);
        i = i + 1;
    }
    proof {
        assert(cw.take(i as int) =~= cw);
        residues_of_rows::<F>(codeword@);
        assert(mat(codeword@).len() == codeword@.len());
        assert forall|k: int| 0 <= k < cw.len() implies (#[trigger] cw[k]).len()
            == pp.inverse_rate * n by {
            assert(m[k].len() == n);
            encode_shape::<F>(m[k], e);
        }
    }
    commit_encoded_and_write::<F, H, C, Vec<Vec<F>>, T>(pp, codeword, transcript)
}

} // verus!
