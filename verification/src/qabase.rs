//! The opening of a row-encoded matrix through separate relations: folded and
//! evaluated rows, their auxiliary polynomials, and the claims about them.

use crate::claims::{
    append_claims_concat, append_claims_take, append_opening_claim, claim_set, Claim, ClaimSet,
};
use crate::classic_sumcheck::{round_error, sumcheck_refused, sumcheck_verified, sumcheck_went};
use crate::error::Error;
use crate::field::{PrimeField, Residue};
use crate::hash::HashFunction;
use crate::linear::{
    comb, comb_len, dot, flatten, inner_product, linear_combine_rows, mat, rect, vals, vals_canon,
    vcanon,
};
use crate::mle::{eq_evals, eval_mle_from_evals, exp2, log2, log2_power_of_two, mle, pow2_is_exp2};
use crate::qa_code::{
    copied, copied_rows, is_pow2, parities, qa_encode_with_witness_parallel, rows_of, scaled_blocks,
    walsh, QAParams, QAWitness,
};
use crate::qabase_relations::{
    batch_value, batched_value, encoding_relations_hold, encoding_wht_lists,
    honest_scaling_run_is_accepted, honest_wht_run_is_accepted,
    prove_batched_wht_relations_sumcheck, prove_scaling_relation_sumcheck, scaling_fields,
    scaling_read, scaling_written, values_of, verify_batched_wht_relations_sumcheck,
    verify_scaling_relation_sumcheck, wht_fields, wht_inputs, wht_read, wht_refused, wht_written,
    QABaseBatchedWhtRelationProof, QABaseScalingRelationProof,
};
use crate::qapcs::Evaluation;
use crate::quasar::{QABaseParams, QABaseProverParams, QABaseVerifierParams};
use crate::quasar_gkr::{QABaseProverOpeningAccumulator, QABaseVerifierOpeningAccumulator};
use crate::quasar_open::{qabase_row_weights_from_z_left, split_evaluation};
use crate::sumcheck::values_at;
use crate::transcript::{
    cut_later, cut_single, cut_within, drawn, read_field_elements, sent_fields, squeeze_challenges,
    went, went_plain, write_field_elements, Event, TranscriptRead, TranscriptWrite,
};
use vstd::prelude::*;

verus! {

/// Parameters of the inner polynomial commitment.
#[derive(Clone, Copy, Debug)]
pub struct QABaseFoldConfig;

impl QABaseFoldConfig {
    /// Number of query repetitions.
    pub fn get_reps() -> (r: usize)
        ensures
            r == 241,
    {
        241
    }

    /// Logarithm of the inverse rate.
    pub fn get_rate() -> (r: usize)
        ensures
            r == 1,
    {
        1
    }

    /// Rounds handled by the base code.
    pub fn get_basecode_rounds() -> (r: usize)
        ensures
            r == 0,
    {
        0
    }

    /// Whether the base code is a Reed-Solomon code.
    pub fn get_rs_basecode() -> (r: bool)
        ensures
            !r,
    {
        false
    }

    /// The kind of foldable code.
    pub fn get_code_type() -> (r: String)
        ensures
            r@ == "random"@,
    {
        "random".to_owned()
    }
}

/// How much an opening proves: that the matrix is close to the code, or also
/// its value at a point.
#[derive(Clone, Copy, Debug, PartialEq, Eq, Structural)]
pub enum QABaseOpeningMode {
    Merge,
    Full,
}

/// The coordinates of an index, lowest bit first.
pub open spec fn boolean_point(index: int, num_vars: nat) -> Seq<int>
    decreases num_vars,
{
    if num_vars == 0 {
        Seq::empty()
    } else {
        seq![index % 2] + boolean_point(index / 2, (num_vars - 1) as nat)
    }
}

/// The coordinates of an index, lowest bit first.
pub fn index_to_boolean_point<F: PrimeField>(index: usize, num_vars: usize) -> (r: Vec<F>)
    requires
        index < exp2(num_vars as nat),
    ensures
        vals(r@) == boolean_point(index as int, num_vars as nat),
{
    let mut out: Vec<F> = Vec::new();
    let mut rest: usize = index;
    let mut left: usize = num_vars;
    proof {
        assert(vals(out@) + boolean_point(rest as int, left as nat) =~= boolean_point(
            index as int,
            num_vars as nat,
        ));
    }
    while left > 0
        invariant
            vals(out@) + boolean_point(rest as int, left as nat) == boolean_point(
                index as int,
                num_vars as nat,
            ),
        decreases left,
    {
        let bit = if rest % 2 == 1 {
            F::one()
        } else {
            F::zero()
        };
        let ghost before = vals(out@);
        proof {
            crate::linear::vals_push(out@, bit);
            let tail = boolean_point(rest as int / 2, (left - 1) as nat);
            assert(before.push(bit.val()) + tail =~= before + (seq![rest as int % 2] + tail));
        }
        out.push(bit);
        rest = rest / 2;
        left = left - 1;
    }
    proof {
        assert(vals(out@) + boolean_point(rest as int, 0) =~= vals(out@));
    }
    out
}

/// Block and position within the block of a column of the codeword.
pub fn qabase_codeword_column_to_block(
    full_index: usize,
    block_len: usize,
    inverse_rate: usize,
) -> (r: (usize, usize))
    requires
        block_len > 0,
        full_index < inverse_rate * block_len,
    ensures
        r.0 == full_index as int / block_len as int,
        r.1 == full_index as int % block_len as int,
        r.0 < inverse_rate,
        r.1 < block_len,
        r.0 * block_len + r.1 == full_index,
{
    proof {
        let (i, n, c) = (full_index as int, block_len as int, inverse_rate as int);
        vstd::arithmetic::div_mod::lemma_fundamental_div_mod(i, n);
        vstd::arithmetic::div_mod::lemma_mod_bound(i, n);
        assert(c * n == n * c) by (nonlinear_arith);
        vstd::arithmetic::div_mod::lemma_multiply_divide_lt(i, n, c);
        assert(n * (i / n) == (i / n) * n) by (nonlinear_arith);
    }
    (full_index / block_len, full_index % block_len)
}

/// The inner product of an opened column with the weights of the rows.
pub fn fold_opened_column<F: PrimeField>(opened_column: &[F], row_challenges: &[F]) -> (r: F)
    requires
        opened_column@.len() == row_challenges@.len(),
    ensures
        r.val() == dot::<F>(vals(row_challenges@), vals(opened_column@)),
{
    inner_product(row_challenges, opened_column)
}

/// Parameters for any number of rows of `poly_size` entries with the
/// coefficients drawn. Sixty-four rows, rate one half and 504 queries where
/// nothing is given.
pub fn setup<F: PrimeField>(
    poly_size: usize,
    num_rows: Option<usize>,
    inverse_rate: Option<usize>,
    num_queries: Option<usize>,
    drawn: &[F],
) -> (r: QABaseParams<F>)
    requires
        is_pow2(poly_size as int),
        num_rows matches Some(n) ==> n > 0,
        inverse_rate matches Some(c) ==> c >= 2 && is_pow2(c as int),
        inverse_rate.unwrap_or(2) * poly_size <= usize::MAX,
        drawn@.len() == (inverse_rate.unwrap_or(2) - 1) * poly_size,
    ensures
        r.wf(),
        r.num_vars == log2(poly_size as int),
        r.num_rows == num_rows.unwrap_or(64),
        r.inverse_rate == inverse_rate.unwrap_or(2),
        r.num_queries == num_queries.unwrap_or(504),
        r.qa_params.coeffs() == rows_of(
            vals(drawn@),
            (inverse_rate.unwrap_or(2) - 1) as nat,
            poly_size as nat,
        ),
{
    let num_queries: usize = match num_queries {
        Some(q) => q,
        None => 504,
    };
    let num_rows: usize = match num_rows {
        Some(n) => n,
        None => 64,
    };
    let inverse_rate: usize = match inverse_rate {
        Some(c) => c,
        None => 2,
    };
    proof {
        reveal_with_fuel(is_pow2, 8);
        pow2_is_exp2(poly_size as int);
        crate::qapcs_shape::pow2_times(inverse_rate as int, log2(poly_size as int));
    }
    let num_vars: usize = log2_power_of_two(poly_size);
    let qa_params = QAParams::new_random(poly_size, inverse_rate, drawn);
    QABaseParams { qa_params, num_vars, num_rows, inverse_rate, num_queries }
}

/// The encoding of a random combination of the rows.
pub struct QABaseFoldedWitness<F> {
    pub row_challenges: Vec<F>,
    pub folded_msg: Vec<F>,
    pub folded_qa_witness: QAWitness<F>,
}

impl<F: PrimeField> QABaseFoldedWitness<F> {
    /// The witness for a matrix and coefficients.
    pub open spec fn of(self, rows: Seq<Seq<int>>, e: Seq<Seq<int>>, n: nat) -> bool {
        &&& self.row_challenges@.len() == rows.len()
        &&& vals(self.folded_msg@) == comb::<F>(vals(self.row_challenges@), rows, n)
        &&& self.folded_qa_witness.of(vals(self.folded_msg@), e)
    }
}

/// Folds the rows and encodes the result, keeping the intermediate values.
pub fn build_folded_qa_witness_from_rows<F: PrimeField + Send, C>(
    pp: &QABaseProverParams<F, C>,
    rows: &[Vec<F>],
    row_challenges: Vec<F>,
) -> (r: QABaseFoldedWitness<F>)
    requires
        pp.wf(),
        row_challenges@.len() == pp.num_rows,
        rows@.len() == pp.num_rows,
        rect(mat(rows@), exp2(pp.num_vars as nat)),
    ensures
        r.of(mat(rows@), pp.qa_params.coeffs(), exp2(pp.num_vars as nat)),
        r.row_challenges == row_challenges,
        r.folded_msg@.len() == exp2(pp.num_vars as nat),
{
    proof {
        assert(mat(rows@)[0].len() == rows@[0]@.len());
        comb_len::<F>(vals(row_challenges@), mat(rows@), exp2(pp.num_vars as nat));
    }
    let folded_msg = linear_combine_rows(rows, &row_challenges);
    assert(vals(folded_msg@).len() == folded_msg@.len());
    let folded_qa_witness = qa_encode_with_witness_parallel(&folded_msg, &pp.qa_params);
    QABaseFoldedWitness { row_challenges, folded_msg, folded_qa_witness }
}

/// The encoding of the combination of the rows that a point selects.
pub struct QABaseEvalWitness<F> {
    pub z_left: Vec<F>,
    pub row_weights: Vec<F>,
    pub eval_msg: Vec<F>,
    pub eval_qa_witness: QAWitness<F>,
}

impl<F: PrimeField> QABaseEvalWitness<F> {
    /// The witness for a matrix and coefficients.
    pub open spec fn of(self, rows: Seq<Seq<int>>, e: Seq<Seq<int>>, n: nat) -> bool {
        &&& vals(self.row_weights@) == eq_evals::<F>(vals(self.z_left@))
        &&& vals(self.eval_msg@) == comb::<F>(vals(self.row_weights@), rows, n)
        &&& self.eval_qa_witness.of(vals(self.eval_msg@), e)
    }
}

/// Folds the rows with the weights of a point and encodes the result, keeping
/// the intermediate values.
pub fn build_eval_qa_witness_from_rows<F: PrimeField + Send, C>(
    pp: &QABaseProverParams<F, C>,
    rows: &[Vec<F>],
    z_left: Vec<F>,
) -> (r: QABaseEvalWitness<F>)
    requires
        pp.wf(),
        is_pow2(pp.num_rows as int),
        z_left@.len() == log2(pp.num_rows as int),
        rows@.len() == pp.num_rows,
        rect(mat(rows@), exp2(pp.num_vars as nat)),
    ensures
        r.of(mat(rows@), pp.qa_params.coeffs(), exp2(pp.num_vars as nat)),
        r.z_left == z_left,
        r.row_weights@.len() == pp.num_rows,
        r.eval_msg@.len() == exp2(pp.num_vars as nat),
{
    let row_weights = qabase_row_weights_from_z_left(pp.num_rows, &z_left);
    proof {
        assert(mat(rows@)[0].len() == rows@[0]@.len());
        comb_len::<F>(vals(row_weights@), mat(rows@), exp2(pp.num_vars as nat));
    }
    let eval_msg = linear_combine_rows(rows, &row_weights);
    assert(vals(eval_msg@).len() == eval_msg@.len());
    let eval_qa_witness = qa_encode_with_witness_parallel(&eval_msg, &pp.qa_params);
    QABaseEvalWitness { z_left, row_weights, eval_msg, eval_qa_witness }
}

/// The auxiliary polynomials of an encoding: the blocks of the codeword, the
/// transformed message, the scaled blocks.
pub open spec fn aux_polys<F: Residue>(msg: Seq<int>, e: Seq<Seq<int>>) -> Seq<Seq<int>> {
    seq![msg] + parities::<F>(msg, e) + seq![walsh::<F>(msg)] + scaled_blocks::<F>(msg, e)
}

/// Lays out the auxiliary polynomials of an encoding.
fn lay_out_aux<F: PrimeField>(
    msg: &[F],
    witness: &QAWitness<F>,
    Ghost(e): Ghost<Seq<Seq<int>>>,
) -> (r: Vec<Vec<F>>)
    requires
        witness.of(vals(msg@), e),
    ensures
        mat(r@) == aux_polys::<F>(vals(msg@), e),
        r@.len() == 2 * e.len() + 2,
{
    let mut polys: Vec<Vec<F>> = Vec::new();
    polys.push(copied(msg));
    let mut parity = copied_rows(&witness.parity_blocks);
    let mut scaled = copied_rows(&witness.scaled_wht_blocks);
    let ghost (p0, s0) = (parity@, scaled@);
    polys.append(&mut parity);
    polys.push(copied(&witness.msg_wht));
    polys.append(&mut scaled);
    proof {
        assert(mat(p0).len() == p0.len() && mat(s0).len() == s0.len());
        assert(mat(polys@) =~= aux_polys::<F>(vals(msg@), e));
    }
    polys
}

/// The auxiliary polynomials of a folded witness.
pub fn build_aux_polys_from_folded_witness<F: PrimeField, C>(
    witness: &QABaseFoldedWitness<F>,
    pp: &QABaseProverParams<F, C>,
) -> (r: Vec<Vec<F>>)
    requires
        pp.wf(),
        witness.folded_qa_witness.of(vals(witness.folded_msg@), pp.qa_params.coeffs()),
    ensures
        mat(r@) == aux_polys::<F>(vals(witness.folded_msg@), pp.qa_params.coeffs()),
        r@.len() == 2 * pp.inverse_rate,
{
    lay_out_aux(
        &witness.folded_msg,
        &witness.folded_qa_witness,
        Ghost(pp.qa_params.coeffs()),
    )
}

/// The auxiliary polynomials of an evaluation witness.
pub fn build_aux_polys_from_eval_witness<F: PrimeField, C>(
    witness: &QABaseEvalWitness<F>,
    pp: &QABaseProverParams<F, C>,
) -> (r: Vec<Vec<F>>)
    requires
        pp.wf(),
        witness.eval_qa_witness.of(vals(witness.eval_msg@), pp.qa_params.coeffs()),
    ensures
        mat(r@) == aux_polys::<F>(vals(witness.eval_msg@), pp.qa_params.coeffs()),
        r@.len() == 2 * pp.inverse_rate,
{
    lay_out_aux(&witness.eval_msg, &witness.eval_qa_witness, Ghost(pp.qa_params.coeffs()))
}

/// The commitments to the auxiliary polynomials of one encoding.
pub struct QABaseAuxCommitments<C> {
    pub u_block_commitments: Vec<C>,
    pub v_prime_commitment: C,
    pub u_prime_commitments: Vec<C>,
}

impl<C> QABaseAuxCommitments<C> {
    /// All commitments in the order of the polynomials.
    pub open spec fn all(self) -> Seq<C> {
        self.u_block_commitments@.push(self.v_prime_commitment) + self.u_prime_commitments@
    }

    /// The numbers of commitments fit a rate.
    pub open spec fn sized(self, rho: nat) -> bool {
        self.u_block_commitments@.len() == rho && self.u_prime_commitments@.len() + 1 == rho
    }
}

/// Sorts the commitments to the auxiliary polynomials of one encoding.
pub fn split_aux_commitments<C>(all: Vec<C>, inverse_rate: usize) -> (r: QABaseAuxCommitments<C>)
    requires
        inverse_rate >= 1,
        all@.len() == 2 * inverse_rate,
    ensures
        r.all() == all@,
        r.sized(inverse_rate as nat),
{
    let ghost whole = all@;
    let total: usize = all.len();
    let mut u_block_commitments = all;
    let u_prime_commitments = u_block_commitments.split_off(inverse_rate + 1);
    let v_prime_commitment = u_block_commitments.pop().unwrap();
    let r = QABaseAuxCommitments { u_block_commitments, v_prime_commitment, u_prime_commitments };
    assert(r.all() =~= whole);
    r
}

/// References to the commitments in the order of the polynomials.
pub fn flatten_aux_commitment_refs<'a, C>(
    aux: &'a QABaseAuxCommitments<C>,
    inverse_rate: usize,
) -> (r: Vec<&'a C>)
    requires
        aux.sized(inverse_rate as nat),
    ensures
        r@.len() == 2 * inverse_rate,
        forall|i: int| 0 <= i < r@.len() ==> *(#[trigger] r@[i]) == aux.all()[i],
{
    let mut out: Vec<&'a C> = Vec::new();
    let mut i: usize = 0;
    while i < aux.u_block_commitments.len()
        invariant
            i <= aux.u_block_commitments@.len(),
            out@.len() == i,
            forall|k: int| 0 <= k < i ==> *(#[trigger] out@[k]) == aux.all()[k],
        decreases aux.u_block_commitments@.len() - i,
    {
        out.push(&aux.u_block_commitments[i]);
        i = i + 1;
    }
    out.push(&aux.v_prime_commitment);
    let mut j: usize = 0;
    while j < aux.u_prime_commitments.len()
        invariant
            j <= aux.u_prime_commitments@.len(),
            out@.len() == aux.u_block_commitments@.len() + 1 + j,
            forall|k: int| 0 <= k < out@.len() ==> *(#[trigger] out@[k]) == aux.all()[k],
        decreases aux.u_prime_commitments@.len() - j,
    {
        out.push(&aux.u_prime_commitments[j]);
        j = j + 1;
    }
    out
}

/// The commitments in the order of the polynomials.
pub fn flatten_aux_commitments<C: Copy>(aux: &QABaseAuxCommitments<C>, inverse_rate: usize) -> (r:
    Vec<C>)
    requires
        aux.sized(inverse_rate as nat),
    ensures
        r@ == aux.all(),
{
    let refs = flatten_aux_commitment_refs(aux, inverse_rate);
    let mut out: Vec<C> = Vec::new();
    let mut i: usize = 0;
    while i < refs.len()
        invariant
            i <= refs@.len(),
            out@.len() == i,
            forall|k: int| 0 <= k < refs@.len() ==> *(#[trigger] refs@[k]) == aux.all()[k],
            forall|k: int| 0 <= k < i ==> #[trigger] out@[k] == aux.all()[k],
        decreases refs@.len() - i,
    {
        out.push(*refs[i]);
        i = i + 1;
    }
    assert(out@ =~= aux.all());
    out
}

/// The commitments to the auxiliary polynomials of one encoding and the
/// polynomials themselves.
pub struct QABaseAuxProverData<F, C> {
    pub commitments: QABaseAuxCommitments<C>,
    pub polys: Vec<Vec<F>>,
}

/// Draws the weights of the rows, folds the rows and lays out the auxiliary
/// polynomials, which the prover commits to next.
pub fn commit_folded_witness_start<F: PrimeField + Send, O, C, T: TranscriptWrite<F, O>>(
    pp: &QABaseProverParams<F, C>,
    rows: &[Vec<F>],
    transcript: &mut T,
) -> (r: (QABaseFoldedWitness<F>, Vec<Vec<F>>))
    requires
        pp.wf(),
        rows@.len() == pp.num_rows,
        rect(mat(rows@), exp2(pp.num_vars as nat)),
    ensures
        r.0.of(mat(rows@), pp.qa_params.coeffs(), exp2(pp.num_vars as nat)),
        mat(r.1@) == aux_polys::<F>(vals(r.0.folded_msg@), pp.qa_params.coeffs()),
        r.1@.len() == 2 * pp.inverse_rate,
        final(transcript).log() == old(transcript).log() + drawn(vals(r.0.row_challenges@)),
{
    let row_challenges = squeeze_challenges::<F, O, T>(transcript, pp.num_rows);
    let witness = build_folded_qa_witness_from_rows(pp, rows, row_challenges);
    let polys = build_aux_polys_from_folded_witness(&witness, pp);
    (witness, polys)
}

/// Folds the rows with the weights of a point and lays out the auxiliary
/// polynomials, which the prover commits to next.
pub fn commit_eval_witness_start<F: PrimeField + Send, C>(
    pp: &QABaseProverParams<F, C>,
    rows: &[Vec<F>],
    z_left: Vec<F>,
) -> (r: (QABaseEvalWitness<F>, Vec<Vec<F>>))
    requires
        pp.wf(),
        is_pow2(pp.num_rows as int),
        z_left@.len() == log2(pp.num_rows as int),
        rows@.len() == pp.num_rows,
        rect(mat(rows@), exp2(pp.num_vars as nat)),
    ensures
        r.0.of(mat(rows@), pp.qa_params.coeffs(), exp2(pp.num_vars as nat)),
        r.0.z_left == z_left,
        mat(r.1@) == aux_polys::<F>(vals(r.0.eval_msg@), pp.qa_params.coeffs()),
        r.1@.len() == 2 * pp.inverse_rate,
{
    let witness = build_eval_qa_witness_from_rows(pp, rows, z_left);
    let polys = build_aux_polys_from_eval_witness(&witness, pp);
    (witness, polys)
}

/// Reads the root and draws the weights of the rows. `None` if the root read is
/// not the committed one.
pub fn read_aux_commitments_start<F: PrimeField, H: HashFunction, C, T: TranscriptRead<
    F,
    H::Output,
>>(
    vp: &QABaseVerifierParams<F, C>,
    committed_root: &H::Output,
    transcript: &mut T,
) -> (r: Result<Option<Vec<F>>, Error>)
    ensures
        final(transcript).held() == old(transcript).held(),
        r matches Err(e) ==> cut_within(
            e,
            old(transcript).log(),
            final(transcript).log(),
            0,
            1,
        ),
        r matches Ok(Some(row_challenges)) ==> {
            &&& row_challenges@.len() == vp.num_rows
            &&& final(transcript).log() == old(transcript).log().push(
                Event::Commitment(*committed_root),
            ) + drawn(vals(row_challenges@))
        },
        r matches Ok(None) ==> exists|d: H::Output|
            d != *committed_root && final(transcript).log() == #[trigger] old(
                transcript).log().push(Event::Commitment(d)),
{
    let ghost log0 = transcript.log();
    let read_root = match transcript.read_commitment() {
        Ok(d) => d,
        Err(e) => {
            proof {
                cut_single::<H::Output>(e, log0, 0, arbitrary());
            }
            return Err(e);
        },
    };
    if !H::same(&read_root, committed_root) {
        return Ok(None);
    }
    Ok(Some(squeeze_challenges::<F, H::Output, T>(transcript, vp.num_rows)))
}

/// Where the auxiliary polynomials of one encoding and the coefficient vectors
/// stand among the committed polynomials.
#[derive(Clone, Copy, Debug)]
pub struct QABaseEvalAuxLayout {
    pub rho: usize,
    pub q_aux_start: usize,
    pub e_start: usize,
}

impl QABaseEvalAuxLayout {
    /// All indices fit.
    pub open spec fn wf(self) -> bool {
        &&& self.rho >= 2
        &&& self.q_aux_start + 2 * self.rho <= usize::MAX
        &&& self.e_start + self.rho <= usize::MAX
    }

    pub open spec fn block(self, b: int) -> int {
        self.q_aux_start + b
    }

    pub open spec fn v_prime(self) -> int {
        self.q_aux_start + self.rho
    }

    pub open spec fn u_prime(self, i: int) -> int {
        self.q_aux_start + self.rho + 1 + i
    }

    pub open spec fn e(self, i: int) -> int {
        self.e_start + i
    }
}

/// The layout of the first encoding, whose polynomials come first and are
/// followed by the coefficient vectors.
pub fn proximity_layout(rho: usize) -> (r: QABaseEvalAuxLayout)
    requires
        rho >= 2,
        3 * rho <= usize::MAX,
    ensures
        r.wf(),
        r.rho == rho,
        r.q_aux_start == 0,
        r.e_start == 2 * rho,
{
    QABaseEvalAuxLayout { rho, q_aux_start: 0, e_start: 2 * rho }
}

/// The polynomials and commitments that all claims of the prover refer to,
/// without claims yet.
pub fn build_qabase_prover_opening_accumulator<'a, F: PrimeField, C>(
    aux_data: &'a QABaseAuxProverData<F, C>,
    pp: &'a QABaseProverParams<F, C>,
) -> (r: QABaseProverOpeningAccumulator<'a, F, C>)
    requires
        pp.wf(),
        aux_data.polys@.len() == 2 * pp.inverse_rate,
        aux_data.commitments.sized(pp.inverse_rate as nat),
    ensures
        r.points@.len() == 0,
        r.evals@.len() == 0,
        r.polys@.len() == 3 * pp.inverse_rate - 1,
        r.comms@.len() == 3 * pp.inverse_rate - 1,
        forall|i: int|
            0 <= i < 2 * pp.inverse_rate ==> *(#[trigger] r.polys@[i]) == aux_data.polys@[i],
        forall|i: int|
            0 <= i < pp.inverse_rate - 1 ==> *(#[trigger] r.polys@[2 * pp.inverse_rate + i])
                == pp.e_polys@[i],
        forall|i: int|
            0 <= i < 2 * pp.inverse_rate ==> *(#[trigger] r.comms@[i])
                == aux_data.commitments.all()[i],
        forall|i: int|
            0 <= i < pp.inverse_rate - 1 ==> *(#[trigger] r.comms@[2 * pp.inverse_rate + i])
                == pp.e_commitments@[i],
{
    proof {
        assert(mat(pp.e_polys@).len() == pp.e_polys@.len());
        assert(pp.qa_params.coeffs().len() == pp.inverse_rate - 1);
    }
    let polys = crate::quasar_gkr::refs_of(&aux_data.polys, &pp.e_polys);
    let mut comms = flatten_aux_commitment_refs(&aux_data.commitments, pp.inverse_rate);
    append_refs(&mut comms, &pp.e_commitments);
    QABaseProverOpeningAccumulator { polys, comms, points: Vec::new(), evals: Vec::new() }
}

/// Appends references to all items of a list.
fn append_refs<'a, T>(list: &mut Vec<&'a T>, items: &'a [T])
    ensures
        final(list)@.len() == old(list)@.len() + items@.len(),
        forall|i: int| 0 <= i < old(list)@.len() ==> #[trigger] final(list)@[i] == old(list)@[i],
        forall|i: int|
            0 <= i < items@.len() ==> *(#[trigger] final(list)@[old(list)@.len() + i])
                == items@[i],
{
    let ghost start = list@;
    let mut i: usize = 0;
    while i < items.len()
        invariant
            i <= items@.len(),
            list@.len() == start.len() + i,
            forall|k: int| 0 <= k < start.len() ==> #[trigger] list@[k] == start[k],
            forall|k: int| 0 <= k < i ==> *(#[trigger] list@[start.len() + k]) == items@[k],
        decreases items@.len() - i,
    {
        list.push(&items[i]);
        i = i + 1;
    }
}

/// The commitments that all claims of the verifier refer to, without claims yet.
pub fn build_qabase_verifier_opening_accumulator<'a, F: PrimeField, C>(
    vp: &'a QABaseVerifierParams<F, C>,
    aux_commitments: &'a QABaseAuxCommitments<C>,
) -> (r: QABaseVerifierOpeningAccumulator<'a, F, C>)
    requires
        vp.wf(),
        aux_commitments.sized(vp.inverse_rate as nat),
    ensures
        r.points@.len() == 0,
        r.evals@.len() == 0,
        r.comms@.len() == 3 * vp.inverse_rate - 1,
        forall|i: int|
            0 <= i < 2 * vp.inverse_rate ==> *(#[trigger] r.comms@[i]) == aux_commitments.all()[i],
        forall|i: int|
            0 <= i < vp.inverse_rate - 1 ==> *(#[trigger] r.comms@[2 * vp.inverse_rate + i])
                == vp.e_commitments@[i],
{
    let mut comms = flatten_aux_commitment_refs(aux_commitments, vp.inverse_rate);
    append_refs(&mut comms, &vp.e_commitments);
    QABaseVerifierOpeningAccumulator { comms, points: Vec::new(), evals: Vec::new() }
}

/// Appends the polynomials and commitments of a second encoding.
pub fn extend_prover_opening_accumulator_with_eval_aux<'a, F: PrimeField, C>(
    acc: &mut QABaseProverOpeningAccumulator<'a, F, C>,
    eval_aux_data: &'a QABaseAuxProverData<F, C>,
    rho: usize,
) -> (r: QABaseEvalAuxLayout)
    requires
        rho >= 2,
        eval_aux_data.commitments.sized(rho as nat),
        eval_aux_data.polys@.len() == 2 * rho,
        old(acc).polys@.len() == 3 * rho - 1,
        old(acc).comms@.len() == 3 * rho - 1,
        5 * rho <= usize::MAX,
    ensures
        r.wf(),
        r.rho == rho,
        r.q_aux_start == 3 * rho - 1,
        r.e_start == 2 * rho,
        final(acc).points == old(acc).points,
        final(acc).evals == old(acc).evals,
        final(acc).polys@.len() == 5 * rho - 1,
        final(acc).comms@.len() == 5 * rho - 1,
        forall|i: int|
            0 <= i < 3 * rho - 1 ==> #[trigger] final(acc).polys@[i] == old(acc).polys@[i],
        forall|i: int|
            0 <= i < 3 * rho - 1 ==> #[trigger] final(acc).comms@[i] == old(acc).comms@[i],
        forall|i: int|
            0 <= i < 2 * rho ==> *(#[trigger] final(acc).polys@[3 * rho - 1 + i])
                == eval_aux_data.polys@[i],
        forall|i: int|
            0 <= i < 2 * rho ==> *(#[trigger] final(acc).comms@[3 * rho - 1 + i])
                == eval_aux_data.commitments.all()[i],
{
    let q_aux_start: usize = acc.polys.len();
    append_refs(&mut acc.polys, &eval_aux_data.polys);
    let mut refs = flatten_aux_commitment_refs(&eval_aux_data.commitments, rho);
    acc.comms.append(&mut refs);
    QABaseEvalAuxLayout { rho, q_aux_start, e_start: 2 * rho }
}

/// Appends the commitments of a second encoding.
pub fn extend_verifier_opening_accumulator_with_eval_aux<'a, F: PrimeField, C>(
    acc: &mut QABaseVerifierOpeningAccumulator<'a, F, C>,
    eval_aux_commitments: &'a QABaseAuxCommitments<C>,
    rho: usize,
) -> (r: QABaseEvalAuxLayout)
    requires
        rho >= 2,
        eval_aux_commitments.sized(rho as nat),
        old(acc).comms@.len() == 3 * rho - 1,
        5 * rho <= usize::MAX,
    ensures
        r.wf(),
        r.rho == rho,
        r.q_aux_start == 3 * rho - 1,
        r.e_start == 2 * rho,
        final(acc).points == old(acc).points,
        final(acc).evals == old(acc).evals,
        final(acc).comms@.len() == 5 * rho - 1,
        forall|i: int|
            0 <= i < 3 * rho - 1 ==> #[trigger] final(acc).comms@[i] == old(acc).comms@[i],
        forall|i: int|
            0 <= i < 2 * rho ==> *(#[trigger] final(acc).comms@[3 * rho - 1 + i])
                == eval_aux_commitments.all()[i],
{
    let q_aux_start: usize = acc.comms.len();
    let mut refs = flatten_aux_commitment_refs(eval_aux_commitments, rho);
    acc.comms.append(&mut refs);
    QABaseEvalAuxLayout { rho, q_aux_start, e_start: 2 * rho }
}

/// Both sum-checks of one encoding.
pub struct QABaseEncodingRelationsBatchedWhtProof<F> {
    pub batched_wht: QABaseBatchedWhtRelationProof<F>,
    pub scaling: QABaseScalingRelationProof<F>,
}

impl<F: PrimeField> QABaseEncodingRelationsBatchedWhtProof<F> {
    /// The numbers of values fit a rate.
    pub open spec fn sized(self, rho: nat) -> bool {
        &&& self.batched_wht.gammas@.len() == rho
        &&& self.batched_wht.output_evals_at_gammas@.len() == rho
        &&& self.batched_wht.input_evals_at_sc_point@.len() == rho
        &&& self.scaling.e_evals_at_sc_point@.len() + 1 == rho
    }
}

/// What a run of the prover of both relations wrote and found.
pub open spec fn encoding_written<F: PrimeField, O>(
    p: QABaseEncodingRelationsBatchedWhtProof<F>,
    msg: Seq<int>,
    e: Seq<Seq<int>>,
    log0: Seq<Event<O>>,
    log1: Seq<Event<O>>,
) -> bool {
    let scaled = scaled_blocks::<F>(msg, e);
    exists|mid: Seq<Event<O>>|
        {
            &&& #[trigger] wht_written::<F, O>(
                p.batched_wht,
                wht_inputs(msg, scaled),
                wht_inputs(walsh::<F>(msg), parities::<F>(msg, e)),
                log2(msg.len() as int),
                log0,
                mid,
            )
            &&& scaling_written::<F, O>(p.scaling, scaled, e, walsh::<F>(msg), mid, log1)
        }
}

/// Proves both relations of an encoding.
pub fn prove_qabase_encoding_relations_batched_wht_sumcheck<
    F: PrimeField,
    O,
    T: TranscriptWrite<F, O>,
>(qa_params: &QAParams<F>, witness: &QAWitness<F>, transcript: &mut T) -> (r: Result<
    QABaseEncodingRelationsBatchedWhtProof<F>,
    Error,
>)
    requires
        qa_params.wf(witness.msg@.len()),
        witness.of(vals(witness.msg@), qa_params.coeffs()),
        2 * qa_params.inverse_rate <= usize::MAX,
    ensures
        T::infallible() ==> r is Ok,
        r matches Err(e) ==> e is Transcript,
        r matches Ok(p) ==> {
            &&& p.sized(qa_params.inverse_rate as nat)
            &&& encoding_written::<F, O>(
                p,
                vals(witness.msg@),
                qa_params.coeffs(),
                old(transcript).log(),
                final(transcript).log(),
            )
        },
{
    let ghost log0 = transcript.log();
    let ghost msg = vals(witness.msg@);
    let ghost e = qa_params.coeffs();
    proof {
        vals_canon(witness.msg@);
        assert(msg.len() == witness.msg@.len());
        encoding_relations_hold(*witness, msg, e);
        assert(vals(witness.msg_wht@).len() == witness.msg_wht@.len());
        assert(mat(witness.scaled_wht_blocks@).len() == witness.scaled_wht_blocks@.len());
        assert(mat(witness.parity_blocks@).len() == witness.parity_blocks@.len());
        assert(e =~= mat(qa_params.e@));
        crate::qa_code::walsh_shape::<F>(msg);
    }
    let (inputs, outputs) = encoding_wht_lists(witness);
    proof {
        assert(mat(inputs@)[0] == msg);
        assert(inputs@[0]@.len() == msg.len()) by {
            assert(vals(inputs@[0]@) == msg);
        }
    }
    let batched_wht = match prove_batched_wht_relations_sumcheck(&inputs, &outputs, transcript) {
        Ok(p) => p,
        Err(e) => {
            return Err(e);
        },
    };
    let ghost mid = transcript.log();
    proof {
        let scaled = mat(witness.scaled_wht_blocks@);
        assert forall|i: int| 0 <= i < scaled.len() implies (#[trigger] scaled[i]).len()
            == msg.len() by {
            assert(e[i].len() == msg.len());
        }
        assert(vals(batched_wht.output_evals_at_gammas@).len()
            == batched_wht.output_evals_at_gammas@.len());
        assert(vals(batched_wht.input_evals_at_sc_point@).len()
            == batched_wht.input_evals_at_sc_point@.len());
    }
    let scaling = match prove_scaling_relation_sumcheck(
        qa_params,
        &witness.msg_wht,
        &witness.scaled_wht_blocks,
        transcript,
    ) {
        Ok(p) => p,
        Err(e) => {
            return Err(e);
        },
    };
    let p = QABaseEncodingRelationsBatchedWhtProof { batched_wht, scaling };
    proof {
        assert(vals(p.scaling.e_evals_at_sc_point@).len() == p.scaling.e_evals_at_sc_point@.len());
        assert(wht_written::<F, O>(
            p.batched_wht,
            wht_inputs(msg, scaled_blocks::<F>(msg, e)),
            wht_inputs(walsh::<F>(msg), parities::<F>(msg, e)),
            log2(msg.len() as int),
            log0,
            mid,
        ));
    }
    Ok(p)
}

/// Proves both relations of the encoding of the row that a point selects.
pub fn prove_qabase_eval_encoding_relations<F: PrimeField, O, C, T: TranscriptWrite<F, O>>(
    pp: &QABaseProverParams<F, C>,
    eval_witness: &QABaseEvalWitness<F>,
    transcript: &mut T,
) -> (r: Result<QABaseEncodingRelationsBatchedWhtProof<F>, Error>)
    requires
        pp.wf(),
        eval_witness.eval_msg@.len() == exp2(pp.num_vars as nat),
        eval_witness.eval_qa_witness.of(vals(eval_witness.eval_msg@), pp.qa_params.coeffs()),
        2 * pp.inverse_rate <= usize::MAX,
    ensures
        T::infallible() ==> r is Ok,
        r matches Err(e) ==> e is Transcript,
        r matches Ok(p) ==> {
            &&& p.sized(pp.inverse_rate as nat)
            &&& encoding_written::<F, O>(
                p,
                vals(eval_witness.eval_msg@),
                pp.qa_params.coeffs(),
                old(transcript).log(),
                final(transcript).log(),
            )
        },
{
    proof {
        let w = eval_witness.eval_qa_witness;
        assert(vals(w.msg@).len() == w.msg@.len());
        assert(vals(eval_witness.eval_msg@).len() == eval_witness.eval_msg@.len());
    }
    prove_qabase_encoding_relations_batched_wht_sumcheck(
        &pp.qa_params,
        &eval_witness.eval_qa_witness,
        transcript,
    )
}

/// What a run of the verifier of both relations read and found.
pub open spec fn encoding_read<F: PrimeField, O>(
    p: QABaseEncodingRelationsBatchedWhtProof<F>,
    ok: bool,
    num_vars: nat,
    rho: nat,
    log0: Seq<Event<O>>,
    log1: Seq<Event<O>>,
) -> bool {
    exists|mid: Seq<Event<O>>, ok_wht: bool, ok_scaling: bool|
        {
            &&& #[trigger] wht_read::<F, O>(p.batched_wht, ok_wht, num_vars, rho, log0, mid)
            &&& #[trigger] scaling_read::<F, O>(
                p.scaling,
                ok_scaling,
                num_vars,
                (rho - 1) as nat,
                mid,
                log1,
            )
            &&& ok == (ok_wht && ok_scaling)
        }
}

/// The sum-check of one of both relations was refused.
pub open spec fn encoding_refused<F: PrimeField, O>(
    num_vars: nat,
    rho: nat,
    log0: Seq<Event<O>>,
    log1: Seq<Event<O>>,
) -> bool {
    ||| (exists|eta: int, gammas: Seq<Seq<int>>, ys: Seq<int>| #[trigger]
        wht_refused::<F, O>(num_vars, rho, eta, gammas, ys, log0, log1))
    ||| (exists|
        p: QABaseBatchedWhtRelationProof<F>,
        ok: bool,
        mid: Seq<Event<O>>,
        alpha: int,
        beta: Seq<int>,
    |
        {
            &&& #[trigger] wht_read::<F, O>(p, ok, num_vars, rho, log0, mid)
            &&& beta.len() == num_vars
            &&& #[trigger] sumcheck_refused::<F, O>(
                num_vars,
                3,
                0,
                mid + drawn(seq![alpha]) + drawn(beta),
                log1,
            )
        })
}

/// How many field elements both relations send.
pub open spec fn encoding_fields(num_vars: nat, rho: nat) -> nat {
    wht_fields(num_vars, rho) + scaling_fields(num_vars, (rho - 1) as nat)
}

/// How many messages the transform relations have.
pub proof fn wht_went<F: PrimeField, O>(
    p: QABaseBatchedWhtRelationProof<F>,
    ok: bool,
    num_vars: nat,
    k: nat,
    log0: Seq<Event<O>>,
    log1: Seq<Event<O>>,
)
    requires
        wht_read::<F, O>(p, ok, num_vars, k, log0, log1),
    ensures
        went(log0, log1, wht_fields(num_vars, k), 0),
{
    let z = vals(p.sc_point@);
    let (eta, gammas) = (p.eta.val(), mat(p.gammas@));
    let (ys, xs) = (vals(p.output_evals_at_gammas@), vals(p.input_evals_at_sc_point@));
    let a = log0 + drawn::<O>(seq![eta]);
    let b = a + drawn::<O>(flatten(gammas));
    let c = b + sent_fields::<O>(ys);
    let mid = choose|mid: Seq<Event<O>>| #[trigger]
        sumcheck_verified::<F, O>(
            num_vars,
            2,
            p.claimed_sum.val(),
            p.terminal_eval.val(),
            z,
            c,
            mid,
        ) && log1 == mid + sent_fields(xs);
    went_plain::<O>(log0, seq![eta], Seq::empty());
    went_plain::<O>(a, flatten(gammas), Seq::empty());
    went_plain::<O>(b, ys, Seq::empty());
    sumcheck_went::<F, O>(
        num_vars,
        2,
        p.claimed_sum.val(),
        p.terminal_eval.val(),
        z,
        c,
        mid,
    );
    went_plain::<O>(mid, xs, Seq::empty());
}

/// How many messages the scaling relation has.
pub proof fn scaling_went<F: PrimeField, O>(
    p: QABaseScalingRelationProof<F>,
    ok: bool,
    num_vars: nat,
    num_vectors: nat,
    log0: Seq<Event<O>>,
    log1: Seq<Event<O>>,
)
    requires
        scaling_read::<F, O>(p, ok, num_vars, num_vectors, log0, log1),
    ensures
        went(log0, log1, scaling_fields(num_vars, num_vectors), 0),
{
    let z = vals(p.sc_point@);
    let (alpha, beta) = (seq![p.alpha.val()], vals(p.beta@));
    let pair = seq![p.v_prime_eval_at_sc_point.val(), p.u_prime_batch_eval_at_sc_point.val()];
    let es = vals(p.e_evals_at_sc_point@);
    let a = log0 + drawn::<O>(alpha);
    let b = a + drawn::<O>(beta);
    let mid = choose|mid: Seq<Event<O>>| #[trigger]
        sumcheck_verified::<F, O>(num_vars, 3, 0, p.terminal_eval.val(), z, b, mid) && log1 == mid
            + sent_fields(pair) + sent_fields(es);
    went_plain::<O>(log0, alpha, Seq::empty());
    went_plain::<O>(a, beta, Seq::empty());
    sumcheck_went::<F, O>(num_vars, 3, 0, p.terminal_eval.val(), z, b, mid);
    went_plain::<O>(mid, pair, Seq::empty());
    went_plain::<O>(mid + sent_fields::<O>(pair), es, Seq::empty());
}

/// How many messages both relations have.
pub proof fn encoding_went<F: PrimeField, O>(
    p: QABaseEncodingRelationsBatchedWhtProof<F>,
    ok: bool,
    num_vars: nat,
    rho: nat,
    log0: Seq<Event<O>>,
    log1: Seq<Event<O>>,
)
    requires
        encoding_read::<F, O>(p, ok, num_vars, rho, log0, log1),
    ensures
        went(log0, log1, encoding_fields(num_vars, rho), 0),
{
    let (mid, ok_wht, ok_scaling) = choose|mid: Seq<Event<O>>, ok_wht: bool, ok_scaling: bool|
        {
            &&& #[trigger] wht_read::<F, O>(p.batched_wht, ok_wht, num_vars, rho, log0, mid)
            &&& #[trigger] scaling_read::<F, O>(
                p.scaling,
                ok_scaling,
                num_vars,
                (rho - 1) as nat,
                mid,
                log1,
            )
            &&& ok == (ok_wht && ok_scaling)
        };
    wht_went::<F, O>(p.batched_wht, ok_wht, num_vars, rho, log0, mid);
    scaling_went::<F, O>(p.scaling, ok_scaling, num_vars, (rho - 1) as nat, mid, log1);
}

/// Verifies both relations of an encoding; the result says whether both
/// sum-checks end in what the values read give.
pub fn verify_qabase_encoding_relations_batched_wht_sumcheck<
    F: PrimeField,
    O,
    T: TranscriptRead<F, O>,
>(num_vars: usize, rho: usize, transcript: &mut T) -> (r: Result<
    (bool, QABaseEncodingRelationsBatchedWhtProof<F>),
    Error,
>)
    requires
        rho >= 2,
    ensures
        final(transcript).held() == old(transcript).held(),
        r matches Ok(result) ==> {
            &&& result.1.sized(rho as nat)
            &&& encoding_read::<F, O>(
                result.1,
                result.0,
                num_vars as nat,
                rho as nat,
                old(transcript).log(),
                final(transcript).log(),
            )
        },
        r matches Err(e) ==> cut_within(
            e,
            old(transcript).log(),
            final(transcript).log(),
            encoding_fields(num_vars as nat, rho as nat),
            0,
        ) || (round_error(e) && encoding_refused::<F, O>(
            num_vars as nat,
            rho as nat,
            old(transcript).log(),
            final(transcript).log(),
        )),
{
    let ghost log0 = transcript.log();
    let ghost n1 = wht_fields(num_vars as nat, rho as nat);
    let ghost n2 = scaling_fields(num_vars as nat, (rho - 1) as nat);
    let ghost all = encoding_fields(num_vars as nat, rho as nat);
    let (ok_wht, batched_wht) = match verify_batched_wht_relations_sumcheck(
        num_vars,
        rho,
        transcript,
    ) {
        Ok(result) => result,
        Err(e) => {
            proof {
                if cut_within(e, log0, transcript.log(), n1, 0) {
                    assert(went(log0, log0, 0, 0));
                    cut_later(e, log0, log0, transcript.log(), 0, 0, n1, 0, all, 0);
                }
            }
            return Err(e);
        },
    };
    let ghost mid = transcript.log();
    proof {
        wht_went::<F, O>(batched_wht, ok_wht, num_vars as nat, rho as nat, log0, mid);
    }
    let (ok_scaling, scaling) = match verify_scaling_relation_sumcheck(
        num_vars,
        rho - 1,
        transcript,
    ) {
        Ok(result) => result,
        Err(e) => {
            proof {
                if cut_within(e, mid, transcript.log(), n2, 0) {
                    cut_later(e, log0, mid, transcript.log(), n1, 0, n2, 0, all, 0);
                } else {
                    let (alpha, beta) = choose|alpha: int, beta: Seq<int>|
                        beta.len() == num_vars && #[trigger] sumcheck_refused::<F, O>(
                            num_vars as nat,
                            3,
                            0,
                            mid + drawn(seq![alpha]) + drawn(beta),
                            transcript.log(),
                        );
                    assert(wht_read::<F, O>(
                        batched_wht,
                        ok_wht,
                        num_vars as nat,
                        rho as nat,
                        log0,
                        mid,
                    ));
                }
            }
            return Err(e);
        },
    };
    let p = QABaseEncodingRelationsBatchedWhtProof { batched_wht, scaling };
    proof {
        assert(wht_read::<F, O>(
            p.batched_wht,
            ok_wht,
            num_vars as nat,
            rho as nat,
            log0,
            mid,
        ));
        assert(scaling_read::<F, O>(
            p.scaling,
            ok_scaling,
            num_vars as nat,
            (rho - 1) as nat,
            mid,
            transcript.log(),
        ));
    }
    let ok: bool = ok_wht && ok_scaling;
    Ok((ok, p))
}

/// The same with the sizes of the parameters, for the second encoding.
pub fn verify_qabase_eval_encoding_relations<F: PrimeField, O, C, T: TranscriptRead<F, O>>(
    vp: &QABaseVerifierParams<F, C>,
    transcript: &mut T,
) -> (r: Result<(bool, QABaseEncodingRelationsBatchedWhtProof<F>), Error>)
    requires
        vp.wf(),
    ensures
        final(transcript).held() == old(transcript).held(),
        r matches Ok(result) ==> {
            &&& result.1.sized(vp.inverse_rate as nat)
            &&& encoding_read::<F, O>(
                result.1,
                result.0,
                vp.num_vars as nat,
                vp.inverse_rate as nat,
                old(transcript).log(),
                final(transcript).log(),
            )
        },
        r matches Err(e) ==> cut_within(
            e,
            old(transcript).log(),
            final(transcript).log(),
            encoding_fields(vp.num_vars as nat, vp.inverse_rate as nat),
            0,
        ) || (round_error(e) && encoding_refused::<F, O>(
            vp.num_vars as nat,
            vp.inverse_rate as nat,
            old(transcript).log(),
            final(transcript).log(),
        )),
{
    verify_qabase_encoding_relations_batched_wht_sumcheck(
        vp.num_vars,
        vp.inverse_rate,
        transcript,
    )
}

/// What an honest prover writes about an encoding is accepted.
pub proof fn honest_encoding_is_accepted<F: PrimeField, O>(
    p: QABaseEncodingRelationsBatchedWhtProof<F>,
    witness: QAWitness<F>,
    msg: Seq<int>,
    e: Seq<Seq<int>>,
    log0: Seq<Event<O>>,
    log1: Seq<Event<O>>,
)
    requires
        witness.of(msg, e),
        vcanon::<F>(msg),
        is_pow2(msg.len() as int),
        rect(e, msg.len()),
        2 * (e.len() + 1) <= usize::MAX,
        encoding_written::<F, O>(p, msg, e, log0, log1),
    ensures
        encoding_read::<F, O>(p, true, log2(msg.len() as int), e.len() + 1, log0, log1),
{
    let scaled = scaled_blocks::<F>(msg, e);
    let inputs = wht_inputs(msg, scaled);
    let outputs = wht_inputs(walsh::<F>(msg), parities::<F>(msg, e));
    let n = log2(msg.len() as int);
    encoding_relations_hold(witness, msg, e);
    pow2_is_exp2(msg.len() as int);
    crate::qa_code::walsh_shape::<F>(msg);
    let mid = choose|mid: Seq<Event<O>>|
        {
            &&& #[trigger] wht_written::<F, O>(p.batched_wht, inputs, outputs, n, log0, mid)
            &&& scaling_written::<F, O>(p.scaling, scaled, e, walsh::<F>(msg), mid, log1)
        };
    honest_wht_run_is_accepted::<F, O>(p.batched_wht, inputs, outputs, n, log0, mid);
    honest_scaling_run_is_accepted::<F, O>(
        p.scaling,
        scaled,
        e,
        walsh::<F>(msg),
        mid,
        log1,
    );
    assert(wht_read::<F, O>(p.batched_wht, true, n, e.len() + 1, log0, mid));
    assert(scaling_read::<F, O>(p.scaling, true, n, (e.len() + 1 - 1) as nat, mid, log1));
}

/// The claims of the transform relations: for every relation one about its
/// output and one about its input.
pub open spec fn wht_claims(
    layout: QABaseEvalAuxLayout,
    gammas: Seq<Seq<int>>,
    outputs: Seq<int>,
    sc_point: Seq<int>,
    inputs: Seq<int>,
) -> Seq<Claim> {
    Seq::new(
        (2 * layout.rho) as nat,
        |s: int|
            {
                let t = s / 2;
                if s % 2 == 0 {
                    Claim {
                        poly: if t == 0 {
                            layout.v_prime()
                        } else {
                            layout.block(t)
                        },
                        point: gammas[t],
                        value: outputs[t],
                    }
                } else {
                    Claim {
                        poly: if t == 0 {
                            layout.block(0)
                        } else {
                            layout.u_prime(t - 1)
                        },
                        point: sc_point,
                        value: inputs[t],
                    }
                }
            },
    )
}

/// The claims of the scaling relation: the transformed message, the scaled
/// blocks, the coefficient vectors.
pub open spec fn scaling_claims(
    layout: QABaseEvalAuxLayout,
    sc_point: Seq<int>,
    v: int,
    us: Seq<int>,
    es: Seq<int>,
) -> Seq<Claim> {
    let k = (layout.rho - 1) as nat;
    seq![Claim { poly: layout.v_prime(), point: sc_point, value: v }] + Seq::new(
        k,
        |i: int| Claim { poly: layout.u_prime(i), point: sc_point, value: us[i] },
    ) + Seq::new(k, |i: int| Claim { poly: layout.e(i), point: sc_point, value: es[i] })
}

/// All claims of one encoding.
pub open spec fn encoding_claims<F: PrimeField>(
    layout: QABaseEvalAuxLayout,
    p: QABaseEncodingRelationsBatchedWhtProof<F>,
    us: Seq<int>,
) -> Seq<Claim> {
    wht_claims(
        layout,
        mat(p.batched_wht.gammas@),
        vals(p.batched_wht.output_evals_at_gammas@),
        vals(p.batched_wht.sc_point@),
        vals(p.batched_wht.input_evals_at_sc_point@),
    ) + scaling_claims(
        layout,
        vals(p.scaling.sc_point@),
        p.scaling.v_prime_eval_at_sc_point.val(),
        us,
        vals(p.scaling.e_evals_at_sc_point@),
    )
}

/// Adds the claims of the transform relations.
fn append_wht_claims<F: PrimeField>(
    points: &mut Vec<Vec<F>>,
    evals: &mut Vec<Evaluation<F>>,
    layout: QABaseEvalAuxLayout,
    p: &QABaseBatchedWhtRelationProof<F>,
)
    requires
        layout.wf(),
        p.gammas@.len() == layout.rho,
        p.output_evals_at_gammas@.len() == layout.rho,
        p.input_evals_at_sc_point@.len() == layout.rho,
    ensures
        claim_set(final(points)@, final(evals)@) == claim_set(
            old(points)@,
            old(evals)@,
        ).append_claims(
            wht_claims(
                layout,
                mat(p.gammas@),
                vals(p.output_evals_at_gammas@),
                vals(p.sc_point@),
                vals(p.input_evals_at_sc_point@),
            ),
        ),
{
    let ghost set0 = claim_set(points@, evals@);
    let ghost all = wht_claims(
        layout,
        mat(p.gammas@),
        vals(p.output_evals_at_gammas@),
        vals(p.sc_point@),
        vals(p.input_evals_at_sc_point@),
    );
    let mut t: usize = 0;
    assert(all.take(0) =~= Seq::empty());
    while t < layout.rho
        invariant
            t <= layout.rho,
            layout.wf(),
            p.gammas@.len() == layout.rho,
            p.output_evals_at_gammas@.len() == layout.rho,
            p.input_evals_at_sc_point@.len() == layout.rho,
            all == wht_claims(
                layout,
                mat(p.gammas@),
                vals(p.output_evals_at_gammas@),
                vals(p.sc_point@),
                vals(p.input_evals_at_sc_point@),
            ),
            claim_set(points@, evals@) == set0.append_claims(all.take(2 * t)),
        decreases layout.rho - t,
    {
        let output_poly: usize = if t == 0 {
            layout.q_aux_start + layout.rho
        } else {
            layout.q_aux_start + t
        };
        let input_poly: usize = if t == 0 {
            layout.q_aux_start
        } else {
            layout.q_aux_start + layout.rho + t
        };
        proof {
            assert((2 * t) % 2 == 0 && (2 * t) / 2 == t);
            assert((2 * t + 1) % 2 == 1 && (2 * t + 1) / 2 == t as int);
            append_claims_take(set0, all, 2 * t);
            append_claims_take(set0, all, 2 * t + 1);
        }
        append_opening_claim(
            points,
            evals,
            output_poly,
            copied(&p.gammas[t]),
            p.output_evals_at_gammas[t],
        );
        append_opening_claim(
            points,
            evals,
            input_poly,
            copied(&p.sc_point),
            p.input_evals_at_sc_point[t],
        );
        t = t + 1;
    }
    assert(all.take(2 * t) =~= all);
}

/// Adds the claims of the scaling relation.
fn append_scaling_claims<F: PrimeField>(
    points: &mut Vec<Vec<F>>,
    evals: &mut Vec<Evaluation<F>>,
    layout: QABaseEvalAuxLayout,
    p: &QABaseScalingRelationProof<F>,
    us: &[F],
)
    requires
        layout.wf(),
        us@.len() + 1 == layout.rho,
        p.e_evals_at_sc_point@.len() + 1 == layout.rho,
    ensures
        claim_set(final(points)@, final(evals)@) == claim_set(
            old(points)@,
            old(evals)@,
        ).append_claims(
            scaling_claims(
                layout,
                vals(p.sc_point@),
                p.v_prime_eval_at_sc_point.val(),
                vals(us@),
                vals(p.e_evals_at_sc_point@),
            ),
        ),
{
    let ghost set0 = claim_set(points@, evals@);
    let ghost all = scaling_claims(
        layout,
        vals(p.sc_point@),
        p.v_prime_eval_at_sc_point.val(),
        vals(us@),
        vals(p.e_evals_at_sc_point@),
    );
    let k: usize = layout.rho - 1;
    proof {
        assert(all.take(0) =~= Seq::empty());
        append_claims_take(set0, all, 0);
    }
    append_opening_claim(
        points,
        evals,
        layout.q_aux_start + layout.rho,
        copied(&p.sc_point),
        p.v_prime_eval_at_sc_point,
    );
    let mut i: usize = 0;
    while i < k
        invariant
            i <= k,
            k == layout.rho - 1,
            layout.wf(),
            us@.len() == k,
            p.e_evals_at_sc_point@.len() == k,
            all == scaling_claims(
                layout,
                vals(p.sc_point@),
                p.v_prime_eval_at_sc_point.val(),
                vals(us@),
                vals(p.e_evals_at_sc_point@),
            ),
            claim_set(points@, evals@) == set0.append_claims(all.take(1 + i)),
        decreases k - i,
    {
        proof {
            append_claims_take(set0, all, 1 + i);
        }
        append_opening_claim(
            points,
            evals,
            layout.q_aux_start + layout.rho + 1 + i,
            copied(&p.sc_point),
            us[i],
        );
        i = i + 1;
    }
    let mut i: usize = 0;
    while i < k
        invariant
            i <= k,
            k == layout.rho - 1,
            layout.wf(),
            us@.len() == k,
            p.e_evals_at_sc_point@.len() == k,
            all == scaling_claims(
                layout,
                vals(p.sc_point@),
                p.v_prime_eval_at_sc_point.val(),
                vals(us@),
                vals(p.e_evals_at_sc_point@),
            ),
            claim_set(points@, evals@) == set0.append_claims(all.take(1 + k + i)),
        decreases k - i,
    {
        proof {
            append_claims_take(set0, all, 1 + k + i);
        }
        append_opening_claim(
            points,
            evals,
            layout.e_start + i,
            copied(&p.sc_point),
            p.e_evals_at_sc_point[i],
        );
        i = i + 1;
    }
    assert(all.take(1 + k + i) =~= all);
}

/// Writes the values of the scaled blocks at the point of the scaling relation
/// and adds all claims of one encoding.
pub fn collect_qabase_eval_encoding_basefold_claims_prover<F: PrimeField, O, T: TranscriptWrite<F, O>>(
    points: &mut Vec<Vec<F>>,
    evals: &mut Vec<Evaluation<F>>,
    layout: QABaseEvalAuxLayout,
    scaled_wht_blocks: &[Vec<F>],
    encoding_relations: &QABaseEncodingRelationsBatchedWhtProof<F>,
    transcript: &mut T,
) -> (r: Result<(), Error>)
    requires
        layout.wf(),
        encoding_relations.sized(layout.rho as nat),
        scaled_wht_blocks@.len() + 1 == layout.rho,
        rect(mat(scaled_wht_blocks@), exp2(encoding_relations.scaling.sc_point@.len())),
        batch_value::<F>(
            encoding_relations.scaling.alpha.val(),
            values_at::<F>(
                mat(scaled_wht_blocks@),
                vals(encoding_relations.scaling.sc_point@),
            ),
        ) == encoding_relations.scaling.u_prime_batch_eval_at_sc_point.val(),
        batch_value::<F>(
            encoding_relations.scaling.alpha.val(),
            vals(encoding_relations.scaling.e_evals_at_sc_point@),
        ) == encoding_relations.scaling.e_batch_eval_at_sc_point.val(),
    ensures
        T::infallible() ==> r is Ok,
        r matches Err(e) ==> e is Transcript,
        r is Ok ==> {
            let us = values_at::<F>(
                mat(scaled_wht_blocks@),
                vals(encoding_relations.scaling.sc_point@),
            );
            &&& claim_set(final(points)@, final(evals)@) == claim_set(
                old(points)@,
                old(evals)@,
            ).append_claims(encoding_claims(layout, *encoding_relations, us))
            &&& final(transcript).log() == old(transcript).log() + sent_fields(us)
        },
{
    let ghost set0 = claim_set(points@, evals@);
    append_wht_claims(points, evals, layout, &encoding_relations.batched_wht);
    let us = values_of(scaled_wht_blocks, &encoding_relations.scaling.sc_point);
    match write_field_elements(transcript, &us) {
        Ok(_) => {},
        Err(e) => {
            return Err(e);
        },
    }
    append_scaling_claims(points, evals, layout, &encoding_relations.scaling, &us);
    proof {
        let p = *encoding_relations;
        append_claims_concat(
            set0,
            wht_claims(
                layout,
                mat(p.batched_wht.gammas@),
                vals(p.batched_wht.output_evals_at_gammas@),
                vals(p.batched_wht.sc_point@),
                vals(p.batched_wht.input_evals_at_sc_point@),
            ),
            scaling_claims(
                layout,
                vals(p.scaling.sc_point@),
                p.scaling.v_prime_eval_at_sc_point.val(),
                vals(us@),
                vals(p.scaling.e_evals_at_sc_point@),
            ),
        );
    }
    Ok(())
}

/// The values of the scaled blocks were read, the claims added, and the result
/// says whether both batches fit.
pub open spec fn encoding_claims_read<F: PrimeField, O>(
    layout: QABaseEvalAuxLayout,
    p: QABaseEncodingRelationsBatchedWhtProof<F>,
    us: Seq<int>,
    ok: bool,
    set0: ClaimSet,
    set1: ClaimSet,
    log0: Seq<Event<O>>,
    log1: Seq<Event<O>>,
) -> bool {
    &&& us.len() + 1 == layout.rho
    &&& set1 == set0.append_claims(encoding_claims(layout, p, us))
    &&& log1 == log0 + sent_fields(us)
    &&& ok == ({
        &&& batch_value::<F>(p.scaling.alpha.val(), us)
            == p.scaling.u_prime_batch_eval_at_sc_point.val()
        &&& batch_value::<F>(p.scaling.alpha.val(), vals(p.scaling.e_evals_at_sc_point@))
            == p.scaling.e_batch_eval_at_sc_point.val()
    })
}

/// Reads the values of the scaled blocks at the point of the scaling relation,
/// adds all claims of one encoding and says whether both batches fit.
pub fn collect_qabase_eval_encoding_basefold_claims_verifier<F: PrimeField, O, T: TranscriptRead<F, O>>(
    points: &mut Vec<Vec<F>>,
    evals: &mut Vec<Evaluation<F>>,
    layout: QABaseEvalAuxLayout,
    encoding_relations: &QABaseEncodingRelationsBatchedWhtProof<F>,
    transcript: &mut T,
) -> (r: Result<bool, Error>)
    requires
        layout.wf(),
        encoding_relations.sized(layout.rho as nat),
    ensures
        final(transcript).held() == old(transcript).held(),
        r matches Err(e) ==> cut_within(
            e,
            old(transcript).log(),
            final(transcript).log(),
            (layout.rho - 1) as nat,
            0,
        ),
        r matches Ok(ok) ==> exists|us: Seq<int>| #[trigger]
            encoding_claims_read::<F, O>(
                layout,
                *encoding_relations,
                us,
                ok,
                claim_set(old(points)@, old(evals)@),
                claim_set(final(points)@, final(evals)@),
                old(transcript).log(),
                final(transcript).log(),
            ),
{
    let ghost set0 = claim_set(points@, evals@);
    let ghost log0 = transcript.log();
    append_wht_claims(points, evals, layout, &encoding_relations.batched_wht);
    let us = match read_field_elements(transcript, layout.rho - 1) {
        Ok(us) => us,
        Err(e) => {
            return Err(e);
        },
    };
    let scaling = &encoding_relations.scaling;
    append_scaling_claims(points, evals, layout, scaling, &us);
    let u_batch = batched_value(scaling.alpha, &us);
    let e_batch = batched_value(scaling.alpha, &scaling.e_evals_at_sc_point);
    let ok: bool = u_batch.equals(scaling.u_prime_batch_eval_at_sc_point) && e_batch.equals(
        scaling.e_batch_eval_at_sc_point,
    );
    proof {
        let p = *encoding_relations;
        append_claims_concat(
            set0,
            wht_claims(
                layout,
                mat(p.batched_wht.gammas@),
                vals(p.batched_wht.output_evals_at_gammas@),
                vals(p.batched_wht.sc_point@),
                vals(p.batched_wht.input_evals_at_sc_point@),
            ),
            scaling_claims(
                layout,
                vals(p.scaling.sc_point@),
                p.scaling.v_prime_eval_at_sc_point.val(),
                vals(us@),
                vals(p.scaling.e_evals_at_sc_point@),
            ),
        );
        assert(vals(us@).len() == us@.len());
        assert(encoding_claims_read::<F, O>(
            layout,
            *encoding_relations,
            vals(us@),
            ok,
            claim_set(old(points)@, old(evals)@),
            claim_set(points@, evals@),
            old(transcript).log(),
            transcript.log(),
        ));
    }
    let r: Result<bool, Error> = Ok(ok);
    assert(r->Ok_0 == ok);
    r
}

/// The same for the first encoding, whose polynomials come first.
pub fn collect_qabase_item2_batched_wht_basefold_claims_prover<
    F: PrimeField,
    O,
    T: TranscriptWrite<F, O>,
>(
    points: &mut Vec<Vec<F>>,
    evals: &mut Vec<Evaluation<F>>,
    rho: usize,
    scaled_wht_blocks: &[Vec<F>],
    encoding_relations: &QABaseEncodingRelationsBatchedWhtProof<F>,
    transcript: &mut T,
) -> (r: Result<(), Error>)
    requires
        rho >= 2,
        3 * rho <= usize::MAX,
        encoding_relations.sized(rho as nat),
        scaled_wht_blocks@.len() + 1 == rho,
        rect(mat(scaled_wht_blocks@), exp2(encoding_relations.scaling.sc_point@.len())),
        batch_value::<F>(
            encoding_relations.scaling.alpha.val(),
            values_at::<F>(
                mat(scaled_wht_blocks@),
                vals(encoding_relations.scaling.sc_point@),
            ),
        ) == encoding_relations.scaling.u_prime_batch_eval_at_sc_point.val(),
        batch_value::<F>(
            encoding_relations.scaling.alpha.val(),
            vals(encoding_relations.scaling.e_evals_at_sc_point@),
        ) == encoding_relations.scaling.e_batch_eval_at_sc_point.val(),
    ensures
        T::infallible() ==> r is Ok,
        r matches Err(e) ==> e is Transcript,
        r is Ok ==> {
            let layout = QABaseEvalAuxLayout {
                rho,
                q_aux_start: 0,
                e_start: (2 * rho) as usize,
            };
            let us = values_at::<F>(
                mat(scaled_wht_blocks@),
                vals(encoding_relations.scaling.sc_point@),
            );
            &&& claim_set(final(points)@, final(evals)@) == claim_set(
                old(points)@,
                old(evals)@,
            ).append_claims(encoding_claims(layout, *encoding_relations, us))
            &&& final(transcript).log() == old(transcript).log() + sent_fields(us)
        },
{
    let layout = proximity_layout(rho);
    collect_qabase_eval_encoding_basefold_claims_prover(
        points,
        evals,
        layout,
        scaled_wht_blocks,
        encoding_relations,
        transcript,
    )
}

/// The same for the first encoding, whose polynomials come first.
pub fn collect_qabase_item2_batched_wht_basefold_claims_verifier<
    F: PrimeField,
    O,
    T: TranscriptRead<F, O>,
>(
    points: &mut Vec<Vec<F>>,
    evals: &mut Vec<Evaluation<F>>,
    rho: usize,
    encoding_relations: &QABaseEncodingRelationsBatchedWhtProof<F>,
    transcript: &mut T,
) -> (r: Result<bool, Error>)
    requires
        rho >= 2,
        3 * rho <= usize::MAX,
        encoding_relations.sized(rho as nat),
    ensures
        final(transcript).held() == old(transcript).held(),
        r matches Err(e) ==> cut_within(
            e,
            old(transcript).log(),
            final(transcript).log(),
            (rho - 1) as nat,
            0,
        ),
        r matches Ok(ok) ==> exists|us: Seq<int>| #[trigger]
            encoding_claims_read::<F, O>(
                (QABaseEvalAuxLayout { rho, q_aux_start: 0, e_start: (2 * rho) as usize }),
                *encoding_relations,
                us,
                ok,
                claim_set(old(points)@, old(evals)@),
                claim_set(final(points)@, final(evals)@),
                old(transcript).log(),
                final(transcript).log(),
            ),
{
    let layout = proximity_layout(rho);
    collect_qabase_eval_encoding_basefold_claims_verifier(
        points,
        evals,
        layout,
        encoding_relations,
        transcript,
    )
}

/// The claim that the first block of an encoding has a value at a point.
pub open spec fn value_claim(layout: QABaseEvalAuxLayout, z_right: Seq<int>, value: int) -> Claim {
    Claim { poly: layout.block(0), point: z_right, value }
}

/// Adds the claim about the value, and says whether it is true of the witness.
pub fn collect_qabase_eval_value_claim_prover<F: PrimeField>(
    points: &mut Vec<Vec<F>>,
    evals: &mut Vec<Evaluation<F>>,
    layout: QABaseEvalAuxLayout,
    z_right: &[F],
    claimed_value: F,
    eval_witness: &QABaseEvalWitness<F>,
) -> (r: bool)
    requires
        eval_witness.eval_msg@.len() == exp2(z_right@.len()),
    ensures
        r == (claimed_value.val() == mle::<F>(vals(eval_witness.eval_msg@), vals(z_right@))),
        claim_set(final(points)@, final(evals)@) == claim_set(
            old(points)@,
            old(evals)@,
        ).append_claim(value_claim(layout, vals(z_right@), claimed_value.val())),
{
    let actual = eval_mle_from_evals(&eval_witness.eval_msg, z_right);
    append_opening_claim(points, evals, layout.q_aux_start, copied(z_right), claimed_value);
    actual.equals(claimed_value)
}

/// Adds the claim about the value.
pub fn collect_qabase_eval_value_claim_verifier<F: PrimeField>(
    points: &mut Vec<Vec<F>>,
    evals: &mut Vec<Evaluation<F>>,
    layout: QABaseEvalAuxLayout,
    z_right: &[F],
    claimed_value: F,
)
    ensures
        claim_set(final(points)@, final(evals)@) == claim_set(
            old(points)@,
            old(evals)@,
        ).append_claim(value_claim(layout, vals(z_right@), claimed_value.val())),
{
    append_opening_claim(points, evals, layout.q_aux_start, copied(z_right), claimed_value);
}

/// The claim about the value is true exactly if the value is the one of the
/// whole matrix, read row by row, at the point of columns and rows.
pub proof fn value_claim_is_evaluation<F: PrimeField>(
    witness: QABaseEvalWitness<F>,
    rows: Seq<Seq<int>>,
    e: Seq<Seq<int>>,
    z_right: Seq<int>,
)
    requires
        rows.len() == exp2(witness.z_left@.len()),
        rect(rows, exp2(z_right.len())),
        witness.of(rows, e, exp2(z_right.len())),
    ensures
        mle::<F>(vals(witness.eval_msg@), z_right) == mle::<F>(
            flatten(rows),
            z_right + vals(witness.z_left@),
        ),
{
    split_evaluation::<F>(rows, vals(witness.z_left@), z_right);
}

/// Splits a point into the coordinates of the rows and those of the columns.
pub fn qabase_split_evaluation_point<F: PrimeField>(
    point: &[F],
    num_rows: usize,
    num_vars: usize,
) -> (r: (Vec<F>, Vec<F>))
    requires
        is_pow2(num_rows as int),
        point@.len() == log2(num_rows as int) + num_vars,
    ensures
        r.0@ + r.1@ == point@,
        r.0@.len() == log2(num_rows as int),
        r.1@.len() == num_vars,
{
    let log_rows: usize = log2_power_of_two(num_rows);
    let z_left = copied(vstd::slice::slice_subrange(point, 0, log_rows));
    let z_right = copied(vstd::slice::slice_subrange(point, log_rows, point.len()));
    assert(z_left@ + z_right@ =~= point@);
    (z_left, z_right)
}

} // verus!
