//! What openings of a row-encoded matrix end in, and the claims that they leave
//! to the batched opening of the auxiliary polynomials.

use crate::claims::{append_claims_concat, claim_set, no_claims, Claim, ClaimSet};
use crate::classic_sumcheck::{round_error, sumcheck_refused};
use crate::error::Error;
use crate::field::{index_of, word_bytes, PrimeField, Residue};
use crate::hash::HashFunction;
use crate::linear::{column, comb, comb_len, ints, mat, pows, rect, vals, vals_canon};
use crate::merkle::{climb, leaf, path};
use crate::mle::{eq_evals, exp2, exp2_is_pow2, log2, mle, pow2_is_exp2};
use crate::qa_code::{
    encode, encode_rows, encode_shape, is_pow2, parities, scaled_blocks, walsh, walsh_shape,
    QAWitness,
};
use crate::qabase::{
    aux_polys, build_qabase_prover_opening_accumulator, build_qabase_verifier_opening_accumulator,
    collect_qabase_eval_encoding_basefold_claims_prover,
    collect_qabase_eval_encoding_basefold_claims_verifier, collect_qabase_eval_value_claim_prover,
    collect_qabase_eval_value_claim_verifier,
    collect_qabase_item2_batched_wht_basefold_claims_prover, encoding_claims, encoding_claims_read,
    encoding_fields, encoding_read, encoding_refused, encoding_went, encoding_written,
    extend_prover_opening_accumulator_with_eval_aux,
    extend_verifier_opening_accumulator_with_eval_aux, honest_encoding_is_accepted,
    prove_qabase_encoding_relations_batched_wht_sumcheck, prove_qabase_eval_encoding_relations,
    proximity_layout, scaling_claims, value_claim, verify_qabase_eval_encoding_relations,
    wht_claims, QABaseAuxCommitments, QABaseAuxProverData, QABaseEncodingRelationsBatchedWhtProof,
    QABaseEvalAuxLayout, QABaseEvalWitness, QABaseFoldedWitness,
};
use crate::qabase_columns::{
    block_claims, block_values, column_claim_holds, honest_selector_run_is_accepted,
    indices_in_range, item1_digests, item1_fields, item1_read, item1_refused, item1_stopped,
    item1_sumcheck_refused, item1_written, prove_qabase_eval_column_consistency_collect,
    prove_qabase_item1_column_consistency_collect, qabase_eval_folded_values_from_comm,
    qabase_eval_folded_values_from_opened_columns, queries_read, queries_read_went, selector_events,
    selector_fields, selector_of, selector_read, selector_went,
    verify_qabase_eval_column_consistency_collect, verify_qabase_item1_column_consistency_collect,
    QABaseEvalColumnConsistencyProverOutput, QABaseEvalColumnConsistencyVerifierOutput,
    QABaseItem1ProverOutput, QABaseItem1VerifierOutput,
};
use crate::qabase_relations::{
    batch_evaluates, batch_value, outputs_at, scaling_polys, scaling_written, wht_inputs,
    wht_written,
};
use crate::qapcs::Evaluation;
use crate::quasar::{
    residues_of_rows, tree_over, QABaseCommitment, QABaseProverParams, QABaseVerifierParams,
};
use crate::quasar_columns::{
    column_events, commitment_wf, fold_columns, indices_of, opened_columns_are_authentic,
    QueriesRead,
};
use crate::quasar_gkr::{QABaseProverOpeningAccumulator, QABaseVerifierOpeningAccumulator};
use crate::quasar_open::qabase_row_weights_from_z_left;
use crate::sumcheck::values_at;
use crate::transcript::{
    cut_later, cut_within, drawn, sent_fields, went, went_on, went_plain, Event, TranscriptRead,
    TranscriptWrite,
};
use vstd::prelude::*;

verus! {

/// The prover's result of an opening that shows proximity alone.
pub struct QABaseOpenBatchedWhtProverOutput<F, C> {
    pub folded_witness: QABaseFoldedWitness<F>,
    pub aux_commitments: QABaseAuxCommitments<C>,
    pub encoding_relations: QABaseEncodingRelationsBatchedWhtProof<F>,
    pub item1: QABaseItem1ProverOutput<F>,
}

/// The verifier's result of an opening that shows proximity alone.
pub struct QABaseOpenBatchedWhtVerifierOutput<F, C> {
    pub row_challenges: Vec<F>,
    pub aux_commitments: QABaseAuxCommitments<C>,
    pub encoding_relations: QABaseEncodingRelationsBatchedWhtProof<F>,
    pub item1: QABaseItem1VerifierOutput<F>,
}

/// The prover's result of an opening at a point.
pub struct QABaseFullOpenBatchedWhtProverOutput<F, C> {
    pub folded_witness: QABaseFoldedWitness<F>,
    pub aux_commitments: QABaseAuxCommitments<C>,
    pub encoding_relations: QABaseEncodingRelationsBatchedWhtProof<F>,
    pub item1: QABaseItem1ProverOutput<F>,
    pub eval_witness: QABaseEvalWitness<F>,
    pub eval_aux_commitments: QABaseAuxCommitments<C>,
    pub eval_encoding_relations: QABaseEncodingRelationsBatchedWhtProof<F>,
    pub eval_item1: QABaseEvalColumnConsistencyProverOutput<F>,
    pub ok_eval_value: bool,
}

/// The verifier's result of an opening at a point.
pub struct QABaseFullOpenBatchedWhtVerifierOutput<F, C> {
    pub row_challenges: Vec<F>,
    pub aux_commitments: QABaseAuxCommitments<C>,
    pub encoding_relations: QABaseEncodingRelationsBatchedWhtProof<F>,
    pub item1: QABaseItem1VerifierOutput<F>,
    pub eval_aux_commitments: QABaseAuxCommitments<C>,
    pub eval_encoding_relations: QABaseEncodingRelationsBatchedWhtProof<F>,
    pub eval_item1: QABaseEvalColumnConsistencyVerifierOutput<F>,
}

/// One encoding leaves `4 rho - 1` claims and the column check `rho`: nineteen
/// for rate one quarter. An opening at a point leaves them twice and one more.
pub proof fn opening_claim_counts<F: PrimeField>(
    layout: QABaseEvalAuxLayout,
    eval_layout: QABaseEvalAuxLayout,
    p: QABaseEncodingRelationsBatchedWhtProof<F>,
    us: Seq<int>,
    q: QABaseEncodingRelationsBatchedWhtProof<F>,
    ws: Seq<int>,
    local: Seq<int>,
    blocks: Seq<int>,
    eval_local: Seq<int>,
    eval_blocks: Seq<int>,
    z_right: Seq<int>,
    value: int,
)
    requires
        layout.wf(),
        eval_layout.wf(),
        eval_layout.rho == layout.rho,
    ensures
        ({
            let proximity = encoding_claims(layout, p, us) + block_claims(layout, local, blocks);
            let full = (encoding_claims(layout, p, us) + encoding_claims(eval_layout, q, ws)
                + block_claims(layout, local, blocks) + block_claims(
                eval_layout,
                eval_local,
                eval_blocks,
            )).push(value_claim(eval_layout, z_right, value));
            &&& proximity.len() == 5 * layout.rho - 1
            &&& layout.rho == 4 ==> proximity.len() == 19
            &&& full.len() == 10 * layout.rho - 1
        }),
{
}

/// Every claim of an honest encoding is true of the auxiliary polynomials and of
/// the coefficient vectors.
pub proof fn encoding_claims_are_true<F: Residue>(
    layout: QABaseEvalAuxLayout,
    msg: Seq<int>,
    e: Seq<Seq<int>>,
    gammas: Seq<Seq<int>>,
    sc_point: Seq<int>,
    scaling_point: Seq<int>,
    polys: Seq<Seq<int>>,
    i: int,
)
    requires
        layout.wf(),
        e.len() + 1 == layout.rho,
        gammas.len() == layout.rho,
        forall|k: int|
            0 <= k < 2 * layout.rho ==> polys[layout.q_aux_start + k] == #[trigger] aux_polys::<F>(
                msg,
                e,
            )[k],
        forall|k: int| 0 <= k < e.len() ==> polys[layout.e_start + k] == #[trigger] e[k],
        0 <= i < 4 * layout.rho - 1,
    ensures
        ({
            let claims = wht_claims(
                layout,
                gammas,
                outputs_at::<F>(wht_inputs(walsh::<F>(msg), parities::<F>(msg, e)), gammas),
                sc_point,
                values_at::<F>(wht_inputs(msg, scaled_blocks::<F>(msg, e)), sc_point),
            ) + scaling_claims(
                layout,
                scaling_point,
                mle::<F>(walsh::<F>(msg), scaling_point),
                values_at::<F>(scaled_blocks::<F>(msg, e), scaling_point),
                values_at::<F>(e, scaling_point),
            );
            claims[i].value == mle::<F>(polys[claims[i].poly], claims[i].point)
        }),
{
    let rho = layout.rho as int;
    let aux = aux_polys::<F>(msg, e);
    let s = layout.q_aux_start;
    let outputs = wht_inputs(walsh::<F>(msg), parities::<F>(msg, e));
    let inputs = wht_inputs(msg, scaled_blocks::<F>(msg, e));
    assert(aux[rho] == walsh::<F>(msg) && aux[0] == msg);
    assert(polys[s + rho] == aux[rho]);
    assert(polys[s + 0] == aux[0]);
    if i < 2 * rho {
        let t = i / 2;
        if i % 2 == 0 {
            if t > 0 {
                assert(aux[t] == parities::<F>(msg, e)[t - 1]);
                assert(polys[s + t] == aux[t]);
                assert(outputs[t] == parities::<F>(msg, e)[t - 1]);
            }
        } else if t > 0 {
            assert(aux[rho + t] == scaled_blocks::<F>(msg, e)[t - 1]);
            assert(polys[s + (rho + t)] == aux[rho + t]);
            assert(inputs[t] == scaled_blocks::<F>(msg, e)[t - 1]);
        }
    } else {
        let j = i - 2 * rho;
        if 1 <= j < rho {
            assert(aux[rho + j] == scaled_blocks::<F>(msg, e)[j - 1]);
            assert(polys[s + (rho + j)] == aux[rho + j]);
        } else if j >= rho {
            assert(polys[layout.e_start + (j - rho)] == e[j - rho]);
        }
    }
}

/// The values of the scaled blocks at the point of the scaling relation.
pub open spec fn scaled_values<F: PrimeField>(
    p: QABaseEncodingRelationsBatchedWhtProof<F>,
    msg: Seq<int>,
    e: Seq<Seq<int>>,
) -> Seq<int> {
    values_at::<F>(scaled_blocks::<F>(msg, e), vals(p.scaling.sc_point@))
}

/// Both relations of an encoding were proved and the values of the scaled blocks
/// written.
pub open spec fn encoding_proved<F: PrimeField, O>(
    p: QABaseEncodingRelationsBatchedWhtProof<F>,
    msg: Seq<int>,
    e: Seq<Seq<int>>,
    log0: Seq<Event<O>>,
    log1: Seq<Event<O>>,
) -> bool {
    exists|mid: Seq<Event<O>>| #[trigger]
        encoding_written::<F, O>(p, msg, e, log0, mid) && log1 == mid + sent_fields(
            scaled_values::<F>(p, msg, e),
        )
}

/// The values that an honest prover sends about the scaled blocks and the
/// coefficient vectors make up their batches.
proof fn batches_fit<F: PrimeField, O>(
    p: QABaseEncodingRelationsBatchedWhtProof<F>,
    msg: Seq<int>,
    e: Seq<Seq<int>>,
    log0: Seq<Event<O>>,
    log1: Seq<Event<O>>,
)
    requires
        is_pow2(msg.len() as int),
        rect(e, msg.len()),
        encoding_written::<F, O>(p, msg, e, log0, log1),
    ensures
        p.scaling.sc_point@.len() == log2(msg.len() as int),
        exp2(p.scaling.sc_point@.len()) == msg.len(),
        rect(scaled_blocks::<F>(msg, e), msg.len()),
        batch_value::<F>(p.scaling.alpha.val(), scaled_values::<F>(p, msg, e))
            == p.scaling.u_prime_batch_eval_at_sc_point.val(),
        batch_value::<F>(p.scaling.alpha.val(), vals(p.scaling.e_evals_at_sc_point@))
            == p.scaling.e_batch_eval_at_sc_point.val(),
{
    let scaled = scaled_blocks::<F>(msg, e);
    let v = walsh::<F>(msg);
    let z = vals(p.scaling.sc_point@);
    walsh_shape::<F>(msg);
    pow2_is_exp2(msg.len() as int);
    let mid = choose|mid: Seq<Event<O>>|
        {
            &&& #[trigger] wht_written::<F, O>(
                p.batched_wht,
                wht_inputs(msg, scaled),
                wht_inputs(v, parities::<F>(msg, e)),
                log2(msg.len() as int),
                log0,
                mid,
            )
            &&& scaling_written::<F, O>(p.scaling, scaled, e, v, mid, log1)
        };
    let polys = scaling_polys::<F>(p.scaling.alpha.val(), vals(p.scaling.beta@), scaled, e, v);
    let w = pows::<F>(p.scaling.alpha.val(), e.len());
    assert(polys[1] == comb::<F>(w, scaled, v.len()));
    assert(polys[2] == comb::<F>(w, e, v.len()));
    batch_evaluates::<F>(p.scaling.alpha.val(), scaled, z);
    batch_evaluates::<F>(p.scaling.alpha.val(), e, z);
}

/// The claims of an opening that shows proximity alone.
pub open spec fn proximity_claims<F: PrimeField>(
    layout: QABaseEvalAuxLayout,
    p: QABaseEncodingRelationsBatchedWhtProof<F>,
    us: Seq<int>,
    local: Seq<int>,
    blocks: Seq<int>,
) -> Seq<Claim> {
    encoding_claims(layout, p, us) + block_claims(layout, local, blocks)
}

/// The layout of the first encoding for a rate.
pub open spec fn first_layout(rho: usize) -> QABaseEvalAuxLayout {
    QABaseEvalAuxLayout { rho, q_aux_start: 0, e_start: (2 * rho) as usize }
}

/// The layout of the second encoding for a rate.
pub open spec fn second_layout(rho: usize) -> QABaseEvalAuxLayout {
    QABaseEvalAuxLayout {
        rho,
        q_aux_start: (3 * rho - 1) as usize,
        e_start: (2 * rho) as usize,
    }
}

/// The encoding of the folded row was proved up to `mid`, then its agreement
/// with sampled columns.
pub open spec fn proximity_proved<F: PrimeField, H: HashFunction, C>(
    pp: QABaseProverParams<F, C>,
    comm: QABaseCommitment<H, Vec<Vec<F>>>,
    row_challenges: Seq<int>,
    msg: Seq<int>,
    p: QABaseEncodingRelationsBatchedWhtProof<F>,
    item1: QABaseItem1ProverOutput<F>,
    challenges: Seq<int>,
    log0: Seq<Event<H::Output>>,
    mid: Seq<Event<H::Output>>,
    log1: Seq<Event<H::Output>>,
) -> bool {
    let e = pp.qa_params.coeffs();
    &&& p.sized(pp.inverse_rate as nat)
    &&& encoding_proved::<F, H::Output>(p, msg, e, log0, mid)
    &&& item1_written::<F, H, C>(
        item1,
        pp,
        comm,
        row_challenges,
        encode::<F>(msg, e),
        challenges,
        mid,
        log1,
    )
}

/// The polynomials of the first encoding and the coefficient vectors stand where
/// their layout says, and so do their commitments.
pub open spec fn first_in_place<F: PrimeField, C>(
    acc: QABaseProverOpeningAccumulator<F, C>,
    pp: QABaseProverParams<F, C>,
    aux_data: QABaseAuxProverData<F, C>,
) -> bool {
    let rho = pp.inverse_rate as int;
    &&& forall|i: int| 0 <= i < 2 * rho ==> *(#[trigger] acc.polys@[i]) == aux_data.polys@[i]
    &&& forall|i: int|
        0 <= i < rho - 1 ==> *(#[trigger] acc.polys@[2 * rho + i]) == pp.e_polys@[i]
    &&& forall|i: int|
        0 <= i < 2 * rho ==> *(#[trigger] acc.comms@[i]) == aux_data.commitments.all()[i]
    &&& forall|i: int|
        0 <= i < rho - 1 ==> *(#[trigger] acc.comms@[2 * rho + i]) == pp.e_commitments@[i]
}

/// The polynomials of the second encoding stand behind, and so do their
/// commitments.
pub open spec fn second_in_place<F: PrimeField, C>(
    acc: QABaseProverOpeningAccumulator<F, C>,
    pp: QABaseProverParams<F, C>,
    eval_aux_data: QABaseAuxProverData<F, C>,
) -> bool {
    let rho = pp.inverse_rate as int;
    &&& forall|i: int|
        0 <= i < 2 * rho ==> *(#[trigger] acc.polys@[3 * rho - 1 + i]) == eval_aux_data.polys@[i]
    &&& forall|i: int|
        0 <= i < 2 * rho ==> *(#[trigger] acc.comms@[3 * rho - 1 + i])
            == eval_aux_data.commitments.all()[i]
}

/// Proves proximity once the auxiliary polynomials of the folded row are
/// committed: its encoding, and its agreement with sampled columns. The claims
/// that come back are left to be opened.
pub fn prove_qabase_open_scaffold_global_batch_batched_wht<
    'a,
    F: PrimeField,
    H: HashFunction,
    C,
    T: TranscriptWrite<F, H::Output>,
>(
    pp: &'a QABaseProverParams<F, C>,
    comm: &QABaseCommitment<H, Vec<Vec<F>>>,
    folded_witness: &QABaseFoldedWitness<F>,
    aux_data: &'a QABaseAuxProverData<F, C>,
    transcript: &mut T,
) -> (r: Result<
    (
        QABaseProverOpeningAccumulator<'a, F, C>,
        QABaseEncodingRelationsBatchedWhtProof<F>,
        QABaseItem1ProverOutput<F>,
    ),
    Error,
>)
    requires
        pp.wf(),
        3 * pp.inverse_rate <= usize::MAX,
        commitment_wf::<F, H, Vec<Vec<F>>>(
            *comm,
            pp.num_rows as nat,
            (pp.inverse_rate * exp2(pp.num_vars as nat)) as nat,
        ),
        folded_witness.row_challenges@.len() == pp.num_rows,
        folded_witness.folded_msg@.len() == exp2(pp.num_vars as nat),
        folded_witness.folded_qa_witness.of(
            vals(folded_witness.folded_msg@),
            pp.qa_params.coeffs(),
        ),
        aux_data.polys@.len() == 2 * pp.inverse_rate,
        aux_data.commitments.sized(pp.inverse_rate as nat),
    ensures
        T::infallible() ==> r is Ok,
        r matches Err(e) ==> e is Transcript,
        r matches Ok(out) ==> {
            let msg = vals(folded_witness.folded_msg@);
            let z = vals(out.2.sc_point@);
            &&& first_in_place(out.0, *pp, *aux_data)
            &&& out.0.polys@.len() == 3 * pp.inverse_rate - 1
            &&& out.0.comms@.len() == 3 * pp.inverse_rate - 1
            &&& claim_set(out.0.points@, out.0.evals@) == no_claims().append_claims(
                proximity_claims(
                    first_layout(pp.inverse_rate),
                    out.1,
                    scaled_values::<F>(out.1, msg, pp.qa_params.coeffs()),
                    z.take(pp.num_vars as int),
                    vals(out.2.u_block_evals_at_sc_point@),
                ),
            )
            &&& exists|challenges: Seq<int>, mid: Seq<Event<H::Output>>| #[trigger]
                proximity_proved::<F, H, C>(
                    *pp,
                    *comm,
                    vals(folded_witness.row_challenges@),
                    msg,
                    out.1,
                    out.2,
                    challenges,
                    old(transcript).log(),
                    mid,
                    final(transcript).log(),
                )
        },
{
    let ghost log0 = transcript.log();
    let ghost msg = vals(folded_witness.folded_msg@);
    let ghost e = pp.qa_params.coeffs();
    let ghost rho = pp.inverse_rate;
    let ghost layout = first_layout(rho);
    let mut acc = build_qabase_prover_opening_accumulator(aux_data, pp);
    let witness = &folded_witness.folded_qa_witness;
    proof {
        assert(claim_set(acc.points@, acc.evals@) =~= no_claims());
        assert(msg.len() == folded_witness.folded_msg@.len());
        assert(vals(witness.msg@).len() == witness.msg@.len());
        assert(vals(witness.codeword@).len() == witness.codeword@.len());
        assert(mat(witness.scaled_wht_blocks@).len() == witness.scaled_wht_blocks@.len());
        exp2_is_pow2(pp.num_vars as nat);
        encode_shape::<F>(msg, e);
    }
    let _size: usize = witness.codeword.len();
    let relations = match prove_qabase_encoding_relations_batched_wht_sumcheck::<F, H::Output, T>(
        &pp.qa_params,
        witness,
        transcript,
    ) {
        Ok(p) => p,
        Err(e) => {
            return Err(e);
        },
    };
    let ghost written = transcript.log();
    proof {
        batches_fit::<F, H::Output>(relations, msg, e, log0, written);
    }
    match collect_qabase_item2_batched_wht_basefold_claims_prover::<F, H::Output, T>(
        &mut acc.points,
        &mut acc.evals,
        pp.inverse_rate,
        &witness.scaled_wht_blocks,
        &relations,
        transcript,
    ) {
        Ok(_) => {},
        Err(e) => {
            return Err(e);
        },
    }
    let ghost mid = transcript.log();
    assert(encoding_proved::<F, H::Output>(relations, msg, e, log0, mid));
    let item1 = match prove_qabase_item1_column_consistency_collect::<F, H, C, T>(
        &mut acc.points,
        &mut acc.evals,
        proximity_layout(pp.inverse_rate),
        pp,
        comm,
        folded_witness,
        transcript,
    ) {
        Ok(item1) => item1,
        Err(e) => {
            return Err(e);
        },
    };
    proof {
        let us = scaled_values::<F>(relations, msg, e);
        let local = vals(item1.sc_point@).take(pp.num_vars as int);
        let blocks = vals(item1.u_block_evals_at_sc_point@);
        append_claims_concat(
            no_claims(),
            encoding_claims(layout, relations, us),
            block_claims(layout, local, blocks),
        );
        let challenges = choose|challenges: Seq<int>| #[trigger]
            item1_written::<F, H, C>(
                item1,
                *pp,
                *comm,
                vals(folded_witness.row_challenges@),
                vals(witness.codeword@),
                challenges,
                mid,
                transcript.log(),
            );
        assert(proximity_proved::<F, H, C>(
            *pp,
            *comm,
            vals(folded_witness.row_challenges@),
            msg,
            relations,
            item1,
            challenges,
            log0,
            mid,
            transcript.log(),
        ));
    }
    Ok((acc, relations, item1))
}

/// What is proved of both encodings of an opening at a point.
pub struct FullOpenProved<F> {
    pub encoding_relations: QABaseEncodingRelationsBatchedWhtProof<F>,
    pub item1: QABaseItem1ProverOutput<F>,
    pub eval_encoding_relations: QABaseEncodingRelationsBatchedWhtProof<F>,
    pub eval_item1: QABaseEvalColumnConsistencyProverOutput<F>,
    pub ok_eval_value: bool,
}

/// The codeword of the row that the point selects was proved to agree with the
/// columns opened before.
pub open spec fn eval_columns_proved<F: PrimeField, O, C>(
    pp: QABaseProverParams<F, C>,
    item1: QABaseItem1ProverOutput<F>,
    row_weights: Seq<int>,
    word: Seq<int>,
    out: QABaseEvalColumnConsistencyProverOutput<F>,
    log0: Seq<Event<O>>,
    log1: Seq<Event<O>>,
) -> bool {
    let q = ints(item1.query_indices@);
    let z = vals(out.sc_point@);
    let n = pp.num_vars as nat;
    let rho = pp.inverse_rate as nat;
    &&& out.query_indices@ == item1.query_indices@
    &&& out.tau == item1.tau
    &&& vals(out.eval_folded_values@) == fold_columns::<F>(row_weights, mat(item1.opened_columns@))
    &&& z.len() == n + log2(rho as int)
    &&& out.selector_eval_at_sc_point.val() == mle::<F>(
        selector_of::<F>(q, item1.tau.val(), word.len()),
        z,
    )
    &&& out.q_eval_at_sc_point.val() == mle::<F>(word, z)
    &&& vals(out.q_block_evals_at_sc_point@) == block_values::<F>(word, rho, z.take(n as int))
    &&& log1 == log0 + selector_events::<F, O>(q, item1.tau.val(), word, n, rho, z)
}

/// The prover of an opening at a point went over `first_end` and `second_end`,
/// where the encodings are proved, and `columns_end`, where the folded row is
/// shown to agree with the columns.
pub open spec fn opening_proved<F: PrimeField, H: HashFunction, C>(
    pp: QABaseProverParams<F, C>,
    comm: QABaseCommitment<H, Vec<Vec<F>>>,
    row_challenges: Seq<int>,
    msg: Seq<int>,
    row_weights: Seq<int>,
    eval_msg: Seq<int>,
    out: FullOpenProved<F>,
    challenges: Seq<int>,
    log0: Seq<Event<H::Output>>,
    first_end: Seq<Event<H::Output>>,
    second_end: Seq<Event<H::Output>>,
    columns_end: Seq<Event<H::Output>>,
    log1: Seq<Event<H::Output>>,
) -> bool {
    let e = pp.qa_params.coeffs();
    &&& out.encoding_relations.sized(pp.inverse_rate as nat)
    &&& out.eval_encoding_relations.sized(pp.inverse_rate as nat)
    &&& encoding_proved::<F, H::Output>(out.encoding_relations, msg, e, log0, first_end)
    &&& encoding_proved::<F, H::Output>(
        out.eval_encoding_relations,
        eval_msg,
        e,
        first_end,
        second_end,
    )
    &&& item1_written::<F, H, C>(
        out.item1,
        pp,
        comm,
        row_challenges,
        encode::<F>(msg, e),
        challenges,
        second_end,
        columns_end,
    )
    &&& eval_columns_proved::<F, H::Output, C>(
        pp,
        out.item1,
        row_weights,
        encode::<F>(eval_msg, e),
        out.eval_item1,
        columns_end,
        log1,
    )
}

/// The claims of an opening at a point.
pub open spec fn opening_claims<F: PrimeField>(
    rho: usize,
    p: QABaseEncodingRelationsBatchedWhtProof<F>,
    us: Seq<int>,
    q: QABaseEncodingRelationsBatchedWhtProof<F>,
    ws: Seq<int>,
    local: Seq<int>,
    blocks: Seq<int>,
    eval_local: Seq<int>,
    eval_blocks: Seq<int>,
    z_right: Seq<int>,
    value: int,
) -> Seq<Claim> {
    let first = first_layout(rho);
    let second = second_layout(rho);
    (encoding_claims(first, p, us) + encoding_claims(second, q, ws) + block_claims(
        first,
        local,
        blocks,
    ) + block_claims(second, eval_local, eval_blocks)).push(value_claim(second, z_right, value))
}

/// Five portions of claims, one after the other.
proof fn portions(
    set: ClaimSet,
    a: Seq<Claim>,
    b: Seq<Claim>,
    c: Seq<Claim>,
    d: Seq<Claim>,
    last: Claim,
)
    ensures
        set.append_claims(a).append_claims(b).append_claims(c).append_claims(d).append_claim(last)
            == set.append_claims((a + b + c + d).push(last)),
{
    append_claims_concat(set, a, b);
    append_claims_concat(set, a + b, c);
    append_claims_concat(set, a + b + c, d);
    let all = (a + b + c + d).push(last);
    assert(all.drop_last() =~= a + b + c + d);
    assert(all.last() == last);
}

/// Proves an opening at a point once the auxiliary polynomials of both encodings
/// are committed. The claims that come back are left to be opened; the flag says
/// whether the claimed value is the one of the witness.
pub fn prove_qabase_open_full_global_batch_batched_wht<
    'a,
    F: PrimeField,
    H: HashFunction,
    C,
    T: TranscriptWrite<F, H::Output>,
>(
    pp: &'a QABaseProverParams<F, C>,
    comm: &QABaseCommitment<H, Vec<Vec<F>>>,
    folded_witness: &QABaseFoldedWitness<F>,
    aux_data: &'a QABaseAuxProverData<F, C>,
    eval_witness: &QABaseEvalWitness<F>,
    eval_aux_data: &'a QABaseAuxProverData<F, C>,
    z_right: &[F],
    claimed_value: F,
    transcript: &mut T,
) -> (r: Result<(QABaseProverOpeningAccumulator<'a, F, C>, FullOpenProved<F>), Error>)
    requires
        pp.wf(),
        5 * pp.inverse_rate <= usize::MAX,
        commitment_wf::<F, H, Vec<Vec<F>>>(
            *comm,
            pp.num_rows as nat,
            (pp.inverse_rate * exp2(pp.num_vars as nat)) as nat,
        ),
        folded_witness.row_challenges@.len() == pp.num_rows,
        folded_witness.folded_msg@.len() == exp2(pp.num_vars as nat),
        folded_witness.folded_qa_witness.of(
            vals(folded_witness.folded_msg@),
            pp.qa_params.coeffs(),
        ),
        aux_data.polys@.len() == 2 * pp.inverse_rate,
        aux_data.commitments.sized(pp.inverse_rate as nat),
        eval_witness.row_weights@.len() == pp.num_rows,
        eval_witness.eval_msg@.len() == exp2(pp.num_vars as nat),
        eval_witness.eval_qa_witness.of(vals(eval_witness.eval_msg@), pp.qa_params.coeffs()),
        eval_aux_data.polys@.len() == 2 * pp.inverse_rate,
        eval_aux_data.commitments.sized(pp.inverse_rate as nat),
        z_right@.len() == pp.num_vars,
    ensures
        T::infallible() ==> r is Ok,
        r matches Err(e) ==> e is Transcript,
        r matches Ok((acc, out)) ==> {
            let msg = vals(folded_witness.folded_msg@);
            let eval_msg = vals(eval_witness.eval_msg@);
            let e = pp.qa_params.coeffs();
            &&& out.ok_eval_value == (claimed_value.val() == mle::<F>(eval_msg, vals(z_right@)))
            &&& first_in_place(acc, *pp, *aux_data)
            &&& second_in_place(acc, *pp, *eval_aux_data)
            &&& acc.polys@.len() == 5 * pp.inverse_rate - 1
            &&& acc.comms@.len() == 5 * pp.inverse_rate - 1
            &&& claim_set(acc.points@, acc.evals@) == no_claims().append_claims(
                opening_claims(
                    pp.inverse_rate,
                    out.encoding_relations,
                    scaled_values::<F>(out.encoding_relations, msg, e),
                    out.eval_encoding_relations,
                    scaled_values::<F>(out.eval_encoding_relations, eval_msg, e),
                    vals(out.item1.sc_point@).take(pp.num_vars as int),
                    vals(out.item1.u_block_evals_at_sc_point@),
                    vals(out.eval_item1.sc_point@).take(pp.num_vars as int),
                    vals(out.eval_item1.q_block_evals_at_sc_point@),
                    vals(z_right@),
                    claimed_value.val(),
                ),
            )
        },
        r matches Ok((acc, out)) ==> exists|
            challenges: Seq<int>,
            first_end: Seq<Event<H::Output>>,
            second_end: Seq<Event<H::Output>>,
            columns_end: Seq<Event<H::Output>>,
        | #[trigger]
            opening_proved::<F, H, C>(
                *pp,
                *comm,
                vals(folded_witness.row_challenges@),
                vals(folded_witness.folded_msg@),
                vals(eval_witness.row_weights@),
                vals(eval_witness.eval_msg@),
                out,
                challenges,
                old(transcript).log(),
                first_end,
                second_end,
                columns_end,
                final(transcript).log(),
            ),
{
    let ghost log0 = transcript.log();
    let ghost msg = vals(folded_witness.folded_msg@);
    let ghost eval_msg = vals(eval_witness.eval_msg@);
    let ghost e = pp.qa_params.coeffs();
    let ghost first = first_layout(pp.inverse_rate);
    let ghost num_cols = pp.inverse_rate * exp2(pp.num_vars as nat);
    let mut acc = build_qabase_prover_opening_accumulator(aux_data, pp);
    let ghost acc0 = acc;
    let eval_layout = extend_prover_opening_accumulator_with_eval_aux(
        &mut acc,
        eval_aux_data,
        pp.inverse_rate,
    );
    let witness = &folded_witness.folded_qa_witness;
    let eval_qa = &eval_witness.eval_qa_witness;
    proof {
        let rho = pp.inverse_rate as int;
        assert forall|i: int| 0 <= i < 2 * rho implies *(#[trigger] acc.polys@[i])
            == aux_data.polys@[i] by {
            assert(acc.polys@[i] == acc0.polys@[i]);
        }
        assert forall|i: int| 0 <= i < 2 * rho implies *(#[trigger] acc.comms@[i])
            == aux_data.commitments.all()[i] by {
            assert(acc.comms@[i] == acc0.comms@[i]);
        }
        assert forall|i: int| 0 <= i < rho - 1 implies *(#[trigger] acc.polys@[2 * rho + i])
            == pp.e_polys@[i] by {
            assert(acc.polys@[2 * rho + i] == acc0.polys@[2 * rho + i]);
        }
        assert forall|i: int| 0 <= i < rho - 1 implies *(#[trigger] acc.comms@[2 * rho + i])
            == pp.e_commitments@[i] by {
            assert(acc.comms@[2 * rho + i] == acc0.comms@[2 * rho + i]);
        }
        assert(claim_set(acc.points@, acc.evals@) =~= no_claims());
        assert(eval_layout == second_layout(pp.inverse_rate));
        assert(msg.len() == folded_witness.folded_msg@.len());
        assert(eval_msg.len() == eval_witness.eval_msg@.len());
        assert(vals(witness.msg@).len() == witness.msg@.len());
        assert(vals(witness.codeword@).len() == witness.codeword@.len());
        assert(vals(eval_qa.codeword@).len() == eval_qa.codeword@.len());
        assert(mat(witness.scaled_wht_blocks@).len() == witness.scaled_wht_blocks@.len());
        assert(mat(eval_qa.scaled_wht_blocks@).len() == eval_qa.scaled_wht_blocks@.len());
        exp2_is_pow2(pp.num_vars as nat);
        encode_shape::<F>(msg, e);
        encode_shape::<F>(eval_msg, e);
    }
    let _size: usize = witness.codeword.len();
    let relations = match prove_qabase_encoding_relations_batched_wht_sumcheck::<F, H::Output, T>(
        &pp.qa_params,
        witness,
        transcript,
    ) {
        Ok(p) => p,
        Err(e) => {
            return Err(e);
        },
    };
    proof {
        batches_fit::<F, H::Output>(relations, msg, e, log0, transcript.log());
    }
    match collect_qabase_item2_batched_wht_basefold_claims_prover::<F, H::Output, T>(
        &mut acc.points,
        &mut acc.evals,
        pp.inverse_rate,
        &witness.scaled_wht_blocks,
        &relations,
        transcript,
    ) {
        Ok(_) => {},
        Err(e) => {
            return Err(e);
        },
    }
    let ghost first_end = transcript.log();
    assert(encoding_proved::<F, H::Output>(relations, msg, e, log0, first_end));
    let eval_relations = match prove_qabase_eval_encoding_relations::<F, H::Output, C, T>(
        pp,
        eval_witness,
        transcript,
    ) {
        Ok(p) => p,
        Err(e) => {
            return Err(e);
        },
    };
    proof {
        batches_fit::<F, H::Output>(eval_relations, eval_msg, e, first_end, transcript.log());
    }
    match collect_qabase_eval_encoding_basefold_claims_prover::<F, H::Output, T>(
        &mut acc.points,
        &mut acc.evals,
        eval_layout,
        &eval_qa.scaled_wht_blocks,
        &eval_relations,
        transcript,
    ) {
        Ok(_) => {},
        Err(e) => {
            return Err(e);
        },
    }
    let ghost second_end = transcript.log();
    assert(encoding_proved::<F, H::Output>(eval_relations, eval_msg, e, first_end, second_end));
    let item1 = match prove_qabase_item1_column_consistency_collect::<F, H, C, T>(
        &mut acc.points,
        &mut acc.evals,
        proximity_layout(pp.inverse_rate),
        pp,
        comm,
        folded_witness,
        transcript,
    ) {
        Ok(item1) => item1,
        Err(e) => {
            return Err(e);
        },
    };
    let ghost columns_end = transcript.log();
    let ghost challenges = choose|challenges: Seq<int>| #[trigger]
        item1_written::<F, H, C>(
            item1,
            *pp,
            *comm,
            vals(folded_witness.row_challenges@),
            vals(witness.codeword@),
            challenges,
            second_end,
            columns_end,
        );
    proof {
        residues_of_rows::<F>(comm.codeword@);
        assert forall|s: int, i: int|
            0 <= s < item1.query_indices@.len() && 0 <= i
                < comm.codeword@.len() implies #[trigger] item1.query_indices@[s] < (
        #[trigger] comm.codeword@[i])@.len() by {
            assert(mat(comm.codeword@)[i].len() == num_cols);
        }
    }
    let eval_folded_values = qabase_eval_folded_values_from_comm::<F, H>(
        comm,
        &item1.query_indices,
        &eval_witness.row_weights,
    );
    proof {
        let q = ints(item1.query_indices@);
        assert(q.len() == item1.query_indices@.len());
        assert(indices_of::<F>(challenges, num_cols).len() == challenges.len());
        assert(mat(item1.opened_columns@) =~= Seq::new(
            item1.query_indices@.len(),
            |s: int| column(mat(comm.codeword@), item1.query_indices@[s] as int),
        ));
    }
    let eval_item1 = match prove_qabase_eval_column_consistency_collect::<F, H::Output, C, T>(
        &mut acc.points,
        &mut acc.evals,
        eval_layout,
        pp,
        copied_indices(&item1.query_indices),
        eval_folded_values,
        item1.tau,
        eval_witness,
        transcript,
    ) {
        Ok(out) => out,
        Err(e) => {
            return Err(e);
        },
    };
    let ok_eval_value: bool = collect_qabase_eval_value_claim_prover(
        &mut acc.points,
        &mut acc.evals,
        eval_layout,
        z_right,
        claimed_value,
        eval_witness,
    );
    let out = FullOpenProved {
        encoding_relations: relations,
        item1,
        eval_encoding_relations: eval_relations,
        eval_item1,
        ok_eval_value,
    };
    proof {
        let local = vals(item1.sc_point@).take(pp.num_vars as int);
        let eval_local = vals(eval_item1.sc_point@).take(pp.num_vars as int);
        portions(
            no_claims(),
            encoding_claims(first, relations, scaled_values::<F>(relations, msg, e)),
            encoding_claims(
                eval_layout,
                eval_relations,
                scaled_values::<F>(eval_relations, eval_msg, e),
            ),
            block_claims(first, local, vals(item1.u_block_evals_at_sc_point@)),
            block_claims(
                eval_layout,
                eval_local,
                vals(eval_item1.q_block_evals_at_sc_point@),
            ),
            value_claim(eval_layout, vals(z_right@), claimed_value.val()),
        );
        assert(eval_columns_proved::<F, H::Output, C>(
            *pp,
            item1,
            vals(eval_witness.row_weights@),
            encode::<F>(eval_msg, e),
            eval_item1,
            columns_end,
            transcript.log(),
        ));
        assert(opening_proved::<F, H, C>(
            *pp,
            *comm,
            vals(folded_witness.row_challenges@),
            msg,
            vals(eval_witness.row_weights@),
            eval_msg,
            out,
            challenges,
            log0,
            first_end,
            second_end,
            columns_end,
            transcript.log(),
        ));
    }
    Ok((acc, out))
}

/// The indices of a list, once more.
fn copied_indices(x: &[usize]) -> (r: Vec<usize>)
    ensures
        r@ == x@,
{
    let mut out: Vec<usize> = Vec::new();
    let mut i: usize = 0;
    while i < x.len()
        invariant
            i <= x@.len(),
            out@ == x@.take(i as int),
        decreases x@.len() - i,
    {
        out.push(x[i]);
        i = i + 1;
        assert(x@.take(i as int) =~= x@.take(i - 1).push(x@[i - 1]));
    }
    assert(x@.take(i as int) =~= x@);
    out
}

/// Both relations of an encoding were verified with the outcome `ok`, the values
/// `us` of the scaled blocks read, and `fit` says whether the values read make up
/// their batches.
pub open spec fn encoding_checked<F: PrimeField, O>(
    p: QABaseEncodingRelationsBatchedWhtProof<F>,
    us: Seq<int>,
    ok: bool,
    fit: bool,
    num_vars: nat,
    rho: nat,
    log0: Seq<Event<O>>,
    log1: Seq<Event<O>>,
) -> bool {
    &&& p.sized(rho)
    &&& us.len() + 1 == rho
    &&& fit == ({
        &&& batch_value::<F>(p.scaling.alpha.val(), us)
            == p.scaling.u_prime_batch_eval_at_sc_point.val()
        &&& batch_value::<F>(p.scaling.alpha.val(), vals(p.scaling.e_evals_at_sc_point@))
            == p.scaling.e_batch_eval_at_sc_point.val()
    })
    &&& exists|mid: Seq<Event<O>>| #[trigger]
        encoding_read::<F, O>(p, ok, num_vars, rho, log0, mid) && log1 == mid + sent_fields(us)
}

/// The columns of the check of the folded row were read: with the claims about
/// its blocks where all lead to the root, without where one does not.
pub open spec fn columns_checked_first<F: PrimeField, H: HashFunction, C>(
    vp: QABaseVerifierParams<F, C>,
    root: H::Output,
    row_challenges: Seq<int>,
    item1: QABaseItem1VerifierOutput<F>,
    ok: bool,
    claims: Seq<Claim>,
    log0: Seq<Event<H::Output>>,
    log1: Seq<Event<H::Output>>,
) -> bool {
    ||| exists|d: QueriesRead<H::Output>| #[trigger]
        item1_read::<F, H, C>(item1, ok, vp, root, row_challenges, d, log0, log1) && claims
            == block_claims(
            first_layout(vp.inverse_rate),
            vals(item1.sc_point@).take(vp.num_vars as int),
            vals(item1.u_block_evals_at_sc_point@),
        )
    ||| exists|d: QueriesRead<H::Output>, k: nat| #[trigger]
        item1_refused::<F, H, C>(vp, root, d, k, log0, log1) && item1_stopped(
            item1,
            row_challenges,
            vp.inverse_rate * exp2(vp.num_vars as nat),
            d,
        ) && !ok && claims == Seq::<Claim>::empty()
}

/// The verifier of proximity went over `mid`, where the encoding was verified.
pub open spec fn proximity_verified<F: PrimeField, H: HashFunction, C>(
    vp: QABaseVerifierParams<F, C>,
    root: H::Output,
    row_challenges: Seq<int>,
    ok: bool,
    p: QABaseEncodingRelationsBatchedWhtProof<F>,
    us: Seq<int>,
    item1: QABaseItem1VerifierOutput<F>,
    set: ClaimSet,
    log0: Seq<Event<H::Output>>,
    mid: Seq<Event<H::Output>>,
    log1: Seq<Event<H::Output>>,
) -> bool {
    exists|ok_encoding: bool, fit: bool, ok_columns: bool, claims: Seq<Claim>|
        {
            &&& #[trigger] encoding_checked::<F, H::Output>(
                p,
                us,
                ok_encoding,
                fit,
                vp.num_vars as nat,
                vp.inverse_rate as nat,
                log0,
                mid,
            )
            &&& #[trigger] columns_checked_first::<F, H, C>(
                vp,
                root,
                row_challenges,
                item1,
                ok_columns,
                claims,
                mid,
                log1,
            )
            &&& set == no_claims().append_claims(
                encoding_claims(first_layout(vp.inverse_rate), p, us) + claims,
            )
            &&& ok == (ok_encoding && fit && ok_columns)
        }
}

/// A sum-check of the encoding was refused, or, after it, the one over the
/// columns.
pub open spec fn proximity_refused<F: PrimeField, H: HashFunction, C>(
    vp: QABaseVerifierParams<F, C>,
    root: H::Output,
    row_challenges: Seq<int>,
    log0: Seq<Event<H::Output>>,
    log1: Seq<Event<H::Output>>,
) -> bool {
    ||| encoding_refused::<F, H::Output>(
        vp.num_vars as nat,
        vp.inverse_rate as nat,
        log0,
        log1,
    )
    ||| exists|
        p: QABaseEncodingRelationsBatchedWhtProof<F>,
        us: Seq<int>,
        ok: bool,
        fit: bool,
        mid: Seq<Event<H::Output>>,
    |
        (#[trigger] encoding_checked::<F, H::Output>(
            p,
            us,
            ok,
            fit,
            vp.num_vars as nat,
            vp.inverse_rate as nat,
            log0,
            mid,
        )) && item1_sumcheck_refused::<F, H, C>(vp, root, row_challenges, mid, log1)
}

/// The commitments of the first encoding and of the coefficient vectors stand
/// where their layout says.
pub open spec fn first_read<F: PrimeField, C>(
    acc: QABaseVerifierOpeningAccumulator<F, C>,
    vp: QABaseVerifierParams<F, C>,
    aux_commitments: QABaseAuxCommitments<C>,
) -> bool {
    let rho = vp.inverse_rate as int;
    &&& forall|i: int| 0 <= i < 2 * rho ==> *(#[trigger] acc.comms@[i]) == aux_commitments.all()[i]
    &&& forall|i: int|
        0 <= i < rho - 1 ==> *(#[trigger] acc.comms@[2 * rho + i]) == vp.e_commitments@[i]
}

/// How many field elements an encoding sends with the values of its scaled
/// blocks.
pub open spec fn checked_fields(num_vars: nat, rho: nat) -> nat {
    encoding_fields(num_vars, rho) + (rho - 1) as nat
}

/// How many field elements show proximity.
pub open spec fn proximity_fields<F: PrimeField, C>(vp: QABaseVerifierParams<F, C>) -> nat {
    checked_fields(vp.num_vars as nat, vp.inverse_rate as nat) + item1_fields(vp)
}

/// How many field elements open a point.
pub open spec fn opening_fields<F: PrimeField, C>(vp: QABaseVerifierParams<F, C>) -> nat {
    let (num_vars, rho) = (vp.num_vars as nat, vp.inverse_rate as nat);
    2 * checked_fields(num_vars, rho) + item1_fields(vp) + selector_fields(num_vars, rho)
}

/// How many messages an encoding has with the values of its scaled blocks.
pub proof fn checked_went<F: PrimeField, O>(
    p: QABaseEncodingRelationsBatchedWhtProof<F>,
    us: Seq<int>,
    ok: bool,
    fit: bool,
    num_vars: nat,
    rho: nat,
    log0: Seq<Event<O>>,
    log1: Seq<Event<O>>,
)
    requires
        encoding_checked::<F, O>(p, us, ok, fit, num_vars, rho, log0, log1),
    ensures
        went(log0, log1, checked_fields(num_vars, rho), 0),
{
    let mid = choose|mid: Seq<Event<O>>| #[trigger]
        encoding_read::<F, O>(p, ok, num_vars, rho, log0, mid) && log1 == mid + sent_fields(us);
    encoding_went::<F, O>(p, ok, num_vars, rho, log0, mid);
    went_plain::<O>(mid, us, Seq::empty());
}

/// How many messages a check of sampled columns has.
pub proof fn item1_went<F: PrimeField, H: HashFunction, C>(
    out: QABaseItem1VerifierOutput<F>,
    ok: bool,
    vp: QABaseVerifierParams<F, C>,
    root: H::Output,
    row_challenges: Seq<int>,
    d: QueriesRead<H::Output>,
    log0: Seq<Event<H::Output>>,
    log1: Seq<Event<H::Output>>,
)
    requires
        item1_read::<F, H, C>(out, ok, vp, root, row_challenges, d, log0, log1),
    ensures
        went(log0, log1, item1_fields(vp), item1_digests(vp)),
{
    let (n, rho) = (vp.num_vars as nat, vp.inverse_rate as nat);
    let (queries, rows) = (vp.num_queries as nat, vp.num_rows as nat);
    let depth = log2(vp.inverse_rate * exp2(n));
    let q = ints(out.query_indices@);
    let tau = out.tau.val();
    let claim = batch_value::<F>(tau, vals(out.folded_values@));
    let z = vals(out.sc_point@);
    let selector = out.selector_eval_at_sc_point.val();
    let word = out.u_eval_at_sc_point.val();
    let blocks = vals(out.u_block_evals_at_sc_point@);
    let log = choose|log: Seq<Event<H::Output>>|
        {
            &&& #[trigger] queries_read(d, queries, queries, rows, depth, log0, log)
            &&& selector_read::<F, H::Output>(
                q,
                tau,
                claim,
                n,
                rho,
                z,
                selector,
                word,
                blocks,
                ok,
                log + drawn(seq![tau]),
                log1,
            )
        };
    let begun = log + drawn::<H::Output>(seq![tau]);
    queries_read_went(d, queries, queries, rows, depth, log0, log);
    went_plain::<H::Output>(log, seq![tau], Seq::empty());
    selector_went::<F, H::Output>(
        q,
        tau,
        claim,
        n,
        rho,
        z,
        selector,
        word,
        blocks,
        ok,
        begun,
        log1,
    );
}

/// Verifies the encoding of one folded row with its claims at a layout.
fn verify_encoding<F: PrimeField, O, C, T: TranscriptRead<F, O>>(
    vp: &QABaseVerifierParams<F, C>,
    layout: QABaseEvalAuxLayout,
    points: &mut Vec<Vec<F>>,
    evals: &mut Vec<Evaluation<F>>,
    transcript: &mut T,
) -> (r: Result<(bool, bool, QABaseEncodingRelationsBatchedWhtProof<F>), Error>)
    requires
        vp.wf(),
        layout.wf(),
        layout.rho == vp.inverse_rate,
    ensures
        final(transcript).held() == old(transcript).held(),
        r matches Ok(result) ==> exists|us: Seq<int>|
            {
                &&& #[trigger] encoding_checked::<F, O>(
                    result.2,
                    us,
                    result.0,
                    result.1,
                    vp.num_vars as nat,
                    vp.inverse_rate as nat,
                    old(transcript).log(),
                    final(transcript).log(),
                )
                &&& claim_set(final(points)@, final(evals)@) == claim_set(
                    old(points)@,
                    old(evals)@,
                ).append_claims(encoding_claims(layout, result.2, us))
            },
        r matches Err(e) ==> cut_within(
            e,
            old(transcript).log(),
            final(transcript).log(),
            checked_fields(vp.num_vars as nat, vp.inverse_rate as nat),
            0,
        ) || (round_error(e) && encoding_refused::<F, O>(
            vp.num_vars as nat,
            vp.inverse_rate as nat,
            old(transcript).log(),
            final(transcript).log(),
        )),
{
    let ghost log0 = transcript.log();
    let ghost set0 = claim_set(points@, evals@);
    let ghost (num_vars, rho) = (vp.num_vars as nat, vp.inverse_rate as nat);
    let ghost all = checked_fields(num_vars, rho);
    let ghost first = encoding_fields(num_vars, rho);
    let (ok, p) = match verify_qabase_eval_encoding_relations::<F, O, C, T>(vp, transcript) {
        Ok(result) => result,
        Err(e) => {
            proof {
                if cut_within(e, log0, transcript.log(), first, 0) {
                    assert(went(log0, log0, 0, 0));
                    cut_later(e, log0, log0, transcript.log(), 0, 0, first, 0, all, 0);
                }
            }
            return Err(e);
        },
    };
    let ghost mid = transcript.log();
    proof {
        encoding_went::<F, O>(p, ok, num_vars, rho, log0, mid);
    }
    let fit: bool = match collect_qabase_eval_encoding_basefold_claims_verifier::<F, O, T>(
        points,
        evals,
        layout,
        &p,
        transcript,
    ) {
        Ok(fit) => fit,
        Err(e) => {
            proof {
                let last = (rho - 1) as nat;
                cut_later(e, log0, mid, transcript.log(), first, 0, last, 0, all, 0);
            }
            return Err(e);
        },
    };
    proof {
        let us = choose|us: Seq<int>| #[trigger]
            encoding_claims_read::<F, O>(
                layout,
                p,
                us,
                fit,
                set0,
                claim_set(points@, evals@),
                mid,
                transcript.log(),
            );
        assert(encoding_checked::<F, O>(
            p,
            us,
            ok,
            fit,
            vp.num_vars as nat,
            vp.inverse_rate as nat,
            old(transcript).log(),
            transcript.log(),
        ));
    }
    let ghost p_g = p;
    let r: Result<(bool, bool, QABaseEncodingRelationsBatchedWhtProof<F>), Error> = Ok(
        (ok, fit, p),
    );
    assert(r->Ok_0.0 == ok && r->Ok_0.1 == fit && r->Ok_0.2 == p_g);
    r
}

/// What the verifier of proximity says of the messages from `log0` to `log1`.
pub open spec fn proximity_verdict<F: PrimeField, H: HashFunction, C>(
    vp: QABaseVerifierParams<F, C>,
    root: H::Output,
    row_challenges: Seq<int>,
    log0: Seq<Event<H::Output>>,
    log1: Seq<Event<H::Output>>,
    r: Result<
        (
            bool,
            QABaseVerifierOpeningAccumulator<F, C>,
            QABaseEncodingRelationsBatchedWhtProof<F>,
            QABaseItem1VerifierOutput<F>,
        ),
        Error,
    >,
) -> bool {
    &&& r matches Ok(result) ==> exists|us: Seq<int>, mid: Seq<Event<H::Output>>| #[trigger]
        proximity_verified::<F, H, C>(
            vp,
            root,
            row_challenges,
            result.0,
            result.2,
            us,
            result.3,
            claim_set(result.1.points@, result.1.evals@),
            log0,
            mid,
            log1,
        )
    &&& r matches Err(e) ==> {
        ||| cut_within(e, log0, log1, proximity_fields(vp), item1_digests(vp))
        ||| round_error(e) && proximity_refused::<F, H, C>(vp, root, row_challenges, log0, log1)
    }
}

/// Verifies proximity once the commitments to the auxiliary polynomials of the
/// folded row are read. The claims that come back are left to be verified.
pub fn verify_qabase_open_scaffold_global_batch_batched_wht<
    'a,
    F: PrimeField,
    H: HashFunction,
    C,
    T: TranscriptRead<F, H::Output>,
>(
    vp: &'a QABaseVerifierParams<F, C>,
    root: &H::Output,
    row_challenges: &[F],
    aux_commitments: &'a QABaseAuxCommitments<C>,
    transcript: &mut T,
) -> (r: Result<
    (
        bool,
        QABaseVerifierOpeningAccumulator<'a, F, C>,
        QABaseEncodingRelationsBatchedWhtProof<F>,
        QABaseItem1VerifierOutput<F>,
    ),
    Error,
>)
    requires
        vp.wf(),
        3 * vp.inverse_rate <= usize::MAX,
        vp.inverse_rate * exp2(vp.num_vars as nat) <= usize::MAX,
        row_challenges@.len() == vp.num_rows,
        aux_commitments.sized(vp.inverse_rate as nat),
    ensures
        final(transcript).held() == old(transcript).held(),
        r matches Ok(result) ==> first_read(result.1, *vp, *aux_commitments)
            && result.1.comms@.len() == 3 * vp.inverse_rate - 1,
        proximity_verdict::<F, H, C>(
            *vp,
            *root,
            vals(row_challenges@),
            old(transcript).log(),
            final(transcript).log(),
            r,
        ),
{
    let ghost log0 = transcript.log();
    let ghost rc = vals(row_challenges@);
    let ghost first = checked_fields(vp.num_vars as nat, vp.inverse_rate as nat);
    let ghost (n, m) = (proximity_fields(*vp), item1_digests(*vp));
    let mut acc = build_qabase_verifier_opening_accumulator(vp, aux_commitments);
    assert(claim_set(acc.points@, acc.evals@) =~= no_claims());
    let layout = proximity_layout(vp.inverse_rate);
    let (ok_encoding, fit, p) = match verify_encoding::<F, H::Output, C, T>(
        vp,
        layout,
        &mut acc.points,
        &mut acc.evals,
        transcript,
    ) {
        Ok(result) => result,
        Err(e) => {
            proof {
                if cut_within(e, log0, transcript.log(), first, 0) {
                    assert(went(log0, log0, 0, 0));
                    cut_later(e, log0, log0, transcript.log(), 0, 0, first, 0, n, m);
                }
            }
            return Err(e);
        },
    };
    let ghost mid = transcript.log();
    let ghost set1 = claim_set(acc.points@, acc.evals@);
    let ghost us = choose|us: Seq<int>| #[trigger]
        encoding_checked::<F, H::Output>(
            p,
            us,
            ok_encoding,
            fit,
            vp.num_vars as nat,
            vp.inverse_rate as nat,
            log0,
            mid,
        ) && set1 == no_claims().append_claims(encoding_claims(layout, p, us));
    let (ok_columns, item1) = match verify_qabase_item1_column_consistency_collect::<F, H, C, T>(
        &mut acc.points,
        &mut acc.evals,
        layout,
        vp,
        root,
        row_challenges,
        transcript,
    ) {
        Ok(result) => result,
        Err(e) => {
            proof {
                if cut_within(e, mid, transcript.log(), item1_fields(*vp), m) {
                    checked_went::<F, H::Output>(
                        p,
                        us,
                        ok_encoding,
                        fit,
                        vp.num_vars as nat,
                        vp.inverse_rate as nat,
                        log0,
                        mid,
                    );
                    let n2 = item1_fields(*vp);
                    cut_later(e, log0, mid, transcript.log(), first, 0, n2, m, n, m);
                }
            }
            return Err(e);
        },
    };
    let ok: bool = ok_encoding && fit && ok_columns;
    let ghost claims = if item1_passed::<F, H, C>(
        item1,
        ok_columns,
        *vp,
        *root,
        rc,
        mid,
        transcript.log(),
        set1,
        claim_set(acc.points@, acc.evals@),
    ) {
        block_claims(
            layout,
            vals(item1.sc_point@).take(vp.num_vars as int),
            vals(item1.u_block_evals_at_sc_point@),
        )
    } else {
        Seq::empty()
    };
    proof {
        let enc = encoding_claims(layout, p, us);
        append_claims_concat(no_claims(), enc, claims);
        assert(enc + Seq::<Claim>::empty() =~= enc);
        assert(columns_checked_first::<F, H, C>(
            *vp,
            *root,
            rc,
            item1,
            ok_columns,
            claims,
            mid,
            transcript.log(),
        ));
        assert(proximity_verified::<F, H, C>(
            *vp,
            *root,
            rc,
            ok,
            p,
            us,
            item1,
            claim_set(acc.points@, acc.evals@),
            old(transcript).log(),
            mid,
            transcript.log(),
        ));
    }
    let ghost (acc_g, p_g, item_g) = (acc, p, item1);
    let r: Result<
        (
            bool,
            QABaseVerifierOpeningAccumulator<'a, F, C>,
            QABaseEncodingRelationsBatchedWhtProof<F>,
            QABaseItem1VerifierOutput<F>,
        ),
        Error,
    > = Ok((ok, acc, p, item1));
    assert(r->Ok_0.0 == ok && r->Ok_0.1 == acc_g && r->Ok_0.2 == p_g && r->Ok_0.3 == item_g);
    r
}

/// All columns led to the root, and the claims about the blocks were added.
pub open spec fn item1_passed<F: PrimeField, H: HashFunction, C>(
    item1: QABaseItem1VerifierOutput<F>,
    ok: bool,
    vp: QABaseVerifierParams<F, C>,
    root: H::Output,
    row_challenges: Seq<int>,
    log0: Seq<Event<H::Output>>,
    log1: Seq<Event<H::Output>>,
    set0: ClaimSet,
    set1: ClaimSet,
) -> bool {
    exists|d: QueriesRead<H::Output>| #[trigger]
        item1_read::<F, H, C>(item1, ok, vp, root, row_challenges, d, log0, log1) && set1
            == set0.append_claims(
            block_claims(
                first_layout(vp.inverse_rate),
                vals(item1.sc_point@).take(vp.num_vars as int),
                vals(item1.u_block_evals_at_sc_point@),
            ),
        )
}

/// What is read of both encodings of an opening at a point. Nothing of the
/// second check of the columns where one of them does not lead to the root.
pub struct FullOpenRead<F> {
    pub encoding_relations: QABaseEncodingRelationsBatchedWhtProof<F>,
    pub item1: QABaseItem1VerifierOutput<F>,
    pub eval_encoding_relations: QABaseEncodingRelationsBatchedWhtProof<F>,
    pub eval_item1: Option<QABaseEvalColumnConsistencyVerifierOutput<F>>,
}

/// The outcomes of the single checks of an opening at a point.
pub struct OpeningOutcomes {
    pub encoding: bool,
    pub encoding_fit: bool,
    pub eval_encoding: bool,
    pub eval_encoding_fit: bool,
    pub columns: bool,
    pub eval_columns: bool,
}

impl OpeningOutcomes {
    /// All checks passed.
    pub open spec fn all(self) -> bool {
        &&& self.encoding
        &&& self.encoding_fit
        &&& self.eval_encoding
        &&& self.eval_encoding_fit
        &&& self.columns
        &&& self.eval_columns
    }
}

/// The codeword of the row that the point selects was checked against the
/// columns read before.
pub open spec fn eval_columns_read<F: PrimeField, O, C>(
    vp: QABaseVerifierParams<F, C>,
    item1: QABaseItem1VerifierOutput<F>,
    row_weights: Seq<int>,
    out: QABaseEvalColumnConsistencyVerifierOutput<F>,
    ok: bool,
    log0: Seq<Event<O>>,
    log1: Seq<Event<O>>,
) -> bool {
    &&& out.query_indices@ == item1.query_indices@
    &&& out.tau == item1.tau
    &&& vals(out.eval_folded_values@) == fold_columns::<F>(row_weights, mat(item1.opened_columns@))
    &&& selector_read::<F, O>(
        ints(item1.query_indices@),
        item1.tau.val(),
        batch_value::<F>(
            item1.tau.val(),
            fold_columns::<F>(row_weights, mat(item1.opened_columns@)),
        ),
        vp.num_vars as nat,
        vp.inverse_rate as nat,
        vals(out.sc_point@),
        out.selector_eval_at_sc_point.val(),
        out.q_eval_at_sc_point.val(),
        vals(out.q_block_evals_at_sc_point@),
        ok,
        log0,
        log1,
    )
}

/// Both encodings were verified up to `second_end`.
pub open spec fn encodings_verified<F: PrimeField, O, C>(
    vp: QABaseVerifierParams<F, C>,
    out: FullOpenRead<F>,
    us: Seq<int>,
    ws: Seq<int>,
    found: OpeningOutcomes,
    log0: Seq<Event<O>>,
    first_end: Seq<Event<O>>,
    second_end: Seq<Event<O>>,
) -> bool {
    &&& encoding_checked::<F, O>(
        out.encoding_relations,
        us,
        found.encoding,
        found.encoding_fit,
        vp.num_vars as nat,
        vp.inverse_rate as nat,
        log0,
        first_end,
    )
    &&& encoding_checked::<F, O>(
        out.eval_encoding_relations,
        ws,
        found.eval_encoding,
        found.eval_encoding_fit,
        vp.num_vars as nat,
        vp.inverse_rate as nat,
        first_end,
        second_end,
    )
}

/// The verifier of an opening at a point read authentic columns and ran all
/// checks.
pub open spec fn opening_verified<F: PrimeField, H: HashFunction, C>(
    vp: QABaseVerifierParams<F, C>,
    root: H::Output,
    row_challenges: Seq<int>,
    row_weights: Seq<int>,
    z_right: Seq<int>,
    value: int,
    out: FullOpenRead<F>,
    us: Seq<int>,
    ws: Seq<int>,
    found: OpeningOutcomes,
    d: QueriesRead<H::Output>,
    set: ClaimSet,
    log0: Seq<Event<H::Output>>,
    first_end: Seq<Event<H::Output>>,
    second_end: Seq<Event<H::Output>>,
    columns_end: Seq<Event<H::Output>>,
    log1: Seq<Event<H::Output>>,
) -> bool {
    &&& encodings_verified::<F, H::Output, C>(
        vp,
        out,
        us,
        ws,
        found,
        log0,
        first_end,
        second_end,
    )
    &&& item1_read::<F, H, C>(
        out.item1,
        found.columns,
        vp,
        root,
        row_challenges,
        d,
        second_end,
        columns_end,
    )
    &&& out.eval_item1 is Some
    &&& eval_columns_read::<F, H::Output, C>(
        vp,
        out.item1,
        row_weights,
        out.eval_item1->Some_0,
        found.eval_columns,
        columns_end,
        log1,
    )
    &&& set == no_claims().append_claims(
        opening_claims(
            vp.inverse_rate,
            out.encoding_relations,
            us,
            out.eval_encoding_relations,
            ws,
            vals(out.item1.sc_point@).take(vp.num_vars as int),
            vals(out.item1.u_block_evals_at_sc_point@),
            vals(out.eval_item1->Some_0.sc_point@).take(vp.num_vars as int),
            vals(out.eval_item1->Some_0.q_block_evals_at_sc_point@),
            z_right,
            value,
        ),
    )
}

/// The verifier of an opening at a point read a column that does not lead to the
/// root.
pub open spec fn opening_stopped<F: PrimeField, H: HashFunction, C>(
    vp: QABaseVerifierParams<F, C>,
    root: H::Output,
    row_challenges: Seq<int>,
    out: FullOpenRead<F>,
    us: Seq<int>,
    ws: Seq<int>,
    found: OpeningOutcomes,
    d: QueriesRead<H::Output>,
    k: nat,
    log0: Seq<Event<H::Output>>,
    first_end: Seq<Event<H::Output>>,
    second_end: Seq<Event<H::Output>>,
    log1: Seq<Event<H::Output>>,
) -> bool {
    &&& encodings_verified::<F, H::Output, C>(
        vp,
        out,
        us,
        ws,
        found,
        log0,
        first_end,
        second_end,
    )
    &&& item1_refused::<F, H, C>(vp, root, d, k, second_end, log1)
    &&& item1_stopped(
        out.item1,
        row_challenges,
        vp.inverse_rate * exp2(vp.num_vars as nat),
        d,
    )
    &&& out.eval_item1 is None
}

/// One of the sum-checks of an opening at a point was refused, those before it
/// not.
pub open spec fn opening_refused<F: PrimeField, H: HashFunction, C>(
    vp: QABaseVerifierParams<F, C>,
    root: H::Output,
    row_challenges: Seq<int>,
    row_weights: Seq<int>,
    log0: Seq<Event<H::Output>>,
    log1: Seq<Event<H::Output>>,
) -> bool {
    let n = vp.num_vars as nat;
    let rho = vp.inverse_rate as nat;
    ||| encoding_refused::<F, H::Output>(n, rho, log0, log1)
    ||| exists|
        p: QABaseEncodingRelationsBatchedWhtProof<F>,
        us: Seq<int>,
        ok: bool,
        fit: bool,
        first_end: Seq<Event<H::Output>>,
    |
        (#[trigger] encoding_checked::<F, H::Output>(p, us, ok, fit, n, rho, log0, first_end))
            && encoding_refused::<F, H::Output>(n, rho, first_end, log1)
    ||| exists|
        out: FullOpenRead<F>,
        us: Seq<int>,
        ws: Seq<int>,
        found: OpeningOutcomes,
        first_end: Seq<Event<H::Output>>,
        second_end: Seq<Event<H::Output>>,
    |
        (#[trigger] encodings_verified::<F, H::Output, C>(
            vp,
            out,
            us,
            ws,
            found,
            log0,
            first_end,
            second_end,
        )) && columns_refused::<F, H, C>(
            vp,
            root,
            row_challenges,
            row_weights,
            second_end,
            log1,
        )
}

/// The sum-check over the columns against the folded row was refused, or the one
/// against the row that the point selects.
pub open spec fn columns_refused<F: PrimeField, H: HashFunction, C>(
    vp: QABaseVerifierParams<F, C>,
    root: H::Output,
    row_challenges: Seq<int>,
    row_weights: Seq<int>,
    log0: Seq<Event<H::Output>>,
    log1: Seq<Event<H::Output>>,
) -> bool {
    ||| item1_sumcheck_refused::<F, H, C>(vp, root, row_challenges, log0, log1)
    ||| exists|
        item1: QABaseItem1VerifierOutput<F>,
        ok: bool,
        d: QueriesRead<H::Output>,
        columns_end: Seq<Event<H::Output>>,
    |
        (#[trigger] item1_read::<F, H, C>(
            item1,
            ok,
            vp,
            root,
            row_challenges,
            d,
            log0,
            columns_end,
        )) && sumcheck_refused::<F, H::Output>(
            vp.num_vars as nat + log2(vp.inverse_rate as int),
            2,
            batch_value::<F>(item1.tau.val(), fold_columns::<F>(row_weights, d.cols)),
            columns_end,
            log1,
        )
}

/// What the verifier of an opening at a point says of the messages from `log0` to
/// `log1`.
pub open spec fn opening_verdict<F: PrimeField, H: HashFunction, C>(
    vp: QABaseVerifierParams<F, C>,
    root: H::Output,
    row_challenges: Seq<int>,
    row_weights: Seq<int>,
    z_right: Seq<int>,
    value: int,
    log0: Seq<Event<H::Output>>,
    log1: Seq<Event<H::Output>>,
    r: Result<(bool, QABaseVerifierOpeningAccumulator<F, C>, FullOpenRead<F>), Error>,
) -> bool {
    &&& r matches Ok(result) ==> result.2.eval_item1 is Some ==> exists|
        us: Seq<int>,
        ws: Seq<int>,
        found: OpeningOutcomes,
        d: QueriesRead<H::Output>,
        first_end: Seq<Event<H::Output>>,
        second_end: Seq<Event<H::Output>>,
        columns_end: Seq<Event<H::Output>>,
    |
        (#[trigger] opening_verified::<F, H, C>(
            vp,
            root,
            row_challenges,
            row_weights,
            z_right,
            value,
            result.2,
            us,
            ws,
            found,
            d,
            claim_set(result.1.points@, result.1.evals@),
            log0,
            first_end,
            second_end,
            columns_end,
            log1,
        )) && result.0 == found.all()
    &&& r matches Ok(result) ==> result.2.eval_item1 is None ==> !result.0 && exists|
        us: Seq<int>,
        ws: Seq<int>,
        found: OpeningOutcomes,
        d: QueriesRead<H::Output>,
        k: nat,
        first_end: Seq<Event<H::Output>>,
        second_end: Seq<Event<H::Output>>,
    | #[trigger]
        opening_stopped::<F, H, C>(
            vp,
            root,
            row_challenges,
            result.2,
            us,
            ws,
            found,
            d,
            k,
            log0,
            first_end,
            second_end,
            log1,
        )
    &&& r matches Err(e) ==> {
        ||| cut_within(e, log0, log1, opening_fields(vp), item1_digests(vp))
        ||| round_error(e) && opening_refused::<F, H, C>(
            vp,
            root,
            row_challenges,
            row_weights,
            log0,
            log1,
        )
    }
}

/// Verifies an opening at a point once the commitments to the auxiliary
/// polynomials of both encodings are read. The claims that come back are left to
/// be verified.
#[verifier::rlimit(40)]
pub fn verify_qabase_open_full_global_batch_batched_wht<
    'a,
    F: PrimeField,
    H: HashFunction,
    C,
    T: TranscriptRead<F, H::Output>,
>(
    vp: &'a QABaseVerifierParams<F, C>,
    root: &H::Output,
    row_challenges: &[F],
    aux_commitments: &'a QABaseAuxCommitments<C>,
    z_left: &[F],
    eval_aux_commitments: &'a QABaseAuxCommitments<C>,
    z_right: &[F],
    claimed_value: F,
    transcript: &mut T,
) -> (r: Result<(bool, QABaseVerifierOpeningAccumulator<'a, F, C>, FullOpenRead<F>), Error>)
    requires
        vp.wf(),
        is_pow2(vp.num_rows as int),
        5 * vp.inverse_rate <= usize::MAX,
        vp.inverse_rate * exp2(vp.num_vars as nat) <= usize::MAX,
        row_challenges@.len() == vp.num_rows,
        aux_commitments.sized(vp.inverse_rate as nat),
        z_left@.len() == log2(vp.num_rows as int),
        eval_aux_commitments.sized(vp.inverse_rate as nat),
    ensures
        final(transcript).held() == old(transcript).held(),
        r matches Ok(result) ==> {
            &&& first_read(result.1, *vp, *aux_commitments)
            &&& forall|i: int|
                0 <= i < 2 * vp.inverse_rate ==> *(#[trigger] result.1.comms@[3 * vp.inverse_rate
                    - 1 + i]) == eval_aux_commitments.all()[i]
            &&& result.1.comms@.len() == 5 * vp.inverse_rate - 1
        },
        opening_verdict::<F, H, C>(
            *vp,
            *root,
            vals(row_challenges@),
            eq_evals::<F>(vals(z_left@)),
            vals(z_right@),
            claimed_value.val(),
            old(transcript).log(),
            final(transcript).log(),
            r,
        ),
{
    let ghost log0 = transcript.log();
    let ghost rc = vals(row_challenges@);
    let ghost n = vp.num_vars as nat;
    let ghost rho = vp.inverse_rate as nat;
    let ghost one = checked_fields(n, rho);
    let ghost (all, digests) = (opening_fields(*vp), item1_digests(*vp));
    let ghost num_cols = vp.inverse_rate * exp2(vp.num_vars as nat);
    let mut acc = build_qabase_verifier_opening_accumulator(vp, aux_commitments);
    let ghost acc0 = acc;
    let eval_layout = extend_verifier_opening_accumulator_with_eval_aux(
        &mut acc,
        eval_aux_commitments,
        vp.inverse_rate,
    );
    let layout = proximity_layout(vp.inverse_rate);
    proof {
        assert(claim_set(acc.points@, acc.evals@) =~= no_claims());
        assert(eval_layout == second_layout(vp.inverse_rate));
        assert(layout == first_layout(vp.inverse_rate));
        assert forall|i: int| 0 <= i < 2 * rho implies *(#[trigger] acc.comms@[i])
            == aux_commitments.all()[i] by {
            assert(acc.comms@[i] == acc0.comms@[i]);
        }
        assert forall|i: int| 0 <= i < rho - 1 implies *(#[trigger] acc.comms@[2 * rho + i])
            == vp.e_commitments@[i] by {
            assert(acc.comms@[2 * rho + i] == acc0.comms@[2 * rho + i]);
        }
    }
    let ghost comms = acc.comms;
    let (ok_encoding, fit, p) = match verify_encoding::<F, H::Output, C, T>(
        vp,
        layout,
        &mut acc.points,
        &mut acc.evals,
        transcript,
    ) {
        Ok(result) => result,
        Err(e) => {
            proof {
                if cut_within(e, log0, transcript.log(), one, 0) {
                    assert(went(log0, log0, 0, 0));
                    cut_later(e, log0, log0, transcript.log(), 0, 0, one, 0, all, digests);
                }
            }
            return Err(e);
        },
    };
    let ghost first_end = transcript.log();
    let ghost set1 = claim_set(acc.points@, acc.evals@);
    let ghost us = choose|us: Seq<int>| #[trigger]
        encoding_checked::<F, H::Output>(p, us, ok_encoding, fit, n, rho, log0, first_end) && set1
            == no_claims().append_claims(encoding_claims(layout, p, us));
    proof {
        checked_went::<F, H::Output>(p, us, ok_encoding, fit, n, rho, log0, first_end);
    }
    let (ok_eval, eval_fit, q) = match verify_encoding::<F, H::Output, C, T>(
        vp,
        eval_layout,
        &mut acc.points,
        &mut acc.evals,
        transcript,
    ) {
        Ok(result) => result,
        Err(e) => {
            proof {
                if cut_within(e, first_end, transcript.log(), one, 0) {
                    let log = transcript.log();
                    cut_later(e, log0, first_end, log, one, 0, one, 0, all, digests);
                }
            }
            return Err(e);
        },
    };
    let ghost second_end = transcript.log();
    let ghost set2 = claim_set(acc.points@, acc.evals@);
    let ghost ws = choose|ws: Seq<int>| #[trigger]
        encoding_checked::<F, H::Output>(q, ws, ok_eval, eval_fit, n, rho, first_end, second_end)
            && set2 == set1.append_claims(encoding_claims(eval_layout, q, ws));
    proof {
        checked_went::<F, H::Output>(q, ws, ok_eval, eval_fit, n, rho, first_end, second_end);
        went_on(log0, first_end, second_end, one, 0, one, 0);
    }
    let (ok_columns, item1) = match verify_qabase_item1_column_consistency_collect::<F, H, C, T>(
        &mut acc.points,
        &mut acc.evals,
        layout,
        vp,
        root,
        row_challenges,
        transcript,
    ) {
        Ok(result) => result,
        Err(e) => {
            proof {
                let n1 = item1_fields(*vp);
                if cut_within(e, second_end, transcript.log(), n1, digests) {
                    let log = transcript.log();
                    cut_later(e, log0, second_end, log, one + one, 0, n1, digests, all, digests);
                } else {
                    let out = arbitrary_read(p, q);
                    let found = outcomes(ok_encoding, fit, ok_eval, eval_fit, false, false);
                    assert(encodings_verified::<F, H::Output, C>(
                        *vp,
                        out,
                        us,
                        ws,
                        found,
                        log0,
                        first_end,
                        second_end,
                    ));
                }
            }
            return Err(e);
        },
    };
    let ghost columns_end = transcript.log();
    let ghost set3 = claim_set(acc.points@, acc.evals@);
    let row_weights = qabase_row_weights_from_z_left(vp.num_rows, z_left);
    let ghost rw = vals(row_weights@);
    if item1.opened_columns.len() != item1.query_indices.len() {
        let out = FullOpenRead {
            encoding_relations: p,
            item1,
            eval_encoding_relations: q,
            eval_item1: None,
        };
        proof {
            let ghost found = outcomes(ok_encoding, fit, ok_eval, eval_fit, false, false);
            assert(mat(item1.opened_columns@).len() == item1.opened_columns@.len());
            assert(ints(item1.query_indices@).len() == item1.query_indices@.len());
            let (d, k) = choose|d: QueriesRead<H::Output>, k: nat| #[trigger]
                item1_refused::<F, H, C>(*vp, *root, d, k, second_end, columns_end)
                    && item1_stopped(item1, rc, num_cols, d);
            assert(opening_stopped::<F, H, C>(
                *vp,
                *root,
                rc,
                out,
                us,
                ws,
                found,
                d,
                k,
                old(transcript).log(),
                first_end,
                second_end,
                transcript.log(),
            ));
        }
        let ghost (acc_g, out_g) = (acc, out);
        let r: Result<
            (bool, QABaseVerifierOpeningAccumulator<'a, F, C>, FullOpenRead<F>),
            Error,
        > = Ok((false, acc, out));
        assert(!r->Ok_0.0 && r->Ok_0.1 == acc_g && r->Ok_0.2 == out_g);
        return r;
    }
    proof {
        assert(mat(item1.opened_columns@).len() == item1.opened_columns@.len());
        assert(ints(item1.query_indices@).len() == item1.query_indices@.len());
    }
    let ghost d = choose|d: QueriesRead<H::Output>| #[trigger]
        item1_read::<F, H, C>(item1, ok_columns, *vp, *root, rc, d, second_end, columns_end) && set3
            == set2.append_claims(
            block_claims(
                layout,
                vals(item1.sc_point@).take(vp.num_vars as int),
                vals(item1.u_block_evals_at_sc_point@),
            ),
        );
    let eval_folded_values = qabase_eval_folded_values_from_opened_columns(
        &item1.opened_columns,
        &row_weights,
    );
    let (ok_eval_columns, eval_item1) = match verify_qabase_eval_column_consistency_collect::<
        F,
        H::Output,
        C,
        T,
    >(
        &mut acc.points,
        &mut acc.evals,
        eval_layout,
        vp,
        copied_indices(&item1.query_indices),
        eval_folded_values,
        item1.tau,
        transcript,
    ) {
        Ok(result) => result,
        Err(e) => {
            proof {
                let n1 = item1_fields(*vp);
                let n2 = selector_fields(n, rho);
                if cut_within(e, columns_end, transcript.log(), n2, 0) {
                    let log = transcript.log();
                    let so_far = one + one + n1;
                    item1_went::<F, H, C>(
                        item1,
                        ok_columns,
                        *vp,
                        *root,
                        rc,
                        d,
                        second_end,
                        columns_end,
                    );
                    went_on(log0, second_end, columns_end, one + one, 0, n1, digests);
                    cut_later(
                        e,
                        log0,
                        columns_end,
                        log,
                        so_far,
                        digests,
                        n2,
                        0,
                        all,
                        digests,
                    );
                } else {
                    let out = arbitrary_read(p, q);
                    let found = outcomes(ok_encoding, fit, ok_eval, eval_fit, false, false);
                    assert(encodings_verified::<F, H::Output, C>(
                        *vp,
                        out,
                        us,
                        ws,
                        found,
                        log0,
                        first_end,
                        second_end,
                    ));
                    assert(columns_refused::<F, H, C>(
                        *vp,
                        *root,
                        rc,
                        rw,
                        second_end,
                        transcript.log(),
                    ));
                }
            }
            return Err(e);
        },
    };
    collect_qabase_eval_value_claim_verifier(
        &mut acc.points,
        &mut acc.evals,
        eval_layout,
        z_right,
        claimed_value,
    );
    let ok: bool = ok_encoding && fit && ok_eval && eval_fit && ok_columns && ok_eval_columns;
    let ghost eval_g = eval_item1;
    let out = FullOpenRead {
        encoding_relations: p,
        item1,
        eval_encoding_relations: q,
        eval_item1: Some(eval_item1),
    };
    proof {
        let found = outcomes(ok_encoding, fit, ok_eval, eval_fit, ok_columns, ok_eval_columns);
        let local = vals(item1.sc_point@).take(vp.num_vars as int);
        let eval_local = vals(eval_g.sc_point@).take(vp.num_vars as int);
        portions(
            no_claims(),
            encoding_claims(layout, p, us),
            encoding_claims(eval_layout, q, ws),
            block_claims(layout, local, vals(item1.u_block_evals_at_sc_point@)),
            block_claims(eval_layout, eval_local, vals(eval_g.q_block_evals_at_sc_point@)),
            value_claim(eval_layout, vals(z_right@), claimed_value.val()),
        );
        assert(eval_columns_read::<F, H::Output, C>(
            *vp,
            item1,
            rw,
            eval_g,
            ok_eval_columns,
            columns_end,
            transcript.log(),
        ));
        assert(opening_verified::<F, H, C>(
            *vp,
            *root,
            rc,
            eq_evals::<F>(vals(z_left@)),
            vals(z_right@),
            claimed_value.val(),
            out,
            us,
            ws,
            found,
            d,
            claim_set(acc.points@, acc.evals@),
            old(transcript).log(),
            first_end,
            second_end,
            columns_end,
            transcript.log(),
        ));
        assert(ok == found.all());
    }
    let ghost (acc_g, out_g) = (acc, out);
    let r: Result<(bool, QABaseVerifierOpeningAccumulator<'a, F, C>, FullOpenRead<F>), Error> = Ok(
        (ok, acc, out),
    );
    assert(r->Ok_0.0 == ok && r->Ok_0.1 == acc_g && r->Ok_0.2 == out_g);
    r
}

/// The outcomes of six checks.
pub open spec fn outcomes(
    encoding: bool,
    encoding_fit: bool,
    eval_encoding: bool,
    eval_encoding_fit: bool,
    columns: bool,
    eval_columns: bool,
) -> OpeningOutcomes {
    OpeningOutcomes {
        encoding,
        encoding_fit,
        eval_encoding,
        eval_encoding_fit,
        columns,
        eval_columns,
    }
}

/// Some result with two given encodings.
spec fn arbitrary_read<F: PrimeField>(
    p: QABaseEncodingRelationsBatchedWhtProof<F>,
    q: QABaseEncodingRelationsBatchedWhtProof<F>,
) -> FullOpenRead<F> {
    FullOpenRead {
        encoding_relations: p,
        item1: arbitrary(),
        eval_encoding_relations: q,
        eval_item1: None,
    }
}

/// What the verifier has at the end of a check of columns that the prover wrote.
pub open spec fn item1_as_read<F: PrimeField>(
    out: QABaseItem1ProverOutput<F>,
) -> QABaseItem1VerifierOutput<F> {
    QABaseItem1VerifierOutput {
        query_indices: out.query_indices,
        folded_values: out.folded_values,
        opened_columns: out.opened_columns,
        tau: out.tau,
        sc_point: out.sc_point,
        selector_eval_at_sc_point: out.selector_eval_at_sc_point,
        u_eval_at_sc_point: out.u_eval_at_sc_point,
        u_block_evals_at_sc_point: out.u_block_evals_at_sc_point,
    }
}

/// What the verifier has at the end of an opening at a point that the prover
/// wrote.
pub open spec fn opening_as_read<F: PrimeField>(out: FullOpenProved<F>) -> FullOpenRead<F> {
    FullOpenRead {
        encoding_relations: out.encoding_relations,
        item1: item1_as_read(out.item1),
        eval_encoding_relations: out.eval_encoding_relations,
        eval_item1: Some(
            QABaseEvalColumnConsistencyVerifierOutput {
                query_indices: out.eval_item1.query_indices,
                eval_folded_values: out.eval_item1.eval_folded_values,
                tau: out.eval_item1.tau,
                sc_point: out.eval_item1.sc_point,
                selector_eval_at_sc_point: out.eval_item1.selector_eval_at_sc_point,
                q_eval_at_sc_point: out.eval_item1.q_eval_at_sc_point,
                q_block_evals_at_sc_point: out.eval_item1.q_block_evals_at_sc_point,
            },
        ),
    }
}

/// What an honest prover writes about an encoding is accepted, and the values of
/// the scaled blocks make up their batch.
pub proof fn honest_encoding_claims_are_accepted<F: PrimeField, O>(
    p: QABaseEncodingRelationsBatchedWhtProof<F>,
    witness: QAWitness<F>,
    msg: Seq<int>,
    e: Seq<Seq<int>>,
    num_vars: nat,
    log0: Seq<Event<O>>,
    log1: Seq<Event<O>>,
)
    requires
        witness.of(msg, e),
        msg.len() == exp2(num_vars),
        rect(e, msg.len()),
        2 * (e.len() + 1) <= usize::MAX,
        p.sized(e.len() + 1),
        encoding_proved::<F, O>(p, msg, e, log0, log1),
    ensures
        encoding_checked::<F, O>(
            p,
            scaled_values::<F>(p, msg, e),
            true,
            true,
            num_vars,
            e.len() + 1,
            log0,
            log1,
        ),
{
    exp2_is_pow2(num_vars);
    vals_canon(witness.msg@);
    let us = scaled_values::<F>(p, msg, e);
    let mid = choose|mid: Seq<Event<O>>| #[trigger]
        encoding_written::<F, O>(p, msg, e, log0, mid) && log1 == mid + sent_fields(us);
    batches_fit::<F, O>(p, msg, e, log0, mid);
    honest_encoding_is_accepted::<F, O>(p, witness, msg, e, log0, mid);
    assert(us.len() == e.len());
}

/// Columns that an honest prover opens are authentic, and what it writes about
/// the folded row is accepted.
pub proof fn honest_item1_is_accepted<F: PrimeField, H: HashFunction, C>(
    pp: QABaseProverParams<F, C>,
    vp: QABaseVerifierParams<F, C>,
    comm: QABaseCommitment<H, Vec<Vec<F>>>,
    rows: Seq<Seq<int>>,
    folded: QABaseFoldedWitness<F>,
    item1: QABaseItem1ProverOutput<F>,
    challenges: Seq<int>,
    log0: Seq<Event<H::Output>>,
    log1: Seq<Event<H::Output>>,
)
    requires
        pp.wf(),
        vp.num_vars == pp.num_vars,
        vp.num_rows == pp.num_rows,
        vp.inverse_rate == pp.inverse_rate,
        vp.num_queries == pp.num_queries,
        rows.len() == pp.num_rows,
        rect(rows, exp2(pp.num_vars as nat)),
        mat(comm.codeword@) == encode_rows::<F>(rows, pp.qa_params.coeffs()),
        tree_over::<H, F>(
            comm.codeword_tree@,
            mat(comm.codeword@),
            (pp.inverse_rate * exp2(pp.num_vars as nat)) as nat,
        ),
        folded.of(rows, pp.qa_params.coeffs(), exp2(pp.num_vars as nat)),
        item1_written::<F, H, C>(
            item1,
            pp,
            comm,
            vals(folded.row_challenges@),
            vals(folded.folded_qa_witness.codeword@),
            challenges,
            log0,
            log1,
        ),
    ensures
        exists|d: QueriesRead<H::Output>| #[trigger]
            item1_read::<F, H, C>(
                item1_as_read(item1),
                true,
                vp,
                comm.root_spec(),
                vals(folded.row_challenges@),
                d,
                log0,
                log1,
            ) && d.cols == mat(item1.opened_columns@),
{
    let n = exp2(pp.num_vars as nat);
    let num_cols = pp.inverse_rate * n;
    let e = pp.qa_params.coeffs();
    let q = ints(item1.query_indices@);
    let cols = mat(item1.opened_columns@);
    let paths = Seq::new(
        pp.num_queries as nat,
        |s: int| path::<H>(comm.codeword_tree@[0]@, q[s]),
    );
    let d = QueriesRead { challenges, paths, cols };
    let root = comm.root_spec();
    let rc = vals(folded.row_challenges@);
    let msg = vals(folded.folded_msg@);
    let word = encode::<F>(msg, e);
    let tau = item1.tau.val();
    let z = vals(item1.sc_point@);
    exp2_is_pow2(pp.num_vars as nat);
    assert(num_cols > 0) by (nonlinear_arith)
        requires
            pp.inverse_rate >= 2,
            n > 0,
            num_cols == pp.inverse_rate * n,
    ;
    indices_in_range::<F>(item1.query_indices@, challenges, num_cols);
    residues_of_rows::<F>(comm.codeword@);
    assert(q.len() == item1.query_indices@.len());
    assert(indices_of::<F>(challenges, num_cols).len() == challenges.len());
    assert forall|s: int| 0 <= s < cols.len() implies climb::<H>(
        leaf::<F, H>(#[trigger] cols[s]),
        paths[s],
        index_of::<F>(challenges[s], word_bytes(), num_cols),
    ) == root by {
        assert(q[s] == indices_of::<F>(challenges, num_cols)[s]);
        assert(cols[s] == column(mat(comm.codeword@), q[s]));
        opened_columns_are_authentic::<F, H, Vec<Vec<F>>>(comm, num_cols as nat, q[s]);
    }
    assert forall|s: int| 0 <= s < pp.num_queries implies (#[trigger] paths[s]).len() == log2(
        num_cols,
    ) by {
        assert(q[s] == item1.query_indices@[s]);
        opened_columns_are_authentic::<F, H, Vec<Vec<F>>>(comm, num_cols as nat, q[s]);
    }
    assert forall|s: int| 0 <= s < cols.len() implies (#[trigger] cols[s]).len() == pp.num_rows by {
        assert(cols[s] == column(mat(comm.codeword@), q[s]));
    }
    let log = log0 + drawn(challenges) + column_events(paths, cols);
    assert(queries_read(
        d,
        vp.num_queries as nat,
        vp.num_queries as nat,
        vp.num_rows as nat,
        log2(num_cols),
        log0,
        log,
    ));
    comb_len::<F>(rc, rows, n);
    encode_shape::<F>(msg, e);
    vals_canon(folded.folded_qa_witness.codeword@);
    assert forall|i: int| 0 <= i < q.len() implies 0 <= #[trigger] q[i] < (e.len() + 1) * n by {
        assert(q[i] == item1.query_indices@[i]);
    }
    assert(cols =~= Seq::new(q.len(), |i: int| column(encode_rows::<F>(rows, e), q[i])));
    column_claim_holds::<F>(rc, rows, e, n, q, tau);
    honest_selector_run_is_accepted::<F, H::Output>(
        q,
        tau,
        word,
        pp.num_vars as nat,
        pp.inverse_rate as nat,
        z,
        log + drawn(seq![tau]),
    );
    assert(item1_read::<F, H, C>(item1_as_read(item1), true, vp, root, rc, d, log0, log1));
}

/// What the prover of an opening at a point writes takes the verifier to the
/// same claims, accepted.
pub proof fn honest_opening_is_accepted<F: PrimeField, H: HashFunction, C>(
    pp: QABaseProverParams<F, C>,
    vp: QABaseVerifierParams<F, C>,
    comm: QABaseCommitment<H, Vec<Vec<F>>>,
    rows: Seq<Seq<int>>,
    folded: QABaseFoldedWitness<F>,
    eval: QABaseEvalWitness<F>,
    z_right: Seq<int>,
    value: int,
    out: FullOpenProved<F>,
    challenges: Seq<int>,
    log0: Seq<Event<H::Output>>,
    first_end: Seq<Event<H::Output>>,
    second_end: Seq<Event<H::Output>>,
    columns_end: Seq<Event<H::Output>>,
    log1: Seq<Event<H::Output>>,
)
    requires
        pp.wf(),
        vp.num_vars == pp.num_vars,
        vp.num_rows == pp.num_rows,
        vp.inverse_rate == pp.inverse_rate,
        vp.num_queries == pp.num_queries,
        5 * pp.inverse_rate <= usize::MAX,
        rows.len() == pp.num_rows,
        rect(rows, exp2(pp.num_vars as nat)),
        mat(comm.codeword@) == encode_rows::<F>(rows, pp.qa_params.coeffs()),
        tree_over::<H, F>(
            comm.codeword_tree@,
            mat(comm.codeword@),
            (pp.inverse_rate * exp2(pp.num_vars as nat)) as nat,
        ),
        folded.of(rows, pp.qa_params.coeffs(), exp2(pp.num_vars as nat)),
        eval.of(rows, pp.qa_params.coeffs(), exp2(pp.num_vars as nat)),
        eval.row_weights@.len() == pp.num_rows,
        opening_proved::<F, H, C>(
            pp,
            comm,
            vals(folded.row_challenges@),
            vals(folded.folded_msg@),
            vals(eval.row_weights@),
            vals(eval.eval_msg@),
            out,
            challenges,
            log0,
            first_end,
            second_end,
            columns_end,
            log1,
        ),
    ensures
        exists|found: OpeningOutcomes, d: QueriesRead<H::Output>|
            found.all() && #[trigger] opening_verified::<F, H, C>(
                vp,
                comm.root_spec(),
                vals(folded.row_challenges@),
                vals(eval.row_weights@),
                z_right,
                value,
                opening_as_read(out),
                scaled_values::<F>(
                    out.encoding_relations,
                    vals(folded.folded_msg@),
                    pp.qa_params.coeffs(),
                ),
                scaled_values::<F>(
                    out.eval_encoding_relations,
                    vals(eval.eval_msg@),
                    pp.qa_params.coeffs(),
                ),
                found,
                d,
                no_claims().append_claims(
                    opening_claims(
                        pp.inverse_rate,
                        out.encoding_relations,
                        scaled_values::<F>(
                            out.encoding_relations,
                            vals(folded.folded_msg@),
                            pp.qa_params.coeffs(),
                        ),
                        out.eval_encoding_relations,
                        scaled_values::<F>(
                            out.eval_encoding_relations,
                            vals(eval.eval_msg@),
                            pp.qa_params.coeffs(),
                        ),
                        vals(out.item1.sc_point@).take(pp.num_vars as int),
                        vals(out.item1.u_block_evals_at_sc_point@),
                        vals(out.eval_item1.sc_point@).take(pp.num_vars as int),
                        vals(out.eval_item1.q_block_evals_at_sc_point@),
                        z_right,
                        value,
                    ),
                ),
                log0,
                first_end,
                second_end,
                columns_end,
                log1,
            ),
{
    let n = exp2(pp.num_vars as nat);
    let num_cols = pp.inverse_rate * n;
    let e = pp.qa_params.coeffs();
    let msg = vals(folded.folded_msg@);
    let eval_msg = vals(eval.eval_msg@);
    let rc = vals(folded.row_challenges@);
    let rw = vals(eval.row_weights@);
    let root = comm.root_spec();
    let q = ints(out.item1.query_indices@);
    let cols = mat(out.item1.opened_columns@);
    let tau = out.item1.tau.val();
    exp2_is_pow2(pp.num_vars as nat);
    comb_len::<F>(rc, rows, n);
    comb_len::<F>(rw, rows, n);
    encode_shape::<F>(eval_msg, e);
    honest_encoding_claims_are_accepted::<F, H::Output>(
        out.encoding_relations,
        folded.folded_qa_witness,
        msg,
        e,
        pp.num_vars as nat,
        log0,
        first_end,
    );
    honest_encoding_claims_are_accepted::<F, H::Output>(
        out.eval_encoding_relations,
        eval.eval_qa_witness,
        eval_msg,
        e,
        pp.num_vars as nat,
        first_end,
        second_end,
    );
    honest_item1_is_accepted::<F, H, C>(
        pp,
        vp,
        comm,
        rows,
        folded,
        out.item1,
        challenges,
        second_end,
        columns_end,
    );
    let d = choose|d: QueriesRead<H::Output>| #[trigger]
        item1_read::<F, H, C>(
            item1_as_read(out.item1),
            true,
            vp,
            root,
            rc,
            d,
            second_end,
            columns_end,
        ) && d.cols == cols;
    assert(num_cols > 0) by (nonlinear_arith)
        requires
            pp.inverse_rate >= 2,
            n > 0,
            num_cols == pp.inverse_rate * n,
    ;
    indices_in_range::<F>(out.item1.query_indices@, challenges, num_cols);
    assert forall|i: int| 0 <= i < q.len() implies 0 <= #[trigger] q[i] < (e.len() + 1) * n by {
        assert(q[i] == out.item1.query_indices@[i]);
    }
    assert(q.len() == pp.num_queries) by {
        assert(indices_of::<F>(challenges, num_cols).len() == challenges.len());
    }
    assert(cols =~= Seq::new(q.len(), |i: int| column(encode_rows::<F>(rows, e), q[i])));
    column_claim_holds::<F>(rw, rows, e, n, q, tau);
    vals_canon(eval.eval_qa_witness.codeword@);
    honest_selector_run_is_accepted::<F, H::Output>(
        q,
        tau,
        encode::<F>(eval_msg, e),
        pp.num_vars as nat,
        pp.inverse_rate as nat,
        vals(out.eval_item1.sc_point@),
        columns_end,
    );
    let found = outcomes(true, true, true, true, true, true);
    let us = scaled_values::<F>(out.encoding_relations, msg, e);
    let ws = scaled_values::<F>(out.eval_encoding_relations, eval_msg, e);
    let read = opening_as_read(out);
    assert(encodings_verified::<F, H::Output, C>(
        vp,
        read,
        us,
        ws,
        found,
        log0,
        first_end,
        second_end,
    ));
    assert(eval_columns_read::<F, H::Output, C>(
        vp,
        read.item1,
        rw,
        read.eval_item1->Some_0,
        true,
        columns_end,
        log1,
    ));
    let set = no_claims().append_claims(
        opening_claims(
            pp.inverse_rate,
            out.encoding_relations,
            us,
            out.eval_encoding_relations,
            ws,
            vals(out.item1.sc_point@).take(pp.num_vars as int),
            vals(out.item1.u_block_evals_at_sc_point@),
            vals(out.eval_item1.sc_point@).take(pp.num_vars as int),
            vals(out.eval_item1.q_block_evals_at_sc_point@),
            z_right,
            value,
        ),
    );
    assert(found.all());
    assert(opening_verified::<F, H, C>(
        vp,
        root,
        rc,
        rw,
        z_right,
        value,
        read,
        us,
        ws,
        found,
        d,
        set,
        log0,
        first_end,
        second_end,
        columns_end,
        log1,
    ));
}

} // verus!
