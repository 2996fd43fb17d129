//! Whole openings between the steps that commit to auxiliary polynomials.

use crate::brakingbase::{
    params_agree, BrakingBaseCommitment, BrakingBaseProverParam, BrakingBaseVerifierParam,
    MultilinearBrakingBase,
};
use crate::brakingbase_checks::{
    decomposition_claims, decomposition_passed, four_read, halves_at, mask_check_refused, mask_of,
    two_factor_terms,
};
use crate::brakingbase_open::{
    collect_opening_claims, columns_at, columns_claim, open_columns, open_finish,
    open_parity_finish, open_parity_start, opening_claims, opening_events, parity_cells_within,
    paths_at, shape_logs, state_decomposes, BrakingBaseColumns, BrakingBaseOpening,
    BrakingBaseParity, ParityEnd,
};
use crate::brakingbase_verify::{
    column_check_fields, column_check_went, columns_accepted, columns_check_ok, columns_ended,
    columns_lead_to, columns_read, columns_refused, columns_split_refused, columns_went,
    honest_column_check_is_accepted, honest_columns_are_accepted, honest_parity_check_is_accepted,
    parity_check_fields, parity_ended, parity_refused, parity_split_refused, verifier_logs,
    verify_columns, verify_parity_finish, verify_parity_start, BrakingBaseColumnsVerifier,
    BrakingBaseParityVerifier, BrakingBaseVerification, ColumnsRead,
};
use crate::claims::{claim_set, no_claims, Claim};
use crate::classic_sumcheck::{round_error, run_events, sumcheck_refused};
use crate::error::Error;
use crate::field::PrimeField;
use crate::hash::HashFunction;
use crate::linear::{ints, mat, vals, vals_canon};
use crate::mle::{exp2, log2, log2_power_of_two, mle};
use crate::parity::{entries_of, parity_entries};
use crate::qapcs::Evaluation;
use crate::spark::{
    claims_of, extension_keeps_matrix_eval, honest_spark_is_accepted, matrix_eval, spark_fields,
    spark_prove, spark_prove_start, spark_run_accepted, spark_run_refused, spark_verify,
    spark_written, SparkOffsets, SparkRead, SparkRun, SparkWitness,
};
use crate::spark_memory::extended;
use crate::transcript::{
    cut_later, cut_within, drawn, sent_fields, went, went_on, went_plain, Event, TranscriptRead,
    TranscriptWrite,
};
use vstd::prelude::*;

verus! {

/// The prover's state after both codewords are checked.
pub struct BrakingBaseChecked<F> {
    pub columns: BrakingBaseColumns<F>,
    pub parity: BrakingBaseParity<F>,
    pub end: ParityEnd<F>,
    pub spark: SparkWitness<F>,
}

/// The sampled columns were opened, their check and the parity check run, and
/// the reads of the parity-check matrix laid out.
pub open spec fn checks_written<F: PrimeField, H: HashFunction, P, C>(
    pp: BrakingBaseProverParam<F, P, C>,
    comm: BrakingBaseCommitment<F, H>,
    state: BrakingBaseOpening<F>,
    out: BrakingBaseChecked<F>,
    log0: Seq<Event<H::Output>>,
    log1: Seq<Event<H::Output>>,
) -> bool {
    let aux_vars = log2(pp.spark.aux_len as int);
    let q = ints(out.columns.query_indices@);
    let rows = mat(comm.rows@);
    let beta = vals(out.parity.beta@);
    let gamma = vals(out.end.gamma_point@);
    let aux = mat(state.aux_polys@);
    let p_word = vals(state.p_codeword@);
    let q_word = vals(state.q_codeword@);
    &&& out.columns.wf(pp, state)
    &&& out.columns.instance.claim.val() == columns_claim::<F>(
        vals(state.proximity_weights@),
        vals(state.row_weights@),
        columns_at(rows, q),
        vals(out.columns.query_weights@),
        out.columns.eta.val(),
    )
    &&& out.parity.wf(pp, state)
    &&& beta.len() == log2(pp.codeword_len as int)
    &&& claims_of(out.parity.claims@) == decomposition_claims(
        beta,
        aux_vars,
        halves_at::<F>(aux, beta, aux_vars),
    )
    &&& gamma.len() == log2(pp.codeword_len as int)
    &&& claims_of(out.end.claims@) == decomposition_claims(
        gamma,
        aux_vars,
        halves_at::<F>(aux, gamma, aux_vars),
    )
    &&& out.spark.wf(pp.spark)
    &&& out.spark.x() == extended(gamma, pp.spark.mem_vars())
    &&& out.spark.y() == extended(vals(out.parity.parity_point@), pp.spark.mem_vars())
    &&& out.end.h_eval.val() == matrix_eval::<F>(
        entries_of(pp.spark.entries@),
        out.spark.x(),
        out.spark.y(),
    )
    &&& log1 == log0 + drawn(vals(out.columns.query_challenges@)) + opening_events(
        columns_at(rows, q),
        paths_at::<H>(comm.leaves(pp.codeword_len as nat), q),
    ) + drawn(vals(out.columns.query_weights@)) + drawn(seq![out.columns.eta.val()])
        + run_events::<F, H::Output>(
        two_factor_terms(out.columns.eta.val()),
        mat(out.columns.instance.polys@),
        2,
        beta,
    ) + sent_fields(seq![mle::<F>(p_word, beta), mle::<F>(q_word, beta)]) + sent_fields(
        halves_at::<F>(aux, beta, aux_vars),
    ) + drawn(vals(out.parity.parity_point@)) + drawn(seq![out.parity.eta.val()])
        + run_events::<F, H::Output>(
        two_factor_terms(out.parity.eta.val()),
        mat(out.parity.instance.polys@),
        2,
        gamma,
    ) + sent_fields(
        seq![mle::<F>(p_word, gamma), mle::<F>(q_word, gamma), out.end.h_eval.val()],
    ) + sent_fields(halves_at::<F>(aux, gamma, aux_vars))
}

/// The verifier's state after both codewords are checked.
pub struct BrakingBaseCheckedVerifier<F> {
    pub columns: BrakingBaseColumnsVerifier<F>,
    pub parity: BrakingBaseParityVerifier<F>,
    pub end: ParityEnd<F>,
}

/// The verifier read authentic columns up to `columns_read`, accepted their check
/// up to `columns_end`, and then the parity check.
pub open spec fn checks_accepted<F: PrimeField, H: HashFunction, V, C>(
    vp: BrakingBaseVerifierParam<V, C>,
    root: H::Output,
    state: BrakingBaseVerification<F>,
    out: BrakingBaseCheckedVerifier<F>,
    log0: Seq<Event<H::Output>>,
    columns_read: Seq<Event<H::Output>>,
    columns_end: Seq<Event<H::Output>>,
    log1: Seq<Event<H::Output>>,
) -> bool {
    &&& out.columns.wf(vp)
    &&& out.parity.beta@.len() == log2(vp.codeword_len as int)
    &&& out.parity.parity_point@.len() == log2(vp.row_len as int)
    &&& out.end.gamma_point@.len() == log2(vp.codeword_len as int)
    &&& columns_accepted::<F, H, V, C>(vp, root, state, out.columns, log0, columns_read)
    &&& columns_ended::<F, H::Output>(
        out.columns,
        log2(vp.aux_len as int),
        out.parity,
        columns_read,
        columns_end,
    )
    &&& parity_ended::<F, H::Output>(
        out.parity.eta.val(),
        vals(out.end.gamma_point@),
        log2(vp.aux_len as int),
        out.end.h_eval.val(),
        claims_of(out.end.claims@),
        columns_end,
        log1,
    )
}

/// The check of sampled columns failed with this error.
pub open spec fn column_check_failed<F: PrimeField, O, V, C>(
    vp: BrakingBaseVerifierParam<V, C>,
    cols: BrakingBaseColumnsVerifier<F>,
    e: Error,
    log0: Seq<Event<O>>,
    log1: Seq<Event<O>>,
) -> bool {
    let code_vars = log2(vp.codeword_len as int);
    ||| round_error(e) && sumcheck_refused::<F, O>(
        code_vars,
        2,
        cols.claim.val(),
        log0,
        log1,
    )
    ||| e.is_open("BrakingBase sumcheck terminal failed") && mask_check_refused::<F, O>(
        code_vars,
        ints(cols.query_indices@),
        vals(cols.query_weights@),
        cols.eta.val(),
        cols.claim.val(),
        log0,
        log1,
    )
    ||| e.is_open("codeword split evaluation mismatch") && columns_split_refused::<F, O>(
        cols,
        code_vars,
        log0,
        log1,
    )
}

/// The parity check failed with this error.
pub open spec fn parity_check_failed<F: PrimeField, O, V, C>(
    vp: BrakingBaseVerifierParam<V, C>,
    eta: int,
    e: Error,
    log0: Seq<Event<O>>,
    log1: Seq<Event<O>>,
) -> bool {
    let code_vars = log2(vp.codeword_len as int);
    ||| round_error(e) && sumcheck_refused::<F, O>(code_vars, 2, 0, log0, log1)
    ||| e.is_open("BrakingBase parity sumcheck terminal failed") && parity_refused::<F, O>(
        eta,
        code_vars,
        log0,
        log1,
    )
    ||| e.is_open("codeword split evaluation mismatch") && parity_split_refused::<F, O>(
        eta,
        code_vars,
        log0,
        log1,
    )
}

/// One of the checks failed with this error, those before it not.
pub open spec fn checks_failed<F: PrimeField, H: HashFunction, V, C>(
    vp: BrakingBaseVerifierParam<V, C>,
    root: H::Output,
    state: BrakingBaseVerification<F>,
    e: Error,
    log0: Seq<Event<H::Output>>,
    log1: Seq<Event<H::Output>>,
) -> bool {
    ||| e.is_open("BrakingBase column Merkle path failed") && columns_refused::<F, H, V, C>(
        vp,
        root,
        log0,
        log1,
    )
    ||| exists|cols: BrakingBaseColumnsVerifier<F>, columns_read: Seq<Event<H::Output>>|
        (#[trigger] columns_accepted::<F, H, V, C>(vp, root, state, cols, log0, columns_read))
            && cols.wf(vp) && column_check_failed::<F, H::Output, V, C>(
            vp,
            cols,
            e,
            columns_read,
            log1,
        )
    ||| exists|
        cols: BrakingBaseColumnsVerifier<F>,
        parity: BrakingBaseParityVerifier<F>,
        columns_read: Seq<Event<H::Output>>,
        columns_end: Seq<Event<H::Output>>,
    |
        {
            &&& #[trigger] columns_accepted::<F, H, V, C>(
                vp,
                root,
                state,
                cols,
                log0,
                columns_read,
            )
            &&& #[trigger] columns_ended::<F, H::Output>(
                cols,
                log2(vp.aux_len as int),
                parity,
                columns_read,
                columns_end,
            )
            &&& cols.wf(vp)
            &&& parity.beta@.len() == log2(vp.codeword_len as int)
            &&& parity.parity_point@.len() == log2(vp.row_len as int)
            &&& parity_check_failed::<F, H::Output, V, C>(
                vp,
                parity.eta.val(),
                e,
                columns_end,
                log1,
            )
        }
}

/// How many field elements the checks of both codewords send.
pub open spec fn checks_fields<V, C>(vp: BrakingBaseVerifierParam<V, C>) -> nat {
    let code_vars = log2(vp.codeword_len as int);
    (vp.num_queries as nat) * (vp.num_rows as nat) + column_check_fields(code_vars)
        + parity_check_fields(code_vars)
}

/// How many digests the checks of both codewords send.
pub open spec fn checks_digests<V, C>(vp: BrakingBaseVerifierParam<V, C>) -> nat {
    (vp.num_queries as nat) * log2(vp.codeword_len as int)
}

/// How many messages the sampled columns have.
pub proof fn accepted_columns_went<F: PrimeField, H: HashFunction, V, C>(
    vp: BrakingBaseVerifierParam<V, C>,
    root: H::Output,
    state: BrakingBaseVerification<F>,
    out: BrakingBaseColumnsVerifier<F>,
    log0: Seq<Event<H::Output>>,
    log1: Seq<Event<H::Output>>,
)
    requires
        columns_accepted::<F, H, V, C>(vp, root, state, out, log0, log1),
    ensures
        went(log0, log1, (vp.num_queries as nat) * (vp.num_rows as nat), checks_digests(vp)),
{
    let (n, rows) = (vp.num_queries as nat, vp.num_rows as nat);
    let depth = log2(vp.codeword_len as int);
    let (ch, w) = (vals(out.query_challenges@), vals(out.query_weights@));
    let eta = seq![out.eta.val()];
    let logd = log0 + drawn::<H::Output>(ch);
    let (d, log) = choose|d: ColumnsRead<H::Output>, log: Seq<Event<H::Output>>|
        {
            &&& #[trigger] columns_read(d, n, rows, depth, logd, log)
            &&& columns_lead_to::<F, H>(d, root, ints(out.query_indices@))
            &&& out.claim.val() == columns_claim::<F>(
                vals(state.proximity_weights@),
                vals(state.row_weights@),
                d.cols,
                w,
                out.eta.val(),
            )
            &&& log1 == log + drawn(w) + drawn(eta)
        };
    went_plain::<H::Output>(log0, ch, Seq::empty());
    columns_went(d, n, rows, depth, logd, log);
    went_plain::<H::Output>(log, w, Seq::empty());
    went_plain::<H::Output>(log + drawn::<H::Output>(w), eta, Seq::empty());
    went_on(log0, logd, log, 0, 0, n * rows, n * depth);
}

/// Where the claims of an opening refer to: the halves of the codewords come
/// first, then the reads, then the fixed vectors.
pub open spec fn opening_offsets() -> SparkOffsets {
    SparkOffsets { dynamic_offset: 4, static_offset: 6 }
}

/// What the verifier of both codewords says of the messages from `log0` to
/// `log1`.
pub open spec fn checks_verdict<F: PrimeField, H: HashFunction, V, C>(
    vp: BrakingBaseVerifierParam<V, C>,
    root: H::Output,
    state: BrakingBaseVerification<F>,
    log0: Seq<Event<H::Output>>,
    log1: Seq<Event<H::Output>>,
    r: Result<BrakingBaseCheckedVerifier<F>, Error>,
) -> bool {
    &&& r matches Ok(out) ==> exists|
        columns_read: Seq<Event<H::Output>>,
        columns_end: Seq<Event<H::Output>>,
    | #[trigger]
        checks_accepted::<F, H, V, C>(
            vp,
            root,
            state,
            out,
            log0,
            columns_read,
            columns_end,
            log1,
        )
    &&& r matches Err(e) ==> {
        ||| cut_within(e, log0, log1, checks_fields(vp), checks_digests(vp))
        ||| checks_failed::<F, H, V, C>(vp, root, state, e, log0, log1)
    }
}

/// What the verifier of the parity-check matrix says of the messages from `log0`
/// to `log1`.
pub open spec fn matrix_verdict<F: PrimeField, O, V, C>(
    vp: BrakingBaseVerifierParam<V, C>,
    state: BrakingBaseVerification<F>,
    checked: BrakingBaseCheckedVerifier<F>,
    eval: int,
    log0: Seq<Event<O>>,
    log1: Seq<Event<O>>,
    r: Result<(Vec<Vec<F>>, Vec<Evaluation<F>>), Error>,
) -> bool {
    let ops_vars = log2(vp.num_ops as int);
    let mem_vars = log2(vp.num_mem_cells as int);
    let aux_vars = log2(vp.aux_len as int);
    let x = extended(vals(checked.end.gamma_point@), mem_vars);
    let y = extended(vals(checked.parity.parity_point@), mem_vars);
    let h = checked.end.h_eval.val();
    &&& r matches Ok(batch) ==> exists|d: SparkRead<O>, spark: Seq<Claim>|
        {
            &&& #[trigger] spark_run_accepted::<F, O>(
                ops_vars,
                mem_vars,
                aux_vars,
                x,
                y,
                h,
                opening_offsets(),
                d,
                spark,
                log0,
                log1,
            )
            &&& claim_set(batch.0@, batch.1@) == no_claims().append_claims(
                opening_claims(
                    claims_of(checked.parity.claims@),
                    claims_of(checked.end.claims@),
                    spark,
                    vals(state.column_point@),
                    eval,
                    aux_vars,
                ),
            )
        }
    &&& r matches Err(e) ==> {
        ||| cut_within(e, log0, log1, spark_fields(ops_vars, mem_vars), 0)
        ||| exists|d: SparkRead<O>| #[trigger]
            spark_run_refused::<F, O>(ops_vars, mem_vars, x, y, h, d, e, log0, log1)
    }
}

impl<F: PrimeField, H: HashFunction> MultilinearBrakingBase<F, H> {
    /// Runs the check of sampled columns and the parity check, and lays out the
    /// reads of the parity-check matrix, which the prover commits to next.
    pub fn open_checks<P, C, T: TranscriptWrite<F, H::Output>>(
        pp: &BrakingBaseProverParam<F, P, C>,
        comm: &BrakingBaseCommitment<F, H>,
        state: &BrakingBaseOpening<F>,
        transcript: &mut T,
    ) -> (r: Result<BrakingBaseChecked<F>, Error>)
        requires
            pp.wf(),
            exists|poly: Seq<int>, point: Seq<int>|
                poly.len() == exp2(pp.num_vars as nat) && #[trigger] state.wf(*pp, poly, point),
            comm.has_data(pp.num_rows as nat, pp.codeword_len as nat),
            comm.consistent(pp.codeword_len as nat),
        ensures
            T::infallible() ==> r is Ok,
            r matches Err(e) ==> e is Transcript,
            r matches Ok(out) ==> checks_written::<F, H, P, C>(
                *pp,
                *comm,
                *state,
                out,
                old(transcript).log(),
                final(transcript).log(),
            ),
    {
        proof {
            shape_logs(*pp);
        }
        let columns = match open_columns(pp, comm, state, transcript) {
            Ok(columns) => columns,
            Err(e) => {
                return Err(e);
            },
        };
        let parity = match open_parity_start(pp, state, &columns, transcript) {
            Ok(parity) => parity,
            Err(e) => {
                return Err(e);
            },
        };
        let end = match open_parity_finish(pp, state, &parity, transcript) {
            Ok(end) => end,
            Err(e) => {
                return Err(e);
            },
        };
        let spark = spark_prove_start(&pp.spark, &end.gamma_point, &parity.parity_point);
        Ok(BrakingBaseChecked { columns, parity, end, spark })
    }

    /// Proves the value of the parity-check matrix once the reads are committed,
    /// holds the claimed value to the folded message and collects all claims,
    /// which are left to be opened.
    pub fn open<P, C, T: TranscriptWrite<F, H::Output>>(
        pp: &BrakingBaseProverParam<F, P, C>,
        state: &BrakingBaseOpening<F>,
        checked: &BrakingBaseChecked<F>,
        eval: F,
        transcript: &mut T,
    ) -> (r: Result<(Vec<Vec<F>>, Vec<Evaluation<F>>), Error>)
        requires
            pp.wf(),
            state.sized(*pp),
            checked.spark.wf(pp.spark),
            checked.end.h_eval.val() == matrix_eval::<F>(
                entries_of(pp.spark.entries@),
                checked.spark.x(),
                checked.spark.y(),
            ),
        ensures
            T::infallible() ==> (r is Ok <==> eval.val() == mle::<F>(
                mat(state.aux_polys@)[2],
                extended(vals(state.column_point@), log2(pp.spark.aux_len as int)),
            )),
            T::infallible() && eval.val() != mle::<F>(
                mat(state.aux_polys@)[2],
                extended(vals(state.column_point@), log2(pp.spark.aux_len as int)),
            ) ==> r is Err && r->Err_0.is_open("BrakingBase public evaluation mismatch"),
            r matches Err(e) ==> e is Transcript || (e.is_open(
                "BrakingBase public evaluation mismatch",
            ) && eval.val() != mle::<F>(
                mat(state.aux_polys@)[2],
                extended(vals(state.column_point@), log2(pp.spark.aux_len as int)),
            )),
            r matches Ok(batch) ==> eval.val() == mle::<F>(
                mat(state.aux_polys@)[2],
                extended(vals(state.column_point@), log2(pp.spark.aux_len as int)),
            ),
            r matches Ok(batch) ==> exists|run: SparkRun, spark: Seq<Claim>|
                {
                    &&& #[trigger] spark_written::<F, H::Output>(
                        pp.spark,
                        checked.spark.x(),
                        checked.spark.y(),
                        opening_offsets(),
                        run,
                        spark,
                        old(transcript).log(),
                        final(transcript).log(),
                    )
                    &&& claim_set(batch.0@, batch.1@) == no_claims().append_claims(
                        opening_claims(
                            claims_of(checked.parity.claims@),
                            claims_of(checked.end.claims@),
                            spark,
                            vals(state.column_point@),
                            eval.val(),
                            log2(pp.spark.aux_len as int),
                        ),
                    )
                },
    {
        let at = SparkOffsets { dynamic_offset: 4, static_offset: 6 };
        let spark = match spark_prove(
            &pp.spark,
            &checked.spark,
            checked.end.h_eval,
            at,
            transcript,
        ) {
            Ok(claims) => claims,
            Err(e) => {
                return Err(e);
            },
        };
        let ghost run = choose|run: SparkRun| #[trigger]
            spark_written::<F, H::Output>(
                pp.spark,
                checked.spark.x(),
                checked.spark.y(),
                opening_offsets(),
                run,
                claims_of(spark@),
                old(transcript).log(),
                transcript.log(),
            );
        let r = open_finish(
            pp,
            state,
            &checked.parity.claims,
            &checked.end.claims,
            &spark,
            eval,
        );
        assert(spark_written::<F, H::Output>(
            pp.spark,
            checked.spark.x(),
            checked.spark.y(),
            opening_offsets(),
            run,
            claims_of(spark@),
            old(transcript).log(),
            transcript.log(),
        ));
        r
    }

    /// Reads and authenticates sampled columns, and verifies their check and the
    /// parity check.
    pub fn verify_checks<V, C, T: TranscriptRead<F, H::Output>>(
        vp: &BrakingBaseVerifierParam<V, C>,
        root: &H::Output,
        state: &BrakingBaseVerification<F>,
        transcript: &mut T,
    ) -> (r: Result<BrakingBaseCheckedVerifier<F>, Error>)
        requires
            vp.wf(),
            state.row_weights@.len() == vp.num_rows,
            state.proximity_weights@.len() == vp.num_rows,
        ensures
            final(transcript).held() == old(transcript).held(),
            checks_verdict::<F, H, V, C>(
                *vp,
                *root,
                *state,
                old(transcript).log(),
                final(transcript).log(),
                r,
            ),
    {
        let ghost log0 = transcript.log();
        let ghost code_vars = log2(vp.codeword_len as int);
        let ghost n1 = (vp.num_queries as nat) * (vp.num_rows as nat);
        let ghost m = checks_digests(*vp);
        let ghost n2 = column_check_fields(code_vars);
        let ghost n3 = parity_check_fields(code_vars);
        let ghost n = checks_fields(*vp);
        let columns = match verify_columns::<F, H, V, C, T>(vp, root, state, transcript) {
            Ok(columns) => columns,
            Err(e) => {
                proof {
                    if cut_within(e, log0, transcript.log(), n1, m) {
                        assert(went(log0, log0, 0, 0));
                        cut_later(e, log0, log0, transcript.log(), 0, 0, n1, m, n, m);
                    }
                }
                return Err(e);
            },
        };
        let ghost columns_read = transcript.log();
        proof {
            accepted_columns_went::<F, H, V, C>(*vp, *root, *state, columns, log0, columns_read);
        }
        let parity = match verify_parity_start(vp, &columns, transcript) {
            Ok(parity) => parity,
            Err(e) => {
                proof {
                    if cut_within(e, columns_read, transcript.log(), n2, 0) {
                        cut_later(e, log0, columns_read, transcript.log(), n1, m, n2, 0, n, m);
                    } else {
                        assert(columns_accepted::<F, H, V, C>(
                            *vp,
                            *root,
                            *state,
                            columns,
                            log0,
                            columns_read,
                        ));
                        assert(column_check_failed::<F, H::Output, V, C>(
                            *vp,
                            columns,
                            e,
                            columns_read,
                            transcript.log(),
                        ));
                    }
                }
                return Err(e);
            },
        };
        let ghost columns_end = transcript.log();
        proof {
            column_check_went::<F, H::Output>(
                columns,
                log2(vp.aux_len as int),
                parity,
                columns_read,
                columns_end,
            );
            went_on(log0, columns_read, columns_end, n1, m, n2, 0);
        }
        let end = match verify_parity_finish(vp, &parity, transcript) {
            Ok(end) => end,
            Err(e) => {
                proof {
                    if cut_within(e, columns_end, transcript.log(), n3, 0) {
                        let so_far = n1 + n2;
                        cut_later(e, log0, columns_end, transcript.log(), so_far, m, n3, 0, n, m);
                    } else {
                        assert(parity_check_failed::<F, H::Output, V, C>(
                            *vp,
                            parity.eta.val(),
                            e,
                            columns_end,
                            transcript.log(),
                        ));
                    }
                }
                return Err(e);
            },
        };
        let out = BrakingBaseCheckedVerifier { columns, parity, end };
        proof {
            assert(checks_accepted::<F, H, V, C>(
                *vp,
                *root,
                *state,
                out,
                old(transcript).log(),
                columns_read,
                columns_end,
                transcript.log(),
            ));
        }
        let ghost out_g = out;
        let r: Result<BrakingBaseCheckedVerifier<F>, Error> = Ok(out);
        assert(r->Ok_0 == out_g);
        r
    }

    /// Verifies the value of the parity-check matrix once the commitments to the
    /// reads are read, and collects all claims, which are left to be verified.
    pub fn verify<V, C, T: TranscriptRead<F, H::Output>>(
        vp: &BrakingBaseVerifierParam<V, C>,
        state: &BrakingBaseVerification<F>,
        checked: &BrakingBaseCheckedVerifier<F>,
        eval: F,
        transcript: &mut T,
    ) -> (r: Result<(Vec<Vec<F>>, Vec<Evaluation<F>>), Error>)
        requires
            vp.wf(),
            state.column_point@.len() == log2(vp.row_len as int),
            checked.end.gamma_point@.len() == log2(vp.codeword_len as int),
            checked.parity.parity_point@.len() == log2(vp.row_len as int),
        ensures
            final(transcript).held() == old(transcript).held(),
            matrix_verdict::<F, H::Output, V, C>(
                *vp,
                *state,
                *checked,
                eval.val(),
                old(transcript).log(),
                final(transcript).log(),
                r,
            ),
    {
        let at = SparkOffsets { dynamic_offset: 4, static_offset: 6 };
        proof {
            verifier_logs(*vp);
            crate::mle::exp2_is_pow2(log2(vp.codeword_len as int));
        }
        let spark = match spark_verify(
            vp.num_ops,
            vp.num_mem_cells,
            vp.aux_len,
            &checked.end.gamma_point,
            &checked.parity.parity_point,
            checked.end.h_eval,
            at,
            transcript,
        ) {
            Ok(claims) => claims,
            Err(e) => {
                return Err(e);
            },
        };
        let aux_vars: usize = log2_power_of_two(vp.aux_len);
        let batch = collect_opening_claims(
            &checked.parity.claims,
            &checked.end.claims,
            &spark,
            &state.column_point,
            eval,
            aux_vars,
        );
        proof {
            let d = choose|d: SparkRead<H::Output>| #[trigger]
                spark_run_accepted::<F, H::Output>(
                    log2(vp.num_ops as int),
                    log2(vp.num_mem_cells as int),
                    log2(vp.aux_len as int),
                    extended(vals(checked.end.gamma_point@), log2(vp.num_mem_cells as int)),
                    extended(vals(checked.parity.parity_point@), log2(vp.num_mem_cells as int)),
                    checked.end.h_eval.val(),
                    opening_offsets(),
                    d,
                    claims_of(spark@),
                    old(transcript).log(),
                    transcript.log(),
                );
            assert(spark_run_accepted::<F, H::Output>(
                log2(vp.num_ops as int),
                log2(vp.num_mem_cells as int),
                log2(vp.aux_len as int),
                extended(vals(checked.end.gamma_point@), log2(vp.num_mem_cells as int)),
                extended(vals(checked.parity.parity_point@), log2(vp.num_mem_cells as int)),
                checked.end.h_eval.val(),
                opening_offsets(),
                d,
                claims_of(spark@),
                old(transcript).log(),
                transcript.log(),
            ));
        }
        let ghost batch_g = batch;
        let r: Result<(Vec<Vec<F>>, Vec<Evaluation<F>>), Error> = Ok(batch);
        assert(r->Ok_0 == batch_g);
        r
    }
}

/// What the verifier has after checks that the prover wrote.
pub open spec fn checked_as_read<F: PrimeField>(
    out: BrakingBaseChecked<F>,
) -> BrakingBaseCheckedVerifier<F> {
    BrakingBaseCheckedVerifier {
        columns: BrakingBaseColumnsVerifier {
            query_challenges: out.columns.query_challenges,
            query_indices: out.columns.query_indices,
            query_weights: out.columns.query_weights,
            eta: out.columns.eta,
            claim: out.columns.instance.claim,
        },
        parity: BrakingBaseParityVerifier {
            beta: out.parity.beta,
            claims: out.parity.claims,
            parity_point: out.parity.parity_point,
            eta: out.parity.eta,
        },
        end: out.end,
    }
}

/// The checks that an honest prover writes for a committed polynomial are
/// accepted, and leave the verifier with the same claims.
pub proof fn honest_checks_are_accepted<F: PrimeField, H: HashFunction, P, V, C>(
    pp: BrakingBaseProverParam<F, P, C>,
    vp: BrakingBaseVerifierParam<V, C>,
    poly: Seq<int>,
    point: Seq<int>,
    comm: BrakingBaseCommitment<F, H>,
    state: BrakingBaseOpening<F>,
    vstate: BrakingBaseVerification<F>,
    out: BrakingBaseChecked<F>,
    log0: Seq<Event<H::Output>>,
    log1: Seq<Event<H::Output>>,
)
    requires
        pp.wf(),
        vp.wf(),
        params_agree(pp, vp),
        poly.len() == exp2(pp.num_vars as nat),
        state.wf(pp, poly, point),
        comm.commits_to(pp, poly),
        vals(vstate.proximity_weights@) == vals(state.proximity_weights@),
        vals(vstate.row_weights@) == vals(state.row_weights@),
        checks_written::<F, H, P, C>(pp, comm, state, out, log0, log1),
    ensures
        exists|columns_read: Seq<Event<H::Output>>, columns_end: Seq<Event<H::Output>>| #[trigger]
            checks_accepted::<F, H, V, C>(
                vp,
                comm.root,
                vstate,
                checked_as_read(out),
                log0,
                columns_read,
                columns_end,
                log1,
            ),
{
    shape_logs(pp);
    let read = checked_as_read(out);
    let aux_vars = log2(pp.spark.aux_len as int);
    let q = ints(out.columns.query_indices@);
    let weights = vals(out.columns.query_weights@);
    let eta = out.columns.eta.val();
    let rows = mat(comm.rows@);
    let beta = vals(out.parity.beta@);
    let gamma = vals(out.end.gamma_point@);
    let y = vals(out.parity.parity_point@);
    let aux = mat(state.aux_polys@);
    let p_word = vals(state.p_codeword@);
    let q_word = vals(state.q_codeword@);
    let mask = mask_of::<F>(q, weights, pp.codeword_len as nat);
    assert(q.len() == out.columns.query_indices@.len());
    assert(q.len() == pp.num_queries) by {
        assert(q.len() == vals(out.columns.query_challenges@).len());
    }
    assert forall|i: int| 0 <= i < q.len() implies 0 <= #[trigger] q[i] < pp.codeword_len by {
        assert(q[i] == out.columns.query_indices@[i]);
    }
    let columns_read = log0 + drawn(vals(out.columns.query_challenges@)) + opening_events(
        columns_at(rows, q),
        paths_at::<H>(comm.leaves(pp.codeword_len as nat), q),
    ) + drawn(weights) + drawn(seq![eta]);
    honest_columns_are_accepted::<F, H, P, V, C>(pp, vp, comm, vstate, read.columns, log0);
    vals_canon(out.columns.query_weights@);
    honest_column_check_is_accepted::<F, H, P, C, H::Output>(
        pp,
        poly,
        point,
        comm,
        state,
        q,
        weights,
        eta,
        beta,
        columns_read,
    );
    let evals = seq![mle::<F>(mask, beta), mle::<F>(p_word, beta), mle::<F>(q_word, beta)];
    let a = columns_read + run_events::<F, H::Output>(
        two_factor_terms(eta),
        seq![mask, p_word, q_word],
        2,
        beta,
    ) + sent_fields(seq![evals[1], evals[2]]);
    state_decomposes(pp, state, beta);
    let halves = halves_at::<F>(aux, beta, aux_vars);
    let b = a + sent_fields(halves);
    assert(four_read(a, b, halves));
    let columns_end = b + drawn(y) + drawn(seq![out.parity.eta.val()]);
    assert(vals(read.parity.beta@) == beta);
    assert(columns_end == b + drawn(vals(read.parity.parity_point@)) + drawn(
        seq![read.parity.eta.val()],
    ));
    assert(columns_check_ok::<F, H::Output>(
        read.columns,
        vals(read.parity.beta@),
        evals,
        columns_read,
        a,
    ));
    assert(decomposition_passed::<F, H::Output>(
        vals(read.parity.beta@),
        evals[1],
        evals[2],
        aux_vars,
        claims_of(read.parity.claims@),
        a,
        b,
    ));
    assert(columns_ended::<F, H::Output>(
        read.columns,
        aux_vars,
        read.parity,
        columns_read,
        columns_end,
    ));
    let e = parity_entries(pp.brakedown);
    parity_cells_within(pp);
    extension_keeps_matrix_eval::<F>(e, gamma, y, pp.spark.mem_vars());
    assert(out.end.h_eval.val() == matrix_eval::<F>(e, gamma, y));
    honest_parity_check_is_accepted::<F, P, C, H::Output>(
        pp,
        poly,
        point,
        state,
        y,
        out.parity.eta.val(),
        gamma,
        columns_end,
    );
    assert(checks_accepted::<F, H, V, C>(
        vp,
        comm.root,
        vstate,
        read,
        log0,
        columns_read,
        columns_end,
        log1,
    ));
}

/// What an honest prover writes about the parity-check matrix is accepted, and
/// leaves the verifier with the same claims.
pub proof fn honest_matrix_value_is_accepted<F: PrimeField, H: HashFunction, P, V, C>(
    pp: BrakingBaseProverParam<F, P, C>,
    vp: BrakingBaseVerifierParam<V, C>,
    checked: BrakingBaseChecked<F>,
    run: SparkRun,
    claims: Seq<Claim>,
    log0: Seq<Event<H::Output>>,
    log1: Seq<Event<H::Output>>,
)
    requires
        pp.wf(),
        params_agree(pp, vp),
        checked.spark.wf(pp.spark),
        checked.spark.x() == extended(vals(checked.end.gamma_point@), pp.spark.mem_vars()),
        checked.spark.y() == extended(vals(checked.parity.parity_point@), pp.spark.mem_vars()),
        checked.end.h_eval.val() == matrix_eval::<F>(
            entries_of(pp.spark.entries@),
            checked.spark.x(),
            checked.spark.y(),
        ),
        spark_written::<F, H::Output>(
            pp.spark,
            checked.spark.x(),
            checked.spark.y(),
            opening_offsets(),
            run,
            claims,
            log0,
            log1,
        ),
    ensures
        exists|d: SparkRead<H::Output>| #[trigger]
            spark_run_accepted::<F, H::Output>(
                log2(vp.num_ops as int),
                log2(vp.num_mem_cells as int),
                log2(vp.aux_len as int),
                extended(vals(checked.end.gamma_point@), log2(vp.num_mem_cells as int)),
                extended(vals(checked.parity.parity_point@), log2(vp.num_mem_cells as int)),
                checked.end.h_eval.val(),
                opening_offsets(),
                d,
                claims,
                log0,
                log1,
            ),
{
    honest_spark_is_accepted::<F, H::Output>(
        pp.spark,
        checked.spark.x(),
        checked.spark.y(),
        opening_offsets(),
        run,
        claims,
        log0,
        log1,
    );
}

} // verus!
