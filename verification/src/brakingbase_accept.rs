//! What an honest prover wrote to open a point is accepted when it is read, up to
//! the claims that are left to be verified.

use crate::brakingbase::{
    params_agree, BrakingBaseCommitment, BrakingBaseProverParam, BrakingBaseVerifierParam,
};
use crate::brakingbase_checks::{
    decomposition_refused, mask_check_refused, mask_check_went, mask_of, two_factor_refused,
    two_factor_value,
};
use crate::brakingbase_open::{opening_claims, BrakingBaseOpening};
use crate::brakingbase_replay::{
    column_check_does_not_fail, parity_check_does_not_fail, same_proof_same_column_check,
    same_proof_same_parity_check, same_proof_same_samples, samples_are_not_refused,
};
use crate::brakingbase_run::{
    accepted_columns_went, checked_as_read, checks_accepted, checks_digests, checks_failed,
    checks_verdict, checks_written, column_check_failed, honest_checks_are_accepted,
    honest_matrix_value_is_accepted, matrix_verdict, opening_offsets, parity_check_failed,
    BrakingBaseChecked, BrakingBaseCheckedVerifier,
};
use crate::brakingbase_verify::{
    column_check_fields, column_check_went, columns_accepted, columns_check_ok, columns_ended,
    parity_check_fields, parity_check_went, parity_read, parity_read_went, parity_refused,
    BrakingBaseColumnsVerifier, BrakingBaseParityVerifier, BrakingBaseVerification,
};
use crate::claims::{claim_set, no_claims, Claim};
use crate::classic_sumcheck::{sumcheck_refused, sumcheck_verified, sumcheck_went};
use crate::error::Error;
use crate::field::PrimeField;
use crate::hash::HashFunction;
use crate::linear::{ints, vals};
use crate::mle::{exp2, log2, mle};
use crate::parity::entries_of;
use crate::qapcs::Evaluation;
use crate::quasar_replay::{prefix_of_prefix, refused_extends};
use crate::spark::{
    claims_of, matrix_eval, spark_run_accepted, spark_run_refused, spark_written, SparkRead,
    SparkRun,
};
use crate::spark_memory::extended;
use crate::spark_replay::{matrix_is_not_refused, same_proof_same_matrix, spark_run_went};
use crate::transcript::{digests_in, fields_in, follows, went_on, Event};
use vstd::prelude::*;

verus! {

/// The verifier's states after both codewords hold the same values.
pub open spec fn same_checked<F: PrimeField>(
    a: BrakingBaseCheckedVerifier<F>,
    b: BrakingBaseCheckedVerifier<F>,
) -> bool {
    &&& vals(a.parity.beta@) == vals(b.parity.beta@)
    &&& claims_of(a.parity.claims@) == claims_of(b.parity.claims@)
    &&& vals(a.parity.parity_point@) == vals(b.parity.parity_point@)
    &&& vals(a.end.gamma_point@) == vals(b.end.gamma_point@)
    &&& a.end.h_eval.val() == b.end.h_eval.val()
    &&& claims_of(a.end.claims@) == claims_of(b.end.claims@)
}

/// One verifier accepted both codewords. Another one that goes through the same
/// proof behind the same steps, and does not run out of messages, accepts them
/// with the same values.
#[verifier::rlimit(40)]
#[verifier::spinoff_prover]
pub proof fn accepted_checks_are_accepted_again<F: PrimeField, H: HashFunction, V, C>(
    vp: BrakingBaseVerifierParam<V, C>,
    root: H::Output,
    state: BrakingBaseVerification<F>,
    out: BrakingBaseCheckedVerifier<F>,
    log0: Seq<Event<H::Output>>,
    columns_read: Seq<Event<H::Output>>,
    columns_end: Seq<Event<H::Output>>,
    written: Seq<Event<H::Output>>,
    read: Seq<Event<H::Output>>,
    fields: Seq<int>,
    digests: Seq<H::Output>,
    r: Result<BrakingBaseCheckedVerifier<F>, Error>,
)
    requires
        checks_accepted::<F, H, V, C>(
            vp,
            root,
            state,
            out,
            log0,
            columns_read,
            columns_end,
            written,
        ),
        checks_verdict::<F, H, V, C>(vp, root, state, log0, read, r),
        follows::<F, H>(written, fields, digests),
        follows::<F, H>(read, fields, digests),
        read.len() > 0 && read.last() is NoField ==> fields_in(read).len() == fields.len(),
        read.len() > 0 && read.last() is NoDigest ==> digests_in(read).len() == digests.len(),
    ensures
        r is Ok,
        same_checked(out, r->Ok_0),
        read == written,
{
    let code_vars = log2(vp.codeword_len as int);
    let aux_vars = log2(vp.aux_len as int);
    let n1 = (vp.num_queries as nat) * (vp.num_rows as nat);
    let m = checks_digests(vp);
    let (n2, n3) = (column_check_fields(code_vars), parity_check_fields(code_vars));
    let eta = out.parity.eta.val();
    let gamma = vals(out.end.gamma_point@);
    let h = out.end.h_eval.val();
    let claims = claims_of(out.end.claims@);
    accepted_columns_went::<F, H, V, C>(vp, root, state, out.columns, log0, columns_read);
    column_check_went::<F, H::Output>(
        out.columns,
        aux_vars,
        out.parity,
        columns_read,
        columns_end,
    );
    parity_check_went::<F, H::Output>(eta, gamma, aux_vars, h, claims, columns_end, written);
    assert(gamma.len() == code_vars);
    went_on(log0, columns_read, columns_end, n1, m, n2, 0);
    went_on(log0, columns_end, written, n1 + n2, m, n3, 0);
    prefix_of_prefix(columns_read, columns_end, written);
    if r is Err {
        checks_do_not_fail::<F, H, V, C>(
            vp,
            root,
            state,
            out,
            r->Err_0,
            log0,
            columns_read,
            columns_end,
            written,
            read,
            fields,
            digests,
        );
    } else {
        let res = r->Ok_0;
        let (cr2, ce2) = choose|cr2: Seq<Event<H::Output>>, ce2: Seq<Event<H::Output>>| #[trigger]
            checks_accepted::<F, H, V, C>(vp, root, state, res, log0, cr2, ce2, read);
        let gamma2 = vals(res.end.gamma_point@);
        let h2 = res.end.h_eval.val();
        let claims2 = claims_of(res.end.claims@);
        column_check_went::<F, H::Output>(res.columns, aux_vars, res.parity, cr2, ce2);
        parity_check_went::<F, H::Output>(
            res.parity.eta.val(),
            gamma2,
            aux_vars,
            h2,
            claims2,
            ce2,
            read,
        );
        prefix_of_prefix(cr2, ce2, read);
        same_proof_same_samples::<F, H, V, C>(
            vp,
            root,
            state,
            out.columns,
            columns_read,
            res.columns,
            cr2,
            log0,
            written,
            read,
            fields,
            digests,
        );
        same_proof_same_column_check::<F, H>(
            out.columns,
            out.parity,
            columns_end,
            res.columns,
            res.parity,
            ce2,
            aux_vars,
            columns_read,
            written,
            read,
            fields,
            digests,
        );
        assert(gamma2.len() == code_vars);
        same_proof_same_parity_check::<F, H>(
            eta,
            aux_vars,
            gamma,
            h,
            claims,
            written,
            gamma2,
            h2,
            claims2,
            read,
            columns_end,
            written,
            read,
            fields,
            digests,
        );
    }
}

/// Where one verifier accepted both codewords, another one that goes through the
/// same proof behind the same steps does not fail.
#[verifier::rlimit(60)]
#[verifier::spinoff_prover]
proof fn checks_do_not_fail<F: PrimeField, H: HashFunction, V, C>(
    vp: BrakingBaseVerifierParam<V, C>,
    root: H::Output,
    state: BrakingBaseVerification<F>,
    out: BrakingBaseCheckedVerifier<F>,
    e: Error,
    log0: Seq<Event<H::Output>>,
    columns_read: Seq<Event<H::Output>>,
    columns_end: Seq<Event<H::Output>>,
    a: Seq<Event<H::Output>>,
    b: Seq<Event<H::Output>>,
    fields: Seq<int>,
    digests: Seq<H::Output>,
)
    requires
        checks_accepted::<F, H, V, C>(
            vp,
            root,
            state,
            out,
            log0,
            columns_read,
            columns_end,
            a,
        ),
        columns_read.is_prefix_of(a),
        columns_end.is_prefix_of(a),
        follows::<F, H>(a, fields, digests),
        follows::<F, H>(b, fields, digests),
    ensures
        !checks_failed::<F, H, V, C>(vp, root, state, e, log0, b),
{
    let aux_vars = log2(vp.aux_len as int);
    samples_are_not_refused::<F, H, V, C>(
        vp,
        root,
        state,
        out.columns,
        columns_read,
        log0,
        a,
        b,
        fields,
        digests,
    );
    if exists|cols: BrakingBaseColumnsVerifier<F>, cr2: Seq<Event<H::Output>>|
        (#[trigger] columns_accepted::<F, H, V, C>(vp, root, state, cols, log0, cr2)) && cols.wf(vp)
            && column_check_failed::<F, H::Output, V, C>(vp, cols, e, cr2, b) {
        let (cols, cr2) = choose|cols: BrakingBaseColumnsVerifier<F>, cr2: Seq<Event<H::Output>>|
            (#[trigger] columns_accepted::<F, H, V, C>(vp, root, state, cols, log0, cr2))
                && cols.wf(vp) && column_check_failed::<F, H::Output, V, C>(vp, cols, e, cr2, b);
        failed_column_check_extends::<F, H::Output, V, C>(vp, cols, e, cr2, b);
        same_proof_same_samples::<F, H, V, C>(
            vp,
            root,
            state,
            out.columns,
            columns_read,
            cols,
            cr2,
            log0,
            a,
            b,
            fields,
            digests,
        );
        column_check_does_not_fail::<F, H, V, C>(
            vp,
            out.columns,
            out.parity,
            columns_end,
            cols,
            e,
            columns_read,
            a,
            b,
            fields,
            digests,
        );
    } else if checks_failed::<F, H, V, C>(vp, root, state, e, log0, b) {
        let (cols, parity, cr2, ce2) = choose|
            cols: BrakingBaseColumnsVerifier<F>,
            parity: BrakingBaseParityVerifier<F>,
            cr2: Seq<Event<H::Output>>,
            ce2: Seq<Event<H::Output>>,
        |
            {
                &&& #[trigger] columns_accepted::<F, H, V, C>(vp, root, state, cols, log0, cr2)
                &&& #[trigger] columns_ended::<F, H::Output>(cols, aux_vars, parity, cr2, ce2)
                &&& cols.wf(vp)
                &&& parity.beta@.len() == log2(vp.codeword_len as int)
                &&& parity.parity_point@.len() == log2(vp.row_len as int)
                &&& parity_check_failed::<F, H::Output, V, C>(
                    vp,
                    parity.eta.val(),
                    e,
                    ce2,
                    b,
                )
            };
        failed_parity_check_extends::<F, H::Output, V, C>(vp, parity.eta.val(), e, ce2, b);
        column_check_went::<F, H::Output>(cols, aux_vars, parity, cr2, ce2);
        prefix_of_prefix(cr2, ce2, b);
        same_proof_same_samples::<F, H, V, C>(
            vp,
            root,
            state,
            out.columns,
            columns_read,
            cols,
            cr2,
            log0,
            a,
            b,
            fields,
            digests,
        );
        same_proof_same_column_check::<F, H>(
            out.columns,
            out.parity,
            columns_end,
            cols,
            parity,
            ce2,
            aux_vars,
            columns_read,
            a,
            b,
            fields,
            digests,
        );
        parity_check_does_not_fail::<F, H, V, C>(
            vp,
            out.parity.eta.val(),
            vals(out.end.gamma_point@),
            out.end.h_eval.val(),
            claims_of(out.end.claims@),
            a,
            e,
            columns_end,
            a,
            b,
            fields,
            digests,
        );
    }
}

/// A check of columns that fails extends the steps before it.
proof fn failed_column_check_extends<F: PrimeField, O, V, C>(
    vp: BrakingBaseVerifierParam<V, C>,
    cols: BrakingBaseColumnsVerifier<F>,
    e: Error,
    log0: Seq<Event<O>>,
    log1: Seq<Event<O>>,
)
    requires
        column_check_failed::<F, O, V, C>(vp, cols, e, log0, log1),
    ensures
        log0.is_prefix_of(log1),
{
    let n = log2(vp.codeword_len as int);
    let q = ints(cols.query_indices@);
    let w = vals(cols.query_weights@);
    let (eta, sum) = (cols.eta.val(), cols.claim.val());
    if sumcheck_refused::<F, O>(n, 2, sum, log0, log1) {
        refused_extends::<F, O>(n, 2, sum, log0, log1);
    } else if mask_check_refused::<F, O>(n, q, w, eta, sum, log0, log1) {
        let (t, z, m) = choose|t: int, z: Seq<int>, m: Seq<Event<O>>|
            {
                &&& #[trigger] sumcheck_verified::<F, O>(n, 2, sum, t, z, log0, m)
                &&& two_factor_refused::<F, O>(
                    t,
                    mle::<F>(mask_of::<F>(q, w, exp2(n)), z),
                    eta,
                    m,
                    log1,
                )
            };
        sumcheck_went::<F, O>(n, 2, sum, t, z, log0, m);
        prefix_of_prefix(log0, m, log1);
    } else {
        let (z, v, m) = choose|z: Seq<int>, v: Seq<int>, m: Seq<Event<O>>|
            {
                &&& z.len() == n
                &&& #[trigger] columns_check_ok::<F, O>(cols, z, v, log0, m)
                &&& decomposition_refused::<F, O>(z, v[1], v[2], m, log1)
            };
        mask_check_went::<F, O>(q, w, eta, sum, z, v, log0, m);
        prefix_of_prefix(log0, m, log1);
    }
}

/// A parity check that fails extends the steps before it.
proof fn failed_parity_check_extends<F: PrimeField, O, V, C>(
    vp: BrakingBaseVerifierParam<V, C>,
    eta: int,
    e: Error,
    log0: Seq<Event<O>>,
    log1: Seq<Event<O>>,
)
    requires
        parity_check_failed::<F, O, V, C>(vp, eta, e, log0, log1),
    ensures
        log0.is_prefix_of(log1),
{
    let n = log2(vp.codeword_len as int);
    if sumcheck_refused::<F, O>(n, 2, 0, log0, log1) {
        refused_extends::<F, O>(n, 2, 0, log0, log1);
    } else if parity_refused::<F, O>(eta, n, log0, log1) {
        let (z, t, v) = choose|z: Seq<int>, t: int, v: Seq<int>|
            {
                &&& z.len() == n
                &&& #[trigger] parity_read::<F, O>(z, t, v, log0, log1)
                &&& t != two_factor_value::<F>(v[2], v[0], v[1], eta)
            };
        parity_read_went::<F, O>(z, t, v, log0, log1);
    } else {
        let (z, t, v, m) = choose|z: Seq<int>, t: int, v: Seq<int>, m: Seq<Event<O>>|
            {
                &&& z.len() == n
                &&& #[trigger] parity_read::<F, O>(z, t, v, log0, m)
                &&& t == two_factor_value::<F>(v[2], v[0], v[1], eta)
                &&& decomposition_refused::<F, O>(z, v[0], v[1], m, log1)
            };
        parity_read_went::<F, O>(z, t, v, log0, m);
        prefix_of_prefix(log0, m, log1);
    }
}

/// What an honest prover wrote about both codewords of a committed polynomial is
/// accepted: a verifier that reads the messages of the proof behind the same
/// steps ends with the prover's values and claims.
pub proof fn honest_checks_proof_is_accepted<F: PrimeField, H: HashFunction, P, V, C>(
    pp: BrakingBaseProverParam<F, P, C>,
    vp: BrakingBaseVerifierParam<V, C>,
    poly: Seq<int>,
    point: Seq<int>,
    comm: BrakingBaseCommitment<F, H>,
    state: BrakingBaseOpening<F>,
    vstate: BrakingBaseVerification<F>,
    out: BrakingBaseChecked<F>,
    log0: Seq<Event<H::Output>>,
    written: Seq<Event<H::Output>>,
    read: Seq<Event<H::Output>>,
    fields: Seq<int>,
    digests: Seq<H::Output>,
    r: Result<BrakingBaseCheckedVerifier<F>, Error>,
)
    requires
        pp.wf(),
        vp.wf(),
        params_agree(pp, vp),
        poly.len() == exp2(pp.num_vars as nat),
        state.wf(pp, poly, point),
        comm.commits_to(pp, poly),
        vals(vstate.proximity_weights@) == vals(state.proximity_weights@),
        vals(vstate.row_weights@) == vals(state.row_weights@),
        checks_written::<F, H, P, C>(pp, comm, state, out, log0, written),
        checks_verdict::<F, H, V, C>(vp, comm.root, vstate, log0, read, r),
        follows::<F, H>(written, fields, digests),
        follows::<F, H>(read, fields, digests),
        read.len() > 0 && read.last() is NoField ==> fields_in(read).len() == fields.len(),
        read.len() > 0 && read.last() is NoDigest ==> digests_in(read).len() == digests.len(),
    ensures
        r is Ok,
        same_checked(checked_as_read(out), r->Ok_0),
        read == written,
{
    honest_checks_are_accepted::<F, H, P, V, C>(
        pp,
        vp,
        poly,
        point,
        comm,
        state,
        vstate,
        out,
        log0,
        written,
    );
    let seen = checked_as_read(out);
    let (cr, ce) = choose|cr: Seq<Event<H::Output>>, ce: Seq<Event<H::Output>>| #[trigger]
        checks_accepted::<F, H, V, C>(vp, comm.root, vstate, seen, log0, cr, ce, written);
    accepted_checks_are_accepted_again::<F, H, V, C>(
        vp,
        comm.root,
        vstate,
        seen,
        log0,
        cr,
        ce,
        written,
        read,
        fields,
        digests,
        r,
    );
}

/// What an honest prover wrote about the parity-check matrix is accepted: a
/// verifier that reads the messages of the proof behind the same steps leaves the
/// prover's claims.
#[verifier::rlimit(60)]
#[verifier::spinoff_prover]
pub proof fn honest_matrix_proof_is_accepted<F: PrimeField, H: HashFunction, P, V, C>(
    pp: BrakingBaseProverParam<F, P, C>,
    vp: BrakingBaseVerifierParam<V, C>,
    checked: BrakingBaseChecked<F>,
    vstate: BrakingBaseVerification<F>,
    vchecked: BrakingBaseCheckedVerifier<F>,
    eval: int,
    run: SparkRun,
    claims: Seq<Claim>,
    log0: Seq<Event<H::Output>>,
    written: Seq<Event<H::Output>>,
    read: Seq<Event<H::Output>>,
    fields: Seq<int>,
    digests: Seq<H::Output>,
    r: Result<(Vec<Vec<F>>, Vec<Evaluation<F>>), Error>,
)
    requires
        pp.wf(),
        params_agree(pp, vp),
        checked.spark.wf(pp.spark),
        checked.spark.x() == extended(vals(checked.end.gamma_point@), pp.spark.mem_vars()),
        checked.spark.y() == extended(vals(checked.parity.parity_point@), pp.spark.mem_vars()),
        checked.end.h_eval.val() == matrix_eval::<F>(
            entries_of(pp.spark.entries@),
            checked.spark.x(),
            checked.spark.y(),
        ),
        same_checked(checked_as_read(checked), vchecked),
        spark_written::<F, H::Output>(
            pp.spark,
            checked.spark.x(),
            checked.spark.y(),
            opening_offsets(),
            run,
            claims,
            log0,
            written,
        ),
        matrix_verdict::<F, H::Output, V, C>(vp, vstate, vchecked, eval, log0, read, r),
        follows::<F, H>(written, fields, digests),
        follows::<F, H>(read, fields, digests),
        read.len() > 0 && read.last() is NoField ==> fields_in(read).len() == fields.len(),
        read.len() > 0 && read.last() is NoDigest ==> digests_in(read).len() == digests.len(),
    ensures
        r is Ok,
        read == written,
        claim_set(r->Ok_0.0@, r->Ok_0.1@) == no_claims().append_claims(
            opening_claims(
                claims_of(checked.parity.claims@),
                claims_of(checked.end.claims@),
                claims,
                vals(vstate.column_point@),
                eval,
                log2(vp.aux_len as int),
            ),
        ),
{
    let ops_vars = log2(vp.num_ops as int);
    let mem_vars = log2(vp.num_mem_cells as int);
    let aux_vars = log2(vp.aux_len as int);
    let x = extended(vals(checked.end.gamma_point@), mem_vars);
    let y = extended(vals(checked.parity.parity_point@), mem_vars);
    let h = checked.end.h_eval.val();
    honest_matrix_value_is_accepted::<F, H, P, V, C>(
        pp,
        vp,
        checked,
        run,
        claims,
        log0,
        written,
    );
    let d = choose|d: SparkRead<H::Output>| #[trigger]
        spark_run_accepted::<F, H::Output>(
            ops_vars,
            mem_vars,
            aux_vars,
            x,
            y,
            h,
            opening_offsets(),
            d,
            claims,
            log0,
            written,
        );
    spark_run_went::<F, H::Output>(
        ops_vars,
        mem_vars,
        aux_vars,
        x,
        y,
        h,
        opening_offsets(),
        d,
        claims,
        log0,
        written,
    );
    if r is Err {
        let e = r->Err_0;
        if exists|d2: SparkRead<H::Output>| #[trigger]
            spark_run_refused::<F, H::Output>(ops_vars, mem_vars, x, y, h, d2, e, log0, read) {
            let d2 = choose|d2: SparkRead<H::Output>| #[trigger]
                spark_run_refused::<F, H::Output>(ops_vars, mem_vars, x, y, h, d2, e, log0, read);
            matrix_is_not_refused::<F, H>(
                ops_vars,
                mem_vars,
                aux_vars,
                x,
                y,
                h,
                opening_offsets(),
                d,
                claims,
                written,
                d2,
                e,
                read,
                log0,
                fields,
                digests,
            );
        }
    } else {
        let batch = r->Ok_0;
        let (d2, claims2) = choose|d2: SparkRead<H::Output>, claims2: Seq<Claim>|
            {
                &&& #[trigger] spark_run_accepted::<F, H::Output>(
                    ops_vars,
                    mem_vars,
                    aux_vars,
                    x,
                    y,
                    h,
                    opening_offsets(),
                    d2,
                    claims2,
                    log0,
                    read,
                )
                &&& claim_set(batch.0@, batch.1@) == no_claims().append_claims(
                    opening_claims(
                        claims_of(vchecked.parity.claims@),
                        claims_of(vchecked.end.claims@),
                        claims2,
                        vals(vstate.column_point@),
                        eval,
                        aux_vars,
                    ),
                )
            };
        same_proof_same_matrix::<F, H>(
            ops_vars,
            mem_vars,
            aux_vars,
            x,
            y,
            h,
            opening_offsets(),
            d,
            claims,
            written,
            d2,
            claims2,
            read,
            log0,
            fields,
            digests,
        );
    }
}

} // verus!
