//! An honest opening of a row-encoded matrix is accepted when it is read.

use crate::claims::{claim_set, no_claims, Claim, ClaimSet};
use crate::classic_sumcheck::sumcheck_refused;
use crate::error::Error;
use crate::field::PrimeField;
use crate::hash::HashFunction;
use crate::linear::{comb_len, flatten, ints, mat, rect, vals};
use crate::mle::{exp2, log2};
use crate::qa_code::encode_rows;
use crate::qabase::{
    encoding_claims, encoding_refused, wht_went, QABaseEncodingRelationsBatchedWhtProof,
    QABaseEvalAuxLayout, QABaseEvalWitness, QABaseFoldedWitness,
};
use crate::qabase_columns::{
    block_claims, item1_digests, item1_fields, item1_read, item1_refused, item1_sumcheck_refused,
    item1_verified, selector_fields, selector_went, Item1VerifierStart,
    QABaseEvalColumnConsistencyVerifierOutput, QABaseItem1ProverOutput, QABaseItem1VerifierOutput,
};
use crate::qabase_open::{
    checked_fields, checked_went, columns_checked_first, columns_refused, encoding_checked,
    encodings_verified, eval_columns_read, first_layout, honest_encoding_claims_are_accepted,
    honest_item1_is_accepted, honest_opening_is_accepted, item1_as_read, item1_went,
    opening_as_read, opening_claims, opening_proved, opening_refused, opening_stopped,
    opening_verdict, opening_verified, proximity_claims, proximity_proved, proximity_verdict,
    proximity_verified, scaled_values, second_layout, FullOpenProved, FullOpenRead, OpeningOutcomes,
};
use crate::qabase_relations::{batch_value, wht_read, wht_refused, QABaseBatchedWhtRelationProof};
use crate::qabase_replay::{
    encoding_is_not_refused, item1_is_not_refused, same_proof_same_encoding, same_proof_same_item1,
    same_proof_same_selector, selector_is_not_refused,
};
use crate::quasar::{tree_over, QABaseCommitment, QABaseProverParams, QABaseVerifierParams};
use crate::quasar_columns::{fold_columns, QueriesRead};
use crate::quasar_gkr::QABaseVerifierOpeningAccumulator;
use crate::quasar_replay::{prefix_of_prefix, refused_extends};
use crate::transcript::{digests_in, drawn, fields_in, follows, sent_fields, went, went_on, Event};
use vstd::prelude::*;

verus! {

/// A check of columns that was refused in its sum-check extends the steps before
/// it.
proof fn refused_item1_extends<F: PrimeField, H: HashFunction, C>(
    vp: QABaseVerifierParams<F, C>,
    root: H::Output,
    rc: Seq<int>,
    log0: Seq<Event<H::Output>>,
    log1: Seq<Event<H::Output>>,
)
    requires
        item1_sumcheck_refused::<F, H, C>(vp, root, rc, log0, log1),
    ensures
        log0.is_prefix_of(log1),
{
    let (start, d, mid) = choose|
        start: Item1VerifierStart<F>,
        d: QueriesRead<H::Output>,
        mid: Seq<Event<H::Output>>,
    |
        {
            &&& #[trigger] item1_verified::<F, H, C>(vp, root, rc, start, d, log0, mid)
            &&& sumcheck_refused::<F, H::Output>(
                vp.num_vars as nat + log2(vp.inverse_rate as int),
                2,
                start.claimed_sum.val(),
                mid,
                log1,
            )
        };
    refused_extends::<F, H::Output>(
        vp.num_vars as nat + log2(vp.inverse_rate as int),
        2,
        start.claimed_sum.val(),
        mid,
        log1,
    );
    prefix_of_prefix(log0, mid, log1);
}

/// A first check of columns extends the steps before it.
proof fn first_columns_extend<F: PrimeField, H: HashFunction, C>(
    vp: QABaseVerifierParams<F, C>,
    root: H::Output,
    rc: Seq<int>,
    item1: QABaseItem1VerifierOutput<F>,
    ok: bool,
    claims: Seq<Claim>,
    log0: Seq<Event<H::Output>>,
    log1: Seq<Event<H::Output>>,
)
    requires
        columns_checked_first::<F, H, C>(vp, root, rc, item1, ok, claims, log0, log1),
    ensures
        log0.is_prefix_of(log1),
{
    if exists|d: QueriesRead<H::Output>| #[trigger]
        item1_read::<F, H, C>(item1, ok, vp, root, rc, d, log0, log1) {
        let d = choose|d: QueriesRead<H::Output>| #[trigger]
            item1_read::<F, H, C>(item1, ok, vp, root, rc, d, log0, log1);
        item1_went::<F, H, C>(item1, ok, vp, root, rc, d, log0, log1);
    }
}

/// One verifier accepted proximity. Another one that goes through the same proof
/// behind the same steps, and does not run out of messages, leaves the same
/// claims.
#[verifier::rlimit(60)]
#[verifier::spinoff_prover]
pub proof fn accepted_proximity_is_accepted_again<F: PrimeField, H: HashFunction, C>(
    vp: QABaseVerifierParams<F, C>,
    root: H::Output,
    rc: Seq<int>,
    p: QABaseEncodingRelationsBatchedWhtProof<F>,
    us: Seq<int>,
    item1: QABaseItem1VerifierOutput<F>,
    d: QueriesRead<H::Output>,
    log0: Seq<Event<H::Output>>,
    mid: Seq<Event<H::Output>>,
    written: Seq<Event<H::Output>>,
    read: Seq<Event<H::Output>>,
    fields: Seq<int>,
    digests: Seq<H::Output>,
    r: Result<
        (
            bool,
            QABaseVerifierOpeningAccumulator<F, C>,
            QABaseEncodingRelationsBatchedWhtProof<F>,
            QABaseItem1VerifierOutput<F>,
        ),
        Error,
    >,
)
    requires
        encoding_checked::<F, H::Output>(
            p,
            us,
            true,
            true,
            vp.num_vars as nat,
            vp.inverse_rate as nat,
            log0,
            mid,
        ),
        item1_read::<F, H, C>(item1, true, vp, root, rc, d, mid, written),
        proximity_verdict::<F, H, C>(vp, root, rc, log0, read, r),
        follows::<F, H>(written, fields, digests),
        follows::<F, H>(read, fields, digests),
        read.len() > 0 && read.last() is NoField ==> fields_in(read).len() == fields.len(),
        read.len() > 0 && read.last() is NoDigest ==> digests_in(read).len() == digests.len(),
    ensures
        r is Ok,
        r->Ok_0.0,
        read == written,
        claim_set(r->Ok_0.1.points@, r->Ok_0.1.evals@) == no_claims().append_claims(
            proximity_claims(
                first_layout(vp.inverse_rate),
                p,
                us,
                vals(item1.sc_point@).take(vp.num_vars as int),
                vals(item1.u_block_evals_at_sc_point@),
            ),
        ),
{
    let (n, rho) = (vp.num_vars as nat, vp.inverse_rate as nat);
    checked_went::<F, H::Output>(p, us, true, true, n, rho, log0, mid);
    item1_went::<F, H, C>(item1, true, vp, root, rc, d, mid, written);
    let m = item1_digests(vp);
    went_on(log0, mid, written, checked_fields(n, rho), 0, item1_fields(vp), m);
    encoding_is_not_refused::<F, H>(
        p,
        us,
        true,
        true,
        mid,
        n,
        rho,
        log0,
        written,
        read,
        fields,
        digests,
    );
    item1_is_not_refused::<F, H, C>(
        item1,
        true,
        d,
        written,
        vp,
        root,
        rc,
        mid,
        written,
        read,
        fields,
        digests,
    );
    if r is Err {
        let (p2, us2, ok2, fit2, mid2) = choose|
            p2: QABaseEncodingRelationsBatchedWhtProof<F>,
            us2: Seq<int>,
            ok2: bool,
            fit2: bool,
            mid2: Seq<Event<H::Output>>,
        |
            (#[trigger] encoding_checked::<F, H::Output>(
                p2,
                us2,
                ok2,
                fit2,
                n,
                rho,
                log0,
                mid2,
            )) && item1_sumcheck_refused::<F, H, C>(vp, root, rc, mid2, read);
        refused_item1_extends::<F, H, C>(vp, root, rc, mid2, read);
        same_proof_same_encoding::<F, H>(
            p,
            us,
            true,
            true,
            mid,
            p2,
            us2,
            ok2,
            fit2,
            mid2,
            n,
            rho,
            log0,
            written,
            read,
            fields,
            digests,
        );
    } else {
        let res = r->Ok_0;
        let set = claim_set(res.1.points@, res.1.evals@);
        let first = first_layout(vp.inverse_rate);
        let (us2, mid2) = choose|us2: Seq<int>, mid2: Seq<Event<H::Output>>| #[trigger]
            proximity_verified::<F, H, C>(
                vp,
                root,
                rc,
                res.0,
                res.2,
                us2,
                res.3,
                set,
                log0,
                mid2,
                read,
            );
        let (ok2, fit2, okc2, claims2) = choose|
            ok2: bool,
            fit2: bool,
            okc2: bool,
            claims2: Seq<Claim>,
        |
            {
                &&& #[trigger] encoding_checked::<F, H::Output>(
                    res.2,
                    us2,
                    ok2,
                    fit2,
                    n,
                    rho,
                    log0,
                    mid2,
                )
                &&& #[trigger] columns_checked_first::<F, H, C>(
                    vp,
                    root,
                    rc,
                    res.3,
                    okc2,
                    claims2,
                    mid2,
                    read,
                )
                &&& set == no_claims().append_claims(encoding_claims(first, res.2, us2) + claims2)
                &&& res.0 == (ok2 && fit2 && okc2)
            };
        first_columns_extend::<F, H, C>(vp, root, rc, res.3, okc2, claims2, mid2, read);
        same_proof_same_encoding::<F, H>(
            p,
            us,
            true,
            true,
            mid,
            res.2,
            us2,
            ok2,
            fit2,
            mid2,
            n,
            rho,
            log0,
            written,
            read,
            fields,
            digests,
        );
        assert(encoding_claims(first, p, us) == encoding_claims(first, res.2, us2));
        let d2 = choose|d2: QueriesRead<H::Output>| #[trigger]
            item1_read::<F, H, C>(res.3, okc2, vp, root, rc, d2, mid, read) && claims2
                == block_claims(
                first,
                vals(res.3.sc_point@).take(vp.num_vars as int),
                vals(res.3.u_block_evals_at_sc_point@),
            );
        same_proof_same_item1::<F, H, C>(
            item1,
            true,
            d,
            written,
            res.3,
            okc2,
            d2,
            read,
            vp,
            root,
            rc,
            mid,
            written,
            read,
            fields,
            digests,
        );
    }
}

/// What an honest prover wrote about proximity is accepted: a verifier that reads
/// the messages of the proof behind the same steps leaves the prover's claims.
pub proof fn honest_proximity_proof_is_accepted<F: PrimeField, H: HashFunction, C>(
    pp: QABaseProverParams<F, C>,
    vp: QABaseVerifierParams<F, C>,
    comm: QABaseCommitment<H, Vec<Vec<F>>>,
    rows: Seq<Seq<int>>,
    folded: QABaseFoldedWitness<F>,
    p: QABaseEncodingRelationsBatchedWhtProof<F>,
    item1: QABaseItem1ProverOutput<F>,
    challenges: Seq<int>,
    log0: Seq<Event<H::Output>>,
    mid: Seq<Event<H::Output>>,
    written: Seq<Event<H::Output>>,
    read: Seq<Event<H::Output>>,
    fields: Seq<int>,
    digests: Seq<H::Output>,
    r: Result<
        (
            bool,
            QABaseVerifierOpeningAccumulator<F, C>,
            QABaseEncodingRelationsBatchedWhtProof<F>,
            QABaseItem1VerifierOutput<F>,
        ),
        Error,
    >,
)
    requires
        pp.wf(),
        vp.num_vars == pp.num_vars,
        vp.num_rows == pp.num_rows,
        vp.inverse_rate == pp.inverse_rate,
        vp.num_queries == pp.num_queries,
        3 * pp.inverse_rate <= usize::MAX,
        rows.len() == pp.num_rows,
        rect(rows, exp2(pp.num_vars as nat)),
        mat(comm.codeword@) == encode_rows::<F>(rows, pp.qa_params.coeffs()),
        tree_over::<H, F>(
            comm.codeword_tree@,
            mat(comm.codeword@),
            (pp.inverse_rate * exp2(pp.num_vars as nat)) as nat,
        ),
        folded.of(rows, pp.qa_params.coeffs(), exp2(pp.num_vars as nat)),
        proximity_proved::<F, H, C>(
            pp,
            comm,
            vals(folded.row_challenges@),
            vals(folded.folded_msg@),
            p,
            item1,
            challenges,
            log0,
            mid,
            written,
        ),
        proximity_verdict::<F, H, C>(
            vp,
            comm.root_spec(),
            vals(folded.row_challenges@),
            log0,
            read,
            r,
        ),
        follows::<F, H>(written, fields, digests),
        follows::<F, H>(read, fields, digests),
        read.len() > 0 && read.last() is NoField ==> fields_in(read).len() == fields.len(),
        read.len() > 0 && read.last() is NoDigest ==> digests_in(read).len() == digests.len(),
    ensures
        r is Ok,
        r->Ok_0.0,
        read == written,
        claim_set(r->Ok_0.1.points@, r->Ok_0.1.evals@) == no_claims().append_claims(
            proximity_claims(
                first_layout(pp.inverse_rate),
                p,
                scaled_values::<F>(p, vals(folded.folded_msg@), pp.qa_params.coeffs()),
                vals(item1.sc_point@).take(pp.num_vars as int),
                vals(item1.u_block_evals_at_sc_point@),
            ),
        ),
{
    let e = pp.qa_params.coeffs();
    let rc = vals(folded.row_challenges@);
    let us = scaled_values::<F>(p, vals(folded.folded_msg@), e);
    comb_len::<F>(rc, rows, exp2(pp.num_vars as nat));
    honest_encoding_claims_are_accepted::<F, H::Output>(
        p,
        folded.folded_qa_witness,
        vals(folded.folded_msg@),
        e,
        pp.num_vars as nat,
        log0,
        mid,
    );
    honest_item1_is_accepted::<F, H, C>(
        pp,
        vp,
        comm,
        rows,
        folded,
        item1,
        challenges,
        mid,
        written,
    );
    let seen = item1_as_read(item1);
    let d = choose|d: QueriesRead<H::Output>| #[trigger]
        item1_read::<F, H, C>(seen, true, vp, comm.root_spec(), rc, d, mid, written);
    accepted_proximity_is_accepted_again::<F, H, C>(
        vp,
        comm.root_spec(),
        rc,
        p,
        us,
        seen,
        d,
        log0,
        mid,
        written,
        read,
        fields,
        digests,
        r,
    );
}

/// A refused check of columns extends the steps before it.
proof fn refused_columns_extend<F: PrimeField, H: HashFunction, C>(
    vp: QABaseVerifierParams<F, C>,
    root: H::Output,
    rc: Seq<int>,
    rw: Seq<int>,
    log0: Seq<Event<H::Output>>,
    log1: Seq<Event<H::Output>>,
)
    requires
        columns_refused::<F, H, C>(vp, root, rc, rw, log0, log1),
    ensures
        log0.is_prefix_of(log1),
{
    if item1_sumcheck_refused::<F, H, C>(vp, root, rc, log0, log1) {
        refused_item1_extends::<F, H, C>(vp, root, rc, log0, log1);
    } else {
        let n = vp.num_vars as nat + log2(vp.inverse_rate as int);
        let (item1, ok, d, end) = choose|
            item1: QABaseItem1VerifierOutput<F>,
            ok: bool,
            d: QueriesRead<H::Output>,
            end: Seq<Event<H::Output>>,
        |
            (#[trigger] item1_read::<F, H, C>(item1, ok, vp, root, rc, d, log0, end))
                && sumcheck_refused::<F, H::Output>(
                n,
                2,
                batch_value::<F>(item1.tau.val(), fold_columns::<F>(rw, d.cols)),
                end,
                log1,
            );
        item1_went::<F, H, C>(item1, ok, vp, root, rc, d, log0, end);
        refused_extends::<F, H::Output>(
            n,
            2,
            batch_value::<F>(item1.tau.val(), fold_columns::<F>(rw, d.cols)),
            end,
            log1,
        );
        prefix_of_prefix(log0, end, log1);
    }
}

/// The check of the row that a point selects extends the steps before it.
proof fn eval_columns_went<F: PrimeField, O, C>(
    vp: QABaseVerifierParams<F, C>,
    item1: QABaseItem1VerifierOutput<F>,
    rw: Seq<int>,
    out: QABaseEvalColumnConsistencyVerifierOutput<F>,
    ok: bool,
    log0: Seq<Event<O>>,
    log1: Seq<Event<O>>,
)
    requires
        eval_columns_read::<F, O, C>(vp, item1, rw, out, ok, log0, log1),
    ensures
        went(log0, log1, selector_fields(vp.num_vars as nat, vp.inverse_rate as nat), 0),
{
    selector_went::<F, O>(
        ints(item1.query_indices@),
        item1.tau.val(),
        batch_value::<F>(
            item1.tau.val(),
            fold_columns::<F>(rw, mat(item1.opened_columns@)),
        ),
        vp.num_vars as nat,
        vp.inverse_rate as nat,
        vals(out.sc_point@),
        out.selector_eval_at_sc_point.val(),
        out.q_eval_at_sc_point.val(),
        vals(out.q_block_evals_at_sc_point@),
        ok,
        log0,
        log1,
    );
}

/// Both encodings are read in the same way by all who go through one proof.
#[verifier::rlimit(60)]
#[verifier::spinoff_prover]
proof fn same_proof_same_encodings<F: PrimeField, H: HashFunction, C>(
    vp: QABaseVerifierParams<F, C>,
    out1: FullOpenRead<F>,
    us1: Seq<int>,
    ws1: Seq<int>,
    found1: OpeningOutcomes,
    fe1: Seq<Event<H::Output>>,
    se1: Seq<Event<H::Output>>,
    out2: FullOpenRead<F>,
    us2: Seq<int>,
    ws2: Seq<int>,
    found2: OpeningOutcomes,
    fe2: Seq<Event<H::Output>>,
    se2: Seq<Event<H::Output>>,
    log0: Seq<Event<H::Output>>,
    a: Seq<Event<H::Output>>,
    b: Seq<Event<H::Output>>,
    fields: Seq<int>,
    digests: Seq<H::Output>,
)
    requires
        encodings_verified::<F, H::Output, C>(vp, out1, us1, ws1, found1, log0, fe1, se1),
        encodings_verified::<F, H::Output, C>(vp, out2, us2, ws2, found2, log0, fe2, se2),
        se1.is_prefix_of(a),
        se2.is_prefix_of(b),
        follows::<F, H>(a, fields, digests),
        follows::<F, H>(b, fields, digests),
    ensures
        found1.encoding == found2.encoding,
        found1.encoding_fit == found2.encoding_fit,
        found1.eval_encoding == found2.eval_encoding,
        found1.eval_encoding_fit == found2.eval_encoding_fit,
        fe1 == fe2,
        se1 == se2,
        forall|layout: QABaseEvalAuxLayout| #[trigger]
            encoding_claims(layout, out1.encoding_relations, us1) == encoding_claims(
                layout,
                out2.encoding_relations,
                us2,
            ),
        forall|layout: QABaseEvalAuxLayout| #[trigger]
            encoding_claims(layout, out1.eval_encoding_relations, ws1) == encoding_claims(
                layout,
                out2.eval_encoding_relations,
                ws2,
            ),
{
    let (n, rho) = (vp.num_vars as nat, vp.inverse_rate as nat);
    let (p1, q1) = (out1.encoding_relations, out1.eval_encoding_relations);
    let (p2, q2) = (out2.encoding_relations, out2.eval_encoding_relations);
    checked_went::<F, H::Output>(
        q1,
        ws1,
        found1.eval_encoding,
        found1.eval_encoding_fit,
        n,
        rho,
        fe1,
        se1,
    );
    checked_went::<F, H::Output>(
        q2,
        ws2,
        found2.eval_encoding,
        found2.eval_encoding_fit,
        n,
        rho,
        fe2,
        se2,
    );
    prefix_of_prefix(fe1, se1, a);
    prefix_of_prefix(fe2, se2, b);
    same_proof_same_encoding::<F, H>(
        p1,
        us1,
        found1.encoding,
        found1.encoding_fit,
        fe1,
        p2,
        us2,
        found2.encoding,
        found2.encoding_fit,
        fe2,
        n,
        rho,
        log0,
        a,
        b,
        fields,
        digests,
    );
    same_proof_same_encoding::<F, H>(
        q1,
        ws1,
        found1.eval_encoding,
        found1.eval_encoding_fit,
        se1,
        q2,
        ws2,
        found2.eval_encoding,
        found2.eval_encoding_fit,
        se2,
        n,
        rho,
        fe1,
        a,
        b,
        fields,
        digests,
    );
}

/// Where one verifier ran through both encodings and both checks of the columns,
/// another one that goes through the same proof behind the same steps does not
/// refuse.
#[verifier::rlimit(60)]
#[verifier::spinoff_prover]
proof fn opening_is_not_refused<F: PrimeField, H: HashFunction, C>(
    vp: QABaseVerifierParams<F, C>,
    root: H::Output,
    rc: Seq<int>,
    rw: Seq<int>,
    out: FullOpenRead<F>,
    us: Seq<int>,
    ws: Seq<int>,
    found: OpeningOutcomes,
    d: QueriesRead<H::Output>,
    log0: Seq<Event<H::Output>>,
    first_end: Seq<Event<H::Output>>,
    second_end: Seq<Event<H::Output>>,
    columns_end: Seq<Event<H::Output>>,
    a: Seq<Event<H::Output>>,
    b: Seq<Event<H::Output>>,
    fields: Seq<int>,
    digests: Seq<H::Output>,
)
    requires
        encodings_verified::<F, H::Output, C>(
            vp,
            out,
            us,
            ws,
            found,
            log0,
            first_end,
            second_end,
        ),
        item1_read::<F, H, C>(
            out.item1,
            found.columns,
            vp,
            root,
            rc,
            d,
            second_end,
            columns_end,
        ),
        out.eval_item1 is Some,
        eval_columns_read::<F, H::Output, C>(
            vp,
            out.item1,
            rw,
            out.eval_item1->Some_0,
            found.eval_columns,
            columns_end,
            a,
        ),
        second_end.is_prefix_of(a),
        columns_end.is_prefix_of(a),
        first_end.is_prefix_of(second_end),
        follows::<F, H>(a, fields, digests),
        follows::<F, H>(b, fields, digests),
    ensures
        !opening_refused::<F, H, C>(vp, root, rc, rw, log0, b),
{
    let (n, rho) = (vp.num_vars as nat, vp.inverse_rate as nat);
    let (p, q) = (out.encoding_relations, out.eval_encoding_relations);
    prefix_of_prefix(first_end, second_end, a);
    encoding_is_not_refused::<F, H>(
        p,
        us,
        found.encoding,
        found.encoding_fit,
        first_end,
        n,
        rho,
        log0,
        a,
        b,
        fields,
        digests,
    );
    if exists|
        p2: QABaseEncodingRelationsBatchedWhtProof<F>,
        us2: Seq<int>,
        ok: bool,
        fit: bool,
        fe2: Seq<Event<H::Output>>,
    |
        (#[trigger] encoding_checked::<F, H::Output>(p2, us2, ok, fit, n, rho, log0, fe2))
            && encoding_refused::<F, H::Output>(n, rho, fe2, b) {
        let (p2, us2, ok, fit, fe2) = choose|
            p2: QABaseEncodingRelationsBatchedWhtProof<F>,
            us2: Seq<int>,
            ok: bool,
            fit: bool,
            fe2: Seq<Event<H::Output>>,
        |
            (#[trigger] encoding_checked::<F, H::Output>(p2, us2, ok, fit, n, rho, log0, fe2))
                && encoding_refused::<F, H::Output>(n, rho, fe2, b);
        refused_encoding_extends::<F, H::Output>(n, rho, fe2, b);
        same_proof_same_encoding::<F, H>(
            p,
            us,
            found.encoding,
            found.encoding_fit,
            first_end,
            p2,
            us2,
            ok,
            fit,
            fe2,
            n,
            rho,
            log0,
            a,
            b,
            fields,
            digests,
        );
        encoding_is_not_refused::<F, H>(
            q,
            ws,
            found.eval_encoding,
            found.eval_encoding_fit,
            second_end,
            n,
            rho,
            first_end,
            a,
            b,
            fields,
            digests,
        );
    } else if opening_refused::<F, H, C>(vp, root, rc, rw, log0, b) {
        let (out2, us2, ws2, found2, fe2, se2) = choose|
            out2: FullOpenRead<F>,
            us2: Seq<int>,
            ws2: Seq<int>,
            found2: OpeningOutcomes,
            fe2: Seq<Event<H::Output>>,
            se2: Seq<Event<H::Output>>,
        |
            (#[trigger] encodings_verified::<F, H::Output, C>(
                vp,
                out2,
                us2,
                ws2,
                found2,
                log0,
                fe2,
                se2,
            )) && columns_refused::<F, H, C>(vp, root, rc, rw, se2, b);
        refused_columns_extend::<F, H, C>(vp, root, rc, rw, se2, b);
        same_proof_same_encodings::<F, H, C>(
            vp,
            out,
            us,
            ws,
            found,
            first_end,
            second_end,
            out2,
            us2,
            ws2,
            found2,
            fe2,
            se2,
            log0,
            a,
            b,
            fields,
            digests,
        );
        both_columns_are_not_refused::<F, H, C>(
            vp,
            root,
            rc,
            rw,
            out,
            found,
            d,
            second_end,
            columns_end,
            a,
            b,
            fields,
            digests,
        );
    }
}

/// A refused encoding extends the steps before it.
proof fn refused_encoding_extends<F: PrimeField, O>(
    num_vars: nat,
    rho: nat,
    log0: Seq<Event<O>>,
    log1: Seq<Event<O>>,
)
    requires
        encoding_refused::<F, O>(num_vars, rho, log0, log1),
    ensures
        log0.is_prefix_of(log1),
{
    if exists|eta: int, gammas: Seq<Seq<int>>, ys: Seq<int>| #[trigger]
        wht_refused::<F, O>(num_vars, rho, eta, gammas, ys, log0, log1) {
        let (eta, gammas, ys) = choose|eta: int, gammas: Seq<Seq<int>>, ys: Seq<int>| #[trigger]
            wht_refused::<F, O>(num_vars, rho, eta, gammas, ys, log0, log1);
        let s = log0 + drawn(seq![eta]) + drawn(flatten(gammas)) + sent_fields(ys);
        refused_extends::<F, O>(num_vars, 2, batch_value::<F>(eta, ys), s, log1);
        prefix_of_prefix(log0, s, log1);
    } else {
        let (p, ok, mid, alpha, beta) = choose|
            p: QABaseBatchedWhtRelationProof<F>,
            ok: bool,
            mid: Seq<Event<O>>,
            alpha: int,
            beta: Seq<int>,
        |
            {
                &&& #[trigger] wht_read::<F, O>(p, ok, num_vars, rho, log0, mid)
                &&& beta.len() == num_vars
                &&& #[trigger] sumcheck_refused::<F, O>(
                    num_vars,
                    3,
                    0,
                    mid + drawn(seq![alpha]) + drawn(beta),
                    log1,
                )
            };
        let s = mid + drawn(seq![alpha]) + drawn(beta);
        refused_extends::<F, O>(num_vars, 3, 0, s, log1);
        wht_went::<F, O>(p, ok, num_vars, rho, log0, mid);
        prefix_of_prefix(mid, s, log1);
        prefix_of_prefix(log0, mid, log1);
    }
}

/// Where one verifier ran through both checks of the columns, another one that
/// goes through the same proof behind the same steps does not refuse.
#[verifier::rlimit(60)]
#[verifier::spinoff_prover]
proof fn both_columns_are_not_refused<F: PrimeField, H: HashFunction, C>(
    vp: QABaseVerifierParams<F, C>,
    root: H::Output,
    rc: Seq<int>,
    rw: Seq<int>,
    out: FullOpenRead<F>,
    found: OpeningOutcomes,
    d: QueriesRead<H::Output>,
    second_end: Seq<Event<H::Output>>,
    columns_end: Seq<Event<H::Output>>,
    a: Seq<Event<H::Output>>,
    b: Seq<Event<H::Output>>,
    fields: Seq<int>,
    digests: Seq<H::Output>,
)
    requires
        item1_read::<F, H, C>(
            out.item1,
            found.columns,
            vp,
            root,
            rc,
            d,
            second_end,
            columns_end,
        ),
        out.eval_item1 is Some,
        eval_columns_read::<F, H::Output, C>(
            vp,
            out.item1,
            rw,
            out.eval_item1->Some_0,
            found.eval_columns,
            columns_end,
            a,
        ),
        columns_end.is_prefix_of(a),
        follows::<F, H>(a, fields, digests),
        follows::<F, H>(b, fields, digests),
    ensures
        !columns_refused::<F, H, C>(vp, root, rc, rw, second_end, b),
{
    item1_is_not_refused::<F, H, C>(
        out.item1,
        found.columns,
        d,
        columns_end,
        vp,
        root,
        rc,
        second_end,
        a,
        b,
        fields,
        digests,
    );
    if columns_refused::<F, H, C>(vp, root, rc, rw, second_end, b) {
        let n = vp.num_vars as nat + log2(vp.inverse_rate as int);
        let (item2, ok2, d2, end2) = choose|
            item2: QABaseItem1VerifierOutput<F>,
            ok2: bool,
            d2: QueriesRead<H::Output>,
            end2: Seq<Event<H::Output>>,
        |
            (#[trigger] item1_read::<F, H, C>(item2, ok2, vp, root, rc, d2, second_end, end2))
                && sumcheck_refused::<F, H::Output>(
                n,
                2,
                batch_value::<F>(item2.tau.val(), fold_columns::<F>(rw, d2.cols)),
                end2,
                b,
            );
        refused_extends::<F, H::Output>(
            n,
            2,
            batch_value::<F>(item2.tau.val(), fold_columns::<F>(rw, d2.cols)),
            end2,
            b,
        );
        same_proof_same_item1::<F, H, C>(
            out.item1,
            found.columns,
            d,
            columns_end,
            item2,
            ok2,
            d2,
            end2,
            vp,
            root,
            rc,
            second_end,
            a,
            b,
            fields,
            digests,
        );
        let eval = out.eval_item1->Some_0;
        let tau = out.item1.tau.val();
        selector_is_not_refused::<F, H>(
            ints(out.item1.query_indices@),
            tau,
            batch_value::<F>(tau, fold_columns::<F>(rw, mat(out.item1.opened_columns@))),
            vp.num_vars as nat,
            vp.inverse_rate as nat,
            vals(eval.sc_point@),
            eval.selector_eval_at_sc_point.val(),
            eval.q_eval_at_sc_point.val(),
            vals(eval.q_block_evals_at_sc_point@),
            found.eval_columns,
            a,
            columns_end,
            a,
            b,
            fields,
            digests,
        );
    }
}

/// Two verifiers of an opening at a point that go through one proof behind the
/// same steps end in the same way.
#[verifier::rlimit(40)]
#[verifier::spinoff_prover]
proof fn same_proof_same_opening<F: PrimeField, H: HashFunction, C>(
    vp: QABaseVerifierParams<F, C>,
    root: H::Output,
    rc: Seq<int>,
    rw: Seq<int>,
    z_right: Seq<int>,
    value: int,
    out1: FullOpenRead<F>,
    us1: Seq<int>,
    ws1: Seq<int>,
    found1: OpeningOutcomes,
    d1: QueriesRead<H::Output>,
    set1: ClaimSet,
    fe1: Seq<Event<H::Output>>,
    se1: Seq<Event<H::Output>>,
    ce1: Seq<Event<H::Output>>,
    a: Seq<Event<H::Output>>,
    out2: FullOpenRead<F>,
    us2: Seq<int>,
    ws2: Seq<int>,
    found2: OpeningOutcomes,
    d2: QueriesRead<H::Output>,
    set2: ClaimSet,
    fe2: Seq<Event<H::Output>>,
    se2: Seq<Event<H::Output>>,
    ce2: Seq<Event<H::Output>>,
    b: Seq<Event<H::Output>>,
    log0: Seq<Event<H::Output>>,
    fields: Seq<int>,
    digests: Seq<H::Output>,
)
    requires
        opening_verified::<F, H, C>(
            vp,
            root,
            rc,
            rw,
            z_right,
            value,
            out1,
            us1,
            ws1,
            found1,
            d1,
            set1,
            log0,
            fe1,
            se1,
            ce1,
            a,
        ),
        opening_verified::<F, H, C>(
            vp,
            root,
            rc,
            rw,
            z_right,
            value,
            out2,
            us2,
            ws2,
            found2,
            d2,
            set2,
            log0,
            fe2,
            se2,
            ce2,
            b,
        ),
        follows::<F, H>(a, fields, digests),
        follows::<F, H>(b, fields, digests),
    ensures
        found1 == found2,
        a == b,
        set1 == set2,
{
    let (n, rho) = (vp.num_vars as nat, vp.inverse_rate as nat);
    let (e1, e2) = (out1.eval_item1->Some_0, out2.eval_item1->Some_0);
    eval_columns_went::<F, H::Output, C>(vp, out1.item1, rw, e1, found1.eval_columns, ce1, a);
    eval_columns_went::<F, H::Output, C>(vp, out2.item1, rw, e2, found2.eval_columns, ce2, b);
    item1_went::<F, H, C>(out1.item1, found1.columns, vp, root, rc, d1, se1, ce1);
    item1_went::<F, H, C>(out2.item1, found2.columns, vp, root, rc, d2, se2, ce2);
    prefix_of_prefix(se1, ce1, a);
    prefix_of_prefix(se2, ce2, b);
    same_proof_same_encodings::<F, H, C>(
        vp,
        out1,
        us1,
        ws1,
        found1,
        fe1,
        se1,
        out2,
        us2,
        ws2,
        found2,
        fe2,
        se2,
        log0,
        a,
        b,
        fields,
        digests,
    );
    same_proof_same_item1::<F, H, C>(
        out1.item1,
        found1.columns,
        d1,
        ce1,
        out2.item1,
        found2.columns,
        d2,
        ce2,
        vp,
        root,
        rc,
        se1,
        a,
        b,
        fields,
        digests,
    );
    let tau = out1.item1.tau.val();
    same_proof_same_selector::<F, H>(
        ints(out1.item1.query_indices@),
        tau,
        batch_value::<F>(tau, fold_columns::<F>(rw, mat(out1.item1.opened_columns@))),
        n,
        rho,
        vals(e1.sc_point@),
        e1.selector_eval_at_sc_point.val(),
        e1.q_eval_at_sc_point.val(),
        vals(e1.q_block_evals_at_sc_point@),
        found1.eval_columns,
        a,
        vals(e2.sc_point@),
        e2.selector_eval_at_sc_point.val(),
        e2.q_eval_at_sc_point.val(),
        vals(e2.q_block_evals_at_sc_point@),
        found2.eval_columns,
        b,
        ce1,
        a,
        b,
        fields,
        digests,
    );
    let (first, second) = (first_layout(vp.inverse_rate), second_layout(vp.inverse_rate));
    assert(encoding_claims(first, out1.encoding_relations, us1) == encoding_claims(
        first,
        out2.encoding_relations,
        us2,
    ));
    assert(encoding_claims(second, out1.eval_encoding_relations, ws1) == encoding_claims(
        second,
        out2.eval_encoding_relations,
        ws2,
    ));
}

/// One verifier accepted an opening at a point. Another one that goes through the
/// same proof behind the same steps, and does not run out of messages, accepts it
/// and leaves the same claims.
#[verifier::rlimit(60)]
#[verifier::spinoff_prover]
pub proof fn accepted_point_is_accepted_again<F: PrimeField, H: HashFunction, C>(
    vp: QABaseVerifierParams<F, C>,
    root: H::Output,
    rc: Seq<int>,
    rw: Seq<int>,
    z_right: Seq<int>,
    value: int,
    out: FullOpenRead<F>,
    us: Seq<int>,
    ws: Seq<int>,
    found: OpeningOutcomes,
    d: QueriesRead<H::Output>,
    set: ClaimSet,
    log0: Seq<Event<H::Output>>,
    first_end: Seq<Event<H::Output>>,
    second_end: Seq<Event<H::Output>>,
    columns_end: Seq<Event<H::Output>>,
    written: Seq<Event<H::Output>>,
    read: Seq<Event<H::Output>>,
    fields: Seq<int>,
    digests: Seq<H::Output>,
    r: Result<(bool, QABaseVerifierOpeningAccumulator<F, C>, FullOpenRead<F>), Error>,
)
    requires
        opening_verified::<F, H, C>(
            vp,
            root,
            rc,
            rw,
            z_right,
            value,
            out,
            us,
            ws,
            found,
            d,
            set,
            log0,
            first_end,
            second_end,
            columns_end,
            written,
        ),
        found.all(),
        opening_verdict::<F, H, C>(vp, root, rc, rw, z_right, value, log0, read, r),
        follows::<F, H>(written, fields, digests),
        follows::<F, H>(read, fields, digests),
        read.len() > 0 && read.last() is NoField ==> fields_in(read).len() == fields.len(),
        read.len() > 0 && read.last() is NoDigest ==> digests_in(read).len() == digests.len(),
    ensures
        r is Ok,
        r->Ok_0.0,
        read == written,
        claim_set(r->Ok_0.1.points@, r->Ok_0.1.evals@) == set,
{
    let (n, rho) = (vp.num_vars as nat, vp.inverse_rate as nat);
    let (p, q) = (out.encoding_relations, out.eval_encoding_relations);
    let one = checked_fields(n, rho);
    let (n1, m) = (item1_fields(vp), item1_digests(vp));
    let n2 = selector_fields(n, rho);
    let eval = out.eval_item1->Some_0;
    checked_went::<F, H::Output>(p, us, true, true, n, rho, log0, first_end);
    checked_went::<F, H::Output>(q, ws, true, true, n, rho, first_end, second_end);
    item1_went::<F, H, C>(out.item1, true, vp, root, rc, d, second_end, columns_end);
    eval_columns_went::<F, H::Output, C>(vp, out.item1, rw, eval, true, columns_end, written);
    went_on(log0, first_end, second_end, one, 0, one, 0);
    went_on(log0, second_end, columns_end, one + one, 0, n1, m);
    went_on(log0, columns_end, written, one + one + n1, m, n2, 0);
    prefix_of_prefix(second_end, columns_end, written);
    opening_is_not_refused::<F, H, C>(
        vp,
        root,
        rc,
        rw,
        out,
        us,
        ws,
        found,
        d,
        log0,
        first_end,
        second_end,
        columns_end,
        written,
        read,
        fields,
        digests,
    );
    if r is Ok {
        let res = r->Ok_0;
        if res.2.eval_item1 is None {
            let (us2, ws2, found2, d2, k, fe2, se2) = choose|
                us2: Seq<int>,
                ws2: Seq<int>,
                found2: OpeningOutcomes,
                d2: QueriesRead<H::Output>,
                k: nat,
                fe2: Seq<Event<H::Output>>,
                se2: Seq<Event<H::Output>>,
            | #[trigger]
                opening_stopped::<F, H, C>(
                    vp,
                    root,
                    rc,
                    res.2,
                    us2,
                    ws2,
                    found2,
                    d2,
                    k,
                    log0,
                    fe2,
                    se2,
                    read,
                );
            same_proof_same_encodings::<F, H, C>(
                vp,
                out,
                us,
                ws,
                found,
                first_end,
                second_end,
                res.2,
                us2,
                ws2,
                found2,
                fe2,
                se2,
                log0,
                written,
                read,
                fields,
                digests,
            );
            item1_is_not_refused::<F, H, C>(
                out.item1,
                true,
                d,
                columns_end,
                vp,
                root,
                rc,
                second_end,
                written,
                read,
                fields,
                digests,
            );
            assert(item1_refused::<F, H, C>(vp, root, d2, k, second_end, read));
        } else {
            let seen = claim_set(res.1.points@, res.1.evals@);
            let (us2, ws2, found2, d2, fe2, se2, ce2) = choose|
                us2: Seq<int>,
                ws2: Seq<int>,
                found2: OpeningOutcomes,
                d2: QueriesRead<H::Output>,
                fe2: Seq<Event<H::Output>>,
                se2: Seq<Event<H::Output>>,
                ce2: Seq<Event<H::Output>>,
            |
                (#[trigger] opening_verified::<F, H, C>(
                    vp,
                    root,
                    rc,
                    rw,
                    z_right,
                    value,
                    res.2,
                    us2,
                    ws2,
                    found2,
                    d2,
                    seen,
                    log0,
                    fe2,
                    se2,
                    ce2,
                    read,
                )) && res.0 == found2.all();
            same_proof_same_opening::<F, H, C>(
                vp,
                root,
                rc,
                rw,
                z_right,
                value,
                out,
                us,
                ws,
                found,
                d,
                set,
                first_end,
                second_end,
                columns_end,
                written,
                res.2,
                us2,
                ws2,
                found2,
                d2,
                seen,
                fe2,
                se2,
                ce2,
                read,
                log0,
                fields,
                digests,
            );
        }
    }
}

/// What an honest prover wrote to open a point is accepted: a verifier that reads
/// the messages of the proof behind the same steps leaves the prover's claims.
pub proof fn honest_opening_proof_is_accepted<F: PrimeField, H: HashFunction, C>(
    pp: QABaseProverParams<F, C>,
    vp: QABaseVerifierParams<F, C>,
    comm: QABaseCommitment<H, Vec<Vec<F>>>,
    rows: Seq<Seq<int>>,
    folded: QABaseFoldedWitness<F>,
    eval: QABaseEvalWitness<F>,
    z_right: Seq<int>,
    value: int,
    out: FullOpenProved<F>,
    challenges: Seq<int>,
    log0: Seq<Event<H::Output>>,
    first_end: Seq<Event<H::Output>>,
    second_end: Seq<Event<H::Output>>,
    columns_end: Seq<Event<H::Output>>,
    written: Seq<Event<H::Output>>,
    read: Seq<Event<H::Output>>,
    fields: Seq<int>,
    digests: Seq<H::Output>,
    r: Result<(bool, QABaseVerifierOpeningAccumulator<F, C>, FullOpenRead<F>), Error>,
)
    requires
        pp.wf(),
        vp.num_vars == pp.num_vars,
        vp.num_rows == pp.num_rows,
        vp.inverse_rate == pp.inverse_rate,
        vp.num_queries == pp.num_queries,
        5 * pp.inverse_rate <= usize::MAX,
        rows.len() == pp.num_rows,
        rect(rows, exp2(pp.num_vars as nat)),
        mat(comm.codeword@) == encode_rows::<F>(rows, pp.qa_params.coeffs()),
        tree_over::<H, F>(
            comm.codeword_tree@,
            mat(comm.codeword@),
            (pp.inverse_rate * exp2(pp.num_vars as nat)) as nat,
        ),
        folded.of(rows, pp.qa_params.coeffs(), exp2(pp.num_vars as nat)),
        eval.of(rows, pp.qa_params.coeffs(), exp2(pp.num_vars as nat)),
        eval.row_weights@.len() == pp.num_rows,
        opening_proved::<F, H, C>(
            pp,
            comm,
            vals(folded.row_challenges@),
            vals(folded.folded_msg@),
            vals(eval.row_weights@),
            vals(eval.eval_msg@),
            out,
            challenges,
            log0,
            first_end,
            second_end,
            columns_end,
            written,
        ),
        opening_verdict::<F, H, C>(
            vp,
            comm.root_spec(),
            vals(folded.row_challenges@),
            vals(eval.row_weights@),
            z_right,
            value,
            log0,
            read,
            r,
        ),
        follows::<F, H>(written, fields, digests),
        follows::<F, H>(read, fields, digests),
        read.len() > 0 && read.last() is NoField ==> fields_in(read).len() == fields.len(),
        read.len() > 0 && read.last() is NoDigest ==> digests_in(read).len() == digests.len(),
    ensures
        r is Ok,
        r->Ok_0.0,
        read == written,
        claim_set(r->Ok_0.1.points@, r->Ok_0.1.evals@) == no_claims().append_claims(
            opening_claims(
                pp.inverse_rate,
                out.encoding_relations,
                scaled_values::<F>(
                    out.encoding_relations,
                    vals(folded.folded_msg@),
                    pp.qa_params.coeffs(),
                ),
                out.eval_encoding_relations,
                scaled_values::<F>(
                    out.eval_encoding_relations,
                    vals(eval.eval_msg@),
                    pp.qa_params.coeffs(),
                ),
                vals(out.item1.sc_point@).take(pp.num_vars as int),
                vals(out.item1.u_block_evals_at_sc_point@),
                vals(out.eval_item1.sc_point@).take(pp.num_vars as int),
                vals(out.eval_item1.q_block_evals_at_sc_point@),
                z_right,
                value,
            ),
        ),
{
    let e = pp.qa_params.coeffs();
    let (rc, rw) = (vals(folded.row_challenges@), vals(eval.row_weights@));
    let us = scaled_values::<F>(out.encoding_relations, vals(folded.folded_msg@), e);
    let ws = scaled_values::<F>(out.eval_encoding_relations, vals(eval.eval_msg@), e);
    let set = no_claims().append_claims(
        opening_claims(
            pp.inverse_rate,
            out.encoding_relations,
            us,
            out.eval_encoding_relations,
            ws,
            vals(out.item1.sc_point@).take(pp.num_vars as int),
            vals(out.item1.u_block_evals_at_sc_point@),
            vals(out.eval_item1.sc_point@).take(pp.num_vars as int),
            vals(out.eval_item1.q_block_evals_at_sc_point@),
            z_right,
            value,
        ),
    );
    honest_opening_is_accepted::<F, H, C>(
        pp,
        vp,
        comm,
        rows,
        folded,
        eval,
        z_right,
        value,
        out,
        challenges,
        log0,
        first_end,
        second_end,
        columns_end,
        written,
    );
    let (found, d) = choose|found: OpeningOutcomes, d: QueriesRead<H::Output>|
        found.all() && #[trigger] opening_verified::<F, H, C>(
            vp,
            comm.root_spec(),
            rc,
            rw,
            z_right,
            value,
            opening_as_read(out),
            us,
            ws,
            found,
            d,
            set,
            log0,
            first_end,
            second_end,
            columns_end,
            written,
        );
    accepted_point_is_accepted_again::<F, H, C>(
        vp,
        comm.root_spec(),
        rc,
        rw,
        z_right,
        value,
        opening_as_read(out),
        us,
        ws,
        found,
        d,
        set,
        log0,
        first_end,
        second_end,
        columns_end,
        written,
        read,
        fields,
        digests,
        r,
    );
}

} // verus!
