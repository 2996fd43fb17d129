//! What holds of a full opening that was written and is read.

use crate::claims::{claim_set, no_claims};
use crate::classic_sumcheck::sumcheck_went;
use crate::error::Error;
use crate::field::PrimeField;
use crate::hash::HashFunction;
use crate::linear::{mat, rect, vals};
use crate::mle::{eq_evals, exp2, log2};
use crate::qa_code::{encode_rows, is_pow2, walsh};
use crate::quasar::{
    residues, tree_over, QABaseCommitment, QABaseProverParams, QABaseVerifierParams,
    QACodewordColumns,
};
use crate::quasar_columns::{
    alternate, merged_claims, merged_digests, merged_fields, merged_sum_refused, merged_verified,
    queries_refused, queries_went, MergedColumns, MergedColumnsVerifier,
    QABaseMergedColumnConsistencyOutput, QueriesRead,
};
use crate::quasar_gkr::{
    endpoint_blocks, flat_split, gkr_claims, gkr_fields, gkr_verified, GkrChallenges, GkrInner,
    GkrOuter, QABaseTwoLayerGkrLayout, QABaseTwoLayerGkrProof, QABaseVerifierOpeningAccumulator,
};
use crate::quasar_open::{
    folded_inputs, full_claims, full_proved, full_rejected, full_verdict, full_verified, gkr_result,
    gkr_went, honest_full_opening_is_accepted, merged_result,
    QABaseFullOpenTwoLayerGkrVerifierOutput,
};
use crate::quasar_replay::{
    column_sum_is_not_refused, columns_are_not_refused, layers_are_not_refused, prefix_of_prefix,
    refused_extends, same_proof_same_columns, same_proof_same_layers, same_proof_values,
};
use crate::transcript::{digests_in, fields_in, follows, went, went_on, went_plain, Event};
use vstd::prelude::*;

verus! {

/// How many messages the merged check has.
proof fn merged_went<F: PrimeField, H: HashFunction, C>(
    ok: bool,
    cols: QABaseMergedColumnConsistencyOutput<F>,
    vp: QABaseVerifierParams<F, C>,
    root: H::Output,
    rc: Seq<int>,
    rw: Seq<int>,
    log0: Seq<Event<H::Output>>,
    log1: Seq<Event<H::Output>>,
)
    requires
        merged_result::<F, H, C>(ok, cols, vp, root, rc, rw, log0, log1),
    ensures
        went(log0, log1, merged_fields(vp), merged_digests(vp)),
{
    let (state, d, t, mid, end) = choose|
        state: MergedColumnsVerifier<F>,
        d: QueriesRead<H::Output>,
        t: int,
        mid: Seq<Event<H::Output>>,
        end: Seq<Event<H::Output>>,
    | #[trigger]
        merged_verified::<F, H, C>(
            ok,
            cols,
            vp,
            root,
            rc,
            rw,
            state,
            d,
            t,
            log0,
            mid,
            end,
            log1,
        );
    let q = (vp.num_queries as nat) * (vp.num_rows as nat);
    let m = merged_digests(vp);
    let sc = (vp.num_vars as nat) * 3;
    let last = alternate(vals(cols.proximity_block_evals@), vals(cols.evaluation_block_evals@));
    queries_went::<F, H, C>(vp, root, rc, rw, state, d, log0, mid);
    sumcheck_went::<F, H::Output>(
        vp.num_vars as nat,
        2,
        state.claimed_sum.val(),
        t,
        vals(cols.sc_point@),
        mid,
        end,
    );
    went_plain::<H::Output>(end, last, Seq::empty());
    went_on(log0, mid, end, q, m, sc, 0);
    went_on(log0, end, log1, q + sc, m, last.len(), 0);
}

/// The same values make the same claims.
proof fn same_values_same_claims<F: PrimeField>(
    layout1: QABaseTwoLayerGkrLayout,
    layout2: QABaseTwoLayerGkrLayout,
    p1: QABaseTwoLayerGkrProof<F>,
    p2: QABaseTwoLayerGkrProof<F>,
    cols1: QABaseMergedColumnConsistencyOutput<F>,
    cols2: QABaseMergedColumnConsistencyOutput<F>,
    ch1: GkrChallenges<F>,
    ch2: GkrChallenges<F>,
    n: nat,
    z_right: Seq<int>,
    value: int,
)
    requires
        layout1.wf(),
        layout2.wf(),
        layout1.rho == layout2.rho,
        layout1.num_instances == 2,
        layout2.num_instances == 2,
        ch1.wf(2, (layout1.rho - 1) as nat, n),
        ch2.wf(2, (layout1.rho - 1) as nat, n),
        p1.drawn_as(ch1),
        p2.drawn_as(ch2),
        p1.output_evals_at_gammas@.len() == 2,
        p2.output_evals_at_gammas@.len() == 2,
        rect(mat(p1.output_evals_at_gammas@), (layout1.rho - 1) as nat),
        rect(mat(p2.output_evals_at_gammas@), (layout1.rho - 1) as nat),
        p1.input_evals_at_inner_point@.len() == 2,
        p2.input_evals_at_inner_point@.len() == 2,
        p1.e_evals_at_outer_point@.len() == layout1.rho - 1,
        p2.e_evals_at_outer_point@.len() == layout1.rho - 1,
        same_proof_values(p1, p2, 2),
        vals(cols1.sc_point@) == vals(cols2.sc_point@),
        vals(cols1.proximity_block_evals@) == vals(cols2.proximity_block_evals@),
        vals(cols1.evaluation_block_evals@) == vals(cols2.evaluation_block_evals@),
    ensures
        full_claims(layout1, p1, cols1, z_right, value) == full_claims(
            layout2,
            p2,
            cols2,
            z_right,
            value,
        ),
{
    let np = layout1.rho - 1;
    let (a, b) = (gkr_claims(layout1, p1), gkr_claims(layout2, p2));
    assert(2 * np + 2 + np == a.len());
    assert(a.len() == b.len());
    assert forall|i: int| 0 <= i < a.len() implies a[i] == b[i] by {
        if i < 2 * np {
            flat_split(i, 2, np);
            let (k, t) = (i / np, i % np);
            assert(mat(p1.gammas@[k]@) == mat(p2.gammas@[k]@));
            assert(mat(p1.gammas@[k]@)[t] == vals(p1.gammas@[k]@[t]@));
            assert(mat(p2.gammas@[k]@)[t] == vals(p2.gammas@[k]@[t]@));
            let (o1, o2) = (mat(p1.output_evals_at_gammas@), mat(p2.output_evals_at_gammas@));
            assert(o1[k] == o2[k]);
            assert(o1[k].len() == np && o2[k].len() == np);
            assert(o1[k][t] == p1.output_evals_at_gammas@[k]@[t].val());
            assert(o2[k][t] == p2.output_evals_at_gammas@[k]@[t].val());
        } else if i < 2 * np + 2 {
            let k = i - 2 * np;
            assert(vals(p1.input_evals_at_inner_point@)[k] == vals(
                p2.input_evals_at_inner_point@,
            )[k]);
        } else {
            let t = i - 2 * np - 2;
            assert(vals(p1.e_evals_at_outer_point@)[t] == vals(p2.e_evals_at_outer_point@)[t]);
        }
    }
    assert(a =~= b);
    let (c, d) = (
        merged_claims(
            layout1,
            vals(cols1.sc_point@),
            vals(cols1.proximity_block_evals@),
            vals(cols1.evaluation_block_evals@),
        ),
        merged_claims(
            layout2,
            vals(cols2.sc_point@),
            vals(cols2.proximity_block_evals@),
            vals(cols2.evaluation_block_evals@),
        ),
    );
    assert(c =~= d);
}

/// One verifier accepted a full opening. Another one that goes through the same
/// proof behind the same steps, and does not run out of messages, leaves the same
/// claims.
#[verifier::rlimit(60)]
#[verifier::spinoff_prover]
pub proof fn accepted_opening_is_accepted_again<F: PrimeField, H: HashFunction, C>(
    vp: QABaseVerifierParams<F, C>,
    root: H::Output,
    rc: Seq<int>,
    rw: Seq<int>,
    blocks: Seq<C>,
    z_right: Seq<int>,
    value: int,
    layout: QABaseTwoLayerGkrLayout,
    p: QABaseTwoLayerGkrProof<F>,
    cols: QABaseMergedColumnConsistencyOutput<F>,
    log0: Seq<Event<H::Output>>,
    gkr_end: Seq<Event<H::Output>>,
    written: Seq<Event<H::Output>>,
    read: Seq<Event<H::Output>>,
    fields: Seq<int>,
    digests: Seq<H::Output>,
    r: Result<
        (Option<QABaseVerifierOpeningAccumulator<F, C>>, QABaseFullOpenTwoLayerGkrVerifierOutput),
        Error,
    >,
)
    requires
        vp.inverse_rate >= 2,
        layout.wf(),
        layout.rho == vp.inverse_rate,
        layout.num_instances == 2,
        full_verified::<F, H, C>(vp, root, rc, rw, p, cols, log0, gkr_end, written),
        full_verdict::<F, H, C>(vp, root, rc, rw, blocks, z_right, value, log0, read, r),
        follows::<F, H>(written, fields, digests),
        follows::<F, H>(read, fields, digests),
        read.len() > 0 && read.last() is NoField ==> fields_in(read).len() == fields.len(),
        read.len() > 0 && read.last() is NoDigest ==> digests_in(read).len() == digests.len(),
    ensures
        r is Ok,
        r->Ok_0.0 is Some,
        read == written,
        r->Ok_0.1.query_indices@ == cols.query_indices@,
        claim_set(r->Ok_0.0->Some_0.points@, r->Ok_0.0->Some_0.evals@) == no_claims().add_claims(
            full_claims(layout, p, cols, z_right, value),
        ),
{
    let n = vp.num_vars as nat;
    let np = (vp.inverse_rate - 1) as nat;
    let (ch, oe, ie) = choose|
        ch: GkrChallenges<F>,
        oe: Seq<Event<H::Output>>,
        ie: Seq<Event<H::Output>>,
    | #[trigger]
        gkr_verified::<F, H::Output>(true, p, ch, n, 2, np, log0, oe, ie, gkr_end);
    let (state, d, t, mid, end) = choose|
        state: MergedColumnsVerifier<F>,
        d: QueriesRead<H::Output>,
        t: int,
        mid: Seq<Event<H::Output>>,
        end: Seq<Event<H::Output>>,
    | #[trigger]
        merged_verified::<F, H, C>(
            true,
            cols,
            vp,
            root,
            rc,
            rw,
            state,
            d,
            t,
            gkr_end,
            mid,
            end,
            written,
        );
    gkr_went::<F, H::Output, C>(true, p, vp, log0, gkr_end);
    merged_went::<F, H, C>(true, cols, vp, root, rc, rw, gkr_end, written);
    let first = gkr_fields(n, 2, np);
    went_on(log0, gkr_end, written, first, 0, merged_fields(vp), merged_digests(vp));
    sumcheck_went::<F, H::Output>(
        n,
        2,
        state.claimed_sum.val(),
        t,
        vals(cols.sc_point@),
        mid,
        end,
    );
    prefix_of_prefix(mid, end, written);
    layers_are_not_refused::<F, H>(
        true,
        p,
        ch,
        oe,
        ie,
        gkr_end,
        n,
        2,
        np,
        log0,
        written,
        read,
        fields,
        digests,
    );
    if r is Err {
        let (p2, gkr_end2, state2, d2, mid2) = choose|
            p2: QABaseTwoLayerGkrProof<F>,
            gkr_end2: Seq<Event<H::Output>>,
            state2: MergedColumnsVerifier<F>,
            d2: QueriesRead<H::Output>,
            mid2: Seq<Event<H::Output>>,
        |
            (#[trigger] gkr_result::<F, H::Output, C>(true, p2, vp, log0, gkr_end2))
                && #[trigger] merged_sum_refused::<F, H, C>(
                vp,
                root,
                rc,
                rw,
                state2,
                d2,
                gkr_end2,
                mid2,
                read,
            );
        queries_went::<F, H, C>(vp, root, rc, rw, state2, d2, gkr_end2, mid2);
        refused_extends::<F, H::Output>(n, 2, state2.claimed_sum.val(), mid2, read);
        prefix_of_prefix(gkr_end2, mid2, read);
        again_layers::<F, H, C>(
            vp,
            true,
            p,
            ch,
            oe,
            ie,
            true,
            p2,
            log0,
            gkr_end,
            gkr_end2,
            written,
            read,
            fields,
            digests,
        );
        column_sum_is_not_refused::<F, H, C>(
            true,
            cols,
            state,
            d,
            t,
            mid,
            end,
            state2,
            d2,
            mid2,
            vp,
            root,
            rc,
            rw,
            gkr_end,
            written,
            read,
            fields,
            digests,
        );
    } else if r->Ok_0.0 is None {
        assert(full_rejected::<F, H, C>(vp, root, rc, rw, log0, read));
        if exists|p2: QABaseTwoLayerGkrProof<F>| #[trigger]
            gkr_result::<F, H::Output, C>(false, p2, vp, log0, read) {
            let p2 = choose|p2: QABaseTwoLayerGkrProof<F>| #[trigger]
                gkr_result::<F, H::Output, C>(false, p2, vp, log0, read);
            again_layers::<F, H, C>(
                vp,
                true,
                p,
                ch,
                oe,
                ie,
                false,
                p2,
                log0,
                gkr_end,
                read,
                written,
                read,
                fields,
                digests,
            );
        } else if exists|
            p2: QABaseTwoLayerGkrProof<F>,
            gkr_end2: Seq<Event<H::Output>>,
            d2: QueriesRead<H::Output>,
            k: nat,
        |
            (#[trigger] gkr_result::<F, H::Output, C>(true, p2, vp, log0, gkr_end2))
                && #[trigger] queries_refused::<F, H, C>(vp, root, d2, k, gkr_end2, read) {
            let (p2, gkr_end2, d2, k) = choose|
                p2: QABaseTwoLayerGkrProof<F>,
                gkr_end2: Seq<Event<H::Output>>,
                d2: QueriesRead<H::Output>,
                k: nat,
            |
                (#[trigger] gkr_result::<F, H::Output, C>(true, p2, vp, log0, gkr_end2))
                    && #[trigger] queries_refused::<F, H, C>(vp, root, d2, k, gkr_end2, read);
            assert(gkr_end2.is_prefix_of(read));
            again_layers::<F, H, C>(
                vp,
                true,
                p,
                ch,
                oe,
                ie,
                true,
                p2,
                log0,
                gkr_end,
                gkr_end2,
                written,
                read,
                fields,
                digests,
            );
            columns_are_not_refused::<F, H, C>(
                vp,
                root,
                rc,
                rw,
                state,
                d,
                mid,
                d2,
                k,
                gkr_end,
                written,
                read,
                fields,
                digests,
            );
        } else {
            let (p2, gkr_end2, cols2) = choose|
                p2: QABaseTwoLayerGkrProof<F>,
                gkr_end2: Seq<Event<H::Output>>,
                cols2: QABaseMergedColumnConsistencyOutput<F>,
            |
                (#[trigger] gkr_result::<F, H::Output, C>(true, p2, vp, log0, gkr_end2))
                    && #[trigger] merged_result::<F, H, C>(
                    false,
                    cols2,
                    vp,
                    root,
                    rc,
                    rw,
                    gkr_end2,
                    read,
                );
            merged_went::<F, H, C>(false, cols2, vp, root, rc, rw, gkr_end2, read);
            again_layers::<F, H, C>(
                vp,
                true,
                p,
                ch,
                oe,
                ie,
                true,
                p2,
                log0,
                gkr_end,
                gkr_end2,
                written,
                read,
                fields,
                digests,
            );
            again_columns::<F, H, C>(
                vp,
                root,
                rc,
                rw,
                cols,
                state,
                d,
                t,
                mid,
                end,
                false,
                cols2,
                gkr_end,
                written,
                read,
                fields,
                digests,
            );
        }
    } else {
        let acc = r->Ok_0.0->Some_0;
        let (layout2, p2, cols2, gkr_end2) = choose|
            layout2: QABaseTwoLayerGkrLayout,
            p2: QABaseTwoLayerGkrProof<F>,
            cols2: QABaseMergedColumnConsistencyOutput<F>,
            gkr_end2: Seq<Event<H::Output>>,
        |
            {
                &&& layout2.wf()
                &&& layout2.rho == vp.inverse_rate
                &&& layout2.num_instances == 2
                &&& #[trigger] full_verified::<F, H, C>(
                    vp,
                    root,
                    rc,
                    rw,
                    p2,
                    cols2,
                    log0,
                    gkr_end2,
                    read,
                )
                &&& #[trigger] crate::quasar_open::full_read(
                    acc,
                    r->Ok_0.1,
                    vp,
                    blocks,
                    full_claims(layout2, p2, cols2, z_right, value),
                    cols2.query_indices@,
                )
            };
        merged_went::<F, H, C>(true, cols2, vp, root, rc, rw, gkr_end2, read);
        let ch2 = again_layers::<F, H, C>(
            vp,
            true,
            p,
            ch,
            oe,
            ie,
            true,
            p2,
            log0,
            gkr_end,
            gkr_end2,
            written,
            read,
            fields,
            digests,
        );
        again_columns::<F, H, C>(
            vp,
            root,
            rc,
            rw,
            cols,
            state,
            d,
            t,
            mid,
            end,
            true,
            cols2,
            gkr_end,
            written,
            read,
            fields,
            digests,
        );
        same_values_same_claims(
            layout,
            layout2,
            p,
            p2,
            cols,
            cols2,
            ch,
            ch2,
            n,
            z_right,
            value,
        );
    }
}

/// The two layers, once more.
proof fn again_layers<F: PrimeField, H: HashFunction, C>(
    vp: QABaseVerifierParams<F, C>,
    ok1: bool,
    p1: QABaseTwoLayerGkrProof<F>,
    ch1: GkrChallenges<F>,
    oe1: Seq<Event<H::Output>>,
    ie1: Seq<Event<H::Output>>,
    ok2: bool,
    p2: QABaseTwoLayerGkrProof<F>,
    log0: Seq<Event<H::Output>>,
    a1: Seq<Event<H::Output>>,
    b1: Seq<Event<H::Output>>,
    a: Seq<Event<H::Output>>,
    b: Seq<Event<H::Output>>,
    fields: Seq<int>,
    digests: Seq<H::Output>,
) -> (ch2: GkrChallenges<F>)
    requires
        vp.inverse_rate >= 2,
        gkr_verified::<F, H::Output>(
            ok1,
            p1,
            ch1,
            vp.num_vars as nat,
            2,
            (vp.inverse_rate - 1) as nat,
            log0,
            oe1,
            ie1,
            a1,
        ),
        gkr_result::<F, H::Output, C>(ok2, p2, vp, log0, b1),
        a1.is_prefix_of(a),
        b1.is_prefix_of(b),
        follows::<F, H>(a, fields, digests),
        follows::<F, H>(b, fields, digests),
    ensures
        ok1 == ok2,
        a1 == b1,
        same_proof_values(p1, p2, 2),
        ch2.wf(2, (vp.inverse_rate - 1) as nat, vp.num_vars as nat),
        p2.drawn_as(ch2),
        p2.output_evals_at_gammas@.len() == 2,
        rect(mat(p2.output_evals_at_gammas@), (vp.inverse_rate - 1) as nat),
        p2.input_evals_at_inner_point@.len() == 2,
        p2.e_evals_at_outer_point@.len() == vp.inverse_rate - 1,
{
    let n = vp.num_vars as nat;
    let np = (vp.inverse_rate - 1) as nat;
    let (ch2, oe2, ie2) = choose|
        ch2: GkrChallenges<F>,
        oe2: Seq<Event<H::Output>>,
        ie2: Seq<Event<H::Output>>,
    | #[trigger]
        gkr_verified::<F, H::Output>(ok2, p2, ch2, n, 2, np, log0, oe2, ie2, b1);
    same_proof_same_layers::<F, H>(
        ok1,
        p1,
        ch1,
        oe1,
        ie1,
        a1,
        ok2,
        p2,
        ch2,
        oe2,
        ie2,
        b1,
        n,
        2,
        np,
        log0,
        a,
        b,
        fields,
        digests,
    );
    ch2
}

/// The merged check, once more.
proof fn again_columns<F: PrimeField, H: HashFunction, C>(
    vp: QABaseVerifierParams<F, C>,
    root: H::Output,
    rc: Seq<int>,
    rw: Seq<int>,
    cols: QABaseMergedColumnConsistencyOutput<F>,
    state: MergedColumnsVerifier<F>,
    d: QueriesRead<H::Output>,
    t: int,
    mid: Seq<Event<H::Output>>,
    end: Seq<Event<H::Output>>,
    ok2: bool,
    cols2: QABaseMergedColumnConsistencyOutput<F>,
    log0: Seq<Event<H::Output>>,
    a: Seq<Event<H::Output>>,
    b: Seq<Event<H::Output>>,
    fields: Seq<int>,
    digests: Seq<H::Output>,
)
    requires
        merged_verified::<F, H, C>(
            true,
            cols,
            vp,
            root,
            rc,
            rw,
            state,
            d,
            t,
            log0,
            mid,
            end,
            a,
        ),
        merged_result::<F, H, C>(ok2, cols2, vp, root, rc, rw, log0, b),
        follows::<F, H>(a, fields, digests),
        follows::<F, H>(b, fields, digests),
    ensures
        ok2,
        a == b,
        cols.query_indices@ == cols2.query_indices@,
        vals(cols.sc_point@) == vals(cols2.sc_point@),
        vals(cols.proximity_block_evals@) == vals(cols2.proximity_block_evals@),
        vals(cols.evaluation_block_evals@) == vals(cols2.evaluation_block_evals@),
{
    let (state2, d2, t2, mid2, end2) = choose|
        state2: MergedColumnsVerifier<F>,
        d2: QueriesRead<H::Output>,
        t2: int,
        mid2: Seq<Event<H::Output>>,
        end2: Seq<Event<H::Output>>,
    | #[trigger]
        merged_verified::<F, H, C>(
            ok2,
            cols2,
            vp,
            root,
            rc,
            rw,
            state2,
            d2,
            t2,
            log0,
            mid2,
            end2,
            b,
        );
    same_proof_same_columns::<F, H, C>(
        true,
        cols,
        state,
        d,
        t,
        mid,
        end,
        a,
        ok2,
        cols2,
        state2,
        d2,
        t2,
        mid2,
        end2,
        b,
        vp,
        root,
        rc,
        rw,
        log0,
        fields,
        digests,
    );
}

/// What an honest prover wrote is accepted: a verifier that reads the messages of
/// the proof behind the same steps passes all checks, and leaves the claims that
/// the prover leaves.
pub proof fn honest_full_proof_is_accepted<
    F: PrimeField,
    H: HashFunction,
    C,
    W: QACodewordColumns<F>,
>(
    pp: QABaseProverParams<F, C>,
    vp: QABaseVerifierParams<F, C>,
    comm: QABaseCommitment<H, W>,
    rows: Seq<Seq<int>>,
    polys: Seq<Seq<int>>,
    middles: Seq<Seq<int>>,
    layout: QABaseTwoLayerGkrLayout,
    row_challenges: Seq<int>,
    z_left: Seq<int>,
    z_right: Seq<int>,
    value: int,
    blocks: Seq<C>,
    p: QABaseTwoLayerGkrProof<F>,
    outer: GkrOuter<F>,
    inner: GkrInner<F>,
    cols: QABaseMergedColumnConsistencyOutput<F>,
    state: MergedColumns<F>,
    log0: Seq<Event<H::Output>>,
    gkr_end: Seq<Event<H::Output>>,
    mid: Seq<Event<H::Output>>,
    written: Seq<Event<H::Output>>,
    read: Seq<Event<H::Output>>,
    fields: Seq<int>,
    digests: Seq<H::Output>,
    r: Result<
        (Option<QABaseVerifierOpeningAccumulator<F, C>>, QABaseFullOpenTwoLayerGkrVerifierOutput),
        Error,
    >,
)
    requires
        pp.wf(),
        is_pow2(pp.num_rows as int),
        vp.num_vars == pp.num_vars,
        vp.num_rows == pp.num_rows,
        vp.inverse_rate == pp.inverse_rate,
        vp.num_queries == pp.num_queries,
        3 * pp.inverse_rate <= usize::MAX,
        rows.len() == pp.num_rows,
        z_left.len() == log2(pp.num_rows as int),
        rect(rows, exp2(pp.num_vars as nat)),
        residues::<F>(comm.codeword.encoded()) == encode_rows::<F>(rows, pp.qa_params.coeffs()),
        tree_over::<H, F>(
            comm.codeword_tree@,
            residues::<F>(comm.codeword.encoded()),
            (pp.inverse_rate * exp2(pp.num_vars as nat)) as nat,
        ),
        row_challenges.len() == pp.num_rows,
        endpoint_blocks::<F>(
            polys,
            folded_inputs::<F>(rows, row_challenges, z_left, exp2(pp.num_vars as nat)),
            pp.qa_params.coeffs(),
        ),
        rect(polys, exp2(pp.num_vars as nat)),
        middles == Seq::new(
            2,
            |b: int|
                walsh::<F>(
                    folded_inputs::<F>(rows, row_challenges, z_left, exp2(pp.num_vars as nat))[b],
                ),
        ),
        full_proved::<F, H, C, W>(
            pp,
            comm,
            polys,
            middles,
            layout,
            row_challenges,
            eq_evals::<F>(z_left),
            p,
            outer,
            inner,
            cols,
            state,
            log0,
            gkr_end,
            mid,
            written,
        ),
        full_verdict::<F, H, C>(
            vp,
            comm.root_spec(),
            row_challenges,
            eq_evals::<F>(z_left),
            blocks,
            z_right,
            value,
            log0,
            read,
            r,
        ),
        follows::<F, H>(written, fields, digests),
        follows::<F, H>(read, fields, digests),
        read.len() > 0 && read.last() is NoField ==> fields_in(read).len() == fields.len(),
        read.len() > 0 && read.last() is NoDigest ==> digests_in(read).len() == digests.len(),
    ensures
        r is Ok,
        r->Ok_0.0 is Some,
        read == written,
        r->Ok_0.1.query_indices@ == cols.query_indices@,
        claim_set(r->Ok_0.0->Some_0.points@, r->Ok_0.0->Some_0.evals@) == no_claims().add_claims(
            full_claims(layout, p, cols, z_right, value),
        ),
{
    honest_full_opening_is_accepted::<F, H, C, W>(
        pp,
        vp,
        comm,
        rows,
        polys,
        middles,
        layout,
        row_challenges,
        z_left,
        p,
        outer,
        inner,
        cols,
        state,
        log0,
        gkr_end,
        mid,
        written,
    );
    accepted_opening_is_accepted_again::<F, H, C>(
        vp,
        comm.root_spec(),
        row_challenges,
        eq_evals::<F>(z_left),
        blocks,
        z_right,
        value,
        layout,
        p,
        cols,
        log0,
        gkr_end,
        written,
        read,
        fields,
        digests,
        r,
    );
}

} // verus!
