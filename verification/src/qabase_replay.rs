//! What was written about encodings and columns is accepted when it is read.

use crate::classic_sumcheck::{sumcheck_refused, sumcheck_verified, sumcheck_went};
use crate::field::{index_of, word_bytes, PrimeField};
use crate::hash::HashFunction;
use crate::linear::{flatten, ints, mat, rect, vals};
use crate::merkle::{climb, leaf};
use crate::mle::{exp2, log2};
use crate::qa_code::flatten_len;
use crate::qabase::{
    encoding_claims, encoding_read, encoding_refused, scaling_went,
    QABaseEncodingRelationsBatchedWhtProof, QABaseEvalAuxLayout,
};
use crate::qabase_columns::{
    columns_fit, item1_read, item1_refused, item1_sumcheck_refused, item1_verified, queries_read,
    selector_read, selector_went, Item1VerifierStart, QABaseItem1VerifierOutput,
};
use crate::qabase_open::encoding_checked;
use crate::qabase_relations::{
    batch_value, scaling_read, wht_read, wht_refused, QABaseBatchedWhtRelationProof,
    QABaseScalingRelationProof,
};
use crate::quasar::QABaseVerifierParams;
use crate::quasar_columns::{column_events, columns_authentic, QueriesRead};
use crate::quasar_replay::{
    column_events_alike, column_events_cut, flatten_injective, ints_injective, prefix_of_prefix,
    refused_extends,
};
use crate::sumcheck_replay::{accepted_is_not_refused, same_proof_same_end};
use crate::transcript::{
    alike_concat, alike_plain, drawn, follows, same_proof_same_portion, sent_fields, Event,
};
use vstd::prelude::*;

verus! {

/// The steps before the sum-check of the transform relations.
pub open spec fn wht_begin<O>(eta: int, gammas: Seq<Seq<int>>, ys: Seq<int>) -> Seq<Event<O>> {
    drawn::<O>(seq![eta]) + drawn::<O>(flatten(gammas)) + sent_fields::<O>(ys)
}

/// Two verifiers that go through one proof behind the same steps draw the same
/// points and read the same outputs.
proof fn same_proof_same_outputs<F: PrimeField, H: HashFunction>(
    eta1: int,
    gammas1: Seq<Seq<int>>,
    ys1: Seq<int>,
    eta2: int,
    gammas2: Seq<Seq<int>>,
    ys2: Seq<int>,
    n: nat,
    k: nat,
    log0: Seq<Event<H::Output>>,
    a: Seq<Event<H::Output>>,
    b: Seq<Event<H::Output>>,
    fields: Seq<int>,
    digests: Seq<H::Output>,
)
    requires
        gammas1.len() == k,
        gammas2.len() == k,
        rect(gammas1, n),
        rect(gammas2, n),
        ys1.len() == k,
        ys2.len() == k,
        (log0 + drawn(seq![eta1]) + drawn(flatten(gammas1)) + sent_fields(ys1)).is_prefix_of(a),
        (log0 + drawn(seq![eta2]) + drawn(flatten(gammas2)) + sent_fields(ys2)).is_prefix_of(b),
        follows::<F, H>(a, fields, digests),
        follows::<F, H>(b, fields, digests),
    ensures
        eta1 == eta2,
        gammas1 == gammas2,
        ys1 == ys2,
{
    let (u1, u2) = (seq![eta1], seq![eta2]);
    let (v1, v2) = (flatten(gammas1), flatten(gammas2));
    let (x1, x2) = (drawn::<H::Output>(u1), drawn::<H::Output>(u2));
    let (y1, y2) = (drawn::<H::Output>(v1), drawn::<H::Output>(v2));
    let (z1, z2) = (sent_fields::<H::Output>(ys1), sent_fields::<H::Output>(ys2));
    flatten_len(gammas1, n);
    flatten_len(gammas2, n);
    alike_plain::<H::Output>(u1, u2, Seq::empty(), Seq::empty());
    alike_plain::<H::Output>(v1, v2, Seq::empty(), Seq::empty());
    alike_plain::<H::Output>(ys1, ys2, Seq::empty(), Seq::empty());
    alike_concat(x1, y1, x2, y2);
    alike_concat(x1 + y1, z1, x2 + y2, z2);
    assert(log0 + wht_begin::<H::Output>(eta1, gammas1, ys1) =~= log0 + x1 + y1 + z1);
    assert(log0 + wht_begin::<H::Output>(eta2, gammas2, ys2) =~= log0 + x2 + y2 + z2);
    same_proof_same_portion::<F, H>(
        log0,
        wht_begin::<H::Output>(eta1, gammas1, ys1),
        wht_begin::<H::Output>(eta2, gammas2, ys2),
        a,
        b,
        fields,
        digests,
    );
    assert(u1[0] == u2[0]);
    flatten_injective(gammas1, gammas2, n);
}

/// Proofs of the transform relations hold the same values where claims are made.
pub open spec fn same_wht_values<F: PrimeField>(
    p: QABaseBatchedWhtRelationProof<F>,
    q: QABaseBatchedWhtRelationProof<F>,
) -> bool {
    &&& mat(p.gammas@) == mat(q.gammas@)
    &&& vals(p.output_evals_at_gammas@) == vals(q.output_evals_at_gammas@)
    &&& vals(p.sc_point@) == vals(q.sc_point@)
    &&& vals(p.input_evals_at_sc_point@) == vals(q.input_evals_at_sc_point@)
}

/// Two verifiers of the transform relations that go through one proof behind the
/// same steps end in the same way.
#[verifier::rlimit(60)]
#[verifier::spinoff_prover]
pub proof fn same_proof_same_transforms<F: PrimeField, H: HashFunction>(
    p1: QABaseBatchedWhtRelationProof<F>,
    ok1: bool,
    a1: Seq<Event<H::Output>>,
    p2: QABaseBatchedWhtRelationProof<F>,
    ok2: bool,
    b1: Seq<Event<H::Output>>,
    n: nat,
    k: nat,
    log0: Seq<Event<H::Output>>,
    a: Seq<Event<H::Output>>,
    b: Seq<Event<H::Output>>,
    fields: Seq<int>,
    digests: Seq<H::Output>,
)
    requires
        wht_read::<F, H::Output>(p1, ok1, n, k, log0, a1),
        wht_read::<F, H::Output>(p2, ok2, n, k, log0, b1),
        a1.is_prefix_of(a),
        b1.is_prefix_of(b),
        follows::<F, H>(a, fields, digests),
        follows::<F, H>(b, fields, digests),
    ensures
        ok1 == ok2,
        a1 == b1,
        same_wht_values(p1, p2),
{
    let (eta1, eta2) = (p1.eta.val(), p2.eta.val());
    let (g1, g2) = (mat(p1.gammas@), mat(p2.gammas@));
    let (y1, y2) = (vals(p1.output_evals_at_gammas@), vals(p2.output_evals_at_gammas@));
    let (z1, z2) = (vals(p1.sc_point@), vals(p2.sc_point@));
    let (x1, x2) = (vals(p1.input_evals_at_sc_point@), vals(p2.input_evals_at_sc_point@));
    let (c1, c2) = (p1.claimed_sum.val(), p2.claimed_sum.val());
    let (t1, t2) = (p1.terminal_eval.val(), p2.terminal_eval.val());
    let s1 = log0 + drawn(seq![eta1]) + drawn(flatten(g1)) + sent_fields(y1);
    let s2 = log0 + drawn(seq![eta2]) + drawn(flatten(g2)) + sent_fields(y2);
    let m1 = choose|mid: Seq<Event<H::Output>>| #[trigger]
        sumcheck_verified::<F, H::Output>(n, 2, c1, t1, z1, s1, mid) && a1 == mid + sent_fields(
            x1,
        );
    let m2 = choose|mid: Seq<Event<H::Output>>| #[trigger]
        sumcheck_verified::<F, H::Output>(n, 2, c2, t2, z2, s2, mid) && b1 == mid + sent_fields(
            x2,
        );
    sumcheck_went::<F, H::Output>(n, 2, c1, t1, z1, s1, m1);
    sumcheck_went::<F, H::Output>(n, 2, c2, t2, z2, s2, m2);
    prefix_of_prefix(m1, a1, a);
    prefix_of_prefix(m2, b1, b);
    prefix_of_prefix(s1, m1, a);
    prefix_of_prefix(s2, m2, b);
    same_proof_same_outputs::<F, H>(
        eta1,
        g1,
        y1,
        eta2,
        g2,
        y2,
        n,
        k,
        log0,
        a,
        b,
        fields,
        digests,
    );
    same_proof_same_end::<F, H>(
        n,
        2,
        c1,
        t1,
        z1,
        t2,
        z2,
        s1,
        m1,
        m2,
        a,
        b,
        fields,
        digests,
    );
    alike_plain::<H::Output>(x1, x2, Seq::empty(), Seq::empty());
    same_proof_same_portion::<F, H>(
        m1,
        sent_fields::<H::Output>(x1),
        sent_fields::<H::Output>(x2),
        a,
        b,
        fields,
        digests,
    );
}

/// Proofs of the scaling relation hold the same values.
pub open spec fn same_scaling_values<F: PrimeField>(
    p: QABaseScalingRelationProof<F>,
    q: QABaseScalingRelationProof<F>,
) -> bool {
    &&& p.alpha.val() == q.alpha.val()
    &&& vals(p.sc_point@) == vals(q.sc_point@)
    &&& p.v_prime_eval_at_sc_point.val() == q.v_prime_eval_at_sc_point.val()
    &&& p.u_prime_batch_eval_at_sc_point.val() == q.u_prime_batch_eval_at_sc_point.val()
    &&& vals(p.e_evals_at_sc_point@) == vals(q.e_evals_at_sc_point@)
    &&& p.e_batch_eval_at_sc_point.val() == q.e_batch_eval_at_sc_point.val()
}

/// Two verifiers that go through one proof behind the same steps draw the same
/// challenges.
proof fn same_proof_same_challenges<F: PrimeField, H: HashFunction>(
    u1: Seq<int>,
    v1: Seq<int>,
    u2: Seq<int>,
    v2: Seq<int>,
    log0: Seq<Event<H::Output>>,
    a: Seq<Event<H::Output>>,
    b: Seq<Event<H::Output>>,
    fields: Seq<int>,
    digests: Seq<H::Output>,
)
    requires
        u1.len() == u2.len(),
        v1.len() == v2.len(),
        (log0 + drawn(u1) + drawn(v1)).is_prefix_of(a),
        (log0 + drawn(u2) + drawn(v2)).is_prefix_of(b),
        follows::<F, H>(a, fields, digests),
        follows::<F, H>(b, fields, digests),
    ensures
        u1 == u2,
        v1 == v2,
{
    let (x1, x2) = (drawn::<H::Output>(u1), drawn::<H::Output>(u2));
    let (y1, y2) = (drawn::<H::Output>(v1), drawn::<H::Output>(v2));
    alike_plain::<H::Output>(u1, u2, Seq::empty(), Seq::empty());
    alike_plain::<H::Output>(v1, v2, Seq::empty(), Seq::empty());
    alike_concat(x1, y1, x2, y2);
    assert(log0 + (x1 + y1) =~= log0 + x1 + y1);
    assert(log0 + (x2 + y2) =~= log0 + x2 + y2);
    same_proof_same_portion::<F, H>(log0, x1 + y1, x2 + y2, a, b, fields, digests);
}

/// Two verifiers of the scaling relation that go through one proof behind the
/// same steps end in the same way.
#[verifier::rlimit(60)]
#[verifier::spinoff_prover]
pub proof fn same_proof_same_scaling<F: PrimeField, H: HashFunction>(
    p1: QABaseScalingRelationProof<F>,
    ok1: bool,
    a1: Seq<Event<H::Output>>,
    p2: QABaseScalingRelationProof<F>,
    ok2: bool,
    b1: Seq<Event<H::Output>>,
    n: nat,
    k: nat,
    log0: Seq<Event<H::Output>>,
    a: Seq<Event<H::Output>>,
    b: Seq<Event<H::Output>>,
    fields: Seq<int>,
    digests: Seq<H::Output>,
)
    requires
        scaling_read::<F, H::Output>(p1, ok1, n, k, log0, a1),
        scaling_read::<F, H::Output>(p2, ok2, n, k, log0, b1),
        a1.is_prefix_of(a),
        b1.is_prefix_of(b),
        follows::<F, H>(a, fields, digests),
        follows::<F, H>(b, fields, digests),
    ensures
        ok1 == ok2,
        a1 == b1,
        same_scaling_values(p1, p2),
{
    let (u1, u2) = (seq![p1.alpha.val()], seq![p2.alpha.val()]);
    let (v1, v2) = (vals(p1.beta@), vals(p2.beta@));
    let (z1, z2) = (vals(p1.sc_point@), vals(p2.sc_point@));
    let (t1, t2) = (p1.terminal_eval.val(), p2.terminal_eval.val());
    let w1 = seq![p1.v_prime_eval_at_sc_point.val(), p1.u_prime_batch_eval_at_sc_point.val()];
    let w2 = seq![p2.v_prime_eval_at_sc_point.val(), p2.u_prime_batch_eval_at_sc_point.val()];
    let (e1, e2) = (vals(p1.e_evals_at_sc_point@), vals(p2.e_evals_at_sc_point@));
    let s1 = log0 + drawn(u1) + drawn(v1);
    let s2 = log0 + drawn(u2) + drawn(v2);
    let m1 = choose|mid: Seq<Event<H::Output>>| #[trigger]
        sumcheck_verified::<F, H::Output>(n, 3, 0, t1, z1, s1, mid) && a1 == mid + sent_fields(w1)
            + sent_fields(e1);
    let m2 = choose|mid: Seq<Event<H::Output>>| #[trigger]
        sumcheck_verified::<F, H::Output>(n, 3, 0, t2, z2, s2, mid) && b1 == mid + sent_fields(w2)
            + sent_fields(e2);
    let (x1, x2) = (sent_fields::<H::Output>(w1), sent_fields::<H::Output>(w2));
    let (y1, y2) = (sent_fields::<H::Output>(e1), sent_fields::<H::Output>(e2));
    sumcheck_went::<F, H::Output>(n, 3, 0, t1, z1, s1, m1);
    sumcheck_went::<F, H::Output>(n, 3, 0, t2, z2, s2, m2);
    prefix_of_prefix(m1, a1, a);
    prefix_of_prefix(m2, b1, b);
    prefix_of_prefix(s1, m1, a);
    prefix_of_prefix(s2, m2, b);
    same_proof_same_challenges::<F, H>(u1, v1, u2, v2, log0, a, b, fields, digests);
    assert(u1[0] == u2[0]);
    same_proof_same_end::<F, H>(
        n,
        3,
        0,
        t1,
        z1,
        t2,
        z2,
        s1,
        m1,
        m2,
        a,
        b,
        fields,
        digests,
    );
    alike_plain::<H::Output>(w1, w2, Seq::empty(), Seq::empty());
    alike_plain::<H::Output>(e1, e2, Seq::empty(), Seq::empty());
    alike_concat(x1, y1, x2, y2);
    assert(m1 + (x1 + y1) =~= m1 + x1 + y1);
    assert(m2 + (x2 + y2) =~= m2 + x2 + y2);
    same_proof_same_portion::<F, H>(m1, x1 + y1, x2 + y2, a, b, fields, digests);
    assert(w1[0] == w2[0] && w1[1] == w2[1]);
}

/// Two verifiers of an encoding that go through one proof behind the same steps
/// end in the same way.
#[verifier::rlimit(60)]
#[verifier::spinoff_prover]
pub proof fn same_proof_same_encoding<F: PrimeField, H: HashFunction>(
    p1: QABaseEncodingRelationsBatchedWhtProof<F>,
    us1: Seq<int>,
    ok1: bool,
    fit1: bool,
    a1: Seq<Event<H::Output>>,
    p2: QABaseEncodingRelationsBatchedWhtProof<F>,
    us2: Seq<int>,
    ok2: bool,
    fit2: bool,
    b1: Seq<Event<H::Output>>,
    n: nat,
    rho: nat,
    log0: Seq<Event<H::Output>>,
    a: Seq<Event<H::Output>>,
    b: Seq<Event<H::Output>>,
    fields: Seq<int>,
    digests: Seq<H::Output>,
)
    requires
        encoding_checked::<F, H::Output>(p1, us1, ok1, fit1, n, rho, log0, a1),
        encoding_checked::<F, H::Output>(p2, us2, ok2, fit2, n, rho, log0, b1),
        a1.is_prefix_of(a),
        b1.is_prefix_of(b),
        follows::<F, H>(a, fields, digests),
        follows::<F, H>(b, fields, digests),
    ensures
        ok1 == ok2,
        fit1 == fit2,
        a1 == b1,
        forall|layout: QABaseEvalAuxLayout| #[trigger]
            encoding_claims(layout, p1, us1) == encoding_claims(layout, p2, us2),
{
    let m1 = choose|mid: Seq<Event<H::Output>>| #[trigger]
        encoding_read::<F, H::Output>(p1, ok1, n, rho, log0, mid) && a1 == mid + sent_fields(us1);
    let m2 = choose|mid: Seq<Event<H::Output>>| #[trigger]
        encoding_read::<F, H::Output>(p2, ok2, n, rho, log0, mid) && b1 == mid + sent_fields(us2);
    prefix_of_prefix(m1, a1, a);
    prefix_of_prefix(m2, b1, b);
    let k = (rho - 1) as nat;
    let (e1, ow1, os1) = choose|mid: Seq<Event<H::Output>>, ow: bool, os: bool|
        {
            &&& #[trigger] wht_read::<F, H::Output>(p1.batched_wht, ow, n, rho, log0, mid)
            &&& #[trigger] scaling_read::<F, H::Output>(p1.scaling, os, n, k, mid, m1)
            &&& ok1 == (ow && os)
        };
    let (e2, ow2, os2) = choose|mid: Seq<Event<H::Output>>, ow: bool, os: bool|
        {
            &&& #[trigger] wht_read::<F, H::Output>(p2.batched_wht, ow, n, rho, log0, mid)
            &&& #[trigger] scaling_read::<F, H::Output>(p2.scaling, os, n, k, mid, m2)
            &&& ok2 == (ow && os)
        };
    scaling_went::<F, H::Output>(p1.scaling, os1, n, k, e1, m1);
    scaling_went::<F, H::Output>(p2.scaling, os2, n, k, e2, m2);
    prefix_of_prefix(e1, m1, a);
    prefix_of_prefix(e2, m2, b);
    same_proof_same_transforms::<F, H>(
        p1.batched_wht,
        ow1,
        e1,
        p2.batched_wht,
        ow2,
        e2,
        n,
        rho,
        log0,
        a,
        b,
        fields,
        digests,
    );
    same_proof_same_scaling::<F, H>(
        p1.scaling,
        os1,
        m1,
        p2.scaling,
        os2,
        m2,
        n,
        k,
        e1,
        a,
        b,
        fields,
        digests,
    );
    alike_plain::<H::Output>(us1, us2, Seq::empty(), Seq::empty());
    same_proof_same_portion::<F, H>(
        m1,
        sent_fields::<H::Output>(us1),
        sent_fields::<H::Output>(us2),
        a,
        b,
        fields,
        digests,
    );
}

/// Where one verifier of an encoding ran through, another one that goes through
/// the same proof behind the same steps does not refuse.
#[verifier::rlimit(60)]
#[verifier::spinoff_prover]
pub proof fn encoding_is_not_refused<F: PrimeField, H: HashFunction>(
    p: QABaseEncodingRelationsBatchedWhtProof<F>,
    us: Seq<int>,
    ok: bool,
    fit: bool,
    a1: Seq<Event<H::Output>>,
    n: nat,
    rho: nat,
    log0: Seq<Event<H::Output>>,
    a: Seq<Event<H::Output>>,
    b: Seq<Event<H::Output>>,
    fields: Seq<int>,
    digests: Seq<H::Output>,
)
    requires
        encoding_checked::<F, H::Output>(p, us, ok, fit, n, rho, log0, a1),
        a1.is_prefix_of(a),
        follows::<F, H>(a, fields, digests),
        follows::<F, H>(b, fields, digests),
    ensures
        !encoding_refused::<F, H::Output>(n, rho, log0, b),
{
    let m1 = choose|mid: Seq<Event<H::Output>>| #[trigger]
        encoding_read::<F, H::Output>(p, ok, n, rho, log0, mid) && a1 == mid + sent_fields(us);
    prefix_of_prefix(m1, a1, a);
    let k = (rho - 1) as nat;
    let (e1, ow, os) = choose|mid: Seq<Event<H::Output>>, ow: bool, os: bool|
        {
            &&& #[trigger] wht_read::<F, H::Output>(p.batched_wht, ow, n, rho, log0, mid)
            &&& #[trigger] scaling_read::<F, H::Output>(p.scaling, os, n, k, mid, m1)
            &&& ok == (ow && os)
        };
    scaling_went::<F, H::Output>(p.scaling, os, n, k, e1, m1);
    prefix_of_prefix(e1, m1, a);
    if exists|eta: int, gammas: Seq<Seq<int>>, ys: Seq<int>| #[trigger]
        wht_refused::<F, H::Output>(n, rho, eta, gammas, ys, log0, b) {
        let (eta, gammas, ys) = choose|eta: int, gammas: Seq<Seq<int>>, ys: Seq<int>| #[trigger]
            wht_refused::<F, H::Output>(n, rho, eta, gammas, ys, log0, b);
        transforms_are_not_refused::<F, H>(
            p.batched_wht,
            ow,
            e1,
            eta,
            gammas,
            ys,
            n,
            rho,
            log0,
            a,
            b,
            fields,
            digests,
        );
    } else if encoding_refused::<F, H::Output>(n, rho, log0, b) {
        let (p2, ok2, e2, alpha2, beta2) = choose|
            p2: QABaseBatchedWhtRelationProof<F>,
            ok2: bool,
            e2: Seq<Event<H::Output>>,
            alpha2: int,
            beta2: Seq<int>,
        |
            {
                &&& #[trigger] wht_read::<F, H::Output>(p2, ok2, n, rho, log0, e2)
                &&& beta2.len() == n
                &&& #[trigger] sumcheck_refused::<F, H::Output>(
                    n,
                    3,
                    0,
                    e2 + drawn(seq![alpha2]) + drawn(beta2),
                    b,
                )
            };
        refused_extends::<F, H::Output>(n, 3, 0, e2 + drawn(seq![alpha2]) + drawn(beta2), b);
        prefix_of_prefix(e2, e2 + drawn(seq![alpha2]) + drawn(beta2), b);
        same_proof_same_transforms::<F, H>(
            p.batched_wht,
            ow,
            e1,
            p2,
            ok2,
            e2,
            n,
            rho,
            log0,
            a,
            b,
            fields,
            digests,
        );
        scaling_is_not_refused::<F, H>(
            p.scaling,
            os,
            m1,
            alpha2,
            beta2,
            n,
            k,
            e1,
            a,
            b,
            fields,
            digests,
        );
    }
}

/// Where one verifier of the scaling relation ran through, another one that goes
/// through the same proof behind the same steps does not refuse.
proof fn scaling_is_not_refused<F: PrimeField, H: HashFunction>(
    p: QABaseScalingRelationProof<F>,
    ok: bool,
    a1: Seq<Event<H::Output>>,
    alpha2: int,
    beta2: Seq<int>,
    n: nat,
    k: nat,
    log0: Seq<Event<H::Output>>,
    a: Seq<Event<H::Output>>,
    b: Seq<Event<H::Output>>,
    fields: Seq<int>,
    digests: Seq<H::Output>,
)
    requires
        scaling_read::<F, H::Output>(p, ok, n, k, log0, a1),
        a1.is_prefix_of(a),
        beta2.len() == n,
        follows::<F, H>(a, fields, digests),
        follows::<F, H>(b, fields, digests),
    ensures
        !sumcheck_refused::<F, H::Output>(
            n,
            3,
            0,
            log0 + drawn(seq![alpha2]) + drawn(beta2),
            b,
        ),
{
    let (alpha, beta) = (seq![p.alpha.val()], vals(p.beta@));
    let z = vals(p.sc_point@);
    let t = p.terminal_eval.val();
    let s = log0 + drawn(alpha) + drawn(beta);
    let s2 = log0 + drawn(seq![alpha2]) + drawn(beta2);
    if sumcheck_refused::<F, H::Output>(n, 3, 0, s2, b) {
        refused_extends::<F, H::Output>(n, 3, 0, s2, b);
        let pair = seq![p.v_prime_eval_at_sc_point.val(), p.u_prime_batch_eval_at_sc_point.val()];
        let es = vals(p.e_evals_at_sc_point@);
        let m = choose|mid: Seq<Event<H::Output>>| #[trigger]
            sumcheck_verified::<F, H::Output>(n, 3, 0, t, z, s, mid) && a1 == mid + sent_fields(
                pair,
            ) + sent_fields(es);
        sumcheck_went::<F, H::Output>(n, 3, 0, t, z, s, m);
        prefix_of_prefix(m, a1, a);
        prefix_of_prefix(s, m, a);
        same_proof_same_challenges::<F, H>(
            alpha,
            beta,
            seq![alpha2],
            beta2,
            log0,
            a,
            b,
            fields,
            digests,
        );
        accepted_is_not_refused::<F, H>(n, 3, 0, t, z, s, m, a, b, fields, digests);
    }
}

/// Where one verifier of the transform relations ran through, another one that
/// goes through the same proof behind the same steps does not refuse.
proof fn transforms_are_not_refused<F: PrimeField, H: HashFunction>(
    p: QABaseBatchedWhtRelationProof<F>,
    ok: bool,
    a1: Seq<Event<H::Output>>,
    eta2: int,
    gammas2: Seq<Seq<int>>,
    ys2: Seq<int>,
    n: nat,
    k: nat,
    log0: Seq<Event<H::Output>>,
    a: Seq<Event<H::Output>>,
    b: Seq<Event<H::Output>>,
    fields: Seq<int>,
    digests: Seq<H::Output>,
)
    requires
        wht_read::<F, H::Output>(p, ok, n, k, log0, a1),
        a1.is_prefix_of(a),
        follows::<F, H>(a, fields, digests),
        follows::<F, H>(b, fields, digests),
    ensures
        !wht_refused::<F, H::Output>(n, k, eta2, gammas2, ys2, log0, b),
{
    if wht_refused::<F, H::Output>(n, k, eta2, gammas2, ys2, log0, b) {
        let eta = p.eta.val();
        let gammas = mat(p.gammas@);
        let ys = vals(p.output_evals_at_gammas@);
        let z = vals(p.sc_point@);
        let xs = vals(p.input_evals_at_sc_point@);
        let (c, t) = (p.claimed_sum.val(), p.terminal_eval.val());
        let s = log0 + drawn(seq![eta]) + drawn(flatten(gammas)) + sent_fields(ys);
        let s2 = log0 + drawn(seq![eta2]) + drawn(flatten(gammas2)) + sent_fields(ys2);
        let m = choose|mid: Seq<Event<H::Output>>| #[trigger]
            sumcheck_verified::<F, H::Output>(n, 2, c, t, z, s, mid) && a1 == mid + sent_fields(
                xs,
            );
        sumcheck_went::<F, H::Output>(n, 2, c, t, z, s, m);
        prefix_of_prefix(m, a1, a);
        prefix_of_prefix(s, m, a);
        refused_extends::<F, H::Output>(n, 2, batch_value::<F>(eta2, ys2), s2, b);
        same_proof_same_outputs::<F, H>(
            eta,
            gammas,
            ys,
            eta2,
            gammas2,
            ys2,
            n,
            k,
            log0,
            a,
            b,
            fields,
            digests,
        );
        accepted_is_not_refused::<F, H>(n, 2, c, t, z, s, m, a, b, fields, digests);
    }
}

/// Two verifiers that go through one proof behind the same steps read the same
/// columns and draw the same challenge behind them.
proof fn same_proof_same_opened<F: PrimeField, H: HashFunction>(
    d1: QueriesRead<H::Output>,
    tau1: int,
    l1: Seq<Event<H::Output>>,
    d2: QueriesRead<H::Output>,
    tau2: int,
    l2: Seq<Event<H::Output>>,
    num_queries: nat,
    num_rows: nat,
    depth: nat,
    log0: Seq<Event<H::Output>>,
    a: Seq<Event<H::Output>>,
    b: Seq<Event<H::Output>>,
    fields: Seq<int>,
    digests: Seq<H::Output>,
)
    requires
        queries_read(d1, num_queries, num_queries, num_rows, depth, log0, l1),
        queries_read(d2, num_queries, num_queries, num_rows, depth, log0, l2),
        (l1 + drawn(seq![tau1])).is_prefix_of(a),
        (l2 + drawn(seq![tau2])).is_prefix_of(b),
        follows::<F, H>(a, fields, digests),
        follows::<F, H>(b, fields, digests),
    ensures
        d1.challenges == d2.challenges,
        d1.cols == d2.cols,
        tau1 == tau2,
        l1 == l2,
{
    let (t1, t2) = (seq![tau1], seq![tau2]);
    let (x1, x2) = (drawn::<H::Output>(d1.challenges), drawn::<H::Output>(d2.challenges));
    let (y1, y2) = (column_events(d1.paths, d1.cols), column_events(d2.paths, d2.cols));
    let (z1, z2) = (drawn::<H::Output>(t1), drawn::<H::Output>(t2));
    alike_plain::<H::Output>(d1.challenges, d2.challenges, Seq::empty(), Seq::empty());
    column_events_alike(d1.paths, d1.cols, d2.paths, d2.cols, num_rows, depth);
    alike_plain::<H::Output>(t1, t2, Seq::empty(), Seq::empty());
    alike_concat(x1, y1, x2, y2);
    alike_concat(x1 + y1, z1, x2 + y2, z2);
    assert(l1 + z1 =~= log0 + (x1 + y1 + z1));
    assert(l2 + z2 =~= log0 + (x2 + y2 + z2));
    same_proof_same_portion::<F, H>(
        log0,
        x1 + y1 + z1,
        x2 + y2 + z2,
        a,
        b,
        fields,
        digests,
    );
    assert(t1[0] == t2[0]);
}

/// Two verifiers of a selector sum-check that go through one proof behind the
/// same steps end in the same way.
#[verifier::rlimit(60)]
#[verifier::spinoff_prover]
pub proof fn same_proof_same_selector<F: PrimeField, H: HashFunction>(
    q: Seq<int>,
    tau: int,
    claim: int,
    n: nat,
    rho: nat,
    z1: Seq<int>,
    s1: int,
    w1: int,
    blocks1: Seq<int>,
    ok1: bool,
    a1: Seq<Event<H::Output>>,
    z2: Seq<int>,
    s2: int,
    w2: int,
    blocks2: Seq<int>,
    ok2: bool,
    b1: Seq<Event<H::Output>>,
    log0: Seq<Event<H::Output>>,
    a: Seq<Event<H::Output>>,
    b: Seq<Event<H::Output>>,
    fields: Seq<int>,
    digests: Seq<H::Output>,
)
    requires
        selector_read::<F, H::Output>(q, tau, claim, n, rho, z1, s1, w1, blocks1, ok1, log0, a1),
        selector_read::<F, H::Output>(q, tau, claim, n, rho, z2, s2, w2, blocks2, ok2, log0, b1),
        a1.is_prefix_of(a),
        b1.is_prefix_of(b),
        follows::<F, H>(a, fields, digests),
        follows::<F, H>(b, fields, digests),
    ensures
        z1 == z2,
        blocks1 == blocks2,
        ok1 == ok2,
        a1 == b1,
{
    let (t1, m1) = choose|terminal: int, mid: Seq<Event<H::Output>>|
        {
            &&& #[trigger] sumcheck_verified::<F, H::Output>(
                z1.len(),
                2,
                claim,
                terminal,
                z1,
                log0,
                mid,
            )
            &&& ok1 == columns_fit::<F>(terminal, s1, w1, blocks1, z1.skip(n as int))
            &&& a1 == mid.push(Event::Field(w1)) + sent_fields(blocks1)
        };
    let (t2, m2) = choose|terminal: int, mid: Seq<Event<H::Output>>|
        {
            &&& #[trigger] sumcheck_verified::<F, H::Output>(
                z2.len(),
                2,
                claim,
                terminal,
                z2,
                log0,
                mid,
            )
            &&& ok2 == columns_fit::<F>(terminal, s2, w2, blocks2, z2.skip(n as int))
            &&& b1 == mid.push(Event::Field(w2)) + sent_fields(blocks2)
        };
    let (u1, u2) = (seq![w1], seq![w2]);
    let (x1, x2) = (sent_fields::<H::Output>(u1), sent_fields::<H::Output>(u2));
    let (y1, y2) = (sent_fields::<H::Output>(blocks1), sent_fields::<H::Output>(blocks2));
    assert(a1 =~= m1 + (x1 + y1));
    assert(b1 =~= m2 + (x2 + y2));
    prefix_of_prefix(m1, a1, a);
    prefix_of_prefix(m2, b1, b);
    same_proof_same_end::<F, H>(
        z1.len(),
        2,
        claim,
        t1,
        z1,
        t2,
        z2,
        log0,
        m1,
        m2,
        a,
        b,
        fields,
        digests,
    );
    alike_plain::<H::Output>(u1, u2, Seq::empty(), Seq::empty());
    alike_plain::<H::Output>(blocks1, blocks2, Seq::empty(), Seq::empty());
    alike_concat(x1, y1, x2, y2);
    same_proof_same_portion::<F, H>(m1, x1 + y1, x2 + y2, a, b, fields, digests);
    assert(u1[0] == u2[0]);
}

/// Where one verifier of a selector sum-check ran through, another one that goes
/// through the same proof behind the same steps does not refuse.
pub proof fn selector_is_not_refused<F: PrimeField, H: HashFunction>(
    q: Seq<int>,
    tau: int,
    claim: int,
    n: nat,
    rho: nat,
    z: Seq<int>,
    s: int,
    w: int,
    blocks: Seq<int>,
    ok: bool,
    a1: Seq<Event<H::Output>>,
    log0: Seq<Event<H::Output>>,
    a: Seq<Event<H::Output>>,
    b: Seq<Event<H::Output>>,
    fields: Seq<int>,
    digests: Seq<H::Output>,
)
    requires
        selector_read::<F, H::Output>(q, tau, claim, n, rho, z, s, w, blocks, ok, log0, a1),
        a1.is_prefix_of(a),
        follows::<F, H>(a, fields, digests),
        follows::<F, H>(b, fields, digests),
    ensures
        !sumcheck_refused::<F, H::Output>(n + log2(rho as int), 2, claim, log0, b),
{
    let (t, m) = choose|terminal: int, mid: Seq<Event<H::Output>>|
        {
            &&& #[trigger] sumcheck_verified::<F, H::Output>(
                z.len(),
                2,
                claim,
                terminal,
                z,
                log0,
                mid,
            )
            &&& ok == columns_fit::<F>(terminal, s, w, blocks, z.skip(n as int))
            &&& a1 == mid.push(Event::Field(w)) + sent_fields(blocks)
        };
    prefix_of_prefix(m, a1, a);
    accepted_is_not_refused::<F, H>(z.len(), 2, claim, t, z, log0, m, a, b, fields, digests);
}

/// The log where the columns of a check are read.
pub open spec fn columns_end_at<F: PrimeField, H: HashFunction, C>(
    out: QABaseItem1VerifierOutput<F>,
    ok: bool,
    vp: QABaseVerifierParams<F, C>,
    d: QueriesRead<H::Output>,
    log0: Seq<Event<H::Output>>,
    log: Seq<Event<H::Output>>,
    log1: Seq<Event<H::Output>>,
) -> bool {
    &&& queries_read(
        d,
        vp.num_queries as nat,
        vp.num_queries as nat,
        vp.num_rows as nat,
        log2(vp.inverse_rate * exp2(vp.num_vars as nat)),
        log0,
        log,
    )
    &&& selector_read::<F, H::Output>(
        ints(out.query_indices@),
        out.tau.val(),
        batch_value::<F>(out.tau.val(), vals(out.folded_values@)),
        vp.num_vars as nat,
        vp.inverse_rate as nat,
        vals(out.sc_point@),
        out.selector_eval_at_sc_point.val(),
        out.u_eval_at_sc_point.val(),
        vals(out.u_block_evals_at_sc_point@),
        ok,
        log + drawn(seq![out.tau.val()]),
        log1,
    )
}

/// A check of columns has a point where all are read.
proof fn item1_parts<F: PrimeField, H: HashFunction, C>(
    out: QABaseItem1VerifierOutput<F>,
    ok: bool,
    vp: QABaseVerifierParams<F, C>,
    root: H::Output,
    rc: Seq<int>,
    d: QueriesRead<H::Output>,
    log0: Seq<Event<H::Output>>,
    log1: Seq<Event<H::Output>>,
) -> (log: Seq<Event<H::Output>>)
    requires
        item1_read::<F, H, C>(out, ok, vp, root, rc, d, log0, log1),
    ensures
        columns_end_at::<F, H, C>(out, ok, vp, d, log0, log, log1),
        (log + drawn(seq![out.tau.val()])).is_prefix_of(log1),
        log.is_prefix_of(log1),
{
    let log = choose|log: Seq<Event<H::Output>>|
        {
            &&& #[trigger] queries_read(
                d,
                vp.num_queries as nat,
                vp.num_queries as nat,
                vp.num_rows as nat,
                log2(vp.inverse_rate * exp2(vp.num_vars as nat)),
                log0,
                log,
            )
            &&& selector_read::<F, H::Output>(
                ints(out.query_indices@),
                out.tau.val(),
                batch_value::<F>(out.tau.val(), vals(out.folded_values@)),
                vp.num_vars as nat,
                vp.inverse_rate as nat,
                vals(out.sc_point@),
                out.selector_eval_at_sc_point.val(),
                out.u_eval_at_sc_point.val(),
                vals(out.u_block_evals_at_sc_point@),
                ok,
                log + drawn(seq![out.tau.val()]),
                log1,
            )
        };
    let begun = log + drawn::<H::Output>(seq![out.tau.val()]);
    selector_went::<F, H::Output>(
        ints(out.query_indices@),
        out.tau.val(),
        batch_value::<F>(out.tau.val(), vals(out.folded_values@)),
        vp.num_vars as nat,
        vp.inverse_rate as nat,
        vals(out.sc_point@),
        out.selector_eval_at_sc_point.val(),
        out.u_eval_at_sc_point.val(),
        vals(out.u_block_evals_at_sc_point@),
        ok,
        begun,
        log1,
    );
    prefix_of_prefix(log, begun, log1);
    log
}

/// Results of a check of columns hold the same values.
pub open spec fn same_item1_values<F: PrimeField>(
    p: QABaseItem1VerifierOutput<F>,
    q: QABaseItem1VerifierOutput<F>,
) -> bool {
    &&& p.query_indices@ == q.query_indices@
    &&& mat(p.opened_columns@) == mat(q.opened_columns@)
    &&& p.tau.val() == q.tau.val()
    &&& vals(p.sc_point@) == vals(q.sc_point@)
    &&& vals(p.u_block_evals_at_sc_point@) == vals(q.u_block_evals_at_sc_point@)
}

/// Two verifiers of a check of columns that go through one proof behind the same
/// steps end in the same way.
pub proof fn same_proof_same_item1<F: PrimeField, H: HashFunction, C>(
    out1: QABaseItem1VerifierOutput<F>,
    ok1: bool,
    d1: QueriesRead<H::Output>,
    a1: Seq<Event<H::Output>>,
    out2: QABaseItem1VerifierOutput<F>,
    ok2: bool,
    d2: QueriesRead<H::Output>,
    b1: Seq<Event<H::Output>>,
    vp: QABaseVerifierParams<F, C>,
    root: H::Output,
    rc: Seq<int>,
    log0: Seq<Event<H::Output>>,
    a: Seq<Event<H::Output>>,
    b: Seq<Event<H::Output>>,
    fields: Seq<int>,
    digests: Seq<H::Output>,
)
    requires
        item1_read::<F, H, C>(out1, ok1, vp, root, rc, d1, log0, a1),
        item1_read::<F, H, C>(out2, ok2, vp, root, rc, d2, log0, b1),
        a1.is_prefix_of(a),
        b1.is_prefix_of(b),
        follows::<F, H>(a, fields, digests),
        follows::<F, H>(b, fields, digests),
    ensures
        ok1 == ok2,
        a1 == b1,
        same_item1_values(out1, out2),
        d1.cols == d2.cols,
{
    let (tau1, tau2) = (out1.tau.val(), out2.tau.val());
    let l1 = item1_parts::<F, H, C>(out1, ok1, vp, root, rc, d1, log0, a1);
    let l2 = item1_parts::<F, H, C>(out2, ok2, vp, root, rc, d2, log0, b1);
    prefix_of_prefix(l1 + drawn(seq![tau1]), a1, a);
    prefix_of_prefix(l2 + drawn(seq![tau2]), b1, b);
    same_proof_same_opened::<F, H>(
        d1,
        tau1,
        l1,
        d2,
        tau2,
        l2,
        vp.num_queries as nat,
        vp.num_rows as nat,
        log2(vp.inverse_rate * exp2(vp.num_vars as nat)),
        log0,
        a,
        b,
        fields,
        digests,
    );
    ints_injective(out1.query_indices@, out2.query_indices@);
    same_proof_same_selector::<F, H>(
        ints(out1.query_indices@),
        tau1,
        batch_value::<F>(tau1, vals(out1.folded_values@)),
        vp.num_vars as nat,
        vp.inverse_rate as nat,
        vals(out1.sc_point@),
        out1.selector_eval_at_sc_point.val(),
        out1.u_eval_at_sc_point.val(),
        vals(out1.u_block_evals_at_sc_point@),
        ok1,
        a1,
        vals(out2.sc_point@),
        out2.selector_eval_at_sc_point.val(),
        out2.u_eval_at_sc_point.val(),
        vals(out2.u_block_evals_at_sc_point@),
        ok2,
        b1,
        l1 + drawn(seq![tau1]),
        a,
        b,
        fields,
        digests,
    );
}

/// Where one verifier read authentic columns, another one that goes through the
/// same proof behind the same steps finds none that is not, and does not refuse
/// their sum-check.
#[verifier::rlimit(60)]
#[verifier::spinoff_prover]
pub proof fn item1_is_not_refused<F: PrimeField, H: HashFunction, C>(
    out: QABaseItem1VerifierOutput<F>,
    ok: bool,
    d: QueriesRead<H::Output>,
    a1: Seq<Event<H::Output>>,
    vp: QABaseVerifierParams<F, C>,
    root: H::Output,
    rc: Seq<int>,
    log0: Seq<Event<H::Output>>,
    a: Seq<Event<H::Output>>,
    b: Seq<Event<H::Output>>,
    fields: Seq<int>,
    digests: Seq<H::Output>,
)
    requires
        item1_read::<F, H, C>(out, ok, vp, root, rc, d, log0, a1),
        a1.is_prefix_of(a),
        follows::<F, H>(a, fields, digests),
        follows::<F, H>(b, fields, digests),
    ensures
        forall|d2: QueriesRead<H::Output>, k: nat| !#[trigger]
            item1_refused::<F, H, C>(vp, root, d2, k, log0, b),
        !item1_sumcheck_refused::<F, H, C>(vp, root, rc, log0, b),
{
    let num_cols = vp.inverse_rate * exp2(vp.num_vars as nat);
    let n = vp.num_rows as nat;
    let queries = vp.num_queries as nat;
    let tau = out.tau.val();
    let l = item1_parts::<F, H, C>(out, ok, vp, root, rc, d, log0, a1);
    prefix_of_prefix(l, a1, a);
    prefix_of_prefix(l + drawn(seq![tau]), a1, a);
    assert forall|d2: QueriesRead<H::Output>, k: nat| !#[trigger]
        item1_refused::<F, H, C>(vp, root, d2, k, log0, b) by {
        if item1_refused::<F, H, C>(vp, root, d2, k, log0, b) {
            first_columns_agree::<F, H, C>(
                vp,
                root,
                d,
                d2,
                k,
                log0,
                l,
                a,
                b,
                fields,
                digests,
            );
        }
    }
    if item1_sumcheck_refused::<F, H, C>(vp, root, rc, log0, b) {
        let (start, d2, mid2) = choose|
            start: Item1VerifierStart<F>,
            d2: QueriesRead<H::Output>,
            mid2: Seq<Event<H::Output>>,
        |
            {
                &&& #[trigger] item1_verified::<F, H, C>(vp, root, rc, start, d2, log0, mid2)
                &&& sumcheck_refused::<F, H::Output>(
                    vp.num_vars as nat + log2(vp.inverse_rate as int),
                    2,
                    start.claimed_sum.val(),
                    mid2,
                    b,
                )
            };
        let tau2 = start.tau.val();
        let l2 = choose|l2: Seq<Event<H::Output>>| #[trigger]
            queries_read(d2, queries, queries, n, log2(num_cols), log0, l2) && mid2 == l2 + drawn(
                seq![tau2],
            );
        refused_extends::<F, H::Output>(
            vp.num_vars as nat + log2(vp.inverse_rate as int),
            2,
            start.claimed_sum.val(),
            mid2,
            b,
        );
        same_proof_same_opened::<F, H>(
            d,
            tau,
            l,
            d2,
            tau2,
            l2,
            queries,
            n,
            log2(num_cols),
            log0,
            a,
            b,
            fields,
            digests,
        );
        selector_is_not_refused::<F, H>(
            ints(out.query_indices@),
            tau,
            batch_value::<F>(tau, vals(out.folded_values@)),
            vp.num_vars as nat,
            vp.inverse_rate as nat,
            vals(out.sc_point@),
            out.selector_eval_at_sc_point.val(),
            out.u_eval_at_sc_point.val(),
            vals(out.u_block_evals_at_sc_point@),
            ok,
            a1,
            l + drawn(seq![tau]),
            a,
            b,
            fields,
            digests,
        );
    }
}

/// The first columns of one proof are the same for all who go through it, so
/// that none is found that does not lead to the root where all do.
proof fn first_columns_agree<F: PrimeField, H: HashFunction, C>(
    vp: QABaseVerifierParams<F, C>,
    root: H::Output,
    d: QueriesRead<H::Output>,
    d2: QueriesRead<H::Output>,
    k: nat,
    log0: Seq<Event<H::Output>>,
    l: Seq<Event<H::Output>>,
    a: Seq<Event<H::Output>>,
    b: Seq<Event<H::Output>>,
    fields: Seq<int>,
    digests: Seq<H::Output>,
)
    requires
        columns_authentic::<F, H>(root, d, vp.inverse_rate * exp2(vp.num_vars as nat)),
        queries_read(
            d,
            vp.num_queries as nat,
            vp.num_queries as nat,
            vp.num_rows as nat,
            log2(vp.inverse_rate * exp2(vp.num_vars as nat)),
            log0,
            l,
        ),
        l.is_prefix_of(a),
        follows::<F, H>(a, fields, digests),
        follows::<F, H>(b, fields, digests),
    ensures
        !item1_refused::<F, H, C>(vp, root, d2, k, log0, b),
{
    if item1_refused::<F, H, C>(vp, root, d2, k, log0, b) {
        let num_cols = vp.inverse_rate * exp2(vp.num_vars as nat);
        let n = vp.num_rows as nat;
        let ki = k as int;
        let (p, c) = (d.paths.take(ki), d.cols.take(ki));
        column_events_cut(d.paths, d.cols, ki);
        assert forall|i: int| 0 <= i < k implies (#[trigger] c[i]).len() == n by {
            assert(c[i] == d.cols[i]);
        }
        assert forall|i: int| 0 <= i < k implies (#[trigger] p[i]).len() == log2(num_cols) by {
            assert(p[i] == d.paths[i]);
        }
        let (x1, x2) = (drawn::<H::Output>(d.challenges), drawn::<H::Output>(d2.challenges));
        let (y1, y2) = (column_events(p, c), column_events(d2.paths, d2.cols));
        alike_plain::<H::Output>(d.challenges, d2.challenges, Seq::empty(), Seq::empty());
        column_events_alike(p, c, d2.paths, d2.cols, n, log2(num_cols));
        alike_concat(x1, y1, x2, y2);
        let start = log0 + x1;
        assert((start + y1).is_prefix_of(start + column_events(d.paths, d.cols)));
        assert(log0 + (x1 + y1) =~= start + y1);
        assert(log0 + (x2 + y2) =~= b);
        prefix_of_prefix(log0 + (x1 + y1), l, a);
        same_proof_same_portion::<F, H>(log0, x1 + y1, x2 + y2, a, b, fields, digests);
        assert forall|s: int| 0 <= s < d2.cols.len() implies climb::<H>(
            leaf::<F, H>(#[trigger] d2.cols[s]),
            d2.paths[s],
            index_of::<F>(d2.challenges[s], word_bytes(), num_cols),
        ) == root by {
            assert(d2.cols[s] == d.cols[s]);
            assert(d2.paths[s] == d.paths[s]);
        }
        assert(columns_authentic::<F, H>(root, d2, num_cols));
    }
}

} // verus!
