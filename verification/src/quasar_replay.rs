//! A full opening that was written is accepted when it is read.

use crate::classic_sumcheck::{round_refused, sumcheck_refused, sumcheck_went};
use crate::field::{index_of, word_bytes, PrimeField};
use crate::hash::HashFunction;
use crate::linear::{flatten, ints, mat, rect, vals};
use crate::merkle::{climb, leaf};
use crate::mle::{exp2, log2};
use crate::qa_code::flatten_len;
use crate::quasar::QABaseVerifierParams;
use crate::quasar_columns::{
    alternate, column_events, columns_authentic, merged_sum_refused, merged_verified,
    queries_refused, queries_verified, MergedColumnsVerifier, QABaseMergedColumnConsistencyOutput,
    QueriesRead,
};
use crate::quasar_gkr::{
    batched_claim, coords, flat_outputs, flat_split, gkr_inner_refused, gkr_outer_refused,
    gkr_refused, gkr_verified, instance_weights, GkrChallenges, QABaseTwoLayerGkrProof,
};
use crate::sumcheck_replay::{accepted_is_not_refused, same_proof_same_end};
use crate::transcript::{
    alike, alike_concat, alike_plain, drawn, follows, same_proof_same_portion, sent_commitments,
    sent_fields, Event,
};
use vstd::prelude::*;

verus! {

/// Rows of one length can be told from their concatenation.
pub proof fn flatten_injective(a: Seq<Seq<int>>, b: Seq<Seq<int>>, n: nat)
    requires
        rect(a, n),
        rect(b, n),
        a.len() == b.len(),
        flatten(a) == flatten(b),
    ensures
        a == b,
    decreases a.len(),
{
    if a.len() > 0 {
        let k = a.len() - 1;
        let (x, y) = (a.drop_last(), b.drop_last());
        assert(a[k].len() == n && b[k].len() == n);
        assert forall|i: int| 0 <= i < x.len() implies (#[trigger] x[i]).len() == n by {
            assert(x[i] == a[i]);
        }
        assert forall|i: int| 0 <= i < y.len() implies (#[trigger] y[i]).len() == n by {
            assert(y[i] == b[i]);
        }
        flatten_len(x, n);
        flatten_len(y, n);
        let m = flatten(x).len() as int;
        assert(flatten(x) =~= flatten(a).take(m));
        assert(flatten(y) =~= flatten(b).take(m));
        assert(a.last() =~= flatten(a).skip(m));
        assert(b.last() =~= flatten(b).skip(m));
        flatten_injective(x, y, n);
        assert(a =~= x.push(a.last()));
        assert(b =~= y.push(b.last()));
    } else {
        assert(a =~= b);
    }
}

/// Nested lists of points of one shape have as many coordinates, and can be told
/// from them.
proof fn coords_injective<F: PrimeField>(
    a: Seq<Vec<Vec<F>>>,
    b: Seq<Vec<Vec<F>>>,
    np: nat,
    n: nat,
)
    requires
        a.len() == b.len(),
        forall|i: int|
            0 <= i < a.len() ==> (#[trigger] a[i])@.len() == np && rect(mat(a[i]@), n),
        forall|i: int|
            0 <= i < b.len() ==> (#[trigger] b[i])@.len() == np && rect(mat(b[i]@), n),
    ensures
        coords(a).len() == coords(b).len(),
        coords(a) == coords(b) ==> forall|i: int|
            0 <= i < a.len() ==> mat(#[trigger] a[i]@) == mat(b[i]@),
    decreases a.len(),
{
    if a.len() > 0 {
        let k = a.len() - 1;
        let (x, y) = (a.drop_last(), b.drop_last());
        assert forall|i: int| 0 <= i < x.len() implies (#[trigger] x[i])@.len() == np && rect(
            mat(x[i]@),
            n,
        ) by {
            assert(x[i] == a[i]);
        }
        assert forall|i: int| 0 <= i < y.len() implies (#[trigger] y[i])@.len() == np && rect(
            mat(y[i]@),
            n,
        ) by {
            assert(y[i] == b[i]);
        }
        coords_injective(x, y, np, n);
        let (u, v) = (mat(a[k]@), mat(b[k]@));
        assert(a.last() == a[k] && b.last() == b[k]);
        flatten_len(u, n);
        flatten_len(v, n);
        if coords(a) == coords(b) {
            let m = coords(x).len() as int;
            assert(coords(x) =~= coords(a).take(m));
            assert(coords(y) =~= coords(b).take(m));
            assert(flatten(u) =~= coords(a).skip(m));
            assert(flatten(v) =~= coords(b).skip(m));
            flatten_injective(u, v, n);
            assert forall|i: int| 0 <= i < a.len() implies mat(#[trigger] a[i]@) == mat(b[i]@) by {
                if i < k {
                    assert(x[i] == a[i] && y[i] == b[i]);
                    assert(mat(x[i]@) == mat(y[i]@));
                }
            }
        }
    }
}

/// Two lists of challenges are the same as values.
pub open spec fn same_challenges<F: PrimeField>(
    a: GkrChallenges<F>,
    b: GkrChallenges<F>,
    k: nat,
) -> bool {
    &&& a.block_batch_challenge.val() == b.block_batch_challenge.val()
    &&& a.instance_batch_challenge.val() == b.instance_batch_challenge.val()
    &&& forall|i: int| 0 <= i < k ==> mat(#[trigger] a.gammas@[i]@) == mat(b.gammas@[i]@)
}

/// Challenges for the same sizes are drawn in steps of the same kinds, and can be
/// told from their steps.
proof fn challenges_alike<F: PrimeField, O>(
    a: GkrChallenges<F>,
    b: GkrChallenges<F>,
    k: nat,
    np: nat,
    n: nat,
)
    requires
        a.wf(k, np, n),
        b.wf(k, np, n),
    ensures
        alike(a.events::<O>(), b.events::<O>()),
        a.events::<O>() == b.events::<O>() ==> same_challenges(a, b, k),
{
    let (x1, y1) = (
        seq![a.block_batch_challenge.val()],
        seq![b.block_batch_challenge.val()],
    );
    let x2 = if a.gammas@.len() > 1 {
        seq![a.instance_batch_challenge.val()]
    } else {
        Seq::empty()
    };
    let y2 = if b.gammas@.len() > 1 {
        seq![b.instance_batch_challenge.val()]
    } else {
        Seq::empty()
    };
    let (x3, y3) = (coords(a.gammas@), coords(b.gammas@));
    coords_injective(a.gammas@, b.gammas@, np, n);
    alike_plain::<O>(x1, y1, Seq::empty(), Seq::empty());
    alike_plain::<O>(x2, y2, Seq::empty(), Seq::empty());
    alike_plain::<O>(x3, y3, Seq::empty(), Seq::empty());
    alike_concat(drawn::<O>(x1), drawn::<O>(x2), drawn::<O>(y1), drawn::<O>(y2));
    alike_concat(
        drawn::<O>(x1) + drawn::<O>(x2),
        drawn::<O>(x3),
        drawn::<O>(y1) + drawn::<O>(y2),
        drawn::<O>(y3),
    );
    if a.events::<O>() == b.events::<O>() {
        assert(x1[0] == y1[0]);
        if k > 1 {
            assert(x2[0] == y2[0]);
        }
    }
}

/// Challenges that are the same weigh in the same way.
proof fn same_challenges_same_weights<F: PrimeField>(
    a: GkrChallenges<F>,
    b: GkrChallenges<F>,
    outputs1: Seq<Vec<F>>,
    outputs2: Seq<Vec<F>>,
    z: Seq<int>,
    e_evals: Seq<int>,
    k: nat,
    np: nat,
    n: nat,
)
    requires
        a.wf(k, np, n),
        b.wf(k, np, n),
        same_challenges(a, b, k),
        flat_outputs(outputs1) == flat_outputs(outputs2),
    ensures
        batched_claim(a, outputs1, k, np) == batched_claim(b, outputs2, k, np),
        instance_weights(a, z, e_evals, k, np) == instance_weights(b, z, e_evals, k, np),
{
    a.lemma_lens(k, np, n);
    b.lemma_lens(k, np, n);
    assert forall|i: int, j: int| 0 <= i < k && 0 <= j < np implies #[trigger] a.weight(i, j)
        == b.weight(i, j) by {
        assert(vals(a.instance_powers@)[i] == vals(b.instance_powers@)[i]);
        assert(vals(a.block_powers@)[j] == vals(b.block_powers@)[j]);
    }
    assert forall|t: int| 0 <= t < k * np implies a.weights(k, np)[t] == b.weights(k, np)[t] by {
        if np > 0 {
            flat_split(t, k as int, np as int);
            assert(a.weight(t / (np as int), t % (np as int)) == b.weight(
                t / (np as int),
                t % (np as int),
            ));
        } else {
            assert(k * np == 0) by (nonlinear_arith)
                requires
                    np == 0,
            ;
        }
    }
    assert(a.weights(k, np) =~= b.weights(k, np));
    let (x, y) = (
        instance_weights(a, z, e_evals, k, np),
        instance_weights(b, z, e_evals, k, np),
    );
    assert forall|i: int| 0 <= i < k implies x[i] == y[i] by {
        assert(mat(a.gammas@[i]@) == mat(b.gammas@[i]@));
        let u = Seq::new(
            np,
            |j: int|
                crate::field::fmul::<F>(
                    crate::field::fmul::<F>(
                        a.weight(i, j),
                        crate::mle::hadamard::<F>(a.gamma(i, j), z),
                    ),
                    e_evals[j],
                ),
        );
        let v = Seq::new(
            np,
            |j: int|
                crate::field::fmul::<F>(
                    crate::field::fmul::<F>(
                        b.weight(i, j),
                        crate::mle::hadamard::<F>(b.gamma(i, j), z),
                    ),
                    e_evals[j],
                ),
        );
        assert forall|j: int| 0 <= j < np implies u[j] == v[j] by {
            assert(a.weight(i, j) == b.weight(i, j));
            assert(mat(a.gammas@[i]@)[j] == mat(b.gammas@[i]@)[j]);
        }
        assert(u =~= v);
    }
    assert(x =~= y);
}

/// The beginning of a beginning is a beginning.
pub proof fn prefix_of_prefix<O>(a: Seq<Event<O>>, b: Seq<Event<O>>, c: Seq<Event<O>>)
    requires
        a.is_prefix_of(b),
        b.is_prefix_of(c),
    ensures
        a.is_prefix_of(c),
{
}

/// A refused sum-check extends the steps before it.
pub proof fn refused_extends<F: PrimeField, O>(
    num_vars: nat,
    degree: nat,
    claim: int,
    log0: Seq<Event<O>>,
    log1: Seq<Event<O>>,
)
    requires
        sumcheck_refused::<F, O>(num_vars, degree, claim, log0, log1),
    ensures
        log0.is_prefix_of(log1),
{
    let (point, messages, m) = choose|point: Seq<int>, messages: Seq<Seq<int>>, m: Seq<int>|
        #[trigger] round_refused::<F, O>(
            num_vars,
            degree,
            claim,
            point,
            messages,
            m,
            log0,
            log1,
        );
    assert(log0 =~= log1.take(log0.len() as int));
}

/// Two verifiers that go through one proof behind the same steps draw the same
/// challenges and read the same outputs.
proof fn same_proof_same_start<F: PrimeField, H: HashFunction>(
    ch1: GkrChallenges<F>,
    o1: Seq<Vec<F>>,
    ch2: GkrChallenges<F>,
    o2: Seq<Vec<F>>,
    k: nat,
    np: nat,
    n: nat,
    log0: Seq<Event<H::Output>>,
    a: Seq<Event<H::Output>>,
    b: Seq<Event<H::Output>>,
    fields: Seq<int>,
    digests: Seq<H::Output>,
)
    requires
        ch1.wf(k, np, n),
        ch2.wf(k, np, n),
        o1.len() == k,
        o2.len() == k,
        rect(mat(o1), np),
        rect(mat(o2), np),
        (log0 + ch1.events::<H::Output>() + sent_fields(flat_outputs(o1))).is_prefix_of(a),
        (log0 + ch2.events::<H::Output>() + sent_fields(flat_outputs(o2))).is_prefix_of(b),
        follows::<F, H>(a, fields, digests),
        follows::<F, H>(b, fields, digests),
    ensures
        same_challenges(ch1, ch2, k),
        ch1.events::<H::Output>() == ch2.events::<H::Output>(),
        mat(o1) == mat(o2),
{
    let (e1, e2) = (ch1.events::<H::Output>(), ch2.events::<H::Output>());
    let (s1, s2) = (
        sent_fields::<H::Output>(flat_outputs(o1)),
        sent_fields::<H::Output>(flat_outputs(o2)),
    );
    challenges_alike::<F, H::Output>(ch1, ch2, k, np, n);
    flatten_len(mat(o1), np);
    flatten_len(mat(o2), np);
    alike_plain::<H::Output>(flat_outputs(o1), flat_outputs(o2), Seq::empty(), Seq::empty());
    alike_concat(e1, s1, e2, s2);
    assert(log0 + (e1 + s1) =~= log0 + e1 + s1);
    assert(log0 + (e2 + s2) =~= log0 + e2 + s2);
    same_proof_same_portion::<F, H>(log0, e1 + s1, e2 + s2, a, b, fields, digests);
    flatten_injective(mat(o1), mat(o2), np);
}

/// Proofs of the two layers hold the same values where claims are made.
pub open spec fn same_proof_values<F: PrimeField>(
    p1: QABaseTwoLayerGkrProof<F>,
    p2: QABaseTwoLayerGkrProof<F>,
    k: nat,
) -> bool {
    &&& forall|i: int| 0 <= i < k ==> mat(#[trigger] p1.gammas@[i]@) == mat(p2.gammas@[i]@)
    &&& mat(p1.output_evals_at_gammas@) == mat(p2.output_evals_at_gammas@)
    &&& vals(p1.outer_point@) == vals(p2.outer_point@)
    &&& vals(p1.e_evals_at_outer_point@) == vals(p2.e_evals_at_outer_point@)
    &&& vals(p1.inner_point@) == vals(p2.inner_point@)
    &&& vals(p1.input_evals_at_inner_point@) == vals(p2.input_evals_at_inner_point@)
}

/// Two verifiers of the two layers that go through one proof behind the same
/// steps end in the same way.
#[verifier::rlimit(60)]
#[verifier::spinoff_prover]
pub proof fn same_proof_same_layers<F: PrimeField, H: HashFunction>(
    ok1: bool,
    p1: QABaseTwoLayerGkrProof<F>,
    ch1: GkrChallenges<F>,
    oe1: Seq<Event<H::Output>>,
    ie1: Seq<Event<H::Output>>,
    a1: Seq<Event<H::Output>>,
    ok2: bool,
    p2: QABaseTwoLayerGkrProof<F>,
    ch2: GkrChallenges<F>,
    oe2: Seq<Event<H::Output>>,
    ie2: Seq<Event<H::Output>>,
    b1: Seq<Event<H::Output>>,
    n: nat,
    k: nat,
    np: nat,
    log0: Seq<Event<H::Output>>,
    a: Seq<Event<H::Output>>,
    b: Seq<Event<H::Output>>,
    fields: Seq<int>,
    digests: Seq<H::Output>,
)
    requires
        gkr_verified::<F, H::Output>(ok1, p1, ch1, n, k, np, log0, oe1, ie1, a1),
        gkr_verified::<F, H::Output>(ok2, p2, ch2, n, k, np, log0, oe2, ie2, b1),
        a1.is_prefix_of(a),
        b1.is_prefix_of(b),
        follows::<F, H>(a, fields, digests),
        follows::<F, H>(b, fields, digests),
    ensures
        ok1 == ok2,
        a1 == b1,
        same_proof_values(p1, p2, k),
{
    let (o1, o2) = (p1.output_evals_at_gammas@, p2.output_evals_at_gammas@);
    let s1 = log0 + ch1.events::<H::Output>() + sent_fields(flat_outputs(o1));
    let s2 = log0 + ch2.events::<H::Output>() + sent_fields(flat_outputs(o2));
    let (z1, z2) = (vals(p1.outer_point@), vals(p2.outer_point@));
    let (y1, y2) = (vals(p1.inner_point@), vals(p2.inner_point@));
    let (e1, e2) = (vals(p1.e_evals_at_outer_point@), vals(p2.e_evals_at_outer_point@));
    let (i1, i2) = (vals(p1.input_evals_at_inner_point@), vals(p2.input_evals_at_inner_point@));
    let (c1, c2) = (p1.claimed_output_batch.val(), p2.claimed_output_batch.val());
    let (t1, t2) = (p1.outer_terminal_eval.val(), p2.outer_terminal_eval.val());
    let (w1, w2) = (p1.inner_terminal_eval.val(), p2.inner_terminal_eval.val());
    sumcheck_went::<F, H::Output>(n, 3, c1, t1, z1, s1, oe1);
    sumcheck_went::<F, H::Output>(n, 3, c2, t2, z2, s2, oe2);
    let (m1, m2) = (
        oe1 + sent_fields::<H::Output>(e1),
        oe2 + sent_fields::<H::Output>(e2),
    );
    sumcheck_went::<F, H::Output>(n, 2, t1, w1, y1, m1, ie1);
    sumcheck_went::<F, H::Output>(n, 2, t2, w2, y2, m2, ie2);
    prefix_of_prefix(ie1, a1, a);
    prefix_of_prefix(m1, ie1, a);
    prefix_of_prefix(oe1, m1, a);
    prefix_of_prefix(s1, oe1, a);
    prefix_of_prefix(ie2, b1, b);
    prefix_of_prefix(m2, ie2, b);
    prefix_of_prefix(oe2, m2, b);
    prefix_of_prefix(s2, oe2, b);
    same_proof_same_start::<F, H>(ch1, o1, ch2, o2, k, np, n, log0, a, b, fields, digests);
    same_challenges_same_weights(ch1, ch2, o1, o2, z1, e1, k, np, n);
    assert(s1 =~= s2);
    same_proof_same_end::<F, H>(
        n,
        3,
        c1,
        t1,
        z1,
        t2,
        z2,
        s1,
        oe1,
        oe2,
        a,
        b,
        fields,
        digests,
    );
    alike_plain::<H::Output>(e1, e2, Seq::empty(), Seq::empty());
    same_proof_same_portion::<F, H>(
        oe1,
        sent_fields::<H::Output>(e1),
        sent_fields::<H::Output>(e2),
        a,
        b,
        fields,
        digests,
    );
    same_proof_same_end::<F, H>(
        n,
        2,
        t1,
        w1,
        y1,
        w2,
        y2,
        m1,
        ie1,
        ie2,
        a,
        b,
        fields,
        digests,
    );
    alike_plain::<H::Output>(i1, i2, Seq::empty(), Seq::empty());
    same_proof_same_portion::<F, H>(
        ie1,
        sent_fields::<H::Output>(i1),
        sent_fields::<H::Output>(i2),
        a,
        b,
        fields,
        digests,
    );
}

/// Where one verifier of the two layers ran through, another one that goes
/// through the same proof behind the same steps does not refuse.
pub proof fn layers_are_not_refused<F: PrimeField, H: HashFunction>(
    ok: bool,
    p: QABaseTwoLayerGkrProof<F>,
    ch: GkrChallenges<F>,
    outer_end: Seq<Event<H::Output>>,
    inner_end: Seq<Event<H::Output>>,
    a1: Seq<Event<H::Output>>,
    n: nat,
    k: nat,
    np: nat,
    log0: Seq<Event<H::Output>>,
    a: Seq<Event<H::Output>>,
    b: Seq<Event<H::Output>>,
    fields: Seq<int>,
    digests: Seq<H::Output>,
)
    requires
        gkr_verified::<F, H::Output>(ok, p, ch, n, k, np, log0, outer_end, inner_end, a1),
        a1.is_prefix_of(a),
        follows::<F, H>(a, fields, digests),
        follows::<F, H>(b, fields, digests),
    ensures
        !gkr_refused::<F, H::Output>(n, k, np, log0, b),
{
    let o = p.output_evals_at_gammas@;
    let s = log0 + ch.events::<H::Output>() + sent_fields(flat_outputs(o));
    let z = vals(p.outer_point@);
    let y = vals(p.inner_point@);
    let e = vals(p.e_evals_at_outer_point@);
    let c = p.claimed_output_batch.val();
    let t = p.outer_terminal_eval.val();
    let w = p.inner_terminal_eval.val();
    let m = outer_end + sent_fields::<H::Output>(e);
    sumcheck_went::<F, H::Output>(n, 3, c, t, z, s, outer_end);
    sumcheck_went::<F, H::Output>(n, 2, t, w, y, m, inner_end);
    if gkr_refused::<F, H::Output>(n, k, np, log0, b) {
        if exists|ch2: GkrChallenges<F>, o2: Seq<Vec<F>>| #[trigger]
            gkr_outer_refused::<F, H::Output>(ch2, o2, n, k, np, log0, b) {
            let (ch2, o2) = choose|ch2: GkrChallenges<F>, o2: Seq<Vec<F>>| #[trigger]
                gkr_outer_refused::<F, H::Output>(ch2, o2, n, k, np, log0, b);
            let s2 = log0 + ch2.events::<H::Output>() + sent_fields(flat_outputs(o2));
            refused_extends::<F, H::Output>(n, 3, batched_claim(ch2, o2, k, np), s2, b);
            same_proof_same_start::<F, H>(ch, o, ch2, o2, k, np, n, log0, a, b, fields, digests);
            same_challenges_same_weights(ch, ch2, o, o2, z, e, k, np, n);
            assert(s =~= s2);
            accepted_is_not_refused::<F, H>(
                n,
                3,
                c,
                t,
                z,
                s,
                outer_end,
                a,
                b,
                fields,
                digests,
            );
        } else {
            let (ch2, o2, t2, z2, e2, oe2) = choose|
                ch2: GkrChallenges<F>,
                o2: Seq<Vec<F>>,
                t2: int,
                z2: Seq<int>,
                e2: Seq<int>,
                oe2: Seq<Event<H::Output>>,
            | #[trigger]
                gkr_inner_refused::<F, H::Output>(
                    ch2,
                    o2,
                    t2,
                    z2,
                    e2,
                    n,
                    k,
                    np,
                    log0,
                    oe2,
                    b,
                );
            let s2 = log0 + ch2.events::<H::Output>() + sent_fields(flat_outputs(o2));
            let m2 = oe2 + sent_fields::<H::Output>(e2);
            refused_extends::<F, H::Output>(n, 2, t2, m2, b);
            sumcheck_went::<F, H::Output>(n, 3, batched_claim(ch2, o2, k, np), t2, z2, s2, oe2);
            same_proof_same_start::<F, H>(ch, o, ch2, o2, k, np, n, log0, a, b, fields, digests);
            same_challenges_same_weights(ch, ch2, o, o2, z, e, k, np, n);
            assert(s =~= s2);
            same_proof_same_end::<F, H>(
                n,
                3,
                c,
                t,
                z,
                t2,
                z2,
                s,
                outer_end,
                oe2,
                a,
                b,
                fields,
                digests,
            );
            alike_plain::<H::Output>(e, e2, Seq::empty(), Seq::empty());
            same_proof_same_portion::<F, H>(
                outer_end,
                sent_fields::<H::Output>(e),
                sent_fields::<H::Output>(e2),
                a,
                b,
                fields,
                digests,
            );
            accepted_is_not_refused::<F, H>(
                n,
                2,
                t,
                w,
                y,
                m,
                inner_end,
                a,
                b,
                fields,
                digests,
            );
        }
    }
}

/// Columns and paths of one shape are sent in steps of the same kinds, and can be
/// told from their steps.
pub proof fn column_events_alike<O>(
    p1: Seq<Seq<O>>,
    c1: Seq<Seq<int>>,
    p2: Seq<Seq<O>>,
    c2: Seq<Seq<int>>,
    n: nat,
    depth: nat,
)
    requires
        c1.len() == p1.len(),
        p2.len() == p1.len(),
        c2.len() == p1.len(),
        rect(c1, n),
        rect(c2, n),
        forall|i: int| 0 <= i < p1.len() ==> (#[trigger] p1[i]).len() == depth,
        forall|i: int| 0 <= i < p2.len() ==> (#[trigger] p2[i]).len() == depth,
    ensures
        alike(column_events(p1, c1), column_events(p2, c2)),
        column_events(p1, c1) == column_events(p2, c2) ==> p1 == p2 && c1 == c2,
    decreases p1.len(),
{
    if p1.len() > 0 {
        let k = p1.len() - 1;
        let (a1, b1) = (p1.drop_last(), c1.drop_last());
        let (a2, b2) = (p2.drop_last(), c2.drop_last());
        assert(c1[k].len() == n && c2[k].len() == n && p1[k].len() == depth && p2[k].len()
            == depth);
        assert forall|i: int| 0 <= i < k implies (#[trigger] b1[i]).len() == n by {
            assert(b1[i] == c1[i]);
        }
        assert forall|i: int| 0 <= i < k implies (#[trigger] b2[i]).len() == n by {
            assert(b2[i] == c2[i]);
        }
        assert forall|i: int| 0 <= i < k implies (#[trigger] a1[i]).len() == depth by {
            assert(a1[i] == p1[i]);
        }
        assert forall|i: int| 0 <= i < k implies (#[trigger] a2[i]).len() == depth by {
            assert(a2[i] == p2[i]);
        }
        column_events_alike(a1, b1, a2, b2, n, depth);
        alike_plain(c1.last(), c2.last(), p1.last(), p2.last());
        let (x, y) = (column_events(a1, b1), column_events(a2, b2));
        alike_concat(x, sent_commitments(p1.last()), y, sent_commitments(p2.last()));
        alike_concat(
            x + sent_commitments(p1.last()),
            sent_fields::<O>(c1.last()),
            y + sent_commitments(p2.last()),
            sent_fields::<O>(c2.last()),
        );
        if column_events(p1, c1) == column_events(p2, c2) {
            assert(p1 =~= a1.push(p1.last()) && p2 =~= a2.push(p2.last()));
            assert(c1 =~= b1.push(c1.last()) && c2 =~= b2.push(c2.last()));
        }
    } else {
        assert(p1 =~= p2 && c1 =~= c2);
    }
}

/// The first columns are sent first.
pub proof fn column_events_cut<O>(paths: Seq<Seq<O>>, cols: Seq<Seq<int>>, k: int)
    requires
        cols.len() == paths.len(),
        0 <= k <= paths.len(),
    ensures
        column_events(paths.take(k), cols.take(k)).is_prefix_of(column_events(paths, cols)),
    decreases paths.len(),
{
    if k < paths.len() {
        let (p, c) = (paths.drop_last(), cols.drop_last());
        column_events_cut(p, c, k);
        assert(p.take(k) =~= paths.take(k));
        assert(c.take(k) =~= cols.take(k));
    } else {
        assert(paths.take(k) =~= paths);
        assert(cols.take(k) =~= cols);
    }
}

/// Indices can be told from their integers.
pub proof fn ints_injective(a: Seq<usize>, b: Seq<usize>)
    requires
        ints(a) == ints(b),
    ensures
        a == b,
{
    assert(ints(a).len() == a.len() && ints(b).len() == b.len());
    assert forall|i: int| 0 <= i < a.len() implies a[i] == b[i] by {
        assert(ints(a)[i] == a[i] as int);
        assert(ints(b)[i] == b[i] as int);
    }
    assert(a =~= b);
}

/// Two lists can be told from taking them by turns.
proof fn alternate_injective(u1: Seq<int>, q1: Seq<int>, u2: Seq<int>, q2: Seq<int>)
    requires
        q1.len() == u1.len(),
        u2.len() == u1.len(),
        q2.len() == u1.len(),
        alternate(u1, q1) == alternate(u2, q2),
    ensures
        u1 == u2,
        q1 == q2,
{
    assert forall|i: int| 0 <= i < u1.len() implies u1[i] == u2[i] by {
        assert(alternate(u1, q1)[2 * i] == u1[i]);
        assert(alternate(u2, q2)[2 * i] == u2[i]);
    }
    assert forall|i: int| 0 <= i < q1.len() implies q1[i] == q2[i] by {
        assert(alternate(u1, q1)[2 * i + 1] == q1[i]);
        assert(alternate(u2, q2)[2 * i + 1] == q2[i]);
    }
    assert(u1 =~= u2);
    assert(q1 =~= q2);
}

/// The steps of the queries.
pub open spec fn query_steps<F: PrimeField, O>(
    d: QueriesRead<O>,
    state: MergedColumnsVerifier<F>,
) -> Seq<Event<O>> {
    drawn(d.challenges) + column_events(d.paths, d.cols) + drawn(
        seq![state.tau.val(), state.instance_batch_challenge.val()],
    )
}

/// Two verifiers that go through one proof behind the same steps read the same
/// columns, draw the same challenges and claim the same sum.
proof fn same_proof_same_queries<F: PrimeField, H: HashFunction, C>(
    vp: QABaseVerifierParams<F, C>,
    root: H::Output,
    pw: Seq<int>,
    ew: Seq<int>,
    state1: MergedColumnsVerifier<F>,
    d1: QueriesRead<H::Output>,
    mid1: Seq<Event<H::Output>>,
    state2: MergedColumnsVerifier<F>,
    d2: QueriesRead<H::Output>,
    mid2: Seq<Event<H::Output>>,
    log0: Seq<Event<H::Output>>,
    a: Seq<Event<H::Output>>,
    b: Seq<Event<H::Output>>,
    fields: Seq<int>,
    digests: Seq<H::Output>,
)
    requires
        queries_verified::<F, H, C>(vp, root, pw, ew, state1, d1, log0, mid1),
        queries_verified::<F, H, C>(vp, root, pw, ew, state2, d2, log0, mid2),
        mid1.is_prefix_of(a),
        mid2.is_prefix_of(b),
        follows::<F, H>(a, fields, digests),
        follows::<F, H>(b, fields, digests),
    ensures
        mid1 == mid2,
        state1.query_indices@ == state2.query_indices@,
        state1.tau.val() == state2.tau.val(),
        state1.instance_batch_challenge.val() == state2.instance_batch_challenge.val(),
        state1.claimed_sum.val() == state2.claimed_sum.val(),
{
    let depth = log2(vp.inverse_rate * exp2(vp.num_vars as nat));
    let n = vp.num_rows as nat;
    let (t1, t2) = (
        seq![state1.tau.val(), state1.instance_batch_challenge.val()],
        seq![state2.tau.val(), state2.instance_batch_challenge.val()],
    );
    let (x1, x2) = (drawn::<H::Output>(d1.challenges), drawn::<H::Output>(d2.challenges));
    let (y1, y2) = (column_events(d1.paths, d1.cols), column_events(d2.paths, d2.cols));
    alike_plain::<H::Output>(d1.challenges, d2.challenges, Seq::empty(), Seq::empty());
    column_events_alike(d1.paths, d1.cols, d2.paths, d2.cols, n, depth);
    alike_plain::<H::Output>(t1, t2, Seq::empty(), Seq::empty());
    alike_concat(x1, y1, x2, y2);
    alike_concat(x1 + y1, drawn::<H::Output>(t1), x2 + y2, drawn::<H::Output>(t2));
    let (q1, q2) = (query_steps(d1, state1), query_steps(d2, state2));
    assert(mid1 =~= log0 + q1);
    assert(mid2 =~= log0 + q2);
    same_proof_same_portion::<F, H>(log0, q1, q2, a, b, fields, digests);
    assert(t1[0] == t2[0] && t1[1] == t2[1]);
    ints_injective(state1.query_indices@, state2.query_indices@);
}

/// Two verifiers of the merged check that go through one proof behind the same
/// steps end in the same way.
#[verifier::rlimit(60)]
#[verifier::spinoff_prover]
pub proof fn same_proof_same_columns<F: PrimeField, H: HashFunction, C>(
    ok1: bool,
    out1: QABaseMergedColumnConsistencyOutput<F>,
    state1: MergedColumnsVerifier<F>,
    d1: QueriesRead<H::Output>,
    t1: int,
    mid1: Seq<Event<H::Output>>,
    end1: Seq<Event<H::Output>>,
    a: Seq<Event<H::Output>>,
    ok2: bool,
    out2: QABaseMergedColumnConsistencyOutput<F>,
    state2: MergedColumnsVerifier<F>,
    d2: QueriesRead<H::Output>,
    t2: int,
    mid2: Seq<Event<H::Output>>,
    end2: Seq<Event<H::Output>>,
    b: Seq<Event<H::Output>>,
    vp: QABaseVerifierParams<F, C>,
    root: H::Output,
    pw: Seq<int>,
    ew: Seq<int>,
    log0: Seq<Event<H::Output>>,
    fields: Seq<int>,
    digests: Seq<H::Output>,
)
    requires
        merged_verified::<F, H, C>(
            ok1,
            out1,
            vp,
            root,
            pw,
            ew,
            state1,
            d1,
            t1,
            log0,
            mid1,
            end1,
            a,
        ),
        merged_verified::<F, H, C>(
            ok2,
            out2,
            vp,
            root,
            pw,
            ew,
            state2,
            d2,
            t2,
            log0,
            mid2,
            end2,
            b,
        ),
        follows::<F, H>(a, fields, digests),
        follows::<F, H>(b, fields, digests),
    ensures
        ok1 == ok2,
        a == b,
        out1.query_indices@ == out2.query_indices@,
        vals(out1.sc_point@) == vals(out2.sc_point@),
        vals(out1.proximity_block_evals@) == vals(out2.proximity_block_evals@),
        vals(out1.evaluation_block_evals@) == vals(out2.evaluation_block_evals@),
{
    let n = vp.num_vars as nat;
    let (x1, x2) = (vals(out1.sc_point@), vals(out2.sc_point@));
    let (u1, u2) = (vals(out1.proximity_block_evals@), vals(out2.proximity_block_evals@));
    let (q1, q2) = (vals(out1.evaluation_block_evals@), vals(out2.evaluation_block_evals@));
    let (c1, c2) = (state1.claimed_sum.val(), state2.claimed_sum.val());
    sumcheck_went::<F, H::Output>(n, 2, c1, t1, x1, mid1, end1);
    sumcheck_went::<F, H::Output>(n, 2, c2, t2, x2, mid2, end2);
    prefix_of_prefix(mid1, end1, a);
    prefix_of_prefix(mid2, end2, b);
    same_proof_same_queries::<F, H, C>(
        vp,
        root,
        pw,
        ew,
        state1,
        d1,
        mid1,
        state2,
        d2,
        mid2,
        log0,
        a,
        b,
        fields,
        digests,
    );
    same_proof_same_end::<F, H>(
        n,
        2,
        c1,
        t1,
        x1,
        t2,
        x2,
        mid1,
        end1,
        end2,
        a,
        b,
        fields,
        digests,
    );
    let (s1, s2) = (alternate(u1, q1), alternate(u2, q2));
    alike_plain::<H::Output>(s1, s2, Seq::empty(), Seq::empty());
    same_proof_same_portion::<F, H>(
        end1,
        sent_fields::<H::Output>(s1),
        sent_fields::<H::Output>(s2),
        a,
        b,
        fields,
        digests,
    );
    alternate_injective(u1, q1, u2, q2);
}

/// Where one verifier read authentic columns, another one that goes through the
/// same proof behind the same steps does not find one that is not.
pub proof fn columns_are_not_refused<F: PrimeField, H: HashFunction, C>(
    vp: QABaseVerifierParams<F, C>,
    root: H::Output,
    pw: Seq<int>,
    ew: Seq<int>,
    state: MergedColumnsVerifier<F>,
    d: QueriesRead<H::Output>,
    mid: Seq<Event<H::Output>>,
    d2: QueriesRead<H::Output>,
    k: nat,
    log0: Seq<Event<H::Output>>,
    a: Seq<Event<H::Output>>,
    b: Seq<Event<H::Output>>,
    fields: Seq<int>,
    digests: Seq<H::Output>,
)
    requires
        queries_verified::<F, H, C>(vp, root, pw, ew, state, d, log0, mid),
        mid.is_prefix_of(a),
        follows::<F, H>(a, fields, digests),
        follows::<F, H>(b, fields, digests),
    ensures
        !queries_refused::<F, H, C>(vp, root, d2, k, log0, b),
{
    if queries_refused::<F, H, C>(vp, root, d2, k, log0, b) {
        let num_cols = vp.inverse_rate * exp2(vp.num_vars as nat);
        let n = vp.num_rows as nat;
        let ki = k as int;
        let (p, c) = (d.paths.take(ki), d.cols.take(ki));
        column_events_cut(d.paths, d.cols, ki);
        assert forall|i: int| 0 <= i < k implies (#[trigger] c[i]).len() == n by {
            assert(c[i] == d.cols[i]);
        }
        assert forall|i: int| 0 <= i < k implies (#[trigger] p[i]).len() == log2(num_cols) by {
            assert(p[i] == d.paths[i]);
        }
        let (x1, x2) = (drawn::<H::Output>(d.challenges), drawn::<H::Output>(d2.challenges));
        let (y1, y2) = (column_events(p, c), column_events(d2.paths, d2.cols));
        alike_plain::<H::Output>(d.challenges, d2.challenges, Seq::empty(), Seq::empty());
        column_events_alike(p, c, d2.paths, d2.cols, n, log2(num_cols));
        alike_concat(x1, y1, x2, y2);
        let start = log0 + x1;
        assert((start + y1).is_prefix_of(start + column_events(d.paths, d.cols)));
        assert((start + column_events(d.paths, d.cols)).is_prefix_of(mid));
        assert(log0 + (x1 + y1) =~= start + y1);
        assert(log0 + (x2 + y2) =~= b);
        same_proof_same_portion::<F, H>(log0, x1 + y1, x2 + y2, a, b, fields, digests);
        assert forall|s: int| 0 <= s < d2.cols.len() implies climb::<H>(
            leaf::<F, H>(#[trigger] d2.cols[s]),
            d2.paths[s],
            index_of::<F>(d2.challenges[s], word_bytes(), num_cols),
        ) == root by {
            assert(d2.cols[s] == d.cols[s]);
            assert(d2.paths[s] == d.paths[s]);
        }
        assert(columns_authentic::<F, H>(root, d2, num_cols));
    }
}

/// Where one verifier of the merged check ran through, another one that goes
/// through the same proof behind the same steps does not refuse its sum-check.
pub proof fn column_sum_is_not_refused<F: PrimeField, H: HashFunction, C>(
    ok: bool,
    out: QABaseMergedColumnConsistencyOutput<F>,
    state: MergedColumnsVerifier<F>,
    d: QueriesRead<H::Output>,
    t: int,
    mid: Seq<Event<H::Output>>,
    end: Seq<Event<H::Output>>,
    state2: MergedColumnsVerifier<F>,
    d2: QueriesRead<H::Output>,
    mid2: Seq<Event<H::Output>>,
    vp: QABaseVerifierParams<F, C>,
    root: H::Output,
    pw: Seq<int>,
    ew: Seq<int>,
    log0: Seq<Event<H::Output>>,
    a: Seq<Event<H::Output>>,
    b: Seq<Event<H::Output>>,
    fields: Seq<int>,
    digests: Seq<H::Output>,
)
    requires
        merged_verified::<F, H, C>(
            ok,
            out,
            vp,
            root,
            pw,
            ew,
            state,
            d,
            t,
            log0,
            mid,
            end,
            a,
        ),
        follows::<F, H>(a, fields, digests),
        follows::<F, H>(b, fields, digests),
    ensures
        !merged_sum_refused::<F, H, C>(vp, root, pw, ew, state2, d2, log0, mid2, b),
{
    if merged_sum_refused::<F, H, C>(vp, root, pw, ew, state2, d2, log0, mid2, b) {
        let n = vp.num_vars as nat;
        let x = vals(out.sc_point@);
        sumcheck_went::<F, H::Output>(n, 2, state.claimed_sum.val(), t, x, mid, end);
        prefix_of_prefix(mid, end, a);
        refused_extends::<F, H::Output>(n, 2, state2.claimed_sum.val(), mid2, b);
        same_proof_same_queries::<F, H, C>(
            vp,
            root,
            pw,
            ew,
            state,
            d,
            mid,
            state2,
            d2,
            mid2,
            log0,
            a,
            b,
            fields,
            digests,
        );
        accepted_is_not_refused::<F, H>(
            n,
            2,
            state.claimed_sum.val(),
            t,
            x,
            mid,
            end,
            a,
            b,
            fields,
            digests,
        );
    }
}

} // verus!
