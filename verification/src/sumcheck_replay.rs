//! A sum-check that was written is accepted when it is read.

use crate::classic_sumcheck::{
    claim_after, honest_sumcheck_is_accepted, instance_fits, round_error, round_events,
    round_messages_count, round_refused, rounds_accepted, rounds_consistent, run_events,
    sumcheck_refused, sumcheck_verified,
};
use crate::error::Error;
use crate::field::{fadd, PrimeField, Residue};
use crate::hash::HashFunction;
use crate::linear::{mat, rect, vals};
use crate::sumcheck::{summand, values_at, SumcheckInstance};
use crate::transcript::{
    alike, alike_concat, alike_plain, cut_within, fields_in, fields_in_prefix, follows,
    messages_concat, same_proof_same_portion, sent_fields, Event,
};
use vstd::prelude::*;

verus! {

/// Rounds of one shape take steps of the same kinds, and can be told from their
/// steps.
pub proof fn round_events_alike<O>(
    m1: Seq<Seq<int>>,
    p1: Seq<int>,
    m2: Seq<Seq<int>>,
    p2: Seq<int>,
    width: nat,
)
    requires
        m1.len() == p1.len(),
        m2.len() == m1.len(),
        p2.len() == m1.len(),
        rect(m1, width),
        rect(m2, width),
    ensures
        alike(round_events::<O>(m1, p1), round_events::<O>(m2, p2)),
        round_events::<O>(m1, p1) == round_events::<O>(m2, p2) ==> m1 == m2 && p1 == p2,
    decreases m1.len(),
{
    if m1.len() > 0 {
        let k = m1.len() - 1;
        let (a1, b1) = (m1.drop_last(), p1.drop_last());
        let (a2, b2) = (m2.drop_last(), p2.drop_last());
        assert(m1[k].len() == width && m2[k].len() == width);
        assert forall|i: int| 0 <= i < k implies (#[trigger] a1[i]).len() == width by {
            assert(a1[i] == m1[i]);
        }
        assert forall|i: int| 0 <= i < k implies (#[trigger] a2[i]).len() == width by {
            assert(a2[i] == m2[i]);
        }
        round_events_alike::<O>(a1, b1, a2, b2, width);
        alike_plain::<O>(m1[k], m2[k], Seq::empty(), Seq::empty());
        let (x, y) = (round_events::<O>(a1, b1), round_events::<O>(a2, b2));
        let (u, v) = (sent_fields::<O>(m1[k]), sent_fields::<O>(m2[k]));
        let (s, t) = (seq![Event::<O>::Challenge(p1[k])], seq![Event::<O>::Challenge(p2[k])]);
        assert((x + u).push(Event::Challenge(p1[k])) =~= x + u + s);
        assert((y + v).push(Event::Challenge(p2[k])) =~= y + v + t);
        alike_concat(x, u, y, v);
        alike_concat(x + u, s, y + v, t);
        if round_events::<O>(m1, p1) == round_events::<O>(m2, p2) {
            assert(s[0] == t[0]);
            assert(m1 =~= a1.push(m1[k]) && m2 =~= a2.push(m2[k]));
            assert(p1 =~= b1.push(p1[k]) && p2 =~= b2.push(p2[k]));
        }
    } else {
        assert(m1 =~= m2 && p1 =~= p2);
    }
}

/// The first rounds and the next message come first, and sum to their claim.
proof fn rounds_cut<F: Residue, O>(
    claim: int,
    messages: Seq<Seq<int>>,
    point: Seq<int>,
    k: int,
)
    requires
        messages.len() == point.len(),
        0 <= k < messages.len(),
        rounds_consistent::<F>(claim, messages, point),
    ensures
        (round_events::<O>(messages.take(k), point.take(k)) + sent_fields(
            messages[k],
        )).is_prefix_of(round_events::<O>(messages, point)),
        fadd::<F>(messages[k][0], messages[k][1])
            == claim_after::<F>(claim, messages.take(k), point.take(k)),
    decreases messages.len(),
{
    let n = messages.len() - 1;
    let (ms, pt) = (messages.drop_last(), point.drop_last());
    if k < n {
        rounds_cut::<F, O>(claim, ms, pt, k);
        assert(ms.take(k) =~= messages.take(k));
        assert(pt.take(k) =~= point.take(k));
        assert(ms[k] == messages[k]);
    } else {
        assert(ms =~= messages.take(k));
        assert(pt =~= point.take(k));
        assert(messages.last() == messages[k]);
    }
}

/// Two verifiers of one claim that go through one proof behind the same steps
/// end in the same way.
pub proof fn same_proof_same_end<F: PrimeField, H: HashFunction>(
    num_vars: nat,
    degree: nat,
    claim: int,
    t1: int,
    p1: Seq<int>,
    t2: int,
    p2: Seq<int>,
    log0: Seq<Event<H::Output>>,
    a1: Seq<Event<H::Output>>,
    b1: Seq<Event<H::Output>>,
    a: Seq<Event<H::Output>>,
    b: Seq<Event<H::Output>>,
    fields: Seq<int>,
    digests: Seq<H::Output>,
)
    requires
        sumcheck_verified::<F, H::Output>(num_vars, degree, claim, t1, p1, log0, a1),
        sumcheck_verified::<F, H::Output>(num_vars, degree, claim, t2, p2, log0, b1),
        a1.is_prefix_of(a),
        b1.is_prefix_of(b),
        follows::<F, H>(a, fields, digests),
        follows::<F, H>(b, fields, digests),
    ensures
        t1 == t2,
        p1 == p2,
        a1 == b1,
{
    let m1 = choose|m: Seq<Seq<int>>| #[trigger]
        rounds_accepted::<F, H::Output>(num_vars, degree, claim, t1, p1, m, log0, a1);
    let m2 = choose|m: Seq<Seq<int>>| #[trigger]
        rounds_accepted::<F, H::Output>(num_vars, degree, claim, t2, p2, m, log0, b1);
    round_events_alike::<H::Output>(m1, p1, m2, p2, degree + 1);
    same_proof_same_portion::<F, H>(
        log0,
        round_events::<H::Output>(m1, p1),
        round_events::<H::Output>(m2, p2),
        a,
        b,
        fields,
        digests,
    );
}

/// Where one verifier of a claim accepted, another one that goes through the
/// same proof behind the same steps does not refuse.
pub proof fn accepted_is_not_refused<F: PrimeField, H: HashFunction>(
    num_vars: nat,
    degree: nat,
    claim: int,
    terminal: int,
    point: Seq<int>,
    log0: Seq<Event<H::Output>>,
    a1: Seq<Event<H::Output>>,
    a: Seq<Event<H::Output>>,
    b: Seq<Event<H::Output>>,
    fields: Seq<int>,
    digests: Seq<H::Output>,
)
    requires
        sumcheck_verified::<F, H::Output>(num_vars, degree, claim, terminal, point, log0, a1),
        a1.is_prefix_of(a),
        follows::<F, H>(a, fields, digests),
        follows::<F, H>(b, fields, digests),
    ensures
        !sumcheck_refused::<F, H::Output>(num_vars, degree, claim, log0, b),
{
    if sumcheck_refused::<F, H::Output>(num_vars, degree, claim, log0, b) {
        let m1 = choose|m: Seq<Seq<int>>| #[trigger]
            rounds_accepted::<F, H::Output>(num_vars, degree, claim, terminal, point, m, log0, a1);
        let (p2, m2, m) = choose|p2: Seq<int>, m2: Seq<Seq<int>>, m: Seq<int>| #[trigger]
            round_refused::<F, H::Output>(num_vars, degree, claim, p2, m2, m, log0, b);
        let k = m2.len() as int;
        rounds_cut::<F, H::Output>(claim, m1, point, k);
        let (mk, pk) = (m1.take(k), point.take(k));
        assert forall|i: int| 0 <= i < mk.len() implies (#[trigger] mk[i]).len() == degree + 1 by {
            assert(mk[i] == m1[i]);
        }
        assert(m1[k].len() == degree + 1);
        round_events_alike::<H::Output>(mk, pk, m2, p2, degree + 1);
        alike_plain::<H::Output>(m1[k], m, Seq::empty(), Seq::empty());
        let (x, y) = (round_events::<H::Output>(mk, pk), round_events::<H::Output>(m2, p2));
        let (u, v) = (sent_fields::<H::Output>(m1[k]), sent_fields::<H::Output>(m));
        alike_concat(x, u, y, v);
        assert(log0 + (y + v) =~= b);
        assert((log0 + (x + u)).is_prefix_of(a));
        same_proof_same_portion::<F, H>(log0, x + u, y + v, a, b, fields, digests);
    }
}

/// What the verifier of a sum-check says of the messages from `log0` to `log1`.
pub open spec fn sumcheck_verdict<F: PrimeField, O>(
    num_vars: nat,
    degree: nat,
    claim: int,
    log0: Seq<Event<O>>,
    log1: Seq<Event<O>>,
    r: Result<(F, Vec<F>), Error>,
) -> bool {
    &&& r matches Ok(end) ==> sumcheck_verified::<F, O>(
        num_vars,
        degree,
        claim,
        end.0.val(),
        vals(end.1@),
        log0,
        log1,
    )
    &&& r matches Err(e) ==> {
        ||| cut_within(e, log0, log1, num_vars * (degree + 1), 0)
        ||| round_error(e) && sumcheck_refused::<F, O>(num_vars, degree, claim, log0, log1)
    }
}

/// What an honest prover wrote about a true sum is accepted: a verifier that reads
/// the messages of the proof behind the same steps ends at the prover's point,
/// with the value there.
pub proof fn honest_sumcheck_proof_is_accepted<F: PrimeField, H: HashFunction>(
    instance: SumcheckInstance<F>,
    point: Seq<int>,
    log0: Seq<Event<H::Output>>,
    written: Seq<Event<H::Output>>,
    read: Seq<Event<H::Output>>,
    fields: Seq<int>,
    digests: Seq<H::Output>,
    r: Result<(F, Vec<F>), Error>,
)
    requires
        instance_fits(instance),
        instance.holds(),
        point.len() == instance.num_vars,
        written == log0 + run_events::<F, H::Output>(
            instance.terms_spec(),
            mat(instance.polys@),
            instance.degree as nat,
            point,
        ),
        sumcheck_verdict::<F, H::Output>(
            instance.num_vars as nat,
            instance.degree as nat,
            instance.claim.val(),
            log0,
            read,
            r,
        ),
        follows::<F, H>(written, fields, digests),
        follows::<F, H>(read, fields, digests),
        read.len() > 0 && read.last() is NoField ==> fields_in(read).len() == fields.len(),
    ensures
        r is Ok,
        vals(r->Ok_0.1@) == point,
        r->Ok_0.0.val() == summand::<F>(
            instance.terms_spec(),
            values_at::<F>(mat(instance.polys@), point),
        ),
        read == written,
{
    let n = instance.num_vars as nat;
    let degree = instance.degree as nat;
    let claim = instance.claim.val();
    let end = summand::<F>(instance.terms_spec(), values_at::<F>(mat(instance.polys@), point));
    honest_sumcheck_is_accepted::<F, H::Output>(instance, point, log0);
    if r is Err {
        accepted_is_not_refused::<F, H>(
            n,
            degree,
            claim,
            end,
            point,
            log0,
            written,
            written,
            read,
            fields,
            digests,
        );
        let m = choose|m: Seq<Seq<int>>| #[trigger]
            rounds_accepted::<F, H::Output>(n, degree, claim, end, point, m, log0, written);
        round_messages_count::<H::Output>(m, point, degree + 1);
        messages_concat(log0, round_events::<H::Output>(m, point));
        assert(log0 =~= read.take(log0.len() as int));
        fields_in_prefix(read, log0.len() as int);
    } else {
        same_proof_same_end::<F, H>(
            n,
            degree,
            claim,
            end,
            point,
            r->Ok_0.0.val(),
            vals(r->Ok_0.1@),
            log0,
            written,
            read,
            written,
            read,
            fields,
            digests,
        );
    }
}

} // verus!
