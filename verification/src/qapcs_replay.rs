//! A proof that was written is accepted when it is read.

use crate::error::Error;
use crate::field::PrimeField;
use crate::hash::HashFunction;
use crate::linear::{rect, vals, vcanon};
use crate::mle::{exp2, log2, mle};
use crate::qapcs::{
    accepted, batch_opened, batch_verdict, batch_verified, claim_refused, honest_batch_is_accepted,
    honest_opening_is_accepted, opened, proof_digests, proof_fields, query_events, query_messages,
    query_ok, refusal, refused, row_events, row_messages, verdict, verified, Evaluation,
    MultilinearQAPCSCommitment, MultilinearQAPCSParams, OpeningData,
};
use crate::transcript::{
    alike, alike_concat, alike_plain, cut_within, digests_in, drawn, fields_in, follows,
    follows_prefix, messages_concat, messages_of_sent, same_kind, same_proof_same_steps,
    sent_commitments, sent_fields, Event,
};
use vstd::prelude::*;

verus! {

impl<O> OpeningData<O> {
    /// The messages up to the first `k` queries.
    pub open spec fn cut(self, k: nat) -> OpeningData<O> {
        OpeningData {
            coeffs: self.coeffs,
            rows: self.rows,
            evaluation_row: self.evaluation_row,
            queries: self.queries.take(k as int),
            columns: self.columns.take(k as int),
            paths: self.paths.take(k as int),
        }
    }
}

/// Row combinations of one shape are sent in steps of the same kinds, and can be
/// told from their steps.
proof fn row_events_alike<O>(
    c1: Seq<Seq<int>>,
    r1: Seq<Seq<int>>,
    c2: Seq<Seq<int>>,
    r2: Seq<Seq<int>>,
    m: nat,
    n: nat,
)
    requires
        r1.len() == c1.len(),
        c2.len() == c1.len(),
        r2.len() == c1.len(),
        rect(c1, m),
        rect(c2, m),
        rect(r1, n),
        rect(r2, n),
    ensures
        alike(row_events::<O>(c1, r1), row_events::<O>(c2, r2)),
        row_events::<O>(c1, r1) == row_events::<O>(c2, r2) ==> c1 == c2 && r1 == r2,
    decreases c1.len(),
{
    if c1.len() > 0 {
        let k = c1.len() - 1;
        let (d1, s1) = (c1.drop_last(), r1.drop_last());
        let (d2, s2) = (c2.drop_last(), r2.drop_last());
        assert(c1[k].len() == m && c2[k].len() == m && r1[k].len() == n && r2[k].len() == n);
        assert forall|i: int| 0 <= i < k implies (#[trigger] d1[i]).len() == m by {
            assert(d1[i] == c1[i]);
        }
        assert forall|i: int| 0 <= i < k implies (#[trigger] d2[i]).len() == m by {
            assert(d2[i] == c2[i]);
        }
        assert forall|i: int| 0 <= i < k implies (#[trigger] s1[i]).len() == n by {
            assert(s1[i] == r1[i]);
        }
        assert forall|i: int| 0 <= i < k implies (#[trigger] s2[i]).len() == n by {
            assert(s2[i] == r2[i]);
        }
        row_events_alike::<O>(d1, s1, d2, s2, m, n);
        alike_plain::<O>(c1.last(), c2.last(), Seq::empty(), Seq::empty());
        alike_plain::<O>(r1.last(), r2.last(), Seq::empty(), Seq::empty());
        let (a, b) = (row_events::<O>(d1, s1), row_events::<O>(d2, s2));
        alike_concat(a, drawn::<O>(c1.last()), b, drawn::<O>(c2.last()));
        alike_concat(
            a + drawn::<O>(c1.last()),
            sent_fields::<O>(r1.last()),
            b + drawn::<O>(c2.last()),
            sent_fields::<O>(r2.last()),
        );
        if row_events::<O>(c1, r1) == row_events::<O>(c2, r2) {
            assert(c1 =~= d1.push(c1.last()) && c2 =~= d2.push(c2.last()));
            assert(r1 =~= s1.push(r1.last()) && r2 =~= s2.push(r2.last()));
        }
    } else {
        assert(c1 =~= c2 && r1 =~= r2);
    }
}

/// The same for column queries.
proof fn query_events_alike<O>(
    q1: Seq<int>,
    c1: Seq<Seq<int>>,
    p1: Seq<Seq<O>>,
    q2: Seq<int>,
    c2: Seq<Seq<int>>,
    p2: Seq<Seq<O>>,
    n: nat,
    depth: nat,
)
    requires
        c1.len() == q1.len(),
        p1.len() == q1.len(),
        q2.len() == q1.len(),
        c2.len() == q1.len(),
        p2.len() == q1.len(),
        rect(c1, n),
        rect(c2, n),
        forall|i: int| 0 <= i < p1.len() ==> (#[trigger] p1[i]).len() == depth,
        forall|i: int| 0 <= i < p2.len() ==> (#[trigger] p2[i]).len() == depth,
    ensures
        alike(query_events(q1, c1, p1), query_events(q2, c2, p2)),
        query_events(q1, c1, p1) == query_events(q2, c2, p2) ==> q1 == q2 && c1 == c2 && p1 == p2,
    decreases q1.len(),
{
    if q1.len() > 0 {
        let k = q1.len() - 1;
        let (a1, b1, d1) = (q1.drop_last(), c1.drop_last(), p1.drop_last());
        let (a2, b2, d2) = (q2.drop_last(), c2.drop_last(), p2.drop_last());
        assert(c1[k].len() == n && c2[k].len() == n && p1[k].len() == depth && p2[k].len()
            == depth);
        assert forall|i: int| 0 <= i < k implies (#[trigger] b1[i]).len() == n by {
            assert(b1[i] == c1[i]);
        }
        assert forall|i: int| 0 <= i < k implies (#[trigger] b2[i]).len() == n by {
            assert(b2[i] == c2[i]);
        }
        assert forall|i: int| 0 <= i < k implies (#[trigger] d1[i]).len() == depth by {
            assert(d1[i] == p1[i]);
        }
        assert forall|i: int| 0 <= i < k implies (#[trigger] d2[i]).len() == depth by {
            assert(d2[i] == p2[i]);
        }
        query_events_alike(a1, b1, d1, a2, b2, d2, n, depth);
        alike_plain(c1.last(), c2.last(), p1.last(), p2.last());
        let (x, y) = (query_events(a1, b1, d1), query_events(a2, b2, d2));
        let (s, t) = (
            seq![Event::<O>::Challenge(q1.last())],
            seq![Event::<O>::Challenge(q2.last())],
        );
        assert(x.push(Event::Challenge(q1.last())) =~= x + s);
        assert(y.push(Event::Challenge(q2.last())) =~= y + t);
        alike_concat(x, s, y, t);
        alike_concat(x + s, sent_fields::<O>(c1.last()), y + t, sent_fields::<O>(c2.last()));
        alike_concat(
            x + s + sent_fields::<O>(c1.last()),
            sent_commitments(p1.last()),
            y + t + sent_fields::<O>(c2.last()),
            sent_commitments(p2.last()),
        );
        if query_events(q1, c1, p1) == query_events(q2, c2, p2) {
            assert(s[0] == t[0]);
            assert(q1 =~= a1.push(q1.last()) && q2 =~= a2.push(q2.last()));
            assert(c1 =~= b1.push(c1.last()) && c2 =~= b2.push(c2.last()));
            assert(p1 =~= d1.push(p1.last()) && p2 =~= d2.push(p2.last()));
        }
    } else {
        assert(q1 =~= q2 && c1 =~= c2 && p1 =~= p2);
    }
}

/// Openings of one shape take steps of the same kinds, and can be told from
/// their steps.
proof fn events_alike<F: PrimeField, O>(
    pp: MultilinearQAPCSParams<F>,
    k: nat,
    d1: OpeningData<O>,
    d2: OpeningData<O>,
)
    requires
        d1.shaped_to(pp, k),
        d2.shaped_to(pp, k),
    ensures
        alike(d1.events(), d2.events()),
        d1.events() == d2.events() ==> d1 == d2,
{
    let depth = log2(pp.qa.codeword_len as int);
    row_events_alike::<O>(
        d1.coeffs,
        d1.rows,
        d2.coeffs,
        d2.rows,
        pp.num_rows as nat,
        pp.qa.row_len as nat,
    );
    alike_plain::<O>(d1.evaluation_row, d2.evaluation_row, Seq::empty(), Seq::empty());
    query_events_alike(
        d1.queries,
        d1.columns,
        d1.paths,
        d2.queries,
        d2.columns,
        d2.paths,
        pp.num_rows as nat,
        depth,
    );
    let (a, b) = (row_events::<O>(d1.coeffs, d1.rows), row_events::<O>(d2.coeffs, d2.rows));
    let (s, t) = (sent_fields::<O>(d1.evaluation_row), sent_fields::<O>(d2.evaluation_row));
    alike_concat(a, s, b, t);
    alike_concat(
        a + s,
        query_events(d1.queries, d1.columns, d1.paths),
        b + t,
        query_events(d2.queries, d2.columns, d2.paths),
    );
}

/// The first queries are sent first.
proof fn query_events_cut<O>(
    queries: Seq<int>,
    columns: Seq<Seq<int>>,
    paths: Seq<Seq<O>>,
    k: int,
)
    requires
        columns.len() == queries.len(),
        paths.len() == queries.len(),
        0 <= k <= queries.len(),
    ensures
        query_events(queries.take(k), columns.take(k), paths.take(k)).is_prefix_of(
            query_events(queries, columns, paths),
        ),
    decreases queries.len(),
{
    if k < queries.len() {
        let (q, c, p) = (queries.drop_last(), columns.drop_last(), paths.drop_last());
        query_events_cut(q, c, p, k);
        assert(q.take(k) =~= queries.take(k));
        assert(c.take(k) =~= columns.take(k));
        assert(p.take(k) =~= paths.take(k));
    } else {
        assert(queries.take(k) =~= queries);
        assert(columns.take(k) =~= columns);
        assert(paths.take(k) =~= paths);
    }
}

/// An opening starts with what is left of it when it is cut.
proof fn cut_is_prefix<F: PrimeField, O>(
    pp: MultilinearQAPCSParams<F>,
    d: OpeningData<O>,
    k: nat,
)
    requires
        d.shaped(pp),
        k <= pp.qa.num_column_opening,
    ensures
        d.cut(k).shaped_to(pp, k),
        d.cut(k).events().is_prefix_of(d.events()),
{
    query_events_cut(d.queries, d.columns, d.paths, k as int);
    let c = d.cut(k);
    assert forall|i: int| 0 <= i < k implies (#[trigger] c.columns[i]).len() == pp.num_rows by {
        assert(c.columns[i] == d.columns[i]);
    }
    assert forall|i: int| 0 <= i < k implies (#[trigger] c.paths[i]).len() == log2(
        pp.qa.codeword_len as int,
    ) by {
        assert(c.paths[i] == d.paths[i]);
    }
}

/// A query of a cut opening is answered as in the whole one.
proof fn cut_keeps_queries<F: PrimeField, H: HashFunction>(
    vp: MultilinearQAPCSParams<F>,
    root: H::Output,
    point: Seq<int>,
    d: OpeningData<H::Output>,
    k: nat,
    q: int,
)
    requires
        0 <= q < k <= d.queries.len(),
        d.columns.len() == d.queries.len(),
        d.paths.len() == d.queries.len(),
        query_ok::<F, H>(vp, root, point, d, q),
    ensures
        query_ok::<F, H>(vp, root, point, d.cut(k), q),
{
    let c = d.cut(k);
    assert(c.queries[q] == d.queries[q]);
    assert(c.columns[q] == d.columns[q]);
    assert(c.paths[q] == d.paths[q]);
}

/// How many messages an opening has.
pub proof fn events_messages<F: PrimeField, O>(pp: MultilinearQAPCSParams<F>, d: OpeningData<O>)
    requires
        d.shaped(pp),
    ensures
        fields_in(d.events()).len() == proof_fields(pp),
        digests_in(d.events()).len() == proof_digests(pp),
{
    let rows = row_events::<O>(d.coeffs, d.rows);
    let middle = sent_fields::<O>(d.evaluation_row);
    row_messages::<O>(d.coeffs, d.rows, pp.qa.row_len as nat);
    messages_concat(rows, middle);
    messages_of_sent::<O>(d.evaluation_row, Seq::empty());
    messages_concat(rows + middle, query_events(d.queries, d.columns, d.paths));
    query_messages(
        d.queries,
        d.columns,
        d.paths,
        pp.num_rows as nat,
        log2(pp.qa.codeword_len as int),
    );
}

/// Two readers of one proof behind the same steps: what the second one read as
/// an opening of `k` queries is the beginning of what the first one went through.
proof fn same_proof_same_opening<F: PrimeField, H: HashFunction>(
    pp: MultilinearQAPCSParams<F>,
    d1: OpeningData<H::Output>,
    d2: OpeningData<H::Output>,
    k: nat,
    log0: Seq<Event<H::Output>>,
    fields: Seq<int>,
    digests: Seq<H::Output>,
)
    requires
        d1.shaped(pp),
        d2.shaped_to(pp, k),
        k <= pp.qa.num_column_opening,
        follows::<F, H>(log0 + d1.events(), fields, digests),
        follows::<F, H>(log0 + d2.events(), fields, digests),
    ensures
        d2 == d1.cut(k),
{
    let c = d1.cut(k);
    cut_is_prefix(pp, d1, k);
    events_alike(pp, k, d2, c);
    let (a, b) = (log0 + d2.events(), log0 + d1.events());
    assert forall|i: int| 0 <= i < a.len() implies same_kind(#[trigger] a[i], b[i]) by {
        if i >= log0.len() {
            let j = i - log0.len();
            assert(a[i] == d2.events()[j]);
            assert(b[i] == d1.events()[j] && c.events()[j] == d1.events()[j]);
        }
    }
    same_proof_same_steps::<F, H>(a, b, fields, digests);
    assert forall|j: int| 0 <= j < d2.events().len() implies d2.events()[j] == c.events()[j] by {
        assert(a[log0.len() + j] == b.take(a.len() as int)[log0.len() + j]);
    }
    assert(d2.events() =~= c.events());
}

/// Two verifiers of a claim that go through one proof behind the same steps end
/// in the same way.
proof fn same_proof_same_claim<F: PrimeField, H: HashFunction>(
    pp: MultilinearQAPCSParams<F>,
    root: H::Output,
    point: Seq<int>,
    eval: int,
    a1: Seq<Event<H::Output>>,
    b1: Seq<Event<H::Output>>,
    log0: Seq<Event<H::Output>>,
    a: Seq<Event<H::Output>>,
    b: Seq<Event<H::Output>>,
    fields: Seq<int>,
    digests: Seq<H::Output>,
)
    requires
        verified::<F, H>(pp, root, point, eval, log0, a1),
        verified::<F, H>(pp, root, point, eval, log0, b1),
        a1.is_prefix_of(a),
        b1.is_prefix_of(b),
        follows::<F, H>(a, fields, digests),
        follows::<F, H>(b, fields, digests),
    ensures
        a1 == b1,
{
    let all = pp.qa.num_column_opening as nat;
    let d1 = choose|d: OpeningData<H::Output>| #[trigger]
        accepted::<F, H>(pp, root, point, eval, d) && a1 == log0 + d.events();
    let d2 = choose|d: OpeningData<H::Output>| #[trigger]
        accepted::<F, H>(pp, root, point, eval, d) && b1 == log0 + d.events();
    follows_prefix::<F, H>(a1, a, fields, digests);
    follows_prefix::<F, H>(b1, b, fields, digests);
    same_proof_same_opening::<F, H>(pp, d1, d2, all, log0, fields, digests);
    assert(d1.queries.take(all as int) =~= d1.queries);
    assert(d1.columns.take(all as int) =~= d1.columns);
    assert(d1.paths.take(all as int) =~= d1.paths);
}

/// Where one verifier accepted a claim, another one that goes through the same
/// proof behind the same steps, and does not run out of messages, does not fail
/// there.
proof fn claim_does_not_fail<F: PrimeField, H: HashFunction>(
    pp: MultilinearQAPCSParams<F>,
    root: H::Output,
    point: Seq<int>,
    eval: int,
    a1: Seq<Event<H::Output>>,
    e: Error,
    log0: Seq<Event<H::Output>>,
    a: Seq<Event<H::Output>>,
    b: Seq<Event<H::Output>>,
    fields: Seq<int>,
    digests: Seq<H::Output>,
)
    requires
        verified::<F, H>(pp, root, point, eval, log0, a1),
        a1.is_prefix_of(a),
        follows::<F, H>(a, fields, digests),
        follows::<F, H>(b, fields, digests),
        b.len() > 0 && b.last() is NoField ==> fields_in(b).len() == fields.len(),
        b.len() > 0 && b.last() is NoDigest ==> digests_in(b).len() == digests.len(),
    ensures
        !cut_within(e, log0, b, proof_fields(pp), proof_digests(pp)),
        !refused::<F, H>(pp, root, point, eval, log0, b, e),
{
    let d1 = choose|d: OpeningData<H::Output>| #[trigger]
        accepted::<F, H>(pp, root, point, eval, d) && a1 == log0 + d.events();
    follows_prefix::<F, H>(a1, a, fields, digests);
    events_messages(pp, d1);
    messages_concat(log0, d1.events());
    if refused::<F, H>(pp, root, point, eval, log0, b, e) {
        let (d2, k) = choose|d: OpeningData<H::Output>, k: nat| #[trigger]
            refusal::<F, H>(pp, root, point, eval, d, k, e) && b == log0 + d.events();
        same_proof_same_opening::<F, H>(pp, d1, d2, k, log0, fields, digests);
        assert(d2.evaluation_row == d1.evaluation_row);
        cut_keeps_queries::<F, H>(pp, root, point, d1, k, k - 1);
        assert(false);
    }
}

/// One proof is accepted for at most one value: where it is accepted, a verifier
/// that reads the same messages behind the same steps refuses every other value,
/// since the row read for the point gives the one that was accepted.
pub proof fn one_proof_opens_one_value<F: PrimeField, H: HashFunction>(
    vp: MultilinearQAPCSParams<F>,
    root: H::Output,
    point: Seq<int>,
    eval1: int,
    eval2: int,
    log0: Seq<Event<H::Output>>,
    read1: Seq<Event<H::Output>>,
    read2: Seq<Event<H::Output>>,
    fields: Seq<int>,
    digests: Seq<H::Output>,
    r1: Result<(), Error>,
    r2: Result<(), Error>,
)
    requires
        eval1 != eval2,
        verdict::<F, H>(vp, root, point, eval1, log0, read1, r1),
        r1 is Ok,
        verdict::<F, H>(vp, root, point, eval2, log0, read2, r2),
        follows::<F, H>(read1, fields, digests),
        follows::<F, H>(read2, fields, digests),
        read2.len() > 0 && read2.last() is NoField ==> fields_in(read2).len() == fields.len(),
        read2.len() > 0 && read2.last() is NoDigest ==> digests_in(read2).len() == digests.len(),
    ensures
        r2 is Err,
        r2->Err_0.is_open("QAPCS evaluation consistency failure"),
{
    let d1 = choose|d: OpeningData<H::Output>| #[trigger]
        accepted::<F, H>(vp, root, point, eval1, d) && read1 == log0 + d.events();
    events_messages(vp, d1);
    messages_concat(log0, d1.events());
    if r2 is Ok {
        let d2 = choose|d: OpeningData<H::Output>| #[trigger]
            accepted::<F, H>(vp, root, point, eval2, d) && read2 == log0 + d.events();
        let all = vp.qa.num_column_opening as nat;
        same_proof_same_opening::<F, H>(vp, d1, d2, all, log0, fields, digests);
        assert(d2.evaluation_row == d1.evaluation_row);
    } else {
        let e = r2->Err_0;
        let (d2, k) = choose|d: OpeningData<H::Output>, k: nat| #[trigger]
            refusal::<F, H>(vp, root, point, eval2, d, k, e) && read2 == log0 + d.events();
        same_proof_same_opening::<F, H>(vp, d1, d2, k, log0, fields, digests);
        assert(d2.evaluation_row == d1.evaluation_row);
    }
}

/// What an honest prover wrote is accepted: a verifier that reads the messages
/// of the proof behind the same steps succeeds, and reads all of them.
pub proof fn honest_proof_is_accepted<F: PrimeField, H: HashFunction>(
    pp: MultilinearQAPCSParams<F>,
    evals: Seq<int>,
    comm: MultilinearQAPCSCommitment<F, H>,
    point: Seq<int>,
    log0: Seq<Event<H::Output>>,
    written: Seq<Event<H::Output>>,
    read: Seq<Event<H::Output>>,
    fields: Seq<int>,
    digests: Seq<H::Output>,
    r: Result<(), Error>,
)
    requires
        pp.wf(),
        comm.commits_to(pp, evals),
        evals.len() == exp2(pp.num_vars as nat),
        vcanon::<F>(evals),
        point.len() == pp.num_vars,
        opened::<F, H>(pp, evals, comm, point, log0, written),
        verdict::<F, H>(pp, comm.root, point, mle::<F>(evals, point), log0, read, r),
        follows::<F, H>(written, fields, digests),
        follows::<F, H>(read, fields, digests),
        read.len() > 0 && read.last() is NoField ==> fields_in(read).len() == fields.len(),
        read.len() > 0 && read.last() is NoDigest ==> digests_in(read).len() == digests.len(),
    ensures
        r is Ok,
        read == written,
{
    let eval = mle::<F>(evals, point);
    let root = comm.root;
    honest_opening_is_accepted::<F, H>(pp, evals, comm, point, log0, written);
    if r is Err {
        claim_does_not_fail::<F, H>(
            pp,
            root,
            point,
            eval,
            written,
            r->Err_0,
            log0,
            written,
            read,
            fields,
            digests,
        );
    } else {
        same_proof_same_claim::<F, H>(
            pp,
            root,
            point,
            eval,
            written,
            read,
            log0,
            written,
            read,
            fields,
            digests,
        );
    }
}

/// The last claim of a batch, behind those before it.
proof fn batch_last<F: PrimeField, H: HashFunction>(
    vp: MultilinearQAPCSParams<F>,
    comms: Seq<MultilinearQAPCSCommitment<F, H>>,
    points: Seq<Vec<F>>,
    evals: Seq<Evaluation<F>>,
    k: nat,
    log0: Seq<Event<H::Output>>,
    log1: Seq<Event<H::Output>>,
) -> (mid: Seq<Event<H::Output>>)
    requires
        k > 0,
        batch_verified::<F, H>(vp, comms, points, evals, k, log0, log1),
    ensures
        batch_verified::<F, H>(vp, comms, points, evals, (k - 1) as nat, log0, mid),
        verified::<F, H>(
            vp,
            comms[evals[k - 1].poly as int].root,
            vals(points[evals[k - 1].point as int]@),
            evals[k - 1].value.val(),
            mid,
            log1,
        ),
        mid.is_prefix_of(log1),
{
    let e = evals[k - 1];
    choose|mid: Seq<Event<H::Output>>|
        batch_verified::<F, H>(vp, comms, points, evals, (k - 1) as nat, log0, mid)
            && #[trigger] verified::<F, H>(
            vp,
            comms[e.poly as int].root,
            vals(points[e.point as int]@),
            e.value.val(),
            mid,
            log1,
        )
}

/// Two verifiers of a batch that go through one proof behind the same steps end
/// in the same way.
proof fn same_proof_same_batch<F: PrimeField, H: HashFunction>(
    vp: MultilinearQAPCSParams<F>,
    comms: Seq<MultilinearQAPCSCommitment<F, H>>,
    points: Seq<Vec<F>>,
    evals: Seq<Evaluation<F>>,
    k: nat,
    a1: Seq<Event<H::Output>>,
    b1: Seq<Event<H::Output>>,
    log0: Seq<Event<H::Output>>,
    a: Seq<Event<H::Output>>,
    b: Seq<Event<H::Output>>,
    fields: Seq<int>,
    digests: Seq<H::Output>,
)
    requires
        batch_verified::<F, H>(vp, comms, points, evals, k, log0, a1),
        batch_verified::<F, H>(vp, comms, points, evals, k, log0, b1),
        a1.is_prefix_of(a),
        b1.is_prefix_of(b),
        follows::<F, H>(a, fields, digests),
        follows::<F, H>(b, fields, digests),
    ensures
        a1 == b1,
    decreases k,
{
    if k > 0 {
        let e = evals[k - 1];
        let m1 = batch_last::<F, H>(vp, comms, points, evals, k, log0, a1);
        let m2 = batch_last::<F, H>(vp, comms, points, evals, k, log0, b1);
        assert(m1.is_prefix_of(a));
        assert(m2.is_prefix_of(b));
        let j = (k - 1) as nat;
        same_proof_same_batch::<F, H>(
            vp,
            comms,
            points,
            evals,
            j,
            m1,
            m2,
            log0,
            a,
            b,
            fields,
            digests,
        );
        same_proof_same_claim::<F, H>(
            vp,
            comms[e.poly as int].root,
            vals(points[e.point as int]@),
            e.value.val(),
            a1,
            b1,
            m1,
            a,
            b,
            fields,
            digests,
        );
    }
}

/// Where one verifier accepted a batch, another one that goes through the same
/// proof behind the same steps, and does not run out of messages, fails at no
/// claim.
proof fn no_claim_fails<F: PrimeField, H: HashFunction>(
    vp: MultilinearQAPCSParams<F>,
    comms: Seq<MultilinearQAPCSCommitment<F, H>>,
    points: Seq<Vec<F>>,
    evals: Seq<Evaluation<F>>,
    n: nat,
    a1: Seq<Event<H::Output>>,
    k: nat,
    mid: Seq<Event<H::Output>>,
    e: Error,
    log0: Seq<Event<H::Output>>,
    a: Seq<Event<H::Output>>,
    b: Seq<Event<H::Output>>,
    fields: Seq<int>,
    digests: Seq<H::Output>,
)
    requires
        k < n <= evals.len(),
        points[evals[k as int].point as int]@.len() == vp.num_vars,
        batch_verified::<F, H>(vp, comms, points, evals, n, log0, a1),
        batch_verified::<F, H>(vp, comms, points, evals, k, log0, mid),
        a1.is_prefix_of(a),
        follows::<F, H>(a, fields, digests),
        follows::<F, H>(b, fields, digests),
        b.len() > 0 && b.last() is NoField ==> fields_in(b).len() == fields.len(),
        b.len() > 0 && b.last() is NoDigest ==> digests_in(b).len() == digests.len(),
    ensures
        !cut_within(e, mid, b, proof_fields(vp), proof_digests(vp)),
        !claim_refused::<F, H>(vp, comms, points, evals[k as int], mid, b, e),
    decreases n,
{
    let m = batch_last::<F, H>(vp, comms, points, evals, n, log0, a1);
    assert(m.is_prefix_of(a));
    if k + 1 < n {
        no_claim_fails::<F, H>(
            vp,
            comms,
            points,
            evals,
            (n - 1) as nat,
            m,
            k,
            mid,
            e,
            log0,
            a,
            b,
            fields,
            digests,
        );
    } else if mid.is_prefix_of(b) {
        let c = evals[k as int];
        same_proof_same_batch::<F, H>(
            vp,
            comms,
            points,
            evals,
            k,
            m,
            mid,
            log0,
            a,
            b,
            fields,
            digests,
        );
        claim_does_not_fail::<F, H>(
            vp,
            comms[c.poly as int].root,
            vals(points[c.point as int]@),
            c.value.val(),
            a1,
            e,
            mid,
            a,
            b,
            fields,
            digests,
        );
    }
}

/// What an honest prover wrote for a batch is accepted: a verifier that reads the
/// messages of the proof behind the same steps succeeds, and reads all of them.
pub proof fn honest_batch_proof_is_accepted<F: PrimeField, H: HashFunction>(
    pp: MultilinearQAPCSParams<F>,
    polys: Seq<Vec<F>>,
    comms: Seq<MultilinearQAPCSCommitment<F, H>>,
    points: Seq<Vec<F>>,
    evals: Seq<Evaluation<F>>,
    log0: Seq<Event<H::Output>>,
    written: Seq<Event<H::Output>>,
    read: Seq<Event<H::Output>>,
    fields: Seq<int>,
    digests: Seq<H::Output>,
    r: Result<(), Error>,
)
    requires
        pp.wf(),
        forall|i: int|
            0 <= i < evals.len() ==> {
                let e = #[trigger] evals[i];
                &&& polys[e.poly as int]@.len() == exp2(pp.num_vars as nat)
                &&& points[e.point as int]@.len() == pp.num_vars
                &&& comms[e.poly as int].commits_to(pp, vals(polys[e.poly as int]@))
            },
        batch_opened::<F, H>(pp, polys, comms, points, evals, evals.len(), log0, written),
        batch_verdict::<F, H>(pp, comms, points, evals, log0, read, r),
        follows::<F, H>(written, fields, digests),
        follows::<F, H>(read, fields, digests),
        read.len() > 0 && read.last() is NoField ==> fields_in(read).len() == fields.len(),
        read.len() > 0 && read.last() is NoDigest ==> digests_in(read).len() == digests.len(),
    ensures
        r is Ok,
        read == written,
{
    let n = evals.len();
    honest_batch_is_accepted::<F, H>(pp, polys, comms, points, evals, n, log0, written);
    if r is Err {
        let e = r->Err_0;
        let (k, mid) = choose|k: nat, mid: Seq<Event<H::Output>>|
            {
                &&& k < evals.len()
                &&& #[trigger] batch_verified::<F, H>(pp, comms, points, evals, k, log0, mid)
                &&& {
                    ||| cut_within(e, mid, read, proof_fields(pp), proof_digests(pp))
                    ||| claim_refused::<F, H>(
                        pp,
                        comms,
                        points,
                        evals[k as int],
                        mid,
                        read,
                        e,
                    )
                }
            };
        assert(points[evals[k as int].point as int]@.len() == pp.num_vars);
        no_claim_fails::<F, H>(
            pp,
            comms,
            points,
            evals,
            n,
            written,
            k,
            mid,
            e,
            log0,
            written,
            read,
            fields,
            digests,
        );
    } else {
        same_proof_same_batch::<F, H>(
            pp,
            comms,
            points,
            evals,
            n,
            written,
            read,
            log0,
            written,
            read,
            fields,
            digests,
        );
    }
}

} // verus!
