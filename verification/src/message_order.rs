//! What has been sent before each challenge.

use crate::brakingbase_open::opening_events;
use crate::classic_sumcheck::round_events;
use crate::field::PrimeField;
use crate::qapcs::{
    proof_digests, proof_fields, query_events, row_events, MultilinearQAPCSParams, OpeningData,
};
use crate::qapcs_shape::{proxy_of, QAPCSPolicy};
use crate::quasar_columns::column_events;
use crate::quasar_gkr::{coords, GkrChallenges};
use crate::transcript::{
    digests_in, drawn, fields_in, messages_concat, messages_of_sent, sent_commitments, sent_fields,
    Event,
};
use vstd::prelude::*;

verus! {

/// The challenges among the steps, in order.
pub open spec fn challenges_in<O>(log: Seq<Event<O>>) -> Seq<int>
    decreases log.len(),
{
    if log.len() == 0 {
        Seq::empty()
    } else {
        let prev = challenges_in(log.drop_last());
        match log.last() {
            Event::Challenge(c) => prev.push(c),
            _ => prev,
        }
    }
}

/// The steps sent these field elements and digests and drew these challenges.
pub open spec fn holds<O>(
    log: Seq<Event<O>>,
    fields: Seq<int>,
    digests: Seq<O>,
    challenges: Seq<int>,
) -> bool {
    &&& fields_in(log) == fields
    &&& digests_in(log) == digests
    &&& challenges_in(log) == challenges
}

proof fn challenges_concat<O>(a: Seq<Event<O>>, b: Seq<Event<O>>)
    ensures
        challenges_in(a + b) == challenges_in(a) + challenges_in(b),
    decreases b.len(),
{
    if b.len() == 0 {
        assert(a + b =~= a);
        assert(challenges_in(a) + challenges_in(b) =~= challenges_in(a));
    } else {
        challenges_concat(a, b.drop_last());
        assert((a + b).drop_last() =~= a + b.drop_last());
        assert((a + b).last() == b.last());
        assert(challenges_in(a + b) =~= challenges_in(a) + challenges_in(b));
    }
}

/// What two portions of steps hold together.
pub proof fn holds_concat<O>(a: Seq<Event<O>>, b: Seq<Event<O>>)
    ensures
        holds(
            a + b,
            fields_in(a) + fields_in(b),
            digests_in(a) + digests_in(b),
            challenges_in(a) + challenges_in(b),
        ),
{
    messages_concat(a, b);
    challenges_concat(a, b);
}

/// Steps that send field elements, send digests or draw challenges hold just those.
pub proof fn holds_plain<O>(v: Seq<int>, d: Seq<O>)
    ensures
        holds(sent_fields::<O>(v), v, Seq::empty(), Seq::empty()),
        holds(drawn::<O>(v), Seq::empty(), Seq::empty(), v),
        holds(sent_commitments(d), Seq::empty(), d, Seq::empty()),
    decreases v.len() + d.len(),
{
    messages_of_sent::<O>(v, d);
    if v.len() > 0 {
        holds_plain::<O>(v.drop_last(), d);
        assert(sent_fields::<O>(v).drop_last() =~= sent_fields::<O>(v.drop_last()));
        assert(drawn::<O>(v).drop_last() =~= drawn::<O>(v.drop_last()));
        assert(v =~= v.drop_last().push(v.last()));
    } else if d.len() > 0 {
        holds_plain::<O>(v, d.drop_last());
        assert(sent_commitments(d).drop_last() =~= sent_commitments(d.drop_last()));
        assert(challenges_in(sent_fields::<O>(v)) =~= Seq::empty());
        assert(challenges_in(drawn::<O>(v)) =~= v);
    } else {
        assert(challenges_in(drawn::<O>(v)) =~= v);
    }
    if d.len() > 0 && v.len() > 0 {
        holds_plain::<O>(Seq::empty(), d);
    }
}

/// Before challenge `i` of a sum-check, the messages of all rounds up to `i` have been
/// sent, and nothing of a later round.
pub proof fn round_message_comes_first<O>(
    messages: Seq<Seq<int>>,
    point: Seq<int>,
    i: int,
) -> (r: (Seq<Event<O>>, Seq<Event<O>>))
    requires
        messages.len() == point.len(),
        0 <= i < point.len(),
    ensures
        round_events::<O>(messages, point) == r.0.push(Event::Challenge(point[i])) + r.1,
        holds(r.0, messages.take(i + 1).flatten_alt(), Seq::empty(), point.take(i)),
    decreases point.len(),
{
    let k = messages.len() - 1;
    let (md, pd) = (messages.drop_last(), point.drop_last());
    let front = round_events::<O>(md, pd);
    let all = round_events::<O>(messages, point);
    if i < k {
        let r = round_message_comes_first::<O>(md, pd, i);
        assert(md.take(i + 1) =~= messages.take(i + 1));
        assert(pd.take(i) =~= point.take(i));
        let tail = (r.1 + sent_fields(messages[k])).push(Event::Challenge(point[k]));
        assert(all =~= r.0.push(Event::Challenge(point[i])) + tail);
        (r.0, tail)
    } else {
        let a = front + sent_fields(messages[k]);
        whole_rounds::<O>(md, pd);
        holds_concat(front, sent_fields::<O>(messages[k]));
        holds_plain::<O>(messages[k], Seq::empty());
        assert(messages.take(k + 1) =~= messages);
        assert(point.take(k) =~= pd);
        assert(digests_in(a) =~= Seq::empty());
        assert(challenges_in(a) =~= pd);
        assert(fields_in(a) =~= messages.flatten_alt());
        assert(all =~= a.push(Event::Challenge(point[k])) + Seq::<Event<O>>::empty());
        (a, Seq::empty())
    }
}

/// All messages and challenges of a sum-check.
pub proof fn whole_rounds<O>(messages: Seq<Seq<int>>, point: Seq<int>)
    requires
        messages.len() == point.len(),
    ensures
        holds(round_events::<O>(messages, point), messages.flatten_alt(), Seq::empty(), point),
    decreases point.len(),
{
    if point.len() > 0 {
        let k = messages.len() - 1;
        let (md, pd) = (messages.drop_last(), point.drop_last());
        let front = round_events::<O>(md, pd);
        let sent = sent_fields::<O>(messages[k]);
        let c = drawn::<O>(seq![point[k]]);
        whole_rounds::<O>(md, pd);
        holds_concat(front, sent);
        holds_plain::<O>(messages[k], Seq::empty());
        holds_concat(front + sent, c);
        holds_plain::<O>(seq![point[k]], Seq::empty());
        let all = round_events::<O>(messages, point);
        assert(all =~= front + sent + c);
        assert(digests_in(all) =~= Seq::empty());
        assert(challenges_in(all) =~= point);
        assert(fields_in(all) =~= messages.flatten_alt());
    } else {
        assert(point =~= Seq::empty());
    }
}

/// Before row combination `t` of an opening is sent, its coefficients and those of the
/// earlier ones have been drawn, and only the earlier combinations have been
/// sent.
pub proof fn coefficients_come_first<O>(d: OpeningData<O>, t: int) -> (r: (
    Seq<Event<O>>,
    Seq<Event<O>>,
))
    requires
        d.rows.len() == d.coeffs.len(),
        0 <= t < d.rows.len(),
    ensures
        d.events() == r.0 + sent_fields(d.rows[t]) + r.1,
        holds(
            r.0,
            d.rows.take(t).flatten_alt(),
            Seq::empty(),
            d.coeffs.take(t + 1).flatten_alt(),
        ),
{
    let (c, w) = (d.coeffs.take(t), d.rows.take(t));
    let r = row_prefix::<O>(d.coeffs, d.rows, t);
    whole_rows::<O>(c, w);
    let a = row_events::<O>(c, w) + drawn(d.coeffs[t]);
    holds_concat(row_events::<O>(c, w), drawn::<O>(d.coeffs[t]));
    holds_plain::<O>(d.coeffs[t], Seq::empty());
    assert(d.coeffs.take(t + 1).drop_last() =~= c);
    assert(fields_in(a) =~= w.flatten_alt());
    assert(digests_in(a) =~= Seq::empty());
    assert(challenges_in(a) =~= d.coeffs.take(t + 1).flatten_alt());
    let tail = r + sent_fields(d.evaluation_row) + query_events(d.queries, d.columns, d.paths);
    assert(d.events() =~= a + sent_fields(d.rows[t]) + tail);
    (a, tail)
}

proof fn row_prefix<O>(coeffs: Seq<Seq<int>>, rows: Seq<Seq<int>>, t: int) -> (r: Seq<Event<O>>)
    requires
        rows.len() == coeffs.len(),
        0 <= t < rows.len(),
    ensures
        row_events::<O>(coeffs, rows) == row_events::<O>(coeffs.take(t), rows.take(t)) + drawn(
            coeffs[t],
        ) + sent_fields(rows[t]) + r,
    decreases rows.len(),
{
    let k = rows.len() - 1;
    let (c, w) = (coeffs.drop_last(), rows.drop_last());
    let all = row_events::<O>(coeffs, rows);
    if t < k {
        let r = row_prefix::<O>(c, w, t);
        assert(c.take(t) =~= coeffs.take(t));
        assert(w.take(t) =~= rows.take(t));
        let tail = r + drawn(coeffs[k]) + sent_fields(rows[k]);
        assert(all =~= row_events::<O>(coeffs.take(t), rows.take(t)) + drawn(coeffs[t])
            + sent_fields(rows[t]) + tail);
        tail
    } else {
        assert(coeffs.take(t) =~= c && rows.take(t) =~= w);
        assert(all =~= row_events::<O>(c, w) + drawn(coeffs[t]) + sent_fields(rows[t])
            + Seq::<Event<O>>::empty());
        Seq::empty()
    }
}

proof fn whole_rows<O>(coeffs: Seq<Seq<int>>, rows: Seq<Seq<int>>)
    requires
        rows.len() == coeffs.len(),
    ensures
        holds(
            row_events::<O>(coeffs, rows),
            rows.flatten_alt(),
            Seq::empty(),
            coeffs.flatten_alt(),
        ),
    decreases rows.len(),
{
    if rows.len() > 0 {
        let (c, w) = (coeffs.drop_last(), rows.drop_last());
        let front = row_events::<O>(c, w);
        let (x, y) = (drawn::<O>(coeffs.last()), sent_fields::<O>(rows.last()));
        whole_rows::<O>(c, w);
        holds_concat(front, x);
        holds_concat(front + x, y);
        holds_plain::<O>(coeffs.last(), Seq::empty());
        holds_plain::<O>(rows.last(), Seq::empty());
        let all = row_events::<O>(coeffs, rows);
        assert(all == front + x + y);
        assert(fields_in(all) =~= rows.flatten_alt());
        assert(digests_in(all) =~= Seq::empty());
        assert(challenges_in(all) =~= coeffs.flatten_alt());
    }
}

/// Before query `q` of an opening is drawn, all row combinations, the row of the
/// evaluation point and the columns of the earlier queries with their paths have
/// been sent; its own column comes after it.
pub proof fn rows_come_before_queries<O>(d: OpeningData<O>, q: int) -> (r: (
    Seq<Event<O>>,
    Seq<Event<O>>,
))
    requires
        d.rows.len() == d.coeffs.len(),
        d.columns.len() == d.queries.len(),
        d.paths.len() == d.queries.len(),
        0 <= q < d.queries.len(),
    ensures
        d.events() == r.0.push(Event::Challenge(d.queries[q])) + sent_fields(d.columns[q])
            + sent_commitments(d.paths[q]) + r.1,
        holds(
            r.0,
            d.rows.flatten_alt() + d.evaluation_row + d.columns.take(q).flatten_alt(),
            d.paths.take(q).flatten_alt(),
            d.coeffs.flatten_alt() + d.queries.take(q),
        ),
{
    let (qs, cs, ps) = (d.queries.take(q), d.columns.take(q), d.paths.take(q));
    let r = query_prefix::<O>(d.queries, d.columns, d.paths, q);
    let rows = row_events::<O>(d.coeffs, d.rows);
    let row = sent_fields::<O>(d.evaluation_row);
    let front = query_events(qs, cs, ps);
    let a = rows + row + front;
    whole_rows::<O>(d.coeffs, d.rows);
    holds_plain::<O>(d.evaluation_row, Seq::empty());
    holds_concat(rows, row);
    holds_concat(rows + row, front);
    whole_queries::<O>(qs, cs, ps);
    assert(digests_in(a) =~= ps.flatten_alt());
    assert(fields_in(a) =~= d.rows.flatten_alt() + d.evaluation_row + cs.flatten_alt());
    assert(challenges_in(a) =~= d.coeffs.flatten_alt() + qs);
    assert(d.events() =~= a.push(Event::Challenge(d.queries[q])) + sent_fields(d.columns[q])
        + sent_commitments(d.paths[q]) + r);
    (a, r)
}

proof fn query_prefix<O>(
    queries: Seq<int>,
    columns: Seq<Seq<int>>,
    paths: Seq<Seq<O>>,
    q: int,
) -> (r: Seq<Event<O>>)
    requires
        columns.len() == queries.len(),
        paths.len() == queries.len(),
        0 <= q < queries.len(),
    ensures
        query_events(queries, columns, paths) == query_events(
            queries.take(q),
            columns.take(q),
            paths.take(q),
        ).push(Event::Challenge(queries[q])) + sent_fields(columns[q]) + sent_commitments(paths[q])
            + r,
    decreases queries.len(),
{
    let k = queries.len() - 1;
    let (qs, cs, ps) = (queries.drop_last(), columns.drop_last(), paths.drop_last());
    let all = query_events(queries, columns, paths);
    let front = query_events(queries.take(q), columns.take(q), paths.take(q));
    if q < k {
        let r = query_prefix::<O>(qs, cs, ps, q);
        assert(qs.take(q) =~= queries.take(q));
        assert(cs.take(q) =~= columns.take(q));
        assert(ps.take(q) =~= paths.take(q));
        let tail = r.push(Event::Challenge(queries[k])) + sent_fields(columns[k])
            + sent_commitments(paths[k]);
        assert(all =~= front.push(Event::Challenge(queries[q])) + sent_fields(columns[q])
            + sent_commitments(paths[q]) + tail);
        tail
    } else {
        assert(queries.take(q) =~= qs && columns.take(q) =~= cs && paths.take(q) =~= ps);
        assert(all =~= front.push(Event::Challenge(queries[q])) + sent_fields(columns[q])
            + sent_commitments(paths[q]) + Seq::<Event<O>>::empty());
        Seq::empty()
    }
}

proof fn whole_queries<O>(queries: Seq<int>, columns: Seq<Seq<int>>, paths: Seq<Seq<O>>)
    requires
        columns.len() == queries.len(),
        paths.len() == queries.len(),
    ensures
        holds(
            query_events(queries, columns, paths),
            columns.flatten_alt(),
            paths.flatten_alt(),
            queries,
        ),
    decreases queries.len(),
{
    if queries.len() > 0 {
        let (qs, cs, ps) = (queries.drop_last(), columns.drop_last(), paths.drop_last());
        let front = query_events(qs, cs, ps);
        let c = drawn::<O>(seq![queries.last()]);
        let (x, y) = (sent_fields::<O>(columns.last()), sent_commitments(paths.last()));
        whole_queries::<O>(qs, cs, ps);
        holds_concat(front, c);
        holds_concat(front + c, x);
        holds_concat(front + c + x, y);
        holds_plain::<O>(seq![queries.last()], Seq::empty());
        holds_plain::<O>(columns.last(), paths.last());
        let all = query_events(queries, columns, paths);
        assert(all =~= front + c + x + y);
        assert(fields_in(all) =~= columns.flatten_alt());
        assert(digests_in(all) =~= paths.flatten_alt());
        assert(challenges_in(all) =~= queries);
    } else {
        assert(queries =~= Seq::empty());
    }
}

/// The columns of the queries are sent whole and in order, with their paths, and no
/// challenge is drawn between them.
pub proof fn columns_are_sent_whole<O>(paths: Seq<Seq<O>>, cols: Seq<Seq<int>>)
    requires
        cols.len() == paths.len(),
    ensures
        holds(
            column_events(paths, cols),
            cols.flatten_alt(),
            paths.flatten_alt(),
            Seq::empty(),
        ),
        holds(
            opening_events(cols, paths),
            cols.flatten_alt(),
            paths.flatten_alt(),
            Seq::empty(),
        ),
    decreases cols.len(),
{
    if cols.len() > 0 {
        let (ps, cs) = (paths.drop_last(), cols.drop_last());
        let k = cols.len() - 1;
        let (x, y) = (sent_fields::<O>(cols[k]), sent_commitments(paths[k]));
        columns_are_sent_whole::<O>(ps, cs);
        opening_prefix::<O>(cs, paths, ps);
        let (a, b) = (column_events(ps, cs), opening_events(cs, paths));
        holds_plain::<O>(cols[k], paths[k]);
        holds_concat(a, y);
        holds_concat(a + y, x);
        holds_concat(b, x);
        holds_concat(b + x, y);
        let (u, v) = (column_events(paths, cols), opening_events(cols, paths));
        assert(u == a + y + x && v == b + x + y);
        assert(fields_in(u) =~= cols.flatten_alt() && fields_in(v) =~= cols.flatten_alt());
        assert(digests_in(u) =~= paths.flatten_alt() && digests_in(v) =~= paths.flatten_alt());
        assert(challenges_in(u) =~= Seq::empty() && challenges_in(v) =~= Seq::empty());
    }
}

proof fn opening_prefix<O>(cols: Seq<Seq<int>>, a: Seq<Seq<O>>, b: Seq<Seq<O>>)
    requires
        cols.len() <= a.len(),
        cols.len() <= b.len(),
        forall|i: int| 0 <= i < cols.len() ==> a[i] == #[trigger] b[i],
    ensures
        opening_events(cols, a) == opening_events(cols, b),
    decreases cols.len(),
{
    if cols.len() > 0 {
        opening_prefix::<O>(cols.drop_last(), a, b);
        assert(a[cols.len() - 1] == b[cols.len() - 1]);
    }
}

/// The challenges of the two layers are the weight of the blocks, that of the
/// instances where there is more than one, and the points of all outputs, with no
/// message between them.
pub proof fn layer_challenges_in_order<F: PrimeField, O>(ch: GkrChallenges<F>)
    ensures
        holds(
            ch.events::<O>(),
            Seq::empty(),
            Seq::empty(),
            seq![ch.block_batch_challenge.val()] + (if ch.gammas@.len() > 1 {
                seq![ch.instance_batch_challenge.val()]
            } else {
                Seq::empty()
            }) + coords(ch.gammas@),
        ),
{
    let one = seq![ch.block_batch_challenge.val()];
    let two = if ch.gammas@.len() > 1 {
        seq![ch.instance_batch_challenge.val()]
    } else {
        Seq::empty()
    };
    let all = coords(ch.gammas@);
    holds_plain::<O>(one, Seq::empty());
    holds_plain::<O>(two, Seq::empty());
    holds_plain::<O>(all, Seq::empty());
    holds_concat(drawn::<O>(one), drawn::<O>(two));
    holds_concat(drawn::<O>(one) + drawn::<O>(two), drawn::<O>(all));
    let log = ch.events::<O>();
    assert(fields_in(log) =~= Seq::empty());
    assert(digests_in(log) =~= Seq::empty());
    assert(challenges_in(log) =~= one + two + all);
}

/// The size objective of a shape with more than one row is the size of an opening: the
/// number of its field elements, or the number of bytes of its field elements and
/// digests.
pub proof fn objective_is_opening_size<F: PrimeField>(
    policy: QAPCSPolicy,
    pp: MultilinearQAPCSParams<F>,
)
    requires
        pp.num_rows > 1,
        pp.qa.codeword_len == policy.inverse_rate * pp.qa.row_len,
    ensures
        ({
            let size = proxy_of(
                policy,
                pp.qa.row_len as int,
                pp.num_rows as int,
                pp.qa.num_proximity_testing as int,
                pp.qa.num_column_opening as int,
            );
            &&& !policy.optimize_for_bytes ==> size == proof_fields(pp)
            &&& policy.optimize_for_bytes ==> size == proof_fields(pp) * policy.field_bytes
                + proof_digests(pp) * policy.hash_bytes
        }),
{
    let (t, n) = (pp.qa.num_proximity_testing as int, pp.qa.row_len as int);
    assert((1 + t) * n == t * n + n) by (nonlinear_arith);
}

} // verus!
