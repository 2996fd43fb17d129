//! What an accepted opening shows of the committed polynomial.

use crate::binding::opened_column_is_committed;
use crate::field::{canon, PrimeField};
use crate::hash::{collision, HashFunction};
use crate::linear::{comb, mat_canon, vals, vcanon};
use crate::mle::{eq_evals, exp2, mle};
use crate::qa_code::{encode, encode_rows, rows_of, rows_of_shape};
use crate::qapcs::{
    accepted, batch_verified, column_point, folded_evaluation, honest_folds, query_events, query_ok,
    row_events, row_point, verified, Evaluation, MultilinearQAPCSCommitment, MultilinearQAPCSParams,
    OpeningData,
};
use crate::sampling::queried_column;
use crate::transcript::{sent_commitments, sent_fields, Event};
use crate::transcript_binding::{canonical_parts, canonical_sent, canonical_step, canonical_steps};
use vstd::prelude::*;

verus! {

/// Canonical query steps have canonical challenges and columns.
proof fn canonical_queries<F: PrimeField, O>(
    queries: Seq<int>,
    columns: Seq<Seq<int>>,
    paths: Seq<Seq<O>>,
    q: int,
)
    requires
        columns.len() == queries.len(),
        paths.len() == queries.len(),
        canonical_steps::<F, O>(query_events(queries, columns, paths)),
        0 <= q < queries.len(),
    ensures
        canon::<F>(queries[q]),
        vcanon::<F>(columns[q]),
    decreases queries.len(),
{
    let (qs, cs, ps) = (queries.drop_last(), columns.drop_last(), paths.drop_last());
    let front = query_events(qs, cs, ps);
    let c = Event::<O>::Challenge(queries.last());
    let sent = sent_fields::<O>(columns.last());
    canonical_parts::<F, O>(front.push(c) + sent, sent_commitments(paths.last()));
    canonical_parts::<F, O>(front.push(c), sent);
    canonical_sent::<F, O>(columns.last());
    assert(front.push(c) =~= front + seq![c]);
    canonical_parts::<F, O>(front, seq![c]);
    assert(canonical_step::<F, O>(seq![c][0]));
    if q < queries.len() - 1 {
        canonical_queries::<F, O>(qs, cs, ps, q);
    }
}

/// The combination of the rows of a polynomial with given weights.
pub open spec fn combined_rows<F: PrimeField>(
    pp: MultilinearQAPCSParams<F>,
    evals: Seq<int>,
    w: Seq<int>,
) -> Seq<int> {
    comb::<F>(
        w,
        rows_of(evals, pp.num_rows as nat, pp.qa.row_len as nat),
        pp.qa.row_len as nat,
    )
}

/// The place of the codeword that a challenge selects.
pub open spec fn place<F: PrimeField>(pp: MultilinearQAPCSParams<F>, challenge: int) -> int {
    (challenge % (usize::MAX + 1)) % pp.qa.codeword_len as int
}

/// The codewords of two rows agree at every place that was asked for.
pub open spec fn agree_where_asked<F: PrimeField>(
    pp: MultilinearQAPCSParams<F>,
    queries: Seq<int>,
    a: Seq<int>,
    b: Seq<int>,
) -> bool {
    forall|q: int|
        0 <= q < queries.len() ==> encode::<F>(a, pp.qa.qa_params.coeffs())[place(
            pp,
            #[trigger] queries[q],
        )] == encode::<F>(b, pp.qa.qa_params.coeffs())[place(pp, queries[q])]
}

/// Every row of an accepted opening agrees, at every place that was asked for, with
/// the same combination of the rows of the committed polynomial, or the hash
/// function has a collision. There are as many rows and places as the parameters
/// say.
pub proof fn accepted_rows_agree_with_committed<F: PrimeField, H: HashFunction>(
    pp: MultilinearQAPCSParams<F>,
    evals: Seq<int>,
    comm: MultilinearQAPCSCommitment<F, H>,
    point: Seq<int>,
    eval: int,
    d: OpeningData<H::Output>,
)
    requires
        pp.wf(),
        evals.len() == exp2(pp.num_vars as nat),
        vcanon::<F>(evals),
        point.len() == pp.num_vars,
        comm.commits_to(pp, evals),
        accepted::<F, H>(pp, comm.root, point, eval, d),
        canonical_steps::<F, H::Output>(d.events()),
    ensures
        d.queries.len() == pp.qa.num_column_opening,
        pp.num_rows > 1 ==> d.rows.len() == pp.qa.num_proximity_testing,
        d.rows.len() == d.coeffs.len(),
        eval == mle::<F>(d.evaluation_row, column_point(point, pp.num_rows as int)),
        collision::<H>() || {
            &&& forall|t: int|
                0 <= t < d.rows.len() ==> agree_where_asked(
                    pp,
                    d.queries,
                    #[trigger] d.rows[t],
                    combined_rows(pp, evals, d.coeffs[t]),
                )
            &&& agree_where_asked(
                pp,
                d.queries,
                d.evaluation_row,
                combined_rows(
                    pp,
                    evals,
                    eq_evals::<F>(row_point(point, pp.num_rows as int)),
                ),
            )
        },
{
    if !collision::<H>() {
        let n = pp.qa.row_len as nat;
        let len = pp.qa.codeword_len as nat;
        let m = rows_of(evals, pp.num_rows as nat, n);
        let e = pp.qa.qa_params.coeffs();
        let cw = encode_rows::<F>(m, e);
        let wr = eq_evals::<F>(row_point(point, pp.num_rows as int));
        pp.lemma_split();
        rows_of_shape(evals, pp.num_rows as nat, n);
        assert forall|i: int| 0 <= i < cw.len() implies (#[trigger] cw[i]).len() == len by {
            pp.qa.lemma_len(m[i]);
        }
        mat_canon(comm.rows@);
        if pp.num_rows == 1 {
            assert(crate::mle::log2(1) == 0);
            assert(row_point(point, 1) =~= Seq::empty());
            assert(wr =~= seq![1int]);
        }
        canonical_parts::<F, H::Output>(
            row_events(d.coeffs, d.rows) + sent_fields(d.evaluation_row),
            query_events(d.queries, d.columns, d.paths),
        );
        assert forall|q: int| 0 <= q < d.queries.len() implies ({
            let j = place(pp, #[trigger] d.queries[q]);
            &&& encode::<F>(d.evaluation_row, e)[j] == encode::<F>(
                combined_rows(pp, evals, wr),
                e,
            )[j]
            &&& forall|t: int|
                0 <= t < d.rows.len() ==> encode::<F>(#[trigger] d.rows[t], e)[j] == encode::<F>(
                    combined_rows(pp, evals, d.coeffs[t]),
                    e,
                )[j]
        }) by {
            canonical_queries::<F, H::Output>(d.queries, d.columns, d.paths, q);
            queried_column::<F>(d.queries[q], pp.qa.codeword_len);
            let j = place(pp, d.queries[q]);
            assert(query_ok::<F, H>(pp, comm.root, point, d, q));
            assert(d.columns[q].len() == pp.num_rows);
            opened_column_is_committed::<F, H>(cw, len, j, d.columns[q], d.paths[q]);
            honest_folds::<F, H>(pp, evals, comm, wr, j);
            assert forall|t: int| 0 <= t < d.rows.len() implies encode::<F>(
                #[trigger] d.rows[t],
                e,
            )[j] == encode::<F>(combined_rows(pp, evals, d.coeffs[t]), e)[j] by {
                assert(d.coeffs[t].len() == pp.num_rows);
                honest_folds::<F, H>(pp, evals, comm, d.coeffs[t], j);
            }
        }
    }
}

/// An accepted opening has a row other than the true one whose codeword agrees with
/// the true one at every place that was asked for.
pub open spec fn row_escaped<F: PrimeField, O>(
    pp: MultilinearQAPCSParams<F>,
    evals: Seq<int>,
    point: Seq<int>,
    log0: Seq<Event<O>>,
    log1: Seq<Event<O>>,
) -> bool {
    exists|d: OpeningData<O>| #[trigger]
        d.shaped(pp) && log1 == log0 + d.events() && {
            let row = combined_rows(
                pp,
                evals,
                eq_evals::<F>(row_point(point, pp.num_rows as int)),
            );
            &&& d.evaluation_row != row
            &&& agree_where_asked(pp, d.queries, d.evaluation_row, row)
        }
}

/// An accepted opening of a committed polynomial is of its true value, unless the
/// hash function has a collision or the row that was sent differs from the true one
/// and no place that was asked for tells their codewords apart.
pub proof fn accepted_value_is_the_evaluation<F: PrimeField, H: HashFunction>(
    pp: MultilinearQAPCSParams<F>,
    evals: Seq<int>,
    comm: MultilinearQAPCSCommitment<F, H>,
    point: Seq<int>,
    eval: int,
    log0: Seq<Event<H::Output>>,
    log1: Seq<Event<H::Output>>,
)
    requires
        pp.wf(),
        evals.len() == exp2(pp.num_vars as nat),
        vcanon::<F>(evals),
        point.len() == pp.num_vars,
        comm.commits_to(pp, evals),
        verified::<F, H>(pp, comm.root, point, eval, log0, log1),
        canonical_steps::<F, H::Output>(log1),
    ensures
        eval == mle::<F>(evals, point) || collision::<H>() || row_escaped::<F, H::Output>(
            pp,
            evals,
            point,
            log0,
            log1,
        ),
{
    let d = choose|d: OpeningData<H::Output>| #[trigger]
        accepted::<F, H>(pp, comm.root, point, eval, d) && log1 == log0 + d.events();
    canonical_parts::<F, H::Output>(log0, d.events());
    accepted_rows_agree_with_committed::<F, H>(pp, evals, comm, point, eval, d);
    pp.lemma_split();
    folded_evaluation::<F>(evals, pp.num_rows as nat, pp.qa.row_len as nat, point);
    if !collision::<H>() && eval != mle::<F>(evals, point) {
        assert(d.shaped(pp));
    }
}

/// Every claim of an accepted batch was accepted on its own, against the commitment,
/// the point and the value that it names.
pub proof fn accepted_batch_has_every_claim<F: PrimeField, H: HashFunction>(
    vp: MultilinearQAPCSParams<F>,
    comms: Seq<MultilinearQAPCSCommitment<F, H>>,
    points: Seq<Vec<F>>,
    evals: Seq<Evaluation<F>>,
    k: nat,
    log0: Seq<Event<H::Output>>,
    log1: Seq<Event<H::Output>>,
    i: int,
) -> (r: (Seq<Event<H::Output>>, Seq<Event<H::Output>>))
    requires
        k <= evals.len(),
        batch_verified::<F, H>(vp, comms, points, evals, k, log0, log1),
        0 <= i < k,
    ensures
        log0.is_prefix_of(r.0),
        r.0.is_prefix_of(r.1),
        r.1.is_prefix_of(log1),
        verified::<F, H>(
            vp,
            comms[evals[i].poly as int].root,
            vals(points[evals[i].point as int]@),
            evals[i].value.val(),
            r.0,
            r.1,
        ),
    decreases k,
{
    let e = evals[k - 1];
    let mid = choose|mid: Seq<Event<H::Output>>|
        batch_verified::<F, H>(vp, comms, points, evals, (k - 1) as nat, log0, mid)
            && #[trigger] verified::<F, H>(
            vp,
            comms[e.poly as int].root,
            vals(points[e.point as int]@),
            e.value.val(),
            mid,
            log1,
        );
    let d = choose|d: OpeningData<H::Output>| #[trigger]
        accepted::<F, H>(
            vp,
            comms[e.poly as int].root,
            vals(points[e.point as int]@),
            e.value.val(),
            d,
        ) && log1 == mid + d.events();
    batch_extends::<F, H>(vp, comms, points, evals, (k - 1) as nat, log0, mid);
    assert(mid.is_prefix_of(log1));
    if i == k - 1 {
        (mid, log1)
    } else {
        let r = accepted_batch_has_every_claim::<F, H>(
            vp,
            comms,
            points,
            evals,
            (k - 1) as nat,
            log0,
            mid,
            i,
        );
        assert(r.1.is_prefix_of(log1));
        r
    }
}

proof fn batch_extends<F: PrimeField, H: HashFunction>(
    vp: MultilinearQAPCSParams<F>,
    comms: Seq<MultilinearQAPCSCommitment<F, H>>,
    points: Seq<Vec<F>>,
    evals: Seq<Evaluation<F>>,
    k: nat,
    log0: Seq<Event<H::Output>>,
    log1: Seq<Event<H::Output>>,
)
    requires
        k <= evals.len(),
        batch_verified::<F, H>(vp, comms, points, evals, k, log0, log1),
    ensures
        log0.is_prefix_of(log1),
    decreases k,
{
    if k > 0 {
        let e = evals[k - 1];
        let mid = choose|mid: Seq<Event<H::Output>>|
            batch_verified::<F, H>(vp, comms, points, evals, (k - 1) as nat, log0, mid)
                && #[trigger] verified::<F, H>(
                vp,
                comms[e.poly as int].root,
                vals(points[e.point as int]@),
                e.value.val(),
                mid,
                log1,
            );
        batch_extends::<F, H>(vp, comms, points, evals, (k - 1) as nat, log0, mid);
    }
}

} // verus!
