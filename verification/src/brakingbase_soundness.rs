//! What accepted column and parity checks show of the committed rows.

use crate::binding::{
    column_canon, leaf_binds, opened_column_is_committed, opened_leaf_is_committed,
};
use crate::brakingbase::{column_passed, column_read, padded_leaves, BrakingBaseVerifierParam};
use crate::brakingbase_checks::{
    cells_within, decomposition_claims, decomposition_fits, decomposition_passed, entries_at,
    four_read, halves_make_up_value, honest_two_factor_is_accepted, mask_of, mask_picks, parity_row,
    parity_row_combines_syndromes, parity_row_evaluates_matrix, parity_row_shape, syndromes,
    two_factor_cube_sum, two_factor_terms, two_factor_value,
};
use crate::brakingbase_open::{halves_of, opening_claims, opening_events};
use crate::brakingbase_run::{checks_accepted, BrakingBaseCheckedVerifier};
use crate::brakingbase_verify::{
    columns_accepted, columns_check_ok, columns_lead_to, columns_read, mask_canon, parity_ended,
    parity_read, verifier_logs, BrakingBaseColumnsVerifier, BrakingBaseVerification, ColumnsRead,
};
use crate::claims::Claim;
use crate::classic_sumcheck::{sumcheck_verified, terms_fit};
use crate::field::{fadd, fmul, PrimeField, Residue};
use crate::hash::{collision, HashFunction};
use crate::linear::{column, dot, ints, mcanon, rect, vals, vals_canon, vcanon};
use crate::merkle::{climb, column_leaves, leaf, root};
use crate::mle::{exp2, exp2_is_pow2, log2, mle};
use crate::parity::Entry;
use crate::quasar_columns::fold_columns;
use crate::quasar_soundness::folded_at;
use crate::sampling::sampled_positions;
use crate::spark::{claims_of, matrix_eval};
use crate::spark_memory::{next_pow2, next_pow2_fixed, next_pow2_is_pow2, padding_keeps_evaluation};
use crate::spark_soundness::triple;
use crate::sumcheck_soundness::{accepted_claim_is_the_sum, strayed_before};
use crate::transcript::{drawn, sent_commitments, sent_fields, Event};
use crate::transcript_binding::{canonical_parts, canonical_sent, canonical_steps};
use vstd::prelude::*;

verus! {

/// An accepted sum-check of a vector against two others, whose values are true, is
/// of the sum, unless a message strayed.
pub proof fn accepted_two_factor_sum_is_the_sum<F: PrimeField, O>(
    s: Seq<int>,
    p: Seq<int>,
    q: Seq<int>,
    eta: int,
    sum: int,
    terminal: int,
    z: Seq<int>,
    log0: Seq<Event<O>>,
    mid: Seq<Event<O>>,
    tail: Seq<Event<O>>,
)
    requires
        rect(triple(s, p, q), exp2(z.len())),
        mcanon::<F>(triple(s, p, q)),
        sumcheck_verified::<F, O>(z.len(), 2, sum, terminal, z, log0, mid),
        terminal == two_factor_value::<F>(
            mle::<F>(s, z),
            mle::<F>(p, z),
            mle::<F>(q, z),
            eta,
        ),
    ensures
        sum == fadd::<F>(dot::<F>(s, p), fmul::<F>(eta, dot::<F>(s, q))) || strayed_before::<F, O>(
            two_factor_terms(eta),
            triple(s, p, q),
            2,
            z,
            log0,
            tail,
            mid + tail,
        ),
{
    let polys = triple(s, p, q);
    let n = exp2(z.len());
    assert(polys[0].len() == n && polys[1].len() == n && polys[2].len() == n);
    assert(vcanon::<F>(polys[0]));
    honest_two_factor_is_accepted::<F>(s, p, q, eta, z);
    two_factor_cube_sum::<F>(s, p, q, eta, n);
    assert(terms_fit(two_factor_terms(eta), 3, 2));
    accepted_claim_is_the_sum::<F, O>(two_factor_terms(eta), polys, 2, sum, terminal, z, log0, mid);
}

/// Canonical steps that send columns send canonical columns.
proof fn canonical_openings<F: PrimeField, O>(cols: Seq<Seq<int>>, paths: Seq<Seq<O>>, i: int)
    requires
        canonical_steps::<F, O>(opening_events(cols, paths)),
        0 <= i < cols.len(),
    ensures
        vcanon::<F>(cols[i]),
    decreases cols.len(),
{
    let k = cols.len() - 1;
    let front = opening_events(cols.drop_last(), paths);
    canonical_parts::<F, O>(front + sent_fields(cols[k]), sent_commitments(paths[k]));
    canonical_parts::<F, O>(front, sent_fields(cols[k]));
    canonical_sent::<F, O>(cols[k]);
    if i < k {
        canonical_openings::<F, O>(cols.drop_last(), paths, i);
    }
}

/// The positions of a codeword that challenges select.
pub open spec fn positions(challenges: Seq<int>, codeword_len: int) -> Seq<int> {
    Seq::new(challenges.len(), |i: int| (challenges[i] % 4294967296) % codeword_len)
}

/// The weighted sum over all positions of the entries of one vector plus `eta` times
/// that of another.
pub open spec fn sampled_sum<F: Residue>(w: Seq<int>, a: Seq<int>, b: Seq<int>, eta: int) -> int {
    fadd::<F>(dot::<F>(w, a), fmul::<F>(eta, dot::<F>(w, b)))
}

/// The columns that were accepted are those of the committed rows: the claim is the
/// weighted sum of the entries of the two combinations of the rows at the positions
/// that the challenges select, as many as the parameters say, or the hash
/// function has a collision.
pub proof fn accepted_columns_are_committed<F: PrimeField, H: HashFunction, V, C>(
    vp: BrakingBaseVerifierParam<V, C>,
    rows: Seq<Seq<int>>,
    state: BrakingBaseVerification<F>,
    out: BrakingBaseColumnsVerifier<F>,
    log0: Seq<Event<H::Output>>,
    log1: Seq<Event<H::Output>>,
)
    requires
        vp.wf(),
        rows.len() == vp.num_rows,
        rect(rows, vp.codeword_len as nat),
        mcanon::<F>(rows),
        out.wf(vp),
        columns_accepted::<F, H, V, C>(
            vp,
            root::<H>(padded_leaves::<F, H>(rows, vp.codeword_len as nat)),
            state,
            out,
            log0,
            log1,
        ),
        canonical_steps::<F, H::Output>(log1),
    ensures
        ({
            let at = positions(vals(out.query_challenges@), vp.codeword_len as int);
            &&& at.len() == vp.num_queries
            &&& ints(out.query_indices@) == at
            &&& forall|i: int| 0 <= i < at.len() ==> 0 <= #[trigger] at[i] < vp.codeword_len
            &&& collision::<H>() || out.claim.val() == sampled_sum::<F>(
                vals(out.query_weights@),
                folded_at::<F>(vals(state.proximity_weights@), rows, at),
                folded_at::<F>(vals(state.row_weights@), rows, at),
                out.eta.val(),
            )
        }),
{
    let n = vp.codeword_len as nat;
    let ch = vals(out.query_challenges@);
    let at = positions(ch, n as int);
    let q = ints(out.query_indices@);
    let (pw, rw) = (vals(state.proximity_weights@), vals(state.row_weights@));
    vals_canon(out.query_challenges@);
    verifier_logs(vp);
    exp2_is_pow2(log2(n as int));
    assert forall|i: int| 0 <= i < at.len() implies q[i] == at[i] && 0 <= #[trigger] at[i] < n by {
        sampled_positions::<F>(ch, n as int, i);
    }
    assert(q =~= at);
    next_pow2_fixed(n as int);
    assert(padded_leaves::<F, H>(rows, n) =~= column_leaves::<F, H>(rows, n));
    let start = log0 + drawn(ch);
    let (d, log) = choose|d: ColumnsRead<H::Output>, log: Seq<Event<H::Output>>|
        {
            &&& #[trigger] columns_read(
                d,
                vp.num_queries as nat,
                vp.num_rows as nat,
                log2(n as int),
                start,
                log,
            )
            &&& columns_lead_to::<F, H>(
                d,
                root::<H>(padded_leaves::<F, H>(rows, vp.codeword_len as nat)),
                q,
            )
            &&& out.claim.val() == crate::brakingbase_open::columns_claim::<F>(
                pw,
                rw,
                d.cols,
                vals(out.query_weights@),
                out.eta.val(),
            )
            &&& log1 == log + drawn(vals(out.query_weights@)) + drawn(seq![out.eta.val()])
        };
    canonical_parts::<F, H::Output>(
        log + drawn(vals(out.query_weights@)),
        drawn(seq![out.eta.val()]),
    );
    canonical_parts::<F, H::Output>(log, drawn(vals(out.query_weights@)));
    canonical_parts::<F, H::Output>(start, opening_events(d.cols, d.paths));
    if !collision::<H>() {
        assert forall|i: int| 0 <= i < d.cols.len() implies #[trigger] d.cols[i]
            == column(rows, at[i]) by {
            assert(0 <= at[i] < n);
            canonical_openings::<F, H::Output>(d.cols, d.paths, i);
            assert(d.paths[i].len() == log2(n as int));
            opened_column_is_committed::<F, H>(rows, n, at[i], d.cols[i], d.paths[i]);
        }
        assert(fold_columns::<F>(pw, d.cols) =~= folded_at::<F>(pw, rows, at));
        assert(fold_columns::<F>(rw, d.cols) =~= folded_at::<F>(rw, rows, at));
    }
}

/// The four halves of two words stand, padded with zeros, first among the
/// polynomials.
pub open spec fn halves_first(
    polys: Seq<Seq<int>>,
    p: Seq<int>,
    q: Seq<int>,
    row_len: int,
    aux_len: nat,
) -> bool {
    forall|i: int| 0 <= i < 4 ==> #[trigger] polys[i] == halves_of(p, q, row_len, aux_len)[i]
}

/// True claims about the halves of two words make up the values of the words.
proof fn true_halves_make_up_values<F: PrimeField, O>(
    p: Seq<int>,
    q: Seq<int>,
    point: Seq<int>,
    p_eval: int,
    q_eval: int,
    aux_vars: nat,
    claims: Seq<Claim>,
    polys: Seq<Seq<int>>,
    log0: Seq<Event<O>>,
    log1: Seq<Event<O>>,
)
    requires
        point.len() > 0,
        p.len() == exp2(point.len()),
        q.len() == exp2(point.len()),
        point.len() <= aux_vars + 1,
        halves_first(polys, p, q, (p.len() / 2) as int, exp2(aux_vars)),
        decomposition_passed::<F, O>(point, p_eval, q_eval, aux_vars, claims, log0, log1),
        forall|i: int| 0 <= i < claims.len() ==> (#[trigger] claims[i]).is_true::<F>(polys),
    ensures
        p_eval == mle::<F>(p, point),
        q_eval == mle::<F>(q, point),
{
    let v = choose|v: Seq<int>|
        {
            &&& #[trigger] four_read(log0, log1, v)
            &&& decomposition_fits::<F>(point.last(), p_eval, q_eval, v)
            &&& claims == decomposition_claims(point, aux_vars, v)
        };
    assert(claims.len() == 4);
    assert(claims[0].is_true::<F>(polys) && claims[1].is_true::<F>(polys));
    assert(claims[2].is_true::<F>(polys) && claims[3].is_true::<F>(polys));
    let h = halves_of(p, q, (p.len() / 2) as int, exp2(aux_vars));
    assert(polys[0] == h[0] && polys[1] == h[1] && polys[2] == h[2] && polys[3] == h[3]);
    halves_make_up_value::<F>(p, point, aux_vars);
    halves_make_up_value::<F>(q, point, aux_vars);
}

/// An accepted column check all of whose claims are true shows that its claim is the
/// weighted sum of the entries of the two words at the positions queried, unless a
/// message of the sum-check strayed.
pub proof fn accepted_claim_is_of_the_words<F: PrimeField, O>(
    cols: BrakingBaseColumnsVerifier<F>,
    p: Seq<int>,
    q: Seq<int>,
    beta: Seq<int>,
    evals: Seq<int>,
    aux_vars: nat,
    claims: Seq<Claim>,
    polys: Seq<Seq<int>>,
    log0: Seq<Event<O>>,
    a: Seq<Event<O>>,
    b: Seq<Event<O>>,
)
    requires
        beta.len() > 0,
        beta.len() <= aux_vars + 1,
        p.len() == exp2(beta.len()),
        q.len() == exp2(beta.len()),
        vcanon::<F>(p),
        vcanon::<F>(q),
        cols.query_weights@.len() == cols.query_indices@.len(),
        forall|i: int|
            0 <= i < cols.query_indices@.len() ==> #[trigger] cols.query_indices@[i] < p.len(),
        halves_first(polys, p, q, (p.len() / 2) as int, exp2(aux_vars)),
        columns_check_ok::<F, O>(cols, beta, evals, log0, a),
        decomposition_passed::<F, O>(beta, evals[1], evals[2], aux_vars, claims, a, b),
        forall|i: int| 0 <= i < claims.len() ==> (#[trigger] claims[i]).is_true::<F>(polys),
    ensures
        ({
            let at = ints(cols.query_indices@);
            let w = vals(cols.query_weights@);
            ||| cols.claim.val() == sampled_sum::<F>(
                w,
                entries_at(p, at),
                entries_at(q, at),
                cols.eta.val(),
            )
            ||| strayed_before::<F, O>(
                two_factor_terms(cols.eta.val()),
                triple(mask_of::<F>(at, w, p.len()), p, q),
                2,
                beta,
                log0,
                sent_fields(seq![evals[1], evals[2]]),
                a,
            )
        }),
{
    let at = ints(cols.query_indices@);
    let w = vals(cols.query_weights@);
    let eta = cols.eta.val();
    let s = mask_of::<F>(at, w, p.len());
    assert forall|i: int| 0 <= i < at.len() implies 0 <= #[trigger] at[i] < p.len() by {
        assert(cols.query_indices@[i] < p.len());
    }
    let (terminal, mid) = choose|terminal: int, mid: Seq<Event<O>>|
        {
            &&& #[trigger] sumcheck_verified::<F, O>(
                beta.len(),
                2,
                cols.claim.val(),
                terminal,
                beta,
                log0,
                mid,
            )
            &&& evals[0] == mle::<F>(mask_of::<F>(at, w, exp2(beta.len())), beta)
            &&& terminal == two_factor_value::<F>(evals[0], evals[1], evals[2], eta)
            &&& a == mid + sent_fields(seq![evals[1], evals[2]])
        };
    true_halves_make_up_values::<F, O>(
        p,
        q,
        beta,
        evals[1],
        evals[2],
        aux_vars,
        claims,
        polys,
        a,
        b,
    );
    mask_canon::<F>(at, w, p.len());
    mask_picks::<F>(at, w, p);
    mask_picks::<F>(at, w, q);
    accepted_two_factor_sum_is_the_sum::<F, O>(
        s,
        p,
        q,
        eta,
        cols.claim.val(),
        terminal,
        beta,
        log0,
        mid,
        sent_fields(seq![evals[1], evals[2]]),
    );
}

/// The syndromes of two words vanish as far as their extensions at a point, combined
/// by `eta`, tell.
pub open spec fn syndromes_vanish<F: PrimeField>(
    entries: Seq<Entry>,
    p: Seq<int>,
    q: Seq<int>,
    y: Seq<int>,
    eta: int,
) -> bool {
    fadd::<F>(
        mle::<F>(syndromes::<F>(entries, p, exp2(y.len())), y),
        fmul::<F>(eta, mle::<F>(syndromes::<F>(entries, q, exp2(y.len())), y)),
    ) == 0
}

/// A message of the sum-check of a parity check strayed.
pub open spec fn parity_strayed<F: PrimeField, O>(
    entries: Seq<Entry>,
    p: Seq<int>,
    q: Seq<int>,
    y: Seq<int>,
    eta: int,
    gamma: Seq<int>,
    log0: Seq<Event<O>>,
) -> bool {
    exists|tail: Seq<Event<O>>, end: Seq<Event<O>>| #[trigger]
        strayed_before::<F, O>(
            two_factor_terms(eta),
            triple(parity_row::<F>(entries, p.len(), y), p, q),
            2,
            gamma,
            log0,
            tail,
            end,
        )
}

/// An accepted parity check all of whose claims are true, and whose value of the
/// parity matrix is true, shows that the syndromes of both words vanish as far as
/// its challenges tell, unless a message of the sum-check strayed.
pub proof fn accepted_words_have_no_syndrome<F: PrimeField, O>(
    entries: Seq<Entry>,
    p: Seq<int>,
    q: Seq<int>,
    y: Seq<int>,
    eta: int,
    gamma: Seq<int>,
    aux_vars: nat,
    h: int,
    claims: Seq<Claim>,
    polys: Seq<Seq<int>>,
    log0: Seq<Event<O>>,
    log1: Seq<Event<O>>,
)
    requires
        gamma.len() > 0,
        gamma.len() <= aux_vars + 1,
        p.len() == exp2(gamma.len()),
        q.len() == exp2(gamma.len()),
        vcanon::<F>(p),
        vcanon::<F>(q),
        cells_within(entries, p.len(), exp2(y.len())),
        halves_first(polys, p, q, (p.len() / 2) as int, exp2(aux_vars)),
        parity_ended::<F, O>(eta, gamma, aux_vars, h, claims, log0, log1),
        h == matrix_eval::<F>(entries, gamma, y),
        forall|i: int| 0 <= i < claims.len() ==> (#[trigger] claims[i]).is_true::<F>(polys),
    ensures
        syndromes_vanish::<F>(entries, p, q, y, eta) || parity_strayed::<F, O>(
            entries,
            p,
            q,
            y,
            eta,
            gamma,
            log0,
        ),
{
    let (terminal, v, a) = choose|terminal: int, v: Seq<int>, a: Seq<Event<O>>|
        {
            &&& #[trigger] parity_read::<F, O>(gamma, terminal, v, log0, a)
            &&& v[2] == h
            &&& terminal == two_factor_value::<F>(h, v[0], v[1], eta)
            &&& decomposition_passed::<F, O>(gamma, v[0], v[1], aux_vars, claims, a, log1)
        };
    let mid = choose|mid: Seq<Event<O>>|
        {
            &&& #[trigger] sumcheck_verified::<F, O>(gamma.len(), 2, 0, terminal, gamma, log0, mid)
            &&& a == mid + sent_fields(v)
        };
    let row = parity_row::<F>(entries, p.len(), y);
    parity_row_shape::<F>(entries, p.len(), y);
    parity_row_evaluates_matrix::<F>(entries, gamma, y);
    parity_row_combines_syndromes::<F>(entries, p, y);
    parity_row_combines_syndromes::<F>(entries, q, y);
    true_halves_make_up_values::<F, O>(p, q, gamma, v[0], v[1], aux_vars, claims, polys, a, log1);
    accepted_two_factor_sum_is_the_sum::<F, O>(
        row,
        p,
        q,
        eta,
        0,
        terminal,
        gamma,
        log0,
        mid,
        sent_fields(v),
    );
}

/// The two words agree with the two combinations of the committed rows at the
/// positions that the challenges select, as far as one weighted sum over all
/// positions tells.
pub open spec fn words_agree<F: PrimeField, V, C>(
    vp: BrakingBaseVerifierParam<V, C>,
    rows: Seq<Seq<int>>,
    state: BrakingBaseVerification<F>,
    out: BrakingBaseColumnsVerifier<F>,
    p: Seq<int>,
    q: Seq<int>,
) -> bool {
    let at = positions(vals(out.query_challenges@), vp.codeword_len as int);
    let w = vals(out.query_weights@);
    sampled_sum::<F>(
        w,
        folded_at::<F>(vals(state.proximity_weights@), rows, at),
        folded_at::<F>(vals(state.row_weights@), rows, at),
        out.eta.val(),
    ) == sampled_sum::<F>(w, entries_at(p, at), entries_at(q, at), out.eta.val())
}

/// A message of the sum-check of a column check strayed.
pub open spec fn columns_strayed<F: PrimeField, O>(
    out: BrakingBaseColumnsVerifier<F>,
    p: Seq<int>,
    q: Seq<int>,
    beta: Seq<int>,
    log0: Seq<Event<O>>,
) -> bool {
    exists|tail: Seq<Event<O>>, end: Seq<Event<O>>| #[trigger]
        strayed_before::<F, O>(
            two_factor_terms(out.eta.val()),
            triple(
                mask_of::<F>(ints(out.query_indices@), vals(out.query_weights@), p.len()),
                p,
                q,
            ),
            2,
            beta,
            log0,
            tail,
            end,
        )
}

/// Accepted checks all of whose claims are true, and whose value of the parity matrix
/// is true, show of the two words behind the claims: they agree with the two
/// combinations of the committed rows at the positions that the challenges select,
/// and their syndromes vanish. This is so as far as the challenges tell, and
/// unless the hash function has a collision or a message of a sum-check strayed.
pub proof fn accepted_checks_are_of_the_committed<F: PrimeField, H: HashFunction, V, C>(
    vp: BrakingBaseVerifierParam<V, C>,
    rows: Seq<Seq<int>>,
    entries: Seq<Entry>,
    p: Seq<int>,
    q: Seq<int>,
    polys: Seq<Seq<int>>,
    state: BrakingBaseVerification<F>,
    out: BrakingBaseCheckedVerifier<F>,
    log0: Seq<Event<H::Output>>,
    columns_log: Seq<Event<H::Output>>,
    columns_end: Seq<Event<H::Output>>,
    log1: Seq<Event<H::Output>>,
)
    requires
        vp.wf(),
        rows.len() == vp.num_rows,
        rect(rows, vp.codeword_len as nat),
        mcanon::<F>(rows),
        p.len() == vp.codeword_len,
        q.len() == vp.codeword_len,
        vcanon::<F>(p),
        vcanon::<F>(q),
        cells_within(entries, vp.codeword_len as nat, vp.row_len as nat),
        halves_first(polys, p, q, vp.row_len as int, vp.aux_len as nat),
        checks_accepted::<F, H, V, C>(
            vp,
            root::<H>(padded_leaves::<F, H>(rows, vp.codeword_len as nat)),
            state,
            out,
            log0,
            columns_log,
            columns_end,
            log1,
        ),
        canonical_steps::<F, H::Output>(columns_log),
        out.end.h_eval.val() == matrix_eval::<F>(
            entries,
            vals(out.end.gamma_point@),
            vals(out.parity.parity_point@),
        ),
        forall|i: int|
            0 <= i < claims_of(out.parity.claims@).len() ==> (#[trigger] claims_of(
                out.parity.claims@,
            )[i]).is_true::<F>(polys),
        forall|i: int|
            0 <= i < claims_of(out.end.claims@).len() ==> (#[trigger] claims_of(
                out.end.claims@,
            )[i]).is_true::<F>(polys),
    ensures
        out.columns.query_challenges@.len() == vp.num_queries,
        words_agree(vp, rows, state, out.columns, p, q) || collision::<H>() || columns_strayed::<
            F,
            H::Output,
        >(out.columns, p, q, vals(out.parity.beta@), columns_log),
        syndromes_vanish::<F>(
            entries,
            p,
            q,
            vals(out.parity.parity_point@),
            out.parity.eta.val(),
        ) || parity_strayed::<F, H::Output>(
            entries,
            p,
            q,
            vals(out.parity.parity_point@),
            out.parity.eta.val(),
            vals(out.end.gamma_point@),
            columns_end,
        ),
{
    verifier_logs(vp);
    crate::mle::pow2_is_exp2(vp.row_len as int);
    let aux_vars = log2(vp.aux_len as int);
    let beta = vals(out.parity.beta@);
    let gamma = vals(out.end.gamma_point@);
    let y = vals(out.parity.parity_point@);
    accepted_columns_are_committed::<F, H, V, C>(
        vp,
        rows,
        state,
        out.columns,
        log0,
        columns_log,
    );
    let (evals, a, b) = choose|
        evals: Seq<int>,
        a: Seq<Event<H::Output>>,
        b: Seq<Event<H::Output>>,
    |
        {
            &&& #[trigger] columns_check_ok::<F, H::Output>(
                out.columns,
                beta,
                evals,
                columns_log,
                a,
            )
            &&& #[trigger] decomposition_passed::<F, H::Output>(
                beta,
                evals[1],
                evals[2],
                aux_vars,
                claims_of(out.parity.claims@),
                a,
                b,
            )
            &&& columns_end == b + drawn(y) + drawn(seq![out.parity.eta.val()])
        };
    accepted_claim_is_of_the_words::<F, H::Output>(
        out.columns,
        p,
        q,
        beta,
        evals,
        aux_vars,
        claims_of(out.parity.claims@),
        polys,
        columns_log,
        a,
        b,
    );
    accepted_words_have_no_syndrome::<F, H::Output>(
        entries,
        p,
        q,
        y,
        out.parity.eta.val(),
        gamma,
        aux_vars,
        out.end.h_eval.val(),
        claims_of(out.end.claims@),
        polys,
        columns_end,
        log1,
    );
}

/// True claims of an opening are true claims about the columns, the parity check and
/// the matrix, and the claimed value is that of the message of the second word at
/// the column part of the point.
pub proof fn opened_value_is_of_the_word<F: PrimeField, V, C>(
    vp: BrakingBaseVerifierParam<V, C>,
    columns: Seq<Claim>,
    parity: Seq<Claim>,
    spark: Seq<Claim>,
    column_point: Seq<int>,
    eval: int,
    p: Seq<int>,
    q: Seq<int>,
    polys: Seq<Seq<int>>,
)
    requires
        vp.wf(),
        column_point.len() == log2(vp.row_len as int),
        q.len() == vp.codeword_len,
        halves_first(polys, p, q, vp.row_len as int, vp.aux_len as nat),
        ({
            let claims = opening_claims(
                columns,
                parity,
                spark,
                column_point,
                eval,
                log2(vp.aux_len as int),
            );
            forall|i: int| 0 <= i < claims.len() ==> (#[trigger] claims[i]).is_true::<F>(polys)
        }),
    ensures
        eval == mle::<F>(q.take(vp.row_len as int), column_point),
        forall|i: int| 0 <= i < columns.len() ==> (#[trigger] columns[i]).is_true::<F>(polys),
        forall|i: int| 0 <= i < parity.len() ==> (#[trigger] parity[i]).is_true::<F>(polys),
        forall|i: int| 0 <= i < spark.len() ==> (#[trigger] spark[i]).is_true::<F>(polys),
{
    let aux_vars = log2(vp.aux_len as int);
    let claims = opening_claims(columns, parity, spark, column_point, eval, aux_vars);
    let (a, b) = (columns.len() as int, parity.len() as int);
    verifier_logs(vp);
    crate::mle::pow2_is_exp2(vp.row_len as int);
    assert forall|i: int| 0 <= i < columns.len() implies (#[trigger] columns[i]).is_true::<F>(
        polys,
    ) by {
        assert(claims[i] == columns[i]);
    }
    assert forall|i: int| 0 <= i < parity.len() implies (#[trigger] parity[i]).is_true::<F>(
        polys,
    ) by {
        assert(claims[a + i] == parity[i]);
    }
    assert forall|i: int| 0 <= i < spark.len() implies (#[trigger] spark[i]).is_true::<F>(
        polys,
    ) by {
        assert(claims[a + b + i] == spark[i]);
    }
    assert(claims[a + b + spark.len()].is_true::<F>(polys));
    assert(polys[2] == halves_of(p, q, vp.row_len as int, vp.aux_len as nat)[2]);
    padding_keeps_evaluation::<F>(q.take(vp.row_len as int), column_point, aux_vars);
}

/// A column that was read and accepted against the root of committed rows is the column
/// at its index, or the hash function has a collision.
pub proof fn accepted_column_is_committed<F: PrimeField, H: HashFunction>(
    rows: Seq<Seq<int>>,
    codeword_len: nat,
    index: int,
    values: Seq<int>,
    log0: Seq<Event<H::Output>>,
    log1: Seq<Event<H::Output>>,
)
    requires
        0 <= index < codeword_len,
        rect(rows, codeword_len),
        mcanon::<F>(rows),
        column_passed::<F, H>(
            root::<H>(padded_leaves::<F, H>(rows, codeword_len)),
            rows.len(),
            codeword_len,
            index,
            values,
            log0,
            log1,
        ),
        canonical_steps::<F, H::Output>(log1),
    ensures
        values == column(rows, index) || collision::<H>(),
{
    let siblings = choose|siblings: Seq<H::Output>|
        {
            &&& #[trigger] column_read(
                log0,
                log1,
                rows.len(),
                log2(next_pow2(codeword_len as int)),
                values,
                siblings,
            )
            &&& climb::<H>(leaf::<F, H>(values), siblings, index) == root::<H>(
                padded_leaves::<F, H>(rows, codeword_len),
            )
        };
    let leaves = padded_leaves::<F, H>(rows, codeword_len);
    next_pow2_is_pow2(codeword_len as int);
    canonical_parts::<F, H::Output>(log0 + sent_fields(values), sent_commitments(siblings));
    canonical_parts::<F, H::Output>(log0, sent_fields(values));
    canonical_sent::<F, H::Output>(values);
    assert(leaves.len() == next_pow2(codeword_len as int));
    opened_leaf_is_committed::<H>(leaves, index, leaf::<F, H>(values), siblings);
    column_canon::<F>(rows, codeword_len, index);
    if !collision::<H>() {
        leaf_binds::<F, H>(values, column(rows, index));
    }
}

} // verus!
