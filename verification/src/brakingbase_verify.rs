//! The phases of the verification of a BrakingBase opening.

use crate::brakingbase::{
    column_read, read_and_verify_column, BrakingBaseProverParam, BrakingBaseVerifierParam,
};
use crate::brakingbase_checks::{
    codewords_pass_parity, decomposition_claims, decomposition_passed, decomposition_refused,
    decomposition_went, halves_at, honest_two_factor_is_accepted, mask_check_fields,
    mask_check_refused, mask_check_verified, mask_check_went, mask_of, mask_picks, parity_row,
    parity_row_evaluates_matrix, parity_row_shape, two_factor_cube_sum, two_factor_sum,
    two_factor_terms, two_factor_value, verify_code_decomposition, verify_two_factor,
};
use crate::brakingbase_open::{
    columns_at, columns_claim, columns_claim_holds, draw_queries, opening_claims, opening_events,
    parity_cells_within, paths_at, queries_of, shape_logs, size_logs, state_decomposes,
    BrakingBaseOpening, ParityEnd,
};
use crate::claims::Claim;
use crate::classic_sumcheck::{
    honest_run_is_accepted, round_error, run_events, sumcheck_refused, sumcheck_verified,
    sumcheck_verify, sumcheck_went, terms_fit,
};
use crate::error::Error;
use crate::field::{PrimeField, Residue};
use crate::hash::HashFunction;
use crate::linear::{comb, comb_len, ints, mat, mat_push, rect, vals, vals_canon, vcanon};
use crate::merkle::{climb, leaf};
use crate::mle::{eq_evals, exp2, exp2_mono, log2, log2_power_of_two, mle, pow2_is_exp2};
use crate::parity::parity_entries;
use crate::qa_code::{copied, rows_of};
use crate::qapcs::{column_point, point_to_tensor, row_point};
use crate::spark::{
    audit_values, claims_of, honest_spark_claims_are_true, matrix_eval, ops_values, spark_claims,
    OpeningClaim, SparkOffsets,
};
use crate::spark_memory::{extended, next_pow2, padded};
use crate::sumcheck::values_at;
use crate::transcript::{
    cut_later, cut_single, cut_within, digests_in, drawn, fields_in, messages_concat,
    messages_of_sent, read_field_elements, sent_commitments, sent_fields, squeeze_challenges, went,
    went_on, went_plain, Event, TranscriptRead,
};
use vstd::prelude::*;

verus! {

/// The verifier's state after the weights are drawn.
pub struct BrakingBaseVerification<F> {
    pub column_point: Vec<F>,
    pub row_weights: Vec<F>,
    pub proximity_weights: Vec<F>,
}

/// Splits the point and draws the weights of the rows.
pub fn verify_start<F: PrimeField, O, V, C, T: TranscriptRead<F, O>>(
    vp: &BrakingBaseVerifierParam<V, C>,
    point: &[F],
    transcript: &mut T,
) -> (r: Result<BrakingBaseVerification<F>, Error>)
    requires
        vp.wf(),
    ensures
        final(transcript).held() == old(transcript).held(),
        r is Ok <==> point@.len() == vp.num_vars,
        r matches Err(e) ==> e is InvalidPcsParam && *final(transcript) == *old(transcript),
        r matches Ok(state) ==> {
            &&& vals(state.column_point@) == column_point(vals(point@), vp.num_rows as int)
            &&& state.column_point@.len() == log2(vp.row_len as int)
            &&& vals(state.row_weights@) == eq_evals::<F>(
                row_point(vals(point@), vp.num_rows as int),
            )
            &&& state.row_weights@.len() == vp.num_rows
            &&& state.proximity_weights@.len() == vp.num_rows
            &&& final(transcript).log() == old(transcript).log() + drawn(
                vals(state.proximity_weights@),
            )
        },
{
    if point.len() != vp.num_vars {
        return Err(Error::param("the point does not have the number of variables of verify"));
    }
    proof {
        size_logs(
            vp.num_vars as int,
            vp.num_rows as int,
            vp.row_len as int,
            vp.codeword_len as int,
        );
    }
    let (row_weights, _column_weights) = point_to_tensor(vp.num_rows, point);
    let split: usize = vp.num_vars - log2_power_of_two(vp.num_rows);
    let column_part = copied(vstd::slice::slice_subrange(point, 0, split));
    proof {
        assert(vals(column_part@) =~= column_point(vals(point@), vp.num_rows as int));
        assert(vals(row_weights@).len() == row_weights@.len());
    }
    let proximity_weights = squeeze_challenges::<F, O, T>(transcript, vp.num_rows);
    Ok(BrakingBaseVerification { column_point: column_part, row_weights, proximity_weights })
}

/// Columns and paths that were read.
pub struct ColumnsRead<O> {
    pub cols: Seq<Seq<int>>,
    pub paths: Seq<Seq<O>>,
}

/// `k` columns of the right size were read with paths of the right length.
pub open spec fn columns_read<O>(
    d: ColumnsRead<O>,
    k: nat,
    num_rows: nat,
    depth: nat,
    log0: Seq<Event<O>>,
    log1: Seq<Event<O>>,
) -> bool {
    &&& d.cols.len() == k
    &&& d.paths.len() == k
    &&& rect(d.cols, num_rows)
    &&& forall|i: int| 0 <= i < k ==> (#[trigger] d.paths[i]).len() == depth
    &&& log1 == log0 + opening_events(d.cols, d.paths)
}

/// Every column read leads to the root.
pub open spec fn columns_lead_to<F: PrimeField, H: HashFunction>(
    d: ColumnsRead<H::Output>,
    root: H::Output,
    queries: Seq<int>,
) -> bool {
    forall|i: int|
        0 <= i < d.cols.len() ==> climb::<H>(
            leaf::<F, H>(#[trigger] d.cols[i]),
            d.paths[i],
            queries[i],
        ) == root
}

/// The verifier's state before the sum-check over sampled columns.
pub struct BrakingBaseColumnsVerifier<F> {
    pub query_challenges: Vec<F>,
    pub query_indices: Vec<usize>,
    pub query_weights: Vec<F>,
    pub eta: F,
    pub claim: F,
}

impl<F: PrimeField> BrakingBaseColumnsVerifier<F> {
    /// The positions are those that the challenges select.
    pub open spec fn wf<V, C>(self, vp: BrakingBaseVerifierParam<V, C>) -> bool {
        &&& self.query_challenges@.len() == vp.num_queries
        &&& self.query_weights@.len() == vp.num_queries
        &&& ints(self.query_indices@) == queries_of::<F>(
            vals(self.query_challenges@),
            vp.codeword_len as int,
        )
        &&& self.query_indices@.len() == vp.num_queries
        &&& forall|i: int|
            0 <= i < self.query_indices@.len() ==> #[trigger] self.query_indices@[i]
                < vp.codeword_len
    }
}

/// Columns were read that lead to the root, and the claim follows from them.
pub open spec fn columns_accepted<F: PrimeField, H: HashFunction, V, C>(
    vp: BrakingBaseVerifierParam<V, C>,
    root: H::Output,
    state: BrakingBaseVerification<F>,
    out: BrakingBaseColumnsVerifier<F>,
    log0: Seq<Event<H::Output>>,
    log1: Seq<Event<H::Output>>,
) -> bool {
    exists|d: ColumnsRead<H::Output>, log: Seq<Event<H::Output>>|
        {
            &&& #[trigger] columns_read(
                d,
                vp.num_queries as nat,
                vp.num_rows as nat,
                log2(vp.codeword_len as int),
                log0 + drawn(vals(out.query_challenges@)),
                log,
            )
            &&& columns_lead_to::<F, H>(d, root, ints(out.query_indices@))
            &&& out.claim.val() == columns_claim::<F>(
                vals(state.proximity_weights@),
                vals(state.row_weights@),
                d.cols,
                vals(out.query_weights@),
                out.eta.val(),
            )
            &&& log1 == log + drawn(vals(out.query_weights@)) + drawn(seq![out.eta.val()])
        }
}

/// Every column leads to the root but the last, which does not.
pub open spec fn last_misses<F: PrimeField, H: HashFunction>(
    d: ColumnsRead<H::Output>,
    root: H::Output,
    queries: Seq<int>,
) -> bool {
    let last = d.cols.len() - 1;
    &&& d.cols.len() > 0
    &&& forall|i: int|
        0 <= i < last ==> climb::<H>(
            leaf::<F, H>(#[trigger] d.cols[i]),
            d.paths[i],
            queries[i],
        ) == root
    &&& climb::<H>(leaf::<F, H>(d.cols[last]), d.paths[last], queries[last]) != root
}

/// Columns were read up to the first that does not lead to the root.
pub open spec fn columns_refused<F: PrimeField, H: HashFunction, V, C>(
    vp: BrakingBaseVerifierParam<V, C>,
    root: H::Output,
    log0: Seq<Event<H::Output>>,
    log1: Seq<Event<H::Output>>,
) -> bool {
    exists|challenges: Seq<int>, d: ColumnsRead<H::Output>, k: nat|
        {
            &&& k <= vp.num_queries
            &&& challenges.len() == vp.num_queries
            &&& #[trigger] columns_read(
                d,
                k,
                vp.num_rows as nat,
                log2(vp.codeword_len as int),
                log0 + drawn(challenges),
                log1,
            )
            &&& last_misses::<F, H>(
                d,
                root,
                queries_of::<F>(challenges, vp.codeword_len as int),
            )
        }
}

/// One more column and path.
proof fn columns_read_step<O>(
    d: ColumnsRead<O>,
    k: nat,
    num_rows: nat,
    depth: nat,
    log0: Seq<Event<O>>,
    log1: Seq<Event<O>>,
    log2: Seq<Event<O>>,
    col: Seq<int>,
    siblings: Seq<O>,
)
    requires
        columns_read(d, k, num_rows, depth, log0, log1),
        column_read(log1, log2, num_rows, depth, col, siblings),
    ensures
        columns_read(
            ColumnsRead { cols: d.cols.push(col), paths: d.paths.push(siblings) },
            k + 1,
            num_rows,
            depth,
            log0,
            log2,
        ),
{
    let e = ColumnsRead { cols: d.cols.push(col), paths: d.paths.push(siblings) };
    assert(e.cols.drop_last() =~= d.cols);
    opening_events_prefix(d.cols, d.paths, e.paths);
    assert(log0 + opening_events(e.cols, e.paths) =~= log0 + opening_events(d.cols, d.paths)
        + sent_fields(col) + sent_commitments(siblings));
}

proof fn opening_events_prefix<O>(cols: Seq<Seq<int>>, a: Seq<Seq<O>>, b: Seq<Seq<O>>)
    requires
        forall|i: int| 0 <= i < cols.len() ==> a[i] == #[trigger] b[i],
    ensures
        opening_events(cols, a) == opening_events(cols, b),
    decreases cols.len(),
{
    if cols.len() > 0 {
        opening_events_prefix(cols.drop_last(), a, b);
        assert(a[cols.len() - 1] == b[cols.len() - 1]);
    }
}

/// How many messages the columns and paths are.
pub proof fn columns_went<O>(
    d: ColumnsRead<O>,
    k: nat,
    num_rows: nat,
    depth: nat,
    log0: Seq<Event<O>>,
    log1: Seq<Event<O>>,
)
    requires
        columns_read(d, k, num_rows, depth, log0, log1),
    ensures
        went(log0, log1, k * num_rows, k * depth),
{
    opening_messages(d.cols, d.paths, num_rows, depth);
    messages_concat(log0, opening_events(d.cols, d.paths));
}

/// How many messages of either kind the columns and paths are.
proof fn opening_messages<O>(cols: Seq<Seq<int>>, paths: Seq<Seq<O>>, n: nat, depth: nat)
    requires
        cols.len() == paths.len(),
        rect(cols, n),
        forall|i: int| 0 <= i < paths.len() ==> (#[trigger] paths[i]).len() == depth,
    ensures
        fields_in(opening_events(cols, paths)).len() == cols.len() * n,
        digests_in(opening_events(cols, paths)).len() == cols.len() * depth,
    decreases cols.len(),
{
    if cols.len() > 0 {
        let k = cols.len() - 1;
        let (c, p) = (cols.drop_last(), paths.drop_last());
        assert forall|i: int| 0 <= i < c.len() implies (#[trigger] c[i]).len() == n by {
            assert(c[i] == cols[i]);
        }
        assert forall|i: int| 0 <= i < p.len() implies (#[trigger] p[i]).len() == depth by {
            assert(p[i] == paths[i]);
        }
        opening_messages(c, p, n, depth);
        opening_events_prefix(c, p, paths);
        let front = opening_events(c, paths);
        assert(cols[k].len() == n && paths[k].len() == depth);
        messages_concat(front, sent_fields::<O>(cols[k]));
        messages_concat(front + sent_fields::<O>(cols[k]), sent_commitments(paths[k]));
        messages_of_sent(cols[k], paths[k]);
        assert(k * n + n == (k + 1) * n) by (nonlinear_arith);
        assert(k * depth + depth == (k + 1) * depth) by (nonlinear_arith);
    } else {
        assert(0 * n == 0 && 0 * depth == 0) by (nonlinear_arith);
    }
}

/// Draws positions, reads the columns there and holds them to the root.
pub fn verify_columns<F: PrimeField, H: HashFunction, V, C, T: TranscriptRead<F, H::Output>>(
    vp: &BrakingBaseVerifierParam<V, C>,
    root: &H::Output,
    state: &BrakingBaseVerification<F>,
    transcript: &mut T,
) -> (r: Result<BrakingBaseColumnsVerifier<F>, Error>)
    requires
        vp.wf(),
        state.row_weights@.len() == vp.num_rows,
        state.proximity_weights@.len() == vp.num_rows,
    ensures
        final(transcript).held() == old(transcript).held(),
        r matches Ok(out) ==> out.wf(*vp) && columns_accepted::<F, H, V, C>(
            *vp,
            *root,
            *state,
            out,
            old(transcript).log(),
            final(transcript).log(),
        ),
        r matches Err(e) ==> cut_within(
            e,
            old(transcript).log(),
            final(transcript).log(),
            (vp.num_queries as nat) * (vp.num_rows as nat),
            (vp.num_queries as nat) * log2(vp.codeword_len as int),
        ) || (e.is_open("BrakingBase column Merkle path failed")
            && columns_refused::<F, H, V, C>(
            *vp,
            *root,
            old(transcript).log(),
            final(transcript).log(),
        )),
{
    proof {
        size_logs(
            vp.num_vars as int,
            vp.num_rows as int,
            vp.row_len as int,
            vp.codeword_len as int,
        );
    }
    let ghost log0 = transcript.log();
    let n: usize = vp.num_queries;
    let (query_challenges, query_indices) = draw_queries::<F, H::Output, T>(
        n,
        vp.codeword_len,
        transcript,
    );
    let ghost ch = vals(query_challenges@);
    let ghost q = ints(query_indices@);
    let ghost depth = log2(vp.codeword_len as int);
    let ghost logd = log0 + drawn(ch);
    let ghost mut d: ColumnsRead<H::Output> = ColumnsRead {
        cols: Seq::empty(),
        paths: Seq::empty(),
    };
    let mut cols: Vec<Vec<F>> = Vec::new();
    let mut i: usize = 0;
    proof {
        assert(logd + opening_events(d.cols, d.paths) =~= logd);
        assert(mat(cols@) =~= d.cols);
    }
    while i < n
        invariant
            transcript.held() == old(transcript).held(),
            i <= n,
            n == vp.num_queries,
            query_indices@.len() == n,
            ch.len() == n,
            q == ints(query_indices@),
            q == queries_of::<F>(ch, vp.codeword_len as int),
            next_pow2(vp.codeword_len as int) == vp.codeword_len,
            depth == log2(vp.codeword_len as int),
            logd == log0 + drawn(ch),
            log0 == old(transcript).log(),
            cols@.len() == i,
            mat(cols@) == d.cols,
            columns_read(d, i as nat, vp.num_rows as nat, depth, logd, transcript.log()),
            columns_lead_to::<F, H>(d, *root, q),
        decreases n - i,
    {
        let ghost log1 = transcript.log();
        let index: usize = query_indices[i];
        match read_and_verify_column::<F, H, T>(
            root,
            vp.num_rows,
            vp.codeword_len,
            index,
            transcript,
        ) {
            Ok(col) => {
                proof {
                    let v = vals(col@);
                    let s = choose|siblings: Seq<H::Output>|
                        {
                            &&& #[trigger] column_read(
                                log1,
                                transcript.log(),
                                vp.num_rows as nat,
                                depth,
                                v,
                                siblings,
                            )
                            &&& climb::<H>(leaf::<F, H>(v), siblings, index as int) == *root
                        };
                    columns_read_step(
                        d,
                        i as nat,
                        vp.num_rows as nat,
                        depth,
                        logd,
                        log1,
                        transcript.log(),
                        v,
                        s,
                    );
                    let e = ColumnsRead { cols: d.cols.push(v), paths: d.paths.push(s) };
                    assert forall|k: int| 0 <= k < e.cols.len() implies climb::<H>(
                        leaf::<F, H>(#[trigger] e.cols[k]),
                        e.paths[k],
                        q[k],
                    ) == *root by {
                        if k < i {
                            assert(e.cols[k] == d.cols[k]);
                        }
                    }
                    mat_push(cols@, col);
                    d = e;
                }
                cols.push(col);
            },
            Err(e) => {
                proof {
                    let (k, all) = (i as nat, n as nat);
                    let rows = vp.num_rows as nat;
                    if cut_within(e, log1, transcript.log(), rows, depth) {
                        columns_went(d, k, rows, depth, logd, log1);
                        went_plain::<H::Output>(log0, ch, Seq::empty());
                        went_on(log0, logd, log1, 0, 0, k * rows, k * depth);
                        assert(k * rows + rows <= all * rows) by (nonlinear_arith)
                            requires
                                k + 1 <= all,
                        ;
                        assert(k * depth + depth <= all * depth) by (nonlinear_arith)
                            requires
                                k + 1 <= all,
                        ;
                        cut_later(
                            e,
                            log0,
                            log1,
                            transcript.log(),
                            k * rows,
                            k * depth,
                            rows,
                            depth,
                            all * rows,
                            all * depth,
                        );
                    } else {
                        let (v, s) = choose|v: Seq<int>, siblings: Seq<H::Output>|
                            {
                                &&& #[trigger] column_read(
                                    log1,
                                    transcript.log(),
                                    vp.num_rows as nat,
                                    depth,
                                    v,
                                    siblings,
                                )
                                &&& climb::<H>(leaf::<F, H>(v), siblings, index as int) != *root
                            };
                        columns_read_step(
                            d,
                            i as nat,
                            vp.num_rows as nat,
                            depth,
                            logd,
                            log1,
                            transcript.log(),
                            v,
                            s,
                        );
                        let bad = ColumnsRead { cols: d.cols.push(v), paths: d.paths.push(s) };
                        assert(bad.cols[i as int] == v);
                        assert(bad.paths[i as int] == s);
                        assert forall|k: int| 0 <= k < i implies climb::<H>(
                            leaf::<F, H>(#[trigger] bad.cols[k]),
                            bad.paths[k],
                            q[k],
                        ) == *root by {
                            assert(bad.cols[k] == d.cols[k]);
                        }
                        assert(last_misses::<F, H>(bad, *root, q));
                        assert(columns_refused::<F, H, V, C>(
                            *vp,
                            *root,
                            log0,
                            transcript.log(),
                        ));
                    }
                }
                return Err(e);
            },
        }
        i = i + 1;
    }
    let ghost log3 = transcript.log();
    let query_weights = squeeze_challenges::<F, H::Output, T>(transcript, n);
    let eta = transcript.squeeze_challenge();
    let claim = crate::brakingbase_open::compute_columns_claim(
        &state.proximity_weights,
        &state.row_weights,
        &cols,
        &query_weights,
        eta,
    );
    let out = BrakingBaseColumnsVerifier {
        query_challenges,
        query_indices,
        query_weights,
        eta,
        claim,
    };
    proof {
        assert(drawn::<H::Output>(seq![eta.val()]) =~= seq![Event::Challenge(eta.val())]);
        assert(transcript.log() =~= log3 + drawn(vals(query_weights@)) + drawn(
            seq![eta.val()],
        ));
        assert(columns_read(
            d,
            vp.num_queries as nat,
            vp.num_rows as nat,
            log2(vp.codeword_len as int),
            log0 + drawn(vals(out.query_challenges@)),
            log3,
        ));
        assert(out.claim.val() == columns_claim::<F>(
            vals(state.proximity_weights@),
            vals(state.row_weights@),
            d.cols,
            vals(out.query_weights@),
            out.eta.val(),
        ));
        assert(columns_lead_to::<F, H>(d, *root, ints(out.query_indices@)));
        assert(columns_accepted::<F, H, V, C>(
            *vp,
            *root,
            *state,
            out,
            log0,
            transcript.log(),
        ));
    }
    Ok(out)
}

/// The verifier's state before the sum-check over the parity-check matrix.
pub struct BrakingBaseParityVerifier<F> {
    pub beta: Vec<F>,
    pub claims: Vec<OpeningClaim<F>>,
    pub parity_point: Vec<F>,
    pub eta: F,
}

/// The check of sampled columns was accepted with these values.
pub open spec fn columns_check_ok<F: PrimeField, O>(
    cols: BrakingBaseColumnsVerifier<F>,
    beta: Seq<int>,
    evals: Seq<int>,
    log0: Seq<Event<O>>,
    log1: Seq<Event<O>>,
) -> bool {
    &&& evals.len() == 3
    &&& mask_check_verified::<F, O>(
        ints(cols.query_indices@),
        vals(cols.query_weights@),
        cols.eta.val(),
        cols.claim.val(),
        beta,
        evals,
        log0,
        log1,
    )
}

/// The check of sampled columns ended well.
pub open spec fn columns_ended<F: PrimeField, O>(
    cols: BrakingBaseColumnsVerifier<F>,
    aux_vars: nat,
    out: BrakingBaseParityVerifier<F>,
    log0: Seq<Event<O>>,
    log1: Seq<Event<O>>,
) -> bool {
    let beta = vals(out.beta@);
    exists|evals: Seq<int>, a: Seq<Event<O>>, b: Seq<Event<O>>|
        {
            &&& #[trigger] columns_check_ok::<F, O>(cols, beta, evals, log0, a)
            &&& #[trigger] decomposition_passed::<F, O>(
                beta,
                evals[1],
                evals[2],
                aux_vars,
                claims_of(out.claims@),
                a,
                b,
            )
            &&& log1 == b + drawn(vals(out.parity_point@)) + drawn(seq![out.eta.val()])
        }
}

/// The values of the codewords fit and those of their halves do not.
pub open spec fn columns_split_refused<F: PrimeField, O>(
    cols: BrakingBaseColumnsVerifier<F>,
    code_vars: nat,
    log0: Seq<Event<O>>,
    log1: Seq<Event<O>>,
) -> bool {
    exists|beta: Seq<int>, evals: Seq<int>, a: Seq<Event<O>>|
        {
            &&& beta.len() == code_vars
            &&& #[trigger] columns_check_ok::<F, O>(cols, beta, evals, log0, a)
            &&& decomposition_refused::<F, O>(beta, evals[1], evals[2], a, log1)
        }
}

/// The sizes of verifier parameters as exponents.
pub proof fn verifier_logs<V, C>(vp: BrakingBaseVerifierParam<V, C>)
    requires
        vp.wf(),
    ensures
        exp2(log2(vp.codeword_len as int)) == vp.codeword_len,
        log2(vp.codeword_len as int) == log2(vp.row_len as int) + 1,
        exp2(log2(vp.aux_len as int)) == vp.aux_len,
        log2(vp.codeword_len as int) <= log2(vp.aux_len as int),
        exp2(log2(vp.num_ops as int)) == vp.num_ops,
        log2(vp.num_ops as int) <= log2(vp.aux_len as int),
{
    size_logs(
        vp.num_vars as int,
        vp.num_rows as int,
        vp.row_len as int,
        vp.codeword_len as int,
    );
    pow2_is_exp2(vp.aux_len as int);
    pow2_is_exp2(vp.num_ops as int);
    let b = log2(vp.aux_len as int);
    assert(exp2(b + 1) == 2 * exp2(b));
    if log2(vp.codeword_len as int) > b {
        exp2_mono(b + 1, log2(vp.codeword_len as int));
    }
    if log2(vp.num_ops as int) > b {
        exp2_mono(b + 1, log2(vp.num_ops as int));
    }
}

/// How many field elements the check of sampled columns sends behind them.
pub open spec fn column_check_fields(code_vars: nat) -> nat {
    mask_check_fields(code_vars) + 4
}

/// How many messages the check of sampled columns has behind them.
pub proof fn column_check_went<F: PrimeField, O>(
    cols: BrakingBaseColumnsVerifier<F>,
    aux_vars: nat,
    out: BrakingBaseParityVerifier<F>,
    log0: Seq<Event<O>>,
    log1: Seq<Event<O>>,
)
    requires
        columns_ended::<F, O>(cols, aux_vars, out, log0, log1),
    ensures
        went(log0, log1, column_check_fields(out.beta@.len()), 0),
{
    let beta = vals(out.beta@);
    let (y, eta) = (vals(out.parity_point@), seq![out.eta.val()]);
    let (evals, a, b) = choose|evals: Seq<int>, a: Seq<Event<O>>, b: Seq<Event<O>>|
        {
            &&& #[trigger] columns_check_ok::<F, O>(cols, beta, evals, log0, a)
            &&& #[trigger] decomposition_passed::<F, O>(
                beta,
                evals[1],
                evals[2],
                aux_vars,
                claims_of(out.claims@),
                a,
                b,
            )
            &&& log1 == b + drawn(y) + drawn(eta)
        };
    mask_check_went::<F, O>(
        ints(cols.query_indices@),
        vals(cols.query_weights@),
        cols.eta.val(),
        cols.claim.val(),
        beta,
        evals,
        log0,
        a,
    );
    decomposition_went::<F, O>(beta, evals[1], evals[2], aux_vars, claims_of(out.claims@), a, b);
    went_plain::<O>(b, y, Seq::empty());
    went_plain::<O>(b + drawn::<O>(y), eta, Seq::empty());
}

/// Runs the check of sampled columns and draws the point of the parity check.
pub fn verify_parity_start<F: PrimeField, O, V, C, T: TranscriptRead<F, O>>(
    vp: &BrakingBaseVerifierParam<V, C>,
    cols: &BrakingBaseColumnsVerifier<F>,
    transcript: &mut T,
) -> (r: Result<BrakingBaseParityVerifier<F>, Error>)
    requires
        vp.wf(),
        cols.wf(*vp),
    ensures
        final(transcript).held() == old(transcript).held(),
        r matches Ok(out) ==> {
            &&& out.beta@.len() == log2(vp.codeword_len as int)
            &&& out.parity_point@.len() == log2(vp.row_len as int)
            &&& columns_ended::<F, O>(
                *cols,
                log2(vp.aux_len as int),
                out,
                old(transcript).log(),
                final(transcript).log(),
            )
        },
        r matches Err(e) ==> {
            ||| cut_within(
                e,
                old(transcript).log(),
                final(transcript).log(),
                column_check_fields(log2(vp.codeword_len as int)),
                0,
            )
            ||| round_error(e) && sumcheck_refused::<F, O>(
                log2(vp.codeword_len as int),
                2,
                cols.claim.val(),
                old(transcript).log(),
                final(transcript).log(),
            )
            ||| e.is_open("BrakingBase sumcheck terminal failed") && mask_check_refused::<F, O>(
                log2(vp.codeword_len as int),
                ints(cols.query_indices@),
                vals(cols.query_weights@),
                cols.eta.val(),
                cols.claim.val(),
                old(transcript).log(),
                final(transcript).log(),
            )
            ||| e.is_open("codeword split evaluation mismatch") && columns_split_refused::<F, O>(
                *cols,
                log2(vp.codeword_len as int),
                old(transcript).log(),
                final(transcript).log(),
            )
        },
{
    let ghost log0 = transcript.log();
    proof {
        verifier_logs(*vp);
    }
    let code_vars: usize = log2_power_of_two(vp.codeword_len);
    let ghost first = mask_check_fields(code_vars as nat);
    let ghost all = column_check_fields(code_vars as nat);
    let (beta, evals) = match verify_two_factor(
        code_vars,
        cols.eta,
        cols.claim,
        &cols.query_indices,
        &cols.query_weights,
        transcript,
    ) {
        Ok(end) => end,
        Err(e) => {
            proof {
                if cut_within(e, log0, transcript.log(), first, 0) {
                    assert(went(log0, log0, 0, 0));
                    cut_later(e, log0, log0, transcript.log(), 0, 0, first, 0, all, 0);
                }
            }
            return Err(e);
        },
    };
    let ghost z = vals(beta@);
    let ghost v = vals(evals@);
    let ghost log1 = transcript.log();
    proof {
        assert(v.len() == 3);
        assert(v[1] == evals@[1].val() && v[2] == evals@[2].val());
        assert(columns_check_ok::<F, O>(*cols, z, v, log0, log1));
        mask_check_went::<F, O>(
            ints(cols.query_indices@),
            vals(cols.query_weights@),
            cols.eta.val(),
            cols.claim.val(),
            z,
            v,
            log0,
            log1,
        );
    }
    let aux_vars: usize = log2_power_of_two(vp.aux_len);
    let claims = match verify_code_decomposition(&beta, evals[1], evals[2], aux_vars, transcript) {
        Ok(claims) => claims,
        Err(e) => {
            proof {
                if cut_within(e, log1, transcript.log(), 4, 0) {
                    cut_later(e, log0, log1, transcript.log(), first, 0, 4, 0, all, 0);
                }
            }
            return Err(e);
        },
    };
    let ghost log2 = transcript.log();
    let row_vars: usize = log2_power_of_two(vp.row_len);
    let parity_point = squeeze_challenges::<F, O, T>(transcript, row_vars);
    let eta = transcript.squeeze_challenge();
    let out = BrakingBaseParityVerifier { beta, claims, parity_point, eta };
    proof {
        assert(drawn::<O>(seq![eta.val()]) =~= seq![Event::Challenge(eta.val())]);
        assert(transcript.log() =~= log2 + drawn(vals(parity_point@)) + drawn(seq![eta.val()]));
        assert(decomposition_passed::<F, O>(
            z,
            v[1],
            v[2],
            aux_vars as nat,
            claims_of(out.claims@),
            log1,
            log2,
        ));
    }
    Ok(out)
}

/// The sum-check over the parity-check matrix was read, then three values: of
/// both codewords and of the combined columns.
pub open spec fn parity_read<F: PrimeField, O>(
    gamma_point: Seq<int>,
    terminal: int,
    v: Seq<int>,
    log0: Seq<Event<O>>,
    log1: Seq<Event<O>>,
) -> bool {
    exists|mid: Seq<Event<O>>|
        {
            &&& v.len() == 3
            &&& #[trigger] sumcheck_verified::<F, O>(
                gamma_point.len(),
                2,
                0,
                terminal,
                gamma_point,
                log0,
                mid,
            )
            &&& log1 == mid + sent_fields(v)
        }
}

/// The sum-check over the parity-check matrix ended well.
pub open spec fn parity_ended<F: PrimeField, O>(
    eta: int,
    gamma_point: Seq<int>,
    aux_vars: nat,
    h: int,
    claims: Seq<Claim>,
    log0: Seq<Event<O>>,
    log1: Seq<Event<O>>,
) -> bool {
    exists|terminal: int, v: Seq<int>, a: Seq<Event<O>>|
        {
            &&& #[trigger] parity_read::<F, O>(gamma_point, terminal, v, log0, a)
            &&& v[2] == h
            &&& terminal == two_factor_value::<F>(h, v[0], v[1], eta)
            &&& decomposition_passed::<F, O>(gamma_point, v[0], v[1], aux_vars, claims, a, log1)
        }
}

/// Three values were read that do not fit the end of the sum-check.
pub open spec fn parity_refused<F: PrimeField, O>(
    eta: int,
    code_vars: nat,
    log0: Seq<Event<O>>,
    log1: Seq<Event<O>>,
) -> bool {
    exists|gamma_point: Seq<int>, terminal: int, v: Seq<int>|
        {
            &&& gamma_point.len() == code_vars
            &&& #[trigger] parity_read::<F, O>(gamma_point, terminal, v, log0, log1)
            &&& terminal != two_factor_value::<F>(v[2], v[0], v[1], eta)
        }
}

/// Three values were read that fit the end of the sum-check, and values of the
/// halves that do not fit them.
pub open spec fn parity_split_refused<F: PrimeField, O>(
    eta: int,
    code_vars: nat,
    log0: Seq<Event<O>>,
    log1: Seq<Event<O>>,
) -> bool {
    exists|gamma_point: Seq<int>, terminal: int, v: Seq<int>, a: Seq<Event<O>>|
        {
            &&& gamma_point.len() == code_vars
            &&& #[trigger] parity_read::<F, O>(gamma_point, terminal, v, log0, a)
            &&& terminal == two_factor_value::<F>(v[2], v[0], v[1], eta)
            &&& decomposition_refused::<F, O>(gamma_point, v[0], v[1], a, log1)
        }
}

/// How many field elements the parity check sends.
pub open spec fn parity_check_fields(code_vars: nat) -> nat {
    code_vars * 3 + 7
}

/// How many messages the parity check has.
pub proof fn parity_check_went<F: PrimeField, O>(
    eta: int,
    gamma_point: Seq<int>,
    aux_vars: nat,
    h: int,
    claims: Seq<Claim>,
    log0: Seq<Event<O>>,
    log1: Seq<Event<O>>,
)
    requires
        parity_ended::<F, O>(eta, gamma_point, aux_vars, h, claims, log0, log1),
    ensures
        went(log0, log1, parity_check_fields(gamma_point.len()), 0),
{
    let (terminal, v, a) = choose|terminal: int, v: Seq<int>, a: Seq<Event<O>>|
        {
            &&& #[trigger] parity_read::<F, O>(gamma_point, terminal, v, log0, a)
            &&& v[2] == h
            &&& terminal == two_factor_value::<F>(h, v[0], v[1], eta)
            &&& decomposition_passed::<F, O>(gamma_point, v[0], v[1], aux_vars, claims, a, log1)
        };
    parity_read_went::<F, O>(gamma_point, terminal, v, log0, a);
    decomposition_went::<F, O>(gamma_point, v[0], v[1], aux_vars, claims, a, log1);
}

/// How many messages the sum-check over the parity-check matrix has, with the
/// three values behind it.
pub proof fn parity_read_went<F: PrimeField, O>(
    gamma_point: Seq<int>,
    terminal: int,
    v: Seq<int>,
    log0: Seq<Event<O>>,
    log1: Seq<Event<O>>,
)
    requires
        parity_read::<F, O>(gamma_point, terminal, v, log0, log1),
    ensures
        went(log0, log1, gamma_point.len() * 3 + 3, 0),
{
    let n = gamma_point.len();
    let mid = choose|mid: Seq<Event<O>>|
        {
            &&& v.len() == 3
            &&& #[trigger] sumcheck_verified::<F, O>(n, 2, 0, terminal, gamma_point, log0, mid)
            &&& log1 == mid + sent_fields(v)
        };
    sumcheck_went::<F, O>(n, 2, 0, terminal, gamma_point, log0, mid);
    went_plain::<O>(mid, v, Seq::empty());
}

/// Runs the sum-check over the parity-check matrix. The value of the combined
/// columns is taken as sent; the evaluation proof for the sparse matrix binds
/// it.
pub fn verify_parity_finish<F: PrimeField, O, V, C, T: TranscriptRead<F, O>>(
    vp: &BrakingBaseVerifierParam<V, C>,
    parity: &BrakingBaseParityVerifier<F>,
    transcript: &mut T,
) -> (r: Result<ParityEnd<F>, Error>)
    requires
        vp.wf(),
    ensures
        final(transcript).held() == old(transcript).held(),
        r matches Ok(end) ==> {
            &&& end.gamma_point@.len() == log2(vp.codeword_len as int)
            &&& parity_ended::<F, O>(
                parity.eta.val(),
                vals(end.gamma_point@),
                log2(vp.aux_len as int),
                end.h_eval.val(),
                claims_of(end.claims@),
                old(transcript).log(),
                final(transcript).log(),
            )
        },
        r matches Err(e) ==> {
            ||| cut_within(
                e,
                old(transcript).log(),
                final(transcript).log(),
                parity_check_fields(log2(vp.codeword_len as int)),
                0,
            )
            ||| round_error(e) && sumcheck_refused::<F, O>(
                log2(vp.codeword_len as int),
                2,
                0,
                old(transcript).log(),
                final(transcript).log(),
            )
            ||| e.is_open("BrakingBase parity sumcheck terminal failed") && parity_refused::<F, O>(
                parity.eta.val(),
                log2(vp.codeword_len as int),
                old(transcript).log(),
                final(transcript).log(),
            )
            ||| e.is_open("codeword split evaluation mismatch") && parity_split_refused::<F, O>(
                parity.eta.val(),
                log2(vp.codeword_len as int),
                old(transcript).log(),
                final(transcript).log(),
            )
        },
{
    let ghost log0 = transcript.log();
    proof {
        verifier_logs(*vp);
    }
    let code_vars: usize = log2_power_of_two(vp.codeword_len);
    let ghost rounds = code_vars as nat * 3;
    let ghost all = parity_check_fields(code_vars as nat);
    let (terminal, gamma_point) = match sumcheck_verify(code_vars, 2, F::zero(), transcript) {
        Ok(end) => end,
        Err(e) => {
            proof {
                if cut_within(e, log0, transcript.log(), rounds, 0) {
                    assert(went(log0, log0, 0, 0));
                    cut_later(e, log0, log0, transcript.log(), 0, 0, rounds, 0, all, 0);
                }
            }
            return Err(e);
        },
    };
    let ghost z = vals(gamma_point@);
    let ghost mid = transcript.log();
    proof {
        sumcheck_went::<F, O>(code_vars as nat, 2, 0, terminal.val(), z, log0, mid);
    }
    let pq = match read_field_elements(transcript, 2) {
        Ok(pq) => pq,
        Err(e) => {
            proof {
                cut_later(e, log0, mid, transcript.log(), rounds, 0, 2, 0, all, 0);
            }
            return Err(e);
        },
    };
    let ghost between = transcript.log();
    proof {
        went_plain::<O>(mid, vals(pq@), Seq::empty());
        went_on(log0, mid, between, rounds, 0, 2, 0);
    }
    let h = match transcript.read_field_element() {
        Ok(h) => h,
        Err(e) => {
            proof {
                cut_single::<O>(e, between, 0, arbitrary());
                cut_later(e, log0, between, transcript.log(), rounds + 2, 0, 1, 0, all, 0);
            }
            return Err(e);
        },
    };
    let ghost v = seq![pq@[0].val(), pq@[1].val(), h.val()];
    let ghost log1 = transcript.log();
    proof {
        assert(vals(pq@) =~= seq![pq@[0].val(), pq@[1].val()]);
        assert(log1 =~= mid + sent_fields(v));
        assert(z.len() == code_vars);
        assert(sumcheck_verified::<F, O>(z.len(), 2, 0, terminal.val(), z, log0, mid));
        assert(parity_read::<F, O>(z, terminal.val(), v, log0, log1));
    }
    if !terminal.equals(h.times(pq[0].plus(parity.eta.times(pq[1])))) {
        return Err(Error::open("BrakingBase parity sumcheck terminal failed"));
    }
    let aux_vars: usize = log2_power_of_two(vp.aux_len);
    let claims = match verify_code_decomposition(&gamma_point, pq[0], pq[1], aux_vars, transcript) {
        Ok(claims) => claims,
        Err(e) => {
            proof {
                if cut_within(e, log1, transcript.log(), 4, 0) {
                    went_plain::<O>(mid, v, Seq::empty());
                    went_on(log0, mid, log1, rounds, 0, 3, 0);
                    cut_later(e, log0, log1, transcript.log(), rounds + 3, 0, 4, 0, all, 0);
                }
            }
            return Err(e);
        },
    };
    proof {
        assert(decomposition_passed::<F, O>(
            z,
            v[0],
            v[1],
            aux_vars as nat,
            claims_of(claims@),
            log1,
            transcript.log(),
        ));
    }
    Ok(ParityEnd { gamma_point, h_eval: h, claims })
}

/// The polynomials that an opening makes claims about: the halves of both
/// codewords, the reads of the sparse matrix, its fixed vectors.
pub open spec fn opened_polys<F: PrimeField, P, C>(
    pp: BrakingBaseProverParam<F, P, C>,
    state: BrakingBaseOpening<F>,
    x: Seq<int>,
    y: Seq<int>,
) -> Seq<Seq<int>> {
    mat(state.aux_polys@) + seq![
        padded(pp.spark.row_reads(x), pp.spark.aux_len as nat),
        padded(pp.spark.col_reads(y), pp.spark.aux_len as nat),
    ] + mat(pp.spark.static_polys@)
}

/// Every claim that an honest prover hands to the batched opening is true of the
/// polynomials that it committed to.
pub proof fn honest_opening_claims_are_true<F: PrimeField, P, C>(
    pp: BrakingBaseProverParam<F, P, C>,
    state: BrakingBaseOpening<F>,
    x: Seq<int>,
    y: Seq<int>,
    beta: Seq<int>,
    gamma_point: Seq<int>,
    dot_point: Seq<int>,
    ops_point: Seq<int>,
    mem_point: Seq<int>,
    i: int,
)
    requires
        pp.wf(),
        state.sized(pp),
        x.len() == pp.spark.mem_vars(),
        y.len() == pp.spark.mem_vars(),
        dot_point.len() == pp.spark.ops_vars(),
        ops_point.len() == pp.spark.ops_vars(),
        mem_point.len() == pp.spark.mem_vars(),
        0 <= i < 20,
    ensures
        ({
            let aux_vars = log2(pp.spark.aux_len as int);
            let aux = mat(state.aux_polys@);
            let zc = vals(state.column_point@);
            let evals = values_at::<F>(
                seq![pp.spark.vectors()[2], pp.spark.row_reads(x), pp.spark.col_reads(y)],
                dot_point,
            );
            let claims = opening_claims(
                decomposition_claims(beta, aux_vars, halves_at::<F>(aux, beta, aux_vars)),
                decomposition_claims(
                    gamma_point,
                    aux_vars,
                    halves_at::<F>(aux, gamma_point, aux_vars),
                ),
                spark_claims(
                    (SparkOffsets { dynamic_offset: 4, static_offset: 6 }),
                    aux_vars,
                    dot_point,
                    evals,
                    ops_point,
                    ops_values(pp.spark, x, y, ops_point),
                    mem_point,
                    audit_values(pp.spark, mem_point),
                ),
                zc,
                mle::<F>(aux[2], extended(zc, aux_vars)),
                aux_vars,
            );
            &&& claims.len() == 20
            &&& claims[i].value == mle::<F>(
                opened_polys(pp, state, x, y)[claims[i].poly],
                claims[i].point,
            )
        }),
{
    let polys = opened_polys(pp, state, x, y);
    let aux = mat(state.aux_polys@);
    let at = SparkOffsets { dynamic_offset: 4, static_offset: 6 };
    crate::spark::spark_shape(pp.spark);
    assert(aux.len() == 4);
    assert forall|k: int| 0 <= k < 7 implies polys[at.static_offset + k] == padded(
        #[trigger] pp.spark.vectors()[k],
        pp.spark.aux_len as nat,
    ) by {
        assert(polys[6 + k] == mat(pp.spark.static_polys@)[k]);
    }
    assert(polys[4] == padded(pp.spark.row_reads(x), pp.spark.aux_len as nat));
    assert(polys[5] == padded(pp.spark.col_reads(y), pp.spark.aux_len as nat));
    assert(polys[0] == aux[0] && polys[1] == aux[1] && polys[2] == aux[2] && polys[3] == aux[3]);
    if 8 <= i < 19 {
        honest_spark_claims_are_true(
            pp.spark,
            x,
            y,
            at,
            polys,
            dot_point,
            ops_point,
            mem_point,
            i - 8,
        );
    }
}

/// The columns that an honest prover opens are accepted: they lead to the root of
/// the commitment, and the verifier's claim is the prover's.
pub proof fn honest_columns_are_accepted<F: PrimeField, H: HashFunction, P, V, C>(
    pp: BrakingBaseProverParam<F, P, C>,
    vp: BrakingBaseVerifierParam<V, C>,
    comm: crate::brakingbase::BrakingBaseCommitment<F, H>,
    state: BrakingBaseVerification<F>,
    out: BrakingBaseColumnsVerifier<F>,
    log0: Seq<Event<H::Output>>,
)
    requires
        pp.wf(),
        vp.wf(),
        crate::brakingbase::params_agree(pp, vp),
        comm.has_data(pp.num_rows as nat, pp.codeword_len as nat),
        comm.consistent(pp.codeword_len as nat),
        out.wf(vp),
        out.claim.val() == columns_claim::<F>(
            vals(state.proximity_weights@),
            vals(state.row_weights@),
            columns_at(mat(comm.rows@), ints(out.query_indices@)),
            vals(out.query_weights@),
            out.eta.val(),
        ),
    ensures
        ({
            let q = ints(out.query_indices@);
            columns_accepted::<F, H, V, C>(
                vp,
                comm.root,
                state,
                out,
                log0,
                log0 + drawn(vals(out.query_challenges@)) + opening_events(
                    columns_at(mat(comm.rows@), q),
                    paths_at::<H>(comm.leaves(pp.codeword_len as nat), q),
                ) + drawn(vals(out.query_weights@)) + drawn(seq![out.eta.val()]),
            )
        }),
{
    shape_logs(pp);
    let q = ints(out.query_indices@);
    let rows = mat(comm.rows@);
    let leaves = comm.leaves(pp.codeword_len as nat);
    let d = ColumnsRead::<H::Output> {
        cols: columns_at(rows, q),
        paths: paths_at::<H>(leaves, q),
    };
    let start = log0 + drawn(vals(out.query_challenges@));
    let log = start + opening_events(d.cols, d.paths);
    assert(q.len() == vp.num_queries);
    assert forall|i: int| 0 <= i < q.len() implies {
        &&& (#[trigger] d.paths[i]).len() == log2(vp.codeword_len as int)
        &&& climb::<H>(leaf::<F, H>(d.cols[i]), d.paths[i], q[i]) == comm.root
    } by {
        assert(out.query_indices@[i] < vp.codeword_len);
        crate::brakingbase::committed_columns_are_authentic(
            comm,
            pp.codeword_len as nat,
            q[i],
        );
    }
    assert forall|i: int| 0 <= i < d.cols.len() implies climb::<H>(
        leaf::<F, H>(#[trigger] d.cols[i]),
        d.paths[i],
        q[i],
    ) == comm.root by {
        let _ = d.paths[i];
    }
    assert forall|i: int| 0 <= i < d.cols.len() implies (#[trigger] d.cols[i]).len()
        == vp.num_rows by {
        assert(d.cols[i].len() == rows.len());
    }
    assert(columns_read(
        d,
        vp.num_queries as nat,
        vp.num_rows as nat,
        log2(vp.codeword_len as int),
        start,
        log,
    ));
    assert(columns_lead_to::<F, H>(d, comm.root, q));
}

/// A sum-check over `s (p + eta q)` with a true claim is accepted.
proof fn honest_two_factor_run<F: PrimeField, O>(
    s: Seq<int>,
    p: Seq<int>,
    q: Seq<int>,
    eta: int,
    z: Seq<int>,
    log0: Seq<Event<O>>,
)
    requires
        s.len() == exp2(z.len()),
        p.len() == s.len(),
        q.len() == s.len(),
        vcanon::<F>(s),
        vcanon::<F>(p),
        vcanon::<F>(q),
    ensures
        sumcheck_verified::<F, O>(
            z.len(),
            2,
            two_factor_sum::<F>(s, p, q, eta),
            two_factor_value::<F>(mle::<F>(s, z), mle::<F>(p, z), mle::<F>(q, z), eta),
            z,
            log0,
            log0 + run_events::<F, O>(two_factor_terms(eta), seq![s, p, q], 2, z),
        ),
{
    let ts = two_factor_terms(eta);
    let polys = seq![s, p, q];
    assert(terms_fit(ts, 3, 2)) by {
        assert forall|t: int| 0 <= t < ts.len() implies {
            &&& (#[trigger] ts[t]).factors.len() <= 2
            &&& forall|i: int| 0 <= i < ts[t].factors.len() ==> #[trigger] ts[t].factors[i] < 3
        } by {}
    }
    assert forall|k: int| 0 <= k < polys.len() implies vcanon::<F>(#[trigger] polys[k])
        && polys[k].len() == s.len() by {
        assert(polys[k] == s || polys[k] == p || polys[k] == q);
    }
    two_factor_cube_sum::<F>(s, p, q, eta, s.len());
    honest_two_factor_is_accepted::<F>(s, p, q, eta, z);
    honest_run_is_accepted::<F, O>(ts, polys, 2, two_factor_sum::<F>(s, p, q, eta), z, log0);
}

/// The sum-check over sampled columns that an honest prover runs is accepted.
pub proof fn honest_column_check_is_accepted<F: PrimeField, H: HashFunction, P, C, O>(
    pp: BrakingBaseProverParam<F, P, C>,
    poly: Seq<int>,
    point: Seq<int>,
    comm: crate::brakingbase::BrakingBaseCommitment<F, H>,
    state: BrakingBaseOpening<F>,
    queries: Seq<int>,
    weights: Seq<int>,
    eta: int,
    beta: Seq<int>,
    log0: Seq<Event<O>>,
)
    requires
        pp.wf(),
        poly.len() == exp2(pp.num_vars as nat),
        state.wf(pp, poly, point),
        comm.commits_to(pp, poly),
        weights.len() == queries.len(),
        vcanon::<F>(weights),
        forall|i: int| 0 <= i < queries.len() ==> 0 <= #[trigger] queries[i] < pp.codeword_len,
        beta.len() == log2(pp.codeword_len as int),
    ensures
        ({
            let (p, q) = (vals(state.p_codeword@), vals(state.q_codeword@));
            let mask = mask_of::<F>(queries, weights, pp.codeword_len as nat);
            let evals = seq![mle::<F>(mask, beta), mle::<F>(p, beta), mle::<F>(q, beta)];
            mask_check_verified::<F, O>(
                queries,
                weights,
                eta,
                columns_claim::<F>(
                    vals(state.proximity_weights@),
                    vals(state.row_weights@),
                    columns_at(mat(comm.rows@), queries),
                    weights,
                    eta,
                ),
                beta,
                evals,
                log0,
                log0 + run_events::<F, O>(two_factor_terms(eta), seq![mask, p, q], 2, beta)
                    + sent_fields(seq![evals[1], evals[2]]),
            )
        }),
{
    shape_logs(pp);
    let (p, q) = (vals(state.p_codeword@), vals(state.q_codeword@));
    let mask = mask_of::<F>(queries, weights, pp.codeword_len as nat);
    vals_canon(state.p_codeword@);
    vals_canon(state.q_codeword@);
    mask_picks::<F>(queries, weights, p);
    mask_canon::<F>(queries, weights, pp.codeword_len as nat);
    columns_claim_holds(pp, poly, point, comm, state, queries, weights, eta);
    honest_two_factor_run::<F, O>(mask, p, q, eta, beta, log0);
}

/// A mask has one canonical entry for every position.
pub proof fn mask_canon<F: Residue>(queries: Seq<int>, weights: Seq<int>, n: nat)
    requires
        forall|i: int| 0 <= i < queries.len() ==> 0 <= #[trigger] queries[i] < n,
    ensures
        mask_of::<F>(queries, weights, n).len() == n,
        vcanon::<F>(mask_of::<F>(queries, weights, n)),
    decreases queries.len(),
{
    crate::field::canon_consts::<F>();
    if queries.len() > 0 {
        let k = queries.len() - 1;
        let qd = queries.drop_last();
        assert forall|i: int| 0 <= i < qd.len() implies 0 <= #[trigger] qd[i] < n by {
            assert(qd[i] == queries[i]);
        }
        mask_canon::<F>(qd, weights, n);
        let prev = mask_of::<F>(qd, weights, n);
        assert(0 <= queries[k] < n);
        crate::field::fadd_canon::<F>(prev[queries[k]], weights[k]);
    }
}

/// The sum-check over the parity-check matrix that an honest prover runs is
/// accepted, and the value of the combined columns is that of the matrix.
pub proof fn honest_parity_check_is_accepted<F: PrimeField, P, C, O>(
    pp: BrakingBaseProverParam<F, P, C>,
    poly: Seq<int>,
    point: Seq<int>,
    state: BrakingBaseOpening<F>,
    y: Seq<int>,
    eta: int,
    gamma_point: Seq<int>,
    log0: Seq<Event<O>>,
)
    requires
        pp.wf(),
        poly.len() == exp2(pp.num_vars as nat),
        state.wf(pp, poly, point),
        y.len() == log2(pp.row_len as int),
        gamma_point.len() == log2(pp.codeword_len as int),
    ensures
        ({
            let (p, q) = (vals(state.p_codeword@), vals(state.q_codeword@));
            let e = parity_entries(pp.brakedown);
            let row = parity_row::<F>(e, pp.codeword_len as nat, y);
            let h = matrix_eval::<F>(e, gamma_point, y);
            let v = seq![mle::<F>(p, gamma_point), mle::<F>(q, gamma_point), h];
            let aux_vars = log2(pp.spark.aux_len as int);
            let halves = halves_at::<F>(mat(state.aux_polys@), gamma_point, aux_vars);
            parity_ended::<F, O>(
                eta,
                gamma_point,
                aux_vars,
                h,
                decomposition_claims(gamma_point, aux_vars, halves),
                log0,
                log0 + run_events::<F, O>(
                    two_factor_terms(eta),
                    seq![row, p, q],
                    2,
                    gamma_point,
                ) + sent_fields(v) + sent_fields(halves),
            )
        }),
{
    shape_logs(pp);
    let (p, q) = (vals(state.p_codeword@), vals(state.q_codeword@));
    let e = parity_entries(pp.brakedown);
    let row = parity_row::<F>(e, pp.codeword_len as nat, y);
    let h = matrix_eval::<F>(e, gamma_point, y);
    let v = seq![mle::<F>(p, gamma_point), mle::<F>(q, gamma_point), h];
    let aux_vars = log2(pp.spark.aux_len as int);
    let halves = halves_at::<F>(mat(state.aux_polys@), gamma_point, aux_vars);
    vals_canon(state.p_codeword@);
    vals_canon(state.q_codeword@);
    parity_cells_within(pp);
    parity_row_shape::<F>(e, pp.codeword_len as nat, y);
    let rows = rows_of(poly, pp.num_rows as nat, pp.row_len as nat);
    let n = pp.row_len as nat;
    let pm = comb::<F>(vals(state.proximity_weights@), rows, n);
    let qm = comb::<F>(vals(state.row_weights@), rows, n);
    comb_len::<F>(vals(state.proximity_weights@), rows, n);
    comb_len::<F>(vals(state.row_weights@), rows, n);
    codewords_pass_parity(pp.brakedown, pm, y);
    codewords_pass_parity(pp.brakedown, qm, y);
    crate::field::canon_consts::<F>();
    crate::field::f_units::<F>(0);
    crate::field::ops_red::<F>(eta, 0);
    assert(eta * 0 == 0) by (nonlinear_arith);
    assert(two_factor_sum::<F>(row, p, q, eta) == 0);
    honest_two_factor_run::<F, O>(row, p, q, eta, gamma_point, log0);
    parity_row_evaluates_matrix::<F>(e, gamma_point, y);
    state_decomposes(pp, state, gamma_point);
    let mid = log0 + run_events::<F, O>(two_factor_terms(eta), seq![row, p, q], 2, gamma_point);
    let terminal = two_factor_value::<F>(h, v[0], v[1], eta);
    assert(sumcheck_verified::<F, O>(
        gamma_point.len(),
        2,
        0,
        terminal,
        gamma_point,
        log0,
        mid,
    ));
    let a = mid + sent_fields(v);
    assert(parity_read::<F, O>(gamma_point, terminal, v, log0, a));
    let log1 = a + sent_fields(halves);
    assert(crate::brakingbase_checks::four_read(a, log1, halves)) by {
        assert(mat(state.aux_polys@).len() == 4);
    }
    assert(decomposition_passed::<F, O>(
        gamma_point,
        v[0],
        v[1],
        aux_vars,
        decomposition_claims(gamma_point, aux_vars, halves),
        a,
        log1,
    ));
}

} // verus!
