//! The phases of a BrakingBase opening, between which the auxiliary
//! polynomials are committed and the sum-checks are run.

use crate::brakedown::codeword;
use crate::brakingbase::{write_column_opening, BrakingBaseCommitment, BrakingBaseProverParam};
use crate::brakingbase_checks::{
    cells_within, codewords_pass_parity, combine_rows, decomposition_claims, decomposition_fits,
    entries_at, halves_at, halves_make_up_value, mask_of, mask_picks, parity_row,
    parity_row_evaluates_matrix, parity_selector, prove_code_decomposition, prove_two_factor,
    query_mask, two_factor_instance, two_factor_sum, two_factor_terms,
};
use crate::claims::{append_claims_take, append_opening_claim, claim_set, Claim, ClaimSet};
use crate::classic_sumcheck::{instance_fits, run_events};
use crate::code_linearity::codeword_of_combination;
use crate::error::Error;
use crate::field::{
    canon_consts, challenge_to_index, f_units, fadd, fmul, index_of, PrimeField, Residue,
};
use crate::hash::HashFunction;
use crate::linear::{
    column, comb, comb_entry, comb_len, dot, dot_comm, inner_product, ints, mat, mat_push, rect,
    vals,
};
use crate::merkle::{path, read_column_of};
use crate::mle::{
    eq_evals, eval_mle_from_evals, exp2, exp2_adds, exp2_is_pow2, exp2_mono, log2,
    log2_power_of_two, mle, pow2_is_exp2, power_of_two,
};
use crate::parity::{entries_of, parity_entries};
use crate::qa_code::{copied, is_pow2, rows_of, rows_of_shape};
use crate::qapcs::{column_point, folded_evaluation, point_to_tensor, row_point, Evaluation};
use crate::quasar_columns::{fold_all, fold_columns};
use crate::spark::{claims_of, extension_keeps_matrix_eval, matrix_eval, OpeningClaim};
use crate::spark_memory::{
    extend_point, extended, next_pow2, next_pow2_fixed, pad_poly, padded, padding_keeps_evaluation,
};
use crate::sumcheck::{values_at, SumcheckInstance};
use crate::transcript::{
    drawn, sent_commitments, sent_fields, squeeze_challenges, Event, FieldTranscript,
    TranscriptWrite,
};
use vstd::prelude::*;

verus! {

/// The prover's state after the rows are combined.
pub struct BrakingBaseOpening<F> {
    pub column_point: Vec<F>,
    pub row_weights: Vec<F>,
    pub proximity_weights: Vec<F>,
    pub p_codeword: Vec<F>,
    pub q_codeword: Vec<F>,
    pub aux_polys: Vec<Vec<F>>,
}

/// The halves of two codewords, padded.
pub open spec fn halves_of(p: Seq<int>, q: Seq<int>, row_len: int, aux_len: nat) -> Seq<Seq<int>> {
    seq![
        padded(p.take(row_len), aux_len),
        padded(p.skip(row_len), aux_len),
        padded(q.take(row_len), aux_len),
        padded(q.skip(row_len), aux_len),
    ]
}

impl<F: PrimeField> BrakingBaseOpening<F> {
    /// The sizes fit the parameters, and the auxiliary polynomials are the
    /// halves of the codewords.
    pub open spec fn sized<P, C>(self, pp: BrakingBaseProverParam<F, P, C>) -> bool {
        &&& self.row_weights@.len() == pp.num_rows
        &&& self.proximity_weights@.len() == pp.num_rows
        &&& self.column_point@.len() == log2(pp.row_len as int)
        &&& self.p_codeword@.len() == pp.codeword_len
        &&& self.q_codeword@.len() == pp.codeword_len
        &&& mat(self.aux_polys@) == halves_of(
            vals(self.p_codeword@),
            vals(self.q_codeword@),
            pp.row_len as int,
            pp.spark.aux_len as nat,
        )
    }

    /// The state for a polynomial and a point: both codewords encode
    /// combinations of the rows of the polynomial.
    pub open spec fn wf<P, C>(
        self,
        pp: BrakingBaseProverParam<F, P, C>,
        poly: Seq<int>,
        point: Seq<int>,
    ) -> bool {
        let rows = rows_of(poly, pp.num_rows as nat, pp.row_len as nat);
        let n = pp.row_len as nat;
        &&& self.sized(pp)
        &&& vals(self.column_point@) == column_point(point, pp.num_rows as int)
        &&& vals(self.row_weights@) == eq_evals::<F>(row_point(point, pp.num_rows as int))
        &&& vals(self.p_codeword@) == codeword(
            pp.brakedown,
            comb::<F>(vals(self.proximity_weights@), rows, n),
        )
        &&& vals(self.q_codeword@) == codeword(
            pp.brakedown,
            comb::<F>(vals(self.row_weights@), rows, n),
        )
    }
}

/// The sizes of parameters as exponents.
pub proof fn shape_logs<F: PrimeField, P, C>(pp: BrakingBaseProverParam<F, P, C>)
    requires
        pp.wf(),
    ensures
        exp2(log2(pp.num_rows as int)) == pp.num_rows,
        exp2(log2(pp.row_len as int)) == pp.row_len,
        log2(pp.num_rows as int) + log2(pp.row_len as int) == pp.num_vars,
        log2(pp.codeword_len as int) == log2(pp.row_len as int) + 1,
        exp2(log2(pp.codeword_len as int)) == pp.codeword_len,
        exp2(log2(pp.spark.aux_len as int)) == pp.spark.aux_len,
        log2(pp.codeword_len as int) <= log2(pp.spark.aux_len as int),
        next_pow2(pp.codeword_len as int) == pp.codeword_len,
{
    size_logs(
        pp.num_vars as int,
        pp.num_rows as int,
        pp.row_len as int,
        pp.codeword_len as int,
    );
    pow2_is_exp2(pp.spark.aux_len as int);
    let (a, b) = (log2(pp.codeword_len as int), log2(pp.spark.aux_len as int));
    if a > b {
        exp2_mono(b + 1, a);
        assert(exp2(b + 1) == 2 * exp2(b));
    }
}

/// Sizes of a matrix and its code as exponents.
pub proof fn size_logs(num_vars: int, num_rows: int, row_len: int, codeword_len: int)
    requires
        crate::brakingbase::shaped(num_vars, num_rows, row_len, codeword_len),
    ensures
        exp2(log2(num_rows)) == num_rows,
        exp2(log2(row_len)) == row_len,
        log2(num_rows) + log2(row_len) == num_vars,
        log2(codeword_len) == log2(row_len) + 1,
        is_pow2(codeword_len),
        exp2(log2(codeword_len)) == codeword_len,
        next_pow2(codeword_len) == codeword_len,
{
    pow2_is_exp2(num_rows);
    pow2_is_exp2(row_len);
    exp2_adds(log2(num_rows), log2(row_len));
    let (a, b) = (log2(num_rows) + log2(row_len), num_vars as nat);
    exp2_is_pow2(a);
    exp2_is_pow2(b);
    assert(codeword_len / 2 == row_len);
    assert(is_pow2(codeword_len));
    pow2_is_exp2(codeword_len);
    next_pow2_fixed(codeword_len);
}

/// The request fits the parameters.
pub open spec fn request_fits<F: PrimeField, P, C>(
    pp: BrakingBaseProverParam<F, P, C>,
    poly_len: nat,
    point_len: nat,
) -> bool {
    poly_len == exp2(pp.num_vars as nat) && point_len == pp.num_vars
}

/// Combines the rows with random weights and with those of the point, encodes
/// both combinations and pads their halves; the padded halves are what the
/// prover commits to next.
pub fn open_start<
    F: PrimeField,
    H: HashFunction,
    P,
    C,
    T: TranscriptWrite<F, H::Output>,
>(
    pp: &BrakingBaseProverParam<F, P, C>,
    poly: &[F],
    comm: &BrakingBaseCommitment<F, H>,
    point: &[F],
    transcript: &mut T,
) -> (r: Result<BrakingBaseOpening<F>, Error>)
    requires
        pp.wf(),
    ensures
        ({
            let fits = request_fits(*pp, poly@.len(), point@.len());
            let data = comm.has_data(pp.num_rows as nat, pp.codeword_len as nat);
            &&& r is Ok <==> fits && data
            &&& r matches Err(e) ==> *final(transcript) == *old(transcript) && if !fits {
                e is InvalidPcsParam
            } else {
                e.is_open("BrakingBase prover commitment lacks opening data")
            }
            &&& r matches Ok(state) ==> {
                &&& state.wf(*pp, vals(poly@), vals(point@))
                &&& final(transcript).log() == old(transcript).log() + drawn(
                    vals(state.proximity_weights@),
                )
            }
        }),
{
    proof {
        shape_logs(*pp);
    }
    if poly.len() != power_of_two(pp.num_vars) {
        return Err(Error::param("the polynomial does not have the number of variables of open"));
    }
    if point.len() != pp.num_vars {
        return Err(Error::param("the point does not have the number of variables of open"));
    }
    if !comm.check_data(pp.num_rows, pp.codeword_len) {
        return Err(Error::open("BrakingBase prover commitment lacks opening data"));
    }
    let (row_weights, _column_weights) = point_to_tensor(pp.num_rows, point);
    let split: usize = pp.num_vars - log2_power_of_two(pp.num_rows);
    let column_part = copied(vstd::slice::slice_subrange(point, 0, split));
    proof {
        assert(vals(column_part@) =~= column_point(vals(point@), pp.num_rows as int));
        assert(vals(row_weights@).len() == row_weights@.len());
    }
    let proximity_weights = squeeze_challenges::<F, H::Output, T>(transcript, pp.num_rows);
    let p_message = combine_rows(poly, pp.num_rows, pp.row_len, &proximity_weights);
    let q_message = combine_rows(poly, pp.num_rows, pp.row_len, &row_weights);
    let p_codeword = pp.brakedown.encode(&p_message);
    let q_codeword = pp.brakedown.encode(&q_message);
    let aux_polys = code_halves(pp, &p_codeword, &q_codeword);
    Ok(
        BrakingBaseOpening {
            column_point: column_part,
            row_weights,
            proximity_weights,
            p_codeword,
            q_codeword,
            aux_polys,
        },
    )
}

/// The padded halves of two codewords.
fn code_halves<F: PrimeField, P, C>(pp: &BrakingBaseProverParam<F, P, C>, p: &[F], q: &[F]) -> (r:
    Vec<Vec<F>>)
    requires
        pp.wf(),
        p@.len() == pp.codeword_len,
        q@.len() == pp.codeword_len,
    ensures
        mat(r@) == halves_of(
            vals(p@),
            vals(q@),
            pp.row_len as int,
            pp.spark.aux_len as nat,
        ),
{
    let (n, m) = (pp.row_len, pp.codeword_len);
    let mut out: Vec<Vec<F>> = Vec::new();
    let p0 = copied(vstd::slice::slice_subrange(p, 0, n));
    let p1 = copied(vstd::slice::slice_subrange(p, n, m));
    let q0 = copied(vstd::slice::slice_subrange(q, 0, n));
    let q1 = copied(vstd::slice::slice_subrange(q, n, m));
    proof {
        assert(vals(p0@) =~= vals(p@).take(n as int));
        assert(vals(p1@) =~= vals(p@).skip(n as int));
        assert(vals(q0@) =~= vals(q@).take(n as int));
        assert(vals(q1@) =~= vals(q@).skip(n as int));
    }
    out.push(pad_poly(p0, pp.spark.aux_len));
    out.push(pad_poly(p1, pp.spark.aux_len));
    out.push(pad_poly(q0, pp.spark.aux_len));
    out.push(pad_poly(q1, pp.spark.aux_len));
    assert(mat(out@) =~= halves_of(
        vals(p@),
        vals(q@),
        pp.row_len as int,
        pp.spark.aux_len as nat,
    ));
    out
}

/// The positions that challenges select among `cap`.
pub open spec fn queries_of<F: Residue>(challenges: Seq<int>, cap: int) -> Seq<int> {
    Seq::new(challenges.len(), |i: int| index_of::<F>(challenges[i], 4, cap))
}

/// Draws positions below `cap`, one challenge each.
pub fn draw_queries<F: PrimeField, O, T: FieldTranscript<F, O>>(
    n: usize,
    cap: usize,
    transcript: &mut T,
) -> (r: (Vec<F>, Vec<usize>))
    requires
        cap > 0,
    ensures
        final(transcript).held() == old(transcript).held(),
        r.0@.len() == n,
        r.1@.len() == n,
        ints(r.1@) == queries_of::<F>(vals(r.0@), cap as int),
        forall|i: int| 0 <= i < n ==> #[trigger] r.1@[i] < cap,
        forall|i: int|
            0 <= i < n ==> (#[trigger] r.1@[i]) as int == (r.0@[i].val() % 4294967296)
                % cap as int,
        final(transcript).log() == old(transcript).log() + drawn(vals(r.0@)),
{
    reveal_with_fuel(vstd::arithmetic::power::pow, 5);
    let challenges = squeeze_challenges::<F, O, T>(transcript, n);
    let mut out: Vec<usize> = Vec::new();
    let mut i: usize = 0;
    while i < n
        invariant
            i <= n,
            cap > 0,
            challenges@.len() == n,
            out@.len() == i,
            forall|k: int|
                0 <= k < i ==> (#[trigger] out@[k]) as int == index_of::<F>(
                    challenges@[k].val(),
                    4,
                    cap as int,
                ) && out@[k] < cap && out@[k] as int == (challenges@[k].val() % 4294967296)
                    % cap as int,
            vstd::arithmetic::power::pow(256, 4) == 4294967296,
        decreases n - i,
    {
        out.push(challenge_to_index(challenges[i], 4, cap));
        i = i + 1;
    }
    assert(ints(out@) =~= queries_of::<F>(vals(challenges@), cap as int));
    (challenges, out)
}

/// The steps that send columns and their paths.
pub open spec fn opening_events<O>(cols: Seq<Seq<int>>, paths: Seq<Seq<O>>) -> Seq<Event<O>>
    decreases cols.len(),
{
    if cols.len() == 0 {
        Seq::empty()
    } else {
        let k = cols.len() - 1;
        opening_events(cols.drop_last(), paths) + sent_fields(cols[k]) + sent_commitments(paths[k])
    }
}

/// Columns at some positions.
pub open spec fn columns_at(rows: Seq<Seq<int>>, queries: Seq<int>) -> Seq<Seq<int>> {
    Seq::new(queries.len(), |i: int| column(rows, queries[i]))
}

/// Paths at some positions.
pub open spec fn paths_at<H: HashFunction>(leaves: Seq<H::Output>, queries: Seq<int>) -> Seq<
    Seq<H::Output>,
> {
    Seq::new(queries.len(), |i: int| path::<H>(leaves, queries[i]))
}

/// The claim of the check of sampled columns: their weighted foldings.
pub open spec fn columns_claim<F: Residue>(
    proximity_weights: Seq<int>,
    row_weights: Seq<int>,
    cols: Seq<Seq<int>>,
    query_weights: Seq<int>,
    eta: int,
) -> int {
    fadd::<F>(
        dot::<F>(query_weights, fold_columns::<F>(proximity_weights, cols)),
        fmul::<F>(eta, dot::<F>(query_weights, fold_columns::<F>(row_weights, cols))),
    )
}

/// Folds the columns and combines the foldings.
pub fn compute_columns_claim<F: PrimeField>(
    proximity_weights: &[F],
    row_weights: &[F],
    cols: &[Vec<F>],
    query_weights: &[F],
    eta: F,
) -> (r: F)
    requires
        proximity_weights@.len() == row_weights@.len(),
        rect(mat(cols@), row_weights@.len()),
        query_weights@.len() == cols@.len(),
    ensures
        r.val() == columns_claim::<F>(
            vals(proximity_weights@),
            vals(row_weights@),
            mat(cols@),
            vals(query_weights@),
            eta.val(),
        ),
{
    let (p, q) = fold_all(cols, proximity_weights, row_weights);
    proof {
        assert(vals(p@).len() == p@.len());
        assert(vals(q@).len() == q@.len());
    }
    inner_product(query_weights, &p).plus(eta.times(inner_product(query_weights, &q)))
}

/// The prover's state before the sum-check over sampled columns.
pub struct BrakingBaseColumns<F> {
    pub query_challenges: Vec<F>,
    pub query_indices: Vec<usize>,
    pub query_weights: Vec<F>,
    pub eta: F,
    pub instance: SumcheckInstance<F>,
}

impl<F: PrimeField> BrakingBaseColumns<F> {
    /// The sum-check is over the mask of the queries and both codewords.
    pub open spec fn wf<P, C>(
        self,
        pp: BrakingBaseProverParam<F, P, C>,
        state: BrakingBaseOpening<F>,
    ) -> bool {
        &&& self.query_challenges@.len() == pp.num_queries
        &&& self.query_weights@.len() == pp.num_queries
        &&& ints(self.query_indices@) == queries_of::<F>(
            vals(self.query_challenges@),
            pp.codeword_len as int,
        )
        &&& forall|i: int|
            0 <= i < self.query_indices@.len() ==> #[trigger] self.query_indices@[i]
                < pp.codeword_len
        &&& instance_fits(self.instance)
        &&& self.instance.num_vars == log2(pp.codeword_len as int)
        &&& self.instance.degree == 2
        &&& self.instance.terms_spec() == two_factor_terms(self.eta.val())
        &&& mat(self.instance.polys@) == seq![
            mask_of::<F>(
                ints(self.query_indices@),
                vals(self.query_weights@),
                pp.codeword_len as nat,
            ),
            vals(state.p_codeword@),
            vals(state.q_codeword@),
        ]
    }
}

/// Draws positions, opens the columns there and states the sum-check over them.
pub fn open_columns<F: PrimeField, H: HashFunction, P, C, T: TranscriptWrite<F, H::Output>>(
    pp: &BrakingBaseProverParam<F, P, C>,
    comm: &BrakingBaseCommitment<F, H>,
    state: &BrakingBaseOpening<F>,
    transcript: &mut T,
) -> (r: Result<BrakingBaseColumns<F>, Error>)
    requires
        pp.wf(),
        state.sized(*pp),
        comm.has_data(pp.num_rows as nat, pp.codeword_len as nat),
        comm.consistent(pp.codeword_len as nat),
    ensures
        T::infallible() ==> r is Ok,
        r matches Err(e) ==> e is Transcript,
        r matches Ok(cols) ==> {
            let q = ints(cols.query_indices@);
            let rows = mat(comm.rows@);
            &&& cols.wf(*pp, *state)
            &&& cols.instance.claim.val() == columns_claim::<F>(
                vals(state.proximity_weights@),
                vals(state.row_weights@),
                columns_at(rows, q),
                vals(cols.query_weights@),
                cols.eta.val(),
            )
            &&& cols.instance.holds() <==> cols.instance.claim.val() == two_factor_sum::<F>(
                mask_of::<F>(q, vals(cols.query_weights@), pp.codeword_len as nat),
                vals(state.p_codeword@),
                vals(state.q_codeword@),
                cols.eta.val(),
            )
            &&& final(transcript).log() == old(transcript).log() + drawn(
                vals(cols.query_challenges@),
            ) + opening_events(
                columns_at(rows, q),
                paths_at::<H>(comm.leaves(pp.codeword_len as nat), q),
            ) + drawn(vals(cols.query_weights@)) + drawn(seq![cols.eta.val()])
        },
{
    proof {
        shape_logs(*pp);
    }
    let n: usize = pp.num_queries;
    let (query_challenges, query_indices) = draw_queries::<F, H::Output, T>(
        n,
        pp.codeword_len,
        transcript,
    );
    let ghost q = ints(query_indices@);
    let ghost rows = mat(comm.rows@);
    let ghost leaves = comm.leaves(pp.codeword_len as nat);
    let ghost all = columns_at(rows, q);
    let ghost paths = paths_at::<H>(leaves, q);
    let ghost log1 = transcript.log();
    let mut cols: Vec<Vec<F>> = Vec::new();
    let mut i: usize = 0;
    proof {
        assert(log1 + opening_events(all.take(0), paths) =~= log1);
        assert(mat(cols@) =~= all.take(0));
    }
    while i < n
        invariant
            i <= n,
            n == pp.num_queries,
            query_indices@.len() == n,
            forall|k: int| 0 <= k < n ==> #[trigger] query_indices@[k] < pp.codeword_len,
            comm.has_data(pp.num_rows as nat, pp.codeword_len as nat),
            comm.consistent(pp.codeword_len as nat),
            q == ints(query_indices@),
            rows == mat(comm.rows@),
            leaves == comm.leaves(pp.codeword_len as nat),
            all == columns_at(rows, q),
            paths == paths_at::<H>(leaves, q),
            cols@.len() == i,
            mat(cols@) == all.take(i as int),
            transcript.log() == log1 + opening_events(all.take(i as int), paths),
        decreases n - i,
    {
        let index: usize = query_indices[i];
        match write_column_opening::<F, H, T>(comm, pp.codeword_len, index, transcript) {
            Ok(_) => {},
            Err(e) => {
                return Err(e);
            },
        }
        proof {
            assert forall|k: int| 0 <= k < comm.rows@.len() implies index < (
            #[trigger] comm.rows@[k])@.len() by {
                assert(mat(comm.rows@)[k].len() == pp.codeword_len);
            }
        }
        let col = read_column_of(&comm.rows, index);
        proof {
            let next = all.take(i as int + 1);
            assert(next.drop_last() =~= all.take(i as int));
            assert(next =~= all.take(i as int).push(all[i as int]));
            mat_push(cols@, col);
            assert(log1 + opening_events(next, paths) =~= log1 + opening_events(
                all.take(i as int),
                paths,
            ) + sent_fields(all[i as int]) + sent_commitments(paths[i as int]));
        }
        cols.push(col);
        i = i + 1;
    }
    proof {
        assert(all.take(i as int) =~= all);
        assert forall|k: int| 0 <= k < all.len() implies (#[trigger] all[k]).len()
            == pp.num_rows by {
            assert(all[k].len() == rows.len());
        }
    }
    let query_weights = squeeze_challenges::<F, H::Output, T>(transcript, n);
    let eta = transcript.squeeze_challenge();
    let claim = compute_columns_claim(
        &state.proximity_weights,
        &state.row_weights,
        &cols,
        &query_weights,
        eta,
    );
    let mask = query_mask(&query_indices, &query_weights, pp.codeword_len);
    let code_vars: usize = log2_power_of_two(pp.codeword_len);
    let instance = two_factor_instance(
        mask,
        copied(&state.p_codeword),
        copied(&state.q_codeword),
        code_vars,
        eta,
        claim,
    );
    proof {
        assert(drawn::<H::Output>(seq![eta.val()]) =~= seq![Event::Challenge(eta.val())]);
        assert(transcript.log() =~= log1 + opening_events(all, paths) + drawn(
            vals(query_weights@),
        ) + drawn(seq![eta.val()]));
    }
    Ok(BrakingBaseColumns { query_challenges, query_indices, query_weights, eta, instance })
}

/// The weighted foldings of the columns of a committed polynomial are what the
/// mask picks of the two codewords: the check of sampled columns has a true
/// claim.
pub proof fn columns_claim_holds<F: PrimeField, H: HashFunction, P, C>(
    pp: BrakingBaseProverParam<F, P, C>,
    poly: Seq<int>,
    point: Seq<int>,
    comm: BrakingBaseCommitment<F, H>,
    state: BrakingBaseOpening<F>,
    queries: Seq<int>,
    weights: Seq<int>,
    eta: int,
)
    requires
        pp.wf(),
        poly.len() == exp2(pp.num_vars as nat),
        state.wf(pp, poly, point),
        comm.commits_to(pp, poly),
        weights.len() == queries.len(),
        forall|i: int| 0 <= i < queries.len() ==> 0 <= #[trigger] queries[i] < pp.codeword_len,
    ensures
        columns_claim::<F>(
            vals(state.proximity_weights@),
            vals(state.row_weights@),
            columns_at(mat(comm.rows@), queries),
            weights,
            eta,
        ) == two_factor_sum::<F>(
            mask_of::<F>(queries, weights, pp.codeword_len as nat),
            vals(state.p_codeword@),
            vals(state.q_codeword@),
            eta,
        ),
{
    let (pw, rw) = (vals(state.proximity_weights@), vals(state.row_weights@));
    let (p, q) = (vals(state.p_codeword@), vals(state.q_codeword@));
    assert(p.len() == pp.codeword_len && q.len() == pp.codeword_len);
    mask_picks::<F>(queries, weights, p);
    mask_picks::<F>(queries, weights, q);
    folded_columns_are_entries(pp, poly, comm, pw, queries);
    folded_columns_are_entries(pp, poly, comm, rw, queries);
}

/// Folding columns of a committed polynomial reads off the encoded combination
/// of its rows.
proof fn folded_columns_are_entries<F: PrimeField, H: HashFunction, P, C>(
    pp: BrakingBaseProverParam<F, P, C>,
    poly: Seq<int>,
    comm: BrakingBaseCommitment<F, H>,
    w: Seq<int>,
    queries: Seq<int>,
)
    requires
        pp.wf(),
        poly.len() == exp2(pp.num_vars as nat),
        comm.commits_to(pp, poly),
        w.len() == pp.num_rows,
        forall|i: int| 0 <= i < queries.len() ==> 0 <= #[trigger] queries[i] < pp.codeword_len,
    ensures
        fold_columns::<F>(w, columns_at(mat(comm.rows@), queries)) == entries_at(
            codeword(
                pp.brakedown,
                comb::<F>(
                    w,
                    rows_of(poly, pp.num_rows as nat, pp.row_len as nat),
                    pp.row_len as nat,
                ),
            ),
            queries,
        ),
{
    let rows = rows_of(poly, pp.num_rows as nat, pp.row_len as nat);
    let cw = mat(comm.rows@);
    rows_of_shape(poly, pp.num_rows as nat, pp.row_len as nat);
    codeword_of_combination(pp.brakedown, w, rows);
    let word = codeword(pp.brakedown, comb::<F>(w, rows, pp.row_len as nat));
    let l = fold_columns::<F>(w, columns_at(cw, queries));
    assert forall|i: int| 0 <= i < queries.len() implies l[i] == entries_at(word, queries)[i] by {
        comb_entry::<F>(w, cw, pp.codeword_len as nat, queries[i]);
        assert(w.take(cw.len() as int) =~= w);
    }
    assert(l =~= entries_at(word, queries));
}

/// The prover's state before the sum-check over the parity-check matrix.
pub struct BrakingBaseParity<F> {
    pub beta: Vec<F>,
    pub claims: Vec<OpeningClaim<F>>,
    pub parity_point: Vec<F>,
    pub eta: F,
    pub instance: SumcheckInstance<F>,
}

impl<F: PrimeField> BrakingBaseParity<F> {
    /// The sum-check is over the combined columns of the parity-check matrix and
    /// both codewords.
    pub open spec fn wf<P, C>(
        self,
        pp: BrakingBaseProverParam<F, P, C>,
        state: BrakingBaseOpening<F>,
    ) -> bool {
        &&& self.parity_point@.len() == log2(pp.row_len as int)
        &&& instance_fits(self.instance)
        &&& self.instance.num_vars == log2(pp.codeword_len as int)
        &&& self.instance.degree == 2
        &&& self.instance.claim.val() == 0
        &&& self.instance.terms_spec() == two_factor_terms(self.eta.val())
        &&& mat(self.instance.polys@) == seq![
            parity_row::<F>(
                parity_entries(pp.brakedown),
                pp.codeword_len as nat,
                vals(self.parity_point@),
            ),
            vals(state.p_codeword@),
            vals(state.q_codeword@),
        ]
    }
}

/// The halves of the codewords make up their values at a point.
pub proof fn state_decomposes<F: PrimeField, P, C>(
    pp: BrakingBaseProverParam<F, P, C>,
    state: BrakingBaseOpening<F>,
    z: Seq<int>,
)
    requires
        pp.wf(),
        state.sized(pp),
        z.len() == log2(pp.codeword_len as int),
    ensures
        decomposition_fits::<F>(
            z.last(),
            mle::<F>(vals(state.p_codeword@), z),
            mle::<F>(vals(state.q_codeword@), z),
            halves_at::<F>(mat(state.aux_polys@), z, log2(pp.spark.aux_len as int)),
        ),
        state.aux_polys@.len() == 4,
        rect(mat(state.aux_polys@), pp.spark.aux_len as nat),
{
    shape_logs(pp);
    let aux_vars = log2(pp.spark.aux_len as int);
    let (p, q) = (vals(state.p_codeword@), vals(state.q_codeword@));
    assert(mat(state.aux_polys@).len() == state.aux_polys@.len());
    halves_make_up_value::<F>(p, z, aux_vars);
    halves_make_up_value::<F>(q, z, aux_vars);
}

/// Cells of the parity-check matrix lie inside of it.
pub proof fn parity_cells_within<F: PrimeField, P, C>(pp: BrakingBaseProverParam<F, P, C>)
    requires
        pp.wf(),
    ensures
        cells_within(
            parity_entries(pp.brakedown),
            pp.codeword_len as nat,
            exp2(log2(pp.row_len as int)),
        ),
{
    shape_logs(pp);
    let e = parity_entries(pp.brakedown);
    assert forall|k: int| 0 <= k < e.len() implies 0 <= (#[trigger] e[k]).row < pp.codeword_len
        && 0 <= e[k].col < pp.row_len by {
        let _ = pp.spark.entries@[k];
    }
}

/// Runs the check of sampled columns, combines the columns of the parity-check
/// matrix at a random point and states the sum-check over them.
pub fn open_parity_start<F: PrimeField, O, P, C, T: TranscriptWrite<F, O>>(
    pp: &BrakingBaseProverParam<F, P, C>,
    state: &BrakingBaseOpening<F>,
    cols: &BrakingBaseColumns<F>,
    transcript: &mut T,
) -> (r: Result<BrakingBaseParity<F>, Error>)
    requires
        pp.wf(),
        state.sized(*pp),
        exists|poly: Seq<int>, point: Seq<int>|
            poly.len() == exp2(pp.num_vars as nat) && #[trigger] state.wf(*pp, poly, point),
        cols.wf(*pp, *state),
    ensures
        T::infallible() ==> r is Ok,
        r matches Err(e) ==> e is Transcript,
        r matches Ok(parity) ==> {
            let z = vals(parity.beta@);
            let aux_vars = log2(pp.spark.aux_len as int);
            let v = halves_at::<F>(mat(state.aux_polys@), z, aux_vars);
            &&& parity.wf(*pp, *state)
            &&& parity.instance.holds()
            &&& claims_of(parity.claims@) == decomposition_claims(z, aux_vars, v)
            &&& parity.beta@.len() == log2(pp.codeword_len as int)
            &&& final(transcript).log() == old(transcript).log() + run_events::<F, O>(
                two_factor_terms(cols.eta.val()),
                mat(cols.instance.polys@),
                2,
                z,
            ) + sent_fields(
                seq![
                    mle::<F>(vals(state.p_codeword@), z),
                    mle::<F>(vals(state.q_codeword@), z),
                ],
            ) + sent_fields(v) + drawn(vals(parity.parity_point@)) + drawn(seq![parity.eta.val()])
        },
{
    let ghost log0 = transcript.log();
    let ghost (poly, point) = choose|poly: Seq<int>, point: Seq<int>|
        poly.len() == exp2(pp.num_vars as nat) && #[trigger] state.wf(*pp, poly, point);
    proof {
        shape_logs(*pp);
        assert(mat(cols.instance.polys@).len() == cols.instance.polys@.len());
    }
    let (beta, evals) = match prove_two_factor(&cols.instance, transcript) {
        Ok(end) => end,
        Err(e) => {
            return Err(e);
        },
    };
    let ghost z = vals(beta@);
    proof {
        state_decomposes(*pp, *state, z);
        assert(vals(evals@)[1] == mle::<F>(vals(state.p_codeword@), z));
        assert(vals(evals@)[2] == mle::<F>(vals(state.q_codeword@), z));
    }
    let aux_vars: usize = log2_power_of_two(pp.spark.aux_len);
    let claims = match prove_code_decomposition(
        &state.aux_polys,
        &beta,
        evals[1],
        evals[2],
        aux_vars,
        transcript,
    ) {
        Ok(claims) => claims,
        Err(e) => {
            return Err(e);
        },
    };
    let row_vars: usize = log2_power_of_two(pp.row_len);
    let parity_point = squeeze_challenges::<F, O, T>(transcript, row_vars);
    let ghost y = vals(parity_point@);
    let selector = parity_selector(&pp.spark.entries, pp.codeword_len, &parity_point);
    let eta = transcript.squeeze_challenge();
    let p_parity = inner_product(&state.p_codeword, &selector);
    let q_parity = inner_product(&state.q_codeword, &selector);
    let ghost s = vals(selector@);
    proof {
        parity_cells_within(*pp);
        let rows = rows_of(poly, pp.num_rows as nat, pp.row_len as nat);
        let n = pp.row_len as nat;
        let (pm, qm) = (
            comb::<F>(vals(state.proximity_weights@), rows, n),
            comb::<F>(vals(state.row_weights@), rows, n),
        );
        comb_len::<F>(vals(state.proximity_weights@), rows, n);
        comb_len::<F>(vals(state.row_weights@), rows, n);
        codewords_pass_parity(pp.brakedown, pm, y);
        codewords_pass_parity(pp.brakedown, qm, y);
        dot_comm::<F>(vals(state.p_codeword@), s);
        dot_comm::<F>(vals(state.q_codeword@), s);
        canon_consts::<F>();
        f_units::<F>(0);
        crate::field::ops_red::<F>(eta.val(), 0);
        assert(eta.val() * 0 == 0) by (nonlinear_arith);
    }
    if !p_parity.equals(F::zero()) || !q_parity.equals(F::zero()) {
        return Err(Error::open("constructed Brakedown word failed parity check"));
    }
    let code_vars: usize = log2_power_of_two(pp.codeword_len);
    let instance = two_factor_instance(
        selector,
        copied(&state.p_codeword),
        copied(&state.q_codeword),
        code_vars,
        eta,
        F::zero(),
    );
    proof {
        let v = halves_at::<F>(mat(state.aux_polys@), z, aux_vars as nat);
        assert(drawn::<O>(seq![eta.val()]) =~= seq![Event::Challenge(eta.val())]);
        assert(transcript.log() =~= log0 + run_events::<F, O>(
            two_factor_terms(cols.eta.val()),
            mat(cols.instance.polys@),
            2,
            z,
        ) + sent_fields(
            seq![
                mle::<F>(vals(state.p_codeword@), z),
                mle::<F>(vals(state.q_codeword@), z),
            ],
        ) + sent_fields(v) + drawn(y) + drawn(seq![eta.val()]));
    }
    Ok(BrakingBaseParity { beta, claims, parity_point, eta, instance })
}

/// What the sum-check over the parity-check matrix ends in.
pub struct ParityEnd<F> {
    pub gamma_point: Vec<F>,
    pub h_eval: F,
    pub claims: Vec<OpeningClaim<F>>,
}

/// Runs the sum-check over the parity-check matrix: writes the values of the
/// codewords and of the combined columns, and the values of the halves.
pub fn open_parity_finish<F: PrimeField, O, P, C, T: TranscriptWrite<F, O>>(
    pp: &BrakingBaseProverParam<F, P, C>,
    state: &BrakingBaseOpening<F>,
    parity: &BrakingBaseParity<F>,
    transcript: &mut T,
) -> (r: Result<ParityEnd<F>, Error>)
    requires
        pp.wf(),
        state.sized(*pp),
        parity.wf(*pp, *state),
    ensures
        T::infallible() ==> r is Ok,
        r matches Err(e) ==> e is Transcript,
        r matches Ok(end) ==> {
            let z = vals(end.gamma_point@);
            let y = vals(parity.parity_point@);
            let mem_vars = log2(pp.spark.num_mem_cells as int);
            let aux_vars = log2(pp.spark.aux_len as int);
            let v = halves_at::<F>(mat(state.aux_polys@), z, aux_vars);
            &&& end.gamma_point@.len() == log2(pp.codeword_len as int)
            &&& end.h_eval.val() == matrix_eval::<F>(
                entries_of(pp.spark.entries@),
                extended(z, mem_vars),
                extended(y, mem_vars),
            )
            &&& claims_of(end.claims@) == decomposition_claims(z, aux_vars, v)
            &&& final(transcript).log() == old(transcript).log() + run_events::<F, O>(
                two_factor_terms(parity.eta.val()),
                mat(parity.instance.polys@),
                2,
                z,
            ) + sent_fields(
                seq![
                    mle::<F>(vals(state.p_codeword@), z),
                    mle::<F>(vals(state.q_codeword@), z),
                    end.h_eval.val(),
                ],
            ) + sent_fields(v)
        },
{
    let ghost log0 = transcript.log();
    let ghost y = vals(parity.parity_point@);
    proof {
        shape_logs(*pp);
        assert(mat(parity.instance.polys@).len() == parity.instance.polys@.len());
    }
    let (gamma_point, evals) = match prove_two_factor(&parity.instance, transcript) {
        Ok(end) => end,
        Err(e) => {
            return Err(e);
        },
    };
    let ghost z = vals(gamma_point@);
    proof {
        state_decomposes(*pp, *state, z);
        parity_cells_within(*pp);
        let e = parity_entries(pp.brakedown);
        let mem_vars = log2(pp.spark.num_mem_cells as int);
        parity_row_evaluates_matrix::<F>(e, z, y);
        extension_keeps_matrix_eval::<F>(e, z, y, mem_vars);
    }
    proof {
        assert(vals(evals@)[0] == values_at::<F>(mat(parity.instance.polys@), z)[0]);
        assert(vals(evals@)[1] == mle::<F>(vals(state.p_codeword@), z));
        assert(vals(evals@)[2] == mle::<F>(vals(state.q_codeword@), z));
    }
    let h = evals[0];
    match transcript.write_field_element(h) {
        Ok(_) => {},
        Err(e) => {
            return Err(e);
        },
    }
    let aux_vars: usize = log2_power_of_two(pp.spark.aux_len);
    let claims = match prove_code_decomposition(
        &state.aux_polys,
        &gamma_point,
        evals[1],
        evals[2],
        aux_vars,
        transcript,
    ) {
        Ok(claims) => claims,
        Err(e) => {
            return Err(e);
        },
    };
    proof {
        let v = halves_at::<F>(mat(state.aux_polys@), z, aux_vars as nat);
        let sent = seq![
            mle::<F>(vals(state.p_codeword@), z),
            mle::<F>(vals(state.q_codeword@), z),
            h.val(),
        ];
        assert(transcript.log() =~= log0 + run_events::<F, O>(
            two_factor_terms(parity.eta.val()),
            mat(parity.instance.polys@),
            2,
            z,
        ) + sent_fields(sent) + sent_fields(v));
    }
    Ok(ParityEnd { gamma_point, h_eval: h, claims })
}

/// All claims of an opening.
pub open spec fn opening_claims(
    columns: Seq<Claim>,
    parity: Seq<Claim>,
    spark: Seq<Claim>,
    column_point: Seq<int>,
    eval: int,
    aux_vars: nat,
) -> Seq<Claim> {
    (columns + parity + spark).push(
        Claim { poly: 2, point: extended(column_point, aux_vars), value: eval },
    )
}

/// Adds all claims of a list, every one with a point of its own.
fn append_all<F: PrimeField>(
    claims: &[OpeningClaim<F>],
    points: &mut Vec<Vec<F>>,
    evals: &mut Vec<Evaluation<F>>,
)
    ensures
        claim_set(final(points)@, final(evals)@) == claim_set(
            old(points)@,
            old(evals)@,
        ).append_claims(claims_of(claims@)),
{
    let ghost set0 = claim_set(points@, evals@);
    let ghost all = claims_of(claims@);
    let mut i: usize = 0;
    assert(all.take(0) =~= Seq::empty());
    while i < claims.len()
        invariant
            i <= claims@.len(),
            all == claims_of(claims@),
            claim_set(points@, evals@) == set0.append_claims(all.take(i as int)),
        decreases claims@.len() - i,
    {
        proof {
            append_claims_take(set0, all, i as int);
        }
        append_opening_claim(
            points,
            evals,
            claims[i].poly,
            copied(&claims[i].point),
            claims[i].value,
        );
        i = i + 1;
    }
    assert(all.take(i as int) =~= all);
}

/// Collects all claims for the batched opening.
pub fn collect_opening_claims<F: PrimeField>(
    columns: &[OpeningClaim<F>],
    parity: &[OpeningClaim<F>],
    spark: &[OpeningClaim<F>],
    column_point: &[F],
    eval: F,
    aux_vars: usize,
) -> (r: (Vec<Vec<F>>, Vec<Evaluation<F>>))
    requires
        column_point@.len() <= aux_vars,
    ensures
        claim_set(r.0@, r.1@) == (ClaimSet { points: Seq::empty(), evals: Seq::empty() })
            .append_claims(
            opening_claims(
                claims_of(columns@),
                claims_of(parity@),
                claims_of(spark@),
                vals(column_point@),
                eval.val(),
                aux_vars as nat,
            ),
        ),
{
    let ghost set0 = ClaimSet { points: Seq::empty(), evals: Seq::empty() };
    let ghost (a, b, c) = (claims_of(columns@), claims_of(parity@), claims_of(spark@));
    let mut points: Vec<Vec<F>> = Vec::new();
    let mut evals: Vec<Evaluation<F>> = Vec::new();
    assert(claim_set(points@, evals@) =~= set0);
    append_all(columns, &mut points, &mut evals);
    append_all(parity, &mut points, &mut evals);
    append_all(spark, &mut points, &mut evals);
    let point = extend_point(column_point, aux_vars);
    append_opening_claim(&mut points, &mut evals, 2, point, eval);
    proof {
        crate::claims::append_claims_concat(set0, a, b);
        crate::claims::append_claims_concat(set0, a + b, c);
        let last = Claim {
            poly: 2,
            point: extended(vals(column_point@), aux_vars as nat),
            value: eval.val(),
        };
        assert((a + b + c).push(last).drop_last() =~= a + b + c);
    }
    (points, evals)
}

/// The folded message at the column point is the value of the polynomial.
pub proof fn folded_value_is_evaluation<F: PrimeField, P, C>(
    pp: BrakingBaseProverParam<F, P, C>,
    poly: Seq<int>,
    point: Seq<int>,
    state: BrakingBaseOpening<F>,
)
    requires
        pp.wf(),
        poly.len() == exp2(pp.num_vars as nat),
        point.len() == pp.num_vars,
        state.wf(pp, poly, point),
    ensures
        mle::<F>(
            mat(state.aux_polys@)[2],
            extended(vals(state.column_point@), log2(pp.spark.aux_len as int)),
        ) == mle::<F>(poly, point),
{
    shape_logs(pp);
    let rows = rows_of(poly, pp.num_rows as nat, pp.row_len as nat);
    let msg = comb::<F>(vals(state.row_weights@), rows, pp.row_len as nat);
    comb_len::<F>(vals(state.row_weights@), rows, pp.row_len as nat);
    folded_evaluation::<F>(poly, pp.num_rows as nat, pp.row_len as nat, point);
    codeword_starts_with_message(pp.brakedown, msg);
    let q = vals(state.q_codeword@);
    assert(q.take(pp.row_len as int) =~= msg);
    let zc = vals(state.column_point@);
    padding_keeps_evaluation::<F>(msg, zc, log2(pp.spark.aux_len as int));
}

/// A codeword starts with its message.
pub proof fn codeword_starts_with_message<F: PrimeField>(
    code: crate::brakedown::Brakedown<F>,
    msg: Seq<int>,
)
    requires
        code.wf(),
        msg.len() == code.row_len,
    ensures
        codeword(code, msg).take(code.row_len as int) == msg,
{
    crate::parity::word_a_in_codeword(code, msg, 0);
    assert(crate::brakedown::a_offset(code.a@, 1) == crate::brakedown::a_offset(code.a@, 0)
        + code.a@[0].n);
}

/// Holds the claimed value to the folded message and collects all claims for
/// the batched opening.
pub fn open_finish<F: PrimeField, P, C>(
    pp: &BrakingBaseProverParam<F, P, C>,
    state: &BrakingBaseOpening<F>,
    columns: &[OpeningClaim<F>],
    parity: &[OpeningClaim<F>],
    spark: &[OpeningClaim<F>],
    eval: F,
) -> (r: Result<(Vec<Vec<F>>, Vec<Evaluation<F>>), Error>)
    requires
        pp.wf(),
        state.sized(*pp),
    ensures
        r is Ok <==> eval.val() == mle::<F>(
            mat(state.aux_polys@)[2],
            extended(vals(state.column_point@), log2(pp.spark.aux_len as int)),
        ),
        r matches Err(e) ==> e.is_open("BrakingBase public evaluation mismatch"),
        r matches Ok(batch) ==> claim_set(batch.0@, batch.1@) == (ClaimSet {
            points: Seq::empty(),
            evals: Seq::empty(),
        }).append_claims(
            opening_claims(
                claims_of(columns@),
                claims_of(parity@),
                claims_of(spark@),
                vals(state.column_point@),
                eval.val(),
                log2(pp.spark.aux_len as int),
            ),
        ),
{
    proof {
        shape_logs(*pp);
        assert(mat(state.aux_polys@).len() == state.aux_polys@.len());
        assert(mat(state.aux_polys@)[2].len() == state.aux_polys@[2]@.len());
    }
    let aux_vars: usize = log2_power_of_two(pp.spark.aux_len);
    let point = extend_point(&state.column_point, aux_vars);
    let value = eval_mle_from_evals(&state.aux_polys[2], &point);
    if !value.equals(eval) {
        return Err(Error::open("BrakingBase public evaluation mismatch"));
    }
    Ok(collect_opening_claims(columns, parity, spark, &state.column_point, eval, aux_vars))
}

} // verus!
