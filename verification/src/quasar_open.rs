//! The full opening: what happens before the sum-checks and after them.

use crate::claims::{
    add_claims_concat, add_claims_states, claim_set, find_point, find_point_props, no_claims,
    push_basefold_opening_claim, Claim, ClaimSet,
};
use crate::classic_sumcheck::{round_error, sumcheck_went};
use crate::error::Error;
use crate::field::PrimeField;
use crate::hash::HashFunction;
use crate::linear::{
    add_scaled, comb, comb_len, flatten, mat, rect, vals, vals_push, vcanon, zero_vec,
};
use crate::mle::{
    eq_evals, equality_mle_eval_at_index, eval_mle_from_evals, exp2, log2, log2_power_of_two, mle,
    mle_row_major, pow2_is_exp2, power_of_two,
};
use crate::qa_code::{copied, encode_rows, flatten_len, is_pow2, walsh};
use crate::qapcs::Evaluation;
use crate::quasar::{
    residues, tree_over, QABaseCommitment, QABaseProverParams, QABaseVerifierParams,
    QACodewordColumns, QACodewordRows,
};
use crate::quasar_columns::{
    block_values, commitment_wf, honest_merged_run_is_accepted, merged_claims, merged_digests,
    merged_fields, merged_proved, merged_sum_refused, merged_verified,
    prove_merged_column_consistency, queries_refused, verify_merged_column_consistency,
    MergedColumns, MergedColumnsVerifier, QABaseMergedColumnConsistencyOutput, QueriesRead,
};
use crate::quasar_gkr::{
    build_two_layer_gkr_prover_accumulator, build_two_layer_gkr_verifier_accumulator,
    collect_two_layer_gkr_claims_prover, collect_two_layer_gkr_claims_verifier, emptied,
    encode_endpoint_instances, endpoint_blocks, flat_outputs, flat_split, gkr_claims, gkr_fields,
    gkr_proved, gkr_refused, gkr_verified, honest_gkr_run_is_accepted, outer_polys,
    prove_qabase_two_layer_gkr_batch, verify_qabase_two_layer_gkr_batch, GkrChallenges, GkrInner,
    GkrOuter, QABaseEndpointCommitments, QABaseEndpointProverData, QABaseProverOpeningAccumulator,
    QABaseTwoLayerGkrLayout, QABaseTwoLayerGkrProof, QABaseVerifierOpeningAccumulator,
};
use crate::sumcheck::values_at;
use crate::transcript::{
    cut_later, cut_single, cut_within, drawn, sent_fields, squeeze_challenges, went, went_plain,
    Event, FieldTranscript, TranscriptRead, TranscriptWrite,
};
use vstd::prelude::*;

verus! {

/// The weights of the rows at a point.
pub fn qabase_row_weights_from_z_left<F: PrimeField>(num_rows: usize, z_left: &[F]) -> (r: Vec<F>)
    requires
        is_pow2(num_rows as int),
        z_left@.len() == log2(num_rows as int),
    ensures
        vals(r@) == eq_evals::<F>(vals(z_left@)),
        r@.len() == num_rows,
{
    let ghost goal = eq_evals::<F>(vals(z_left@));
    let log_rows: usize = log2_power_of_two(num_rows);
    let mut out: Vec<F> = Vec::new();
    while out.len() < num_rows
        invariant
            out@.len() <= num_rows,
            num_rows == exp2(log_rows as nat),
            z_left@.len() == log_rows,
            goal == eq_evals::<F>(vals(z_left@)),
            vals(out@) == goal.take(out@.len() as int),
        decreases num_rows - out@.len(),
    {
        let i: usize = out.len();
        let value = equality_mle_eval_at_index(i, log_rows, z_left);
        proof {
            vals_push(out@, value);
            assert(goal.take(i as int + 1) =~= goal.take(i as int).push(goal[i as int]));
        }
        out.push(value);
    }
    assert(goal.take(num_rows as int) =~= goal);
    out
}

/// Combines the rows of a matrix with two lists of weights.
pub fn linear_combine_rows_pair_parallel<F: PrimeField, R: QACodewordRows<F>>(
    rows: &R,
    weights_a: &[F],
    weights_b: &[F],
) -> (r: (Vec<F>, Vec<F>))
    requires
        rows.matrix().len() > 0,
        rows.matrix().len() == weights_a@.len(),
        rows.matrix().len() == weights_b@.len(),
        rect(residues::<F>(rows.matrix()), rows.matrix()[0].len()),
    ensures
        vals(r.0@) == comb::<F>(
            vals(weights_a@),
            residues::<F>(rows.matrix()),
            rows.matrix()[0].len(),
        ),
        vals(r.1@) == comb::<F>(
            vals(weights_b@),
            residues::<F>(rows.matrix()),
            rows.matrix()[0].len(),
        ),
{
    let ghost m = residues::<F>(rows.matrix());
    let num_rows: usize = rows.num_rows();
    let n: usize = rows.num_cols();
    let mut a = zero_vec::<F>(n);
    let mut b = zero_vec::<F>(n);
    let mut i: usize = 0;
    assert(m.take(0) =~= Seq::empty());
    while i < num_rows
        invariant
            i <= num_rows,
            num_rows == rows.matrix().len(),
            num_rows == weights_a@.len(),
            num_rows == weights_b@.len(),
            m == residues::<F>(rows.matrix()),
            rect(m, n as nat),
            a@.len() == n,
            b@.len() == n,
            vals(a@) == comb::<F>(vals(weights_a@), m.take(i as int), n as nat),
            vals(b@) == comb::<F>(vals(weights_b@), m.take(i as int), n as nat),
        decreases num_rows - i,
    {
        proof {
            assert(m[i as int].len() == n);
            assert(m.take(i as int + 1).drop_last() =~= m.take(i as int));
        }
        let row = rows.row(i);
        add_scaled(&mut a, weights_a[i], row);
        add_scaled(&mut b, weights_b[i], row);
        i = i + 1;
    }
    assert(m.take(i as int) =~= m);
    (a, b)
}

/// Splits an evaluation point of a row-major matrix into the variables of the
/// rows and those of the columns: the first variables index columns.
pub fn qabase_split_evaluation_point<F: PrimeField>(
    point: &[F],
    num_rows: usize,
    num_vars: usize,
) -> (r: (Vec<F>, Vec<F>))
    requires
        is_pow2(num_rows as int),
        point@.len() == num_vars + log2(num_rows as int),
    ensures
        r.1@ + r.0@ == point@,
        r.0@.len() == log2(num_rows as int),
        r.1@.len() == num_vars,
{
    let z_right = copied(vstd::slice::slice_subrange(point, 0, num_vars));
    let z_left = copied(vstd::slice::slice_subrange(point, num_vars, point.len()));
    assert(z_right@ + z_left@ =~= point@);
    (z_left, z_right)
}

/// Evaluating a row-major matrix at a point is evaluating the row combination
/// of the row variables at the column variables.
pub proof fn split_evaluation<F: PrimeField>(
    rows: Seq<Seq<int>>,
    z_left: Seq<int>,
    z_right: Seq<int>,
)
    requires
        rows.len() == exp2(z_left.len()),
        rect(rows, exp2(z_right.len())),
    ensures
        mle::<F>(flatten(rows), z_right + z_left) == mle::<F>(
            comb::<F>(eq_evals::<F>(z_left), rows, exp2(z_right.len())),
            z_right,
        ),
{
    mle_row_major::<F>(rows, exp2(z_right.len()), z_right, z_left);
}

/// The prover's state after the rows were folded and encoded.
pub struct FullOpenStart<F> {
    pub row_challenges: Vec<F>,
    pub row_weights: Vec<F>,
    pub polys: Vec<Vec<F>>,
    pub middle_evals: Vec<Vec<F>>,
}

/// The sizes of an opening request fit the parameters.
pub open spec fn open_sized<F: PrimeField, C, R: QACodewordRows<F>>(
    pp: QABaseProverParams<F, C>,
    word: R,
    left_len: nat,
    right_len: nat,
) -> bool {
    &&& word.matrix().len() == pp.num_rows
    &&& rect(residues::<F>(word.matrix()), exp2(pp.num_vars as nat))
    &&& left_len == log2(pp.num_rows as int)
    &&& right_len == pp.num_vars
}

/// The two foldings of the rows: by random weights and by those of the point.
pub open spec fn folded_inputs<F: PrimeField>(
    rows: Seq<Seq<int>>,
    challenges: Seq<int>,
    z_left: Seq<int>,
    n: nat,
) -> Seq<Seq<int>> {
    seq![comb::<F>(challenges, rows, n), comb::<F>(eq_evals::<F>(z_left), rows, n)]
}

/// Whether all rows of a matrix have `n` entries.
fn rows_have_len<F: PrimeField, R: QACodewordRows<F>>(word: &R, n: usize) -> (r: bool)
    ensures
        r == rect(residues::<F>(word.matrix()), n as nat),
{
    let ghost m = residues::<F>(word.matrix());
    let mut i: usize = 0;
    while i < word.num_rows()
        invariant
            i <= word.matrix().len(),
            m == residues::<F>(word.matrix()),
            forall|k: int| 0 <= k < i ==> (#[trigger] m[k]).len() == n,
        decreases word.matrix().len() - i,
    {
        if word.row(i).len() != n {
            assert(m[i as int].len() != n);
            return false;
        }
        i = i + 1;
    }
    true
}

/// Checks the sizes of an opening request, draws the row challenges, folds the
/// rows and encodes the foldings.
pub fn prove_qabase_open_full_start<
    F: PrimeField + Send,
    O,
    C,
    R: QACodewordRows<F>,
    T: FieldTranscript<F, O>,
>(
    pp: &QABaseProverParams<F, C>,
    word: &R,
    z_left: &[F],
    z_right: &[F],
    transcript: &mut T,
) -> (r: Result<FullOpenStart<F>, Error>)
    requires
        pp.wf(),
        is_pow2(pp.num_rows as int),
        2 * pp.inverse_rate <= usize::MAX,
    ensures
        final(transcript).held() == old(transcript).held(),
        r is Ok <==> open_sized::<F, C, R>(*pp, *word, z_left@.len(), z_right@.len()),
        r matches Err(e) ==> e.is_param("invalid Quasar full-opening dimensions")
            && *final(transcript) == *old(transcript),
        r matches Ok(start) ==> {
            let n = exp2(pp.num_vars as nat);
            let inputs = folded_inputs::<F>(
                residues::<F>(word.matrix()),
                vals(start.row_challenges@),
                vals(z_left@),
                n,
            );
            &&& start.row_challenges@.len() == pp.num_rows
            &&& start.row_weights@.len() == pp.num_rows
            &&& vals(start.row_weights@) == eq_evals::<F>(vals(z_left@))
            &&& endpoint_blocks::<F>(mat(start.polys@), inputs, pp.qa_params.coeffs())
            &&& rect(mat(start.polys@), n)
            &&& start.middle_evals@.len() == 2
            &&& mat(start.middle_evals@) == Seq::new(2, |b: int| walsh::<F>(inputs[b]))
            &&& final(transcript).log() == old(transcript).log() + drawn(
                vals(start.row_challenges@),
            )
        },
{
    let ghost m = residues::<F>(word.matrix());
    let ghost n = exp2(pp.num_vars as nat);
    proof {
        assert(n <= pp.inverse_rate * n) by (nonlinear_arith)
            requires
                pp.inverse_rate >= 2,
                n >= 0,
        ;
        assert(m.len() == word.matrix().len());
    }
    let row_len: usize = power_of_two(pp.num_vars);
    if word.num_rows() != pp.num_rows || word.num_cols() != row_len || !rows_have_len(word, row_len)
        || z_left.len() != log2_power_of_two(pp.num_rows) || z_right.len() != pp.num_vars {
        proof {
            if word.matrix().len() == pp.num_rows && rect(m, n) {
                assert(m[0].len() == n);
            }
        }
        return Err(Error::param("invalid Quasar full-opening dimensions"));
    }
    assert(m[0].len() == n);
    let row_challenges = squeeze_challenges::<F, O, T>(transcript, pp.num_rows);
    let row_weights = qabase_row_weights_from_z_left(pp.num_rows, z_left);
    let (proximity_input, evaluation_input) = linear_combine_rows_pair_parallel(
        word,
        &row_challenges,
        &row_weights,
    );
    let ghost inputs = folded_inputs::<F>(m, vals(row_challenges@), vals(z_left@), n);
    let mut both: Vec<Vec<F>> = Vec::new();
    both.push(proximity_input);
    both.push(evaluation_input);
    proof {
        comb_len::<F>(vals(row_challenges@), m, n);
        comb_len::<F>(vals(row_weights@), m, n);
        assert(mat(both@) =~= inputs);
    }
    let ghost both_m = mat(both@);
    match encode_endpoint_instances(pp, both) {
        Ok(encoded) => {
            proof {
                assert(mat(encoded.1@) =~= Seq::new(2, |b: int| walsh::<F>(inputs[b])));
            }
            Ok(
                FullOpenStart {
                    row_challenges,
                    row_weights,
                    polys: encoded.0,
                    middle_evals: encoded.1,
                },
            )
        },
        Err(e) => Err(e),
    }
}

/// Counts of a finished opening on the prover's side.
#[derive(Clone, Debug)]
pub struct QABaseFullOpenTwoLayerGkrProverOutput {
    pub endpoint_commitment_count: usize,
    pub opening_claim_count: usize,
    pub unique_opening_point_count: usize,
    pub query_indices: Vec<usize>,
    pub ok_eval_value: bool,
}

/// Counts of a finished opening on the verifier's side.
#[derive(Clone, Debug)]
pub struct QABaseFullOpenTwoLayerGkrVerifierOutput {
    pub endpoint_commitment_count: usize,
    pub opening_claim_count: usize,
    pub unique_opening_point_count: usize,
    pub query_indices: Vec<usize>,
}

impl QABaseFullOpenTwoLayerGkrVerifierOutput {
    /// The output of a rejected opening.
    pub fn rejected() -> (r: Self)
        ensures
            r.endpoint_commitment_count == 0,
            r.opening_claim_count == 0,
            r.unique_opening_point_count == 0,
            r.query_indices@.len() == 0,
    {
        QABaseFullOpenTwoLayerGkrVerifierOutput {
            endpoint_commitment_count: 0,
            opening_claim_count: 0,
            unique_opening_point_count: 0,
            query_indices: Vec::new(),
        }
    }
}

/// The claim about the evaluation itself.
pub open spec fn value_claim(
    layout: QABaseTwoLayerGkrLayout,
    z_right: Seq<int>,
    value: int,
) -> Claim {
    Claim { poly: layout.block_at(1, 0), point: z_right, value }
}

/// Holds the claimed value to the witness, adds the claim about it and counts.
pub fn prove_qabase_open_full_finish<F: PrimeField>(
    polys: &[Vec<F>],
    layout: &QABaseTwoLayerGkrLayout,
    z_right: Vec<F>,
    claimed_value: F,
    endpoint_commitment_count: usize,
    query_indices: Vec<usize>,
    points: &mut Vec<Vec<F>>,
    evals: &mut Vec<Evaluation<F>>,
) -> (r: Result<QABaseFullOpenTwoLayerGkrProverOutput, Error>)
    requires
        layout.wf(),
        layout.num_instances == 2,
        polys@.len() == layout.e_start,
        rect(mat(polys@), exp2(z_right@.len())),
    ensures
        r is Ok <==> claimed_value.val() == mle::<F>(
            mat(polys@)[layout.block_at(1, 0)],
            vals(z_right@),
        ),
        r matches Err(e) ==> e.is_open("claimed Quasar evaluation does not match the witness")
            && *final(points) == *old(points) && *final(evals) == *old(evals),
        r matches Ok(out) ==> {
            &&& claim_set(final(points)@, final(evals)@) == claim_set(
                old(points)@,
                old(evals)@,
            ).add_claim(value_claim(*layout, vals(z_right@), claimed_value.val()))
            &&& out.endpoint_commitment_count == endpoint_commitment_count
            &&& out.opening_claim_count == final(evals)@.len()
            &&& out.unique_opening_point_count == final(points)@.len()
            &&& out.query_indices == query_indices
            &&& out.ok_eval_value
        },
{
    let at: usize = layout.block_poly_index(1, 0);
    assert(mat(polys@)[at as int].len() == exp2(z_right@.len()));
    let actual = eval_mle_from_evals(&polys[at], &z_right);
    if !actual.equals(claimed_value) {
        return Err(Error::open("claimed Quasar evaluation does not match the witness"));
    }
    push_basefold_opening_claim(points, evals, at, z_right, claimed_value);
    Ok(
        QABaseFullOpenTwoLayerGkrProverOutput {
            endpoint_commitment_count,
            opening_claim_count: evals.len(),
            unique_opening_point_count: points.len(),
            query_indices,
            ok_eval_value: true,
        },
    )
}

/// The prover accepts exactly the value of the committed matrix at the point.
pub proof fn prover_accepts_true_value<F: PrimeField>(
    rows: Seq<Seq<int>>,
    polys: Seq<Seq<int>>,
    e: Seq<Seq<int>>,
    layout: QABaseTwoLayerGkrLayout,
    challenges: Seq<int>,
    z_left: Seq<int>,
    z_right: Seq<int>,
)
    requires
        layout.wf(),
        layout.num_instances == 2,
        layout.rho == e.len() + 1,
        rows.len() == exp2(z_left.len()),
        rect(rows, exp2(z_right.len())),
        endpoint_blocks::<F>(
            polys,
            folded_inputs::<F>(rows, challenges, z_left, exp2(z_right.len())),
            e,
        ),
    ensures
        mle::<F>(polys[layout.block_at(1, 0)], z_right) == mle::<F>(
            flatten(rows),
            z_right + z_left,
        ),
{
    split_evaluation::<F>(rows, z_left, z_right);
    let inputs = folded_inputs::<F>(rows, challenges, z_left, exp2(z_right.len()));
    assert(polys[1 * layout.rho] == inputs[1]);
}

/// The verifier's state after the root was read.
pub struct VerifyFullStart<F> {
    pub row_challenges: Vec<F>,
    pub row_weights: Vec<F>,
}

/// Checks the sizes of an evaluation point, reads the root and draws the row
/// challenges. `None` if the root read is not the committed one.
pub fn verify_qabase_open_full_start<F: PrimeField, H: HashFunction, C, T: TranscriptRead<
    F,
    H::Output,
>>(
    vp: &QABaseVerifierParams<F, C>,
    committed_root: &H::Output,
    z_left: &[F],
    z_right: &[F],
    transcript: &mut T,
) -> (r: Result<Option<VerifyFullStart<F>>, Error>)
    requires
        vp.wf(),
        is_pow2(vp.num_rows as int),
    ensures
        final(transcript).held() == old(transcript).held(),
        z_left@.len() != log2(vp.num_rows as int) || z_right@.len() != vp.num_vars ==> r is Err
            && r->Err_0.is_param("invalid Quasar evaluation point dimensions")
            && *final(transcript) == *old(transcript),
        r matches Ok(Some(start)) ==> {
            &&& z_left@.len() == log2(vp.num_rows as int)
            &&& z_right@.len() == vp.num_vars
            &&& start.row_challenges@.len() == vp.num_rows
            &&& start.row_weights@.len() == vp.num_rows
            &&& vals(start.row_weights@) == eq_evals::<F>(vals(z_left@))
            &&& final(transcript).log() == old(transcript).log().push(
                Event::Commitment(*committed_root),
            ) + drawn(vals(start.row_challenges@))
        },
        r matches Ok(None) ==> exists|d: H::Output|
            d != *committed_root && final(transcript).log() == #[trigger] old(
                transcript).log().push(Event::Commitment(d)),
        r matches Err(e) ==> z_left@.len() != log2(vp.num_rows as int) || z_right@.len()
            != vp.num_vars || cut_within(
            e,
            old(transcript).log(),
            final(transcript).log(),
            0,
            1,
        ),
{
    if z_left.len() != log2_power_of_two(vp.num_rows) || z_right.len() != vp.num_vars {
        return Err(Error::param("invalid Quasar evaluation point dimensions"));
    }
    let ghost log0 = transcript.log();
    let read_root = match transcript.read_commitment() {
        Ok(d) => d,
        Err(e) => {
            proof {
                cut_single::<H::Output>(e, log0, 0, arbitrary());
            }
            return Err(e);
        },
    };
    if !H::same(&read_root, committed_root) {
        return Ok(None);
    }
    let row_challenges = squeeze_challenges::<F, H::Output, T>(transcript, vp.num_rows);
    let row_weights = qabase_row_weights_from_z_left(vp.num_rows, z_left);
    Ok(Some(VerifyFullStart { row_challenges, row_weights }))
}

/// Adds the claim about the evaluation and counts.
pub fn verify_qabase_open_full_finish<F: PrimeField>(
    layout: &QABaseTwoLayerGkrLayout,
    z_right: Vec<F>,
    claimed_value: F,
    endpoint_commitment_count: usize,
    query_indices: Vec<usize>,
    points: &mut Vec<Vec<F>>,
    evals: &mut Vec<Evaluation<F>>,
) -> (out: QABaseFullOpenTwoLayerGkrVerifierOutput)
    requires
        layout.wf(),
        layout.num_instances == 2,
    ensures
        claim_set(final(points)@, final(evals)@) == claim_set(old(points)@, old(evals)@).add_claim(
            value_claim(*layout, vals(z_right@), claimed_value.val()),
        ),
        out.endpoint_commitment_count == endpoint_commitment_count,
        out.opening_claim_count == final(evals)@.len(),
        out.unique_opening_point_count == final(points)@.len(),
        out.query_indices == query_indices,
{
    let at: usize = layout.block_poly_index(1, 0);
    push_basefold_opening_claim(points, evals, at, z_right, claimed_value);
    QABaseFullOpenTwoLayerGkrVerifierOutput {
        endpoint_commitment_count,
        opening_claim_count: evals.len(),
        unique_opening_point_count: points.len(),
        query_indices,
    }
}

/// Claims at one point bring at most one new point.
proof fn same_point_once(set: ClaimSet, claims: Seq<Claim>, point: Seq<int>)
    requires
        forall|i: int| 0 <= i < claims.len() ==> (#[trigger] claims[i]).point == point,
    ensures
        set.add_claims(claims).points.len() <= set.points.len() + 1,
        claims.len() > 0 ==> find_point(set.add_claims(claims).points, point)
            < set.add_claims(claims).points.len(),
        set.add_claims(claims).points.len() >= set.points.len(),
    decreases claims.len(),
{
    if claims.len() > 0 {
        let front = claims.drop_last();
        assert forall|i: int| 0 <= i < front.len() implies (#[trigger] front[i]).point == point by {
            assert(front[i] == claims[i]);
        }
        same_point_once(set, front, point);
        let mid = set.add_claims(front);
        let end = set.add_claims(claims);
        find_point_props(mid.points, point);
        find_point_props(end.points, point);
        if find_point(mid.points, point) >= mid.points.len() {
            assert(end.points == mid.points.push(point));
            assert(end.points[mid.points.len() as int] == point);
        }
    }
}

/// A full opening states `5 rho` claims at no more than `2 rho + 2` points: the
/// claims at the inner point share it, and so do those at the outer point and
/// those of the merged check.
pub proof fn full_opening_counts<F: PrimeField>(
    layout: QABaseTwoLayerGkrLayout,
    p: QABaseTwoLayerGkrProof<F>,
    sc_point: Seq<int>,
    u: Seq<int>,
    q: Seq<int>,
    z_right: Seq<int>,
    value: int,
)
    requires
        layout.wf(),
        layout.num_instances == 2,
    ensures
        ({
            let start = ClaimSet { points: Seq::empty(), evals: Seq::empty() };
            let end = start.add_claims(gkr_claims(layout, p)).add_claims(
                merged_claims(layout, sc_point, u, q),
            ).add_claim(value_claim(layout, z_right, value));
            &&& end.evals.len() == 5 * layout.rho
            &&& end.points.len() <= 2 * layout.rho + 2
            &&& end.points.len() < end.evals.len()
        }),
{
    let start = ClaimSet { points: Seq::empty(), evals: Seq::empty() };
    let np = layout.rho - 1;
    let all = gkr_claims(layout, p);
    assert(2 * np == 2 * (layout.rho - 1));
    let a = all.take(2 * np);
    let b = all.subrange(2 * np, 2 * np + 2);
    let c = all.skip(2 * np + 2);
    assert(all =~= a + b + c);
    add_claims_concat(start, a, b);
    add_claims_concat(start, a + b, c);
    add_claims_states(start, a);
    let s1 = start.add_claims(a);
    same_point_once(s1, b, vals(p.inner_point@));
    let s2 = s1.add_claims(b);
    same_point_once(s2, c, vals(p.outer_point@));
    let s3 = s2.add_claims(c);
    let m = merged_claims(layout, sc_point, u, q);
    same_point_once(s3, m, sc_point);
    add_claims_states(start, all);
    add_claims_count(s3, m);
}

/// Every claim adds one entry.
proof fn add_claims_count(set: ClaimSet, claims: Seq<Claim>)
    ensures
        set.add_claims(claims).evals.len() == set.evals.len() + claims.len(),
    decreases claims.len(),
{
    if claims.len() > 0 {
        add_claims_count(set, claims.drop_last());
    }
}

/// All claims of a full opening, in the order in which they are added.
pub open spec fn full_claims<F: PrimeField>(
    layout: QABaseTwoLayerGkrLayout,
    p: QABaseTwoLayerGkrProof<F>,
    cols: QABaseMergedColumnConsistencyOutput<F>,
    z_right: Seq<int>,
    value: int,
) -> Seq<Claim> {
    (gkr_claims(layout, p) + merged_claims(
        layout,
        vals(cols.sc_point@),
        vals(cols.proximity_block_evals@),
        vals(cols.evaluation_block_evals@),
    )).push(value_claim(layout, z_right, value))
}

/// The prover ran the two layers from `log0` to `gkr_end` and the merged check
/// from there to `log1`.
pub open spec fn full_proved<F: PrimeField, H: HashFunction, C, W: QACodewordColumns<F>>(
    pp: QABaseProverParams<F, C>,
    comm: QABaseCommitment<H, W>,
    polys: Seq<Seq<int>>,
    middles: Seq<Seq<int>>,
    layout: QABaseTwoLayerGkrLayout,
    row_challenges: Seq<int>,
    row_weights: Seq<int>,
    p: QABaseTwoLayerGkrProof<F>,
    outer: GkrOuter<F>,
    inner: GkrInner<F>,
    cols: QABaseMergedColumnConsistencyOutput<F>,
    state: MergedColumns<F>,
    log0: Seq<Event<H::Output>>,
    gkr_end: Seq<Event<H::Output>>,
    mid: Seq<Event<H::Output>>,
    log1: Seq<Event<H::Output>>,
) -> bool {
    &&& layout.wf()
    &&& layout.rho == pp.inverse_rate
    &&& layout.num_instances == 2
    &&& gkr_proved::<F, H::Output>(
        p,
        outer,
        inner,
        polys,
        middles,
        pp.qa_params.coeffs(),
        layout,
        pp.num_vars as nat,
        log0,
        gkr_end,
    )
    &&& merged_proved::<F, H, C, W>(
        pp,
        comm,
        polys,
        layout,
        row_challenges,
        row_weights,
        cols,
        state,
        gkr_end,
        mid,
        log1,
    )
}

/// What is handed to the opening of all claims: the claims, the polynomials
/// that they speak of, the commitments and the counts.
pub open spec fn full_collected<F: PrimeField, C>(
    acc: QABaseProverOpeningAccumulator<F, C>,
    out: QABaseFullOpenTwoLayerGkrProverOutput,
    pp: QABaseProverParams<F, C>,
    endpoint_data: QABaseEndpointProverData<F, C>,
    claims: Seq<Claim>,
    query_indices: Seq<usize>,
) -> bool {
    let blocks = endpoint_data.commitments.block_commitments@;
    &&& claim_set(acc.points@, acc.evals@) == no_claims().add_claims(claims)
    &&& acc.polys@.len() == endpoint_data.polys@.len() + pp.e_polys@.len()
    &&& forall|i: int|
        0 <= i < endpoint_data.polys@.len() ==> *(#[trigger] acc.polys@[i])
            == endpoint_data.polys@[i]
    &&& forall|i: int|
        0 <= i < pp.e_polys@.len() ==> *(#[trigger] acc.polys@[endpoint_data.polys@.len() + i])
            == pp.e_polys@[i]
    &&& acc.comms@.len() == blocks.len() + pp.e_commitments@.len()
    &&& forall|i: int| 0 <= i < blocks.len() ==> *(#[trigger] acc.comms@[i]) == blocks[i]
    &&& forall|i: int|
        0 <= i < pp.e_commitments@.len() ==> *(#[trigger] acc.comms@[blocks.len() + i])
            == pp.e_commitments@[i]
    &&& out.endpoint_commitment_count == blocks.len()
    &&& out.opening_claim_count == acc.evals@.len()
    &&& out.unique_opening_point_count == acc.points@.len()
    &&& out.query_indices@ == query_indices
    &&& out.ok_eval_value
}

/// Proves an opening once the blocks of both codewords are committed: the two
/// layers, the merged check and the claim about the value. The claims that come
/// back are left to be opened.
#[verifier::rlimit(40)]
pub fn prove_qabase_open_full_two_layer_gkr<
    'a,
    F: PrimeField,
    H: HashFunction,
    C,
    W: QACodewordColumns<F>,
    T: TranscriptWrite<F, H::Output>,
>(
    pp: &'a QABaseProverParams<F, C>,
    comm: &QABaseCommitment<H, W>,
    row_challenges: &[F],
    row_weights: &[F],
    endpoint_data: &'a mut QABaseEndpointProverData<F, C>,
    z_right: Vec<F>,
    claimed_value: F,
    transcript: &mut T,
) -> (r: Result<
    (QABaseProverOpeningAccumulator<'a, F, C>, QABaseFullOpenTwoLayerGkrProverOutput),
    Error,
>)
    requires
        pp.wf(),
        3 * pp.inverse_rate <= usize::MAX,
        commitment_wf::<F, H, W>(
            *comm,
            pp.num_rows as nat,
            (pp.inverse_rate * exp2(pp.num_vars as nat)) as nat,
        ),
        row_challenges@.len() == pp.num_rows,
        row_weights@.len() == pp.num_rows,
        old(endpoint_data).commitments.num_instances == 2,
        old(endpoint_data).polys@.len() == 2 * pp.inverse_rate,
        old(endpoint_data).middle_evals@.len() == 2,
        rect(mat(old(endpoint_data).polys@), exp2(pp.num_vars as nat)),
        rect(mat(old(endpoint_data).middle_evals@), exp2(pp.num_vars as nat)),
        z_right@.len() == pp.num_vars,
    ensures
        T::infallible() && comm.codeword.readable() ==> (r is Ok <==> claimed_value.val() == mle::<
            F,
        >(mat(old(endpoint_data).polys@)[pp.inverse_rate as int], vals(z_right@))),
        T::infallible() && comm.codeword.readable() && claimed_value.val() != mle::<F>(
            mat(old(endpoint_data).polys@)[pp.inverse_rate as int],
            vals(z_right@),
        ) ==> r is Err && r->Err_0.is_open("claimed Quasar evaluation does not match the witness"),
        r is Ok ==> claimed_value.val() == mle::<F>(
            mat(old(endpoint_data).polys@)[pp.inverse_rate as int],
            vals(z_right@),
        ),
        r matches Err(e) ==> e is Transcript || (e is InvalidPcsOpen
            && !comm.codeword.readable()) || (e.is_open(
            "claimed Quasar evaluation does not match the witness",
        ) && claimed_value.val() != mle::<F>(
            mat(old(endpoint_data).polys@)[pp.inverse_rate as int],
            vals(z_right@),
        )),
        r matches Ok(result) ==> exists|
            layout: QABaseTwoLayerGkrLayout,
            p: QABaseTwoLayerGkrProof<F>,
            outer: GkrOuter<F>,
            inner: GkrInner<F>,
            cols: QABaseMergedColumnConsistencyOutput<F>,
            state: MergedColumns<F>,
            gkr_end: Seq<Event<H::Output>>,
            mid: Seq<Event<H::Output>>,
        |
            {
                &&& #[trigger] full_proved::<F, H, C, W>(
                    *pp,
                    *comm,
                    mat(old(endpoint_data).polys@),
                    mat(old(endpoint_data).middle_evals@),
                    layout,
                    vals(row_challenges@),
                    vals(row_weights@),
                    p,
                    outer,
                    inner,
                    cols,
                    state,
                    old(transcript).log(),
                    gkr_end,
                    mid,
                    final(transcript).log(),
                )
                &&& full_collected(
                    result.0,
                    result.1,
                    *pp,
                    *final(endpoint_data),
                    full_claims(layout, p, cols, vals(z_right@), claimed_value.val()),
                    cols.query_indices@,
                )
            },
        final(endpoint_data).polys == old(endpoint_data).polys,
        final(endpoint_data).commitments == old(endpoint_data).commitments,
        r is Ok ==> emptied(final(endpoint_data).middle_evals@, old(endpoint_data).middle_evals@),
{
    let ghost log0 = transcript.log();
    let ghost polys = mat(endpoint_data.polys@);
    let ghost middles = mat(endpoint_data.middle_evals@);
    let layout = QABaseTwoLayerGkrLayout::new(
        pp.inverse_rate,
        endpoint_data.commitments.num_instances,
    );
    let p = match prove_qabase_two_layer_gkr_batch::<F, H::Output, C, T>(
        pp,
        endpoint_data,
        &layout,
        transcript,
    ) {
        Ok(p) => p,
        Err(e) => {
            return Err(e);
        },
    };
    let ghost gkr_end = transcript.log();
    let ghost (outer, inner) = choose|outer: GkrOuter<F>, inner: GkrInner<F>| #[trigger]
        gkr_proved::<F, H::Output>(
            p,
            outer,
            inner,
            polys,
            middles,
            pp.qa_params.coeffs(),
            layout,
            pp.num_vars as nat,
            log0,
            gkr_end,
        );
    let data: &'a QABaseEndpointProverData<F, C> = endpoint_data;
    let built = build_two_layer_gkr_prover_accumulator(data, pp);
    let mut acc = built.0;
    proof {
        assert(claim_set(acc.points@, acc.evals@) =~= no_claims());
        assert(layout.e_start == 2 * pp.inverse_rate);
        assert(layout.block_at(1, 0) == pp.inverse_rate);
        assert forall|i: int| 0 <= i < pp.e_polys@.len() implies *(
        #[trigger] acc.polys@[data.polys@.len() + i]) == pp.e_polys@[i] by {
            assert(built.1.e_at(i) == data.polys@.len() + i);
        }
    }
    let ghost acc_polys = acc.polys@;
    let ghost acc_comms = acc.comms@;
    collect_two_layer_gkr_claims_prover(&mut acc, &layout, &p);
    let ghost set1 = claim_set(acc.points@, acc.evals@);
    let cols = match prove_merged_column_consistency::<F, H, C, W, T>(
        &mut acc,
        pp,
        comm,
        &data.polys,
        &layout,
        row_challenges,
        row_weights,
        transcript,
    ) {
        Ok(cols) => cols,
        Err(e) => {
            return Err(e);
        },
    };
    let ghost cols_g = cols;
    let ghost (state, mid) = choose|state: MergedColumns<F>, mid: Seq<Event<H::Output>>| #[trigger]
        merged_proved::<F, H, C, W>(
            *pp,
            *comm,
            polys,
            layout,
            vals(row_challenges@),
            vals(row_weights@),
            cols,
            state,
            gkr_end,
            mid,
            transcript.log(),
        );
    let ghost set2 = claim_set(acc.points@, acc.evals@);
    let ghost x = vals(z_right@);
    let out = match prove_qabase_open_full_finish(
        &data.polys,
        &layout,
        z_right,
        claimed_value,
        data.commitments.block_commitments.len(),
        cols.query_indices,
        &mut acc.points,
        &mut acc.evals,
    ) {
        Ok(out) => out,
        Err(e) => {
            return Err(e);
        },
    };
    proof {
        let a = gkr_claims(layout, p);
        let b = merged_claims(
            layout,
            vals(cols_g.sc_point@),
            vals(cols_g.proximity_block_evals@),
            vals(cols_g.evaluation_block_evals@),
        );
        let all = full_claims(layout, p, cols_g, x, claimed_value.val());
        add_claims_concat(no_claims(), a, b);
        assert(all.drop_last() =~= a + b);
        assert(all.last() == value_claim(layout, x, claimed_value.val()));
        assert(full_proved::<F, H, C, W>(
            *pp,
            *comm,
            polys,
            middles,
            layout,
            vals(row_challenges@),
            vals(row_weights@),
            p,
            outer,
            inner,
            cols_g,
            state,
            log0,
            gkr_end,
            mid,
            transcript.log(),
        ));
        assert(full_collected(acc, out, *pp, *data, all, cols_g.query_indices@));
    }
    Ok((acc, out))
}

/// The verifier accepted the two layers from `log0` to `gkr_end` and the merged
/// check from there to `log1`.
pub open spec fn full_verified<F: PrimeField, H: HashFunction, C>(
    vp: QABaseVerifierParams<F, C>,
    root: H::Output,
    row_challenges: Seq<int>,
    row_weights: Seq<int>,
    p: QABaseTwoLayerGkrProof<F>,
    cols: QABaseMergedColumnConsistencyOutput<F>,
    log0: Seq<Event<H::Output>>,
    gkr_end: Seq<Event<H::Output>>,
    log1: Seq<Event<H::Output>>,
) -> bool {
    &&& gkr_result::<F, H::Output, C>(true, p, vp, log0, gkr_end)
    &&& merged_result::<F, H, C>(true, cols, vp, root, row_challenges, row_weights, gkr_end, log1)
}

/// The two layers of both instances were verified with this outcome.
pub open spec fn gkr_result<F: PrimeField, O, C>(
    ok: bool,
    p: QABaseTwoLayerGkrProof<F>,
    vp: QABaseVerifierParams<F, C>,
    log0: Seq<Event<O>>,
    log1: Seq<Event<O>>,
) -> bool {
    exists|ch: GkrChallenges<F>, outer_end: Seq<Event<O>>, inner_end: Seq<Event<O>>| #[trigger]
        gkr_verified::<F, O>(
            ok,
            p,
            ch,
            vp.num_vars as nat,
            2,
            (vp.inverse_rate - 1) as nat,
            log0,
            outer_end,
            inner_end,
            log1,
        )
}

/// The merged check was verified with this outcome.
pub open spec fn merged_result<F: PrimeField, H: HashFunction, C>(
    ok: bool,
    cols: QABaseMergedColumnConsistencyOutput<F>,
    vp: QABaseVerifierParams<F, C>,
    root: H::Output,
    row_challenges: Seq<int>,
    row_weights: Seq<int>,
    log0: Seq<Event<H::Output>>,
    log1: Seq<Event<H::Output>>,
) -> bool {
    exists|
        state: MergedColumnsVerifier<F>,
        d: QueriesRead<H::Output>,
        terminal: int,
        mid: Seq<Event<H::Output>>,
        end: Seq<Event<H::Output>>,
    | #[trigger]
        merged_verified::<F, H, C>(
            ok,
            cols,
            vp,
            root,
            row_challenges,
            row_weights,
            state,
            d,
            terminal,
            log0,
            mid,
            end,
            log1,
        )
}

/// The verifier rejected: the two layers did not end in the values of the
/// inputs; or they did, and a column does not lead to the root, or the merged
/// check does not end in the values of the blocks.
pub open spec fn full_rejected<F: PrimeField, H: HashFunction, C>(
    vp: QABaseVerifierParams<F, C>,
    root: H::Output,
    row_challenges: Seq<int>,
    row_weights: Seq<int>,
    log0: Seq<Event<H::Output>>,
    log1: Seq<Event<H::Output>>,
) -> bool {
    ||| exists|p: QABaseTwoLayerGkrProof<F>| #[trigger]
        gkr_result::<F, H::Output, C>(false, p, vp, log0, log1)
    ||| exists|
        p: QABaseTwoLayerGkrProof<F>,
        gkr_end: Seq<Event<H::Output>>,
        d: QueriesRead<H::Output>,
        k: nat,
    |
        (#[trigger] gkr_result::<F, H::Output, C>(true, p, vp, log0, gkr_end))
            && #[trigger] queries_refused::<F, H, C>(vp, root, d, k, gkr_end, log1)
    ||| exists|
        p: QABaseTwoLayerGkrProof<F>,
        gkr_end: Seq<Event<H::Output>>,
        cols: QABaseMergedColumnConsistencyOutput<F>,
    |
        (#[trigger] gkr_result::<F, H::Output, C>(true, p, vp, log0, gkr_end))
            && #[trigger] merged_result::<F, H, C>(
            false,
            cols,
            vp,
            root,
            row_challenges,
            row_weights,
            gkr_end,
            log1,
        )
}

/// One of the sum-checks was refused: in the two layers, or in the merged check
/// after they were accepted.
pub open spec fn full_sum_refused<F: PrimeField, H: HashFunction, C>(
    vp: QABaseVerifierParams<F, C>,
    root: H::Output,
    row_challenges: Seq<int>,
    row_weights: Seq<int>,
    log0: Seq<Event<H::Output>>,
    log1: Seq<Event<H::Output>>,
) -> bool {
    ||| gkr_refused::<F, H::Output>(
        vp.num_vars as nat,
        2,
        (vp.inverse_rate - 1) as nat,
        log0,
        log1,
    )
    ||| exists|
        p: QABaseTwoLayerGkrProof<F>,
        gkr_end: Seq<Event<H::Output>>,
        state: MergedColumnsVerifier<F>,
        d: QueriesRead<H::Output>,
        mid: Seq<Event<H::Output>>,
    |
        (#[trigger] gkr_result::<F, H::Output, C>(true, p, vp, log0, gkr_end))
            && #[trigger] merged_sum_refused::<F, H, C>(
            vp,
            root,
            row_challenges,
            row_weights,
            state,
            d,
            gkr_end,
            mid,
            log1,
        )
}

/// What is handed to the verification of all claims.
pub open spec fn full_read<F: PrimeField, C>(
    acc: QABaseVerifierOpeningAccumulator<F, C>,
    out: QABaseFullOpenTwoLayerGkrVerifierOutput,
    vp: QABaseVerifierParams<F, C>,
    blocks: Seq<C>,
    claims: Seq<Claim>,
    query_indices: Seq<usize>,
) -> bool {
    &&& claim_set(acc.points@, acc.evals@) == no_claims().add_claims(claims)
    &&& acc.comms@.len() == blocks.len() + vp.e_commitments@.len()
    &&& forall|i: int| 0 <= i < blocks.len() ==> *(#[trigger] acc.comms@[i]) == blocks[i]
    &&& forall|i: int|
        0 <= i < vp.e_commitments@.len() ==> *(#[trigger] acc.comms@[blocks.len() + i])
            == vp.e_commitments@[i]
    &&& out.endpoint_commitment_count == blocks.len()
    &&& out.opening_claim_count == acc.evals@.len()
    &&& out.unique_opening_point_count == acc.points@.len()
    &&& out.query_indices@ == query_indices
}

/// How many field elements an opening sends behind the commitments.
pub open spec fn full_fields<F: PrimeField, C>(vp: QABaseVerifierParams<F, C>) -> nat {
    gkr_fields(vp.num_vars as nat, 2, (vp.inverse_rate - 1) as nat) + merged_fields(vp)
}

/// How many messages the two layers have.
pub proof fn gkr_went<F: PrimeField, O, C>(
    ok: bool,
    p: QABaseTwoLayerGkrProof<F>,
    vp: QABaseVerifierParams<F, C>,
    log0: Seq<Event<O>>,
    log1: Seq<Event<O>>,
)
    requires
        gkr_result::<F, O, C>(ok, p, vp, log0, log1),
    ensures
        went(log0, log1, gkr_fields(vp.num_vars as nat, 2, (vp.inverse_rate - 1) as nat), 0),
{
    let nv = vp.num_vars as nat;
    let np = (vp.inverse_rate - 1) as nat;
    let (ch, outer_end, inner_end) = choose|
        ch: GkrChallenges<F>,
        outer_end: Seq<Event<O>>,
        inner_end: Seq<Event<O>>,
    | #[trigger]
        gkr_verified::<F, O>(ok, p, ch, nv, 2, np, log0, outer_end, inner_end, log1);
    let a = log0 + ch.events::<O>();
    let b = a + sent_fields::<O>(flat_outputs(p.output_evals_at_gammas@));
    let c = outer_end + sent_fields::<O>(vals(p.e_evals_at_outer_point@));
    ch.lemma_went::<O>(log0);
    flatten_len(mat(p.output_evals_at_gammas@), np);
    went_plain::<O>(a, flat_outputs(p.output_evals_at_gammas@), Seq::empty());
    sumcheck_went::<F, O>(
        nv,
        3,
        p.claimed_output_batch.val(),
        p.outer_terminal_eval.val(),
        vals(p.outer_point@),
        b,
        outer_end,
    );
    went_plain::<O>(outer_end, vals(p.e_evals_at_outer_point@), Seq::empty());
    sumcheck_went::<F, O>(
        nv,
        2,
        p.outer_terminal_eval.val(),
        p.inner_terminal_eval.val(),
        vals(p.inner_point@),
        c,
        inner_end,
    );
    went_plain::<O>(inner_end, vals(p.input_evals_at_inner_point@), Seq::empty());
}

/// What the verifier of a full opening says of the messages from `log0` to
/// `log1`: the claims that are left where all checks passed; nothing where one of
/// them did not; an error where the messages ran out or a sum-check is refused.
pub open spec fn full_verdict<F: PrimeField, H: HashFunction, C>(
    vp: QABaseVerifierParams<F, C>,
    root: H::Output,
    row_challenges: Seq<int>,
    row_weights: Seq<int>,
    blocks: Seq<C>,
    z_right: Seq<int>,
    value: int,
    log0: Seq<Event<H::Output>>,
    log1: Seq<Event<H::Output>>,
    r: Result<
        (Option<QABaseVerifierOpeningAccumulator<F, C>>, QABaseFullOpenTwoLayerGkrVerifierOutput),
        Error,
    >,
) -> bool {
    &&& r matches Ok((Some(acc), out)) ==> exists|
        layout: QABaseTwoLayerGkrLayout,
        p: QABaseTwoLayerGkrProof<F>,
        cols: QABaseMergedColumnConsistencyOutput<F>,
        gkr_end: Seq<Event<H::Output>>,
    |
        {
            &&& layout.wf()
            &&& layout.rho == vp.inverse_rate
            &&& layout.num_instances == 2
            &&& #[trigger] full_verified::<F, H, C>(
                vp,
                root,
                row_challenges,
                row_weights,
                p,
                cols,
                log0,
                gkr_end,
                log1,
            )
            &&& #[trigger] full_read(
                acc,
                out,
                vp,
                blocks,
                full_claims(layout, p, cols, z_right, value),
                cols.query_indices@,
            )
        }
    &&& r matches Ok((None, out)) ==> {
        &&& out.endpoint_commitment_count == 0
        &&& out.opening_claim_count == 0
        &&& out.unique_opening_point_count == 0
        &&& out.query_indices@.len() == 0
        &&& full_rejected::<F, H, C>(vp, root, row_challenges, row_weights, log0, log1)
    }
    &&& r matches Err(e) ==> {
        ||| cut_within(e, log0, log1, full_fields(vp), merged_digests(vp))
        ||| round_error(e) && full_sum_refused::<F, H, C>(
            vp,
            root,
            row_challenges,
            row_weights,
            log0,
            log1,
        )
    }
}

/// Verifies an opening once the commitments to the blocks are read. Where it is
/// accepted so far, the claims that come back are left to be verified.
pub fn verify_qabase_open_full_two_layer_gkr<
    'a,
    F: PrimeField,
    H: HashFunction,
    C,
    T: TranscriptRead<F, H::Output>,
>(
    vp: &'a QABaseVerifierParams<F, C>,
    root: &H::Output,
    row_challenges: &[F],
    row_weights: &[F],
    endpoint_commitments: &'a QABaseEndpointCommitments<C>,
    z_right: Vec<F>,
    claimed_value: F,
    transcript: &mut T,
) -> (r: Result<
    (
        Option<QABaseVerifierOpeningAccumulator<'a, F, C>>,
        QABaseFullOpenTwoLayerGkrVerifierOutput,
    ),
    Error,
>)
    requires
        vp.wf(),
        3 * vp.inverse_rate <= usize::MAX,
        row_challenges@.len() == vp.num_rows,
        row_weights@.len() == vp.num_rows,
        endpoint_commitments.num_instances == 2,
    ensures
        final(transcript).held() == old(transcript).held(),
        full_verdict::<F, H, C>(
            *vp,
            *root,
            vals(row_challenges@),
            vals(row_weights@),
            endpoint_commitments.block_commitments@,
            vals(z_right@),
            claimed_value.val(),
            old(transcript).log(),
            final(transcript).log(),
            r,
        ),
{
    let ghost log0 = transcript.log();
    let ghost rc = vals(row_challenges@);
    let ghost rw = vals(row_weights@);
    let ghost blocks = endpoint_commitments.block_commitments@;
    let ghost first = gkr_fields(vp.num_vars as nat, 2, (vp.inverse_rate - 1) as nat);
    let ghost (n, m) = (full_fields(*vp), merged_digests(*vp));
    let built = build_two_layer_gkr_verifier_accumulator(endpoint_commitments, vp);
    let mut acc = built.0;
    let layout = built.1;
    assert(claim_set(acc.points@, acc.evals@) =~= no_claims());
    let (ok_gkr, p) = match verify_qabase_two_layer_gkr_batch::<F, H::Output, C, T>(
        vp,
        2,
        transcript,
    ) {
        Ok(result) => result,
        Err(e) => {
            proof {
                if cut_within(e, log0, transcript.log(), first, 0) {
                    assert(went(log0, log0, 0, 0));
                    cut_later(e, log0, log0, transcript.log(), 0, 0, first, 0, n, m);
                }
            }
            return Err(e);
        },
    };
    let ghost gkr_end = transcript.log();
    assert(gkr_result::<F, H::Output, C>(ok_gkr, p, *vp, log0, gkr_end));
    if !ok_gkr {
        return Ok((None, QABaseFullOpenTwoLayerGkrVerifierOutput::rejected()));
    }
    collect_two_layer_gkr_claims_verifier(&mut acc, &layout, &p);
    let (ok_columns, read) = match verify_merged_column_consistency::<F, H, C, T>(
        &mut acc,
        vp,
        root,
        &layout,
        row_challenges,
        row_weights,
        transcript,
    ) {
        Ok(result) => result,
        Err(e) => {
            proof {
                let rest = merged_fields(*vp);
                if cut_within(e, gkr_end, transcript.log(), rest, m) {
                    gkr_went::<F, H::Output, C>(ok_gkr, p, *vp, log0, gkr_end);
                    cut_later(e, log0, gkr_end, transcript.log(), first, 0, rest, m, n, m);
                } else {
                    let (state, d, mid) = choose|
                        state: MergedColumnsVerifier<F>,
                        d: QueriesRead<H::Output>,
                        mid: Seq<Event<H::Output>>,
                    | #[trigger]
                        merged_sum_refused::<F, H, C>(
                            *vp,
                            *root,
                            rc,
                            rw,
                            state,
                            d,
                            gkr_end,
                            mid,
                            transcript.log(),
                        );
                    assert(gkr_result::<F, H::Output, C>(true, p, *vp, log0, gkr_end));
                    assert(merged_sum_refused::<F, H, C>(
                        *vp,
                        *root,
                        rc,
                        rw,
                        state,
                        d,
                        gkr_end,
                        mid,
                        transcript.log(),
                    ));
                }
            }
            return Err(e);
        },
    };
    let ghost log1 = transcript.log();
    let cols = match read {
        Some(cols) => cols,
        None => {
            return Ok((None, QABaseFullOpenTwoLayerGkrVerifierOutput::rejected()));
        },
    };
    let ghost cols_g = cols;
    assert(merged_result::<F, H, C>(ok_columns, cols, *vp, *root, rc, rw, gkr_end, log1));
    if !ok_columns {
        return Ok((None, QABaseFullOpenTwoLayerGkrVerifierOutput::rejected()));
    }
    let ghost x = vals(z_right@);
    let out = verify_qabase_open_full_finish(
        &layout,
        z_right,
        claimed_value,
        endpoint_commitments.block_commitments.len(),
        cols.query_indices,
        &mut acc.points,
        &mut acc.evals,
    );
    proof {
        let a = gkr_claims(layout, p);
        let b = merged_claims(
            layout,
            vals(cols_g.sc_point@),
            vals(cols_g.proximity_block_evals@),
            vals(cols_g.evaluation_block_evals@),
        );
        let all = full_claims(layout, p, cols_g, x, claimed_value.val());
        add_claims_concat(no_claims(), a, b);
        assert(all.drop_last() =~= a + b);
        assert(all.last() == value_claim(layout, x, claimed_value.val()));
        assert(full_verified::<F, H, C>(*vp, *root, rc, rw, p, cols_g, log0, gkr_end, log1));
        assert(full_read(acc, out, *vp, blocks, all, cols_g.query_indices@));
    }
    let r: Result<
        (
            Option<QABaseVerifierOpeningAccumulator<'a, F, C>>,
            QABaseFullOpenTwoLayerGkrVerifierOutput,
        ),
        Error,
    > = Ok((Some(acc), out));
    assert(r->Ok_0.0->Some_0 == acc && r->Ok_0.1 == out);
    r
}

/// What the prover of a full opening writes takes the verifier to the same
/// claims, accepted: for the codewords of `rows`, and for blocks of the
/// codewords of both foldings of `rows`.
pub proof fn honest_full_opening_is_accepted<
    F: PrimeField,
    H: HashFunction,
    C,
    W: QACodewordColumns<F>,
>(
    pp: QABaseProverParams<F, C>,
    vp: QABaseVerifierParams<F, C>,
    comm: QABaseCommitment<H, W>,
    rows: Seq<Seq<int>>,
    polys: Seq<Seq<int>>,
    middles: Seq<Seq<int>>,
    layout: QABaseTwoLayerGkrLayout,
    row_challenges: Seq<int>,
    z_left: Seq<int>,
    p: QABaseTwoLayerGkrProof<F>,
    outer: GkrOuter<F>,
    inner: GkrInner<F>,
    cols: QABaseMergedColumnConsistencyOutput<F>,
    state: MergedColumns<F>,
    log0: Seq<Event<H::Output>>,
    gkr_end: Seq<Event<H::Output>>,
    mid: Seq<Event<H::Output>>,
    log1: Seq<Event<H::Output>>,
)
    requires
        pp.wf(),
        is_pow2(pp.num_rows as int),
        vp.num_vars == pp.num_vars,
        vp.num_rows == pp.num_rows,
        vp.inverse_rate == pp.inverse_rate,
        vp.num_queries == pp.num_queries,
        3 * pp.inverse_rate <= usize::MAX,
        rows.len() == pp.num_rows,
        z_left.len() == log2(pp.num_rows as int),
        rect(rows, exp2(pp.num_vars as nat)),
        residues::<F>(comm.codeword.encoded()) == encode_rows::<F>(rows, pp.qa_params.coeffs()),
        tree_over::<H, F>(
            comm.codeword_tree@,
            residues::<F>(comm.codeword.encoded()),
            (pp.inverse_rate * exp2(pp.num_vars as nat)) as nat,
        ),
        row_challenges.len() == pp.num_rows,
        endpoint_blocks::<F>(
            polys,
            folded_inputs::<F>(rows, row_challenges, z_left, exp2(pp.num_vars as nat)),
            pp.qa_params.coeffs(),
        ),
        rect(polys, exp2(pp.num_vars as nat)),
        middles == Seq::new(
            2,
            |b: int|
                walsh::<F>(
                    folded_inputs::<F>(rows, row_challenges, z_left, exp2(pp.num_vars as nat))[b],
                ),
        ),
        full_proved::<F, H, C, W>(
            pp,
            comm,
            polys,
            middles,
            layout,
            row_challenges,
            eq_evals::<F>(z_left),
            p,
            outer,
            inner,
            cols,
            state,
            log0,
            gkr_end,
            mid,
            log1,
        ),
    ensures
        full_verified::<F, H, C>(
            vp,
            comm.root_spec(),
            row_challenges,
            eq_evals::<F>(z_left),
            p,
            cols,
            log0,
            gkr_end,
            log1,
        ),
{
    let n = exp2(pp.num_vars as nat);
    let e = pp.qa_params.coeffs();
    let rw = eq_evals::<F>(z_left);
    let inputs = folded_inputs::<F>(rows, row_challenges, z_left, n);
    pow2_is_exp2(pp.num_rows as int);
    assert(rw.len() == pp.num_rows);
    comb_len::<F>(row_challenges, rows, n);
    comb_len::<F>(rw, rows, n);
    assert(middles =~= Seq::new(inputs.len(), |b: int| walsh::<F>(inputs[b])));
    assert forall|b: int| 0 <= b < inputs.len() implies vcanon::<F>(#[trigger] inputs[b]) by {}
    assert forall|b: int| 0 <= b < inputs.len() implies (#[trigger] inputs[b]).len() == n by {}
    honest_gkr_run_is_accepted::<F, H::Output>(
        p,
        outer,
        inner,
        polys,
        inputs,
        middles,
        e,
        layout,
        pp.num_vars as nat,
        log0,
        gkr_end,
    );
    honest_merged_run_is_accepted::<F, H, C, W>(
        pp,
        vp,
        comm,
        rows,
        polys,
        layout,
        row_challenges,
        rw,
        cols,
        state,
        gkr_end,
        mid,
        log1,
    );
}

/// Every claim of an honest full opening is true of the blocks and of the
/// coefficient vectors after them.
pub proof fn honest_full_claims_are_true<
    F: PrimeField,
    H: HashFunction,
    C,
    W: QACodewordColumns<F>,
>(
    pp: QABaseProverParams<F, C>,
    comm: QABaseCommitment<H, W>,
    polys: Seq<Seq<int>>,
    middles: Seq<Seq<int>>,
    layout: QABaseTwoLayerGkrLayout,
    row_challenges: Seq<int>,
    row_weights: Seq<int>,
    p: QABaseTwoLayerGkrProof<F>,
    outer: GkrOuter<F>,
    inner: GkrInner<F>,
    cols: QABaseMergedColumnConsistencyOutput<F>,
    state: MergedColumns<F>,
    z_right: Seq<int>,
    log0: Seq<Event<H::Output>>,
    gkr_end: Seq<Event<H::Output>>,
    mid: Seq<Event<H::Output>>,
    log1: Seq<Event<H::Output>>,
    i: int,
)
    requires
        pp.wf(),
        polys.len() == 2 * pp.inverse_rate,
        middles.len() == 2,
        full_proved::<F, H, C, W>(
            pp,
            comm,
            polys,
            middles,
            layout,
            row_challenges,
            row_weights,
            p,
            outer,
            inner,
            cols,
            state,
            log0,
            gkr_end,
            mid,
            log1,
        ),
        0 <= i < 5 * pp.inverse_rate,
    ensures
        ({
            let value = mle::<F>(polys[pp.inverse_rate as int], z_right);
            let claims = full_claims(layout, p, cols, z_right, value);
            claims.len() == 5 * pp.inverse_rate && claims[i].is_true::<F>(
                polys + pp.qa_params.coeffs(),
            )
        }),
{
    let rho = layout.rho as int;
    let np = rho - 1;
    let e = pp.qa_params.coeffs();
    let all = polys + e;
    let value = mle::<F>(polys[rho], z_right);
    let claims = full_claims(layout, p, cols, z_right, value);
    let a = gkr_claims(layout, p);
    let x = vals(cols.sc_point@);
    let b = merged_claims(
        layout,
        x,
        vals(cols.proximity_block_evals@),
        vals(cols.evaluation_block_evals@),
    );
    assert(2 * np + 2 + np == a.len());
    assert(layout.block_at(1, 0) == rho);
    if i < 2 * np {
        let (k, t) = (i / np, i % np);
        flat_split(i, 2, np);
        assert(claims[i] == a[i]);
        layout.lemma_block(k, t + 1);
        assert(p.output_evals_at_gammas@[k]@[t].val() == mle::<F>(
            polys[layout.block_at(k, t + 1)],
            outer.challenges.gamma(k, t),
        ));
    } else if i < 2 * np + 2 {
        let k = i - 2 * np;
        assert(claims[i] == a[i]);
        layout.lemma_block(k, 0);
        assert(vals(p.input_evals_at_inner_point@)[k] == mle::<F>(
            polys[layout.block_at(k, 0)],
            vals(p.inner_point@),
        ));
    } else if i < 2 * np + 2 + np {
        let t = i - 2 * np - 2;
        assert(claims[i] == a[i]);
        let ps = mat(outer.instance.polys@);
        let at = 2 + 2 * np + t;
        assert(ps == outer_polys(outer.challenges, middles, e, 2, np as nat));
        assert(ps[at] == e[t]);
        assert(vals(p.e_evals_at_outer_point@)[t] == values_at::<F>(ps, vals(p.outer_point@))[at]);
        assert(all[layout.e_at(t)] == e[t]);
    } else if i < 5 * rho - 1 {
        let s = i - a.len();
        assert(claims[i] == b[s]);
        layout.lemma_block(s % 2, s / 2);
        assert(block_values::<F>(polys, layout, s % 2, x)[s / 2] == mle::<F>(
            polys[layout.block_at(s % 2, s / 2)],
            x,
        ));
    } else {
        assert(claims[i] == value_claim(layout, z_right, value));
    }
}

} // verus!
