//! The sum-checks of a BrakingBase opening: sampled columns, membership in the
//! code, and how the halves of a codeword make up its values.

use crate::brakedown::{codeword, Brakedown};
use crate::claims::Claim;
use crate::classic_sumcheck::{
    instance_fits, round_error, run_events, sumcheck_prove, sumcheck_refused, sumcheck_verified,
    sumcheck_verify, sumcheck_went,
};
use crate::error::Error;
use crate::field::{
    canon_consts, f_interpolate, f_units, fadd, fadd_canon, fmul, fmul_assoc, fmul_canon, fmul_comm,
    fmul_fadd, fsub, PrimeField, Residue,
};
use crate::linear::{
    column, comb, dot, dot_canon, dot_push, dot_zero, ints, linear_combine_rows, mat, rect, vals,
    vals_canon, vcanon, vmul, vscale, vsum, vsum_canon, vsum_push, vsum_scale, vzero, zero_vec,
};
use crate::mle::{
    eq_at, eq_evals, equality_mle_eval_at_index, eval_mle_from_evals, exp2, mle, mle_halves,
};
use crate::parity::{
    entries_of, entries_within, parity_annihilates_codewords, parity_entries, syndrome, Entry,
    SparseEntry,
};
use crate::qa_code::{copied, rows_of, rows_of_shape, split_rows};
use crate::quasar_columns::dot_update;
use crate::spark::{claim_of, claims_of, matrix_eval, OpeningClaim};
use crate::spark_memory::{extend_point, extended, padded, padding_keeps_evaluation};
use crate::sumcheck::{
    cube_sum, cube_sum_nil, cube_sum_push, product_small, summand, summand_push, term_values,
    values_at, ProductTerm, SumcheckInstance, Term,
};
use crate::transcript::{
    cut_later, cut_within, read_field_elements, sent_fields, went, went_plain, write_field_elements,
    Event, TranscriptRead, TranscriptWrite,
};
use vstd::prelude::*;

verus! {

/// The combination of the rows of a matrix given row by row.
pub fn combine_rows<F: PrimeField>(
    evals: &[F],
    num_rows: usize,
    row_len: usize,
    coefficients: &[F],
) -> (r: Vec<F>)
    requires
        num_rows > 0,
        evals@.len() == num_rows * row_len,
        coefficients@.len() == num_rows,
    ensures
        vals(r@) == comb::<F>(
            vals(coefficients@),
            rows_of(vals(evals@), num_rows as nat, row_len as nat),
            row_len as nat,
        ),
        r@.len() == row_len,
{
    let rows = split_rows(evals, num_rows, row_len);
    proof {
        rows_of_shape(vals(evals@), num_rows as nat, row_len as nat);
        assert(rows@[0]@.len() == row_len);
        crate::linear::comb_len::<F>(vals(coefficients@), mat(rows@), row_len as nat);
    }
    let r = linear_combine_rows(&rows, coefficients);
    assert(vals(r@).len() == r@.len());
    r
}

/// The sum of `s (p + eta q)`, entry by entry.
pub open spec fn two_factor_sum<F: Residue>(
    s: Seq<int>,
    p: Seq<int>,
    q: Seq<int>,
    eta: int,
) -> int {
    fadd::<F>(dot::<F>(s, p), fmul::<F>(eta, dot::<F>(s, q)))
}

/// The terms `s p` and `eta s q`.
pub open spec fn two_factor_terms(eta: int) -> Seq<Term> {
    seq![
        Term { coeff: 1, factors: seq![0usize, 1] },
        Term { coeff: eta, factors: seq![0usize, 2] },
    ]
}

/// What the sum-check over `s (p + eta q)` must end in.
pub open spec fn two_factor_value<F: Residue>(s: int, p: int, q: int, eta: int) -> int {
    fmul::<F>(s, fadd::<F>(p, fmul::<F>(eta, q)))
}

/// The sum-check over `s (p + eta q)`.
pub fn two_factor_instance<F: PrimeField>(
    selector: Vec<F>,
    p: Vec<F>,
    q: Vec<F>,
    num_vars: usize,
    eta: F,
    sum: F,
) -> (r: SumcheckInstance<F>)
    requires
        selector@.len() == exp2(num_vars as nat),
        p@.len() == selector@.len(),
        q@.len() == selector@.len(),
    ensures
        instance_fits(r),
        r.num_vars == num_vars,
        r.degree == 2,
        r.claim == sum,
        r.terms_spec() == two_factor_terms(eta.val()),
        mat(r.polys@) == seq![vals(selector@), vals(p@), vals(q@)],
        r.holds() <==> sum.val() == two_factor_sum::<F>(
            vals(selector@),
            vals(p@),
            vals(q@),
            eta.val(),
        ),
{
    let _size: usize = selector.len();
    let ghost (vs, vp, vq) = (vals(selector@), vals(p@), vals(q@));
    proof {
        vals_canon(selector@);
    }
    let mut polys: Vec<Vec<F>> = Vec::new();
    polys.push(selector);
    polys.push(p);
    polys.push(q);
    let mut first: Vec<usize> = Vec::new();
    first.push(0);
    first.push(1);
    let mut second: Vec<usize> = Vec::new();
    second.push(0);
    second.push(2);
    assert(first@ =~= seq![0usize, 1]);
    assert(second@ =~= seq![0usize, 2]);
    let mut terms: Vec<ProductTerm<F>> = Vec::new();
    terms.push(ProductTerm { coeff: F::one(), factors: first });
    terms.push(ProductTerm { coeff: eta, factors: second });
    let r = SumcheckInstance { num_vars, degree: 2, polys, terms, claim: sum };
    proof {
        assert(mat(r.polys@) =~= seq![vs, vp, vq]);
        assert(r.terms_spec() =~= two_factor_terms(eta.val()));
        two_factor_cube_sum::<F>(vs, vp, vq, eta.val(), exp2(num_vars as nat));
        assert(r.terms@[0].factors@.len() == 2 && r.terms@[1].factors@.len() == 2);
    }
    r
}

/// The sum over the hypercube of `s (p + eta q)`.
pub proof fn two_factor_cube_sum<F: Residue>(
    s: Seq<int>,
    p: Seq<int>,
    q: Seq<int>,
    eta: int,
    n: nat,
)
    requires
        s.len() == p.len() == q.len() == n,
        vcanon::<F>(s),
    ensures
        cube_sum::<F>(two_factor_terms(eta), seq![s, p, q], n) == two_factor_sum::<F>(s, p, q, eta),
{
    let polys = seq![s, p, q];
    let (t0, t1) = (two_factor_terms(eta)[0], two_factor_terms(eta)[1]);
    let e = Seq::<Term>::empty();
    assert(two_factor_terms(eta) =~= e.push(t0).push(t1));
    cube_sum_nil::<F>(polys, n);
    cube_sum_push::<F>(e, t0, polys, n);
    cube_sum_push::<F>(e.push(t0), t1, polys, n);
    let (a, b) = (vmul::<F>(s, p), vmul::<F>(s, q));
    assert forall|i: int| 0 <= i < n implies term_values::<F>(t0, polys, n)[i] == a[i] by {
        let col = column(polys, i);
        product_small::<F>(0, 1, 2, col);
        fmul_canon::<F>(s[i], p[i]);
        f_units::<F>(a[i]);
    }
    assert forall|i: int| 0 <= i < n implies term_values::<F>(t1, polys, n)[i] == vscale::<F>(
        eta,
        b,
    )[i] by {
        product_small::<F>(0, 2, 1, column(polys, i));
    }
    assert(term_values::<F>(t0, polys, n) =~= a);
    assert(term_values::<F>(t1, polys, n) =~= vscale::<F>(eta, b));
    vsum_scale::<F>(eta, b);
    vsum_canon::<F>(a);
    f_units::<F>(vsum::<F>(a));
}

/// Answered with the values of its polynomials, the sum-check over
/// `s (p + eta q)` ends in what the verifier expects.
pub proof fn honest_two_factor_is_accepted<F: Residue>(
    s: Seq<int>,
    p: Seq<int>,
    q: Seq<int>,
    eta: int,
    z: Seq<int>,
)
    ensures
        summand::<F>(two_factor_terms(eta), values_at::<F>(seq![s, p, q], z)) == two_factor_value::<
            F,
        >(mle::<F>(s, z), mle::<F>(p, z), mle::<F>(q, z), eta),
{
    let v = values_at::<F>(seq![s, p, q], z);
    let (t0, t1) = (two_factor_terms(eta)[0], two_factor_terms(eta)[1]);
    let e = Seq::<Term>::empty();
    assert(two_factor_terms(eta) =~= e.push(t0).push(t1));
    summand_push::<F>(e, t0, v);
    summand_push::<F>(e.push(t0), t1, v);
    dot_canon::<F>(s, eq_evals::<F>(z));
    product_small::<F>(0, 1, 2, v);
    product_small::<F>(0, 2, 1, v);
    fmul_canon::<F>(v[0], v[1]);
    f_units::<F>(fmul::<F>(v[0], v[1]));
    crate::mle::f_swap::<F>(eta, v[0], v[2]);
    fmul_fadd::<F>(v[0], v[1], fmul::<F>(eta, v[2]));
}

/// Evaluates the three polynomials at the point of the sum-check and writes the
/// values of the last two.
pub fn prove_two_factor_finish<F: PrimeField, O, T: TranscriptWrite<F, O>>(
    instance: &SumcheckInstance<F>,
    point: &[F],
    transcript: &mut T,
) -> (r: Result<[F; 3], Error>)
    requires
        instance.wf(),
        instance.polys@.len() == 3,
        point@.len() == instance.num_vars,
    ensures
        T::infallible() ==> r is Ok,
        r matches Err(e) ==> e is Transcript,
        r matches Ok(evals) ==> {
            &&& vals(evals@) == values_at::<F>(mat(instance.polys@), vals(point@))
            &&& final(transcript).log() == old(transcript).log() + sent_fields(
                seq![evals@[1].val(), evals@[2].val()],
            )
        },
{
    proof {
        assert(mat(instance.polys@)[0].len() == instance.polys@[0]@.len());
        assert(mat(instance.polys@)[1].len() == instance.polys@[1]@.len());
        assert(mat(instance.polys@)[2].len() == instance.polys@[2]@.len());
    }
    let s = eval_mle_from_evals(&instance.polys[0], point);
    let p = eval_mle_from_evals(&instance.polys[1], point);
    let q = eval_mle_from_evals(&instance.polys[2], point);
    let evals = [s, p, q];
    let sent = [p, q];
    proof {
        assert(vals(evals@) =~= values_at::<F>(mat(instance.polys@), vals(point@)));
        assert(vals(sent@) =~= seq![p.val(), q.val()]);
    }
    match write_field_elements(transcript, &sent) {
        Ok(_) => Ok(evals),
        Err(e) => Err(e),
    }
}

/// Two values were read that do not fit the end of the sum-check.
pub open spec fn two_factor_refused<F: Residue, O>(
    terminal: int,
    selector: int,
    eta: int,
    log0: Seq<Event<O>>,
    log1: Seq<Event<O>>,
) -> bool {
    exists|pq: Seq<int>|
        {
            &&& pq.len() == 2
            &&& log1 == log0 + #[trigger] sent_fields(pq)
            &&& terminal != two_factor_value::<F>(selector, pq[0], pq[1], eta)
        }
}

/// Reads the values of the last two polynomials and holds the end of the
/// sum-check to them and to the value of the first, which the verifier knows.
pub fn verify_two_factor_finish<F: PrimeField, O, T: TranscriptRead<F, O>>(
    terminal: F,
    selector_eval: F,
    eta: F,
    transcript: &mut T,
) -> (r: Result<[F; 3], Error>)
    ensures
        final(transcript).held() == old(transcript).held(),
        r matches Ok(evals) ==> {
            &&& evals@[0] == selector_eval
            &&& terminal.val() == two_factor_value::<F>(
                selector_eval.val(),
                evals@[1].val(),
                evals@[2].val(),
                eta.val(),
            )
            &&& final(transcript).log() == old(transcript).log() + sent_fields(
                seq![evals@[1].val(), evals@[2].val()],
            )
        },
        r matches Err(e) ==> cut_within(
            e,
            old(transcript).log(),
            final(transcript).log(),
            2,
            0,
        ) || (e.is_open("BrakingBase sumcheck terminal failed")
            && two_factor_refused::<F, O>(
            terminal.val(),
            selector_eval.val(),
            eta.val(),
            old(transcript).log(),
            final(transcript).log(),
        )),
{
    let pq = match read_field_elements(transcript, 2) {
        Ok(pq) => pq,
        Err(e) => {
            return Err(e);
        },
    };
    let evals = [selector_eval, pq[0], pq[1]];
    proof {
        assert(vals(pq@) =~= seq![evals@[1].val(), evals@[2].val()]);
    }
    if !terminal.equals(selector_eval.times(evals[1].plus(eta.times(evals[2])))) {
        return Err(Error::open("BrakingBase sumcheck terminal failed"));
    }
    Ok(evals)
}

/// Proves the sum of `s (p + eta q)`, entry by entry, and writes the values of
/// the last two at the point of the sum-check.
pub fn prove_two_factor<F: PrimeField, O, T: TranscriptWrite<F, O>>(
    instance: &SumcheckInstance<F>,
    transcript: &mut T,
) -> (r: Result<(Vec<F>, [F; 3]), Error>)
    requires
        instance_fits(*instance),
        instance.polys@.len() == 3,
    ensures
        T::infallible() ==> r is Ok,
        r matches Err(e) ==> e is Transcript,
        r matches Ok(end) ==> {
            let z = vals(end.0@);
            &&& end.0@.len() == instance.num_vars
            &&& vals(end.1@) == values_at::<F>(mat(instance.polys@), z)
            &&& final(transcript).log() == old(transcript).log() + run_events::<F, O>(
                instance.terms_spec(),
                mat(instance.polys@),
                instance.degree as nat,
                z,
            ) + sent_fields(seq![end.1@[1].val(), end.1@[2].val()])
        },
{
    let (point, _evals) = match sumcheck_prove(instance, transcript) {
        Ok(answer) => answer,
        Err(e) => {
            return Err(e);
        },
    };
    match prove_two_factor_finish(instance, &point, transcript) {
        Ok(evals) => Ok((point, evals)),
        Err(e) => Err(e),
    }
}

/// The sum-check over the mask of queries was read and ends in what the values
/// read after it give.
pub open spec fn mask_check_verified<F: PrimeField, O>(
    queries: Seq<int>,
    weights: Seq<int>,
    eta: int,
    sum: int,
    point: Seq<int>,
    evals: Seq<int>,
    log0: Seq<Event<O>>,
    log1: Seq<Event<O>>,
) -> bool {
    exists|terminal: int, mid: Seq<Event<O>>|
        {
            &&& #[trigger] sumcheck_verified::<F, O>(
                point.len(),
                2,
                sum,
                terminal,
                point,
                log0,
                mid,
            )
            &&& evals[0] == mle::<F>(mask_of::<F>(queries, weights, exp2(point.len())), point)
            &&& terminal == two_factor_value::<F>(evals[0], evals[1], evals[2], eta)
            &&& log1 == mid + sent_fields(seq![evals[1], evals[2]])
        }
}

/// The sum-check over the mask of queries was read and does not end in what the
/// values read after it give.
pub open spec fn mask_check_refused<F: PrimeField, O>(
    num_vars: nat,
    queries: Seq<int>,
    weights: Seq<int>,
    eta: int,
    sum: int,
    log0: Seq<Event<O>>,
    log1: Seq<Event<O>>,
) -> bool {
    exists|terminal: int, point: Seq<int>, mid: Seq<Event<O>>|
        {
            &&& #[trigger] sumcheck_verified::<F, O>(
                num_vars,
                2,
                sum,
                terminal,
                point,
                log0,
                mid,
            )
            &&& two_factor_refused::<F, O>(
                terminal,
                mle::<F>(mask_of::<F>(queries, weights, exp2(num_vars)), point),
                eta,
                mid,
                log1,
            )
        }
}

/// How many field elements the check of a mask sends.
pub open spec fn mask_check_fields(num_vars: nat) -> nat {
    num_vars * 3 + 2
}

/// How many messages the check of a mask has.
pub proof fn mask_check_went<F: PrimeField, O>(
    queries: Seq<int>,
    weights: Seq<int>,
    eta: int,
    sum: int,
    point: Seq<int>,
    evals: Seq<int>,
    log0: Seq<Event<O>>,
    log1: Seq<Event<O>>,
)
    requires
        mask_check_verified::<F, O>(queries, weights, eta, sum, point, evals, log0, log1),
    ensures
        went(log0, log1, mask_check_fields(point.len()), 0),
{
    let (terminal, mid) = choose|terminal: int, mid: Seq<Event<O>>|
        {
            &&& #[trigger] sumcheck_verified::<F, O>(
                point.len(),
                2,
                sum,
                terminal,
                point,
                log0,
                mid,
            )
            &&& evals[0] == mle::<F>(mask_of::<F>(queries, weights, exp2(point.len())), point)
            &&& terminal == two_factor_value::<F>(evals[0], evals[1], evals[2], eta)
            &&& log1 == mid + sent_fields(seq![evals[1], evals[2]])
        };
    sumcheck_went::<F, O>(point.len(), 2, sum, terminal, point, log0, mid);
    went_plain::<O>(mid, seq![evals[1], evals[2]], Seq::empty());
}

/// How many messages the halves of both codewords are.
pub proof fn decomposition_went<F: Residue, O>(
    code_point: Seq<int>,
    p_eval: int,
    q_eval: int,
    aux_vars: nat,
    claims: Seq<Claim>,
    log0: Seq<Event<O>>,
    log1: Seq<Event<O>>,
)
    requires
        decomposition_passed::<F, O>(code_point, p_eval, q_eval, aux_vars, claims, log0, log1),
    ensures
        went(log0, log1, 4, 0),
{
    let v = choose|v: Seq<int>|
        {
            &&& #[trigger] four_read(log0, log1, v)
            &&& decomposition_fits::<F>(code_point.last(), p_eval, q_eval, v)
            &&& claims == decomposition_claims(code_point, aux_vars, v)
        };
    went_plain::<O>(log0, v, Seq::empty());
}

/// Verifies the sum of `s (p + eta q)` where `s` is the mask of weighted queries.
pub fn verify_two_factor<F: PrimeField, O, T: TranscriptRead<F, O>>(
    num_vars: usize,
    eta: F,
    sum: F,
    queries: &[usize],
    weights: &[F],
    transcript: &mut T,
) -> (r: Result<(Vec<F>, [F; 3]), Error>)
    requires
        queries@.len() == weights@.len(),
        exp2(num_vars as nat) <= usize::MAX,
        forall|i: int| 0 <= i < queries@.len() ==> #[trigger] queries@[i] < exp2(num_vars as nat),
    ensures
        final(transcript).held() == old(transcript).held(),
        ({
            let (log0, log1) = (old(transcript).log(), final(transcript).log());
            &&& r matches Ok(end) ==> end.0@.len() == num_vars && mask_check_verified::<F, O>(
                ints(queries@),
                vals(weights@),
                eta.val(),
                sum.val(),
                vals(end.0@),
                vals(end.1@),
                log0,
                log1,
            )
            &&& r matches Err(e) ==> {
                ||| cut_within(e, log0, log1, mask_check_fields(num_vars as nat), 0)
                ||| round_error(e) && sumcheck_refused::<F, O>(
                    num_vars as nat,
                    2,
                    sum.val(),
                    log0,
                    log1,
                )
                ||| e.is_open("BrakingBase sumcheck terminal failed") && mask_check_refused::<F, O>(
                    num_vars as nat,
                    ints(queries@),
                    vals(weights@),
                    eta.val(),
                    sum.val(),
                    log0,
                    log1,
                )
            }
        }),
{
    let ghost log0 = transcript.log();
    let ghost rounds = num_vars as nat * 3;
    let ghost all = mask_check_fields(num_vars as nat);
    let (terminal, point) = match sumcheck_verify(num_vars, 2, sum, transcript) {
        Ok(end) => end,
        Err(e) => {
            proof {
                if cut_within(e, log0, transcript.log(), rounds, 0) {
                    assert(went(log0, log0, 0, 0));
                    cut_later(e, log0, log0, transcript.log(), 0, 0, rounds, 0, all, 0);
                }
            }
            return Err(e);
        },
    };
    let ghost mid = transcript.log();
    let selector = mask_eval(queries, weights, &point);
    match verify_two_factor_finish(terminal, selector, eta, transcript) {
        Ok(evals) => {
            proof {
                assert(vals(evals@)[0] == evals@[0].val());
                assert(vals(evals@)[1] == evals@[1].val());
                assert(vals(evals@)[2] == evals@[2].val());
                assert(vals(point@).len() == num_vars);
                assert(sumcheck_verified::<F, O>(
                    vals(point@).len(),
                    2,
                    sum.val(),
                    terminal.val(),
                    vals(point@),
                    old(transcript).log(),
                    mid,
                ));
            }
            Ok((point, evals))
        },
        Err(e) => {
            proof {
                if cut_within(e, mid, transcript.log(), 2, 0) {
                    sumcheck_went::<F, O>(
                        num_vars as nat,
                        2,
                        sum.val(),
                        terminal.val(),
                        vals(point@),
                        log0,
                        mid,
                    );
                    cut_later(e, log0, mid, transcript.log(), rounds, 0, 2, 0, all, 0);
                }
            }
            Err(e)
        },
    }
}

/// A vector that holds at every queried position the sum of its weights.
pub open spec fn mask_of<F: Residue>(queries: Seq<int>, weights: Seq<int>, n: nat) -> Seq<int>
    decreases queries.len(),
{
    if queries.len() == 0 {
        vzero(n)
    } else {
        let k = queries.len() - 1;
        let prev = mask_of::<F>(queries.drop_last(), weights, n);
        prev.update(queries[k], fadd::<F>(prev[queries[k]], weights[k]))
    }
}

/// The entries at the queried positions.
pub open spec fn entries_at(v: Seq<int>, queries: Seq<int>) -> Seq<int> {
    Seq::new(queries.len(), |i: int| v[queries[i]])
}

/// The mask picks the weighted entries at the queried positions.
pub proof fn mask_picks<F: Residue>(queries: Seq<int>, weights: Seq<int>, v: Seq<int>)
    requires
        weights.len() == queries.len(),
        forall|i: int| 0 <= i < queries.len() ==> 0 <= #[trigger] queries[i] < v.len(),
    ensures
        mask_of::<F>(queries, weights, v.len()).len() == v.len(),
        dot::<F>(mask_of::<F>(queries, weights, v.len()), v) == dot::<F>(
            weights,
            entries_at(v, queries),
        ),
    decreases queries.len(),
{
    if queries.len() == 0 {
        dot_zero::<F>(v.len(), v);
        assert(vmul::<F>(weights, entries_at(v, queries)) =~= Seq::empty());
    } else {
        let k = queries.len() - 1;
        let (qd, wd) = (queries.drop_last(), weights.drop_last());
        assert forall|i: int| 0 <= i < qd.len() implies 0 <= #[trigger] qd[i] < v.len() by {
            assert(qd[i] == queries[i]);
        }
        mask_picks::<F>(qd, wd, v);
        mask_prefix::<F>(qd, weights, wd, v.len());
        assert(0 <= queries[k] < v.len());
        dot_update::<F>(mask_of::<F>(qd, weights, v.len()), v, queries[k], weights[k]);
        assert(entries_at(v, queries) =~= entries_at(v, qd).push(v[queries[k]]));
        assert(weights =~= wd.push(weights[k]));
        dot_push::<F>(wd, entries_at(v, qd), weights[k], v[queries[k]]);
    }
}

proof fn mask_prefix<F: Residue>(queries: Seq<int>, a: Seq<int>, b: Seq<int>, n: nat)
    requires
        forall|i: int| 0 <= i < queries.len() ==> a[i] == #[trigger] b[i],
    ensures
        mask_of::<F>(queries, a, n) == mask_of::<F>(queries, b, n),
    decreases queries.len(),
{
    if queries.len() > 0 {
        mask_prefix::<F>(queries.drop_last(), a, b, n);
        assert(a[queries.len() - 1] == b[queries.len() - 1]);
    }
}

/// Builds the mask.
pub fn query_mask<F: PrimeField>(queries: &[usize], weights: &[F], n: usize) -> (r: Vec<F>)
    requires
        queries@.len() == weights@.len(),
        forall|i: int| 0 <= i < queries@.len() ==> #[trigger] queries@[i] < n,
    ensures
        vals(r@) == mask_of::<F>(ints(queries@), vals(weights@), n as nat),
        r@.len() == n,
{
    let ghost q = ints(queries@);
    let ghost w = vals(weights@);
    let mut mask = zero_vec::<F>(n);
    let mut i: usize = 0;
    proof {
        assert(vals(mask@).len() == mask@.len());
        assert(vals(mask@) =~= mask_of::<F>(q.take(0), w, n as nat));
    }
    while i < queries.len()
        invariant
            i <= queries@.len(),
            queries@.len() == weights@.len(),
            forall|i: int| 0 <= i < queries@.len() ==> #[trigger] queries@[i] < n,
            q == ints(queries@),
            w == vals(weights@),
            mask@.len() == n,
            vals(mask@) == mask_of::<F>(q.take(i as int), w, n as nat),
        decreases queries@.len() - i,
    {
        let at: usize = queries[i];
        let ghost before = vals(mask@);
        let value = mask[at].plus(weights[i]);
        mask.set(at, value);
        proof {
            assert(q.take(i as int + 1).drop_last() =~= q.take(i as int));
            assert(vals(mask@) =~= before.update(at as int, value.val()));
        }
        i = i + 1;
    }
    assert(q.take(i as int) =~= q);
    mask
}

/// The value of the mask at a point.
pub fn mask_eval<F: PrimeField>(
    queries: &[usize],
    weights: &[F],
    point: &[F],
) -> (r: F)
    requires
        queries@.len() == weights@.len(),
        exp2(point@.len()) <= usize::MAX,
        forall|i: int| 0 <= i < queries@.len() ==> #[trigger] queries@[i] < exp2(point@.len()),
    ensures
        r.val() == mle::<F>(
            mask_of::<F>(ints(queries@), vals(weights@), exp2(point@.len())),
            vals(point@),
        ),
{
    let ghost q = ints(queries@);
    let ghost w = vals(weights@);
    let ghost z = vals(point@);
    let ghost e = eq_evals::<F>(z);
    let ghost picks = entries_at(e, q);
    let mut acc = F::zero();
    let mut i: usize = 0;
    proof {
        crate::linear::dot_nil::<F>(w, picks);
    }
    while i < queries.len()
        invariant
            i <= queries@.len(),
            queries@.len() == weights@.len(),
            exp2(point@.len()) <= usize::MAX,
            forall|i: int|
                0 <= i < queries@.len() ==> #[trigger] queries@[i] < exp2(point@.len()),
            q == ints(queries@),
            w == vals(weights@),
            z == vals(point@),
            e == eq_evals::<F>(z),
            picks == entries_at(e, q),
            acc.val() == dot::<F>(w.take(i as int), picks.take(i as int)),
        decreases queries@.len() - i,
    {
        let ghost _ = queries@[i as int];
        let term = equality_mle_eval_at_index(queries[i], point.len(), point);
        proof {
            crate::linear::dot_take::<F>(w, picks, i as int);
            assert(picks[i as int] == eq_at::<F>(queries@[i as int] as int, z));
        }
        acc = acc.plus(weights[i].times(term));
        i = i + 1;
    }
    proof {
        assert(w.take(i as int) =~= w);
        assert(picks.take(i as int) =~= picks);
        assert forall|i: int| 0 <= i < q.len() implies 0 <= #[trigger] q[i] < e.len() by {
            assert(queries@[i] < exp2(point@.len()));
        }
        mask_picks::<F>(q, w, e);
    }
    acc
}

/// The columns of the parity-check matrix combined by the equality polynomial
/// of a point.
pub open spec fn parity_row<F: Residue>(entries: Seq<Entry>, n: nat, y: Seq<int>) -> Seq<int>
    decreases entries.len(),
{
    if entries.len() == 0 {
        vzero(n)
    } else {
        let e = entries.last();
        let prev = parity_row::<F>(entries.drop_last(), n, y);
        prev.update(e.row, fadd::<F>(prev[e.row], fmul::<F>(e.value, eq_at::<F>(e.col, y))))
    }
}

/// Every cell lies in a matrix of the given size.
pub open spec fn cells_within(entries: Seq<Entry>, num_rows: nat, num_cols: nat) -> bool {
    forall|k: int|
        0 <= k < entries.len() ==> 0 <= (#[trigger] entries[k]).row < num_rows && 0
            <= entries[k].col < num_cols
}

/// Combines the columns of a sparse matrix by the equality polynomial of a
/// point.
pub fn parity_selector<F: PrimeField>(
    entries: &[SparseEntry<F>],
    codeword_len: usize,
    point: &[F],
) -> (r: Vec<F>)
    requires
        exp2(point@.len()) <= usize::MAX,
        entries_within(entries@, codeword_len as nat, exp2(point@.len())),
    ensures
        vals(r@) == parity_row::<F>(entries_of(entries@), codeword_len as nat, vals(point@)),
        r@.len() == codeword_len,
{
    let ghost e = entries_of(entries@);
    let ghost y = vals(point@);
    let mut values = zero_vec::<F>(codeword_len);
    let mut i: usize = 0;
    proof {
        assert(vals(values@).len() == values@.len());
        assert(vals(values@) =~= parity_row::<F>(e.take(0), codeword_len as nat, y));
    }
    while i < entries.len()
        invariant
            i <= entries@.len(),
            exp2(point@.len()) <= usize::MAX,
            entries_within(entries@, codeword_len as nat, exp2(point@.len())),
            e == entries_of(entries@),
            y == vals(point@),
            values@.len() == codeword_len,
            vals(values@) == parity_row::<F>(e.take(i as int), codeword_len as nat, y),
        decreases entries@.len() - i,
    {
        let ghost _ = entries@[i as int];
        let at: usize = entries[i].row;
        let ghost before = vals(values@);
        let weight = equality_mle_eval_at_index(entries[i].col, point.len(), point);
        let value = values[at].plus(entries[i].value.times(weight));
        values.set(at, value);
        proof {
            let next = e.take(i as int + 1);
            assert(next.drop_last() =~= e.take(i as int));
            assert(next.last() == e[i as int]);
            assert(vals(values@) =~= before.update(at as int, value.val()));
        }
        i = i + 1;
    }
    assert(e.take(i as int) =~= e);
    values
}

/// A combination of columns has one canonical entry for every position.
pub proof fn parity_row_shape<F: Residue>(entries: Seq<Entry>, n: nat, y: Seq<int>)
    requires
        cells_within(entries, n, exp2(y.len())),
    ensures
        parity_row::<F>(entries, n, y).len() == n,
        vcanon::<F>(parity_row::<F>(entries, n, y)),
    decreases entries.len(),
{
    canon_consts::<F>();
    if entries.len() > 0 {
        let ed = entries.drop_last();
        assert forall|i: int| 0 <= i < ed.len() implies 0 <= (#[trigger] ed[i]).row < n && 0
            <= ed[i].col < exp2(y.len()) by {
            assert(ed[i] == entries[i]);
        }
        parity_row_shape::<F>(ed, n, y);
        let e = entries.last();
        assert(0 <= entries[entries.len() - 1].row < n);
        let prev = parity_row::<F>(ed, n, y);
        fadd_canon::<F>(prev[e.row], fmul::<F>(e.value, eq_at::<F>(e.col, y)));
    }
}

/// The value of the combined columns at a point is the value of the matrix.
pub proof fn parity_row_evaluates_matrix<F: Residue>(
    entries: Seq<Entry>,
    x: Seq<int>,
    y: Seq<int>,
)
    requires
        cells_within(entries, exp2(x.len()), exp2(y.len())),
    ensures
        mle::<F>(parity_row::<F>(entries, exp2(x.len()), y), x) == matrix_eval::<F>(entries, x, y),
    decreases entries.len(),
{
    let n = exp2(x.len());
    let all = Seq::new(
        entries.len(),
        |k: int|
            fmul::<F>(
                fmul::<F>(entries[k].value, eq_at::<F>(entries[k].row, x)),
                eq_at::<F>(entries[k].col, y),
            ),
    );
    if entries.len() == 0 {
        dot_zero::<F>(n, eq_evals::<F>(x));
        assert(all =~= Seq::empty());
    } else {
        let ed = entries.drop_last();
        let k = entries.len() - 1;
        let e = entries[k];
        assert forall|i: int| 0 <= i < ed.len() implies 0 <= (#[trigger] ed[i]).row < n && 0
            <= ed[i].col < exp2(y.len()) by {
            assert(ed[i] == entries[i]);
        }
        parity_row_evaluates_matrix::<F>(ed, x, y);
        parity_row_shape::<F>(ed, n, y);
        assert(0 <= entries[k].row < n);
        let (a, b) = (eq_at::<F>(e.row, x), eq_at::<F>(e.col, y));
        dot_update::<F>(
            parity_row::<F>(ed, n, y),
            eq_evals::<F>(x),
            e.row,
            fmul::<F>(e.value, b),
        );
        fmul_assoc::<F>(e.value, b, a);
        fmul_comm::<F>(b, a);
        fmul_assoc::<F>(e.value, a, b);
        let prev = Seq::new(
            ed.len(),
            |k: int|
                fmul::<F>(
                    fmul::<F>(ed[k].value, eq_at::<F>(ed[k].row, x)),
                    eq_at::<F>(ed[k].col, y),
                ),
        );
        assert(all =~= prev.push(all[k]));
        vsum_push::<F>(prev, all[k]);
    }
}

/// The columns of the product of a word with a sparse matrix.
pub open spec fn syndromes<F: Residue>(entries: Seq<Entry>, w: Seq<int>, m: nat) -> Seq<int> {
    Seq::new(m, |c: int| syndrome::<F>(entries, w, c))
}

/// The inner product of the combined columns with a word combines the columns
/// of the product.
pub proof fn parity_row_combines_syndromes<F: Residue>(
    entries: Seq<Entry>,
    w: Seq<int>,
    y: Seq<int>,
)
    requires
        cells_within(entries, w.len(), exp2(y.len())),
    ensures
        dot::<F>(parity_row::<F>(entries, w.len(), y), w) == dot::<F>(
            syndromes::<F>(entries, w, exp2(y.len())),
            eq_evals::<F>(y),
        ),
    decreases entries.len(),
{
    let n = w.len();
    let m = exp2(y.len());
    let synd = syndromes::<F>(entries, w, m);
    if entries.len() == 0 {
        dot_zero::<F>(n, w);
        assert(synd =~= vzero(m));
        dot_zero::<F>(m, eq_evals::<F>(y));
    } else {
        let ed = entries.drop_last();
        let k = entries.len() - 1;
        let e = entries[k];
        assert forall|i: int| 0 <= i < ed.len() implies 0 <= (#[trigger] ed[i]).row < n && 0
            <= ed[i].col < m by {
            assert(ed[i] == entries[i]);
        }
        parity_row_combines_syndromes::<F>(ed, w, y);
        parity_row_shape::<F>(ed, n, y);
        assert(0 <= entries[k].row < n && 0 <= entries[k].col < m);
        let b = eq_at::<F>(e.col, y);
        dot_update::<F>(parity_row::<F>(ed, n, y), w, e.row, fmul::<F>(e.value, b));
        let prev = syndromes::<F>(ed, w, m);
        let add = fmul::<F>(w[e.row], e.value);
        assert(synd =~= prev.update(e.col, fadd::<F>(prev[e.col], add)));
        dot_update::<F>(prev, eq_evals::<F>(y), e.col, add);
        fmul_assoc::<F>(e.value, b, w[e.row]);
        fmul_comm::<F>(b, w[e.row]);
        fmul_assoc::<F>(e.value, w[e.row], b);
        fmul_comm::<F>(e.value, w[e.row]);
    }
}

/// A codeword passes the parity check at every point.
pub proof fn codewords_pass_parity<F: PrimeField>(code: Brakedown<F>, msg: Seq<int>, y: Seq<int>)
    requires
        code.wf(),
        msg.len() == code.row_len,
        cells_within(parity_entries(code), code.codeword_len as nat, exp2(y.len())),
    ensures
        dot::<F>(
            parity_row::<F>(parity_entries(code), code.codeword_len as nat, y),
            codeword(code, msg),
        ) == 0,
{
    let w = codeword(code, msg);
    let e = parity_entries(code);
    let m = exp2(y.len());
    crate::brakedown::word_b_len(code, msg, code.a@.len());
    parity_row_combines_syndromes::<F>(e, w, y);
    assert forall|c: int| 0 <= c < m implies syndromes::<F>(e, w, m)[c] == 0 by {
        parity_annihilates_codewords(code, msg, c);
    }
    assert(syndromes::<F>(e, w, m) =~= vzero(m));
    dot_zero::<F>(m, eq_evals::<F>(y));
}

/// The halves of a codeword make up its value.
pub proof fn halves_make_up_value<F: Residue>(
    word: Seq<int>,
    point: Seq<int>,
    aux_vars: nat,
)
    requires
        point.len() > 0,
        word.len() == exp2(point.len()),
        point.len() <= aux_vars + 1,
    ensures
        ({
            let h = (word.len() / 2) as int;
            let z = extended(point.drop_last(), aux_vars);
            let lo = mle::<F>(padded(word.take(h), exp2(aux_vars)), z);
            let hi = mle::<F>(padded(word.skip(h), exp2(aux_vars)), z);
            mle::<F>(word, point) == fadd::<F>(lo, fmul::<F>(point.last(), fsub::<F>(hi, lo)))
        }),
{
    let h = (word.len() / 2) as int;
    let base = point.drop_last();
    assert(exp2(point.len()) == 2 * exp2(base.len()));
    padding_keeps_evaluation::<F>(word.take(h), base, aux_vars);
    padding_keeps_evaluation::<F>(word.skip(h), base, aux_vars);
    assert(word =~= word.take(h) + word.skip(h));
    mle_halves::<F>(word.take(h), word.skip(h), point);
    f_interpolate::<F>(
        mle::<F>(word.take(h), base),
        mle::<F>(word.skip(h), base),
        point.last(),
    );
}

/// The values of the halves make up the values of both codewords.
pub open spec fn decomposition_fits<F: Residue>(
    branch: int,
    p_eval: int,
    q_eval: int,
    v: Seq<int>,
) -> bool {
    &&& p_eval == fadd::<F>(v[0], fmul::<F>(branch, fsub::<F>(v[1], v[0])))
    &&& q_eval == fadd::<F>(v[2], fmul::<F>(branch, fsub::<F>(v[3], v[2])))
}

/// The claims about the four halves.
pub open spec fn decomposition_claims(code_point: Seq<int>, aux_vars: nat, v: Seq<int>) -> Seq<
    Claim,
> {
    Seq::new(
        4,
        |i: int|
            Claim {
                poly: i,
                point: extended(code_point.drop_last(), aux_vars),
                value: v[i],
            },
    )
}

/// Whether the values of the halves make up the values of both codewords.
fn check_decomposition<F: PrimeField>(branch: F, p_eval: F, q_eval: F, v: &[F]) -> (r: bool)
    requires
        v@.len() == 4,
    ensures
        r == decomposition_fits::<F>(branch.val(), p_eval.val(), q_eval.val(), vals(v@)),
{
    p_eval.equals(v[0].plus(branch.times(v[1].minus(v[0]))))
        && q_eval.equals(v[2].plus(branch.times(v[3].minus(v[2]))))
}

fn collect_decomposition<F: PrimeField>(point: &[F], v: &[F]) -> (r: Vec<OpeningClaim<F>>)
    requires
        v@.len() == 4,
    ensures
        claims_of(r@) == Seq::new(
            4,
            |i: int| Claim { poly: i, point: vals(point@), value: v@[i].val() },
        ),
{
    let mut out: Vec<OpeningClaim<F>> = Vec::new();
    let mut i: usize = 0;
    while i < 4
        invariant
            i <= 4,
            v@.len() == 4,
            out@.len() == i,
            forall|k: int|
                0 <= k < i ==> claim_of(#[trigger] out@[k]) == (Claim {
                    poly: k,
                    point: vals(point@),
                    value: v@[k].val(),
                }),
        decreases 4 - i,
    {
        out.push(OpeningClaim { poly: i, point: copied(point), value: v[i] });
        i = i + 1;
    }
    assert(claims_of(out@) =~= Seq::new(
        4,
        |i: int| Claim { poly: i, point: vals(point@), value: v@[i].val() },
    ));
    out
}

/// All coordinates of a point but the last, extended by zeros.
fn base_point<F: PrimeField>(code_point: &[F], aux_vars: usize) -> (r: Vec<F>)
    requires
        code_point@.len() > 0,
        code_point@.len() <= aux_vars + 1,
    ensures
        vals(r@) == extended(vals(code_point@).drop_last(), aux_vars as nat),
        r@.len() == aux_vars,
{
    let base = vstd::slice::slice_subrange(code_point, 0, code_point.len() - 1);
    assert(vals(base@) =~= vals(code_point@).drop_last());
    extend_point(base, aux_vars)
}

/// The values of the four halves at the point of a sum-check over codewords.
pub open spec fn halves_at<F: Residue>(aux: Seq<Seq<int>>, code_point: Seq<int>, aux_vars: nat) -> Seq<
    int,
> {
    values_at::<F>(aux, extended(code_point.drop_last(), aux_vars))
}

/// Writes the values of the four halves and holds the values of the codewords
/// to them.
pub fn prove_code_decomposition<F: PrimeField, O, T: TranscriptWrite<F, O>>(
    aux_polys: &[Vec<F>],
    code_point: &[F],
    p_eval: F,
    q_eval: F,
    aux_vars: usize,
    transcript: &mut T,
) -> (r: Result<Vec<OpeningClaim<F>>, Error>)
    requires
        aux_polys@.len() == 4,
        rect(mat(aux_polys@), exp2(aux_vars as nat)),
        0 < code_point@.len() <= aux_vars + 1,
    ensures
        ({
            let z = vals(code_point@);
            let v = halves_at::<F>(mat(aux_polys@), z, aux_vars as nat);
            let fits = decomposition_fits::<F>(z.last(), p_eval.val(), q_eval.val(), v);
            let log1 = old(transcript).log() + sent_fields(v);
            &&& fits && T::infallible() ==> r is Ok
            &&& r matches Ok(claims) ==> {
                &&& fits
                &&& claims_of(claims@) == decomposition_claims(z, aux_vars as nat, v)
                &&& final(transcript).log() == log1
            }
            &&& r matches Err(e) ==> e is Transcript || (e.is_open(
                "codeword split evaluation mismatch",
            ) && !fits && final(transcript).log() == log1)
        }),
{
    let ghost z = vals(code_point@);
    let ghost v = halves_at::<F>(mat(aux_polys@), z, aux_vars as nat);
    let branch = code_point[code_point.len() - 1];
    let point = base_point(code_point, aux_vars);
    let mut values: Vec<F> = Vec::new();
    let mut i: usize = 0;
    while i < 4
        invariant
            i <= 4,
            aux_polys@.len() == 4,
            rect(mat(aux_polys@), exp2(aux_vars as nat)),
            point@.len() == aux_vars,
            vals(point@) == extended(z.drop_last(), aux_vars as nat),
            v == halves_at::<F>(mat(aux_polys@), z, aux_vars as nat),
            values@.len() == i,
            forall|k: int| 0 <= k < i ==> (#[trigger] values@[k]).val() == v[k],
        decreases 4 - i,
    {
        assert(mat(aux_polys@)[i as int].len() == aux_polys@[i as int]@.len());
        values.push(eval_mle_from_evals(&aux_polys[i], &point));
        i = i + 1;
    }
    assert(vals(values@) =~= v);
    match write_field_elements(transcript, &values) {
        Ok(_) => {},
        Err(e) => {
            return Err(e);
        },
    }
    if !check_decomposition(branch, p_eval, q_eval, &values) {
        return Err(Error::open("codeword split evaluation mismatch"));
    }
    let claims = collect_decomposition(&point, &values);
    proof {
        assert(claims_of(claims@) =~= decomposition_claims(z, aux_vars as nat, v));
    }
    Ok(claims)
}

/// Four values were read.
pub open spec fn four_read<O>(log0: Seq<Event<O>>, log1: Seq<Event<O>>, v: Seq<int>) -> bool {
    v.len() == 4 && log1 == log0 + sent_fields(v)
}

/// Values of the halves were read that make up the values of the codewords.
pub open spec fn decomposition_passed<F: Residue, O>(
    code_point: Seq<int>,
    p_eval: int,
    q_eval: int,
    aux_vars: nat,
    claims: Seq<Claim>,
    log0: Seq<Event<O>>,
    log1: Seq<Event<O>>,
) -> bool {
    exists|v: Seq<int>|
        {
            &&& #[trigger] four_read(log0, log1, v)
            &&& decomposition_fits::<F>(code_point.last(), p_eval, q_eval, v)
            &&& claims == decomposition_claims(code_point, aux_vars, v)
        }
}

/// Values of the halves were read that do not make up the values of the
/// codewords.
pub open spec fn decomposition_refused<F: Residue, O>(
    code_point: Seq<int>,
    p_eval: int,
    q_eval: int,
    log0: Seq<Event<O>>,
    log1: Seq<Event<O>>,
) -> bool {
    exists|v: Seq<int>|
        {
            &&& #[trigger] four_read(log0, log1, v)
            &&& !decomposition_fits::<F>(code_point.last(), p_eval, q_eval, v)
        }
}

/// Reads the values of the four halves and holds the values of the codewords to
/// them.
pub fn verify_code_decomposition<F: PrimeField, O, T: TranscriptRead<F, O>>(
    code_point: &[F],
    p_eval: F,
    q_eval: F,
    aux_vars: usize,
    transcript: &mut T,
) -> (r: Result<Vec<OpeningClaim<F>>, Error>)
    requires
        0 < code_point@.len() <= aux_vars + 1,
    ensures
        final(transcript).held() == old(transcript).held(),
        r matches Ok(claims) ==> decomposition_passed::<F, O>(
            vals(code_point@),
            p_eval.val(),
            q_eval.val(),
            aux_vars as nat,
            claims_of(claims@),
            old(transcript).log(),
            final(transcript).log(),
        ),
        r matches Err(e) ==> cut_within(
            e,
            old(transcript).log(),
            final(transcript).log(),
            4,
            0,
        ) || (e.is_open("codeword split evaluation mismatch")
            && decomposition_refused::<F, O>(
            vals(code_point@),
            p_eval.val(),
            q_eval.val(),
            old(transcript).log(),
            final(transcript).log(),
        )),
{
    let ghost log0 = transcript.log();
    let branch = code_point[code_point.len() - 1];
    let point = base_point(code_point, aux_vars);
    let values = match read_field_elements(transcript, 4) {
        Ok(values) => values,
        Err(e) => {
            return Err(e);
        },
    };
    proof {
        assert(vals(values@).len() == 4);
        assert(four_read(log0, transcript.log(), vals(values@)));
    }
    if !check_decomposition(branch, p_eval, q_eval, &values) {
        return Err(Error::open("codeword split evaluation mismatch"));
    }
    let claims = collect_decomposition(&point, &values);
    proof {
        assert(claims_of(claims@) =~= decomposition_claims(
            vals(code_point@),
            aux_vars as nat,
            vals(values@),
        ));
        assert(decomposition_passed::<F, O>(
            vals(code_point@),
            p_eval.val(),
            q_eval.val(),
            aux_vars as nat,
            claims_of(claims@),
            log0,
            transcript.log(),
        ));
    }
    Ok(claims)
}

} // verus!
