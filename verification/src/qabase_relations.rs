//! The encoding relation as sums over the hypercube: the transform relations,
//! batched, and the scaling relation between them.

use crate::classic_sumcheck::{
    honest_run_is_accepted, instance_fits, round_error, run_events, sumcheck_prove,
    sumcheck_refused, sumcheck_verified, sumcheck_verify, sumcheck_went, terms_fit,
};
use crate::error::Error;
use crate::field::{
    canon, canon_consts, f_units, fadd, fadd_assoc, fmul, fmul_assoc, fmul_canon, fmul_comm,
    fmul_fadd, fsub, ops_red, PrimeField, Residue,
};
use crate::linear::{
    column, comb, comb_len, dot, dot_canon, dot_comm, dot_scale, flatten, inner_product,
    linear_combine_rows, mat, mat_push, powers, pows, pows_step, rect, vals, vals_push, vcanon,
    vmul, vscale, vsum, vsum_canon, vsum_scale,
};
use crate::mle::{
    eq_at_canon, eq_evals, eq_evals_canon, eq_product, equality_mle_eval,
    equality_mle_evals_on_hypercube, eval_mle_from_evals, exp2, f_swap, had_evals, had_evals_shape,
    hadamard, hadamard_tensor_mle_eval, hadamard_tensor_mle_evals_on_hypercube, log2,
    log2_power_of_two, mle, mle_of_eq_evals, mle_of_had_evals, mle_of_walsh, pow2_is_exp2,
};
use crate::parity::{minus_one, opposite_cancels};
use crate::qa_code::{
    copied, copied_rows, is_pow2, parities, scaled_blocks, walsh, QAParams, QAWitness,
};
use crate::quasar_gkr::squeeze_points;
use crate::sumcheck::{
    cube_sum, cube_sum_nil, cube_sum_push, cube_sum_weighted, product_at, product_small, summand,
    summand_push, summand_weighted, term_values, terms_view, values_at, ProductTerm,
    SumcheckInstance, Term,
};
use crate::transcript::{
    cut_later, cut_single, cut_within, drawn, read_field_elements, sent_fields, squeeze_challenges,
    went, went_on, went_plain, write_field_elements, Event, TranscriptRead, TranscriptWrite,
};
use vstd::prelude::*;

verus! {

/// Vectors combined with the powers of a challenge.
pub fn batched_linear_combination_evals<F: PrimeField>(blocks: &[Vec<F>], alpha: F) -> (r: Vec<F>)
    requires
        blocks@.len() > 0,
        rect(mat(blocks@), blocks@[0]@.len()),
    ensures
        vals(r@) == comb::<F>(
            pows::<F>(alpha.val(), blocks@.len()),
            mat(blocks@),
            blocks@[0]@.len(),
        ),
        r@.len() == blocks@[0]@.len(),
{
    let weights = powers(alpha, blocks.len());
    proof {
        pows_step::<F>(alpha.val(), blocks@.len());
        assert(vals(weights@).len() == weights@.len());
        comb_len::<F>(vals(weights@), mat(blocks@), blocks@[0]@.len());
    }
    let r = linear_combine_rows(blocks, &weights);
    assert(vals(r@).len() == r@.len());
    r
}

/// What the verifier and the prover know after the scaling relation.
pub struct QABaseScalingRelationProof<F> {
    pub alpha: F,
    pub beta: Vec<F>,
    pub sc_point: Vec<F>,
    pub v_prime_eval_at_sc_point: F,
    pub u_prime_batch_eval_at_sc_point: F,
    pub e_evals_at_sc_point: Vec<F>,
    pub e_batch_eval_at_sc_point: F,
    pub eq_eval_at_sc_point: F,
    pub terminal_eval: F,
}

/// The terms `eq u` and `- eq e v`.
pub open spec fn scaling_terms<F: Residue>() -> Seq<Term> {
    seq![
        Term { coeff: 1, factors: seq![0usize, 1] },
        Term { coeff: minus_one::<F>(), factors: seq![0usize, 2, 3] },
    ]
}

/// What the scaling sum-check must end in.
pub open spec fn scaling_value<F: Residue>(eq: int, u: int, e: int, v: int) -> int {
    fmul::<F>(eq, fsub::<F>(u, fmul::<F>(e, v)))
}

/// The prover's state before the scaling sum-check.
pub struct ScalingStart<F> {
    pub alpha: F,
    pub beta: Vec<F>,
    pub instance: SumcheckInstance<F>,
}

/// The polynomials of the scaling sum-check: the equality polynomial, both
/// batches, and the transformed message.
pub open spec fn scaling_polys<F: Residue>(
    alpha: int,
    beta: Seq<int>,
    u: Seq<Seq<int>>,
    e: Seq<Seq<int>>,
    v: Seq<int>,
) -> Seq<Seq<int>> {
    let w = pows::<F>(alpha, e.len());
    seq![eq_evals::<F>(beta), comb::<F>(w, u, v.len()), comb::<F>(w, e, v.len()), v]
}

impl<F: PrimeField> ScalingStart<F> {
    /// The sum-check is the one of the given vectors.
    pub open spec fn of(self, u: Seq<Seq<int>>, e: Seq<Seq<int>>, v: Seq<int>) -> bool {
        &&& self.beta@.len() == log2(v.len() as int)
        &&& instance_fits(self.instance)
        &&& self.instance.num_vars == log2(v.len() as int)
        &&& self.instance.degree == 3
        &&& self.instance.claim.val() == 0
        &&& self.instance.terms_spec() == scaling_terms::<F>()
        &&& mat(self.instance.polys@) == scaling_polys::<F>(
            self.alpha.val(),
            vals(self.beta@),
            u,
            e,
            v,
        )
    }
}

/// Draws the batching challenge and the point, and states the scaling sum-check.
pub fn prove_scaling_relation_start<F: PrimeField, O, T: TranscriptWrite<F, O>>(
    qa_params: &QAParams<F>,
    v_prime_evals: &[F],
    u_prime_evals: &[Vec<F>],
    transcript: &mut T,
) -> (r: ScalingStart<F>)
    requires
        is_pow2(v_prime_evals@.len() as int),
        qa_params.e@.len() == u_prime_evals@.len(),
        u_prime_evals@.len() > 0,
        rect(mat(qa_params.e@), v_prime_evals@.len()),
        rect(mat(u_prime_evals@), v_prime_evals@.len()),
    ensures
        r.of(mat(u_prime_evals@), mat(qa_params.e@), vals(v_prime_evals@)),
        final(transcript).log() == old(transcript).log() + drawn(seq![r.alpha.val()]) + drawn(
            vals(r.beta@),
        ),
{
    let ghost log0 = transcript.log();
    let n: usize = v_prime_evals.len();
    let num_vars: usize = log2_power_of_two(n);
    let alpha = transcript.squeeze_challenge();
    let beta = squeeze_challenges::<F, O, T>(transcript, num_vars);
    proof {
        assert(drawn::<O>(seq![alpha.val()]) =~= seq![Event::Challenge(alpha.val())]);
        assert(transcript.log() =~= log0 + drawn(seq![alpha.val()]) + drawn(vals(beta@)));
        assert(mat(u_prime_evals@)[0].len() == n);
        assert(mat(qa_params.e@)[0].len() == n);
    }
    let eq_beta = equality_mle_evals_on_hypercube(&beta);
    let u_batch = batched_linear_combination_evals(u_prime_evals, alpha);
    let e_batch = batched_linear_combination_evals(&qa_params.e, alpha);
    let v_prime = copied(v_prime_evals);
    let mut polys: Vec<Vec<F>> = Vec::new();
    polys.push(eq_beta);
    polys.push(u_batch);
    polys.push(e_batch);
    polys.push(v_prime);
    let mut first: Vec<usize> = Vec::new();
    first.push(0);
    first.push(1);
    let mut second: Vec<usize> = Vec::new();
    second.push(0);
    second.push(2);
    second.push(3);
    assert(first@ =~= seq![0usize, 1]);
    assert(second@ =~= seq![0usize, 2, 3]);
    let mut terms: Vec<ProductTerm<F>> = Vec::new();
    terms.push(ProductTerm { coeff: F::one(), factors: first });
    terms.push(ProductTerm { coeff: F::zero().minus(F::one()), factors: second });
    let instance = SumcheckInstance { num_vars, degree: 3, polys, terms, claim: F::zero() };
    proof {
        let goal = scaling_polys::<F>(
            alpha.val(),
            vals(beta@),
            mat(u_prime_evals@),
            mat(qa_params.e@),
            vals(v_prime_evals@),
        );
        assert(mat(instance.polys@) =~= goal);
        assert(instance.terms_spec() =~= scaling_terms::<F>());
        assert forall|k: int| 0 <= k < goal.len() implies (#[trigger] goal[k]).len() == exp2(
            num_vars as nat,
        ) by {
            comb_len::<F>(
                pows::<F>(alpha.val(), qa_params.e@.len()),
                mat(u_prime_evals@),
                n as nat,
            );
            comb_len::<F>(
                pows::<F>(alpha.val(), qa_params.e@.len()),
                mat(qa_params.e@),
                n as nat,
            );
        }
        assert(instance.terms@[0].factors@.len() == 2);
        assert(instance.terms@[1].factors@.len() == 3);
    }
    ScalingStart { alpha, beta, instance }
}

/// Combining products with one vector is the product with the combination.
proof fn comb_of_products<F: Residue>(
    w: Seq<int>,
    v: Seq<int>,
    u: Seq<Seq<int>>,
    e: Seq<Seq<int>>,
)
    requires
        u.len() == e.len(),
        rect(e, v.len()),
        forall|i: int| 0 <= i < e.len() ==> #[trigger] u[i] == vmul::<F>(v, e[i]),
    ensures
        comb::<F>(w, u, v.len()) == vmul::<F>(v, comb::<F>(w, e, v.len())),
    decreases e.len(),
{
    let n = v.len();
    comb_len::<F>(w, u, n);
    comb_len::<F>(w, e, n);
    let l = comb::<F>(w, u, n);
    let r = vmul::<F>(v, comb::<F>(w, e, n));
    if e.len() == 0 {
        canon_consts::<F>();
        assert forall|j: int| 0 <= j < n implies l[j] == r[j] by {
            ops_red::<F>(v[j], 0);
            assert(v[j] * 0 == 0) by (nonlinear_arith);
        }
    } else {
        let k = e.len() - 1;
        let (ud, ed) = (u.drop_last(), e.drop_last());
        assert forall|i: int| 0 <= i < ed.len() implies #[trigger] ud[i] == vmul::<F>(v, ed[i]) by {
            assert(u[i] == vmul::<F>(v, e[i]));
        }
        comb_of_products::<F>(w, v, ud, ed);
        comb_len::<F>(w, ud, n);
        comb_len::<F>(w, ed, n);
        assert(u[k] == vmul::<F>(v, e[k]));
        assert(e[k].len() == n);
        assert forall|j: int| 0 <= j < n implies l[j] == r[j] by {
            let c = comb::<F>(w, ed, n)[j];
            fmul_fadd::<F>(v[j], c, fmul::<F>(w[k], e[k][j]));
            f_swap::<F>(v[j], w[k], e[k][j]);
        }
    }
    assert(l =~= r);
}

/// Where every scaled block is the product of its coefficients with the
/// transformed message, the scaling relation sums to zero at every challenge.
pub proof fn scaling_claim_holds<F: Residue>(
    alpha: int,
    beta: Seq<int>,
    u: Seq<Seq<int>>,
    e: Seq<Seq<int>>,
    v: Seq<int>,
)
    requires
        v.len() == exp2(beta.len()),
        u.len() == e.len(),
        rect(e, v.len()),
        forall|i: int| 0 <= i < e.len() ==> #[trigger] u[i] == vmul::<F>(v, e[i]),
    ensures
        cube_sum::<F>(
            scaling_terms::<F>(),
            scaling_polys::<F>(alpha, beta, u, e, v),
            exp2(beta.len()),
        ) == 0,
{
    let n = exp2(beta.len());
    let w = pows::<F>(alpha, e.len());
    let polys = scaling_polys::<F>(alpha, beta, u, e, v);
    let q = eq_evals::<F>(beta);
    let (ub, eb) = (comb::<F>(w, u, n), comb::<F>(w, e, n));
    comb_len::<F>(w, u, n);
    comb_len::<F>(w, e, n);
    comb_of_products::<F>(w, v, u, e);
    let none = Seq::<Term>::empty();
    let (t0, t1) = (scaling_terms::<F>()[0], scaling_terms::<F>()[1]);
    assert(scaling_terms::<F>() =~= none.push(t0).push(t1));
    cube_sum_nil::<F>(polys, n);
    cube_sum_push::<F>(none, t0, polys, n);
    cube_sum_push::<F>(none.push(t0), t1, polys, n);
    let a = vmul::<F>(q, ub);
    assert forall|j: int| 0 <= j < n implies term_values::<F>(t0, polys, n)[j] == a[j] by {
        let c = column(polys, j);
        eq_at_canon::<F>(j, beta);
        assert(c[0] == q[j] && c[1] == ub[j]);
        product_small::<F>(0, 1, 2, c);
        fmul_canon::<F>(q[j], ub[j]);
        f_units::<F>(a[j]);
    }
    assert(term_values::<F>(t0, polys, n) =~= a);
    let m = minus_one::<F>();
    assert forall|j: int| 0 <= j < n implies term_values::<F>(t1, polys, n)[j] == vscale::<F>(
        m,
        a,
    )[j] by {
        let c = column(polys, j);
        eq_at_canon::<F>(j, beta);
        assert(c[0] == q[j] && c[2] == eb[j] && c[3] == v[j]);
        product_small::<F>(0, 2, 3, c);
        fmul_assoc::<F>(q[j], eb[j], v[j]);
        fmul_comm::<F>(eb[j], v[j]);
    }
    assert(term_values::<F>(t1, polys, n) =~= vscale::<F>(m, a));
    vsum_scale::<F>(m, a);
    vsum_canon::<F>(a);
    f_units::<F>(vsum::<F>(a));
    opposite_cancels::<F>(vsum::<F>(a));
    fmul_comm::<F>(m, vsum::<F>(a));
}

/// The values of the coefficient vectors at a point, combined.
pub open spec fn batch_value<F: Residue>(alpha: int, values: Seq<int>) -> int {
    dot::<F>(pows::<F>(alpha, values.len()), values)
}

/// Combines values with the powers of a challenge.
pub fn batched_value<F: PrimeField>(alpha: F, values: &[F]) -> (r: F)
    ensures
        r.val() == batch_value::<F>(alpha.val(), vals(values@)),
{
    let weights = powers(alpha, values.len());
    proof {
        pows_step::<F>(alpha.val(), values@.len());
        assert(vals(weights@).len() == values@.len());
    }
    inner_product(&weights, values)
}

/// The values of all vectors at a point.
pub fn values_of<F: PrimeField>(vectors: &[Vec<F>], point: &[F]) -> (r: Vec<F>)
    requires
        rect(mat(vectors@), exp2(point@.len())),
    ensures
        vals(r@) == values_at::<F>(mat(vectors@), vals(point@)),
        r@.len() == vectors@.len(),
{
    let ghost goal = values_at::<F>(mat(vectors@), vals(point@));
    let mut out: Vec<F> = Vec::new();
    let mut i: usize = 0;
    while i < vectors.len()
        invariant
            i <= vectors@.len(),
            rect(mat(vectors@), exp2(point@.len())),
            goal == values_at::<F>(mat(vectors@), vals(point@)),
            out@.len() == i,
            vals(out@) == goal.take(i as int),
        decreases vectors@.len() - i,
    {
        assert(mat(vectors@)[i as int].len() == vectors@[i as int]@.len());
        let x = eval_mle_from_evals(&vectors[i], point);
        proof {
            vals_push(out@, x);
            assert(goal.take(i as int + 1) =~= goal.take(i as int).push(goal[i as int]));
        }
        out.push(x);
        i = i + 1;
    }
    assert(goal.take(i as int) =~= goal);
    out
}

/// The value of a combination is the combination of the values.
pub proof fn batch_evaluates<F: Residue>(alpha: int, vectors: Seq<Seq<int>>, z: Seq<int>)
    requires
        rect(vectors, exp2(z.len())),
    ensures
        mle::<F>(
            comb::<F>(pows::<F>(alpha, vectors.len()), vectors, exp2(z.len())),
            z,
        ) == batch_value::<F>(alpha, values_at::<F>(vectors, z)),
{
    let w = pows::<F>(alpha, vectors.len());
    pows_step::<F>(alpha, vectors.len());
    crate::linear::dot_comb::<F>(w, vectors, exp2(z.len()), eq_evals::<F>(z));
    assert(Seq::new(vectors.len(), |i: int| dot::<F>(vectors[i], eq_evals::<F>(z)))
        =~= values_at::<F>(vectors, z));
}

/// What the answer of the scaling sum-check and the coefficients lead to.
pub open spec fn scaling_proved<F: PrimeField>(
    p: QABaseScalingRelationProof<F>,
    start: ScalingStart<F>,
    sc_point: Seq<F>,
    answers: Seq<int>,
    e: Seq<Seq<int>>,
) -> bool {
    &&& p.alpha == start.alpha
    &&& p.beta == start.beta
    &&& p.sc_point@ == sc_point
    &&& p.eq_eval_at_sc_point.val() == answers[0]
    &&& p.u_prime_batch_eval_at_sc_point.val() == answers[1]
    &&& p.e_batch_eval_at_sc_point.val() == answers[2]
    &&& p.v_prime_eval_at_sc_point.val() == answers[3]
    &&& vals(p.e_evals_at_sc_point@) == values_at::<F>(e, vals(sc_point))
    &&& p.terminal_eval.val() == scaling_value::<F>(answers[0], answers[1], answers[2], answers[3])
}

/// Takes the answer of the scaling sum-check and writes the values at its point.
pub fn prove_scaling_relation_finish<F: PrimeField, O, T: TranscriptWrite<F, O>>(
    start: ScalingStart<F>,
    qa_params: &QAParams<F>,
    sc_point: Vec<F>,
    terminal_evals: &[F],
    transcript: &mut T,
) -> (r: Result<QABaseScalingRelationProof<F>, Error>)
    requires
        rect(mat(qa_params.e@), exp2(sc_point@.len())),
        terminal_evals@.len() == 4,
    ensures
        T::infallible() ==> r is Ok,
        r matches Err(e) ==> e is Transcript,
        r matches Ok(p) ==> {
            &&& scaling_proved(p, start, sc_point@, vals(terminal_evals@), mat(qa_params.e@))
            &&& final(transcript).log() == old(transcript).log() + sent_fields(
                seq![terminal_evals@[3].val(), terminal_evals@[1].val()],
            ) + sent_fields(vals(p.e_evals_at_sc_point@))
        },
{
    let ghost log0 = transcript.log();
    let pair = [terminal_evals[3], terminal_evals[1]];
    assert(vals(pair@) =~= seq![terminal_evals@[3].val(), terminal_evals@[1].val()]);
    match write_field_elements(transcript, &pair) {
        Ok(_) => {},
        Err(e) => {
            return Err(e);
        },
    }
    let e_evals = values_of(&qa_params.e, &sc_point);
    match write_field_elements(transcript, &e_evals) {
        Ok(_) => {},
        Err(e) => {
            return Err(e);
        },
    }
    let terminal = terminal_evals[0].times(
        terminal_evals[1].minus(terminal_evals[2].times(terminal_evals[3])),
    );
    Ok(
        QABaseScalingRelationProof {
            alpha: start.alpha,
            beta: start.beta,
            sc_point,
            v_prime_eval_at_sc_point: terminal_evals[3],
            u_prime_batch_eval_at_sc_point: terminal_evals[1],
            e_evals_at_sc_point: e_evals,
            e_batch_eval_at_sc_point: terminal_evals[2],
            eq_eval_at_sc_point: terminal_evals[0],
            terminal_eval: terminal,
        },
    )
}

/// Draws the batching challenge and the point of the scaling relation.
pub fn verify_scaling_relation_start<F: PrimeField, O, T: TranscriptRead<F, O>>(
    num_vars: usize,
    transcript: &mut T,
) -> (r: (F, Vec<F>))
    ensures
        final(transcript).held() == old(transcript).held(),
        r.1@.len() == num_vars,
        final(transcript).log() == old(transcript).log() + drawn(seq![r.0.val()]) + drawn(
            vals(r.1@),
        ),
{
    let ghost log0 = transcript.log();
    let alpha = transcript.squeeze_challenge();
    let beta = squeeze_challenges::<F, O, T>(transcript, num_vars);
    proof {
        assert(drawn::<O>(seq![alpha.val()]) =~= seq![Event::Challenge(alpha.val())]);
        assert(transcript.log() =~= log0 + drawn(seq![alpha.val()]) + drawn(vals(beta@)));
    }
    (alpha, beta)
}

/// Reads the values at the point of the scaling sum-check and holds its end to
/// them.
pub fn verify_scaling_relation_finish<F: PrimeField, O, T: TranscriptRead<F, O>>(
    num_vectors: usize,
    alpha: F,
    beta: Vec<F>,
    terminal_eval: F,
    sc_point: Vec<F>,
    transcript: &mut T,
) -> (r: Result<(bool, QABaseScalingRelationProof<F>), Error>)
    requires
        beta@.len() == sc_point@.len(),
    ensures
        final(transcript).held() == old(transcript).held(),
        r matches Err(e) ==> cut_within(
            e,
            old(transcript).log(),
            final(transcript).log(),
            2 + num_vectors as nat,
            0,
        ),
        r matches Ok(result) ==> {
            let p = result.1;
            &&& p.alpha == alpha
            &&& p.beta == beta
            &&& p.sc_point == sc_point
            &&& p.terminal_eval == terminal_eval
            &&& p.e_evals_at_sc_point@.len() == num_vectors
            &&& p.eq_eval_at_sc_point.val() == eq_product::<F>(vals(beta@), vals(sc_point@))
            &&& p.e_batch_eval_at_sc_point.val() == batch_value::<F>(
                alpha.val(),
                vals(p.e_evals_at_sc_point@),
            )
            &&& result.0 == (terminal_eval.val() == scaling_value::<F>(
                p.eq_eval_at_sc_point.val(),
                p.u_prime_batch_eval_at_sc_point.val(),
                p.e_batch_eval_at_sc_point.val(),
                p.v_prime_eval_at_sc_point.val(),
            ))
            &&& final(transcript).log() == old(transcript).log() + sent_fields(
                seq![p.v_prime_eval_at_sc_point.val(), p.u_prime_batch_eval_at_sc_point.val()],
            ) + sent_fields(vals(p.e_evals_at_sc_point@))
        },
{
    let ghost log0 = transcript.log();
    let ghost n = num_vectors as nat;
    let pair = match read_field_elements(transcript, 2) {
        Ok(pair) => pair,
        Err(e) => {
            return Err(e);
        },
    };
    let ghost mid = transcript.log();
    proof {
        went_plain::<O>(log0, vals(pair@), Seq::empty());
    }
    let e_evals = match read_field_elements(transcript, num_vectors) {
        Ok(e_evals) => e_evals,
        Err(e) => {
            proof {
                cut_later(e, log0, mid, transcript.log(), 2, 0, n, 0, 2 + n, 0);
            }
            return Err(e);
        },
    };
    let (v, u) = (pair[0], pair[1]);
    assert(vals(pair@) =~= seq![v.val(), u.val()]);
    let e_batch = batched_value(alpha, &e_evals);
    let eq = equality_mle_eval(&beta, &sc_point);
    let expected = eq.times(u.minus(e_batch.times(v)));
    let ok: bool = terminal_eval.equals(expected);
    Ok(
        (
            ok,
            QABaseScalingRelationProof {
                alpha,
                beta,
                sc_point,
                v_prime_eval_at_sc_point: v,
                u_prime_batch_eval_at_sc_point: u,
                e_evals_at_sc_point: e_evals,
                e_batch_eval_at_sc_point: e_batch,
                eq_eval_at_sc_point: eq,
                terminal_eval,
            },
        ),
    )
}

/// Answered with the values of its polynomials, the scaling sum-check ends in
/// what the verifier expects, and the combined coefficients are those that the
/// verifier computes.
pub proof fn honest_scaling_is_accepted<F: Residue>(
    alpha: int,
    beta: Seq<int>,
    u: Seq<Seq<int>>,
    e: Seq<Seq<int>>,
    v: Seq<int>,
    z: Seq<int>,
)
    requires
        z.len() == beta.len(),
        v.len() == exp2(beta.len()),
        rect(e, v.len()),
    ensures
        ({
            let a = values_at::<F>(scaling_polys::<F>(alpha, beta, u, e, v), z);
            &&& a[0] == eq_product::<F>(beta, z)
            &&& a[2] == batch_value::<F>(alpha, values_at::<F>(e, z))
            &&& summand::<F>(scaling_terms::<F>(), a) == scaling_value::<F>(a[0], a[1], a[2], a[3])
        }),
{
    let a = values_at::<F>(scaling_polys::<F>(alpha, beta, u, e, v), z);
    mle_of_eq_evals::<F>(beta, z);
    batch_evaluates::<F>(alpha, e, z);
    let none = Seq::<Term>::empty();
    let (t0, t1) = (scaling_terms::<F>()[0], scaling_terms::<F>()[1]);
    assert(scaling_terms::<F>() =~= none.push(t0).push(t1));
    summand_push::<F>(none, t0, a);
    summand_push::<F>(none.push(t0), t1, a);
    dot_canon::<F>(eq_evals::<F>(beta), eq_evals::<F>(z));
    product_small::<F>(0, 1, 2, a);
    product_small::<F>(0, 2, 3, a);
    let (x, y) = (fmul::<F>(a[0], a[1]), fmul::<F>(fmul::<F>(a[0], a[2]), a[3]));
    fmul_canon::<F>(a[0], a[1]);
    fmul_canon::<F>(fmul::<F>(a[0], a[2]), a[3]);
    f_units::<F>(x);
    f_units::<F>(y);
    minus_is_negative::<F>(x, y);
    fmul_assoc::<F>(a[0], a[2], a[3]);
    crate::field::fmul_fsub::<F>(a[0], a[1], fmul::<F>(a[2], a[3]));
}

/// Adding the product with minus one is subtracting.
pub proof fn minus_is_negative<F: Residue>(x: int, y: int)
    requires
        canon::<F>(x),
        canon::<F>(y),
    ensures
        fadd::<F>(x, fmul::<F>(minus_one::<F>(), y)) == fsub::<F>(x, y),
{
    let m = minus_one::<F>();
    fmul_comm::<F>(m, y);
    opposite_cancels::<F>(y);
    let ny = fmul::<F>(y, m);
    crate::field::f_cancel::<F>(x, y);
    let d = fsub::<F>(x, y);
    crate::field::fsub_canon::<F>(x, y);
    fadd_assoc::<F>(d, y, ny);
    f_units::<F>(d);
}

/// What the verifier and the prover know after the transform relations.
pub struct QABaseBatchedWhtRelationProof<F> {
    pub eta: F,
    pub gammas: Vec<Vec<F>>,
    pub output_evals_at_gammas: Vec<F>,
    pub sc_point: Vec<F>,
    pub input_evals_at_sc_point: Vec<F>,
    pub scaled_h_evals_at_sc_point: Vec<F>,
    pub terminal_eval: F,
    pub claimed_sum: F,
}

/// The prover's state before the transform sum-check.
pub struct WhtStart<F> {
    pub eta: F,
    pub gammas: Vec<Vec<F>>,
    pub output_evals_at_gammas: Vec<F>,
    pub instance: SumcheckInstance<F>,
}

/// The polynomials of the transform sum-check: for every relation a row of the
/// extended transform matrix, weighted, and the input.
pub open spec fn wht_polys<F: Residue>(
    eta: int,
    gammas: Seq<Seq<int>>,
    inputs: Seq<Seq<int>>,
) -> Seq<Seq<int>> {
    let w = pows::<F>(eta, inputs.len());
    Seq::new(
        2 * inputs.len(),
        |s: int|
            if s % 2 == 0 {
                vscale::<F>(w[s / 2], had_evals::<F>(gammas[s / 2]))
            } else {
                inputs[s / 2]
            },
    )
}

/// One product for every relation.
pub open spec fn wht_terms(k: nat) -> Seq<Term> {
    Seq::new(
        k,
        |t: int|
            Term { coeff: 1, factors: seq![(2 * t) as usize, (2 * t + 1) as usize] },
    )
}

/// The values of the outputs, each at its own point.
pub open spec fn outputs_at<F: Residue>(outputs: Seq<Seq<int>>, gammas: Seq<Seq<int>>) -> Seq<int> {
    Seq::new(outputs.len(), |t: int| mle::<F>(outputs[t], gammas[t]))
}

impl<F: PrimeField> WhtStart<F> {
    /// The sum-check is the one of the given inputs and outputs.
    pub open spec fn of(
        self,
        inputs: Seq<Seq<int>>,
        outputs: Seq<Seq<int>>,
        num_vars: nat,
    ) -> bool {
        let k = inputs.len();
        &&& self.gammas@.len() == k
        &&& rect(mat(self.gammas@), num_vars)
        &&& vals(self.output_evals_at_gammas@) == outputs_at::<F>(outputs, mat(self.gammas@))
        &&& instance_fits(self.instance)
        &&& self.instance.num_vars == num_vars
        &&& self.instance.degree == 2
        &&& self.instance.claim.val() == batch_value::<F>(
            self.eta.val(),
            vals(self.output_evals_at_gammas@),
        )
        &&& self.instance.terms_spec() == wht_terms(k)
        &&& mat(self.instance.polys@) == wht_polys::<F>(
            self.eta.val(),
            mat(self.gammas@),
            inputs,
        )
    }
}

/// Where the outputs are the transforms of the inputs, the batched values of the
/// outputs are the sum over the hypercube.
pub proof fn wht_claim_holds<F: Residue>(
    eta: int,
    gammas: Seq<Seq<int>>,
    inputs: Seq<Seq<int>>,
    outputs: Seq<Seq<int>>,
    num_vars: nat,
)
    requires
        2 * inputs.len() <= usize::MAX,
        outputs.len() == inputs.len(),
        gammas.len() == inputs.len(),
        rect(gammas, num_vars),
        rect(inputs, exp2(num_vars)),
        forall|t: int| 0 <= t < inputs.len() ==> vcanon::<F>(#[trigger] inputs[t]),
        forall|t: int|
            0 <= t < inputs.len() ==> #[trigger] outputs[t] == walsh::<F>(inputs[t]),
    ensures
        cube_sum::<F>(
            wht_terms(inputs.len()),
            wht_polys::<F>(eta, gammas, inputs),
            exp2(num_vars),
        ) == batch_value::<F>(eta, outputs_at::<F>(outputs, gammas)),
{
    let k = inputs.len();
    let n = exp2(num_vars);
    let w = pows::<F>(eta, k);
    let polys = wht_polys::<F>(eta, gammas, inputs);
    let terms = wht_terms(k);
    let v = outputs_at::<F>(outputs, gammas);
    pows_step::<F>(eta, k);
    assert forall|t: int| 0 <= t < k implies vsum::<F>(
        term_values::<F>(#[trigger] terms[t], polys, n),
    ) == fmul::<F>(w[t], v[t]) by {
        assert(gammas[t].len() == num_vars && inputs[t].len() == n);
        assert(vcanon::<F>(inputs[t]) && outputs[t] == walsh::<F>(inputs[t]));
        let h = had_evals::<F>(gammas[t]);
        had_evals_shape::<F>(gammas[t]);
        mle_of_walsh::<F>(inputs[t], gammas[t]);
        dot_comm::<F>(inputs[t], h);
        let scaled = vscale::<F>(w[t], h);
        let all = vmul::<F>(scaled, inputs[t]);
        assert((2 * t) % 2 == 0 && (2 * t) / 2 == t);
        assert((2 * t + 1) % 2 == 1 && (2 * t + 1) / 2 == t);
        assert forall|j: int| 0 <= j < n implies term_values::<F>(terms[t], polys, n)[j]
            == all[j] by {
            let c = column(polys, j);
            assert(c[2 * t] == scaled[j] && c[2 * t + 1] == inputs[t][j]);
            fmul_canon::<F>(w[t], h[j]);
            product_small::<F>((2 * t) as usize, (2 * t + 1) as usize, 0, c);
            fmul_canon::<F>(scaled[j], inputs[t][j]);
            f_units::<F>(all[j]);
        }
        assert(term_values::<F>(terms[t], polys, n) =~= all);
        dot_scale::<F>(w[t], h, inputs[t]);
    }
    cube_sum_weighted::<F>(terms, polys, n, w, v);
}

/// Draws the batching challenge and a point for every relation, writes the
/// values of the outputs and states the transform sum-check.
#[verifier::rlimit(30)]
pub fn prove_batched_wht_relations_start<F: PrimeField, O, T: TranscriptWrite<F, O>>(
    input_evals_list: &[Vec<F>],
    output_evals_list: &[Vec<F>],
    transcript: &mut T,
) -> (r: Result<WhtStart<F>, Error>)
    requires
        input_evals_list@.len() > 0,
        2 * input_evals_list@.len() <= usize::MAX,
        output_evals_list@.len() == input_evals_list@.len(),
        is_pow2(input_evals_list@[0]@.len() as int),
        rect(mat(input_evals_list@), input_evals_list@[0]@.len()),
        rect(mat(output_evals_list@), input_evals_list@[0]@.len()),
    ensures
        T::infallible() ==> r is Ok,
        r matches Err(e) ==> e is Transcript,
        r matches Ok(start) ==> {
            &&& start.of(
                mat(input_evals_list@),
                mat(output_evals_list@),
                log2(input_evals_list@[0]@.len() as int),
            )
            &&& final(transcript).log() == old(transcript).log() + drawn(seq![start.eta.val()])
                + drawn(flatten(mat(start.gammas@))) + sent_fields(
                vals(start.output_evals_at_gammas@),
            )
        },
{
    let ghost log0 = transcript.log();
    let k: usize = input_evals_list.len();
    let n: usize = input_evals_list[0].len();
    let num_vars: usize = log2_power_of_two(n);
    let ghost inputs = mat(input_evals_list@);
    let ghost outputs = mat(output_evals_list@);
    let eta = transcript.squeeze_challenge();
    let gammas = squeeze_points::<F, O, T>(transcript, k, num_vars);
    let ghost gs = mat(gammas@);
    let ghost goal = outputs_at::<F>(outputs, gs);
    let mut ys: Vec<F> = Vec::new();
    let mut t: usize = 0;
    while t < k
        invariant
            t <= k,
            k == output_evals_list@.len(),
            gammas@.len() == k,
            outputs == mat(output_evals_list@),
            gs == mat(gammas@),
            rect(gs, num_vars as nat),
            rect(outputs, n as nat),
            n == exp2(num_vars as nat),
            goal == outputs_at::<F>(outputs, gs),
            ys@.len() == t,
            vals(ys@) == goal.take(t as int),
        decreases k - t,
    {
        proof {
            assert(outputs[t as int].len() == n);
            assert(gs[t as int].len() == num_vars);
        }
        let y = eval_mle_from_evals(&output_evals_list[t], &gammas[t]);
        proof {
            vals_push(ys@, y);
            assert(goal.take(t as int + 1) =~= goal.take(t as int).push(goal[t as int]));
        }
        ys.push(y);
        t = t + 1;
    }
    assert(goal.take(t as int) =~= goal);
    match write_field_elements(transcript, &ys) {
        Ok(_) => {},
        Err(e) => {
            return Err(e);
        },
    }
    let claim = batched_value(eta, &ys);
    let weights = powers(eta, k);
    let ghost w = pows::<F>(eta.val(), k as nat);
    let ghost all = wht_polys::<F>(eta.val(), gs, inputs);
    let ghost allt = wht_terms(k as nat);
    proof {
        pows_step::<F>(eta.val(), k as nat);
        assert(vals(weights@).len() == weights@.len());
    }
    let mut polys: Vec<Vec<F>> = Vec::new();
    let mut terms: Vec<ProductTerm<F>> = Vec::new();
    let mut t: usize = 0;
    assert(mat(polys@) =~= all.take(0));
    assert(terms_view(terms@) =~= allt.take(0));
    while t < k
        invariant
            t <= k,
            k == input_evals_list@.len(),
            2 * k <= usize::MAX,
            gammas@.len() == k,
            weights@.len() == k,
            vals(weights@) == w,
            w == pows::<F>(eta.val(), k as nat),
            inputs == mat(input_evals_list@),
            gs == mat(gammas@),
            rect(gs, num_vars as nat),
            rect(inputs, n as nat),
            n == exp2(num_vars as nat),
            all == wht_polys::<F>(eta.val(), gs, inputs),
            allt == wht_terms(k as nat),
            polys@.len() == 2 * t,
            terms@.len() == t,
            mat(polys@) == all.take(2 * t),
            terms_view(terms@) == allt.take(t as int),
            rect(mat(polys@), n as nat),
            forall|s: int, j: int|
                0 <= s < t && 0 <= j < terms@[s].factors@.len() ==> #[trigger]
                    terms@[s].factors@[j] < 2 * k,
        decreases k - t,
    {
        proof {
            assert(gs[t as int].len() == num_vars);
            assert(inputs[t as int].len() == n);
            had_evals_shape::<F>(gs[t as int]);
        }
        let h = hadamard_tensor_mle_evals_on_hypercube(&gammas[t]);
        let scaled = scaled_by(weights[t], &h);
        let input = copied(&input_evals_list[t]);
        let mut factors: Vec<usize> = Vec::new();
        factors.push(2 * t);
        factors.push(2 * t + 1);
        assert(factors@ =~= seq![(2 * t) as usize, (2 * t + 1) as usize]);
        terms.push(ProductTerm { coeff: F::one(), factors });
        let ghost before = polys@;
        polys.push(scaled);
        polys.push(input);
        proof {
            mat_push(before, scaled);
            mat_push(before.push(scaled), input);
            assert((2 * t) % 2 == 0 && (2 * t) / 2 == t);
            assert((2 * t + 1) % 2 == 1 && (2 * t + 1) / 2 == t as int);
            assert(vals(weights@)[t as int] == w[t as int]);
            assert(all[2 * t] == vals(scaled@));
            assert(all[2 * t + 1] == vals(input@));
            assert(all.take(2 * (t + 1)) =~= all.take(2 * t).push(all[2 * t]).push(
                all[2 * t + 1],
            ));
            assert(terms_view(terms@) =~= allt.take(t as int + 1));
            assert forall|i: int| 0 <= i < 2 * (t + 1) implies (#[trigger] mat(polys@)[i]).len()
                == n by {
                if i < 2 * t {
                    assert(mat(polys@)[i] == mat(before)[i]);
                }
            }
        }
        t = t + 1;
    }
    proof {
        assert(all.take(2 * k) =~= all);
        assert(allt.take(k as int) =~= allt);
        assert(drawn::<O>(seq![eta.val()]) =~= seq![Event::Challenge(eta.val())]);
        assert(transcript.log() =~= log0 + drawn(seq![eta.val()]) + drawn(flatten(gs))
            + sent_fields(vals(ys@)));
    }
    proof {
        assert forall|s: int| 0 <= s < terms@.len() implies (#[trigger] terms@[s]).factors@.len()
            <= 2 by {
            assert(terms_view(terms@)[s].factors == allt[s].factors);
        }
    }
    let instance = SumcheckInstance { num_vars, degree: 2, polys, terms, claim };
    Ok(WhtStart { eta, gammas, output_evals_at_gammas: ys, instance })
}

/// A vector scaled.
fn scaled_by<F: PrimeField>(c: F, v: &[F]) -> (r: Vec<F>)
    ensures
        vals(r@) == vscale::<F>(c.val(), vals(v@)),
        r@.len() == v@.len(),
{
    let mut out: Vec<F> = Vec::new();
    let mut i: usize = 0;
    while i < v.len()
        invariant
            i <= v@.len(),
            out@.len() == i,
            forall|j: int|
                0 <= j < i ==> (#[trigger] out@[j]).val() == fmul::<F>(c.val(), v@[j].val()),
        decreases v@.len() - i,
    {
        out.push(c.times(v[i]));
        i = i + 1;
    }
    assert(vals(out@) =~= vscale::<F>(c.val(), vals(v@)));
    out
}

/// Every other entry, from the first or from the second on.
pub open spec fn every_other(v: Seq<int>, from: int, k: nat) -> Seq<int> {
    Seq::new(k, |t: int| v[2 * t + from])
}

/// What the answer of the transform sum-check leads to.
pub open spec fn wht_proved<F: PrimeField>(
    p: QABaseBatchedWhtRelationProof<F>,
    start: WhtStart<F>,
    sc_point: Seq<F>,
    answers: Seq<int>,
) -> bool {
    let k = start.gammas@.len();
    &&& p.eta == start.eta
    &&& p.gammas == start.gammas
    &&& p.output_evals_at_gammas == start.output_evals_at_gammas
    &&& p.sc_point@ == sc_point
    &&& p.claimed_sum == start.instance.claim
    &&& vals(p.scaled_h_evals_at_sc_point@) == every_other(answers, 0, k)
    &&& vals(p.input_evals_at_sc_point@) == every_other(answers, 1, k)
    &&& p.terminal_eval.val() == dot::<F>(
        vals(p.scaled_h_evals_at_sc_point@),
        vals(p.input_evals_at_sc_point@),
    )
}

/// Takes the answer of the transform sum-check and writes the values of the
/// inputs.
pub fn prove_batched_wht_relations_finish<F: PrimeField, O, T: TranscriptWrite<F, O>>(
    start: WhtStart<F>,
    sc_point: Vec<F>,
    terminal_evals: &[F],
    transcript: &mut T,
) -> (r: Result<QABaseBatchedWhtRelationProof<F>, Error>)
    requires
        terminal_evals@.len() == 2 * start.gammas@.len(),
    ensures
        T::infallible() ==> r is Ok,
        r matches Err(e) ==> e is Transcript,
        r matches Ok(p) ==> {
            &&& wht_proved(p, start, sc_point@, vals(terminal_evals@))
            &&& p.input_evals_at_sc_point@.len() == start.gammas@.len()
            &&& final(transcript).log() == old(transcript).log() + sent_fields(
                vals(p.input_evals_at_sc_point@),
            )
        },
{
    let k: usize = start.gammas.len();
    let total: usize = terminal_evals.len();
    let mut hs: Vec<F> = Vec::new();
    let mut xs: Vec<F> = Vec::new();
    let mut t: usize = 0;
    while t < k
        invariant
            t <= k,
            total == terminal_evals@.len(),
            total == 2 * k,
            hs@.len() == t,
            xs@.len() == t,
            forall|j: int| 0 <= j < t ==> #[trigger] hs@[j] == terminal_evals@[2 * j],
            forall|j: int| 0 <= j < t ==> #[trigger] xs@[j] == terminal_evals@[2 * j + 1],
        decreases k - t,
    {
        hs.push(terminal_evals[2 * t]);
        xs.push(terminal_evals[2 * t + 1]);
        t = t + 1;
    }
    proof {
        let v = vals(terminal_evals@);
        assert(vals(hs@) =~= every_other(v, 0, k as nat));
        assert(vals(xs@) =~= every_other(v, 1, k as nat));
    }
    let terminal_eval = inner_product(&hs, &xs);
    match write_field_elements(transcript, &xs) {
        Ok(_) => {},
        Err(e) => {
            return Err(e);
        },
    }
    Ok(
        QABaseBatchedWhtRelationProof {
            eta: start.eta,
            gammas: start.gammas,
            output_evals_at_gammas: start.output_evals_at_gammas,
            sc_point,
            input_evals_at_sc_point: xs,
            scaled_h_evals_at_sc_point: hs,
            terminal_eval,
            claimed_sum: start.instance.claim,
        },
    )
}

/// The verifier's state before the transform sum-check.
pub struct WhtVerifierStart<F> {
    pub eta: F,
    pub gammas: Vec<Vec<F>>,
    pub output_evals_at_gammas: Vec<F>,
    pub claimed_sum: F,
}

/// Draws the batching challenge and the points and reads the values of the
/// outputs.
pub fn verify_batched_wht_relations_start<F: PrimeField, O, T: TranscriptRead<F, O>>(
    num_vars: usize,
    num_relations: usize,
    transcript: &mut T,
) -> (r: Result<WhtVerifierStart<F>, Error>)
    ensures
        final(transcript).held() == old(transcript).held(),
        r matches Err(e) ==> cut_within(
            e,
            old(transcript).log(),
            final(transcript).log(),
            num_relations as nat,
            0,
        ),
        r matches Ok(start) ==> {
            &&& start.gammas@.len() == num_relations
            &&& rect(mat(start.gammas@), num_vars as nat)
            &&& start.output_evals_at_gammas@.len() == num_relations
            &&& start.claimed_sum.val() == batch_value::<F>(
                start.eta.val(),
                vals(start.output_evals_at_gammas@),
            )
            &&& final(transcript).log() == old(transcript).log() + drawn(seq![start.eta.val()])
                + drawn(flatten(mat(start.gammas@))) + sent_fields(
                vals(start.output_evals_at_gammas@),
            )
        },
{
    let ghost log0 = transcript.log();
    let eta = transcript.squeeze_challenge();
    let gammas = squeeze_points::<F, O, T>(transcript, num_relations, num_vars);
    let ghost before = transcript.log();
    proof {
        cut_single::<O>(arbitrary(), log0, eta.val(), arbitrary());
        went_plain::<O>(
            log0.push(Event::Challenge(eta.val())),
            flatten(mat(gammas@)),
            Seq::empty(),
        );
    }
    let ys = match read_field_elements(transcript, num_relations) {
        Ok(ys) => ys,
        Err(e) => {
            proof {
                let n = num_relations as nat;
                cut_later(e, log0, before, transcript.log(), 0, 0, n, 0, n, 0);
            }
            return Err(e);
        },
    };
    let claimed_sum = batched_value(eta, &ys);
    proof {
        assert(drawn::<O>(seq![eta.val()]) =~= seq![Event::Challenge(eta.val())]);
        assert(transcript.log() =~= log0 + drawn(seq![eta.val()]) + drawn(flatten(mat(gammas@)))
            + sent_fields(vals(ys@)));
    }
    Ok(WhtVerifierStart { eta, gammas, output_evals_at_gammas: ys, claimed_sum })
}

/// The weighted rows of the extended transform matrix at a point.
pub open spec fn scaled_rows_at<F: Residue>(
    eta: int,
    gammas: Seq<Seq<int>>,
    z: Seq<int>,
) -> Seq<int> {
    let w = pows::<F>(eta, gammas.len());
    Seq::new(gammas.len(), |t: int| fmul::<F>(hadamard::<F>(gammas[t], z), w[t]))
}

/// Reads the values of the inputs and holds the end of the transform sum-check
/// to them.
pub fn verify_batched_wht_relations_finish<F: PrimeField, O, T: TranscriptRead<F, O>>(
    start: WhtVerifierStart<F>,
    terminal_eval: F,
    sc_point: Vec<F>,
    transcript: &mut T,
) -> (r: Result<(bool, QABaseBatchedWhtRelationProof<F>), Error>)
    requires
        rect(mat(start.gammas@), sc_point@.len()),
    ensures
        final(transcript).held() == old(transcript).held(),
        r matches Err(e) ==> cut_within(
            e,
            old(transcript).log(),
            final(transcript).log(),
            start.gammas@.len(),
            0,
        ),
        r matches Ok(result) ==> {
            let p = result.1;
            &&& p.eta == start.eta
            &&& p.gammas == start.gammas
            &&& p.output_evals_at_gammas == start.output_evals_at_gammas
            &&& p.claimed_sum == start.claimed_sum
            &&& p.sc_point == sc_point
            &&& p.terminal_eval == terminal_eval
            &&& p.input_evals_at_sc_point@.len() == start.gammas@.len()
            &&& vals(p.scaled_h_evals_at_sc_point@) == scaled_rows_at::<F>(
                start.eta.val(),
                mat(start.gammas@),
                vals(sc_point@),
            )
            &&& result.0 == (terminal_eval.val() == dot::<F>(
                vals(p.scaled_h_evals_at_sc_point@),
                vals(p.input_evals_at_sc_point@),
            ))
            &&& final(transcript).log() == old(transcript).log() + sent_fields(
                vals(p.input_evals_at_sc_point@),
            )
        },
{
    let k: usize = start.gammas.len();
    let xs = match read_field_elements(transcript, k) {
        Ok(xs) => xs,
        Err(e) => {
            return Err(e);
        },
    };
    let weights = powers(start.eta, k);
    let ghost goal = scaled_rows_at::<F>(start.eta.val(), mat(start.gammas@), vals(sc_point@));
    proof {
        pows_step::<F>(start.eta.val(), k as nat);
        assert(vals(weights@).len() == weights@.len());
        assert(mat(start.gammas@).len() == k);
    }
    let mut hs: Vec<F> = Vec::new();
    let mut t: usize = 0;
    while t < k
        invariant
            t <= k,
            k == start.gammas@.len(),
            weights@.len() == k,
            vals(weights@) == pows::<F>(start.eta.val(), k as nat),
            rect(mat(start.gammas@), sc_point@.len()),
            goal == scaled_rows_at::<F>(
                start.eta.val(),
                mat(start.gammas@),
                vals(sc_point@),
            ),
            hs@.len() == t,
            vals(hs@) == goal.take(t as int),
        decreases k - t,
    {
        proof {
            assert(mat(start.gammas@)[t as int].len() == sc_point@.len());
        }
        let h = hadamard_tensor_mle_eval(&start.gammas[t], &sc_point).times(weights[t]);
        proof {
            vals_push(hs@, h);
            assert(vals(weights@)[t as int] == weights@[t as int].val());
            assert(goal.take(t as int + 1) =~= goal.take(t as int).push(goal[t as int]));
        }
        hs.push(h);
        t = t + 1;
    }
    assert(goal.take(t as int) =~= goal);
    let expected = inner_product(&hs, &xs);
    let ok: bool = terminal_eval.equals(expected);
    Ok(
        (
            ok,
            QABaseBatchedWhtRelationProof {
                eta: start.eta,
                gammas: start.gammas,
                output_evals_at_gammas: start.output_evals_at_gammas,
                sc_point,
                input_evals_at_sc_point: xs,
                scaled_h_evals_at_sc_point: hs,
                terminal_eval,
                claimed_sum: start.claimed_sum,
            },
        ),
    )
}

/// Answered with the values of its polynomials, the transform sum-check ends in
/// what the verifier expects.
pub proof fn honest_wht_is_accepted<F: Residue>(
    eta: int,
    gammas: Seq<Seq<int>>,
    inputs: Seq<Seq<int>>,
    z: Seq<int>,
)
    requires
        2 * inputs.len() <= usize::MAX,
        gammas.len() == inputs.len(),
        rect(gammas, z.len()),
    ensures
        ({
            let a = values_at::<F>(wht_polys::<F>(eta, gammas, inputs), z);
            &&& every_other(a, 0, inputs.len()) == scaled_rows_at::<F>(eta, gammas, z)
            &&& every_other(a, 1, inputs.len()) == values_at::<F>(inputs, z)
            &&& summand::<F>(wht_terms(inputs.len()), a) == dot::<F>(
                scaled_rows_at::<F>(eta, gammas, z),
                values_at::<F>(inputs, z),
            )
        }),
{
    let k = inputs.len();
    let w = pows::<F>(eta, k);
    let polys = wht_polys::<F>(eta, gammas, inputs);
    let a = values_at::<F>(polys, z);
    let hs = scaled_rows_at::<F>(eta, gammas, z);
    let xs = values_at::<F>(inputs, z);
    let terms = wht_terms(k);
    pows_step::<F>(eta, k);
    assert forall|t: int| 0 <= t < k implies a[2 * t] == #[trigger] hs[t] && a[2 * t + 1]
        == xs[t] by {
        assert((2 * t) % 2 == 0 && (2 * t) / 2 == t);
        assert((2 * t + 1) % 2 == 1 && (2 * t + 1) / 2 == t);
        assert(gammas[t].len() == z.len());
        let h = had_evals::<F>(gammas[t]);
        had_evals_shape::<F>(gammas[t]);
        dot_scale::<F>(w[t], h, eq_evals::<F>(z));
        mle_of_had_evals::<F>(gammas[t], z);
        fmul_comm::<F>(w[t], hadamard::<F>(gammas[t], z));
    }
    assert(every_other(a, 0, k) =~= hs);
    assert(every_other(a, 1, k) =~= xs);
    assert forall|t: int| 0 <= t < k implies fmul::<F>(
        (#[trigger] terms[t]).coeff,
        product_at::<F>(terms[t].factors, a),
    ) == fmul::<F>(hs[t], xs[t]) by {
        assert(a[2 * t] == hs[t] && a[2 * t + 1] == xs[t]);
        fmul_canon::<F>(hadamard::<F>(gammas[t], z), w[t]);
        product_small::<F>((2 * t) as usize, (2 * t + 1) as usize, 0, a);
        fmul_canon::<F>(hs[t], xs[t]);
        f_units::<F>(fmul::<F>(hs[t], xs[t]));
    }
    summand_weighted::<F>(terms, a, hs, xs);
}

/// The relations of an encoding: inputs and outputs of the transforms.
pub open spec fn wht_inputs(msg: Seq<int>, scaled: Seq<Seq<int>>) -> Seq<Seq<int>> {
    seq![msg] + scaled
}

/// The message and the scaled blocks, and what they are transformed to.
pub fn encoding_wht_lists<F: PrimeField>(witness: &QAWitness<F>) -> (r: (Vec<Vec<F>>, Vec<Vec<F>>))
    ensures
        mat(r.0@) == wht_inputs(vals(witness.msg@), mat(witness.scaled_wht_blocks@)),
        mat(r.1@) == wht_inputs(vals(witness.msg_wht@), mat(witness.parity_blocks@)),
        r.0@.len() == 1 + witness.scaled_wht_blocks@.len(),
        r.1@.len() == 1 + witness.parity_blocks@.len(),
{
    let mut inputs: Vec<Vec<F>> = Vec::new();
    let mut outputs: Vec<Vec<F>> = Vec::new();
    inputs.push(copied(&witness.msg));
    outputs.push(copied(&witness.msg_wht));
    let mut scaled = copied_rows(&witness.scaled_wht_blocks);
    let mut parity = copied_rows(&witness.parity_blocks);
    let ghost (s0, p0) = (scaled@, parity@);
    inputs.append(&mut scaled);
    outputs.append(&mut parity);
    proof {
        assert(mat(inputs@) =~= wht_inputs(
            vals(witness.msg@),
            mat(s0),
        ));
        assert(mat(outputs@) =~= wht_inputs(
            vals(witness.msg_wht@),
            mat(p0),
        ));
    }
    (inputs, outputs)
}

/// The witness of an encoding meets the transform relations and the scaling
/// relation.
pub proof fn encoding_relations_hold<F: PrimeField>(
    witness: QAWitness<F>,
    msg: Seq<int>,
    e: Seq<Seq<int>>,
)
    requires
        witness.of(msg, e),
        vcanon::<F>(msg),
        is_pow2(msg.len() as int),
        rect(e, msg.len()),
    ensures
        ({
            let inputs = wht_inputs(vals(witness.msg@), mat(witness.scaled_wht_blocks@));
            let outputs = wht_inputs(vals(witness.msg_wht@), mat(witness.parity_blocks@));
            &&& inputs.len() == e.len() + 1
            &&& outputs.len() == inputs.len()
            &&& rect(inputs, msg.len())
            &&& rect(outputs, msg.len())
            &&& forall|t: int| 0 <= t < inputs.len() ==> vcanon::<F>(#[trigger] inputs[t])
            &&& forall|t: int|
                0 <= t < inputs.len() ==> #[trigger] outputs[t] == walsh::<F>(inputs[t])
            &&& forall|i: int|
                0 <= i < e.len() ==> #[trigger] mat(witness.scaled_wht_blocks@)[i] == vmul::<F>(
                    vals(witness.msg_wht@),
                    e[i],
                )
        }),
{
    let inputs = wht_inputs(vals(witness.msg@), mat(witness.scaled_wht_blocks@));
    let outputs = wht_inputs(vals(witness.msg_wht@), mat(witness.parity_blocks@));
    crate::qa_code::walsh_shape::<F>(msg);
    assert forall|t: int| 0 <= t < inputs.len() implies {
        &&& vcanon::<F>(#[trigger] inputs[t])
        &&& inputs[t].len() == msg.len()
        &&& outputs[t] == walsh::<F>(inputs[t])
        &&& outputs[t].len() == msg.len()
    } by {
        if t > 0 {
            let s = scaled_blocks::<F>(msg, e)[t - 1];
            assert(inputs[t] == s);
            assert(e[t - 1].len() == msg.len());
            assert(vcanon::<F>(s)) by {
                broadcast use fmul_canon;

            }
            crate::qa_code::walsh_shape::<F>(s);
            assert(outputs[t] == parities::<F>(msg, e)[t - 1]);
        }
    }
    assert forall|t: int| 0 <= t < outputs.len() implies (#[trigger] outputs[t]).len()
        == msg.len() by {
        assert(inputs[t].len() == msg.len());
    }
    assert forall|t: int| 0 <= t < inputs.len() implies #[trigger] outputs[t] == walsh::<F>(
        inputs[t],
    ) by {
        assert(inputs[t].len() == msg.len());
    }
}

/// What a run of the prover of the scaling relation wrote and found.
pub open spec fn scaling_written<F: PrimeField, O>(
    p: QABaseScalingRelationProof<F>,
    u: Seq<Seq<int>>,
    e: Seq<Seq<int>>,
    v: Seq<int>,
    log0: Seq<Event<O>>,
    log1: Seq<Event<O>>,
) -> bool {
    let z = vals(p.sc_point@);
    let polys = scaling_polys::<F>(p.alpha.val(), vals(p.beta@), u, e, v);
    let a = values_at::<F>(polys, z);
    &&& p.beta@.len() == log2(v.len() as int)
    &&& z.len() == log2(v.len() as int)
    &&& p.eq_eval_at_sc_point.val() == a[0]
    &&& p.u_prime_batch_eval_at_sc_point.val() == a[1]
    &&& p.e_batch_eval_at_sc_point.val() == a[2]
    &&& p.v_prime_eval_at_sc_point.val() == a[3]
    &&& vals(p.e_evals_at_sc_point@) == values_at::<F>(e, z)
    &&& p.terminal_eval.val() == scaling_value::<F>(a[0], a[1], a[2], a[3])
    &&& log1 == log0 + drawn(seq![p.alpha.val()]) + drawn(vals(p.beta@)) + run_events::<F, O>(
        scaling_terms::<F>(),
        polys,
        3,
        z,
    ) + sent_fields(seq![a[3], a[1]]) + sent_fields(values_at::<F>(e, z))
}

/// Proves that the scaled blocks are the products of their coefficients with the
/// transformed message.
pub fn prove_scaling_relation_sumcheck<F: PrimeField, O, T: TranscriptWrite<F, O>>(
    qa_params: &QAParams<F>,
    v_prime_evals: &[F],
    u_prime_evals: &[Vec<F>],
    transcript: &mut T,
) -> (r: Result<QABaseScalingRelationProof<F>, Error>)
    requires
        is_pow2(v_prime_evals@.len() as int),
        qa_params.e@.len() == u_prime_evals@.len(),
        u_prime_evals@.len() > 0,
        rect(mat(qa_params.e@), v_prime_evals@.len()),
        rect(mat(u_prime_evals@), v_prime_evals@.len()),
    ensures
        T::infallible() ==> r is Ok,
        r matches Err(e) ==> e is Transcript,
        r matches Ok(p) ==> scaling_written::<F, O>(
            p,
            mat(u_prime_evals@),
            mat(qa_params.e@),
            vals(v_prime_evals@),
            old(transcript).log(),
            final(transcript).log(),
        ),
{
    let ghost log0 = transcript.log();
    let start = prove_scaling_relation_start(qa_params, v_prime_evals, u_prime_evals, transcript);
    proof {
        pow2_is_exp2(v_prime_evals@.len() as int);
        assert(mat(start.instance.polys@).len() == start.instance.polys@.len());
    }
    let (sc_point, answers) = match sumcheck_prove(&start.instance, transcript) {
        Ok(answer) => answer,
        Err(e) => {
            return Err(e);
        },
    };
    let ghost polys = mat(start.instance.polys@);
    let ghost z = vals(sc_point@);
    proof {
        assert(vals(answers@).len() == answers@.len());
        assert(vals(answers@)[1] == answers@[1].val() && vals(answers@)[3] == answers@[3].val());
    }
    let r = prove_scaling_relation_finish(start, qa_params, sc_point, &answers, transcript);
    proof {
        if r is Ok {
            let p = r->Ok_0;
            let a = values_at::<F>(polys, z);
            assert(transcript.log() =~= log0 + drawn(seq![p.alpha.val()]) + drawn(vals(p.beta@))
                + run_events::<F, O>(scaling_terms::<F>(), polys, 3, z) + sent_fields(
                seq![a[3], a[1]],
            ) + sent_fields(values_at::<F>(mat(qa_params.e@), z)));
        }
    }
    r
}

/// What a run of the verifier of the scaling relation read and found.
pub open spec fn scaling_read<F: PrimeField, O>(
    p: QABaseScalingRelationProof<F>,
    ok: bool,
    num_vars: nat,
    num_vectors: nat,
    log0: Seq<Event<O>>,
    log1: Seq<Event<O>>,
) -> bool {
    let z = vals(p.sc_point@);
    &&& p.beta@.len() == num_vars
    &&& z.len() == num_vars
    &&& p.e_evals_at_sc_point@.len() == num_vectors
    &&& p.eq_eval_at_sc_point.val() == eq_product::<F>(vals(p.beta@), z)
    &&& p.e_batch_eval_at_sc_point.val() == batch_value::<F>(
        p.alpha.val(),
        vals(p.e_evals_at_sc_point@),
    )
    &&& ok == (p.terminal_eval.val() == scaling_value::<F>(
        p.eq_eval_at_sc_point.val(),
        p.u_prime_batch_eval_at_sc_point.val(),
        p.e_batch_eval_at_sc_point.val(),
        p.v_prime_eval_at_sc_point.val(),
    ))
    &&& exists|mid: Seq<Event<O>>| #[trigger]
        sumcheck_verified::<F, O>(
            num_vars,
            3,
            0,
            p.terminal_eval.val(),
            z,
            log0 + drawn(seq![p.alpha.val()]) + drawn(vals(p.beta@)),
            mid,
        ) && log1 == mid + sent_fields(
            seq![p.v_prime_eval_at_sc_point.val(), p.u_prime_batch_eval_at_sc_point.val()],
        ) + sent_fields(vals(p.e_evals_at_sc_point@))
}

/// How many field elements the scaling relation sends.
pub open spec fn scaling_fields(num_vars: nat, num_vectors: nat) -> nat {
    num_vars * 4 + 2 + num_vectors
}

/// Verifies the scaling relation; the result says whether its sum-check ends in
/// what the values read give.
pub fn verify_scaling_relation_sumcheck<F: PrimeField, O, T: TranscriptRead<F, O>>(
    num_vars: usize,
    num_vectors: usize,
    transcript: &mut T,
) -> (r: Result<(bool, QABaseScalingRelationProof<F>), Error>)
    ensures
        final(transcript).held() == old(transcript).held(),
        r matches Ok(result) ==> scaling_read::<F, O>(
            result.1,
            result.0,
            num_vars as nat,
            num_vectors as nat,
            old(transcript).log(),
            final(transcript).log(),
        ),
        r matches Err(e) ==> cut_within(
            e,
            old(transcript).log(),
            final(transcript).log(),
            scaling_fields(num_vars as nat, num_vectors as nat),
            0,
        ) || (round_error(e) && exists|
            alpha: int,
            beta: Seq<int>,
        |
            beta.len() == num_vars && #[trigger] sumcheck_refused::<F, O>(
                num_vars as nat,
                3,
                0,
                old(transcript).log() + drawn(seq![alpha]) + drawn(beta),
                final(transcript).log(),
            )),
{
    let ghost log0 = transcript.log();
    let (alpha, beta) = verify_scaling_relation_start(num_vars, transcript);
    let ghost b = vals(beta@);
    assert(b.len() == num_vars);
    let ghost begun = transcript.log();
    let ghost sc = (num_vars as nat) * 4;
    let ghost all = scaling_fields(num_vars as nat, num_vectors as nat);
    proof {
        went_plain::<O>(log0, seq![alpha.val()], Seq::empty());
        went_plain::<O>(log0 + drawn::<O>(seq![alpha.val()]), b, Seq::empty());
    }
    let (terminal, sc_point) = match sumcheck_verify(num_vars, 3, F::zero(), transcript) {
        Ok(end) => end,
        Err(e) => {
            proof {
                if cut_within(e, begun, transcript.log(), sc, 0) {
                    cut_later(e, log0, begun, transcript.log(), 0, 0, sc, 0, all, 0);
                } else {
                    assert(sumcheck_refused::<F, O>(
                        num_vars as nat,
                        3,
                        0,
                        log0 + drawn(seq![alpha.val()]) + drawn(b),
                        transcript.log(),
                    ));
                }
            }
            return Err(e);
        },
    };
    let ghost mid = transcript.log();
    proof {
        assert(sumcheck_verified::<F, O>(
            num_vars as nat,
            3,
            0,
            terminal.val(),
            vals(sc_point@),
            log0 + drawn(seq![alpha.val()]) + drawn(b),
            mid,
        ));
    }
    proof {
        sumcheck_went::<F, O>(
            num_vars as nat,
            3,
            0,
            terminal.val(),
            vals(sc_point@),
            begun,
            mid,
        );
        went_on(log0, begun, mid, 0, 0, sc, 0);
    }
    let r = verify_scaling_relation_finish(
        num_vectors,
        alpha,
        beta,
        terminal,
        sc_point,
        transcript,
    );
    proof {
        if r is Err {
            let last = 2 + num_vectors as nat;
            cut_later(r->Err_0, log0, mid, transcript.log(), sc, 0, last, 0, all, 0);
        }
    }
    r
}

/// What an honest prover of the scaling relation writes is accepted.
pub proof fn honest_scaling_run_is_accepted<F: PrimeField, O>(
    p: QABaseScalingRelationProof<F>,
    u: Seq<Seq<int>>,
    e: Seq<Seq<int>>,
    v: Seq<int>,
    log0: Seq<Event<O>>,
    log1: Seq<Event<O>>,
)
    requires
        is_pow2(v.len() as int),
        vcanon::<F>(v),
        u.len() == e.len(),
        rect(e, v.len()),
        forall|i: int| 0 <= i < e.len() ==> #[trigger] u[i] == vmul::<F>(v, e[i]),
        scaling_written::<F, O>(p, u, e, v, log0, log1),
    ensures
        scaling_read::<F, O>(p, true, log2(v.len() as int), e.len(), log0, log1),
{
    let z = vals(p.sc_point@);
    let (alpha, beta) = (p.alpha.val(), vals(p.beta@));
    let n = log2(v.len() as int);
    let ts = scaling_terms::<F>();
    let polys = scaling_polys::<F>(alpha, beta, u, e, v);
    pow2_is_exp2(v.len() as int);
    scaling_claim_holds::<F>(alpha, beta, u, e, v);
    honest_scaling_is_accepted::<F>(alpha, beta, u, e, v, z);
    let w = pows::<F>(alpha, e.len());
    comb_len::<F>(w, u, v.len());
    comb_len::<F>(w, e, v.len());
    eq_evals_canon::<F>(beta);
    assert forall|k: int| 0 <= k < polys.len() implies vcanon::<F>(#[trigger] polys[k])
        && polys[k].len() == exp2(n) by {
        assert(polys[k] == polys[0] || polys[k] == polys[1] || polys[k] == polys[2] || polys[k]
            == polys[3]);
    }
    assert(terms_fit(ts, 4, 3)) by {
        assert forall|t: int| 0 <= t < ts.len() implies {
            &&& (#[trigger] ts[t]).factors.len() <= 3
            &&& forall|i: int| 0 <= i < ts[t].factors.len() ==> #[trigger] ts[t].factors[i] < 4
        } by {}
    }
    let start = log0 + drawn(seq![alpha]) + drawn(beta);
    honest_run_is_accepted::<F, O>(ts, polys, 3, 0, z, start);
    assert(vals(p.e_evals_at_sc_point@).len() == e.len());
    assert(sumcheck_verified::<F, O>(
        n,
        3,
        0,
        p.terminal_eval.val(),
        z,
        start,
        start + run_events::<F, O>(ts, polys, 3, z),
    ));
}

/// What a run of the prover of the transform relations wrote and found.
pub open spec fn wht_written<F: PrimeField, O>(
    p: QABaseBatchedWhtRelationProof<F>,
    inputs: Seq<Seq<int>>,
    outputs: Seq<Seq<int>>,
    num_vars: nat,
    log0: Seq<Event<O>>,
    log1: Seq<Event<O>>,
) -> bool {
    let z = vals(p.sc_point@);
    let gammas = mat(p.gammas@);
    let polys = wht_polys::<F>(p.eta.val(), gammas, inputs);
    let ys = outputs_at::<F>(outputs, gammas);
    let xs = values_at::<F>(inputs, z);
    &&& p.gammas@.len() == inputs.len()
    &&& rect(gammas, num_vars)
    &&& z.len() == num_vars
    &&& vals(p.output_evals_at_gammas@) == ys
    &&& vals(p.input_evals_at_sc_point@) == xs
    &&& vals(p.scaled_h_evals_at_sc_point@) == scaled_rows_at::<F>(p.eta.val(), gammas, z)
    &&& p.claimed_sum.val() == batch_value::<F>(p.eta.val(), ys)
    &&& p.terminal_eval.val() == dot::<F>(scaled_rows_at::<F>(p.eta.val(), gammas, z), xs)
    &&& log1 == log0 + drawn(seq![p.eta.val()]) + drawn(flatten(gammas)) + sent_fields(ys)
        + run_events::<F, O>(wht_terms(inputs.len()), polys, 2, z) + sent_fields(xs)
}

/// Proves that the outputs are the transforms of the inputs.
pub fn prove_batched_wht_relations_sumcheck<F: PrimeField, O, T: TranscriptWrite<F, O>>(
    input_evals_list: &[Vec<F>],
    output_evals_list: &[Vec<F>],
    transcript: &mut T,
) -> (r: Result<QABaseBatchedWhtRelationProof<F>, Error>)
    requires
        input_evals_list@.len() > 0,
        2 * input_evals_list@.len() <= usize::MAX,
        output_evals_list@.len() == input_evals_list@.len(),
        is_pow2(input_evals_list@[0]@.len() as int),
        rect(mat(input_evals_list@), input_evals_list@[0]@.len()),
        rect(mat(output_evals_list@), input_evals_list@[0]@.len()),
    ensures
        T::infallible() ==> r is Ok,
        r matches Err(e) ==> e is Transcript,
        r matches Ok(p) ==> wht_written::<F, O>(
            p,
            mat(input_evals_list@),
            mat(output_evals_list@),
            log2(input_evals_list@[0]@.len() as int),
            old(transcript).log(),
            final(transcript).log(),
        ),
{
    let ghost log0 = transcript.log();
    let ghost inputs = mat(input_evals_list@);
    let ghost n = log2(input_evals_list@[0]@.len() as int);
    let start = match prove_batched_wht_relations_start(
        input_evals_list,
        output_evals_list,
        transcript,
    ) {
        Ok(start) => start,
        Err(e) => {
            return Err(e);
        },
    };
    let (sc_point, answers) = match sumcheck_prove(&start.instance, transcript) {
        Ok(answer) => answer,
        Err(e) => {
            return Err(e);
        },
    };
    let ghost polys = mat(start.instance.polys@);
    let ghost z = vals(sc_point@);
    let ghost gammas = mat(start.gammas@);
    proof {
        assert(polys.len() == start.instance.polys@.len());
        honest_wht_is_accepted::<F>(start.eta.val(), gammas, inputs, z);
    }
    let r = prove_batched_wht_relations_finish(start, sc_point, &answers, transcript);
    proof {
        if r is Ok {
            let p = r->Ok_0;
            assert(transcript.log() =~= log0 + drawn(seq![p.eta.val()]) + drawn(flatten(gammas))
                + sent_fields(vals(p.output_evals_at_gammas@)) + run_events::<F, O>(
                wht_terms(inputs.len()),
                polys,
                2,
                z,
            ) + sent_fields(vals(p.input_evals_at_sc_point@)));
        }
    }
    r
}

/// What a run of the verifier of the transform relations read and found.
pub open spec fn wht_read<F: PrimeField, O>(
    p: QABaseBatchedWhtRelationProof<F>,
    ok: bool,
    num_vars: nat,
    k: nat,
    log0: Seq<Event<O>>,
    log1: Seq<Event<O>>,
) -> bool {
    let z = vals(p.sc_point@);
    let gammas = mat(p.gammas@);
    &&& p.gammas@.len() == k
    &&& rect(gammas, num_vars)
    &&& z.len() == num_vars
    &&& p.output_evals_at_gammas@.len() == k
    &&& p.input_evals_at_sc_point@.len() == k
    &&& vals(p.scaled_h_evals_at_sc_point@) == scaled_rows_at::<F>(p.eta.val(), gammas, z)
    &&& p.claimed_sum.val() == batch_value::<F>(p.eta.val(), vals(p.output_evals_at_gammas@))
    &&& ok == (p.terminal_eval.val() == dot::<F>(
        vals(p.scaled_h_evals_at_sc_point@),
        vals(p.input_evals_at_sc_point@),
    ))
    &&& exists|mid: Seq<Event<O>>| #[trigger]
        sumcheck_verified::<F, O>(
            num_vars,
            2,
            p.claimed_sum.val(),
            p.terminal_eval.val(),
            z,
            log0 + drawn(seq![p.eta.val()]) + drawn(flatten(gammas)) + sent_fields(
                vals(p.output_evals_at_gammas@),
            ),
            mid,
        ) && log1 == mid + sent_fields(vals(p.input_evals_at_sc_point@))
}

/// A run of the verifier of the transform relations whose sum-check was refused.
pub open spec fn wht_refused<F: PrimeField, O>(
    num_vars: nat,
    k: nat,
    eta: int,
    gammas: Seq<Seq<int>>,
    ys: Seq<int>,
    log0: Seq<Event<O>>,
    log1: Seq<Event<O>>,
) -> bool {
    &&& gammas.len() == k
    &&& rect(gammas, num_vars)
    &&& ys.len() == k
    &&& sumcheck_refused::<F, O>(
        num_vars,
        2,
        batch_value::<F>(eta, ys),
        log0 + drawn(seq![eta]) + drawn(flatten(gammas)) + sent_fields(ys),
        log1,
    )
}

/// How many field elements the transform relations send.
pub open spec fn wht_fields(num_vars: nat, k: nat) -> nat {
    k + num_vars * 3 + k
}

/// Verifies the transform relations; the result says whether their sum-check ends
/// in what the values read give.
pub fn verify_batched_wht_relations_sumcheck<F: PrimeField, O, T: TranscriptRead<F, O>>(
    num_vars: usize,
    num_relations: usize,
    transcript: &mut T,
) -> (r: Result<(bool, QABaseBatchedWhtRelationProof<F>), Error>)
    ensures
        final(transcript).held() == old(transcript).held(),
        r matches Ok(result) ==> wht_read::<F, O>(
            result.1,
            result.0,
            num_vars as nat,
            num_relations as nat,
            old(transcript).log(),
            final(transcript).log(),
        ),
        r matches Err(e) ==> cut_within(
            e,
            old(transcript).log(),
            final(transcript).log(),
            wht_fields(num_vars as nat, num_relations as nat),
            0,
        ) || (round_error(e) && exists|
            eta: int,
            gammas: Seq<Seq<int>>,
            ys: Seq<int>,
        | #[trigger]
            wht_refused::<F, O>(
                num_vars as nat,
                num_relations as nat,
                eta,
                gammas,
                ys,
                old(transcript).log(),
                final(transcript).log(),
            )),
{
    let ghost log0 = transcript.log();
    let ghost k = num_relations as nat;
    let ghost sc = (num_vars as nat) * 3;
    let ghost all = wht_fields(num_vars as nat, k);
    let start = match verify_batched_wht_relations_start(num_vars, num_relations, transcript) {
        Ok(start) => start,
        Err(e) => {
            proof {
                assert(went(log0, log0, 0, 0));
                cut_later(e, log0, log0, transcript.log(), 0, 0, k, 0, all, 0);
            }
            return Err(e);
        },
    };
    let ghost (eta, gammas, ys) = (
        start.eta.val(),
        mat(start.gammas@),
        vals(start.output_evals_at_gammas@),
    );
    let ghost begun = transcript.log();
    proof {
        let a = log0 + drawn::<O>(seq![eta]);
        let b = a + drawn::<O>(flatten(gammas));
        went_plain::<O>(log0, seq![eta], Seq::empty());
        went_plain::<O>(a, flatten(gammas), Seq::empty());
        went_plain::<O>(b, ys, Seq::empty());
        went_on(log0, b, begun, 0, 0, k, 0);
    }
    let (terminal, sc_point) = match sumcheck_verify(num_vars, 2, start.claimed_sum, transcript) {
        Ok(end) => end,
        Err(e) => {
            proof {
                if cut_within(e, begun, transcript.log(), sc, 0) {
                    cut_later(e, log0, begun, transcript.log(), k, 0, sc, 0, all, 0);
                } else {
                    assert(wht_refused::<F, O>(
                        num_vars as nat,
                        num_relations as nat,
                        eta,
                        gammas,
                        ys,
                        log0,
                        transcript.log(),
                    ));
                }
            }
            return Err(e);
        },
    };
    let ghost mid = transcript.log();
    proof {
        assert(sumcheck_verified::<F, O>(
            num_vars as nat,
            2,
            start.claimed_sum.val(),
            terminal.val(),
            vals(sc_point@),
            log0 + drawn(seq![eta]) + drawn(flatten(gammas)) + sent_fields(ys),
            mid,
        ));
    }
    proof {
        sumcheck_went::<F, O>(
            num_vars as nat,
            2,
            start.claimed_sum.val(),
            terminal.val(),
            vals(sc_point@),
            begun,
            mid,
        );
        went_on(log0, begun, mid, k, 0, sc, 0);
    }
    let r = verify_batched_wht_relations_finish(start, terminal, sc_point, transcript);
    proof {
        if r is Err {
            cut_later(r->Err_0, log0, mid, transcript.log(), k + sc, 0, k, 0, all, 0);
        }
    }
    r
}

/// What an honest prover of the transform relations writes is accepted.
pub proof fn honest_wht_run_is_accepted<F: PrimeField, O>(
    p: QABaseBatchedWhtRelationProof<F>,
    inputs: Seq<Seq<int>>,
    outputs: Seq<Seq<int>>,
    num_vars: nat,
    log0: Seq<Event<O>>,
    log1: Seq<Event<O>>,
)
    requires
        2 * inputs.len() <= usize::MAX,
        outputs.len() == inputs.len(),
        rect(inputs, exp2(num_vars)),
        forall|t: int| 0 <= t < inputs.len() ==> vcanon::<F>(#[trigger] inputs[t]),
        forall|t: int|
            0 <= t < inputs.len() ==> #[trigger] outputs[t] == walsh::<F>(inputs[t]),
        wht_written::<F, O>(p, inputs, outputs, num_vars, log0, log1),
    ensures
        wht_read::<F, O>(p, true, num_vars, inputs.len(), log0, log1),
{
    let z = vals(p.sc_point@);
    let k = inputs.len();
    let gammas = mat(p.gammas@);
    let eta = p.eta.val();
    let ts = wht_terms(k);
    let polys = wht_polys::<F>(eta, gammas, inputs);
    let ys = outputs_at::<F>(outputs, gammas);
    wht_claim_holds::<F>(eta, gammas, inputs, outputs, num_vars);
    honest_wht_is_accepted::<F>(eta, gammas, inputs, z);
    assert forall|s: int| 0 <= s < polys.len() implies vcanon::<F>(#[trigger] polys[s])
        && polys[s].len() == exp2(num_vars) by {
        let t = s / 2;
        assert(gammas[t].len() == num_vars && inputs[t].len() == exp2(num_vars));
        assert(vcanon::<F>(inputs[t]));
        had_evals_shape::<F>(gammas[t]);
        broadcast use fmul_canon;

    }
    assert(terms_fit(ts, polys.len(), 2)) by {
        assert forall|t: int| 0 <= t < ts.len() implies {
            &&& (#[trigger] ts[t]).factors.len() <= 2
            &&& forall|i: int|
                0 <= i < ts[t].factors.len() ==> #[trigger] ts[t].factors[i] < polys.len()
        } by {}
    }
    let start = log0 + drawn(seq![eta]) + drawn(flatten(gammas)) + sent_fields(ys);
    honest_run_is_accepted::<F, O>(ts, polys, 2, batch_value::<F>(eta, ys), z, start);
    assert(vals(p.output_evals_at_gammas@).len() == p.output_evals_at_gammas@.len());
    assert(vals(p.input_evals_at_sc_point@).len() == p.input_evals_at_sc_point@.len());
    assert(sumcheck_verified::<F, O>(
        num_vars,
        2,
        p.claimed_sum.val(),
        p.terminal_eval.val(),
        z,
        start,
        start + run_events::<F, O>(ts, polys, 2, z),
    ));
}

} // verus!
