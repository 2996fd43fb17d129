//! What accepted encoding and column checks show.

use crate::binding::opened_column_is_committed;
use crate::brakingbase_checks::{entries_at, mask_picks};
use crate::brakingbase_verify::mask_canon;
use crate::claims::ClaimSet;
use crate::classic_sumcheck::{round_events, rounds_accepted, sumcheck_verified, terms_fit};
use crate::field::{canon, f_units, fmul_assoc, fmul_canon, PrimeField, Residue};
use crate::hash::{collision, HashFunction};
use crate::linear::{
    column, comb, comb_len, dot, dot_comb, dot_comm, dot_sub, flatten, ints, mat, mcanon, pows,
    pows_step, rect, vals, vcanon, vmul, vscale, vsub, vsum, vsum_canon, vsum_scale,
};
use crate::merkle::{column_leaves, root};
use crate::mle::{
    eq_at_canon, eq_evals, exp2, exp2_adds, exp2_is_pow2, had_evals_shape, log2, mle, mle_row_major,
    pow2_is_exp2,
};
use crate::parity::minus_one;
use crate::qa_code::{flatten_len, is_pow2, walsh};
use crate::qabase::{
    encoding_claims, encoding_read, QABaseEncodingRelationsBatchedWhtProof, QABaseEvalAuxLayout,
};
use crate::qabase_columns::{
    columns_fit, honest_selector_check_is_accepted, item1_read, queries_read, selector_of,
    selector_read, selector_terms, QABaseItem1VerifierOutput,
};
use crate::qabase_open::{
    encoding_checked, first_layout, opening_claims, opening_verified, second_layout, FullOpenRead,
    OpeningOutcomes,
};
use crate::qabase_relations::{
    batch_evaluates, batch_value, honest_scaling_is_accepted, honest_wht_is_accepted,
    minus_is_negative, outputs_at, scaling_polys, scaling_read, scaling_terms, wht_claim_holds,
    wht_polys, wht_read, wht_terms, QABaseBatchedWhtRelationProof, QABaseScalingRelationProof,
};
use crate::quasar::QABaseVerifierParams;
use crate::quasar_columns::{column_events, fold_columns, QueriesRead};
use crate::quasar_gkr::single_product_sum;
use crate::quasar_soundness::{canonical_columns, folded_at, places};
use crate::sampling::sampled_columns;
use crate::sumcheck::{
    cube_sum, cube_sum_nil, cube_sum_push, product_small, term_values, values_at, Term,
};
use crate::sumcheck_soundness::{accepted_claim_is_the_sum, strayed_before, sumcheck_extends};
use crate::transcript::{drawn, sent_fields, Event};
use crate::transcript_binding::{canonical_drawn, canonical_parts, canonical_steps};
use vstd::prelude::*;

verus! {

/// The Walsh-Hadamard transforms of vectors.
pub open spec fn transformed<F: Residue>(inputs: Seq<Seq<int>>) -> Seq<Seq<int>> {
    Seq::new(inputs.len(), |t: int| walsh::<F>(inputs[t]))
}

/// A message of the sum-check of the transforms strayed.
pub open spec fn transforms_strayed<F: PrimeField, O>(
    p: QABaseBatchedWhtRelationProof<F>,
    inputs: Seq<Seq<int>>,
    log0: Seq<Event<O>>,
    log1: Seq<Event<O>>,
) -> bool {
    strayed_before::<F, O>(
        wht_terms(inputs.len()),
        wht_polys::<F>(p.eta.val(), mat(p.gammas@), inputs),
        2,
        vals(p.sc_point@),
        log0 + drawn(seq![p.eta.val()]) + drawn(flatten(mat(p.gammas@))) + sent_fields(
            vals(p.output_evals_at_gammas@),
        ),
        sent_fields(vals(p.input_evals_at_sc_point@)),
        log1,
    )
}

/// An accepted check of the transforms, whose values of the inputs are true, claims
/// outputs whose weighted sum is that of the values of the transforms of the
/// inputs, unless a message of the sum-check strayed.
pub proof fn accepted_outputs_are_transforms<F: PrimeField, O>(
    p: QABaseBatchedWhtRelationProof<F>,
    inputs: Seq<Seq<int>>,
    num_vars: nat,
    log0: Seq<Event<O>>,
    log1: Seq<Event<O>>,
)
    requires
        2 * inputs.len() <= usize::MAX,
        rect(inputs, exp2(num_vars)),
        mcanon::<F>(inputs),
        wht_read::<F, O>(p, true, num_vars, inputs.len(), log0, log1),
        forall|t: int|
            0 <= t < inputs.len() ==> (#[trigger] p.input_evals_at_sc_point@[t]).val() == mle::<F>(
                inputs[t],
                vals(p.sc_point@),
            ),
    ensures
        batch_value::<F>(p.eta.val(), vals(p.output_evals_at_gammas@)) == batch_value::<F>(
            p.eta.val(),
            outputs_at::<F>(transformed::<F>(inputs), mat(p.gammas@)),
        ) || transforms_strayed::<F, O>(p, inputs, log0, log1),
{
    let k = inputs.len();
    let n = exp2(num_vars);
    let z = vals(p.sc_point@);
    let gammas = mat(p.gammas@);
    let polys = wht_polys::<F>(p.eta.val(), gammas, inputs);
    let start = log0 + drawn(seq![p.eta.val()]) + drawn(flatten(gammas)) + sent_fields(
        vals(p.output_evals_at_gammas@),
    );
    let mid = choose|mid: Seq<Event<O>>| #[trigger]
        sumcheck_verified::<F, O>(
            num_vars,
            2,
            p.claimed_sum.val(),
            p.terminal_eval.val(),
            z,
            start,
            mid,
        ) && log1 == mid + sent_fields(vals(p.input_evals_at_sc_point@));
    assert(vals(p.input_evals_at_sc_point@) =~= values_at::<F>(inputs, z));
    honest_wht_is_accepted::<F>(p.eta.val(), gammas, inputs, z);
    wht_claim_holds::<F>(p.eta.val(), gammas, inputs, transformed::<F>(inputs), num_vars);
    assert forall|s: int| 0 <= s < polys.len() implies (#[trigger] polys[s]).len() == n && vcanon::<
        F,
    >(polys[s]) by {
        assert(gammas[s / 2].len() == num_vars);
        had_evals_shape::<F>(gammas[s / 2]);
        assert(inputs[s / 2].len() == n && vcanon::<F>(inputs[s / 2]));
        broadcast use fmul_canon;

    }
    assert(terms_fit(wht_terms(k), polys.len(), 2));
    accepted_claim_is_the_sum::<F, O>(
        wht_terms(k),
        polys,
        2,
        p.claimed_sum.val(),
        p.terminal_eval.val(),
        z,
        start,
        mid,
    );
}

/// The sum of the scaling sum-check is the value at `beta` of the difference
/// between the combined scaled vectors and the products.
pub proof fn scaling_sum<F: Residue>(
    alpha: int,
    beta: Seq<int>,
    u: Seq<Seq<int>>,
    e: Seq<Seq<int>>,
    v: Seq<int>,
)
    requires
        v.len() == exp2(beta.len()),
    ensures
        ({
            let w = pows::<F>(alpha, e.len());
            cube_sum::<F>(
                scaling_terms::<F>(),
                scaling_polys::<F>(alpha, beta, u, e, v),
                exp2(beta.len()),
            ) == mle::<F>(
                vsub::<F>(
                    comb::<F>(w, u, v.len()),
                    vmul::<F>(comb::<F>(w, e, v.len()), v),
                ),
                beta,
            )
        }),
{
    let n = exp2(beta.len());
    let w = pows::<F>(alpha, e.len());
    let polys = scaling_polys::<F>(alpha, beta, u, e, v);
    let q = eq_evals::<F>(beta);
    let (ub, eb) = (comb::<F>(w, u, n), comb::<F>(w, e, n));
    comb_len::<F>(w, u, n);
    comb_len::<F>(w, e, n);
    let none = Seq::<Term>::empty();
    let (t0, t1) = (scaling_terms::<F>()[0], scaling_terms::<F>()[1]);
    assert(scaling_terms::<F>() =~= none.push(t0).push(t1));
    cube_sum_nil::<F>(polys, n);
    cube_sum_push::<F>(none, t0, polys, n);
    cube_sum_push::<F>(none.push(t0), t1, polys, n);
    let ev = vmul::<F>(eb, v);
    let a = vmul::<F>(q, ub);
    let c = vmul::<F>(q, ev);
    assert forall|j: int| 0 <= j < n implies term_values::<F>(t0, polys, n)[j] == a[j] by {
        let col = column(polys, j);
        eq_at_canon::<F>(j, beta);
        assert(col[0] == q[j] && col[1] == ub[j]);
        product_small::<F>(0, 1, 2, col);
        fmul_canon::<F>(q[j], ub[j]);
        f_units::<F>(a[j]);
    }
    assert(term_values::<F>(t0, polys, n) =~= a);
    let m = minus_one::<F>();
    assert forall|j: int| 0 <= j < n implies term_values::<F>(t1, polys, n)[j] == vscale::<F>(
        m,
        c,
    )[j] by {
        let col = column(polys, j);
        eq_at_canon::<F>(j, beta);
        assert(col[0] == q[j] && col[2] == eb[j] && col[3] == v[j]);
        product_small::<F>(0, 2, 3, col);
        fmul_assoc::<F>(q[j], eb[j], v[j]);
    }
    assert(term_values::<F>(t1, polys, n) =~= vscale::<F>(m, c));
    vsum_scale::<F>(m, c);
    vsum_canon::<F>(a);
    vsum_canon::<F>(c);
    f_units::<F>(vsum::<F>(a));
    minus_is_negative::<F>(vsum::<F>(a), vsum::<F>(c));
    dot_sub::<F>(ub, ev, q);
    dot_comm::<F>(ub, q);
    dot_comm::<F>(ev, q);
}

/// A message of the sum-check of the scaling strayed.
pub open spec fn scaling_strayed<F: PrimeField, O>(
    p: QABaseScalingRelationProof<F>,
    u: Seq<Seq<int>>,
    e: Seq<Seq<int>>,
    v: Seq<int>,
    log0: Seq<Event<O>>,
    log1: Seq<Event<O>>,
) -> bool {
    strayed_before::<F, O>(
        scaling_terms::<F>(),
        scaling_polys::<F>(p.alpha.val(), vals(p.beta@), u, e, v),
        3,
        vals(p.sc_point@),
        log0 + drawn(seq![p.alpha.val()]) + drawn(vals(p.beta@)),
        sent_fields(
            seq![p.v_prime_eval_at_sc_point.val(), p.u_prime_batch_eval_at_sc_point.val()],
        ) + sent_fields(vals(p.e_evals_at_sc_point@)),
        log1,
    )
}

/// An accepted check of the scaling, whose values are true, shows that the
/// combination of the scaled vectors is that of the coefficient vectors times the
/// transform, as far as their values at the point drawn tell, unless a message of
/// the sum-check strayed.
pub proof fn accepted_scaling_is_by_the_coefficients<F: PrimeField, O>(
    p: QABaseScalingRelationProof<F>,
    u: Seq<Seq<int>>,
    e: Seq<Seq<int>>,
    v: Seq<int>,
    num_vars: nat,
    log0: Seq<Event<O>>,
    log1: Seq<Event<O>>,
)
    requires
        u.len() == e.len(),
        v.len() == exp2(num_vars),
        vcanon::<F>(v),
        rect(u, exp2(num_vars)),
        rect(e, exp2(num_vars)),
        scaling_read::<F, O>(p, true, num_vars, e.len(), log0, log1),
        p.v_prime_eval_at_sc_point.val() == mle::<F>(v, vals(p.sc_point@)),
        p.u_prime_batch_eval_at_sc_point.val() == batch_value::<F>(
            p.alpha.val(),
            values_at::<F>(u, vals(p.sc_point@)),
        ),
        vals(p.e_evals_at_sc_point@) == values_at::<F>(e, vals(p.sc_point@)),
    ensures
        ({
            let w = pows::<F>(p.alpha.val(), e.len());
            let n = exp2(num_vars);
            ||| mle::<F>(
                vsub::<F>(comb::<F>(w, u, n), vmul::<F>(comb::<F>(w, e, n), v)),
                vals(p.beta@),
            ) == 0
            ||| scaling_strayed::<F, O>(p, u, e, v, log0, log1)
        }),
{
    let n = exp2(num_vars);
    let (alpha, beta, z) = (p.alpha.val(), vals(p.beta@), vals(p.sc_point@));
    let w = pows::<F>(alpha, e.len());
    let polys = scaling_polys::<F>(alpha, beta, u, e, v);
    let start = log0 + drawn(seq![alpha]) + drawn(beta);
    let first = sent_fields::<O>(
        seq![p.v_prime_eval_at_sc_point.val(), p.u_prime_batch_eval_at_sc_point.val()],
    );
    let rest = sent_fields::<O>(vals(p.e_evals_at_sc_point@));
    let mid = choose|mid: Seq<Event<O>>| #[trigger]
        sumcheck_verified::<F, O>(num_vars, 3, 0, p.terminal_eval.val(), z, start, mid) && log1
            == mid + first + rest;
    assert(mid + first + rest =~= mid + (first + rest));
    honest_scaling_is_accepted::<F>(alpha, beta, u, e, v, z);
    batch_evaluates::<F>(alpha, u, z);
    scaling_sum::<F>(alpha, beta, u, e, v);
    comb_len::<F>(w, u, n);
    comb_len::<F>(w, e, n);
    assert(vcanon::<F>(eq_evals::<F>(beta))) by {
        assert forall|i: int| 0 <= i < n implies canon::<F>(#[trigger] eq_evals::<F>(beta)[i]) by {
            eq_at_canon::<F>(i, beta);
        }
    }
    assert(terms_fit(scaling_terms::<F>(), 4, 3));
    accepted_claim_is_the_sum::<F, O>(
        scaling_terms::<F>(),
        polys,
        3,
        0,
        p.terminal_eval.val(),
        z,
        start,
        mid,
    );
}

/// An accepted selector check, whose values of the blocks are true, shows that the
/// folded columns are the entries of the codeword that the blocks make up at the
/// queried places, as far as one weighted sum over all places tells, unless a
/// message of the sum-check strayed.
pub proof fn accepted_folds_are_entries<F: PrimeField, O>(
    queries: Seq<int>,
    tau: int,
    folded: Seq<int>,
    blocks: Seq<Seq<int>>,
    num_vars: nat,
    z: Seq<int>,
    selector: int,
    word: int,
    values: Seq<int>,
    log0: Seq<Event<O>>,
    log1: Seq<Event<O>>,
)
    requires
        is_pow2(blocks.len() as int),
        rect(blocks, exp2(num_vars)),
        mcanon::<F>(blocks),
        forall|i: int|
            0 <= i < queries.len() ==> 0 <= #[trigger] queries[i] < blocks.len() * exp2(num_vars),
        selector_read::<F, O>(
            queries,
            tau,
            batch_value::<F>(tau, folded),
            num_vars,
            blocks.len(),
            z,
            selector,
            word,
            values,
            true,
            log0,
            log1,
        ),
        forall|b: int|
            0 <= b < blocks.len() ==> #[trigger] values[b] == mle::<F>(
                blocks[b],
                z.take(num_vars as int),
            ),
    ensures
        batch_value::<F>(tau, folded) == batch_value::<F>(
            tau,
            entries_at(flatten(blocks), queries),
        ) || strayed_before::<F, O>(
            selector_terms(),
            seq_of(selector_of::<F>(queries, tau, blocks.len() * exp2(num_vars)), flatten(blocks)),
            2,
            z,
            log0,
            seq![Event::Field(word)] + sent_fields(values),
            log1,
        ),
{
    let n = exp2(num_vars);
    let rho = blocks.len();
    let claim = batch_value::<F>(tau, folded);
    let w = flatten(blocks);
    let s = selector_of::<F>(queries, tau, rho * n);
    let (local, block) = (z.take(num_vars as int), z.skip(num_vars as int));
    let (terminal, mid) = choose|terminal: int, mid: Seq<Event<O>>|
        {
            &&& #[trigger] sumcheck_verified::<F, O>(z.len(), 2, claim, terminal, z, log0, mid)
            &&& columns_fit::<F>(terminal, selector, word, values, block)
            &&& log1 == mid.push(Event::Field(word)) + sent_fields(values)
        };
    assert(log1 =~= mid + (seq![Event::Field(word)] + sent_fields(values)));
    flatten_len(blocks, n);
    flatten_canon::<F>(blocks, n);
    pow2_is_exp2(rho as int);
    exp2_adds(num_vars, log2(rho as int));
    assert(n * rho == rho * n) by (nonlinear_arith);
    assert(local + block =~= z);
    mle_row_major::<F>(blocks, n, local, block);
    dot_comb::<F>(eq_evals::<F>(block), blocks, n, eq_evals::<F>(local));
    assert(Seq::new(rho, |i: int| dot::<F>(blocks[i], eq_evals::<F>(local))) =~= values);
    honest_selector_check_is_accepted::<F>(s, w, z);
    pows_step::<F>(tau, queries.len());
    assert forall|i: int| 0 <= i < queries.len() implies 0 <= #[trigger] queries[i] < rho * n by {
        assert(0 <= queries[i] < blocks.len() * exp2(num_vars));
    }
    mask_canon::<F>(queries, pows::<F>(tau, queries.len()), rho * n);
    mask_picks::<F>(queries, pows::<F>(tau, queries.len()), w);
    single_product_sum::<F>(s, w, rho * n);
    assert(terms_fit(selector_terms(), 2, 2));
    accepted_claim_is_the_sum::<F, O>(
        selector_terms(),
        seq![s, w],
        2,
        claim,
        terminal,
        z,
        log0,
        mid,
    );
}

/// The flattened rows of a canonical matrix are canonical.
proof fn flatten_canon<F: Residue>(rows: Seq<Seq<int>>, n: nat)
    requires
        rect(rows, n),
        mcanon::<F>(rows),
    ensures
        vcanon::<F>(flatten(rows)),
    decreases rows.len(),
{
    if rows.len() > 0 {
        let front = rows.drop_last();
        assert forall|i: int| 0 <= i < front.len() implies vcanon::<F>(#[trigger] front[i])
            && front[i].len() == n by {
            assert(front[i] == rows[i]);
        }
        flatten_canon::<F>(front, n);
        assert(vcanon::<F>(rows[rows.len() - 1]));
    }
}

/// The columns read for an accepted column check are those of the committed matrix
/// at the places that the challenges select, as many as the parameters say, or
/// the hash function has a collision.
pub proof fn accepted_columns_are_committed<F: PrimeField, H: HashFunction, C>(
    out: QABaseItem1VerifierOutput<F>,
    ok: bool,
    vp: QABaseVerifierParams<F, C>,
    rows: Seq<Seq<int>>,
    row_challenges: Seq<int>,
    d: QueriesRead<H::Output>,
    log0: Seq<Event<H::Output>>,
    log1: Seq<Event<H::Output>>,
)
    requires
        vp.wf(),
        rows.len() == vp.num_rows,
        rect(rows, (vp.inverse_rate * exp2(vp.num_vars as nat)) as nat),
        mcanon::<F>(rows),
        item1_read::<F, H, C>(
            out,
            ok,
            vp,
            root::<H>(
                column_leaves::<F, H>(rows, (vp.inverse_rate * exp2(vp.num_vars as nat)) as nat),
            ),
            row_challenges,
            d,
            log0,
            log1,
        ),
        canonical_steps::<F, H::Output>(log1),
    ensures
        ({
            let num_cols = vp.inverse_rate * exp2(vp.num_vars as nat);
            let at = places(d.challenges, num_cols);
            &&& at.len() == vp.num_queries
            &&& ints(out.query_indices@) == at
            &&& forall|s: int| 0 <= s < at.len() ==> 0 <= #[trigger] at[s] < num_cols
            &&& collision::<H>() || forall|w: Seq<int>| #[trigger]
                fold_columns::<F>(w, mat(out.opened_columns@)) == folded_at::<F>(w, rows, at)
        }),
{
    let num_cols = vp.inverse_rate * exp2(vp.num_vars as nat);
    let at = places(d.challenges, num_cols);
    let q = ints(out.query_indices@);
    let log = choose|log: Seq<Event<H::Output>>|
        {
            &&& #[trigger] queries_read(
                d,
                vp.num_queries as nat,
                vp.num_queries as nat,
                vp.num_rows as nat,
                log2(num_cols),
                log0,
                log,
            )
            &&& selector_read::<F, H::Output>(
                q,
                out.tau.val(),
                batch_value::<F>(out.tau.val(), vals(out.folded_values@)),
                vp.num_vars as nat,
                vp.inverse_rate as nat,
                vals(out.sc_point@),
                out.selector_eval_at_sc_point.val(),
                out.u_eval_at_sc_point.val(),
                vals(out.u_block_evals_at_sc_point@),
                ok,
                log + drawn(seq![out.tau.val()]),
                log1,
            )
        };
    let claim = batch_value::<F>(out.tau.val(), vals(out.folded_values@));
    let z = vals(out.sc_point@);
    let word = out.u_eval_at_sc_point.val();
    let values = vals(out.u_block_evals_at_sc_point@);
    let start = log + drawn(seq![out.tau.val()]);
    let (terminal, mid) = choose|terminal: int, mid: Seq<Event<H::Output>>|
        {
            &&& #[trigger] sumcheck_verified::<F, H::Output>(
                z.len(),
                2,
                claim,
                terminal,
                z,
                start,
                mid,
            )
            &&& log1 == mid.push(Event::Field(word)) + sent_fields(values)
        };
    sumcheck_extends::<F, H::Output>(z.len(), 2, claim, terminal, z, start, mid);
    assert(log1 =~= mid + (seq![Event::Field(word)] + sent_fields(values)));
    canonical_parts::<F, H::Output>(mid, seq![Event::Field(word)] + sent_fields(values));
    canonical_parts::<F, H::Output>(log, drawn(seq![out.tau.val()]));
    canonical_parts::<F, H::Output>(log0 + drawn(d.challenges), column_events(d.paths, d.cols));
    canonical_parts::<F, H::Output>(log0, drawn(d.challenges));
    canonical_drawn::<F, H::Output>(d.challenges);
    exp2_is_pow2(vp.num_vars as nat);
    assert forall|s: int| 0 <= s < at.len() implies q[s] == at[s] && 0 <= #[trigger] at[s]
        < num_cols by {
        sampled_columns::<F>(d.challenges, num_cols, s);
    }
    assert(q =~= at);
    if !collision::<H>() {
        assert forall|s: int| 0 <= s < d.cols.len() implies #[trigger] d.cols[s] == column(
            rows,
            at[s],
        ) by {
            assert(0 <= at[s] < num_cols);
            canonical_columns::<F, H::Output>(d.paths, d.cols, s);
            assert(d.paths[s].len() == log2(num_cols));
            opened_column_is_committed::<F, H>(
                rows,
                num_cols as nat,
                at[s],
                d.cols[s],
                d.paths[s],
            );
        }
        assert forall|w: Seq<int>| #[trigger]
            fold_columns::<F>(w, mat(out.opened_columns@)) == folded_at::<F>(w, rows, at) by {
            assert(fold_columns::<F>(w, d.cols) =~= folded_at::<F>(w, rows, at));
        }
    }
}

/// The inputs of the transforms of an encoding: the message and the scaled blocks.
pub open spec fn transform_inputs(
    layout: QABaseEvalAuxLayout,
    polys: Seq<Seq<int>>,
) -> Seq<Seq<int>> {
    Seq::new(
        layout.rho as nat,
        |t: int|
            if t == 0 {
                polys[layout.block(0)]
            } else {
                polys[layout.u_prime(t - 1)]
            },
    )
}

/// The outputs of the transforms of an encoding: the transform and the parity
/// blocks.
pub open spec fn transform_outputs(
    layout: QABaseEvalAuxLayout,
    polys: Seq<Seq<int>>,
) -> Seq<Seq<int>> {
    Seq::new(
        layout.rho as nat,
        |t: int|
            if t == 0 {
                polys[layout.v_prime()]
            } else {
                polys[layout.block(t)]
            },
    )
}

/// The scaled blocks of an encoding.
pub open spec fn scaled_of(layout: QABaseEvalAuxLayout, polys: Seq<Seq<int>>) -> Seq<Seq<int>> {
    Seq::new((layout.rho - 1) as nat, |i: int| polys[layout.u_prime(i)])
}

/// The coefficient vectors of an encoding.
pub open spec fn coefficients_of(
    layout: QABaseEvalAuxLayout,
    polys: Seq<Seq<int>>,
) -> Seq<Seq<int>> {
    Seq::new((layout.rho - 1) as nat, |i: int| polys[layout.e(i)])
}

/// The relations of an encoding hold of the polynomials as far as the challenges of
/// a proof tell: the outputs are the transforms of the inputs, and the scaled blocks
/// are the coefficient vectors times the transform of the message.
pub open spec fn encoding_shown<F: PrimeField>(
    p: QABaseEncodingRelationsBatchedWhtProof<F>,
    layout: QABaseEvalAuxLayout,
    polys: Seq<Seq<int>>,
    num_vars: nat,
) -> bool {
    let n = exp2(num_vars);
    let gammas = mat(p.batched_wht.gammas@);
    let eta = p.batched_wht.eta.val();
    let w = pows::<F>(p.scaling.alpha.val(), (layout.rho - 1) as nat);
    &&& batch_value::<F>(eta, outputs_at::<F>(transform_outputs(layout, polys), gammas))
        == batch_value::<F>(
        eta,
        outputs_at::<F>(transformed::<F>(transform_inputs(layout, polys)), gammas),
    )
    &&& mle::<F>(
        vsub::<F>(
            comb::<F>(w, scaled_of(layout, polys), n),
            vmul::<F>(comb::<F>(w, coefficients_of(layout, polys), n), polys[layout.v_prime()]),
        ),
        vals(p.scaling.beta@),
    ) == 0
}

/// One of the two sum-checks of an encoding holds a message that strayed.
pub open spec fn encoding_strayed<F: PrimeField, O>(
    p: QABaseEncodingRelationsBatchedWhtProof<F>,
    us: Seq<int>,
    layout: QABaseEvalAuxLayout,
    polys: Seq<Seq<int>>,
    log0: Seq<Event<O>>,
    log1: Seq<Event<O>>,
) -> bool {
    exists|mid: Seq<Event<O>>, end: Seq<Event<O>>|
        #![trigger mid + end]
        log1 == mid + end && {
            ||| transforms_strayed::<F, O>(
                p.batched_wht,
                transform_inputs(layout, polys),
                log0,
                mid,
            )
            ||| exists|log: Seq<Event<O>>| #[trigger]
                scaling_strayed::<F, O>(
                    p.scaling,
                    scaled_of(layout, polys),
                    coefficients_of(layout, polys),
                    polys[layout.v_prime()],
                    log,
                    mid,
                )
        }
}

/// An accepted proof of an encoding all of whose claims are true shows the relations
/// of the encoding, unless a message of one of its sum-checks strayed.
pub proof fn accepted_encoding_is_of_the_code<F: PrimeField, O>(
    p: QABaseEncodingRelationsBatchedWhtProof<F>,
    us: Seq<int>,
    layout: QABaseEvalAuxLayout,
    polys: Seq<Seq<int>>,
    num_vars: nat,
    log0: Seq<Event<O>>,
    log1: Seq<Event<O>>,
)
    requires
        layout.wf(),
        forall|k: int| 0 <= k < layout.rho ==> sized_poly::<F>(
            #[trigger] polys[layout.block(k)],
            num_vars,
        ),
        sized_poly::<F>(polys[layout.v_prime()], num_vars),
        forall|k: int| 0 <= k < layout.rho - 1 ==> sized_poly::<F>(
            #[trigger] polys[layout.u_prime(k)],
            num_vars,
        ),
        forall|k: int| 0 <= k < layout.rho - 1 ==> sized_poly::<F>(
            #[trigger] polys[layout.e(k)],
            num_vars,
        ),
        encoding_checked::<F, O>(p, us, true, true, num_vars, layout.rho as nat, log0, log1),
        forall|i: int|
            0 <= i < encoding_claims(layout, p, us).len() ==> (#[trigger] encoding_claims(
                layout,
                p,
                us,
            )[i]).is_true::<F>(polys),
    ensures
        encoding_shown(p, layout, polys, num_vars) || encoding_strayed::<F, O>(
            p,
            us,
            layout,
            polys,
            log0,
            log1,
        ),
{
    let n = exp2(num_vars);
    let rho = layout.rho as int;
    let (t, s) = (p.batched_wht, p.scaling);
    let gammas = mat(t.gammas@);
    let claims = encoding_claims(layout, p, us);
    let ins = transform_inputs(layout, polys);
    let outs = transform_outputs(layout, polys);
    let (u, e) = (scaled_of(layout, polys), coefficients_of(layout, polys));
    let v = polys[layout.v_prime()];
    let (z, y) = (vals(t.sc_point@), vals(s.sc_point@));
    let end = choose|end: Seq<Event<O>>| #[trigger]
        encoding_read::<F, O>(p, true, num_vars, rho as nat, log0, end) && log1 == end + sent_fields(
            us,
        );
    let (mid, ok1, ok2) = choose|mid: Seq<Event<O>>, ok1: bool, ok2: bool|
        {
            &&& #[trigger] wht_read::<F, O>(t, ok1, num_vars, rho as nat, log0, mid)
            &&& #[trigger] scaling_read::<F, O>(s, ok2, num_vars, (rho - 1) as nat, mid, end)
            &&& ok1 && ok2
        };
    assert(claims.len() == 2 * rho + 1 + (rho - 1) + (rho - 1));
    assert forall|k: int| 0 <= k < rho implies sized_poly::<F>(#[trigger] ins[k], num_vars) by {
        if k == 0 {
            assert(sized_poly::<F>(polys[layout.block(0)], num_vars));
        } else {
            assert(sized_poly::<F>(polys[layout.u_prime(k - 1)], num_vars));
        }
    }
    assert forall|k: int| 0 <= k < rho implies #[trigger] t.output_evals_at_gammas@[k].val()
        == mle::<F>(outs[k], gammas[k]) && t.input_evals_at_sc_point@[k].val() == mle::<F>(
        ins[k],
        z,
    ) by {
        assert((2 * k) / 2 == k && (2 * k) % 2 == 0);
        assert((2 * k + 1) / 2 == k && (2 * k + 1) % 2 == 1);
        assert(claims[2 * k].is_true::<F>(polys));
        assert(claims[2 * k + 1].is_true::<F>(polys));
    }
    assert forall|k: int| 0 <= k < rho implies #[trigger] t.input_evals_at_sc_point@[k].val()
        == mle::<F>(ins[k], z) by {
        assert(t.output_evals_at_gammas@[k].val() == mle::<F>(outs[k], gammas[k]));
    }
    assert(vals(t.output_evals_at_gammas@) =~= outputs_at::<F>(outs, gammas));
    assert(claims[2 * rho].is_true::<F>(polys));
    assert(s.v_prime_eval_at_sc_point.val() == mle::<F>(v, y));
    assert forall|i: int| 0 <= i < rho - 1 implies us[i] == #[trigger] values_at::<F>(u, y)[i] by {
        assert(claims[2 * rho + 1 + i].is_true::<F>(polys));
    }
    assert(us =~= values_at::<F>(u, y));
    assert forall|i: int| 0 <= i < rho - 1 implies vals(s.e_evals_at_sc_point@)[i]
        == #[trigger] values_at::<F>(e, y)[i] by {
        assert(claims[2 * rho + 1 + (rho - 1) + i].is_true::<F>(polys));
    }
    assert(vals(s.e_evals_at_sc_point@) =~= values_at::<F>(e, y));
    assert forall|i: int| 0 <= i < u.len() implies (#[trigger] u[i]).len() == n by {
        assert(sized_poly::<F>(polys[layout.u_prime(i)], num_vars));
    }
    assert forall|i: int| 0 <= i < e.len() implies (#[trigger] e[i]).len() == n by {
        assert(sized_poly::<F>(polys[layout.e(i)], num_vars));
    }
    assert forall|i: int| 0 <= i < ins.len() implies (#[trigger] ins[i]).len() == n && vcanon::<F>(
        ins[i],
    ) by {
        assert(sized_poly::<F>(ins[i], num_vars));
    }
    accepted_outputs_are_transforms::<F, O>(t, ins, num_vars, log0, mid);
    accepted_scaling_is_by_the_coefficients::<F, O>(s, u, e, v, num_vars, mid, end);
    if !encoding_shown(p, layout, polys, num_vars) {
        assert(log1 == end + sent_fields(us));
        if batch_value::<F>(t.eta.val(), vals(t.output_evals_at_gammas@)) == batch_value::<F>(
            t.eta.val(),
            outputs_at::<F>(transformed::<F>(ins), gammas),
        ) {
            assert(encoding_strayed::<F, O>(p, us, layout, polys, log0, log1));
        } else {
            scaling_extends::<F, O>(s, true, num_vars, (rho - 1) as nat, mid, end);
            let rest = end.skip(mid.len() as int) + sent_fields(us);
            assert(log1 =~= mid + rest);
            assert(encoding_strayed::<F, O>(p, us, layout, polys, log0, log1));
        }
    }
}

/// The steps of a scaling check begin with those before it.
proof fn scaling_extends<F: PrimeField, O>(
    p: QABaseScalingRelationProof<F>,
    ok: bool,
    num_vars: nat,
    num_vectors: nat,
    log0: Seq<Event<O>>,
    log1: Seq<Event<O>>,
)
    requires
        scaling_read::<F, O>(p, ok, num_vars, num_vectors, log0, log1),
    ensures
        log0.len() <= log1.len(),
        log1.take(log0.len() as int) == log0,
{
    let z = vals(p.sc_point@);
    let start = log0 + drawn(seq![p.alpha.val()]) + drawn(vals(p.beta@));
    let mid = choose|mid: Seq<Event<O>>| #[trigger]
        sumcheck_verified::<F, O>(num_vars, 3, 0, p.terminal_eval.val(), z, start, mid) && log1
            == mid + sent_fields(
            seq![p.v_prime_eval_at_sc_point.val(), p.u_prime_batch_eval_at_sc_point.val()],
        ) + sent_fields(vals(p.e_evals_at_sc_point@));
    let m = choose|m: Seq<Seq<int>>| #[trigger]
        rounds_accepted::<F, O>(num_vars, 3, 0, p.terminal_eval.val(), z, m, start, mid);
    assert(mid == start + round_events(m, z));
    assert(log1.take(log0.len() as int) =~= log0);
}

/// A canonical vector of values on the hypercube.
pub open spec fn sized_poly<F: Residue>(v: Seq<int>, num_vars: nat) -> bool {
    v.len() == exp2(num_vars) && vcanon::<F>(v)
}

/// The blocks of the codeword of an encoding.
pub open spec fn blocks_of(layout: QABaseEvalAuxLayout, polys: Seq<Seq<int>>) -> Seq<Seq<int>> {
    Seq::new(layout.rho as nat, |b: int| polys[layout.block(b)])
}

/// A combination of the committed rows and the codeword of an encoding agree at the
/// given places, as far as one weighted sum over all places tells.
pub open spec fn folds_agree<F: PrimeField>(
    tau: int,
    w: Seq<int>,
    rows: Seq<Seq<int>>,
    blocks: Seq<Seq<int>>,
    at: Seq<int>,
) -> bool {
    batch_value::<F>(tau, folded_at::<F>(w, rows, at)) == batch_value::<F>(
        tau,
        entries_at(flatten(blocks), at),
    )
}

/// A message of a selector sum-check strayed.
pub open spec fn selector_strayed<F: PrimeField, O>(
    at: Seq<int>,
    tau: int,
    blocks: Seq<Seq<int>>,
    num_vars: nat,
    z: Seq<int>,
    log1: Seq<Event<O>>,
) -> bool {
    exists|log0: Seq<Event<O>>, tail: Seq<Event<O>>| #[trigger]
        strayed_before::<F, O>(
            selector_terms(),
            seq_of(selector_of::<F>(at, tau, blocks.len() * exp2(num_vars)), flatten(blocks)),
            2,
            z,
            log0,
            tail,
            log1,
        )
}

/// Two polynomials.
pub open spec fn seq_of(a: Seq<int>, b: Seq<int>) -> Seq<Seq<int>> {
    seq![a, b]
}

/// All polynomials of an encoding have canonical values on the hypercube.
pub open spec fn encoding_sized<F: PrimeField>(
    layout: QABaseEvalAuxLayout,
    polys: Seq<Seq<int>>,
    num_vars: nat,
) -> bool {
    &&& layout.wf()
    &&& forall|k: int| 0 <= k < layout.rho ==> sized_poly::<F>(
        #[trigger] polys[layout.block(k)],
        num_vars,
    )
    &&& sized_poly::<F>(polys[layout.v_prime()], num_vars)
    &&& forall|k: int| 0 <= k < layout.rho - 1 ==> sized_poly::<F>(
        #[trigger] polys[layout.u_prime(k)],
        num_vars,
    )
    &&& forall|k: int| 0 <= k < layout.rho - 1 ==> sized_poly::<F>(
        #[trigger] polys[layout.e(k)],
        num_vars,
    )
}

/// An accepted opening all of whose claims are true shows, unless the hash function
/// has a collision or a message of a sum-check strayed: both encodings are of the
/// code, each agrees with its combination of the committed rows at the places that
/// the challenges select, and the message of the second has the claimed value.
pub proof fn accepted_opening_is_of_the_committed<F: PrimeField, H: HashFunction, C>(
    vp: QABaseVerifierParams<F, C>,
    rows: Seq<Seq<int>>,
    row_challenges: Seq<int>,
    row_weights: Seq<int>,
    z_right: Seq<int>,
    value: int,
    out: FullOpenRead<F>,
    us: Seq<int>,
    ws: Seq<int>,
    found: OpeningOutcomes,
    d: QueriesRead<H::Output>,
    set: ClaimSet,
    polys: Seq<Seq<int>>,
    log0: Seq<Event<H::Output>>,
    first_end: Seq<Event<H::Output>>,
    second_end: Seq<Event<H::Output>>,
    columns_end: Seq<Event<H::Output>>,
    log1: Seq<Event<H::Output>>,
)
    requires
        vp.wf(),
        rows.len() == vp.num_rows,
        rect(rows, (vp.inverse_rate * exp2(vp.num_vars as nat)) as nat),
        mcanon::<F>(rows),
        encoding_sized::<F>(first_layout(vp.inverse_rate), polys, vp.num_vars as nat),
        encoding_sized::<F>(second_layout(vp.inverse_rate), polys, vp.num_vars as nat),
        opening_verified::<F, H, C>(
            vp,
            root::<H>(
                column_leaves::<F, H>(rows, (vp.inverse_rate * exp2(vp.num_vars as nat)) as nat),
            ),
            row_challenges,
            row_weights,
            z_right,
            value,
            out,
            us,
            ws,
            found,
            d,
            set,
            log0,
            first_end,
            second_end,
            columns_end,
            log1,
        ),
        found.all(),
        canonical_steps::<F, H::Output>(columns_end),
        ({
            let claims = opening_claims(
                vp.inverse_rate,
                out.encoding_relations,
                us,
                out.eval_encoding_relations,
                ws,
                vals(out.item1.sc_point@).take(vp.num_vars as int),
                vals(out.item1.u_block_evals_at_sc_point@),
                vals(out.eval_item1->Some_0.sc_point@).take(vp.num_vars as int),
                vals(out.eval_item1->Some_0.q_block_evals_at_sc_point@),
                z_right,
                value,
            );
            forall|i: int| 0 <= i < claims.len() ==> (#[trigger] claims[i]).is_true::<F>(polys)
        }),
    ensures
        ({
            let (first, second) = (first_layout(vp.inverse_rate), second_layout(vp.inverse_rate));
            let at = places(d.challenges, vp.inverse_rate * exp2(vp.num_vars as nat));
            let n = vp.num_vars as nat;
            let tau = out.item1.tau.val();
            &&& at.len() == vp.num_queries
            &&& value == mle::<F>(polys[second.block(0)], z_right)
            &&& encoding_shown(out.encoding_relations, first, polys, n) || encoding_strayed::<
                F,
                H::Output,
            >(out.encoding_relations, us, first, polys, log0, first_end)
            &&& encoding_shown(out.eval_encoding_relations, second, polys, n) || encoding_strayed::<
                F,
                H::Output,
            >(out.eval_encoding_relations, ws, second, polys, first_end, second_end)
            &&& folds_agree::<F>(tau, row_challenges, rows, blocks_of(first, polys), at)
                || collision::<H>() || selector_strayed::<F, H::Output>(
                at,
                tau,
                blocks_of(first, polys),
                n,
                vals(out.item1.sc_point@),
                columns_end,
            )
            &&& folds_agree::<F>(tau, row_weights, rows, blocks_of(second, polys), at)
                || collision::<H>() || selector_strayed::<F, H::Output>(
                at,
                tau,
                blocks_of(second, polys),
                n,
                vals(out.eval_item1->Some_0.sc_point@),
                log1,
            )
        }),
{
    let (first, second) = (first_layout(vp.inverse_rate), second_layout(vp.inverse_rate));
    let n = vp.num_vars as nat;
    let rho = vp.inverse_rate as int;
    let num_cols = vp.inverse_rate * exp2(n);
    let at = places(d.challenges, num_cols);
    let tau = out.item1.tau.val();
    let (p, q) = (out.encoding_relations, out.eval_encoding_relations);
    let (c1, c2) = (encoding_claims(first, p, us), encoding_claims(second, q, ws));
    let (y1, y2) = (vals(out.item1.sc_point@), vals(out.eval_item1->Some_0.sc_point@));
    let v1 = vals(out.item1.u_block_evals_at_sc_point@);
    let v2 = vals(out.eval_item1->Some_0.q_block_evals_at_sc_point@);
    let (z1, z2) = (y1.take(n as int), y2.take(n as int));
    let claims = opening_claims(vp.inverse_rate, p, us, q, ws, z1, v1, z2, v2, z_right, value);
    let k = 4 * rho - 1;
    assert(c1.len() == k && c2.len() == k);
    assert(claims.len() == 2 * k + 2 * rho + 1);
    assert(claims[2 * k + 2 * rho].is_true::<F>(polys));
    assert forall|i: int| 0 <= i < c1.len() implies (#[trigger] c1[i]).is_true::<F>(polys) by {
        assert(claims[i] == c1[i]);
    }
    assert forall|i: int| 0 <= i < c2.len() implies (#[trigger] c2[i]).is_true::<F>(polys) by {
        assert(claims[k + i] == c2[i]);
    }
    accepted_encoding_is_of_the_code::<F, H::Output>(p, us, first, polys, n, log0, first_end);
    accepted_encoding_is_of_the_code::<F, H::Output>(
        q,
        ws,
        second,
        polys,
        n,
        first_end,
        second_end,
    );
    accepted_columns_are_committed::<F, H, C>(
        out.item1,
        true,
        vp,
        rows,
        row_challenges,
        d,
        second_end,
        columns_end,
    );
    let (b1, b2) = (blocks_of(first, polys), blocks_of(second, polys));
    assert forall|b: int| 0 <= b < rho implies sized_poly::<F>(#[trigger] b1[b], n)
        && #[trigger] v1[b] == mle::<F>(b1[b], z1) by {
        assert(sized_poly::<F>(polys[first.block(b)], n));
        assert(claims[2 * k + b].is_true::<F>(polys));
    }
    assert forall|b: int| 0 <= b < rho implies sized_poly::<F>(#[trigger] b2[b], n)
        && #[trigger] v2[b] == mle::<F>(b2[b], z2) by {
        assert(sized_poly::<F>(polys[second.block(b)], n));
        assert(claims[2 * k + rho + b].is_true::<F>(polys));
    }
    let log = choose|log: Seq<Event<H::Output>>|
        {
            &&& #[trigger] queries_read(
                d,
                vp.num_queries as nat,
                vp.num_queries as nat,
                vp.num_rows as nat,
                log2(num_cols),
                second_end,
                log,
            )
            &&& selector_read::<F, H::Output>(
                ints(out.item1.query_indices@),
                tau,
                batch_value::<F>(tau, vals(out.item1.folded_values@)),
                n,
                rho as nat,
                y1,
                out.item1.selector_eval_at_sc_point.val(),
                out.item1.u_eval_at_sc_point.val(),
                v1,
                true,
                log + drawn(seq![tau]),
                columns_end,
            )
        };
    accepted_folds_are_entries::<F, H::Output>(
        at,
        tau,
        vals(out.item1.folded_values@),
        b1,
        n,
        y1,
        out.item1.selector_eval_at_sc_point.val(),
        out.item1.u_eval_at_sc_point.val(),
        v1,
        log + drawn(seq![tau]),
        columns_end,
    );
    let e = out.eval_item1->Some_0;
    accepted_folds_are_entries::<F, H::Output>(
        at,
        tau,
        fold_columns::<F>(row_weights, mat(out.item1.opened_columns@)),
        b2,
        n,
        y2,
        e.selector_eval_at_sc_point.val(),
        e.q_eval_at_sc_point.val(),
        v2,
        columns_end,
        log1,
    );
}

} // verus!
