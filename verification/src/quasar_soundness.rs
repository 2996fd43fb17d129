//! What an accepted opening of an encoded polynomial shows.

use crate::binding::opened_column_is_committed;
use crate::brakingbase_checks::entries_at;
use crate::classic_sumcheck::terms_fit;
use crate::field::{f_units, fadd, fmul, fmul_canon, PrimeField};
use crate::hash::{collision, HashFunction};
use crate::linear::{
    column, comb, comb_len, dot, dot_canon, dot_comb, flatten, ints, mat, mcanon, pows, rect, vals,
    vcanon,
};
use crate::merkle::{column_leaves, root};
use crate::mle::{
    eq_evals, exp2, exp2_is_pow2, had_evals, had_evals_shape, log2, mle, mle_of_had_evals,
};
use crate::qa_code::{flatten_entry, flatten_len, walsh_shape};
use crate::quasar::QABaseVerifierParams;
use crate::quasar_columns::{
    alternate, column_events, entries_of, fold_columns, folded_blocks,
    honest_merged_check_is_accepted, merged_polys, merged_sum, merged_terms, merged_verified,
    selector_shape, MergedColumnsVerifier, QABaseMergedColumnConsistencyOutput, QueriesRead,
};
use crate::quasar_gkr::{
    flat_outputs, flat_split, gkr_claims, gkr_verified, inner_sum, inputs_of, instance_weights,
    outer_factors, outer_polys, outer_sum, outer_terms, transforms, true_outputs, GkrChallenges,
    QABaseTwoLayerGkrLayout, QABaseTwoLayerGkrProof,
};
use crate::quasar_open::{full_claims, full_verified};
use crate::sampling::sampled_columns;
use crate::sumcheck::{product_small, summand, summand_push, values_at, Term};
use crate::sumcheck_soundness::{accepted_claim_is_the_sum, sumcheck_extends, sumcheck_strayed};
use crate::transcript::{drawn, sent_commitments, sent_fields, Event};
use crate::transcript_binding::{canonical_drawn, canonical_parts, canonical_sent, canonical_steps};
use vstd::prelude::*;

verus! {

/// The term of the inner sum-check.
pub open spec fn inner_terms() -> Seq<Term> {
    seq![Term { coeff: 1, factors: seq![0usize, 1usize] }]
}

/// The polynomials of the inner sum-check.
pub open spec fn inner_polys<F: PrimeField>(
    ch: GkrChallenges<F>,
    inputs: Seq<Seq<int>>,
    e: Seq<Seq<int>>,
    z: Seq<int>,
) -> Seq<Seq<int>> {
    let w = instance_weights(ch, z, values_at::<F>(e, z), inputs.len(), e.len());
    seq![had_evals::<F>(z), comb::<F>(w, inputs, exp2(z.len()))]
}

/// An accepted proof of the two layers, whose values of the inputs and of the
/// coefficient vectors are true, claims outputs whose weighted sum is that of the
/// values of the parity blocks of the inputs, unless a message of one of the
/// two sum-checks strayed.
pub proof fn accepted_outputs_are_those_of_the_code<F: PrimeField, O>(
    p: QABaseTwoLayerGkrProof<F>,
    ch: GkrChallenges<F>,
    inputs: Seq<Seq<int>>,
    e: Seq<Seq<int>>,
    num_vars: nat,
    log0: Seq<Event<O>>,
    outer_end: Seq<Event<O>>,
    inner_end: Seq<Event<O>>,
    log1: Seq<Event<O>>,
)
    requires
        e.len() > 0,
        inputs.len() + inputs.len() * e.len() + e.len() <= usize::MAX,
        rect(inputs, exp2(num_vars)),
        rect(e, exp2(num_vars)),
        forall|b: int| 0 <= b < inputs.len() ==> vcanon::<F>(#[trigger] inputs[b]),
        forall|i: int| 0 <= i < e.len() ==> vcanon::<F>(#[trigger] e[i]),
        gkr_verified::<F, O>(
            true,
            p,
            ch,
            num_vars,
            inputs.len(),
            e.len(),
            log0,
            outer_end,
            inner_end,
            log1,
        ),
        forall|b: int|
            0 <= b < inputs.len() ==> (#[trigger] p.input_evals_at_inner_point@[b]).val() == mle::<F>(
                inputs[b],
                vals(p.inner_point@),
            ),
        forall|i: int|
            0 <= i < e.len() ==> (#[trigger] p.e_evals_at_outer_point@[i]).val() == mle::<F>(
                e[i],
                vals(p.outer_point@),
            ),
    ensures
        ({
            let z = vals(p.outer_point@);
            let y = vals(p.inner_point@);
            ||| dot::<F>(
                ch.weights(inputs.len(), e.len()),
                flatten(mat(p.output_evals_at_gammas@)),
            ) == dot::<F>(ch.weights(inputs.len(), e.len()), true_outputs(ch, inputs, e))
            ||| sumcheck_strayed::<F, O>(
                outer_terms(inputs.len(), e.len()),
                outer_polys(ch, transforms::<F>(inputs), e, inputs.len(), e.len()),
                3,
                z,
                log0 + ch.events::<O>() + sent_fields(flat_outputs(p.output_evals_at_gammas@)),
                outer_end,
            )
            ||| sumcheck_strayed::<F, O>(
                inner_terms(),
                inner_polys(ch, inputs, e, z),
                2,
                y,
                outer_end + sent_fields(vals(p.e_evals_at_outer_point@)),
                inner_end,
            )
        }),
{
    let (k, np) = (inputs.len(), e.len());
    let n = exp2(num_vars);
    let z = vals(p.outer_point@);
    let y = vals(p.inner_point@);
    let ev = values_at::<F>(e, z);
    assert(vals(p.e_evals_at_outer_point@) =~= ev);
    let w = instance_weights(ch, z, ev, k, np);
    let ins = Seq::new(k, |b: int| mle::<F>(inputs[b], y));
    assert(vals(p.input_evals_at_inner_point@) =~= ins);
    let ips = inner_polys(ch, inputs, e, z);
    let c = comb::<F>(w, inputs, n);
    let last = values_at::<F>(ips, y);
    let eqs = eq_evals::<F>(y);
    dot_comb::<F>(w, inputs, n, eqs);
    assert(ins =~= Seq::new(k, |i: int| dot::<F>(inputs[i], eqs)));
    mle_of_had_evals::<F>(z, y);
    had_evals_shape::<F>(z);
    comb_len::<F>(w, inputs, n);
    let term = Term { coeff: 1, factors: seq![0usize, 1usize] };
    dot_canon::<F>(had_evals::<F>(z), eqs);
    product_small::<F>(0, 1, 1, last);
    summand_push::<F>(Seq::empty(), term, last);
    assert(Seq::<Term>::empty().push(term) =~= inner_terms());
    assert(summand::<F>(inner_terms(), last) == p.inner_terminal_eval.val()) by {
        broadcast use fmul_canon;

        f_units::<F>(fmul::<F>(last[0], last[1]));
    }
    assert(rect(ips, n));
    assert(terms_fit(inner_terms(), 2, 2));
    accepted_claim_is_the_sum::<F, O>(
        inner_terms(),
        ips,
        2,
        p.outer_terminal_eval.val(),
        p.inner_terminal_eval.val(),
        y,
        outer_end + sent_fields(vals(p.e_evals_at_outer_point@)),
        inner_end,
    );
    inner_sum::<F>(ch, inputs, e, z);
    outer_sum::<F>(ch, inputs, e, num_vars);
    let ops = outer_polys(ch, transforms::<F>(inputs), e, k, np);
    let terms = outer_terms(k, np);
    ch.lemma_lens(k, np, num_vars);
    exp2_is_pow2(num_vars);
    assert forall|i: int| 0 <= i < ops.len() implies (#[trigger] ops[i]).len() == n && vcanon::<F>(
        ops[i],
    ) by {
        if i < k {
            assert(inputs[i].len() == n && vcanon::<F>(inputs[i]));
            walsh_shape::<F>(inputs[i]);
        } else if i < k + k * np {
            let t = i - k;
            flat_split(t, k as int, np as int);
            let g = ch.gamma(t / (np as int), t % (np as int));
            assert(ch.gammas@[t / (np as int)]@[t % (np as int)]@.len() == num_vars);
            had_evals_shape::<F>(g);
            broadcast use fmul_canon;

        } else {
            assert(ops[i] == e[i - k - k * np]);
        }
    }
    assert forall|t: int| 0 <= t < terms.len() implies {
        &&& (#[trigger] terms[t]).factors.len() <= 3
        &&& forall|i: int| 0 <= i < terms[t].factors.len() ==> #[trigger] terms[t].factors[i] < ops.len()
    } by {
        flat_split(t, k as int, np as int);
        assert(terms[t].factors == outer_factors(t, k, np));
    }
    if p.outer_terminal_eval.val() == summand::<F>(terms, values_at::<F>(ops, z)) {
        accepted_claim_is_the_sum::<F, O>(
            terms,
            ops,
            3,
            p.claimed_output_batch.val(),
            p.outer_terminal_eval.val(),
            z,
            log0 + ch.events::<O>() + sent_fields(flat_outputs(p.output_evals_at_gammas@)),
            outer_end,
        );
    }
}

/// Canonical steps that send columns send canonical columns.
pub proof fn canonical_columns<F: PrimeField, O>(paths: Seq<Seq<O>>, cols: Seq<Seq<int>>, s: int)
    requires
        cols.len() == paths.len(),
        canonical_steps::<F, O>(column_events(paths, cols)),
        0 <= s < cols.len(),
    ensures
        vcanon::<F>(cols[s]),
    decreases cols.len(),
{
    let (ps, cs) = (paths.drop_last(), cols.drop_last());
    let front = column_events(ps, cs);
    canonical_parts::<F, O>(
        front + sent_commitments(paths.last()),
        sent_fields(cols.last()),
    );
    canonical_parts::<F, O>(front, sent_commitments(paths.last()));
    canonical_sent::<F, O>(cols.last());
    if s < cols.len() - 1 {
        canonical_columns::<F, O>(ps, cs, s);
    }
}

/// Weighted sums of the entries of two vectors, one of them times `zeta`.
pub open spec fn merged_entries<F: PrimeField>(
    tau: int,
    zeta: int,
    u: Seq<int>,
    v: Seq<int>,
) -> int {
    fadd::<F>(
        dot::<F>(pows::<F>(tau, u.len()), u),
        fmul::<F>(zeta, dot::<F>(pows::<F>(tau, v.len()), v)),
    )
}

/// The places of a codeword that challenges select.
pub open spec fn places(challenges: Seq<int>, num_cols: int) -> Seq<int> {
    Seq::new(challenges.len(), |s: int| (challenges[s] % (usize::MAX + 1)) % num_cols)
}

/// The entries of a weighted sum of rows at given places.
pub open spec fn folded_at<F: PrimeField>(
    w: Seq<int>,
    rows: Seq<Seq<int>>,
    places: Seq<int>,
) -> Seq<int> {
    Seq::new(places.len(), |s: int| dot::<F>(w, column(rows, places[s])))
}

/// An accepted check of the merged columns against a committed matrix, whose values
/// of the blocks are true, shows that both folded codewords agree with the same
/// combinations of the committed rows at the places that the challenges select, as
/// far as one weighted sum over all places and both combinations tells, unless
/// the hash function has a collision or a message of the sum-check strayed.
pub proof fn accepted_columns_are_those_of_the_folds<F: PrimeField, H: HashFunction, C>(
    out: QABaseMergedColumnConsistencyOutput<F>,
    vp: QABaseVerifierParams<F, C>,
    rows: Seq<Seq<int>>,
    polys: Seq<Seq<int>>,
    layout: QABaseTwoLayerGkrLayout,
    proximity_weights: Seq<int>,
    evaluation_weights: Seq<int>,
    state: MergedColumnsVerifier<F>,
    d: QueriesRead<H::Output>,
    terminal: int,
    log0: Seq<Event<H::Output>>,
    mid: Seq<Event<H::Output>>,
    end: Seq<Event<H::Output>>,
    log1: Seq<Event<H::Output>>,
)
    requires
        vp.wf(),
        layout.wf(),
        layout.rho == vp.inverse_rate,
        3 * layout.rho <= usize::MAX,
        rows.len() == vp.num_rows,
        rect(rows, (vp.inverse_rate * exp2(vp.num_vars as nat)) as nat),
        mcanon::<F>(rows),
        rect(folded_blocks(polys, layout, 0), exp2(vp.num_vars as nat)),
        rect(folded_blocks(polys, layout, 1), exp2(vp.num_vars as nat)),
        mcanon::<F>(folded_blocks(polys, layout, 0)),
        mcanon::<F>(folded_blocks(polys, layout, 1)),
        merged_verified::<F, H, C>(
            true,
            out,
            vp,
            root::<H>(
                column_leaves::<F, H>(rows, (vp.inverse_rate * exp2(vp.num_vars as nat)) as nat),
            ),
            proximity_weights,
            evaluation_weights,
            state,
            d,
            terminal,
            log0,
            mid,
            end,
            log1,
        ),
        canonical_steps::<F, H::Output>(mid),
        forall|b: int|
            0 <= b < layout.rho ==> (#[trigger] out.proximity_block_evals@[b]).val() == mle::<F>(
                polys[layout.block_at(0, b)],
                vals(out.sc_point@),
            ),
        forall|b: int|
            0 <= b < layout.rho ==> (#[trigger] out.evaluation_block_evals@[b]).val() == mle::<F>(
                polys[layout.block_at(1, b)],
                vals(out.sc_point@),
            ),
    ensures
        d.challenges.len() == vp.num_queries,
        ({
            let n = exp2(vp.num_vars as nat);
            let at = places(d.challenges, vp.inverse_rate * n);
            let (tau, zeta) = (state.tau.val(), state.instance_batch_challenge.val());
            ||| merged_entries::<F>(
                tau,
                zeta,
                folded_at::<F>(proximity_weights, rows, at),
                folded_at::<F>(evaluation_weights, rows, at),
            ) == merged_entries::<F>(
                tau,
                zeta,
                entries_at(flatten(folded_blocks(polys, layout, 0)), at),
                entries_at(flatten(folded_blocks(polys, layout, 1)), at),
            )
            ||| collision::<H>()
            ||| sumcheck_strayed::<F, H::Output>(
                merged_terms(zeta, vp.inverse_rate as nat),
                merged_polys::<F>(state.query_indices@, tau, polys, layout, n),
                2,
                vals(out.sc_point@),
                mid,
                end,
            )
        }),
{
    let n = exp2(vp.num_vars as nat);
    let num_cols = vp.inverse_rate * n;
    let x = vals(out.sc_point@);
    let (tau, zeta) = (state.tau.val(), state.instance_batch_challenge.val());
    let at = places(d.challenges, num_cols);
    let q = state.query_indices@;
    let (ub, qb) = (folded_blocks(polys, layout, 0), folded_blocks(polys, layout, 1));
    let ps = merged_polys::<F>(q, tau, polys, layout, n);
    let terms = merged_terms(zeta, layout.rho as nat);
    exp2_is_pow2(vp.num_vars as nat);
    let tail = drawn::<H::Output>(seq![tau, zeta]);
    let sent = column_events(d.paths, d.cols);
    canonical_parts::<F, H::Output>(log0 + drawn(d.challenges) + sent, tail);
    canonical_parts::<F, H::Output>(log0 + drawn(d.challenges), sent);
    canonical_parts::<F, H::Output>(log0, drawn(d.challenges));
    canonical_drawn::<F, H::Output>(d.challenges);
    assert(ints(q).len() == d.challenges.len());
    assert(q.len() == d.challenges.len());
    assert forall|s: int| 0 <= s < q.len() implies #[trigger] q[s] == at[s] && 0 <= at[s]
        < num_cols by {
        sampled_columns::<F>(d.challenges, num_cols, s);
        assert(ints(q)[s] == q[s]);
    }
    if !collision::<H>() {
        let fp = folded_at::<F>(proximity_weights, rows, at);
        let fe = folded_at::<F>(evaluation_weights, rows, at);
        assert forall|s: int| 0 <= s < d.cols.len() implies #[trigger] d.cols[s] == column(
            rows,
            at[s],
        ) by {
            assert(q[s] == at[s]);
            assert(ints(q)[s] == q[s]);
            canonical_columns::<F, H::Output>(d.paths, d.cols, s);
            assert(d.paths[s].len() == log2(num_cols));
            opened_column_is_committed::<F, H>(
                rows,
                num_cols as nat,
                at[s],
                d.cols[s],
                d.paths[s],
            );
        }
        assert(fold_columns::<F>(proximity_weights, d.cols) =~= fp);
        assert(fold_columns::<F>(evaluation_weights, d.cols) =~= fe);
        let values = values_at::<F>(ps, x);
        honest_merged_check_is_accepted::<F>(q, tau, zeta, polys, layout, x, values);
        assert forall|b: int| 0 <= b < layout.rho implies vals(out.proximity_block_evals@)[b]
            == values[3 * b + 1] by {
            assert(out.proximity_block_evals@[b].val() == mle::<F>(polys[layout.block_at(0, b)], x));
        }
        assert forall|b: int| 0 <= b < layout.rho implies vals(out.evaluation_block_evals@)[b]
            == values[3 * b + 2] by {
            assert(out.evaluation_block_evals@[b].val() == mle::<F>(polys[layout.block_at(1, b)], x));
        }
        assert(vals(out.proximity_block_evals@) =~= Seq::new(
            layout.rho as nat,
            |b: int| values[3 * b + 1],
        ));
        assert(vals(out.evaluation_block_evals@) =~= Seq::new(
            layout.rho as nat,
            |b: int| values[3 * b + 2],
        ));
        assert forall|j: int| 0 <= j < ps.len() implies (#[trigger] ps[j]).len() == n && vcanon::<
            F,
        >(ps[j]) by {
            selector_shape::<F>(q, tau, j / 3, n);
            assert(ub[j / 3].len() == n && vcanon::<F>(ub[j / 3]));
            assert(qb[j / 3].len() == n && vcanon::<F>(qb[j / 3]));
        }
        assert(terms_fit(terms, ps.len(), 2));
        accepted_claim_is_the_sum::<F, H::Output>(
            terms,
            ps,
            2,
            state.claimed_sum.val(),
            terminal,
            x,
            mid,
            end,
        );
        assert forall|s: int| 0 <= s < q.len() implies #[trigger] q[s] < layout.rho * n by {
            assert(q[s] == at[s]);
        }
        merged_sum::<F>(q, tau, zeta, polys, layout, n);
        assert forall|s: int| 0 <= s < q.len() implies entries_of(q, ub, n)[s] == flatten(ub)[at[s]]
            && entries_of(q, qb, n)[s] == flatten(qb)[at[s]] by {
            assert(q[s] == at[s]);
            let (b, i) = (at[s] / (n as int), at[s] % (n as int));
            flat_split(at[s], layout.rho as int, n as int);
            flatten_entry(ub, n, b, i);
            flatten_entry(qb, n, b, i);
        }
        assert(entries_of(q, ub, n) =~= entries_at(flatten(ub), at));
        assert(entries_of(q, qb, n) =~= entries_at(flatten(qb), at));
    }
}

/// The values of the parity blocks among the polynomials at the points of the outputs.
pub open spec fn claimed_outputs<F: PrimeField>(
    ch: GkrChallenges<F>,
    layout: QABaseTwoLayerGkrLayout,
    polys: Seq<Seq<int>>,
) -> Seq<int> {
    let np = layout.rho - 1;
    Seq::new(
        (layout.num_instances * np) as nat,
        |t: int| mle::<F>(polys[layout.block_at(t / np, t % np + 1)], ch.gamma(t / np, t % np)),
    )
}

/// The coefficient vectors among the polynomials.
pub open spec fn coefficients_of(
    layout: QABaseTwoLayerGkrLayout,
    polys: Seq<Seq<int>>,
) -> Seq<Seq<int>> {
    Seq::new((layout.rho - 1) as nat, |i: int| polys[layout.e_at(i)])
}

/// The parity blocks are those of the inputs as far as the challenges of a proof of
/// the two layers tell, or a message of one of its sum-checks strayed.
pub open spec fn layers_shown<F: PrimeField, O>(
    p: QABaseTwoLayerGkrProof<F>,
    ch: GkrChallenges<F>,
    layout: QABaseTwoLayerGkrLayout,
    polys: Seq<Seq<int>>,
    log0: Seq<Event<O>>,
    outer_end: Seq<Event<O>>,
    inner_end: Seq<Event<O>>,
) -> bool {
    let inputs = inputs_of(polys, layout);
    let e = coefficients_of(layout, polys);
    let w = ch.weights(inputs.len(), e.len());
    let z = vals(p.outer_point@);
    ||| dot::<F>(w, claimed_outputs(ch, layout, polys)) == dot::<F>(w, true_outputs(ch, inputs, e))
    ||| sumcheck_strayed::<F, O>(
        outer_terms(inputs.len(), e.len()),
        outer_polys(ch, transforms::<F>(inputs), e, inputs.len(), e.len()),
        3,
        z,
        log0 + ch.events::<O>() + sent_fields(flat_outputs(p.output_evals_at_gammas@)),
        outer_end,
    )
    ||| sumcheck_strayed::<F, O>(
        inner_terms(),
        inner_polys(ch, inputs, e, z),
        2,
        vals(p.inner_point@),
        outer_end + sent_fields(vals(p.e_evals_at_outer_point@)),
        inner_end,
    )
}

/// An accepted proof of the two layers all of whose claims are true shows that the
/// parity blocks are those of the inputs.
pub proof fn accepted_layers_are_of_the_code<F: PrimeField, O>(
    p: QABaseTwoLayerGkrProof<F>,
    ch: GkrChallenges<F>,
    layout: QABaseTwoLayerGkrLayout,
    polys: Seq<Seq<int>>,
    num_vars: nat,
    log0: Seq<Event<O>>,
    outer_end: Seq<Event<O>>,
    inner_end: Seq<Event<O>>,
    log1: Seq<Event<O>>,
)
    requires
        layout.wf(),
        rect(inputs_of(polys, layout), exp2(num_vars)),
        mcanon::<F>(inputs_of(polys, layout)),
        rect(coefficients_of(layout, polys), exp2(num_vars)),
        mcanon::<F>(coefficients_of(layout, polys)),
        gkr_verified::<F, O>(
            true,
            p,
            ch,
            num_vars,
            layout.num_instances as nat,
            (layout.rho - 1) as nat,
            log0,
            outer_end,
            inner_end,
            log1,
        ),
        forall|i: int|
            0 <= i < gkr_claims(layout, p).len() ==> (#[trigger] gkr_claims(
                layout,
                p,
            )[i]).is_true::<F>(polys),
    ensures
        layers_shown::<F, O>(p, ch, layout, polys, log0, outer_end, inner_end),
{
    let k = layout.num_instances as nat;
    let np = (layout.rho - 1) as nat;
    let claims = gkr_claims(layout, p);
    let inputs = inputs_of(polys, layout);
    let e = coefficients_of(layout, polys);
    let outs = mat(p.output_evals_at_gammas@);
    let all = claimed_outputs(ch, layout, polys);
    assert(k * layout.rho == k * np + k) by (nonlinear_arith)
        requires
            layout.rho == np + 1,
    ;
    assert(claims.len() == k * np + k + np);
    flatten_len(outs, np);
    assert forall|t: int| 0 <= t < k * np implies flatten(outs)[t] == all[t] by {
        let (b, i) = (t / (np as int), t % (np as int));
        flat_split(t, k as int, np as int);
        flatten_entry(outs, np, b, i);
        assert(claims[t].is_true::<F>(polys));
        assert(outs[b][i] == p.output_evals_at_gammas@[b]@[i].val());
    }
    assert(flatten(outs) =~= all);
    assert forall|b: int| 0 <= b < k implies (#[trigger] p.input_evals_at_inner_point@[b]).val()
        == mle::<F>(inputs[b], vals(p.inner_point@)) by {
        assert(claims[k * np + b].is_true::<F>(polys));
    }
    assert forall|i: int| 0 <= i < np implies (#[trigger] p.e_evals_at_outer_point@[i]).val()
        == mle::<F>(e[i], vals(p.outer_point@)) by {
        assert(claims[k * np + k + i].is_true::<F>(polys));
    }
    accepted_outputs_are_those_of_the_code::<F, O>(
        p,
        ch,
        inputs,
        e,
        num_vars,
        log0,
        outer_end,
        inner_end,
        log1,
    );
}

/// Both folded codewords agree with their combinations of the committed rows as far
/// as the challenges of an accepted column check tell, or the hash function has a
/// collision, or a message of the sum-check strayed.
pub open spec fn merged_shown<F: PrimeField, H: HashFunction, C>(
    out: QABaseMergedColumnConsistencyOutput<F>,
    vp: QABaseVerifierParams<F, C>,
    rows: Seq<Seq<int>>,
    polys: Seq<Seq<int>>,
    layout: QABaseTwoLayerGkrLayout,
    proximity_weights: Seq<int>,
    evaluation_weights: Seq<int>,
    d: QueriesRead<H::Output>,
    mid: Seq<Event<H::Output>>,
    end: Seq<Event<H::Output>>,
) -> bool {
    let n = exp2(vp.num_vars as nat);
    let at = places(d.challenges, vp.inverse_rate * n);
    let (tau, zeta) = (out.tau.val(), out.instance_batch_challenge.val());
    &&& d.challenges.len() == vp.num_queries
    &&& {
        ||| merged_entries::<F>(
            tau,
            zeta,
            folded_at::<F>(proximity_weights, rows, at),
            folded_at::<F>(evaluation_weights, rows, at),
        ) == merged_entries::<F>(
            tau,
            zeta,
            entries_at(flatten(folded_blocks(polys, layout, 0)), at),
            entries_at(flatten(folded_blocks(polys, layout, 1)), at),
        )
        ||| collision::<H>()
        ||| sumcheck_strayed::<F, H::Output>(
            merged_terms(zeta, vp.inverse_rate as nat),
            merged_polys::<F>(out.query_indices@, tau, polys, layout, n),
            2,
            vals(out.sc_point@),
            mid,
            end,
        )
    }
}

/// An accepted opening all of whose claims are true shows: the parity blocks are
/// those of the two messages, both codewords agree with their combinations of the
/// committed rows at the places that the challenges select, and the second message
/// has the claimed value.
pub proof fn accepted_opening_is_of_the_committed<F: PrimeField, H: HashFunction, C>(
    vp: QABaseVerifierParams<F, C>,
    rows: Seq<Seq<int>>,
    layout: QABaseTwoLayerGkrLayout,
    polys: Seq<Seq<int>>,
    row_challenges: Seq<int>,
    row_weights: Seq<int>,
    z_right: Seq<int>,
    value: int,
    p: QABaseTwoLayerGkrProof<F>,
    cols: QABaseMergedColumnConsistencyOutput<F>,
    log0: Seq<Event<H::Output>>,
    gkr_end: Seq<Event<H::Output>>,
    log1: Seq<Event<H::Output>>,
)
    requires
        vp.wf(),
        layout.wf(),
        layout.num_instances == 2,
        layout.rho == vp.inverse_rate,
        3 * layout.rho <= usize::MAX,
        rows.len() == vp.num_rows,
        rect(rows, (vp.inverse_rate * exp2(vp.num_vars as nat)) as nat),
        mcanon::<F>(rows),
        rect(folded_blocks(polys, layout, 0), exp2(vp.num_vars as nat)),
        rect(folded_blocks(polys, layout, 1), exp2(vp.num_vars as nat)),
        mcanon::<F>(folded_blocks(polys, layout, 0)),
        mcanon::<F>(folded_blocks(polys, layout, 1)),
        rect(coefficients_of(layout, polys), exp2(vp.num_vars as nat)),
        mcanon::<F>(coefficients_of(layout, polys)),
        full_verified::<F, H, C>(
            vp,
            root::<H>(
                column_leaves::<F, H>(rows, (vp.inverse_rate * exp2(vp.num_vars as nat)) as nat),
            ),
            row_challenges,
            row_weights,
            p,
            cols,
            log0,
            gkr_end,
            log1,
        ),
        canonical_steps::<F, H::Output>(log1),
        forall|i: int|
            0 <= i < full_claims(layout, p, cols, z_right, value).len() ==> (#[trigger] full_claims(
                layout,
                p,
                cols,
                z_right,
                value,
            )[i]).is_true::<F>(polys),
    ensures
        value == mle::<F>(polys[layout.block_at(1, 0)], z_right),
        exists|
            ch: GkrChallenges<F>,
            outer_end: Seq<Event<H::Output>>,
            inner_end: Seq<Event<H::Output>>,
        |
            p.drawn_as(ch) && ch.wf(2, (layout.rho - 1) as nat, vp.num_vars as nat) && gkr_end
                == inner_end + sent_fields(vals(p.input_evals_at_inner_point@))
                && #[trigger] layers_shown::<F, H::Output>(
                p,
                ch,
                layout,
                polys,
                log0,
                outer_end,
                inner_end,
            ),
        exists|d: QueriesRead<H::Output>, mid: Seq<Event<H::Output>>, end: Seq<Event<H::Output>>|
            mid == gkr_end + drawn(d.challenges) + column_events(d.paths, d.cols) + drawn(
                seq![cols.tau.val(), cols.instance_batch_challenge.val()],
            ) && log1 == end + sent_fields(
                alternate(vals(cols.proximity_block_evals@), vals(cols.evaluation_block_evals@)),
            ) && #[trigger] merged_shown::<F, H, C>(
                cols,
                vp,
                rows,
                polys,
                layout,
                row_challenges,
                row_weights,
                d,
                mid,
                end,
            ),
{
    let n = exp2(vp.num_vars as nat);
    let rho = layout.rho as int;
    let np = rho - 1;
    let tree_root = root::<H>(column_leaves::<F, H>(rows, (vp.inverse_rate * n) as nat));
    let claims = full_claims(layout, p, cols, z_right, value);
    let gc = gkr_claims(layout, p);
    let k = gc.len() as int;
    assert(claims.len() == k + 2 * rho + 1);
    assert(claims[k + 2 * rho].is_true::<F>(polys));
    assert forall|i: int| 0 <= i < gc.len() implies (#[trigger] gc[i]).is_true::<F>(polys) by {
        assert(claims[i] == gc[i]);
    }
    let ins = inputs_of(polys, layout);
    assert forall|b: int| 0 <= b < ins.len() implies (#[trigger] ins[b]).len() == n && vcanon::<F>(
        ins[b],
    ) by {
        let blocks = folded_blocks(polys, layout, b);
        assert(b == 0 || b == 1);
        assert(blocks[0].len() == n && vcanon::<F>(blocks[0]));
    }
    let (ch, outer_end, inner_end) = choose|
        ch: GkrChallenges<F>,
        outer_end: Seq<Event<H::Output>>,
        inner_end: Seq<Event<H::Output>>,
    | #[trigger]
        gkr_verified::<F, H::Output>(
            true,
            p,
            ch,
            vp.num_vars as nat,
            2,
            np as nat,
            log0,
            outer_end,
            inner_end,
            gkr_end,
        );
    accepted_layers_are_of_the_code::<F, H::Output>(
        p,
        ch,
        layout,
        polys,
        vp.num_vars as nat,
        log0,
        outer_end,
        inner_end,
        gkr_end,
    );
    let (state, d, terminal, mid, end) = choose|
        state: MergedColumnsVerifier<F>,
        d: QueriesRead<H::Output>,
        terminal: int,
        mid: Seq<Event<H::Output>>,
        end: Seq<Event<H::Output>>,
    | #[trigger]
        merged_verified::<F, H, C>(
            true,
            cols,
            vp,
            tree_root,
            row_challenges,
            row_weights,
            state,
            d,
            terminal,
            gkr_end,
            mid,
            end,
            log1,
        );
    let x = vals(cols.sc_point@);
    canonical_parts::<F, H::Output>(
        end,
        sent_fields(
            alternate(vals(cols.proximity_block_evals@), vals(cols.evaluation_block_evals@)),
        ),
    );
    sumcheck_extends::<F, H::Output>(
        vp.num_vars as nat,
        2,
        state.claimed_sum.val(),
        terminal,
        x,
        mid,
        end,
    );
    assert forall|b: int| 0 <= b < rho implies (#[trigger] cols.proximity_block_evals@[b]).val()
        == mle::<F>(polys[layout.block_at(0, b)], x) by {
        assert((2 * b) / 2 == b && (2 * b) % 2 == 0);
        assert(claims[k + 2 * b].is_true::<F>(polys));
    }
    assert forall|b: int| 0 <= b < rho implies (#[trigger] cols.evaluation_block_evals@[b]).val()
        == mle::<F>(polys[layout.block_at(1, b)], x) by {
        assert((2 * b + 1) / 2 == b && (2 * b + 1) % 2 == 1);
        assert(claims[k + 2 * b + 1].is_true::<F>(polys));
    }
    accepted_columns_are_those_of_the_folds::<F, H, C>(
        cols,
        vp,
        rows,
        polys,
        layout,
        row_challenges,
        row_weights,
        state,
        d,
        terminal,
        gkr_end,
        mid,
        end,
        log1,
    );
    assert(merged_shown::<F, H, C>(
        cols,
        vp,
        rows,
        polys,
        layout,
        row_challenges,
        row_weights,
        d,
        mid,
        end,
    ));
}

} // verus!
