//! What an accepted product argument shows of the products.

use crate::classic_sumcheck::terms_fit;
use crate::field::{canon, fadd, fmul, fsub, Residue};
use crate::linear::{dot, mcanon, rect, vcanon};
use crate::mle::{eq_at_canon, eq_evals, exp2, mle, mle_point};
use crate::products::{
    branch_evaluates_level, children_at, evens, first_product_layer_is_accepted,
    honest_product_layer_is_accepted, layer_polys, layer_run_accepted, layer_terms, layer_verified,
    left_values, level, level_canon, level_len, level_values, levels_after, odds, parents_of,
    product_layer_claim_holds, products_verified, right_values, root_is_product, LayerRun,
};
use crate::spark_memory::vprod;
use crate::sumcheck_soundness::{accepted_claim_is_the_sum, sumcheck_strayed};
use crate::transcript::{drawn, Event};
use vstd::prelude::*;

verus! {

/// The value at `x` of the line with the values `a` and `b` at zero and one.
pub open spec fn line_at<F: Residue>(a: int, b: int, x: int) -> int {
    fadd::<F>(a, fmul::<F>(x, fsub::<F>(b, a)))
}

/// Some line through the values read is not that of the children, and the branch
/// does not tell the two apart.
pub open spec fn lines_meet<F: Residue>(
    children: Seq<Seq<int>>,
    left: Seq<int>,
    right: Seq<int>,
    branch: int,
    z: Seq<int>,
) -> bool {
    exists|i: int|
        {
            let (l, r) = (mle::<F>(evens(children[i]), z), mle::<F>(odds(children[i]), z));
            &&& 0 <= i < children.len()
            &&& (#[trigger] left[i]) != l || right[i] != r
            &&& line_at::<F>(left[i], right[i], branch) == line_at::<F>(l, r, branch)
        }
}

/// The claims about the parents are not their values, and the combination drawn does
/// not tell the two apart.
pub open spec fn combinations_meet<F: Residue>(
    children: Seq<Seq<int>>,
    claims: Seq<int>,
    point: Seq<int>,
    coeffs: Seq<int>,
) -> bool {
    let v = level_values::<F>(parents_of::<F>(children), point);
    claims != v && dot::<F>(claims, coeffs) == dot::<F>(v, coeffs)
}

/// A layer passes although a message of its sum-check strayed, or although a line
/// or the combination of claims differs from the true one.
pub open spec fn layer_missed<F: Residue, O>(
    children: Seq<Seq<int>>,
    claims: Seq<int>,
    point: Seq<int>,
    next_point: Seq<int>,
    r: LayerRun<O>,
    log0: Seq<Event<O>>,
) -> bool {
    let z = next_point.drop_first();
    ||| lines_meet::<F>(children, r.left, r.right, next_point[0], z)
    ||| combinations_meet::<F>(children, claims, point, r.coeffs)
    ||| sumcheck_strayed::<F, O>(
        layer_terms(r.coeffs),
        layer_polys::<F>(children, point),
        3,
        z,
        log0 + drawn(r.coeffs),
        r.log,
    )
}

/// An accepted layer whose next claims are the values of the children shows that
/// its claims are the values of the products of pairs of children, unless the layer
/// missed.
#[verifier::rlimit(40)]
#[verifier::spinoff_prover]
pub proof fn accepted_layer_multiplies_pairs<F: Residue, O>(
    children: Seq<Seq<int>>,
    claims: Seq<int>,
    point: Seq<int>,
    next: Seq<int>,
    next_point: Seq<int>,
    r: LayerRun<O>,
    log0: Seq<Event<O>>,
    log1: Seq<Event<O>>,
)
    requires
        2 * children.len() < usize::MAX,
        rect(children, exp2(point.len() + 1)),
        mcanon::<F>(children),
        claims.len() == children.len(),
        layer_run_accepted::<F, O>(claims, point, next, next_point, r, log0, log1),
        next == level_values::<F>(children, next_point),
    ensures
        claims == level_values::<F>(parents_of::<F>(children), point) || layer_missed::<F, O>(
            children,
            claims,
            point,
            next_point,
            r,
            log0,
        ),
{
    let n = exp2(point.len());
    let z = next_point.drop_first();
    let branch = next_point[0];
    let (tl, tr) = (left_values::<F>(children, z), right_values::<F>(children, z));
    assert(exp2(point.len() + 1) == 2 * n);
    if r.left == tl && r.right == tr {
        let claim = dot::<F>(claims, r.coeffs);
        let truth = level_values::<F>(parents_of::<F>(children), point);
        if point.len() == 0 {
            assert(point =~= Seq::empty() && z =~= Seq::empty());
            assert(exp2(1) == 2) by {
                assert(exp2(0) == 1);
            }
            first_product_layer_is_accepted::<F>(children, r.coeffs);
            assert(crate::mle::eq_product::<F>(z, point) == 1);
        } else {
            honest_product_layer_is_accepted::<F>(children, r.coeffs, point, z);
            product_layer_claim_holds::<F>(children, r.coeffs, point);
            let polys = layer_polys::<F>(children, point);
            assert forall|s: int| 0 <= s < polys.len() implies (#[trigger] polys[s]).len() == n
                && vcanon::<F>(polys[s]) by {
                if s == 0 {
                    assert forall|i: int| 0 <= i < n implies canon::<F>(
                        #[trigger] eq_evals::<F>(point)[i],
                    ) by {
                        eq_at_canon::<F>(i, point);
                    }
                } else {
                    let c = children[(s - 1) / 2];
                    assert(c.len() == 2 * n && vcanon::<F>(c));
                    assert forall|i: int| 0 <= i < n implies canon::<F>(#[trigger] polys[s][i]) by {
                        assert(canon::<F>(c[2 * i]) && canon::<F>(c[2 * i + 1]));
                    }
                }
            }
            assert(terms_fit(layer_terms(r.coeffs), polys.len(), 3));
            accepted_claim_is_the_sum::<F, O>(
                layer_terms(r.coeffs),
                polys,
                3,
                claim,
                r.terminal,
                z,
                log0 + drawn(r.coeffs),
                r.log,
            );
        }
        if claims != truth && claim == dot::<F>(truth, r.coeffs) {
            assert(combinations_meet::<F>(children, claims, point, r.coeffs));
        }
    } else {
        let i = if r.left != tl {
            choose|i: int| 0 <= i < tl.len() && r.left[i] != tl[i]
        } else {
            choose|i: int| 0 <= i < tr.len() && r.right[i] != tr[i]
        };
        if r.left != tl {
            assert(!(r.left =~= tl));
        } else {
            assert(!(r.right =~= tr));
        }
        assert(0 <= i < children.len() && (r.left[i] != tl[i] || r.right[i] != tr[i]));
        assert(children[i].len() == exp2(z.len() + 1));
        branch_evaluates_level::<F>(children[i], branch, z);
        assert(seq![branch] + z =~= next_point);
        assert(next[i] == line_at::<F>(r.left[i], r.right[i], branch));
        assert(next[i] == mle::<F>(children[i], next_point));
        assert(lines_meet::<F>(children, r.left, r.right, branch, z));
    }
}

/// Some of the first `k` layers of an accepted run missed.
pub open spec fn products_missed<F: Residue, O>(
    leaves: Seq<Seq<int>>,
    num_layers: nat,
    roots: Seq<int>,
    k: nat,
    claims: Seq<int>,
    point: Seq<int>,
    log0: Seq<Event<O>>,
    log1: Seq<Event<O>>,
) -> bool
    decreases k,
{
    k > 0 && exists|c: Seq<int>, p: Seq<int>, r: LayerRun<O>, mid: Seq<Event<O>>|
        {
            &&& #[trigger] layer_run_accepted::<F, O>(c, p, claims, point, r, mid, log1)
            &&& products_verified::<F, O>(roots, (k - 1) as nat, c, p, log0, mid)
            &&& {
                ||| layer_missed::<F, O>(
                    children_at::<F>(leaves, num_layers, k - 1),
                    c,
                    p,
                    point,
                    r,
                    mid,
                )
                ||| products_missed::<F, O>(
                    leaves,
                    num_layers,
                    roots,
                    (k - 1) as nat,
                    c,
                    p,
                    log0,
                    mid,
                )
            }
        }
}

/// An accepted product argument that ends in the values of the leaves shows that its
/// roots are the products of the leaves, unless one of its layers missed.
pub proof fn accepted_roots_are_products<F: Residue, O>(
    leaves: Seq<Seq<int>>,
    num_layers: nat,
    roots: Seq<int>,
    claims: Seq<int>,
    point: Seq<int>,
    log0: Seq<Event<O>>,
    log1: Seq<Event<O>>,
)
    requires
        2 * leaves.len() < usize::MAX,
        rect(leaves, exp2(num_layers)),
        mcanon::<F>(leaves),
        roots.len() == leaves.len(),
        products_verified::<F, O>(roots, num_layers, claims, point, log0, log1),
        claims == level_values::<F>(leaves, point),
    ensures
        products_missed::<F, O>(leaves, num_layers, roots, num_layers, claims, point, log0, log1)
            || forall|i: int|
            0 <= i < leaves.len() ==> #[trigger] roots[i] == vprod::<F>(leaves[i]),
{
    assert(levels_after::<F>(leaves, num_layers, num_layers as int) =~= leaves) by {
        assert forall|i: int| 0 <= i < leaves.len() implies level::<F>(leaves[i], 0) == leaves[i] by {
        }
    }
    accepted_layers_multiply::<F, O>(
        leaves,
        num_layers,
        roots,
        num_layers,
        claims,
        point,
        log0,
        log1,
    );
}

/// An accepted run of `k` layers ends at a point of `k` coordinates, with a claim for
/// every root.
pub proof fn accepted_depth<F: Residue, O>(
    roots: Seq<int>,
    k: nat,
    claims: Seq<int>,
    point: Seq<int>,
    log0: Seq<Event<O>>,
    log1: Seq<Event<O>>,
)
    requires
        products_verified::<F, O>(roots, k, claims, point, log0, log1),
    ensures
        point.len() == k,
        claims.len() == roots.len(),
    decreases k,
{
    if k > 0 {
        let (c, p, mid) = choose|c: Seq<int>, p: Seq<int>, mid: Seq<Event<O>>| #[trigger]
            layer_verified::<F, O>(c, p, claims, point, mid, log1) && products_verified::<F, O>(
                roots,
                (k - 1) as nat,
                c,
                p,
                log0,
                mid,
            );
        accepted_depth::<F, O>(roots, (k - 1) as nat, c, p, log0, mid);
        let r = choose|r: LayerRun<O>| #[trigger]
            layer_run_accepted::<F, O>(c, p, claims, point, r, mid, log1);
        assert(r.left.len() == c.len());
    }
}

proof fn accepted_layers_multiply<F: Residue, O>(
    leaves: Seq<Seq<int>>,
    num_layers: nat,
    roots: Seq<int>,
    k: nat,
    claims: Seq<int>,
    point: Seq<int>,
    log0: Seq<Event<O>>,
    log1: Seq<Event<O>>,
)
    requires
        k <= num_layers,
        2 * leaves.len() < usize::MAX,
        rect(leaves, exp2(num_layers)),
        mcanon::<F>(leaves),
        roots.len() == leaves.len(),
        products_verified::<F, O>(roots, k, claims, point, log0, log1),
        claims == level_values::<F>(levels_after::<F>(leaves, num_layers, k as int), point),
    ensures
        products_missed::<F, O>(leaves, num_layers, roots, k, claims, point, log0, log1)
            || forall|i: int|
            0 <= i < leaves.len() ==> #[trigger] roots[i] == vprod::<F>(leaves[i]),
    decreases k,
{
    if k == 0 {
        assert forall|i: int| 0 <= i < leaves.len() implies #[trigger] roots[i] == vprod::<F>(
            leaves[i],
        ) by {
            assert(leaves[i].len() == exp2(num_layers) && vcanon::<F>(leaves[i]));
            root_is_product::<F>(leaves[i], num_layers, num_layers);
            level_canon::<F>(leaves[i], num_layers);
            let top = level::<F>(leaves[i], num_layers);
            assert(canon::<F>(top[0]));
            mle_point::<F>(top, point);
            assert(claims[i] == mle::<F>(top, point));
        }
    } else {
        let j = (k - 1) as nat;
        let (c, p, mid) = choose|c: Seq<int>, p: Seq<int>, mid: Seq<Event<O>>| #[trigger]
            layer_verified::<F, O>(c, p, claims, point, mid, log1) && products_verified::<F, O>(
                roots,
                j,
                c,
                p,
                log0,
                mid,
            );
        let r = choose|r: LayerRun<O>| #[trigger]
            layer_run_accepted::<F, O>(c, p, claims, point, r, mid, log1);
        accepted_depth::<F, O>(roots, j, c, p, log0, mid);
        let children = children_at::<F>(leaves, num_layers, j as int);
        assert(children =~= levels_after::<F>(leaves, num_layers, k as int));
        assert forall|i: int| 0 <= i < children.len() implies (#[trigger] children[i]).len()
            == exp2(j + 1) && vcanon::<F>(children[i]) by {
            assert(leaves[i].len() == exp2(num_layers) && vcanon::<F>(leaves[i]));
            level_len::<F>(leaves[i], num_layers, (num_layers - k) as nat);
            level_canon::<F>(leaves[i], (num_layers - k) as nat);
        }
        accepted_layer_multiplies_pairs::<F, O>(children, c, p, claims, point, r, mid, log1);
        if !layer_missed::<F, O>(children, c, p, point, r, mid) {
            assert(parents_of::<F>(children) =~= levels_after::<F>(leaves, num_layers, j as int))
                by {
                assert forall|i: int| 0 <= i < leaves.len() implies parents_of::<F>(children)[i]
                    == level::<F>(leaves[i], (num_layers - j) as nat) by {
                }
            }
            accepted_layers_multiply::<F, O>(leaves, num_layers, roots, j, c, p, log0, mid);
        }
    }
}

} // verus!
