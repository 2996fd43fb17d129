//! Batched layered proofs of products.

use crate::classic_sumcheck::{
    honest_run_is_accepted, instance_fits, round_error, run_events, sumcheck_prove,
    sumcheck_refused, sumcheck_verified, sumcheck_verify, sumcheck_went, terms_fit,
};
use crate::error::Error;
use crate::field::{
    canon_consts, f_interpolate, f_units, fadd, fmul, fmul_assoc, fmul_canon, fmul_comm, fsub,
    PrimeField, Residue,
};
use crate::linear::{
    column, dot, dot_add, dot_canon, dot_comm, dot_scale, inner_product, mat, mat_push, rect, vadd,
    vals, vals_canon, vals_push, vcanon, vmul, vscale, vsum, vsum_push, vsum_scale,
};
use crate::mle::{
    eq_at_canon, eq_evals, eq_evals_canon, eq_product, equality_mle_eval,
    equality_mle_evals_on_hypercube, eval_mle_from_evals, exp2, exp2_is_pow2, exp2_mono, fold_low,
    log2, log2_power_of_two, mle, mle_fold_low, mle_of_eq_evals, mle_point, pow2_is_exp2,
};
use crate::qa_code::{copied, is_pow2};
use crate::spark_memory::{vprod, vprod_canon};
use crate::sumcheck::{
    cube_sum, cube_sum_weighted, product_at, product_small, summand, summand_weighted, term_values,
    terms_view, values_at, ProductTerm, SumcheckInstance, Term,
};
use crate::transcript::{
    cut_later, cut_within, drawn, read_field_elements, sent_fields, squeeze_challenges, went,
    went_on, went_plain, write_field_elements, Event, TranscriptRead, TranscriptWrite,
};
use vstd::prelude::*;

verus! {

/// Neighbours multiplied.
pub open spec fn pair_products<F: Residue>(v: Seq<int>) -> Seq<int> {
    Seq::new((v.len() / 2) as nat, |i: int| fmul::<F>(v[2 * i], v[2 * i + 1]))
}

/// The entries at even positions.
pub open spec fn evens(v: Seq<int>) -> Seq<int> {
    Seq::new((v.len() / 2) as nat, |i: int| v[2 * i])
}

/// The entries at odd positions.
pub open spec fn odds(v: Seq<int>) -> Seq<int> {
    Seq::new((v.len() / 2) as nat, |i: int| v[2 * i + 1])
}

/// Level `d` of the tree of products, counted from the leaves.
pub open spec fn level<F: Residue>(leaves: Seq<int>, d: nat) -> Seq<int>
    decreases d,
{
    if d == 0 {
        leaves
    } else {
        pair_products::<F>(level::<F>(leaves, (d - 1) as nat))
    }
}

/// All levels of the tree of products over `2^num_layers` leaves.
pub open spec fn levels<F: Residue>(leaves: Seq<int>, num_layers: nat) -> Seq<Seq<int>> {
    Seq::new(num_layers + 1, |d: int| level::<F>(leaves, d as nat))
}

/// The levels halve.
pub proof fn level_len<F: Residue>(leaves: Seq<int>, num_layers: nat, d: nat)
    requires
        leaves.len() == exp2(num_layers),
        d <= num_layers,
    ensures
        level::<F>(leaves, d).len() == exp2((num_layers - d) as nat),
    decreases d,
{
    if d > 0 {
        level_len::<F>(leaves, num_layers, (d - 1) as nat);
        assert(exp2((num_layers - (d - 1)) as nat) == 2 * exp2((num_layers - d) as nat));
    }
}

/// Products on every level are canonical.
pub proof fn level_canon<F: Residue>(leaves: Seq<int>, d: nat)
    requires
        vcanon::<F>(leaves),
    ensures
        vcanon::<F>(level::<F>(leaves, d)),
{
    broadcast use fmul_canon;

}

/// Multiplying neighbours keeps the product.
pub proof fn pair_products_keep_product<F: Residue>(v: Seq<int>)
    requires
        v.len() % 2 == 0,
    ensures
        vprod::<F>(pair_products::<F>(v)) == vprod::<F>(v),
    decreases v.len(),
{
    if v.len() > 0 {
        let k = v.len() - 2;
        let w = v.take(k);
        pair_products_keep_product::<F>(w);
        let p = pair_products::<F>(v);
        assert(p.drop_last() =~= pair_products::<F>(w));
        assert(v.drop_last().drop_last() =~= w);
        let vd = v.drop_last();
        assert(vd.last() == v[k]);
        assert(vprod::<F>(vd) == fmul::<F>(vprod::<F>(w), v[k]));
        assert(p.last() == fmul::<F>(v[k], v[k + 1]));
        fmul_assoc::<F>(vprod::<F>(w), v[k], v[k + 1]);
    }
}

/// The root of the tree of products is the product of the leaves.
pub proof fn root_is_product<F: Residue>(leaves: Seq<int>, num_layers: nat, d: nat)
    requires
        leaves.len() == exp2(num_layers),
        vcanon::<F>(leaves),
        d <= num_layers,
    ensures
        vprod::<F>(level::<F>(leaves, d)) == vprod::<F>(leaves),
        d == num_layers ==> level::<F>(leaves, d) == seq![vprod::<F>(leaves)],
    decreases d,
{
    level_len::<F>(leaves, num_layers, d);
    level_canon::<F>(leaves, d);
    if d > 0 {
        let e = (d - 1) as nat;
        root_is_product::<F>(leaves, num_layers, e);
        level_len::<F>(leaves, num_layers, e);
        assert(exp2((num_layers - e) as nat) == 2 * exp2((num_layers - d) as nat));
        pair_products_keep_product::<F>(level::<F>(leaves, e));
    }
    if d == num_layers {
        let top = level::<F>(leaves, d);
        assert(top.drop_last() =~= Seq::empty());
        canon_consts::<F>();
        f_units::<F>(top[0]);
        assert(top.last() == top[0]);
        assert(vprod::<F>(top) == fmul::<F>(vprod::<F>(top.drop_last()), top[0]));
        assert(top =~= seq![vprod::<F>(leaves)]);
    }
}

/// One more level.
proof fn levels_next<F: Residue>(leaves: Seq<int>, d: nat)
    ensures
        levels::<F>(leaves, d + 1) == levels::<F>(leaves, d).push(
            pair_products::<F>(level::<F>(leaves, d)),
        ),
{
    assert(levels::<F>(leaves, d + 1) =~= levels::<F>(leaves, d).push(
        pair_products::<F>(level::<F>(leaves, d)),
    ));
}

/// A power of two is one or twice the one before it.
proof fn exp2_halves(k: nat)
    ensures
        k == 0 ==> exp2(k) == 1,
        k > 0 ==> exp2(k) == 2 * exp2((k - 1) as nat) && exp2(k) >= 2,
{
    if k > 0 {
        exp2_is_pow2((k - 1) as nat);
    }
}

/// The products of neighbours.
fn multiply_pairs<F: PrimeField>(below: &[F], half: usize) -> (r: Vec<F>)
    requires
        below@.len() == 2 * half,
    ensures
        vals(r@) == pair_products::<F>(vals(below@)),
{
    let ghost goal = pair_products::<F>(vals(below@));
    let _size: usize = below.len();
    let mut next: Vec<F> = Vec::new();
    let mut i: usize = 0;
    assert(vals(next@) =~= goal.take(0));
    while i < half
        invariant
            i <= half,
            below@.len() == 2 * half,
            2 * half <= usize::MAX,
            goal == pair_products::<F>(vals(below@)),
            next@.len() == i,
            vals(next@) == goal.take(i as int),
        decreases half - i,
    {
        let p = below[2 * i].times(below[2 * i + 1]);
        proof {
            vals_push(next@, p);
            assert(goal.take(i as int + 1) =~= goal.take(i as int).push(goal[i as int]));
        }
        next.push(p);
        i = i + 1;
    }
    assert(goal.take(i as int) =~= goal);
    next
}

/// The tree of products over a power of two of leaves, leaves first.
#[verifier::rlimit(60)]
#[verifier::spinoff_prover]
pub fn product_tree<F: PrimeField>(leaves: Vec<F>) -> (r: Vec<Vec<F>>)
    requires
        is_pow2(leaves@.len() as int),
    ensures
        mat(r@) == levels::<F>(vals(leaves@), log2(leaves@.len() as int)),
        mat(r@).last() == seq![vprod::<F>(vals(leaves@))],
{
    let ghost v = vals(leaves@);
    let ghost n = log2(leaves@.len() as int);
    proof {
        pow2_is_exp2(leaves@.len() as int);
        vals_canon(leaves@);
    }
    let mut width: usize = leaves.len();
    let mut tree: Vec<Vec<F>> = Vec::new();
    tree.push(leaves);
    assert(mat(tree@) =~= levels::<F>(v, 0));
    let ghost mut d: nat = 0;
    while width > 1
        invariant
            v.len() == exp2(n),
            d <= n,
            tree@.len() == d + 1,
            mat(tree@) == levels::<F>(v, d),
            width == exp2((n - d) as nat),
        decreases width,
    {
        let top: usize = tree.len() - 1;
        proof {
            assert(mat(tree@)[top as int] == level::<F>(v, d));
            level_len::<F>(v, n, d);
            exp2_halves((n - d) as nat);
            levels_next::<F>(v, d);
        }
        assert(tree@[top as int]@.len() == vals(tree@[top as int]@).len());
        let next = multiply_pairs(&tree[top], width / 2);
        proof {
            mat_push(tree@, next);
            d = d + 1;
        }
        tree.push(next);
        width = width / 2;
    }
    proof {
        exp2_halves((n - d) as nat);
        root_is_product::<F>(v, n, n);
    }
    tree
}

/// The prover's state between the layers of a batch of products.
pub struct ProductProver<F> {
    pub num_layers: usize,
    pub trees: Vec<Vec<Vec<F>>>,
    pub roots: Vec<F>,
    pub claims: Vec<F>,
    pub point: Vec<F>,
}

impl<F: PrimeField> ProductProver<F> {
    /// The leaves of every tree.
    pub open spec fn leaves(self) -> Seq<Seq<int>> {
        Seq::new(self.trees@.len(), |i: int| vals(self.trees@[i]@[0]@))
    }

    /// The level that the claims are about.
    pub open spec fn depth(self) -> nat {
        (self.num_layers - self.point@.len()) as nat
    }

    /// The trees are those of the leaves, and every claim is the value at the
    /// point of the level reached.
    pub open spec fn wf(self) -> bool {
        let n = self.num_layers as nat;
        let k = self.trees@.len();
        &&& self.roots@.len() == k
        &&& self.claims@.len() == k
        &&& self.point@.len() <= n
        &&& 2 * k < usize::MAX
        &&& exp2(n) <= usize::MAX
        &&& forall|i: int|
            0 <= i < k ==> {
                &&& mat((#[trigger] self.trees@[i])@) == levels::<F>(self.leaves()[i], n)
                &&& self.leaves()[i].len() == exp2(n)
            }
        &&& forall|i: int|
            0 <= i < k ==> (#[trigger] self.roots@[i]).val() == vprod::<F>(self.leaves()[i])
        &&& forall|i: int|
            0 <= i < k ==> (#[trigger] self.claims@[i]).val() == mle::<F>(
                level::<F>(self.leaves()[i], self.depth()),
                vals(self.point@),
            )
    }

    /// Whether the leaves are reached.
    pub fn done(&self) -> (r: bool)
        ensures
            r == (self.point@.len() == self.num_layers),
    {
        self.point.len() == self.num_layers
    }
}

/// Builds the trees and writes their roots.
pub fn prove_products_start<F: PrimeField, O, T: TranscriptWrite<F, O>>(
    leaf_vectors: Vec<Vec<F>>,
    transcript: &mut T,
) -> (r: Result<ProductProver<F>, Error>)
    requires
        leaf_vectors@.len() > 0,
        2 * leaf_vectors@.len() < usize::MAX,
        is_pow2(leaf_vectors@[0]@.len() as int),
        rect(mat(leaf_vectors@), leaf_vectors@[0]@.len()),
    ensures
        T::infallible() ==> r is Ok,
        r matches Err(e) ==> e is Transcript,
        r matches Ok(state) ==> {
            &&& state.wf()
            &&& state.leaves() == mat(leaf_vectors@)
            &&& state.num_layers == log2(leaf_vectors@[0]@.len() as int)
            &&& state.point@.len() == 0
            &&& vals(state.claims@) == vals(state.roots@)
            &&& final(transcript).log() == old(transcript).log() + sent_fields(
                vals(state.roots@),
            )
        },
{
    let ghost lv = mat(leaf_vectors@);
    let len: usize = leaf_vectors[0].len();
    let k: usize = leaf_vectors.len();
    let num_layers: usize = log2_power_of_two(len);
    let ghost n = num_layers as nat;
    let mut trees: Vec<Vec<Vec<F>>> = Vec::new();
    let mut roots: Vec<F> = Vec::new();
    let mut claims: Vec<F> = Vec::new();
    let mut i: usize = 0;
    while i < k
        invariant
            i <= k,
            k == leaf_vectors@.len(),
            lv == mat(leaf_vectors@),
            n == num_layers,
            n == log2(len as int),
            len == exp2(n),
            is_pow2(len as int),
            rect(lv, len as nat),
            trees@.len() == i,
            roots@.len() == i,
            claims@.len() == i,
            forall|j: int|
                0 <= j < i ==> {
                    &&& mat((#[trigger] trees@[j])@) == levels::<F>(lv[j], n)
                    &&& vals(trees@[j]@[0]@) == lv[j]
                },
            forall|j: int| 0 <= j < i ==> (#[trigger] roots@[j]).val() == vprod::<F>(lv[j]),
            forall|j: int|
                0 <= j < i ==> (#[trigger] claims@[j]).val() == mle::<F>(
                    level::<F>(lv[j], n),
                    Seq::empty(),
                ),
            vals(claims@) == vals(roots@),
        decreases k - i,
    {
        assert(lv[i as int].len() == len);
        let leaves = copied(&leaf_vectors[i]);
        assert(vals(leaves@).len() == leaves@.len());
        let tree = product_tree(leaves);
        proof {
            assert(levels::<F>(lv[i as int], n).len() == tree@.len()) by {
                assert(mat(tree@).len() == tree@.len());
            }
            assert(mat(tree@).last() == vals(tree@[tree@.len() - 1]@));
            assert(vals(tree@[tree@.len() - 1]@).len() == tree@[tree@.len() - 1]@.len());
            assert(mat(tree@)[0] == levels::<F>(lv[i as int], n)[0]);
            vals_canon(leaf_vectors@[i as int]@);
            root_is_product::<F>(lv[i as int], n, n);
            vprod_canon::<F>(lv[i as int]);
            mle_point::<F>(level::<F>(lv[i as int], n), Seq::empty());
        }
        let root = tree[tree.len() - 1][0];
        assert(root.val() == mat(tree@).last()[0]);
        proof {
            vals_push(roots@, root);
            vals_push(claims@, root);
        }
        roots.push(root);
        claims.push(root);
        trees.push(tree);
        i = i + 1;
    }
    match write_field_elements(transcript, &roots) {
        Ok(_) => {},
        Err(e) => {
            return Err(e);
        },
    }
    let state = ProductProver { num_layers, trees, roots, claims, point: Vec::new() };
    proof {
        assert(vals(state.point@) =~= Seq::empty());
        assert(state.leaves() =~= lv);
        assert forall|j: int| 0 <= j < k implies state.leaves()[j].len() == exp2(n) by {
            assert(lv[j].len() == len);
        }
        assert(state.wf());
    }
    Ok(state)
}

/// The polynomials of one layer: the equality polynomial of the point, then
/// the two halves of every level.
pub open spec fn layer_polys<F: Residue>(children: Seq<Seq<int>>, point: Seq<int>) -> Seq<
    Seq<int>,
> {
    Seq::new(
        1 + 2 * children.len(),
        |s: int|
            if s == 0 {
                eq_evals::<F>(point)
            } else if (s - 1) % 2 == 0 {
                evens(children[(s - 1) / 2])
            } else {
                odds(children[(s - 1) / 2])
            },
    )
}

/// The terms of one layer.
pub open spec fn layer_terms(coeffs: Seq<int>) -> Seq<Term> {
    Seq::new(
        coeffs.len(),
        |i: int|
            Term {
                coeff: coeffs[i],
                factors: seq![0usize, (1 + 2 * i) as usize, (2 + 2 * i) as usize],
            },
    )
}

/// What the sum-check of one layer must end in.
pub open spec fn layer_expected<F: Residue>(
    coeffs: Seq<int>,
    left: Seq<int>,
    right: Seq<int>,
    eq: int,
) -> int {
    vsum::<F>(
        Seq::new(
            coeffs.len(),
            |i: int| fmul::<F>(fmul::<F>(fmul::<F>(coeffs[i], left[i]), right[i]), eq),
        ),
    )
}

/// The claims one level further down.
pub open spec fn next_claims<F: Residue>(left: Seq<int>, right: Seq<int>, branch: int) -> Seq<int> {
    Seq::new(
        left.len(),
        |i: int| fadd::<F>(left[i], fmul::<F>(branch, fsub::<F>(right[i], left[i]))),
    )
}

/// Values of the left halves of the levels.
pub open spec fn left_values<F: Residue>(children: Seq<Seq<int>>, z: Seq<int>) -> Seq<int> {
    Seq::new(children.len(), |i: int| mle::<F>(evens(children[i]), z))
}

/// Values of the right halves of the levels.
pub open spec fn right_values<F: Residue>(children: Seq<Seq<int>>, z: Seq<int>) -> Seq<int> {
    Seq::new(children.len(), |i: int| mle::<F>(odds(children[i]), z))
}

/// The values of the levels at a point.
pub open spec fn level_values<F: Residue>(parents: Seq<Seq<int>>, z: Seq<int>) -> Seq<int> {
    Seq::new(parents.len(), |i: int| mle::<F>(parents[i], z))
}

/// Every level multiplied out once.
pub open spec fn parents_of<F: Residue>(children: Seq<Seq<int>>) -> Seq<Seq<int>> {
    Seq::new(children.len(), |i: int| pair_products::<F>(children[i]))
}

/// The values of the levels, weighted, are the sum over the hypercube of the
/// weighted products of their halves.
pub proof fn product_layer_claim_holds<F: Residue>(
    children: Seq<Seq<int>>,
    coeffs: Seq<int>,
    point: Seq<int>,
)
    requires
        coeffs.len() == children.len(),
        2 * children.len() < usize::MAX,
        rect(children, exp2(point.len() + 1)),
    ensures
        cube_sum::<F>(
            layer_terms(coeffs),
            layer_polys::<F>(children, point),
            exp2(point.len()),
        ) == dot::<F>(level_values::<F>(parents_of::<F>(children), point), coeffs),
{
    let n = exp2(point.len());
    let terms = layer_terms(coeffs);
    let polys = layer_polys::<F>(children, point);
    let v = level_values::<F>(parents_of::<F>(children), point);
    let e = eq_evals::<F>(point);
    assert(exp2(point.len() + 1) == 2 * n);
    assert forall|t: int| 0 <= t < terms.len() implies vsum::<F>(
        term_values::<F>(#[trigger] terms[t], polys, n),
    ) == fmul::<F>(coeffs[t], v[t]) by {
        assert(children[t].len() == 2 * n);
        let p = pair_products::<F>(children[t]);
        assert forall|b: int| 0 <= b < n implies term_values::<F>(terms[t], polys, n)[b]
            == vscale::<F>(coeffs[t], vmul::<F>(p, e))[b] by {
            let c = column(polys, b);
            assert(c[0] == eq_evals::<F>(point)[b]);
            eq_at_canon::<F>(b, point);
            product_small::<F>(0, (1 + 2 * t) as usize, (2 + 2 * t) as usize, c);
            assert((1 + 2 * t - 1) % 2 == 0 && (1 + 2 * t - 1) / 2 == t);
            assert((2 + 2 * t - 1) % 2 == 1 && (2 + 2 * t - 1) / 2 == t);
            let (l, r) = (children[t][2 * b], children[t][2 * b + 1]);
            assert(c[1 + 2 * t] == l);
            assert(c[2 + 2 * t] == r);
            fmul_assoc::<F>(e[b], l, r);
            fmul_comm::<F>(e[b], fmul::<F>(l, r));
        }
        assert(term_values::<F>(terms[t], polys, n) =~= vscale::<F>(
            coeffs[t],
            vmul::<F>(p, e),
        ));
        vsum_scale::<F>(coeffs[t], vmul::<F>(p, e));
    }
    cube_sum_weighted::<F>(terms, polys, n, coeffs, v);
    dot_comm::<F>(coeffs, v);
}

/// Answered with the values of its polynomials, the sum-check of a layer ends
/// in what the verifier expects.
pub proof fn honest_product_layer_is_accepted<F: Residue>(
    children: Seq<Seq<int>>,
    coeffs: Seq<int>,
    point: Seq<int>,
    z: Seq<int>,
)
    requires
        coeffs.len() == children.len(),
        2 * children.len() < usize::MAX,
        z.len() == point.len(),
        rect(children, exp2(point.len() + 1)),
    ensures
        summand::<F>(
            layer_terms(coeffs),
            values_at::<F>(layer_polys::<F>(children, point), z),
        ) == layer_expected::<F>(
            coeffs,
            left_values::<F>(children, z),
            right_values::<F>(children, z),
            eq_product::<F>(z, point),
        ),
{
    let terms = layer_terms(coeffs);
    let polys = layer_polys::<F>(children, point);
    let values = values_at::<F>(polys, z);
    let (left, right) = (left_values::<F>(children, z), right_values::<F>(children, z));
    let eq = eq_product::<F>(z, point);
    mle_of_eq_evals::<F>(point, z);
    eq_product_comm::<F>(point, z);
    let v = Seq::new(
        coeffs.len(),
        |i: int| fmul::<F>(fmul::<F>(left[i], right[i]), eq),
    );
    let goal = Seq::new(
        coeffs.len(),
        |i: int| fmul::<F>(fmul::<F>(fmul::<F>(coeffs[i], left[i]), right[i]), eq),
    );
    assert forall|t: int| 0 <= t < terms.len() implies fmul::<F>(
        (#[trigger] terms[t]).coeff,
        product_at::<F>(terms[t].factors, values),
    ) == fmul::<F>(coeffs[t], v[t]) by {
        dot_canon::<F>(polys[0], eq_evals::<F>(z));
        product_small::<F>(0, (1 + 2 * t) as usize, (2 + 2 * t) as usize, values);
        assert((1 + 2 * t - 1) % 2 == 0 && (1 + 2 * t - 1) / 2 == t);
        assert((2 + 2 * t - 1) % 2 == 1 && (2 + 2 * t - 1) / 2 == t);
        assert(values[0] == eq);
        assert(values[1 + 2 * t] == left[t]);
        assert(values[2 + 2 * t] == right[t]);
        fmul_assoc::<F>(eq, left[t], right[t]);
        fmul_comm::<F>(eq, fmul::<F>(left[t], right[t]));
    }
    summand_weighted::<F>(terms, values, coeffs, v);
    assert forall|i: int| 0 <= i < goal.len() implies goal[i] == vmul::<F>(coeffs, v)[i] by {
        fmul_assoc::<F>(coeffs[i], left[i], right[i]);
        fmul_assoc::<F>(coeffs[i], fmul::<F>(left[i], right[i]), eq);
    }
    assert(goal =~= vmul::<F>(coeffs, v));
}

/// The equality polynomial is symmetric.
pub proof fn eq_product_comm<F: Residue>(a: Seq<int>, b: Seq<int>)
    requires
        a.len() == b.len(),
    ensures
        eq_product::<F>(a, b) == eq_product::<F>(b, a),
    decreases a.len(),
{
    if a.len() > 0 {
        eq_product_comm::<F>(a.drop_last(), b.drop_last());
        fmul_comm::<F>(fsub::<F>(1, a.last()), fsub::<F>(1, b.last()));
        fmul_comm::<F>(a.last(), b.last());
    }
}

/// In the first layer, which needs no sum-check, the weighted roots are what
/// the verifier expects.
pub proof fn first_product_layer_is_accepted<F: Residue>(
    children: Seq<Seq<int>>,
    coeffs: Seq<int>,
)
    requires
        coeffs.len() == children.len(),
        rect(children, 2),
        forall|i: int| 0 <= i < children.len() ==> vcanon::<F>(#[trigger] children[i]),
    ensures
        dot::<F>(
            level_values::<F>(parents_of::<F>(children), Seq::empty()),
            coeffs,
        ) == layer_expected::<F>(
            coeffs,
            left_values::<F>(children, Seq::empty()),
            right_values::<F>(children, Seq::empty()),
            1,
        ),
{
    let z = Seq::<int>::empty();
    let v = level_values::<F>(parents_of::<F>(children), z);
    let (left, right) = (left_values::<F>(children, z), right_values::<F>(children, z));
    let goal = Seq::new(
        coeffs.len(),
        |i: int| fmul::<F>(fmul::<F>(fmul::<F>(coeffs[i], left[i]), right[i]), 1),
    );
    assert forall|i: int| 0 <= i < goal.len() implies goal[i] == vmul::<F>(v, coeffs)[i] by {
        let c = children[i];
        assert(vcanon::<F>(c) && c.len() == 2);
        let p = pair_products::<F>(c);
        fmul_canon::<F>(c[0], c[1]);
        mle_point::<F>(p, z);
        mle_point::<F>(evens(c), z);
        mle_point::<F>(odds(c), z);
        fmul_assoc::<F>(coeffs[i], c[0], c[1]);
        fmul_canon::<F>(fmul::<F>(coeffs[i], c[0]), c[1]);
        f_units::<F>(fmul::<F>(fmul::<F>(coeffs[i], c[0]), c[1]));
        fmul_comm::<F>(coeffs[i], p[0]);
    }
    assert(goal =~= vmul::<F>(v, coeffs));
}

/// One level further down: interpolating between the two halves evaluates the
/// level at the point with the branch in front.
pub proof fn branch_evaluates_level<F: Residue>(child: Seq<int>, branch: int, z: Seq<int>)
    requires
        child.len() == exp2(z.len() + 1),
    ensures
        mle::<F>(child, seq![branch] + z) == fadd::<F>(
            mle::<F>(evens(child), z),
            fmul::<F>(branch, fsub::<F>(mle::<F>(odds(child), z), mle::<F>(evens(child), z))),
        ),
{
    let p = seq![branch] + z;
    assert(p.drop_first() =~= z);
    assert(exp2(z.len() + 1) == 2 * exp2(z.len()));
    mle_fold_low::<F>(child, p);
    let (l, r) = (evens(child), odds(child));
    let nb = fsub::<F>(1, branch);
    let f = fold_low::<F>(child, branch);
    assert forall|i: int| 0 <= i < f.len() implies f[i] == vadd::<F>(
        vscale::<F>(nb, l),
        vscale::<F>(branch, r),
    )[i] by {
        fmul_comm::<F>(l[i], nb);
        fmul_comm::<F>(r[i], branch);
    }
    assert(f =~= vadd::<F>(vscale::<F>(nb, l), vscale::<F>(branch, r)));
    let e = eq_evals::<F>(z);
    dot_add::<F>(vscale::<F>(nb, l), vscale::<F>(branch, r), e);
    dot_scale::<F>(nb, l, e);
    dot_scale::<F>(branch, r, e);
    f_interpolate::<F>(mle::<F>(l, z), mle::<F>(r, z), branch);
}

/// Splits a vector into its even and odd positions.
fn split_pairs<F: PrimeField>(v: &[F]) -> (r: (Vec<F>, Vec<F>))
    requires
        v@.len() % 2 == 0,
    ensures
        vals(r.0@) == evens(vals(v@)),
        vals(r.1@) == odds(vals(v@)),
        r.0@.len() == v@.len() / 2,
        r.1@.len() == v@.len() / 2,
{
    let total: usize = v.len();
    let half: usize = total / 2;
    let mut left: Vec<F> = Vec::new();
    let mut right: Vec<F> = Vec::new();
    let mut i: usize = 0;
    while i < half
        invariant
            i <= half,
            2 * half == v@.len(),
            total == v@.len(),
            left@.len() == i,
            right@.len() == i,
            forall|j: int| 0 <= j < i ==> #[trigger] left@[j] == v@[2 * j],
            forall|j: int| 0 <= j < i ==> #[trigger] right@[j] == v@[2 * j + 1],
        decreases half - i,
    {
        left.push(v[2 * i]);
        right.push(v[2 * i + 1]);
        i = i + 1;
    }
    assert(vals(left@) =~= evens(vals(v@)));
    assert(vals(right@) =~= odds(vals(v@)));
    (left, right)
}

/// What a layer asks for: the weights, and the sum-check where one is needed.
pub struct ProductLayer<F> {
    pub coeffs: Vec<F>,
    pub instance: Option<SumcheckInstance<F>>,
}

impl<F: PrimeField> ProductProver<F> {
    /// The levels that the next layer leads to.
    pub open spec fn children(self) -> Seq<Seq<int>> {
        Seq::new(
            self.trees@.len(),
            |i: int| level::<F>(self.leaves()[i], (self.depth() - 1) as nat),
        )
    }
}

/// The claims are the values of the levels above the children.
proof fn claims_are_parent_values<F: PrimeField>(state: ProductProver<F>)
    requires
        state.wf(),
        state.point@.len() < state.num_layers,
    ensures
        vals(state.claims@) == level_values::<F>(
            parents_of::<F>(state.children()),
            vals(state.point@),
        ),
        rect(state.children(), exp2(state.point@.len() + 1)),
        forall|i: int|
            0 <= i < state.trees@.len() ==> vcanon::<F>(#[trigger] state.children()[i]),
        exp2(state.point@.len() + 1) == 2 * exp2(state.point@.len()),
        exp2(state.point@.len() + 1) <= usize::MAX,
{
    let n = state.num_layers as nat;
    let d = (state.depth() - 1) as nat;
    exp2_mono(state.point@.len() + 1, n);
    assert forall|i: int| 0 <= i < state.trees@.len() implies {
        &&& (#[trigger] state.children()[i]).len() == exp2(state.point@.len() + 1)
        &&& vcanon::<F>(state.children()[i])
    } by {
        let _ = state.trees@[i];
        level_len::<F>(state.leaves()[i], n, d);
        vals_canon(state.trees@[i]@[0]@);
        level_canon::<F>(state.leaves()[i], d);
    }
    assert forall|i: int| 0 <= i < state.trees@.len() implies vals(state.claims@)[i]
        == level_values::<F>(parents_of::<F>(state.children()), vals(state.point@))[i] by {
        let _ = state.claims@[i];
        assert(level::<F>(state.leaves()[i], state.depth()) == pair_products::<F>(
            level::<F>(state.leaves()[i], d),
        ));
    }
    assert(vals(state.claims@) =~= level_values::<F>(
        parents_of::<F>(state.children()),
        vals(state.point@),
    ));
}

/// Draws the weights of the next layer and states its sum-check.
#[verifier::rlimit(30)]
pub fn prove_product_layer_start<F: PrimeField, O, T: TranscriptWrite<F, O>>(
    state: &ProductProver<F>,
    transcript: &mut T,
) -> (r: ProductLayer<F>)
    requires
        state.wf(),
        state.point@.len() < state.num_layers,
    ensures
        r.coeffs@.len() == state.trees@.len(),
        final(transcript).log() == old(transcript).log() + drawn(vals(r.coeffs@)),
        r.instance is Some <==> state.point@.len() > 0,
        r.instance matches Some(instance) ==> {
            &&& instance_fits(instance)
            &&& instance.num_vars == state.point@.len()
            &&& instance.degree == 3
            &&& instance.terms_spec() == layer_terms(vals(r.coeffs@))
            &&& mat(instance.polys@) == layer_polys::<F>(
                state.children(),
                vals(state.point@),
            )
            &&& instance.claim.val() == dot::<F>(vals(state.claims@), vals(r.coeffs@))
            &&& instance.holds()
        },
{
    let k: usize = state.trees.len();
    let coeffs = squeeze_challenges::<F, O, T>(transcript, k);
    if state.point.len() == 0 {
        return ProductLayer { coeffs, instance: None };
    }
    let claim = inner_product(&state.claims, &coeffs);
    let ghost point = vals(state.point@);
    let ghost children = state.children();
    let ghost all = layer_polys::<F>(children, point);
    let ghost allt = layer_terms(vals(coeffs@));
    proof {
        claims_are_parent_values(*state);
        assert(state.depth() >= 1);
        assert(point.len() == state.point@.len());
    }
    let child_level: usize = state.num_layers - state.point.len() - 1;
    let mut polys: Vec<Vec<F>> = Vec::new();
    polys.push(equality_mle_evals_on_hypercube(&state.point));
    let mut terms: Vec<ProductTerm<F>> = Vec::new();
    let mut i: usize = 0;
    assert(mat(polys@) =~= all.take(1));
    assert(terms_view(terms@) =~= allt.take(0));
    while i < k
        invariant
            i <= k,
            k == state.trees@.len(),
            state.wf(),
            child_level == state.depth() - 1,
            state.point@.len() < state.num_layers,
            coeffs@.len() == k,
            point == vals(state.point@),
            children == state.children(),
            rect(children, exp2(state.point@.len() + 1)),
            exp2(state.point@.len() + 1) == 2 * exp2(state.point@.len()),
            all == layer_polys::<F>(children, point),
            allt == layer_terms(vals(coeffs@)),
            polys@.len() == 1 + 2 * i,
            terms@.len() == i,
            mat(polys@) == all.take(1 + 2 * i),
            terms_view(terms@) == allt.take(i as int),
            forall|t: int, j: int|
                0 <= t < i && 0 <= j < terms@[t].factors@.len() ==> #[trigger]
                    terms@[t].factors@[j] < 1 + 2 * k,
        decreases k - i,
    {
        proof {
            let tree = state.trees@[i as int]@;
            assert(mat(tree) == levels::<F>(state.leaves()[i as int], state.num_layers as nat));
            assert(mat(tree).len() == tree.len());
            assert(mat(tree)[child_level as int] == children[i as int]);
            assert(children[i as int].len() == exp2(state.point@.len() + 1));
            assert(vals(tree[child_level as int]@).len() == tree[child_level as int]@.len());
        }
        let (left, right) = split_pairs(state.trees[i][child_level].as_slice());
        let mut factors: Vec<usize> = Vec::new();
        factors.push(0);
        factors.push(1 + 2 * i);
        factors.push(2 + 2 * i);
        assert(factors@ =~= seq![0usize, (1 + 2 * i) as usize, (2 + 2 * i) as usize]);
        let ghost before = terms@;
        terms.push(ProductTerm { coeff: coeffs[i], factors });
        let ghost before_polys = polys@;
        polys.push(left);
        polys.push(right);
        i = i + 1;
        proof {
            mat_push(before_polys, left);
            mat_push(before_polys.push(left), right);
            assert((1 + 2 * (i - 1) - 1) % 2 == 0 && (1 + 2 * (i - 1) - 1) / 2 == i - 1);
            assert((2 + 2 * (i - 1) - 1) % 2 == 1 && (2 + 2 * (i - 1) - 1) / 2 == i - 1);
            assert(all.take(1 + 2 * i) =~= all.take(1 + 2 * (i - 1)).push(
                all[1 + 2 * (i - 1)],
            ).push(all[2 + 2 * (i - 1)]));
            assert(terms_view(terms@) =~= allt.take(i as int));
        }
    }
    let num_vars: usize = state.point.len();
    proof {
        assert(all.take(1 + 2 * k) =~= all);
        assert(allt.take(k as int) =~= allt);
        assert forall|s: int| 0 <= s < all.len() implies (#[trigger] all[s]).len() == exp2(
            num_vars as nat,
        ) by {
            if s > 0 {
                let c = children[(s - 1) / 2];
                assert(c.len() == exp2(state.point@.len() + 1));
            }
        }
        product_layer_claim_holds::<F>(children, vals(coeffs@), point);
        exp2_mono(num_vars as nat, state.num_layers as nat);
        assert forall|t: int| 0 <= t < terms@.len() implies (#[trigger] terms@[t]).factors@.len()
            <= 3 by {
            assert(terms_view(terms@)[t].factors == allt[t].factors);
        }
    }
    let instance = SumcheckInstance { num_vars, degree: 3, polys, terms, claim };
    ProductLayer { coeffs, instance: Some(instance) }
}

/// Writes the values of the two halves of every level at the point of the
/// sum-check, draws a branch and moves one level down.
pub fn prove_product_layer_finish<F: PrimeField, O, T: TranscriptWrite<F, O>>(
    state: ProductProver<F>,
    eval_point: Vec<F>,
    transcript: &mut T,
) -> (r: Result<ProductProver<F>, Error>)
    requires
        state.wf(),
        state.point@.len() < state.num_layers,
        eval_point@.len() == state.point@.len(),
    ensures
        T::infallible() ==> r is Ok,
        r matches Err(e) ==> e is Transcript,
        r matches Ok(next) ==> {
            let left = left_values::<F>(state.children(), vals(eval_point@));
            let right = right_values::<F>(state.children(), vals(eval_point@));
            let branch = next.point@[0];
            &&& next.wf()
            &&& next.num_layers == state.num_layers
            &&& next.trees == state.trees
            &&& next.roots == state.roots
            &&& next.point@ == seq![branch] + eval_point@
            &&& vals(next.claims@) == next_claims::<F>(left, right, branch.val())
            &&& final(transcript).log() == old(transcript).log() + sent_fields(left)
                + sent_fields(right) + drawn(seq![branch.val()])
        },
{
    let ghost log0 = transcript.log();
    let ghost z = vals(eval_point@);
    let ghost children = state.children();
    let ghost lefts = left_values::<F>(children, z);
    let ghost rights = right_values::<F>(children, z);
    proof {
        claims_are_parent_values(state);
        assert(z.len() == eval_point@.len());
    }
    let k: usize = state.trees.len();
    let child_level: usize = state.num_layers - state.point.len() - 1;
    let mut left_evals: Vec<F> = Vec::new();
    let mut right_evals: Vec<F> = Vec::new();
    let mut i: usize = 0;
    while i < k
        invariant
            i <= k,
            k == state.trees@.len(),
            state.wf(),
            child_level == state.depth() - 1,
            state.point@.len() < state.num_layers,
            eval_point@.len() == state.point@.len(),
            z == vals(eval_point@),
            children == state.children(),
            rect(children, exp2(state.point@.len() + 1)),
            exp2(state.point@.len() + 1) == 2 * exp2(state.point@.len()),
            lefts == left_values::<F>(children, z),
            rights == right_values::<F>(children, z),
            left_evals@.len() == i,
            right_evals@.len() == i,
            vals(left_evals@) == lefts.take(i as int),
            vals(right_evals@) == rights.take(i as int),
        decreases k - i,
    {
        proof {
            let tree = state.trees@[i as int]@;
            assert(mat(tree) == levels::<F>(state.leaves()[i as int], state.num_layers as nat));
            assert(mat(tree).len() == tree.len());
            assert(mat(tree)[child_level as int] == children[i as int]);
            assert(children[i as int].len() == exp2(state.point@.len() + 1));
            assert(vals(tree[child_level as int]@).len() == tree[child_level as int]@.len());
        }
        let (left, right) = split_pairs(state.trees[i][child_level].as_slice());
        let l = eval_mle_from_evals(&left, &eval_point);
        let r = eval_mle_from_evals(&right, &eval_point);
        proof {
            vals_push(left_evals@, l);
            vals_push(right_evals@, r);
            assert(lefts.take(i as int + 1) =~= lefts.take(i as int).push(lefts[i as int]));
            assert(rights.take(i as int + 1) =~= rights.take(i as int).push(rights[i as int]));
        }
        left_evals.push(l);
        right_evals.push(r);
        i = i + 1;
    }
    proof {
        assert(lefts.take(k as int) =~= lefts);
        assert(rights.take(k as int) =~= rights);
    }
    match write_field_elements(transcript, &left_evals) {
        Ok(_) => {},
        Err(e) => {
            return Err(e);
        },
    }
    match write_field_elements(transcript, &right_evals) {
        Ok(_) => {},
        Err(e) => {
            return Err(e);
        },
    }
    let branch = transcript.squeeze_challenge();
    let claims = interpolate_claims(&left_evals, &right_evals, branch);
    let ghost old_point = eval_point@;
    let point = prepend(branch, eval_point);
    proof {
        assert(drawn::<O>(seq![branch.val()]) =~= seq![Event::Challenge(branch.val())]);
        assert(transcript.log() =~= log0 + sent_fields(lefts) + sent_fields(rights) + drawn(
            seq![branch.val()],
        ));
    }
    let next = ProductProver {
        num_layers: state.num_layers,
        trees: state.trees,
        roots: state.roots,
        claims,
        point,
    };
    proof {
        assert(next.leaves() =~= state.leaves());
        assert(vals(next.point@) =~= seq![branch.val()] + z);
        assert(vals(claims@).len() == claims@.len());
        assert forall|j: int| 0 <= j < k implies (#[trigger] next.claims@[j]).val() == mle::<F>(
            level::<F>(next.leaves()[j], next.depth()),
            vals(next.point@),
        ) by {
            assert(vals(next.claims@)[j] == next_claims::<F>(lefts, rights, branch.val())[j]);
            assert(children[j].len() == exp2(z.len() + 1));
            branch_evaluates_level::<F>(children[j], branch.val(), z);
        }
        assert forall|j: int| 0 <= j < k implies {
            &&& mat((#[trigger] next.trees@[j])@) == levels::<F>(
                next.leaves()[j],
                next.num_layers as nat,
            )
            &&& next.leaves()[j].len() == exp2(next.num_layers as nat)
        } by {
            assert(next.trees@[j] == state.trees@[j]);
        }
        assert forall|j: int| 0 <= j < k implies (#[trigger] next.roots@[j]).val() == vprod::<F>(
            next.leaves()[j],
        ) by {
            assert(next.roots@[j] == state.roots@[j]);
        }
    }
    Ok(next)
}

/// The claims one level further down.
fn interpolate_claims<F: PrimeField>(left: &[F], right: &[F], branch: F) -> (r: Vec<F>)
    requires
        left@.len() == right@.len(),
    ensures
        vals(r@) == next_claims::<F>(vals(left@), vals(right@), branch.val()),
        r@.len() == left@.len(),
{
    let ghost goal = next_claims::<F>(vals(left@), vals(right@), branch.val());
    let mut out: Vec<F> = Vec::new();
    let mut i: usize = 0;
    while i < left.len()
        invariant
            i <= left@.len(),
            left@.len() == right@.len(),
            goal == next_claims::<F>(vals(left@), vals(right@), branch.val()),
            out@.len() == i,
            vals(out@) == goal.take(i as int),
        decreases left@.len() - i,
    {
        let x = left[i].plus(branch.times(right[i].minus(left[i])));
        proof {
            vals_push(out@, x);
            assert(goal.take(i as int + 1) =~= goal.take(i as int).push(goal[i as int]));
        }
        out.push(x);
        i = i + 1;
    }
    assert(goal.take(i as int) =~= goal);
    out
}

/// A point with one coordinate in front.
fn prepend<F: PrimeField>(first: F, rest: Vec<F>) -> (r: Vec<F>)
    ensures
        r@ == seq![first] + rest@,
{
    let mut out: Vec<F> = Vec::new();
    out.push(first);
    let mut rest = rest;
    out.append(&mut rest);
    out
}

/// The verifier's state between the layers of a batch of products.
pub struct ProductVerifier<F> {
    pub roots: Vec<F>,
    pub claims: Vec<F>,
    pub point: Vec<F>,
}

/// Reads the roots.
pub fn verify_products_start<F: PrimeField, O, T: TranscriptRead<F, O>>(
    num_products: usize,
    transcript: &mut T,
) -> (r: Result<ProductVerifier<F>, Error>)
    ensures
        final(transcript).held() == old(transcript).held(),
        r matches Err(e) ==> cut_within(
            e,
            old(transcript).log(),
            final(transcript).log(),
            num_products as nat,
            0,
        ),
        r matches Ok(state) ==> {
            &&& state.roots@.len() == num_products
            &&& vals(state.claims@) == vals(state.roots@)
            &&& state.claims@.len() == num_products
            &&& state.point@.len() == 0
            &&& final(transcript).log() == old(transcript).log() + sent_fields(
                vals(state.roots@),
            )
        },
{
    match read_field_elements(transcript, num_products) {
        Ok(roots) => {
            let claims = copied(&roots);
            proof {
                assert(vals(claims@).len() == claims@.len());
                assert(vals(roots@).len() == roots@.len());
            }
            Ok(ProductVerifier { roots, claims, point: Vec::new() })
        },
        Err(e) => Err(e),
    }
}

/// Draws the weights of the next layer and combines the claims with them.
pub fn verify_product_layer_start<F: PrimeField, O, T: TranscriptRead<F, O>>(
    state: &ProductVerifier<F>,
    transcript: &mut T,
) -> (r: (Vec<F>, F))
    ensures
        final(transcript).held() == old(transcript).held(),
        r.0@.len() == state.claims@.len(),
        r.1.val() == dot::<F>(vals(state.claims@), vals(r.0@)),
        final(transcript).log() == old(transcript).log() + drawn(vals(r.0@)),
{
    let coeffs = squeeze_challenges::<F, O, T>(transcript, state.claims.len());
    let combined = inner_product(&state.claims, &coeffs);
    (coeffs, combined)
}

/// What the sum-check of one layer must end in.
pub fn product_layer_expected<F: PrimeField>(coeffs: &[F], left: &[F], right: &[F], eq: F) -> (r: F)
    requires
        coeffs@.len() == left@.len() == right@.len(),
    ensures
        r.val() == layer_expected::<F>(vals(coeffs@), vals(left@), vals(right@), eq.val()),
{
    let ghost all = Seq::new(
        coeffs@.len(),
        |i: int|
            fmul::<F>(
                fmul::<F>(fmul::<F>(coeffs@[i].val(), left@[i].val()), right@[i].val()),
                eq.val(),
            ),
    );
    let mut acc = F::zero();
    let mut i: usize = 0;
    assert(all.take(0) =~= Seq::empty());
    while i < coeffs.len()
        invariant
            i <= coeffs@.len(),
            coeffs@.len() == left@.len() == right@.len(),
            all.len() == coeffs@.len(),
            forall|j: int|
                0 <= j < all.len() ==> #[trigger] all[j] == fmul::<F>(
                    fmul::<F>(fmul::<F>(coeffs@[j].val(), left@[j].val()), right@[j].val()),
                    eq.val(),
                ),
            acc.val() == vsum::<F>(all.take(i as int)),
        decreases coeffs@.len() - i,
    {
        proof {
            assert(all.take(i as int + 1) =~= all.take(i as int).push(all[i as int]));
            vsum_push::<F>(all.take(i as int), all[i as int]);
        }
        acc = acc.plus(coeffs[i].times(left[i]).times(right[i]).times(eq));
        i = i + 1;
    }
    proof {
        assert(all.take(i as int) =~= all);
        let v = (vals(coeffs@), vals(left@), vals(right@));
        assert(all =~= Seq::new(
            v.0.len(),
            |i: int| fmul::<F>(fmul::<F>(fmul::<F>(v.0[i], v.1[i]), v.2[i]), eq.val()),
        ));
    }
    acc
}

/// What was read of a layer makes its sum-check end in `terminal`.
pub open spec fn layer_accepted<F: PrimeField>(
    state: ProductVerifier<F>,
    coeffs: Seq<int>,
    terminal: int,
    eval_point: Seq<int>,
    left: Seq<int>,
    right: Seq<int>,
) -> bool {
    terminal == layer_expected::<F>(
        coeffs,
        left,
        right,
        eq_product::<F>(eval_point, vals(state.point@)),
    )
}

/// Two lists were read.
pub open spec fn halves_read<O>(
    log0: Seq<Event<O>>,
    log1: Seq<Event<O>>,
    n: nat,
    left: Seq<int>,
    right: Seq<int>,
) -> bool {
    &&& left.len() == n
    &&& right.len() == n
    &&& log1 == log0 + sent_fields(left) + sent_fields(right)
}

/// A layer was read and refused.
pub open spec fn layer_refused<F: PrimeField, O>(
    state: ProductVerifier<F>,
    coeffs: Seq<int>,
    terminal: int,
    eval_point: Seq<int>,
    log0: Seq<Event<O>>,
    log1: Seq<Event<O>>,
) -> bool {
    exists|left: Seq<int>, right: Seq<int>| #[trigger]
        halves_read(log0, log1, state.claims@.len(), left, right) && !layer_accepted(
            state,
            coeffs,
            terminal,
            eval_point,
            left,
            right,
        )
}

/// A layer was read and accepted, and the next state follows from it.
pub open spec fn layer_passed<F: PrimeField, O>(
    state: ProductVerifier<F>,
    next: ProductVerifier<F>,
    coeffs: Seq<int>,
    terminal: int,
    eval_point: Seq<F>,
    log0: Seq<Event<O>>,
    log1: Seq<Event<O>>,
) -> bool {
    exists|left: Seq<int>, right: Seq<int>, log: Seq<Event<O>>|
        {
            &&& #[trigger] halves_read(log0, log, state.claims@.len(), left, right)
            &&& layer_accepted(state, coeffs, terminal, vals(eval_point), left, right)
            &&& next.roots == state.roots
            &&& next.point@ == seq![next.point@[0]] + eval_point
            &&& vals(next.claims@) == next_claims::<F>(left, right, next.point@[0].val())
            &&& log1 == log + drawn(seq![next.point@[0].val()])
        }
}

/// Reads the values of the two halves of every level, holds the end of the
/// sum-check to them, draws a branch and moves one level down.
pub fn verify_product_layer_finish<F: PrimeField, O, T: TranscriptRead<F, O>>(
    state: ProductVerifier<F>,
    coeffs: &[F],
    terminal: F,
    eval_point: Vec<F>,
    transcript: &mut T,
) -> (r: Result<ProductVerifier<F>, Error>)
    requires
        coeffs@.len() == state.claims@.len(),
        eval_point@.len() == state.point@.len(),
    ensures
        final(transcript).held() == old(transcript).held(),
        r matches Ok(next) ==> {
            &&& next.claims@.len() == state.claims@.len()
            &&& next.point@.len() == state.point@.len() + 1
            &&& layer_passed(
                state,
                next,
                vals(coeffs@),
                terminal.val(),
                eval_point@,
                old(transcript).log(),
                final(transcript).log(),
            )
        },
        r matches Err(e) ==> cut_within(
            e,
            old(transcript).log(),
            final(transcript).log(),
            2 * state.claims@.len(),
            0,
        ) || (e.is_open("SPARK product layer failed")
            && layer_refused(
            state,
            vals(coeffs@),
            terminal.val(),
            vals(eval_point@),
            old(transcript).log(),
            final(transcript).log(),
        )),
{
    let ghost log0 = transcript.log();
    let k: usize = state.claims.len();
    let left = match read_field_elements(transcript, k) {
        Ok(left) => left,
        Err(e) => {
            proof {
                let n = k as nat;
                assert(went(log0, log0, 0, 0));
                cut_later(e, log0, log0, transcript.log(), 0, 0, n, 0, 2 * n, 0);
            }
            return Err(e);
        },
    };
    let ghost between = transcript.log();
    let right = match read_field_elements(transcript, k) {
        Ok(right) => right,
        Err(e) => {
            proof {
                let n = k as nat;
                went_plain::<O>(log0, vals(left@), Seq::empty());
                cut_later(e, log0, between, transcript.log(), n, 0, n, 0, 2 * n, 0);
            }
            return Err(e);
        },
    };
    let eq = equality_mle_eval(&eval_point, &state.point);
    let expected = product_layer_expected(coeffs, &left, &right, eq);
    let ghost log1 = transcript.log();
    proof {
        assert(vals(left@).len() == k && vals(right@).len() == k);
        assert(halves_read(log0, log1, k as nat, vals(left@), vals(right@)));
    }
    if !terminal.equals(expected) {
        return Err(Error::open("SPARK product layer failed"));
    }
    let branch = transcript.squeeze_challenge();
    let claims = interpolate_claims(&left, &right, branch);
    let ghost eval = eval_point@;
    let point = prepend(branch, eval_point);
    proof {
        assert(drawn::<O>(seq![branch.val()]) =~= seq![Event::Challenge(branch.val())]);
        assert(transcript.log() =~= log1 + drawn(seq![branch.val()]));
        assert(vals(claims@).len() == claims@.len());
    }
    Ok(ProductVerifier { roots: state.roots, claims, point })
}

/// The levels that layer `j` of a batch leads to.
pub open spec fn children_at<F: Residue>(leaves: Seq<Seq<int>>, num_layers: nat, j: int) -> Seq<
    Seq<int>,
> {
    Seq::new(leaves.len(), |i: int| level::<F>(leaves[i], (num_layers - j - 1) as nat))
}

/// The steps of layer `j`: the weights, the sum-check except in the first layer,
/// the values of both halves, the branch.
pub open spec fn layer_events<F: Residue, O>(
    leaves: Seq<Seq<int>>,
    num_layers: nat,
    coeffs: Seq<Seq<int>>,
    points: Seq<Seq<int>>,
    j: int,
) -> Seq<Event<O>> {
    let children = children_at::<F>(leaves, num_layers, j);
    let z = points[j + 1].drop_first();
    drawn(coeffs[j]) + (if j == 0 {
        Seq::empty()
    } else {
        run_events::<F, O>(
            layer_terms(coeffs[j]),
            layer_polys::<F>(children, points[j]),
            3,
            z,
        )
    }) + sent_fields(left_values::<F>(children, z)) + sent_fields(
        right_values::<F>(children, z),
    ) + drawn(seq![points[j + 1][0]])
}

/// The steps of the first `k` layers.
pub open spec fn product_events<F: Residue, O>(
    leaves: Seq<Seq<int>>,
    num_layers: nat,
    coeffs: Seq<Seq<int>>,
    points: Seq<Seq<int>>,
    k: nat,
) -> Seq<Event<O>>
    decreases k,
{
    if k == 0 {
        Seq::empty()
    } else {
        product_events::<F, O>(leaves, num_layers, coeffs, points, (k - 1) as nat)
            + layer_events::<F, O>(leaves, num_layers, coeffs, points, k - 1)
    }
}

/// The weights and points of all layers: every point is the next branch in front
/// of the point of a sum-check.
pub open spec fn layers_shaped(
    num_products: nat,
    k: nat,
    coeffs: Seq<Seq<int>>,
    points: Seq<Seq<int>>,
) -> bool {
    &&& coeffs.len() == k
    &&& points.len() == k + 1
    &&& rect(coeffs, num_products)
    &&& forall|j: int| 0 <= j <= k ==> (#[trigger] points[j]).len() == j
}

proof fn product_events_prefix<F: Residue, O>(
    leaves: Seq<Seq<int>>,
    num_layers: nat,
    c0: Seq<Seq<int>>,
    p0: Seq<Seq<int>>,
    c1: Seq<Seq<int>>,
    p1: Seq<Seq<int>>,
    k: nat,
)
    requires
        forall|j: int| 0 <= j < k ==> c0[j] == #[trigger] c1[j],
        forall|j: int| 0 <= j <= k ==> p0[j] == #[trigger] p1[j],
    ensures
        product_events::<F, O>(leaves, num_layers, c0, p0, k) == product_events::<F, O>(
            leaves,
            num_layers,
            c1,
            p1,
            k,
        ),
    decreases k,
{
    if k > 0 {
        product_events_prefix::<F, O>(leaves, num_layers, c0, p0, c1, p1, (k - 1) as nat);
        assert(c0[k - 1] == c1[k - 1]);
        assert(p0[k - 1] == p1[k - 1]);
        assert(p0[k as int] == p1[k as int]);
    }
}

/// The steps that a prover of products wrote.
pub open spec fn products_written<F: PrimeField, O>(
    leaves: Seq<Seq<int>>,
    num_layers: nat,
    point: Seq<int>,
    coeffs: Seq<Seq<int>>,
    points: Seq<Seq<int>>,
    log0: Seq<Event<O>>,
    log1: Seq<Event<O>>,
) -> bool {
    &&& layers_shaped(leaves.len(), num_layers, coeffs, points)
    &&& points[num_layers as int] == point
    &&& log1 == log0 + sent_fields(
        Seq::new(leaves.len(), |i: int| vprod::<F>(leaves[i])),
    ) + product_events::<F, O>(leaves, num_layers, coeffs, points, num_layers)
}

/// Proves the products of several vectors of one length, layer by layer, and
/// ends with claims about the vectors themselves.
pub fn prove_products<F: PrimeField, O, T: TranscriptWrite<F, O>>(
    leaf_vectors: Vec<Vec<F>>,
    transcript: &mut T,
) -> (r: Result<ProductProver<F>, Error>)
    requires
        leaf_vectors@.len() > 0,
        2 * leaf_vectors@.len() < usize::MAX,
        is_pow2(leaf_vectors@[0]@.len() as int),
        rect(mat(leaf_vectors@), leaf_vectors@[0]@.len()),
    ensures
        T::infallible() ==> r is Ok,
        r matches Err(e) ==> e is Transcript,
        r matches Ok(state) ==> {
            &&& state.wf()
            &&& state.leaves() == mat(leaf_vectors@)
            &&& state.num_layers == log2(leaf_vectors@[0]@.len() as int)
            &&& state.point@.len() == state.num_layers
            &&& exists|coeffs: Seq<Seq<int>>, points: Seq<Seq<int>>| #[trigger]
                products_written::<F, O>(
                    mat(leaf_vectors@),
                    state.num_layers as nat,
                    vals(state.point@),
                    coeffs,
                    points,
                    old(transcript).log(),
                    final(transcript).log(),
                )
        },
{
    let ghost log0 = transcript.log();
    let ghost leaves = mat(leaf_vectors@);
    let mut state = match prove_products_start(leaf_vectors, transcript) {
        Ok(state) => state,
        Err(e) => {
            return Err(e);
        },
    };
    let ghost roots = Seq::new(leaves.len(), |i: int| vprod::<F>(leaves[i]));
    let ghost n = state.num_layers as nat;
    let ghost log1 = transcript.log();
    let ghost mut coeffs: Seq<Seq<int>> = Seq::empty();
    let ghost mut points: Seq<Seq<int>> = seq![Seq::empty()];
    proof {
        assert(vals(state.point@) =~= Seq::empty());
        assert(vals(state.roots@) =~= roots) by {
            assert forall|i: int| 0 <= i < roots.len() implies vals(state.roots@)[i]
                == roots[i] by {
                let _ = state.roots@[i];
            }
        }
        assert(log1 + product_events::<F, O>(leaves, n, coeffs, points, 0) =~= log1);
    }
    while !state.done()
        invariant
            state.wf(),
            state.leaves() == leaves,
            state.num_layers == n,
            log0 == old(transcript).log(),
            log1 == log0 + sent_fields(roots),
            roots == Seq::new(leaves.len(), |i: int| vprod::<F>(leaves[i])),
            layers_shaped(leaves.len(), state.point@.len(), coeffs, points),
            points[state.point@.len() as int] == vals(state.point@),
            transcript.log() == log1 + product_events::<F, O>(
                leaves,
                n,
                coeffs,
                points,
                state.point@.len(),
            ),
        decreases state.num_layers - state.point@.len(),
    {
        let ghost j = state.point@.len();
        let ghost pt = vals(state.point@);
        let ghost before = transcript.log();
        let ghost children = state.children();
        proof {
            assert(children =~= children_at::<F>(leaves, n, j as int));
            assert(state.trees@.len() == state.leaves().len());
        }
        let layer = prove_product_layer_start(&state, transcript);
        let ghost c = vals(layer.coeffs@);
        let eval_point: Vec<F> = match &layer.instance {
            Some(instance) => {
                match sumcheck_prove(instance, transcript) {
                    Ok(answer) => answer.0,
                    Err(e) => {
                        return Err(e);
                    },
                }
            },
            None => Vec::new(),
        };
        let ghost z = vals(eval_point@);
        let next = match prove_product_layer_finish(state, eval_point, transcript) {
            Ok(next) => next,
            Err(e) => {
                return Err(e);
            },
        };
        proof {
            let np = vals(next.point@);
            assert(np =~= seq![next.point@[0].val()] + z);
            assert(np.drop_first() =~= z);
            let nc = coeffs.push(c);
            let npts = points.push(np);
            product_events_prefix::<F, O>(leaves, n, coeffs, points, nc, npts, j);
            assert(nc[j as int] == c);
            assert(npts[j as int] == pt && npts[(j + 1) as int] == np);
            assert forall|i: int| 0 <= i < nc.len() implies (#[trigger] nc[i]).len()
                == leaves.len() by {
                if i < j {
                    assert(nc[i] == coeffs[i]);
                }
            }
            assert forall|i: int| 0 <= i <= j + 1 implies (#[trigger] npts[i]).len() == i by {
                if i <= j {
                    assert(npts[i] == points[i]);
                }
            }
            let run = if j == 0 {
                Seq::empty()
            } else {
                run_events::<F, O>(layer_terms(c), layer_polys::<F>(children, pt), 3, z)
            };
            assert(transcript.log() =~= before + layer_events::<F, O>(
                leaves,
                n,
                nc,
                npts,
                j as int,
            ));
            assert(transcript.log() =~= log1 + product_events::<F, O>(
                leaves,
                n,
                nc,
                npts,
                j + 1,
            ));
            coeffs = nc;
            points = npts;
        }
        state = next;
    }
    proof {
        assert(products_written::<F, O>(
            leaves,
            n,
            vals(state.point@),
            coeffs,
            points,
            log0,
            transcript.log(),
        ));
    }
    Ok(state)
}

/// What a verifier drew and read in one layer.
pub struct LayerRun<O> {
    pub coeffs: Seq<int>,
    pub terminal: int,
    pub left: Seq<int>,
    pub right: Seq<int>,
    pub log: Seq<Event<O>>,
}

/// The sum-check of a layer, which the first layer does without.
pub open spec fn layer_reduced<F: Residue, O>(
    claims: Seq<int>,
    point: Seq<int>,
    z: Seq<int>,
    r: LayerRun<O>,
    log0: Seq<Event<O>>,
) -> bool {
    &&& r.coeffs.len() == claims.len()
    &&& z.len() == point.len()
    &&& if point.len() == 0 {
        r.terminal == dot::<F>(claims, r.coeffs) && r.log == log0 + drawn(r.coeffs)
    } else {
        sumcheck_verified::<F, O>(
            point.len(),
            3,
            dot::<F>(claims, r.coeffs),
            r.terminal,
            z,
            log0 + drawn(r.coeffs),
            r.log,
        )
    }
}

/// One layer was read and accepted, and leads to the next claims and point.
pub open spec fn layer_run_accepted<F: Residue, O>(
    claims: Seq<int>,
    point: Seq<int>,
    next: Seq<int>,
    next_point: Seq<int>,
    r: LayerRun<O>,
    log0: Seq<Event<O>>,
    log1: Seq<Event<O>>,
) -> bool {
    let z = next_point.drop_first();
    &&& next_point.len() == point.len() + 1
    &&& layer_reduced::<F, O>(claims, point, z, r, log0)
    &&& r.left.len() == claims.len()
    &&& r.right.len() == claims.len()
    &&& r.terminal == layer_expected::<F>(
        r.coeffs,
        r.left,
        r.right,
        eq_product::<F>(z, point),
    )
    &&& next == next_claims::<F>(r.left, r.right, next_point[0])
    &&& log1 == r.log + sent_fields(r.left) + sent_fields(r.right) + drawn(seq![next_point[0]])
}

/// One layer was accepted.
pub open spec fn layer_verified<F: Residue, O>(
    claims: Seq<int>,
    point: Seq<int>,
    next: Seq<int>,
    next_point: Seq<int>,
    log0: Seq<Event<O>>,
    log1: Seq<Event<O>>,
) -> bool {
    exists|r: LayerRun<O>| #[trigger]
        layer_run_accepted::<F, O>(claims, point, next, next_point, r, log0, log1)
}

/// The first `k` layers were accepted.
pub open spec fn products_verified<F: Residue, O>(
    roots: Seq<int>,
    k: nat,
    claims: Seq<int>,
    point: Seq<int>,
    log0: Seq<Event<O>>,
    log1: Seq<Event<O>>,
) -> bool
    decreases k,
{
    if k == 0 {
        claims == roots && point.len() == 0 && log1 == log0
    } else {
        exists|c: Seq<int>, p: Seq<int>, mid: Seq<Event<O>>| #[trigger]
            layer_verified::<F, O>(c, p, claims, point, mid, log1) && products_verified::<F, O>(
                roots,
                (k - 1) as nat,
                c,
                p,
                log0,
                mid,
            )
    }
}

proof fn products_verified_step<F: Residue, O>(
    roots: Seq<int>,
    k: nat,
    c: Seq<int>,
    p: Seq<int>,
    claims: Seq<int>,
    point: Seq<int>,
    log0: Seq<Event<O>>,
    mid: Seq<Event<O>>,
    log1: Seq<Event<O>>,
)
    requires
        products_verified::<F, O>(roots, k, c, p, log0, mid),
        layer_verified::<F, O>(c, p, claims, point, mid, log1),
    ensures
        products_verified::<F, O>(roots, k + 1, claims, point, log0, log1),
{
    assert(products_verified::<F, O>(roots, ((k + 1) - 1) as nat, c, p, log0, mid));
}

/// A layer was read whose sum-check does not end in what the values read give.
pub open spec fn layer_run_refused<F: Residue, O>(
    claims: Seq<int>,
    point: Seq<int>,
    z: Seq<int>,
    r: LayerRun<O>,
    log0: Seq<Event<O>>,
    log1: Seq<Event<O>>,
) -> bool {
    &&& layer_reduced::<F, O>(claims, point, z, r, log0)
    &&& r.left.len() == claims.len()
    &&& r.right.len() == claims.len()
    &&& r.terminal != layer_expected::<F>(
        r.coeffs,
        r.left,
        r.right,
        eq_product::<F>(z, point),
    )
    &&& log1 == r.log + sent_fields(r.left) + sent_fields(r.right)
}

/// Why a layer was refused: for its sum-check, or for the values read.
pub open spec fn layer_unverified<F: Residue, O>(
    claims: Seq<int>,
    point: Seq<int>,
    log0: Seq<Event<O>>,
    log1: Seq<Event<O>>,
    e: Error,
) -> bool {
    ||| round_error(e) && exists|coeffs: Seq<int>|
        coeffs.len() == claims.len() && #[trigger] sumcheck_refused::<F, O>(
            point.len(),
            3,
            dot::<F>(claims, coeffs),
            log0 + drawn(coeffs),
            log1,
        )
    ||| e.is_open("SPARK product layer failed") && exists|z: Seq<int>, r: LayerRun<O>| #[trigger]
        layer_run_refused::<F, O>(claims, point, z, r, log0, log1)
}

/// Some layer of a batch of products was refused.
pub open spec fn products_refused<F: Residue, O>(
    num_products: nat,
    num_layers: nat,
    log0: Seq<Event<O>>,
    log1: Seq<Event<O>>,
    e: Error,
) -> bool {
    exists|
        roots: Seq<int>,
        k: nat,
        claims: Seq<int>,
        point: Seq<int>,
        mid: Seq<Event<O>>,
    |
        {
            &&& k < num_layers
            &&& roots.len() == num_products
            &&& #[trigger] products_verified::<F, O>(
                roots,
                k,
                claims,
                point,
                log0 + sent_fields(roots),
                mid,
            )
            &&& layer_unverified::<F, O>(claims, point, mid, log1, e)
        }
}

/// How many field elements the layer sends that leads on from a point of `k`
/// coordinates.
pub open spec fn layer_fields(num_products: nat, k: nat) -> nat {
    k * 4 + 2 * num_products
}

/// How many field elements the first `k` layers send.
pub open spec fn layers_fields(num_products: nat, k: nat) -> nat
    decreases k,
{
    if k == 0 {
        0
    } else {
        layers_fields(num_products, (k - 1) as nat) + layer_fields(num_products, (k - 1) as nat)
    }
}

/// How many field elements a batch of products sends: the products, then the
/// layers.
pub open spec fn products_fields(num_products: nat, k: nat) -> nat {
    num_products + layers_fields(num_products, k)
}

/// More layers send no less.
proof fn layers_fields_mono(num_products: nat, j: nat, k: nat)
    requires
        j <= k,
    ensures
        layers_fields(num_products, j) <= layers_fields(num_products, k),
    decreases k,
{
    if j < k {
        layers_fields_mono(num_products, j, (k - 1) as nat);
    }
}

/// How many messages lead to the end of the sum-check of a layer.
pub proof fn reduced_went<F: PrimeField, O>(
    claims: Seq<int>,
    point: Seq<int>,
    coeffs: Seq<int>,
    terminal: int,
    z: Seq<int>,
    log0: Seq<Event<O>>,
    log1: Seq<Event<O>>,
)
    requires
        if point.len() == 0 {
            log1 == log0 + drawn(coeffs)
        } else {
            sumcheck_verified::<F, O>(
                point.len(),
                3,
                dot::<F>(claims, coeffs),
                terminal,
                z,
                log0 + drawn(coeffs),
                log1,
            )
        },
    ensures
        went(log0, log1, point.len() * 4, 0),
{
    went_plain::<O>(log0, coeffs, Seq::empty());
    if point.len() > 0 {
        let start = log0 + drawn::<O>(coeffs);
        let claim = dot::<F>(claims, coeffs);
        sumcheck_went::<F, O>(point.len(), 3, claim, terminal, z, start, log1);
    }
}

/// How many messages a layer has.
pub proof fn layer_went<F: PrimeField, O>(
    claims: Seq<int>,
    point: Seq<int>,
    next: Seq<int>,
    next_point: Seq<int>,
    r: LayerRun<O>,
    log0: Seq<Event<O>>,
    log1: Seq<Event<O>>,
)
    requires
        layer_run_accepted::<F, O>(claims, point, next, next_point, r, log0, log1),
    ensures
        next.len() == claims.len(),
        log0.is_prefix_of(r.log),
        r.log.is_prefix_of(log1),
        went(log0, log1, layer_fields(claims.len(), point.len()), 0),
{
    let z = next_point.drop_first();
    let branch = seq![next_point[0]];
    let a = r.log + sent_fields::<O>(r.left);
    let b = a + sent_fields::<O>(r.right);
    reduced_went::<F, O>(claims, point, r.coeffs, r.terminal, z, log0, r.log);
    went_plain::<O>(r.log, r.left, Seq::empty());
    went_plain::<O>(a, r.right, Seq::empty());
    went_plain::<O>(b, branch, Seq::empty());
}

/// How many messages the first `k` layers have.
pub proof fn layers_went<F: PrimeField, O>(
    roots: Seq<int>,
    k: nat,
    claims: Seq<int>,
    point: Seq<int>,
    log0: Seq<Event<O>>,
    log1: Seq<Event<O>>,
)
    requires
        products_verified::<F, O>(roots, k, claims, point, log0, log1),
    ensures
        claims.len() == roots.len(),
        point.len() == k,
        went(log0, log1, layers_fields(roots.len(), k), 0),
    decreases k,
{
    if k > 0 {
        let (c, p, mid) = choose|c: Seq<int>, p: Seq<int>, mid: Seq<Event<O>>| #[trigger]
            layer_verified::<F, O>(c, p, claims, point, mid, log1) && products_verified::<F, O>(
                roots,
                (k - 1) as nat,
                c,
                p,
                log0,
                mid,
            );
        layers_went::<F, O>(roots, (k - 1) as nat, c, p, log0, mid);
        let r = choose|r: LayerRun<O>| #[trigger]
            layer_run_accepted::<F, O>(c, p, claims, point, r, mid, log1);
        layer_went::<F, O>(c, p, claims, point, r, mid, log1);
    }
}

/// A transcript that is cut within a layer is cut within the batch.
proof fn cut_in_layer<F: PrimeField, O>(
    e: Error,
    roots: Seq<int>,
    k: nat,
    n: nat,
    claims: Seq<int>,
    point: Seq<int>,
    log0: Seq<Event<O>>,
    before: Seq<Event<O>>,
    log1: Seq<Event<O>>,
)
    requires
        k < n,
        products_verified::<F, O>(roots, k, claims, point, log0 + sent_fields(roots), before),
        cut_within(e, before, log1, layer_fields(roots.len(), k), 0),
    ensures
        cut_within(e, log0, log1, products_fields(roots.len(), n), 0),
{
    let np = roots.len();
    let start = log0 + sent_fields::<O>(roots);
    let so_far = layers_fields(np, k);
    layers_went::<F, O>(roots, k, claims, point, start, before);
    went_plain::<O>(log0, roots, Seq::empty());
    went_on(log0, start, before, np, 0, so_far, 0);
    layers_fields_mono(np, k + 1, n);
    cut_later(
        e,
        log0,
        before,
        log1,
        np + so_far,
        0,
        layer_fields(np, k),
        0,
        products_fields(np, n),
        0,
    );
}

/// Verifies the products of several vectors of one length, layer by layer, and
/// ends with claims about the vectors themselves.
#[verifier::rlimit(30)]
pub fn verify_products<F: PrimeField, O, T: TranscriptRead<F, O>>(
    num_products: usize,
    len: usize,
    transcript: &mut T,
) -> (r: Result<ProductVerifier<F>, Error>)
    requires
        is_pow2(len as int),
    ensures
        final(transcript).held() == old(transcript).held(),
        ({
            let (log0, log1) = (old(transcript).log(), final(transcript).log());
            let n = log2(len as int);
            &&& r matches Ok(state) ==> {
                let roots = vals(state.roots@);
                &&& state.roots@.len() == num_products
                &&& state.claims@.len() == num_products
                &&& state.point@.len() == n
                &&& products_verified::<F, O>(
                    roots,
                    n,
                    vals(state.claims@),
                    vals(state.point@),
                    log0 + sent_fields(roots),
                    log1,
                )
            }
            &&& r matches Err(e) ==> cut_within(
                e,
                log0,
                log1,
                products_fields(num_products as nat, n),
                0,
            ) || products_refused::<F, O>(
                num_products as nat,
                n,
                log0,
                log1,
                e,
            )
        }),
{
    let ghost log0 = transcript.log();
    let n: usize = log2_power_of_two(len);
    let mut state = match verify_products_start(num_products, transcript) {
        Ok(state) => state,
        Err(e) => {
            proof {
                let np = num_products as nat;
                let all = products_fields(np, n as nat);
                assert(went(log0, log0, 0, 0));
                cut_later(e, log0, log0, transcript.log(), 0, 0, np, 0, all, 0);
            }
            return Err(e);
        },
    };
    let ghost roots = vals(state.roots@);
    let ghost log1 = transcript.log();
    proof {
        assert(vals(state.point@).len() == 0);
    }
    while state.point.len() < n
        invariant
            transcript.held() == old(transcript).held(),
            state.point@.len() <= n,
            n == log2(len as int),
            log0 == old(transcript).log(),
            log1 == log0 + sent_fields(roots),
            vals(state.roots@) == roots,
            state.roots@.len() == num_products,
            roots.len() == num_products,
            state.claims@.len() == num_products,
            products_verified::<F, O>(
                roots,
                state.point@.len(),
                vals(state.claims@),
                vals(state.point@),
                log1,
                transcript.log(),
            ),
        decreases n - state.point@.len(),
    {
        let ghost k = state.point@.len();
        let ghost before = transcript.log();
        let ghost claims = vals(state.claims@);
        let ghost point = vals(state.point@);
        let (coeffs, combined) = verify_product_layer_start(&state, transcript);
        let ghost c = vals(coeffs@);
        let (terminal, eval_point) = if state.point.len() == 0 {
            (combined, Vec::new())
        } else {
            match sumcheck_verify(state.point.len(), 3, combined, transcript) {
                Ok(end) => end,
                Err(e) => {
                    proof {
                        let rounds = point.len() * 4;
                        if cut_within(e, before + drawn(c), transcript.log(), rounds, 0) {
                            went_plain::<O>(before, c, Seq::empty());
                            cut_later(
                                e,
                                before,
                                before + drawn::<O>(c),
                                transcript.log(),
                                0,
                                0,
                                rounds,
                                0,
                                layer_fields(num_products as nat, k),
                                0,
                            );
                            cut_in_layer::<F, O>(
                                e,
                                roots,
                                k,
                                n as nat,
                                claims,
                                point,
                                log0,
                                before,
                                transcript.log(),
                            );
                        } else {
                            assert(sumcheck_refused::<F, O>(
                                point.len(),
                                3,
                                dot::<F>(claims, c),
                                before + drawn(c),
                                transcript.log(),
                            ));
                            assert(layer_unverified::<F, O>(
                                claims,
                                point,
                                before,
                                transcript.log(),
                                e,
                            ));
                        }
                    }
                    return Err(e);
                },
            }
        };
        let ghost z = vals(eval_point@);
        let ghost mid = transcript.log();
        let ghost old_state = state;
        proof {
            assert(z.len() == point.len());
            if point.len() > 0 {
                assert(sumcheck_verified::<F, O>(
                    point.len(),
                    3,
                    dot::<F>(claims, c),
                    terminal.val(),
                    z,
                    before + drawn(c),
                    mid,
                ));
            }
        }
        let ghost eval = eval_point@;
        match verify_product_layer_finish(state, &coeffs, terminal, eval_point, transcript) {
            Ok(next) => {
                proof {
                    let (left, right, log) = choose|
                        left: Seq<int>,
                        right: Seq<int>,
                        log: Seq<Event<O>>,
                    |
                        {
                            &&& #[trigger] halves_read(
                                mid,
                                log,
                                old_state.claims@.len(),
                                left,
                                right,
                            )
                            &&& layer_accepted(
                                old_state,
                                c,
                                terminal.val(),
                                vals(eval),
                                left,
                                right,
                            )
                            &&& next.roots == old_state.roots
                            &&& next.point@ == seq![next.point@[0]] + eval
                            &&& vals(next.claims@) == next_claims::<F>(
                                left,
                                right,
                                next.point@[0].val(),
                            )
                            &&& transcript.log() == log + drawn(seq![next.point@[0].val()])
                        };
                    let run = LayerRun {
                        coeffs: c,
                        terminal: terminal.val(),
                        left,
                        right,
                        log: mid,
                    };
                    let np = vals(next.point@);
                    assert(np =~= seq![next.point@[0].val()] + z);
                    assert(np.drop_first() =~= z);
                    assert(layer_run_accepted::<F, O>(
                        claims,
                        point,
                        vals(next.claims@),
                        np,
                        run,
                        before,
                        transcript.log(),
                    ));
                    products_verified_step::<F, O>(
                        roots,
                        k,
                        claims,
                        point,
                        vals(next.claims@),
                        np,
                        log1,
                        before,
                        transcript.log(),
                    );
                }
                state = next;
            },
            Err(e) => {
                proof {
                    let halves = 2 * num_products as nat;
                    if cut_within(e, mid, transcript.log(), halves, 0) {
                        reduced_went::<F, O>(claims, point, c, terminal.val(), z, before, mid);
                        cut_later(
                            e,
                            before,
                            mid,
                            transcript.log(),
                            point.len() * 4,
                            0,
                            halves,
                            0,
                            layer_fields(num_products as nat, k),
                            0,
                        );
                        cut_in_layer::<F, O>(
                            e,
                            roots,
                            k,
                            n as nat,
                            claims,
                            point,
                            log0,
                            before,
                            transcript.log(),
                        );
                    } else {
                        let (left, right) = choose|left: Seq<int>, right: Seq<int>| #[trigger]
                            halves_read(
                                mid,
                                transcript.log(),
                                old_state.claims@.len(),
                                left,
                                right,
                            ) && !layer_accepted(
                                old_state,
                                c,
                                terminal.val(),
                                z,
                                left,
                                right,
                            );
                        let run = LayerRun {
                            coeffs: c,
                            terminal: terminal.val(),
                            left,
                            right,
                            log: mid,
                        };
                        assert(layer_run_refused::<F, O>(
                            claims,
                            point,
                            z,
                            run,
                            before,
                            transcript.log(),
                        ));
                        assert(layer_unverified::<F, O>(
                            claims,
                            point,
                            before,
                            transcript.log(),
                            e,
                        ));
                    }
                }
                return Err(e);
            },
        }
    }
    Ok(state)
}

/// The levels reached after `k` layers.
pub open spec fn levels_after<F: Residue>(leaves: Seq<Seq<int>>, num_layers: nat, k: int) -> Seq<
    Seq<int>,
> {
    Seq::new(leaves.len(), |i: int| level::<F>(leaves[i], (num_layers - k) as nat))
}

/// What an honest prover of products writes takes the verifier to the values of
/// the vectors at the final point.
#[verifier::rlimit(60)]
#[verifier::spinoff_prover]
pub proof fn honest_products_are_accepted<F: Residue, O>(
    leaves: Seq<Seq<int>>,
    num_layers: nat,
    coeffs: Seq<Seq<int>>,
    points: Seq<Seq<int>>,
    k: nat,
    log0: Seq<Event<O>>,
)
    requires
        k <= num_layers,
        2 * leaves.len() < usize::MAX,
        rect(leaves, exp2(num_layers)),
        forall|i: int| 0 <= i < leaves.len() ==> vcanon::<F>(#[trigger] leaves[i]),
        layers_shaped(leaves.len(), num_layers, coeffs, points),
    ensures
        products_verified::<F, O>(
            Seq::new(leaves.len(), |i: int| vprod::<F>(leaves[i])),
            k,
            level_values::<F>(levels_after::<F>(leaves, num_layers, k as int), points[k as int]),
            points[k as int],
            log0,
            log0 + product_events::<F, O>(leaves, num_layers, coeffs, points, k),
        ),
    decreases k,
{
    let roots = Seq::new(leaves.len(), |i: int| vprod::<F>(leaves[i]));
    let n = num_layers;
    let m = leaves.len();
    let claims = level_values::<F>(levels_after::<F>(leaves, n, k as int), points[k as int]);
    if k == 0 {
        assert(points[0].len() == 0);
        assert forall|i: int| 0 <= i < m implies claims[i] == roots[i] by {
            assert(leaves[i].len() == exp2(n) && vcanon::<F>(leaves[i]));
            root_is_product::<F>(leaves[i], n, n);
            vprod_canon::<F>(leaves[i]);
            mle_point::<F>(level::<F>(leaves[i], n), points[0]);
        }
        assert(claims =~= roots);
        assert(log0 + product_events::<F, O>(leaves, n, coeffs, points, 0) =~= log0);
    } else {
        let j = k - 1;
        honest_products_are_accepted::<F, O>(leaves, n, coeffs, points, j as nat, log0);
        let mid = log0 + product_events::<F, O>(leaves, n, coeffs, points, j as nat);
        let pt = points[j];
        let np = points[k as int];
        assert(pt.len() == j && np.len() == k);
        let z = np.drop_first();
        let c = coeffs[j];
        assert(c.len() == m);
        let before = level_values::<F>(levels_after::<F>(leaves, n, j), pt);
        let children = children_at::<F>(leaves, n, j);
        assert(exp2((j + 1) as nat) == 2 * exp2(j as nat));
        assert forall|i: int| 0 <= i < m implies {
            &&& (#[trigger] children[i]).len() == exp2(pt.len() + 1)
            &&& vcanon::<F>(children[i])
            &&& pair_products::<F>(children[i]) == levels_after::<F>(leaves, n, j)[i]
        } by {
            assert(leaves[i].len() == exp2(n) && vcanon::<F>(leaves[i]));
            level_len::<F>(leaves[i], n, (n - j - 1) as nat);
            level_canon::<F>(leaves[i], (n - j - 1) as nat);
        }
        assert(parents_of::<F>(children) =~= levels_after::<F>(leaves, n, j));
        let (left, right) = (left_values::<F>(children, z), right_values::<F>(children, z));
        let polys = layer_polys::<F>(children, pt);
        let run = run_events::<F, O>(layer_terms(c), polys, 3, z);
        let r = if j == 0 {
            LayerRun::<O> {
                coeffs: c,
                terminal: dot::<F>(before, c),
                left,
                right,
                log: mid + drawn(c),
            }
        } else {
            LayerRun::<O> {
                coeffs: c,
                terminal: summand::<F>(layer_terms(c), values_at::<F>(polys, z)),
                left,
                right,
                log: mid + drawn(c) + run,
            }
        };
        if j == 0 {
            assert(pt =~= Seq::empty() && z =~= Seq::empty());
            assert(exp2(1) == 2 * exp2(0));
            first_product_layer_is_accepted::<F>(children, c);
        } else {
            product_layer_claim_holds::<F>(children, c, pt);
            honest_product_layer_is_accepted::<F>(children, c, pt, z);
            assert(terms_fit(layer_terms(c), polys.len(), 3)) by {
                let ts = layer_terms(c);
                assert forall|t: int| 0 <= t < ts.len() implies {
                    &&& (#[trigger] ts[t]).factors.len() <= 3
                    &&& forall|i: int|
                        0 <= i < ts[t].factors.len() ==> #[trigger] ts[t].factors[i] < polys.len()
                } by {}
            }
            assert forall|s: int| 0 <= s < polys.len() implies {
                &&& vcanon::<F>(#[trigger] polys[s])
                &&& polys[s].len() == exp2(pt.len())
            } by {
                if s == 0 {
                    eq_evals_canon::<F>(pt);
                } else {
                    let ch = children[(s - 1) / 2];
                    assert(vcanon::<F>(ch) && ch.len() == exp2(pt.len() + 1));
                }
            }
            honest_run_is_accepted::<F, O>(
                layer_terms(c),
                polys,
                3,
                dot::<F>(before, c),
                z,
                mid + drawn(c),
            );
        }
        assert(claims =~= next_claims::<F>(left, right, np[0])) by {
            assert forall|i: int| 0 <= i < m implies claims[i] == next_claims::<F>(
                left,
                right,
                np[0],
            )[i] by {
                assert(children[i].len() == exp2(z.len() + 1));
                assert(np =~= seq![np[0]] + z);
                branch_evaluates_level::<F>(children[i], np[0], z);
                assert(levels_after::<F>(leaves, n, k as int)[i] == children[i]);
            }
        }
        let log1 = log0 + product_events::<F, O>(leaves, n, coeffs, points, k);
        assert(log1 =~= mid + layer_events::<F, O>(leaves, n, coeffs, points, j));
        assert(log1 =~= r.log + sent_fields(left) + sent_fields(right) + drawn(seq![np[0]]));
        assert(layer_run_accepted::<F, O>(before, pt, claims, np, r, mid, log1));
        products_verified_step::<F, O>(roots, j as nat, before, pt, claims, np, log0, mid, log1);
    }
}

} // verus!
