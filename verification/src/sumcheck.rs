//! Sum-check instances: sums over the hypercube of sums of products of
//! multilinear polynomials.

use crate::field::{canon, f_units, fadd, fmul, PrimeField, Residue};
use crate::linear::{
    column, dot, dot_push, mat, rect, vadd, vals, vmul, vsum, vsum_add, vsum_zero, vzero,
};
use crate::mle::{exp2, mle};
use vstd::prelude::*;

verus! {

/// A product of polynomials, given by their indices, with a coefficient.
#[derive(Clone, Debug)]
pub struct ProductTerm<F> {
    pub coeff: F,
    pub factors: Vec<usize>,
}

/// The claim that a sum of products sums to a value over the hypercube.
pub struct SumcheckInstance<F> {
    pub num_vars: usize,
    pub degree: usize,
    pub polys: Vec<Vec<F>>,
    pub terms: Vec<ProductTerm<F>>,
    pub claim: F,
}

/// A product term as residue and indices.
pub struct Term {
    pub coeff: int,
    pub factors: Seq<usize>,
}

/// The terms of an instance as residues and indices.
pub open spec fn terms_view<F: PrimeField>(terms: Seq<ProductTerm<F>>) -> Seq<Term> {
    Seq::new(
        terms.len(),
        |t: int| Term { coeff: terms[t].coeff.val(), factors: terms[t].factors@ },
    )
}

/// The product of selected values.
pub open spec fn product_at<F: Residue>(factors: Seq<usize>, values: Seq<int>) -> int
    decreases factors.len(),
{
    if factors.len() == 0 {
        1
    } else {
        fmul::<F>(product_at::<F>(factors.drop_last(), values), values[factors.last() as int])
    }
}

/// The sum of products at given values of the polynomials.
pub open spec fn summand<F: Residue>(terms: Seq<Term>, values: Seq<int>) -> int
    decreases terms.len(),
{
    if terms.len() == 0 {
        0
    } else {
        fadd::<F>(
            summand::<F>(terms.drop_last(), values),
            fmul::<F>(terms.last().coeff, product_at::<F>(terms.last().factors, values)),
        )
    }
}

/// The values of one product on the hypercube.
pub open spec fn term_values<F: Residue>(term: Term, polys: Seq<Seq<int>>, n: nat) -> Seq<int> {
    Seq::new(
        n,
        |b: int| fmul::<F>(term.coeff, product_at::<F>(term.factors, column(polys, b))),
    )
}

/// The sum over the hypercube.
pub open spec fn cube_sum<F: Residue>(terms: Seq<Term>, polys: Seq<Seq<int>>, n: nat) -> int {
    vsum::<F>(Seq::new(n, |b: int| summand::<F>(terms, column(polys, b))))
}

/// The values of all polynomials at a point.
pub open spec fn values_at<F: Residue>(polys: Seq<Seq<int>>, point: Seq<int>) -> Seq<int> {
    Seq::new(polys.len(), |k: int| mle::<F>(polys[k], point))
}

/// The sum over the hypercube may be taken term by term.
pub proof fn cube_sum_push<F: Residue>(
    terms: Seq<Term>,
    term: Term,
    polys: Seq<Seq<int>>,
    n: nat,
)
    ensures
        cube_sum::<F>(terms.push(term), polys, n) == fadd::<F>(
            cube_sum::<F>(terms, polys, n),
            vsum::<F>(term_values::<F>(term, polys, n)),
        ),
{
    assert(terms.push(term).drop_last() =~= terms);
    let a = Seq::new(n, |b: int| summand::<F>(terms, column(polys, b)));
    let t = term_values::<F>(term, polys, n);
    assert(Seq::new(n, |b: int| summand::<F>(terms.push(term), column(polys, b))) =~= vadd::<F>(
        a,
        t,
    ));
    vsum_add::<F>(a, t);
}

/// No terms sum to zero.
pub proof fn cube_sum_nil<F: Residue>(polys: Seq<Seq<int>>, n: nat)
    ensures
        cube_sum::<F>(Seq::empty(), polys, n) == 0,
{
    assert(Seq::new(n, |b: int| summand::<F>(Seq::empty(), column(polys, b))) =~= vzero(n));
    vsum_zero::<F>(n);
}

/// Where every term sums to a weighted value, all terms sum to the inner
/// product of the weights and the values.
pub proof fn cube_sum_weighted<F: Residue>(
    terms: Seq<Term>,
    polys: Seq<Seq<int>>,
    n: nat,
    w: Seq<int>,
    v: Seq<int>,
)
    requires
        terms.len() == w.len() == v.len(),
        forall|t: int|
            0 <= t < terms.len() ==> vsum::<F>(
                term_values::<F>(#[trigger] terms[t], polys, n),
            ) == fmul::<F>(w[t], v[t]),
    ensures
        cube_sum::<F>(terms, polys, n) == dot::<F>(w, v),
    decreases terms.len(),
{
    if terms.len() == 0 {
        assert(terms =~= Seq::empty());
        cube_sum_nil::<F>(polys, n);
        assert(vmul::<F>(w, v) =~= Seq::empty());
    } else {
        let k = terms.len() - 1;
        let (tk, wk, vk) = (terms.drop_last(), w.drop_last(), v.drop_last());
        assert forall|t: int| 0 <= t < tk.len() implies vsum::<F>(
            term_values::<F>(#[trigger] tk[t], polys, n),
        ) == fmul::<F>(wk[t], vk[t]) by {
            assert(tk[t] == terms[t]);
        }
        cube_sum_weighted::<F>(tk, polys, n, wk, vk);
        cube_sum_push::<F>(tk, terms[k], polys, n);
        assert(tk.push(terms[k]) =~= terms);
        dot_push::<F>(wk, vk, w[k], v[k]);
        assert(wk.push(w[k]) =~= w);
        assert(vk.push(v[k]) =~= v);
    }
}

/// Where every term has a weighted value, the summand is the inner product of
/// the weights and the values.
pub proof fn summand_weighted<F: Residue>(
    terms: Seq<Term>,
    values: Seq<int>,
    w: Seq<int>,
    v: Seq<int>,
)
    requires
        terms.len() == w.len() == v.len(),
        forall|t: int|
            0 <= t < terms.len() ==> fmul::<F>(
                (#[trigger] terms[t]).coeff,
                product_at::<F>(terms[t].factors, values),
            ) == fmul::<F>(w[t], v[t]),
    ensures
        summand::<F>(terms, values) == dot::<F>(w, v),
    decreases terms.len(),
{
    if terms.len() == 0 {
        assert(vmul::<F>(w, v) =~= Seq::empty());
    } else {
        let k = terms.len() - 1;
        let (tk, wk, vk) = (terms.drop_last(), w.drop_last(), v.drop_last());
        assert forall|t: int| 0 <= t < tk.len() implies fmul::<F>(
            (#[trigger] tk[t]).coeff,
            product_at::<F>(tk[t].factors, values),
        ) == fmul::<F>(wk[t], vk[t]) by {
            assert(tk[t] == terms[t]);
        }
        summand_weighted::<F>(tk, values, wk, vk);
        dot_push::<F>(wk, vk, w[k], v[k]);
        assert(wk.push(w[k]) =~= w);
        assert(vk.push(v[k]) =~= v);
    }
}

/// One more term of the summand.
pub proof fn summand_push<F: Residue>(terms: Seq<Term>, term: Term, values: Seq<int>)
    ensures
        summand::<F>(terms.push(term), values) == fadd::<F>(
            summand::<F>(terms, values),
            fmul::<F>(term.coeff, product_at::<F>(term.factors, values)),
        ),
{
    assert(terms.push(term).drop_last() =~= terms);
}

/// Products of two and of three factors.
pub proof fn product_small<F: Residue>(a: usize, b: usize, c: usize, values: Seq<int>)
    requires
        canon::<F>(values[a as int]),
    ensures
        product_at::<F>(seq![a], values) == values[a as int],
        product_at::<F>(seq![a, b], values) == fmul::<F>(values[a as int], values[b as int]),
        product_at::<F>(seq![a, b, c], values) == fmul::<F>(
            fmul::<F>(values[a as int], values[b as int]),
            values[c as int],
        ),
{
    reveal_with_fuel(product_at, 4);
    f_units::<F>(values[a as int]);
    assert(seq![a].drop_last() =~= Seq::<usize>::empty());
    assert(seq![a, b].drop_last() =~= seq![a]);
    assert(seq![a, b, c].drop_last() =~= seq![a, b]);
}

impl<F: PrimeField> SumcheckInstance<F> {
    /// All polynomials have `2^num_vars` values and every factor names one.
    pub open spec fn wf(self) -> bool {
        &&& rect(mat(self.polys@), exp2(self.num_vars as nat))
        &&& forall|t: int, k: int|
            0 <= t < self.terms@.len() && 0 <= k < self.terms@[t].factors@.len() ==> #[trigger]
                self.terms@[t].factors@[k] < self.polys@.len()
    }

    /// The terms as residues and indices.
    pub open spec fn terms_spec(self) -> Seq<Term> {
        terms_view(self.terms@)
    }

    /// The claim is the sum over the hypercube.
    pub open spec fn holds(self) -> bool {
        self.claim.val() == cube_sum::<F>(
            self.terms_spec(),
            mat(self.polys@),
            exp2(self.num_vars as nat),
        )
    }

    /// `values` are the values of the polynomials at `point`.
    pub open spec fn answered(self, point: Seq<int>, values: Seq<int>) -> bool {
        &&& point.len() == self.num_vars
        &&& values == values_at::<F>(mat(self.polys@), point)
    }

    /// The summand at given values of the polynomials.
    pub fn terminal(&self, values: &[F]) -> (r: F)
        requires
            self.wf(),
            values@.len() == self.polys@.len(),
        ensures
            r.val() == summand::<F>(self.terms_spec(), vals(values@)),
    {
        let ghost ts = self.terms_spec();
        let ghost v = vals(values@);
        let mut acc = F::zero();
        let mut t: usize = 0;
        assert(ts.take(0) =~= Seq::empty());
        while t < self.terms.len()
            invariant
                t <= self.terms@.len(),
                self.wf(),
                values@.len() == self.polys@.len(),
                ts == self.terms_spec(),
                v == vals(values@),
                acc.val() == summand::<F>(ts.take(t as int), v),
            decreases self.terms@.len() - t,
        {
            let ghost factors = self.terms@[t as int].factors@;
            let mut product = F::one();
            let mut k: usize = 0;
            assert(factors.take(0) =~= Seq::empty());
            while k < self.terms[t as usize].factors.len()
                invariant
                    t < self.terms@.len(),
                    factors == self.terms@[t as int].factors@,
                    k <= factors.len(),
                    self.wf(),
                    values@.len() == self.polys@.len(),
                    v == vals(values@),
                    product.val() == product_at::<F>(factors.take(k as int), v),
                decreases factors.len() - k,
            {
                let f: usize = self.terms[t].factors[k];
                assert(self.terms@[t as int].factors@[k as int] < self.polys@.len());
                assert(factors.take(k as int + 1).drop_last() =~= factors.take(k as int));
                product = product.times(values[f]);
                k = k + 1;
            }
            proof {
                assert(factors.take(k as int) =~= factors);
                assert(ts.take(t as int + 1).drop_last() =~= ts.take(t as int));
            }
            acc = acc.plus(self.terms[t].coeff.times(product));
            t = t + 1;
        }
        assert(ts.take(t as int) =~= ts);
        acc
    }
}

} // verus!
