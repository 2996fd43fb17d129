//! The sum-check protocol: round by round the sum over the hypercube is reduced
//! to one value of the summed polynomial.

use crate::error::Error;
use crate::field::{
    canon, canon_consts, f_interchange, f_interpolate, f_units, fadd, fadd_canon, fmul, fmul_assoc,
    fmul_canon, fmul_comm, fmul_fadd, fsub, ops_red, red, MAX_SMALL, PrimeField, Residue,
};
use crate::interpolation::{
    evaluate_from_values, newton_unique, newton_value, poly_value, times_variable,
    times_variable_value,
};
use crate::linear::{
    column, mat, mat_canon, mat_push, rect, vadd, vals, vals_push, vcanon, vscale, vsum_add,
    vsum_push, vzero,
};
use crate::mle::{exp2, fold_low, mle, mle_fold_low, mle_point, vsum_pairs};
use crate::qa_code::copied_rows;
use crate::sumcheck::{cube_sum, product_at, summand, values_at, SumcheckInstance, Term};
use crate::transcript::{
    cut_within, digests_in, fields_in, messages_concat, messages_of_sent, messages_push,
    read_field_elements, sent_fields, went, write_field_elements, Event, TranscriptRead,
    TranscriptWrite,
};
use vstd::prelude::*;

verus! {

/// The value at `x` of the polynomial with the given coefficients, constant
/// first.
pub open spec fn coeff_value<F: Residue>(c: Seq<int>, x: int) -> int
    decreases c.len(),
{
    if c.len() == 0 {
        0
    } else {
        fadd::<F>(c[0], fmul::<F>(x, coeff_value::<F>(c.drop_first(), x)))
    }
}

proof fn coeff_value_zero<F: Residue>(n: nat, x: int)
    ensures
        coeff_value::<F>(vzero(n), x) == 0,
    decreases n,
{
    if n > 0 {
        coeff_value_zero::<F>((n - 1) as nat, x);
        assert(vzero(n).drop_first() =~= vzero((n - 1) as nat));
        canon_consts::<F>();
        f_units::<F>(0);
        ops_red::<F>(x, 0);
        assert(x * 0 == 0) by (nonlinear_arith);
    }
}

proof fn coeff_value_add<F: Residue>(a: Seq<int>, b: Seq<int>, x: int)
    requires
        a.len() == b.len(),
    ensures
        coeff_value::<F>(vadd::<F>(a, b), x) == fadd::<F>(
            coeff_value::<F>(a, x),
            coeff_value::<F>(b, x),
        ),
    decreases a.len(),
{
    if a.len() == 0 {
        canon_consts::<F>();
        f_units::<F>(0);
    } else {
        let (ad, bd) = (a.drop_first(), b.drop_first());
        coeff_value_add::<F>(ad, bd, x);
        assert(vadd::<F>(a, b).drop_first() =~= vadd::<F>(ad, bd));
        let (p, q) = (coeff_value::<F>(ad, x), coeff_value::<F>(bd, x));
        fmul_fadd::<F>(x, p, q);
        f_interchange::<F>(a[0], b[0], fmul::<F>(x, p), fmul::<F>(x, q));
    }
}

proof fn coeff_value_scale<F: Residue>(k: int, a: Seq<int>, x: int)
    ensures
        coeff_value::<F>(vscale::<F>(k, a), x) == fmul::<F>(k, coeff_value::<F>(a, x)),
    decreases a.len(),
{
    if a.len() == 0 {
        canon_consts::<F>();
        ops_red::<F>(k, 0);
        assert(k * 0 == 0) by (nonlinear_arith);
    } else {
        let ad = a.drop_first();
        coeff_value_scale::<F>(k, ad, x);
        assert(vscale::<F>(k, a).drop_first() =~= vscale::<F>(k, ad));
        let p = coeff_value::<F>(ad, x);
        crate::mle::f_swap::<F>(x, k, p);
        fmul_fadd::<F>(k, a[0], fmul::<F>(x, p));
    }
}

proof fn coeff_value_pad<F: Residue>(a: Seq<int>, n: nat, x: int)
    requires
        a.len() <= n,
        vcanon::<F>(a),
    ensures
        coeff_value::<F>(a + vzero((n - a.len()) as nat), x) == coeff_value::<F>(a, x),
    decreases a.len(),
{
    let z = vzero((n - a.len()) as nat);
    if a.len() == 0 {
        assert(a + z =~= z);
        coeff_value_zero::<F>(z.len(), x);
    } else {
        let ad = a.drop_first();
        coeff_value_pad::<F>(ad, (n - 1) as nat, x);
        assert((a + z).drop_first() =~= ad + z);
    }
}

/// The product of a polynomial with `a + b X`.
pub open spec fn times_linear<F: Residue>(c: Seq<int>, a: int, b: int) -> Seq<int> {
    Seq::new(
        c.len() + 1,
        |i: int|
            fadd::<F>(
                if i < c.len() {
                    fmul::<F>(a, c[i])
                } else {
                    0
                },
                if i > 0 {
                    fmul::<F>(b, c[i - 1])
                } else {
                    0
                },
            ),
    )
}

proof fn times_linear_value<F: Residue>(c: Seq<int>, a: int, b: int, x: int)
    ensures
        coeff_value::<F>(times_linear::<F>(c, a, b), x) == fmul::<F>(
            coeff_value::<F>(c, x),
            fadd::<F>(a, fmul::<F>(b, x)),
        ),
        vcanon::<F>(times_linear::<F>(c, a, b)),
{
    let n = c.len() + 1;
    let (sa, sb) = (vscale::<F>(a, c), vscale::<F>(b, c));
    let lo = sa + vzero(1);
    let hi = vzero(1) + sb;
    assert(times_linear::<F>(c, a, b) =~= vadd::<F>(lo, hi));
    coeff_value_add::<F>(lo, hi, x);
    assert(vcanon::<F>(sa)) by {
        broadcast use fmul_canon;

    }
    coeff_value_pad::<F>(sa, n, x);
    assert(hi.drop_first() =~= sb);
    coeff_value_scale::<F>(a, c, x);
    coeff_value_scale::<F>(b, c, x);
    let p = coeff_value::<F>(c, x);
    fmul_canon::<F>(x, fmul::<F>(b, p));
    f_units::<F>(fmul::<F>(x, fmul::<F>(b, p)));
    fmul_assoc::<F>(x, b, p);
    fmul_comm::<F>(x, b);
    fmul_comm::<F>(fmul::<F>(b, x), p);
    fmul_comm::<F>(a, p);
    fmul_fadd::<F>(p, a, fmul::<F>(b, x));
    assert(vcanon::<F>(times_linear::<F>(c, a, b))) by {
        broadcast use fadd_canon;

    }
}

/// The product of lines through pairs of values.
pub open spec fn line_product<F: Residue>(
    factors: Seq<usize>,
    lo: Seq<int>,
    hi: Seq<int>,
) -> Seq<int>
    decreases factors.len(),
{
    if factors.len() == 0 {
        seq![1int]
    } else {
        let f = factors.last() as int;
        times_linear::<F>(
            line_product::<F>(factors.drop_last(), lo, hi),
            lo[f],
            fsub::<F>(hi[f], lo[f]),
        )
    }
}

/// Pairs of values interpolated.
pub open spec fn interpolated<F: Residue>(lo: Seq<int>, hi: Seq<int>, x: int) -> Seq<int> {
    Seq::new(
        lo.len(),
        |k: int| fadd::<F>(fmul::<F>(lo[k], fsub::<F>(1, x)), fmul::<F>(hi[k], x)),
    )
}

proof fn line_product_value<F: Residue>(
    factors: Seq<usize>,
    lo: Seq<int>,
    hi: Seq<int>,
    x: int,
)
    requires
        lo.len() == hi.len(),
        forall|i: int| 0 <= i < factors.len() ==> #[trigger] factors[i] < lo.len(),
    ensures
        line_product::<F>(factors, lo, hi).len() == factors.len() + 1,
        vcanon::<F>(line_product::<F>(factors, lo, hi)),
        coeff_value::<F>(line_product::<F>(factors, lo, hi), x) == product_at::<F>(
            factors,
            interpolated::<F>(lo, hi, x),
        ),
    decreases factors.len(),
{
    canon_consts::<F>();
    if factors.len() == 0 {
        let one = seq![1int];
        assert(one.drop_first() =~= Seq::empty());
        ops_red::<F>(x, 0);
        assert(x * 0 == 0) by (nonlinear_arith);
        f_units::<F>(1);
        assert(coeff_value::<F>(one.drop_first(), x) == 0);
        assert(coeff_value::<F>(one, x) == fadd::<F>(1, fmul::<F>(x, 0)));
    } else {
        let fd = factors.drop_last();
        assert forall|i: int| 0 <= i < fd.len() implies #[trigger] fd[i] < lo.len() by {
            assert(fd[i] == factors[i]);
        }
        line_product_value::<F>(fd, lo, hi, x);
        let f = factors.last() as int;
        assert(factors[factors.len() - 1] < lo.len());
        let d = fsub::<F>(hi[f], lo[f]);
        times_linear_value::<F>(line_product::<F>(fd, lo, hi), lo[f], d, x);
        fmul_comm::<F>(d, x);
        f_interpolate::<F>(lo[f], hi[f], x);
        fmul_comm::<F>(fsub::<F>(1, x), lo[f]);
        fmul_comm::<F>(x, hi[f]);
    }
}

/// The sum of products as a polynomial in the variable that is interpolated.
pub open spec fn summand_poly<F: Residue>(
    terms: Seq<Term>,
    lo: Seq<int>,
    hi: Seq<int>,
    n: nat,
) -> Seq<int>
    decreases terms.len(),
{
    if terms.len() == 0 {
        vzero(n)
    } else {
        let t = terms.last();
        let p = line_product::<F>(t.factors, lo, hi);
        vadd::<F>(
            summand_poly::<F>(terms.drop_last(), lo, hi, n),
            vscale::<F>(t.coeff, p) + vzero((n - p.len()) as nat),
        )
    }
}

/// Every product has at most `degree` factors, all among `k` polynomials.
pub open spec fn terms_fit(terms: Seq<Term>, k: nat, degree: nat) -> bool {
    forall|t: int|
        0 <= t < terms.len() ==> {
            &&& (#[trigger] terms[t]).factors.len() <= degree
            &&& forall|i: int|
                0 <= i < terms[t].factors.len() ==> #[trigger] terms[t].factors[i] < k
        }
}

proof fn terms_fit_drop_last(terms: Seq<Term>, k: nat, degree: nat)
    requires
        terms_fit(terms, k, degree),
        terms.len() > 0,
    ensures
        terms_fit(terms.drop_last(), k, degree),
        terms.last().factors.len() <= degree,
        forall|i: int|
            0 <= i < terms.last().factors.len() ==> #[trigger] terms.last().factors[i] < k,
{
    let td = terms.drop_last();
    assert forall|t: int| 0 <= t < td.len() implies {
        &&& (#[trigger] td[t]).factors.len() <= degree
        &&& forall|i: int| 0 <= i < td[t].factors.len() ==> #[trigger] td[t].factors[i] < k
    } by {
        assert(td[t] == terms[t]);
    }
    assert(terms[terms.len() - 1] == terms.last());
}

proof fn summand_poly_value<F: Residue>(
    terms: Seq<Term>,
    lo: Seq<int>,
    hi: Seq<int>,
    degree: nat,
    x: int,
)
    requires
        lo.len() == hi.len(),
        terms_fit(terms, lo.len(), degree),
    ensures
        summand_poly::<F>(terms, lo, hi, degree + 1).len() == degree + 1,
        coeff_value::<F>(summand_poly::<F>(terms, lo, hi, degree + 1), x) == summand::<F>(
            terms,
            interpolated::<F>(lo, hi, x),
        ),
    decreases terms.len(),
{
    let n = degree + 1;
    if terms.len() == 0 {
        coeff_value_zero::<F>(n, x);
    } else {
        terms_fit_drop_last(terms, lo.len(), degree);
        let td = terms.drop_last();
        let t = terms.last();
        summand_poly_value::<F>(td, lo, hi, degree, x);
        line_product_value::<F>(t.factors, lo, hi, x);
        let p = line_product::<F>(t.factors, lo, hi);
        let sp = vscale::<F>(t.coeff, p);
        assert(vcanon::<F>(sp)) by {
            broadcast use fmul_canon;

        }
        coeff_value_pad::<F>(sp, n, x);
        coeff_value_scale::<F>(t.coeff, p, x);
        coeff_value_add::<F>(
            summand_poly::<F>(td, lo, hi, n),
            sp + vzero((n - p.len()) as nat),
            x,
        );
    }
}

/// The values of all polynomials where the first coordinate is zero.
pub open spec fn low_values(polys: Seq<Seq<int>>, b: int) -> Seq<int> {
    column(polys, 2 * b)
}

/// The values of all polynomials where the first coordinate is one.
pub open spec fn high_values(polys: Seq<Seq<int>>, b: int) -> Seq<int> {
    column(polys, 2 * b + 1)
}

/// The coefficients of the sum over the rest of the hypercube as a polynomial in
/// the first variable.
pub open spec fn round_coeffs<F: Residue>(
    terms: Seq<Term>,
    polys: Seq<Seq<int>>,
    half: nat,
    n: nat,
) -> Seq<int>
    decreases half,
{
    if half == 0 {
        vzero(n)
    } else {
        let b = half - 1;
        vadd::<F>(
            round_coeffs::<F>(terms, polys, b as nat, n),
            summand_poly::<F>(terms, low_values(polys, b), high_values(polys, b), n),
        )
    }
}

/// All polynomials with their first variable bound.
pub open spec fn folded<F: Residue>(polys: Seq<Seq<int>>, x: int) -> Seq<Seq<int>> {
    Seq::new(polys.len(), |k: int| fold_low::<F>(polys[k], x))
}

/// The value of that polynomial is the sum over the rest of the hypercube with the
/// first variable bound.
proof fn round_coeffs_value<F: Residue>(
    terms: Seq<Term>,
    polys: Seq<Seq<int>>,
    half: nat,
    total: nat,
    degree: nat,
    x: int,
)
    requires
        half <= total,
        rect(polys, 2 * total),
        terms_fit(terms, polys.len(), degree),
    ensures
        round_coeffs::<F>(terms, polys, half, degree + 1).len() == degree + 1,
        coeff_value::<F>(round_coeffs::<F>(terms, polys, half, degree + 1), x) == cube_sum::<F>(
            terms,
            folded::<F>(polys, x),
            half,
        ),
    decreases half,
{
    let n = degree + 1;
    let fs = folded::<F>(polys, x);
    let all = Seq::new(half, |b: int| summand::<F>(terms, column(fs, b)));
    if half == 0 {
        coeff_value_zero::<F>(n, x);
        assert(all =~= Seq::empty());
    } else {
        let b = half - 1;
        round_coeffs_value::<F>(terms, polys, b as nat, total, degree, x);
        let (lo, hi) = (low_values(polys, b), high_values(polys, b));
        summand_poly_value::<F>(terms, lo, hi, degree, x);
        coeff_value_add::<F>(
            round_coeffs::<F>(terms, polys, b as nat, n),
            summand_poly::<F>(terms, lo, hi, n),
            x,
        );
        let prev = Seq::new(b as nat, |c: int| summand::<F>(terms, column(fs, c)));
        assert(column(fs, b) =~= interpolated::<F>(lo, hi, x)) by {
            assert forall|k: int| 0 <= k < fs.len() implies column(fs, b)[k] == interpolated::<F>(
                lo,
                hi,
                x,
            )[k] by {
                assert(polys[k].len() == 2 * total);
            }
        }
        assert(all =~= prev.push(all[b]));
        vsum_push::<F>(prev, all[b]);
    }
}

/// The message of one round: the sums over the rest of the hypercube with the first
/// variable bound to zero, one, two and so on, `n` of them.
pub open spec fn round_values<F: Residue>(
    terms: Seq<Term>,
    polys: Seq<Seq<int>>,
    half: nat,
    n: nat,
) -> Seq<int> {
    Seq::new(n, |t: int| cube_sum::<F>(terms, folded::<F>(polys, red::<F>(t)), half))
}

/// A polynomial given by coefficients in the form of its values.
spec fn newton_of<F: Residue>(c: Seq<int>) -> Seq<int>
    decreases c.len(),
{
    if c.len() == 0 {
        Seq::empty()
    } else {
        times_variable::<F>(newton_of::<F>(c.drop_first()), c[0])
    }
}

/// The polynomial through the values of a polynomial at the first places is that
/// polynomial.
pub proof fn values_determine_polynomial<F: Residue>(c: Seq<int>, x: int)
    requires
        vcanon::<F>(c),
        c.len() <= MAX_SMALL + 1,
    ensures
        poly_value::<F>(Seq::new(c.len(), |i: int| coeff_value::<F>(c, red::<F>(i))), x)
            == coeff_value::<F>(c, x),
{
    let e = Seq::new(c.len(), |i: int| coeff_value::<F>(c, red::<F>(i)));
    let b = newton_of::<F>(c);
    newton_of_value::<F>(c, x);
    assert forall|i: int| 0 <= i < e.len() implies #[trigger] e[i] == newton_value::<F>(
        b,
        red::<F>(i),
    ) by {
        newton_of_value::<F>(c, red::<F>(i));
    }
    newton_unique::<F>(e, b);
}

proof fn newton_of_value<F: Residue>(c: Seq<int>, x: int)
    requires
        vcanon::<F>(c),
    ensures
        newton_of::<F>(c).len() == c.len(),
        vcanon::<F>(newton_of::<F>(c)),
        newton_value::<F>(newton_of::<F>(c), x) == coeff_value::<F>(c, x),
    decreases c.len(),
{
    if c.len() > 0 {
        let cd = c.drop_first();
        assert forall|i: int| 0 <= i < cd.len() implies canon::<F>(#[trigger] cd[i]) by {
            assert(cd[i] == c[i + 1]);
        }
        newton_of_value::<F>(cd, x);
        assert(canon::<F>(c[0]));
        times_variable_value::<F>(newton_of::<F>(cd), c[0], x);
    }
}

proof fn round_coeffs_canon<F: Residue>(
    terms: Seq<Term>,
    polys: Seq<Seq<int>>,
    half: nat,
    n: nat,
)
    ensures
        vcanon::<F>(round_coeffs::<F>(terms, polys, half, n)),
{
    canon_consts::<F>();
    broadcast use fadd_canon;

}

/// The polynomial through the message of a round has as its value the sum over the
/// rest of the hypercube with the first variable bound.
pub proof fn round_values_value<F: Residue>(
    terms: Seq<Term>,
    polys: Seq<Seq<int>>,
    half: nat,
    degree: nat,
    x: int,
)
    requires
        degree <= MAX_SMALL,
        rect(polys, 2 * half),
        terms_fit(terms, polys.len(), degree),
    ensures
        poly_value::<F>(round_values::<F>(terms, polys, half, degree + 1), x) == cube_sum::<F>(
            terms,
            folded::<F>(polys, x),
            half,
        ),
{
    let n = degree + 1;
    let c = round_coeffs::<F>(terms, polys, half, n);
    let e = round_values::<F>(terms, polys, half, n);
    round_coeffs_canon::<F>(terms, polys, half, n);
    round_coeffs_value::<F>(terms, polys, half, half, degree, x);
    newton_of_value::<F>(c, x);
    let b = newton_of::<F>(c);
    assert forall|i: int| 0 <= i < e.len() implies #[trigger] e[i] == newton_value::<F>(
        b,
        red::<F>(i),
    ) by {
        round_coeffs_value::<F>(terms, polys, half, half, degree, red::<F>(i));
        newton_of_value::<F>(c, red::<F>(i));
    }
    newton_unique::<F>(e, b);
}

/// The sum over the hypercube is the sum of the two halves of the first variable.
pub proof fn cube_sum_halves<F: Residue>(terms: Seq<Term>, polys: Seq<Seq<int>>, half: nat)
    requires
        rect(polys, 2 * half),
        forall|k: int| 0 <= k < polys.len() ==> vcanon::<F>(#[trigger] polys[k]),
    ensures
        cube_sum::<F>(terms, polys, 2 * half) == fadd::<F>(
            cube_sum::<F>(terms, folded::<F>(polys, 0), half),
            cube_sum::<F>(terms, folded::<F>(polys, 1), half),
        ),
{
    let (f0, f1) = (folded::<F>(polys, 0), folded::<F>(polys, 1));
    let all = Seq::new(2 * half, |b: int| summand::<F>(terms, column(polys, b)));
    let s0 = Seq::new(half, |b: int| summand::<F>(terms, column(f0, b)));
    let s1 = Seq::new(half, |b: int| summand::<F>(terms, column(f1, b)));
    canon_consts::<F>();
    f_units::<F>(1);
    assert forall|b: int| 0 <= b < half implies #[trigger] vadd::<F>(s0, s1)[b] == fadd::<F>(
        all[2 * b],
        all[2 * b + 1],
    ) by {
        assert(column(f0, b) =~= column(polys, 2 * b)) by {
            assert forall|k: int| 0 <= k < polys.len() implies column(f0, b)[k] == column(
                polys,
                2 * b,
            )[k] by {
                assert(polys[k].len() == 2 * half && vcanon::<F>(polys[k]));
                f_units::<F>(polys[k][2 * b]);
                f_units::<F>(polys[k][2 * b + 1]);
            }
        }
        assert(column(f1, b) =~= column(polys, 2 * b + 1)) by {
            assert forall|k: int| 0 <= k < polys.len() implies column(f1, b)[k] == column(
                polys,
                2 * b + 1,
            )[k] by {
                assert(polys[k].len() == 2 * half && vcanon::<F>(polys[k]));
                f_units::<F>(polys[k][2 * b]);
                f_units::<F>(polys[k][2 * b + 1]);
            }
        }
    }
    vsum_pairs::<F>(all, vadd::<F>(s0, s1));
    vsum_add::<F>(s0, s1);
}

/// All polynomials with their first variables bound one after the other.
pub open spec fn folded_by<F: Residue>(polys: Seq<Seq<int>>, point: Seq<int>) -> Seq<Seq<int>>
    decreases point.len(),
{
    if point.len() == 0 {
        polys
    } else {
        folded::<F>(folded_by::<F>(polys, point.drop_last()), point.last())
    }
}

/// The messages of all rounds.
pub open spec fn round_messages<F: Residue>(
    terms: Seq<Term>,
    polys: Seq<Seq<int>>,
    degree: nat,
    point: Seq<int>,
) -> Seq<Seq<int>> {
    Seq::new(
        point.len(),
        |i: int|
            round_values::<F>(
                terms,
                folded_by::<F>(polys, point.take(i)),
                exp2((point.len() - i - 1) as nat),
                degree + 1,
            ),
    )
}

/// The steps of all rounds: a message, then a challenge.
pub open spec fn round_events<O>(messages: Seq<Seq<int>>, point: Seq<int>) -> Seq<Event<O>>
    decreases messages.len(),
{
    if messages.len() == 0 {
        Seq::empty()
    } else {
        let k = messages.len() - 1;
        (round_events::<O>(messages.drop_last(), point.drop_last()) + sent_fields(
            messages[k],
        )).push(Event::Challenge(point[k]))
    }
}

/// The steps of an honest run.
pub open spec fn run_events<F: Residue, O>(
    terms: Seq<Term>,
    polys: Seq<Seq<int>>,
    degree: nat,
    point: Seq<int>,
) -> Seq<Event<O>> {
    round_events(round_messages::<F>(terms, polys, degree, point), point)
}

/// The claim after the first rounds.
pub open spec fn claim_after<F: Residue>(
    claim: int,
    messages: Seq<Seq<int>>,
    point: Seq<int>,
) -> int
    decreases messages.len(),
{
    if messages.len() == 0 {
        claim
    } else {
        poly_value::<F>(messages.last(), point.last())
    }
}

/// The values at zero and one of every message sum to the claim of its round.
pub open spec fn rounds_consistent<F: Residue>(
    claim: int,
    messages: Seq<Seq<int>>,
    point: Seq<int>,
) -> bool
    decreases messages.len(),
{
    if messages.len() == 0 {
        true
    } else {
        &&& rounds_consistent::<F>(claim, messages.drop_last(), point.drop_last())
        &&& fadd::<F>(messages.last()[0], messages.last()[1]) == claim_after::<F>(claim, messages.drop_last(), point.drop_last())
    }
}

/// Sizes and values of polynomials whose first variables are bound.
proof fn folded_by_shape<F: Residue>(
    polys: Seq<Seq<int>>,
    point: Seq<int>,
    rest: nat,
    z: Seq<int>,
)
    requires
        rect(polys, exp2(point.len() + rest)),
        forall|k: int| 0 <= k < polys.len() ==> vcanon::<F>(#[trigger] polys[k]),
        z.len() == rest,
    ensures
        folded_by::<F>(polys, point).len() == polys.len(),
        rect(folded_by::<F>(polys, point), exp2(rest)),
        forall|k: int|
            0 <= k < polys.len() ==> vcanon::<F>(#[trigger] folded_by::<F>(polys, point)[k]),
        forall|k: int|
            0 <= k < polys.len() ==> mle::<F>(#[trigger] folded_by::<F>(polys, point)[k], z)
                == mle::<F>(polys[k], point + z),
    decreases point.len(),
{
    if point.len() == 0 {
        assert(point + z =~= z);
    } else {
        let pd = point.drop_last();
        let c = point.last();
        let y = seq![c] + z;
        assert(pd.len() + (rest + 1) == point.len() + rest);
        folded_by_shape::<F>(polys, pd, rest + 1, y);
        let prev = folded_by::<F>(polys, pd);
        assert(exp2(rest + 1) == 2 * exp2(rest));
        assert(pd + y =~= point + z);
        assert(y.drop_first() =~= z);
        let next = folded_by::<F>(polys, point);
        assert forall|k: int| 0 <= k < polys.len() implies {
            &&& (#[trigger] next[k]).len() == exp2(rest)
            &&& vcanon::<F>(next[k])
            &&& mle::<F>(next[k], z) == mle::<F>(polys[k], point + z)
        } by {
            assert(prev[k].len() == exp2(rest + 1));
            mle_fold_low::<F>(prev[k], y);
            assert(vcanon::<F>(next[k])) by {
                broadcast use fadd_canon;

            }
        }
    }
}

/// An honest run of the protocol is accepted: where the claim is the sum over the
/// hypercube, every round is consistent and the last claim is the value of the
/// summed polynomial at the point.
pub proof fn honest_rounds_are_consistent<F: Residue>(
    terms: Seq<Term>,
    polys: Seq<Seq<int>>,
    degree: nat,
    claim: int,
    point: Seq<int>,
)
    requires
        1 <= degree <= MAX_SMALL,
        rect(polys, exp2(point.len())),
        forall|k: int| 0 <= k < polys.len() ==> vcanon::<F>(#[trigger] polys[k]),
        terms_fit(terms, polys.len(), degree),
        claim == cube_sum::<F>(terms, polys, exp2(point.len())),
    ensures
        ({
            let messages = round_messages::<F>(terms, polys, degree, point);
            &&& rect(messages, degree + 1)
            &&& rounds_consistent::<F>(claim, messages, point)
            &&& claim_after::<F>(claim, messages, point) == summand::<F>(
                terms,
                values_at::<F>(polys, point),
            )
        }),
{
    let messages = round_messages::<F>(terms, polys, degree, point);
    let n = point.len();
    honest_prefix::<F>(terms, polys, degree, claim, point, n);
    assert(messages.take(n as int) =~= messages);
    assert(point.take(n as int) =~= point);
    let z = Seq::<int>::empty();
    folded_by_shape::<F>(polys, point, 0, z);
    let last = folded_by::<F>(polys, point);
    assert(point + z =~= point);
    let only = Seq::new(1, |b: int| summand::<F>(terms, column(last, b)));
    assert(only =~= Seq::<int>::empty().push(only[0]));
    vsum_push::<F>(Seq::empty(), only[0]);
    crate::field::canon_consts::<F>();
    summand_canon::<F>(terms, column(last, 0));
    f_units::<F>(only[0]);
    assert(exp2(0) == 1);
    assert(column(last, 0) =~= values_at::<F>(polys, point)) by {
        assert forall|k: int| 0 <= k < polys.len() implies column(last, 0)[k] == values_at::<F>(
            polys,
            point,
        )[k] by {
            assert(last[k].len() == 1 && vcanon::<F>(last[k]));
            mle_point::<F>(last[k], z);
            assert(mle::<F>(last[k], z) == mle::<F>(polys[k], point + z));
        }
    }
}

proof fn summand_canon<F: Residue>(terms: Seq<Term>, values: Seq<int>)
    ensures
        canon::<F>(summand::<F>(terms, values)),
{
    canon_consts::<F>();
    broadcast use fadd_canon;

}

/// The first `i` rounds of an honest run.
proof fn honest_prefix<F: Residue>(
    terms: Seq<Term>,
    polys: Seq<Seq<int>>,
    degree: nat,
    claim: int,
    point: Seq<int>,
    i: nat,
)
    requires
        i <= point.len(),
        1 <= degree <= MAX_SMALL,
        rect(polys, exp2(point.len())),
        forall|k: int| 0 <= k < polys.len() ==> vcanon::<F>(#[trigger] polys[k]),
        terms_fit(terms, polys.len(), degree),
        claim == cube_sum::<F>(terms, polys, exp2(point.len())),
    ensures
        ({
            let messages = round_messages::<F>(terms, polys, degree, point).take(i as int);
            let pt = point.take(i as int);
            &&& rounds_consistent::<F>(claim, messages, pt)
            &&& claim_after::<F>(claim, messages, pt) == cube_sum::<F>(
                terms,
                folded_by::<F>(polys, pt),
                exp2((point.len() - i) as nat),
            )
        }),
    decreases i,
{
    let all = round_messages::<F>(terms, polys, degree, point);
    if i > 0 {
        let d = (i - 1) as nat;
        honest_prefix::<F>(terms, polys, degree, claim, point, d);
        let (md, pd) = (all.take(d as int), point.take(d as int));
        let (mi, pi) = (all.take(i as int), point.take(i as int));
        assert(mi.drop_last() =~= md);
        assert(pi.drop_last() =~= pd);
        assert(mi.last() == all[d as int]);
        assert(pi.last() == point[d as int]);
        let rest = (point.len() - i) as nat;
        let half = exp2(rest);
        let cur = folded_by::<F>(polys, pd);
        assert(pd.len() + (rest + 1) == point.len());
        folded_by_shape::<F>(polys, pd, rest + 1, vzero(rest + 1));
        assert(exp2(rest + 1) == 2 * half);
        canon_consts::<F>();
        round_values_value::<F>(terms, cur, half, degree, point[d as int]);
        cube_sum_halves::<F>(terms, cur, half);
    } else {
        assert(all.take(0) =~= Seq::empty());
        assert(point.take(0) =~= Seq::empty());
    }
}

/// The terms of an instance fit its degree.
pub open spec fn instance_fits<F: PrimeField>(instance: SumcheckInstance<F>) -> bool {
    &&& instance.wf()
    &&& 1 <= instance.degree <= MAX_SMALL
    &&& exp2(instance.num_vars as nat) <= usize::MAX
    &&& forall|t: int|
        0 <= t < instance.terms@.len() ==> (#[trigger] instance.terms@[t]).factors@.len()
            <= instance.degree
}

proof fn instance_terms_fit<F: PrimeField>(instance: SumcheckInstance<F>)
    requires
        instance_fits(instance),
    ensures
        terms_fit(
            instance.terms_spec(),
            instance.polys@.len(),
            instance.degree as nat,
        ),
{
    let ts = instance.terms_spec();
    assert forall|t: int| 0 <= t < ts.len() implies {
        &&& (#[trigger] ts[t]).factors.len() <= instance.degree
        &&& forall|i: int|
            0 <= i < ts[t].factors.len() ==> #[trigger] ts[t].factors[i] < instance.polys@.len()
    } by {
        assert(instance.terms@[t].factors@ == ts[t].factors);
        assert forall|i: int| 0 <= i < ts[t].factors.len() implies #[trigger] ts[t].factors[i]
            < instance.polys@.len() by {
            assert(instance.terms@[t].factors@[i] < instance.polys@.len());
        }
    }
}

/// Binds the first variable of all polynomials.
fn fold_all_low<F: PrimeField>(polys: &[Vec<F>], r: F, half: usize) -> (out: Vec<Vec<F>>)
    requires
        2 * half <= usize::MAX,
        rect(mat(polys@), (2 * half) as nat),
    ensures
        mat(out@) == folded::<F>(mat(polys@), r.val()),
        out@.len() == polys@.len(),
{
    let ghost goal = folded::<F>(mat(polys@), r.val());
    let rest = F::one().minus(r);
    let mut out: Vec<Vec<F>> = Vec::new();
    let mut k: usize = 0;
    assert(mat(out@) =~= goal.take(0));
    while k < polys.len()
        invariant
            k <= polys@.len(),
            2 * half <= usize::MAX,
            rect(mat(polys@), (2 * half) as nat),
            rest.val() == fsub::<F>(1, r.val()),
            goal == folded::<F>(mat(polys@), r.val()),
            out@.len() == k,
            mat(out@) == goal.take(k as int),
        decreases polys@.len() - k,
    {
        assert(mat(polys@)[k as int].len() == polys@[k as int]@.len());
        let mut row: Vec<F> = Vec::new();
        let mut i: usize = 0;
        while i < half
            invariant
                i <= half,
                k < polys@.len(),
                2 * half <= usize::MAX,
                polys@[k as int]@.len() == 2 * half,
                rest.val() == fsub::<F>(1, r.val()),
                row@.len() == i,
                forall|j: int|
                    0 <= j < i ==> (#[trigger] row@[j]).val() == fadd::<F>(
                        fmul::<F>(polys@[k as int]@[2 * j].val(), fsub::<F>(1, r.val())),
                        fmul::<F>(polys@[k as int]@[2 * j + 1].val(), r.val()),
                    ),
            decreases half - i,
        {
            row.push(polys[k][2 * i].times(rest).plus(polys[k][2 * i + 1].times(r)));
            i = i + 1;
        }
        proof {
            assert(vals(row@) =~= fold_low::<F>(mat(polys@)[k as int], r.val()));
            mat_push(out@, row);
            assert(goal.take(k as int + 1) =~= goal.take(k as int).push(goal[k as int]));
        }
        out.push(row);
        k = k + 1;
    }
    assert(goal.take(k as int) =~= goal);
    out
}

/// The sum over the rest of the hypercube with the first variable bound.
fn sum_bound<F: PrimeField>(
    instance: &SumcheckInstance<F>,
    polys: &[Vec<F>],
    x: F,
    half: usize,
) -> (r: F)
    requires
        instance.wf(),
        polys@.len() == instance.polys@.len(),
        2 * half <= usize::MAX,
        rect(mat(polys@), (2 * half) as nat),
    ensures
        r.val() == cube_sum::<F>(
            instance.terms_spec(),
            folded::<F>(mat(polys@), x.val()),
            half as nat,
        ),
{
    let ghost ts = instance.terms_spec();
    let ghost fs = folded::<F>(mat(polys@), x.val());
    let bound = fold_all_low(polys, x, half);
    let mut sum = F::zero();
    let mut b: usize = 0;
    proof {
        assert(Seq::new(0, |c: int| summand::<F>(ts, column(fs, c))) =~= Seq::empty());
    }
    while b < half
        invariant
            b <= half,
            instance.wf(),
            ts == instance.terms_spec(),
            polys@.len() == instance.polys@.len(),
            bound@.len() == polys@.len(),
            mat(bound@) == fs,
            rect(fs, half as nat),
            sum.val() == cube_sum::<F>(ts, fs, b as nat),
        decreases half - b,
    {
        let mut values: Vec<F> = Vec::new();
        let mut k: usize = 0;
        while k < bound.len()
            invariant
                k <= bound@.len(),
                b < half,
                mat(bound@) == fs,
                rect(fs, half as nat),
                values@.len() == k,
                forall|j: int| 0 <= j < k ==> (#[trigger] values@[j]).val() == fs[j][b as int],
            decreases bound@.len() - k,
        {
            assert(fs[k as int].len() == bound@[k as int]@.len());
            values.push(bound[k][b]);
            k = k + 1;
        }
        proof {
            assert(vals(values@) =~= column(fs, b as int));
            let prev = Seq::new(b as nat, |c: int| summand::<F>(ts, column(fs, c)));
            let next = Seq::new((b + 1) as nat, |c: int| summand::<F>(ts, column(fs, c)));
            assert(next =~= prev.push(summand::<F>(ts, column(fs, b as int))));
            vsum_push::<F>(prev, summand::<F>(ts, column(fs, b as int)));
        }
        sum = sum.plus(instance.terminal(&values));
        b = b + 1;
    }
    sum
}

/// The message of one round.
fn compute_round<F: PrimeField>(
    instance: &SumcheckInstance<F>,
    polys: &[Vec<F>],
    half: usize,
) -> (r: Vec<F>)
    requires
        instance.wf(),
        instance.degree <= MAX_SMALL,
        polys@.len() == instance.polys@.len(),
        2 * half <= usize::MAX,
        rect(mat(polys@), (2 * half) as nat),
    ensures
        vals(r@) == round_values::<F>(
            instance.terms_spec(),
            mat(polys@),
            half as nat,
            (instance.degree + 1) as nat,
        ),
        r@.len() == instance.degree + 1,
{
    let ghost goal = round_values::<F>(
        instance.terms_spec(),
        mat(polys@),
        half as nat,
        (instance.degree + 1) as nat,
    );
    let mut out: Vec<F> = Vec::new();
    let mut t: usize = 0;
    while t <= instance.degree
        invariant
            t <= instance.degree + 1,
            instance.wf(),
            instance.degree <= MAX_SMALL,
            polys@.len() == instance.polys@.len(),
            2 * half <= usize::MAX,
            rect(mat(polys@), (2 * half) as nat),
            goal == round_values::<F>(
                instance.terms_spec(),
                mat(polys@),
                half as nat,
                (instance.degree + 1) as nat,
            ),
            out@.len() == t,
            vals(out@) == goal.take(t as int),
        decreases instance.degree + 1 - t,
    {
        let x = F::from_u64(t as u64);
        proof {
            assert(x.val() == red::<F>(t as int)) by {
                reveal(red);
            }
        }
        let value = sum_bound(instance, polys, x, half);
        proof {
            vals_push(out@, value);
            assert(goal.take(t as int + 1) =~= goal.take(t as int).push(goal[t as int]));
        }
        out.push(value);
        t = t + 1;
    }
    assert(goal.take(t as int) =~= goal);
    out
}

/// One more round of steps.
proof fn round_events_push<O>(
    messages: Seq<Seq<int>>,
    point: Seq<int>,
    m: Seq<int>,
    c: int,
    log0: Seq<Event<O>>,
)
    requires
        messages.len() == point.len(),
    ensures
        log0 + round_events(messages.push(m), point.push(c)) == (log0 + round_events(
            messages,
            point,
        ) + sent_fields(m)).push(Event::Challenge(c)),
{
    assert(messages.push(m).drop_last() =~= messages);
    assert(point.push(c).drop_last() =~= point);
    assert(log0 + round_events(messages.push(m), point.push(c)) =~= (log0 + round_events(
        messages,
        point,
    ) + sent_fields(m)).push(Event::Challenge(c)));
}

/// The error of a refused round.
pub open spec fn round_error(e: Error) -> bool {
    e.is_sumcheck("the values at zero and one do not sum to the claim")
}

/// Runs the prover: writes the message of every round and returns the point and
/// the values of the polynomials there.
pub fn sumcheck_prove<F: PrimeField, O, T: TranscriptWrite<F, O>>(
    instance: &SumcheckInstance<F>,
    transcript: &mut T,
) -> (r: Result<(Vec<F>, Vec<F>), Error>)
    requires
        instance_fits(*instance),
    ensures
        T::infallible() ==> r is Ok,
        r matches Err(e) ==> e is Transcript,
        r matches Ok(answer) ==> {
            let point = vals(answer.0@);
            &&& answer.0@.len() == instance.num_vars
            &&& answer.1@.len() == instance.polys@.len()
            &&& vals(answer.1@) == values_at::<F>(mat(instance.polys@), point)
            &&& final(transcript).log() == old(transcript).log() + run_events::<F, O>(
                instance.terms_spec(),
                mat(instance.polys@),
                instance.degree as nat,
                point,
            )
        },
{
    let ghost log0 = transcript.log();
    let ghost ts = instance.terms_spec();
    let ghost p0 = mat(instance.polys@);
    let ghost d = instance.degree as nat;
    let n: usize = instance.num_vars;
    let mut polys = copied_rows(&instance.polys);
    let mut point: Vec<F> = Vec::new();
    let ghost mut messages: Seq<Seq<int>> = Seq::empty();
    let mut half: usize = crate::mle::power_of_two(n);
    proof {
        instance_terms_fit(*instance);
        mat_canon(instance.polys@);
        assert(vals(point@) =~= Seq::empty());
        assert(log0 + round_events(messages, vals(point@)) =~= log0);
        assert(p0.len() == instance.polys@.len());
    }
    while point.len() < n
        invariant
            point@.len() <= n,
            n == instance.num_vars,
            instance_fits(*instance),
            ts == instance.terms_spec(),
            p0 == mat(instance.polys@),
            p0.len() == instance.polys@.len(),
            d == instance.degree,
            terms_fit(ts, p0.len(), d),
            rect(p0, exp2(n as nat)),
            forall|k: int| 0 <= k < p0.len() ==> vcanon::<F>(#[trigger] p0[k]),
            half == exp2((n - point@.len()) as nat),
            polys@.len() == p0.len(),
            mat(polys@) == folded_by::<F>(p0, vals(point@)),
            messages.len() == point@.len(),
            forall|i: int|
                0 <= i < messages.len() ==> #[trigger] messages[i] == round_values::<F>(
                    ts,
                    folded_by::<F>(p0, vals(point@).take(i)),
                    exp2((n - i - 1) as nat),
                    d + 1,
                ),
            transcript.log() == log0 + round_events(messages, vals(point@)),
        decreases n - point@.len(),
    {
        let ghost pt = vals(point@);
        let ghost rest = (n - point@.len() - 1) as nat;
        proof {
            assert(pt.len() + (rest + 1) == n);
            folded_by_shape::<F>(p0, pt, rest + 1, vzero(rest + 1));
            assert(exp2(rest + 1) == 2 * exp2(rest));
        }
        half = half / 2;
        let message = compute_round(instance, &polys, half);
        match write_field_elements(transcript, &message) {
            Ok(_) => {},
            Err(e) => {
                return Err(e);
            },
        }
        let c = transcript.squeeze_challenge();
        let next = fold_all_low(&polys, c, half);
        proof {
            let m = vals(message@);
            round_events_push(messages, pt, m, c.val(), log0);
            vals_push(point@, c);
            let np = pt.push(c.val());
            assert(np.drop_last() =~= pt);
            let nm = messages.push(m);
            assert forall|i: int| 0 <= i < nm.len() implies #[trigger] nm[i] == round_values::<F>(
                ts,
                folded_by::<F>(p0, np.take(i)),
                exp2((n - i - 1) as nat),
                d + 1,
            ) by {
                if i < messages.len() {
                    assert(nm[i] == messages[i]);
                    assert(np.take(i) =~= pt.take(i));
                } else {
                    assert(np.take(i) =~= pt);
                }
            }
            messages = nm;
        }
        point.push(c);
        polys = next;
    }
    let ghost z = vals(point@);
    proof {
        assert(messages =~= round_messages::<F>(ts, p0, d, z));
        folded_by_shape::<F>(p0, z, 0, Seq::empty());
        assert(z + Seq::<int>::empty() =~= z);
        assert(exp2(0) == 1);
    }
    let ghost goal = values_at::<F>(p0, z);
    let mut evals: Vec<F> = Vec::new();
    let mut k: usize = 0;
    while k < polys.len()
        invariant
            k <= polys@.len(),
            polys@.len() == p0.len(),
            mat(polys@) == folded_by::<F>(p0, z),
            rect(folded_by::<F>(p0, z), 1),
            forall|k: int|
                0 <= k < p0.len() ==> vcanon::<F>(#[trigger] folded_by::<F>(p0, z)[k]),
            forall|k: int|
                0 <= k < p0.len() ==> mle::<F>(
                    #[trigger] folded_by::<F>(p0, z)[k],
                    Seq::empty(),
                ) == mle::<F>(p0[k], z),
            goal == values_at::<F>(p0, z),
            evals@.len() == k,
            vals(evals@) == goal.take(k as int),
        decreases polys@.len() - k,
    {
        proof {
            let row = folded_by::<F>(p0, z)[k as int];
            assert(mat(polys@)[k as int] == row);
            assert(row.len() == polys@[k as int]@.len());
            mle_point::<F>(row, Seq::empty());
        }
        let x = polys[k][0];
        proof {
            vals_push(evals@, x);
            assert(x.val() == mat(polys@)[k as int][0]);
            assert(goal.take(k as int + 1) =~= goal.take(k as int).push(goal[k as int]));
        }
        evals.push(x);
        k = k + 1;
    }
    assert(goal.take(k as int) =~= goal);
    Ok((point, evals))
}

/// All rounds were read and are consistent, and the last claim follows.
pub open spec fn rounds_accepted<F: Residue, O>(
    num_vars: nat,
    degree: nat,
    claim: int,
    terminal: int,
    point: Seq<int>,
    messages: Seq<Seq<int>>,
    log0: Seq<Event<O>>,
    log1: Seq<Event<O>>,
) -> bool {
    &&& messages.len() == num_vars
    &&& point.len() == num_vars
    &&& rect(messages, degree + 1)
    &&& rounds_consistent::<F>(claim, messages, point)
    &&& terminal == claim_after::<F>(claim, messages, point)
    &&& log1 == log0 + round_events(messages, point)
}

/// The verifier ran through all rounds.
pub open spec fn sumcheck_verified<F: Residue, O>(
    num_vars: nat,
    degree: nat,
    claim: int,
    terminal: int,
    point: Seq<int>,
    log0: Seq<Event<O>>,
    log1: Seq<Event<O>>,
) -> bool {
    exists|messages: Seq<Seq<int>>| #[trigger]
        rounds_accepted::<F, O>(num_vars, degree, claim, terminal, point, messages, log0, log1)
}

/// The message of some round was read that does not sum to the claim of its
/// round.
pub open spec fn round_refused<F: Residue, O>(
    num_vars: nat,
    degree: nat,
    claim: int,
    point: Seq<int>,
    messages: Seq<Seq<int>>,
    m: Seq<int>,
    log0: Seq<Event<O>>,
    log1: Seq<Event<O>>,
) -> bool {
    &&& messages.len() == point.len()
    &&& messages.len() < num_vars
    &&& rect(messages, degree + 1)
    &&& m.len() == degree + 1
    &&& rounds_consistent::<F>(claim, messages, point)
    &&& fadd::<F>(m[0], m[1]) != claim_after::<F>(claim, messages, point)
    &&& log1 == log0 + round_events(messages, point) + sent_fields(m)
}

/// The verifier refused one of the rounds.
pub open spec fn sumcheck_refused<F: Residue, O>(
    num_vars: nat,
    degree: nat,
    claim: int,
    log0: Seq<Event<O>>,
    log1: Seq<Event<O>>,
) -> bool {
    exists|point: Seq<int>, messages: Seq<Seq<int>>, m: Seq<int>| #[trigger]
        round_refused::<F, O>(num_vars, degree, claim, point, messages, m, log0, log1)
}

/// How many field elements the rounds send.
pub proof fn round_messages_count<O>(messages: Seq<Seq<int>>, point: Seq<int>, width: nat)
    requires
        messages.len() == point.len(),
        rect(messages, width),
    ensures
        fields_in(round_events::<O>(messages, point)).len() == messages.len() * width,
        digests_in(round_events::<O>(messages, point)).len() == 0,
    decreases messages.len(),
{
    if messages.len() > 0 {
        let k = messages.len() - 1;
        let (ms, pt) = (messages.drop_last(), point.drop_last());
        assert forall|i: int| 0 <= i < ms.len() implies (#[trigger] ms[i]).len() == width by {
            assert(ms[i] == messages[i]);
        }
        round_messages_count::<O>(ms, pt, width);
        let front = round_events::<O>(ms, pt);
        messages_concat(front, sent_fields::<O>(messages[k]));
        messages_of_sent::<O>(messages[k], Seq::empty());
        messages_push(front + sent_fields::<O>(messages[k]), Event::<O>::Challenge(point[k]));
        assert(k * width + width == (k + 1) * width) by (nonlinear_arith);
    } else {
        assert(0 * width == 0) by (nonlinear_arith);
    }
}

/// How many messages an accepted sum-check has.
pub proof fn sumcheck_went<F: Residue, O>(
    num_vars: nat,
    degree: nat,
    claim: int,
    terminal: int,
    point: Seq<int>,
    log0: Seq<Event<O>>,
    log1: Seq<Event<O>>,
)
    requires
        sumcheck_verified::<F, O>(num_vars, degree, claim, terminal, point, log0, log1),
    ensures
        went(log0, log1, num_vars * (degree + 1), 0),
{
    let messages = choose|messages: Seq<Seq<int>>| #[trigger]
        rounds_accepted::<F, O>(num_vars, degree, claim, terminal, point, messages, log0, log1);
    round_messages_count::<O>(messages, point, degree + 1);
    messages_concat(log0, round_events::<O>(messages, point));
}

/// Runs the verifier: reads the message of every round, holds it to the claim and
/// returns the last claim and the point.
pub fn sumcheck_verify<F: PrimeField, O, T: TranscriptRead<F, O>>(
    num_vars: usize,
    degree: usize,
    claim: F,
    transcript: &mut T,
) -> (r: Result<(F, Vec<F>), Error>)
    requires
        1 <= degree <= MAX_SMALL,
    ensures
        final(transcript).held() == old(transcript).held(),
        r matches Ok(end) ==> {
            &&& end.1@.len() == num_vars
            &&& sumcheck_verified::<F, O>(
                num_vars as nat,
                degree as nat,
                claim.val(),
                end.0.val(),
                vals(end.1@),
                old(transcript).log(),
                final(transcript).log(),
            )
        },
        r matches Err(e) ==> cut_within(
            e,
            old(transcript).log(),
            final(transcript).log(),
            (num_vars as nat) * (degree as nat + 1),
            0,
        ) || (round_error(e) && sumcheck_refused::<F, O>(
            num_vars as nat,
            degree as nat,
            claim.val(),
            old(transcript).log(),
            final(transcript).log(),
        )),
{
    let ghost log0 = transcript.log();
    let mut current = claim;
    let mut point: Vec<F> = Vec::new();
    let ghost mut messages: Seq<Seq<int>> = Seq::empty();
    proof {
        assert(vals(point@) =~= Seq::empty());
        assert(log0 + round_events(messages, vals(point@)) =~= log0);
    }
    while point.len() < num_vars
        invariant
            transcript.held() == old(transcript).held(),
            point@.len() <= num_vars,
            1 <= degree <= MAX_SMALL,
            messages.len() == point@.len(),
            rect(messages, (degree + 1) as nat),
            rounds_consistent::<F>(claim.val(), messages, vals(point@)),
            current.val() == claim_after::<F>(claim.val(), messages, vals(point@)),
            log0 == old(transcript).log(),
            transcript.log() == log0 + round_events(messages, vals(point@)),
        decreases num_vars - point@.len(),
    {
        let ghost pt = vals(point@);
        proof {
            let k = messages.len();
            let w = degree as nat + 1;
            round_messages_count::<O>(messages, pt, w);
            messages_concat(log0, round_events::<O>(messages, pt));
            assert(k * w + w <= num_vars * w) by (nonlinear_arith)
                requires
                    k + 1 <= num_vars,
            ;
        }
        let message = match read_field_elements(transcript, degree + 1) {
            Ok(message) => message,
            Err(e) => {
                return Err(e);
            },
        };
        let ghost m = vals(message@);
        if !message[0].plus(message[1]).equals(current) {
            proof {
                assert(round_refused::<F, O>(
                    num_vars as nat,
                    degree as nat,
                    claim.val(),
                    pt,
                    messages,
                    m,
                    log0,
                    transcript.log(),
                ));
            }
            return Err(Error::sumcheck("the values at zero and one do not sum to the claim"));
        }
        let c = transcript.squeeze_challenge();
        current = evaluate_from_values(&message, c);
        proof {
            round_events_push(messages, pt, m, c.val(), log0);
            vals_push(point@, c);
            let nm = messages.push(m);
            let np = pt.push(c.val());
            assert(nm.drop_last() =~= messages);
            assert(np.drop_last() =~= pt);
            assert forall|i: int| 0 <= i < nm.len() implies (#[trigger] nm[i]).len() == degree
                + 1 by {
                if i < messages.len() {
                    assert(nm[i] == messages[i]);
                }
            }
            messages = nm;
        }
        point.push(c);
    }
    proof {
        assert(rounds_accepted::<F, O>(
            num_vars as nat,
            degree as nat,
            claim.val(),
            current.val(),
            vals(point@),
            messages,
            log0,
            transcript.log(),
        ));
    }
    Ok((current, point))
}

/// What an honest prover writes for a true claim takes the verifier to the value
/// of the summed polynomial at the point.
pub proof fn honest_run_is_accepted<F: Residue, O>(
    terms: Seq<Term>,
    polys: Seq<Seq<int>>,
    degree: nat,
    claim: int,
    point: Seq<int>,
    log0: Seq<Event<O>>,
)
    requires
        1 <= degree <= MAX_SMALL,
        rect(polys, exp2(point.len())),
        forall|k: int| 0 <= k < polys.len() ==> vcanon::<F>(#[trigger] polys[k]),
        terms_fit(terms, polys.len(), degree),
        claim == cube_sum::<F>(terms, polys, exp2(point.len())),
    ensures
        sumcheck_verified::<F, O>(
            point.len(),
            degree,
            claim,
            summand::<F>(terms, values_at::<F>(polys, point)),
            point,
            log0,
            log0 + run_events::<F, O>(terms, polys, degree, point),
        ),
{
    honest_rounds_are_consistent::<F>(terms, polys, degree, claim, point);
    let messages = round_messages::<F>(terms, polys, degree, point);
    assert(rounds_accepted::<F, O>(
        point.len(),
        degree,
        claim,
        summand::<F>(terms, values_at::<F>(polys, point)),
        point,
        messages,
        log0,
        log0 + round_events(messages, point),
    ));
}

/// The same for an instance whose claim holds.
pub proof fn honest_sumcheck_is_accepted<F: PrimeField, O>(
    instance: SumcheckInstance<F>,
    point: Seq<int>,
    log0: Seq<Event<O>>,
)
    requires
        instance_fits(instance),
        instance.holds(),
        point.len() == instance.num_vars,
    ensures
        sumcheck_verified::<F, O>(
            instance.num_vars as nat,
            instance.degree as nat,
            instance.claim.val(),
            summand::<F>(
                instance.terms_spec(),
                values_at::<F>(mat(instance.polys@), point),
            ),
            point,
            log0,
            log0 + run_events::<F, O>(
                instance.terms_spec(),
                mat(instance.polys@),
                instance.degree as nat,
                point,
            ),
        ),
{
    instance_terms_fit(instance);
    mat_canon(instance.polys@);
    honest_run_is_accepted::<F, O>(
        instance.terms_spec(),
        mat(instance.polys@),
        instance.degree as nat,
        instance.claim.val(),
        point,
        log0,
    );
}

} // verus!
