//! Polynomials given by their values at zero, one, two and so on.

use crate::field::{
    canon, canon_consts, f_cancel, f_units, fadd, fadd_assoc, fadd_canon, fadd_comm, fmul,
    fmul_assoc, fmul_canon, fmul_comm, fmul_fadd, fmul_fsub, fsub, fsub_canon, inverse, inverse_is,
    inverses_multiply, ops_red, red, red_canon, red_sub, small_unit, unit, MAX_SMALL, PrimeField,
    Residue,
};
use crate::linear::{vals, vals_push, vcanon};
use vstd::prelude::*;

verus! {

/// `x (x - 1) ... (x - k + 1)`.
pub open spec fn falling<F: Residue>(x: int, k: nat) -> int
    decreases k,
{
    if k == 0 {
        1
    } else {
        fmul::<F>(falling::<F>(x, (k - 1) as nat), fsub::<F>(x, red::<F>(k - 1)))
    }
}

/// `1 * 2 * ... * k`.
pub open spec fn factorial<F: Residue>(k: nat) -> int
    decreases k,
{
    if k == 0 {
        1
    } else {
        fmul::<F>(factorial::<F>((k - 1) as nat), red::<F>(k as int))
    }
}

/// The value at `x` of the polynomial `b[0] + b[1] x + b[2] x (x - 1) + ...`.
pub open spec fn newton_value<F: Residue>(b: Seq<int>, x: int) -> int
    decreases b.len(),
{
    if b.len() == 0 {
        0
    } else {
        fadd::<F>(
            newton_value::<F>(b.drop_last(), x),
            fmul::<F>(b.last(), falling::<F>(x, (b.len() - 1) as nat)),
        )
    }
}

/// The polynomial that takes the given values at zero, one, two and so on, in the
/// form that [`newton_value`] evaluates.
pub open spec fn newton_coeffs<F: Residue>(e: Seq<int>) -> Seq<int>
    decreases e.len(),
{
    if e.len() == 0 {
        Seq::empty()
    } else {
        let b = newton_coeffs::<F>(e.drop_last());
        let i = (e.len() - 1) as nat;
        b.push(
            fmul::<F>(
                fsub::<F>(e.last(), newton_value::<F>(b, red::<F>(i as int))),
                inverse::<F>(factorial::<F>(i)),
            ),
        )
    }
}

/// The value at `x` of the polynomial of degree below `e.len()` that takes the
/// values `e` at zero, one, two and so on.
pub open spec fn poly_value<F: Residue>(e: Seq<int>, x: int) -> int {
    newton_value::<F>(newton_coeffs::<F>(e), x)
}

proof fn falling_canon<F: Residue>(x: int, k: nat)
    ensures
        canon::<F>(falling::<F>(x, k)),
{
    canon_consts::<F>();
    broadcast use fmul_canon;

}

proof fn factorial_canon<F: Residue>(k: nat)
    ensures
        canon::<F>(factorial::<F>(k)),
{
    canon_consts::<F>();
    broadcast use fmul_canon;

}

proof fn newton_canon<F: Residue>(b: Seq<int>, x: int)
    ensures
        canon::<F>(newton_value::<F>(b, x)),
{
    canon_consts::<F>();
    broadcast use fadd_canon;

}

/// As many coefficients as values.
pub proof fn newton_coeffs_len<F: Residue>(e: Seq<int>)
    ensures
        newton_coeffs::<F>(e).len() == e.len(),
        vcanon::<F>(newton_coeffs::<F>(e)),
    decreases e.len(),
{
    if e.len() > 0 {
        newton_coeffs_len::<F>(e.drop_last());
        let b = newton_coeffs::<F>(e);
        let i = (e.len() - 1) as nat;
        fmul_canon::<F>(
            fsub::<F>(
                e.last(),
                newton_value::<F>(newton_coeffs::<F>(e.drop_last()), red::<F>(i as int)),
            ),
            inverse::<F>(factorial::<F>(i)),
        );
        assert forall|k: int| 0 <= k < b.len() implies canon::<F>(#[trigger] b[k]) by {
            if k < i {
                assert(b[k] == newton_coeffs::<F>(e.drop_last())[k]);
            }
        }
    }
}

/// Later products vanish at earlier places.
proof fn falling_vanishes<F: Residue>(i: nat, k: nat)
    requires
        i < k,
    ensures
        falling::<F>(red::<F>(i as int), k) == 0,
    decreases k,
{
    let x = red::<F>(i as int);
    let d = (k - 1) as nat;
    red_canon::<F>(i as int);
    canon_consts::<F>();
    falling_canon::<F>(x, d);
    if i == d {
        f_units::<F>(x);
        f_units::<F>(falling::<F>(x, d));
    } else {
        falling_vanishes::<F>(i, d);
        fsub_canon::<F>(x, red::<F>(d as int));
        f_units::<F>(fsub::<F>(x, red::<F>(d as int)));
    }
}

/// At `i` the first `k` factors are the last ones of the factorial.
proof fn falling_completes<F: Residue>(i: nat, k: nat)
    requires
        k <= i,
    ensures
        fmul::<F>(falling::<F>(red::<F>(i as int), k), factorial::<F>((i - k) as nat))
            == factorial::<F>(i),
    decreases k,
{
    let x = red::<F>(i as int);
    canon_consts::<F>();
    if k == 0 {
        factorial_canon::<F>(i);
        f_units::<F>(factorial::<F>(i));
    } else {
        let d = (k - 1) as nat;
        falling_completes::<F>(i, d);
        red_sub::<F>(i as int, d as int);
        let rest = factorial::<F>((i - k) as nat);
        let m = red::<F>(i - d);
        fmul_assoc::<F>(falling::<F>(x, d), m, rest);
        fmul_comm::<F>(m, rest);
        assert(factorial::<F>((i - d) as nat) == fmul::<F>(rest, m));
    }
}

/// At `i` the product of `i` factors is the factorial.
proof fn falling_is_factorial<F: Residue>(i: nat)
    ensures
        falling::<F>(red::<F>(i as int), i) == factorial::<F>(i),
{
    falling_completes::<F>(i, i);
    falling_canon::<F>(red::<F>(i as int), i);
    f_units::<F>(falling::<F>(red::<F>(i as int), i));
}

/// Small factorials have inverses.
pub proof fn factorial_unit<F: Residue>(k: nat)
    requires
        k <= MAX_SMALL,
    ensures
        unit::<F>(factorial::<F>(k)),
    decreases k,
{
    canon_consts::<F>();
    if k == 0 {
        f_units::<F>(1);
        assert(fmul::<F>(1, 1) == 1);
    } else {
        let d = (k - 1) as nat;
        factorial_unit::<F>(d);
        small_unit::<F>(k as int);
        let (f, m) = (factorial::<F>(d), red::<F>(k as int));
        let y = choose|b: int| canon::<F>(b) && #[trigger] fmul::<F>(f, b) == 1;
        let z = choose|b: int| canon::<F>(b) && #[trigger] fmul::<F>(m, b) == 1;
        inverses_multiply::<F>(f, y, m, z);
        fmul_canon::<F>(y, z);
    }
}

/// One more coefficient does not change the value at an earlier place.
proof fn newton_earlier<F: Residue>(b: Seq<int>, i: nat)
    requires
        b.len() > 0,
        i < b.len() - 1,
        canon::<F>(b.last()),
    ensures
        newton_value::<F>(b, red::<F>(i as int)) == newton_value::<F>(
            b.drop_last(),
            red::<F>(i as int),
        ),
{
    let x = red::<F>(i as int);
    falling_vanishes::<F>(i, (b.len() - 1) as nat);
    f_units::<F>(b.last());
    newton_canon::<F>(b.drop_last(), x);
    f_units::<F>(newton_value::<F>(b.drop_last(), x));
}

/// The polynomial takes the values that it is made of.
pub proof fn poly_value_at_place<F: Residue>(e: Seq<int>, i: nat)
    requires
        i < e.len(),
        e.len() <= MAX_SMALL + 1,
        vcanon::<F>(e),
    ensures
        poly_value::<F>(e, red::<F>(i as int)) == e[i as int],
    decreases e.len(),
{
    let front = e.drop_last();
    let (b, bd) = (newton_coeffs::<F>(e), newton_coeffs::<F>(front));
    let n = (e.len() - 1) as nat;
    newton_coeffs_len::<F>(e);
    newton_coeffs_len::<F>(front);
    assert(b.drop_last() =~= bd);
    assert(canon::<F>(b[n as int]));
    assert(canon::<F>(e[i as int]));
    if i < n {
        assert forall|k: int| 0 <= k < front.len() implies canon::<F>(#[trigger] front[k]) by {
            assert(front[k] == e[k]);
        }
        poly_value_at_place::<F>(front, i);
        newton_earlier::<F>(b, i);
    } else {
        let x = red::<F>(n as int);
        let before = newton_value::<F>(bd, x);
        let gap = fsub::<F>(e.last(), before);
        let f = factorial::<F>(n);
        factorial_unit::<F>(n);
        let y = inverse::<F>(f);
        falling_is_factorial::<F>(n);
        fmul_assoc::<F>(gap, y, f);
        fmul_comm::<F>(y, f);
        fsub_canon::<F>(e.last(), before);
        f_units::<F>(gap);
        fadd_comm::<F>(before, gap);
        f_cancel::<F>(e.last(), before);
    }
}

/// A polynomial is known from its values.
pub proof fn newton_unique<F: Residue>(e: Seq<int>, b: Seq<int>)
    requires
        e.len() == b.len(),
        e.len() <= MAX_SMALL + 1,
        vcanon::<F>(b),
        forall|i: int|
            0 <= i < e.len() ==> #[trigger] e[i] == newton_value::<F>(b, red::<F>(i)),
    ensures
        newton_coeffs::<F>(e) == b,
    decreases e.len(),
{
    if e.len() > 0 {
        let (ed, bd) = (e.drop_last(), b.drop_last());
        let n = (e.len() - 1) as nat;
        assert(canon::<F>(b[n as int]));
        assert forall|i: int| 0 <= i < bd.len() implies canon::<F>(#[trigger] bd[i]) by {
            assert(bd[i] == b[i]);
        }
        assert forall|i: int| 0 <= i < ed.len() implies #[trigger] ed[i] == newton_value::<F>(
            bd,
            red::<F>(i),
        ) by {
            assert(ed[i] == e[i]);
            newton_earlier::<F>(b, i as nat);
        }
        newton_unique::<F>(ed, bd);
        let x = red::<F>(n as int);
        let last = b[n as int];
        let f = factorial::<F>(n);
        factorial_unit::<F>(n);
        let y = inverse::<F>(f);
        falling_is_factorial::<F>(n);
        let before = newton_value::<F>(bd, x);
        let term = fmul::<F>(last, f);
        assert(e[n as int] == fadd::<F>(before, term));
        fadd_comm::<F>(before, term);
        fmul_canon::<F>(last, f);
        f_cancel::<F>(term, before);
        fmul_assoc::<F>(last, f, y);
        f_units::<F>(last);
        assert(newton_coeffs::<F>(e) =~= bd.push(last));
        assert(bd.push(last) =~= b);
    } else {
        assert(newton_coeffs::<F>(e) =~= b);
    }
}

/// The form that [`newton_value`] evaluates of `c + x p(x)`.
pub open spec fn times_variable<F: Residue>(b: Seq<int>, c: int) -> Seq<int>
    decreases b.len(),
{
    if b.len() == 0 {
        seq![c]
    } else {
        let prev = times_variable::<F>(b.drop_last(), c);
        let n = prev.len() - 1;
        prev.drop_last().push(
            fadd::<F>(prev.last(), fmul::<F>(red::<F>(n as int), b.last())),
        ).push(b.last())
    }
}

/// Multiplying by the variable and adding a constant.
pub proof fn times_variable_value<F: Residue>(b: Seq<int>, c: int, x: int)
    requires
        canon::<F>(c),
        vcanon::<F>(b),
    ensures
        times_variable::<F>(b, c).len() == b.len() + 1,
        vcanon::<F>(times_variable::<F>(b, c)),
        newton_value::<F>(times_variable::<F>(b, c), x) == fadd::<F>(
            c,
            fmul::<F>(x, newton_value::<F>(b, x)),
        ),
    decreases b.len(),
{
    canon_consts::<F>();
    let r = times_variable::<F>(b, c);
    if b.len() == 0 {
        assert(r.drop_last() =~= Seq::empty());
        f_units::<F>(c);
        ops_red::<F>(x, 0);
        assert(x * 0 == 0) by (nonlinear_arith);
        assert(newton_value::<F>(r.drop_last(), x) == 0);
    } else {
        let bd = b.drop_last();
        let l = b.last();
        assert(canon::<F>(b[b.len() - 1]));
        assert forall|i: int| 0 <= i < bd.len() implies canon::<F>(#[trigger] bd[i]) by {
            assert(bd[i] == b[i]);
        }
        times_variable_value::<F>(bd, c, x);
        let prev = times_variable::<F>(bd, c);
        let n = (prev.len() - 1) as nat;
        let m = red::<F>(n as int);
        let u = prev.last();
        let mid = r.drop_last();
        assert(mid =~= prev.drop_last().push(fadd::<F>(u, fmul::<F>(m, l))));
        assert(mid.drop_last() =~= prev.drop_last());
        fadd_canon::<F>(u, fmul::<F>(m, l));
        assert forall|i: int| 0 <= i < r.len() implies canon::<F>(#[trigger] r[i]) by {
            if i < n {
                assert(r[i] == prev[i]);
            }
        }
        let front = newton_value::<F>(prev.drop_last(), x);
        let f = falling::<F>(x, n);
        let g = fmul::<F>(l, f);
        let gap = fsub::<F>(x, m);
        // (u + m l) f == u f + m g
        fmul_comm::<F>(fadd::<F>(u, fmul::<F>(m, l)), f);
        fmul_fadd::<F>(f, u, fmul::<F>(m, l));
        fmul_comm::<F>(f, u);
        fmul_comm::<F>(f, fmul::<F>(m, l));
        fmul_assoc::<F>(m, l, f);
        let mg = fmul::<F>(m, g);
        // l (f (x - m)) == g (x - m) == g x - g m
        fmul_assoc::<F>(l, f, gap);
        fmul_fsub::<F>(g, x, m);
        fmul_comm::<F>(g, m);
        fmul_comm::<F>(g, x);
        let xg = fmul::<F>(x, g);
        let rest = fsub::<F>(xg, mg);
        fmul_canon::<F>(x, g);
        f_cancel::<F>(xg, mg);
        fadd_comm::<F>(mg, rest);
        // front + (u f + m g) + (x g - m g) == (front + u f) + x g
        let uf = fmul::<F>(u, f);
        fadd_assoc::<F>(front, uf, mg);
        fadd_assoc::<F>(fadd::<F>(front, uf), mg, rest);
        // c + x (p + g) == (c + x p) + x g
        let p = newton_value::<F>(bd, x);
        fmul_fadd::<F>(x, p, g);
        fadd_assoc::<F>(c, fmul::<F>(x, p), xg);
        assert(newton_value::<F>(prev, x) == fadd::<F>(front, uf));
        assert(newton_value::<F>(mid, x) == fadd::<F>(front, fadd::<F>(uf, mg)));
        assert(falling::<F>(x, n + 1) == fmul::<F>(f, gap));
        assert(newton_value::<F>(r, x) == fadd::<F>(newton_value::<F>(mid, x), rest));
    }
}

/// The values of a polynomial in [`newton_value`]'s form.
fn newton_at<F: PrimeField>(b: &[F], x: F) -> (r: F)
    ensures
        r.val() == newton_value::<F>(vals(b@), x.val()),
{
    let ghost v = vals(b@);
    let mut acc = F::zero();
    let mut product = F::one();
    let mut place = F::zero();
    let mut i: usize = 0;
    proof {
        canon_consts::<F>();
        assert(v.take(0) =~= Seq::empty());
    }
    while i < b.len()
        invariant
            i <= b@.len(),
            v == vals(b@),
            acc.val() == newton_value::<F>(v.take(i as int), x.val()),
            product.val() == falling::<F>(x.val(), i as nat),
            place.val() == red::<F>(i as int),
        decreases b@.len() - i,
    {
        proof {
            assert(v.take(i as int + 1).drop_last() =~= v.take(i as int));
            canon_consts::<F>();
            crate::field::red_add::<F>(i as int, 1);
        }
        acc = acc.plus(b[i].times(product));
        product = product.times(x.minus(place));
        place = place.plus(F::one());
        i = i + 1;
    }
    assert(v.take(i as int) =~= v);
    acc
}

/// Evaluates the polynomial that takes the given values at zero, one, two and so
/// on.
pub fn evaluate_from_values<F: PrimeField>(e: &[F], x: F) -> (r: F)
    requires
        e@.len() <= MAX_SMALL + 1,
    ensures
        r.val() == poly_value::<F>(vals(e@), x.val()),
{
    let ghost v = vals(e@);
    let mut b: Vec<F> = Vec::new();
    let mut scale = F::one();
    let mut i: usize = 0;
    proof {
        canon_consts::<F>();
        f_units::<F>(1);
        assert(v.take(0) =~= Seq::empty());
        assert(vals(b@) =~= Seq::empty());
    }
    while i < e.len()
        invariant
            i <= e@.len(),
            e@.len() <= MAX_SMALL + 1,
            v == vals(e@),
            b@.len() == i,
            vals(b@) == newton_coeffs::<F>(v.take(i as int)),
            i > 0 ==> fmul::<F>(factorial::<F>((i - 1) as nat), scale.val()) == 1,
            i == 0 ==> scale.val() == 1,
        decreases e@.len() - i,
    {
        let ghost before = scale.val();
        if i > 0 {
            let small = F::small_inverse(i as u64);
            scale = scale.times(small);
            proof {
                inverses_multiply::<F>(
                    factorial::<F>((i - 1) as nat),
                    before,
                    red::<F>(i as int),
                    small.val(),
                );
            }
        } else {
            proof {
                canon_consts::<F>();
                f_units::<F>(1);
            }
        }
        let place = F::from_u64(i as u64);
        proof {
            assert(place.val() == red::<F>(i as int)) by {
                reveal(red);
            }
            scale.lemma_val();
            inverse_is::<F>(factorial::<F>(i as nat), scale.val());
            assert(v.take(i as int + 1).drop_last() =~= v.take(i as int));
        }
        let gap = e[i].minus(newton_at(&b, place));
        let coeff = gap.times(scale);
        proof {
            vals_push(b@, coeff);
        }
        b.push(coeff);
        i = i + 1;
    }
    assert(v.take(i as int) =~= v);
    newton_at(&b, x)
}

} // verus!
