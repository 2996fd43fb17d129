//! Prime fields and the arithmetic of residues.
//!
//! A field element is modelled by its canonical integer `val()` in
//! `[0, modulus)`. Contracts are stated over these integers with the residue
//! operations [`fadd`], [`fsub`] and [`fmul`].

use vstd::arithmetic::div_mod::{
    lemma_add_mod_noop, lemma_breakdown, lemma_div_denominator, lemma_fundamental_div_mod,
    lemma_mod_bound, lemma_mod_multiples_vanish, lemma_mul_mod_noop, lemma_mul_mod_noop_right,
    lemma_small_mod, lemma_sub_mod_noop,
};
use vstd::arithmetic::power::{
    lemma_pow0, lemma_pow1, lemma_pow_adds, lemma_pow_increases, lemma_pow_positive, pow,
};
use vstd::prelude::*;

verus! {

/// Little-endian base-256 digits of `v`, exactly `n` of them.
pub open spec fn le_bytes(v: int, n: nat) -> Seq<u8>
    decreases n,
{
    if n == 0 {
        Seq::empty()
    } else {
        seq![(v % 256) as u8] + le_bytes(v / 256, (n - 1) as nat)
    }
}

/// The integer whose little-endian base-256 digits are `b`.
pub open spec fn le_value(b: Seq<u8>) -> int
    decreases b.len(),
{
    if b.len() == 0 {
        0
    } else {
        b[0] as int + 256 * le_value(b.drop_first())
    }
}

/// Writing out the digits of a value read from digits gives the digits back.
pub proof fn le_bytes_of_value(b: Seq<u8>)
    ensures
        le_bytes(le_value(b), b.len()) == b,
        0 <= le_value(b),
    decreases b.len(),
{
    if b.len() > 0 {
        let rest = b.drop_first();
        le_bytes_of_value(rest);
        let v = le_value(b);
        assert(v % 256 == b[0] as int);
        assert(v / 256 == le_value(rest));
        assert(seq![b[0]] + rest =~= b);
    } else {
        assert(le_bytes(le_value(b), b.len()) =~= b);
    }
}

/// Digit `j` is what is left of the value without its lower digits, modulo the
/// base.
pub proof fn le_bytes_digit(v: int, n: nat, j: nat)
    requires
        0 <= v,
        j < n,
    ensures
        le_bytes(v, n).len() == n,
        le_bytes(v, n)[j as int] as int == (v / pow(256, j)) % 256,
    decreases n,
{
    le_bytes_len(v, n);
    lemma_pow0(256);
    if j == 0 {
        assert(v / 1 == v);
    } else {
        let (m, i) = ((n - 1) as nat, (j - 1) as nat);
        le_bytes_digit(v / 256, m, i);
        le_bytes_len(v / 256, m);
        lemma_pow_adds(256, 1, i);
        lemma_pow1(256);
        lemma_pow_positive(256, i);
        lemma_div_denominator(v, 256, pow(256, i));
        assert(le_bytes(v, n)[j as int] == le_bytes(v / 256, m)[i as int]);
    }
}

/// Values with room for their digits are known from them.
pub proof fn le_bytes_determine(v: int, w: int, n: nat)
    requires
        0 <= v < pow(256, n),
        0 <= w < pow(256, n),
        le_bytes(v, n) == le_bytes(w, n),
    ensures
        v == w,
{
    le_value_of_bytes(v, n);
    le_value_of_bytes(w, n);
    lemma_small_mod(v as nat, pow(256, n) as nat);
    lemma_small_mod(w as nat, pow(256, n) as nat);
}

/// `n` digits determine a value below `256^n`.
pub proof fn le_bytes_len(v: int, n: nat)
    ensures
        le_bytes(v, n).len() == n,
    decreases n,
{
    if n > 0 {
        le_bytes_len(v / 256, (n - 1) as nat);
    }
}

/// Reading back `n` digits of a value gives its residue modulo `256^n`.
pub proof fn le_value_of_bytes(v: int, n: nat)
    requires
        0 <= v,
    ensures
        le_bytes(v, n).len() == n,
        le_value(le_bytes(v, n)) == v % pow(256, n),
    decreases n,
{
    lemma_pow_positive(256, n);
    lemma_pow0(256);
    if n > 0 {
        let m = (n - 1) as nat;
        le_value_of_bytes(v / 256, m);
        let tail = le_bytes(v / 256, m);
        assert((seq![(v % 256) as u8] + tail).drop_first() =~= tail);
        lemma_pow_adds(256, 1, m);
        lemma_pow1(256);
        lemma_pow_positive(256, m);
        lemma_breakdown(v, 256, pow(256, m));
    } else {
        assert(v % 1 == 0);
    }
}

/// The first digits of a longer expansion.
pub proof fn le_bytes_take(v: int, n: nat, k: nat)
    requires
        k <= n,
    ensures
        le_bytes(v, n).len() == n,
        le_bytes(v, n).take(k as int) == le_bytes(v, k),
    decreases n,
{
    le_bytes_len(v, n);
    if k > 0 {
        le_bytes_take(v / 256, (n - 1) as nat, (k - 1) as nat);
        let tail = le_bytes(v / 256, (n - 1) as nat);
        assert(le_bytes(v, n).take(k as int) =~= seq![(v % 256) as u8] + tail.take(k as int - 1));
    } else {
        assert(le_bytes(v, n).take(0) =~= Seq::empty());
    }
}

/// A value with `n` digits is below `256^n`.
pub proof fn le_value_bound(b: Seq<u8>)
    ensures
        0 <= le_value(b) < pow(256, b.len()),
    decreases b.len(),
{
    lemma_pow0(256);
    if b.len() > 0 {
        le_value_bound(b.drop_first());
        lemma_pow_adds(256, 1, (b.len() - 1) as nat);
        lemma_pow1(256);
    }
}

/// The eight little-endian bytes of a machine word.
pub fn u64_to_le_bytes(v: u64) -> (r: Vec<u8>)
    ensures
        r@ == le_bytes(v as int, 8),
{
    let mut out: Vec<u8> = Vec::new();
    let mut rest: u64 = v;
    let mut i: usize = 0;
    while i < 8
        invariant
            i <= 8,
            out@ + le_bytes(rest as int, (8 - i) as nat) == le_bytes(v as int, 8),
        decreases 8 - i,
    {
        let ghost before = out@;
        let byte: u8 = (rest % 256) as u8;
        proof {
            let tail = le_bytes(rest as int / 256, (8 - i - 1) as nat);
            assert(before.push(byte) + tail =~= before + (seq![byte] + tail));
        }
        out.push(byte);
        rest = rest / 256;
        i = i + 1;
    }
    assert(out@ + le_bytes(rest as int, 0) =~= out@);
    out
}

/// The product of two integers is one modulo a third.
pub open spec fn inverts(a: int, b: int, m: int) -> bool {
    0 <= b < m && (a * b) % m == 1
}

/// The inverse of a product is the product of the inverses.
pub proof fn inverts_product(a: int, b: int, c: int, d: int, m: int)
    requires
        m > 1,
        inverts(a, b, m),
        inverts(c, d, m),
    ensures
        inverts(a * c, (b * d) % m, m),
{
    lemma_mod_bound(b * d, m);
    lemma_mul_mod_noop_right(a * c, b * d, m);
    assert((a * c) * (b * d) == (a * b) * (c * d)) by (nonlinear_arith);
    lemma_mul_mod_noop(a * b, c * d, m);
    lemma_small_mod(1, m as nat);
}

/// The integer model of a prime field element.
pub trait Residue: Copy + Sized {
    /// The number of elements of the field.
    spec fn modulus() -> int;

    /// The canonical integer of an element.
    spec fn val(self) -> int;

    /// The number of bytes of the canonical encoding.
    spec fn repr_len() -> nat;

    proof fn lemma_modulus()
        ensures
            Self::modulus() > 1,
    ;

    proof fn lemma_val(self)
        ensures
            0 <= self.val() < Self::modulus(),
    ;

    /// The canonical encoding has room for every element.
    proof fn lemma_repr()
        ensures
            Self::modulus() <= pow(256, Self::repr_len()),
    ;

    /// Small integers have inverses.
    proof fn lemma_small(k: int)
        requires
            0 < k <= MAX_SMALL,
        ensures
            exists|b: int| #[trigger] inverts(k, b, Self::modulus()),
    ;
}

/// The largest of the small integers, which every field here is larger than.
pub const MAX_SMALL: u64 = 16;

/// The arithmetic of a prime field.
pub trait PrimeField: Residue {
    /// The additive identity.
    fn zero() -> (r: Self)
        ensures
            r.val() == 0,
    ;

    /// The multiplicative identity.
    fn one() -> (r: Self)
        ensures
            r.val() == 1,
    ;

    /// The residue class of an integer.
    fn from_u64(v: u64) -> (r: Self)
        ensures
            r.val() == v as int % Self::modulus(),
    ;

    /// Sum.
    fn plus(self, other: Self) -> (r: Self)
        ensures
            r.val() == fadd::<Self>(self.val(), other.val()),
    ;

    /// Difference.
    fn minus(self, other: Self) -> (r: Self)
        ensures
            r.val() == fsub::<Self>(self.val(), other.val()),
    ;

    /// Product.
    fn times(self, other: Self) -> (r: Self)
        ensures
            r.val() == fmul::<Self>(self.val(), other.val()),
    ;

    /// The inverse of a small integer.
    fn small_inverse(k: u64) -> (r: Self)
        requires
            0 < k <= MAX_SMALL,
        ensures
            fmul::<Self>(red::<Self>(k as int), r.val()) == 1,
    ;

    /// Whether two elements are the same residue class.
    fn equals(self, other: Self) -> (r: bool)
        ensures
            r == (self.val() == other.val()),
    ;

    /// The canonical little-endian encoding.
    fn to_repr(self) -> (r: Vec<u8>)
        ensures
            r@ == le_bytes(self.val(), Self::repr_len()),
    ;
}

/// The residue of an integer.
#[verifier::opaque]
pub open spec fn red<F: Residue>(z: int) -> int {
    z % F::modulus()
}

/// Residue addition.
#[verifier::opaque]
pub open spec fn fadd<F: Residue>(a: int, b: int) -> int {
    (a + b) % F::modulus()
}

/// Residue subtraction.
#[verifier::opaque]
pub open spec fn fsub<F: Residue>(a: int, b: int) -> int {
    (a - b) % F::modulus()
}

/// Residue multiplication.
#[verifier::opaque]
pub open spec fn fmul<F: Residue>(a: int, b: int) -> int {
    (a * b) % F::modulus()
}

/// Whether an integer is a canonical residue.
pub open spec fn canon<F: Residue>(a: int) -> bool {
    0 <= a < F::modulus()
}

/// Whether an element has an inverse.
pub open spec fn unit<F: Residue>(a: int) -> bool {
    exists|b: int| canon::<F>(b) && #[trigger] fmul::<F>(a, b) == 1
}

/// The inverse of an element that has one.
pub open spec fn inverse<F: Residue>(a: int) -> int {
    choose|b: int| canon::<F>(b) && #[trigger] fmul::<F>(a, b) == 1
}

/// Canonical integers are canonical.
pub broadcast proof fn val_canon<F: Residue>(x: F)
    ensures
        canon::<F>(#[trigger] x.val()),
{
    x.lemma_val();
}

/// Every residue operation returns a canonical residue.
pub broadcast proof fn fadd_canon<F: Residue>(a: int, b: int)
    ensures
        canon::<F>(#[trigger] fadd::<F>(a, b)),
{
    reveal(fadd);
    F::lemma_modulus();
    lemma_mod_bound(a + b, F::modulus());
}

pub broadcast proof fn fsub_canon<F: Residue>(a: int, b: int)
    ensures
        canon::<F>(#[trigger] fsub::<F>(a, b)),
{
    reveal(fsub);
    F::lemma_modulus();
    lemma_mod_bound(a - b, F::modulus());
}

pub broadcast proof fn fmul_canon<F: Residue>(a: int, b: int)
    ensures
        canon::<F>(#[trigger] fmul::<F>(a, b)),
{
    reveal(fmul);
    F::lemma_modulus();
    lemma_mod_bound(a * b, F::modulus());
}

pub broadcast group group_canon {
    val_canon,
    fadd_canon,
    fsub_canon,
    fmul_canon,
}

/// Zero and one are canonical residues, fixed by reduction.
pub proof fn canon_consts<F: Residue>()
    ensures
        canon::<F>(0),
        canon::<F>(1),
        red::<F>(0) == 0,
        red::<F>(1) == 1,
{
    reveal(red);
    F::lemma_modulus();
    lemma_small_mod(0, F::modulus() as nat);
    lemma_small_mod(1, F::modulus() as nat);
}

/// A canonical residue is its own residue.
pub proof fn red_id<F: Residue>(a: int)
    requires
        canon::<F>(a),
    ensures
        red::<F>(a) == a,
{
    reveal(red);
    F::lemma_modulus();
    lemma_small_mod(a as nat, F::modulus() as nat);
}

/// Residues are canonical.
pub proof fn red_canon<F: Residue>(z: int)
    ensures
        canon::<F>(red::<F>(z)),
{
    reveal(red);
    F::lemma_modulus();
    lemma_mod_bound(z, F::modulus());
}

/// Reduction commutes with addition.
pub proof fn red_add<F: Residue>(x: int, y: int)
    ensures
        fadd::<F>(red::<F>(x), red::<F>(y)) == red::<F>(x + y),
{
    reveal(red);
    reveal(fadd);
    F::lemma_modulus();
    lemma_add_mod_noop(x, y, F::modulus());
}

/// Reduction commutes with subtraction.
pub proof fn red_sub<F: Residue>(x: int, y: int)
    ensures
        fsub::<F>(red::<F>(x), red::<F>(y)) == red::<F>(x - y),
{
    reveal(red);
    reveal(fsub);
    F::lemma_modulus();
    lemma_sub_mod_noop(x, y, F::modulus());
}

/// Reduction commutes with multiplication.
pub proof fn red_mul<F: Residue>(x: int, y: int)
    ensures
        fmul::<F>(red::<F>(x), red::<F>(y)) == red::<F>(x * y),
{
    reveal(red);
    reveal(fmul);
    F::lemma_modulus();
    lemma_mul_mod_noop(x, y, F::modulus());
}

/// The operations on arbitrary integers are the reduced integer operations.
pub proof fn ops_red<F: Residue>(a: int, b: int)
    ensures
        fadd::<F>(a, b) == red::<F>(a + b),
        fsub::<F>(a, b) == red::<F>(a - b),
        fmul::<F>(a, b) == red::<F>(a * b),
        fadd::<F>(a, b) == fadd::<F>(red::<F>(a), red::<F>(b)),
        fsub::<F>(a, b) == fsub::<F>(red::<F>(a), red::<F>(b)),
        fmul::<F>(a, b) == fmul::<F>(red::<F>(a), red::<F>(b)),
{
    reveal(red);
    reveal(fadd);
    reveal(fsub);
    reveal(fmul);
    red_add::<F>(a, b);
    red_sub::<F>(a, b);
    red_mul::<F>(a, b);
}

pub broadcast proof fn fadd_comm<F: Residue>(a: int, b: int)
    ensures
        #[trigger] fadd::<F>(a, b) == fadd::<F>(b, a),
{
    reveal(fadd);
}

pub broadcast proof fn fmul_comm<F: Residue>(a: int, b: int)
    ensures
        #[trigger] fmul::<F>(a, b) == fmul::<F>(b, a),
{
    reveal(fmul);
    assert(a * b == b * a) by (nonlinear_arith);
}

pub broadcast proof fn fadd_assoc<F: Residue>(a: int, b: int, c: int)
    ensures
        #[trigger] fadd::<F>(fadd::<F>(a, b), c) == fadd::<F>(a, fadd::<F>(b, c)),
{
    ops_red::<F>(a, b);
    ops_red::<F>(b, c);
    ops_red::<F>(fadd::<F>(a, b), c);
    ops_red::<F>(a, fadd::<F>(b, c));
    red_red::<F>(a + b);
    red_red::<F>(b + c);
    red_add::<F>(a + b, c);
    red_add::<F>(a, b + c);
    assert((a + b) + c == a + (b + c));
}

pub broadcast proof fn fmul_assoc<F: Residue>(a: int, b: int, c: int)
    ensures
        #[trigger] fmul::<F>(fmul::<F>(a, b), c) == fmul::<F>(a, fmul::<F>(b, c)),
{
    ops_red::<F>(a, b);
    ops_red::<F>(b, c);
    ops_red::<F>(fmul::<F>(a, b), c);
    ops_red::<F>(a, fmul::<F>(b, c));
    red_red::<F>(a * b);
    red_red::<F>(b * c);
    red_mul::<F>(a * b, c);
    red_mul::<F>(a, b * c);
    assert((a * b) * c == a * (b * c)) by (nonlinear_arith);
}

/// Reducing twice changes nothing.
pub proof fn red_red<F: Residue>(z: int)
    ensures
        red::<F>(red::<F>(z)) == red::<F>(z),
{
    red_canon::<F>(z);
    red_id::<F>(red::<F>(z));
}

/// Multiplication distributes over addition.
pub broadcast proof fn fmul_fadd<F: Residue>(a: int, b: int, c: int)
    ensures
        #[trigger] fmul::<F>(a, fadd::<F>(b, c)) == fadd::<F>(fmul::<F>(a, b), fmul::<F>(a, c)),
{
    ops_red::<F>(b, c);
    ops_red::<F>(a, b);
    ops_red::<F>(a, c);
    ops_red::<F>(a, fadd::<F>(b, c));
    red_red::<F>(b + c);
    red_mul::<F>(a, b + c);
    red_add::<F>(a * b, a * c);
    assert(a * (b + c) == a * b + a * c) by (nonlinear_arith);
}

/// Multiplication distributes over subtraction.
pub broadcast proof fn fmul_fsub<F: Residue>(a: int, b: int, c: int)
    ensures
        #[trigger] fmul::<F>(a, fsub::<F>(b, c)) == fsub::<F>(fmul::<F>(a, b), fmul::<F>(a, c)),
{
    ops_red::<F>(b, c);
    ops_red::<F>(a, b);
    ops_red::<F>(a, c);
    ops_red::<F>(a, fsub::<F>(b, c));
    red_red::<F>(b - c);
    red_mul::<F>(a, b - c);
    red_sub::<F>(a * b, a * c);
    assert(a * (b - c) == a * b - a * c) by (nonlinear_arith);
}

/// The operations of the commutative semiring, as rewriting facts.
pub broadcast group group_ring {
    fadd_comm,
    fmul_comm,
    fadd_assoc,
    fmul_assoc,
    fmul_fadd,
    fmul_fsub,
}

/// Neutral and absorbing elements.
pub proof fn f_units<F: Residue>(a: int)
    requires
        canon::<F>(a),
    ensures
        fadd::<F>(a, 0) == a,
        fadd::<F>(0, a) == a,
        fsub::<F>(a, 0) == a,
        fsub::<F>(a, a) == 0,
        fmul::<F>(a, 1) == a,
        fmul::<F>(1, a) == a,
        fmul::<F>(a, 0) == 0,
        fmul::<F>(0, a) == 0,
{
    reveal(fadd);
    reveal(fsub);
    reveal(fmul);
    F::lemma_modulus();
    lemma_small_mod(a as nat, F::modulus() as nat);
    lemma_small_mod(0, F::modulus() as nat);
    assert(a * 1 == a && 1 * a == a && a * 0 == 0 && 0 * a == 0) by (nonlinear_arith);
}

/// An element has one inverse.
pub proof fn inverse_is<F: Residue>(a: int, b: int)
    requires
        canon::<F>(b),
        fmul::<F>(a, b) == 1,
    ensures
        unit::<F>(a),
        inverse::<F>(a) == b,
{
    let y = inverse::<F>(a);
    assert(canon::<F>(y) && fmul::<F>(a, y) == 1);
    fmul_assoc::<F>(b, a, y);
    fmul_comm::<F>(b, a);
    f_units::<F>(b);
    f_units::<F>(y);
}

/// Small integers have inverses.
pub proof fn small_unit<F: Residue>(k: int)
    requires
        0 < k <= MAX_SMALL,
    ensures
        unit::<F>(red::<F>(k)),
{
    F::lemma_small(k);
    let b = choose|b: int| #[trigger] inverts(k, b, F::modulus());
    ops_red::<F>(k, b);
    red_id::<F>(b);
    reveal(fmul);
    assert(fmul::<F>(red::<F>(k), b) == 1);
}

/// The inverse of a product is the product of the inverses.
pub proof fn inverses_multiply<F: Residue>(a: int, b: int, c: int, d: int)
    requires
        fmul::<F>(a, b) == 1,
        fmul::<F>(c, d) == 1,
    ensures
        fmul::<F>(fmul::<F>(a, c), fmul::<F>(b, d)) == 1,
{
    fmul_assoc::<F>(a, c, fmul::<F>(b, d));
    fmul_comm::<F>(b, d);
    fmul_assoc::<F>(c, d, b);
    fmul_comm::<F>(a, fmul::<F>(1, b));
    fmul_assoc::<F>(1, b, a);
    fmul_comm::<F>(b, a);
    canon_consts::<F>();
    f_units::<F>(1);
}

/// `(a + b) - b == a` and `(a - b) + b == a`.
pub proof fn f_cancel<F: Residue>(a: int, b: int)
    requires
        canon::<F>(a),
    ensures
        fsub::<F>(fadd::<F>(a, b), b) == a,
        fadd::<F>(fsub::<F>(a, b), b) == a,
{
    red_id::<F>(a);
    ops_red::<F>(a, b);
    ops_red::<F>(fadd::<F>(a, b), b);
    ops_red::<F>(fsub::<F>(a, b), b);
    red_red::<F>(a + b);
    red_red::<F>(a - b);
    red_sub::<F>(a + b, b);
    red_add::<F>(a - b, b);
}

/// `(a + b) + (c + d) == (a + c) + (b + d)`, and the same with differences.
pub proof fn f_interchange<F: Residue>(a: int, b: int, c: int, d: int)
    ensures
        fadd::<F>(fadd::<F>(a, b), fadd::<F>(c, d)) == fadd::<F>(
            fadd::<F>(a, c),
            fadd::<F>(b, d),
        ),
        fsub::<F>(fadd::<F>(a, b), fadd::<F>(c, d)) == fadd::<F>(
            fsub::<F>(a, c),
            fsub::<F>(b, d),
        ),
        fadd::<F>(fadd::<F>(a, b), fsub::<F>(c, d)) == fsub::<F>(
            fadd::<F>(fadd::<F>(a, b), c),
            d,
        ),
        fadd::<F>(fsub::<F>(a, b), fadd::<F>(c, d)) == fsub::<F>(
            fadd::<F>(a, fadd::<F>(c, d)),
            b,
        ),
        fadd::<F>(fadd::<F>(a, b), fsub::<F>(a, b)) == fadd::<F>(a, a),
        fsub::<F>(fadd::<F>(a, b), fsub::<F>(a, b)) == fadd::<F>(b, b),
        fsub::<F>(fsub::<F>(a, b), fsub::<F>(c, d)) == fsub::<F>(
            fsub::<F>(a, c),
            fsub::<F>(b, d),
        ),
{
    red_all::<F>(a, b);
    red_all::<F>(c, d);
    red_all::<F>(a, c);
    red_all::<F>(b, d);
    red_op::<F>(a + b, c + d);
    red_op::<F>(a + c, b + d);
    red_op::<F>(a - c, b - d);
    red_op::<F>(a + b, c - d);
    red_op::<F>(a + b, c);
    red_op::<F>(a + b + c, d);
    red_op::<F>(a - b, c + d);
    red_op::<F>(a, c + d);
    red_op::<F>(a + (c + d), b);
    red_op::<F>(a + b, a - b);
    red_op::<F>(a - b, c - d);
    red_all::<F>(a, a);
    red_all::<F>(b, b);
    ops_red::<F>(fadd::<F>(a, b), c);
    ops_red::<F>(fadd::<F>(fadd::<F>(a, b), c), d);
    ops_red::<F>(a, fadd::<F>(c, d));
    ops_red::<F>(fadd::<F>(a, fadd::<F>(c, d)), b);
    red_red::<F>(a + b);
    red_red::<F>(c + d);
    red_red::<F>(a + b + c);
    red_red::<F>(a + (c + d));
}

proof fn red_all<F: Residue>(a: int, b: int)
    ensures
        fadd::<F>(a, b) == red::<F>(a + b),
        fsub::<F>(a, b) == red::<F>(a - b),
        fmul::<F>(a, b) == red::<F>(a * b),
{
    ops_red::<F>(a, b);
}

proof fn red_op<F: Residue>(a: int, b: int)
    ensures
        fadd::<F>(red::<F>(a), red::<F>(b)) == red::<F>(a + b),
        fsub::<F>(red::<F>(a), red::<F>(b)) == red::<F>(a - b),
{
    red_add::<F>(a, b);
    red_sub::<F>(a, b);
}

/// Linear interpolation between two values in both of its usual forms.
pub proof fn f_interpolate<F: Residue>(a: int, b: int, r: int)
    ensures
        fadd::<F>(a, fmul::<F>(r, fsub::<F>(b, a))) == fadd::<F>(
            fmul::<F>(fsub::<F>(1, r), a),
            fmul::<F>(r, b),
        ),
{
    let d = b - a;
    ops_red::<F>(b, a);
    ops_red::<F>(r, fsub::<F>(b, a));
    red_red::<F>(d);
    red_mul::<F>(r, d);
    ops_red::<F>(a, fmul::<F>(r, fsub::<F>(b, a)));
    red_red::<F>(r * d);
    red_add::<F>(a, r * d);
    ops_red::<F>(1, r);
    ops_red::<F>(fsub::<F>(1, r), a);
    red_red::<F>(1 - r);
    red_mul::<F>(1 - r, a);
    ops_red::<F>(r, b);
    red_add::<F>((1 - r) * a, r * b);
    assert(a + r * (b - a) == (1 - r) * a + r * b) by (nonlinear_arith);
}

/// How many bytes a machine word has.
pub open spec fn word_bytes() -> nat {
    (usize::BITS / 8) as nat
}

/// The number of bytes of a machine word.
pub fn word_len() -> (r: usize)
    ensures
        r == word_bytes(),
        r <= 8,
{
    (usize::BITS / 8) as usize
}

/// The index below `cap` that a challenge selects: its low bytes, at most
/// `width` of them, modulo `cap`.
pub open spec fn index_of<F: Residue>(v: int, width: nat, cap: int) -> int {
    (v % pow(256, if width <= F::repr_len() { width } else { F::repr_len() })) % cap
}

/// An index is read off the low bytes alone: it is the value modulo `256^width`,
/// modulo `cap`.
pub proof fn index_of_low<F: Residue>(v: int, width: nat, cap: int)
    requires
        canon::<F>(v),
    ensures
        index_of::<F>(v, width, cap) == (v % pow(256, width)) % cap,
{
    F::lemma_repr();
    let n = F::repr_len();
    if width > n {
        lemma_pow_increases(256, n, width);
        lemma_small_mod(v as nat, pow(256, n) as nat);
        lemma_small_mod(v as nat, pow(256, width) as nat);
    }
}

/// The bytes of a machine word reach up to its largest value.
pub proof fn word_pow()
    ensures
        pow(256, word_bytes()) == usize::MAX + 1,
{
    vstd::layout::unsigned_int_max_values();
    broadcast use vstd::layout::layout_of_primitives;

}

/// Reads an index below `cap` off the low bytes of a challenge.
pub fn challenge_to_index<F: PrimeField>(challenge: F, width: usize, cap: usize) -> (r: usize)
    requires
        cap > 0,
        width <= 8,
    ensures
        r as int == index_of::<F>(challenge.val(), width as nat, cap as int),
        r as int == (challenge.val() % pow(256, width as nat)) % (cap as int),
        r < cap,
{
    proof {
        challenge.lemma_val();
        index_of_low::<F>(challenge.val(), width as nat, cap as int);
    }
    let bytes = challenge.to_repr();
    let take: usize = if width <= bytes.len() {
        width
    } else {
        bytes.len()
    };
    let mut acc: u64 = 0;
    let mut i: usize = take;
    proof {
        challenge.lemma_val();
        le_bytes_len(challenge.val(), F::repr_len());
        assert(bytes@.subrange(i as int, take as int) =~= Seq::empty());
        lemma_pow_adds(256, 4, 4);
        reveal_with_fuel(pow, 5);
        assert(pow(256, 4) == 4294967296);
        assert(pow(256, 8) == 18446744073709551616);
    }
    while i > 0
        invariant
            i <= take <= bytes@.len(),
            take <= 8,
            acc as int == le_value(bytes@.subrange(i as int, take as int)),
            pow(256, 8) == 18446744073709551616,
        decreases i,
    {
        i = i - 1;
        proof {
            let s = bytes@.subrange(i as int, take as int);
            assert(s.drop_first() =~= bytes@.subrange(i as int + 1, take as int));
            le_value_bound(s);
            lemma_pow_increases(256, s.len(), 8);
        }
        acc = acc * 256 + bytes[i] as u64;
    }
    proof {
        assert(bytes@.subrange(0, take as int) =~= bytes@.take(take as int));
        le_bytes_take(challenge.val(), F::repr_len(), take as nat);
        le_value_of_bytes(challenge.val(), take as nat);
        lemma_mod_bound(acc as int, cap as int);
    }
    (acc % (cap as u64)) as usize
}

} // verus!
