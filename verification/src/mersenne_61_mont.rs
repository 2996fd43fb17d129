//! The prime field of order `2^61 - 1`, kept in Montgomery form.

use crate::field::{fadd, fmul, fsub, inverts, red, u64_to_le_bytes, MAX_SMALL, PrimeField, Residue};
use vstd::arithmetic::div_mod::{
    lemma_add_mod_noop, lemma_mod_bound, lemma_mul_mod_noop, lemma_mul_mod_noop_left,
    lemma_small_mod, lemma_sub_mod_noop,
};
use vstd::arithmetic::power::pow;
use vstd::prelude::*;

verus! {

/// `2^61 - 1`.
const MODULUS: u64 = 2305843009213693951;

/// The Montgomery radix `2^64` reduced modulo `2^61 - 1`.
const RADIX: u64 = 8;

/// The inverse of the radix modulo `2^61 - 1`.
const RADIX_INV: u64 = 288230376151711744;

/// An element of the field with `2^61 - 1` elements.
#[derive(Clone, Copy, Debug)]
pub struct Mersenne61Mont([u64; 1]);

impl Mersenne61Mont {
    #[verifier::type_invariant]
    spec fn reduced(self) -> bool {
        self.0[0] < MODULUS
    }

    spec fn raw(self) -> int {
        self.0[0] as int
    }
}

/// Multiplying by the radix and by its inverse cancels.
proof fn lemma_radix(v: int)
    ensures
        (v * (RADIX as int) % (MODULUS as int)) * (RADIX_INV as int) % (MODULUS as int) == v % (
        MODULUS as int),
        (v * (RADIX_INV as int) % (MODULUS as int)) * (RADIX as int) % (MODULUS as int) == v % (
        MODULUS as int),
{
    let m = MODULUS as int;
    let r = RADIX as int;
    let s = RADIX_INV as int;
    lemma_mul_mod_noop_left(v * r, s, m);
    lemma_mul_mod_noop_left(v * s, r, m);
    assert(v * r * s == v * (r * s) && v * s * r == v * (r * s)) by (nonlinear_arith);
    assert(r * s == m + 1);
    assert((r * s) % m == 1);
    lemma_mul_mod_noop(v, r * s, m);
    assert((v % m) * 1 == v % m);
    lemma_mod_bound(v, m);
    lemma_small_mod((v % m) as nat, m as nat);
}

/// `a * b` reduced modulo `2^61 - 1`.
fn mul_mod(a: u64, b: u64) -> (r: u64)
    ensures
        r as int == (a as int * b as int) % (MODULUS as int),
        r < MODULUS,
{
    assert(a as int * b as int <= 0xffff_ffff_ffff_ffff * 0xffff_ffff_ffff_ffff) by (nonlinear_arith)
        requires
            0 <= a <= 0xffff_ffff_ffff_ffff,
            0 <= b <= 0xffff_ffff_ffff_ffff,
    ;
    ((a as u128 * b as u128) % (MODULUS as u128)) as u64
}

/// The inverses of one to sixteen.
fn inverse_of(k: u64) -> (r: u64)
    requires
        0 < k <= MAX_SMALL,
    ensures
        r < MODULUS,
        (k as int * r as int) % (MODULUS as int) == 1,
{
    match k {
        1 => 1,
        2 => 1152921504606846976,
        3 => 1537228672809129301,
        4 => 576460752303423488,
        5 => 1844674407370955161,
        6 => 1921535841011411626,
        7 => 1976436865040309101,
        8 => 288230376151711744,
        9 => 2049638230412172401,
        10 => 2075258708292324556,
        11 => 2096220917466994501,
        12 => 960767920505705813,
        13 => 2128470470043409801,
        14 => 2141139937127001526,
        15 => 2152120141932781021,
        _ => 144115188075855872,
    }
}

impl Residue for Mersenne61Mont {
    open spec fn modulus() -> int {
        2305843009213693951
    }

    closed spec fn val(self) -> int {
        (self.raw() * (RADIX_INV as int)) % (MODULUS as int)
    }

    open spec fn repr_len() -> nat {
        8
    }

    proof fn lemma_modulus() {
    }

    proof fn lemma_val(self) {
    }

    proof fn lemma_repr() {
        reveal_with_fuel(pow, 9);
    }

    proof fn lemma_small(k: int) {
        let m = Self::modulus();
        assert(inverts(1, 1, m));
        assert(inverts(2, 1152921504606846976, m));
        assert(inverts(3, 1537228672809129301, m));
        assert(inverts(4, 576460752303423488, m));
        assert(inverts(5, 1844674407370955161, m));
        assert(inverts(6, 1921535841011411626, m));
        assert(inverts(7, 1976436865040309101, m));
        assert(inverts(8, 288230376151711744, m));
        assert(inverts(9, 2049638230412172401, m));
        assert(inverts(10, 2075258708292324556, m));
        assert(inverts(11, 2096220917466994501, m));
        assert(inverts(12, 960767920505705813, m));
        assert(inverts(13, 2128470470043409801, m));
        assert(inverts(14, 2141139937127001526, m));
        assert(inverts(15, 2152120141932781021, m));
        assert(inverts(16, 144115188075855872, m));
    }
}

impl PrimeField for Mersenne61Mont {
    fn zero() -> Self {
        Mersenne61Mont([0])
    }

    fn one() -> Self {
        Mersenne61Mont([RADIX])
    }

    fn from_u64(v: u64) -> Self {
        proof {
            lemma_radix(v as int);
        }
        Mersenne61Mont([mul_mod(v, RADIX)])
    }

    fn plus(self, other: Self) -> Self {
        proof {
            use_type_invariant(&self);
            use_type_invariant(&other);
            reveal(fadd);
            let m = MODULUS as int;
            let s = RADIX_INV as int;
            let (a, b) = (self.raw(), other.raw());
            lemma_mul_mod_noop_left(a + b, s, m);
            assert((a + b) * s == a * s + b * s) by (nonlinear_arith);
            lemma_add_mod_noop(a * s, b * s, m);
        }
        let sum: u64 = self.0[0] + other.0[0];
        Mersenne61Mont([sum % MODULUS])
    }

    fn minus(self, other: Self) -> Self {
        proof {
            use_type_invariant(&self);
            use_type_invariant(&other);
            reveal(fsub);
            let m = MODULUS as int;
            let s = RADIX_INV as int;
            let (a, b) = (self.raw(), other.raw());
            let t = a + m - b;
            lemma_mul_mod_noop_left(t, s, m);
            assert((a - b) % m == t % m) by {
                vstd::arithmetic::div_mod::lemma_mod_add_multiples_vanish(a - b, m);
                assert(m + (a - b) == t);
            }
            lemma_mul_mod_noop_left(a - b, s, m);
            assert((a - b) * s == a * s - b * s) by (nonlinear_arith);
            lemma_sub_mod_noop(a * s, b * s, m);
        }
        let diff: u64 = self.0[0] + (MODULUS - other.0[0]);
        Mersenne61Mont([diff % MODULUS])
    }

    fn times(self, other: Self) -> Self {
        proof {
            reveal(fmul);
            let m = MODULUS as int;
            let s = RADIX_INV as int;
            let (a, b) = (self.raw(), other.raw());
            let ab = (a * b) % m;
            lemma_mul_mod_noop_left(a * b, s, m);
            lemma_mul_mod_noop_left((a * b) * s, s, m);
            assert((a * b) * s * s == (a * s) * (b * s)) by (nonlinear_arith);
            lemma_mul_mod_noop(a * s, b * s, m);
        }
        Mersenne61Mont([mul_mod(mul_mod(self.0[0], other.0[0]), RADIX_INV)])
    }

    fn small_inverse(k: u64) -> Self {
        let inv: u64 = inverse_of(k);
        proof {
            reveal(red);
            reveal(fmul);
            lemma_small_mod(k as nat, Self::modulus() as nat);
            lemma_small_mod(inv as nat, Self::modulus() as nat);
        }
        Self::from_u64(inv)
    }

    fn equals(self, other: Self) -> bool {
        proof {
            use_type_invariant(&self);
            use_type_invariant(&other);
            lemma_radix(self.raw());
            lemma_radix(other.raw());
            lemma_small_mod(self.raw() as nat, MODULUS as nat);
            lemma_small_mod(other.raw() as nat, MODULUS as nat);
        }
        self.0[0] == other.0[0]
    }

    fn to_repr(self) -> (r: Vec<u8>) {
        let canonical: u64 = mul_mod(self.0[0], RADIX_INV);
        u64_to_le_bytes(canonical)
    }
}

} // verus!
