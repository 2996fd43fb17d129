//! The prime field with seventeen elements.

use crate::field::{fadd, fmul, fsub, inverts, red, u64_to_le_bytes, MAX_SMALL, PrimeField, Residue};
use vstd::arithmetic::div_mod::lemma_small_mod;
use vstd::arithmetic::power::pow;
use vstd::prelude::*;

verus! {

const MODULUS: u64 = 17;

/// An element of the field with seventeen elements. The Montgomery radix
/// `2^64` is one modulo seventeen, so the stored integer is the canonical one.
#[derive(Clone, Copy, Debug)]
pub struct PlayField([u64; 1]);

impl PlayField {
    #[verifier::type_invariant]
    spec fn reduced(self) -> bool {
        self.0[0] < MODULUS
    }
}

/// The inverses of one to sixteen.
fn inverse_of(k: u64) -> (r: u64)
    requires
        0 < k <= MAX_SMALL,
    ensures
        r < MODULUS,
        (k as int * r as int) % (MODULUS as int) == 1,
{
    match k {
        1 => 1,
        2 => 9,
        3 => 6,
        4 => 13,
        5 => 7,
        6 => 3,
        7 => 5,
        8 => 15,
        9 => 2,
        10 => 12,
        11 => 14,
        12 => 10,
        13 => 4,
        14 => 11,
        15 => 8,
        _ => 16,
    }
}

impl Residue for PlayField {
    open spec fn modulus() -> int {
        17
    }

    closed spec fn val(self) -> int {
        self.0[0] as int % (MODULUS as int)
    }

    open spec fn repr_len() -> nat {
        8
    }

    proof fn lemma_modulus() {
    }

    proof fn lemma_val(self) {
    }

    proof fn lemma_repr() {
        reveal_with_fuel(pow, 9);
    }

    proof fn lemma_small(k: int) {
        let m = Self::modulus();
        assert(inverts(1, 1, m));
        assert(inverts(2, 9, m));
        assert(inverts(3, 6, m));
        assert(inverts(4, 13, m));
        assert(inverts(5, 7, m));
        assert(inverts(6, 3, m));
        assert(inverts(7, 5, m));
        assert(inverts(8, 15, m));
        assert(inverts(9, 2, m));
        assert(inverts(10, 12, m));
        assert(inverts(11, 14, m));
        assert(inverts(12, 10, m));
        assert(inverts(13, 4, m));
        assert(inverts(14, 11, m));
        assert(inverts(15, 8, m));
        assert(inverts(16, 16, m));
    }
}

impl PrimeField for PlayField {
    fn zero() -> Self {
        PlayField([0])
    }

    fn one() -> Self {
        PlayField([1])
    }

    fn from_u64(v: u64) -> Self {
        PlayField([v % MODULUS])
    }

    fn plus(self, other: Self) -> Self {
        proof {
            use_type_invariant(&self);
            use_type_invariant(&other);
            reveal(fadd);
        }
        PlayField([(self.0[0] + other.0[0]) % MODULUS])
    }

    fn minus(self, other: Self) -> Self {
        proof {
            use_type_invariant(&self);
            use_type_invariant(&other);
            reveal(fsub);
        }
        PlayField([(self.0[0] + (MODULUS - other.0[0])) % MODULUS])
    }

    fn times(self, other: Self) -> Self {
        proof {
            use_type_invariant(&self);
            use_type_invariant(&other);
            reveal(fmul);
            let (a, b) = (self.0[0] as int, other.0[0] as int);
            assert(0 <= a * b < 17 * 17) by (nonlinear_arith)
                requires
                    0 <= a < 17,
                    0 <= b < 17,
            ;
        }
        PlayField([(self.0[0] * other.0[0]) % MODULUS])
    }

    fn small_inverse(k: u64) -> Self {
        let inv: u64 = inverse_of(k);
        proof {
            reveal(red);
            reveal(fmul);
            lemma_small_mod(k as nat, Self::modulus() as nat);
            lemma_small_mod(inv as nat, Self::modulus() as nat);
        }
        Self::from_u64(inv)
    }

    fn equals(self, other: Self) -> bool {
        proof {
            use_type_invariant(&self);
            use_type_invariant(&other);
        }
        self.0[0] == other.0[0]
    }

    fn to_repr(self) -> (r: Vec<u8>) {
        proof {
            use_type_invariant(&self);
        }
        u64_to_le_bytes(self.0[0])
    }
}

} // verus!
