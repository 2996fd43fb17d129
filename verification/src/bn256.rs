//! The scalar field of the BN256 curve.

use crate::field::{
    fadd, fmul, fsub, inverts, inverts_product, le_bytes, le_bytes_of_value, le_value,
    le_value_of_bytes, red, u64_to_le_bytes, PrimeField, Residue,
};
use vstd::arithmetic::div_mod::lemma_small_mod;
use vstd::arithmetic::power::{lemma_pow_adds, pow};
use vstd::prelude::*;

verus! {

/// The order of the scalar field.
pub open spec fn order() -> int {
    21888242871839275222246405745257275088548364400416034343698204186575808495617int
}

/// An element of the scalar field, held as its canonical little-endian bytes.
#[derive(Clone, Copy, Debug)]
pub struct Fr {
    bytes: [u8; 32],
}

/// Calls `Fr::from_bytes` of `halo2curves::bn256` and claims that it accepts
/// exactly the little-endian encodings of integers below the order.
#[verifier::external_body]
fn fr_is_canonical(a: &[u8; 32]) -> (r: bool)
    ensures
        r == (le_value(a@) < order()),
{
    bool::from(halo2curves::bn256::Fr::from_bytes(a).is_some())
}

/// Calls the `+` operator of `halo2curves::bn256::Fr` and claims that it adds
/// modulo the order.
#[verifier::external_body]
fn fr_add(a: &[u8; 32], b: &[u8; 32]) -> (r: [u8; 32])
    requires
        le_value(a@) < order(),
        le_value(b@) < order(),
    ensures
        le_value(r@) == (le_value(a@) + le_value(b@)) % order(),
{
    let x = halo2curves::bn256::Fr::from_bytes(a).unwrap();
    let y = halo2curves::bn256::Fr::from_bytes(b).unwrap();
    (x + y).to_bytes()
}

/// Calls the `-` operator of `halo2curves::bn256::Fr` and claims that it
/// subtracts modulo the order.
#[verifier::external_body]
fn fr_sub(a: &[u8; 32], b: &[u8; 32]) -> (r: [u8; 32])
    requires
        le_value(a@) < order(),
        le_value(b@) < order(),
    ensures
        le_value(r@) == (le_value(a@) - le_value(b@)) % order(),
{
    let x = halo2curves::bn256::Fr::from_bytes(a).unwrap();
    let y = halo2curves::bn256::Fr::from_bytes(b).unwrap();
    (x - y).to_bytes()
}

/// Calls the `*` operator of `halo2curves::bn256::Fr` and claims that it
/// multiplies modulo the order.
#[verifier::external_body]
fn fr_mul(a: &[u8; 32], b: &[u8; 32]) -> (r: [u8; 32])
    requires
        le_value(a@) < order(),
        le_value(b@) < order(),
    ensures
        le_value(r@) == (le_value(a@) * le_value(b@)) % order(),
{
    let x = halo2curves::bn256::Fr::from_bytes(a).unwrap();
    let y = halo2curves::bn256::Fr::from_bytes(b).unwrap();
    (x * y).to_bytes()
}

/// Calls `invert` of `ff::Field` on `halo2curves::bn256::Fr` and claims that it
/// finds the inverse modulo the order of every element but zero.
#[verifier::external_body]
fn fr_invert(a: &[u8; 32]) -> (r: Option<[u8; 32]>)
    requires
        le_value(a@) < order(),
    ensures
        r is Some <==> le_value(a@) != 0,
        r matches Some(b) ==> le_value(b@) < order() && (le_value(a@) * le_value(b@)) % order()
            == 1,
{
    let x = halo2curves::bn256::Fr::from_bytes(a).unwrap();
    let y: Option<halo2curves::bn256::Fr> = ff::Field::invert(&x).into();
    y.map(|inverse| inverse.to_bytes())
}

/// Zero bytes at the end do not change a little-endian value.
proof fn le_value_zero_tail(b: Seq<u8>, n: nat)
    requires
        n <= b.len(),
        forall|i: int| n <= i < b.len() ==> b[i] == 0,
    ensures
        le_value(b) == le_value(b.take(n as int)),
    decreases b.len(),
{
    if b.len() > 0 {
        let rest = b.drop_first();
        if n > 0 {
            le_value_zero_tail(rest, (n - 1) as nat);
            assert(b.take(n as int).drop_first() =~= rest.take(n as int - 1));
        } else {
            le_value_zero_tail(rest, 0);
            assert(rest.take(0) =~= b.take(0));
        }
    } else {
        assert(b.take(n as int) =~= b);
    }
}

impl Fr {
    #[verifier::type_invariant]
    spec fn reduced(self) -> bool {
        le_value(self.bytes@) < order()
    }

    /// The element with the given canonical encoding; `None` if the encoded
    /// integer is not below the order.
    pub fn from_bytes(bytes: &[u8; 32]) -> (r: Option<Fr>)
        ensures
            r is Some <==> le_value(bytes@) < order(),
            r matches Some(x) ==> x.val() == le_value(bytes@),
    {
        if fr_is_canonical(bytes) {
            proof {
                le_bytes_of_value(bytes@);
                lemma_small_mod(le_value(bytes@) as nat, order() as nat);
            }
            Some(Fr { bytes: *bytes })
        } else {
            None
        }
    }
}

impl Residue for Fr {
    open spec fn modulus() -> int {
        order()
    }

    closed spec fn val(self) -> int {
        le_value(self.bytes@) % order()
    }

    open spec fn repr_len() -> nat {
        32
    }

    proof fn lemma_modulus() {
    }

    proof fn lemma_val(self) {
    }

    proof fn lemma_repr() {
        reveal_with_fuel(pow, 9);
        lemma_pow_adds(256, 8, 8);
        lemma_pow_adds(256, 16, 16);
        assert(pow(256, 8) == 18446744073709551616);
        assert(pow(256, 16) == 340282366920938463463374607431768211456int);
        let x = pow(256, 16);
        assert(x * x
            == 115792089237316195423570985008687907853269984665640564039457584007913129639936int)
            by (nonlinear_arith)
            requires
                x == 340282366920938463463374607431768211456int,
        ;
    }

    proof fn lemma_small(k: int) {
        let m = order();
        let two = 10944121435919637611123202872628637544274182200208017171849102093287904247809int;
        let three = 14592161914559516814830937163504850059032242933610689562465469457717205663745int;
        let five = 8755297148735710088898562298102910035419345760166413737479281674630323398247int;
        let seven = 3126891838834182174606629392179610726935480628630862049099743455225115499374int;
        let eleven = 7959361044305190989907783907366281850381223418333103397708437886027566725679int;
        let thirteen = 20204531881697792512842836072545177004813874831153262471106034633762284765185int;
        assert(inverts(1, 1, m));
        assert(inverts(2, two, m));
        assert(inverts(3, three, m));
        assert(inverts(5, five, m));
        assert(inverts(7, seven, m));
        assert(inverts(11, eleven, m));
        assert(inverts(13, thirteen, m));
        inverts_product(2, two, 2, two, m);
        let four = (two * two) % m;
        assert(inverts(4, four, m));
        inverts_product(2, two, 3, three, m);
        let six = (two * three) % m;
        assert(inverts(6, six, m));
        inverts_product(2, two, 4, four, m);
        let eight = (two * four) % m;
        assert(inverts(8, eight, m));
        inverts_product(3, three, 3, three, m);
        let nine = (three * three) % m;
        assert(inverts(9, nine, m));
        inverts_product(2, two, 5, five, m);
        let ten = (two * five) % m;
        assert(inverts(10, ten, m));
        inverts_product(3, three, 4, four, m);
        let twelve = (three * four) % m;
        assert(inverts(12, twelve, m));
        inverts_product(2, two, 7, seven, m);
        let fourteen = (two * seven) % m;
        assert(inverts(14, fourteen, m));
        inverts_product(3, three, 5, five, m);
        let fifteen = (three * five) % m;
        assert(inverts(15, fifteen, m));
        inverts_product(4, four, 4, four, m);
        let sixteen = (four * four) % m;
        assert(inverts(16, sixteen, m));
    }
}

proof fn lemma_reduced(x: Fr)
    requires
        x.reduced(),
    ensures
        x.val() == le_value(x.bytes@),
        le_bytes(x.val(), 32) == x.bytes@,
{
    le_bytes_of_value(x.bytes@);
    lemma_small_mod(le_value(x.bytes@) as nat, order() as nat);
}

impl PrimeField for Fr {
    fn zero() -> Self {
        Self::from_u64(0)
    }

    fn one() -> Self {
        Self::from_u64(1)
    }

    fn from_u64(v: u64) -> Self {
        let low = u64_to_le_bytes(v);
        let mut bytes: [u8; 32] = [0u8; 32];
        let mut i: usize = 0;
        proof {
            le_value_of_bytes(v as int, 8);
        }
        while i < 8
            invariant
                i <= 8,
                low.len() == 8,
                forall|j: int| 0 <= j < i ==> bytes[j] == low[j],
                forall|j: int| i <= j < 32 ==> bytes[j] == 0,
            decreases 8 - i,
        {
            bytes[i] = low[i];
            i = i + 1;
        }
        proof {
            le_value_zero_tail(bytes@, 8);
            assert(bytes@.take(8) =~= low@);
            vstd::arithmetic::power::lemma_pow_adds(256, 4, 4);
            reveal_with_fuel(vstd::arithmetic::power::pow, 5);
            assert(vstd::arithmetic::power::pow(256, 4) == 4294967296);
            assert(vstd::arithmetic::power::pow(256, 8) == 18446744073709551616);
            lemma_small_mod(v as nat, 18446744073709551616);
            lemma_small_mod(v as nat, order() as nat);
        }
        Fr { bytes }
    }

    fn plus(self, other: Self) -> Self {
        proof {
            use_type_invariant(&self);
            use_type_invariant(&other);
            lemma_reduced(self);
            lemma_reduced(other);
            reveal(fadd);
        }
        let bytes = fr_add(&self.bytes, &other.bytes);
        let r = Fr { bytes };
        proof {
            lemma_reduced(r);
        }
        r
    }

    fn minus(self, other: Self) -> Self {
        proof {
            use_type_invariant(&self);
            use_type_invariant(&other);
            lemma_reduced(self);
            lemma_reduced(other);
            reveal(fsub);
        }
        let bytes = fr_sub(&self.bytes, &other.bytes);
        let r = Fr { bytes };
        proof {
            lemma_reduced(r);
        }
        r
    }

    fn times(self, other: Self) -> Self {
        proof {
            use_type_invariant(&self);
            use_type_invariant(&other);
            lemma_reduced(self);
            lemma_reduced(other);
            reveal(fmul);
        }
        let bytes = fr_mul(&self.bytes, &other.bytes);
        let r = Fr { bytes };
        proof {
            lemma_reduced(r);
        }
        r
    }

    fn small_inverse(k: u64) -> Self {
        let small = Self::from_u64(k);
        proof {
            use_type_invariant(&small);
            lemma_reduced(small);
            reveal(red);
            reveal(fmul);
            lemma_small_mod(k as nat, order() as nat);
        }
        match fr_invert(&small.bytes) {
            Some(bytes) => {
                let r = Fr { bytes };
                proof {
                    lemma_reduced(r);
                }
                r
            },
            None => small,
        }
    }

    fn equals(self, other: Self) -> bool {
        proof {
            use_type_invariant(&self);
            use_type_invariant(&other);
            lemma_reduced(self);
            lemma_reduced(other);
        }
        let mut i: usize = 0;
        while i < 32
            invariant
                i <= 32,
                forall|j: int| 0 <= j < i ==> self.bytes[j] == other.bytes[j],
                le_bytes(self.val(), 32) == self.bytes@,
                le_bytes(other.val(), 32) == other.bytes@,
            decreases 32 - i,
        {
            if self.bytes[i] != other.bytes[i] {
                return false;
            }
            i = i + 1;
        }
        assert(self.bytes@ =~= other.bytes@);
        true
    }

    fn to_repr(self) -> (r: Vec<u8>) {
        proof {
            use_type_invariant(&self);
            lemma_reduced(self);
        }
        let mut out: Vec<u8> = Vec::new();
        let mut i: usize = 0;
        while i < 32
            invariant
                i <= 32,
                out@ == self.bytes@.take(i as int),
            decreases 32 - i,
        {
            out.push(self.bytes[i]);
            assert(self.bytes@.take(i as int + 1) =~= self.bytes@.take(i as int).push(self.bytes[i as int]));
            i = i + 1;
        }
        assert(self.bytes@.take(32) =~= self.bytes@);
        out
    }
}

} // verus!
