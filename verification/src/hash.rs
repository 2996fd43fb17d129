//! Hash functions with digests of a fixed size.

use vstd::prelude::*;

verus! {

/// A hash function from byte strings to digests.
pub trait HashFunction: Sized {
    /// A digest.
    type Output: Copy;

    /// The digest of a byte string.
    spec fn hashed(data: Seq<u8>) -> Self::Output;

    /// The bytes of a digest.
    spec fn digest_bytes(digest: Self::Output) -> Seq<u8>;

    /// How many bytes a digest has.
    spec fn digest_len() -> nat;

    /// Digests have one length and are known from their bytes.
    proof fn lemma_digest(a: Self::Output, b: Self::Output)
        ensures
            Self::digest_bytes(a).len() == Self::digest_len(),
            Self::digest_bytes(b).len() == Self::digest_len(),
            Self::digest_bytes(a) == Self::digest_bytes(b) ==> a == b,
    ;

    fn digest(data: &[u8]) -> (r: Self::Output)
        ensures
            r == Self::hashed(data@),
    ;

    fn output_bytes(digest: &Self::Output) -> (r: Vec<u8>)
        ensures
            r@ == Self::digest_bytes(*digest),
    ;

    fn same(a: &Self::Output, b: &Self::Output) -> (r: bool)
        ensures
            r == (*a == *b),
    ;
}

/// The digest type of a hash function.
pub type Output<H> = <H as HashFunction>::Output;

/// The BLAKE2s digest of a byte string.
pub uninterp spec fn blake2s256(data: Seq<u8>) -> Seq<u8>;

/// Calls `Digest::digest` of `blake2::Blake2s256` on the data and claims that
/// its thirty-two bytes are a function of the data alone.
#[verifier::external_body]
fn blake2s_digest(data: &[u8]) -> (r: [u8; 32])
    ensures
        r@ == blake2s256(data@),
{
    <blake2::Blake2s256 as blake2::Digest>::digest(data).into()
}

/// BLAKE2s with digests of thirty-two bytes.
#[derive(Clone, Copy, Debug)]
pub struct Blake2s;

impl HashFunction for Blake2s {
    type Output = [u8; 32];

    open spec fn hashed(data: Seq<u8>) -> [u8; 32] {
        choose|d: [u8; 32]| d@ == blake2s256(data)
    }

    open spec fn digest_bytes(digest: [u8; 32]) -> Seq<u8> {
        digest@
    }

    open spec fn digest_len() -> nat {
        32
    }

    proof fn lemma_digest(a: [u8; 32], b: [u8; 32]) {
        if a@ == b@ {
            assert(a =~= b);
        }
    }

    fn digest(data: &[u8]) -> (r: [u8; 32])
        ensures
            r@ == blake2s256(data@),
    {
        let r = blake2s_digest(data);
        assert(r =~= Self::hashed(data@));
        r
    }

    fn output_bytes(digest: &[u8; 32]) -> (r: Vec<u8>)
        ensures
            r@ == digest@,
    {
        let mut out: Vec<u8> = Vec::new();
        let mut i: usize = 0;
        while i < 32
            invariant
                i <= 32,
                out@ == digest@.take(i as int),
            decreases 32 - i,
        {
            out.push(digest[i]);
            assert(digest@.take(i as int + 1) =~= digest@.take(i as int).push(digest@[i as int]));
            i = i + 1;
        }
        assert(digest@.take(32) =~= digest@);
        out
    }

    fn same(a: &[u8; 32], b: &[u8; 32]) -> (r: bool) {
        let mut i: usize = 0;
        while i < 32
            invariant
                i <= 32,
                forall|j: int| 0 <= j < i ==> a@[j] == b@[j],
            decreases 32 - i,
        {
            if a[i] != b[i] {
                return false;
            }
            i = i + 1;
        }
        assert(*a =~= *b);
        true
    }
}

/// The digest of all of a byte string is what BLAKE2s makes of all of it.
pub proof fn digest_is_of_all_bytes(data: Seq<u8>, d: [u8; 32])
    requires
        d@ == blake2s256(data),
    ensures
        Blake2s::hashed(data) == d,
{
    assert(Blake2s::hashed(data) =~= d);
}

/// Two byte strings with one digest.
pub open spec fn collides<H: HashFunction>(x: Seq<u8>, y: Seq<u8>) -> bool {
    x != y && H::hashed(x) == H::hashed(y)
}

/// Some two byte strings have one digest.
pub open spec fn collision<H: HashFunction>() -> bool {
    exists|x: Seq<u8>, y: Seq<u8>| #[trigger] collides::<H>(x, y)
}

} // verus!
