//! Challenges depend on every message before them.

use crate::binding::digest_binds;
use crate::field::{
    canon, le_bytes, le_bytes_determine, le_bytes_len, le_value, red_canon, PrimeField,
};
use crate::hash::{collision, HashFunction};
use crate::linear::vcanon;
use crate::transcript::{
    alike, challenge_after, digests_in, drawn, fields_in, same_kind, sent_fields, state_after,
    Event,
};
use vstd::arithmetic::div_mod::{lemma_mod_bound, lemma_sub_mod_noop};
use vstd::prelude::*;

verus! {

/// The field elements and the challenges among the steps are canonical.
pub open spec fn canonical_steps<F: PrimeField, O>(log: Seq<Event<O>>) -> bool {
    forall|i: int| 0 <= i < log.len() ==> canonical_step::<F, O>(#[trigger] log[i])
}

/// The field element or challenge of a step is canonical.
pub open spec fn canonical_step<F: PrimeField, O>(e: Event<O>) -> bool {
    match e {
        Event::Field(v) => canon::<F>(v),
        Event::Challenge(c) => canon::<F>(c),
        _ => true,
    }
}

/// What was appended to canonical steps is canonical.
pub proof fn canonical_parts<F: PrimeField, O>(a: Seq<Event<O>>, b: Seq<Event<O>>)
    ensures
        canonical_steps::<F, O>(a + b) <==> canonical_steps::<F, O>(a) && canonical_steps::<F, O>(
            b,
        ),
{
    if canonical_steps::<F, O>(a + b) {
        assert forall|i: int| 0 <= i < a.len() implies canonical_step::<F, O>(#[trigger] a[i]) by {
            assert((a + b)[i] == a[i]);
        }
        assert forall|i: int| 0 <= i < b.len() implies canonical_step::<F, O>(#[trigger] b[i]) by {
            assert((a + b)[a.len() + i] == b[i]);
        }
    }
}

/// Canonical steps that send a vector send canonical entries.
pub proof fn canonical_sent<F: PrimeField, O>(v: Seq<int>)
    ensures
        canonical_steps::<F, O>(sent_fields(v)) <==> vcanon::<F>(v),
{
    let log = sent_fields::<O>(v);
    if canonical_steps::<F, O>(log) {
        assert forall|i: int| 0 <= i < v.len() implies canon::<F>(#[trigger] v[i]) by {
            assert(canonical_step::<F, O>(log[i]));
        }
    }
}

/// Canonical steps that draw challenges draw canonical ones.
pub proof fn canonical_drawn<F: PrimeField, O>(v: Seq<int>)
    ensures
        canonical_steps::<F, O>(drawn(v)) <==> vcanon::<F>(v),
{
    let log = drawn::<O>(v);
    if canonical_steps::<F, O>(log) {
        assert forall|i: int| 0 <= i < v.len() implies canon::<F>(#[trigger] v[i]) by {
            assert(canonical_step::<F, O>(log[i]));
        }
    }
}

/// Steps of the same kinds leave states of the same length.
proof fn alike_states<F: PrimeField, H: HashFunction>(
    a: Seq<Event<H::Output>>,
    b: Seq<Event<H::Output>>,
)
    requires
        alike(a, b),
    ensures
        state_after::<F, H>(a).len() == state_after::<F, H>(b).len(),
    decreases a.len(),
{
    if a.len() > 0 {
        let k = a.len() - 1;
        let (x, y) = (a.drop_last(), b.drop_last());
        assert forall|i: int| 0 <= i < x.len() implies same_kind(#[trigger] x[i], y[i]) by {
            assert(same_kind(a[i], b[i]));
        }
        alike_states::<F, H>(x, y);
        assert(same_kind(a[k], b[k]));
        match (a.last(), b.last()) {
            (Event::Field(v), Event::Field(w)) => {
                le_bytes_len(v, F::repr_len());
                le_bytes_len(w, F::repr_len());
            },
            (Event::Commitment(d), Event::Commitment(e)) => {
                H::lemma_digest(d, e);
            },
            (Event::Challenge(_), Event::Challenge(_)) => {
                H::lemma_digest(
                    H::hashed(state_after::<F, H>(x)),
                    H::hashed(state_after::<F, H>(y)),
                );
            },
            _ => {},
        }
    }
}

/// The bytes that a challenge is the digest of bind every message before it: steps
/// of the same kinds that lead to the same state sent the same messages, or the
/// hash function has a collision.
pub proof fn state_binds_messages<F: PrimeField, H: HashFunction>(
    a: Seq<Event<H::Output>>,
    b: Seq<Event<H::Output>>,
)
    requires
        alike(a, b),
        canonical_steps::<F, H::Output>(a),
        canonical_steps::<F, H::Output>(b),
        state_after::<F, H>(a) == state_after::<F, H>(b),
    ensures
        (fields_in(a) == fields_in(b) && digests_in(a) == digests_in(b)) || collision::<H>(),
    decreases a.len(),
{
    if a.len() > 0 {
        let k = a.len() - 1;
        let (x, y) = (a.drop_last(), b.drop_last());
        assert forall|i: int| 0 <= i < x.len() implies same_kind(#[trigger] x[i], y[i]) by {
            assert(same_kind(a[i], b[i]));
        }
        assert forall|i: int| 0 <= i < x.len() implies canonical_step::<F, H::Output>(
            #[trigger] x[i],
        ) by {
            assert(x[i] == a[i]);
        }
        assert forall|i: int| 0 <= i < y.len() implies canonical_step::<F, H::Output>(
            #[trigger] y[i],
        ) by {
            assert(y[i] == b[i]);
        }
        assert(same_kind(a[k], b[k]));
        alike_states::<F, H>(x, y);
        let (s, t) = (state_after::<F, H>(x), state_after::<F, H>(y));
        let (u, v) = (state_after::<F, H>(a), state_after::<F, H>(b));
        let n = s.len() as int;
        match (a.last(), b.last()) {
            (Event::Field(p), Event::Field(q)) => {
                let m = F::repr_len();
                le_bytes_len(p, m);
                le_bytes_len(q, m);
                assert(s =~= u.take(n) && t =~= v.take(n));
                assert(le_bytes(p, m) =~= u.skip(n) && le_bytes(q, m) =~= v.skip(n));
                F::lemma_repr();
                assert(canonical_step::<F, H::Output>(a[k]) && canonical_step::<F, H::Output>(b[k]));
                le_bytes_determine(p, q, m);
                state_binds_messages::<F, H>(x, y);
            },
            (Event::Commitment(p), Event::Commitment(q)) => {
                H::lemma_digest(p, q);
                assert(s =~= u.take(n) && t =~= v.take(n));
                assert(H::digest_bytes(p) =~= u.skip(n) && H::digest_bytes(q) =~= v.skip(n));
                state_binds_messages::<F, H>(x, y);
            },
            (Event::Challenge(_), Event::Challenge(_)) => {
                H::lemma_digest(H::hashed(s), H::hashed(t));
                digest_binds::<H>(s, t);
                if s == t {
                    state_binds_messages::<F, H>(x, y);
                }
            },
            _ => {
                state_binds_messages::<F, H>(x, y);
            },
        }
    }
}

/// A challenge is the digest of the state as a little-endian integer, reduced, and
/// the digest is the state that the next messages are added to.
pub proof fn challenge_is_the_digest<F: PrimeField, H: HashFunction>(
    log: Seq<Event<H::Output>>,
    c: int,
)
    ensures
        canon::<F>(challenge_after::<F, H>(log)),
        (le_value(H::digest_bytes(H::hashed(state_after::<F, H>(log)))) - challenge_after::<F, H>(
            log,
        )) % F::modulus() == 0,
        state_after::<F, H>(log.push(Event::Challenge(c))) == H::digest_bytes(
            H::hashed(state_after::<F, H>(log)),
        ),
{
    let v = le_value(H::digest_bytes(H::hashed(state_after::<F, H>(log))));
    red_canon::<F>(v);
    F::lemma_modulus();
    reveal(crate::field::red);
    lemma_mod_bound(v, F::modulus());
    lemma_sub_mod_noop(v, v % F::modulus(), F::modulus());
    vstd::arithmetic::div_mod::lemma_mod_twice(v, F::modulus());
    assert(v % F::modulus() - v % F::modulus() == 0);
    vstd::arithmetic::div_mod::lemma_small_mod(0, F::modulus() as nat);
    assert(log.push(Event::Challenge(c)).drop_last() =~= log);
}

} // verus!
