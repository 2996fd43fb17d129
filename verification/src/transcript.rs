//! Proof transcripts: what a prover sends, what a verifier reads, and the
//! challenges in between.

use crate::error::Error;
use crate::field::{le_bytes, le_value, red, red_add, red_mul, PrimeField};
use crate::hash::HashFunction;
use crate::linear::{vals, vals_push};
use vstd::prelude::*;

verus! {

/// One step of a transcript.
pub enum Event<O> {
    /// A field element was sent.
    Field(int),
    /// A digest was sent.
    Commitment(O),
    /// A challenge was drawn.
    Challenge(int),
    /// A field element was asked for, and none was left.
    NoField,
    /// A digest was asked for, and none was left.
    NoDigest,
}

/// The last step was an attempt to read that failed.
pub open spec fn broke_off<O>(log: Seq<Event<O>>) -> bool {
    log.len() > 0 && (log.last() is NoField || log.last() is NoDigest)
}

/// The error of a transcript that could not be read any further.
pub open spec fn cut_short<O>(e: Error, log: Seq<Event<O>>) -> bool {
    e is Transcript && broke_off(log)
}

/// The field elements among the steps of a transcript.
pub open spec fn fields_in<O>(log: Seq<Event<O>>) -> Seq<int>
    decreases log.len(),
{
    if log.len() == 0 {
        Seq::empty()
    } else {
        let prev = fields_in(log.drop_last());
        match log.last() {
            Event::Field(v) => prev.push(v),
            _ => prev,
        }
    }
}

/// The digests among the steps of a transcript.
pub open spec fn digests_in<O>(log: Seq<Event<O>>) -> Seq<O>
    decreases log.len(),
{
    if log.len() == 0 {
        Seq::empty()
    } else {
        let prev = digests_in(log.drop_last());
        match log.last() {
            Event::Commitment(d) => prev.push(d),
            _ => prev,
        }
    }
}

/// The transcript could not be read any further before `n` field elements and
/// `m` digests were read behind `log0`.
pub open spec fn cut_within<O>(
    e: Error,
    log0: Seq<Event<O>>,
    log1: Seq<Event<O>>,
    n: nat,
    m: nat,
) -> bool {
    &&& cut_short(e, log1)
    &&& log0.is_prefix_of(log1)
    &&& log1.last() is NoField ==> fields_in(log1).len() < fields_in(log0).len() + n
    &&& log1.last() is NoDigest ==> digests_in(log1).len() < digests_in(log0).len() + m
}

/// The steps that send field elements.
pub open spec fn sent_fields<O>(v: Seq<int>) -> Seq<Event<O>> {
    Seq::new(v.len(), |i: int| Event::Field(v[i]))
}

/// The steps that send digests.
pub open spec fn sent_commitments<O>(v: Seq<O>) -> Seq<Event<O>> {
    Seq::new(v.len(), |i: int| Event::Commitment(v[i]))
}

/// The steps that draw challenges.
pub open spec fn drawn<O>(v: Seq<int>) -> Seq<Event<O>> {
    Seq::new(v.len(), |i: int| Event::Challenge(v[i]))
}

/// The messages of two portions of steps.
pub proof fn messages_concat<O>(a: Seq<Event<O>>, b: Seq<Event<O>>)
    ensures
        fields_in(a + b) == fields_in(a) + fields_in(b),
        digests_in(a + b) == digests_in(a) + digests_in(b),
    decreases b.len(),
{
    if b.len() == 0 {
        assert(a + b =~= a);
        assert(fields_in(a) + fields_in(b) =~= fields_in(a));
        assert(digests_in(a) + digests_in(b) =~= digests_in(a));
    } else {
        messages_concat(a, b.drop_last());
        assert((a + b).drop_last() =~= a + b.drop_last());
        assert((a + b).last() == b.last());
        assert(fields_in(a + b) =~= fields_in(a) + fields_in(b));
        assert(digests_in(a + b) =~= digests_in(a) + digests_in(b));
    }
}

/// The messages of one more step.
pub proof fn messages_push<O>(a: Seq<Event<O>>, step: Event<O>)
    ensures
        step is Field ==> fields_in(a.push(step)) == fields_in(a).push(step->Field_0),
        !(step is Field) ==> fields_in(a.push(step)) == fields_in(a),
        step is Commitment ==> digests_in(a.push(step)) == digests_in(a).push(
            step->Commitment_0,
        ),
        !(step is Commitment) ==> digests_in(a.push(step)) == digests_in(a),
{
    assert(a.push(step).drop_last() =~= a);
}

/// The messages of plain steps.
pub proof fn messages_of_sent<O>(v: Seq<int>, d: Seq<O>)
    ensures
        fields_in(sent_fields::<O>(v)) == v,
        digests_in(sent_fields::<O>(v)) == Seq::<O>::empty(),
        fields_in(drawn::<O>(v)) == Seq::<int>::empty(),
        digests_in(drawn::<O>(v)) == Seq::<O>::empty(),
        fields_in(sent_commitments(d)) == Seq::<int>::empty(),
        digests_in(sent_commitments(d)) == d,
    decreases v.len() + d.len(),
{
    if v.len() > 0 {
        messages_of_sent(v.drop_last(), d);
        assert(sent_fields::<O>(v).drop_last() =~= sent_fields(v.drop_last()));
        assert(drawn::<O>(v).drop_last() =~= drawn(v.drop_last()));
        assert(fields_in(sent_fields::<O>(v)) =~= v);
    } else {
        assert(fields_in(sent_fields::<O>(v)) =~= v);
        if d.len() > 0 {
            messages_of_sent(v, d.drop_last());
            assert(sent_commitments(d).drop_last() =~= sent_commitments(d.drop_last()));
            assert(digests_in(sent_commitments(d)) =~= d);
        } else {
            assert(digests_in(sent_commitments(d)) =~= d);
        }
    }
}

/// `log1` extends `log0` by `n` field elements and `m` digests, and by any
/// challenges.
pub open spec fn went<O>(log0: Seq<Event<O>>, log1: Seq<Event<O>>, n: nat, m: nat) -> bool {
    &&& log0.is_prefix_of(log1)
    &&& fields_in(log1).len() == fields_in(log0).len() + n
    &&& digests_in(log1).len() == digests_in(log0).len() + m
}

/// The messages of plain steps are counted.
pub proof fn went_plain<O>(log0: Seq<Event<O>>, v: Seq<int>, d: Seq<O>)
    ensures
        went(log0, log0 + sent_fields(v), v.len(), 0),
        went(log0, log0 + drawn(v), 0, 0),
        went(log0, log0 + sent_commitments(d), 0, d.len()),
{
    messages_of_sent(v, d);
    messages_concat(log0, sent_fields::<O>(v));
    messages_concat(log0, drawn::<O>(v));
    messages_concat(log0, sent_commitments(d));
}

/// One portion after the other.
pub proof fn went_on<O>(
    log0: Seq<Event<O>>,
    log1: Seq<Event<O>>,
    log2: Seq<Event<O>>,
    n1: nat,
    m1: nat,
    n2: nat,
    m2: nat,
)
    requires
        went(log0, log1, n1, m1),
        went(log1, log2, n2, m2),
    ensures
        went(log0, log2, n1 + n2, m1 + m2),
{
}

/// A transcript that is cut behind a portion is cut within both, and one that is
/// cut within a portion is cut within a longer one.
pub proof fn cut_later<O>(
    e: Error,
    log0: Seq<Event<O>>,
    log1: Seq<Event<O>>,
    log2: Seq<Event<O>>,
    n1: nat,
    m1: nat,
    n2: nat,
    m2: nat,
    n: nat,
    m: nat,
)
    requires
        went(log0, log1, n1, m1),
        cut_within(e, log1, log2, n2, m2),
        n1 + n2 <= n,
        m1 + m2 <= m,
    ensures
        cut_within(e, log0, log2, n, m),
{
}

/// A single message that is missing or not.
pub proof fn cut_single<O>(e: Error, log0: Seq<Event<O>>, v: int, d: O)
    ensures
        e is Transcript ==> cut_within(e, log0, log0.push(Event::<O>::NoField), 1, 0),
        e is Transcript ==> cut_within(e, log0, log0.push(Event::<O>::NoDigest), 0, 1),
        went(log0, log0.push(Event::<O>::Field(v)), 1, 0),
        went(log0, log0.push(Event::<O>::Commitment(d)), 0, 1),
        went(log0, log0.push(Event::<O>::Challenge(v)), 0, 0),
{
    messages_push(log0, Event::<O>::NoField);
    messages_push(log0, Event::<O>::NoDigest);
    messages_push(log0, Event::<O>::Field(v));
    messages_push(log0, Event::<O>::Commitment(d));
    messages_push(log0, Event::<O>::Challenge(v));
}

/// A source of challenges that depend on what was sent before.
pub trait FieldTranscript<F: PrimeField, O> {
    /// Everything sent and drawn so far.
    spec fn log(&self) -> Seq<Event<O>>;

    /// The field elements and digests of the proof that it holds.
    spec fn held(&self) -> (Seq<int>, Seq<O>);

    /// Draws a challenge.
    fn squeeze_challenge(&mut self) -> (r: F)
        ensures
            final(self).held() == old(self).held(),
            final(self).log() == old(self).log().push(Event::Challenge(r.val())),
    ;
}

/// A transcript that a prover writes.
pub trait TranscriptWrite<F: PrimeField, O>: FieldTranscript<F, O> {
    /// Whether writing always succeeds.
    spec fn infallible() -> bool;

    fn write_field_element(&mut self, value: F) -> (r: Result<(), Error>)
        ensures
            Self::infallible() ==> r is Ok,
            r matches Err(e) ==> e is Transcript,
            r is Ok ==> final(self).log() == old(self).log().push(Event::Field(value.val())),
    ;

    fn write_commitment(&mut self, digest: O) -> (r: Result<(), Error>)
        ensures
            Self::infallible() ==> r is Ok,
            r matches Err(e) ==> e is Transcript,
            r is Ok ==> final(self).log() == old(self).log().push(Event::Commitment(digest)),
    ;
}

/// A transcript that a verifier reads.
pub trait TranscriptRead<F: PrimeField, O>: FieldTranscript<F, O> {
    fn read_field_element(&mut self) -> (r: Result<F, Error>)
        ensures
            final(self).held() == old(self).held(),
            r matches Err(e) ==> e is Transcript && final(self).log() == old(self).log().push(
                Event::NoField,
            ),
            r matches Ok(value) ==> final(self).log() == old(self).log().push(
                Event::Field(value.val()),
            ),
    ;

    fn read_commitment(&mut self) -> (r: Result<O, Error>)
        ensures
            final(self).held() == old(self).held(),
            r matches Err(e) ==> e is Transcript && final(self).log() == old(self).log().push(
                Event::NoDigest,
            ),
            r matches Ok(digest) ==> final(self).log() == old(self).log().push(
                Event::Commitment(digest),
            ),
    ;
}

/// Draws several challenges.
pub fn squeeze_challenges<F: PrimeField, O, T: FieldTranscript<F, O>>(
    transcript: &mut T,
    n: usize,
) -> (r: Vec<F>)
    ensures
        final(transcript).held() == old(transcript).held(),
        r@.len() == n,
        final(transcript).log() == old(transcript).log() + drawn(vals(r@)),
{
    let ghost log0 = transcript.log();
    let mut out: Vec<F> = Vec::new();
    assert(log0 + drawn(vals(out@)) =~= log0);
    while out.len() < n
        invariant
            transcript.held() == old(transcript).held(),
            out@.len() <= n,
            transcript.log() == log0 + drawn(vals(out@)),
        decreases n - out@.len(),
    {
        let c = transcript.squeeze_challenge();
        proof {
            vals_push(out@, c);
            assert(drawn::<O>(vals(out@).push(c.val())) =~= drawn::<O>(vals(out@)).push(
                Event::Challenge(c.val()),
            ));
            assert(log0 + drawn::<O>(vals(out@)).push(Event::Challenge(c.val())) =~= (log0 + drawn(
                vals(out@),
            )).push(Event::Challenge(c.val())));
        }
        out.push(c);
    }
    out
}

/// Writes several field elements.
pub fn write_field_elements<F: PrimeField, O, T: TranscriptWrite<F, O>>(
    transcript: &mut T,
    values: &[F],
) -> (r: Result<(), Error>)
    ensures
        T::infallible() ==> r is Ok,
        r matches Err(e) ==> e is Transcript,
        r is Ok ==> final(transcript).log() == old(transcript).log() + sent_fields(vals(values@)),
{
    let ghost log0 = transcript.log();
    let ghost v = vals(values@);
    let mut i: usize = 0;
    assert(log0 + sent_fields(v.take(0)) =~= log0);
    while i < values.len()
        invariant
            i <= values@.len(),
            v == vals(values@),
            transcript.log() == log0 + sent_fields(v.take(i as int)),
        decreases values@.len() - i,
    {
        match transcript.write_field_element(values[i]) {
            Ok(_) => {},
            Err(e) => {
                return Err(e);
            },
        }
        proof {
            let step = Event::<O>::Field(v[i as int]);
            assert(v.take(i as int + 1) =~= v.take(i as int).push(v[i as int]));
            assert(sent_fields::<O>(v.take(i as int + 1)) =~= sent_fields::<O>(
                v.take(i as int),
            ).push(step));
            assert(log0 + sent_fields::<O>(v.take(i as int)).push(step) =~= (log0 + sent_fields(
                v.take(i as int),
            )).push(step));
        }
        i = i + 1;
    }
    assert(v.take(i as int) =~= v);
    Ok(())
}

/// Writes several digests.
pub fn write_commitments<F: PrimeField, O: Copy, T: TranscriptWrite<F, O>>(
    transcript: &mut T,
    digests: &[O],
) -> (r: Result<(), Error>)
    ensures
        T::infallible() ==> r is Ok,
        r matches Err(e) ==> e is Transcript,
        r is Ok ==> final(transcript).log() == old(transcript).log() + sent_commitments(digests@),
{
    let ghost log0 = transcript.log();
    let ghost v = digests@;
    let mut i: usize = 0;
    assert(log0 + sent_commitments(v.take(0)) =~= log0);
    while i < digests.len()
        invariant
            i <= digests@.len(),
            v == digests@,
            transcript.log() == log0 + sent_commitments(v.take(i as int)),
        decreases digests@.len() - i,
    {
        match transcript.write_commitment(digests[i]) {
            Ok(_) => {},
            Err(e) => {
                return Err(e);
            },
        }
        proof {
            let step = Event::<O>::Commitment(v[i as int]);
            assert(v.take(i as int + 1) =~= v.take(i as int).push(v[i as int]));
            assert(sent_commitments::<O>(v.take(i as int + 1)) =~= sent_commitments::<O>(
                v.take(i as int),
            ).push(step));
            assert(log0 + sent_commitments::<O>(v.take(i as int)).push(step) =~= (log0
                + sent_commitments(v.take(i as int))).push(step));
        }
        i = i + 1;
    }
    assert(v.take(i as int) =~= v);
    Ok(())
}

/// Reads several field elements.
pub fn read_field_elements<F: PrimeField, O, T: TranscriptRead<F, O>>(
    transcript: &mut T,
    n: usize,
) -> (r: Result<Vec<F>, Error>)
    ensures
        final(transcript).held() == old(transcript).held(),
        r matches Err(e) ==> cut_within(
            e,
            old(transcript).log(),
            final(transcript).log(),
            n as nat,
            0,
        ),
        r matches Ok(v) ==> v@.len() == n && final(transcript).log() == old(transcript).log()
            + sent_fields(vals(v@)),
{
    let ghost log0 = transcript.log();
    let mut out: Vec<F> = Vec::new();
    assert(log0 + sent_fields(vals(out@)) =~= log0);
    while out.len() < n
        invariant
            transcript.held() == old(transcript).held(),
            out@.len() <= n,
            log0 == old(transcript).log(),
            transcript.log() == log0 + sent_fields(vals(out@)),
        decreases n - out@.len(),
    {
        match transcript.read_field_element() {
            Ok(x) => {
                proof {
                    let step = Event::<O>::Field(x.val());
                    vals_push(out@, x);
                    assert(sent_fields::<O>(vals(out@).push(x.val())) =~= sent_fields::<O>(
                        vals(out@),
                    ).push(step));
                    assert(log0 + sent_fields::<O>(vals(out@)).push(step) =~= (log0 + sent_fields(
                        vals(out@),
                    )).push(step));
                }
                out.push(x);
            },
            Err(e) => {
                proof {
                    let before = log0 + sent_fields::<O>(vals(out@));
                    messages_concat(log0, sent_fields::<O>(vals(out@)));
                    messages_of_sent::<O>(vals(out@), Seq::empty());
                    messages_push(before, Event::<O>::NoField);
                }
                return Err(e);
            },
        }
    }
    Ok(out)
}

/// Reads several digests.
pub fn read_commitments<F: PrimeField, O, T: TranscriptRead<F, O>>(
    transcript: &mut T,
    n: usize,
) -> (r: Result<Vec<O>, Error>)
    ensures
        final(transcript).held() == old(transcript).held(),
        r matches Err(e) ==> cut_within(
            e,
            old(transcript).log(),
            final(transcript).log(),
            0,
            n as nat,
        ),
        r matches Ok(v) ==> v@.len() == n && final(transcript).log() == old(transcript).log()
            + sent_commitments(v@),
{
    let ghost log0 = transcript.log();
    let mut out: Vec<O> = Vec::new();
    assert(log0 + sent_commitments(out@) =~= log0);
    while out.len() < n
        invariant
            transcript.held() == old(transcript).held(),
            out@.len() <= n,
            log0 == old(transcript).log(),
            transcript.log() == log0 + sent_commitments(out@),
        decreases n - out@.len(),
    {
        match transcript.read_commitment() {
            Ok(x) => {
                proof {
                    let step = Event::<O>::Commitment(x);
                    assert(sent_commitments::<O>(out@.push(x)) =~= sent_commitments::<O>(
                        out@,
                    ).push(step));
                    assert(log0 + sent_commitments::<O>(out@).push(step) =~= (log0
                        + sent_commitments(out@)).push(step));
                }
                out.push(x);
            },
            Err(e) => {
                proof {
                    let before = log0 + sent_commitments::<O>(out@);
                    messages_concat(log0, sent_commitments::<O>(out@));
                    messages_of_sent::<O>(Seq::empty(), out@);
                    messages_push(before, Event::<O>::NoDigest);
                }
                return Err(e);
            },
        }
    }
    Ok(out)
}

/// The residue of the integer with the given little-endian bytes.
fn field_from_bytes<F: PrimeField>(bytes: &[u8]) -> (r: F)
    ensures
        r.val() == red::<F>(le_value(bytes@)),
{
    let base = F::from_u64(256);
    let mut acc = F::zero();
    let mut i: usize = bytes.len();
    proof {
        reveal(red);
        crate::field::canon_consts::<F>();
        assert(bytes@.skip(i as int) =~= Seq::empty());
    }
    while i > 0
        invariant
            i <= bytes@.len(),
            base.val() == red::<F>(256),
            acc.val() == red::<F>(le_value(bytes@.skip(i as int))),
        decreases i,
    {
        i = i - 1;
        let byte = F::from_u64(bytes[i] as u64);
        proof {
            let b = bytes@[i as int] as int;
            let rest = le_value(bytes@.skip(i as int + 1));
            assert(bytes@.skip(i as int).drop_first() =~= bytes@.skip(i as int + 1));
            assert(byte.val() == red::<F>(b)) by {
                reveal(red);
            }
            red_mul::<F>(rest, 256);
            red_add::<F>(rest * 256, b);
        }
        acc = acc.times(base).plus(byte);
    }
    assert(bytes@.skip(0) =~= bytes@);
    acc
}

/// The bytes that the next challenge depends on: every message is appended, a
/// challenge replaces them by their digest.
pub open spec fn state_after<F: PrimeField, H: HashFunction>(log: Seq<Event<H::Output>>) -> Seq<u8>
    decreases log.len(),
{
    if log.len() == 0 {
        Seq::empty()
    } else {
        let prev = state_after::<F, H>(log.drop_last());
        match log.last() {
            Event::Field(v) => prev + le_bytes(v, F::repr_len()),
            Event::Commitment(d) => prev + H::digest_bytes(d),
            Event::Challenge(_) => H::digest_bytes(H::hashed(prev)),
            Event::NoField => prev,
            Event::NoDigest => prev,
        }
    }
}

/// The challenge that follows some steps.
pub open spec fn challenge_after<F: PrimeField, H: HashFunction>(
    log: Seq<Event<H::Output>>,
) -> int {
    red::<F>(le_value(H::digest_bytes(H::hashed(state_after::<F, H>(log)))))
}

/// Every challenge is the one that follows the steps before it.
pub open spec fn genuine<F: PrimeField, H: HashFunction>(log: Seq<Event<H::Output>>) -> bool {
    forall|i: int|
        0 <= i < log.len() && (#[trigger] log[i]) is Challenge ==> log[i] == Event::<
            H::Output,
        >::Challenge(challenge_after::<F, H>(log.take(i)))
}

/// The challenges are genuine, and the messages are the first ones of a proof.
pub open spec fn follows<F: PrimeField, H: HashFunction>(
    log: Seq<Event<H::Output>>,
    fields: Seq<int>,
    digests: Seq<H::Output>,
) -> bool {
    &&& genuine::<F, H>(log)
    &&& fields_in(log).is_prefix_of(fields)
    &&& digests_in(log).is_prefix_of(digests)
}

/// Two steps are of one kind.
pub open spec fn same_kind<O>(a: Event<O>, b: Event<O>) -> bool {
    &&& a is Field <==> b is Field
    &&& a is Commitment <==> b is Commitment
    &&& a is Challenge <==> b is Challenge
    &&& a is NoField <==> b is NoField
}

/// One more step.
proof fn genuine_push<F: PrimeField, H: HashFunction>(
    log: Seq<Event<H::Output>>,
    step: Event<H::Output>,
)
    requires
        genuine::<F, H>(log),
        step is Challenge ==> step == Event::<H::Output>::Challenge(challenge_after::<F, H>(log)),
    ensures
        genuine::<F, H>(log.push(step)),
{
    let next = log.push(step);
    assert forall|i: int| 0 <= i < next.len() && (#[trigger] next[i]) is Challenge implies next[i]
        == Event::<H::Output>::Challenge(challenge_after::<F, H>(next.take(i))) by {
        if i < log.len() {
            assert(next[i] == log[i]);
            assert(next.take(i) =~= log.take(i));
        } else {
            assert(next.take(i) =~= log);
        }
    }
}

/// The field elements of the first steps are the first field elements.
pub proof fn fields_in_prefix<O>(log: Seq<Event<O>>, i: int)
    requires
        0 <= i <= log.len(),
    ensures
        fields_in(log.take(i)).is_prefix_of(fields_in(log)),
        digests_in(log.take(i)).is_prefix_of(digests_in(log)),
    decreases log.len(),
{
    if i < log.len() {
        fields_in_prefix(log.drop_last(), i);
        assert(log.drop_last().take(i) =~= log.take(i));
    } else {
        assert(log.take(i) =~= log);
    }
}

/// Reading gives back what was written: two transcripts that go through the
/// messages of one proof, and take steps of the same kinds, take the same steps.
pub proof fn same_proof_same_steps<F: PrimeField, H: HashFunction>(
    a: Seq<Event<H::Output>>,
    b: Seq<Event<H::Output>>,
    fields: Seq<int>,
    digests: Seq<H::Output>,
)
    requires
        follows::<F, H>(a, fields, digests),
        follows::<F, H>(b, fields, digests),
        a.len() <= b.len(),
        forall|i: int| 0 <= i < a.len() ==> same_kind(#[trigger] a[i], b[i]),
    ensures
        a == b.take(a.len() as int),
    decreases a.len(),
{
    if a.len() == 0 {
        assert(a =~= b.take(0));
    } else {
        let k = a.len() - 1;
        let front = a.drop_last();
        assert forall|i: int| 0 <= i < front.len() implies same_kind(#[trigger] front[i], b[i]) by {
            assert(front[i] == a[i]);
        }
        assert(genuine::<F, H>(front)) by {
            assert forall|i: int|
                0 <= i < front.len() && (#[trigger] front[i]) is Challenge implies front[i]
                == Event::<H::Output>::Challenge(challenge_after::<F, H>(front.take(i))) by {
                assert(front[i] == a[i]);
                assert(front.take(i) =~= a.take(i));
            }
        }
        assert(a.take(k) =~= front);
        fields_in_prefix(a, k);
        same_proof_same_steps::<F, H>(front, b, fields, digests);
        let bk = b.take(k);
        let next = b.take(k + 1);
        assert(next.drop_last() =~= bk);
        assert(next.last() == b[k]);
        fields_in_prefix(b, k + 1);
        assert(same_kind(a[k], b[k]));
        assert(a.last() == a[k]);
        if a[k] is Challenge {
            assert(a[k] == b[k]);
        } else if a[k] is Field {
            let n = fields_in(front).len() as int;
            assert(fields_in(a)[n] == fields[n]);
            assert(fields_in(next)[n] == fields_in(b)[n]);
            assert(fields_in(b)[n] == fields[n]);
        } else if a[k] is Commitment {
            let n = digests_in(front).len() as int;
            assert(digests_in(a)[n] == digests[n]);
            assert(digests_in(next)[n] == digests_in(b)[n]);
            assert(digests_in(b)[n] == digests[n]);
        }
        assert(a =~= next);
    }
}

/// Two portions of steps are of the same kinds.
pub open spec fn alike<O>(a: Seq<Event<O>>, b: Seq<Event<O>>) -> bool {
    &&& a.len() == b.len()
    &&& forall|i: int| 0 <= i < a.len() ==> same_kind(#[trigger] a[i], b[i])
}

/// Portions of the same kinds, one after the other.
pub proof fn alike_concat<O>(
    a: Seq<Event<O>>,
    b: Seq<Event<O>>,
    c: Seq<Event<O>>,
    d: Seq<Event<O>>,
)
    requires
        alike(a, c),
        alike(b, d),
    ensures
        alike(a + b, c + d),
        a + b == c + d ==> a == c && b == d,
{
    let (x, y) = (a + b, c + d);
    assert forall|i: int| 0 <= i < x.len() implies same_kind(#[trigger] x[i], y[i]) by {
        if i < a.len() {
            assert(x[i] == a[i] && y[i] == c[i]);
        } else {
            assert(x[i] == b[i - a.len()] && y[i] == d[i - a.len()]);
        }
    }
    if x == y {
        assert(a =~= x.take(a.len() as int));
        assert(c =~= y.take(a.len() as int));
        assert(b =~= x.skip(a.len() as int));
        assert(d =~= y.skip(a.len() as int));
    }
}

/// Plain steps are of one kind, and hold what was sent or drawn.
pub proof fn alike_plain<O>(u: Seq<int>, v: Seq<int>, p: Seq<O>, q: Seq<O>)
    requires
        u.len() == v.len(),
        p.len() == q.len(),
    ensures
        alike(sent_fields::<O>(u), sent_fields::<O>(v)),
        alike(drawn::<O>(u), drawn::<O>(v)),
        alike(sent_commitments(p), sent_commitments(q)),
        sent_fields::<O>(u) == sent_fields::<O>(v) ==> u == v,
        drawn::<O>(u) == drawn::<O>(v) ==> u == v,
        sent_commitments(p) == sent_commitments(q) ==> p == q,
{
    if sent_fields::<O>(u) == sent_fields::<O>(v) {
        assert forall|i: int| 0 <= i < u.len() implies u[i] == v[i] by {
            assert(sent_fields::<O>(u)[i] == sent_fields::<O>(v)[i]);
        }
        assert(u =~= v);
    }
    if drawn::<O>(u) == drawn::<O>(v) {
        assert forall|i: int| 0 <= i < u.len() implies u[i] == v[i] by {
            assert(drawn::<O>(u)[i] == drawn::<O>(v)[i]);
        }
        assert(u =~= v);
    }
    if sent_commitments(p) == sent_commitments(q) {
        assert forall|i: int| 0 <= i < p.len() implies p[i] == q[i] by {
            assert(sent_commitments(p)[i] == sent_commitments(q)[i]);
        }
        assert(p =~= q);
    }
}

/// The first steps of a transcript follow a proof where all do.
pub proof fn follows_prefix<F: PrimeField, H: HashFunction>(
    a: Seq<Event<H::Output>>,
    b: Seq<Event<H::Output>>,
    fields: Seq<int>,
    digests: Seq<H::Output>,
)
    requires
        follows::<F, H>(b, fields, digests),
        a.is_prefix_of(b),
    ensures
        follows::<F, H>(a, fields, digests),
{
    let k = a.len() as int;
    assert(a =~= b.take(k));
    fields_in_prefix(b, k);
    assert forall|i: int| 0 <= i < a.len() && (#[trigger] a[i]) is Challenge implies a[i]
        == Event::<H::Output>::Challenge(challenge_after::<F, H>(a.take(i))) by {
        assert(a[i] == b[i]);
        assert(a.take(i) =~= b.take(i));
    }
}

/// What is read is what was written: a reader of the messages of a transcript that
/// takes steps of the same kinds takes the same steps.
pub proof fn what_was_written_is_read<F: PrimeField, H: HashFunction>(
    written: Seq<Event<H::Output>>,
    read: Seq<Event<H::Output>>,
)
    requires
        genuine::<F, H>(written),
        follows::<F, H>(read, fields_in(written), digests_in(written)),
        alike(written, read),
    ensures
        read == written,
{
    let (fields, digests) = (fields_in(written), digests_in(written));
    same_proof_same_steps::<F, H>(read, written, fields, digests);
    assert(written.take(read.len() as int) =~= written);
}

/// Two transcripts go through one proof. Behind the same steps, portions of the
/// same kinds are the same.
pub proof fn same_proof_same_portion<F: PrimeField, H: HashFunction>(
    log0: Seq<Event<H::Output>>,
    s: Seq<Event<H::Output>>,
    t: Seq<Event<H::Output>>,
    a: Seq<Event<H::Output>>,
    b: Seq<Event<H::Output>>,
    fields: Seq<int>,
    digests: Seq<H::Output>,
)
    requires
        follows::<F, H>(a, fields, digests),
        follows::<F, H>(b, fields, digests),
        (log0 + s).is_prefix_of(a),
        (log0 + t).is_prefix_of(b),
        alike(s, t),
    ensures
        s == t,
{
    let (x, y) = (log0 + s, log0 + t);
    follows_prefix::<F, H>(x, a, fields, digests);
    follows_prefix::<F, H>(y, b, fields, digests);
    assert forall|i: int| 0 <= i < x.len() implies same_kind(#[trigger] x[i], y[i]) by {
        if i >= log0.len() {
            assert(x[i] == s[i - log0.len()] && y[i] == t[i - log0.len()]);
        }
    }
    same_proof_same_steps::<F, H>(x, y, fields, digests);
    assert(y.take(x.len() as int) =~= y);
    assert(s =~= x.skip(log0.len() as int));
    assert(t =~= y.skip(log0.len() as int));
}

/// Messages with a place in them, and the state that challenges depend on.
struct Messages<F: PrimeField, H: HashFunction> {
    state: Vec<u8>,
    fields: Vec<F>,
    commitments: Vec<H::Output>,
    next_field: usize,
    next_commitment: usize,
    steps: Ghost<Seq<Event<H::Output>>>,
}

impl<F: PrimeField, H: HashFunction> Messages<F, H> {
    /// The steps went through the messages before the place, and the state is
    /// the one after them.
    spec fn passed(self) -> bool {
        &&& self.state@ == state_after::<F, H>(self.steps@)
        &&& genuine::<F, H>(self.steps@)
        &&& self.next_field <= self.fields@.len()
        &&& self.next_commitment <= self.commitments@.len()
        &&& fields_in(self.steps@) == vals(self.fields@).take(self.next_field as int)
        &&& digests_in(self.steps@) == self.commitments@.take(self.next_commitment as int)
    }

    /// Besides, nothing is left of what could not be read last.
    spec fn inv(self) -> bool {
        &&& self.passed()
        &&& self.steps@.len() > 0 && self.steps@.last() is NoField ==> self.next_field
            == self.fields@.len()
        &&& self.steps@.len() > 0 && self.steps@.last() is NoDigest ==> self.next_commitment
            == self.commitments@.len()
    }

    /// The given messages, with the place before the first.
    fn start(fields: Vec<F>, commitments: Vec<H::Output>) -> (r: Self)
        ensures
            r.inv(),
            r.steps@ == Seq::<Event<H::Output>>::empty(),
            r.fields == fields,
            r.commitments == commitments,
    {
        assert(vals(fields@).take(0) =~= Seq::empty());
        assert(commitments@.take(0) =~= Seq::empty());
        Messages {
            state: Vec::new(),
            fields,
            commitments,
            next_field: 0,
            next_commitment: 0,
            steps: Ghost(Seq::empty()),
        }
    }

    /// Goes past a field element, which stands at the place.
    fn pass_field(&mut self, value: F)
        requires
            old(self).passed(),
            old(self).next_field < old(self).fields@.len(),
            old(self).fields@[old(self).next_field as int] == value,
        ensures
            final(self).inv(),
            final(self).steps@ == old(self).steps@.push(Event::Field(value.val())),
            final(self).fields == old(self).fields,
            final(self).commitments == old(self).commitments,
    {
        let ghost log = self.steps@;
        let ghost k = self.next_field as int;
        let _count: usize = self.fields.len();
        let ghost v = vals(self.fields@);
        let mut repr = value.to_repr();
        self.state.append(&mut repr);
        self.next_field = self.next_field + 1;
        self.steps = Ghost(log.push(Event::Field(value.val())));
        proof {
            genuine_push::<F, H>(log, Event::Field(value.val()));
            assert(log.push(Event::Field(value.val())).drop_last() =~= log);
            assert(v.take(k + 1) =~= v.take(k).push(v[k]));
        }
    }

    /// Goes past a digest, which stands at the place.
    fn pass_commitment(&mut self, digest: H::Output)
        requires
            old(self).passed(),
            old(self).next_commitment < old(self).commitments@.len(),
            old(self).commitments@[old(self).next_commitment as int] == digest,
        ensures
            final(self).inv(),
            final(self).steps@ == old(self).steps@.push(Event::Commitment(digest)),
            final(self).fields == old(self).fields,
            final(self).commitments == old(self).commitments,
    {
        let ghost log = self.steps@;
        let ghost k = self.next_commitment as int;
        let _count: usize = self.commitments.len();
        let ghost v = self.commitments@;
        let mut bytes = H::output_bytes(&digest);
        self.state.append(&mut bytes);
        self.next_commitment = self.next_commitment + 1;
        self.steps = Ghost(log.push(Event::Commitment(digest)));
        proof {
            genuine_push::<F, H>(log, Event::Commitment(digest));
            assert(log.push(Event::Commitment(digest)).drop_last() =~= log);
            assert(v.take(k + 1) =~= v.take(k).push(v[k]));
        }
    }

    /// Puts a field element at the place, drops what stood behind, and goes past
    /// it.
    fn put_field(&mut self, value: F)
        requires
            old(self).inv(),
        ensures
            final(self).inv(),
            final(self).steps@ == old(self).steps@.push(Event::Field(value.val())),
            final(self).fields@ == old(self).fields@.take(
                fields_in(old(self).steps@).len() as int,
            ).push(value),
            final(self).commitments == old(self).commitments,
    {
        let ghost k = self.next_field as int;
        let ghost v = self.fields@;
        self.fields.truncate(self.next_field);
        self.fields.push(value);
        proof {
            assert(vals(self.fields@).take(k) =~= vals(v).take(k));
        }
        self.pass_field(value);
    }

    /// Puts a digest at the place, drops what stood behind, and goes past it.
    fn put_commitment(&mut self, digest: H::Output)
        requires
            old(self).inv(),
        ensures
            final(self).inv(),
            final(self).steps@ == old(self).steps@.push(Event::Commitment(digest)),
            final(self).commitments@ == old(self).commitments@.take(
                digests_in(old(self).steps@).len() as int,
            ).push(digest),
            final(self).fields == old(self).fields,
    {
        let ghost k = self.next_commitment as int;
        let ghost v = self.commitments@;
        self.commitments.truncate(self.next_commitment);
        self.commitments.push(digest);
        proof {
            assert(self.commitments@.take(k) =~= v.take(k));
        }
        self.pass_commitment(digest);
    }

    /// Notes that no field element was left.
    fn note_no_field(&mut self)
        requires
            old(self).inv(),
            old(self).next_field == old(self).fields@.len(),
        ensures
            final(self).inv(),
            final(self).steps@ == old(self).steps@.push(Event::NoField),
            final(self).fields == old(self).fields,
            final(self).commitments == old(self).commitments,
    {
        let ghost log = self.steps@;
        self.steps = Ghost(log.push(Event::NoField));
        proof {
            genuine_push::<F, H>(log, Event::NoField);
            assert(log.push(Event::NoField).drop_last() =~= log);
        }
    }

    /// Notes that no digest was left.
    fn note_no_digest(&mut self)
        requires
            old(self).inv(),
            old(self).next_commitment == old(self).commitments@.len(),
        ensures
            final(self).inv(),
            final(self).steps@ == old(self).steps@.push(Event::NoDigest),
            final(self).fields == old(self).fields,
            final(self).commitments == old(self).commitments,
    {
        let ghost log = self.steps@;
        self.steps = Ghost(log.push(Event::NoDigest));
        proof {
            genuine_push::<F, H>(log, Event::NoDigest);
            assert(log.push(Event::NoDigest).drop_last() =~= log);
        }
    }

    /// Replaces the state by its digest and makes a challenge of it.
    fn draw(&mut self) -> (r: F)
        requires
            old(self).inv(),
        ensures
            final(self).inv(),
            r.val() == challenge_after::<F, H>(old(self).steps@),
            final(self).steps@ == old(self).steps@.push(Event::Challenge(r.val())),
            final(self).fields == old(self).fields,
            final(self).commitments == old(self).commitments,
    {
        let ghost log = self.steps@;
        let digest = H::digest(&self.state);
        self.state = H::output_bytes(&digest);
        let challenge: F = field_from_bytes(&self.state);
        self.steps = Ghost(log.push(Event::Challenge(challenge.val())));
        proof {
            genuine_push::<F, H>(log, Event::Challenge(challenge.val()));
            assert(log.push(Event::Challenge(challenge.val())).drop_last() =~= log);
        }
        challenge
    }
}

/// A Fiat-Shamir transcript held in memory. Every message is absorbed into
/// the state; a challenge is the digest of the state, which it replaces.
pub struct InMemoryTranscript<F: PrimeField, H: HashFunction> {
    messages: Messages<F, H>,
}

impl<F: PrimeField, H: HashFunction> InMemoryTranscript<F, H> {
    #[verifier::type_invariant]
    spec fn kept(self) -> bool {
        self.messages.inv()
    }

    /// The field elements of the proof.
    pub closed spec fn fields(self) -> Seq<F> {
        self.messages.fields@
    }

    /// The digests of the proof.
    pub closed spec fn commitments(self) -> Seq<H::Output> {
        self.messages.commitments@
    }

    /// An empty transcript to write to.
    pub fn new() -> (r: Self)
        ensures
            r.log() == Seq::<Event<H::Output>>::empty(),
            r.fields() == Seq::<F>::empty(),
            r.commitments() == Seq::<H::Output>::empty(),
    {
        Self::from_proof(Vec::new(), Vec::new())
    }

    /// A transcript that reads the messages of a proof.
    pub fn from_proof(fields: Vec<F>, commitments: Vec<H::Output>) -> (r: Self)
        ensures
            r.log() == Seq::<Event<H::Output>>::empty(),
            r.fields() == fields@,
            r.commitments() == commitments@,
    {
        let messages = Messages::<F, H>::start(fields, commitments);
        InMemoryTranscript { messages }
    }

    /// The messages that were written or read so far.
    pub fn into_proof(self) -> (r: (Vec<F>, Vec<H::Output>))
        ensures
            vals(r.0@) == fields_in(self.log()),
            r.1@ == digests_in(self.log()),
            genuine::<F, H>(self.log()),
    {
        proof {
            use_type_invariant(&self);
        }
        let mut messages = self.messages;
        messages.fields.truncate(messages.next_field);
        messages.commitments.truncate(messages.next_commitment);
        assert(vals(messages.fields@) =~= fields_in(self.log()));
        (messages.fields, messages.commitments)
    }

    /// Takes the messages out; nothing is left behind.
    fn take_out(&mut self) -> (r: Messages<F, H>)
        ensures
            r == old(self).messages,
            r.inv(),
    {
        proof {
            use_type_invariant(&*self);
        }
        let mut messages = Messages::<F, H>::start(Vec::new(), Vec::new());
        core::mem::swap(&mut self.messages, &mut messages);
        messages
    }

    /// How many field elements and digests were not read yet.
    pub fn unread(&self) -> (r: (usize, usize))
        ensures
            follows::<F, H>(self.log(), vals(self.fields()), self.commitments()),
            self.log().len() > 0 && self.log().last() is NoField ==> r.0 == 0,
            self.log().len() > 0 && self.log().last() is NoDigest ==> r.1 == 0,
            r.0 == self.fields().len() - fields_in(self.log()).len(),
            r.1 == self.commitments().len() - digests_in(self.log()).len(),
    {
        proof {
            use_type_invariant(self);
        }
        (
            self.messages.fields.len() - self.messages.next_field,
            self.messages.commitments.len() - self.messages.next_commitment,
        )
    }
}

impl<F: PrimeField, H: HashFunction> FieldTranscript<F, H::Output> for InMemoryTranscript<F, H> {
    closed spec fn log(&self) -> Seq<Event<H::Output>> {
        self.messages.steps@
    }

    open spec fn held(&self) -> (Seq<int>, Seq<H::Output>) {
        (vals(self.fields()), self.commitments())
    }

    fn squeeze_challenge(&mut self) -> (r: F)
        ensures
            r.val() == challenge_after::<F, H>(old(self).log()),
            final(self).fields() == old(self).fields(),
            final(self).commitments() == old(self).commitments(),
    {
        let mut messages = self.take_out();
        let challenge = messages.draw();
        self.messages = messages;
        challenge
    }
}

impl<F: PrimeField, H: HashFunction> TranscriptWrite<F, H::Output> for InMemoryTranscript<F, H> {
    open spec fn infallible() -> bool {
        true
    }

    fn write_field_element(&mut self, value: F) -> (r: Result<(), Error>)
        ensures
            r is Ok,
            final(self).fields() == old(self).fields().take(
                fields_in(old(self).log()).len() as int,
            ).push(value),
            final(self).commitments() == old(self).commitments(),
    {
        let mut messages = self.take_out();
        messages.put_field(value);
        self.messages = messages;
        Ok(())
    }

    fn write_commitment(&mut self, digest: H::Output) -> (r: Result<(), Error>)
        ensures
            r is Ok,
            final(self).fields() == old(self).fields(),
            final(self).commitments() == old(self).commitments().take(
                digests_in(old(self).log()).len() as int,
            ).push(digest),
    {
        let mut messages = self.take_out();
        messages.put_commitment(digest);
        self.messages = messages;
        Ok(())
    }
}

impl<F: PrimeField, H: HashFunction> TranscriptRead<F, H::Output> for InMemoryTranscript<F, H> {
    fn read_field_element(&mut self) -> (r: Result<F, Error>)
        ensures
            r is Ok <==> fields_in(old(self).log()).len() < old(self).fields().len(),
            r matches Ok(value) ==> value == old(self).fields()[fields_in(
                old(self).log(),
            ).len() as int],
            final(self).fields() == old(self).fields(),
            final(self).commitments() == old(self).commitments(),
    {
        let mut messages = self.take_out();
        if messages.next_field >= messages.fields.len() {
            messages.note_no_field();
            self.messages = messages;
            return Err(Error::Transcript("no field element left".to_owned()));
        }
        let value = messages.fields[messages.next_field];
        messages.pass_field(value);
        self.messages = messages;
        Ok(value)
    }

    fn read_commitment(&mut self) -> (r: Result<H::Output, Error>)
        ensures
            r is Ok <==> digests_in(old(self).log()).len() < old(self).commitments().len(),
            r matches Ok(digest) ==> digest == old(self).commitments()[digests_in(
                old(self).log(),
            ).len() as int],
            final(self).fields() == old(self).fields(),
            final(self).commitments() == old(self).commitments(),
    {
        let mut messages = self.take_out();
        if messages.next_commitment >= messages.commitments.len() {
            messages.note_no_digest();
            self.messages = messages;
            return Err(Error::Transcript("no commitment left".to_owned()));
        }
        let digest = messages.commitments[messages.next_commitment];
        messages.pass_commitment(digest);
        self.messages = messages;
        Ok(digest)
    }
}

} // verus!
