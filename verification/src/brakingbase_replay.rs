//! The checks of both codewords that were written are accepted when they are
//! read.

use crate::brakingbase::BrakingBaseVerifierParam;
use crate::brakingbase_checks::{
    decomposition_claims, decomposition_fits, decomposition_passed, decomposition_refused,
    decomposition_went, four_read, mask_check_refused, mask_check_verified, mask_of,
    two_factor_refused, two_factor_value,
};
use crate::brakingbase_open::{columns_claim, opening_events, queries_of};
use crate::brakingbase_run::{column_check_failed, parity_check_failed};
use crate::brakingbase_verify::{
    columns_accepted, columns_check_ok, columns_ended, columns_lead_to, columns_read,
    columns_refused, columns_split_refused, last_misses, parity_ended, parity_read, parity_refused,
    parity_split_refused, BrakingBaseColumnsVerifier, BrakingBaseParityVerifier,
    BrakingBaseVerification, ColumnsRead,
};
use crate::claims::Claim;
use crate::classic_sumcheck::{sumcheck_refused, sumcheck_verified};
use crate::error::Error;
use crate::field::PrimeField;
use crate::hash::HashFunction;
use crate::linear::{ints, rect, vals};
use crate::merkle::{climb, leaf};
use crate::mle::{exp2, log2, mle};
use crate::quasar_replay::{ints_injective, prefix_of_prefix};
use crate::spark::claims_of;
use crate::sumcheck_replay::{accepted_is_not_refused, same_proof_same_end};
use crate::transcript::{
    alike, alike_concat, alike_plain, drawn, follows, same_proof_same_portion, sent_commitments,
    sent_fields, Event,
};
use vstd::prelude::*;

verus! {

/// Columns and paths of one shape are opened in steps of the same kinds, and can
/// be told from their steps.
proof fn opening_events_alike<O>(
    c1: Seq<Seq<int>>,
    p1: Seq<Seq<O>>,
    c2: Seq<Seq<int>>,
    p2: Seq<Seq<O>>,
    k: int,
    n: nat,
    depth: nat,
)
    requires
        0 <= k,
        c1.len() == k,
        c2.len() == k,
        p1.len() >= k,
        p2.len() >= k,
        rect(c1, n),
        rect(c2, n),
        forall|i: int| 0 <= i < k ==> (#[trigger] p1[i]).len() == depth,
        forall|i: int| 0 <= i < k ==> (#[trigger] p2[i]).len() == depth,
    ensures
        alike(opening_events(c1, p1), opening_events(c2, p2)),
        opening_events(c1, p1) == opening_events(c2, p2) ==> c1 == c2 && p1.take(k) == p2.take(k),
    decreases k,
{
    if k > 0 {
        let j = k - 1;
        let (x1, x2) = (c1.drop_last(), c2.drop_last());
        assert(c1[j].len() == n && c2[j].len() == n);
        assert(p1[j].len() == depth && p2[j].len() == depth);
        assert forall|i: int| 0 <= i < j implies (#[trigger] x1[i]).len() == n by {
            assert(x1[i] == c1[i]);
        }
        assert forall|i: int| 0 <= i < j implies (#[trigger] x2[i]).len() == n by {
            assert(x2[i] == c2[i]);
        }
        opening_events_alike(x1, p1, x2, p2, j, n, depth);
        alike_plain(c1[j], c2[j], p1[j], p2[j]);
        let (u, v) = (opening_events(x1, p1), opening_events(x2, p2));
        let (s, t) = (sent_fields::<O>(c1[j]), sent_fields::<O>(c2[j]));
        alike_concat(u, s, v, t);
        alike_concat(u + s, sent_commitments(p1[j]), v + t, sent_commitments(p2[j]));
        if opening_events(c1, p1) == opening_events(c2, p2) {
            assert(c1 =~= x1.push(c1[j]) && c2 =~= x2.push(c2[j]));
            assert(p1.take(k) =~= p1.take(j).push(p1[j]));
            assert(p2.take(k) =~= p2.take(j).push(p2[j]));
        }
    } else {
        assert(c1 =~= c2);
        assert(p1.take(k) =~= p2.take(k));
    }
}

/// The first columns are opened first.
proof fn opening_events_cut<O>(cols: Seq<Seq<int>>, paths: Seq<Seq<O>>, k: int)
    requires
        0 <= k <= cols.len(),
    ensures
        opening_events(cols.take(k), paths).is_prefix_of(opening_events(cols, paths)),
    decreases cols.len(),
{
    if k < cols.len() {
        let c = cols.drop_last();
        opening_events_cut(c, paths, k);
        assert(c.take(k) =~= cols.take(k));
    } else {
        assert(cols.take(k) =~= cols);
    }
}

/// The verifier's states after sampled columns hold the same values.
pub open spec fn same_samples<F: PrimeField>(
    a: BrakingBaseColumnsVerifier<F>,
    b: BrakingBaseColumnsVerifier<F>,
) -> bool {
    &&& a.query_indices@ == b.query_indices@
    &&& vals(a.query_weights@) == vals(b.query_weights@)
    &&& a.eta.val() == b.eta.val()
    &&& a.claim.val() == b.claim.val()
}

/// What was read of sampled columns, and where.
pub open spec fn samples_read<F: PrimeField, H: HashFunction, V, C>(
    vp: BrakingBaseVerifierParam<V, C>,
    root: H::Output,
    state: BrakingBaseVerification<F>,
    out: BrakingBaseColumnsVerifier<F>,
    d: ColumnsRead<H::Output>,
    log: Seq<Event<H::Output>>,
    log0: Seq<Event<H::Output>>,
    log1: Seq<Event<H::Output>>,
) -> bool {
    &&& columns_read(
        d,
        vp.num_queries as nat,
        vp.num_rows as nat,
        log2(vp.codeword_len as int),
        log0 + drawn(vals(out.query_challenges@)),
        log,
    )
    &&& columns_lead_to::<F, H>(d, root, ints(out.query_indices@))
    &&& out.claim.val() == columns_claim::<F>(
        vals(state.proximity_weights@),
        vals(state.row_weights@),
        d.cols,
        vals(out.query_weights@),
        out.eta.val(),
    )
    &&& log1 == log + drawn(vals(out.query_weights@)) + drawn(seq![out.eta.val()])
}

/// Two verifiers that go through one proof behind the same steps sample the same
/// columns.
#[verifier::rlimit(40)]
#[verifier::spinoff_prover]
pub proof fn same_proof_same_samples<F: PrimeField, H: HashFunction, V, C>(
    vp: BrakingBaseVerifierParam<V, C>,
    root: H::Output,
    state: BrakingBaseVerification<F>,
    out1: BrakingBaseColumnsVerifier<F>,
    a1: Seq<Event<H::Output>>,
    out2: BrakingBaseColumnsVerifier<F>,
    b1: Seq<Event<H::Output>>,
    log0: Seq<Event<H::Output>>,
    a: Seq<Event<H::Output>>,
    b: Seq<Event<H::Output>>,
    fields: Seq<int>,
    digests: Seq<H::Output>,
)
    requires
        out1.wf(vp),
        out2.wf(vp),
        columns_accepted::<F, H, V, C>(vp, root, state, out1, log0, a1),
        columns_accepted::<F, H, V, C>(vp, root, state, out2, log0, b1),
        a1.is_prefix_of(a),
        b1.is_prefix_of(b),
        follows::<F, H>(a, fields, digests),
        follows::<F, H>(b, fields, digests),
    ensures
        same_samples(out1, out2),
        a1 == b1,
{
    let (d1, l1) = choose|d: ColumnsRead<H::Output>, l: Seq<Event<H::Output>>|
        samples_read::<F, H, V, C>(vp, root, state, out1, d, l, log0, a1);
    let (d2, l2) = choose|d: ColumnsRead<H::Output>, l: Seq<Event<H::Output>>|
        samples_read::<F, H, V, C>(vp, root, state, out2, d, l, log0, b1);
    samples_found::<F, H, V, C>(vp, root, state, out1, log0, a1);
    samples_found::<F, H, V, C>(vp, root, state, out2, log0, b1);
    let n = vp.num_rows as nat;
    let k = vp.num_queries as int;
    let depth = log2(vp.codeword_len as int);
    let (ch1, ch2) = (vals(out1.query_challenges@), vals(out2.query_challenges@));
    let (w1, w2) = (vals(out1.query_weights@), vals(out2.query_weights@));
    let (e1, e2) = (seq![out1.eta.val()], seq![out2.eta.val()]);
    let (x1, x2) = (drawn::<H::Output>(ch1), drawn::<H::Output>(ch2));
    let (y1, y2) = (opening_events(d1.cols, d1.paths), opening_events(d2.cols, d2.paths));
    let (z1, z2) = (drawn::<H::Output>(w1), drawn::<H::Output>(w2));
    let (u1, u2) = (drawn::<H::Output>(e1), drawn::<H::Output>(e2));
    assert(ch1.len() == ch2.len() && w1.len() == w2.len());
    alike_plain::<H::Output>(ch1, ch2, Seq::empty(), Seq::empty());
    opening_events_alike(d1.cols, d1.paths, d2.cols, d2.paths, k, n, depth);
    alike_plain::<H::Output>(w1, w2, Seq::empty(), Seq::empty());
    alike_plain::<H::Output>(e1, e2, Seq::empty(), Seq::empty());
    alike_concat(x1, y1, x2, y2);
    alike_concat(x1 + y1, z1, x2 + y2, z2);
    alike_concat(x1 + y1 + z1, u1, x2 + y2 + z2, u2);
    assert(a1 =~= log0 + (x1 + y1 + z1 + u1));
    assert(b1 =~= log0 + (x2 + y2 + z2 + u2));
    same_proof_same_portion::<F, H>(
        log0,
        x1 + y1 + z1 + u1,
        x2 + y2 + z2 + u2,
        a,
        b,
        fields,
        digests,
    );
    assert(e1[0] == e2[0]);
    ints_injective(out1.query_indices@, out2.query_indices@);
}

/// Accepted columns were read somewhere.
proof fn samples_found<F: PrimeField, H: HashFunction, V, C>(
    vp: BrakingBaseVerifierParam<V, C>,
    root: H::Output,
    state: BrakingBaseVerification<F>,
    out: BrakingBaseColumnsVerifier<F>,
    log0: Seq<Event<H::Output>>,
    log1: Seq<Event<H::Output>>,
)
    requires
        columns_accepted::<F, H, V, C>(vp, root, state, out, log0, log1),
    ensures
        exists|d: ColumnsRead<H::Output>, l: Seq<Event<H::Output>>| #[trigger]
            samples_read::<F, H, V, C>(vp, root, state, out, d, l, log0, log1),
{
    let (d, l) = choose|d: ColumnsRead<H::Output>, l: Seq<Event<H::Output>>|
        {
            &&& #[trigger] columns_read(
                d,
                vp.num_queries as nat,
                vp.num_rows as nat,
                log2(vp.codeword_len as int),
                log0 + drawn(vals(out.query_challenges@)),
                l,
            )
            &&& columns_lead_to::<F, H>(d, root, ints(out.query_indices@))
            &&& out.claim.val() == columns_claim::<F>(
                vals(state.proximity_weights@),
                vals(state.row_weights@),
                d.cols,
                vals(out.query_weights@),
                out.eta.val(),
            )
            &&& log1 == l + drawn(vals(out.query_weights@)) + drawn(seq![out.eta.val()])
        };
    assert(samples_read::<F, H, V, C>(vp, root, state, out, d, l, log0, log1));
}

/// Where one verifier read columns that lead to the root, another one that goes
/// through the same proof behind the same steps finds none that does not.
#[verifier::rlimit(60)]
#[verifier::spinoff_prover]
pub proof fn samples_are_not_refused<F: PrimeField, H: HashFunction, V, C>(
    vp: BrakingBaseVerifierParam<V, C>,
    root: H::Output,
    state: BrakingBaseVerification<F>,
    out: BrakingBaseColumnsVerifier<F>,
    a1: Seq<Event<H::Output>>,
    log0: Seq<Event<H::Output>>,
    a: Seq<Event<H::Output>>,
    b: Seq<Event<H::Output>>,
    fields: Seq<int>,
    digests: Seq<H::Output>,
)
    requires
        out.wf(vp),
        columns_accepted::<F, H, V, C>(vp, root, state, out, log0, a1),
        a1.is_prefix_of(a),
        follows::<F, H>(a, fields, digests),
        follows::<F, H>(b, fields, digests),
    ensures
        !columns_refused::<F, H, V, C>(vp, root, log0, b),
{
    if columns_refused::<F, H, V, C>(vp, root, log0, b) {
        samples_found::<F, H, V, C>(vp, root, state, out, log0, a1);
        let (d, l) = choose|d: ColumnsRead<H::Output>, l: Seq<Event<H::Output>>| #[trigger]
            samples_read::<F, H, V, C>(vp, root, state, out, d, l, log0, a1);
        let n = vp.num_rows as nat;
        let depth = log2(vp.codeword_len as int);
        let (ch2, d2, k2) = choose|ch2: Seq<int>, d2: ColumnsRead<H::Output>, k2: nat|
            {
                &&& k2 <= vp.num_queries
                &&& ch2.len() == vp.num_queries
                &&& #[trigger] columns_read(d2, k2, n, depth, log0 + drawn(ch2), b)
                &&& last_misses::<F, H>(
                    d2,
                    root,
                    queries_of::<F>(ch2, vp.codeword_len as int),
                )
            };
        let k = k2 as int;
        let ch = vals(out.query_challenges@);
        let c = d.cols.take(k);
        opening_events_cut(d.cols, d.paths, k);
        assert forall|i: int| 0 <= i < k implies (#[trigger] c[i]).len() == n by {
            assert(c[i] == d.cols[i]);
        }
        let (x1, x2) = (drawn::<H::Output>(ch), drawn::<H::Output>(ch2));
        let (y1, y2) = (opening_events(c, d.paths), opening_events(d2.cols, d2.paths));
        assert(ch.len() == ch2.len());
        alike_plain::<H::Output>(ch, ch2, Seq::empty(), Seq::empty());
        opening_events_alike(c, d.paths, d2.cols, d2.paths, k, n, depth);
        alike_concat(x1, y1, x2, y2);
        let start = log0 + x1;
        assert((start + y1).is_prefix_of(start + opening_events(d.cols, d.paths)));
        assert(log0 + (x1 + y1) =~= start + y1);
        assert(log0 + (x2 + y2) =~= b);
        prefix_of_prefix(l, a1, a);
        prefix_of_prefix(log0 + (x1 + y1), l, a);
        same_proof_same_portion::<F, H>(log0, x1 + y1, x2 + y2, a, b, fields, digests);
        let q = queries_of::<F>(ch2, vp.codeword_len as int);
        assert forall|i: int| 0 <= i < d2.cols.len() implies climb::<H>(
            leaf::<F, H>(#[trigger] d2.cols[i]),
            d2.paths[i],
            q[i],
        ) == root by {
            assert(d2.cols[i] == d.cols[i]);
            assert(d.paths.take(k)[i] == d2.paths.take(k)[i]);
        }
    }
}

/// Two verifiers of a mask that go through one proof behind the same steps end in
/// the same way.
proof fn same_proof_same_mask_check<F: PrimeField, H: HashFunction>(
    q: Seq<int>,
    w: Seq<int>,
    eta: int,
    sum: int,
    z1: Seq<int>,
    v1: Seq<int>,
    a1: Seq<Event<H::Output>>,
    z2: Seq<int>,
    v2: Seq<int>,
    b1: Seq<Event<H::Output>>,
    log0: Seq<Event<H::Output>>,
    a: Seq<Event<H::Output>>,
    b: Seq<Event<H::Output>>,
    fields: Seq<int>,
    digests: Seq<H::Output>,
)
    requires
        z1.len() == z2.len(),
        mask_check_verified::<F, H::Output>(q, w, eta, sum, z1, v1, log0, a1),
        mask_check_verified::<F, H::Output>(q, w, eta, sum, z2, v2, log0, b1),
        a1.is_prefix_of(a),
        b1.is_prefix_of(b),
        follows::<F, H>(a, fields, digests),
        follows::<F, H>(b, fields, digests),
    ensures
        z1 == z2,
        v1[1] == v2[1],
        v1[2] == v2[2],
        a1 == b1,
{
    let n = z1.len();
    let (t1, m1) = choose|terminal: int, mid: Seq<Event<H::Output>>|
        {
            &&& #[trigger] sumcheck_verified::<F, H::Output>(n, 2, sum, terminal, z1, log0, mid)
            &&& v1[0] == mle::<F>(mask_of::<F>(q, w, exp2(n)), z1)
            &&& terminal == two_factor_value::<F>(v1[0], v1[1], v1[2], eta)
            &&& a1 == mid + sent_fields(seq![v1[1], v1[2]])
        };
    let (t2, m2) = choose|terminal: int, mid: Seq<Event<H::Output>>|
        {
            &&& #[trigger] sumcheck_verified::<F, H::Output>(n, 2, sum, terminal, z2, log0, mid)
            &&& v2[0] == mle::<F>(mask_of::<F>(q, w, exp2(n)), z2)
            &&& terminal == two_factor_value::<F>(v2[0], v2[1], v2[2], eta)
            &&& b1 == mid + sent_fields(seq![v2[1], v2[2]])
        };
    let (s1, s2) = (seq![v1[1], v1[2]], seq![v2[1], v2[2]]);
    prefix_of_prefix(m1, a1, a);
    prefix_of_prefix(m2, b1, b);
    same_proof_same_end::<F, H>(
        n,
        2,
        sum,
        t1,
        z1,
        t2,
        z2,
        log0,
        m1,
        m2,
        a,
        b,
        fields,
        digests,
    );
    alike_plain::<H::Output>(s1, s2, Seq::empty(), Seq::empty());
    same_proof_same_portion::<F, H>(
        m1,
        sent_fields::<H::Output>(s1),
        sent_fields::<H::Output>(s2),
        a,
        b,
        fields,
        digests,
    );
    assert(s1[0] == s2[0] && s1[1] == s2[1]);
}

/// Two verifiers that go through one proof behind the same steps read the same
/// halves.
proof fn same_proof_same_halves<F: PrimeField, H: HashFunction>(
    v1: Seq<int>,
    a1: Seq<Event<H::Output>>,
    v2: Seq<int>,
    b1: Seq<Event<H::Output>>,
    log0: Seq<Event<H::Output>>,
    a: Seq<Event<H::Output>>,
    b: Seq<Event<H::Output>>,
    fields: Seq<int>,
    digests: Seq<H::Output>,
)
    requires
        four_read(log0, a1, v1),
        four_read(log0, b1, v2),
        a1.is_prefix_of(a),
        b1.is_prefix_of(b),
        follows::<F, H>(a, fields, digests),
        follows::<F, H>(b, fields, digests),
    ensures
        v1 == v2,
        a1 == b1,
{
    alike_plain::<H::Output>(v1, v2, Seq::empty(), Seq::empty());
    same_proof_same_portion::<F, H>(
        log0,
        sent_fields::<H::Output>(v1),
        sent_fields::<H::Output>(v2),
        a,
        b,
        fields,
        digests,
    );
}

/// Two verifiers of the halves that go through one proof behind the same steps
/// make the same claims.
proof fn same_proof_same_split<F: PrimeField, H: HashFunction>(
    z: Seq<int>,
    p: int,
    q: int,
    aux_vars: nat,
    claims1: Seq<Claim>,
    a1: Seq<Event<H::Output>>,
    claims2: Seq<Claim>,
    b1: Seq<Event<H::Output>>,
    log0: Seq<Event<H::Output>>,
    a: Seq<Event<H::Output>>,
    b: Seq<Event<H::Output>>,
    fields: Seq<int>,
    digests: Seq<H::Output>,
)
    requires
        decomposition_passed::<F, H::Output>(z, p, q, aux_vars, claims1, log0, a1),
        decomposition_passed::<F, H::Output>(z, p, q, aux_vars, claims2, log0, b1),
        a1.is_prefix_of(a),
        b1.is_prefix_of(b),
        follows::<F, H>(a, fields, digests),
        follows::<F, H>(b, fields, digests),
    ensures
        claims1 == claims2,
        a1 == b1,
{
    let v1 = choose|v: Seq<int>|
        {
            &&& #[trigger] four_read(log0, a1, v)
            &&& decomposition_fits::<F>(z.last(), p, q, v)
            &&& claims1 == decomposition_claims(z, aux_vars, v)
        };
    let v2 = choose|v: Seq<int>|
        {
            &&& #[trigger] four_read(log0, b1, v)
            &&& decomposition_fits::<F>(z.last(), p, q, v)
            &&& claims2 == decomposition_claims(z, aux_vars, v)
        };
    same_proof_same_halves::<F, H>(v1, a1, v2, b1, log0, a, b, fields, digests);
}

/// Where one verifier accepted the halves, another one that goes through the same
/// proof behind the same steps does not refuse them.
proof fn split_is_not_refused<F: PrimeField, H: HashFunction>(
    z: Seq<int>,
    p: int,
    q: int,
    aux_vars: nat,
    claims: Seq<Claim>,
    a1: Seq<Event<H::Output>>,
    log0: Seq<Event<H::Output>>,
    a: Seq<Event<H::Output>>,
    b: Seq<Event<H::Output>>,
    fields: Seq<int>,
    digests: Seq<H::Output>,
)
    requires
        decomposition_passed::<F, H::Output>(z, p, q, aux_vars, claims, log0, a1),
        a1.is_prefix_of(a),
        follows::<F, H>(a, fields, digests),
        follows::<F, H>(b, fields, digests),
    ensures
        !decomposition_refused::<F, H::Output>(z, p, q, log0, b),
{
    if decomposition_refused::<F, H::Output>(z, p, q, log0, b) {
        let v1 = choose|v: Seq<int>|
            {
                &&& #[trigger] four_read(log0, a1, v)
                &&& decomposition_fits::<F>(z.last(), p, q, v)
                &&& claims == decomposition_claims(z, aux_vars, v)
            };
        let v2 = choose|v: Seq<int>|
            {
                &&& #[trigger] four_read(log0, b, v)
                &&& !decomposition_fits::<F>(z.last(), p, q, v)
            };
        same_proof_same_halves::<F, H>(v1, a1, v2, b, log0, a, b, fields, digests);
    }
}

/// Two verifiers of the sampled columns that go through one proof behind the same
/// steps end in the same way.
#[verifier::rlimit(60)]
#[verifier::spinoff_prover]
pub proof fn same_proof_same_column_check<F: PrimeField, H: HashFunction>(
    cols1: BrakingBaseColumnsVerifier<F>,
    out1: BrakingBaseParityVerifier<F>,
    a1: Seq<Event<H::Output>>,
    cols2: BrakingBaseColumnsVerifier<F>,
    out2: BrakingBaseParityVerifier<F>,
    b1: Seq<Event<H::Output>>,
    aux_vars: nat,
    log0: Seq<Event<H::Output>>,
    a: Seq<Event<H::Output>>,
    b: Seq<Event<H::Output>>,
    fields: Seq<int>,
    digests: Seq<H::Output>,
)
    requires
        same_samples(cols1, cols2),
        out1.beta@.len() == out2.beta@.len(),
        out1.parity_point@.len() == out2.parity_point@.len(),
        columns_ended::<F, H::Output>(cols1, aux_vars, out1, log0, a1),
        columns_ended::<F, H::Output>(cols2, aux_vars, out2, log0, b1),
        a1.is_prefix_of(a),
        b1.is_prefix_of(b),
        follows::<F, H>(a, fields, digests),
        follows::<F, H>(b, fields, digests),
    ensures
        vals(out1.beta@) == vals(out2.beta@),
        claims_of(out1.claims@) == claims_of(out2.claims@),
        vals(out1.parity_point@) == vals(out2.parity_point@),
        out1.eta.val() == out2.eta.val(),
        a1 == b1,
{
    let (z1, z2) = (vals(out1.beta@), vals(out2.beta@));
    let (y1, y2) = (vals(out1.parity_point@), vals(out2.parity_point@));
    let (e1, e2) = (seq![out1.eta.val()], seq![out2.eta.val()]);
    let (c1, c2) = (claims_of(out1.claims@), claims_of(out2.claims@));
    let (v1, m1, n1) = choose|
        v: Seq<int>,
        m: Seq<Event<H::Output>>,
        n: Seq<Event<H::Output>>,
    |
        {
            &&& #[trigger] columns_check_ok::<F, H::Output>(cols1, z1, v, log0, m)
            &&& #[trigger] decomposition_passed::<F, H::Output>(
                z1,
                v[1],
                v[2],
                aux_vars,
                c1,
                m,
                n,
            )
            &&& a1 == n + drawn(y1) + drawn(e1)
        };
    let (v2, m2, n2) = choose|
        v: Seq<int>,
        m: Seq<Event<H::Output>>,
        n: Seq<Event<H::Output>>,
    |
        {
            &&& #[trigger] columns_check_ok::<F, H::Output>(cols2, z2, v, log0, m)
            &&& #[trigger] decomposition_passed::<F, H::Output>(
                z2,
                v[1],
                v[2],
                aux_vars,
                c2,
                m,
                n,
            )
            &&& b1 == n + drawn(y2) + drawn(e2)
        };
    decomposition_went::<F, H::Output>(z1, v1[1], v1[2], aux_vars, c1, m1, n1);
    decomposition_went::<F, H::Output>(z2, v2[1], v2[2], aux_vars, c2, m2, n2);
    prefix_of_prefix(n1, a1, a);
    prefix_of_prefix(n2, b1, b);
    prefix_of_prefix(m1, n1, a);
    prefix_of_prefix(m2, n2, b);
    assert(z1.len() == z2.len());
    same_proof_same_mask_check::<F, H>(
        ints(cols1.query_indices@),
        vals(cols1.query_weights@),
        cols1.eta.val(),
        cols1.claim.val(),
        z1,
        v1,
        m1,
        z2,
        v2,
        m2,
        log0,
        a,
        b,
        fields,
        digests,
    );
    same_proof_same_split::<F, H>(
        z1,
        v1[1],
        v1[2],
        aux_vars,
        c1,
        n1,
        c2,
        n2,
        m1,
        a,
        b,
        fields,
        digests,
    );
    let (x1, x2) = (drawn::<H::Output>(y1), drawn::<H::Output>(y2));
    let (u1, u2) = (drawn::<H::Output>(e1), drawn::<H::Output>(e2));
    assert(y1.len() == y2.len());
    alike_plain::<H::Output>(y1, y2, Seq::empty(), Seq::empty());
    alike_plain::<H::Output>(e1, e2, Seq::empty(), Seq::empty());
    alike_concat(x1, u1, x2, u2);
    assert(a1 =~= n1 + (x1 + u1));
    assert(b1 =~= n2 + (x2 + u2));
    same_proof_same_portion::<F, H>(n1, x1 + u1, x2 + u2, a, b, fields, digests);
    assert(e1[0] == e2[0]);
}

/// Where one verifier accepted the sampled columns, another one that goes through
/// the same proof behind the same steps does not fail there.
#[verifier::rlimit(60)]
#[verifier::spinoff_prover]
pub proof fn column_check_does_not_fail<F: PrimeField, H: HashFunction, V, C>(
    vp: BrakingBaseVerifierParam<V, C>,
    cols: BrakingBaseColumnsVerifier<F>,
    out: BrakingBaseParityVerifier<F>,
    a1: Seq<Event<H::Output>>,
    cols2: BrakingBaseColumnsVerifier<F>,
    e: Error,
    log0: Seq<Event<H::Output>>,
    a: Seq<Event<H::Output>>,
    b: Seq<Event<H::Output>>,
    fields: Seq<int>,
    digests: Seq<H::Output>,
)
    requires
        same_samples(cols, cols2),
        out.beta@.len() == log2(vp.codeword_len as int),
        columns_ended::<F, H::Output>(cols, log2(vp.aux_len as int), out, log0, a1),
        a1.is_prefix_of(a),
        follows::<F, H>(a, fields, digests),
        follows::<F, H>(b, fields, digests),
    ensures
        !column_check_failed::<F, H::Output, V, C>(vp, cols2, e, log0, b),
{
    let n = log2(vp.codeword_len as int);
    let aux_vars = log2(vp.aux_len as int);
    let z = vals(out.beta@);
    let (y, eta) = (vals(out.parity_point@), seq![out.eta.val()]);
    let claims = claims_of(out.claims@);
    let q = ints(cols.query_indices@);
    let w = vals(cols.query_weights@);
    let sum = cols.claim.val();
    let (v, m, l) = choose|v: Seq<int>, m: Seq<Event<H::Output>>, l: Seq<Event<H::Output>>|
        {
            &&& #[trigger] columns_check_ok::<F, H::Output>(cols, z, v, log0, m)
            &&& #[trigger] decomposition_passed::<F, H::Output>(
                z,
                v[1],
                v[2],
                aux_vars,
                claims,
                m,
                l,
            )
            &&& a1 == l + drawn(y) + drawn(eta)
        };
    decomposition_went::<F, H::Output>(z, v[1], v[2], aux_vars, claims, m, l);
    prefix_of_prefix(l, a1, a);
    prefix_of_prefix(m, l, a);
    assert(z.len() == n);
    mask_check_is_not_refused::<F, H>(
        n,
        q,
        w,
        cols.eta.val(),
        sum,
        z,
        v,
        m,
        log0,
        a,
        b,
        fields,
        digests,
    );
    if columns_split_refused::<F, H::Output>(cols2, n, log0, b) {
        let (z2, v2, m2) = choose|z2: Seq<int>, v2: Seq<int>, m2: Seq<Event<H::Output>>|
            {
                &&& z2.len() == n
                &&& #[trigger] columns_check_ok::<F, H::Output>(cols2, z2, v2, log0, m2)
                &&& decomposition_refused::<F, H::Output>(z2, v2[1], v2[2], m2, b)
            };
        same_proof_same_mask_check::<F, H>(
            q,
            w,
            cols.eta.val(),
            sum,
            z,
            v,
            m,
            z2,
            v2,
            m2,
            log0,
            a,
            b,
            fields,
            digests,
        );
        split_is_not_refused::<F, H>(
            z,
            v[1],
            v[2],
            aux_vars,
            claims,
            l,
            m,
            a,
            b,
            fields,
            digests,
        );
    }
}

/// Where one verifier accepted a mask, another one that goes through the same
/// proof behind the same steps does not refuse it.
#[verifier::rlimit(60)]
#[verifier::spinoff_prover]
proof fn mask_check_is_not_refused<F: PrimeField, H: HashFunction>(
    n: nat,
    q: Seq<int>,
    w: Seq<int>,
    eta: int,
    sum: int,
    z: Seq<int>,
    v: Seq<int>,
    a1: Seq<Event<H::Output>>,
    log0: Seq<Event<H::Output>>,
    a: Seq<Event<H::Output>>,
    b: Seq<Event<H::Output>>,
    fields: Seq<int>,
    digests: Seq<H::Output>,
)
    requires
        z.len() == n,
        mask_check_verified::<F, H::Output>(q, w, eta, sum, z, v, log0, a1),
        a1.is_prefix_of(a),
        follows::<F, H>(a, fields, digests),
        follows::<F, H>(b, fields, digests),
    ensures
        !sumcheck_refused::<F, H::Output>(n, 2, sum, log0, b),
        !mask_check_refused::<F, H::Output>(n, q, w, eta, sum, log0, b),
{
    let (t, m) = choose|terminal: int, mid: Seq<Event<H::Output>>|
        {
            &&& #[trigger] sumcheck_verified::<F, H::Output>(n, 2, sum, terminal, z, log0, mid)
            &&& v[0] == mle::<F>(mask_of::<F>(q, w, exp2(n)), z)
            &&& terminal == two_factor_value::<F>(v[0], v[1], v[2], eta)
            &&& a1 == mid + sent_fields(seq![v[1], v[2]])
        };
    prefix_of_prefix(m, a1, a);
    accepted_is_not_refused::<F, H>(n, 2, sum, t, z, log0, m, a, b, fields, digests);
    if mask_check_refused::<F, H::Output>(n, q, w, eta, sum, log0, b) {
        let (t2, z2, m2) = choose|t2: int, z2: Seq<int>, m2: Seq<Event<H::Output>>|
            {
                &&& #[trigger] sumcheck_verified::<F, H::Output>(n, 2, sum, t2, z2, log0, m2)
                &&& two_factor_refused::<F, H::Output>(
                    t2,
                    mle::<F>(mask_of::<F>(q, w, exp2(n)), z2),
                    eta,
                    m2,
                    b,
                )
            };
        let pq = choose|pq: Seq<int>|
            {
                &&& pq.len() == 2
                &&& b == m2 + #[trigger] sent_fields::<H::Output>(pq)
                &&& t2 != two_factor_value::<F>(
                    mle::<F>(mask_of::<F>(q, w, exp2(n)), z2),
                    pq[0],
                    pq[1],
                    eta,
                )
            };
        same_proof_same_end::<F, H>(
            n,
            2,
            sum,
            t,
            z,
            t2,
            z2,
            log0,
            m,
            m2,
            a,
            b,
            fields,
            digests,
        );
        let s = seq![v[1], v[2]];
        alike_plain::<H::Output>(s, pq, Seq::empty(), Seq::empty());
        same_proof_same_portion::<F, H>(
            m,
            sent_fields::<H::Output>(s),
            sent_fields::<H::Output>(pq),
            a,
            b,
            fields,
            digests,
        );
        assert(s[0] == pq[0] && s[1] == pq[1]);
    }
}

/// Two verifiers that go through one proof behind the same steps end the sum-check
/// over the parity-check matrix in the same way.
proof fn same_proof_same_parity_read<F: PrimeField, H: HashFunction>(
    z1: Seq<int>,
    t1: int,
    v1: Seq<int>,
    a1: Seq<Event<H::Output>>,
    z2: Seq<int>,
    t2: int,
    v2: Seq<int>,
    b1: Seq<Event<H::Output>>,
    log0: Seq<Event<H::Output>>,
    a: Seq<Event<H::Output>>,
    b: Seq<Event<H::Output>>,
    fields: Seq<int>,
    digests: Seq<H::Output>,
)
    requires
        z1.len() == z2.len(),
        parity_read::<F, H::Output>(z1, t1, v1, log0, a1),
        parity_read::<F, H::Output>(z2, t2, v2, log0, b1),
        a1.is_prefix_of(a),
        b1.is_prefix_of(b),
        follows::<F, H>(a, fields, digests),
        follows::<F, H>(b, fields, digests),
    ensures
        z1 == z2,
        t1 == t2,
        v1 == v2,
        a1 == b1,
{
    let n = z1.len();
    let m1 = choose|mid: Seq<Event<H::Output>>|
        {
            &&& v1.len() == 3
            &&& #[trigger] sumcheck_verified::<F, H::Output>(n, 2, 0, t1, z1, log0, mid)
            &&& a1 == mid + sent_fields(v1)
        };
    let m2 = choose|mid: Seq<Event<H::Output>>|
        {
            &&& v2.len() == 3
            &&& #[trigger] sumcheck_verified::<F, H::Output>(n, 2, 0, t2, z2, log0, mid)
            &&& b1 == mid + sent_fields(v2)
        };
    prefix_of_prefix(m1, a1, a);
    prefix_of_prefix(m2, b1, b);
    same_proof_same_end::<F, H>(
        n,
        2,
        0,
        t1,
        z1,
        t2,
        z2,
        log0,
        m1,
        m2,
        a,
        b,
        fields,
        digests,
    );
    alike_plain::<H::Output>(v1, v2, Seq::empty(), Seq::empty());
    same_proof_same_portion::<F, H>(
        m1,
        sent_fields::<H::Output>(v1),
        sent_fields::<H::Output>(v2),
        a,
        b,
        fields,
        digests,
    );
}

/// Two verifiers of the parity check that go through one proof behind the same
/// steps end in the same way.
pub proof fn same_proof_same_parity_check<F: PrimeField, H: HashFunction>(
    eta: int,
    aux_vars: nat,
    z1: Seq<int>,
    h1: int,
    claims1: Seq<Claim>,
    a1: Seq<Event<H::Output>>,
    z2: Seq<int>,
    h2: int,
    claims2: Seq<Claim>,
    b1: Seq<Event<H::Output>>,
    log0: Seq<Event<H::Output>>,
    a: Seq<Event<H::Output>>,
    b: Seq<Event<H::Output>>,
    fields: Seq<int>,
    digests: Seq<H::Output>,
)
    requires
        z1.len() == z2.len(),
        parity_ended::<F, H::Output>(eta, z1, aux_vars, h1, claims1, log0, a1),
        parity_ended::<F, H::Output>(eta, z2, aux_vars, h2, claims2, log0, b1),
        a1.is_prefix_of(a),
        b1.is_prefix_of(b),
        follows::<F, H>(a, fields, digests),
        follows::<F, H>(b, fields, digests),
    ensures
        z1 == z2,
        h1 == h2,
        claims1 == claims2,
        a1 == b1,
{
    let (t1, v1, m1) = choose|t: int, v: Seq<int>, m: Seq<Event<H::Output>>|
        {
            &&& #[trigger] parity_read::<F, H::Output>(z1, t, v, log0, m)
            &&& v[2] == h1
            &&& t == two_factor_value::<F>(h1, v[0], v[1], eta)
            &&& decomposition_passed::<F, H::Output>(z1, v[0], v[1], aux_vars, claims1, m, a1)
        };
    let (t2, v2, m2) = choose|t: int, v: Seq<int>, m: Seq<Event<H::Output>>|
        {
            &&& #[trigger] parity_read::<F, H::Output>(z2, t, v, log0, m)
            &&& v[2] == h2
            &&& t == two_factor_value::<F>(h2, v[0], v[1], eta)
            &&& decomposition_passed::<F, H::Output>(z2, v[0], v[1], aux_vars, claims2, m, b1)
        };
    decomposition_went::<F, H::Output>(z1, v1[0], v1[1], aux_vars, claims1, m1, a1);
    decomposition_went::<F, H::Output>(z2, v2[0], v2[1], aux_vars, claims2, m2, b1);
    prefix_of_prefix(m1, a1, a);
    prefix_of_prefix(m2, b1, b);
    same_proof_same_parity_read::<F, H>(
        z1,
        t1,
        v1,
        m1,
        z2,
        t2,
        v2,
        m2,
        log0,
        a,
        b,
        fields,
        digests,
    );
    same_proof_same_split::<F, H>(
        z1,
        v1[0],
        v1[1],
        aux_vars,
        claims1,
        a1,
        claims2,
        b1,
        m1,
        a,
        b,
        fields,
        digests,
    );
}

/// Where one verifier accepted the parity check, another one that goes through the
/// same proof behind the same steps does not fail there.
#[verifier::rlimit(60)]
#[verifier::spinoff_prover]
pub proof fn parity_check_does_not_fail<F: PrimeField, H: HashFunction, V, C>(
    vp: BrakingBaseVerifierParam<V, C>,
    eta: int,
    z: Seq<int>,
    h: int,
    claims: Seq<Claim>,
    a1: Seq<Event<H::Output>>,
    e: Error,
    log0: Seq<Event<H::Output>>,
    a: Seq<Event<H::Output>>,
    b: Seq<Event<H::Output>>,
    fields: Seq<int>,
    digests: Seq<H::Output>,
)
    requires
        z.len() == log2(vp.codeword_len as int),
        parity_ended::<F, H::Output>(eta, z, log2(vp.aux_len as int), h, claims, log0, a1),
        a1.is_prefix_of(a),
        follows::<F, H>(a, fields, digests),
        follows::<F, H>(b, fields, digests),
    ensures
        !parity_check_failed::<F, H::Output, V, C>(vp, eta, e, log0, b),
{
    let n = log2(vp.codeword_len as int);
    let aux_vars = log2(vp.aux_len as int);
    let (t, v, m) = choose|t: int, v: Seq<int>, m: Seq<Event<H::Output>>|
        {
            &&& #[trigger] parity_read::<F, H::Output>(z, t, v, log0, m)
            &&& v[2] == h
            &&& t == two_factor_value::<F>(h, v[0], v[1], eta)
            &&& decomposition_passed::<F, H::Output>(z, v[0], v[1], aux_vars, claims, m, a1)
        };
    let l = choose|mid: Seq<Event<H::Output>>|
        {
            &&& v.len() == 3
            &&& #[trigger] sumcheck_verified::<F, H::Output>(z.len(), 2, 0, t, z, log0, mid)
            &&& m == mid + sent_fields(v)
        };
    decomposition_went::<F, H::Output>(z, v[0], v[1], aux_vars, claims, m, a1);
    prefix_of_prefix(m, a1, a);
    prefix_of_prefix(l, m, a);
    accepted_is_not_refused::<F, H>(n, 2, 0, t, z, log0, l, a, b, fields, digests);
    if parity_refused::<F, H::Output>(eta, n, log0, b) {
        let (z2, t2, v2) = choose|z2: Seq<int>, t2: int, v2: Seq<int>|
            {
                &&& z2.len() == n
                &&& #[trigger] parity_read::<F, H::Output>(z2, t2, v2, log0, b)
                &&& t2 != two_factor_value::<F>(v2[2], v2[0], v2[1], eta)
            };
        same_proof_same_parity_read::<F, H>(
            z,
            t,
            v,
            m,
            z2,
            t2,
            v2,
            b,
            log0,
            a,
            b,
            fields,
            digests,
        );
    }
    if parity_split_refused::<F, H::Output>(eta, n, log0, b) {
        let (z2, t2, v2, m2) = choose|
            z2: Seq<int>,
            t2: int,
            v2: Seq<int>,
            m2: Seq<Event<H::Output>>,
        |
            {
                &&& z2.len() == n
                &&& #[trigger] parity_read::<F, H::Output>(z2, t2, v2, log0, m2)
                &&& t2 == two_factor_value::<F>(v2[2], v2[0], v2[1], eta)
                &&& decomposition_refused::<F, H::Output>(z2, v2[0], v2[1], m2, b)
            };
        same_proof_same_parity_read::<F, H>(
            z,
            t,
            v,
            m,
            z2,
            t2,
            v2,
            m2,
            log0,
            a,
            b,
            fields,
            digests,
        );
        split_is_not_refused::<F, H>(
            z,
            v[0],
            v[1],
            aux_vars,
            claims,
            a1,
            m,
            a,
            b,
            fields,
            digests,
        );
    }
}

} // verus!
