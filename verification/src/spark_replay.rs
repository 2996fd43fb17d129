//! An evaluation proof of a sparse matrix that was written is accepted when it is
//! read.

use crate::claims::Claim;
use crate::classic_sumcheck::{sumcheck_refused, sumcheck_verified, sumcheck_went};
use crate::error::Error;
use crate::field::PrimeField;
use crate::hash::HashFunction;
use crate::linear::dot;
use crate::products::{
    layer_reduced, layer_run_accepted, layer_run_refused, layer_unverified, layer_verified,
    layer_went, layers_went, products_fields, products_refused, products_verified, reduced_went,
    LayerRun,
};
use crate::quasar_replay::{prefix_of_prefix, refused_extends};
use crate::spark::{
    balanced, mem_accepted, mem_refused, ops_accepted, ops_refused, spark_accepted, spark_claims,
    spark_fields, spark_run_accepted, spark_run_refused, triple_accepted, triple_fields,
    triple_refused, triple_unverified, triple_verified, values_read, SparkOffsets, SparkRead,
};
use crate::sumcheck_replay::{accepted_is_not_refused, same_proof_same_end};
use crate::transcript::{
    alike_concat, alike_plain, drawn, follows, same_proof_same_portion, sent_fields, went, went_on,
    went_plain, Event,
};
use vstd::prelude::*;

verus! {

/// Two verifiers that go through one proof behind the same steps draw the same
/// weights and end the sum-check of a layer in the same way.
proof fn same_proof_same_reduction<F: PrimeField, H: HashFunction>(
    claims: Seq<int>,
    point: Seq<int>,
    z1: Seq<int>,
    r1: LayerRun<H::Output>,
    z2: Seq<int>,
    r2: LayerRun<H::Output>,
    log0: Seq<Event<H::Output>>,
    a: Seq<Event<H::Output>>,
    b: Seq<Event<H::Output>>,
    fields: Seq<int>,
    digests: Seq<H::Output>,
)
    requires
        layer_reduced::<F, H::Output>(claims, point, z1, r1, log0),
        layer_reduced::<F, H::Output>(claims, point, z2, r2, log0),
        r1.log.is_prefix_of(a),
        r2.log.is_prefix_of(b),
        follows::<F, H>(a, fields, digests),
        follows::<F, H>(b, fields, digests),
    ensures
        z1 == z2,
        r1.coeffs == r2.coeffs,
        r1.terminal == r2.terminal,
        r1.log == r2.log,
{
    let n = point.len();
    let (s1, s2) = (log0 + drawn(r1.coeffs), log0 + drawn(r2.coeffs));
    if n > 0 {
        let (c1, c2) = (dot::<F>(claims, r1.coeffs), dot::<F>(claims, r2.coeffs));
        sumcheck_went::<F, H::Output>(n, 3, c1, r1.terminal, z1, s1, r1.log);
        sumcheck_went::<F, H::Output>(n, 3, c2, r2.terminal, z2, s2, r2.log);
        prefix_of_prefix(s1, r1.log, a);
        prefix_of_prefix(s2, r2.log, b);
    }
    same_proof_same_weights::<F, H>(r1.coeffs, r2.coeffs, log0, a, b, fields, digests);
    if n > 0 {
        same_proof_same_end::<F, H>(
            n,
            3,
            dot::<F>(claims, r1.coeffs),
            r1.terminal,
            z1,
            r2.terminal,
            z2,
            s1,
            r1.log,
            r2.log,
            a,
            b,
            fields,
            digests,
        );
    } else {
        assert(z1 =~= z2);
    }
}

/// Two verifiers that go through one proof behind the same steps draw the same
/// weights.
proof fn same_proof_same_weights<F: PrimeField, H: HashFunction>(
    u: Seq<int>,
    v: Seq<int>,
    log0: Seq<Event<H::Output>>,
    a: Seq<Event<H::Output>>,
    b: Seq<Event<H::Output>>,
    fields: Seq<int>,
    digests: Seq<H::Output>,
)
    requires
        u.len() == v.len(),
        (log0 + drawn(u)).is_prefix_of(a),
        (log0 + drawn(v)).is_prefix_of(b),
        follows::<F, H>(a, fields, digests),
        follows::<F, H>(b, fields, digests),
    ensures
        u == v,
{
    alike_plain::<H::Output>(u, v, Seq::empty(), Seq::empty());
    same_proof_same_portion::<F, H>(
        log0,
        drawn::<H::Output>(u),
        drawn::<H::Output>(v),
        a,
        b,
        fields,
        digests,
    );
}

/// Two verifiers that go through one proof behind the same steps read the same
/// field elements.
proof fn same_proof_same_values<F: PrimeField, H: HashFunction>(
    u: Seq<int>,
    v: Seq<int>,
    log0: Seq<Event<H::Output>>,
    a: Seq<Event<H::Output>>,
    b: Seq<Event<H::Output>>,
    fields: Seq<int>,
    digests: Seq<H::Output>,
)
    requires
        u.len() == v.len(),
        (log0 + sent_fields(u)).is_prefix_of(a),
        (log0 + sent_fields(v)).is_prefix_of(b),
        follows::<F, H>(a, fields, digests),
        follows::<F, H>(b, fields, digests),
    ensures
        u == v,
{
    alike_plain::<H::Output>(u, v, Seq::empty(), Seq::empty());
    same_proof_same_portion::<F, H>(
        log0,
        sent_fields::<H::Output>(u),
        sent_fields::<H::Output>(v),
        a,
        b,
        fields,
        digests,
    );
}

/// Two verifiers of a layer that go through one proof behind the same steps end
/// in the same way.
proof fn same_proof_same_layer<F: PrimeField, H: HashFunction>(
    claims: Seq<int>,
    point: Seq<int>,
    next1: Seq<int>,
    p1: Seq<int>,
    a1: Seq<Event<H::Output>>,
    next2: Seq<int>,
    p2: Seq<int>,
    b1: Seq<Event<H::Output>>,
    log0: Seq<Event<H::Output>>,
    a: Seq<Event<H::Output>>,
    b: Seq<Event<H::Output>>,
    fields: Seq<int>,
    digests: Seq<H::Output>,
)
    requires
        layer_verified::<F, H::Output>(claims, point, next1, p1, log0, a1),
        layer_verified::<F, H::Output>(claims, point, next2, p2, log0, b1),
        a1.is_prefix_of(a),
        b1.is_prefix_of(b),
        follows::<F, H>(a, fields, digests),
        follows::<F, H>(b, fields, digests),
    ensures
        next1 == next2,
        p1 == p2,
        a1 == b1,
{
    let r1 = choose|r: LayerRun<H::Output>| #[trigger]
        layer_run_accepted::<F, H::Output>(claims, point, next1, p1, r, log0, a1);
    let r2 = choose|r: LayerRun<H::Output>| #[trigger]
        layer_run_accepted::<F, H::Output>(claims, point, next2, p2, r, log0, b1);
    layer_went::<F, H::Output>(claims, point, next1, p1, r1, log0, a1);
    layer_went::<F, H::Output>(claims, point, next2, p2, r2, log0, b1);
    prefix_of_prefix(r1.log, a1, a);
    prefix_of_prefix(r2.log, b1, b);
    let (z1, z2) = (p1.drop_first(), p2.drop_first());
    same_proof_same_reduction::<F, H>(
        claims,
        point,
        z1,
        r1,
        z2,
        r2,
        log0,
        a,
        b,
        fields,
        digests,
    );
    let (e1, e2) = (seq![p1[0]], seq![p2[0]]);
    let (x1, x2) = (sent_fields::<H::Output>(r1.left), sent_fields::<H::Output>(r2.left));
    let (y1, y2) = (sent_fields::<H::Output>(r1.right), sent_fields::<H::Output>(r2.right));
    let (u1, u2) = (drawn::<H::Output>(e1), drawn::<H::Output>(e2));
    alike_plain::<H::Output>(r1.left, r2.left, Seq::empty(), Seq::empty());
    alike_plain::<H::Output>(r1.right, r2.right, Seq::empty(), Seq::empty());
    alike_plain::<H::Output>(e1, e2, Seq::empty(), Seq::empty());
    alike_concat(x1, y1, x2, y2);
    alike_concat(x1 + y1, u1, x2 + y2, u2);
    assert(a1 =~= r1.log + (x1 + y1 + u1));
    assert(b1 =~= r2.log + (x2 + y2 + u2));
    same_proof_same_portion::<F, H>(
        r1.log,
        x1 + y1 + u1,
        x2 + y2 + u2,
        a,
        b,
        fields,
        digests,
    );
    assert(e1[0] == e2[0]);
    assert(p1 =~= seq![p1[0]] + z1);
    assert(p2 =~= seq![p2[0]] + z2);
}

/// Where one verifier accepted a layer, another one that goes through the same
/// proof behind the same steps does not fail there.
#[verifier::rlimit(60)]
#[verifier::spinoff_prover]
proof fn layer_does_not_fail<F: PrimeField, H: HashFunction>(
    claims: Seq<int>,
    point: Seq<int>,
    next: Seq<int>,
    p: Seq<int>,
    a1: Seq<Event<H::Output>>,
    e: Error,
    log0: Seq<Event<H::Output>>,
    a: Seq<Event<H::Output>>,
    b: Seq<Event<H::Output>>,
    fields: Seq<int>,
    digests: Seq<H::Output>,
)
    requires
        layer_verified::<F, H::Output>(claims, point, next, p, log0, a1),
        a1.is_prefix_of(a),
        follows::<F, H>(a, fields, digests),
        follows::<F, H>(b, fields, digests),
    ensures
        !layer_unverified::<F, H::Output>(claims, point, log0, b, e),
{
    let n = point.len();
    let r1 = choose|r: LayerRun<H::Output>| #[trigger]
        layer_run_accepted::<F, H::Output>(claims, point, next, p, r, log0, a1);
    layer_went::<F, H::Output>(claims, point, next, p, r1, log0, a1);
    prefix_of_prefix(r1.log, a1, a);
    let z1 = p.drop_first();
    if exists|coeffs: Seq<int>|
        coeffs.len() == claims.len() && #[trigger] sumcheck_refused::<F, H::Output>(
            n,
            3,
            dot::<F>(claims, coeffs),
            log0 + drawn(coeffs),
            b,
        ) {
        let coeffs = choose|coeffs: Seq<int>|
            coeffs.len() == claims.len() && #[trigger] sumcheck_refused::<F, H::Output>(
                n,
                3,
                dot::<F>(claims, coeffs),
                log0 + drawn(coeffs),
                b,
            );
        let (s1, s2) = (log0 + drawn(r1.coeffs), log0 + drawn(coeffs));
        let c1 = dot::<F>(claims, r1.coeffs);
        refused_extends::<F, H::Output>(n, 3, dot::<F>(claims, coeffs), s2, b);
        if n > 0 {
            sumcheck_went::<F, H::Output>(n, 3, c1, r1.terminal, z1, s1, r1.log);
            prefix_of_prefix(s1, r1.log, a);
            same_proof_same_weights::<F, H>(r1.coeffs, coeffs, log0, a, b, fields, digests);
            accepted_is_not_refused::<F, H>(
                n,
                3,
                c1,
                r1.terminal,
                z1,
                s1,
                r1.log,
                a,
                b,
                fields,
                digests,
            );
        }
    }
    if exists|z: Seq<int>, r: LayerRun<H::Output>| #[trigger]
        layer_run_refused::<F, H::Output>(claims, point, z, r, log0, b) {
        let (z2, r2) = choose|z: Seq<int>, r: LayerRun<H::Output>| #[trigger]
            layer_run_refused::<F, H::Output>(claims, point, z, r, log0, b);
        let (x1, x2) = (sent_fields::<H::Output>(r1.left), sent_fields::<H::Output>(r2.left));
        let (y1, y2) = (sent_fields::<H::Output>(r1.right), sent_fields::<H::Output>(r2.right));
        assert(b =~= r2.log + (x2 + y2));
        assert((r1.log + (x1 + y1)).is_prefix_of(a1));
        prefix_of_prefix(r1.log + (x1 + y1), a1, a);
        same_proof_same_reduction::<F, H>(
            claims,
            point,
            z1,
            r1,
            z2,
            r2,
            log0,
            a,
            b,
            fields,
            digests,
        );
        alike_plain::<H::Output>(r1.left, r2.left, Seq::empty(), Seq::empty());
        alike_plain::<H::Output>(r1.right, r2.right, Seq::empty(), Seq::empty());
        alike_concat(x1, y1, x2, y2);
        same_proof_same_portion::<F, H>(r1.log, x1 + y1, x2 + y2, a, b, fields, digests);
    }
}

/// Two verifiers of the same products that go through one proof behind the same
/// steps end in the same way.
pub proof fn same_proof_same_products<F: PrimeField, H: HashFunction>(
    roots: Seq<int>,
    k: nat,
    c1: Seq<int>,
    p1: Seq<int>,
    a1: Seq<Event<H::Output>>,
    c2: Seq<int>,
    p2: Seq<int>,
    b1: Seq<Event<H::Output>>,
    log0: Seq<Event<H::Output>>,
    a: Seq<Event<H::Output>>,
    b: Seq<Event<H::Output>>,
    fields: Seq<int>,
    digests: Seq<H::Output>,
)
    requires
        products_verified::<F, H::Output>(roots, k, c1, p1, log0, a1),
        products_verified::<F, H::Output>(roots, k, c2, p2, log0, b1),
        a1.is_prefix_of(a),
        b1.is_prefix_of(b),
        follows::<F, H>(a, fields, digests),
        follows::<F, H>(b, fields, digests),
    ensures
        c1 == c2,
        p1 == p2,
        a1 == b1,
    decreases k,
{
    if k == 0 {
        assert(p1 =~= p2);
    } else {
        let j = (k - 1) as nat;
        let (d1, q1, m1) = products_last::<F, H::Output>(roots, k, c1, p1, log0, a1);
        let (d2, q2, m2) = products_last::<F, H::Output>(roots, k, c2, p2, log0, b1);
        prefix_of_prefix(m1, a1, a);
        prefix_of_prefix(m2, b1, b);
        same_proof_same_products::<F, H>(
            roots,
            j,
            d1,
            q1,
            m1,
            d2,
            q2,
            m2,
            log0,
            a,
            b,
            fields,
            digests,
        );
        same_proof_same_layer::<F, H>(
            d1,
            q1,
            c1,
            p1,
            a1,
            c2,
            p2,
            b1,
            m1,
            a,
            b,
            fields,
            digests,
        );
    }
}

/// The last layer of a batch, behind those before it.
proof fn products_last<F: PrimeField, O>(
    roots: Seq<int>,
    k: nat,
    claims: Seq<int>,
    point: Seq<int>,
    log0: Seq<Event<O>>,
    log1: Seq<Event<O>>,
) -> (r: (Seq<int>, Seq<int>, Seq<Event<O>>))
    requires
        k > 0,
        products_verified::<F, O>(roots, k, claims, point, log0, log1),
    ensures
        products_verified::<F, O>(roots, (k - 1) as nat, r.0, r.1, log0, r.2),
        layer_verified::<F, O>(r.0, r.1, claims, point, r.2, log1),
        r.2.is_prefix_of(log1),
{
    let (c, p, mid) = choose|c: Seq<int>, p: Seq<int>, mid: Seq<Event<O>>| #[trigger]
        layer_verified::<F, O>(c, p, claims, point, mid, log1) && products_verified::<F, O>(
            roots,
            (k - 1) as nat,
            c,
            p,
            log0,
            mid,
        );
    let r = choose|r: LayerRun<O>| #[trigger]
        layer_run_accepted::<F, O>(c, p, claims, point, r, mid, log1);
    layer_went::<F, O>(c, p, claims, point, r, mid, log1);
    (c, p, mid)
}

/// A layer that fails extends the steps before it.
proof fn failed_layer_extends<F: PrimeField, O>(
    claims: Seq<int>,
    point: Seq<int>,
    log0: Seq<Event<O>>,
    log1: Seq<Event<O>>,
    e: Error,
)
    requires
        layer_unverified::<F, O>(claims, point, log0, log1, e),
    ensures
        log0.is_prefix_of(log1),
{
    if exists|coeffs: Seq<int>|
        coeffs.len() == claims.len() && #[trigger] sumcheck_refused::<F, O>(
            point.len(),
            3,
            dot::<F>(claims, coeffs),
            log0 + drawn(coeffs),
            log1,
        ) {
        let coeffs = choose|coeffs: Seq<int>|
            coeffs.len() == claims.len() && #[trigger] sumcheck_refused::<F, O>(
                point.len(),
                3,
                dot::<F>(claims, coeffs),
                log0 + drawn(coeffs),
                log1,
            );
        let start = log0 + drawn(coeffs);
        refused_extends::<F, O>(point.len(), 3, dot::<F>(claims, coeffs), start, log1);
        prefix_of_prefix(log0, start, log1);
    } else {
        let (z, r) = choose|z: Seq<int>, r: LayerRun<O>| #[trigger]
            layer_run_refused::<F, O>(claims, point, z, r, log0, log1);
        reduced_went::<F, O>(claims, point, r.coeffs, r.terminal, z, log0, r.log);
        prefix_of_prefix(log0, r.log, log1);
    }
}

/// Where one verifier accepted all layers, another one that goes through the same
/// proof behind the same steps fails at none.
proof fn no_layer_fails<F: PrimeField, H: HashFunction>(
    roots: Seq<int>,
    n: nat,
    c1: Seq<int>,
    p1: Seq<int>,
    a1: Seq<Event<H::Output>>,
    k: nat,
    c2: Seq<int>,
    p2: Seq<int>,
    mid: Seq<Event<H::Output>>,
    e: Error,
    log0: Seq<Event<H::Output>>,
    a: Seq<Event<H::Output>>,
    b: Seq<Event<H::Output>>,
    fields: Seq<int>,
    digests: Seq<H::Output>,
)
    requires
        k < n,
        products_verified::<F, H::Output>(roots, n, c1, p1, log0, a1),
        products_verified::<F, H::Output>(roots, k, c2, p2, log0, mid),
        a1.is_prefix_of(a),
        follows::<F, H>(a, fields, digests),
        follows::<F, H>(b, fields, digests),
    ensures
        !layer_unverified::<F, H::Output>(c2, p2, mid, b, e),
    decreases n,
{
    if layer_unverified::<F, H::Output>(c2, p2, mid, b, e) {
        let (d, q, m) = products_last::<F, H::Output>(roots, n, c1, p1, log0, a1);
        prefix_of_prefix(m, a1, a);
        if k + 1 == n {
            failed_layer_extends::<F, H::Output>(c2, p2, mid, b, e);
            same_proof_same_products::<F, H>(
                roots,
                k,
                d,
                q,
                m,
                c2,
                p2,
                mid,
                log0,
                a,
                b,
                fields,
                digests,
            );
            layer_does_not_fail::<F, H>(
                d,
                q,
                c1,
                p1,
                a1,
                e,
                m,
                a,
                b,
                fields,
                digests,
            );
        } else {
            no_layer_fails::<F, H>(
                roots,
                (n - 1) as nat,
                d,
                q,
                m,
                k,
                c2,
                p2,
                mid,
                e,
                log0,
                a,
                b,
                fields,
                digests,
            );
        }
    }
}

/// Where one verifier accepted products, another one that goes through the same
/// proof behind the same steps does not refuse them.
pub proof fn products_are_not_refused<F: PrimeField, H: HashFunction>(
    roots: Seq<int>,
    n: nat,
    claims: Seq<int>,
    point: Seq<int>,
    a1: Seq<Event<H::Output>>,
    e: Error,
    log0: Seq<Event<H::Output>>,
    a: Seq<Event<H::Output>>,
    b: Seq<Event<H::Output>>,
    fields: Seq<int>,
    digests: Seq<H::Output>,
)
    requires
        products_verified::<F, H::Output>(
            roots,
            n,
            claims,
            point,
            log0 + sent_fields(roots),
            a1,
        ),
        a1.is_prefix_of(a),
        follows::<F, H>(a, fields, digests),
        follows::<F, H>(b, fields, digests),
    ensures
        !products_refused::<F, H::Output>(roots.len(), n, log0, b, e),
{
    if products_refused::<F, H::Output>(roots.len(), n, log0, b, e) {
        let (roots2, k, c2, p2, mid) = choose|
            roots2: Seq<int>,
            k: nat,
            c2: Seq<int>,
            p2: Seq<int>,
            mid: Seq<Event<H::Output>>,
        |
            {
                &&& k < n
                &&& roots2.len() == roots.len()
                &&& #[trigger] products_verified::<F, H::Output>(
                    roots2,
                    k,
                    c2,
                    p2,
                    log0 + sent_fields(roots2),
                    mid,
                )
                &&& layer_unverified::<F, H::Output>(c2, p2, mid, b, e)
            };
        let (s1, s2) = (log0 + sent_fields(roots), log0 + sent_fields(roots2));
        failed_layer_extends::<F, H::Output>(c2, p2, mid, b, e);
        layers_went::<F, H::Output>(roots, n, claims, point, s1, a1);
        layers_went::<F, H::Output>(roots2, k, c2, p2, s2, mid);
        prefix_of_prefix(s1, a1, a);
        prefix_of_prefix(s2, mid, b);
        same_proof_same_values::<F, H>(roots, roots2, log0, a, b, fields, digests);
        no_layer_fails::<F, H>(
            roots,
            n,
            claims,
            point,
            a1,
            k,
            c2,
            p2,
            mid,
            e,
            s1,
            a,
            b,
            fields,
            digests,
        );
    }
}

/// Two verifiers of a triple product that go through one proof behind the same
/// steps end in the same way.
proof fn same_proof_same_triple<F: PrimeField, H: HashFunction>(
    n: nat,
    sum: int,
    p1: Seq<int>,
    v1: Seq<int>,
    a1: Seq<Event<H::Output>>,
    p2: Seq<int>,
    v2: Seq<int>,
    b1: Seq<Event<H::Output>>,
    log0: Seq<Event<H::Output>>,
    a: Seq<Event<H::Output>>,
    b: Seq<Event<H::Output>>,
    fields: Seq<int>,
    digests: Seq<H::Output>,
)
    requires
        v1.len() == v2.len(),
        triple_verified::<F, H::Output>(n, sum, p1, v1, log0, a1),
        triple_verified::<F, H::Output>(n, sum, p2, v2, log0, b1),
        a1.is_prefix_of(a),
        b1.is_prefix_of(b),
        follows::<F, H>(a, fields, digests),
        follows::<F, H>(b, fields, digests),
    ensures
        p1 == p2,
        v1 == v2,
        a1 == b1,
{
    let (t1, m1) = choose|t: int, m: Seq<Event<H::Output>>|
        {
            &&& #[trigger] sumcheck_verified::<F, H::Output>(n, 3, sum, t, p1, log0, m)
            &&& triple_accepted::<F>(t, v1)
            &&& a1 == m + sent_fields(v1)
        };
    let (t2, m2) = choose|t: int, m: Seq<Event<H::Output>>|
        {
            &&& #[trigger] sumcheck_verified::<F, H::Output>(n, 3, sum, t, p2, log0, m)
            &&& triple_accepted::<F>(t, v2)
            &&& b1 == m + sent_fields(v2)
        };
    prefix_of_prefix(m1, a1, a);
    prefix_of_prefix(m2, b1, b);
    same_proof_same_end::<F, H>(
        n,
        3,
        sum,
        t1,
        p1,
        t2,
        p2,
        log0,
        m1,
        m2,
        a,
        b,
        fields,
        digests,
    );
    same_proof_same_values::<F, H>(v1, v2, m1, a, b, fields, digests);
}

/// Where one verifier accepted a triple product, another one that goes through
/// the same proof behind the same steps does not refuse it.
proof fn triple_is_not_refused<F: PrimeField, H: HashFunction>(
    n: nat,
    sum: int,
    p: Seq<int>,
    v: Seq<int>,
    a1: Seq<Event<H::Output>>,
    log0: Seq<Event<H::Output>>,
    a: Seq<Event<H::Output>>,
    b: Seq<Event<H::Output>>,
    fields: Seq<int>,
    digests: Seq<H::Output>,
)
    requires
        v.len() == 3,
        triple_verified::<F, H::Output>(n, sum, p, v, log0, a1),
        a1.is_prefix_of(a),
        follows::<F, H>(a, fields, digests),
        follows::<F, H>(b, fields, digests),
    ensures
        !sumcheck_refused::<F, H::Output>(n, 3, sum, log0, b),
        !triple_unverified::<F, H::Output>(n, sum, log0, b),
{
    let (t, m) = choose|t: int, m: Seq<Event<H::Output>>|
        {
            &&& #[trigger] sumcheck_verified::<F, H::Output>(n, 3, sum, t, p, log0, m)
            &&& triple_accepted::<F>(t, v)
            &&& a1 == m + sent_fields(v)
        };
    prefix_of_prefix(m, a1, a);
    accepted_is_not_refused::<F, H>(n, 3, sum, t, p, log0, m, a, b, fields, digests);
    if triple_unverified::<F, H::Output>(n, sum, log0, b) {
        let (t2, p2, m2) = choose|t2: int, p2: Seq<int>, m2: Seq<Event<H::Output>>|
            {
                &&& #[trigger] sumcheck_verified::<F, H::Output>(n, 3, sum, t2, p2, log0, m2)
                &&& triple_refused::<F, H::Output>(t2, m2, b)
            };
        let v2 = choose|v2: Seq<int>|
            {
                &&& v2.len() == 3
                &&& b == m2 + #[trigger] sent_fields::<H::Output>(v2)
                &&& !triple_accepted::<F>(t2, v2)
            };
        same_proof_same_end::<F, H>(
            n,
            3,
            sum,
            t,
            p,
            t2,
            p2,
            log0,
            m,
            m2,
            a,
            b,
            fields,
            digests,
        );
        same_proof_same_values::<F, H>(v, v2, m, a, b, fields, digests);
    }
}

/// Two runs of the verifier of a sparse matrix hold the same values.
pub open spec fn same_spark_values<O>(d1: SparkRead<O>, d2: SparkRead<O>) -> bool {
    &&& d1.gamma == d2.gamma
    &&& d1.tau == d2.tau
    &&& d1.dot_point == d2.dot_point
    &&& d1.dot_evals == d2.dot_evals
    &&& d1.log1 == d2.log1
}

/// Two verifiers that go through one proof behind the same steps read the same
/// sparse inner product.
proof fn same_proof_same_dot<F: PrimeField, H: HashFunction>(
    ops_vars: nat,
    claimed: int,
    d1: SparkRead<H::Output>,
    d2: SparkRead<H::Output>,
    log0: Seq<Event<H::Output>>,
    a: Seq<Event<H::Output>>,
    b: Seq<Event<H::Output>>,
    fields: Seq<int>,
    digests: Seq<H::Output>,
)
    requires
        d1.dot_ok::<F>(ops_vars, claimed, log0),
        d2.dot_ok::<F>(ops_vars, claimed, log0),
        d1.log1.is_prefix_of(a),
        d2.log1.is_prefix_of(b),
        follows::<F, H>(a, fields, digests),
        follows::<F, H>(b, fields, digests),
    ensures
        same_spark_values(d1, d2),
{
    let (u, v) = (seq![d1.gamma, d1.tau], seq![d2.gamma, d2.tau]);
    d1.dot_went::<F>(ops_vars, claimed, log0);
    d2.dot_went::<F>(ops_vars, claimed, log0);
    prefix_of_prefix(log0 + drawn(u), d1.log1, a);
    prefix_of_prefix(log0 + drawn(v), d2.log1, b);
    same_proof_same_weights::<F, H>(u, v, log0, a, b, fields, digests);
    assert(u[0] == v[0] && u[1] == v[1]);
    same_proof_same_triple::<F, H>(
        ops_vars,
        claimed,
        d1.dot_point,
        d1.dot_evals,
        d1.log1,
        d2.dot_point,
        d2.dot_evals,
        d2.log1,
        log0 + drawn(u),
        a,
        b,
        fields,
        digests,
    );
}

/// Two verifiers that go through one proof behind the same steps read the same
/// products over the accesses.
proof fn same_proof_same_ops<F: PrimeField, H: HashFunction>(
    ops_vars: nat,
    d1: SparkRead<H::Output>,
    d2: SparkRead<H::Output>,
    a: Seq<Event<H::Output>>,
    b: Seq<Event<H::Output>>,
    fields: Seq<int>,
    digests: Seq<H::Output>,
)
    requires
        d1.log1 == d2.log1,
        d1.ops_ok::<F>(ops_vars),
        d2.ops_ok::<F>(ops_vars),
        d1.log2.is_prefix_of(a),
        d2.log2.is_prefix_of(b),
        follows::<F, H>(a, fields, digests),
        follows::<F, H>(b, fields, digests),
    ensures
        d1.ops_roots == d2.ops_roots,
        d1.ops_claims == d2.ops_claims,
        d1.ops_point == d2.ops_point,
        d1.log2 == d2.log2,
{
    let log0 = d1.log1;
    d1.ops_went::<F>(ops_vars);
    d2.ops_went::<F>(ops_vars);
    prefix_of_prefix(log0 + sent_fields(d1.ops_roots), d1.log2, a);
    prefix_of_prefix(log0 + sent_fields(d2.ops_roots), d2.log2, b);
    same_proof_same_values::<F, H>(d1.ops_roots, d2.ops_roots, log0, a, b, fields, digests);
    same_proof_same_products::<F, H>(
        d1.ops_roots,
        ops_vars,
        d1.ops_claims,
        d1.ops_point,
        d1.log2,
        d2.ops_claims,
        d2.ops_point,
        d2.log2,
        log0 + sent_fields(d1.ops_roots),
        a,
        b,
        fields,
        digests,
    );
}

/// Two verifiers that go through one proof behind the same steps read the same
/// products over the cells.
proof fn same_proof_same_mem<F: PrimeField, H: HashFunction>(
    mem_vars: nat,
    d1: SparkRead<H::Output>,
    d2: SparkRead<H::Output>,
    a: Seq<Event<H::Output>>,
    b: Seq<Event<H::Output>>,
    fields: Seq<int>,
    digests: Seq<H::Output>,
)
    requires
        d1.log2 == d2.log2,
        d1.mem_ok::<F>(mem_vars),
        d2.mem_ok::<F>(mem_vars),
        d1.log3.is_prefix_of(a),
        d2.log3.is_prefix_of(b),
        follows::<F, H>(a, fields, digests),
        follows::<F, H>(b, fields, digests),
    ensures
        d1.mem_roots == d2.mem_roots,
        d1.mem_claims == d2.mem_claims,
        d1.mem_point == d2.mem_point,
        d1.log3 == d2.log3,
{
    let log0 = d1.log2;
    d1.mem_went::<F>(mem_vars);
    d2.mem_went::<F>(mem_vars);
    prefix_of_prefix(log0 + sent_fields(d1.mem_roots), d1.log3, a);
    prefix_of_prefix(log0 + sent_fields(d2.mem_roots), d2.log3, b);
    same_proof_same_values::<F, H>(d1.mem_roots, d2.mem_roots, log0, a, b, fields, digests);
    same_proof_same_products::<F, H>(
        d1.mem_roots,
        mem_vars,
        d1.mem_claims,
        d1.mem_point,
        d1.log3,
        d2.mem_claims,
        d2.mem_point,
        d2.log3,
        log0 + sent_fields(d1.mem_roots),
        a,
        b,
        fields,
        digests,
    );
}

/// Two verifiers of a sparse matrix that go through one proof behind the same
/// steps leave the same claims.
pub proof fn same_proof_same_matrix<F: PrimeField, H: HashFunction>(
    ops_vars: nat,
    mem_vars: nat,
    aux_vars: nat,
    x: Seq<int>,
    y: Seq<int>,
    claimed: int,
    at: SparkOffsets,
    d1: SparkRead<H::Output>,
    claims1: Seq<Claim>,
    a: Seq<Event<H::Output>>,
    d2: SparkRead<H::Output>,
    claims2: Seq<Claim>,
    b: Seq<Event<H::Output>>,
    log0: Seq<Event<H::Output>>,
    fields: Seq<int>,
    digests: Seq<H::Output>,
)
    requires
        spark_run_accepted::<F, H::Output>(
            ops_vars,
            mem_vars,
            aux_vars,
            x,
            y,
            claimed,
            at,
            d1,
            claims1,
            log0,
            a,
        ),
        spark_run_accepted::<F, H::Output>(
            ops_vars,
            mem_vars,
            aux_vars,
            x,
            y,
            claimed,
            at,
            d2,
            claims2,
            log0,
            b,
        ),
        follows::<F, H>(a, fields, digests),
        follows::<F, H>(b, fields, digests),
    ensures
        claims1 == claims2,
        a == b,
{
    let (v1, w1) = spark_values::<F, H::Output>(x, y, aux_vars, at, d1, claims1, a);
    let (v2, w2) = spark_values::<F, H::Output>(x, y, aux_vars, at, d2, claims2, b);
    d1.ops_went::<F>(ops_vars);
    d2.ops_went::<F>(ops_vars);
    d1.mem_went::<F>(mem_vars);
    d2.mem_went::<F>(mem_vars);
    prefix_of_prefix(d1.log2, d1.log3, a);
    prefix_of_prefix(d2.log2, d2.log3, b);
    prefix_of_prefix(d1.log1, d1.log2, a);
    prefix_of_prefix(d2.log1, d2.log2, b);
    same_proof_same_dot::<F, H>(ops_vars, claimed, d1, d2, log0, a, b, fields, digests);
    same_proof_same_ops::<F, H>(ops_vars, d1, d2, a, b, fields, digests);
    same_proof_same_mem::<F, H>(mem_vars, d1, d2, a, b, fields, digests);
    same_proof_same_accesses::<F, H>(v1, w1, v2, w2, d1.log3, a, b, fields, digests);
}

/// The values of accesses and cells that an accepted run ends with.
proof fn spark_values<F: PrimeField, O>(
    x: Seq<int>,
    y: Seq<int>,
    aux_vars: nat,
    at: SparkOffsets,
    d: SparkRead<O>,
    claims: Seq<Claim>,
    log1: Seq<Event<O>>,
) -> (r: (Seq<int>, Seq<int>))
    requires
        spark_accepted::<F, O>(
            d.checked(x, y),
            claims,
            at,
            aux_vars,
            d.dot_point,
            d.dot_evals,
            d.ops_point,
            d.log3,
            log1,
        ),
    ensures
        values_read(d.log3, log1, r.0, r.1),
        ops_accepted::<F>(d.checked(x, y), r.0),
        mem_accepted::<F>(d.checked(x, y), r.1),
        claims == spark_claims(
            at,
            aux_vars,
            d.dot_point,
            d.dot_evals,
            d.ops_point,
            r.0,
            d.mem_point,
            r.1,
        ),
        d.log3.is_prefix_of(log1),
        (d.log3 + sent_fields(r.0)).is_prefix_of(log1),
{
    choose|values: Seq<int>, audit: Seq<int>|
        {
            &&& #[trigger] values_read(d.log3, log1, values, audit)
            &&& ops_accepted::<F>(d.checked(x, y), values)
            &&& mem_accepted::<F>(d.checked(x, y), audit)
            &&& claims == spark_claims(
                at,
                aux_vars,
                d.dot_point,
                d.dot_evals,
                d.ops_point,
                values,
                d.mem_point,
                audit,
            )
        }
}

/// How many messages the evaluation proof of a sparse matrix has.
pub proof fn spark_run_went<F: PrimeField, O>(
    ops_vars: nat,
    mem_vars: nat,
    aux_vars: nat,
    x: Seq<int>,
    y: Seq<int>,
    claimed: int,
    at: SparkOffsets,
    d: SparkRead<O>,
    claims: Seq<Claim>,
    log0: Seq<Event<O>>,
    log1: Seq<Event<O>>,
)
    requires
        spark_run_accepted::<F, O>(
            ops_vars,
            mem_vars,
            aux_vars,
            x,
            y,
            claimed,
            at,
            d,
            claims,
            log0,
            log1,
        ),
    ensures
        went(log0, log1, spark_fields(ops_vars, mem_vars), 0),
{
    let (v, w) = spark_values::<F, O>(x, y, aux_vars, at, d, claims, log1);
    d.dot_went::<F>(ops_vars, claimed, log0);
    d.ops_went::<F>(ops_vars);
    d.mem_went::<F>(mem_vars);
    went_plain::<O>(d.log3, v, Seq::empty());
    went_plain::<O>(d.log3 + sent_fields::<O>(v), w, Seq::empty());
    let (n1, n2) = (triple_fields(ops_vars), products_fields(4, ops_vars));
    let n3 = products_fields(4, mem_vars);
    went_on(log0, d.log1, d.log2, n1, 0, n2, 0);
    went_on(log0, d.log2, d.log3, n1 + n2, 0, n3, 0);
}

/// Two verifiers that go through one proof behind the same steps read the same
/// values of accesses and cells.
proof fn same_proof_same_accesses<F: PrimeField, H: HashFunction>(
    v1: Seq<int>,
    w1: Seq<int>,
    v2: Seq<int>,
    w2: Seq<int>,
    log0: Seq<Event<H::Output>>,
    a: Seq<Event<H::Output>>,
    b: Seq<Event<H::Output>>,
    fields: Seq<int>,
    digests: Seq<H::Output>,
)
    requires
        values_read(log0, a, v1, w1),
        values_read(log0, b, v2, w2),
        follows::<F, H>(a, fields, digests),
        follows::<F, H>(b, fields, digests),
    ensures
        v1 == v2,
        w1 == w2,
        a == b,
{
    same_proof_same_values::<F, H>(v1, v2, log0, a, b, fields, digests);
    same_proof_same_values::<F, H>(
        w1,
        w2,
        log0 + sent_fields(v1),
        a,
        b,
        fields,
        digests,
    );
}

/// Where one verifier accepted a sparse matrix, another one that goes through the
/// same proof behind the same steps does not refuse it.
#[verifier::rlimit(40)]
#[verifier::spinoff_prover]
pub proof fn matrix_is_not_refused<F: PrimeField, H: HashFunction>(
    ops_vars: nat,
    mem_vars: nat,
    aux_vars: nat,
    x: Seq<int>,
    y: Seq<int>,
    claimed: int,
    at: SparkOffsets,
    d: SparkRead<H::Output>,
    claims: Seq<Claim>,
    a: Seq<Event<H::Output>>,
    d2: SparkRead<H::Output>,
    e: Error,
    b: Seq<Event<H::Output>>,
    log0: Seq<Event<H::Output>>,
    fields: Seq<int>,
    digests: Seq<H::Output>,
)
    requires
        spark_run_accepted::<F, H::Output>(
            ops_vars,
            mem_vars,
            aux_vars,
            x,
            y,
            claimed,
            at,
            d,
            claims,
            log0,
            a,
        ),
        follows::<F, H>(a, fields, digests),
        follows::<F, H>(b, fields, digests),
    ensures
        !spark_run_refused::<F, H::Output>(
            ops_vars,
            mem_vars,
            x,
            y,
            claimed,
            d2,
            e,
            log0,
            b,
        ),
{
    let (v, w) = spark_values::<F, H::Output>(x, y, aux_vars, at, d, claims, a);
    d.ops_went::<F>(ops_vars);
    d.mem_went::<F>(mem_vars);
    prefix_of_prefix(d.log2, d.log3, a);
    prefix_of_prefix(d.log1, d.log2, a);
    first_steps_are_not_refused::<F, H>(
        ops_vars,
        claimed,
        d,
        a,
        d2,
        e,
        b,
        log0,
        fields,
        digests,
    );
    if d2.dot_ok::<F>(ops_vars, claimed, log0) && d2.ops_ok::<F>(ops_vars) {
        later_steps_are_not_refused::<F, H>(
            ops_vars,
            mem_vars,
            x,
            y,
            claimed,
            d,
            v,
            w,
            a,
            d2,
            e,
            b,
            log0,
            fields,
            digests,
        );
    }
}

/// Where one verifier accepted the sparse inner product and the accesses, another
/// one that goes through the same proof behind the same steps does not refuse
/// them.
#[verifier::rlimit(60)]
#[verifier::spinoff_prover]
proof fn first_steps_are_not_refused<F: PrimeField, H: HashFunction>(
    ops_vars: nat,
    claimed: int,
    d: SparkRead<H::Output>,
    a: Seq<Event<H::Output>>,
    d2: SparkRead<H::Output>,
    e: Error,
    b: Seq<Event<H::Output>>,
    log0: Seq<Event<H::Output>>,
    fields: Seq<int>,
    digests: Seq<H::Output>,
)
    requires
        d.dot_ok::<F>(ops_vars, claimed, log0),
        d.ops_ok::<F>(ops_vars),
        d.log1.is_prefix_of(a),
        d.log2.is_prefix_of(a),
        follows::<F, H>(a, fields, digests),
        follows::<F, H>(b, fields, digests),
    ensures
        !sumcheck_refused::<F, H::Output>(
            ops_vars,
            3,
            claimed,
            log0 + drawn(seq![d2.gamma, d2.tau]),
            b,
        ),
        !triple_unverified::<F, H::Output>(
            ops_vars,
            claimed,
            log0 + drawn(seq![d2.gamma, d2.tau]),
            b,
        ),
        d2.dot_ok::<F>(ops_vars, claimed, log0) ==> !products_refused::<F, H::Output>(
            4,
            ops_vars,
            d2.log1,
            b,
            e,
        ),
{
    d.dot_went::<F>(ops_vars, claimed, log0);
    let u = seq![d.gamma, d.tau];
    let u2 = seq![d2.gamma, d2.tau];
    let start2 = log0 + drawn(u2);
    prefix_of_prefix(log0 + drawn(u), d.log1, a);
    dot_is_not_refused::<F, H>(ops_vars, claimed, d, log0, a, b, fields, digests);
    if sumcheck_refused::<F, H::Output>(ops_vars, 3, claimed, start2, b) {
        refused_extends::<F, H::Output>(ops_vars, 3, claimed, start2, b);
        same_proof_same_weights::<F, H>(u, u2, log0, a, b, fields, digests);
    }
    if triple_unverified::<F, H::Output>(ops_vars, claimed, start2, b) {
        failed_triple_extends::<F, H::Output>(ops_vars, claimed, start2, b);
        same_proof_same_weights::<F, H>(u, u2, log0, a, b, fields, digests);
    }
    if d2.dot_ok::<F>(ops_vars, claimed, log0) && products_refused::<F, H::Output>(
        4,
        ops_vars,
        d2.log1,
        b,
        e,
    ) {
        failed_products_extend::<F, H::Output>(4, ops_vars, d2.log1, b, e);
        same_proof_same_dot::<F, H>(ops_vars, claimed, d, d2, log0, a, b, fields, digests);
        products_are_not_refused::<F, H>(
            d.ops_roots,
            ops_vars,
            d.ops_claims,
            d.ops_point,
            d.log2,
            e,
            d.log1,
            a,
            b,
            fields,
            digests,
        );
    }
}

/// Where one verifier accepted the sparse inner product, another one that goes
/// through the same proof behind the same steps does not refuse it.
proof fn dot_is_not_refused<F: PrimeField, H: HashFunction>(
    ops_vars: nat,
    claimed: int,
    d: SparkRead<H::Output>,
    log0: Seq<Event<H::Output>>,
    a: Seq<Event<H::Output>>,
    b: Seq<Event<H::Output>>,
    fields: Seq<int>,
    digests: Seq<H::Output>,
)
    requires
        d.dot_ok::<F>(ops_vars, claimed, log0),
        d.log1.is_prefix_of(a),
        follows::<F, H>(a, fields, digests),
        follows::<F, H>(b, fields, digests),
    ensures
        !sumcheck_refused::<F, H::Output>(
            ops_vars,
            3,
            claimed,
            log0 + drawn(seq![d.gamma, d.tau]),
            b,
        ),
        !triple_unverified::<F, H::Output>(
            ops_vars,
            claimed,
            log0 + drawn(seq![d.gamma, d.tau]),
            b,
        ),
{
    triple_is_not_refused::<F, H>(
        ops_vars,
        claimed,
        d.dot_point,
        d.dot_evals,
        d.log1,
        log0 + drawn(seq![d.gamma, d.tau]),
        a,
        b,
        fields,
        digests,
    );
}

/// A triple product that fails extends the steps before it.
proof fn failed_triple_extends<F: PrimeField, O>(
    n: nat,
    sum: int,
    log0: Seq<Event<O>>,
    log1: Seq<Event<O>>,
)
    requires
        triple_unverified::<F, O>(n, sum, log0, log1),
    ensures
        log0.is_prefix_of(log1),
{
    let (t, p, m) = choose|t: int, p: Seq<int>, m: Seq<Event<O>>|
        {
            &&& #[trigger] sumcheck_verified::<F, O>(n, 3, sum, t, p, log0, m)
            &&& triple_refused::<F, O>(t, m, log1)
        };
    sumcheck_went::<F, O>(n, 3, sum, t, p, log0, m);
    prefix_of_prefix(log0, m, log1);
}

/// A batch of products that fails extends the steps before it.
proof fn failed_products_extend<F: PrimeField, O>(
    num_products: nat,
    num_layers: nat,
    log0: Seq<Event<O>>,
    log1: Seq<Event<O>>,
    e: Error,
)
    requires
        products_refused::<F, O>(num_products, num_layers, log0, log1, e),
    ensures
        log0.is_prefix_of(log1),
{
    let (roots, k, c, p, mid) = choose|
        roots: Seq<int>,
        k: nat,
        c: Seq<int>,
        p: Seq<int>,
        mid: Seq<Event<O>>,
    |
        {
            &&& k < num_layers
            &&& roots.len() == num_products
            &&& #[trigger] products_verified::<F, O>(
                roots,
                k,
                c,
                p,
                log0 + sent_fields(roots),
                mid,
            )
            &&& layer_unverified::<F, O>(c, p, mid, log1, e)
        };
    let start = log0 + sent_fields(roots);
    failed_layer_extends::<F, O>(c, p, mid, log1, e);
    layers_went::<F, O>(roots, k, c, p, start, mid);
    prefix_of_prefix(start, mid, log1);
    prefix_of_prefix(log0, start, log1);
}

/// Where one verifier accepted the cells and the values, another one that goes
/// through the same proof behind the same accesses does not refuse them.
#[verifier::rlimit(60)]
#[verifier::spinoff_prover]
proof fn later_steps_are_not_refused<F: PrimeField, H: HashFunction>(
    ops_vars: nat,
    mem_vars: nat,
    x: Seq<int>,
    y: Seq<int>,
    claimed: int,
    d: SparkRead<H::Output>,
    v: Seq<int>,
    w: Seq<int>,
    a: Seq<Event<H::Output>>,
    d2: SparkRead<H::Output>,
    e: Error,
    b: Seq<Event<H::Output>>,
    log0: Seq<Event<H::Output>>,
    fields: Seq<int>,
    digests: Seq<H::Output>,
)
    requires
        d.dot_ok::<F>(ops_vars, claimed, log0),
        d2.dot_ok::<F>(ops_vars, claimed, log0),
        d.ops_ok::<F>(ops_vars),
        d2.ops_ok::<F>(ops_vars),
        d.mem_ok::<F>(mem_vars),
        balanced::<F>(d.ops_roots, d.mem_roots),
        values_read(d.log3, a, v, w),
        ops_accepted::<F>(d.checked(x, y), v),
        mem_accepted::<F>(d.checked(x, y), w),
        d.log1.is_prefix_of(a),
        d.log2.is_prefix_of(a),
        d.log3.is_prefix_of(a),
        follows::<F, H>(a, fields, digests),
        follows::<F, H>(b, fields, digests),
    ensures
        !products_refused::<F, H::Output>(4, mem_vars, d2.log2, b, e),
        d2.mem_ok::<F>(mem_vars) ==> {
            &&& !(!balanced::<F>(d2.ops_roots, d2.mem_roots) && b == d2.log3)
            &&& !ops_refused::<F, H::Output>(d2.checked(x, y), d2.log3, b)
            &&& !mem_refused::<F, H::Output>(d2.checked(x, y), d2.log3, b)
        },
{
    d2.ops_went::<F>(ops_vars);
    if products_refused::<F, H::Output>(4, mem_vars, d2.log2, b, e) {
        failed_products_extend::<F, H::Output>(4, mem_vars, d2.log2, b, e);
        prefix_of_prefix(d2.log1, d2.log2, b);
        same_proof_same_dot::<F, H>(ops_vars, claimed, d, d2, log0, a, b, fields, digests);
        same_proof_same_ops::<F, H>(ops_vars, d, d2, a, b, fields, digests);
        products_are_not_refused::<F, H>(
            d.mem_roots,
            mem_vars,
            d.mem_claims,
            d.mem_point,
            d.log3,
            e,
            d.log2,
            a,
            b,
            fields,
            digests,
        );
    }
    if d2.mem_ok::<F>(mem_vars) && d2.log3.is_prefix_of(b) {
        d2.mem_went::<F>(mem_vars);
        prefix_of_prefix(d2.log2, d2.log3, b);
        prefix_of_prefix(d2.log1, d2.log2, b);
        same_proof_same_dot::<F, H>(ops_vars, claimed, d, d2, log0, a, b, fields, digests);
        same_proof_same_ops::<F, H>(ops_vars, d, d2, a, b, fields, digests);
        same_proof_same_mem::<F, H>(mem_vars, d, d2, a, b, fields, digests);
        if ops_refused::<F, H::Output>(d2.checked(x, y), d2.log3, b) {
            let v2 = choose|v2: Seq<int>|
                {
                    &&& v2.len() == 6
                    &&& b == d2.log3 + #[trigger] sent_fields::<H::Output>(v2)
                    &&& !ops_accepted::<F>(d2.checked(x, y), v2)
                };
            same_proof_same_values::<F, H>(v, v2, d.log3, a, b, fields, digests);
        }
        if mem_refused::<F, H::Output>(d2.checked(x, y), d2.log3, b) {
            let (v2, w2) = choose|v2: Seq<int>, w2: Seq<int>|
                {
                    &&& #[trigger] values_read(d2.log3, b, v2, w2)
                    &&& ops_accepted::<F>(d2.checked(x, y), v2)
                    &&& !mem_accepted::<F>(d2.checked(x, y), w2)
                };
            same_proof_same_accesses::<F, H>(v, w, v2, w2, d.log3, a, b, fields, digests);
        }
    }
}

} // verus!
