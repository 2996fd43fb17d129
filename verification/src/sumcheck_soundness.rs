//! What an accepted sum-check shows of the sum.

use crate::classic_sumcheck::{
    claim_after, honest_rounds_are_consistent, round_events, round_messages, rounds_accepted,
    rounds_consistent, sumcheck_verified, terms_fit,
};
use crate::field::{MAX_SMALL, PrimeField, Residue};
use crate::interpolation::poly_value;
use crate::linear::{rect, vcanon};
use crate::mle::exp2;
use crate::sumcheck::{cube_sum, summand, values_at, Term};
use crate::transcript::Event;
use crate::transcript_binding::{canonical_parts, canonical_steps};
use vstd::prelude::*;

verus! {

/// Two different messages of one round whose polynomials meet at the challenge.
pub open spec fn meet_at<F: Residue>(a: Seq<int>, b: Seq<int>, x: int) -> bool {
    a != b && poly_value::<F>(a, x) == poly_value::<F>(b, x)
}

/// Some round's message is not that of the polynomials, and its challenge does not
/// tell the two apart.
pub open spec fn strayed<F: Residue>(
    terms: Seq<Term>,
    polys: Seq<Seq<int>>,
    degree: nat,
    point: Seq<int>,
    messages: Seq<Seq<int>>,
) -> bool {
    exists|i: int|
        0 <= i < point.len() && meet_at::<F>(
            messages[i],
            #[trigger] round_messages::<F>(terms, polys, degree, point)[i],
            point[i],
        )
}

/// The steps of a sum-check hold a message that strayed.
pub open spec fn sumcheck_strayed<F: Residue, O>(
    terms: Seq<Term>,
    polys: Seq<Seq<int>>,
    degree: nat,
    point: Seq<int>,
    log0: Seq<Event<O>>,
    log1: Seq<Event<O>>,
) -> bool {
    exists|messages: Seq<Seq<int>>|
        messages.len() == point.len() && rect(messages, degree + 1) && log1 == log0
            + round_events::<O>(messages, point) && #[trigger] strayed::<F>(
            terms,
            polys,
            degree,
            point,
            messages,
        )
}

/// A sum-check that is followed by the steps `tail` holds a message that strayed.
pub open spec fn strayed_before<F: Residue, O>(
    terms: Seq<Term>,
    polys: Seq<Seq<int>>,
    degree: nat,
    point: Seq<int>,
    log0: Seq<Event<O>>,
    tail: Seq<Event<O>>,
    log1: Seq<Event<O>>,
) -> bool {
    exists|mid: Seq<Event<O>>| #[trigger]
        sumcheck_strayed::<F, O>(terms, polys, degree, point, log0, mid) && log1 == mid + tail
}

/// Two runs at one point that end in one value began with one claim, or differ in a
/// message that its challenge does not tell apart.
pub proof fn same_end_same_claim<F: Residue>(
    a: int,
    b: int,
    m: Seq<Seq<int>>,
    h: Seq<Seq<int>>,
    point: Seq<int>,
)
    requires
        m.len() == point.len(),
        h.len() == point.len(),
        rounds_consistent::<F>(a, m, point),
        rounds_consistent::<F>(b, h, point),
        claim_after::<F>(a, m, point) == claim_after::<F>(b, h, point),
    ensures
        a == b || exists|i: int|
            0 <= i < point.len() && meet_at::<F>(m[i], #[trigger] h[i], point[i]),
    decreases point.len(),
{
    if point.len() > 0 {
        let n = point.len() - 1;
        if m[n] == h[n] {
            let (md, hd, pd) = (m.drop_last(), h.drop_last(), point.drop_last());
            same_end_same_claim::<F>(a, b, md, hd, pd);
            if a != b {
                let i = choose|i: int|
                    0 <= i < pd.len() && meet_at::<F>(md[i], #[trigger] hd[i], pd[i]);
                assert(meet_at::<F>(m[i], h[i], point[i]));
            }
        } else {
            assert(meet_at::<F>(m[n], h[n], point[n]));
        }
    }
}

/// An accepted sum-check that ends in the value of the summand at its point shows
/// that the claim is the sum over the cube, unless a round's message differs from
/// that of the polynomials and its challenge happens to be a place where the two
/// agree.
pub proof fn accepted_claim_is_the_sum<F: Residue, O>(
    terms: Seq<Term>,
    polys: Seq<Seq<int>>,
    degree: nat,
    claim: int,
    terminal: int,
    point: Seq<int>,
    log0: Seq<Event<O>>,
    log1: Seq<Event<O>>,
)
    requires
        1 <= degree <= MAX_SMALL,
        rect(polys, exp2(point.len())),
        forall|k: int| 0 <= k < polys.len() ==> vcanon::<F>(#[trigger] polys[k]),
        terms_fit(terms, polys.len(), degree),
        sumcheck_verified::<F, O>(point.len(), degree, claim, terminal, point, log0, log1),
        terminal == summand::<F>(terms, values_at::<F>(polys, point)),
    ensures
        claim == cube_sum::<F>(terms, polys, exp2(point.len())) || sumcheck_strayed::<F, O>(
            terms,
            polys,
            degree,
            point,
            log0,
            log1,
        ),
{
    let sum = cube_sum::<F>(terms, polys, exp2(point.len()));
    honest_rounds_are_consistent::<F>(terms, polys, degree, sum, point);
    let h = round_messages::<F>(terms, polys, degree, point);
    let m = choose|m: Seq<Seq<int>>| #[trigger]
        rounds_accepted::<F, O>(point.len(), degree, claim, terminal, point, m, log0, log1);
    same_end_same_claim::<F>(claim, sum, m, h, point);
    if claim != sum {
        let i = choose|i: int|
            0 <= i < point.len() && meet_at::<F>(m[i], #[trigger] h[i], point[i]);
        assert(meet_at::<F>(m[i], round_messages::<F>(terms, polys, degree, point)[i], point[i]));
        assert(strayed::<F>(terms, polys, degree, point, m));
    }
}

/// The steps of a sum-check begin with those before it, and are canonical only if
/// those are.
pub proof fn sumcheck_extends<F: PrimeField, O>(
    num_vars: nat,
    degree: nat,
    claim: int,
    terminal: int,
    point: Seq<int>,
    log0: Seq<Event<O>>,
    log1: Seq<Event<O>>,
)
    requires
        sumcheck_verified::<F, O>(num_vars, degree, claim, terminal, point, log0, log1),
    ensures
        canonical_steps::<F, O>(log1) ==> canonical_steps::<F, O>(log0),
{
    let m = choose|m: Seq<Seq<int>>| #[trigger]
        rounds_accepted::<F, O>(num_vars, degree, claim, terminal, point, m, log0, log1);
    canonical_parts::<F, O>(log0, round_events(m, point));
}

} // verus!
