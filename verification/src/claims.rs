//! Claims about values of committed polynomials, collected for one batched
//! opening.

use crate::field::{PrimeField, Residue};
use crate::linear::{mat, mat_push, vals};
use crate::mle::mle;
use crate::qapcs::Evaluation;
use vstd::prelude::*;

verus! {

/// A claim: polynomial `poly` has `value` at `point`.
pub struct Claim {
    pub poly: int,
    pub point: Seq<int>,
    pub value: int,
}

impl Claim {
    /// The polynomial named has the value claimed at the point.
    pub open spec fn is_true<F: Residue>(self, polys: Seq<Seq<int>>) -> bool {
        self.value == mle::<F>(polys[self.poly], self.point)
    }
}

/// A claim whose point is given by its index.
pub struct IndexedClaim {
    pub poly: int,
    pub point: int,
    pub value: int,
}

/// Points and claims about values at them.
#[verifier::ext_equal]
pub struct ClaimSet {
    pub points: Seq<Seq<int>>,
    pub evals: Seq<IndexedClaim>,
}

/// Claims as residues.
pub open spec fn evals_view<F: PrimeField>(evals: Seq<Evaluation<F>>) -> Seq<IndexedClaim> {
    Seq::new(
        evals.len(),
        |i: int|
            IndexedClaim {
                poly: evals[i].poly as int,
                point: evals[i].point as int,
                value: evals[i].value.val(),
            },
    )
}

/// Points and claims as residues.
pub open spec fn claim_set<F: PrimeField>(points: Seq<Vec<F>>, evals: Seq<Evaluation<F>>) -> ClaimSet {
    ClaimSet { points: mat(points), evals: evals_view(evals) }
}

/// The first index at which `point` occurs, or the number of points.
pub open spec fn find_point(points: Seq<Seq<int>>, point: Seq<int>) -> int
    decreases points.len(),
{
    if points.len() == 0 {
        0
    } else if points[0] == point {
        0
    } else {
        1 + find_point(points.drop_first(), point)
    }
}

impl ClaimSet {
    /// Adds a claim; a point that occurs already is used again.
    pub open spec fn add_claim(self, claim: Claim) -> ClaimSet {
        let at = find_point(self.points, claim.point);
        ClaimSet {
            points: if at < self.points.len() {
                self.points
            } else {
                self.points.push(claim.point)
            },
            evals: self.evals.push(
                IndexedClaim { poly: claim.poly, point: at, value: claim.value },
            ),
        }
    }

    /// Adds several claims.
    pub open spec fn add_claims(self, claims: Seq<Claim>) -> ClaimSet
        decreases claims.len(),
    {
        if claims.len() == 0 {
            self
        } else {
            self.add_claims(claims.drop_last()).add_claim(claims.last())
        }
    }

    /// Adds a claim with a point entry of its own.
    pub open spec fn append_claim(self, claim: Claim) -> ClaimSet {
        ClaimSet {
            points: self.points.push(claim.point),
            evals: self.evals.push(
                IndexedClaim {
                    poly: claim.poly,
                    point: self.points.len() as int,
                    value: claim.value,
                },
            ),
        }
    }

    /// Adds several claims, each with a point entry of its own.
    pub open spec fn append_claims(self, claims: Seq<Claim>) -> ClaimSet
        decreases claims.len(),
    {
        if claims.len() == 0 {
            self
        } else {
            self.append_claims(claims.drop_last()).append_claim(claims.last())
        }
    }

    /// Entry `i` states `claim`.
    pub open spec fn states(self, i: int, claim: Claim) -> bool {
        &&& 0 <= i < self.evals.len()
        &&& 0 <= self.evals[i].point < self.points.len()
        &&& self.evals[i].poly == claim.poly
        &&& self.evals[i].value == claim.value
        &&& self.points[self.evals[i].point] == claim.point
    }
}

/// A list without claims.
pub open spec fn no_claims() -> ClaimSet {
    ClaimSet { points: Seq::empty(), evals: Seq::empty() }
}

/// One more claim.
pub proof fn add_claims_take(set: ClaimSet, claims: Seq<Claim>, i: int)
    requires
        0 <= i < claims.len(),
    ensures
        set.add_claims(claims.take(i + 1)) == set.add_claims(claims.take(i)).add_claim(claims[i]),
{
    assert(claims.take(i + 1).drop_last() =~= claims.take(i));
}

/// Claims added in two portions.
pub proof fn add_claims_concat(set: ClaimSet, a: Seq<Claim>, b: Seq<Claim>)
    ensures
        set.add_claims(a).add_claims(b) == set.add_claims(a + b),
    decreases b.len(),
{
    if b.len() == 0 {
        assert(a + b =~= a);
    } else {
        add_claims_concat(set, a, b.drop_last());
        assert((a + b).drop_last() =~= a + b.drop_last());
    }
}

/// One more claim.
pub proof fn append_claims_take(set: ClaimSet, claims: Seq<Claim>, i: int)
    requires
        0 <= i < claims.len(),
    ensures
        set.append_claims(claims.take(i + 1)) == set.append_claims(claims.take(i)).append_claim(
            claims[i],
        ),
{
    assert(claims.take(i + 1).drop_last() =~= claims.take(i));
}

/// Claims appended in two portions.
pub proof fn append_claims_concat(set: ClaimSet, a: Seq<Claim>, b: Seq<Claim>)
    ensures
        set.append_claims(a).append_claims(b) == set.append_claims(a + b),
    decreases b.len(),
{
    if b.len() == 0 {
        assert(a + b =~= a);
    } else {
        append_claims_concat(set, a, b.drop_last());
        assert((a + b).drop_last() =~= a + b.drop_last());
    }
}

/// Every claim appended is stated at an entry and a point of its own.
pub proof fn append_claims_states(set: ClaimSet, claims: Seq<Claim>)
    ensures
        set.append_claims(claims).evals.len() == set.evals.len() + claims.len(),
        set.append_claims(claims).points.len() == set.points.len() + claims.len(),
        forall|i: int|
            0 <= i < set.evals.len() ==> #[trigger] set.append_claims(claims).evals[i]
                == set.evals[i],
        forall|i: int|
            0 <= i < set.points.len() ==> #[trigger] set.append_claims(claims).points[i]
                == set.points[i],
        forall|i: int|
            0 <= i < claims.len() ==> set.append_claims(claims).states(
                set.evals.len() + i,
                #[trigger] claims[i],
            ),
    decreases claims.len(),
{
    if claims.len() > 0 {
        let front = claims.drop_last();
        append_claims_states(set, front);
        let mid = set.append_claims(front);
        let end = set.append_claims(claims);
        assert forall|i: int| 0 <= i < claims.len() implies end.states(
            set.evals.len() + i,
            #[trigger] claims[i],
        ) by {
            if i < front.len() {
                assert(front[i] == claims[i]);
                assert(mid.states(set.evals.len() + i, front[i]));
            }
        }
    }
}

/// The index found holds the point, and no earlier one does.
pub proof fn find_point_props(points: Seq<Seq<int>>, point: Seq<int>)
    ensures
        0 <= find_point(points, point) <= points.len(),
        find_point(points, point) < points.len() ==> points[find_point(points, point)] == point,
        forall|j: int| 0 <= j < find_point(points, point) ==> #[trigger] points[j] != point,
    decreases points.len(),
{
    if points.len() > 0 && points[0] != point {
        let rest = points.drop_first();
        find_point_props(rest, point);
        assert forall|j: int| 0 <= j < find_point(points, point) implies #[trigger] points[j]
            != point by {
            if j > 0 {
                assert(rest[j - 1] == points[j]);
            }
        }
    }
}

/// An index is the first occurrence if the point stands there and nowhere
/// before.
pub proof fn find_point_at(points: Seq<Seq<int>>, point: Seq<int>, at: int)
    requires
        0 <= at <= points.len(),
        at < points.len() ==> points[at] == point,
        forall|j: int| 0 <= j < at ==> #[trigger] points[j] != point,
    ensures
        find_point(points, point) == at,
{
    find_point_props(points, point);
    let f = find_point(points, point);
    if f < at {
        assert(points[f] != point);
    }
    if at < f {
        assert(points[at] != point);
    }
}

/// Every claim added is stated, and what was stated before still is.
pub proof fn add_claims_states(set: ClaimSet, claims: Seq<Claim>)
    requires
        forall|i: int|
            0 <= i < set.evals.len() ==> 0 <= (#[trigger] set.evals[i]).point < set.points.len(),
    ensures
        set.add_claims(claims).evals.len() == set.evals.len() + claims.len(),
        set.points.len() <= set.add_claims(claims).points.len() <= set.points.len() + claims.len(),
        forall|i: int|
            0 <= i < set.evals.len() ==> #[trigger] set.add_claims(claims).evals[i]
                == set.evals[i],
        forall|i: int|
            0 <= i < set.points.len() ==> #[trigger] set.add_claims(claims).points[i]
                == set.points[i],
        forall|i: int|
            0 <= i < claims.len() ==> set.add_claims(claims).states(
                set.evals.len() + i,
                #[trigger] claims[i],
            ),
    decreases claims.len(),
{
    if claims.len() > 0 {
        let front = claims.drop_last();
        add_claims_states(set, front);
        let mid = set.add_claims(front);
        let end = set.add_claims(claims);
        find_point_props(mid.points, claims.last().point);
        assert forall|i: int| 0 <= i < claims.len() implies end.states(
            set.evals.len() + i,
            #[trigger] claims[i],
        ) by {
            if i < front.len() {
                assert(front[i] == claims[i]);
                assert(mid.states(set.evals.len() + i, front[i]));
            }
        }
    }
}

/// Whether two points are equal.
pub fn same_point<F: PrimeField>(a: &[F], b: &[F]) -> (r: bool)
    ensures
        r == (vals(a@) == vals(b@)),
{
    if a.len() != b.len() {
        assert(vals(a@).len() != vals(b@).len());
        return false;
    }
    let mut i: usize = 0;
    while i < a.len()
        invariant
            i <= a@.len(),
            a@.len() == b@.len(),
            forall|j: int| 0 <= j < i ==> (#[trigger] a@[j]).val() == b@[j].val(),
        decreases a@.len() - i,
    {
        if !a[i].equals(b[i]) {
            assert(vals(a@)[i as int] != vals(b@)[i as int]);
            return false;
        }
        i = i + 1;
    }
    assert(vals(a@) =~= vals(b@));
    true
}

/// Adds a claim; a point that occurs already is used again.
pub fn push_basefold_opening_claim<F: PrimeField>(
    points: &mut Vec<Vec<F>>,
    evals: &mut Vec<Evaluation<F>>,
    poly_index: usize,
    point: Vec<F>,
    value: F,
)
    ensures
        claim_set(final(points)@, final(evals)@) == claim_set(old(points)@, old(evals)@).add_claim(
            Claim { poly: poly_index as int, point: vals(point@), value: value.val() },
        ),
{
    let ghost p0 = mat(points@);
    let ghost e0 = evals_view(evals@);
    let ghost target = vals(point@);
    let mut at: usize = 0;
    let mut found: bool = false;
    while at < points.len() && !found
        invariant
            at <= points@.len(),
            p0 == mat(points@),
            target == vals(point@),
            forall|j: int| 0 <= j < at ==> #[trigger] p0[j] != target,
            found ==> at < points@.len() && p0[at as int] == target,
        decreases points@.len() - at, if found { 0int } else { 1int },
    {
        assert(p0[at as int] == vals(points@[at as int]@));
        if same_point(&points[at], &point) {
            found = true;
        } else {
            at = at + 1;
        }
    }
    proof {
        find_point_at(p0, target, at as int);
    }
    if !found {
        proof {
            mat_push(points@, point);
        }
        points.push(point);
    }
    evals.push(Evaluation { poly: poly_index, point: at, value });
    proof {
        let claim = Claim { poly: poly_index as int, point: target, value: value.val() };
        assert(evals_view(evals@) =~= e0.push(
            IndexedClaim { poly: claim.poly, point: at as int, value: claim.value },
        ));
        assert(claim_set(points@, evals@) =~= ClaimSet { points: p0, evals: e0 }.add_claim(claim));
    }
}

/// Adds a claim with a point entry of its own.
pub fn append_opening_claim<F: PrimeField>(
    points: &mut Vec<Vec<F>>,
    evals: &mut Vec<Evaluation<F>>,
    poly_index: usize,
    point: Vec<F>,
    value: F,
)
    ensures
        claim_set(final(points)@, final(evals)@) == claim_set(
            old(points)@,
            old(evals)@,
        ).append_claim(
            Claim { poly: poly_index as int, point: vals(point@), value: value.val() },
        ),
        final(points)@.len() == old(points)@.len() + 1,
        final(evals)@.len() == old(evals)@.len() + 1,
{
    let ghost p0 = mat(points@);
    let ghost e0 = evals_view(evals@);
    proof {
        mat_push(points@, point);
    }
    let at: usize = points.len();
    points.push(point);
    evals.push(Evaluation { poly: poly_index, point: at, value });
    proof {
        let claim = Claim { poly: poly_index as int, point: vals(point@), value: value.val() };
        assert(evals_view(evals@) =~= e0.push(
            IndexedClaim { poly: claim.poly, point: at as int, value: claim.value },
        ));
        assert(claim_set(points@, evals@) =~= ClaimSet { points: p0, evals: e0 }.append_claim(
            claim,
        ));
    }
}

} // verus!
