use vstd::prelude::*;

verus! {

/// How much of a bounding volume lies inside a frustum: none of it (`Outside`), part of it,
/// or all of it.
#[derive(Clone, Copy, Debug, PartialEq, Eq, Structural)]
pub enum BoundingIntersection {
    Outside,
    Partial,
    Full,
}

/// The order of the intersections: none below partial below full.
pub open spec fn intersection_rank(b: BoundingIntersection) -> int {
    match b {
        BoundingIntersection::Outside => 0,
        BoundingIntersection::Partial => 1,
        BoundingIntersection::Full => 2,
    }
}

/// The lesser of two intersections.
pub open spec fn intersection_min(a: BoundingIntersection, b: BoundingIntersection) -> BoundingIntersection {
    if intersection_rank(a) <= intersection_rank(b) {
        a
    } else {
        b
    }
}

impl BoundingIntersection {
    pub fn is_none(&self) -> (r: bool)
        ensures
            r == (*self == BoundingIntersection::Outside),
    {
        matches!(self, Self::Outside)
    }

    pub fn is_partial(&self) -> (r: bool)
        ensures
            r == (*self == BoundingIntersection::Partial),
    {
        matches!(self, Self::Partial)
    }

    pub fn is_full(&self) -> (r: bool)
        ensures
            r == (*self == BoundingIntersection::Full),
    {
        matches!(self, Self::Full)
    }

    /// The lesser of two intersections: none if either is none, else partial if either is
    /// partial, else full.
    pub fn min(&self, rhs: Self) -> (r: Self)
        ensures
            r == intersection_min(*self, rhs),
    {
        if self.is_none() || rhs.is_none() {
            return Self::Outside;
        }
        if self.is_partial() || rhs.is_partial() {
            return Self::Partial;
        }
        Self::Full
    }
}

impl From<BoundingIntersection> for bool {
    fn from(intersection: BoundingIntersection) -> (r: bool) {
        match intersection {
            BoundingIntersection::Outside => false,
            BoundingIntersection::Partial | BoundingIntersection::Full => true,
        }
    }
}

impl vstd::std_specs::convert::FromSpecImpl<BoundingIntersection> for bool {
    open spec fn obeys_from_spec() -> bool {
        true
    }

    open spec fn from_spec(v: BoundingIntersection) -> bool {
        v != BoundingIntersection::Outside
    }
}

/// `min` is a meet: commutative, associative and idempotent, with full as its identity and
/// none as its zero.
pub proof fn lemma_intersection_min_meet(
    a: BoundingIntersection,
    b: BoundingIntersection,
    c: BoundingIntersection,
)
    ensures
        intersection_min(a, b) == intersection_min(b, a),
        intersection_min(intersection_min(a, b), c) == intersection_min(a, intersection_min(b, c)),
        intersection_min(a, a) == a,
        intersection_min(a, BoundingIntersection::Full) == a,
        intersection_min(a, BoundingIntersection::Outside) == BoundingIntersection::Outside,
{
}

} // verus!
