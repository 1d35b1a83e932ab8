//! Points of the first group in projective coordinates.

use crate::field::Fq;
use crate::group::G1Affine;
use vstd::prelude::*;

verus! {

/// A point of the first group in projective coordinates.
#[derive(Clone, Copy, PartialEq, Eq, Debug)]
pub struct G1Projective {
    pub x: Fq,
    pub y: Fq,
    pub z: Fq,
}

impl G1Projective {
    /// Canonical coordinates.
    pub open spec fn wf(&self) -> bool {
        self.x.wf() && self.y.wf() && self.z.wf()
    }

    /// The projective form of an affine point: `(x, y, 1)`, and `(0, 1, 0)`
    /// for the point at infinity.
    pub fn from_affine(p: &G1Affine) -> (r: G1Projective)
        requires
            p.wf(),
        ensures
            r.wf(),
            spec_is_point_at_infinity(r) == p@.infinity,
            !p@.infinity ==> r.x@ == p@.x && r.y@ == p@.y && r.z@ == 1,
    {
        if p.infinity {
            G1Projective { x: Fq::zero(), y: Fq::one(), z: Fq::zero() }
        } else {
            G1Projective { x: p.x, y: p.y, z: Fq::one() }
        }
    }
}

/// A point is at infinity where its `z` is zero while `x` and `y` are not
/// both zero. All three zero is no point.
pub open spec fn spec_is_point_at_infinity(point: G1Projective) -> bool {
    !(point.x@ == 0 && point.y@ == 0) && point.z@ == 0
}

/// Whether a point is the point at infinity.
pub fn is_point_at_infinity(point: &G1Projective) -> (r: bool)
    ensures
        r == spec_is_point_at_infinity(*point),
{
    !(point.x.is_zero() && point.y.is_zero()) && point.z.is_zero()
}

} // verus!
