//! Structured reference strings held in memory: the monomial points for the
//! prover, the second-group point for the verifier.

use crate::bytes::{fq_from_bytes, spec_coordinate};
use crate::errors::Error;
use crate::group::{Fq2, G1Affine, G2Affine, G2Point};
use vstd::prelude::*;

verus! {

/// Every point of the sequence has canonical coordinates.
pub open spec fn all_points_wf(s: Seq<G1Affine>) -> bool {
    forall|i: int| 0 <= i < s.len() ==> (#[trigger] s[i]).wf()
}

/// The monomial points of a reference string: the powers of the secret in
/// the first group, from degree zero up.
pub struct ProverReferenceString {
    pub monomials: Vec<G1Affine>,
}

impl ProverReferenceString {
    /// Every point has canonical coordinates.
    pub open spec fn wf(&self) -> bool {
        all_points_wf(self.monomials@)
    }

    /// The reference string with the given monomial points.
    pub fn new(monomials: Vec<G1Affine>) -> (r: ProverReferenceString)
        requires
            all_points_wf(monomials@),
        ensures
            r.wf(),
            r.monomials == monomials,
    {
        ProverReferenceString { monomials }
    }

    /// The number of monomial points held.
    pub fn get_monomial_size(&self) -> (n: usize)
        ensures
            n == self.monomials@.len(),
    {
        self.monomials.len()
    }

    /// The monomial points of degree zero to `degree`. A degree beyond the
    /// last point held is refused, and nothing is cut short.
    pub fn get_monomial_points(&self, degree: usize) -> (r: Result<&[G1Affine], Error>)
        ensures
            r is Err <==> degree >= self.monomials@.len(),
            r matches Err(e) ==> e == Error::InsufficientSrs,
            r matches Ok(points) ==> points@ == self.monomials@.take(degree + 1),
    {
        if degree >= self.monomials.len() {
            Err(Error::InsufficientSrs)
        } else {
            Ok(vstd::slice::slice_subrange(self.monomials.as_slice(), 0, degree + 1))
        }
    }
}

/// The point of the second group that 128 bytes spell: the components
/// `x.c0`, `x.c1`, `y.c0`, `y.c1`, 32 big-endian bytes each.
pub open spec fn spec_g2_from_bytes(bytes: Seq<u8>) -> Option<G2Point> {
    if bytes.len() != 128 {
        None
    } else {
        match (
            spec_coordinate(bytes.subrange(0, 32)),
            spec_coordinate(bytes.subrange(32, 64)),
            spec_coordinate(bytes.subrange(64, 96)),
            spec_coordinate(bytes.subrange(96, 128)),
        ) {
            (Some(x0), Some(x1), Some(y0), Some(y1)) => Some(
                G2Point { x0, x1, y0, y1, infinity: false },
            ),
            _ => None,
        }
    }
}

impl G2Affine {
    /// The point that 128 bytes spell; none where the length is not 128 or a
    /// component is not canonical.
    pub fn from_bytes(bytes: &[u8]) -> (r: Option<G2Affine>)
        ensures
            r is Some <==> spec_g2_from_bytes(bytes@) is Some,
            r matches Some(p) ==> p.wf() && Some(p@) == spec_g2_from_bytes(bytes@),
    {
        if bytes.len() != 128 {
            return None;
        }
        let x0 = fq_from_bytes(vstd::slice::slice_subrange(bytes, 0, 32));
        let x1 = fq_from_bytes(vstd::slice::slice_subrange(bytes, 32, 64));
        let y0 = fq_from_bytes(vstd::slice::slice_subrange(bytes, 64, 96));
        let y1 = fq_from_bytes(vstd::slice::slice_subrange(bytes, 96, 128));
        match (x0, x1, y0, y1) {
            (Some(x0), Some(x1), Some(y0), Some(y1)) => Some(
                G2Affine { x: Fq2 { c0: x0, c1: x1 }, y: Fq2 { c0: y0, c1: y1 }, infinity: false },
            ),
            _ => None,
        }
    }
}

/// The verifier's part of a reference string: the secret's multiple of the
/// generator of the second group.
pub struct VerifierMemReferenceString {
    pub g2_x: G2Affine,
}

impl VerifierMemReferenceString {
    /// The point has canonical coordinates.
    pub open spec fn wf(&self) -> bool {
        self.g2_x.wf()
    }

    /// The reference string whose point the 128 bytes spell.
    pub fn new(g2x: &[u8]) -> (r: Result<VerifierMemReferenceString, Error>)
        ensures
            r is Ok <==> spec_g2_from_bytes(g2x@) is Some,
            r matches Err(e) ==> e == Error::SerializationError,
            r matches Ok(s) ==> s.wf() && Some(s.g2_x@) == spec_g2_from_bytes(g2x@),
    {
        match G2Affine::from_bytes(g2x) {
            Some(g2_x) => Ok(VerifierMemReferenceString { g2_x }),
            None => Err(Error::SerializationError),
        }
    }

    /// The reference string with the given point.
    pub fn from_point(g2_x: G2Affine) -> (r: VerifierMemReferenceString)
        requires
            g2_x.wf(),
        ensures
            r.wf(),
            r.g2_x == g2_x,
    {
        VerifierMemReferenceString { g2_x }
    }

    /// The secret's multiple of the generator of the second group.
    pub fn get_g2x(&self) -> (r: G2Affine)
        ensures
            r == self.g2_x,
    {
        self.g2_x
    }
}

} // verus!
