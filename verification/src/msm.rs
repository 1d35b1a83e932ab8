//! Multi-scalar multiplication: the sum of the multiples of points by
//! scalars, term after term.

use crate::errors::Error;
use crate::field::Fr;
use crate::group::{g1_add, g1_identity, g1_mul, G1Affine, G1Point};
use crate::group_laws::{all_nonneg, all_valid, g1_laws, lc, lemma_mul_is_smul};
use crate::polynomial::{all_wf, fr_values};
use crate::reference_string::all_points_wf;
use vstd::prelude::*;

verus! {

/// The points that a sequence of affine points stands for.
pub open spec fn points_view(s: Seq<G1Affine>) -> Seq<G1Point> {
    Seq::new(s.len(), |i: int| s[i]@)
}

/// The sum of `scalars[i] * points[i]`, added up from the first term to the
/// last, starting from the point at infinity.
pub open spec fn msm(scalars: Seq<int>, points: Seq<G1Point>) -> G1Point
    recommends
        scalars.len() == points.len(),
    decreases scalars.len(),
{
    if scalars.len() == 0 {
        g1_identity()
    } else {
        g1_add(
            msm(scalars.drop_last(), points.drop_last()),
            g1_mul(scalars.last(), points.last()),
        )
    }
}

/// The sum of `scalars[i] * points[i]` by one multiplication and one
/// addition for each term. Sequences of different lengths are refused.
pub fn msm_naive(scalars: &[Fr], points: &[G1Affine]) -> (r: Result<G1Affine, Error>)
    requires
        all_wf(scalars@),
        all_points_wf(points@),
    ensures
        r is Err <==> scalars@.len() != points@.len(),
        r matches Err(e) ==> e == Error::InvalidInput,
        r matches Ok(p) ==> p.wf() && p@ == msm(fr_values(scalars@), points_view(points@)),
{
    if scalars.len() != points.len() {
        return Err(Error::InvalidInput);
    }
    let ghost s = fr_values(scalars@);
    let ghost q = points_view(points@);
    let mut acc = G1Affine::identity();
    let mut i: usize = 0;
    while i < scalars.len()
        invariant
            scalars@.len() == points@.len(),
            all_wf(scalars@),
            all_points_wf(points@),
            s == fr_values(scalars@),
            q == points_view(points@),
            i <= scalars@.len(),
            acc.wf(),
            acc@ == msm(s.take(i as int), q.take(i as int)),
        decreases scalars@.len() - i,
    {
        let term = points[i].mul(&scalars[i]);
        proof {
            assert(s.take(i + 1).drop_last() =~= s.take(i as int));
            assert(q.take(i + 1).drop_last() =~= q.take(i as int));
        }
        acc = acc.add(&term);
        i = i + 1;
    }
    proof {
        assert(s.take(i as int) =~= s);
        assert(q.take(i as int) =~= q);
    }
    Ok(acc)
}

/// Under the group law, the sum of the multiples is the sum of the repeated
/// additions.
pub proof fn lemma_msm_is_lc(scalars: Seq<int>, points: Seq<G1Point>)
    requires
        g1_laws(),
        all_valid(points),
        scalars.len() == points.len(),
        all_nonneg(scalars),
    ensures
        msm(scalars, points) == lc(points, scalars),
    decreases points.len(),
{
    if points.len() > 0 {
        lemma_msm_is_lc(scalars.drop_last(), points.drop_last());
        lemma_mul_is_smul(scalars.last(), points.last());
    }
}

} // verus!
