//! Points of the BN254 curve `y^2 = x^3 + 3` and of its twist, held as
//! canonical coordinates, with the group law and pairing of the `ark_ec` crate.

use crate::field::{add_mod, fq_modulus, mul_mod, neg_mod, Fq, Fr};
use ark_bn254::Bn254;
use ark_ec::pairing::Pairing;
use ark_ec::AffineRepr;
use ark_ec::CurveGroup;
use ark_ff::BigInt;
use ark_ff::PrimeField;
use ark_ff::Zero;
use vstd::prelude::*;

verus! {

/// A point of the first group by its affine coordinates, or the point at
/// infinity, for which both coordinates are zero.
pub struct G1Point {
    pub x: int,
    pub y: int,
    pub infinity: bool,
}

/// A point of the second group: affine coordinates in the quadratic
/// extension, each given by its two components, or the point at infinity.
pub struct G2Point {
    pub x0: int,
    pub x1: int,
    pub y0: int,
    pub y1: int,
    pub infinity: bool,
}

/// The sum of two points under the curve's group law, as `ark_ec` computes it.
pub uninterp spec fn g1_add(a: G1Point, b: G1Point) -> G1Point;

/// The multiple of a point by a non-negative integer, as `ark_ec` computes it.
pub uninterp spec fn g1_mul(s: int, p: G1Point) -> G1Point;

/// Whether `e(p0, G2) * e(p1, g2x)` is the unit of the target group, where
/// `G2` is the generator of the second group, as `ark_ec` computes it.
pub uninterp spec fn pairing_product_is_one(p0: G1Point, p1: G1Point, g2x: G2Point) -> bool;

/// The point at infinity.
pub open spec fn g1_identity() -> G1Point {
    G1Point { x: 0, y: 0, infinity: true }
}

/// The generator `(1, 2)` of the first group.
pub open spec fn g1_generator() -> G1Point {
    G1Point { x: 1, y: 2, infinity: false }
}

/// The reflection of a point in the x-axis: its inverse in the group.
pub open spec fn g1_neg(p: G1Point) -> G1Point {
    G1Point { x: p.x, y: neg_mod(p.y, fq_modulus()), infinity: p.infinity }
}

impl G1Point {
    /// Canonical coordinates; the point at infinity has both zero.
    pub open spec fn wf(self) -> bool {
        &&& 0 <= self.x < fq_modulus()
        &&& 0 <= self.y < fq_modulus()
        &&& self.infinity ==> self.x == 0 && self.y == 0
    }

    /// The curve equation `y^2 = x^3 + 3`, which the point at infinity meets.
    pub open spec fn on_curve(self) -> bool {
        self.infinity || mul_mod(self.y, self.y, fq_modulus()) == add_mod(
            mul_mod(mul_mod(self.x, self.x, fq_modulus()), self.x, fq_modulus()),
            3,
            fq_modulus(),
        )
    }
}

/// A point of the first group in affine coordinates.
#[derive(Clone, Copy, PartialEq, Eq, Debug)]
pub struct G1Affine {
    pub x: Fq,
    pub y: Fq,
    pub infinity: bool,
}

impl View for G1Affine {
    type V = G1Point;

    open spec fn view(&self) -> G1Point {
        G1Point { x: self.x@, y: self.y@, infinity: self.infinity }
    }
}

/// An element of the quadratic extension of the base field.
#[derive(Clone, Copy, PartialEq, Eq, Debug)]
pub struct Fq2 {
    pub c0: Fq,
    pub c1: Fq,
}

/// A point of the second group in affine coordinates.
#[derive(Clone, Copy, PartialEq, Eq, Debug)]
pub struct G2Affine {
    pub x: Fq2,
    pub y: Fq2,
    pub infinity: bool,
}

impl View for G2Affine {
    type V = G2Point;

    open spec fn view(&self) -> G2Point {
        G2Point {
            x0: self.x.c0@,
            x1: self.x.c1@,
            y0: self.y.c0@,
            y1: self.y.c1@,
            infinity: self.infinity,
        }
    }
}

/// `ark_ec`'s `+` on two affine points of `ark_bn254`'s first group, brought
/// back to affine form: their sum under the group law.
#[verifier::external_body]
fn ark_g1_add(a: &G1Affine, b: &G1Affine) -> (r: G1Affine)
    requires
        a.wf(),
        b.wf(),
    ensures
        r.wf(),
        r@ == g1_add(a@, b@),
{
    let pa = ark_bn254::G1Affine {
        x: ark_bn254::Fq::new(BigInt(a.x.limbs)),
        y: ark_bn254::Fq::new(BigInt(a.y.limbs)),
        infinity: a.infinity,
    };
    let pb = ark_bn254::G1Affine {
        x: ark_bn254::Fq::new(BigInt(b.x.limbs)),
        y: ark_bn254::Fq::new(BigInt(b.y.limbs)),
        infinity: b.infinity,
    };
    let c = (pa + pb).into_affine();
    G1Affine { x: Fq { limbs: c.x.into_bigint().0 }, y: Fq { limbs: c.y.into_bigint().0 }, infinity: c.infinity }
}

/// `ark_ec`'s `AffineRepr::mul_bigint` on an affine point of `ark_bn254`'s
/// first group, brought back to affine form: the multiple of the point by
/// the scalar's canonical integer.
#[verifier::external_body]
fn ark_g1_mul(p: &G1Affine, s: &Fr) -> (r: G1Affine)
    requires
        p.wf(),
        s.wf(),
    ensures
        r.wf(),
        r@ == g1_mul(s@, p@),
{
    let pa = ark_bn254::G1Affine {
        x: ark_bn254::Fq::new(BigInt(p.x.limbs)),
        y: ark_bn254::Fq::new(BigInt(p.y.limbs)),
        infinity: p.infinity,
    };
    let c = pa.mul_bigint(s.limbs).into_affine();
    G1Affine { x: Fq { limbs: c.x.into_bigint().0 }, y: Fq { limbs: c.y.into_bigint().0 }, infinity: c.infinity }
}

impl G1Affine {
    /// Canonical coordinates; the point at infinity has both zero.
    pub open spec fn wf(&self) -> bool {
        &&& self.x.wf()
        &&& self.y.wf()
        &&& self.infinity ==> self.x@ == 0 && self.y@ == 0
    }

    /// The point at infinity, the identity of the group.
    pub fn identity() -> (r: G1Affine)
        ensures
            r.wf(),
            r@ == g1_identity(),
    {
        G1Affine { x: Fq::zero(), y: Fq::zero(), infinity: true }
    }

    /// The generator `(1, 2)`.
    pub fn generator() -> (r: G1Affine)
        ensures
            r.wf(),
            r@ == g1_generator(),
            r@.on_curve(),
    {
        let r = G1Affine { x: Fq::one(), y: Fq::from_u64(2), infinity: false };
        proof {
            assert(mul_mod(2, 2, fq_modulus()) == 4);
            assert(mul_mod(mul_mod(1, 1, fq_modulus()), 1, fq_modulus()) == 1);
            assert(add_mod(1, 3, fq_modulus()) == 4);
        }
        r
    }

    /// The point with the given coordinates, whether on the curve or not.
    pub fn from_xy(x: Fq, y: Fq) -> (r: G1Affine)
        requires
            x.wf(),
            y.wf(),
        ensures
            r.wf(),
            r@ == (G1Point { x: x@, y: y@, infinity: false }),
    {
        G1Affine { x, y, infinity: false }
    }

    /// Whether this is the point at infinity.
    pub fn is_point_at_infinity(&self) -> (r: bool)
        ensures
            r == self@.infinity,
    {
        self.infinity
    }

    /// Whether the point meets the curve equation.
    pub fn on_curve(&self) -> (r: bool)
        requires
            self.wf(),
        ensures
            r == self@.on_curve(),
    {
        if self.infinity {
            true
        } else {
            let lhs = self.y.square();
            let x3 = self.x.square().mul(&self.x);
            let rhs = x3.add(&Fq::from_u64(3));
            lhs.equals(&rhs)
        }
    }

    /// Whether two points are the same point.
    pub fn equals(&self, other: &G1Affine) -> (r: bool)
        ensures
            r == (self@ == other@),
    {
        self.x.equals(&other.x) && self.y.equals(&other.y) && self.infinity == other.infinity
    }

    /// The inverse of the point in the group.
    pub fn neg(&self) -> (r: G1Affine)
        requires
            self.wf(),
        ensures
            r.wf(),
            r@ == g1_neg(self@),
    {
        let r = G1Affine { x: self.x, y: self.y.neg(), infinity: self.infinity };
        proof {
            if self.infinity {
                assert(neg_mod(0, fq_modulus()) == 0);
            }
        }
        r
    }

    /// The sum of two points.
    pub fn add(&self, other: &G1Affine) -> (r: G1Affine)
        requires
            self.wf(),
            other.wf(),
        ensures
            r.wf(),
            r@ == g1_add(self@, other@),
    {
        ark_g1_add(self, other)
    }

    /// The multiple of the point by a scalar.
    pub fn mul(&self, s: &Fr) -> (r: G1Affine)
        requires
            self.wf(),
            s.wf(),
        ensures
            r.wf(),
            r@ == g1_mul(s@, self@),
    {
        ark_g1_mul(self, s)
    }
}

/// `ark_ec`'s Miller loop and final exponentiation on `ark_bn254`, for the
/// pairs `(p0, G2)` and `(p1, g2x)` with `G2` the generator of the second
/// group: whether the product of the two pairings is the unit of the target
/// group. Where the final exponentiation has no result, the answer is no.
#[verifier::external_body]
fn ark_pairing_check(p0: &G1Affine, p1: &G1Affine, g2x: &G2Affine) -> (r: bool)
    requires
        p0.wf(),
        p1.wf(),
        g2x.wf(),
    ensures
        r ==> pairing_product_is_one(p0@, p1@, g2x@),
        pairing_product_is_one(p0@, p1@, g2x@) ==> r,
{
    let f = |v: &Fq| ark_bn254::Fq::new(BigInt(v.limbs));
    let g = |p: &G1Affine| ark_bn254::G1Affine { x: f(&p.x), y: f(&p.y), infinity: p.infinity };
    let q = ark_bn254::G2Affine {
        x: ark_bn254::Fq2::new(f(&g2x.x.c0), f(&g2x.x.c1)),
        y: ark_bn254::Fq2::new(f(&g2x.y.c0), f(&g2x.y.c1)),
        infinity: g2x.infinity,
    };
    let ml = Bn254::multi_miller_loop([g(p0), g(p1)], [ark_bn254::G2Affine::generator(), q]);
    match Bn254::final_exponentiation(ml) {
        Some(v) => v.is_zero(),
        None => false,
    }
}

impl G2Affine {
    /// Canonical coordinates; the point at infinity has all zero.
    pub open spec fn wf(&self) -> bool {
        &&& self.x.c0.wf()
        &&& self.x.c1.wf()
        &&& self.y.c0.wf()
        &&& self.y.c1.wf()
        &&& self.infinity ==> self.x.c0@ == 0 && self.x.c1@ == 0 && self.y.c0@ == 0 && self.y.c1@
            == 0
    }
}

/// Whether `e(p0, G2) * e(p1, g2x)` is the unit of the target group.
pub fn pairing_check(p0: &G1Affine, p1: &G1Affine, g2x: &G2Affine) -> (r: bool)
    requires
        p0.wf(),
        p1.wf(),
        g2x.wf(),
    ensures
        r == pairing_product_is_one(p0@, p1@, g2x@),
{
    ark_pairing_check(p0, p1, g2x)
}

} // verus!
