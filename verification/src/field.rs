//! Elements of the BN254 scalar field `Fr` and base field `Fq`, held as four
//! 64-bit limbs in canonical form, with the arithmetic of the `ark_ff` crate.

use ark_ff::BigInteger;
use ark_ff::Field;
use ark_ff::PrimeField;
use vstd::prelude::*;

verus! {

/// Order of the BN254 scalar field.
pub open spec fn fr_modulus() -> int {
    0x30644e72e131a029b85045b68181585d2833e84879b9709143e1f593f0000001int
}

/// Order of the BN254 base field.
pub open spec fn fq_modulus() -> int {
    0x30644e72e131a029b85045b68181585d97816a916871ca8d3c208c16d87cfd47int
}

/// The number that four little-endian 64-bit limbs stand for.
pub open spec fn limbs_value(l0: u64, l1: u64, l2: u64, l3: u64) -> int {
    (l0 as int) + (l1 as int) * 0x1_0000_0000_0000_0000int + (l2 as int)
        * 0x1_0000_0000_0000_0000_0000_0000_0000_0000int + (l3 as int)
        * 0x1_0000_0000_0000_0000_0000_0000_0000_0000_0000_0000_0000_0000int
}

/// The number that a big-endian byte string stands for.
pub open spec fn be_value(bytes: Seq<u8>) -> int
    decreases bytes.len(),
{
    if bytes.len() == 0 {
        0
    } else {
        be_value(bytes.drop_last()) * 256 + bytes.last() as int
    }
}

/// Sum modulo `p`.
pub open spec fn add_mod(a: int, b: int, p: int) -> int {
    (a + b) % p
}

/// Difference modulo `p`.
pub open spec fn sub_mod(a: int, b: int, p: int) -> int {
    (a - b) % p
}

/// Product modulo `p`.
pub open spec fn mul_mod(a: int, b: int, p: int) -> int {
    (a * b) % p
}

/// Additive inverse modulo `p`.
pub open spec fn neg_mod(a: int, p: int) -> int {
    (-a) % p
}

/// `b` is a canonical multiplicative inverse of `a` modulo `p`.
pub open spec fn is_inverse_mod(a: int, b: int, p: int) -> bool {
    0 <= b < p && (a * b) % p == 1
}

/// The canonical multiplicative inverse of `a` modulo `p`, where one exists.
pub open spec fn inv_mod(a: int, p: int) -> int {
    choose|b: int| is_inverse_mod(a, b, p)
}

/// Two integers that agree modulo `p`.
pub open spec fn eqm(a: int, b: int, p: int) -> bool {
    a % p == b % p
}

/// An element of the BN254 scalar field.
#[derive(Clone, Copy, PartialEq, Eq, Debug)]
pub struct Fr {
    pub limbs: [u64; 4],
}

impl View for Fr {
    type V = int;

    open spec fn view(&self) -> int {
        limbs_value(self.limbs[0], self.limbs[1], self.limbs[2], self.limbs[3])
    }
}

/// `ark_ff`'s `+` on `ark_bn254::Fr`: the sum modulo the field order.
#[verifier::external_body]
fn ark_fr_add(a: &Fr, b: &Fr) -> (r: Fr)
    requires
        a.wf(),
        b.wf(),
    ensures
        r.wf(),
        r@ == add_mod(a@, b@, fr_modulus()),
{
    let x = ark_bn254::Fr::new(ark_ff::BigInt(a.limbs));
    let y = ark_bn254::Fr::new(ark_ff::BigInt(b.limbs));
    Fr { limbs: (x + y).into_bigint().0 }
}

/// `ark_ff`'s `-` on `ark_bn254::Fr`: the difference modulo the field order.
#[verifier::external_body]
fn ark_fr_sub(a: &Fr, b: &Fr) -> (r: Fr)
    requires
        a.wf(),
        b.wf(),
    ensures
        r.wf(),
        r@ == sub_mod(a@, b@, fr_modulus()),
{
    let x = ark_bn254::Fr::new(ark_ff::BigInt(a.limbs));
    let y = ark_bn254::Fr::new(ark_ff::BigInt(b.limbs));
    Fr { limbs: (x - y).into_bigint().0 }
}

/// `ark_ff`'s `*` on `ark_bn254::Fr`: the product modulo the field order.
#[verifier::external_body]
fn ark_fr_mul(a: &Fr, b: &Fr) -> (r: Fr)
    requires
        a.wf(),
        b.wf(),
    ensures
        r.wf(),
        r@ == mul_mod(a@, b@, fr_modulus()),
{
    let x = ark_bn254::Fr::new(ark_ff::BigInt(a.limbs));
    let y = ark_bn254::Fr::new(ark_ff::BigInt(b.limbs));
    Fr { limbs: (x * y).into_bigint().0 }
}

/// `ark_ff`'s `Field::inverse` on `ark_bn254::Fr`: `None` for zero, else the element
/// whose product with the argument is one.
#[verifier::external_body]
fn ark_fr_inverse(a: &Fr) -> (r: Option<Fr>)
    requires
        a.wf(),
    ensures
        r is None <==> a@ == 0,
        r matches Some(v) ==> v.wf() && mul_mod(a@, v@, fr_modulus()) == 1,
{
    let x = ark_bn254::Fr::new(ark_ff::BigInt(a.limbs));
    match x.inverse() {
        Some(y) => Some(Fr { limbs: y.into_bigint().0 }),
        None => None,
    }
}

/// `ark_ff`'s `PrimeField::from_be_bytes_mod_order` on `ark_bn254::Fr`: the number
/// that the bytes spell, most significant first, reduced modulo the field
/// order.
#[verifier::external_body]
fn ark_fr_from_be_bytes_mod_order(bytes: &[u8]) -> (r: Fr)
    ensures
        r.wf(),
        r@ == be_value(bytes@) % fr_modulus(),
{
    Fr { limbs: ark_bn254::Fr::from_be_bytes_mod_order(bytes).into_bigint().0 }
}

/// `ark_ff`'s `BigInteger::to_bytes_be` on the canonical integer of an
/// `ark_bn254::Fr`: its 32 bytes, most significant first.
#[verifier::external_body]
fn ark_fr_to_bytes_be(a: &Fr) -> (r: Vec<u8>)
    requires
        a.wf(),
    ensures
        r@.len() == 32,
        be_value(r@) == a@,
{
    ark_ff::BigInt(a.limbs).to_bytes_be()
}

impl Fr {
    /// Canonical form: the limbs stand for a number below the field order.
    pub open spec fn wf(&self) -> bool {
        self@ < fr_modulus()
    }

    /// The element with the given limbs, least significant first, where they
    /// stand for a number below the field order.
    pub fn from_limbs(l0: u64, l1: u64, l2: u64, l3: u64) -> (r: Option<Fr>)
        ensures
            r is Some <==> limbs_value(l0, l1, l2, l3) < fr_modulus(),
            r matches Some(v) ==> v.wf() && v@ == limbs_value(l0, l1, l2, l3),
    {
        // the limbs are compared with those of the order, most significant first
        let below = if l3 != 0x30644e72e131a029 {
            l3 < 0x30644e72e131a029
        } else if l2 != 0xb85045b68181585d {
            l2 < 0xb85045b68181585d
        } else if l1 != 0x2833e84879b97091 {
            l1 < 0x2833e84879b97091
        } else {
            l0 < 0x43e1f593f0000001
        };
        if below {
            Some(Fr { limbs: [l0, l1, l2, l3] })
        } else {
            None
        }
    }

    /// Whether the limbs stand for a number below the field order.
    pub fn is_canonical(&self) -> (r: bool)
        ensures
            r == self.wf(),
    {
        Fr::from_limbs(self.limbs[0], self.limbs[1], self.limbs[2], self.limbs[3]).is_some()
    }

    /// The zero element.
    pub fn zero() -> (r: Fr)
        ensures
            r.wf(),
            r@ == 0,
    {
        Fr { limbs: [0, 0, 0, 0] }
    }

    /// The unit element.
    pub fn one() -> (r: Fr)
        ensures
            r.wf(),
            r@ == 1,
    {
        Fr { limbs: [1, 0, 0, 0] }
    }

    /// The element that stands for a machine integer.
    pub fn from_u64(v: u64) -> (r: Fr)
        ensures
            r.wf(),
            r@ == v,
    {
        Fr { limbs: [v, 0, 0, 0] }
    }

    /// Whether this is the zero element.
    pub fn is_zero(&self) -> (r: bool)
        ensures
            r == (self@ == 0),
    {
        self.limbs[0] == 0 && self.limbs[1] == 0 && self.limbs[2] == 0 && self.limbs[3] == 0
    }

    /// Whether two elements are the same element of the field.
    pub fn equals(&self, other: &Fr) -> (r: bool)
        ensures
            r == (self@ == other@),
    {
        self.limbs[0] == other.limbs[0] && self.limbs[1] == other.limbs[1] && self.limbs[2]
            == other.limbs[2] && self.limbs[3] == other.limbs[3]
    }

    /// Sum of two elements.
    pub fn add(&self, other: &Fr) -> (r: Fr)
        requires
            self.wf(),
            other.wf(),
        ensures
            r.wf(),
            r@ == add_mod(self@, other@, fr_modulus()),
    {
        ark_fr_add(self, other)
    }

    /// Difference of two elements.
    pub fn sub(&self, other: &Fr) -> (r: Fr)
        requires
            self.wf(),
            other.wf(),
        ensures
            r.wf(),
            r@ == sub_mod(self@, other@, fr_modulus()),
    {
        ark_fr_sub(self, other)
    }

    /// Product of two elements.
    pub fn mul(&self, other: &Fr) -> (r: Fr)
        requires
            self.wf(),
            other.wf(),
        ensures
            r.wf(),
            r@ == mul_mod(self@, other@, fr_modulus()),
    {
        ark_fr_mul(self, other)
    }

    /// Square of an element.
    pub fn square(&self) -> (r: Fr)
        requires
            self.wf(),
        ensures
            r.wf(),
            r@ == mul_mod(self@, self@, fr_modulus()),
    {
        ark_fr_mul(self, self)
    }

    /// Additive inverse of an element.
    pub fn neg(&self) -> (r: Fr)
        requires
            self.wf(),
        ensures
            r.wf(),
            r@ == neg_mod(self@, fr_modulus()),
    {
        let zero = Fr::zero();
        ark_fr_sub(&zero, self)
    }

    /// Multiplicative inverse: `None` for zero, else the one element whose
    /// product with `self` is one.
    pub fn inverse(&self) -> (r: Option<Fr>)
        requires
            self.wf(),
        ensures
            r is None <==> self@ == 0,
            r matches Some(v) ==> v.wf() && v@ == inv_mod(self@, fr_modulus())
                && is_inverse_mod(self@, v@, fr_modulus()),
    {
        let r = ark_fr_inverse(self);
        proof {
            if let Some(v) = r {
                crate::modular::lemma_inverse_is_inv_mod(self@, v@, fr_modulus());
            }
        }
        r
    }

    /// The element that a big-endian byte string spells, reduced modulo the
    /// field order.
    pub fn from_be_bytes_mod_order(bytes: &[u8]) -> (r: Fr)
        ensures
            r.wf(),
            r@ == be_value(bytes@) % fr_modulus(),
    {
        ark_fr_from_be_bytes_mod_order(bytes)
    }

    /// The 32 bytes of the element's canonical integer, most significant
    /// first.
    pub fn to_be_bytes(&self) -> (r: Vec<u8>)
        requires
            self.wf(),
        ensures
            r@.len() == 32,
            be_value(r@) == self@,
    {
        ark_fr_to_bytes_be(self)
    }
}

/// An element of the BN254 base field.
#[derive(Clone, Copy, PartialEq, Eq, Debug)]
pub struct Fq {
    pub limbs: [u64; 4],
}

impl View for Fq {
    type V = int;

    open spec fn view(&self) -> int {
        limbs_value(self.limbs[0], self.limbs[1], self.limbs[2], self.limbs[3])
    }
}

/// `ark_ff`'s `+` on `ark_bn254::Fq`: the sum modulo the field order.
#[verifier::external_body]
fn ark_fq_add(a: &Fq, b: &Fq) -> (r: Fq)
    requires
        a.wf(),
        b.wf(),
    ensures
        r.wf(),
        r@ == add_mod(a@, b@, fq_modulus()),
{
    let x = ark_bn254::Fq::new(ark_ff::BigInt(a.limbs));
    let y = ark_bn254::Fq::new(ark_ff::BigInt(b.limbs));
    Fq { limbs: (x + y).into_bigint().0 }
}

/// `ark_ff`'s `-` on `ark_bn254::Fq`: the difference modulo the field order.
#[verifier::external_body]
fn ark_fq_sub(a: &Fq, b: &Fq) -> (r: Fq)
    requires
        a.wf(),
        b.wf(),
    ensures
        r.wf(),
        r@ == sub_mod(a@, b@, fq_modulus()),
{
    let x = ark_bn254::Fq::new(ark_ff::BigInt(a.limbs));
    let y = ark_bn254::Fq::new(ark_ff::BigInt(b.limbs));
    Fq { limbs: (x - y).into_bigint().0 }
}

/// `ark_ff`'s `*` on `ark_bn254::Fq`: the product modulo the field order.
#[verifier::external_body]
fn ark_fq_mul(a: &Fq, b: &Fq) -> (r: Fq)
    requires
        a.wf(),
        b.wf(),
    ensures
        r.wf(),
        r@ == mul_mod(a@, b@, fq_modulus()),
{
    let x = ark_bn254::Fq::new(ark_ff::BigInt(a.limbs));
    let y = ark_bn254::Fq::new(ark_ff::BigInt(b.limbs));
    Fq { limbs: (x * y).into_bigint().0 }
}

/// `ark_ff`'s `PrimeField::from_be_bytes_mod_order` on `ark_bn254::Fq`: the number
/// that the bytes spell, most significant first, reduced modulo the field
/// order.
#[verifier::external_body]
fn ark_fq_from_be_bytes_mod_order(bytes: &[u8]) -> (r: Fq)
    ensures
        r.wf(),
        r@ == be_value(bytes@) % fq_modulus(),
{
    Fq { limbs: ark_bn254::Fq::from_be_bytes_mod_order(bytes).into_bigint().0 }
}

/// `ark_ff`'s `BigInteger::to_bytes_be` on the canonical integer of an
/// `ark_bn254::Fq`: its 32 bytes, most significant first.
#[verifier::external_body]
fn ark_fq_to_bytes_be(a: &Fq) -> (r: Vec<u8>)
    requires
        a.wf(),
    ensures
        r@.len() == 32,
        be_value(r@) == a@,
{
    ark_ff::BigInt(a.limbs).to_bytes_be()
}

impl Fq {
    /// Canonical form: the limbs stand for a number below the field order.
    pub open spec fn wf(&self) -> bool {
        self@ < fq_modulus()
    }

    /// The element with the given limbs, least significant first, where they
    /// stand for a number below the field order.
    pub fn from_limbs(l0: u64, l1: u64, l2: u64, l3: u64) -> (r: Option<Fq>)
        ensures
            r is Some <==> limbs_value(l0, l1, l2, l3) < fq_modulus(),
            r matches Some(v) ==> v.wf() && v@ == limbs_value(l0, l1, l2, l3),
    {
        // the limbs are compared with those of the order, most significant first
        let below = if l3 != 0x30644e72e131a029 {
            l3 < 0x30644e72e131a029
        } else if l2 != 0xb85045b68181585d {
            l2 < 0xb85045b68181585d
        } else if l1 != 0x97816a916871ca8d {
            l1 < 0x97816a916871ca8d
        } else {
            l0 < 0x3c208c16d87cfd47
        };
        if below {
            Some(Fq { limbs: [l0, l1, l2, l3] })
        } else {
            None
        }
    }

    /// Whether the limbs stand for a number below the field order.
    pub fn is_canonical(&self) -> (r: bool)
        ensures
            r == self.wf(),
    {
        Fq::from_limbs(self.limbs[0], self.limbs[1], self.limbs[2], self.limbs[3]).is_some()
    }

    /// The zero element.
    pub fn zero() -> (r: Fq)
        ensures
            r.wf(),
            r@ == 0,
    {
        Fq { limbs: [0, 0, 0, 0] }
    }

    /// The unit element.
    pub fn one() -> (r: Fq)
        ensures
            r.wf(),
            r@ == 1,
    {
        Fq { limbs: [1, 0, 0, 0] }
    }

    /// The element that stands for a machine integer.
    pub fn from_u64(v: u64) -> (r: Fq)
        ensures
            r.wf(),
            r@ == v,
    {
        Fq { limbs: [v, 0, 0, 0] }
    }

    /// Whether this is the zero element.
    pub fn is_zero(&self) -> (r: bool)
        ensures
            r == (self@ == 0),
    {
        self.limbs[0] == 0 && self.limbs[1] == 0 && self.limbs[2] == 0 && self.limbs[3] == 0
    }

    /// Whether two elements are the same element of the field.
    pub fn equals(&self, other: &Fq) -> (r: bool)
        ensures
            r == (self@ == other@),
    {
        self.limbs[0] == other.limbs[0] && self.limbs[1] == other.limbs[1] && self.limbs[2]
            == other.limbs[2] && self.limbs[3] == other.limbs[3]
    }

    /// Sum of two elements.
    pub fn add(&self, other: &Fq) -> (r: Fq)
        requires
            self.wf(),
            other.wf(),
        ensures
            r.wf(),
            r@ == add_mod(self@, other@, fq_modulus()),
    {
        ark_fq_add(self, other)
    }

    /// Difference of two elements.
    pub fn sub(&self, other: &Fq) -> (r: Fq)
        requires
            self.wf(),
            other.wf(),
        ensures
            r.wf(),
            r@ == sub_mod(self@, other@, fq_modulus()),
    {
        ark_fq_sub(self, other)
    }

    /// Product of two elements.
    pub fn mul(&self, other: &Fq) -> (r: Fq)
        requires
            self.wf(),
            other.wf(),
        ensures
            r.wf(),
            r@ == mul_mod(self@, other@, fq_modulus()),
    {
        ark_fq_mul(self, other)
    }

    /// Square of an element.
    pub fn square(&self) -> (r: Fq)
        requires
            self.wf(),
        ensures
            r.wf(),
            r@ == mul_mod(self@, self@, fq_modulus()),
    {
        ark_fq_mul(self, self)
    }

    /// Additive inverse of an element.
    pub fn neg(&self) -> (r: Fq)
        requires
            self.wf(),
        ensures
            r.wf(),
            r@ == neg_mod(self@, fq_modulus()),
    {
        let zero = Fq::zero();
        ark_fq_sub(&zero, self)
    }

    /// The element that a big-endian byte string spells, reduced modulo the
    /// field order.
    pub fn from_be_bytes_mod_order(bytes: &[u8]) -> (r: Fq)
        ensures
            r.wf(),
            r@ == be_value(bytes@) % fq_modulus(),
    {
        ark_fq_from_be_bytes_mod_order(bytes)
    }

    /// The 32 bytes of the element's canonical integer, most significant
    /// first.
    pub fn to_be_bytes(&self) -> (r: Vec<u8>)
        requires
            self.wf(),
        ensures
            r@.len() == 32,
            be_value(r@) == self@,
    {
        ark_fq_to_bytes_be(self)
    }
}

impl Fr {
    /// `self` raised to the power `e`, by squaring.
    pub fn pow(&self, e: u64) -> (r: Fr)
        requires
            self.wf(),
        ensures
            r.wf(),
            r@ == vstd::arithmetic::power::pow(self@, e as nat) % fr_modulus(),
    {
        let ghost p = fr_modulus();
        let ghost x = self@;
        let mut acc = Fr::one();
        let mut base = *self;
        let mut rest: u64 = e;
        proof {
            assert(1 * vstd::arithmetic::power::pow(x, e as nat) == vstd::arithmetic::power::pow(
                x,
                e as nat,
            ));
        }
        while rest > 0
            invariant
                self.wf(),
                acc.wf(),
                base.wf(),
                p == fr_modulus(),
                x == self@,
                eqm(
                    acc@ * vstd::arithmetic::power::pow(base@, rest as nat),
                    vstd::arithmetic::power::pow(x, e as nat),
                    p,
                ),
            decreases rest,
        {
            let ghost b = base@;
            let ghost q = (rest / 2) as nat;
            let ghost low = (rest % 2) as nat;
            let ghost a = acc@;
            if rest % 2 == 1 {
                acc = acc.mul(&base);
            }
            base = base.square();
            proof {
                crate::modular::lemma_pow_split(b, q, low);
                let bq = vstd::arithmetic::power::pow(b * b, q);
                let bl = vstd::arithmetic::power::pow(b, low);
                // the new base stands for b * b, the new accumulator for a * b^low
                vstd::arithmetic::power::lemma_pow_mod_noop(b * b, q, p);
                vstd::arithmetic::power::lemma_pow0(b);
                vstd::arithmetic::power::lemma_pow1(b);
                crate::modular::lemma_eqm_mod(a * bl, p);
                assert(eqm(acc@, a * bl, p)) by {
                    if low == 0 {
                        assert(a * 1 == a);
                    }
                }
                crate::modular::lemma_eqm_mul(
                    acc@,
                    a * bl,
                    vstd::arithmetic::power::pow(base@, q),
                    bq,
                    p,
                );
                assert((a * bl) * bq == a * (bq * bl)) by (nonlinear_arith);
            }
            rest = rest / 2;
        }
        proof {
            vstd::arithmetic::power::lemma_pow0(base@);
            assert(acc@ * 1 == acc@);
            vstd::arithmetic::div_mod::lemma_small_mod(acc@ as nat, p as nat);
        }
        acc
    }
}

impl Fq {
    /// The base-field element with the same canonical integer as a scalar.
    pub fn from_fr(v: &Fr) -> (r: Fq)
        requires
            v.wf(),
        ensures
            r.wf(),
            r@ == v@,
    {
        Fq { limbs: v.limbs }
    }
}

} // verus!
