//! Multiplicative subgroups of the scalar field of power-of-two order: the
//! points on which polynomials are given in Lagrange form.

use crate::errors::Error;
use crate::fft::{fft, spec_dft};
use crate::field::{eqm, fr_modulus, inv_mod, is_inverse_mod, mul_mod, sub_mod, Fr};
use crate::polynomial::{all_wf, fr_eval, fr_values, poly_eval};
use ark_ff::FftField;
use ark_ff::PrimeField;
use vstd::arithmetic::power::{lemma_pow0, lemma_pow1, lemma_pow_adds, pow};
use vstd::arithmetic::power2::{lemma2_to64, lemma_pow2_strictly_increases, lemma_pow2_unfold, pow2};
use vstd::prelude::*;

verus! {

/// The root of unity of order `n` in the scalar field that the `ark_ff`
/// crate gives.
pub uninterp spec fn fr_root_of_unity(n: int) -> int;

/// Whether `n` is a power of two of at most `2^28`, the largest order of a
/// power-of-two subgroup of the scalar field.
pub open spec fn is_domain_size(n: int) -> bool {
    exists|k: nat| k <= 28 && n == #[trigger] pow2(k)
}

/// `ark_ff`'s `FftField::get_root_of_unity` on `ark_bn254::Fr`: for a power
/// of two `n` of at most `2^28` an element of order `n`, so that its power
/// `n` is one and, from `n = 2` on, its power `n / 2` is minus one; for
/// other `n` nothing.
#[verifier::external_body]
fn ark_fr_root_of_unity(n: u64) -> (r: Option<Fr>)
    requires
        n <= 0x1000_0000,
    ensures
        r is Some <==> is_domain_size(n as int),
        r matches Some(w) ==> w.wf() && w@ == fr_root_of_unity(n as int) && pow(w@, n as nat)
            % fr_modulus() == 1 && (n >= 2 ==> pow(w@, (n / 2) as nat) % fr_modulus() == fr_modulus()
            - 1),
{
    match ark_bn254::Fr::get_root_of_unity(n) {
        Some(w) => Some(Fr { limbs: w.into_bigint().0 }),
        None => None,
    }
}

/// The values at a point of the vanishing polynomial of a domain and of
/// its first and last Lagrange polynomials.
pub struct LagrangeEvaluations {
    pub vanishing_poly: Fr,
    pub l_start: Fr,
    pub l_end: Fr,
}

/// A subgroup of order `size`, or the empty domain of size zero.
pub struct EvaluationDomain {
    /// The order of the subgroup, a power of two, or zero.
    pub size: usize,
    /// The exponent of that power.
    pub log2_size: usize,
    /// A generator of the subgroup.
    pub root: Fr,
    pub root_inverse: Fr,
    /// The size as a scalar.
    pub domain: Fr,
    pub domain_inverse: Fr,
    /// The generator of the coset on which quotients are computed.
    pub generator: Fr,
    pub generator_inverse: Fr,
    /// The powers of the root, once the table was computed.
    pub roots: Vec<Fr>,
}

impl EvaluationDomain {
    /// The fields fit together: the root has the order of the domain, the
    /// inverses are inverses, and the table, where it is there, holds the
    /// powers of the root.
    pub open spec fn wf(&self) -> bool {
        let p = fr_modulus();
        &&& self.root.wf()
        &&& self.root_inverse.wf()
        &&& self.domain.wf()
        &&& self.domain_inverse.wf()
        &&& self.generator.wf()
        &&& self.generator_inverse.wf()
        &&& self.domain@ == self.size
        &&& self.generator@ == 5
        &&& is_inverse_mod(5, self.generator_inverse@, p)
        &&& self.size > 0 ==> {
            &&& self.log2_size <= 28
            &&& self.size == pow2(self.log2_size as nat)
            &&& self.root@ == fr_root_of_unity(self.size as int)
            &&& pow(self.root@, self.size as nat) % p == 1
            &&& self.size >= 2 ==> pow(self.root@, (self.size / 2) as nat) % p == p - 1
            &&& is_inverse_mod(self.root@, self.root_inverse@, p)
            &&& is_inverse_mod(self.domain@, self.domain_inverse@, p)
        }
        &&& self.roots@.len() == 0 || self.roots@.len() == self.size
        &&& forall|i: int|
            0 <= i < self.roots@.len() ==> (#[trigger] self.roots@[i]).wf() && self.roots@[i]@ == pow(
                self.root@,
                i as nat,
            ) % p
    }

    /// The empty domain.
    pub fn empty() -> (r: EvaluationDomain)
        ensures
            r.wf(),
            r.size == 0,
            r.log2_size == 0,
            r.roots@.len() == 0,
    {
        let generator = Fr::from_u64(5);
        let generator_inverse = match generator.inverse() {
            Some(v) => v,
            None => Fr::zero(),
        };
        EvaluationDomain {
            size: 0,
            log2_size: 0,
            root: Fr::one(),
            root_inverse: Fr::one(),
            domain: Fr::zero(),
            domain_inverse: Fr::zero(),
            generator,
            generator_inverse,
            roots: Vec::new(),
        }
    }

    /// The domain of a size: a power of two of at most `2^28`, or zero for
    /// the empty domain. Other sizes are refused.
    pub fn new(size: usize) -> (r: Result<EvaluationDomain, Error>)
        ensures
            r is Ok <==> size == 0 || is_domain_size(size as int),
            r matches Err(e) ==> e == Error::InvalidInput,
            r matches Ok(d) ==> d.wf() && d.size == size && d.roots@.len() == 0,
    {
        if size == 0 {
            return Ok(EvaluationDomain::empty());
        }
        let generator = Fr::from_u64(5);
        let generator_inverse = match generator.inverse() {
            Some(v) => v,
            None => Fr::zero(),
        };
        let mut power: usize = 1;
        let mut log2_size: usize = 0;
        proof {
            lemma2_to64();
        }
        while power < size && log2_size < 28
            invariant
                log2_size <= 28,
                power == pow2(log2_size as nat),
                power <= 0x1000_0000,
                pow2(28) == 0x1000_0000,
                log2_size > 0 ==> pow2((log2_size - 1) as nat) < size,
            decreases 28 - log2_size,
        {
            proof {
                lemma_pow2_unfold((log2_size + 1) as nat);
                if log2_size + 1 < 28 {
                    lemma_pow2_strictly_increases((log2_size + 1) as nat, 28);
                }
            }
            power = power * 2;
            log2_size = log2_size + 1;
        }
        if power != size {
            proof {
                assert forall|k: nat| k <= 28 implies size != #[trigger] pow2(k) by {
                    if k < log2_size {
                        if k < log2_size - 1 {
                            lemma_pow2_strictly_increases(k, (log2_size - 1) as nat);
                        }
                    } else if k > log2_size {
                        lemma_pow2_strictly_increases(log2_size as nat, k);
                    }
                }
            }
            return Err(Error::InvalidInput);
        }
        let root = match ark_fr_root_of_unity(size as u64) {
            Some(w) => w,
            None => Fr::one(),
        };
        let root_inverse = match root.inverse() {
            Some(v) => v,
            None => Fr::zero(),
        };
        let domain = Fr::from_u64(size as u64);
        let domain_inverse = match domain.inverse() {
            Some(v) => v,
            None => Fr::zero(),
        };
        proof {
            // the root is not zero: its power is one
            if root@ == 0 {
                vstd::arithmetic::power::lemma0_pow(size as nat);
            }
        }
        Ok(
            EvaluationDomain {
                size,
                log2_size,
                root,
                root_inverse,
                domain,
                domain_inverse,
                generator,
                generator_inverse,
                roots: Vec::new(),
            },
        )
    }

    /// A copy of the domain.
    pub fn duplicate(&self) -> (r: EvaluationDomain)
        requires
            self.wf(),
        ensures
            r.wf(),
            r.size == self.size,
            r.log2_size == self.log2_size,
            r.root == self.root,
            r.root_inverse == self.root_inverse,
            r.domain == self.domain,
            r.domain_inverse == self.domain_inverse,
            r.generator == self.generator,
            r.generator_inverse == self.generator_inverse,
            r.roots@ == self.roots@,
    {
        EvaluationDomain {
            size: self.size,
            log2_size: self.log2_size,
            root: self.root,
            root_inverse: self.root_inverse,
            domain: self.domain,
            domain_inverse: self.domain_inverse,
            generator: self.generator,
            generator_inverse: self.generator_inverse,
            roots: vstd::slice::slice_to_vec(self.roots.as_slice()),
        }
    }

    /// Fills the table of the powers of the root.
    pub fn compute_lookup_table(&mut self)
        requires
            old(self).wf(),
        ensures
            final(self).wf(),
            final(self).roots@.len() == final(self).size,
            final(self).size == old(self).size,
            final(self).log2_size == old(self).log2_size,
            final(self).root == old(self).root,
            final(self).root_inverse == old(self).root_inverse,
            final(self).domain == old(self).domain,
            final(self).domain_inverse == old(self).domain_inverse,
            final(self).generator == old(self).generator,
            final(self).generator_inverse == old(self).generator_inverse,
    {
        let ghost p = fr_modulus();
        let mut roots: Vec<Fr> = Vec::new();
        let mut current = Fr::one();
        let mut i: usize = 0;
        proof {
            lemma_pow0(self.root@);
        }
        while i < self.size
            invariant
                i <= self.size,
                self.root.wf(),
                current.wf(),
                p == fr_modulus(),
                current@ == pow(self.root@, i as nat) % p,
                roots@.len() == i,
                forall|k: int|
                    0 <= k < i ==> (#[trigger] roots@[k]).wf() && roots@[k]@ == pow(
                        self.root@,
                        k as nat,
                    ) % p,
            decreases self.size - i,
        {
            roots.push(current);
            proof {
                let x = self.root@;
                lemma_pow1(x);
                lemma_pow_adds(x, i as nat, 1);
                crate::modular::lemma_eqm_mod(pow(x, i as nat), p);
                crate::modular::lemma_eqm_mul(current@, pow(x, i as nat), x, x, p);
            }
            current = current.mul(&self.root);
            i = i + 1;
        }
        self.roots = roots;
    }

    /// The values at `z` of the vanishing polynomial `X^n - 1` of a domain
    /// of size `n` with root `w`, of its first Lagrange polynomial,
    /// `(z^n - 1) / (n * (z - 1))`, and of its last,
    /// `(z^n - 1) / (n * (z * w - 1))`, by raising `z` to the power `n`.
    /// Nothing where one of the divisors is zero or the domain is empty.
    pub fn get_lagrange_evaluations(&self, z: &Fr) -> (r: Option<LagrangeEvaluations>)
        requires
            self.wf(),
            z.wf(),
        ensures
            r is Some <==> self.size > 0 && spec_first_divisor(self.size as int, z@) != 0
                && spec_last_divisor(self.size as int, self.root@, z@) != 0,
            r matches Some(e) ==> {
                let p = fr_modulus();
                &&& e.vanishing_poly.wf()
                &&& e.l_start.wf()
                &&& e.l_end.wf()
                &&& e.vanishing_poly@ == spec_vanishing(self.size as int, z@)
                &&& e.l_start@ == mul_mod(
                    e.vanishing_poly@,
                    inv_mod(spec_first_divisor(self.size as int, z@), p),
                    p,
                )
                &&& e.l_end@ == mul_mod(
                    e.vanishing_poly@,
                    inv_mod(spec_last_divisor(self.size as int, self.root@, z@), p),
                    p,
                )
            },
    {
        if self.size == 0 {
            return None;
        }
        let one = Fr::one();
        let z_pow_n = z.pow(self.size as u64);
        let vanishing_poly = z_pow_n.sub(&one);
        let first = self.domain.mul(&z.sub(&one));
        let last = self.domain.mul(&z.mul(&self.root).sub(&one));
        match (first.inverse(), last.inverse()) {
            (Some(first_inverse), Some(last_inverse)) => Some(
                LagrangeEvaluations {
                    vanishing_poly,
                    l_start: vanishing_poly.mul(&first_inverse),
                    l_end: vanishing_poly.mul(&last_inverse),
                },
            ),
            _ => None,
        }
    }
}

/// The value at `z` of the vanishing polynomial `X^n - 1`.
pub open spec fn spec_vanishing(n: int, z: int) -> int {
    sub_mod(pow(z, n as nat) % fr_modulus(), 1, fr_modulus())
}

/// The divisor of the first Lagrange polynomial at `z`: `n * (z - 1)`.
pub open spec fn spec_first_divisor(n: int, z: int) -> int {
    mul_mod(n, sub_mod(z, 1, fr_modulus()), fr_modulus())
}

/// The divisor of the last Lagrange polynomial at `z`: `n * (z * w - 1)`.
pub open spec fn spec_last_divisor(n: int, w: int, z: int) -> int {
    mul_mod(n, sub_mod(mul_mod(z, w, fr_modulus()), 1, fr_modulus()), fr_modulus())
}

/// The power of the inverse of a root whose power is minus one is minus
/// one.
pub proof fn lemma_inverse_root(root: int, inverse: int, h: nat)
    requires
        is_inverse_mod(root, inverse, fr_modulus()),
        pow(root, h) % fr_modulus() == fr_modulus() - 1,
    ensures
        pow(inverse, h) % fr_modulus() == fr_modulus() - 1,
{
    let p = fr_modulus();
    let a = pow(root, h);
    let b = pow(inverse, h);
    // a * b == (root * inverse)^h == 1, and a == -1, so b == -1
    vstd::arithmetic::power::lemma_pow_distributes(root, inverse, h);
    vstd::arithmetic::div_mod::lemma_small_mod(1, p as nat);
    crate::fft::lemma_pow_congruent(root * inverse, 1, h);
    vstd::arithmetic::power::lemma1_pow(h);
    assert(eqm(a * b, 1, p));
    crate::modular::lemma_eqm_mod(a, p);
    crate::modular::lemma_eqm_mod(b, p);
    crate::modular::lemma_eqm_mul(a, p - 1, b, b % p, p);
    let r = b % p;
    assert(eqm((p - 1) * r, 1, p));
    assert((p - 1) * r == p * r - r) by (nonlinear_arith);
    vstd::arithmetic::div_mod::lemma_mod_multiples_vanish(r, -r, p);
    assert(eqm(-r, 1, p));
    // -r == 1 modulo p with 0 <= r < p leaves r == p - 1
    if r == 0 {
        assert(false);
    } else {
        vstd::arithmetic::div_mod::lemma_mod_add_multiples_vanish(-r, p);
        vstd::arithmetic::div_mod::lemma_small_mod((p - r) as nat, p as nat);
    }
}

/// The inverse transform of values: the transform with the inverse of the
/// root, every entry divided by the number of values.
pub open spec fn spec_ifft(values: Seq<int>, root_inverse: int, size_inverse: int) -> Seq<int> {
    Seq::new(
        values.len(),
        |k: int| mul_mod(spec_dft(values, root_inverse)[k], size_inverse, fr_modulus()),
    )
}

/// The polynomial whose coefficient of degree `i` is that of `c` times
/// `g^i`.
pub open spec fn coset_coefficients(c: Seq<int>, g: int) -> Seq<int> {
    Seq::new(c.len(), |i: int| mul_mod(c[i], pow(g, i as nat) % fr_modulus(), fr_modulus()))
}

/// The polynomial with coefficients scaled by the powers of `g` has at `x`
/// the value of the polynomial at `g x`.
pub proof fn lemma_coset_eval(c: Seq<int>, g: int, x: int)
    ensures
        fr_eval(coset_coefficients(c, g), x) == fr_eval(c, mul_mod(g, x, fr_modulus())),
    decreases c.len(),
{
    let p = fr_modulus();
    let s = coset_coefficients(c, g);
    let gx = mul_mod(g, x, p);
    if c.len() > 0 {
        let e = (c.len() - 1) as nat;
        lemma_coset_eval(c.drop_last(), g, x);
        assert(s.drop_last() =~= coset_coefficients(c.drop_last(), g));
        let last = c.last();
        // s.last() * x^e == last * g^e * x^e == last * (g x)^e
        crate::modular::lemma_eqm_mod(last * (pow(g, e) % p), p);
        crate::modular::lemma_eqm_mod(pow(g, e), p);
        crate::modular::lemma_eqm_mul(last, last, pow(g, e) % p, pow(g, e), p);
        crate::modular::lemma_eqm_mul(s.last(), last * pow(g, e), pow(x, e), pow(x, e), p);
        vstd::arithmetic::power::lemma_pow_distributes(g, x, e);
        crate::modular::lemma_eqm_mod(g * x, p);
        crate::fft::lemma_pow_congruent(gx, g * x, e);
        crate::modular::lemma_eqm_mul(last, last, pow(gx, e), pow(g * x, e), p);
        assert((last * pow(g, e)) * pow(x, e) == last * (pow(g, e) * pow(x, e)))
            by (nonlinear_arith);
        crate::modular::lemma_eqm_mod(poly_eval(s.drop_last(), x), p);
        crate::modular::lemma_eqm_mod(poly_eval(c.drop_last(), gx), p);
        crate::modular::lemma_eqm_add(
            poly_eval(s.drop_last(), x),
            poly_eval(c.drop_last(), gx),
            s.last() * pow(x, e),
            last * pow(gx, e),
            p,
        );
    }
}

impl EvaluationDomain {
    /// The values of a polynomial on the domain: entry `k` is the value at
    /// the power `k` of the root. The polynomial must have as many
    /// coefficients as the domain has points.
    pub fn fft(&self, coefficients: &[Fr]) -> (r: Result<Vec<Fr>, Error>)
        requires
            self.wf(),
            all_wf(coefficients@),
        ensures
            r is Ok <==> self.size > 0 && coefficients@.len() == self.size,
            r matches Err(e) ==> e == Error::InvalidInput,
            r matches Ok(v) ==> all_wf(v@) && fr_values(v@) == spec_dft(
                fr_values(coefficients@),
                self.root@,
            ),
    {
        if self.size == 0 || coefficients.len() != self.size {
            return Err(Error::InvalidInput);
        }
        proof {
            if self.log2_size >= 1 {
                vstd::arithmetic::power2::lemma_pow2_unfold(self.log2_size as nat);
            }
        }
        Ok(fft(coefficients, &self.root, self.log2_size))
    }

    /// The coefficients of the polynomial with the given values on the
    /// domain: the transform with the inverse of the root, divided by the
    /// size of the domain.
    pub fn ifft(&self, values: &[Fr]) -> (r: Result<Vec<Fr>, Error>)
        requires
            self.wf(),
            all_wf(values@),
        ensures
            r is Ok <==> self.size > 0 && values@.len() == self.size,
            r matches Err(e) ==> e == Error::InvalidInput,
            r matches Ok(v) ==> all_wf(v@) && fr_values(v@) == spec_ifft(
                fr_values(values@),
                self.root_inverse@,
                self.domain_inverse@,
            ),
    {
        if self.size == 0 || values.len() != self.size {
            return Err(Error::InvalidInput);
        }
        proof {
            if self.log2_size >= 1 {
                vstd::arithmetic::power2::lemma_pow2_unfold(self.log2_size as nat);
                lemma_inverse_root(
                    self.root@,
                    self.root_inverse@,
                    pow2((self.log2_size - 1) as nat),
                );
            }
        }
        let mut out = fft(values, &self.root_inverse, self.log2_size);
        let ghost transformed = out@;
        let mut k: usize = 0;
        while k < out.len()
            invariant
                k <= out@.len(),
                out@.len() == transformed.len(),
                self.domain_inverse.wf(),
                all_wf(transformed),
                all_wf(out@),
                forall|j: int|
                    0 <= j < k ==> (#[trigger] out@[j])@ == mul_mod(
                        transformed[j]@,
                        self.domain_inverse@,
                        fr_modulus(),
                    ),
                forall|j: int| k <= j < out@.len() ==> out@[j] == transformed[j],
            decreases out@.len() - k,
        {
            let scaled = out[k].mul(&self.domain_inverse);
            out[k] = scaled;
            k = k + 1;
        }
        proof {
            assert forall|j: int| 0 <= j < out@.len() implies fr_values(out@)[j] == spec_ifft(
                fr_values(values@),
                self.root_inverse@,
                self.domain_inverse@,
            )[j] by {
                assert(transformed[j]@ == fr_values(transformed)[j]);
            }
            assert(fr_values(out@) =~= spec_ifft(
                fr_values(values@),
                self.root_inverse@,
                self.domain_inverse@,
            ));
        }
        Ok(out)
    }

    /// The values of a polynomial on the coset of the domain: entry `k` is
    /// the value at the generator times the power `k` of the root.
    pub fn coset_fft(&self, coefficients: &[Fr]) -> (r: Result<Vec<Fr>, Error>)
        requires
            self.wf(),
            all_wf(coefficients@),
        ensures
            r is Ok <==> self.size > 0 && coefficients@.len() == self.size,
            r matches Err(e) ==> e == Error::InvalidInput,
            r matches Ok(v) ==> all_wf(v@) && v@.len() == coefficients@.len() && forall|k: int|
                0 <= k < v@.len() ==> (#[trigger] v@[k])@ == fr_eval(
                    fr_values(coefficients@),
                    mul_mod(
                        self.generator@,
                        pow(self.root@, k as nat) % fr_modulus(),
                        fr_modulus(),
                    ),
                ),
    {
        if self.size == 0 || coefficients.len() != self.size {
            return Err(Error::InvalidInput);
        }
        let ghost p = fr_modulus();
        let ghost c = fr_values(coefficients@);
        let mut scaled: Vec<Fr> = Vec::new();
        let mut power = Fr::one();
        let mut i: usize = 0;
        proof {
            vstd::arithmetic::power::lemma_pow0(self.generator@);
            vstd::arithmetic::div_mod::lemma_small_mod(1, p as nat);
        }
        while i < coefficients.len()
            invariant
                i <= coefficients@.len(),
                all_wf(coefficients@),
                all_wf(scaled@),
                self.generator.wf(),
                power.wf(),
                p == fr_modulus(),
                c == fr_values(coefficients@),
                scaled@.len() == i,
                power@ == pow(self.generator@, i as nat) % p,
                forall|j: int|
                    0 <= j < i ==> (#[trigger] scaled@[j])@ == coset_coefficients(
                        c,
                        self.generator@,
                    )[j],
            decreases coefficients@.len() - i,
        {
            scaled.push(coefficients[i].mul(&power));
            proof {
                let g = self.generator@;
                vstd::arithmetic::power::lemma_pow1(g);
                vstd::arithmetic::power::lemma_pow_adds(g, i as nat, 1);
                crate::modular::lemma_eqm_mod(pow(g, i as nat), p);
                crate::modular::lemma_eqm_mul(power@, pow(g, i as nat), g, g, p);
            }
            power = power.mul(&self.generator);
            i = i + 1;
        }
        proof {
            assert(fr_values(scaled@) =~= coset_coefficients(c, self.generator@));
            if self.log2_size >= 1 {
                vstd::arithmetic::power2::lemma_pow2_unfold(self.log2_size as nat);
            }
        }
        let out = fft(scaled.as_slice(), &self.root, self.log2_size);
        proof {
            assert forall|k: int| 0 <= k < out@.len() implies (#[trigger] out@[k])@ == fr_eval(
                c,
                mul_mod(self.generator@, pow(self.root@, k as nat) % p, p),
            ) by {
                assert(out@[k]@ == fr_values(out@)[k]);
                lemma_coset_eval(c, self.generator@, pow(self.root@, k as nat) % p);
            }
        }
        Ok(out)
    }
}

} // verus!
