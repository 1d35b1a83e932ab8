//! Polynomials over the scalar field in coefficient form.

use crate::field::{add_mod, fr_modulus, mul_mod, Fr};
use crate::modular::{lemma_eqm_add, lemma_eqm_mod, lemma_eqm_mul};
use vstd::arithmetic::power::{lemma_pow0, lemma_pow1, lemma_pow_adds, pow};
use vstd::prelude::*;

verus! {

/// The canonical integers of a sequence of scalars.
pub open spec fn fr_values(s: Seq<Fr>) -> Seq<int> {
    Seq::new(s.len(), |i: int| s[i]@)
}

/// Every scalar of the sequence is in canonical form.
pub open spec fn all_wf(s: Seq<Fr>) -> bool {
    forall|i: int| 0 <= i < s.len() ==> (#[trigger] s[i]).wf()
}

/// The value over the integers of the polynomial with coefficients `c`,
/// lowest degree first, at `x`.
pub open spec fn poly_eval(c: Seq<int>, x: int) -> int
    decreases c.len(),
{
    if c.len() == 0 {
        0
    } else {
        poly_eval(c.drop_last(), x) + c.last() * pow(x, (c.len() - 1) as nat)
    }
}

/// The value in the scalar field of the polynomial with coefficients `c` at
/// `x`.
pub open spec fn fr_eval(c: Seq<int>, x: int) -> int {
    poly_eval(c, x) % fr_modulus()
}

/// One step of evaluating term by term: from the value of the first `i`
/// terms and the power `x^i` to the value of the first `i + 1` terms and
/// the power `x^(i + 1)`.
pub proof fn lemma_eval_step(c: Seq<int>, i: int, x: int, acc: int, x_pow: int)
    requires
        0 <= i < c.len(),
        acc == fr_eval(c.take(i), x),
        x_pow == pow(x, i as nat) % fr_modulus(),
    ensures
        add_mod(acc, mul_mod(x_pow, c[i], fr_modulus()), fr_modulus()) == fr_eval(c.take(i + 1), x),
        mul_mod(x_pow, x, fr_modulus()) == pow(x, (i + 1) as nat) % fr_modulus(),
{
    let p = fr_modulus();
    let prev = c.take(i);
    let cur = c.take(i + 1);
    assert(cur.drop_last() =~= prev);
    assert(cur.last() == c[i]);
    let xi = pow(x, i as nat);
    let term = mul_mod(x_pow, c[i], p);
    lemma_eqm_mod(xi, p);
    lemma_eqm_mul(x_pow, xi, c[i], c[i], p);
    lemma_eqm_mod(x_pow * c[i], p);
    lemma_eqm_mod(poly_eval(prev, x), p);
    lemma_eqm_add(acc, poly_eval(prev, x), term, xi * c[i], p);
    assert(xi * c[i] == c[i] * xi) by (nonlinear_arith);
    lemma_pow1(x);
    lemma_pow_adds(x, i as nat, 1);
    lemma_eqm_mul(x_pow, xi, x, x, p);
}

/// The value at `z` of the polynomial whose coefficients are the first `n`
/// entries of `coeffs`.
pub fn evaluate(coeffs: &[Fr], z: &Fr, n: usize) -> (r: Fr)
    requires
        n <= coeffs@.len(),
        all_wf(coeffs@),
        z.wf(),
    ensures
        r.wf(),
        r@ == fr_eval(fr_values(coeffs@).take(n as int), z@),
{
    let ghost p = fr_modulus();
    let ghost c = fr_values(coeffs@);
    let mut acc = Fr::zero();
    let mut z_pow = Fr::one();
    let mut i: usize = 0;
    proof {
        lemma_pow0(z@);
    }
    while i < n
        invariant
            i <= n <= coeffs@.len(),
            all_wf(coeffs@),
            z.wf(),
            acc.wf(),
            z_pow.wf(),
            p == fr_modulus(),
            c == fr_values(coeffs@),
            acc@ == fr_eval(c.take(i as int), z@),
            z_pow@ == pow(z@, i as nat) % p,
        decreases n - i,
    {
        let term = z_pow.mul(&coeffs[i]);
        let next = acc.add(&term);
        let z_next = z_pow.mul(z);
        proof {
            assert(c[i as int] == coeffs@[i as int]@);
            lemma_eval_step(c, i as int, z@, acc@, z_pow@);
        }
        acc = next;
        z_pow = z_next;
        i = i + 1;
    }
    acc
}

/// A polynomial over the scalar field: its coefficients, lowest degree
/// first. Its size is the number of coefficients it holds.
#[derive(Clone, Debug)]
pub struct Polynomial {
    pub coefficients: Vec<Fr>,
}

impl View for Polynomial {
    type V = Seq<int>;

    open spec fn view(&self) -> Seq<int> {
        fr_values(self.coefficients@)
    }
}

impl Polynomial {
    /// Every coefficient is in canonical form.
    pub open spec fn wf(&self) -> bool {
        all_wf(self.coefficients@)
    }

    /// The zero polynomial with `size` coefficients.
    pub fn new(size: usize) -> (r: Polynomial)
        ensures
            r.wf(),
            r@ == Seq::new(size as nat, |i: int| 0int),
    {
        let mut coefficients: Vec<Fr> = Vec::new();
        let mut i: usize = 0;
        while i < size
            invariant
                i <= size,
                coefficients@.len() == i,
                forall|k: int| 0 <= k < i ==> (#[trigger] coefficients@[k])@ == 0,
            decreases size - i,
        {
            coefficients.push(Fr::zero());
            i = i + 1;
        }
        let r = Polynomial { coefficients };
        proof {
            assert(r@ =~= Seq::new(size as nat, |i: int| 0int));
        }
        r
    }

    /// The polynomial with the given coefficients.
    pub fn from_coefficients(coefficients: Vec<Fr>) -> (r: Polynomial)
        requires
            all_wf(coefficients@),
        ensures
            r.wf(),
            r.coefficients == coefficients,
    {
        Polynomial { coefficients }
    }

    /// The number of coefficients.
    pub fn size(&self) -> (n: usize)
        ensures
            n == self@.len(),
    {
        self.coefficients.len()
    }

    /// The coefficient of degree `i`.
    pub fn get(&self, i: usize) -> (r: Fr)
        requires
            self.wf(),
            i < self@.len(),
        ensures
            r.wf(),
            r@ == self@[i as int],
    {
        self.coefficients[i]
    }

    /// Replaces the coefficient of degree `i`.
    pub fn set(&mut self, i: usize, value: Fr)
        requires
            old(self).wf(),
            value.wf(),
            i < old(self)@.len(),
        ensures
            final(self).wf(),
            final(self)@ == old(self)@.update(i as int, value@),
    {
        self.coefficients[i] = value;
        proof {
            assert(self@ =~= old(self)@.update(i as int, value@));
        }
    }

    /// The value of the polynomial at `z`.
    pub fn evaluate(&self, z: &Fr) -> (r: Fr)
        requires
            self.wf(),
            z.wf(),
        ensures
            r.wf(),
            r@ == fr_eval(self@, z@),
    {
        let r = evaluate(self.coefficients.as_slice(), z, self.coefficients.len());
        proof {
            assert(self@.take(self@.len() as int) =~= self@);
        }
        r
    }
}

} // verus!
