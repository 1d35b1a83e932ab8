//! The fast Fourier transform over the scalar field: the values of a
//! polynomial at all powers of a root of unity, by splitting the
//! polynomial into its even and its odd part.

use crate::field::{add_mod, eqm, fr_modulus, mul_mod, sub_mod, Fr};
use crate::modular::{lemma_eqm_add, lemma_eqm_mod, lemma_eqm_mul, lemma_eqm_sub};
use crate::polynomial::{all_wf, fr_eval, fr_values, poly_eval};
use vstd::arithmetic::power::{
    lemma_pow0,
    lemma_pow1,
    lemma_pow_adds,
    lemma_pow_mod_noop,
    lemma_pow_multiplies,
    pow,
};
use vstd::arithmetic::power2::{lemma_pow2_pos, lemma_pow2_unfold, pow2};
use vstd::prelude::*;

verus! {

/// The coefficients of even degree.
pub open spec fn evens(c: Seq<int>) -> Seq<int> {
    Seq::new(c.len() / 2, |i: int| c[2 * i])
}

/// The coefficients of odd degree.
pub open spec fn odds(c: Seq<int>) -> Seq<int> {
    Seq::new(c.len() / 2, |i: int| c[2 * i + 1])
}

/// The values of a polynomial at the powers of a root: entry `k` is the
/// value at `root^k`.
pub open spec fn spec_dft(c: Seq<int>, root: int) -> Seq<int> {
    Seq::new(c.len(), |k: int| fr_eval(c, pow(root, k as nat) % fr_modulus()))
}

/// A polynomial of even length is its even part at the square plus the
/// point times its odd part at the square.
pub proof fn lemma_poly_eval_split(c: Seq<int>, x: int)
    requires
        c.len() % 2 == 0,
    ensures
        poly_eval(c, x) == poly_eval(evens(c), x * x) + x * poly_eval(odds(c), x * x),
    decreases c.len(),
{
    if c.len() == 0 {
        assert(evens(c).len() == 0);
        assert(odds(c).len() == 0);
        assert(x * 0 == 0);
    } else {
        let n = c.len();
        let h = (n / 2) as nat;
        let rest = c.take(n - 2);
        let c1 = c.drop_last();
        assert(c1.drop_last() =~= rest);
        assert(evens(c).drop_last() =~= evens(rest));
        assert(odds(c).drop_last() =~= odds(rest));
        lemma_poly_eval_split(rest, x);
        let y = x * x;
        let yp = pow(y, (h - 1) as nat);
        // y^(h - 1) == x^(n - 2), and x^(n - 1) == x * x^(n - 2)
        lemma_pow1(x);
        lemma_pow_adds(x, 1, 1);
        lemma_pow_multiplies(x, 2, (h - 1) as nat);
        lemma_pow_adds(x, (n - 2) as nat, 1);
        assert(pow(x, (n - 2) as nat) == yp);
        assert(pow(x, (n - 1) as nat) == yp * x);
        let a = c[n - 2];
        let b = c[n - 1];
        assert(c1.last() == a);
        assert(evens(c).last() == a);
        assert(odds(c).last() == b);
        let pe = poly_eval(evens(rest), y);
        let po = poly_eval(odds(rest), y);
        assert(c.last() == b);
        assert(poly_eval(c, x) == poly_eval(c1, x) + b * pow(x, (n - 1) as nat));
        assert(poly_eval(c1, x) == poly_eval(rest, x) + a * pow(x, (n - 2) as nat));
        assert(poly_eval(rest, x) == pe + x * po);
        assert(poly_eval(c, x) == (pe + x * po) + a * yp + b * (yp * x));
        assert(poly_eval(evens(c), y) == pe + a * yp);
        assert(poly_eval(odds(c), y) == po + b * yp);
        assert((pe + x * po) + a * yp + b * (yp * x) == (pe + a * yp) + x * (po + b * yp))
            by (nonlinear_arith);
    }
}

/// Congruent points have congruent powers.
pub proof fn lemma_pow_congruent(a: int, b: int, e: nat)
    requires
        eqm(a, b, fr_modulus()),
    ensures
        eqm(pow(a, e), pow(b, e), fr_modulus()),
{
    lemma_pow_mod_noop(a, e, fr_modulus());
    lemma_pow_mod_noop(b, e, fr_modulus());
}

/// A polynomial has congruent values at congruent points.
pub proof fn lemma_poly_eval_congruent(c: Seq<int>, a: int, b: int)
    requires
        eqm(a, b, fr_modulus()),
    ensures
        eqm(poly_eval(c, a), poly_eval(c, b), fr_modulus()),
        fr_eval(c, a) == fr_eval(c, b),
    decreases c.len(),
{
    let p = fr_modulus();
    if c.len() > 0 {
        lemma_poly_eval_congruent(c.drop_last(), a, b);
        let e = (c.len() - 1) as nat;
        lemma_pow_congruent(a, b, e);
        lemma_eqm_mul(c.last(), c.last(), pow(a, e), pow(b, e), p);
        lemma_eqm_add(
            poly_eval(c.drop_last(), a),
            poly_eval(c.drop_last(), b),
            c.last() * pow(a, e),
            c.last() * pow(b, e),
            p,
        );
    }
}

/// The two values that one step of the transform gives. With `h` half the
/// length, `w` the power `k` of the root, whose power `h` is minus one, and
/// `e` and `o` the values of the even and the odd part at the power `k` of
/// the square of the root: `e + w o` is the value at `root^k`, and
/// `e - w o` the value at `root^(k + h)`.
pub proof fn lemma_butterfly(c: Seq<int>, root: int, h: nat, k: nat, w: int, e: int, o: int)
    requires
        c.len() == 2 * h,
        h >= 1,
        pow(root, h) % fr_modulus() == fr_modulus() - 1,
        w == pow(root, k) % fr_modulus(),
        e == fr_eval(evens(c), pow((root * root) % fr_modulus(), k) % fr_modulus()),
        o == fr_eval(odds(c), pow((root * root) % fr_modulus(), k) % fr_modulus()),
    ensures
        add_mod(e, mul_mod(w, o, fr_modulus()), fr_modulus()) == fr_eval(
            c,
            pow(root, k) % fr_modulus(),
        ),
        sub_mod(e, mul_mod(w, o, fr_modulus()), fr_modulus()) == fr_eval(
            c,
            pow(root, k + h) % fr_modulus(),
        ),
{
    let p = fr_modulus();
    let x = pow(root, k);
    let r2 = (root * root) % p;
    let y = pow(r2, k) % p;
    // y is the square of x, and of w
    lemma_eqm_mod(root * root, p);
    lemma_pow_congruent(r2, root * root, k);
    lemma_pow1(root);
    lemma_pow_adds(root, 1, 1);
    lemma_pow_multiplies(root, 2, k);
    lemma_pow_multiplies(root, k, 2);
    lemma_pow1(x);
    lemma_pow_adds(x, 1, 1);
    assert(2 * k == k * 2);
    assert(pow(root * root, k) == x * x);
    lemma_eqm_mod(pow(r2, k), p);
    assert(eqm(y, x * x, p));
    lemma_eqm_mod(x, p);
    lemma_eqm_mul(w, x, w, x, p);
    assert(eqm(y, w * w, p));
    let pe = poly_eval(evens(c), w * w);
    let po = poly_eval(odds(c), w * w);
    lemma_poly_eval_congruent(evens(c), y, w * w);
    lemma_poly_eval_congruent(odds(c), y, w * w);
    lemma_eqm_mod(pe, p);
    lemma_eqm_mod(po, p);
    assert(eqm(e, pe, p));
    assert(eqm(o, po, p));
    // the value at root^k
    lemma_poly_eval_split(c, w);
    lemma_eqm_mul(w, w, o, po, p);
    lemma_eqm_mod(w * o, p);
    lemma_eqm_add(e, pe, mul_mod(w, o, p), w * po, p);
    lemma_eqm_mod(e + mul_mod(w, o, p), p);
    lemma_eqm_mod(pe + w * po, p);
    // the value at root^(k + h): the point is minus w
    let v = pow(root, k + h) % p;
    lemma_pow_adds(root, k, h);
    lemma_eqm_mod(pow(root, h), p);
    lemma_eqm_mul(x, w, pow(root, h), p - 1, p);
    lemma_eqm_mod(pow(root, k + h), p);
    assert(eqm(v, w * (p - 1), p));
    assert(w * (p - 1) == w * p - w) by (nonlinear_arith);
    vstd::arithmetic::div_mod::lemma_mod_multiples_vanish(w, -w, p);
    assert(eqm(v, -w, p));
    lemma_eqm_mul(v, -w, v, -w, p);
    assert((-w) * (-w) == w * w) by (nonlinear_arith);
    lemma_poly_eval_congruent(evens(c), v * v, w * w);
    lemma_poly_eval_congruent(odds(c), v * v, w * w);
    lemma_poly_eval_split(c, v);
    lemma_eqm_mul(v, -w, poly_eval(odds(c), v * v), po, p);
    lemma_eqm_add(
        poly_eval(evens(c), v * v),
        pe,
        v * poly_eval(odds(c), v * v),
        (-w) * po,
        p,
    );
    assert((-w) * po == -(w * po)) by (nonlinear_arith);
    lemma_eqm_sub(e, pe, mul_mod(w, o, p), w * po, p);
    lemma_eqm_mod(e - mul_mod(w, o, p), p);
    lemma_eqm_mod(poly_eval(c, v), p);
}

/// The values of the polynomial with the given coefficients at the powers
/// of a root of unity: entry `k` is the value at `root^k`. The number of
/// coefficients is `2^log_size`, and the root has that order.
pub fn fft(coefficients: &[Fr], root: &Fr, log_size: usize) -> (r: Vec<Fr>)
    requires
        all_wf(coefficients@),
        root.wf(),
        coefficients@.len() == pow2(log_size as nat),
        log_size >= 1 ==> pow(root@, pow2((log_size - 1) as nat)) % fr_modulus() == fr_modulus()
            - 1,
    ensures
        all_wf(r@),
        r@.len() == coefficients@.len(),
        fr_values(r@) == spec_dft(fr_values(coefficients@), root@),
    decreases log_size,
{
    let ghost p = fr_modulus();
    let ghost c = fr_values(coefficients@);
    let n = coefficients.len();
    if log_size == 0 {
        proof {
            vstd::arithmetic::power2::lemma2_to64();
        }
        let mut r: Vec<Fr> = Vec::new();
        r.push(coefficients[0]);
        proof {
            lemma_pow0(root@);
            lemma_pow0(1int);
            assert(c.drop_last().len() == 0);
            assert(poly_eval(c.drop_last(), 1) == 0);
            assert(poly_eval(c, 1) == c[0] * 1);
            vstd::arithmetic::div_mod::lemma_small_mod(1, p as nat);
            vstd::arithmetic::div_mod::lemma_small_mod(c[0] as nat, p as nat);
            assert(fr_values(r@) =~= spec_dft(c, root@));
        }
        return r;
    }
    let h = n / 2;
    let ghost hn = pow2((log_size - 1) as nat);
    proof {
        lemma_pow2_unfold(log_size as nat);
        lemma_pow2_pos((log_size - 1) as nat);
        assert(n == 2 * hn);
    }
    let mut even: Vec<Fr> = Vec::new();
    let mut odd: Vec<Fr> = Vec::new();
    let mut i: usize = 0;
    while i < h
        invariant
            i <= h,
            n == 2 * h,
            n == coefficients@.len(),
            all_wf(coefficients@),
            all_wf(even@),
            all_wf(odd@),
            even@.len() == i,
            odd@.len() == i,
            forall|j: int| 0 <= j < i ==> #[trigger] even@[j] == coefficients@[2 * j],
            forall|j: int| 0 <= j < i ==> #[trigger] odd@[j] == coefficients@[2 * j + 1],
        decreases h - i,
    {
        even.push(coefficients[2 * i]);
        odd.push(coefficients[2 * i + 1]);
        i = i + 1;
    }
    proof {
        assert(fr_values(even@) =~= evens(c));
        assert(fr_values(odd@) =~= odds(c));
    }
    let square = root.square();
    proof {
        if log_size >= 2 {
            // the square has half the order
            let q = pow2((log_size - 2) as nat);
            lemma_pow2_unfold((log_size - 1) as nat);
            lemma_eqm_mod(root@ * root@, p);
            lemma_pow_congruent(square@, root@ * root@, q);
            lemma_pow1(root@);
            lemma_pow_adds(root@, 1, 1);
            lemma_pow_multiplies(root@, 2, q);
            assert(2 * q == hn);
        }
    }
    let values_even = fft(even.as_slice(), &square, log_size - 1);
    let values_odd = fft(odd.as_slice(), &square, log_size - 1);
    let mut low: Vec<Fr> = Vec::new();
    let mut high: Vec<Fr> = Vec::new();
    let mut w = Fr::one();
    let mut k: usize = 0;
    proof {
        lemma_pow0(root@);
        vstd::arithmetic::div_mod::lemma_small_mod(1, p as nat);
    }
    while k < h
        invariant
            k <= h,
            h == hn,
            h >= 1,
            p == fr_modulus(),
            c == fr_values(coefficients@),
            c.len() == 2 * h,
            root.wf(),
            w.wf(),
            all_wf(values_even@),
            all_wf(values_odd@),
            values_even@.len() == h,
            values_odd@.len() == h,
            fr_values(values_even@) == spec_dft(evens(c), square@),
            fr_values(values_odd@) == spec_dft(odds(c), square@),
            square@ == (root@ * root@) % p,
            pow(root@, hn) % p == p - 1,
            w@ == pow(root@, k as nat) % p,
            all_wf(low@),
            all_wf(high@),
            low@.len() == k,
            high@.len() == k,
            forall|j: int|
                0 <= j < k ==> (#[trigger] low@[j])@ == fr_eval(c, pow(root@, j as nat) % p),
            forall|j: int|
                0 <= j < k ==> (#[trigger] high@[j])@ == fr_eval(c, pow(root@, (j + h) as nat) % p),
        decreases h - k,
    {
        let e = values_even[k];
        let o = values_odd[k];
        let t = w.mul(&o);
        proof {
            assert(e@ == fr_values(values_even@)[k as int]);
            assert(o@ == fr_values(values_odd@)[k as int]);
            lemma_butterfly(c, root@, hn, k as nat, w@, e@, o@);
            lemma_pow1(root@);
            lemma_pow_adds(root@, k as nat, 1);
            lemma_eqm_mod(pow(root@, k as nat), p);
            lemma_eqm_mul(w@, pow(root@, k as nat), root@, root@, p);
        }
        low.push(e.add(&t));
        high.push(e.sub(&t));
        w = w.mul(root);
        k = k + 1;
    }
    let ghost first = low@;
    let ghost second = high@;
    low.append(&mut high);
    proof {
        assert forall|j: int| 0 <= j < n implies fr_values(low@)[j] == spec_dft(c, root@)[j] by {
            if j < h {
                assert(low@[j] == first[j]);
            } else {
                assert(low@[j] == second[j - h]);
                assert((j - h + h) as nat == j as nat);
            }
        }
        assert(fr_values(low@) =~= spec_dft(c, root@));
    }
    low
}

} // verus!
