//! The quotient `(F(X) - F(z)) / (X - z)` of a polynomial by a linear factor,
//! computed by synthetic division with the inverse of `-z`.

use crate::field::{eqm, fr_modulus, inv_mod, is_inverse_mod, mul_mod, neg_mod, sub_mod, Fr};
use crate::modular::{
    lemma_eqm_add,
    lemma_eqm_canonical,
    lemma_eqm_mod,
    lemma_eqm_mul,
    lemma_eqm_sub,
    lemma_inverse_is_inv_mod,
};
use crate::polynomial::{all_wf, evaluate, fr_eval, fr_values, poly_eval};
use vstd::arithmetic::power::{lemma_pow0, lemma_pow1, lemma_pow_adds, lemma_pow_distributes, pow};
use vstd::prelude::*;

verus! {

/// The inverse of `-z` in the scalar field.
pub open spec fn opening_divisor(z: int) -> int {
    inv_mod(neg_mod(z, fr_modulus()), fr_modulus())
}

/// Coefficient `k` of the opening polynomial of `f` at `z`: with `d` the
/// inverse of `-z`, the first is `(f[0] - f(z)) * d` and each later one is
/// `(f[k] - w[k - 1]) * d`.
pub open spec fn opening_coeff(f: Seq<int>, z: int, k: nat) -> int
    decreases k,
{
    let p = fr_modulus();
    if k == 0 {
        mul_mod(sub_mod(f[0], fr_eval(f, z), p), opening_divisor(z), p)
    } else {
        mul_mod(sub_mod(f[k as int], opening_coeff(f, z, (k - 1) as nat), p), opening_divisor(z), p)
    }
}

/// The opening polynomial of `f` at `z`, with as many coefficients as `f`.
pub open spec fn opening_polynomial(f: Seq<int>, z: int) -> Seq<int> {
    Seq::new(f.len(), |k: int| opening_coeff(f, z, k as nat))
}

/// A power of a number congruent to one is congruent to one.
proof fn lemma_pow_of_one(c: int, n: nat, p: int)
    requires
        p > 1,
        eqm(c, 1, p),
    ensures
        eqm(pow(c, n), 1, p),
    decreases n,
{
    if n == 0 {
        lemma_pow0(c);
    } else {
        lemma_pow_of_one(c, (n - 1) as nat, p);
        lemma_pow1(c);
        lemma_pow_adds(c, (n - 1) as nat, 1);
        lemma_eqm_mul(pow(c, (n - 1) as nat), 1, c, 1, p);
    }
}

/// With `d` the inverse of `-z`: `(-z) * d` is congruent to one.
proof fn lemma_divisor(z: int, d: int)
    requires
        is_inverse_mod(neg_mod(z, fr_modulus()), d, fr_modulus()),
    ensures
        eqm((-z) * d, 1, fr_modulus()),
        d == opening_divisor(z),
{
    let p = fr_modulus();
    lemma_eqm_mod(-z, p);
    lemma_eqm_mul(neg_mod(z, p), -z, d, d, p);
    vstd::arithmetic::div_mod::lemma_small_mod(1, p as nat);
    lemma_inverse_is_inv_mod(neg_mod(z, p), d, p);
}

/// Each coefficient of the opening polynomial is a canonical integer.
proof fn lemma_opening_coeff_canonical(f: Seq<int>, z: int, k: nat)
    ensures
        0 <= opening_coeff(f, z, k) < fr_modulus(),
{
    let p = fr_modulus();
    if k == 0 {
        lemma_eqm_mod(sub_mod(f[0], fr_eval(f, z), p) * opening_divisor(z), p);
    } else {
        lemma_eqm_mod(
            sub_mod(f[k as int], opening_coeff(f, z, (k - 1) as nat), p) * opening_divisor(z),
            p,
        );
    }
}

/// The recurrence that the coefficients meet: `-z * w[0]` is congruent to
/// `f[0] - f(z)`, and `w[k - 1] - z * w[k]` to `f[k]`.
proof fn lemma_opening_recurrence(f: Seq<int>, z: int, k: nat)
    requires
        is_inverse_mod(neg_mod(z, fr_modulus()), opening_divisor(z), fr_modulus()),
    ensures
        k == 0 ==> eqm((-z) * opening_coeff(f, z, 0), f[0] - fr_eval(f, z), fr_modulus()),
        k > 0 ==> eqm(
            opening_coeff(f, z, (k - 1) as nat) - z * opening_coeff(f, z, k),
            f[k as int],
            fr_modulus(),
        ),
{
    let p = fr_modulus();
    let d = opening_divisor(z);
    lemma_divisor(z, d);
    let w = opening_coeff(f, z, k);
    // `t` is what the coefficient is the product of with `d`.
    let t = if k == 0 {
        f[0] - fr_eval(f, z)
    } else {
        f[k as int] - opening_coeff(f, z, (k - 1) as nat)
    };
    assert(w == mul_mod(t % p, d, p));
    lemma_eqm_mod(t, p);
    lemma_eqm_mod((t % p) * d, p);
    lemma_eqm_mul(t % p, t, d, d, p);
    assert(eqm(w, t * d, p));
    lemma_eqm_mul(w, t * d, -z, -z, p);
    lemma_eqm_mul(t, t, (-z) * d, 1, p);
    assert((t * d) * (-z) == t * ((-z) * d)) by (nonlinear_arith);
    assert(eqm(w * (-z), t, p));
    assert(w * (-z) == (-z) * w) by (nonlinear_arith);
    if k > 0 {
        let prev = opening_coeff(f, z, (k - 1) as nat);
        lemma_eqm_add(prev, prev, w * (-z), t, p);
        assert(prev + w * (-z) == prev - z * w) by (nonlinear_arith);
    }
}

/// The identity that the first `j` coefficients meet at any `x`:
/// `(x - z) * W_j(x)` is congruent to `F_j(x) - f(z) + w[j - 1] * x^j`,
/// where `W_j` and `F_j` are the polynomials of the first `j` coefficients.
proof fn lemma_opening_prefix(f: Seq<int>, z: int, x: int, j: nat)
    requires
        1 <= j <= f.len(),
        is_inverse_mod(neg_mod(z, fr_modulus()), opening_divisor(z), fr_modulus()),
    ensures
        eqm(
            (x - z) * poly_eval(opening_polynomial(f, z).take(j as int), x),
            poly_eval(f.take(j as int), x) - fr_eval(f, z) + opening_coeff(f, z, (j - 1) as nat)
                * pow(x, j),
            fr_modulus(),
        ),
    decreases j,
{
    let p = fr_modulus();
    let w = opening_polynomial(f, z);
    let e = fr_eval(f, z);
    let wj = w.take(j as int);
    let fj = f.take(j as int);
    let last = opening_coeff(f, z, (j - 1) as nat);
    let xp = pow(x, (j - 1) as nat);
    lemma_pow1(x);
    lemma_pow_adds(x, (j - 1) as nat, 1);
    assert(pow(x, j) == xp * x);
    assert(wj.last() == last);
    assert(fj.last() == f[j - 1]);
    if j == 1 {
        lemma_pow0(x);
        assert(wj.drop_last().len() == 0);
        assert(fj.drop_last().len() == 0);
        assert(poly_eval(wj.drop_last(), x) == 0);
        assert(poly_eval(fj.drop_last(), x) == 0);
        assert(poly_eval(wj, x) == last * xp);
        assert(poly_eval(fj, x) == f[0] * xp);
        lemma_opening_recurrence(f, z, 0);
        lemma_eqm_add((-z) * last, f[0] - e, last * x, last * x, p);
        assert((x - z) * (last * xp) == (-z) * last + last * x) by (nonlinear_arith)
            requires
                xp == 1,
        ;
        assert(f[0] * xp - e + last * pow(x, j) == (f[0] - e) + last * x) by (nonlinear_arith)
            requires
                xp == 1,
                pow(x, j) == xp * x,
        ;
    } else {
        let i = (j - 1) as nat;
        lemma_opening_prefix(f, z, x, i);
        let prev = opening_coeff(f, z, (i - 1) as nat);
        let wi = w.take(i as int);
        let fi = f.take(i as int);
        assert(wj.drop_last() =~= wi);
        assert(fj.drop_last() =~= fi);
        let sw = poly_eval(wi, x);
        let sf = poly_eval(fi, x);
        assert(poly_eval(wj, x) == sw + last * xp);
        assert(poly_eval(fj, x) == sf + f[i as int] * xp);
        // induction hypothesis: (x - z) * sw == sf - e + prev * xp
        lemma_opening_recurrence(f, z, i);
        let t = prev - z * last;
        lemma_eqm_mul(t, f[i as int], xp, xp, p);
        let shift = last * pow(x, j) - prev * xp;
        lemma_eqm_add((x - z) * sw, sf - e + prev * xp, shift, shift, p);
        lemma_eqm_add((x - z) * sw + shift, sf - e + prev * xp + shift, t * xp, f[i as int] * xp, p);
        assert((x - z) * (sw + last * xp) == (x - z) * sw + shift + t * xp) by (nonlinear_arith)
            requires
                shift == last * pow(x, j) - prev * xp,
                t == prev - z * last,
                pow(x, j) == xp * x,
        ;
        assert(sf + f[i as int] * xp - e + last * pow(x, j) == sf - e + prev * xp + shift + f[i as int]
            * xp) by (nonlinear_arith)
            requires
                shift == last * pow(x, j) - prev * xp,
        ;
    }
}

/// The division leaves no remainder: the highest coefficient of the opening
/// polynomial is zero.
proof fn lemma_opening_top_is_zero(f: Seq<int>, z: int)
    requires
        f.len() >= 1,
        is_inverse_mod(neg_mod(z, fr_modulus()), opening_divisor(z), fr_modulus()),
    ensures
        opening_coeff(f, z, (f.len() - 1) as nat) == 0,
{
    let p = fr_modulus();
    let n = f.len();
    let d = opening_divisor(z);
    let top = opening_coeff(f, z, (n - 1) as nat);
    let zn = pow(z, n);
    lemma_opening_prefix(f, z, z, n);
    assert(f.take(n as int) =~= f);
    let sw = poly_eval(opening_polynomial(f, z).take(n as int), z);
    assert((z - z) * sw == 0) by (nonlinear_arith);
    // 0 == f(z) - e + top * z^n, and f(z) == e, so top * z^n == 0
    lemma_eqm_mod(poly_eval(f, z), p);
    lemma_eqm_sub(poly_eval(f, z) - fr_eval(f, z) + top * zn, 0, poly_eval(f, z), fr_eval(f, z), p);
    assert(eqm(top * zn - fr_eval(f, z), -fr_eval(f, z), p));
    lemma_eqm_add(top * zn - fr_eval(f, z), -fr_eval(f, z), fr_eval(f, z), fr_eval(f, z), p);
    assert(eqm(top * zn, 0, p));
    // z * (-d) == 1, so z^n * (-d)^n == 1
    lemma_divisor(z, d);
    assert(z * (-d) == (-z) * d) by (nonlinear_arith);
    lemma_pow_of_one(z * (-d), n, p);
    lemma_pow_distributes(z, -d, n);
    let dn = pow(-d, n);
    lemma_eqm_mul(top, top, zn * dn, 1, p);
    lemma_eqm_mul(top * zn, 0, dn, dn, p);
    assert(top * (zn * dn) == (top * zn) * dn) by (nonlinear_arith);
    assert(0 * dn == 0);
    assert(top * 1 == top);
    assert(eqm(top, 0, p));
    lemma_opening_coeff_canonical(f, z, (n - 1) as nat);
    lemma_eqm_canonical(top, 0, p);
}

/// The opening polynomial `W` of `f` at an invertible `z` is the quotient of
/// `f(X) - f(z)` by `X - z`: at every `r`, `W(r) * (r - z) == f(r) - f(z)`
/// in the scalar field.
pub proof fn lemma_opening_polynomial_divides(f: Seq<int>, z: int, r: int)
    requires
        f.len() >= 1,
        is_inverse_mod(neg_mod(z, fr_modulus()), opening_divisor(z), fr_modulus()),
    ensures
        mul_mod(fr_eval(opening_polynomial(f, z), r), sub_mod(r, z, fr_modulus()), fr_modulus())
            == sub_mod(fr_eval(f, r), fr_eval(f, z), fr_modulus()),
{
    let p = fr_modulus();
    let n = f.len();
    let w = opening_polynomial(f, z);
    lemma_opening_prefix(f, z, r, n);
    lemma_opening_top_is_zero(f, z);
    assert(f.take(n as int) =~= f);
    assert(w.take(n as int) =~= w);
    let sw = poly_eval(w, r);
    let sf = poly_eval(f, r);
    let e = fr_eval(f, z);
    assert(0 * pow(r, n) == 0);
    assert(eqm((r - z) * sw, sf - e, p));
    lemma_eqm_mod(sw, p);
    lemma_eqm_mod(r - z, p);
    lemma_eqm_mul(sw % p, sw, (r - z) % p, r - z, p);
    assert(sw * (r - z) == (r - z) * sw) by (nonlinear_arith);
    lemma_eqm_mod(sf, p);
    lemma_eqm_sub(sf % p, sf, e, e, p);
    lemma_eqm_mod((sw % p) * ((r - z) % p), p);
    lemma_eqm_mod(sf % p - e, p);
    lemma_eqm_canonical(
        mul_mod(fr_eval(w, r), sub_mod(r, z, p), p),
        sub_mod(fr_eval(f, r), e, p),
        p,
    );
}

/// Replaces the `n` coefficients of `dest` from `offset` on, a polynomial
/// `F`, by those of its opening polynomial at `z`. The other coefficients
/// stay. The new coefficients `W` meet `W(r) * (r - z) == F(r) - F(z)` at
/// every `r`, and the highest of them is zero.
pub fn open_in_place(dest: &mut Vec<Fr>, offset: usize, n: usize, z: &Fr)
    requires
        all_wf(old(dest)@),
        n >= 1,
        offset + n <= old(dest)@.len(),
        z.wf(),
        z@ != 0,
    ensures
        all_wf(final(dest)@),
        final(dest)@.len() == old(dest)@.len(),
        fr_values(final(dest)@).subrange(offset as int, offset + n) == opening_polynomial(
            fr_values(old(dest)@).subrange(offset as int, offset + n),
            z@,
        ),
        forall|k: int|
            0 <= k < old(dest)@.len() && !(offset <= k < offset + n) ==> final(dest)@[k] == old(
                dest,
            )@[k],
        final(dest)@[offset + n - 1]@ == 0,
        forall|r: int|
            mul_mod(
                fr_eval(fr_values(final(dest)@).subrange(offset as int, offset + n), r),
                sub_mod(r, z@, fr_modulus()),
                fr_modulus(),
            ) == sub_mod(
                fr_eval(fr_values(old(dest)@).subrange(offset as int, offset + n), r),
                fr_eval(fr_values(old(dest)@).subrange(offset as int, offset + n), z@),
                fr_modulus(),
            ),
{
    let ghost p = fr_modulus();
    let ghost f = fr_values(old(dest)@).subrange(offset as int, offset + n);
    let length = dest.len();
    let segment = vstd::slice::slice_subrange(dest.as_slice(), offset, offset + n);
    proof {
        assert(fr_values(segment@) =~= f);
        assert(fr_values(segment@).take(n as int) =~= f);
    }
    let value = evaluate(segment, z, n);
    let minus_z = z.neg();
    proof {
        vstd::arithmetic::div_mod::lemma_mod_add_multiples_vanish(-z@, p);
        vstd::arithmetic::div_mod::lemma_small_mod((p - z@) as nat, p as nat);
        assert(minus_z@ == p - z@);
    }
    let divisor = match minus_z.inverse() {
        Some(d) => d,
        None => Fr::zero(),
    };
    proof {
        assert(divisor@ == opening_divisor(z@));
    }
    let mut k: usize = 0;
    while k < n
        invariant
            k <= n,
            n >= 1,
            offset + n <= dest@.len(),
            dest@.len() == old(dest)@.len(),
            dest@.len() == length,
            all_wf(dest@),
            z.wf(),
            value.wf(),
            divisor.wf(),
            p == fr_modulus(),
            f == fr_values(old(dest)@).subrange(offset as int, offset + n),
            value@ == fr_eval(f, z@),
            divisor@ == opening_divisor(z@),
            forall|j: int|
                offset <= j < offset + k ==> (#[trigger] dest@[j])@ == opening_coeff(
                    f,
                    z@,
                    (j - offset) as nat,
                ),
            forall|i: int|
                0 <= i < dest@.len() && !(offset <= i < offset + k) ==> dest@[i] == old(dest)@[i],
        decreases n - k,
    {
        let previous = if k == 0 {
            value
        } else {
            dest[offset + k - 1]
        };
        let current = dest[offset + k];
        proof {
            assert(current@ == f[k as int]);
            if k > 0 {
                assert(previous@ == opening_coeff(f, z@, (k - 1) as nat));
            }
        }
        let next = current.sub(&previous).mul(&divisor);
        dest[offset + k] = next;
        k = k + 1;
    }
    proof {
        assert(fr_values(dest@).subrange(offset as int, offset + n) =~= opening_polynomial(f, z@));
        lemma_opening_top_is_zero(f, z@);
        assert(dest@[offset + n - 1]@ == opening_coeff(f, z@, (n - 1) as nat));
        assert forall|r: int|
            mul_mod(
                fr_eval(fr_values(dest@).subrange(offset as int, offset + n), r),
                sub_mod(r, z@, p),
                p,
            ) == sub_mod(fr_eval(f, r), fr_eval(f, z@), p) by {
            lemma_opening_polynomial_divides(f, z@, r);
        }
    }
}

/// Writes to the first `n` coefficients of `dest` the opening polynomial at
/// `z` of the polynomial `F` of the first `n` coefficients of `src`:
/// `W(X) = (F(X) - F(z)) / (X - z)`, whose highest coefficient is zero.
/// What follows in `dest` stays.
pub fn compute_opening_polynomial(src: &[Fr], dest: &mut Vec<Fr>, z: &Fr, n: usize)
    requires
        all_wf(src@),
        all_wf(old(dest)@),
        1 <= n <= src@.len(),
        n <= old(dest)@.len(),
        z.wf(),
        z@ != 0,
    ensures
        all_wf(final(dest)@),
        final(dest)@.len() == old(dest)@.len(),
        fr_values(final(dest)@).take(n as int) == opening_polynomial(
            fr_values(src@).take(n as int),
            z@,
        ),
        forall|k: int| n <= k < old(dest)@.len() ==> final(dest)@[k] == old(dest)@[k],
        final(dest)@[n - 1]@ == 0,
        forall|r: int|
            mul_mod(
                fr_eval(fr_values(final(dest)@).take(n as int), r),
                sub_mod(r, z@, fr_modulus()),
                fr_modulus(),
            ) == sub_mod(
                fr_eval(fr_values(src@).take(n as int), r),
                fr_eval(fr_values(src@).take(n as int), z@),
                fr_modulus(),
            ),
{
    let mut k: usize = 0;
    while k < n
        invariant
            k <= n <= src@.len(),
            n <= dest@.len(),
            dest@.len() == old(dest)@.len(),
            all_wf(src@),
            all_wf(dest@),
            forall|i: int| 0 <= i < k ==> dest@[i] == src@[i],
            forall|i: int| k <= i < dest@.len() ==> dest@[i] == old(dest)@[i],
        decreases n - k,
    {
        dest[k] = src[k];
        k = k + 1;
    }
    let ghost copied = dest@;
    proof {
        assert(fr_values(copied).subrange(0, n as int) =~= fr_values(src@).take(n as int));
    }
    open_in_place(dest, 0, n, z);
    proof {
        assert(fr_values(dest@).subrange(0, n as int) =~= fr_values(dest@).take(n as int));
    }
}

} // verus!
