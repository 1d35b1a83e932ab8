//! Congruences modulo a positive integer.

use crate::field::{eqm, inv_mod, is_inverse_mod};
use vstd::arithmetic::div_mod::*;
use vstd::prelude::*;

verus! {

/// A number agrees with its remainder.
pub proof fn lemma_eqm_mod(a: int, p: int)
    requires
        p > 0,
    ensures
        eqm(a % p, a, p),
        0 <= a % p < p,
{
    lemma_mod_twice(a, p);
    lemma_mod_bound(a, p);
}

/// Congruent summands give congruent sums.
pub proof fn lemma_eqm_add(a: int, b: int, c: int, d: int, p: int)
    requires
        p > 0,
        eqm(a, b, p),
        eqm(c, d, p),
    ensures
        eqm(a + c, b + d, p),
{
    lemma_add_mod_noop(a, c, p);
    lemma_add_mod_noop(b, d, p);
}

/// Congruent terms give congruent differences.
pub proof fn lemma_eqm_sub(a: int, b: int, c: int, d: int, p: int)
    requires
        p > 0,
        eqm(a, b, p),
        eqm(c, d, p),
    ensures
        eqm(a - c, b - d, p),
{
    lemma_sub_mod_noop(a, c, p);
    lemma_sub_mod_noop(b, d, p);
}

/// Congruent factors give congruent products.
pub proof fn lemma_eqm_mul(a: int, b: int, c: int, d: int, p: int)
    requires
        p > 0,
        eqm(a, b, p),
        eqm(c, d, p),
    ensures
        eqm(a * c, b * d, p),
{
    lemma_mul_mod_noop(a, c, p);
    lemma_mul_mod_noop(b, d, p);
}

/// A canonical number that is congruent to another canonical number is that
/// number.
pub proof fn lemma_eqm_canonical(a: int, b: int, p: int)
    requires
        p > 0,
        0 <= a < p,
        0 <= b < p,
        eqm(a, b, p),
    ensures
        a == b,
{
    lemma_small_mod(a as nat, p as nat);
    lemma_small_mod(b as nat, p as nat);
}

/// A canonical inverse is the inverse that `inv_mod` names: inverses modulo
/// `p` are unique.
pub proof fn lemma_inverse_is_inv_mod(a: int, b: int, p: int)
    requires
        p > 1,
        is_inverse_mod(a, b, p),
    ensures
        inv_mod(a, p) == b,
        is_inverse_mod(a, inv_mod(a, p), p),
{
    let c = inv_mod(a, p);
    assert(is_inverse_mod(a, c, p));
    // b == b * (a * c) == (b * a) * c == c, modulo p
    lemma_small_mod(1, p as nat);
    lemma_eqm_mul(b, b, a * c, 1, p);
    lemma_eqm_mul(a * b, 1, c, c, p);
    assert(b * (a * c) == (a * b) * c) by (nonlinear_arith);
    assert(eqm(b, c, p));
    lemma_eqm_canonical(b, c, p);
}

/// A power with exponent `2q + low` is a power of the square times a power
/// of the base: `b^(2q + low) == (b * b)^q * b^low`.
pub proof fn lemma_pow_split(b: int, q: nat, low: nat)
    ensures
        vstd::arithmetic::power::pow(b, 2 * q + low) == vstd::arithmetic::power::pow(b * b, q)
            * vstd::arithmetic::power::pow(b, low),
{
    vstd::arithmetic::power::lemma_pow_adds(b, 2 * q, low);
    vstd::arithmetic::power::lemma_pow_multiplies(b, 2, q);
    vstd::arithmetic::power::lemma_pow1(b);
    vstd::arithmetic::power::lemma_pow_adds(b, 1, 1);
}

} // verus!
