//! Windowed signed-digit recoding of half-length scalars: every digit is
//! odd, so a window of `w` bits needs `2^(w - 1)` buckets and a sign.

use vstd::arithmetic::div_mod::{
    lemma_div_plus_one,
    lemma_fundamental_div_mod,
    lemma_mod_bound,
    lemma_mod_mod,
    lemma_multiply_divide_lt,
};
use vstd::arithmetic::power2::{lemma2_to64, lemma2_to64_rest, lemma_pow2_adds, lemma_pow2_pos, lemma_pow2_unfold, pow2};
use vstd::prelude::*;

verus! {

/// Number of bits of a half-length scalar.
pub const SCALAR_BITS: usize = 127;

/// The number of windows of `x` bits that cover `SCALAR_BITS` bits.
pub open spec fn spec_wnaf_size(x: int) -> int {
    (SCALAR_BITS as int + x - 1) / x
}

/// Window count for window width `x`: `SCALAR_BITS / x`, rounded up.
pub fn wnaf_size(x: usize) -> (n: usize)
    requires
        x > 0,
    ensures
        n == spec_wnaf_size(x as int),
        n >= 1,
        (n - 1) * x < SCALAR_BITS <= n * x,
{
    let n: usize = (SCALAR_BITS - 1) / x + 1;
    proof {
        let xi = x as int;
        assert(spec_wnaf_size(xi) == (126 + xi) / xi);
        lemma_div_plus_one(126, xi);
        lemma_fundamental_div_mod(126, xi);
        lemma_mod_bound(126, xi);
        assert((n - 1) * x == xi * (126int / xi)) by (nonlinear_arith)
            requires
                n - 1 == 126int / xi,
                x == xi,
        ;
        assert(n * x == xi * (126int / xi) + xi) by (nonlinear_arith)
            requires
                n - 1 == 126int / xi,
                x == xi,
        ;
    }
    n
}

/// What is left of an odd number `k` after `j` windows of `w` bits have been
/// taken off: the quotient by `2^w`, made odd by adding one where it is
/// even.
pub open spec fn wnaf_rem(k: int, w: nat, j: nat) -> int
    decreases j,
{
    if j == 0 {
        k
    } else {
        let rest = wnaf_rem(k, w, (j - 1) as nat) / (pow2(w) as int);
        if rest % 2 == 0 {
            rest + 1
        } else {
            rest
        }
    }
}

/// Digit `j` of the `m` digits of an odd number `k`: what window `j` holds
/// beyond `2^w` times what is left after it; the last digit is all that is
/// left.
pub open spec fn wnaf_digit(k: int, w: nat, m: nat, j: nat) -> int {
    if j + 1 >= m {
        wnaf_rem(k, w, j)
    } else {
        wnaf_rem(k, w, j) - pow2(w) * wnaf_rem(k, w, j + 1)
    }
}

/// Whether a scalar is even, and so is recoded as its successor.
pub open spec fn wnaf_skew(scalar: int) -> bool {
    scalar % 2 == 0
}

/// The odd number that is recoded for a scalar.
pub open spec fn wnaf_odd(scalar: int) -> int {
    if wnaf_skew(scalar) {
        scalar + 1
    } else {
        scalar
    }
}

/// The digits of a scalar for window width `w`, lowest window first.
pub open spec fn wnaf_digits(scalar: int, w: nat) -> Seq<int> {
    let m = spec_wnaf_size(w as int) as nat;
    Seq::new(m, |j: int| wnaf_digit(wnaf_odd(scalar), w, m, j as nat))
}

/// The number that the digits from window `j` up stand for, in units of
/// window `j`.
pub open spec fn wnaf_value(d: Seq<int>, w: nat, j: nat) -> int
    decreases d.len() - j,
{
    if j >= d.len() {
        0
    } else {
        d[j as int] + pow2(w) * wnaf_value(d, w, j + 1)
    }
}

/// The integers of a sequence of machine digits.
pub open spec fn digit_values(d: Seq<i64>) -> Seq<int> {
    Seq::new(d.len(), |j: int| d[j] as int)
}

/// The digits from window `j` up stand for what is left after `j` windows.
pub proof fn lemma_wnaf_value(scalar: int, w: nat, j: nat)
    requires
        w >= 1,
        j < spec_wnaf_size(w as int),
    ensures
        wnaf_value(wnaf_digits(scalar, w), w, j) == wnaf_rem(wnaf_odd(scalar), w, j),
    decreases spec_wnaf_size(w as int) - j,
{
    let m = spec_wnaf_size(w as int) as nat;
    let d = wnaf_digits(scalar, w);
    if j + 1 < m {
        lemma_wnaf_value(scalar, w, j + 1);
        assert(pow2(w) * wnaf_value(d, w, j + 1) == pow2(w) * wnaf_rem(wnaf_odd(scalar), w, j + 1));
    } else {
        assert(wnaf_value(d, w, j + 1) == 0);
        assert(pow2(w) * 0 == 0);
    }
}

/// The digits of a scalar stand for the scalar, or for its successor where
/// it is even.
pub proof fn lemma_wnaf_represents(scalar: int, w: nat)
    requires
        w >= 1,
    ensures
        wnaf_value(wnaf_digits(scalar, w), w, 0) == wnaf_odd(scalar),
{
    let xi = w as int;
    assert(spec_wnaf_size(xi) >= 1) by {
        lemma_div_plus_one(126, xi);
        vstd::arithmetic::div_mod::lemma_div_pos_is_pos(126, xi);
    }
    lemma_wnaf_value(scalar, w, 0);
}

/// What is left of an odd number below `2^127` after `j` windows is odd,
/// positive, and below `2^(127 - w j)`.
pub proof fn lemma_wnaf_rem_bound(k: int, w: nat, j: nat)
    requires
        w >= 1,
        k % 2 == 1,
        0 <= k < pow2(127),
        w * j < 127,
    ensures
        wnaf_rem(k, w, j) % 2 == 1,
        0 < wnaf_rem(k, w, j) < pow2((127 - w * j) as nat),
    decreases j,
{
    if j == 0 {
        assert(w * 0 == 0) by (nonlinear_arith);
    } else {
        let i = (j - 1) as nat;
        assert(w * i + w == w * j) by (nonlinear_arith)
            requires
                i + 1 == j,
        ;
        lemma_wnaf_rem_bound(k, w, i);
        let rem = wnaf_rem(k, w, i);
        let base = pow2(w) as int;
        let e = (127 - w * i) as nat;
        let rest = rem / base;
        lemma_pow2_pos(w);
        lemma_pow2_adds(w, (e - w) as nat);
        lemma_multiply_divide_lt(rem, base, pow2((e - w) as nat) as int);
        lemma_pow2_unfold((e - w) as nat);
        lemma_pow2_pos((e - w - 1) as nat);
        vstd::arithmetic::div_mod::lemma_div_pos_is_pos(rem, base);
    }
}

/// Every digit of a scalar below `2^127` is odd and of size below `2^w`.
pub proof fn lemma_wnaf_digits_valid(scalar: int, w: nat, j: int)
    requires
        w >= 1,
        0 <= scalar < pow2(127),
        0 <= j < spec_wnaf_size(w as int),
    ensures
        wnaf_digits(scalar, w).len() == spec_wnaf_size(w as int),
        wnaf_digits(scalar, w)[j] % 2 != 0,
        -pow2(w) < wnaf_digits(scalar, w)[j] < pow2(w),
{
    let m = spec_wnaf_size(w as int);
    let k = wnaf_odd(scalar);
    let base = pow2(w) as int;
    lemma_wnaf_size_bounds(w as int);
    lemma_pow2_pos(w);
    lemma_pow2_unfold(127);
    lemma_pow2_pos(126);
    assert(w * j <= w * (m - 1)) by (nonlinear_arith)
        requires
            j <= m - 1,
            w >= 0,
    ;
    lemma_wnaf_rem_bound(k, w, j as nat);
    let rem = wnaf_rem(k, w, j as nat);
    let e = (127 - w * j) as nat;
    if j + 1 >= m {
        // the last digit is what is left
        assert(e <= w) by (nonlinear_arith)
            requires
                e == 127 - w * j,
                j == m - 1,
                127 <= m * w,
        ;
        if e < w {
            vstd::arithmetic::power2::lemma_pow2_strictly_increases(e, w);
        }
    } else {
        let rest = rem / base;
        lemma_fundamental_div_mod(rem, base);
        lemma_pow2_unfold(w);
        lemma_mod_mod(rem, 2, pow2((w - 1) as nat) as int);
        lemma_pow2_pos((w - 1) as nat);
        lemma_mod_bound(rem, base);
        let next = wnaf_rem(k, w, (j + 1) as nat);
        assert(base * (rest + 1) == base * rest + base) by (nonlinear_arith);
    }
}

/// The number of windows covers the scalar and no window is idle.
pub proof fn lemma_wnaf_size_bounds(x: int)
    requires
        x >= 1,
    ensures
        spec_wnaf_size(x) >= 1,
        (spec_wnaf_size(x) - 1) * x < 127 <= spec_wnaf_size(x) * x,
{
    let n = spec_wnaf_size(x);
    assert(n == (126 + x) / x);
    lemma_div_plus_one(126, x);
    lemma_fundamental_div_mod(126, x);
    lemma_mod_bound(126, x);
    vstd::arithmetic::div_mod::lemma_div_pos_is_pos(126, x);
    assert((n - 1) * x == x * (126int / x)) by (nonlinear_arith)
        requires
            n - 1 == 126int / x,
    ;
    assert(n * x == x * (126int / x) + x) by (nonlinear_arith)
        requires
            n - 1 == 126int / x,
    ;
}

/// `2^w` as a machine integer.
fn window_base(w: usize) -> (base: u128)
    requires
        1 <= w <= 62,
    ensures
        base == pow2(w as nat),
        2 <= base <= 0x4000_0000_0000_0000,
        base % 2 == 0,
{
    let mut base: u128 = 1;
    let mut i: usize = 0;
    proof {
        lemma2_to64();
        lemma2_to64_rest();
    }
    while i < w
        invariant
            i <= w <= 62,
            base == pow2(i as nat),
            1 <= base <= pow2(62),
            pow2(62) == 0x4000_0000_0000_0000,
            i >= 1 ==> base % 2 == 0 && base >= 2,
        decreases w - i,
    {
        proof {
            lemma_pow2_unfold((i + 1) as nat);
            if i + 1 < 62 {
                vstd::arithmetic::power2::lemma_pow2_strictly_increases((i + 1) as nat, 62);
            }
        }
        base = base * 2;
        i = i + 1;
    }
    base
}

/// The signed odd digits of a half-length scalar for window width `w`, lowest
/// window first, and whether the scalar was even: the digits then stand for
/// its successor.
pub fn decompose(scalar: u128, w: usize) -> (r: (Vec<i64>, bool))
    requires
        scalar < 0x8000_0000_0000_0000_0000_0000_0000_0000,
        1 <= w <= 62,
    ensures
        digit_values(r.0@) == wnaf_digits(scalar as int, w as nat),
        r.0@.len() == spec_wnaf_size(w as int),
        r.1 == wnaf_skew(scalar as int),
        wnaf_value(digit_values(r.0@), w as nat, 0) == scalar + (if r.1 { 1int } else { 0int }),
        forall|j: int|
            0 <= j < r.0@.len() ==> (#[trigger] r.0@[j]) % 2 != 0 && -pow2(w as nat) < r.0@[j] < pow2(
                w as nat,
            ),
{
    let m = wnaf_size(w);
    let base = window_base(w);
    let skew = scalar % 2 == 0;
    let odd: u128 = if skew { scalar + 1 } else { scalar };
    let ghost wn = w as nat;
    let ghost k = odd as int;
    let mut digits: Vec<i64> = Vec::new();
    let mut rem: u128 = odd;
    let mut j: usize = 0;
    proof {
        lemma2_to64();
        lemma_pow2_adds(64, 63);
        lemma2_to64_rest();
        assert(pow2(127) == 0x8000_0000_0000_0000_0000_0000_0000_0000);
        assert(127 - w * 0 == 127) by (nonlinear_arith);
    }
    while j < m - 1
        invariant
            1 <= w <= 62,
            wn == w as nat,
            m == spec_wnaf_size(w as int),
            m >= 1,
            (m - 1) * w < 127 <= m * w,
            base == pow2(wn),
            2 <= base <= 0x4000_0000_0000_0000,
            base % 2 == 0,
            j <= m - 1,
            k == wnaf_odd(scalar as int),
            rem == wnaf_rem(k, wn, j as nat),
            rem % 2 == 1,
            127 - w * j >= 1,
            rem < pow2((127 - w * j) as nat),
            digits@.len() == j,
            forall|i: int| 0 <= i < j ==> (#[trigger] digits@[i]) as int == wnaf_digit(k, wn, m as nat, i as nat),
            forall|i: int|
                0 <= i < j ==> (#[trigger] digits@[i]) % 2 != 0 && -pow2(wn) < digits@[i] < pow2(wn),
        decreases m - 1 - j,
    {
        let slice = rem % base;
        let rest = rem / base;
        let ghost e = 127 - w * j;
        proof {
            lemma_fundamental_div_mod(rem as int, base as int);
            // the window of an odd number is odd
            lemma_pow2_unfold(wn);
            lemma_mod_mod(rem as int, 2, pow2((wn - 1) as nat) as int);
            lemma_pow2_pos((wn - 1) as nat);
            assert(slice % 2 == 1);
            // what is left stays below its bound
            assert(e - w == 127 - w * (j + 1)) by (nonlinear_arith)
                requires
                    e == 127 - w * j,
            ;
            assert(w * (j + 1) <= (m - 1) * w) by (nonlinear_arith)
                requires
                    j + 1 <= m - 1,
                    w >= 0,
            ;
            lemma_pow2_adds(wn, (e - w) as nat);
            lemma_multiply_divide_lt(rem as int, base as int, pow2((e - w) as nat) as int);
            lemma_pow2_unfold((e - w) as nat);
            lemma_pow2_pos((e - w - 1) as nat);
        }
        let d: i64 = if rest % 2 == 0 {
            rem = rest + 1;
            (slice as i64) - (base as i64)
        } else {
            rem = rest;
            slice as i64
        };
        proof {
            assert(rem == wnaf_rem(k, wn, (j + 1) as nat));
            assert(d == wnaf_digit(k, wn, m as nat, j as nat)) by {
                assert(pow2(wn) * (rest + 1) == pow2(wn) * rest + pow2(wn)) by (nonlinear_arith);
            }
        }
        digits.push(d);
        j = j + 1;
    }
    proof {
        let e = 127 - w * j;
        assert(e <= w) by (nonlinear_arith)
            requires
                e == 127 - w * j,
                j == m - 1,
                127 <= m * w,
        ;
        if e < w {
            vstd::arithmetic::power2::lemma_pow2_strictly_increases(e as nat, wn);
        }
    }
    digits.push(rem as i64);
    proof {
        assert(digit_values(digits@) =~= wnaf_digits(scalar as int, wn));
        lemma_wnaf_represents(scalar as int, wn);
    }
    (digits, skew)
}

} // verus!
