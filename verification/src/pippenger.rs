//! The bucket method for multi-scalar multiplication. Each scalar is split
//! into two half-length scalars, each half is recoded into signed odd
//! digits, one per window; in each window every point is added to the bucket
//! of its digit, the buckets are summed with their weights, and the windows
//! are combined by doubling.

use crate::errors::Error;
use crate::field::{fr_modulus, Fr};
use crate::group::{g1_add, g1_identity, G1Affine, G1Point};
use crate::group_laws::{
    all_nonneg,
    all_valid,
    double_times,
    g1_laws,
    lc,
    lemma_double_times_lc,
    lemma_lc_add,
    lemma_lc_unit,
    lemma_lc_zero,
    lemma_point_table_valid,
    lemma_table_collapse,
    point_table,
    table_net,
    vadd,
    vscale,
    vunit,
    vzero,
};
use crate::msm::{lemma_msm_is_lc, msm, points_view};
use crate::polynomial::{all_wf, fr_values};
use crate::reference_string::all_points_wf;
use crate::wnaf::{
    decompose,
    digit_values,
    lemma_wnaf_digits_valid,
    lemma_wnaf_represents,
    lemma_wnaf_size_bounds,
    spec_wnaf_size,
    wnaf_digits,
    wnaf_size,
    wnaf_skew,
    wnaf_value,
};
use vstd::arithmetic::power2::{lemma2_to64, lemma2_to64_rest, lemma_pow2_adds, lemma_pow2_pos, lemma_pow2_unfold, pow2};
use vstd::prelude::*;

verus! {

/// The window width for a number of points.
pub open spec fn spec_bucket_width(n: int) -> int {
    if n >= 14617149 {
        21
    } else if n >= 1139094 {
        18
    } else if n >= 155975 {
        15
    } else if n >= 144834 {
        14
    } else if n >= 25067 {
        12
    } else if n >= 13926 {
        11
    } else if n >= 7659 {
        10
    } else if n >= 2436 {
        9
    } else if n >= 376 {
        7
    } else if n >= 231 {
        6
    } else if n >= 97 {
        5
    } else if n >= 35 {
        4
    } else if n >= 10 {
        3
    } else if n >= 2 {
        2
    } else {
        1
    }
}

/// The window width for a number of points.
pub fn get_optimal_bucket_width(num_points: usize) -> (w: usize)
    ensures
        w == spec_bucket_width(num_points as int),
        1 <= w <= 21,
{
    if num_points >= 14617149 {
        21
    } else if num_points >= 1139094 {
        18
    } else if num_points >= 155975 {
        15
    } else if num_points >= 144834 {
        14
    } else if num_points >= 25067 {
        12
    } else if num_points >= 13926 {
        11
    } else if num_points >= 7659 {
        10
    } else if num_points >= 2436 {
        9
    } else if num_points >= 376 {
        7
    } else if num_points >= 231 {
        6
    } else if num_points >= 97 {
        5
    } else if num_points >= 35 {
        4
    } else if num_points >= 10 {
        3
    } else if num_points >= 2 {
        2
    } else {
        1
    }
}

/// The size of a digit.
pub open spec fn digit_abs(d: int) -> int {
    if d < 0 {
        -d
    } else {
        d
    }
}

/// The bucket of an odd digit: digits `1` and `-1` go to bucket 0, `3` and
/// `-3` to bucket 1, and so on.
pub open spec fn bucket_index(d: int) -> int {
    (digit_abs(d) - 1) / 2
}

/// The table entry that the digit `d` of point `i` selects: the point for a
/// positive digit, its inverse for a negative one.
pub open spec fn entry_index(i: int, d: int) -> int {
    2 * i + (if d < 0 {
        1int
    } else {
        0int
    })
}

/// The buckets of window `j` after the first `i` points: each point's table
/// entry added to the bucket of its digit.
pub open spec fn buckets_after(
    table: Seq<G1Point>,
    digits: Seq<Seq<int>>,
    j: int,
    nb: nat,
    i: nat,
) -> Seq<G1Point>
    decreases i,
{
    if i == 0 {
        Seq::new(nb, |b: int| g1_identity())
    } else {
        let prev = buckets_after(table, digits, j, nb, (i - 1) as nat);
        let d = digits[i - 1][j];
        let b = bucket_index(d);
        prev.update(b, g1_add(prev[b], table[entry_index(i - 1, d)]))
    }
}

/// The sum of the buckets from `b` up, the highest first.
pub open spec fn running_sum(buckets: Seq<G1Point>, b: int) -> G1Point
    decreases buckets.len() - b,
{
    if b >= buckets.len() {
        g1_identity()
    } else {
        g1_add(running_sum(buckets, b + 1), buckets[b])
    }
}

/// The sum of the running sums above `b`: bucket `b + k` counts `k` times.
pub open spec fn weighted_sum(buckets: Seq<G1Point>, b: int) -> G1Point
    decreases buckets.len() - b,
{
    if b >= buckets.len() {
        g1_identity()
    } else {
        g1_add(weighted_sum(buckets, b + 1), running_sum(buckets, b + 1))
    }
}

/// The sum of a window: bucket `b` counts `2b + 1` times, the size of its
/// digits.
pub open spec fn window_sum(buckets: Seq<G1Point>) -> G1Point {
    let t = weighted_sum(buckets, 0);
    g1_add(g1_add(t, t), running_sum(buckets, 0))
}

/// The windows from `j` up combined: the sum of the windows above, doubled
/// `w` times, and the sum of window `j`.
pub open spec fn windows_sum(
    table: Seq<G1Point>,
    digits: Seq<Seq<int>>,
    w: nat,
    m: nat,
    j: int,
) -> G1Point
    decreases m - j,
{
    if j >= m {
        g1_identity()
    } else {
        g1_add(
            double_times(windows_sum(table, digits, w, m, j + 1), w),
            window_sum(
                buckets_after(table, digits, j, pow2((w - 1) as nat), digits.len()),
            ),
        )
    }
}

/// A sum with the inverse of each of the first `i` points added whose
/// scalar was recoded as its successor.
pub open spec fn skew_fixed(table: Seq<G1Point>, skews: Seq<bool>, acc: G1Point, i: nat) -> G1Point
    decreases i,
{
    if i == 0 {
        acc
    } else {
        let prev = skew_fixed(table, skews, acc, (i - 1) as nat);
        if skews[i - 1] {
            g1_add(prev, table[2 * (i - 1) + 1])
        } else {
            prev
        }
    }
}

/// The digits of a list of half-length scalars.
pub open spec fn half_digits(halves: Seq<int>, w: nat) -> Seq<Seq<int>> {
    Seq::new(halves.len(), |i: int| wnaf_digits(halves[i], w))
}

/// Which of a list of half-length scalars are recoded as their successors.
pub open spec fn half_skews(halves: Seq<int>) -> Seq<bool> {
    Seq::new(halves.len(), |i: int| wnaf_skew(halves[i]))
}

/// The bucket-method sum for half-length scalars over a table.
pub open spec fn half_sum(table: Seq<G1Point>, halves: Seq<int>, w: nat) -> G1Point {
    skew_fixed(
        table,
        half_skews(halves),
        windows_sum(table, half_digits(halves, w), w, spec_wnaf_size(w as int) as nat, 0),
        halves.len(),
    )
}

/// The low halves of a list of scalars: each modulo `2^127`.
pub open spec fn low_halves(scalars: Seq<int>) -> Seq<int> {
    Seq::new(scalars.len(), |i: int| scalars[i] % (pow2(127) as int))
}

/// The high halves of a list of scalars: each divided by `2^127`.
pub open spec fn high_halves(scalars: Seq<int>) -> Seq<int> {
    Seq::new(scalars.len(), |i: int| scalars[i] / (pow2(127) as int))
}

/// What the bucket method computes for scalars and points: the point at
/// infinity for none; else the sum for the low halves and, doubled 127
/// times, the sum for the high halves.
pub open spec fn pippenger_sum(scalars: Seq<int>, points: Seq<G1Point>) -> G1Point {
    if scalars.len() == 0 {
        g1_identity()
    } else {
        let w = spec_bucket_width(scalars.len() as int) as nat;
        let table = point_table(points);
        g1_add(
            half_sum(table, low_halves(scalars), w),
            double_times(half_sum(table, high_halves(scalars), w), 127),
        )
    }
}

/// Whether table entry `t` is the one that digit `j` of its point selects.
pub open spec fn hits(digits: Seq<Seq<int>>, j: int, t: int) -> bool {
    t == entry_index(t / 2, digits[t / 2][j])
}

/// How often each table entry is in bucket `b` of window `j` after the first
/// `i` points.
pub open spec fn bucket_coeffs(digits: Seq<Seq<int>>, j: int, b: int, i: int) -> Seq<int> {
    Seq::new(
        2 * digits.len(),
        |t: int|
            if t / 2 < i && hits(digits, j, t) && bucket_index(digits[t / 2][j]) == b {
                1int
            } else {
                0int
            },
    )
}

/// How often each table entry is in the running sum from bucket `b` up.
pub open spec fn running_coeffs(digits: Seq<Seq<int>>, j: int, b: int) -> Seq<int> {
    Seq::new(
        2 * digits.len(),
        |t: int|
            if hits(digits, j, t) && bucket_index(digits[t / 2][j]) >= b {
                1int
            } else {
                0int
            },
    )
}

/// How often each table entry is in the weighted sum above bucket `b`.
pub open spec fn weighted_coeffs(digits: Seq<Seq<int>>, j: int, b: int) -> Seq<int> {
    Seq::new(
        2 * digits.len(),
        |t: int|
            if hits(digits, j, t) && bucket_index(digits[t / 2][j]) > b {
                bucket_index(digits[t / 2][j]) - b
            } else {
                0int
            },
    )
}

/// How often each table entry is in the sum of window `j`: as often as the
/// size of the digit that selects it.
pub open spec fn window_coeffs(digits: Seq<Seq<int>>, j: int) -> Seq<int> {
    Seq::new(
        2 * digits.len(),
        |t: int|
            if hits(digits, j, t) {
                digit_abs(digits[t / 2][j])
            } else {
                0int
            },
    )
}

/// How often one side of a point, the point itself or its inverse, is in
/// the combined windows from `j` up.
pub open spec fn horner_coeff(d: Seq<int>, w: nat, j: int, negative: bool) -> int
    decreases d.len() - j,
{
    if j >= d.len() || j < 0 {
        0
    } else {
        pow2(w) * horner_coeff(d, w, j + 1, negative) + (if (d[j] < 0) == negative {
            digit_abs(d[j])
        } else {
            0int
        })
    }
}

/// How often each table entry is in the combined windows from `j` up.
pub open spec fn horner_coeffs(digits: Seq<Seq<int>>, w: nat, j: int) -> Seq<int> {
    Seq::new(2 * digits.len(), |t: int| horner_coeff(digits[t / 2], w, j, t % 2 == 1))
}

/// How often each table entry is in the sum of all windows after the
/// inverses of the first `i` points were added where their scalars had been
/// recoded as successors.
pub open spec fn skew_coeffs(digits: Seq<Seq<int>>, skews: Seq<bool>, w: nat, i: int) -> Seq<int> {
    Seq::new(
        2 * digits.len(),
        |t: int|
            horner_coeff(digits[t / 2], w, 0, t % 2 == 1) + (if t % 2 == 1 && t / 2 < i
                && skews[t / 2] {
                1int
            } else {
                0int
            }),
    )
}

/// The combined windows hold no table entry a negative number of times.
pub proof fn lemma_horner_coeff_nonneg(d: Seq<int>, w: nat, j: int, negative: bool)
    ensures
        0 <= horner_coeff(d, w, j, negative),
    decreases d.len() - j,
{
    if 0 <= j < d.len() {
        lemma_horner_coeff_nonneg(d, w, j + 1, negative);
        lemma_pow2_pos(w);
        assert(0 <= pow2(w) * horner_coeff(d, w, j + 1, negative)) by (nonlinear_arith)
            requires
                0 <= pow2(w),
                0 <= horner_coeff(d, w, j + 1, negative),
        ;
    }
}

/// A point less its inverse is in the combined windows as often as the
/// digits say.
pub proof fn lemma_horner_coeff_net(d: Seq<int>, w: nat, j: int)
    requires
        0 <= j,
    ensures
        horner_coeff(d, w, j, false) - horner_coeff(d, w, j, true) == wnaf_value(d, w, j as nat),
    decreases d.len() - j,
{
    if j < d.len() {
        lemma_horner_coeff_net(d, w, j + 1);
        let a = horner_coeff(d, w, j + 1, false);
        let b = horner_coeff(d, w, j + 1, true);
        let v = wnaf_value(d, w, (j + 1) as nat);
        assert(pow2(w) * a - pow2(w) * b == pow2(w) * v) by (nonlinear_arith)
            requires
                a - b == v,
        ;
    }
}

/// The integers of the digits of every point.
pub open spec fn digit_matrix(digits: Seq<Vec<i64>>) -> Seq<Seq<int>> {
    Seq::new(digits.len(), |i: int| digit_values(digits[i]@))
}

/// Every point has `m` digits, each odd and of size below `2^w`.
pub open spec fn digits_ok(digits: Seq<Vec<i64>>, w: nat, m: nat) -> bool {
    &&& forall|i: int| 0 <= i < digits.len() ==> (#[trigger] digits[i])@.len() == m
    &&& forall|i: int, j: int|
        0 <= i < digits.len() && 0 <= j < m ==> (#[trigger] digits[i]@[j]) % 2 != 0 && -pow2(w)
            < digits[i]@[j] < pow2(w)
}

/// The group law holds and every point of the table is valid.
pub open spec fn table_premise(table: Seq<G1Point>) -> bool {
    g1_laws() && all_valid(table)
}

/// A point doubled `k` times.
pub fn double_times_exec(p: &G1Affine, k: usize) -> (r: G1Affine)
    requires
        p.wf(),
    ensures
        r.wf(),
        r@ == double_times(p@, k as nat),
{
    let mut acc = *p;
    let mut i: usize = 0;
    while i < k
        invariant
            i <= k,
            acc.wf(),
            acc@ == double_times(p@, i as nat),
        decreases k - i,
    {
        acc = acc.add(&acc);
        i = i + 1;
    }
    acc
}

/// The number of buckets of a window of `w` bits: `2^(w - 1)`.
pub fn bucket_count(w: usize) -> (nb: usize)
    requires
        1 <= w <= 30,
    ensures
        nb == pow2((w - 1) as nat),
        1 <= nb <= 0x2000_0000,
{
    let mut nb: usize = 1;
    let mut i: usize = 1;
    proof {
        lemma2_to64();
    }
    while i < w
        invariant
            1 <= i <= w <= 30,
            nb == pow2((i - 1) as nat),
            1 <= nb <= pow2(29),
            pow2(29) == 0x2000_0000,
        decreases w - i,
    {
        proof {
            lemma_pow2_unfold(i as nat);
            if i < 29 {
                vstd::arithmetic::power2::lemma_pow2_strictly_increases(i as nat, 29);
            }
        }
        nb = nb * 2;
        i = i + 1;
    }
    nb
}

/// The table of a list of points: each point followed by its inverse, so
/// that the sign of a digit picks an entry.
pub fn build_point_table(points: &[G1Affine]) -> (table: Vec<G1Affine>)
    requires
        all_points_wf(points@),
    ensures
        all_points_wf(table@),
        table@.len() == 2 * points@.len(),
        points_view(table@) == point_table(points_view(points@)),
{
    let mut table: Vec<G1Affine> = Vec::new();
    let mut i: usize = 0;
    while i < points.len()
        invariant
            i <= points@.len(),
            all_points_wf(points@),
            all_points_wf(table@),
            table@.len() == 2 * i,
            forall|t: int|
                0 <= t < 2 * i ==> (#[trigger] table@[t])@ == point_table(points_view(points@))[t],
        decreases points@.len() - i,
    {
        let p = points[i];
        let q = p.neg();
        table.push(p);
        table.push(q);
        i = i + 1;
    }
    proof {
        assert(points_view(table@) =~= point_table(points_view(points@)));
    }
    table
}

/// The two halves of a scalar: its canonical integer modulo `2^127` and
/// divided by `2^127`.
pub fn split_scalar(s: &Fr) -> (r: (u128, u128))
    requires
        s.wf(),
    ensures
        r.0 == s@ % (pow2(127) as int),
        r.1 == s@ / (pow2(127) as int),
        r.0 < 0x8000_0000_0000_0000_0000_0000_0000_0000,
        r.1 < 0x8000_0000_0000_0000_0000_0000_0000_0000,
{
    let l0 = s.limbs[0] as u128;
    let l1 = s.limbs[1];
    let l2 = s.limbs[2] as u128;
    let l3 = s.limbs[3] as u128;
    let l1_low = (l1 % 0x8000_0000_0000_0000) as u128;
    let l1_high = (l1 / 0x8000_0000_0000_0000) as u128;
    let lo: u128 = l0 + l1_low * 0x1_0000_0000_0000_0000;
    let hi: u128 = l1_high + l2 * 2 + l3 * 0x2_0000_0000_0000_0000;
    proof {
        lemma2_to64();
        lemma_pow2_adds(64, 63);
        lemma2_to64_rest();
        let p = pow2(127) as int;
        assert(p == 0x8000_0000_0000_0000_0000_0000_0000_0000);
        assert(s@ == hi * p + lo);
        vstd::arithmetic::div_mod::lemma_fundamental_div_mod_converse(s@, p, hi as int, lo as int);
    }
    (lo, hi)
}

/// The sum of window `j`: the table entry that each point's digit selects,
/// taken as often as the size of the digit.
fn window_sum_exec(
    table: &Vec<G1Affine>,
    digits: &Vec<Vec<i64>>,
    j: usize,
    w: usize,
    buckets: &mut Vec<G1Affine>,
) -> (r: G1Affine)
    requires
        all_points_wf(table@),
        table@.len() == 2 * digits@.len(),
        1 <= w <= 30,
        digits_ok(digits@, w as nat, spec_wnaf_size(w as int) as nat),
        j < spec_wnaf_size(w as int),
    ensures
        r.wf(),
        r@ == window_sum(
            buckets_after(
                points_view(table@),
                digit_matrix(digits@),
                j as int,
                pow2((w - 1) as nat),
                digits@.len(),
            ),
        ),
{
    let ghost tv = points_view(table@);
    let ghost dm = digit_matrix(digits@);
    let n = digits.len();
    let total = table.len();
    let nb = bucket_count(w);
    buckets.clear();
    let mut b: usize = 0;
    while b < nb
        invariant
            b <= nb,
            buckets@.len() == b,
            forall|k: int| 0 <= k < b ==> (#[trigger] buckets@[k]).wf() && buckets@[k]@ == g1_identity(),
        decreases nb - b,
    {
        buckets.push(G1Affine::identity());
        b = b + 1;
    }
    proof {
        assert(points_view(buckets@) =~= buckets_after(tv, dm, j as int, nb as nat, 0));
    }
    let mut i: usize = 0;
    while i < n
        invariant
            i <= n,
            n == digits@.len(),
            all_points_wf(table@),
            table@.len() == 2 * n,
            total == 2 * n,
            1 <= w <= 30,
            nb == pow2((w - 1) as nat),
            digits_ok(digits@, w as nat, spec_wnaf_size(w as int) as nat),
            j < spec_wnaf_size(w as int),
            tv == points_view(table@),
            dm == digit_matrix(digits@),
            buckets@.len() == nb,
            all_points_wf(buckets@),
            points_view(buckets@) == buckets_after(tv, dm, j as int, nb as nat, i as nat),
        decreases n - i,
    {
        let d = digits[i][j];
        proof {
            assert(digits@[i as int]@[j as int] % 2 != 0);
            assert(dm[i as int] == digit_values(digits@[i as int]@));
            assert(dm[i as int][j as int] == d);
            lemma_pow2_unfold(w as nat);
        }
        let size: i64 = if d < 0 { -d } else { d };
        let slot: usize = ((size - 1) / 2) as usize;
        let t: usize = if d < 0 { 2 * i + 1 } else { 2 * i };
        let ghost before = buckets@;
        let sum = buckets[slot].add(&table[t]);
        buckets[slot] = sum;
        proof {
            assert(slot == bucket_index(d as int));
            assert(t == entry_index(i as int, d as int));
            assert(tv[t as int] == table@[t as int]@);
            assert(points_view(buckets@) =~= points_view(before).update(
                slot as int,
                g1_add(points_view(before)[slot as int], tv[t as int]),
            ));
        }
        i = i + 1;
    }
    let ghost bv = points_view(buckets@);
    let mut running = G1Affine::identity();
    let mut weighted = G1Affine::identity();
    let mut b: usize = nb;
    while b > 0
        invariant
            b <= nb,
            buckets@.len() == nb,
            all_points_wf(buckets@),
            bv == points_view(buckets@),
            running.wf(),
            weighted.wf(),
            running@ == running_sum(bv, b as int),
            weighted@ == weighted_sum(bv, b as int),
        decreases b,
    {
        let next_weighted = weighted.add(&running);
        let next_running = running.add(&buckets[b - 1]);
        proof {
            assert(bv[b - 1] == buckets@[b - 1]@);
        }
        weighted = next_weighted;
        running = next_running;
        b = b - 1;
    }
    let twice = weighted.add(&weighted);
    twice.add(&running)
}

/// The bucket-method sum over a table for digits and skews: all windows
/// combined, then the inverse of each point added whose scalar was recoded
/// as its successor.
fn half_msm(
    table: &Vec<G1Affine>,
    digits: &Vec<Vec<i64>>,
    skews: &Vec<bool>,
    w: usize,
    buckets: &mut Vec<G1Affine>,
) -> (r: G1Affine)
    requires
        all_points_wf(table@),
        table@.len() == 2 * digits@.len(),
        skews@.len() == digits@.len(),
        1 <= w <= 30,
        digits_ok(digits@, w as nat, spec_wnaf_size(w as int) as nat),
    ensures
        r.wf(),
        r@ == skew_fixed(
            points_view(table@),
            skews@,
            windows_sum(
                points_view(table@),
                digit_matrix(digits@),
                w as nat,
                spec_wnaf_size(w as int) as nat,
                0,
            ),
            digits@.len(),
        ),
{
    let ghost tv = points_view(table@);
    let ghost dm = digit_matrix(digits@);
    let ghost wn = w as nat;
    let n = digits.len();
    let total = table.len();
    let m = wnaf_size(w);
    let mut acc = G1Affine::identity();
    let mut j: usize = m;
    while j > 0
        invariant
            j <= m,
            m == spec_wnaf_size(w as int),
            n == digits@.len(),
            all_points_wf(table@),
            table@.len() == 2 * n,
            1 <= w <= 30,
            wn == w as nat,
            digits_ok(digits@, wn, m as nat),
            tv == points_view(table@),
            dm == digit_matrix(digits@),
            acc.wf(),
            acc@ == windows_sum(tv, dm, wn, m as nat, j as int),
        decreases j,
    {
        let shifted = double_times_exec(&acc, w);
        let window = window_sum_exec(table, digits, j - 1, w, buckets);
        acc = shifted.add(&window);
        j = j - 1;
    }
    let ghost start = acc@;
    let mut i: usize = 0;
    while i < n
        invariant
            i <= n,
            n == digits@.len(),
            skews@.len() == n,
            all_points_wf(table@),
            table@.len() == 2 * n,
            total == 2 * n,
            tv == points_view(table@),
            acc.wf(),
            acc@ == skew_fixed(tv, skews@, start, i as nat),
        decreases n - i,
    {
        if skews[i] {
            proof {
                assert(tv[2 * i + 1] == table@[2 * i + 1]@);
            }
            acc = acc.add(&table[2 * i + 1]);
        }
        i = i + 1;
    }
    acc
}

/// Under the group law, the sums for the two halves combine to the sum of
/// the multiples of the points by the whole scalars.
proof fn lemma_combine_halves(sv: Seq<int>, pv: Seq<G1Point>, w: nat, lo: G1Point, hi: G1Point)
    requires
        g1_laws(),
        all_valid(pv),
        sv.len() == pv.len(),
        all_nonneg(sv),
        w >= 1,
        lo == lc(
            point_table(pv),
            skew_coeffs(
                half_digits(low_halves(sv), w),
                half_skews(low_halves(sv)),
                w,
                sv.len() as int,
            ),
        ),
        hi == lc(
            point_table(pv),
            skew_coeffs(
                half_digits(high_halves(sv), w),
                half_skews(high_halves(sv)),
                w,
                sv.len() as int,
            ),
        ),
    ensures
        g1_add(lo, double_times(hi, 127)) == msm(sv, pv),
{
    let n = sv.len();
    let tv = point_table(pv);
    let big = pow2(127) as int;
    lemma_pow2_pos(127);
    let lows = low_halves(sv);
    let highs = high_halves(sv);
    let c_lo = skew_coeffs(half_digits(lows, w), half_skews(lows), w, n as int);
    let c_hi = skew_coeffs(half_digits(highs, w), half_skews(highs), w, n as int);
    lemma_point_table_valid(pv);
    assert(all_nonneg(c_lo)) by {
        assert forall|t: int| 0 <= t < c_lo.len() implies 0 <= #[trigger] c_lo[t] by {
            lemma_horner_coeff_nonneg(half_digits(lows, w)[t / 2], w, 0, t % 2 == 1);
        }
    }
    assert(all_nonneg(c_hi)) by {
        assert forall|t: int| 0 <= t < c_hi.len() implies 0 <= #[trigger] c_hi[t] by {
            lemma_horner_coeff_nonneg(half_digits(highs, w)[t / 2], w, 0, t % 2 == 1);
        }
    }
    lemma_double_times_lc(tv, c_hi, 127);
    lemma_lc_add(tv, c_lo, vscale(big, c_hi));
    let c = vadd(c_lo, vscale(big, c_hi));
    assert(table_net(c) =~= sv) by {
        assert forall|i: int| 0 <= i < n implies table_net(c)[i] == sv[i] by {
            let dl = half_digits(lows, w)[i];
            let dh = half_digits(highs, w)[i];
            assert((2 * i) / 2 == i && (2 * i + 1) / 2 == i);
            assert((2 * i) % 2 == 0 && (2 * i + 1) % 2 == 1);
            lemma_horner_coeff_net(dl, w, 0);
            lemma_horner_coeff_net(dh, w, 0);
            lemma_wnaf_represents(lows[i], w);
            lemma_wnaf_represents(highs[i], w);
            vstd::arithmetic::div_mod::lemma_fundamental_div_mod(sv[i], big);
            let net_lo = c_lo[2 * i] - c_lo[2 * i + 1];
            let net_hi = c_hi[2 * i] - c_hi[2 * i + 1];
            assert(net_lo == lows[i]);
            assert(net_hi == highs[i]);
            assert(big * c_hi[2 * i] - big * c_hi[2 * i + 1] == big * net_hi) by (nonlinear_arith)
                requires
                    net_hi == c_hi[2 * i] - c_hi[2 * i + 1],
            ;
        }
    }
    lemma_table_collapse(pv, c);
    lemma_msm_is_lc(sv, pv);
}

/// Scratch space of the bucket method, kept between calls to save
/// allocations. A call has it to itself.
pub struct PippengerRuntimeState {
    pub num_points: usize,
    pub buckets: Vec<G1Affine>,
}

impl PippengerRuntimeState {
    /// Scratch space for sums of about `num_points` points.
    pub fn new(num_points: usize) -> (r: PippengerRuntimeState)
        ensures
            r.num_points == num_points,
            r.buckets@.len() == 0,
    {
        PippengerRuntimeState { num_points, buckets: Vec::new() }
    }

    /// The sum of `scalars[i] * points[i]` by the bucket method.
    pub fn pippenger(&mut self, scalars: &[Fr], points: &[G1Affine]) -> (r: Result<G1Affine, Error>)
        requires
            all_wf(scalars@),
            all_points_wf(points@),
        ensures
            r is Err <==> scalars@.len() != points@.len(),
            r matches Err(e) ==> e == Error::InvalidInput,
            r matches Ok(p) ==> p.wf() && p@ == pippenger_sum(
                fr_values(scalars@),
                points_view(points@),
            ),
            r matches Ok(p) ==> (g1_laws() && all_valid(points_view(points@)) ==> p@ == msm(
                fr_values(scalars@),
                points_view(points@),
            )),
            final(self).num_points == old(self).num_points,
    {
        pippenger(scalars, points, self)
    }
}

/// The sum of `scalars[i] * points[i]` by the bucket method. Sequences of
/// different lengths are refused; for none the sum is the point at infinity.
/// Where the points are on the curve and the curve's addition is a group
/// law, the result is what adding up the multiples one by one gives.
pub fn pippenger(scalars: &[Fr], points: &[G1Affine], state: &mut PippengerRuntimeState) -> (r:
    Result<G1Affine, Error>)
    requires
        all_wf(scalars@),
        all_points_wf(points@),
    ensures
        r is Err <==> scalars@.len() != points@.len(),
        r matches Err(e) ==> e == Error::InvalidInput,
        r matches Ok(p) ==> p.wf() && p@ == pippenger_sum(fr_values(scalars@), points_view(points@)),
        r matches Ok(p) ==> (g1_laws() && all_valid(points_view(points@)) ==> p@ == msm(
            fr_values(scalars@),
            points_view(points@),
        )),
        final(state).num_points == old(state).num_points,
{
    let n = scalars.len();
    if n != points.len() {
        return Err(Error::InvalidInput);
    }
    let ghost sv = fr_values(scalars@);
    let ghost pv = points_view(points@);
    if n == 0 {
        proof {
            if g1_laws() {
                assert(msm(sv, pv) == g1_identity());
            }
        }
        return Ok(G1Affine::identity());
    }
    let w = get_optimal_bucket_width(n);
    let ghost wn = w as nat;
    let ghost lows = low_halves(sv);
    let ghost highs = high_halves(sv);
    let table = build_point_table(points);
    let mut lo_digits: Vec<Vec<i64>> = Vec::new();
    let mut hi_digits: Vec<Vec<i64>> = Vec::new();
    let mut lo_skews: Vec<bool> = Vec::new();
    let mut hi_skews: Vec<bool> = Vec::new();
    let mut i: usize = 0;
    while i < n
        invariant
            i <= n,
            n == scalars@.len(),
            all_wf(scalars@),
            1 <= w <= 21,
            wn == w as nat,
            sv == fr_values(scalars@),
            lows == low_halves(sv),
            highs == high_halves(sv),
            lo_digits@.len() == i,
            hi_digits@.len() == i,
            lo_skews@.len() == i,
            hi_skews@.len() == i,
            digits_ok(lo_digits@, wn, spec_wnaf_size(w as int) as nat),
            digits_ok(hi_digits@, wn, spec_wnaf_size(w as int) as nat),
            forall|k: int|
                0 <= k < i ==> digit_values((#[trigger] lo_digits@[k])@) == wnaf_digits(lows[k], wn),
            forall|k: int|
                0 <= k < i ==> digit_values((#[trigger] hi_digits@[k])@) == wnaf_digits(highs[k], wn),
            forall|k: int| 0 <= k < i ==> #[trigger] lo_skews@[k] == wnaf_skew(lows[k]),
            forall|k: int| 0 <= k < i ==> #[trigger] hi_skews@[k] == wnaf_skew(highs[k]),
        decreases n - i,
    {
        let (lo, hi) = split_scalar(&scalars[i]);
        let (dl, sl) = decompose(lo, w);
        let (dh, sh) = decompose(hi, w);
        proof {
            assert(sv[i as int] == scalars@[i as int]@);
        }
        lo_digits.push(dl);
        hi_digits.push(dh);
        lo_skews.push(sl);
        hi_skews.push(sh);
        i = i + 1;
    }
    proof {
        assert(digit_matrix(lo_digits@) =~= half_digits(lows, wn));
        assert(digit_matrix(hi_digits@) =~= half_digits(highs, wn));
        assert(lo_skews@ =~= half_skews(lows));
        assert(hi_skews@ =~= half_skews(highs));
    }
    let lo_sum = half_msm(&table, &lo_digits, &lo_skews, w, &mut state.buckets);
    let hi_sum = half_msm(&table, &hi_digits, &hi_skews, w, &mut state.buckets);
    let hi_shifted = double_times_exec(&hi_sum, 127);
    let r = lo_sum.add(&hi_shifted);
    proof {
        if g1_laws() && all_valid(pv) {
            lemma_pippenger_sum_is_msm(sv, pv);
        }
    }
    Ok(r)
}

/// Every point has as many digits as there are windows, each odd and of
/// size below `2^w`.
pub open spec fn digits_valid(digits: Seq<Seq<int>>, w: nat) -> bool {
    &&& forall|i: int|
        0 <= i < digits.len() ==> (#[trigger] digits[i]).len() == spec_wnaf_size(w as int)
    &&& forall|i: int, j: int|
        0 <= i < digits.len() && 0 <= j < spec_wnaf_size(w as int) ==> (#[trigger] digits[i][j]) % 2
            != 0 && -pow2(w) < digits[i][j] < pow2(w)
}

/// The bucket of a valid digit lies among the buckets of its window, and
/// twice the bucket's number and one is the size of the digit.
proof fn lemma_bucket_of_digit(digits: Seq<Seq<int>>, w: nat, i: int, j: int)
    requires
        w >= 1,
        digits_valid(digits, w),
        0 <= i < digits.len(),
        0 <= j < spec_wnaf_size(w as int),
    ensures
        0 <= bucket_index(digits[i][j]) < pow2((w - 1) as nat),
        2 * bucket_index(digits[i][j]) + 1 == digit_abs(digits[i][j]),
{
    assert(digits[i][j] % 2 != 0);
    lemma_pow2_unfold(w);
}

/// Under the group law, every bucket is the sum of the table entries that
/// went into it.
proof fn lemma_buckets_lc(table: Seq<G1Point>, digits: Seq<Seq<int>>, j: int, w: nat, i: nat, b: int)
    requires
        table_premise(table),
        w >= 1,
        digits_valid(digits, w),
        table.len() == 2 * digits.len(),
        0 <= j < spec_wnaf_size(w as int),
        i <= digits.len(),
        0 <= b < pow2((w - 1) as nat),
    ensures
        buckets_after(table, digits, j, pow2((w - 1) as nat), i).len() == pow2((w - 1) as nat),
        buckets_after(table, digits, j, pow2((w - 1) as nat), i)[b] == lc(
            table,
            bucket_coeffs(digits, j, b, i as int),
        ),
        all_nonneg(bucket_coeffs(digits, j, b, i as int)),
    decreases i,
{
    let nb = pow2((w - 1) as nat);
    let len = table.len();
    if i == 0 {
        lemma_lc_zero(table);
        assert(bucket_coeffs(digits, j, b, 0) =~= vzero(len));
    } else {
        let before = (i - 1) as nat;
        let d = digits[i - 1][j];
        let slot = bucket_index(d);
        let t = entry_index(i - 1, d);
        lemma_bucket_of_digit(digits, w, i - 1, j);
        lemma_buckets_lc(table, digits, j, w, before, b);
        lemma_buckets_lc(table, digits, j, w, before, slot);
        let old_c = bucket_coeffs(digits, j, b, before as int);
        let new_c = bucket_coeffs(digits, j, b, i as int);
        if b == slot {
            lemma_lc_unit(table, t);
            lemma_lc_add(table, old_c, vunit(len, t));
            assert(vadd(old_c, vunit(len, t)) =~= new_c);
        } else {
            assert(new_c =~= old_c);
        }
    }
}

/// Under the group law, the running sum and the weighted sum of the
/// buckets are sums of table entries.
proof fn lemma_running_lc(table: Seq<G1Point>, digits: Seq<Seq<int>>, j: int, w: nat, b: int)
    requires
        table_premise(table),
        w >= 1,
        digits_valid(digits, w),
        table.len() == 2 * digits.len(),
        0 <= j < spec_wnaf_size(w as int),
        0 <= b <= pow2((w - 1) as nat),
    ensures
        running_sum(
            buckets_after(table, digits, j, pow2((w - 1) as nat), digits.len()),
            b,
        ) == lc(table, running_coeffs(digits, j, b)),
        weighted_sum(
            buckets_after(table, digits, j, pow2((w - 1) as nat), digits.len()),
            b,
        ) == lc(table, weighted_coeffs(digits, j, b)),
        all_nonneg(running_coeffs(digits, j, b)),
        all_nonneg(weighted_coeffs(digits, j, b)),
    decreases pow2((w - 1) as nat) - b,
{
    let nb = pow2((w - 1) as nat);
    let len = table.len();
    let n = digits.len();
    let bv = buckets_after(table, digits, j, nb, n);
    lemma_pow2_pos((w - 1) as nat);
    lemma_buckets_lc(table, digits, j, w, n, 0);
    assert forall|t: int| 0 <= t < len implies 0 <= #[trigger] weighted_coeffs(digits, j, b)[t] by {
        lemma_bucket_of_digit(digits, w, t / 2, j);
    }
    if b >= nb {
        lemma_lc_zero(table);
        assert(running_coeffs(digits, j, b) =~= vzero(len)) by {
            assert forall|t: int| 0 <= t < len implies running_coeffs(digits, j, b)[t] == 0 by {
                lemma_bucket_of_digit(digits, w, t / 2, j);
            }
        }
        assert(weighted_coeffs(digits, j, b) =~= vzero(len)) by {
            assert forall|t: int| 0 <= t < len implies weighted_coeffs(digits, j, b)[t] == 0 by {
                lemma_bucket_of_digit(digits, w, t / 2, j);
            }
        }
    } else {
        lemma_running_lc(table, digits, j, w, b + 1);
        lemma_buckets_lc(table, digits, j, w, n, b);
        let rc = running_coeffs(digits, j, b + 1);
        let wc = weighted_coeffs(digits, j, b + 1);
        let bc = bucket_coeffs(digits, j, b, n as int);
        lemma_lc_add(table, wc, rc);
        lemma_lc_add(table, rc, bc);
        assert(vadd(wc, rc) =~= weighted_coeffs(digits, j, b));
        assert(vadd(rc, bc) =~= running_coeffs(digits, j, b));
    }
}

/// Under the group law, the sum of a window is the sum of the table entries
/// that its digits select, each taken as often as the size of its digit.
proof fn lemma_window_lc(table: Seq<G1Point>, digits: Seq<Seq<int>>, j: int, w: nat)
    requires
        table_premise(table),
        w >= 1,
        digits_valid(digits, w),
        table.len() == 2 * digits.len(),
        0 <= j < spec_wnaf_size(w as int),
    ensures
        window_sum(buckets_after(table, digits, j, pow2((w - 1) as nat), digits.len())) == lc(
            table,
            window_coeffs(digits, j),
        ),
        all_nonneg(window_coeffs(digits, j)),
{
    let len = table.len();
    lemma_running_lc(table, digits, j, w, 0);
    let rc = running_coeffs(digits, j, 0);
    let wc = weighted_coeffs(digits, j, 0);
    lemma_lc_add(table, wc, wc);
    lemma_lc_add(table, vadd(wc, wc), rc);
    assert(vadd(vadd(wc, wc), rc) =~= window_coeffs(digits, j)) by {
        assert forall|t: int| 0 <= t < len implies vadd(vadd(wc, wc), rc)[t] == window_coeffs(
            digits,
            j,
        )[t] by {
            lemma_bucket_of_digit(digits, w, t / 2, j);
        }
    }
}

/// Under the group law, the combined windows are a sum of table entries.
proof fn lemma_windows_lc(table: Seq<G1Point>, digits: Seq<Seq<int>>, w: nat, j: int)
    requires
        table_premise(table),
        w >= 1,
        digits_valid(digits, w),
        table.len() == 2 * digits.len(),
        0 <= j <= spec_wnaf_size(w as int),
    ensures
        windows_sum(table, digits, w, spec_wnaf_size(w as int) as nat, j) == lc(
            table,
            horner_coeffs(digits, w, j),
        ),
        all_nonneg(horner_coeffs(digits, w, j)),
    decreases spec_wnaf_size(w as int) - j,
{
    let m = spec_wnaf_size(w as int);
    let len = table.len();
    let hc = horner_coeffs(digits, w, j);
    assert(all_nonneg(hc)) by {
        assert forall|t: int| 0 <= t < len implies 0 <= #[trigger] hc[t] by {
            lemma_horner_coeff_nonneg(digits[t / 2], w, j, t % 2 == 1);
        }
    }
    if j >= m {
        lemma_lc_zero(table);
        assert(hc =~= vzero(len)) by {
            assert forall|t: int| 0 <= t < len implies hc[t] == 0 by {
                assert(digits[t / 2].len() == m);
            }
        }
    } else {
        lemma_windows_lc(table, digits, w, j + 1);
        lemma_window_lc(table, digits, j, w);
        let above = horner_coeffs(digits, w, j + 1);
        let wc = window_coeffs(digits, j);
        lemma_double_times_lc(table, above, w);
        lemma_lc_add(table, vscale(pow2(w) as int, above), wc);
        assert(vadd(vscale(pow2(w) as int, above), wc) =~= hc) by {
            assert forall|t: int| 0 <= t < len implies vadd(vscale(pow2(w) as int, above), wc)[t]
                == hc[t] by {
                assert(digits[t / 2].len() == m);
            }
        }
    }
}

/// Under the group law, the combined windows with the inverses added for
/// the scalars that were recoded as successors are a sum of table entries.
proof fn lemma_skew_lc(
    table: Seq<G1Point>,
    digits: Seq<Seq<int>>,
    skews: Seq<bool>,
    w: nat,
    i: nat,
)
    requires
        table_premise(table),
        w >= 1,
        digits_valid(digits, w),
        table.len() == 2 * digits.len(),
        skews.len() == digits.len(),
        i <= digits.len(),
    ensures
        skew_fixed(
            table,
            skews,
            windows_sum(table, digits, w, spec_wnaf_size(w as int) as nat, 0),
            i,
        ) == lc(table, skew_coeffs(digits, skews, w, i as int)),
        all_nonneg(skew_coeffs(digits, skews, w, i as int)),
    decreases i,
{
    let len = table.len();
    let sc = skew_coeffs(digits, skews, w, i as int);
    lemma_wnaf_size_bounds(w as int);
    assert(all_nonneg(sc)) by {
        assert forall|t: int| 0 <= t < len implies 0 <= #[trigger] sc[t] by {
            lemma_horner_coeff_nonneg(digits[t / 2], w, 0, t % 2 == 1);
        }
    }
    if i == 0 {
        lemma_windows_lc(table, digits, w, 0);
        assert(horner_coeffs(digits, w, 0) =~= sc);
    } else {
        lemma_skew_lc(table, digits, skews, w, (i - 1) as nat);
        let before = skew_coeffs(digits, skews, w, i - 1);
        if skews[i - 1] {
            lemma_lc_unit(table, 2 * (i - 1) + 1);
            lemma_lc_add(table, before, vunit(len, 2 * (i - 1) + 1));
            assert(vadd(before, vunit(len, 2 * (i - 1) + 1)) =~= sc);
        } else {
            assert(before =~= sc);
        }
    }
}

/// The digits of half-length scalars are valid.
proof fn lemma_half_digits_valid(halves: Seq<int>, w: nat)
    requires
        w >= 1,
        forall|i: int| 0 <= i < halves.len() ==> 0 <= #[trigger] halves[i] < pow2(127),
    ensures
        digits_valid(half_digits(halves, w), w),
{
    let digits = half_digits(halves, w);
    lemma_wnaf_size_bounds(w as int);
    assert forall|i: int| 0 <= i < digits.len() implies (#[trigger] digits[i]).len()
        == spec_wnaf_size(w as int) by {
        lemma_wnaf_digits_valid(halves[i], w, 0);
    }
    assert forall|i: int, j: int|
        0 <= i < digits.len() && 0 <= j < spec_wnaf_size(w as int) implies (
    #[trigger] digits[i][j]) % 2 != 0 && -pow2(w) < digits[i][j] < pow2(w) by {
        lemma_wnaf_digits_valid(halves[i], w, j);
    }
}

/// Where the points are on the curve and the curve's addition is a group
/// law, the bucket method gives the sum of the multiples of the points by
/// the scalars, added up one by one.
pub proof fn lemma_pippenger_sum_is_msm(scalars: Seq<int>, points: Seq<G1Point>)
    requires
        g1_laws(),
        all_valid(points),
        scalars.len() == points.len(),
        forall|i: int| 0 <= i < scalars.len() ==> 0 <= #[trigger] scalars[i] < fr_modulus(),
    ensures
        pippenger_sum(scalars, points) == msm(scalars, points),
{
    let n = scalars.len();
    if n > 0 {
        let w = spec_bucket_width(n as int) as nat;
        let table = point_table(points);
        let lows = low_halves(scalars);
        let highs = high_halves(scalars);
        let big = pow2(127) as int;
        lemma2_to64();
        lemma_pow2_adds(64, 63);
        lemma2_to64_rest();
        assert(big == 0x8000_0000_0000_0000_0000_0000_0000_0000);
        assert forall|i: int| 0 <= i < n implies 0 <= #[trigger] lows[i] < pow2(127) && 0
            <= highs[i] < pow2(127) by {
            vstd::arithmetic::div_mod::lemma_mod_bound(scalars[i], big);
            vstd::arithmetic::div_mod::lemma_multiply_divide_lt(scalars[i], big, big);
            vstd::arithmetic::div_mod::lemma_div_pos_is_pos(scalars[i], big);
        }
        lemma_point_table_valid(points);
        lemma_half_digits_valid(lows, w);
        lemma_half_digits_valid(highs, w);
        lemma_skew_lc(table, half_digits(lows, w), half_skews(lows), w, n);
        lemma_skew_lc(table, half_digits(highs, w), half_skews(highs), w, n);
        lemma_combine_halves(
            scalars,
            points,
            w,
            half_sum(table, lows, w),
            half_sum(table, highs, w),
        );
    }
}

} // verus!
