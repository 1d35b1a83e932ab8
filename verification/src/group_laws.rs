//! What follows from the group law of the curve: sums of multiples of a
//! fixed list of points add up coefficient by coefficient.
//!
//! The sum and the multiple of points are results of the `ark_ec` crate that
//! this library names and does not define. That they form a commutative
//! group on the points of the curve is stated here as the predicate
//! `g1_laws`; every lemma of this file takes it as a premise.

use crate::field::{fq_modulus, neg_mod};
use crate::group::{g1_add, g1_identity, g1_mul, g1_neg, G1Point};
use crate::modular::{lemma_eqm_mod, lemma_eqm_mul};
use vstd::prelude::*;

verus! {

/// A point with canonical coordinates that meets the curve equation.
pub open spec fn g1_valid(p: G1Point) -> bool {
    p.wf() && p.on_curve()
}

/// Every point of the sequence is a valid point of the curve.
pub open spec fn all_valid(q: Seq<G1Point>) -> bool {
    forall|i: int| 0 <= i < q.len() ==> g1_valid(#[trigger] q[i])
}

/// The points of the curve form a commutative group under `g1_add`, with
/// the point at infinity as identity and `g1_neg` as inverse, and `g1_mul`
/// is repeated addition.
#[verifier::opaque]
pub open spec fn g1_laws() -> bool {
    &&& forall|a: G1Point, b: G1Point|
        g1_valid(a) && g1_valid(b) ==> g1_valid(#[trigger] g1_add(a, b))
    &&& forall|a: G1Point, b: G1Point|
        g1_valid(a) && g1_valid(b) ==> #[trigger] g1_add(a, b) == g1_add(b, a)
    &&& forall|a: G1Point, b: G1Point, c: G1Point|
        g1_valid(a) && g1_valid(b) && g1_valid(c) ==> #[trigger] g1_add(g1_add(a, b), c) == g1_add(
            a,
            g1_add(b, c),
        )
    &&& forall|a: G1Point| g1_valid(a) ==> #[trigger] g1_add(a, g1_identity()) == a
    &&& forall|a: G1Point| g1_valid(a) ==> g1_add(a, #[trigger] g1_neg(a)) == g1_identity()
    &&& forall|a: G1Point| g1_valid(a) ==> #[trigger] g1_mul(0, a) == g1_identity()
    &&& forall|s: int, a: G1Point|
        g1_valid(a) && s >= 0 ==> #[trigger] g1_mul(s + 1, a) == g1_add(g1_mul(s, a), a)
}

/// The sum of two valid points is a valid point.
pub proof fn lemma_add_valid(a: G1Point, b: G1Point)
    requires
        g1_laws(),
        g1_valid(a),
        g1_valid(b),
    ensures
        g1_valid(g1_add(a, b)),
{
    reveal(g1_laws);
}

/// Addition is commutative.
pub proof fn lemma_add_comm(a: G1Point, b: G1Point)
    requires
        g1_laws(),
        g1_valid(a),
        g1_valid(b),
    ensures
        g1_add(a, b) == g1_add(b, a),
{
    reveal(g1_laws);
}

/// Addition is associative.
pub proof fn lemma_add_assoc(a: G1Point, b: G1Point, c: G1Point)
    requires
        g1_laws(),
        g1_valid(a),
        g1_valid(b),
        g1_valid(c),
    ensures
        g1_add(g1_add(a, b), c) == g1_add(a, g1_add(b, c)),
{
    reveal(g1_laws);
}

/// The point at infinity is a valid point, and adding it changes nothing.
pub proof fn lemma_add_identity(a: G1Point)
    requires
        g1_laws(),
        g1_valid(a),
    ensures
        g1_valid(g1_identity()),
        g1_add(a, g1_identity()) == a,
        g1_add(g1_identity(), a) == a,
{
    reveal(g1_laws);
    lemma_add_comm(a, g1_identity());
}

/// The inverse of a valid point is a valid point, and their sum is the
/// point at infinity.
pub proof fn lemma_add_neg(a: G1Point)
    requires
        g1_laws(),
        g1_valid(a),
    ensures
        g1_valid(g1_neg(a)),
        g1_add(a, g1_neg(a)) == g1_identity(),
{
    reveal(g1_laws);
    let q = fq_modulus();
    let ny = neg_mod(a.y, q);
    lemma_eqm_mod(-a.y, q);
    lemma_eqm_mul(ny, -a.y, ny, -a.y, q);
    assert((-a.y) * (-a.y) == a.y * a.y) by (nonlinear_arith);
    if a.infinity {
        assert(neg_mod(0, q) == 0);
    }
}

/// Two sums of two points each add up pairwise:
/// `(a + b) + (c + d) == (a + c) + (b + d)`.
pub proof fn lemma_add_swap(a: G1Point, b: G1Point, c: G1Point, d: G1Point)
    requires
        g1_laws(),
        g1_valid(a),
        g1_valid(b),
        g1_valid(c),
        g1_valid(d),
    ensures
        g1_add(g1_add(a, b), g1_add(c, d)) == g1_add(g1_add(a, c), g1_add(b, d)),
{
    lemma_add_valid(a, b);
    lemma_add_valid(c, d);
    lemma_add_valid(a, c);
    lemma_add_valid(b, d);
    lemma_add_valid(b, c);
    lemma_add_valid(c, b);
    // (a + b) + (c + d) == a + (b + (c + d)) == a + ((b + c) + d)
    lemma_add_assoc(a, b, g1_add(c, d));
    lemma_add_assoc(b, c, d);
    // == a + ((c + b) + d) == a + (c + (b + d)) == (a + c) + (b + d)
    lemma_add_comm(b, c);
    lemma_add_assoc(c, b, d);
    lemma_add_assoc(a, c, g1_add(b, d));
}

/// The multiple of a point by a non-negative integer, by repeated addition.
pub open spec fn smul(k: int, p: G1Point) -> G1Point
    decreases k,
{
    if k <= 0 {
        g1_identity()
    } else {
        g1_add(smul(k - 1, p), p)
    }
}

/// A multiple of a valid point is a valid point.
pub proof fn lemma_smul_valid(k: int, p: G1Point)
    requires
        g1_laws(),
        g1_valid(p),
    ensures
        g1_valid(smul(k, p)),
    decreases k,
{
    lemma_add_identity(p);
    if k > 0 {
        lemma_smul_valid(k - 1, p);
        lemma_add_valid(smul(k - 1, p), p);
    }
}

/// Multiples add up: `a * p + b * p == (a + b) * p`.
pub proof fn lemma_smul_add(a: int, b: int, p: G1Point)
    requires
        g1_laws(),
        g1_valid(p),
        a >= 0,
        b >= 0,
    ensures
        g1_add(smul(a, p), smul(b, p)) == smul(a + b, p),
    decreases b,
{
    lemma_smul_valid(a, p);
    if b == 0 {
        lemma_add_identity(smul(a, p));
    } else {
        lemma_smul_valid(b - 1, p);
        lemma_smul_add(a, b - 1, p);
        lemma_add_assoc(smul(a, p), smul(b - 1, p), p);
    }
}

/// Multiples of a point and of its inverse cancel:
/// `a * p + b * (-p) == (a - b) * p` where `b <= a`.
pub proof fn lemma_smul_cancel(a: int, b: int, p: G1Point)
    requires
        g1_laws(),
        g1_valid(p),
        0 <= b <= a,
    ensures
        g1_add(smul(a, p), smul(b, g1_neg(p))) == smul(a - b, p),
    decreases b,
{
    lemma_smul_valid(a, p);
    lemma_add_neg(p);
    if b == 0 {
        lemma_add_identity(smul(a, p));
    } else {
        let n = g1_neg(p);
        lemma_smul_valid(b - 1, n);
        lemma_smul_valid(a - b, p);
        lemma_smul_cancel(a, b - 1, p);
        // a*p + ((b-1)*n + n) == (a*p + (b-1)*n) + n == ((a-b)*p + p) + n
        lemma_add_assoc(smul(a, p), smul(b - 1, n), n);
        // == (a-b)*p + (p + n) == (a-b)*p
        lemma_add_assoc(smul(a - b, p), p, n);
        lemma_add_identity(smul(a - b, p));
    }
}

/// `g1_mul` by a non-negative integer is repeated addition.
pub proof fn lemma_mul_is_smul(k: int, p: G1Point)
    requires
        g1_laws(),
        g1_valid(p),
        k >= 0,
    ensures
        g1_mul(k, p) == smul(k, p),
    decreases k,
{
    reveal(g1_laws);
    if k > 0 {
        lemma_mul_is_smul(k - 1, p);
        assert(g1_mul((k - 1) + 1, p) == g1_add(g1_mul(k - 1, p), p));
    }
}

/// The group of the points has the order of the scalar field, a prime: of
/// a point other than the point at infinity, no multiple by a number
/// between zero and that order is the point at infinity. Like `g1_laws`
/// this is a premise of what follows from it, stated of the curve and
/// nowhere taken on trust.
#[verifier::opaque]
pub open spec fn g1_prime_order() -> bool {
    forall|s: int, a: G1Point|
        g1_valid(a) && a != g1_identity() && 0 < s < crate::field::fr_modulus()
            ==> #[trigger] g1_mul(s, a) != g1_identity()
}

/// In a group of prime order, different canonical scalars give different
/// multiples of a point other than the point at infinity.
pub proof fn lemma_distinct_multiples(c1: int, c2: int, p: G1Point)
    requires
        g1_laws(),
        g1_prime_order(),
        g1_valid(p),
        p != g1_identity(),
        0 <= c1 < crate::field::fr_modulus(),
        0 <= c2 < crate::field::fr_modulus(),
        c1 != c2,
    ensures
        g1_mul(c1, p) != g1_mul(c2, p),
{
    let low = if c1 < c2 {
        c1
    } else {
        c2
    };
    let high = if c1 < c2 {
        c2
    } else {
        c1
    };
    let d = high - low;
    let a = smul(low, p);
    let b = smul(d, p);
    lemma_mul_is_smul(c1, p);
    lemma_mul_is_smul(c2, p);
    lemma_mul_is_smul(d, p);
    lemma_smul_valid(low, p);
    lemma_smul_valid(d, p);
    lemma_smul_add(low, d, p);
    if smul(low, p) == smul(high, p) {
        // a == a + b, so b == (-a + a) + b == -a + (a + b) == -a + a
        let n = g1_neg(a);
        lemma_add_neg(a);
        lemma_add_comm(a, n);
        lemma_add_assoc(n, a, b);
        lemma_add_identity(b);
        assert(b == g1_identity());
        reveal(g1_prime_order);
        assert(g1_mul(d, p) != g1_identity());
    }
}

/// The sum of `c[t] * q[t]` over the points of `q`, added up from the first
/// to the last.
pub open spec fn lc(q: Seq<G1Point>, c: Seq<int>) -> G1Point
    recommends
        q.len() == c.len(),
    decreases q.len(),
{
    if q.len() == 0 {
        g1_identity()
    } else {
        g1_add(lc(q.drop_last(), c.drop_last()), smul(c.last(), q.last()))
    }
}

/// Every coefficient is non-negative.
pub open spec fn all_nonneg(c: Seq<int>) -> bool {
    forall|i: int| 0 <= i < c.len() ==> 0 <= #[trigger] c[i]
}

/// The sum of two coefficient lists, entry by entry.
pub open spec fn vadd(a: Seq<int>, b: Seq<int>) -> Seq<int> {
    Seq::new(a.len(), |t: int| a[t] + b[t])
}

/// The coefficient list of `len` zeros.
pub open spec fn vzero(len: nat) -> Seq<int> {
    Seq::new(len, |t: int| 0int)
}

/// The coefficient list with a one at `t` and zeros elsewhere.
pub open spec fn vunit(len: nat, t: int) -> Seq<int> {
    Seq::new(len, |s: int| if s == t { 1int } else { 0int })
}

/// A sum of multiples of valid points is a valid point.
pub proof fn lemma_lc_valid(q: Seq<G1Point>, c: Seq<int>)
    requires
        g1_laws(),
        all_valid(q),
        q.len() == c.len(),
    ensures
        g1_valid(lc(q, c)),
    decreases q.len(),
{
    if q.len() == 0 {
        reveal(g1_laws);
        assert(g1_valid(g1_identity())) by {
            assert(g1_identity().wf());
        }
    } else {
        lemma_lc_valid(q.drop_last(), c.drop_last());
        lemma_smul_valid(c.last(), q.last());
        lemma_add_valid(lc(q.drop_last(), c.drop_last()), smul(c.last(), q.last()));
    }
}

/// With all coefficients zero the sum is the point at infinity.
pub proof fn lemma_lc_zero(q: Seq<G1Point>)
    requires
        g1_laws(),
        all_valid(q),
    ensures
        lc(q, vzero(q.len())) == g1_identity(),
    decreases q.len(),
{
    if q.len() > 0 {
        lemma_lc_zero(q.drop_last());
        assert(vzero(q.len()).drop_last() =~= vzero(q.drop_last().len()));
        assert(g1_valid(g1_identity())) by {
            assert(g1_identity().wf());
        }
        lemma_add_identity(g1_identity());
    }
}

/// With a single coefficient one the sum is the point beside it.
pub proof fn lemma_lc_unit(q: Seq<G1Point>, t: int)
    requires
        g1_laws(),
        all_valid(q),
        0 <= t < q.len(),
    ensures
        lc(q, vunit(q.len(), t)) == q[t],
    decreases q.len(),
{
    let n = q.len();
    let c = vunit(n, t);
    let m = (n - 1) as nat;
    assert(g1_valid(q[t]));
    lemma_add_identity(q[t]);
    if t == n - 1 {
        assert(c.drop_last() =~= vzero(m));
        lemma_lc_zero(q.drop_last());
        assert(smul(1, q[t]) == g1_add(smul(0, q[t]), q[t]));
    } else {
        assert(c.drop_last() =~= vunit(m, t));
        lemma_lc_unit(q.drop_last(), t);
        assert(smul(0, q.last()) == g1_identity());
    }
}

/// Sums of multiples add up coefficient by coefficient.
pub proof fn lemma_lc_add(q: Seq<G1Point>, a: Seq<int>, b: Seq<int>)
    requires
        g1_laws(),
        all_valid(q),
        a.len() == q.len(),
        b.len() == q.len(),
        all_nonneg(a),
        all_nonneg(b),
    ensures
        g1_add(lc(q, a), lc(q, b)) == lc(q, vadd(a, b)),
        all_nonneg(vadd(a, b)),
    decreases q.len(),
{
    if q.len() == 0 {
        assert(g1_valid(g1_identity())) by {
            assert(g1_identity().wf());
        }
        lemma_add_identity(g1_identity());
    } else {
        let q0 = q.drop_last();
        let a0 = a.drop_last();
        let b0 = b.drop_last();
        let p = q.last();
        lemma_lc_add(q0, a0, b0);
        assert(vadd(a, b).drop_last() =~= vadd(a0, b0));
        lemma_lc_valid(q0, a0);
        lemma_lc_valid(q0, b0);
        lemma_smul_valid(a.last(), p);
        lemma_smul_valid(b.last(), p);
        lemma_add_swap(lc(q0, a0), smul(a.last(), p), lc(q0, b0), smul(b.last(), p));
        lemma_smul_add(a.last(), b.last(), p);
    }
}

/// A coefficient list with every entry multiplied by `k`.
pub open spec fn vscale(k: int, c: Seq<int>) -> Seq<int> {
    Seq::new(c.len(), |t: int| k * c[t])
}

/// A point added to itself `k` times over: its multiple by `2^k`.
pub open spec fn double_times(p: G1Point, k: nat) -> G1Point
    decreases k,
{
    if k == 0 {
        p
    } else {
        let q = double_times(p, (k - 1) as nat);
        g1_add(q, q)
    }
}

/// Doubling a sum of multiples `k` times multiplies every coefficient by
/// `2^k`.
pub proof fn lemma_double_times_lc(q: Seq<G1Point>, c: Seq<int>, k: nat)
    requires
        g1_laws(),
        all_valid(q),
        c.len() == q.len(),
        all_nonneg(c),
    ensures
        double_times(lc(q, c), k) == lc(q, vscale(vstd::arithmetic::power2::pow2(k) as int, c)),
        all_nonneg(vscale(vstd::arithmetic::power2::pow2(k) as int, c)),
    decreases k,
{
    let f = vstd::arithmetic::power2::pow2(k) as int;
    vstd::arithmetic::power2::lemma_pow2_pos(k);
    assert(all_nonneg(vscale(f, c))) by {
        assert forall|t: int| 0 <= t < c.len() implies 0 <= #[trigger] vscale(f, c)[t] by {
            assert(0 <= f * c[t]) by (nonlinear_arith)
                requires
                    0 <= f,
                    0 <= c[t],
            ;
        }
    }
    if k == 0 {
        vstd::arithmetic::power2::lemma2_to64();
        assert(vscale(1, c) =~= c) by {
            assert forall|t: int| 0 <= t < c.len() implies vscale(1, c)[t] == c[t] by {
                assert(1 * c[t] == c[t]);
            }
        }
    } else {
        let h = vstd::arithmetic::power2::pow2((k - 1) as nat) as int;
        lemma_double_times_lc(q, c, (k - 1) as nat);
        vstd::arithmetic::power2::lemma_pow2_unfold(k);
        lemma_lc_add(q, vscale(h, c), vscale(h, c));
        assert(vadd(vscale(h, c), vscale(h, c)) =~= vscale(f, c)) by {
            assert forall|t: int| 0 <= t < c.len() implies vadd(vscale(h, c), vscale(h, c))[t]
                == vscale(f, c)[t] by {
                assert(h * c[t] + h * c[t] == (2 * h) * c[t]) by (nonlinear_arith);
            }
        }
    }
}

/// The table of a list of points: each point followed by its inverse.
pub open spec fn point_table(points: Seq<G1Point>) -> Seq<G1Point> {
    Seq::new(
        2 * points.len(),
        |t: int|
            if t % 2 == 0 {
                points[t / 2]
            } else {
                g1_neg(points[t / 2])
            },
    )
}

/// The table of valid points holds valid points.
pub proof fn lemma_point_table_valid(points: Seq<G1Point>)
    requires
        g1_laws(),
        all_valid(points),
    ensures
        all_valid(point_table(points)),
{
    assert forall|t: int| 0 <= t < point_table(points).len() implies g1_valid(
        #[trigger] point_table(points)[t],
    ) by {
        assert(g1_valid(points[t / 2]));
        lemma_add_neg(points[t / 2]);
    }
}

/// What a coefficient list over a table comes to for each point: the
/// coefficient of the point less that of its inverse.
pub open spec fn table_net(c: Seq<int>) -> Seq<int> {
    Seq::new((c.len() / 2) as nat, |i: int| c[2 * i] - c[2 * i + 1])
}

/// A sum of multiples over a table is the sum over the points with the net
/// coefficients, where none of those is negative.
pub proof fn lemma_table_collapse(points: Seq<G1Point>, c: Seq<int>)
    requires
        g1_laws(),
        all_valid(points),
        c.len() == 2 * points.len(),
        all_nonneg(c),
        all_nonneg(table_net(c)),
    ensures
        lc(point_table(points), c) == lc(points, table_net(c)),
    decreases points.len(),
{
    let n = points.len();
    let table = point_table(points);
    if n > 0 {
        let p0 = points.drop_last();
        let p = points.last();
        let c0 = c.subrange(0, 2 * n - 2);
        let a = c[2 * n - 2];
        let b = c[2 * n - 1];
        assert(table_net(c)[n - 1] == a - b);
        assert(table_net(c0) =~= table_net(c).drop_last());
        assert(all_nonneg(table_net(c0))) by {
            assert forall|i: int| 0 <= i < table_net(c0).len() implies 0 <= #[trigger] table_net(
                c0,
            )[i] by {
                assert(table_net(c0)[i] == table_net(c)[i]);
            }
        }
        lemma_table_collapse(p0, c0);
        // unfold the sum over the table twice
        let t1 = table.drop_last();
        let c1 = c.drop_last();
        assert(t1.drop_last() =~= point_table(p0));
        assert(c1.drop_last() =~= c0);
        assert(table.last() == g1_neg(p));
        assert(t1.last() == p);
        assert(c1.last() == a);
        let base = lc(point_table(p0), c0);
        assert(c.last() == b);
        assert(lc(t1, c1) == g1_add(lc(t1.drop_last(), c1.drop_last()), smul(a, p)));
        assert(lc(table, c) == g1_add(lc(t1, c1), smul(b, g1_neg(p))));
        lemma_point_table_valid(p0);
        lemma_lc_valid(point_table(p0), c0);
        assert(g1_valid(p));
        lemma_add_neg(p);
        lemma_smul_valid(a, p);
        lemma_smul_valid(b, g1_neg(p));
        lemma_add_assoc(base, smul(a, p), smul(b, g1_neg(p)));
        lemma_smul_cancel(a, b, p);
    } else {
        assert(table =~= Seq::<G1Point>::empty());
    }
}

} // verus!
