//! Convex combinations of the vertices of a shape, with as many weights as
//! there are vertices, and the point that two shapes have in common.

use vstd::prelude::*;
use crate::vector::Vec2;
use crate::algebra::lemma_dot_scaled;
use crate::search::lemma_origin_decided;
use crate::shape::{
    common_mean, difference, lemma_overlapping_difference, lemma_separated_difference,
    lemma_separated_symmetric, overlapping, separated, separates,
};
use crate::support::{furthest_index, lemma_furthest_index};

verus! {

/// `w` gives every point of the list a weight, none of them negative.
pub open spec fn weights_of(points: Seq<Vec2>, w: Seq<int>) -> bool {
    &&& w.len() == points.len()
    &&& forall|i: int| 0 <= i < w.len() ==> #[trigger] w[i] >= 0
}

/// The sum of the first `n` weights.
pub open spec fn total(w: Seq<int>, n: nat) -> int
    decreases n,
{
    if n == 0 {
        0
    } else {
        total(w, (n - 1) as nat) + w[n - 1]
    }
}

/// The sum of the first `n` points, each taken as often as its weight says.
pub open spec fn weighted_sum(points: Seq<Vec2>, w: Seq<int>, n: nat) -> Vec2
    decreases n,
{
    if n == 0 {
        Vec2::zero()
    } else {
        let rest = weighted_sum(points, w, (n - 1) as nat);
        Vec2 { x: rest.x + w[n - 1] * points[n - 1].x, y: rest.y + w[n - 1] * points[n - 1].y }
    }
}

/// The weights `wa` on the vertices of `a` and `wb` on those of `b` have the
/// same positive total and give the same weighted sum: divided by the total,
/// it is a point of the convex hull of `a` and of the convex hull of `b`.
pub open spec fn common_point(a: Seq<Vec2>, wa: Seq<int>, b: Seq<Vec2>, wb: Seq<int>) -> bool {
    &&& weights_of(a, wa)
    &&& weights_of(b, wb)
    &&& total(wa, wa.len()) == total(wb, wb.len())
    &&& total(wa, wa.len()) > 0
    &&& weighted_sum(a, wa, a.len()) == weighted_sum(b, wb, b.len())
}

/// The convex hulls of the two vertex lists have a point in common.
pub open spec fn hulls_meet(a: Seq<Vec2>, b: Seq<Vec2>) -> bool {
    exists|wa: Seq<int>, wb: Seq<int>| common_point(a, wa, b, wb)
}

/// The sum of the scalar products of `d` with the first `n` points, each
/// taken as often as its weight says.
pub open spec fn weighted_value(points: Seq<Vec2>, w: Seq<int>, d: Vec2, n: nat) -> int
    decreases n,
{
    if n == 0 {
        0
    } else {
        weighted_value(points, w, d, (n - 1) as nat) + w[n - 1] * d.dot(points[n - 1])
    }
}

proof fn lemma_mul_sum2(f: int, a: int, b: int)
    by (nonlinear_arith)
    ensures
        f * (a + b) == f * a + f * b,
        (a + b) * f == a * f + b * f,
{
}

proof fn lemma_mul_ordered(w: int, v: int, bound: int)
    by (nonlinear_arith)
    requires
        w >= 0,
    ensures
        v <= bound ==> w * v <= w * bound,
        v >= bound ==> w * v >= w * bound,
{
}

/// The scalar product with a weighted sum is the weighted sum of the scalar
/// products.
pub proof fn lemma_value_of_sum(points: Seq<Vec2>, w: Seq<int>, d: Vec2, n: nat)
    ensures
        d.dot(weighted_sum(points, w, n)) == weighted_value(points, w, d, n),
    decreases n,
{
    if n == 0 {
        assert(d.x * 0 + d.y * 0 == 0);
    } else {
        let rest = weighted_sum(points, w, (n - 1) as nat);
        let p = points[n - 1];
        let k = w[n - 1];
        lemma_value_of_sum(points, w, d, (n - 1) as nat);
        lemma_dot_scaled(d, k, p);
        lemma_mul_sum2(d.x, rest.x, k * p.x);
        lemma_mul_sum2(d.y, rest.y, k * p.y);
    }
}

/// A weighted sum of values lies on the same side of `bound` times the total
/// weight as every value lies of `bound`.
proof fn lemma_value_bounded(points: Seq<Vec2>, w: Seq<int>, d: Vec2, bound: int, n: nat)
    requires
        n <= points.len(),
        weights_of(points, w),
    ensures
        (forall|i: int| 0 <= i < n ==> d.dot(#[trigger] points[i]) <= bound) ==> weighted_value(
            points,
            w,
            d,
            n,
        ) <= total(w, n) * bound,
        (forall|i: int| 0 <= i < n ==> d.dot(#[trigger] points[i]) >= bound) ==> weighted_value(
            points,
            w,
            d,
            n,
        ) >= total(w, n) * bound,
    decreases n,
{
    if n == 0 {
        assert(0 * bound == 0);
    } else {
        lemma_value_bounded(points, w, d, bound, (n - 1) as nat);
        let k = w[n - 1];
        assert(k >= 0);
        lemma_mul_ordered(k, d.dot(points[n - 1]), bound);
        lemma_mul_sum2(bound, total(w, (n - 1) as nat), k);
    }
}

/// No line passes between two shapes with a common point.
pub proof fn lemma_common_point_not_separated(
    a: Seq<Vec2>,
    wa: Seq<int>,
    b: Seq<Vec2>,
    wb: Seq<int>,
)
    requires
        common_point(a, wa, b, wb),
    ensures
        !separated(a, b),
{
    assert forall|d: Vec2| !separates(d, a, b) by {
        if separates(d, a, b) {
            // a positive total needs a weight, so neither shape is empty; along
            // `d`, the highest vertex of `a` lies below every vertex of `b`
            assert(a.len() > 0 && b.len() > 0);
            lemma_furthest_index(a, d);
            let top = d.dot(a[furthest_index(a, d)]);
            let total_weight = total(wa, wa.len());
            lemma_value_bounded(a, wa, d, top, a.len());
            lemma_value_bounded(b, wb, d, top + 1, b.len());
            lemma_value_of_sum(a, wa, d, a.len());
            lemma_value_of_sum(b, wb, d, b.len());
            lemma_mul_sum2(total_weight, top, 1);
        }
    }
}

/// Of two shapes exactly one holds: their convex hulls have a point in
/// common, or a line passes between them and touches neither.
pub proof fn lemma_overlap_decided(a: Seq<Vec2>, b: Seq<Vec2>)
    ensures
        overlapping(a, b) == !separated(a, b),
{
    lemma_overlapping_difference(a, b);
    lemma_separated_difference(a, b);
    lemma_origin_decided(difference(a, b));
}

/// Whether two shapes overlap does not depend on their order.
pub proof fn lemma_overlapping_symmetric(a: Seq<Vec2>, b: Seq<Vec2>)
    ensures
        overlapping(a, b) == overlapping(b, a),
{
    lemma_overlap_decided(a, b);
    lemma_overlap_decided(b, a);
    lemma_separated_symmetric(a, b);
}

/// The weight that falls on place `i` where `w` is put on place `at`.
pub open spec fn weight_at(i: int, at: int, w: int) -> int {
    if i == at {
        w
    } else {
        0
    }
}

/// The weights on a list of `n` points that put `w.0`, `w.1` and `w.2` on the
/// places `at.0`, `at.1` and `at.2`, which need not differ.
pub open spec fn three_weights(n: nat, at: (int, int, int), w: (int, int, int)) -> Seq<int> {
    Seq::new(
        n,
        |i: int| weight_at(i, at.0, w.0) + weight_at(i, at.1, w.1) + weight_at(i, at.2, w.2),
    )
}

/// What the first `n` of three weights come to.
proof fn lemma_three_weights(
    points: Seq<Vec2>,
    at: (int, int, int),
    w: (int, int, int),
    n: nat,
)
    requires
        n <= points.len(),
        0 <= at.0 < points.len(),
        0 <= at.1 < points.len(),
        0 <= at.2 < points.len(),
    ensures
        ({
            let ws = three_weights(points.len(), at, w);
            let s = weighted_sum(points, ws, n);
            &&& total(ws, n) == (if at.0 < n { w.0 } else { 0 }) + (if at.1 < n { w.1 } else { 0 })
                + (if at.2 < n { w.2 } else { 0 })
            &&& s.x == (if at.0 < n { w.0 * points[at.0].x } else { 0 }) + (if at.1 < n {
                w.1 * points[at.1].x
            } else {
                0
            }) + (if at.2 < n { w.2 * points[at.2].x } else { 0 })
            &&& s.y == (if at.0 < n { w.0 * points[at.0].y } else { 0 }) + (if at.1 < n {
                w.1 * points[at.1].y
            } else {
                0
            }) + (if at.2 < n { w.2 * points[at.2].y } else { 0 })
        }),
    decreases n,
{
    if n > 0 {
        lemma_three_weights(points, at, w, (n - 1) as nat);
        let i = n - 1;
        let p = points[i];
        let k0 = weight_at(i, at.0, w.0);
        let k1 = weight_at(i, at.1, w.1);
        let k2 = weight_at(i, at.2, w.2);
        assert((k0 + k1 + k2) * p.x == k0 * p.x + k1 * p.x + k2 * p.x) by (nonlinear_arith);
        assert((k0 + k1 + k2) * p.y == k0 * p.y + k1 * p.y + k2 * p.y) by (nonlinear_arith);
        assert(0 * p.x == 0 && 0 * p.y == 0);
    }
}

/// Two shapes overlap exactly when their convex hulls have a point in common:
/// of any weights that show such a point, three on each shape are enough.
pub proof fn lemma_hulls_meet(a: Seq<Vec2>, b: Seq<Vec2>)
    ensures
        hulls_meet(a, b) == overlapping(a, b),
{
    if hulls_meet(a, b) {
        let (wa, wb) = choose|wa: Seq<int>, wb: Seq<int>| common_point(a, wa, b, wb);
        lemma_common_point_not_separated(a, wa, b, wb);
        lemma_overlap_decided(a, b);
    }
    if overlapping(a, b) {
        let (ia, ib, w) = choose|ia: (int, int, int), ib: (int, int, int), w: (int, int, int)|
            common_mean(a, b, ia, ib, w);
        let wa = three_weights(a.len(), ia, w);
        let wb = three_weights(b.len(), ib, w);
        lemma_three_weights(a, ia, w, a.len());
        lemma_three_weights(b, ib, w, b.len());
        assert(common_point(a, wa, b, wb));
    }
}

} // verus!
