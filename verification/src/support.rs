//! The furthest point of a vertex list along a direction, and the support
//! point of the Minkowski difference of two shapes.

use vstd::prelude::*;
use crate::vector::{dot_product, dot_fits, fits, Point, Vec2};
use crate::algebra::{lemma_dot_minus, lemma_dot_negated, lemma_dot_symmetric};
use crate::error::GjkError;
use crate::hull::extreme;
use crate::shape::{difference, lemma_difference_index, lemma_difference_pair, vertices};

verus! {

/// `points[i]` is the first point of the list whose scalar product with `d`
/// is the greatest: no point exceeds it, and every earlier one falls short.
pub open spec fn is_furthest(points: Seq<Vec2>, d: Vec2, i: int) -> bool {
    &&& 0 <= i < points.len()
    &&& forall|k: int| 0 <= k < points.len() ==> d.dot(#[trigger] points[k]) <= d.dot(points[i])
    &&& forall|k: int| 0 <= k < i ==> d.dot(#[trigger] points[k]) < d.dot(points[i])
}

/// The index that `is_furthest` singles out.
pub open spec fn furthest_index(points: Seq<Vec2>, d: Vec2) -> int {
    choose|i: int| is_furthest(points, d, i)
}

/// The furthest point of the list along `d`.
pub open spec fn furthest(points: Seq<Vec2>, d: Vec2) -> Vec2 {
    points[furthest_index(points, d)]
}

/// The support point of the Minkowski difference of `a` and `b` along `d`.
pub open spec fn support_point(a: Seq<Vec2>, b: Seq<Vec2>, d: Vec2) -> Vec2 {
    furthest(a, d).minus(furthest(b, d.negated()))
}

/// The scalar product of `d` with each point of the list can be computed in
/// `i128`.
pub open spec fn scan_fits(points: Seq<Vec2>, d: Vec2) -> bool {
    forall|k: int| 0 <= k < points.len() ==> dot_fits(#[trigger] points[k], d)
}

/// Every step of computing `support_point(a, b, d)` can be held in an `i128`.
pub open spec fn support_fits(a: Seq<Vec2>, b: Seq<Vec2>, d: Vec2) -> bool {
    &&& scan_fits(a, d)
    &&& fits(-d.x) && fits(-d.y)
    &&& scan_fits(b, d.negated())
    &&& a.len() > 0 && b.len() > 0 ==> fits(support_point(a, b, d).x) && fits(
        support_point(a, b, d).y,
    )
}

/// At most one index is the furthest.
pub proof fn lemma_furthest_unique(points: Seq<Vec2>, d: Vec2, i: int, j: int)
    requires
        is_furthest(points, d, i),
        is_furthest(points, d, j),
    ensures
        i == j,
{
    if i < j {
        assert(d.dot(points[i]) < d.dot(points[j]));
    }
    if j < i {
        assert(d.dot(points[j]) < d.dot(points[i]));
    }
}

/// The furthest index among the first `n` points.
proof fn lemma_furthest_of_prefix(points: Seq<Vec2>, d: Vec2, n: int) -> (i: int)
    requires
        0 < n <= points.len(),
    ensures
        is_furthest(points.take(n), d, i),
    decreases n,
{
    let prefix = points.take(n);
    if n == 1 {
        0
    } else {
        let before = lemma_furthest_of_prefix(points, d, n - 1);
        let shorter = points.take(n - 1);
        // the shorter prefix agrees with this one as far as it goes, so the
        // last point either beats its furthest point or leaves it in place
        assert forall|k: int| 0 <= k < n - 1 implies shorter[k] == prefix[k] by {}
        if d.dot(shorter[before]) < d.dot(prefix[n - 1]) {
            n - 1
        } else {
            before
        }
    }
}

/// Of the points with the greatest scalar product the first is the furthest:
/// a list with a point has a furthest index, and `furthest_index` is it.
pub proof fn lemma_furthest_index(points: Seq<Vec2>, d: Vec2)
    requires
        points.len() > 0,
    ensures
        is_furthest(points, d, furthest_index(points, d)),
{
    lemma_furthest_of_prefix(points, d, points.len() as int);
    assert(points.take(points.len() as int) =~= points);
}

/// The support point is a point of the difference that none exceeds along
/// `d`.
pub proof fn lemma_support_extreme(a: Seq<Vec2>, b: Seq<Vec2>, d: Vec2)
    requires
        a.len() > 0,
        b.len() > 0,
    ensures
        extreme(support_point(a, b, d), d, difference(a, b)),
{
    let m = difference(a, b);
    let i = furthest_index(a, d);
    let j = furthest_index(b, d.negated());
    let p = support_point(a, b, d);
    lemma_furthest_index(a, d);
    lemma_furthest_index(b, d.negated());
    lemma_difference_index(a, b, i, j);
    lemma_dot_minus(d, a[i], b[j]);
    lemma_dot_negated(d, b[j]);
    assert forall|k: int| 0 <= k < m.len() implies d.dot(#[trigger] m[k]) <= d.dot(p) by {
        let ij = lemma_difference_pair(a, b, k);
        lemma_dot_minus(d, a[ij.0], b[ij.1]);
        lemma_dot_negated(d, b[ij.1]);
    }
}

/// The point of `points` with the greatest scalar product with `vector`; of
/// several such points the first. An empty list has none.
pub fn furthest_point(points: &[Point], vector: &Point) -> (r: Result<Point, GjkError>)
    requires
        scan_fits(vertices(points@), vector@),
    ensures
        points.len() == 0 ==> r == Err::<Point, GjkError>(GjkError::InvalidInput),
        points.len() > 0 ==> r == Ok::<Point, GjkError>(
            points[furthest_index(vertices(points@), vector@)],
        ),
        points.len() > 0 ==> is_furthest(
            vertices(points@),
            vector@,
            furthest_index(vertices(points@), vector@),
        ),
{
    if points.len() == 0 {
        return Err(GjkError::InvalidInput);
    }
    let ghost vs = vertices(points@);
    let ghost d = vector@;
    let ghost mut best: int = 0;
    proof {
        lemma_dot_symmetric(vs[0], d);
    }
    let mut result_point: Point = points[0];
    let mut max_value: i128 = dot_product(&result_point, vector);
    let mut i: usize = 1;
    while i < points.len()
        invariant
            1 <= i <= points.len(),
            vs == vertices(points@),
            d == vector@,
            scan_fits(vs, d),
            0 <= best < i,
            result_point == points[best],
            max_value == d.dot(vs[best]),
            forall|k: int| 0 <= k < i ==> d.dot(#[trigger] vs[k]) <= d.dot(vs[best]),
            forall|k: int| 0 <= k < best ==> d.dot(#[trigger] vs[k]) < d.dot(vs[best]),
        decreases points.len() - i,
    {
        proof {
            lemma_dot_symmetric(vs[i as int], d);
        }
        let point: Point = points[i];
        let value: i128 = dot_product(&point, vector);
        if max_value < value {
            result_point = point;
            max_value = value;
            proof {
                best = i as int;
            }
        }
        i += 1;
    }
    proof {
        assert(is_furthest(vs, d, best));
    }
    Ok(result_point)
}

/// The support point of the Minkowski difference of the two shapes along
/// `vector`: the furthest point of `a` along it, less the furthest point of
/// `b` against it. There is none where a shape has no vertex.
pub fn support(a: &[Point], b: &[Point], vector: &Point) -> (r: Result<Point, GjkError>)
    requires
        support_fits(vertices(a@), vertices(b@), vector@),
    ensures
        (a.len() == 0 || b.len() == 0) ==> r == Err::<Point, GjkError>(GjkError::InvalidInput),
        a.len() > 0 && b.len() > 0 ==> r is Ok && r->Ok_0@ == support_point(
            vertices(a@),
            vertices(b@),
            vector@,
        ),
{
    let furthest_a = match furthest_point(a, vector) {
        Ok(p) => p,
        Err(e) => {
            return Err(e);
        },
    };
    let opposite = vector.neg();
    let furthest_b = match furthest_point(b, &opposite) {
        Ok(p) => p,
        Err(e) => {
            return Err(e);
        },
    };
    Ok(furthest_a.sub(furthest_b))
}

} // verus!
