//! Shapes as vertex lists, their Minkowski difference, and separation.

use vstd::prelude::*;
use vstd::arithmetic::div_mod::{lemma_fundamental_div_mod, lemma_fundamental_div_mod_converse};
use crate::vector::{Point, Vec2};
use crate::algebra::{lemma_dot_minus, lemma_dot_negated, lemma_mul_sum3};
use crate::hull::{excludes_origin, holds_origin, origin_excluded, origin_mean};

verus! {

/// The vertices of a shape as vectors of the plane, in the order given.
pub open spec fn vertices(points: Seq<Point>) -> Seq<Vec2> {
    Seq::new(points.len(), |i: int| points[i]@)
}

/// Along `d`, every vertex of `a` comes strictly before every vertex of `b`:
/// a line with normal `d` passes between the two shapes.
pub open spec fn separates(d: Vec2, a: Seq<Vec2>, b: Seq<Vec2>) -> bool {
    forall|i: int, j: int|
        0 <= i < a.len() && 0 <= j < b.len() ==> d.dot(#[trigger] a[i]) < d.dot(#[trigger] b[j])
}

/// Some line passes between the two shapes, touching neither. For convex
/// polygons given by their vertices this is to say that they do not overlap,
/// not even in a boundary point.
pub open spec fn separated(a: Seq<Vec2>, b: Seq<Vec2>) -> bool {
    exists|d: Vec2| separates(d, a, b)
}

/// Three vertices of `a`, at the places `ia`, and three of `b`, at the places
/// `ib`, have the same weighted sum under the weights `w`, none of which is
/// negative and not all of which are zero. Divided by the sum of the weights
/// it is a point of both convex hulls.
pub open spec fn common_mean(
    a: Seq<Vec2>,
    b: Seq<Vec2>,
    ia: (int, int, int),
    ib: (int, int, int),
    w: (int, int, int),
) -> bool {
    &&& 0 <= ia.0 < a.len() && 0 <= ia.1 < a.len() && 0 <= ia.2 < a.len()
    &&& 0 <= ib.0 < b.len() && 0 <= ib.1 < b.len() && 0 <= ib.2 < b.len()
    &&& w.0 >= 0 && w.1 >= 0 && w.2 >= 0
    &&& w.0 + w.1 + w.2 > 0
    &&& w.0 * a[ia.0].x + w.1 * a[ia.1].x + w.2 * a[ia.2].x == w.0 * b[ib.0].x + w.1 * b[ib.1].x
        + w.2 * b[ib.2].x
    &&& w.0 * a[ia.0].y + w.1 * a[ia.1].y + w.2 * a[ia.2].y == w.0 * b[ib.0].y + w.1 * b[ib.1].y
        + w.2 * b[ib.2].y
}

/// Some point is a weighted mean of three vertices of `a` and, under the same
/// weights, of three vertices of `b`. The convex hulls of the two lists have
/// a point in common exactly when this holds.
pub open spec fn overlapping(a: Seq<Vec2>, b: Seq<Vec2>) -> bool {
    exists|ia: (int, int, int), ib: (int, int, int), w: (int, int, int)|
        common_mean(a, b, ia, ib, w)
}

/// The shape with every coordinate multiplied by `k`: the same shape in a
/// unit of length that is `k` times finer.
pub open spec fn scaled(points: Seq<Vec2>, k: int) -> Seq<Vec2> {
    Seq::new(points.len(), |i: int| Vec2 { x: k * points[i].x, y: k * points[i].y })
}

/// The Minkowski difference of two vertex lists: every `a[i] - b[j]`, row by
/// row.
pub open spec fn difference(a: Seq<Vec2>, b: Seq<Vec2>) -> Seq<Vec2> {
    Seq::new(
        a.len() * b.len(),
        |k: int| a[k / (b.len() as int)].minus(b[k % (b.len() as int)]),
    )
}

/// Where `a[i] - b[j]` stands in the difference.
pub proof fn lemma_difference_index(a: Seq<Vec2>, b: Seq<Vec2>, i: int, j: int)
    requires
        0 <= i < a.len(),
        0 <= j < b.len(),
    ensures
        0 <= i * b.len() + j < difference(a, b).len(),
        difference(a, b)[i * b.len() + j] == a[i].minus(b[j]),
        difference(a, b).contains(a[i].minus(b[j])),
{
    let n = b.len() as int;
    let k = i * n + j;
    assert(0 <= i * n && i * n + n <= a.len() * n) by (nonlinear_arith)
        requires
            0 <= i < a.len(),
            0 < n,
    ;
    lemma_fundamental_div_mod_converse(k, n, i, j);
}

/// Which `a[i] - b[j]` stands at place `k` of the difference.
pub proof fn lemma_difference_pair(a: Seq<Vec2>, b: Seq<Vec2>, k: int) -> (ij: (int, int))
    requires
        0 <= k < difference(a, b).len(),
    ensures
        0 <= ij.0 < a.len(),
        0 <= ij.1 < b.len(),
        difference(a, b)[k] == a[ij.0].minus(b[ij.1]),
{
    let n = b.len() as int;
    assert(n > 0) by (nonlinear_arith)
        requires
            0 <= k < a.len() * n,
            0 <= n,
    ;
    let i = k / n;
    let j = k % n;
    lemma_fundamental_div_mod(k, n);
    assert(0 <= i < a.len()) by (nonlinear_arith)
        requires
            k == n * i + j,
            0 <= j < n,
            0 <= k < a.len() * n,
    ;
    (i, j)
}

/// A direction separates two shapes exactly when it cuts the origin off from
/// their difference.
pub proof fn lemma_separates_difference(d: Vec2, a: Seq<Vec2>, b: Seq<Vec2>)
    ensures
        separates(d, a, b) <==> excludes_origin(d, difference(a, b)),
{
    let m = difference(a, b);
    if separates(d, a, b) {
        assert forall|k: int| 0 <= k < m.len() implies d.dot(#[trigger] m[k]) < 0 by {
            let ij = lemma_difference_pair(a, b, k);
            lemma_dot_minus(d, a[ij.0], b[ij.1]);
        }
    }
    if excludes_origin(d, m) {
        assert forall|i: int, j: int| 0 <= i < a.len() && 0 <= j < b.len() implies d.dot(
            #[trigger] a[i],
        ) < d.dot(#[trigger] b[j]) by {
            lemma_difference_index(a, b, i, j);
            lemma_dot_minus(d, a[i], b[j]);
        }
    }
}

/// Two shapes are separated exactly when the origin lies outside the hull of
/// their difference.
pub proof fn lemma_separated_difference(a: Seq<Vec2>, b: Seq<Vec2>)
    ensures
        separated(a, b) <==> origin_excluded(difference(a, b)),
{
    let m = difference(a, b);
    if separated(a, b) {
        let d = choose|d: Vec2| separates(d, a, b);
        lemma_separates_difference(d, a, b);
    }
    if origin_excluded(m) {
        let d = choose|d: Vec2| excludes_origin(d, m);
        lemma_separates_difference(d, a, b);
    }
}

/// A line that separates `a` from `b` separates `b` from `a`, seen from the
/// other side.
pub proof fn lemma_separates_reversed(d: Vec2, a: Seq<Vec2>, b: Seq<Vec2>)
    ensures
        separates(d, a, b) <==> separates(d.negated(), b, a),
{
    let n = d.negated();
    if separates(d, a, b) {
        assert forall|j: int, i: int| 0 <= j < b.len() && 0 <= i < a.len() implies n.dot(
            #[trigger] b[j],
        ) < n.dot(#[trigger] a[i]) by {
            lemma_dot_negated(d, b[j]);
            lemma_dot_negated(d, a[i]);
        }
    }
    if separates(n, b, a) {
        assert forall|i: int, j: int| 0 <= i < a.len() && 0 <= j < b.len() implies d.dot(
            #[trigger] a[i],
        ) < d.dot(#[trigger] b[j]) by {
            lemma_dot_negated(d, b[j]);
            lemma_dot_negated(d, a[i]);
        }
    }
}

/// Separation does not depend on the order of the two shapes.
pub proof fn lemma_separated_symmetric(a: Seq<Vec2>, b: Seq<Vec2>)
    ensures
        separated(a, b) == separated(b, a),
{
    if separated(a, b) {
        let d = choose|d: Vec2| separates(d, a, b);
        lemma_separates_reversed(d, a, b);
    }
    if separated(b, a) {
        let d = choose|d: Vec2| separates(d, b, a);
        lemma_separates_reversed(d, b, a);
    }
}

/// A weight times a difference.
proof fn lemma_weight_minus(w: int, p: int, q: int)
    by (nonlinear_arith)
    ensures
        w * (p - q) == w * p - w * q,
{
}

/// Two shapes have a point in common exactly when the hull of their
/// difference holds the origin.
pub proof fn lemma_overlapping_difference(a: Seq<Vec2>, b: Seq<Vec2>)
    ensures
        overlapping(a, b) <==> holds_origin(difference(a, b)),
{
    let m = difference(a, b);
    if overlapping(a, b) {
        let (ia, ib, w) = choose|ia: (int, int, int), ib: (int, int, int), w: (int, int, int)|
            common_mean(a, b, ia, ib, w);
        lemma_difference_index(a, b, ia.0, ib.0);
        lemma_difference_index(a, b, ia.1, ib.1);
        lemma_difference_index(a, b, ia.2, ib.2);
        let n = b.len() as int;
        lemma_weight_minus(w.0, a[ia.0].x, b[ib.0].x);
        lemma_weight_minus(w.1, a[ia.1].x, b[ib.1].x);
        lemma_weight_minus(w.2, a[ia.2].x, b[ib.2].x);
        lemma_weight_minus(w.0, a[ia.0].y, b[ib.0].y);
        lemma_weight_minus(w.1, a[ia.1].y, b[ib.1].y);
        lemma_weight_minus(w.2, a[ia.2].y, b[ib.2].y);
        assert(origin_mean(m, ia.0 * n + ib.0, ia.1 * n + ib.1, ia.2 * n + ib.2, w.0, w.1, w.2));
    }
    if holds_origin(m) {
        let (i, j, k, wi, wj, wk) = choose|i: int, j: int, k: int, wi: int, wj: int, wk: int|
            origin_mean(m, i, j, k, wi, wj, wk);
        let pi = lemma_difference_pair(a, b, i);
        let pj = lemma_difference_pair(a, b, j);
        let pk = lemma_difference_pair(a, b, k);
        lemma_weight_minus(wi, a[pi.0].x, b[pi.1].x);
        lemma_weight_minus(wj, a[pj.0].x, b[pj.1].x);
        lemma_weight_minus(wk, a[pk.0].x, b[pk.1].x);
        lemma_weight_minus(wi, a[pi.0].y, b[pi.1].y);
        lemma_weight_minus(wj, a[pj.0].y, b[pj.1].y);
        lemma_weight_minus(wk, a[pk.0].y, b[pk.1].y);
        assert(common_mean(a, b, (pi.0, pj.0, pk.0), (pi.1, pj.1, pk.1), (wi, wj, wk)));
    }
}

/// Shapes with a vertex in common overlap: contact counts.
pub proof fn lemma_common_vertex(a: Seq<Vec2>, b: Seq<Vec2>, i: int, j: int)
    requires
        0 <= i < a.len(),
        0 <= j < b.len(),
        a[i] == b[j],
    ensures
        overlapping(a, b),
{
    assert(common_mean(a, b, (i, i, i), (j, j, j), (1, 0, 0)));
}

/// A weight times a scaled coordinate.
proof fn lemma_scaled_term(k: int, w: int, p: int)
    by (nonlinear_arith)
    ensures
        w * (k * p) == k * (w * p),
{
}

/// A weighted sum of three scaled coordinates.
proof fn lemma_scaled_sum(k: int, wa: int, a: int, wb: int, b: int, wc: int, c: int)
    ensures
        wa * (k * a) + wb * (k * b) + wc * (k * c) == k * (wa * a + wb * b + wc * c),
{
    lemma_scaled_term(k, wa, a);
    lemma_scaled_term(k, wb, b);
    lemma_scaled_term(k, wc, c);
    lemma_mul_sum3(k, wa * a, wb * b, wc * c);
}

/// A common non-zero factor can be cancelled.
proof fn lemma_cancel(k: int, x: int, y: int)
    by (nonlinear_arith)
    requires
        k != 0,
        k * x == k * y,
    ensures
        x == y,
{
}

/// Whether two shapes overlap does not depend on the unit of length in which
/// their coordinates are given.
pub proof fn lemma_overlapping_scaled(a: Seq<Vec2>, b: Seq<Vec2>, k: int)
    requires
        k > 0,
    ensures
        overlapping(scaled(a, k), scaled(b, k)) == overlapping(a, b),
{
    let sa = scaled(a, k);
    let sb = scaled(b, k);
    assert forall|ia: (int, int, int), ib: (int, int, int), w: (int, int, int)|
        common_mean(sa, sb, ia, ib, w) == common_mean(a, b, ia, ib, w) by {
        if 0 <= ia.0 < a.len() && 0 <= ia.1 < a.len() && 0 <= ia.2 < a.len() && 0 <= ib.0
            < b.len() && 0 <= ib.1 < b.len() && 0 <= ib.2 < b.len() {
            lemma_scaled_sum(k, w.0, a[ia.0].x, w.1, a[ia.1].x, w.2, a[ia.2].x);
            lemma_scaled_sum(k, w.0, b[ib.0].x, w.1, b[ib.1].x, w.2, b[ib.2].x);
            lemma_scaled_sum(k, w.0, a[ia.0].y, w.1, a[ia.1].y, w.2, a[ia.2].y);
            lemma_scaled_sum(k, w.0, b[ib.0].y, w.1, b[ib.1].y, w.2, b[ib.2].y);
            let ax = w.0 * a[ia.0].x + w.1 * a[ia.1].x + w.2 * a[ia.2].x;
            let bx = w.0 * b[ib.0].x + w.1 * b[ib.1].x + w.2 * b[ib.2].x;
            let ay = w.0 * a[ia.0].y + w.1 * a[ia.1].y + w.2 * a[ia.2].y;
            let by = w.0 * b[ib.0].y + w.1 * b[ib.1].y + w.2 * b[ib.2].y;
            if k * ax == k * bx {
                lemma_cancel(k, ax, bx);
            }
            if k * ay == k * by {
                lemma_cancel(k, ay, by);
            }
        }
    }
    if overlapping(a, b) {
        let (ia, ib, w) = choose|ia: (int, int, int), ib: (int, int, int), w: (int, int, int)|
            common_mean(a, b, ia, ib, w);
    }
    if overlapping(sa, sb) {
        let (ia, ib, w) = choose|ia: (int, int, int), ib: (int, int, int), w: (int, int, int)|
            common_mean(sa, sb, ia, ib, w);
    }
}

} // verus!
