//! The coordinate range within which every intermediate value of the search
//! can be held in an `i128`.

use vstd::prelude::*;
use crate::vector::{dot_fits, triple_fits, triple_product, Point, Vec2};
use crate::search::{edge_step, triangle_step};
use crate::shape::{difference, lemma_difference_pair, vertices};
use crate::simplex::{edge_fits, triangle_fits};
use crate::support::{lemma_furthest_index, support_fits};

verus! {

/// The greatest absolute value of a vertex coordinate that the overlap test
/// takes: `2^29`. The scalar products of the search grow with the fourth
/// power of the coordinates, and with this limit they stay below `2^126`.
pub const COORD_LIMIT: i128 = 536_870_912;

/// The greatest absolute value of a coordinate of a difference of two
/// vertices: `2^30`.
pub const DIFFERENCE_LIMIT: i128 = 1_073_741_824;

/// The greatest absolute value of a coordinate of a search direction: `2^94`.
pub const DIRECTION_LIMIT: i128 = 19_807_040_628_566_084_398_385_987_584;

/// Every point of the list lies within `bound` of the origin, coordinate by
/// coordinate.
pub open spec fn all_within(points: Seq<Vec2>, bound: int) -> bool {
    forall|k: int| 0 <= k < points.len() ==> (#[trigger] points[k]).within(bound)
}

/// Every coordinate of the shape lies in `-COORD_LIMIT ..= COORD_LIMIT`.
pub open spec fn in_range(points: Seq<Point>) -> bool {
    all_within(vertices(points), COORD_LIMIT as int)
}

proof fn lemma_product_within(a: int, la: int, b: int, lb: int)
    by (nonlinear_arith)
    requires
        -la <= a <= la,
        -lb <= b <= lb,
    ensures
        -(la * lb) <= a * b <= la * lb,
{
}

/// The scalar product of two bounded vectors is bounded and can be computed.
pub proof fn lemma_dot_within(p: Vec2, lp: int, q: Vec2, lq: int)
    requires
        p.within(lp),
        q.within(lq),
        2 * (lp * lq) <= i128::MAX,
    ensures
        dot_fits(p, q),
        -(2 * (lp * lq)) <= p.dot(q) <= 2 * (lp * lq),
{
    lemma_product_within(p.x, lp, q.x, lq);
    lemma_product_within(p.y, lp, q.y, lq);
}

/// The triple product of three bounded vectors is bounded and can be
/// computed.
pub proof fn lemma_triple_within(a: Vec2, la: int, b: Vec2, lb: int, c: Vec2, lc: int)
    requires
        a.within(la),
        b.within(lb),
        c.within(lc),
        lc >= 1,
        (2 * (la * lb)) * lc <= i128::MAX,
    ensures
        triple_fits(a, b, c),
        triple_product(a, b, c).within((2 * (la * lb)) * lc),
{
    let t = 2 * (la * lb);
    let z = a.cross(b);
    lemma_product_within(a.x, la, b.y, lb);
    lemma_product_within(a.y, la, b.x, lb);
    assert(t <= t * lc) by (nonlinear_arith)
        requires
            t >= 0,
            lc >= 1,
    ;
    lemma_product_within(-z, t, c.y, lc);
    lemma_product_within(z, t, c.x, lc);
}

/// The difference of two shapes in range holds only points within
/// `DIFFERENCE_LIMIT`.
pub proof fn lemma_difference_within(a: Seq<Vec2>, b: Seq<Vec2>)
    requires
        all_within(a, COORD_LIMIT as int),
        all_within(b, COORD_LIMIT as int),
    ensures
        all_within(difference(a, b), DIFFERENCE_LIMIT as int),
{
    let m = difference(a, b);
    assert forall|k: int| 0 <= k < m.len() implies (#[trigger] m[k]).within(
        DIFFERENCE_LIMIT as int,
    ) by {
        lemma_difference_pair(a, b, k);
    }
}

/// A support point of two shapes in range can be computed along every
/// direction within `DIRECTION_LIMIT`.
pub proof fn lemma_support_within(a: Seq<Vec2>, b: Seq<Vec2>, d: Vec2)
    requires
        all_within(a, COORD_LIMIT as int),
        all_within(b, COORD_LIMIT as int),
        d.within(DIRECTION_LIMIT as int),
    ensures
        support_fits(a, b, d),
{
    assert forall|k: int| 0 <= k < a.len() implies dot_fits(#[trigger] a[k], d) by {
        lemma_dot_within(a[k], COORD_LIMIT as int, d, DIRECTION_LIMIT as int);
    }
    assert forall|k: int| 0 <= k < b.len() implies dot_fits(#[trigger] b[k], d.negated()) by {
        lemma_dot_within(b[k], COORD_LIMIT as int, d.negated(), DIRECTION_LIMIT as int);
    }
    if a.len() > 0 && b.len() > 0 {
        lemma_furthest_index(a, d);
        lemma_furthest_index(b, d.negated());
    }
}

/// The update for two points within `DIFFERENCE_LIMIT` can be computed, and
/// its direction lies within `DIRECTION_LIMIT`.
pub proof fn lemma_edge_within(older: Vec2, newer: Vec2)
    requires
        older.within(DIFFERENCE_LIMIT as int),
        newer.within(DIFFERENCE_LIMIT as int),
    ensures
        edge_fits(older, newer),
        edge_step(older, newer).direction.within(DIRECTION_LIMIT as int),
        all_within(edge_step(older, newer).simplex, DIFFERENCE_LIMIT as int),
{
    let ab = older.minus(newer);
    let ao = newer.negated();
    let l1: int = DIFFERENCE_LIMIT as int;
    let l2: int = 2 * l1;
    lemma_dot_within(ab, l2, ao, l1);
    lemma_triple_within(ab, l2, ao, l1, ab, l2);
}

/// The update for three points within `DIFFERENCE_LIMIT` can be computed,
/// and the direction of its result lies within `DIRECTION_LIMIT`.
pub proof fn lemma_triangle_within(oldest: Vec2, middle: Vec2, newest: Vec2)
    requires
        oldest.within(DIFFERENCE_LIMIT as int),
        middle.within(DIFFERENCE_LIMIT as int),
        newest.within(DIFFERENCE_LIMIT as int),
    ensures
        triangle_fits(oldest, middle, newest),
        match triangle_step(oldest, middle, newest) {
            Some(t) => t.direction.within(DIRECTION_LIMIT as int) && all_within(
                t.simplex,
                DIFFERENCE_LIMIT as int,
            ),
            None => true,
        },
{
    let ab = middle.minus(newest);
    let ac = oldest.minus(newest);
    let ao = newest.negated();
    let l1: int = DIFFERENCE_LIMIT as int;
    let l2: int = 2 * l1;
    lemma_triple_within(ab, l2, ac, l2, ac, l2);
    lemma_triple_within(ac, l2, ab, l2, ab, l2);
    lemma_dot_within(triple_product(ab, ac, ac), DIRECTION_LIMIT as int, ao, l1);
    lemma_dot_within(triple_product(ac, ab, ab), DIRECTION_LIMIT as int, ao, l1);
}

} // verus!
