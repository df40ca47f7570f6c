//! The overlap test.

use vstd::prelude::*;
use crate::vector::{dot_product, Point, Vec2};
use crate::algebra::lemma_dot_symmetric;
use crate::error::GjkError;
use crate::hull::{excludes_origin, lemma_mean_not_excluded};
use crate::limits::{
    all_within, in_range, lemma_difference_within, lemma_dot_within, lemma_edge_within,
    lemma_support_within, lemma_triangle_within, COORD_LIMIT, DIFFERENCE_LIMIT, DIRECTION_LIMIT,
};
use crate::convex::{hulls_meet, lemma_hulls_meet, lemma_overlapping_symmetric};
use crate::search::{
    lemma_edge_step, lemma_triangle_step, lemma_zero_direction, measure, search_inv, Search,
};
use crate::shape::{difference, lemma_overlapping_difference, vertices};
use crate::simplex::Simplex;
use crate::support::{lemma_support_extreme, support};

verus! {

/// What the overlap test answers for two vertex lists. A list without a
/// vertex is refused, then a coordinate out of range; otherwise the answer is
/// `true` exactly when the convex hulls of the two lists have a point in
/// common, so that shapes which only touch overlap.
pub open spec fn verdict(a: Seq<Point>, b: Seq<Point>) -> Result<bool, GjkError> {
    if a.len() == 0 || b.len() == 0 {
        Err(GjkError::InvalidInput)
    } else if !in_range(a) || !in_range(b) {
        Err(GjkError::CoordinateOutOfRange)
    } else {
        Ok(hulls_meet(vertices(a), vertices(b)))
    }
}

/// Whether every coordinate of the shape lies in
/// `-COORD_LIMIT ..= COORD_LIMIT`.
pub fn coordinates_in_range(points: &[Point]) -> (r: bool)
    ensures
        r == in_range(points@),
{
    let mut i: usize = 0;
    while i < points.len()
        invariant
            0 <= i <= points.len(),
            forall|k: int| 0 <= k < i ==> (#[trigger] vertices(points@)[k]).within(COORD_LIMIT as int),
        decreases points.len() - i,
    {
        let p: Point = points[i];
        if p.x < -COORD_LIMIT || p.x > COORD_LIMIT || p.y < -COORD_LIMIT || p.y > COORD_LIMIT {
            assert(!vertices(points@)[i as int].within(COORD_LIMIT as int));
            return false;
        }
        i += 1;
    }
    true
}

/// The search for the origin in the Minkowski difference of two shapes with
/// coordinates in range. It holds a simplex of at most three support points
/// and a direction. Each iteration ends the search with `true` where the
/// direction has vanished, for then the simplex holds the origin; asks for
/// the support point along the direction; ends with `false` where that point
/// does not reach the origin; and else adds the point and updates simplex and
/// direction by the rule for two or for three points, which ends with `true`
/// where the triangle holds the origin. No cap on the iterations is needed:
/// `measure` of the state falls with each of them.
pub fn gjk2d(a: &[Point], b: &[Point]) -> (r: Result<bool, GjkError>)
    requires
        in_range(a@),
        in_range(b@),
    ensures
        r == verdict(a@, b@),
{
    let ghost va = vertices(a@);
    let ghost vb = vertices(b@);
    let ghost m = difference(va, vb);
    let vector = Point { x: 0, y: 1 };
    proof {
        lemma_support_within(va, vb, vector@);
    }
    let support_point = match support(a, b, &vector) {
        Ok(p) => p,
        Err(e) => {
            return Err(e);
        },
    };
    proof {
        lemma_support_extreme(va, vb, vector@);
        lemma_difference_within(va, vb);
    }
    let mut simplex = Simplex::new();
    simplex.push(support_point);
    let mut vector = support_point.neg();
    loop
        invariant
            a.len() > 0,
            b.len() > 0,
            in_range(a@),
            in_range(b@),
            va == vertices(a@),
            vb == vertices(b@),
            m == difference(va, vb),
            all_within(m, DIFFERENCE_LIMIT as int),
            search_inv(Search { simplex: simplex@, direction: vector@ }, m),
            all_within(simplex@, DIFFERENCE_LIMIT as int),
            vector@.within(DIRECTION_LIMIT as int),
        decreases measure(Search { simplex: simplex@, direction: vector@ }, m),
    {
        let ghost s = Search { simplex: simplex@, direction: vector@ };
        if vector.is_zero() {
            proof {
                // the simplex holds the origin, and with it the difference
                lemma_zero_direction(m, s);
                lemma_overlapping_difference(va, vb);
                lemma_hulls_meet(va, vb);
            }
            return Ok(true);
        }
        proof {
            lemma_support_within(va, vb, vector@);
        }
        let support_point = match support(a, b, &vector) {
            Ok(p) => p,
            Err(e) => {
                return Err(e);
            },
        };
        proof {
            lemma_support_extreme(va, vb, vector@);
            lemma_dot_within(
                support_point@,
                DIFFERENCE_LIMIT as int,
                vector@,
                DIRECTION_LIMIT as int,
            );
            lemma_dot_symmetric(support_point@, vector@);
        }
        if dot_product(&support_point, &vector) < 0 {
            proof {
                // the direction cuts the origin off from the difference, which
                // a common point of the hulls would forbid
                assert(excludes_origin(vector@, m));
                if hulls_meet(va, vb) {
                    lemma_hulls_meet(va, vb);
                    lemma_overlapping_difference(va, vb);
                    lemma_mean_not_excluded(m);
                }
            }
            return Ok(false);
        }
        simplex.push(support_point);
        if simplex.len() == 2 {
            proof {
                lemma_edge_within(s.simplex[0], support_point@);
                lemma_edge_step(m, s, support_point@);
            }
            vector = simplex.refine_edge();
        } else {
            proof {
                lemma_triangle_within(s.simplex[0], s.simplex[1], support_point@);
                lemma_triangle_step(m, s, support_point@);
            }
            match simplex.refine_triangle() {
                Some(d) => {
                    vector = d;
                },
                None => {
                    proof {
                        lemma_overlapping_difference(va, vb);
                        lemma_hulls_meet(va, vb);
                    }
                    return Ok(true);
                },
            }
        }
    }
}

/// Whether two convex shapes, each given by its vertices in any order,
/// overlap. Shapes whose boundaries touch overlap. The answer depends on the
/// two vertex lists alone.
pub fn intersects(shape_a: &[Point], shape_b: &[Point]) -> (r: Result<bool, GjkError>)
    ensures
        r == verdict(shape_a@, shape_b@),
{
    if shape_a.len() == 0 || shape_b.len() == 0 {
        return Err(GjkError::InvalidInput);
    }
    if !coordinates_in_range(shape_a) || !coordinates_in_range(shape_b) {
        return Err(GjkError::CoordinateOutOfRange);
    }
    gjk2d(shape_a, shape_b)
}

/// Exchanging the two shapes does not change the answer of the overlap test.
pub proof fn lemma_verdict_symmetric(a: Seq<Point>, b: Seq<Point>)
    ensures
        verdict(a, b) == verdict(b, a),
{
    lemma_hulls_meet(vertices(a), vertices(b));
    lemma_hulls_meet(vertices(b), vertices(a));
    lemma_overlapping_symmetric(vertices(a), vertices(b));
}

} // verus!
