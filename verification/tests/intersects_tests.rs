use gjk2d::error::GjkError;
use gjk2d::gjk::{coordinates_in_range, gjk2d, intersects};
use gjk2d::limits::COORD_LIMIT;
use gjk2d::vector::Point;

fn shape(coordinates: &[(i128, i128)]) -> Vec<Point> {
    coordinates.iter().map(|c| Point { x: c.0, y: c.1 }).collect()
}

/// A shape whose coordinates are given in halves of the unit, so that 0.5 is
/// a lattice point. Overlap does not depend on the unit.
fn shape_in_halves(coordinates: &[(f64, f64)]) -> Vec<Point> {
    coordinates.iter().map(|c| Point { x: (c.0 * 2.0) as i128, y: (c.1 * 2.0) as i128 }).collect()
}

fn unit_square() -> Vec<Point> {
    shape(&[(0, 0), (1, 0), (1, 1), (0, 1)])
}

#[test]
fn empty_first_shape_is_invalid_input() {
    let none: Vec<Point> = Vec::new();
    assert_eq!(intersects(&none, &unit_square()), Err(GjkError::InvalidInput));
    assert_eq!(intersects(&none, &shape(&[(7, 7)])), Err(GjkError::InvalidInput));
}

#[test]
fn empty_second_shape_is_invalid_input() {
    let none: Vec<Point> = Vec::new();
    assert_eq!(intersects(&unit_square(), &none), Err(GjkError::InvalidInput));
    assert_eq!(intersects(&shape(&[(7, 7)]), &none), Err(GjkError::InvalidInput));
}

#[test]
fn two_empty_shapes_are_invalid_input() {
    let none: Vec<Point> = Vec::new();
    assert_eq!(intersects(&none, &none), Err(GjkError::InvalidInput));
    assert_eq!(gjk2d(&none, &none), Err(GjkError::InvalidInput));
}

#[test]
fn empty_shape_is_reported_before_a_coordinate_out_of_range() {
    let none: Vec<Point> = Vec::new();
    let far = shape(&[(COORD_LIMIT + 1, 0)]);
    assert_eq!(intersects(&none, &far), Err(GjkError::InvalidInput));
    assert_eq!(intersects(&far, &none), Err(GjkError::InvalidInput));
}

#[test]
fn coordinate_beyond_the_limit_is_out_of_range() {
    let square = unit_square();
    for far in [
        shape(&[(COORD_LIMIT + 1, 0)]),
        shape(&[(0, COORD_LIMIT + 1)]),
        shape(&[(-COORD_LIMIT - 1, 0)]),
        shape(&[(0, 0), (0, -COORD_LIMIT - 1)]),
    ] {
        assert_eq!(intersects(&square, &far), Err(GjkError::CoordinateOutOfRange));
        assert_eq!(intersects(&far, &square), Err(GjkError::CoordinateOutOfRange));
    }
}

#[test]
fn coordinates_in_range_accepts_the_limit_itself() {
    assert!(coordinates_in_range(&shape(&[(COORD_LIMIT, -COORD_LIMIT), (0, 0)])));
    assert!(coordinates_in_range(&shape(&[])));
    assert!(!coordinates_in_range(&shape(&[(0, 0), (COORD_LIMIT + 1, 0)])));
    assert!(!coordinates_in_range(&shape(&[(0, -COORD_LIMIT - 1)])));
    assert_eq!(COORD_LIMIT, 1 << 29);
}

#[test]
fn same_single_point_overlaps() {
    assert_eq!(intersects(&shape(&[(0, 0)]), &shape(&[(0, 0)])), Ok(true));
    assert_eq!(intersects(&shape(&[(3, -8)]), &shape(&[(3, -8)])), Ok(true));
}

#[test]
fn distinct_single_points_do_not_overlap() {
    assert_eq!(intersects(&shape(&[(0, 0)]), &shape(&[(5, 5)])), Ok(false));
    assert_eq!(intersects(&shape(&[(5, 5)]), &shape(&[(0, 0)])), Ok(false));
}

#[test]
fn overlapping_unit_squares() {
    let a = shape_in_halves(&[(0.0, 0.0), (1.0, 0.0), (1.0, 1.0), (0.0, 1.0)]);
    let b = shape_in_halves(&[(0.5, 0.5), (1.5, 0.5), (1.5, 1.5), (0.5, 1.5)]);
    assert_eq!(a, shape(&[(0, 0), (2, 0), (2, 2), (0, 2)]));
    assert_eq!(b, shape(&[(1, 1), (3, 1), (3, 3), (1, 3)]));
    assert_eq!(intersects(&a, &b), Ok(true));
}

#[test]
fn disjoint_squares() {
    let b = shape(&[(2, 0), (3, 0), (3, 1), (2, 1)]);
    assert_eq!(intersects(&unit_square(), &b), Ok(false));
}

#[test]
fn edge_touching_squares_overlap() {
    let b = shape(&[(1, 0), (2, 0), (2, 1), (1, 1)]);
    assert_eq!(intersects(&unit_square(), &b), Ok(true));
}

#[test]
fn corner_touching_squares_overlap() {
    let b = shape(&[(1, 1), (2, 1), (2, 2), (1, 2)]);
    assert_eq!(intersects(&unit_square(), &b), Ok(true));
}

#[test]
fn squares_one_lattice_step_apart_do_not_overlap() {
    let a = shape(&[(0, 0), (10, 0), (10, 10), (0, 10)]);
    let b = shape(&[(11, 0), (21, 0), (21, 10), (11, 10)]);
    assert_eq!(intersects(&a, &b), Ok(false));
}

#[test]
fn shape_inside_another_overlaps() {
    let outer = shape(&[(-10, -10), (10, -10), (10, 10), (-10, 10)]);
    let inner = shape(&[(1, 1), (2, 1), (1, 2)]);
    assert_eq!(intersects(&outer, &inner), Ok(true));
    assert_eq!(intersects(&inner, &outer), Ok(true));
}

#[test]
fn triangle_and_quadrilateral_that_miss_each_other() {
    let a = shape(&[(4, 11), (4, 5), (9, 9)]);
    let b = shape(&[(7, 7), (122, 7), (7, 3), (10, 2)]);
    assert_eq!(intersects(&a, &b), Ok(false));
    assert_eq!(gjk2d(&a, &b), Ok(false));
}

#[test]
fn vertex_order_does_not_matter() {
    let a = shape(&[(1, 1), (0, 0), (0, 1), (1, 0)]);
    let near = shape(&[(2, 1), (1, 0), (1, 1), (2, 0)]);
    let far = shape(&[(3, 1), (2, 0), (2, 1), (3, 0)]);
    assert_eq!(intersects(&a, &near), Ok(true));
    assert_eq!(intersects(&a, &far), Ok(false));
}

#[test]
fn exchanging_the_shapes_gives_the_same_answer() {
    let shapes = [
        unit_square(),
        shape(&[(2, 0), (3, 0), (3, 1), (2, 1)]),
        shape(&[(1, 0), (2, 0), (2, 1), (1, 1)]),
        shape(&[(4, 11), (4, 5), (9, 9)]),
        shape(&[(7, 7), (122, 7), (7, 3), (10, 2)]),
        shape(&[(0, 0)]),
        shape(&[(-3, 2), (5, 2)]),
        shape(&[(1, -4), (1, 6)]),
    ];
    for a in &shapes {
        for b in &shapes {
            assert_eq!(intersects(a, b), intersects(b, a));
        }
    }
}

#[test]
fn answer_does_not_depend_on_the_unit_of_length() {
    let shapes = [
        unit_square(),
        shape(&[(2, 0), (3, 0), (3, 1), (2, 1)]),
        shape(&[(1, 0), (2, 0), (2, 1), (1, 1)]),
        shape(&[(4, 11), (4, 5), (9, 9)]),
        shape(&[(7, 7), (122, 7), (7, 3), (10, 2)]),
    ];
    for a in &shapes {
        for b in &shapes {
            for k in [2, 3, 1000] {
                let finer_a: Vec<Point> = a.iter().map(|p| Point { x: k * p.x, y: k * p.y }).collect();
                let finer_b: Vec<Point> = b.iter().map(|p| Point { x: k * p.x, y: k * p.y }).collect();
                assert_eq!(intersects(&finer_a, &finer_b), intersects(a, b));
            }
        }
    }
}

#[test]
fn repeated_and_collinear_vertices_are_answered() {
    let diagonal = shape(&[(0, 0), (0, 0), (1, 1), (1, 1)]);
    assert_eq!(intersects(&diagonal, &shape(&[(2, 2), (3, 3)])), Ok(false));
    assert_eq!(intersects(&diagonal, &shape(&[(1, 1), (5, 5)])), Ok(true));
    assert_eq!(intersects(&diagonal, &shape(&[(0, 1), (1, 0)])), Ok(true));
    assert_eq!(intersects(&diagonal, &shape(&[(0, 1), (1, 2)])), Ok(false));
    assert_eq!(intersects(&shape(&[(2, 2), (2, 2)]), &shape(&[(2, 2)])), Ok(true));
    let line = shape(&[(-4, 0), (-2, 0), (0, 0), (2, 0), (4, 0)]);
    assert_eq!(intersects(&line, &shape(&[(1, 0)])), Ok(true));
    assert_eq!(intersects(&line, &shape(&[(5, 0)])), Ok(false));
    assert_eq!(intersects(&line, &shape(&[(1, 1), (1, -1)])), Ok(true));
    assert_eq!(intersects(&line, &shape(&[(1, 1), (3, 1)])), Ok(false));
}

#[test]
fn crossing_segments_overlap_and_parallel_ones_do_not() {
    let horizontal = shape(&[(-3, 2), (5, 2)]);
    let vertical = shape(&[(1, -4), (1, 6)]);
    let higher = shape(&[(-3, 3), (5, 3)]);
    assert_eq!(intersects(&horizontal, &vertical), Ok(true));
    assert_eq!(intersects(&horizontal, &higher), Ok(false));
}

#[test]
fn same_inputs_give_the_same_answer_again() {
    let a = unit_square();
    let b = shape(&[(1, 0), (2, 0), (2, 1), (1, 1)]);
    let c = shape(&[(2, 0), (3, 0), (3, 1), (2, 1)]);
    let first = intersects(&a, &b);
    let other = intersects(&a, &c);
    for _ in 0..100 {
        assert_eq!(intersects(&a, &b), first);
        assert_eq!(intersects(&a, &c), other);
    }
    assert_eq!(first, Ok(true));
    assert_eq!(other, Ok(false));
}

#[test]
fn gjk2d_agrees_with_intersects_on_shapes_in_range() {
    let a = unit_square();
    for b in [
        shape(&[(2, 0), (3, 0), (3, 1), (2, 1)]),
        shape(&[(1, 0), (2, 0), (2, 1), (1, 1)]),
        shape(&[(0, 0)]),
        shape(&[(-1, -1)]),
    ] {
        assert_eq!(gjk2d(&a, &b), intersects(&a, &b));
    }
}

#[test]
fn coordinates_at_the_limit_are_handled_exactly() {
    let l = COORD_LIMIT;
    let big = shape(&[(-l, -l), (l, -l), (l, l), (-l, l)]);
    assert_eq!(intersects(&big, &shape(&[(l, l), (l, l - 1), (l - 1, l)])), Ok(true));
    assert_eq!(intersects(&big, &shape(&[(l, l)])), Ok(true));
    let low = shape(&[(-l, -l), (-l + 1, -l), (-l, -l + 1)]);
    let high = shape(&[(l, l), (l - 1, l), (l, l - 1)]);
    assert_eq!(intersects(&low, &high), Ok(false));
    assert_eq!(intersects(&high, &low), Ok(false));
    // two thin triangles along the diagonals, one lattice step apart at the centre
    let left = shape(&[(-l, -l), (-l, l), (-1, 0)]);
    let right = shape(&[(l, -l), (l, l), (1, 0)]);
    assert_eq!(intersects(&left, &right), Ok(false));
    let reaching = shape(&[(l, -l), (l, l), (-1, 0)]);
    assert_eq!(intersects(&left, &reaching), Ok(true));
}

fn cross(p: (i128, i128), q: (i128, i128)) -> i128 {
    p.0 * q.1 - p.1 * q.0
}

fn origin_on_segment(p: (i128, i128), q: (i128, i128)) -> bool {
    cross(p, q) == 0 && p.0 * q.0 + p.1 * q.1 <= 0
}

fn origin_in_triangle(p: (i128, i128), q: (i128, i128), r: (i128, i128)) -> bool {
    let orientation = cross((q.0 - p.0, q.1 - p.1), (r.0 - p.0, r.1 - p.1));
    if orientation != 0 {
        let s = [cross(p, q), cross(q, r), cross(r, p)];
        s.iter().all(|v| *v >= 0) || s.iter().all(|v| *v <= 0)
    } else {
        origin_on_segment(p, q) || origin_on_segment(q, r) || origin_on_segment(r, p)
    }
}

/// Whether the hulls of the two point sets meet: some triangle of points of
/// their difference holds the origin.
fn hulls_meet(a: &[Point], b: &[Point]) -> bool {
    let mut m = Vec::new();
    for p in a {
        for q in b {
            m.push((p.x - q.x, p.y - q.y));
        }
    }
    for p in &m {
        for q in &m {
            for r in &m {
                if origin_in_triangle(*p, *q, *r) {
                    return true;
                }
            }
        }
    }
    false
}

fn next(state: &mut u64, span: u64) -> i128 {
    *state = state.wrapping_mul(6364136223846793005).wrapping_add(1442695040888963407);
    ((*state >> 33) % (2 * span + 1)) as i128 - span as i128
}

#[test]
fn answers_match_an_exhaustive_search_on_small_point_sets() {
    let mut state: u64 = 2024;
    let mut seen_true = 0;
    let mut seen_false = 0;
    for round in 0..3000 {
        let span = [1, 2, 4, 9][round % 4];
        let count_a = 1 + (next(&mut state, 2) + 2) as usize % 4;
        let count_b = 1 + (next(&mut state, 2) + 2) as usize % 4;
        let a: Vec<Point> = (0..count_a)
            .map(|_| Point { x: next(&mut state, span), y: next(&mut state, span) })
            .collect();
        let b: Vec<Point> = (0..count_b)
            .map(|_| Point { x: next(&mut state, span), y: next(&mut state, span) })
            .collect();
        let expected = hulls_meet(&a, &b);
        assert_eq!(intersects(&a, &b), Ok(expected));
        assert_eq!(intersects(&b, &a), Ok(expected));
        if expected {
            seen_true += 1;
        } else {
            seen_false += 1;
        }
    }
    assert!(seen_true > 100);
    assert!(seen_false > 100);
}
