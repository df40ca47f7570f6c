use gjk2d::simplex::Simplex;
use gjk2d::vector::Point;

fn simplex_of(points: &[Point]) -> Simplex {
    let mut s = Simplex::new();
    for p in points {
        s.push(*p);
    }
    s
}

fn points_of(s: &Simplex) -> Vec<Point> {
    let mut v = Vec::new();
    for i in 0..s.len() {
        v.push(s.get(i));
    }
    v
}

#[test]
fn new_simplex_is_empty() {
    let s = Simplex::new();
    assert_eq!(s.len(), 0);
}

#[test]
fn push_appends_in_order_up_to_three_points() {
    let mut s = Simplex::new();
    s.push(Point { x: 1, y: 2 });
    assert_eq!(points_of(&s), vec![Point { x: 1, y: 2 }]);
    s.push(Point { x: 3, y: 4 });
    s.push(Point { x: 5, y: 6 });
    assert_eq!(s.len(), 3);
    assert_eq!(
        points_of(&s),
        vec![Point { x: 1, y: 2 }, Point { x: 3, y: 4 }, Point { x: 5, y: 6 }]
    );
}

#[test]
fn clear_empties_the_simplex_for_reuse() {
    let mut s = simplex_of(&[Point { x: 1, y: 2 }, Point { x: 3, y: 4 }]);
    s.clear();
    assert_eq!(s.len(), 0);
    s.push(Point { x: 9, y: 9 });
    assert_eq!(points_of(&s), vec![Point { x: 9, y: 9 }]);
}

#[test]
fn refine_edge_keeps_both_points_when_origin_is_beyond_the_new_one() {
    // older (0, 1), newer (-2, -1): ab = (2, 2), ao = (2, 1), ab.ao = 6 > 0,
    // z = 2 * 1 - 2 * 2 = -2, direction = (2 * 2, -2 * 2)
    let mut s = simplex_of(&[Point { x: 0, y: 1 }, Point { x: -2, y: -1 }]);
    let d = s.refine_edge();
    assert_eq!(d, Point { x: 4, y: -4 });
    assert_eq!(points_of(&s), vec![Point { x: 0, y: 1 }, Point { x: -2, y: -1 }]);
}

#[test]
fn refine_edge_direction_is_perpendicular_to_the_edge_and_faces_the_origin() {
    let mut s = simplex_of(&[Point { x: -1, y: 1 }, Point { x: -1, y: -1 }]);
    let d = s.refine_edge();
    assert_eq!(d, Point { x: 4, y: 0 });
    assert_eq!(points_of(&s), vec![Point { x: -1, y: 1 }, Point { x: -1, y: -1 }]);
}

#[test]
fn refine_edge_drops_the_older_point_otherwise() {
    // older (3, 3), newer (1, 1): ab = (2, 2), ao = (-1, -1), ab.ao = -4
    let mut s = simplex_of(&[Point { x: 3, y: 3 }, Point { x: 1, y: 1 }]);
    let d = s.refine_edge();
    assert_eq!(d, Point { x: -1, y: -1 });
    assert_eq!(points_of(&s), vec![Point { x: 1, y: 1 }]);
}

#[test]
fn refine_edge_treats_a_zero_product_as_not_beyond() {
    // older (0, 2), newer (1, 0): ab = (-1, 2), ao = (-1, 0)... ab.ao = 1 > 0 would keep;
    // older (1, 5), newer (1, 0): ab = (0, 5), ao = (-1, 0), ab.ao = 0
    let mut s = simplex_of(&[Point { x: 1, y: 5 }, Point { x: 1, y: 0 }]);
    let d = s.refine_edge();
    assert_eq!(d, Point { x: -1, y: 0 });
    assert_eq!(points_of(&s), vec![Point { x: 1, y: 0 }]);
}

#[test]
fn refine_edge_gives_zero_direction_when_origin_is_on_the_edge() {
    // older (1, 1), newer (-3, -3): the origin lies on the segment
    let mut s = simplex_of(&[Point { x: 1, y: 1 }, Point { x: -3, y: -3 }]);
    let d = s.refine_edge();
    assert_eq!(d, Point { x: 0, y: 0 });
    assert_eq!(points_of(&s), vec![Point { x: 1, y: 1 }, Point { x: -3, y: -3 }]);
}

#[test]
fn refine_triangle_keeps_oldest_and_newest_when_origin_is_outside_their_edge() {
    let mut s =
        simplex_of(&[Point { x: 1, y: 1 }, Point { x: 3, y: 1 }, Point { x: 2, y: 3 }]);
    let d = s.refine_triangle();
    assert_eq!(d, Some(Point { x: -8, y: 4 }));
    assert_eq!(points_of(&s), vec![Point { x: 1, y: 1 }, Point { x: 2, y: 3 }]);
}

#[test]
fn refine_triangle_keeps_middle_and_newest_when_origin_is_outside_their_edge() {
    let mut s =
        simplex_of(&[Point { x: 3, y: 1 }, Point { x: 1, y: 1 }, Point { x: 2, y: 3 }]);
    let d = s.refine_triangle();
    assert_eq!(d, Some(Point { x: -8, y: 4 }));
    assert_eq!(points_of(&s), vec![Point { x: 1, y: 1 }, Point { x: 2, y: 3 }]);
}

#[test]
fn refine_triangle_reports_a_triangle_that_holds_the_origin() {
    let mut s =
        simplex_of(&[Point { x: 2, y: -1 }, Point { x: -2, y: -1 }, Point { x: 0, y: 3 }]);
    assert_eq!(s.refine_triangle(), None);
    assert_eq!(
        points_of(&s),
        vec![Point { x: 2, y: -1 }, Point { x: -2, y: -1 }, Point { x: 0, y: 3 }]
    );
}

#[test]
fn refine_triangle_counts_the_origin_on_an_edge_as_inside() {
    // the origin lies on the edge from (0, -1) to (0, 1)
    let mut s =
        simplex_of(&[Point { x: 0, y: 1 }, Point { x: -2, y: -1 }, Point { x: 0, y: -1 }]);
    assert_eq!(s.refine_triangle(), None);
}

#[test]
fn refine_triangle_counts_the_origin_at_the_newest_point_as_inside() {
    let mut s =
        simplex_of(&[Point { x: 4, y: 0 }, Point { x: 0, y: 4 }, Point { x: 0, y: 0 }]);
    assert_eq!(s.refine_triangle(), None);
}
