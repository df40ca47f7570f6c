use gjk2d::error::GjkError;
use gjk2d::support::{furthest_point, support};
use gjk2d::vector::Point;

fn unit_square() -> Vec<Point> {
    vec![
        Point { x: 0, y: 0 },
        Point { x: 1, y: 0 },
        Point { x: 1, y: 1 },
        Point { x: 0, y: 1 },
    ]
}

#[test]
fn furthest_point_maximises_the_projection() {
    let square = unit_square();
    assert_eq!(furthest_point(&square, &Point { x: 1, y: 1 }), Ok(Point { x: 1, y: 1 }));
    assert_eq!(furthest_point(&square, &Point { x: -1, y: -1 }), Ok(Point { x: 0, y: 0 }));
    assert_eq!(furthest_point(&square, &Point { x: 2, y: -1 }), Ok(Point { x: 1, y: 0 }));
    assert_eq!(furthest_point(&square, &Point { x: -3, y: 1 }), Ok(Point { x: 0, y: 1 }));
}

#[test]
fn furthest_point_returns_first_of_equal_projections() {
    let points = vec![Point { x: 1, y: 5 }, Point { x: 3, y: 5 }, Point { x: 2, y: 5 }];
    assert_eq!(furthest_point(&points, &Point { x: 0, y: 1 }), Ok(Point { x: 1, y: 5 }));
    let square = unit_square();
    assert_eq!(furthest_point(&square, &Point { x: 0, y: 1 }), Ok(Point { x: 1, y: 1 }));
    assert_eq!(furthest_point(&square, &Point { x: 0, y: -1 }), Ok(Point { x: 0, y: 0 }));
    assert_eq!(furthest_point(&square, &Point { x: 1, y: 0 }), Ok(Point { x: 1, y: 0 }));
}

#[test]
fn furthest_point_along_the_zero_vector_is_the_first_point() {
    let points = vec![Point { x: 4, y: 4 }, Point { x: 9, y: 9 }, Point { x: -2, y: 0 }];
    assert_eq!(furthest_point(&points, &Point { x: 0, y: 0 }), Ok(Point { x: 4, y: 4 }));
}

#[test]
fn furthest_point_later_point_wins_only_when_strictly_further() {
    let points = vec![
        Point { x: 0, y: 0 },
        Point { x: 2, y: 2 },
        Point { x: 2, y: 2 },
        Point { x: 3, y: 1 },
        Point { x: 3, y: 2 },
    ];
    assert_eq!(furthest_point(&points, &Point { x: 1, y: 1 }), Ok(Point { x: 3, y: 2 }));
    assert_eq!(furthest_point(&points[..4], &Point { x: 1, y: 1 }), Ok(Point { x: 2, y: 2 }));
}

#[test]
fn furthest_point_of_a_single_point() {
    let points = vec![Point { x: -7, y: 3 }];
    assert_eq!(furthest_point(&points, &Point { x: 5, y: 5 }), Ok(Point { x: -7, y: 3 }));
}

#[test]
fn furthest_point_of_nothing_is_invalid_input() {
    let points: Vec<Point> = Vec::new();
    assert_eq!(furthest_point(&points, &Point { x: 0, y: 1 }), Err(GjkError::InvalidInput));
}

#[test]
fn support_is_difference_of_opposite_furthest_points() {
    let a = unit_square();
    let b = vec![
        Point { x: 2, y: 0 },
        Point { x: 3, y: 0 },
        Point { x: 3, y: 1 },
        Point { x: 2, y: 1 },
    ];
    // furthest of a along (0, 1) is (1, 1); furthest of b along (0, -1) is (2, 0)
    assert_eq!(support(&a, &b, &Point { x: 0, y: 1 }), Ok(Point { x: -1, y: 1 }));
    // furthest of a along (1, -1) is (1, 0); furthest of b along (-1, 1) is (2, 1)
    assert_eq!(support(&a, &b, &Point { x: 1, y: -1 }), Ok(Point { x: -1, y: -1 }));
    // furthest of a along (4, 0) is (1, 0); furthest of b along (-4, 0) is (2, 0)
    assert_eq!(support(&a, &b, &Point { x: 4, y: 0 }), Ok(Point { x: -1, y: 0 }));
}

#[test]
fn support_differs_from_its_direction_argument() {
    let a = vec![Point { x: 10, y: 0 }, Point { x: 0, y: 10 }];
    let b = vec![Point { x: 1, y: 1 }];
    let direction = Point { x: 1, y: 0 };
    assert_eq!(support(&a, &b, &direction), Ok(Point { x: 9, y: -1 }));
}

#[test]
fn support_of_an_empty_shape_is_invalid_input() {
    let a = unit_square();
    let none: Vec<Point> = Vec::new();
    let d = Point { x: 0, y: 1 };
    assert_eq!(support(&none, &a, &d), Err(GjkError::InvalidInput));
    assert_eq!(support(&a, &none, &d), Err(GjkError::InvalidInput));
    assert_eq!(support(&none, &none, &d), Err(GjkError::InvalidInput));
}
