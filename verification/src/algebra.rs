//! Identities of the scalar product, the cross product and the triple product.

use vstd::prelude::*;
use crate::vector::{Vec2, triple_product};

verus! {

/// The scalar product is symmetric.
pub proof fn lemma_dot_symmetric(a: Vec2, b: Vec2)
    ensures
        a.dot(b) == b.dot(a),
{
}

/// The scalar product distributes over a difference in its second argument.
pub proof fn lemma_dot_minus(d: Vec2, x: Vec2, y: Vec2)
    ensures
        d.dot(x.minus(y)) == d.dot(x) - d.dot(y),
{
    assert(d.x * (x.x - y.x) + d.y * (x.y - y.y) == (d.x * x.x + d.y * x.y) - (d.x * y.x + d.y
        * y.y)) by (nonlinear_arith);
}

/// Negating either argument negates the scalar product.
pub proof fn lemma_dot_negated(d: Vec2, x: Vec2)
    ensures
        d.negated().dot(x) == -d.dot(x),
        d.dot(x.negated()) == -d.dot(x),
{
    assert((-d.x) * x.x + (-d.y) * x.y == -(d.x * x.x + d.y * x.y)) by (nonlinear_arith);
    assert(d.x * (-x.x) + d.y * (-x.y) == -(d.x * x.x + d.y * x.y)) by (nonlinear_arith);
}

/// Only the zero vector has a zero scalar product with itself.
pub proof fn lemma_dot_self(v: Vec2)
    ensures
        v.dot(v) >= 0,
        v.dot(v) == 0 <==> v == Vec2::zero(),
{
    assert(v.x * v.x + v.y * v.y >= 0) by (nonlinear_arith);
    assert(v.x * v.x + v.y * v.y == 0 ==> v.x == 0 && v.y == 0) by (nonlinear_arith);
}

/// The cross product changes sign when its arguments are exchanged.
pub proof fn lemma_cross_swap(a: Vec2, b: Vec2)
    ensures
        a.cross(b) == -b.cross(a),
{
}

/// The scalar product of a triple product with `v` is a product of two cross
/// products.
pub proof fn lemma_triple_dot(a: Vec2, b: Vec2, c: Vec2, v: Vec2)
    ensures
        triple_product(a, b, c).dot(v) == a.cross(b) * c.cross(v),
{
    let z = a.cross(b);
    assert(((-z) * c.y) * v.x + (z * c.x) * v.y == z * (c.x * v.y - c.y * v.x))
        by (nonlinear_arith);
}

/// A triple product is perpendicular to its last argument.
pub proof fn lemma_triple_perpendicular(a: Vec2, b: Vec2, c: Vec2)
    ensures
        triple_product(a, b, c).dot(c) == 0,
{
    lemma_triple_dot(a, b, c, c);
    assert(c.x * c.y - c.y * c.x == 0) by (nonlinear_arith);
    assert(a.cross(b) * 0 == 0);
}

/// A product of three factors does not depend on their order.
proof fn lemma_mul_arrange(a: int, b: int, c: int)
    by (nonlinear_arith)
    ensures
        (a * b) * c == (c * b) * a,
        (a * b) * c == (c * a) * b,
        (a * b) * c == (a * c) * b,
{
}

/// A product with a difference.
proof fn lemma_mul_difference(a: int, b: int, c: int)
    by (nonlinear_arith)
    ensures
        (a - b) * c == a * c - b * c,
{
}

/// One coordinate of Cramer's rule: `(u x w) q == (q x w) u + (u x q) w`.
proof fn lemma_cramer_term(ux: int, uy: int, wx: int, wy: int, qx: int, qy: int)
    ensures
        (ux * wy - uy * wx) * qx == (qx * wy - qy * wx) * ux + (ux * qy - uy * qx) * wx,
{
    lemma_mul_difference(ux * wy, uy * wx, qx);
    lemma_mul_difference(qx * wy, qy * wx, ux);
    lemma_mul_difference(ux * qy, uy * qx, wx);
    lemma_mul_arrange(ux, wy, qx);
    lemma_mul_arrange(qy, wx, ux);
    lemma_mul_arrange(uy, wx, qx);
}

/// Cramer's rule without the division, for both coordinates.
proof fn lemma_cramer_coordinate(ux: int, uy: int, wx: int, wy: int, qx: int, qy: int)
    ensures
        (ux * wy - uy * wx) * qx == (qx * wy - qy * wx) * ux + (ux * qy - uy * qx) * wx,
        (ux * wy - uy * wx) * qy == (qx * wy - qy * wx) * uy + (ux * qy - uy * qx) * wy,
{
    lemma_cramer_term(ux, uy, wx, wy, qx, qy);
    // the second coordinate is the first with the roles of x and y exchanged
    lemma_cramer_term(uy, ux, wy, wx, qy, qx);
    lemma_mul_difference(uy * wx, ux * wy, qy);
    lemma_mul_difference(ux * wy, uy * wx, qy);
    lemma_mul_difference(qy * wx, qx * wy, uy);
    lemma_mul_difference(qx * wy, qy * wx, uy);
    lemma_mul_difference(uy * qx, ux * qy, wy);
    lemma_mul_difference(ux * qy, uy * qx, wy);
}

proof fn lemma_mul_push(k: int, fx: int, qx: int, fy: int, qy: int)
    by (nonlinear_arith)
    ensures
        k * (fx * qx + fy * qy) == fx * (k * qx) + fy * (k * qy),
{
}

proof fn lemma_mul_pull(f: int, a: int, x: int, b: int, y: int)
    by (nonlinear_arith)
    ensures
        f * (a * x + b * y) == a * (f * x) + b * (f * y),
{
}

proof fn lemma_mul_sum(a: int, p: int, q: int)
    by (nonlinear_arith)
    ensures
        a * (p + q) == a * p + a * q,
{
}

/// A linear form applied to `k * q == a * u + b * w`, coordinate by coordinate.
proof fn lemma_apply_form(
    k: int,
    a: int,
    b: int,
    fx: int,
    fy: int,
    qx: int,
    qy: int,
    ux: int,
    uy: int,
    wx: int,
    wy: int,
)
    requires
        k * qx == a * ux + b * wx,
        k * qy == a * uy + b * wy,
    ensures
        k * (fx * qx + fy * qy) == a * (fx * ux + fy * uy) + b * (fx * wx + fy * wy),
{
    lemma_mul_push(k, fx, qx, fy, qy);
    lemma_mul_pull(fx, a, ux, b, wx);
    lemma_mul_pull(fy, a, uy, b, wy);
    lemma_mul_sum(a, fx * ux, fy * uy);
    lemma_mul_sum(b, fx * wx, fy * wy);
}

/// Cramer's rule without the division: `q` in the basis `u`, `w`, seen
/// through the linear form `f`.
pub proof fn lemma_cramer(u: Vec2, w: Vec2, q: Vec2, f: Vec2)
    ensures
        u.cross(w) * f.dot(q) == q.cross(w) * f.dot(u) + u.cross(q) * f.dot(w),
{
    lemma_cramer_coordinate(u.x, u.y, w.x, w.y, q.x, q.y);
    lemma_apply_form(
        u.cross(w),
        q.cross(w),
        u.cross(q),
        f.x,
        f.y,
        q.x,
        q.y,
        u.x,
        u.y,
        w.x,
        w.y,
    );
}

/// Two vectors with a non-zero cross product span the plane: a linear form
/// that vanishes on both is zero.
pub proof fn lemma_form_vanishes(u: Vec2, w: Vec2, f: Vec2)
    requires
        u.cross(w) != 0,
        f.dot(u) == 0,
        f.dot(w) == 0,
    ensures
        f == Vec2::zero(),
{
    let ex = Vec2 { x: 1, y: 0 };
    let ey = Vec2 { x: 0, y: 1 };
    lemma_cramer(u, w, ex, f);
    lemma_cramer(u, w, ey, f);
    assert(f.dot(ex) == f.x) by (nonlinear_arith)
        requires
            f.dot(ex) == f.x * 1 + f.y * 0,
    ;
    assert(f.dot(ey) == f.y) by (nonlinear_arith)
        requires
            f.dot(ey) == f.x * 0 + f.y * 1,
    ;
    let k = u.cross(w);
    assert(k * f.x == 0 && k != 0 ==> f.x == 0) by (nonlinear_arith);
    assert(k * f.y == 0 && k != 0 ==> f.y == 0) by (nonlinear_arith);
}

/// `z * k` for `k == a * p + b * q`, with `z` moved onto the coefficients.
pub proof fn lemma_scale_combination(z: int, k: int, a: int, p: int, b: int, q: int)
    by (nonlinear_arith)
    requires
        k == a * p + b * q,
    ensures
        z * k == (z * a) * p + (z * b) * q,
{
}

/// A square is positive unless its root is zero.
pub proof fn lemma_square_positive(z: int)
    by (nonlinear_arith)
    requires
        z != 0,
    ensures
        z * z > 0,
{
}

/// The sign rules of a product.
pub proof fn lemma_product_sign(a: int, b: int)
    by (nonlinear_arith)
    ensures
        a > 0 && b > 0 ==> a * b > 0,
        a < 0 && b < 0 ==> a * b > 0,
        a > 0 && b < 0 ==> a * b < 0,
        a < 0 && b > 0 ==> a * b < 0,
        a == 0 || b == 0 <==> a * b == 0,
        a * b == b * a,
        (-a) * b == -(a * b),
        a * (-b) == -(a * b),
{
}

/// A multiple of a scalar product, with the factor moved onto the second
/// vector's coordinates.
pub proof fn lemma_dot_scaled(f: Vec2, w: int, p: Vec2)
    ensures
        w * f.dot(p) == f.x * (w * p.x) + f.y * (w * p.y),
{
    lemma_mul_push(w, f.x, p.x, f.y, p.y);
}

/// A product with a sum of three terms.
pub proof fn lemma_mul_sum3(f: int, a: int, b: int, c: int)
    by (nonlinear_arith)
    ensures
        f * (a + b + c) == f * a + f * b + f * c,
{
}

} // verus!
