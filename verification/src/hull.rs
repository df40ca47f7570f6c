//! A finite point set and the origin: when a line cuts the origin off from
//! the set, and three ways to see that none does.

use vstd::prelude::*;
use crate::vector::{Vec2, triple_product};
use crate::algebra::{
    lemma_cramer, lemma_dot_minus, lemma_dot_negated, lemma_dot_scaled,
    lemma_dot_self, lemma_mul_sum3, lemma_product_sign, lemma_scale_combination,
    lemma_square_positive, lemma_triple_dot,
};

verus! {

/// Every point of `m` lies strictly on the negative side of the line through
/// the origin with normal `d`.
pub open spec fn excludes_origin(d: Vec2, m: Seq<Vec2>) -> bool {
    forall|k: int| 0 <= k < m.len() ==> d.dot(#[trigger] m[k]) < 0
}

/// The origin lies outside the convex hull of `m`: some line through it has
/// all of `m` strictly on one side.
pub open spec fn origin_excluded(m: Seq<Vec2>) -> bool {
    exists|d: Vec2| excludes_origin(d, m)
}

/// `p` is a point of `m` that no point of `m` exceeds along `d`.
pub open spec fn extreme(p: Vec2, d: Vec2, m: Seq<Vec2>) -> bool {
    &&& m.contains(p)
    &&& forall|k: int| 0 <= k < m.len() ==> d.dot(#[trigger] m[k]) <= d.dot(p)
}

/// `p` is extreme along some non-zero direction.
pub open spec fn on_boundary(p: Vec2, m: Seq<Vec2>) -> bool {
    exists|e: Vec2| e != Vec2::zero() && extreme(p, e, m)
}

/// With the weights `wi`, `wj`, `wk` on the points at `i`, `j`, `k` of `m`,
/// none of them negative and not all zero, the weighted sum is the origin.
pub open spec fn origin_mean(
    m: Seq<Vec2>,
    i: int,
    j: int,
    k: int,
    wi: int,
    wj: int,
    wk: int,
) -> bool {
    &&& 0 <= i < m.len() && 0 <= j < m.len() && 0 <= k < m.len()
    &&& wi >= 0 && wj >= 0 && wk >= 0
    &&& wi + wj + wk > 0
    &&& wi * m[i].x + wj * m[j].x + wk * m[k].x == 0
    &&& wi * m[i].y + wj * m[j].y + wk * m[k].y == 0
}

/// The origin lies in the convex hull of `m`: it is a weighted mean of three
/// points of `m`, which need not differ. In the plane three points are
/// enough.
pub open spec fn holds_origin(m: Seq<Vec2>) -> bool {
    exists|i: int, j: int, k: int, wi: int, wj: int, wk: int|
        origin_mean(m, i, j, k, wi, wj, wk)
}

/// No line cuts the origin off from a set whose hull holds it.
pub proof fn lemma_mean_not_excluded(m: Seq<Vec2>)
    requires
        holds_origin(m),
    ensures
        !origin_excluded(m),
{
    let (i, j, k, wi, wj, wk) = choose|i: int, j: int, k: int, wi: int, wj: int, wk: int|
        origin_mean(m, i, j, k, wi, wj, wk);
    assert forall|f: Vec2| !excludes_origin(f, m) by {
        if excludes_origin(f, m) {
            // the weighted sum of the three values of `f` is zero, yet none of
            // them is and some weight is positive
            let fi = f.dot(m[i]);
            let fj = f.dot(m[j]);
            let fk = f.dot(m[k]);
            lemma_dot_scaled(f, wi, m[i]);
            lemma_dot_scaled(f, wj, m[j]);
            lemma_dot_scaled(f, wk, m[k]);
            lemma_mul_sum3(f.x, wi * m[i].x, wj * m[j].x, wk * m[k].x);
            lemma_mul_sum3(f.y, wi * m[i].y, wj * m[j].y, wk * m[k].y);
            lemma_product_sign(wi, fi);
            lemma_product_sign(wj, fj);
            lemma_product_sign(wk, fk);
        }
    }
}

/// The hull of a set that holds the origin holds it.
pub proof fn lemma_origin_at_point(m: Seq<Vec2>)
    requires
        m.contains(Vec2::zero()),
    ensures
        holds_origin(m),
{
    let i = choose|i: int| 0 <= i < m.len() && m[i] == Vec2::zero();
    assert(origin_mean(m, i, i, i, 1, 0, 0));
}

/// The hull of a set with two points on opposite rays from the origin holds
/// the origin.
pub proof fn lemma_origin_on_segment(m: Seq<Vec2>, p: Vec2, c: Vec2)
    requires
        m.contains(p),
        m.contains(c),
        c.cross(p) == 0,
        p.dot(c) <= 0,
        c != Vec2::zero(),
    ensures
        holds_origin(m),
{
    let ip = choose|i: int| 0 <= i < m.len() && m[i] == p;
    let ic = choose|i: int| 0 <= i < m.len() && m[i] == c;
    let wp = c.dot(c);
    let wc = -p.dot(c);
    let k = c.cross(p);
    lemma_dot_self(c);
    assert(wp * p.x + wc * c.x == -(c.y * k)) by (nonlinear_arith)
        requires
            wp == c.x * c.x + c.y * c.y,
            wc == -(p.x * c.x + p.y * c.y),
            k == c.x * p.y - c.y * p.x,
    ;
    assert(wp * p.y + wc * c.y == c.x * k) by (nonlinear_arith)
        requires
            wp == c.x * c.x + c.y * c.y,
            wc == -(p.x * c.x + p.y * c.y),
            k == c.x * p.y - c.y * p.x,
    ;
    assert(origin_mean(m, ip, ic, ic, wp, wc, 0));
}

/// The weight that is left for the apex of a triangle is positive.
proof fn lemma_apex_weight(zz: int, wb: int, wc: int, t: int, h: int)
    by (nonlinear_arith)
    requires
        zz > 0,
        wb >= 0,
        wc >= 0,
        t >= 0,
        h > 0,
        zz * (-t) == wb * (-h - t) + wc * (-h - t),
    ensures
        zz - wb - wc > 0,
{
}

/// The weights of the origin in a triangle, one coordinate at a time.
proof fn lemma_weights_balance(zz: int, wb: int, wc: int, a: int, y: int, x: int)
    by (nonlinear_arith)
    requires
        zz * (-a) == wb * (y - a) + wc * (x - a),
    ensures
        (zz - wb - wc) * a + wb * y + wc * x == 0,
{
}

/// The hull of a set with three points whose triangle holds the origin holds
/// it: the origin lies beyond the edge `x y` towards `a`, as `d` witnesses,
/// and on the inner side of the two edges at `a`.
pub proof fn lemma_origin_in_triangle(m: Seq<Vec2>, x: Vec2, y: Vec2, a: Vec2, d: Vec2)
    requires
        m.contains(x),
        m.contains(y),
        m.contains(a),
        d.dot(x) == d.dot(y),
        d.dot(y) < 0,
        d.dot(a) >= 0,
        y.minus(a).cross(x.minus(a)) != 0,
        triple_product(y.minus(a), x.minus(a), x.minus(a)).dot(a.negated()) <= 0,
        triple_product(x.minus(a), y.minus(a), y.minus(a)).dot(a.negated()) <= 0,
    ensures
        holds_origin(m),
{
    let ab = y.minus(a);
    let ac = x.minus(a);
    let ao = a.negated();
    let z = ab.cross(ac);
    let wb = z * ao.cross(ac);
    let wc = z * ab.cross(ao);
    // the weights of the two ends of the old edge are not negative
    lemma_triple_dot(ab, ac, ac, ao);
    lemma_triple_dot(ac, ab, ab, ao);
    lemma_product_sign(z, ac.cross(ao));
    lemma_product_sign(z, ab.cross(ao));
    lemma_square_positive(z);
    // Cramer's rule in the basis ab, ac, seen through any linear form
    assert forall|g: Vec2|
        (z * z) * (-g.dot(a)) == wb * (g.dot(y) - g.dot(a)) + wc * (g.dot(x) - g.dot(
            a,
        )) by {
        lemma_cramer(ab, ac, ao, g);
        lemma_scale_combination(z, z * g.dot(ao), ao.cross(ac), g.dot(ab), ab.cross(ao), g.dot(ac));
        assert(z * (z * g.dot(ao)) == (z * z) * g.dot(ao)) by (nonlinear_arith);
        lemma_dot_negated(g, a);
        lemma_dot_minus(g, y, a);
        lemma_dot_minus(g, x, a);
    }
    // seen through `d` it leaves a positive weight for the apex; seen through
    // the two coordinates it says that the weighted points sum to the origin
    let ex = Vec2 { x: 1, y: 0 };
    let ey = Vec2 { x: 0, y: 1 };
    assert forall|v: Vec2| ex.dot(v) == v.x && ey.dot(v) == v.y by {}
    let zz = z * z;
    assert(zz * (-d.dot(a)) == wb * (d.dot(y) - d.dot(a)) + wc * (d.dot(x) - d.dot(a)));
    assert(zz * (-ex.dot(a)) == wb * (ex.dot(y) - ex.dot(a)) + wc * (ex.dot(x) - ex.dot(a)));
    assert(zz * (-ey.dot(a)) == wb * (ey.dot(y) - ey.dot(a)) + wc * (ey.dot(x) - ey.dot(a)));
    lemma_apex_weight(zz, wb, wc, d.dot(a), -d.dot(y));
    lemma_weights_balance(zz, wb, wc, a.x, y.x, x.x);
    lemma_weights_balance(zz, wb, wc, a.y, y.y, x.y);
    let ia = choose|i: int| 0 <= i < m.len() && m[i] == a;
    let iy = choose|i: int| 0 <= i < m.len() && m[i] == y;
    let ix = choose|i: int| 0 <= i < m.len() && m[i] == x;
    assert(origin_mean(m, ia, iy, ix, zz - wb - wc, wb, wc));
}

} // verus!
