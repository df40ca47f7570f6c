//! The simplex search as a mathematical state machine: its two update rules,
//! what holds of every state it reaches, and why it cannot run for ever.

use vstd::prelude::*;
use crate::vector::{Vec2, triple_product};
use crate::algebra::{
    lemma_cramer, lemma_cross_swap, lemma_dot_minus, lemma_dot_negated, lemma_dot_self,
    lemma_form_vanishes, lemma_product_sign, lemma_scale_combination, lemma_square_positive,
    lemma_triple_dot,
};
use crate::hull::{
    excludes_origin, extreme, holds_origin, lemma_mean_not_excluded, lemma_origin_at_point,
    lemma_origin_in_triangle, lemma_origin_on_segment, on_boundary, origin_excluded,
};
use crate::support::{furthest_index, lemma_furthest_index};

verus! {

/// A state of the search: the simplex, oldest point first, and the direction
/// in which the next point is sought.
pub struct Search {
    pub simplex: Seq<Vec2>,
    pub direction: Vec2,
}

/// The update for a simplex of two points, `newer` having just been added.
/// Where the origin lies beyond `newer` as seen from `older`, both points stay
/// and the search turns perpendicular to the edge, towards the origin;
/// otherwise only `newer` stays and the search heads for the origin.
pub open spec fn edge_step(older: Vec2, newer: Vec2) -> Search {
    let ab = older.minus(newer);
    let ao = newer.negated();
    if ab.dot(ao) > 0 {
        Search { simplex: seq![older, newer], direction: triple_product(ab, ao, ab) }
    } else {
        Search { simplex: seq![newer], direction: ao }
    }
}

/// The update for a simplex of three points, `newest` having just been added.
/// `None` says that the triangle holds the origin. Otherwise the origin lies
/// strictly outside one of the two edges at `newest`; the first such edge, the
/// one to `oldest` being tried first, stays, with the outward normal of that
/// edge as the next direction.
pub open spec fn triangle_step(oldest: Vec2, middle: Vec2, newest: Vec2) -> Option<Search> {
    let ab = middle.minus(newest);
    let ac = oldest.minus(newest);
    let ao = newest.negated();
    let d1 = triple_product(ab, ac, ac);
    let d2 = triple_product(ac, ab, ab);
    if d1.dot(ao) > 0 {
        Some(Search { simplex: seq![oldest, newest], direction: d1 })
    } else if d2.dot(ao) > 0 {
        Some(Search { simplex: seq![middle, newest], direction: d2 })
    } else {
        None
    }
}

/// What holds of every state between two iterations, `m` being the point set
/// that is searched. A single point is a boundary point of `m` and the
/// direction leads from it to the origin. The two ends of an edge are distinct
/// boundary points, the direction is a normal of the edge, a non-zero
/// direction has the origin strictly on its side of the edge, and a zero
/// direction arises only where the hull of `m` holds the origin.
pub open spec fn search_inv(s: Search, m: Seq<Vec2>) -> bool {
    let d = s.direction;
    if s.simplex.len() == 1 {
        &&& on_boundary(s.simplex[0], m)
        &&& d == s.simplex[0].negated()
    } else if s.simplex.len() == 2 {
        let x = s.simplex[0];
        let y = s.simplex[1];
        &&& x != y
        &&& on_boundary(x, m)
        &&& on_boundary(y, m)
        &&& d.dot(x) == d.dot(y)
        &&& d != Vec2::zero() ==> d.dot(y) < 0
        &&& d == Vec2::zero() ==> holds_origin(m)
    } else {
        false
    }
}

/// How many of the first `k` points of `m` reach `level` along `d`.
pub open spec fn count_ahead(m: Seq<Vec2>, d: Vec2, level: int, k: nat) -> nat
    decreases k,
{
    if k == 0 {
        0
    } else {
        let rest = count_ahead(m, d, level, (k - 1) as nat);
        if d.dot(m[k - 1]) >= level {
            rest + 1
        } else {
            rest
        }
    }
}

/// A bound on the iterations that are left. It is zero where the next
/// iteration ends the search. For an edge it counts the points of `m` on the
/// origin's side of the edge, the edge included: each update cuts at least one
/// of them off.
pub open spec fn measure(s: Search, m: Seq<Vec2>) -> nat {
    let d = s.direction;
    if d == Vec2::zero() || excludes_origin(d, m) {
        0
    } else if s.simplex.len() == 1 {
        m.len() + 2
    } else {
        1 + count_ahead(m, d, d.dot(s.simplex[1]), m.len())
    }
}

proof fn lemma_count_bounded(m: Seq<Vec2>, d: Vec2, level: int, k: nat)
    ensures
        count_ahead(m, d, level, k) <= k,
    decreases k,
{
    if k > 0 {
        lemma_count_bounded(m, d, level, (k - 1) as nat);
    }
}

/// Where every point that reaches `level2` along `d2` reaches `level1` along
/// `d1`, the second count is at most the first, and is less from a point on
/// that is counted only in the first.
proof fn lemma_count_prefix(
    m: Seq<Vec2>,
    d1: Vec2,
    level1: int,
    d2: Vec2,
    level2: int,
    only_first: int,
    k: nat,
)
    requires
        k <= m.len(),
        forall|i: int|
            0 <= i < m.len() && d2.dot(#[trigger] m[i]) >= level2 ==> d1.dot(m[i]) >= level1,
        0 <= only_first < m.len(),
        d1.dot(m[only_first]) >= level1,
        d2.dot(m[only_first]) < level2,
    ensures
        count_ahead(m, d2, level2, k) <= count_ahead(m, d1, level1, k),
        only_first < k ==> count_ahead(m, d2, level2, k) < count_ahead(m, d1, level1, k),
    decreases k,
{
    if k > 0 {
        lemma_count_prefix(m, d1, level1, d2, level2, only_first, (k - 1) as nat);
    }
}

/// The zero vector has a zero scalar product and a zero cross product with
/// every vector.
proof fn lemma_zero_products(v: Vec2)
    ensures
        Vec2::zero().dot(v) == 0,
        v.dot(Vec2::zero()) == 0,
        Vec2::zero().cross(v) == 0,
        v.cross(Vec2::zero()) == 0,
        v.cross(v) == 0,
{
    let o = Vec2::zero();
    assert(o.x * v.x + o.y * v.y == 0) by (nonlinear_arith)
        requires
            o.x == 0,
            o.y == 0,
    ;
    assert(v.x * o.x + v.y * o.y == 0) by (nonlinear_arith)
        requires
            o.x == 0,
            o.y == 0,
    ;
    assert(o.x * v.y - o.y * v.x == 0) by (nonlinear_arith)
        requires
            o.x == 0,
            o.y == 0,
    ;
    assert(v.x * o.y - v.y * o.x == 0) by (nonlinear_arith)
        requires
            o.x == 0,
            o.y == 0,
    ;
}

/// A point off the line of an edge, as a normal of the edge tells, makes a
/// proper triangle with the edge.
proof fn lemma_apex_off_edge(d: Vec2, x: Vec2, y: Vec2, a: Vec2)
    requires
        x != y,
        d.dot(x) == d.dot(y),
        d.dot(a) != d.dot(y),
    ensures
        y.minus(a).cross(x.minus(a)) != 0,
{
    let u = y.minus(a);
    let w = x.minus(a);
    lemma_dot_minus(d, y, a);
    lemma_dot_minus(d, x, a);
    let delta = d.dot(u);
    if u.cross(w) == 0 {
        let ex = Vec2 { x: 1, y: 0 };
        let ey = Vec2 { x: 0, y: 1 };
        lemma_cramer(u, w, ex, d);
        lemma_cramer(u, w, ey, d);
        let gx = ex.cross(w) + u.cross(ex);
        let gy = ey.cross(w) + u.cross(ey);
        assert(gx * delta == 0) by (nonlinear_arith)
            requires
                u.cross(w) * d.dot(ex) == ex.cross(w) * delta + u.cross(ex) * delta,
                u.cross(w) == 0,
                gx == ex.cross(w) + u.cross(ex),
        ;
        assert(gy * delta == 0) by (nonlinear_arith)
            requires
                u.cross(w) * d.dot(ey) == ey.cross(w) * delta + u.cross(ey) * delta,
                u.cross(w) == 0,
                gy == ey.cross(w) + u.cross(ey),
        ;
        lemma_product_sign(gx, delta);
        lemma_product_sign(gy, delta);
        assert(gx == w.y - u.y) by (nonlinear_arith)
            requires
                gx == (ex.x * w.y - ex.y * w.x) + (u.x * ex.y - u.y * ex.x),
                ex.x == 1,
                ex.y == 0,
        ;
        assert(gy == u.x - w.x) by (nonlinear_arith)
            requires
                gy == (ey.x * w.y - ey.y * w.x) + (u.x * ey.y - u.y * ey.x),
                ey.x == 0,
                ey.y == 1,
        ;
    }
}

/// The arithmetic at the heart of `lemma_cap_shrinks`: the form `e`, maximal
/// at the kept end of the new edge, vanishes along that edge.
proof fn lemma_kept_end_is_tight(
    dd: int,
    al: int,
    be: int,
    h: int,
    dq: int,
    eu: int,
    ew: int,
    eq: int,
)
    by (nonlinear_arith)
    requires
        dd > 0,
        be <= 0,
        h > 0,
        dq < -h,
        dd * dq == al * (-h) + be * (-h),
        dd * eq == al * eu + be * ew,
        eq <= eu,
        ew <= eu,
        0 <= eu,
    ensures
        eu == 0,
{
}

/// Two forms that vanish along `u` agree in sign: scalar core.
proof fn lemma_same_side(k: int, cu: int, ew: int, ex: int, nx: int)
    by (nonlinear_arith)
    requires
        k * ex == cu * ew,
        nx == (-k) * cu,
        ew < 0,
        ex <= 0,
    ensures
        nx <= 0,
{
}

/// Where the update for two points keeps both, its direction is a normal of
/// the edge and does not lead away from the origin.
pub proof fn lemma_edge_normal(older: Vec2, newer: Vec2)
    ensures
        ({
            let ab = older.minus(newer);
            let ao = newer.negated();
            let dn = triple_product(ab, ao, ab);
            &&& dn.dot(ab) == 0
            &&& dn.dot(ao) == ab.cross(ao) * ab.cross(ao)
            &&& dn.dot(ao) >= 0
        }),
{
    let ab = older.minus(newer);
    let ao = newer.negated();
    lemma_triple_dot(ab, ao, ab, ab);
    lemma_triple_dot(ab, ao, ab, ao);
    lemma_zero_products(ab);
    lemma_product_sign(ab.cross(ao), ab.cross(ab));
    lemma_product_sign(ab.cross(ao), ab.cross(ao));
}

/// The direction of a triangle update is a normal of the kept edge and has
/// the dropped point strictly behind that edge.
pub proof fn lemma_new_normal(a: Vec2, kept: Vec2, dropped: Vec2)
    requires
        kept.minus(a).cross(dropped.minus(a)) != 0,
    ensures
        ({
            let dn = triple_product(dropped.minus(a), kept.minus(a), kept.minus(a));
            &&& dn.dot(kept) == dn.dot(a)
            &&& dn.dot(dropped) < dn.dot(a)
            &&& kept != a
        }),
{
    let u = kept.minus(a);
    let w = dropped.minus(a);
    let dn = triple_product(w, u, u);
    lemma_triple_dot(w, u, u, u);
    lemma_triple_dot(w, u, u, w);
    lemma_product_sign(u.cross(w), u.cross(w));
    lemma_dot_minus(dn, kept, a);
    lemma_dot_minus(dn, dropped, a);
    if kept == a {
        lemma_zero_products(w);
    }
}

/// A triangle update cuts nothing new in: unless the new direction already
/// cuts the origin off from `m`, a point of `m` on the origin's side of the
/// new edge was on the origin's side of the old one.
proof fn lemma_cap_shrinks(
    m: Seq<Vec2>,
    a: Vec2,
    kept: Vec2,
    dropped: Vec2,
    d: Vec2,
    q: Vec2,
)
    requires
        on_boundary(kept, m),
        extreme(a, d, m),
        m.contains(dropped),
        m.contains(q),
        d.dot(kept) == d.dot(dropped),
        d.dot(kept) < d.dot(a),
        kept.minus(a).cross(dropped.minus(a)) != 0,
        triple_product(dropped.minus(a), kept.minus(a), kept.minus(a)).dot(a) < 0,
        !excludes_origin(triple_product(dropped.minus(a), kept.minus(a), kept.minus(a)), m),
        triple_product(dropped.minus(a), kept.minus(a), kept.minus(a)).dot(q)
            >= triple_product(dropped.minus(a), kept.minus(a), kept.minus(a)).dot(a),
    ensures
        d.dot(q) >= d.dot(kept),
{
    let u = kept.minus(a);
    let w = dropped.minus(a);
    let dn = triple_product(w, u, u);
    let k = u.cross(w);
    if d.dot(q) < d.dot(kept) {
        let e = choose|e: Vec2| e != Vec2::zero() && extreme(kept, e, m);
        let qr = q.minus(a);
        // every scalar product in sight, relative to the apex
        lemma_dot_minus(e, q, a);
        lemma_dot_minus(e, kept, a);
        lemma_dot_minus(e, dropped, a);
        lemma_dot_minus(d, q, a);
        lemma_dot_minus(d, kept, a);
        lemma_dot_minus(d, dropped, a);
        lemma_dot_minus(dn, q, a);
        let h = d.dot(a) - d.dot(kept);
        let eu = e.dot(u);
        let ew = e.dot(w);
        // the new direction sees `q` through `u.cross(qr)` alone
        lemma_triple_dot(w, u, u, qr);
        lemma_cross_swap(w, u);
        let be = k * u.cross(qr);
        lemma_product_sign(k, u.cross(qr));
        let al = k * qr.cross(w);
        lemma_cramer(u, w, qr, d);
        lemma_cramer(u, w, qr, e);
        lemma_scale_combination(k, k * d.dot(qr), qr.cross(w), -h, u.cross(qr), -h);
        lemma_scale_combination(k, k * e.dot(qr), qr.cross(w), eu, u.cross(qr), ew);
        assert(k * (k * d.dot(qr)) == (k * k) * d.dot(qr)) by (nonlinear_arith);
        assert(k * (k * e.dot(qr)) == (k * k) * e.dot(qr)) by (nonlinear_arith);
        lemma_square_positive(k);
        // the kept point is extreme along `e`, and `e` is maximal at it among
        // `q`, the dropped point and the apex
        lemma_kept_end_is_tight(k * k, al, be, h, d.dot(qr), eu, ew, e.dot(qr));
        // so `e` vanishes along the kept edge; it cannot vanish at the dropped
        // point too
        if ew == 0 {
            lemma_form_vanishes(u, w, e);
        }
        // `e` and the new direction are then normals of the kept edge on the
        // same side, and nothing lies ahead of `e`
        assert forall|i: int| 0 <= i < m.len() implies dn.dot(#[trigger] m[i]) < 0 by {
            let x = m[i].minus(a);
            lemma_dot_minus(e, m[i], a);
            lemma_dot_minus(dn, m[i], a);
            lemma_cramer(u, w, x, e);
            lemma_triple_dot(w, u, u, x);
            lemma_same_side(k, u.cross(x), ew, e.dot(x), dn.dot(x));
        }
    }
}

/// The update for two points keeps `search_inv` and lowers `measure`.
pub proof fn lemma_edge_step(m: Seq<Vec2>, s: Search, c: Vec2)
    requires
        search_inv(s, m),
        s.simplex.len() == 1,
        s.direction != Vec2::zero(),
        extreme(c, s.direction, m),
        s.direction.dot(c) >= 0,
    ensures
        search_inv(edge_step(s.simplex[0], c), m),
        measure(edge_step(s.simplex[0], c), m) < measure(s, m),
{
    let p = s.simplex[0];
    let ab = p.minus(c);
    let ao = c.negated();
    // p.dot(c) <= 0, and ab.dot(ao) == c.dot(c) - p.dot(c)
    lemma_dot_negated(p, c);
    lemma_dot_negated(ab, c);
    lemma_dot_minus(c, p, c);
    lemma_dot_self(c);
    if ab.dot(ao) > 0 {
        let dn = triple_product(ab, ao, ab);
        let k = ab.cross(ao);
        // dn.dot(p) == dn.dot(c) == -(k * k)
        lemma_edge_normal(p, c);
        lemma_dot_minus(dn, p, c);
        lemma_dot_negated(dn, c);
        lemma_product_sign(k, k);
        if k == 0 {
            // the direction vanishes, and the origin lies between p and c
            assert((-k) * ab.y == 0 && k * ab.x == 0) by (nonlinear_arith)
                requires
                    k == 0,
            ;
            assert(ab.cross(ao) == c.cross(p)) by (nonlinear_arith)
                requires
                    ab.cross(ao) == (p.x - c.x) * (-c.y) - (p.y - c.y) * (-c.x),
                    c.cross(p) == c.x * p.y - c.y * p.x,
            ;
            lemma_origin_on_segment(m, p, c);
        }
        lemma_count_bounded(m, dn, dn.dot(c), m.len());
    }
    // otherwise c.dot(c) <= p.dot(c) <= 0: c is the origin, and so is the next
    // direction
}

/// The measure after a triangle update that keeps `kept` and drops `dropped`.
proof fn lemma_triangle_measure(m: Seq<Vec2>, s: Search, c: Vec2, kept: Vec2, dropped: Vec2)
    requires
        search_inv(s, m),
        s.simplex.len() == 2,
        s.direction != Vec2::zero(),
        extreme(c, s.direction, m),
        s.direction.dot(c) >= 0,
        (kept == s.simplex[0] && dropped == s.simplex[1]) || (kept == s.simplex[1] && dropped
            == s.simplex[0]),
        kept.minus(c).cross(dropped.minus(c)) != 0,
        triple_product(dropped.minus(c), kept.minus(c), kept.minus(c)).dot(c.negated()) > 0,
    ensures
        ({
            let t = Search {
                simplex: seq![kept, c],
                direction: triple_product(dropped.minus(c), kept.minus(c), kept.minus(c)),
            };
            search_inv(t, m) && measure(t, m) < measure(s, m)
        }),
{
    let d = s.direction;
    let y = s.simplex[1];
    let dn = triple_product(dropped.minus(c), kept.minus(c), kept.minus(c));
    // dn is a normal of the new edge, with the dropped point behind it and the
    // origin strictly ahead
    lemma_new_normal(c, kept, dropped);
    lemma_dot_negated(dn, c);
    if !excludes_origin(dn, m) {
        // what lies ahead of the new edge lay ahead of the old one, and the
        // dropped point no longer does
        assert forall|i: int| 0 <= i < m.len() && dn.dot(#[trigger] m[i]) >= dn.dot(c) implies d.dot(
            m[i],
        ) >= d.dot(y) by {
            lemma_cap_shrinks(m, c, kept, dropped, d, m[i]);
        }
        let only_first = choose|i: int| 0 <= i < m.len() && m[i] == dropped;
        lemma_count_prefix(m, d, d.dot(y), dn, dn.dot(c), only_first, m.len());
    }
}

/// The update for three points either finds that the hull of `m` holds the
/// origin, or keeps `search_inv` and lowers `measure`.
pub proof fn lemma_triangle_step(m: Seq<Vec2>, s: Search, c: Vec2)
    requires
        search_inv(s, m),
        s.simplex.len() == 2,
        s.direction != Vec2::zero(),
        extreme(c, s.direction, m),
        s.direction.dot(c) >= 0,
    ensures
        match triangle_step(s.simplex[0], s.simplex[1], c) {
            None => holds_origin(m),
            Some(t) => search_inv(t, m) && measure(t, m) < measure(s, m),
        },
{
    let x = s.simplex[0];
    let y = s.simplex[1];
    let d = s.direction;
    let ab = y.minus(c);
    let ac = x.minus(c);
    let ao = c.negated();
    lemma_apex_off_edge(d, x, y, c);
    lemma_cross_swap(ac, ab);
    let d1 = triple_product(ab, ac, ac);
    let d2 = triple_product(ac, ab, ab);
    if d1.dot(ao) > 0 {
        lemma_triangle_measure(m, s, c, x, y);
    } else if d2.dot(ao) > 0 {
        lemma_triangle_measure(m, s, c, y, x);
    } else {
        lemma_origin_in_triangle(m, x, y, c, d);
    }
}

/// A search whose direction has vanished has found the origin.
pub proof fn lemma_zero_direction(m: Seq<Vec2>, s: Search)
    requires
        search_inv(s, m),
        s.direction == Vec2::zero(),
    ensures
        holds_origin(m),
{
    if s.simplex.len() == 1 {
        // the single point is the origin
        lemma_origin_at_point(m);
    }
}

/// Along every direction a list with a point has an extreme point.
proof fn lemma_extreme_exists(m: Seq<Vec2>, d: Vec2) -> (c: Vec2)
    requires
        m.len() > 0,
    ensures
        extreme(c, d, m),
{
    lemma_furthest_index(m, d);
    let i = furthest_index(m, d);
    m[i]
}

/// The search, carried on from any state that meets `search_inv`, ends: with
/// a line that cuts the origin off from `m`, or with weights that show the
/// origin in the hull of `m`.
proof fn lemma_search_decides(m: Seq<Vec2>, s: Search)
    requires
        m.len() > 0,
        search_inv(s, m),
    ensures
        origin_excluded(m) || holds_origin(m),
    decreases measure(s, m),
{
    let d = s.direction;
    if d == Vec2::zero() {
        lemma_zero_direction(m, s);
    } else {
        let c = lemma_extreme_exists(m, d);
        if d.dot(c) < 0 {
            // no point of m reaches the origin along d
            assert(excludes_origin(d, m));
        } else if s.simplex.len() == 1 {
            lemma_edge_step(m, s, c);
            lemma_search_decides(m, edge_step(s.simplex[0], c));
        } else {
            lemma_triangle_step(m, s, c);
            match triangle_step(s.simplex[0], s.simplex[1], c) {
                None => {},
                Some(t) => {
                    lemma_search_decides(m, t);
                },
            }
        }
    }
}

/// Of a finite set of the plane exactly one holds: its hull holds the origin,
/// or a line through the origin has the whole set strictly on one side.
pub proof fn lemma_origin_decided(m: Seq<Vec2>)
    ensures
        holds_origin(m) == !origin_excluded(m),
{
    if m.len() == 0 {
        assert(excludes_origin(Vec2::zero(), m));
    } else {
        let seed = Vec2 { x: 0, y: 1 };
        let p = lemma_extreme_exists(m, seed);
        lemma_search_decides(m, Search { simplex: seq![p], direction: p.negated() });
    }
    if holds_origin(m) {
        lemma_mean_not_excluded(m);
    }
}

} // verus!
