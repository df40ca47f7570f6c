//! The simplex of the search: at most three points in a fixed buffer, and the
//! two rules that update it.

use vstd::prelude::*;
use crate::vector::{
    dot_fits, dot_product, fits, triple_cross_product, triple_fits, triple_product, Point, Vec2,
};
use crate::search::{edge_step, triangle_step};

verus! {

/// Up to three points, the oldest first and the most recent last.
pub struct Simplex {
    points: [Point; 3],
    len: usize,
}

impl View for Simplex {
    type V = Seq<Vec2>;

    closed spec fn view(&self) -> Seq<Vec2> {
        Seq::new(self.len as nat, |i: int| self.points@[i]@)
    }
}

impl Simplex {
    #[verifier::type_invariant]
    spec fn within_capacity(self) -> bool {
        self.len <= 3
    }

    /// The empty simplex.
    pub fn new() -> (s: Simplex)
        ensures
            s@ == Seq::<Vec2>::empty(),
    {
        let origin = Point { x: 0, y: 0 };
        Simplex { points: [origin, origin, origin], len: 0 }
    }

    /// The number of points held.
    pub fn len(&self) -> (n: usize)
        ensures
            n == self@.len(),
            n <= 3,
    {
        proof {
            use_type_invariant(self);
        }
        self.len
    }

    /// The point at place `i`, counted from the oldest.
    pub fn get(&self, i: usize) -> (p: Point)
        requires
            i < self@.len(),
        ensures
            p@ == self@[i as int],
    {
        proof {
            use_type_invariant(self);
        }
        self.points[i]
    }

    /// Adds `p` as the most recent point.
    pub fn push(&mut self, p: Point)
        requires
            old(self)@.len() < 3,
        ensures
            final(self)@ == old(self)@.push(p@),
    {
        proof {
            use_type_invariant(&*self);
        }
        self.points[self.len] = p;
        self.len = self.len + 1;
    }

    /// Removes every point.
    pub fn clear(&mut self)
        ensures
            final(self)@ == Seq::<Vec2>::empty(),
    {
        self.len = 0;
    }

    /// The update for two points. With `b` the older point and `a` the one
    /// just added: where the origin lies beyond `a` as seen from `b`, both
    /// stay and the result is perpendicular to the edge, towards the origin;
    /// otherwise `a` alone stays and the result leads from `a` to the origin.
    pub fn refine_edge(&mut self) -> (direction: Point)
        requires
            old(self)@.len() == 2,
            edge_fits(old(self)@[0], old(self)@[1]),
        ensures
            final(self)@ == edge_step(old(self)@[0], old(self)@[1]).simplex,
            direction@ == edge_step(old(self)@[0], old(self)@[1]).direction,
    {
        let a = self.get(1);
        let b = self.get(0);
        let ab = b.sub(a);
        let ao = a.neg();
        if 0 < dot_product(&ab, &ao) {
            let vector = triple_cross_product(&ab, &ao, &ab);
            self.clear();
            self.push(b);
            self.push(a);
            vector
        } else {
            self.clear();
            self.push(a);
            ao
        }
    }

    /// The update for three points. With `a` the point just added, `b` the
    /// one before it and `c` the oldest: where the origin lies strictly
    /// outside the edge from `a` to `c`, on the side away from `b`, the points
    /// `c` and `a` stay and the result is the outward normal of that edge. If
    /// not, the same is tried for the edge from `a` to `b`. If the origin lies
    /// outside neither, the triangle holds it: the result is `None` and the
    /// simplex stays as it is.
    pub fn refine_triangle(&mut self) -> (direction: Option<Point>)
        requires
            old(self)@.len() == 3,
            triangle_fits(old(self)@[0], old(self)@[1], old(self)@[2]),
        ensures
            match triangle_step(old(self)@[0], old(self)@[1], old(self)@[2]) {
                Some(t) => direction is Some && direction->0@ == t.direction && final(self)@
                    == t.simplex,
                None => direction is None && final(self)@ == old(self)@,
            },
    {
        let a = self.get(2);
        let b = self.get(1);
        let c = self.get(0);
        let ab = b.sub(a);
        let ac = c.sub(a);
        let ao = a.neg();
        let d = triple_cross_product(&ab, &ac, &ac);
        if 0 < dot_product(&d, &ao) {
            self.clear();
            self.push(c);
            self.push(a);
            Some(d)
        } else {
            let d = triple_cross_product(&ac, &ab, &ab);
            if 0 < dot_product(&d, &ao) {
                self.clear();
                self.push(b);
                self.push(a);
                Some(d)
            } else {
                None
            }
        }
    }
}

/// Every step of `edge_step(older, newer)` can be held in an `i128`.
pub open spec fn edge_fits(older: Vec2, newer: Vec2) -> bool {
    let ab = older.minus(newer);
    let ao = newer.negated();
    &&& fits(ab.x) && fits(ab.y)
    &&& fits(ao.x) && fits(ao.y)
    &&& dot_fits(ab, ao)
    &&& ab.dot(ao) > 0 ==> triple_fits(ab, ao, ab)
}

/// Every step of `triangle_step(oldest, middle, newest)` can be held in an
/// `i128`.
pub open spec fn triangle_fits(oldest: Vec2, middle: Vec2, newest: Vec2) -> bool {
    let ab = middle.minus(newest);
    let ac = oldest.minus(newest);
    let ao = newest.negated();
    let d1 = triple_product(ab, ac, ac);
    let d2 = triple_product(ac, ab, ab);
    &&& fits(ab.x) && fits(ab.y)
    &&& fits(ac.x) && fits(ac.y)
    &&& fits(ao.x) && fits(ao.y)
    &&& triple_fits(ab, ac, ac)
    &&& dot_fits(d1, ao)
    &&& d1.dot(ao) <= 0 ==> triple_fits(ac, ab, ab) && dot_fits(d2, ao)
}

} // verus!
