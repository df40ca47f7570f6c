//! Overlap test for two convex shapes of the plane.
//!
//! A shape is a list of vertices with integer coordinates, in any order; what
//! is tested is whether the convex hulls of two such lists have a point in
//! common. The test is the Gilbert-Johnson-Keerthi search: it looks for the
//! origin in the Minkowski difference of the two shapes, of which it only
//! ever asks for support points, and keeps a simplex of at most three of them.
//!
//! All arithmetic is exact. The search is proved to end, without a cap on its
//! iterations, and to answer `true` exactly when the hulls meet; a line that
//! passes between the shapes exists exactly when it answers `false`.
//!
//! - [`vector`]: vectors of the plane, their sums, scalar and triple products.
//! - [`support`]: the furthest point of a shape along a direction, and the
//!   support point of the difference of two shapes.
//! - [`simplex`]: the simplex and its two update rules.
//! - [`gjk`]: the search itself, [`gjk::gjk2d`], behind the entry point
//!   [`gjk::intersects`].
//! - [`convex`], [`shape`]: what it means for two shapes to overlap and to be
//!   separated, and that exactly one of the two holds.
//! - [`hull`], [`search`]: the theory of the search, and why it ends.
//! - [`limits`]: the coordinate range in which nothing overflows.
//! - [`algebra`]: identities of the products.
//! - [`error`]: why a query is refused.

pub mod algebra;
pub mod convex;
pub mod error;
pub mod gjk;
pub mod hull;
pub mod limits;
pub mod search;
pub mod shape;
pub mod simplex;
pub mod support;
pub mod vector;
