//! The integer core of a path tracer: the bounding volume hierarchy, the
//! order and containment of axis-aligned boxes, the image surface, and the
//! byte formats that go in and out.
//!
//! Numbers that a renderer computes in IEEE-754 single precision appear here
//! as [`coord`] values, integers that are ordered as the numbers are.
//! Everything this crate decides about them depends on their order alone,
//! or, where a box is drawn, on their whole part. The arithmetic of rays and
//! surfaces is the caller's: it reaches the hierarchy through the traits
//! [`shape::Shape`], [`intersection::Traceable`] and
//! [`intersection::Intersection`].
//!
//! The traits pair every method with a specification function of the same
//! meaning, which the contracts of this crate speak of. The pairing is
//! checked for implementations that are verified with the crate. An
//! implementation in plain Rust has to supply the specification functions
//! as ordinary methods, which are never called; the plain choice is to
//! forward to the method they describe.
//!
//! - [`coord`]: coordinates and the bit patterns they stand for.
//! - [`shape`]: points, boxes, and what a shape tells the hierarchy.
//! - [`intersection`]: intersection tests and the record of a hit.
//! - [`order`]: the order of shapes along an axis.
//! - [`nearest`]: the nearest of several hits and the exhaustive search.
//! - [`bvh`]: the hierarchy, its construction and its traversal.
//! - [`trace`]: the bookkeeping of a light path.
//! - [`canvas`]: pixels, the image surface, drawing, and the PPM format.
//! - [`texture`]: texel grids and wrapping rules.
//! - [`stl`]: binary STL meshes.

pub mod bvh;
pub mod canvas;
pub mod coord;
pub mod intersection;
pub mod nearest;
pub mod order;
pub mod shape;
pub mod stl;
pub mod texture;
pub mod trace;
