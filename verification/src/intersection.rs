//! Intersection tests and the record of a hit.

use crate::shape::{Point3, Rect, Shape};
use vstd::prelude::*;

verus! {

/// A test of whether `self` meets something of type `T`.
pub trait Intersection<T: ?Sized> {
    /// What [`Intersection::intersects`] answers.
    spec fn spec_intersects(&self, other: &T) -> bool;

    /// Whether `self` meets `other`.
    fn intersects(&self, other: &T) -> (hit: bool)
        ensures
            hit == self.spec_intersects(other),
    ;
}

impl Intersection<Point3> for Rect {
    /// A box meets a point that lies in it, faces included.
    open spec fn spec_intersects(&self, other: &Point3) -> bool {
        self.contains_point(*other)
    }

    fn intersects(&self, other: &Point3) -> (hit: bool) {
        other.x >= self.min.x && other.y >= self.min.y && other.z >= self.min.z && other.x
            <= self.max.x && other.y <= self.max.y && other.z <= self.max.z
    }
}

impl Intersection<Rect> for Rect {
    /// A box meets another when it holds one of the other's two corners.
    open spec fn spec_intersects(&self, other: &Rect) -> bool {
        self.contains_point(other.min) || self.contains_point(other.max)
    }

    fn intersects(&self, other: &Rect) -> (hit: bool) {
        self.intersects(&other.min) || self.intersects(&other.max)
    }
}

/// Where a ray met a shape.
#[derive(Debug)]
pub struct Inter<T> {
    /// The point that was hit.
    pub point: Point3,
    /// The surface normal there, turned against the ray.
    pub normal: Point3,
    /// Whether the ray came from outside the shape.
    pub front: bool,
    /// The shape that was hit.
    pub shape: T,
    /// The coordinate of the squared distance from the start of the ray to
    /// `point`: the smaller, the nearer.
    pub distance: i32,
}

/// A shape that a ray of type `R` can be tested against.
pub trait Traceable<R>: Shape {
    /// What [`Traceable::ray_intersection`] answers.
    spec fn spec_ray_intersection(&self, ray: &R) -> Option<Inter<&Self>>;

    /// The nearest point at which `ray` meets the shape, if it does. The
    /// hierarchy compares hits by their `distance` and takes the rest of
    /// the record as it is.
    fn ray_intersection(&self, ray: &R) -> (hit: Option<Inter<&Self>>)
        ensures
            hit == self.spec_ray_intersection(ray),
    ;
}

} // verus!
