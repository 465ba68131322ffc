//! Points, axis-aligned boxes, and what a shape must tell the hierarchy.

use crate::coord::{INFINITY, NEG_INFINITY};
use vstd::prelude::*;

verus! {

/// A point in 3-space, each component a coordinate.
#[derive(Clone, Copy, Debug, PartialEq, Eq, Structural)]
pub struct Point3 {
    pub x: i32,
    pub y: i32,
    pub z: i32,
}

impl Point3 {
    pub fn new(x: i32, y: i32, z: i32) -> (p: Point3)
        ensures
            p == (Point3 { x, y, z }),
    {
        Point3 { x, y, z }
    }

    /// The point whose three components all hold `v`.
    pub fn splat(v: i32) -> (p: Point3)
        ensures
            p == (Point3 { x: v, y: v, z: v }),
    {
        Point3 { x: v, y: v, z: v }
    }

    /// Component-wise minimum.
    pub open spec fn spec_min(self, o: Point3) -> Point3 {
        Point3 {
            x: if self.x <= o.x { self.x } else { o.x },
            y: if self.y <= o.y { self.y } else { o.y },
            z: if self.z <= o.z { self.z } else { o.z },
        }
    }

    /// Component-wise maximum.
    pub open spec fn spec_max(self, o: Point3) -> Point3 {
        Point3 {
            x: if self.x >= o.x { self.x } else { o.x },
            y: if self.y >= o.y { self.y } else { o.y },
            z: if self.z >= o.z { self.z } else { o.z },
        }
    }

    /// Whether every component of `self` is at most that of `o`.
    pub open spec fn le(self, o: Point3) -> bool {
        self.x <= o.x && self.y <= o.y && self.z <= o.z
    }

    pub fn min(self, o: Point3) -> (m: Point3)
        ensures
            m == self.spec_min(o),
    {
        Point3 {
            x: if self.x <= o.x { self.x } else { o.x },
            y: if self.y <= o.y { self.y } else { o.y },
            z: if self.z <= o.z { self.z } else { o.z },
        }
    }

    pub fn max(self, o: Point3) -> (m: Point3)
        ensures
            m == self.spec_max(o),
    {
        Point3 {
            x: if self.x >= o.x { self.x } else { o.x },
            y: if self.y >= o.y { self.y } else { o.y },
            z: if self.z >= o.z { self.z } else { o.z },
        }
    }
}

/// An axis-aligned box given by two corners.
#[derive(Clone, Copy, Debug, PartialEq, Eq, Structural)]
pub struct Rect {
    pub min: Point3,
    pub max: Point3,
}

/// What the hierarchy asks of a shape: where to sort it, and a box around it.
pub trait Shape {
    /// What [`Shape::position`] answers.
    spec fn spec_position(&self) -> Point3;

    /// What [`Shape::bounding_box`] answers.
    spec fn spec_bounding_box(&self) -> Rect;

    /// The point by which the shape is ordered along an axis.
    fn position(&self) -> (p: Point3)
        ensures
            p == self.spec_position(),
    ;

    /// A box that holds the whole shape.
    fn bounding_box(&self) -> (b: Rect)
        ensures
            b == self.spec_bounding_box(),
    ;
}

impl Rect {
    /// Whether `min` lies at or below `max` on every axis.
    pub open spec fn canonical(&self) -> bool {
        self.min.le(self.max)
    }

    /// Whether `p` lies in the box, faces included.
    pub open spec fn contains_point(&self, p: Point3) -> bool {
        self.min.le(p) && p.le(self.max)
    }

    /// Whether the box reaches at least as far as `other` in all six
    /// directions.
    pub open spec fn contains_rect(&self, other: Rect) -> bool {
        self.min.le(other.min) && other.max.le(self.max)
    }

    /// The smallest box that reaches as far as both.
    pub open spec fn spec_union(&self, other: Rect) -> Rect {
        Rect { min: self.min.spec_min(other.min), max: self.max.spec_max(other.max) }
    }

    pub open spec fn spec_infinite() -> Rect {
        Rect {
            min: Point3 { x: NEG_INFINITY, y: NEG_INFINITY, z: NEG_INFINITY },
            max: Point3 { x: INFINITY, y: INFINITY, z: INFINITY },
        }
    }

    pub open spec fn spec_order_components(self) -> Rect {
        Rect { min: self.min.spec_min(self.max), max: self.max.spec_max(self.min) }
    }

    /// The box that spans from negative to positive infinity on every axis.
    pub fn infinite() -> (r: Rect)
        ensures
            r == Rect::spec_infinite(),
    {
        Rect { min: Point3::splat(NEG_INFINITY), max: Point3::splat(INFINITY) }
    }

    /// The same box with its corners put in order: on every axis `min` gets
    /// the smaller and `max` the larger of the two values.
    pub fn order_components(self) -> (r: Rect)
        ensures
            r == self.spec_order_components(),
            r.canonical(),
            self.canonical() ==> r == self,
    {
        Rect { min: self.min.min(self.max), max: self.max.max(self.min) }
    }

    /// The smallest box that reaches as far as both `self` and `other`.
    pub fn union(&self, other: &Rect) -> (r: Rect)
        ensures
            r == self.spec_union(*other),
            r.contains_rect(*self),
            r.contains_rect(*other),
    {
        Rect { min: self.min.min(other.min), max: self.max.max(other.max) }
    }

    /// Containment of boxes is transitive.
    pub proof fn lemma_contains_rect_transitive(a: Rect, b: Rect, c: Rect)
        requires
            a.contains_rect(b),
            b.contains_rect(c),
        ensures
            a.contains_rect(c),
    {
    }

    /// Every valid point lies in the infinite box.
    pub proof fn lemma_infinite_contains(p: Point3)
        requires
            crate::coord::valid(p.x),
            crate::coord::valid(p.y),
            crate::coord::valid(p.z),
        ensures
            Rect::spec_infinite().contains_point(p),
    {
    }
}

impl Shape for Rect {
    open spec fn spec_position(&self) -> Point3 {
        self.min
    }

    open spec fn spec_bounding_box(&self) -> Rect {
        *self
    }

    fn position(&self) -> (p: Point3) {
        self.min
    }

    fn bounding_box(&self) -> (b: Rect) {
        *self
    }
}

} // verus!
