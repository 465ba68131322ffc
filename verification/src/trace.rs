//! The bookkeeping of one light path.
//!
//! A path starts at the camera with depth 0. At every step it is first
//! asked whether it is exhausted; an exhausted path carries no light. A
//! path that is not exhausted is tested against the scene: if it meets a
//! shape it bounces, which takes it one level deeper, and if it meets none
//! it ends in the background, which is the sky and, where the path points
//! at the sun, the sun as well.

use vstd::prelude::*;

verus! {

/// The number of levels a path may run through before it is cut off.
pub const MAX_DEPTH: u32 = 7;

/// The coordinate of 0.95: a path sees the sun when the cosine of the angle
/// between its direction and the direction of the sun is at least this.
pub const SUN_THRESHOLD: i32 = 0x3F73_3333;

/// What a path that left the scene ends in.
#[derive(Clone, Copy, Debug, PartialEq, Eq, Structural)]
pub enum Background {
    /// The sky alone.
    Sky,
    /// The sky and the disc of the sun.
    SkyAndSun,
}

/// What to do next with a path.
#[derive(Clone, Copy, Debug, PartialEq, Eq, Structural)]
pub enum Step {
    /// The path is exhausted and contributes black.
    Black,
    /// The path ended in the background.
    Escape(Background),
    /// The path met a shape: scatter it there and go on one level deeper.
    Scatter,
}

/// How far a path has come.
#[derive(Clone, Copy, Debug, PartialEq, Eq, Structural)]
pub struct Path {
    pub depth: u32,
    pub max_depth: u32,
}

/// The background for a path whose direction has the cosine `alignment`,
/// given as a coordinate, with the direction of the sun.
pub fn background(alignment: i32) -> (seen: Background)
    ensures
        seen == if alignment >= SUN_THRESHOLD {
            Background::SkyAndSun
        } else {
            Background::Sky
        },
{
    if alignment >= SUN_THRESHOLD {
        Background::SkyAndSun
    } else {
        Background::Sky
    }
}

impl Path {
    /// What [`Path::step`] answers.
    pub open spec fn spec_step(self, hit: bool, alignment: i32) -> Step {
        if self.depth >= self.max_depth {
            Step::Black
        } else if hit {
            Step::Scatter
        } else if alignment >= SUN_THRESHOLD {
            Step::Escape(Background::SkyAndSun)
        } else {
            Step::Escape(Background::Sky)
        }
    }

    /// The path as it stands after [`Path::step`]: one level deeper if it
    /// scattered, unchanged if it ended.
    pub open spec fn spec_after(self, hit: bool) -> Path {
        if self.depth < self.max_depth && hit {
            Path { depth: (self.depth + 1) as u32, max_depth: self.max_depth }
        } else {
            self
        }
    }

    /// A path at the camera that is cut off at `max_depth`.
    pub fn new(max_depth: u32) -> (path: Path)
        ensures
            path == (Path { depth: 0, max_depth }),
    {
        Path { depth: 0, max_depth }
    }

    /// Whether the path has reached its cut-off and contributes black.
    pub fn exhausted(&self) -> (done: bool)
        ensures
            done == (self.depth >= self.max_depth),
    {
        self.depth >= self.max_depth
    }

    /// Decides what happens to the path, given whether it meets a shape
    /// and the cosine between its direction and the sun's, and moves it on.
    pub fn step(&mut self, hit: bool, alignment: i32) -> (next: Step)
        ensures
            next == old(self).spec_step(hit, alignment),
            *final(self) == old(self).spec_after(hit),
    {
        if self.depth >= self.max_depth {
            Step::Black
        } else if hit {
            self.depth = self.depth + 1;
            Step::Scatter
        } else {
            Step::Escape(background(alignment))
        }
    }

    /// The number of bounces that a path can still make.
    pub open spec fn remaining(self) -> nat {
        if self.depth >= self.max_depth {
            0
        } else {
            (self.max_depth - self.depth) as nat
        }
    }

    /// Every bounce uses up one of the remaining levels, a path that ends
    /// keeps what it has, and a path without remaining levels is black: no
    /// path scatters more often than its cut-off allows.
    pub proof fn lemma_step_counts_down(self, hit: bool, alignment: i32)
        ensures
            self.spec_step(hit, alignment) == Step::Scatter ==> self.spec_after(hit).remaining() + 1
                == self.remaining(),
            self.spec_step(hit, alignment) != Step::Scatter ==> self.spec_after(hit) == self,
            self.remaining() == 0 <==> self.spec_step(hit, alignment) == Step::Black,
    {
    }
}

} // verus!
