//! Binary STL meshes.
//!
//! A file is an 80-byte header, which is ignored, the number of triangles as
//! a little-endian `u32`, and then 50 bytes for each triangle: twelve
//! little-endian 32-bit words (the facet normal and three vertices, three
//! components each) and a 16-bit attribute. The words are the bit patterns
//! of single-precision numbers and are handed on as they are.

use vstd::prelude::*;

verus! {

/// The length of the header that precedes the triangle count.
pub const HEADER_LEN: usize = 80;

/// The length of one triangle record.
pub const RECORD_LEN: usize = 50;

/// The bit patterns of the three components of a vector.
#[derive(Clone, Copy, Debug, PartialEq, Eq, Structural)]
pub struct Bits3 {
    pub x: u32,
    pub y: u32,
    pub z: u32,
}

/// One triangle record.
#[derive(Clone, Copy, Debug, PartialEq, Eq, Structural)]
pub struct StlTriangle {
    pub normal: Bits3,
    pub v0: Bits3,
    pub v1: Bits3,
    pub v2: Bits3,
    pub attribute: u16,
}

/// A corner of a triangle as a mesh with flat facets describes it: where it
/// lies, the normal of its facet, and texture coordinates, which a mesh of
/// this kind does not have and which are therefore both `0.0`.
#[derive(Clone, Copy, Debug, PartialEq, Eq, Structural)]
pub struct StlVertex {
    pub pos: Bits3,
    pub normal: Bits3,
    pub tex_u: u32,
    pub tex_v: u32,
}

impl StlTriangle {
    /// The corner at `pos`.
    pub open spec fn spec_vertex(self, pos: Bits3) -> StlVertex {
        StlVertex { pos, normal: self.normal, tex_u: 0, tex_v: 0 }
    }

    /// The three corners, each with the facet normal and zero texture
    /// coordinates.
    pub fn vertices(&self) -> (corners: (StlVertex, StlVertex, StlVertex))
        ensures
            corners == (
                self.spec_vertex(self.v0),
                self.spec_vertex(self.v1),
                self.spec_vertex(self.v2),
            ),
    {
        (
            StlVertex { pos: self.v0, normal: self.normal, tex_u: 0, tex_v: 0 },
            StlVertex { pos: self.v1, normal: self.normal, tex_u: 0, tex_v: 0 },
            StlVertex { pos: self.v2, normal: self.normal, tex_u: 0, tex_v: 0 },
        )
    }
}

/// Why a mesh could not be read.
#[derive(Clone, Copy, Debug, PartialEq, Eq, Structural)]
pub enum StlError {
    /// The data ends before the triangle count or before the last of the
    /// triangles that the count announces.
    Truncated,
}

/// The little-endian 16-bit word at `at`.
pub open spec fn spec_u16_at(bytes: Seq<u8>, at: int) -> u16 {
    (bytes[at] + bytes[at + 1] * 0x100) as u16
}

/// The little-endian 32-bit word at `at`.
pub open spec fn spec_u32_at(bytes: Seq<u8>, at: int) -> u32 {
    (bytes[at] + bytes[at + 1] * 0x100 + bytes[at + 2] * 0x1_0000 + bytes[at + 3]
        * 0x100_0000) as u32
}

/// The three consecutive little-endian 32-bit words that start at `at`.
pub open spec fn spec_triple_at(bytes: Seq<u8>, at: int) -> Bits3 {
    Bits3 {
        x: spec_u32_at(bytes, at),
        y: spec_u32_at(bytes, at + 4),
        z: spec_u32_at(bytes, at + 8),
    }
}

/// The triangle record that starts at `at`.
pub open spec fn spec_triangle_at(bytes: Seq<u8>, at: int) -> StlTriangle {
    StlTriangle {
        normal: spec_triple_at(bytes, at),
        v0: spec_triple_at(bytes, at + 12),
        v1: spec_triple_at(bytes, at + 24),
        v2: spec_triple_at(bytes, at + 36),
        attribute: spec_u16_at(bytes, at + 48),
    }
}

/// The number of triangles that the data announces.
pub open spec fn spec_count(bytes: Seq<u8>) -> u32 {
    spec_u32_at(bytes, HEADER_LEN as int)
}

/// Where the record of triangle `i` starts.
pub open spec fn spec_record_start(i: int) -> int {
    HEADER_LEN + 4 + RECORD_LEN * i
}

/// Whether the data holds the count and every triangle that it announces.
pub open spec fn complete(bytes: Seq<u8>) -> bool {
    bytes.len() >= HEADER_LEN + 4 && bytes.len() >= spec_record_start(spec_count(bytes) as int)
}

fn u16_at(bytes: &[u8], at: usize) -> (w: u16)
    requires
        at + 2 <= bytes@.len(),
    ensures
        w == spec_u16_at(bytes@, at as int),
{
    bytes[at] as u16 + bytes[at + 1] as u16 * 0x100
}

fn u32_at(bytes: &[u8], at: usize) -> (w: u32)
    requires
        at + 4 <= bytes@.len(),
    ensures
        w == spec_u32_at(bytes@, at as int),
{
    bytes[at] as u32 + bytes[at + 1] as u32 * 0x100 + bytes[at + 2] as u32 * 0x1_0000 + bytes[at
        + 3] as u32 * 0x100_0000
}

fn triple_at(bytes: &[u8], at: usize) -> (t: Bits3)
    requires
        at + 12 <= bytes@.len(),
    ensures
        t == spec_triple_at(bytes@, at as int),
{
    let len: usize = bytes.len();
    Bits3 { x: u32_at(bytes, at), y: u32_at(bytes, at + 4), z: u32_at(bytes, at + 8) }
}

/// Reads the triangle record that starts at `at`.
pub fn triangle_at(bytes: &[u8], at: usize) -> (t: StlTriangle)
    requires
        at + RECORD_LEN <= bytes@.len(),
    ensures
        t == spec_triangle_at(bytes@, at as int),
{
    let len: usize = bytes.len();
    StlTriangle {
        normal: triple_at(bytes, at),
        v0: triple_at(bytes, at + 12),
        v1: triple_at(bytes, at + 24),
        v2: triple_at(bytes, at + 36),
        attribute: u16_at(bytes, at + 48),
    }
}

/// Reads a binary STL mesh: as many triangles as the count announces, in
/// file order. Bytes after the last announced triangle are ignored. Data
/// that ends early is refused as a whole.
pub fn parse_stl(bytes: &[u8]) -> (mesh: Result<Vec<StlTriangle>, StlError>)
    ensures
        !complete(bytes@) ==> mesh == Err::<Vec<StlTriangle>, StlError>(StlError::Truncated),
        complete(bytes@) ==> mesh is Ok,
        mesh matches Ok(triangles) ==> {
            &&& triangles@.len() == spec_count(bytes@)
            &&& forall|i: int|
                0 <= i < triangles@.len() ==> #[trigger] triangles@[i] == spec_triangle_at(
                    bytes@,
                    spec_record_start(i),
                )
        },
{
    let len: usize = bytes.len();
    if len < HEADER_LEN + 4 {
        return Err(StlError::Truncated);
    }
    let count: u32 = u32_at(bytes, HEADER_LEN);
    let needed: u64 = HEADER_LEN as u64 + 4 + RECORD_LEN as u64 * count as u64;
    if (len as u64) < needed {
        return Err(StlError::Truncated);
    }
    let mut triangles: Vec<StlTriangle> = Vec::new();
    let mut at: usize = HEADER_LEN + 4;
    let mut i: u32 = 0;
    while i < count
        invariant
            i <= count,
            len == bytes@.len(),
            count == spec_count(bytes@),
            at == spec_record_start(i as int),
            len >= spec_record_start(count as int),
            triangles@.len() == i,
            forall|k: int|
                0 <= k < i ==> #[trigger] triangles@[k] == spec_triangle_at(
                    bytes@,
                    spec_record_start(k),
                ),
        decreases count - i,
    {
        triangles.push(triangle_at(bytes, at));
        at += RECORD_LEN;
        i += 1;
    }
    Ok(triangles)
}

} // verus!
