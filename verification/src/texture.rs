//! Textures: a grid of 8-bit RGB texels and the rule by which coordinates
//! outside the unit square are brought back into it.

use crate::canvas::Pixel;
use image::RgbImage;
use vstd::prelude::*;

verus! {

/// How a texture coordinate outside `[0, 1]` is brought back into it.
#[derive(Clone, Copy, Debug, PartialEq, Eq, Structural)]
pub enum TextureWrapping {
    /// The texture repeats: the integer part of the coordinate is dropped.
    Repeat,
    /// The texture repeats, every other copy mirrored.
    MirroredRepeat,
    /// The coordinate is clamped: beyond an edge the edge texel continues.
    ClampToEdge,
}

/// The texel grid of a texture, held in an `image::RgbImage`.
#[verifier::external_body]
#[derive(Debug)]
pub struct Texels {
    image: RgbImage,
}

/// The width and the height of a texel grid.
pub uninterp spec fn grid_size(texels: Texels) -> (nat, nat);

/// The texels of a grid, row by row from the top.
pub uninterp spec fn grid_texels(texels: Texels) -> Seq<Pixel>;

/// The first `count` texels that `bytes` holds, three bytes a texel: red,
/// green, blue.
pub open spec fn spec_texels(bytes: Seq<u8>, count: nat) -> Seq<Pixel> {
    Seq::new(count, |i: int| Pixel(bytes[3 * i], bytes[3 * i + 1], bytes[3 * i + 2]))
}

/// Whether three bytes for each texel of `width × height` can be counted in
/// a `usize` and `len` bytes are at least as many.
pub open spec fn fits(width: u32, height: u32, len: nat) -> bool {
    3 * width <= usize::MAX && 3 * width * height <= len
}

/// `from_raw` of `image::ImageBuffer`. It accepts a buffer exactly when
/// three bytes for each texel of `width × height` can be counted in a
/// `usize` and the buffer holds at least as many; the image then has that
/// size and reads its texels from the start of the buffer, row by row.
#[verifier::external_body]
fn texels_from_raw(width: u32, height: u32, bytes: Vec<u8>) -> (made: Option<Texels>)
    ensures
        made.is_some() == fits(width, height, bytes@.len()),
        made matches Some(texels) ==> grid_size(texels).0 == width,
        made matches Some(texels) ==> grid_size(texels).1 == height,
        made matches Some(texels) ==> grid_texels(texels) == spec_texels(
            bytes@,
            (width * height) as nat,
        ),
{
    match RgbImage::from_raw(width, height, bytes) {
        Some(image) => Some(Texels { image }),
        None => None,
    }
}

/// `get_pixel` of `image::ImageBuffer`, which panics outside the image: the
/// texel in column `x` of row `y`.
#[verifier::external_body]
fn texels_get(texels: &Texels, x: u32, y: u32) -> (texel: Pixel)
    requires
        x < grid_size(*texels).0,
        y < grid_size(*texels).1,
    ensures
        texel == grid_texels(*texels)[y * grid_size(*texels).0 + x],
{
    let p = texels.image.get_pixel(x, y);
    Pixel(p.0[0], p.0[1], p.0[2])
}

/// An image to be sampled, with its size and its wrapping rule.
#[derive(Debug)]
pub struct Texture {
    data: Texels,
    width: usize,
    height: usize,
    wrapping: TextureWrapping,
}

impl View for Texture {
    type V = Seq<Pixel>;

    /// The texels, row by row from the top.
    closed spec fn view(&self) -> Seq<Pixel> {
        grid_texels(self.data)
    }
}

impl Texture {
    #[verifier::type_invariant]
    spec fn inv(&self) -> bool {
        &&& self.width == grid_size(self.data).0
        &&& self.height == grid_size(self.data).1
        &&& self.width <= u32::MAX
        &&& self.height <= u32::MAX
    }

    pub closed spec fn spec_width(&self) -> usize {
        self.width
    }

    pub closed spec fn spec_height(&self) -> usize {
        self.height
    }

    pub closed spec fn spec_wrapping(&self) -> TextureWrapping {
        self.wrapping
    }

    /// The texel in column `x` of row `y`.
    pub open spec fn spec_texel(&self, x: usize, y: usize) -> Pixel {
        self@[y * self.spec_width() + x]
    }

    /// A repeating texture of `width × height` texels, which `bytes` holds
    /// row by row from the top, three bytes a texel. Bytes beyond the last
    /// texel are ignored; too few bytes are refused.
    pub fn new(width: u32, height: u32, bytes: Vec<u8>) -> (made: Option<Texture>)
        ensures
            made.is_some() == fits(width, height, bytes@.len()),
            made matches Some(texture) ==> {
                &&& texture.spec_width() == width
                &&& texture.spec_height() == height
                &&& texture.spec_wrapping() == TextureWrapping::Repeat
                &&& texture@ == spec_texels(bytes@, (width * height) as nat)
            },
    {
        match texels_from_raw(width, height, bytes) {
            Some(data) => Some(
                Texture {
                    data,
                    width: width as usize,
                    height: height as usize,
                    wrapping: TextureWrapping::Repeat,
                },
            ),
            None => None,
        }
    }

    /// The same texture with another wrapping rule.
    pub fn set_wrapping(self, wrapping: TextureWrapping) -> (texture: Texture)
        ensures
            texture@ == self@,
            texture.spec_width() == self.spec_width(),
            texture.spec_height() == self.spec_height(),
            texture.spec_wrapping() == wrapping,
    {
        proof {
            use_type_invariant(&self);
        }
        Texture { data: self.data, width: self.width, height: self.height, wrapping }
    }

    #[verifier::when_used_as_spec(spec_width)]
    pub fn width(&self) -> (width: usize)
        ensures
            width == self.spec_width(),
    {
        self.width
    }

    #[verifier::when_used_as_spec(spec_height)]
    pub fn height(&self) -> (height: usize)
        ensures
            height == self.spec_height(),
    {
        self.height
    }

    #[verifier::when_used_as_spec(spec_wrapping)]
    pub fn wrapping(&self) -> (wrapping: TextureWrapping)
        ensures
            wrapping == self.spec_wrapping(),
    {
        self.wrapping
    }

    /// The texel in column `x` of row `y`.
    pub fn texel(&self, x: usize, y: usize) -> (texel: Pixel)
        requires
            x < self.spec_width(),
            y < self.spec_height(),
        ensures
            texel == self.spec_texel(x, y),
    {
        proof {
            use_type_invariant(self);
        }
        texels_get(&self.data, x as u32, y as u32)
    }
}

} // verus!
