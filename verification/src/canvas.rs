//! The image surface: a row-major grid of 8-bit RGB pixels.
//!
//! A pixel at column `x` and row `y` of a canvas of width `w` is stored at
//! index `y * w + x`. Writes outside the grid are dropped; reads outside the
//! grid are excluded by precondition.

use crate::coord::{floor_index, spec_floor_index};
use crate::shape::Rect;
use vstd::prelude::*;

verus! {

/// One 8-bit RGB sample.
#[derive(Clone, Copy, Debug, PartialEq, Eq, Structural)]
pub struct Pixel(pub u8, pub u8, pub u8);

impl Pixel {
    /// The grey pixel whose three channels all hold `v`.
    pub fn splat(v: u8) -> (p: Pixel)
        ensures
            p == Pixel(v, v, v),
    {
        Pixel(v, v, v)
    }

    pub fn white() -> (p: Pixel)
        ensures
            p == Pixel(255, 255, 255),
    {
        Pixel(255, 255, 255)
    }

    pub fn black() -> (p: Pixel)
        ensures
            p == Pixel(0, 0, 0),
    {
        Pixel(0, 0, 0)
    }

    pub fn red() -> (p: Pixel)
        ensures
            p == Pixel(255, 0, 0),
    {
        Pixel(255, 0, 0)
    }

    pub fn green() -> (p: Pixel)
        ensures
            p == Pixel(0, 255, 0),
    {
        Pixel(0, 255, 0)
    }

    pub fn blue() -> (p: Pixel)
        ensures
            p == Pixel(0, 0, 255),
    {
        Pixel(0, 0, 255)
    }

    pub fn yellow() -> (p: Pixel)
        ensures
            p == Pixel(255, 255, 0),
    {
        Pixel(255, 255, 0)
    }

    pub fn pink() -> (p: Pixel)
        ensures
            p == Pixel(255, 0, 255),
    {
        Pixel(255, 0, 255)
    }

    pub fn cyan() -> (p: Pixel)
        ensures
            p == Pixel(0, 255, 255),
    {
        Pixel(0, 255, 255)
    }

    /// Channel-wise sum, each channel clamped at 255.
    pub open spec fn spec_saturating_add(self, o: Pixel) -> Pixel {
        Pixel(
            if self.0 + o.0 > 255 { 255u8 } else { (self.0 + o.0) as u8 },
            if self.1 + o.1 > 255 { 255u8 } else { (self.1 + o.1) as u8 },
            if self.2 + o.2 > 255 { 255u8 } else { (self.2 + o.2) as u8 },
        )
    }

    /// Adds `o` channel by channel; a channel that would pass 255 stays at 255.
    pub fn saturating_add(self, o: Pixel) -> (sum: Pixel)
        ensures
            sum == self.spec_saturating_add(o),
    {
        Pixel(self.0.saturating_add(o.0), self.1.saturating_add(o.1), self.2.saturating_add(o.2))
    }

    /// Channel-wise quotient, rounded down.
    pub open spec fn spec_div(self, d: u8) -> Pixel {
        Pixel((self.0 / d) as u8, (self.1 / d) as u8, (self.2 / d) as u8)
    }

    /// Divides every channel by `d`, rounding down.
    pub fn div(self, d: u8) -> (q: Pixel)
        requires
            d != 0,
        ensures
            q == self.spec_div(d),
    {
        Pixel(self.0 / d, self.1 / d, self.2 / d)
    }

    /// The three channels in storage order: red, green, blue.
    pub open spec fn channels(self) -> Seq<u8> {
        seq![self.0, self.1, self.2]
    }
}

impl Default for Pixel {
    /// Black.
    fn default() -> (p: Pixel)
        ensures
            p == Pixel(0, 0, 0),
    {
        Pixel(0, 0, 0)
    }
}

/// A `width × height` grid of pixels.
pub struct Canvas {
    width: usize,
    height: usize,
    data: Vec<Pixel>,
}

impl View for Canvas {
    type V = Seq<Pixel>;

    /// The pixels in row-major order, top row first.
    closed spec fn view(&self) -> Seq<Pixel> {
        self.data@
    }
}

impl Clone for Canvas {
    /// A canvas of the same size with the same pixels.
    fn clone(&self) -> (copy: Canvas)
        ensures
            copy.same_shape(self),
            copy@ == self@,
    {
        proof {
            use_type_invariant(self);
        }
        let mut data: Vec<Pixel> = Vec::with_capacity(self.data.len());
        let mut i: usize = 0;
        while i < self.data.len()
            invariant
                i <= self.data@.len(),
                data@ == self.data@.take(i as int),
            decreases self.data@.len() - i,
        {
            data.push(self.data[i]);
            proof {
                assert(self.data@.take(i + 1) =~= self.data@.take(i as int).push(
                    self.data@[i as int],
                ));
            }
            i += 1;
        }
        proof {
            assert(self.data@.take(self.data@.len() as int) =~= self.data@);
        }
        Canvas { width: self.width, height: self.height, data }
    }
}

/// Something that can be rasterised onto a [`Canvas`].
///
/// `painted` and `outlined` say, pixel by pixel, what `draw` and
/// `draw_outline` leave on the canvas.
pub trait Drawable {
    /// The value `draw` leaves at column `x`, row `y`.
    spec fn painted(&self, canvas: &Canvas, color: Pixel, x: usize, y: usize) -> Pixel;

    /// The value `draw_outline` leaves at column `x`, row `y`.
    spec fn outlined(&self, canvas: &Canvas, color: Pixel, x: usize, y: usize) -> Pixel;

    fn draw(&self, canvas: &mut Canvas, color: Pixel)
        ensures
            final(canvas).same_shape(old(canvas)),
            forall|x: usize, y: usize|
                old(canvas).in_bounds(x, y) ==> #[trigger] final(canvas).at(x, y) == self.painted(
                    old(canvas),
                    color,
                    x,
                    y,
                ),
    ;

    fn draw_outline(&self, canvas: &mut Canvas, color: Pixel)
        ensures
            final(canvas).same_shape(old(canvas)),
            forall|x: usize, y: usize|
                old(canvas).in_bounds(x, y) ==> #[trigger] final(canvas).at(x, y) == self.outlined(
                    old(canvas),
                    color,
                    x,
                    y,
                ),
    ;
}

impl Canvas {
    #[verifier::type_invariant]
    spec fn inv(&self) -> bool {
        self.data@.len() == self.width * self.height
    }

    pub closed spec fn spec_width(&self) -> usize {
        self.width
    }

    pub closed spec fn spec_height(&self) -> usize {
        self.height
    }

    /// Whether column `x`, row `y` lies on the canvas.
    pub open spec fn in_bounds(&self, x: usize, y: usize) -> bool {
        x < self.spec_width() && y < self.spec_height()
    }

    /// Where column `x`, row `y` is stored.
    pub open spec fn index_of(&self, x: usize, y: usize) -> int {
        y * self.spec_width() + x
    }

    /// The pixel at column `x`, row `y`.
    pub open spec fn at(&self, x: usize, y: usize) -> Pixel {
        self@[self.index_of(x, y)]
    }

    /// Same dimensions, and storage of the size the dimensions call for.
    pub open spec fn same_shape(&self, other: &Canvas) -> bool {
        &&& self.spec_width() == other.spec_width()
        &&& self.spec_height() == other.spec_height()
        &&& self@.len() == other@.len()
    }

    /// Two in-bounds positions share a storage index only if they are the
    /// same position: no two pixels alias.
    pub proof fn lemma_index_injective(&self, x1: usize, y1: usize, x2: usize, y2: usize)
        requires
            self.in_bounds(x1, y1),
            self.in_bounds(x2, y2),
            self.index_of(x1, y1) == self.index_of(x2, y2),
        ensures
            x1 == x2,
            y1 == y2,
    {
        let w = self.spec_width() as int;
        if y1 < y2 {
            assert((y1 + 1) * w <= y2 * w) by (nonlinear_arith)
                requires
                    y1 + 1 <= y2,
                    w >= 0,
            ;
            assert((y1 + 1) * w == y1 * w + w) by (nonlinear_arith);
        } else if y2 < y1 {
            assert((y2 + 1) * w <= y1 * w) by (nonlinear_arith)
                requires
                    y2 + 1 <= y1,
                    w >= 0,
            ;
            assert((y2 + 1) * w == y2 * w + w) by (nonlinear_arith);
        }
    }

    /// Every in-bounds position has a storage index below `width * height`.
    pub proof fn lemma_index_in_range(&self, x: usize, y: usize)
        requires
            self.in_bounds(x, y),
        ensures
            0 <= self.index_of(x, y) < self.spec_width() * self.spec_height(),
    {
        let w = self.spec_width() as int;
        let h = self.spec_height() as int;
        assert(y * w + x < w * h) by (nonlinear_arith)
            requires
                0 <= x < w,
                0 <= y < h,
        ;
        assert(0 <= y * w) by (nonlinear_arith)
            requires
                0 <= y,
                0 <= w,
        ;
    }

    /// A black canvas of the given size.
    pub fn new(width: usize, height: usize) -> (canvas: Canvas)
        requires
            width * height <= usize::MAX,
        ensures
            canvas.spec_width() == width,
            canvas.spec_height() == height,
            canvas@ == Seq::new((width * height) as nat, |i: int| Pixel(0, 0, 0)),
    {
        let n: usize = width * height;
        let mut data: Vec<Pixel> = Vec::with_capacity(n);
        let mut i: usize = 0;
        while i < n
            invariant
                i <= n,
                data@ == Seq::new(i as nat, |k: int| Pixel(0, 0, 0)),
            decreases n - i,
        {
            data.push(Pixel(0, 0, 0));
            i += 1;
        }
        Canvas { width, height, data }
    }

    #[verifier::when_used_as_spec(spec_width)]
    pub fn width(&self) -> (w: usize)
        ensures
            w == self.spec_width(),
    {
        self.width
    }

    #[verifier::when_used_as_spec(spec_height)]
    pub fn height(&self) -> (h: usize)
        ensures
            h == self.spec_height(),
    {
        self.height
    }

    /// Tells whether column `x`, row `y` lies on the canvas.
    pub fn check(&self, x: usize, y: usize) -> (ok: bool)
        ensures
            ok == self.in_bounds(x, y),
    {
        x < self.width && y < self.height
    }

    /// The storage index of an in-bounds position.
    fn offset(&self, x: usize, y: usize) -> (i: usize)
        requires
            self.in_bounds(x, y),
        ensures
            i == self.index_of(x, y),
            i < self@.len(),
    {
        proof {
            use_type_invariant(self);
            self.lemma_index_in_range(x, y);
            assert(self.data.len() == self.width * self.height);
        }
        y * self.width + x
    }

    /// The column and row of the pixel stored at `index`: the one position
    /// that [`Canvas::index_of`] maps to `index`.
    pub fn position_of(&self, index: usize) -> (at: (usize, usize))
        requires
            index < self.spec_width() * self.spec_height(),
        ensures
            self.in_bounds(at.0, at.1),
            self.index_of(at.0, at.1) == index,
    {
        let w: usize = self.width;
        proof {
            let h = self.height as int;
            assert(w > 0) by (nonlinear_arith)
                requires
                    index < w * h,
                    index >= 0,
            ;
            vstd::arithmetic::div_mod::lemma_fundamental_div_mod(index as int, w as int);
            assert((index as int / w as int) < h) by (nonlinear_arith)
                requires
                    index < w * h,
                    w > 0,
                    index == w * (index as int / w as int) + (index as int % w as int),
                    0 <= (index as int % w as int),
            ;
            assert(w * (index as int / w as int) == (index as int / w as int) * w)
                by (nonlinear_arith);
        }
        (index % w, index / w)
    }

    /// Stores `p` at column `x`, row `y`. A position off the canvas is left
    /// alone, and so is everything else.
    pub fn set(&mut self, x: usize, y: usize, p: Pixel)
        ensures
            final(self).same_shape(old(self)),
            final(self)@ == if old(self).in_bounds(x, y) {
                old(self)@.update(old(self).index_of(x, y), p)
            } else {
                old(self)@
            },
            forall|i: usize, j: usize|
                old(self).in_bounds(i, j) ==> #[trigger] final(self).at(i, j) == if i == x && j
                    == y {
                    p
                } else {
                    old(self).at(i, j)
                },
    {
        if self.check(x, y) {
            let i: usize = self.offset(x, y);
            proof {
                use_type_invariant(&*self);
            }
            self.data[i] = p;
            proof {
                assert forall|i: usize, j: usize|
                    old(self).in_bounds(i, j) implies #[trigger] self.at(i, j) == if i == x && j
                    == y {
                    p
                } else {
                    old(self).at(i, j)
                } by {
                    old(self).lemma_index_in_range(i, j);
                    if old(self).index_of(i, j) == old(self).index_of(x, y) {
                        old(self).lemma_index_injective(i, j, x, y);
                    }
                }
            }
        }
    }

    /// Adds `o` to the pixel at column `x`, row `y`, clamping each channel
    /// at 255. A position off the canvas is left alone, and so is everything
    /// else.
    pub fn add(&mut self, x: usize, y: usize, o: Pixel)
        ensures
            final(self).same_shape(old(self)),
            final(self)@ == if old(self).in_bounds(x, y) {
                old(self)@.update(
                    old(self).index_of(x, y),
                    old(self).at(x, y).spec_saturating_add(o),
                )
            } else {
                old(self)@
            },
            forall|i: usize, j: usize|
                old(self).in_bounds(i, j) ==> #[trigger] final(self).at(i, j) == if i == x && j
                    == y {
                    old(self).at(x, y).spec_saturating_add(o)
                } else {
                    old(self).at(i, j)
                },
    {
        if self.check(x, y) {
            let sum = self.get(x, y).saturating_add(o);
            self.set(x, y, sum);
        }
    }

    /// The pixel at column `x`, row `y`.
    pub fn get(&self, x: usize, y: usize) -> (p: &Pixel)
        requires
            self.in_bounds(x, y),
        ensures
            *p == self.at(x, y),
    {
        let i: usize = self.offset(x, y);
        &self.data[i]
    }

    /// Mutable access to the pixel at column `x`, row `y`: whatever the
    /// caller leaves there is what the canvas holds afterwards.
    pub fn get_mut(&mut self, x: usize, y: usize) -> (p: &mut Pixel)
        requires
            old(self).in_bounds(x, y),
        ensures
            *p == old(self).at(x, y),
            final(self).same_shape(old(self)),
            final(self)@ == old(self)@.update(old(self).index_of(x, y), *final(p)),
    {
        let i: usize = self.offset(x, y);
        proof {
            use_type_invariant(&*self);
        }
        &mut self.data[i]
    }

    /// Rasterises `shape` in `color`.
    pub fn draw<T: Drawable + ?Sized>(&mut self, shape: &T, color: Pixel)
        ensures
            final(self).same_shape(old(self)),
            forall|x: usize, y: usize|
                old(self).in_bounds(x, y) ==> #[trigger] final(self).at(x, y) == shape.painted(
                    old(self),
                    color,
                    x,
                    y,
                ),
    {
        shape.draw(self, color);
    }

    /// Rasterises the outline of `shape` in `color`.
    pub fn draw_outline<T: Drawable + ?Sized>(&mut self, shape: &T, color: Pixel)
        ensures
            final(self).same_shape(old(self)),
            forall|x: usize, y: usize|
                old(self).in_bounds(x, y) ==> #[trigger] final(self).at(x, y) == shape.outlined(
                    old(self),
                    color,
                    x,
                    y,
                ),
    {
        shape.draw_outline(self, color);
    }
}

/// The square-root transfer curve on the 8-bit scale: whether `out` is 256
/// times the square root of `v / 256`, rounded down; in whole numbers, the
/// largest `out` whose square does not exceed `256 · v`.
pub open spec fn is_gamma(v: u8, out: u8) -> bool {
    out * out <= 256 * v < (out + 1) * (out + 1)
}

/// The value that the transfer curve maps `v` to.
pub open spec fn spec_gamma(v: u8) -> u8 {
    choose|out: u8| is_gamma(v, out)
}

/// The transfer curve maps a value to one value only.
pub proof fn lemma_gamma_unique(v: u8, a: u8, b: u8)
    requires
        is_gamma(v, a),
        is_gamma(v, b),
    ensures
        a == b,
{
    if a < b {
        assert((a + 1) * (a + 1) <= b * b) by (nonlinear_arith)
            requires
                0 <= a + 1 <= b,
        ;
    } else if b < a {
        assert((b + 1) * (b + 1) <= a * a) by (nonlinear_arith)
            requires
                0 <= b + 1 <= a,
        ;
    }
}

/// Applies the square-root transfer curve to one 8-bit value.
pub fn gamma(v: u8) -> (out: u8)
    ensures
        is_gamma(v, out),
        out == spec_gamma(v),
{
    let n: u32 = 256 * (v as u32);
    let mut lo: u32 = 0;
    let mut hi: u32 = 256;
    while hi - lo > 1
        invariant
            lo < hi <= 256,
            lo * lo <= n < hi * hi,
            n == 256 * v,
        decreases hi - lo,
    {
        let mid: u32 = (lo + hi) / 2;
        assert(mid * mid <= 256 * 256) by (nonlinear_arith)
            requires
                0 <= mid <= 256,
        ;
        if mid * mid <= n {
            lo = mid;
        } else {
            hi = mid;
        }
    }
    let out: u8 = lo as u8;
    proof {
        assert(is_gamma(v, out));
        lemma_gamma_unique(v, out, spec_gamma(v));
    }
    out
}

/// The transfer curve applied to every channel.
pub open spec fn spec_gamma_pixel(p: Pixel) -> Pixel {
    Pixel(spec_gamma(p.0), spec_gamma(p.1), spec_gamma(p.2))
}

/// The channels of all pixels in storage order, three bytes a pixel.
pub open spec fn spec_flat(pixels: Seq<Pixel>) -> Seq<u8> {
    Seq::new(3 * pixels.len(), |i: int| pixels[i / 3].channels()[i % 3])
}

/// `n` in decimal ASCII digits, without leading zeros.
pub open spec fn spec_decimal(n: nat) -> Seq<u8>
    decreases n,
{
    if n < 10 {
        seq![(48 + n) as u8]
    } else {
        spec_decimal(n / 10).push((48 + n % 10) as u8)
    }
}

/// The header of a binary PPM image: `P6`, the width and the height in
/// decimal, and the maximum channel value 255, each followed by one
/// separator.
pub open spec fn spec_ppm_header(width: nat, height: nat) -> Seq<u8> {
    seq![0x50u8, 0x36u8, 0x0Au8] + spec_decimal(width) + seq![0x20u8] + spec_decimal(height)
        + seq![0x0Au8, 0x32u8, 0x35u8, 0x35u8, 0x0Au8]
}

/// Appends `n` in decimal ASCII digits.
pub fn push_decimal(out: &mut Vec<u8>, n: usize)
    ensures
        final(out)@ == old(out)@ + spec_decimal(n as nat),
    decreases n,
{
    if n >= 10 {
        push_decimal(out, n / 10);
    }
    let digit: u8 = (n % 10) as u8;
    out.push(48 + digit);
    assert(final(out)@ =~= old(out)@ + spec_decimal(n as nat));
}

impl Canvas {
    /// The channels of all pixels in storage order: row by row from the top,
    /// and red, green, blue within a pixel.
    pub fn flat_pixels(&self) -> (bytes: Vec<u8>)
        ensures
            bytes@ == spec_flat(self@),
    {
        let mut bytes: Vec<u8> = Vec::new();
        let mut i: usize = 0;
        while i < self.data.len()
            invariant
                i <= self.data@.len(),
                bytes@.len() == 3 * i,
                forall|k: int| 0 <= k < 3 * i ==> bytes@[k] == self.data@[k / 3].channels()[k % 3],
            decreases self.data@.len() - i,
        {
            let p: Pixel = self.data[i];
            bytes.push(p.0);
            bytes.push(p.1);
            bytes.push(p.2);
            i += 1;
        }
        assert(bytes@ =~= spec_flat(self@));
        bytes
    }

    /// Applies the square-root transfer curve to every channel of every
    /// pixel.
    pub fn gamma_correct(&mut self)
        ensures
            final(self).same_shape(old(self)),
            final(self)@ == old(self)@.map_values(|p: Pixel| spec_gamma_pixel(p)),
    {
        let ghost before = self.data@;
        let mut i: usize = 0;
        proof {
            use_type_invariant(&*self);
        }
        while i < self.data.len()
            invariant
                i <= self.data@.len(),
                self.data@.len() == before.len(),
                self.data@.len() == self.width * self.height,
                self.width == old(self).width,
                self.height == old(self).height,
                forall|k: int| 0 <= k < i ==> self.data@[k] == spec_gamma_pixel(before[k]),
                forall|k: int| i <= k < before.len() ==> self.data@[k] == before[k],
            decreases self.data@.len() - i,
        {
            let p: Pixel = self.data[i];
            self.data[i] = Pixel(gamma(p.0), gamma(p.1), gamma(p.2));
            i += 1;
        }
        assert(self.data@ =~= before.map_values(|p: Pixel| spec_gamma_pixel(p)));
    }

    /// The canvas as a binary PPM image: the header and then the channels
    /// of all pixels as [`Canvas::flat_pixels`] gives them.
    pub fn encode_ppm(&self) -> (bytes: Vec<u8>)
        ensures
            bytes@ == spec_ppm_header(self.spec_width() as nat, self.spec_height() as nat)
                + spec_flat(self@),
    {
        let mut bytes: Vec<u8> = Vec::new();
        bytes.push(0x50);
        bytes.push(0x36);
        bytes.push(0x0A);
        push_decimal(&mut bytes, self.width);
        bytes.push(0x20);
        push_decimal(&mut bytes, self.height);
        bytes.push(0x0A);
        bytes.push(0x32);
        bytes.push(0x35);
        bytes.push(0x35);
        bytes.push(0x0A);
        assert(bytes@ =~= spec_ppm_header(self.spec_width() as nat, self.spec_height() as nat));
        let mut flat = self.flat_pixels();
        bytes.append(&mut flat);
        bytes
    }
}

/// A rectangle of pixels: the columns `x1..=x2` of the rows `y1..=y2`.
#[derive(Clone, Copy, Debug, PartialEq, Eq, Structural)]
pub struct PixelRect {
    pub x1: usize,
    pub y1: usize,
    pub x2: usize,
    pub y2: usize,
}

impl PixelRect {
    /// Whether column `x`, row `y` belongs to the rectangle.
    pub open spec fn covers(&self, x: usize, y: usize) -> bool {
        self.x1 <= x <= self.x2 && self.y1 <= y <= self.y2
    }

    /// The last column of the outline on a canvas `width` wide: `x2`, or the
    /// last column of the canvas if `x2` lies beyond it.
    pub open spec fn right(&self, width: usize) -> int {
        if self.x2 < width {
            self.x2 as int
        } else {
            width - 1
        }
    }

    /// The last row of the outline on a canvas `height` high.
    pub open spec fn bottom(&self, height: usize) -> int {
        if self.y2 < height {
            self.y2 as int
        } else {
            height - 1
        }
    }

    /// Whether column `x`, row `y` lies on the outline as it is drawn on
    /// `canvas`: on the first or last column within the rows of the
    /// outline, or on the first or last row within its columns.
    pub open spec fn on_outline(&self, canvas: &Canvas, x: usize, y: usize) -> bool {
        let right = self.right(canvas.spec_width());
        let bottom = self.bottom(canvas.spec_height());
        ||| self.y1 <= y <= bottom && (x == self.x1 || x == right)
        ||| self.x1 <= x <= right && (y == self.y1 || y == bottom)
    }
}

impl Drawable for PixelRect {
    /// Filling adds the colour to every pixel of the rectangle.
    open spec fn painted(&self, canvas: &Canvas, color: Pixel, x: usize, y: usize) -> Pixel {
        if self.covers(x, y) {
            canvas.at(x, y).spec_saturating_add(color)
        } else {
            canvas.at(x, y)
        }
    }

    /// Outlining stores the colour in every pixel of the outline.
    open spec fn outlined(&self, canvas: &Canvas, color: Pixel, x: usize, y: usize) -> Pixel {
        if self.on_outline(canvas, x, y) {
            color
        } else {
            canvas.at(x, y)
        }
    }

    fn draw(&self, canvas: &mut Canvas, color: Pixel) {
        let w: usize = canvas.width();
        let h: usize = canvas.height();
        let ghost before = *canvas;
        if w == 0 || h == 0 || self.x1 >= w || self.y1 >= h || self.x1 > self.x2 || self.y1
            > self.y2 {
            return ;
        }
        let right: usize = if self.x2 < w {
            self.x2
        } else {
            w - 1
        };
        let bottom: usize = if self.y2 < h {
            self.y2
        } else {
            h - 1
        };
        let mut y: usize = self.y1;
        while y <= bottom
            invariant
                self.y1 <= y <= bottom + 1,
                self.x1 <= right < w,
                bottom < h,
                right == self.right(w),
                bottom == self.bottom(h),
                w == before.spec_width(),
                h == before.spec_height(),
                canvas.same_shape(&before),
                forall|i: usize, j: usize|
                    before.in_bounds(i, j) ==> #[trigger] canvas.at(i, j) == if self.covers(i, j)
                        && j < y {
                        before.at(i, j).spec_saturating_add(color)
                    } else {
                        before.at(i, j)
                    },
            decreases bottom + 1 - y,
        {
            let mut x: usize = self.x1;
            while x <= right
                invariant
                    self.x1 <= x <= right + 1,
                    self.y1 <= y <= bottom,
                    right < w,
                    bottom < h,
                    right == self.right(w),
                    bottom == self.bottom(h),
                    w == before.spec_width(),
                    h == before.spec_height(),
                    canvas.same_shape(&before),
                    forall|i: usize, j: usize|
                        before.in_bounds(i, j) ==> #[trigger] canvas.at(i, j) == if self.covers(
                            i,
                            j,
                        ) && (j < y || (j == y && i < x)) {
                            before.at(i, j).spec_saturating_add(color)
                        } else {
                            before.at(i, j)
                        },
                decreases right + 1 - x,
            {
                canvas.add(x, y, color);
                x += 1;
            }
            y += 1;
        }
    }

    fn draw_outline(&self, canvas: &mut Canvas, color: Pixel) {
        let w: usize = canvas.width();
        let h: usize = canvas.height();
        let ghost before = *canvas;
        if w == 0 || h == 0 {
            return ;
        }
        let right: usize = if self.x2 < w {
            self.x2
        } else {
            w - 1
        };
        let bottom: usize = if self.y2 < h {
            self.y2
        } else {
            h - 1
        };
        let mut y: usize = self.y1;
        while y <= bottom
            invariant
                right < w,
                bottom < h,
                self.y1 <= y,
                y <= bottom + 1 || y == self.y1,
                right == self.right(w),
                bottom == self.bottom(h),
                w == before.spec_width(),
                h == before.spec_height(),
                canvas.same_shape(&before),
                forall|i: usize, j: usize|
                    before.in_bounds(i, j) ==> #[trigger] canvas.at(i, j) == if self.y1 <= j < y
                        && (i == self.x1 || i == right) {
                        color
                    } else {
                        before.at(i, j)
                    },
            decreases bottom + 1 - y,
        {
            canvas.set(self.x1, y, color);
            canvas.set(right, y, color);
            y += 1;
        }
        let mut x: usize = self.x1;
        while x <= right
            invariant
                right < w,
                bottom < h,
                self.x1 <= x,
                x <= right + 1 || x == self.x1,
                right == self.right(w),
                bottom == self.bottom(h),
                w == before.spec_width(),
                h == before.spec_height(),
                canvas.same_shape(&before),
                forall|i: usize, j: usize|
                    before.in_bounds(i, j) ==> #[trigger] canvas.at(i, j) == if (self.y1 <= j
                        <= bottom && (i == self.x1 || i == right)) || (self.x1 <= i < x && (j
                        == self.y1 || j == bottom)) {
                        color
                    } else {
                        before.at(i, j)
                    },
            decreases right + 1 - x,
        {
            canvas.set(x, self.y1, color);
            canvas.set(x, bottom, color);
            x += 1;
        }
    }
}

impl PixelRect {
    /// The pixels under a box that is looked at along the z axis, its x
    /// and y taken as columns and rows: every corner is rounded down.
    pub open spec fn spec_of(rect: Rect) -> PixelRect {
        PixelRect {
            x1: spec_floor_index(rect.min.x),
            y1: spec_floor_index(rect.min.y),
            x2: spec_floor_index(rect.max.x),
            y2: spec_floor_index(rect.max.y),
        }
    }

    /// The pixels under `rect`.
    pub fn of(rect: &Rect) -> (pixels: PixelRect)
        ensures
            pixels == Self::spec_of(*rect),
    {
        PixelRect {
            x1: floor_index(rect.min.x),
            y1: floor_index(rect.min.y),
            x2: floor_index(rect.max.x),
            y2: floor_index(rect.max.y),
        }
    }
}

impl Drawable for Rect {
    /// A box is filled as the pixels under it are.
    open spec fn painted(&self, canvas: &Canvas, color: Pixel, x: usize, y: usize) -> Pixel {
        PixelRect::spec_of(*self).painted(canvas, color, x, y)
    }

    /// A box is outlined as the pixels under it are.
    open spec fn outlined(&self, canvas: &Canvas, color: Pixel, x: usize, y: usize) -> Pixel {
        PixelRect::spec_of(*self).outlined(canvas, color, x, y)
    }

    fn draw(&self, canvas: &mut Canvas, color: Pixel) {
        PixelRect::of(self).draw(canvas, color);
    }

    fn draw_outline(&self, canvas: &mut Canvas, color: Pixel) {
        PixelRect::of(self).draw_outline(canvas, color);
    }
}

} // verus!
