//! The RGBA raster that decoding fills, and what is taken on trust about it.
//!
//! A raster keeps its pixels in an `image::RgbaImage`. Verus does not look
//! inside one, so this module names its contents and states, for each
//! operation the decoder uses, what that operation does to them.

use image::RgbaImage;
use vstd::prelude::*;

verus! {

/// One pixel: red, green, blue, alpha.
pub type Rgba8 = (u8, u8, u8, u8);

/// A mutable RGBA pixel buffer. The buffer itself is an `image::RgbaImage`,
/// which Verus treats as opaque.
#[verifier::external_body]
#[derive(Debug, PartialEq, Eq)]
pub struct Raster {
    inner: RgbaImage,
}

/// The pixels of a raster, keyed by `(x, y)`.
pub uninterp spec fn raster_pixels(r: Raster) -> Map<(int, int), (u8, u8, u8, u8)>;

/// The width and height of a raster.
pub uninterp spec fn raster_dims(r: Raster) -> (nat, nat);

/// The fully transparent black pixel that a fresh raster is filled with.
pub open spec fn transparent() -> Rgba8 {
    (0u8, 0u8, 0u8, 0u8)
}

/// Whether `(x, y)` lies inside a raster of the given dimensions.
pub open spec fn in_bounds(dims: (nat, nat), x: int, y: int) -> bool {
    0 <= x < dims.0 && 0 <= y < dims.1
}

/// Whether a raster of `width` by `height` pixels can be allocated at all:
/// its four bytes per pixel have to fit the largest possible buffer.
pub open spec fn allocatable(width: int, height: int) -> bool {
    4 * width * height <= isize::MAX
}

/// The most samples that `image::imageops::thumbnail` adds up for one
/// pixel without overflowing its 32-bit sums: each sample is at most 255,
/// and half the count is added for rounding.
pub const MAX_BOX_SAMPLES: u64 = 0x100_0000;

/// A bound on the source columns (or rows) that one thumbnail pixel covers,
/// when `source` columns are reduced to `target`.
///
/// `thumbnail` lets output column `x` cover the source columns from
/// `ceil(x * ratio)` up to `ceil(x * ratio + ratio)`, where `ratio` is
/// `source / target` and ratio, product and sum are 32-bit floats. The two
/// edges are `ratio` apart but for their rounding: each of the three values
/// is below twice the source size and is rounded by at most one part in
/// `2^24` of itself, which together is less than `source / 2^21 + 1`.
/// Rounding the quotient down and both edges up accounts for the rest.
pub open spec fn thumbnail_span(source: int, target: int) -> int {
    source / target + source / 0x20_0000 + 4
}

/// Whether the sums that a thumbnail of `width` by `height` needs of a
/// source with dimensions `dims` fit 32 bits.
pub open spec fn thumbnail_sums_fit(dims: (nat, nat), width: int, height: int) -> bool {
    width > 0 && height > 0 ==> thumbnail_span(dims.0 as int, width) * thumbnail_span(
        dims.1 as int,
        height,
    ) <= MAX_BOX_SAMPLES
}

/// The largest brightness offset that `brighten_in_place` can add to a
/// sample without overflowing its 32-bit arithmetic.
pub const MAX_BRIGHTEN: i32 = 0x7fff_ff00;

/// The pixels of the thumbnail that `image::imageops::thumbnail` makes of a
/// raster with the given pixels and dimensions, for a target width and
/// height.
pub uninterp spec fn thumbnail_pixels(
    pixels: Map<(int, int), (u8, u8, u8, u8)>,
    dims: (nat, nat),
    width: nat,
    height: nat,
) -> Map<(int, int), (u8, u8, u8, u8)>;

/// A sample moved by a brightness offset and held to the range of a byte.
pub open spec fn brightened_sample(c: u8, value: int) -> u8 {
    if c + value < 0 {
        0u8
    } else if c + value > 255 {
        255u8
    } else {
        (c + value) as u8
    }
}

/// A pixel whose color samples are moved by a brightness offset; alpha stays.
pub open spec fn brightened(p: Rgba8, value: int) -> Rgba8 {
    (
        brightened_sample(p.0, value),
        brightened_sample(p.1, value),
        brightened_sample(p.2, value),
        p.3,
    )
}

/// Tests `allocatable`.
pub fn can_allocate(width: u32, height: u32) -> (b: bool)
    ensures
        b == allocatable(width as int, height as int),
{
    assert(0 <= width * height <= 0xffff_ffff * 0xffff_ffff) by (nonlinear_arith)
        requires
            0 <= width <= 0xffff_ffff,
            0 <= height <= 0xffff_ffff,
    ;
    assert(4 * width * height == 4 * (width * height)) by (nonlinear_arith);
    4 * (width as u128 * height as u128) <= isize::MAX as u128
}

/// Tests `thumbnail_sums_fit` for a source of `source_width` by
/// `source_height` pixels.
pub fn sums_fit(source_width: u32, source_height: u32, width: u32, height: u32) -> (b: bool)
    ensures
        b == thumbnail_sums_fit(
            (source_width as nat, source_height as nat),
            width as int,
            height as int,
        ),
{
    if width == 0 || height == 0 {
        return true;
    }
    let across = (source_width / width) as u128 + (source_width / 0x20_0000) as u128 + 4;
    let down = (source_height / height) as u128 + (source_height / 0x20_0000) as u128 + 4;
    assert(0 <= across * down <= 0x1_0000_0000_0000 * 0x1_0000_0000_0000) by (nonlinear_arith)
        requires
            0 <= across <= 0x1_0000_0000_0000,
            0 <= down <= 0x1_0000_0000_0000,
    ;
    across * down <= MAX_BOX_SAMPLES as u128
}

impl Raster {
    /// The pixel at `(x, y)`.
    pub open spec fn pixel(self, x: int, y: int) -> Rgba8 {
        raster_pixels(self)[(x, y)]
    }

    /// The width in pixels.
    pub open spec fn spec_width(self) -> nat {
        raster_dims(self).0
    }

    /// The height in pixels.
    pub open spec fn spec_height(self) -> nat {
        raster_dims(self).1
    }

    /// Whether `(x, y)` lies inside this raster.
    pub open spec fn contains(self, x: int, y: int) -> bool {
        in_bounds(raster_dims(self), x, y)
    }

    /// The pixels inside the raster, and nothing else, keyed by `(x, y)`.
    pub open spec fn image(self) -> Map<(int, int), Rgba8> {
        Map::new(
            |k: (int, int)| in_bounds(raster_dims(self), k.0, k.1),
            |k: (int, int)| raster_pixels(self)[k],
        )
    }

    /// `ImageBuffer::new`: a raster of the given size whose every pixel is
    /// transparent black. It panics when the byte length overflows, which the
    /// precondition excludes.
    #[verifier::external_body]
    pub(crate) fn blank(width: u32, height: u32) -> (r: Raster)
        requires
            allocatable(width as int, height as int),
        ensures
            raster_dims(r) == (width as nat, height as nat),
            forall|x: int, y: int|
                in_bounds(raster_dims(r), x, y) ==> #[trigger] raster_pixels(r)[(x, y)]
                    == transparent(),
    {
        Raster { inner: RgbaImage::new(width, height) }
    }

    /// `ImageBuffer::dimensions`: the width and height the raster was made
    /// with.
    #[verifier::external_body]
    pub(crate) fn dimensions(&self) -> (d: (u32, u32))
        ensures
            raster_dims(*self) == (d.0 as nat, d.1 as nat),
    {
        self.inner.dimensions()
    }

    /// `ImageBuffer::get_pixel`: the pixel stored at `(x, y)`. It panics
    /// outside the raster, which the precondition excludes.
    #[verifier::external_body]
    pub(crate) fn get_pixel(&self, x: u32, y: u32) -> (p: Rgba8)
        requires
            in_bounds(raster_dims(*self), x as int, y as int),
        ensures
            p == raster_pixels(*self)[(x as int, y as int)],
    {
        let px = self.inner.get_pixel(x, y);
        (px.0[0], px.0[1], px.0[2], px.0[3])
    }

    /// `ImageBuffer::put_pixel`: stores one pixel at `(x, y)` and leaves
    /// every other pixel and the dimensions as they were. It panics outside
    /// the raster, which the precondition excludes.
    #[verifier::external_body]
    pub(crate) fn put_pixel(&mut self, x: u32, y: u32, p: Rgba8)
        requires
            in_bounds(raster_dims(*old(self)), x as int, y as int),
        ensures
            raster_dims(*final(self)) == raster_dims(*old(self)),
            raster_pixels(*final(self)) == raster_pixels(*old(self)).insert(
                (x as int, y as int),
                p,
            ),
    {
        self.inner.put_pixel(x, y, image::Rgba([p.0, p.1, p.2, p.3]));
    }

    /// `image::imageops::thumbnail`: a raster of the target size whose pixels
    /// are a function of the source pixels, the source dimensions and the
    /// target size. It allocates the target, and it adds up the samples of
    /// the source box of each pixel in 32 bits; the preconditions keep both
    /// in range.
    #[verifier::external_body]
    pub(crate) fn thumbnail_of(&self, width: u32, height: u32) -> (t: Raster)
        requires
            allocatable(width as int, height as int),
            thumbnail_sums_fit(raster_dims(*self), width as int, height as int),
        ensures
            raster_dims(t) == (width as nat, height as nat),
            t.image() == thumbnail_pixels(
                self.image(),
                raster_dims(*self),
                width as nat,
                height as nat,
            ),
    {
        Raster { inner: image::imageops::thumbnail(&self.inner, width, height) }
    }

    /// `image::imageops::colorops::brighten_in_place`: adds `value` to the
    /// red, green and blue samples of every pixel, holds each to the range of
    /// a byte, and leaves alpha and the dimensions alone. The sum is taken in
    /// 32 bits, which the precondition keeps from overflowing.
    #[verifier::external_body]
    pub(crate) fn brighten_in_place(&mut self, value: i32)
        requires
            value <= MAX_BRIGHTEN,
        ensures
            raster_dims(*final(self)) == raster_dims(*old(self)),
            forall|x: int, y: int|
                in_bounds(raster_dims(*old(self)), x, y) ==> #[trigger] raster_pixels(*final(self))[(
                    x,
                    y,
                )] == brightened(raster_pixels(*old(self))[(x, y)], value as int),
    {
        image::imageops::colorops::brighten_in_place(&mut self.inner, value);
    }

    /// `ImageBuffer::into_raw`: the bytes of the raster, four per pixel in
    /// the order red, green, blue, alpha, pixels row by row. Every raster is
    /// made by `ImageBuffer::new`, so its buffer holds its pixels and no more.
    #[verifier::external_body]
    pub(crate) fn into_raw(self) -> (bytes: Vec<u8>)
        ensures
            bytes@.len() == 4 * raster_dims(self).0 * raster_dims(self).1,
            forall|x: int, y: int|
                in_bounds(raster_dims(self), x, y) ==> {
                    let at = 4 * (y * raster_dims(self).0 + x);
                    #[trigger] raster_pixels(self)[(x, y)] == (
                        bytes@[at],
                        bytes@[at + 1],
                        bytes@[at + 2],
                        bytes@[at + 3],
                    )
                },
    {
        self.inner.into_raw()
    }

    /// The width in pixels.
    pub fn width(&self) -> (w: u32)
        ensures
            w == self.spec_width(),
    {
        self.dimensions().0
    }

    /// The height in pixels.
    pub fn height(&self) -> (h: u32)
        ensures
            h == self.spec_height(),
    {
        self.dimensions().1
    }

    /// A thumbnail of the given size.
    pub fn thumbnail(&self, width: u32, height: u32) -> (t: Raster)
        requires
            allocatable(width as int, height as int),
            thumbnail_sums_fit(raster_dims(*self), width as int, height as int),
        ensures
            raster_dims(t) == (width as nat, height as nat),
            t.image() == thumbnail_pixels(
                self.image(),
                raster_dims(*self),
                width as nat,
                height as nat,
            ),
    {
        self.thumbnail_of(width, height)
    }

    /// Adds `value` to the red, green and blue samples of every pixel, each
    /// held to the range of a byte. Alpha and the dimensions stay.
    pub fn brighten(&mut self, value: i32)
        ensures
            raster_dims(*final(self)) == raster_dims(*old(self)),
            final(self).image() == old(self).image().map_values(
                |p: Rgba8| brightened(p, value as int),
            ),
    {
        let ghost before = *self;
        if value > MAX_BRIGHTEN {
            self.brighten_in_place(MAX_BRIGHTEN);
        } else {
            self.brighten_in_place(value);
        }
        proof {
            assert forall|k: (int, int)| #[trigger] before.image().dom().contains(k) implies self.image()[k]
                == brightened(before.image()[k], value as int) by {
                assert(raster_pixels(*self)[(k.0, k.1)] == raster_pixels(*self)[k]);
            }
            assert(self.image() =~= before.image().map_values(
                |p: Rgba8| brightened(p, value as int),
            ));
        }
    }

    /// The bytes of the raster, four per pixel in the order red, green, blue,
    /// alpha, pixels row by row.
    pub fn into_bytes(self) -> (bytes: Vec<u8>)
        ensures
            bytes@.len() == 4 * self.spec_width() * self.spec_height(),
            forall|x: int, y: int|
                self.contains(x, y) ==> {
                    let at = 4 * (y * self.spec_width() + x);
                    #[trigger] self.pixel(x, y) == (
                        bytes@[at],
                        bytes@[at + 1],
                        bytes@[at + 2],
                        bytes@[at + 3],
                    )
                },
    {
        self.into_raw()
    }

    /// Reads one pixel; `None` outside the raster.
    pub fn pixel_at(&self, x: u32, y: u32) -> (p: Option<Rgba8>)
        ensures
            p == if self.contains(x as int, y as int) {
                Some(self.pixel(x as int, y as int))
            } else {
                None
            },
    {
        let d = self.dimensions();
        if x < d.0 && y < d.1 {
            Some(self.get_pixel(x, y))
        } else {
            None
        }
    }
}

} // verus!
