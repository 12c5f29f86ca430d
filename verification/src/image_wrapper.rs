//! One image segment: its layout, its raw plane, and the raster they decode to.

use crate::error::{VizError, VizResult};
use crate::raster::{
    allocatable, can_allocate, in_bounds, raster_dims, raster_pixels, sums_fit, thumbnail_pixels,
    thumbnail_sums_fit, transparent, Raster, Rgba8,
};
use vstd::prelude::*;

verus! {

/// How the samples of a segment encode color.
#[derive(Debug, Clone, Copy, PartialEq, Eq, Structural)]
pub enum ImageRepresentation {
    /// One intensity per pixel.
    Mono,
    /// Red, green and blue per pixel.
    Rgb,
    /// One index per pixel into the lookup tables of the first band.
    RgbLut,
    /// Multiband imagery.
    Multi,
    /// Not intended for display, such as complex sensor samples.
    NoDisplay,
    /// Vectors with cartesian coordinates.
    NVector,
    /// Vectors with polar coordinates.
    Polar,
    /// Video phase history.
    Vph,
    /// Luminance and chrominance.
    YCbCr601,
}

/// Entries in each lookup table of a palette.
pub const LUT_ENTRIES: usize = 256;

/// Per-band metadata.
#[derive(Debug, Clone)]
pub struct Band {
    /// The lookup tables of this band, one row per channel.
    pub lutd: Vec<Vec<u8>>,
}

/// Where one tile lies in the raster.
#[derive(Debug, Clone, Copy)]
struct BlockInfo {
    x: u32,
    y: u32,
    width: u32,
    height: u32,
}

/// The layout of one segment together with its uncompressed pixel data.
pub struct ImageWrapper<'a> {
    /// Number of significant rows.
    pub nrows: u32,
    /// Number of significant columns.
    pub ncols: u32,
    /// Image representation.
    pub irep: ImageRepresentation,
    /// Number of bands.
    pub nbands: u8,
    /// Number of bits per pixel.
    pub nbpp: u8,
    /// Number of blocks per column.
    pub nbpc: u16,
    /// Number of blocks per row.
    pub nbpr: u16,
    /// Data bands.
    pub bands: Vec<Band>,
    /// Number of pixels per block, horizontally.
    pub nppbh: u16,
    /// Number of pixels per block, vertically.
    pub nppbv: u16,
    /// The raw plane.
    pub data: &'a [u8],
}

/// The color of sample `i` of a run of mono samples: one byte, replicated.
pub open spec fn mono_color(data: Seq<u8>, i: int) -> Option<(u8, u8, u8)> {
    if 0 <= i < data.len() {
        Some((data[i], data[i], data[i]))
    } else {
        None
    }
}

/// The color of sample `i` of a run of RGB samples: three bytes in order.
pub open spec fn rgb_color(data: Seq<u8>, i: int) -> Option<(u8, u8, u8)> {
    if 0 <= i && 3 * i + 3 <= data.len() {
        Some((data[3 * i], data[3 * i + 1], data[3 * i + 2]))
    } else {
        None
    }
}

/// The color of sample `i` of a run of palette indices: one byte, looked up
/// in the red, green and blue tables.
pub open spec fn lut_color(lut: Seq<Seq<u8>>, data: Seq<u8>, i: int) -> Option<(u8, u8, u8)> {
    if 0 <= i < data.len() {
        Some((lut[0][data[i] as int], lut[1][data[i] as int], lut[2][data[i] as int]))
    } else {
        None
    }
}

/// A color made opaque or transparent.
pub open spec fn with_alpha(c: (u8, u8, u8), alpha: u8) -> Rgba8 {
    (c.0, c.1, c.2, alpha)
}

impl Band {
    /// The lookup tables as sequences.
    pub open spec fn tables(self) -> Seq<Seq<u8>> {
        Seq::new(self.lutd@.len(), |c: int| self.lutd@[c]@)
    }
}

impl<'a> ImageWrapper<'a> {
    /// Whether a single block covers the whole image.
    pub open spec fn unblocked(self) -> bool {
        self.nbpr == 1 && self.nbpc == 1
    }

    /// The width of the decoded raster: the significant columns, or the full
    /// tiled extent where there are at least two blocks per row.
    pub open spec fn raster_width(self) -> int {
        if self.nbpr < 2 {
            self.ncols as int
        } else {
            self.nbpr * self.nppbh
        }
    }

    /// The height of the decoded raster: the significant rows, or the full
    /// tiled extent where there are at least two blocks per column.
    pub open spec fn raster_height(self) -> int {
        if self.nbpc < 2 {
            self.nrows as int
        } else {
            self.nbpc * self.nppbv
        }
    }

    /// The dimensions of the decoded raster.
    pub open spec fn raster_dims(self) -> (nat, nat) {
        (self.raster_width() as nat, self.raster_height() as nat)
    }

    /// Whether the first band carries three lookup tables with an entry for
    /// every index.
    pub open spec fn has_palette(self) -> bool {
        &&& self.bands@.len() > 0
        &&& self.bands@[0].lutd@.len() >= 3
        &&& forall|c: int| 0 <= c < 3 ==> (#[trigger] self.bands@[0].lutd@[c])@.len() >= LUT_ENTRIES
    }

    /// The lookup tables of the first band.
    pub open spec fn palette(self) -> Seq<Seq<u8>> {
        self.bands@[0].tables()
    }

    /// Why this segment cannot be decoded, if it cannot.
    ///
    /// Samples have to be byte aligned; the representation has to be mono,
    /// RGB or palette-indexed; a sample has to be exactly one byte; and a
    /// palette-indexed segment has to bring its palette.
    pub open spec fn decode_error(self) -> Option<VizError> {
        if self.nbpp % 8 != 0 {
            Some(VizError::UnsupportedBitDepth(self.nbpp))
        } else if !(self.irep == ImageRepresentation::Mono || self.irep == ImageRepresentation::Rgb
            || self.irep == ImageRepresentation::RgbLut) {
            Some(VizError::UnsupportedRepresentation(self.irep))
        } else if self.nbpp != 8 {
            Some(VizError::UnsupportedBitDepth(self.nbpp))
        } else if self.irep == ImageRepresentation::RgbLut && !self.has_palette() {
            Some(VizError::UnsupportedRepresentation(self.irep))
        } else {
            None
        }
    }

    /// The color of sample `i` of `data`, read by this segment's
    /// representation; `None` where `data` does not hold the whole sample.
    pub open spec fn color(self, data: Seq<u8>, i: int) -> Option<(u8, u8, u8)> {
        match self.irep {
            ImageRepresentation::Mono => mono_color(data, i),
            ImageRepresentation::Rgb => rgb_color(data, i),
            ImageRepresentation::RgbLut => lut_color(self.palette(), data, i),
            _ => None,
        }
    }

    /// The alpha of a decoded pixel in a tile: opaque inside the significant
    /// extent, transparent in the padding.
    pub open spec fn alpha(self, x: int, y: int) -> u8 {
        if x >= self.ncols || y >= self.nrows {
            0u8
        } else {
            255u8
        }
    }

    /// The pixel at `(x, y)` of an unblocked segment: sample `y * ncols + x`
    /// of the plane, opaque.
    pub open spec fn flat_pixel(self, x: int, y: int) -> Rgba8 {
        match self.color(self.data@, y * self.ncols + x) {
            Some(c) => with_alpha(c, 255u8),
            None => transparent(),
        }
    }

    /// The bytes that one tile takes in the plane.
    pub open spec fn chunk_size(self) -> int {
        (self.nbpp / 8) * self.nppbh * self.nppbv * self.nbands
    }

    /// Whether the tile in block column `bx` and block row `by` exists and
    /// the plane holds all of its chunk.
    pub open spec fn has_tile(self, bx: int, by: int) -> bool {
        &&& 0 <= bx < self.nbpr
        &&& 0 <= by < self.nbpc
        &&& (self.tile_index(bx, by) + 1) * self.chunk_size() <= self.data@.len()
    }

    /// The position of a tile in the plane: tiles follow each other row by
    /// row.
    pub open spec fn tile_index(self, bx: int, by: int) -> int {
        bx + by * self.nbpr
    }

    /// The chunk of the plane that holds tile `index`.
    pub open spec fn chunk(self, index: int) -> Seq<u8> {
        self.data@.subrange(index * self.chunk_size(), (index + 1) * self.chunk_size())
    }

    /// The pixel that the tile at `(bx, by)` gives to its local position
    /// `(lx, ly)`, which lies at `(x, y)` in the raster.
    pub open spec fn tile_sample(self, bx: int, by: int, lx: int, ly: int, x: int, y: int) -> Rgba8 {
        if self.has_tile(bx, by) {
            match self.color(self.chunk(self.tile_index(bx, by)), lx + ly * self.nppbh) {
                Some(c) => with_alpha(c, self.alpha(x, y)),
                None => transparent(),
            }
        } else {
            transparent()
        }
    }

    /// The pixel at `(x, y)` of a blocked segment: the sample that the tile
    /// covering `(x, y)` holds for it, or transparent black where no tile
    /// covers it or the plane ends before the sample.
    pub open spec fn tile_pixel(self, x: int, y: int) -> Rgba8 {
        if self.nppbh == 0 || self.nppbv == 0 {
            transparent()
        } else {
            self.tile_sample(
                x / (self.nppbh as int),
                y / (self.nppbv as int),
                x % (self.nppbh as int),
                y % (self.nppbv as int),
                x,
                y,
            )
        }
    }

    /// The decoded pixel at `(x, y)`.
    pub open spec fn pixel(self, x: int, y: int) -> Rgba8 {
        if self.unblocked() {
            self.flat_pixel(x, y)
        } else {
            self.tile_pixel(x, y)
        }
    }

    /// The decoded raster as a map from `(x, y)` to pixel.
    pub open spec fn image(self) -> Map<(int, int), Rgba8> {
        Map::new(
            |k: (int, int)| in_bounds(self.raster_dims(), k.0, k.1),
            |k: (int, int)| self.pixel(k.0, k.1),
        )
    }

    /// Whether the plane holds a complete sample for the pixel at `(x, y)`
    /// of a blocked segment: a tile covers it, the plane holds the tile's
    /// whole chunk, and the chunk reaches the pixel's sample.
    pub open spec fn tile_holds(self, x: int, y: int) -> bool {
        &&& self.nppbh > 0
        &&& self.nppbv > 0
        &&& self.has_tile(x / (self.nppbh as int), y / (self.nppbv as int))
        &&& self.color(
            self.chunk(self.tile_index(x / (self.nppbh as int), y / (self.nppbv as int))),
            x % (self.nppbh as int) + (y % (self.nppbv as int)) * self.nppbh,
        ) is Some
    }

    /// Whether `r` is the raster that this segment decodes to.
    pub open spec fn decodes_to(self, r: Raster) -> bool {
        &&& raster_dims(r) == self.raster_dims()
        &&& r.image() == self.image()
    }

    /// Whether the decoded raster can be allocated.
    pub open spec fn raster_fits(self) -> bool {
        allocatable(self.raster_width(), self.raster_height())
    }

    /// Whether the decoded raster and a thumbnail of the given size can be
    /// allocated, and the thumbnail can be computed in 32-bit sums.
    pub open spec fn thumbnail_fits(self, width: u32, height: u32) -> bool {
        &&& self.raster_fits()
        &&& allocatable(width as int, height as int)
        &&& thumbnail_sums_fit(self.raster_dims(), width as int, height as int)
    }
}

/// Monochrome, unblocked: a pixel whose byte the plane holds shows that byte
/// as red, green and blue, fully opaque.
pub proof fn lemma_mono_unblocked(w: ImageWrapper, r: Raster, x: int, y: int)
    requires
        w.decodes_to(r),
        w.unblocked(),
        w.irep == ImageRepresentation::Mono,
        r.contains(x, y),
        y * w.ncols + x < w.data@.len(),
    ensures
        ({
            let v = w.data@[y * w.ncols + x];
            r.pixel(x, y) == (v, v, v, 255u8)
        }),
{
    assert(0 <= y * w.ncols) by (nonlinear_arith)
        requires
            0 <= y,
            0 <= w.ncols,
    ;
    assert(r.image()[(x, y)] == w.image()[(x, y)]);
}

/// RGB, unblocked: a pixel whose three bytes the plane holds shows them as
/// red, green and blue in the order in which they are stored, fully opaque.
pub proof fn lemma_rgb_unblocked(w: ImageWrapper, r: Raster, x: int, y: int)
    requires
        w.decodes_to(r),
        w.unblocked(),
        w.irep == ImageRepresentation::Rgb,
        r.contains(x, y),
        3 * (y * w.ncols + x) + 3 <= w.data@.len(),
    ensures
        ({
            let at = 3 * (y * w.ncols + x);
            r.pixel(x, y) == (w.data@[at], w.data@[at + 1], w.data@[at + 2], 255u8)
        }),
{
    assert(0 <= y * w.ncols) by (nonlinear_arith)
        requires
            0 <= y,
            0 <= w.ncols,
    ;
    assert(r.image()[(x, y)] == w.image()[(x, y)]);
}

/// Palette-indexed, unblocked: a pixel whose index `v` the plane holds shows
/// entry `v` of the red, green and blue tables of the first band, fully
/// opaque.
pub proof fn lemma_palette_unblocked(w: ImageWrapper, r: Raster, x: int, y: int)
    requires
        w.decodes_to(r),
        w.unblocked(),
        w.irep == ImageRepresentation::RgbLut,
        w.has_palette(),
        r.contains(x, y),
        y * w.ncols + x < w.data@.len(),
    ensures
        ({
            let v = w.data@[y * w.ncols + x] as int;
            let lut = w.bands@[0].lutd@;
            r.pixel(x, y) == (lut[0]@[v], lut[1]@[v], lut[2]@[v], 255u8)
        }),
{
    assert(0 <= y * w.ncols) by (nonlinear_arith)
        requires
            0 <= y,
            0 <= w.ncols,
    ;
    assert(r.image()[(x, y)] == w.image()[(x, y)]);
}

/// Tiles are laid out row by row, each at its origin: the pixel at local
/// position `(lx, ly)` of the tile in block column `bx` and block row `by`
/// is the raster pixel at `(bx * nppbh + lx, by * nppbv + ly)`.
pub proof fn lemma_tile_placement(w: ImageWrapper, bx: int, by: int, lx: int, ly: int)
    requires
        !w.unblocked(),
        0 <= bx,
        0 <= by,
        0 <= lx < w.nppbh,
        0 <= ly < w.nppbv,
    ensures
        ({
            let x = bx * w.nppbh + lx;
            let y = by * w.nppbv + ly;
            w.pixel(x, y) == w.tile_sample(bx, by, lx, ly, x, y)
        }),
{
    vstd::arithmetic::div_mod::lemma_fundamental_div_mod_converse(
        bx * w.nppbh + lx,
        w.nppbh as int,
        bx,
        lx,
    );
    vstd::arithmetic::div_mod::lemma_fundamental_div_mod_converse(
        by * w.nppbv + ly,
        w.nppbv as int,
        by,
        ly,
    );
}

/// Blocked: a decoded pixel is opaque exactly when the plane holds its
/// sample and it lies inside the significant rows and columns; in the
/// padding, and where the plane holds no sample, it is transparent. So in a
/// column of the significant extent for which samples are held, rows below
/// `nrows` are opaque and rows from `nrows` on are transparent.
pub proof fn lemma_blocked_alpha(w: ImageWrapper, r: Raster, x: int, y: int)
    requires
        w.decodes_to(r),
        !w.unblocked(),
        r.contains(x, y),
    ensures
        y >= w.nrows ==> r.pixel(x, y).3 == 0,
        x >= w.ncols ==> r.pixel(x, y).3 == 0,
        !w.tile_holds(x, y) ==> r.pixel(x, y) == transparent(),
        w.tile_holds(x, y) && x < w.ncols && y < w.nrows ==> r.pixel(x, y).3 == 255,
{
    assert(r.image()[(x, y)] == w.image()[(x, y)]);
}

/// A divisor goes into a length at most `index` times exactly when the
/// chunk after those does not fit.
proof fn lemma_chunk_fits(len: int, size: int, index: int)
    requires
        0 <= len,
        0 < size,
        0 <= index,
    ensures
        index < len / size <==> (index + 1) * size <= len,
{
    vstd::arithmetic::div_mod::lemma_fundamental_div_mod(len, size);
    vstd::arithmetic::div_mod::lemma_mod_bound(len, size);
    let q = len / size;
    if index < q {
        assert((index + 1) * size <= q * size) by (nonlinear_arith)
            requires
                index + 1 <= q,
                0 < size,
        ;
        assert(size * q == q * size) by (nonlinear_arith);
    } else {
        assert((index + 1) * size >= (q + 1) * size) by (nonlinear_arith)
            requires
                index + 1 >= q + 1,
                0 < size,
        ;
        assert((q + 1) * size == size * q + size) by (nonlinear_arith);
    }
}

/// A product of two bounded naturals is bounded by the product of the bounds.
proof fn lemma_product_bound(a: int, b: int, a_max: int, b_max: int)
    by (nonlinear_arith)
    requires
        0 <= a <= a_max,
        0 <= b <= b_max,
    ensures
        0 <= a * b <= a_max * b_max,
{
}

impl<'a> ImageWrapper<'a> {
    /// Whether the first band carries a complete palette.
    fn palette_present(&self) -> (b: bool)
        ensures
            b == self.has_palette(),
    {
        if self.bands.len() == 0 {
            return false;
        }
        let lutd = &self.bands[0].lutd;
        if lutd.len() < 3 {
            return false;
        }
        let ok = lutd[0].len() >= LUT_ENTRIES && lutd[1].len() >= LUT_ENTRIES && lutd[2].len()
            >= LUT_ENTRIES;
        proof {
            if ok {
                assert forall|c: int| 0 <= c < 3 implies (#[trigger] self.bands@[0].lutd@[c])@.len()
                    >= LUT_ENTRIES by {
                    assert(c == 0 || c == 1 || c == 2);
                }
            }
        }
        ok
    }

    /// Tells whether this segment can be decoded, and if not, why.
    pub fn check(&self) -> (res: VizResult<()>)
        ensures
            res == match self.decode_error() {
                Some(e) => Err::<(), VizError>(e),
                None => Ok(()),
            },
    {
        if self.nbpp % 8 != 0 {
            return Err(VizError::UnsupportedBitDepth(self.nbpp));
        }
        match self.irep {
            ImageRepresentation::Mono | ImageRepresentation::Rgb | ImageRepresentation::RgbLut => {},
            other => {
                return Err(VizError::UnsupportedRepresentation(other));
            },
        }
        if self.nbpp != 8 {
            return Err(VizError::UnsupportedBitDepth(self.nbpp));
        }
        match self.irep {
            ImageRepresentation::RgbLut => {
                if !self.palette_present() {
                    return Err(VizError::UnsupportedRepresentation(self.irep));
                }
            },
            _ => {},
        }
        Ok(())
    }

    /// Reads the color of sample `i` of `data`.
    fn read_color(&self, data: &[u8], i: u64) -> (c: Option<(u8, u8, u8)>)
        requires
            self.decode_error() is None,
        ensures
            c == self.color(data@, i as int),
    {
        let len = data.len() as u64;
        match self.irep {
            ImageRepresentation::Mono => {
                if i < len {
                    let v = data[i as usize];
                    Some((v, v, v))
                } else {
                    None
                }
            },
            ImageRepresentation::Rgb => {
                if i < len / 3 {
                    let at = (3 * i) as usize;
                    Some((data[at], data[at + 1], data[at + 2]))
                } else {
                    None
                }
            },
            ImageRepresentation::RgbLut => {
                if i < len {
                    let v = data[i as usize] as usize;
                    let lutd = &self.bands[0].lutd;
                    assert(self.bands@[0].lutd@[0]@.len() >= LUT_ENTRIES);
                    assert(self.bands@[0].lutd@[1]@.len() >= LUT_ENTRIES);
                    assert(self.bands@[0].lutd@[2]@.len() >= LUT_ENTRIES);
                    Some((lutd[0][v], lutd[1][v], lutd[2][v]))
                } else {
                    None
                }
            },
            _ => None,
        }
    }

    /// The width of the decoded raster.
    pub fn width(&self) -> (w: u32)
        ensures
            w == self.raster_width(),
    {
        if self.nbpr < 2 {
            self.ncols
        } else {
            proof {
                lemma_product_bound(self.nbpr as int, self.nppbh as int, 0xffff, 0xffff);
            }
            self.nbpr as u32 * self.nppbh as u32
        }
    }

    /// The height of the decoded raster.
    pub fn height(&self) -> (h: u32)
        ensures
            h == self.raster_height(),
    {
        if self.nbpc < 2 {
            self.nrows
        } else {
            proof {
                lemma_product_bound(self.nbpc as int, self.nppbv as int, 0xffff, 0xffff);
            }
            self.nbpc as u32 * self.nppbv as u32
        }
    }

    /// Decodes the pixel at `(x, y)` of an unblocked segment.
    fn read_flat(&self, x: u32, y: u32) -> (p: Rgba8)
        requires
            self.decode_error() is None,
        ensures
            p == self.flat_pixel(x as int, y as int),
    {
        proof {
            lemma_product_bound(y as int, self.ncols as int, 0xffff_ffff, 0xffff_ffff);
        }
        let i: u64 = y as u64 * self.ncols as u64 + x as u64;
        match self.read_color(self.data, i) {
            Some(c) => (c.0, c.1, c.2, 255),
            None => (0, 0, 0, 0),
        }
    }

    /// The placement of the tile that covers `(x, y)`.
    fn block_at(&self, x: u32, y: u32) -> (b: BlockInfo)
        requires
            self.nppbh > 0,
            self.nppbv > 0,
        ensures
            b.width == self.nppbh,
            b.height == self.nppbv,
            b.x == (x as int / self.nppbh as int) * self.nppbh,
            b.y == (y as int / self.nppbv as int) * self.nppbv,
            x - b.x == x as int % self.nppbh as int,
            y - b.y == y as int % self.nppbv as int,
    {
        let width = self.nppbh as u32;
        let height = self.nppbv as u32;
        proof {
            vstd::arithmetic::div_mod::lemma_fundamental_div_mod(x as int, width as int);
            vstd::arithmetic::div_mod::lemma_fundamental_div_mod(y as int, height as int);
            vstd::arithmetic::div_mod::lemma_mod_bound(x as int, width as int);
            vstd::arithmetic::div_mod::lemma_mod_bound(y as int, height as int);
            vstd::arithmetic::mul::lemma_mul_is_commutative(
                width as int,
                x as int / width as int,
            );
            vstd::arithmetic::mul::lemma_mul_is_commutative(
                height as int,
                y as int / height as int,
            );
        }
        BlockInfo { x: (x / width) * width, y: (y / height) * height, width, height }
    }

    /// The bytes that one tile takes in the plane.
    fn tile_bytes(&self) -> (size: u64)
        ensures
            size == self.chunk_size(),
    {
        let per_pixel = (self.nbpp / 8) as u64;
        let width = self.nppbh as u64;
        let height = self.nppbv as u64;
        let bands = self.nbands as u64;
        proof {
            lemma_product_bound(per_pixel as int, width as int, 31, 0xffff);
            lemma_product_bound((per_pixel * width) as int, height as int, 2031585, 0xffff);
            lemma_product_bound(
                (per_pixel * width * height) as int,
                bands as int,
                133139922975,
                255,
            );
        }
        per_pixel * width * height * bands
    }

    /// Decodes the pixel at `(x, y)` of a blocked segment.
    fn read_tiled(&self, x: u32, y: u32) -> (p: Rgba8)
        requires
            self.decode_error() is None,
        ensures
            p == self.tile_pixel(x as int, y as int),
    {
        if self.nppbh == 0 || self.nppbv == 0 {
            return (0, 0, 0, 0);
        }
        let block = self.block_at(x, y);
        let bx = x / block.width;
        let by = y / block.height;
        if bx >= self.nbpr as u32 || by >= self.nbpc as u32 {
            return (0, 0, 0, 0);
        }
        proof {
            lemma_product_bound(by as int, self.nbpr as int, 0xffff, 0xffff);
        }
        let index: u64 = bx as u64 + by as u64 * self.nbpr as u64;
        let size = self.tile_bytes();
        let len = self.data.len() as u64;
        if size == 0 {
            assert(index * size == 0 && (index + 1) * size == 0) by (nonlinear_arith)
                requires
                    size == 0,
            ;
            assert(self.chunk(index as int).len() == 0);
            return (0, 0, 0, 0);
        }
        proof {
            lemma_chunk_fits(len as int, size as int, index as int);
        }
        if index >= len / size {
            return (0, 0, 0, 0);
        }
        assert(index * size + size == (index + 1) * size) by (nonlinear_arith);
        assert(0 <= index * size) by (nonlinear_arith)
            requires
                0 <= index,
                0 <= size,
        ;
        let start = (index * size) as usize;
        let chunk = vstd::slice::slice_subrange(self.data, start, start + size as usize);
        let lx = x - block.x;
        let ly = y - block.y;
        proof {
            lemma_product_bound(ly as int, block.width as int, 0xffff, 0xffff);
        }
        let local: u64 = lx as u64 + ly as u64 * block.width as u64;
        let alpha: u8 = if x >= self.ncols || y >= self.nrows {
            0
        } else {
            255
        };
        match self.read_color(chunk, local) {
            Some(c) => (c.0, c.1, c.2, alpha),
            None => (0, 0, 0, 0),
        }
    }

    /// Decodes the pixel at `(x, y)`.
    fn read_pixel(&self, x: u32, y: u32) -> (p: Rgba8)
        requires
            self.decode_error() is None,
        ensures
            p == self.pixel(x as int, y as int),
    {
        if self.nbpr == 1 && self.nbpc == 1 {
            self.read_flat(x, y)
        } else {
            self.read_tiled(x, y)
        }
    }

    /// Decodes the segment into a raster.
    ///
    /// The raster has the significant extent, or the full tiled extent where
    /// the segment has at least two blocks along an axis. Each pixel is the
    /// sample that the plane holds for it; a pixel for which the plane holds
    /// no complete sample is transparent black.
    pub fn read_image(&self) -> (res: VizResult<Raster>)
        requires
            self.decode_error() is None ==> self.raster_fits(),
        ensures
            match res {
                Ok(r) => self.decode_error() is None && self.decodes_to(r),
                Err(e) => self.decode_error() == Some(e),
            },
    {
        match self.check() {
            Err(e) => {
                return Err(e);
            },
            Ok(()) => {},
        }
        let width = self.width();
        let height = self.height();
        let mut image = Raster::blank(width, height);
        let mut y: u32 = 0;
        while y < height
            invariant
                self.decode_error() is None,
                y <= height,
                raster_dims(image) == (width as nat, height as nat),
                forall|px: int, py: int|
                    0 <= px < width && 0 <= py < y ==> raster_pixels(image)[(px, py)]
                        == #[trigger] self.pixel(px, py),
            decreases height - y,
        {
            let mut x: u32 = 0;
            while x < width
                invariant
                    self.decode_error() is None,
                    y < height,
                    x <= width,
                    raster_dims(image) == (width as nat, height as nat),
                    forall|px: int, py: int|
                        0 <= px < width && 0 <= py < y ==> raster_pixels(image)[(px, py)]
                            == #[trigger] self.pixel(px, py),
                    forall|px: int|
                        0 <= px < x ==> raster_pixels(image)[(px, y as int)] == #[trigger] self.pixel(
                            px,
                            y as int,
                        ),
                decreases width - x,
            {
                let p = self.read_pixel(x, y);
                image.put_pixel(x, y, p);
                x += 1;
            }
            y += 1;
        }
        assert(image.image() =~= self.image());
        Ok(image)
    }

    /// Tests `raster_fits`.
    pub fn can_decode(&self) -> (b: bool)
        ensures
            b == self.raster_fits(),
    {
        can_allocate(self.width(), self.height())
    }

    /// Tests `thumbnail_fits`.
    pub fn can_thumbnail(&self, width: u32, height: u32) -> (b: bool)
        ensures
            b == self.thumbnail_fits(width, height),
    {
        self.can_decode() && can_allocate(width, height) && sums_fit(
            self.width(),
            self.height(),
            width,
            height,
        )
    }

    /// Decodes the segment and reduces it to a thumbnail of the given size.
    pub fn get_image(&self, width: u32, height: u32) -> (res: VizResult<Raster>)
        requires
            self.decode_error() is None ==> self.thumbnail_fits(width, height),
        ensures
            match res {
                Ok(t) => {
                    &&& self.decode_error() is None
                    &&& raster_dims(t) == (width as nat, height as nat)
                    &&& t.image() == thumbnail_pixels(
                        self.image(),
                        self.raster_dims(),
                        width as nat,
                        height as nat,
                    )
                },
                Err(e) => self.decode_error() == Some(e),
            },
    {
        match self.read_image() {
            Ok(image) => Ok(image.thumbnail(width, height)),
            Err(e) => Err(e),
        }
    }
}

} // verus!
