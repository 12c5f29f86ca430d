//! Sampling a mosaic for one pixel of a smaller picture.
//!
//! A pixel of the output covers a box of the source. Depending on whether
//! the box spans whole source rows and whole source columns, the pixel is
//! the mean of the samples in the box, or the caller blends a few sums or
//! samples by the fractions with which the box covers them. This module
//! finds the box, decides which of the four it is, and adds up the samples.

use crate::error::{VizError, VizResult};
use crate::image_wrapper::{mono_color, with_alpha, ImageRepresentation, ImageWrapper};
use crate::mosaic::{MosaicIndex, MosaicView};
use crate::raster::{allocatable, raster_dims, transparent, Raster, Rgba8};
use vstd::prelude::*;

verus! {

/// The rows `bottom..top` and columns `left..right` of the source that one
/// output pixel covers.
#[derive(Debug, Clone, Copy, PartialEq, Eq, Structural)]
pub struct SourceBox {
    pub bottom: u32,
    pub top: u32,
    pub left: u32,
    pub right: u32,
}

/// What the source holds for one output pixel.
#[derive(Debug, Clone, Copy, PartialEq, Eq, Structural)]
pub enum BoxSample {
    /// The box spans rows and columns: the mean of all samples in it,
    /// rounded down.
    Mean(u8),
    /// The box spans rows only: the sums, over its rows, of its column and
    /// of the column to the right, and the number of rows.
    Columns { left: u64, right: u64, rows: u32 },
    /// The box spans columns only: the sums, over its columns, of its row
    /// and of the row above, and the number of columns.
    Rows { bottom: u64, top: u64, cols: u32 },
    /// The box spans neither: the four samples around it.
    Corner { bl: u8, tl: u8, br: u8, tr: u8 },
}

/// `v`, held to the range from `lo` to `hi`.
pub open spec fn clamped(v: int, lo: int, hi: int) -> int {
    if v < lo {
        lo
    } else if v > hi {
        hi
    } else {
        v
    }
}

impl SourceBox {
    /// Whether the box is ordered and lies in a source of the given size,
    /// with its first row and column inside.
    pub open spec fn within(self, rows: int, cols: int) -> bool {
        &&& self.bottom < rows
        &&& self.bottom <= self.top <= rows
        &&& self.left < cols
        &&& self.left <= self.right <= cols
    }

    /// The number of samples in the box.
    pub open spec fn count(self) -> int {
        (self.top - self.bottom) * (self.right - self.left)
    }
}

impl MosaicView {
    /// The box that the edges describe once they are held to the source:
    /// the lower edges to the last row and column, the upper edges between
    /// the lower ones and the size.
    pub open spec fn source_box(self, row_lo: u32, row_hi: u32, col_lo: u32, col_hi: u32) -> SourceBox {
        let bottom = clamped(row_lo as int, 0, self.total_rows() - 1);
        let left = clamped(col_lo as int, 0, self.cols - 1);
        SourceBox {
            bottom: bottom as u32,
            top: clamped(row_hi as int, bottom, self.total_rows()) as u32,
            left: left as u32,
            right: clamped(col_hi as int, left, self.cols as int) as u32,
        }
    }

    /// The sum of column `col` over the rows `bottom..top`.
    pub open spec fn column_sum(self, col: int, bottom: int, top: int) -> int
        decreases top - bottom,
    {
        if top <= bottom {
            0
        } else {
            self.column_sum(col, bottom, top - 1) + self.value(top - 1, col)
        }
    }

    /// The sum of row `row` over the columns `left..right`.
    pub open spec fn row_sum(self, row: int, left: int, right: int) -> int
        decreases right - left,
    {
        if right <= left {
            0
        } else {
            self.row_sum(row, left, right - 1) + self.value(row, right - 1)
        }
    }

    /// The sum of all samples in the rows `bottom..top` and the columns
    /// `left..right`.
    pub open spec fn area_sum(self, bottom: int, top: int, left: int, right: int) -> int
        decreases top - bottom,
    {
        if top <= bottom {
            0
        } else {
            self.area_sum(bottom, top - 1, left, right) + self.row_sum(top - 1, left, right)
        }
    }

    /// What the source holds for a box.
    ///
    /// A box that spans rows and columns gives the mean of its samples. One
    /// that spans rows only gives the sums of two neighbouring columns, one
    /// that spans columns only the sums of two neighbouring rows, and one
    /// that spans neither the four samples around it; each of these needs
    /// the neighbour to exist.
    pub open spec fn box_sample(self, b: SourceBox) -> VizResult<BoxSample> {
        if b.bottom != b.top && b.left != b.right {
            Ok(
                BoxSample::Mean(
                    (self.area_sum(b.bottom as int, b.top as int, b.left as int, b.right as int)
                        / b.count()) as u8,
                ),
            )
        } else if b.bottom != b.top {
            if b.left + 1 >= self.cols {
                Err(VizError::ColumnOutOfRange)
            } else {
                Ok(
                    BoxSample::Columns {
                        left: self.column_sum(b.left as int, b.bottom as int, b.top as int) as u64,
                        right: self.column_sum(b.left + 1, b.bottom as int, b.top as int) as u64,
                        rows: (b.top - b.bottom) as u32,
                    },
                )
            }
        } else if b.bottom + 1 >= self.total_rows() {
            Err(VizError::RowOutOfRange)
        } else if b.left != b.right {
            Ok(
                BoxSample::Rows {
                    bottom: self.row_sum(b.bottom as int, b.left as int, b.right as int) as u64,
                    top: self.row_sum(b.bottom + 1, b.left as int, b.right as int) as u64,
                    cols: (b.right - b.left) as u32,
                },
            )
        } else if b.left + 1 >= self.cols {
            Err(VizError::ColumnOutOfRange)
        } else {
            Ok(
                BoxSample::Corner {
                    bl: self.value(b.bottom as int, b.left as int),
                    tl: self.value(b.bottom + 1, b.left as int),
                    br: self.value(b.bottom as int, b.left + 1),
                    tr: self.value(b.bottom + 1, b.left + 1),
                },
            )
        }
    }

    /// What the source holds for the box that the edges describe. A source
    /// without rows or without columns holds nothing.
    pub open spec fn edge_sample(self, row_lo: u32, row_hi: u32, col_lo: u32, col_hi: u32) -> VizResult<
        BoxSample,
    > {
        if self.total_rows() <= 0 {
            Err(VizError::RowOutOfRange)
        } else if self.cols == 0 {
            Err(VizError::ColumnOutOfRange)
        } else {
            self.box_sample(self.source_box(row_lo, row_hi, col_lo, col_hi))
        }
    }
}

/// A sum over a column is at most 255 for each row.
pub proof fn lemma_column_sum_bound(m: MosaicView, col: int, bottom: int, top: int)
    requires
        bottom <= top,
    ensures
        0 <= m.column_sum(col, bottom, top) <= 255 * (top - bottom),
    decreases top - bottom,
{
    if bottom < top {
        lemma_column_sum_bound(m, col, bottom, top - 1);
    }
}

/// A sum over a row is at most 255 for each column.
pub proof fn lemma_row_sum_bound(m: MosaicView, row: int, left: int, right: int)
    requires
        left <= right,
    ensures
        0 <= m.row_sum(row, left, right) <= 255 * (right - left),
    decreases right - left,
{
    if left < right {
        lemma_row_sum_bound(m, row, left, right - 1);
    }
}

/// A sum over an area is at most 255 for each sample.
pub proof fn lemma_area_sum_bound(m: MosaicView, bottom: int, top: int, left: int, right: int)
    requires
        bottom <= top,
        left <= right,
    ensures
        0 <= m.area_sum(bottom, top, left, right) <= 255 * ((top - bottom) * (right - left)),
    decreases top - bottom,
{
    if bottom < top {
        lemma_area_sum_bound(m, bottom, top - 1, left, right);
        lemma_row_sum_bound(m, top - 1, left, right);
        assert((top - bottom) * (right - left) == (top - 1 - bottom) * (right - left) + (right
            - left)) by (nonlinear_arith);
    } else {
        assert((top - bottom) * (right - left) == 0) by (nonlinear_arith)
            requires
                top - bottom == 0,
        ;
    }
}

/// The mean of samples is a sample: a sum of at most 255 for each of
/// `count` samples, divided by `count`, is at most 255.
proof fn lemma_mean_bound(sum: int, count: int)
    by (nonlinear_arith)
    requires
        0 <= sum <= 255 * count,
        0 < count,
    ensures
        0 <= sum / count <= 255,
{
}

/// Holds `v` to the range from `lo` to `hi`.
fn clamp(v: u32, lo: u32, hi: u32) -> (c: u32)
    requires
        lo <= hi,
    ensures
        c == clamped(v as int, lo as int, hi as int),
{
    if v < lo {
        lo
    } else if v > hi {
        hi
    } else {
        v
    }
}

impl MosaicIndex {
    /// The sample at a place that the mosaic holds.
    fn value_at(&self, row: u32, col: u32) -> (v: u8)
        requires
            self@.holds(row as int, col as int),
        ensures
            v == self@.value(row as int, col as int),
    {
        match self.sample(row as usize, col as usize) {
            Ok(v) => v,
            Err(_) => vstd::pervasive::unreached(),
        }
    }

    /// Adds up column `col` over the rows `bottom..top`.
    fn column_total(&self, col: u32, bottom: u32, top: u32) -> (sum: u64)
        requires
            bottom <= top <= self@.total_rows(),
            col < self@.cols,
        ensures
            sum == self@.column_sum(col as int, bottom as int, top as int),
    {
        let mut sum: u64 = 0;
        let mut row = bottom;
        while row < top
            invariant
                bottom <= row <= top <= self@.total_rows(),
                col < self@.cols,
                sum == self@.column_sum(col as int, bottom as int, row as int),
                sum <= 255 * (row - bottom),
            decreases top - row,
        {
            sum = sum + self.value_at(row, col) as u64;
            row += 1;
        }
        sum
    }

    /// Adds up row `row` over the columns `left..right`.
    fn row_total(&self, row: u32, left: u32, right: u32) -> (sum: u64)
        requires
            row < self@.total_rows(),
            left <= right <= self@.cols,
        ensures
            sum == self@.row_sum(row as int, left as int, right as int),
            sum <= 255 * (right - left),
    {
        let mut sum: u64 = 0;
        let mut col = left;
        while col < right
            invariant
                row < self@.total_rows(),
                left <= col <= right <= self@.cols,
                sum == self@.row_sum(row as int, left as int, col as int),
                sum <= 255 * (col - left),
            decreases right - col,
        {
            sum = sum + self.value_at(row, col) as u64;
            col += 1;
        }
        sum
    }

    /// The mean, rounded down, of the samples in a box that spans rows and
    /// columns.
    fn area_mean(&self, b: SourceBox) -> (mean: u8)
        requires
            b.within(self@.total_rows(), self@.cols as int),
            b.bottom != b.top,
            b.left != b.right,
        ensures
            mean == (self@.area_sum(b.bottom as int, b.top as int, b.left as int, b.right as int)
                / b.count()) as u8,
    {
        let mut sum: u128 = 0;
        let mut row = b.bottom;
        while row < b.top
            invariant
                b.within(self@.total_rows(), self@.cols as int),
                b.bottom <= row <= b.top,
                sum == self@.area_sum(b.bottom as int, row as int, b.left as int, b.right as int),
                sum <= (row - b.bottom) * 1095216660225,
            decreases b.top - row,
        {
            let line = self.row_total(row, b.left, b.right);
            sum = sum + line as u128;
            row += 1;
        }
        let height = (b.top - b.bottom) as u128;
        let width = (b.right - b.left) as u128;
        proof {
            assert(0 < height * width <= 0xffff_ffff * 0xffff_ffff) by (nonlinear_arith)
                requires
                    0 < height <= 0xffff_ffff,
                    0 < width <= 0xffff_ffff,
            ;
            lemma_area_sum_bound(
                self@,
                b.bottom as int,
                b.top as int,
                b.left as int,
                b.right as int,
            );
            lemma_mean_bound(sum as int, b.count());
        }
        (sum / (height * width)) as u8
    }

    /// What the source holds for a box that lies in it.
    fn gather(&self, b: SourceBox) -> (res: VizResult<BoxSample>)
        requires
            b.within(self@.total_rows(), self@.cols as int),
        ensures
            res == self@.box_sample(b),
    {
        let rows = self.total_rows();
        let cols = self.cols();
        if b.bottom != b.top && b.left != b.right {
            Ok(BoxSample::Mean(self.area_mean(b)))
        } else if b.bottom != b.top {
            if b.left + 1 >= cols {
                return Err(VizError::ColumnOutOfRange);
            }
            proof {
                lemma_column_sum_bound(self@, b.left as int, b.bottom as int, b.top as int);
                lemma_column_sum_bound(self@, b.left + 1, b.bottom as int, b.top as int);
            }
            Ok(
                BoxSample::Columns {
                    left: self.column_total(b.left, b.bottom, b.top),
                    right: self.column_total(b.left + 1, b.bottom, b.top),
                    rows: b.top - b.bottom,
                },
            )
        } else if b.bottom + 1 >= rows {
            Err(VizError::RowOutOfRange)
        } else if b.left != b.right {
            Ok(
                BoxSample::Rows {
                    bottom: self.row_total(b.bottom, b.left, b.right),
                    top: self.row_total(b.bottom + 1, b.left, b.right),
                    cols: b.right - b.left,
                },
            )
        } else if b.left + 1 >= cols {
            Err(VizError::ColumnOutOfRange)
        } else {
            Ok(
                BoxSample::Corner {
                    bl: self.value_at(b.bottom, b.left),
                    tl: self.value_at(b.bottom + 1, b.left),
                    br: self.value_at(b.bottom, b.left + 1),
                    tr: self.value_at(b.bottom + 1, b.left + 1),
                },
            )
        }
    }

    /// What the source holds for one output pixel, whose box has the given
    /// lower and upper edges along the rows and along the columns.
    ///
    /// The edges are first held to the source. A source without rows gives
    /// `RowOutOfRange`, one without columns `ColumnOutOfRange`, and so does a
    /// box that needs a neighbouring row or column beyond the last.
    pub fn sample_box(&self, row_lo: u32, row_hi: u32, col_lo: u32, col_hi: u32) -> (res: VizResult<
        BoxSample,
    >)
        ensures
            res == self@.edge_sample(row_lo, row_hi, col_lo, col_hi),
    {
        let rows = self.total_rows();
        let cols = self.cols();
        if rows == 0 {
            return Err(VizError::RowOutOfRange);
        }
        if cols == 0 {
            return Err(VizError::ColumnOutOfRange);
        }
        let bottom = clamp(row_lo, 0, rows - 1);
        let top = clamp(row_hi, bottom, rows);
        let left = clamp(col_lo, 0, cols - 1);
        let right = clamp(col_hi, left, cols);
        self.gather(SourceBox { bottom, top, left, right })
    }
}

/// Whether every sample that the mosaic holds is `k`.
pub open spec fn uniform(m: MosaicView, k: u8) -> bool {
    forall|row: int, col: int| m.holds(row, col) ==> #[trigger] m.value(row, col) == k
}

/// Over a uniform source, the sum of a column is `k` for each row.
proof fn lemma_uniform_column(m: MosaicView, k: u8, col: int, bottom: int, top: int)
    requires
        uniform(m, k),
        0 <= bottom <= top <= m.total_rows(),
        0 <= col < m.cols,
    ensures
        m.column_sum(col, bottom, top) == k * (top - bottom),
    decreases top - bottom,
{
    if bottom < top {
        lemma_uniform_column(m, k, col, bottom, top - 1);
        assert(m.holds(top - 1, col));
        assert(k * (top - bottom) == k * (top - 1 - bottom) + k) by (nonlinear_arith);
    } else {
        assert(k * (top - bottom) == 0) by (nonlinear_arith)
            requires
                top - bottom == 0,
        ;
    }
}

/// Over a uniform source, the sum of a row is `k` for each column.
proof fn lemma_uniform_row(m: MosaicView, k: u8, row: int, left: int, right: int)
    requires
        uniform(m, k),
        0 <= row < m.total_rows(),
        0 <= left <= right <= m.cols,
    ensures
        m.row_sum(row, left, right) == k * (right - left),
    decreases right - left,
{
    if left < right {
        lemma_uniform_row(m, k, row, left, right - 1);
        assert(m.holds(row, right - 1));
        assert(k * (right - left) == k * (right - 1 - left) + k) by (nonlinear_arith);
    } else {
        assert(k * (right - left) == 0) by (nonlinear_arith)
            requires
                right - left == 0,
        ;
    }
}

/// Over a uniform source, the sum of an area is `k` for each sample.
proof fn lemma_uniform_area(m: MosaicView, k: u8, bottom: int, top: int, left: int, right: int)
    requires
        uniform(m, k),
        0 <= bottom <= top <= m.total_rows(),
        0 <= left <= right <= m.cols,
    ensures
        m.area_sum(bottom, top, left, right) == k * ((top - bottom) * (right - left)),
    decreases top - bottom,
{
    if bottom < top {
        lemma_uniform_area(m, k, bottom, top - 1, left, right);
        lemma_uniform_row(m, k, top - 1, left, right);
        assert(k * ((top - bottom) * (right - left)) == k * ((top - 1 - bottom) * (right - left))
            + k * (right - left)) by (nonlinear_arith);
    } else {
        assert(k * ((top - bottom) * (right - left)) == 0) by (nonlinear_arith)
            requires
                top - bottom == 0,
        ;
    }
}

/// Over a source whose every sample is `k`, whatever box a pixel covers,
/// what is gathered for it is `k` throughout: the mean is `k`, each sum is
/// `k` for each row or column it runs over, and the four corner samples are
/// `k`.
pub proof fn lemma_uniform_sample(
    m: MosaicView,
    k: u8,
    row_lo: u32,
    row_hi: u32,
    col_lo: u32,
    col_hi: u32,
)
    requires
        m.wf(),
        uniform(m, k),
    ensures
        match m.edge_sample(row_lo, row_hi, col_lo, col_hi) {
            Ok(BoxSample::Mean(v)) => v == k,
            Ok(BoxSample::Columns { left, right, rows }) => left == k * rows && right == k * rows,
            Ok(BoxSample::Rows { bottom, top, cols }) => bottom == k * cols && top == k * cols,
            Ok(BoxSample::Corner { bl, tl, br, tr }) => bl == k && tl == k && br == k && tr == k,
            Err(_) => true,
        },
{
    if m.total_rows() > 0 && m.cols > 0 {
        let b = m.source_box(row_lo, row_hi, col_lo, col_hi);
        let (bottom, top, left, right) = (b.bottom as int, b.top as int, b.left as int, b.right as int);
        assert(b.within(m.total_rows(), m.cols as int));
        if bottom != top && left != right {
            lemma_uniform_area(m, k, bottom, top, left, right);
            let count = b.count();
            assert(0 < count && (k * count) / count == k) by (nonlinear_arith)
                requires
                    count == (top - bottom) * (right - left),
                    top - bottom > 0,
                    right - left > 0,
            ;
        } else if bottom != top {
            if left + 1 < m.cols {
                lemma_uniform_column(m, k, left, bottom, top);
                lemma_uniform_column(m, k, left + 1, bottom, top);
                lemma_column_sum_bound(m, left, bottom, top);
                lemma_column_sum_bound(m, left + 1, bottom, top);
            }
        } else if bottom + 1 < m.total_rows() {
            if left != right {
                lemma_uniform_row(m, k, bottom, left, right);
                lemma_uniform_row(m, k, bottom + 1, left, right);
                lemma_row_sum_bound(m, bottom, left, right);
                lemma_row_sum_bound(m, bottom + 1, left, right);
            } else if left + 1 < m.cols {
                assert(m.holds(bottom, left));
                assert(m.holds(bottom + 1, left));
                assert(m.holds(bottom, left + 1));
                assert(m.holds(bottom + 1, left + 1));
            }
        }
    }
}

/// The gray pixel that a picture of `width` columns shows at `(x, y)` for
/// the intensities `samples`, taken row by row: opaque where there is an
/// intensity for the pixel, transparent black where `samples` ends before it.
pub open spec fn gray_pixel(samples: Seq<u8>, width: int, x: int, y: int) -> Rgba8 {
    match mono_color(samples, y * width + x) {
        Some(c) => with_alpha(c, 255u8),
        None => transparent(),
    }
}

/// Makes the gray raster of `width` by `height` pixels that shows the
/// intensities `samples`, taken row by row.
pub fn gray_raster(width: u32, height: u32, samples: &[u8]) -> (r: Raster)
    requires
        allocatable(width as int, height as int),
    ensures
        raster_dims(r) == (width as nat, height as nat),
        forall|x: int, y: int|
            r.contains(x, y) ==> r.pixel(x, y) == #[trigger] gray_pixel(
                samples@,
                width as int,
                x,
                y,
            ),
{
    let plane = ImageWrapper {
        nrows: height,
        ncols: width,
        irep: ImageRepresentation::Mono,
        nbands: 1,
        nbpp: 8,
        nbpc: 1,
        nbpr: 1,
        bands: Vec::new(),
        nppbh: 0,
        nppbv: 0,
        data: samples,
    };
    match plane.read_image() {
        Ok(r) => {
            assert forall|x: int, y: int| r.contains(x, y) implies r.pixel(x, y) == #[trigger] gray_pixel(
                samples@,
                width as int,
                x,
                y,
            ) by {
                assert(r.image()[(x, y)] == plane.image()[(x, y)]);
            }
            r
        },
        Err(_) => vstd::pervasive::unreached(),
    }
}

} // verus!
