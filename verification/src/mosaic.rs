//! Several planes stacked top to bottom and addressed as one array.
//!
//! The planes share a column count and each holds its own rows, row by row,
//! one byte per sample. Stacked, they are the plane that their concatenation
//! would be; nothing is copied to address it.

use crate::error::{VizError, VizResult};
use vstd::prelude::*;

verus! {

/// The mathematical content of a mosaic.
pub struct MosaicView {
    /// The samples of each segment, row by row.
    pub planes: Seq<Seq<u8>>,
    /// The number of rows of each segment.
    pub rows: Seq<u32>,
    /// The number of columns that every segment has.
    pub cols: nat,
}

impl MosaicView {
    /// The rows held by the first `n` segments together.
    pub open spec fn rows_before(self, n: int) -> int
        decreases n,
    {
        if n <= 0 {
            0
        } else {
            self.rows_before(n - 1) + self.rows[n - 1]
        }
    }

    /// The rows of all segments together.
    pub open spec fn total_rows(self) -> int {
        self.rows_before(self.rows.len() as int)
    }

    /// The first `n` planes, one after the other.
    pub open spec fn stacked_to(self, n: int) -> Seq<u8>
        decreases n,
    {
        if n <= 0 {
            Seq::empty()
        } else {
            self.stacked_to(n - 1) + self.planes[n - 1]
        }
    }

    /// All planes, one after the other.
    pub open spec fn stacked(self) -> Seq<u8> {
        self.stacked_to(self.planes.len() as int)
    }

    /// The sample at `row` and `col` of the stacked planes.
    pub open spec fn value(self, row: int, col: int) -> u8 {
        self.stacked()[row * self.cols + col]
    }

    /// Whether `(row, col)` addresses a sample.
    pub open spec fn holds(self, row: int, col: int) -> bool {
        0 <= row < self.total_rows() && 0 <= col < self.cols
    }

    /// Each segment has a row count and a plane of exactly that many rows,
    /// and the rows of all segments can be counted in 32 bits.
    pub open spec fn wf(self) -> bool {
        &&& self.planes.len() == self.rows.len()
        &&& forall|i: int|
            0 <= i < self.rows.len() ==> (#[trigger] self.planes[i]).len() == self.rows[i]
                * self.cols
        &&& self.total_rows() <= u32::MAX
    }

    /// Whether global row `row` is row `local` of segment `segment`.
    pub open spec fn locates(self, row: int, segment: int, local: int) -> bool {
        &&& 0 <= segment < self.rows.len()
        &&& 0 <= local < self.rows[segment]
        &&& self.rows_before(segment) + local == row
    }
}

/// The rows before a segment never decrease from one segment to the next.
pub proof fn lemma_rows_before_monotonic(m: MosaicView, i: int, j: int)
    requires
        0 <= i <= j <= m.rows.len(),
    ensures
        0 <= m.rows_before(i) <= m.rows_before(j),
    decreases j,
{
    if i < j {
        lemma_rows_before_monotonic(m, i, j - 1);
    } else if 0 < j {
        lemma_rows_before_monotonic(m, i - 1, j - 1);
    }
}

/// A global row lies in one segment only, at one local row: the mapping
/// from global row to segment and local row is a function.
pub proof fn lemma_locates_unique(m: MosaicView, row: int, s1: int, l1: int, s2: int, l2: int)
    requires
        m.locates(row, s1, l1),
        m.locates(row, s2, l2),
    ensures
        s1 == s2,
        l1 == l2,
{
    if s1 < s2 {
        lemma_rows_before_monotonic(m, s1 + 1, s2);
    } else if s2 < s1 {
        lemma_rows_before_monotonic(m, s2 + 1, s1);
    }
}

/// A global row that lies in some segment is below the total, and every
/// row below the total lies in some segment.
pub proof fn lemma_locates_total(m: MosaicView, row: int)
    ensures
        (exists|s: int, l: int| m.locates(row, s, l)) <==> 0 <= row < m.total_rows(),
{
    if exists|s: int, l: int| m.locates(row, s, l) {
        let (s, l) = choose|s: int, l: int| m.locates(row, s, l);
        lemma_rows_before_monotonic(m, 0, s);
        lemma_rows_before_monotonic(m, s + 1, m.rows.len() as int);
    }
    if 0 <= row < m.total_rows() {
        lemma_segment_exists(m, row, m.rows.len() as int);
    }
}

/// A row below the rows of the first `n` segments lies in one of them.
proof fn lemma_segment_exists(m: MosaicView, row: int, n: int)
    requires
        0 <= n <= m.rows.len(),
        0 <= row < m.rows_before(n),
    ensures
        exists|s: int, l: int| m.locates(row, s, l),
    decreases n,
{
    if row < m.rows_before(n - 1) {
        lemma_segment_exists(m, row, n - 1);
    } else {
        assert(m.locates(row, n - 1, row - m.rows_before(n - 1)));
    }
}

/// The first `n` planes together hold as many samples as their rows times
/// the columns.
pub proof fn lemma_stacked_len(m: MosaicView, n: int)
    requires
        m.wf(),
        0 <= n <= m.rows.len(),
    ensures
        m.stacked_to(n).len() == m.rows_before(n) * m.cols,
    decreases n,
{
    if n > 0 {
        lemma_stacked_len(m, n - 1);
        assert((m.rows_before(n - 1) + m.rows[n - 1]) * m.cols == m.rows_before(n - 1) * m.cols
            + m.rows[n - 1] * m.cols) by (nonlinear_arith);
    }
}

/// Sample `at` of plane `segment` is the sample of the stacked planes that
/// lies `at` places after all rows of the segments before.
pub proof fn lemma_stacked_index(m: MosaicView, segment: int, at: int, n: int)
    requires
        m.wf(),
        0 <= segment < n <= m.rows.len(),
        0 <= at < m.planes[segment].len(),
    ensures
        m.rows_before(segment) * m.cols + at < m.stacked_to(n).len(),
        m.stacked_to(n)[m.rows_before(segment) * m.cols + at] == m.planes[segment][at],
    decreases n,
{
    lemma_stacked_len(m, n - 1);
    lemma_stacked_len(m, segment);
    if segment < n - 1 {
        lemma_stacked_index(m, segment, at, n - 1);
    }
}

/// In a well-formed mosaic, the sample at `(row, col)` is sample
/// `local * cols + col` of the plane in which the row lies.
pub proof fn lemma_value_in_segment(m: MosaicView, row: int, col: int, segment: int, local: int)
    requires
        m.wf(),
        m.locates(row, segment, local),
        0 <= col < m.cols,
    ensures
        0 <= local * m.cols + col < m.planes[segment].len(),
        m.value(row, col) == m.planes[segment][local * m.cols + col],
{
    let cols = m.cols as int;
    let n = m.rows[segment] as int;
    assert(0 <= local * cols && local * cols + cols <= n * cols) by (nonlinear_arith)
        requires
            0 <= local < n,
            0 <= cols,
    ;
    lemma_stacked_index(m, segment, local * cols + col, m.rows.len() as int);
    assert((m.rows_before(segment) + local) * cols == m.rows_before(segment) * cols + local
        * cols) by (nonlinear_arith);
}

/// The mosaic that planes, row counts and a column count describe.
pub open spec fn stack_of(arrays: Seq<Vec<u8>>, rows: Seq<u32>, cols: u32) -> MosaicView {
    MosaicView { planes: Seq::new(arrays.len(), |i: int| arrays[i]@), rows, cols: cols as nat }
}

/// Planes stacked top to bottom, with the number of rows of each.
pub struct MosaicIndex {
    arrays: Vec<Vec<u8>>,
    rows: Vec<u32>,
    cols: u32,
}

impl View for MosaicIndex {
    type V = MosaicView;

    closed spec fn view(&self) -> MosaicView {
        stack_of(self.arrays@, self.rows@, self.cols)
    }
}

impl MosaicIndex {
    #[verifier::type_invariant]
    spec fn inv(self) -> bool {
        self@.wf()
    }

    /// Stacks `arrays`, where plane `i` holds `rows[i]` rows of `cols`
    /// samples each. `None` where a plane and its row count disagree, a row
    /// count or a plane is missing, or the rows cannot be counted in 32 bits.
    pub fn new(arrays: Vec<Vec<u8>>, rows: Vec<u32>, cols: u32) -> (res: Option<MosaicIndex>)
        ensures
            match res {
                Some(index) => index@ == stack_of(arrays@, rows@, cols) && index@.wf(),
                None => !stack_of(arrays@, rows@, cols).wf(),
            },
    {
        let ghost m = stack_of(arrays@, rows@, cols);
        if arrays.len() != rows.len() {
            return None;
        }
        let mut total: u64 = 0;
        let mut i: usize = 0;
        while i < rows.len()
            invariant
                i <= rows.len(),
                arrays.len() == rows.len(),
                m == stack_of(arrays@, rows@, cols),
                total == m.rows_before(i as int),
                total <= u32::MAX,
                forall|j: int|
                    0 <= j < i ==> (#[trigger] m.planes[j]).len() == m.rows[j] * m.cols,
            decreases rows.len() - i,
        {
            proof {
                lemma_product_fits(rows[i as int] as int, cols as int);
            }
            let expected: u64 = rows[i] as u64 * cols as u64;
            if arrays[i].len() as u64 != expected {
                assert(m.planes[i as int].len() != m.rows[i as int] * m.cols);
                return None;
            }
            total = total + rows[i] as u64;
            if total > u32::MAX as u64 {
                proof {
                    lemma_rows_before_monotonic(m, i + 1, rows.len() as int);
                }
                return None;
            }
            i += 1;
        }
        Some(MosaicIndex { arrays, rows, cols })
    }

    /// The rows of all segments together.
    pub fn total_rows(&self) -> (n: u32)
        ensures
            n == self@.total_rows(),
    {
        proof {
            use_type_invariant(self);
        }
        let mut total: u32 = 0;
        let mut i: usize = 0;
        while i < self.rows.len()
            invariant
                i <= self.rows.len(),
                self@.rows == self.rows@,
                total == self@.rows_before(i as int),
                self@.total_rows() <= u32::MAX,
            decreases self.rows.len() - i,
        {
            proof {
                lemma_rows_before_monotonic(self@, i + 1, self.rows.len() as int);
            }
            total = total + self.rows[i];
            i += 1;
        }
        total
    }

    /// The number of columns that every segment has.
    pub fn cols(&self) -> (n: u32)
        ensures
            n == self@.cols,
    {
        self.cols
    }

    /// Finds the segment in which a global row lies, and the row's place in
    /// that segment.
    pub fn resolve(&self, global_row: usize) -> (res: VizResult<(usize, usize)>)
        ensures
            res is Ok <==> global_row < self@.total_rows(),
            match res {
                Ok((segment, local)) => self@.locates(
                    global_row as int,
                    segment as int,
                    local as int,
                ),
                Err(e) => e == VizError::RowOutOfRange,
            },
    {
        let mut segment: usize = 0;
        let mut before: usize = 0;
        while segment < self.rows.len()
            invariant
                segment <= self.rows.len(),
                self@.rows == self.rows@,
                before == self@.rows_before(segment as int),
                before <= global_row,
            decreases self.rows.len() - segment,
        {
            let n = self.rows[segment] as usize;
            if global_row - before < n {
                proof {
                    lemma_rows_before_monotonic(self@, segment + 1, self.rows.len() as int);
                }
                return Ok((segment, global_row - before));
            }
            before = before + n;
            segment += 1;
        }
        Err(VizError::RowOutOfRange)
    }

    /// The sample at `row` and `col` of the stacked planes.
    pub fn sample(&self, row: usize, col: usize) -> (res: VizResult<u8>)
        ensures
            res == if row >= self@.total_rows() {
                Err::<u8, VizError>(VizError::RowOutOfRange)
            } else if col >= self@.cols {
                Err(VizError::ColumnOutOfRange)
            } else {
                Ok(self@.value(row as int, col as int))
            },
    {
        let (segment, local) = match self.resolve(row) {
            Ok(found) => found,
            Err(e) => {
                return Err(e);
            },
        };
        if col >= self.cols as usize {
            return Err(VizError::ColumnOutOfRange);
        }
        proof {
            use_type_invariant(self);
            lemma_value_in_segment(self@, row as int, col as int, segment as int, local as int);
            assert(local * self.cols >= 0) by (nonlinear_arith)
                requires
                    local >= 0,
                    self.cols >= 0,
            ;
        }
        let plane = &self.arrays[segment];
        let cols = self.cols as usize;
        assert(plane@ == self@.planes[segment as int]);
        assert(local * cols + col < plane.len());
        Ok(plane[local * cols + col])
    }
}

/// A product of two 32-bit numbers fits 64 bits.
proof fn lemma_product_fits(a: int, b: int)
    by (nonlinear_arith)
    requires
        0 <= a <= u32::MAX,
        0 <= b <= u32::MAX,
    ensures
        0 <= a * b <= u64::MAX,
{
}

} // verus!
