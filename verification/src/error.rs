//! The conditions under which decoding or sampling is refused.

use crate::image_wrapper::ImageRepresentation;
use vstd::prelude::*;

verus! {

/// A failure that is handed back to the caller.
#[derive(Debug, Clone, Copy, PartialEq, Eq, Structural)]
pub enum VizError {
    /// The bits per pixel, carried here, are not the eight that one byte per
    /// sample needs.
    UnsupportedBitDepth(u8),
    /// The representation, carried here, cannot be decoded into a raster.
    UnsupportedRepresentation(ImageRepresentation),
    /// A row at or beyond the total number of rows was asked for.
    RowOutOfRange,
    /// A column at or beyond the common number of columns was asked for.
    ColumnOutOfRange,
}

pub type VizResult<T> = Result<T, VizError>;

} // verus!
