//! From segments to the pictures that are written out.

use crate::error::VizResult;
use crate::image_wrapper::ImageWrapper;
use crate::raster::{brightened, raster_dims, thumbnail_pixels, Raster, Rgba8};
use vstd::prelude::*;

verus! {

/// What is made of a file.
#[derive(Debug, Clone, Copy, PartialEq, Eq, Structural)]
pub enum Output {
    /// One picture of all segments of complex data, stacked.
    Mosaic,
    /// One picture of the only segment.
    Still,
    /// One animation with a frame for each segment, in their order.
    Animation,
}

/// Decides what is made of a file: complex data is stacked into one
/// picture, a single segment gives a still, anything else an animation.
pub fn select_output(is_complex: bool, numi: u16) -> (o: Output)
    ensures
        o == if is_complex {
            Output::Mosaic
        } else if numi == 1 {
            Output::Still
        } else {
            Output::Animation
        },
{
    if is_complex {
        Output::Mosaic
    } else if numi == 1 {
        Output::Still
    } else {
        Output::Animation
    }
}

/// The segments of a file and how their pictures are adjusted.
pub struct Handler<'a> {
    /// Number of image segments.
    pub numi: u16,
    /// Images.
    pub wrappers: Vec<ImageWrapper<'a>>,
    /// Output brightness adjustment.
    pub brightness: i32,
}

impl<'a> Handler<'a> {
    /// Whether `res` is the picture of segment `i_seg` at the given size:
    /// its thumbnail with the brightness added, or the reason why the
    /// segment cannot be decoded.
    pub open spec fn pictures(self, i_seg: int, width: u32, height: u32, res: VizResult<Raster>) -> bool {
        let w = self.wrappers@[i_seg];
        match res {
            Ok(t) => {
                &&& w.decode_error() is None
                &&& raster_dims(t) == (width as nat, height as nat)
                &&& t.image() == thumbnail_pixels(
                    w.image(),
                    w.raster_dims(),
                    width as nat,
                    height as nat,
                ).map_values(|p: Rgba8| brightened(p, self.brightness as int))
            },
            Err(e) => w.decode_error() == Some(e),
        }
    }

    /// Whether segment `i_seg` can be pictured at the given size within the
    /// limits of the machine.
    pub open spec fn fits(self, i_seg: int, width: u32, height: u32) -> bool {
        let w = self.wrappers@[i_seg];
        w.decode_error() is None ==> w.thumbnail_fits(width, height)
    }

    /// The picture of one segment: decoded, reduced to the given size, and
    /// then made brighter or darker.
    pub fn get_image(&self, i_seg: usize, width: u32, height: u32) -> (res: VizResult<Raster>)
        requires
            i_seg < self.wrappers@.len(),
            self.fits(i_seg as int, width, height),
        ensures
            self.pictures(i_seg as int, width, height, res),
    {
        let mut image = match self.wrappers[i_seg].get_image(width, height) {
            Ok(image) => image,
            Err(e) => {
                return Err(e);
            },
        };
        let ghost plain = image;
        if self.brightness != 0 {
            image.brighten(self.brightness);
        } else {
            assert(image.image() =~= plain.image().map_values(|p: Rgba8| brightened(p, 0)));
        }
        Ok(image)
    }

    /// The frames of the animation: the picture of each of the first `numi`
    /// segments, in their order, each at its own size. A segment that cannot
    /// be decoded gives its reason in its place and does not stop the others.
    pub fn multi_segment(&self, sizes: &Vec<(u32, u32)>) -> (frames: Vec<VizResult<Raster>>)
        requires
            self.numi <= self.wrappers@.len(),
            sizes@.len() == self.numi,
            forall|i: int| 0 <= i < self.numi ==> self.fits(i, sizes@[i].0, sizes@[i].1),
        ensures
            frames@.len() == self.numi,
            forall|i: int|
                0 <= i < self.numi ==> self.pictures(i, sizes@[i].0, sizes@[i].1, #[trigger] frames@[i]),
    {
        let mut frames: Vec<VizResult<Raster>> = Vec::new();
        let mut i_seg: usize = 0;
        while i_seg < self.numi as usize
            invariant
                i_seg <= self.numi <= self.wrappers@.len(),
                sizes@.len() == self.numi,
                forall|i: int| 0 <= i < self.numi ==> self.fits(i, sizes@[i].0, sizes@[i].1),
                frames@.len() == i_seg,
                forall|i: int|
                    0 <= i < i_seg ==> self.pictures(i, sizes@[i].0, sizes@[i].1, #[trigger] frames@[i]),
            decreases self.numi - i_seg,
        {
            let size = sizes[i_seg];
            let frame = self.get_image(i_seg, size.0, size.1);
            frames.push(frame);
            i_seg += 1;
        }
        frames
    }
}

} // verus!
