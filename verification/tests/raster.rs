use nitf_viz::error::VizError;
use nitf_viz::image_wrapper::{ImageRepresentation, ImageWrapper};
use nitf_viz::raster::{can_allocate, sums_fit};
use nitf_viz::resample::gray_raster;
use std::io::Cursor;

fn mono<'a>(ncols: u32, nrows: u32, data: &'a [u8]) -> ImageWrapper<'a> {
    ImageWrapper {
        nrows,
        ncols,
        irep: ImageRepresentation::Mono,
        nbands: 1,
        nbpp: 8,
        nbpc: 1,
        nbpr: 1,
        bands: Vec::new(),
        nppbh: 0,
        nppbv: 0,
        data,
    }
}

#[test]
fn thumbnail_halves_by_block_means() {
    let data: Vec<u8> = (0..16u32).map(|v| v as u8).collect();
    let w = mono(4, 4, &data);
    assert!(w.can_thumbnail(2, 2));
    let t = w.get_image(2, 2).unwrap();
    assert_eq!((t.width(), t.height()), (2, 2));
    assert_eq!(t.pixel_at(0, 0), Some((3, 3, 3, 255)));
    assert_eq!(t.pixel_at(1, 0), Some((5, 5, 5, 255)));
    assert_eq!(t.pixel_at(0, 1), Some((11, 11, 11, 255)));
    assert_eq!(t.pixel_at(1, 1), Some((13, 13, 13, 255)));
    assert_eq!(t.pixel_at(2, 0), None);
}

#[test]
fn thumbnail_is_the_one_of_the_image_crate() {
    let data: Vec<u8> = (0..35u32).map(|v| (v * 7) as u8).collect();
    let w = mono(7, 5, &data);
    let full = w.read_image().unwrap();
    let source = image::RgbaImage::from_raw(7, 5, full.into_bytes()).unwrap();
    for (width, height) in [(3u32, 2u32), (7, 5), (10, 9), (1, 1), (0, 4)] {
        let expected = image::imageops::thumbnail(&source, width, height);
        let t = w.get_image(width, height).unwrap();
        assert_eq!((t.width(), t.height()), (width, height));
        assert_eq!(t.into_bytes(), expected.into_raw());
    }
}

#[test]
fn thumbnail_of_undecodable_segment_is_its_error() {
    let data = [0u8; 4];
    let mut w = mono(2, 2, &data);
    w.irep = ImageRepresentation::Polar;
    assert_eq!(
        w.get_image(1, 1).err(),
        Some(VizError::UnsupportedRepresentation(ImageRepresentation::Polar))
    );
}

#[test]
fn brighten_adds_and_saturates() {
    let data = [250u8, 5, 100, 0, 255, 128];
    let w = ImageWrapper { irep: ImageRepresentation::Rgb, nbands: 3, ..mono(2, 1, &data) };
    let mut r = w.read_image().unwrap();
    r.brighten(10);
    assert_eq!(r.pixel_at(0, 0), Some((255, 15, 110, 255)));
    assert_eq!(r.pixel_at(1, 0), Some((10, 255, 138, 255)));
    r.brighten(-20);
    assert_eq!(r.pixel_at(0, 0), Some((235, 0, 90, 255)));
    assert_eq!(r.pixel_at(1, 0), Some((0, 235, 118, 255)));
    r.brighten(0);
    assert_eq!(r.pixel_at(0, 0), Some((235, 0, 90, 255)));
}

#[test]
fn brighten_takes_every_offset() {
    let data = [1u8, 2, 3];
    let w = ImageWrapper { irep: ImageRepresentation::Rgb, nbands: 3, ..mono(1, 1, &data) };
    let mut r = w.read_image().unwrap();
    r.brighten(i32::MAX);
    assert_eq!(r.pixel_at(0, 0), Some((255, 255, 255, 255)));
    r.brighten(i32::MIN);
    assert_eq!(r.pixel_at(0, 0), Some((0, 0, 0, 255)));
    r.brighten(i32::MAX - 255);
    assert_eq!(r.pixel_at(0, 0), Some((255, 255, 255, 255)));
}

#[test]
fn brighten_leaves_alpha_alone() {
    let r0 = mono(2, 1, &[7u8]).read_image().unwrap();
    assert_eq!(r0.pixel_at(1, 0), Some((0, 0, 0, 0)));
    let mut r = r0;
    r.brighten(5);
    assert_eq!(r.pixel_at(0, 0), Some((12, 12, 12, 255)));
    assert_eq!(r.pixel_at(1, 0), Some((5, 5, 5, 0)));
    assert_eq!((r.width(), r.height()), (2, 1));
}

#[test]
fn bytes_are_row_major_rgba() {
    let data = [1u8, 2, 3, 4, 5, 6];
    let w = mono(3, 2, &data);
    let r = w.read_image().unwrap();
    let bytes = r.into_bytes();
    assert_eq!(bytes.len(), 4 * 3 * 2);
    for y in 0..2usize {
        for x in 0..3usize {
            let at = 4 * (y * 3 + x);
            let v = data[y * 3 + x];
            assert_eq!(&bytes[at..at + 4], &[v, v, v, 255]);
        }
    }
}

#[test]
fn pixel_outside_the_raster_is_none() {
    let r = mono(3, 2, &[0u8; 6]).read_image().unwrap();
    assert_eq!(r.pixel_at(3, 0), None);
    assert_eq!(r.pixel_at(0, 2), None);
    assert_eq!(r.pixel_at(u32::MAX, u32::MAX), None);
    assert_eq!(r.pixel_at(2, 1), Some((0, 0, 0, 255)));
}

#[test]
fn gray_raster_shows_intensities() {
    let samples = [10u8, 20, 30, 40, 50];
    let r = gray_raster(3, 2, &samples);
    assert_eq!((r.width(), r.height()), (3, 2));
    assert_eq!(r.pixel_at(0, 0), Some((10, 10, 10, 255)));
    assert_eq!(r.pixel_at(2, 0), Some((30, 30, 30, 255)));
    assert_eq!(r.pixel_at(1, 1), Some((50, 50, 50, 255)));
    assert_eq!(r.pixel_at(2, 1), Some((0, 0, 0, 0)));
}

#[test]
fn still_image_round_trips_through_png() {
    let data: Vec<u8> = (0..48u32).map(|v| (v * 5) as u8).collect();
    let w = ImageWrapper {
        irep: ImageRepresentation::Rgb,
        nbands: 3,
        nbpr: 2,
        nbpc: 2,
        nppbh: 2,
        nppbv: 2,
        ..mono(3, 3, &data)
    };
    let bytes = w.read_image().unwrap().into_bytes();
    let picture = image::RgbaImage::from_raw(4, 4, bytes.clone()).unwrap();
    let mut encoded: Vec<u8> = Vec::new();
    picture.write_to(&mut Cursor::new(&mut encoded), image::ImageOutputFormat::Png).unwrap();
    let decoded =
        image::load_from_memory_with_format(&encoded, image::ImageFormat::Png).unwrap().to_rgba8();
    assert_eq!(decoded.dimensions(), (4, 4));
    assert_eq!(decoded.into_raw(), bytes);
}

#[test]
fn allocation_limit_is_four_bytes_a_pixel() {
    assert!(can_allocate(0, 0));
    assert!(can_allocate(u32::MAX, 0));
    assert!(can_allocate(65536, 65536));
    let most = (isize::MAX as u128 / 4) as u64;
    if most < u32::MAX as u64 * u32::MAX as u64 {
        assert!(!can_allocate(u32::MAX, u32::MAX));
    }
    assert_eq!(can_allocate(1 << 31, 1 << 30), (1u128 << 63) <= isize::MAX as u128);
    assert_eq!(can_allocate(1 << 30, 1 << 30), (1u128 << 62) <= isize::MAX as u128);
}

#[test]
fn box_sums_fit_up_to_two_to_the_24() {
    // (4092 / 1 + 0 + 4) squared is exactly 2^24.
    assert!(sums_fit(4092, 4092, 1, 1));
    assert!(!sums_fit(4093, 4092, 1, 1));
    assert!(sums_fit(100_000, 100_000, 256, 256));
    assert!(!sums_fit(100_000, 100_000, 1, 1));
    assert!(sums_fit(u32::MAX, u32::MAX, u32::MAX, u32::MAX));
    assert!(!sums_fit(u32::MAX, u32::MAX, 1, u32::MAX));
    assert!(sums_fit(u32::MAX, u32::MAX, 0, 1));
    assert!(sums_fit(u32::MAX, u32::MAX, 1, 0));
    assert!(sums_fit(0, 0, 1, 1));
}
