use nitf_viz::error::VizError;
use nitf_viz::mosaic::MosaicIndex;
use nitf_viz::resample::BoxSample;

fn planes(rows: &[u32], cols: u32) -> Vec<Vec<u8>> {
    let mut next: u32 = 0;
    rows.iter()
        .map(|n| {
            (0..n * cols)
                .map(|_| {
                    next += 1;
                    next as u8
                })
                .collect()
        })
        .collect()
}

fn small() -> MosaicIndex {
    // Rows 1 2 3 / 4 5 6 in the first segment, 7 8 9 in the second.
    MosaicIndex::new(planes(&[2, 1], 3), vec![2, 1], 3).unwrap()
}

#[test]
fn resolve_finds_segment_and_local_row() {
    let rows = vec![100u32, 50, 30];
    let m = MosaicIndex::new(planes(&rows, 1), rows, 1).unwrap();
    assert_eq!(m.total_rows(), 180);
    assert_eq!(m.resolve(0), Ok((0, 0)));
    assert_eq!(m.resolve(99), Ok((0, 99)));
    assert_eq!(m.resolve(100), Ok((1, 0)));
    assert_eq!(m.resolve(120), Ok((1, 20)));
    assert_eq!(m.resolve(179), Ok((2, 29)));
    assert_eq!(m.resolve(180), Err(VizError::RowOutOfRange));
    assert_eq!(m.resolve(usize::MAX), Err(VizError::RowOutOfRange));
}

#[test]
fn resolve_skips_empty_segments() {
    let rows = vec![0u32, 2, 0, 0, 3, 0];
    let m = MosaicIndex::new(planes(&rows, 2), rows, 2).unwrap();
    assert_eq!(m.total_rows(), 5);
    assert_eq!(m.resolve(0), Ok((1, 0)));
    assert_eq!(m.resolve(1), Ok((1, 1)));
    assert_eq!(m.resolve(2), Ok((4, 0)));
    assert_eq!(m.resolve(4), Ok((4, 2)));
    assert_eq!(m.resolve(5), Err(VizError::RowOutOfRange));
}

#[test]
fn empty_mosaic_has_no_row() {
    let m = MosaicIndex::new(Vec::new(), Vec::new(), 4).unwrap();
    assert_eq!(m.total_rows(), 0);
    assert_eq!(m.cols(), 4);
    assert_eq!(m.resolve(0), Err(VizError::RowOutOfRange));
    assert_eq!(m.sample(0, 0), Err(VizError::RowOutOfRange));
}

#[test]
fn new_refuses_planes_that_do_not_match() {
    assert!(MosaicIndex::new(vec![vec![0; 6]], vec![2], 3).is_some());
    assert!(MosaicIndex::new(vec![vec![0; 5]], vec![2], 3).is_none());
    assert!(MosaicIndex::new(vec![vec![0; 7]], vec![2], 3).is_none());
    assert!(MosaicIndex::new(vec![vec![0; 6]], vec![2, 0], 3).is_none());
    assert!(MosaicIndex::new(vec![vec![0; 6], vec![]], vec![2], 3).is_none());
    assert!(MosaicIndex::new(vec![vec![0; 6], vec![]], vec![2, 0], 3).is_some());
}

#[test]
fn new_refuses_more_rows_than_32_bits_count() {
    let rows = vec![u32::MAX, 1];
    assert!(MosaicIndex::new(vec![Vec::new(), Vec::new()], rows, 0).is_none());
    let rows = vec![u32::MAX - 1, 1];
    let m = MosaicIndex::new(vec![Vec::new(), Vec::new()], rows, 0).unwrap();
    assert_eq!(m.total_rows(), u32::MAX);
}

#[test]
fn sample_reads_across_segments() {
    let m = small();
    let mut expected: u8 = 0;
    for row in 0..3usize {
        for col in 0..3usize {
            expected += 1;
            assert_eq!(m.sample(row, col), Ok(expected));
        }
    }
    assert_eq!(m.sample(3, 0), Err(VizError::RowOutOfRange));
    assert_eq!(m.sample(0, 3), Err(VizError::ColumnOutOfRange));
    assert_eq!(m.sample(3, 3), Err(VizError::RowOutOfRange));
}

#[test]
fn box_over_rows_and_columns_gives_the_mean() {
    let m = small();
    assert_eq!(m.sample_box(0, 2, 0, 2), Ok(BoxSample::Mean(3)));
    assert_eq!(m.sample_box(0, 3, 0, 3), Ok(BoxSample::Mean(5)));
    assert_eq!(m.sample_box(1, 3, 1, 3), Ok(BoxSample::Mean(7)));
    // 1 + 2 + 3 + 4 + 5 + 6 = 21 over 6 samples, rounded down.
    assert_eq!(m.sample_box(0, 2, 0, 3), Ok(BoxSample::Mean(3)));
}

#[test]
fn box_over_rows_only_gives_two_column_sums() {
    let m = small();
    assert_eq!(m.sample_box(0, 2, 1, 1), Ok(BoxSample::Columns { left: 7, right: 9, rows: 2 }));
    assert_eq!(m.sample_box(0, 3, 0, 0), Ok(BoxSample::Columns { left: 12, right: 15, rows: 3 }));
    assert_eq!(m.sample_box(0, 2, 2, 2), Err(VizError::ColumnOutOfRange));
}

#[test]
fn box_over_columns_only_gives_two_row_sums() {
    let m = small();
    assert_eq!(m.sample_box(1, 1, 0, 2), Ok(BoxSample::Rows { bottom: 9, top: 15, cols: 2 }));
    assert_eq!(m.sample_box(0, 0, 0, 3), Ok(BoxSample::Rows { bottom: 6, top: 15, cols: 3 }));
    assert_eq!(m.sample_box(2, 2, 0, 2), Err(VizError::RowOutOfRange));
}

#[test]
fn box_over_neither_gives_four_corners() {
    let m = small();
    assert_eq!(m.sample_box(1, 1, 1, 1), Ok(BoxSample::Corner { bl: 5, tl: 8, br: 6, tr: 9 }));
    assert_eq!(m.sample_box(0, 0, 0, 0), Ok(BoxSample::Corner { bl: 1, tl: 4, br: 2, tr: 5 }));
    assert_eq!(m.sample_box(2, 2, 1, 1), Err(VizError::RowOutOfRange));
    assert_eq!(m.sample_box(1, 1, 2, 2), Err(VizError::ColumnOutOfRange));
    assert_eq!(m.sample_box(2, 2, 2, 2), Err(VizError::RowOutOfRange));
}

#[test]
fn edges_are_held_to_the_source() {
    let m = small();
    // Lower edges beyond the source fall on the last row and column.
    assert_eq!(m.sample_box(10, 20, 10, 20), Ok(BoxSample::Mean(9)));
    // An upper edge below the lower one is raised to it.
    assert_eq!(m.sample_box(1, 0, 1, 0), Ok(BoxSample::Corner { bl: 5, tl: 8, br: 6, tr: 9 }));
    assert_eq!(m.sample_box(0, u32::MAX, 0, u32::MAX), Ok(BoxSample::Mean(5)));
    assert_eq!(m.sample_box(u32::MAX, 0, 0, 1), Err(VizError::RowOutOfRange));
}

#[test]
fn source_without_rows_or_columns_holds_nothing() {
    let m = MosaicIndex::new(Vec::new(), Vec::new(), 3).unwrap();
    assert_eq!(m.sample_box(0, 1, 0, 1), Err(VizError::RowOutOfRange));
    let m = MosaicIndex::new(vec![Vec::new()], vec![2], 0).unwrap();
    assert_eq!(m.sample_box(0, 1, 0, 1), Err(VizError::ColumnOutOfRange));
    let m = MosaicIndex::new(Vec::new(), Vec::new(), 0).unwrap();
    assert_eq!(m.sample_box(0, 1, 0, 1), Err(VizError::RowOutOfRange));
}

#[test]
fn uniform_source_gives_the_constant_in_every_case() {
    let k = 201u8;
    let m = MosaicIndex::new(vec![vec![k; 12], vec![k; 8]], vec![3, 2], 4).unwrap();
    assert_eq!(m.sample_box(0, 5, 0, 4), Ok(BoxSample::Mean(k)));
    assert_eq!(m.sample_box(2, 4, 1, 3), Ok(BoxSample::Mean(k)));
    assert_eq!(
        m.sample_box(1, 4, 2, 2),
        Ok(BoxSample::Columns { left: 3 * k as u64, right: 3 * k as u64, rows: 3 })
    );
    assert_eq!(
        m.sample_box(2, 2, 0, 4),
        Ok(BoxSample::Rows { bottom: 4 * k as u64, top: 4 * k as u64, cols: 4 })
    );
    assert_eq!(m.sample_box(3, 3, 1, 1), Ok(BoxSample::Corner { bl: k, tl: k, br: k, tr: k }));
}

#[test]
fn complex_samples_are_cut_by_position() {
    let plane: Vec<u8> = (0..20u32).map(|v| v as u8).collect();
    assert_eq!(nitf_viz::complex::sample_count(&plane), 2);
    assert_eq!(nitf_viz::complex::sample(&plane, 0), Some([[0, 1, 2, 3], [4, 5, 6, 7]]));
    assert_eq!(nitf_viz::complex::sample(&plane, 1), Some([[8, 9, 10, 11], [12, 13, 14, 15]]));
    assert_eq!(nitf_viz::complex::sample(&plane, 2), None);
    assert_eq!(nitf_viz::complex::sample(&plane, usize::MAX), None);
    assert_eq!(nitf_viz::complex::sample(&plane[..16], 1), Some([[8, 9, 10, 11], [12, 13, 14, 15]]));
    assert_eq!(nitf_viz::complex::sample(&plane[..15], 1), None);
    assert_eq!(nitf_viz::complex::sample_count(&plane[..7]), 0);
}

#[test]
fn complex_sample_keeps_big_endian_parts() {
    let mut plane = Vec::new();
    plane.extend_from_slice(&3.0f32.to_be_bytes());
    plane.extend_from_slice(&(-4.0f32).to_be_bytes());
    let z = nitf_viz::complex::sample(&plane, 0).unwrap();
    assert_eq!(f32::from_be_bytes(z[0]), 3.0);
    assert_eq!(f32::from_be_bytes(z[1]), -4.0);
}
