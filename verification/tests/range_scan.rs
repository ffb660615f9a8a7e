use baseline_eto_data::range::find_pixel_range;
use baseline_eto_data::EtoError;

#[test]
fn bounds_cover_the_scanned_half_of_each_row() {
    // width 4: only columns 0 and 1 are scanned.
    let raster: Vec<u16> = vec![
        5, 0xFFF9, 7, 100, // row 0: 5 scanned; 0xFFF9 invalid; 7 and 100 unscanned
        3, 2, 9, 9, // row 1: 3 and 2 scanned
    ];
    let meta = find_pixel_range(&raster, 4, 2).unwrap();
    assert_eq!(meta.min, 2);
    assert_eq!(meta.max, 5);
}

#[test]
fn right_half_of_a_row_never_affects_bounds() {
    let raster: Vec<u16> = vec![50, 60, 1, 9999];
    let meta = find_pixel_range(&raster, 4, 1).unwrap();
    assert_eq!(meta.min, 50);
    assert_eq!(meta.max, 60);
}

#[test]
fn sentinel_samples_are_skipped_entirely() {
    let raster: Vec<u16> = vec![0xFFFF, 123, 0xFFF9, 7, 456, 0, 0, 0];
    let meta = find_pixel_range(&raster, 8, 1).unwrap();
    // columns 0..4 scanned: 0xFFFF and 0xFFF9 skipped, 123 and 7 kept
    assert_eq!(meta.min, 7);
    assert_eq!(meta.max, 123);
}

#[test]
fn largest_valid_sample_is_accepted() {
    let raster: Vec<u16> = vec![0xFFF8, 0xFFF8];
    let meta = find_pixel_range(&raster, 2, 1).unwrap();
    assert_eq!(meta.min, 0xFFF8);
    assert_eq!(meta.max, 0xFFF8);
}

#[test]
fn all_invalid_is_a_reportable_error() {
    let raster: Vec<u16> = vec![0xFFFF, 0xFFF9, 0xFFFE, 0xFFFA];
    assert_eq!(find_pixel_range(&raster, 2, 2), Err(EtoError::NoValidSamples));
}

#[test]
fn valid_samples_only_in_the_unscanned_half_count_for_nothing() {
    // width 4, height 1: columns 2 and 3 hold valid data, but the scan
    // never visits them.
    let raster: Vec<u16> = vec![0xFFFF, 0xFFF9, 1, 2];
    assert_eq!(find_pixel_range(&raster, 4, 1), Err(EtoError::NoValidSamples));
}

#[test]
fn single_sample_raster() {
    let raster: Vec<u16> = vec![77, 88];
    // width 2: half is 1, so only column 0 is scanned.
    let meta = find_pixel_range(&raster, 2, 1).unwrap();
    assert_eq!(meta.min, 77);
    assert_eq!(meta.max, 77);
}
