use baseline_eto_data::engine::check_neighbor_bounds;
use baseline_eto_data::engine::fill_missing_pixels;
use baseline_eto_data::engine::mask_row;
use baseline_eto_data::engine::Geometry;
use baseline_eto_data::header::Header;
use baseline_eto_data::EtoError;

fn test_header(width: u32, height: u32) -> Header {
    Header {
        version: 1,
        width,
        height,
        bit_depth: 8,
        minimum_eto_bits: 0,
        scaling_factor_bits: 0,
    }
}

/// A geometry whose mask has one cell per pixel column and a mask tall
/// enough that the crop offset stays inside the supplied mask buffer.
fn geometry(width: usize, height: usize) -> Geometry {
    Geometry { width, height, mask_width: width, mask_height: 18 }
}

/// Crop offset for the geometries above: mask_width * 18 * 10 / 180.
fn crop(width: usize) -> usize {
    width * 18 * 10 / 180
}

fn raster(width: usize, height: usize, payload: &[u8]) -> Vec<u8> {
    let mut bytes = test_header(width as u32, height as u32).encode();
    bytes.extend_from_slice(payload);
    bytes
}

/// A mask buffer that marks every cell of every row with `value`.
fn uniform_mask(width: usize, height: usize, value: u8) -> Vec<u8> {
    vec![value; crop(width) + width * height]
}

#[test]
fn scenario_width_4_sparse_row() {
    // Quantized raster [10, 0xFF, 0xFF, 20] on all-land mask: each center
    // pixel sees 10 (weight 4 or 3) and 20 (weight 3 or 4) for a total
    // weight of 7, below the acceptance threshold of 11, so neither fills.
    let g = geometry(4, 1);
    let header = test_header(4, 1);
    let input = raster(4, 1, &[10, 0xFF, 0xFF, 20]);
    let mask = uniform_mask(4, 1, 255);
    let (out, stats) = fill_missing_pixels(&input, &mask, &g, &header).unwrap();
    assert_eq!(&out[32..], &[10, 0xFF, 0xFF, 20]);
    assert_eq!(stats.filled, 0);
    assert_eq!(stats.unfilled, 2);
    assert_eq!(stats.water, 0);
}

#[test]
fn fill_value_is_the_truncated_weighted_average() {
    // x == 2 is invalid land; its valid neighbors contribute
    // 100*3 + 50*4 + 60*4 + 200*3 == 1340 over weight 14, so it fills
    // with 1340 / 14 == 95 (truncating).
    let g = geometry(6, 1);
    let header = test_header(6, 1);
    let input = raster(6, 1, &[100, 50, 0xFF, 60, 200, 7]);
    let mask = uniform_mask(6, 1, 255);
    let (out, stats) = fill_missing_pixels(&input, &mask, &g, &header).unwrap();
    assert_eq!(&out[32..], &[100, 50, 95, 60, 200, 7]);
    assert_eq!(stats.filled, 1);
    assert_eq!(stats.unfilled, 0);
    assert_eq!(stats.water, 0);
}

#[test]
fn output_carries_the_supplied_header() {
    let g = geometry(4, 1);
    let header = test_header(4, 1);
    let input = raster(4, 1, &[1, 2, 3, 4]);
    let mask = uniform_mask(4, 1, 255);
    let (out, _) = fill_missing_pixels(&input, &mask, &g, &header).unwrap();
    assert_eq!(&out[..32], &header.encode()[..]);
}

#[test]
fn water_pixels_are_copied_unchanged() {
    // 128 is not strictly above the land threshold, so everything is
    // water: even the invalid pixel is copied through untouched.
    let g = geometry(2, 1);
    let header = test_header(2, 1);
    let input = raster(2, 1, &[0xFF, 5]);
    let mask = uniform_mask(2, 1, 128);
    let (out, stats) = fill_missing_pixels(&input, &mask, &g, &header).unwrap();
    assert_eq!(&out[32..], &[0xFF, 5]);
    assert_eq!(stats.filled, 0);
    assert_eq!(stats.unfilled, 0);
    assert_eq!(stats.water, 2);
}

#[test]
fn mask_downsampling_gates_pixel_columns_in_blocks() {
    // width 4 over mask width 2: each mask cell gates two columns.
    // Cell 0 is land, cell 1 is water.
    let g = Geometry { width: 4, height: 1, mask_width: 2, mask_height: 18 };
    let header = test_header(4, 1);
    let input = raster(4, 1, &[0xFF, 0xFF, 0xFF, 7]);
    let c = 2 * 18 * 10 / 180; // crop offset of this mask geometry
    let mut mask = vec![0u8; c];
    mask.extend_from_slice(&[200, 100]);
    let (out, stats) = fill_missing_pixels(&input, &mask, &g, &header).unwrap();
    // x0: land, invalid, only neighbor x3 is out of its window reach once
    // invalid ones are skipped -> weight 0, unfilled.
    // x1: land, invalid, sees 7 at distance 2 (weight 3), unfilled.
    // x2, x3: water, copied.
    assert_eq!(&out[32..], &[0xFF, 0xFF, 0xFF, 7]);
    assert_eq!(stats.filled, 0);
    assert_eq!(stats.unfilled, 2);
    assert_eq!(stats.water, 2);
}

#[test]
fn size_mismatch_is_rejected_with_no_output() {
    let g = geometry(4, 1);
    let header = test_header(4, 1);
    let input = raster(4, 1, &[1, 2, 3]); // one byte short
    let mask = uniform_mask(4, 1, 255);
    assert_eq!(
        fill_missing_pixels(&input, &mask, &g, &header),
        Err(EtoError::SizeMismatch)
    );
}

#[test]
fn too_small_a_mask_is_an_io_error() {
    let g = geometry(4, 1);
    let header = test_header(4, 1);
    let input = raster(4, 1, &[1, 2, 3, 4]);
    let mask = vec![255u8; crop(4)]; // ends exactly where row 0 begins
    assert_eq!(
        fill_missing_pixels(&input, &mask, &g, &header),
        Err(EtoError::IoError)
    );
}

#[test]
fn corner_weight_11_does_not_fill() {
    // Corner (0,0) invalid with its three nearest neighbors valid:
    // weights 4 + 4 + 3 accumulate exactly 11, which does not clear the
    // strictly-greater gate.
    let g = geometry(5, 5);
    let header = test_header(5, 5);
    let mut payload = vec![0xFFu8; 25];
    payload[1] = 10; // (1,0), weight 4
    payload[5] = 10; // (0,1), weight 4
    payload[6] = 10; // (1,1), weight 3
    let input = raster(5, 5, &payload);
    let mask = uniform_mask(5, 5, 255);
    let (out, _) = fill_missing_pixels(&input, &mask, &g, &header).unwrap();
    assert_eq!(out[32], 0xFF);
}

#[test]
fn corner_weight_14_fills() {
    // One more valid neighbor at (2,0) adds weight 3: 14 clears the threshold
    // and the corner fills with the average of all-equal neighbors.
    let g = geometry(5, 5);
    let header = test_header(5, 5);
    let mut payload = vec![0xFFu8; 25];
    payload[1] = 10;
    payload[5] = 10;
    payload[6] = 10;
    payload[2] = 10; // (2,0), weight 3
    let input = raster(5, 5, &payload);
    let mask = uniform_mask(5, 5, 255);
    let (out, _) = fill_missing_pixels(&input, &mask, &g, &header).unwrap();
    assert_eq!(out[32], 10);
}

#[test]
fn interior_cell_uses_its_full_5x5_window() {
    // 5x5 raster, all valid 20 except the center: the center fills from
    // all 24 neighbors with total weight 60.
    let g = geometry(5, 5);
    let header = test_header(5, 5);
    let mut payload = vec![20u8; 25];
    payload[12] = 0xFF;
    let input = raster(5, 5, &payload);
    let mask = uniform_mask(5, 5, 255);
    let (out, stats) = fill_missing_pixels(&input, &mask, &g, &header).unwrap();
    assert_eq!(out[32 + 12], 20);
    assert_eq!(stats.filled, 1);
    assert_eq!(stats.unfilled, 0);
}

#[test]
fn check_neighbor_bounds_flags_out_of_range_coordinates() {
    // true means "skip this neighbor"
    assert!(check_neighbor_bounds(-1, 0, 4, 3));
    assert!(check_neighbor_bounds(0, -2, 4, 3));
    assert!(check_neighbor_bounds(4, 0, 4, 3));
    assert!(check_neighbor_bounds(0, 3, 4, 3));
    assert!(!check_neighbor_bounds(0, 0, 4, 3));
    assert!(!check_neighbor_bounds(3, 2, 4, 3));
}

#[test]
fn mask_rows_are_read_at_the_cropped_downsampled_offset() {
    // crop(4) is 4 bytes, so row 0 starts right after them.
    let g = geometry(4, 1);
    let mask = vec![0, 1, 2, 3, 10, 20, 130, 200];
    assert_eq!(mask_row(&mask, &g, 0).unwrap(), vec![10, 20, 130, 200]);

    // Two columns per mask cell: row 1 of a 4x2 raster with mask width 2
    // reads bytes 4..6 ((1/2)*2 + crop(2)).
    let g2 = Geometry { width: 4, height: 2, mask_width: 2, mask_height: 18 };
    let mask2 = vec![9, 9, 7, 8, 5, 6];
    assert_eq!(mask_row(&mask2, &g2, 0).unwrap(), vec![7, 8]);
    assert_eq!(mask_row(&mask2, &g2, 1).unwrap(), vec![7, 8]);

    let short = vec![0u8; 5];
    assert_eq!(mask_row(&short, &g, 0), Err(EtoError::IoError));
}

#[test]
fn geometry_well_formedness_is_checked() {
    assert!(geometry(4, 1).is_well_formed());
    let zero_mask = Geometry { width: 4, height: 1, mask_width: 0, mask_height: 18 };
    assert!(!zero_mask.is_well_formed());
    let uneven = Geometry { width: 5, height: 1, mask_width: 2, mask_height: 18 };
    assert!(!uneven.is_well_formed());
    let wider_mask = Geometry { width: 2, height: 1, mask_width: 4, mask_height: 18 };
    assert!(!wider_mask.is_well_formed());
}
