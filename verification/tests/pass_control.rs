use baseline_eto_data::engine::fill_missing_pixels;
use baseline_eto_data::engine::Geometry;
use baseline_eto_data::engine::PixelStats;
use baseline_eto_data::header::Header;
use baseline_eto_data::passes::run_passes;
use baseline_eto_data::passes::stats_delta;
use baseline_eto_data::EtoError;

fn test_header(width: u32, height: u32) -> Header {
    Header {
        version: 1,
        width,
        height,
        bit_depth: 8,
        minimum_eto_bits: 0,
        scaling_factor_bits: 0,
    }
}

fn geometry(width: usize, height: usize) -> Geometry {
    Geometry { width, height, mask_width: width, mask_height: 18 }
}

fn raster(width: usize, height: usize, payload: &[u8]) -> Vec<u8> {
    let mut bytes = test_header(width as u32, height as u32).encode();
    bytes.extend_from_slice(payload);
    bytes
}

fn land_mask(width: usize, height: usize) -> Vec<u8> {
    vec![255u8; width * 18 * 10 / 180 + width * height]
}

#[test]
fn passes_feed_forward_and_report_first_and_last_stats() {
    // Pass 1 fills x2 (weight 14) and leaves x5..x7 unfilled; pass 2 can
    // fill nothing more, so unfilled stays at 3 and filled drops to 0.
    let g = geometry(8, 1);
    let header = test_header(8, 1);
    let input = raster(8, 1, &[10, 20, 0xFF, 30, 40, 0xFF, 0xFF, 0xFF]);
    let mask = land_mask(8, 1);
    let (out, first, last) = run_passes(&input, &mask, &g, &header, 2).unwrap();
    assert_eq!(&out[32..], &[10, 20, 25, 30, 40, 0xFF, 0xFF, 0xFF]);
    assert_eq!(first.filled, 1);
    assert_eq!(first.unfilled, 3);
    assert_eq!(first.water, 0);
    assert_eq!(last.filled, 0);
    assert_eq!(last.unfilled, 3);
    assert_eq!(last.water, 0);
}

#[test]
fn two_manual_passes_match_one_run_of_two() {
    let g = geometry(8, 1);
    let header = test_header(8, 1);
    let input = raster(8, 1, &[10, 20, 0xFF, 30, 40, 0xFF, 0xFF, 0xFF]);
    let mask = land_mask(8, 1);
    let (mid, first_a) = fill_missing_pixels(&input, &mask, &g, &header).unwrap();
    let (end, last_a) = fill_missing_pixels(&mid, &mask, &g, &header).unwrap();
    let (out, first_b, last_b) = run_passes(&input, &mask, &g, &header, 2).unwrap();
    assert_eq!(out, end);
    assert_eq!(first_a, first_b);
    assert_eq!(last_a, last_b);
}

#[test]
fn unfilled_count_never_increases_between_consecutive_passes() {
    let g = geometry(6, 2);
    let header = test_header(6, 2);
    let input = raster(
        6,
        2,
        &[10, 0xFF, 0xFF, 0xFF, 50, 0xFF, 0xFF, 30, 0xFF, 40, 0xFF, 0xFF],
    );
    let mask = land_mask(6, 2);
    let mut cur = input;
    let mut prev_unfilled = u64::MAX;
    for _ in 0..4 {
        let (next, stats) = fill_missing_pixels(&cur, &mask, &g, &header).unwrap();
        assert!(stats.unfilled <= prev_unfilled);
        prev_unfilled = stats.unfilled;
        cur = next;
    }
}

#[test]
fn a_single_pass_run_reports_the_same_stats_twice() {
    let g = geometry(4, 1);
    let header = test_header(4, 1);
    let input = raster(4, 1, &[10, 0xFF, 0xFF, 20]);
    let mask = land_mask(4, 1);
    let (_, first, last) = run_passes(&input, &mask, &g, &header, 1).unwrap();
    assert_eq!(first, last);
    assert_eq!(first.unfilled, 2);
}

#[test]
fn run_passes_surfaces_a_size_mismatch() {
    let g = geometry(4, 1);
    let header = test_header(4, 1);
    let input = vec![0u8; 35];
    let mask = land_mask(4, 1);
    assert_eq!(
        run_passes(&input, &mask, &g, &header, 3),
        Err(EtoError::SizeMismatch)
    );
}

#[test]
fn delta_is_signed_and_never_clamped() {
    let first = PixelStats { filled: 2, unfilled: 10, water: 7 };
    let last = PixelStats { filled: 5, unfilled: 4, water: 7 };
    let d = stats_delta(&first, &last);
    assert_eq!(d.filled, -3);
    assert_eq!(d.unfilled, 6);
    assert_eq!(d.water, 0);
}

#[test]
fn delta_handles_the_widest_counts() {
    let first = PixelStats { filled: 0, unfilled: u64::MAX, water: 0 };
    let last = PixelStats { filled: u64::MAX, unfilled: 0, water: 0 };
    let d = stats_delta(&first, &last);
    assert_eq!(d.filled, -(u64::MAX as i128));
    assert_eq!(d.unfilled, u64::MAX as i128);
}
