//! The range scan: one streaming traversal of the raw 16-bit raster that
//! derives the inclusive quantization bounds from every valid sample it
//! visits.
//!
//! The scan deliberately visits only the first half of each row's columns,
//! exactly as the data this pipeline was built around has always been
//! scanned; samples in the right half of a row never influence the bounds.
//! Changing this would change every downstream scale, so it is kept and
//! stated openly in the contract rather than silently widened.

use vstd::prelude::*;

use crate::lemma_grid_index;
use crate::EtoError;
use crate::RAW_VALID_MAX;

verus! {

/// The inclusive valid-value range used to derive the quantization scale:
/// either supplied by the caller or found by `find_pixel_range`.
#[derive(Clone, Copy, Debug, PartialEq, Eq, Structural)]
pub struct FileMeta {
    /// Minimum raw sample value of the range.
    pub min: u32,
    /// Maximum raw sample value of the range.
    pub max: u32,
}

/// A raw sample carries data iff it is at or below the sentinel floor.
pub open spec fn sample_valid(p: u16) -> bool {
    p <= RAW_VALID_MAX
}

/// The raw sample at column `x` of row `y` in a row-major raster.
pub open spec fn raw_at(r: Seq<u16>, width: int, x: int, y: int) -> u16 {
    r[y * width + x]
}

/// Whether the range scan visits column `x`: only the first half of each
/// row is ever scanned.
pub open spec fn scanned_col(width: int, x: int) -> bool {
    0 <= x < width / 2
}

/// Some visited sample is valid, so bounds can be derived at all.
pub open spec fn some_scanned_valid(r: Seq<u16>, width: int, height: int) -> bool {
    exists|x: int, y: int|
        0 <= y < height && scanned_col(width, x) && sample_valid(
            #[trigger] raw_at(r, width, x, y),
        )
}

/// Every valid visited sample lies inside `meta`'s bounds.
pub open spec fn bounds_cover_scanned(r: Seq<u16>, width: int, height: int, meta: FileMeta) -> bool {
    forall|x: int, y: int|
        0 <= y < height && scanned_col(width, x) && sample_valid(
            #[trigger] raw_at(r, width, x, y),
        ) ==> meta.min <= raw_at(r, width, x, y) <= meta.max
}

/// Both bounds are values of valid visited samples, so they are tight.
pub open spec fn bounds_attained(r: Seq<u16>, width: int, height: int, meta: FileMeta) -> bool {
    &&& exists|x: int, y: int|
        0 <= y < height && scanned_col(width, x) && sample_valid(
            #[trigger] raw_at(r, width, x, y),
        ) && raw_at(r, width, x, y) == meta.min
    &&& exists|x: int, y: int|
        0 <= y < height && scanned_col(width, x) && sample_valid(
            #[trigger] raw_at(r, width, x, y),
        ) && raw_at(r, width, x, y) == meta.max
}

/// Scans the raw raster once and returns the minimum and maximum over all
/// valid samples in the visited region. Succeeds iff at least one visited
/// sample is valid; otherwise no bounds exist and the scan reports
/// `NoValidSamples` rather than handing back nonsense.
pub fn find_pixel_range(raster: &Vec<u16>, width: usize, height: usize) -> (r: Result<
    FileMeta,
    EtoError,
>)
    requires
        raster@.len() == width * height,
    ensures
        r matches Ok(meta) ==> {
            &&& bounds_cover_scanned(raster@, width as int, height as int, meta)
            &&& bounds_attained(raster@, width as int, height as int, meta)
            &&& meta.min <= meta.max <= RAW_VALID_MAX
        },
        r matches Ok(_) <==> some_scanned_valid(raster@, width as int, height as int),
        !some_scanned_valid(raster@, width as int, height as int) ==> r == Err::<
            FileMeta,
            EtoError,
        >(EtoError::NoValidSamples),
{
    let half: usize = width / 2;
    // Binding the length shows the index arithmetic below that the whole
    // raster fits in a machine word.
    let _total: usize = raster.len();
    let mut min_value: u16 = 0xFFFF;
    let mut max_value: u16 = 0x0000;
    let mut found: bool = false;
    let mut y: usize = 0;
    while y < height
        invariant
            y <= height,
            raster@.len() == width * height,
            raster@.len() <= usize::MAX,
            half == width as int / 2,
            found <==> exists|xx: int, yy: int|
                0 <= yy < y && scanned_col(width as int, xx) && sample_valid(
                    #[trigger] raw_at(raster@, width as int, xx, yy),
                ),
            found ==> forall|xx: int, yy: int|
                0 <= yy < y && scanned_col(width as int, xx) && sample_valid(
                    #[trigger] raw_at(raster@, width as int, xx, yy),
                ) ==> min_value <= raw_at(raster@, width as int, xx, yy) <= max_value,
            found ==> exists|xx: int, yy: int|
                0 <= yy < y && scanned_col(width as int, xx) && sample_valid(
                    #[trigger] raw_at(raster@, width as int, xx, yy),
                ) && raw_at(raster@, width as int, xx, yy) == min_value,
            found ==> exists|xx: int, yy: int|
                0 <= yy < y && scanned_col(width as int, xx) && sample_valid(
                    #[trigger] raw_at(raster@, width as int, xx, yy),
                ) && raw_at(raster@, width as int, xx, yy) == max_value,
            found ==> min_value <= max_value <= RAW_VALID_MAX,
        decreases height - y,
    {
        let mut x: usize = 0;
        while x < half
            invariant
                x <= half,
                y < height,
                raster@.len() == width * height,
                raster@.len() <= usize::MAX,
                half == width as int / 2,
                found <==> exists|xx: int, yy: int|
                    (0 <= yy < y || (yy == y && 0 <= xx < x)) && scanned_col(width as int, xx)
                        && sample_valid(#[trigger] raw_at(raster@, width as int, xx, yy)),
                found ==> forall|xx: int, yy: int|
                    (0 <= yy < y || (yy == y && 0 <= xx < x)) && scanned_col(width as int, xx)
                        && sample_valid(#[trigger] raw_at(raster@, width as int, xx, yy))
                        ==> min_value <= raw_at(raster@, width as int, xx, yy) <= max_value,
                found ==> exists|xx: int, yy: int|
                    (0 <= yy < y || (yy == y && 0 <= xx < x)) && scanned_col(width as int, xx)
                        && sample_valid(#[trigger] raw_at(raster@, width as int, xx, yy)) && raw_at(
                        raster@,
                        width as int,
                        xx,
                        yy,
                    ) == min_value,
                found ==> exists|xx: int, yy: int|
                    (0 <= yy < y || (yy == y && 0 <= xx < x)) && scanned_col(width as int, xx)
                        && sample_valid(#[trigger] raw_at(raster@, width as int, xx, yy)) && raw_at(
                        raster@,
                        width as int,
                        xx,
                        yy,
                    ) == max_value,
                found ==> min_value <= max_value <= RAW_VALID_MAX,
            decreases half - x,
        {
            proof {
                lemma_grid_index(width as int, height as int, x as int, y as int);
            }
            let pixel = raster[y * width + x];
            proof {
                assert(raw_at(raster@, width as int, x as int, y as int) == pixel);
            }
            if pixel <= RAW_VALID_MAX {
                if !found {
                    found = true;
                    min_value = pixel;
                    max_value = pixel;
                } else {
                    if pixel < min_value {
                        min_value = pixel;
                    }
                    if pixel > max_value {
                        max_value = pixel;
                    }
                }
            }
            x += 1;
        }
        y += 1;
    }
    if !found {
        return Err(EtoError::NoValidSamples);
    }
    Ok(FileMeta { min: min_value as u32, max: max_value as u32 })
}

} // verus!
