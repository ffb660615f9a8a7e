//! Verified core of a raster pipeline that quantizes a global 16-bit
//! potential-evapotranspiration raster down to 8-bit codes and then fills
//! invalid pixels by mask-constrained weighted-neighbor interpolation over
//! repeated passes.
//!
//! The library works on in-memory byte and sample buffers; reading and
//! writing the raster files themselves is left to the caller.

use vstd::prelude::*;

pub mod engine;
pub mod header;
pub mod passes;
pub mod quantize;
pub mod range;

verus! {

/// Header format version written into, and accepted from, every raster file.
pub const FORMAT_VERSION: u8 = 1;

/// Bits per sample in a quantized raster payload.
pub const QUANT_BIT_DEPTH: u8 = 8;

/// Encoded size of a raster header in bytes.
pub const HEADER_SIZE: usize = 32;

/// Largest raw 16-bit sample that carries data; anything above is the
/// "invalid / no data" sentinel range and is excluded from range scans.
pub const RAW_VALID_MAX: u16 = 0xFFF8;

/// Quantized sentinel code for an invalid or not-yet-filled pixel.
pub const QUANT_INVALID: u8 = 0xFF;

/// Minimum accumulated neighbor weight required before an interpolated
/// fill value is accepted; a quality gate worth roughly three adjacent
/// valid neighbors.
pub const WEIGHT_THRESHOLD: i64 = 11;

/// Mask cells strictly above this value are land (interpolatable);
/// everything else is water and is only ever copied through.
pub const LAND_MIN: u8 = 128;

/// Every failure the pipeline can surface. All of them are fatal to the
/// operation in progress; nothing is retried or downgraded to a default.
#[derive(Clone, Copy, Debug, PartialEq, Eq, Structural)]
pub enum EtoError {
    /// A header was malformed or of the wrong size.
    FormatError,
    /// A raster's byte length does not match its declared geometry.
    SizeMismatch,
    /// A range scan saw no sample below the invalid sentinel, so no
    /// quantization bounds can be derived.
    NoValidSamples,
    /// An underlying read fell outside the available data.
    IoError,
}

/// A row-major cell index stays inside the raster: for a cell at column
/// `x` of row `y`, the flat index `y * w + x` lies below `w * h`.
pub proof fn lemma_grid_index(w: int, h: int, x: int, y: int)
    requires
        0 <= x < w,
        0 <= y < h,
    ensures
        0 <= y * w + x < w * h,
{
    assert(0 <= y * w + x < w * h) by (nonlinear_arith)
        requires
            0 <= x < w,
            0 <= y < h,
    ;
}

} // verus!
