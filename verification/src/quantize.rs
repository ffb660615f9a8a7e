//! Linear quantization of raw 16-bit samples down to 8-bit codes.
//!
//! The scale is the exact rational `(max - min + 1) / 256`: a valid sample
//! `p` maps to `floor((p - min) * 256 / (max - min + 1))`, saturated at 255,
//! and every invalid sample maps to the quantized sentinel. Working with the
//! numerator and the fixed denominator keeps the whole mapping in integers,
//! so the stated formula is the computed one, bit for bit.

use vstd::prelude::*;

use crate::range::sample_valid;
use crate::range::FileMeta;
use crate::QUANT_INVALID;
use crate::RAW_VALID_MAX;

verus! {

/// Numerator of the exact quantization scale; the denominator is 256, so
/// the scale in sample units per code step is `(max - min + 1) / 256`.
pub open spec fn scale_num(meta: FileMeta) -> int {
    meta.max - meta.min + 1
}

/// The 8-bit code for raw sample `p` under bounds `meta`: the sentinel for
/// invalid samples, otherwise the scaled offset above the minimum,
/// truncated, and saturated at 255.
pub open spec fn spec_quantize(p: u16, meta: FileMeta) -> u8 {
    if !sample_valid(p) {
        QUANT_INVALID
    } else {
        let q = (p - meta.min) * 256 / scale_num(meta);
        if q > 255 {
            255u8
        } else {
            q as u8
        }
    }
}

/// Maps one raw sample to its quantized code.
pub fn quantize_sample(p: u16, meta: &FileMeta) -> (r: u8)
    requires
        meta.min <= meta.max,
        sample_valid(p) ==> meta.min <= p,
    ensures
        r == spec_quantize(p, *meta),
{
    if p > RAW_VALID_MAX {
        QUANT_INVALID
    } else {
        let num: u64 = ((p as u64) - (meta.min as u64)) * 256;
        let den: u64 = (meta.max as u64) - (meta.min as u64) + 1;
        let q: u64 = num / den;
        if q > 255 {
            255u8
        } else {
            q as u8
        }
    }
}

/// Maps a whole raw raster to its quantized payload, sample by sample, in
/// order. The row structure does not affect the mapping, so the contract
/// speaks of the flat sample sequence.
pub fn quantize_raster(raster: &Vec<u16>, meta: &FileMeta) -> (r: Vec<u8>)
    requires
        meta.min <= meta.max,
        forall|k: int|
            0 <= k < raster@.len() && sample_valid(#[trigger] raster@[k]) ==> meta.min
                <= raster@[k],
    ensures
        r@.len() == raster@.len(),
        forall|k: int| 0 <= k < r@.len() ==> r@[k] == spec_quantize(#[trigger] raster@[k], *meta),
{
    let mut out: Vec<u8> = Vec::new();
    let n = raster.len();
    let mut k: usize = 0;
    while k < n
        invariant
            k <= n,
            n == raster@.len(),
            meta.min <= meta.max,
            forall|i: int|
                0 <= i < raster@.len() && sample_valid(#[trigger] raster@[i]) ==> meta.min
                    <= raster@[i],
            out@.len() == k,
            forall|i: int| 0 <= i < k ==> out@[i] == spec_quantize(#[trigger] raster@[i], *meta),
        decreases n - k,
    {
        let code = quantize_sample(raster[k], meta);
        out.push(code);
        k += 1;
    }
    out
}

/// Every sample above the valid ceiling maps to exactly the quantized
/// sentinel, whatever the bounds are.
pub proof fn lemma_invalid_maps_to_sentinel(p: u16, meta: FileMeta)
    requires
        !sample_valid(p),
    ensures
        spec_quantize(p, meta) == QUANT_INVALID,
{
}

/// Every code the quantizer produces for a valid sample inside the bounds
/// lies in the valid code range 0..=254, provided the bounds span at most
/// 255 distinct values; the sentinel 255 is reserved for invalid samples.
/// (With a wider span, the topmost samples of the range quantize to 255.)
pub proof fn lemma_quantize_code_range(p: u16, meta: FileMeta)
    requires
        sample_valid(p),
        meta.min <= p <= meta.max,
        meta.max - meta.min <= 254,
    ensures
        spec_quantize(p, meta) <= 254,
{
    let d = meta.max - meta.min;
    let num = (p - meta.min) * 256;
    let den = scale_num(meta);
    vstd::arithmetic::mul::lemma_mul_inequality(p - meta.min, d, 256);
    assert(num <= d * 256);
    assert(d * 256 < 255 * (d + 1));
    vstd::arithmetic::div_mod::lemma_multiply_divide_lt(num, den, 255);
    assert(num / den <= 254);
}

} // verus!
