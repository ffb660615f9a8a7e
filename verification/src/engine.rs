//! The interpolation engine: one pass over a quantized raster that fills
//! invalid land pixels from their valid neighbors under a land/water mask.
//!
//! Every output pixel is a function of the input raster snapshot alone —
//! a pass never reads its own output — so the whole pass is specified
//! pixel by pixel: water is copied through, valid land is copied through,
//! and an invalid land pixel is replaced by the weight-truncated average of
//! its valid 5x5 neighbors whenever their accumulated weight clears the
//! acceptance threshold.

use vstd::arithmetic::div_mod::lemma_div_is_ordered;
use vstd::arithmetic::div_mod::lemma_div_multiples_vanish;
use vstd::arithmetic::div_mod::lemma_fundamental_div_mod;
use vstd::arithmetic::div_mod::lemma_multiply_divide_lt;
use vstd::arithmetic::mul::lemma_mul_inequality;
use vstd::math::abs;
use vstd::prelude::*;

use crate::header::spec_encode;
use crate::header::Header;
use crate::lemma_grid_index;
use crate::EtoError;
use crate::HEADER_SIZE;
use crate::LAND_MIN;
use crate::QUANT_INVALID;
use crate::WEIGHT_THRESHOLD;

verus! {

/// The fixed geometry of one pipeline run: the full raster dimensions and
/// the lower-resolution mask dimensions.
#[derive(Clone, Copy, Debug, PartialEq, Eq, Structural)]
pub struct Geometry {
    /// Full raster width in pixels.
    pub width: usize,
    /// Full raster height in pixels.
    pub height: usize,
    /// Mask width in cells; one cell gates `width / mask_width` columns.
    pub mask_width: usize,
    /// Mask height in cells; fixes the latitude crop of the mask.
    pub mask_height: usize,
}

impl Geometry {
    /// Downsampling factor from raster columns to mask cells; the same
    /// factor downsamples rows, as the mask and raster grids are laid out.
    pub open spec fn factor(self) -> int {
        self.width as int / self.mask_width as int
    }

    /// Byte offset of the latitude crop applied to the mask relative to
    /// the raster's top edge.
    pub open spec fn crop(self) -> int {
        self.mask_width * self.mask_height * 10 / 180
    }

    /// Byte offset in the mask at which the cells gating raster row `y`
    /// begin.
    pub open spec fn mask_row_offset(self, y: int) -> int {
        y / self.factor() * self.mask_width + self.crop()
    }

    /// Well-formedness: the mask divides the raster evenly, and every
    /// size and offset the pipeline computes fits the machine.
    pub open spec fn wf(self) -> bool {
        &&& 1 <= self.mask_width <= self.width
        &&& 1 <= self.height
        &&& self.width as int % self.mask_width as int == 0
        &&& self.width <= 0x7FFF_FFFF
        &&& self.height <= 0x7FFF_FFFF
        &&& self.width * self.height + HEADER_SIZE <= usize::MAX
        &&& self.mask_width * self.mask_height * 10 <= usize::MAX
        &&& self.height * self.mask_width + self.crop() + self.mask_width <= usize::MAX
    }

    /// Decides well-formedness at run time, so an unverified caller can
    /// test a geometry before handing it to the engine.
    pub fn is_well_formed(&self) -> (r: bool)
        ensures
            r == self.wf(),
    {
        let w = self.width as u128;
        let h = self.height as u128;
        let mw = self.mask_width as u128;
        let mh = self.mask_height as u128;
        let umax = usize::MAX as u128;
        if !(1 <= mw && mw <= w && 1 <= h && w % mw == 0 && w <= 0x7FFF_FFFF && h <= 0x7FFF_FFFF) {
            return false;
        }
        proof {
            assert(w * h <= 0x7FFF_FFFF * 0x7FFF_FFFF) by (nonlinear_arith)
                requires
                    w <= 0x7FFF_FFFF,
                    h <= 0x7FFF_FFFF,
            ;
            assert(mw * mh <= 0x7FFF_FFFF * 0xFFFF_FFFF_FFFF_FFFF) by (nonlinear_arith)
                requires
                    mw <= 0x7FFF_FFFF,
                    mh <= 0xFFFF_FFFF_FFFF_FFFF,
            ;
            assert(h * mw <= 0x7FFF_FFFF * 0x7FFF_FFFF) by (nonlinear_arith)
                requires
                    h <= 0x7FFF_FFFF,
                    mw <= 0x7FFF_FFFF,
            ;
        }
        w * h + (HEADER_SIZE as u128) <= umax && mw * mh * 10 <= umax && h * mw + mw * mh * 10
            / 180 + mw <= umax
    }
}

/// The mask cell gating raster column `x` of raster row `y`.
pub open spec fn mask_cell(mask: Seq<u8>, g: Geometry, x: int, y: int) -> u8 {
    mask[g.mask_row_offset(y) + x / g.factor()]
}

/// Whether the mask marks the cell gating `(x, y)` as land; only land
/// pixels are ever interpolated.
pub open spec fn is_land(mask: Seq<u8>, g: Geometry, x: int, y: int) -> bool {
    mask_cell(mask, g, x, y) > LAND_MIN
}

/// The mask holds a full row of cells at row `y`'s offset.
pub open spec fn mask_row_in_range(mask: Seq<u8>, g: Geometry, y: int) -> bool {
    g.mask_row_offset(y) + g.mask_width <= mask.len()
}

/// The mask is large enough for every raster row a pass visits.
pub open spec fn mask_all_rows_in_range(mask: Seq<u8>, g: Geometry) -> bool {
    forall|y: int| 0 <= y < g.height ==> mask_row_in_range(mask, g, y)
}

/// Reads the row of mask cells that gates raster row `y`: `mask_width`
/// bytes starting at the cropped, downsampled offset for that row. Fails
/// with `IoError` exactly when that row lies outside the supplied mask
/// data.
pub fn mask_row(mask: &Vec<u8>, g: &Geometry, y: usize) -> (r: Result<Vec<u8>, EtoError>)
    requires
        g.wf(),
        y < g.height,
    ensures
        mask_row_in_range(mask@, *g, y as int) ==> (r matches Ok(row) && row@ == mask@.subrange(
            g.mask_row_offset(y as int),
            g.mask_row_offset(y as int) + g.mask_width,
        )),
        !mask_row_in_range(mask@, *g, y as int) ==> r == Err::<Vec<u8>, EtoError>(
            EtoError::IoError,
        ),
{
    let factor: usize = g.width / g.mask_width;
    let crop: usize = g.mask_width * g.mask_height * 10 / 180;
    proof {
        assert(g.width as int / g.mask_width as int >= 1) by (nonlinear_arith)
            requires
                1 <= g.mask_width as int <= g.width as int,
        ;
        assert(y as int / factor as int <= y as int) by (nonlinear_arith)
            requires
                0 <= y as int,
                1 <= factor as int,
        ;
        lemma_mul_inequality(y as int / factor as int, g.height as int, g.mask_width as int);
    }
    let off: usize = y / factor * g.mask_width + crop;
    proof {
        assert(off == g.mask_row_offset(y as int));
    }
    if off + g.mask_width > mask.len() {
        return Err(EtoError::IoError);
    }
    let mut row: Vec<u8> = Vec::new();
    let mut i: usize = 0;
    while i < g.mask_width
        invariant
            i <= g.mask_width,
            off + g.mask_width <= mask@.len(),
            mask@.len() <= usize::MAX,
            row@ == mask@.subrange(off as int, off as int + i as int),
        decreases g.mask_width - i,
    {
        row.push(mask[off + i]);
        proof {
            assert(row@ =~= mask@.subrange(off as int, off as int + i as int + 1));
        }
        i += 1;
    }
    Ok(row)
}

/// The quantized pixel at column `x` of row `y` in a row-major payload.
pub open spec fn pixel(p: Seq<u8>, width: int, x: int, y: int) -> u8 {
    p[y * width + x]
}

/// Whether `(x, y)` is a real raster coordinate; anything outside
/// contributes neither weight nor value to an interpolation.
pub open spec fn nb_in_bounds(width: int, height: int, x: int, y: int) -> bool {
    0 <= x < width && 0 <= y < height
}

/// Manhattan-distance weight of the neighbor at offset `(i, j)`: 5 at the
/// center, down to 1 at the corners of the 5x5 window.
pub open spec fn nb_weight(i: int, j: int) -> int {
    5 - (abs(i) + abs(j))
}

/// Weight contributed by the neighbor at offset `(i, j)` of `(x, y)`:
/// its Manhattan weight if it lies inside the raster and holds a valid
/// code, and nothing otherwise.
pub open spec fn cell_weight(p: Seq<u8>, w: int, h: int, x: int, y: int, i: int, j: int) -> int {
    if nb_in_bounds(w, h, x + i, y + j) && pixel(p, w, x + i, y + j) != QUANT_INVALID {
        nb_weight(i, j)
    } else {
        0
    }
}

/// Weighted value contributed by the neighbor at offset `(i, j)`: its
/// weight times its code when it contributes, and nothing otherwise.
pub open spec fn cell_value(p: Seq<u8>, w: int, h: int, x: int, y: int, i: int, j: int) -> int {
    if nb_in_bounds(w, h, x + i, y + j) && pixel(p, w, x + i, y + j) != QUANT_INVALID {
        nb_weight(i, j) * (pixel(p, w, x + i, y + j) as int)
    } else {
        0
    }
}

/// Column offset of the `k`-th cell of the 5x5 window, scanned row-major.
pub open spec fn off_i(k: int) -> int {
    k / 5 - 2
}

/// Row offset of the `k`-th cell of the 5x5 window, scanned row-major.
pub open spec fn off_j(k: int) -> int {
    k % 5 - 2
}

/// Accumulated weight of the first `k` window cells around `(x, y)`.
pub open spec fn weight_sum(p: Seq<u8>, w: int, h: int, x: int, y: int, k: nat) -> int
    decreases k,
{
    if k == 0 {
        0
    } else {
        weight_sum(p, w, h, x, y, (k - 1) as nat) + cell_weight(
            p,
            w,
            h,
            x,
            y,
            off_i(k - 1),
            off_j(k - 1),
        )
    }
}

/// Accumulated weighted value of the first `k` window cells around `(x, y)`.
pub open spec fn value_sum(p: Seq<u8>, w: int, h: int, x: int, y: int, k: nat) -> int
    decreases k,
{
    if k == 0 {
        0
    } else {
        value_sum(p, w, h, x, y, (k - 1) as nat) + cell_value(
            p,
            w,
            h,
            x,
            y,
            off_i(k - 1),
            off_j(k - 1),
        )
    }
}

/// Total weight of all valid in-bounds neighbors of `(x, y)` over the
/// whole 5x5 window.
pub open spec fn total_weight(p: Seq<u8>, w: int, h: int, x: int, y: int) -> int {
    weight_sum(p, w, h, x, y, 25)
}

/// Total weighted value of all valid in-bounds neighbors of `(x, y)`.
pub open spec fn total_value(p: Seq<u8>, w: int, h: int, x: int, y: int) -> int {
    value_sum(p, w, h, x, y, 25)
}

/// The code an accepted interpolation writes: the truncated weighted
/// average of the contributing neighbors.
pub open spec fn fill_value(p: Seq<u8>, w: int, h: int, x: int, y: int) -> u8 {
    (total_value(p, w, h, x, y) / total_weight(p, w, h, x, y)) as u8
}

/// How one pass treats the cell at `(x, y)`.
#[derive(Clone, Copy, Debug, PartialEq, Eq, Structural)]
pub enum CellClass {
    /// Masked as water: copied through, counted as water.
    Water,
    /// Land holding a valid code: copied through, not counted.
    Kept,
    /// Invalid land whose neighbors clear the threshold: interpolated.
    Filled,
    /// Invalid land left invalid for want of neighbor weight.
    Unfilled,
}

/// Classifies the cell at `(x, y)` for one pass over payload `p`.
pub open spec fn classify(p: Seq<u8>, mask: Seq<u8>, g: Geometry, x: int, y: int) -> CellClass {
    if !is_land(mask, g, x, y) {
        CellClass::Water
    } else if pixel(p, g.width as int, x, y) != QUANT_INVALID {
        CellClass::Kept
    } else if total_weight(p, g.width as int, g.height as int, x, y) > WEIGHT_THRESHOLD {
        CellClass::Filled
    } else {
        CellClass::Unfilled
    }
}

/// The pixel one pass writes at `(x, y)`: unchanged unless the cell is
/// invalid land with enough valid neighbor weight, in which case it is the
/// truncated weighted neighbor average.
pub open spec fn out_pixel(p: Seq<u8>, mask: Seq<u8>, g: Geometry, x: int, y: int) -> u8 {
    if classify(p, mask, g, x, y) == CellClass::Filled {
        fill_value(p, g.width as int, g.height as int, x, y)
    } else {
        pixel(p, g.width as int, x, y)
    }
}

/// Counts cells of class `c` among the first `x` columns of row `y`.
pub open spec fn row_class_count(
    p: Seq<u8>,
    mask: Seq<u8>,
    g: Geometry,
    c: CellClass,
    y: int,
    x: int,
) -> int
    decreases x,
{
    if x <= 0 {
        0
    } else {
        row_class_count(p, mask, g, c, y, x - 1) + if classify(p, mask, g, x - 1, y) == c {
            1int
        } else {
            0int
        }
    }
}

/// Counts cells of class `c` over all full rows below row `y`.
pub open spec fn class_count_upto(
    p: Seq<u8>,
    mask: Seq<u8>,
    g: Geometry,
    c: CellClass,
    y: int,
) -> int
    decreases y,
{
    if y <= 0 {
        0
    } else {
        class_count_upto(p, mask, g, c, y - 1) + row_class_count(
            p,
            mask,
            g,
            c,
            y - 1,
            g.width as int,
        )
    }
}

/// Counts cells of class `c` over the whole raster.
pub open spec fn class_count(p: Seq<u8>, mask: Seq<u8>, g: Geometry, c: CellClass) -> int {
    class_count_upto(p, mask, g, c, g.height as int)
}

/// Counts accumulated over one full pass, returned to the caller and
/// never mutated afterwards. Land cells that already held a valid code
/// are copied through without being counted.
#[derive(Clone, Copy, Debug, PartialEq, Eq, Structural)]
pub struct PixelStats {
    /// Invalid land cells this pass managed to fill.
    pub filled: u64,
    /// Invalid land cells left invalid for want of neighbor weight.
    pub unfilled: u64,
    /// Cells the mask marks as water, always copied through.
    pub water: u64,
}

/// Whether a window coordinate lies outside the raster, so the neighbor
/// there must be skipped: it contributes neither weight nor value and is
/// not treated as zero.
pub fn check_neighbor_bounds(x: i64, y: i64, width: usize, height: usize) -> (r: bool)
    requires
        width <= 0x7FFF_FFFF,
        height <= 0x7FFF_FFFF,
    ensures
        r == !nb_in_bounds(width as int, height as int, x as int, y as int),
{
    x < 0 || x >= width as i64 || y < 0 || y >= height as i64
}

/// A row-class count never leaves `[0, x]`.
proof fn lemma_row_count_bound(p: Seq<u8>, mask: Seq<u8>, g: Geometry, c: CellClass, y: int, x: int)
    requires
        0 <= x,
    ensures
        0 <= row_class_count(p, mask, g, c, y, x) <= x,
    decreases x,
{
    if x > 0 {
        lemma_row_count_bound(p, mask, g, c, y, x - 1);
    }
}

/// A whole-rows count never leaves `[0, y * width]`.
proof fn lemma_class_count_bound(p: Seq<u8>, mask: Seq<u8>, g: Geometry, c: CellClass, y: int)
    requires
        0 <= y,
        0 <= g.width,
    ensures
        0 <= class_count_upto(p, mask, g, c, y) <= y * g.width,
    decreases y,
{
    if y > 0 {
        lemma_class_count_bound(p, mask, g, c, y - 1);
        lemma_row_count_bound(p, mask, g, c, y - 1, g.width as int);
        assert((y - 1) * g.width + g.width == y * g.width) by (nonlinear_arith);
    }
}

/// Both accumulated sums stay bounded: weights are nonnegative, and the
/// weighted values never exceed 254 times the accumulated weight, because
/// a contributing neighbor always holds a code of at most 254.
proof fn lemma_sums_bounded(p: Seq<u8>, w: int, h: int, x: int, y: int, k: nat)
    requires
        k <= 25,
    ensures
        0 <= weight_sum(p, w, h, x, y, k) <= 5 * k,
        0 <= value_sum(p, w, h, x, y, k) <= 254 * weight_sum(p, w, h, x, y, k),
    decreases k,
{
    if k > 0 {
        lemma_sums_bounded(p, w, h, x, y, (k - 1) as nat);
        let i = off_i(k - 1);
        let j = off_j(k - 1);
        assert(-2 <= i <= 2 && -2 <= j <= 2);
        let cw = cell_weight(p, w, h, x, y, i, j);
        let cv = cell_value(p, w, h, x, y, i, j);
        assert(0 <= cw <= 5);
        if nb_in_bounds(w, h, x + i, y + j) && pixel(p, w, x + i, y + j) != QUANT_INVALID {
            let v = pixel(p, w, x + i, y + j) as int;
            assert(0 <= v <= 254);
            assert(cv == nb_weight(i, j) * v && 0 <= nb_weight(i, j) * v <= 254 * nb_weight(i, j))
                by (nonlinear_arith)
                requires
                    0 <= v <= 254,
                    1 <= nb_weight(i, j) <= 5,
                    cv == nb_weight(i, j) * v,
            ;
        }
        assert(0 <= cv <= 254 * cw);
    }
}

/// An accepted fill value is itself a valid code: the truncated weighted
/// average of codes in `[0, 254]` lies in `[0, 254]`.
pub proof fn lemma_fill_value_valid(p: Seq<u8>, w: int, h: int, x: int, y: int)
    requires
        total_weight(p, w, h, x, y) > WEIGHT_THRESHOLD,
    ensures
        0 <= total_value(p, w, h, x, y) / total_weight(p, w, h, x, y) <= 254,
        fill_value(p, w, h, x, y) == total_value(p, w, h, x, y) / total_weight(p, w, h, x, y),
        fill_value(p, w, h, x, y) != QUANT_INVALID,
{
    let tw = total_weight(p, w, h, x, y);
    let tv = total_value(p, w, h, x, y);
    lemma_sums_bounded(p, w, h, x, y, 25);
    lemma_div_is_ordered(0, tv, tw);
    lemma_div_is_ordered(tv, 254 * tw, tw);
    lemma_div_multiples_vanish(254, tw);
    assert(0 <= tv / tw <= 254);
}

/// Walks the 5x5 window around `(x, y)` in the payload of `input` and
/// accumulates the weight and weighted value of every in-bounds valid
/// neighbor.
fn accumulate_neighbors(input: &Vec<u8>, w: usize, h: usize, x: usize, y: usize) -> (r: (i64, i64))
    requires
        w <= 0x7FFF_FFFF,
        h <= 0x7FFF_FFFF,
        input@.len() == HEADER_SIZE + w * h,
        input@.len() <= usize::MAX,
        x < w,
        y < h,
    ensures
        r.0 == total_weight(
            input@.skip(HEADER_SIZE as int),
            w as int,
            h as int,
            x as int,
            y as int,
        ),
        r.1 == total_value(input@.skip(HEADER_SIZE as int), w as int, h as int, x as int, y as int),
        0 <= r.0 <= 125,
        0 <= r.1 <= 254 * r.0,
{
    let ghost p = input@.skip(HEADER_SIZE as int);
    let mut tw: i64 = 0;
    let mut tv: i64 = 0;
    let mut k: usize = 0;
    while k < 25
        invariant
            k <= 25,
            w <= 0x7FFF_FFFF,
            h <= 0x7FFF_FFFF,
            input@.len() == HEADER_SIZE + w * h,
            input@.len() <= usize::MAX,
            x < w,
            y < h,
            p == input@.skip(HEADER_SIZE as int),
            tw == weight_sum(p, w as int, h as int, x as int, y as int, k as nat),
            tv == value_sum(p, w as int, h as int, x as int, y as int, k as nat),
            0 <= tw <= 5 * k,
            0 <= tv <= 254 * tw,
        decreases 25 - k,
    {
        let i: i64 = (k as i64) / 5 - 2;
        let j: i64 = (k as i64) % 5 - 2;
        proof {
            assert(i == off_i(k as int) && j == off_j(k as int));
            assert(-2 <= i <= 2 && -2 <= j <= 2);
        }
        let nx: i64 = x as i64 + i;
        let ny: i64 = y as i64 + j;
        let ghost cw = cell_weight(p, w as int, h as int, x as int, y as int, i as int, j as int);
        let ghost cv = cell_value(p, w as int, h as int, x as int, y as int, i as int, j as int);
        if check_neighbor_bounds(nx, ny, w, h) {
            proof {
                assert(cw == 0 && cv == 0);
            }
        } else {
            proof {
                lemma_grid_index(w as int, h as int, nx as int, ny as int);
            }
            let np: u8 = input[HEADER_SIZE + (ny as usize) * w + (nx as usize)];
            proof {
                assert(np == pixel(p, w as int, nx as int, ny as int));
            }
            if np != QUANT_INVALID {
                let ai: i64 = if i < 0 {
                    -i
                } else {
                    i
                };
                let aj: i64 = if j < 0 {
                    -j
                } else {
                    j
                };
                let wt: i64 = 5 - (ai + aj);
                proof {
                    assert(wt == nb_weight(i as int, j as int));
                    assert(1 <= wt <= 5);
                    assert(cw == wt);
                    assert(cv == wt * (np as int));
                    assert(0 <= wt * (np as int) <= 254 * wt) by (nonlinear_arith)
                        requires
                            1 <= wt <= 5,
                            0 <= np as int <= 254,
                    ;
                }
                tw = tw + wt;
                tv = tv + wt * (np as i64);
            } else {
                proof {
                    assert(cw == 0 && cv == 0);
                }
            }
        }
        k += 1;
        proof {
            assert(weight_sum(p, w as int, h as int, x as int, y as int, k as nat) == weight_sum(
                p,
                w as int,
                h as int,
                x as int,
                y as int,
                (k - 1) as nat,
            ) + cw);
            assert(value_sum(p, w as int, h as int, x as int, y as int, k as nat) == value_sum(
                p,
                w as int,
                h as int,
                x as int,
                y as int,
                (k - 1) as nat,
            ) + cv);
        }
    }
    (tw, tv)
}

/// A cell strictly before `(x, y)` in row-major order has a strictly
/// smaller flat index.
proof fn lemma_cell_index_lt(w: int, x: int, y: int, xx: int, yy: int)
    requires
        0 <= xx < w,
        0 <= x,
        0 <= yy,
        yy < y || (yy == y && xx < x),
    ensures
        0 <= yy * w + xx < y * w + x,
{
    if yy < y {
        lemma_mul_inequality(yy + 1, y, w);
        assert((yy + 1) * w == yy * w + w) by (nonlinear_arith);
    }
    assert(0 <= yy * w) by (nonlinear_arith)
        requires
            0 <= yy,
            0 < w,
    ;
}

/// Everything the engine promises of a successful pass: the output is a
/// complete raster of the right size whose header is the encoded `h` and
/// whose every payload pixel is the specified per-cell result, and the
/// statistics are the exact per-class cell counts.
pub open spec fn pass_output_ok(
    outb: Seq<u8>,
    stats: PixelStats,
    p: Seq<u8>,
    mask: Seq<u8>,
    g: Geometry,
    h: Header,
) -> bool {
    &&& outb.len() == HEADER_SIZE + g.width * g.height
    &&& outb.subrange(0, HEADER_SIZE as int) == spec_encode(h)
    &&& forall|x: int, y: int|
        0 <= x < g.width && 0 <= y < g.height ==> #[trigger] pixel(
            outb.skip(HEADER_SIZE as int),
            g.width as int,
            x,
            y,
        ) == out_pixel(p, mask, g, x, y)
    &&& stats.filled == class_count(p, mask, g, CellClass::Filled)
    &&& stats.unfilled == class_count(p, mask, g, CellClass::Unfilled)
    &&& stats.water == class_count(p, mask, g, CellClass::Water)
}

/// Runs one interpolation pass over a complete quantized raster file
/// (header plus payload) and produces a complete, independent output
/// raster plus the pass statistics. The input is never modified.
///
/// A byte length that does not match the geometry is a fatal
/// `SizeMismatch` and produces no output; a mask too small for some row's
/// computed offset is a fatal `IoError`. On every other input the pass
/// succeeds.
pub fn fill_missing_pixels(
    input: &Vec<u8>,
    mask: &Vec<u8>,
    g: &Geometry,
    header: &Header,
) -> (r: Result<(Vec<u8>, PixelStats), EtoError>)
    requires
        g.wf(),
    ensures
        input@.len() != HEADER_SIZE + g.width * g.height ==> r == Err::<
            (Vec<u8>, PixelStats),
            EtoError,
        >(EtoError::SizeMismatch),
        input@.len() == HEADER_SIZE + g.width * g.height && !mask_all_rows_in_range(mask@, *g)
            ==> r == Err::<(Vec<u8>, PixelStats), EtoError>(EtoError::IoError),
        input@.len() == HEADER_SIZE + g.width * g.height && mask_all_rows_in_range(mask@, *g) ==> (
        r matches Ok(ret) && pass_output_ok(
            ret.0@,
            ret.1,
            input@.skip(HEADER_SIZE as int),
            mask@,
            *g,
            *header,
        )),
{
    let w: usize = g.width;
    let h: usize = g.height;
    let expected: usize = HEADER_SIZE + w * h;
    if input.len() != expected {
        return Err(EtoError::SizeMismatch);
    }
    let factor: usize = w / g.mask_width;
    let crop: usize = g.mask_width * g.mask_height * 10 / 180;
    proof {
        assert(factor == g.factor());
        assert(crop == g.crop());
        assert(w as int / g.mask_width as int >= 1) by (nonlinear_arith)
            requires
                1 <= g.mask_width as int <= w as int,
        ;
        lemma_fundamental_div_mod(w as int, g.mask_width as int);
        assert(w as int == g.mask_width as int * factor as int);
    }
    let mask_len: usize = mask.len();
    let ghost p = input@.skip(HEADER_SIZE as int);
    let mut out: Vec<u8> = header.encode();
    let mut filled: u64 = 0;
    let mut unfilled: u64 = 0;
    let mut water: u64 = 0;
    let mut y: usize = 0;
    while y < h
        invariant
            g.wf(),
            y <= h,
            w == g.width,
            h == g.height,
            factor == g.factor(),
            crop == g.crop(),
            w as int == g.mask_width as int * factor as int,
            input@.len() == HEADER_SIZE + w * h,
            input@.len() <= usize::MAX,
            mask_len == mask@.len(),
            p == input@.skip(HEADER_SIZE as int),
            out@.len() == HEADER_SIZE + y * w,
            forall|i: int| 0 <= i < HEADER_SIZE ==> out@[i] == spec_encode(*header)[i],
            forall|xx: int, yy: int|
                0 <= yy < y && 0 <= xx < w ==> #[trigger] pixel(
                    out@.skip(HEADER_SIZE as int),
                    w as int,
                    xx,
                    yy,
                ) == out_pixel(p, mask@, *g, xx, yy),
            forall|yy: int| 0 <= yy < y ==> mask_row_in_range(mask@, *g, yy),
            filled == class_count_upto(p, mask@, *g, CellClass::Filled, y as int),
            unfilled == class_count_upto(p, mask@, *g, CellClass::Unfilled, y as int),
            water == class_count_upto(p, mask@, *g, CellClass::Water, y as int),
        decreases h - y,
    {
        proof {
            assert(y as int / factor as int <= y as int) by (nonlinear_arith)
                requires
                    0 <= y as int,
                    1 <= factor as int,
            ;
            lemma_mul_inequality(y as int / factor as int, h as int, g.mask_width as int);
        }
        let off: usize = y / factor * g.mask_width + crop;
        proof {
            assert(off == g.mask_row_offset(y as int));
        }
        if off + g.mask_width > mask_len {
            proof {
                assert(!mask_row_in_range(mask@, *g, y as int));
            }
            return Err(EtoError::IoError);
        }
        let mut x: usize = 0;
        while x < w
            invariant
                g.wf(),
                y < h,
                x <= w,
                w == g.width,
                h == g.height,
                factor == g.factor(),
                crop == g.crop(),
                w as int == g.mask_width as int * factor as int,
                input@.len() == HEADER_SIZE + w * h,
                input@.len() <= usize::MAX,
                mask_len == mask@.len(),
                p == input@.skip(HEADER_SIZE as int),
                off == g.mask_row_offset(y as int),
                off + g.mask_width <= mask@.len(),
                out@.len() == HEADER_SIZE + y * w + x,
                forall|i: int| 0 <= i < HEADER_SIZE ==> out@[i] == spec_encode(*header)[i],
                forall|xx: int, yy: int|
                    (0 <= yy < y && 0 <= xx < w) || (yy == y && 0 <= xx < x) ==> #[trigger] pixel(
                        out@.skip(HEADER_SIZE as int),
                        w as int,
                        xx,
                        yy,
                    ) == out_pixel(p, mask@, *g, xx, yy),
                forall|yy: int| 0 <= yy < y ==> mask_row_in_range(mask@, *g, yy),
                filled == class_count_upto(p, mask@, *g, CellClass::Filled, y as int)
                    + row_class_count(p, mask@, *g, CellClass::Filled, y as int, x as int),
                unfilled == class_count_upto(p, mask@, *g, CellClass::Unfilled, y as int)
                    + row_class_count(p, mask@, *g, CellClass::Unfilled, y as int, x as int),
                water == class_count_upto(p, mask@, *g, CellClass::Water, y as int)
                    + row_class_count(p, mask@, *g, CellClass::Water, y as int, x as int),
            decreases w - x,
        {
            proof {
                lemma_grid_index(w as int, h as int, x as int, y as int);
                lemma_class_count_bound(p, mask@, *g, CellClass::Filled, y as int);
                lemma_class_count_bound(p, mask@, *g, CellClass::Unfilled, y as int);
                lemma_class_count_bound(p, mask@, *g, CellClass::Water, y as int);
                lemma_row_count_bound(p, mask@, *g, CellClass::Filled, y as int, x as int);
                lemma_row_count_bound(p, mask@, *g, CellClass::Unfilled, y as int, x as int);
                lemma_row_count_bound(p, mask@, *g, CellClass::Water, y as int, x as int);
                lemma_mul_inequality(y as int, h as int, w as int);
            }
            let center: u8 = input[HEADER_SIZE + y * w + x];
            proof {
                assert(center == pixel(p, w as int, x as int, y as int));
            }
            let mask_x: usize = x / factor;
            proof {
                vstd::arithmetic::mul::lemma_mul_is_commutative(
                    factor as int,
                    g.mask_width as int,
                );
                lemma_multiply_divide_lt(x as int, factor as int, g.mask_width as int);
                assert(mask_x < g.mask_width);
            }
            let mcell: u8 = mask[off + mask_x];
            proof {
                assert(mcell == mask_cell(mask@, *g, x as int, y as int));
            }
            let ghost cls = classify(p, mask@, *g, x as int, y as int);
            let px: u8;
            if mcell > LAND_MIN {
                if center == QUANT_INVALID {
                    let (tw, tv) = accumulate_neighbors(input, w, h, x, y);
                    if tw > WEIGHT_THRESHOLD {
                        proof {
                            lemma_fill_value_valid(p, w as int, h as int, x as int, y as int);
                            assert(cls == CellClass::Filled);
                        }
                        px = (tv / tw) as u8;
                        filled = filled + 1;
                    } else {
                        proof {
                            assert(cls == CellClass::Unfilled);
                        }
                        px = QUANT_INVALID;
                        unfilled = unfilled + 1;
                    }
                } else {
                    proof {
                        assert(cls == CellClass::Kept);
                    }
                    px = center;
                }
            } else {
                proof {
                    assert(cls == CellClass::Water);
                }
                px = center;
                water = water + 1;
            }
            proof {
                assert(px == out_pixel(p, mask@, *g, x as int, y as int));
            }
            let ghost out_before = out@;
            out.push(px);
            proof {
                assert(out@.skip(HEADER_SIZE as int) =~= out_before.skip(HEADER_SIZE as int)
                    + seq![px]);
                assert forall|xx: int, yy: int|
                    (0 <= yy < y && 0 <= xx < w) || (yy == y && 0 <= xx < x + 1) implies #[trigger] pixel(
                    out@.skip(HEADER_SIZE as int),
                    w as int,
                    xx,
                    yy,
                ) == out_pixel(p, mask@, *g, xx, yy) by {
                    if yy == y && xx == x {
                        assert(pixel(out@.skip(HEADER_SIZE as int), w as int, xx, yy) == px);
                    } else {
                        lemma_cell_index_lt(w as int, x as int, y as int, xx, yy);
                        assert(pixel(out@.skip(HEADER_SIZE as int), w as int, xx, yy) == pixel(
                            out_before.skip(HEADER_SIZE as int),
                            w as int,
                            xx,
                            yy,
                        ));
                    }
                }
            }
            x += 1;
        }
        proof {
            assert((y + 1) as int * w as int == y as int * w as int + w as int)
                by (nonlinear_arith);
            assert(class_count_upto(p, mask@, *g, CellClass::Filled, y as int + 1)
                == class_count_upto(p, mask@, *g, CellClass::Filled, y as int) + row_class_count(
                p,
                mask@,
                *g,
                CellClass::Filled,
                y as int,
                w as int,
            ));
            assert(class_count_upto(p, mask@, *g, CellClass::Unfilled, y as int + 1)
                == class_count_upto(p, mask@, *g, CellClass::Unfilled, y as int) + row_class_count(
                p,
                mask@,
                *g,
                CellClass::Unfilled,
                y as int,
                w as int,
            ));
            assert(class_count_upto(p, mask@, *g, CellClass::Water, y as int + 1)
                == class_count_upto(p, mask@, *g, CellClass::Water, y as int) + row_class_count(
                p,
                mask@,
                *g,
                CellClass::Water,
                y as int,
                w as int,
            ));
        }
        y += 1;
    }
    let stats = PixelStats { filled, unfilled, water };
    proof {
        vstd::arithmetic::mul::lemma_mul_is_commutative(h as int, w as int);
        assert(out@.subrange(0, HEADER_SIZE as int) =~= spec_encode(*header));
        assert(mask_all_rows_in_range(mask@, *g));
        assert(pass_output_ok(out@, stats, p, mask@, *g, *header));
    }
    Ok((out, stats))
}

/// Each cell falls in exactly one class, so the four row counts sum to
/// the row length.
proof fn lemma_row_counts_total(p: Seq<u8>, mask: Seq<u8>, g: Geometry, y: int, x: int)
    requires
        0 <= x,
    ensures
        row_class_count(p, mask, g, CellClass::Water, y, x) + row_class_count(
            p,
            mask,
            g,
            CellClass::Kept,
            y,
            x,
        ) + row_class_count(p, mask, g, CellClass::Filled, y, x) + row_class_count(
            p,
            mask,
            g,
            CellClass::Unfilled,
            y,
            x,
        ) == x,
    decreases x,
{
    if x > 0 {
        lemma_row_counts_total(p, mask, g, y, x - 1);
    }
}

/// The four whole-raster counts sum to the number of cells.
proof fn lemma_counts_total(p: Seq<u8>, mask: Seq<u8>, g: Geometry, y: int)
    requires
        0 <= y,
    ensures
        class_count_upto(p, mask, g, CellClass::Water, y) + class_count_upto(
            p,
            mask,
            g,
            CellClass::Kept,
            y,
        ) + class_count_upto(p, mask, g, CellClass::Filled, y) + class_count_upto(
            p,
            mask,
            g,
            CellClass::Unfilled,
            y,
        ) == y * g.width,
    decreases y,
{
    if y > 0 {
        lemma_counts_total(p, mask, g, y - 1);
        lemma_row_counts_total(p, mask, g, y - 1, g.width as int);
        assert((y - 1) * g.width + g.width == y * g.width) by (nonlinear_arith);
    } else {
        assert(y * g.width == 0) by (nonlinear_arith)
            requires
                y == 0,
        ;
    }
}

/// A class no cell of the row falls in counts zero over that row.
proof fn lemma_row_count_zero(p: Seq<u8>, mask: Seq<u8>, g: Geometry, c: CellClass, y: int, x: int)
    requires
        0 <= x,
        forall|xx: int| 0 <= xx < x ==> #[trigger] classify(p, mask, g, xx, y) != c,
    ensures
        row_class_count(p, mask, g, c, y, x) == 0,
    decreases x,
{
    if x > 0 {
        lemma_row_count_zero(p, mask, g, c, y, x - 1);
    }
}

/// A class no cell of the raster falls in counts zero overall.
proof fn lemma_count_zero(p: Seq<u8>, mask: Seq<u8>, g: Geometry, c: CellClass, y: int)
    requires
        0 <= y,
        forall|xx: int, yy: int|
            0 <= xx < g.width && 0 <= yy < y ==> #[trigger] classify(p, mask, g, xx, yy) != c,
    ensures
        class_count_upto(p, mask, g, c, y) == 0,
    decreases y,
{
    if y > 0 {
        lemma_count_zero(p, mask, g, c, y - 1);
        lemma_row_count_zero(p, mask, g, c, y - 1, g.width as int);
    }
}

/// Pixel conservation per pass: the three counted classes — filled,
/// unfilled and water — sum to the whole raster whenever no land cell
/// already holds a valid code. (A land cell holding a valid code is
/// copied through without being counted, so on rasters that have one the
/// three counts fall short of the cell total by exactly the number of
/// such cells.)
pub proof fn lemma_pixel_conservation(p: Seq<u8>, mask: Seq<u8>, g: Geometry)
    requires
        forall|x: int, y: int|
            0 <= x < g.width && 0 <= y < g.height && #[trigger] is_land(mask, g, x, y) ==> pixel(
                p,
                g.width as int,
                x,
                y,
            ) == QUANT_INVALID,
    ensures
        class_count(p, mask, g, CellClass::Filled) + class_count(p, mask, g, CellClass::Unfilled)
            + class_count(p, mask, g, CellClass::Water) == g.width * g.height,
{
    assert forall|xx: int, yy: int|
        0 <= xx < g.width && 0 <= yy < g.height implies #[trigger] classify(p, mask, g, xx, yy)
        != CellClass::Kept by {
        if is_land(mask, g, xx, yy) {
            assert(pixel(p, g.width as int, xx, yy) == QUANT_INVALID);
        }
    }
    lemma_count_zero(p, mask, g, CellClass::Kept, g.height as int);
    lemma_counts_total(p, mask, g, g.height as int);
    vstd::arithmetic::mul::lemma_mul_is_commutative(g.height as int, g.width as int);
}

/// Water immutability: wherever the mask marks water, a pass writes the
/// input pixel back unchanged.
pub proof fn lemma_water_unchanged(p: Seq<u8>, mask: Seq<u8>, g: Geometry, x: int, y: int)
    requires
        !is_land(mask, g, x, y),
    ensures
        out_pixel(p, mask, g, x, y) == pixel(p, g.width as int, x, y),
{
}

/// Largest weight the first `k` window cells can contribute to the corner
/// cell `(0, 0)`: only offsets with both components nonnegative stay in
/// bounds there, and the center never contributes.
spec fn corner_weight_cap(k: nat) -> int
    decreases k,
{
    if k == 0 {
        0
    } else {
        corner_weight_cap((k - 1) as nat) + ({
            let i = off_i(k - 1);
            let j = off_j(k - 1);
            if i >= 0 && j >= 0 && !(i == 0 && j == 0) {
                nb_weight(i, j)
            } else {
                0
            }
        })
    }
}

/// Largest weight the first `k` window cells can contribute anywhere when
/// the center cell is invalid: every cell but the center.
spec fn window_weight_cap(k: nat) -> int
    decreases k,
{
    if k == 0 {
        0
    } else {
        window_weight_cap((k - 1) as nat) + ({
            let i = off_i(k - 1);
            let j = off_j(k - 1);
            if !(i == 0 && j == 0) {
                nb_weight(i, j)
            } else {
                0
            }
        })
    }
}

proof fn lemma_corner_weight_sum_capped(p: Seq<u8>, w: int, h: int, k: nat)
    requires
        k <= 25,
        1 <= w,
        1 <= h,
        pixel(p, w, 0, 0) == QUANT_INVALID,
    ensures
        weight_sum(p, w, h, 0, 0, k) <= corner_weight_cap(k),
    decreases k,
{
    if k > 0 {
        lemma_corner_weight_sum_capped(p, w, h, (k - 1) as nat);
        let i = off_i(k - 1);
        let j = off_j(k - 1);
        if i < 0 || j < 0 {
            assert(!nb_in_bounds(w, h, 0 + i, 0 + j));
            assert(cell_weight(p, w, h, 0, 0, i, j) == 0);
        } else if i == 0 && j == 0 {
            assert(cell_weight(p, w, h, 0, 0, i, j) == 0);
        }
    }
}

proof fn lemma_window_weight_sum_capped(p: Seq<u8>, w: int, h: int, x: int, y: int, k: nat)
    requires
        k <= 25,
        pixel(p, w, x, y) == QUANT_INVALID,
    ensures
        weight_sum(p, w, h, x, y, k) <= window_weight_cap(k),
    decreases k,
{
    if k > 0 {
        lemma_window_weight_sum_capped(p, w, h, x, y, (k - 1) as nat);
        let i = off_i(k - 1);
        let j = off_j(k - 1);
        if i == 0 && j == 0 {
            assert(cell_weight(p, w, h, x, y, i, j) == 0);
        }
    }
}

/// Boundary exclusion at the raster corner: an invalid pixel at `(0, 0)`
/// can accumulate a total neighbor weight of at most 22, strictly below
/// the ceiling of 60 that `lemma_interior_weight_bound` gives any invalid
/// cell, because every offset with a negative component is out of bounds
/// there and contributes nothing.
pub proof fn lemma_corner_weight_bound(p: Seq<u8>, w: int, h: int)
    requires
        1 <= w,
        1 <= h,
        pixel(p, w, 0, 0) == QUANT_INVALID,
    ensures
        total_weight(p, w, h, 0, 0) <= 22,
{
    lemma_corner_weight_sum_capped(p, w, h, 25);
    assert(corner_weight_cap(25) == 22) by {
        reveal_with_fuel(corner_weight_cap, 26);
    }
}

/// Ceiling on the accumulated neighbor weight of any invalid cell: at
/// most 60, the sum of all 24 non-center window weights, attained only by
/// an interior cell whose whole window is valid.
pub proof fn lemma_interior_weight_bound(p: Seq<u8>, w: int, h: int, x: int, y: int)
    requires
        pixel(p, w, x, y) == QUANT_INVALID,
    ensures
        total_weight(p, w, h, x, y) <= 60,
{
    lemma_window_weight_sum_capped(p, w, h, x, y, 25);
    assert(window_weight_cap(25) == 60) by {
        reveal_with_fuel(window_weight_cap, 26);
    }
}

} // verus!
