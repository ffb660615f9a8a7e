//! The pass controller: feeds each pass's output raster to the next pass
//! as its input, hands back the first and last pass statistics, and states
//! the cross-pass laws — a pixel once valid stays valid, and the unfilled
//! count never increases from one pass to the next under an unchanged mask.

use vstd::arithmetic::div_mod::lemma_div_pos_is_pos;
use vstd::arithmetic::div_mod::lemma_fundamental_div_mod;
use vstd::arithmetic::div_mod::lemma_fundamental_div_mod_converse_div;
use vstd::arithmetic::div_mod::lemma_fundamental_div_mod_converse_mod;
use vstd::arithmetic::div_mod::lemma_mod_bound;
use vstd::arithmetic::div_mod::lemma_multiply_divide_lt;
use vstd::arithmetic::mul::lemma_mul_is_commutative;
use vstd::prelude::*;

use crate::engine::class_count;
use crate::engine::classify;
use crate::engine::fill_missing_pixels;
use crate::engine::is_land;
use crate::engine::lemma_fill_value_valid;
use crate::engine::mask_all_rows_in_range;
use crate::engine::out_pixel;
use crate::engine::pass_output_ok;
use crate::engine::pixel;
use crate::engine::row_class_count;
use crate::engine::class_count_upto;
use crate::engine::CellClass;
use crate::engine::Geometry;
use crate::engine::PixelStats;
use crate::header::spec_encode;
use crate::header::Header;
use crate::lemma_grid_index;
use crate::EtoError;
use crate::HEADER_SIZE;
use crate::QUANT_INVALID;

verus! {

/// The payload one pass produces from payload `p`: every cell is the
/// specified per-cell result over the input snapshot.
pub open spec fn pass_payload(p: Seq<u8>, mask: Seq<u8>, g: Geometry) -> Seq<u8> {
    Seq::new(
        (g.width * g.height) as nat,
        |t: int| out_pixel(p, mask, g, t % (g.width as int), t / (g.width as int)),
    )
}

/// The payload after `n` passes, each consuming the previous one's output.
pub open spec fn passes_payload(p: Seq<u8>, mask: Seq<u8>, g: Geometry, n: nat) -> Seq<u8>
    decreases n,
{
    if n == 0 {
        p
    } else {
        pass_payload(passes_payload(p, mask, g, (n - 1) as nat), mask, g)
    }
}

/// Reading a pass's output payload at `(x, y)` gives the specified
/// per-cell result for that coordinate.
pub proof fn lemma_pass_payload_pixel(p: Seq<u8>, mask: Seq<u8>, g: Geometry, x: int, y: int)
    requires
        0 <= x < g.width,
        0 <= y < g.height,
    ensures
        pixel(pass_payload(p, mask, g), g.width as int, x, y) == out_pixel(p, mask, g, x, y),
{
    let w = g.width as int;
    lemma_grid_index(w, g.height as int, x, y);
    let t = y * w + x;
    lemma_mul_is_commutative(y, w);
    lemma_fundamental_div_mod_converse_div(t, w, y, x);
    lemma_fundamental_div_mod_converse_mod(t, w, y, x);
    assert(pass_payload(p, mask, g)[t] == out_pixel(p, mask, g, t % w, t / w));
}

/// The statistics of one pass over payload `p` are the exact per-class
/// cell counts.
pub open spec fn stats_of_pass(stats: PixelStats, p: Seq<u8>, mask: Seq<u8>, g: Geometry) -> bool {
    &&& stats.filled == class_count(p, mask, g, CellClass::Filled)
    &&& stats.unfilled == class_count(p, mask, g, CellClass::Unfilled)
    &&& stats.water == class_count(p, mask, g, CellClass::Water)
}

/// Runs `passes` interpolation passes, each one consuming the previous
/// pass's complete output raster, and returns the final raster together
/// with the first and the last pass's statistics. The size and mask
/// checks of the first pass govern the whole run: every later pass reads
/// a raster the engine itself produced, so it can fail no check the first
/// pass passed.
pub fn run_passes(
    input: &Vec<u8>,
    mask: &Vec<u8>,
    g: &Geometry,
    header: &Header,
    passes: u8,
) -> (r: Result<(Vec<u8>, PixelStats, PixelStats), EtoError>)
    requires
        g.wf(),
        passes >= 1,
    ensures
        input@.len() != HEADER_SIZE + g.width * g.height ==> r == Err::<
            (Vec<u8>, PixelStats, PixelStats),
            EtoError,
        >(EtoError::SizeMismatch),
        input@.len() == HEADER_SIZE + g.width * g.height && !mask_all_rows_in_range(mask@, *g)
            ==> r == Err::<(Vec<u8>, PixelStats, PixelStats), EtoError>(EtoError::IoError),
        input@.len() == HEADER_SIZE + g.width * g.height && mask_all_rows_in_range(mask@, *g) ==> (
        r matches Ok(ret) && {
            let p0 = input@.skip(HEADER_SIZE as int);
            &&& ret.0@.len() == HEADER_SIZE + g.width * g.height
            &&& ret.0@.subrange(0, HEADER_SIZE as int) == spec_encode(*header)
            &&& ret.0@.skip(HEADER_SIZE as int) == passes_payload(p0, mask@, *g, passes as nat)
            &&& stats_of_pass(ret.1, p0, mask@, *g)
            &&& stats_of_pass(
                ret.2,
                passes_payload(p0, mask@, *g, (passes - 1) as nat),
                mask@,
                *g,
            )
        }),
{
    let ghost p0 = input@.skip(HEADER_SIZE as int);
    let (first_out, first_stats) = match fill_missing_pixels(input, mask, g, header) {
        Ok(pair) => pair,
        Err(e) => {
            return Err(e);
        },
    };
    let mut cur: Vec<u8> = first_out;
    let mut last_stats: PixelStats = first_stats;
    proof {
        lemma_pass_matches_spec(cur@, first_stats, p0, mask@, *g, *header);
        assert(passes_payload(p0, mask@, *g, 0) == p0);
        assert(passes_payload(p0, mask@, *g, 1) == pass_payload(p0, mask@, *g));
    }
    let mut k: u8 = 1;
    while k < passes
        invariant
            g.wf(),
            1 <= k <= passes,
            input@.len() == HEADER_SIZE + g.width * g.height,
            mask_all_rows_in_range(mask@, *g),
            p0 == input@.skip(HEADER_SIZE as int),
            cur@.len() == HEADER_SIZE + g.width * g.height,
            cur@.subrange(0, HEADER_SIZE as int) == spec_encode(*header),
            cur@.skip(HEADER_SIZE as int) == passes_payload(p0, mask@, *g, k as nat),
            stats_of_pass(first_stats, p0, mask@, *g),
            stats_of_pass(last_stats, passes_payload(p0, mask@, *g, (k - 1) as nat), mask@, *g),
        decreases passes - k,
    {
        let ghost pk = cur@.skip(HEADER_SIZE as int);
        let (next, stats) = match fill_missing_pixels(&cur, mask, g, header) {
            Ok(pair) => pair,
            Err(e) => {
                return Err(e);
            },
        };
        proof {
            lemma_pass_matches_spec(next@, stats, pk, mask@, *g, *header);
        }
        cur = next;
        last_stats = stats;
        k += 1;
    }
    Ok((cur, first_stats, last_stats))
}

/// Bridges the engine's per-coordinate contract to the sequence-level
/// pass specification: an output raster whose pixels all match the
/// per-cell results has exactly `pass_payload` as its payload.
proof fn lemma_pass_matches_spec(
    outb: Seq<u8>,
    stats: PixelStats,
    p: Seq<u8>,
    mask: Seq<u8>,
    g: Geometry,
    h: Header,
)
    requires
        g.wf(),
        pass_output_ok(outb, stats, p, mask, g, h),
    ensures
        outb.skip(HEADER_SIZE as int) == pass_payload(p, mask, g),
        stats_of_pass(stats, p, mask, g),
{
    let w = g.width as int;
    let hh = g.height as int;
    let q = outb.skip(HEADER_SIZE as int);
    assert forall|t: int| 0 <= t < g.width * g.height implies q[t] == pass_payload(p, mask, g)[t] by {
        let xx = t % w;
        let yy = t / w;
        lemma_fundamental_div_mod(t, w);
        lemma_mod_bound(t, w);
        lemma_div_pos_is_pos(t, w);
        lemma_mul_is_commutative(w, hh);
        lemma_multiply_divide_lt(t, w, hh);
        assert(0 <= xx < w);
        assert(0 <= yy < hh);
        lemma_mul_is_commutative(w, yy);
        assert(t == yy * w + xx);
        assert(pixel(q, w, xx, yy) == out_pixel(p, mask, g, xx, yy));
        assert(q[t] == out_pixel(p, mask, g, xx, yy));
    }
    assert(q =~= pass_payload(p, mask, g));
}

/// A pass never invalidates a pixel: wherever the input holds a valid
/// code, the output holds one too, because valid cells are copied through
/// and an accepted fill is itself a valid code.
pub proof fn lemma_valid_stays_valid(p: Seq<u8>, mask: Seq<u8>, g: Geometry, x: int, y: int)
    requires
        pixel(p, g.width as int, x, y) != QUANT_INVALID,
    ensures
        out_pixel(p, mask, g, x, y) != QUANT_INVALID,
{
    if classify(p, mask, g, x, y) == CellClass::Filled {
        lemma_fill_value_valid(p, g.width as int, g.height as int, x, y);
    }
}

/// An output cell that is still invalid land was unfilled land already in
/// the input, with the weight gate unmet.
proof fn lemma_out_invalid_was_unfilled(p: Seq<u8>, mask: Seq<u8>, g: Geometry, x: int, y: int)
    requires
        is_land(mask, g, x, y),
        out_pixel(p, mask, g, x, y) == QUANT_INVALID,
    ensures
        classify(p, mask, g, x, y) == CellClass::Unfilled,
{
    if classify(p, mask, g, x, y) == CellClass::Filled {
        lemma_fill_value_valid(p, g.width as int, g.height as int, x, y);
    }
}

/// Pointwise implication between two payloads lifts to the row counts.
proof fn lemma_row_count_implies(
    p1: Seq<u8>,
    p2: Seq<u8>,
    mask: Seq<u8>,
    g: Geometry,
    c: CellClass,
    y: int,
    x: int,
)
    requires
        0 <= x,
        forall|xx: int|
            0 <= xx < x && #[trigger] classify(p2, mask, g, xx, y) == c ==> classify(
                p1,
                mask,
                g,
                xx,
                y,
            ) == c,
    ensures
        row_class_count(p2, mask, g, c, y, x) <= row_class_count(p1, mask, g, c, y, x),
    decreases x,
{
    if x > 0 {
        lemma_row_count_implies(p1, p2, mask, g, c, y, x - 1);
    }
}

/// Pointwise implication between two payloads lifts to the whole counts.
proof fn lemma_count_implies(
    p1: Seq<u8>,
    p2: Seq<u8>,
    mask: Seq<u8>,
    g: Geometry,
    c: CellClass,
    y: int,
)
    requires
        0 <= y,
        forall|xx: int, yy: int|
            0 <= xx < g.width && 0 <= yy < y && #[trigger] classify(p2, mask, g, xx, yy) == c
                ==> classify(p1, mask, g, xx, yy) == c,
    ensures
        class_count_upto(p2, mask, g, c, y) <= class_count_upto(p1, mask, g, c, y),
    decreases y,
{
    if y > 0 {
        lemma_count_implies(p1, p2, mask, g, c, y - 1);
        lemma_row_count_implies(p1, p2, mask, g, c, y - 1, g.width as int);
    }
}

/// Monotonic validity under repeated passes: with the mask unchanged, a
/// cell the next pass counts as unfilled was already unfilled in the
/// previous pass, so the unfilled count never increases from one pass to
/// the next.
pub proof fn lemma_unfilled_nonincreasing(p: Seq<u8>, mask: Seq<u8>, g: Geometry)
    ensures
        class_count(pass_payload(p, mask, g), mask, g, CellClass::Unfilled) <= class_count(
            p,
            mask,
            g,
            CellClass::Unfilled,
        ),
{
    let q = pass_payload(p, mask, g);
    assert forall|xx: int, yy: int|
        0 <= xx < g.width && 0 <= yy < g.height && #[trigger] classify(q, mask, g, xx, yy)
            == CellClass::Unfilled implies classify(p, mask, g, xx, yy) == CellClass::Unfilled by {
        lemma_pass_payload_pixel(p, mask, g, xx, yy);
        lemma_out_invalid_was_unfilled(p, mask, g, xx, yy);
    }
    lemma_count_implies(p, q, mask, g, CellClass::Unfilled, g.height as int);
}

/// Signed component-wise difference between two pass statistics, reported
/// as such even when a later pass regressed (never clamped).
#[derive(Clone, Copy, Debug, PartialEq, Eq, Structural)]
pub struct PassDelta {
    /// First minus last filled count.
    pub filled: i128,
    /// First minus last unfilled count.
    pub unfilled: i128,
    /// First minus last water count.
    pub water: i128,
}

/// Reports how the counts moved between the first and the last pass of a
/// run, component-wise and signed.
pub fn stats_delta(first: &PixelStats, last: &PixelStats) -> (r: PassDelta)
    ensures
        r.filled == first.filled - last.filled,
        r.unfilled == first.unfilled - last.unfilled,
        r.water == first.water - last.water,
{
    PassDelta {
        filled: first.filled as i128 - last.filled as i128,
        unfilled: first.unfilled as i128 - last.unfilled as i128,
        water: first.water as i128 - last.water as i128,
    }
}

} // verus!
