//! Block-level QP deltas.
use vstd::prelude::*;

use crate::bytes::{clip, tdiv};
use crate::rank::{median, median_of};
use super::error::SrsV2Error;
use super::frame::{lemma_packed_position, VideoPlane};
use super::intra_plane::{block_count, padded_len, round_up_8};
use super::limits::{MAX_DIMENSION, QP_DELTA_WIRE_MAX, QP_DELTA_WIRE_MIN};
use super::rate_control::{ResidualEntropy, SrsV2BlockAqMode, SrsV2EncodeSettings};

verus! {

/// Checks a `qp_delta` against the wire bounds.
pub fn validate_wire_qp_delta(d: i8) -> (r: Result<(), SrsV2Error>)
    ensures
        QP_DELTA_WIRE_MIN <= d <= QP_DELTA_WIRE_MAX ==> r == Ok::<(), SrsV2Error>(()),
        !(QP_DELTA_WIRE_MIN <= d <= QP_DELTA_WIRE_MAX) ==> r == Err::<(), SrsV2Error>(
            SrsV2Error::Syntax("qp_delta out of wire range"),
        ),
{
    if d < QP_DELTA_WIRE_MIN || d > QP_DELTA_WIRE_MAX {
        return Err(SrsV2Error::Syntax("qp_delta out of wire range"));
    }
    Ok(())
}

/// A byte as a signed number.
pub open spec fn signed8(b: int) -> int {
    if b >= 128 {
        b - 256
    } else {
        b
    }
}

/// The byte that carries a delta.
pub open spec fn delta_byte(d: i8) -> u8 {
    (if d < 0 {
        d + 256
    } else {
        d as int
    }) as u8
}

/// The byte that carries a delta.
pub fn byte_of_delta(d: i8) -> (b: u8)
    ensures
        b == delta_byte(d),
        signed8(b as int) == d,
{
    if d < 0 {
        (d as i16 + 256) as u8
    } else {
        d as u8
    }
}

/// The delta that a byte carries.
pub fn delta_of_byte(b: u8) -> (d: i8)
    ensures
        d == signed8(b as int),
{
    if b >= 128 {
        (b as i16 - 256) as i8
    } else {
        b as i8
    }
}

/// The wire carries a delta.
pub open spec fn delta_on_wire(d: int) -> bool {
    QP_DELTA_WIRE_MIN <= d <= QP_DELTA_WIRE_MAX
}

/// The QP plus a delta, brought into the clip range and then between 1 and 51.
pub open spec fn shifted_qp(base_qp: int, delta: int, clip_min: int, clip_max: int) -> int {
    clip(clip(base_qp + delta, clip_min, clip_max), 1, 51)
}

pub fn apply_qp_delta_clamped(base_qp: u8, delta: i8, clip_min: u8, clip_max: u8) -> (r: u8)
    requires
        clip_min <= clip_max,
    ensures
        r == shifted_qp(base_qp as int, delta as int, clip_min as int, clip_max as int),
        1 <= r <= 51,
{
    let sum: i16 = base_qp as i16 + delta as i16;
    let clipped: i16 = if sum < clip_min as i16 {
        clip_min as i16
    } else if sum > clip_max as i16 {
        clip_max as i16
    } else {
        sum
    };
    if clipped < 1 {
        1
    } else if clipped > 51 {
        51
    } else {
        clipped as u8
    }
}

/// A larger delta never gives a smaller effective QP.
pub proof fn effective_qp_grows_with_delta(base: int, d: int, e: int, lo: int, hi: int)
    requires
        d <= e,
        lo <= hi,
    ensures
        shifted_qp(base, d, lo, hi) <= shifted_qp(base, e, lo, hi),
{
}

/// The clip range of a frame is not empty and lies between 1 and 51.
pub open spec fn clip_range_ok(clip_min: int, clip_max: int) -> bool {
    1 <= clip_min <= clip_max <= 51
}

pub fn validate_qp_clip_range(clip_min: u8, clip_max: u8) -> (r: Result<(), SrsV2Error>)
    ensures
        r == if clip_range_ok(clip_min as int, clip_max as int) {
            Ok::<(), SrsV2Error>(())
        } else {
            Err::<(), SrsV2Error>(SrsV2Error::Syntax("invalid qp clip range"))
        },
{
    if clip_min > clip_max || clip_min == 0 || clip_max > 51 {
        return Err(SrsV2Error::Syntax("invalid qp clip range"));
    }
    Ok(())
}

/// Sample `i` of an 8x8 tile, with 128 outside of the `pw` by `ph` area.
pub open spec fn tile_sample(
    p: VideoPlane<u8>,
    bx: int,
    by: int,
    pw: int,
    ph: int,
    i: int,
) -> int {
    let x = bx * 8 + i % 8;
    let y = by * 8 + i / 8;
    if x < pw && y < ph {
        p.at(x, y) as int
    } else {
        128
    }
}

/// The sum of the first `n` samples of a tile.
pub open spec fn tile_sum(p: VideoPlane<u8>, bx: int, by: int, pw: int, ph: int, n: int) -> int
    decreases n,
{
    if n <= 0 {
        0
    } else {
        tile_sum(p, bx, by, pw, ph, n - 1) + tile_sample(p, bx, by, pw, ph, n - 1)
    }
}

/// The sum of the squares of the first `n` samples of a tile.
pub open spec fn tile_squares(
    p: VideoPlane<u8>,
    bx: int,
    by: int,
    pw: int,
    ph: int,
    n: int,
) -> int
    decreases n,
{
    if n <= 0 {
        0
    } else {
        tile_squares(p, bx, by, pw, ph, n - 1) + tile_sample(p, bx, by, pw, ph, n - 1)
            * tile_sample(p, bx, by, pw, ph, n - 1)
    }
}

/// The mean of the squares minus the square of the mean, both rounded down.
pub open spec fn tile_variance(p: VideoPlane<u8>, bx: int, by: int, pw: int, ph: int) -> int {
    let mean = tile_sum(p, bx, by, pw, ph, 64) / 64;
    tile_squares(p, bx, by, pw, ph, 64) / 64 - mean * mean
}

proof fn lemma_spread(p: VideoPlane<u8>, bx: int, by: int, pw: int, ph: int, n: int, v: int)
    requires
        0 <= n,
    ensures
        tile_squares(p, bx, by, pw, ph, n) - 2 * (tile_sum(p, bx, by, pw, ph, n) * v) + n * (v * v)
            >= 0,
    decreases n,
{
    if n > 0 {
        lemma_spread(p, bx, by, pw, ph, n - 1, v);
        let x = tile_sample(p, bx, by, pw, ph, n - 1);
        let s = tile_sum(p, bx, by, pw, ph, n - 1);
        assert((s + x) * v == s * v + x * v) by (nonlinear_arith);
        assert(n * (v * v) == (n - 1) * (v * v) + v * v) by (nonlinear_arith);
        assert(x * x - 2 * (x * v) + v * v >= 0) by (nonlinear_arith);
    } else {
        assert(0 * v == 0);
        assert(0 * (v * v) == 0);
    }
}

/// The square of a sum is at most the number of terms times the sum of their squares.
proof fn lemma_cauchy(p: VideoPlane<u8>, bx: int, by: int, pw: int, ph: int, n: int)
    requires
        0 <= n,
    ensures
        tile_sum(p, bx, by, pw, ph, n) * tile_sum(p, bx, by, pw, ph, n) <= n * tile_squares(
            p,
            bx,
            by,
            pw,
            ph,
            n,
        ),
    decreases n,
{
    if n > 0 {
        lemma_cauchy(p, bx, by, pw, ph, n - 1);
        let x = tile_sample(p, bx, by, pw, ph, n - 1);
        let s = tile_sum(p, bx, by, pw, ph, n - 1);
        let q = tile_squares(p, bx, by, pw, ph, n - 1);
        lemma_spread(p, bx, by, pw, ph, n - 1, x);
        assert((s + x) * (s + x) == s * s + 2 * (s * x) + x * x) by (nonlinear_arith);
        assert(n * (q + x * x) == (n - 1) * q + q + (n - 1) * (x * x) + x * x) by (nonlinear_arith);
    }
}

proof fn lemma_variance_nonnegative(p: VideoPlane<u8>, bx: int, by: int, pw: int, ph: int)
    requires
        0 <= tile_sum(p, bx, by, pw, ph, 64),
    ensures
        0 <= tile_variance(p, bx, by, pw, ph),
{
    let s = tile_sum(p, bx, by, pw, ph, 64);
    let q = tile_squares(p, bx, by, pw, ph, 64);
    let m = s / 64;
    lemma_cauchy(p, bx, by, pw, ph, 64);
    assert((64 * m) * (64 * m) <= s * s) by (nonlinear_arith)
        requires
            0 <= 64 * m <= s,
    ;
    assert((64 * m) * (64 * m) == 4096 * (m * m)) by (nonlinear_arith);
}

/// Sample variance of an 8x8 tile.
pub fn compute_block_variance_8x8(
    plane: &VideoPlane<u8>,
    bx: usize,
    by: usize,
    pw: usize,
    ph: usize,
) -> (r: u32)
    requires
        plane.valid(),
        pw <= plane.width,
        ph <= plane.height,
        bx <= 8192,
        by <= 8192,
    ensures
        r == tile_variance(*plane, bx as int, by as int, pw as int, ph as int),
        r <= 65025,
{
    let mut sum: u64 = 0;
    let mut sumsq: u64 = 0;
    let mut i: usize = 0;
    while i < 64
        invariant
            i <= 64,
            plane.valid(),
            pw <= plane.width,
            ph <= plane.height,
            bx <= 8192,
            by <= 8192,
            sum == tile_sum(*plane, bx as int, by as int, pw as int, ph as int, i as int),
            sumsq == tile_squares(*plane, bx as int, by as int, pw as int, ph as int, i as int),
            sum <= 255 * i,
            sumsq <= 65025 * i,
        decreases 64 - i,
    {
        let x: usize = bx * 8 + i % 8;
        let y: usize = by * 8 + i / 8;
        let v: u64 = if x < pw && y < ph {
            plane.get(x, y) as u64
        } else {
            128
        };
        assert(0 <= v * v <= 65025) by (nonlinear_arith)
            requires
                0 <= v <= 255,
        ;
        sum = sum + v;
        sumsq = sumsq + v * v;
        i += 1;
    }
    let mean: u64 = sum / 64;
    assert(mean * mean <= 65025) by (nonlinear_arith)
        requires
            0 <= mean <= 255,
    ;
    proof {
        lemma_variance_nonnegative(*plane, bx as int, by as int, pw as int, ph as int);
    }
    let var: u64 = sumsq / 64 - mean * mean;
    assert(0 <= mean * mean) by (nonlinear_arith);
    var as u32
}

/// The delta of a tile: its variance against the median, scaled by the strength, negative for
/// busier tiles, brought into the allowed range.
pub open spec fn block_delta(
    block_var: int,
    median_var: int,
    strength: int,
    lo: int,
    hi: int,
) -> int {
    clip(tdiv(-((block_var - median_var) * strength), median_var * 4 + 1), lo, hi)
}

/// Chooses a bounded `qp_delta` from a tile variance.
pub fn choose_block_qp_delta(
    block_var: u32,
    median_var: u64,
    aq_strength: u8,
    delta_min: i8,
    delta_max: i8,
) -> (d: i8)
    requires
        delta_min <= delta_max,
    ensures
        d == block_delta(
            block_var as int,
            median_var as int,
            aq_strength as int,
            delta_min as int,
            delta_max as int,
        ),
        delta_min <= d <= delta_max,
{
    let st: i128 = aq_strength as i128;
    let med: i128 = median_var as i128;
    let diff: i128 = block_var as i128 - med;
    assert(-4703919738795935662080 <= diff * st <= 4703919738795935662080) by (nonlinear_arith)
        requires
            -18446744073709551616 <= diff <= 18446744073709551616,
            0 <= st <= 255,
    ;
    let raw: i128 = -(diff * st) / (med * 4 + 1);
    if raw < delta_min as i128 {
        delta_min
    } else if raw > delta_max as i128 {
        delta_max
    } else {
        raw as i8
    }
}

/// A tile above the median gets no positive delta, and one below it no negative delta.
pub proof fn busier_tiles_are_not_coarsened(var: int, median: int, strength: int, lo: int, hi: int)
    requires
        0 <= var,
        0 <= median,
        0 <= strength,
        lo <= 0 <= hi,
    ensures
        var >= median ==> block_delta(var, median, strength, lo, hi) <= 0,
        var <= median ==> block_delta(var, median, strength, lo, hi) >= 0,
{
    let n = -((var - median) * strength);
    let d = median * 4 + 1;
    assert(var >= median ==> n <= 0) by (nonlinear_arith)
        requires
            0 <= strength,
            n == -((var - median) * strength),
    ;
    assert(var <= median ==> n >= 0) by (nonlinear_arith)
        requires
            0 <= strength,
            n == -((var - median) * strength),
    ;
    assert(n >= 0 ==> n / d >= 0) by (nonlinear_arith)
        requires
            d >= 1,
    ;
    assert(n <= 0 ==> (-n) / d >= 0) by (nonlinear_arith)
        requires
            d >= 1,
    ;
}

/// Variance of tile `k` of a plane, row by row.
pub open spec fn plane_tile_variance(p: VideoPlane<u8>, k: int) -> int {
    let bw = padded_len(p.width as int) / 8;
    tile_variance(p, k % bw, k / bw, p.width as int, p.height as int)
}

/// The values of a list of 32-bit numbers.
pub open spec fn widened(v: Seq<u32>) -> Seq<u64> {
    Seq::new(v.len(), |i: int| v[i] as u64)
}

/// The median of a list of variances.
pub fn median_u32(values: &[u32]) -> (m: u64)
    ensures
        m == median(widened(values@)),
        m <= u32::MAX,
{
    let mut wide: Vec<u64> = Vec::with_capacity(values.len());
    let mut i: usize = 0;
    while i < values.len()
        invariant
            i <= values@.len(),
            wide@.len() == i,
            forall|j: int| 0 <= j < i ==> #[trigger] wide@[j] == values@[j],
        decreases values@.len() - i,
    {
        wide.push(values[i] as u64);
        i += 1;
    }
    assert(wide@ =~= widened(values@));
    median_of(wide.as_slice(), u32::MAX as u64)
}

/// Variances of every 8x8 tile of a plane, and their median.
pub fn collect_plane_block_variances(plane: &VideoPlane<u8>) -> (r: (Vec<u32>, u64))
    requires
        plane.valid(),
    ensures
        r.0@.len() == block_count(padded_len(plane.width as int), padded_len(plane.height as int)),
        forall|k: int| 0 <= k < r.0@.len() ==> #[trigger] r.0@[k] == plane_tile_variance(*plane, k),
        r.1 == median(widened(r.0@)),
        r.1 <= u32::MAX,
{
    let w: usize = plane.width as usize;
    let h: usize = plane.height as usize;
    let bw: usize = round_up_8(w) / 8;
    let bh: usize = round_up_8(h) / 8;
    assert(bw * bh <= 1024 * 1024) by (nonlinear_arith)
        requires
            bw <= 1024,
            bh <= 1024,
    ;
    let n: usize = bw * bh;
    let mut vars: Vec<u32> = Vec::with_capacity(n);
    let mut k: usize = 0;
    while k < n
        invariant
            k <= n,
            n == bw * bh,
            bw <= 1024,
            bh <= 1024,
            plane.valid(),
            w == plane.width,
            h == plane.height,
            bw == padded_len(w as int) / 8,
            vars@.len() == k,
            forall|j: int| 0 <= j < k ==> #[trigger] vars@[j] == plane_tile_variance(*plane, j),
        decreases n - k,
    {
        assert(bw > 0) by (nonlinear_arith)
            requires
                0 < bw * bh,
        ;
        proof {
            lemma_packed_position(k as int, bw as int, bh as int);
        }
        vars.push(compute_block_variance_8x8(plane, k % bw, k / bw, w, h));
        k += 1;
    }
    let med: u64 = median_u32(vars.as_slice());
    (vars, med)
}

/// Variance of sub-block `k` of a plane: four per macroblock, macroblocks in raster order.
pub open spec fn subblock_variance(p: VideoPlane<u8>, mb_cols: int, k: int) -> int {
    let mb = k / 4;
    let s = k % 4;
    tile_variance(
        p,
        mb % mb_cols * 2 + s % 2,
        mb / mb_cols * 2 + s / 2,
        p.width as int,
        p.height as int,
    )
}

/// Variances of the luma sub-blocks in macroblock raster order.
pub fn collect_p_subblock_variances(plane: &VideoPlane<u8>, mb_cols: u32, mb_rows: u32) -> (out: Vec<
    u32,
>)
    requires
        plane.valid(),
        mb_cols <= MAX_DIMENSION / 16,
        mb_rows <= MAX_DIMENSION / 16,
    ensures
        out@.len() == 4 * (mb_cols * mb_rows),
        forall|k: int|
            0 <= k < out@.len() ==> #[trigger] out@[k] == subblock_variance(
                *plane,
                mb_cols as int,
                k,
            ),
{
    let w: usize = plane.width as usize;
    let h: usize = plane.height as usize;
    let cols: usize = mb_cols as usize;
    assert(mb_cols * mb_rows <= 512 * 512) by (nonlinear_arith)
        requires
            mb_cols <= 512,
            mb_rows <= 512,
    ;
    let n: usize = 4 * (cols * mb_rows as usize);
    let mut out: Vec<u32> = Vec::with_capacity(n);
    let mut k: usize = 0;
    while k < n
        invariant
            k <= n,
            n == 4 * (cols * mb_rows),
            cols == mb_cols,
            mb_cols <= 512,
            mb_rows <= 512,
            plane.valid(),
            w == plane.width,
            h == plane.height,
            out@.len() == k,
            forall|j: int|
                0 <= j < k ==> #[trigger] out@[j] == subblock_variance(*plane, cols as int, j),
        decreases n - k,
    {
        assert(cols > 0) by (nonlinear_arith)
            requires
                0 < 4 * (cols * mb_rows),
        ;
        proof {
            lemma_packed_position(k as int / 4, cols as int, mb_rows as int);
        }
        let mb: usize = k / 4;
        let s: usize = k % 4;
        let bx: usize = mb % cols * 2 + s % 2;
        let by: usize = mb / cols * 2 + s / 2;
        out.push(compute_block_variance_8x8(plane, bx, by, w, h));
        k += 1;
    }
    out
}

/// Block deltas are on the wire: they need entropy-coded residuals.
pub open spec fn sends_deltas(s: SrsV2EncodeSettings) -> bool {
    s.block_aq_mode == SrsV2BlockAqMode::BlockDelta && s.residual_entropy
        != ResidualEntropy::Explicit
}

/// Whether block deltas are on the wire.
pub fn sends_block_deltas(settings: &SrsV2EncodeSettings) -> (r: bool)
    ensures
        r == sends_deltas(*settings),
{
    settings.block_aq_mode == SrsV2BlockAqMode::BlockDelta && settings.residual_entropy
        != ResidualEntropy::Explicit
}

/// The variances of the first `4 * n` sub-blocks of a picture.
pub open spec fn variances(cur: VideoPlane<u8>, cols: int, n: int) -> Seq<u64> {
    Seq::new((4 * n) as nat, |k: int| subblock_variance(cur, cols, k) as u64)
}

/// The delta of sub-block `i` of a picture of `n` macroblocks.
pub open spec fn picture_delta(
    cur: VideoPlane<u8>,
    s: SrsV2EncodeSettings,
    cols: int,
    n: int,
    i: int,
) -> int {
    if sends_deltas(s) {
        block_delta(
            subblock_variance(cur, cols, i),
            median(variances(cur, cols, n)) as int,
            s.aq_strength as int,
            s.min_block_qp_delta as int,
            s.max_block_qp_delta as int,
        )
    } else {
        0
    }
}

/// What the deltas of a picture are chosen from.
pub struct BlockDeltas {
    pub on: bool,
    pub vars: Vec<u32>,
    pub median: u64,
}

impl BlockDeltas {
    /// They belong to a picture of `n` macroblocks.
    pub open spec fn of(self, cur: VideoPlane<u8>, s: SrsV2EncodeSettings, cols: int, n: int) -> bool {
        &&& self.on == sends_deltas(s)
        &&& self.on ==> {
            &&& self.vars@.len() == 4 * n
            &&& forall|k: int|
                0 <= k < 4 * n ==> #[trigger] self.vars@[k] == subblock_variance(cur, cols, k)
            &&& self.median == median(variances(cur, cols, n))
            &&& self.median <= u32::MAX
        }
    }
}

/// Measures a picture for its block deltas.
pub fn measure_blocks(
    cur: &VideoPlane<u8>,
    settings: &SrsV2EncodeSettings,
    cols: u32,
    rows: u32,
) -> (r: BlockDeltas)
    requires
        cur.valid(),
        cols <= 512,
        rows <= 512,
    ensures
        r.of(*cur, *settings, cols as int, cols * rows),
{
    let on = sends_block_deltas(settings);
    if !on {
        return BlockDeltas { on, vars: Vec::new(), median: 0 };
    }
    let vars = collect_p_subblock_variances(cur, cols, rows);
    let median = median_u32(vars.as_slice());
    assert(widened(vars@) =~= variances(*cur, cols as int, cols * rows));
    BlockDeltas { on, vars, median }
}

} // verus!
