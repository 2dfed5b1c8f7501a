//! How the QP follows the content of a picture.
use vstd::prelude::*;

use crate::arith::{lemma_total_constant, lemma_total_equal, lemma_total_raised, magnitude, total};
use crate::bytes::tdiv;
use crate::rank::median;
use super::activity::{
    mb_activity, mb_deviation, mb_gradient, mb_mean, mb_sample, screen_score, BlockActivity,
};
use super::adaptive_quant::{activity_score, frame_aq, mb_qp, mb_scores, qp_tally, score_delta};
use super::block_aq::{
    block_delta, delta_on_wire, picture_delta, plane_tile_variance, sends_deltas, subblock_variance,
    tile_sample, tile_squares, tile_sum, tile_variance, variances,
};
use super::frame::{lemma_packed_at, VideoPlane};
use super::inter_frame::{delta_job, sub_of, DeltaRange};
use super::intra_plane::padded_len;
use super::rate_control::{SrsV2AdaptiveQuantizationMode, SrsV2EncodeSettings};


verus! {

/// The summed variance of a macroblock is the sum of the squared distances of its samples from
/// their mean, the mean rounded down.
pub proof fn variance_is_taken_about_the_mean(p: VideoPlane<u8>, mb_x: int, mb_y: int) -> (m: int)
    requires
        p.valid(),
        0 <= mb_x,
        0 <= mb_y,
        16 * mb_x + 16 <= p.width,
        16 * mb_y + 16 <= p.height,
    ensures
        ({
            let s = |i: int| p.at(16 * mb_x + i % 16, 16 * mb_y + i / 16) as int;
            let v = mb_activity(p, mb_x, mb_y).variance_sum;
            &&& 256 * m <= total(256, s) < 256 * m + 256
            &&& v == total(256, |i: int| (s(i) - m) * (s(i) - m))
            &&& mb_activity(p, mb_x, mb_y).flatness == if v < 4096 {
                1024u32
            } else {
                0
            }
        }),
{
    let (bx, by) = (mb_x * 16, mb_y * 16);
    let s = |i: int| p.at(16 * mb_x + i % 16, 16 * mb_y + i / 16) as int;
    let m = mb_mean(p, bx, by);
    let f = |i: int| mb_sample(p, bx, by, i);
    lemma_total_equal(256, s, f);
    let g = |i: int| (s(i) - m) * (s(i) - m);
    let h = |i: int| mb_deviation(p, bx, by, i);
    lemma_total_equal(256, g, h);
    crate::arith::lemma_total_bound(256, f, 255);
    assert forall|i: int| 0 <= i < 256 implies 0 <= #[trigger] g(i) <= 65025 by {
        let d = s(i) - m;
        assert(0 <= d * d <= 65025) by (nonlinear_arith)
            requires
                -255 <= d <= 255,
        ;
    }
    crate::arith::lemma_total_bound(256, g, 65025);
    m
}

/// Edges count alike in both directions: over a slope of `sx` per column and `sy` per row, each of
/// the 14 by 14 inner samples adds twice either, whichever way the slope falls. A flat macroblock
/// has no edges.
pub proof fn slopes_are_measured_in_both_directions(
    p: VideoPlane<u8>,
    mb_x: int,
    mb_y: int,
    c: int,
    sx: int,
    sy: int,
)
    requires
        p.valid(),
        0 <= mb_x,
        0 <= mb_y,
        16 * mb_x + 16 <= p.width,
        16 * mb_y + 16 <= p.height,
        magnitude(sx) <= 255,
        magnitude(sy) <= 255,
        forall|i: int, j: int|
            0 <= i < 16 && 0 <= j < 16 ==> #[trigger] p.at(16 * mb_x + i, 16 * mb_y + j) == c + sx * i
                + sy * j,
    ensures
        mb_activity(p, mb_x, mb_y).edge_sum == 392 * (magnitude(sx) + magnitude(sy)),
        mb_activity(p, mb_x, mb_y).mag_grad_sum == mb_activity(p, mb_x, mb_y).edge_sum,
{
    let (bx, by) = (mb_x * 16, mb_y * 16);
    let g = |i: int| mb_gradient(p, bx, by, i);
    assert forall|i: int| 0 <= i < 196 implies #[trigger] g(i) == 2 * (magnitude(sx) + magnitude(sy))
        by {
        let (a, b) = (1 + i % 14, 1 + i / 14);
        assert(p.at(16 * mb_x + (a + 1), 16 * mb_y + b) == c + sx * (a + 1) + sy * b);
        assert(p.at(16 * mb_x + (a - 1), 16 * mb_y + b) == c + sx * (a - 1) + sy * b);
        assert(p.at(16 * mb_x + a, 16 * mb_y + (b + 1)) == c + sx * a + sy * (b + 1));
        assert(p.at(16 * mb_x + a, 16 * mb_y + (b - 1)) == c + sx * a + sy * (b - 1));
        assert(sx * (a + 1) - sx * (a - 1) == 2 * sx) by (nonlinear_arith);
        assert(sy * (b + 1) - sy * (b - 1) == 2 * sy) by (nonlinear_arith);
    }
    lemma_total_constant(196, g, 2 * (magnitude(sx) + magnitude(sy)));
}

/// Brightness does not count as activity: a picture that is brighter by `c` everywhere has the same
/// variance and the same edges.
pub proof fn brightness_is_no_activity(
    p: VideoPlane<u8>,
    q: VideoPlane<u8>,
    mb_x: int,
    mb_y: int,
    c: int,
)
    requires
        p.valid(),
        q.valid(),
        p.width == q.width,
        p.height == q.height,
        0 <= mb_x,
        0 <= mb_y,
        16 * mb_x + 16 <= p.width,
        16 * mb_y + 16 <= p.height,
        forall|x: int, y: int|
            0 <= x < p.width && 0 <= y < p.height ==> #[trigger] q.at(x, y) == p.at(x, y) + c,
    ensures
        mb_activity(q, mb_x, mb_y) == mb_activity(p, mb_x, mb_y),
{
    let (bx, by) = (mb_x * 16, mb_y * 16);
    let f = |i: int| mb_sample(p, bx, by, i);
    let g = |i: int| mb_sample(q, bx, by, i);
    assert forall|i: int| 0 <= i < 256 implies #[trigger] g(i) == f(i) + c by {
        assert(q.at(bx + i % 16, by + i / 16) == p.at(bx + i % 16, by + i / 16) + c);
    }
    lemma_total_raised(256, f, g, c);
    assert(mb_mean(q, bx, by) == mb_mean(p, bx, by) + c);
    let d = |i: int| mb_deviation(p, bx, by, i);
    let e = |i: int| mb_deviation(q, bx, by, i);
    assert forall|i: int| 0 <= i < 256 implies #[trigger] d(i) == e(i) by {
        assert(g(i) == f(i) + c);
    }
    lemma_total_equal(256, d, e);
    let u = |i: int| mb_gradient(p, bx, by, i);
    let v = |i: int| mb_gradient(q, bx, by, i);
    assert forall|i: int| 0 <= i < 196 implies #[trigger] u(i) == v(i) by {
        let (x, y) = (bx + 1 + i % 14, by + 1 + i / 14);
        assert(q.at(x + 1, y) == p.at(x + 1, y) + c && q.at(x - 1, y) == p.at(x - 1, y) + c);
        assert(q.at(x, y + 1) == p.at(x, y + 1) + c && q.at(x, y - 1) == p.at(x, y - 1) + c);
    }
    lemma_total_equal(196, u, v);
}

/// What adds one to the score of a macroblock: in the activity mode 256 of variance or 16 of edges,
/// in the edge mode half an edge or 512 of variance, on screens half an edge or 4 of gradients.
/// Nothing counts while the mode is off, and a macroblock without activity has no score.
pub proof fn scores_weigh_activity(act: BlockActivity)
    requires
        act.variance_sum <= 1000000000000,
        act.edge_sum <= 1000000000000,
        act.mag_grad_sum <= 1000000000000,
    ensures
        ({
            let rough = BlockActivity { variance_sum: (act.variance_sum + 512) as u64, ..act };
            let edgy = BlockActivity { edge_sum: (act.edge_sum + 16) as u64, ..act };
            let steep = BlockActivity { mag_grad_sum: (act.mag_grad_sum + 4) as u64, ..act };
            let none = BlockActivity { variance_sum: 0, edge_sum: 0, mag_grad_sum: 0, ..act };
            let a = |b: BlockActivity| activity_score(SrsV2AdaptiveQuantizationMode::Activity, b);
            let e = |b: BlockActivity| activity_score(SrsV2AdaptiveQuantizationMode::EdgeAware, b);
            let s = |b: BlockActivity| activity_score(SrsV2AdaptiveQuantizationMode::ScreenAware, b);
            &&& a(rough) == a(act) + 2 && a(edgy) == a(act) + 1 && a(steep) == a(act)
            &&& e(rough) == e(act) + 1 && e(edgy) == e(act) + 32 && e(steep) == e(act)
            &&& s(rough) == s(act) && s(edgy) == s(act) + 32 && s(steep) == s(act) + 1
            &&& a(none) == 0 && e(none) == 0 && s(none) == 0
            &&& activity_score(SrsV2AdaptiveQuantizationMode::Off, act) == 0
            &&& s(act) == screen_score(act)
        }),
{
}

proof fn lemma_quotient(n: int, d: int, q: int)
    requires
        d >= 1,
        q == tdiv(n, d),
    ensures
        n >= 0 ==> q >= 0 && d * q <= n < d * q + d,
        n <= 0 ==> q <= 0 && d * q - d < n <= d * q,
{
    let m = if n >= 0 {
        n
    } else {
        -n
    };
    vstd::arithmetic::div_mod::lemma_fundamental_div_mod(m, d);
    vstd::arithmetic::div_mod::lemma_mod_bound(m, d);
    vstd::arithmetic::div_mod::lemma_div_pos_is_pos(m, d);
    if n < 0 {
        assert(d * (-(m / d)) == -(d * (m / d))) by (nonlinear_arith);
    }
}

/// Busier macroblocks are coded more coarsely: a score above the median gives a delta that is not
/// negative and one below it a delta that is not positive; the delta is how often four times the
/// median and one goes into the distance from it, times the strength, within the allowed range.
pub proof fn busier_macroblocks_are_coarsened(score: int, strength: int, lo: int, hi: int, med: int)
    requires
        0 <= score,
        1 <= strength,
        1 <= med,
        lo <= 0 <= hi,
    ensures
        ({
            let d = score_delta(score, strength, lo, hi, med);
            let far = (score - med) * strength;
            let unit = 4 * med + 1;
            &&& lo <= d <= hi
            &&& score >= med ==> d >= 0 && unit * d <= far && (d < hi ==> far < unit * d + unit)
            &&& score <= med ==> d <= 0 && unit * d >= far && (d > lo ==> far > unit * d - unit)
        }),
{
    let far = (score - med) * strength;
    let unit = med * 4 + 1;
    let q = tdiv(far, unit);
    lemma_quotient(far, unit, q);
    assert(score >= med ==> far >= 0) by (nonlinear_arith)
        requires
            far == (score - med) * strength,
            strength >= 1,
    ;
    assert(score <= med ==> far <= 0) by (nonlinear_arith)
        requires
            far == (score - med) * strength,
            strength >= 1,
    ;
    if q > hi {
        assert(unit * hi <= unit * q) by (nonlinear_arith)
            requires
                hi <= q,
                unit >= 1,
        ;
    }
    if q < lo {
        assert(unit * lo >= unit * q) by (nonlinear_arith)
            requires
                lo >= q,
                unit >= 1,
        ;
    }
}

/// Busier tiles are coded more finely: the delta of a tile is how often four times the median and
/// one goes into its distance below the median, times the strength, within the allowed range.
pub proof fn busier_tiles_are_refined(var: int, med: int, strength: int, lo: int, hi: int)
    requires
        0 <= var,
        0 <= med,
        0 <= strength,
        lo <= 0 <= hi,
    ensures
        ({
            let d = block_delta(var, med, strength, lo, hi);
            let far = (med - var) * strength;
            let unit = 4 * med + 1;
            &&& lo <= d <= hi
            &&& var <= med ==> d >= 0 && unit * d <= far && (d < hi ==> far < unit * d + unit)
            &&& var >= med ==> d <= 0 && unit * d >= far && (d > lo ==> far > unit * d - unit)
        }),
{
    let far = (med - var) * strength;
    let unit = med * 4 + 1;
    assert(-((var - med) * strength) == far) by (nonlinear_arith)
        requires
            far == (med - var) * strength,
    ;
    let q = tdiv(far, unit);
    lemma_quotient(far, unit, q);
    assert(var <= med ==> far >= 0) by (nonlinear_arith)
        requires
            far == (med - var) * strength,
            strength >= 0,
    ;
    assert(var >= med ==> far <= 0) by (nonlinear_arith)
        requires
            far == (med - var) * strength,
            strength >= 0,
    ;
    if q > hi {
        assert(unit * hi <= unit * q) by (nonlinear_arith)
            requires
                hi <= q,
                unit >= 1,
        ;
    }
    if q < lo {
        assert(unit * lo >= unit * q) by (nonlinear_arith)
            requires
                lo >= q,
                unit >= 1,
        ;
    }
}

proof fn lemma_tally(base: int, scores: Seq<u64>, s: SrsV2EncodeSettings, n: int, k: int)
    requires
        0 <= n,
        s.min_qp <= s.max_qp,
    ensures
        ({
            let t = qp_tally(base, scores, s, n);
            let q = |i: int| mb_qp(base, scores, s, i);
            &&& t.sum == total(n, q)
            &&& 0 <= k < n ==> t.least <= q(k) <= t.most
            &&& s.min_qp <= t.least <= 255 && 0 <= t.most && t.most <= s.max_qp
            &&& t.above == total(n, |i: int| if q(i) > base { 1int } else { 0 })
            &&& t.below == total(n, |i: int| if q(i) < base { 1int } else { 0 })
            &&& t.above + t.below + t.equal == n
            &&& n * t.least <= t.sum <= n * t.most
            &&& 0 <= t.above <= n && 0 <= t.below <= n && 0 <= t.equal <= n
        }),
    decreases n,
{
    if n > 0 {
        lemma_tally(base, scores, s, n - 1, k);
        let t = qp_tally(base, scores, s, n - 1);
        let u = qp_tally(base, scores, s, n);
        let q = mb_qp(base, scores, s, n - 1);
        assert((n - 1) * t.least >= (n - 1) * u.least && (n - 1) * t.most <= (n - 1) * u.most)
            by (nonlinear_arith)
            requires
                n >= 1,
                u.least <= t.least,
                t.most <= u.most,
        ;
        assert((n - 1) * u.least + u.least == n * u.least && (n - 1) * u.most + u.most == n * u.most)
            by (nonlinear_arith);
    }
}

/// The QP of a picture is the mean of the QPs that its macroblocks ask for, rounded to nearest; the
/// statistics count the macroblocks above, below and at the QP that was asked for, and name the
/// least and the largest.
pub proof fn frame_qp_is_the_mean(base_qp: int, p: VideoPlane<u8>, s: SrsV2EncodeSettings, k: int)
    requires
        p.valid(),
        s.min_qp <= s.max_qp,
        s.adaptive_quantization_mode != SrsV2AdaptiveQuantizationMode::Off,
        0 <= k < (p.width as int / 16) * (p.height as int / 16),
        s.min_qp <= base_qp <= s.max_qp,
    ensures
        ({
            let n = (p.width as int / 16) * (p.height as int / 16);
            let scores = mb_scores(p, s.adaptive_quantization_mode);
            let q = |i: int| mb_qp(base_qp, scores, s, i);
            let (eff, st) = frame_aq(base_qp, p, s);
            &&& -n <= 2 * (n * eff - total(n, q)) <= n
            &&& st.min_block_qp_used <= q(k) <= st.max_block_qp_used
            &&& st.min_block_qp_used <= eff <= st.max_block_qp_used
            &&& st.effective_qp == eff
            &&& st.base_qp == base_qp
            &&& st.block_qp_count == n
            &&& st.block_qp_sum == total(n, q)
            &&& st.positive_qp_delta_blocks == total(n, |i: int| if q(i) > base_qp { 1int } else { 0 })
            &&& st.negative_qp_delta_blocks == total(n, |i: int| if q(i) < base_qp { 1int } else { 0 })
            &&& st.positive_qp_delta_blocks + st.negative_qp_delta_blocks + st.unchanged_qp_blocks
                == n
            &&& st.aq_enabled
        }),
{
    let n = (p.width as int / 16) * (p.height as int / 16);
    assert(n <= 512 * 512) by (nonlinear_arith)
        requires
            n == (p.width as int / 16) * (p.height as int / 16),
            0 <= p.width as int / 16 <= 512,
            0 <= p.height as int / 16 <= 512,
    ;
    let scores = mb_scores(p, s.adaptive_quantization_mode);
    lemma_tally(base_qp, scores, s, n, k);
    let t = qp_tally(base_qp, scores, s, n);
    let m = 2 * t.sum + n;
    let d = 2 * n;
    let eff = m / d;
    vstd::arithmetic::div_mod::lemma_fundamental_div_mod(m, d);
    vstd::arithmetic::div_mod::lemma_mod_bound(m, d);
    assert(d * eff == 2 * (n * eff)) by (nonlinear_arith)
        requires
            d == 2 * n,
    ;
    assert(eff >= t.least) by (nonlinear_arith)
        requires
            2 * (n * eff) + d > 2 * t.sum + n,
            d == 2 * n,
            n * t.least <= t.sum,
            n >= 1,
    ;
    assert(eff <= t.most) by (nonlinear_arith)
        requires
            2 * (n * eff) <= 2 * t.sum + n,
            t.sum <= n * t.most,
            n >= 1,
    ;
    assert(0 <= n * t.most <= n * 255 && 0 <= n * t.least) by (nonlinear_arith)
        requires
            0 <= t.most <= 255,
            0 <= t.least,
            n >= 1,
    ;
}

/// A macroblock asks for the QP of the picture plus its delta, within the QP range; where
/// adaptation is off the picture keeps its QP.
pub proof fn macroblocks_shift_the_qp(base: int, p: VideoPlane<u8>, s: SrsV2EncodeSettings, k: int)
    requires
        s.min_qp <= base <= s.max_qp,
    ensures
        ({
            let scores = mb_scores(p, s.adaptive_quantization_mode);
            let d = score_delta(
                scores[k] as int,
                s.aq_strength as int,
                s.min_block_qp_delta as int,
                s.max_block_qp_delta as int,
                median(scores),
            );
            let q = mb_qp(base, scores, s, k);
            &&& s.min_qp <= q <= s.max_qp
            &&& s.min_qp <= base + d <= s.max_qp ==> q == base + d
            &&& base + d < s.min_qp ==> q == s.min_qp
            &&& base + d > s.max_qp ==> q == s.max_qp
        }),
        s.adaptive_quantization_mode == SrsV2AdaptiveQuantizationMode::Off ==> frame_aq(base, p, s).0
            == base && !frame_aq(base, p, s).1.aq_enabled,
{
}

/// The scores of a picture stand in raster order: that of the macroblock in column `x` of row `y`
/// stands behind those of all rows above and of the columns to its left.
pub proof fn scores_stand_in_raster_order(
    p: VideoPlane<u8>,
    mode: SrsV2AdaptiveQuantizationMode,
    x: int,
    y: int,
)
    requires
        0 <= x < p.width as int / 16,
        0 <= y < p.height as int / 16,
    ensures
        mb_scores(p, mode).len() == (p.width as int / 16) * (p.height as int / 16),
        mb_scores(p, mode)[y * (p.width as int / 16) + x] == activity_score(
            mode,
            mb_activity(p, x, y),
        ) as u64,
{
    lemma_packed_at(x, y, p.width as int / 16, p.height as int / 16);
}

proof fn lemma_tile_totals(p: VideoPlane<u8>, bx: int, by: int, pw: int, ph: int, n: int)
    ensures
        tile_sum(p, bx, by, pw, ph, n) == total(n, |i: int| tile_sample(p, bx, by, pw, ph, i)),
        tile_squares(p, bx, by, pw, ph, n) == total(
            n,
            |i: int| tile_sample(p, bx, by, pw, ph, i) * tile_sample(p, bx, by, pw, ph, i),
        ),
    decreases n,
{
    if n > 0 {
        lemma_tile_totals(p, bx, by, pw, ph, n - 1);
    }
}

/// The variance of a tile inside the picture is the mean of its squared samples, rounded down, less
/// the square of their mean, rounded down.
pub proof fn tile_variance_is_mean_square_less_squared_mean(
    p: VideoPlane<u8>,
    bx: int,
    by: int,
) -> (m: int)
    requires
        p.valid(),
        0 <= bx,
        0 <= by,
        8 * bx + 8 <= p.width,
        8 * by + 8 <= p.height,
    ensures
        ({
            let s = |i: int| p.at(8 * bx + i % 8, 8 * by + i / 8) as int;
            let v = tile_variance(p, bx, by, p.width as int, p.height as int);
            &&& 64 * m <= total(64, s) < 64 * m + 64
            &&& 64 * (v + m * m) <= total(64, |i: int| s(i) * s(i)) < 64 * (v + m * m) + 64
        }),
{
    let (w, h) = (p.width as int, p.height as int);
    let s = |i: int| p.at(8 * bx + i % 8, 8 * by + i / 8) as int;
    let t = |i: int| tile_sample(p, bx, by, w, h, i);
    let ss = |i: int| s(i) * s(i);
    let tt = |i: int| tile_sample(p, bx, by, w, h, i) * tile_sample(p, bx, by, w, h, i);
    lemma_tile_totals(p, bx, by, w, h, 64);
    assert(forall|i: int| 0 <= i < 64 ==> #[trigger] s(i) == t(i));
    lemma_total_equal(64, s, t);
    assert forall|i: int| 0 <= i < 64 implies #[trigger] ss(i) == tt(i) by {
        assert(s(i) == t(i));
    }
    lemma_total_equal(64, ss, tt);
    tile_sum(p, bx, by, w, h, 64) / 64
}

/// The variance that a sub-block is judged by is that of the tile it covers, in either order of the
/// tiles: macroblock by macroblock, or row by row.
pub proof fn tiles_cover_their_sub_blocks(p: VideoPlane<u8>, x: int, y: int)
    requires
        p.valid(),
        p.width % 16 == 0,
        p.height % 16 == 0,
        0 <= x < p.width,
        0 <= y < p.height,
    ensures
        ({
            let (w, h) = (p.width as int, p.height as int);
            let cols = w / 16;
            let sub = 4 * (y / 16 * cols + x / 16) + y % 16 / 8 * 2 + x % 16 / 8;
            let v = tile_variance(p, x / 8, y / 8, w, h);
            &&& subblock_variance(p, cols, sub) == v
            &&& plane_tile_variance(p, y / 8 * (w / 8) + x / 8) == v
        }),
{
    let (w, h) = (p.width as int, p.height as int);
    let cols = w / 16;
    lemma_packed_at(x / 16, y / 16, cols, h / 16);
    lemma_packed_at(x / 8, y / 8, w / 8, h / 8);
    let sub = sub_of(cols, x, y);
    assert(sub / 4 == y / 16 * cols + x / 16);
    assert(sub % 4 == y % 16 / 8 * 2 + x % 16 / 8);
    assert(padded_len(w) == w);
}

/// A strength of 0 counts as 1, and where the median is 0 it counts as 1.
pub proof fn least_strength_and_median_are_one(score: int, med: int, lo: int, hi: int, k: int)
    requires
        lo <= hi,
    ensures
        score_delta(score, 0, lo, hi, med) == score_delta(score, 1, lo, hi, med),
        lo <= k <= hi ==> score_delta(5 * k, 1, lo, hi, 0) == k,
{
    assert((5 * k - 0) * 1 == 5 * k);
    assert(tdiv(5 * k, 5) == k);
}

/// Every block of a picture has the delta of its own variance: how often four times the median of all
/// blocks and one goes into its distance below that median, times the strength, within the
/// allowed range. Without deltas it has none.
pub proof fn blocks_have_their_own_deltas(
    cur: VideoPlane<u8>,
    s: SrsV2EncodeSettings,
    cols: int,
    n: int,
    i: int,
)
    requires
        s.min_block_qp_delta <= 0 <= s.max_block_qp_delta,
        0 <= subblock_variance(cur, cols, i),
        0 <= median(variances(cur, cols, n)),
    ensures
        ({
            let d = picture_delta(cur, s, cols, n, i);
            let med = median(variances(cur, cols, n));
            let var = subblock_variance(cur, cols, i);
            let far = (med - var) * s.aq_strength;
            let unit = 4 * med + 1;
            &&& !sends_deltas(s) ==> d == 0
            &&& sends_deltas(s) ==> {
                &&& s.min_block_qp_delta <= d <= s.max_block_qp_delta
                &&& var <= med ==> d >= 0 && unit * d <= far && (d < s.max_block_qp_delta ==> far
                    < unit * d + unit)
                &&& var >= med ==> d <= 0 && unit * d >= far && (d > s.min_block_qp_delta ==> far
                    > unit * d - unit)
            }
        }),
{
    if sends_deltas(s) {
        busier_tiles_are_refined(
            subblock_variance(cur, cols, i),
            median(variances(cur, cols, n)),
            s.aq_strength as int,
            s.min_block_qp_delta as int,
            s.max_block_qp_delta as int,
        );
    }
}

/// Blocks are measured one by one, each with the variance of its own tile.
pub proof fn variances_are_those_of_the_blocks(cur: VideoPlane<u8>, cols: int, n: int, i: int)
    requires
        0 <= i < 4 * n,
        0 <= subblock_variance(cur, cols, i) <= u64::MAX,
    ensures
        variances(cur, cols, n).len() == 4 * n,
        variances(cur, cols, n)[i] == subblock_variance(cur, cols, i),
{
}

/// A block is read at the QP of its picture plus the number in its first byte, within the range of
/// the picture and from 1 to 51; a negative number stands at the upper end of the byte.
pub proof fn first_bytes_shift_the_qp(data: Seq<u8>, span: (int, int), d: DeltaRange)
    requires
        0 <= span.0 < span.1 <= data.len(),
    ensures
        ({
            let b = data[span.0] as int;
            let delta = if b < 128 {
                b
            } else {
                b - 256
            };
            let qp = d.base + delta;
            let j = delta_job(data, span, true, d);
            &&& j is Ok <==> delta_on_wire(delta)
            &&& j matches Ok(v) ==> {
                &&& v is Entropy
                &&& v->Entropy_0 == span.0 + 1
                &&& v->Entropy_1 == span.1
                &&& 1 <= v->Entropy_2 <= 51
                &&& d.clip_min <= qp <= d.clip_max && 1 <= qp <= 51 ==> v->Entropy_2 == qp
                &&& 1 <= d.clip_min <= d.clip_max <= 51 && qp < d.clip_min ==> v->Entropy_2
                    == d.clip_min
                &&& 1 <= d.clip_min <= d.clip_max <= 51 && qp > d.clip_max ==> v->Entropy_2
                    == d.clip_max
            }
        }),
{
}

} // verus!
