//! Frame-level adaptive quantization: one effective QP from per-macroblock activity.
use vstd::prelude::*;

use crate::arith::{greatest, least, sat_mul_u64};
use crate::bytes::{clip, tdiv};
use crate::rank::{median, median_of};
use super::activity::{
    mb_activity, mb_activity_y16, screen_activity_score, screen_score, BlockActivity,
};
use super::error::SrsV2Error;
use super::frame::{lemma_packed_position, VideoPlane, YuvFrame};
use super::rate_control::{SrsV2AdaptiveQuantizationMode, SrsV2EncodeSettings};

verus! {

/// What a payload carries of block QPs.
#[derive(Debug, Clone, Copy, PartialEq, Eq, Structural)]
pub struct SrsV2BlockAqWireStats {
    /// The payload carries a QP delta for each block.
    pub block_aq_enabled: bool,
}

/// What adaptive quantization did to one frame.
#[derive(Debug, Clone, Copy, PartialEq, Eq, Structural)]
pub struct SrsV2AqEncodeStats {
    pub aq_enabled: bool,
    pub base_qp: u8,
    pub effective_qp: u8,
    pub min_block_qp_used: u8,
    pub max_block_qp_used: u8,
    /// Sum of the block QPs; over the count it is their mean.
    pub block_qp_sum: u64,
    pub block_qp_count: u32,
    pub positive_qp_delta_blocks: u32,
    pub negative_qp_delta_blocks: u32,
    pub unchanged_qp_blocks: u32,
    pub block_wire: SrsV2BlockAqWireStats,
}

impl Default for SrsV2AqEncodeStats {
    fn default() -> (r: Self)
        ensures
            r == (SrsV2AqEncodeStats {
                aq_enabled: false,
                base_qp: 0,
                effective_qp: 0,
                min_block_qp_used: 0,
                max_block_qp_used: 0,
                block_qp_sum: 0,
                block_qp_count: 0,
                positive_qp_delta_blocks: 0,
                negative_qp_delta_blocks: 0,
                unchanged_qp_blocks: 0,
                block_wire: SrsV2BlockAqWireStats { block_aq_enabled: false },
            }),
    {
        SrsV2AqEncodeStats {
            aq_enabled: false,
            base_qp: 0,
            effective_qp: 0,
            min_block_qp_used: 0,
            max_block_qp_used: 0,
            block_qp_sum: 0,
            block_qp_count: 0,
            positive_qp_delta_blocks: 0,
            negative_qp_delta_blocks: 0,
            unchanged_qp_blocks: 0,
            block_wire: SrsV2BlockAqWireStats { block_aq_enabled: false },
        }
    }
}

#[derive(Debug, Clone, Copy, PartialEq, Eq, Structural)]
pub enum SrsV2AqError {
    /// The smallest delta is above the largest.
    InvalidDeltaRange { min_d: i8, max_d: i8 },
}

pub fn validate_adaptive_quant_settings(settings: &SrsV2EncodeSettings) -> (r: Result<
    (),
    SrsV2AqError,
>)
    ensures
        r == if settings.min_block_qp_delta > settings.max_block_qp_delta {
            Err::<(), SrsV2AqError>(
                SrsV2AqError::InvalidDeltaRange {
                    min_d: settings.min_block_qp_delta,
                    max_d: settings.max_block_qp_delta,
                },
            )
        } else {
            Ok::<(), SrsV2AqError>(())
        },
{
    if settings.min_block_qp_delta > settings.max_block_qp_delta {
        return Err(
            SrsV2AqError::InvalidDeltaRange {
                min_d: settings.min_block_qp_delta,
                max_d: settings.max_block_qp_delta,
            },
        );
    }
    Ok(())
}

/// The score of a macroblock under a mode.
pub open spec fn activity_score(
    mode: SrsV2AdaptiveQuantizationMode,
    act: BlockActivity,
) -> int {
    match mode {
        SrsV2AdaptiveQuantizationMode::Off => 0,
        SrsV2AdaptiveQuantizationMode::Activity => least(
            act.variance_sum as int / 256 + act.edge_sum as int / 16,
            u64::MAX as int,
        ),
        SrsV2AdaptiveQuantizationMode::EdgeAware => least(
            least(act.edge_sum * 2, u64::MAX as int) + act.variance_sum as int / 512,
            u64::MAX as int,
        ),
        SrsV2AdaptiveQuantizationMode::ScreenAware => screen_score(act),
    }
}

fn score_for_mode(mode: SrsV2AdaptiveQuantizationMode, act: &BlockActivity) -> (r: u64)
    ensures
        r == activity_score(mode, *act),
{
    match mode {
        SrsV2AdaptiveQuantizationMode::Off => 0,
        SrsV2AdaptiveQuantizationMode::Activity => (act.variance_sum / 256).saturating_add(
            act.edge_sum / 16,
        ),
        SrsV2AdaptiveQuantizationMode::EdgeAware => sat_mul_u64(act.edge_sum, 2).saturating_add(
            act.variance_sum / 512,
        ),
        SrsV2AdaptiveQuantizationMode::ScreenAware => screen_activity_score(act),
    }
}

/// The delta of a macroblock: its score against the median, scaled by the strength, positive for
/// busier macroblocks, brought into the allowed range.
pub open spec fn score_delta(score: int, strength: int, lo: int, hi: int, med: int) -> int {
    clip(tdiv((score - med) * greatest(strength, 1), greatest(med, 1) * 4 + 1), lo, hi)
}

fn qp_delta_from_score(score: u64, strength: u8, min_d: i8, max_d: i8, median_score: u64) -> (d: i8)
    requires
        min_d <= max_d,
        score <= 1000000000,
        median_score <= 1000000000,
    ensures
        d == score_delta(
            score as int,
            strength as int,
            min_d as int,
            max_d as int,
            median_score as int,
        ),
{
    let st: i64 = if strength < 1 { 1 } else { strength as i64 };
    let diff: i64 = score as i64 - median_score as i64;
    let denom: i64 = if median_score < 1 { 1 } else { median_score as i64 };
    assert(-1000000000000 <= diff * st <= 1000000000000) by (nonlinear_arith)
        requires
            -1000000000 <= diff <= 1000000000,
            1 <= st <= 255,
    ;
    let raw: i64 = (diff * st) / (denom * 4 + 1);
    if raw < min_d as i64 {
        min_d
    } else if raw > max_d as i64 {
        max_d
    } else {
        raw as i8
    }
}

/// Macroblock columns and rows that lie wholly in a plane.
pub open spec fn whole_mb_cols(p: VideoPlane<u8>) -> int {
    p.width as int / 16
}

pub open spec fn whole_mb_rows(p: VideoPlane<u8>) -> int {
    p.height as int / 16
}

/// The scores of the macroblocks of a plane in raster order.
pub open spec fn mb_scores(p: VideoPlane<u8>, mode: SrsV2AdaptiveQuantizationMode) -> Seq<u64> {
    Seq::new(
        (whole_mb_cols(p) * whole_mb_rows(p)) as nat,
        |k: int|
            activity_score(
                mode,
                mb_activity(p, k % whole_mb_cols(p), k / whole_mb_cols(p)),
            ) as u64,
    )
}

/// The QP that macroblock `k` would get.
pub open spec fn mb_qp(base: int, scores: Seq<u64>, s: SrsV2EncodeSettings, k: int) -> int {
    s.qp_in_range(
        clip(
            base + score_delta(
                scores[k] as int,
                s.aq_strength as int,
                s.min_block_qp_delta as int,
                s.max_block_qp_delta as int,
                median(scores),
            ),
            0,
            255,
        ),
    )
}

/// Counts and extremes over the QPs of the first `n` macroblocks.
pub struct QpTally {
    pub sum: int,
    pub least: int,
    pub most: int,
    pub above: int,
    pub below: int,
    pub equal: int,
}

pub open spec fn qp_tally(base: int, scores: Seq<u64>, s: SrsV2EncodeSettings, n: int) -> QpTally
    decreases n,
{
    if n <= 0 {
        QpTally { sum: 0, least: 255, most: 0, above: 0, below: 0, equal: 0 }
    } else {
        let t = qp_tally(base, scores, s, n - 1);
        let q = mb_qp(base, scores, s, n - 1);
        QpTally {
            sum: t.sum + q,
            least: least(t.least, q),
            most: greatest(t.most, q),
            above: t.above + (if q > base { 1int } else { 0 }),
            below: t.below + (if q < base { 1int } else { 0 }),
            equal: t.equal + (if q == base { 1int } else { 0 }),
        }
    }
}

/// `sum / n` rounded to the nearest integer, halves away from zero.
pub open spec fn rounded_mean(sum: int, n: int) -> int {
    (2 * sum + n) / (2 * n)
}

/// The effective QP of a frame and what was counted on the way.
pub open spec fn frame_aq(base_qp: int, p: VideoPlane<u8>, s: SrsV2EncodeSettings) -> (
    int,
    SrsV2AqEncodeStats,
) {
    let base = s.qp_in_range(base_qp);
    let n = whole_mb_cols(p) * whole_mb_rows(p);
    let flat = SrsV2AqEncodeStats {
        aq_enabled: s.adaptive_quantization_mode != SrsV2AdaptiveQuantizationMode::Off,
        base_qp: base as u8,
        effective_qp: base as u8,
        min_block_qp_used: base as u8,
        max_block_qp_used: base as u8,
        block_qp_sum: base as u64,
        block_qp_count: 1,
        positive_qp_delta_blocks: 0,
        negative_qp_delta_blocks: 0,
        unchanged_qp_blocks: if s.adaptive_quantization_mode
            == SrsV2AdaptiveQuantizationMode::Off {
            0
        } else {
            1
        },
        block_wire: SrsV2BlockAqWireStats { block_aq_enabled: false },
    };
    if s.adaptive_quantization_mode == SrsV2AdaptiveQuantizationMode::Off || n == 0 {
        (base, flat)
    } else {
        let scores = mb_scores(p, s.adaptive_quantization_mode);
        let t = qp_tally(base, scores, s, n);
        let eff = s.qp_in_range(rounded_mean(t.sum, n));
        (
            eff,
            SrsV2AqEncodeStats {
                aq_enabled: true,
                base_qp: base as u8,
                effective_qp: eff as u8,
                min_block_qp_used: t.least as u8,
                max_block_qp_used: t.most as u8,
                block_qp_sum: t.sum as u64,
                block_qp_count: n as u32,
                positive_qp_delta_blocks: t.above as u32,
                negative_qp_delta_blocks: t.below as u32,
                unchanged_qp_blocks: t.equal as u32,
                block_wire: SrsV2BlockAqWireStats { block_aq_enabled: false },
            },
        )
    }
}

/// The effective QP of a frame and statistics of the per-block suggestions behind it.
pub fn resolve_frame_adaptive_qp(base_qp: u8, yuv: &YuvFrame, settings: &SrsV2EncodeSettings) -> (r:
    Result<(u8, SrsV2AqEncodeStats), SrsV2Error>)
    requires
        yuv.y.valid(),
        settings.min_qp <= settings.max_qp,
    ensures
        settings.min_block_qp_delta > settings.max_block_qp_delta ==> r == Err::<
            (u8, SrsV2AqEncodeStats),
            SrsV2Error,
        >(SrsV2Error::Syntax("invalid aq qp delta range")),
        settings.min_block_qp_delta <= settings.max_block_qp_delta ==> r is Ok && r->Ok_0.0
            == frame_aq(base_qp as int, yuv.y, *settings).0 && r->Ok_0.1 == frame_aq(
            base_qp as int,
            yuv.y,
            *settings,
        ).1 && settings.min_qp <= r->Ok_0.0 <= settings.max_qp,
{
    match validate_adaptive_quant_settings(settings) {
        Ok(_) => {},
        Err(_) => {
            return Err(SrsV2Error::Syntax("invalid aq qp delta range"));
        },
    }
    let base: u8 = settings.clamp_qp(base_qp);
    let off = settings.adaptive_quantization_mode == SrsV2AdaptiveQuantizationMode::Off;
    let plane = &yuv.y;
    let mb_cols: u32 = plane.width / 16;
    let mb_rows: u32 = plane.height / 16;
    assert(mb_cols * mb_rows <= 512 * 512) by (nonlinear_arith)
        requires
            mb_cols <= 512,
            mb_rows <= 512,
    ;
    let n: u32 = mb_cols * mb_rows;
    if off || n == 0 {
        return Ok(
            (
                base,
                SrsV2AqEncodeStats {
                    aq_enabled: !off,
                    base_qp: base,
                    effective_qp: base,
                    min_block_qp_used: base,
                    max_block_qp_used: base,
                    block_qp_sum: base as u64,
                    block_qp_count: 1,
                    positive_qp_delta_blocks: 0,
                    negative_qp_delta_blocks: 0,
                    unchanged_qp_blocks: if off {
                        0
                    } else {
                        1
                    },
                    block_wire: SrsV2BlockAqWireStats { block_aq_enabled: false },
                },
            ),
        );
    }
    let ghost mode = settings.adaptive_quantization_mode;
    let mut scores: Vec<u64> = Vec::with_capacity(n as usize);
    let mut k: u32 = 0;
    while k < n
        invariant
            k <= n,
            n == mb_cols * mb_rows,
            plane.valid(),
            plane == &yuv.y,
            mb_cols == whole_mb_cols(*plane),
            mb_rows == whole_mb_rows(*plane),
            mode == settings.adaptive_quantization_mode,
            scores@.len() == k,
            forall|j: int|
                0 <= j < k ==> #[trigger] scores@[j] == mb_scores(*plane, mode)[j] && scores@[j]
                    <= 1000000000,
        decreases n - k,
    {
        assert(mb_cols > 0) by (nonlinear_arith)
            requires
                0 < mb_cols * mb_rows,
        ;
        proof {
            lemma_packed_position(k as int, mb_cols as int, mb_rows as int);
        }
        let act = mb_activity_y16(plane, k % mb_cols, k / mb_cols);
        scores.push(score_for_mode(settings.adaptive_quantization_mode, &act));
        k += 1;
    }
    assert(scores@ =~= mb_scores(*plane, mode));
    let med: u64 = median_of(scores.as_slice(), 1000000000);
    let mut sum: u64 = 0;
    let mut lowest: u8 = 255;
    let mut highest: u8 = 0;
    let mut pos: u32 = 0;
    let mut neg: u32 = 0;
    let mut zero: u32 = 0;
    let mut i: u32 = 0;
    while i < n
        invariant
            i <= n <= 512 * 512,
            scores@.len() == n,
            forall|j: int| 0 <= j < n ==> #[trigger] scores@[j] <= 1000000000,
            med == median(scores@),
            med <= 1000000000,
            settings.min_qp <= settings.max_qp,
            settings.min_block_qp_delta <= settings.max_block_qp_delta,
            ({
                let t = qp_tally(base as int, scores@, *settings, i as int);
                &&& t.sum == sum
                &&& t.least == lowest
                &&& t.most == highest
                &&& t.above == pos
                &&& t.below == neg
                &&& t.equal == zero
            }),
            sum <= 255 * i,
            pos <= i,
            neg <= i,
            zero <= i,
        decreases n - i,
    {
        let d: i8 = qp_delta_from_score(
            scores[i as usize],
            settings.aq_strength,
            settings.min_block_qp_delta,
            settings.max_block_qp_delta,
            med,
        );
        let moved: i16 = base as i16 + d as i16;
        let held: u8 = if moved < 0 {
            0
        } else if moved > 255 {
            255
        } else {
            moved as u8
        };
        let q: u8 = settings.clamp_qp(held);
        assert(q == mb_qp(base as int, scores@, *settings, i as int));
        sum = sum + q as u64;
        if q < lowest {
            lowest = q;
        }
        if q > highest {
            highest = q;
        }
        if q > base {
            pos += 1;
        } else if q < base {
            neg += 1;
        } else {
            zero += 1;
        }
        i += 1;
    }
    let mean: u64 = (2 * sum + n as u64) / (2 * n as u64);
    assert(mean <= 255) by (nonlinear_arith)
        requires
            mean == (2 * sum + n) / (2 * n as int),
            sum <= 255 * n,
            n > 0,
    ;
    let eff: u8 = settings.clamp_qp(mean as u8);
    Ok(
        (
            eff,
            SrsV2AqEncodeStats {
                aq_enabled: true,
                base_qp: base,
                effective_qp: eff,
                min_block_qp_used: lowest,
                max_block_qp_used: highest,
                block_qp_sum: sum,
                block_qp_count: n,
                positive_qp_delta_blocks: pos,
                negative_qp_delta_blocks: neg,
                unchanged_qp_blocks: zero,
                block_wire: SrsV2BlockAqWireStats { block_aq_enabled: false },
            },
        ),
    )
}

} // verus!
