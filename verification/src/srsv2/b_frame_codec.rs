//! Bidirectional pictures.
//!
//! Revisions 10 and 11 of the frame payload blend the whole picture in one way, with whole-pel and
//! half-pel vectors; 13 and 14 choose a blend per macroblock, 14 also weights; 16 and 18 carry the
//! vectors ahead of the macroblocks, as varints and entropy-coded.
use vstd::prelude::*;

use super::error::SrsV2Error;
use super::p_frame_codec::whole_mv_ok;
use super::subpel::{qpel_refusal, split_qpel, validate_mv_qpel_halfgrid};

verus! {

/// One blend for the picture, whole-pel vectors.
pub const FRAME_PAYLOAD_MAGIC_B: [u8; 4] = [70, 82, 50, 10];

/// One blend for the picture, half-pel vectors.
pub const FRAME_PAYLOAD_MAGIC_B_SUBPEL: [u8; 4] = [70, 82, 50, 11];

/// A blend per macroblock, whole-pel vectors.
pub const FRAME_PAYLOAD_MAGIC_B_MB_BLEND: [u8; 4] = [70, 82, 50, 13];

/// A blend per macroblock, half-pel vectors, optional weights.
pub const FRAME_PAYLOAD_MAGIC_B_MB_BLEND_QP: [u8; 4] = [70, 82, 50, 14];

/// Compact vector grids.
pub const FRAME_PAYLOAD_MAGIC_B_COMPACT: [u8; 4] = [70, 82, 50, 16];

/// Entropy-coded vector grids.
pub const FRAME_PAYLOAD_MAGIC_B_INTER_ENTROPY: [u8; 4] = [70, 82, 50, 18];

/// Weight pairs that the encoder tries; each sums to 256.
pub const B_WEIGHTED_PRED_CANDIDATES: [(u8, u8); 5] = [
    (64, 192),
    (95, 161),
    (128, 128),
    (161, 95),
    (192, 64),
];

/// How the two references of a bidirectional picture are combined.
#[derive(Debug, Clone, Copy, PartialEq, Eq, Structural)]
pub enum BBlendModeWire {
    ForwardOnly,
    BackwardOnly,
    Average,
    /// Weights on the wire that sum to 256.
    Weighted,
}

/// The wire code of a blend.
pub open spec fn blend_code(b: BBlendModeWire) -> int {
    match b {
        BBlendModeWire::ForwardOnly => 0,
        BBlendModeWire::BackwardOnly => 1,
        BBlendModeWire::Average => 2,
        BBlendModeWire::Weighted => 3,
    }
}

/// The blend that a picture-level byte stands for; weights are not carried there.
pub open spec fn picture_blend(v: int) -> Result<BBlendModeWire, SrsV2Error> {
    if v == 0 {
        Ok(BBlendModeWire::ForwardOnly)
    } else if v == 1 {
        Ok(BBlendModeWire::BackwardOnly)
    } else if v == 2 {
        Ok(BBlendModeWire::Average)
    } else if v == 3 {
        Err(
            SrsV2Error::Unsupported(
                "B-frame weighted blend is not implemented for legacy FR2 rev10/11",
            ),
        )
    } else {
        Err(SrsV2Error::Syntax("unknown B blend mode"))
    }
}

/// The blend that a macroblock byte stands for; weights only where they are allowed.
pub open spec fn mb_blend(weighted: bool, v: int) -> Result<BBlendModeWire, SrsV2Error> {
    if v == 0 {
        Ok(BBlendModeWire::ForwardOnly)
    } else if v == 1 {
        Ok(BBlendModeWire::BackwardOnly)
    } else if v == 2 {
        Ok(BBlendModeWire::Average)
    } else if v == 3 {
        if weighted {
            Ok(BBlendModeWire::Weighted)
        } else {
            Err(SrsV2Error::Unsupported("B-frame weighted blend requires FR2 rev14 wire"))
        }
    } else {
        Err(SrsV2Error::Syntax("unknown B blend mode"))
    }
}

impl BBlendModeWire {
    /// Reads a picture-level blend byte.
    pub fn from_u8(v: u8) -> (r: Result<Self, SrsV2Error>)
        ensures
            r == picture_blend(v as int),
    {
        match v {
            0 => Ok(BBlendModeWire::ForwardOnly),
            1 => Ok(BBlendModeWire::BackwardOnly),
            2 => Ok(BBlendModeWire::Average),
            3 => Err(
                SrsV2Error::Unsupported(
                    "B-frame weighted blend is not implemented for legacy FR2 rev10/11",
                ),
            ),
            _ => Err(SrsV2Error::Syntax("unknown B blend mode")),
        }
    }

    /// Reads a macroblock blend byte.
    pub fn from_u8_per_mb(fr2_rev14: bool, v: u8) -> (r: Result<Self, SrsV2Error>)
        ensures
            r == mb_blend(fr2_rev14, v as int),
    {
        match v {
            0 => Ok(BBlendModeWire::ForwardOnly),
            1 => Ok(BBlendModeWire::BackwardOnly),
            2 => Ok(BBlendModeWire::Average),
            3 => if fr2_rev14 {
                Ok(BBlendModeWire::Weighted)
            } else {
                Err(SrsV2Error::Unsupported("B-frame weighted blend requires FR2 rev14 wire"))
            },
            _ => Err(SrsV2Error::Syntax("unknown B blend mode")),
        }
    }

    /// The wire code of a blend.
    pub fn to_u8(self) -> (v: u8)
        ensures
            v == blend_code(self),
    {
        match self {
            BBlendModeWire::ForwardOnly => 0,
            BBlendModeWire::BackwardOnly => 1,
            BBlendModeWire::Average => 2,
            BBlendModeWire::Weighted => 3,
        }
    }
}

/// Accepts weights that sum to 256.
pub fn validate_b_prediction_weights(weight_a: u8, weight_b: u8) -> (r: Result<(), SrsV2Error>)
    ensures
        r == if weight_a + weight_b == 256 {
            Ok::<(), SrsV2Error>(())
        } else {
            Err::<(), SrsV2Error>(
                SrsV2Error::Syntax("B weighted prediction weights must sum to 256"),
            )
        },
{
    let sum: u16 = weight_a as u16 + weight_b as u16;
    if sum != 256 {
        return Err(SrsV2Error::Syntax("B weighted prediction weights must sum to 256"));
    }
    Ok(())
}

/// The weighted mean of two predictions, rounded to nearest.
pub fn blend_weighted_pixels(pred_a: i32, pred_b: i32, weight_a: u8, weight_b: u8) -> (r: i32)
    requires
        i32::MIN <= pred_a * weight_a <= i32::MAX,
        i32::MIN <= pred_b * weight_b <= i32::MAX,
        i32::MIN <= pred_a * weight_a + pred_b * weight_b <= i32::MAX - 128,
    ensures
        r == (pred_a * weight_a + pred_b * weight_b + 128) / 256,
{
    let sum: i64 = pred_a as i64 * weight_a as i64 + pred_b as i64 * weight_b as i64 + 128;
    if sum >= 0 {
        (sum / 256) as i32
    } else {
        (-((255 - sum) / 256)) as i32
    }
}

/// Why a vector of a compact grid is refused, if it is.
pub open spec fn compact_check(qpel: bool) -> spec_fn(i32, i32) -> Result<(), SrsV2Error> {
    |mx: i32, my: i32|
        if qpel {
            match qpel_refusal(mx as int, my as int) {
                Some(e) => Err::<(), SrsV2Error>(e),
                None => Ok::<(), SrsV2Error>(()),
            }
        } else if mx % 4 != 0 || my % 4 != 0 {
            Err::<(), SrsV2Error>(SrsV2Error::Syntax("B MV not on integer pel grid"))
        } else if !whole_mv_ok(mx as int / 4, my as int / 4) {
            Err::<(), SrsV2Error>(SrsV2Error::CorruptedMotionVector)
        } else {
            Ok::<(), SrsV2Error>(())
        }
}

/// Accepts the vectors that a compact grid may hold.
pub fn validate_b_compact_mv_unit(use_qpel: bool, mx: i32, my: i32) -> (r: Result<(), SrsV2Error>)
    ensures
        r == compact_check(use_qpel)(mx, my),
{
    if use_qpel {
        validate_mv_qpel_halfgrid(mx, my)
    } else {
        let (wx, fx) = split_qpel(mx);
        let (wy, fy) = split_qpel(my);
        if fx != 0 || fy != 0 {
            Err(SrsV2Error::Syntax("B MV not on integer pel grid"))
        } else if wx > 256 || wx < -256 || wy > 256 || wy < -256 {
            Err(SrsV2Error::CorruptedMotionVector)
        } else {
            Ok(())
        }
    }
}

/// Every blend is read back from its code; the weighted one only where weights are sent.
pub proof fn blends_are_read_from_their_codes(b: BBlendModeWire, v: int)
    ensures
        mb_blend(true, blend_code(b)) == Ok::<BBlendModeWire, SrsV2Error>(b),
        !(b is Weighted) ==> mb_blend(false, blend_code(b)) == Ok::<BBlendModeWire, SrsV2Error>(b),
        !(b is Weighted) ==> picture_blend(blend_code(b)) == Ok::<BBlendModeWire, SrsV2Error>(b),
        mb_blend(false, blend_code(BBlendModeWire::Weighted)) is Err,
        picture_blend(blend_code(BBlendModeWire::Weighted)) is Err,
        !(0 <= v <= 3) ==> mb_blend(true, v) is Err && picture_blend(v) is Err,
        blend_code(BBlendModeWire::ForwardOnly) < blend_code(BBlendModeWire::BackwardOnly),
        blend_code(BBlendModeWire::BackwardOnly) < blend_code(BBlendModeWire::Average),
        blend_code(BBlendModeWire::Average) < blend_code(BBlendModeWire::Weighted),
{
}

} // verus!
