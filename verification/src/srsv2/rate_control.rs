//! Encoder settings and QP selection.
use vstd::prelude::*;

use crate::arith::{greatest, least, sat_mul_u64};
use crate::bytes::clip;
use super::deblock::SrsV2LoopFilterMode;
use super::limits::{MAX_MOTION_SEARCH_RADIUS, MAX_SUBPEL_REFINEMENT_RADIUS};

verus! {

/// How 8x8 residual blocks are coded.
#[derive(Debug, Clone, Copy, PartialEq, Eq, Structural)]
pub enum ResidualEntropy {
    /// The smaller on-wire representation per block.
    Auto,
    /// Tuple stream only.
    Explicit,
    /// Entropy coding wherever the coefficients fit the static alphabet.
    Rans,
}

impl Default for ResidualEntropy {
    fn default() -> (r: Self)
        ensures
            r == ResidualEntropy::Auto,
    {
        ResidualEntropy::Auto
    }
}

/// Counters of coded residual blocks.
#[derive(Debug, Clone, Copy)]
pub struct ResidualEncodeStats {
    pub intra_explicit_blocks: u64,
    pub intra_rans_blocks: u64,
    pub p_explicit_chunks: u64,
    pub p_rans_chunks: u64,
    pub residual_context_enabled: bool,
}

impl Default for ResidualEncodeStats {
    fn default() -> (r: Self)
        ensures
            r == (ResidualEncodeStats {
                intra_explicit_blocks: 0,
                intra_rans_blocks: 0,
                p_explicit_chunks: 0,
                p_rans_chunks: 0,
                residual_context_enabled: false,
            }),
    {
        ResidualEncodeStats {
            intra_explicit_blocks: 0,
            intra_rans_blocks: 0,
            p_explicit_chunks: 0,
            p_rans_chunks: 0,
            residual_context_enabled: false,
        }
    }
}

/// Rate-control strategy.
#[derive(Debug, Clone, Copy, PartialEq, Eq, Structural)]
pub enum SrsV2RateControlMode {
    /// The quantizer of the settings for every frame.
    FixedQp,
    /// The quality of the settings as the QP index.
    ConstantQuality,
    /// QP adapted toward a target bitrate.
    TargetBitrate,
}

impl Default for SrsV2RateControlMode {
    fn default() -> (r: Self)
        ensures
            r == SrsV2RateControlMode::FixedQp,
    {
        SrsV2RateControlMode::FixedQp
    }
}

#[derive(Debug, Clone, Copy, PartialEq, Eq, Structural)]
pub enum SrsV2RateControlError {
    InvalidQpRange { min_qp: u8, max_qp: u8 },
    ZeroTargetBitrate,
    QualityRequiredForConstantQuality,
    TargetBitrateRequiredForTargetBitrateMode,
    InvalidFps { fps_num: u32, fps_den: u32 },
}

/// Adaptive quantization mode (frame-level effective QP).
#[derive(Debug, Clone, Copy, PartialEq, Eq, Structural)]
pub enum SrsV2AdaptiveQuantizationMode {
    Off,
    Activity,
    EdgeAware,
    ScreenAware,
}

impl Default for SrsV2AdaptiveQuantizationMode {
    fn default() -> (r: Self)
        ensures
            r == SrsV2AdaptiveQuantizationMode::Off,
    {
        SrsV2AdaptiveQuantizationMode::Off
    }
}

/// Per-8x8 QP deltas on the wire.
#[derive(Debug, Clone, Copy, PartialEq, Eq, Structural)]
pub enum SrsV2BlockAqMode {
    Off,
    /// The same bitstream as `Off`.
    FrameOnly,
    /// Block `qp_delta` syntax.
    BlockDelta,
}

impl Default for SrsV2BlockAqMode {
    fn default() -> (r: Self)
        ensures
            r == SrsV2BlockAqMode::Off,
    {
        SrsV2BlockAqMode::Off
    }
}

/// Sub-pixel motion refinement.
#[derive(Debug, Clone, Copy, PartialEq, Eq, Structural)]
pub enum SrsV2SubpelMode {
    Off,
    /// Half-pel on the quarter-pel grid.
    HalfPel,
}

impl Default for SrsV2SubpelMode {
    fn default() -> (r: Self)
        ensures
            r == SrsV2SubpelMode::Off,
    {
        SrsV2SubpelMode::Off
    }
}

/// Integer-pel motion search strategy.
#[derive(Debug, Clone, Copy, PartialEq, Eq, Structural)]
pub enum SrsV2MotionSearchMode {
    /// Full search within the radius.
    ExhaustiveSmall,
    /// The zero vector, without a search.
    NoSearch,
    Diamond,
    Hex,
    Hierarchical,
}

impl Default for SrsV2MotionSearchMode {
    fn default() -> (r: Self)
        ensures
            r == SrsV2MotionSearchMode::ExhaustiveSmall,
    {
        SrsV2MotionSearchMode::ExhaustiveSmall
    }
}

/// Motion and blend search of bidirectional frames.
#[derive(Debug, Clone, Copy, PartialEq, Eq, Structural)]
pub enum SrsV2BMotionSearchMode {
    /// Zero motion vectors.
    Off,
    /// The same as `Off`.
    ReuseP,
    /// Independent integer search on both references.
    IndependentForwardBackward,
    /// The same, followed by half-pel refinement.
    IndependentForwardBackwardHalfPel,
}

impl Default for SrsV2BMotionSearchMode {
    fn default() -> (r: Self)
        ensures
            r == SrsV2BMotionSearchMode::Off,
    {
        SrsV2BMotionSearchMode::Off
    }
}

/// How inter frames write their motion vectors.
#[derive(Debug, Clone, Copy, PartialEq, Eq, Structural)]
pub enum SrsV2InterSyntaxMode {
    /// Fixed-width tuples in every macroblock.
    RawLegacy,
    /// Median-predicted varint deltas.
    CompactV1,
    /// The compact bytes behind an entropy coder.
    EntropyV1,
}

impl Default for SrsV2InterSyntaxMode {
    fn default() -> (r: Self)
        ensures
            r == SrsV2InterSyntaxMode::RawLegacy,
    {
        SrsV2InterSyntaxMode::RawLegacy
    }
}

/// Rate-distortion decisions of the encoder.
#[derive(Debug, Clone, Copy, PartialEq, Eq, Structural)]
pub enum SrsV2RdoMode {
    Off,
    Fast,
}

impl Default for SrsV2RdoMode {
    fn default() -> (r: Self)
        ensures
            r == SrsV2RdoMode::Off,
    {
        SrsV2RdoMode::Off
    }
}

/// Context modelling of residual symbols.
#[derive(Debug, Clone, Copy, PartialEq, Eq, Structural)]
pub enum SrsV2ResidualContextMode {
    Off,
    ContextV1,
}

impl Default for SrsV2ResidualContextMode {
    fn default() -> (r: Self)
        ensures
            r == SrsV2ResidualContextMode::Off,
    {
        SrsV2ResidualContextMode::Off
    }
}

/// Layout of intra coefficient bodies.
#[derive(Debug, Clone, Copy, PartialEq, Eq, Structural)]
pub enum SrsV2CoeffLayoutMode {
    Legacy,
    CompactV1,
}

impl Default for SrsV2CoeffLayoutMode {
    fn default() -> (r: Self)
        ensures
            r == SrsV2CoeffLayoutMode::Legacy,
    {
        SrsV2CoeffLayoutMode::Legacy
    }
}

/// How a macroblock of a forward picture is divided.
#[derive(Debug, Clone, Copy, PartialEq, Eq, Structural)]
pub enum SrsV2InterPartitionMode {
    /// One unit.
    Fixed16x16,
    /// Four units.
    Split8x8,
    /// Two wide units.
    Rect16x8,
    /// Two tall units.
    Rect8x16,
    /// The cheapest of these, macroblock by macroblock.
    AutoFast,
}

/// What the choice of a partition counts.
#[derive(Debug, Clone, Copy, PartialEq, Eq, Structural)]
pub enum SrsV2PartitionCostModel {
    SadOnly,
    HeaderAware,
    RdoFast,
}

/// How a partition map is written.
#[derive(Debug, Clone, Copy, PartialEq, Eq, Structural)]
pub enum SrsV2PartitionMapEncoding {
    /// A byte per macroblock.
    Raw,
    /// Runs, wherever they are shorter.
    RleRuns,
}

/// The transform of a residual sub-block.
#[derive(Debug, Clone, Copy, PartialEq, Eq, Structural)]
pub enum SrsV2TransformSizeMode {
    /// The small one for strong differences.
    Auto,
    Force4x4,
    Force8x8,
}

/// What an encoder run chooses about partitions.
#[derive(Debug, Clone, Copy)]
pub struct SrsV2PartitionSettings {
    pub inter_partition_mode: SrsV2InterPartitionMode,
    pub partition_cost_model: SrsV2PartitionCostModel,
    pub partition_map_encoding: SrsV2PartitionMapEncoding,
    pub transform_size_mode: SrsV2TransformSizeMode,
    /// Scale of the rate factor; 256 stands for 1.
    pub partition_rdo_lambda_scale: u16,
    pub partition_split_penalty: u16,
    pub partition_mv_penalty: u16,
    pub partition_header_penalty: u16,
    pub partition_quality_bias: u16,
}

/// Everything that an encoder run can choose.
#[derive(Debug, Clone, Copy)]
pub struct SrsV2EncodeSettings {
    pub quantizer: u8,
    pub rate_control_mode: SrsV2RateControlMode,
    /// QP index of constant-quality mode; a lower value is a higher quality.
    pub quality: Option<u8>,
    pub target_bitrate_kbps: Option<u32>,
    pub max_bitrate_kbps: Option<u32>,
    pub min_qp: u8,
    pub max_qp: u8,
    /// Largest QP change of one frame in target-bitrate mode.
    pub qp_step_limit_per_frame: u8,
    /// An intra frame every so many frames; frame 0 is always intra.
    pub keyframe_interval: u32,
    /// Half-side of the integer-pel search window.
    pub motion_search_radius: i16,
    pub tune_quality_vs_speed: u8,
    pub residual_entropy: ResidualEntropy,
    pub adaptive_quantization_mode: SrsV2AdaptiveQuantizationMode,
    pub aq_strength: u8,
    pub min_block_qp_delta: i8,
    pub max_block_qp_delta: i8,
    pub motion_search_mode: SrsV2MotionSearchMode,
    pub b_motion_search_mode: SrsV2BMotionSearchMode,
    pub b_weighted_prediction: bool,
    /// When not 0, a motion search may stop once the best SAD is at most this.
    pub early_exit_sad_threshold: u32,
    pub enable_skip_blocks: bool,
    pub subpel_mode: SrsV2SubpelMode,
    /// 0 skips the eight half-pel probes, 1 runs one ring.
    pub subpel_refinement_radius: u8,
    pub block_aq_mode: SrsV2BlockAqMode,
    pub loop_filter_mode: SrsV2LoopFilterMode,
    /// 0 selects the default strength.
    pub deblock_strength: u8,
    pub inter_syntax_mode: SrsV2InterSyntaxMode,
    pub rdo_mode: SrsV2RdoMode,
    pub residual_context_mode: SrsV2ResidualContextMode,
    pub coeff_layout_mode: SrsV2CoeffLayoutMode,
}

/// The settings that an encoder starts from.
pub open spec fn default_settings() -> SrsV2EncodeSettings {
    SrsV2EncodeSettings {
        quantizer: 24,
        rate_control_mode: SrsV2RateControlMode::FixedQp,
        quality: None,
        target_bitrate_kbps: None,
        max_bitrate_kbps: None,
        min_qp: 4,
        max_qp: 51,
        qp_step_limit_per_frame: 2,
        keyframe_interval: 60,
        motion_search_radius: 16,
        tune_quality_vs_speed: 50,
        residual_entropy: ResidualEntropy::Auto,
        adaptive_quantization_mode: SrsV2AdaptiveQuantizationMode::Off,
        aq_strength: 4,
        min_block_qp_delta: -6i8,
        max_block_qp_delta: 6,
        motion_search_mode: SrsV2MotionSearchMode::ExhaustiveSmall,
        b_motion_search_mode: SrsV2BMotionSearchMode::Off,
        b_weighted_prediction: false,
        early_exit_sad_threshold: 0,
        enable_skip_blocks: true,
        subpel_mode: SrsV2SubpelMode::Off,
        subpel_refinement_radius: 1,
        block_aq_mode: SrsV2BlockAqMode::Off,
        loop_filter_mode: SrsV2LoopFilterMode::Off,
        deblock_strength: 0,
        inter_syntax_mode: SrsV2InterSyntaxMode::RawLegacy,
        rdo_mode: SrsV2RdoMode::Off,
        residual_context_mode: SrsV2ResidualContextMode::Off,
        coeff_layout_mode: SrsV2CoeffLayoutMode::Legacy,
    }
}

impl Default for SrsV2EncodeSettings {
    fn default() -> (r: Self)
        ensures
            r == default_settings(),
    {
        SrsV2EncodeSettings {
            quantizer: 24,
            rate_control_mode: SrsV2RateControlMode::FixedQp,
            quality: None,
            target_bitrate_kbps: None,
            max_bitrate_kbps: None,
            min_qp: 4,
            max_qp: 51,
            qp_step_limit_per_frame: 2,
            keyframe_interval: 60,
            motion_search_radius: 16,
            tune_quality_vs_speed: 50,
            residual_entropy: ResidualEntropy::Auto,
            adaptive_quantization_mode: SrsV2AdaptiveQuantizationMode::Off,
            aq_strength: 4,
            min_block_qp_delta: -6,
            max_block_qp_delta: 6,
            motion_search_mode: SrsV2MotionSearchMode::ExhaustiveSmall,
            b_motion_search_mode: SrsV2BMotionSearchMode::Off,
            b_weighted_prediction: false,
            early_exit_sad_threshold: 0,
            enable_skip_blocks: true,
            subpel_mode: SrsV2SubpelMode::Off,
            subpel_refinement_radius: 1,
            block_aq_mode: SrsV2BlockAqMode::Off,
            loop_filter_mode: SrsV2LoopFilterMode::Off,
            deblock_strength: 0,
            inter_syntax_mode: SrsV2InterSyntaxMode::RawLegacy,
            rdo_mode: SrsV2RdoMode::Off,
            residual_context_mode: SrsV2ResidualContextMode::Off,
            coeff_layout_mode: SrsV2CoeffLayoutMode::Legacy,
        }
    }
}

/// Why rate-control settings are refused, if they are.
pub open spec fn rate_control_refusal(s: SrsV2EncodeSettings) -> Option<SrsV2RateControlError> {
    if s.min_qp > s.max_qp {
        Some(SrsV2RateControlError::InvalidQpRange { min_qp: s.min_qp, max_qp: s.max_qp })
    } else if s.rate_control_mode == SrsV2RateControlMode::TargetBitrate
        && s.target_bitrate_kbps is None {
        Some(SrsV2RateControlError::TargetBitrateRequiredForTargetBitrateMode)
    } else if s.rate_control_mode == SrsV2RateControlMode::TargetBitrate
        && s.target_bitrate_kbps == Some(0u32) {
        Some(SrsV2RateControlError::ZeroTargetBitrate)
    } else if s.rate_control_mode == SrsV2RateControlMode::ConstantQuality && s.quality is None {
        Some(SrsV2RateControlError::QualityRequiredForConstantQuality)
    } else {
        None
    }
}

impl SrsV2EncodeSettings {
    /// The search radius brought into the range that the encoder accepts.
    pub open spec fn search_radius(self) -> int {
        clip(self.motion_search_radius as int, 0, MAX_MOTION_SEARCH_RADIUS as int)
    }

    /// `qp` brought into the QP range of the settings.
    pub open spec fn qp_in_range(self, qp: int) -> int {
        clip(qp, self.min_qp as int, self.max_qp as int)
    }

    /// The search radius brought into the range that the encoder accepts.
    pub fn clamped_motion_search_radius(&self) -> (r: i16)
        ensures
            r == self.search_radius(),
    {
        if self.motion_search_radius < 0 {
            0
        } else if self.motion_search_radius > MAX_MOTION_SEARCH_RADIUS {
            MAX_MOTION_SEARCH_RADIUS
        } else {
            self.motion_search_radius
        }
    }

    /// The refinement radius held at its cap.
    pub fn clamped_subpel_refinement_radius(&self) -> (r: u8)
        ensures
            r == least(self.subpel_refinement_radius as int, MAX_SUBPEL_REFINEMENT_RADIUS as int),
    {
        if self.subpel_refinement_radius > MAX_SUBPEL_REFINEMENT_RADIUS {
            MAX_SUBPEL_REFINEMENT_RADIUS
        } else {
            self.subpel_refinement_radius
        }
    }

    /// `qp` brought into the QP range of the settings.
    pub fn clamp_qp(&self, qp: u8) -> (r: u8)
        requires
            self.min_qp <= self.max_qp,
        ensures
            r == self.qp_in_range(qp as int),
            self.min_qp <= r <= self.max_qp,
    {
        if qp < self.min_qp {
            self.min_qp
        } else if qp > self.max_qp {
            self.max_qp
        } else {
            qp
        }
    }

    /// Checks the fields that rate control reads.
    pub fn validate_rate_control(&self) -> (r: Result<(), SrsV2RateControlError>)
        ensures
            r == match rate_control_refusal(*self) {
                Some(e) => Err::<(), SrsV2RateControlError>(e),
                None => Ok::<(), SrsV2RateControlError>(()),
            },
    {
        if self.min_qp > self.max_qp {
            return Err(
                SrsV2RateControlError::InvalidQpRange { min_qp: self.min_qp, max_qp: self.max_qp },
            );
        }
        match self.rate_control_mode {
            SrsV2RateControlMode::FixedQp | SrsV2RateControlMode::ConstantQuality => {},
            SrsV2RateControlMode::TargetBitrate => {
                match self.target_bitrate_kbps {
                    None => {
                        return Err(
                            SrsV2RateControlError::TargetBitrateRequiredForTargetBitrateMode,
                        );
                    },
                    Some(tb) => {
                        if tb == 0 {
                            return Err(SrsV2RateControlError::ZeroTargetBitrate);
                        }
                    },
                }
            },
        }
        if self.rate_control_mode == SrsV2RateControlMode::ConstantQuality
            && self.quality.is_none() {
            return Err(SrsV2RateControlError::QualityRequiredForConstantQuality);
        }
        Ok(())
    }
}

/// What is known of the frame that was just encoded.
#[derive(Debug, Clone, Copy)]
pub struct PreviousFrameRcStats {
    pub encoded_bytes: u32,
    pub is_keyframe: bool,
}

/// Encoder-side QP controller.
pub struct SrsV2RateController {
    pub settings: SrsV2EncodeSettings,
    pub fps_num: u32,
    pub fps_den: u32,
    pub current_qp: u8,
}

/// The QP that the settings ask for before any frame was observed.
pub open spec fn initial_qp(s: SrsV2EncodeSettings) -> int {
    s.qp_in_range(
        if s.rate_control_mode == SrsV2RateControlMode::ConstantQuality {
            match s.quality {
                Some(q) => q as int,
                None => s.quantizer as int,
            }
        } else {
            s.quantizer as int
        },
    )
}

/// The QP after a target-bitrate frame of `actual` bytes against a budget of `target`.
pub open spec fn stepped_qp(s: SrsV2EncodeSettings, qp: int, actual: int, target: int) -> int {
    let limit = s.qp_step_limit_per_frame as int;
    s.qp_in_range(
        if actual > target {
            qp + limit
        } else if actual < target {
            qp - limit
        } else {
            qp
        },
    )
}

impl SrsV2RateController {
    /// The settings passed validation and the running QP lies in their range.
    pub open spec fn wf(self) -> bool {
        &&& rate_control_refusal(self.settings) is None
        &&& self.fps_num > 0
        &&& self.fps_den > 0
        &&& self.settings.min_qp <= self.current_qp <= self.settings.max_qp
    }

    pub fn new(settings: &SrsV2EncodeSettings, fps_num: u32, fps_den: u32) -> (r: Result<
        Self,
        SrsV2RateControlError,
    >)
        ensures
            match rate_control_refusal(*settings) {
                Some(e) => r == Err::<Self, SrsV2RateControlError>(e),
                None => if fps_num == 0 || fps_den == 0 {
                    r == Err::<Self, SrsV2RateControlError>(
                        SrsV2RateControlError::InvalidFps { fps_num, fps_den },
                    )
                } else {
                    r is Ok && r->Ok_0.wf() && r->Ok_0.settings == *settings && r->Ok_0.fps_num
                        == fps_num && r->Ok_0.fps_den == fps_den && r->Ok_0.current_qp
                        == initial_qp(*settings)
                },
            },
    {
        match settings.validate_rate_control() {
            Ok(_) => {},
            Err(e) => {
                return Err(e);
            },
        }
        if fps_num == 0 || fps_den == 0 {
            return Err(SrsV2RateControlError::InvalidFps { fps_num, fps_den });
        }
        let current_qp: u8 = match settings.rate_control_mode {
            SrsV2RateControlMode::FixedQp => settings.clamp_qp(settings.quantizer),
            SrsV2RateControlMode::ConstantQuality => {
                let q: u8 = settings.quality.unwrap_or(settings.quantizer);
                settings.clamp_qp(q)
            },
            SrsV2RateControlMode::TargetBitrate => settings.clamp_qp(settings.quantizer),
        };
        Ok(SrsV2RateController { settings: *settings, fps_num, fps_den, current_qp })
    }

    /// The QP for the next frame; it does not depend on the frame index or on `previous`.
    pub fn qp_for_frame(
        &mut self,
        _frame_index: u32,
        previous: Option<PreviousFrameRcStats>,
    ) -> (qp: u8)
        requires
            old(self).wf(),
        ensures
            *final(self) == *old(self),
            qp == if old(self).settings.rate_control_mode == SrsV2RateControlMode::TargetBitrate {
                old(self).current_qp as int
            } else {
                initial_qp(old(self).settings)
            },
            old(self).settings.min_qp <= qp <= old(self).settings.max_qp,
    {
        match self.settings.rate_control_mode {
            SrsV2RateControlMode::FixedQp => self.settings.clamp_qp(self.settings.quantizer),
            SrsV2RateControlMode::ConstantQuality => {
                let q: u8 = self.settings.quality.unwrap_or(self.settings.quantizer);
                self.settings.clamp_qp(q)
            },
            SrsV2RateControlMode::TargetBitrate => self.settings.clamp_qp(self.current_qp),
        }
    }

    /// Feeds back the size of an encoded frame.
    pub fn observe_frame(&mut self, _frame_index: u32, encoded_bytes: usize, is_keyframe: bool)
        requires
            old(self).wf(),
        ensures
            final(self).wf(),
            final(self).settings == old(self).settings,
            final(self).fps_num == old(self).fps_num,
            final(self).fps_den == old(self).fps_den,
            final(self).current_qp == if old(self).settings.rate_control_mode
                == SrsV2RateControlMode::TargetBitrate {
                stepped_qp(
                    old(self).settings,
                    old(self).current_qp as int,
                    least(encoded_bytes as int, u32::MAX as int),
                    frame_budget(
                        old(self).settings.target_bitrate_kbps->Some_0 as int,
                        old(self).fps_num as int,
                        old(self).fps_den as int,
                        is_keyframe,
                    ),
                )
            } else {
                old(self).current_qp as int
            },
    {
        if self.settings.rate_control_mode != SrsV2RateControlMode::TargetBitrate {
            return;
        }
        let bytes: u32 = if encoded_bytes > u32::MAX as usize {
            u32::MAX
        } else {
            encoded_bytes as u32
        };
        self.adjust_qp_target_bitrate(PreviousFrameRcStats { encoded_bytes: bytes, is_keyframe });
    }

    fn adjust_qp_target_bitrate(&mut self, prev: PreviousFrameRcStats)
        requires
            old(self).wf(),
        ensures
            final(self).wf(),
            final(self).settings == old(self).settings,
            final(self).fps_num == old(self).fps_num,
            final(self).fps_den == old(self).fps_den,
            final(self).current_qp == match old(self).settings.target_bitrate_kbps {
                Some(tb) => stepped_qp(
                    old(self).settings,
                    old(self).current_qp as int,
                    prev.encoded_bytes as int,
                    frame_budget(
                        tb as int,
                        old(self).fps_num as int,
                        old(self).fps_den as int,
                        prev.is_keyframe,
                    ),
                ),
                None => old(self).current_qp as int,
            },
    {
        let tb: u32 = match self.settings.target_bitrate_kbps {
            Some(tb) => tb,
            None => {
                return;
            },
        };
        let target: u64 = target_payload_bytes(tb, self.fps_num, self.fps_den, prev.is_keyframe);
        let actual: u64 = prev.encoded_bytes as u64;
        let lim: i16 = self.settings.qp_step_limit_per_frame as i16;
        let delta: i16 = if actual > target {
            lim
        } else if actual < target {
            -lim
        } else {
            0
        };
        let next: i16 = self.current_qp as i16 + delta;
        self.current_qp = if next < self.settings.min_qp as i16 {
            self.settings.min_qp
        } else if next > self.settings.max_qp as i16 {
            self.settings.max_qp
        } else {
            next as u8
        };
    }
}

/// The byte budget of one frame: the bits of one frame interval over 8, at least 1, three times
/// as much for a keyframe.
pub open spec fn frame_budget(kbps: int, fps_num: int, fps_den: int, is_keyframe: bool) -> int {
    let bits = least(kbps * 1000 * fps_den, u64::MAX as int);
    let base = greatest(bits / (8 * greatest(fps_num, 1)), 1);
    if is_keyframe {
        least(base * 3, u64::MAX as int)
    } else {
        base
    }
}

/// Expected payload bytes of one frame at a bitrate.
pub fn target_payload_bytes(kbps: u32, fps_num: u32, fps_den: u32, is_keyframe: bool) -> (r: u64)
    ensures
        r == frame_budget(kbps as int, fps_num as int, fps_den as int, is_keyframe),
{
    let num: u64 = sat_mul_u64(kbps as u64 * 1000, fps_den as u64);
    let rate: u32 = if fps_num < 1 { 1 } else { fps_num };
    let den: u64 = 8 * rate as u64;
    let quotient: u64 = num / den;
    let base: u64 = if quotient < 1 { 1 } else { quotient };
    if is_keyframe {
        sat_mul_u64(base, 3)
    } else {
        base
    }
}

/// The budgets of one second of frames add up to the bitrate: `fps_num` frames in `fps_den` seconds,
/// each of its budget, hold no more than `kbps * 1000` bits a second, and with one byte more for
/// each they would hold more.
pub proof fn budgets_add_up_to_the_bitrate(kbps: u32, fps_num: u32, fps_den: u32)
    requires
        fps_num > 0,
        kbps * 1000 * fps_den <= u64::MAX,
    ensures
        ({
            let b = frame_budget(kbps as int, fps_num as int, fps_den as int, false);
            &&& 8 * b * fps_num <= kbps * 1000 * fps_den || b == 1
            &&& kbps * 1000 * fps_den < 8 * (b + 1) * fps_num
        }),
{
    let bits = kbps * 1000 * fps_den;
    let den = 8 * fps_num as int;
    let q = bits / den;
    assert(bits >= 0) by (nonlinear_arith)
        requires
            bits == kbps * 1000 * fps_den,
            kbps >= 0,
            fps_den >= 0,
    ;
    vstd::arithmetic::div_mod::lemma_fundamental_div_mod(bits, den);
    vstd::arithmetic::div_mod::lemma_mod_bound(bits, den);
    let b = frame_budget(kbps as int, fps_num as int, fps_den as int, false);
    assert(8 * q * fps_num == den * q && 8 * (q + 1) * fps_num == den * q + den)
        by (nonlinear_arith)
        requires
            den == 8 * fps_num,
    ;
    assert(8 * (b + 1) * fps_num >= 8 * (q + 1) * fps_num) by (nonlinear_arith)
        requires
            b >= q,
            fps_num > 0,
    ;
}

/// The budget falls as the frame rate rises: twice the frames in the same time have half the
/// budget each. It grows with the bitrate, and a keyframe has three times as much.
pub proof fn budget_follows_rate_and_kind(kbps: u32, more: u32, fps_num: u32, fps_den: u32)
    requires
        fps_num > 0,
        kbps <= more,
        more * 1000 * fps_den <= u64::MAX,
    ensures
        ({
            let b = frame_budget(kbps as int, fps_num as int, fps_den as int, false);
            &&& b >= 1
            &&& b > 1 ==> frame_budget(kbps as int, 2 * fps_num, fps_den as int, false) == b / 2
            &&& frame_budget(more as int, fps_num as int, fps_den as int, false) >= b
            &&& frame_budget(kbps as int, fps_num as int, fps_den as int, true) == 3 * b
                || frame_budget(kbps as int, fps_num as int, fps_den as int, true) == u64::MAX
        }),
{
    let bits = kbps * 1000 * fps_den;
    let wide = more * 1000 * fps_den;
    let den = 8 * fps_num as int;
    assert(0 <= bits <= wide) by (nonlinear_arith)
        requires
            bits == kbps * 1000 * fps_den,
            wide == more * 1000 * fps_den,
            0 <= kbps <= more,
            fps_den >= 0,
    ;
    vstd::arithmetic::div_mod::lemma_div_is_ordered(bits, wide, den);
    vstd::arithmetic::div_mod::lemma_div_denominator(bits, den, 2);
    assert(den * 2 == 8 * (2 * fps_num));
    assert(bits / den / 2 == bits / (8 * (2 * fps_num)));
}

/// Before any frame was observed the QP is the one that the settings name for their mode, wherever
/// the QP range allows it.
pub proof fn first_qp_is_the_one_asked_for(s: SrsV2EncodeSettings)
    requires
        s.min_qp <= s.max_qp,
    ensures
        s.min_qp <= initial_qp(s) <= s.max_qp,
        s.rate_control_mode != SrsV2RateControlMode::ConstantQuality && s.min_qp <= s.quantizer
            <= s.max_qp ==> initial_qp(s) == s.quantizer,
        s.rate_control_mode == SrsV2RateControlMode::ConstantQuality ==> (s.quality matches Some(q)
            ==> (s.min_qp <= q <= s.max_qp ==> initial_qp(s) == q) && (q < s.min_qp ==> initial_qp(s)
            == s.min_qp) && (q > s.max_qp ==> initial_qp(s) == s.max_qp)),
        s.rate_control_mode != SrsV2RateControlMode::ConstantQuality && s.quantizer < s.min_qp
            ==> initial_qp(s) == s.min_qp,
        s.rate_control_mode != SrsV2RateControlMode::ConstantQuality && s.quantizer > s.max_qp
            ==> initial_qp(s) == s.max_qp,
{
}

/// One observation never moves the running QP by more than the step limit: a frame above its budget
/// raises it by the whole limit and a frame below lowers it by the whole limit, up to the ends of
/// the QP range.
pub proof fn qp_step_is_limited(s: SrsV2EncodeSettings, qp: int, actual: int, target: int)
    requires
        s.min_qp <= qp <= s.max_qp,
    ensures
        s.min_qp <= stepped_qp(s, qp, actual, target) <= s.max_qp,
        -s.qp_step_limit_per_frame <= stepped_qp(s, qp, actual, target) - qp
            <= s.qp_step_limit_per_frame,
        actual > target ==> stepped_qp(s, qp, actual, target) >= qp,
        actual < target ==> stepped_qp(s, qp, actual, target) <= qp,
        actual == target ==> stepped_qp(s, qp, actual, target) == qp,
        actual > target && qp + s.qp_step_limit_per_frame <= s.max_qp ==> stepped_qp(
            s,
            qp,
            actual,
            target,
        ) - qp == s.qp_step_limit_per_frame,
        actual > target && qp + s.qp_step_limit_per_frame > s.max_qp ==> stepped_qp(
            s,
            qp,
            actual,
            target,
        ) == s.max_qp,
        actual < target && qp - s.qp_step_limit_per_frame >= s.min_qp ==> qp - stepped_qp(
            s,
            qp,
            actual,
            target,
        ) == s.qp_step_limit_per_frame,
        actual < target && qp - s.qp_step_limit_per_frame < s.min_qp ==> stepped_qp(
            s,
            qp,
            actual,
            target,
        ) == s.min_qp,
{
}

/// A frame that holds more than its share of the bits of its interval raises the QP, and one that
/// holds at least a byte less than its share lowers it, as long as the QP range and the step limit
/// let it move.
pub proof fn oversized_frames_raise_the_qp(
    s: SrsV2EncodeSettings,
    qp: int,
    bytes: u32,
    kbps: u32,
    fps_num: u32,
    fps_den: u32,
)
    requires
        s.min_qp < qp < s.max_qp,
        s.qp_step_limit_per_frame > 0,
        fps_num > 0,
        kbps * 1000 * fps_den <= u64::MAX,
    ensures
        ({
            let next = stepped_qp(
                s,
                qp,
                bytes as int,
                frame_budget(kbps as int, fps_num as int, fps_den as int, false),
            );
            &&& bytes > 1 && 8 * bytes * fps_num > kbps * 1000 * fps_den ==> next > qp
            &&& 8 * (bytes + 1) * fps_num <= kbps * 1000 * fps_den ==> next < qp
        }),
{
    let b = frame_budget(kbps as int, fps_num as int, fps_den as int, false);
    budgets_add_up_to_the_bitrate(kbps, fps_num, fps_den);
    if bytes > 1 && 8 * bytes * fps_num > kbps * 1000 * fps_den && bytes <= b {
        assert(8 * bytes * fps_num <= 8 * b * fps_num) by (nonlinear_arith)
            requires
                bytes <= b,
                fps_num > 0,
        ;
    }
    if 8 * (bytes + 1) * fps_num <= kbps * 1000 * fps_den && bytes >= b {
        assert(8 * (bytes + 1) * fps_num >= 8 * (b + 1) * fps_num) by (nonlinear_arith)
            requires
                bytes >= b,
                fps_num > 0,
        ;
    }
}

/// Settings are accepted when their quantizers are in order, a target has a bitrate above zero and
/// constant quality has a quality; the settings that one starts from are. An accepted range holds
/// every quantizer that it is asked to limit, and leaves those inside as they are.
pub proof fn settings_have_what_their_mode_needs(s: SrsV2EncodeSettings, qp: int)
    ensures
        rate_control_refusal(s) is None <==> s.min_qp <= s.max_qp && (
        s.rate_control_mode is TargetBitrate ==> s.target_bitrate_kbps is Some
            && s.target_bitrate_kbps->0 > 0) && (s.rate_control_mode is ConstantQuality
            ==> s.quality is Some),
        rate_control_refusal(default_settings()) is None,
        rate_control_refusal(s) is None ==> s.min_qp <= s.qp_in_range(qp) <= s.max_qp,
        s.min_qp <= qp <= s.max_qp ==> s.qp_in_range(qp) == qp,
        rate_control_refusal(s) is None && qp < s.min_qp ==> s.qp_in_range(qp) == s.min_qp,
        rate_control_refusal(s) is None && qp > s.max_qp ==> s.qp_in_range(qp) == s.max_qp,
{
}

/// Searches reach as far as they are asked to, up to their limit.
pub proof fn searches_reach_as_far_as_asked(s: SrsV2EncodeSettings, t: SrsV2EncodeSettings)
    ensures
        0 <= s.search_radius() <= MAX_MOTION_SEARCH_RADIUS,
        0 <= s.motion_search_radius <= MAX_MOTION_SEARCH_RADIUS ==> s.search_radius()
            == s.motion_search_radius,
        s.motion_search_radius <= t.motion_search_radius ==> s.search_radius() <= t.search_radius(),
{
}

} // verus!
