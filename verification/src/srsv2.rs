//! SRSV2 video path.
pub mod activity;
pub mod adaptive_quant;
pub mod aq_law;
pub mod b_choose;
pub mod b_decode;
pub mod b_encode;
pub mod b_frame_codec;
pub mod b_law;
pub mod b_motion_law;
pub mod block_aq;
pub mod choice_law;
pub mod color;
pub mod context_inter_entropy;
pub mod ctu64;
pub mod dct;
pub mod deblock;
pub mod elementary;
pub mod error;
pub mod frame;
pub mod frame_codec;
pub mod gpu_traits;
pub mod inter_frame;
pub mod inter_law;
pub mod inter_mv;
pub mod inter_write;
pub mod intra_codec;
pub mod intra_frame;
pub mod intra_law;
pub mod intra_plane;
pub mod limits;
pub mod model;
pub mod motion_law;
pub mod motion_search;
pub mod mv_share;
pub mod p_frame_codec;
pub mod p_var_choose;
pub mod p_var_decode;
pub mod p_var_encode;
pub mod p_var_law;
pub mod p_var_plan;
pub mod partition_map;
pub mod partition_syntax_v2;
pub mod payload_kind;
pub mod rate_control;
pub mod rdo;
pub mod reader;
pub mod reference;
pub mod reference_manager;
pub mod residual_context_entropy;
pub mod search_law;
pub mod stats_law;
pub mod subpel;
pub mod var_motion_law;
pub mod wire_law;

pub use adaptive_quant::{
    resolve_frame_adaptive_qp, validate_adaptive_quant_settings, SrsV2AqEncodeStats,
    SrsV2BlockAqWireStats,
};
pub use b_choose::{
    choose_b_macroblock, choose_b_macroblock_blend_and_mv, BFrameEncodeStats, BMbEncodeChoice,
};
pub use b_decode::decode_yuv420_b_payload;
pub use b_encode::{encode_yuv420_b_payload, encode_yuv420_b_payload_mb_blend};
pub use b_frame_codec::{
    blend_weighted_pixels, validate_b_prediction_weights, BBlendModeWire,
    B_WEIGHTED_PRED_CANDIDATES, FRAME_PAYLOAD_MAGIC_B, FRAME_PAYLOAD_MAGIC_B_COMPACT,
    FRAME_PAYLOAD_MAGIC_B_INTER_ENTROPY, FRAME_PAYLOAD_MAGIC_B_MB_BLEND,
    FRAME_PAYLOAD_MAGIC_B_MB_BLEND_QP, FRAME_PAYLOAD_MAGIC_B_SUBPEL,
};
pub use color::rgb888_full_to_yuv420_bt709;
pub use deblock::{
    apply_loop_filter_y, apply_simple_mb_boundary_deblock_y, resolve_deblock_strength,
    SrsV2LoopFilterMode, DEFAULT_DEBLOCK_STRENGTH,
};
pub use error::SrsV2Error;
pub use frame::{DecodedVideoFrameV2, EncodedVideoPacketV2, VideoPlane, YuvFrame};
pub use frame_codec::{
    apply_reconstruction_filter_if_enabled, decode_yuv420_alt_ref_payload,
    decode_yuv420_srsv2_payload, decode_yuv420_srsv2_payload_managed,
    encode_yuv420_alt_ref_payload, encode_yuv420_inter_payload,
};
pub use gpu_traits::{
    ColorConvertBackend, CpuVideoAccelerator, GpuVideoAccelerator, MotionSearchBackend,
    QuantBackend, TransformBackend,
};
pub use intra_frame::{
    decode_yuv420_intra_payload, encode_yuv420_intra_payload, FRAME_PAYLOAD_MAGIC_ALT_REF,
};
pub use model::{
    decode_sequence_header_v2, encode_sequence_header_v2, ChromaSiting, ColorPrimaries, ColorRange,
    FrameHeaderV2, FrameTypeV2, MatrixCoefficients, PixelFormat, SrsVideoCodecId, SrsVideoProfile,
    TileHeaderV2, TransferFunction, VideoSequenceHeaderV2, SEQUENCE_HEADER_BYTES,
};
pub use motion_search::{
    SrsV2InterMvBenchStats, SrsV2MotionEncodeStats, SrsV2PartitionEncodeStats, SrsV2RdoBenchStats,
};
pub use mv_share::{
    decode_mv_share_groups_v2, encode_mv_share_groups_v2, MvShareGroupV2, MV_SHARE_GROUPS_V2_MAGIC,
};
pub use p_var_decode::{
    FRAME_PAYLOAD_MAGIC_P_INTER_ENTROPY_VAR, FRAME_PAYLOAD_MAGIC_P_VAR_PARTITION,
};
pub use partition_syntax_v2::{
    decode_partition_map_v2, encode_partition_map_v2, estimate_partition_syntax_v2_bytes,
    total_pu_slots_for_modes, v1_legacy_partition_map_bytes, validate_partition_map_v2,
    PartitionMapV2, PartitionModeV2, PartitionRunV2, PartitionSyntaxV2Error,
    PartitionSyntaxV2Stats, PARTITION_MAP_V2_MAGIC,
};
pub use payload_kind::{classify_srsv2_payload, Srsv2PayloadKind};
pub use rate_control::{
    target_payload_bytes, PreviousFrameRcStats, ResidualEncodeStats, ResidualEntropy,
    SrsV2AdaptiveQuantizationMode, SrsV2BMotionSearchMode, SrsV2BlockAqMode, SrsV2EncodeSettings,
    SrsV2InterPartitionMode, SrsV2InterSyntaxMode, SrsV2MotionSearchMode, SrsV2PartitionCostModel,
    SrsV2PartitionMapEncoding, SrsV2RateControlError, SrsV2RateControlMode, SrsV2RateController,
    SrsV2RdoMode, SrsV2SubpelMode, SrsV2TransformSizeMode,
};
pub use rdo::{
    autofast_partition_mb_rdo_score, autofast_partition_mb_wire_cost, b_blend_rdo_score,
    bounded_candidate_push, choose_best_inter_mode_candidate, choose_best_partition_candidate,
    choose_min_partition_by_precomputed_scores, estimate_inter_header_bytes,
    estimate_mv_delta_wire_bytes, estimate_partition_candidate_bytes,
    p_subblock_skip_residual_is_rdo_cheaper, partition_header_aware_score,
    partition_rdo_fast_score, rdo_fast_enabled, rdo_score, score_candidate, RdoCandidate, RdoCost,
    RdoDecision, RdoModeDecisionStats, RdoStats, MAX_RDO_CANDIDATES,
};
pub use reference::ReferenceFrameBuffer;
pub use reference_manager::{SrsV2ReferenceKind, SrsV2ReferenceManager, SrsV2ReferenceSlot};
