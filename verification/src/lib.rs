//! Verified core of the SRS media system.
pub mod arith;
pub mod bitstream;
pub mod bytes;
pub mod codec;
pub mod container;
pub mod contract;
pub mod error;
pub mod keys;
pub mod licensing_client;
pub mod licensing_proto;
pub mod packet;
pub mod pipeline;
pub mod rank;
pub mod srsv2;

pub use bitstream::{
    parse_video_frame_packet_header, FramePacketMetadata, VideoStreamHeader, VideoStreamReader,
    VideoStreamWriter,
};
pub use codec::{
    decode_frame, encode_frame, FrameType, VideoFrame, BLOCK_SIZE, PACKET_SYNC, STREAM_MAGIC,
    STREAM_VERSION,
};
pub use error::VideoCodecError;
pub use srsv2::elementary::{peek_is_srsv2, VideoStreamReaderV2, VideoStreamWriterV2};
pub use srsv2::limits::MAX_LUMA_SAMPLES;
pub use srsv2::model::SEQUENCE_HEADER_BYTES;
pub use srsv2::{
    apply_loop_filter_y, apply_reconstruction_filter_if_enabled, blend_weighted_pixels,
    choose_b_macroblock, classify_srsv2_payload, decode_sequence_header_v2,
    decode_yuv420_alt_ref_payload, decode_yuv420_b_payload, decode_yuv420_intra_payload,
    decode_yuv420_srsv2_payload, decode_yuv420_srsv2_payload_managed, encode_sequence_header_v2,
    encode_yuv420_alt_ref_payload, encode_yuv420_b_payload, encode_yuv420_b_payload_mb_blend,
    encode_yuv420_inter_payload, encode_yuv420_intra_payload, resolve_deblock_strength,
    rgb888_full_to_yuv420_bt709, target_payload_bytes, validate_b_prediction_weights,
    BBlendModeWire, BFrameEncodeStats, BMbEncodeChoice, ChromaSiting, ColorConvertBackend,
    ColorPrimaries, ColorRange, CpuVideoAccelerator, DecodedVideoFrameV2, FrameTypeV2,
    GpuVideoAccelerator, MatrixCoefficients, MotionSearchBackend, PixelFormat,
    PreviousFrameRcStats, QuantBackend, ReferenceFrameBuffer, ResidualEncodeStats, ResidualEntropy,
    SrsV2AdaptiveQuantizationMode, SrsV2AqEncodeStats, SrsV2BMotionSearchMode, SrsV2BlockAqMode,
    SrsV2EncodeSettings, SrsV2Error, SrsV2InterPartitionMode, SrsV2InterSyntaxMode,
    SrsV2LoopFilterMode, SrsV2MotionEncodeStats, SrsV2MotionSearchMode, SrsV2PartitionCostModel,
    SrsV2PartitionEncodeStats, SrsV2PartitionMapEncoding, SrsV2RateControlError,
    SrsV2RateControlMode, SrsV2RateController, SrsV2RdoMode, SrsV2ReferenceKind,
    SrsV2ReferenceManager, SrsV2ReferenceSlot, SrsV2SubpelMode, SrsV2TransformSizeMode,
    SrsVideoCodecId, SrsVideoProfile, Srsv2PayloadKind, TransferFunction, TransformBackend,
    VideoPlane, VideoSequenceHeaderV2, YuvFrame, B_WEIGHTED_PRED_CANDIDATES,
    DEFAULT_DEBLOCK_STRENGTH, FRAME_PAYLOAD_MAGIC_ALT_REF, FRAME_PAYLOAD_MAGIC_B,
    FRAME_PAYLOAD_MAGIC_B_COMPACT, FRAME_PAYLOAD_MAGIC_B_INTER_ENTROPY,
    FRAME_PAYLOAD_MAGIC_B_MB_BLEND, FRAME_PAYLOAD_MAGIC_B_MB_BLEND_QP,
    FRAME_PAYLOAD_MAGIC_B_SUBPEL, FRAME_PAYLOAD_MAGIC_P_INTER_ENTROPY_VAR,
    FRAME_PAYLOAD_MAGIC_P_VAR_PARTITION,
};
