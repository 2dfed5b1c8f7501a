//! Hard caps for hostile-input safety.
use vstd::prelude::*;

verus! {

/// Maximum picture width or height (pixels).
pub const MAX_DIMENSION: u32 = 8192;
/// Maximum luma samples per frame (7680x4320).
pub const MAX_LUMA_SAMPLES: u64 = 33_177_600;
/// Maximum coded packet payload bytes accepted by the SRSV2 frame decoder.
pub const MAX_FRAME_PAYLOAD_BYTES: usize = 268_435_456;
/// Maximum tiles per frame (reserved for tiling).
pub const MAX_TILES: u32 = 4096;
/// Maximum reference frames.
pub const MAX_REF_FRAMES: u8 = 16;
/// Absolute bound on encoded motion vectors (pixels).
pub const MAX_MOTION_VECTOR_PELS: i16 = 256;
/// Encoder search radius cap (integer pel).
pub const MAX_MOTION_SEARCH_RADIUS: i16 = 128;
/// Cap for the half-pel refinement radius.
pub const MAX_SUBPEL_REFINEMENT_RADIUS: u8 = 2;
/// Maximum sequence metadata extension bytes.
pub const MAX_METADATA_BYTES: usize = 16_384;
/// Superblock size.
pub const SUPERBLOCK_SIZE: u32 = 64;
/// Minimum coding unit (after splits).
pub const MIN_CU_SIZE: u32 = 8;
/// Smallest `qp_delta` accepted on the wire.
pub const QP_DELTA_WIRE_MIN: i8 = -24;
/// Largest `qp_delta` accepted on the wire.
pub const QP_DELTA_WIRE_MAX: i8 = 24;

} // verus!
