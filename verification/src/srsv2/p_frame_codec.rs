//! Forward pictures: 16x16 motion compensation with 8x8 residuals.
//!
//! Revisions 2, 4 and 8 of the frame payload carry whole-pel vectors, 5, 6 and 9 half-pel vectors in
//! quarter-pel units; 2 and 5 carry coefficient tuples, the others entropy-coded chunks. In 8 and 9
//! a clip range follows the QP, and each chunk starts with the QP delta of its sub-block.
use vstd::prelude::*;

use crate::arith::{least, magnitude, total};
use crate::bytes::{
    append_is_associative, bytes16, bytes32, le16, le16_reads_bytes16, le32, le32_reads_bytes32,
    push_all, push_i16, push_i32, push_u32, tdiv, unsigned16, unsigned32,
};
use super::b_frame_codec::BBlendModeWire;
use super::block_aq::{
    apply_qp_delta_clamped, choose_block_qp_delta, clip_range_ok, delta_on_wire, measure_blocks,
    picture_delta, sends_block_deltas, sends_deltas, shifted_qp, validate_qp_clip_range,
    validate_wire_qp_delta,
};
use super::error::SrsV2Error;
use super::frame::{lemma_packed_position, plane_refusal, DecodedVideoFrameV2, VideoPlane, YuvFrame};
use super::inter_frame::{
    after_header, bit, bit_set, closed_state, inter_error, inter_planes, inter_state, inter_step,
    job_views, lemma_chroma_accepted, lemma_inter_fault, lemma_inter_lengths, read_job,
    rebuild_inter_frame, span_needs_its_bytes, take_job, take_span, ChunkStyle, DeltaRange, InterMb,
    InterParse, InterState, ResidualJob,
};
use super::inter_law::{lemma_after_head, mb_stream, recovers, stream_round_trip, StreamCase};
use super::inter_write::{
    append_chunks, coding_failure, framed_chunks, lemma_pattern, pattern_of, plan_block,
    planned_block, planned_blocks, planned_view, skip_pattern, CodedResidual,
};
use super::intra_codec::step_of;
use super::limits::{MAX_FRAME_PAYLOAD_BYTES, MAX_MOTION_VECTOR_PELS, MAX_SUBPEL_REFINEMENT_RADIUS};
use super::model::{PixelFormat, VideoSequenceHeaderV2};
use super::motion_search::{
    pick_mv, rect_cost, search, Found, SEARCH_EVALS_CAP, SrsV2MotionEncodeStats,
};
use super::rate_control::{
    ResidualEncodeStats, ResidualEntropy, SrsV2EncodeSettings, SrsV2SubpelMode,
};
use super::reader::{read_i16, read_i32, read_u8, take_i16, take_i32, take_u8, Read};
use super::subpel::{
    qpel_refusal, refine_half_pel_center, refined, split_qpel, validate_mv_qpel_halfgrid,
};

verus! {

/// Whole-pel vectors, coefficient tuples.
pub const FRAME_PAYLOAD_MAGIC_P: [u8; 4] = [70, 82, 50, 2];

/// Whole-pel vectors, entropy-coded chunks.
pub const FRAME_PAYLOAD_MAGIC_P_ENTROPY: [u8; 4] = [70, 82, 50, 4];

/// Half-pel vectors, coefficient tuples.
pub const FRAME_PAYLOAD_MAGIC_P_SUBPEL: [u8; 4] = [70, 82, 50, 5];

/// Half-pel vectors, entropy-coded chunks.
pub const FRAME_PAYLOAD_MAGIC_P_SUBPEL_ENTROPY: [u8; 4] = [70, 82, 50, 6];

/// Whole-pel vectors, entropy-coded chunks with block deltas.
pub const FRAME_PAYLOAD_MAGIC_P_BLOCK_AQ: [u8; 4] = [70, 82, 50, 8];

/// Half-pel vectors, entropy-coded chunks with block deltas.
pub const FRAME_PAYLOAD_MAGIC_P_SUBPEL_BLOCK_AQ: [u8; 4] = [70, 82, 50, 9];

/// Largest luma difference of a sub-block that may be skipped.
pub const SKIP_ABS_THRESH: i16 = 6;

/// A whole-pel vector is within the bounds of the format.
pub open spec fn whole_mv_ok(mvx: int, mvy: int) -> bool {
    magnitude(mvx) <= MAX_MOTION_VECTOR_PELS && magnitude(mvy) <= MAX_MOTION_VECTOR_PELS
}

/// Accepts whole-pel vectors within the bounds of the format.
pub fn validate_mv(mvx: i16, mvy: i16) -> (r: Result<(), SrsV2Error>)
    ensures
        r == if whole_mv_ok(mvx as int, mvy as int) {
            Ok::<(), SrsV2Error>(())
        } else {
            Err::<(), SrsV2Error>(SrsV2Error::CorruptedMotionVector)
        },
{
    if mvx > MAX_MOTION_VECTOR_PELS || mvx < -MAX_MOTION_VECTOR_PELS || mvy
        > MAX_MOTION_VECTOR_PELS || mvy < -MAX_MOTION_VECTOR_PELS {
        return Err(SrsV2Error::CorruptedMotionVector);
    }
    Ok(())
}

/// A macroblock predicted from the first reference alone.
pub open spec fn forward_mb(mvx_q: int, mvy_q: int) -> InterMb {
    InterMb {
        blend: BBlendModeWire::ForwardOnly,
        weight_a: 0,
        weight_b: 0,
        mv_aqx: mvx_q as i32,
        mv_aqy: mvy_q as i32,
        mv_bqx: 0,
        mv_bqy: 0,
    }
}

/// The motion vector at the cursor, in quarter-pel units.
pub open spec fn take_p_vector(data: Seq<u8>, qpel: bool, cur: int) -> Read<(int, int)> {
    let x = if qpel {
        take_i32(data, cur)
    } else {
        take_i16(data, cur)
    };
    match x.value {
        Err(e) => Read { value: Err(e), next: x.next },
        Ok(mx) => {
            let y = if qpel {
                take_i32(data, x.next)
            } else {
                take_i16(data, x.next)
            };
            match y.value {
                Err(e) => Read { value: Err(e), next: y.next },
                Ok(my) => if qpel {
                    match qpel_refusal(mx, my) {
                        Some(e) => Read { value: Err(e), next: y.next },
                        None => Read { value: Ok((mx, my)), next: y.next },
                    }
                } else if whole_mv_ok(mx, my) {
                    Read { value: Ok((mx * 4, my * 4)), next: y.next }
                } else {
                    Read { value: Err(SrsV2Error::CorruptedMotionVector), next: y.next }
                },
            }
        },
    }
}

fn read_p_vector(data: &[u8], qpel: bool, cur: &mut usize) -> (r: Result<(i32, i32), SrsV2Error>)
    ensures
        ({
            let s = take_p_vector(data@, qpel, *old(cur) as int);
            &&& *final(cur) == s.next
            &&& match s.value {
                Ok(v) => r is Ok && r->Ok_0.0 == v.0 && r->Ok_0.1 == v.1 && magnitude(v.0) <= 1024
                    && magnitude(v.1) <= 1024,
                Err(e) => r == Err::<(i32, i32), SrsV2Error>(e),
            }
        }),
{
    if qpel {
        let mx: i32 = match read_i32(data, cur) {
            Ok(v) => v,
            Err(e) => {
                return Err(e);
            },
        };
        let my: i32 = match read_i32(data, cur) {
            Ok(v) => v,
            Err(e) => {
                return Err(e);
            },
        };
        match validate_mv_qpel_halfgrid(mx, my) {
            Err(e) => Err(e),
            Ok(_) => Ok((mx, my)),
        }
    } else {
        let mx: i16 = match read_i16(data, cur) {
            Ok(v) => v,
            Err(e) => {
                return Err(e);
            },
        };
        let my: i16 = match read_i16(data, cur) {
            Ok(v) => v,
            Err(e) => {
                return Err(e);
            },
        };
        match validate_mv(mx, my) {
            Err(e) => Err(e),
            Ok(_) => Ok((mx as i32 * 4, my as i32 * 4)),
        }
    }
}

/// The header of a macroblock: its vector and its skip bits.
pub open spec fn p_header(data: Seq<u8>, qpel: bool, cur: int) -> Read<(InterMb, int)> {
    let v = take_p_vector(data, qpel, cur);
    match v.value {
        Err(e) => Read { value: Err(e), next: v.next },
        Ok(mv) => {
            let p = take_u8(data, v.next);
            match p.value {
                Err(e) => Read { value: Err(e), next: p.next },
                Ok(pattern) => Read { value: Ok((forward_mb(mv.0, mv.1), pattern)), next: p.next },
            }
        },
    }
}

fn read_p_header(data: &[u8], qpel: bool, cur: &mut usize) -> (r: Result<(InterMb, u8), SrsV2Error>)
    ensures
        ({
            let s = p_header(data@, qpel, *old(cur) as int);
            match s.value {
                Ok(v) => r is Ok && r->Ok_0.0 == v.0 && r->Ok_0.1 == v.1 && v.0.wf()
                    && *final(cur) == s.next,
                Err(e) => r == Err::<(InterMb, u8), SrsV2Error>(e),
            }
        }),
{
    match read_p_vector(data, qpel, cur) {
        Err(e) => Err(e),
        Ok((mx, my)) => match read_u8(data, cur) {
            Err(e) => Err(e),
            Ok(pattern) => Ok(
                (
                    InterMb {
                        blend: BBlendModeWire::ForwardOnly,
                        weight_a: 0,
                        weight_b: 0,
                        mv_aqx: mx,
                        mv_aqy: my,
                        mv_bqx: 0,
                        mv_bqy: 0,
                    },
                    pattern,
                ),
            ),
        },
    }
}

/// Revisions of forward payloads.
pub open spec fn p_revision(rev: int) -> bool {
    rev == 2 || rev == 4 || rev == 5 || rev == 6 || rev == 8 || rev == 9
}

/// The revision carries block deltas.
pub open spec fn p_has_deltas(data: Seq<u8>) -> bool {
    data[3] == 8 || data[3] == 9
}

/// Where the macroblocks of a forward payload start.
pub open spec fn p_start(data: Seq<u8>) -> int {
    if p_has_deltas(data) {
        11
    } else {
        9
    }
}

/// Why a forward payload is refused before its macroblocks are read, if it is.
pub open spec fn p_refusal(
    seq: VideoSequenceHeaderV2,
    data: Seq<u8>,
    reference: YuvFrame,
) -> Option<SrsV2Error> {
    if seq.pixel_format != PixelFormat::Yuv420p8 || reference.format != PixelFormat::Yuv420p8 {
        Some(SrsV2Error::Unsupported("P-frame decode requires YUV420p8"))
    } else if seq.max_ref_frames == 0 {
        Some(SrsV2Error::Unsupported("inter frame in sequence with max_ref_frames=0"))
    } else if seq.width % 16 != 0 || seq.height % 16 != 0 {
        Some(SrsV2Error::Syntax("bad dimensions for P-frame"))
    } else if reference.y.width != seq.width || reference.y.height != seq.height {
        Some(SrsV2Error::Syntax("reference geometry mismatch"))
    } else if data.len() < 9 {
        Some(SrsV2Error::Truncated)
    } else if data[0] != 70 || data[1] != 82 || data[2] != 50 || !p_revision(data[3] as int) {
        Some(SrsV2Error::BadMagic)
    } else if p_has_deltas(data) && data.len() < 11 {
        Some(SrsV2Error::Truncated)
    } else if p_has_deltas(data) && !clip_range_ok(data[9] as int, data[10] as int) {
        Some(SrsV2Error::Syntax("invalid qp clip range"))
    } else {
        plane_refusal(seq.width as int, seq.height as int, seq.width as int)
    }
}

/// The revision carries half-pel vectors.
pub open spec fn p_is_qpel(data: Seq<u8>) -> bool {
    data[3] == 5 || data[3] == 6 || data[3] == 9
}

/// How the chunks of a forward payload are read.
pub open spec fn p_style(data: Seq<u8>) -> ChunkStyle {
    ChunkStyle {
        label: "p residual chunk",
        entropy: data[3] != 2 && data[3] != 5,
        qp: step_of(data[8] as int),
        deltas: if p_has_deltas(data) {
            Some(DeltaRange { base: data[8], clip_min: data[9], clip_max: data[10] })
        } else {
            None
        },
    }
}

/// The macroblocks of a picture.
pub open spec fn mb_count(seq: VideoSequenceHeaderV2) -> int {
    (seq.width as int / 16) * (seq.height as int / 16)
}

/// The reading of a forward payload up to its first `k` sub-blocks.
pub open spec fn p_state(data: Seq<u8>, k: int) -> InterState {
    inter_state(
        |cur: int, i: int| p_header(data, p_is_qpel(data), cur),
        data,
        p_style(data),
        p_start(data),
        k,
    )
}

/// The reading of a whole forward payload.
pub open spec fn p_reading(seq: VideoSequenceHeaderV2, data: Seq<u8>) -> InterState {
    closed_state(data, "trailing P-frame bytes", p_state(data, 4 * mb_count(seq)))
}

/// Takes a forward payload apart: what is left to do is to compute the residual samples of its
/// sub-blocks.
pub fn parse_p_payload(seq: &VideoSequenceHeaderV2, payload: &[u8], reference: &YuvFrame) -> (r:
    Result<InterParse, SrsV2Error>)
    ensures
        match p_refusal(*seq, payload@, *reference) {
            Some(e) => r == Err::<InterParse, SrsV2Error>(e),
            None => r is Ok && r->Ok_0.matches(p_reading(*seq, payload@)) && r->Ok_0.wf(
                mb_count(*seq),
            ) && r->Ok_0.frame_index == crate::bytes::le32(payload@, 4) && r->Ok_0.qp
                == payload@[8],
        },
{
    if seq.pixel_format != PixelFormat::Yuv420p8 || reference.format != PixelFormat::Yuv420p8 {
        return Err(SrsV2Error::Unsupported("P-frame decode requires YUV420p8"));
    }
    if seq.max_ref_frames == 0 {
        return Err(SrsV2Error::Unsupported("inter frame in sequence with max_ref_frames=0"));
    }
    let w: u32 = seq.width;
    let h: u32 = seq.height;
    if w % 16 != 0 || h % 16 != 0 {
        return Err(SrsV2Error::Syntax("bad dimensions for P-frame"));
    }
    if reference.y.width != w || reference.y.height != h {
        return Err(SrsV2Error::Syntax("reference geometry mismatch"));
    }
    if payload.len() < 9 {
        return Err(SrsV2Error::Truncated);
    }
    let rev: u8 = payload[3];
    if payload[0] != 70 || payload[1] != 82 || payload[2] != 50 || !(rev == 2 || rev == 4 || rev
        == 5 || rev == 6 || rev == 8 || rev == 9) {
        return Err(SrsV2Error::BadMagic);
    }
    let entropy: bool = rev != 2 && rev != 5;
    let qpel: bool = rev == 5 || rev == 6 || rev == 9;
    let frame_index: u32 = crate::bytes::get_u32(payload, 4);
    let qp: u8 = payload[8];
    let mut deltas: Option<DeltaRange> = None;
    let mut start: usize = 9;
    if rev == 8 || rev == 9 {
        if payload.len() < 11 {
            return Err(SrsV2Error::Truncated);
        }
        match validate_qp_clip_range(payload[9], payload[10]) {
            Err(e) => {
                return Err(e);
            },
            Ok(_) => {},
        }
        deltas = Some(DeltaRange { base: qp, clip_min: payload[9], clip_max: payload[10] });
        start = 11;
    }
    let qp_i: i16 = if qp < 1 { 1 } else { qp as i16 };
    match VideoPlane::try_new(w, h, w as usize) {
        Err(e) => {
            return Err(e);
        },
        Ok(_) => {},
    }
    proof {
        lemma_chroma_accepted(w as int, h as int);
        assert((w as int / 16) * (h as int / 16) <= 512 * 512) by (nonlinear_arith)
            requires
                0 <= w as int / 16 <= 512,
                0 <= h as int / 16 <= 512,
        ;
    }
    let n: usize = 4 * ((w / 16) as usize * (h / 16) as usize);
    let mut mbs: Vec<InterMb> = Vec::new();
    let mut blocks: Vec<Option<ResidualJob>> = Vec::new();
    let mut fault: Option<SrsV2Error> = None;
    let mut cur: usize = start;
    let mut pattern: u8 = 0;
    let ghost data = payload@;
    let ghost header = |cur: int, i: int| p_header(data, p_is_qpel(data), cur);
    let mut k: usize = 0;
    while k < n && fault.is_none()
        invariant
            k <= n,
            data == payload@,
            data.len() >= 9,
            qpel == p_is_qpel(data),
            entropy == p_style(data).entropy,
            qp_i == p_style(data).qp,
            deltas == p_style(data).deltas,
            deltas matches Some(d) ==> d.clip_min <= d.clip_max,
            header == (|cur: int, i: int| p_header(data, p_is_qpel(data), cur)),
            ({
                let st = p_state(data, k as int);
                &&& mbs@ == st.mbs
                &&& job_views(blocks@) == st.blocks
                &&& fault == st.fault
                &&& fault is None ==> cur == st.cur && pattern == st.pattern
            }),
            forall|i: int| 0 <= i < mbs@.len() ==> (#[trigger] mbs@[i]).wf(),
        decreases n - k,
    {
        let ghost st = p_state(data, k as int);
        assert(p_state(data, k + 1) == inter_step(header, data, p_style(data), k as int, st));
        if k % 4 == 0 {
            match read_p_header(payload, qpel, &mut cur) {
                Err(e) => {
                    fault = Some(e);
                },
                Ok((mb, p)) => {
                    mbs.push(mb);
                    pattern = p;
                },
            }
        }
        if fault.is_none() {
            if bit_set(pattern, k % 4) {
                blocks.push(None);
                assert(job_views(blocks@) =~= st.blocks.push(None));
            } else {
                match read_job(payload, &mut cur, "p residual chunk", entropy, qp_i, deltas) {
                    Err(e) => {
                        fault = Some(e);
                    },
                    Ok(job) => {
                        blocks.push(Some(job));
                        assert(job_views(blocks@) =~= st.blocks.push(Some(job@)));
                    },
                }
            }
        }
        k += 1;
    }
    proof {
        if fault is Some {
            lemma_inter_fault(header, data, p_style(data), start as int, k as int, n as int);
        } else {
            lemma_inter_lengths(header, data, p_style(data), start as int, n as int);
        }
    }
    if fault.is_none() && cur != payload.len() {
        fault = Some(SrsV2Error::Syntax("trailing P-frame bytes"));
    }
    Ok(InterParse { frame_index, qp, mbs, blocks, fault })
}

/// The picture of a forward payload.
pub open spec fn p_decoded(
    seq: VideoSequenceHeaderV2,
    data: Seq<u8>,
    reference: YuvFrame,
    residuals: Seq<Result<[i16; 64], SrsV2Error>>,
    r: Result<DecodedVideoFrameV2, SrsV2Error>,
) -> bool {
    match p_refusal(seq, data, reference) {
        Some(e) => r == Err::<DecodedVideoFrameV2, SrsV2Error>(e),
        None => match inter_error(p_reading(seq, data), residuals) {
            Some(e) => r == Err::<DecodedVideoFrameV2, SrsV2Error>(e),
            None => r is Ok && r->Ok_0.frame_index == crate::bytes::le32(data, 4) && r->Ok_0.width
                == seq.width && r->Ok_0.height == seq.height && r->Ok_0.is_displayable
                && r->Ok_0.yuv.format == PixelFormat::Yuv420p8 && inter_planes(
                r->Ok_0.yuv,
                seq.width as int,
                seq.height as int,
                reference,
                reference,
                p_reading(seq, data).mbs,
                p_reading(seq, data).blocks,
                residuals,
            ) && r->Ok_0.yuv.valid(),
        },
    }
}

/// Decodes a forward payload into a picture, given the residual samples of its sub-blocks in the
/// order in which [`parse_p_payload`] lists them. No loop filter is applied.
pub fn decode_yuv420_p_payload(
    seq: &VideoSequenceHeaderV2,
    payload: &[u8],
    reference: &YuvFrame,
    residuals: &[Result<[i16; 64], SrsV2Error>],
) -> (r: Result<DecodedVideoFrameV2, SrsV2Error>)
    requires
        reference.valid(),
        p_refusal(*seq, payload@, *reference) is None ==> residuals@.len() == p_reading(
            *seq,
            payload@,
        ).blocks.len(),
    ensures
        p_decoded(*seq, payload@, *reference, residuals@, r),
{
    match parse_p_payload(seq, payload, reference) {
        Err(e) => Err(e),
        Ok(parse) => rebuild_inter_frame(
            &parse,
            seq.width,
            seq.height,
            reference,
            reference,
            residuals,
        ),
    }
}

/// Why a picture cannot be coded as a forward picture, if it cannot.
pub open spec fn p_encode_refusal(
    seq: VideoSequenceHeaderV2,
    cur: YuvFrame,
    reference: YuvFrame,
    s: SrsV2EncodeSettings,
) -> Option<SrsV2Error> {
    if seq.pixel_format != PixelFormat::Yuv420p8 || cur.format != PixelFormat::Yuv420p8
        || reference.format != PixelFormat::Yuv420p8 {
        Some(SrsV2Error::Unsupported("P-frame encode requires YUV420p8"))
    } else if seq.max_ref_frames == 0 {
        Some(SrsV2Error::Unsupported("sequence max_ref_frames must be >= 1 for P-frame"))
    } else if seq.width % 16 != 0 || seq.height % 16 != 0 {
        Some(SrsV2Error::Syntax("P-frame prototype requires width and height divisible by 16"))
    } else if cur.y.width != seq.width || reference.y.width != seq.width || cur.y.height
        != seq.height || reference.y.height != seq.height {
        Some(SrsV2Error::Syntax("plane geometry mismatch"))
    } else if sends_deltas(s) && !clip_range_ok(s.min_qp as int, s.max_qp as int) {
        Some(SrsV2Error::Syntax("invalid qp clip range"))
    } else if !deltas_on_wire(cur.y, s, seq.width as int / 16, mb_count(seq)) {
        Some(SrsV2Error::Syntax("qp_delta out of wire range"))
    } else {
        None
    }
}

/// The wire can carry the delta of every sub-block of a picture of `n` macroblocks.
pub open spec fn deltas_on_wire(
    cur: VideoPlane<u8>,
    s: SrsV2EncodeSettings,
    cols: int,
    n: int,
) -> bool {
    forall|k: int| 0 <= k < 4 * n ==> delta_on_wire(#[trigger] picture_delta(cur, s, cols, n, k))
}

/// The deltas of the sub-blocks of a picture of `n` macroblocks; none where the settings ask for
/// none.
pub open spec fn p_deltas(
    cur: VideoPlane<u8>,
    s: SrsV2EncodeSettings,
    cols: int,
    n: int,
) -> Seq<i8> {
    if sends_deltas(s) {
        Seq::new((4 * n) as nat, |k: int| picture_delta(cur, s, cols, n, k) as i8)
    } else {
        seq![]
    }
}

/// Deltas of `n` sub-blocks that a payload can carry under the settings.
pub open spec fn deltas_fit(s: SrsV2EncodeSettings, deltas: Seq<i8>, n: int) -> bool {
    if sends_deltas(s) {
        &&& clip_range_ok(s.min_qp as int, s.max_qp as int)
        &&& deltas.len() == n
        &&& forall|k: int| 0 <= k < n ==> delta_on_wire((#[trigger] deltas[k]) as int)
    } else {
        deltas.len() == 0
    }
}

/// The QP that the residual of sub-block `k` is quantized with.
pub open spec fn p_block_qp(s: SrsV2EncodeSettings, qp: int, deltas: Seq<i8>, k: int) -> int {
    if k < deltas.len() {
        shifted_qp(qp, deltas[k] as int, s.min_qp as int, s.max_qp as int)
    } else {
        step_of(qp)
    }
}

/// What a forward picture is coded from: macroblock predictions, and the differences of the
/// sub-blocks that carry a residual.
#[derive(Debug, Clone)]
pub struct PFramePlan {
    pub mbs: Vec<InterMb>,
    /// Four per macroblock.
    pub blocks: Vec<Option<[i16; 64]>>,
    /// The QP delta of each sub-block; empty where the payload carries none.
    pub deltas: Vec<i8>,
}

impl PFramePlan {
    /// Every macroblock can be carried under the settings, and each has four sub-blocks.
    pub open spec fn wf(self, s: SrsV2EncodeSettings) -> bool {
        &&& self.mbs@.len() <= 262144
        &&& self.blocks@.len() == 4 * self.mbs@.len()
        &&& forall|i: int|
            0 <= i < self.mbs@.len() ==> p_carries(
                #[trigger] self.mbs@[i],
                s.subpel_mode == SrsV2SubpelMode::HalfPel,
            )
        &&& deltas_fit(s, self.deltas@, self.blocks@.len() as int)
    }

    /// The QP to quantize the residual of sub-block `k` with, in a picture with the QP `qp`.
    pub fn block_qp(&self, settings: &SrsV2EncodeSettings, qp: u8, k: usize) -> (r: u8)
        requires
            self.wf(*settings),
        ensures
            r == p_block_qp(*settings, qp as int, self.deltas@, k as int),
    {
        if k < self.deltas.len() {
            apply_qp_delta_clamped(qp, self.deltas[k], settings.min_qp, settings.max_qp)
        } else if qp < 1 {
            1
        } else {
            qp
        }
    }
}

/// Finds the deltas of the sub-blocks of a picture.
fn plan_p_deltas(
    cur: &VideoPlane<u8>,
    settings: &SrsV2EncodeSettings,
    cols: u32,
    rows: u32,
) -> (r: Result<Vec<i8>, SrsV2Error>)
    requires
        cur.valid(),
        cols <= 512,
        rows <= 512,
        sends_deltas(*settings) ==> settings.min_block_qp_delta <= settings.max_block_qp_delta,
    ensures
        if sends_deltas(*settings) && !clip_range_ok(
            settings.min_qp as int,
            settings.max_qp as int,
        ) {
            r == Err::<Vec<i8>, SrsV2Error>(SrsV2Error::Syntax("invalid qp clip range"))
        } else if !deltas_on_wire(*cur, *settings, cols as int, cols * rows) {
            r == Err::<Vec<i8>, SrsV2Error>(SrsV2Error::Syntax("qp_delta out of wire range"))
        } else {
            r is Ok && r->Ok_0@ == p_deltas(*cur, *settings, cols as int, cols * rows)
                && deltas_fit(*settings, r->Ok_0@, 4 * (cols * rows))
        },
{
    let ghost n = cols * rows;
    let m = measure_blocks(cur, settings, cols, rows);
    let mut deltas: Vec<i8> = Vec::new();
    if !m.on {
        assert(deltas@ =~= seq![]);
        assert(deltas_on_wire(*cur, *settings, cols as int, n));
        return Ok(deltas);
    }
    match validate_qp_clip_range(settings.min_qp, settings.max_qp) {
        Err(e) => {
            return Err(e);
        },
        Ok(_) => {},
    }
    let total: usize = m.vars.len();
    let mut k: usize = 0;
    while k < total
        invariant
            k <= total,
            total == 4 * n,
            n == cols * rows,
            total == m.vars@.len(),
            m.on,
            m.of(*cur, *settings, cols as int, n),
            settings.min_block_qp_delta <= settings.max_block_qp_delta,
            clip_range_ok(settings.min_qp as int, settings.max_qp as int),
            deltas@.len() == k,
            forall|j: int|
                0 <= j < k ==> #[trigger] deltas@[j] == picture_delta(
                    *cur,
                    *settings,
                    cols as int,
                    n,
                    j,
                ) && delta_on_wire(deltas@[j] as int),
        decreases total - k,
    {
        let d: i8 = choose_block_qp_delta(
            m.vars[k],
            m.median,
            settings.aq_strength,
            settings.min_block_qp_delta,
            settings.max_block_qp_delta,
        );
        assert(d == picture_delta(*cur, *settings, cols as int, n, k as int));
        match validate_wire_qp_delta(d) {
            Err(e) => {
                return Err(e);
            },
            Ok(_) => {},
        }
        deltas.push(d);
        k += 1;
    }
    assert forall|j: int| 0 <= j < 4 * n implies delta_on_wire(
        #[trigger] picture_delta(*cur, *settings, cols as int, n, j),
    ) by {
        assert(deltas@[j] == picture_delta(*cur, *settings, cols as int, n, j));
    }
    assert(deltas@ =~= p_deltas(*cur, *settings, cols as int, n));
    Ok(deltas)
}

/// The half-pel refinement radius in use; 0 while refinement is off.
pub open spec fn refinement(s: SrsV2EncodeSettings) -> int {
    if s.subpel_mode == SrsV2SubpelMode::HalfPel {
        least(s.subpel_refinement_radius as int, MAX_SUBPEL_REFINEMENT_RADIUS as int)
    } else {
        0
    }
}

/// The outcome of the whole-pel search of macroblock `i`.
pub open spec fn mb_search(
    cur: VideoPlane<u8>,
    refp: VideoPlane<u8>,
    s: SrsV2EncodeSettings,
    cols: int,
    i: int,
) -> Found {
    search(
        s.motion_search_mode,
        rect_cost(cur, refp, i % cols * 16, i / cols * 16, 16, 16),
        s.search_radius(),
        s.early_exit_sad_threshold as int,
    )
}

/// The vector of macroblock `i` in quarter-pel units: the whole-pel vector, refined.
pub open spec fn mb_vector(
    cur: VideoPlane<u8>,
    refp: VideoPlane<u8>,
    s: SrsV2EncodeSettings,
    cols: int,
    i: int,
) -> (int, int) {
    let f = mb_search(cur, refp, s, cols, i);
    let q = refined(cur, refp, i % cols * 16, i / cols * 16, f.mvx, f.mvy, refinement(s));
    (q.x, q.y)
}

/// The predictions of the macroblocks of a forward picture.
pub open spec fn p_mbs(
    cur: VideoPlane<u8>,
    refp: VideoPlane<u8>,
    s: SrsV2EncodeSettings,
    cols: int,
    n: int,
) -> Seq<InterMb> {
    Seq::new(
        n as nat,
        |i: int|
            forward_mb(
                mb_vector(cur, refp, s, cols, i).0,
                mb_vector(cur, refp, s, cols, i).1,
            ),
    )
}

/// A vector moves.
pub open spec fn moves(mb: InterMb) -> int {
    if mb.mv_aqx != 0 || mb.mv_aqy != 0 {
        1
    } else {
        0
    }
}

/// Refinement changed the vector of a macroblock.
pub open spec fn refined_away(mb: InterMb, f: Found) -> int {
    if mb.mv_aqx != 4 * f.mvx || mb.mv_aqy != 4 * f.mvy {
        1
    } else {
        0
    }
}

/// The counters of a forward picture.
pub open spec fn p_motion_stats(
    before: SrsV2MotionEncodeStats,
    cur: VideoPlane<u8>,
    refp: VideoPlane<u8>,
    s: SrsV2EncodeSettings,
    cols: int,
    n: int,
) -> SrsV2MotionEncodeStats {
    let mbs = p_mbs(cur, refp, s, cols, n);
    let blocks = planned_blocks(mbs, cur, refp, refp, cols, s.enable_skip_blocks);
    SrsV2MotionEncodeStats {
        motion_search_mode: s.motion_search_mode,
        sad_evaluations: total(n, |i: int| mb_search(cur, refp, s, cols, i).evals) as u64,
        skip_subblocks: skipped_among(blocks, 4 * n) as u64,
        nonzero_motion_macroblocks: total(n, |i: int| moves(mbs[i])) as u32,
        sum_mv_l1: total(
            n,
            |i: int| (magnitude(mbs[i].mv_aqx as int) + magnitude(mbs[i].mv_aqy as int)) / 4,
        ) as u64,
        subpel_enabled: s.subpel_mode == SrsV2SubpelMode::HalfPel,
        subpel_blocks_tested: (if refinement(s) > 0 { n } else { 0 }) as u64,
        subpel_blocks_selected: total(
            n,
            |i: int| refined_away(mbs[i], mb_search(cur, refp, s, cols, i)),
        ) as u64,
        additional_subpel_evaluations: (n * (8 * refinement(s))) as u64,
        sum_abs_frac_qpel: total(
            n,
            |i: int| mbs[i].mv_aqx as int % 4 + mbs[i].mv_aqy as int % 4,
        ) as u64,
        ..before
    }
}

/// How many of the first `n` sub-blocks carry no residual.
pub open spec fn skipped_among(blocks: Seq<Option<Seq<i16>>>, n: int) -> int
    decreases n,
{
    if n <= 0 {
        0
    } else {
        skipped_among(blocks, n - 1) + (if blocks[n - 1] is None { 1int } else { 0 })
    }
}

/// Finds the vector of macroblock `i` in quarter-pel units, and whether refinement changed it.
fn pick_mb_vector(
    cur: &VideoPlane<u8>,
    refp: &VideoPlane<u8>,
    settings: &SrsV2EncodeSettings,
    cols: u32,
    rows: u32,
    i: u32,
    evals: &mut u64,
    sub_evals: &mut u64,
    tested: &mut u64,
) -> (r: ((i32, i32), bool))
    requires
        cur.valid(),
        refp.valid(),
        cols * 16 <= cur.width,
        rows * 16 <= cur.height,
        i < cols * rows,
        *old(evals) <= u64::MAX - SEARCH_EVALS_CAP,
        *old(sub_evals) <= u64::MAX - 16,
        *old(tested) < u64::MAX,
    ensures
        ({
            let v = mb_vector(*cur, *refp, *settings, cols as int, i as int);
            let f = mb_search(*cur, *refp, *settings, cols as int, i as int);
            &&& r.0.0 == v.0
            &&& r.0.1 == v.1
            &&& r.1 == (v.0 != 4 * f.mvx || v.1 != 4 * f.mvy)
            &&& *final(evals) == *old(evals) + f.evals
        }),
        *final(evals) <= *old(evals) + SEARCH_EVALS_CAP,
        *final(sub_evals) == *old(sub_evals) + 8 * refinement(*settings),
        *final(tested) == *old(tested) + (if refinement(*settings) > 0 { 1int } else { 0 }),
        r.0.0 % 2 == 0,
        r.0.1 % 2 == 0,
        settings.subpel_mode != SrsV2SubpelMode::HalfPel ==> r.0.0 % 4 == 0 && r.0.1 % 4 == 0,
        magnitude(r.0.0 as int) <= 516,
        magnitude(r.0.1 as int) <= 516,
{
    assert(cols > 0) by (nonlinear_arith)
        requires
            i < cols * rows,
            i >= 0,
            cols >= 0,
    ;
    proof {
        lemma_packed_position(i as int, cols as int, rows as int);
    }
    let mbx: u32 = i % cols;
    let mby: u32 = i / cols;
    let (ix, iy) = pick_mv(
        settings.motion_search_mode,
        cur,
        refp,
        mbx,
        mby,
        settings.clamped_motion_search_radius(),
        settings.early_exit_sad_threshold,
        evals,
    );
    if settings.subpel_mode == SrsV2SubpelMode::HalfPel {
        let radius: u8 = settings.clamped_subpel_refinement_radius();
        let q = refine_half_pel_center(cur, refp, mbx, mby, ix, iy, radius, sub_evals, tested);
        (q, q.0 != ix as i32 * 4 || q.1 != iy as i32 * 4)
    } else {
        ((ix as i32 * 4, iy as i32 * 4), false)
    }
}

/// The plan of a forward picture, and the counters after it.
pub open spec fn p_planned(
    seq: VideoSequenceHeaderV2,
    cur: YuvFrame,
    reference: YuvFrame,
    s: SrsV2EncodeSettings,
    before: SrsV2MotionEncodeStats,
    r: Result<PFramePlan, SrsV2Error>,
    after: SrsV2MotionEncodeStats,
) -> bool {
    let cols = seq.width as int / 16;
    let mbs = p_mbs(cur.y, reference.y, s, cols, mb_count(seq));
    match p_encode_refusal(seq, cur, reference, s) {
        Some(e) => r == Err::<PFramePlan, SrsV2Error>(e) && after == before,
        None => {
            &&& r is Ok
            &&& r->Ok_0.wf(s)
            &&& r->Ok_0.mbs@ == mbs
            &&& planned_view(r->Ok_0.blocks@) == planned_blocks(
                mbs,
                cur.y,
                reference.y,
                reference.y,
                cols,
                s.enable_skip_blocks,
            )
            &&& r->Ok_0.deltas@ == p_deltas(cur.y, s, cols, mb_count(seq))
            &&& after == p_motion_stats(before, cur.y, reference.y, s, cols, mb_count(seq))
        },
    }
}

/// Plans a forward picture: motion search, refinement, and the differences of every sub-block
/// that is not skipped. The counters of the picture go to `ms`.
pub fn plan_p_frame(
    seq: &VideoSequenceHeaderV2,
    cur: &YuvFrame,
    reference: &YuvFrame,
    settings: &SrsV2EncodeSettings,
    ms: &mut SrsV2MotionEncodeStats,
) -> (r: Result<PFramePlan, SrsV2Error>)
    requires
        cur.valid(),
        reference.valid(),
        sends_deltas(*settings) ==> settings.min_block_qp_delta <= settings.max_block_qp_delta,
    ensures
        p_planned(*seq, *cur, *reference, *settings, *old(ms), r, *final(ms)),
{
    if seq.pixel_format != PixelFormat::Yuv420p8 || cur.format != PixelFormat::Yuv420p8
        || reference.format != PixelFormat::Yuv420p8 {
        return Err(SrsV2Error::Unsupported("P-frame encode requires YUV420p8"));
    }
    if seq.max_ref_frames == 0 {
        return Err(SrsV2Error::Unsupported("sequence max_ref_frames must be >= 1 for P-frame"));
    }
    let w: u32 = seq.width;
    let h: u32 = seq.height;
    if w % 16 != 0 || h % 16 != 0 {
        return Err(
            SrsV2Error::Syntax("P-frame prototype requires width and height divisible by 16"),
        );
    }
    if cur.y.width != w || reference.y.width != w || cur.y.height != h || reference.y.height != h {
        return Err(SrsV2Error::Syntax("plane geometry mismatch"));
    }
    let cols: u32 = w / 16;
    let rows: u32 = h / 16;
    assert(cols * rows <= 512 * 512) by (nonlinear_arith)
        requires
            cols <= 512,
            rows <= 512,
    ;
    let n: u32 = cols * rows;
    let deltas = match plan_p_deltas(&cur.y, settings, cols, rows) {
        Err(e) => {
            return Err(e);
        },
        Ok(v) => v,
    };
    let mut mbs: Vec<InterMb> = Vec::with_capacity(n as usize);
    let mut evals: u64 = 0;
    let mut sub_evals: u64 = 0;
    let mut tested: u64 = 0;
    let mut moving: u32 = 0;
    let mut l1: u64 = 0;
    let mut selected: u64 = 0;
    let mut frac: u64 = 0;
    let ghost want = p_mbs(cur.y, reference.y, *settings, cols as int, n as int);
    let ghost g_evals = |i: int|
        mb_search(cur.y, reference.y, *settings, cols as int, i).evals;
    let ghost g_moves = |i: int| moves(want[i]);
    let ghost g_l1 = |i: int|
        (magnitude(want[i].mv_aqx as int) + magnitude(want[i].mv_aqy as int)) / 4;
    let ghost g_selected = |i: int|
        refined_away(want[i], mb_search(cur.y, reference.y, *settings, cols as int, i));
    let ghost g_frac = |i: int| want[i].mv_aqx as int % 4 + want[i].mv_aqy as int % 4;
    let mut i: u32 = 0;
    while i < n
        invariant
            i <= n,
            n == cols * rows,
            n <= 262144,
            cur.valid(),
            reference.valid(),
            cols * 16 == cur.y.width,
            rows * 16 == cur.y.height,
            want == p_mbs(cur.y, reference.y, *settings, cols as int, n as int),
            g_evals == (|i: int|
                mb_search(cur.y, reference.y, *settings, cols as int, i).evals),
            g_moves == (|i: int| moves(want[i])),
            g_l1 == (|i: int|
                (magnitude(want[i].mv_aqx as int) + magnitude(want[i].mv_aqy as int)) / 4),
            g_selected == (|i: int|
                refined_away(
                    want[i],
                    mb_search(cur.y, reference.y, *settings, cols as int, i),
                )),
            g_frac == (|i: int| want[i].mv_aqx as int % 4 + want[i].mv_aqy as int % 4),
            mbs@.len() == i,
            forall|j: int| 0 <= j < i ==> #[trigger] mbs@[j] == want[j],
            forall|j: int|
                0 <= j < i ==> p_carries(
                    #[trigger] mbs@[j],
                    settings.subpel_mode == SrsV2SubpelMode::HalfPel,
                ),
            evals == total(i as int, g_evals),
            evals <= i * SEARCH_EVALS_CAP,
            sub_evals == i * (8 * refinement(*settings)),
            tested == (if refinement(*settings) > 0 { i as int } else { 0 }),
            moving == total(i as int, g_moves),
            moving <= i,
            l1 == total(i as int, g_l1),
            l1 <= 258 * i,
            selected == total(i as int, g_selected),
            selected <= i,
            frac == total(i as int, g_frac),
            frac <= 6 * i,
        decreases n - i,
    {
        assert(i * (8 * refinement(*settings)) <= i * 16 && (i + 1) * (8 * refinement(*settings))
            == i * (8 * refinement(*settings)) + 8 * refinement(*settings)) by (nonlinear_arith)
            requires
                0 <= refinement(*settings) <= 2,
                0 <= i,
        ;
        let (q, away) = pick_mb_vector(
            &cur.y,
            &reference.y,
            settings,
            cols,
            rows,
            i,
            &mut evals,
            &mut sub_evals,
            &mut tested,
        );
        let mb = InterMb {
            blend: BBlendModeWire::ForwardOnly,
            weight_a: 0,
            weight_b: 0,
            mv_aqx: q.0,
            mv_aqy: q.1,
            mv_bqx: 0,
            mv_bqy: 0,
        };
        assert(mb == want[i as int]);
        if q.0 != 0 || q.1 != 0 {
            moving += 1;
        }
        let ax: i32 = if q.0 < 0 { -q.0 } else { q.0 };
        let ay: i32 = if q.1 < 0 { -q.1 } else { q.1 };
        assert(g_l1(i as int) == (ax + ay) / 4);
        l1 = l1 + ((ax + ay) / 4) as u64;
        if away {
            selected += 1;
        }
        let fx: i32 = split_qpel(q.0).1;
        let fy: i32 = split_qpel(q.1).1;
        assert(g_frac(i as int) == fx + fy);
        frac = frac + (fx + fy) as u64;
        assert(g_moves(i as int) == moves(mb));
        assert(g_evals(i as int) == mb_search(
            cur.y,
            reference.y,
            *settings,
            cols as int,
            i as int,
        ).evals);
        assert(g_selected(i as int) == refined_away(
            mb,
            mb_search(cur.y, reference.y, *settings, cols as int, i as int),
        ));
        mbs.push(mb);
        i += 1;
    }
    assert(mbs@ =~= want);
    assert forall|j: int| 0 <= j < mbs@.len() implies (#[trigger] mbs@[j]).wf() by {
        assert(p_carries(mbs@[j], settings.subpel_mode == SrsV2SubpelMode::HalfPel));
    }
    let (blocks, skipped) = plan_p_blocks(
        &cur.y,
        &reference.y,
        mbs.as_slice(),
        cols as usize,
        rows as usize,
        settings.enable_skip_blocks,
    );
    assert(blocks@.len() == planned_view(blocks@).len());
    ms.motion_search_mode = settings.motion_search_mode;
    ms.sad_evaluations = evals;
    ms.skip_subblocks = skipped;
    ms.nonzero_motion_macroblocks = moving;
    ms.sum_mv_l1 = l1;
    ms.subpel_enabled = settings.subpel_mode == SrsV2SubpelMode::HalfPel;
    ms.subpel_blocks_tested = tested;
    ms.subpel_blocks_selected = selected;
    ms.additional_subpel_evaluations = sub_evals;
    ms.sum_abs_frac_qpel = frac;
    Ok(PFramePlan { mbs, blocks, deltas })
}

/// Plans the sub-blocks of a forward picture and counts those that carry no residual.
fn plan_p_blocks(
    cur: &VideoPlane<u8>,
    refp: &VideoPlane<u8>,
    mbs: &[InterMb],
    cols: usize,
    rows: usize,
    allow_skip: bool,
) -> (r: (Vec<Option<[i16; 64]>>, u64))
    requires
        cur.valid(),
        refp.valid(),
        cols * 16 == cur.width,
        rows * 16 == cur.height,
        mbs@.len() == cols * rows,
        mbs@.len() <= 262144,
        forall|j: int| 0 <= j < mbs@.len() ==> (#[trigger] mbs@[j]).wf(),
    ensures
        planned_view(r.0@) == planned_blocks(mbs@, *cur, *refp, *refp, cols as int, allow_skip),
        r.1 == skipped_among(
            planned_blocks(mbs@, *cur, *refp, *refp, cols as int, allow_skip),
            4 * mbs@.len() as int,
        ),
{
    let n: usize = 4 * mbs.len();
    let mut blocks: Vec<Option<[i16; 64]>> = Vec::with_capacity(n);
    let mut skipped: u64 = 0;
    let ghost want = planned_blocks(mbs@, *cur, *refp, *refp, cols as int, allow_skip);
    let mut k: usize = 0;
    while k < n
        invariant
            k <= n,
            n == 4 * mbs@.len(),
            n == 4 * (cols * rows),
            cur.valid(),
            refp.valid(),
            cols * 16 == cur.width,
            rows * 16 == cur.height,
            forall|j: int| 0 <= j < mbs@.len() ==> (#[trigger] mbs@[j]).wf(),
            want == planned_blocks(mbs@, *cur, *refp, *refp, cols as int, allow_skip),
            blocks@.len() == k,
            forall|j: int| 0 <= j < k ==> planned_view(blocks@)[j] == #[trigger] want[j],
            skipped == skipped_among(want, k as int),
            skipped <= k,
        decreases n - k,
    {
        let ghost before = blocks@;
        let b = plan_block(&mbs[k / 4], cur, refp, refp, cols, rows, allow_skip, k);
        if b.is_none() {
            skipped += 1;
        }
        blocks.push(b);
        assert forall|j: int| 0 <= j < k + 1 implies planned_view(blocks@)[j]
            == #[trigger] want[j] by {
            if j < k {
                assert(planned_view(blocks@)[j] == planned_view(before)[j]);
            } else {
                assert(want[j] == planned_block(
                    mbs@[k as int / 4],
                    *cur,
                    *refp,
                    *refp,
                    cols as int,
                    allow_skip,
                    k as int,
                ));
            }
        }
        k += 1;
    }
    assert(planned_view(blocks@) =~= want);
    (blocks, skipped)
}

/// The magic of a forward payload under the settings of an encoder run.
pub open spec fn p_magic(s: SrsV2EncodeSettings) -> [u8; 4] {
    if s.subpel_mode == SrsV2SubpelMode::HalfPel {
        if s.residual_entropy == ResidualEntropy::Explicit {
            FRAME_PAYLOAD_MAGIC_P_SUBPEL
        } else if sends_deltas(s) {
            FRAME_PAYLOAD_MAGIC_P_SUBPEL_BLOCK_AQ
        } else {
            FRAME_PAYLOAD_MAGIC_P_SUBPEL_ENTROPY
        }
    } else {
        if s.residual_entropy == ResidualEntropy::Explicit {
            FRAME_PAYLOAD_MAGIC_P
        } else if sends_deltas(s) {
            FRAME_PAYLOAD_MAGIC_P_BLOCK_AQ
        } else {
            FRAME_PAYLOAD_MAGIC_P_ENTROPY
        }
    }
}

/// The fixed fields of a forward payload: magic, picture number, QP and, where block deltas
/// follow, the range that shifted QPs are brought into.
pub open spec fn p_fixed(s: SrsV2EncodeSettings, frame_index: int, qp: int) -> Seq<u8> {
    p_magic(s)@ + bytes32(frame_index) + seq![qp as u8] + (if sends_deltas(s) {
        seq![s.min_qp, s.max_qp]
    } else {
        seq![]
    })
}

/// The bytes of a motion vector.
pub open spec fn p_vector_bytes(mb: InterMb, qpel: bool) -> Seq<u8> {
    if qpel {
        bytes32(unsigned32(mb.mv_aqx as int)) + bytes32(unsigned32(mb.mv_aqy as int))
    } else {
        bytes16(unsigned16(tdiv(mb.mv_aqx as int, 4))) + bytes16(
            unsigned16(tdiv(mb.mv_aqy as int, 4)),
        )
    }
}

/// The bytes of macroblock `i`: vector, skip bits, chunks.
pub open spec fn p_mb_bytes(
    mbs: Seq<InterMb>,
    planned: Seq<Option<Seq<i16>>>,
    coded: Seq<CodedResidual>,
    deltas: Seq<i8>,
    qp: int,
    qpel: bool,
    i: int,
) -> Result<Seq<u8>, SrsV2Error> {
    match coding_failure(planned, coded, 4 * i, 4) {
        Some(e) => Err(e),
        None => match framed_chunks(
            planned,
            coded,
            deltas,
            qp,
            4 * i,
            4,
            SrsV2Error::Overflow("chunk"),
        ) {
            Err(e) => Err(e),
            Ok(c) => Ok(
                p_vector_bytes(mbs[i], qpel) + seq![pattern_of(planned, 4 * i, 4) as u8] + c,
            ),
        },
    }
}

/// The bytes of the first `n` macroblocks.
pub open spec fn p_body(
    mbs: Seq<InterMb>,
    planned: Seq<Option<Seq<i16>>>,
    coded: Seq<CodedResidual>,
    deltas: Seq<i8>,
    qp: int,
    qpel: bool,
    n: int,
) -> Result<Seq<u8>, SrsV2Error>
    decreases n,
{
    if n <= 0 {
        Ok(seq![])
    } else {
        match p_body(mbs, planned, coded, deltas, qp, qpel, n - 1) {
            Err(e) => Err(e),
            Ok(before) => match p_mb_bytes(mbs, planned, coded, deltas, qp, qpel, n - 1) {
                Err(e) => Err(e),
                Ok(b) => Ok(before + b),
            },
        }
    }
}

proof fn lemma_p_body_error(
    mbs: Seq<InterMb>,
    planned: Seq<Option<Seq<i16>>>,
    coded: Seq<CodedResidual>,
    deltas: Seq<i8>,
    qp: int,
    qpel: bool,
    k: int,
    n: int,
)
    requires
        k <= n,
        p_body(mbs, planned, coded, deltas, qp, qpel, k) is Err,
    ensures
        p_body(mbs, planned, coded, deltas, qp, qpel, n) == p_body(mbs, planned, coded, deltas, qp, qpel, k),
        p_reached(mbs, planned, coded, deltas, qp, qpel, n) == p_reached(
            mbs,
            planned,
            coded,
            deltas,
            qp,
            qpel,
            k,
        ),
    decreases n - k,
{
    if k < n {
        lemma_p_body_error(mbs, planned, coded, deltas, qp, qpel, k, n - 1);
    }
}

/// How many of sub-blocks `base` up to `base + m` come before the first that failed.
pub open spec fn before_failure(
    planned: Seq<Option<Seq<i16>>>,
    coded: Seq<CodedResidual>,
    base: int,
    m: int,
) -> int
    decreases m,
{
    if m <= 0 {
        0
    } else if coding_failure(planned, coded, base, m - 1) is Some {
        before_failure(planned, coded, base, m - 1)
    } else if coding_failure(planned, coded, base, m) is Some {
        m - 1
    } else {
        m
    }
}

/// How many sub-blocks are coded before the encoder stops.
pub open spec fn p_reached(
    mbs: Seq<InterMb>,
    planned: Seq<Option<Seq<i16>>>,
    coded: Seq<CodedResidual>,
    deltas: Seq<i8>,
    qp: int,
    qpel: bool,
    n: int,
) -> int
    decreases n,
{
    if n <= 0 {
        0
    } else if p_body(mbs, planned, coded, deltas, qp, qpel, n - 1) is Err {
        p_reached(mbs, planned, coded, deltas, qp, qpel, n - 1)
    } else {
        4 * (n - 1) + before_failure(planned, coded, 4 * (n - 1), 4)
    }
}

/// The chunk is entropy-coded.
pub open spec fn is_rans(c: CodedResidual) -> bool {
    c matches CodedResidual::Chunk { rans, .. } && rans
}

/// How many of the first `n` sub-blocks carry a chunk that is (`rans`) or is not entropy-coded.
pub open spec fn chunks_among(
    planned: Seq<Option<Seq<i16>>>,
    coded: Seq<CodedResidual>,
    rans: bool,
    n: int,
) -> int
    decreases n,
{
    if n <= 0 {
        0
    } else {
        chunks_among(planned, coded, rans, n - 1) + (if planned[n - 1] is Some && is_rans(
            coded[n - 1],
        ) == rans {
            1int
        } else {
            0
        })
    }
}

/// A forward payload.
pub open spec fn p_payload(
    s: SrsV2EncodeSettings,
    frame_index: int,
    qp: int,
    mbs: Seq<InterMb>,
    planned: Seq<Option<Seq<i16>>>,
    coded: Seq<CodedResidual>,
    deltas: Seq<i8>,
) -> Result<Seq<u8>, SrsV2Error> {
    let qpel = s.subpel_mode == SrsV2SubpelMode::HalfPel;
    match p_body(mbs, planned, coded, deltas, step_of(qp), qpel, mbs.len() as int) {
        Err(e) => Err(e),
        Ok(body) => {
            let bytes = p_fixed(s, frame_index, qp) + body;
            if bytes.len() > MAX_FRAME_PAYLOAD_BYTES {
                Err(SrsV2Error::AllocationLimit { context: "encoded P-frame" })
            } else {
                Ok(bytes)
            }
        },
    }
}

/// Every planned residual was treated as the settings ask: tuples in explicit mode, chunks
/// otherwise.
pub open spec fn coded_as_asked(
    s: SrsV2EncodeSettings,
    planned: Seq<Option<Seq<i16>>>,
    coded: Seq<CodedResidual>,
) -> bool {
    &&& coded.len() == planned.len()
    &&& forall|k: int|
        0 <= k < coded.len() && #[trigger] planned[k] is Some ==> ((coded[k] is Coefficients)
            == (s.residual_entropy == ResidualEntropy::Explicit))
}

/// Counts the coded sub-blocks of a macroblock, up to the first that failed.
fn count_chunks(
    planned: &[Option<[i16; 64]>],
    coded: &[CodedResidual],
    base: usize,
    stats: &mut ResidualEncodeStats,
) -> (r: Option<SrsV2Error>)
    requires
        base + 4 <= planned@.len(),
        coded@.len() == planned@.len(),
        old(stats).p_explicit_chunks <= u64::MAX - 4,
        old(stats).p_rans_chunks <= u64::MAX - 4,
    ensures
        r == coding_failure(planned_view(planned@), coded@, base as int, 4),
        ({
            let p = planned_view(planned@);
            let m = base + before_failure(p, coded@, base as int, 4);
            *final(stats) == counted(*old(stats), p, coded@, base as int, m)
        }),
        final(stats).p_explicit_chunks <= old(stats).p_explicit_chunks + 4,
        final(stats).p_rans_chunks <= old(stats).p_rans_chunks + 4,
{
    let ghost p = planned_view(planned@);
    let ghost c = coded@;
    proof {
        reveal_with_fuel(coding_failure, 5);
        reveal_with_fuel(before_failure, 5);
    }
    let count: usize = planned.len();
    let mut i: usize = 0;
    while i < 4
        invariant
            i <= 4,
            base + 4 <= count,
            count == planned@.len(),
            coded@.len() == planned@.len(),
            p == planned_view(planned@),
            c == coded@,
            old(stats).p_explicit_chunks <= u64::MAX - 4,
            old(stats).p_rans_chunks <= u64::MAX - 4,
            coding_failure(p, c, base as int, i as int) is None,
            stats.p_explicit_chunks == old(stats).p_explicit_chunks + chunks_among(
                p,
                c,
                false,
                base + i,
            ) - chunks_among(p, c, false, base as int),
            stats.p_rans_chunks == old(stats).p_rans_chunks + chunks_among(p, c, true, base + i)
                - chunks_among(p, c, true, base as int),
            stats.p_explicit_chunks <= old(stats).p_explicit_chunks + i,
            stats.p_rans_chunks <= old(stats).p_rans_chunks + i,
            stats.intra_explicit_blocks == old(stats).intra_explicit_blocks,
            stats.intra_rans_blocks == old(stats).intra_rans_blocks,
            stats.residual_context_enabled == old(stats).residual_context_enabled,
        decreases 4 - i,
    {
        if planned[base + i].is_some() {
            match &coded[base + i] {
                CodedResidual::Failed(e) => {
                    proof {
                        reveal_with_fuel(coding_failure, 5);
                        reveal_with_fuel(before_failure, 5);
                    }
                    return Some(*e);
                },
                CodedResidual::Coefficients(_) => {
                    stats.p_explicit_chunks = stats.p_explicit_chunks + 1;
                },
                CodedResidual::Chunk { rans, .. } => {
                    if *rans {
                        stats.p_rans_chunks = stats.p_rans_chunks + 1;
                    } else {
                        stats.p_explicit_chunks = stats.p_explicit_chunks + 1;
                    }
                },
            }
        }
        i += 1;
    }
    proof {
        reveal_with_fuel(coding_failure, 5);
        reveal_with_fuel(before_failure, 5);
    }
    None
}

fn push_vector(out: &mut Vec<u8>, mb: &InterMb, qpel: bool)
    requires
        mb.wf(),
    ensures
        final(out)@ == old(out)@ + p_vector_bytes(*mb, qpel),
{
    if qpel {
        push_i32(out, mb.mv_aqx);
        push_i32(out, mb.mv_aqy);
    } else {
        push_i16(out, (mb.mv_aqx / 4) as i16);
        push_i16(out, (mb.mv_aqy / 4) as i16);
    }
    assert(out@ =~= old(out)@ + p_vector_bytes(*mb, qpel));
}

/// The counters after sub-blocks up to `m` were coded, of which those up to `base` were counted
/// before.
pub open spec fn counted(
    before: ResidualEncodeStats,
    planned: Seq<Option<Seq<i16>>>,
    coded: Seq<CodedResidual>,
    base: int,
    m: int,
) -> ResidualEncodeStats {
    ResidualEncodeStats {
        p_explicit_chunks: (before.p_explicit_chunks + chunks_among(planned, coded, false, m)
            - chunks_among(planned, coded, false, base)) as u64,
        p_rans_chunks: (before.p_rans_chunks + chunks_among(planned, coded, true, m)
            - chunks_among(planned, coded, true, base)) as u64,
        ..before
    }
}

fn write_p_mb(
    out: &mut Vec<u8>,
    plan: &PFramePlan,
    coded: &[CodedResidual],
    qp: i16,
    qpel: bool,
    i: usize,
    stats: &mut ResidualEncodeStats,
) -> (r: Result<(), SrsV2Error>)
    requires
        i < plan.mbs@.len(),
        plan.mbs@.len() <= 262144,
        plan.blocks@.len() == 4 * plan.mbs@.len(),
        coded@.len() == plan.blocks@.len(),
        plan.mbs@[i as int].wf(),
        old(stats).p_explicit_chunks <= u64::MAX - 4,
        old(stats).p_rans_chunks <= u64::MAX - 4,
    ensures
        ({
            let p = planned_view(plan.blocks@);
            match p_mb_bytes(plan.mbs@, p, coded@, plan.deltas@, qp as int, qpel, i as int) {
                Err(e) => r == Err::<(), SrsV2Error>(e),
                Ok(b) => r is Ok && final(out)@ == old(out)@ + b,
            }
        }),
        *final(stats) == counted(
            *old(stats),
            planned_view(plan.blocks@),
            coded@,
            4 * i,
            4 * i + before_failure(planned_view(plan.blocks@), coded@, 4 * i, 4),
        ),
        final(stats).p_explicit_chunks <= old(stats).p_explicit_chunks + 4,
        final(stats).p_rans_chunks <= old(stats).p_rans_chunks + 4,
{
    let ghost p = planned_view(plan.blocks@);
    match count_chunks(plan.blocks.as_slice(), coded, 4 * i, stats) {
        Some(e) => {
            return Err(e);
        },
        None => {},
    }
    push_vector(out, &plan.mbs[i], qpel);
    proof {
        lemma_pattern(p, 4 * i);
    }
    out.push(skip_pattern(plan.blocks.as_slice(), 4 * i));
    match append_chunks(
        out,
        plan.blocks.as_slice(),
        coded,
        plan.deltas.as_slice(),
        qp,
        4 * i,
        SrsV2Error::Overflow("chunk"),
    ) {
        Err(e) => Err(e),
        Ok(_) => {
            assert(out@ =~= old(out)@ + p_mb_bytes(
                plan.mbs@,
                p,
                coded@,
                plan.deltas@,
                qp as int,
                qpel,
                i as int,
            )->Ok_0);
            Ok(())
        },
    }
}

/// Encodes a planned forward picture, given what became of the residual of every sub-block.
/// Sub-blocks without a planned residual are passed over. The counters of coded chunks go to
/// `stats`; an encoder that stops early has counted the sub-blocks before that.
pub fn encode_yuv420_p_payload(
    plan: &PFramePlan,
    frame_index: u32,
    qp: u8,
    settings: &SrsV2EncodeSettings,
    coded: &[CodedResidual],
    stats: &mut ResidualEncodeStats,
) -> (r: Result<Vec<u8>, SrsV2Error>)
    requires
        plan.wf(*settings),
        coded_as_asked(*settings, planned_view(plan.blocks@), coded@),
        old(stats).p_explicit_chunks <= u64::MAX - 1048576,
        old(stats).p_rans_chunks <= u64::MAX - 1048576,
    ensures
        match p_payload(
            *settings,
            frame_index as int,
            qp as int,
            plan.mbs@,
            planned_view(plan.blocks@),
            coded@,
            plan.deltas@,
        ) {
            Err(e) => r == Err::<Vec<u8>, SrsV2Error>(e),
            Ok(b) => r is Ok && r->Ok_0@ == b,
        },
        ({
            let p = planned_view(plan.blocks@);
            let m = p_reached(
                plan.mbs@,
                p,
                coded@,
                plan.deltas@,
                step_of(qp as int),
                settings.subpel_mode == SrsV2SubpelMode::HalfPel,
                plan.mbs@.len() as int,
            );
            *final(stats) == counted(*old(stats), p, coded@, 0, m)
        }),
{
    let qp_i: i16 = if qp < 1 { 1 } else { qp as i16 };
    let qpel = settings.subpel_mode == SrsV2SubpelMode::HalfPel;
    let explicit = settings.residual_entropy == ResidualEntropy::Explicit;
    let deltas = sends_block_deltas(settings);
    let magic: [u8; 4] = if qpel {
        if explicit {
            FRAME_PAYLOAD_MAGIC_P_SUBPEL
        } else if deltas {
            FRAME_PAYLOAD_MAGIC_P_SUBPEL_BLOCK_AQ
        } else {
            FRAME_PAYLOAD_MAGIC_P_SUBPEL_ENTROPY
        }
    } else if explicit {
        FRAME_PAYLOAD_MAGIC_P
    } else if deltas {
        FRAME_PAYLOAD_MAGIC_P_BLOCK_AQ
    } else {
        FRAME_PAYLOAD_MAGIC_P_ENTROPY
    };
    let mut out: Vec<u8> = Vec::new();
    push_all(&mut out, magic.as_slice());
    push_u32(&mut out, frame_index);
    out.push(qp);
    if deltas {
        out.push(settings.min_qp);
        out.push(settings.max_qp);
    }
    let ghost head = p_fixed(*settings, frame_index as int, qp as int);
    assert(out@ =~= head + Seq::<u8>::empty());
    let ghost p = planned_view(plan.blocks@);
    assert forall|j: int| 0 <= j < plan.mbs@.len() implies (#[trigger] plan.mbs@[j]).wf() by {
        assert(p_carries(plan.mbs@[j], settings.subpel_mode == SrsV2SubpelMode::HalfPel));
    }
    let n: usize = plan.mbs.len();
    let mut i: usize = 0;
    while i < n
        invariant
            i <= n,
            n == plan.mbs@.len(),
            n <= 262144,
            plan.blocks@.len() == 4 * n,
            coded@.len() == plan.blocks@.len(),
            forall|i: int| 0 <= i < plan.mbs@.len() ==> (#[trigger] plan.mbs@[i]).wf(),
            p == planned_view(plan.blocks@),
            qp_i == step_of(qp as int),
            qpel == (settings.subpel_mode == SrsV2SubpelMode::HalfPel),
            old(stats).p_explicit_chunks <= u64::MAX - 1048576,
            old(stats).p_rans_chunks <= u64::MAX - 1048576,
            p_body(plan.mbs@, p, coded@, plan.deltas@, qp_i as int, qpel, i as int) is Ok,
            out@ == head + p_body(plan.mbs@, p, coded@, plan.deltas@, qp_i as int, qpel, i as int)->Ok_0,
            p_reached(plan.mbs@, p, coded@, plan.deltas@, qp_i as int, qpel, i as int) == 4 * i,
            *stats == counted(*old(stats), p, coded@, 0, 4 * i),
            stats.p_explicit_chunks <= old(stats).p_explicit_chunks + 4 * i,
            stats.p_rans_chunks <= old(stats).p_rans_chunks + 4 * i,
        decreases n - i,
    {
        let ghost before = p_body(plan.mbs@, p, coded@, plan.deltas@, qp_i as int, qpel, i as int)->Ok_0;
        let ghost bytes = p_mb_bytes(plan.mbs@, p, coded@, plan.deltas@, qp_i as int, qpel, i as int)->Ok_0;
        proof {
            lemma_p_step(*old(stats), plan.mbs@, p, coded@, plan.deltas@, qp_i as int, qpel, i as int);
            append_is_associative(head, before, bytes);
        }
        match write_p_mb(&mut out, plan, coded, qp_i, qpel, i, stats) {
            Err(e) => {
                proof {
                    lemma_p_body_error(
                        plan.mbs@,
                        p,
                        coded@,
                        plan.deltas@,
                        qp_i as int,
                        qpel,
                        i + 1,
                        n as int,
                    );
                }
                return Err(e);
            },
            Ok(_) => {},
        }
        i += 1;
    }
    if out.len() > MAX_FRAME_PAYLOAD_BYTES {
        return Err(SrsV2Error::AllocationLimit { context: "encoded P-frame" });
    }
    Ok(out)
}

/// One more macroblock: what it adds to the bytes, to the sub-blocks reached and to the counters.
proof fn lemma_p_step(
    before: ResidualEncodeStats,
    mbs: Seq<InterMb>,
    planned: Seq<Option<Seq<i16>>>,
    coded: Seq<CodedResidual>,
    deltas: Seq<i8>,
    qp: int,
    qpel: bool,
    i: int,
)
    requires
        0 <= i < 262144,
        p_body(mbs, planned, coded, deltas, qp, qpel, i) is Ok,
        before.p_explicit_chunks <= u64::MAX - 1048576,
        before.p_rans_chunks <= u64::MAX - 1048576,
    ensures
        p_body(mbs, planned, coded, deltas, qp, qpel, i + 1) == match p_mb_bytes(
            mbs,
            planned,
            coded,
            deltas,
            qp,
            qpel,
            i,
        ) {
            Err(e) => Err::<Seq<u8>, SrsV2Error>(e),
            Ok(b) => Ok(p_body(mbs, planned, coded, deltas, qp, qpel, i)->Ok_0 + b),
        },
        p_reached(mbs, planned, coded, deltas, qp, qpel, i + 1) == 4 * i + before_failure(
            planned,
            coded,
            4 * i,
            4,
        ),
        p_mb_bytes(mbs, planned, coded, deltas, qp, qpel, i) is Ok ==> before_failure(
            planned,
            coded,
            4 * i,
            4,
        ) == 4,
        counted(
            counted(before, planned, coded, 0, 4 * i),
            planned,
            coded,
            4 * i,
            4 * i + before_failure(planned, coded, 4 * i, 4),
        ) == counted(
            before,
            planned,
            coded,
            0,
            4 * i + before_failure(planned, coded, 4 * i, 4),
        ),
{
    lemma_before_failure(planned, coded, 4 * i, 4);
    lemma_counted_twice(
        before,
        planned,
        coded,
        4 * i,
        4 * i + before_failure(planned, coded, 4 * i, 4),
    );
}

proof fn lemma_chunks_between(
    planned: Seq<Option<Seq<i16>>>,
    coded: Seq<CodedResidual>,
    rans: bool,
    k: int,
    n: int,
)
    requires
        0 <= k <= n,
    ensures
        0 <= chunks_among(planned, coded, rans, n) - chunks_among(planned, coded, rans, k) <= n
            - k,
    decreases n - k,
{
    if n > k {
        lemma_chunks_between(planned, coded, rans, k, n - 1);
    }
}

/// Counting in two steps counts everything once.
proof fn lemma_counted_twice(
    before: ResidualEncodeStats,
    planned: Seq<Option<Seq<i16>>>,
    coded: Seq<CodedResidual>,
    k: int,
    n: int,
)
    requires
        0 <= k <= n <= 1048576,
        before.p_explicit_chunks <= u64::MAX - 1048576,
        before.p_rans_chunks <= u64::MAX - 1048576,
    ensures
        counted(counted(before, planned, coded, 0, k), planned, coded, k, n) == counted(
            before,
            planned,
            coded,
            0,
            n,
        ),
{
    lemma_chunks_between(planned, coded, false, 0, k);
    lemma_chunks_between(planned, coded, true, 0, k);
    lemma_chunks_between(planned, coded, false, k, n);
    lemma_chunks_between(planned, coded, true, k, n);
}

proof fn lemma_before_failure(
    planned: Seq<Option<Seq<i16>>>,
    coded: Seq<CodedResidual>,
    base: int,
    m: int,
)
    requires
        0 <= m,
    ensures
        0 <= before_failure(planned, coded, base, m) <= m,
        coding_failure(planned, coded, base, m) is None ==> before_failure(
            planned,
            coded,
            base,
            m,
        ) == m,
    decreases m,
{
    if m > 0 {
        lemma_before_failure(planned, coded, base, m - 1);
    }
}

/// The head of macroblock `i`: vector and skip bits.
pub open spec fn p_head(
    mbs: Seq<InterMb>,
    planned: Seq<Option<Seq<i16>>>,
    qpel: bool,
    i: int,
) -> Seq<u8> {
    p_vector_bytes(mbs[i], qpel) + seq![pattern_of(planned, 4 * i, 4) as u8]
}

/// A macroblock that a forward payload can carry: predicted from the first reference alone, by a
/// vector of the grid that the revision carries.
pub open spec fn p_carries(mb: InterMb, qpel: bool) -> bool {
    &&& mb == forward_mb(mb.mv_aqx as int, mb.mv_aqy as int)
    &&& mb.wf()
    &&& if qpel {
        qpel_refusal(mb.mv_aqx as int, mb.mv_aqy as int) is None
    } else {
        mb.mv_aqx % 4 == 0 && mb.mv_aqy % 4 == 0
    }
}

proof fn lemma_fields32(pre: Seq<u8>, x: int, y: int, post: Seq<u8>)
    requires
        -2147483648 <= x < 2147483648,
        -2147483648 <= y < 2147483648,
    ensures
        ({
            let d = pre + (bytes32(unsigned32(x)) + bytes32(unsigned32(y))) + post;
            &&& take_i32(d, pre.len() as int) == (Read::<int> {
                value: Ok(x),
                next: (pre.len() + 4) as int,
            })
            &&& take_i32(d, (pre.len() + 4) as int) == (Read::<int> {
                value: Ok(y),
                next: (pre.len() + 8) as int,
            })
        }),
{
    let a = bytes32(unsigned32(x));
    let b = bytes32(unsigned32(y));
    le32_reads_bytes32(pre, unsigned32(x), b + post);
    assert(pre + a + (b + post) =~= pre + (a + b) + post);
    le32_reads_bytes32(pre + a, unsigned32(y), post);
    assert(pre + a + b + post =~= pre + (a + b) + post);
}

proof fn lemma_fields16(pre: Seq<u8>, x: int, y: int, post: Seq<u8>)
    requires
        -32768 <= x < 32768,
        -32768 <= y < 32768,
    ensures
        ({
            let d = pre + (bytes16(unsigned16(x)) + bytes16(unsigned16(y))) + post;
            &&& take_i16(d, pre.len() as int) == (Read::<int> {
                value: Ok(x),
                next: (pre.len() + 2) as int,
            })
            &&& take_i16(d, (pre.len() + 2) as int) == (Read::<int> {
                value: Ok(y),
                next: (pre.len() + 4) as int,
            })
        }),
{
    let a = bytes16(unsigned16(x));
    let b = bytes16(unsigned16(y));
    le16_reads_bytes16(pre, unsigned16(x), b + post);
    assert(pre + a + (b + post) =~= pre + (a + b) + post);
    le16_reads_bytes16(pre + a, unsigned16(y), post);
    assert(pre + a + b + post =~= pre + (a + b) + post);
}

/// A head that was written is read back.
proof fn lemma_p_head(pre: Seq<u8>, mb: InterMb, pattern: int, post: Seq<u8>, qpel: bool)
    requires
        p_carries(mb, qpel),
        0 <= pattern < 16,
    ensures
        p_header(
            pre + (p_vector_bytes(mb, qpel) + seq![pattern as u8]) + post,
            qpel,
            pre.len() as int,
        ) == (Read::<(InterMb, int)> {
            value: Ok((mb, pattern)),
            next: (pre.len() + p_vector_bytes(mb, qpel).len() + 1) as int,
        }),
{
    let v = p_vector_bytes(mb, qpel);
    let tail = seq![pattern as u8] + post;
    let d = pre + (v + seq![pattern as u8]) + post;
    assert(d =~= pre + v + tail);
    if qpel {
        lemma_fields32(pre, mb.mv_aqx as int, mb.mv_aqy as int, tail);
    } else {
        lemma_fields16(pre, tdiv(mb.mv_aqx as int, 4), tdiv(mb.mv_aqy as int, 4), tail);
    }
    assert(d[(pre.len() + v.len()) as int] == pattern as u8);
}

proof fn lemma_p_body_is_stream(
    mbs: Seq<InterMb>,
    planned: Seq<Option<Seq<i16>>>,
    coded: Seq<CodedResidual>,
    deltas: Seq<i8>,
    heads: Seq<Seq<u8>>,
    qp: int,
    qpel: bool,
    n: int,
)
    requires
        0 <= n <= mbs.len(),
        heads == Seq::new(mbs.len(), |i: int| p_head(mbs, planned, qpel, i)),
        p_body(mbs, planned, coded, deltas, qp, qpel, n) is Ok,
    ensures
        p_body(mbs, planned, coded, deltas, qp, qpel, n)->Ok_0 == mb_stream(
            heads,
            planned,
            coded,
            deltas,
            qp,
            SrsV2Error::Overflow("chunk"),
            n,
        ),
        forall|i: int|
            0 <= i < n ==> (#[trigger] framed_chunks(
                planned,
                coded,
                deltas,
                qp,
                4 * i,
                4,
                SrsV2Error::Overflow("chunk"),
            )) is Ok,
    decreases n,
{
    if n > 0 {
        lemma_p_body_is_stream(mbs, planned, coded, deltas, heads, qp, qpel, n - 1);
        let before = p_body(mbs, planned, coded, deltas, qp, qpel, n - 1)->Ok_0;
        let c = framed_chunks(
            planned,
            coded,
            deltas,
            qp,
            4 * (n - 1),
            4,
            SrsV2Error::Overflow("chunk"),
        )->Ok_0;
        append_is_associative(before, heads[n - 1], c);
    }
}

/// The fixed fields of a forward payload are read back.
proof fn lemma_p_prefix(s: SrsV2EncodeSettings, frame_index: int, qp: int, body: Seq<u8>)
    requires
        0 <= frame_index < 4294967296,
        0 <= qp < 256,
    ensures
        ({
            let bytes = p_fixed(s, frame_index, qp) + body;
            &&& le32(bytes, 4) == frame_index
            &&& bytes[8] == qp
            &&& p_is_qpel(bytes) == (s.subpel_mode == SrsV2SubpelMode::HalfPel)
            &&& p_style(bytes) == (ChunkStyle {
                label: "p residual chunk",
                entropy: s.residual_entropy != ResidualEntropy::Explicit,
                qp: step_of(qp),
                deltas: if sends_deltas(s) {
                    Some(DeltaRange { base: qp as u8, clip_min: s.min_qp, clip_max: s.max_qp })
                } else {
                    None
                },
            })
            &&& p_fixed(s, frame_index, qp).len() == p_start(bytes)
        }),
{
    let bytes = p_fixed(s, frame_index, qp) + body;
    let clip_bytes = if sends_deltas(s) {
        seq![s.min_qp, s.max_qp]
    } else {
        seq![]
    };
    let tail = seq![qp as u8] + clip_bytes + body;
    le32_reads_bytes32(p_magic(s)@, frame_index, tail);
    assert(p_magic(s)@ + bytes32(frame_index) + tail =~= bytes);
    assert(bytes[3] == p_magic(s)@[3]);
    assert(bytes[8] == qp as u8);
    if sends_deltas(s) {
        assert(bytes[9] == s.min_qp);
        assert(bytes[10] == s.max_qp);
    }
}

/// Every head of a forward payload reads back.
proof fn lemma_p_heads(c: StreamCase, qpel: bool)
    requires
        c.data == c.pre + c.stream(c.mbs.len() as int),
        c.header == (|cur: int, i: int| p_header(c.data, qpel, cur)),
        c.heads == Seq::new(c.mbs.len(), |i: int| p_head(c.mbs, c.planned, qpel, i)),
        forall|i: int| 0 <= i < c.mbs.len() ==> p_carries(#[trigger] c.mbs[i], qpel),
    ensures
        forall|i: int|
            0 <= i < c.mbs.len() ==> #[trigger] (c.header)(c.offset(i), i) == (Read::<
                (InterMb, int),
            > {
                value: Ok((c.mbs[i], pattern_of(c.planned, 4 * i, 4))),
                next: c.offset(i) + c.heads[i].len(),
            }),
{
    assert forall|i: int| 0 <= i < c.mbs.len() implies #[trigger] (c.header)(c.offset(i), i) == (
    Read::<(InterMb, int)> {
        value: Ok((c.mbs[i], pattern_of(c.planned, 4 * i, 4))),
        next: c.offset(i) + c.heads[i].len(),
    }) by {
        lemma_pattern(c.planned, 4 * i);
        let post = lemma_after_head(c, i);
        assert(p_carries(c.mbs[i], qpel));
        lemma_p_head(c.pre + c.stream(i), c.mbs[i], pattern_of(c.planned, 4 * i, 4), post, qpel);
    }
}

/// Reading a forward payload gives back the picture number, the quantizer and the macroblocks it
/// was written from; every sub-block recovers its residual and the QP that it was quantized with, and
/// the payload is not broken.
pub proof fn p_payload_round_trip(
    seq: VideoSequenceHeaderV2,
    s: SrsV2EncodeSettings,
    frame_index: int,
    qp: int,
    mbs: Seq<InterMb>,
    planned: Seq<Option<Seq<i16>>>,
    coded: Seq<CodedResidual>,
    deltas: Seq<i8>,
)
    requires
        p_payload(s, frame_index, qp, mbs, planned, coded, deltas) is Ok,
        0 <= frame_index < 4294967296,
        0 <= qp < 256,
        mbs.len() == mb_count(seq),
        planned.len() == 4 * mbs.len(),
        coded_as_asked(s, planned, coded),
        deltas_fit(s, deltas, planned.len() as int),
        forall|k: int|
            0 <= k < coded.len() && #[trigger] planned[k] is Some ==> !(coded[k] is Failed),
        forall|i: int|
            0 <= i < mbs.len() ==> p_carries(
                #[trigger] mbs[i],
                s.subpel_mode == SrsV2SubpelMode::HalfPel,
            ),
    ensures
        ({
            let bytes = p_payload(s, frame_index, qp, mbs, planned, coded, deltas)->Ok_0;
            let st = p_reading(seq, bytes);
            &&& le32(bytes, 4) == frame_index
            &&& bytes[8] == qp
            &&& st.fault is None
            &&& st.mbs == mbs
            &&& st.blocks.len() == planned.len()
            &&& forall|k: int|
                0 <= k < planned.len() ==> recovers(
                    bytes,
                    p_block_qp(s, qp, deltas, k),
                    planned[k],
                    coded[k],
                    #[trigger] st.blocks[k],
                )
        }),
{
    let bytes = p_payload(s, frame_index, qp, mbs, planned, coded, deltas)->Ok_0;
    let qpel = s.subpel_mode == SrsV2SubpelMode::HalfPel;
    let n = mbs.len() as int;
    let pre = p_fixed(s, frame_index, qp);
    let heads = Seq::new(mbs.len(), |i: int| p_head(mbs, planned, qpel, i));
    let body = p_body(mbs, planned, coded, deltas, step_of(qp), qpel, n)->Ok_0;
    lemma_p_body_is_stream(mbs, planned, coded, deltas, heads, step_of(qp), qpel, n);
    lemma_p_prefix(s, frame_index, qp, body);
    let c = StreamCase {
        header: |cur: int, i: int| p_header(bytes, p_is_qpel(bytes), cur),
        data: bytes,
        style: p_style(bytes),
        pre,
        heads,
        mbs,
        planned,
        coded,
        deltas,
        long: SrsV2Error::Overflow("chunk"),
    };
    lemma_p_heads(c, qpel);
    assert forall|i: int| 0 <= i < n implies (#[trigger] c.chunks(i, 4)) is Ok by {
        assert(framed_chunks(
            planned,
            coded,
            deltas,
            step_of(qp),
            4 * i,
            4,
            SrsV2Error::Overflow("chunk"),
        ) is Ok);
    }
    assert(c.holds());
    stream_round_trip(c);
}

proof fn lemma_p_header_extended(data: Seq<u8>, b: u8, qpel: bool, cur: int)
    requires
        0 <= cur,
        p_header(data, qpel, cur).value is Ok,
    ensures
        p_header(data.push(b), qpel, cur) == p_header(data, qpel, cur),
        p_header(data, qpel, cur).next >= cur,
{
    let long = data.push(b);
    if qpel {
        assert(le32(long, cur) == le32(data, cur));
        assert(le32(long, cur + 4) == le32(data, cur + 4));
    } else {
        assert(le16(long, cur) == le16(data, cur));
        assert(le16(long, cur + 2) == le16(data, cur + 2));
    }
}

proof fn lemma_job_extended(data: Seq<u8>, b: u8, cur: int, style: ChunkStyle)
    requires
        0 <= cur,
        take_job(data, cur, style).value is Ok,
    ensures
        take_job(data.push(b), cur, style) == take_job(data, cur, style),
        take_job(data, cur, style).next >= cur,
{
    let long = data.push(b);
    span_needs_its_bytes(data, cur, style.label, long, 0);
    let span = take_span(data, cur, style.label).value->Ok_0;
    assert(long.subrange(span.0, span.1) =~= data.subrange(span.0, span.1));
    if style.deltas is Some {
        assert(span.0 < span.1);
        assert(long.subrange(span.0 + 1, span.1) =~= data.subrange(span.0 + 1, span.1));
    }
}

proof fn lemma_p_state_extended(data: Seq<u8>, b: u8, n: int)
    requires
        data.len() >= p_start(data) >= 9,
        p_state(data, n).fault is None,
    ensures
        p_state(data.push(b), n) == p_state(data, n),
        p_state(data, n).cur >= 9,
    decreases n,
{
    let long = data.push(b);
    assert(p_style(long) == p_style(data));
    if n > 0 {
        let style = p_style(data);
        let qpel = p_is_qpel(data);
        let head = |cur: int, i: int| p_header(data, qpel, cur);
        let before = p_state(data, n - 1);
        lemma_p_state_extended(data, b, n - 1);
        let k = n - 1;
        let s = if k % 4 == 0 {
            after_header(head, k / 4, before)
        } else {
            before
        };
        if k % 4 == 0 {
            lemma_p_header_extended(data, b, qpel, before.cur);
        }
        if !bit(s.pattern, k % 4) {
            lemma_job_extended(data, b, s.cur, style);
        }
    }
}

/// An accepted forward payload is refused with any byte behind it.
pub proof fn extended_p_payload_is_refused(
    seq: VideoSequenceHeaderV2,
    data: Seq<u8>,
    reference: YuvFrame,
    residuals: Seq<Result<[i16; 64], SrsV2Error>>,
    f: DecodedVideoFrameV2,
    b: u8,
    r: Result<DecodedVideoFrameV2, SrsV2Error>,
)
    requires
        p_decoded(seq, data, reference, residuals, Ok(f)),
        p_decoded(seq, data.push(b), reference, residuals, r),
    ensures
        r == Err::<DecodedVideoFrameV2, SrsV2Error>(SrsV2Error::Syntax("trailing P-frame bytes")),
{
    assert(p_refusal(seq, data.push(b), reference) is None);
    lemma_p_state_extended(data, b, 4 * mb_count(seq));
}

} // verus!
