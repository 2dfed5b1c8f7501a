//! Intra frame payloads: a magic, the picture number, the QP, and one chunk per plane.
use vstd::prelude::*;

use crate::bytes::{bytes32, get_u32, le32, le32_reads_bytes32, push_all, push_u32};
use super::adaptive_quant::{
    frame_aq, resolve_frame_adaptive_qp, SrsV2AqEncodeStats, SrsV2BlockAqWireStats,
};
use super::block_aq::{clip_range_ok, validate_qp_clip_range};
use super::error::SrsV2Error;
use super::frame::{plane_refusal, DecodedVideoFrameV2, VideoPlane, YuvFrame};
use super::inter_frame::{read_span, span_needs_its_bytes, span_round_trip, take_span};
use super::intra_plane::{
    block_count, cropped, decoder_matches_encoder, modes_of, padded_len, parse_plane_intra,
    read_blocks, reconstruct_plane_intra, reconstructed, residual_views, round_up_8,
    IntraPlaneEncoder,
};
use super::limits::MAX_FRAME_PAYLOAD_BYTES;
use super::model::{PixelFormat, VideoSequenceHeaderV2};
use super::p_var_decode::lemma_half_accepted;
use super::rate_control::{
    ResidualEncodeStats, ResidualEntropy, SrsV2BlockAqMode, SrsV2CoeffLayoutMode,
    SrsV2EncodeSettings, SrsV2ResidualContextMode,
};
use super::reader::Read;

verus! {

/// Explicit coefficient tuples.
pub const FRAME_PAYLOAD_MAGIC: [u8; 4] = [70, 82, 50, 1];

/// Adaptive residual coding.
pub const FRAME_PAYLOAD_MAGIC_INTRA_ENTROPY: [u8; 4] = [70, 82, 50, 3];

/// Adaptive residual coding with block deltas.
pub const FRAME_PAYLOAD_MAGIC_INTRA_BLOCK_AQ: [u8; 4] = [70, 82, 50, 7];

/// Residuals under several contexts.
pub const FRAME_PAYLOAD_MAGIC_INTRA_RESIDUAL_CTX_V1: [u8; 4] = [70, 82, 50, 29];

/// Compact coefficient bodies.
pub const FRAME_PAYLOAD_MAGIC_INTRA_COMPACT_V1: [u8; 4] = [70, 82, 50, 32];

/// A hidden reference picture.
pub const FRAME_PAYLOAD_MAGIC_ALT_REF: [u8; 4] = [70, 82, 50, 12];

/// Revisions of intra payloads.
pub open spec fn intra_revision(rev: int) -> bool {
    rev == 1 || rev == 3 || rev == 7 || rev == 29 || rev == 32
}

/// The payload starts with an intra magic.
pub open spec fn has_intra_magic(data: Seq<u8>) -> bool {
    data.len() >= 4 && data[0] == 70 && data[1] == 82 && data[2] == 50 && intra_revision(
        data[3] as int,
    )
}

fn intra_magic_matches(payload: &[u8]) -> (r: bool)
    ensures
        r == has_intra_magic(payload@),
{
    payload.len() >= 4 && payload[0] == 70 && payload[1] == 82 && payload[2] == 50 && (payload[3]
        == 1 || payload[3] == 3 || payload[3] == 7 || payload[3] == 29 || payload[3] == 32)
}

/// The fields of an intra payload and where its planes lie.
#[derive(Debug, Clone, Copy, PartialEq, Eq)]
pub struct IntraLayout {
    pub rev: u8,
    pub frame_index: u32,
    pub base_qp: u8,
    pub clip_min: u8,
    pub clip_max: u8,
    /// The slot of a hidden reference picture.
    pub target_slot: u8,
    pub y: (usize, usize),
    pub u: (usize, usize),
    pub v: (usize, usize),
}

/// Where three chunks lie.
pub struct ThreeSpans {
    pub y: (int, int),
    pub u: (int, int),
    pub v: (int, int),
}

/// The three chunks at the cursor; nothing may follow them.
pub open spec fn take_planes(data: Seq<u8>, cur: int, alt: bool) -> Result<ThreeSpans, SrsV2Error> {
    let a = take_span(data, cur, if alt { "alt-ref y chunk" } else { "y chunk" });
    match a.value {
        Err(e) => Err(e),
        Ok(y) => {
            let b = take_span(data, a.next, if alt { "alt-ref u chunk" } else { "u chunk" });
            match b.value {
                Err(e) => Err(e),
                Ok(u) => {
                    let c = take_span(data, b.next, if alt {
                        "alt-ref v chunk"
                    } else {
                        "v chunk"
                    });
                    match c.value {
                        Err(e) => Err(e),
                        Ok(v) => if c.next != data.len() {
                            Err(
                                SrsV2Error::Syntax(
                                    if alt {
                                        "trailing alt-ref bytes"
                                    } else {
                                        "trailing frame bytes"
                                    },
                                ),
                            )
                        } else {
                            Ok(ThreeSpans { y, u, v })
                        },
                    }
                },
            }
        },
    }
}

pub fn read_planes(data: &[u8], cur: usize, alt: bool) -> (r: Result<
    ((usize, usize), (usize, usize), (usize, usize)),
    SrsV2Error,
>)
    ensures
        match take_planes(data@, cur as int, alt) {
            Err(e) => r == Err::<((usize, usize), (usize, usize), (usize, usize)), SrsV2Error>(e),
            Ok(s) => {
                &&& r is Ok
                &&& r->Ok_0.0.0 == s.y.0 && r->Ok_0.0.1 == s.y.1
                &&& r->Ok_0.1.0 == s.u.0 && r->Ok_0.1.1 == s.u.1
                &&& r->Ok_0.2.0 == s.v.0 && r->Ok_0.2.1 == s.v.1
                &&& s.y.0 <= s.y.1 <= data@.len()
                &&& s.u.0 <= s.u.1 <= data@.len()
                &&& s.v.0 <= s.v.1 <= data@.len()
            },
        },
{
    let mut at: usize = cur;
    let y = match read_span(data, &mut at, if alt { "alt-ref y chunk" } else { "y chunk" }) {
        Err(e) => {
            return Err(e);
        },
        Ok(s) => s,
    };
    let u = match read_span(data, &mut at, if alt { "alt-ref u chunk" } else { "u chunk" }) {
        Err(e) => {
            return Err(e);
        },
        Ok(s) => s,
    };
    let v = match read_span(data, &mut at, if alt { "alt-ref v chunk" } else { "v chunk" }) {
        Err(e) => {
            return Err(e);
        },
        Ok(s) => s,
    };
    if at != data.len() {
        return Err(
            SrsV2Error::Syntax(
                if alt {
                    "trailing alt-ref bytes"
                } else {
                    "trailing frame bytes"
                },
            ),
        );
    }
    Ok((y, u, v))
}

/// A layout with the spans of three planes.
pub open spec fn with_spans(base: IntraLayout, s: ThreeSpans) -> IntraLayout {
    IntraLayout {
        y: (s.y.0 as usize, s.y.1 as usize),
        u: (s.u.0 as usize, s.u.1 as usize),
        v: (s.v.0 as usize, s.v.1 as usize),
        ..base
    }
}

/// The fields of an intra payload ahead of its planes.
pub open spec fn intra_fields(data: Seq<u8>) -> IntraLayout {
    IntraLayout {
        rev: data[3],
        frame_index: le32(data, 4) as u32,
        base_qp: data[8],
        clip_min: if data[3] == 7 { data[9] } else { 1 },
        clip_max: if data[3] == 7 { data[10] } else { 51 },
        target_slot: 0,
        y: (0, 0),
        u: (0, 0),
        v: (0, 0),
    }
}

/// The shortest payload of a revision.
pub open spec fn intra_minimum(data: Seq<u8>) -> int {
    if data.len() > 3 && data[3] == 7 {
        23
    } else {
        21
    }
}

/// An intra payload taken apart.
pub open spec fn intra_layout(data: Seq<u8>) -> Result<IntraLayout, SrsV2Error> {
    if data.len() < intra_minimum(data) {
        Err(SrsV2Error::Truncated)
    } else if !has_intra_magic(data) {
        Err(SrsV2Error::BadMagic)
    } else {
        let f = intra_fields(data);
        if f.rev == 7 && !clip_range_ok(f.clip_min as int, f.clip_max as int) {
            Err(SrsV2Error::Syntax("invalid qp clip range"))
        } else {
            match take_planes(data, if f.rev == 7 { 11 } else { 9 }, false) {
                Err(e) => Err(e),
                Ok(s) => Ok(with_spans(f, s)),
            }
        }
    }
}

/// The chunks of a layout lie in the payload.
pub open spec fn spans_inside(l: IntraLayout, n: int) -> bool {
    l.y.0 <= l.y.1 <= n && l.u.0 <= l.u.1 <= n && l.v.0 <= l.v.1 <= n
}

/// Takes an intra payload apart, for its planes to be decoded.
pub fn parse_intra_payload(payload: &[u8]) -> (r: Result<IntraLayout, SrsV2Error>)
    ensures
        r == intra_layout(payload@),
        r matches Ok(l) ==> spans_inside(l, payload@.len() as int) && intra_revision(l.rev as int),
{
    let min: usize = if payload.len() > 3 && payload[3] == 7 { 23 } else { 21 };
    if payload.len() < min {
        return Err(SrsV2Error::Truncated);
    }
    if !intra_magic_matches(payload) {
        return Err(SrsV2Error::BadMagic);
    }
    let rev: u8 = payload[3];
    let frame_index: u32 = get_u32(payload, 4);
    let base_qp: u8 = payload[8];
    let mut clip_min: u8 = 1;
    let mut clip_max: u8 = 51;
    let mut at: usize = 9;
    if rev == 7 {
        clip_min = payload[9];
        clip_max = payload[10];
        match validate_qp_clip_range(clip_min, clip_max) {
            Err(e) => {
                return Err(e);
            },
            Ok(_) => {},
        }
        at = 11;
    }
    match read_planes(payload, at, false) {
        Err(e) => Err(e),
        Ok((y, u, v)) => Ok(
            IntraLayout {
                rev,
                frame_index,
                base_qp,
                clip_min,
                clip_max,
                target_slot: 0,
                y,
                u,
                v,
            },
        ),
    }
}

/// What became of one plane.
#[derive(Debug, Clone)]
pub enum PlaneInput {
    /// The residual samples of its blocks, for explicit tuples.
    Residuals(Vec<[i16; 64]>),
    /// Its samples, and how many bytes of the chunk were used for them.
    Samples { consumed: usize, samples: Vec<u8> },
    /// It could not be decoded.
    Failed(SrsV2Error),
}

/// Number of blocks of a plane.
pub open spec fn plane_blocks(w: int, h: int) -> int {
    block_count(padded_len(w), padded_len(h))
}

/// The input fits a plane of `w` by `h` samples.
pub open spec fn input_fits(p: PlaneInput, chunk: Seq<u8>, rev: int, w: int, h: int) -> bool {
    if rev == 1 {
        read_blocks(chunk, 0, plane_blocks(w, h)).value is Ok ==> (p matches PlaneInput::Residuals(
            v,
        ) && v@.len() == plane_blocks(w, h))
    } else {
        match p {
            PlaneInput::Residuals(_) => false,
            PlaneInput::Samples { samples, .. } => samples@.len() == w * h,
            PlaneInput::Failed(_) => true,
        }
    }
}

/// The samples of a plane, or why there are none.
pub open spec fn plane_outcome(
    p: PlaneInput,
    chunk: Seq<u8>,
    rev: int,
    w: int,
    h: int,
    trailing: &'static str,
) -> Result<Seq<u8>, SrsV2Error> {
    if rev == 1 {
        let b = read_blocks(chunk, 0, plane_blocks(w, h));
        match b.value {
            Err(e) => Err(e),
            Ok(blocks) => if b.next != chunk.len() {
                Err(SrsV2Error::Syntax(trailing))
            } else {
                Ok(
                    cropped(
                        reconstructed(
                            modes_of(blocks),
                            residual_views(p->Residuals_0@),
                            padded_len(w),
                            padded_len(h),
                            plane_blocks(w, h),
                        ),
                        padded_len(w),
                        w,
                        h,
                    ),
                )
            },
        }
    } else {
        match p {
            PlaneInput::Residuals(_) => Ok(seq![]),
            PlaneInput::Failed(e) => Err(e),
            PlaneInput::Samples { consumed, samples } => if consumed != chunk.len() {
                Err(SrsV2Error::Syntax(trailing))
            } else {
                Ok(samples@)
            },
        }
    }
}

fn decode_plane(
    chunk: &[u8],
    rev: u8,
    w: u32,
    h: u32,
    input: &PlaneInput,
    trailing: &'static str,
) -> (r: Result<Vec<u8>, SrsV2Error>)
    requires
        w <= 8192,
        h <= 8192,
        input_fits(*input, chunk@, rev as int, w as int, h as int),
    ensures
        match plane_outcome(*input, chunk@, rev as int, w as int, h as int, trailing) {
            Err(e) => r == Err::<Vec<u8>, SrsV2Error>(e),
            Ok(s) => r is Ok && r->Ok_0@ == s && s.len() == w * h,
        },
{
    if rev == 1 {
        let pw: usize = round_up_8(w as usize);
        let ph: usize = round_up_8(h as usize);
        assert((pw as int / 8) * (ph as int / 8) <= 1024 * 1024) by (nonlinear_arith)
            requires
                0 <= pw as int / 8 <= 1024,
                0 <= ph as int / 8 <= 1024,
        ;
        let n: usize = (pw / 8) * (ph / 8);
        let mut cur: usize = 0;
        let blocks = match parse_plane_intra(chunk, &mut cur, n) {
            Err(e) => {
                return Err(e);
            },
            Ok(b) => b,
        };
        if cur != chunk.len() {
            return Err(SrsV2Error::Syntax(trailing));
        }
        assert(0 <= w * h) by (nonlinear_arith)
            requires
                0 <= w,
                0 <= h,
        ;
        match input {
            PlaneInput::Residuals(res) => Ok(
                reconstruct_plane_intra(
                    w as usize,
                    h as usize,
                    blocks.as_slice(),
                    res.as_slice(),
                ),
            ),
            _ => Ok(Vec::new()),
        }
    } else {
        match input {
            PlaneInput::Residuals(_) => Ok(Vec::new()),
            PlaneInput::Failed(e) => Err(*e),
            PlaneInput::Samples { consumed, samples } => {
                if *consumed != chunk.len() {
                    return Err(SrsV2Error::Syntax(trailing));
                }
                let mut out: Vec<u8> = Vec::new();
                push_all(&mut out, samples.as_slice());
                assert(out@ =~= samples@);
                Ok(out)
            },
        }
    }
}

/// The chunk of a span.
pub open spec fn chunk_at(data: Seq<u8>, s: (usize, usize)) -> Seq<u8> {
    data.subrange(s.0 as int, s.1 as int)
}

/// The samples of three planes.
pub struct ThreePlanes {
    pub y: Seq<u8>,
    pub u: Seq<u8>,
    pub v: Seq<u8>,
}

/// The planes of a payload of revision `rev`, or the first failure.
pub open spec fn planes_outcome(
    data: Seq<u8>,
    l: IntraLayout,
    rev: int,
    w: int,
    h: int,
    planes: Seq<PlaneInput>,
    alt: bool,
) -> Result<ThreePlanes, SrsV2Error> {
    let cw = (w + 1) / 2;
    let ch = (h + 1) / 2;
    match plane_outcome(planes[0], chunk_at(data, l.y), rev, w, h, if alt {
        "alt-ref y plane trailing bits"
    } else {
        "y plane trailing bits"
    }) {
        Err(e) => Err(e),
        Ok(y) => match plane_outcome(planes[1], chunk_at(data, l.u), rev, cw, ch, if alt {
            "alt-ref u plane trailing bits"
        } else {
            "u plane trailing bits"
        }) {
            Err(e) => Err(e),
            Ok(u) => match plane_outcome(planes[2], chunk_at(data, l.v), rev, cw, ch, if alt {
                "alt-ref v plane trailing bits"
            } else {
                "v plane trailing bits"
            }) {
                Err(e) => Err(e),
                Ok(v) => Ok(ThreePlanes { y, u, v }),
            },
        },
    }
}

/// The inputs fit the planes of a picture.
pub open spec fn inputs_fit(
    data: Seq<u8>,
    l: IntraLayout,
    rev: int,
    w: int,
    h: int,
    planes: Seq<PlaneInput>,
) -> bool {
    &&& planes.len() == 3
    &&& input_fits(planes[0], chunk_at(data, l.y), rev, w, h)
    &&& input_fits(planes[1], chunk_at(data, l.u), rev, (w + 1) / 2, (h + 1) / 2)
    &&& input_fits(planes[2], chunk_at(data, l.v), rev, (w + 1) / 2, (h + 1) / 2)
}

/// A picture holds three tightly packed planes.
pub open spec fn holds_planes(f: YuvFrame, w: int, h: int, p: ThreePlanes) -> bool {
    let cw = (w + 1) / 2;
    let ch = (h + 1) / 2;
    &&& f.format == PixelFormat::Yuv420p8
    &&& f.y.width == w && f.y.height == h && f.y.stride == w && f.y.samples@ == p.y
    &&& f.u.width == cw && f.u.height == ch && f.u.stride == cw && f.u.samples@ == p.u
    &&& f.v.width == cw && f.v.height == ch && f.v.stride == cw && f.v.samples@ == p.v
    &&& f.valid()
}

pub fn decode_planes(
    payload: &[u8],
    l: &IntraLayout,
    rev: u8,
    w: u32,
    h: u32,
    planes: &[PlaneInput],
    alt: bool,
) -> (r: Result<YuvFrame, SrsV2Error>)
    requires
        plane_refusal(w as int, h as int, w as int) is None,
        spans_inside(*l, payload@.len() as int),
        inputs_fit(payload@, *l, rev as int, w as int, h as int, planes@),
    ensures
        match planes_outcome(payload@, *l, rev as int, w as int, h as int, planes@, alt) {
            Err(e) => r == Err::<YuvFrame, SrsV2Error>(e),
            Ok(p) => r is Ok && holds_planes(r->Ok_0, w as int, h as int, p),
        },
{
    proof {
        lemma_half_accepted(w as int, h as int);
        assert(h * w == w * h) by (nonlinear_arith);
        assert(((h + 1) / 2) * ((w + 1) / 2) == ((w + 1) / 2) * ((h + 1) / 2)) by (nonlinear_arith);
    }
    let cw: u32 = (w + 1) / 2;
    let ch: u32 = (h + 1) / 2;
    let y = match decode_plane(
        vstd::slice::slice_subrange(payload, l.y.0, l.y.1),
        rev,
        w,
        h,
        &planes[0],
        if alt {
            "alt-ref y plane trailing bits"
        } else {
            "y plane trailing bits"
        },
    ) {
        Err(e) => {
            return Err(e);
        },
        Ok(s) => s,
    };
    let u = match decode_plane(
        vstd::slice::slice_subrange(payload, l.u.0, l.u.1),
        rev,
        cw,
        ch,
        &planes[1],
        if alt {
            "alt-ref u plane trailing bits"
        } else {
            "u plane trailing bits"
        },
    ) {
        Err(e) => {
            return Err(e);
        },
        Ok(s) => s,
    };
    let v = match decode_plane(
        vstd::slice::slice_subrange(payload, l.v.0, l.v.1),
        rev,
        cw,
        ch,
        &planes[2],
        if alt {
            "alt-ref v plane trailing bits"
        } else {
            "v plane trailing bits"
        },
    ) {
        Err(e) => {
            return Err(e);
        },
        Ok(s) => s,
    };
    Ok(
        YuvFrame {
            format: PixelFormat::Yuv420p8,
            y: VideoPlane { width: w, height: h, stride: w as usize, samples: y },
            u: VideoPlane { width: cw, height: ch, stride: cw as usize, samples: u },
            v: VideoPlane { width: cw, height: ch, stride: cw as usize, samples: v },
        },
    )
}

/// An intra payload as far as it can be read, or why it is refused.
pub open spec fn intra_opening(seq: VideoSequenceHeaderV2, data: Seq<u8>) -> Result<
    IntraLayout,
    SrsV2Error,
> {
    if seq.pixel_format != PixelFormat::Yuv420p8 {
        Err(SrsV2Error::Unsupported("decode path only supports YUV420p8 in this slice"))
    } else {
        match intra_layout(data) {
            Err(e) => Err(e),
            Ok(l) => match plane_refusal(
                seq.width as int,
                seq.height as int,
                seq.width as int,
            ) {
                Some(e) => Err(e),
                None => Ok(l),
            },
        }
    }
}

/// The picture of an intra payload.
pub open spec fn intra_decoded(
    seq: VideoSequenceHeaderV2,
    data: Seq<u8>,
    planes: Seq<PlaneInput>,
    r: Result<DecodedVideoFrameV2, SrsV2Error>,
) -> bool {
    match intra_opening(seq, data) {
        Err(e) => r == Err::<DecodedVideoFrameV2, SrsV2Error>(e),
        Ok(l) => match planes_outcome(
            data,
            l,
            l.rev as int,
            seq.width as int,
            seq.height as int,
            planes,
            false,
        ) {
            Err(e) => r == Err::<DecodedVideoFrameV2, SrsV2Error>(e),
            Ok(p) => r is Ok && r->Ok_0.frame_index == l.frame_index && r->Ok_0.width == seq.width
                && r->Ok_0.height == seq.height && r->Ok_0.is_displayable && holds_planes(
                r->Ok_0.yuv,
                seq.width as int,
                seq.height as int,
                p,
            ),
        },
    }
}

/// The inputs fit an intra payload.
pub open spec fn intra_inputs_fit(
    seq: VideoSequenceHeaderV2,
    data: Seq<u8>,
    planes: Seq<PlaneInput>,
) -> bool {
    intra_opening(seq, data) matches Ok(l) ==> inputs_fit(
        data,
        l,
        l.rev as int,
        seq.width as int,
        seq.height as int,
        planes,
    )
}

/// Decodes an intra payload without loop filtering. `planes` are the residual samples of explicit
/// tuples, or what became of the planes of the other revisions.
pub fn decode_yuv420_intra_payload(
    seq: &VideoSequenceHeaderV2,
    payload: &[u8],
    planes: &[PlaneInput],
) -> (r: Result<DecodedVideoFrameV2, SrsV2Error>)
    requires
        intra_inputs_fit(*seq, payload@, planes@),
    ensures
        intra_decoded(*seq, payload@, planes@, r),
{
    if seq.pixel_format != PixelFormat::Yuv420p8 {
        return Err(SrsV2Error::Unsupported("decode path only supports YUV420p8 in this slice"));
    }
    let l = match parse_intra_payload(payload) {
        Err(e) => {
            return Err(e);
        },
        Ok(l) => l,
    };
    match VideoPlane::try_new(seq.width, seq.height, seq.width as usize) {
        Err(e) => {
            return Err(e);
        },
        Ok(_) => {},
    }
    match decode_planes(payload, &l, l.rev, seq.width, seq.height, planes, false) {
        Err(e) => Err(e),
        Ok(yuv) => Ok(
            DecodedVideoFrameV2 {
                frame_index: l.frame_index,
                width: seq.width,
                height: seq.height,
                is_displayable: true,
                yuv,
            },
        ),
    }
}

/// Block deltas are on the wire of an intra payload.
pub open spec fn intra_sends_deltas(s: SrsV2EncodeSettings) -> bool {
    s.block_aq_mode == SrsV2BlockAqMode::BlockDelta && s.residual_entropy
        != ResidualEntropy::Explicit
}

fn intra_use_block_aq_wire(settings: &SrsV2EncodeSettings) -> (r: bool)
    ensures
        r == intra_sends_deltas(*settings),
{
    settings.block_aq_mode == SrsV2BlockAqMode::BlockDelta && settings.residual_entropy
        != ResidualEntropy::Explicit
}

/// Why a picture cannot be coded as an intra picture, if it cannot.
pub open spec fn intra_encode_refusal(
    seq: VideoSequenceHeaderV2,
    yuv: YuvFrame,
    s: SrsV2EncodeSettings,
) -> Option<SrsV2Error> {
    let compact = s.coeff_layout_mode == SrsV2CoeffLayoutMode::CompactV1;
    if seq.pixel_format != PixelFormat::Yuv420p8 || yuv.format != PixelFormat::Yuv420p8 {
        Some(SrsV2Error::Unsupported("encode path only supports YUV420p8 in this slice"))
    } else if compact && s.residual_entropy == ResidualEntropy::Explicit {
        Some(
            SrsV2Error::Syntax("FR2 rev32 intra CompactV1 requires residual_entropy Auto or Rans"),
        )
    } else if compact && intra_sends_deltas(s) {
        Some(
            SrsV2Error::Syntax(
                "FR2 rev32 intra CompactV1 is incompatible with block AQ (FR2 rev7)",
            ),
        )
    } else if compact && s.residual_context_mode == SrsV2ResidualContextMode::ContextV1 {
        Some(
            SrsV2Error::Syntax(
                "FR2 rev32 intra CompactV1 is incompatible with residual_context_mode ContextV1",
            ),
        )
    } else if s.block_aq_mode == SrsV2BlockAqMode::BlockDelta && s.residual_entropy
        == ResidualEntropy::Explicit {
        Some(
            SrsV2Error::Syntax(
                "block AQ (FR2 rev 7) requires adaptive residual entropy (Auto or Rans)",
            ),
        )
    } else if s.min_block_qp_delta > s.max_block_qp_delta {
        Some(SrsV2Error::Syntax("invalid aq qp delta range"))
    } else if intra_sends_deltas(s) && !clip_range_ok(s.min_qp as int, s.max_qp as int) {
        Some(SrsV2Error::Syntax("invalid qp clip range"))
    } else {
        None
    }
}

/// The magic of an intra payload.
pub open spec fn intra_magic(s: SrsV2EncodeSettings) -> [u8; 4] {
    if s.coeff_layout_mode == SrsV2CoeffLayoutMode::CompactV1 {
        FRAME_PAYLOAD_MAGIC_INTRA_COMPACT_V1
    } else if intra_sends_deltas(s) {
        FRAME_PAYLOAD_MAGIC_INTRA_BLOCK_AQ
    } else if s.residual_entropy == ResidualEntropy::Explicit {
        FRAME_PAYLOAD_MAGIC
    } else if s.residual_context_mode == SrsV2ResidualContextMode::ContextV1 {
        FRAME_PAYLOAD_MAGIC_INTRA_RESIDUAL_CTX_V1
    } else {
        FRAME_PAYLOAD_MAGIC_INTRA_ENTROPY
    }
}

/// How an intra picture is coded: the magic, the effective QP and how it was found.
#[derive(Debug, Clone, Copy)]
pub struct IntraPlan {
    pub magic: [u8; 4],
    pub qp: u8,
    pub aq: SrsV2AqEncodeStats,
}

/// How the QP of an intra picture is found, and whether its payload carries block deltas.
pub open spec fn intra_aq(
    qp: int,
    y: VideoPlane<u8>,
    s: SrsV2EncodeSettings,
) -> SrsV2AqEncodeStats {
    SrsV2AqEncodeStats {
        block_wire: SrsV2BlockAqWireStats { block_aq_enabled: intra_sends_deltas(s) },
        ..frame_aq(qp, y, s).1
    }
}

/// Plans an intra picture: the revision and the effective QP that its planes are coded with.
pub fn plan_intra_frame(
    seq: &VideoSequenceHeaderV2,
    yuv: &YuvFrame,
    qp: u8,
    settings: &SrsV2EncodeSettings,
) -> (r: Result<IntraPlan, SrsV2Error>)
    requires
        yuv.y.valid(),
        settings.min_qp <= settings.max_qp,
    ensures
        match intra_encode_refusal(*seq, *yuv, *settings) {
            Some(e) => r == Err::<IntraPlan, SrsV2Error>(e),
            None => r is Ok && r->Ok_0.magic@ == intra_magic(*settings)@ && r->Ok_0.qp == frame_aq(
                qp as int,
                yuv.y,
                *settings,
            ).0 && r->Ok_0.aq == intra_aq(qp as int, yuv.y, *settings),
        },
{
    if seq.pixel_format != PixelFormat::Yuv420p8 || yuv.format != PixelFormat::Yuv420p8 {
        return Err(SrsV2Error::Unsupported("encode path only supports YUV420p8 in this slice"));
    }
    let explicit = settings.residual_entropy == ResidualEntropy::Explicit;
    let compact = settings.coeff_layout_mode == SrsV2CoeffLayoutMode::CompactV1;
    let deltas = intra_use_block_aq_wire(settings);
    let contexts = settings.residual_context_mode == SrsV2ResidualContextMode::ContextV1;
    if compact {
        if explicit {
            return Err(
                SrsV2Error::Syntax(
                    "FR2 rev32 intra CompactV1 requires residual_entropy Auto or Rans",
                ),
            );
        }
        if deltas {
            return Err(
                SrsV2Error::Syntax(
                    "FR2 rev32 intra CompactV1 is incompatible with block AQ (FR2 rev7)",
                ),
            );
        }
        if contexts {
            return Err(
                SrsV2Error::Syntax(
                    "FR2 rev32 intra CompactV1 is incompatible with residual_context_mode ContextV1",
                ),
            );
        }
    }
    if settings.block_aq_mode == SrsV2BlockAqMode::BlockDelta && explicit {
        return Err(
            SrsV2Error::Syntax(
                "block AQ (FR2 rev 7) requires adaptive residual entropy (Auto or Rans)",
            ),
        );
    }
    let (eff, mut aq) = match resolve_frame_adaptive_qp(qp, yuv, settings) {
        Err(e) => {
            return Err(e);
        },
        Ok(v) => v,
    };
    aq.block_wire = SrsV2BlockAqWireStats { block_aq_enabled: deltas };
    if deltas {
        match validate_qp_clip_range(settings.min_qp, settings.max_qp) {
            Err(e) => {
                return Err(e);
            },
            Ok(_) => {},
        }
    }
    let magic: [u8; 4] = if compact {
        FRAME_PAYLOAD_MAGIC_INTRA_COMPACT_V1
    } else if deltas {
        FRAME_PAYLOAD_MAGIC_INTRA_BLOCK_AQ
    } else if explicit {
        FRAME_PAYLOAD_MAGIC
    } else if contexts {
        FRAME_PAYLOAD_MAGIC_INTRA_RESIDUAL_CTX_V1
    } else {
        FRAME_PAYLOAD_MAGIC_INTRA_ENTROPY
    };
    Ok(IntraPlan { magic, qp: eff, aq })
}

/// The first plane of the first `n` that could not be coded.
pub open spec fn plane_failure(planes: Seq<Result<Vec<u8>, SrsV2Error>>, n: int) -> Option<
    SrsV2Error,
>
    decreases n,
{
    if n <= 0 {
        None
    } else {
        match plane_failure(planes, n - 1) {
            Some(e) => Some(e),
            None => match planes[n - 1] {
                Err(e) => Some(e),
                Ok(_) => None,
            },
        }
    }
}

/// The chunks of the first `n` planes, each behind its length.
pub open spec fn plane_chunks(planes: Seq<Result<Vec<u8>, SrsV2Error>>, n: int) -> Result<
    Seq<u8>,
    SrsV2Error,
>
    decreases n,
{
    if n <= 0 {
        Ok(seq![])
    } else {
        match plane_chunks(planes, n - 1) {
            Err(e) => Err(e),
            Ok(b) => {
                let c = planes[n - 1]->Ok_0@;
                if c.len() > u32::MAX {
                    Err(SrsV2Error::Syntax("chunk length"))
                } else {
                    Ok(b + bytes32(c.len() as int) + c)
                }
            },
        }
    }
}

/// A payload made of a head and three planes.
pub open spec fn framed_planes(
    head: Seq<u8>,
    planes: Seq<Result<Vec<u8>, SrsV2Error>>,
    limit: &'static str,
) -> Result<Seq<u8>, SrsV2Error> {
    match plane_failure(planes, 3) {
        Some(e) => Err(e),
        None => match plane_chunks(planes, 3) {
            Err(e) => Err(e),
            Ok(c) => if head.len() + c.len() > MAX_FRAME_PAYLOAD_BYTES {
                Err(SrsV2Error::AllocationLimit { context: limit })
            } else {
                Ok(head + c)
            },
        },
    }
}

fn push_chunk(out: &mut Vec<u8>, chunk: &[u8]) -> (r: Result<(), SrsV2Error>)
    ensures
        if chunk@.len() > u32::MAX {
            r == Err::<(), SrsV2Error>(SrsV2Error::Syntax("chunk length"))
        } else {
            r is Ok && final(out)@ == old(out)@ + bytes32(chunk@.len() as int) + chunk@
        },
{
    if chunk.len() as u64 > 4294967295 {
        return Err(SrsV2Error::Syntax("chunk length"));
    }
    push_u32(out, chunk.len() as u32);
    push_all(out, chunk);
    Ok(())
}

/// Appends three planes to the head of a payload.
pub fn frame_planes(
    head: Vec<u8>,
    planes: &[Result<Vec<u8>, SrsV2Error>],
    limit: &'static str,
) -> (r: Result<Vec<u8>, SrsV2Error>)
    requires
        planes@.len() == 3,
    ensures
        match framed_planes(head@, planes@, limit) {
            Err(e) => r == Err::<Vec<u8>, SrsV2Error>(e),
            Ok(b) => r is Ok && r->Ok_0@ == b,
        },
{
    proof {
        reveal_with_fuel(plane_failure, 4);
        reveal_with_fuel(plane_chunks, 4);
    }
    let y = match &planes[0] {
        Err(e) => {
            return Err(*e);
        },
        Ok(c) => c,
    };
    let u = match &planes[1] {
        Err(e) => {
            return Err(*e);
        },
        Ok(c) => c,
    };
    let v = match &planes[2] {
        Err(e) => {
            return Err(*e);
        },
        Ok(c) => c,
    };
    let mut out = head;
    match push_chunk(&mut out, y.as_slice()) {
        Err(e) => {
            return Err(e);
        },
        Ok(_) => {},
    }
    match push_chunk(&mut out, u.as_slice()) {
        Err(e) => {
            return Err(e);
        },
        Ok(_) => {},
    }
    match push_chunk(&mut out, v.as_slice()) {
        Err(e) => {
            return Err(e);
        },
        Ok(_) => {},
    }
    assert(out@ =~= head@ + plane_chunks(planes@, 3)->Ok_0);
    if out.len() > MAX_FRAME_PAYLOAD_BYTES {
        return Err(SrsV2Error::AllocationLimit { context: limit });
    }
    Ok(out)
}

/// The fields of an intra payload ahead of its planes.
pub open spec fn intra_head(
    magic: Seq<u8>,
    s: SrsV2EncodeSettings,
    frame_index: int,
    qp: int,
) -> Seq<u8> {
    magic + bytes32(frame_index) + seq![qp as u8] + (if intra_sends_deltas(s) {
        seq![s.min_qp, s.max_qp]
    } else {
        seq![]
    })
}

/// An intra payload.
pub open spec fn intra_payload(
    s: SrsV2EncodeSettings,
    frame_index: int,
    qp: int,
    planes: Seq<Result<Vec<u8>, SrsV2Error>>,
) -> Result<Seq<u8>, SrsV2Error> {
    framed_planes(intra_head(intra_magic(s)@, s, frame_index, qp), planes, "encoded frame")
}

/// The counters after an intra picture.
pub open spec fn intra_counted(
    s: SrsV2EncodeSettings,
    st: ResidualEncodeStats,
) -> ResidualEncodeStats {
    ResidualEncodeStats {
        residual_context_enabled: st.residual_context_enabled || (s.residual_entropy
            != ResidualEntropy::Explicit && s.residual_context_mode
            == SrsV2ResidualContextMode::ContextV1),
        ..st
    }
}

/// Encodes a planned intra picture, given what became of its planes. `aq_out` receives how the QP
/// was found once every plane is coded.
pub fn encode_yuv420_intra_payload(
    plan: &IntraPlan,
    frame_index: u32,
    settings: &SrsV2EncodeSettings,
    planes: &[Result<Vec<u8>, SrsV2Error>],
    stats: &mut ResidualEncodeStats,
    aq_out: &mut SrsV2AqEncodeStats,
) -> (r: Result<Vec<u8>, SrsV2Error>)
    requires
        plan.magic@ == intra_magic(*settings)@,
        planes@.len() == 3,
    ensures
        match intra_payload(*settings, frame_index as int, plan.qp as int, planes@) {
            Err(e) => r == Err::<Vec<u8>, SrsV2Error>(e),
            Ok(b) => r is Ok && r->Ok_0@ == b,
        },
        *final(stats) == intra_counted(*settings, *old(stats)),
        *final(aq_out) == if plane_failure(planes@, 3) is None {
            plan.aq
        } else {
            *old(aq_out)
        },
{
    if settings.residual_entropy != ResidualEntropy::Explicit && settings.residual_context_mode
        == SrsV2ResidualContextMode::ContextV1 {
        stats.residual_context_enabled = true;
    }
    let mut head: Vec<u8> = Vec::new();
    push_all(&mut head, plan.magic.as_slice());
    push_u32(&mut head, frame_index);
    head.push(plan.qp);
    if intra_use_block_aq_wire(settings) {
        head.push(settings.min_qp);
        head.push(settings.max_qp);
    }
    assert(head@ =~= intra_head(
        intra_magic(*settings)@,
        *settings,
        frame_index as int,
        plan.qp as int,
    ));
    proof {
        reveal_with_fuel(plane_failure, 4);
    }
    if planes[0].is_ok() && planes[1].is_ok() && planes[2].is_ok() {
        *aq_out = plan.aq;
    }
    frame_planes(head, planes, "encoded frame")
}

/// A framed chunk stands in `data` with so many bytes before it.
#[verifier::opaque]
spec fn framed_at(data: Seq<u8>, at: int, c: Seq<u8>) -> bool {
    exists|pre: Seq<u8>, post: Seq<u8>|
        pre.len() == at && data == #[trigger] (pre + (bytes32(c.len() as int) + c) + post)
}

proof fn lemma_framed_at(data: Seq<u8>, pre: Seq<u8>, c: Seq<u8>, post: Seq<u8>)
    requires
        data == pre + (bytes32(c.len() as int) + c) + post,
    ensures
        framed_at(data, pre.len() as int, c),
{
    reveal(framed_at);
}

/// The three chunks behind a head.
proof fn lemma_three_chunks(
    data: Seq<u8>,
    head: Seq<u8>,
    y: Seq<u8>,
    u: Seq<u8>,
    v: Seq<u8>,
)
    requires
        data == head + (Seq::<u8>::empty() + bytes32(y.len() as int) + y + bytes32(u.len() as int)
            + u + bytes32(v.len() as int) + v),
    ensures
        framed_at(data, head.len() as int, y),
        framed_at(data, (head.len() + 4 + y.len()) as int, u),
        framed_at(data, (head.len() + 8 + y.len() + u.len()) as int, v),
        data.len() == head.len() + 12 + y.len() + u.len() + v.len(),
{
    let fy = bytes32(y.len() as int) + y;
    let fu = bytes32(u.len() as int) + u;
    let fv = bytes32(v.len() as int) + v;
    assert(data =~= head + fy + (fu + fv));
    lemma_framed_at(data, head, y, fu + fv);
    assert(data =~= (head + fy) + fu + fv);
    lemma_framed_at(data, head + fy, u, fv);
    assert(data =~= (head + fy + fu) + fv + Seq::<u8>::empty());
    lemma_framed_at(data, head + fy + fu, v, Seq::empty());
}

pub proof fn lemma_chunks_spelled(planes: Seq<Result<Vec<u8>, SrsV2Error>>)
    requires
        plane_chunks(planes, 3) is Ok,
    ensures
        ({
            let y = planes[0]->Ok_0@;
            let u = planes[1]->Ok_0@;
            let v = planes[2]->Ok_0@;
            &&& plane_chunks(planes, 3)->Ok_0 == Seq::<u8>::empty() + bytes32(y.len() as int) + y
                + bytes32(u.len() as int) + u + bytes32(v.len() as int) + v
            &&& y.len() <= u32::MAX
            &&& u.len() <= u32::MAX
            &&& v.len() <= u32::MAX
        }),
{
    reveal_with_fuel(plane_chunks, 4);
}

/// Three planes that were framed are found again.
pub proof fn framed_planes_are_found(
    head: Seq<u8>,
    planes: Seq<Result<Vec<u8>, SrsV2Error>>,
    limit: &'static str,
    alt: bool,
)
    requires
        planes.len() == 3,
        framed_planes(head, planes, limit) is Ok,
    ensures
        ({
            let data = framed_planes(head, planes, limit)->Ok_0;
            let s = take_planes(data, head.len() as int, alt);
            &&& s is Ok
            &&& data.subrange(s->Ok_0.y.0, s->Ok_0.y.1) == planes[0]->Ok_0@
            &&& data.subrange(s->Ok_0.u.0, s->Ok_0.u.1) == planes[1]->Ok_0@
            &&& data.subrange(s->Ok_0.v.0, s->Ok_0.v.1) == planes[2]->Ok_0@
            &&& head.len() <= s->Ok_0.y.0 <= s->Ok_0.y.1 <= data.len()
            &&& head.len() <= s->Ok_0.u.0 <= s->Ok_0.u.1 <= data.len()
            &&& head.len() <= s->Ok_0.v.0 <= s->Ok_0.v.1 <= data.len()
        }),
{
    lemma_chunks_spelled(planes);
    lemma_three_chunks(
        framed_planes(head, planes, limit)->Ok_0,
        head,
        planes[0]->Ok_0@,
        planes[1]->Ok_0@,
        planes[2]->Ok_0@,
    );
    lemma_framed_found(
        framed_planes(head, planes, limit)->Ok_0,
        head.len() as int,
        planes[0]->Ok_0@,
        planes[1]->Ok_0@,
        planes[2]->Ok_0@,
        alt,
    );
}

proof fn lemma_plane_at(data: Seq<u8>, pre: Seq<u8>, c: Seq<u8>, post: Seq<u8>)
    requires
        data == pre + (bytes32(c.len() as int) + c) + post,
        c.len() <= u32::MAX,
    ensures
        le32(data, pre.len() as int) == c.len(),
        data.subrange(pre.len() as int + 4, pre.len() as int + 4 + c.len() as int) == c,
{
    let n = bytes32(c.len() as int);
    assert(data =~= pre + n + (c + post));
    le32_reads_bytes32(pre, c.len() as int, c + post);
    assert(data.subrange(pre.len() as int + 4, pre.len() as int + 4 + c.len() as int) =~= c);
}

#[verifier::rlimit(60)]
proof fn lemma_planes_at(data: Seq<u8>, head: Seq<u8>, y: Seq<u8>, u: Seq<u8>, v: Seq<u8>)
    requires
        data == head + (Seq::<u8>::empty() + bytes32(y.len() as int) + y + bytes32(u.len() as int)
            + u + bytes32(v.len() as int) + v),
        y.len() <= u32::MAX,
        u.len() <= u32::MAX,
        v.len() <= u32::MAX,
    ensures
        ({
            let h = head.len() as int;
            let (a, b, c) = (y.len() as int, u.len() as int, v.len() as int);
            &&& data.len() == h + 12 + a + b + c
            &&& le32(data, h) == a
            &&& data.subrange(h + 4, h + 4 + a) == y
            &&& le32(data, h + 4 + a) == b
            &&& data.subrange(h + 8 + a, h + 8 + a + b) == u
            &&& le32(data, h + 8 + a + b) == c
            &&& data.subrange(h + 12 + a + b, h + 12 + a + b + c) == v
        }),
{
    let fy = bytes32(y.len() as int) + y;
    let fu = bytes32(u.len() as int) + u;
    let fv = bytes32(v.len() as int) + v;
    assert(data =~= head + fy + (fu + fv));
    lemma_plane_at(data, head, y, fu + fv);
    assert(data =~= (head + fy) + fu + fv);
    lemma_plane_at(data, head + fy, u, fv);
    assert(data =~= (head + fy + fu) + fv + Seq::<u8>::empty());
    lemma_plane_at(data, head + fy + fu, v, Seq::empty());
}

/// The planes stand behind one another, luma first, then blue and red chroma, each behind its length
/// in 32 bits.
#[verifier::rlimit(60)]
pub proof fn planes_stand_luma_first(
    head: Seq<u8>,
    planes: Seq<Result<Vec<u8>, SrsV2Error>>,
    limit: &'static str,
)
    requires
        framed_planes(head, planes, limit) is Ok,
    ensures
        ({
            let d = framed_planes(head, planes, limit)->Ok_0;
            let h = head.len() as int;
            let (y, u, v) = (planes[0]->Ok_0@, planes[1]->Ok_0@, planes[2]->Ok_0@);
            let (a, b, c) = (y.len() as int, u.len() as int, v.len() as int);
            &&& d.len() == h + 12 + a + b + c
            &&& le32(d, h) == a
            &&& d.subrange(h + 4, h + 4 + a) == y
            &&& le32(d, h + 4 + a) == b
            &&& d.subrange(h + 8 + a, h + 8 + a + b) == u
            &&& le32(d, h + 8 + a + b) == c
            &&& d.subrange(h + 12 + a + b, h + 12 + a + b + c) == v
        }),
{
    let d = framed_planes(head, planes, limit)->Ok_0;
    let (y, u, v) = (planes[0]->Ok_0@, planes[1]->Ok_0@, planes[2]->Ok_0@);
    lemma_chunks_spelled(planes);
    lemma_planes_at(d, head, y, u, v);
}

proof fn lemma_framed_found(
    data: Seq<u8>,
    n: int,
    y: Seq<u8>,
    u: Seq<u8>,
    v: Seq<u8>,
    alt: bool,
)
    requires
        framed_at(data, n, y),
        framed_at(data, n + 4 + y.len(), u),
        framed_at(data, n + 8 + y.len() + u.len(), v),
        data.len() == n + 12 + y.len() + u.len() + v.len(),
        y.len() <= u32::MAX,
        u.len() <= u32::MAX,
        v.len() <= u32::MAX,
        data.len() <= usize::MAX,
    ensures
        ({
            let ny = y.len() as int;
            let nu = u.len() as int;
            let nv = v.len() as int;
            &&& take_planes(data, n, alt) == Ok::<ThreeSpans, SrsV2Error>(
                ThreeSpans {
                    y: (n + 4, n + 4 + ny),
                    u: (n + 8 + ny, n + 8 + ny + nu),
                    v: (n + 12 + ny + nu, n + 12 + ny + nu + nv),
                },
            )
            &&& data.subrange(n + 4, n + 4 + ny) == y
            &&& data.subrange(n + 8 + ny, n + 8 + ny + nu) == u
            &&& data.subrange(n + 12 + ny + nu, n + 12 + ny + nu + nv) == v
        }),
{
    let ny = y.len() as int;
    let nu = u.len() as int;
    let nv = v.len() as int;
    lemma_span_in(data, n, y, if alt { "alt-ref y chunk" } else { "y chunk" });
    lemma_span_in(data, n + 4 + ny, u, if alt { "alt-ref u chunk" } else { "u chunk" });
    lemma_span_in(data, n + 8 + ny + nu, v, if alt { "alt-ref v chunk" } else { "v chunk" });
    lemma_planes_found(data, n, ny, nu, nv, alt);
}

/// A framed chunk is found.
proof fn lemma_span_in(data: Seq<u8>, at: int, c: Seq<u8>, label: &'static str)
    requires
        framed_at(data, at, c),
        c.len() <= u32::MAX,
        data.len() <= usize::MAX,
    ensures
        span_found(data, at, c.len() as int, label),
        data.subrange(at + 4, at + 4 + c.len()) == c,
        0 <= at,
{
    reveal(framed_at);
    let (pre, post) = choose|pre: Seq<u8>, post: Seq<u8>|
        pre.len() == at && data == #[trigger] (pre + (bytes32(c.len() as int) + c) + post);
    span_round_trip(pre, c, post, label);
}

/// A span of `len` bytes stands behind its length at `at`.
spec fn span_found(data: Seq<u8>, at: int, len: int, label: &'static str) -> bool {
    take_span(data, at, label) == (Read::<(int, int)> {
        value: Ok((at + 4, at + 4 + len)),
        next: at + 4 + len,
    })
}

proof fn lemma_planes_found(data: Seq<u8>, n: int, ny: int, nu: int, nv: int, alt: bool)
    requires
        span_found(data, n, ny, if alt { "alt-ref y chunk" } else { "y chunk" }),
        span_found(data, n + 4 + ny, nu, if alt { "alt-ref u chunk" } else { "u chunk" }),
        span_found(data, n + 8 + ny + nu, nv, if alt { "alt-ref v chunk" } else { "v chunk" }),
        data.len() == n + 12 + ny + nu + nv,
    ensures
        take_planes(data, n, alt) == Ok::<ThreeSpans, SrsV2Error>(
            ThreeSpans {
                y: (n + 4, n + 4 + ny),
                u: (n + 8 + ny, n + 8 + ny + nu),
                v: (n + 12 + ny + nu, n + 12 + ny + nu + nv),
            },
        ),
{
}

proof fn lemma_intra_head(s: SrsV2EncodeSettings, frame_index: int, qp: int, rest: Seq<u8>)
    requires
        0 <= frame_index < 4294967296,
        0 <= qp < 256,
        s.coeff_layout_mode == SrsV2CoeffLayoutMode::CompactV1 ==> !intra_sends_deltas(s),
    ensures
        ({
            let head = intra_head(intra_magic(s)@, s, frame_index, qp);
            let f = intra_fields(head + rest);
            &&& head.len() == if f.rev == 7 { 11int } else { 9 }
            &&& f.rev == intra_magic(s)@[3]
            &&& f.frame_index == frame_index
            &&& f.base_qp == qp
            &&& intra_sends_deltas(s) == (f.rev == 7)
            &&& intra_sends_deltas(s) ==> f.clip_min == s.min_qp && f.clip_max == s.max_qp
            &&& has_intra_magic(head + rest)
        }),
{
    let m = intra_magic(s)@;
    let head = intra_head(m, s, frame_index, qp);
    let tail = seq![qp as u8] + (if intra_sends_deltas(s) {
        seq![s.min_qp, s.max_qp]
    } else {
        seq![]
    });
    assert(m.len() == 4);
    let data = head + rest;
    assert(data =~= m + bytes32(frame_index) + (tail + rest));
    le32_reads_bytes32(m, frame_index, tail + rest);
    assert(data[8] == qp as u8);
    assert(data[0] == m[0] && data[1] == m[1] && data[2] == m[2] && data[3] == m[3]);
    if intra_sends_deltas(s) {
        assert(data[9] == s.min_qp);
        assert(data[10] == s.max_qp);
    }
}

/// An intra payload that was written is taken apart into the fields and the planes that it was
/// written from.
pub proof fn intra_payload_round_trip(
    s: SrsV2EncodeSettings,
    frame_index: int,
    qp: int,
    planes: Seq<Result<Vec<u8>, SrsV2Error>>,
)
    requires
        planes.len() == 3,
        0 <= frame_index < 4294967296,
        0 <= qp < 256,
        s.coeff_layout_mode == SrsV2CoeffLayoutMode::CompactV1 ==> !intra_sends_deltas(s),
        intra_sends_deltas(s) ==> clip_range_ok(s.min_qp as int, s.max_qp as int),
        intra_payload(s, frame_index, qp, planes) is Ok,
    ensures
        ({
            let data = intra_payload(s, frame_index, qp, planes)->Ok_0;
            let l = intra_layout(data)->Ok_0;
            &&& intra_layout(data) is Ok
            &&& l.rev == intra_magic(s)@[3]
            &&& l.frame_index == frame_index
            &&& l.base_qp == qp
            &&& intra_sends_deltas(s) ==> l.clip_min == s.min_qp && l.clip_max == s.max_qp
            &&& chunk_at(data, l.y) == planes[0]->Ok_0@
            &&& chunk_at(data, l.u) == planes[1]->Ok_0@
            &&& chunk_at(data, l.v) == planes[2]->Ok_0@
        }),
{
    let m = intra_magic(s)@;
    let head = intra_head(m, s, frame_index, qp);
    let data = intra_payload(s, frame_index, qp, planes)->Ok_0;
    framed_planes_are_found(head, planes, "encoded frame", false);
    lemma_intra_head(s, frame_index, qp, plane_chunks(planes, 3)->Ok_0);
    lemma_chunks_spelled(planes);
}

/// Decoding the explicit tuples of a finished plane, from the residual samples that its encoder
/// saw, gives the encoder's own reconstruction.
pub proof fn explicit_plane_round_trip(
    e: IntraPlaneEncoder,
    w: int,
    h: int,
    res: Vec<[i16; 64]>,
    trailing: &'static str,
)
    requires
        e.wf(),
        !e.coded,
        e.done == e.total(),
        e.pw == padded_len(w),
        e.ph == padded_len(h),
        residual_views(res@) == e.residuals@,
    ensures
        plane_outcome(PlaneInput::Residuals(res), e.out@, 1, w, h, trailing) == Ok::<
            Seq<u8>,
            SrsV2Error,
        >(cropped(e.rec@, padded_len(w), w, h)),
{
    decoder_matches_encoder(e);
}

proof fn lemma_planes_cut(data: Seq<u8>, cur: int, k: int)
    requires
        0 <= cur <= k < data.len(),
        take_planes(data, cur, false) is Ok,
    ensures
        take_planes(data.take(k), cur, false) == Err::<ThreeSpans, SrsV2Error>(
            SrsV2Error::Truncated,
        ),
{
    let short = data.take(k);
    let a = take_span(data, cur, "y chunk");
    let b = take_span(data, a.next, "u chunk");
    span_needs_its_bytes(data, cur, "y chunk", short, k);
    span_needs_its_bytes(data, a.next, "u chunk", short, k);
    span_needs_its_bytes(data, b.next, "v chunk", short, k);
}

proof fn lemma_planes_extended(data: Seq<u8>, cur: int, b: u8)
    requires
        0 <= cur,
        take_planes(data, cur, false) is Ok,
    ensures
        take_planes(data.push(b), cur, false) == Err::<ThreeSpans, SrsV2Error>(
            SrsV2Error::Syntax("trailing frame bytes"),
        ),
{
    let long = data.push(b);
    let y = take_span(data, cur, "y chunk");
    let u = take_span(data, y.next, "u chunk");
    span_needs_its_bytes(data, cur, "y chunk", long, 0);
    span_needs_its_bytes(data, y.next, "u chunk", long, 0);
    span_needs_its_bytes(data, u.next, "v chunk", long, 0);
}

/// What an accepted intra payload says of itself and of its picture.
pub proof fn accepted_intra_payload(
    seq: VideoSequenceHeaderV2,
    data: Seq<u8>,
    planes: Seq<PlaneInput>,
    f: DecodedVideoFrameV2,
)
    requires
        intra_decoded(seq, data, planes, Ok(f)),
    ensures
        data.len() >= 21,
        data.take(3) == seq![70u8, 82u8, 50u8],
        intra_revision(data[3] as int),
        f.frame_index == le32(data, 4),
        f.is_displayable,
        f.width == seq.width,
        f.height == seq.height,
        f.yuv.y.width == seq.width,
        f.yuv.y.height == seq.height,
        f.yuv.u.width == (seq.width + 1) / 2,
        f.yuv.u.height == (seq.height + 1) / 2,
        f.yuv.v.width == (seq.width + 1) / 2,
        f.yuv.v.height == (seq.height + 1) / 2,
        f.yuv.valid(),
{
    assert(data.take(3) =~= seq![70u8, 82u8, 50u8]);
}

/// An accepted intra payload is truncated with any bytes cut off, and refused with any byte behind
/// it, whatever its planes are decoded to.
pub proof fn cut_or_extended_intra_is_refused(
    seq: VideoSequenceHeaderV2,
    data: Seq<u8>,
    k: int,
    b: u8,
    planes: Seq<PlaneInput>,
    short: Result<DecodedVideoFrameV2, SrsV2Error>,
    long: Result<DecodedVideoFrameV2, SrsV2Error>,
)
    requires
        intra_opening(seq, data) is Ok,
        0 <= k < data.len(),
        intra_decoded(seq, data.take(k), planes, short),
        intra_decoded(seq, data.push(b), planes, long),
    ensures
        short == Err::<DecodedVideoFrameV2, SrsV2Error>(SrsV2Error::Truncated),
        long == Err::<DecodedVideoFrameV2, SrsV2Error>(SrsV2Error::Syntax("trailing frame bytes")),
{
    let at: int = if data[3] == 7 { 11 } else { 9 };
    lemma_planes_extended(data, at, b);
    if k >= intra_minimum(data) {
        lemma_planes_cut(data, at, k);
    }
}

} // verus!
