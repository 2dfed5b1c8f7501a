//! Frame payloads of every kind: hidden references, the choice between intra and forward coding,
//! and the way from a payload to a picture and the reference store.
use vstd::prelude::*;

use crate::arith::greatest;
use crate::bytes::{bytes32, get_u32, le32, le32_reads_bytes32, push_all, push_u32};
use super::adaptive_quant::{
    frame_aq, resolve_frame_adaptive_qp, SrsV2AqEncodeStats, SrsV2BlockAqWireStats,
};
use super::b_decode::{b_decoded, b_parse, decode_yuv420_b_payload, found_sections, grids_countable};
use super::b_encode::blend_magic;
use super::block_aq::{sends_block_deltas, sends_deltas};
use super::deblock::{apply_loop_filter_y, loop_filtered, SrsV2LoopFilterMode};
use super::error::SrsV2Error;
use super::frame::{
    clone_frame, plane_refusal, DecodedVideoFrameV2, FrameView, PlaneView, VideoPlane, YuvFrame,
};
use super::inter_write::{planned_view, CodedResidual};
use super::intra_codec::step_of;
use super::intra_frame::{
    chunk_at, decode_planes, decode_yuv420_intra_payload, encode_yuv420_intra_payload, frame_planes,
    framed_planes, framed_planes_are_found, holds_planes, inputs_fit, intra_aq, intra_counted,
    intra_decoded, intra_encode_refusal, intra_inputs_fit, intra_magic, intra_payload,
    intra_revision, lemma_chunks_spelled, plan_intra_frame, plane_chunks, plane_failure,
    planes_outcome, read_planes, spans_inside, take_planes, with_spans, FRAME_PAYLOAD_MAGIC_ALT_REF,
    IntraLayout, IntraPlan, PlaneInput,
};
use super::limits::MAX_REF_FRAMES;
use super::model::{filter_mode, PixelFormat, VideoSequenceHeaderV2};
use super::motion_search::SrsV2MotionEncodeStats;
use super::p_frame_codec::{
    coded_as_asked, counted, decode_yuv420_p_payload, encode_yuv420_p_payload, mb_count, p_decoded,
    p_magic, p_payload, p_planned, p_reached, p_reading, p_refusal, plan_p_frame, PFramePlan,
};
use super::p_var_encode::var_magic;
use super::payload_kind::kind_of_revision;
use super::rate_control::{
    ResidualEncodeStats, SrsV2EncodeSettings, SrsV2ResidualContextMode, SrsV2SubpelMode,
};
use super::reference_manager::{following, slot_refusal, SrsV2ReferenceKind, SrsV2ReferenceManager};

verus! {

/// `b` is `a` with its luma filtered as the sequence asks; nothing else changes.
pub open spec fn filter_applied(
    seq: VideoSequenceHeaderV2,
    a: DecodedVideoFrameV2,
    b: DecodedVideoFrameV2,
) -> bool {
    &&& b.frame_index == a.frame_index
    &&& b.width == a.width
    &&& b.height == a.height
    &&& b.is_displayable == a.is_displayable
    &&& b.yuv.format == a.yuv.format
    &&& b.yuv.u@ == a.yuv.u@
    &&& b.yuv.v@ == a.yuv.v@
    &&& b.yuv.y@ == (PlaneView {
        samples: loop_filtered(filter_mode(seq), seq.deblock_strength, a.yuv.y),
        ..a.yuv.y@
    })
}

/// Applies the loop filter of the sequence to a reconstructed picture, once, before it is shown
/// or stored as a reference.
pub fn apply_reconstruction_filter_if_enabled(
    seq: &VideoSequenceHeaderV2,
    frame: &mut DecodedVideoFrameV2,
)
    requires
        old(frame).yuv.y.width <= old(frame).yuv.y.stride,
    ensures
        filter_applied(*seq, *old(frame), *final(frame)),
        final(frame).yuv.y.samples@.len() == old(frame).yuv.y.samples@.len(),
{
    apply_loop_filter_y(seq.loop_filter_mode(), seq.deblock_strength, &mut frame.yuv.y);
}

/// A hidden reference payload taken apart. `slots` is the size of the reference store.
pub open spec fn alt_ref_layout(
    seq: VideoSequenceHeaderV2,
    data: Seq<u8>,
    slots: int,
) -> Result<IntraLayout, SrsV2Error> {
    if seq.pixel_format != PixelFormat::Yuv420p8 {
        Err(SrsV2Error::Unsupported("decode path only supports YUV420p8 in this slice"))
    } else if seq.max_ref_frames == 0 {
        Err(SrsV2Error::Syntax("alt-ref requires max_ref_frames >= 1"))
    } else if data.len() < 23 {
        Err(SrsV2Error::Truncated)
    } else if data[0] != 70 || data[1] != 82 || data[2] != 50 || data[3] != 12 {
        Err(SrsV2Error::BadMagic)
    } else if data[10] != 0 {
        Err(SrsV2Error::Syntax("alt-ref header reserved"))
    } else {
        match slot_refusal(slots, data[9] as int) {
            Some(e) => Err(e),
            None => match take_planes(data, 11, true) {
                Err(e) => Err(e),
                Ok(s) => match plane_refusal(
                    seq.width as int,
                    seq.height as int,
                    seq.width as int,
                ) {
                    Some(e) => Err(e),
                    None => Ok(
                        with_spans(
                            IntraLayout {
                                rev: 12,
                                frame_index: le32(data, 4) as u32,
                                base_qp: data[8],
                                clip_min: 1,
                                clip_max: 51,
                                target_slot: data[9],
                                y: (0, 0),
                                u: (0, 0),
                                v: (0, 0),
                            },
                            s,
                        ),
                    ),
                },
            },
        }
    }
}

/// Takes a hidden reference payload apart, for its planes to be decoded.
pub fn parse_alt_ref_payload(
    seq: &VideoSequenceHeaderV2,
    payload: &[u8],
    manager: &SrsV2ReferenceManager,
) -> (r: Result<IntraLayout, SrsV2Error>)
    ensures
        r == alt_ref_layout(*seq, payload@, manager.slots@.len() as int),
        r matches Ok(l) ==> spans_inside(l, payload@.len() as int) && l.rev == 12
            && l.target_slot == payload@[9],
{
    if seq.pixel_format != PixelFormat::Yuv420p8 {
        return Err(SrsV2Error::Unsupported("decode path only supports YUV420p8 in this slice"));
    }
    if seq.max_ref_frames == 0 {
        return Err(SrsV2Error::Syntax("alt-ref requires max_ref_frames >= 1"));
    }
    if payload.len() < 23 {
        return Err(SrsV2Error::Truncated);
    }
    if payload[0] != 70 || payload[1] != 82 || payload[2] != 50 || payload[3] != 12 {
        return Err(SrsV2Error::BadMagic);
    }
    if payload[10] != 0 {
        return Err(SrsV2Error::Syntax("alt-ref header reserved"));
    }
    match manager.validate_slot_index(payload[9]) {
        Err(e) => {
            return Err(e);
        },
        Ok(_) => {},
    }
    let (y, u, v) = match read_planes(payload, 11, true) {
        Err(e) => {
            return Err(e);
        },
        Ok(s) => s,
    };
    match VideoPlane::try_new(seq.width, seq.height, seq.width as usize) {
        Err(e) => {
            return Err(e);
        },
        Ok(_) => {},
    }
    Ok(
        IntraLayout {
            rev: 12,
            frame_index: get_u32(payload, 4),
            base_qp: payload[8],
            clip_min: 1,
            clip_max: 51,
            target_slot: payload[9],
            y,
            u,
            v,
        },
    )
}

/// The store holds what it held, but for one slot with a hidden picture.
pub open spec fn alt_ref_stored(
    before: SrsV2ReferenceManager,
    after: SrsV2ReferenceManager,
    slot: int,
    frame_index: u32,
    frame: FrameView,
) -> bool {
    &&& after.max_ref_frames == before.max_ref_frames
    &&& after.slots@.len() == before.slots@.len()
    &&& forall|i: int|
        0 <= i < before.slots@.len() && i != slot ==> #[trigger] after.slots@[i]
            == before.slots@[i]
    &&& after.slots@[slot] matches Some(s) && s.slot_id == slot && s.frame_index == frame_index
        && s.order_index == before.next_order && s.kind == SrsV2ReferenceKind::AltRef
        && s.frame@ == frame && !s.is_displayable
    &&& after.next_order == following(before.next_order)
}

/// The unfiltered picture of a hidden reference payload. `slots` is the size of the reference
/// store.
pub open spec fn alt_ref_picture(
    seq: VideoSequenceHeaderV2,
    data: Seq<u8>,
    planes: Seq<PlaneInput>,
    slots: int,
    d: Result<DecodedVideoFrameV2, SrsV2Error>,
) -> bool {
    match alt_ref_layout(seq, data, slots) {
        Err(e) => d == Err::<DecodedVideoFrameV2, SrsV2Error>(e),
        Ok(l) => match planes_outcome(
            data,
            l,
            12,
            seq.width as int,
            seq.height as int,
            planes,
            true,
        ) {
            Err(e) => d == Err::<DecodedVideoFrameV2, SrsV2Error>(e),
            Ok(p) => d is Ok && d->Ok_0.frame_index == l.frame_index && d->Ok_0.width == seq.width
                && d->Ok_0.height == seq.height && !d->Ok_0.is_displayable && holds_planes(
                d->Ok_0.yuv,
                seq.width as int,
                seq.height as int,
                p,
            ),
        },
    }
}

/// The filtered picture of a hidden reference payload, and the store that holds it after that.
pub open spec fn alt_ref_decoded(
    seq: VideoSequenceHeaderV2,
    data: Seq<u8>,
    planes: Seq<PlaneInput>,
    before: SrsV2ReferenceManager,
    r: Result<DecodedVideoFrameV2, SrsV2Error>,
    after: SrsV2ReferenceManager,
) -> bool {
    let slots = before.slots@.len() as int;
    match r {
        Err(e) => alt_ref_picture(seq, data, planes, slots, Err(e)) && after == before,
        Ok(shown) => {
            &&& exists|d: DecodedVideoFrameV2| #[trigger]
                filter_applied(seq, d, shown) && alt_ref_picture(seq, data, planes, slots, Ok(d))
            &&& alt_ref_stored(before, after, data[9] as int, shown.frame_index, shown.yuv@)
        },
    }
}

/// The inputs fit a hidden reference payload.
pub open spec fn alt_ref_inputs_fit(
    seq: VideoSequenceHeaderV2,
    data: Seq<u8>,
    slots: int,
    planes: Seq<PlaneInput>,
) -> bool {
    alt_ref_layout(seq, data, slots) matches Ok(l) ==> inputs_fit(
        data,
        l,
        12,
        seq.width as int,
        seq.height as int,
        planes,
    )
}

fn decode_alt_ref_planes(
    seq: &VideoSequenceHeaderV2,
    payload: &[u8],
    manager: &SrsV2ReferenceManager,
    planes: &[PlaneInput],
) -> (r: Result<DecodedVideoFrameV2, SrsV2Error>)
    requires
        alt_ref_inputs_fit(*seq, payload@, manager.slots@.len() as int, planes@),
    ensures
        alt_ref_picture(*seq, payload@, planes@, manager.slots@.len() as int, r),
        r matches Ok(d) ==> d.yuv.valid() && payload@.len() >= 23 && slot_refusal(
            manager.slots@.len() as int,
            payload@[9] as int,
        ) is None,
{
    let l = match parse_alt_ref_payload(seq, payload, manager) {
        Err(e) => {
            return Err(e);
        },
        Ok(l) => l,
    };
    let yuv = match decode_planes(payload, &l, 12, seq.width, seq.height, planes, true) {
        Err(e) => {
            return Err(e);
        },
        Ok(f) => f,
    };
    Ok(
        DecodedVideoFrameV2 {
            frame_index: l.frame_index,
            width: seq.width,
            height: seq.height,
            is_displayable: false,
            yuv,
        },
    )
}

fn store_alt_ref(manager: &mut SrsV2ReferenceManager, slot: u8, d: &DecodedVideoFrameV2)
    requires
        old(manager).frames_valid(),
        d.yuv.valid(),
        slot_refusal(old(manager).slots@.len() as int, slot as int) is None,
    ensures
        alt_ref_stored(*old(manager), *final(manager), slot as int, d.frame_index, d.yuv@),
        final(manager).frames_valid(),
{
    let copy = clone_frame(&d.yuv);
    let stored = manager.store_alt_ref_at(slot, d.frame_index, copy);
    assert(stored is Ok);
}

/// Decodes a hidden reference picture, filters it as the sequence asks and stores it in its slot.
pub fn decode_yuv420_alt_ref_payload(
    seq: &VideoSequenceHeaderV2,
    payload: &[u8],
    manager: &mut SrsV2ReferenceManager,
    planes: &[PlaneInput],
) -> (r: Result<DecodedVideoFrameV2, SrsV2Error>)
    requires
        old(manager).frames_valid(),
        alt_ref_inputs_fit(*seq, payload@, old(manager).slots@.len() as int, planes@),
    ensures
        alt_ref_decoded(*seq, payload@, planes@, *old(manager), r, *final(manager)),
        final(manager).frames_valid(),
        r matches Ok(d) ==> d.yuv.valid(),
{
    let mut dec = match decode_alt_ref_planes(seq, payload, manager, planes) {
        Err(e) => {
            return Err(e);
        },
        Ok(d) => d,
    };
    let ghost d = dec;
    apply_reconstruction_filter_if_enabled(seq, &mut dec);
    assert(dec.yuv.valid());
    assert(filter_applied(*seq, d, dec));
    store_alt_ref(manager, payload[9], &dec);
    Ok(dec)
}

/// Why a picture cannot be coded as a hidden reference, if it cannot.
pub open spec fn alt_ref_encode_refusal(
    seq: VideoSequenceHeaderV2,
    yuv: YuvFrame,
    target_slot: int,
) -> Option<SrsV2Error> {
    if seq.pixel_format != PixelFormat::Yuv420p8 || yuv.format != PixelFormat::Yuv420p8 {
        Some(SrsV2Error::Unsupported("encode path only supports YUV420p8 in this slice"))
    } else if seq.max_ref_frames == 0 {
        Some(SrsV2Error::Syntax("alt-ref requires max_ref_frames >= 1"))
    } else if seq.max_ref_frames > MAX_REF_FRAMES {
        Some(SrsV2Error::ExcessiveReferenceFrames(seq.max_ref_frames))
    } else {
        slot_refusal(seq.max_ref_frames as int, target_slot)
    }
}

/// The fields of a hidden reference payload ahead of its planes.
pub open spec fn alt_ref_head(frame_index: int, qp: int, target_slot: int) -> Seq<u8> {
    FRAME_PAYLOAD_MAGIC_ALT_REF@ + bytes32(frame_index) + seq![qp as u8, target_slot as u8, 0u8]
}

/// Encodes a hidden reference picture, given what became of its planes.
pub fn encode_yuv420_alt_ref_payload(
    seq: &VideoSequenceHeaderV2,
    yuv: &YuvFrame,
    frame_index: u32,
    qp: u8,
    target_slot: u8,
    planes: &[Result<Vec<u8>, SrsV2Error>],
) -> (r: Result<Vec<u8>, SrsV2Error>)
    requires
        planes@.len() == 3,
    ensures
        match alt_ref_encode_refusal(*seq, *yuv, target_slot as int) {
            Some(e) => r == Err::<Vec<u8>, SrsV2Error>(e),
            None => match framed_planes(
                alt_ref_head(frame_index as int, qp as int, target_slot as int),
                planes@,
                "encoded alt-ref frame",
            ) {
                Err(e) => r == Err::<Vec<u8>, SrsV2Error>(e),
                Ok(b) => r is Ok && r->Ok_0@ == b,
            },
        },
{
    if seq.pixel_format != PixelFormat::Yuv420p8 || yuv.format != PixelFormat::Yuv420p8 {
        return Err(SrsV2Error::Unsupported("encode path only supports YUV420p8 in this slice"));
    }
    if seq.max_ref_frames == 0 {
        return Err(SrsV2Error::Syntax("alt-ref requires max_ref_frames >= 1"));
    }
    let probe = match SrsV2ReferenceManager::new(seq.max_ref_frames) {
        Err(e) => {
            return Err(e);
        },
        Ok(m) => m,
    };
    match probe.validate_slot_index(target_slot) {
        Err(e) => {
            return Err(e);
        },
        Ok(_) => {},
    }
    let mut head: Vec<u8> = Vec::new();
    push_all(&mut head, FRAME_PAYLOAD_MAGIC_ALT_REF.as_slice());
    push_u32(&mut head, frame_index);
    head.push(qp);
    head.push(target_slot);
    head.push(0);
    assert(head@ =~= alt_ref_head(frame_index as int, qp as int, target_slot as int));
    frame_planes(head, planes, "encoded alt-ref frame")
}

/// A hidden reference payload that was written is taken apart into what it was written from.
pub proof fn alt_ref_round_trip(
    seq: VideoSequenceHeaderV2,
    yuv: YuvFrame,
    frame_index: int,
    qp: int,
    target_slot: int,
    planes: Seq<Result<Vec<u8>, SrsV2Error>>,
)
    requires
        planes.len() == 3,
        0 <= frame_index < 4294967296,
        0 <= qp < 256,
        0 <= target_slot < 256,
        alt_ref_encode_refusal(seq, yuv, target_slot) is None,
        plane_refusal(seq.width as int, seq.height as int, seq.width as int) is None,
        framed_planes(
            alt_ref_head(frame_index, qp, target_slot),
            planes,
            "encoded alt-ref frame",
        ) is Ok,
    ensures
        ({
            let data = framed_planes(
                alt_ref_head(frame_index, qp, target_slot),
                planes,
                "encoded alt-ref frame",
            )->Ok_0;
            let l = alt_ref_layout(seq, data, seq.max_ref_frames as int)->Ok_0;
            &&& alt_ref_layout(seq, data, seq.max_ref_frames as int) is Ok
            &&& l.frame_index == frame_index
            &&& l.base_qp == qp
            &&& l.target_slot == target_slot
            &&& chunk_at(data, l.y) == planes[0]->Ok_0@
            &&& chunk_at(data, l.u) == planes[1]->Ok_0@
            &&& chunk_at(data, l.v) == planes[2]->Ok_0@
        }),
{
    framed_planes_are_found(
        alt_ref_head(frame_index, qp, target_slot),
        planes,
        "encoded alt-ref frame",
        true,
    );
    lemma_alt_ref_head(frame_index, qp, target_slot, plane_chunks(planes, 3)->Ok_0);
    lemma_chunks_spelled(planes);
}

proof fn lemma_alt_ref_head(frame_index: int, qp: int, target_slot: int, rest: Seq<u8>)
    requires
        0 <= frame_index < 4294967296,
        0 <= qp < 256,
        0 <= target_slot < 256,
    ensures
        ({
            let head = alt_ref_head(frame_index, qp, target_slot);
            let data = head + rest;
            &&& head.len() == 11
            &&& data[0] == 70 && data[1] == 82 && data[2] == 50 && data[3] == 12
            &&& le32(data, 4) == frame_index
            &&& data[8] == qp
            &&& data[9] == target_slot
            &&& data[10] == 0
        }),
{
    let m = FRAME_PAYLOAD_MAGIC_ALT_REF@;
    let tail = seq![qp as u8, target_slot as u8, 0u8];
    let data = alt_ref_head(frame_index, qp, target_slot) + rest;
    assert(data =~= m + bytes32(frame_index) + (tail + rest));
    le32_reads_bytes32(m, frame_index, tail + rest);
    assert(data[0] == m[0] && data[1] == m[1] && data[2] == m[2] && data[3] == m[3]);
}

/// Where a payload goes.
#[derive(Debug, Clone, Copy, PartialEq, Eq, Structural)]
pub enum PayloadRoute {
    Intra,
    Forward,
    Bidirectional,
    HiddenReference,
    Unknown,
}

/// Where a payload of revision `rev` goes.
pub open spec fn route_of(rev: int) -> PayloadRoute {
    if intra_revision(rev) {
        PayloadRoute::Intra
    } else if rev == 2 || rev == 4 || rev == 5 || rev == 6 || rev == 8 || rev == 9 || rev == 15
        || rev == 17 || rev == 19 || rev == 20 || rev == 23 || rev == 25 || rev == 27 || rev == 28
        || rev == 30 || rev == 33 {
        PayloadRoute::Forward
    } else if rev == 10 || rev == 11 || rev == 13 || rev == 14 || rev == 16 || rev == 18 || rev
        == 21 || rev == 22 || rev == 24 || rev == 31 {
        PayloadRoute::Bidirectional
    } else if rev == 12 {
        PayloadRoute::HiddenReference
    } else {
        PayloadRoute::Unknown
    }
}

/// Where a payload of revision `rev` goes.
pub fn payload_route(rev: u8) -> (r: PayloadRoute)
    ensures
        r == route_of(rev as int),
{
    match rev {
        1 | 3 | 7 | 29 | 32 => PayloadRoute::Intra,
        2 | 4 | 5 | 6 | 8 | 9 | 15 | 17 | 19 | 20 | 23 | 25 | 27 | 28 | 30 | 33 => {
            PayloadRoute::Forward
        },
        10 | 11 | 13 | 14 | 16 | 18 | 21 | 22 | 24 | 31 => PayloadRoute::Bidirectional,
        12 => PayloadRoute::HiddenReference,
        _ => PayloadRoute::Unknown,
    }
}

/// What is indexed as a keyframe is decoded without a reference picture, what is kept out of the
/// display is decoded as a hidden reference, and what is decoded against references is never
/// indexed as a keyframe.
pub proof fn keyframes_need_no_reference(rev: int)
    ensures
        kind_of_revision(rev) is Intra ==> route_of(rev) is Intra,
        kind_of_revision(rev) is AltRef <==> route_of(rev) is HiddenReference,
        route_of(rev) is Forward || route_of(rev) is Bidirectional ==> kind_of_revision(rev)
            !is Intra,
        kind_of_revision(rev) is Predicted && route_of(rev) !is Unknown ==> route_of(rev) is Forward
            || route_of(rev) is Bidirectional,
{
}

/// The picture of the first slot.
pub open spec fn primary(m: SrsV2ReferenceManager) -> Option<YuvFrame> {
    if m.slots@.len() > 0 && m.slots@[0] is Some {
        Some(m.slots@[0]->0.frame)
    } else {
        None
    }
}

/// The store after an intra picture: that picture alone, in the first slot.
pub open spec fn keyframe_stored(
    before: SrsV2ReferenceManager,
    after: SrsV2ReferenceManager,
    d: DecodedVideoFrameV2,
) -> bool {
    &&& after.max_ref_frames == before.max_ref_frames
    &&& after.slots@.len() == before.slots@.len()
    &&& before.slots@.len() == 0 ==> after.next_order == 0
    &&& before.slots@.len() > 0 ==> {
        &&& after.slots@[0] matches Some(s) && s.slot_id == 0 && s.frame_index == d.frame_index
            && s.order_index == 0 && s.kind == SrsV2ReferenceKind::Golden && s.frame@ == d.yuv@
            && s.is_displayable
        &&& forall|i: int| 1 <= i < after.slots@.len() ==> #[trigger] after.slots@[i] is None
        &&& after.next_order == 1
    }
}

/// The store after a forward picture: that picture in the first slot, the others moved up.
pub open spec fn forward_stored(
    before: SrsV2ReferenceManager,
    after: SrsV2ReferenceManager,
    d: DecodedVideoFrameV2,
) -> bool {
    &&& after.max_ref_frames == before.max_ref_frames
    &&& after.slots@.len() == before.slots@.len()
    &&& before.slots@.len() == 0 ==> after.next_order == before.next_order
    &&& before.slots@.len() > 0 ==> {
        &&& after.slots@[0] matches Some(s) && s.slot_id == 0 && s.frame_index == d.frame_index
            && s.order_index == before.next_order && s.kind == SrsV2ReferenceKind::Last
            && s.frame@ == d.yuv@ && s.is_displayable
        &&& forall|i: int|
            1 <= i < after.slots@.len() ==> #[trigger] after.slots@[i] == before.slots@[i - 1]
        &&& after.next_order == following(before.next_order)
    }
}

/// What the outside has to supply for a payload is there.
pub open spec fn payload_inputs_fit(
    seq: VideoSequenceHeaderV2,
    data: Seq<u8>,
    m: SrsV2ReferenceManager,
    planes: Seq<PlaneInput>,
    mv_bytes: Seq<Result<Vec<u8>, SrsV2Error>>,
    residuals: Seq<Result<[i16; 64], SrsV2Error>>,
) -> bool {
    data.len() >= 4 ==> match route_of(data[3] as int) {
        PayloadRoute::Intra => intra_inputs_fit(seq, data, planes),
        PayloadRoute::Forward => primary(m) matches Some(f) ==> (p_refusal(seq, data, f) is None
            ==> residuals.len() == p_reading(seq, data).blocks.len()),
        PayloadRoute::Bidirectional => {
            &&& grids_countable(seq, data, m, mv_bytes)
            &&& mv_bytes.len() == found_sections(data, mb_count(seq)).len()
            &&& b_parse(seq, data, m, mv_bytes) is Ok ==> residuals.len() == b_parse(
                seq,
                data,
                m,
                mv_bytes,
            )->Ok_0.blocks.len()
        },
        PayloadRoute::HiddenReference => alt_ref_inputs_fit(
            seq,
            data,
            m.slots@.len() as int,
            planes,
        ),
        PayloadRoute::Unknown => true,
    }
}

/// The unfiltered picture of a payload.
pub open spec fn payload_picture(
    seq: VideoSequenceHeaderV2,
    data: Seq<u8>,
    m: SrsV2ReferenceManager,
    planes: Seq<PlaneInput>,
    mv_bytes: Seq<Result<Vec<u8>, SrsV2Error>>,
    residuals: Seq<Result<[i16; 64], SrsV2Error>>,
    d: Result<DecodedVideoFrameV2, SrsV2Error>,
) -> bool {
    if data.len() < 4 {
        d == Err::<DecodedVideoFrameV2, SrsV2Error>(SrsV2Error::Truncated)
    } else {
        match route_of(data[3] as int) {
            PayloadRoute::Intra => intra_decoded(seq, data, planes, d),
            PayloadRoute::Forward => match primary(m) {
                None => d == Err::<DecodedVideoFrameV2, SrsV2Error>(
                    SrsV2Error::PFrameWithoutReference,
                ),
                Some(f) => p_decoded(seq, data, f, residuals, d),
            },
            PayloadRoute::Bidirectional => if seq.max_ref_frames < 2 {
                d == Err::<DecodedVideoFrameV2, SrsV2Error>(
                    SrsV2Error::Syntax("B-frame requires max_ref_frames >= 2 in sequence header"),
                )
            } else {
                b_decoded(seq, data, m, mv_bytes, residuals, d)
            },
            PayloadRoute::HiddenReference => alt_ref_picture(
                seq,
                data,
                planes,
                m.slots@.len() as int,
                d,
            ),
            PayloadRoute::Unknown => d == Err::<DecodedVideoFrameV2, SrsV2Error>(
                SrsV2Error::Unsupported("unknown SRSV2 frame payload revision"),
            ),
        }
    }
}

/// The reference store after a picture that came from `data`; `shown` is the filtered picture.
pub open spec fn payload_stored(
    seq: VideoSequenceHeaderV2,
    data: Seq<u8>,
    before: SrsV2ReferenceManager,
    shown: DecodedVideoFrameV2,
    after: SrsV2ReferenceManager,
) -> bool {
    match route_of(data[3] as int) {
        PayloadRoute::Intra => if seq.max_ref_frames > 0 {
            keyframe_stored(before, after, shown)
        } else {
            after == before
        },
        PayloadRoute::Forward => if seq.max_ref_frames > 0 {
            forward_stored(before, after, shown)
        } else {
            after == before
        },
        PayloadRoute::HiddenReference => alt_ref_stored(
            before,
            after,
            data[9] as int,
            shown.frame_index,
            shown.yuv@,
        ),
        _ => after == before,
    }
}

fn store_keyframe(manager: &mut SrsV2ReferenceManager, d: &DecodedVideoFrameV2)
    requires
        old(manager).frames_valid(),
        d.yuv.valid(),
    ensures
        keyframe_stored(*old(manager), *final(manager), *d),
        final(manager).frames_valid(),
{
    let copy = clone_frame(&d.yuv);
    manager.replace_after_keyframe(d.frame_index, copy);
}

fn store_forward(manager: &mut SrsV2ReferenceManager, d: &DecodedVideoFrameV2)
    requires
        old(manager).frames_valid(),
        d.yuv.valid(),
    ensures
        forward_stored(*old(manager), *final(manager), *d),
        final(manager).frames_valid(),
{
    let copy = clone_frame(&d.yuv);
    let ghost before = manager.slots@;
    manager.push_displayable_last(d.frame_index, copy);
    assert forall|i: int| 1 <= i < manager.slots@.len() implies #[trigger] manager.slots@[i]
        == before[i - 1] by {
        assert(manager.slots@[i] == before.drop_last()[i - 1]);
    }
}

/// Decodes a payload of any kind against a reference store. The picture is filtered as the
/// sequence asks before it is shown or enters the store; bidirectional pictures do not enter it.
pub fn decode_yuv420_srsv2_payload_managed(
    seq: &VideoSequenceHeaderV2,
    payload: &[u8],
    manager: &mut SrsV2ReferenceManager,
    planes: &[PlaneInput],
    mv_bytes: &[Result<Vec<u8>, SrsV2Error>],
    residuals: &[Result<[i16; 64], SrsV2Error>],
) -> (r: Result<DecodedVideoFrameV2, SrsV2Error>)
    requires
        old(manager).frames_valid(),
        payload_inputs_fit(*seq, payload@, *old(manager), planes@, mv_bytes@, residuals@),
    ensures
        final(manager).frames_valid(),
        match r {
            Err(e) => payload_picture(
                *seq,
                payload@,
                *old(manager),
                planes@,
                mv_bytes@,
                residuals@,
                Err(e),
            ) && *final(manager) == *old(manager),
            Ok(shown) => exists|d: DecodedVideoFrameV2|
                {
                    &&& #[trigger] filter_applied(*seq, d, shown)
                    &&& payload_picture(
                        *seq,
                        payload@,
                        *old(manager),
                        planes@,
                        mv_bytes@,
                        residuals@,
                        Ok(d),
                    )
                    &&& payload_stored(*seq, payload@, *old(manager), shown, *final(manager))
                },
        },
{
    if payload.len() < 4 {
        return Err(SrsV2Error::Truncated);
    }
    let route = payload_route(payload[3]);
    let decoded = match route {
        PayloadRoute::Intra => decode_yuv420_intra_payload(seq, payload, planes),
        PayloadRoute::Forward => match manager.primary_ref() {
            None => Err(SrsV2Error::PFrameWithoutReference),
            Some(reference) => decode_yuv420_p_payload(seq, payload, reference, residuals),
        },
        PayloadRoute::Bidirectional => {
            if seq.max_ref_frames < 2 {
                Err(
                    SrsV2Error::Syntax("B-frame requires max_ref_frames >= 2 in sequence header"),
                )
            } else {
                decode_yuv420_b_payload(seq, payload, manager, mv_bytes, residuals)
            }
        },
        PayloadRoute::HiddenReference => decode_alt_ref_planes(seq, payload, manager, planes),
        PayloadRoute::Unknown => Err(
            SrsV2Error::Unsupported("unknown SRSV2 frame payload revision"),
        ),
    };
    let mut dec = match decoded {
        Err(e) => {
            assert(*manager == *old(manager));
            return Err(e);
        },
        Ok(d) => d,
    };
    let ghost d = dec;
    assert(dec.yuv.valid());
    apply_reconstruction_filter_if_enabled(seq, &mut dec);
    assert(dec.yuv.valid());
    match route {
        PayloadRoute::Intra => {
            if seq.max_ref_frames > 0 {
                store_keyframe(manager, &dec);
            }
        },
        PayloadRoute::Forward => {
            if seq.max_ref_frames > 0 {
                store_forward(manager, &dec);
            }
        },
        PayloadRoute::HiddenReference => {
            store_alt_ref(manager, payload[9], &dec);
        },
        _ => {},
    }
    assert(filter_applied(*seq, d, dec));
    Ok(dec)
}

/// The unfiltered picture of a payload that needs at most one reference.
pub open spec fn single_reference_picture(
    seq: VideoSequenceHeaderV2,
    data: Seq<u8>,
    slot: Option<YuvFrame>,
    planes: Seq<PlaneInput>,
    residuals: Seq<Result<[i16; 64], SrsV2Error>>,
    d: Result<DecodedVideoFrameV2, SrsV2Error>,
) -> bool {
    if data.len() < 4 {
        d == Err::<DecodedVideoFrameV2, SrsV2Error>(SrsV2Error::Truncated)
    } else {
        match route_of(data[3] as int) {
            PayloadRoute::Intra => intra_decoded(seq, data, planes, d),
            PayloadRoute::Forward => match slot {
                None => d == Err::<DecodedVideoFrameV2, SrsV2Error>(
                    SrsV2Error::PFrameWithoutReference,
                ),
                Some(f) => p_decoded(seq, data, f, residuals, d),
            },
            PayloadRoute::Bidirectional => d == Err::<DecodedVideoFrameV2, SrsV2Error>(
                SrsV2Error::Unsupported(
                    "multi-reference SRSV2 payloads require decode_yuv420_srsv2_payload_managed",
                ),
            ),
            _ => d == Err::<DecodedVideoFrameV2, SrsV2Error>(
                SrsV2Error::Unsupported("unknown SRSV2 frame payload revision"),
            ),
        }
    }
}

/// Decodes an intra or forward payload against a single reference, which the filtered picture
/// replaces where the sequence keeps references.
pub fn decode_yuv420_srsv2_payload(
    seq: &VideoSequenceHeaderV2,
    payload: &[u8],
    ref_slot: &mut Option<YuvFrame>,
    planes: &[PlaneInput],
    residuals: &[Result<[i16; 64], SrsV2Error>],
) -> (r: Result<DecodedVideoFrameV2, SrsV2Error>)
    requires
        *old(ref_slot) matches Some(f) ==> f.valid(),
        payload@.len() >= 4 && route_of(payload@[3] as int) == PayloadRoute::Intra
            ==> intra_inputs_fit(*seq, payload@, planes@),
        payload@.len() >= 4 && route_of(payload@[3] as int) == PayloadRoute::Forward
            && *old(ref_slot) is Some ==> (p_refusal(*seq, payload@, (*old(ref_slot))->0) is None
            ==> residuals@.len() == p_reading(*seq, payload@).blocks.len()),
    ensures
        *final(ref_slot) matches Some(f) ==> f.valid(),
        match r {
            Err(e) => single_reference_picture(
                *seq,
                payload@,
                *old(ref_slot),
                planes@,
                residuals@,
                Err(e),
            ) && *final(ref_slot) == *old(ref_slot),
            Ok(shown) => (exists|d: DecodedVideoFrameV2|
                {
                    &&& #[trigger] filter_applied(*seq, d, shown)
                    &&& single_reference_picture(
                        *seq,
                        payload@,
                        *old(ref_slot),
                        planes@,
                        residuals@,
                        Ok(d),
                    )
                }) && if seq.max_ref_frames > 0 {
                (*final(ref_slot)) is Some && (*final(ref_slot))->0@ == shown.yuv@
            } else {
                *final(ref_slot) == *old(ref_slot)
            },
        },
{
    if payload.len() < 4 {
        return Err(SrsV2Error::Truncated);
    }
    let decoded = match payload_route(payload[3]) {
        PayloadRoute::Intra => decode_yuv420_intra_payload(seq, payload, planes),
        PayloadRoute::Forward => match ref_slot.as_ref() {
            None => Err(SrsV2Error::PFrameWithoutReference),
            Some(reference) => decode_yuv420_p_payload(seq, payload, reference, residuals),
        },
        PayloadRoute::Bidirectional => Err(
            SrsV2Error::Unsupported(
                "multi-reference SRSV2 payloads require decode_yuv420_srsv2_payload_managed",
            ),
        ),
        _ => Err(SrsV2Error::Unsupported("unknown SRSV2 frame payload revision")),
    };
    let mut dec = match decoded {
        Err(e) => {
            return Err(e);
        },
        Ok(d) => d,
    };
    let ghost d = dec;
    apply_reconstruction_filter_if_enabled(seq, &mut dec);
    assert(filter_applied(*seq, d, dec));
    if seq.max_ref_frames > 0 {
        *ref_slot = Some(clone_frame(&dec.yuv));
    }
    Ok(dec)
}

/// A picture is coded without a reference: the first of every interval, and where no forward
/// picture can be made.
pub open spec fn codes_intra(
    seq: VideoSequenceHeaderV2,
    has_reference: bool,
    frame_index: int,
    s: SrsV2EncodeSettings,
) -> bool {
    ||| frame_index % greatest(s.keyframe_interval as int, 1) == 0
    ||| seq.max_ref_frames == 0
    ||| !has_reference
    ||| seq.width % 16 != 0
    ||| seq.height % 16 != 0
}

/// A planned picture of either kind.
pub enum FramePlan {
    Intra(IntraPlan),
    Forward { plan: PFramePlan, qp: u8, aq: SrsV2AqEncodeStats },
}

/// How the QP of a forward picture is found, and whether its payload carries block deltas.
pub open spec fn forward_aq(
    qp: int,
    y: VideoPlane<u8>,
    s: SrsV2EncodeSettings,
) -> SrsV2AqEncodeStats {
    SrsV2AqEncodeStats {
        block_wire: SrsV2BlockAqWireStats { block_aq_enabled: sends_deltas(s) },
        ..frame_aq(qp, y, s).1
    }
}

/// Plans a picture: as a forward picture of `reference` where that is possible and not a keyframe,
/// else as an intra picture.
pub fn plan_yuv420_inter_payload(
    seq: &VideoSequenceHeaderV2,
    cur: &YuvFrame,
    reference: Option<&YuvFrame>,
    frame_index: u32,
    qp: u8,
    settings: &SrsV2EncodeSettings,
    ms: &mut SrsV2MotionEncodeStats,
) -> (r: Result<FramePlan, SrsV2Error>)
    requires
        cur.valid(),
        reference matches Some(f) ==> f.valid(),
        settings.min_qp <= settings.max_qp,
    ensures
        if codes_intra(*seq, reference is Some, frame_index as int, *settings) {
            *final(ms) == *old(ms) && match intra_encode_refusal(*seq, *cur, *settings) {
                Some(e) => r == Err::<FramePlan, SrsV2Error>(e),
                None => r matches Ok(FramePlan::Intra(p)) && p.magic@ == intra_magic(*settings)@
                    && p.qp == frame_aq(qp as int, cur.y, *settings).0 && p.aq == intra_aq(
                    qp as int,
                    cur.y,
                    *settings,
                ),
            }
        } else if settings.residual_context_mode == SrsV2ResidualContextMode::ContextV1 {
            *final(ms) == *old(ms) && r == Err::<FramePlan, SrsV2Error>(
                SrsV2Error::Unsupported("residual context ContextV1 is not wired for P payloads"),
            )
        } else if settings.min_block_qp_delta > settings.max_block_qp_delta {
            *final(ms) == *old(ms) && r == Err::<FramePlan, SrsV2Error>(
                SrsV2Error::Syntax("invalid aq qp delta range"),
            )
        } else {
            match r {
                Err(e) => p_planned(
                    *seq,
                    *cur,
                    *reference->0,
                    *settings,
                    *old(ms),
                    Err(e),
                    *final(ms),
                ),
                Ok(FramePlan::Intra(_)) => false,
                Ok(FramePlan::Forward { plan, qp: eff, aq }) => p_planned(
                    *seq,
                    *cur,
                    *reference->0,
                    *settings,
                    *old(ms),
                    Ok(plan),
                    *final(ms),
                ) && eff == frame_aq(qp as int, cur.y, *settings).0 && aq == forward_aq(
                    qp as int,
                    cur.y,
                    *settings,
                ),
            }
        },
{
    let interval: u32 = if settings.keyframe_interval < 1 {
        1
    } else {
        settings.keyframe_interval
    };
    let force_intra = frame_index == 0 || frame_index % interval == 0;
    let aligned = seq.width % 16 == 0 && seq.height % 16 == 0;
    match reference {
        Some(f) => {
            if !force_intra && seq.max_ref_frames != 0 && aligned {
                if settings.residual_context_mode == SrsV2ResidualContextMode::ContextV1 {
                    return Err(
                        SrsV2Error::Unsupported(
                            "residual context ContextV1 is not wired for P payloads",
                        ),
                    );
                }
                let (eff, mut aq) = match resolve_frame_adaptive_qp(qp, cur, settings) {
                    Err(e) => {
                        return Err(e);
                    },
                    Ok(v) => v,
                };
                aq.block_wire = SrsV2BlockAqWireStats {
                    block_aq_enabled: sends_block_deltas(settings),
                };
                assert(aq == forward_aq(qp as int, cur.y, *settings));
                return match plan_p_frame(seq, cur, f, settings, ms) {
                    Err(e) => Err(e),
                    Ok(plan) => Ok(FramePlan::Forward { plan, qp: eff, aq }),
                };
            }
        },
        None => {},
    }
    match plan_intra_frame(seq, cur, qp, settings) {
        Err(e) => Err(e),
        Ok(p) => Ok(FramePlan::Intra(p)),
    }
}

/// What has to be there to encode a planned picture.
pub open spec fn frame_coded(
    plan: FramePlan,
    s: SrsV2EncodeSettings,
    planes: Seq<Result<Vec<u8>, SrsV2Error>>,
    coded: Seq<CodedResidual>,
) -> bool {
    match plan {
        FramePlan::Intra(p) => p.magic@ == intra_magic(s)@ && planes.len() == 3,
        FramePlan::Forward { plan, .. } => plan.wf(s) && coded_as_asked(
            s,
            planned_view(plan.blocks@),
            coded,
        ),
    }
}

/// Encodes a planned picture, given its coded planes or its coded residuals. `aq_out` receives how
/// the QP was found.
pub fn encode_yuv420_inter_payload(
    plan: &FramePlan,
    frame_index: u32,
    settings: &SrsV2EncodeSettings,
    planes: &[Result<Vec<u8>, SrsV2Error>],
    coded: &[CodedResidual],
    stats: &mut ResidualEncodeStats,
    aq_out: &mut SrsV2AqEncodeStats,
) -> (r: Result<Vec<u8>, SrsV2Error>)
    requires
        frame_coded(*plan, *settings, planes@, coded@),
        old(stats).p_explicit_chunks <= u64::MAX - 1048576,
        old(stats).p_rans_chunks <= u64::MAX - 1048576,
    ensures
        match *plan {
            FramePlan::Intra(p) => {
                &&& match intra_payload(*settings, frame_index as int, p.qp as int, planes@) {
                    Err(e) => r == Err::<Vec<u8>, SrsV2Error>(e),
                    Ok(b) => r is Ok && r->Ok_0@ == b,
                }
                &&& *final(stats) == intra_counted(*settings, *old(stats))
                &&& *final(aq_out) == if plane_failure(planes@, 3) is None {
                    p.aq
                } else {
                    *old(aq_out)
                }
            },
            FramePlan::Forward { plan, qp, aq } => {
                let p = planned_view(plan.blocks@);
                &&& match p_payload(
                    *settings,
                    frame_index as int,
                    qp as int,
                    plan.mbs@,
                    p,
                    coded@,
                    plan.deltas@,
                ) {
                    Err(e) => r == Err::<Vec<u8>, SrsV2Error>(e),
                    Ok(b) => r is Ok && r->Ok_0@ == b,
                }
                &&& *final(stats) == counted(
                    *old(stats),
                    p,
                    coded@,
                    0,
                    p_reached(
                        plan.mbs@,
                        p,
                        coded@,
                        plan.deltas@,
                        step_of(qp as int),
                        settings.subpel_mode == SrsV2SubpelMode::HalfPel,
                        plan.mbs@.len() as int,
                    ),
                )
                &&& *final(aq_out) == aq
            },
        },
{
    match plan {
        FramePlan::Intra(p) => encode_yuv420_intra_payload(
            p,
            frame_index,
            settings,
            planes,
            stats,
            aq_out,
        ),
        FramePlan::Forward { plan, qp, aq } => {
            *aq_out = *aq;
            encode_yuv420_p_payload(plan, frame_index, *qp, settings, coded, stats)
        },
    }
}

/// The newest forward picture comes first in the store, and the one before it next; both are kept
/// as they were shown, numbered as they came.
pub proof fn newest_picture_comes_first(
    m0: SrsV2ReferenceManager,
    m1: SrsV2ReferenceManager,
    m2: SrsV2ReferenceManager,
    d1: DecodedVideoFrameV2,
    d2: DecodedVideoFrameV2,
)
    requires
        forward_stored(m0, m1, d1),
        forward_stored(m1, m2, d2),
        m0.slots@.len() >= 2,
        m0.next_order < u64::MAX,
    ensures
        m2.slots@.len() == m0.slots@.len(),
        m2.slots@[0] is Some,
        m2.slots@[1] is Some,
        m2.slots@[0]->0.frame@ == d2.yuv@,
        m2.slots@[0]->0.frame_index == d2.frame_index,
        m2.slots@[1]->0.frame@ == d1.yuv@,
        m2.slots@[1]->0.frame_index == d1.frame_index,
        m2.slots@[0]->0.order_index > m2.slots@[1]->0.order_index,
        m0.slots@.len() >= 3 ==> m2.slots@[2] == m0.slots@[0],
{
    if m0.slots@.len() >= 3 {
        assert(m2.slots@[2] == m1.slots@[1]);
        assert(m1.slots@[1] == m0.slots@[0]);
    }
}

/// After a keyframe no earlier picture can be referred to; a hidden reference takes the place of
/// the picture in its slot and of no other, and is not shown.
pub proof fn keyframes_clear_and_hidden_references_replace(
    before: SrsV2ReferenceManager,
    after: SrsV2ReferenceManager,
    d: DecodedVideoFrameV2,
    slot: int,
    i: int,
)
    requires
        0 <= slot < before.slots@.len(),
        0 <= i < before.slots@.len(),
    ensures
        keyframe_stored(before, after, d) ==> {
            &&& after.slots@[i] is Some <==> i == 0
            &&& after.slots@[0]->0.frame@ == d.yuv@
            &&& after.slots@[0]->0.frame_index == d.frame_index
            &&& after.slots@[0]->0.is_displayable
        },
        alt_ref_stored(before, after, slot, d.frame_index, d.yuv@) ==> {
            &&& i != slot ==> after.slots@[i] == before.slots@[i]
            &&& after.slots@[slot] is Some
            &&& after.slots@[slot]->0.frame@ == d.yuv@
            &&& after.slots@[slot]->0.frame_index == d.frame_index
            &&& !after.slots@[slot]->0.is_displayable
        },
{
}

/// What was shown is what later pictures refer to: after an intra or forward payload the first
/// reference is the picture that was shown, after a bidirectional one nothing has changed, and a
/// sequence without references keeps none.
pub proof fn later_pictures_refer_to_what_was_shown(
    seq: VideoSequenceHeaderV2,
    data: Seq<u8>,
    before: SrsV2ReferenceManager,
    shown: DecodedVideoFrameV2,
    after: SrsV2ReferenceManager,
)
    requires
        payload_stored(seq, data, before, shown, after),
        before.slots@.len() > 0,
    ensures
        seq.max_ref_frames > 0 && (data[3] == 1 || data[3] == 3 || data[3] == 7 || data[3] == 29
            || data[3] == 32 || data[3] == 2 || data[3] == 4 || data[3] == 5 || data[3] == 6
            || data[3] == 8 || data[3] == 9) ==> primary(after) is Some && primary(after)->0@
            == shown.yuv@,
        seq.max_ref_frames == 0 && data[3] != 12 ==> after == before,
        data[3] == 10 || data[3] == 11 || data[3] == 13 || data[3] == 14 || data[3] == 16 || data[3]
            == 18 ==> after == before,
        data[3] == 12 && data[9] != 0 ==> primary(after) == primary(before),
{
}

/// A keyframe comes at every multiple of the interval, and wherever no forward picture can be made;
/// every other picture is a forward one.
pub proof fn keyframes_come_at_the_interval(
    seq: VideoSequenceHeaderV2,
    n: int,
    interval: int,
    s: SrsV2EncodeSettings,
)
    requires
        s.keyframe_interval == interval,
        interval >= 1,
        n >= 0,
        seq.max_ref_frames > 0,
        seq.width % 16 == 0,
        seq.height % 16 == 0,
    ensures
        codes_intra(seq, true, n * interval, s),
        codes_intra(seq, true, 0, s),
        forall|d: int| 0 < d < interval ==> !#[trigger] codes_intra(seq, true, n * interval + d, s),
        codes_intra(seq, false, n, s),
        codes_intra(VideoSequenceHeaderV2 { max_ref_frames: 0, ..seq }, true, n, s),
{
    vstd::arithmetic::div_mod::lemma_mod_multiples_basic(n, interval);
    assert forall|d: int| 0 < d < interval implies !#[trigger] codes_intra(
        seq,
        true,
        n * interval + d,
        s,
    ) by {
        vstd::arithmetic::div_mod::lemma_fundamental_div_mod_converse(n * interval + d, interval, n, d);
    }
}

/// A shown picture has its chroma as it was decoded, and with the loop filter off its luma too.
pub proof fn filtering_touches_luma_alone(
    seq: VideoSequenceHeaderV2,
    d: DecodedVideoFrameV2,
    shown: DecodedVideoFrameV2,
)
    requires
        filter_applied(seq, d, shown),
    ensures
        shown.yuv.u@ == d.yuv.u@,
        shown.yuv.v@ == d.yuv.v@,
        shown.frame_index == d.frame_index,
        shown.is_displayable == d.is_displayable,
        seq.disable_loop_filter ==> shown.yuv.y@ == d.yuv.y@,
        !seq.disable_loop_filter ==> shown.yuv.y.samples@ == loop_filtered(
            SrsV2LoopFilterMode::SimpleDeblock,
            seq.deblock_strength,
            d.yuv.y,
        ),
{
}

/// A decoder with one reference and a decoder with several decode intra and forward pictures alike,
/// the forward ones from the newest reference; the first refuses the others.
pub proof fn decoders_agree_on_single_references(
    seq: VideoSequenceHeaderV2,
    data: Seq<u8>,
    m: SrsV2ReferenceManager,
    planes: Seq<PlaneInput>,
    mv_bytes: Seq<Result<Vec<u8>, SrsV2Error>>,
    residuals: Seq<Result<[i16; 64], SrsV2Error>>,
    d: Result<DecodedVideoFrameV2, SrsV2Error>,
)
    ensures
        data.len() < 4 || route_of(data[3] as int) is Intra || route_of(data[3] as int) is Forward
            ==> payload_picture(seq, data, m, planes, mv_bytes, residuals, d)
            == single_reference_picture(seq, data, primary(m), planes, residuals, d),
        data.len() >= 4 && (route_of(data[3] as int) is Bidirectional
            || route_of(data[3] as int) is HiddenReference) && single_reference_picture(
            seq,
            data,
            primary(m),
            planes,
            residuals,
            d,
        ) ==> d is Err,
{
}

/// Hidden references are decoded and not shown; every other picture is shown. A forward picture
/// needs a reference, and a payload that is neither intra nor of a known kind is refused.
pub proof fn only_hidden_references_are_not_shown(
    seq: VideoSequenceHeaderV2,
    data: Seq<u8>,
    m: SrsV2ReferenceManager,
    planes: Seq<PlaneInput>,
    mv_bytes: Seq<Result<Vec<u8>, SrsV2Error>>,
    residuals: Seq<Result<[i16; 64], SrsV2Error>>,
    d: Result<DecodedVideoFrameV2, SrsV2Error>,
)
    requires
        payload_picture(seq, data, m, planes, mv_bytes, residuals, d),
        d is Ok,
    ensures
        data.len() >= 4,
        d->Ok_0.is_displayable <==> data[3] != 12,
        d->Ok_0.width == seq.width,
        d->Ok_0.height == seq.height,
        route_of(data[3] as int) is Forward ==> primary(m) is Some,
        route_of(data[3] as int) is Bidirectional ==> seq.max_ref_frames >= 2,
        !(route_of(data[3] as int) is Unknown),
{
}

/// What the encoders write is decoded as what it was written as.
pub proof fn payloads_are_told_apart(s: SrsV2EncodeSettings)
    ensures
        route_of(intra_magic(s)[3] as int) is Intra,
        route_of(p_magic(s)[3] as int) is Forward,
        route_of(var_magic(s)[3] as int) is Forward,
        route_of(blend_magic(s)[3] as int) is Bidirectional,
        route_of(12) is HiddenReference,
        intra_magic(s)@.take(3) == p_magic(s)@.take(3),
        var_magic(s)@.take(3) == p_magic(s)@.take(3),
        blend_magic(s)@.take(3) == p_magic(s)@.take(3),
        intra_magic(s)[0] == 70 && intra_magic(s)[1] == 82 && intra_magic(s)[2] == 50,
{
    assert(intra_magic(s)@.take(3) =~= seq![70u8, 82u8, 50u8]);
    assert(p_magic(s)@.take(3) =~= seq![70u8, 82u8, 50u8]);
    assert(var_magic(s)@.take(3) =~= seq![70u8, 82u8, 50u8]);
    assert(blend_magic(s)@.take(3) =~= seq![70u8, 82u8, 50u8]);
}

} // verus!
