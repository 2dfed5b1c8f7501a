//! Writing bidirectional pictures.
use vstd::prelude::*;

use crate::arith::{magnitude, total};
use crate::bytes::{
    append_is_associative, bytes16, bytes32, push_all, push_i16, push_i32, push_u32, tdiv,
    unsigned16, unsigned32,
};
use super::b_choose::{b_choice, b_halfpel, b_stats, choose_b_macroblock, BFrameEncodeStats};
use super::b_frame_codec::{
    blend_code, BBlendModeWire, FRAME_PAYLOAD_MAGIC_B, FRAME_PAYLOAD_MAGIC_B_COMPACT,
    FRAME_PAYLOAD_MAGIC_B_INTER_ENTROPY, FRAME_PAYLOAD_MAGIC_B_MB_BLEND,
    FRAME_PAYLOAD_MAGIC_B_MB_BLEND_QP, FRAME_PAYLOAD_MAGIC_B_SUBPEL,
};
use super::error::SrsV2Error;
use super::frame::{lemma_packed_position, VideoPlane, YuvFrame};
use super::inter_frame::InterMb;
use super::inter_mv::{
    delta_fits, encode_mv_grid_compact, grid_bytes, grid_delta, grid_deltas_fit,
    mv_compact_grid_delta_statistics, predicted, varint_length, zigzag, MV_PREDICTION_MODE_LABEL,
};
use super::inter_write::{
    append_chunks, coding_failure, find_coding_failure, framed_chunks, lemma_pattern, pattern_of,
    plan_block, planned_block, planned_blocks, planned_view, skip_pattern, CodedResidual,
};
use super::intra_codec::step_of;
use super::limits::MAX_FRAME_PAYLOAD_BYTES;
use super::model::{PixelFormat, VideoSequenceHeaderV2};
use super::motion_search::SrsV2InterMvBenchStats;
use super::p_frame_codec::mb_count;
use super::rate_control::{
    SrsV2BMotionSearchMode, SrsV2EncodeSettings, SrsV2InterSyntaxMode, SrsV2ResidualContextMode,
};

verus! {

/// What a bidirectional picture is coded from: macroblock predictions, and the differences of the
/// sub-blocks that carry a residual.
#[derive(Debug, Clone)]
pub struct BFramePlan {
    pub mbs: Vec<InterMb>,
    /// Four per macroblock.
    pub blocks: Vec<Option<[i16; 64]>>,
}

/// Which fields the head of a macroblock has.
#[derive(Debug, Clone, Copy, PartialEq, Eq, Structural)]
pub struct BWire {
    /// The blend of the macroblock.
    pub blend: bool,
    /// The weights of a weighted blend.
    pub weights: bool,
    pub vectors: BVectorWire,
}

/// How the vectors of a macroblock are written.
#[derive(Debug, Clone, Copy, PartialEq, Eq, Structural)]
pub enum BVectorWire {
    /// In grids ahead of the macroblocks.
    Grid,
    /// Whole-pel fields.
    Whole,
    /// Quarter-pel fields.
    Quarter,
}

/// One vector component under a wire form.
pub open spec fn component_bytes(v: int, wire: BVectorWire) -> Seq<u8> {
    match wire {
        BVectorWire::Grid => seq![],
        BVectorWire::Whole => bytes16(unsigned16(tdiv(v, 4))),
        BVectorWire::Quarter => bytes32(unsigned32(v)),
    }
}

/// The four vector components of a macroblock.
pub open spec fn b_vector_bytes(mb: InterMb, wire: BVectorWire) -> Seq<u8> {
    component_bytes(mb.mv_aqx as int, wire) + component_bytes(mb.mv_aqy as int, wire)
        + component_bytes(mb.mv_bqx as int, wire) + component_bytes(mb.mv_bqy as int, wire)
}

/// The blend of a macroblock, where the wire has it.
pub open spec fn blend_bytes(mb: InterMb, wire: BWire) -> Seq<u8> {
    if wire.blend {
        seq![blend_code(mb.blend) as u8]
    } else {
        seq![]
    }
}

/// The weights of a macroblock, where the wire has them.
pub open spec fn weight_bytes(mb: InterMb, wire: BWire) -> Seq<u8> {
    if wire.weights && mb.blend == BBlendModeWire::Weighted {
        seq![mb.weight_a, mb.weight_b]
    } else {
        seq![]
    }
}

/// The head of macroblock `i`: blend, weights, vectors, skip bits.
pub open spec fn b_head(
    mbs: Seq<InterMb>,
    planned: Seq<Option<Seq<i16>>>,
    wire: BWire,
    i: int,
) -> Seq<u8> {
    blend_bytes(mbs[i], wire) + weight_bytes(mbs[i], wire) + b_vector_bytes(mbs[i], wire.vectors)
        + seq![pattern_of(planned, 4 * i, 4) as u8]
}

/// The error of a chunk whose length does not fit its field.
pub open spec fn b_long() -> SrsV2Error {
    SrsV2Error::Syntax("b chunk length")
}

/// The bytes of the first `n` macroblocks; the error of the first that could not be coded or does
/// not fit.
pub open spec fn b_body(
    mbs: Seq<InterMb>,
    planned: Seq<Option<Seq<i16>>>,
    coded: Seq<CodedResidual>,
    qp: int,
    wire: BWire,
    n: int,
) -> Result<Seq<u8>, SrsV2Error>
    decreases n,
{
    if n <= 0 {
        Ok(seq![])
    } else {
        match b_body(mbs, planned, coded, qp, wire, n - 1) {
            Err(e) => Err(e),
            Ok(before) => match coding_failure(planned, coded, 4 * (n - 1), 4) {
                Some(e) => Err(e),
                None => match framed_chunks(planned, coded, seq![], qp, 4 * (n - 1), 4, b_long()) {
                    Err(e) => Err(e),
                    Ok(c) => Ok(before + b_head(mbs, planned, wire, n - 1) + c),
                },
            },
        }
    }
}

proof fn lemma_b_body_error(
    mbs: Seq<InterMb>,
    planned: Seq<Option<Seq<i16>>>,
    coded: Seq<CodedResidual>,
    qp: int,
    wire: BWire,
    k: int,
    n: int,
)
    requires
        k <= n,
        b_body(mbs, planned, coded, qp, wire, k) is Err,
    ensures
        b_body(mbs, planned, coded, qp, wire, n) == b_body(mbs, planned, coded, qp, wire, k),
    decreases n - k,
{
    if k < n {
        lemma_b_body_error(mbs, planned, coded, qp, wire, k, n - 1);
    }
}

fn push_component(out: &mut Vec<u8>, v: i32, wire: BVectorWire)
    requires
        -131072 <= v <= 131068,
    ensures
        final(out)@ == old(out)@ + component_bytes(v as int, wire),
{
    match wire {
        BVectorWire::Grid => {
            assert(out@ =~= old(out)@ + Seq::<u8>::empty());
        },
        BVectorWire::Whole => {
            push_i16(out, (v / 4) as i16);
        },
        BVectorWire::Quarter => {
            push_i32(out, v);
        },
    }
}

proof fn lemma_head_regroup(
    out: Seq<u8>,
    blend: Seq<u8>,
    weights: Seq<u8>,
    c1: Seq<u8>,
    c2: Seq<u8>,
    c3: Seq<u8>,
    c4: Seq<u8>,
    pattern: u8,
)
    ensures
        (out + blend + weights + c1 + c2 + c3 + c4).push(pattern) == out + (blend + weights + (c1
            + c2 + c3 + c4) + seq![pattern]),
{
    assert((out + blend + weights + c1 + c2 + c3 + c4).push(pattern) =~= out + (blend + weights + (
    c1 + c2 + c3 + c4) + seq![pattern]));
}

fn push_head(out: &mut Vec<u8>, mb: &InterMb, pattern: u8, wire: BWire)
    requires
        mb.wf(),
    ensures
        final(out)@ == old(out)@ + (blend_bytes(*mb, wire) + weight_bytes(*mb, wire)
            + b_vector_bytes(*mb, wire.vectors) + seq![pattern]),
{
    if wire.blend {
        out.push(mb.blend.to_u8());
    }
    assert(out@ =~= old(out)@ + blend_bytes(*mb, wire));
    if wire.weights && mb.blend == BBlendModeWire::Weighted {
        out.push(mb.weight_a);
        out.push(mb.weight_b);
    }
    assert(out@ =~= old(out)@ + blend_bytes(*mb, wire) + weight_bytes(*mb, wire));
    push_component(out, mb.mv_aqx, wire.vectors);
    push_component(out, mb.mv_aqy, wire.vectors);
    push_component(out, mb.mv_bqx, wire.vectors);
    push_component(out, mb.mv_bqy, wire.vectors);
    out.push(pattern);
    proof {
        lemma_head_regroup(
            old(out)@,
            blend_bytes(*mb, wire),
            weight_bytes(*mb, wire),
            component_bytes(mb.mv_aqx as int, wire.vectors),
            component_bytes(mb.mv_aqy as int, wire.vectors),
            component_bytes(mb.mv_bqx as int, wire.vectors),
            component_bytes(mb.mv_bqy as int, wire.vectors),
            pattern,
        );
    }
}

/// Appends the macroblocks of a bidirectional picture.
fn append_b_body(
    out: &mut Vec<u8>,
    plan: &BFramePlan,
    coded: &[CodedResidual],
    qp: i16,
    wire: BWire,
) -> (r: Result<(), SrsV2Error>)
    requires
        plan.mbs@.len() <= 262144,
        plan.blocks@.len() == 4 * plan.mbs@.len(),
        coded@.len() == plan.blocks@.len(),
        forall|i: int| 0 <= i < plan.mbs@.len() ==> (#[trigger] plan.mbs@[i]).wf(),
    ensures
        match b_body(
            plan.mbs@,
            planned_view(plan.blocks@),
            coded@,
            qp as int,
            wire,
            plan.mbs@.len() as int,
        ) {
            Err(e) => r == Err::<(), SrsV2Error>(e),
            Ok(b) => r is Ok && final(out)@ == old(out)@ + b,
        },
{
    let ghost p = planned_view(plan.blocks@);
    let no_deltas: Vec<i8> = Vec::new();
    assert(no_deltas@ =~= seq![]);
    let n: usize = plan.mbs.len();
    let mut i: usize = 0;
    assert(out@ =~= old(out)@ + Seq::<u8>::empty());
    while i < n
        invariant
            i <= n,
            n == plan.mbs@.len(),
            n <= 262144,
            no_deltas@ == Seq::<i8>::empty(),
            plan.blocks@.len() == 4 * n,
            coded@.len() == plan.blocks@.len(),
            forall|i: int| 0 <= i < plan.mbs@.len() ==> (#[trigger] plan.mbs@[i]).wf(),
            p == planned_view(plan.blocks@),
            b_body(plan.mbs@, p, coded@, qp as int, wire, i as int) is Ok,
            out@ == old(out)@ + b_body(plan.mbs@, p, coded@, qp as int, wire, i as int)->Ok_0,
        decreases n - i,
    {
        let ghost before = b_body(plan.mbs@, p, coded@, qp as int, wire, i as int)->Ok_0;
        match find_coding_failure(plan.blocks.as_slice(), coded, 4 * i, 4) {
            Some(e) => {
                proof {
                    lemma_b_body_error(
                        plan.mbs@,
                        p,
                        coded@,
                        qp as int,
                        wire,
                        i + 1,
                        n as int,
                    );
                }
                return Err(e);
            },
            None => {},
        }
        proof {
            lemma_pattern(p, 4 * i);
        }
        let pattern: u8 = skip_pattern(plan.blocks.as_slice(), 4 * i);
        push_head(out, &plan.mbs[i], pattern, wire);
        match append_chunks(
            out,
            plan.blocks.as_slice(),
            coded,
            no_deltas.as_slice(),
            qp,
            4 * i,
            SrsV2Error::Syntax("b chunk length"),
        ) {
            Err(e) => {
                proof {
                    lemma_b_body_error(
                        plan.mbs@,
                        p,
                        coded@,
                        qp as int,
                        wire,
                        i + 1,
                        n as int,
                    );
                }
                return Err(e);
            },
            Ok(_) => {
                proof {
                    let head = b_head(plan.mbs@, p, wire, i as int);
                    let c = framed_chunks(p, coded@, seq![], qp as int, 4 * i, 4, b_long())->Ok_0;
                    append_is_associative(old(out)@, before, head);
                    append_is_associative(old(out)@, before + head, c);
                }
            },
        }
        i += 1;
    }
    Ok(())
}

/// Why a picture cannot be coded as a bidirectional picture, if it cannot.
pub open spec fn b_encode_refusal(seq: VideoSequenceHeaderV2) -> Option<SrsV2Error> {
    if seq.max_ref_frames < 2 {
        Some(SrsV2Error::Syntax("B-frame requires max_ref_frames >= 2"))
    } else if seq.pixel_format != PixelFormat::Yuv420p8 {
        Some(SrsV2Error::Unsupported("B encode YUV420p8 only"))
    } else if seq.width % 16 != 0 || seq.height % 16 != 0 {
        Some(SrsV2Error::Syntax("B-frame requires 16-aligned dimensions"))
    } else {
        None
    }
}

fn check_b_encode(seq: &VideoSequenceHeaderV2) -> (r: Result<(), SrsV2Error>)
    ensures
        r == match b_encode_refusal(*seq) {
            Some(e) => Err::<(), SrsV2Error>(e),
            None => Ok::<(), SrsV2Error>(()),
        },
{
    if seq.max_ref_frames < 2 {
        return Err(SrsV2Error::Syntax("B-frame requires max_ref_frames >= 2"));
    }
    if seq.pixel_format != PixelFormat::Yuv420p8 {
        return Err(SrsV2Error::Unsupported("B encode YUV420p8 only"));
    }
    if seq.width % 16 != 0 || seq.height % 16 != 0 {
        return Err(SrsV2Error::Syntax("B-frame requires 16-aligned dimensions"));
    }
    Ok(())
}

/// Why a picture cannot be coded with a decision per macroblock, if it cannot: its residuals have
/// no context modelling.
pub open spec fn blend_encode_refusal(
    seq: VideoSequenceHeaderV2,
    s: SrsV2EncodeSettings,
) -> Option<SrsV2Error> {
    if b_encode_refusal(seq) is Some {
        b_encode_refusal(seq)
    } else if s.residual_context_mode == SrsV2ResidualContextMode::ContextV1 {
        Some(SrsV2Error::Unsupported("residual context ContextV1 is not wired for B payloads"))
    } else {
        None
    }
}

/// The pictures have valid luma planes and the source covers the coded area.
pub open spec fn b_sources_fit(
    seq: VideoSequenceHeaderV2,
    cur: YuvFrame,
    a: YuvFrame,
    b: YuvFrame,
) -> bool {
    &&& cur.y.valid()
    &&& a.y.valid()
    &&& b.y.valid()
    &&& seq.width <= cur.y.width
    &&& seq.height <= cur.y.height
}

/// A macroblock that does not move.
pub open spec fn still_mb(blend: BBlendModeWire) -> InterMb {
    InterMb { blend, weight_a: 0, weight_b: 0, mv_aqx: 0, mv_aqy: 0, mv_bqx: 0, mv_bqy: 0 }
}

fn plan_b_blocks(
    cur: &VideoPlane<u8>,
    a: &VideoPlane<u8>,
    b: &VideoPlane<u8>,
    mbs: &[InterMb],
    cols: usize,
    rows: usize,
) -> (blocks: Vec<Option<[i16; 64]>>)
    requires
        cur.valid(),
        a.valid(),
        b.valid(),
        cols * 16 <= cur.width,
        rows * 16 <= cur.height,
        mbs@.len() == cols * rows,
        mbs@.len() <= 262144,
        forall|j: int| 0 <= j < mbs@.len() ==> (#[trigger] mbs@[j]).wf(),
    ensures
        planned_view(blocks@) == planned_blocks(mbs@, *cur, *a, *b, cols as int, true),
        blocks@.len() == 4 * mbs@.len(),
{
    let n: usize = 4 * mbs.len();
    let mut blocks: Vec<Option<[i16; 64]>> = Vec::with_capacity(n);
    let ghost want = planned_blocks(mbs@, *cur, *a, *b, cols as int, true);
    let mut k: usize = 0;
    while k < n
        invariant
            k <= n,
            n == 4 * mbs@.len(),
            n == 4 * (cols * rows),
            cur.valid(),
            a.valid(),
            b.valid(),
            cols * 16 <= cur.width,
            rows * 16 <= cur.height,
            forall|j: int| 0 <= j < mbs@.len() ==> (#[trigger] mbs@[j]).wf(),
            want == planned_blocks(mbs@, *cur, *a, *b, cols as int, true),
            blocks@.len() == k,
            forall|j: int| 0 <= j < k ==> planned_view(blocks@)[j] == #[trigger] want[j],
        decreases n - k,
    {
        let ghost before = blocks@;
        let d = plan_block(&mbs[k / 4], cur, a, b, cols, rows, true, k);
        blocks.push(d);
        assert forall|j: int| 0 <= j < k + 1 implies planned_view(blocks@)[j]
            == #[trigger] want[j] by {
            if j < k {
                assert(planned_view(blocks@)[j] == planned_view(before)[j]);
            } else {
                assert(want[j] == planned_block(
                    mbs@[k as int / 4],
                    *cur,
                    *a,
                    *b,
                    cols as int,
                    true,
                    k as int,
                ));
            }
        }
        k += 1;
    }
    assert(planned_view(blocks@) =~= want);
    blocks
}

/// Plans a bidirectional picture that does not move and has one blend throughout.
pub fn plan_b_frame(
    seq: &VideoSequenceHeaderV2,
    cur: &YuvFrame,
    ref_a: &YuvFrame,
    ref_b: &YuvFrame,
    blend: BBlendModeWire,
) -> (r: Result<BFramePlan, SrsV2Error>)
    requires
        b_sources_fit(*seq, *cur, *ref_a, *ref_b),
        blend != BBlendModeWire::Weighted,
    ensures
        match b_encode_refusal(*seq) {
            Some(e) => r == Err::<BFramePlan, SrsV2Error>(e),
            None => r is Ok && r->Ok_0.mbs@ == Seq::new(
                mb_count(*seq) as nat,
                |i: int| still_mb(blend),
            ) && planned_view(r->Ok_0.blocks@) == planned_blocks(
                r->Ok_0.mbs@,
                cur.y,
                ref_a.y,
                ref_b.y,
                seq.width as int / 16,
                true,
            ) && r->Ok_0.blocks@.len() == 4 * r->Ok_0.mbs@.len() && r->Ok_0.mbs@.len() <= 262144,
        },
{
    match check_b_encode(seq) {
        Err(e) => {
            return Err(e);
        },
        Ok(_) => {},
    }
    let cols: usize = (seq.width / 16) as usize;
    let rows: usize = (seq.height / 16) as usize;
    assert(cols * rows <= 512 * 512) by (nonlinear_arith)
        requires
            cols <= 512,
            rows <= 512,
    ;
    let n: usize = cols * rows;
    let still = InterMb {
        blend,
        weight_a: 0,
        weight_b: 0,
        mv_aqx: 0,
        mv_aqy: 0,
        mv_bqx: 0,
        mv_bqy: 0,
    };
    let mut mbs: Vec<InterMb> = Vec::with_capacity(n);
    let mut i: usize = 0;
    while i < n
        invariant
            i <= n,
            mbs@.len() == i,
            still == still_mb(blend),
            forall|j: int| 0 <= j < i ==> #[trigger] mbs@[j] == still,
        decreases n - i,
    {
        mbs.push(still);
        i += 1;
    }
    assert(mbs@ =~= Seq::new(mb_count(*seq) as nat, |i: int| still_mb(blend)));
    let blocks = plan_b_blocks(&cur.y, &ref_a.y, &ref_b.y, mbs.as_slice(), cols, rows);
    Ok(BFramePlan { mbs, blocks })
}

/// The wire of revisions 10 and 11.
pub open spec fn picture_wire(half_pel: bool) -> BWire {
    BWire {
        blend: false,
        weights: false,
        vectors: if half_pel {
            BVectorWire::Quarter
        } else {
            BVectorWire::Whole
        },
    }
}

/// The fields that every bidirectional payload starts with.
pub open spec fn b_fixed(
    magic: [u8; 4],
    frame_index: int,
    qp: int,
    slot_a: int,
    slot_b: int,
) -> Seq<u8> {
    magic@ + bytes32(frame_index) + seq![qp as u8, slot_a as u8, slot_b as u8]
}

/// A payload that is not too large.
pub open spec fn b_limited(bytes: Seq<u8>) -> Result<Seq<u8>, SrsV2Error> {
    if bytes.len() > MAX_FRAME_PAYLOAD_BYTES {
        Err(SrsV2Error::AllocationLimit { context: "encoded B-frame" })
    } else {
        Ok(bytes)
    }
}

/// A payload with one blend for the picture.
pub open spec fn b_payload(
    frame_index: int,
    qp: int,
    slot_a: int,
    slot_b: int,
    blend: BBlendModeWire,
    half_pel: bool,
    mbs: Seq<InterMb>,
    planned: Seq<Option<Seq<i16>>>,
    coded: Seq<CodedResidual>,
) -> Result<Seq<u8>, SrsV2Error> {
    let magic = if half_pel {
        FRAME_PAYLOAD_MAGIC_B_SUBPEL
    } else {
        FRAME_PAYLOAD_MAGIC_B
    };
    match b_body(mbs, planned, coded, step_of(qp), picture_wire(half_pel), mbs.len() as int) {
        Err(e) => Err(e),
        Ok(body) => b_limited(
            b_fixed(magic, frame_index, qp, slot_a, slot_b) + seq![blend_code(blend) as u8] + body,
        ),
    }
}

fn push_fixed(out: &mut Vec<u8>, magic: [u8; 4], frame_index: u32, qp: u8, slot_a: u8, slot_b: u8)
    requires
        old(out)@.len() == 0,
    ensures
        final(out)@ == b_fixed(magic, frame_index as int, qp as int, slot_a as int, slot_b as int),
{
    push_all(out, magic.as_slice());
    push_u32(out, frame_index);
    out.push(qp);
    out.push(slot_a);
    out.push(slot_b);
    assert(out@ =~= b_fixed(magic, frame_index as int, qp as int, slot_a as int, slot_b as int));
}

/// Encodes a planned picture with one blend, given the coded residual of every sub-block that
/// carries one; the others are passed over.
pub fn encode_yuv420_b_payload(
    plan: &BFramePlan,
    frame_index: u32,
    qp: u8,
    slot_a: u8,
    slot_b: u8,
    blend: BBlendModeWire,
    half_pel: bool,
    coded: &[CodedResidual],
) -> (r: Result<Vec<u8>, SrsV2Error>)
    requires
        plan.mbs@.len() <= 262144,
        plan.blocks@.len() == 4 * plan.mbs@.len(),
        coded@.len() == plan.blocks@.len(),
        forall|i: int| 0 <= i < plan.mbs@.len() ==> #[trigger] plan.mbs@[i] == still_mb(blend),
        forall|i: int| 0 <= i < coded@.len() ==> (#[trigger] coded@[i]) !is Coefficients,
        blend != BBlendModeWire::Weighted,
    ensures
        match b_payload(
            frame_index as int,
            qp as int,
            slot_a as int,
            slot_b as int,
            blend,
            half_pel,
            plan.mbs@,
            planned_view(plan.blocks@),
            coded@,
        ) {
            Err(e) => r == Err::<Vec<u8>, SrsV2Error>(e),
            Ok(b) => r is Ok && r->Ok_0@ == b,
        },
{
    let qp_i: i16 = if qp < 1 { 1 } else { qp as i16 };
    let magic: [u8; 4] = if half_pel {
        FRAME_PAYLOAD_MAGIC_B_SUBPEL
    } else {
        FRAME_PAYLOAD_MAGIC_B
    };
    let wire = BWire {
        blend: false,
        weights: false,
        vectors: if half_pel {
            BVectorWire::Quarter
        } else {
            BVectorWire::Whole
        },
    };
    let mut out: Vec<u8> = Vec::new();
    push_fixed(&mut out, magic, frame_index, qp, slot_a, slot_b);
    out.push(blend.to_u8());
    assert(out@ =~= b_fixed(
        magic,
        frame_index as int,
        qp as int,
        slot_a as int,
        slot_b as int,
    ) + seq![blend_code(blend) as u8]);
    assert forall|i: int| 0 <= i < plan.mbs@.len() implies (#[trigger] plan.mbs@[i]).wf() by {
        assert(plan.mbs@[i] == still_mb(blend));
    }
    match append_b_body(&mut out, plan, coded, qp_i, wire) {
        Err(e) => {
            return Err(e);
        },
        Ok(_) => {},
    }
    if out.len() > MAX_FRAME_PAYLOAD_BYTES {
        return Err(SrsV2Error::AllocationLimit { context: "encoded B-frame" });
    }
    Ok(out)
}

/// The settings need the wire with half-pel vectors and weights.
pub open spec fn needs_rev14(s: SrsV2EncodeSettings) -> bool {
    b_halfpel(s) || s.b_weighted_prediction
}

fn uses_fr2_rev14_wire(settings: &SrsV2EncodeSettings) -> (r: bool)
    ensures
        r == needs_rev14(*settings),
{
    settings.b_motion_search_mode == SrsV2BMotionSearchMode::IndependentForwardBackwardHalfPel
        || settings.b_weighted_prediction
}

/// A macroblock that can be written under the settings.
pub open spec fn b_carries(mb: InterMb, s: SrsV2EncodeSettings) -> bool {
    &&& mb.wf()
    &&& mb.mv_aqx % 2 == 0 && mb.mv_aqy % 2 == 0 && mb.mv_bqx % 2 == 0 && mb.mv_bqy % 2 == 0
    &&& !b_halfpel(s) ==> mb.mv_aqx % 4 == 0 && mb.mv_aqy % 4 == 0 && mb.mv_bqx % 4 == 0
        && mb.mv_bqy % 4 == 0
    &&& mb.blend == BBlendModeWire::Weighted ==> s.b_weighted_prediction
    &&& mb.blend != BBlendModeWire::Weighted ==> mb.weight_a == 0 && mb.weight_b == 0
}

impl BFramePlan {
    /// Every macroblock can be written under the settings, and each has four sub-blocks.
    pub open spec fn wf(self, s: SrsV2EncodeSettings) -> bool {
        &&& self.mbs@.len() <= 262144
        &&& self.blocks@.len() == 4 * self.mbs@.len()
        &&& forall|i: int| 0 <= i < self.mbs@.len() ==> b_carries(#[trigger] self.mbs@[i], s)
    }
}

/// The predictions of the macroblocks of a bidirectional picture.
pub open spec fn b_mbs(
    s: SrsV2EncodeSettings,
    cur: VideoPlane<u8>,
    a: VideoPlane<u8>,
    b: VideoPlane<u8>,
    lambda: int,
    cols: int,
    n: int,
) -> Seq<InterMb> {
    Seq::new(n as nat, |i: int| b_choice(s, cur, a, b, i % cols, i / cols, lambda).prediction())
}

/// The counters after the first `n` macroblocks.
pub open spec fn b_stats_after(
    before: BFrameEncodeStats,
    s: SrsV2EncodeSettings,
    cur: VideoPlane<u8>,
    a: VideoPlane<u8>,
    b: VideoPlane<u8>,
    lambda: int,
    cols: int,
    n: int,
) -> BFrameEncodeStats
    decreases n,
{
    if n <= 0 {
        before
    } else {
        b_stats(
            b_stats_after(before, s, cur, a, b, lambda, cols, n - 1),
            s,
            cur,
            a,
            b,
            (n - 1) % cols,
            (n - 1) / cols,
            lambda,
        )
    }
}

/// Plans a bidirectional picture with a decision per macroblock. The counters of the picture go to
/// `stats`.
pub fn plan_b_frame_mb_blend(
    seq: &VideoSequenceHeaderV2,
    cur: &YuvFrame,
    ref_a: &YuvFrame,
    ref_b: &YuvFrame,
    settings: &SrsV2EncodeSettings,
    lambda: i64,
    stats: &mut BFrameEncodeStats,
) -> (r: Result<BFramePlan, SrsV2Error>)
    requires
        b_sources_fit(*seq, *cur, *ref_a, *ref_b),
        old(stats).has_room(262144),
    ensures
        match blend_encode_refusal(*seq, *settings) {
            Some(e) => r == Err::<BFramePlan, SrsV2Error>(e) && *final(stats) == *old(stats),
            None => r is Ok && r->Ok_0.wf(*settings) && r->Ok_0.mbs@ == b_mbs(
                *settings,
                cur.y,
                ref_a.y,
                ref_b.y,
                lambda as int,
                seq.width as int / 16,
                mb_count(*seq),
            ) && planned_view(r->Ok_0.blocks@) == planned_blocks(
                r->Ok_0.mbs@,
                cur.y,
                ref_a.y,
                ref_b.y,
                seq.width as int / 16,
                true,
            ) && *final(stats) == b_stats_after(
                *old(stats),
                *settings,
                cur.y,
                ref_a.y,
                ref_b.y,
                lambda as int,
                seq.width as int / 16,
                mb_count(*seq),
            ),
        },
{
    match check_b_encode(seq) {
        Err(e) => {
            return Err(e);
        },
        Ok(_) => {},
    }
    if settings.residual_context_mode == SrsV2ResidualContextMode::ContextV1 {
        return Err(
            SrsV2Error::Unsupported("residual context ContextV1 is not wired for B payloads"),
        );
    }
    let cols: u32 = seq.width / 16;
    let rows: u32 = seq.height / 16;
    assert(cols * rows <= 512 * 512) by (nonlinear_arith)
        requires
            cols <= 512,
            rows <= 512,
    ;
    let n: u32 = cols * rows;
    let ghost want = b_mbs(
        *settings,
        cur.y,
        ref_a.y,
        ref_b.y,
        lambda as int,
        cols as int,
        n as int,
    );
    let mut mbs: Vec<InterMb> = Vec::with_capacity(n as usize);
    let mut i: u32 = 0;
    while i < n
        invariant
            i <= n,
            n == cols * rows,
            n <= 262144,
            cols == seq.width / 16,
            rows == seq.height / 16,
            b_sources_fit(*seq, *cur, *ref_a, *ref_b),
            want == b_mbs(
                *settings,
                cur.y,
                ref_a.y,
                ref_b.y,
                lambda as int,
                cols as int,
                n as int,
            ),
            mbs@.len() == i,
            forall|j: int| 0 <= j < i ==> #[trigger] mbs@[j] == want[j],
            forall|j: int| 0 <= j < i ==> b_carries(#[trigger] mbs@[j], *settings),
            stats.has_room(262144 - i),
            *stats == b_stats_after(
                *old(stats),
                *settings,
                cur.y,
                ref_a.y,
                ref_b.y,
                lambda as int,
                cols as int,
                i as int,
            ),
        decreases n - i,
    {
        assert(cols > 0) by (nonlinear_arith)
            requires
                0 < cols * rows,
                cols >= 0,
        ;
        proof {
            lemma_packed_position(i as int, cols as int, rows as int);
        }
        match choose_b_macroblock(
            settings,
            cur,
            ref_a,
            ref_b,
            i % cols,
            i / cols,
            lambda,
            stats,
        ) {
            Err(e) => {
                return Err(e);
            },
            Ok(c) => {
                let mb = c.to_prediction();
                assert(mb == want[i as int]);
                mbs.push(mb);
            },
        }
        i += 1;
    }
    assert(mbs@ =~= want);
    assert forall|j: int| 0 <= j < mbs@.len() implies (#[trigger] mbs@[j]).wf() by {
        assert(b_carries(mbs@[j], *settings));
    }
    let blocks = plan_b_blocks(
        &cur.y,
        &ref_a.y,
        &ref_b.y,
        mbs.as_slice(),
        cols as usize,
        rows as usize,
    );
    Ok(BFramePlan { mbs, blocks })
}

/// The vectors of the first reference.
pub open spec fn grid_a(mbs: Seq<InterMb>) -> Seq<(i32, i32)> {
    Seq::new(mbs.len(), |i: int| (mbs[i].mv_aqx, mbs[i].mv_aqy))
}

/// The vectors of the second reference.
pub open spec fn grid_b(mbs: Seq<InterMb>) -> Seq<(i32, i32)> {
    Seq::new(mbs.len(), |i: int| (mbs[i].mv_bqx, mbs[i].mv_bqy))
}

/// The compact bytes of a vector grid.
pub open spec fn compact_grid(g: Seq<(i32, i32)>, cols: int) -> Seq<u8> {
    grid_bytes(cols, g, g.len() as int)
}

/// Differences between bounded vectors and their predictions fit their fields.
pub proof fn lemma_bounded_deltas(g: Seq<(i32, i32)>, cols: int)
    requires
        forall|i: int|
            0 <= i < g.len() ==> -1024 <= (#[trigger] g[i]).0 <= 1024 && -1024 <= g[i].1 <= 1024,
        cols > 0 || g.len() == 0,
    ensures
        grid_deltas_fit(cols, g, g.len() as int),
{
    assert forall|i: int| 0 <= i < g.len() implies delta_fits(g[i], #[trigger] predicted(cols, g, i))
        by {
        let x = i % cols;
        let y = i / cols;
        vstd::arithmetic::div_mod::lemma_fundamental_div_mod(i, cols);
        assert(0 <= x < cols && 0 <= y) by {
            vstd::arithmetic::div_mod::lemma_mod_bound(i, cols);
            vstd::arithmetic::div_mod::lemma_div_pos_is_pos(i, cols);
        }
        if y > 0 {
            assert(i - cols >= 0) by (nonlinear_arith)
                requires
                    i == cols * y + x,
                    y >= 1,
                    x >= 0,
                    cols > 0,
            ;
        }
        if x > 0 {
            assert(cols * y >= 0) by (nonlinear_arith)
                requires
                    y >= 0,
                    cols > 0,
            ;
        }
    }
}

fn collect_grids(mbs: &[InterMb]) -> (r: (Vec<(i32, i32)>, Vec<(i32, i32)>))
    ensures
        r.0@ == grid_a(mbs@),
        r.1@ == grid_b(mbs@),
{
    let mut a: Vec<(i32, i32)> = Vec::with_capacity(mbs.len());
    let mut b: Vec<(i32, i32)> = Vec::with_capacity(mbs.len());
    let mut i: usize = 0;
    while i < mbs.len()
        invariant
            i <= mbs@.len(),
            a@.len() == i,
            b@.len() == i,
            forall|j: int| 0 <= j < i ==> #[trigger] a@[j] == grid_a(mbs@)[j],
            forall|j: int| 0 <= j < i ==> #[trigger] b@[j] == grid_b(mbs@)[j],
        decreases mbs@.len() - i,
    {
        a.push((mbs[i].mv_aqx, mbs[i].mv_aqy));
        b.push((mbs[i].mv_bqx, mbs[i].mv_bqy));
        i += 1;
    }
    assert(a@ =~= grid_a(mbs@));
    assert(b@ =~= grid_b(mbs@));
    (a, b)
}

/// The vectors of a planned picture as two compact grids, for the caller to entropy-code.
pub fn compact_b_grids(plan: &BFramePlan, cols: u32, rows: u32) -> (r: (Vec<u8>, Vec<u8>))
    requires
        cols * rows == plan.mbs@.len(),
        plan.mbs@.len() <= 262144,
        forall|i: int| 0 <= i < plan.mbs@.len() ==> (#[trigger] plan.mbs@[i]).wf(),
    ensures
        r.0@ == compact_grid(grid_a(plan.mbs@), cols as int),
        r.1@ == compact_grid(grid_b(plan.mbs@), cols as int),
{
    let (a, b) = collect_grids(plan.mbs.as_slice());
    proof {
        if a@.len() > 0 {
            assert(cols > 0) by (nonlinear_arith)
                requires
                    0 < cols * rows,
                    cols >= 0,
            ;
        }
        lemma_grids_bounded(plan.mbs@);
        lemma_bounded_deltas(a@, cols as int);
        lemma_bounded_deltas(b@, cols as int);
    }
    (
        encode_mv_grid_compact(a.as_slice(), cols, rows),
        encode_mv_grid_compact(b.as_slice(), cols, rows),
    )
}

pub proof fn lemma_grids_bounded(mbs: Seq<InterMb>)
    requires
        forall|i: int| 0 <= i < mbs.len() ==> (#[trigger] mbs[i]).wf(),
    ensures
        forall|i: int|
            0 <= i < mbs.len() ==> -1024 <= (#[trigger] grid_a(mbs)[i]).0 <= 1024 && -1024
                <= grid_a(mbs)[i].1 <= 1024,
        forall|i: int|
            0 <= i < mbs.len() ==> -1024 <= (#[trigger] grid_b(mbs)[i]).0 <= 1024 && -1024
                <= grid_b(mbs)[i].1 <= 1024,
{
    assert forall|i: int| 0 <= i < mbs.len() implies -1024 <= (#[trigger] grid_a(mbs)[i]).0 <= 1024
        && -1024 <= grid_a(mbs)[i].1 <= 1024 by {
        assert(mbs[i].wf());
    }
    assert forall|i: int| 0 <= i < mbs.len() implies -1024 <= (#[trigger] grid_b(mbs)[i]).0 <= 1024
        && -1024 <= grid_b(mbs)[i].1 <= 1024 by {
        assert(mbs[i].wf());
    }
}

/// The wire of a picture with a blend per macroblock.
pub open spec fn blend_wire(s: SrsV2EncodeSettings) -> BWire {
    if s.inter_syntax_mode == SrsV2InterSyntaxMode::RawLegacy {
        BWire {
            blend: true,
            weights: needs_rev14(s),
            vectors: if needs_rev14(s) {
                BVectorWire::Quarter
            } else {
                BVectorWire::Whole
            },
        }
    } else {
        BWire { blend: true, weights: s.b_weighted_prediction, vectors: BVectorWire::Grid }
    }
}

/// The flags of a payload with vector grids.
pub open spec fn compact_flags(s: SrsV2EncodeSettings) -> int {
    (if needs_rev14(s) { 1int } else { 0 }) + (if s.b_weighted_prediction { 2int } else { 0 })
}

/// The magic of a payload with a blend per macroblock.
pub open spec fn blend_magic(s: SrsV2EncodeSettings) -> [u8; 4] {
    match s.inter_syntax_mode {
        SrsV2InterSyntaxMode::RawLegacy => if needs_rev14(s) {
            FRAME_PAYLOAD_MAGIC_B_MB_BLEND_QP
        } else {
            FRAME_PAYLOAD_MAGIC_B_MB_BLEND
        },
        SrsV2InterSyntaxMode::CompactV1 => FRAME_PAYLOAD_MAGIC_B_COMPACT,
        SrsV2InterSyntaxMode::EntropyV1 => FRAME_PAYLOAD_MAGIC_B_INTER_ENTROPY,
    }
}

/// One entropy-coded vector section: symbol count, length, bytes.
pub open spec fn section_bytes(compact: Seq<u8>, blob: Seq<u8>) -> Seq<u8> {
    bytes32(compact.len() as int) + bytes32(blob.len() as int) + blob
}

/// What stands between the fixed fields and the macroblocks.
pub open spec fn blend_vectors(
    s: SrsV2EncodeSettings,
    cols: int,
    mbs: Seq<InterMb>,
    blobs: Seq<Result<Vec<u8>, SrsV2Error>>,
) -> Result<Seq<u8>, SrsV2Error> {
    let ca = compact_grid(grid_a(mbs), cols);
    let cb = compact_grid(grid_b(mbs), cols);
    let flags = seq![compact_flags(s) as u8];
    match s.inter_syntax_mode {
        SrsV2InterSyntaxMode::RawLegacy => Ok(seq![]),
        SrsV2InterSyntaxMode::CompactV1 => Ok(flags + ca + cb),
        SrsV2InterSyntaxMode::EntropyV1 => match blobs[0] {
            Err(e) => Err(e),
            Ok(ba) => match blobs[1] {
                Err(e) => Err(e),
                Ok(bb) => if ba@.len() > u32::MAX {
                    Err(SrsV2Error::Overflow("b mv a blob"))
                } else if bb@.len() > u32::MAX {
                    Err(SrsV2Error::Overflow("b mv b blob"))
                } else {
                    Ok(flags + section_bytes(ca, ba@) + section_bytes(cb, bb@))
                },
            },
        },
    }
}

/// What stands ahead of the macroblocks of a picture with a blend per macroblock.
pub open spec fn blend_prefix(
    s: SrsV2EncodeSettings,
    cols: int,
    frame_index: int,
    qp: int,
    slot_a: int,
    slot_b: int,
    mbs: Seq<InterMb>,
    blobs: Seq<Result<Vec<u8>, SrsV2Error>>,
) -> Result<Seq<u8>, SrsV2Error> {
    match blend_vectors(s, cols, mbs, blobs) {
        Err(e) => Err(e),
        Ok(v) => Ok(b_fixed(blend_magic(s), frame_index, qp, slot_a, slot_b) + v),
    }
}

/// A payload with a blend per macroblock, before its size is checked.
pub open spec fn blend_payload(
    s: SrsV2EncodeSettings,
    cols: int,
    frame_index: int,
    qp: int,
    slot_a: int,
    slot_b: int,
    mbs: Seq<InterMb>,
    planned: Seq<Option<Seq<i16>>>,
    coded: Seq<CodedResidual>,
    blobs: Seq<Result<Vec<u8>, SrsV2Error>>,
) -> Result<Seq<u8>, SrsV2Error> {
    match coding_failure(planned, coded, 0, 4 * mbs.len() as int) {
        Some(e) => Err(e),
        None => match blend_prefix(s, cols, frame_index, qp, slot_a, slot_b, mbs, blobs) {
            Err(e) => Err(e),
            Ok(prefix) => match b_body(
                mbs,
                planned,
                coded,
                step_of(qp),
                blend_wire(s),
                mbs.len() as int,
            ) {
                Err(e) => Err(e),
                Ok(body) => Ok(prefix + body),
            },
        },
    }
}

/// Differences of a grid that are 0.
pub open spec fn zero_deltas(g: Seq<(i32, i32)>, cols: int) -> int {
    total(2 * g.len() as int, |k: int| if grid_delta(cols, g, k) == 0 { 1int } else { 0 })
}

/// The sum of the absolute differences of a grid.
pub open spec fn delta_magnitudes(g: Seq<(i32, i32)>, cols: int) -> int {
    total(2 * g.len() as int, |k: int| magnitude(grid_delta(cols, g, k)))
}

/// The byte accounting of a picture with a blend per macroblock.
pub open spec fn blend_mv_stats(
    s: SrsV2EncodeSettings,
    cols: int,
    mbs: Seq<InterMb>,
    blobs: Seq<Result<Vec<u8>, SrsV2Error>>,
    prefix: int,
    payload: int,
) -> SrsV2InterMvBenchStats {
    let a = grid_a(mbs);
    let b = grid_b(mbs);
    let zeros = zero_deltas(a, cols) + zero_deltas(b, cols);
    SrsV2InterMvBenchStats {
        mv_prediction_mode: MV_PREDICTION_MODE_LABEL,
        mv_raw_bytes_estimate: (mbs.len() * 2 * (if needs_rev14(s) { 8int } else { 4 })) as u64,
        mv_compact_bytes: (compact_grid(a, cols).len() + compact_grid(b, cols).len()) as u64,
        mv_entropy_section_bytes: if s.inter_syntax_mode == SrsV2InterSyntaxMode::EntropyV1 {
            (16 + blobs[0]->Ok_0@.len() + blobs[1]->Ok_0@.len()) as u64
        } else {
            0
        },
        mv_delta_zero_varints: zeros as u64,
        mv_delta_nonzero_varints: (4 * mbs.len() - zeros) as u64,
        mv_delta_sum_abs_components: (delta_magnitudes(a, cols) + delta_magnitudes(
            b,
            cols,
        )) as u64,
        inter_header_bytes: prefix as u64,
        residual_payload_bytes: (payload - prefix) as u64,
    }
}

/// A vector of a compact grid takes at most ten bytes.
pub proof fn lemma_grid_short(cols: int, g: Seq<(i32, i32)>, n: int)
    requires
        0 <= n <= g.len(),
        grid_deltas_fit(cols, g, n),
    ensures
        grid_bytes(cols, g, n).len() <= 10 * n,
    decreases n,
{
    if n > 0 {
        lemma_grid_short(cols, g, n - 1);
        let p = predicted(cols, g, n - 1);
        assert(delta_fits(g[n - 1], p));
        varint_length(zigzag(g[n - 1].0 - p.0) as u32);
        varint_length(zigzag(g[n - 1].1 - p.1) as u32);
    }
}

fn push_section(out: &mut Vec<u8>, compact: &[u8], blob: &[u8])
    requires
        compact@.len() <= u32::MAX,
        blob@.len() <= u32::MAX,
    ensures
        final(out)@ == old(out)@ + section_bytes(compact@, blob@),
{
    push_u32(out, compact.len() as u32);
    push_u32(out, blob.len() as u32);
    push_all(out, blob);
    assert(out@ =~= old(out)@ + section_bytes(compact@, blob@));
}

fn push_vectors(
    out: &mut Vec<u8>,
    settings: &SrsV2EncodeSettings,
    ca: &[u8],
    cb: &[u8],
    blobs: &[Result<Vec<u8>, SrsV2Error>],
    Ghost(cols): Ghost<int>,
    Ghost(mbs): Ghost<Seq<InterMb>>,
) -> (r: Result<(), SrsV2Error>)
    requires
        ca@ == compact_grid(grid_a(mbs), cols),
        cb@ == compact_grid(grid_b(mbs), cols),
        ca@.len() <= u32::MAX,
        cb@.len() <= u32::MAX,
        settings.inter_syntax_mode == SrsV2InterSyntaxMode::EntropyV1 ==> blobs@.len() == 2,
    ensures
        match blend_vectors(*settings, cols, mbs, blobs@) {
            Err(e) => r == Err::<(), SrsV2Error>(e),
            Ok(v) => r is Ok && final(out)@ == old(out)@ + v,
        },
{
    let mut flags: u8 = 0;
    if uses_fr2_rev14_wire(settings) {
        flags += 1;
    }
    if settings.b_weighted_prediction {
        flags += 2;
    }
    match settings.inter_syntax_mode {
        SrsV2InterSyntaxMode::RawLegacy => {
            assert(out@ =~= old(out)@ + Seq::<u8>::empty());
            Ok(())
        },
        SrsV2InterSyntaxMode::CompactV1 => {
            out.push(flags);
            push_all(out, ca);
            push_all(out, cb);
            assert(out@ =~= old(out)@ + (seq![flags] + ca@ + cb@));
            Ok(())
        },
        SrsV2InterSyntaxMode::EntropyV1 => {
            let ba = match &blobs[0] {
                Err(e) => {
                    return Err(*e);
                },
                Ok(b) => b,
            };
            let bb = match &blobs[1] {
                Err(e) => {
                    return Err(*e);
                },
                Ok(b) => b,
            };
            if ba.len() > u32::MAX as usize {
                return Err(SrsV2Error::Overflow("b mv a blob"));
            }
            if bb.len() > u32::MAX as usize {
                return Err(SrsV2Error::Overflow("b mv b blob"));
            }
            out.push(flags);
            push_section(out, ca, ba.as_slice());
            push_section(out, cb, bb.as_slice());
            assert(out@ =~= old(out)@ + (seq![flags] + section_bytes(ca@, ba@) + section_bytes(
                cb@,
                bb@,
            )));
            Ok(())
        },
    }
}

/// Encodes a planned picture with a blend per macroblock, given the coded residual of every
/// sub-block that carries one. `blobs` are the entropy-coded grids of [`compact_b_grids`]; they
/// are read in entropy mode only. The byte accounting goes to `stats`, unless an error comes
/// before the payload is complete.
pub fn encode_yuv420_b_payload_mb_blend(
    plan: &BFramePlan,
    cols: u32,
    rows: u32,
    frame_index: u32,
    qp: u8,
    slot_a: u8,
    slot_b: u8,
    settings: &SrsV2EncodeSettings,
    coded: &[CodedResidual],
    blobs: &[Result<Vec<u8>, SrsV2Error>],
    stats: &mut BFrameEncodeStats,
) -> (r: Result<Vec<u8>, SrsV2Error>)
    requires
        plan.wf(*settings),
        cols * rows == plan.mbs@.len(),
        coded@.len() == plan.blocks@.len(),
        forall|i: int| 0 <= i < coded@.len() ==> (#[trigger] coded@[i]) !is Coefficients,
        settings.inter_syntax_mode == SrsV2InterSyntaxMode::EntropyV1 ==> blobs@.len() == 2,
    ensures
        ({
            let p = planned_view(plan.blocks@);
            match blend_payload(
                *settings,
                cols as int,
                frame_index as int,
                qp as int,
                slot_a as int,
                slot_b as int,
                plan.mbs@,
                p,
                coded@,
                blobs@,
            ) {
                Err(e) => r == Err::<Vec<u8>, SrsV2Error>(e) && *final(stats) == *old(stats),
                Ok(bytes) => {
                    &&& match b_limited(bytes) {
                        Err(e) => r == Err::<Vec<u8>, SrsV2Error>(e),
                        Ok(b) => r is Ok && r->Ok_0@ == b,
                    }
                    &&& *final(stats) == (BFrameEncodeStats {
                        inter_mv: blend_mv_stats(
                            *settings,
                            cols as int,
                            plan.mbs@,
                            blobs@,
                            blend_prefix(
                                *settings,
                                cols as int,
                                frame_index as int,
                                qp as int,
                                slot_a as int,
                                slot_b as int,
                                plan.mbs@,
                                blobs@,
                            )->Ok_0.len() as int,
                            bytes.len() as int,
                        ),
                        ..*old(stats)
                    })
                },
            }
        }),
{
    let qp_i: i16 = if qp < 1 { 1 } else { qp as i16 };
    let n: usize = plan.mbs.len();
    let ghost p = planned_view(plan.blocks@);
    assert forall|i: int| 0 <= i < plan.mbs@.len() implies (#[trigger] plan.mbs@[i]).wf() by {
        assert(b_carries(plan.mbs@[i], *settings));
    }
    match find_coding_failure(plan.blocks.as_slice(), coded, 0, 4 * n) {
        Some(e) => {
            return Err(e);
        },
        None => {},
    }
    let rev14 = uses_fr2_rev14_wire(settings);
    let (mva, mvb) = collect_grids(plan.mbs.as_slice());
    let (ca, cb) = compact_b_grids(plan, cols, rows);
    proof {
        if mva@.len() > 0 {
            assert(cols > 0) by (nonlinear_arith)
                requires
                    0 < cols * rows,
                    cols >= 0,
            ;
        }
        lemma_grids_bounded(plan.mbs@);
        lemma_bounded_deltas(mva@, cols as int);
        lemma_bounded_deltas(mvb@, cols as int);
        lemma_grid_short(cols as int, mva@, mva@.len() as int);
        lemma_grid_short(cols as int, mvb@, mvb@.len() as int);
    }
    let magic: [u8; 4] = match settings.inter_syntax_mode {
        SrsV2InterSyntaxMode::RawLegacy => if rev14 {
            FRAME_PAYLOAD_MAGIC_B_MB_BLEND_QP
        } else {
            FRAME_PAYLOAD_MAGIC_B_MB_BLEND
        },
        SrsV2InterSyntaxMode::CompactV1 => FRAME_PAYLOAD_MAGIC_B_COMPACT,
        SrsV2InterSyntaxMode::EntropyV1 => FRAME_PAYLOAD_MAGIC_B_INTER_ENTROPY,
    };
    let raw = settings.inter_syntax_mode == SrsV2InterSyntaxMode::RawLegacy;
    let wire = BWire {
        blend: true,
        weights: if raw {
            rev14
        } else {
            settings.b_weighted_prediction
        },
        vectors: if !raw {
            BVectorWire::Grid
        } else if rev14 {
            BVectorWire::Quarter
        } else {
            BVectorWire::Whole
        },
    };
    let mut out: Vec<u8> = Vec::new();
    push_fixed(&mut out, magic, frame_index, qp, slot_a, slot_b);
    match push_vectors(
        &mut out,
        settings,
        ca.as_slice(),
        cb.as_slice(),
        blobs,
        Ghost(cols as int),
        Ghost(plan.mbs@),
    ) {
        Err(e) => {
            return Err(e);
        },
        Ok(_) => {},
    }
    let prefix_len: usize = out.len();
    match append_b_body(&mut out, plan, coded, qp_i, wire) {
        Err(e) => {
            return Err(e);
        },
        Ok(_) => {},
    }
    let (zero_a, other_a, sum_a) = mv_compact_grid_delta_statistics(mva.as_slice(), cols, rows);
    let (zero_b, other_b, sum_b) = mv_compact_grid_delta_statistics(mvb.as_slice(), cols, rows);
    let entropy_bytes: u64 = if settings.inter_syntax_mode == SrsV2InterSyntaxMode::EntropyV1 {
        match (&blobs[0], &blobs[1]) {
            (Ok(a), Ok(b)) => 16 + a.len() as u64 + b.len() as u64,
            _ => 0,
        }
    } else {
        0
    };
    let per_mb: u64 = if rev14 { 16 } else { 8 };
    stats.inter_mv = SrsV2InterMvBenchStats {
        mv_prediction_mode: MV_PREDICTION_MODE_LABEL,
        mv_raw_bytes_estimate: n as u64 * per_mb,
        mv_compact_bytes: ca.len() as u64 + cb.len() as u64,
        mv_entropy_section_bytes: entropy_bytes,
        mv_delta_zero_varints: zero_a + zero_b,
        mv_delta_nonzero_varints: other_a + other_b,
        mv_delta_sum_abs_components: sum_a + sum_b,
        inter_header_bytes: prefix_len as u64,
        residual_payload_bytes: (out.len() - prefix_len) as u64,
    };
    if out.len() > MAX_FRAME_PAYLOAD_BYTES {
        return Err(SrsV2Error::AllocationLimit { context: "encoded B-frame" });
    }
    Ok(out)
}

} // verus!
