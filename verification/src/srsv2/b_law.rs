//! Reading bidirectional payloads gives back what was written.
use vstd::prelude::*;

use crate::bytes::{
    bytes32, le16, le16_reads_bytes16, le32, le32_reads_bytes32, tdiv, unsigned16, unsigned32,
};
use super::b_decode::{
    b_decoded, b_header, b_opening, b_parse, b_reading, b_refusal, b_style, is_b_revision,
    is_compact, section_grid, slot_at, take_blend, take_component, take_grid, take_grids,
    take_prefix, take_section, take_vectors, take_weights, BContext, Grids,
};
use super::b_encode::{
    b_body, b_carries, b_fixed, b_head, b_limited, b_long, b_payload, b_vector_bytes, blend_bytes,
    blend_magic, blend_payload, blend_vectors, blend_wire, compact_flags, compact_grid,
    component_bytes, grid_a, grid_b, lemma_bounded_deltas, lemma_grid_short, lemma_grids_bounded,
    needs_rev14, picture_wire, section_bytes, still_mb, weight_bytes, BVectorWire, BWire,
};
use super::b_frame_codec::{blend_code, compact_check, BBlendModeWire};
use super::error::SrsV2Error;
use super::frame::{plane_refusal, DecodedVideoFrameV2};
use super::inter_frame::{after_header, bit, inter_state, span_needs_its_bytes, InterMb};
use super::inter_law::{lemma_after_head, mb_stream, recovers, stream_round_trip, StreamCase};
use super::inter_mv::{
    first_refusal, mv_grid_round_trip, raw_grid, read_signed, varint_from, varint_weight,
};
use super::inter_write::{framed_chunks, lemma_pattern, pattern_of, CodedResidual};
use super::intra_codec::step_of;
use super::model::VideoSequenceHeaderV2;
use super::p_frame_codec::mb_count;
use super::rate_control::{SrsV2EncodeSettings, SrsV2InterSyntaxMode};
use super::reader::Read;
use super::reference_manager::SrsV2ReferenceManager;

verus! {

/// The context in which a reader stands fits the wire that a macroblock was written with.
pub open spec fn wire_matches(mb: InterMb, wire: BWire, ctx: BContext, i: int) -> bool {
    &&& mb.wf()
    &&& wire.blend == (ctx.blend is None)
    &&& ctx.blend matches Some(b) ==> b == mb.blend
    &&& wire.weights == ctx.weighted
    &&& mb.blend == BBlendModeWire::Weighted ==> wire.weights
    &&& mb.blend != BBlendModeWire::Weighted ==> mb.weight_a == 0 && mb.weight_b == 0
    &&& match wire.vectors {
        BVectorWire::Grid => ctx.grids matches Some(g) && g.a[i] == (mb.mv_aqx, mb.mv_aqy)
            && g.b[i] == (mb.mv_bqx, mb.mv_bqy),
        BVectorWire::Whole => ctx.grids is None && !ctx.qpel && mb.mv_aqx % 4 == 0 && mb.mv_aqy % 4
            == 0 && mb.mv_bqx % 4 == 0 && mb.mv_bqy % 4 == 0,
        BVectorWire::Quarter => ctx.grids is None && ctx.qpel && mb.mv_aqx % 2 == 0 && mb.mv_aqy % 2
            == 0 && mb.mv_bqx % 2 == 0 && mb.mv_bqy % 2 == 0,
    }
}

/// A vector component that was written is read back.
proof fn lemma_component(pre: Seq<u8>, v: int, wire: BVectorWire, post: Seq<u8>)
    requires
        -1024 <= v <= 1024,
        wire != BVectorWire::Grid,
    ensures
        ({
            let q = wire == BVectorWire::Quarter;
            take_component(pre + component_bytes(v, wire) + post, q, pre.len() as int) == (Read::<
                int,
            > {
                value: Ok(if q { v } else { tdiv(v, 4) }),
                next: (pre.len() + component_bytes(v, wire).len()) as int,
            })
        }),
{
    if wire == BVectorWire::Quarter {
        le32_reads_bytes32(pre, unsigned32(v), post);
    } else {
        le16_reads_bytes16(pre, unsigned16(tdiv(v, 4)), post);
    }
}

proof fn lemma_split_four(
    pre: Seq<u8>,
    c1: Seq<u8>,
    c2: Seq<u8>,
    c3: Seq<u8>,
    c4: Seq<u8>,
    post: Seq<u8>,
)
    ensures
        pre + (c1 + c2 + c3 + c4) + post == pre + c1 + (c2 + c3 + c4 + post),
        pre + (c1 + c2 + c3 + c4) + post == pre + c1 + c2 + (c3 + c4 + post),
        pre + (c1 + c2 + c3 + c4) + post == pre + c1 + c2 + c3 + (c4 + post),
        pre + (c1 + c2 + c3 + c4) + post == pre + c1 + c2 + c3 + c4 + post,
{
    let d = pre + (c1 + c2 + c3 + c4) + post;
    assert(d =~= pre + c1 + (c2 + c3 + c4 + post));
    assert(d =~= pre + c1 + c2 + (c3 + c4 + post));
    assert(d =~= pre + c1 + c2 + c3 + (c4 + post));
    assert(d =~= pre + c1 + c2 + c3 + c4 + post);
}

/// Four vector components that were written are read back in turn.
proof fn lemma_four_components(
    pre: Seq<u8>,
    v1: int,
    v2: int,
    v3: int,
    v4: int,
    w: BVectorWire,
    post: Seq<u8>,
)
    requires
        w != BVectorWire::Grid,
        -1024 <= v1 <= 1024,
        -1024 <= v2 <= 1024,
        -1024 <= v3 <= 1024,
        -1024 <= v4 <= 1024,
    ensures
        ({
            let q = w == BVectorWire::Quarter;
            let d = pre + (component_bytes(v1, w) + component_bytes(v2, w) + component_bytes(v3, w)
                + component_bytes(v4, w)) + post;
            let n1 = pre.len() + component_bytes(v1, w).len();
            let n2 = n1 + component_bytes(v2, w).len();
            let n3 = n2 + component_bytes(v3, w).len();
            let n4 = n3 + component_bytes(v4, w).len();
            &&& take_component(d, q, pre.len() as int) == (Read::<int> {
                value: Ok(if q { v1 } else { tdiv(v1, 4) }),
                next: n1 as int,
            })
            &&& take_component(d, q, n1 as int) == (Read::<int> {
                value: Ok(if q { v2 } else { tdiv(v2, 4) }),
                next: n2 as int,
            })
            &&& take_component(d, q, n2 as int) == (Read::<int> {
                value: Ok(if q { v3 } else { tdiv(v3, 4) }),
                next: n3 as int,
            })
            &&& take_component(d, q, n3 as int) == (Read::<int> {
                value: Ok(if q { v4 } else { tdiv(v4, 4) }),
                next: n4 as int,
            })
        }),
{
    let c1 = component_bytes(v1, w);
    let c2 = component_bytes(v2, w);
    let c3 = component_bytes(v3, w);
    let c4 = component_bytes(v4, w);
    lemma_split_four(pre, c1, c2, c3, c4, post);
    lemma_component(pre, v1, w, c2 + c3 + c4 + post);
    lemma_component(pre + c1, v2, w, c3 + c4 + post);
    lemma_component(pre + c1 + c2, v3, w, c4 + post);
    lemma_component(pre + c1 + c2 + c3, v4, w, post);
}

/// The vectors of a macroblock are read back.
proof fn lemma_vectors(
    pre: Seq<u8>,
    mb: InterMb,
    wire: BWire,
    ctx: BContext,
    i: int,
    post: Seq<u8>,
)
    requires
        wire_matches(mb, wire, ctx, i),
    ensures
        ({
            let v = take_vectors(
                pre + b_vector_bytes(mb, wire.vectors) + post,
                ctx,
                pre.len() as int,
                i,
            );
            &&& v.value is Ok
            &&& v.value->Ok_0.ax == mb.mv_aqx
            &&& v.value->Ok_0.ay == mb.mv_aqy
            &&& v.value->Ok_0.bx == mb.mv_bqx
            &&& v.value->Ok_0.by == mb.mv_bqy
            &&& v.next == pre.len() + b_vector_bytes(mb, wire.vectors).len()
        }),
{
    if wire.vectors != BVectorWire::Grid {
        lemma_four_components(
            pre,
            mb.mv_aqx as int,
            mb.mv_aqy as int,
            mb.mv_bqx as int,
            mb.mv_bqy as int,
            wire.vectors,
            post,
        );
    }
}

/// The blend and the weights of a macroblock are read back.
proof fn lemma_blend(
    pre: Seq<u8>,
    mb: InterMb,
    wire: BWire,
    ctx: BContext,
    i: int,
    post: Seq<u8>,
)
    requires
        wire_matches(mb, wire, ctx, i),
    ensures
        ({
            let d = pre + (blend_bytes(mb, wire) + weight_bytes(mb, wire)) + post;
            let b = take_blend(d, ctx, pre.len() as int);
            let w = take_weights(d, ctx, mb.blend, b.next);
            &&& b.value == Ok::<BBlendModeWire, SrsV2Error>(mb.blend)
            &&& w.value == Ok::<(int, int), SrsV2Error>((mb.weight_a as int, mb.weight_b as int))
            &&& w.next == pre.len() + blend_bytes(mb, wire).len() + weight_bytes(mb, wire).len()
        }),
{
    let d = pre + (blend_bytes(mb, wire) + weight_bytes(mb, wire)) + post;
    let at = pre.len() as int;
    if wire.blend {
        assert(d[at] == blend_code(mb.blend) as u8);
    }
    let k = (pre.len() + blend_bytes(mb, wire).len()) as int;
    if wire.weights && mb.blend == BBlendModeWire::Weighted {
        assert(d[k] == mb.weight_a);
        assert(d[k + 1] == mb.weight_b);
    }
}

/// A head that was written is read back.
proof fn lemma_b_head(
    pre: Seq<u8>,
    mb: InterMb,
    pattern: int,
    wire: BWire,
    ctx: BContext,
    i: int,
    post: Seq<u8>,
)
    requires
        wire_matches(mb, wire, ctx, i),
        0 <= pattern < 16,
    ensures
        ({
            let head = blend_bytes(mb, wire) + weight_bytes(mb, wire) + b_vector_bytes(
                mb,
                wire.vectors,
            ) + seq![pattern as u8];
            b_header(pre + head + post, ctx, pre.len() as int, i) == (Read::<(InterMb, int)> {
                value: Ok((mb, pattern)),
                next: (pre.len() + head.len()) as int,
            })
        }),
{
    let b = blend_bytes(mb, wire);
    let w = weight_bytes(mb, wire);
    let v = b_vector_bytes(mb, wire.vectors);
    let p = seq![pattern as u8];
    lemma_head_parts(pre, b, w, v, p, post, mb, wire, ctx, i, pattern);
}

proof fn lemma_head_parts(
    pre: Seq<u8>,
    b: Seq<u8>,
    w: Seq<u8>,
    v: Seq<u8>,
    p: Seq<u8>,
    post: Seq<u8>,
    mb: InterMb,
    wire: BWire,
    ctx: BContext,
    i: int,
    pattern: int,
)
    requires
        wire_matches(mb, wire, ctx, i),
        b == blend_bytes(mb, wire),
        w == weight_bytes(mb, wire),
        v == b_vector_bytes(mb, wire.vectors),
        p == seq![pattern as u8],
        0 <= pattern < 16,
    ensures
        b_header(pre + (b + w + v + p) + post, ctx, pre.len() as int, i) == (Read::<
            (InterMb, int),
        > {
            value: Ok((mb, pattern)),
            next: (pre.len() + b.len() + w.len() + v.len() + 1) as int,
        }),
{
    let d = pre + (b + w + v + p) + post;
    let n = (pre.len() + b.len() + w.len()) as int;
    lemma_split_head(pre, b, w, v, p, post);
    assert(take_blend(d, ctx, pre.len() as int).value == Ok::<BBlendModeWire, SrsV2Error>(mb.blend)
        && take_weights(d, ctx, mb.blend, take_blend(d, ctx, pre.len() as int).next) == (Read::<
        (int, int),
    > { value: Ok((mb.weight_a as int, mb.weight_b as int)), next: n })) by {
        lemma_blend(pre, mb, wire, ctx, i, v + p + post);
    }
    let q = pre + (b + w);
    let tail = p + post;
    assert(q + v + tail == d);
    lemma_vectors(q, mb, wire, ctx, i, tail);
    lemma_header_of_parts(d, ctx, pre.len() as int, i, mb, n, n + v.len() as int, pattern);
}

/// A header whose parts read as given reads as a whole.
proof fn lemma_header_of_parts(
    d: Seq<u8>,
    ctx: BContext,
    cur: int,
    i: int,
    mb: InterMb,
    at_vectors: int,
    at_pattern: int,
    pattern: int,
)
    requires
        ({
            let b = take_blend(d, ctx, cur);
            let w = take_weights(d, ctx, mb.blend, b.next);
            let v = take_vectors(d, ctx, at_vectors, i);
            &&& b.value == Ok::<BBlendModeWire, SrsV2Error>(mb.blend)
            &&& w.value == Ok::<(int, int), SrsV2Error>((mb.weight_a as int, mb.weight_b as int))
            &&& w.next == at_vectors
            &&& v.value is Ok
            &&& v.value->Ok_0.ax == mb.mv_aqx
            &&& v.value->Ok_0.ay == mb.mv_aqy
            &&& v.value->Ok_0.bx == mb.mv_bqx
            &&& v.value->Ok_0.by == mb.mv_bqy
            &&& v.next == at_pattern
        }),
        0 <= at_pattern < d.len(),
        d[at_pattern] == pattern,
    ensures
        b_header(d, ctx, cur, i) == (Read::<(InterMb, int)> {
            value: Ok((mb, pattern)),
            next: at_pattern + 1,
        }),
{
    reveal(b_header);
}

proof fn lemma_split_head(
    pre: Seq<u8>,
    b: Seq<u8>,
    w: Seq<u8>,
    v: Seq<u8>,
    p: Seq<u8>,
    post: Seq<u8>,
)
    requires
        p.len() == 1,
    ensures
        pre + (b + w + v + p) + post == pre + (b + w) + (v + p + post),
        pre + (b + w + v + p) + post == pre + (b + w) + v + (p + post),
        (pre + (b + w + v + p) + post)[(pre.len() + b.len() + w.len() + v.len()) as int] == p[0],
        (pre + (b + w + v + p) + post).len() > pre.len() + b.len() + w.len() + v.len(),
{
    let d = pre + (b + w + v + p) + post;
    assert(d =~= pre + (b + w) + (v + p + post));
    assert(d =~= pre + (b + w) + v + (p + post));
}

proof fn lemma_b_body_is_stream(
    mbs: Seq<InterMb>,
    planned: Seq<Option<Seq<i16>>>,
    coded: Seq<CodedResidual>,
    heads: Seq<Seq<u8>>,
    qp: int,
    wire: BWire,
    n: int,
)
    requires
        0 <= n <= mbs.len(),
        heads == Seq::new(mbs.len(), |i: int| b_head(mbs, planned, wire, i)),
        b_body(mbs, planned, coded, qp, wire, n) is Ok,
    ensures
        b_body(mbs, planned, coded, qp, wire, n)->Ok_0 == mb_stream(
            heads,
            planned,
            coded,
            seq![],
            qp,
            b_long(),
            n,
        ),
        forall|i: int|
            0 <= i < n ==> (#[trigger] framed_chunks(
                planned,
                coded,
                seq![],
                qp,
                4 * i,
                4,
                b_long(),
            )) is Ok,
    decreases n,
{
    if n > 0 {
        lemma_b_body_is_stream(mbs, planned, coded, heads, qp, wire, n - 1);
    }
}

/// Every planned residual of a bidirectional picture was entropy-coded.
pub open spec fn all_chunks(planned: Seq<Option<Seq<i16>>>, coded: Seq<CodedResidual>) -> bool {
    &&& coded.len() == planned.len()
    &&& forall|k: int| 0 <= k < coded.len() && #[trigger] planned[k] is Some ==> coded[k] is Chunk
}

/// The macroblocks behind a prefix of a payload are read back.
proof fn lemma_b_stream(
    seq: VideoSequenceHeaderV2,
    bytes: Seq<u8>,
    prefix: Seq<u8>,
    ctx: BContext,
    wire: BWire,
    qp: int,
    mbs: Seq<InterMb>,
    planned: Seq<Option<Seq<i16>>>,
    coded: Seq<CodedResidual>,
)
    requires
        b_body(mbs, planned, coded, step_of(qp), wire, mbs.len() as int) is Ok,
        bytes == prefix + b_body(mbs, planned, coded, step_of(qp), wire, mbs.len() as int)->Ok_0,
        bytes.len() <= usize::MAX,
        prefix.len() >= 11,
        prefix[8] == qp,
        mbs.len() == mb_count(seq),
        planned.len() == 4 * mbs.len(),
        all_chunks(planned, coded),
        forall|i: int| 0 <= i < mbs.len() ==> wire_matches(#[trigger] mbs[i], wire, ctx, i),
    ensures
        ({
            let st = b_reading(seq, bytes, ctx, prefix.len() as int);
            &&& st.fault is None
            &&& st.mbs == mbs
            &&& st.blocks.len() == planned.len()
            &&& forall|k: int|
                0 <= k < planned.len() ==> recovers(
                    bytes,
                    step_of(qp),
                    planned[k],
                    coded[k],
                    #[trigger] st.blocks[k],
                )
        }),
{
    let n = mbs.len() as int;
    let heads = Seq::new(mbs.len(), |i: int| b_head(mbs, planned, wire, i));
    lemma_b_body_is_stream(mbs, planned, coded, heads, step_of(qp), wire, n);
    assert(bytes[8] == prefix[8]);
    let c = StreamCase {
        header: |cur: int, i: int| b_header(bytes, ctx, cur, i),
        data: bytes,
        style: b_style(bytes),
        pre: prefix,
        heads,
        mbs,
        planned,
        coded,
        deltas: seq![],
        long: b_long(),
    };
    assert forall|i: int| 0 <= i < n implies #[trigger] (c.header)(c.offset(i), i) == (Read::<
        (InterMb, int),
    > {
        value: Ok((mbs[i], pattern_of(planned, 4 * i, 4))),
        next: c.offset(i) + heads[i].len(),
    }) by {
        lemma_pattern(planned, 4 * i);
        let post = lemma_after_head(c, i);
        assert(wire_matches(mbs[i], wire, ctx, i));
        lemma_b_head(
            prefix + c.stream(i),
            mbs[i],
            pattern_of(planned, 4 * i, 4),
            wire,
            ctx,
            i,
            post,
        );
    }
    assert forall|i: int| 0 <= i < n implies (#[trigger] c.chunks(i, 4)) is Ok by {
        assert(framed_chunks(planned, coded, seq![], step_of(qp), 4 * i, 4, b_long()) is Ok);
    }
    assert(c.holds());
    stream_round_trip(c);
}

/// The fixed fields of a payload.
proof fn lemma_b_fixed(
    magic: [u8; 4],
    frame_index: int,
    qp: int,
    slot_a: int,
    slot_b: int,
    rest: Seq<u8>,
)
    requires
        0 <= frame_index < 4294967296,
        0 <= qp < 256,
        0 <= slot_a < 256,
        0 <= slot_b < 256,
    ensures
        ({
            let d = b_fixed(magic, frame_index, qp, slot_a, slot_b) + rest;
            &&& b_fixed(magic, frame_index, qp, slot_a, slot_b).len() == 11
            &&& d[3] == magic@[3]
            &&& le32(d, 4) == frame_index
            &&& d[8] == qp
            &&& d[9] == slot_a
            &&& d[10] == slot_b
        }),
{
    let tail = seq![qp as u8, slot_a as u8, slot_b as u8];
    let d = b_fixed(magic, frame_index, qp, slot_a, slot_b) + rest;
    le32_reads_bytes32(magic@, frame_index, tail + rest);
    assert(magic@ + bytes32(frame_index) + (tail + rest) =~= d);
}

/// Reading a payload with one blend gives back the picture number, the quantizer, the slots and
/// the macroblocks; every sub-block recovers its chunk, and the payload is not broken.
pub proof fn b_payload_round_trip(
    seq: VideoSequenceHeaderV2,
    m: SrsV2ReferenceManager,
    mv_bytes: Seq<Result<Vec<u8>, SrsV2Error>>,
    frame_index: int,
    qp: int,
    slot_a: int,
    slot_b: int,
    blend: BBlendModeWire,
    half_pel: bool,
    mbs: Seq<InterMb>,
    planned: Seq<Option<Seq<i16>>>,
    coded: Seq<CodedResidual>,
)
    requires
        b_payload(frame_index, qp, slot_a, slot_b, blend, half_pel, mbs, planned, coded) is Ok,
        b_refusal(
            seq,
            b_payload(
                frame_index,
                qp,
                slot_a,
                slot_b,
                blend,
                half_pel,
                mbs,
                planned,
                coded,
            )->Ok_0,
            m,
        ) is None,
        plane_refusal(seq.width as int, seq.height as int, seq.width as int) is None,
        0 <= frame_index < 4294967296,
        0 <= qp < 256,
        0 <= slot_a < 256,
        0 <= slot_b < 256,
        blend != BBlendModeWire::Weighted,
        mbs.len() == mb_count(seq),
        planned.len() == 4 * mbs.len(),
        all_chunks(planned, coded),
        forall|i: int| 0 <= i < mbs.len() ==> #[trigger] mbs[i] == still_mb(blend),
    ensures
        ({
            let bytes = b_payload(
                frame_index,
                qp,
                slot_a,
                slot_b,
                blend,
                half_pel,
                mbs,
                planned,
                coded,
            )->Ok_0;
            &&& le32(bytes, 4) == frame_index
            &&& bytes[8] == qp
            &&& bytes[9] == slot_a
            &&& bytes[10] == slot_b
            &&& b_parse(seq, bytes, m, mv_bytes) matches Ok(st) && st.fault is None && st.mbs == mbs
                && st.blocks.len() == planned.len() && forall|k: int|
                0 <= k < planned.len() ==> recovers(
                    bytes,
                    step_of(qp),
                    planned[k],
                    coded[k],
                    #[trigger] st.blocks[k],
                )
        }),
{
    let bytes = b_payload(
        frame_index,
        qp,
        slot_a,
        slot_b,
        blend,
        half_pel,
        mbs,
        planned,
        coded,
    )->Ok_0;
    let magic = if half_pel {
        super::b_frame_codec::FRAME_PAYLOAD_MAGIC_B_SUBPEL
    } else {
        super::b_frame_codec::FRAME_PAYLOAD_MAGIC_B
    };
    let wire = picture_wire(half_pel);
    let body = b_body(mbs, planned, coded, step_of(qp), wire, mbs.len() as int)->Ok_0;
    let code = seq![blend_code(blend) as u8];
    let fixed = b_fixed(magic, frame_index, qp, slot_a, slot_b);
    lemma_b_fixed(magic, frame_index, qp, slot_a, slot_b, code + body);
    lemma_b_fixed(magic, frame_index, qp, slot_a, slot_b, code);
    assert(fixed + (code + body) =~= bytes);
    assert(bytes[11] == code[0]);
    let prefix = fixed + code;
    let ctx = BContext { blend: Some(blend), weighted: false, qpel: half_pel, grids: None };
    let o = b_opening(seq, bytes, mv_bytes);
    assert(magic@[3] == if half_pel { 11u8 } else { 10u8 });
    assert(o.value == Ok::<BContext, SrsV2Error>(ctx));
    assert(o.next == 12);
    assert forall|i: int| 0 <= i < mbs.len() implies wire_matches(#[trigger] mbs[i], wire, ctx, i)
        by {
        assert(mbs[i] == still_mb(blend));
    }
    lemma_b_stream(seq, bytes, prefix, ctx, wire, qp, mbs, planned, coded);
}

proof fn lemma_no_refusal(
    mvs: Seq<(i32, i32)>,
    check: spec_fn(i32, i32) -> Result<(), SrsV2Error>,
    j: int,
)
    requires
        0 <= j <= mvs.len(),
        forall|i: int| 0 <= i < mvs.len() ==> check((#[trigger] mvs[i]).0, mvs[i].1) is Ok,
    ensures
        first_refusal(mvs, check, j) is None,
    decreases mvs.len() - j,
{
    if j < mvs.len() {
        assert(check(mvs[j].0, mvs[j].1) is Ok);
        lemma_no_refusal(mvs, check, j + 1);
    }
}

/// Every vector of a grid passes the check of compact grids.
pub open spec fn grid_accepted(g: Seq<(i32, i32)>, qpel: bool) -> bool {
    forall|i: int| 0 <= i < g.len() ==> compact_check(qpel)((#[trigger] g[i]).0, g[i].1) is Ok
}

/// A grid that was written is read back and passes its checks.
proof fn lemma_grid_back(
    pre: Seq<u8>,
    cols: int,
    g: Seq<(i32, i32)>,
    qpel: bool,
    post: Seq<u8>,
)
    requires
        cols > 0,
        forall|i: int|
            0 <= i < g.len() ==> -1024 <= (#[trigger] g[i]).0 <= 1024 && -1024 <= g[i].1 <= 1024,
        grid_accepted(g, qpel),
    ensures
        take_grid(
            pre + compact_grid(g, cols) + post,
            pre.len() as int,
            cols,
            g.len() as int,
            qpel,
        ) == (Read::<Seq<(i32, i32)>> {
            value: Ok(g),
            next: (pre.len() + compact_grid(g, cols).len()) as int,
        }),
{
    lemma_bounded_deltas(g, cols);
    mv_grid_round_trip(pre, cols, g, g.len() as int, post);
    assert(g.take(g.len() as int) =~= g);
    lemma_no_refusal(g, compact_check(qpel), 0);
}

/// The vectors of macroblocks that can be written pass the check of compact grids.
proof fn lemma_grids_accepted(mbs: Seq<InterMb>, s: SrsV2EncodeSettings)
    requires
        forall|i: int| 0 <= i < mbs.len() ==> b_carries(#[trigger] mbs[i], s),
    ensures
        grid_accepted(grid_a(mbs), needs_rev14(s)),
        grid_accepted(grid_b(mbs), needs_rev14(s)),
{
    let check = compact_check(needs_rev14(s));
    assert forall|i: int| 0 <= i < mbs.len() implies check(
        (#[trigger] grid_a(mbs)[i]).0,
        grid_a(mbs)[i].1,
    ) is Ok by {
        assert(b_carries(mbs[i], s));
    }
    assert forall|i: int| 0 <= i < mbs.len() implies check(
        (#[trigger] grid_b(mbs)[i]).0,
        grid_b(mbs)[i].1,
    ) is Ok by {
        assert(b_carries(mbs[i], s));
    }
}

/// A vector section that was written is read back.
proof fn lemma_section_back(pre: Seq<u8>, compact: Seq<u8>, blob: Seq<u8>, n: int, post: Seq<u8>)
    requires
        compact.len() <= 16 * n,
        compact.len() <= super::limits::MAX_FRAME_PAYLOAD_BYTES,
        blob.len() <= u32::MAX,
        (pre + section_bytes(compact, blob) + post).len() <= usize::MAX,
    ensures
        ({
            let r = take_section(
                pre + section_bytes(compact, blob) + post,
                pre.len() as int,
                n,
            );
            &&& r.value is Ok
            &&& r.value->Ok_0.sym_count == compact.len()
            &&& (pre + section_bytes(compact, blob) + post).subrange(
                r.value->Ok_0.start,
                r.value->Ok_0.end,
            ) == blob
            &&& r.next == pre.len() + section_bytes(compact, blob).len()
        }),
{
    let c = bytes32(compact.len() as int);
    let l = bytes32(blob.len() as int);
    let d = pre + section_bytes(compact, blob) + post;
    le32_reads_bytes32(pre, compact.len() as int, l + blob + post);
    assert(pre + c + (l + blob + post) =~= d);
    le32_reads_bytes32(pre + c, blob.len() as int, blob + post);
    assert(pre + c + l + (blob + post) =~= d);
    assert(d.subrange((pre.len() + 8) as int, (pre.len() + 8 + blob.len()) as int) =~= blob);
}

/// A section whose decoder gives back the compact bytes holds the grid.
proof fn lemma_section_grid(
    bytes: Result<Vec<u8>, SrsV2Error>,
    cols: int,
    g: Seq<(i32, i32)>,
    qpel: bool,
)
    requires
        cols > 0,
        forall|i: int|
            0 <= i < g.len() ==> -1024 <= (#[trigger] g[i]).0 <= 1024 && -1024 <= g[i].1 <= 1024,
        grid_accepted(g, qpel),
        bytes matches Ok(b) && b@ == compact_grid(g, cols),
    ensures
        section_grid(bytes, compact_grid(g, cols).len() as int, cols, g.len() as int, qpel) == Ok::<
            Seq<(i32, i32)>,
            SrsV2Error,
        >(g),
{
    lemma_grid_back(seq![], cols, g, qpel, seq![]);
    assert(Seq::<u8>::empty() + compact_grid(g, cols) + Seq::<u8>::empty() =~= compact_grid(
        g,
        cols,
    ));
}

/// A grid whose vectors are within bounds and pass the check of compact grids.
pub open spec fn good_grid(g: Seq<(i32, i32)>, qpel: bool) -> bool {
    &&& forall|i: int|
        0 <= i < g.len() ==> -1024 <= (#[trigger] g[i]).0 <= 1024 && -1024 <= g[i].1 <= 1024
    &&& grid_accepted(g, qpel)
}

proof fn lemma_compact_grids(
    pre: Seq<u8>,
    cols: int,
    ga: Seq<(i32, i32)>,
    gb: Seq<(i32, i32)>,
    q: bool,
    mv_bytes: Seq<Result<Vec<u8>, SrsV2Error>>,
    body: Seq<u8>,
    d: Seq<u8>,
)
    requires
        pre.len() == 12,
        pre[3] == 16,
        cols > 0,
        ga.len() == gb.len(),
        good_grid(ga, q),
        good_grid(gb, q),
        d == pre + compact_grid(ga, cols) + compact_grid(gb, cols) + body,
    ensures
        take_grids(d, mv_bytes, cols, ga.len() as int, q) == (Read::<Grids> {
            value: Ok(Grids { a: ga, b: gb }),
            next: (12 + compact_grid(ga, cols).len() + compact_grid(gb, cols).len()) as int,
        }),
{
    reveal(take_grids);
    let ca = compact_grid(ga, cols);
    let cb = compact_grid(gb, cols);
    assert(d =~= pre + ca + (cb + body));
    lemma_grid_back(pre, cols, ga, q, cb + body);
    lemma_grid_back(pre + ca, cols, gb, q, body);
    assert(d[3] == pre[3]);
}

proof fn lemma_entropy_grids(
    pre: Seq<u8>,
    cols: int,
    ga: Seq<(i32, i32)>,
    gb: Seq<(i32, i32)>,
    q: bool,
    ba: Seq<u8>,
    bb: Seq<u8>,
    mv_bytes: Seq<Result<Vec<u8>, SrsV2Error>>,
    body: Seq<u8>,
    d: Seq<u8>,
)
    requires
        pre.len() == 12,
        pre[3] == 18,
        cols > 0,
        ga.len() == gb.len(),
        ga.len() <= 262144,
        good_grid(ga, q),
        good_grid(gb, q),
        ba.len() <= u32::MAX,
        bb.len() <= u32::MAX,
        d == pre + section_bytes(compact_grid(ga, cols), ba) + section_bytes(
            compact_grid(gb, cols),
            bb,
        ) + body,
        d.len() <= usize::MAX,
        mv_bytes[0] matches Ok(b) && b@ == compact_grid(ga, cols),
        mv_bytes[1] matches Ok(b) && b@ == compact_grid(gb, cols),
    ensures
        take_grids(d, mv_bytes, cols, ga.len() as int, q) == (Read::<Grids> {
            value: Ok(Grids { a: ga, b: gb }),
            next: (12 + section_bytes(compact_grid(ga, cols), ba).len() + section_bytes(
                compact_grid(gb, cols),
                bb,
            ).len()) as int,
        }),
{
    reveal(take_grids);
    let n = ga.len() as int;
    let ca = compact_grid(ga, cols);
    let cb = compact_grid(gb, cols);
    let sa = section_bytes(ca, ba);
    let sb = section_bytes(cb, bb);
    lemma_bounded_deltas(ga, cols);
    lemma_bounded_deltas(gb, cols);
    lemma_grid_short(cols, ga, n);
    lemma_grid_short(cols, gb, n);
    assert(d =~= pre + sa + (sb + body));
    lemma_section_back(pre, ca, ba, n, sb + body);
    lemma_section_back(pre + sa, cb, bb, n, body);
    lemma_section_grid(mv_bytes[0], cols, ga, q);
    lemma_section_grid(mv_bytes[1], cols, gb, q);
    assert(d[3] == pre[3]);
}

proof fn lemma_push_front(fixed: Seq<u8>, flags: Seq<u8>, a: Seq<u8>, b: Seq<u8>, body: Seq<u8>)
    requires
        flags.len() == 1,
    ensures
        fixed + (flags + a + b) + body == fixed + flags + a + b + body,
        (fixed + (flags + a + b) + body)[fixed.len() as int] == flags[0],
{
    assert(fixed + (flags + a + b) + body =~= fixed + flags + a + b + body);
}

/// Both grids of a payload are read back.
proof fn lemma_grids_back(
    s: SrsV2EncodeSettings,
    fixed: Seq<u8>,
    cols: int,
    mbs: Seq<InterMb>,
    blobs: Seq<Result<Vec<u8>, SrsV2Error>>,
    mv_bytes: Seq<Result<Vec<u8>, SrsV2Error>>,
    body: Seq<u8>,
)
    requires
        s.inter_syntax_mode != SrsV2InterSyntaxMode::RawLegacy,
        blend_vectors(s, cols, mbs, blobs) is Ok,
        fixed.len() == 11,
        fixed[3] == if s.inter_syntax_mode == SrsV2InterSyntaxMode::EntropyV1 { 18u8 } else { 16u8 },
        cols > 0,
        mbs.len() <= 262144,
        (fixed + blend_vectors(s, cols, mbs, blobs)->Ok_0 + body).len() <= usize::MAX,
        forall|i: int| 0 <= i < mbs.len() ==> b_carries(#[trigger] mbs[i], s),
        s.inter_syntax_mode == SrsV2InterSyntaxMode::EntropyV1 ==> mv_bytes.len() == 2 && (
        mv_bytes[0] matches Ok(b) && b@ == compact_grid(grid_a(mbs), cols)) && (
        mv_bytes[1] matches Ok(b) && b@ == compact_grid(grid_b(mbs), cols)),
    ensures
        take_grids(
            fixed + blend_vectors(s, cols, mbs, blobs)->Ok_0 + body,
            mv_bytes,
            cols,
            mbs.len() as int,
            needs_rev14(s),
        ) == (Read::<Grids> {
            value: Ok(Grids { a: grid_a(mbs), b: grid_b(mbs) }),
            next: (11 + blend_vectors(s, cols, mbs, blobs)->Ok_0.len()) as int,
        }),
        (fixed + blend_vectors(s, cols, mbs, blobs)->Ok_0 + body)[11] == compact_flags(s) as u8,
{
    let ga = grid_a(mbs);
    let gb = grid_b(mbs);
    let ca = compact_grid(ga, cols);
    let cb = compact_grid(gb, cols);
    let flags = seq![compact_flags(s) as u8];
    let v = blend_vectors(s, cols, mbs, blobs)->Ok_0;
    let d = fixed + v + body;
    let q = needs_rev14(s);
    let n = mbs.len() as int;
    let pre = fixed + flags;
    assert forall|i: int| 0 <= i < mbs.len() implies (#[trigger] mbs[i]).wf() by {
        assert(b_carries(mbs[i], s));
    }
    lemma_grids_bounded(mbs);
    lemma_grids_accepted(mbs, s);
    assert(pre[3] == fixed[3]);
    if s.inter_syntax_mode == SrsV2InterSyntaxMode::CompactV1 {
        lemma_push_front(fixed, flags, ca, cb, body);
        lemma_compact_grids(pre, cols, ga, gb, q, mv_bytes, body, d);
    } else {
        let ba = blobs[0]->Ok_0@;
        let bb = blobs[1]->Ok_0@;
        lemma_push_front(fixed, flags, section_bytes(ca, ba), section_bytes(cb, bb), body);
        lemma_entropy_grids(pre, cols, ga, gb, q, ba, bb, mv_bytes, body, d);
    }
}

/// The context in which the macroblocks of a payload with a blend each are read.
pub open spec fn blend_context(s: SrsV2EncodeSettings, mbs: Seq<InterMb>) -> BContext {
    if s.inter_syntax_mode == SrsV2InterSyntaxMode::RawLegacy {
        BContext { blend: None, weighted: needs_rev14(s), qpel: needs_rev14(s), grids: None }
    } else {
        BContext {
            blend: None,
            weighted: s.b_weighted_prediction,
            qpel: needs_rev14(s),
            grids: Some(Grids { a: grid_a(mbs), b: grid_b(mbs) }),
        }
    }
}

proof fn lemma_blend_matches(mbs: Seq<InterMb>, s: SrsV2EncodeSettings)
    requires
        forall|i: int| 0 <= i < mbs.len() ==> b_carries(#[trigger] mbs[i], s),
    ensures
        forall|i: int|
            0 <= i < mbs.len() ==> wire_matches(
                #[trigger] mbs[i],
                blend_wire(s),
                blend_context(s, mbs),
                i,
            ),
{
    assert forall|i: int| 0 <= i < mbs.len() implies wire_matches(
        #[trigger] mbs[i],
        blend_wire(s),
        blend_context(s, mbs),
        i,
    ) by {
        assert(b_carries(mbs[i], s));
    }
}

/// What stands ahead of the macroblocks is read back.
proof fn lemma_blend_opening(
    seq: VideoSequenceHeaderV2,
    s: SrsV2EncodeSettings,
    frame_index: int,
    qp: int,
    slot_a: int,
    slot_b: int,
    mbs: Seq<InterMb>,
    blobs: Seq<Result<Vec<u8>, SrsV2Error>>,
    mv_bytes: Seq<Result<Vec<u8>, SrsV2Error>>,
    body: Seq<u8>,
)
    requires
        blend_vectors(s, seq.width as int / 16, mbs, blobs) is Ok,
        plane_refusal(seq.width as int, seq.height as int, seq.width as int) is None,
        seq.width % 16 == 0,
        mbs.len() == mb_count(seq),
        mbs.len() <= 262144,
        0 <= frame_index < 4294967296,
        0 <= qp < 256,
        0 <= slot_a < 256,
        0 <= slot_b < 256,
        (b_fixed(blend_magic(s), frame_index, qp, slot_a, slot_b) + blend_vectors(
            s,
            seq.width as int / 16,
            mbs,
            blobs,
        )->Ok_0 + body).len() <= usize::MAX,
        forall|i: int| 0 <= i < mbs.len() ==> b_carries(#[trigger] mbs[i], s),
        s.inter_syntax_mode == SrsV2InterSyntaxMode::EntropyV1 ==> mv_bytes.len() == 2 && (
        mv_bytes[0] matches Ok(b) && b@ == compact_grid(grid_a(mbs), seq.width as int / 16)) && (
        mv_bytes[1] matches Ok(b) && b@ == compact_grid(grid_b(mbs), seq.width as int / 16)),
    ensures
        ({
            let v = blend_vectors(s, seq.width as int / 16, mbs, blobs)->Ok_0;
            b_opening(
                seq,
                b_fixed(blend_magic(s), frame_index, qp, slot_a, slot_b) + v + body,
                mv_bytes,
            ) == (Read::<BContext> {
                value: Ok(blend_context(s, mbs)),
                next: (11 + v.len()) as int,
            })
        }),
{
    let cols = seq.width as int / 16;
    let v = blend_vectors(s, cols, mbs, blobs)->Ok_0;
    let magic = blend_magic(s);
    let fixed = b_fixed(magic, frame_index, qp, slot_a, slot_b);
    let d = fixed + v + body;
    lemma_b_fixed(magic, frame_index, qp, slot_a, slot_b, v + body);
    assert(fixed + (v + body) =~= d);
    lemma_b_fixed(magic, frame_index, qp, slot_a, slot_b, seq![]);
    assert(fixed + Seq::<u8>::empty() =~= fixed);
    assert(magic@[3] == match s.inter_syntax_mode {
        SrsV2InterSyntaxMode::RawLegacy => if needs_rev14(s) { 14u8 } else { 13u8 },
        SrsV2InterSyntaxMode::CompactV1 => 16u8,
        SrsV2InterSyntaxMode::EntropyV1 => 18u8,
    });
    if s.inter_syntax_mode != SrsV2InterSyntaxMode::RawLegacy {
        lemma_grids_back(s, fixed, cols, mbs, blobs, mv_bytes, body);
    }
}

/// Reading a payload with a blend per macroblock gives back the picture number, the quantizer, the
/// slots and the macroblocks; every sub-block recovers its chunk, and the payload is not broken.
/// In entropy mode this holds where the entropy decoder gives back the compact grids.
pub proof fn blend_payload_round_trip(
    seq: VideoSequenceHeaderV2,
    m: SrsV2ReferenceManager,
    s: SrsV2EncodeSettings,
    frame_index: int,
    qp: int,
    slot_a: int,
    slot_b: int,
    mbs: Seq<InterMb>,
    planned: Seq<Option<Seq<i16>>>,
    coded: Seq<CodedResidual>,
    blobs: Seq<Result<Vec<u8>, SrsV2Error>>,
    mv_bytes: Seq<Result<Vec<u8>, SrsV2Error>>,
    bytes: Seq<u8>,
)
    requires
        blend_payload(
            s,
            seq.width as int / 16,
            frame_index,
            qp,
            slot_a,
            slot_b,
            mbs,
            planned,
            coded,
            blobs,
        ) == Ok::<Seq<u8>, SrsV2Error>(bytes),
        b_limited(bytes) is Ok,
        b_refusal(seq, bytes, m) is None,
        plane_refusal(seq.width as int, seq.height as int, seq.width as int) is None,
        0 <= frame_index < 4294967296,
        0 <= qp < 256,
        0 <= slot_a < 256,
        0 <= slot_b < 256,
        mbs.len() == mb_count(seq),
        mbs.len() <= 262144,
        planned.len() == 4 * mbs.len(),
        all_chunks(planned, coded),
        forall|i: int| 0 <= i < mbs.len() ==> b_carries(#[trigger] mbs[i], s),
        s.inter_syntax_mode == SrsV2InterSyntaxMode::EntropyV1 ==> mv_bytes.len() == 2 && (
        mv_bytes[0] matches Ok(b) && b@ == compact_grid(grid_a(mbs), seq.width as int / 16)) && (
        mv_bytes[1] matches Ok(b) && b@ == compact_grid(grid_b(mbs), seq.width as int / 16)),
    ensures
        le32(bytes, 4) == frame_index,
        bytes[8] == qp,
        bytes[9] == slot_a,
        bytes[10] == slot_b,
        b_parse(seq, bytes, m, mv_bytes) matches Ok(st) && st.fault is None && st.mbs == mbs
            && st.blocks.len() == planned.len() && forall|k: int|
            0 <= k < planned.len() ==> recovers(
                bytes,
                step_of(qp),
                planned[k],
                coded[k],
                #[trigger] st.blocks[k],
            ),
{
    let cols = seq.width as int / 16;
    let fixed = b_fixed(blend_magic(s), frame_index, qp, slot_a, slot_b);
    let v = blend_vectors(s, cols, mbs, blobs)->Ok_0;
    let wire = blend_wire(s);
    let body = b_body(mbs, planned, coded, step_of(qp), wire, mbs.len() as int)->Ok_0;
    assert(bytes == fixed + v + body);
    lemma_b_fixed(blend_magic(s), frame_index, qp, slot_a, slot_b, v + body);
    assert(fixed + (v + body) =~= bytes);
    lemma_blend_opening(
        seq,
        s,
        frame_index,
        qp,
        slot_a,
        slot_b,
        mbs,
        blobs,
        mv_bytes,
        body,
    );
    let ctx = blend_context(s, mbs);
    lemma_blend_matches(mbs, s);
    lemma_b_fixed(blend_magic(s), frame_index, qp, slot_a, slot_b, v);
    lemma_b_stream(seq, bytes, fixed + v, ctx, wire, qp, mbs, planned, coded);
}

proof fn lemma_varint_extended(data: Seq<u8>, b: u8, cur: int, k: int, acc: int)
    requires
        0 <= cur,
        varint_from(data, cur, k, acc).value is Ok,
    ensures
        varint_from(data.push(b), cur, k, acc) == varint_from(data, cur, k, acc),
        varint_from(data, cur, k, acc).next >= cur,
    decreases 6 - k,
{
    if cur < data.len() && k < 5 && data[cur] >= 128 {
        let part = data[cur] % 128 * varint_weight(k) % 4294967296;
        lemma_varint_extended(data, b, cur + 1, k + 1, acc + part);
    }
}

proof fn lemma_grid_extended(data: Seq<u8>, b: u8, cur: int, cols: int, n: int)
    requires
        0 <= cur,
        raw_grid(data, cur, cols, n).fault is None,
    ensures
        raw_grid(data.push(b), cur, cols, n) == raw_grid(data, cur, cols, n),
        raw_grid(data, cur, cols, n).next >= cur,
    decreases n,
{
    if n > 0 {
        lemma_grid_extended(data, b, cur, cols, n - 1);
        let at = raw_grid(data, cur, cols, n - 1).next;
        lemma_varint_extended(data, b, at, 0, 0);
        lemma_varint_extended(data, b, read_signed(data, at).next, 0, 0);
    }
}

proof fn lemma_grids_extended(
    data: Seq<u8>,
    b: u8,
    mv_bytes: Seq<Result<Vec<u8>, SrsV2Error>>,
    cols: int,
    n: int,
    qpel: bool,
)
    requires
        data.len() >= 12,
        take_grids(data, mv_bytes, cols, n, qpel).value is Ok,
    ensures
        take_grids(data.push(b), mv_bytes, cols, n, qpel) == take_grids(
            data,
            mv_bytes,
            cols,
            n,
            qpel,
        ),
        take_grids(data, mv_bytes, cols, n, qpel).next >= 12,
{
    reveal(take_grids);
    let long = data.push(b);
    if data[3] == 18 {
        lemma_section_extended(data, b, 12, n);
        lemma_section_extended(data, b, take_section(data, 12, n).next, n);
    } else {
        lemma_grid_extended(data, b, 12, cols, n);
        lemma_grid_extended(data, b, raw_grid(data, 12, cols, n).next, cols, n);
    }
}

proof fn lemma_section_extended(data: Seq<u8>, b: u8, cur: int, n: int)
    requires
        0 <= cur,
        take_section(data, cur, n).value is Ok,
    ensures
        take_section(data.push(b), cur, n) == take_section(data, cur, n),
        take_section(data, cur, n).next >= cur,
{
    assert(le32(data.push(b), cur) == le32(data, cur));
    assert(le32(data.push(b), cur + 4) == le32(data, cur + 4));
}

proof fn lemma_component_extended(data: Seq<u8>, b: u8, qpel: bool, cur: int)
    requires
        0 <= cur,
        take_component(data, qpel, cur).value is Ok,
    ensures
        take_component(data.push(b), qpel, cur) == take_component(data, qpel, cur),
        take_component(data, qpel, cur).next >= cur,
{
    if qpel {
        assert(le32(data.push(b), cur) == le32(data, cur));
    } else {
        assert(le16(data.push(b), cur) == le16(data, cur));
    }
}

proof fn lemma_vectors_extended(data: Seq<u8>, b: u8, ctx: BContext, cur: int, i: int)
    requires
        0 <= cur,
        take_vectors(data, ctx, cur, i).value is Ok,
    ensures
        take_vectors(data.push(b), ctx, cur, i) == take_vectors(data, ctx, cur, i),
        take_vectors(data, ctx, cur, i).next >= cur,
{
    if ctx.grids is None {
        let q = ctx.qpel;
        let ax = take_component(data, q, cur);
        let ay = take_component(data, q, ax.next);
        let bx = take_component(data, q, ay.next);
        let by = take_component(data, q, bx.next);
        lemma_component_extended(data, b, q, cur);
        lemma_component_extended(data, b, q, ax.next);
        lemma_component_extended(data, b, q, ay.next);
        lemma_component_extended(data, b, q, bx.next);
    }
}

proof fn lemma_header_extended(data: Seq<u8>, b: u8, ctx: BContext, cur: int, i: int)
    requires
        0 <= cur,
        b_header(data, ctx, cur, i).value is Ok,
    ensures
        b_header(data.push(b), ctx, cur, i) == b_header(data, ctx, cur, i),
        b_header(data, ctx, cur, i).next >= cur,
{
    reveal(b_header);
    let t = take_blend(data, ctx, cur);
    let blend = t.value->Ok_0;
    let w = take_weights(data, ctx, blend, t.next);
    assert(take_blend(data.push(b), ctx, cur) == t);
    assert(take_weights(data.push(b), ctx, blend, t.next) == w);
    lemma_vectors_extended(data, b, ctx, w.next, i);
}

proof fn lemma_state_extended(data: Seq<u8>, b: u8, ctx: BContext, start: int, n: int)
    requires
        0 <= start,
        inter_state(
            |cur: int, i: int| b_header(data, ctx, cur, i),
            data,
            b_style(data),
            start,
            n,
        ).fault is None,
    ensures
        inter_state(
            |cur: int, i: int| b_header(data.push(b), ctx, cur, i),
            data.push(b),
            b_style(data),
            start,
            n,
        ) == inter_state(
            |cur: int, i: int| b_header(data, ctx, cur, i),
            data,
            b_style(data),
            start,
            n,
        ),
        inter_state(
            |cur: int, i: int| b_header(data, ctx, cur, i),
            data,
            b_style(data),
            start,
            n,
        ).cur >= start,
    decreases n,
{
    if n > 0 {
        let long = data.push(b);
        let style = b_style(data);
        let head = |cur: int, i: int| b_header(data, ctx, cur, i);
        let before = inter_state(head, data, style, start, n - 1);
        lemma_state_extended(data, b, ctx, start, n - 1);
        let k = n - 1;
        let s = if k % 4 == 0 {
            after_header(head, k / 4, before)
        } else {
            before
        };
        if k % 4 == 0 {
            lemma_header_extended(data, b, ctx, before.cur, k / 4);
        }
        if !bit(s.pattern, k % 4) {
            span_needs_its_bytes(data, s.cur, style.label, long, 0);
        }
    }
}

/// What an accepted bidirectional payload says of itself, of its references and of its picture.
pub proof fn accepted_b_payload(
    seq: VideoSequenceHeaderV2,
    data: Seq<u8>,
    manager: SrsV2ReferenceManager,
    mv_bytes: Seq<Result<Vec<u8>, SrsV2Error>>,
    residuals: Seq<Result<[i16; 64], SrsV2Error>>,
    f: DecodedVideoFrameV2,
)
    requires
        b_decoded(seq, data, manager, mv_bytes, residuals, Ok(f)),
    ensures
        seq.max_ref_frames >= 2,
        seq.width % 16 == 0,
        seq.height % 16 == 0,
        data.len() >= 11,
        is_b_revision(data[3] as int),
        f.frame_index == le32(data, 4),
        slot_at(manager, data[9] as int) is Ok,
        slot_at(manager, data[10] as int) is Ok,
        slot_at(manager, data[9] as int)->Ok_0.frame_index < f.frame_index,
        f.frame_index < slot_at(manager, data[10] as int)->Ok_0.frame_index,
        f.is_displayable,
        f.width == seq.width,
        f.height == seq.height,
        f.yuv.valid(),
{
}

/// An accepted bidirectional payload is refused with any byte behind it.
pub proof fn extended_b_payload_is_refused(
    seq: VideoSequenceHeaderV2,
    data: Seq<u8>,
    manager: SrsV2ReferenceManager,
    mv_bytes: Seq<Result<Vec<u8>, SrsV2Error>>,
    residuals: Seq<Result<[i16; 64], SrsV2Error>>,
    f: DecodedVideoFrameV2,
    b: u8,
    r: Result<DecodedVideoFrameV2, SrsV2Error>,
)
    requires
        b_decoded(seq, data, manager, mv_bytes, residuals, Ok(f)),
        b_decoded(seq, data.push(b), manager, mv_bytes, residuals, r),
    ensures
        r == Err::<DecodedVideoFrameV2, SrsV2Error>(SrsV2Error::Syntax("trailing B-frame bytes")),
{
    let long = data.push(b);
    let o = b_opening(seq, data, mv_bytes);
    let ctx = o.value->Ok_0;
    let p = take_prefix(data)->Ok_0;
    assert(take_prefix(long) == take_prefix(data));
    assert(le32(long, 4) == le32(data, 4));
    assert(b_refusal(seq, long, manager) is None);
    if is_compact(data[3] as int) {
        lemma_grids_extended(
            data,
            b,
            mv_bytes,
            seq.width as int / 16,
            mb_count(seq),
            p.flags % 2 == 1,
        );
    }
    assert(b_opening(seq, long, mv_bytes) == o);
    assert(b_style(long) == b_style(data));
    lemma_state_extended(data, b, ctx, o.next, 4 * mb_count(seq));
}

} // verus!
