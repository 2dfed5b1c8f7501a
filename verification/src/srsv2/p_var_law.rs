//! Reading back what was written with variable partitions.
use vstd::prelude::*;

use crate::bytes::{append_is_associative, bytes32, le32_reads_bytes32};
use super::block_aq::{clip_range_ok, sends_deltas, shifted_qp, signed8};
use super::error::SrsV2Error;
use super::frame::plane_refusal;
use super::inter_mv::{first_refusal, mv_stream_round_trip, pu_start, raw_stream, stream_bytes};
use super::intra_codec::step_of;
use super::limits::{QP_DELTA_WIRE_MAX, QP_DELTA_WIRE_MIN};
use super::model::VideoSequenceHeaderV2;
use super::p_frame_codec::mb_count;
use super::p_var_choose::unit_vector_ok;
use super::p_var_decode::{
    after_chunks, stream_check, stream_vectors, take_parts, take_stream, take_var_chunk,
    take_var_header, var_opening, var_reading, var_state, var_step, VarBlock, VarHeader, VarJob,
    VarState,
};
use super::p_var_encode::{
    body_chunks, body_state, body_step, chunk_wire, chunks_before, chunks_of, codes_vectors,
    lemma_chunks_bound, lemma_plan_stream, map_bytes, numbered, var_flags, var_head, var_magic,
    var_payload, var_vectors, BlockPlan, BodyState, VarChunk, VarPlan,
};
use super::p_var_plan::unit_vectors_ok;
use super::partition_map::{all_partitions, rle_round_trip};
use super::rate_control::{SrsV2EncodeSettings, SrsV2PartitionSettings, SrsV2SubpelMode};
use super::reader::{take_u32, Read};

verus! {

/// The bytes of `s` stand in `data` from `off` on.
pub open spec fn stands_at(data: Seq<u8>, off: int, s: Seq<u8>) -> bool {
    &&& 0 <= off
    &&& off + s.len() <= data.len()
    &&& data.subrange(off, off + s.len()) == s
}

proof fn lemma_stands_split(data: Seq<u8>, off: int, a: Seq<u8>, b: Seq<u8>)
    requires
        stands_at(data, off, a + b),
    ensures
        stands_at(data, off, a),
        stands_at(data, off + a.len(), b),
{
    let s = a + b;
    assert(data.subrange(off, off + s.len()) == s);
    assert forall|i: int| 0 <= i < s.len() implies #[trigger] data[off + i] == s[i] by {
        assert(data.subrange(off, off + s.len())[i] == data[off + i]);
    }
    assert(data.subrange(off, off + a.len()) =~= a) by {
        assert forall|i: int| 0 <= i < a.len() implies #[trigger] data.subrange(
            off,
            off + a.len(),
        )[i] == a[i] by {
            assert(data[off + i] == s[i]);
        }
    }
    assert(data.subrange(off + a.len(), off + a.len() + b.len()) =~= b) by {
        assert forall|i: int| 0 <= i < b.len() implies #[trigger] data.subrange(
            off + a.len(),
            off + a.len() + b.len(),
        )[i] == b[i] by {
            assert(data[off + (a.len() + i)] == s[a.len() + i]);
        }
    }
}

proof fn lemma_length_field(data: Seq<u8>, off: int, v: int)
    requires
        stands_at(data, off, bytes32(v)),
        0 <= v < 4294967296,
    ensures
        take_u32(data, off) == (Read::<int> { value: Ok(v), next: off + 4 }),
{
    le32_reads_bytes32(data.take(off), v, data.skip(off + 4));
    assert(data.take(off) + bytes32(v) + data.skip(off + 4) =~= data) by {
        assert forall|i: int| off <= i < off + 4 implies data[i] == bytes32(v)[i - off] by {
            assert(data.subrange(off, off + 4)[i - off] == data[i]);
        }
    }
}

/// A listed chunk is the one that was written.
pub open spec fn job_recovers(
    data: Seq<u8>,
    j: VarJob,
    c: Result<VarChunk, SrsV2Error>,
    qp: int,
    small: bool,
) -> bool {
    &&& c is Ok
    &&& j.start <= j.end <= data.len()
    &&& data.subrange(j.start as int, j.end as int) == c->Ok_0.bytes@
    &&& j.qp == step_of(qp)
    &&& j.small == small
}

/// The header leads to the QP `qp` from a delta.
spec fn header_leads_to(h: VarHeader, on: bool, delta: i8, qp: int) -> bool {
    &&& h.block_aq == on
    &&& if on {
        QP_DELTA_WIRE_MIN <= delta <= QP_DELTA_WIRE_MAX && qp == shifted_qp(
            h.qp as int,
            delta as int,
            h.clip_min as int,
            h.clip_max as int,
        )
    } else {
        qp == h.qp
    }
}

proof fn lemma_chunk_read(
    data: Seq<u8>,
    at: int,
    h: VarHeader,
    small: bool,
    on: bool,
    delta: i8,
    c: VarChunk,
    qp: int,
)
    requires
        data.len() <= usize::MAX,
        chunk_wire(on, delta, c.bytes@).len() <= u32::MAX,
        stands_at(
            data,
            at,
            bytes32(chunk_wire(on, delta, c.bytes@).len() as int) + chunk_wire(
                on,
                delta,
                c.bytes@,
            ),
        ),
        header_leads_to(h, on, delta, qp),
    ensures
        ({
            let w = chunk_wire(on, delta, c.bytes@);
            let r = take_var_chunk(data, at, h, small);
            &&& r.value is Ok
            &&& r.next == at + 4 + w.len()
            &&& job_recovers(data, r.value->Ok_0, Ok(c), qp, small)
        }),
{
    let w = chunk_wire(on, delta, c.bytes@);
    lemma_stands_split(data, at, bytes32(w.len() as int), w);
    lemma_length_field(data, at, w.len() as int);
    let s = at + 4;
    assert(data.subrange(s, s + w.len()) == w);
    if on {
        assert(data.subrange(s, s + w.len())[0] == data[s]);
        assert(data[s] == w[0]);
        assert(signed8(data[s] as int) == delta);
        assert(data.subrange(s + 1, s + w.len()) =~= c.bytes@) by {
            assert forall|i: int| 0 <= i < c.bytes@.len() implies #[trigger] data.subrange(
                s + 1,
                s + w.len(),
            )[i] == c.bytes@[i] by {
                assert(data.subrange(s, s + w.len())[i + 1] == data[s + 1 + i]);
                assert(w[i + 1] == c.bytes@[i]);
            }
        }
    }
}

proof fn lemma_body_chunks_tail(
    on: bool,
    delta: i8,
    coded: Seq<Result<VarChunk, SrsV2Error>>,
    first: int,
    k: int,
    m: int,
    st: BodyState,
) -> (rest: Seq<u8>)
    requires
        k <= m,
        body_chunks(on, delta, coded, first, m, st).fault is None,
    ensures
        body_chunks(on, delta, coded, first, k, st).fault is None,
        body_chunks(on, delta, coded, first, m, st).bytes == body_chunks(
            on,
            delta,
            coded,
            first,
            k,
            st,
        ).bytes + rest,
    decreases m - k,
{
    if k == m || m <= 0 {
        assert(body_chunks(on, delta, coded, first, k, st).bytes + Seq::<u8>::empty()
            =~= body_chunks(on, delta, coded, first, k, st).bytes);
        Seq::empty()
    } else {
        let r = lemma_body_chunks_tail(on, delta, coded, first, k, m - 1, st);
        let w = chunk_wire(on, delta, coded[first + m - 1]->Ok_0.bytes@);
        let a = body_chunks(on, delta, coded, first, k, st).bytes;
        let f = bytes32(w.len() as int);
        assert(a + r + f + w =~= a + (r + f + w));
        r + f + w
    }
}

/// Chunks that were written are read back.
proof fn lemma_chunks_read(
    data: Seq<u8>,
    off: int,
    h: VarHeader,
    small: bool,
    on: bool,
    delta: i8,
    coded: Seq<Result<VarChunk, SrsV2Error>>,
    first: int,
    m: int,
    st: BodyState,
    s: VarState,
    qp: int,
)
    requires
        0 <= m,
        data.len() <= usize::MAX,
        st.fault is None,
        body_chunks(on, delta, coded, first, m, st).fault is None,
        stands_at(data, off, body_chunks(on, delta, coded, first, m, st).bytes),
        s.fault is None,
        s.cur == off + st.bytes.len(),
        header_leads_to(h, on, delta, qp),
    ensures
        ({
            let t = after_chunks(data, h, small, m, s);
            &&& t.fault is None
            &&& t.cur == off + body_chunks(on, delta, coded, first, m, st).bytes.len()
            &&& t.blocks == s.blocks
            &&& t.jobs.len() == s.jobs.len() + m
            &&& forall|i: int| 0 <= i < s.jobs.len() ==> #[trigger] t.jobs[i] == s.jobs[i]
            &&& forall|i: int|
                s.jobs.len() <= i < s.jobs.len() + m ==> job_recovers(
                    data,
                    #[trigger] t.jobs[i],
                    coded[first + i - s.jobs.len()],
                    qp,
                    small,
                )
        }),
    decreases m,
{
    if m > 0 {
        let rest = lemma_body_chunks_tail(on, delta, coded, first, m - 1, m, st);
        let b = body_chunks(on, delta, coded, first, m - 1, st).bytes;
        lemma_stands_split(data, off, b, rest);
        lemma_chunks_read(data, off, h, small, on, delta, coded, first, m - 1, st, s, qp);
        let c = coded[first + m - 1]->Ok_0;
        let w = chunk_wire(on, delta, c.bytes@);
        let f = bytes32(w.len() as int);
        assert(b + f + w =~= b + (f + w));
        lemma_stands_split(data, off, b, f + w);
        lemma_chunk_read(data, off + b.len(), h, small, on, delta, c, qp);
    }
}

/// Chunk `c` belongs to sub-block `i`.
pub open spec fn chunk_in(blocks: Seq<BlockPlan>, i: int, c: int) -> bool {
    chunks_before(blocks, i) <= c < chunks_before(blocks, i) + chunks_of(blocks[i].wire)
}

/// The first `k` sub-blocks were read back.
pub open spec fn blocks_recovered(
    data: Seq<u8>,
    off: int,
    on: bool,
    blocks: Seq<BlockPlan>,
    coded: Seq<Result<VarChunk, SrsV2Error>>,
    t: VarState,
    k: int,
) -> bool {
    &&& t.fault is None
    &&& t.cur == off + body_state(on, blocks, coded, k).bytes.len()
    &&& t.blocks.len() == k
    &&& forall|i: int| 0 <= i < k ==> #[trigger] t.blocks[i] == blocks[i].wire
    &&& t.jobs.len() == chunks_before(blocks, k)
    &&& forall|i: int, c: int|
        0 <= i < k && #[trigger] chunk_in(blocks, i, c) ==> job_recovers(
            data,
            t.jobs[c],
            coded[c],
            blocks[i].qp as int,
            blocks[i].wire is Quarters,
        )
}

/// The control byte of a sub-block.
pub open spec fn control_of(b: VarBlock) -> u8 {
    match b {
        VarBlock::Skip => 1,
        VarBlock::Whole { .. } => 0,
        VarBlock::Quarters { .. } => 2,
    }
}

/// A sub-block adds its control byte, then its chunks.
proof fn lemma_step_tail(
    on: bool,
    b: BlockPlan,
    coded: Seq<Result<VarChunk, SrsV2Error>>,
    st: BodyState,
) -> (rest: Seq<u8>)
    requires
        body_step(on, b, coded, st).fault is None,
    ensures
        st.fault is None,
        on ==> QP_DELTA_WIRE_MIN <= b.delta <= QP_DELTA_WIRE_MAX,
        body_step(on, b, coded, st).bytes == st.bytes + (seq![control_of(b.wire)] + rest),
{
    let open = BodyState { bytes: st.bytes + seq![control_of(b.wire)], ..st };
    let rest = match b.wire {
        VarBlock::Skip => Seq::<u8>::empty(),
        VarBlock::Whole { job } => lemma_body_chunks_tail(
            on,
            b.delta,
            coded,
            job as int,
            0,
            1,
            open,
        ),
        VarBlock::Quarters { first } => lemma_body_chunks_tail(
            on,
            b.delta,
            coded,
            first as int,
            0,
            4,
            open,
        ),
    };
    assert(open.bytes + rest =~= st.bytes + (seq![control_of(b.wire)] + rest));
    assert(open.bytes + Seq::<u8>::empty() =~= open.bytes);
    rest
}

proof fn lemma_body_tail(
    on: bool,
    blocks: Seq<BlockPlan>,
    coded: Seq<Result<VarChunk, SrsV2Error>>,
    k: int,
    n: int,
) -> (rest: Seq<u8>)
    requires
        k <= n,
        body_state(on, blocks, coded, n).fault is None,
    ensures
        body_state(on, blocks, coded, k).fault is None,
        body_state(on, blocks, coded, n).bytes == body_state(on, blocks, coded, k).bytes + rest,
    decreases n - k,
{
    let a = body_state(on, blocks, coded, k).bytes;
    if k == n || n <= 0 {
        assert(a + Seq::<u8>::empty() =~= a);
        Seq::empty()
    } else {
        let st = body_state(on, blocks, coded, n - 1);
        let q = lemma_step_tail(on, blocks[n - 1], coded, st);
        let r = lemma_body_tail(on, blocks, coded, k, n - 1);
        let c = seq![control_of(blocks[n - 1].wire)] + q;
        append_is_associative(a, r, c);
        r + c
    }
}

/// The header leads every sub-block to the QP that it was planned with.
pub open spec fn header_fits_plan(
    h: VarHeader,
    on: bool,
    blocks: Seq<BlockPlan>,
) -> bool {
    &&& h.block_aq == on
    &&& forall|i: int|
        0 <= i < blocks.len() ==> (#[trigger] blocks[i]).qp == if on {
            shifted_qp(
                h.qp as int,
                blocks[i].delta as int,
                h.clip_min as int,
                h.clip_max as int,
            )
        } else {
            h.qp as int
        }
}

/// A sub-block that was written is read back.
proof fn lemma_step_read(
    data: Seq<u8>,
    off: int,
    h: VarHeader,
    on: bool,
    b: BlockPlan,
    coded: Seq<Result<VarChunk, SrsV2Error>>,
    st: BodyState,
    t: VarState,
)
    requires
        data.len() <= usize::MAX,
        body_step(on, b, coded, st).fault is None,
        stands_at(data, off, body_step(on, b, coded, st).bytes),
        t.fault is None,
        t.cur == off + st.bytes.len(),
        match b.wire {
            VarBlock::Skip => true,
            VarBlock::Whole { job } => job == t.jobs.len(),
            VarBlock::Quarters { first } => first == t.jobs.len(),
        },
        h.block_aq == on,
        b.qp == if on {
            shifted_qp(h.qp as int, b.delta as int, h.clip_min as int, h.clip_max as int)
        } else {
            h.qp as int
        },
    ensures
        ({
            let u = var_step(data, h, t);
            &&& u.fault is None
            &&& u.cur == off + body_step(on, b, coded, st).bytes.len()
            &&& u.blocks == t.blocks.push(b.wire)
            &&& u.jobs.len() == t.jobs.len() + chunks_of(b.wire)
            &&& forall|i: int| 0 <= i < t.jobs.len() ==> #[trigger] u.jobs[i] == t.jobs[i]
            &&& forall|i: int|
                t.jobs.len() <= i < u.jobs.len() ==> job_recovers(
                    data,
                    #[trigger] u.jobs[i],
                    coded[i],
                    b.qp as int,
                    b.wire is Quarters,
                )
        }),
{
    let ctrl = control_of(b.wire);
    let q = lemma_step_tail(on, b, coded, st);
    lemma_stands_split(data, off, st.bytes, seq![ctrl] + q);
    lemma_stands_split(data, t.cur, seq![ctrl], q);
    assert(data.subrange(t.cur, t.cur + 1)[0] == data[t.cur]);
    let open = BodyState { bytes: st.bytes + seq![ctrl], ..st };
    let s = VarState { cur: t.cur + 1, ..t };
    match b.wire {
        VarBlock::Skip => {},
        VarBlock::Whole { job } => {
            lemma_chunks_read(
                data,
                off,
                h,
                false,
                on,
                b.delta,
                coded,
                job as int,
                1,
                open,
                s,
                b.qp as int,
            );
        },
        VarBlock::Quarters { first } => {
            lemma_chunks_read(
                data,
                off,
                h,
                true,
                on,
                b.delta,
                coded,
                first as int,
                4,
                open,
                s,
                b.qp as int,
            );
        },
    }
}

proof fn lemma_block_read(
    data: Seq<u8>,
    off: int,
    h: VarHeader,
    on: bool,
    blocks: Seq<BlockPlan>,
    coded: Seq<Result<VarChunk, SrsV2Error>>,
    t: VarState,
    k: int,
)
    requires
        0 <= k < blocks.len(),
        data.len() <= usize::MAX,
        numbered(blocks),
        header_fits_plan(h, on, blocks),
        body_state(on, blocks, coded, k + 1).fault is None,
        stands_at(data, off, body_state(on, blocks, coded, k + 1).bytes),
        blocks_recovered(data, off, on, blocks, coded, t, k),
    ensures
        blocks_recovered(data, off, on, blocks, coded, var_step(data, h, t), k + 1),
{
    let st = body_state(on, blocks, coded, k);
    let b = blocks[k];
    let u = var_step(data, h, t);
    assert(body_state(on, blocks, coded, k + 1) == body_step(on, b, coded, st));
    lemma_step_read(data, off, h, on, b, coded, st, t);
    assert forall|i: int, c: int| 0 <= i < k + 1 && #[trigger] chunk_in(blocks, i, c) implies
        job_recovers(data, u.jobs[c], coded[c], blocks[i].qp as int, blocks[i].wire is Quarters) by {
        if i < k {
            lemma_chunk_below(blocks, i, c, k);
            assert(u.jobs[c] == t.jobs[c]);
        }
    }
    assert forall|i: int| 0 <= i < k + 1 implies #[trigger] u.blocks[i] == blocks[i].wire by {
        if i < k {
            assert(u.blocks[i] == t.blocks[i]);
        }
    }
}

proof fn lemma_chunk_below(blocks: Seq<BlockPlan>, i: int, c: int, k: int)
    requires
        0 <= i < k,
        chunk_in(blocks, i, c),
    ensures
        0 <= c < chunks_before(blocks, k),
    decreases k,
{
    lemma_chunks_bound(blocks, i);
    if i + 1 < k {
        lemma_chunk_below(blocks, i, c, k - 1);
    }
}

proof fn lemma_body_read(
    data: Seq<u8>,
    off: int,
    h: VarHeader,
    on: bool,
    blocks: Seq<BlockPlan>,
    coded: Seq<Result<VarChunk, SrsV2Error>>,
    k: int,
)
    requires
        0 <= k <= blocks.len(),
        data.len() <= usize::MAX,
        numbered(blocks),
        header_fits_plan(h, on, blocks),
        body_state(on, blocks, coded, k).fault is None,
        stands_at(data, off, body_state(on, blocks, coded, k).bytes),
    ensures
        blocks_recovered(data, off, on, blocks, coded, var_state(data, h, off, k), k),
    decreases k,
{
    if k > 0 {
        let rest = lemma_body_tail(on, blocks, coded, k - 1, k);
        lemma_stands_split(data, off, body_state(on, blocks, coded, k - 1).bytes, rest);
        lemma_body_read(data, off, h, on, blocks, coded, k - 1);
        lemma_block_read(
            data,
            off,
            h,
            on,
            blocks,
            coded,
            var_state(data, h, off, k - 1),
            k - 1,
        );
    }
}

/// The header that a payload was written with.
pub open spec fn written_header(
    s: SrsV2EncodeSettings,
    frame_index: int,
    qp: int,
    packed_map: bool,
) -> VarHeader {
    VarHeader {
        frame_index: frame_index as u32,
        qp: qp as u8,
        qpel: s.subpel_mode == SrsV2SubpelMode::HalfPel,
        block_aq: sends_deltas(s),
        packed_map,
        clip_min: if sends_deltas(s) {
            s.min_qp
        } else {
            1
        },
        clip_max: if sends_deltas(s) {
            s.max_qp
        } else {
            51
        },
    }
}

proof fn lemma_var_head(
    s: SrsV2EncodeSettings,
    frame_index: int,
    qp: int,
    packed_map: bool,
    rest: Seq<u8>,
)
    requires
        0 <= frame_index < 4294967296,
        0 <= qp < 256,
        sends_deltas(s) ==> clip_range_ok(s.min_qp as int, s.max_qp as int),
    ensures
        ({
            let head = var_head(s, frame_index, qp, packed_map);
            take_var_header(head + rest) == (Read::<VarHeader> {
                value: Ok(written_header(s, frame_index, qp, packed_map)),
                next: head.len() as int,
            })
        }),
{
    let head = var_head(s, frame_index, qp, packed_map);
    let data = head + rest;
    let m = var_magic(s)@;
    let flags = var_flags(s, packed_map);
    let clip_bytes = if sends_deltas(s) {
        seq![s.min_qp, s.max_qp]
    } else {
        seq![]
    };
    assert(m.len() == 4);
    le32_reads_bytes32(m, frame_index, seq![qp as u8, flags as u8] + clip_bytes + rest);
    assert(m + bytes32(frame_index) + (seq![qp as u8, flags as u8] + clip_bytes + rest) =~= data);
    assert(data[8] == qp as u8);
    assert(data[9] == flags as u8);
    if sends_deltas(s) {
        assert(data[10] == s.min_qp);
        assert(data[11] == s.max_qp);
    }
}

proof fn lemma_map_read(
    p: SrsV2PartitionSettings,
    parts: Seq<u8>,
    pre: Seq<u8>,
    post: Seq<u8>,
)
    requires
        all_partitions(parts),
        map_bytes(p, parts) is Ok,
    ensures
        ({
            let m = map_bytes(p, parts)->Ok_0;
            take_parts(pre + m.0 + post, pre.len() as int, m.1, parts.len() as int) == (Read::<
                Seq<u8>,
            > { value: Ok(parts), next: (pre.len() + m.0.len()) as int })
        }),
{
    let m = map_bytes(p, parts)->Ok_0;
    if m.1 {
        rle_round_trip(pre, parts, post);
    } else {
        let d = pre + m.0 + post;
        assert(d.subrange(pre.len() as int, (pre.len() + parts.len()) as int) =~= parts);
    }
}

proof fn lemma_vectors_pass(mvs: Seq<(i32, i32)>, qpel: bool, j: int)
    requires
        unit_vectors_ok(mvs),
        0 <= j <= mvs.len(),
    ensures
        first_refusal(mvs, stream_check(qpel), j) is None,
    decreases mvs.len() - j,
{
    if j < mvs.len() {
        assert(unit_vector_ok(mvs[j]));
        lemma_vectors_pass(mvs, qpel, j + 1);
    }
}

proof fn lemma_stream_read(
    parts: Seq<u8>,
    mvs: Seq<(i32, i32)>,
    cols: int,
    qpel: bool,
    pre: Seq<u8>,
    post: Seq<u8>,
)
    requires
        parts.len() <= 262144,
        all_partitions(parts),
        mvs.len() == pu_start(parts, parts.len() as int),
        unit_vectors_ok(mvs),
        0 < cols || parts.len() == 0,
    ensures
        ({
            let c = stream_bytes(cols, parts, mvs, parts.len() as int, 0);
            let n = parts.len() as int;
            let d = pre + c + post;
            &&& stream_vectors(d, pre.len() as int, cols, n, parts, qpel) == Ok::<
                Seq<(i32, i32)>,
                SrsV2Error,
            >(mvs)
            &&& raw_stream(d, pre.len() as int, cols, parts, n, 0).next == pre.len() + c.len()
        }),
{
    lemma_plan_stream(parts, mvs, cols);
    lemma_vectors_pass(mvs, qpel, 0);
    if parts.len() > 0 {
        mv_stream_round_trip(pre, cols, parts, mvs, post);
    } else {
        assert(mvs =~= Seq::empty());
        assert(stream_bytes(cols, parts, mvs, 0, 0) =~= Seq::empty());
    }
}

/// Decoding the entropy-coded vectors gives back what was coded.
pub open spec fn blob_decodes(
    s: SrsV2EncodeSettings,
    compact: Seq<u8>,
    mv_bytes: Option<Result<Vec<u8>, SrsV2Error>>,
) -> bool {
    codes_vectors(s) ==> (mv_bytes matches Some(Ok(b)) && b@ == compact)
}

proof fn lemma_vectors_read(
    s: SrsV2EncodeSettings,
    parts: Seq<u8>,
    mvs: Seq<(i32, i32)>,
    cols: int,
    blob: Option<Result<Vec<u8>, SrsV2Error>>,
    mv_bytes: Option<Result<Vec<u8>, SrsV2Error>>,
    pre: Seq<u8>,
    post: Seq<u8>,
)
    requires
        parts.len() <= 262144,
        all_partitions(parts),
        mvs.len() == pu_start(parts, parts.len() as int),
        unit_vectors_ok(mvs),
        0 < cols || parts.len() == 0,
        var_vectors(
            s,
            stream_bytes(cols, parts, mvs, parts.len() as int, 0),
            blob,
        ) is Ok,
        blob_decodes(s, stream_bytes(cols, parts, mvs, parts.len() as int, 0), mv_bytes),
        ({
            let v = var_vectors(
                s,
                stream_bytes(cols, parts, mvs, parts.len() as int, 0),
                blob,
            )->Ok_0;
            pre.len() + v.len() + post.len() <= usize::MAX
        }),
    ensures
        ({
            let v = var_vectors(
                s,
                stream_bytes(cols, parts, mvs, parts.len() as int, 0),
                blob,
            )->Ok_0;
            take_stream(
                pre + v + post,
                mv_bytes,
                var_magic(s)@[3] as int,
                pre.len() as int,
                cols,
                parts.len() as int,
                parts,
                s.subpel_mode == SrsV2SubpelMode::HalfPel,
            ) == (Read::<Seq<(i32, i32)>> {
                value: Ok(mvs),
                next: (pre.len() + v.len()) as int,
            })
        }),
{
    let compact = stream_bytes(cols, parts, mvs, parts.len() as int, 0);
    let v = var_vectors(s, compact, blob)->Ok_0;
    let qpel = s.subpel_mode == SrsV2SubpelMode::HalfPel;
    let d = pre + v + post;
    if codes_vectors(s) {
        let b = blob->Some_0->Ok_0@;
        lemma_plan_stream(parts, mvs, cols);
        let f1 = bytes32(compact.len() as int);
        let f2 = bytes32(b.len() as int);
        le32_reads_bytes32(pre, compact.len() as int, f2 + b + post);
        assert(pre + f1 + (f2 + b + post) =~= d);
        le32_reads_bytes32(pre + f1, b.len() as int, b + post);
        assert(pre + f1 + f2 + (b + post) =~= d);
        lemma_stream_read(parts, mvs, cols, qpel, Seq::empty(), Seq::empty());
        assert(Seq::<u8>::empty() + compact + Seq::<u8>::empty() =~= compact);
    } else {
        lemma_stream_read(parts, mvs, cols, qpel, pre, post);
    }
}

/// Four pieces of a payload, grouped differently.
proof fn lemma_pieces(a: Seq<u8>, b: Seq<u8>, c: Seq<u8>, d: Seq<u8>)
    ensures
        a + b + c + d == a + (b + c + d),
        a + b + c + d == a + b + (c + d),
        stands_at(a + b + c + d, (a + b + c).len() as int, d),
{
    assert(a + b + c + d =~= a + (b + c + d));
    assert(a + b + c + d =~= a + b + (c + d));
    let off = (a + b + c).len() as int;
    assert((a + b + c + d).subrange(off, off + d.len()) =~= d);
}

/// Reading a payload with variable partitions gives back the header, the partitions, the vectors
/// and the sub-blocks that it was written from; every chunk is found, with the QP that it was
/// coded with, and the payload is not broken.
pub proof fn var_payload_round_trip(
    seq: VideoSequenceHeaderV2,
    s: SrsV2EncodeSettings,
    p: SrsV2PartitionSettings,
    frame_index: int,
    qp: int,
    plan: VarPlan,
    coded: Seq<Result<VarChunk, SrsV2Error>>,
    blob: Option<Result<Vec<u8>, SrsV2Error>>,
    mv_bytes: Option<Result<Vec<u8>, SrsV2Error>>,
)
    requires
        plan.wf(),
        plan.parts@.len() == mb_count(seq),
        plane_refusal(seq.width as int, seq.height as int, seq.width as int) is None,
        0 <= frame_index < 4294967296,
        0 <= qp < 256,
        var_payload(
            s,
            p,
            seq.width as int / 16,
            frame_index,
            qp,
            plan.parts@,
            plan.mvs@,
            plan.blocks@,
            coded,
            blob,
        ) is Ok,
        header_fits_plan(written_header(s, frame_index, qp, false), sends_deltas(s), plan.blocks@),
        blob_decodes(
            s,
            stream_bytes(
                seq.width as int / 16,
                plan.parts@,
                plan.mvs@,
                plan.parts@.len() as int,
                0,
            ),
            mv_bytes,
        ),
    ensures
        ({
            let bytes = var_payload(
                s,
                p,
                seq.width as int / 16,
                frame_index,
                qp,
                plan.parts@,
                plan.mvs@,
                plan.blocks@,
                coded,
                blob,
            )->Ok_0;
            let o = var_opening(seq, bytes, var_magic(s)@[3] as int, mv_bytes);
            let st = var_reading(seq, bytes, o.value->Ok_0.header, o.next);
            &&& o.value is Ok
            &&& o.value->Ok_0.header == written_header(
                s,
                frame_index,
                qp,
                map_bytes(p, plan.parts@)->Ok_0.1,
            )
            &&& o.value->Ok_0.parts == plan.parts@
            &&& o.value->Ok_0.mvs == plan.mvs@
            &&& blocks_recovered(
                bytes,
                o.next,
                sends_deltas(s),
                plan.blocks@,
                coded,
                st,
                plan.blocks@.len() as int,
            )
        }),
{
    let cols = seq.width as int / 16;
    let parts = plan.parts@;
    let mvs = plan.mvs@;
    let blocks = plan.blocks@;
    let bytes = var_payload(s, p, cols, frame_index, qp, parts, mvs, blocks, coded, blob)->Ok_0;
    let m = map_bytes(p, parts)->Ok_0;
    let compact = stream_bytes(cols, parts, mvs, parts.len() as int, 0);
    let v = var_vectors(s, compact, blob)->Ok_0;
    let body = body_state(sends_deltas(s), blocks, coded, blocks.len() as int).bytes;
    let head = var_head(s, frame_index, qp, m.1);
    let h = written_header(s, frame_index, qp, m.1);
    lemma_pieces(head, m.0, v, body);
    lemma_var_head(s, frame_index, qp, m.1, m.0 + v + body);
    lemma_map_read(p, parts, head, v + body);
    if cols == 0 {
        assert(cols * (seq.height as int / 16) == 0) by (nonlinear_arith)
            requires
                cols == 0,
        ;
    }
    lemma_vectors_read(s, parts, mvs, cols, blob, mv_bytes, head + m.0, body);
    let off = (head + m.0 + v).len() as int;
    lemma_body_read(bytes, off, h, sends_deltas(s), blocks, coded, blocks.len() as int);
}

} // verus!
