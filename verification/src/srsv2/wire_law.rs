//! Where the fields of frame payloads stand.
use vstd::prelude::*;

use crate::arith::magnitude;
use crate::bytes::{
    bytes16, bytes32, le16, le16_reads_bytes16, le32, le32_reads_bytes32, signed16, signed32, tdiv,
    unsigned16, unsigned32,
};

use super::b_encode::{
    BVectorWire, BWire, b_fixed, b_head, b_vector_bytes, blend_bytes, blend_vectors, compact_flags,
    compact_grid, grid_a, grid_b, needs_rev14, section_bytes, weight_bytes,
};
use super::b_frame_codec::{BBlendModeWire, blend_code};
use super::block_aq::sends_deltas;
use super::error::SrsV2Error;
use super::inter_frame::{InterMb, bit};
use super::inter_write::{
    CodedResidual, chunk_of, framed_chunks, pattern_of, sub_x, sub_y, wire_chunk,
};
use super::intra_frame::{intra_head, intra_magic, intra_sends_deltas};
use super::p_frame_codec::{p_fixed, p_head, p_magic};
use super::p_var_decode::VarBlock;
use super::p_var_encode::{
    BlockPlan, BodyState, VarChunk, body_chunks, body_state, map_bytes, var_head, var_magic,
};
use super::partition_map::rle_payload;
use super::rate_control::{
    ResidualEntropy, SrsV2EncodeSettings, SrsV2PartitionMapEncoding, SrsV2PartitionSettings,
    SrsV2SubpelMode,
};

verus! {

/// The blocks of a picture are numbered macroblock by macroblock, and within a macroblock row by
/// row: so the sample at `x` and `y` lies in the block that starts at the multiples of 8 below them.
pub proof fn blocks_of_macroblocks_run_row_by_row(cols: int, x: int, y: int)
    requires
        0 <= x < 16 * cols,
        0 <= y,
    ensures
        ({
            let k = 4 * (y / 16 * cols + x / 16) + y % 16 / 8 * 2 + x % 16 / 8;
            &&& sub_x(cols, k) == x / 8 * 8
            &&& sub_y(cols, k) == y / 8 * 8
        }),
{
    let i = y / 16 * cols + x / 16;
    let k = 4 * i + y % 16 / 8 * 2 + x % 16 / 8;
    assert(k / 4 == i && k % 4 == y % 16 / 8 * 2 + x % 16 / 8);
    vstd::arithmetic::div_mod::lemma_fundamental_div_mod_converse(i, cols, y / 16, x / 16);
}

/// The pattern of a macroblock marks its skipped blocks, the first one with the lowest bit.
pub proof fn patterns_mark_skipped_blocks(planned: Seq<Option<Seq<i16>>>, base: int)
    ensures
        ({
            let p = pattern_of(planned, base, 4);
            &&& 0 <= p < 16
            &&& p % 2 == 1 <==> planned[base] is None
            &&& p / 2 % 2 == 1 <==> planned[base + 1] is None
            &&& p / 4 % 2 == 1 <==> planned[base + 2] is None
            &&& p / 8 % 2 == 1 <==> planned[base + 3] is None
            &&& bit(p, 0) <==> planned[base] is None
            &&& bit(p, 1) <==> planned[base + 1] is None
            &&& bit(p, 2) <==> planned[base + 2] is None
            &&& bit(p, 3) <==> planned[base + 3] is None
        }),
{
    reveal_with_fuel(pattern_of, 5);
}

/// Every payload starts with its magic, the number of its picture and its QP; the range of QPs
/// follows where blocks shift them, behind the flags where there are any.
#[verifier::rlimit(60)]
pub proof fn payloads_start_with_number_and_qp(
    s: SrsV2EncodeSettings,
    frame_index: u32,
    qp: u8,
    packed_map: bool,
    rest: Seq<u8>,
)
    ensures
        ({
            let d = p_fixed(s, frame_index as int, qp as int) + rest;
            &&& d.take(4) == p_magic(s)@
            &&& le32(d, 4) == frame_index
            &&& d[8] == qp
            &&& sends_deltas(s) ==> d[9] == s.min_qp && d[10] == s.max_qp
        }),
        ({
            let d = intra_head(intra_magic(s)@, s, frame_index as int, qp as int) + rest;
            &&& d.take(4) == intra_magic(s)@
            &&& le32(d, 4) == frame_index
            &&& d[8] == qp
            &&& intra_sends_deltas(s) ==> d[9] == s.min_qp && d[10] == s.max_qp
        }),
        ({
            let d = var_head(s, frame_index as int, qp as int, packed_map) + rest;
            &&& d.take(4) == var_magic(s)@
            &&& le32(d, 4) == frame_index
            &&& d[8] == qp
            &&& d[9] as int % 2 == 1 <==> s.subpel_mode == SrsV2SubpelMode::HalfPel
            &&& d[9] as int / 2 % 2 == 1 <==> sends_deltas(s)
            &&& d[9] as int / 4 % 2 == 1 <==> s.residual_entropy != ResidualEntropy::Explicit
            &&& d[9] as int / 8 % 2 == 1 <==> packed_map
            &&& d[9] < 16
            &&& sends_deltas(s) ==> d[10] == s.min_qp && d[11] == s.max_qp
        }),
{
    let n = frame_index as int;
    let a = p_fixed(s, n, qp as int) + rest;
    assert(a =~= p_magic(s)@ + bytes32(n) + a.skip(8));
    le32_reads_bytes32(p_magic(s)@, n, a.skip(8));
    assert(a.take(4) =~= p_magic(s)@);
    let b = intra_head(intra_magic(s)@, s, n, qp as int) + rest;
    assert(b =~= intra_magic(s)@ + bytes32(n) + b.skip(8));
    le32_reads_bytes32(intra_magic(s)@, n, b.skip(8));
    assert(b.take(4) =~= intra_magic(s)@);
    let c = var_head(s, n, qp as int, packed_map) + rest;
    assert(c =~= var_magic(s)@ + bytes32(n) + c.skip(8));
    le32_reads_bytes32(var_magic(s)@, n, c.skip(8));
    assert(c.take(4) =~= var_magic(s)@);
}

/// A payload with two references names them behind its QP, the forward one first.
pub proof fn references_are_named_behind_the_qp(
    magic: [u8; 4],
    frame_index: u32,
    qp: u8,
    slot_a: u8,
    slot_b: u8,
    rest: Seq<u8>,
)
    ensures
        ({
            let d = b_fixed(
                magic,
                frame_index as int,
                qp as int,
                slot_a as int,
                slot_b as int,
            ) + rest;
            &&& d.take(4) == magic@
            &&& le32(d, 4) == frame_index
            &&& d[8] == qp
            &&& d[9] == slot_a
            &&& d[10] == slot_b
            &&& d.skip(11) == rest
        }),
{
    let n = frame_index as int;
    let a = b_fixed(magic, n, qp as int, slot_a as int, slot_b as int) + rest;
    assert(a =~= magic@ + bytes32(n) + a.skip(8));
    le32_reads_bytes32(magic@, n, a.skip(8));
    assert(a.take(4) =~= magic@);
    assert(a.skip(11) =~= rest);
}

/// A macroblock of a forward picture starts with its vector, first across and then down, in quarter
/// samples of 32 bits or in whole samples of 16; its pattern follows.
#[verifier::rlimit(60)]
pub proof fn vectors_run_across_and_down(
    mbs: Seq<InterMb>,
    planned: Seq<Option<Seq<i16>>>,
    i: int,
    rest: Seq<u8>,
)
    ensures
        ({
            let d = p_head(mbs, planned, true, i) + rest;
            &&& signed32(le32(d, 0)) == mbs[i].mv_aqx
            &&& signed32(le32(d, 4)) == mbs[i].mv_aqy
            &&& d[8] == pattern_of(planned, 4 * i, 4)
            &&& d.skip(9) == rest
        }),
        ({
            let d = p_head(mbs, planned, false, i) + rest;
            let (x, y) = (mbs[i].mv_aqx as int, mbs[i].mv_aqy as int);
            &&& x % 4 == 0 && magnitude(x) <= 131068 ==> 4 * signed16(le16(d, 0)) == x
            &&& y % 4 == 0 && magnitude(y) <= 131068 ==> 4 * signed16(le16(d, 2)) == y
            &&& d[4] == pattern_of(planned, 4 * i, 4)
            &&& d.skip(5) == rest
        }),
{
    patterns_mark_skipped_blocks(planned, 4 * i);
    let (x, y) = (mbs[i].mv_aqx as int, mbs[i].mv_aqy as int);
    let tail = seq![pattern_of(planned, 4 * i, 4) as u8] + rest;
    let d = p_head(mbs, planned, true, i) + rest;
    lemma_quarter_vector(x, y, tail);
    assert(d =~= bytes32(unsigned32(x)) + bytes32(unsigned32(y)) + tail);
    assert(d.skip(9) =~= rest);
    let e = p_head(mbs, planned, false, i) + rest;
    lemma_whole_vector(x, y, tail);
    assert(e =~= bytes16(unsigned16(tdiv(x, 4))) + bytes16(unsigned16(tdiv(y, 4))) + tail);
    assert(e.skip(5) =~= rest);
}

proof fn lemma_quarter_vector(x: int, y: int, tail: Seq<u8>)
    requires
        i32::MIN <= x <= i32::MAX,
        i32::MIN <= y <= i32::MAX,
    ensures
        ({
            let d = bytes32(unsigned32(x)) + bytes32(unsigned32(y)) + tail;
            &&& signed32(le32(d, 0)) == x
            &&& signed32(le32(d, 4)) == y
        }),
{
    let (u, v) = (bytes32(unsigned32(x)), bytes32(unsigned32(y)));
    let none: Seq<u8> = seq![];
    assert(u + v + tail =~= none + u + (v + tail));
    le32_reads_bytes32(none, unsigned32(x), v + tail);
    le32_reads_bytes32(u, unsigned32(y), tail);
}

proof fn lemma_whole_vector(x: int, y: int, tail: Seq<u8>)
    ensures
        ({
            let d = bytes16(unsigned16(tdiv(x, 4))) + bytes16(unsigned16(tdiv(y, 4))) + tail;
            &&& x % 4 == 0 && magnitude(x) <= 131068 ==> 4 * signed16(le16(d, 0)) == x
            &&& y % 4 == 0 && magnitude(y) <= 131068 ==> 4 * signed16(le16(d, 2)) == y
        }),
{
    let (u, v) = (bytes16(unsigned16(tdiv(x, 4))), bytes16(unsigned16(tdiv(y, 4))));
    let none: Seq<u8> = seq![];
    assert(u + v + tail =~= none + u + (v + tail));
    if x % 4 == 0 && magnitude(x) <= 131068 {
        le16_reads_bytes16(none, unsigned16(tdiv(x, 4)), v + tail);
    }
    if y % 4 == 0 && magnitude(y) <= 131068 {
        le16_reads_bytes16(u, unsigned16(tdiv(y, 4)), tail);
    }
}

#[verifier::rlimit(60)]
proof fn lemma_four_fields(pre: Seq<u8>, a: int, b: int, c: int, e: int, tail: Seq<u8>)
    requires
        i32::MIN <= a <= i32::MAX,
        i32::MIN <= b <= i32::MAX,
        i32::MIN <= c <= i32::MAX,
        i32::MIN <= e <= i32::MAX,
    ensures
        ({
            let v = bytes32(unsigned32(a)) + bytes32(unsigned32(b)) + bytes32(unsigned32(c))
                + bytes32(unsigned32(e));
            let d = pre + v + tail;
            let at = pre.len() as int;
            &&& v.len() == 16
            &&& signed32(le32(d, at)) == a
            &&& signed32(le32(d, at + 4)) == b
            &&& signed32(le32(d, at + 8)) == c
            &&& signed32(le32(d, at + 12)) == e
        }),
{
    let (w, x) = (bytes32(unsigned32(a)), bytes32(unsigned32(b)));
    let (y, z) = (bytes32(unsigned32(c)), bytes32(unsigned32(e)));
    let d = pre + (w + x + y + z) + tail;
    assert(d =~= pre + w + (x + y + z + tail));
    le32_reads_bytes32(pre, unsigned32(a), x + y + z + tail);
    assert(d =~= pre + w + x + (y + z + tail));
    le32_reads_bytes32(pre + w, unsigned32(b), y + z + tail);
    assert(d =~= pre + w + x + y + (z + tail));
    le32_reads_bytes32(pre + w + x, unsigned32(c), z + tail);
    assert(d =~= pre + w + x + y + z + tail);
    le32_reads_bytes32(pre + w + x + y, unsigned32(e), tail);
}

/// A macroblock with two references starts with its blend where each has its own, the weights of a
/// weighted one, the forward vector before the backward one, each across before down, and its
/// pattern.
#[verifier::rlimit(60)]
pub proof fn blends_come_before_vectors(
    mbs: Seq<InterMb>,
    planned: Seq<Option<Seq<i16>>>,
    wire: BWire,
    i: int,
    rest: Seq<u8>,
)
    requires
        wire.vectors == BVectorWire::Quarter,
    ensures
        ({
            let d = b_head(mbs, planned, wire, i) + rest;
            let mb = mbs[i];
            let blend = if wire.blend {
                1int
            } else {
                0
            };
            let at = blend + if wire.weights && mb.blend == BBlendModeWire::Weighted {
                2int
            } else {
                0
            };
            &&& wire.blend ==> d[0] == blend_code(mb.blend)
            &&& at > blend ==> d[blend] == mb.weight_a && d[blend + 1] == mb.weight_b
            &&& signed32(le32(d, at)) == mb.mv_aqx
            &&& signed32(le32(d, at + 4)) == mb.mv_aqy
            &&& signed32(le32(d, at + 8)) == mb.mv_bqx
            &&& signed32(le32(d, at + 12)) == mb.mv_bqy
            &&& d[at + 16] == pattern_of(planned, 4 * i, 4)
            &&& d.skip(at + 17) == rest
        }),
{
    patterns_mark_skipped_blocks(planned, 4 * i);
    let mb = mbs[i];
    let d = b_head(mbs, planned, wire, i) + rest;
    let pre = blend_bytes(mb, wire) + weight_bytes(mb, wire);
    let at = pre.len() as int;
    let v = b_vector_bytes(mb, wire.vectors);
    let tail = seq![pattern_of(planned, 4 * i, 4) as u8] + rest;
    assert(d =~= pre + v + tail);
    lemma_four_fields(
        pre,
        mb.mv_aqx as int,
        mb.mv_aqy as int,
        mb.mv_bqx as int,
        mb.mv_bqy as int,
        tail,
    );
    assert(d.skip(at + 17) =~= rest);
}

#[verifier::rlimit(60)]
proof fn lemma_two_sections(f: Seq<u8>, a: Seq<u8>, ca: Seq<u8>, b: Seq<u8>, cb: Seq<u8>)
    requires
        f.len() == 1,
        a.len() <= u32::MAX,
        b.len() <= u32::MAX,
        ca.len() <= u32::MAX,
        cb.len() <= u32::MAX,
    ensures
        ({
            let v = f + section_bytes(a, ca) + section_bytes(b, cb);
            let n = ca.len() as int;
            &&& le32(v, 1) == a.len()
            &&& le32(v, 5) == n
            &&& v.subrange(9, 9 + n) == ca
            &&& le32(v, 9 + n) == b.len()
            &&& le32(v, 13 + n) == cb.len()
            &&& v.skip(17 + n) == cb
        }),
{
    let v = f + section_bytes(a, ca) + section_bytes(b, cb);
    let (n, m) = (ca.len() as int, cb.len() as int);
    let (al, bl) = (bytes32(a.len() as int), bytes32(b.len() as int));
    let (nl, ml) = (bytes32(n), bytes32(m));
    assert(v =~= f + al + (nl + ca + bl + ml + cb));
    le32_reads_bytes32(f, a.len() as int, nl + ca + bl + ml + cb);
    assert(v =~= f + al + nl + (ca + bl + ml + cb));
    le32_reads_bytes32(f + al, n, ca + bl + ml + cb);
    assert(v =~= f + al + nl + ca + bl + (ml + cb));
    le32_reads_bytes32(f + al + nl + ca, b.len() as int, ml + cb);
    assert(v =~= f + al + nl + ca + bl + ml + cb);
    le32_reads_bytes32(f + al + nl + ca + bl, m, cb);
    assert(v.subrange(9, 9 + n) =~= ca);
    assert(v.skip(17 + n) =~= cb);
}

/// Where the vectors of a picture with two references stand together, one byte tells of quarter
/// samples and of weights, and the forward vectors come before the backward ones.
pub proof fn forward_vectors_come_first(
    s: SrsV2EncodeSettings,
    cols: int,
    mbs: Seq<InterMb>,
    blobs: Seq<Result<Vec<u8>, SrsV2Error>>,
)
    requires
        s.inter_syntax_mode is CompactV1,
    ensures
        ({
            let v = blend_vectors(s, cols, mbs, blobs)->Ok_0;
            &&& blend_vectors(s, cols, mbs, blobs) is Ok
            &&& v[0] < 4
            &&& v[0] as int % 2 == 1 <==> needs_rev14(s)
            &&& v[0] as int / 2 == 1 <==> s.b_weighted_prediction
            &&& v.skip(1) == compact_grid(grid_a(mbs), cols) + compact_grid(grid_b(mbs), cols)
        }),
{
    let v = blend_vectors(s, cols, mbs, blobs)->Ok_0;
    let a = compact_grid(grid_a(mbs), cols);
    let b = compact_grid(grid_b(mbs), cols);
    lemma_behind_one(seq![compact_flags(s) as u8], a, b);
}

proof fn lemma_behind_one(f: Seq<u8>, a: Seq<u8>, b: Seq<u8>)
    requires
        f.len() == 1,
    ensures
        (f + a + b)[0] == f[0],
        (f + a + b).skip(1) == a + b,
{
    assert((f + a + b).skip(1) =~= a + b);
}

/// Where the vectors are coded, two sections stand behind that byte, the forward one first: how long
/// the vectors are, how long their coding is, and the coding.
#[verifier::rlimit(60)]
pub proof fn coded_vectors_stand_in_two_sections(
    s: SrsV2EncodeSettings,
    cols: int,
    mbs: Seq<InterMb>,
    blobs: Seq<Result<Vec<u8>, SrsV2Error>>,
)
    requires
        s.inter_syntax_mode is EntropyV1,
        blend_vectors(s, cols, mbs, blobs) is Ok,
        compact_grid(grid_a(mbs), cols).len() <= u32::MAX,
        compact_grid(grid_b(mbs), cols).len() <= u32::MAX,
    ensures
        ({
            let v = blend_vectors(s, cols, mbs, blobs)->Ok_0;
            let n = blobs[0]->Ok_0@.len() as int;
            &&& blobs[0] is Ok && blobs[1] is Ok
            &&& v[0] == compact_flags(s)
            &&& le32(v, 1) == compact_grid(grid_a(mbs), cols).len()
            &&& le32(v, 5) == n
            &&& v.subrange(9, 9 + n) == blobs[0]->Ok_0@
            &&& le32(v, 9 + n) == compact_grid(grid_b(mbs), cols).len()
            &&& le32(v, 13 + n) == blobs[1]->Ok_0@.len()
            &&& v.skip(17 + n) == blobs[1]->Ok_0@
        }),
{
    let a = compact_grid(grid_a(mbs), cols);
    let b = compact_grid(grid_b(mbs), cols);
    let f = seq![compact_flags(s) as u8];
    lemma_two_sections(f, a, blobs[0]->Ok_0@, b, blobs[1]->Ok_0@);
    assert((f + section_bytes(a, blobs[0]->Ok_0@) + section_bytes(b, blobs[1]->Ok_0@))[0] == f[0]);
}

/// The chunk of a block stands behind its length in 32 bits, and the chunks of a macroblock follow one
/// another; a skipped block has none.
pub proof fn chunks_stand_behind_their_lengths(
    planned: Seq<Option<Seq<i16>>>,
    coded: Seq<CodedResidual>,
    deltas: Seq<i8>,
    qp: int,
    base: int,
    m: int,
    long: SrsV2Error,
)
    requires
        0 < m,
        framed_chunks(planned, coded, deltas, qp, base, m, long) is Ok,
    ensures
        ({
            let before = framed_chunks(planned, coded, deltas, qp, base, m - 1, long);
            let after = framed_chunks(planned, coded, deltas, qp, base, m, long)->Ok_0;
            let n = before->Ok_0.len() as int;
            &&& before is Ok
            &&& planned[base + m - 1] is None ==> after == before->Ok_0
            &&& planned[base + m - 1] is Some ==> {
                &&& after.take(n) == before->Ok_0
                &&& le32(after, n) == after.len() - n - 4
                &&& after.skip(n + 4) == wire_chunk(
                    deltas,
                    base + m - 1,
                    chunk_of(coded[base + m - 1], qp),
                )
            }
        }),
{
    let before = framed_chunks(planned, coded, deltas, qp, base, m - 1, long)->Ok_0;
    let after = framed_chunks(planned, coded, deltas, qp, base, m, long)->Ok_0;
    let n = before.len() as int;
    if planned[base + m - 1] is Some {
        let c = wire_chunk(deltas, base + m - 1, chunk_of(coded[base + m - 1], qp));
        le32_reads_bytes32(before, c.len() as int, c);
        assert(after.take(n) =~= before);
        assert(after.skip(n + 4) =~= c);
    }
}

/// A map of partitions is packed only where that was asked for and makes it shorter; otherwise it
/// stands as it is, one byte for each macroblock.
pub proof fn maps_are_packed_where_shorter(p: SrsV2PartitionSettings, parts: Seq<u8>)
    requires
        map_bytes(p, parts) is Ok,
    ensures
        ({
            let (m, packed) = map_bytes(p, parts)->Ok_0;
            &&& m.len() <= parts.len()
            &&& packed ==> m.len() < parts.len() && rle_payload(parts) == Ok::<Seq<u8>, SrsV2Error>(m)
            &&& packed ==> p.partition_map_encoding == SrsV2PartitionMapEncoding::RleRuns
            &&& !packed ==> m == parts
            &&& p.partition_map_encoding == SrsV2PartitionMapEncoding::RleRuns && !packed
                ==> rle_payload(parts)->Ok_0.len() >= parts.len()
        }),
{
}

proof fn lemma_body_grows(
    on: bool,
    delta: i8,
    coded: Seq<Result<VarChunk, SrsV2Error>>,
    first: int,
    m: int,
    st: BodyState,
)
    ensures
        ({
            let b = body_chunks(on, delta, coded, first, m, st).bytes;
            &&& b.len() >= st.bytes.len()
            &&& b.take(st.bytes.len() as int) == st.bytes
        }),
    decreases m,
{
    if m > 0 {
        lemma_body_grows(on, delta, coded, first, m - 1, st);
        let s = body_chunks(on, delta, coded, first, m - 1, st);
        let b = body_chunks(on, delta, coded, first, m, st);
        assert(b.bytes.take(st.bytes.len() as int) =~= s.bytes.take(st.bytes.len() as int));
    } else {
        assert(st.bytes.take(st.bytes.len() as int) =~= st.bytes);
    }
}

/// A block of a partitioned picture starts with a byte that tells how it is carried: 0 whole, 1 not at
/// all, 2 in quarters; a skipped block has nothing behind it.
#[verifier::rlimit(60)]
pub proof fn blocks_tell_how_they_are_carried(
    on: bool,
    blocks: Seq<BlockPlan>,
    coded: Seq<Result<VarChunk, SrsV2Error>>,
    k: int,
)
    requires
        0 <= k < blocks.len(),
        body_state(on, blocks, coded, k + 1).fault is None,
    ensures
        ({
            let before = body_state(on, blocks, coded, k);
            let after = body_state(on, blocks, coded, k + 1);
            let n = before.bytes.len() as int;
            &&& before.fault is None
            &&& after.bytes.len() > n
            &&& after.bytes.take(n) == before.bytes
            &&& after.bytes[n] == 0 <==> blocks[k].wire is Whole
            &&& after.bytes[n] == 1 <==> blocks[k].wire is Skip
            &&& after.bytes[n] == 2 <==> blocks[k].wire is Quarters
            &&& blocks[k].wire is Skip ==> after.bytes.len() == n + 1
        }),
{
    let st = body_state(on, blocks, coded, k);
    let after = body_state(on, blocks, coded, k + 1);
    let n = st.bytes.len() as int;
    let b = blocks[k];
    match b.wire {
        VarBlock::Skip => {
            assert(after.bytes.take(n) =~= st.bytes);
        },
        VarBlock::Whole { job } => {
            let t = BodyState { bytes: st.bytes + seq![0u8], ..st };
            lemma_body_grows(on, b.delta, coded, job as int, 1, t);
            assert(after.bytes.take(n + 1)[n] == 0);
            assert(after.bytes.take(n) =~= after.bytes.take(n + 1).take(n));
            assert(t.bytes.take(n) =~= st.bytes);
        },
        VarBlock::Quarters { first } => {
            let t = BodyState { bytes: st.bytes + seq![2u8], ..st };
            lemma_body_grows(on, b.delta, coded, first as int, 4, t);
            assert(after.bytes.take(n + 1)[n] == 2);
            assert(after.bytes.take(n) =~= after.bytes.take(n + 1).take(n));
            assert(t.bytes.take(n) =~= st.bytes);
        },
    }
}

} // verus!
