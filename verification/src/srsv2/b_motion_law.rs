//! What a bidirectional payload without residuals does to its references.
use vstd::prelude::*;

use crate::bytes::{le16, signed16};

use super::b_decode::{
    BContext, b_decoded, b_header, b_opening, b_parse, b_reading, b_style, slot_at, take_prefix,
};
use super::b_frame_codec::BBlendModeWire;
use super::error::SrsV2Error;
use super::frame::{DecodedVideoFrameV2, lemma_packed_at};
use super::inter_frame::{
    InterMb, InterState, after_header, bit, inter_state, inter_step, lemma_inter_fault, sub_of,
};
use super::model::VideoSequenceHeaderV2;
use super::motion_law::sample_or_grey;
use super::p_frame_codec::mb_count;
use super::reference_manager::SrsV2ReferenceManager;
use super::subpel::whole_pel_needs_no_interpolation;

verus! {

/// A macroblock with two vectors of whole pels.
pub open spec fn moves_both(mb: InterMb, blend: BBlendModeWire, v: (int, int, int, int)) -> bool {
    &&& mb.blend == blend
    &&& mb.mv_aqx == 4 * v.0
    &&& mb.mv_aqy == 4 * v.1
    &&& mb.mv_bqx == 4 * v.2
    &&& mb.mv_bqy == 4 * v.3
}

/// The vectors of macroblock `i` of a payload whose macroblocks are nine bytes long.
pub open spec fn vectors_at(data: Seq<u8>, i: int) -> (int, int, int, int) {
    (
        signed16(le16(data, 12 + 9 * i)),
        signed16(le16(data, 12 + 9 * i + 2)),
        signed16(le16(data, 12 + 9 * i + 4)),
        signed16(le16(data, 12 + 9 * i + 6)),
    )
}

spec fn plain(blend: BBlendModeWire) -> BContext {
    BContext { blend: Some(blend), weighted: false, qpel: false, grids: None }
}

#[verifier::opaque]
spec fn skipped_so_far(data: Seq<u8>, blend: BBlendModeWire, st: InterState, k: int) -> bool {
    &&& st.fault is None
    &&& st.cur == 12 + 9 * ((k + 3) / 4)
    &&& k > 0 ==> st.pattern == 15
    &&& st.mbs.len() == (k + 3) / 4
    &&& st.blocks.len() == k
    &&& forall|j: int| 0 <= j < k ==> #[trigger] st.blocks[j] is None
    &&& forall|i: int|
        0 <= i < (k + 3) / 4 ==> moves_both(#[trigger] st.mbs[i], blend, vectors_at(data, i))
}

proof fn lemma_head_skipped(
    data: Seq<u8>,
    blend: BBlendModeWire,
    st: InterState,
    i: int,
    n: int,
)
    requires
        0 <= i < n,
        data.len() == 12 + 9 * n,
        data[12 + 9 * i + 8] == 15,
        skipped_so_far(data, blend, st, 4 * i),
        b_header(data, plain(blend), 12 + 9 * i, i).value is Ok,
    ensures
        ({
            let header = |cur: int, i: int| b_header(data, plain(blend), cur, i);
            let t = after_header(header, i, st);
            &&& t.fault is None
            &&& t.cur == 12 + 9 * (i + 1)
            &&& t.pattern == 15
            &&& t.blocks == st.blocks
            &&& t.mbs.len() == i + 1
            &&& t.mbs == st.mbs.push(t.mbs[i])
            &&& moves_both(t.mbs[i], blend, vectors_at(data, i))
        }),
{
    reveal(skipped_so_far);
    reveal(b_header);
}

proof fn lemma_new_macroblock(
    data: Seq<u8>,
    blend: BBlendModeWire,
    st: InterState,
    t: InterState,
    i: int,
)
    requires
        0 <= i,
        skipped_so_far(data, blend, st, 4 * i),
        t.fault is None,
        t.cur == 12 + 9 * (i + 1),
        t.pattern == 15,
        t.blocks == st.blocks.push(None),
        t.mbs.len() == i + 1,
        t.mbs == st.mbs.push(t.mbs[i]),
        moves_both(t.mbs[i], blend, vectors_at(data, i)),
    ensures
        skipped_so_far(data, blend, t, 4 * i + 1),
{
    reveal(skipped_so_far);
    assert((4 * i + 1 + 3) / 4 == i + 1 && (4 * i + 3) / 4 == i);
    assert forall|j: int| 0 <= j < i + 1 implies moves_both(
        #[trigger] t.mbs[j],
        blend,
        vectors_at(data, j),
    ) by {
        if j < i {
            assert(t.mbs[j] == st.mbs[j]);
        }
    }
}

proof fn lemma_next_block(data: Seq<u8>, blend: BBlendModeWire, st: InterState, k: int)
    requires
        k >= 1,
        (k - 1) % 4 != 0,
        skipped_so_far(data, blend, st, k - 1),
    ensures
        skipped_so_far(
            data,
            blend,
            InterState { blocks: st.blocks.push(None), ..st },
            k,
        ),
{
    reveal(skipped_so_far);
    assert((k - 1 + 3) / 4 == (k + 3) / 4);
}

proof fn lemma_all_skipped(data: Seq<u8>, blend: BBlendModeWire, k: int, n: int)
    requires
        0 <= k <= 4 * n,
        data.len() == 12 + 9 * n,
        forall|i: int| 0 <= i < n ==> #[trigger] data[12 + 9 * i + 8] == 15,
        inter_state(
            |cur: int, i: int| b_header(data, plain(blend), cur, i),
            data,
            b_style(data),
            12,
            4 * n,
        ).fault is None,
    ensures
        skipped_so_far(
            data,
            blend,
            inter_state(
                |cur: int, i: int| b_header(data, plain(blend), cur, i),
                data,
                b_style(data),
                12,
                k,
            ),
            k,
        ),
    decreases k,
{
    let header = |cur: int, i: int| b_header(data, plain(blend), cur, i);
    let style = b_style(data);
    let after = inter_state(header, data, style, 12, k);
    if after.fault is Some {
        lemma_inter_fault(header, data, style, 12, k, 4 * n);
    }
    if k == 0 {
        reveal(skipped_so_far);
    } else {
        lemma_all_skipped(data, blend, k - 1, n);
        let before = inter_state(header, data, style, 12, k - 1);
        let i = (k - 1) / 4;
        assert(after == inter_step(header, data, style, k - 1, before));
        assert(before.fault is None && after.fault is None) by {
            reveal(skipped_so_far);
        }
        assert(data[12 + 9 * i + 8] == 15);
        if (k - 1) % 4 == 0 {
            let t = after_header(header, i, before);
            assert(before.cur == 12 + 9 * i) by {
                reveal(skipped_so_far);
            }
            lemma_head_skipped(data, blend, before, i, n);
            assert(bit(15, 0));
            assert(after == (InterState { blocks: t.blocks.push(None), ..t }));
            lemma_new_macroblock(data, blend, before, after, i);
        } else {
            assert(before.pattern == 15) by {
                reveal(skipped_so_far);
            }
            assert(bit(15, (k - 1) % 4));
            assert(after == (InterState { blocks: before.blocks.push(None), ..before }));
            lemma_next_block(data, blend, before, k);
        }
    }
}

/// A bidirectional payload without residuals, with one blend for the whole picture and vectors of
/// whole pels, moves its two references macroblock by macroblock: a decoded luma sample is made of
/// the samples of the two references that lie the two vectors further on, and, for vectors of even
/// pels, a chroma sample of those that lie half the vectors further on. Blend 0 takes the first
/// reference, blend 1 the second, and blend 2 the mean of both.
pub proof fn skipped_macroblocks_blend_the_references(
    seq: VideoSequenceHeaderV2,
    data: Seq<u8>,
    manager: SrsV2ReferenceManager,
    mv_bytes: Seq<Result<Vec<u8>, SrsV2Error>>,
    residuals: Seq<Result<[i16; 64], SrsV2Error>>,
    f: DecodedVideoFrameV2,
    x: int,
    y: int,
)
    requires
        manager.frames_valid(),
        b_decoded(seq, data, manager, mv_bytes, residuals, Ok(f)),
        data[3] == 10,
        data.len() == 12 + 9 * mb_count(seq),
        forall|i: int| 0 <= i < mb_count(seq) ==> #[trigger] data[12 + 9 * i + 8] == 15,
        0 <= x < seq.width,
        0 <= y < seq.height,
    ensures
        ({
            let i = y / 16 * (seq.width as int / 16) + x / 16;
            let (ax, ay, bx, by) = vectors_at(data, i);
            let a = manager.slots@[data[9] as int]->0.frame;
            let b = manager.slots@[data[10] as int]->0.frame;
            let (la, lb) = (
                sample_or_grey(a.y, x + ax, y + ay),
                sample_or_grey(b.y, x + bx, y + by),
            );
            let (ca, cb) = (
                sample_or_grey(a.u, x / 2 + ax / 2, y / 2 + ay / 2),
                sample_or_grey(b.u, x / 2 + bx / 2, y / 2 + by / 2),
            );
            let luma = f.yuv.y.at(x, y) as int;
            let chroma = f.yuv.u.at(x / 2, y / 2) as int;
            let even = ax % 2 == 0 && ay % 2 == 0 && bx % 2 == 0 && by % 2 == 0;
            &&& data[11] <= 2
            &&& data[11] == 0 ==> luma == la && (even ==> chroma == ca)
            &&& data[11] == 1 ==> luma == lb && (even ==> chroma == cb)
            &&& data[11] == 2 ==> 2 * luma - 1 <= la + lb <= 2 * luma && (even ==> 2 * chroma - 1
                <= ca + cb <= 2 * chroma)
        }),
{
    let w = seq.width as int;
    let h = seq.height as int;
    let n = mb_count(seq);
    let cols = w / 16;
    let i = y / 16 * cols + x / 16;
    let blend = take_prefix(data)->Ok_0.blend->0;
    let o = b_opening(seq, data, mv_bytes);
    assert(o.value->Ok_0 == plain(blend));
    assert(o.next == 12);
    lemma_packed_at(x / 16, y / 16, cols, h / 16);
    lemma_all_skipped(data, blend, 4 * n, n);
    reveal(skipped_so_far);
    let st = b_reading(seq, data, plain(blend), 12);
    assert(b_parse(seq, data, manager, mv_bytes) == Ok::<InterState, SrsV2Error>(st));
    let mb = st.mbs[i];
    let (ax, ay, bx, by) = vectors_at(data, i);
    assert(moves_both(mb, blend, (ax, ay, bx, by)));
    lemma_packed_at(x, y, w, h);
    lemma_packed_at(x / 2, y / 2, w / 2, h / 2);
    assert(st.blocks[sub_of(cols, x, y)] is None);
    assert(slot_at(manager, data[9] as int) is Ok && slot_at(manager, data[10] as int) is Ok);
    let a = manager.slots@[data[9] as int]->0.frame;
    let b = manager.slots@[data[10] as int]->0.frame;
    assert(a.valid() && b.valid());
    whole_pel_needs_no_interpolation(a.y, x, y, 4 * ax, 4 * ay);
    whole_pel_needs_no_interpolation(b.y, x, y, 4 * bx, 4 * by);
    assert((x / 2) / 8 == x / 16 && (y / 2) / 8 == y / 16);
    if ax % 2 == 0 && ay % 2 == 0 && bx % 2 == 0 && by % 2 == 0 {
        assert(4 * ax == 8 * (ax / 2) && 4 * ay == 8 * (ay / 2));
        assert(4 * bx == 8 * (bx / 2) && 4 * by == 8 * (by / 2));
    }
}

} // verus!
