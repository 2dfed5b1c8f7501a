//! What motion compensation does to a picture: planes move together, and what was coded comes back.
use vstd::prelude::*;

use crate::arith::magnitude;
use crate::bytes::{le16, signed16};

use super::b_frame_codec::BBlendModeWire;
use super::error::SrsV2Error;
use super::frame::{DecodedVideoFrameV2, VideoPlane, YuvFrame, lemma_packed_at};
use super::inter_frame::{
    InterMb, InterState, JobView, after_header, bit, inter_planes, inter_step, lemma_blend_range,
    lemma_inter_fault, mb_of, sub_of,
};
use super::inter_write::{CodedResidual, planned_blocks, planned_view};
use super::model::VideoSequenceHeaderV2;
use super::motion_search::{SrsV2MotionEncodeStats, padded};
use super::p_frame_codec::{
    PFramePlan, coded_as_asked, mb_count, p_carries, p_decoded, p_header, p_is_qpel, p_payload,
    p_payload_round_trip, p_planned, p_reading, p_start, p_state, p_style,
};
use super::rate_control::{SrsV2EncodeSettings, SrsV2SubpelMode};
use super::subpel::{lemma_qpel_range, qpel_sample, whole_pel_needs_no_interpolation};

verus! {

/// The sample of a plane at (`x`, `y`), mid-grey outside of it.
pub open spec fn sample_or_grey(p: VideoPlane<u8>, x: int, y: int) -> int {
    if 0 <= x < p.width && 0 <= y < p.height {
        p.at(x, y) as int
    } else {
        128
    }
}

/// Luma and chroma of a macroblock move together. Where its vectors are of whole and even pels, the
/// luma prediction at a place is made of the reference samples that lie the vectors further on,
/// and the chroma prediction of those that lie half the vectors further on: of the first
/// reference, of the second, of the mean of both, or of both by their weights in 256.
pub proof fn luma_and_chroma_move_together(
    mb: InterMb,
    a: YuvFrame,
    b: YuvFrame,
    ax: int,
    ay: int,
    bx: int,
    by: int,
    x: int,
    y: int,
)
    requires
        mb.wf(),
        a.valid(),
        b.valid(),
        mb.mv_aqx == 8 * ax,
        mb.mv_aqy == 8 * ay,
        mb.mv_bqx == 8 * bx,
        mb.mv_bqy == 8 * by,
    ensures
        ({
            let la = sample_or_grey(a.y, x + 2 * ax, y + 2 * ay);
            let lb = sample_or_grey(b.y, x + 2 * bx, y + 2 * by);
            let ca = sample_or_grey(a.u, x + ax, y + ay);
            let cb = sample_or_grey(b.u, x + bx, y + by);
            let luma = mb.luma(a.y, b.y, x, y);
            let chroma = mb.chroma(a.u, b.u, x, y);
            match mb.blend {
                BBlendModeWire::ForwardOnly => luma == la && chroma == ca,
                BBlendModeWire::BackwardOnly => luma == lb && chroma == cb,
                BBlendModeWire::Average => 2 * luma - 1 <= la + lb <= 2 * luma && 2 * chroma - 1
                    <= ca + cb <= 2 * chroma,
                BBlendModeWire::Weighted => {
                    &&& -128 <= la * mb.weight_a + lb * mb.weight_b - 256 * luma < 128
                    &&& -128 <= ca * mb.weight_a + cb * mb.weight_b - 256 * chroma < 128
                },
            }
        }),
{
    whole_pel_needs_no_interpolation(a.y, x, y, 8 * ax, 8 * ay);
    whole_pel_needs_no_interpolation(b.y, x, y, 8 * bx, 8 * by);
}

/// Halfway between two samples lies their mean, and in the middle of four the mean of the four,
/// rounded to nearest.
pub proof fn half_pel_samples_are_means(p: VideoPlane<u8>, x: int, y: int, mx: int, my: int)
    requires
        p.valid(),
    ensures
        ({
            let s = |dx: int, dy: int| sample_or_grey(p, x + mx + dx, y + my + dy);
            let right = qpel_sample(p, x, y, 4 * mx + 2, 4 * my);
            let below = qpel_sample(p, x, y, 4 * mx, 4 * my + 2);
            let middle = qpel_sample(p, x, y, 4 * mx + 2, 4 * my + 2);
            &&& 2 * right - 1 <= s(0, 0) + s(1, 0) <= 2 * right
            &&& 2 * below - 1 <= s(0, 0) + s(0, 1) <= 2 * below
            &&& 4 * middle - 2 <= s(0, 0) + s(1, 0) + s(0, 1) + s(1, 1) <= 4 * middle + 1
        }),
{
    assert((4 * mx + 2) / 4 == mx && (4 * mx + 2) % 4 == 2);
    assert((4 * my + 2) / 4 == my && (4 * my + 2) % 4 == 2);
    assert((4 * mx) / 4 == mx && (4 * mx) % 4 == 0);
    assert((4 * my) / 4 == my && (4 * my) % 4 == 0);
    let a = padded(p, x + mx, y + my);
    let b = padded(p, x + mx + 1, y + my);
    let c = padded(p, x + mx, y + my + 1);
    let d = padded(p, x + mx + 1, y + my + 1);
    lemma_half_weights(2, 0, a, b, c, d);
    lemma_half_weights(0, 2, a, b, c, d);
    lemma_half_weights(2, 2, a, b, c, d);
}

proof fn lemma_half_weights(fx: int, fy: int, a: int, b: int, c: int, d: int)
    requires
        fx == 0 || fx == 2,
        fy == 0 || fy == 2,
    ensures
        ({
            let t = (4 - fx) * (4 - fy) * a + fx * (4 - fy) * b + (4 - fx) * fy * c + fx * fy * d;
            &&& fx == 2 && fy == 0 ==> t == 8 * a + 8 * b
            &&& fx == 0 && fy == 2 ==> t == 8 * a + 8 * c
            &&& fx == 2 && fy == 2 ==> t == 4 * a + 4 * b + 4 * c + 4 * d
        }),
{
    let t = (4 - fx) * (4 - fy) * a + fx * (4 - fy) * b + (4 - fx) * fy * c + fx * fy * d;
    let (w0, w1, w2, w3) = ((4 - fx) * (4 - fy), fx * (4 - fy), (4 - fx) * fy, fx * fy);
    if fx == 2 && fy == 0 {
        assert(w0 == 8 && w1 == 8 && w2 == 0 && w3 == 0);
    } else if fx == 0 && fy == 2 {
        assert(w0 == 8 && w1 == 0 && w2 == 8 && w3 == 0);
    } else if fx == 2 && fy == 2 {
        assert(w0 == 4 && w1 == 4 && w2 == 4 && w3 == 4);
    }
    assert(t == w0 * a + w1 * b + w2 * c + w3 * d);
    assert(8 * a == w0 * a || w0 != 8) by (nonlinear_arith);
    assert(4 * a == w0 * a || w0 != 4) by (nonlinear_arith);
    assert((8 * b == w1 * b || w1 != 8) && (4 * b == w1 * b || w1 != 4) && (0 == w1 * b || w1 != 0))
        by (nonlinear_arith);
    assert((8 * c == w2 * c || w2 != 8) && (4 * c == w2 * c || w2 != 4) && (0 == w2 * c || w2 != 0))
        by (nonlinear_arith);
    assert((4 * d == w3 * d || w3 != 4) && (0 == w3 * d || w3 != 0)) by (nonlinear_arith);
}

/// The reading of a payload without residuals after `k` sub-blocks.
#[verifier::opaque]
spec fn skipped_so_far(data: Seq<u8>, st: InterState, k: int) -> bool {
    &&& st.fault is None
    &&& st.cur == 9 + 5 * ((k + 3) / 4)
    &&& k > 0 ==> st.pattern == 15
    &&& st.mbs.len() == (k + 3) / 4
    &&& st.blocks.len() == k
    &&& forall|j: int| 0 <= j < k ==> #[trigger] st.blocks[j] is None
    &&& forall|i: int|
        0 <= i < (k + 3) / 4 ==> moves_by(
            #[trigger] st.mbs[i],
            signed16(le16(data, 9 + 5 * i)),
            signed16(le16(data, 9 + 5 * i + 2)),
        )
}

proof fn lemma_head_skipped(data: Seq<u8>, st: InterState, i: int, n: int)
    requires
        0 <= i < n,
        data.len() == 9 + 5 * n,
        data[9 + 5 * i + 4] == 15,
        skipped_so_far(data, st, 4 * i),
        p_header(data, false, 9 + 5 * i).value is Ok,
    ensures
        ({
            let header = |cur: int, i: int| p_header(data, false, cur);
            let t = after_header(header, i, st);
            &&& t.fault is None
            &&& t.cur == 9 + 5 * (i + 1)
            &&& t.pattern == 15
            &&& t.blocks == st.blocks
            &&& t.mbs.len() == i + 1
            &&& t.mbs == st.mbs.push(t.mbs[i])
            &&& moves_by(
                t.mbs[i],
                signed16(le16(data, 9 + 5 * i)),
                signed16(le16(data, 9 + 5 * i + 2)),
            )
        }),
{
    reveal(skipped_so_far);
}

proof fn lemma_all_skipped(data: Seq<u8>, k: int, n: int)
    requires
        0 <= k <= 4 * n,
        data.len() == 9 + 5 * n,
        data[3] == 2 || data[3] == 4,
        forall|i: int| 0 <= i < n ==> #[trigger] data[9 + 5 * i + 4] == 15,
        p_state(data, 4 * n).fault is None,
    ensures
        skipped_so_far(data, p_state(data, k), k),
    decreases k,
{
    let header = |cur: int, i: int| p_header(data, p_is_qpel(data), cur);
    if p_state(data, k).fault is Some {
        lemma_inter_fault(header, data, p_style(data), p_start(data), k, 4 * n);
    }
    if k == 0 {
        reveal(skipped_so_far);
    } else {
        lemma_all_skipped(data, k - 1, n);
        let before = p_state(data, k - 1);
        let after = p_state(data, k);
        let i = (k - 1) / 4;
        assert(after == inter_step(header, data, p_style(data), k - 1, before));
        assert(before.fault is None && after.fault is None) by {
            reveal(skipped_so_far);
        }
        assert(data[9 + 5 * i + 4] == 15);
        if (k - 1) % 4 == 0 {
            let t = after_header(header, i, before);
            assert(before.cur == 9 + 5 * i) by {
                reveal(skipped_so_far);
            }
            lemma_head_skipped(data, before, i, n);
            assert(header == (|cur: int, i: int| p_header(data, false, cur)));
            assert(bit(15, 0));
            assert(after == (InterState { blocks: t.blocks.push(None), ..t }));
        } else {
            assert(before.pattern == 15) by {
                reveal(skipped_so_far);
            }
            assert(bit(15, (k - 1) % 4));
            assert(after == (InterState { blocks: before.blocks.push(None), ..before }));
        }
        reveal(skipped_so_far);
    }
}

/// A macroblock that is predicted from the first reference alone, by a vector of whole pels.
pub open spec fn moves_by(mb: InterMb, mx: int, my: int) -> bool {
    &&& mb.blend == BBlendModeWire::ForwardOnly
    &&& mb.mv_aqx == 4 * mx
    &&& mb.mv_aqy == 4 * my
    &&& mb.wf()
}

/// A forward payload without residuals moves the reference, macroblock by macroblock in raster
/// order: a decoded luma sample is the reference sample that lies the vector further on, and, for
/// vectors of even pels, a decoded chroma sample is the one that lies half the vector further on.
/// So a reference that is a picture moved by the vectors, in all three planes, decodes to that
/// picture.
pub proof fn skipped_macroblocks_move_the_reference(
    seq: VideoSequenceHeaderV2,
    data: Seq<u8>,
    reference: YuvFrame,
    residuals: Seq<Result<[i16; 64], SrsV2Error>>,
    f: DecodedVideoFrameV2,
    x: int,
    y: int,
)
    requires
        reference.valid(),
        p_decoded(seq, data, reference, residuals, Ok(f)),
        data[3] == 2 || data[3] == 4,
        data.len() == 9 + 5 * mb_count(seq),
        forall|i: int| 0 <= i < mb_count(seq) ==> #[trigger] data[9 + 5 * i + 4] == 15,
        0 <= x < seq.width,
        0 <= y < seq.height,
    ensures
        ({
            let at = 9 + 5 * (y / 16 * (seq.width as int / 16) + x / 16);
            let mx = signed16(le16(data, at));
            let my = signed16(le16(data, at + 2));
            &&& f.yuv.y.at(x, y) == sample_or_grey(reference.y, x + mx, y + my)
            &&& mx % 2 == 0 && my % 2 == 0 ==> {
                &&& f.yuv.u.at(x / 2, y / 2) == sample_or_grey(
                    reference.u,
                    x / 2 + mx / 2,
                    y / 2 + my / 2,
                )
                &&& f.yuv.v.at(x / 2, y / 2) == sample_or_grey(
                    reference.v,
                    x / 2 + mx / 2,
                    y / 2 + my / 2,
                )
            }
        }),
{
    let w = seq.width as int;
    let h = seq.height as int;
    let n = mb_count(seq);
    let cols = w / 16;
    let i = y / 16 * cols + x / 16;
    lemma_packed_at(x / 16, y / 16, cols, h / 16);
    lemma_all_skipped(data, 4 * n, n);
    reveal(skipped_so_far);
    let st = p_reading(seq, data);
    let mb = st.mbs[i];
    let mx = signed16(le16(data, 9 + 5 * i));
    let my = signed16(le16(data, 9 + 5 * i + 2));
    assert(moves_by(mb, mx, my));
    lemma_packed_at(x, y, w, h);
    lemma_packed_at(x / 2, y / 2, w / 2, h / 2);
    assert(st.blocks[sub_of(cols, x, y)] is None);
    whole_pel_needs_no_interpolation(reference.y, x, y, 4 * mx, 4 * my);
    assert((x / 2) / 8 == x / 16 && (y / 2) / 8 == y / 16);
    if mx % 2 == 0 && my % 2 == 0 {
        assert(4 * mx == 8 * (mx / 2) && 4 * my == 8 * (my / 2));
    }
}

/// Where the residual of a sub-block comes back within `e` of what was planned.
pub open spec fn residual_within(
    planned: Option<Seq<i16>>,
    residual: Result<[i16; 64], SrsV2Error>,
    e: int,
) -> bool {
    planned matches Some(d) ==> residual is Ok && forall|i: int|
        0 <= i < 64 ==> magnitude(#[trigger] residual->Ok_0@[i] - d[i]) <= e
}

proof fn lemma_sub_block_place(x: int, y: int, cols: int, rows: int)
    requires
        0 <= x < 16 * cols,
        0 <= y < 16 * rows,
    ensures
        ({
            let k = sub_of(cols, x, y);
            &&& 0 <= k < 4 * (cols * rows)
            &&& k / 4 == mb_of(cols, x, y)
            &&& super::inter_write::sub_x(cols, k) + x % 8 == x
            &&& super::inter_write::sub_y(cols, k) + y % 8 == y
        }),
{
    lemma_packed_at(x / 16, y / 16, cols, rows);
    let k = sub_of(cols, x, y);
    assert(k % 4 == y % 16 / 8 * 2 + x % 16 / 8);
}

/// What an encoder plans of a picture and a decoder rebuilds is the picture again: every luma
/// sample of a sub-block with a residual differs from the source by no more than the residual
/// differs from the planned one, and by at most 6 where the sub-block was skipped.
pub proof fn rebuilt_picture_is_the_source(
    cur: YuvFrame,
    a: YuvFrame,
    b: YuvFrame,
    f: YuvFrame,
    mbs: Seq<InterMb>,
    blocks: Seq<Option<JobView>>,
    residuals: Seq<Result<[i16; 64], SrsV2Error>>,
    allow_skip: bool,
    e: int,
    x: int,
    y: int,
)
    requires
        cur.valid(),
        a.valid(),
        b.valid(),
        0 <= e,
        cur.y.width % 16 == 0,
        cur.y.height % 16 == 0,
        inter_planes(f, cur.y.width as int, cur.y.height as int, a, b, mbs, blocks, residuals),
        mbs.len() == (cur.y.width as int / 16) * (cur.y.height as int / 16),
        blocks.len() == 4 * mbs.len(),
        forall|i: int| 0 <= i < mbs.len() ==> (#[trigger] mbs[i]).wf(),
        ({
            let planned = planned_blocks(
                mbs,
                cur.y,
                a.y,
                b.y,
                cur.y.width as int / 16,
                allow_skip,
            );
            forall|k: int|
                0 <= k < blocks.len() ==> (planned[k] is None <==> #[trigger] blocks[k] is None)
                    && residual_within(planned[k], residuals[k], e)
        }),
        0 <= x < cur.y.width,
        0 <= y < cur.y.height,
    ensures
        ({
            let k = 4 * (y / 16 * (cur.y.width as int / 16) + x / 16) + y % 16 / 8 * 2 + x % 16 / 8;
            magnitude(f.y.at(x, y) - cur.y.at(x, y)) <= if blocks[k] is None {
                6
            } else {
                e
            }
        }),
        !allow_skip ==> magnitude(f.y.at(x, y) - cur.y.at(x, y)) <= e,
{
    let w = cur.y.width as int;
    let h = cur.y.height as int;
    let cols = w / 16;
    let k = sub_of(cols, x, y);
    lemma_sub_block_place(x, y, cols, h / 16);
    lemma_packed_at(x, y, w, h);
    let mb = mbs[k / 4];
    assert(mb.wf());
    lemma_qpel_range(a.y, x, y, mb.mv_aqx as int, mb.mv_aqy as int);
    lemma_qpel_range(b.y, x, y, mb.mv_bqx as int, mb.mv_bqy as int);
    lemma_blend_range(
        mb,
        qpel_sample(a.y, x, y, mb.mv_aqx as int, mb.mv_aqy as int),
        qpel_sample(b.y, x, y, mb.mv_bqx as int, mb.mv_bqy as int),
    );
    let pred = mb.luma(a.y, b.y, x, y);
    let planned = planned_blocks(mbs, cur.y, a.y, b.y, cols, allow_skip);
    let d = super::inter_frame::mb_residual(
        mb,
        cur.y,
        a.y,
        b.y,
        super::inter_write::sub_x(cols, k),
        super::inter_write::sub_y(cols, k),
    );
    let i = y % 8 * 8 + x % 8;
    assert(i / 8 == y % 8 && i % 8 == x % 8);
    assert(d[i] == cur.y.at(x, y) - pred);
    assert(blocks[k] is None <==> planned[k] is None);
    if planned[k] is None {
        assert(magnitude(d[i] as int) <= 6);
    } else {
        assert(residual_within(planned[k], residuals[k], e));
        assert(magnitude(residuals[k]->Ok_0@[i] - d[i]) <= e);
    }
}

/// A picture that was planned and written as a forward payload comes back from it: up to what is
/// lost of the residuals, and up to 6 where sub-blocks may be skipped.
pub proof fn forward_picture_comes_back(
    seq: VideoSequenceHeaderV2,
    s: SrsV2EncodeSettings,
    cur: YuvFrame,
    reference: YuvFrame,
    before: SrsV2MotionEncodeStats,
    plan: PFramePlan,
    after: SrsV2MotionEncodeStats,
    frame_index: u32,
    qp: u8,
    coded: Seq<CodedResidual>,
    residuals: Seq<Result<[i16; 64], SrsV2Error>>,
    f: DecodedVideoFrameV2,
    e: int,
    x: int,
    y: int,
)
    requires
        cur.valid(),
        reference.valid(),
        0 <= e,
        p_planned(seq, cur, reference, s, before, Ok(plan), after),
        coded_as_asked(s, planned_view(plan.blocks@), coded),
        forall|k: int|
            0 <= k < coded.len() && #[trigger] plan.blocks@[k] is Some ==> !(coded[k] is Failed),
        p_payload(
            s,
            frame_index as int,
            qp as int,
            plan.mbs@,
            planned_view(plan.blocks@),
            coded,
            plan.deltas@,
        ) is Ok,
        p_decoded(
            seq,
            p_payload(
                s,
                frame_index as int,
                qp as int,
                plan.mbs@,
                planned_view(plan.blocks@),
                coded,
                plan.deltas@,
            )->Ok_0,
            reference,
            residuals,
            Ok(f),
        ),
        forall|k: int|
            0 <= k < plan.blocks@.len() ==> residual_within(
                #[trigger] planned_view(plan.blocks@)[k],
                residuals[k],
                e,
            ),
        0 <= x < seq.width,
        0 <= y < seq.height,
    ensures
        f.frame_index == frame_index,
        magnitude(f.yuv.y.at(x, y) - cur.y.at(x, y)) <= if e < 6 && s.enable_skip_blocks {
            6
        } else {
            e
        },
{
    let planned = planned_view(plan.blocks@);
    let qpel = s.subpel_mode == SrsV2SubpelMode::HalfPel;
    assert forall|k: int| 0 <= k < coded.len() && #[trigger] planned[k] is Some implies !(
    coded[k] is Failed) by {
        assert(plan.blocks@[k] is Some);
    }
    assert forall|i: int| 0 <= i < plan.mbs@.len() implies (#[trigger] plan.mbs@[i]).wf() by {
        assert(p_carries(plan.mbs@[i], qpel));
    }
    p_payload_round_trip(
        seq,
        s,
        frame_index as int,
        qp as int,
        plan.mbs@,
        planned,
        coded,
        plan.deltas@,
    );
    let bytes = p_payload(
        s,
        frame_index as int,
        qp as int,
        plan.mbs@,
        planned,
        coded,
        plan.deltas@,
    )->Ok_0;
    let st = p_reading(seq, bytes);
    assert forall|k: int| 0 <= k < st.blocks.len() implies (planned[k] is None
        <==> #[trigger] st.blocks[k] is None) && residual_within(planned[k], residuals[k], e) by {}
    rebuilt_picture_is_the_source(
        cur,
        reference,
        reference,
        f.yuv,
        plan.mbs@,
        st.blocks,
        residuals,
        s.enable_skip_blocks,
        e,
        x,
        y,
    );
}

} // verus!
