//! What forward pictures with variable partitions do to a picture.
use vstd::prelude::*;

use crate::arith::{lemma_total_bound, magnitude, total};

use super::error::SrsV2Error;
use super::frame::{VideoPlane, lemma_packed_at};
use super::inter_frame::{mb_residual, quiet};
use super::inter_mv::{pu_start, units};
use super::motion_law::sample_or_grey;
use super::motion_search::{rect_cost, rect_sad, rect_term};
use super::p_frame_codec::forward_mb;
use super::p_var_choose::{
    candidate, choice_is_least, chosen_partition, first_least, least_sad_choice, nth_score,
    partition_score, type_sad, unit_rect, unit_sad, unit_search, unit_vector,
};
use super::p_var_decode::{VarBlock, stream_place, unit_of, var_chroma, var_luma};
use super::p_var_encode::{block_residual, strong, unit_blocks, wire_of};
use super::rate_control::{
    SrsV2EncodeSettings, SrsV2InterPartitionMode, SrsV2MotionSearchMode, SrsV2PartitionCostModel,
    SrsV2PartitionSettings, SrsV2TransformSizeMode,
};
use super::search_law::{costs_fit, exhaustive_search_finds_the_least, searches_never_lose_to_rest};
use super::subpel::{lemma_qpel_range, qpel_sample, whole_pel_needs_no_interpolation};

verus! {

/// The units of a macroblock cover it without overlap: each of its samples lies in the rectangle of
/// one unit, the one whose vector predicts it, and units have the shape that their type names.
pub proof fn units_tile_the_macroblock(pt: u8, x: int, y: int, j: int)
    requires
        pt <= 3,
        0 <= x < 16,
        0 <= y < 16,
        0 <= j < units(pt),
    ensures
        ({
            let (left, top, w, h) = unit_rect(pt, j);
            let inside = left <= x < left + w && top <= y < top + h;
            &&& inside <==> j == unit_of(pt, y / 8 * 2 + x / 8)
            &&& pt == 0 ==> w == 16 && h == 16 && units(pt) == 1
            &&& pt == 1 ==> w == 16 && h == 8 && units(pt) == 2
            &&& pt == 2 ==> w == 8 && h == 16 && units(pt) == 2
            &&& pt == 3 ==> w == 8 && h == 8 && units(pt) == 4
            &&& w * h == 64 * unit_blocks(pt)
            &&& 0 <= unit_of(pt, y / 8 * 2 + x / 8) < units(pt)
        }),
{
}

/// The sub-blocks of a unit stand next to each other in the stream, and units stand in their order:
/// the place of a sub-block tells its unit.
pub proof fn units_stand_together_in_the_stream(pt: u8, si: int)
    requires
        pt <= 3,
        0 <= si < 4,
    ensures
        0 <= stream_place(pt, si) < 4,
        stream_place(pt, stream_place(pt, si)) == si,
        unit_of(pt, si) == stream_place(pt, si) / unit_blocks(pt),
{
}

/// The luma prediction of a sample by the vector of its unit, of whole pels, is the reference sample
/// that lies the vector further on; its chroma follows the first unit of the macroblock by half
/// the vector.
pub proof fn units_move_the_reference(
    refp: VideoPlane<u8>,
    parts: Seq<u8>,
    mvs: Seq<(i32, i32)>,
    blocks: Seq<VarBlock>,
    residuals: Seq<Result<[i16; 64], SrsV2Error>>,
    cols: int,
    x: int,
    y: int,
    mx: int,
    my: int,
)
    requires
        refp.valid(),
        0 <= x < 16 * cols,
        0 <= y,
    ensures
        ({
            let m = y / 16 * cols + x / 16;
            let si = y % 16 / 8 * 2 + x % 16 / 8;
            let mv = mvs[pu_start(parts, m) + unit_of(parts[m], si)];
            mv.0 == 4 * mx && mv.1 == 4 * my && blocks[4 * m + stream_place(parts[m], si)] is Skip
                ==> var_luma(refp, parts, mvs, blocks, residuals, cols, x, y) == sample_or_grey(
                refp,
                x + mx,
                y + my,
            )
        }),
        ({
            let m = y / 8 * cols + x / 8;
            let mv = mvs[pu_start(parts, m)];
            mv.0 == 8 * mx && mv.1 == 8 * my ==> var_chroma(refp, parts, mvs, cols, x, y)
                == sample_or_grey(refp, x + mx, y + my)
        }),
{
    whole_pel_needs_no_interpolation(refp, x, y, 4 * mx, 4 * my);
}

proof fn lemma_forward_residual(
    cur: VideoPlane<u8>,
    refp: VideoPlane<u8>,
    mv: (i32, i32),
    ox: int,
    oy: int,
    r: int,
    c: int,
)
    requires
        0 <= r < 8,
        0 <= c < 8,
    ensures
        mb_residual(forward_mb(mv.0 as int, mv.1 as int), cur, refp, refp, ox, oy)[8 * r + c]
            + qpel_sample(refp, ox + c, oy + r, mv.0 as int, mv.1 as int) == cur.at(ox + c, oy + r),
        0 <= qpel_sample(refp, ox + c, oy + r, mv.0 as int, mv.1 as int) <= 255,
{
    let i = 8 * r + c;
    assert(i / 8 == r && i % 8 == c);
    lemma_qpel_range(refp, ox + c, oy + r, mv.0 as int, mv.1 as int);
}

/// What is planned for a sub-block and comes back is the source: a decoded luma sample differs from
/// it by no more than the residual samples that came back differ from the planned differences,
/// whether the sub-block came as one chunk or as four, and by at most 6 where it was skipped for
/// having small differences only.
pub proof fn rebuilt_units_are_the_source(
    cur: VideoPlane<u8>,
    refp: VideoPlane<u8>,
    parts: Seq<u8>,
    mvs: Seq<(i32, i32)>,
    blocks: Seq<VarBlock>,
    residuals: Seq<Result<[i16; 64], SrsV2Error>>,
    cols: int,
    x: int,
    y: int,
    e: int,
)
    requires
        0 <= x < 16 * cols,
        0 <= y,
        0 <= e,
        parts[y / 16 * cols + x / 16] <= 3,
    ensures
        ({
            let m = y / 16 * cols + x / 16;
            let place = stream_place(parts[m], y % 16 / 8 * 2 + x % 16 / 8);
            let d = block_residual(cur, refp, cols, m, parts[m], mvs, pu_start(parts, m), place);
            let i = y % 8 * 8 + x % 8;
            let out = var_luma(refp, parts, mvs, blocks, residuals, cols, x, y);
            match blocks[4 * m + place] {
                VarBlock::Skip => quiet(d) ==> magnitude(out - cur.at(x, y)) <= 6,
                VarBlock::Whole { job } => magnitude(residuals[job as int]->Ok_0@[i] - d[i]) <= e
                    ==> magnitude(out - cur.at(x, y)) <= e,
                VarBlock::Quarters { first } => magnitude(
                    residuals[first + (y % 8 / 4 * 2 + x % 8 / 4)]->Ok_0@[y % 4 * 4 + x % 4] - d[i],
                ) <= e ==> magnitude(out - cur.at(x, y)) <= e,
            }
        }),
{
    let m = y / 16 * cols + x / 16;
    let si = y % 16 / 8 * 2 + x % 16 / 8;
    let pt = parts[m];
    units_stand_together_in_the_stream(pt, si);
    lemma_packed_at(x / 16, y / 16, cols, y / 16 + 1);
    let mv = mvs[pu_start(parts, m) + unit_of(pt, si)];
    let (ox, oy) = (m % cols * 16 + si % 2 * 8, m / cols * 16 + si / 2 * 8);
    assert(si % 2 == x % 16 / 8 && si / 2 == y % 16 / 8);
    assert(ox + x % 8 == x && oy + y % 8 == y);
    lemma_forward_residual(cur, refp, mv, ox, oy, y % 8, x % 8);
    let d = block_residual(cur, refp, cols, m, pt, mvs, pu_start(parts, m), stream_place(pt, si));
    let i = y % 8 * 8 + x % 8;
    assert(d == mb_residual(forward_mb(mv.0 as int, mv.1 as int), cur, refp, refp, ox, oy));
    if quiet(d) {
        assert(magnitude(d[i] as int) <= 6);
    }
}

/// A sub-block is left out only where that is allowed and no difference exceeds 6; otherwise it
/// comes in four chunks where the settings force that, or leave it open and a difference exceeds
/// 22, and in one chunk elsewhere.
pub proof fn sub_blocks_are_carried_as_their_differences_ask(
    s: SrsV2EncodeSettings,
    p: SrsV2PartitionSettings,
    d: Seq<i16>,
    first: int,
    i: int,
)
    requires
        0 <= i < d.len(),
    ensures
        wire_of(s, p, d, first) is Skip ==> s.enable_skip_blocks && -6 <= d[i] <= 6,
        !s.enable_skip_blocks || d[i] > 6 || d[i] < -6 ==> !(wire_of(s, p, d, first) is Skip),
        (d[i] > 22 || d[i] < -22) && p.transform_size_mode == SrsV2TransformSizeMode::Auto
            ==> wire_of(s, p, d, first) is Quarters,
        wire_of(s, p, d, first) is Quarters && p.transform_size_mode == SrsV2TransformSizeMode::Auto
            ==> exists|k: int| 0 <= k < d.len() && (#[trigger] d[k] > 22 || d[k] < -22),
        p.transform_size_mode == SrsV2TransformSizeMode::Force8x8 ==> !(wire_of(
            s,
            p,
            d,
            first,
        ) is Quarters),
        p.transform_size_mode == SrsV2TransformSizeMode::Force4x4 ==> !(wire_of(
            s,
            p,
            d,
            first,
        ) is Whole),
{
    if d[i] > 22 || d[i] < -22 {
        assert(magnitude(d[i] as int) > 22);
        assert(strong(d));
        assert(!quiet(d));
    }
    if d[i] > 6 || d[i] < -6 {
        assert(magnitude(d[i] as int) > 6);
        assert(!quiet(d));
    }
    if strong(d) {
        let k = choose|k: int| 0 <= k < d.len() && magnitude(#[trigger] d[k] as int) > 22;
        assert(d[k] > 22 || d[k] < -22);
    }
}

proof fn lemma_unit_costs(
    cur: VideoPlane<u8>,
    refp: VideoPlane<u8>,
    ox: int,
    oy: int,
    w: int,
    h: int,
)
    requires
        0 <= w * h <= 256,
    ensures
        costs_fit(rect_cost(cur, refp, ox, oy, w, h)),
{
    let cost = rect_cost(cur, refp, ox, oy, w, h);
    assert forall|x: int, y: int| 0 <= #[trigger] cost(x, y) < u32::MAX by {
        let f = |i: int| rect_term(cur, refp, ox, oy, w, x, y, i);
        lemma_total_bound(w * h, f, 255);
        assert(cost(x, y) == rect_sad(cur, refp, ox, oy, w, h, x, y));
    }
}

/// The vector of a unit leaves the difference that the unit is judged by, no more than not moving
/// would, and after an exhaustive search no more than any vector within the search radius.
pub proof fn unit_vectors_are_the_best_in_reach(
    cur: VideoPlane<u8>,
    refp: VideoPlane<u8>,
    s: SrsV2EncodeSettings,
    ox: int,
    oy: int,
    pt: u8,
    j: int,
    x: int,
    y: int,
)
    requires
        pt <= 3,
        0 <= j < units(pt),
        s.early_exit_sad_threshold == 0,
        magnitude(x) <= s.motion_search_radius <= 64,
        magnitude(y) <= s.motion_search_radius,
    ensures
        ({
            let (l, t, w, h) = unit_rect(pt, j);
            let v = unit_vector(cur, refp, s, ox, oy, pt, j);
            let left = unit_sad(cur, refp, s, ox, oy, pt, j);
            &&& v.0 % 4 == 0 && v.1 % 4 == 0
            &&& left == rect_sad(cur, refp, ox + l, oy + t, w, h, v.0 as int / 4, v.1 as int / 4)
            &&& left <= rect_sad(cur, refp, ox + l, oy + t, w, h, 0, 0)
            &&& s.motion_search_mode == SrsV2MotionSearchMode::ExhaustiveSmall ==> left <= rect_sad(
                cur,
                refp,
                ox + l,
                oy + t,
                w,
                h,
                x,
                y,
            )
        }),
{
    let (l, t, w, h) = unit_rect(pt, j);
    let cost = rect_cost(cur, refp, ox + l, oy + t, w, h);
    let r = s.search_radius();
    lemma_unit_costs(cur, refp, ox + l, oy + t, w, h);
    searches_never_lose_to_rest(s.motion_search_mode, cost, r, 0);
    exhaustive_search_finds_the_least(cost, r, x, y);
    let f = unit_search(cur, refp, s, ox, oy, pt, j);
    assert(cost(f.mvx, f.mvy) == rect_sad(cur, refp, ox + l, oy + t, w, h, f.mvx, f.mvy));
    assert(cost(0, 0) == rect_sad(cur, refp, ox + l, oy + t, w, h, 0, 0));
    assert(cost(x, y) == rect_sad(cur, refp, ox + l, oy + t, w, h, x, y));
}

/// By differences alone a macroblock is split only where that gains more than 4, after a charge of
/// 12 for four units and of 8 for two, at the rate of the factor; and into four only where that is
/// no worse than into two.
pub proof fn splits_have_to_pay(s16: int, s8: int, s16x8: int, f: int)
    ensures
        ({
            let pt = least_sad_choice(s16, s8, s16x8, 256 * f);
            let four = s8 + 12 * f;
            let two = s16x8 + 8 * f;
            &&& pt == 0 || pt == 1 || pt == 3
            &&& pt == 3 <==> four + 4 < s16 && four <= two
            &&& pt == 1 <==> two + 4 < s16 && !(four <= two)
            &&& pt == 0 ==> s16 <= two + 4
        }),
{
}

/// Where the partition of a macroblock is chosen by scores, no other type scores less; where it is
/// fixed, it is the one that the mode names.
pub proof fn chosen_partition_scores_least(
    cur: VideoPlane<u8>,
    refp: VideoPlane<u8>,
    s: SrsV2EncodeSettings,
    p: SrsV2PartitionSettings,
    ox: int,
    oy: int,
    lam: int,
    lens: Seq<Result<usize, SrsV2Error>>,
    i: int,
) -> (k: int)
    requires
        0 <= i < 4,
        chosen_partition(cur, refp, s, p, ox, oy, lam, lens) is Ok,
    ensures
        ({
            let pt = chosen_partition(cur, refp, s, p, ox, oy, lam, lens)->Ok_0;
            &&& p.inter_partition_mode == SrsV2InterPartitionMode::Fixed16x16 ==> pt == 0
            &&& p.inter_partition_mode == SrsV2InterPartitionMode::Rect16x8 ==> pt == 1
            &&& p.inter_partition_mode == SrsV2InterPartitionMode::Rect8x16 ==> pt == 2
            &&& p.inter_partition_mode == SrsV2InterPartitionMode::Split8x8 ==> pt == 3
            &&& p.inter_partition_mode == SrsV2InterPartitionMode::AutoFast
                && p.partition_cost_model != SrsV2PartitionCostModel::SadOnly ==> 0 <= k < 4 && pt
                == candidate(k) && nth_score(cur, refp, s, p, ox, oy, lam, lens, k) <= nth_score(
                cur,
                refp,
                s,
                p,
                ox,
                oy,
                lam,
                lens,
                i,
            )
        }),
{
    let scores = |i: int| nth_score(cur, refp, s, p, ox, oy, lam, lens, i);
    choice_is_least(scores, 4);
    let k = first_least(scores, 4);
    assert(scores(k) <= scores(i));
    k
}

/// Every partition type is a candidate once.
pub proof fn every_type_is_a_candidate(pt: u8) -> (i: int)
    requires
        pt <= 3,
    ensures
        0 <= i < 4,
        candidate(i) == pt,
        forall|k: int| 0 <= k < 4 && #[trigger] candidate(k) == pt ==> k == i,
{
    if pt == 0 {
        0
    } else if pt == 3 {
        1
    } else if pt == 1 {
        2
    } else {
        3
    }
}

/// The difference of a macroblock under a type is that of all its units, each moved by its own
/// vector.
pub proof fn differences_count_every_unit(
    cur: VideoPlane<u8>,
    refp: VideoPlane<u8>,
    s: SrsV2EncodeSettings,
    ox: int,
    oy: int,
)
    ensures
        ({
            let f = |pt: u8, j: int| unit_search(cur, refp, s, ox, oy, pt, j);
            let d = |pt: u8, j: int, x: int, y: int, w: int, h: int|
                rect_sad(cur, refp, ox + x, oy + y, w, h, f(pt, j).mvx, f(pt, j).mvy);
            &&& type_sad(cur, refp, s, ox, oy, 0) == d(0, 0, 0, 0, 16, 16)
            &&& type_sad(cur, refp, s, ox, oy, 1) == d(1, 0, 0, 0, 16, 8) + d(1, 1, 0, 8, 16, 8)
            &&& type_sad(cur, refp, s, ox, oy, 2) == d(2, 0, 0, 0, 8, 16) + d(2, 1, 8, 0, 8, 16)
            &&& type_sad(cur, refp, s, ox, oy, 3) == d(3, 0, 0, 0, 8, 8) + d(3, 1, 8, 0, 8, 8) + d(
                3,
                2,
                0,
                8,
                8,
                8,
            ) + d(3, 3, 8, 8, 8, 8)
        }),
{
    reveal_with_fuel(total, 6);
}

/// By differences alone a macroblock is split into four, into two above each other, or not at all,
/// as the differences under these types ask.
pub proof fn differences_decide_the_split(
    cur: VideoPlane<u8>,
    refp: VideoPlane<u8>,
    s: SrsV2EncodeSettings,
    p: SrsV2PartitionSettings,
    ox: int,
    oy: int,
    f: int,
    lens: Seq<Result<usize, SrsV2Error>>,
)
    requires
        p.inter_partition_mode == SrsV2InterPartitionMode::AutoFast,
        p.partition_cost_model == SrsV2PartitionCostModel::SadOnly,
    ensures
        ({
            let pt = chosen_partition(cur, refp, s, p, ox, oy, 256 * f, lens);
            let whole = type_sad(cur, refp, s, ox, oy, 0);
            let two = type_sad(cur, refp, s, ox, oy, 1) + 8 * f;
            let four = type_sad(cur, refp, s, ox, oy, 3) + 12 * f;
            &&& pt is Ok
            &&& pt->Ok_0 == 0 || pt->Ok_0 == 1 || pt->Ok_0 == 3
            &&& pt->Ok_0 == 3 <==> four + 4 < whole && four <= two
            &&& pt->Ok_0 == 1 <==> two + 4 < whole && !(four <= two)
        }),
{
}

/// What a type scores where costs count by bytes: its difference, and the bytes of its vectors and of
/// its residuals alike, at the rate of the factor and the bias.
pub proof fn bytes_of_vectors_and_residuals_count_alike(
    p: SrsV2PartitionSettings,
    f: int,
    pt: u8,
    sad: int,
    mv_bytes: int,
    residual_bytes: int,
    more: int,
)
    requires
        p.partition_cost_model == SrsV2PartitionCostModel::RdoFast,
    ensures
        partition_score(p, f, pt, sad, mv_bytes + more, residual_bytes) == partition_score(
            p,
            f,
            pt,
            sad,
            mv_bytes,
            residual_bytes + more,
        ),
        partition_score(p, f, pt, sad + more, mv_bytes, residual_bytes) == partition_score(
            p,
            f,
            pt,
            sad,
            mv_bytes,
            residual_bytes,
        ) + more,
        partition_score(p, f, pt, sad, 0, 0) == sad,
        p.partition_quality_bias == 256 ==> partition_score(
            p,
            256 * f,
            pt,
            sad,
            mv_bytes,
            residual_bytes,
        ) == sad + f * (mv_bytes + residual_bytes),
{
    assert(f * p.partition_quality_bias * 0 == 0) by (nonlinear_arith);
    let n = mv_bytes + residual_bytes;
    let k = f * n;
    assert(256 * f * 256 * n == 65536 * k) by (nonlinear_arith)
        requires
            k == f * n,
    ;
}

/// What a type scores where headers count: its difference, the bytes of its vectors, every unit but
/// the first, and a split into four, each at its own penalty; residuals do not count.
pub proof fn headers_are_charged(
    p: SrsV2PartitionSettings,
    f: int,
    pt: u8,
    sad: int,
    mv_bytes: int,
    residual_bytes: int,
)
    requires
        p.partition_cost_model == SrsV2PartitionCostModel::HeaderAware,
        p.partition_mv_penalty == 256,
        p.partition_header_penalty == 256,
        p.partition_split_penalty == 256,
    ensures
        partition_score(p, 256 * f, pt, sad, mv_bytes, residual_bytes) == sad + f * mv_bytes + f * (
        units(pt) - 1) + (if pt == 3 {
            f
        } else {
            0
        }),
{
    let (a, b) = (f * mv_bytes, f * (units(pt) - 1));
    assert(256 * f * 256 * mv_bytes == 65536 * a) by (nonlinear_arith)
        requires
            a == f * mv_bytes,
    ;
    assert(256 * f * 256 * (units(pt) - 1) == 65536 * b) by (nonlinear_arith)
        requires
            b == f * (units(pt) - 1),
    ;
    assert(256 * f * 0 == 0);
}

} // verus!
