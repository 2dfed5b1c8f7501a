//! What the statistics of the encoders add up to.
use vstd::prelude::*;

use crate::arith::{lemma_total_constant, lemma_total_equal, magnitude, total};

use super::b_choose::{BFrameEncodeStats, BMbEncodeChoice, MotionCount, counted_choice};
use super::b_encode::{blend_mv_stats, grid_a, grid_b};
use super::error::SrsV2Error;
use super::frame::VideoPlane;
use super::inter_frame::InterMb;
use super::inter_mv::grid_delta;
use super::inter_write::CodedResidual;
use super::motion_search::{SrsV2MotionEncodeStats, SrsV2PartitionEncodeStats};
use super::p_frame_codec::{
    chunks_among, is_rans, mb_search, mb_vector, moves, p_mbs, p_motion_stats, refined_away,
    refinement, skipped_among,
};
use super::p_var_choose::{choice_stats, sad_only};
use super::p_var_encode::{BlockPlan, blocks_with, chunks_of};
use super::p_var_plan::{fresh_partition_stats, partition_stats};
use super::rate_control::{SrsV2EncodeSettings, SrsV2PartitionSettings};

verus! {

/// A macroblock with two references is counted once, for the blend that was chosen, and the
/// weights of a weighted blend are added up; every other sum of weights stays.
pub proof fn each_blend_is_counted_once(
    before: BFrameEncodeStats,
    s: SrsV2EncodeSettings,
    m: MotionCount,
    c: BMbEncodeChoice,
)
    requires
        before.has_room(1),
    ensures
        ({
            let after = counted_choice(before, s, m, c);
            let f = after.b_forward_macroblocks - before.b_forward_macroblocks;
            let b = after.b_backward_macroblocks - before.b_backward_macroblocks;
            let a = after.b_average_macroblocks - before.b_average_macroblocks;
            let w = after.b_weighted_macroblocks - before.b_weighted_macroblocks;
            &&& 0 <= f && 0 <= b && 0 <= a && 0 <= w && f + b + a + w == 1
            &&& f == 1 <==> c.blend is ForwardOnly
            &&& b == 1 <==> c.blend is BackwardOnly
            &&& a == 1 <==> c.blend is Average
            &&& w == 1 <==> c.blend is Weighted
            &&& after.rdo.forward_decisions - before.rdo.forward_decisions == f
            &&& after.rdo.backward_decisions - before.rdo.backward_decisions == b
            &&& after.rdo.average_decisions - before.rdo.average_decisions == a
            &&& after.rdo.weighted_decisions - before.rdo.weighted_decisions == w
            &&& after.b_weighted_sum_weight_a - before.b_weighted_sum_weight_a == if w == 1 {
                c.weight_a as int
            } else {
                0
            }
            &&& after.b_weighted_sum_weight_b - before.b_weighted_sum_weight_b == if w == 1 {
                c.weight_b as int
            } else {
                0
            }
        }),
{
}

/// How many predictions a macroblock with two references is compared with: those of the two
/// searches, three blends, and five weighted ones where they are allowed; eight more around each
/// vector for each step of refinement.
pub proof fn comparisons_are_counted(
    before: BFrameEncodeStats,
    s: SrsV2EncodeSettings,
    m: MotionCount,
    c: BMbEncodeChoice,
)
    requires
        before.has_room(1),
        0 <= m.evals <= 2000000000,
        0 <= m.fractions <= 1000,
    ensures
        ({
            let after = counted_choice(before, s, m, c);
            let compared = after.b_sad_evaluations - before.b_sad_evaluations - m.evals;
            &&& compared == if s.b_weighted_prediction {
                8int
            } else {
                3
            }
            &&& compared == 3 + after.b_weighted_candidates_tested
                - before.b_weighted_candidates_tested
            &&& !(s.b_motion_search_mode is IndependentForwardBackwardHalfPel)
                ==> after.b_subpel_blocks_tested == before.b_subpel_blocks_tested
                && after.b_additional_subpel_evaluations == before.b_additional_subpel_evaluations
            &&& s.b_motion_search_mode is IndependentForwardBackwardHalfPel
                && s.subpel_refinement_radius == 1 ==> after.b_subpel_blocks_tested
                == before.b_subpel_blocks_tested + 2 && after.b_additional_subpel_evaluations
                == before.b_additional_subpel_evaluations + 16
            &&& m.moved_a || m.moved_b <==> after.b_subpel_blocks_selected
                == before.b_subpel_blocks_selected + 1
            &&& after.b_forward_halfpel_blocks > before.b_forward_halfpel_blocks <==> m.moved_a
            &&& after.b_backward_halfpel_blocks > before.b_backward_halfpel_blocks <==> m.moved_b
            &&& after.b_sum_abs_frac_qpel == before.b_sum_abs_frac_qpel + m.fractions
        }),
{
}

proof fn lemma_blocks_sum(blocks: Seq<BlockPlan>, n: int)
    requires
        0 <= n,
    ensures
        blocks_with(blocks, 0, n) + blocks_with(blocks, 1, n) + blocks_with(blocks, 4, n) == n,
        0 <= blocks_with(blocks, 0, n),
        0 <= blocks_with(blocks, 1, n),
        0 <= blocks_with(blocks, 4, n),
    decreases n,
{
    if n > 0 {
        lemma_blocks_sum(blocks, n - 1);
    }
}

/// Every block of a picture is skipped, transformed whole or transformed in quarters.
pub proof fn blocks_are_skipped_whole_or_quartered(blocks: Seq<BlockPlan>)
    ensures
        ({
            let n = blocks.len() as int;
            blocks_with(blocks, 0, n) + blocks_with(blocks, 1, n) + blocks_with(blocks, 4, n) == n
        }),
        (forall|k: int| 0 <= k < blocks.len() ==> (#[trigger] blocks[k]).wire is Skip)
            ==> blocks_with(blocks, 0, blocks.len() as int) == blocks.len(),
        (forall|k: int| 0 <= k < blocks.len() ==> (#[trigger] blocks[k]).wire is Whole)
            ==> blocks_with(blocks, 1, blocks.len() as int) == blocks.len(),
        (forall|k: int| 0 <= k < blocks.len() ==> (#[trigger] blocks[k]).wire is Quarters)
            ==> blocks_with(blocks, 4, blocks.len() as int) == blocks.len(),
{
    let n = blocks.len() as int;
    lemma_blocks_sum(blocks, n);
    if forall|k: int| 0 <= k < blocks.len() ==> (#[trigger] blocks[k]).wire is Skip {
        lemma_all_with(blocks, 0, n);
    }
    if forall|k: int| 0 <= k < blocks.len() ==> (#[trigger] blocks[k]).wire is Whole {
        lemma_all_with(blocks, 1, n);
    }
    if forall|k: int| 0 <= k < blocks.len() ==> (#[trigger] blocks[k]).wire is Quarters {
        lemma_all_with(blocks, 4, n);
    }
}

proof fn lemma_all_with(blocks: Seq<BlockPlan>, chunks: int, n: int)
    requires
        0 <= n <= blocks.len(),
        forall|k: int| 0 <= k < blocks.len() ==> chunks_of((#[trigger] blocks[k]).wire) == chunks,
    ensures
        blocks_with(blocks, chunks, n) == n,
    decreases n,
{
    if n > 0 {
        lemma_all_with(blocks, chunks, n - 1);
        assert(chunks_of(blocks[n - 1].wire) == chunks);
    }
}

/// Every block of a forward picture is skipped or coded, by one of two coders.
pub proof fn blocks_are_skipped_or_coded(
    planned: Seq<Option<Seq<i16>>>,
    coded: Seq<CodedResidual>,
    n: int,
)
    requires
        0 <= n,
    ensures
        skipped_among(planned, n) + chunks_among(planned, coded, false, n) + chunks_among(
            planned,
            coded,
            true,
            n,
        ) == n,
        0 <= skipped_among(planned, n) <= n,
        0 <= chunks_among(planned, coded, true, n),
        0 <= chunks_among(planned, coded, false, n),
        n > 0 ==> (planned[n - 1] is None <==> skipped_among(planned, n) == skipped_among(
            planned,
            n - 1,
        ) + 1),
        n > 0 && planned[n - 1] is Some ==> (is_rans(coded[n - 1]) <==> chunks_among(
            planned,
            coded,
            true,
            n,
        ) == chunks_among(planned, coded, true, n - 1) + 1),
    decreases n,
{
    if n > 0 {
        blocks_are_skipped_or_coded(planned, coded, n - 1);
    }
}

proof fn lemma_types_sum(
    start: SrsV2PartitionEncodeStats,
    cur: VideoPlane<u8>,
    refp: VideoPlane<u8>,
    s: SrsV2EncodeSettings,
    p: SrsV2PartitionSettings,
    cols: int,
    lam: int,
    parts: Seq<u8>,
    n: int,
)
    requires
        start.partition_16x16_count == 0,
        start.partition_16x8_count == 0,
        start.partition_8x16_count == 0,
        start.partition_8x8_count == 0,
        0 <= n <= parts.len(),
        n <= u32::MAX,
        forall|i: int| 0 <= i < parts.len() ==> #[trigger] parts[i] < 4,
    ensures
        ({
            let st = partition_stats(start, cur, refp, s, p, cols, lam, parts, n);
            &&& st.partition_16x16_count == total(n, |i: int| if parts[i] == 0 { 1int } else { 0 })
            &&& st.partition_16x8_count == total(n, |i: int| if parts[i] == 1 { 1int } else { 0 })
            &&& st.partition_8x16_count == total(n, |i: int| if parts[i] == 2 { 1int } else { 0 })
            &&& st.partition_8x8_count == total(n, |i: int| if parts[i] == 3 { 1int } else { 0 })
            &&& st.partition_16x16_count + st.partition_16x8_count + st.partition_8x16_count
                + st.partition_8x8_count == n
        }),
    decreases n,
{
    if n > 0 {
        lemma_types_sum(start, cur, refp, s, p, cols, lam, parts, n - 1);
        assert(parts[n - 1] < 4);
    }
}

/// Every macroblock of a picture is counted once, under the partition that was chosen for it.
pub proof fn each_partition_is_counted_once(
    cur: VideoPlane<u8>,
    refp: VideoPlane<u8>,
    s: SrsV2EncodeSettings,
    p: SrsV2PartitionSettings,
    cols: int,
    lam: int,
    parts: Seq<u8>,
)
    requires
        parts.len() <= u32::MAX,
        forall|i: int| 0 <= i < parts.len() ==> #[trigger] parts[i] < 4,
    ensures
        ({
            let n = parts.len() as int;
            let st = partition_stats(
                fresh_partition_stats(p),
                cur,
                refp,
                s,
                p,
                cols,
                lam,
                parts,
                n,
            );
            &&& st.partition_16x16_count == total(n, |i: int| if parts[i] == 0 { 1int } else { 0 })
            &&& st.partition_16x8_count == total(n, |i: int| if parts[i] == 1 { 1int } else { 0 })
            &&& st.partition_8x16_count == total(n, |i: int| if parts[i] == 2 { 1int } else { 0 })
            &&& st.partition_8x8_count == total(n, |i: int| if parts[i] == 3 { 1int } else { 0 })
            &&& st.partition_16x16_count + st.partition_16x8_count + st.partition_8x16_count
                + st.partition_8x8_count == n
        }),
{
    lemma_types_sum(
        fresh_partition_stats(p),
        cur,
        refp,
        s,
        p,
        cols,
        lam,
        parts,
        parts.len() as int,
    );
}

/// What a choice between partitions counts: nothing where none was asked for, three candidates
/// where only differences count, and four where their cost counts too; the models that weigh costs
/// count where they differ from the differences alone, each under its own name.
pub proof fn overruled_choices_are_counted(
    before: SrsV2PartitionEncodeStats,
    cur: VideoPlane<u8>,
    refp: VideoPlane<u8>,
    s: SrsV2EncodeSettings,
    p: SrsV2PartitionSettings,
    ox: int,
    oy: int,
    lam: int,
    pt: u8,
)
    requires
        before.rdo_partition_candidates_tested < u64::MAX - 4,
        before.partition_rejected_by_header_cost < u64::MAX - 4,
        before.partition_rejected_by_rdo < u64::MAX - 4,
        before.partition_sad_override_events < u64::MAX - 4,
    ensures
        ({
            let after = choice_stats(before, cur, refp, s, p, ox, oy, lam, pt);
            let tested = after.rdo_partition_candidates_tested
                - before.rdo_partition_candidates_tested;
            let header = after.partition_rejected_by_header_cost
                - before.partition_rejected_by_header_cost;
            let rdo = after.partition_rejected_by_rdo - before.partition_rejected_by_rdo;
            let overruled = after.partition_sad_override_events
                - before.partition_sad_override_events;
            let auto = p.inter_partition_mode is AutoFast;
            &&& !auto ==> after == before
            &&& auto && p.partition_cost_model is SadOnly ==> tested == 3 && overruled == 0
            &&& auto && !(p.partition_cost_model is SadOnly) ==> tested == 4 && (overruled == 1
                <==> sad_only(cur, refp, s, ox, oy, lam) != pt)
            &&& header + rdo == overruled
            &&& header != 0 ==> p.partition_cost_model is HeaderAware
            &&& rdo != 0 ==> p.partition_cost_model is RdoFast
        }),
{
}

/// Differences of vectors are zero or not, and the bytes of a payload stand before the residuals or
/// belong to them.
pub proof fn vector_counts_add_up(
    s: SrsV2EncodeSettings,
    cols: int,
    mbs: Seq<InterMb>,
    blobs: Seq<Result<Vec<u8>, SrsV2Error>>,
    prefix: int,
    payload: int,
)
    requires
        mbs.len() <= u32::MAX,
        0 <= prefix <= payload <= u64::MAX,
    ensures
        ({
            let st = blend_mv_stats(s, cols, mbs, blobs, prefix, payload);
            let zeros = total(
                2 * mbs.len() as int,
                |k: int| if grid_delta(cols, grid_a(mbs), k) == 0 { 1int } else { 0 },
            ) + total(
                2 * mbs.len() as int,
                |k: int| if grid_delta(cols, grid_b(mbs), k) == 0 { 1int } else { 0 },
            );
            &&& st.mv_delta_zero_varints == zeros
            &&& st.mv_delta_zero_varints + st.mv_delta_nonzero_varints == 4 * mbs.len()
            &&& st.inter_header_bytes + st.residual_payload_bytes == payload
        }),
{
    let n = 2 * mbs.len() as int;
    let f = |k: int| if grid_delta(cols, grid_a(mbs), k) == 0 { 1int } else { 0 };
    let g = |k: int| if grid_delta(cols, grid_b(mbs), k) == 0 { 1int } else { 0 };
    lemma_ones(n, f);
    lemma_ones(n, g);
}

proof fn lemma_ones(n: int, f: spec_fn(int) -> int)
    requires
        0 <= n,
        forall|k: int| 0 <= #[trigger] f(k) <= 1,
    ensures
        0 <= total(n, f) <= n,
    decreases n,
{
    if n > 0 {
        lemma_ones(n - 1, f);
        assert(0 <= f(n - 1) <= 1);
    }
}

/// Where no macroblock of a forward picture moves, none is counted as moving and their vectors add up
/// to nothing; without refinement none is counted as refined.
pub proof fn pictures_at_rest_do_not_move(
    before: SrsV2MotionEncodeStats,
    cur: VideoPlane<u8>,
    refp: VideoPlane<u8>,
    s: SrsV2EncodeSettings,
    cols: int,
    n: int,
)
    requires
        0 <= n <= u32::MAX,
    ensures
        ({
            let st = p_motion_stats(before, cur, refp, s, cols, n);
            let rest = forall|i: int|
                0 <= i < n ==> #[trigger] mb_vector(cur, refp, s, cols, i) == (0int, 0int);
            &&& rest ==> st.nonzero_motion_macroblocks == 0 && st.sum_mv_l1 == 0
                && st.sum_abs_frac_qpel == 0
            &&& st.nonzero_motion_macroblocks <= n
            &&& st.subpel_blocks_selected <= n
            &&& refinement(s) == 0 ==> st.subpel_blocks_tested == 0
                && st.additional_subpel_evaluations == 0
            &&& refinement(s) > 0 ==> st.subpel_blocks_tested == n
        }),
{
    let mbs = p_mbs(cur, refp, s, cols, n);
    let f = |i: int| moves(mbs[i]);
    let g = |i: int| (magnitude(mbs[i].mv_aqx as int) + magnitude(mbs[i].mv_aqy as int)) / 4;
    let h = |i: int| mbs[i].mv_aqx as int % 4 + mbs[i].mv_aqy as int % 4;
    let r = |i: int| refined_away(mbs[i], mb_search(cur, refp, s, cols, i));
    lemma_ones(n, f);
    lemma_ones(n, r);
    if forall|i: int| 0 <= i < n ==> #[trigger] mb_vector(cur, refp, s, cols, i) == (0int, 0int) {
        assert forall|i: int| 0 <= i < n implies #[trigger] f(i) == 0 && g(i) == 0 && h(i) == 0 by {
            assert(mb_vector(cur, refp, s, cols, i) == (0int, 0int));
        }
        let z = |i: int| 0int;
        lemma_total_equal(n, f, z);
        lemma_total_equal(n, g, z);
        lemma_total_equal(n, h, z);
        lemma_total_constant(n, z, 0);
    }
    assert(refinement(s) == 0 ==> n * (8 * refinement(s)) == 0) by (nonlinear_arith);
}

} // verus!
