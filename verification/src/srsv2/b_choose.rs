//! Motion, blend and weights of bidirectional macroblocks.
use vstd::prelude::*;

use crate::arith::least;
use crate::bytes::tdiv;
use super::b_frame_codec::{BBlendModeWire, B_WEIGHTED_PRED_CANDIDATES};
use super::error::SrsV2Error;
use super::frame::{VideoPlane, YuvFrame};
use super::inter_frame::{mb_sad, InterMb};
use super::limits::MAX_SUBPEL_REFINEMENT_RADIUS;
use super::motion_search::{
    no_rdo_decisions, pick_mv, rect_cost, search, Found, SrsV2InterMvBenchStats,
    SrsV2RdoBenchStats, SEARCH_EVALS_CAP,
};
use super::rate_control::{SrsV2BMotionSearchMode, SrsV2EncodeSettings, SrsV2RdoMode};
use super::subpel::{refine_half_pel_center, refined, split_qpel};

verus! {

/// Counters of one encoded bidirectional picture.
#[derive(Debug, Clone, Copy)]
pub struct BFrameEncodeStats {
    pub b_forward_macroblocks: u32,
    pub b_backward_macroblocks: u32,
    pub b_average_macroblocks: u32,
    pub b_weighted_macroblocks: u32,
    pub inter_mv: SrsV2InterMvBenchStats,
    pub rdo: SrsV2RdoBenchStats,
    pub b_sad_evaluations: u64,
    pub b_subpel_blocks_tested: u64,
    pub b_subpel_blocks_selected: u64,
    pub b_additional_subpel_evaluations: u64,
    pub b_sum_abs_frac_qpel: u64,
    pub b_forward_halfpel_blocks: u32,
    pub b_backward_halfpel_blocks: u32,
    pub b_weighted_candidates_tested: u64,
    pub b_weighted_sum_weight_a: u64,
    pub b_weighted_sum_weight_b: u64,
}

impl Default for BFrameEncodeStats {
    fn default() -> (r: Self)
        ensures
            r.b_forward_macroblocks == 0,
            r.b_backward_macroblocks == 0,
            r.b_average_macroblocks == 0,
            r.b_weighted_macroblocks == 0,
            r.rdo == no_rdo_decisions(),
            r.b_sad_evaluations == 0,
            r.b_subpel_blocks_tested == 0,
            r.b_subpel_blocks_selected == 0,
            r.b_additional_subpel_evaluations == 0,
            r.b_sum_abs_frac_qpel == 0,
            r.b_forward_halfpel_blocks == 0,
            r.b_backward_halfpel_blocks == 0,
            r.b_weighted_candidates_tested == 0,
            r.b_weighted_sum_weight_a == 0,
            r.b_weighted_sum_weight_b == 0,
            r.has_room(262144),
    {
        BFrameEncodeStats {
            b_forward_macroblocks: 0,
            b_backward_macroblocks: 0,
            b_average_macroblocks: 0,
            b_weighted_macroblocks: 0,
            inter_mv: SrsV2InterMvBenchStats::default(),
            rdo: SrsV2RdoBenchStats::default(),
            b_sad_evaluations: 0,
            b_subpel_blocks_tested: 0,
            b_subpel_blocks_selected: 0,
            b_additional_subpel_evaluations: 0,
            b_sum_abs_frac_qpel: 0,
            b_forward_halfpel_blocks: 0,
            b_backward_halfpel_blocks: 0,
            b_weighted_candidates_tested: 0,
            b_weighted_sum_weight_a: 0,
            b_weighted_sum_weight_b: 0,
        }
    }
}

impl BFrameEncodeStats {
    /// The counters can take in `n` more macroblocks without overflow.
    pub open spec fn has_room(self, n: int) -> bool {
        &&& self.b_forward_macroblocks + n <= u32::MAX
        &&& self.b_backward_macroblocks + n <= u32::MAX
        &&& self.b_average_macroblocks + n <= u32::MAX
        &&& self.b_weighted_macroblocks + n <= u32::MAX
        &&& self.b_forward_halfpel_blocks + n <= u32::MAX
        &&& self.b_backward_halfpel_blocks + n <= u32::MAX
        &&& self.b_sad_evaluations + 2000000100 * n <= u64::MAX
        &&& self.b_subpel_blocks_tested + 1000 * n <= u64::MAX
        &&& self.b_subpel_blocks_selected + 1000 * n <= u64::MAX
        &&& self.b_additional_subpel_evaluations + 1000 * n <= u64::MAX
        &&& self.b_sum_abs_frac_qpel + 1000 * n <= u64::MAX
        &&& self.b_weighted_candidates_tested + 1000 * n <= u64::MAX
        &&& self.b_weighted_sum_weight_a + 1000 * n <= u64::MAX
        &&& self.b_weighted_sum_weight_b + 1000 * n <= u64::MAX
        &&& self.rdo.candidates_tested + 1000 * n <= u64::MAX
        &&& self.rdo.forward_decisions + 1000 * n <= u64::MAX
        &&& self.rdo.backward_decisions + 1000 * n <= u64::MAX
        &&& self.rdo.average_decisions + 1000 * n <= u64::MAX
        &&& self.rdo.weighted_decisions + 1000 * n <= u64::MAX
        &&& self.rdo.halfpel_decisions + 1000 * n <= u64::MAX
    }
}

/// What the encoder decided for one macroblock: the whole-pel vectors of the search, and the
/// vectors in quarter-pel units.
#[derive(Debug, Clone, Copy, PartialEq, Eq, Structural)]
pub struct BMbEncodeChoice {
    pub blend: BBlendModeWire,
    pub weight_a: u8,
    pub weight_b: u8,
    pub mv_ax: i16,
    pub mv_ay: i16,
    pub mv_bx: i16,
    pub mv_by: i16,
    pub mv_aqx: i32,
    pub mv_aqy: i32,
    pub mv_bqx: i32,
    pub mv_bqy: i32,
}

impl BMbEncodeChoice {
    /// The prediction that was chosen.
    pub open spec fn prediction(self) -> InterMb {
        InterMb {
            blend: self.blend,
            weight_a: self.weight_a,
            weight_b: self.weight_b,
            mv_aqx: self.mv_aqx,
            mv_aqy: self.mv_aqy,
            mv_bqx: self.mv_bqx,
            mv_bqy: self.mv_bqy,
        }
    }

    /// The prediction that was chosen.
    pub fn to_prediction(&self) -> (r: InterMb)
        ensures
            r == self.prediction(),
    {
        InterMb {
            blend: self.blend,
            weight_a: self.weight_a,
            weight_b: self.weight_b,
            mv_aqx: self.mv_aqx,
            mv_aqy: self.mv_aqy,
            mv_bqx: self.mv_bqx,
            mv_bqy: self.mv_bqy,
        }
    }
}

/// The settings ask for a motion search on both references.
pub open spec fn b_searches(s: SrsV2EncodeSettings) -> bool {
    s.b_motion_search_mode == SrsV2BMotionSearchMode::IndependentForwardBackward || b_halfpel(s)
}

/// The settings ask for half-pel refinement.
pub open spec fn b_halfpel(s: SrsV2EncodeSettings) -> bool {
    s.b_motion_search_mode == SrsV2BMotionSearchMode::IndependentForwardBackwardHalfPel
}

/// The refinement radius in use.
pub open spec fn b_radius(s: SrsV2EncodeSettings) -> int {
    if b_halfpel(s) {
        least(s.subpel_refinement_radius as int, MAX_SUBPEL_REFINEMENT_RADIUS as int)
    } else {
        0
    }
}

/// The search of a macroblock in one reference; the zero vector where none is asked for.
pub open spec fn b_search(
    s: SrsV2EncodeSettings,
    cur: VideoPlane<u8>,
    refp: VideoPlane<u8>,
    mbx: int,
    mby: int,
) -> Found {
    if b_searches(s) {
        search(
            s.motion_search_mode,
            rect_cost(cur, refp, mbx * 16, mby * 16, 16, 16),
            s.search_radius(),
            s.early_exit_sad_threshold as int,
        )
    } else {
        Found { mvx: 0, mvy: 0, sad: 0, evals: 0 }
    }
}

/// The vector of a macroblock in one reference, in quarter-pel units.
pub open spec fn b_vector(
    s: SrsV2EncodeSettings,
    cur: VideoPlane<u8>,
    refp: VideoPlane<u8>,
    mbx: int,
    mby: int,
) -> (int, int) {
    let f = b_search(s, cur, refp, mbx, mby);
    let q = refined(cur, refp, mbx * 16, mby * 16, f.mvx, f.mvy, b_radius(s));
    (q.x, q.y)
}

/// Candidate `k`: either reference alone, their average, and the weight pairs in turn.
pub open spec fn b_candidate(va: (int, int), vb: (int, int), k: int) -> InterMb {
    InterMb {
        blend: if k == 0 {
            BBlendModeWire::ForwardOnly
        } else if k == 1 {
            BBlendModeWire::BackwardOnly
        } else if k == 2 {
            BBlendModeWire::Average
        } else {
            BBlendModeWire::Weighted
        },
        weight_a: if k >= 3 { B_WEIGHTED_PRED_CANDIDATES@[k - 3].0 } else { 0 },
        weight_b: if k >= 3 { B_WEIGHTED_PRED_CANDIDATES@[k - 3].1 } else { 0 },
        mv_aqx: va.0 as i32,
        mv_aqy: va.1 as i32,
        mv_bqx: vb.0 as i32,
        mv_bqy: vb.1 as i32,
    }
}

/// The costs of the candidates.
pub open spec fn b_costs(
    cur: VideoPlane<u8>,
    a: VideoPlane<u8>,
    b: VideoPlane<u8>,
    mbx: int,
    mby: int,
    va: (int, int),
    vb: (int, int),
    weighted: bool,
) -> Seq<u32> {
    Seq::new(
        if weighted { 8 } else { 3 },
        |k: int| mb_sad(b_candidate(va, vb, k), cur, a, b, mbx * 16, mby * 16) as u32,
    )
}

/// The least cost of the unweighted candidates and the first `n - 3` weighted ones, and which
/// weighted candidate brought it down to that, if one did.
pub open spec fn weighted_best(costs: Seq<u32>, n: int) -> (u32, int)
    decreases n,
{
    if n <= 3 {
        (
            least(least(costs[0] as int, costs[1] as int), costs[2] as int) as u32,
            0,
        )
    } else {
        let b = weighted_best(costs, n - 1);
        if costs[n - 1] < b.0 {
            (costs[n - 1], n - 1)
        } else {
            b
        }
    }
}

/// The candidate of least cost; among equal ones the average comes first, then the first
/// reference, then the second, then the weights in turn.
pub open spec fn plain_pick(costs: Seq<u32>) -> int {
    let b = weighted_best(costs, costs.len() as int);
    if costs[2] == b.0 {
        2
    } else if costs[0] == b.0 {
        0
    } else if costs[1] == b.0 {
        1
    } else {
        b.1
    }
}

/// Cost of candidate `k` with the estimated bytes of its syntax: 8, 72 more for weights, 40 more
/// where refinement changed a vector.
pub open spec fn rdo_cost(costs: Seq<u32>, lambda: int, moved: bool, k: int) -> int {
    costs[k] + tdiv(
        lambda * (8 + (if k >= 3 { 72int } else { 0 }) + (if moved { 40int } else { 0 })),
        256,
    )
}

/// The first candidate of least cost among the first `n`.
pub open spec fn rdo_pick(costs: Seq<u32>, lambda: int, moved: bool, n: int) -> int
    decreases n,
{
    if n <= 1 {
        0
    } else {
        let b = rdo_pick(costs, lambda, moved, n - 1);
        if rdo_cost(costs, lambda, moved, n - 1) < rdo_cost(costs, lambda, moved, b) {
            n - 1
        } else {
            b
        }
    }
}

/// No candidate costs less than the one that rate-distortion picks.
pub proof fn rdo_pick_is_least(costs: Seq<u32>, lambda: int, moved: bool, n: int, k: int)
    requires
        0 <= k < n,
    ensures
        0 <= rdo_pick(costs, lambda, moved, n) < n,
        rdo_cost(costs, lambda, moved, rdo_pick(costs, lambda, moved, n)) <= rdo_cost(
            costs,
            lambda,
            moved,
            k,
        ),
    decreases n,
{
    if n > 1 {
        if k < n - 1 {
            rdo_pick_is_least(costs, lambda, moved, n - 1, k);
        } else {
            rdo_pick_is_least(costs, lambda, moved, n - 1, 0);
        }
    }
}

proof fn lemma_weighted_best(costs: Seq<u32>, n: int)
    requires
        3 <= n <= costs.len(),
    ensures
        forall|k: int| 0 <= k < n ==> weighted_best(costs, n).0 <= #[trigger] costs[k],
        weighted_best(costs, n).0 == costs[0] || weighted_best(costs, n).0 == costs[1]
            || weighted_best(costs, n).0 == costs[2] || (3 <= weighted_best(costs, n).1 < n
            && weighted_best(costs, n).0 == costs[weighted_best(costs, n).1]),
    decreases n,
{
    if n > 3 {
        lemma_weighted_best(costs, n - 1);
    }
}

/// No candidate costs less than the one that is picked without rate estimates.
pub proof fn plain_pick_is_least(costs: Seq<u32>, k: int)
    requires
        3 <= costs.len(),
        0 <= k < costs.len(),
    ensures
        0 <= plain_pick(costs) < costs.len(),
        costs[plain_pick(costs)] <= costs[k],
{
    lemma_weighted_best(costs, costs.len() as int);
}

/// Of candidates that score alike the first is chosen.
pub proof fn rdo_pick_is_the_first_least(
    costs: Seq<u32>,
    lambda: int,
    moved: bool,
    n: int,
    j: int,
)
    requires
        0 <= j < rdo_pick(costs, lambda, moved, n),
    ensures
        rdo_cost(costs, lambda, moved, j) > rdo_cost(
            costs,
            lambda,
            moved,
            rdo_pick(costs, lambda, moved, n),
        ),
    decreases n,
{
    if n > 1 {
        let b = rdo_pick(costs, lambda, moved, n - 1);
        if rdo_pick(costs, lambda, moved, n) == b {
            rdo_pick_is_the_first_least(costs, lambda, moved, n - 1, j);
        } else {
            rdo_pick_is_least(costs, lambda, moved, n - 1, j);
        }
    }
}

/// Of candidates that differ alike the mean of both references comes before the first of them, that
/// before the second, and all of these before the weighted ones.
pub proof fn ties_go_to_the_plainer_blend(costs: Seq<u32>)
    requires
        3 <= costs.len(),
    ensures
        plain_pick(costs) != 2 ==> costs[2] > costs[plain_pick(costs)],
        plain_pick(costs) != 2 && plain_pick(costs) != 0 ==> costs[0] > costs[plain_pick(costs)],
        plain_pick(costs) >= 3 ==> costs[1] > costs[plain_pick(costs)],
{
    lemma_weighted_best(costs, costs.len() as int);
    plain_pick_is_least(costs, 0);
    plain_pick_is_least(costs, 1);
    plain_pick_is_least(costs, 2);
}

/// The candidate that the encoder takes.
pub open spec fn b_pick(
    s: SrsV2EncodeSettings,
    lambda: int,
    costs: Seq<u32>,
    moved: bool,
) -> int {
    if s.rdo_mode == SrsV2RdoMode::Fast {
        rdo_pick(costs, lambda, moved, costs.len() as int)
    } else {
        plain_pick(costs)
    }
}

/// Refinement changed a vector.
pub open spec fn b_moved(f: Found, v: (int, int)) -> bool {
    v.0 != 4 * f.mvx || v.1 != 4 * f.mvy
}

/// The quarter pels that remain of a vector.
pub open spec fn fraction(v: (int, int)) -> int {
    v.0 % 4 + v.1 % 4
}

/// The decision for a macroblock.
pub open spec fn b_choice(
    s: SrsV2EncodeSettings,
    cur: VideoPlane<u8>,
    a: VideoPlane<u8>,
    b: VideoPlane<u8>,
    mbx: int,
    mby: int,
    lambda: int,
) -> BMbEncodeChoice {
    let fa = b_search(s, cur, a, mbx, mby);
    let fb = b_search(s, cur, b, mbx, mby);
    let va = b_vector(s, cur, a, mbx, mby);
    let vb = b_vector(s, cur, b, mbx, mby);
    let costs = b_costs(cur, a, b, mbx, mby, va, vb, s.b_weighted_prediction);
    let mb = b_candidate(va, vb, b_pick(s, lambda, costs, b_moved(fa, va) || b_moved(fb, vb)));
    BMbEncodeChoice {
        blend: mb.blend,
        weight_a: mb.weight_a,
        weight_b: mb.weight_b,
        mv_ax: fa.mvx as i16,
        mv_ay: fa.mvy as i16,
        mv_bx: fb.mvx as i16,
        mv_by: fb.mvy as i16,
        mv_aqx: va.0 as i32,
        mv_aqy: va.1 as i32,
        mv_bqx: vb.0 as i32,
        mv_bqy: vb.1 as i32,
    }
}

/// One more where a condition holds.
pub open spec fn one_if(c: bool) -> int {
    if c {
        1
    } else {
        0
    }
}

/// What the searches of a macroblock took: compared vectors, whether refinement changed either
/// vector, and the quarter pels that remain.
pub struct MotionCount {
    pub evals: int,
    pub moved_a: bool,
    pub moved_b: bool,
    pub fractions: int,
}

/// The counters after one more decision.
pub open spec fn counted_choice(
    before: BFrameEncodeStats,
    s: SrsV2EncodeSettings,
    m: MotionCount,
    c: BMbEncodeChoice,
) -> BFrameEncodeStats {
    let fast = s.rdo_mode == SrsV2RdoMode::Fast;
    let moved = m.moved_a || m.moved_b;
    let more = if s.b_weighted_prediction { 5int } else { 0 };
    let forward = one_if(c.blend == BBlendModeWire::ForwardOnly);
    let backward = one_if(c.blend == BBlendModeWire::BackwardOnly);
    let average = one_if(c.blend == BBlendModeWire::Average);
    let weighted = one_if(c.blend == BBlendModeWire::Weighted);
    let bits = if !fast {
        0
    } else {
        8 + 72 * weighted
    };
    BFrameEncodeStats {
        b_forward_macroblocks: (before.b_forward_macroblocks + forward) as u32,
        b_backward_macroblocks: (before.b_backward_macroblocks + backward) as u32,
        b_average_macroblocks: (before.b_average_macroblocks + average) as u32,
        b_weighted_macroblocks: (before.b_weighted_macroblocks + weighted) as u32,
        inter_mv: before.inter_mv,
        rdo: SrsV2RdoBenchStats {
            candidates_tested: (before.rdo.candidates_tested + (if fast {
                3 + more
            } else {
                0
            })) as u64,
            forward_decisions: (before.rdo.forward_decisions + forward) as u64,
            backward_decisions: (before.rdo.backward_decisions + backward) as u64,
            average_decisions: (before.rdo.average_decisions + average) as u64,
            weighted_decisions: (before.rdo.weighted_decisions + weighted) as u64,
            halfpel_decisions: (before.rdo.halfpel_decisions + one_if(fast && moved)) as u64,
            estimated_bits_used_for_decision: least(
                before.rdo.estimated_bits_used_for_decision + bits,
                u64::MAX as int,
            ) as u64,
            ..before.rdo
        },
        b_sad_evaluations: (before.b_sad_evaluations + m.evals + 3 + more) as u64,
        b_subpel_blocks_tested: (before.b_subpel_blocks_tested + 2 * one_if(b_radius(s) > 0))
            as u64,
        b_subpel_blocks_selected: (before.b_subpel_blocks_selected + one_if(moved)) as u64,
        b_additional_subpel_evaluations: (before.b_additional_subpel_evaluations + 16 * b_radius(s))
            as u64,
        b_sum_abs_frac_qpel: (before.b_sum_abs_frac_qpel + m.fractions) as u64,
        b_forward_halfpel_blocks: (before.b_forward_halfpel_blocks + one_if(m.moved_a)) as u32,
        b_backward_halfpel_blocks: (before.b_backward_halfpel_blocks + one_if(m.moved_b)) as u32,
        b_weighted_candidates_tested: (before.b_weighted_candidates_tested + more) as u64,
        b_weighted_sum_weight_a: (before.b_weighted_sum_weight_a + weighted * c.weight_a) as u64,
        b_weighted_sum_weight_b: (before.b_weighted_sum_weight_b + weighted * c.weight_b) as u64,
    }
}

/// The counters after a macroblock was decided.
pub open spec fn b_stats(
    before: BFrameEncodeStats,
    s: SrsV2EncodeSettings,
    cur: VideoPlane<u8>,
    a: VideoPlane<u8>,
    b: VideoPlane<u8>,
    mbx: int,
    mby: int,
    lambda: int,
) -> BFrameEncodeStats {
    let fa = b_search(s, cur, a, mbx, mby);
    let fb = b_search(s, cur, b, mbx, mby);
    let va = b_vector(s, cur, a, mbx, mby);
    let vb = b_vector(s, cur, b, mbx, mby);
    counted_choice(
        before,
        s,
        MotionCount {
            evals: fa.evals + fb.evals,
            moved_a: b_moved(fa, va),
            moved_b: b_moved(fb, vb),
            fractions: fraction(va) + fraction(vb),
        },
        b_choice(s, cur, a, b, mbx, mby, lambda),
    )
}

/// One more decision takes the room of one macroblock.
proof fn lemma_room(
    before: BFrameEncodeStats,
    s: SrsV2EncodeSettings,
    m: MotionCount,
    c: BMbEncodeChoice,
    n: int,
)
    requires
        n >= 1,
        before.has_room(n),
        0 <= m.evals <= 2000000000,
        0 <= m.fractions <= 12,
    ensures
        counted_choice(before, s, m, c).has_room(n - 1),
{
    let w = one_if(c.blend == BBlendModeWire::Weighted);
    assert(0 <= w * c.weight_a <= 255 && 0 <= w * c.weight_b <= 255) by (nonlinear_arith)
        requires
            0 <= w <= 1,
            0 <= c.weight_a <= 255,
            0 <= c.weight_b <= 255,
    ;
}

fn flag(c: bool) -> (r: u32)
    ensures
        r == one_if(c),
{
    if c {
        1
    } else {
        0
    }
}

/// The vectors of a macroblock in one reference: whole-pel and quarter-pel.
struct OneMotion {
    whole: (i16, i16),
    quarter: (i32, i32),
    evals: u64,
    moved: bool,
    fraction: u64,
}

fn find_motion(
    s: &SrsV2EncodeSettings,
    cur: &VideoPlane<u8>,
    refp: &VideoPlane<u8>,
    mbx: u32,
    mby: u32,
) -> (r: OneMotion)
    requires
        cur.valid(),
        refp.valid(),
        mbx * 16 + 16 <= cur.width,
        mby * 16 + 16 <= cur.height,
    ensures
        ({
            let f = b_search(*s, *cur, *refp, mbx as int, mby as int);
            let v = b_vector(*s, *cur, *refp, mbx as int, mby as int);
            &&& r.whole.0 == f.mvx && r.whole.1 == f.mvy
            &&& r.evals == f.evals
            &&& r.quarter.0 == v.0 && r.quarter.1 == v.1
            &&& r.moved == b_moved(f, v)
            &&& r.fraction == fraction(v)
        }),
        r.evals <= SEARCH_EVALS_CAP,
        r.fraction <= 6,
        r.quarter.0 % 2 == 0,
        r.quarter.1 % 2 == 0,
        !b_halfpel(*s) ==> r.quarter.0 % 4 == 0 && r.quarter.1 % 4 == 0,
        -516 <= r.quarter.0 <= 516,
        -516 <= r.quarter.1 <= 516,
{
    let half = s.b_motion_search_mode
        == SrsV2BMotionSearchMode::IndependentForwardBackwardHalfPel;
    let searches = half || s.b_motion_search_mode
        == SrsV2BMotionSearchMode::IndependentForwardBackward;
    let mut evals: u64 = 0;
    let whole: (i16, i16) = if searches {
        pick_mv(
            s.motion_search_mode,
            cur,
            refp,
            mbx,
            mby,
            s.clamped_motion_search_radius(),
            s.early_exit_sad_threshold,
            &mut evals,
        )
    } else {
        (0, 0)
    };
    let quarter: (i32, i32) = if half {
        let mut ev: u64 = 0;
        let mut tested: u64 = 0;
        refine_half_pel_center(
            cur,
            refp,
            mbx,
            mby,
            whole.0,
            whole.1,
            s.clamped_subpel_refinement_radius(),
            &mut ev,
            &mut tested,
        )
    } else {
        (whole.0 as i32 * 4, whole.1 as i32 * 4)
    };
    let moved = quarter.0 != whole.0 as i32 * 4 || quarter.1 != whole.1 as i32 * 4;
    let fx: i32 = split_qpel(quarter.0).1;
    let fy: i32 = split_qpel(quarter.1).1;
    OneMotion { whole, quarter, evals, moved, fraction: (fx + fy) as u64 }
}

/// Candidate `k` in executable form.
fn make_candidate(va: (i32, i32), vb: (i32, i32), k: usize) -> (mb: InterMb)
    requires
        k < 8,
        -1024 <= va.0 <= 1024,
        -1024 <= va.1 <= 1024,
        -1024 <= vb.0 <= 1024,
        -1024 <= vb.1 <= 1024,
    ensures
        mb == b_candidate((va.0 as int, va.1 as int), (vb.0 as int, vb.1 as int), k as int),
        mb.wf(),
{
    let blend = if k == 0 {
        BBlendModeWire::ForwardOnly
    } else if k == 1 {
        BBlendModeWire::BackwardOnly
    } else if k == 2 {
        BBlendModeWire::Average
    } else {
        BBlendModeWire::Weighted
    };
    let (weight_a, weight_b): (u8, u8) = if k >= 3 {
        assert(forall|j: int|
            0 <= j < 5 ==> (#[trigger] B_WEIGHTED_PRED_CANDIDATES@[j]).0
                + B_WEIGHTED_PRED_CANDIDATES@[j].1 == 256);
        B_WEIGHTED_PRED_CANDIDATES[k - 3]
    } else {
        (0, 0)
    };
    InterMb {
        blend,
        weight_a,
        weight_b,
        mv_aqx: va.0,
        mv_aqy: va.1,
        mv_bqx: vb.0,
        mv_bqy: vb.1,
    }
}

/// Picks the candidate of least cost.
pub fn pick_by_cost(costs: &[u32]) -> (k: usize)
    requires
        3 <= costs@.len() <= 8,
    ensures
        k == plain_pick(costs@),
        k < costs@.len(),
{
    let m0: u32 = if costs[0] <= costs[1] { costs[0] } else { costs[1] };
    let mut least_cost: u32 = if m0 <= costs[2] { m0 } else { costs[2] };
    let mut best: usize = 0;
    let mut i: usize = 3;
    while i < costs.len()
        invariant
            3 <= i <= costs@.len() <= 8,
            weighted_best(costs@, i as int) == (least_cost, best as int),
        decreases costs@.len() - i,
    {
        if costs[i] < least_cost {
            least_cost = costs[i];
            best = i;
        }
        i += 1;
    }
    proof {
        plain_pick_is_least(costs@, 0);
    }
    if costs[2] == least_cost {
        2
    } else if costs[0] == least_cost {
        0
    } else if costs[1] == least_cost {
        1
    } else {
        best
    }
}

fn score(cost: u32, lambda: i64, moved: bool, weighted: bool) -> (r: i128)
    ensures
        r == cost + tdiv(
            lambda * (8 + (if weighted { 72int } else { 0 }) + (if moved { 40int } else { 0 })),
            256,
        ),
{
    let extra: i128 = if weighted { 72 } else { 0 };
    let pen: i128 = if moved { 40 } else { 0 };
    let bytes: i128 = 8 + extra + pen;
    assert(-10000000000000000000000 <= lambda * bytes <= 10000000000000000000000)
        by (nonlinear_arith)
        requires
            -9223372036854775808 <= lambda <= 9223372036854775807,
            8 <= bytes <= 120,
    ;
    cost as i128 + (lambda as i128 * bytes) / 256
}

/// Picks the candidate of least cost with the estimated bytes of its syntax.
pub fn pick_by_rate(costs: &[u32], lambda: i64, moved: bool) -> (k: usize)
    requires
        3 <= costs@.len() <= 8,
    ensures
        k == rdo_pick(costs@, lambda as int, moved, costs@.len() as int),
        k < costs@.len(),
{
    let mut best: usize = 0;
    let mut best_score: i128 = score(costs[0], lambda, moved, false);
    let mut i: usize = 1;
    while i < costs.len()
        invariant
            1 <= i <= costs@.len() <= 8,
            best < i,
            best == rdo_pick(costs@, lambda as int, moved, i as int),
            best_score == rdo_cost(costs@, lambda as int, moved, best as int),
        decreases costs@.len() - i,
    {
        let sc: i128 = score(costs[i], lambda, moved, i >= 3);
        if sc < best_score {
            best = i;
            best_score = sc;
        }
        i += 1;
    }
    best
}

fn candidate_costs(
    cur: &VideoPlane<u8>,
    a: &VideoPlane<u8>,
    b: &VideoPlane<u8>,
    mbx: u32,
    mby: u32,
    va: (i32, i32),
    vb: (i32, i32),
    weighted: bool,
) -> (costs: Vec<u32>)
    requires
        cur.valid(),
        a.valid(),
        b.valid(),
        mbx * 16 + 16 <= cur.width,
        mby * 16 + 16 <= cur.height,
        -1024 <= va.0 <= 1024,
        -1024 <= va.1 <= 1024,
        -1024 <= vb.0 <= 1024,
        -1024 <= vb.1 <= 1024,
    ensures
        costs@ == b_costs(
            *cur,
            *a,
            *b,
            mbx as int,
            mby as int,
            (va.0 as int, va.1 as int),
            (vb.0 as int, vb.1 as int),
            weighted,
        ),
{
    let n: usize = if weighted { 8 } else { 3 };
    let mut costs: Vec<u32> = Vec::with_capacity(n);
    let ghost want = b_costs(
        *cur,
        *a,
        *b,
        mbx as int,
        mby as int,
        (va.0 as int, va.1 as int),
        (vb.0 as int, vb.1 as int),
        weighted,
    );
    let ox: usize = (mbx * 16) as usize;
    let oy: usize = (mby * 16) as usize;
    let mut k: usize = 0;
    while k < n
        invariant
            k <= n <= 8,
            n == want.len(),
            cur.valid(),
            a.valid(),
            b.valid(),
            ox == mbx * 16,
            oy == mby * 16,
            mbx * 16 + 16 <= cur.width,
            mby * 16 + 16 <= cur.height,
            -1024 <= va.0 <= 1024,
            -1024 <= va.1 <= 1024,
            -1024 <= vb.0 <= 1024,
            -1024 <= vb.1 <= 1024,
            want == b_costs(
                *cur,
                *a,
                *b,
                mbx as int,
                mby as int,
                (va.0 as int, va.1 as int),
                (vb.0 as int, vb.1 as int),
                weighted,
            ),
            costs@.len() == k,
            forall|j: int| 0 <= j < k ==> #[trigger] costs@[j] == want[j],
        decreases n - k,
    {
        let mb = make_candidate(va, vb, k);
        costs.push(mb.sad(cur, a, b, ox, oy));
        k += 1;
    }
    assert(costs@ =~= want);
    costs
}

/// Decides motion, blend and weights of one macroblock. `lambda` is the rate weight of the
/// rate-distortion decisions, in 256ths; it is not read while they are off.
pub fn choose_b_macroblock(
    settings: &SrsV2EncodeSettings,
    cur: &YuvFrame,
    ref_a: &YuvFrame,
    ref_b: &YuvFrame,
    mbx: u32,
    mby: u32,
    lambda: i64,
    stats: &mut BFrameEncodeStats,
) -> (r: Result<BMbEncodeChoice, SrsV2Error>)
    requires
        cur.y.valid(),
        ref_a.y.valid(),
        ref_b.y.valid(),
        mbx * 16 + 16 <= cur.y.width,
        mby * 16 + 16 <= cur.y.height,
        old(stats).has_room(1),
    ensures
        r == Ok::<BMbEncodeChoice, SrsV2Error>(
            b_choice(
                *settings,
                cur.y,
                ref_a.y,
                ref_b.y,
                mbx as int,
                mby as int,
                lambda as int,
            ),
        ),
        *final(stats) == b_stats(
            *old(stats),
            *settings,
            cur.y,
            ref_a.y,
            ref_b.y,
            mbx as int,
            mby as int,
            lambda as int,
        ),
        forall|n: int| n >= 1 && #[trigger] old(stats).has_room(n) ==> final(stats).has_room(n - 1),
        r->Ok_0.prediction().wf(),
        r->Ok_0.mv_aqx % 2 == 0,
        r->Ok_0.mv_aqy % 2 == 0,
        r->Ok_0.mv_bqx % 2 == 0,
        r->Ok_0.mv_bqy % 2 == 0,
        !b_halfpel(*settings) ==> r->Ok_0.mv_aqx % 4 == 0 && r->Ok_0.mv_aqy % 4 == 0
            && r->Ok_0.mv_bqx % 4 == 0 && r->Ok_0.mv_bqy % 4 == 0,
        r->Ok_0.blend == BBlendModeWire::Weighted ==> settings.b_weighted_prediction,
        r->Ok_0.blend != BBlendModeWire::Weighted ==> r->Ok_0.weight_a == 0 && r->Ok_0.weight_b
            == 0,
{
    let fast = settings.rdo_mode == SrsV2RdoMode::Fast;
    let ma = find_motion(settings, &cur.y, &ref_a.y, mbx, mby);
    let mb = find_motion(settings, &cur.y, &ref_b.y, mbx, mby);
    let weighted = settings.b_weighted_prediction;
    let costs = candidate_costs(
        &cur.y,
        &ref_a.y,
        &ref_b.y,
        mbx,
        mby,
        ma.quarter,
        mb.quarter,
        weighted,
    );
    let moved = ma.moved || mb.moved;
    let k: usize = if fast {
        pick_by_rate(costs.as_slice(), lambda, moved)
    } else {
        pick_by_cost(costs.as_slice())
    };
    let best = make_candidate(ma.quarter, mb.quarter, k);
    let choice = BMbEncodeChoice {
        blend: best.blend,
        weight_a: best.weight_a,
        weight_b: best.weight_b,
        mv_ax: ma.whole.0,
        mv_ay: ma.whole.1,
        mv_bx: mb.whole.0,
        mv_by: mb.whole.1,
        mv_aqx: best.mv_aqx,
        mv_aqy: best.mv_aqy,
        mv_bqx: best.mv_bqx,
        mv_bqy: best.mv_bqy,
    };
    count_choice(settings, stats, &ma, &mb, &choice);
    proof {
        let m = MotionCount {
            evals: ma.evals + mb.evals,
            moved_a: ma.moved,
            moved_b: mb.moved,
            fractions: ma.fraction + mb.fraction,
        };
        assert forall|n: int| n >= 1 && #[trigger] old(stats).has_room(n) implies stats.has_room(
            n - 1,
        ) by {
            lemma_room(*old(stats), *settings, m, choice, n);
        }
    }
    Ok(choice)
}

fn count_choice(
    settings: &SrsV2EncodeSettings,
    stats: &mut BFrameEncodeStats,
    ma: &OneMotion,
    mb: &OneMotion,
    choice: &BMbEncodeChoice,
)
    requires
        old(stats).has_room(1),
        ma.evals <= SEARCH_EVALS_CAP,
        mb.evals <= SEARCH_EVALS_CAP,
        ma.fraction <= 6,
        mb.fraction <= 6,
    ensures
        *final(stats) == counted_choice(
            *old(stats),
            *settings,
            MotionCount {
                evals: ma.evals + mb.evals,
                moved_a: ma.moved,
                moved_b: mb.moved,
                fractions: ma.fraction + mb.fraction,
            },
            *choice,
        ),
{
    let fast = settings.rdo_mode == SrsV2RdoMode::Fast;
    let half = settings.b_motion_search_mode
        == SrsV2BMotionSearchMode::IndependentForwardBackwardHalfPel;
    let radius: u64 = if half { settings.clamped_subpel_refinement_radius() as u64 } else { 0 };
    let more: u64 = if settings.b_weighted_prediction { 5 } else { 0 };
    let moved = ma.moved || mb.moved;
    let forward: u32 = flag(choice.blend == BBlendModeWire::ForwardOnly);
    let backward: u32 = flag(choice.blend == BBlendModeWire::BackwardOnly);
    let average: u32 = flag(choice.blend == BBlendModeWire::Average);
    let weighted: u32 = flag(choice.blend == BBlendModeWire::Weighted);
    let bits: u64 = if !fast { 0 } else { 8 + 72 * weighted as u64 };
    let weight_a: u64 = if weighted == 1 { choice.weight_a as u64 } else { 0 };
    let weight_b: u64 = if weighted == 1 { choice.weight_b as u64 } else { 0 };
    assert(weight_a == weighted * choice.weight_a && weight_b == weighted * choice.weight_b);
    let tested: u64 = if fast { 3 + more } else { 0 };
    let s = *stats;
    *stats = BFrameEncodeStats {
        b_forward_macroblocks: s.b_forward_macroblocks + forward,
        b_backward_macroblocks: s.b_backward_macroblocks + backward,
        b_average_macroblocks: s.b_average_macroblocks + average,
        b_weighted_macroblocks: s.b_weighted_macroblocks + weighted,
        inter_mv: s.inter_mv,
        rdo: SrsV2RdoBenchStats {
            candidates_tested: s.rdo.candidates_tested + tested,
            skip_decisions: s.rdo.skip_decisions,
            forward_decisions: s.rdo.forward_decisions + forward as u64,
            backward_decisions: s.rdo.backward_decisions + backward as u64,
            average_decisions: s.rdo.average_decisions + average as u64,
            weighted_decisions: s.rdo.weighted_decisions + weighted as u64,
            halfpel_decisions: s.rdo.halfpel_decisions + flag(fast && moved) as u64,
            residual_decisions: s.rdo.residual_decisions,
            no_residual_decisions: s.rdo.no_residual_decisions,
            estimated_bits_used_for_decision: s.rdo.estimated_bits_used_for_decision.saturating_add(
                bits,
            ),
            inter_zero_mv_wins: s.rdo.inter_zero_mv_wins,
            inter_me_mv_wins: s.rdo.inter_me_mv_wins,
        },
        b_sad_evaluations: s.b_sad_evaluations + (ma.evals + mb.evals) + 3 + more,
        b_subpel_blocks_tested: s.b_subpel_blocks_tested + 2 * flag(radius > 0) as u64,
        b_subpel_blocks_selected: s.b_subpel_blocks_selected + flag(moved) as u64,
        b_additional_subpel_evaluations: s.b_additional_subpel_evaluations + 16 * radius,
        b_sum_abs_frac_qpel: s.b_sum_abs_frac_qpel + (ma.fraction + mb.fraction),
        b_forward_halfpel_blocks: s.b_forward_halfpel_blocks + flag(ma.moved),
        b_backward_halfpel_blocks: s.b_backward_halfpel_blocks + flag(mb.moved),
        b_weighted_candidates_tested: s.b_weighted_candidates_tested + more,
        b_weighted_sum_weight_a: s.b_weighted_sum_weight_a + weight_a,
        b_weighted_sum_weight_b: s.b_weighted_sum_weight_b + weight_b,
    };
}

/// The blend and the whole-pel vectors of [`choose_b_macroblock`].
pub fn choose_b_macroblock_blend_and_mv(
    settings: &SrsV2EncodeSettings,
    cur: &YuvFrame,
    ref_a: &YuvFrame,
    ref_b: &YuvFrame,
    mbx: u32,
    mby: u32,
    lambda: i64,
    stats: &mut BFrameEncodeStats,
) -> (r: Result<(BBlendModeWire, i16, i16, i16, i16), SrsV2Error>)
    requires
        cur.y.valid(),
        ref_a.y.valid(),
        ref_b.y.valid(),
        mbx * 16 + 16 <= cur.y.width,
        mby * 16 + 16 <= cur.y.height,
        old(stats).has_room(1),
    ensures
        ({
            let c = b_choice(
                *settings,
                cur.y,
                ref_a.y,
                ref_b.y,
                mbx as int,
                mby as int,
                lambda as int,
            );
            r == Ok::<(BBlendModeWire, i16, i16, i16, i16), SrsV2Error>(
                (c.blend, c.mv_ax, c.mv_ay, c.mv_bx, c.mv_by),
            )
        }),
        *final(stats) == b_stats(
            *old(stats),
            *settings,
            cur.y,
            ref_a.y,
            ref_b.y,
            mbx as int,
            mby as int,
            lambda as int,
        ),
{
    match choose_b_macroblock(settings, cur, ref_a, ref_b, mbx, mby, lambda, stats) {
        Err(e) => Err(e),
        Ok(c) => Ok((c.blend, c.mv_ax, c.mv_ay, c.mv_bx, c.mv_by)),
    }
}

} // verus!
