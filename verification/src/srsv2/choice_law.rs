//! What the encoder chooses for its macroblocks.
use vstd::prelude::*;

use crate::arith::{lemma_total_bound, magnitude};
use crate::bytes::tdiv;

use super::b_choose::{
    b_candidate, b_choice, b_costs, b_searches, b_vector, plain_pick, plain_pick_is_least, rdo_cost,
};
use super::b_frame_codec::{BBlendModeWire, B_WEIGHTED_PRED_CANDIDATES};
use super::frame::VideoPlane;
use super::inter_frame::{InterMb, lemma_blend_range, mb_sad, mb_term};
use super::motion_search::{rect_cost, rect_sad, rect_term};
use super::p_frame_codec::mb_vector;
use super::rate_control::{SrsV2EncodeSettings, SrsV2MotionSearchMode, SrsV2RdoMode};
use super::search_law::{
    costs_fit, exhaustive_search_finds_the_least, refinement_never_loses,
    searches_measure_the_prediction, searches_never_lose_to_rest,
};
use super::subpel::{lemma_qpel_range, qpel_sad, qpel_sample};

verus! {

proof fn lemma_costs_fit(cur: VideoPlane<u8>, refp: VideoPlane<u8>, ox: int, oy: int)
    ensures
        costs_fit(rect_cost(cur, refp, ox, oy, 16, 16)),
{
    let cost = rect_cost(cur, refp, ox, oy, 16, 16);
    assert forall|x: int, y: int| 0 <= #[trigger] cost(x, y) < u32::MAX by {
        let f = |i: int| rect_term(cur, refp, ox, oy, 16, x, y, i);
        lemma_total_bound(256, f, 255);
        assert(cost(x, y) == rect_sad(cur, refp, ox, oy, 16, 16, x, y));
    }
}

/// The settings ask for an exhaustive search without an early end.
pub open spec fn searches_everything(s: SrsV2EncodeSettings) -> bool {
    s.motion_search_mode == SrsV2MotionSearchMode::ExhaustiveSmall && s.early_exit_sad_threshold == 0
}

/// The vector of a macroblock of a forward picture predicts it at least as well as not moving, and
/// after an exhaustive search at least as well as every whole-pel vector within the search radius.
pub proof fn forward_vectors_are_the_best_in_reach(
    cur: VideoPlane<u8>,
    refp: VideoPlane<u8>,
    s: SrsV2EncodeSettings,
    cols: int,
    i: int,
    x: int,
    y: int,
)
    requires
        refp.valid(),
        0 < cols,
        0 <= i,
        s.early_exit_sad_threshold == 0,
        magnitude(x) <= s.motion_search_radius,
        magnitude(y) <= s.motion_search_radius,
        s.motion_search_radius <= 64,
    ensures
        ({
            let (ox, oy) = (i % cols * 16, i / cols * 16);
            let v = mb_vector(cur, refp, s, cols, i);
            let reached = qpel_sad(cur, refp, ox, oy, v.0, v.1);
            &&& reached <= rect_sad(cur, refp, ox, oy, 16, 16, 0, 0)
            &&& searches_everything(s) ==> reached <= rect_sad(cur, refp, ox, oy, 16, 16, x, y)
        }),
{
    let (ox, oy) = (i % cols * 16, i / cols * 16);
    lemma_best_in_reach(cur, refp, s, ox, oy, super::p_frame_codec::refinement(s), x, y);
}

proof fn lemma_best_in_reach(
    cur: VideoPlane<u8>,
    refp: VideoPlane<u8>,
    s: SrsV2EncodeSettings,
    ox: int,
    oy: int,
    radius: int,
    x: int,
    y: int,
)
    requires
        refp.valid(),
        0 <= radius <= 2,
        s.early_exit_sad_threshold == 0,
        magnitude(x) <= s.motion_search_radius <= 64,
        magnitude(y) <= s.motion_search_radius,
    ensures
        ({
            let cost = rect_cost(cur, refp, ox, oy, 16, 16);
            let f = super::motion_search::search(
                s.motion_search_mode,
                cost,
                s.search_radius(),
                0,
            );
            let q = super::subpel::refined(cur, refp, ox, oy, f.mvx, f.mvy, radius);
            let reached = qpel_sad(cur, refp, ox, oy, q.x, q.y);
            &&& reached <= rect_sad(cur, refp, ox, oy, 16, 16, 0, 0)
            &&& searches_everything(s) ==> reached <= rect_sad(cur, refp, ox, oy, 16, 16, x, y)
        }),
{
    let cost = rect_cost(cur, refp, ox, oy, 16, 16);
    let r = s.search_radius();
    lemma_costs_fit(cur, refp, ox, oy);
    searches_never_lose_to_rest(s.motion_search_mode, cost, r, 0);
    if searches_everything(s) {
        exhaustive_search_finds_the_least(cost, r, x, y);
    }
    let f = super::motion_search::search(s.motion_search_mode, cost, r, 0);
    searches_measure_the_prediction(cur, refp, ox, oy, f.mvx, f.mvy);
    refinement_never_loses(cur, refp, ox, oy, f.mvx, f.mvy, radius, 0, 0);
    assert(cost(x, y) == rect_sad(cur, refp, ox, oy, 16, 16, x, y));
    assert(cost(0, 0) == rect_sad(cur, refp, ox, oy, 16, 16, 0, 0));
}

/// Each reference of a bidirectional macroblock has a vector of its own, which predicts it from
/// that reference at least as well as not moving, and after an exhaustive search at least as well
/// as every whole-pel vector within the search radius. Where no search is asked for, nothing
/// moves.
pub proof fn each_reference_has_its_own_vector(
    s: SrsV2EncodeSettings,
    cur: VideoPlane<u8>,
    a: VideoPlane<u8>,
    b: VideoPlane<u8>,
    mbx: int,
    mby: int,
    lambda: int,
    x: int,
    y: int,
)
    requires
        a.valid(),
        b.valid(),
        s.early_exit_sad_threshold == 0,
        magnitude(x) <= s.motion_search_radius <= 64,
        magnitude(y) <= s.motion_search_radius,
    ensures
        ({
            let c = b_choice(s, cur, a, b, mbx, mby, lambda);
            let (ox, oy) = (16 * mbx, 16 * mby);
            let ra = qpel_sad(cur, a, ox, oy, c.mv_aqx as int, c.mv_aqy as int);
            let rb = qpel_sad(cur, b, ox, oy, c.mv_bqx as int, c.mv_bqy as int);
            &&& b_searches(s) ==> ra <= rect_sad(cur, a, ox, oy, 16, 16, 0, 0) && rb <= rect_sad(
                cur,
                b,
                ox,
                oy,
                16,
                16,
                0,
                0,
            )
            &&& b_searches(s) && searches_everything(s) ==> ra <= rect_sad(
                cur,
                a,
                ox,
                oy,
                16,
                16,
                x,
                y,
            ) && rb <= rect_sad(cur, b, ox, oy, 16, 16, x, y)
            &&& !b_searches(s) ==> c.mv_aqx == 0 && c.mv_aqy == 0 && c.mv_bqx == 0 && c.mv_bqy == 0
        }),
{
    let (ox, oy) = (mbx * 16, mby * 16);
    let radius = super::b_choose::b_radius(s);
    lemma_vector_small(s, cur, a, mbx, mby);
    lemma_vector_small(s, cur, b, mbx, mby);
    lemma_best_in_reach(cur, a, s, ox, oy, radius, x, y);
    lemma_best_in_reach(cur, b, s, ox, oy, radius, x, y);
    refinement_never_loses(cur, a, ox, oy, 0, 0, 0, 0, 0);
    refinement_never_loses(cur, b, ox, oy, 0, 0, 0, 0, 0);
}

proof fn lemma_vector_small(
    s: SrsV2EncodeSettings,
    cur: VideoPlane<u8>,
    refp: VideoPlane<u8>,
    mbx: int,
    mby: int,
)
    requires
        refp.valid(),
    ensures
        magnitude(b_vector(s, cur, refp, mbx, mby).0) <= 1024,
        magnitude(b_vector(s, cur, refp, mbx, mby).1) <= 1024,
{
    let (ox, oy) = (mbx * 16, mby * 16);
    let cost = rect_cost(cur, refp, ox, oy, 16, 16);
    let radius = super::b_choose::b_radius(s);
    lemma_costs_fit(cur, refp, ox, oy);
    searches_never_lose_to_rest(
        s.motion_search_mode,
        cost,
        s.search_radius(),
        s.early_exit_sad_threshold as int,
    );
    let f = super::b_choose::b_search(s, cur, refp, mbx, mby);
    super::subpel::refinement_stays_close(
        |mx: int, my: int| qpel_sad(cur, refp, ox, oy, mx, my),
        f.mvx,
        f.mvy,
        radius,
        8 * radius,
    );
}

proof fn lemma_sad_small(
    mb: InterMb,
    cur: VideoPlane<u8>,
    a: VideoPlane<u8>,
    b: VideoPlane<u8>,
    ox: int,
    oy: int,
)
    requires
        mb.wf(),
    ensures
        0 <= mb_sad(mb, cur, a, b, ox, oy) <= 65280,
{
    let f = |i: int| mb_term(mb, cur, a, b, ox, oy, i);
    assert forall|i: int| 0 <= i < 256 implies 0 <= #[trigger] f(i) <= 255 by {
        let (x, y) = (ox + i % 16, oy + i / 16);
        lemma_qpel_range(a, x, y, mb.mv_aqx as int, mb.mv_aqy as int);
        lemma_qpel_range(b, x, y, mb.mv_bqx as int, mb.mv_bqy as int);
        lemma_blend_range(
            mb,
            qpel_sample(a, x, y, mb.mv_aqx as int, mb.mv_aqy as int),
            qpel_sample(b, x, y, mb.mv_bqx as int, mb.mv_bqy as int),
        );
    }
    lemma_total_bound(256, f, 255);
}

/// Without rate estimates no other blend of the same two vectors predicts a macroblock better than
/// the one it is coded with: neither reference alone, nor their average, nor, where weights are
/// allowed, any of the weight pairs.
pub proof fn chosen_blend_is_closest(
    s: SrsV2EncodeSettings,
    cur: VideoPlane<u8>,
    a: VideoPlane<u8>,
    b: VideoPlane<u8>,
    mbx: int,
    mby: int,
    lambda: int,
    other: InterMb,
    w: int,
)
    requires
        a.valid(),
        b.valid(),
        s.rdo_mode != SrsV2RdoMode::Fast,
        0 <= w < 5,
        ({
            let c = b_choice(s, cur, a, b, mbx, mby, lambda);
            &&& other.mv_aqx == c.mv_aqx && other.mv_aqy == c.mv_aqy
            &&& other.mv_bqx == c.mv_bqx && other.mv_bqy == c.mv_bqy
        }),
        other.blend == BBlendModeWire::Weighted ==> s.b_weighted_prediction && other.weight_a
            == B_WEIGHTED_PRED_CANDIDATES@[w].0 && other.weight_b == B_WEIGHTED_PRED_CANDIDATES@[w].1,
    ensures
        ({
            let mine = b_choice(s, cur, a, b, mbx, mby, lambda).prediction();
            mb_sad(mine, cur, a, b, 16 * mbx, 16 * mby) <= mb_sad(
                other,
                cur,
                a,
                b,
                16 * mbx,
                16 * mby,
            )
        }),
{
    let va = b_vector(s, cur, a, mbx, mby);
    let vb = b_vector(s, cur, b, mbx, mby);
    lemma_vector_small(s, cur, a, mbx, mby);
    lemma_vector_small(s, cur, b, mbx, mby);
    let costs = b_costs(cur, a, b, mbx, mby, va, vb, s.b_weighted_prediction);
    let (ox, oy) = (mbx * 16, mby * 16);
    let k = match other.blend {
        BBlendModeWire::ForwardOnly => 0int,
        BBlendModeWire::BackwardOnly => 1,
        BBlendModeWire::Average => 2,
        BBlendModeWire::Weighted => 3 + w,
    };
    assert forall|j: int| 0 <= j < costs.len() implies #[trigger] costs[j] == mb_sad(
        b_candidate(va, vb, j),
        cur,
        a,
        b,
        ox,
        oy,
    ) by {
        if j >= 3 {
            weight_pairs_fill_the_scale(j - 3);
        }
        lemma_sad_small(b_candidate(va, vb, j), cur, a, b, ox, oy);
    }
    plain_pick_is_least(costs, k);
    let pick = super::b_choose::plain_pick(costs);
    assert(costs[pick] <= costs[k]);
    let mine = b_choice(s, cur, a, b, mbx, mby, lambda).prediction();
    assert(mine == b_candidate(va, vb, pick));
    let cand = b_candidate(va, vb, k);
    if other.blend != BBlendModeWire::Weighted {
        lemma_weights_do_not_matter(cand, other, cur, a, b, ox, oy);
    } else {
        assert(cand == other);
    }
}

proof fn lemma_weights_do_not_matter(
    m: InterMb,
    n: InterMb,
    cur: VideoPlane<u8>,
    a: VideoPlane<u8>,
    b: VideoPlane<u8>,
    ox: int,
    oy: int,
)
    requires
        m.blend == n.blend,
        m.blend != BBlendModeWire::Weighted,
        m.mv_aqx == n.mv_aqx && m.mv_aqy == n.mv_aqy,
        m.mv_bqx == n.mv_bqx && m.mv_bqy == n.mv_bqy,
    ensures
        mb_sad(m, cur, a, b, ox, oy) == mb_sad(n, cur, a, b, ox, oy),
{
    let f = |i: int| mb_term(m, cur, a, b, ox, oy, i);
    let g = |i: int| mb_term(n, cur, a, b, ox, oy, i);
    assert(forall|i: int| 0 <= i < 256 ==> #[trigger] f(i) == g(i));
    crate::arith::lemma_total_equal(256, f, g);
}

/// The weights of a pair sum to 256, and no two pairs are the same.
pub proof fn weight_pairs_fill_the_scale(w: int)
    requires
        0 <= w < 5,
    ensures
        B_WEIGHTED_PRED_CANDIDATES@[w].0 + B_WEIGHTED_PRED_CANDIDATES@[w].1 == 256,
        forall|v: int|
            0 <= v < 5 && v != w ==> (#[trigger] B_WEIGHTED_PRED_CANDIDATES@[v]).0
                != B_WEIGHTED_PRED_CANDIDATES@[w].0,
{
}

/// What a blend scores where costs count: its difference and, at the rate of the factor, 8 for the
/// blend, 72 more for weights and 40 more where a vector was refined.
pub proof fn weights_and_refinement_are_charged(
    costs: Seq<u32>,
    f: int,
    moved: bool,
    k: int,
)
    requires
        0 <= k < costs.len(),
    ensures
        rdo_cost(costs, 256 * f, moved, k) == costs[k] + 8 * f + (if k >= 3 {
            72 * f
        } else {
            0
        }) + (if moved {
            40 * f
        } else {
            0
        }),
{
    let n = 8 + (if k >= 3 { 72int } else { 0 }) + (if moved { 40int } else { 0 });
    assert(256 * f * n == 256 * (n * f)) by (nonlinear_arith);
    assert(n == 8 ==> n * f == 8 * f);
    assert(n == 48 ==> n * f == 48 * f);
    assert(n == 80 ==> n * f == 80 * f);
    assert(n == 120 ==> n * f == 120 * f);
    let m = n * f;
    assert(tdiv(256 * m, 256) == m);
}

} // verus!
