//! What motion searches find.
use vstd::prelude::*;

use crate::arith::{lemma_total_constant, lemma_total_equal, lemma_total_holds_each, magnitude};

use super::frame::{VideoPlane, lemma_packed_at, lemma_packed_position};
use super::inter_frame::mb_sad;
use super::motion_search::{
    Found, Square, descend_from, descent, diamond_dirs, hex_dirs, lemma_scan_untouched, pass,
    rect_cost, rect_fits, rect_sad, rect_search, rect_term, scan, scan_best, scan_cut, scan_length,
    scan_picks_the_first_least, scan_stops_at, search, two_level_search,
};
use super::p_frame_codec::forward_mb;
use super::rate_control::SrsV2MotionSearchMode;
use super::subpel::{qpel_sad, refined, ring_best, ring_offset, whole_pel_needs_no_interpolation};

verus! {

/// Every displacement has a cost that fits 32 bits.
pub open spec fn costs_fit(cost: spec_fn(int, int) -> int) -> bool {
    forall|x: int, y: int| 0 <= #[trigger] cost(x, y) < u32::MAX
}

/// A search found a vector of its window, and its cost.
pub open spec fn holds(cost: spec_fn(int, int) -> int, f: Found, r: int) -> bool {
    &&& magnitude(f.mvx) <= r
    &&& magnitude(f.mvy) <= r
    &&& f.sad == cost(f.mvx, f.mvy)
}

proof fn lemma_scan_end(
    cost: spec_fn(int, int) -> int,
    sq: Square,
    start: (int, int),
    early: int,
    m: int,
)
    requires
        0 <= m <= sq.side() * sq.side(),
    ensures
        ({
            let n = scan_length(cost, sq, start, early, m);
            &&& m <= n <= sq.side() * sq.side()
            &&& n == sq.side() * sq.side() || (n > m && scan_stops_at(cost, sq, start, early, n - 1))
        }),
    decreases sq.side() * sq.side() - m,
{
    if m < sq.side() * sq.side() && !scan_stops_at(cost, sq, start, early, m) {
        lemma_scan_end(cost, sq, start, early, m + 1);
    }
}

/// The place of a displacement in the order of a square.
proof fn lemma_place(sq: Square, i: int, j: int) -> (k: int)
    requires
        magnitude(i) <= sq.reach,
        magnitude(j) <= sq.reach,
    ensures
        0 <= k < sq.side() * sq.side(),
        sq.mvx(k) == sq.cx + sq.step * i,
        sq.mvy(k) == sq.cy + sq.step * j,
{
    lemma_packed_at(j + sq.reach, i + sq.reach, sq.side(), sq.side());
    let k = (i + sq.reach) * sq.side() + (j + sq.reach);
    assert(k / sq.side() - sq.reach == i);
    assert(k % sq.side() - sq.reach == j);
    k
}

/// A scan gives a vector of the window with its cost, and none of the square costs less unless
/// the scan was ended early.
proof fn lemma_scan(
    cost: spec_fn(int, int) -> int,
    sq: Square,
    start: (int, int),
    early: int,
    i: int,
    j: int,
)
    requires
        costs_fit(cost),
        magnitude(sq.cx) <= sq.window,
        magnitude(sq.cy) <= sq.window,
        0 <= sq.reach,
        magnitude(i) <= sq.reach,
        magnitude(j) <= sq.reach,
        magnitude(sq.cx + sq.step * i) <= sq.window,
        magnitude(sq.cy + sq.step * j) <= sq.window,
    ensures
        ({
            let f = scan(cost, sq, start, early);
            &&& holds(cost, f, sq.window)
            &&& f.sad <= cost(sq.cx + sq.step * i, sq.cy + sq.step * j) || (early > 0 && f.sad
                <= early && scan_cut(cost, sq, start, early))
        }),
{
    let k = lemma_place(sq, i, j);
    assert(sq.inside(k));
    let n = scan_length(cost, sq, start, early, 0);
    assert(0 <= sq.side() * sq.side()) by (nonlinear_arith);
    lemma_scan_end(cost, sq, start, early, 0);
    lemma_scan_untouched(cost, sq, start, n);
    if n == sq.side() * sq.side() {
        assert(scan_best(cost, sq, start, n).sad <= cost(sq.mvx(k), sq.mvy(k)));
    } else {
        assert(sq.inside(n - 1));
        assert(scan_best(cost, sq, start, n).sad <= cost(sq.mvx(n - 1), sq.mvy(n - 1)));
    }
    let c = scan_picks_the_first_least(cost, sq, start, n);
    assert(sq.inside(c));
}

proof fn lemma_pass(
    cost: spec_fn(int, int) -> int,
    dirs: Seq<(i32, i32)>,
    r: int,
    early: int,
    at: Found,
    d: int,
)
    requires
        holds(cost, at, r),
        0 <= d,
    ensures
        ({
            let f = pass(cost, dirs, r, early, at, d);
            &&& holds(cost, f, r)
            &&& f.sad <= at.sad
            &&& f.sad == at.sad ==> f.mvx == at.mvx && f.mvy == at.mvy && forall|k: int|
                d <= k < dirs.len() && magnitude(at.mvx + (#[trigger] dirs[k]).0) <= r && magnitude(
                    at.mvy + dirs[k].1,
                ) <= r ==> cost(at.mvx + dirs[k].0, at.mvy + dirs[k].1) >= at.sad
        }),
    decreases dirs.len() - d,
{
    if d < dirs.len() {
        let nx = at.mvx + dirs[d].0;
        let ny = at.mvy + dirs[d].1;
        if magnitude(nx) > r || magnitude(ny) > r {
            lemma_pass(cost, dirs, r, early, at, d + 1);
        } else if cost(nx, ny) < at.sad {
            let next = Found { mvx: nx, mvy: ny, sad: cost(nx, ny), evals: at.evals + 1 };
            lemma_pass(cost, dirs, r, early, next, d + 1);
        } else {
            lemma_pass(cost, dirs, r, early, Found { evals: at.evals + 1, ..at }, d + 1);
        }
    }
}

proof fn lemma_descend(
    cost: spec_fn(int, int) -> int,
    dirs: Seq<(i32, i32)>,
    r: int,
    early: int,
    at: Found,
    k: int,
)
    requires
        costs_fit(cost),
        holds(cost, at, r),
        0 <= k < dirs.len(),
    ensures
        ({
            let f = descend_from(cost, dirs, r, early, at);
            let (nx, ny) = (f.mvx + dirs[k].0, f.mvy + dirs[k].1);
            &&& holds(cost, f, r)
            &&& f.sad <= at.sad
            &&& early <= 0 && magnitude(nx) <= r && magnitude(ny) <= r ==> cost(nx, ny) >= f.sad
        }),
    decreases at.sad,
{
    let next = pass(cost, dirs, r, early, at, 0);
    lemma_pass(cost, dirs, r, early, at, 0);
    if 0 <= next.sad < at.sad && !(early > 0 && next.sad <= early) {
        lemma_descend(cost, dirs, r, early, next, k);
    }
}

/// Whatever the mode, a search gives a vector of its window together with its cost, and never one
/// that costs more than not moving at all, unless the cost is already within the threshold for an
/// early end.
pub proof fn searches_never_lose_to_rest(
    mode: SrsV2MotionSearchMode,
    cost: spec_fn(int, int) -> int,
    radius: int,
    early: int,
)
    requires
        costs_fit(cost),
        0 <= radius,
    ensures
        ({
            let f = search(mode, cost, radius, early);
            let g = rect_search(mode, cost, radius, early);
            &&& magnitude(f.mvx) <= radius
            &&& magnitude(f.mvy) <= radius
            &&& f.sad == cost(f.mvx, f.mvy)
            &&& f.sad <= cost(0, 0) || (early > 0 && f.sad <= early)
            &&& magnitude(g.mvx) <= radius
            &&& magnitude(g.mvy) <= radius
            &&& g.sad == cost(g.mvx, g.mvy)
            &&& g.sad <= cost(0, 0) || (early > 0 && g.sad <= early)
        }),
{
    let r = super::motion_search::usable_radius(radius);
    lemma_scan(cost, Square { cx: 0, cy: 0, step: 1, reach: r, window: r }, (0, 0), early, 0, 0);
    let start = Found { mvx: 0, mvy: 0, sad: cost(0, 0), evals: 1 };
    lemma_descend(cost, diamond_dirs(), r, early, start, 0);
    lemma_descend(cost, hex_dirs(), r, early, start, 0);
    lemma_two_levels(cost, r, early, 0, 0);
}

proof fn lemma_two_levels(cost: spec_fn(int, int) -> int, r: int, early: int, i: int, j: int)
    requires
        costs_fit(cost),
        0 <= r,
        magnitude(i) <= r / 2,
        magnitude(j) <= r / 2,
    ensures
        ({
            let f = two_level_search(cost, r, early);
            &&& holds(cost, f, r)
            &&& f.sad <= cost(2 * i, 2 * j) || (early > 0 && f.sad <= early)
        }),
{
    if r <= 2 {
        let sq = Square { cx: 0, cy: 0, step: 1, reach: r, window: r };
        lemma_scan(cost, sq, (0, 0), early, 2 * i, 2 * j);
    } else {
        let coarse = Square { cx: 0, cy: 0, step: 2, reach: r / 2, window: r };
        lemma_scan(cost, coarse, (0, 0), early, i, j);
        let a = scan(cost, coarse, (0, 0), early);
        if !scan_cut(cost, coarse, (0, 0), early) {
            let fine = Square { cx: a.mvx, cy: a.mvy, step: 1, reach: 2, window: r };
            lemma_scan(cost, fine, (a.mvx, a.mvy), early, 0, 0);
        }
    }
}

/// An exhaustive search without an early end finds the least cost of its whole window; so an exact
/// match within reach is always found.
pub proof fn exhaustive_search_finds_the_least(
    cost: spec_fn(int, int) -> int,
    radius: int,
    x: int,
    y: int,
)
    requires
        costs_fit(cost),
        0 <= radius <= 256,
        magnitude(x) <= radius,
        magnitude(y) <= radius,
    ensures
        search(SrsV2MotionSearchMode::ExhaustiveSmall, cost, radius, 0).sad <= cost(x, y),
        rect_search(SrsV2MotionSearchMode::Hex, cost, radius, 0).sad <= cost(x, y),
{
    let sq = Square { cx: 0, cy: 0, step: 1, reach: radius, window: radius };
    lemma_scan(cost, sq, (0, 0), 0, x, y);
}

/// A two-level search without an early end loses to no vector of even components in its window.
pub proof fn two_level_search_covers_the_window(
    cost: spec_fn(int, int) -> int,
    radius: int,
    i: int,
    j: int,
)
    requires
        costs_fit(cost),
        0 <= radius <= 256,
        magnitude(2 * i) <= radius,
        magnitude(2 * j) <= radius,
    ensures
        search(SrsV2MotionSearchMode::Hierarchical, cost, radius, 0).sad <= cost(2 * i, 2 * j),
{
    lemma_two_levels(cost, radius, 0, i, j);
}

/// Without an early end, a diamond search ends where none of the four neighbours in the window
/// costs less, and a hexagon search where none of the eight does.
pub proof fn descents_end_at_a_local_least(
    cost: spec_fn(int, int) -> int,
    radius: int,
    dx: int,
    dy: int,
)
    requires
        costs_fit(cost),
        0 <= radius <= 256,
        magnitude(dx) <= 1,
        magnitude(dy) <= 1,
    ensures
        ({
            let f = search(SrsV2MotionSearchMode::Diamond, cost, radius, 0);
            (dx == 0 || dy == 0) && magnitude(f.mvx + dx) <= radius && magnitude(f.mvy + dy)
                <= radius ==> f.sad <= cost(f.mvx + dx, f.mvy + dy)
        }),
        ({
            let f = search(SrsV2MotionSearchMode::Hex, cost, radius, 0);
            magnitude(f.mvx + dx) <= radius && magnitude(f.mvy + dy) <= radius ==> f.sad <= cost(
                f.mvx + dx,
                f.mvy + dy,
            )
        }),
{
    let start = Found { mvx: 0, mvy: 0, sad: cost(0, 0), evals: 1 };
    lemma_descend(cost, diamond_dirs(), radius, 0, start, 0);
    lemma_descend(cost, diamond_dirs(), radius, 0, start, 1);
    lemma_descend(cost, diamond_dirs(), radius, 0, start, 2);
    lemma_descend(cost, diamond_dirs(), radius, 0, start, 3);
    lemma_descend(cost, hex_dirs(), radius, 0, start, 0);
    lemma_descend(cost, hex_dirs(), radius, 0, start, 1);
    lemma_descend(cost, hex_dirs(), radius, 0, start, 2);
    lemma_descend(cost, hex_dirs(), radius, 0, start, 3);
    lemma_descend(cost, hex_dirs(), radius, 0, start, 4);
    lemma_descend(cost, hex_dirs(), radius, 0, start, 5);
    lemma_descend(cost, hex_dirs(), radius, 0, start, 6);
    lemma_descend(cost, hex_dirs(), radius, 0, start, 7);
}

/// The cost of a displacement is what the prediction by that vector misses: it is the summed
/// difference between a macroblock and its prediction by four times the vector in quarter pels.
pub proof fn searches_measure_the_prediction(
    cur: VideoPlane<u8>,
    refp: VideoPlane<u8>,
    ox: int,
    oy: int,
    mx: int,
    my: int,
)
    requires
        refp.valid(),
        magnitude(mx) <= 256,
        magnitude(my) <= 256,
    ensures
        rect_cost(cur, refp, ox, oy, 16, 16)(mx, my) == mb_sad(
            forward_mb(4 * mx, 4 * my),
            cur,
            refp,
            refp,
            ox,
            oy,
        ),
        rect_cost(cur, refp, ox, oy, 16, 16)(mx, my) == qpel_sad(cur, refp, ox, oy, 4 * mx, 4 * my),
{
    let mb = forward_mb(4 * mx, 4 * my);
    let f = |i: int| rect_term(cur, refp, ox, oy, 16, mx, my, i);
    let g = |i: int| super::inter_frame::mb_term(mb, cur, refp, refp, ox, oy, i);
    let h = |i: int| super::subpel::qpel_term(cur, refp, ox, oy, 4 * mx, 4 * my, i);
    assert forall|i: int| 0 <= i < 256 implies #[trigger] f(i) == g(i) by {
        whole_pel_needs_no_interpolation(refp, ox + i % 16, oy + i / 16, 4 * mx, 4 * my);
    }
    assert forall|i: int| 0 <= i < 256 implies #[trigger] f(i) == h(i) by {
        whole_pel_needs_no_interpolation(refp, ox + i % 16, oy + i / 16, 4 * mx, 4 * my);
    }
    lemma_total_equal(256, f, g);
    lemma_total_equal(256, f, h);
}

/// A displacement costs nothing only where every sample of the rectangle is the reference sample
/// that lies the vector further on, and no single difference exceeds the cost.
pub proof fn cost_bounds_every_difference(
    cur: VideoPlane<u8>,
    refp: VideoPlane<u8>,
    ox: int,
    oy: int,
    w: int,
    h: int,
    mx: int,
    my: int,
    x: int,
    y: int,
)
    requires
        rect_fits(cur, refp, ox, oy, w, h),
        ox <= x < ox + w,
        oy <= y < oy + h,
        0 <= x + mx < refp.width,
        0 <= y + my < refp.height,
    ensures
        magnitude(cur.at(x, y) - refp.at(x + mx, y + my)) <= rect_sad(
            cur,
            refp,
            ox,
            oy,
            w,
            h,
            mx,
            my,
        ),
{
    let f = |i: int| rect_term(cur, refp, ox, oy, w, mx, my, i);
    lemma_packed_at(x - ox, y - oy, w, h);
    lemma_total_holds_each(w * h, f, (y - oy) * w + (x - ox));
}

/// Where a rectangle is an exact copy of the reference the vector further on, that costs nothing.
pub proof fn copies_cost_nothing(
    cur: VideoPlane<u8>,
    refp: VideoPlane<u8>,
    ox: int,
    oy: int,
    w: int,
    h: int,
    mx: int,
    my: int,
)
    requires
        rect_fits(cur, refp, ox, oy, w, h),
        0 <= ox + mx,
        0 <= oy + my,
        ox + w + mx <= refp.width,
        oy + h + my <= refp.height,
        forall|x: int, y: int|
            ox <= x < ox + w && oy <= y < oy + h ==> #[trigger] cur.at(x, y) == refp.at(
                x + mx,
                y + my,
            ),
    ensures
        rect_sad(cur, refp, ox, oy, w, h, mx, my) == 0,
{
    let f = |i: int| rect_term(cur, refp, ox, oy, w, mx, my, i);
    assert forall|i: int| 0 <= i < w * h implies #[trigger] f(i) == 0 by {
        lemma_packed_position(i, w, h);
        assert(cur.at(ox + i % w, oy + i / w) == refp.at(ox + i % w + mx, oy + i / w + my));
    }
    assert(0 <= w * h) by (nonlinear_arith)
        requires
            0 < w,
            0 < h,
    ;
    lemma_total_constant(w * h, f, 0);
}

proof fn lemma_ring(cost: spec_fn(int, int) -> int, cx: int, cy: int, n: int, k: int)
    requires
        0 <= k <= n,
    ensures
        ({
            let b = ring_best(cost, cx, cy, n);
            &&& b.sad == cost(b.x, b.y)
            &&& b.sad <= cost(cx, cy)
            &&& k > 0 ==> b.sad <= cost(
                cx + ring_offset((k - 1) / 8 + 1, (k - 1) % 8).0,
                cy + ring_offset((k - 1) / 8 + 1, (k - 1) % 8).1,
            )
        }),
    decreases n,
{
    if n > 0 {
        lemma_ring(cost, cx, cy, n - 1, if k < n { k } else { 0 });
    }
}

/// Refinement never loses to the vector that it started from, nor to any of the eight half-pel
/// neighbours of it; with radius 2 nor to any of the eight whole-pel ones.
pub proof fn refinement_never_loses(
    cur: VideoPlane<u8>,
    refp: VideoPlane<u8>,
    ox: int,
    oy: int,
    ix: int,
    iy: int,
    radius: int,
    dx: int,
    dy: int,
)
    requires
        0 <= radius <= 2,
        magnitude(dx) <= 1,
        magnitude(dy) <= 1,
    ensures
        ({
            let q = refined(cur, refp, ox, oy, ix, iy, radius);
            let cost = |x: int, y: int| qpel_sad(cur, refp, ox, oy, x, y);
            &&& q.sad == cost(q.x, q.y)
            &&& q.sad <= cost(4 * ix, 4 * iy)
            &&& radius == 0 ==> q.x == 4 * ix && q.y == 4 * iy
            &&& radius >= 1 ==> q.sad <= cost(4 * ix + 2 * dx, 4 * iy + 2 * dy)
            &&& radius >= 2 ==> q.sad <= cost(4 * ix + 4 * dx, 4 * iy + 4 * dy)
        }),
{
    let cost = |x: int, y: int| qpel_sad(cur, refp, ox, oy, x, y);
    let place = (dy + 1) * 3 + (dx + 1);
    lemma_ring(cost, 4 * ix, 4 * iy, 8 * radius, 0);
    if place != 4 {
        let k = if place < 4 { place } else { place - 1 };
        assert(place % 3 == dx + 1 && place / 3 == dy + 1);
        if radius >= 1 {
            lemma_ring(cost, 4 * ix, 4 * iy, 8 * radius, k + 1);
            assert(ring_offset(1, k) == (2 * dx, 2 * dy));
        }
        if radius >= 2 {
            lemma_ring(cost, 4 * ix, 4 * iy, 8 * radius, k + 9);
            assert(ring_offset(2, k) == (4 * dx, 4 * dy));
        }
    }
}

proof fn lemma_counted(cost: spec_fn(int, int) -> int, sq: Square, start: (int, int), n: int)
    requires
        sq.cx == 0,
        sq.cy == 0,
        sq.step == 1,
        0 <= sq.reach == sq.window,
        0 <= n <= sq.side() * sq.side(),
    ensures
        scan_best(cost, sq, start, n).evals == n,
    decreases n,
{
    if n > 0 {
        lemma_counted(cost, sq, start, n - 1);
        let m = sq.side();
        assert(0 <= (n - 1) / m < m && 0 <= (n - 1) % m < m) by (nonlinear_arith)
            requires
                0 <= n - 1 < m * m,
                1 <= m,
        ;
        assert(sq.inside(n - 1));
    }
}

/// An exhaustive search without an early end compares every vector of its window, once each.
pub proof fn exhaustive_search_compares_every_vector(cost: spec_fn(int, int) -> int, radius: int)
    requires
        costs_fit(cost),
        0 <= radius <= 256,
    ensures
        search(SrsV2MotionSearchMode::ExhaustiveSmall, cost, radius, 0).evals == (2 * radius + 1)
            * (2 * radius + 1),
{
    let sq = Square { cx: 0, cy: 0, step: 1, reach: radius, window: radius };
    assert(0 <= sq.side() * sq.side()) by (nonlinear_arith);
    lemma_scan_end(cost, sq, (0, 0), 0, 0);
    lemma_counted(cost, sq, (0, 0), sq.side() * sq.side());
}

/// A search ends with the first vector within its threshold: that is the corner where a scan starts,
/// and no motion where a descent starts. Without a threshold nothing ends it.
pub proof fn good_matches_end_a_search(
    cost: spec_fn(int, int) -> int,
    radius: int,
    early: int,
)
    requires
        costs_fit(cost),
        0 <= radius <= 256,
        0 < early,
    ensures
        ({
            let f = search(SrsV2MotionSearchMode::ExhaustiveSmall, cost, radius, early);
            cost(-radius, -radius) <= early ==> f.mvx == -radius && f.mvy == -radius && f.evals == 1
        }),
        ({
            let f = search(SrsV2MotionSearchMode::Hierarchical, cost, radius, early);
            let r = radius / 2 * 2;
            radius > 2 && cost(-r, -r) <= early ==> f.mvx == -r && f.mvy == -r && f.evals == 1
        }),
        ({
            let f = search(SrsV2MotionSearchMode::Diamond, cost, radius, early);
            cost(0, 0) <= early ==> f.mvx == 0 && f.mvy == 0 && f.evals == 1
        }),
        ({
            let f = search(SrsV2MotionSearchMode::Hex, cost, radius, early);
            cost(0, 0) <= early ==> f.mvx == 0 && f.mvy == 0 && f.evals == 1
        }),
        ({
            let f = search(SrsV2MotionSearchMode::NoSearch, cost, radius, early);
            f.mvx == 0 && f.mvy == 0 && f.sad == cost(0, 0) && f.evals == 1
        }),
{
    let sq = Square { cx: 0, cy: 0, step: 1, reach: radius, window: radius };
    let coarse = Square { cx: 0, cy: 0, step: 2, reach: radius / 2, window: radius };
    if cost(-radius, -radius) <= early {
        lemma_first_ends(cost, sq, early);
    }
    let r = radius / 2 * 2;
    if radius > 2 && cost(-r, -r) <= early {
        lemma_first_ends(cost, coarse, early);
    }
}

proof fn lemma_first_ends(cost: spec_fn(int, int) -> int, sq: Square, early: int)
    requires
        costs_fit(cost),
        sq.cx == 0,
        sq.cy == 0,
        0 <= sq.reach,
        0 < early,
        0 <= sq.step * sq.reach <= sq.window,
        cost(-(sq.step * sq.reach), -(sq.step * sq.reach)) <= early,
    ensures
        ({
            let f = scan(cost, sq, (0, 0), early);
            &&& f.mvx == -(sq.step * sq.reach)
            &&& f.mvy == -(sq.step * sq.reach)
            &&& f.evals == 1
            &&& scan_cut(cost, sq, (0, 0), early)
        }),
{
    let m = sq.side();
    assert(0int / m == 0 && 0int % m == 0 && 1 <= m * m) by (nonlinear_arith)
        requires
            1 <= m,
    ;
    assert(sq.step * (0 - sq.reach) == -(sq.step * sq.reach)) by (nonlinear_arith);
    assert(sq.mvx(0) == -(sq.step * sq.reach) && sq.mvy(0) == -(sq.step * sq.reach));
    assert(sq.inside(0));
    assert(scan_best(cost, sq, (0, 0), 0).evals == 0);
    assert(scan_best(cost, sq, (0, 0), 1).sad == cost(sq.mvx(0), sq.mvy(0)));
    assert(scan_stops_at(cost, sq, (0, 0), early, 0));
    assert(scan_length(cost, sq, (0, 0), early, 0) == 1);
}

} // verus!
