//! Integer-pel motion estimation.
use vstd::prelude::*;

use crate::arith::{magnitude, total};
use crate::bytes::clip;
use super::frame::{lemma_packed_position, VideoPlane};
use super::limits::MAX_MOTION_VECTOR_PELS;
use super::rate_control::SrsV2MotionSearchMode;

verus! {

/// Motion vector byte accounting of one picture.
#[derive(Debug, Clone, Copy)]
pub struct SrsV2InterMvBenchStats {
    pub mv_prediction_mode: &'static str,
    /// Bytes that fixed-width tuples would take.
    pub mv_raw_bytes_estimate: u64,
    /// Bytes of the median-predicted varint deltas.
    pub mv_compact_bytes: u64,
    /// Bytes of the entropy-coded section, or 0.
    pub mv_entropy_section_bytes: u64,
    pub mv_delta_zero_varints: u64,
    pub mv_delta_nonzero_varints: u64,
    pub mv_delta_sum_abs_components: u64,
    /// Bytes before the first residual body.
    pub inter_header_bytes: u64,
    pub residual_payload_bytes: u64,
}

/// Counters with nothing recorded.
pub open spec fn no_vector_bytes() -> SrsV2InterMvBenchStats {
    SrsV2InterMvBenchStats {
        mv_prediction_mode: "",
        mv_raw_bytes_estimate: 0,
        mv_compact_bytes: 0,
        mv_entropy_section_bytes: 0,
        mv_delta_zero_varints: 0,
        mv_delta_nonzero_varints: 0,
        mv_delta_sum_abs_components: 0,
        inter_header_bytes: 0,
        residual_payload_bytes: 0,
    }
}

impl Default for SrsV2InterMvBenchStats {
    fn default() -> (r: Self)
        ensures
            r == no_vector_bytes(),
    {
        SrsV2InterMvBenchStats {
            mv_prediction_mode: "",
            mv_raw_bytes_estimate: 0,
            mv_compact_bytes: 0,
            mv_entropy_section_bytes: 0,
            mv_delta_zero_varints: 0,
            mv_delta_nonzero_varints: 0,
            mv_delta_sum_abs_components: 0,
            inter_header_bytes: 0,
            residual_payload_bytes: 0,
        }
    }
}

/// Partition counters of one picture.
#[derive(Debug, Clone, Copy)]
pub struct SrsV2PartitionEncodeStats {
    pub inter_partition_mode_label: &'static str,
    pub partition_cost_model_label: &'static str,
    pub partition_16x16_count: u64,
    pub partition_16x8_count: u64,
    pub partition_8x16_count: u64,
    pub partition_8x8_count: u64,
    pub transform_4x4_count: u64,
    pub transform_8x8_count: u64,
    pub transform_16x16_count: u64,
    pub partition_header_bytes: u64,
    pub partition_map_bytes: u64,
    pub partition_mv_bytes: u64,
    pub partition_residual_bytes: u64,
    pub rdo_partition_candidates_tested: u64,
    pub partition_rejected_by_header_cost: u64,
    pub partition_rejected_by_rdo: u64,
    pub partition_sad_override_accum: u64,
    pub partition_sad_override_events: u64,
}

/// Counters of rate-distortion decisions.
#[derive(Debug, Clone, Copy)]
pub struct SrsV2RdoBenchStats {
    pub candidates_tested: u64,
    pub skip_decisions: u64,
    pub forward_decisions: u64,
    pub backward_decisions: u64,
    pub average_decisions: u64,
    pub weighted_decisions: u64,
    pub halfpel_decisions: u64,
    pub residual_decisions: u64,
    pub no_residual_decisions: u64,
    pub estimated_bits_used_for_decision: u64,
    pub inter_zero_mv_wins: u64,
    pub inter_me_mv_wins: u64,
}

/// Counters with nothing recorded.
pub open spec fn no_rdo_decisions() -> SrsV2RdoBenchStats {
    SrsV2RdoBenchStats {
        candidates_tested: 0,
        skip_decisions: 0,
        forward_decisions: 0,
        backward_decisions: 0,
        average_decisions: 0,
        weighted_decisions: 0,
        halfpel_decisions: 0,
        residual_decisions: 0,
        no_residual_decisions: 0,
        estimated_bits_used_for_decision: 0,
        inter_zero_mv_wins: 0,
        inter_me_mv_wins: 0,
    }
}

impl Default for SrsV2RdoBenchStats {
    fn default() -> (r: Self)
        ensures
            r == no_rdo_decisions(),
    {
        SrsV2RdoBenchStats {
            candidates_tested: 0,
            skip_decisions: 0,
            forward_decisions: 0,
            backward_decisions: 0,
            average_decisions: 0,
            weighted_decisions: 0,
            halfpel_decisions: 0,
            residual_decisions: 0,
            no_residual_decisions: 0,
            estimated_bits_used_for_decision: 0,
            inter_zero_mv_wins: 0,
            inter_me_mv_wins: 0,
        }
    }
}

impl Default for SrsV2PartitionEncodeStats {
    fn default() -> (r: Self)
        ensures
            r == no_partitions(),
    {
        SrsV2PartitionEncodeStats {
            inter_partition_mode_label: "",
            partition_cost_model_label: "",
            partition_16x16_count: 0,
            partition_16x8_count: 0,
            partition_8x16_count: 0,
            partition_8x8_count: 0,
            transform_4x4_count: 0,
            transform_8x8_count: 0,
            transform_16x16_count: 0,
            partition_header_bytes: 0,
            partition_map_bytes: 0,
            partition_mv_bytes: 0,
            partition_residual_bytes: 0,
            rdo_partition_candidates_tested: 0,
            partition_rejected_by_header_cost: 0,
            partition_rejected_by_rdo: 0,
            partition_sad_override_accum: 0,
            partition_sad_override_events: 0,
        }
    }
}

/// Counters with nothing recorded.
pub open spec fn no_partitions() -> SrsV2PartitionEncodeStats {
    SrsV2PartitionEncodeStats {
        inter_partition_mode_label: "",
        partition_cost_model_label: "",
        partition_16x16_count: 0,
        partition_16x8_count: 0,
        partition_8x16_count: 0,
        partition_8x8_count: 0,
        transform_4x4_count: 0,
        transform_8x8_count: 0,
        transform_16x16_count: 0,
        partition_header_bytes: 0,
        partition_map_bytes: 0,
        partition_mv_bytes: 0,
        partition_residual_bytes: 0,
        rdo_partition_candidates_tested: 0,
        partition_rejected_by_header_cost: 0,
        partition_rejected_by_rdo: 0,
        partition_sad_override_accum: 0,
        partition_sad_override_events: 0,
    }
}

/// Motion counters of one picture.
#[derive(Debug, Clone, Copy)]
pub struct SrsV2MotionEncodeStats {
    pub motion_search_mode: SrsV2MotionSearchMode,
    pub sad_evaluations: u64,
    pub skip_subblocks: u64,
    pub nonzero_motion_macroblocks: u32,
    pub sum_mv_l1: u64,
    pub subpel_enabled: bool,
    pub subpel_blocks_tested: u64,
    pub subpel_blocks_selected: u64,
    pub additional_subpel_evaluations: u64,
    /// Sum of the quarter pels that remain of either vector component.
    pub sum_abs_frac_qpel: u64,
    pub inter_mv: SrsV2InterMvBenchStats,
    pub rdo: SrsV2RdoBenchStats,
    pub partition: SrsV2PartitionEncodeStats,
}

impl Default for SrsV2MotionEncodeStats {
    fn default() -> (r: Self)
        ensures
            r.motion_search_mode == SrsV2MotionSearchMode::ExhaustiveSmall,
            r.sad_evaluations == 0,
            r.skip_subblocks == 0,
            r.nonzero_motion_macroblocks == 0,
            r.sum_mv_l1 == 0,
            !r.subpel_enabled,
            r.subpel_blocks_tested == 0,
            r.subpel_blocks_selected == 0,
            r.additional_subpel_evaluations == 0,
            r.sum_abs_frac_qpel == 0,
            r.inter_mv == no_vector_bytes(),
            r.rdo == no_rdo_decisions(),
            r.partition == no_partitions(),
    {
        SrsV2MotionEncodeStats {
            motion_search_mode: SrsV2MotionSearchMode::ExhaustiveSmall,
            sad_evaluations: 0,
            skip_subblocks: 0,
            nonzero_motion_macroblocks: 0,
            sum_mv_l1: 0,
            subpel_enabled: false,
            subpel_blocks_tested: 0,
            subpel_blocks_selected: 0,
            additional_subpel_evaluations: 0,
            sum_abs_frac_qpel: 0,
            inter_mv: SrsV2InterMvBenchStats::default(),
            rdo: SrsV2RdoBenchStats::default(),
            partition: SrsV2PartitionEncodeStats::default(),
        }
    }
}

/// The sample of a plane, with 128 everywhere outside of it.
pub open spec fn padded(p: VideoPlane<u8>, x: int, y: int) -> int {
    if x < 0 || y < 0 || x >= p.width || y >= p.height {
        128
    } else {
        p.at(x, y) as int
    }
}

/// Reads a sample, with 128 everywhere outside of the plane.
pub fn sample_u8_plane(plane: &VideoPlane<u8>, x: i32, y: i32) -> (v: u8)
    requires
        plane.valid(),
    ensures
        v == padded(*plane, x as int, y as int),
{
    let w: i32 = plane.width as i32;
    let h: i32 = plane.height as i32;
    if x < 0 || y < 0 || x >= w || y >= h {
        return 128;
    }
    plane.get(x as usize, y as usize)
}

/// The absolute difference at position `i` of a rectangle `w` samples wide.
pub open spec fn rect_term(
    cur: VideoPlane<u8>,
    refp: VideoPlane<u8>,
    ox: int,
    oy: int,
    w: int,
    mvx: int,
    mvy: int,
    i: int,
) -> int {
    magnitude(
        cur.at(ox + i % w, oy + i / w) - padded(refp, ox + i % w + mvx, oy + i / w + mvy),
    )
}

/// The sum of absolute differences between a rectangle of `cur` and the rectangle of `refp` that
/// is displaced by a motion vector.
pub open spec fn rect_sad(
    cur: VideoPlane<u8>,
    refp: VideoPlane<u8>,
    ox: int,
    oy: int,
    w: int,
    h: int,
    mvx: int,
    mvy: int,
) -> int {
    total(w * h, |i: int| rect_term(cur, refp, ox, oy, w, mvx, mvy, i))
}

/// The rectangle lies in `cur`, and no sum of differences over it leaves 32 bits.
pub open spec fn rect_fits(
    cur: VideoPlane<u8>,
    refp: VideoPlane<u8>,
    ox: int,
    oy: int,
    w: int,
    h: int,
) -> bool {
    &&& cur.valid()
    &&& refp.valid()
    &&& 0 < w
    &&& 0 < h
    &&& 0 <= ox
    &&& 0 <= oy
    &&& ox + w <= cur.width
    &&& oy + h <= cur.height
    &&& w * h <= 16843009
}

/// Sum of absolute differences over a rectangle.
pub fn sad_rect_integer(
    cur: &VideoPlane<u8>,
    refp: &VideoPlane<u8>,
    org_x: u32,
    org_y: u32,
    w: u32,
    h: u32,
    mvx: i32,
    mvy: i32,
) -> (r: u32)
    requires
        rect_fits(*cur, *refp, org_x as int, org_y as int, w as int, h as int),
        -1000000 <= mvx <= 1000000,
        -1000000 <= mvy <= 1000000,
    ensures
        r == rect_sad(
            *cur,
            *refp,
            org_x as int,
            org_y as int,
            w as int,
            h as int,
            mvx as int,
            mvy as int,
        ),
        r <= 255 * (w * h),
        w * h <= 65536 ==> r <= 16711680,
{
    let n: u32 = w * h;
    let ghost f = |i: int|
        rect_term(*cur, *refp, org_x as int, org_y as int, w as int, mvx as int, mvy as int, i);
    let mut acc: u32 = 0;
    let mut i: u32 = 0;
    while i < n
        invariant
            i <= n,
            n == w * h,
            n <= 16843009,
            rect_fits(*cur, *refp, org_x as int, org_y as int, w as int, h as int),
            -1000000 <= mvx <= 1000000,
            -1000000 <= mvy <= 1000000,
            f == (|i: int|
                rect_term(
                    *cur,
                    *refp,
                    org_x as int,
                    org_y as int,
                    w as int,
                    mvx as int,
                    mvy as int,
                    i,
                )),
            acc == total(i as int, f),
            acc <= i * 255,
        decreases n - i,
    {
        proof {
            lemma_packed_position(i as int, w as int, h as int);
        }
        let lx: u32 = org_x + i % w;
        let ly: u32 = org_y + i / w;
        let cx: u8 = cur.get(lx as usize, ly as usize);
        let pv: u8 = sample_u8_plane(refp, lx as i32 + mvx, ly as i32 + mvy);
        let d: u32 = if cx >= pv { (cx - pv) as u32 } else { (pv - cx) as u32 };
        assert(f(i as int) == d);
        acc = acc + d;
        i += 1;
    }
    acc
}

/// Sum of absolute differences over one macroblock.
pub fn sad_16x16(
    cur: &VideoPlane<u8>,
    refp: &VideoPlane<u8>,
    mb_x: u32,
    mb_y: u32,
    mvx: i32,
    mvy: i32,
) -> (r: u32)
    requires
        rect_fits(*cur, *refp, mb_x * 16, mb_y * 16, 16, 16),
        -1000000 <= mvx <= 1000000,
        -1000000 <= mvy <= 1000000,
    ensures
        r == rect_sad(*cur, *refp, mb_x * 16, mb_y * 16, 16, 16, mvx as int, mvy as int),
        r <= 16711680,
{
    sad_rect_integer(cur, refp, mb_x * 16, mb_y * 16, 16, 16, mvx, mvy)
}

/// A motion vector with its cost, and how many vectors were compared to find it.
pub struct Found {
    pub mvx: int,
    pub mvy: int,
    pub sad: int,
    pub evals: int,
}

/// A square of candidate vectors: `2 * reach + 1` columns by as many rows, `step` apart around a
/// centre; those with a component beyond `window` are passed over.
pub struct Square {
    pub cx: int,
    pub cy: int,
    pub step: int,
    pub reach: int,
    pub window: int,
}

impl Square {
    pub open spec fn side(self) -> int {
        2 * self.reach + 1
    }

    /// Horizontal component of candidate `k`; candidates run down each column in turn.
    pub open spec fn mvx(self, k: int) -> int {
        self.cx + self.step * (k / self.side() - self.reach)
    }

    /// Vertical component of candidate `k`.
    pub open spec fn mvy(self, k: int) -> int {
        self.cy + self.step * (k % self.side() - self.reach)
    }

    pub open spec fn inside(self, k: int) -> bool {
        magnitude(self.mvx(k)) <= self.window && magnitude(self.mvy(k)) <= self.window
    }
}

/// The best of the first `n` candidates of a square; the first of several equal ones, and
/// `start` while nothing was compared.
pub open spec fn scan_best(
    cost: spec_fn(int, int) -> int,
    sq: Square,
    start: (int, int),
    n: int,
) -> Found
    decreases n,
{
    if n <= 0 {
        Found { mvx: start.0, mvy: start.1, sad: u32::MAX as int, evals: 0 }
    } else {
        let b = scan_best(cost, sq, start, n - 1);
        let s = cost(sq.mvx(n - 1), sq.mvy(n - 1));
        if !sq.inside(n - 1) {
            b
        } else if s < b.sad {
            Found { mvx: sq.mvx(n - 1), mvy: sq.mvy(n - 1), sad: s, evals: b.evals + 1 }
        } else {
            Found { evals: b.evals + 1, ..b }
        }
    }
}

/// A compared candidate after which the best cost is at most `early` ends the scan, unless
/// `early` is 0.
pub open spec fn scan_stops_at(
    cost: spec_fn(int, int) -> int,
    sq: Square,
    start: (int, int),
    early: int,
    k: int,
) -> bool {
    early > 0 && sq.inside(k) && scan_best(cost, sq, start, k + 1).sad <= early
}

/// How many candidates a scan takes, counted from `n` on.
pub open spec fn scan_length(
    cost: spec_fn(int, int) -> int,
    sq: Square,
    start: (int, int),
    early: int,
    n: int,
) -> int
    decreases sq.side() * sq.side() - n,
{
    if n >= sq.side() * sq.side() {
        n
    } else if scan_stops_at(cost, sq, start, early, n) {
        n + 1
    } else {
        scan_length(cost, sq, start, early, n + 1)
    }
}

/// Whether a scan ended before the last candidate was reached.
pub open spec fn scan_cut(
    cost: spec_fn(int, int) -> int,
    sq: Square,
    start: (int, int),
    early: int,
) -> bool {
    let n = scan_length(cost, sq, start, early, 0);
    0 < n && scan_stops_at(cost, sq, start, early, n - 1)
}

/// The outcome of a whole scan.
pub open spec fn scan(
    cost: spec_fn(int, int) -> int,
    sq: Square,
    start: (int, int),
    early: int,
) -> Found {
    scan_best(cost, sq, start, scan_length(cost, sq, start, early, 0))
}

/// A scan of `n` candidates that compared any picks one of them, `j`: none of the others costs
/// less, and those before it cost more.
pub proof fn scan_picks_the_first_least(
    cost: spec_fn(int, int) -> int,
    sq: Square,
    start: (int, int),
    n: int,
) -> (j: int)
    requires
        scan_best(cost, sq, start, n).sad < u32::MAX,
    ensures
        0 <= j < n,
        sq.inside(j),
        scan_best(cost, sq, start, n).mvx == sq.mvx(j),
        scan_best(cost, sq, start, n).mvy == sq.mvy(j),
        scan_best(cost, sq, start, n).sad == cost(sq.mvx(j), sq.mvy(j)),
        forall|k: int|
            0 <= k < n && #[trigger] sq.inside(k) ==> cost(sq.mvx(j), sq.mvy(j)) <= cost(
                sq.mvx(k),
                sq.mvy(k),
            ),
        forall|k: int|
            0 <= k < j && #[trigger] sq.inside(k) ==> cost(sq.mvx(j), sq.mvy(j)) < cost(
                sq.mvx(k),
                sq.mvy(k),
            ),
    decreases n,
{
    let b = scan_best(cost, sq, start, n - 1);
    if sq.inside(n - 1) && cost(sq.mvx(n - 1), sq.mvy(n - 1)) < b.sad {
        if b.sad < u32::MAX {
            let i = scan_picks_the_first_least(cost, sq, start, n - 1);
        } else {
            lemma_scan_untouched(cost, sq, start, n - 1);
        }
        n - 1
    } else {
        scan_picks_the_first_least(cost, sq, start, n - 1)
    }
}

/// No candidate that was compared costs less than the best.
pub proof fn lemma_scan_untouched(
    cost: spec_fn(int, int) -> int,
    sq: Square,
    start: (int, int),
    n: int,
)
    ensures
        scan_best(cost, sq, start, n).sad <= u32::MAX,
        forall|k: int|
            0 <= k < n && #[trigger] sq.inside(k) ==> scan_best(cost, sq, start, n).sad <= cost(
                sq.mvx(k),
                sq.mvy(k),
            ),
    decreases n,
{
    if n > 0 {
        lemma_scan_untouched(cost, sq, start, n - 1);
    }
}

/// No search of a rectangle of at most 65536 samples compares more vectors than this.
pub const SEARCH_EVALS_CAP: u64 = 1_000_000_000;

/// A bound on the vectors that a search over a rectangle of `area` samples compares.
pub open spec fn search_cap(area: int) -> int {
    if area <= 65536 {
        SEARCH_EVALS_CAP as int
    } else {
        34359738400
    }
}

/// The cost of every displacement of a rectangle.
pub open spec fn rect_cost(
    cur: VideoPlane<u8>,
    refp: VideoPlane<u8>,
    ox: int,
    oy: int,
    w: int,
    h: int,
) -> spec_fn(int, int) -> int {
    |mx: int, my: int| rect_sad(cur, refp, ox, oy, w, h, mx, my)
}

/// What a search over one rectangle reads.
#[derive(Clone, Copy)]
pub struct RectSearch<'a> {
    pub cur: &'a VideoPlane<u8>,
    pub refp: &'a VideoPlane<u8>,
    pub org_x: u32,
    pub org_y: u32,
    pub w: u32,
    pub h: u32,
    pub early: u32,
}

impl<'a> RectSearch<'a> {
    pub open spec fn fits(self) -> bool {
        rect_fits(
            *self.cur,
            *self.refp,
            self.org_x as int,
            self.org_y as int,
            self.w as int,
            self.h as int,
        )
    }

    pub open spec fn area(self) -> int {
        self.w * self.h
    }

    pub open spec fn cost(self) -> spec_fn(int, int) -> int {
        rect_cost(
            *self.cur,
            *self.refp,
            self.org_x as int,
            self.org_y as int,
            self.w as int,
            self.h as int,
        )
    }

    fn eval(&self, mvx: i32, mvy: i32) -> (r: u32)
        requires
            self.fits(),
            -1000000 <= mvx <= 1000000,
            -1000000 <= mvy <= 1000000,
        ensures
            r == self.cost()(mvx as int, mvy as int),
            r <= 255 * self.area(),
    {
        sad_rect_integer(self.cur, self.refp, self.org_x, self.org_y, self.w, self.h, mvx, mvy)
    }

    /// Compares the candidates of a square in turn. The last component tells whether the scan
    /// was cut short.
    fn scan_square(
        &self,
        cx: i32,
        cy: i32,
        step: i32,
        reach: i32,
        window: i32,
        start: (i32, i32),
    ) -> (r: (i32, i32, u64, bool))
        requires
            self.fits(),
            -1000 <= cx <= 1000,
            -1000 <= cy <= 1000,
            1 <= step <= 2,
            0 <= reach <= 256,
            0 <= window <= 256,
            magnitude(start.0 as int) <= window,
            magnitude(start.1 as int) <= window,
        ensures
            ({
                let sq = Square {
                    cx: cx as int,
                    cy: cy as int,
                    step: step as int,
                    reach: reach as int,
                    window: window as int,
                };
                let at = (start.0 as int, start.1 as int);
                let found = scan(self.cost(), sq, at, self.early as int);
                &&& r.0 == found.mvx
                &&& r.1 == found.mvy
                &&& r.2 == found.evals
                &&& r.3 == scan_cut(self.cost(), sq, at, self.early as int)
            }),
            magnitude(r.0 as int) <= window,
            magnitude(r.1 as int) <= window,
            r.2 <= 1000000,
    {
        let ghost sq = Square {
            cx: cx as int,
            cy: cy as int,
            step: step as int,
            reach: reach as int,
            window: window as int,
        };
        let ghost at = (start.0 as int, start.1 as int);
        let ghost cost = self.cost();
        let side: i32 = 2 * reach + 1;
        assert(0 < side * side <= 513 * 513) by (nonlinear_arith)
            requires
                0 < side <= 513,
        ;
        let n: i32 = side * side;
        let mut best_x: i32 = start.0;
        let mut best_y: i32 = start.1;
        let mut best: u32 = u32::MAX;
        let mut evals: u64 = 0;
        let mut k: i32 = 0;
        while k < n
            invariant
                0 <= k <= n,
                n == side * side,
                side == 2 * reach + 1,
                n <= 513 * 513,
                self.fits(),
                -1000 <= cx <= 1000,
                -1000 <= cy <= 1000,
                1 <= step <= 2,
                0 <= reach <= 256,
                0 <= window <= 256,
                cost == self.cost(),
                at == (start.0 as int, start.1 as int),
                sq == (Square {
                    cx: cx as int,
                    cy: cy as int,
                    step: step as int,
                    reach: reach as int,
                    window: window as int,
                }),
                magnitude(best_x as int) <= window,
                magnitude(best_y as int) <= window,
                evals <= k,
                ({
                    let b = scan_best(cost, sq, at, k as int);
                    b.mvx == best_x && b.mvy == best_y && b.sad == best && b.evals == evals
                }),
                scan_length(cost, sq, at, self.early as int, 0) == scan_length(
                    cost,
                    sq,
                    at,
                    self.early as int,
                    k as int,
                ),
                k > 0 ==> !scan_stops_at(cost, sq, at, self.early as int, k - 1),
            decreases n - k,
        {
            proof {
                lemma_packed_position(k as int, side as int, side as int);
            }
            let dx: i32 = k / side - reach;
            let dy: i32 = k % side - reach;
            assert(-512 <= step * dx <= 512 && -512 <= step * dy <= 512) by (nonlinear_arith)
                requires
                    1 <= step <= 2,
                    -256 <= dx <= 256,
                    -256 <= dy <= 256,
            ;
            let mx: i32 = cx + step * dx;
            let my: i32 = cy + step * dy;
            assert(mx == sq.mvx(k as int));
            assert(my == sq.mvy(k as int));
            let out = mx > window || -mx > window || my > window || -my > window;
            assert(out == !sq.inside(k as int));
            if !out {
                let s: u32 = self.eval(mx, my);
                evals = evals + 1;
                if s < best {
                    best = s;
                    best_x = mx;
                    best_y = my;
                }
                if self.early > 0 && best <= self.early {
                    assert(scan_stops_at(cost, sq, at, self.early as int, k as int));
                    return (best_x, best_y, evals, true);
                }
            }
            k += 1;
        }
        (best_x, best_y, evals, false)
    }

    /// Descends from the zero vector along `dirs` until no neighbour costs less.
    fn descend(&self, dirs: &[(i32, i32)], r: i32) -> (res: (i32, i32, u64))
        requires
            self.fits(),
            0 <= r <= 256,
            0 < dirs@.len() <= 8,
            forall|i: int|
                0 <= i < dirs@.len() ==> -1 <= (#[trigger] dirs@[i]).0 <= 1 && -1 <= dirs@[i].1
                    <= 1,
        ensures
            ({
                let found = descent(self.cost(), dirs@, r as int, self.early as int);
                res.0 == found.mvx && res.1 == found.mvy && res.2 == found.evals
            }),
            magnitude(res.0 as int) <= r,
            magnitude(res.1 as int) <= r,
            res.2 <= search_cap(self.area()),
    {
        let ghost cost = self.cost();
        let ghost early = self.early as int;
        let mut cx: i32 = 0;
        let mut cy: i32 = 0;
        let mut best: u32 = self.eval(0, 0);
        let mut evals: u64 = 1;
        if self.early > 0 && best <= self.early {
            return (0, 0, 1);
        }
        let ghost first = best as int;
        let mut improved: bool = true;
        proof {
            let s0 = Found { mvx: 0, mvy: 0, sad: best as int, evals: 1 };
            assert(cost(0, 0) == best);
        }
        while improved
            invariant
                self.fits(),
                0 <= r <= 256,
                0 < dirs@.len() <= 8,
                forall|i: int|
                    0 <= i < dirs@.len() ==> -1 <= (#[trigger] dirs@[i]).0 <= 1 && -1 <= dirs@[i].1
                        <= 1,
                cost == self.cost(),
                early == self.early,
                magnitude(cx as int) <= r,
                magnitude(cy as int) <= r,
                best <= first <= 255 * self.area(),
                early > 0 ==> best > early,
                evals <= 1 + 8 * (first - best) + (if improved { 0int } else { 8 }),
                descent(cost, dirs@, r as int, early) == (if improved {
                    descend_from(
                        cost,
                        dirs@,
                        r as int,
                        early,
                        Found {
                            mvx: cx as int,
                            mvy: cy as int,
                            sad: best as int,
                            evals: evals as int,
                        },
                    )
                } else {
                    Found { mvx: cx as int, mvy: cy as int, sad: best as int, evals: evals as int }
                }),
            decreases best + (if improved { 1int } else { 0 }),
        {
            let ghost before = Found {
                mvx: cx as int,
                mvy: cy as int,
                sad: best as int,
                evals: evals as int,
            };
            let ghost whole = pass(cost, dirs@, r as int, early, before, 0);
            improved = false;
            let mut d: usize = 0;
            while d < dirs.len()
                invariant
                    self.fits(),
                    0 <= r <= 256,
                    d <= dirs@.len() <= 8,
                    forall|i: int|
                        0 <= i < dirs@.len() ==> -1 <= (#[trigger] dirs@[i]).0 <= 1 && -1
                            <= dirs@[i].1 <= 1,
                    cost == self.cost(),
                    early == self.early,
                    magnitude(cx as int) <= r,
                    magnitude(cy as int) <= r,
                    best <= before.sad <= first <= 255 * self.area(),
                    early > 0 ==> best > early,
                    improved <==> best < before.sad,
                    evals <= before.evals + d,
                    before.evals <= 1 + 8 * (first - before.sad),
                    whole == pass(cost, dirs@, r as int, early, before, 0),
                    whole == pass(
                        cost,
                        dirs@,
                        r as int,
                        early,
                        Found {
                            mvx: cx as int,
                            mvy: cy as int,
                            sad: best as int,
                            evals: evals as int,
                        },
                        d as int,
                    ),
                    descent(cost, dirs@, r as int, early) == descend_from(
                        cost,
                        dirs@,
                        r as int,
                        early,
                        before,
                    ),
                decreases dirs@.len() - d,
            {
                let nx: i32 = cx + dirs[d].0;
                let ny: i32 = cy + dirs[d].1;
                if !(nx > r || -nx > r || ny > r || -ny > r) {
                    let s: u32 = self.eval(nx, ny);
                    evals = evals + 1;
                    if s < best {
                        best = s;
                        cx = nx;
                        cy = ny;
                        improved = true;
                        if self.early > 0 && best <= self.early {
                            return (cx, cy, evals);
                        }
                    }
                }
                d += 1;
            }
        }
        (cx, cy, evals)
    }

    fn exhaustive(&self, r: i32) -> (res: (i32, i32, u64))
        requires
            self.fits(),
            0 <= r <= 256,
        ensures
            ({
                let found = exhaustive_search(self.cost(), r as int, self.early as int);
                res.0 == found.mvx && res.1 == found.mvy && res.2 == found.evals
            }),
            magnitude(res.0 as int) <= r,
            magnitude(res.1 as int) <= r,
            res.2 <= search_cap(self.area()),
    {
        let (x, y, e, _) = self.scan_square(0, 0, 1, r, r, (0, 0));
        (x, y, e)
    }

    fn diamond_search(&self, r: i32) -> (res: (i32, i32, u64))
        requires
            self.fits(),
            0 <= r <= 256,
        ensures
            ({
                let found = descent(self.cost(), diamond_dirs(), r as int, self.early as int);
                res.0 == found.mvx && res.1 == found.mvy && res.2 == found.evals
            }),
            magnitude(res.0 as int) <= r,
            magnitude(res.1 as int) <= r,
            res.2 <= search_cap(self.area()),
    {
        let dirs: [(i32, i32); 4] = [(1, 0), (-1, 0), (0, 1), (0, -1)];
        assert(dirs@ =~= diamond_dirs());
        self.descend(&dirs, r)
    }

    fn hex_search(&self, r: i32) -> (res: (i32, i32, u64))
        requires
            self.fits(),
            0 <= r <= 256,
        ensures
            ({
                let found = descent(self.cost(), hex_dirs(), r as int, self.early as int);
                res.0 == found.mvx && res.1 == found.mvy && res.2 == found.evals
            }),
            magnitude(res.0 as int) <= r,
            magnitude(res.1 as int) <= r,
            res.2 <= search_cap(self.area()),
    {
        let dirs: [(i32, i32); 8] = [
            (1, 0),
            (1, -1),
            (0, -1),
            (-1, -1),
            (-1, 0),
            (-1, 1),
            (0, 1),
            (1, 1),
        ];
        assert(dirs@ =~= hex_dirs());
        self.descend(&dirs, r)
    }

    fn hierarchical_search(&self, r: i32) -> (res: (i32, i32, u64))
        requires
            self.fits(),
            0 <= r <= 256,
        ensures
            ({
                let found = two_level_search(self.cost(), r as int, self.early as int);
                res.0 == found.mvx && res.1 == found.mvy && res.2 == found.evals
            }),
            magnitude(res.0 as int) <= r,
            magnitude(res.1 as int) <= r,
            res.2 <= search_cap(self.area()),
    {
        if r <= 2 {
            return self.exhaustive(r);
        }
        let coarse_r: i32 = r / 2;
        let (cx, cy, e1, cut) = self.scan_square(0, 0, 2, coarse_r, r, (0, 0));
        if cut {
            return (cx, cy, e1);
        }
        let (x, y, e2, _) = self.scan_square(cx, cy, 1, 2, r, (cx, cy));
        (x, y, e1 + e2)
    }
}

pub open spec fn diamond_dirs() -> Seq<(i32, i32)> {
    seq![(1i32, 0i32), (-1i32, 0i32), (0i32, 1i32), (0i32, -1i32)]
}

pub open spec fn hex_dirs() -> Seq<(i32, i32)> {
    seq![
        (1i32, 0i32),
        (1i32, -1i32),
        (0i32, -1i32),
        (-1i32, -1i32),
        (-1i32, 0i32),
        (-1i32, 1i32),
        (0i32, 1i32),
        (1i32, 1i32),
    ]
}

/// One round of a descent from direction `d` on: each neighbour in the window is compared with
/// the best so far and becomes the new centre when it costs less. A cost of at most `early` ends
/// the round, unless `early` is 0.
pub open spec fn pass(
    cost: spec_fn(int, int) -> int,
    dirs: Seq<(i32, i32)>,
    r: int,
    early: int,
    at: Found,
    d: int,
) -> Found
    decreases dirs.len() - d,
{
    if d < 0 || d >= dirs.len() {
        at
    } else {
        let nx = at.mvx + dirs[d].0;
        let ny = at.mvy + dirs[d].1;
        if magnitude(nx) > r || magnitude(ny) > r {
            pass(cost, dirs, r, early, at, d + 1)
        } else if cost(nx, ny) < at.sad {
            let next = Found { mvx: nx, mvy: ny, sad: cost(nx, ny), evals: at.evals + 1 };
            if early > 0 && cost(nx, ny) <= early {
                next
            } else {
                pass(cost, dirs, r, early, next, d + 1)
            }
        } else {
            pass(cost, dirs, r, early, Found { evals: at.evals + 1, ..at }, d + 1)
        }
    }
}

/// Rounds of a descent until one finds nothing better, or reaches a cost of at most `early`.
pub open spec fn descend_from(
    cost: spec_fn(int, int) -> int,
    dirs: Seq<(i32, i32)>,
    r: int,
    early: int,
    at: Found,
) -> Found
    decreases at.sad,
{
    let next = pass(cost, dirs, r, early, at, 0);
    if 0 <= next.sad < at.sad && !(early > 0 && next.sad <= early) {
        descend_from(cost, dirs, r, early, next)
    } else {
        next
    }
}

/// A descent that starts from the zero vector.
pub open spec fn descent(
    cost: spec_fn(int, int) -> int,
    dirs: Seq<(i32, i32)>,
    r: int,
    early: int,
) -> Found {
    let start = Found { mvx: 0, mvy: 0, sad: cost(0, 0), evals: 1 };
    if early > 0 && start.sad <= early {
        start
    } else {
        descend_from(cost, dirs, r, early, start)
    }
}

/// Every vector of the window, column by column.
pub open spec fn exhaustive_search(cost: spec_fn(int, int) -> int, r: int, early: int) -> Found {
    scan(cost, Square { cx: 0, cy: 0, step: 1, reach: r, window: r }, (0, 0), early)
}

/// Every second vector of the window, then the vectors within 2 of the best of those.
pub open spec fn two_level_search(cost: spec_fn(int, int) -> int, r: int, early: int) -> Found {
    if r <= 2 {
        exhaustive_search(cost, r, early)
    } else {
        let coarse = Square { cx: 0, cy: 0, step: 2, reach: r / 2, window: r };
        let a = scan(cost, coarse, (0, 0), early);
        if scan_cut(cost, coarse, (0, 0), early) {
            a
        } else {
            let fine = Square { cx: a.mvx, cy: a.mvy, step: 1, reach: 2, window: r };
            let b = scan(cost, fine, (a.mvx, a.mvy), early);
            Found { evals: a.evals + b.evals, ..b }
        }
    }
}

/// The radius that a search really uses.
pub open spec fn usable_radius(radius: int) -> int {
    clip(radius, 0, MAX_MOTION_VECTOR_PELS as int)
}

/// The outcome of a macroblock search.
pub open spec fn search(
    mode: SrsV2MotionSearchMode,
    cost: spec_fn(int, int) -> int,
    radius: int,
    early: int,
) -> Found {
    let r = usable_radius(radius);
    match mode {
        SrsV2MotionSearchMode::NoSearch => Found { mvx: 0, mvy: 0, sad: cost(0, 0), evals: 1 },
        SrsV2MotionSearchMode::ExhaustiveSmall => exhaustive_search(cost, r, early),
        SrsV2MotionSearchMode::Diamond => descent(cost, diamond_dirs(), r, early),
        SrsV2MotionSearchMode::Hex => descent(cost, hex_dirs(), r, early),
        SrsV2MotionSearchMode::Hierarchical => two_level_search(cost, r, early),
    }
}

/// The outcome of a rectangle search: only the diamond mode descends.
pub open spec fn rect_search(
    mode: SrsV2MotionSearchMode,
    cost: spec_fn(int, int) -> int,
    radius: int,
    early: int,
) -> Found {
    match mode {
        SrsV2MotionSearchMode::Hex | SrsV2MotionSearchMode::Hierarchical => exhaustive_search(
            cost,
            usable_radius(radius),
            early,
        ),
        _ => search(mode, cost, radius, early),
    }
}

fn bounded_radius(radius: i16) -> (r: i32)
    ensures
        r == usable_radius(radius as int),
{
    if radius < 0 {
        0
    } else if radius > MAX_MOTION_VECTOR_PELS {
        MAX_MOTION_VECTOR_PELS as i32
    } else {
        radius as i32
    }
}

/// Integer-pel motion vector of a rectangle; `evals` counts the compared vectors.
pub fn pick_mv_rect(
    mode: SrsV2MotionSearchMode,
    cur: &VideoPlane<u8>,
    refp: &VideoPlane<u8>,
    org_x: u32,
    org_y: u32,
    w: u32,
    h: u32,
    radius: i16,
    early_exit_sad_threshold: u32,
    evals: &mut u64,
) -> (mv: (i16, i16))
    requires
        rect_fits(*cur, *refp, org_x as int, org_y as int, w as int, h as int),
        *old(evals) <= u64::MAX - search_cap(w * h),
    ensures
        ({
            let found = rect_search(
                mode,
                rect_cost(*cur, *refp, org_x as int, org_y as int, w as int, h as int),
                radius as int,
                early_exit_sad_threshold as int,
            );
            &&& mv.0 == found.mvx
            &&& mv.1 == found.mvy
            &&& *final(evals) == *old(evals) + found.evals
        }),
        magnitude(mv.0 as int) <= usable_radius(radius as int),
        magnitude(mv.1 as int) <= usable_radius(radius as int),
        *old(evals) <= *final(evals) <= *old(evals) + search_cap(w * h),
{
    let r: i32 = bounded_radius(radius);
    let s = RectSearch { cur, refp, org_x, org_y, w, h, early: early_exit_sad_threshold };
    let (x, y, e) = match mode {
        SrsV2MotionSearchMode::NoSearch => (0, 0, 1),
        SrsV2MotionSearchMode::ExhaustiveSmall => s.exhaustive(r),
        SrsV2MotionSearchMode::Diamond => s.diamond_search(r),
        SrsV2MotionSearchMode::Hex | SrsV2MotionSearchMode::Hierarchical => s.exhaustive(r),
    };
    *evals = *evals + e;
    (x as i16, y as i16)
}

/// Integer-pel motion vector of a macroblock; `evals` counts the compared vectors.
pub fn pick_mv(
    mode: SrsV2MotionSearchMode,
    cur: &VideoPlane<u8>,
    refp: &VideoPlane<u8>,
    mb_x: u32,
    mb_y: u32,
    radius: i16,
    early_exit_sad_threshold: u32,
    evals: &mut u64,
) -> (mv: (i16, i16))
    requires
        rect_fits(*cur, *refp, mb_x * 16, mb_y * 16, 16, 16),
        *old(evals) <= u64::MAX - SEARCH_EVALS_CAP,
    ensures
        ({
            let found = search(
                mode,
                rect_cost(*cur, *refp, mb_x * 16, mb_y * 16, 16, 16),
                radius as int,
                early_exit_sad_threshold as int,
            );
            &&& mv.0 == found.mvx
            &&& mv.1 == found.mvy
            &&& *final(evals) == *old(evals) + found.evals
        }),
        magnitude(mv.0 as int) <= usable_radius(radius as int),
        magnitude(mv.1 as int) <= usable_radius(radius as int),
        *old(evals) <= *final(evals) <= *old(evals) + SEARCH_EVALS_CAP,
{
    let r: i32 = bounded_radius(radius);
    let s = RectSearch {
        cur,
        refp,
        org_x: mb_x * 16,
        org_y: mb_y * 16,
        w: 16,
        h: 16,
        early: early_exit_sad_threshold,
    };
    let (x, y, e) = match mode {
        SrsV2MotionSearchMode::NoSearch => (0, 0, 1),
        SrsV2MotionSearchMode::ExhaustiveSmall => s.exhaustive(r),
        SrsV2MotionSearchMode::Diamond => s.diamond_search(r),
        SrsV2MotionSearchMode::Hex => s.hex_search(r),
        SrsV2MotionSearchMode::Hierarchical => s.hierarchical_search(r),
    };
    *evals = *evals + e;
    (x as i16, y as i16)
}

} // verus!
