//! Choosing how the macroblocks of a forward picture are divided.
use vstd::prelude::*;

use crate::arith::{magnitude, total};
use crate::bytes::tdiv;
use super::error::SrsV2Error;
use super::frame::VideoPlane;
use super::inter_mv::{
    delta_fits, encode_mv_stream_partitioned, firsts, lemma_pu_start, pu_prediction, pu_start,
    stream_bytes, stream_deltas_fit, unit_count, units, varint_length, zigzag, P_PART_WIRE_16X16,
    P_PART_WIRE_16X8, P_PART_WIRE_8X16, P_PART_WIRE_8X8,
};
use super::motion_search::{
    pick_mv_rect, rect_cost, rect_fits, rect_sad, rect_search, sad_rect_integer, Found,
    SEARCH_EVALS_CAP, SrsV2MotionEncodeStats, SrsV2PartitionEncodeStats,
};
use super::rate_control::{
    SrsV2EncodeSettings, SrsV2InterPartitionMode, SrsV2PartitionCostModel, SrsV2PartitionSettings,
};
use super::rdo::{
    biased_score, header_score, partition_header_aware_score, partition_rdo_fast_score,
};

verus! {

/// The most bytes that the residuals of a macroblock may take in a trial.
pub const MAX_MB_RESIDUAL_RD_BYTES: usize = 65_536;

/// The rectangle of a unit inside its macroblock: left, top, width and height.
pub open spec fn unit_rect(pt: u8, j: int) -> (int, int, int, int) {
    if pt == 0 {
        (0, 0, 16, 16)
    } else if pt == 1 {
        (0, 8 * j, 16, 8)
    } else if pt == 2 {
        (8 * j, 0, 8, 16)
    } else {
        (j % 2 * 8, j / 2 * 8, 8, 8)
    }
}

fn unit_rect_of(pt: u8, j: usize) -> (r: (u32, u32, u32, u32))
    requires
        pt <= 3,
        j < units(pt),
    ensures
        ({
            let u = unit_rect(pt, j as int);
            r.0 == u.0 && r.1 == u.1 && r.2 == u.2 && r.3 == u.3
        }),
        r.0 + r.2 <= 16,
        r.1 + r.3 <= 16,
        r.2 * r.3 <= 256,
        0 < r.2,
        0 < r.3,
{
    if pt == 0 {
        (0, 0, 16, 16)
    } else if pt == 1 {
        (0, 8 * j as u32, 16, 8)
    } else if pt == 2 {
        (8 * j as u32, 0, 8, 16)
    } else {
        (j as u32 % 2 * 8, j as u32 / 2 * 8, 8, 8)
    }
}

/// The search of unit `j` of the macroblock whose upper left sample is (`ox`, `oy`).
pub open spec fn unit_search(
    cur: VideoPlane<u8>,
    refp: VideoPlane<u8>,
    s: SrsV2EncodeSettings,
    ox: int,
    oy: int,
    pt: u8,
    j: int,
) -> Found {
    let u = unit_rect(pt, j);
    rect_search(
        s.motion_search_mode,
        rect_cost(cur, refp, ox + u.0, oy + u.1, u.2, u.3),
        s.search_radius(),
        s.early_exit_sad_threshold as int,
    )
}

/// The vector of a unit in quarter-pel units.
pub open spec fn unit_vector(
    cur: VideoPlane<u8>,
    refp: VideoPlane<u8>,
    s: SrsV2EncodeSettings,
    ox: int,
    oy: int,
    pt: u8,
    j: int,
) -> (i32, i32) {
    let f = unit_search(cur, refp, s, ox, oy, pt, j);
    ((4 * f.mvx) as i32, (4 * f.mvy) as i32)
}

/// The difference that the vector of a unit leaves.
pub open spec fn unit_sad(
    cur: VideoPlane<u8>,
    refp: VideoPlane<u8>,
    s: SrsV2EncodeSettings,
    ox: int,
    oy: int,
    pt: u8,
    j: int,
) -> int {
    let u = unit_rect(pt, j);
    let f = unit_search(cur, refp, s, ox, oy, pt, j);
    rect_sad(cur, refp, ox + u.0, oy + u.1, u.2, u.3, f.mvx, f.mvy)
}

/// The vectors of the units of a macroblock.
pub open spec fn type_vectors(
    cur: VideoPlane<u8>,
    refp: VideoPlane<u8>,
    s: SrsV2EncodeSettings,
    ox: int,
    oy: int,
    pt: u8,
) -> Seq<(i32, i32)> {
    Seq::new(units(pt) as nat, |j: int| unit_vector(cur, refp, s, ox, oy, pt, j))
}

/// The difference that the vectors of a macroblock leave together.
pub open spec fn type_sad(
    cur: VideoPlane<u8>,
    refp: VideoPlane<u8>,
    s: SrsV2EncodeSettings,
    ox: int,
    oy: int,
    pt: u8,
) -> int {
    total(units(pt), |j: int| unit_sad(cur, refp, s, ox, oy, pt, j))
}

/// How many vectors the searches of a macroblock compare.
pub open spec fn type_evals(
    cur: VideoPlane<u8>,
    refp: VideoPlane<u8>,
    s: SrsV2EncodeSettings,
    ox: int,
    oy: int,
    pt: u8,
) -> int {
    total(units(pt), |j: int| unit_search(cur, refp, s, ox, oy, pt, j).evals)
}

/// A vector of a unit is a multiple of a pel and stays within the search window.
pub open spec fn unit_vector_ok(mv: (i32, i32)) -> bool {
    &&& mv.0 % 4 == 0
    &&& mv.1 % 4 == 0
    &&& magnitude(mv.0 as int) <= 512
    &&& magnitude(mv.1 as int) <= 512
}

/// The macroblock lies in the picture, and the counters have room.
pub open spec fn mb_fits(cur: VideoPlane<u8>, refp: VideoPlane<u8>, ox: int, oy: int) -> bool {
    rect_fits(cur, refp, ox, oy, 16, 16)
}

/// Differences and vectors of a macroblock divided in a given way; `evals` counts the compared
/// vectors.
pub fn candidate_sad_and_mvs(
    cur: &VideoPlane<u8>,
    refp: &VideoPlane<u8>,
    settings: &SrsV2EncodeSettings,
    ox: u32,
    oy: u32,
    pt: u8,
    evals: &mut u64,
) -> (r: Result<(u32, Vec<(i32, i32)>), SrsV2Error>)
    requires
        mb_fits(*cur, *refp, ox as int, oy as int),
        *old(evals) <= u64::MAX - 4 * SEARCH_EVALS_CAP,
    ensures
        pt > 3 ==> r == Err::<(u32, Vec<(i32, i32)>), SrsV2Error>(
            SrsV2Error::Syntax("bad candidate partition"),
        ) && *final(evals) == *old(evals),
        pt <= 3 ==> {
            &&& r is Ok
            &&& r->Ok_0.0 == type_sad(*cur, *refp, *settings, ox as int, oy as int, pt)
            &&& r->Ok_0.0 <= 66846720
            &&& r->Ok_0.1@ == type_vectors(*cur, *refp, *settings, ox as int, oy as int, pt)
            &&& forall|j: int|
                0 <= j < r->Ok_0.1@.len() ==> unit_vector_ok(#[trigger] r->Ok_0.1@[j])
            &&& *final(evals) == *old(evals) + type_evals(
                *cur,
                *refp,
                *settings,
                ox as int,
                oy as int,
                pt,
            )
        },
        *old(evals) <= *final(evals) <= *old(evals) + 4 * SEARCH_EVALS_CAP,
{
    if pt > 3 {
        return Err(SrsV2Error::Syntax("bad candidate partition"));
    }
    let n: usize = if pt == 0 {
        1
    } else if pt == 3 {
        4
    } else {
        2
    };
    let ghost g_sad = |j: int| unit_sad(*cur, *refp, *settings, ox as int, oy as int, pt, j);
    let ghost g_evals = |j: int|
        unit_search(*cur, *refp, *settings, ox as int, oy as int, pt, j).evals;
    let mut out: Vec<(i32, i32)> = Vec::new();
    let mut sad: u32 = 0;
    let mut j: usize = 0;
    while j < n
        invariant
            j <= n,
            n == units(pt),
            pt <= 3,
            mb_fits(*cur, *refp, ox as int, oy as int),
            *old(evals) <= u64::MAX - 4 * SEARCH_EVALS_CAP,
            g_sad == (|j: int|
                unit_sad(*cur, *refp, *settings, ox as int, oy as int, pt, j)),
            g_evals == (|j: int|
                unit_search(*cur, *refp, *settings, ox as int, oy as int, pt, j).evals),
            sad == total(j as int, g_sad),
            sad <= j * 16711680,
            *evals == *old(evals) + total(j as int, g_evals),
            *old(evals) <= *evals <= *old(evals) + j * SEARCH_EVALS_CAP,
            out@.len() == j,
            forall|k: int|
                0 <= k < j ==> #[trigger] out@[k] == unit_vector(
                    *cur,
                    *refp,
                    *settings,
                    ox as int,
                    oy as int,
                    pt,
                    k,
                ),
            forall|k: int| 0 <= k < j ==> unit_vector_ok(#[trigger] out@[k]),
        decreases n - j,
    {
        let (dx, dy, w, h) = unit_rect_of(pt, j);
        let (vx, vy) = pick_mv_rect(
            settings.motion_search_mode,
            cur,
            refp,
            ox + dx,
            oy + dy,
            w,
            h,
            settings.clamped_motion_search_radius(),
            settings.early_exit_sad_threshold,
            evals,
        );
        let s: u32 = sad_rect_integer(
            cur,
            refp,
            ox + dx,
            oy + dy,
            w,
            h,
            vx as i32,
            vy as i32,
        );
        assert(g_sad(j as int) == s);
        assert(g_evals(j as int) == unit_search(
            *cur,
            *refp,
            *settings,
            ox as int,
            oy as int,
            pt,
            j as int,
        ).evals);
        sad = sad + s;
        out.push((vx as i32 * 4, vy as i32 * 4));
        j += 1;
    }
    assert(out@ =~= type_vectors(*cur, *refp, *settings, ox as int, oy as int, pt));
    Ok((sad, out))
}

/// The partition that wins by differences alone: a split has to gain more than a penalty.
pub open spec fn least_sad_choice(s16: int, s8: int, s16x8: int, lam: int) -> u8 {
    let split = s8 + tdiv(12 * lam, 256);
    let wide = s16x8 + tdiv(8 * lam, 256);
    if split + 4 < s16 && split <= wide {
        P_PART_WIRE_8X8
    } else if wide + 4 < s16 {
        P_PART_WIRE_16X8
    } else {
        P_PART_WIRE_16X16
    }
}

/// The partition of a macroblock that wins by differences alone.
pub open spec fn sad_only(
    cur: VideoPlane<u8>,
    refp: VideoPlane<u8>,
    s: SrsV2EncodeSettings,
    ox: int,
    oy: int,
    lam: int,
) -> u8 {
    least_sad_choice(
        type_sad(cur, refp, s, ox, oy, 0),
        type_sad(cur, refp, s, ox, oy, 3),
        type_sad(cur, refp, s, ox, oy, 1),
        lam,
    )
}

/// How many vectors that choice compares.
pub open spec fn sad_only_evals(
    cur: VideoPlane<u8>,
    refp: VideoPlane<u8>,
    s: SrsV2EncodeSettings,
    ox: int,
    oy: int,
) -> int {
    type_evals(cur, refp, s, ox, oy, 0) + type_evals(cur, refp, s, ox, oy, 3) + type_evals(
        cur,
        refp,
        s,
        ox,
        oy,
        1,
    )
}

/// A rate factor whose penalties fit 64 bits.
pub open spec fn factor_ok(lam: int) -> bool {
    -36028797018963968 <= lam <= 36028797018963967
}

/// Chooses a partition by differences alone.
pub fn autofast_compute_sad_only_choice(
    cur: &VideoPlane<u8>,
    refp: &VideoPlane<u8>,
    settings: &SrsV2EncodeSettings,
    ox: u32,
    oy: u32,
    lam_p: i64,
    evals: &mut u64,
) -> (r: u8)
    requires
        mb_fits(*cur, *refp, ox as int, oy as int),
        *old(evals) <= u64::MAX - 12 * SEARCH_EVALS_CAP,
        factor_ok(lam_p as int),
    ensures
        r == sad_only(*cur, *refp, *settings, ox as int, oy as int, lam_p as int),
        *final(evals) == *old(evals) + sad_only_evals(
            *cur,
            *refp,
            *settings,
            ox as int,
            oy as int,
        ),
        *old(evals) <= *final(evals) <= *old(evals) + 12 * SEARCH_EVALS_CAP,
        r <= 3,
{
    let s16: u32 = match candidate_sad_and_mvs(cur, refp, settings, ox, oy, 0, evals) {
        Ok(c) => c.0,
        Err(_) => 0,
    };
    let s8: u32 = match candidate_sad_and_mvs(cur, refp, settings, ox, oy, 3, evals) {
        Ok(c) => c.0,
        Err(_) => 0,
    };
    let s16x8: u32 = match candidate_sad_and_mvs(cur, refp, settings, ox, oy, 1, evals) {
        Ok(c) => c.0,
        Err(_) => 0,
    };
    let split: i64 = s8 as i64 + 12 * lam_p / 256;
    let wide: i64 = s16x8 as i64 + 8 * lam_p / 256;
    if split + 4 < s16 as i64 && split <= wide {
        P_PART_WIRE_8X8
    } else if wide + 4 < s16 as i64 {
        P_PART_WIRE_16X8
    } else {
        P_PART_WIRE_16X16
    }
}

/// Every component is small enough for differences to fit 32 bits.
pub open spec fn vectors_small(mvs: Seq<(i32, i32)>) -> bool {
    forall|i: int|
        0 <= i < mvs.len() ==> magnitude((#[trigger] mvs[i]).0 as int) <= 1048576 && magnitude(
            mvs[i].1 as int,
        ) <= 1048576
}

/// Small vectors can be written as a partitioned stream.
pub proof fn lemma_small_stream(cols: int, parts: Seq<u8>, mvs: Seq<(i32, i32)>, n: int)
    requires
        0 < cols,
        0 <= n <= parts.len(),
        mvs.len() == pu_start(parts, n),
        vectors_small(mvs),
    ensures
        stream_deltas_fit(cols, parts, mvs, n),
{
    assert forall|i: int, j: int| 0 <= i < n && 0 <= j < units(parts[i]) implies delta_fits(
        mvs[pu_start(parts, i) + j],
        #[trigger] pu_prediction(cols, parts, mvs, i, j),
    ) by {
        lemma_pu_start(parts, i, n);
        if j == 0 {
            let f = firsts(parts, mvs, i);
            assert forall|k: int| 0 <= k < i implies magnitude((#[trigger] f[k]).0 as int)
                <= 1048576 && magnitude(f[k].1 as int) <= 1048576 by {
                lemma_pu_start(parts, k, i);
                lemma_pu_start(parts, k, n);
                assert(f[k] == mvs[pu_start(parts, k)]);
            }
            vstd::arithmetic::div_mod::lemma_fundamental_div_mod(i, cols);
            if i / cols > 0 {
                assert(cols * (i / cols) >= cols) by (nonlinear_arith)
                    requires
                        i / cols >= 1,
                        cols > 0,
                ;
            } else {
                assert(cols * (i / cols) == 0) by (nonlinear_arith)
                    requires
                        i / cols == 0,
                ;
            }
            vstd::arithmetic::div_mod::lemma_div_pos_is_pos(i, cols);
        }
    }
}

/// A vector of a partitioned stream takes at most ten bytes.
pub proof fn lemma_stream_short(
    cols: int,
    parts: Seq<u8>,
    mvs: Seq<(i32, i32)>,
    n: int,
    i: int,
    j: int,
)
    requires
        0 <= n <= parts.len(),
        (0 <= i < n && 0 <= j <= units(parts[i])) || (i == n && j == 0),
        stream_deltas_fit(cols, parts, mvs, n),
    ensures
        stream_bytes(cols, parts, mvs, i, j).len() <= 10 * (pu_start(parts, i) + j),
    decreases i, j,
{
    if j > 0 {
        lemma_stream_short(cols, parts, mvs, n, i, j - 1);
        let p = pu_prediction(cols, parts, mvs, i, j - 1);
        let v = mvs[pu_start(parts, i) + j - 1];
        assert(delta_fits(v, p));
        varint_length(zigzag(v.0 - p.0) as u32);
        varint_length(zigzag(v.1 - p.1) as u32);
    } else if i > 0 {
        lemma_stream_short(cols, parts, mvs, n, i - 1, units(parts[i - 1]));
    }
}

/// The bytes that the vectors of one macroblock take on their own.
pub open spec fn mv_body_len(pt: u8, mvs: Seq<(i32, i32)>) -> int {
    stream_bytes(1, seq![pt], mvs, 1, 0).len() as int
}

fn mv_body_length(pt: u8, mvs: &[(i32, i32)]) -> (n: usize)
    requires
        pt <= 3,
        mvs@.len() == units(pt),
        vectors_small(mvs@),
    ensures
        n == mv_body_len(pt, mvs@),
        n <= 40,
{
    let parts: [u8; 1] = [pt];
    assert(parts@ =~= seq![pt]);
    proof {
        reveal_with_fuel(pu_start, 2);
        reveal_with_fuel(unit_count, 3);
        lemma_small_stream(1, parts@, mvs@, 1);
        lemma_stream_short(1, parts@, mvs@, 1, 1, 0);
    }
    match encode_mv_stream_partitioned(1, 1, parts.as_slice(), mvs) {
        Ok(b) => b.len(),
        Err(_) => 0,
    }
}

/// The candidates of a macroblock in the order of comparison.
pub open spec fn candidate(i: int) -> u8 {
    if i == 0 {
        P_PART_WIRE_16X16
    } else if i == 1 {
        P_PART_WIRE_8X8
    } else if i == 2 {
        P_PART_WIRE_16X8
    } else {
        P_PART_WIRE_8X16
    }
}

/// The score of a candidate with the given difference, vector bytes and residual bytes.
pub open spec fn partition_score(
    p: SrsV2PartitionSettings,
    lam: int,
    pt: u8,
    sad: int,
    mv_bytes: int,
    residual_bytes: int,
) -> int {
    if p.partition_cost_model == SrsV2PartitionCostModel::RdoFast {
        biased_score(sad, lam, p.partition_quality_bias as int, mv_bytes + residual_bytes)
    } else {
        header_score(
            sad,
            lam,
            if pt == P_PART_WIRE_8X8 {
                p.partition_split_penalty as int
            } else {
                0
            },
            mv_bytes,
            p.partition_mv_penalty as int,
            units(pt) - 1,
            p.partition_header_penalty as int,
        )
    }
}

fn score_partition(
    p: &SrsV2PartitionSettings,
    lam_p: i64,
    pt: u8,
    sad: u32,
    mv_bytes: usize,
    residual_bytes: usize,
) -> (r: i128)
    requires
        pt <= 3,
        factor_ok(lam_p as int),
        mv_bytes <= 40,
        residual_bytes <= MAX_MB_RESIDUAL_RD_BYTES,
    ensures
        r == partition_score(
            *p,
            lam_p as int,
            pt,
            sad as int,
            mv_bytes as int,
            residual_bytes as int,
        ),
{
    match p.partition_cost_model {
        SrsV2PartitionCostModel::RdoFast => partition_rdo_fast_score(
            sad,
            lam_p,
            p.partition_quality_bias,
            mv_bytes,
            residual_bytes,
        ),
        _ => {
            let split: i128 = if pt == P_PART_WIRE_8X8 {
                p.partition_split_penalty as i128
            } else {
                0
            };
            let extra: u32 = if pt == 0 {
                0
            } else if pt == 3 {
                3
            } else {
                1
            };
            assert(i128::MIN <= lam_p * split <= i128::MAX) by (nonlinear_arith)
                requires
                    -36028797018963968 <= lam_p <= 36028797018963967,
                    0 <= split <= 65535,
            ;
            partition_header_aware_score(
                sad,
                lam_p,
                split,
                mv_bytes,
                p.partition_mv_penalty,
                extra,
                p.partition_header_penalty,
            )
        },
    }
}

/// The score of candidate `i` of a macroblock.
pub open spec fn nth_score(
    cur: VideoPlane<u8>,
    refp: VideoPlane<u8>,
    s: SrsV2EncodeSettings,
    p: SrsV2PartitionSettings,
    ox: int,
    oy: int,
    lam: int,
    lens: Seq<Result<usize, SrsV2Error>>,
    i: int,
) -> int {
    let pt = candidate(i);
    partition_score(
        p,
        lam,
        pt,
        type_sad(cur, refp, s, ox, oy, pt),
        mv_body_len(pt, type_vectors(cur, refp, s, ox, oy, pt)),
        if p.partition_cost_model == SrsV2PartitionCostModel::RdoFast {
            lens[i]->Ok_0 as int
        } else {
            0
        },
    )
}

/// The first of the first `n` scores that none of the others undercuts.
pub open spec fn first_least(scores: spec_fn(int) -> int, n: int) -> int
    decreases n,
{
    if n <= 1 {
        0
    } else {
        let b = first_least(scores, n - 1);
        if scores(n - 1) < scores(b) {
            n - 1
        } else {
            b
        }
    }
}

/// No score is below that of the choice, and none before it equals it.
pub proof fn choice_is_least(scores: spec_fn(int) -> int, n: int)
    requires
        1 <= n,
    ensures
        0 <= first_least(scores, n) < n,
        forall|i: int| 0 <= i < n ==> scores(first_least(scores, n)) <= #[trigger] scores(i),
        forall|i: int|
            0 <= i < first_least(scores, n) ==> scores(first_least(scores, n))
                < #[trigger] scores(i),
    decreases n,
{
    if n > 1 {
        choice_is_least(scores, n - 1);
    }
}

/// The residual lengths of a trial are missing: the first failure among them.
pub open spec fn trial_failure(lens: Seq<Result<usize, SrsV2Error>>, n: int) -> Option<SrsV2Error>
    decreases n,
{
    if n <= 0 {
        None
    } else {
        match trial_failure(lens, n - 1) {
            Some(e) => Some(e),
            None => match lens[n - 1] {
                Err(e) => Some(e),
                Ok(_) => None,
            },
        }
    }
}

/// The lengths of the trials of a macroblock are there where they are asked for, and none is
/// above the limit.
pub open spec fn trials_ok(
    p: SrsV2PartitionSettings,
    lens: Seq<Result<usize, SrsV2Error>>,
) -> bool {
    p.inter_partition_mode == SrsV2InterPartitionMode::AutoFast && p.partition_cost_model
        == SrsV2PartitionCostModel::RdoFast ==> lens.len() == 4 && forall|i: int|
        0 <= i < 4 ==> ((#[trigger] lens[i]) matches Ok(n) ==> n <= MAX_MB_RESIDUAL_RD_BYTES)
}

/// The partition of a macroblock.
pub open spec fn chosen_partition(
    cur: VideoPlane<u8>,
    refp: VideoPlane<u8>,
    s: SrsV2EncodeSettings,
    p: SrsV2PartitionSettings,
    ox: int,
    oy: int,
    lam: int,
    lens: Seq<Result<usize, SrsV2Error>>,
) -> Result<u8, SrsV2Error> {
    match p.inter_partition_mode {
        SrsV2InterPartitionMode::Fixed16x16 => Ok(P_PART_WIRE_16X16),
        SrsV2InterPartitionMode::Split8x8 => Ok(P_PART_WIRE_8X8),
        SrsV2InterPartitionMode::Rect16x8 => Ok(P_PART_WIRE_16X8),
        SrsV2InterPartitionMode::Rect8x16 => Ok(P_PART_WIRE_8X16),
        SrsV2InterPartitionMode::AutoFast => match p.partition_cost_model {
            SrsV2PartitionCostModel::SadOnly => Ok(sad_only(cur, refp, s, ox, oy, lam)),
            SrsV2PartitionCostModel::HeaderAware => Ok(
                candidate(
                    first_least(
                        |i: int| nth_score(cur, refp, s, p, ox, oy, lam, lens, i),
                        4,
                    ),
                ),
            ),
            SrsV2PartitionCostModel::RdoFast => match trial_failure(lens, 4) {
                Some(e) => Err(e),
                None => Ok(
                    candidate(
                        first_least(
                            |i: int| nth_score(cur, refp, s, p, ox, oy, lam, lens, i),
                            4,
                        ),
                    ),
                ),
            },
        },
    }
}

/// How many vectors the choice of a partition compares.
pub open spec fn choice_evals(
    cur: VideoPlane<u8>,
    refp: VideoPlane<u8>,
    s: SrsV2EncodeSettings,
    p: SrsV2PartitionSettings,
    ox: int,
    oy: int,
) -> int {
    if p.inter_partition_mode != SrsV2InterPartitionMode::AutoFast {
        0
    } else if p.partition_cost_model == SrsV2PartitionCostModel::SadOnly {
        sad_only_evals(cur, refp, s, ox, oy)
    } else {
        sad_only_evals(cur, refp, s, ox, oy) + total(
            4,
            |i: int| type_evals(cur, refp, s, ox, oy, candidate(i)),
        )
    }
}

/// The partition counters after a choice that was made against differences alone or not.
pub open spec fn choice_stats(
    before: SrsV2PartitionEncodeStats,
    cur: VideoPlane<u8>,
    refp: VideoPlane<u8>,
    s: SrsV2EncodeSettings,
    p: SrsV2PartitionSettings,
    ox: int,
    oy: int,
    lam: int,
    pt: u8,
) -> SrsV2PartitionEncodeStats {
    if p.inter_partition_mode != SrsV2InterPartitionMode::AutoFast {
        before
    } else if p.partition_cost_model == SrsV2PartitionCostModel::SadOnly {
        SrsV2PartitionEncodeStats {
            rdo_partition_candidates_tested: (before.rdo_partition_candidates_tested + 3) as u64,
            ..before
        }
    } else {
        let other = sad_only(cur, refp, s, ox, oy, lam);
        let a = type_sad(cur, refp, s, ox, oy, other);
        let b = type_sad(cur, refp, s, ox, oy, pt);
        let differs = if other != pt {
            1int
        } else {
            0
        };
        SrsV2PartitionEncodeStats {
            rdo_partition_candidates_tested: (before.rdo_partition_candidates_tested + 4) as u64,
            partition_rejected_by_header_cost: (before.partition_rejected_by_header_cost + (
            if p.partition_cost_model == SrsV2PartitionCostModel::HeaderAware {
                differs
            } else {
                0
            })) as u64,
            partition_rejected_by_rdo: (before.partition_rejected_by_rdo + (
            if p.partition_cost_model == SrsV2PartitionCostModel::RdoFast {
                differs
            } else {
                0
            })) as u64,
            partition_sad_override_events: (before.partition_sad_override_events + differs) as u64,
            partition_sad_override_accum: (before.partition_sad_override_accum + (if other != pt
                && a > b {
                a - b
            } else {
                0
            })) as u64,
            ..before
        }
    }
}

/// The counters that a choice may raise are far from their ends.
pub open spec fn choice_room(st: SrsV2PartitionEncodeStats, n: int) -> bool {
    &&& st.rdo_partition_candidates_tested + 4 * n <= u64::MAX
    &&& st.partition_rejected_by_header_cost + n <= u64::MAX
    &&& st.partition_rejected_by_rdo + n <= u64::MAX
    &&& st.partition_sad_override_events + n <= u64::MAX
    &&& st.partition_sad_override_accum + 66846720 * n <= u64::MAX
}

/// A choice raises the counters by no more than one macroblock can.
pub open spec fn choice_grows(a: SrsV2PartitionEncodeStats, b: SrsV2PartitionEncodeStats) -> bool {
    &&& b.rdo_partition_candidates_tested <= a.rdo_partition_candidates_tested + 4
    &&& b.partition_rejected_by_header_cost <= a.partition_rejected_by_header_cost + 1
    &&& b.partition_rejected_by_rdo <= a.partition_rejected_by_rdo + 1
    &&& b.partition_sad_override_events <= a.partition_sad_override_events + 1
    &&& b.partition_sad_override_accum <= a.partition_sad_override_accum + 66846720
}

/// Chooses the partition of a macroblock. `lens` are the residual bytes of the four candidates
/// (whole, quarters, halves one above the other, halves side by side), where the settings ask for
/// them.
pub fn partition_choice_for_mb(
    cur: &VideoPlane<u8>,
    refp: &VideoPlane<u8>,
    settings: &SrsV2EncodeSettings,
    parts: &SrsV2PartitionSettings,
    ox: u32,
    oy: u32,
    lam_p: i64,
    lens: &[Result<usize, SrsV2Error>],
    ms: &mut SrsV2MotionEncodeStats,
) -> (r: Result<u8, SrsV2Error>)
    requires
        mb_fits(*cur, *refp, ox as int, oy as int),
        factor_ok(lam_p as int),
        trials_ok(*parts, lens@),
        old(ms).sad_evaluations <= u64::MAX - 28 * SEARCH_EVALS_CAP,
        choice_room(old(ms).partition, 1),
    ensures
        r == chosen_partition(
            *cur,
            *refp,
            *settings,
            *parts,
            ox as int,
            oy as int,
            lam_p as int,
            lens@,
        ),
        r is Err ==> *final(ms) == *old(ms),
        r matches Ok(pt) ==> pt <= 3 && *final(ms) == (SrsV2MotionEncodeStats {
            sad_evaluations: (old(ms).sad_evaluations + choice_evals(
                *cur,
                *refp,
                *settings,
                *parts,
                ox as int,
                oy as int,
            )) as u64,
            partition: choice_stats(
                old(ms).partition,
                *cur,
                *refp,
                *settings,
                *parts,
                ox as int,
                oy as int,
                lam_p as int,
                pt,
            ),
            ..*old(ms)
        }) && final(ms).sad_evaluations == old(ms).sad_evaluations + choice_evals(
            *cur,
            *refp,
            *settings,
            *parts,
            ox as int,
            oy as int,
        ) && old(ms).sad_evaluations <= final(ms).sad_evaluations <= old(ms).sad_evaluations + 28
            * SEARCH_EVALS_CAP && choice_grows(old(ms).partition, final(ms).partition),
{
    match parts.inter_partition_mode {
        SrsV2InterPartitionMode::Fixed16x16 => {
            return Ok(P_PART_WIRE_16X16);
        },
        SrsV2InterPartitionMode::Split8x8 => {
            return Ok(P_PART_WIRE_8X8);
        },
        SrsV2InterPartitionMode::Rect16x8 => {
            return Ok(P_PART_WIRE_16X8);
        },
        SrsV2InterPartitionMode::Rect8x16 => {
            return Ok(P_PART_WIRE_8X16);
        },
        SrsV2InterPartitionMode::AutoFast => {},
    }
    let mut evals: u64 = ms.sad_evaluations;
    let by_sad: u8 = autofast_compute_sad_only_choice(
        cur,
        refp,
        settings,
        ox,
        oy,
        lam_p,
        &mut evals,
    );
    if parts.partition_cost_model == SrsV2PartitionCostModel::SadOnly {
        ms.sad_evaluations = evals;
        ms.partition.rdo_partition_candidates_tested =
        ms.partition.rdo_partition_candidates_tested + 3;
        return Ok(by_sad);
    }
    let rdo = parts.partition_cost_model == SrsV2PartitionCostModel::RdoFast;
    let ghost scores = |i: int|
        nth_score(
            *cur,
            *refp,
            *settings,
            *parts,
            ox as int,
            oy as int,
            lam_p as int,
            lens@,
            i,
        );
    let ghost g_evals = |i: int|
        type_evals(*cur, *refp, *settings, ox as int, oy as int, candidate(i));
    let cands: [u8; 4] = [P_PART_WIRE_16X16, P_PART_WIRE_8X8, P_PART_WIRE_16X8, P_PART_WIRE_8X16];
    let mut sads: [u32; 4] = [0; 4];
    let mut best: usize = 0;
    let mut best_score: i128 = 0;
    let ghost e0 = evals as int;
    let mut i: usize = 0;
    while i < 4
        invariant
            i <= 4,
            mb_fits(*cur, *refp, ox as int, oy as int),
            factor_ok(lam_p as int),
            trials_ok(*parts, lens@),
            parts.inter_partition_mode == SrsV2InterPartitionMode::AutoFast,
            parts.partition_cost_model != SrsV2PartitionCostModel::SadOnly,
            rdo == (parts.partition_cost_model == SrsV2PartitionCostModel::RdoFast),
            cands@ == seq![0u8, 3u8, 1u8, 2u8],
            *ms == *old(ms),
            scores == (|i: int|
                nth_score(
                    *cur,
                    *refp,
                    *settings,
                    *parts,
                    ox as int,
                    oy as int,
                    lam_p as int,
                    lens@,
                    i,
                )),
            g_evals == (|i: int|
                type_evals(*cur, *refp, *settings, ox as int, oy as int, candidate(i))),
            e0 <= u64::MAX - 16 * SEARCH_EVALS_CAP,
            evals == e0 + total(i as int, g_evals),
            e0 <= evals <= e0 + i * 4000000000,
            rdo ==> trial_failure(lens@, i as int) is None,
            i > 0 ==> best < i && best == first_least(scores, i as int) && best_score == scores(
                best as int,
            ),
            forall|k: int|
                0 <= k < i ==> #[trigger] sads@[k] == type_sad(
                    *cur,
                    *refp,
                    *settings,
                    ox as int,
                    oy as int,
                    candidate(k),
                ) && sads@[k] <= 66846720,
        decreases 4 - i,
    {
        let pt: u8 = cands[i];
        assert(pt == candidate(i as int));
        let (sad, mvs) = match candidate_sad_and_mvs(cur, refp, settings, ox, oy, pt, &mut evals) {
            Ok(c) => c,
            Err(e) => {
                return Err(e);
            },
        };
        assert(g_evals(i as int) == type_evals(
            *cur,
            *refp,
            *settings,
            ox as int,
            oy as int,
            pt,
        ));
        sads[i] = sad;
        assert forall|j: int| 0 <= j < mvs@.len() implies magnitude((#[trigger] mvs@[j]).0 as int)
            <= 1048576 && magnitude(mvs@[j].1 as int) <= 1048576 by {
            assert(unit_vector_ok(mvs@[j]));
        }
        let mv_b: usize = mv_body_length(pt, mvs.as_slice());
        let res_b: usize = if rdo {
            match lens[i] {
                Ok(n) => n,
                Err(e) => {
                    proof {
                        lemma_trial_failure(lens@, i + 1, 4);
                    }
                    return Err(e);
                },
            }
        } else {
            0
        };
        let score: i128 = score_partition(parts, lam_p, pt, sad, mv_b, res_b);
        assert(score == scores(i as int));
        if i == 0 || score < best_score {
            best = i;
            best_score = score;
        }
        i += 1;
    }
    ms.sad_evaluations = evals;
    ms.partition.rdo_partition_candidates_tested =
    ms.partition.rdo_partition_candidates_tested + 4;
    let best_pt: u8 = cands[best];
    if by_sad != best_pt {
        if rdo {
            ms.partition.partition_rejected_by_rdo = ms.partition.partition_rejected_by_rdo + 1;
        } else {
            ms.partition.partition_rejected_by_header_cost =
            ms.partition.partition_rejected_by_header_cost + 1;
        }
        let place: usize = if by_sad == 0 {
            0
        } else if by_sad == 3 {
            1
        } else if by_sad == 1 {
            2
        } else {
            3
        };
        assert(candidate(place as int) == by_sad);
        assert(sads@[place as int] <= 66846720);
        assert(sads@[best as int] <= 66846720);
        ms.partition.partition_sad_override_events = ms.partition.partition_sad_override_events + 1;
        let gain: u32 = if sads[place] > sads[best] { sads[place] - sads[best] } else { 0 };
        ms.partition.partition_sad_override_accum = ms.partition.partition_sad_override_accum
            + gain as u64;
    }
    Ok(best_pt)
}

proof fn lemma_trial_failure(lens: Seq<Result<usize, SrsV2Error>>, k: int, n: int)
    requires
        k <= n,
        trial_failure(lens, k) is Some,
    ensures
        trial_failure(lens, n) == trial_failure(lens, k),
    decreases n - k,
{
    if k < n {
        lemma_trial_failure(lens, k, n - 1);
    }
}

} // verus!
