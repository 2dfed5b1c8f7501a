//! Planning forward pictures with variable partitions.
use vstd::prelude::*;

use crate::arith::total;
use crate::bytes::{clip, tdiv};
use super::error::SrsV2Error;
use super::frame::{lemma_packed_position, VideoPlane};
use super::inter_mv::{pu_start, P_PART_WIRE_16X16, P_PART_WIRE_16X8, P_PART_WIRE_8X16};
use super::motion_search::{
    no_partitions, SEARCH_EVALS_CAP, SrsV2MotionEncodeStats, SrsV2PartitionEncodeStats,
};
use super::p_var_choose::{
    candidate_sad_and_mvs, choice_evals, choice_stats, chosen_partition, factor_ok, mb_fits,
    partition_choice_for_mb, type_evals, type_vectors, unit_vector_ok, MAX_MB_RESIDUAL_RD_BYTES,
};
use super::partition_map::all_partitions;
use super::rate_control::{
    SrsV2EncodeSettings, SrsV2InterPartitionMode, SrsV2PartitionCostModel, SrsV2PartitionSettings,
};

verus! {

/// The rate factor of partition choices.
pub open spec fn partition_factor(lambda: int, scale: int) -> int {
    tdiv(clip(lambda * scale, i64::MIN as int, i64::MAX as int), 256)
}

/// The residual lengths of the trials of macroblock `i`.
pub open spec fn lens_of(
    p: SrsV2PartitionSettings,
    lens: Seq<Result<usize, SrsV2Error>>,
    i: int,
) -> Seq<Result<usize, SrsV2Error>> {
    if needs_trials(p) {
        lens.subrange(4 * i, 4 * i + 4)
    } else {
        lens
    }
}

/// The settings ask for the residual bytes of every candidate.
pub open spec fn needs_trials(p: SrsV2PartitionSettings) -> bool {
    p.inter_partition_mode == SrsV2InterPartitionMode::AutoFast && p.partition_cost_model
        == SrsV2PartitionCostModel::RdoFast
}

/// The partitions of the first `n` macroblocks.
pub open spec fn partitions_of(
    cur: VideoPlane<u8>,
    refp: VideoPlane<u8>,
    s: SrsV2EncodeSettings,
    p: SrsV2PartitionSettings,
    cols: int,
    lam: int,
    lens: Seq<Result<usize, SrsV2Error>>,
    n: int,
) -> Result<Seq<u8>, SrsV2Error>
    decreases n,
{
    if n <= 0 {
        Ok(seq![])
    } else {
        match partitions_of(cur, refp, s, p, cols, lam, lens, n - 1) {
            Err(e) => Err(e),
            Ok(v) => match chosen_partition(
                cur,
                refp,
                s,
                p,
                (n - 1) % cols * 16,
                (n - 1) / cols * 16,
                lam,
                lens_of(p, lens, n - 1),
            ) {
                Err(e) => Err(e),
                Ok(pt) => Ok(v.push(pt)),
            },
        }
    }
}

proof fn lemma_partitions_error(
    cur: VideoPlane<u8>,
    refp: VideoPlane<u8>,
    s: SrsV2EncodeSettings,
    p: SrsV2PartitionSettings,
    cols: int,
    lam: int,
    lens: Seq<Result<usize, SrsV2Error>>,
    k: int,
    n: int,
)
    requires
        k <= n,
        partitions_of(cur, refp, s, p, cols, lam, lens, k) is Err,
    ensures
        partitions_of(cur, refp, s, p, cols, lam, lens, n) == partitions_of(
            cur,
            refp,
            s,
            p,
            cols,
            lam,
            lens,
            k,
        ),
    decreases n - k,
{
    if k < n {
        lemma_partitions_error(cur, refp, s, p, cols, lam, lens, k, n - 1);
    }
}

/// One more macroblock of a partition type.
pub open spec fn with_type(st: SrsV2PartitionEncodeStats, pt: u8) -> SrsV2PartitionEncodeStats {
    if pt == P_PART_WIRE_16X16 {
        SrsV2PartitionEncodeStats {
            partition_16x16_count: (st.partition_16x16_count + 1) as u64,
            ..st
        }
    } else if pt == P_PART_WIRE_16X8 {
        SrsV2PartitionEncodeStats {
            partition_16x8_count: (st.partition_16x8_count + 1) as u64,
            ..st
        }
    } else if pt == P_PART_WIRE_8X16 {
        SrsV2PartitionEncodeStats {
            partition_8x16_count: (st.partition_8x16_count + 1) as u64,
            ..st
        }
    } else {
        SrsV2PartitionEncodeStats {
            partition_8x8_count: (st.partition_8x8_count + 1) as u64,
            ..st
        }
    }
}

/// The counters after the partitions of the first `n` macroblocks.
pub open spec fn partition_stats(
    start: SrsV2PartitionEncodeStats,
    cur: VideoPlane<u8>,
    refp: VideoPlane<u8>,
    s: SrsV2EncodeSettings,
    p: SrsV2PartitionSettings,
    cols: int,
    lam: int,
    parts: Seq<u8>,
    n: int,
) -> SrsV2PartitionEncodeStats
    decreases n,
{
    if n <= 0 {
        start
    } else {
        with_type(
            choice_stats(
                partition_stats(start, cur, refp, s, p, cols, lam, parts, n - 1),
                cur,
                refp,
                s,
                p,
                (n - 1) % cols * 16,
                (n - 1) / cols * 16,
                lam,
                parts[n - 1],
            ),
            parts[n - 1],
        )
    }
}

proof fn lemma_partition_stats_prefix(
    start: SrsV2PartitionEncodeStats,
    cur: VideoPlane<u8>,
    refp: VideoPlane<u8>,
    s: SrsV2EncodeSettings,
    p: SrsV2PartitionSettings,
    cols: int,
    lam: int,
    a: Seq<u8>,
    b: Seq<u8>,
    n: int,
)
    requires
        forall|i: int| 0 <= i < n ==> #[trigger] a[i] == b[i],
    ensures
        partition_stats(start, cur, refp, s, p, cols, lam, a, n) == partition_stats(
            start,
            cur,
            refp,
            s,
            p,
            cols,
            lam,
            b,
            n,
        ),
    decreases n,
{
    if n > 0 {
        lemma_partition_stats_prefix(start, cur, refp, s, p, cols, lam, a, b, n - 1);
    }
}

/// The name of a partition mode.
pub open spec fn mode_label(m: SrsV2InterPartitionMode) -> &'static str {
    match m {
        SrsV2InterPartitionMode::Fixed16x16 => "fixed16x16",
        SrsV2InterPartitionMode::Split8x8 => "split8x8",
        SrsV2InterPartitionMode::Rect16x8 => "rect16x8",
        SrsV2InterPartitionMode::Rect8x16 => "rect8x16",
        SrsV2InterPartitionMode::AutoFast => "auto-fast",
    }
}

/// The name of a cost model; empty where none is in use.
pub open spec fn cost_label(p: SrsV2PartitionSettings) -> &'static str {
    if p.inter_partition_mode != SrsV2InterPartitionMode::AutoFast {
        ""
    } else {
        match p.partition_cost_model {
            SrsV2PartitionCostModel::SadOnly => "sad-only",
            SrsV2PartitionCostModel::HeaderAware => "header-aware",
            SrsV2PartitionCostModel::RdoFast => "rdo-fast",
        }
    }
}

/// The counters that a picture starts from.
pub open spec fn fresh_partition_stats(p: SrsV2PartitionSettings) -> SrsV2PartitionEncodeStats {
    SrsV2PartitionEncodeStats {
        inter_partition_mode_label: mode_label(p.inter_partition_mode),
        partition_cost_model_label: cost_label(p),
        ..no_partitions()
    }
}

fn start_partition_stats(p: &SrsV2PartitionSettings) -> (r: SrsV2PartitionEncodeStats)
    ensures
        r == fresh_partition_stats(*p),
{
    let mut st = SrsV2PartitionEncodeStats::default();
    st.inter_partition_mode_label =
    match p.inter_partition_mode {
        SrsV2InterPartitionMode::Fixed16x16 => "fixed16x16",
        SrsV2InterPartitionMode::Split8x8 => "split8x8",
        SrsV2InterPartitionMode::Rect16x8 => "rect16x8",
        SrsV2InterPartitionMode::Rect8x16 => "rect8x16",
        SrsV2InterPartitionMode::AutoFast => "auto-fast",
    };
    st.partition_cost_model_label =
    if p.inter_partition_mode == SrsV2InterPartitionMode::AutoFast {
        match p.partition_cost_model {
            SrsV2PartitionCostModel::SadOnly => "sad-only",
            SrsV2PartitionCostModel::HeaderAware => "header-aware",
            SrsV2PartitionCostModel::RdoFast => "rdo-fast",
        }
    } else {
        ""
    };
    st
}

/// Every macroblock lies in the picture.
pub open spec fn frame_fits(cur: VideoPlane<u8>, refp: VideoPlane<u8>, cols: int, rows: int) -> bool {
    &&& cur.valid()
    &&& refp.valid()
    &&& 0 <= cols
    &&& 0 <= rows
    &&& cols * 16 <= cur.width
    &&& rows * 16 <= cur.height
}

pub proof fn lemma_mb_fits(cur: VideoPlane<u8>, refp: VideoPlane<u8>, cols: int, rows: int, i: int)
    requires
        frame_fits(cur, refp, cols, rows),
        0 <= i < cols * rows,
    ensures
        mb_fits(cur, refp, i % cols * 16, i / cols * 16),
        0 < cols,
        cols * rows <= 262144,
        0 <= i % cols < cols,
        0 <= i / cols < rows,
        cols <= 512,
        rows <= 512,
{
    assert(cols > 0) by (nonlinear_arith)
        requires
            0 < cols * rows,
            cols >= 0,
    ;
    lemma_packed_position(i, cols, rows);
    assert(cols * rows <= 512 * 512) by (nonlinear_arith)
        requires
            0 <= cols <= 512,
            0 <= rows <= 512,
    ;
}

/// The trials of every macroblock are there where they are asked for.
pub open spec fn all_trials_ok(
    p: SrsV2PartitionSettings,
    lens: Seq<Result<usize, SrsV2Error>>,
    n: int,
) -> bool {
    needs_trials(p) ==> lens.len() == 4 * n && forall|i: int|
        0 <= i < lens.len() ==> ((#[trigger] lens[i]) matches Ok(k) ==> k
            <= MAX_MB_RESIDUAL_RD_BYTES)
}

/// Chooses the partitions of a picture. `lens` are the residual bytes of the candidates, four per
/// macroblock, where the settings ask for them.
pub fn choose_partitions(
    cur: &VideoPlane<u8>,
    refp: &VideoPlane<u8>,
    settings: &SrsV2EncodeSettings,
    parts: &SrsV2PartitionSettings,
    cols: u32,
    rows: u32,
    lam_p: i64,
    lens: &[Result<usize, SrsV2Error>],
    ms: &mut SrsV2MotionEncodeStats,
) -> (r: Result<Vec<u8>, SrsV2Error>)
    requires
        frame_fits(*cur, *refp, cols as int, rows as int),
        factor_ok(lam_p as int),
        all_trials_ok(*parts, lens@, cols * rows),
        old(ms).sad_evaluations <= u64::MAX / 2,
    ensures
        match partitions_of(
            *cur,
            *refp,
            *settings,
            *parts,
            cols as int,
            lam_p as int,
            lens@,
            cols * rows,
        ) {
            Err(e) => r == Err::<Vec<u8>, SrsV2Error>(e) && *final(ms) == *old(ms),
            Ok(v) => r is Ok && r->Ok_0@ == v && all_partitions(v) && v.len() == cols * rows
                && *final(ms) == (SrsV2MotionEncodeStats {
                sad_evaluations: (old(ms).sad_evaluations + total(
                    cols * rows,
                    |i: int|
                        choice_evals(
                            *cur,
                            *refp,
                            *settings,
                            *parts,
                            i % (cols as int) * 16,
                            i / (cols as int) * 16,
                        ),
                )) as u64,
                partition: partition_stats(
                    fresh_partition_stats(*parts),
                    *cur,
                    *refp,
                    *settings,
                    *parts,
                    cols as int,
                    lam_p as int,
                    v,
                    cols * rows,
                ),
                ..*old(ms)
            }) && final(ms).sad_evaluations == old(ms).sad_evaluations + total(
                cols * rows,
                |i: int|
                    choice_evals(
                        *cur,
                        *refp,
                        *settings,
                        *parts,
                        i % (cols as int) * 16,
                        i / (cols as int) * 16,
                    ),
            ) && final(ms).sad_evaluations <= old(ms).sad_evaluations + 262144 * (28
                * SEARCH_EVALS_CAP),
        },
{
    assert(cols * rows <= 512 * 512) by (nonlinear_arith)
        requires
            cols <= 512,
            rows <= 512,
    ;
    let n: u32 = cols * rows;
    let trials = match parts.inter_partition_mode {
        SrsV2InterPartitionMode::AutoFast => parts.partition_cost_model
            == SrsV2PartitionCostModel::RdoFast,
        _ => false,
    };
    let untouched: SrsV2MotionEncodeStats = *ms;
    ms.partition = start_partition_stats(parts);
    let ghost e0 = ms.sad_evaluations as int;
    let ghost g = |i: int|
        choice_evals(
            *cur,
            *refp,
            *settings,
            *parts,
            i % (cols as int) * 16,
            i / (cols as int) * 16,
        );
    let mut out: Vec<u8> = Vec::with_capacity(n as usize);
    let mut i: u32 = 0;
    assert(out@ =~= Seq::<u8>::empty());
    while i < n
        invariant
            i <= n,
            n == cols * rows,
            n <= 262144,
            frame_fits(*cur, *refp, cols as int, rows as int),
            factor_ok(lam_p as int),
            all_trials_ok(*parts, lens@, cols * rows),
            trials == needs_trials(*parts),
            untouched == *old(ms),
            e0 == old(ms).sad_evaluations,
            e0 <= u64::MAX / 2,
            g == (|i: int|
                choice_evals(
                    *cur,
                    *refp,
                    *settings,
                    *parts,
                    i % (cols as int) * 16,
                    i / (cols as int) * 16,
                )),
            partitions_of(
                *cur,
                *refp,
                *settings,
                *parts,
                cols as int,
                lam_p as int,
                lens@,
                i as int,
            ) == Ok::<Seq<u8>, SrsV2Error>(out@),
            out@.len() == i,
            all_partitions(out@),
            *ms == (SrsV2MotionEncodeStats {
                sad_evaluations: ms.sad_evaluations,
                partition: ms.partition,
                ..*old(ms)
            }),
            ms.sad_evaluations == e0 + total(i as int, g),
            e0 <= ms.sad_evaluations <= e0 + i * 28000000000,
            ms.partition == partition_stats(
                fresh_partition_stats(*parts),
                *cur,
                *refp,
                *settings,
                *parts,
                cols as int,
                lam_p as int,
                out@,
                i as int,
            ),
            ms.partition.rdo_partition_candidates_tested <= 4 * i,
            ms.partition.partition_rejected_by_header_cost <= i,
            ms.partition.partition_rejected_by_rdo <= i,
            ms.partition.partition_sad_override_events <= i,
            ms.partition.partition_sad_override_accum <= 66846720 * i,
            ms.partition.partition_16x16_count <= i,
            ms.partition.partition_16x8_count <= i,
            ms.partition.partition_8x16_count <= i,
            ms.partition.partition_8x8_count <= i,
        decreases n - i,
    {
        proof {
            lemma_mb_fits(*cur, *refp, cols as int, rows as int, i as int);
        }
        let ghost before = out@;
        let ghost was = ms.partition;
        let k: usize = 4 * i as usize;
        let own: &[Result<usize, SrsV2Error>] = if trials {
            vstd::slice::slice_subrange(lens, k, k + 4)
        } else {
            lens
        };
        assert(own@ == lens_of(*parts, lens@, i as int));
        let choice = partition_choice_for_mb(
            cur,
            refp,
            settings,
            parts,
            i % cols * 16,
            i / cols * 16,
            lam_p,
            own,
            ms,
        );
        assert(g(i as int) == choice_evals(
            *cur,
            *refp,
            *settings,
            *parts,
            i as int % (cols as int) * 16,
            i as int / (cols as int) * 16,
        ));
        let pt: u8 = match choice {
            Err(e) => {
                proof {
                    lemma_partitions_error(
                        *cur,
                        *refp,
                        *settings,
                        *parts,
                        cols as int,
                        lam_p as int,
                        lens@,
                        i + 1,
                        n as int,
                    );
                }
                *ms = untouched;
                return Err(e);
            },
            Ok(pt) => pt,
        };
        if pt == P_PART_WIRE_16X16 {
            ms.partition.partition_16x16_count = ms.partition.partition_16x16_count + 1;
        } else if pt == P_PART_WIRE_16X8 {
            ms.partition.partition_16x8_count = ms.partition.partition_16x8_count + 1;
        } else if pt == P_PART_WIRE_8X16 {
            ms.partition.partition_8x16_count = ms.partition.partition_8x16_count + 1;
        } else {
            ms.partition.partition_8x8_count = ms.partition.partition_8x8_count + 1;
        }
        out.push(pt);
        proof {
            lemma_partition_stats_prefix(
                fresh_partition_stats(*parts),
                *cur,
                *refp,
                *settings,
                *parts,
                cols as int,
                lam_p as int,
                before,
                out@,
                i as int,
            );
        }
        i += 1;
    }
    Ok(out)
}

/// The vectors of the first `n` macroblocks.
pub open spec fn picture_vectors(
    cur: VideoPlane<u8>,
    refp: VideoPlane<u8>,
    s: SrsV2EncodeSettings,
    cols: int,
    parts: Seq<u8>,
    n: int,
) -> Seq<(i32, i32)>
    decreases n,
{
    if n <= 0 {
        seq![]
    } else {
        picture_vectors(cur, refp, s, cols, parts, n - 1) + type_vectors(
            cur,
            refp,
            s,
            (n - 1) % cols * 16,
            (n - 1) / cols * 16,
            parts[n - 1],
        )
    }
}

/// Every vector is a multiple of a pel and stays within the search window.
pub open spec fn unit_vectors_ok(mvs: Seq<(i32, i32)>) -> bool {
    forall|i: int| 0 <= i < mvs.len() ==> unit_vector_ok(#[trigger] mvs[i])
}

fn append_vectors(out: &mut Vec<(i32, i32)>, more: &[(i32, i32)])
    ensures
        final(out)@ == old(out)@ + more@,
{
    let n: usize = more.len();
    let mut i: usize = 0;
    assert(out@ =~= old(out)@ + more@.take(0));
    while i < n
        invariant
            i <= n,
            n == more@.len(),
            out@ == old(out)@ + more@.take(i as int),
        decreases n - i,
    {
        out.push(more[i]);
        i += 1;
        assert(out@ =~= old(out)@ + more@.take(i as int));
    }
    assert(more@.take(n as int) =~= more@);
}

/// Searches the vectors of every unit of a picture. The search leaves only vectors that the
/// payload can carry.
pub fn collect_pu_mvs(
    cur: &VideoPlane<u8>,
    refp: &VideoPlane<u8>,
    settings: &SrsV2EncodeSettings,
    partitions: &[u8],
    cols: u32,
    rows: u32,
    ms: &mut SrsV2MotionEncodeStats,
) -> (r: Result<Vec<(i32, i32)>, SrsV2Error>)
    requires
        frame_fits(*cur, *refp, cols as int, rows as int),
        partitions@.len() == cols * rows,
        all_partitions(partitions@),
        old(ms).sad_evaluations <= u64::MAX - 262144 * (4 * SEARCH_EVALS_CAP),
    ensures
        r is Ok,
        r->Ok_0@ == picture_vectors(
            *cur,
            *refp,
            *settings,
            cols as int,
            partitions@,
            cols * rows,
        ),
        r->Ok_0@.len() == pu_start(partitions@, cols * rows),
        unit_vectors_ok(r->Ok_0@),
        *final(ms) == (SrsV2MotionEncodeStats {
            sad_evaluations: (old(ms).sad_evaluations + total(
                cols * rows,
                |i: int|
                    type_evals(
                        *cur,
                        *refp,
                        *settings,
                        i % (cols as int) * 16,
                        i / (cols as int) * 16,
                        partitions@[i],
                    ),
            )) as u64,
            ..*old(ms)
        }),
{
    assert(cols * rows <= 512 * 512) by (nonlinear_arith)
        requires
            cols <= 512,
            rows <= 512,
    ;
    let n: u32 = cols * rows;
    let mut evals: u64 = ms.sad_evaluations;
    let ghost e0 = evals as int;
    let ghost g = |i: int|
        type_evals(
            *cur,
            *refp,
            *settings,
            i % (cols as int) * 16,
            i / (cols as int) * 16,
            partitions@[i],
        );
    let mut out: Vec<(i32, i32)> = Vec::new();
    let mut i: u32 = 0;
    while i < n
        invariant
            i <= n,
            n == cols * rows,
            n <= 262144,
            frame_fits(*cur, *refp, cols as int, rows as int),
            partitions@.len() == n,
            all_partitions(partitions@),
            g == (|i: int|
                type_evals(
                    *cur,
                    *refp,
                    *settings,
                    i % (cols as int) * 16,
                    i / (cols as int) * 16,
                    partitions@[i],
                )),
            e0 <= u64::MAX - 262144 * (4 * SEARCH_EVALS_CAP),
            evals == e0 + total(i as int, g),
            e0 <= evals <= e0 + i * 4000000000,
            out@ == picture_vectors(
                *cur,
                *refp,
                *settings,
                cols as int,
                partitions@,
                i as int,
            ),
            out@.len() == pu_start(partitions@, i as int),
            unit_vectors_ok(out@),
        decreases n - i,
    {
        proof {
            lemma_mb_fits(*cur, *refp, cols as int, rows as int, i as int);
        }
        let ghost before = out@;
        let pt: u8 = partitions[i as usize];
        assert(pt <= 3);
        assert(g(i as int) == type_evals(
            *cur,
            *refp,
            *settings,
            i as int % (cols as int) * 16,
            i as int / (cols as int) * 16,
            pt,
        ));
        match candidate_sad_and_mvs(
            cur,
            refp,
            settings,
            i % cols * 16,
            i / cols * 16,
            pt,
            &mut evals,
        ) {
            Ok(c) => {
                let ghost more = c.1@;
                append_vectors(&mut out, c.1.as_slice());
                assert forall|k: int| 0 <= k < out@.len() implies unit_vector_ok(
                    #[trigger] out@[k],
                ) by {
                    if k < before.len() {
                        assert(out@[k] == before[k]);
                    } else {
                        assert(out@[k] == more[k - before.len()]);
                    }
                }
            },
            Err(e) => {
                return Err(e);
            },
        }
        i += 1;
    }
    ms.sad_evaluations = evals;
    Ok(out)
}

/// The factor of partitions is that of the picture in units of 256: 256 leaves it, and more charges
/// more.
pub proof fn partitions_scale_the_factor(lambda: int, scale: int, more: int)
    requires
        0 <= lambda,
        0 <= scale <= more,
        lambda * more <= i64::MAX,
    ensures
        256 * partition_factor(lambda, scale) <= lambda * scale < 256 * partition_factor(
            lambda,
            scale,
        ) + 256,
        partition_factor(lambda, scale) <= partition_factor(lambda, more),
        lambda <= 36028797018963967 ==> partition_factor(lambda, 256) == lambda,
{
    assert(0 <= lambda * scale <= lambda * more) by (nonlinear_arith)
        requires
            0 <= lambda,
            0 <= scale <= more,
    ;
}

/// Every way of partitioning and of weighing goes under a name of its own.
pub proof fn partition_labels_differ(a: SrsV2InterPartitionMode, b: SrsV2InterPartitionMode)
    requires
        mode_label(a)@ == mode_label(b)@,
    ensures
        a == b,
{
    reveal_strlit("fixed16x16");
    reveal_strlit("split8x8");
    reveal_strlit("rect16x8");
    reveal_strlit("rect8x16");
    reveal_strlit("auto-fast");
    let (x, y) = (mode_label(a)@, mode_label(b)@);
    assert(x.len() == y.len());
    assert(x[0] == y[0] && x[4] == y[4]);
}

} // verus!
