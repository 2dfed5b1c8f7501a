//! Rate-distortion scores: the distortion plus the bytes on the wire times a fixed-point factor,
//! 256 of which stand for 1.
use vstd::prelude::*;

use crate::arith::{greatest, least, sat_mul_i64, total};
use crate::bytes::{clip, tdiv};
use super::error::SrsV2Error;
use super::inter_mv::{
    delta_bytes, delta_fits, predict_mv_qpel, predicted, pu_count_partition_wire,
    signed_varint_wire_bytes, units,
};
use super::motion_search::SrsV2RdoBenchStats;
use super::rate_control::{SrsV2InterSyntaxMode, SrsV2RdoMode};

verus! {

/// How many candidates one decision may compare.
pub const MAX_RDO_CANDIDATES: usize = 16;

/// Bytes on the wire, by kind.
#[derive(Debug, Clone, Copy, PartialEq, Eq, Structural)]
pub struct RdoCost {
    pub partition_map_bytes: u64,
    pub mv_compact_or_entropy_bytes: u64,
    pub residual_bytes: u64,
    pub transform_id_bytes: u64,
    pub block_aq_bytes: u64,
    pub skip_flags_bytes: u64,
    pub blend_weight_bytes: u64,
}

/// A cost of nothing.
pub open spec fn no_cost() -> RdoCost {
    RdoCost {
        partition_map_bytes: 0,
        mv_compact_or_entropy_bytes: 0,
        residual_bytes: 0,
        transform_id_bytes: 0,
        block_aq_bytes: 0,
        skip_flags_bytes: 0,
        blend_weight_bytes: 0,
    }
}

impl Default for RdoCost {
    fn default() -> (r: Self)
        ensures
            r == no_cost(),
    {
        RdoCost {
            partition_map_bytes: 0,
            mv_compact_or_entropy_bytes: 0,
            residual_bytes: 0,
            transform_id_bytes: 0,
            block_aq_bytes: 0,
            skip_flags_bytes: 0,
            blend_weight_bytes: 0,
        }
    }
}

impl RdoCost {
    /// The sum of all kinds, held at the largest `i64`.
    pub open spec fn wire_bytes(self) -> int {
        least(
            self.partition_map_bytes + self.mv_compact_or_entropy_bytes + self.residual_bytes
                + self.transform_id_bytes + self.block_aq_bytes + self.skip_flags_bytes
                + self.blend_weight_bytes,
            i64::MAX as int,
        )
    }

    /// The sum of all kinds, held at the largest `i64`.
    pub fn total_wire_bytes(&self) -> (r: i64)
        ensures
            r == self.wire_bytes(),
            0 <= r,
    {
        let s: u64 = self.partition_map_bytes.saturating_add(
            self.mv_compact_or_entropy_bytes,
        ).saturating_add(self.residual_bytes).saturating_add(
            self.transform_id_bytes,
        ).saturating_add(self.block_aq_bytes).saturating_add(
            self.skip_flags_bytes,
        ).saturating_add(self.blend_weight_bytes);
        if s > i64::MAX as u64 {
            i64::MAX
        } else {
            s as i64
        }
    }

    /// All bytes as one kind.
    pub fn from_total_bytes(n: u64) -> (r: Self)
        ensures
            r == (RdoCost { mv_compact_or_entropy_bytes: n, ..no_cost() }),
            r.wire_bytes() == least(n as int, i64::MAX as int),
    {
        RdoCost {
            partition_map_bytes: 0,
            mv_compact_or_entropy_bytes: n,
            residual_bytes: 0,
            transform_id_bytes: 0,
            block_aq_bytes: 0,
            skip_flags_bytes: 0,
            blend_weight_bytes: 0,
        }
    }
}

/// One alternative of a decision.
#[derive(Debug, Clone, Copy, PartialEq, Eq, Structural)]
pub struct RdoCandidate {
    pub id: u8,
    pub distortion: u32,
    pub cost: RdoCost,
}

/// The outcome of a decision.
#[derive(Debug, Clone, Copy, PartialEq, Eq, Structural)]
pub struct RdoDecision {
    pub chosen_index: usize,
    pub chosen_id: u8,
    pub best_score: i128,
}

/// Counters of one decision.
#[derive(Debug, Clone, Copy, PartialEq, Eq, Structural)]
pub struct RdoStats {
    pub candidates_compared: u32,
    pub estimated_side_bytes: u64,
}

impl Default for RdoStats {
    fn default() -> (r: Self)
        ensures
            r == (RdoStats { candidates_compared: 0, estimated_side_bytes: 0 }),
    {
        RdoStats { candidates_compared: 0, estimated_side_bytes: 0 }
    }
}

impl RdoStats {
    /// Adds the counters to those of a picture.
    pub fn merge_into_bench(&self, bench: &mut SrsV2RdoBenchStats)
        ensures
            *final(bench) == (SrsV2RdoBenchStats {
                candidates_tested: least(
                    old(bench).candidates_tested + self.candidates_compared,
                    u64::MAX as int,
                ) as u64,
                estimated_bits_used_for_decision: least(
                    old(bench).estimated_bits_used_for_decision + self.estimated_side_bytes,
                    u64::MAX as int,
                ) as u64,
                ..*old(bench)
            }),
    {
        bench.candidates_tested =
        bench.candidates_tested.saturating_add(self.candidates_compared as u64);
        bench.estimated_bits_used_for_decision =
        bench.estimated_bits_used_for_decision.saturating_add(self.estimated_side_bytes);
    }
}

/// Counters of motion decisions.
#[derive(Debug, Clone, Copy, PartialEq, Eq, Structural)]
pub struct RdoModeDecisionStats {
    pub inter_zero_mv_wins: u64,
    pub inter_me_mv_wins: u64,
}

impl Default for RdoModeDecisionStats {
    fn default() -> (r: Self)
        ensures
            r == (RdoModeDecisionStats { inter_zero_mv_wins: 0, inter_me_mv_wins: 0 }),
    {
        RdoModeDecisionStats { inter_zero_mv_wins: 0, inter_me_mv_wins: 0 }
    }
}

impl RdoModeDecisionStats {
    /// Counts one decision between the zero vector and a searched one.
    pub fn record_inter_mv_pick(&mut self, chose_zero_mv: bool)
        ensures
            *final(self) == if chose_zero_mv {
                RdoModeDecisionStats {
                    inter_zero_mv_wins: least(
                        old(self).inter_zero_mv_wins + 1,
                        u64::MAX as int,
                    ) as u64,
                    ..*old(self)
                }
            } else {
                RdoModeDecisionStats {
                    inter_me_mv_wins: least(
                        old(self).inter_me_mv_wins + 1,
                        u64::MAX as int,
                    ) as u64,
                    ..*old(self)
                }
            },
    {
        if chose_zero_mv {
            self.inter_zero_mv_wins = self.inter_zero_mv_wins.saturating_add(1);
        } else {
            self.inter_me_mv_wins = self.inter_me_mv_wins.saturating_add(1);
        }
    }

    /// Adds the counters to those of a picture.
    pub fn merge_into_bench(&self, bench: &mut SrsV2RdoBenchStats)
        ensures
            *final(bench) == (SrsV2RdoBenchStats {
                inter_zero_mv_wins: least(
                    old(bench).inter_zero_mv_wins + self.inter_zero_mv_wins,
                    u64::MAX as int,
                ) as u64,
                inter_me_mv_wins: least(
                    old(bench).inter_me_mv_wins + self.inter_me_mv_wins,
                    u64::MAX as int,
                ) as u64,
                ..*old(bench)
            }),
    {
        bench.inter_zero_mv_wins =
        bench.inter_zero_mv_wins.saturating_add(self.inter_zero_mv_wins);
        bench.inter_me_mv_wins = bench.inter_me_mv_wins.saturating_add(self.inter_me_mv_wins);
    }
}

/// The distortion plus the factor times the bytes; fewer than no bytes count as none.
pub open spec fn score(distortion: int, lambda_fp: int, wire_bytes: int) -> int {
    distortion + tdiv(lambda_fp * greatest(wire_bytes, 0), 256)
}

proof fn lemma_scaled(a: int, b: int)
    requires
        -9223372036854775808 <= a <= 9223372036854775807,
        0 <= b <= 9223372036854775807,
    ensures
        -85070591730234615865843651857942052864 <= a * b <= 85070591730234615865843651857942052864,
{
    assert(-85070591730234615865843651857942052864 <= a * b
        <= 85070591730234615865843651857942052864) by (nonlinear_arith)
        requires
            -9223372036854775808 <= a <= 9223372036854775807,
            0 <= b <= 9223372036854775807,
    ;
}

/// Scores an alternative.
pub fn rdo_score(distortion: u32, lambda_fp: i64, wire_bytes: i64) -> (r: i128)
    ensures
        r == score(distortion as int, lambda_fp as int, wire_bytes as int),
{
    let b: i64 = if wire_bytes < 0 { 0 } else { wire_bytes };
    proof {
        lemma_scaled(lambda_fp as int, b as int);
    }
    distortion as i128 + (lambda_fp as i128 * b as i128) / 256
}

/// The score of an alternative with its cost by kind.
pub open spec fn candidate_score(c: RdoCandidate, lambda_fp: int) -> int {
    score(c.distortion as int, lambda_fp, c.cost.wire_bytes())
}

/// Scores an alternative with its cost by kind.
pub fn score_candidate(distortion: u32, lambda_fp: i64, cost: &RdoCost) -> (r: i128)
    ensures
        r == score(distortion as int, lambda_fp as int, cost.wire_bytes()),
{
    rdo_score(distortion, lambda_fp, cost.total_wire_bytes())
}

/// With a factor of 0 only the distortion counts.
pub proof fn free_bytes_leave_the_distortion(distortion: int, wire_bytes: int)
    ensures
        score(distortion, 0, wire_bytes) == distortion,
{
}

/// More bytes never lower a score, while the factor is not negative.
pub proof fn bytes_never_lower_a_score(distortion: int, lambda_fp: int, a: int, b: int)
    requires
        0 <= lambda_fp,
        a <= b,
    ensures
        score(distortion, lambda_fp, a) <= score(distortion, lambda_fp, b),
{
    let x = greatest(a, 0);
    let y = greatest(b, 0);
    assert(0 <= lambda_fp * x <= lambda_fp * y) by (nonlinear_arith)
        requires
            0 <= lambda_fp,
            0 <= x <= y,
    ;
}

/// Bytes of a forward picture up to its flags, and of its clip range if it has one.
pub fn estimate_inter_header_bytes(inter_syntax: SrsV2InterSyntaxMode, block_aq_wire: bool) -> (r:
    u64)
    ensures
        r == 9 + (if inter_syntax == SrsV2InterSyntaxMode::RawLegacy { 0int } else { 1 }) + (
        if block_aq_wire { 2int } else { 0 }),
{
    let aq: u64 = if block_aq_wire { 2 } else { 0 };
    match inter_syntax {
        SrsV2InterSyntaxMode::RawLegacy => 9 + aq,
        SrsV2InterSyntaxMode::CompactV1 | SrsV2InterSyntaxMode::EntropyV1 => 10 + aq,
    }
}

/// A cost from its kinds.
pub fn estimate_partition_candidate_bytes(
    partition_map_bytes: u64,
    mv_compact_or_entropy_bytes: u64,
    residual_bytes: u64,
    transform_id_bytes: u64,
    block_aq_bytes: u64,
    skip_flags_bytes: u64,
    blend_weight_bytes: u64,
) -> (r: RdoCost)
    ensures
        r == (RdoCost {
            partition_map_bytes,
            mv_compact_or_entropy_bytes,
            residual_bytes,
            transform_id_bytes,
            block_aq_bytes,
            skip_flags_bytes,
            blend_weight_bytes,
        }),
{
    RdoCost {
        partition_map_bytes,
        mv_compact_or_entropy_bytes,
        residual_bytes,
        transform_id_bytes,
        block_aq_bytes,
        skip_flags_bytes,
        blend_weight_bytes,
    }
}

/// A product fits 128 bits.
pub open spec fn fits128(v: int) -> bool {
    i128::MIN <= v <= i128::MAX
}

/// The score of a partition: vector and residual bytes, weighted by the factor and a bias.
pub open spec fn biased_score(distortion: int, lambda_fp: int, bias: int, side: int) -> int {
    distortion + tdiv(lambda_fp * bias * side, 65536)
}

/// Scores a partition by its vector and residual bytes.
pub fn partition_rdo_fast_score(
    distortion: u32,
    lambda_partition_fp: i64,
    quality_bias_fp: u16,
    mv_b: usize,
    res_b: usize,
) -> (r: i128)
    requires
        least(mv_b + res_b, usize::MAX as int) <= 281474976710655,
    ensures
        r == biased_score(
            distortion as int,
            lambda_partition_fp as int,
            quality_bias_fp as int,
            least(mv_b + res_b, usize::MAX as int),
        ),
{
    let side: usize = mv_b.saturating_add(res_b);
    proof {
        lemma_weighted(lambda_partition_fp as int, quality_bias_fp as int, side as int);
    }
    distortion as i128 + (lambda_partition_fp as i128 * quality_bias_fp as i128 * side as i128)
        / 65536
}

proof fn lemma_weighted(a: int, w: int, side: int)
    requires
        -9223372036854775808 <= a <= 9223372036854775807,
        0 <= w <= 65535,
        0 <= side <= 281474976710655,
    ensures
        -604462909807314587353088 <= a * w <= 604462909807314587353088,
        -170141183460469231731687303715884105728 <= a * w * side
            <= 170141183460469231731687303715884105727 - 4294967296,
{
    assert(-604453686435277732577280 <= a * w <= 604453686435277732577280) by (nonlinear_arith)
        requires
            -9223372036854775808 <= a <= 9223372036854775807,
            0 <= w <= 65535,
    ;
    let p = a * w;
    assert(-170138587312039964298105870090240000000 <= p * side
        <= 170138587312039964298105870090240000000) by (nonlinear_arith)
        requires
            -604453686435277732577280 <= p <= 604453686435277732577280,
            0 <= side <= 281474976710655,
    ;
}

/// The cost of a partition type: units beyond the first need map, transform and, where deltas are
/// on the wire, delta bytes.
pub open spec fn partition_cost(pt: u8, mv_bytes: int, residual_bytes: int, deltas: bool) -> RdoCost {
    let n = units(pt);
    RdoCost {
        partition_map_bytes: (if n == 1 {
            0int
        } else if n == 2 {
            1
        } else {
            4
        }) as u64,
        mv_compact_or_entropy_bytes: mv_bytes as u64,
        residual_bytes: residual_bytes as u64,
        transform_id_bytes: (if n == 1 {
            0int
        } else if n == 2 {
            2
        } else {
            4
        }) as u64,
        block_aq_bytes: (if deltas {
            n - 1
        } else {
            0
        }) as u64,
        ..no_cost()
    }
}

/// The bytes that a macroblock of a partition type takes.
pub fn autofast_partition_mb_wire_cost(
    partition_wire_tag: u8,
    mv_body_bytes: usize,
    residual_body_bytes: usize,
    block_aq_wire: bool,
) -> (r: Result<RdoCost, SrsV2Error>)
    ensures
        partition_wire_tag <= 3 ==> r == Ok::<RdoCost, SrsV2Error>(
            partition_cost(
                partition_wire_tag,
                mv_body_bytes as int,
                residual_body_bytes as int,
                block_aq_wire,
            ),
        ),
        partition_wire_tag > 3 ==> r == Err::<RdoCost, SrsV2Error>(
            SrsV2Error::Syntax("P partition reserved bits"),
        ),
{
    let npu: usize = match pu_count_partition_wire(partition_wire_tag) {
        Err(e) => {
            return Err(e);
        },
        Ok(n) => n,
    };
    let (map, transform): (u64, u64) = if npu == 1 {
        (0, 0)
    } else if npu == 2 {
        (1, 2)
    } else {
        (4, 4)
    };
    let aq: u64 = if block_aq_wire { (npu - 1) as u64 } else { 0 };
    Ok(
        estimate_partition_candidate_bytes(
            map,
            mv_body_bytes as u64,
            residual_body_bytes as u64,
            transform,
            aq,
            0,
            0,
        ),
    )
}

/// The factor after a bias, of which 256 stand for 1; no bias is less than 1.
pub open spec fn biased_lambda(lambda_fp: int, bias: int) -> int {
    tdiv(clip(lambda_fp * greatest(bias, 1), i64::MIN as int, i64::MAX as int), 256)
}

/// Scores a partition by everything that it puts on the wire.
pub fn autofast_partition_mb_rdo_score(
    partition_wire_tag: u8,
    distortion: u32,
    lambda_partition_fp: i64,
    quality_bias_fp: u16,
    mv_body_bytes: usize,
    residual_body_bytes: usize,
    block_aq_wire: bool,
) -> (r: Result<i128, SrsV2Error>)
    ensures
        partition_wire_tag <= 3 ==> r is Ok && r->Ok_0 == score(
            distortion as int,
            biased_lambda(lambda_partition_fp as int, quality_bias_fp as int),
            partition_cost(
                partition_wire_tag,
                mv_body_bytes as int,
                residual_body_bytes as int,
                block_aq_wire,
            ).wire_bytes(),
        ),
        partition_wire_tag > 3 ==> r == Err::<i128, SrsV2Error>(
            SrsV2Error::Syntax("P partition reserved bits"),
        ),
{
    let cost = match autofast_partition_mb_wire_cost(
        partition_wire_tag,
        mv_body_bytes,
        residual_body_bytes,
        block_aq_wire,
    ) {
        Err(e) => {
            return Err(e);
        },
        Ok(c) => c,
    };
    let bias: i64 = if quality_bias_fp < 1 { 1 } else { quality_bias_fp as i64 };
    let lam_eff: i64 = sat_mul_i64(lambda_partition_fp, bias) / 256;
    Ok(score_candidate(distortion, lam_eff, &cost))
}

/// The score of a partition with penalties for vectors, extra units and a split.
pub open spec fn header_score(
    distortion: int,
    lambda_fp: int,
    split_penalty: int,
    mv_bytes: int,
    mv_penalty: int,
    extra_pu: int,
    header_penalty: int,
) -> int {
    distortion + tdiv(lambda_fp * mv_penalty * mv_bytes, 65536) + tdiv(
        lambda_fp * header_penalty * extra_pu,
        65536,
    ) + tdiv(lambda_fp * split_penalty, 65536)
}

/// Scores a partition with penalties for vectors, extra units and a split.
pub fn partition_header_aware_score(
    distortion: u32,
    lambda_partition_fp: i64,
    split_penalty_fp: i128,
    mv_wire_bytes: usize,
    mv_penalty_fp: u16,
    extra_pu: u32,
    header_penalty_fp: u16,
) -> (r: i128)
    requires
        mv_wire_bytes <= 281474976710655,
        fits128(lambda_partition_fp * split_penalty_fp),
    ensures
        r == header_score(
            distortion as int,
            lambda_partition_fp as int,
            split_penalty_fp as int,
            mv_wire_bytes as int,
            mv_penalty_fp as int,
            extra_pu as int,
            header_penalty_fp as int,
        ),
{
    proof {
        lemma_weighted(lambda_partition_fp as int, mv_penalty_fp as int, mv_wire_bytes as int);
        lemma_weighted(lambda_partition_fp as int, header_penalty_fp as int, extra_pu as int);
    }
    let a: i128 = (lambda_partition_fp as i128 * mv_penalty_fp as i128 * mv_wire_bytes as i128)
        / 65536;
    let b: i128 = (lambda_partition_fp as i128 * header_penalty_fp as i128 * extra_pu as i128)
        / 65536;
    let c: i128 = (lambda_partition_fp as i128 * split_penalty_fp) / 65536;
    distortion as i128 + a + b + c
}

/// Skipping a residual with small differences costs no more than sending it.
pub fn p_subblock_skip_residual_is_rdo_cheaper(
    max_abs: i16,
    lambda_fp: i64,
    wire_residual_bytes: i64,
) -> (r: bool)
    ensures
        r == (max_abs * 256 <= lambda_fp * greatest(wire_residual_bytes as int, 1)),
{
    let b: i64 = if wire_residual_bytes < 1 { 1 } else { wire_residual_bytes };
    proof {
        lemma_scaled(lambda_fp as int, b as int);
    }
    max_abs as i128 * 256 <= lambda_fp as i128 * b as i128
}

/// Adds a candidate while there is room.
pub fn bounded_candidate_push(vec: &mut Vec<RdoCandidate>, c: RdoCandidate) -> (r: Result<
    (),
    SrsV2Error,
>)
    ensures
        old(vec)@.len() >= MAX_RDO_CANDIDATES ==> r == Err::<(), SrsV2Error>(
            SrsV2Error::Syntax("RDO: candidate cap reached"),
        ) && final(vec)@ == old(vec)@,
        old(vec)@.len() < MAX_RDO_CANDIDATES ==> r is Ok && final(vec)@ == old(vec)@.push(c),
{
    if vec.len() >= MAX_RDO_CANDIDATES {
        return Err(SrsV2Error::Syntax("RDO: candidate cap reached"));
    }
    vec.push(c);
    Ok(())
}

/// Bytes of one vector: a fixed number, or those of its two deltas.
pub fn estimate_mv_delta_wire_bytes(
    mode: SrsV2InterSyntaxMode,
    use_subpel: bool,
    mbx: u32,
    mby: u32,
    mb_cols: u32,
    grid_so_far: &[(i32, i32)],
    mv: (i32, i32),
) -> (r: i64)
    requires
        mode != SrsV2InterSyntaxMode::RawLegacy ==> {
            &&& mbx < mb_cols
            &&& mby * mb_cols + mbx <= u32::MAX
            &&& mby * mb_cols + mbx <= grid_so_far@.len()
            &&& delta_fits(mv, predicted(mb_cols as int, grid_so_far@, mby * mb_cols + mbx))
        },
    ensures
        r == if mode == SrsV2InterSyntaxMode::RawLegacy {
            if use_subpel {
                8
            } else {
                4
            }
        } else {
            delta_bytes(
                mv,
                predicted(mb_cols as int, grid_so_far@, mby * mb_cols + mbx),
            ).len() as int
        },
{
    match mode {
        SrsV2InterSyntaxMode::RawLegacy => {
            if use_subpel {
                8
            } else {
                4
            }
        },
        SrsV2InterSyntaxMode::CompactV1 | SrsV2InterSyntaxMode::EntropyV1 => {
            let (px, py) = predict_mv_qpel(mbx, mby, mb_cols, grid_so_far);
            (signed_varint_wire_bytes(mv.0 - px) + signed_varint_wire_bytes(mv.1 - py)) as i64
        },
    }
}

/// The sum of the bytes of the first `n` candidates, held at the largest `u64`.
pub open spec fn side_bytes(items: Seq<RdoCandidate>, n: int) -> int
    decreases n,
{
    if n <= 0 {
        0
    } else {
        least(side_bytes(items, n - 1) + items[n - 1].cost.wire_bytes(), u64::MAX as int)
    }
}

/// Candidate `i` comes before candidate `k`: by score, then by number, then by place.
pub open spec fn ahead(items: Seq<RdoCandidate>, lambda_fp: int, i: int, k: int) -> bool {
    let a = candidate_score(items[i], lambda_fp);
    let b = candidate_score(items[k], lambda_fp);
    a < b || (a == b && (items[i].id < items[k].id || (items[i].id == items[k].id && i <= k)))
}

/// Picks the candidate with the least score; of equal ones the one with the lowest number, then
/// the first.
pub fn choose_best_partition_candidate(
    lambda_fp: i64,
    items: &[RdoCandidate],
    stats: &mut RdoStats,
) -> (r: Result<RdoDecision, SrsV2Error>)
    ensures
        items@.len() == 0 ==> r == Err::<RdoDecision, SrsV2Error>(
            SrsV2Error::Syntax("RDO partition: empty candidate set"),
        ) && *final(stats) == *old(stats),
        items@.len() > MAX_RDO_CANDIDATES ==> r == Err::<RdoDecision, SrsV2Error>(
            SrsV2Error::Syntax("RDO partition: too many candidates"),
        ) && *final(stats) == *old(stats),
        0 < items@.len() <= MAX_RDO_CANDIDATES ==> {
            let d = r->Ok_0;
            &&& r is Ok
            &&& d.chosen_index < items@.len()
            &&& d.chosen_id == items@[d.chosen_index as int].id
            &&& d.best_score == candidate_score(items@[d.chosen_index as int], lambda_fp as int)
            &&& forall|k: int|
                0 <= k < items@.len() ==> #[trigger] ahead(
                    items@,
                    lambda_fp as int,
                    d.chosen_index as int,
                    k,
                )
            &&& *final(stats) == (RdoStats {
                candidates_compared: items@.len() as u32,
                estimated_side_bytes: side_bytes(items@, items@.len() as int) as u64,
            })
        },
{
    if items.len() == 0 {
        return Err(SrsV2Error::Syntax("RDO partition: empty candidate set"));
    }
    if items.len() > MAX_RDO_CANDIDATES {
        return Err(SrsV2Error::Syntax("RDO partition: too many candidates"));
    }
    let mut best_i: usize = 0;
    let mut best_s: i128 = score_candidate(items[0].distortion, lambda_fp, &items[0].cost);
    let mut side: u64 = items[0].cost.total_wire_bytes() as u64;
    let n: usize = items.len();
    let mut i: usize = 1;
    assert(side_bytes(items@, 1) == least(
        side_bytes(items@, 0) + items@[0].cost.wire_bytes(),
        u64::MAX as int,
    ));
    while i < n
        invariant
            1 <= i <= n,
            n == items@.len(),
            best_i < i,
            best_s == candidate_score(items@[best_i as int], lambda_fp as int),
            forall|k: int|
                0 <= k < i ==> #[trigger] ahead(items@, lambda_fp as int, best_i as int, k),
            side == side_bytes(items@, i as int),
        decreases n - i,
    {
        let s: i128 = score_candidate(items[i].distortion, lambda_fp, &items[i].cost);
        let ghost was = best_i as int;
        if s < best_s || (s == best_s && items[i].id < items[best_i].id) {
            best_i = i;
            best_s = s;
            assert forall|k: int| 0 <= k < i + 1 implies #[trigger] ahead(
                items@,
                lambda_fp as int,
                best_i as int,
                k,
            ) by {
                if k < i {
                    assert(ahead(items@, lambda_fp as int, was, k));
                }
            }
        }
        side = side.saturating_add(items[i].cost.total_wire_bytes() as u64);
        i += 1;
    }
    stats.candidates_compared = n as u32;
    stats.estimated_side_bytes = side;
    Ok(
        RdoDecision {
            chosen_index: best_i,
            chosen_id: items[best_i].id,
            best_score: best_s,
        },
    )
}

/// The sum of the side bytes of the first `n` rows, held at the largest `u64`.
pub open spec fn row_bytes(rows: Seq<(u32, i64)>, n: int) -> int
    decreases n,
{
    if n <= 0 {
        0
    } else {
        least(row_bytes(rows, n - 1) + greatest(rows[n - 1].1 as int, 0), u64::MAX as int)
    }
}

/// Row `i` comes before row `k`: by score, distortion, bytes, then place.
pub open spec fn row_ahead(rows: Seq<(u32, i64)>, lambda_fp: int, i: int, k: int) -> bool {
    let a = score(rows[i].0 as int, lambda_fp, rows[i].1 as int);
    let b = score(rows[k].0 as int, lambda_fp, rows[k].1 as int);
    a < b || (a == b && (rows[i].0 < rows[k].0 || (rows[i].0 == rows[k].0 && (rows[i].1 < rows[k].1
        || (rows[i].1 == rows[k].1 && i <= k)))))
}

/// Picks the row of distortion and side bytes with the least score; of equal ones the one with
/// less distortion, then with fewer bytes, then the first.
pub fn choose_best_inter_mode_candidate(
    lambda_fp: i64,
    rows: &[(u32, i64)],
    stats: &mut RdoStats,
) -> (r: Result<RdoDecision, SrsV2Error>)
    ensures
        rows@.len() == 0 ==> r == Err::<RdoDecision, SrsV2Error>(
            SrsV2Error::Syntax("RDO inter-mode: empty candidate set"),
        ) && *final(stats) == *old(stats),
        rows@.len() > MAX_RDO_CANDIDATES ==> r == Err::<RdoDecision, SrsV2Error>(
            SrsV2Error::Syntax("RDO inter-mode: too many candidates"),
        ) && *final(stats) == *old(stats),
        0 < rows@.len() <= MAX_RDO_CANDIDATES ==> {
            let d = r->Ok_0;
            &&& r is Ok
            &&& d.chosen_index < rows@.len()
            &&& d.chosen_id == d.chosen_index
            &&& d.best_score == score(
                rows@[d.chosen_index as int].0 as int,
                lambda_fp as int,
                rows@[d.chosen_index as int].1 as int,
            )
            &&& forall|k: int|
                0 <= k < rows@.len() ==> #[trigger] row_ahead(
                    rows@,
                    lambda_fp as int,
                    d.chosen_index as int,
                    k,
                )
            &&& *final(stats) == (RdoStats {
                candidates_compared: rows@.len() as u32,
                estimated_side_bytes: row_bytes(rows@, rows@.len() as int) as u64,
            })
        },
{
    if rows.len() == 0 {
        return Err(SrsV2Error::Syntax("RDO inter-mode: empty candidate set"));
    }
    if rows.len() > MAX_RDO_CANDIDATES {
        return Err(SrsV2Error::Syntax("RDO inter-mode: too many candidates"));
    }
    let mut best_i: usize = 0;
    let mut best_s: i128 = rdo_score(rows[0].0, lambda_fp, rows[0].1);
    let mut side: u64 = if rows[0].1 < 0 { 0 } else { rows[0].1 as u64 };
    let n: usize = rows.len();
    let mut i: usize = 1;
    assert(row_bytes(rows@, 1) == least(
        row_bytes(rows@, 0) + greatest(rows@[0].1 as int, 0),
        u64::MAX as int,
    ));
    while i < n
        invariant
            1 <= i <= n,
            n == rows@.len(),
            best_i < i,
            best_s == score(
                rows@[best_i as int].0 as int,
                lambda_fp as int,
                rows@[best_i as int].1 as int,
            ),
            forall|k: int|
                0 <= k < i ==> #[trigger] row_ahead(rows@, lambda_fp as int, best_i as int, k),
            side == row_bytes(rows@, i as int),
        decreases n - i,
    {
        let (d, b) = rows[i];
        let (best_d, best_b) = rows[best_i];
        let s: i128 = rdo_score(d, lambda_fp, b);
        let ghost was = best_i as int;
        if s < best_s || (s == best_s && d < best_d) || (s == best_s && d == best_d && b < best_b) {
            best_i = i;
            best_s = s;
            assert forall|k: int| 0 <= k < i + 1 implies #[trigger] row_ahead(
                rows@,
                lambda_fp as int,
                best_i as int,
                k,
            ) by {
                if k < i {
                    assert(row_ahead(rows@, lambda_fp as int, was, k));
                }
            }
        }
        side = side.saturating_add(if b < 0 { 0 } else { b as u64 });
        i += 1;
    }
    stats.candidates_compared = n as u32;
    stats.estimated_side_bytes = side;
    Ok(RdoDecision { chosen_index: best_i, chosen_id: best_i as u8, best_score: best_s })
}

/// Pair `i` of tag and score comes before pair `k`: by score, then by tag, then by place.
pub open spec fn pair_ahead(pairs: Seq<(u8, i128)>, i: int, k: int) -> bool {
    pairs[i].1 < pairs[k].1 || (pairs[i].1 == pairs[k].1 && (pairs[i].0 < pairs[k].0 || (
    pairs[i].0 == pairs[k].0 && i <= k)))
}

/// Picks the tag with the least score; of equal ones the lowest, then the first.
pub fn choose_min_partition_by_precomputed_scores(scored_tags: &[(u8, i128)]) -> (r: Result<
    RdoDecision,
    SrsV2Error,
>)
    ensures
        scored_tags@.len() == 0 ==> r == Err::<RdoDecision, SrsV2Error>(
            SrsV2Error::Syntax("RDO partition: empty score list"),
        ),
        scored_tags@.len() > MAX_RDO_CANDIDATES ==> r == Err::<RdoDecision, SrsV2Error>(
            SrsV2Error::Syntax("RDO partition: too many score rows"),
        ),
        0 < scored_tags@.len() <= MAX_RDO_CANDIDATES ==> {
            let d = r->Ok_0;
            &&& r is Ok
            &&& d.chosen_index < scored_tags@.len()
            &&& d.chosen_id == scored_tags@[d.chosen_index as int].0
            &&& d.best_score == scored_tags@[d.chosen_index as int].1
            &&& forall|k: int|
                0 <= k < scored_tags@.len() ==> #[trigger] pair_ahead(
                    scored_tags@,
                    d.chosen_index as int,
                    k,
                )
        },
{
    if scored_tags.len() == 0 {
        return Err(SrsV2Error::Syntax("RDO partition: empty score list"));
    }
    if scored_tags.len() > MAX_RDO_CANDIDATES {
        return Err(SrsV2Error::Syntax("RDO partition: too many score rows"));
    }
    let mut best_i: usize = 0;
    let n: usize = scored_tags.len();
    let mut i: usize = 1;
    while i < n
        invariant
            1 <= i <= n,
            n == scored_tags@.len(),
            best_i < i,
            forall|k: int| 0 <= k < i ==> #[trigger] pair_ahead(scored_tags@, best_i as int, k),
        decreases n - i,
    {
        let (tag, s) = scored_tags[i];
        let (best_tag, best_s) = scored_tags[best_i];
        let ghost was = best_i as int;
        if s < best_s || (s == best_s && tag < best_tag) {
            best_i = i;
            assert forall|k: int| 0 <= k < i + 1 implies #[trigger] pair_ahead(
                scored_tags@,
                best_i as int,
                k,
            ) by {
                if k < i {
                    assert(pair_ahead(scored_tags@, was, k));
                }
            }
        }
        i += 1;
    }
    Ok(
        RdoDecision {
            chosen_index: best_i,
            chosen_id: scored_tags[best_i].0,
            best_score: scored_tags[best_i].1,
        },
    )
}

/// A number held in 128 bits.
pub open spec fn held128(v: int) -> int {
    clip(v, i128::MIN as int, i128::MAX as int)
}

fn sat_add_i128(a: i128, b: i128) -> (r: i128)
    ensures
        r == held128(a + b),
{
    if b >= 0 {
        if a > i128::MAX - b {
            i128::MAX
        } else {
            a + b
        }
    } else if a < i128::MIN - b {
        i128::MIN
    } else {
        a + b
    }
}

/// Scores a blend: its bytes are those of the vectors, of a weight and of half-pel positions.
pub fn b_blend_rdo_score(
    distortion: u32,
    lambda_fp: i64,
    base_bytes: i128,
    extra_bytes: i128,
    halfpel_penalty_bytes: i128,
) -> (r: i128)
    ensures
        r == score(
            distortion as int,
            lambda_fp as int,
            clip(
                held128(held128(base_bytes + extra_bytes) + halfpel_penalty_bytes),
                0,
                i64::MAX as int,
            ),
        ),
{
    let side: i128 = sat_add_i128(sat_add_i128(base_bytes, extra_bytes), halfpel_penalty_bytes);
    let held: i64 = if side < 0 {
        0
    } else if side > i64::MAX as i128 {
        i64::MAX
    } else {
        side as i64
    };
    rdo_score(distortion, lambda_fp, held)
}

/// Whether fast decisions are on.
pub fn rdo_fast_enabled(mode: SrsV2RdoMode) -> (r: bool)
    ensures
        r == (mode == SrsV2RdoMode::Fast),
{
    mode == SrsV2RdoMode::Fast
}

/// A score is the distortion plus the bytes at the rate of the factor, of which 256 stand for one
/// unit of distortion a byte, rounded down; a candidate scores by the bytes of all kinds.
pub proof fn bytes_are_charged_at_the_factor(distortion: int, lambda_fp: int, f: int, bytes: int)
    requires
        0 <= lambda_fp,
        0 <= bytes,
    ensures
        score(distortion, 256 * f, bytes) == distortion + f * bytes,
        256 * (score(distortion, lambda_fp, bytes) - distortion) <= lambda_fp * bytes < 256 * (score(
            distortion,
            lambda_fp,
            bytes,
        ) - distortion) + 256,
        score(distortion + 1, lambda_fp, bytes) == score(distortion, lambda_fp, bytes) + 1,
        score(distortion, lambda_fp, -bytes) == distortion,
{
    assert(0 <= lambda_fp * bytes) by (nonlinear_arith)
        requires
            0 <= lambda_fp,
            0 <= bytes,
    ;
    assert(256 * f * bytes == 256 * (f * bytes)) by (nonlinear_arith);
    assert(256 * f * 0 == 0 && lambda_fp * 0 == 0) by (nonlinear_arith);
}

/// Bytes of every kind count alike: any byte more, of whatever kind, is one byte more in all.
pub proof fn bytes_of_every_kind_count(c: RdoCost, k: u32)
    requires
        c.partition_map_bytes <= 1000000000000,
        c.mv_compact_or_entropy_bytes <= 1000000000000,
        c.residual_bytes <= 1000000000000,
        c.transform_id_bytes <= 1000000000000,
        c.block_aq_bytes <= 1000000000000,
        c.skip_flags_bytes <= 1000000000000,
        c.blend_weight_bytes <= 1000000000000,
    ensures
        no_cost().wire_bytes() == 0,
        (RdoCost { partition_map_bytes: (c.partition_map_bytes + k) as u64, ..c }).wire_bytes()
            == c.wire_bytes() + k,
        (RdoCost {
            mv_compact_or_entropy_bytes: (c.mv_compact_or_entropy_bytes + k) as u64,
            ..c
        }).wire_bytes() == c.wire_bytes() + k,
        (RdoCost { residual_bytes: (c.residual_bytes + k) as u64, ..c }).wire_bytes()
            == c.wire_bytes() + k,
        (RdoCost { transform_id_bytes: (c.transform_id_bytes + k) as u64, ..c }).wire_bytes()
            == c.wire_bytes() + k,
        (RdoCost { block_aq_bytes: (c.block_aq_bytes + k) as u64, ..c }).wire_bytes()
            == c.wire_bytes() + k,
        (RdoCost { skip_flags_bytes: (c.skip_flags_bytes + k) as u64, ..c }).wire_bytes()
            == c.wire_bytes() + k,
        (RdoCost { blend_weight_bytes: (c.blend_weight_bytes + k) as u64, ..c }).wire_bytes()
            == c.wire_bytes() + k,
{
}

proof fn lemma_wide_quotient(n: int, lambda_fp: int, k: int)
    requires
        0 <= k,
        n == lambda_fp * 256 * k,
    ensures
        tdiv(n, 65536) == tdiv(lambda_fp * k, 256),
{
    let m = lambda_fp * k;
    assert(n == 256 * m) by (nonlinear_arith)
        requires
            n == lambda_fp * 256 * k,
            m == lambda_fp * k,
    ;
}

/// A bias or penalty of 256 is neutral: with it, the scores of partitions charge their bytes as
/// plain scores do, and penalties charge units and splits as if they were bytes.
pub proof fn neutral_weights_charge_plain_bytes(distortion: int, lambda_fp: int, k: int)
    requires
        0 <= k,
        i64::MIN <= lambda_fp * 256 <= i64::MAX,
    ensures
        biased_score(distortion, lambda_fp, 256, k) == score(distortion, lambda_fp, k),
        biased_lambda(lambda_fp, 256) == lambda_fp,
        header_score(distortion, lambda_fp, 0, k, 256, 0, 0) == score(distortion, lambda_fp, k),
        header_score(distortion, lambda_fp, 0, 0, 0, k, 256) == score(distortion, lambda_fp, k),
        header_score(distortion, lambda_fp, 256 * k, 0, 0, 0, 0) == score(distortion, lambda_fp, k),
{
    lemma_wide_quotient(lambda_fp * 256 * k, lambda_fp, k);
    assert(lambda_fp * (256 * k) == lambda_fp * 256 * k && lambda_fp * 0 * 0 == 0 && lambda_fp * 256
        * 0 == 0 && lambda_fp * 0 * k == 0 && lambda_fp * 0 == 0) by (nonlinear_arith);
}

/// The bytes of a partition are those of its vectors and residuals; a macroblock in one piece needs
/// no more, and every further unit costs more.
pub proof fn units_cost_bytes(mv_bytes: u32, residual_bytes: u32, deltas: bool)
    ensures
        ({
            let cost = |pt: u8|
                partition_cost(pt, mv_bytes as int, residual_bytes as int, deltas).wire_bytes();
            &&& cost(0) == mv_bytes + residual_bytes
            &&& cost(1) == cost(2)
            &&& cost(1) == cost(0) + 3 + (if deltas { 1int } else { 0 })
            &&& cost(3) == cost(0) + 8 + (if deltas { 3int } else { 0 })
        }),
{
}

/// Whatever comes before all others has the least score; of any two alternatives one comes before
/// the other, and both do only where they are the same.
pub proof fn order_of_alternatives(
    items: Seq<RdoCandidate>,
    rows: Seq<(u32, i64)>,
    pairs: Seq<(u8, i128)>,
    lambda_fp: int,
    i: int,
    k: int,
)
    ensures
        ahead(items, lambda_fp, i, k) ==> score(
            items[i].distortion as int,
            lambda_fp,
            items[i].cost.wire_bytes(),
        ) <= score(items[k].distortion as int, lambda_fp, items[k].cost.wire_bytes()),
        row_ahead(rows, lambda_fp, i, k) ==> score(rows[i].0 as int, lambda_fp, rows[i].1 as int)
            <= score(rows[k].0 as int, lambda_fp, rows[k].1 as int),
        pair_ahead(pairs, i, k) ==> pairs[i].1 <= pairs[k].1,
        ahead(items, lambda_fp, i, k) || ahead(items, lambda_fp, k, i),
        row_ahead(rows, lambda_fp, i, k) || row_ahead(rows, lambda_fp, k, i),
        pair_ahead(pairs, i, k) || pair_ahead(pairs, k, i),
        ahead(items, lambda_fp, i, k) && ahead(items, lambda_fp, k, i) ==> i == k,
        row_ahead(rows, lambda_fp, i, k) && row_ahead(rows, lambda_fp, k, i) ==> i == k,
        pair_ahead(pairs, i, k) && pair_ahead(pairs, k, i) ==> i == k,
{
}

proof fn lemma_side_bytes(items: Seq<RdoCandidate>, n: int)
    requires
        0 <= n <= items.len(),
    ensures
        0 <= total(n, |i: int| items[i].cost.wire_bytes()),
        side_bytes(items, n) == least(
            total(n, |i: int| items[i].cost.wire_bytes()),
            u64::MAX as int,
        ),
    decreases n,
{
    if n > 0 {
        lemma_side_bytes(items, n - 1);
    }
}

/// The bytes that were weighed are those of all candidates together, as far as they can be counted.
pub proof fn weighed_bytes_add_up(items: Seq<RdoCandidate>)
    ensures
        side_bytes(items, items.len() as int) == least(
            total(items.len() as int, |i: int| items[i].cost.wire_bytes()),
            u64::MAX as int,
        ),
{
    lemma_side_bytes(items, items.len() as int);
}

proof fn lemma_row_bytes(rows: Seq<(u32, i64)>, n: int)
    requires
        0 <= n <= rows.len(),
    ensures
        0 <= total(n, |i: int| greatest(rows[i].1 as int, 0)),
        row_bytes(rows, n) == least(
            total(n, |i: int| greatest(rows[i].1 as int, 0)),
            u64::MAX as int,
        ),
    decreases n,
{
    if n > 0 {
        lemma_row_bytes(rows, n - 1);
    }
}

/// The bytes of the rows add up, those below zero as nothing.
pub proof fn bytes_of_rows_add_up(rows: Seq<(u32, i64)>)
    ensures
        row_bytes(rows, rows.len() as int) == least(
            total(rows.len() as int, |i: int| greatest(rows[i].1 as int, 0)),
            u64::MAX as int,
        ),
{
    lemma_row_bytes(rows, rows.len() as int);
}

} // verus!
