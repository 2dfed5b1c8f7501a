//! Writing forward pictures with variable partitions.
use vstd::prelude::*;

use crate::arith::{magnitude, sat_mul_i64, total};
use crate::bytes::{bytes32, push_all, push_u32};
use crate::rank::median;
use super::b_frame_codec::BBlendModeWire;
use super::block_aq::{
    apply_qp_delta_clamped, byte_of_delta, choose_block_qp_delta, clip_range_ok, delta_byte,
    measure_blocks, picture_delta, sends_deltas, shifted_qp, validate_qp_clip_range,
    validate_wire_qp_delta, BlockDeltas,
};
use super::error::SrsV2Error;
use super::frame::{VideoPlane, YuvFrame};
use super::inter_frame::{mb_residual, quiet, InterMb};
use super::inter_mv::{
    encode_mv_stream_partitioned, pu_start, stream_bytes, stream_deltas_fit, stream_refusal,
    unit_count, units, MV_PREDICTION_MODE_LABEL, P_PART_WIRE_16X16, P_PART_WIRE_8X8,
};
use super::limits::{MAX_FRAME_PAYLOAD_BYTES, QP_DELTA_WIRE_MAX, QP_DELTA_WIRE_MIN};
use super::model::{PixelFormat, VideoSequenceHeaderV2};
use super::motion_search::{
    SrsV2InterMvBenchStats, SrsV2MotionEncodeStats, SrsV2PartitionEncodeStats,
};
use super::p_frame_codec::{forward_mb, mb_count};
use super::p_var_choose::{
    choice_evals, lemma_small_stream, lemma_stream_short, type_evals, unit_vector_ok,
    MAX_MB_RESIDUAL_RD_BYTES,
};
use super::p_var_decode::{
    stream_place, unit_of, unit_starts, FRAME_PAYLOAD_MAGIC_P_INTER_ENTROPY_VAR,
    FRAME_PAYLOAD_MAGIC_P_VAR_PARTITION, VarBlock,
};
use super::p_var_plan::{
    all_trials_ok, choose_partitions, collect_pu_mvs, frame_fits, fresh_partition_stats,
    lemma_mb_fits, partition_factor, partition_stats, partitions_of, picture_vectors,
    unit_vectors_ok,
};
use super::partition_map::{all_partitions, rle_partition_payload, rle_payload};
use super::rate_control::{
    ResidualEncodeStats, ResidualEntropy, SrsV2BlockAqMode, SrsV2EncodeSettings,
    SrsV2InterSyntaxMode, SrsV2PartitionMapEncoding, SrsV2PartitionSettings, SrsV2SubpelMode,
    SrsV2TransformSizeMode,
};

verus! {

/// The settings name ranges that are not empty.
pub open spec fn delta_ranges_ok(s: SrsV2EncodeSettings) -> bool {
    sends_deltas(s) ==> s.min_block_qp_delta <= s.max_block_qp_delta && s.min_qp <= s.max_qp
}

/// A difference is strong enough for the small transform.
pub open spec fn strong(d: Seq<i16>) -> bool {
    exists|i: int| 0 <= i < d.len() && magnitude(#[trigger] d[i] as int) > 22
}

/// Whether a block holds a strong difference.
pub fn detail_prefers_4x4(blk: &[i16; 64]) -> (r: bool)
    ensures
        r == strong(blk@),
{
    let mut i: usize = 0;
    while i < 64
        invariant
            i <= 64,
            forall|k: int| 0 <= k < i ==> magnitude(#[trigger] blk@[k] as int) <= 22,
        decreases 64 - i,
    {
        if blk[i] > 22 || blk[i] < -22 {
            assert(magnitude(blk@[i as int] as int) > 22);
            return true;
        }
        i += 1;
    }
    false
}

/// How a sub-block is carried: not at all, as one chunk, or as four.
pub open spec fn wire_of(
    s: SrsV2EncodeSettings,
    p: SrsV2PartitionSettings,
    d: Seq<i16>,
    first: int,
) -> VarBlock {
    if s.enable_skip_blocks && quiet(d) {
        VarBlock::Skip
    } else if p.transform_size_mode == SrsV2TransformSizeMode::Force4x4 || (p.transform_size_mode
        == SrsV2TransformSizeMode::Auto && strong(d)) {
        VarBlock::Quarters { first: first as usize }
    } else {
        VarBlock::Whole { job: first as usize }
    }
}

/// How many chunks a sub-block has.
pub open spec fn chunks_of(b: VarBlock) -> int {
    match b {
        VarBlock::Skip => 0,
        VarBlock::Whole { .. } => 1,
        VarBlock::Quarters { .. } => 4,
    }
}

/// How many chunks the first `k` sub-blocks have.
pub open spec fn chunks_before(blocks: Seq<BlockPlan>, k: int) -> int
    decreases k,
{
    if k <= 0 {
        0
    } else {
        chunks_before(blocks, k - 1) + chunks_of(blocks[k - 1].wire)
    }
}

/// One sub-block: how it is carried, its differences, its delta and the QP of its residual.
#[derive(Debug, Clone, Copy)]
pub struct BlockPlan {
    pub wire: VarBlock,
    pub diff: [i16; 64],
    pub delta: i8,
    pub qp: u8,
}

/// The differences of the sub-block at a place of the stream of macroblock `m`, whose vectors
/// start at `at`.
pub open spec fn block_residual(
    cur: VideoPlane<u8>,
    refp: VideoPlane<u8>,
    cols: int,
    m: int,
    pt: u8,
    mvs: Seq<(i32, i32)>,
    at: int,
    place: int,
) -> Seq<i16> {
    let si = stream_place(pt, place);
    let mv = mvs[at + unit_of(pt, si)];
    mb_residual(
        forward_mb(mv.0 as int, mv.1 as int),
        cur,
        refp,
        refp,
        m % cols * 16 + si % 2 * 8,
        m / cols * 16 + si / 2 * 8,
    )
}

/// The sub-block is planned as the settings ask; its chunks start at number `first`.
pub open spec fn planned_as(
    b: BlockPlan,
    cur: VideoPlane<u8>,
    refp: VideoPlane<u8>,
    s: SrsV2EncodeSettings,
    p: SrsV2PartitionSettings,
    qp: int,
    cols: int,
    n: int,
    m: int,
    pt: u8,
    mvs: Seq<(i32, i32)>,
    at: int,
    place: int,
    first: int,
) -> bool {
    let d = block_residual(cur, refp, cols, m, pt, mvs, at, place);
    let delta = picture_delta(cur, s, cols, n, 4 * m + stream_place(pt, place));
    &&& b.diff@ == d
    &&& b.delta == delta
    &&& b.qp == if sends_deltas(s) {
        shifted_qp(qp, delta, s.min_qp as int, s.max_qp as int)
    } else {
        qp
    }
    &&& b.wire == wire_of(s, p, d, first)
}

/// The sub-block at a place of the stream of a macroblock, and its unit.
fn place_in_mb(pt: u8, place: u32) -> (r: (u32, u32))
    requires
        pt <= 3,
        place < 4,
    ensures
        r.0 == stream_place(pt, place as int),
        r.1 == unit_of(pt, r.0 as int),
        r.0 < 4,
        r.1 < units(pt),
{
    let si: u32 = if pt == 2 { place % 2 * 2 + place / 2 } else { place };
    let unit: u32 = if pt == 0 {
        0
    } else if pt == 1 {
        si / 2
    } else if pt == 2 {
        si % 2
    } else {
        si
    };
    (si, unit)
}

/// What the planning of a sub-block reads.
pub struct VarContext<'a> {
    pub cur: &'a VideoPlane<u8>,
    pub refp: &'a VideoPlane<u8>,
    pub settings: &'a SrsV2EncodeSettings,
    pub parts: &'a SrsV2PartitionSettings,
    pub deltas: &'a BlockDeltas,
    pub qp: u8,
    pub cols: u32,
    pub rows: u32,
}

impl<'a> VarContext<'a> {
    pub open spec fn wf(self) -> bool {
        &&& frame_fits(*self.cur, *self.refp, self.cols as int, self.rows as int)
        &&& self.deltas.of(
            *self.cur,
            *self.settings,
            self.cols as int,
            self.cols * self.rows,
        )
        &&& delta_ranges_ok(*self.settings)
    }

    /// A sub-block is planned in this context.
    pub open spec fn plans(
        self,
        b: BlockPlan,
        m: int,
        pt: u8,
        mvs: Seq<(i32, i32)>,
        at: int,
        place: int,
        first: int,
    ) -> bool {
        planned_as(
            b,
            *self.cur,
            *self.refp,
            *self.settings,
            *self.parts,
            self.qp as int,
            self.cols as int,
            self.cols * self.rows,
            m,
            pt,
            mvs,
            at,
            place,
            first,
        )
    }

    /// The delta of sub-block `i` of the picture and the QP that it leads to.
    fn delta_of(&self, i: usize) -> (r: (i8, u8))
        requires
            self.wf(),
            i < 4 * (self.cols * self.rows),
        ensures
            ({
                let delta = picture_delta(
                    *self.cur,
                    *self.settings,
                    self.cols as int,
                    self.cols * self.rows,
                    i as int,
                );
                &&& r.0 == delta
                &&& r.1 == if sends_deltas(*self.settings) {
                    shifted_qp(
                        self.qp as int,
                        delta,
                        self.settings.min_qp as int,
                        self.settings.max_qp as int,
                    )
                } else {
                    self.qp as int
                }
            }),
    {
        if self.deltas.on {
            let delta: i8 = choose_block_qp_delta(
                self.deltas.vars[i],
                self.deltas.median,
                self.settings.aq_strength,
                self.settings.min_block_qp_delta,
                self.settings.max_block_qp_delta,
            );
            let qp: u8 = apply_qp_delta_clamped(
                self.qp,
                delta,
                self.settings.min_qp,
                self.settings.max_qp,
            );
            (delta, qp)
        } else {
            (0, self.qp)
        }
    }

    /// Plans the sub-block at a place of the stream of macroblock `m`.
    pub fn plan_var_block(
        &self,
        m: u32,
        pt: u8,
        mvs: &[(i32, i32)],
        at: usize,
        place: u32,
        first: usize,
    ) -> (b: BlockPlan)
        requires
            self.wf(),
            m < self.cols * self.rows,
            pt <= 3,
            place < 4,
            at + units(pt) <= mvs@.len(),
            unit_vectors_ok(mvs@),
        ensures
            self.plans(b, m as int, pt, mvs@, at as int, place as int, first as int),
    {
        proof {
            lemma_mb_fits(
                *self.cur,
                *self.refp,
                self.cols as int,
                self.rows as int,
                m as int,
            );
        }
        let (si, unit) = place_in_mb(pt, place);
        let count: usize = mvs.len();
        assert(at + unit < count);
        let mv = mvs[at + unit as usize];
        assert(unit_vector_ok(mv));
        let mb = InterMb {
            blend: BBlendModeWire::ForwardOnly,
            weight_a: 0,
            weight_b: 0,
            mv_aqx: mv.0,
            mv_aqy: mv.1,
            mv_bqx: 0,
            mv_bqy: 0,
        };
        let ox: u32 = m % self.cols * 16 + si % 2 * 8;
        let oy: u32 = m / self.cols * 16 + si / 2 * 8;
        let (diff, calm) = mb.difference_block(
            self.cur,
            self.refp,
            self.refp,
            ox as usize,
            oy as usize,
        );
        let (delta, qp) = self.delta_of(4 * m as usize + si as usize);
        let small = match self.parts.transform_size_mode {
            SrsV2TransformSizeMode::Auto => detail_prefers_4x4(&diff),
            SrsV2TransformSizeMode::Force4x4 => true,
            SrsV2TransformSizeMode::Force8x8 => false,
        };
        let wire = if self.settings.enable_skip_blocks && calm {
            VarBlock::Skip
        } else if small {
            VarBlock::Quarters { first }
        } else {
            VarBlock::Whole { job: first }
        };
        BlockPlan { wire, diff, delta, qp }
    }

    /// Plans the sub-blocks of a picture; the numbers count those that have no chunk, one chunk
    /// and four.
    fn plan_blocks(&self, map: &[u8], mvs: &[(i32, i32)]) -> (r: (Vec<BlockPlan>, u64, u64, u64))
        requires
            self.wf(),
            map@.len() == self.cols * self.rows,
            all_partitions(map@),
            mvs@.len() == pu_start(map@, map@.len() as int),
            unit_vectors_ok(mvs@),
        ensures
            r.0@.len() == 4 * map@.len(),
            numbered(r.0@),
            r.1 == blocks_with(r.0@, 0, 4 * map@.len() as int),
            r.2 == blocks_with(r.0@, 1, 4 * map@.len() as int),
            r.3 == blocks_with(r.0@, 4, 4 * map@.len() as int),
            r.1 <= 1048576,
            forall|j: int|
                0 <= j < r.0@.len() ==> self.plans(
                    #[trigger] r.0@[j],
                    j / 4,
                    map@[j / 4],
                    mvs@,
                    pu_start(map@, j / 4),
                    j % 4,
                    chunks_before(r.0@, j),
                ),
    {
        let cols: u32 = self.cols;
        let rows: u32 = self.rows;
        assert(cols * rows <= 512 * 512) by (nonlinear_arith)
            requires
                cols <= 512,
                rows <= 512,
        ;
        let n: usize = map.len();
        let starts = unit_starts(map);
        let mut blocks: Vec<BlockPlan> = Vec::with_capacity(4 * n);
        let mut first: usize = 0;
        let mut skipped: u64 = 0;
        let mut whole: u64 = 0;
        let mut small: u64 = 0;
        let mut k: usize = 0;
        while k < 4 * n
            invariant
                k <= 4 * n,
                n == cols * rows,
                n <= 262144,
                self.wf(),
                self.cols == cols,
                self.rows == rows,
                map@.len() == n,
                all_partitions(map@),
                mvs@.len() == pu_start(map@, n as int),
                unit_vectors_ok(mvs@),
                starts@.len() == n,
                forall|i: int| 0 <= i < n ==> #[trigger] starts@[i] == pu_start(map@, i),
                blocks@.len() == k,
                first == chunks_before(blocks@, k as int),
                first <= 4 * k,
                skipped == blocks_with(blocks@, 0, k as int),
                whole == blocks_with(blocks@, 1, k as int),
                small == blocks_with(blocks@, 4, k as int),
                skipped <= k,
                whole <= k,
                small <= k,
                forall|j: int|
                    0 <= j < k ==> self.plans(
                        #[trigger] blocks@[j],
                        j / 4,
                        map@[j / 4],
                        mvs@,
                        pu_start(map@, j / 4),
                        j % 4,
                        chunks_before(blocks@, j),
                    ),
            decreases 4 * n - k,
        {
            let ghost before = blocks@;
            let m: usize = k / 4;
            proof {
                super::inter_mv::lemma_pu_start(map@, m as int, n as int);
            }
            let b = self.plan_var_block(
                m as u32,
                map[m],
                mvs,
                starts[m],
                (k % 4) as u32,
                first,
            );
            blocks.push(b);
            proof {
                lemma_chunks_prefix(before, blocks@, k as int);
                lemma_blocks_with_prefix(before, blocks@, 0, k as int);
                lemma_blocks_with_prefix(before, blocks@, 1, k as int);
                lemma_blocks_with_prefix(before, blocks@, 4, k as int);
                assert forall|j: int| 0 <= j < k implies self.plans(
                    #[trigger] blocks@[j],
                    j / 4,
                    map@[j / 4],
                    mvs@,
                    pu_start(map@, j / 4),
                    j % 4,
                    chunks_before(blocks@, j),
                ) by {
                    lemma_chunks_prefix(before, blocks@, j);
                    assert(blocks@[j] == before[j]);
                }
            }
            let c: usize = chunk_count(&b.wire);
            if c == 0 {
                skipped += 1;
            } else if c == 1 {
                whole += 1;
            } else {
                small += 1;
            }
            first = first + c;
            k += 1;
        }
        proof {
            lemma_planned_numbered(*self, blocks@, map@, mvs@);
        }
        (blocks, skipped, whole, small)
    }

    /// Plans the sub-blocks of macroblock `m` for a trial with the given partition and vectors.
    pub fn plan_trial(&self, m: u32, pt: u8, mvs: &[(i32, i32)]) -> (r: Vec<BlockPlan>)
        requires
            self.wf(),
            m < self.cols * self.rows,
            pt <= 3,
            mvs@.len() == units(pt),
            unit_vectors_ok(mvs@),
        ensures
            r@.len() == 4,
            forall|k: int|
                0 <= k < 4 ==> self.plans(
                    #[trigger] r@[k],
                    m as int,
                    pt,
                    mvs@,
                    0,
                    k,
                    chunks_before(r@, k),
                ),
    {
        let mut out: Vec<BlockPlan> = Vec::with_capacity(4);
        let mut first: usize = 0;
        let mut k: u32 = 0;
        while k < 4
            invariant
                k <= 4,
                self.wf(),
                m < self.cols * self.rows,
                pt <= 3,
                mvs@.len() == units(pt),
                unit_vectors_ok(mvs@),
                out@.len() == k,
                first == chunks_before(out@, k as int),
                first <= 4 * k,
                forall|j: int|
                    0 <= j < k ==> self.plans(
                        #[trigger] out@[j],
                        m as int,
                        pt,
                        mvs@,
                        0,
                        j,
                        chunks_before(out@, j),
                    ),
            decreases 4 - k,
        {
            let ghost before = out@;
            let b = self.plan_var_block(m, pt, mvs, 0, k, first);
            out.push(b);
            proof {
                lemma_chunks_prefix(before, out@, k as int);
                assert forall|j: int| 0 <= j < k implies self.plans(
                    #[trigger] out@[j],
                    m as int,
                    pt,
                    mvs@,
                    0,
                    j,
                    chunks_before(out@, j),
                ) by {
                    lemma_chunks_prefix(before, out@, j);
                    assert(out@[j] == before[j]);
                }
            }
            first = first + chunk_count(&b.wire);
            k += 1;
        }
        out
    }
}

fn chunk_count(b: &VarBlock) -> (n: usize)
    ensures
        n == chunks_of(*b),
        n <= 4,
{
    match b {
        VarBlock::Skip => 0,
        VarBlock::Whole { .. } => 1,
        VarBlock::Quarters { .. } => 4,
    }
}

proof fn lemma_chunks_prefix(a: Seq<BlockPlan>, b: Seq<BlockPlan>, k: int)
    requires
        0 <= k <= a.len(),
        k <= b.len(),
        forall|i: int| 0 <= i < k ==> #[trigger] a[i] == b[i],
    ensures
        chunks_before(a, k) == chunks_before(b, k),
    decreases k,
{
    if k > 0 {
        lemma_chunks_prefix(a, b, k - 1);
    }
}

/// A planned picture: partitions, vectors and sub-blocks, four per macroblock in the order of the
/// stream. The chunks of all sub-blocks are numbered in that order.
pub struct VarPlan {
    pub parts: Vec<u8>,
    pub mvs: Vec<(i32, i32)>,
    pub blocks: Vec<BlockPlan>,
}

/// The chunks of the sub-blocks are numbered one after the other.
pub open spec fn numbered(blocks: Seq<BlockPlan>) -> bool {
    forall|k: int|
        0 <= k < blocks.len() ==> match (#[trigger] blocks[k]).wire {
            VarBlock::Skip => true,
            VarBlock::Whole { job } => job == chunks_before(blocks, k),
            VarBlock::Quarters { first } => first == chunks_before(blocks, k),
        }
}

impl VarPlan {
    /// The lists belong together.
    pub open spec fn wf(self) -> bool {
        &&& self.parts@.len() <= 262144
        &&& all_partitions(self.parts@)
        &&& self.mvs@.len() == pu_start(self.parts@, self.parts@.len() as int)
        &&& unit_vectors_ok(self.mvs@)
        &&& self.blocks@.len() == 4 * self.parts@.len()
        &&& numbered(self.blocks@)
    }

    /// How many chunks the caller has to code.
    pub open spec fn chunks(self) -> int {
        chunks_before(self.blocks@, self.blocks@.len() as int)
    }
}

/// How many of the first `n` sub-blocks have so many chunks.
pub open spec fn blocks_with(blocks: Seq<BlockPlan>, chunks: int, n: int) -> int
    decreases n,
{
    if n <= 0 {
        0
    } else {
        blocks_with(blocks, chunks, n - 1) + (if chunks_of(blocks[n - 1].wire) == chunks {
            1int
        } else {
            0
        })
    }
}

proof fn lemma_blocks_with_prefix(a: Seq<BlockPlan>, b: Seq<BlockPlan>, chunks: int, k: int)
    requires
        0 <= k <= a.len(),
        k <= b.len(),
        forall|i: int| 0 <= i < k ==> #[trigger] a[i] == b[i],
    ensures
        blocks_with(a, chunks, k) == blocks_with(b, chunks, k),
    decreases k,
{
    if k > 0 {
        lemma_blocks_with_prefix(a, b, chunks, k - 1);
    }
}

/// Why a picture cannot be planned, if it cannot.
pub open spec fn var_plan_refusal(
    seq: VideoSequenceHeaderV2,
    cur: YuvFrame,
    reference: YuvFrame,
) -> Option<SrsV2Error> {
    if seq.pixel_format != PixelFormat::Yuv420p8 || cur.format != PixelFormat::Yuv420p8
        || reference.format != PixelFormat::Yuv420p8 {
        Some(SrsV2Error::Unsupported("P-frame encode requires YUV420p8"))
    } else {
        None
    }
}

/// The counters of a planned picture.
pub open spec fn var_plan_stats(
    before: SrsV2MotionEncodeStats,
    cur: VideoPlane<u8>,
    refp: VideoPlane<u8>,
    s: SrsV2EncodeSettings,
    p: SrsV2PartitionSettings,
    cols: int,
    lam: int,
    parts: Seq<u8>,
    blocks: Seq<BlockPlan>,
) -> SrsV2MotionEncodeStats {
    let n = parts.len() as int;
    let st = partition_stats(fresh_partition_stats(p), cur, refp, s, p, cols, lam, parts, n);
    SrsV2MotionEncodeStats {
        sad_evaluations: (before.sad_evaluations + total(
            n,
            |i: int| choice_evals(cur, refp, s, p, i % cols * 16, i / cols * 16),
        ) + total(
            n,
            |i: int| type_evals(cur, refp, s, i % cols * 16, i / cols * 16, parts[i]),
        )) as u64,
        skip_subblocks: (before.skip_subblocks + blocks_with(blocks, 0, 4 * n)) as u64,
        partition: SrsV2PartitionEncodeStats {
            transform_4x4_count: blocks_with(blocks, 4, 4 * n) as u64,
            transform_8x8_count: blocks_with(blocks, 1, 4 * n) as u64,
            ..st
        },
        ..before
    }
}

/// Choosing partitions does not touch the transform counters.
proof fn lemma_no_transforms(
    start: SrsV2PartitionEncodeStats,
    cur: VideoPlane<u8>,
    refp: VideoPlane<u8>,
    s: SrsV2EncodeSettings,
    p: SrsV2PartitionSettings,
    cols: int,
    lam: int,
    parts: Seq<u8>,
    n: int,
)
    ensures
        ({
            let st = partition_stats(start, cur, refp, s, p, cols, lam, parts, n);
            &&& st.transform_4x4_count == start.transform_4x4_count
            &&& st.transform_8x8_count == start.transform_8x8_count
        }),
    decreases n,
{
    if n > 0 {
        lemma_no_transforms(start, cur, refp, s, p, cols, lam, parts, n - 1);
    }
}

/// Plans a forward picture with variable partitions: partitions, motion search, and what every
/// sub-block carries. `lambda` is the rate factor of the picture; `lens` are the residual bytes of
/// the candidate partitions, four per macroblock, where the settings ask for them.
pub fn plan_p_var_frame(
    seq: &VideoSequenceHeaderV2,
    cur: &YuvFrame,
    reference: &YuvFrame,
    qp: u8,
    settings: &SrsV2EncodeSettings,
    parts: &SrsV2PartitionSettings,
    lambda: i64,
    lens: &[Result<usize, SrsV2Error>],
    ms: &mut SrsV2MotionEncodeStats,
) -> (r: Result<VarPlan, SrsV2Error>)
    requires
        frame_fits(cur.y, reference.y, seq.width as int / 16, seq.height as int / 16),
        delta_ranges_ok(*settings),
        all_trials_ok(*parts, lens@, mb_count(*seq)),
        old(ms).sad_evaluations <= 4611686018427387904,
        old(ms).skip_subblocks <= 4611686018427387904,
    ensures
        match var_plan_refusal(*seq, *cur, *reference) {
            Some(e) => r == Err::<VarPlan, SrsV2Error>(e) && *final(ms) == *old(ms),
            None => {
                let cols = seq.width as int / 16;
                let lam = partition_factor(
                    lambda as int,
                    parts.partition_rdo_lambda_scale as int,
                );
                match partitions_of(
                    cur.y,
                    reference.y,
                    *settings,
                    *parts,
                    cols,
                    lam,
                    lens@,
                    mb_count(*seq),
                ) {
                    Err(e) => r == Err::<VarPlan, SrsV2Error>(e) && *final(ms) == *old(ms),
                    Ok(map) => {
                        let plan = r->Ok_0;
                        &&& r is Ok
                        &&& plan.wf()
                        &&& plan.parts@ == map
                        &&& map.len() == mb_count(*seq)
                        &&& plan.mvs@ == picture_vectors(
                            cur.y,
                            reference.y,
                            *settings,
                            cols,
                            map,
                            mb_count(*seq),
                        )
                        &&& forall|k: int|
                            0 <= k < plan.blocks@.len() ==> planned_as(
                                #[trigger] plan.blocks@[k],
                                cur.y,
                                reference.y,
                                *settings,
                                *parts,
                                qp as int,
                                cols,
                                mb_count(*seq),
                                k / 4,
                                map[k / 4],
                                plan.mvs@,
                                pu_start(map, k / 4),
                                k % 4,
                                chunks_before(plan.blocks@, k),
                            )
                        &&& *final(ms) == var_plan_stats(
                            *old(ms),
                            cur.y,
                            reference.y,
                            *settings,
                            *parts,
                            cols,
                            lam,
                            map,
                            plan.blocks@,
                        )
                    },
                }
            },
        },
{
    if seq.pixel_format != PixelFormat::Yuv420p8 || cur.format != PixelFormat::Yuv420p8
        || reference.format != PixelFormat::Yuv420p8 {
        return Err(SrsV2Error::Unsupported("P-frame encode requires YUV420p8"));
    }
    let cols: u32 = seq.width / 16;
    let rows: u32 = seq.height / 16;
    assert(cols * rows <= 512 * 512) by (nonlinear_arith)
        requires
            cols <= 512,
            rows <= 512,
    ;
    let n: usize = (cols * rows) as usize;
    let lam_p: i64 = sat_mul_i64(lambda, parts.partition_rdo_lambda_scale as i64) / 256;
    let map = match choose_partitions(
        &cur.y,
        &reference.y,
        settings,
        parts,
        cols,
        rows,
        lam_p,
        lens,
        ms,
    ) {
        Err(e) => {
            return Err(e);
        },
        Ok(m) => m,
    };
    let mvs = match collect_pu_mvs(
        &cur.y,
        &reference.y,
        settings,
        map.as_slice(),
        cols,
        rows,
        ms,
    ) {
        Err(e) => {
            return Err(e);
        },
        Ok(m) => m,
    };
    let deltas = measure_blocks(&cur.y, settings, cols, rows);
    let ctx = VarContext {
        cur: &cur.y,
        refp: &reference.y,
        settings,
        parts,
        deltas: &deltas,
        qp,
        cols,
        rows,
    };
    let (blocks, skipped, whole, small) = ctx.plan_blocks(map.as_slice(), mvs.as_slice());
    proof {
        lemma_no_transforms(
            fresh_partition_stats(*parts),
            cur.y,
            reference.y,
            *settings,
            *parts,
            cols as int,
            lam_p as int,
            map@,
            n as int,
        );
    }
    ms.skip_subblocks = ms.skip_subblocks + skipped;
    ms.partition.transform_4x4_count = small;
    ms.partition.transform_8x8_count = whole;
    assert(lam_p == partition_factor(lambda as int, parts.partition_rdo_lambda_scale as int));
    assert(n == mb_count(*seq));
    assert(*ms == var_plan_stats(
        *old(ms),
        cur.y,
        reference.y,
        *settings,
        *parts,
        cols as int,
        lam_p as int,
        map@,
        blocks@,
    ));
    Ok(VarPlan { parts: map, mvs, blocks })
}

pub proof fn lemma_chunks_bound(blocks: Seq<BlockPlan>, k: int)
    requires
        0 <= k,
    ensures
        0 <= chunks_before(blocks, k) <= 4 * k,
    decreases k,
{
    if k > 0 {
        lemma_chunks_bound(blocks, k - 1);
    }
}

proof fn lemma_planned_numbered(
    ctx: VarContext<'_>,
    blocks: Seq<BlockPlan>,
    map: Seq<u8>,
    mvs: Seq<(i32, i32)>,
)
    requires
        blocks.len() <= 1048576,
        forall|j: int|
            0 <= j < blocks.len() ==> ctx.plans(
                #[trigger] blocks[j],
                j / 4,
                map[j / 4],
                mvs,
                pu_start(map, j / 4),
                j % 4,
                chunks_before(blocks, j),
            ),
    ensures
        numbered(blocks),
{
    assert forall|k: int| 0 <= k < blocks.len() implies match (#[trigger] blocks[k]).wire {
        VarBlock::Skip => true,
        VarBlock::Whole { job } => job == chunks_before(blocks, k),
        VarBlock::Quarters { first } => first == chunks_before(blocks, k),
    } by {
        lemma_chunks_bound(blocks, k);
    }
}

/// A coded chunk; `rans` tells which of the two codings it uses.
#[derive(Debug, Clone)]
pub struct VarChunk {
    pub bytes: Vec<u8>,
    pub rans: bool,
}

/// A chunk as it stands in the stream: behind its delta, where deltas are on the wire.
pub open spec fn chunk_wire(on: bool, delta: i8, c: Seq<u8>) -> Seq<u8> {
    if on {
        seq![delta_byte(delta)] + c
    } else {
        c
    }
}

/// How far the residuals of a picture were written: the bytes, how many chunks were counted, and
/// what stopped the writing, if anything did.
pub struct BodyState {
    pub bytes: Seq<u8>,
    pub counted: int,
    pub fault: Option<SrsV2Error>,
}

/// The state after `m` chunks from number `first` on.
pub open spec fn body_chunks(
    on: bool,
    delta: i8,
    coded: Seq<Result<VarChunk, SrsV2Error>>,
    first: int,
    m: int,
    st: BodyState,
) -> BodyState
    decreases m,
{
    if m <= 0 {
        st
    } else {
        let s = body_chunks(on, delta, coded, first, m - 1, st);
        if s.fault is Some {
            s
        } else {
            match coded[first + m - 1] {
                Err(e) => BodyState { fault: Some(e), ..s },
                Ok(c) => {
                    let w = chunk_wire(on, delta, c.bytes@);
                    if w.len() > u32::MAX {
                        BodyState {
                            counted: first + m,
                            fault: Some(SrsV2Error::Overflow("var p chunk")),
                            ..s
                        }
                    } else {
                        BodyState {
                            bytes: s.bytes + bytes32(w.len() as int) + w,
                            counted: first + m,
                            ..s
                        }
                    }
                },
            }
        }
    }
}

/// The state after one more sub-block: a control byte and its chunks.
pub open spec fn body_step(
    on: bool,
    b: BlockPlan,
    coded: Seq<Result<VarChunk, SrsV2Error>>,
    st: BodyState,
) -> BodyState {
    if st.fault is Some {
        st
    } else if on && !(QP_DELTA_WIRE_MIN <= b.delta <= QP_DELTA_WIRE_MAX) {
        BodyState { fault: Some(SrsV2Error::Syntax("qp_delta out of wire range")), ..st }
    } else {
        match b.wire {
            VarBlock::Skip => BodyState { bytes: st.bytes + seq![1u8], ..st },
            VarBlock::Whole { job } => body_chunks(
                on,
                b.delta,
                coded,
                job as int,
                1,
                BodyState { bytes: st.bytes + seq![0u8], ..st },
            ),
            VarBlock::Quarters { first } => body_chunks(
                on,
                b.delta,
                coded,
                first as int,
                4,
                BodyState { bytes: st.bytes + seq![2u8], ..st },
            ),
        }
    }
}

/// The state after the first `k` sub-blocks.
pub open spec fn body_state(
    on: bool,
    blocks: Seq<BlockPlan>,
    coded: Seq<Result<VarChunk, SrsV2Error>>,
    k: int,
) -> BodyState
    decreases k,
{
    if k <= 0 {
        BodyState { bytes: seq![], counted: 0, fault: None }
    } else {
        body_step(on, blocks[k - 1], coded, body_state(on, blocks, coded, k - 1))
    }
}

/// How many of the first `n` chunks are (`rans`) or are not entropy-coded.
pub open spec fn coded_among(coded: Seq<Result<VarChunk, SrsV2Error>>, rans: bool, n: int) -> int
    decreases n,
{
    if n <= 0 {
        0
    } else {
        coded_among(coded, rans, n - 1) + (if coded[n - 1] matches Ok(c) && c.rans == rans {
            1int
        } else {
            0
        })
    }
}

/// The counters after the first `n` chunks.
pub open spec fn with_chunks(
    before: ResidualEncodeStats,
    coded: Seq<Result<VarChunk, SrsV2Error>>,
    n: int,
) -> ResidualEncodeStats {
    ResidualEncodeStats {
        p_explicit_chunks: (before.p_explicit_chunks + coded_among(coded, false, n)) as u64,
        p_rans_chunks: (before.p_rans_chunks + coded_among(coded, true, n)) as u64,
        ..before
    }
}

/// The counters have room for `n` chunks.
pub open spec fn chunk_room(st: ResidualEncodeStats, n: int) -> bool {
    st.p_explicit_chunks + n <= u64::MAX && st.p_rans_chunks + n <= u64::MAX
}

proof fn lemma_body_fault(
    on: bool,
    blocks: Seq<BlockPlan>,
    coded: Seq<Result<VarChunk, SrsV2Error>>,
    k: int,
    n: int,
)
    requires
        k <= n,
        body_state(on, blocks, coded, k).fault is Some,
    ensures
        body_state(on, blocks, coded, n) == body_state(on, blocks, coded, k),
    decreases n - k,
{
    if k < n {
        lemma_body_fault(on, blocks, coded, k, n - 1);
    }
}

proof fn lemma_body_chunks_fault(
    on: bool,
    delta: i8,
    coded: Seq<Result<VarChunk, SrsV2Error>>,
    first: int,
    k: int,
    m: int,
    st: BodyState,
)
    requires
        k <= m,
        body_chunks(on, delta, coded, first, k, st).fault is Some,
    ensures
        body_chunks(on, delta, coded, first, m, st) == body_chunks(
            on,
            delta,
            coded,
            first,
            k,
            st,
        ),
    decreases m - k,
{
    if k < m {
        lemma_body_chunks_fault(on, delta, coded, first, k, m - 1, st);
    }
}

proof fn lemma_coded_among(coded: Seq<Result<VarChunk, SrsV2Error>>, rans: bool, n: int)
    requires
        0 <= n,
    ensures
        0 <= coded_among(coded, rans, n) <= n,
    decreases n,
{
    if n > 0 {
        lemma_coded_among(coded, rans, n - 1);
    }
}

fn write_chunks(
    out: &mut Vec<u8>,
    on: bool,
    delta: i8,
    coded: &[Result<VarChunk, SrsV2Error>],
    first: usize,
    m: usize,
    stats: &mut ResidualEncodeStats,
    Ghost(start): Ghost<ResidualEncodeStats>,
    Ghost(st): Ghost<BodyState>,
) -> (r: Option<SrsV2Error>)
    requires
        first + m <= coded@.len(),
        coded@.len() <= 4194304,
        st.fault is None,
        st.bytes == old(out)@,
        st.counted == first,
        chunk_room(start, 4194304),
        *old(stats) == with_chunks(start, coded@, first as int),
    ensures
        ({
            let t = body_chunks(on, delta, coded@, first as int, m as int, st);
            &&& r == t.fault
            &&& r is None ==> final(out)@ == t.bytes && t.counted == first + m
            &&& *final(stats) == with_chunks(start, coded@, t.counted)
        }),
{
    let mut i: usize = 0;
    while i < m
        invariant
            i <= m,
            first + m <= coded@.len(),
            coded@.len() <= 4194304,
            chunk_room(start, 4194304),
            st.counted == first,
            ({
                let t = body_chunks(on, delta, coded@, first as int, i as int, st);
                &&& t.fault is None
                &&& out@ == t.bytes
                &&& t.counted == first + i
            }),
            *stats == with_chunks(start, coded@, first + i),
        decreases m - i,
    {
        let ghost before = out@;
        proof {
            lemma_coded_among(coded@, false, first + i);
            lemma_coded_among(coded@, true, first + i);
            lemma_coded_among(coded@, false, first + i + 1);
            lemma_coded_among(coded@, true, first + i + 1);
        }
        match &coded[first + i] {
            Err(e) => {
                proof {
                    lemma_body_chunks_fault(
                        on,
                        delta,
                        coded@,
                        first as int,
                        i + 1,
                        m as int,
                        st,
                    );
                }
                return Some(*e);
            },
            Ok(c) => {
                if c.rans {
                    stats.p_rans_chunks = stats.p_rans_chunks + 1;
                } else {
                    stats.p_explicit_chunks = stats.p_explicit_chunks + 1;
                }
                let ghost w = chunk_wire(on, delta, c.bytes@);
                let len: u64 = c.bytes.len() as u64;
                let extra: u64 = if on { 1 } else { 0 };
                if len >= 4294967296 || len + extra > 4294967295 {
                    proof {
                        lemma_body_chunks_fault(
                            on,
                            delta,
                            coded@,
                            first as int,
                            i + 1,
                            m as int,
                            st,
                        );
                    }
                    return Some(SrsV2Error::Overflow("var p chunk"));
                }
                push_u32(out, (len + extra) as u32);
                if on {
                    out.push(byte_of_delta(delta));
                }
                push_all(out, c.bytes.as_slice());
                assert(out@ =~= before + bytes32(w.len() as int) + w);
            },
        }
        i += 1;
    }
    None
}

fn write_var_block(
    out: &mut Vec<u8>,
    on: bool,
    b: &BlockPlan,
    coded: &[Result<VarChunk, SrsV2Error>],
    stats: &mut ResidualEncodeStats,
    Ghost(start): Ghost<ResidualEncodeStats>,
    Ghost(st): Ghost<BodyState>,
) -> (r: Option<SrsV2Error>)
    requires
        coded@.len() <= 4194304,
        st.fault is None,
        st.bytes == old(out)@,
        0 <= st.counted,
        st.counted + chunks_of(b.wire) <= coded@.len(),
        match b.wire {
            VarBlock::Skip => true,
            VarBlock::Whole { job } => job == st.counted,
            VarBlock::Quarters { first } => first == st.counted,
        },
        chunk_room(start, 4194304),
        *old(stats) == with_chunks(start, coded@, st.counted),
    ensures
        ({
            let t = body_step(on, *b, coded@, st);
            &&& r == t.fault
            &&& r is None ==> final(out)@ == t.bytes && t.counted == st.counted + chunks_of(b.wire)
            &&& *final(stats) == with_chunks(start, coded@, t.counted)
        }),
{
    if on {
        match validate_wire_qp_delta(b.delta) {
            Err(e) => {
                return Some(e);
            },
            Ok(_) => {},
        }
    }
    let ghost before = out@;
    match b.wire {
        VarBlock::Skip => {
            out.push(1);
            assert(out@ =~= before + seq![1u8]);
            None
        },
        VarBlock::Whole { job } => {
            out.push(0);
            assert(out@ =~= before + seq![0u8]);
            write_chunks(
                out,
                on,
                b.delta,
                coded,
                job,
                1,
                stats,
                Ghost(start),
                Ghost(BodyState { bytes: st.bytes + seq![0u8], ..st }),
            )
        },
        VarBlock::Quarters { first } => {
            out.push(2);
            assert(out@ =~= before + seq![2u8]);
            write_chunks(
                out,
                on,
                b.delta,
                coded,
                first,
                4,
                stats,
                Ghost(start),
                Ghost(BodyState { bytes: st.bytes + seq![2u8], ..st }),
            )
        },
    }
}

/// Writes the residuals of sub-blocks `from` up to `to`, those before being written.
fn write_var_blocks(
    out: &mut Vec<u8>,
    on: bool,
    blocks: &[BlockPlan],
    coded: &[Result<VarChunk, SrsV2Error>],
    from: usize,
    to: usize,
    stats: &mut ResidualEncodeStats,
    Ghost(start): Ghost<ResidualEncodeStats>,
) -> (r: Result<(), SrsV2Error>)
    requires
        from <= to <= blocks@.len(),
        blocks@.len() <= 1048576,
        numbered(blocks@),
        coded@.len() == chunks_before(blocks@, blocks@.len() as int),
        chunk_room(start, 4194304),
        body_state(on, blocks@, coded@, from as int).fault is None,
        old(out)@ == body_state(on, blocks@, coded@, from as int).bytes,
        body_state(on, blocks@, coded@, from as int).counted == chunks_before(
            blocks@,
            from as int,
        ),
        *old(stats) == with_chunks(start, coded@, chunks_before(blocks@, from as int)),
    ensures
        ({
            let t = body_state(on, blocks@, coded@, to as int);
            &&& match t.fault {
                Some(e) => r == Err::<(), SrsV2Error>(e),
                None => r is Ok && final(out)@ == t.bytes && t.counted == chunks_before(
                    blocks@,
                    to as int,
                ),
            }
            &&& *final(stats) == with_chunks(start, coded@, t.counted)
        }),
{
    let ghost n = blocks@.len() as int;
    proof {
        lemma_chunks_bound(blocks@, n);
    }
    let mut k: usize = from;
    while k < to
        invariant
            k <= to,
            to <= blocks@.len(),
            n == blocks@.len(),
            n <= 1048576,
            numbered(blocks@),
            coded@.len() == chunks_before(blocks@, n),
            coded@.len() <= 4194304,
            chunk_room(start, 4194304),
            body_state(on, blocks@, coded@, k as int).fault is None,
            out@ == body_state(on, blocks@, coded@, k as int).bytes,
            body_state(on, blocks@, coded@, k as int).counted == chunks_before(blocks@, k as int),
            *stats == with_chunks(start, coded@, chunks_before(blocks@, k as int)),
        decreases to - k,
    {
        proof {
            lemma_chunks_bound(blocks@, k as int);
            lemma_chunks_rest(blocks@, k + 1, n);
        }
        let ghost st = body_state(on, blocks@, coded@, k as int);
        match write_var_block(out, on, &blocks[k], coded, stats, Ghost(start), Ghost(st)) {
            Some(e) => {
                proof {
                    lemma_body_fault(on, blocks@, coded@, k + 1, to as int);
                }
                return Err(e);
            },
            None => {},
        }
        k += 1;
    }
    Ok(())
}

/// Sub-blocks of one unit.
pub open spec fn unit_blocks(pt: u8) -> int {
    if pt == P_PART_WIRE_16X16 {
        4
    } else if pt == P_PART_WIRE_8X8 {
        1
    } else {
        2
    }
}

/// The residual bytes of one macroblock after its first `j` units: each unit has to stay under the
/// limit of a trial.
pub open spec fn trial_length(
    on: bool,
    pt: u8,
    blocks: Seq<BlockPlan>,
    coded: Seq<Result<VarChunk, SrsV2Error>>,
    j: int,
) -> Result<int, SrsV2Error>
    decreases j,
{
    if j <= 0 {
        Ok(0)
    } else {
        match trial_length(on, pt, blocks, coded, j - 1) {
            Err(e) => Err(e),
            Ok(_) => {
                let st = body_state(on, blocks, coded, j * unit_blocks(pt));
                match st.fault {
                    Some(e) => Err(e),
                    None => if st.bytes.len() > MAX_MB_RESIDUAL_RD_BYTES {
                        Err(
                            SrsV2Error::AllocationLimit {
                                context: "var-partition mb residual RD estimate",
                            },
                        )
                    } else {
                        Ok(st.bytes.len() as int)
                    },
                }
            },
        }
    }
}

/// The residual bytes of a macroblock in a trial, given its coded chunks.
pub fn encode_one_mb_residual_body_len(
    settings: &SrsV2EncodeSettings,
    pt: u8,
    blocks: &[BlockPlan],
    coded: &[Result<VarChunk, SrsV2Error>],
) -> (r: Result<usize, SrsV2Error>)
    requires
        pt <= 3,
        blocks@.len() == 4,
        numbered(blocks@),
        coded@.len() == chunks_before(blocks@, 4),
    ensures
        match trial_length(sends_deltas(*settings), pt, blocks@, coded@, units(pt)) {
            Err(e) => r == Err::<usize, SrsV2Error>(e),
            Ok(n) => r is Ok && r->Ok_0 == n && n <= MAX_MB_RESIDUAL_RD_BYTES,
        },
{
    let on = settings.block_aq_mode == SrsV2BlockAqMode::BlockDelta && settings.residual_entropy
        != ResidualEntropy::Explicit;
    let per: usize = if pt == P_PART_WIRE_16X16 {
        4
    } else if pt == P_PART_WIRE_8X8 {
        1
    } else {
        2
    };
    let mut buf: Vec<u8> = Vec::new();
    let mut dry = ResidualEncodeStats::default();
    let ghost start = dry;
    let mut k: usize = 0;
    let ghost mut j = 0int;
    assert(with_chunks(start, coded@, 0) == start);
    while k < 4
        invariant
            k <= 4,
            pt <= 3,
            per == unit_blocks(pt),
            0 <= j <= units(pt),
            k == j * unit_blocks(pt),
            on == sends_deltas(*settings),
            blocks@.len() == 4,
            numbered(blocks@),
            coded@.len() == chunks_before(blocks@, 4),
            chunk_room(start, 4194304),
            body_state(on, blocks@, coded@, k as int).fault is None,
            buf@ == body_state(on, blocks@, coded@, k as int).bytes,
            body_state(on, blocks@, coded@, k as int).counted == chunks_before(blocks@, k as int),
            dry == with_chunks(start, coded@, chunks_before(blocks@, k as int)),
            trial_length(on, pt, blocks@, coded@, j) == Ok::<int, SrsV2Error>(buf@.len() as int),
            buf@.len() <= MAX_MB_RESIDUAL_RD_BYTES,
        decreases 4 - k,
    {
        proof {
            lemma_next_unit(pt, j, k as int);
            j = j + 1;
        }
        match write_var_blocks(
            &mut buf,
            on,
            blocks,
            coded,
            k,
            k + per,
            &mut dry,
            Ghost(start),
        ) {
            Err(e) => {
                proof {
                    lemma_trial_error(on, pt, blocks@, coded@, j, units(pt));
                }
                return Err(e);
            },
            Ok(_) => {},
        }
        k = k + per;
        if buf.len() > MAX_MB_RESIDUAL_RD_BYTES {
            proof {
                lemma_trial_error(on, pt, blocks@, coded@, j, units(pt));
            }
            return Err(
                SrsV2Error::AllocationLimit { context: "var-partition mb residual RD estimate" },
            );
        }
    }
    proof {
        if j < units(pt) {
            lemma_next_unit(pt, j, k as int);
        }
    }
    Ok(buf.len())
}

proof fn lemma_next_unit(pt: u8, j: int, k: int)
    requires
        pt <= 3,
        0 <= j <= units(pt),
        k == j * unit_blocks(pt),
    ensures
        k < 4 ==> j < units(pt) && k + unit_blocks(pt) <= 4,
        j < units(pt) ==> k < 4,
        (j + 1) * unit_blocks(pt) == k + unit_blocks(pt),
{
    assert((j + 1) * unit_blocks(pt) == j * unit_blocks(pt) + unit_blocks(pt))
        by (nonlinear_arith);
}

proof fn lemma_trial_error(
    on: bool,
    pt: u8,
    blocks: Seq<BlockPlan>,
    coded: Seq<Result<VarChunk, SrsV2Error>>,
    k: int,
    n: int,
)
    requires
        k <= n,
        trial_length(on, pt, blocks, coded, k) is Err,
    ensures
        trial_length(on, pt, blocks, coded, n) == trial_length(on, pt, blocks, coded, k),
    decreases n - k,
{
    if k < n {
        lemma_trial_error(on, pt, blocks, coded, k, n - 1);
    }
}

proof fn lemma_chunks_rest(blocks: Seq<BlockPlan>, k: int, n: int)
    requires
        0 <= k <= n,
    ensures
        chunks_before(blocks, k) <= chunks_before(blocks, n),
    decreases n - k,
{
    if k < n {
        lemma_chunks_rest(blocks, k, n - 1);
    }
}

/// Entropy-coded vectors are asked for.
pub open spec fn codes_vectors(s: SrsV2EncodeSettings) -> bool {
    s.inter_syntax_mode == SrsV2InterSyntaxMode::EntropyV1
}

/// The magic of a payload.
pub open spec fn var_magic(s: SrsV2EncodeSettings) -> [u8; 4] {
    if codes_vectors(s) {
        FRAME_PAYLOAD_MAGIC_P_INTER_ENTROPY_VAR
    } else {
        FRAME_PAYLOAD_MAGIC_P_VAR_PARTITION
    }
}

/// The map of a payload, and whether it is packed: packing has to make it shorter.
pub open spec fn map_bytes(p: SrsV2PartitionSettings, parts: Seq<u8>) -> Result<
    (Seq<u8>, bool),
    SrsV2Error,
> {
    if p.partition_map_encoding == SrsV2PartitionMapEncoding::RleRuns {
        match rle_payload(parts) {
            Err(e) => Err(e),
            Ok(b) => if b.len() < parts.len() {
                Ok((b, true))
            } else {
                Ok((parts, false))
            },
        }
    } else {
        Ok((parts, false))
    }
}

/// The flags of a payload.
pub open spec fn var_flags(s: SrsV2EncodeSettings, packed_map: bool) -> int {
    (if s.subpel_mode == SrsV2SubpelMode::HalfPel {
        1int
    } else {
        0
    }) + (if sends_deltas(s) {
        2int
    } else {
        0
    }) + (if s.residual_entropy != ResidualEntropy::Explicit {
        4int
    } else {
        0
    }) + (if packed_map {
        8int
    } else {
        0
    })
}

/// The fields ahead of the map.
pub open spec fn var_head(
    s: SrsV2EncodeSettings,
    frame_index: int,
    qp: int,
    packed_map: bool,
) -> Seq<u8> {
    var_magic(s)@ + bytes32(frame_index) + seq![qp as u8, var_flags(s, packed_map) as u8] + (
    if sends_deltas(s) {
        seq![s.min_qp, s.max_qp]
    } else {
        seq![]
    })
}

/// The vectors of a payload: varints, or an entropy-coded section with its two lengths.
pub open spec fn var_vectors(
    s: SrsV2EncodeSettings,
    compact: Seq<u8>,
    blob: Option<Result<Vec<u8>, SrsV2Error>>,
) -> Result<Seq<u8>, SrsV2Error> {
    if codes_vectors(s) {
        match blob->Some_0 {
            Err(e) => Err(e),
            Ok(b) => if b@.len() > u32::MAX {
                Err(SrsV2Error::Overflow("mv blob"))
            } else {
                Ok(bytes32(compact.len() as int) + bytes32(b@.len() as int) + b@)
            },
        }
    } else {
        Ok(compact)
    }
}

/// A payload with variable partitions.
pub open spec fn var_payload(
    s: SrsV2EncodeSettings,
    p: SrsV2PartitionSettings,
    cols: int,
    frame_index: int,
    qp: int,
    parts: Seq<u8>,
    mvs: Seq<(i32, i32)>,
    blocks: Seq<BlockPlan>,
    coded: Seq<Result<VarChunk, SrsV2Error>>,
    blob: Option<Result<Vec<u8>, SrsV2Error>>,
) -> Result<Seq<u8>, SrsV2Error> {
    let body = body_state(sends_deltas(s), blocks, coded, blocks.len() as int);
    let compact = stream_bytes(cols, parts, mvs, parts.len() as int, 0);
    match body.fault {
        Some(e) => Err(e),
        None => match map_bytes(p, parts) {
            Err(e) => Err(e),
            Ok((map, packed_map)) => if sends_deltas(s) && !clip_range_ok(
                s.min_qp as int,
                s.max_qp as int,
            ) {
                Err(SrsV2Error::Syntax("invalid qp clip range"))
            } else {
                match var_vectors(s, compact, blob) {
                    Err(e) => Err(e),
                    Ok(v) => {
                        let bytes = var_head(s, frame_index, qp, packed_map) + map + v + body.bytes;
                        if bytes.len() > MAX_FRAME_PAYLOAD_BYTES {
                            Err(
                                SrsV2Error::AllocationLimit {
                                    context: "encoded P-frame var partition",
                                },
                            )
                        } else {
                            Ok(bytes)
                        }
                    },
                }
            },
        },
    }
}

/// The counters of a picture that was written.
pub open spec fn var_written_stats(
    before: SrsV2MotionEncodeStats,
    s: SrsV2EncodeSettings,
    map: int,
    compact: int,
    vectors: int,
    body: int,
    mvs: Seq<(i32, i32)>,
) -> SrsV2MotionEncodeStats {
    SrsV2MotionEncodeStats {
        nonzero_motion_macroblocks: total(
            mvs.len() as int,
            |i: int| if mvs[i].0 != 0 || mvs[i].1 != 0 { 1int } else { 0 },
        ) as u32,
        sum_mv_l1: total(
            mvs.len() as int,
            |i: int| (magnitude(mvs[i].0 as int) + magnitude(mvs[i].1 as int)) / 4,
        ) as u64,
        inter_mv: SrsV2InterMvBenchStats {
            mv_prediction_mode: MV_PREDICTION_MODE_LABEL,
            mv_compact_bytes: compact as u64,
            mv_entropy_section_bytes: if codes_vectors(s) {
                vectors as u64
            } else {
                before.inter_mv.mv_entropy_section_bytes
            },
            ..before.inter_mv
        },
        partition: SrsV2PartitionEncodeStats {
            partition_map_bytes: map as u64,
            partition_header_bytes: map as u64,
            partition_mv_bytes: vectors as u64,
            partition_residual_bytes: body as u64,
            ..before.partition
        },
        ..before
    }
}

/// How many vectors move, and the sum of their lengths in pels.
fn measure_vectors(mvs: &[(i32, i32)]) -> (r: (u32, u64))
    requires
        mvs@.len() <= 1048576,
        unit_vectors_ok(mvs@),
    ensures
        r.0 == total(
            mvs@.len() as int,
            |i: int| if mvs@[i].0 != 0 || mvs@[i].1 != 0 { 1int } else { 0 },
        ),
        r.1 == total(
            mvs@.len() as int,
            |i: int| (magnitude(mvs@[i].0 as int) + magnitude(mvs@[i].1 as int)) / 4,
        ),
{
    let ghost f = |i: int| if mvs@[i].0 != 0 || mvs@[i].1 != 0 { 1int } else { 0 };
    let ghost g = |i: int| (magnitude(mvs@[i].0 as int) + magnitude(mvs@[i].1 as int)) / 4;
    let n: usize = mvs.len();
    let mut moving: u32 = 0;
    let mut l1: u64 = 0;
    let mut i: usize = 0;
    while i < n
        invariant
            i <= n,
            n == mvs@.len(),
            n <= 1048576,
            unit_vectors_ok(mvs@),
            f == (|i: int| if mvs@[i].0 != 0 || mvs@[i].1 != 0 { 1int } else { 0 }),
            g == (|i: int| (magnitude(mvs@[i].0 as int) + magnitude(mvs@[i].1 as int)) / 4),
            moving == total(i as int, f),
            moving <= i,
            l1 == total(i as int, g),
            l1 <= 256 * i,
        decreases n - i,
    {
        let (x, y) = mvs[i];
        assert(unit_vector_ok(mvs@[i as int]));
        let ax: i32 = if x < 0 { -x } else { x };
        let ay: i32 = if y < 0 { -y } else { y };
        assert(g(i as int) == (ax + ay) / 4);
        assert(f(i as int) == if x != 0 || y != 0 { 1int } else { 0 });
        if x != 0 || y != 0 {
            moving += 1;
        }
        l1 = l1 + ((ax + ay) / 4) as u64;
        i += 1;
    }
    (moving, l1)
}

/// The partition map as it is written.
fn write_map(p: &SrsV2PartitionSettings, parts: &[u8]) -> (r: Result<(Vec<u8>, bool), SrsV2Error>)
    ensures
        match map_bytes(*p, parts@) {
            Err(e) => r == Err::<(Vec<u8>, bool), SrsV2Error>(e),
            Ok(m) => r is Ok && r->Ok_0.0@ == m.0 && r->Ok_0.1 == m.1,
        },
{
    if p.partition_map_encoding == SrsV2PartitionMapEncoding::RleRuns {
        match rle_partition_payload(parts) {
            Err(e) => {
                return Err(e);
            },
            Ok(b) => {
                if b.len() < parts.len() {
                    return Ok((b, true));
                }
            },
        }
    }
    let mut raw: Vec<u8> = Vec::new();
    push_all(&mut raw, parts);
    assert(raw@ =~= parts@);
    Ok((raw, false))
}

/// Encodes a planned picture, given its coded chunks in the order of their numbers (those of the
/// small transform never count as entropy-coded) and, where the settings ask for it, the
/// entropy-coded vectors. An encoder that stops early has counted the chunks before that.
pub fn encode_yuv420_p_payload_var_partition(
    plan: &VarPlan,
    cols: u32,
    rows: u32,
    frame_index: u32,
    qp: u8,
    settings: &SrsV2EncodeSettings,
    parts: &SrsV2PartitionSettings,
    coded: &[Result<VarChunk, SrsV2Error>],
    mv_blob: &Option<Result<Vec<u8>, SrsV2Error>>,
    stats: &mut ResidualEncodeStats,
    ms: &mut SrsV2MotionEncodeStats,
) -> (r: Result<Vec<u8>, SrsV2Error>)
    requires
        plan.wf(),
        plan.parts@.len() == cols * rows,
        coded@.len() == plan.chunks(),
        codes_vectors(*settings) ==> mv_blob is Some,
        chunk_room(*old(stats), 4194304),
    ensures
        match var_payload(
            *settings,
            *parts,
            cols as int,
            frame_index as int,
            qp as int,
            plan.parts@,
            plan.mvs@,
            plan.blocks@,
            coded@,
            *mv_blob,
        ) {
            Err(e) => r == Err::<Vec<u8>, SrsV2Error>(e),
            Ok(b) => r is Ok && r->Ok_0@ == b,
        },
        *final(stats) == with_chunks(
            *old(stats),
            coded@,
            body_state(
                sends_deltas(*settings),
                plan.blocks@,
                coded@,
                plan.blocks@.len() as int,
            ).counted,
        ),
        r is Err ==> *final(ms) == *old(ms),
        r is Ok ==> {
            let compact = stream_bytes(
                cols as int,
                plan.parts@,
                plan.mvs@,
                plan.parts@.len() as int,
                0,
            );
            *final(ms) == var_written_stats(
                *old(ms),
                *settings,
                map_bytes(*parts, plan.parts@)->Ok_0.0.len() as int,
                compact.len() as int,
                var_vectors(*settings, compact, *mv_blob)->Ok_0.len() as int,
                body_state(
                    sends_deltas(*settings),
                    plan.blocks@,
                    coded@,
                    plan.blocks@.len() as int,
                ).bytes.len() as int,
                plan.mvs@,
            )
        },
{
    let on = settings.block_aq_mode == SrsV2BlockAqMode::BlockDelta && settings.residual_entropy
        != ResidualEntropy::Explicit;
    let n: usize = plan.parts.len();
    let compact = match compact_vectors(plan, cols, rows) {
        Err(e) => {
            return Err(e);
        },
        Ok(c) => c,
    };
    let mut body: Vec<u8> = Vec::new();
    assert(body@ =~= Seq::<u8>::empty());
    assert(with_chunks(*stats, coded@, 0) == *stats);
    match write_var_blocks(
        &mut body,
        on,
        plan.blocks.as_slice(),
        coded,
        0,
        plan.blocks.len(),
        stats,
        Ghost(*stats),
    ) {
        Err(e) => {
            return Err(e);
        },
        Ok(_) => {},
    }
    let (map, packed_map) = match write_map(parts, plan.parts.as_slice()) {
        Err(e) => {
            return Err(e);
        },
        Ok(m) => m,
    };
    if on {
        match validate_qp_clip_range(settings.min_qp, settings.max_qp) {
            Err(e) => {
                return Err(e);
            },
            Ok(_) => {},
        }
    }
    let mut out = write_var_head(settings, on, frame_index, qp, packed_map);
    push_all(&mut out, map.as_slice());
    let at: usize = out.len();
    match push_var_vectors(&mut out, settings, compact.as_slice(), mv_blob) {
        Err(e) => {
            return Err(e);
        },
        Ok(_) => {},
    }
    let vectors: usize = out.len() - at;
    push_all(&mut out, body.as_slice());
    if out.len() > MAX_FRAME_PAYLOAD_BYTES {
        return Err(SrsV2Error::AllocationLimit { context: "encoded P-frame var partition" });
    }
    proof {
        super::inter_mv::lemma_pu_start(plan.parts@, n as int, n as int);
    }
    note_var_written(
        ms,
        settings,
        map.len(),
        compact.len(),
        vectors,
        body.len(),
        plan.mvs.as_slice(),
    );
    Ok(out)
}

fn push_var_vectors(
    out: &mut Vec<u8>,
    settings: &SrsV2EncodeSettings,
    compact: &[u8],
    mv_blob: &Option<Result<Vec<u8>, SrsV2Error>>,
) -> (r: Result<(), SrsV2Error>)
    requires
        compact@.len() <= u32::MAX,
        codes_vectors(*settings) ==> mv_blob is Some,
    ensures
        match var_vectors(*settings, compact@, *mv_blob) {
            Err(e) => r == Err::<(), SrsV2Error>(e),
            Ok(v) => r is Ok && final(out)@ == old(out)@ + v,
        },
{
    if settings.inter_syntax_mode != SrsV2InterSyntaxMode::EntropyV1 {
        push_all(out, compact);
        return Ok(());
    }
    match mv_blob.as_ref() {
        None => Ok(()),
        Some(Err(e)) => Err(*e),
        Some(Ok(b)) => {
            if b.len() as u64 > 4294967295 {
                return Err(SrsV2Error::Overflow("mv blob"));
            }
            push_u32(out, compact.len() as u32);
            push_u32(out, b.len() as u32);
            push_all(out, b.as_slice());
            assert(out@ =~= old(out)@ + var_vectors(*settings, compact@, *mv_blob)->Ok_0);
            Ok(())
        },
    }
}

fn note_var_written(
    ms: &mut SrsV2MotionEncodeStats,
    settings: &SrsV2EncodeSettings,
    map: usize,
    compact: usize,
    vectors: usize,
    body: usize,
    mvs: &[(i32, i32)],
)
    requires
        mvs@.len() <= 1048576,
        unit_vectors_ok(mvs@),
    ensures
        *final(ms) == var_written_stats(
            *old(ms),
            *settings,
            map as int,
            compact as int,
            vectors as int,
            body as int,
            mvs@,
        ),
{
    let (moving, l1) = measure_vectors(mvs);
    ms.partition.partition_map_bytes = map as u64;
    ms.partition.partition_header_bytes = map as u64;
    ms.partition.partition_mv_bytes = vectors as u64;
    if settings.inter_syntax_mode == SrsV2InterSyntaxMode::EntropyV1 {
        ms.inter_mv.mv_entropy_section_bytes = vectors as u64;
    }
    ms.partition.partition_residual_bytes = body as u64;
    ms.nonzero_motion_macroblocks = moving;
    ms.sum_mv_l1 = l1;
    ms.inter_mv.mv_prediction_mode = MV_PREDICTION_MODE_LABEL;
    ms.inter_mv.mv_compact_bytes = compact as u64;
}

fn write_var_head(
    settings: &SrsV2EncodeSettings,
    on: bool,
    frame_index: u32,
    qp: u8,
    packed_map: bool,
) -> (out: Vec<u8>)
    requires
        on == sends_deltas(*settings),
    ensures
        out@ == var_head(*settings, frame_index as int, qp as int, packed_map),
{
    let magic: [u8; 4] = if settings.inter_syntax_mode == SrsV2InterSyntaxMode::EntropyV1 {
        FRAME_PAYLOAD_MAGIC_P_INTER_ENTROPY_VAR
    } else {
        FRAME_PAYLOAD_MAGIC_P_VAR_PARTITION
    };
    let mut flags: u8 = 0;
    if settings.subpel_mode == SrsV2SubpelMode::HalfPel {
        flags += 1;
    }
    if on {
        flags += 2;
    }
    if settings.residual_entropy != ResidualEntropy::Explicit {
        flags += 4;
    }
    if packed_map {
        flags += 8;
    }
    let mut out: Vec<u8> = Vec::new();
    push_all(&mut out, magic.as_slice());
    push_u32(&mut out, frame_index);
    out.push(qp);
    out.push(flags);
    if on {
        out.push(settings.min_qp);
        out.push(settings.max_qp);
    }
    assert(out@ =~= var_head(*settings, frame_index as int, qp as int, packed_map));
    out
}

/// Vectors that a search found fit a partitioned stream.
pub proof fn lemma_plan_stream(parts: Seq<u8>, mvs: Seq<(i32, i32)>, cols: int)
    requires
        parts.len() <= 262144,
        all_partitions(parts),
        mvs.len() == pu_start(parts, parts.len() as int),
        unit_vectors_ok(mvs),
        0 < cols || parts.len() == 0,
    ensures
        stream_refusal(parts.len() as int, parts) is None,
        stream_deltas_fit(cols, parts, mvs, parts.len() as int),
        stream_bytes(cols, parts, mvs, parts.len() as int, 0).len() <= 40 * parts.len(),
{
    let n = parts.len() as int;
    super::inter_mv::lemma_pu_start(parts, 0, n);
    lemma_unit_count(parts, 0);
    assert forall|i: int| 0 <= i < mvs.len() implies magnitude((#[trigger] mvs[i]).0 as int)
        <= 1048576 && magnitude(mvs[i].1 as int) <= 1048576 by {
        assert(unit_vector_ok(mvs[i]));
    }
    if n > 0 {
        lemma_small_stream(cols, parts, mvs, n);
    }
    lemma_stream_short(cols, parts, mvs, n, n, 0);
}

proof fn lemma_unit_count(parts: Seq<u8>, i: int)
    requires
        parts.len() <= 262144,
        all_partitions(parts),
        0 <= i <= parts.len(),
    ensures
        unit_count(parts, parts.len() as int, i, pu_start(parts, i)) is Ok,
    decreases parts.len() - i,
{
    if i < parts.len() {
        super::inter_mv::lemma_pu_start(parts, i + 1, parts.len() as int);
        lemma_unit_count(parts, i + 1);
    }
}

fn compact_vectors(plan: &VarPlan, cols: u32, rows: u32) -> (r: Result<Vec<u8>, SrsV2Error>)
    requires
        plan.wf(),
        plan.parts@.len() == cols * rows,
    ensures
        r is Ok,
        r->Ok_0@ == stream_bytes(
            cols as int,
            plan.parts@,
            plan.mvs@,
            plan.parts@.len() as int,
            0,
        ),
        r->Ok_0@.len() <= 10485760,
{
    proof {
        if cols == 0 {
            assert(cols * rows == 0) by (nonlinear_arith)
                requires
                    cols == 0,
            ;
        }
        lemma_plan_stream(plan.parts@, plan.mvs@, cols as int);
    }
    encode_mv_stream_partitioned(cols, rows, plan.parts.as_slice(), plan.mvs.as_slice())
}

} // verus!
