//! What forward and bidirectional pictures share: macroblocks of four 8x8 sub-blocks, each
//! predicted from one or two references and corrected by an optional residual.
use vstd::prelude::*;

use crate::arith::{magnitude, total};
use crate::bytes::{bytes32, clip, le32, le32_reads_bytes32, tdiv};
use super::b_frame_codec::BBlendModeWire;
use super::block_aq::{
    apply_qp_delta_clamped, delta_of_byte, delta_on_wire, shifted_qp, signed8,
    validate_wire_qp_delta,
};
use super::error::SrsV2Error;
use super::frame::{
    lemma_packed_at, lemma_packed_position, packed, plane_refusal, DecodedVideoFrameV2, VideoPlane,
    YuvFrame,
};
use super::intra_codec::{dequantize, dequantized_block, read_block, read_block_at};
use super::model::PixelFormat;
use super::motion_search::{padded, sample_u8_plane};
use super::p_frame_codec::SKIP_ABS_THRESH;
use super::reader::{read_u32, take_u32, Read};
use super::subpel::{lemma_qpel_range, qpel_sample, sample_luma_bilinear_qpel, MAX_MV_QPEL};

verus! {

/// How one macroblock is predicted; vectors are in quarter-pel units.
#[derive(Debug, Clone, Copy, PartialEq, Eq, Structural)]
pub struct InterMb {
    pub blend: BBlendModeWire,
    pub weight_a: u8,
    pub weight_b: u8,
    pub mv_aqx: i32,
    pub mv_aqy: i32,
    pub mv_bqx: i32,
    pub mv_bqy: i32,
}

/// A vector component within the bounds of the format.
pub open spec fn mv_bounded(v: int) -> bool {
    -MAX_MV_QPEL <= v <= MAX_MV_QPEL
}

impl InterMb {
    /// The vectors are within bounds, and the weights of a weighted blend sum to 256.
    pub open spec fn wf(self) -> bool {
        &&& mv_bounded(self.mv_aqx as int)
        &&& mv_bounded(self.mv_aqy as int)
        &&& mv_bounded(self.mv_bqx as int)
        &&& mv_bounded(self.mv_bqy as int)
        &&& self.blend == BBlendModeWire::Weighted ==> self.weight_a + self.weight_b == 256
    }

    /// The prediction made of a sample from either reference.
    pub open spec fn blended(self, pa: int, pb: int) -> int {
        match self.blend {
            BBlendModeWire::ForwardOnly => pa,
            BBlendModeWire::BackwardOnly => pb,
            BBlendModeWire::Average => (pa + pb + 1) / 2,
            BBlendModeWire::Weighted => (pa * self.weight_a + pb * self.weight_b + 128) / 256,
        }
    }

    /// The luma prediction at (`x`, `y`).
    pub open spec fn luma(self, a: VideoPlane<u8>, b: VideoPlane<u8>, x: int, y: int) -> int {
        self.blended(
            qpel_sample(a, x, y, self.mv_aqx as int, self.mv_aqy as int),
            qpel_sample(b, x, y, self.mv_bqx as int, self.mv_bqy as int),
        )
    }

    /// The chroma prediction at (`x`, `y`): whole samples, an eighth of the quarter-pel vector.
    pub open spec fn chroma(self, a: VideoPlane<u8>, b: VideoPlane<u8>, x: int, y: int) -> int {
        self.blended(
            padded(a, x + tdiv(self.mv_aqx as int, 8), y + tdiv(self.mv_aqy as int, 8)),
            padded(b, x + tdiv(self.mv_bqx as int, 8), y + tdiv(self.mv_bqy as int, 8)),
        )
    }

    /// Blends two samples.
    pub fn blend_samples(&self, pa: u8, pb: u8) -> (v: u8)
        requires
            self.wf(),
        ensures
            v == self.blended(pa as int, pb as int),
    {
        proof {
            lemma_blend_range(*self, pa as int, pb as int);
        }
        match self.blend {
            BBlendModeWire::ForwardOnly => pa,
            BBlendModeWire::BackwardOnly => pb,
            BBlendModeWire::Average => ((pa as u32 + pb as u32 + 1) / 2) as u8,
            BBlendModeWire::Weighted => ((pa as u32 * self.weight_a as u32 + pb as u32
                * self.weight_b as u32 + 128) / 256) as u8,
        }
    }

    pub(crate) fn predict_luma(&self, a: &VideoPlane<u8>, b: &VideoPlane<u8>, x: usize, y: usize) -> (v: u8)
        requires
            self.wf(),
            a.valid(),
            b.valid(),
            x < 8192,
            y < 8192,
        ensures
            v == self.luma(*a, *b, x as int, y as int),
    {
        proof {
            lemma_qpel_range(*a, x as int, y as int, self.mv_aqx as int, self.mv_aqy as int);
            lemma_qpel_range(*b, x as int, y as int, self.mv_bqx as int, self.mv_bqy as int);
        }
        let lx: i32 = x as i32;
        let ly: i32 = y as i32;
        if self.blend == BBlendModeWire::ForwardOnly {
            return sample_luma_bilinear_qpel(a, lx, ly, self.mv_aqx, self.mv_aqy);
        }
        let pb: u8 = sample_luma_bilinear_qpel(b, lx, ly, self.mv_bqx, self.mv_bqy);
        if self.blend == BBlendModeWire::BackwardOnly {
            return pb;
        }
        let pa: u8 = sample_luma_bilinear_qpel(a, lx, ly, self.mv_aqx, self.mv_aqy);
        self.blend_samples(pa, pb)
    }

    fn predict_chroma(&self, a: &VideoPlane<u8>, b: &VideoPlane<u8>, x: usize, y: usize) -> (v: u8)
        requires
            self.wf(),
            a.valid(),
            b.valid(),
            x < 8192,
            y < 8192,
        ensures
            v == self.chroma(*a, *b, x as int, y as int),
    {
        let bx: i32 = x as i32;
        let by: i32 = y as i32;
        let pa: u8 = sample_u8_plane(a, bx + self.mv_aqx / 8, by + self.mv_aqy / 8);
        let pb: u8 = sample_u8_plane(b, bx + self.mv_bqx / 8, by + self.mv_bqy / 8);
        self.blend_samples(pa, pb)
    }
}

/// The differences between an 8x8 block of the source and its prediction.
pub open spec fn mb_residual(
    mb: InterMb,
    cur: VideoPlane<u8>,
    a: VideoPlane<u8>,
    b: VideoPlane<u8>,
    ox: int,
    oy: int,
) -> Seq<i16> {
    Seq::new(
        64,
        |i: int|
            (cur.at(ox + i % 8, oy + i / 8) - mb.luma(a, b, ox + i % 8, oy + i / 8)) as i16,
    )
}

/// No difference is above the threshold under which a block may be skipped.
pub open spec fn quiet(block: Seq<i16>) -> bool {
    forall|i: int| 0 <= i < block.len() ==> magnitude(#[trigger] block[i] as int) <= SKIP_ABS_THRESH
}

impl InterMb {
    /// The differences between an 8x8 block of the source and its prediction, and whether they
    /// are small enough to be skipped.
    pub fn difference_block(
        &self,
        cur: &VideoPlane<u8>,
        a: &VideoPlane<u8>,
        b: &VideoPlane<u8>,
        ox: usize,
        oy: usize,
    ) -> (r: ([i16; 64], bool))
        requires
            self.wf(),
            cur.valid(),
            a.valid(),
            b.valid(),
            ox + 8 <= cur.width,
            oy + 8 <= cur.height,
        ensures
            r.0@ == mb_residual(*self, *cur, *a, *b, ox as int, oy as int),
            r.1 == quiet(r.0@),
    {
        let mut block: [i16; 64] = [0; 64];
        let mut calm = true;
        let ghost want = mb_residual(*self, *cur, *a, *b, ox as int, oy as int);
        let mut i: usize = 0;
        while i < 64
            invariant
                i <= 64,
                self.wf(),
                cur.valid(),
                a.valid(),
                b.valid(),
                ox + 8 <= cur.width,
                oy + 8 <= cur.height,
                want == mb_residual(*self, *cur, *a, *b, ox as int, oy as int),
                forall|j: int| 0 <= j < i ==> #[trigger] block@[j] == want[j],
                calm == (forall|j: int|
                    0 <= j < i ==> magnitude(#[trigger] want[j] as int) <= SKIP_ABS_THRESH),
            decreases 64 - i,
        {
            let x: usize = ox + i % 8;
            let y: usize = oy + i / 8;
            let d: i16 = cur.get(x, y) as i16 - self.predict_luma(a, b, x, y) as i16;
            block[i] = d;
            assert(want[i as int] == d);
            if d > SKIP_ABS_THRESH || d < -SKIP_ABS_THRESH {
                calm = false;
            }
            i += 1;
        }
        assert(block@ =~= want);
        (block, calm)
    }
}

/// The absolute prediction error at position `i` of a macroblock.
pub open spec fn mb_term(
    mb: InterMb,
    cur: VideoPlane<u8>,
    a: VideoPlane<u8>,
    b: VideoPlane<u8>,
    ox: int,
    oy: int,
    i: int,
) -> int {
    magnitude(
        cur.at(ox + i % 16, oy + i / 16) - mb.luma(a, b, ox + i % 16, oy + i / 16),
    )
}

/// The sum of absolute prediction errors over a macroblock.
pub open spec fn mb_sad(
    mb: InterMb,
    cur: VideoPlane<u8>,
    a: VideoPlane<u8>,
    b: VideoPlane<u8>,
    ox: int,
    oy: int,
) -> int {
    total(256, |i: int| mb_term(mb, cur, a, b, ox, oy, i))
}

impl InterMb {
    /// The sum of absolute prediction errors over a macroblock.
    pub fn sad(
        &self,
        cur: &VideoPlane<u8>,
        a: &VideoPlane<u8>,
        b: &VideoPlane<u8>,
        ox: usize,
        oy: usize,
    ) -> (r: u32)
        requires
            self.wf(),
            cur.valid(),
            a.valid(),
            b.valid(),
            ox + 16 <= cur.width,
            oy + 16 <= cur.height,
        ensures
            r == mb_sad(*self, *cur, *a, *b, ox as int, oy as int),
            r <= 65280,
    {
        let ghost f = |i: int| mb_term(*self, *cur, *a, *b, ox as int, oy as int, i);
        let mut acc: u32 = 0;
        let mut i: usize = 0;
        while i < 256
            invariant
                i <= 256,
                self.wf(),
                cur.valid(),
                a.valid(),
                b.valid(),
                ox + 16 <= cur.width,
                oy + 16 <= cur.height,
                f == (|i: int| mb_term(*self, *cur, *a, *b, ox as int, oy as int, i)),
                acc == total(i as int, f),
                acc <= 255 * i,
            decreases 256 - i,
        {
            let x: usize = ox + i % 16;
            let y: usize = oy + i / 16;
            let c: u8 = cur.get(x, y);
            let p: u8 = self.predict_luma(a, b, x, y);
            let d: u8 = if c < p { p - c } else { c - p };
            assert(f(i as int) == d);
            acc = acc + d as u32;
            i += 1;
        }
        acc
    }
}

/// A blend of two samples is a sample.
pub proof fn lemma_blend_range(mb: InterMb, pa: int, pb: int)
    requires
        mb.wf(),
        0 <= pa <= 255,
        0 <= pb <= 255,
    ensures
        0 <= mb.blended(pa, pb) <= 255,
        mb.blend == BBlendModeWire::Weighted ==> 0 <= pa * mb.weight_a <= 65025 && 0 <= pb
            * mb.weight_b <= 65025,
{
    if mb.blend == BBlendModeWire::Weighted {
        let wa = mb.weight_a as int;
        let wb = mb.weight_b as int;
        assert(0 <= pa * wa <= 255 * wa) by (nonlinear_arith)
            requires
                0 <= pa <= 255,
                0 <= wa,
        ;
        assert(0 <= pb * wb <= 255 * wb) by (nonlinear_arith)
            requires
                0 <= pb <= 255,
                0 <= wb,
        ;
    }
}

/// What is left to do for a residual: a coefficient block to transform, or a span of the payload
/// to entropy-decode, dequantize with `qp` and transform.
#[derive(Debug, Clone, Copy)]
pub enum ResidualJob {
    Transform([i16; 64]),
    Entropy { start: usize, end: usize, qp: i16 },
}

/// What a residual job holds.
pub enum JobView {
    Transform(Seq<i16>),
    /// Start, end and QP.
    Entropy(int, int, int),
}

impl View for ResidualJob {
    type V = JobView;

    open spec fn view(&self) -> JobView {
        match *self {
            ResidualJob::Transform(c) => JobView::Transform(c@),
            ResidualJob::Entropy { start, end, qp } => JobView::Entropy(
                start as int,
                end as int,
                qp as int,
            ),
        }
    }
}

/// The job of one sub-block, if it has a residual.
pub open spec fn job_view(j: Option<ResidualJob>) -> Option<JobView> {
    match j {
        Some(j) => Some(j@),
        None => None,
    }
}

/// The jobs of a list of sub-blocks.
pub open spec fn job_views(v: Seq<Option<ResidualJob>>) -> Seq<Option<JobView>> {
    Seq::new(v.len(), |i: int| job_view(v[i]))
}

/// A span that is preceded by its 32-bit length: where it starts and ends.
pub open spec fn take_span(data: Seq<u8>, cur: int, label: &'static str) -> Read<(int, int)> {
    let l = take_u32(data, cur);
    match l.value {
        Err(e) => Read { value: Err(e), next: l.next },
        Ok(len) => if l.next + len > usize::MAX {
            Read { value: Err(SrsV2Error::Overflow(label)), next: l.next }
        } else if l.next + len > data.len() {
            Read { value: Err(SrsV2Error::Truncated), next: l.next }
        } else {
            Read { value: Ok((l.next, l.next + len)), next: l.next + len }
        },
    }
}

/// A span that was written behind its length is found again.
pub proof fn span_round_trip(pre: Seq<u8>, c: Seq<u8>, post: Seq<u8>, label: &'static str)
    requires
        c.len() <= u32::MAX,
        pre.len() + 4 + c.len() + post.len() <= usize::MAX,
    ensures
        take_span(pre + (bytes32(c.len() as int) + c) + post, pre.len() as int, label) == (Read::<
            (int, int),
        > {
            value: Ok(((pre.len() + 4) as int, (pre.len() + 4 + c.len()) as int)),
            next: (pre.len() + 4 + c.len()) as int,
        }),
        (pre + (bytes32(c.len() as int) + c) + post).subrange(
            (pre.len() + 4) as int,
            (pre.len() + 4 + c.len()) as int,
        ) == c,
{
    let d = pre + (bytes32(c.len() as int) + c) + post;
    le32_reads_bytes32(pre, c.len() as int, c + post);
    assert(pre + bytes32(c.len() as int) + (c + post) =~= d);
    assert(d.subrange((pre.len() + 4) as int, (pre.len() + 4 + c.len()) as int) =~= c);
}

/// Reads the bounds of a span that is preceded by its length, and steps over it.
pub fn read_span(data: &[u8], cur: &mut usize, label: &'static str) -> (r: Result<
    (usize, usize),
    SrsV2Error,
>)
    ensures
        ({
            let s = take_span(data@, *old(cur) as int, label);
            &&& *final(cur) == s.next
            &&& match s.value {
                Ok(v) => r is Ok && r->Ok_0.0 == v.0 && r->Ok_0.1 == v.1 && v.0 <= v.1
                    <= data@.len(),
                Err(e) => r == Err::<(usize, usize), SrsV2Error>(e),
            }
        }),
{
    let len: usize = match read_u32(data, cur) {
        Ok(v) => v as usize,
        Err(e) => {
            return Err(e);
        },
    };
    let start: usize = *cur;
    match start.checked_add(len) {
        None => Err(SrsV2Error::Overflow(label)),
        Some(end) => {
            if end > data.len() {
                Err(SrsV2Error::Truncated)
            } else {
                *cur = end;
                Ok((start, end))
            }
        },
    }
}

/// What a residual chunk asks for. An entropy chunk is handed on; a tuple chunk must be one coded
/// block and nothing else.
pub open spec fn chunk_job(data: Seq<u8>, span: (int, int), entropy: bool, qp: int) -> Result<
    JobView,
    SrsV2Error,
> {
    if entropy {
        Ok(JobView::Entropy(span.0, span.1, qp))
    } else {
        let chunk = data.subrange(span.0, span.1);
        let b = read_block_at(chunk, 0);
        match b.value {
            Err(e) => Err(e),
            Ok(v) => if b.next != chunk.len() {
                Err(SrsV2Error::Syntax("residual chunk length mismatch"))
            } else {
                Ok(JobView::Transform(dequantized_block(v.1, qp)))
            },
        }
    }
}

fn open_chunk(data: &[u8], start: usize, end: usize, entropy: bool, qp: i16) -> (r: Result<
    ResidualJob,
    SrsV2Error,
>)
    requires
        start <= end <= data@.len(),
    ensures
        match chunk_job(data@, (start as int, end as int), entropy, qp as int) {
            Ok(j) => r is Ok && r->Ok_0@ == j,
            Err(e) => r == Err::<ResidualJob, SrsV2Error>(e),
        },
{
    if entropy {
        return Ok(ResidualJob::Entropy { start, end, qp });
    }
    let chunk: &[u8] = vstd::slice::slice_subrange(data, start, end);
    let mut c: usize = 0;
    match read_block(chunk, &mut c) {
        Err(e) => Err(e),
        Ok((_mode, levels)) => {
            if c != chunk.len() {
                return Err(SrsV2Error::Syntax("residual chunk length mismatch"));
            }
            Ok(ResidualJob::Transform(dequantize(&levels, qp)))
        },
    }
}

/// What the QPs of a payload with block deltas are made of: the QP of the picture and the range
/// that a shifted one is brought into.
#[derive(Debug, Clone, Copy, PartialEq, Eq)]
pub struct DeltaRange {
    pub base: u8,
    pub clip_min: u8,
    pub clip_max: u8,
}

impl DeltaRange {
    /// The QP of a sub-block with a delta.
    pub open spec fn shifted(self, delta: int) -> int {
        shifted_qp(self.base as int, delta, self.clip_min as int, self.clip_max as int)
    }
}

/// What a chunk asks for that starts with a delta.
pub open spec fn delta_job(data: Seq<u8>, span: (int, int), entropy: bool, d: DeltaRange) -> Result<
    JobView,
    SrsV2Error,
> {
    let delta = signed8(data[span.0] as int);
    if span.0 >= span.1 {
        Err(SrsV2Error::Truncated)
    } else if !delta_on_wire(delta) {
        Err(SrsV2Error::Syntax("qp_delta out of wire range"))
    } else {
        chunk_job(data, (span.0 + 1, span.1), entropy, d.shifted(delta))
    }
}

fn open_delta_chunk(
    data: &[u8],
    start: usize,
    end: usize,
    entropy: bool,
    d: &DeltaRange,
) -> (r: Result<ResidualJob, SrsV2Error>)
    requires
        start <= end <= data@.len(),
        d.clip_min <= d.clip_max,
    ensures
        match delta_job(data@, (start as int, end as int), entropy, *d) {
            Ok(j) => r is Ok && r->Ok_0@ == j,
            Err(e) => r == Err::<ResidualJob, SrsV2Error>(e),
        },
{
    if start >= end {
        return Err(SrsV2Error::Truncated);
    }
    let delta: i8 = delta_of_byte(data[start]);
    match validate_wire_qp_delta(delta) {
        Err(e) => {
            return Err(e);
        },
        Ok(_) => {},
    }
    let qp: u8 = apply_qp_delta_clamped(d.base, delta, d.clip_min, d.clip_max);
    open_chunk(data, start + 1, end, entropy, qp as i16)
}

/// How the residual chunks of a payload are read.
pub struct ChunkStyle {
    pub label: &'static str,
    pub entropy: bool,
    /// The QP of every sub-block, where the payload has no block deltas.
    pub qp: int,
    /// Each chunk starts with a delta.
    pub deltas: Option<DeltaRange>,
}

/// The residual chunk at the cursor.
pub open spec fn take_job(data: Seq<u8>, cur: int, style: ChunkStyle) -> Read<JobView> {
    let s = take_span(data, cur, style.label);
    match s.value {
        Err(e) => Read { value: Err(e), next: s.next },
        Ok(span) => Read {
            value: match style.deltas {
                None => chunk_job(data, span, style.entropy, style.qp),
                Some(d) => delta_job(data, span, style.entropy, d),
            },
            next: s.next,
        },
    }
}

/// Reads the residual chunk at the cursor.
pub fn read_job(
    data: &[u8],
    cur: &mut usize,
    label: &'static str,
    entropy: bool,
    qp: i16,
    deltas: Option<DeltaRange>,
) -> (r: Result<ResidualJob, SrsV2Error>)
    requires
        deltas matches Some(d) ==> d.clip_min <= d.clip_max,
    ensures
        ({
            let s = take_job(
                data@,
                *old(cur) as int,
                ChunkStyle { label, entropy, qp: qp as int, deltas },
            );
            &&& *final(cur) == s.next
            &&& match s.value {
                Ok(j) => r is Ok && r->Ok_0@ == j && *final(cur) <= data@.len(),
                Err(e) => r == Err::<ResidualJob, SrsV2Error>(e),
            }
        }),
{
    match read_span(data, cur, label) {
        Err(e) => Err(e),
        Ok((start, end)) => match deltas {
            None => open_chunk(data, start, end, entropy, qp),
            Some(d) => open_delta_chunk(data, start, end, entropy, &d),
        },
    }
}

/// How far an inter payload was read.
pub struct InterState {
    pub cur: int,
    /// Skip bits of the macroblock that was read last.
    pub pattern: int,
    pub mbs: Seq<InterMb>,
    /// Four per macroblock, in raster order inside of it.
    pub blocks: Seq<Option<JobView>>,
    /// Why the reading stopped, if it did.
    pub fault: Option<SrsV2Error>,
}

/// Bit `i` of a number.
pub open spec fn bit(v: int, i: int) -> bool {
    if i == 0 {
        v % 2 == 1
    } else if i == 1 {
        v / 2 % 2 == 1
    } else if i == 2 {
        v / 4 % 2 == 1
    } else {
        v / 8 % 2 == 1
    }
}

/// Tests bit `i` of a byte.
pub fn bit_set(v: u8, i: usize) -> (r: bool)
    requires
        i < 4,
    ensures
        r == bit(v as int, i as int),
{
    if i == 0 {
        v % 2 == 1
    } else if i == 1 {
        v / 2 % 2 == 1
    } else if i == 2 {
        v / 4 % 2 == 1
    } else {
        v / 8 % 2 == 1
    }
}

/// The state after the header of macroblock `i` was read.
pub open spec fn after_header(
    header: spec_fn(int, int) -> Read<(InterMb, int)>,
    i: int,
    st: InterState,
) -> InterState {
    let h = header(st.cur, i);
    match h.value {
        Err(e) => InterState { fault: Some(e), ..st },
        Ok(v) => InterState { cur: h.next, pattern: v.1, mbs: st.mbs.push(v.0), ..st },
    }
}

/// The state after sub-block `si` of a macroblock was read.
pub open spec fn after_block(
    data: Seq<u8>,
    style: ChunkStyle,
    si: int,
    st: InterState,
) -> InterState {
    if bit(st.pattern, si) {
        InterState { blocks: st.blocks.push(None), ..st }
    } else {
        let j = take_job(data, st.cur, style);
        match j.value {
            Err(e) => InterState { fault: Some(e), ..st },
            Ok(v) => InterState { cur: j.next, blocks: st.blocks.push(Some(v)), ..st },
        }
    }
}

/// The state after one more sub-block: the first of a macroblock is preceded by a header.
pub open spec fn inter_step(
    header: spec_fn(int, int) -> Read<(InterMb, int)>,
    data: Seq<u8>,
    style: ChunkStyle,
    k: int,
    st: InterState,
) -> InterState {
    if st.fault is Some {
        st
    } else {
        let s = if k % 4 == 0 {
            after_header(header, k / 4, st)
        } else {
            st
        };
        if s.fault is Some {
            s
        } else {
            after_block(data, style, k % 4, s)
        }
    }
}

/// The state after `n` sub-blocks, reading from `start` on.
pub open spec fn inter_state(
    header: spec_fn(int, int) -> Read<(InterMb, int)>,
    data: Seq<u8>,
    style: ChunkStyle,
    start: int,
    n: int,
) -> InterState
    decreases n,
{
    if n <= 0 {
        InterState { cur: start, pattern: 0, mbs: seq![], blocks: seq![], fault: None }
    } else {
        inter_step(
            header,
            data,
            style,
            n - 1,
            inter_state(header, data, style, start, n - 1),
        )
    }
}

/// A reading that stopped does not go on.
pub proof fn lemma_inter_fault(
    header: spec_fn(int, int) -> Read<(InterMb, int)>,
    data: Seq<u8>,
    style: ChunkStyle,
    start: int,
    k: int,
    n: int,
)
    requires
        k <= n,
        inter_state(header, data, style, start, k).fault is Some,
    ensures
        inter_state(header, data, style, start, n) == inter_state(header, data, style, start, k),
    decreases n - k,
{
    if k < n {
        lemma_inter_fault(header, data, style, start, k, n - 1);
    }
}

/// A reading that did not stop has every macroblock and every sub-block up to its end.
pub proof fn lemma_inter_lengths(
    header: spec_fn(int, int) -> Read<(InterMb, int)>,
    data: Seq<u8>,
    style: ChunkStyle,
    start: int,
    n: int,
)
    requires
        0 <= n,
        inter_state(header, data, style, start, n).fault is None,
    ensures
        inter_state(header, data, style, start, n).mbs.len() == (n + 3) / 4,
        inter_state(header, data, style, start, n).blocks.len() == n,
    decreases n,
{
    if n > 0 {
        lemma_inter_lengths(header, data, style, start, n - 1);
    }
}

/// An inter payload taken apart. Where `fault` is set the payload is broken there, and the lists
/// hold what came before.
#[derive(Debug, Clone)]
pub struct InterParse {
    pub frame_index: u32,
    pub qp: u8,
    pub mbs: Vec<InterMb>,
    /// Four per macroblock; a sub-block without residual has none.
    pub blocks: Vec<Option<ResidualJob>>,
    pub fault: Option<SrsV2Error>,
}

/// A state with the error of a payload that holds more than it should.
pub open spec fn closed_state(data: Seq<u8>, trailing: &'static str, st: InterState) -> InterState {
    if st.fault is None && st.cur != data.len() {
        InterState { fault: Some(SrsV2Error::Syntax(trailing)), ..st }
    } else {
        st
    }
}

impl InterParse {
    /// The lists hold what a reading gave.
    pub open spec fn matches(self, st: InterState) -> bool {
        &&& self.mbs@ == st.mbs
        &&& job_views(self.blocks@) == st.blocks
        &&& self.fault == st.fault
    }

    /// A complete parse covers `n` macroblocks.
    pub open spec fn wf(self, n: int) -> bool {
        &&& forall|i: int| 0 <= i < self.mbs@.len() ==> (#[trigger] self.mbs@[i]).wf()
        &&& self.fault is None ==> self.mbs@.len() == n && self.blocks@.len() == 4 * n
    }
}

/// Why a residual of the first `n` sub-blocks could not be had, if one could not: the first that
/// failed.
pub open spec fn residual_failure(
    blocks: Seq<Option<JobView>>,
    residuals: Seq<Result<[i16; 64], SrsV2Error>>,
    n: int,
) -> Option<SrsV2Error>
    decreases n,
{
    if n <= 0 {
        None
    } else {
        match residual_failure(blocks, residuals, n - 1) {
            Some(e) => Some(e),
            None => match residuals[n - 1] {
                Err(e) => if blocks[n - 1] is Some {
                    Some(e)
                } else {
                    None
                },
                Ok(_) => None,
            },
        }
    }
}

proof fn lemma_failure_stays(
    blocks: Seq<Option<JobView>>,
    residuals: Seq<Result<[i16; 64], SrsV2Error>>,
    k: int,
    n: int,
)
    requires
        k <= n,
        residual_failure(blocks, residuals, k) is Some,
    ensures
        residual_failure(blocks, residuals, n) == residual_failure(blocks, residuals, k),
    decreases n - k,
{
    if k < n {
        lemma_failure_stays(blocks, residuals, k, n - 1);
    }
}

/// Without a failure every residual that is needed is there.
pub proof fn lemma_no_failure(
    blocks: Seq<Option<JobView>>,
    residuals: Seq<Result<[i16; 64], SrsV2Error>>,
    n: int,
    k: int,
)
    requires
        residual_failure(blocks, residuals, n) is None,
        0 <= k < n,
        blocks[k] is Some,
    ensures
        residuals[k] is Ok,
    decreases n,
{
    if residual_failure(blocks, residuals, n - 1) is Some {
        lemma_failure_stays(blocks, residuals, n - 1, n);
    }
    if k < n - 1 {
        lemma_no_failure(blocks, residuals, n - 1, k);
    }
}

/// Looks for the first residual that failed.
pub fn find_residual_failure(
    blocks: &[Option<ResidualJob>],
    residuals: &[Result<[i16; 64], SrsV2Error>],
) -> (r: Option<SrsV2Error>)
    requires
        residuals@.len() == blocks@.len(),
    ensures
        r == residual_failure(job_views(blocks@), residuals@, blocks@.len() as int),
{
    let mut i: usize = 0;
    while i < blocks.len()
        invariant
            i <= blocks@.len(),
            residuals@.len() == blocks@.len(),
            residual_failure(job_views(blocks@), residuals@, i as int) is None,
        decreases blocks@.len() - i,
    {
        if blocks[i].is_some() {
            match residuals[i] {
                Err(e) => {
                    proof {
                        lemma_failure_stays(
                            job_views(blocks@),
                            residuals@,
                            i + 1,
                            blocks@.len() as int,
                        );
                    }
                    return Some(e);
                },
                Ok(_) => {},
            }
        }
        i += 1;
    }
    None
}

/// The macroblock that holds luma sample (`x`, `y`).
pub open spec fn mb_of(cols: int, x: int, y: int) -> int {
    y / 16 * cols + x / 16
}

/// The sub-block that holds luma sample (`x`, `y`).
pub open spec fn sub_of(cols: int, x: int, y: int) -> int {
    4 * mb_of(cols, x, y) + (y % 16 / 8 * 2 + x % 16 / 8)
}

/// A reconstructed luma sample: the prediction, plus the residual where the sub-block has one.
pub open spec fn inter_luma(
    a: VideoPlane<u8>,
    b: VideoPlane<u8>,
    mbs: Seq<InterMb>,
    blocks: Seq<Option<JobView>>,
    residuals: Seq<Result<[i16; 64], SrsV2Error>>,
    cols: int,
    x: int,
    y: int,
) -> u8 {
    let pred = mbs[mb_of(cols, x, y)].luma(a, b, x, y);
    let k = sub_of(cols, x, y);
    if blocks[k] is Some {
        clip(pred + residuals[k]->Ok_0@[y % 8 * 8 + x % 8], 0, 255) as u8
    } else {
        pred as u8
    }
}

/// A reconstructed chroma sample: the prediction of the macroblock.
pub open spec fn inter_chroma(
    a: VideoPlane<u8>,
    b: VideoPlane<u8>,
    mbs: Seq<InterMb>,
    cols: int,
    x: int,
    y: int,
) -> u8 {
    mbs[y / 8 * cols + x / 8].chroma(a, b, x, y) as u8
}

/// The macroblock of a sample is one of the picture.
pub proof fn lemma_mb_in_picture(x: int, y: int, w: int, h: int, s: int)
    requires
        0 <= x < w,
        0 <= y < h,
        s == 8 || s == 16,
        w % s == 0,
        h % s == 0,
    ensures
        0 <= y / s * (w / s) + x / s < (w / s) * (h / s),
{
    if s == 8 {
        assert(x / 8 < w / 8 && y / 8 < h / 8);
    } else {
        assert(x / 16 < w / 16 && y / 16 < h / 16);
    }
    lemma_packed_at(x / s, y / s, w / s, h / s);
}

/// Fills the luma plane of an inter picture.
pub fn fill_luma(
    plane: &mut VideoPlane<u8>,
    a: &VideoPlane<u8>,
    b: &VideoPlane<u8>,
    mbs: &[InterMb],
    blocks: &[Option<ResidualJob>],
    residuals: &[Result<[i16; 64], SrsV2Error>],
)
    requires
        a.valid(),
        b.valid(),
        old(plane).width <= 8192,
        old(plane).height <= 8192,
        old(plane).width % 16 == 0,
        old(plane).height % 16 == 0,
        old(plane).stride == old(plane).width,
        old(plane).samples@.len() == old(plane).width * old(plane).height,
        mbs@.len() == (old(plane).width / 16) * (old(plane).height / 16),
        blocks@.len() == 4 * mbs@.len(),
        residuals@.len() == blocks@.len(),
        forall|i: int| 0 <= i < mbs@.len() ==> (#[trigger] mbs@[i]).wf(),
        residual_failure(job_views(blocks@), residuals@, blocks@.len() as int) is None,
    ensures
        final(plane).width == old(plane).width,
        final(plane).height == old(plane).height,
        final(plane).stride == old(plane).stride,
        final(plane).samples@ == packed(
            old(plane).width as int,
            old(plane).height as int,
            |x: int, y: int|
                inter_luma(
                    *a,
                    *b,
                    mbs@,
                    job_views(blocks@),
                    residuals@,
                    old(plane).width as int / 16,
                    x,
                    y,
                ),
        ),
{
    let w: usize = plane.width as usize;
    let h: usize = plane.height as usize;
    let cols: usize = w / 16;
    let n: usize = plane.samples.len();
    let count: usize = blocks.len();
    let ghost f = |x: int, y: int|
        inter_luma(*a, *b, mbs@, job_views(blocks@), residuals@, cols as int, x, y);
    let mut i: usize = 0;
    while i < n
        invariant
            i <= n,
            n == w * h,
            w <= 8192,
            h <= 8192,
            w % 16 == 0,
            h % 16 == 0,
            cols == w as int / 16,
            count == blocks@.len(),
            a.valid(),
            b.valid(),
            mbs@.len() == (w as int / 16) * (h as int / 16),
            blocks@.len() == 4 * mbs@.len(),
            residuals@.len() == blocks@.len(),
            forall|i: int| 0 <= i < mbs@.len() ==> (#[trigger] mbs@[i]).wf(),
            residual_failure(job_views(blocks@), residuals@, blocks@.len() as int) is None,
            f == (|x: int, y: int|
                inter_luma(*a, *b, mbs@, job_views(blocks@), residuals@, cols as int, x, y)),
            plane.width == old(plane).width,
            plane.height == old(plane).height,
            plane.stride == old(plane).stride,
            w == plane.width,
            h == plane.height,
            plane.samples@.len() == n,
            forall|j: int|
                0 <= j < i ==> #[trigger] plane.samples@[j] == f(j % (w as int), j / (w as int)),
        decreases n - i,
    {
        assert(w > 0) by (nonlinear_arith)
            requires
                0 < w * h,
                w >= 0,
        ;
        proof {
            lemma_packed_position(i as int, w as int, h as int);
        }
        let x: usize = i % w;
        let y: usize = i / w;
        proof {
            lemma_mb_in_picture(x as int, y as int, w as int, h as int, 16);
            assert(0 <= y as int / 16 * cols) by (nonlinear_arith)
                requires
                    0 <= y,
                    0 <= cols,
            ;
        }
        let m: usize = y / 16 * cols + x / 16;
        let k: usize = 4 * m + (y % 16 / 8 * 2 + x % 16 / 8);
        let pred: u8 = mbs[m].predict_luma(a, b, x, y);
        let v: u8 = if blocks[k].is_some() {
            proof {
                lemma_no_failure(job_views(blocks@), residuals@, blocks@.len() as int, k as int);
            }
            match residuals[k] {
                Ok(res) => {
                    let p: i32 = pred as i32 + res[y % 8 * 8 + x % 8] as i32;
                    if p < 0 {
                        0
                    } else if p > 255 {
                        255
                    } else {
                        p as u8
                    }
                },
                Err(_) => 0,
            }
        } else {
            pred
        };
        assert(v == f(x as int, y as int));
        plane.samples[i] = v;
        i += 1;
    }
    assert(plane.samples@ =~= packed(w as int, h as int, f));
}

/// Fills a chroma plane of an inter picture.
pub fn fill_chroma(
    plane: &mut VideoPlane<u8>,
    a: &VideoPlane<u8>,
    b: &VideoPlane<u8>,
    mbs: &[InterMb],
)
    requires
        a.valid(),
        b.valid(),
        old(plane).width <= 8192,
        old(plane).height <= 8192,
        old(plane).width % 8 == 0,
        old(plane).height % 8 == 0,
        old(plane).stride == old(plane).width,
        old(plane).samples@.len() == old(plane).width * old(plane).height,
        mbs@.len() == (old(plane).width / 8) * (old(plane).height / 8),
        forall|i: int| 0 <= i < mbs@.len() ==> (#[trigger] mbs@[i]).wf(),
    ensures
        final(plane).width == old(plane).width,
        final(plane).height == old(plane).height,
        final(plane).stride == old(plane).stride,
        final(plane).samples@ == packed(
            old(plane).width as int,
            old(plane).height as int,
            |x: int, y: int| inter_chroma(*a, *b, mbs@, old(plane).width as int / 8, x, y),
        ),
{
    let w: usize = plane.width as usize;
    let h: usize = plane.height as usize;
    let cols: usize = w / 8;
    let n: usize = plane.samples.len();
    let count: usize = mbs.len();
    let ghost f = |x: int, y: int| inter_chroma(*a, *b, mbs@, cols as int, x, y);
    let mut i: usize = 0;
    while i < n
        invariant
            i <= n,
            n == w * h,
            w <= 8192,
            h <= 8192,
            w % 8 == 0,
            h % 8 == 0,
            cols == w as int / 8,
            count == mbs@.len(),
            a.valid(),
            b.valid(),
            mbs@.len() == (w as int / 8) * (h as int / 8),
            forall|i: int| 0 <= i < mbs@.len() ==> (#[trigger] mbs@[i]).wf(),
            f == (|x: int, y: int| inter_chroma(*a, *b, mbs@, cols as int, x, y)),
            plane.width == old(plane).width,
            plane.height == old(plane).height,
            plane.stride == old(plane).stride,
            w == plane.width,
            h == plane.height,
            plane.samples@.len() == n,
            forall|j: int|
                0 <= j < i ==> #[trigger] plane.samples@[j] == f(j % (w as int), j / (w as int)),
        decreases n - i,
    {
        assert(w > 0) by (nonlinear_arith)
            requires
                0 < w * h,
                w >= 0,
        ;
        proof {
            lemma_packed_position(i as int, w as int, h as int);
        }
        let x: usize = i % w;
        let y: usize = i / w;
        proof {
            lemma_mb_in_picture(x as int, y as int, w as int, h as int, 8);
            assert(0 <= y as int / 8 * cols) by (nonlinear_arith)
                requires
                    0 <= y,
                    0 <= cols,
            ;
        }
        let v: u8 = mbs[y / 8 * cols + x / 8].predict_chroma(a, b, x, y);
        assert(v == f(x as int, y as int));
        plane.samples[i] = v;
        i += 1;
    }
    assert(plane.samples@ =~= packed(w as int, h as int, f));
}

/// The three planes of a reconstructed inter picture.
pub open spec fn inter_planes(
    f: YuvFrame,
    w: int,
    h: int,
    a: YuvFrame,
    b: YuvFrame,
    mbs: Seq<InterMb>,
    blocks: Seq<Option<JobView>>,
    residuals: Seq<Result<[i16; 64], SrsV2Error>>,
) -> bool {
    let cols = w / 16;
    &&& f.y.width == w && f.y.height == h && f.y.stride == w
    &&& f.u.width == w / 2 && f.u.height == h / 2 && f.u.stride == w / 2
    &&& f.v.width == w / 2 && f.v.height == h / 2 && f.v.stride == w / 2
    &&& f.y.samples@ == packed(
        w,
        h,
        |x: int, y: int| inter_luma(a.y, b.y, mbs, blocks, residuals, cols, x, y),
    )
    &&& f.u.samples@ == packed(
        w / 2,
        h / 2,
        |x: int, y: int| inter_chroma(a.u, b.u, mbs, cols, x, y),
    )
    &&& f.v.samples@ == packed(
        w / 2,
        h / 2,
        |x: int, y: int| inter_chroma(a.v, b.v, mbs, cols, x, y),
    )
}

/// What decoding an inter payload reports, given how far it could be read: the first residual
/// that failed, else where the payload is broken.
pub open spec fn inter_error(
    st: InterState,
    residuals: Seq<Result<[i16; 64], SrsV2Error>>,
) -> Option<SrsV2Error> {
    match residual_failure(st.blocks, residuals, st.blocks.len() as int) {
        Some(e) => Some(e),
        None => st.fault,
    }
}

/// The chroma planes of an acceptable picture are acceptable too.
pub proof fn lemma_chroma_accepted(w: int, h: int)
    requires
        plane_refusal(w, h, w) is None,
        w % 16 == 0,
        h % 16 == 0,
        0 <= w,
        0 <= h,
    ensures
        plane_refusal(w / 2, h / 2, w / 2) is None,
        w <= 8192,
        h <= 8192,
        0 < w,
        0 < h,
{
    assert((w / 2) * (h / 2) <= w * h && (w / 2) * (h / 2) >= 0) by (nonlinear_arith)
        requires
            0 <= w / 2 <= w,
            0 <= h / 2 <= h,
    ;
}

/// Rebuilds an inter picture from its parse and the residual samples of its sub-blocks.
pub fn rebuild_inter_frame(
    parse: &InterParse,
    w: u32,
    h: u32,
    a: &YuvFrame,
    b: &YuvFrame,
    residuals: &[Result<[i16; 64], SrsV2Error>],
) -> (r: Result<DecodedVideoFrameV2, SrsV2Error>)
    requires
        w % 16 == 0,
        h % 16 == 0,
        plane_refusal(w as int, h as int, w as int) is None,
        a.valid(),
        b.valid(),
        parse.wf((w as int / 16) * (h as int / 16)),
        residuals@.len() == parse.blocks@.len(),
    ensures
        match residual_failure(
            job_views(parse.blocks@),
            residuals@,
            parse.blocks@.len() as int,
        ) {
            Some(e) => r == Err::<DecodedVideoFrameV2, SrsV2Error>(e),
            None => match parse.fault {
                Some(e) => r == Err::<DecodedVideoFrameV2, SrsV2Error>(e),
                None => r is Ok && r->Ok_0.frame_index == parse.frame_index && r->Ok_0.width == w
                    && r->Ok_0.height == h && r->Ok_0.is_displayable && r->Ok_0.yuv.format
                    == PixelFormat::Yuv420p8 && inter_planes(
                    r->Ok_0.yuv,
                    w as int,
                    h as int,
                    *a,
                    *b,
                    parse.mbs@,
                    job_views(parse.blocks@),
                    residuals@,
                ) && r->Ok_0.yuv.valid(),
            },
        },
{
    match find_residual_failure(parse.blocks.as_slice(), residuals) {
        Some(e) => {
            return Err(e);
        },
        None => {},
    }
    match parse.fault {
        Some(e) => {
            return Err(e);
        },
        None => {},
    }
    proof {
        lemma_chroma_accepted(w as int, h as int);
        assert((w as int / 2) / 8 == w as int / 16 && (h as int / 2) / 8 == h as int / 16);
        assert(h * w == w * h) by (nonlinear_arith);
        assert((h as int / 2) * (w as int / 2) == (w as int / 2) * (h as int / 2))
            by (nonlinear_arith);
    }
    let cw: u32 = w / 2;
    let ch: u32 = h / 2;
    let mut y_plane = VideoPlane::try_new(w, h, w as usize)?;
    let mut u_plane = VideoPlane::try_new(cw, ch, cw as usize)?;
    let mut v_plane = VideoPlane::try_new(cw, ch, cw as usize)?;
    let mbs = parse.mbs.as_slice();
    fill_luma(&mut y_plane, &a.y, &b.y, mbs, parse.blocks.as_slice(), residuals);
    fill_chroma(&mut u_plane, &a.u, &b.u, mbs);
    fill_chroma(&mut v_plane, &a.v, &b.v, mbs);
    Ok(
        DecodedVideoFrameV2 {
            frame_index: parse.frame_index,
            width: w,
            height: h,
            is_displayable: true,
            yuv: YuvFrame { format: PixelFormat::Yuv420p8, y: y_plane, u: u_plane, v: v_plane },
        },
    )
}

/// A span is found again in anything that begins with the bytes up to its end, and with any of
/// them cut off it is truncated.
pub proof fn span_needs_its_bytes(
    data: Seq<u8>,
    cur: int,
    label: &'static str,
    other: Seq<u8>,
    k: int,
)
    requires
        0 <= cur,
        take_span(data, cur, label).value is Ok,
    ensures
        ({
            let s = take_span(data, cur, label);
            &&& cur + 4 <= s.next <= data.len()
            &&& s.next <= other.len() && (forall|i: int| 0 <= i < s.next ==> other[i] == data[i])
                ==> take_span(other, cur, label) == s
            &&& cur <= k < s.next ==> take_span(data.take(k), cur, label).value == Err::<
                (int, int),
                SrsV2Error,
            >(SrsV2Error::Truncated)
        }),
{
    let s = take_span(data, cur, label);
    if cur + 4 <= k < s.next {
        assert(le32(data.take(k), cur) == le32(data, cur));
    }
    if s.next <= other.len() && (forall|i: int| 0 <= i < s.next ==> other[i] == data[i]) {
        assert(le32(other, cur) == le32(data, cur));
    }
}

} // verus!
