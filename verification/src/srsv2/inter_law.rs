//! What reading an inter payload gives back of what was written.
use vstd::prelude::*;

use crate::bytes::bytes32;
use super::block_aq::{delta_on_wire, signed8};
use super::error::SrsV2Error;
use super::inter_frame::{
    after_block, after_header, bit, inter_state, inter_step, span_round_trip, take_job, ChunkStyle,
    InterMb, InterState, JobView,
};
use super::inter_write::{
    chunk_of, framed_chunks, lemma_pattern, pattern_of, wire_chunk, CodedResidual,
};
use super::intra_codec::{
    block_bytes, block_round_trip, dequantized_block, quantized_block, PredMode,
};
use super::reader::Read;

verus! {

/// A job recovers what a sub-block was written from: nothing for a skipped one, the coefficients
/// for a tuple block, and the very bytes of an entropy-coded chunk. `qp` is the QP of the sub-block.
pub open spec fn recovers(
    data: Seq<u8>,
    qp: int,
    planned: Option<Seq<i16>>,
    coded: CodedResidual,
    job: Option<JobView>,
) -> bool {
    match planned {
        None => job is None,
        Some(_) => match coded {
            CodedResidual::Coefficients(f) => job == Some(
                JobView::Transform(dequantized_block(quantized_block(f@, qp), qp)),
            ),
            CodedResidual::Chunk { bytes, .. } => job matches Some(JobView::Entropy(a, b, q)) && 0
                <= a <= b <= data.len() && data.subrange(a, b) == bytes@ && q == qp,
            CodedResidual::Failed(_) => false,
        },
    }
}

/// The QP of sub-block `k`.
pub open spec fn block_step(style: ChunkStyle, deltas: Seq<i8>, k: int) -> int {
    match style.deltas {
        None => style.qp,
        Some(d) => d.shifted(deltas[k] as int),
    }
}

/// Sub-block `k` has a delta if the style asks for one, and only entropy-coded chunks have deltas.
pub open spec fn chunk_delta_fits(style: ChunkStyle, deltas: Seq<i8>, k: int) -> bool {
    if style.deltas is Some {
        style.entropy && 0 <= k < deltas.len() && delta_on_wire(deltas[k] as int)
    } else {
        deltas.len() <= k
    }
}

/// A chunk that was written is read back, whatever stands before and after.
pub proof fn chunk_round_trip(
    pre: Seq<u8>,
    coded: CodedResidual,
    deltas: Seq<i8>,
    k: int,
    post: Seq<u8>,
    style: ChunkStyle,
)
    requires
        style.entropy ==> coded is Chunk,
        !style.entropy ==> coded is Coefficients,
        chunk_delta_fits(style, deltas, k),
        wire_chunk(deltas, k, chunk_of(coded, style.qp)).len() <= u32::MAX,
        (pre + bytes32(wire_chunk(deltas, k, chunk_of(coded, style.qp)).len() as int) + wire_chunk(
            deltas,
            k,
            chunk_of(coded, style.qp),
        ) + post).len() <= usize::MAX,
    ensures
        ({
            let c = wire_chunk(deltas, k, chunk_of(coded, style.qp));
            let data = pre + bytes32(c.len() as int) + c + post;
            let j = take_job(data, pre.len() as int, style);
            &&& j.next == pre.len() + 4 + c.len()
            &&& j.value is Ok
            &&& recovers(
                data,
                block_step(style, deltas, k),
                Some(seq![]),
                coded,
                Some(j.value->Ok_0),
            )
        }),
{
    let body = chunk_of(coded, style.qp);
    let c = wire_chunk(deltas, k, body);
    let data = pre + bytes32(c.len() as int) + c + post;
    assert(data =~= pre + (bytes32(c.len() as int) + c) + post);
    span_round_trip(pre, c, post, style.label);
    if style.deltas is Some {
        let at = pre.len() as int + 4;
        assert(data[at] == c[0]);
        assert(signed8(c[0] as int) == deltas[k]);
        assert(data.subrange(at + 1, at + c.len()) =~= body);
    }
    if !style.entropy {
        match coded {
            CodedResidual::Coefficients(f) => {
                lemma_tuples_read(quantized_block(f@, style.qp));
            },
            _ => {},
        }
    }
}

proof fn lemma_tuples_read(levels: Seq<i16>)
    requires
        levels.len() == 64,
    ensures
        ({
            let c = block_bytes(PredMode::Dc, levels);
            super::intra_codec::read_block_at(c, 0) == (Read::<(PredMode, Seq<i16>)> {
                value: Ok((PredMode::Dc, levels)),
                next: c.len() as int,
            })
        }),
{
    block_round_trip(seq![], PredMode::Dc, levels, seq![]);
    let c = block_bytes(PredMode::Dc, levels);
    assert(Seq::<u8>::empty() + c + Seq::<u8>::empty() =~= c);
}

/// The bytes of `n` macroblocks, each a head (header fields and skip bits) and its chunks.
pub open spec fn mb_stream(
    heads: Seq<Seq<u8>>,
    planned: Seq<Option<Seq<i16>>>,
    coded: Seq<CodedResidual>,
    deltas: Seq<i8>,
    qp: int,
    long: SrsV2Error,
    n: int,
) -> Seq<u8>
    decreases n,
{
    if n <= 0 {
        seq![]
    } else {
        mb_stream(heads, planned, coded, deltas, qp, long, n - 1) + heads[n - 1] + framed_chunks(
            planned,
            coded,
            deltas,
            qp,
            4 * (n - 1),
            4,
            long,
        )->Ok_0
    }
}

/// What a stream of macroblocks holds and how it is read.
pub struct StreamCase {
    pub header: spec_fn(int, int) -> Read<(InterMb, int)>,
    pub data: Seq<u8>,
    pub style: ChunkStyle,
    pub pre: Seq<u8>,
    pub heads: Seq<Seq<u8>>,
    pub mbs: Seq<InterMb>,
    pub planned: Seq<Option<Seq<i16>>>,
    pub coded: Seq<CodedResidual>,
    pub deltas: Seq<i8>,
    pub long: SrsV2Error,
}

impl StreamCase {
    pub open spec fn stream(self, n: int) -> Seq<u8> {
        mb_stream(
            self.heads,
            self.planned,
            self.coded,
            self.deltas,
            self.style.qp,
            self.long,
            n,
        )
    }

    pub open spec fn chunks(self, i: int, m: int) -> Result<Seq<u8>, SrsV2Error> {
        framed_chunks(
            self.planned,
            self.coded,
            self.deltas,
            self.style.qp,
            4 * i,
            m,
            self.long,
        )
    }

    /// Where macroblock `i` starts.
    pub open spec fn offset(self, i: int) -> int {
        (self.pre.len() + self.stream(i).len()) as int
    }

    /// The payload was written from the macroblocks, and every head reads back.
    pub open spec fn holds(self) -> bool {
        let n = self.mbs.len() as int;
        &&& self.heads.len() == n
        &&& self.planned.len() == 4 * n
        &&& self.coded.len() == 4 * n
        &&& self.data == self.pre + self.stream(n)
        &&& self.data.len() <= usize::MAX
        &&& forall|i: int| 0 <= i < n ==> (#[trigger] self.chunks(i, 4)) is Ok
        &&& forall|k: int|
            0 <= k < 4 * n && #[trigger] self.planned[k] is Some ==> if self.style.entropy {
                self.coded[k] is Chunk
            } else {
                self.coded[k] is Coefficients
            }
        &&& forall|k: int|
            0 <= k < 4 * n && #[trigger] self.planned[k] is Some ==> chunk_delta_fits(
                self.style,
                self.deltas,
                k,
            )
        &&& forall|i: int|
            0 <= i < n ==> #[trigger] (self.header)(self.offset(i), i) == (Read::<(InterMb, int)> {
                value: Ok((self.mbs[i], pattern_of(self.planned, 4 * i, 4))),
                next: self.offset(i) + self.heads[i].len(),
            })
    }

    /// The chunk of sub-block `k` as it stands in the payload.
    pub open spec fn chunk(self, k: int) -> Seq<u8> {
        wire_chunk(self.deltas, k, chunk_of(self.coded[k], self.style.qp))
    }

    /// The QP of sub-block `k`.
    pub open spec fn step(self, k: int) -> int {
        block_step(self.style, self.deltas, k)
    }

    pub open spec fn state(self, k: int) -> InterState {
        inter_state(self.header, self.data, self.style, self.pre.len() as int, k)
    }
}

/// A stream starts with the stream of fewer macroblocks.
proof fn lemma_stream_tail(c: StreamCase, i: int, n: int) -> (rest: Seq<u8>)
    requires
        0 <= i <= n,
    ensures
        c.stream(n) == c.stream(i) + rest,
    decreases n - i,
{
    if i == n {
        assert(c.stream(n) =~= c.stream(i) + Seq::<u8>::empty());
        seq![]
    } else {
        let r = lemma_stream_tail(c, i, n - 1);
        let more = c.heads[n - 1] + c.chunks(n - 1, 4)->Ok_0;
        assert(c.stream(n) =~= c.stream(i) + (r + more));
        r + more
    }
}

/// What stands in a payload behind the head of macroblock `i`.
pub proof fn lemma_after_head(c: StreamCase, i: int) -> (post: Seq<u8>)
    requires
        0 <= i < c.mbs.len(),
        c.data == c.pre + c.stream(c.mbs.len() as int),
    ensures
        c.data == c.pre + c.stream(i) + c.heads[i] + post,
{
    let tail = lemma_stream_tail(c, i + 1, c.mbs.len() as int);
    let chunks = c.chunks(i, 4)->Ok_0;
    assert(c.stream(i + 1) == c.stream(i) + c.heads[i] + chunks);
    assert(c.data =~= c.pre + c.stream(i) + c.heads[i] + (chunks + tail));
    chunks + tail
}

/// The chunks of a macroblock start with the chunks of its first sub-blocks.
proof fn lemma_chunks_tail(c: StreamCase, i: int, m: int, n: int) -> (rest: Seq<u8>)
    requires
        0 <= m <= n,
        c.chunks(i, n) is Ok,
    ensures
        c.chunks(i, m) is Ok,
        c.chunks(i, n)->Ok_0 == c.chunks(i, m)->Ok_0 + rest,
    decreases n - m,
{
    if m == n {
        assert(c.chunks(i, n)->Ok_0 =~= c.chunks(i, m)->Ok_0 + Seq::<u8>::empty());
        seq![]
    } else {
        let r = lemma_chunks_tail(c, i, m, n - 1);
        if c.planned[4 * i + n - 1] is None {
            r
        } else {
            let b = c.chunk(4 * i + n - 1);
            let more = bytes32(b.len() as int) + b;
            assert(c.chunks(i, n)->Ok_0 =~= c.chunks(i, m)->Ok_0 + (r + more));
            r + more
        }
    }
}

/// Where the reading stands after sub-block `m` of macroblock `i`.
#[verifier::opaque]
spec fn read_so_far(c: StreamCase, i: int, m: int) -> bool {
    let st = c.state(4 * i + m);
    &&& st.fault is None
    &&& st.blocks.len() == 4 * i + m
    &&& forall|k: int|
        0 <= k < 4 * i + m ==> recovers(
            c.data,
            c.step(k),
            c.planned[k],
            c.coded[k],
            #[trigger] st.blocks[k],
        )
    &&& if m == 0 {
        &&& st.mbs == c.mbs.take(i)
        &&& st.cur == c.offset(i)
    } else {
        &&& st.mbs == c.mbs.take(i + 1)
        &&& st.pattern == pattern_of(c.planned, 4 * i, 4)
        &&& st.cur == c.offset(i) + c.heads[i].len() + c.chunks(i, m)->Ok_0.len()
    }
}

proof fn lemma_regroup(
    pre: Seq<u8>,
    before: Seq<u8>,
    head: Seq<u8>,
    chunks: Seq<u8>,
    len: Seq<u8>,
    body: Seq<u8>,
    rest: Seq<u8>,
    tail: Seq<u8>,
)
    ensures
        pre + (before + head + (chunks + len + body + rest) + tail) == pre + before + head + chunks
            + len + body + (rest + tail),
{
    assert(pre + (before + head + (chunks + len + body + rest) + tail) =~= pre + before + head
        + chunks + len + body + (rest + tail));
}

/// The payload around a chunk: what stands before it and after it.
proof fn lemma_around_chunk(c: StreamCase, i: int, m: int) -> (r: (Seq<u8>, Seq<u8>))
    requires
        c.holds(),
        0 <= i < c.mbs.len(),
        0 <= m < 4,
        c.planned[4 * i + m] is Some,
    ensures
        ({
            let b = c.chunk(4 * i + m);
            &&& c.data == r.0 + bytes32(b.len() as int) + b + r.1
            &&& b.len() <= u32::MAX
            &&& r.0.len() == c.offset(i) + c.heads[i].len() + c.chunks(i, m)->Ok_0.len()
            &&& c.chunks(i, m + 1)->Ok_0.len() == c.chunks(i, m)->Ok_0.len() + 4 + b.len()
        }),
{
    assert(c.chunks(i, 4) is Ok);
    let rest = lemma_chunks_tail(c, i, m + 1, 4);
    let _ = lemma_chunks_tail(c, i, m, m + 1);
    let b = c.chunk(4 * i + m);
    let tail = lemma_stream_tail(c, i + 1, c.mbs.len() as int);
    let chunks = c.chunks(i, m)->Ok_0;
    assert(c.chunks(i, m + 1)->Ok_0 == chunks + bytes32(b.len() as int) + b);
    assert(c.stream(i + 1) == c.stream(i) + c.heads[i] + c.chunks(i, 4)->Ok_0);
    lemma_regroup(
        c.pre,
        c.stream(i),
        c.heads[i],
        chunks,
        bytes32(b.len() as int),
        b,
        rest,
        tail,
    );
    (c.pre + c.stream(i) + c.heads[i] + chunks, rest + tail)
}

/// Reading one sub-block onto a state that stands in front of it.
proof fn lemma_read_block(c: StreamCase, i: int, m: int, s: InterState)
    requires
        c.holds(),
        0 <= i < c.mbs.len(),
        0 <= m < 4,
        s.fault is None,
        s.pattern == pattern_of(c.planned, 4 * i, 4),
        s.cur == c.offset(i) + c.heads[i].len() + c.chunks(i, m)->Ok_0.len(),
    ensures
        ({
            let t = after_block(c.data, c.style, m, s);
            &&& t.fault is None
            &&& t.mbs == s.mbs
            &&& t.pattern == s.pattern
            &&& t.cur == c.offset(i) + c.heads[i].len() + c.chunks(i, m + 1)->Ok_0.len()
            &&& t.blocks.len() == s.blocks.len() + 1
            &&& t.blocks == s.blocks.push(t.blocks.last())
            &&& recovers(
                c.data,
                c.step(4 * i + m),
                c.planned[4 * i + m],
                c.coded[4 * i + m],
                t.blocks.last(),
            )
        }),
{
    lemma_pattern(c.planned, 4 * i);
    assert(bit(pattern_of(c.planned, 4 * i, 4), m) == (c.planned[4 * i + m] is None));
    if c.planned[4 * i + m] is None {
        assert(c.chunks(i, 4) is Ok);
        let _ = lemma_chunks_tail(c, i, m + 1, 4);
        let _ = lemma_chunks_tail(c, i, m, m + 1);
    } else {
        let (pre, post) = lemma_around_chunk(c, i, m);
        chunk_round_trip(pre, c.coded[4 * i + m], c.deltas, 4 * i + m, post, c.style);
    }
}

proof fn lemma_read_sub(c: StreamCase, i: int, m: int)
    requires
        c.holds(),
        0 <= i < c.mbs.len(),
        0 <= m < 4,
        read_so_far(c, i, m),
    ensures
        read_so_far(c, i, m + 1),
{
    reveal(read_so_far);
    let k = 4 * i + m;
    let st = c.state(k);
    assert(k % 4 == m && k / 4 == i);
    assert(c.state(k + 1) == inter_step(c.header, c.data, c.style, k, st));
    let s = if m == 0 {
        after_header(c.header, i, st)
    } else {
        st
    };
    if m == 0 {
        assert((c.header)(c.offset(i), i).value is Ok);
        assert(c.mbs.take(i + 1) =~= c.mbs.take(i).push(c.mbs[i]));
    }
    lemma_read_block(c, i, m, s);
    let t = c.state(k + 1);
    assert forall|j: int| 0 <= j < k + 1 implies recovers(
        c.data,
        c.step(j),
        c.planned[j],
        c.coded[j],
        #[trigger] t.blocks[j],
    ) by {
        if j < k {
            assert(t.blocks[j] == st.blocks[j]);
        }
    }
}

proof fn lemma_read_mbs(c: StreamCase, i: int)
    requires
        c.holds(),
        0 <= i <= c.mbs.len(),
    ensures
        read_so_far(c, i, 0),
    decreases i,
{
    if i == 0 {
        reveal(read_so_far);
        assert(c.mbs.take(0) =~= seq![]);
    } else {
        lemma_read_mbs(c, i - 1);
        lemma_read_sub(c, i - 1, 0);
        lemma_read_sub(c, i - 1, 1);
        lemma_read_sub(c, i - 1, 2);
        lemma_read_sub(c, i - 1, 3);
        lemma_mb_done(c, i - 1);
    }
}

proof fn lemma_mb_done(c: StreamCase, i: int)
    requires
        c.holds(),
        0 <= i < c.mbs.len(),
        read_so_far(c, i, 4),
    ensures
        read_so_far(c, i + 1, 0),
{
    reveal(read_so_far);
    assert(c.chunks(i, 4) is Ok);
    assert(c.stream(i + 1) == c.stream(i) + c.heads[i] + c.chunks(i, 4)->Ok_0);
}

/// A payload that was written from macroblocks reads back as those macroblocks, every sub-block
/// recovers what it was written from, and nothing is left over.
pub proof fn stream_round_trip(c: StreamCase)
    requires
        c.holds(),
    ensures
        ({
            let st = c.state(4 * c.mbs.len() as int);
            &&& st.fault is None
            &&& st.cur == c.data.len()
            &&& st.mbs == c.mbs
            &&& st.blocks.len() == c.planned.len()
            &&& forall|k: int|
                0 <= k < st.blocks.len() ==> recovers(
                    c.data,
                    c.step(k),
                    c.planned[k],
                    c.coded[k],
                    #[trigger] st.blocks[k],
                )
        }),
{
    lemma_read_mbs(c, c.mbs.len() as int);
    reveal(read_so_far);
    assert(c.mbs.take(c.mbs.len() as int) =~= c.mbs);
}

} // verus!
