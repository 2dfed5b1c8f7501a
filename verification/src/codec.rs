//! Grayscale intra codec: 8x8 blocks of delta tokens and zero runs.
use vstd::prelude::*;

use crate::arith::{least, sat_mul_usize};
use crate::bytes::{
    bytes16, bytes32, get_u32, le16, le16_reads_bytes16, le32, le32_reads_bytes32, push_i16,
    push_u32, signed16, unsigned16,
};
use crate::error::VideoCodecError;

verus! {

pub const STREAM_MAGIC: [u8; 4] = [83, 82, 83, 86];

pub const STREAM_VERSION: u8 = 1;

pub const PACKET_SYNC: [u8; 2] = [86, 80];

pub const BLOCK_SIZE: usize = 8;

#[derive(Debug, Clone, Copy, PartialEq, Eq, Structural)]
pub enum FrameType {
    I,
    PReserved,
}

/// The wire code of a frame type.
pub open spec fn type_code(t: FrameType) -> u8 {
    match t {
        FrameType::I => 0,
        FrameType::PReserved => 1,
    }
}

/// The frame type with a wire code.
pub open spec fn type_of(v: u8) -> Result<FrameType, VideoCodecError> {
    if v == 0 {
        Ok(FrameType::I)
    } else if v == 1 {
        Ok(FrameType::PReserved)
    } else {
        Err(VideoCodecError::UnsupportedFrameType(v))
    }
}

impl FrameType {
    pub fn from_u8(value: u8) -> (r: Result<Self, VideoCodecError>)
        ensures
            r == type_of(value),
            r matches Ok(t) ==> type_code(t) == value,
    {
        match value {
            0 => Ok(FrameType::I),
            1 => Ok(FrameType::PReserved),
            other => Err(VideoCodecError::UnsupportedFrameType(other)),
        }
    }

    pub fn to_u8(self) -> (v: u8)
        ensures
            v == type_code(self),
            type_of(v) == Ok::<FrameType, VideoCodecError>(self),
    {
        match self {
            FrameType::I => 0,
            FrameType::PReserved => 1,
        }
    }
}

/// A grayscale picture, row by row.
#[derive(Debug, Clone, PartialEq, Eq)]
pub struct VideoFrame {
    pub width: u32,
    pub height: u32,
    pub frame_index: u32,
    pub frame_type: FrameType,
    pub data: Vec<u8>,
}

impl VideoFrame {
    /// The buffer holds a sample for each position.
    pub open spec fn filled(self) -> bool {
        self.data@.len() == least(self.width * self.height, usize::MAX as int)
    }

    pub fn validate_dimensions(&self) -> (r: Result<(), VideoCodecError>)
        ensures
            r == if self.filled() {
                Ok::<(), VideoCodecError>(())
            } else {
                Err::<(), VideoCodecError>(
                    VideoCodecError::InvalidData(
                        "frame pixel buffer length does not match dimensions",
                    ),
                )
            },
    {
        let expected: usize = sat_mul_usize(self.width as usize, self.height as usize);
        if expected != self.data.len() {
            return Err(
                VideoCodecError::InvalidData("frame pixel buffer length does not match dimensions"),
            );
        }
        Ok(())
    }
}

/// A run of samples that equal the one before; at most 128 fit one byte.
pub open spec fn run_token(run: int) -> Seq<u8> {
    if run <= 0 {
        seq![]
    } else {
        seq![(run - 1) as u8]
    }
}

/// A sample that differs from the one before: one byte for small differences, else a marker and
/// 16 bits.
pub open spec fn delta_token(delta: int) -> Seq<u8> {
    if -63 <= delta <= 63 && delta != 0 {
        seq![(delta + 192) as u8]
    } else {
        seq![128u8] + bytes16(unsigned16(delta))
    }
}

/// The tokens of samples `i` and later, with the sample before them and how many samples before
/// `i` equal it and are not written yet.
pub open spec fn tokens_from(s: Seq<u8>, i: int, pred: int, run: int) -> Seq<u8>
    decreases s.len() - i,
{
    if i >= s.len() {
        run_token(run)
    } else if s[i] == pred {
        tokens_from(s, i + 1, pred, run + 1)
    } else {
        run_token(run) + delta_token(s[i] - pred) + tokens_from(s, i + 1, s[i] as int, 0)
    }
}

/// The tokens of a block.
pub open spec fn block_tokens(s: Seq<u8>) -> Seq<u8> {
    tokens_from(s, 0, 128, 0)
}

/// What reading samples from a payload gives, and where the cursor stands after it.
pub struct SampleRead {
    pub value: Result<Seq<u8>, VideoCodecError>,
    pub next: int,
}

/// `n` copies of a sample.
pub open spec fn copies(v: int, n: int) -> Seq<u8> {
    Seq::new(n as nat, |i: int| v as u8)
}

/// Reads the tokens of a block of `m` samples, of which `seen` are known; `pred` is the last one.
pub open spec fn read_tokens(
    data: Seq<u8>,
    cur: int,
    m: int,
    pred: int,
    seen: Seq<u8>,
) -> SampleRead
    decreases m - seen.len(),
{
    if seen.len() >= m {
        SampleRead { value: Ok(seen), next: cur }
    } else if cur >= data.len() {
        SampleRead { value: Err(VideoCodecError::InvalidData("truncated payload")), next: cur }
    } else if data[cur] <= 127 {
        let run = data[cur] + 1;
        if seen.len() + run > m {
            SampleRead {
                value: Err(VideoCodecError::InvalidData("zero run overflows block")),
                next: cur + 1,
            }
        } else {
            read_tokens(data, cur + 1, m, pred, seen + copies(pred, run))
        }
    } else if data[cur] == 128 && cur + 3 > data.len() {
        SampleRead {
            value: Err(VideoCodecError::InvalidData("truncated i16 literal")),
            next: cur + 1,
        }
    } else {
        let v = pred + (if data[cur] == 128 {
            signed16(le16(data, cur + 1))
        } else {
            data[cur] - 192
        });
        let next = if data[cur] == 128 {
            cur + 3
        } else {
            cur + 1
        };
        if !(0 <= v <= 255) {
            SampleRead {
                value: Err(VideoCodecError::InvalidData("decoded sample out of range")),
                next,
            }
        } else {
            read_tokens(data, next, m, v, seen.push(v as u8))
        }
    }
}

fn push_token(out: &mut Vec<u8>, delta: i16)
    ensures
        final(out)@ == old(out)@ + delta_token(delta as int),
{
    if -63 <= delta && delta <= 63 && delta != 0 {
        out.push((delta + 192) as u8);
    } else {
        out.push(128);
        push_i16(out, delta);
    }
    assert(out@ =~= old(out)@ + delta_token(delta as int));
}

fn push_run(out: &mut Vec<u8>, run: u8)
    requires
        run <= 128,
    ensures
        final(out)@ == old(out)@ + run_token(run as int),
{
    if run > 0 {
        out.push(run - 1);
    }
    assert(out@ =~= old(out)@ + run_token(run as int));
}

fn encode_block(s: &[u8], out: &mut Vec<u8>)
    requires
        s@.len() <= 64,
    ensures
        final(out)@ == old(out)@ + block_tokens(s@),
{
    let n: usize = s.len();
    let mut predictor: i16 = 128;
    let mut run: u8 = 0;
    let ghost all = out@ + block_tokens(s@);
    let mut i: usize = 0;
    while i < n
        invariant
            i <= n,
            n == s@.len(),
            n <= 64,
            run <= i,
            0 <= predictor <= 255,
            out@ + tokens_from(s@, i as int, predictor as int, run as int) == all,
        decreases n - i,
    {
        let sample: i16 = s[i] as i16;
        if sample == predictor {
            run += 1;
        } else {
            let ghost before = out@;
            let ghost rest = tokens_from(s@, i + 1, sample as int, 0);
            push_run(out, run);
            push_token(out, sample - predictor);
            assert(before + (run_token(run as int) + delta_token(sample - predictor) + rest)
                =~= out@ + rest);
            run = 0;
            predictor = sample;
        }
        i += 1;
    }
    push_run(out, run);
}

fn decode_block(data: &[u8], cursor: &mut usize, m: usize) -> (r: Result<Vec<u8>, VideoCodecError>)
    ensures
        ({
            let s = read_tokens(data@, *old(cursor) as int, m as int, 128, seq![]);
            match s.value {
                Ok(v) => r is Ok && r->Ok_0@ == v && v.len() == m && *final(cursor) == s.next,
                Err(e) => r == Err::<Vec<u8>, VideoCodecError>(e),
            }
        }),
{
    let n: usize = data.len();
    let mut seen: Vec<u8> = Vec::with_capacity(m);
    let mut predictor: i32 = 128;
    let mut cur: usize = *cursor;
    let ghost all = read_tokens(data@, *cursor as int, m as int, 128, seq![]);
    assert(seen@ =~= Seq::<u8>::empty());
    while seen.len() < m
        invariant
            n == data@.len(),
            seen@.len() <= m,
            0 <= predictor <= 255,
            all == read_tokens(data@, cur as int, m as int, predictor as int, seen@),
            all == read_tokens(data@, *old(cursor) as int, m as int, 128, seq![]),
        decreases m - seen@.len(),
    {
        if cur >= n {
            return Err(VideoCodecError::InvalidData("truncated payload"));
        }
        let tag: u8 = data[cur];
        if tag <= 127 {
            let run: usize = tag as usize + 1;
            if run > m - seen.len() {
                return Err(VideoCodecError::InvalidData("zero run overflows block"));
            }
            let ghost before = seen@;
            let mut k: usize = 0;
            while k < run
                invariant
                    k <= run,
                    0 <= predictor <= 255,
                    seen@ == before + copies(predictor as int, k as int),
                decreases run - k,
            {
                seen.push(predictor as u8);
                k += 1;
                assert(seen@ =~= before + copies(predictor as int, k as int));
            }
            cur += 1;
        } else {
            let delta: i32 = if tag == 128 {
                if n - cur < 3 {
                    return Err(VideoCodecError::InvalidData("truncated i16 literal"));
                }
                crate::bytes::get_i16(data, cur + 1) as i32
            } else {
                tag as i32 - 192
            };
            let v: i32 = predictor + delta;
            if v < 0 || v > 255 {
                return Err(VideoCodecError::InvalidData("decoded sample out of range"));
            }
            cur = if tag == 128 { cur + 3 } else { cur + 1 };
            seen.push(v as u8);
            predictor = v;
        }
    }
    *cursor = cur;
    Ok(seen)
}

/// Samples before a token that are not written yet.
proof fn lemma_tokens_read(
    pre: Seq<u8>,
    s: Seq<u8>,
    post: Seq<u8>,
    i: int,
    pred: int,
    run: int,
)
    requires
        s.len() <= 64,
        0 <= run <= i <= s.len(),
        0 <= pred <= 255,
        forall|k: int| i - run <= k < i ==> s[k] == pred,
    ensures
        ({
            let t = tokens_from(s, i, pred, run);
            let d = pre + t + post;
            let r = read_tokens(d, pre.len() as int, s.len() as int, pred, s.take(i - run));
            r.value == Ok::<Seq<u8>, VideoCodecError>(s) && r.next == pre.len() + t.len()
        }),
    decreases s.len() - i,
{
    let t = tokens_from(s, i, pred, run);
    let d = pre + t + post;
    let m = s.len() as int;
    if i >= m {
        lemma_run_read(pre, s, post, i, pred, run);
        assert(s.take(m) =~= s);
    } else if s[i] == pred {
        lemma_tokens_read(pre, s, post, i + 1, pred, run + 1);
    } else {
        let a = run_token(run);
        let b = delta_token(s[i] - pred);
        let rest = tokens_from(s, i + 1, s[i] as int, 0);
        lemma_run_read(pre, s, b + rest + post, i, pred, run);
        assert(pre + a + (b + rest + post) =~= d);
        let p = pre + a;
        assert(p + b + (rest + post) =~= d);
        lemma_delta_read(p, s[i] - pred, rest + post);
        assert(s.take(i).push(s[i]) =~= s.take(i + 1));
        lemma_tokens_read(p + b, s, post, i + 1, s[i] as int, 0);
        assert((p + b) + rest + post =~= d);
    }
}

/// Reading a run token.
proof fn lemma_run_read(pre: Seq<u8>, s: Seq<u8>, post: Seq<u8>, i: int, pred: int, run: int)
    requires
        s.len() <= 64,
        0 <= run <= i <= s.len(),
        forall|k: int| i - run <= k < i ==> s[k] == pred,
    ensures
        ({
            let d = pre + run_token(run) + post;
            read_tokens(d, pre.len() as int, s.len() as int, pred, s.take(i - run))
                == read_tokens(
                d,
                (pre.len() + run_token(run).len()) as int,
                s.len() as int,
                pred,
                s.take(i),
            )
        }),
{
    let d = pre + run_token(run) + post;
    if run > 0 {
        assert(d[pre.len() as int] == (run - 1) as u8);
        assert(s.take(i - run) + copies(pred, run) =~= s.take(i));
    }
}

/// The bytes of a delta token.
proof fn lemma_delta_read(pre: Seq<u8>, delta: int, post: Seq<u8>)
    requires
        -255 <= delta <= 255,
        delta != 0,
    ensures
        ({
            let d = pre + delta_token(delta) + post;
            let c = pre.len() as int;
            if -63 <= delta <= 63 {
                &&& delta_token(delta).len() == 1
                &&& d[c] == delta + 192
                &&& d[c] > 128
            } else {
                &&& delta_token(delta).len() == 3
                &&& d[c] == 128
                &&& signed16(le16(d, c + 1)) == delta
            }
        }),
{
    let d = pre + delta_token(delta) + post;
    if !(-63 <= delta <= 63) {
        let b = bytes16(unsigned16(delta));
        le16_reads_bytes16(pre + seq![128u8], unsigned16(delta), post);
        assert(pre + seq![128u8] + b + post =~= d);
    }
}

/// Reading the tokens of a block gives back its samples and stops right behind them, whatever
/// stands before and after.
pub proof fn block_tokens_round_trip(pre: Seq<u8>, s: Seq<u8>, post: Seq<u8>)
    requires
        s.len() <= 64,
    ensures
        ({
            let r = read_tokens(
                pre + block_tokens(s) + post,
                pre.len() as int,
                s.len() as int,
                128,
                seq![],
            );
            r.value == Ok::<Seq<u8>, VideoCodecError>(s) && r.next == pre.len() + block_tokens(
                s,
            ).len()
        }),
{
    lemma_tokens_read(pre, s, post, 0, 128, 0);
    assert(s.take(0) =~= seq![]);
}

/// How many blocks cover `n` samples.
pub open spec fn blocks_across(n: int) -> int {
    (n + 7) / 8
}

/// The extent of block `b` along an axis of `n` samples.
pub open spec fn block_extent(n: int, b: int) -> int {
    least(8, n - 8 * b)
}

/// How many blocks a picture has.
pub open spec fn block_total(w: int, h: int) -> int {
    blocks_across(w) * blocks_across(h)
}

/// How many samples block `b` of a picture has.
pub open spec fn block_len(w: int, h: int, b: int) -> int {
    block_extent(w, b % blocks_across(w)) * block_extent(h, b / blocks_across(w))
}

/// Where sample `j` of block `b` stands in the picture.
pub open spec fn block_position(w: int, b: int, j: int) -> int {
    let bx = b % blocks_across(w);
    let by = b / blocks_across(w);
    (8 * by + j / block_extent(w, bx)) * w + 8 * bx + j % block_extent(w, bx)
}

/// The samples of block `b`, row by row.
pub open spec fn block_samples(w: int, h: int, pixels: Seq<u8>, b: int) -> Seq<u8> {
    Seq::new(block_len(w, h, b) as nat, |j: int| pixels[block_position(w, b, j)])
}

/// The tokens of the first `n` blocks.
pub open spec fn picture_tokens(w: int, h: int, pixels: Seq<u8>, n: int) -> Seq<u8>
    decreases n,
{
    if n <= 0 {
        seq![]
    } else {
        picture_tokens(w, h, pixels, n - 1) + block_tokens(block_samples(w, h, pixels, n - 1))
    }
}

/// What reading the first `n` blocks gives, and where the cursor stands after it.
pub struct BlocksRead {
    pub value: Result<Seq<Seq<u8>>, VideoCodecError>,
    pub next: int,
}

pub open spec fn read_blocks(data: Seq<u8>, cur: int, w: int, h: int, n: int) -> BlocksRead
    decreases n,
{
    if n <= 0 {
        BlocksRead { value: Ok(seq![]), next: cur }
    } else {
        let before = read_blocks(data, cur, w, h, n - 1);
        match before.value {
            Err(e) => before,
            Ok(blocks) => {
                let r = read_tokens(data, before.next, block_len(w, h, n - 1), 128, seq![]);
                match r.value {
                    Err(e) => BlocksRead { value: Err(e), next: r.next },
                    Ok(s) => BlocksRead { value: Ok(blocks.push(s)), next: r.next },
                }
            },
        }
    }
}

/// The block that holds sample `i` of a picture.
pub open spec fn block_of(w: int, i: int) -> int {
    (i / w / 8) * blocks_across(w) + i % w / 8
}

/// The place of sample `i` of a picture in its block.
pub open spec fn place_of(w: int, i: int) -> int {
    (i / w % 8) * block_extent(w, i % w / 8) + i % w % 8
}

/// The picture whose blocks are given.
pub open spec fn joined(w: int, h: int, blocks: Seq<Seq<u8>>) -> Seq<u8> {
    Seq::new((w * h) as nat, |i: int| blocks[block_of(w, i)][place_of(w, i)])
}

/// The payload of a frame, or why it is refused.
pub open spec fn frame_payload(f: VideoFrame) -> Result<Seq<u8>, VideoCodecError> {
    if !f.filled() {
        Err(VideoCodecError::InvalidData("frame pixel buffer length does not match dimensions"))
    } else if f.frame_type != FrameType::I {
        Err(VideoCodecError::InvalidData("v1 encoder only supports intra (I) frames"))
    } else if f.width * f.height > u32::MAX {
        Err(VideoCodecError::InvalidData("frame too large"))
    } else {
        Ok(
            seq![8u8] + bytes32(f.width * f.height) + picture_tokens(
                f.width as int,
                f.height as int,
                f.data@,
                block_total(f.width as int, f.height as int),
            ),
        )
    }
}

/// The samples that a payload holds, or why it is refused.
pub open spec fn payload_samples(
    w: int,
    h: int,
    frame_type: FrameType,
    payload: Seq<u8>,
) -> Result<Seq<u8>, VideoCodecError> {
    if frame_type != FrameType::I {
        Err(VideoCodecError::InvalidData("v1 decoder only supports intra (I) frames"))
    } else if payload.len() < 5 {
        Err(VideoCodecError::InvalidData("payload too small"))
    } else if payload[0] != 8 {
        Err(VideoCodecError::InvalidData("unsupported block size"))
    } else if le32(payload, 1) != w * h {
        Err(
            VideoCodecError::InvalidData(
                "payload length metadata does not match frame dimensions",
            ),
        )
    } else {
        let r = read_blocks(payload, 5, w, h, block_total(w, h));
        match r.value {
            Err(e) => Err(e),
            Ok(blocks) => if r.next != payload.len() {
                Err(VideoCodecError::InvalidData("unexpected bytes after payload"))
            } else {
                Ok(joined(w, h, blocks))
            },
        }
    }
}

/// Block `b` lies inside the picture.
proof fn lemma_block_inside(w: int, h: int, b: int)
    requires
        w >= 0,
        h >= 0,
        0 <= b < block_total(w, h),
    ensures
        w > 0,
        h > 0,
        0 <= b % blocks_across(w) < blocks_across(w),
        0 <= b / blocks_across(w) < blocks_across(h),
        1 <= block_extent(w, b % blocks_across(w)) <= 8,
        1 <= block_extent(h, b / blocks_across(w)) <= 8,
        1 <= block_len(w, h, b) <= 64,
{
    let n = blocks_across(w);
    let m = blocks_across(h);
    assert(w > 0 && h > 0) by (nonlinear_arith)
        requires
            w >= 0,
            h >= 0,
            0 <= b < n * m,
            n == (w + 7) / 8,
            m == (h + 7) / 8,
    ;
    assert(0 <= b % n < n && 0 <= b / n < m) by (nonlinear_arith)
        requires
            n > 0,
            0 <= b < n * m,
    ;
    let p = block_extent(w, b % n);
    let q = block_extent(h, b / n);
    assert(1 <= p * q <= 64) by (nonlinear_arith)
        requires
            1 <= p <= 8,
            1 <= q <= 8,
    ;
}

/// Sample `j` of block `b` lies inside the picture.
proof fn lemma_position_inside(w: int, h: int, b: int, j: int)
    requires
        w >= 0,
        h >= 0,
        0 <= b < block_total(w, h),
        0 <= j < block_len(w, h, b),
    ensures
        0 <= j / block_extent(w, b % blocks_across(w)) < block_extent(h, b / blocks_across(w)),
        0 <= j % block_extent(w, b % blocks_across(w)) < block_extent(w, b % blocks_across(w)),
        0 <= (8 * (b / blocks_across(w)) + j / block_extent(w, b % blocks_across(w))) * w
            <= block_position(w, b, j) < w * h,
{
    lemma_block_inside(w, h, b);
    let bx = b % blocks_across(w);
    let by = b / blocks_across(w);
    let p = block_extent(w, bx);
    let q = block_extent(h, by);
    assert(0 <= j / p < q && 0 <= j % p < p) by (nonlinear_arith)
        requires
            p > 0,
            0 <= j < p * q,
    ;
    let y = 8 * by + j / p;
    let x = 8 * bx + j % p;
    assert(0 <= y * w <= y * w + x < w * h) by (nonlinear_arith)
        requires
            0 <= y < h,
            0 <= x < w,
    ;
}

/// A picture has no more blocks than samples.
proof fn lemma_blocks_bounded(w: int, h: int)
    requires
        w >= 0,
        h >= 0,
    ensures
        0 <= block_total(w, h) <= w * h,
{
    let n = blocks_across(w);
    let m = blocks_across(h);
    assert(0 <= n * m <= w * h) by (nonlinear_arith)
        requires
            0 <= n <= w,
            0 <= m <= h,
    ;
}

/// Sample `i` of a picture stands in its block at its place.
proof fn lemma_sample_placed(w: int, h: int, i: int)
    requires
        w >= 0,
        h >= 0,
        0 <= i < w * h,
    ensures
        w > 0,
        0 <= block_of(w, i) < block_total(w, h),
        0 <= place_of(w, i) < block_len(w, h, block_of(w, i)),
        block_position(w, block_of(w, i), place_of(w, i)) == i,
        0 <= (i / w / 8) * blocks_across(w) <= block_of(w, i),
{
    assert(w > 0 && h > 0) by (nonlinear_arith)
        requires
            w >= 0,
            h >= 0,
            0 <= i < w * h,
    ;
    let y = i / w;
    let x = i % w;
    assert(0 <= y < h && 0 <= x < w && y * w + x == i) by (nonlinear_arith)
        requires
            w > 0,
            0 <= i < w * h,
            y == i / w,
            x == i % w,
    ;
    let n = blocks_across(w);
    let m = blocks_across(h);
    let bx = x / 8;
    let by = y / 8;
    let b = by * n + bx;
    assert(0 <= by * n <= b < n * m && b % n == bx && b / n == by) by {
        assert(0 <= by * n <= b < n * m) by (nonlinear_arith)
            requires
                0 <= by < m,
                0 <= bx < n,
                b == by * n + bx,
        ;
        vstd::arithmetic::div_mod::lemma_fundamental_div_mod_converse(b, n, by, bx);
    }
    let p = block_extent(w, bx);
    let q = block_extent(h, by);
    let j = (y % 8) * p + x % 8;
    assert(0 <= j < p * q && j % p == x % 8 && j / p == y % 8) by {
        let a = y % 8;
        let c = x % 8;
        assert(0 <= a * p + c < p * q) by (nonlinear_arith)
            requires
                0 <= a < q,
                0 <= c < p,
        ;
        vstd::arithmetic::div_mod::lemma_fundamental_div_mod_converse(j, p, a, c);
    }
}

fn take_block(pixels: &[u8], width: usize, height: usize, b: usize) -> (s: Vec<u8>)
    requires
        width * height <= u32::MAX,
        pixels@.len() == width * height,
        b < block_total(width as int, height as int),
    ensures
        s@ == block_samples(width as int, height as int, pixels@, b as int),
{
    let ghost w = width as int;
    let ghost h = height as int;
    proof {
        lemma_block_inside(w, h, b as int);
        lemma_extent(w, h);
    }
    let across: usize = width / 8 + if width % 8 > 0 { 1 } else { 0 };
    let bx: usize = b % across;
    let by: usize = b / across;
    let bw: usize = if width - 8 * bx < 8 { width - 8 * bx } else { 8 };
    let bh: usize = if height - 8 * by < 8 { height - 8 * by } else { 8 };
    assert(bw * bh == block_len(w, h, b as int));
    let n: usize = bw * bh;
    let mut s: Vec<u8> = Vec::with_capacity(n);
    let mut j: usize = 0;
    while j < n
        invariant
            j <= n,
            n == block_len(w, h, b as int),
            w == width,
            h == height,
            width * height <= u32::MAX,
            pixels@.len() == width * height,
            b < block_total(w, h),
            bx == b % across,
            by == b / across,
            across == blocks_across(w),
            bw == block_extent(w, bx as int),
            bw > 0,
            8 * by < height,
            8 * bx < width,
            s@ == block_samples(w, h, pixels@, b as int).take(j as int),
        decreases n - j,
    {
        proof {
            lemma_position_inside(w, h, b as int, j as int);
        }
        let y: usize = 8 * by + j / bw;
        let at: usize = y * width + 8 * bx + j % bw;
        s.push(pixels[at]);
        j += 1;
        assert(s@ =~= block_samples(w, h, pixels@, b as int).take(j as int));
    }
    assert(s@ =~= block_samples(w, h, pixels@, b as int));
    s
}

/// Both sides of a picture with few samples are short, unless it has none.
proof fn lemma_extent(w: int, h: int)
    requires
        w >= 0,
        h >= 0,
    ensures
        h > 0 ==> w <= w * h,
        w > 0 ==> h <= w * h,
{
    assert(h > 0 ==> w <= w * h) by (nonlinear_arith)
        requires
            w >= 0,
    ;
    assert(w > 0 ==> h <= w * h) by (nonlinear_arith)
        requires
            h >= 0,
    ;
}

fn count_blocks(width: usize, height: usize) -> (n: usize)
    requires
        width * height <= u32::MAX,
    ensures
        n == block_total(width as int, height as int),
{
    proof {
        lemma_blocks_bounded(width as int, height as int);
    }
    let across: usize = width / 8 + if width % 8 > 0 { 1 } else { 0 };
    let down: usize = height / 8 + if height % 8 > 0 { 1 } else { 0 };
    across * down
}

fn encode_residual_blocks(width: usize, height: usize, pixels: &[u8], out: &mut Vec<u8>)
    requires
        width * height <= u32::MAX,
        pixels@.len() == width * height,
    ensures
        final(out)@ == old(out)@ + picture_tokens(
            width as int,
            height as int,
            pixels@,
            block_total(width as int, height as int),
        ),
{
    let n: usize = count_blocks(width, height);
    let ghost w = width as int;
    let ghost h = height as int;
    let mut b: usize = 0;
    assert(out@ =~= old(out)@ + picture_tokens(w, h, pixels@, 0));
    while b < n
        invariant
            b <= n,
            n == block_total(w, h),
            w == width,
            h == height,
            width * height <= u32::MAX,
            pixels@.len() == width * height,
            out@ == old(out)@ + picture_tokens(w, h, pixels@, b as int),
        decreases n - b,
    {
        proof {
            lemma_block_inside(w, h, b as int);
        }
        let s: Vec<u8> = take_block(pixels, width, height, b);
        encode_block(s.as_slice(), out);
        b += 1;
        assert(out@ =~= old(out)@ + picture_tokens(w, h, pixels@, b as int));
    }
}

/// Codes an intra frame.
pub fn encode_frame(frame: &VideoFrame) -> (r: Result<Vec<u8>, VideoCodecError>)
    ensures
        match frame_payload(*frame) {
            Ok(p) => r is Ok && r->Ok_0@ == p,
            Err(e) => r == Err::<Vec<u8>, VideoCodecError>(e),
        },
{
    frame.validate_dimensions()?;
    if frame.frame_type != FrameType::I {
        return Err(VideoCodecError::InvalidData("v1 encoder only supports intra (I) frames"));
    }
    let (w, h): (u64, u64) = (frame.width as u64, frame.height as u64);
    proof {
        assert(w * h <= u32::MAX * u32::MAX) by (nonlinear_arith)
            requires
                w <= u32::MAX,
                h <= u32::MAX,
        ;
    }
    let count: u64 = w * h;
    if count > 0xffff_ffff {
        return Err(VideoCodecError::InvalidData("frame too large"));
    }
    let mut payload: Vec<u8> = Vec::new();
    payload.push(8);
    push_u32(&mut payload, count as u32);
    assert(payload@ =~= seq![8u8] + bytes32(frame.width * frame.height));
    encode_residual_blocks(
        frame.width as usize,
        frame.height as usize,
        frame.data.as_slice(),
        &mut payload,
    );
    Ok(payload)
}

fn decode_residual_blocks(
    width: usize,
    height: usize,
    payload: &[u8],
    cursor: &mut usize,
) -> (r: Result<Vec<u8>, VideoCodecError>)
    requires
        width * height <= u32::MAX,
    ensures
        ({
            let w = width as int;
            let h = height as int;
            let s = read_blocks(payload@, *old(cursor) as int, w, h, block_total(w, h));
            match s.value {
                Ok(blocks) => r is Ok && r->Ok_0@ == joined(w, h, blocks) && *final(cursor)
                    == s.next,
                Err(e) => r == Err::<Vec<u8>, VideoCodecError>(e),
            }
        }),
{
    let n: usize = count_blocks(width, height);
    let ghost w = width as int;
    let ghost h = height as int;
    let ghost at = *cursor as int;
    let mut blocks: Vec<Vec<u8>> = Vec::new();
    let ghost mut seen: Seq<Seq<u8>> = seq![];
    let mut b: usize = 0;
    while b < n
        invariant
            b <= n,
            n == block_total(w, h),
            w == width,
            h == height,
            at == *old(cursor),
            width * height <= u32::MAX,
            read_blocks(payload@, at, w, h, b as int) == (BlocksRead {
                value: Ok(seen),
                next: *cursor as int,
            }),
            seen.len() == b,
            blocks@.len() == b,
            forall|k: int|
                0 <= k < b ==> #[trigger] blocks@[k]@ == seen[k] && seen[k].len() == block_len(
                    w,
                    h,
                    k,
                ),
        decreases n - b,
    {
        proof {
            lemma_block_inside(w, h, b as int);
            lemma_extent(w, h);
            lemma_failure_stays(payload@, at, w, h, b + 1, n as int);
        }
        let across: usize = width / 8 + if width % 8 > 0 { 1 } else { 0 };
        let bx: usize = b % across;
        let by: usize = b / across;
        let bw: usize = if width - 8 * bx < 8 { width - 8 * bx } else { 8 };
        let bh: usize = if height - 8 * by < 8 { height - 8 * by } else { 8 };
        assert(bw * bh == block_len(w, h, b as int));
        match decode_block(payload, cursor, bw * bh) {
            Err(e) => {
                return Err(e);
            },
            Ok(s) => {
                proof {
                    seen = seen.push(s@);
                }
                blocks.push(s);
            },
        }
        b += 1;
    }
    let count: usize = width * height;
    let mut pixels: Vec<u8> = Vec::with_capacity(count);
    let mut i: usize = 0;
    while i < count
        invariant
            i <= count,
            count == w * h,
            w == width,
            h == height,
            n == block_total(w, h),
            seen.len() == n,
            blocks@.len() == n,
            forall|k: int|
                0 <= k < n ==> #[trigger] blocks@[k]@ == seen[k] && seen[k].len() == block_len(
                    w,
                    h,
                    k,
                ),
            pixels@ == joined(w, h, seen).take(i as int),
        decreases count - i,
    {
        proof {
            lemma_sample_placed(w, h, i as int);
            lemma_extent(w, h);
            lemma_block_inside(w, h, block_of(w, i as int));
        }
        let across: usize = width / 8 + if width % 8 > 0 { 1 } else { 0 };
        let (y, x): (usize, usize) = (i / width, i % width);
        let bw: usize = if width - 8 * (x / 8) < 8 { width - 8 * (x / 8) } else { 8 };
        assert(bw == block_extent(w, i as int % w / 8));
        assert((y % 8) * bw <= 56) by (nonlinear_arith)
            requires
                y % 8 <= 7,
                bw <= 8,
        ;
        let k: usize = (y / 8) * across + x / 8;
        let j: usize = (y % 8) * bw + x % 8;
        assert(k == block_of(w, i as int) && j == place_of(w, i as int));
        assert(blocks@[k as int]@ == seen[k as int]);
        pixels.push(blocks[k][j]);
        i += 1;
        assert(pixels@ =~= joined(w, h, seen).take(i as int));
    }
    assert(pixels@ =~= joined(w, h, seen));
    Ok(pixels)
}

/// Once a block cannot be read, neither can the picture.
proof fn lemma_failure_stays(data: Seq<u8>, cur: int, w: int, h: int, k: int, n: int)
    requires
        0 <= k <= n,
    ensures
        read_blocks(data, cur, w, h, k).value is Err ==> read_blocks(data, cur, w, h, n)
            == read_blocks(data, cur, w, h, k),
    decreases n - k,
{
    if k < n {
        lemma_failure_stays(data, cur, w, h, k, n - 1);
    }
}

/// Decodes the payload of an intra frame.
pub fn decode_frame(
    width: u32,
    height: u32,
    frame_index: u32,
    frame_type: FrameType,
    payload: &[u8],
) -> (r: Result<VideoFrame, VideoCodecError>)
    ensures
        match payload_samples(width as int, height as int, frame_type, payload@) {
            Ok(s) => r is Ok && ({
                let f = r->Ok_0;
                f.width == width && f.height == height && f.frame_index == frame_index
                    && f.frame_type == frame_type && f.data@ == s
            }),
            Err(e) => r == Err::<VideoFrame, VideoCodecError>(e),
        },
{
    if frame_type != FrameType::I {
        return Err(VideoCodecError::InvalidData("v1 decoder only supports intra (I) frames"));
    }
    if payload.len() < 5 {
        return Err(VideoCodecError::InvalidData("payload too small"));
    }
    if payload[0] != 8 {
        return Err(VideoCodecError::InvalidData("unsupported block size"));
    }
    let (w, h): (u64, u64) = (width as u64, height as u64);
    proof {
        assert(w * h <= u32::MAX * u32::MAX) by (nonlinear_arith)
            requires
                w <= u32::MAX,
                h <= u32::MAX,
        ;
    }
    if get_u32(payload, 1) as u64 != w * h {
        return Err(
            VideoCodecError::InvalidData("payload length metadata does not match frame dimensions"),
        );
    }
    let mut cursor: usize = 5;
    let data: Vec<u8> = decode_residual_blocks(
        width as usize,
        height as usize,
        payload,
        &mut cursor,
    )?;
    if cursor != payload.len() {
        return Err(VideoCodecError::InvalidData("unexpected bytes after payload"));
    }
    Ok(VideoFrame { width, height, frame_index, frame_type, data })
}

/// The blocks of a picture.
spec fn all_blocks(w: int, h: int, pixels: Seq<u8>, n: int) -> Seq<Seq<u8>> {
    Seq::new(n as nat, |b: int| block_samples(w, h, pixels, b))
}

proof fn lemma_picture_read(
    pre: Seq<u8>,
    w: int,
    h: int,
    pixels: Seq<u8>,
    n: int,
    post: Seq<u8>,
)
    requires
        w >= 0,
        h >= 0,
        0 <= n <= block_total(w, h),
    ensures
        read_blocks(pre + picture_tokens(w, h, pixels, n) + post, pre.len() as int, w, h, n) == (
        BlocksRead {
            value: Ok(all_blocks(w, h, pixels, n)),
            next: (pre.len() + picture_tokens(w, h, pixels, n).len()) as int,
        }),
    decreases n,
{
    if n <= 0 {
        assert(all_blocks(w, h, pixels, n) =~= seq![]);
    } else {
        let t = picture_tokens(w, h, pixels, n - 1);
        let s = block_samples(w, h, pixels, n - 1);
        lemma_picture_read(pre, w, h, pixels, n - 1, block_tokens(s) + post);
        assert(pre + t + (block_tokens(s) + post) =~= pre + (t + block_tokens(s)) + post);
        lemma_block_inside(w, h, n - 1);
        block_tokens_round_trip(pre + t, s, post);
        assert((pre + t) + block_tokens(s) + post =~= pre + (t + block_tokens(s)) + post);
        assert(all_blocks(w, h, pixels, n - 1).push(s) =~= all_blocks(w, h, pixels, n));
    }
}

/// Decoding what was coded gives back every sample: intra coding loses nothing.
pub proof fn frame_round_trip(frame: VideoFrame)
    requires
        frame_payload(frame) is Ok,
    ensures
        payload_samples(
            frame.width as int,
            frame.height as int,
            frame.frame_type,
            frame_payload(frame)->Ok_0,
        ) == Ok::<Seq<u8>, VideoCodecError>(frame.data@),
{
    let w = frame.width as int;
    let h = frame.height as int;
    let n = block_total(w, h);
    let t = picture_tokens(w, h, frame.data@, n);
    let payload = frame_payload(frame)->Ok_0;
    let pre = seq![8u8] + bytes32(w * h);
    assert(0 <= w * h) by (nonlinear_arith)
        requires
            w >= 0,
            h >= 0,
    ;
    le32_reads_bytes32(seq![8u8], w * h, t);
    lemma_blocks_bounded(w, h);
    lemma_picture_read(pre, w, h, frame.data@, n, seq![]);
    assert(pre + t + seq![] =~= payload);
    let blocks = all_blocks(w, h, frame.data@, n);
    assert forall|i: int| 0 <= i < w * h implies #[trigger] joined(w, h, blocks)[i]
        == frame.data@[i] by {
        lemma_sample_placed(w, h, i);
    }
    assert(joined(w, h, blocks) =~= frame.data@);
}

/// Reading a block looks at no byte behind where it stops.
proof fn lemma_tokens_agree(
    data: Seq<u8>,
    other: Seq<u8>,
    cur: int,
    m: int,
    pred: int,
    seen: Seq<u8>,
)
    requires
        0 <= cur <= data.len(),
        read_tokens(data, cur, m, pred, seen).value is Ok,
    ensures
        ({
            let r = read_tokens(data, cur, m, pred, seen);
            &&& cur <= r.next <= data.len()
            &&& r.next <= other.len() && other.take(r.next) == data.take(r.next) ==> read_tokens(
                other,
                cur,
                m,
                pred,
                seen,
            ) == r
        }),
    decreases m - seen.len(),
{
    let r = read_tokens(data, cur, m, pred, seen);
    if seen.len() < m {
        let wide = data[cur] == 128;
        let v = pred + (if wide {
            signed16(le16(data, cur + 1))
        } else {
            data[cur] - 192
        });
        if data[cur] <= 127 {
            let run = data[cur] + 1;
            lemma_tokens_agree(data, other, cur + 1, m, pred, seen + copies(pred, run));
        } else {
            let next = if wide {
                cur + 3
            } else {
                cur + 1
            };
            lemma_tokens_agree(data, other, next, m, v, seen.push(v as u8));
        }
        if r.next <= other.len() && other.take(r.next) == data.take(r.next) {
            assert forall|i: int| 0 <= i < r.next implies other[i] == data[i] by {
                assert(other.take(r.next)[i] == data.take(r.next)[i]);
            }
        }
    }
}

/// A block whose bytes are cut off is refused.
proof fn lemma_tokens_cut(data: Seq<u8>, k: int, cur: int, m: int, pred: int, seen: Seq<u8>)
    requires
        0 <= cur <= k < read_tokens(data, cur, m, pred, seen).next <= data.len(),
        read_tokens(data, cur, m, pred, seen).value is Ok,
    ensures
        read_tokens(data.take(k), cur, m, pred, seen).value is Err,
        read_tokens(data.take(k), cur, m, pred, seen).value->Err_0 is InvalidData,
    decreases m - seen.len(),
{
    let short = data.take(k);
    if seen.len() < m && cur < k {
        assert(short[cur] == data[cur]);
        if data[cur] <= 127 {
            let run = data[cur] + 1;
            lemma_tokens_cut(data, k, cur + 1, m, pred, seen + copies(pred, run));
        } else if data[cur] == 128 {
            if cur + 3 <= k {
                let v = pred + signed16(le16(data, cur + 1));
                assert(le16(short, cur + 1) == le16(data, cur + 1));
                lemma_tokens_cut(data, k, cur + 3, m, v, seen.push(v as u8));
            }
        } else {
            let v = pred + (data[cur] - 192);
            lemma_tokens_cut(data, k, cur + 1, m, v, seen.push(v as u8));
        }
    }
}

/// Reading blocks looks at no byte behind where it stops.
proof fn lemma_blocks_agree(data: Seq<u8>, other: Seq<u8>, cur: int, w: int, h: int, n: int)
    requires
        0 <= cur <= data.len(),
        read_blocks(data, cur, w, h, n).value is Ok,
    ensures
        ({
            let r = read_blocks(data, cur, w, h, n);
            &&& cur <= r.next <= data.len()
            &&& r.next <= other.len() && other.take(r.next) == data.take(r.next) ==> read_blocks(
                other,
                cur,
                w,
                h,
                n,
            ) == r
        }),
    decreases n,
{
    if n > 0 {
        let r = read_blocks(data, cur, w, h, n);
        let before = read_blocks(data, cur, w, h, n - 1);
        lemma_blocks_agree(data, other, cur, w, h, n - 1);
        lemma_tokens_agree(data, other, before.next, block_len(w, h, n - 1), 128, seq![]);
        if r.next <= other.len() && other.take(r.next) == data.take(r.next) {
            assert(other.take(before.next) =~= other.take(r.next).take(before.next));
            assert(data.take(before.next) =~= data.take(r.next).take(before.next));
        }
    }
}

/// Blocks whose bytes are cut off are refused.
proof fn lemma_blocks_cut(data: Seq<u8>, k: int, cur: int, w: int, h: int, n: int)
    requires
        0 <= cur <= k < read_blocks(data, cur, w, h, n).next <= data.len(),
        read_blocks(data, cur, w, h, n).value is Ok,
    ensures
        read_blocks(data.take(k), cur, w, h, n).value is Err,
        read_blocks(data.take(k), cur, w, h, n).value->Err_0 is InvalidData,
    decreases n,
{
    if n > 0 {
        let before = read_blocks(data, cur, w, h, n - 1);
        lemma_blocks_agree(data, data.take(k), cur, w, h, n - 1);
        if k < before.next {
            lemma_blocks_cut(data, k, cur, w, h, n - 1);
        } else {
            assert(data.take(k).take(before.next) =~= data.take(before.next));
            lemma_tokens_cut(data, k, before.next, block_len(w, h, n - 1), 128, seq![]);
        }
    }
}

/// A payload that is accepted, such as the one of any frame that can be encoded, is refused as
/// invalid data with any bytes cut off, and with any byte behind it.
pub proof fn cut_or_extended_payload_is_refused(w: int, h: int, payload: Seq<u8>, k: int, b: u8)
    requires
        payload_samples(w, h, FrameType::I, payload) is Ok,
        0 <= k < payload.len(),
    ensures
        payload_samples(w, h, FrameType::I, payload.take(k)) is Err,
        payload_samples(w, h, FrameType::I, payload.take(k))->Err_0 is InvalidData,
        payload_samples(w, h, FrameType::I, payload.push(b)) == Err::<Seq<u8>, VideoCodecError>(
            VideoCodecError::InvalidData("unexpected bytes after payload"),
        ),
{
    let n = block_total(w, h);
    let long = payload.push(b);
    lemma_blocks_agree(payload, long, 5, w, h, n);
    assert(long.take(payload.len() as int) =~= payload.take(payload.len() as int));
    assert(le32(long, 1) == le32(payload, 1));
    if k >= 5 {
        assert(le32(payload.take(k), 1) == le32(payload, 1));
        lemma_blocks_cut(payload, k, 5, w, h, n);
    }
}

/// A reserved frame is refused by the encoder and by the decoder, whatever it holds.
pub proof fn reserved_frames_are_refused(f: VideoFrame, w: int, h: int, payload: Seq<u8>)
    requires
        f.frame_type == FrameType::PReserved,
    ensures
        frame_payload(f) is Err,
        frame_payload(f)->Err_0 is InvalidData,
        payload_samples(w, h, f.frame_type, payload) == Err::<Seq<u8>, VideoCodecError>(
            VideoCodecError::InvalidData("v1 decoder only supports intra (I) frames"),
        ),
{
}

/// Blocks of 8 by 8 samples run row by row through the picture, and their samples row by row through
/// the block; blocks at the right and lower edges are as small as the picture leaves them.
pub proof fn blocks_run_row_by_row(w: int, h: int, pixels: Seq<u8>, x: int, y: int)
    requires
        0 <= x < w,
        0 <= y < h,
    ensures
        ({
            let b = y / 8 * ((w + 7) / 8) + x / 8;
            let wide = if w - x / 8 * 8 < 8 {
                w - x / 8 * 8
            } else {
                8
            };
            let tall = if h - y / 8 * 8 < 8 {
                h - y / 8 * 8
            } else {
                8
            };
            &&& 0 <= b < block_total(w, h)
            &&& block_samples(w, h, pixels, b).len() == wide * tall
            &&& block_samples(w, h, pixels, b)[y % 8 * wide + x % 8] == pixels[y * w + x]
        }),
{
    let i = y * w + x;
    super::srsv2::frame::lemma_packed_at(x, y, w, h);
    lemma_sample_placed(w, h, i);
    let b = block_of(w, i);
    assert(b == y / 8 * ((w + 7) / 8) + x / 8);
    lemma_block_inside(w, h, b);
    vstd::arithmetic::div_mod::lemma_fundamental_div_mod_converse(
        b,
        blocks_across(w),
        y / 8,
        x / 8,
    );
    assert(block_extent(w, x / 8) == if w - x / 8 * 8 < 8 {
        w - x / 8 * 8
    } else {
        8
    });
    let j = place_of(w, i);
    assert(block_samples(w, h, pixels, b)[j] == pixels[block_position(w, b, j)]);
}

/// What tokens spell: a run of up to 128 equal samples is one byte below 128, one less than its
/// length; a small difference is one byte around 192; a large one is 128 and 16 bits.
pub proof fn tokens_are_short_for_small_changes(run: int, delta: int)
    requires
        1 <= run <= 128,
        -255 <= delta <= 255,
        delta != 0,
    ensures
        run_token(run).len() == 1,
        run_token(run)[0] == run - 1,
        run_token(0).len() == 0,
        -63 <= delta <= 63 ==> delta_token(delta).len() == 1 && delta_token(delta)[0] == 192 + delta,
        !(-63 <= delta <= 63) ==> delta_token(delta).len() == 3 && delta_token(delta)[0] == 128
            && signed16(le16(delta_token(delta), 1)) == delta,
{
}

/// A block of one value is one run behind the value that stands before it, and the first sample of a
/// block is told as its difference from 128.
pub proof fn first_sample_differs_from_grey(v: u8)
    ensures
        block_tokens(seq![v]) == if v == 128 {
            run_token(1)
        } else {
            delta_token(v - 128)
        },
{
    reveal_with_fuel(tokens_from, 3);
    assert(block_tokens(seq![v]) =~= if v == 128 {
        run_token(1)
    } else {
        delta_token(v - 128)
    });
}

} // verus!
