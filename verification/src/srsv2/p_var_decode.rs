//! Reading forward pictures with variable partitions.
//!
//! Revision 19 of the frame payload carries the vectors as varints, 20 entropy-coded.
use vstd::prelude::*;

use crate::arith::{least, sat_mul_usize};
use crate::bytes::{clip, tdiv};
use super::b_decode::MvSection;
use super::block_aq::{
    apply_qp_delta_clamped, clip_range_ok, delta_of_byte, shifted_qp, signed8,
    validate_qp_clip_range, validate_wire_qp_delta,
};
use super::error::SrsV2Error;
use super::frame::{
    lemma_packed_position, packed, plane_refusal, DecodedVideoFrameV2, VideoPlane, YuvFrame,
};
use super::inter_mv::{
    checked_reading_settles, decode_mv_stream_partitioned, pu_start, raw_stream, settle,
    stream_refusal, units,
};
use super::intra_codec::step_of;
use super::limits::{MAX_FRAME_PAYLOAD_BYTES, QP_DELTA_WIRE_MAX, QP_DELTA_WIRE_MIN};
use super::model::{PixelFormat, VideoSequenceHeaderV2};
use super::motion_search::{padded, sample_u8_plane};
use super::p_frame_codec::{mb_count, whole_mv_ok};
use super::partition_map::{all_partitions, decode_rle_partition_map, take_rle};
use super::reader::{read_u32, read_u8, take_u32, take_u8, Read};
use super::subpel::{
    qpel_refusal, qpel_sample, sample_luma_bilinear_qpel, split_qpel, validate_mv_qpel_halfgrid,
};

verus! {

/// Variable partitions, vectors as varints.
pub const FRAME_PAYLOAD_MAGIC_P_VAR_PARTITION: [u8; 4] = [70, 82, 50, 19];

/// Variable partitions, entropy-coded vectors.
pub const FRAME_PAYLOAD_MAGIC_P_INTER_ENTROPY_VAR: [u8; 4] = [70, 82, 50, 20];

/// Why a vector of a partitioned stream is refused, if it is.
pub open spec fn stream_check(qpel: bool) -> spec_fn(i32, i32) -> Result<(), SrsV2Error> {
    |mx: i32, my: i32|
        if qpel {
            match qpel_refusal(mx as int, my as int) {
                Some(e) => Err::<(), SrsV2Error>(e),
                None => Ok::<(), SrsV2Error>(()),
            }
        } else if mx % 4 != 0 || my % 4 != 0 {
            Err::<(), SrsV2Error>(SrsV2Error::Syntax("P MV not on integer pel grid"))
        } else if !whole_mv_ok(mx as int / 4, my as int / 4) {
            Err::<(), SrsV2Error>(SrsV2Error::CorruptedMotionVector)
        } else {
            Ok::<(), SrsV2Error>(())
        }
}

/// Accepts the vectors that a partitioned stream may hold.
pub fn validate_mv_wire(use_qpel: bool, mx: i32, my: i32) -> (r: Result<(), SrsV2Error>)
    ensures
        r == stream_check(use_qpel)(mx, my),
{
    if use_qpel {
        validate_mv_qpel_halfgrid(mx, my)
    } else {
        let (wx, fx) = split_qpel(mx);
        let (wy, fy) = split_qpel(my);
        if fx != 0 || fy != 0 {
            Err(SrsV2Error::Syntax("P MV not on integer pel grid"))
        } else if wx > 256 || wx < -256 || wy > 256 || wy < -256 {
            Err(SrsV2Error::CorruptedMotionVector)
        } else {
            Ok(())
        }
    }
}

/// The fields ahead of the partition map.
#[derive(Debug, Clone, Copy, PartialEq, Eq, Structural)]
pub struct VarHeader {
    pub frame_index: u32,
    pub qp: u8,
    /// Vectors are half-pel.
    pub qpel: bool,
    /// Every chunk starts with a QP delta.
    pub block_aq: bool,
    /// The partition map is run-length coded.
    pub packed_map: bool,
    pub clip_min: u8,
    pub clip_max: u8,
}

/// The fields ahead of the partition map.
pub open spec fn take_var_header(data: Seq<u8>) -> Read<VarHeader> {
    let f = take_u32(data, 4);
    let q = take_u8(data, 8);
    let g = take_u8(data, 9);
    if f.value is Err || q.value is Err || g.value is Err {
        Read { value: Err(SrsV2Error::Truncated), next: 4 }
    } else {
        let flags = g.value->Ok_0;
        let h = VarHeader {
            frame_index: f.value->Ok_0 as u32,
            qp: q.value->Ok_0 as u8,
            qpel: flags % 2 == 1,
            block_aq: flags / 2 % 2 == 1,
            packed_map: flags / 8 % 2 == 1,
            clip_min: 1,
            clip_max: 51,
        };
        if flags > 15 {
            Read { value: Err(SrsV2Error::Syntax("unknown P var-partition flags")), next: 10 }
        } else if h.block_aq {
            let a = take_u8(data, 10);
            let b = take_u8(data, 11);
            if a.value is Err || b.value is Err {
                Read { value: Err(SrsV2Error::Truncated), next: 10 }
            } else if !clip_range_ok(a.value->Ok_0, b.value->Ok_0) {
                Read { value: Err(SrsV2Error::Syntax("invalid qp clip range")), next: 12 }
            } else {
                Read {
                    value: Ok(
                        VarHeader {
                            clip_min: a.value->Ok_0 as u8,
                            clip_max: b.value->Ok_0 as u8,
                            ..h
                        },
                    ),
                    next: 12,
                }
            }
        } else {
            Read { value: Ok(h), next: 10 }
        }
    }
}

fn read_var_header(data: &[u8], cur: &mut usize) -> (r: Result<VarHeader, SrsV2Error>)
    requires
        *old(cur) == 4,
    ensures
        ({
            let s = take_var_header(data@);
            match s.value {
                Ok(h) => r == Ok::<VarHeader, SrsV2Error>(h) && *final(cur) == s.next && s.next
                    <= data@.len() && 1 <= h.clip_min <= h.clip_max,
                Err(e) => r == Err::<VarHeader, SrsV2Error>(e),
            }
        }),
{
    let frame_index: u32 = match read_u32(data, cur) {
        Ok(v) => v,
        Err(e) => {
            return Err(e);
        },
    };
    let qp: u8 = match read_u8(data, cur) {
        Ok(v) => v,
        Err(e) => {
            return Err(e);
        },
    };
    let flags: u8 = match read_u8(data, cur) {
        Ok(v) => v,
        Err(e) => {
            return Err(e);
        },
    };
    if flags > 15 {
        return Err(SrsV2Error::Syntax("unknown P var-partition flags"));
    }
    let qpel = flags % 2 == 1;
    let block_aq = flags / 2 % 2 == 1;
    let packed_map = flags / 8 % 2 == 1;
    let mut clip_min: u8 = 1;
    let mut clip_max: u8 = 51;
    if block_aq {
        clip_min = match read_u8(data, cur) {
            Ok(v) => v,
            Err(e) => {
                return Err(e);
            },
        };
        clip_max = match read_u8(data, cur) {
            Ok(v) => v,
            Err(e) => {
                return Err(e);
            },
        };
        match validate_qp_clip_range(clip_min, clip_max) {
            Err(e) => {
                return Err(e);
            },
            Ok(_) => {},
        }
    }
    Ok(VarHeader { frame_index, qp, qpel, block_aq, packed_map, clip_min, clip_max })
}

/// The partition map of `n` macroblocks.
pub open spec fn take_parts(data: Seq<u8>, cur: int, packed_map: bool, n: int) -> Read<Seq<u8>> {
    if packed_map {
        take_rle(data, cur, n)
    } else if data.len() < cur + n {
        Read { value: Err(SrsV2Error::Truncated), next: cur }
    } else if !all_partitions(data.subrange(cur, cur + n)) {
        Read { value: Err(SrsV2Error::Syntax("P partition reserved bits")), next: cur + n }
    } else {
        Read { value: Ok(data.subrange(cur, cur + n)), next: cur + n }
    }
}

fn read_parts(data: &[u8], cur: &mut usize, packed_map: bool, n: usize) -> (r: Result<
    Vec<u8>,
    SrsV2Error,
>)
    requires
        *old(cur) <= data@.len(),
    ensures
        ({
            let s = take_parts(data@, *old(cur) as int, packed_map, n as int);
            match s.value {
                Ok(p) => r is Ok && r->Ok_0@ == p && *final(cur) == s.next && p.len() == n
                    && all_partitions(p),
                Err(e) => r == Err::<Vec<u8>, SrsV2Error>(e),
            }
        }),
{
    if packed_map {
        return decode_rle_partition_map(data, cur, n);
    }
    let start: usize = *cur;
    if data.len() - start < n {
        return Err(SrsV2Error::Truncated);
    }
    let parts = crate::bytes::copy_range(data, start, start + n);
    *cur = start + n;
    let mut i: usize = 0;
    while i < n
        invariant
            i <= n,
            parts@ == data@.subrange(start as int, start + n),
            start + n <= data@.len(),
            parts@.len() == n,
            forall|j: int| 0 <= j < i ==> #[trigger] parts@[j] <= 3,
            !packed_map,
            *old(cur) == start,
        decreases n - i,
    {
        match super::inter_mv::validate_partition_reserved_bits(parts[i]) {
            Err(e) => {
                assert(!all_partitions(parts@)) by {
                    assert(parts@[i as int] > 3);
                }
                return Err(e);
            },
            Ok(_) => {},
        }
        i += 1;
    }
    Ok(parts)
}

/// Where the entropy-coded vectors of `n` macroblocks lie and how many symbols they hold.
pub open spec fn take_p_section(data: Seq<u8>, cur: int, n: int) -> Read<super::b_decode::SectionView> {
    let s = take_u32(data, cur);
    match s.value {
        Err(e) => Read { value: Err(e), next: s.next },
        Ok(sym) => {
            let l = take_u32(data, s.next);
            match l.value {
                Err(e) => Read { value: Err(e), next: l.next },
                Ok(len) => if sym > least(n * 64, MAX_FRAME_PAYLOAD_BYTES as int) {
                    Read {
                        value: Err(SrsV2Error::Syntax("P MV compact length out of range")),
                        next: l.next,
                    }
                } else if l.next + len > usize::MAX {
                    Read { value: Err(SrsV2Error::Overflow("mv rans blob")), next: l.next }
                } else if l.next + len > data.len() {
                    Read { value: Err(SrsV2Error::Truncated), next: l.next }
                } else {
                    Read {
                        value: Ok(
                            super::b_decode::SectionView {
                                sym_count: sym,
                                start: l.next,
                                end: l.next + len,
                            },
                        ),
                        next: l.next + len,
                    }
                },
            }
        },
    }
}

fn read_p_section(data: &[u8], cur: &mut usize, n: usize) -> (r: Result<MvSection, SrsV2Error>)
    ensures
        ({
            let s = take_p_section(data@, *old(cur) as int, n as int);
            match s.value {
                Ok(v) => r is Ok && r->Ok_0.sym_count == v.sym_count && r->Ok_0.start == v.start
                    && r->Ok_0.end == v.end && r->Ok_0.budget == least(
                    (v.end - v.start) * 64,
                    512000,
                ) && *final(cur) == s.next && v.start <= v.end <= data@.len(),
                Err(e) => r == Err::<MvSection, SrsV2Error>(e),
            }
        }),
{
    let sym_count: usize = match read_u32(data, cur) {
        Ok(v) => v as usize,
        Err(e) => {
            return Err(e);
        },
    };
    let len: usize = match read_u32(data, cur) {
        Ok(v) => v as usize,
        Err(e) => {
            return Err(e);
        },
    };
    let room: usize = sat_mul_usize(n, 64);
    let cap: usize = if room < MAX_FRAME_PAYLOAD_BYTES { room } else { MAX_FRAME_PAYLOAD_BYTES };
    if sym_count > cap {
        return Err(SrsV2Error::Syntax("P MV compact length out of range"));
    }
    let start: usize = *cur;
    match start.checked_add(len) {
        None => Err(SrsV2Error::Overflow("mv rans blob")),
        Some(end) => {
            if end > data.len() {
                return Err(SrsV2Error::Truncated);
            }
            *cur = end;
            let steps: usize = sat_mul_usize(len, 64);
            let budget: usize = if steps < 512_000 { steps } else { 512_000 };
            Ok(MvSection { sym_count, start, end, budget })
        },
    }
}

/// The vectors that a byte string holds for a partition map.
pub open spec fn stream_vectors(
    data: Seq<u8>,
    cur: int,
    cols: int,
    n: int,
    parts: Seq<u8>,
    qpel: bool,
) -> Result<Seq<(i32, i32)>, SrsV2Error> {
    match stream_refusal(n, parts) {
        Some(e) => Err(e),
        None => settle(raw_stream(data, cur, cols, parts, n, 0), stream_check(qpel)),
    }
}

/// The vectors of a payload whose revision is `rev`.
pub open spec fn take_stream(
    data: Seq<u8>,
    mv_bytes: Option<Result<Vec<u8>, SrsV2Error>>,
    rev: int,
    cur: int,
    cols: int,
    n: int,
    parts: Seq<u8>,
    qpel: bool,
) -> Read<Seq<(i32, i32)>> {
    if rev == 20 {
        let s = take_p_section(data, cur, n);
        match s.value {
            Err(e) => Read { value: Err(e), next: s.next },
            Ok(v) => match mv_bytes->Some_0 {
                Err(e) => Read { value: Err(e), next: s.next },
                Ok(b) => if b@.len() != v.sym_count {
                    Read {
                        value: Err(SrsV2Error::Syntax("P MV rANS output length mismatch")),
                        next: s.next,
                    }
                } else {
                    Read { value: stream_vectors(b@, 0, cols, n, parts, qpel), next: s.next }
                },
            },
        }
    } else {
        Read {
            value: stream_vectors(data, cur, cols, n, parts, qpel),
            next: raw_stream(data, cur, cols, parts, n, 0).next,
        }
    }
}

/// Every vector is within bounds.
pub open spec fn vectors_bounded(g: Seq<(i32, i32)>) -> bool {
    forall|i: int|
        0 <= i < g.len() ==> -1024 <= (#[trigger] g[i]).0 <= 1024 && -1024 <= g[i].1 <= 1024
}

proof fn lemma_first_refusal_none(
    mvs: Seq<(i32, i32)>,
    check: spec_fn(i32, i32) -> Result<(), SrsV2Error>,
    j: int,
    i: int,
)
    requires
        0 <= j <= i < mvs.len(),
        super::inter_mv::first_refusal(mvs, check, j) is None,
    ensures
        check(mvs[i].0, mvs[i].1) is Ok,
    decreases i - j,
{
    if j < i {
        lemma_first_refusal_none(mvs, check, j + 1, i);
    }
}

fn read_stream_vectors(
    data: &[u8],
    cur: &mut usize,
    cols: u32,
    rows: u32,
    parts: &[u8],
    qpel: bool,
) -> (r: Result<Vec<(i32, i32)>, SrsV2Error>)
    requires
        cols * rows <= u32::MAX,
    ensures
        match stream_vectors(
            data@,
            *old(cur) as int,
            cols as int,
            cols * rows,
            parts@,
            qpel,
        ) {
            Ok(g) => r is Ok && r->Ok_0@ == g && *final(cur) == raw_stream(
                data@,
                *old(cur) as int,
                cols as int,
                parts@,
                cols * rows,
                0,
            ).next && g.len() == pu_start(parts@, cols * rows) && vectors_bounded(g),
            Err(e) => r == Err::<Vec<(i32, i32)>, SrsV2Error>(e),
        },
{
    let validate = |mx: i32, my: i32| -> (a: Result<(), SrsV2Error>)
        ensures
            a == stream_check(qpel)(mx, my),
        { validate_mv_wire(qpel, mx, my) };
    let r = decode_mv_stream_partitioned(data, cur, cols, rows, parts, &validate);
    proof {
        if stream_refusal(cols * rows, parts@) is None {
            let raw = raw_stream(data@, *old(cur) as int, cols as int, parts@, cols * rows, 0);
            checked_reading_settles(raw, validate, stream_check(qpel), r);
            if r is Ok {
                assert forall|i: int| 0 <= i < raw.mvs.len() implies -1024
                    <= (#[trigger] raw.mvs[i]).0 <= 1024 && -1024 <= raw.mvs[i].1 <= 1024 by {
                    lemma_first_refusal_none(raw.mvs, stream_check(qpel), 0, i);
                }
            }
        }
    }
    r
}

fn read_stream(
    data: &[u8],
    mv_bytes: &Option<Result<Vec<u8>, SrsV2Error>>,
    rev: u8,
    cur: &mut usize,
    cols: u32,
    rows: u32,
    parts: &[u8],
    qpel: bool,
) -> (r: Result<Vec<(i32, i32)>, SrsV2Error>)
    requires
        cols * rows <= u32::MAX,
        rev == 20 && take_p_section(data@, *old(cur) as int, cols * rows).value is Ok
            ==> mv_bytes is Some,
    ensures
        ({
            let s = take_stream(
                data@,
                *mv_bytes,
                rev as int,
                *old(cur) as int,
                cols as int,
                cols * rows,
                parts@,
                qpel,
            );
            match s.value {
                Ok(g) => r is Ok && r->Ok_0@ == g && *final(cur) == s.next && g.len() == pu_start(
                    parts@,
                    cols * rows,
                ) && vectors_bounded(g),
                Err(e) => r == Err::<Vec<(i32, i32)>, SrsV2Error>(e),
            }
        }),
{
    if rev == 20 {
        assert(cols * rows >= 0) by (nonlinear_arith);
        let n: usize = cols as usize * rows as usize;
        let s = match read_p_section(data, cur, n) {
            Err(e) => {
                return Err(e);
            },
            Ok(s) => s,
        };
        match mv_bytes {
            None => Err(SrsV2Error::Internal),
            Some(Err(e)) => Err(*e),
            Some(Ok(b)) => {
                if b.len() != s.sym_count {
                    return Err(SrsV2Error::Syntax("P MV rANS output length mismatch"));
                }
                let mut cc: usize = 0;
                read_stream_vectors(b.as_slice(), &mut cc, cols, rows, parts, qpel)
            },
        }
    } else {
        read_stream_vectors(data, cur, cols, rows, parts, qpel)
    }
}

/// A residual chunk of a payload: the bytes from `start` up to `end` are to be decoded with a QP
/// into 64 samples, or into the 16 samples of a small block.
#[derive(Debug, Clone, Copy, PartialEq, Eq, Structural)]
pub struct VarJob {
    pub start: usize,
    pub end: usize,
    pub qp: i16,
    pub small: bool,
}

/// What a sub-block carries.
#[derive(Debug, Clone, Copy, PartialEq, Eq, Structural)]
pub enum VarBlock {
    Skip,
    /// One chunk of 64 samples.
    Whole { job: usize },
    /// Four chunks of 16 samples, row by row.
    Quarters { first: usize },
}

/// The residual chunk at the cursor.
pub open spec fn take_var_chunk(data: Seq<u8>, cur: int, h: VarHeader, small: bool) -> Read<VarJob> {
    let l = take_u32(data, cur);
    match l.value {
        Err(e) => Read { value: Err(e), next: l.next },
        Ok(len) => {
            let start = l.next;
            let end = l.next + len;
            if end > data.len() || (h.block_aq && len == 0) {
                Read { value: Err(SrsV2Error::Truncated), next: l.next }
            } else if !h.block_aq {
                Read {
                    value: Ok(
                        VarJob {
                            start: start as usize,
                            end: end as usize,
                            qp: step_of(h.qp as int) as i16,
                            small,
                        },
                    ),
                    next: end,
                }
            } else {
                let d = signed8(data[start] as int);
                if !(QP_DELTA_WIRE_MIN <= d <= QP_DELTA_WIRE_MAX) {
                    Read { value: Err(SrsV2Error::Syntax("qp_delta out of wire range")), next: end }
                } else {
                    Read {
                        value: Ok(
                            VarJob {
                                start: (start + 1) as usize,
                                end: end as usize,
                                qp: shifted_qp(
                                    h.qp as int,
                                    d,
                                    h.clip_min as int,
                                    h.clip_max as int,
                                ) as i16,
                                small,
                            },
                        ),
                        next: end,
                    }
                }
            }
        },
    }
}

fn read_var_chunk(data: &[u8], cur: &mut usize, h: &VarHeader, small: bool) -> (r: Result<
    VarJob,
    SrsV2Error,
>)
    requires
        h.clip_min <= h.clip_max,
    ensures
        ({
            let s = take_var_chunk(data@, *old(cur) as int, *h, small);
            match s.value {
                Ok(j) => r == Ok::<VarJob, SrsV2Error>(j) && *final(cur) == s.next && j.start
                    <= j.end <= data@.len(),
                Err(e) => r == Err::<VarJob, SrsV2Error>(e),
            }
        }),
{
    let len: usize = match read_u32(data, cur) {
        Ok(v) => v as usize,
        Err(e) => {
            return Err(e);
        },
    };
    let start: usize = *cur;
    if len > data.len() - start || (h.block_aq && len == 0) {
        return Err(SrsV2Error::Truncated);
    }
    let end: usize = start + len;
    *cur = end;
    if !h.block_aq {
        let qp: i16 = if h.qp < 1 { 1 } else { h.qp as i16 };
        return Ok(VarJob { start, end, qp, small });
    }
    let d: i8 = delta_of_byte(data[start]);
    match validate_wire_qp_delta(d) {
        Err(e) => {
            return Err(e);
        },
        Ok(_) => {},
    }
    let qp: i16 = apply_qp_delta_clamped(h.qp, d, h.clip_min, h.clip_max) as i16;
    Ok(VarJob { start: start + 1, end, qp, small })
}

/// How far the sub-blocks of a payload were read.
pub struct VarState {
    pub cur: int,
    pub blocks: Seq<VarBlock>,
    pub jobs: Seq<VarJob>,
    pub fault: Option<SrsV2Error>,
}

/// The state after `m` more chunks.
pub open spec fn after_chunks(
    data: Seq<u8>,
    h: VarHeader,
    small: bool,
    m: int,
    st: VarState,
) -> VarState
    decreases m,
{
    if m <= 0 {
        st
    } else {
        let s = after_chunks(data, h, small, m - 1, st);
        if s.fault is Some {
            s
        } else {
            let c = take_var_chunk(data, s.cur, h, small);
            match c.value {
                Err(e) => VarState { fault: Some(e), ..s },
                Ok(j) => VarState { cur: c.next, jobs: s.jobs.push(j), ..s },
            }
        }
    }
}

/// The state after one more sub-block: a control byte, then no chunk, one or four.
pub open spec fn var_step(data: Seq<u8>, h: VarHeader, st: VarState) -> VarState {
    if st.fault is Some {
        st
    } else {
        let c = take_u8(data, st.cur);
        match c.value {
            Err(e) => VarState { fault: Some(e), ..st },
            Ok(ctrl) => {
                let s = VarState { cur: c.next, ..st };
                let tx = ctrl / 2 % 4;
                if ctrl > 7 {
                    VarState {
                        fault: Some(SrsV2Error::Syntax("bad var-partition ctrl reserved")),
                        ..st
                    }
                } else if ctrl % 2 == 1 {
                    VarState { blocks: s.blocks.push(VarBlock::Skip), ..s }
                } else if tx == 2 {
                    VarState {
                        fault: Some(SrsV2Error::Syntax("unsupported P transform size")),
                        ..st
                    }
                } else if tx == 3 {
                    VarState {
                        fault: Some(SrsV2Error::Syntax("bad P var-partition transform wire")),
                        ..st
                    }
                } else if tx == 0 {
                    let t = after_chunks(data, h, false, 1, s);
                    if t.fault is Some {
                        t
                    } else {
                        VarState {
                            blocks: t.blocks.push(
                                VarBlock::Whole { job: st.jobs.len() as usize },
                            ),
                            ..t
                        }
                    }
                } else {
                    let t = after_chunks(data, h, true, 4, s);
                    if t.fault is Some {
                        t
                    } else {
                        VarState {
                            blocks: t.blocks.push(
                                VarBlock::Quarters { first: st.jobs.len() as usize },
                            ),
                            ..t
                        }
                    }
                }
            },
        }
    }
}

/// The state after `k` sub-blocks, reading from `start` on.
pub open spec fn var_state(data: Seq<u8>, h: VarHeader, start: int, k: int) -> VarState
    decreases k,
{
    if k <= 0 {
        VarState { cur: start, blocks: seq![], jobs: seq![], fault: None }
    } else {
        var_step(data, h, var_state(data, h, start, k - 1))
    }
}

proof fn lemma_var_fault(data: Seq<u8>, h: VarHeader, start: int, k: int, n: int)
    requires
        k <= n,
        var_state(data, h, start, k).fault is Some,
    ensures
        var_state(data, h, start, n) == var_state(data, h, start, k),
    decreases n - k,
{
    if k < n {
        lemma_var_fault(data, h, start, k, n - 1);
    }
}

proof fn lemma_chunks_fault(data: Seq<u8>, h: VarHeader, small: bool, k: int, m: int, st: VarState)
    requires
        k <= m,
        after_chunks(data, h, small, k, st).fault is Some,
    ensures
        after_chunks(data, h, small, m, st) == after_chunks(data, h, small, k, st),
    decreases m - k,
{
    if k < m {
        lemma_chunks_fault(data, h, small, k, m - 1, st);
    }
}

/// The chunks that a sub-block asks for are listed.
pub open spec fn block_listed(b: VarBlock, jobs: int) -> bool {
    match b {
        VarBlock::Skip => true,
        VarBlock::Whole { job } => job < jobs,
        VarBlock::Quarters { first } => first + 4 <= jobs,
    }
}

/// A variable-partition payload taken apart. Where `fault` is set the payload is broken there, and
/// the lists hold what came before.
#[derive(Debug, Clone)]
pub struct VarParse {
    pub header: VarHeader,
    pub parts: Vec<u8>,
    pub mvs: Vec<(i32, i32)>,
    /// Four per macroblock, in the order of the stream.
    pub blocks: Vec<VarBlock>,
    pub jobs: Vec<VarJob>,
    pub fault: Option<SrsV2Error>,
}

impl VarParse {
    /// The lists fit together; a complete parse covers `n` macroblocks.
    pub open spec fn wf(self, n: int) -> bool {
        &&& self.parts@.len() == n
        &&& all_partitions(self.parts@)
        &&& self.mvs@.len() == pu_start(self.parts@, n)
        &&& vectors_bounded(self.mvs@)
        &&& forall|k: int|
            0 <= k < self.blocks@.len() ==> block_listed(
                #[trigger] self.blocks@[k],
                self.jobs@.len() as int,
            )
        &&& self.fault is None ==> self.blocks@.len() == 4 * n
    }
}

fn read_chunks(
    data: &[u8],
    cur: &mut usize,
    h: &VarHeader,
    small: bool,
    m: usize,
    jobs: &mut Vec<VarJob>,
    Ghost(st): Ghost<VarState>,
) -> (r: Option<SrsV2Error>)
    requires
        h.clip_min <= h.clip_max,
        st.fault is None,
        st.cur == *old(cur),
        st.jobs == old(jobs)@,
    ensures
        ({
            let t = after_chunks(data@, *h, small, m as int, st);
            &&& r == t.fault
            &&& final(jobs)@ == t.jobs
            &&& r is None ==> *final(cur) == t.cur && t.jobs.len() == st.jobs.len() + m
            &&& t.blocks == st.blocks
            &&& t.jobs.len() >= st.jobs.len()
        }),
{
    let mut i: usize = 0;
    while i < m
        invariant
            i <= m,
            h.clip_min <= h.clip_max,
            ({
                let t = after_chunks(data@, *h, small, i as int, st);
                &&& t.fault is None
                &&& t.cur == *cur
                &&& t.jobs == jobs@
                &&& t.blocks == st.blocks
            }),
            jobs@.len() == st.jobs.len() + i,
        decreases m - i,
    {
        match read_var_chunk(data, cur, h, small) {
            Err(e) => {
                proof {
                    lemma_chunks_fault(data@, *h, small, i + 1, m as int, st);
                }
                return Some(e);
            },
            Ok(j) => {
                jobs.push(j);
            },
        }
        i += 1;
    }
    None
}

fn read_var_block(
    data: &[u8],
    cur: &mut usize,
    h: &VarHeader,
    blocks: &mut Vec<VarBlock>,
    jobs: &mut Vec<VarJob>,
    Ghost(st): Ghost<VarState>,
) -> (r: Option<SrsV2Error>)
    requires
        h.clip_min <= h.clip_max,
        st.fault is None,
        st.cur == *old(cur),
        st.jobs == old(jobs)@,
        st.blocks == old(blocks)@,
    ensures
        ({
            let t = var_step(data@, *h, st);
            &&& r == t.fault
            &&& final(jobs)@ == t.jobs
            &&& final(blocks)@ == t.blocks
            &&& r is None ==> *final(cur) == t.cur && t.blocks.len() == st.blocks.len() + 1
                && block_listed(t.blocks.last(), t.jobs.len() as int)
            &&& t.jobs.len() >= st.jobs.len()
            &&& t.blocks == st.blocks || t.blocks == st.blocks.push(t.blocks.last())
            &&& r is Some ==> t.blocks == st.blocks
        }),
{
    let ctrl: u8 = match read_u8(data, cur) {
        Ok(v) => v,
        Err(e) => {
            return Some(e);
        },
    };
    if ctrl > 7 {
        return Some(SrsV2Error::Syntax("bad var-partition ctrl reserved"));
    }
    if ctrl % 2 == 1 {
        blocks.push(VarBlock::Skip);
        return None;
    }
    let tx: u8 = ctrl / 2 % 4;
    if tx == 2 {
        return Some(SrsV2Error::Syntax("unsupported P transform size"));
    }
    if tx == 3 {
        return Some(SrsV2Error::Syntax("bad P var-partition transform wire"));
    }
    let ghost s = VarState { cur: *cur as int, ..st };
    let first: usize = jobs.len();
    if tx == 0 {
        match read_chunks(data, cur, h, false, 1, jobs, Ghost(s)) {
            Some(e) => Some(e),
            None => {
                blocks.push(VarBlock::Whole { job: first });
                None
            },
        }
    } else {
        match read_chunks(data, cur, h, true, 4, jobs, Ghost(s)) {
            Some(e) => Some(e),
            None => {
                blocks.push(VarBlock::Quarters { first });
                None
            },
        }
    }
}

/// The parts of a payload ahead of its sub-blocks.
pub struct VarOpening {
    pub header: VarHeader,
    pub parts: Seq<u8>,
    pub mvs: Seq<(i32, i32)>,
}

/// Why a variable-partition payload is refused outright, if it is.
pub open spec fn var_refusal(seq: VideoSequenceHeaderV2, reference: YuvFrame) -> Option<SrsV2Error> {
    if seq.pixel_format != PixelFormat::Yuv420p8 || reference.format != PixelFormat::Yuv420p8 {
        Some(SrsV2Error::Unsupported("P-frame decode requires YUV420p8"))
    } else {
        None
    }
}

/// The parts of a payload ahead of its sub-blocks, and where those start.
pub open spec fn var_opening(
    seq: VideoSequenceHeaderV2,
    data: Seq<u8>,
    rev: int,
    mv_bytes: Option<Result<Vec<u8>, SrsV2Error>>,
) -> Read<VarOpening> {
    let n = mb_count(seq);
    let h = take_var_header(data);
    match h.value {
        Err(e) => Read { value: Err(e), next: h.next },
        Ok(header) => {
            let p = take_parts(data, h.next, header.packed_map, n);
            match p.value {
                Err(e) => Read { value: Err(e), next: p.next },
                Ok(parts) => {
                    let m = take_stream(
                        data,
                        mv_bytes,
                        rev,
                        p.next,
                        seq.width as int / 16,
                        n,
                        parts,
                        header.qpel,
                    );
                    match m.value {
                        Err(e) => Read { value: Err(e), next: m.next },
                        Ok(mvs) => match plane_refusal(
                            seq.width as int,
                            seq.height as int,
                            seq.width as int,
                        ) {
                            Some(e) => Read { value: Err(e), next: m.next },
                            None => Read {
                                value: Ok(VarOpening { header, parts, mvs }),
                                next: m.next,
                            },
                        },
                    }
                },
            }
        },
    }
}

/// Where the entropy-coded vectors of a payload lie, if they can be found.
pub open spec fn found_p_section(
    seq: VideoSequenceHeaderV2,
    data: Seq<u8>,
    rev: int,
) -> Option<super::b_decode::SectionView> {
    let n = mb_count(seq);
    let h = take_var_header(data);
    let p = take_parts(data, h.next, h.value->Ok_0.packed_map, n);
    let s = take_p_section(data, p.next, n);
    if seq.pixel_format != PixelFormat::Yuv420p8 || rev != 20 || h.value is Err || p.value is Err
        || s.value is Err {
        None
    } else {
        Some(s.value->Ok_0)
    }
}

/// The reading of the sub-blocks of a payload.
pub open spec fn var_reading(
    seq: VideoSequenceHeaderV2,
    data: Seq<u8>,
    header: VarHeader,
    start: int,
) -> VarState {
    let st = var_state(data, header, start, 4 * mb_count(seq));
    if st.fault is None && st.cur != data.len() {
        VarState { fault: Some(SrsV2Error::Syntax("trailing P var-partition bytes")), ..st }
    } else {
        st
    }
}

/// Finds the entropy-coded vectors of a payload, for the caller to decode.
pub fn find_p_mv_section(seq: &VideoSequenceHeaderV2, payload: &[u8], rev_byte: u8) -> (r: Option<
    MvSection,
>)
    requires
        seq.pixel_format == PixelFormat::Yuv420p8 ==> mb_count(*seq) <= u32::MAX,
    ensures
        match found_p_section(*seq, payload@, rev_byte as int) {
            None => r is None,
            Some(s) => r is Some && r->Some_0.sym_count == s.sym_count && r->Some_0.start == s.start
                && r->Some_0.end == s.end && r->Some_0.budget == least(
                (s.end - s.start) * 64,
                512000,
            ) && s.start <= s.end <= payload@.len(),
        },
{
    if seq.pixel_format != PixelFormat::Yuv420p8 || rev_byte != 20 {
        return None;
    }
    assert((seq.width as int / 16) * (seq.height as int / 16) >= 0) by (nonlinear_arith)
        requires
            seq.width as int / 16 >= 0,
            seq.height as int / 16 >= 0,
    ;
    let n: usize = (seq.width / 16) as usize * (seq.height / 16) as usize;
    let mut cur: usize = 4;
    match read_var_header(payload, &mut cur) {
        Err(_) => None,
        Ok(h) => match read_parts(payload, &mut cur, h.packed_map, n) {
            Err(_) => None,
            Ok(_) => match read_p_section(payload, &mut cur, n) {
                Err(_) => None,
                Ok(s) => Some(s),
            },
        },
    }
}

/// Takes a variable-partition payload apart: what is left to do is to decode its residual chunks.
/// `mv_bytes` are the decoded vectors that [`find_p_mv_section`] locates.
pub fn parse_p_var_payload(
    seq: &VideoSequenceHeaderV2,
    payload: &[u8],
    reference: &YuvFrame,
    rev_byte: u8,
    mv_bytes: &Option<Result<Vec<u8>, SrsV2Error>>,
) -> (r: Result<VarParse, SrsV2Error>)
    requires
        var_refusal(*seq, *reference) is None ==> mb_count(*seq) <= u32::MAX,
        var_refusal(*seq, *reference) is None && found_p_section(
            *seq,
            payload@,
            rev_byte as int,
        ) is Some ==> mv_bytes is Some,
    ensures
        match var_refusal(*seq, *reference) {
            Some(e) => r == Err::<VarParse, SrsV2Error>(e),
            None => {
                let o = var_opening(*seq, payload@, rev_byte as int, *mv_bytes);
                match o.value {
                    Err(e) => r == Err::<VarParse, SrsV2Error>(e),
                    Ok(v) => {
                        let st = var_reading(*seq, payload@, v.header, o.next);
                        &&& r is Ok
                        &&& r->Ok_0.header == v.header
                        &&& r->Ok_0.parts@ == v.parts
                        &&& r->Ok_0.mvs@ == v.mvs
                        &&& r->Ok_0.blocks@ == st.blocks
                        &&& r->Ok_0.jobs@ == st.jobs
                        &&& r->Ok_0.fault == st.fault
                        &&& r->Ok_0.wf(mb_count(*seq))
                        &&& plane_refusal(
                            seq.width as int,
                            seq.height as int,
                            seq.width as int,
                        ) is None
                    },
                }
            },
        },
{
    if seq.pixel_format != PixelFormat::Yuv420p8 || reference.format != PixelFormat::Yuv420p8 {
        return Err(SrsV2Error::Unsupported("P-frame decode requires YUV420p8"));
    }
    let w: u32 = seq.width;
    let h: u32 = seq.height;
    let cols: u32 = w / 16;
    let rows: u32 = h / 16;
    assert(cols * rows >= 0) by (nonlinear_arith);
    let n_mb: usize = cols as usize * rows as usize;
    let mut cur: usize = 4;
    let header = match read_var_header(payload, &mut cur) {
        Err(e) => {
            return Err(e);
        },
        Ok(v) => v,
    };
    let parts = match read_parts(payload, &mut cur, header.packed_map, n_mb) {
        Err(e) => {
            return Err(e);
        },
        Ok(v) => v,
    };
    let mvs = match read_stream(
        payload,
        mv_bytes,
        rev_byte,
        &mut cur,
        cols,
        rows,
        parts.as_slice(),
        header.qpel,
    ) {
        Err(e) => {
            return Err(e);
        },
        Ok(v) => v,
    };
    match VideoPlane::try_new(w, h, w as usize) {
        Err(e) => {
            return Err(e);
        },
        Ok(_) => {},
    }
    assert(cols * rows <= 512 * 512) by (nonlinear_arith)
        requires
            cols <= 512,
            rows <= 512,
    ;
    let n: usize = 4 * n_mb;
    let ghost start = cur as int;
    let mut blocks: Vec<VarBlock> = Vec::new();
    let mut jobs: Vec<VarJob> = Vec::new();
    let mut fault: Option<SrsV2Error> = None;
    let mut k: usize = 0;
    while k < n && fault.is_none()
        invariant
            k <= n,
            header.clip_min <= header.clip_max,
            ({
                let st = var_state(payload@, header, start, k as int);
                &&& blocks@ == st.blocks
                &&& jobs@ == st.jobs
                &&& fault == st.fault
                &&& fault is None ==> cur == st.cur && blocks@.len() == k
            }),
            forall|i: int|
                0 <= i < blocks@.len() ==> block_listed(#[trigger] blocks@[i], jobs@.len() as int),
        decreases n - k,
    {
        let ghost st = var_state(payload@, header, start, k as int);
        assert(var_state(payload@, header, start, k + 1) == var_step(payload@, header, st));
        let ghost before = blocks@;
        fault = read_var_block(payload, &mut cur, &header, &mut blocks, &mut jobs, Ghost(st));
        assert forall|i: int| 0 <= i < blocks@.len() implies block_listed(
            #[trigger] blocks@[i],
            jobs@.len() as int,
        ) by {
            if i < before.len() {
                assert(blocks@[i] == before[i]);
            }
        }
        k += 1;
    }
    proof {
        if fault is Some {
            lemma_var_fault(payload@, header, start, k as int, n as int);
        }
    }
    if fault.is_none() && cur != payload.len() {
        fault = Some(SrsV2Error::Syntax("trailing P var-partition bytes"));
    }
    Ok(VarParse { header, parts, mvs, blocks, jobs, fault })
}

/// The unit of a macroblock that predicts its sub-block `si`.
pub open spec fn unit_of(pt: u8, si: int) -> int {
    if pt == 0 {
        0
    } else if pt == 1 {
        si / 2
    } else if pt == 2 {
        si % 2
    } else {
        si
    }
}

/// The place of sub-block `si` in the stream: tall units go column by column.
pub open spec fn stream_place(pt: u8, si: int) -> int {
    if pt == 2 {
        si % 2 * 2 + si / 2
    } else {
        si
    }
}

/// The prediction and the residual chunk of luma sample (`x`, `y`).
pub open spec fn var_luma(
    refp: VideoPlane<u8>,
    parts: Seq<u8>,
    mvs: Seq<(i32, i32)>,
    blocks: Seq<VarBlock>,
    residuals: Seq<Result<[i16; 64], SrsV2Error>>,
    cols: int,
    x: int,
    y: int,
) -> u8 {
    let m = y / 16 * cols + x / 16;
    let si = y % 16 / 8 * 2 + x % 16 / 8;
    let mv = mvs[pu_start(parts, m) + unit_of(parts[m], si)];
    let pred = qpel_sample(refp, x, y, mv.0 as int, mv.1 as int);
    match blocks[4 * m + stream_place(parts[m], si)] {
        VarBlock::Skip => pred as u8,
        VarBlock::Whole { job } => clip(
            pred + residuals[job as int]->Ok_0@[y % 8 * 8 + x % 8],
            0,
            255,
        ) as u8,
        VarBlock::Quarters { first } => clip(
            pred + residuals[first + (y % 8 / 4 * 2 + x % 8 / 4)]->Ok_0@[y % 4 * 4 + x % 4],
            0,
            255,
        ) as u8,
    }
}

/// A chroma sample: the first unit of a macroblock moves its chroma.
pub open spec fn var_chroma(
    refp: VideoPlane<u8>,
    parts: Seq<u8>,
    mvs: Seq<(i32, i32)>,
    cols: int,
    x: int,
    y: int,
) -> u8 {
    let mv = mvs[pu_start(parts, y / 8 * cols + x / 8)];
    padded(refp, x + tdiv(mv.0 as int, 8), y + tdiv(mv.1 as int, 8)) as u8
}

/// A sample of the coded area, 0 outside of it.
pub open spec fn inside_or_zero(inside: bool, v: u8) -> u8 {
    if inside {
        v
    } else {
        0
    }
}

/// Why a chunk of the first `n` could not be decoded, if one could not: the first that failed.
pub open spec fn job_failure(residuals: Seq<Result<[i16; 64], SrsV2Error>>, n: int) -> Option<
    SrsV2Error,
>
    decreases n,
{
    if n <= 0 {
        None
    } else {
        match job_failure(residuals, n - 1) {
            Some(e) => Some(e),
            None => match residuals[n - 1] {
                Err(e) => Some(e),
                Ok(_) => None,
            },
        }
    }
}

proof fn lemma_job_failure_stays(
    residuals: Seq<Result<[i16; 64], SrsV2Error>>,
    k: int,
    n: int,
)
    requires
        k <= n,
        job_failure(residuals, k) is Some,
    ensures
        job_failure(residuals, n) == job_failure(residuals, k),
    decreases n - k,
{
    if k < n {
        lemma_job_failure_stays(residuals, k, n - 1);
    }
}

fn find_job_failure(residuals: &[Result<[i16; 64], SrsV2Error>]) -> (r: Option<SrsV2Error>)
    ensures
        r == job_failure(residuals@, residuals@.len() as int),
        r is None ==> forall|k: int|
            0 <= k < residuals@.len() ==> (#[trigger] residuals@[k]) is Ok,
{
    let mut i: usize = 0;
    while i < residuals.len()
        invariant
            i <= residuals@.len(),
            job_failure(residuals@, i as int) is None,
            forall|k: int| 0 <= k < i ==> (#[trigger] residuals@[k]) is Ok,
        decreases residuals@.len() - i,
    {
        match residuals[i] {
            Err(e) => {
                proof {
                    lemma_job_failure_stays(residuals@, i + 1, residuals@.len() as int);
                }
                return Some(e);
            },
            Ok(_) => {},
        }
        i += 1;
    }
    None
}

/// The first unit of every macroblock.
pub fn unit_starts(parts: &[u8]) -> (starts: Vec<usize>)
    requires
        parts@.len() <= 262144,
        all_partitions(parts@),
    ensures
        starts@.len() == parts@.len(),
        forall|i: int| 0 <= i < parts@.len() ==> #[trigger] starts@[i] == pu_start(parts@, i),
{
    let mut starts: Vec<usize> = Vec::with_capacity(parts.len());
    let mut t: usize = 0;
    let mut i: usize = 0;
    while i < parts.len()
        invariant
            i <= parts@.len() <= 262144,
            all_partitions(parts@),
            starts@.len() == i,
            t == pu_start(parts@, i as int),
            t <= 4 * i,
            forall|j: int| 0 <= j < i ==> #[trigger] starts@[j] == pu_start(parts@, j),
        decreases parts@.len() - i,
    {
        starts.push(t);
        let u: usize = if parts[i] == 0 {
            1
        } else if parts[i] == 3 {
            4
        } else {
            2
        };
        assert(parts@[i as int] <= 3);
        assert(u == units(parts@[i as int]));
        t = t + u;
        i += 1;
    }
    starts
}

/// The macroblock of a sample inside the coded area is one of the picture, and its units are
/// listed.
proof fn lemma_var_position(parts: Seq<u8>, cols: int, rows: int, m: int, bx: int, by: int)
    requires
        0 <= bx < cols,
        0 <= by < rows,
        m == by * cols + bx,
        parts.len() == cols * rows,
    ensures
        0 <= m < parts.len(),
        0 <= pu_start(parts, m),
        pu_start(parts, m) + units(parts[m]) <= pu_start(parts, parts.len() as int),
{
    super::frame::lemma_packed_at(bx, by, cols, rows);
    super::inter_mv::lemma_pu_start(parts, m, parts.len() as int);
    super::inter_mv::lemma_pu_start(parts, 0, m);
}

fn var_luma_sample(
    refp: &VideoPlane<u8>,
    parse: &VarParse,
    starts: &[usize],
    residuals: &[Result<[i16; 64], SrsV2Error>],
    cols: usize,
    rows: usize,
    x: usize,
    y: usize,
) -> (v: u8)
    requires
        refp.valid(),
        cols <= 512,
        rows <= 512,
        x < cols * 16,
        y < rows * 16,
        parse.wf(cols * rows),
        parse.fault is None,
        residuals@.len() == parse.jobs@.len(),
        forall|k: int| 0 <= k < residuals@.len() ==> (#[trigger] residuals@[k]) is Ok,
        starts@.len() == parse.parts@.len(),
        forall|i: int|
            0 <= i < starts@.len() ==> #[trigger] starts@[i] == pu_start(parse.parts@, i),
    ensures
        v == var_luma(
            *refp,
            parse.parts@,
            parse.mvs@,
            parse.blocks@,
            residuals@,
            cols as int,
            x as int,
            y as int,
        ),
{
    let bx: usize = x / 16;
    let by: usize = y / 16;
    assert(by * cols <= 512 * 512) by (nonlinear_arith)
        requires
            by < 512,
            cols <= 512,
    ;
    let m: usize = by * cols + bx;
    proof {
        lemma_var_position(
            parse.parts@,
            cols as int,
            rows as int,
            m as int,
            bx as int,
            by as int,
        );
    }
    let si: usize = y % 16 / 8 * 2 + x % 16 / 8;
    let pt: u8 = parse.parts[m];
    assert(pt <= 3);
    let unit: usize = if pt == 0 {
        0
    } else if pt == 1 {
        si / 2
    } else if pt == 2 {
        si % 2
    } else {
        si
    };
    let place: usize = if pt == 2 { si % 2 * 2 + si / 2 } else { si };
    let vectors: usize = parse.mvs.len();
    let jobs: usize = residuals.len();
    assert(starts@[m as int] + unit < vectors);
    let mv = parse.mvs[starts[m] + unit];
    let pred: u8 = sample_luma_bilinear_qpel(refp, x as i32, y as i32, mv.0, mv.1);
    let (job, at): (usize, usize) = match parse.blocks[4 * m + place] {
        VarBlock::Skip => {
            return pred;
        },
        VarBlock::Whole { job } => (job, y % 8 * 8 + x % 8),
        VarBlock::Quarters { first } => (first + (y % 8 / 4 * 2 + x % 8 / 4), y % 4 * 4 + x % 4),
    };
    match residuals[job] {
        Err(_) => 0,
        Ok(res) => {
            let v: i32 = pred as i32 + res[at] as i32;
            if v < 0 {
                0
            } else if v > 255 {
                255
            } else {
                v as u8
            }
        },
    }
}

fn fill_var_luma(
    plane: &mut VideoPlane<u8>,
    refp: &VideoPlane<u8>,
    parse: &VarParse,
    starts: &[usize],
    residuals: &[Result<[i16; 64], SrsV2Error>],
)
    requires
        refp.valid(),
        old(plane).width <= 8192,
        old(plane).height <= 8192,
        old(plane).stride == old(plane).width,
        old(plane).samples@.len() == old(plane).width * old(plane).height,
        parse.wf((old(plane).width as int / 16) * (old(plane).height as int / 16)),
        parse.fault is None,
        residuals@.len() == parse.jobs@.len(),
        forall|k: int| 0 <= k < residuals@.len() ==> (#[trigger] residuals@[k]) is Ok,
        starts@.len() == parse.parts@.len(),
        forall|i: int|
            0 <= i < starts@.len() ==> #[trigger] starts@[i] == pu_start(parse.parts@, i),
    ensures
        final(plane).width == old(plane).width,
        final(plane).height == old(plane).height,
        final(plane).stride == old(plane).stride,
        final(plane).samples@ == packed(
            old(plane).width as int,
            old(plane).height as int,
            |x: int, y: int|
                inside_or_zero(
                    x < old(plane).width as int / 16 * 16 && y < old(plane).height as int / 16 * 16,
                    var_luma(
                        *refp,
                        parse.parts@,
                        parse.mvs@,
                        parse.blocks@,
                        residuals@,
                        old(plane).width as int / 16,
                        x,
                        y,
                    ),
                ),
        ),
{
    let w: usize = plane.width as usize;
    let h: usize = plane.height as usize;
    let cols: usize = w / 16;
    let rows: usize = h / 16;
    let n: usize = plane.samples.len();
    let ghost f = |x: int, y: int|
        inside_or_zero(
            x < w as int / 16 * 16 && y < h as int / 16 * 16,
            var_luma(
                *refp,
                parse.parts@,
                parse.mvs@,
                parse.blocks@,
                residuals@,
                w as int / 16,
                x,
                y,
            ),
        );
    let mut i: usize = 0;
    while i < n
        invariant
            i <= n,
            n == w * h,
            w <= 8192,
            h <= 8192,
            cols == w / 16,
            rows == h / 16,
            refp.valid(),
            parse.wf(cols * rows),
            parse.fault is None,
            residuals@.len() == parse.jobs@.len(),
            forall|k: int| 0 <= k < residuals@.len() ==> (#[trigger] residuals@[k]) is Ok,
            starts@.len() == parse.parts@.len(),
            forall|i: int|
                0 <= i < starts@.len() ==> #[trigger] starts@[i] == pu_start(parse.parts@, i),
            f == (|x: int, y: int|
                inside_or_zero(
                    x < w as int / 16 * 16 && y < h as int / 16 * 16,
                    var_luma(
                        *refp,
                        parse.parts@,
                        parse.mvs@,
                        parse.blocks@,
                        residuals@,
                        w as int / 16,
                        x,
                        y,
                    ),
                )),
            plane.width == old(plane).width,
            plane.height == old(plane).height,
            plane.stride == old(plane).stride,
            w == plane.width,
            h == plane.height,
            plane.samples@.len() == n,
            forall|j: int|
                0 <= j < i ==> #[trigger] plane.samples@[j] == f(j % (w as int), j / (w as int)),
        decreases n - i,
    {
        assert(w > 0) by (nonlinear_arith)
            requires
                0 < w * h,
                w >= 0,
        ;
        proof {
            lemma_packed_position(i as int, w as int, h as int);
        }
        let x: usize = i % w;
        let y: usize = i / w;
        let v: u8 = if x < cols * 16 && y < rows * 16 {
            var_luma_sample(refp, parse, starts, residuals, cols, rows, x, y)
        } else {
            0
        };
        assert(v == f(x as int, y as int));
        plane.samples[i] = v;
        i += 1;
    }
    assert(plane.samples@ =~= packed(w as int, h as int, f));
}

fn fill_var_chroma(
    plane: &mut VideoPlane<u8>,
    refp: &VideoPlane<u8>,
    parse: &VarParse,
    starts: &[usize],
    cols: usize,
    rows: usize,
)
    requires
        refp.valid(),
        cols <= 512,
        rows <= 512,
        old(plane).width <= 8192,
        old(plane).height <= 8192,
        old(plane).stride == old(plane).width,
        old(plane).samples@.len() == old(plane).width * old(plane).height,
        parse.wf(cols * rows),
        starts@.len() == parse.parts@.len(),
        forall|i: int|
            0 <= i < starts@.len() ==> #[trigger] starts@[i] == pu_start(parse.parts@, i),
    ensures
        final(plane).width == old(plane).width,
        final(plane).height == old(plane).height,
        final(plane).stride == old(plane).stride,
        final(plane).samples@ == packed(
            old(plane).width as int,
            old(plane).height as int,
            |x: int, y: int|
                inside_or_zero(
                    x < 8 * cols && y < 8 * rows,
                    var_chroma(*refp, parse.parts@, parse.mvs@, cols as int, x, y),
                ),
        ),
{
    let w: usize = plane.width as usize;
    let h: usize = plane.height as usize;
    let n: usize = plane.samples.len();
    let ghost f = |x: int, y: int|
        inside_or_zero(
            x < 8 * cols && y < 8 * rows,
            var_chroma(*refp, parse.parts@, parse.mvs@, cols as int, x, y),
        );
    let mut i: usize = 0;
    while i < n
        invariant
            i <= n,
            n == w * h,
            w <= 8192,
            h <= 8192,
            cols <= 512,
            rows <= 512,
            refp.valid(),
            parse.wf(cols * rows),
            starts@.len() == parse.parts@.len(),
            forall|i: int|
                0 <= i < starts@.len() ==> #[trigger] starts@[i] == pu_start(parse.parts@, i),
            f == (|x: int, y: int|
                inside_or_zero(
                    x < 8 * cols && y < 8 * rows,
                    var_chroma(*refp, parse.parts@, parse.mvs@, cols as int, x, y),
                )),
            plane.width == old(plane).width,
            plane.height == old(plane).height,
            plane.stride == old(plane).stride,
            w == plane.width,
            h == plane.height,
            plane.samples@.len() == n,
            forall|j: int|
                0 <= j < i ==> #[trigger] plane.samples@[j] == f(j % (w as int), j / (w as int)),
        decreases n - i,
    {
        assert(w > 0) by (nonlinear_arith)
            requires
                0 < w * h,
                w >= 0,
        ;
        proof {
            lemma_packed_position(i as int, w as int, h as int);
        }
        let x: usize = i % w;
        let y: usize = i / w;
        let mut v: u8 = 0;
        if x < 8 * cols && y < 8 * rows {
            assert((y as int / 8) * cols <= 512 * 512) by (nonlinear_arith)
                requires
                    0 <= y as int / 8 < 512,
                    0 <= cols <= 512,
            ;
            let m: usize = y / 8 * cols + x / 8;
            proof {
                lemma_var_position(
                    parse.parts@,
                    cols as int,
                    rows as int,
                    m as int,
                    x as int / 8,
                    y as int / 8,
                );
                assert(units(parse.parts@[m as int]) >= 1);
            }
            let mv = parse.mvs[starts[m]];
            v = sample_u8_plane(refp, x as i32 + mv.0 / 8, y as i32 + mv.1 / 8);
        }
        assert(v == f(x as int, y as int));
        plane.samples[i] = v;
        i += 1;
    }
    assert(plane.samples@ =~= packed(w as int, h as int, f));
}

/// The three planes of a reconstructed picture with variable partitions.
pub open spec fn var_planes(
    f: YuvFrame,
    w: int,
    h: int,
    reference: YuvFrame,
    o: VarOpening,
    blocks: Seq<VarBlock>,
    residuals: Seq<Result<[i16; 64], SrsV2Error>>,
) -> bool {
    let cols = w / 16;
    let rows = h / 16;
    let cw = (w + 1) / 2;
    let ch = (h + 1) / 2;
    &&& f.y.width == w && f.y.height == h && f.y.stride == w
    &&& f.u.width == cw && f.u.height == ch && f.u.stride == cw
    &&& f.v.width == cw && f.v.height == ch && f.v.stride == cw
    &&& f.y.samples@ == packed(
        w,
        h,
        |x: int, y: int|
            inside_or_zero(
                x < cols * 16 && y < rows * 16,
                var_luma(reference.y, o.parts, o.mvs, blocks, residuals, cols, x, y),
            ),
    )
    &&& f.u.samples@ == packed(
        cw,
        ch,
        |x: int, y: int|
            inside_or_zero(
                x < 8 * cols && y < 8 * rows,
                var_chroma(reference.u, o.parts, o.mvs, cols, x, y),
            ),
    )
    &&& f.v.samples@ == packed(
        cw,
        ch,
        |x: int, y: int|
            inside_or_zero(
                x < 8 * cols && y < 8 * rows,
                var_chroma(reference.v, o.parts, o.mvs, cols, x, y),
            ),
    )
}

/// Half a picture size, rounded up, is acceptable where the size is.
pub proof fn lemma_half_accepted(w: int, h: int)
    requires
        plane_refusal(w, h, w) is None,
        0 <= w,
        0 <= h,
    ensures
        plane_refusal((w + 1) / 2, (h + 1) / 2, (w + 1) / 2) is None,
        w <= 8192,
        h <= 8192,
        0 < w,
        0 < h,
{
    let a = (w + 1) / 2;
    let b = (h + 1) / 2;
    assert(0 < a * b <= w * h) by (nonlinear_arith)
        requires
            0 < a <= w,
            0 < b <= h,
    ;
}

/// Decodes a payload with variable partitions, given its decoded vectors and the residual samples
/// of its chunks, in the order in which [`parse_p_var_payload`] lists them. A small chunk has its
/// 16 samples in front.
pub fn decode_yuv420_p_payload_var_partition(
    seq: &VideoSequenceHeaderV2,
    payload: &[u8],
    reference: &YuvFrame,
    rev_byte: u8,
    mv_bytes: &Option<Result<Vec<u8>, SrsV2Error>>,
    residuals: &[Result<[i16; 64], SrsV2Error>],
) -> (r: Result<DecodedVideoFrameV2, SrsV2Error>)
    requires
        var_refusal(*seq, *reference) is None ==> mb_count(*seq) <= u32::MAX,
        reference.valid(),
        var_refusal(*seq, *reference) is None && found_p_section(
            *seq,
            payload@,
            rev_byte as int,
        ) is Some ==> mv_bytes is Some,
        var_refusal(*seq, *reference) is None ==> (var_opening(
            *seq,
            payload@,
            rev_byte as int,
            *mv_bytes,
        ).value matches Ok(v) ==> residuals@.len() == var_reading(
            *seq,
            payload@,
            v.header,
            var_opening(*seq, payload@, rev_byte as int, *mv_bytes).next,
        ).jobs.len()),
    ensures
        match var_refusal(*seq, *reference) {
            Some(e) => r == Err::<DecodedVideoFrameV2, SrsV2Error>(e),
            None => {
                let o = var_opening(*seq, payload@, rev_byte as int, *mv_bytes);
                match o.value {
                    Err(e) => r == Err::<DecodedVideoFrameV2, SrsV2Error>(e),
                    Ok(v) => {
                        let st = var_reading(*seq, payload@, v.header, o.next);
                        match job_failure(residuals@, residuals@.len() as int) {
                            Some(e) => r == Err::<DecodedVideoFrameV2, SrsV2Error>(e),
                            None => match st.fault {
                                Some(e) => r == Err::<DecodedVideoFrameV2, SrsV2Error>(e),
                                None => r is Ok && r->Ok_0.frame_index == v.header.frame_index
                                    && r->Ok_0.width == seq.width && r->Ok_0.height == seq.height
                                    && r->Ok_0.is_displayable && r->Ok_0.yuv.format
                                    == PixelFormat::Yuv420p8 && var_planes(
                                    r->Ok_0.yuv,
                                    seq.width as int,
                                    seq.height as int,
                                    *reference,
                                    v,
                                    st.blocks,
                                    residuals@,
                                ) && r->Ok_0.yuv.valid(),
                            },
                        }
                    },
                }
            },
        },
{
    let parse = match parse_p_var_payload(seq, payload, reference, rev_byte, mv_bytes) {
        Err(e) => {
            return Err(e);
        },
        Ok(p) => p,
    };
    match find_job_failure(residuals) {
        Some(e) => {
            return Err(e);
        },
        None => {},
    }
    match parse.fault {
        Some(e) => {
            return Err(e);
        },
        None => {},
    }
    let w: u32 = seq.width;
    let h: u32 = seq.height;
    proof {
        lemma_half_accepted(w as int, h as int);
        assert(h * w == w * h) by (nonlinear_arith);
        assert(((h + 1) / 2) * ((w + 1) / 2) == ((w + 1) / 2) * ((h + 1) / 2)) by (nonlinear_arith);
        assert((w as int / 16) * (h as int / 16) <= 512 * 512) by (nonlinear_arith)
            requires
                0 <= w as int / 16 <= 512,
                0 <= h as int / 16 <= 512,
        ;
    }
    let cw: u32 = (w + 1) / 2;
    let ch: u32 = (h + 1) / 2;
    let mut y_plane = VideoPlane::try_new(w, h, w as usize)?;
    let mut u_plane = VideoPlane::try_new(cw, ch, cw as usize)?;
    let mut v_plane = VideoPlane::try_new(cw, ch, cw as usize)?;
    let cols: usize = (w / 16) as usize;
    let rows: usize = (h / 16) as usize;
    let starts = unit_starts(parse.parts.as_slice());
    fill_var_luma(&mut y_plane, &reference.y, &parse, starts.as_slice(), residuals);
    fill_var_chroma(&mut u_plane, &reference.u, &parse, starts.as_slice(), cols, rows);
    fill_var_chroma(&mut v_plane, &reference.v, &parse, starts.as_slice(), cols, rows);
    Ok(
        DecodedVideoFrameV2 {
            frame_index: parse.header.frame_index,
            width: w,
            height: h,
            is_displayable: true,
            yuv: YuvFrame { format: PixelFormat::Yuv420p8, y: y_plane, u: u_plane, v: v_plane },
        },
    )
}

} // verus!
