//! Writing the sub-blocks of inter macroblocks.
use vstd::prelude::*;

use crate::bytes::{bytes32, push_all, push_u32};
use super::block_aq::{byte_of_delta, delta_byte};
use super::error::SrsV2Error;
use super::frame::VideoPlane;
use super::inter_frame::{mb_residual, quiet, InterMb};
use super::intra_codec::{block_bytes, quantize, quantized_block, write_block, PredMode};

verus! {

/// What became of the residual of one sub-block.
#[derive(Debug, Clone)]
pub enum CodedResidual {
    /// Transform coefficients, to be quantized and written as tuples.
    Coefficients([i16; 64]),
    /// An entropy-coded chunk; `rans` tells which of the two adaptive codings it uses.
    Chunk { bytes: Vec<u8>, rans: bool },
    /// Coding it failed.
    Failed(SrsV2Error),
}

/// The chunk of a sub-block.
pub open spec fn chunk_of(c: CodedResidual, qp: int) -> Seq<u8> {
    match c {
        CodedResidual::Coefficients(f) => block_bytes(PredMode::Dc, quantized_block(f@, qp)),
        CodedResidual::Chunk { bytes, .. } => bytes@,
        CodedResidual::Failed(_) => seq![],
    }
}

/// The sub-blocks that are planned to carry a residual.
pub open spec fn planned_view(v: Seq<Option<[i16; 64]>>) -> Seq<Option<Seq<i16>>> {
    Seq::new(
        v.len(),
        |i: int|
            match v[i] {
                Some(b) => Some(b@),
                None => None,
            },
    )
}

/// The skip bits of the macroblock whose sub-blocks start at `base`: a set bit for each of the
/// first `m` that carries no residual.
pub open spec fn pattern_of(planned: Seq<Option<Seq<i16>>>, base: int, m: int) -> int
    decreases m,
{
    if m <= 0 {
        0
    } else {
        pattern_of(planned, base, m - 1) + (if planned[base + m - 1] is None {
            if m == 1 { 1int } else if m == 2 { 2 } else if m == 3 { 4 } else { 8 }
        } else {
            0
        })
    }
}

/// Skip bits are a number below 16, with bit `i` set where sub-block `i` carries no residual.
pub proof fn lemma_pattern(planned: Seq<Option<Seq<i16>>>, base: int)
    ensures
        0 <= pattern_of(planned, base, 4) < 16,
        forall|i: int|
            0 <= i < 4 ==> #[trigger] super::inter_frame::bit(pattern_of(planned, base, 4), i) == (
            planned[base + i] is None),
{
    reveal_with_fuel(pattern_of, 5);
}

/// The skip bits of a macroblock.
pub fn skip_pattern(planned: &[Option<[i16; 64]>], base: usize) -> (p: u8)
    requires
        base + 4 <= planned@.len(),
    ensures
        p == pattern_of(planned_view(planned@), base as int, 4),
{
    proof {
        reveal_with_fuel(pattern_of, 5);
    }
    let mut p: u8 = 0;
    if planned[base].is_none() {
        p += 1;
    }
    if planned[base + 1].is_none() {
        p += 2;
    }
    if planned[base + 2].is_none() {
        p += 4;
    }
    if planned[base + 3].is_none() {
        p += 8;
    }
    p
}

/// Why the residuals of sub-blocks `base` up to `base + m` could not be coded, if they could not:
/// the first that failed.
pub open spec fn coding_failure(
    planned: Seq<Option<Seq<i16>>>,
    coded: Seq<CodedResidual>,
    base: int,
    m: int,
) -> Option<SrsV2Error>
    decreases m,
{
    if m <= 0 {
        None
    } else {
        match coding_failure(planned, coded, base, m - 1) {
            Some(e) => Some(e),
            None => match coded[base + m - 1] {
                CodedResidual::Failed(e) => if planned[base + m - 1] is Some {
                    Some(e)
                } else {
                    None
                },
                _ => None,
            },
        }
    }
}

proof fn lemma_coding_failure_stays(
    planned: Seq<Option<Seq<i16>>>,
    coded: Seq<CodedResidual>,
    base: int,
    k: int,
    m: int,
)
    requires
        k <= m,
        coding_failure(planned, coded, base, k) is Some,
    ensures
        coding_failure(planned, coded, base, m) == coding_failure(planned, coded, base, k),
    decreases m - k,
{
    if k < m {
        lemma_coding_failure_stays(planned, coded, base, k, m - 1);
    }
}

/// Looks for the first residual of sub-blocks `base` up to `base + m` that could not be coded.
pub fn find_coding_failure(
    planned: &[Option<[i16; 64]>],
    coded: &[CodedResidual],
    base: usize,
    m: usize,
) -> (r: Option<SrsV2Error>)
    requires
        base + m <= planned@.len(),
        coded@.len() == planned@.len(),
    ensures
        r == coding_failure(planned_view(planned@), coded@, base as int, m as int),
{
    let mut i: usize = 0;
    while i < m
        invariant
            i <= m,
            base + m <= planned@.len(),
            coded@.len() == planned@.len(),
            coding_failure(planned_view(planned@), coded@, base as int, i as int) is None,
        decreases m - i,
    {
        if planned[base + i].is_some() {
            match &coded[base + i] {
                CodedResidual::Failed(e) => {
                    proof {
                        lemma_coding_failure_stays(
                            planned_view(planned@),
                            coded@,
                            base as int,
                            i + 1,
                            m as int,
                        );
                    }
                    return Some(*e);
                },
                _ => {},
            }
        }
        i += 1;
    }
    None
}

/// A chunk of sub-block `k` as it stands in a payload: behind its delta, where the sub-blocks have
/// deltas.
pub open spec fn wire_chunk(deltas: Seq<i8>, k: int, c: Seq<u8>) -> Seq<u8> {
    if k < deltas.len() {
        seq![delta_byte(deltas[k])] + c
    } else {
        c
    }
}

/// The framed chunks of sub-blocks `base` up to `base + m`: each preceded by its length; `long`
/// where a length does not fit its field. `deltas` are the deltas of the sub-blocks, if they have
/// any.
pub open spec fn framed_chunks(
    planned: Seq<Option<Seq<i16>>>,
    coded: Seq<CodedResidual>,
    deltas: Seq<i8>,
    qp: int,
    base: int,
    m: int,
    long: SrsV2Error,
) -> Result<Seq<u8>, SrsV2Error>
    decreases m,
{
    if m <= 0 {
        Ok(seq![])
    } else {
        match framed_chunks(planned, coded, deltas, qp, base, m - 1, long) {
            Err(e) => Err(e),
            Ok(before) => if planned[base + m - 1] is None {
                Ok(before)
            } else {
                let c = wire_chunk(deltas, base + m - 1, chunk_of(coded[base + m - 1], qp));
                if c.len() > u32::MAX {
                    Err(long)
                } else {
                    Ok(before + bytes32(c.len() as int) + c)
                }
            },
        }
    }
}

/// The bytes of a coded tuple block are few.
pub proof fn lemma_block_bytes_short(mode: PredMode, freq: Seq<i16>)
    ensures
        block_bytes(mode, freq).len() <= 200,
{
    lemma_ac_tuples_short(freq, 64);
}

proof fn lemma_ac_tuples_short(freq: Seq<i16>, n: int)
    ensures
        super::intra_codec::ac_tuples(freq, n).len() <= 3 * (if n < 0 { 0 } else { n }),
    decreases n,
{
    if n > 1 {
        lemma_ac_tuples_short(freq, n - 1);
    }
}

fn push_framed(out: &mut Vec<u8>, chunk: &[u8], deltas: &[i8], k: usize, long: SrsV2Error) -> (r:
    Result<(), SrsV2Error>)
    ensures
        ({
            let b = wire_chunk(deltas@, k as int, chunk@);
            if b.len() > u32::MAX {
                r == Err::<(), SrsV2Error>(long)
            } else {
                r is Ok && final(out)@ == old(out)@ + bytes32(b.len() as int) + b
            }
        }),
{
    let n: usize = chunk.len();
    if k < deltas.len() {
        if n >= u32::MAX as usize {
            return Err(long);
        }
        push_u32(out, (n + 1) as u32);
        out.push(byte_of_delta(deltas[k]));
        push_all(out, chunk);
        assert(out@ =~= old(out)@ + bytes32(n + 1) + wire_chunk(deltas@, k as int, chunk@));
    } else {
        if n > u32::MAX as usize {
            return Err(long);
        }
        push_u32(out, n as u32);
        push_all(out, chunk);
    }
    Ok(())
}

fn push_chunk(
    out: &mut Vec<u8>,
    c: &CodedResidual,
    deltas: &[i8],
    k: usize,
    qp: i16,
    long: SrsV2Error,
) -> (r: Result<(), SrsV2Error>)
    ensures
        ({
            let b = wire_chunk(deltas@, k as int, chunk_of(*c, qp as int));
            if b.len() > u32::MAX {
                r == Err::<(), SrsV2Error>(long)
            } else {
                r is Ok && final(out)@ == old(out)@ + bytes32(b.len() as int) + b
            }
        }),
{
    match c {
        CodedResidual::Coefficients(f) => {
            let levels = quantize(f, qp);
            let mut chunk: Vec<u8> = Vec::new();
            proof {
                lemma_block_bytes_short(PredMode::Dc, levels@);
            }
            match write_block(PredMode::Dc, &levels, &mut chunk) {
                Err(e) => {
                    assert(chunk@ =~= block_bytes(PredMode::Dc, levels@));
                    return Err(e);
                },
                Ok(_) => {},
            }
            assert(chunk@ =~= block_bytes(PredMode::Dc, levels@));
            push_framed(out, chunk.as_slice(), deltas, k, long)
        },
        CodedResidual::Chunk { bytes, .. } => push_framed(out, bytes.as_slice(), deltas, k, long),
        CodedResidual::Failed(_) => {
            let chunk: Vec<u8> = Vec::new();
            assert(chunk@ =~= seq![]);
            push_framed(out, chunk.as_slice(), deltas, k, long)
        },
    }
}

proof fn lemma_framed_error(
    planned: Seq<Option<Seq<i16>>>,
    coded: Seq<CodedResidual>,
    deltas: Seq<i8>,
    qp: int,
    base: int,
    k: int,
    m: int,
    long: SrsV2Error,
)
    requires
        k <= m,
        framed_chunks(planned, coded, deltas, qp, base, k, long) is Err,
    ensures
        framed_chunks(planned, coded, deltas, qp, base, m, long) == framed_chunks(
            planned,
            coded,
            deltas,
            qp,
            base,
            k,
            long,
        ),
    decreases m - k,
{
    if k < m {
        lemma_framed_error(planned, coded, deltas, qp, base, k, m - 1, long);
    }
}

/// Appends the framed chunks of a macroblock.
pub fn append_chunks(
    out: &mut Vec<u8>,
    planned: &[Option<[i16; 64]>],
    coded: &[CodedResidual],
    deltas: &[i8],
    qp: i16,
    base: usize,
    long: SrsV2Error,
) -> (r: Result<(), SrsV2Error>)
    requires
        base + 4 <= planned@.len(),
        coded@.len() == planned@.len(),
    ensures
        match framed_chunks(
            planned_view(planned@),
            coded@,
            deltas@,
            qp as int,
            base as int,
            4,
            long,
        ) {
            Err(e) => r == Err::<(), SrsV2Error>(e),
            Ok(b) => r is Ok && final(out)@ == old(out)@ + b,
        },
{
    let ghost p = planned_view(planned@);
    let count: usize = planned.len();
    let mut i: usize = 0;
    assert(out@ =~= old(out)@ + Seq::<u8>::empty());
    while i < 4
        invariant
            i <= 4,
            base + 4 <= count,
            count == planned@.len(),
            coded@.len() == planned@.len(),
            p == planned_view(planned@),
            framed_chunks(p, coded@, deltas@, qp as int, base as int, i as int, long) is Ok,
            out@ == old(out)@ + framed_chunks(
                p,
                coded@,
                deltas@,
                qp as int,
                base as int,
                i as int,
                long,
            )->Ok_0,
        decreases 4 - i,
    {
        if planned[base + i].is_some() {
            match push_chunk(out, &coded[base + i], deltas, base + i, qp, long) {
                Err(e) => {
                    proof {
                        lemma_framed_error(
                            p,
                            coded@,
                            deltas@,
                            qp as int,
                            base as int,
                            i + 1,
                            4,
                            long,
                        );
                    }
                    return Err(e);
                },
                Ok(_) => {
                    assert(out@ =~= old(out)@ + framed_chunks(
                        p,
                        coded@,
                        deltas@,
                        qp as int,
                        base as int,
                        i + 1,
                        long,
                    )->Ok_0);
                },
            }
        }
        i += 1;
    }
    Ok(())
}

/// Left column of sub-block `k` of a picture with `cols` macroblocks in a row.
pub open spec fn sub_x(cols: int, k: int) -> int {
    k / 4 % cols * 16 + k % 4 % 2 * 8
}

/// Top row of sub-block `k`.
pub open spec fn sub_y(cols: int, k: int) -> int {
    k / 4 / cols * 16 + k % 4 / 2 * 8
}

/// What sub-block `k` is planned to carry: nothing where skipping is allowed and its differences
/// are small, else its differences.
pub open spec fn planned_block(
    mb: InterMb,
    cur: VideoPlane<u8>,
    a: VideoPlane<u8>,
    b: VideoPlane<u8>,
    cols: int,
    allow_skip: bool,
    k: int,
) -> Option<Seq<i16>> {
    let d = mb_residual(mb, cur, a, b, sub_x(cols, k), sub_y(cols, k));
    if allow_skip && quiet(d) {
        None
    } else {
        Some(d)
    }
}

/// What the sub-blocks of a picture are planned to carry.
pub open spec fn planned_blocks(
    mbs: Seq<InterMb>,
    cur: VideoPlane<u8>,
    a: VideoPlane<u8>,
    b: VideoPlane<u8>,
    cols: int,
    allow_skip: bool,
) -> Seq<Option<Seq<i16>>> {
    Seq::new(
        4 * mbs.len(),
        |k: int| planned_block(mbs[k / 4], cur, a, b, cols, allow_skip, k),
    )
}

/// Plans one sub-block.
pub fn plan_block(
    mb: &InterMb,
    cur: &VideoPlane<u8>,
    a: &VideoPlane<u8>,
    b: &VideoPlane<u8>,
    cols: usize,
    rows: usize,
    allow_skip: bool,
    k: usize,
) -> (r: Option<[i16; 64]>)
    requires
        mb.wf(),
        cur.valid(),
        a.valid(),
        b.valid(),
        cols * 16 <= cur.width,
        rows * 16 <= cur.height,
        k < 4 * (cols * rows),
    ensures
        match planned_block(*mb, *cur, *a, *b, cols as int, allow_skip, k as int) {
            None => r is None,
            Some(d) => r is Some && r->Some_0@ == d,
        },
{
    assert(cols > 0) by (nonlinear_arith)
        requires
            0 < 4 * (cols * rows),
            cols >= 0,
    ;
    proof {
        super::frame::lemma_packed_position(k as int / 4, cols as int, rows as int);
    }
    let mb_index: usize = k / 4;
    let ox: usize = mb_index % cols * 16 + k % 4 % 2 * 8;
    let oy: usize = mb_index / cols * 16 + k % 4 / 2 * 8;
    let (d, calm) = mb.difference_block(cur, a, b, ox, oy);
    if allow_skip && calm {
        None
    } else {
        Some(d)
    }
}

} // verus!
