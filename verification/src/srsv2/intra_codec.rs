//! Intra coding of 8x8 blocks with explicit coefficient tuples.
use vstd::prelude::*;

use crate::arith::{lemma_total_equal, magnitude, total};
use crate::bytes::{bytes16, clip, le16, push_all, push_i16, push_u16, signed16, tdiv, unsigned16};
use super::dct::{zigzag_entries, zigzag_visits_every_position, ZIGZAG, ZIGZAG_PLACE};
use super::error::SrsV2Error;
use super::limits::MAX_FRAME_PAYLOAD_BYTES;
use super::reader::{read_i16, read_u16_le, read_u8, take_i16, take_u16, take_u8, Read};

verus! {

/// Spatial prediction of a block.
#[derive(Debug, Clone, Copy, PartialEq, Eq, Structural)]
pub enum PredMode {
    Dc,
    Horizontal,
    Vertical,
    Planar,
    Diagonal,
}

/// The wire code of a prediction mode.
pub open spec fn mode_code(m: PredMode) -> u8 {
    match m {
        PredMode::Dc => 0,
        PredMode::Horizontal => 1,
        PredMode::Vertical => 2,
        PredMode::Planar => 3,
        PredMode::Diagonal => 4,
    }
}

/// The prediction mode with a wire code.
pub open spec fn mode_of(v: int) -> PredMode {
    if v == 0 {
        PredMode::Dc
    } else if v == 1 {
        PredMode::Horizontal
    } else if v == 2 {
        PredMode::Vertical
    } else if v == 3 {
        PredMode::Planar
    } else {
        PredMode::Diagonal
    }
}

impl PredMode {
    pub fn from_u8(v: u8) -> (r: Result<Self, SrsV2Error>)
        ensures
            v <= 4 ==> r == Ok::<Self, SrsV2Error>(mode_of(v as int)) && mode_code(r->Ok_0) == v,
            v > 4 ==> r == Err::<Self, SrsV2Error>(SrsV2Error::Syntax("bad intra mode")),
    {
        match v {
            0 => Ok(PredMode::Dc),
            1 => Ok(PredMode::Horizontal),
            2 => Ok(PredMode::Vertical),
            3 => Ok(PredMode::Planar),
            4 => Ok(PredMode::Diagonal),
            _ => Err(SrsV2Error::Syntax("bad intra mode")),
        }
    }

    pub fn to_u8(self) -> (v: u8)
        ensures
            v == mode_code(self),
            v <= 4,
            mode_of(v as int) == self,
    {
        match self {
            PredMode::Dc => 0,
            PredMode::Horizontal => 1,
            PredMode::Vertical => 2,
            PredMode::Planar => 3,
            PredMode::Diagonal => 4,
        }
    }
}

/// The reconstructed sample in column `x` of row `y`, with 128 outside of the `pw` by `ph` area.
pub open spec fn rec_at(rec: Seq<u8>, pw: int, ph: int, x: int, y: int) -> int {
    if x < 0 || y < 0 || x >= pw || y >= ph {
        128
    } else {
        rec[y * pw + x] as int
    }
}

/// The sum of the first `n` samples above and to the left of a block.
pub open spec fn edge_sum(rec: Seq<u8>, pw: int, ph: int, bx: int, by: int, n: int) -> int
    decreases n,
{
    if n <= 0 {
        0
    } else {
        edge_sum(rec, pw, ph, bx, by, n - 1) + rec_at(rec, pw, ph, bx * 8 + n - 1, by * 8 - 1)
            + rec_at(rec, pw, ph, bx * 8 - 1, by * 8 + n - 1)
    }
}

/// The predicted sample in column `c` of row `r` of block (`bx`, `by`).
pub open spec fn predicted_at(
    mode: PredMode,
    rec: Seq<u8>,
    pw: int,
    ph: int,
    bx: int,
    by: int,
    r: int,
    c: int,
) -> int {
    let top = rec_at(rec, pw, ph, bx * 8 + c, by * 8 - 1);
    let left = rec_at(rec, pw, ph, bx * 8 - 1, by * 8 + r);
    let corner = rec_at(rec, pw, ph, bx * 8 - 1, by * 8 - 1);
    match mode {
        PredMode::Dc => edge_sum(rec, pw, ph, bx, by, 8) / 16,
        PredMode::Horizontal => left,
        PredMode::Vertical => top,
        PredMode::Planar => (top + left) / 2,
        PredMode::Diagonal => clip(top + left - corner, 0, 255),
    }
}

/// The predicted block, row by row.
pub open spec fn prediction(
    mode: PredMode,
    rec: Seq<u8>,
    pw: int,
    ph: int,
    bx: int,
    by: int,
) -> Seq<i16> {
    Seq::new(64, |i: int| predicted_at(mode, rec, pw, ph, bx, by, i / 8, i % 8) as i16)
}

/// The area is made of whole blocks, holds all its samples, and the block lies in it.
pub open spec fn block_fits(rec: Seq<u8>, pw: int, ph: int, bx: int, by: int) -> bool {
    &&& 0 <= pw <= 16384
    &&& 0 <= ph <= 16384
    &&& rec.len() == pw * ph
    &&& 0 <= bx
    &&& 0 <= by
    &&& bx * 8 + 8 <= pw
    &&& by * 8 + 8 <= ph
}

proof fn lemma_inside(x: int, y: int, pw: int, ph: int)
    requires
        0 <= x < pw,
        0 <= y < ph,
    ensures
        0 <= y * pw + x < pw * ph,
        0 <= y * pw <= pw * ph,
{
    super::frame::lemma_packed_at(x, y, pw, ph);
    assert(0 <= y * pw) by (nonlinear_arith)
        requires
            0 <= y,
            0 <= pw,
    ;
}

proof fn lemma_area(pw: int, ph: int)
    requires
        0 <= pw <= 16384,
        0 <= ph <= 16384,
    ensures
        0 <= pw * ph <= 268435456,
{
    assert(0 <= pw * ph <= 16384 * 16384) by (nonlinear_arith)
        requires
            0 <= pw <= 16384,
            0 <= ph <= 16384,
    ;
}

fn sample(rec: &[u8], pw: usize, ph: usize, x: i32, y: i32) -> (v: i16)
    requires
        pw <= 16384,
        ph <= 16384,
        rec@.len() == pw * ph,
    ensures
        v == rec_at(rec@, pw as int, ph as int, x as int, y as int),
        0 <= v <= 255,
{
    if x < 0 || y < 0 || x >= pw as i32 || y >= ph as i32 {
        128
    } else {
        proof {
            lemma_inside(x as int, y as int, pw as int, ph as int);
            lemma_area(pw as int, ph as int);
        }
        rec[y as usize * pw + x as usize] as i16
    }
}

/// Predicts one block from the samples above and to its left.
pub fn predict_block(
    mode: PredMode,
    rec: &[u8],
    pw: usize,
    ph: usize,
    bx: usize,
    by: usize,
) -> (p: [i16; 64])
    requires
        block_fits(rec@, pw as int, ph as int, bx as int, by as int),
    ensures
        p@ == prediction(mode, rec@, pw as int, ph as int, bx as int, by as int),
        forall|i: int| 0 <= i < 64 ==> 0 <= #[trigger] p@[i] <= 255,
{
    let sx: i32 = (bx * 8) as i32;
    let sy: i32 = (by * 8) as i32;
    let mut sum: i32 = 0;
    let mut k: i32 = 0;
    while k < 8
        invariant
            0 <= k <= 8,
            block_fits(rec@, pw as int, ph as int, bx as int, by as int),
            sx == bx * 8,
            sy == by * 8,
            sum == edge_sum(rec@, pw as int, ph as int, bx as int, by as int, k as int),
            0 <= sum <= 510 * k,
        decreases 8 - k,
    {
        sum = sum + sample(rec, pw, ph, sx + k, sy - 1) as i32 + sample(
            rec,
            pw,
            ph,
            sx - 1,
            sy + k,
        ) as i32;
        k += 1;
    }
    let dc: i16 = (sum / 16) as i16;
    let corner: i16 = sample(rec, pw, ph, sx - 1, sy - 1);
    let mut p: [i16; 64] = [0i16; 64];
    let mut i: usize = 0;
    while i < 64
        invariant
            i <= 64,
            block_fits(rec@, pw as int, ph as int, bx as int, by as int),
            sx == bx * 8,
            sy == by * 8,
            dc == edge_sum(rec@, pw as int, ph as int, bx as int, by as int, 8) / 16,
            0 <= dc <= 255,
            corner == rec_at(rec@, pw as int, ph as int, bx * 8 - 1, by * 8 - 1),
            0 <= corner <= 255,
            forall|j: int|
                0 <= j < i ==> #[trigger] p@[j] == predicted_at(
                    mode,
                    rec@,
                    pw as int,
                    ph as int,
                    bx as int,
                    by as int,
                    j / 8,
                    j % 8,
                ) && 0 <= p@[j] <= 255,
        decreases 64 - i,
    {
        let r: i32 = (i / 8) as i32;
        let c: i32 = (i % 8) as i32;
        let top: i16 = sample(rec, pw, ph, sx + c, sy - 1);
        let left: i16 = sample(rec, pw, ph, sx - 1, sy + r);
        p[i] = match mode {
            PredMode::Dc => dc,
            PredMode::Horizontal => left,
            PredMode::Vertical => top,
            PredMode::Planar => (top + left) / 2,
            PredMode::Diagonal => {
                let x: i16 = top + left - corner;
                if x < 0 {
                    0
                } else if x > 255 {
                    255
                } else {
                    x
                }
            },
        };
        i += 1;
    }
    assert(p@ =~= prediction(mode, rec@, pw as int, ph as int, bx as int, by as int));
    p
}

/// The sum of absolute differences of the first `n` samples of two blocks.
pub open spec fn block_distance(a: Seq<i16>, b: Seq<i16>, n: int) -> int
    decreases n,
{
    if n <= 0 {
        0
    } else {
        block_distance(a, b, n - 1) + crate::arith::magnitude(a[n - 1] - b[n - 1])
    }
}

fn satd_mode(orig: &[i16; 64], pred: &[i16; 64]) -> (s: i32)
    requires
        forall|i: int| 0 <= i < 64 ==> 0 <= #[trigger] orig@[i] <= 255,
        forall|i: int| 0 <= i < 64 ==> 0 <= #[trigger] pred@[i] <= 255,
    ensures
        s == block_distance(orig@, pred@, 64),
        0 <= s <= 16320,
{
    let mut s: i32 = 0;
    let mut i: usize = 0;
    while i < 64
        invariant
            i <= 64,
            forall|j: int| 0 <= j < 64 ==> 0 <= #[trigger] orig@[j] <= 255,
            forall|j: int| 0 <= j < 64 ==> 0 <= #[trigger] pred@[j] <= 255,
            s == block_distance(orig@, pred@, i as int),
            0 <= s <= 255 * i,
        decreases 64 - i,
    {
        let d: i16 = orig[i] - pred[i];
        s = s + (if d < 0 { -d } else { d }) as i32;
        i += 1;
    }
    s
}

/// The wire code of the best of the first `n` modes for a block: the first with the least
/// distance from the source samples.
pub open spec fn best_mode(
    rec: Seq<u8>,
    pw: int,
    ph: int,
    bx: int,
    by: int,
    orig: Seq<i16>,
    n: int,
) -> int
    decreases n,
{
    if n <= 1 {
        0
    } else {
        let b = best_mode(rec, pw, ph, bx, by, orig, n - 1);
        if block_distance(orig, prediction(mode_of(n - 1), rec, pw, ph, bx, by), 64)
            < block_distance(orig, prediction(mode_of(b), rec, pw, ph, bx, by), 64) {
            n - 1
        } else {
            b
        }
    }
}

/// The mode that a block is coded with.
pub open spec fn chosen_mode(
    rec: Seq<u8>,
    pw: int,
    ph: int,
    bx: int,
    by: int,
    orig: Seq<i16>,
) -> PredMode {
    mode_of(best_mode(rec, pw, ph, bx, by, orig, 5))
}

/// Picks the prediction mode of a block.
pub fn pick_mode(
    rec: &[u8],
    pw: usize,
    ph: usize,
    bx: usize,
    by: usize,
    orig: &[i16; 64],
) -> (m: PredMode)
    requires
        block_fits(rec@, pw as int, ph as int, bx as int, by as int),
        forall|i: int| 0 <= i < 64 ==> 0 <= #[trigger] orig@[i] <= 255,
    ensures
        m == chosen_mode(rec@, pw as int, ph as int, bx as int, by as int, orig@),
{
    let first = predict_block(PredMode::Dc, rec, pw, ph, bx, by);
    let mut best_satd: i32 = satd_mode(orig, &first);
    let mut best = PredMode::Dc;
    let mut code: u8 = 1;
    while code < 5
        invariant
            1 <= code <= 5,
            block_fits(rec@, pw as int, ph as int, bx as int, by as int),
            forall|i: int| 0 <= i < 64 ==> 0 <= #[trigger] orig@[i] <= 255,
            best == mode_of(
                best_mode(rec@, pw as int, ph as int, bx as int, by as int, orig@, code as int),
            ),
            best_satd == block_distance(
                orig@,
                prediction(best, rec@, pw as int, ph as int, bx as int, by as int),
                64,
            ),
        decreases 5 - code,
    {
        let m = match PredMode::from_u8(code) {
            Ok(m) => m,
            Err(_) => PredMode::Dc,
        };
        let pred = predict_block(m, rec, pw, ph, bx, by);
        let satd: i32 = satd_mode(orig, &pred);
        if satd < best_satd {
            best_satd = satd;
            best = m;
        }
        code += 1;
    }
    best
}

/// The quantizer step of a QP.
pub open spec fn step_of(qp: int) -> int {
    crate::arith::greatest(qp, 1)
}

pub open spec fn sign_of(v: int) -> int {
    if v > 0 {
        1
    } else if v < 0 {
        -1
    } else {
        0
    }
}

/// A coefficient over the step, rounded half away from zero (for even steps).
pub open spec fn quantized(v: int, qp: int) -> int {
    clip(tdiv(v + step_of(qp) / 2 * sign_of(v), step_of(qp)), -32768, 32767)
}

/// A level times the step, held in 16 bits.
pub open spec fn dequantized(v: int, qp: int) -> int {
    clip(v * step_of(qp), -32768, 32767)
}

fn quantize_one(v: i16, qp: i16) -> (r: i16)
    ensures
        r == quantized(v as int, qp as int),
{
    let q: i32 = if qp < 1 { 1 } else { qp as i32 };
    let half: i32 = q / 2;
    let w: i32 = if v > 0 {
        v as i32 + half
    } else if v < 0 {
        v as i32 - half
    } else {
        0
    };
    assert(w == v + step_of(qp as int) / 2 * sign_of(v as int)) by {
        let h = step_of(qp as int) / 2;
        assert(h * 1 == h && h * (-1) == -h && h * 0 == 0);
    }
    let t: i32 = w / q;
    if t < -32768 {
        -32768
    } else if t > 32767 {
        32767
    } else {
        t as i16
    }
}

fn dequantize_one(v: i16, qp: i16) -> (r: i16)
    ensures
        r == dequantized(v as int, qp as int),
{
    let q: i32 = if qp < 1 { 1 } else { qp as i32 };
    assert(-1073741824 <= v * q <= 1073741824) by (nonlinear_arith)
        requires
            -32768 <= v <= 32767,
            1 <= q <= 32767,
    ;
    let t: i32 = v as i32 * q;
    if t < -32768 {
        -32768
    } else if t > 32767 {
        32767
    } else {
        t as i16
    }
}

/// The levels of a coefficient block.
pub open spec fn quantized_block(b: Seq<i16>, qp: int) -> Seq<i16> {
    Seq::new(b.len(), |i: int| quantized(b[i] as int, qp) as i16)
}

/// The coefficients of a level block.
pub open spec fn dequantized_block(b: Seq<i16>, qp: int) -> Seq<i16> {
    Seq::new(b.len(), |i: int| dequantized(b[i] as int, qp) as i16)
}

pub fn quantize(block: &[i16; 64], qp: i16) -> (o: [i16; 64])
    ensures
        o@ == quantized_block(block@, qp as int),
{
    let mut o: [i16; 64] = [0i16; 64];
    let mut i: usize = 0;
    while i < 64
        invariant
            i <= 64,
            forall|j: int| 0 <= j < i ==> o@[j] == quantized(block@[j] as int, qp as int),
        decreases 64 - i,
    {
        o[i] = quantize_one(block[i], qp);
        i += 1;
    }
    assert(o@ =~= quantized_block(block@, qp as int));
    o
}

pub fn dequantize(block: &[i16; 64], qp: i16) -> (o: [i16; 64])
    ensures
        o@ == dequantized_block(block@, qp as int),
{
    let mut o: [i16; 64] = [0i16; 64];
    let mut i: usize = 0;
    while i < 64
        invariant
            i <= 64,
            forall|j: int| 0 <= j < i ==> o@[j] == dequantized(block@[j] as int, qp as int),
        decreases 64 - i,
    {
        o[i] = dequantize_one(block[i], qp);
        i += 1;
    }
    assert(o@ =~= dequantized_block(block@, qp as int));
    o
}

pub fn quantize_4x4(block: &[i16; 16], qp: i16) -> (o: [i16; 16])
    ensures
        o@ == quantized_block(block@, qp as int),
{
    let mut o: [i16; 16] = [0i16; 16];
    let mut i: usize = 0;
    while i < 16
        invariant
            i <= 16,
            forall|j: int| 0 <= j < i ==> o@[j] == quantized(block@[j] as int, qp as int),
        decreases 16 - i,
    {
        o[i] = quantize_one(block[i], qp);
        i += 1;
    }
    assert(o@ =~= quantized_block(block@, qp as int));
    o
}

pub fn dequantize_4x4(block: &[i16; 16], qp: i16) -> (o: [i16; 16])
    ensures
        o@ == dequantized_block(block@, qp as int),
{
    let mut o: [i16; 16] = [0i16; 16];
    let mut i: usize = 0;
    while i < 16
        invariant
            i <= 16,
            forall|j: int| 0 <= j < i ==> o@[j] == dequantized(block@[j] as int, qp as int),
        decreases 16 - i,
    {
        o[i] = dequantize_one(block[i], qp);
        i += 1;
    }
    assert(o@ =~= dequantized_block(block@, qp as int));
    o
}

/// Quantization and its inverse differ by at most half a step, wherever the level times the step
/// stays in 16 bits.
pub proof fn quantization_error_is_half_a_step(v: i16, qp: int)
    requires
        1 <= qp <= 32767,
        -32768 <= quantized(v as int, qp) * qp <= 32767,
    ensures
        crate::arith::magnitude(dequantized(quantized(v as int, qp), qp) - v) <= qp / 2,
{
    let h = qp / 2;
    let s = step_of(qp);
    assert(s == qp);
    assert(h * 1 == h && h * (-1) == -h && h * 0 == 0);
    let w = v + h * sign_of(v as int);
    let m = if w >= 0 { w } else { -w };
    let t = m / qp;
    assert(m == t * qp + m % qp && 0 <= m % qp < qp && 0 <= t <= m) by (nonlinear_arith)
        requires
            0 <= m,
            1 <= qp,
            t == m / qp,
    ;
    assert((-t) * qp == -(t * qp)) by (nonlinear_arith);
    assert(qp - 1 - h <= h);
    if qp == 1 {
        assert(h == 0);
        assert(t * 1 == t);
        assert(m % 1 == 0);
        assert(t == m);
    }
    assert(m <= 32768 + h);
    if qp >= 2 {
        assert(t <= 32767) by (nonlinear_arith)
            requires
                t == m / qp,
                qp >= 2,
                0 <= m <= 32768 + qp / 2,
                qp <= 32767,
        ;
    }
}

/// The tuples of the coefficients at the first `n` places of the scan: position and value of each
/// that is not 0, without the one at position 0.
pub open spec fn ac_tuples(freq: Seq<i16>, n: int) -> Seq<u8>
    decreases n,
{
    if n <= 1 {
        seq![]
    } else {
        let k = ZIGZAG@[n - 1] as int;
        if freq[k] != 0 {
            ac_tuples(freq, n - 1) + seq![k as u8] + bytes16(unsigned16(freq[k] as int))
        } else {
            ac_tuples(freq, n - 1)
        }
    }
}

/// How many tuples those are.
pub open spec fn ac_count(freq: Seq<i16>, n: int) -> int
    decreases n,
{
    if n <= 1 {
        0
    } else {
        ac_count(freq, n - 1) + (if freq[ZIGZAG@[n - 1] as int] != 0 { 1int } else { 0 })
    }
}

/// The bytes of a coded block: mode, first coefficient, tuple count, tuples.
pub open spec fn block_bytes(mode: PredMode, freq: Seq<i16>) -> Seq<u8> {
    seq![mode_code(mode)] + bytes16(unsigned16(freq[0] as int)) + bytes16(ac_count(freq, 64))
        + ac_tuples(freq, 64)
}

/// Appends a coded block.
pub fn write_block(mode: PredMode, freq: &[i16; 64], out: &mut Vec<u8>) -> (r: Result<
    (),
    SrsV2Error,
>)
    ensures
        final(out)@ == old(out)@ + block_bytes(mode, freq@),
        r == if final(out)@.len() > MAX_FRAME_PAYLOAD_BYTES {
            Err::<(), SrsV2Error>(SrsV2Error::AllocationLimit { context: "plane bitstream" })
        } else {
            Ok::<(), SrsV2Error>(())
        },
{
    let ghost start = out@;
    out.push(mode.to_u8());
    push_i16(out, freq[0]);
    let mut pairs: u16 = 0;
    let mut tmp: Vec<u8> = Vec::new();
    let mut zi: usize = 1;
    while zi < 64
        invariant
            1 <= zi <= 64,
            tmp@ == ac_tuples(freq@, zi as int),
            pairs == ac_count(freq@, zi as int),
            pairs < zi,
        decreases 64 - zi,
    {
        proof {
            zigzag_entries(zi as int);
        }
        let k: usize = ZIGZAG[zi];
        let v: i16 = freq[k];
        if v != 0 {
            tmp.push(k as u8);
            push_i16(&mut tmp, v);
            pairs = pairs + 1;
            assert(tmp@ =~= ac_tuples(freq@, zi as int) + seq![k as u8] + bytes16(
                unsigned16(v as int),
            ));
        }
        zi += 1;
    }
    push_u16(out, pairs);
    push_all(out, tmp.as_slice());
    assert(out@ =~= start + block_bytes(mode, freq@));
    if out.len() > MAX_FRAME_PAYLOAD_BYTES {
        return Err(SrsV2Error::AllocationLimit { context: "plane bitstream" });
    }
    Ok(())
}

/// What reading `n` coefficient tuples onto `freq` gives.
pub open spec fn read_tuples(data: Seq<u8>, cur: int, freq: Seq<i16>, n: int) -> Read<Seq<i16>>
    decreases n,
{
    if n <= 0 {
        Read { value: Ok(freq), next: cur }
    } else {
        let p = take_u8(data, cur);
        match p.value {
            Err(e) => Read { value: Err(e), next: p.next },
            Ok(pos) => if pos == 0 || pos > 63 {
                Read { value: Err(SrsV2Error::Syntax("bad coeff index")), next: p.next }
            } else {
                let v = take_i16(data, p.next);
                match v.value {
                    Err(e) => Read { value: Err(e), next: v.next },
                    Ok(w) => read_tuples(data, v.next, freq.update(pos, w as i16), n - 1),
                }
            },
        }
    }
}

/// A coded block: its mode and its 64 levels.
pub open spec fn read_block_at(data: Seq<u8>, cur: int) -> Read<(PredMode, Seq<i16>)> {
    let m = take_u8(data, cur);
    match m.value {
        Err(e) => Read { value: Err(e), next: m.next },
        Ok(code) => if code > 4 {
            Read { value: Err(SrsV2Error::Syntax("bad intra mode")), next: m.next }
        } else {
            let d = take_i16(data, m.next);
            match d.value {
                Err(e) => Read { value: Err(e), next: d.next },
                Ok(dc) => {
                    let p = take_u16(data, d.next);
                    match p.value {
                        Err(e) => Read { value: Err(e), next: p.next },
                        Ok(pairs) => if pairs > 63 {
                            Read {
                                value: Err(SrsV2Error::Syntax("ac pairs overflow")),
                                next: p.next,
                            }
                        } else {
                            let t = read_tuples(
                                data,
                                p.next,
                                no_levels().update(0, dc as i16),
                                pairs,
                            );
                            match t.value {
                                Err(e) => Read { value: Err(e), next: t.next },
                                Ok(freq) => Read { value: Ok((mode_of(code), freq)), next: t.next },
                            }
                        },
                    }
                },
            }
        },
    }
}

/// A block whose levels are all 0.
pub open spec fn no_levels() -> Seq<i16> {
    Seq::new(64, |i: int| 0i16)
}

/// Reads a coded block.
pub fn read_block(data: &[u8], cursor: &mut usize) -> (r: Result<(PredMode, [i16; 64]), SrsV2Error>)
    ensures
        ({
            let s = read_block_at(data@, *old(cursor) as int);
            &&& *final(cursor) == s.next
            &&& *old(cursor) <= *final(cursor)
            &&& match s.value {
                Ok(b) => r is Ok && r->Ok_0.0 == b.0 && r->Ok_0.1@ == b.1 && *final(cursor)
                    <= data@.len(),
                Err(e) => r == Err::<(PredMode, [i16; 64]), SrsV2Error>(e),
            }
        }),
{
    let mode_b: u8 = match read_u8(data, cursor) {
        Ok(v) => v,
        Err(e) => {
            return Err(e);
        },
    };
    let mode = match PredMode::from_u8(mode_b) {
        Ok(m) => m,
        Err(e) => {
            return Err(e);
        },
    };
    let mut freq: [i16; 64] = [0i16; 64];
    let dc: i16 = match read_i16(data, cursor) {
        Ok(v) => v,
        Err(e) => {
            return Err(e);
        },
    };
    freq[0] = dc;
    assert(freq@ =~= no_levels().update(0, dc));
    let pairs: u16 = match read_u16_le(data, cursor) {
        Ok(v) => v,
        Err(e) => {
            return Err(e);
        },
    };
    if pairs > 63 {
        return Err(SrsV2Error::Syntax("ac pairs overflow"));
    }
    let ghost c1 = *cursor as int;
    let ghost all = read_tuples(data@, c1, freq@, pairs as int);
    let ghost f1 = freq@;
    let mut n: u16 = pairs;
    while n > 0
        invariant
            n <= pairs <= 63,
            c1 <= *cursor <= data@.len(),
            all == read_tuples(data@, c1, f1, pairs as int),
            all == read_tuples(data@, *cursor as int, freq@, n as int),
            ({
                let s = read_block_at(data@, *old(cursor) as int);
                &&& match all.value {
                    Ok(f) => s.value == Ok::<(PredMode, Seq<i16>), SrsV2Error>((mode, f)),
                    Err(e) => s.value == Err::<(PredMode, Seq<i16>), SrsV2Error>(e),
                }
                &&& s.next == all.next
            }),
            *old(cursor) <= c1,
        decreases n,
    {
        let pos: usize = match read_u8(data, cursor) {
            Ok(v) => v as usize,
            Err(e) => {
                return Err(e);
            },
        };
        if pos == 0 || pos > 63 {
            return Err(SrsV2Error::Syntax("bad coeff index"));
        }
        let v: i16 = match read_i16(data, cursor) {
            Ok(v) => v,
            Err(e) => {
                return Err(e);
            },
        };
        freq[pos] = v;
        n -= 1;
    }
    Ok((mode, freq))
}

/// `f` agrees with `freq` at position 0 and at every position that the first `n` places of the
/// scan hold, and is 0 elsewhere.
spec fn levels_so_far(freq: Seq<i16>, f: Seq<i16>, n: int) -> bool {
    &&& f.len() == 64
    &&& forall|p: int|
        0 <= p < 64 ==> #[trigger] f[p] == if p == 0 || ZIGZAG_PLACE@[p] < n {
            freq[p]
        } else {
            0i16
        }
}

proof fn lemma_tuples_tail(freq: Seq<i16>, k: int, n: int) -> (rest: Seq<u8>)
    requires
        1 <= k <= n <= 64,
    ensures
        ac_tuples(freq, n) == ac_tuples(freq, k) + rest,
        ac_count(freq, k) <= ac_count(freq, n) <= n - 1,
    decreases n,
{
    if k == n {
        assert(ac_tuples(freq, n) =~= ac_tuples(freq, k) + Seq::<u8>::empty());
        if n > 1 {
            let r = lemma_tuples_tail(freq, k - 1, n - 1);
        }
        Seq::empty()
    } else {
        let r = lemma_tuples_tail(freq, k, n - 1);
        let z = ZIGZAG@[n - 1] as int;
        if freq[z] != 0 {
            let t = seq![z as u8] + bytes16(unsigned16(freq[z] as int));
            assert(ac_tuples(freq, n) =~= ac_tuples(freq, k) + (r + t));
            r + t
        } else {
            r
        }
    }
}

proof fn lemma_read_tuples(pre: Seq<u8>, freq: Seq<i16>, post: Seq<u8>, k: int, f: Seq<i16>)
    requires
        freq.len() == 64,
        1 <= k <= 64,
        levels_so_far(freq, f, k),
    ensures
        read_tuples(
            pre + ac_tuples(freq, 64) + post,
            (pre.len() + ac_tuples(freq, k).len()) as int,
            f,
            ac_count(freq, 64) - ac_count(freq, k),
        ) == (Read::<Seq<i16>> {
            value: Ok(freq),
            next: (pre.len() + ac_tuples(freq, 64).len()) as int,
        }),
    decreases 64 - k,
{
    let s = pre + ac_tuples(freq, 64) + post;
    let c = (pre.len() + ac_tuples(freq, k).len()) as int;
    assert forall|p: int| 0 <= p < 64 implies 0 <= #[trigger] ZIGZAG_PLACE@[p] < 64
        && ZIGZAG@[ZIGZAG_PLACE@[p] as int] == p by {
        zigzag_visits_every_position(p);
    }
    if k == 64 {
        assert(f =~= freq);
    } else {
        zigzag_entries(k);
        let z = ZIGZAG@[k] as int;
        assert(0 < z < 64);
        let rest = lemma_tuples_tail(freq, k + 1, 64);
        if freq[z] != 0 {
            let v = freq[z];
            let w = bytes16(unsigned16(v as int));
            let t = seq![z as u8] + w;
            assert(ac_tuples(freq, k + 1) == ac_tuples(freq, k) + seq![z as u8] + w);
            assert(s =~= (pre + ac_tuples(freq, k)) + t + (rest + post));
            assert(s[c] == z as u8);
            assert(s[c + 1] == w[0]);
            assert(s[c + 2] == w[1]);
            assert(take_u8(s, c).value == Ok::<int, SrsV2Error>(z));
            assert(take_i16(s, c + 1).value == Ok::<int, SrsV2Error>(v as int));
            let g = f.update(z, v);
            assert(levels_so_far(freq, g, k + 1)) by {
                assert forall|p: int| 0 <= p < 64 implies #[trigger] g[p] == if p == 0
                    || ZIGZAG_PLACE@[p] < k + 1 {
                    freq[p]
                } else {
                    0i16
                } by {
                    if p != z {
                        assert(ZIGZAG_PLACE@[p] != k);
                        assert(f[p] == g[p]);
                    } else {
                        if ZIGZAG_PLACE@[z] > k {
                            assert(f[z] == 0);
                            lemma_place_of_entry(k);
                        }
                    }
                }
            }
            lemma_read_tuples(pre, freq, post, k + 1, g);
        } else {
            assert(levels_so_far(freq, f, k + 1)) by {
                assert forall|p: int| 0 <= p < 64 implies #[trigger] f[p] == if p == 0
                    || ZIGZAG_PLACE@[p] < k + 1 {
                    freq[p]
                } else {
                    0i16
                } by {
                    if ZIGZAG_PLACE@[p] == k {
                        assert(p == z);
                    }
                }
            }
            lemma_read_tuples(pre, freq, post, k + 1, f);
        }
    }
}

proof fn lemma_place_of_entry(i: int)
    requires
        0 <= i < 64,
    ensures
        ZIGZAG_PLACE@[ZIGZAG@[i] as int] == i,
{
}

/// Reading a coded block gives back its mode and its levels and stops right behind it, whatever
/// stands before and after.
pub proof fn block_round_trip(pre: Seq<u8>, mode: PredMode, freq: Seq<i16>, post: Seq<u8>)
    requires
        freq.len() == 64,
    ensures
        read_block_at(pre + block_bytes(mode, freq) + post, pre.len() as int) == (Read::<
            (PredMode, Seq<i16>),
        > { value: Ok((mode, freq)), next: (pre.len() + block_bytes(mode, freq).len()) as int }),
{
    let s = pre + block_bytes(mode, freq) + post;
    let c = pre.len() as int;
    let d = bytes16(unsigned16(freq[0] as int));
    let n = ac_count(freq, 64);
    let q = bytes16(n);
    let tail = lemma_tuples_tail(freq, 1, 64);
    assert(s[c] == mode_code(mode));
    assert(s[c + 1] == d[0] && s[c + 2] == d[1]);
    assert(s[c + 3] == q[0] && s[c + 4] == q[1]);
    assert(0 <= n <= 63);
    let head = pre + seq![mode_code(mode)] + d + q;
    assert(s =~= head + ac_tuples(freq, 64) + post);
    let f = no_levels().update(0, freq[0]);
    assert(levels_so_far(freq, f, 1)) by {
        assert forall|p: int| 0 <= p < 64 implies #[trigger] f[p] == if p == 0
            || ZIGZAG_PLACE@[p] < 1 {
            freq[p]
        } else {
            0i16
        } by {
            zigzag_visits_every_position(p);
        }
    }
    assert(ac_tuples(freq, 1) =~= Seq::<u8>::empty());
    lemma_read_tuples(head, freq, post, 1, f);
    assert(mode_of(mode_code(mode) as int) == mode);
}

proof fn lemma_edge_sum(rec: Seq<u8>, pw: int, ph: int, bx: int, by: int, n: int)
    requires
        0 <= n,
    ensures
        0 <= edge_sum(rec, pw, ph, bx, by, n) <= 510 * n,
        edge_sum(rec, pw, ph, bx, by, n) == total(
            n,
            |i: int|
                rec_at(rec, pw, ph, bx * 8 + i, by * 8 - 1) + rec_at(
                    rec,
                    pw,
                    ph,
                    bx * 8 - 1,
                    by * 8 + i,
                ),
        ),
    decreases n,
{
    if n > 0 {
        lemma_edge_sum(rec, pw, ph, bx, by, n - 1);
    }
}

/// A predicted sample is a sample value.
pub proof fn lemma_prediction_range(
    mode: PredMode,
    rec: Seq<u8>,
    pw: int,
    ph: int,
    bx: int,
    by: int,
)
    ensures
        prediction(mode, rec, pw, ph, bx, by).len() == 64,
        forall|i: int|
            0 <= i < 64 ==> 0 <= #[trigger] prediction(mode, rec, pw, ph, bx, by)[i] <= 255
                && prediction(mode, rec, pw, ph, bx, by)[i] == predicted_at(
                mode,
                rec,
                pw,
                ph,
                bx,
                by,
                i / 8,
                i % 8,
            ),
{
    lemma_edge_sum(rec, pw, ph, bx, by, 8);
}

/// What the modes predict from the decoded samples around a block that has neighbours above and to
/// its left. Position `8 * r + c` of a block is row `r`, column `c`.
///
/// Horizontal prediction carries the samples to the left along their rows, vertical prediction the
/// samples above down their columns; the mean mode gives every position the mean of the 16 samples
/// around; planar prediction is halfway between the sample above and the one to the left; and
/// diagonal prediction goes on with the slope from the corner.
pub proof fn modes_predict_from_their_edges(
    rec: Seq<u8>,
    pw: int,
    ph: int,
    bx: int,
    by: int,
    r: int,
    c: int,
)
    requires
        block_fits(rec, pw, ph, bx, by),
        bx >= 1,
        by >= 1,
        0 <= r < 8,
        0 <= c < 8,
    ensures
        ({
            let at = |x: int, y: int| rec[y * pw + x] as int;
            let top = at(8 * bx + c, 8 * by - 1);
            let left = at(8 * bx - 1, 8 * by + r);
            let corner = at(8 * bx - 1, 8 * by - 1);
            let p = |m: PredMode| prediction(m, rec, pw, ph, bx, by)[8 * r + c] as int;
            let edge = total(8, |i: int| at(8 * bx + i, 8 * by - 1) + at(8 * bx - 1, 8 * by + i));
            &&& p(PredMode::Horizontal) == left
            &&& p(PredMode::Vertical) == top
            &&& 16 * p(PredMode::Dc) <= edge < 16 * p(PredMode::Dc) + 16
            &&& 2 * p(PredMode::Planar) <= top + left <= 2 * p(PredMode::Planar) + 1
            &&& 0 <= top + left - corner <= 255 ==> p(PredMode::Diagonal) - left == top - corner
            &&& top + left - corner < 0 ==> p(PredMode::Diagonal) == 0
            &&& top + left - corner > 255 ==> p(PredMode::Diagonal) == 255
        }),
{
    let i = 8 * r + c;
    assert(i / 8 == r && i % 8 == c);
    lemma_prediction_range(PredMode::Horizontal, rec, pw, ph, bx, by);
    lemma_prediction_range(PredMode::Vertical, rec, pw, ph, bx, by);
    lemma_prediction_range(PredMode::Dc, rec, pw, ph, bx, by);
    lemma_prediction_range(PredMode::Planar, rec, pw, ph, bx, by);
    lemma_prediction_range(PredMode::Diagonal, rec, pw, ph, bx, by);
    lemma_edge_sum(rec, pw, ph, bx, by, 8);
    let at = |x: int, y: int| rec[y * pw + x] as int;
    let f = |i: int|
        rec_at(rec, pw, ph, bx * 8 + i, by * 8 - 1) + rec_at(rec, pw, ph, bx * 8 - 1, by * 8 + i);
    let g = |i: int| at(8 * bx + i, 8 * by - 1) + at(8 * bx - 1, 8 * by + i);
    lemma_total_equal(8, f, g);
    assert(forall|m: PredMode| 0 <= i < 64 ==> #[trigger] prediction(m, rec, pw, ph, bx, by)[i]
        == predicted_at(m, rec, pw, ph, bx, by, r, c) as i16);
}

/// Where a picture ends at a block, the missing samples count as 128: its first block is predicted
/// flat at 128 in every mode.
pub proof fn first_block_is_predicted_flat(mode: PredMode, rec: Seq<u8>, pw: int, ph: int, i: int)
    requires
        0 <= i < 64,
    ensures
        prediction(mode, rec, pw, ph, 0, 0)[i] == 128,
{
    lemma_edge_sum(rec, pw, ph, 0, 0, 8);
    reveal_with_fuel(edge_sum, 9);
}

proof fn lemma_distance(a: Seq<i16>, b: Seq<i16>, n: int)
    ensures
        block_distance(a, b, n) == total(n, |i: int| magnitude(a[i] - b[i])),
    decreases n,
{
    if n > 0 {
        lemma_distance(a, b, n - 1);
    }
}

proof fn lemma_best_mode(
    rec: Seq<u8>,
    pw: int,
    ph: int,
    bx: int,
    by: int,
    orig: Seq<i16>,
    n: int,
    k: int,
)
    requires
        0 <= k < n <= 5,
    ensures
        0 <= best_mode(rec, pw, ph, bx, by, orig, n) < n,
        block_distance(
            orig,
            prediction(mode_of(best_mode(rec, pw, ph, bx, by, orig, n)), rec, pw, ph, bx, by),
            64,
        ) <= block_distance(orig, prediction(mode_of(k), rec, pw, ph, bx, by), 64),
    decreases n,
{
    if n > 1 {
        if k < n - 1 {
            lemma_best_mode(rec, pw, ph, bx, by, orig, n - 1, k);
        } else {
            lemma_best_mode(rec, pw, ph, bx, by, orig, n - 1, 0);
        }
    }
}

/// No mode comes closer to a block than the one that it is coded with: the differences between the
/// block and its prediction sum to no more than with any other.
pub proof fn chosen_mode_is_closest(
    rec: Seq<u8>,
    pw: int,
    ph: int,
    bx: int,
    by: int,
    orig: Seq<i16>,
    other: PredMode,
)
    ensures
        ({
            let mine = prediction(
                chosen_mode(rec, pw, ph, bx, by, orig),
                rec,
                pw,
                ph,
                bx,
                by,
            );
            let theirs = prediction(other, rec, pw, ph, bx, by);
            total(64, |i: int| magnitude(orig[i] - mine[i])) <= total(
                64,
                |i: int| magnitude(orig[i] - theirs[i]),
            )
        }),
{
    lemma_best_mode(rec, pw, ph, bx, by, orig, 5, mode_code(other) as int);
    assert(mode_of(mode_code(other) as int) == other);
    let mine = prediction(chosen_mode(rec, pw, ph, bx, by, orig), rec, pw, ph, bx, by);
    lemma_distance(orig, mine, 64);
    lemma_distance(orig, prediction(other, rec, pw, ph, bx, by), 64);
}

proof fn lemma_tuple_at(freq: Seq<i16>, k: int, n: int)
    requires
        1 <= k < n <= 64,
        freq[ZIGZAG@[k] as int] != 0,
    ensures
        ac_tuples(freq, n).len() == 3 * ac_count(freq, n),
        0 <= ac_count(freq, k) < ac_count(freq, n),
        ac_tuples(freq, n)[3 * ac_count(freq, k)] == ZIGZAG@[k],
        le16(ac_tuples(freq, n), 3 * ac_count(freq, k) + 1) == unsigned16(
            freq[ZIGZAG@[k] as int] as int,
        ),
    decreases n,
{
    zigzag_entries(n - 1);
    lemma_tuple_lengths(freq, n - 1);
    lemma_tuple_lengths(freq, k);
    let p = ZIGZAG@[n - 1] as int;
    let before = ac_tuples(freq, n - 1);
    if k < n - 1 {
        lemma_tuple_at(freq, k, n - 1);
        if freq[p] != 0 {
            assert(ac_tuples(freq, n) == before + seq![p as u8] + bytes16(
                unsigned16(freq[p] as int),
            ));
        }
    } else {
        crate::bytes::le16_reads_bytes16(
            before + seq![p as u8],
            unsigned16(freq[p] as int),
            seq![],
        );
        assert(before + seq![p as u8] + bytes16(unsigned16(freq[p] as int)) + seq![]
            =~= ac_tuples(freq, n));
        assert(ac_tuples(freq, n)[before.len() as int] == p as u8);
    }
}

proof fn lemma_tuple_lengths(freq: Seq<i16>, n: int)
    ensures
        ac_tuples(freq, n).len() == 3 * ac_count(freq, n),
        0 <= ac_count(freq, n),
    decreases n,
{
    if n > 1 {
        lemma_tuple_lengths(freq, n - 1);
    }
}

/// A coded block lists its mode, its first coefficient, how many others are not 0, and then those
/// in the order of the zigzag scan, each behind its position.
pub proof fn tuples_follow_the_scan(mode: PredMode, freq: Seq<i16>, k: int)
    requires
        1 <= k < 64,
        freq[ZIGZAG@[k] as int] != 0,
    ensures
        ({
            let b = block_bytes(mode, freq);
            let nonzero = |i: int|
                if freq[ZIGZAG@[i + 1] as int] != 0 {
                    1int
                } else {
                    0
                };
            let at = 5 + 3 * total(k - 1, nonzero);
            &&& signed16(le16(b, 1)) == freq[0]
            &&& le16(b, 3) == total(63, nonzero)
            &&& b.len() == 5 + 3 * total(63, nonzero)
            &&& b[at] == ZIGZAG@[k]
            &&& signed16(le16(b, at + 1)) == freq[ZIGZAG@[k] as int]
        }),
{
    let nonzero = |i: int|
        if freq[ZIGZAG@[i + 1] as int] != 0 {
            1int
        } else {
            0
        };
    lemma_count_is_total(freq, nonzero, 64);
    lemma_count_is_total(freq, nonzero, k);
    lemma_tuple_at(freq, k, 64);
    let b = block_bytes(mode, freq);
    let dc = bytes16(unsigned16(freq[0] as int));
    let n = bytes16(ac_count(freq, 64));
    let t = ac_tuples(freq, 64);
    crate::bytes::le16_reads_bytes16(seq![mode_code(mode)], unsigned16(freq[0] as int), n + t);
    assert(seq![mode_code(mode)] + dc + (n + t) =~= b);
    crate::bytes::le16_reads_bytes16(seq![mode_code(mode)] + dc, ac_count(freq, 64), t);
    assert(seq![mode_code(mode)] + dc + n + t =~= b);
    let at = 3 * ac_count(freq, k);
    assert(b[5 + at] == t[at] && b[6 + at] == t[at + 1] && b[7 + at] == t[at + 2]);
}

proof fn lemma_count_is_total(freq: Seq<i16>, nonzero: spec_fn(int) -> int, n: int)
    requires
        nonzero == (|i: int|
            if freq[ZIGZAG@[i + 1] as int] != 0 {
                1int
            } else {
                0
            }),
        1 <= n <= 64,
    ensures
        ac_count(freq, n) == total(n - 1, nonzero),
        0 <= ac_count(freq, n) <= n - 1,
    decreases n,
{
    if n > 1 {
        lemma_count_is_total(freq, nonzero, n - 1);
    }
}

/// A level stands for as many steps as it counts, a step being the quantizer, or 1 where that is 0;
/// whole steps come back as they were.
pub proof fn levels_count_steps(level: int, qp: int)
    requires
        0 <= qp <= 255,
        -32768 <= level * qp <= 32767,
        -32768 <= level <= 32767,
    ensures
        qp >= 1 ==> dequantized(level, qp) == level * qp,
        dequantized(level, 0) == level,
        qp >= 1 ==> quantized(level * qp, qp) == level,
        quantized(level, 0) == level,
{
    assert(level * 1 == level);
    let s = step_of(qp);
    let v = level * s;
    let h = s / 2;
    assert(h * 1 == h && h * (-1) == -h && h * 0 == 0);
    assert(level > 0 ==> v > 0) by (nonlinear_arith)
        requires
            v == level * s,
            s >= 1,
    ;
    assert(level < 0 ==> v < 0) by (nonlinear_arith)
        requires
            v == level * s,
            s >= 1,
    ;
    assert(level == 0 ==> v == 0) by (nonlinear_arith)
        requires
            v == level * s,
    ;
    if level >= 0 {
        vstd::arithmetic::div_mod::lemma_fundamental_div_mod_converse(v + h, s, level, h);
    } else {
        assert((-level) * s == -v) by (nonlinear_arith)
            requires
                v == level * s,
        ;
        vstd::arithmetic::div_mod::lemma_fundamental_div_mod_converse(-v + h, s, -level, h);
    }
    assert(step_of(0) == 1 && step_of(0) / 2 == 0);
    assert(0 * sign_of(level) == 0);
    assert(level / 1 == level && (-level) / 1 == -level);
}

} // verus!
