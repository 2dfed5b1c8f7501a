//! Median motion vector prediction and compact signed varints.
use vstd::prelude::*;

use crate::arith::{least, magnitude, sat_mul_usize, total};
use super::error::SrsV2Error;
use super::frame::lemma_packed_at;
use super::reader::Read;

verus! {

/// Cap on the bytes of one varint.
pub const MAX_INTER_MV_VARINT_BYTES: usize = 8;

/// Label of the prediction mode (left, top and top-right median).
pub const MV_PREDICTION_MODE_LABEL: &'static str = "median-left-top-topright";

/// Macroblock partition types on the wire.
pub const P_PART_WIRE_16X16: u8 = 0;
pub const P_PART_WIRE_16X8: u8 = 1;
pub const P_PART_WIRE_8X16: u8 = 2;
pub const P_PART_WIRE_8X8: u8 = 3;

/// The middle one of three numbers.
pub open spec fn middle(a: i32, b: i32, c: i32) -> i32 {
    if (a <= b && b <= c) || (c <= b && b <= a) {
        b
    } else if (b <= a && a <= c) || (c <= a && a <= b) {
        a
    } else {
        c
    }
}

pub fn median_i32(a: i32, b: i32, c: i32) -> (r: i32)
    ensures
        r == middle(a, b, c),
{
    if (a <= b && b <= c) || (c <= b && b <= a) {
        b
    } else if (b <= a && a <= c) || (c <= a && a <= b) {
        a
    } else {
        c
    }
}

/// The vector that is stored for a neighbour, or zero where there is no such neighbour.
pub open spec fn neighbour(present: bool, mvs: Seq<(i32, i32)>, i: int) -> (i32, i32) {
    if present {
        mvs[i]
    } else {
        (0, 0)
    }
}

/// The component-wise median of the vectors to the left, above and above right of position `idx`
/// in a grid of `cols` columns.
pub open spec fn predicted(cols: int, mvs: Seq<(i32, i32)>, idx: int) -> (i32, i32) {
    let x = idx % cols;
    let y = idx / cols;
    let l = neighbour(x > 0, mvs, idx - 1);
    let t = neighbour(y > 0, mvs, idx - cols);
    let r = neighbour(y > 0 && x + 1 < cols, mvs, idx - cols + 1);
    (middle(l.0, t.0, r.0), middle(l.1, t.1, r.1))
}

proof fn lemma_position(x: int, y: int, cols: int)
    requires
        0 <= x < cols,
        0 <= y,
    ensures
        (y * cols + x) % cols == x,
        (y * cols + x) / cols == y,
        y > 0 ==> y * cols + x >= cols,
        y * cols + x >= x,
{
    lemma_packed_at(x, y, cols, y + 1);
    assert(y * cols >= 0) by (nonlinear_arith)
        requires
            0 <= y,
            0 <= cols,
    ;
    if y > 0 {
        assert(y * cols >= cols) by (nonlinear_arith)
            requires
                1 <= y,
                0 <= cols,
        ;
    }
}

/// The prediction depends only on the vectors before the position.
pub proof fn prediction_reads_earlier_vectors(
    cols: int,
    a: Seq<(i32, i32)>,
    b: Seq<(i32, i32)>,
    idx: int,
)
    requires
        0 < cols,
        0 <= idx <= a.len(),
        idx <= b.len(),
        forall|i: int| 0 <= i < idx ==> #[trigger] a[i] == b[i],
    ensures
        predicted(cols, a, idx) == predicted(cols, b, idx),
{
    let x = idx % cols;
    let y = idx / cols;
    assert(idx == y * cols + x && 0 <= x < cols && 0 <= y) by (nonlinear_arith)
        requires
            0 < cols,
            0 <= idx,
            x == idx % cols,
            y == idx / cols,
    ;
    lemma_position(x, y, cols);
    if x > 0 {
        assert(a[idx - 1] == b[idx - 1]);
    }
    if y > 0 {
        assert(a[idx - cols] == b[idx - cols]);
        if x + 1 < cols {
            assert(a[idx - cols + 1] == b[idx - cols + 1]);
        }
    }
}

/// Median predictor over vectors that are already known (raster order).
pub fn predict_mv_qpel(mb_x: u32, mb_y: u32, mb_cols: u32, decoded_mvs: &[(i32, i32)]) -> (r: (
    i32,
    i32,
))
    requires
        mb_x < mb_cols,
        mb_y * mb_cols + mb_x <= u32::MAX,
        mb_y * mb_cols + mb_x <= decoded_mvs@.len(),
    ensures
        r == predicted(mb_cols as int, decoded_mvs@, mb_y * mb_cols + mb_x),
{
    proof {
        lemma_position(mb_x as int, mb_y as int, mb_cols as int);
    }
    let idx: usize = (mb_y * mb_cols + mb_x) as usize;
    let left = if mb_x > 0 {
        decoded_mvs[idx - 1]
    } else {
        (0, 0)
    };
    let top = if mb_y > 0 {
        decoded_mvs[idx - mb_cols as usize]
    } else {
        (0, 0)
    };
    let tr = if mb_y > 0 && mb_x < mb_cols - 1 {
        decoded_mvs[idx - mb_cols as usize + 1]
    } else {
        (0, 0)
    };
    (median_i32(left.0, top.0, tr.0), median_i32(left.1, top.1, tr.1))
}

/// Signed numbers in the order 0, -1, 1, -2, 2 and so on.
pub open spec fn zigzag(n: int) -> int {
    if n >= 0 {
        2 * n
    } else {
        -2 * n - 1
    }
}

/// The number at place `u` of that order.
pub open spec fn unzigzag(u: int) -> int {
    if u % 2 == 0 {
        u / 2
    } else {
        -(u / 2) - 1
    }
}

pub fn zigzag_encode_i32(n: i32) -> (u: u32)
    ensures
        u == zigzag(n as int),
        unzigzag(u as int) == n,
{
    if n >= 0 {
        (n as i64 * 2) as u32
    } else {
        (-(n as i64) * 2 - 1) as u32
    }
}

pub fn zigzag_decode_u32(u: u32) -> (n: i32)
    ensures
        n == unzigzag(u as int),
        zigzag(n as int) == u,
{
    if u % 2 == 0 {
        (u / 2) as i32
    } else {
        -((u / 2) as i32) - 1
    }
}

/// Seven bits per byte, low bits first; every byte but the last has its top bit set.
pub open spec fn varint(u: int) -> Seq<u8>
    decreases u,
{
    if u < 128 {
        seq![u as u8]
    } else {
        seq![(u % 128 + 128) as u8] + varint(u / 128)
    }
}

pub fn write_uvarint32(out: &mut Vec<u8>, u: u32)
    ensures
        final(out)@ == old(out)@ + varint(u as int),
{
    let ghost start = out@;
    let ghost first = u;
    let mut u: u32 = u;
    let ghost mut done: Seq<u8> = seq![];
    while u >= 128
        invariant
            out@ == start + done,
            varint(first as int) == done + varint(u as int),
        decreases u,
    {
        out.push((u % 128) as u8 + 128);
        proof {
            let b = (u % 128 + 128) as u8;
            assert(varint(u as int) == seq![b] + varint(u as int / 128));
            assert(done + (seq![b] + varint(u as int / 128)) =~= done.push(b) + varint(
                u as int / 128,
            ));
            done = done.push(b);
        }
        u = u / 128;
    }
    out.push(u as u8);
    assert(varint(u as int) == seq![u as u8]);
    assert(out@ =~= start + varint(first as int));
}

/// A signed number as a varint.
pub open spec fn signed_varint(v: int) -> Seq<u8> {
    varint(zigzag(v))
}

pub fn write_signed_varint(out: &mut Vec<u8>, v: i32)
    ensures
        final(out)@ == old(out)@ + signed_varint(v as int),
{
    write_uvarint32(out, zigzag_encode_i32(v));
}

/// The weight of byte `k` of a varint.
pub open spec fn varint_weight(k: int) -> int {
    if k == 0 {
        1
    } else if k == 1 {
        128
    } else if k == 2 {
        16384
    } else if k == 3 {
        2097152
    } else {
        268435456
    }
}

/// A varint read from byte `k` of it on, with `acc` the value of the bytes before. Bits beyond
/// the 32nd are dropped; a sixth byte is refused.
pub open spec fn varint_from(data: Seq<u8>, cur: int, k: int, acc: int) -> Read<int>
    decreases 6 - k,
{
    if cur >= data.len() {
        Read { value: Err(SrsV2Error::Truncated), next: cur }
    } else if k >= 5 {
        Read { value: Err(SrsV2Error::Syntax("inter MV varint overflow")), next: cur + 1 }
    } else {
        let part = data[cur] % 128 * varint_weight(k) % 4294967296;
        if data[cur] < 128 {
            Read { value: Ok(acc + part), next: cur + 1 }
        } else {
            varint_from(data, cur + 1, k + 1, acc + part)
        }
    }
}

/// The varint that starts at `cur`.
pub open spec fn read_varint(data: Seq<u8>, cur: int) -> Read<int> {
    varint_from(data, cur, 0, 0)
}

/// The signed varint that starts at `cur`.
pub open spec fn read_signed(data: Seq<u8>, cur: int) -> Read<int> {
    let r = read_varint(data, cur);
    match r.value {
        Ok(u) => Read { value: Ok(unzigzag(u)), next: r.next },
        Err(e) => Read { value: Err(e), next: r.next },
    }
}

proof fn lemma_top_part(low: int)
    requires
        0 <= low < 128,
    ensures
        low * 268435456 % 4294967296 == low % 16 * 268435456,
{
    assert(low == low / 16 * 16 + low % 16);
    assert(low * 268435456 == low / 16 * 4294967296 + low % 16 * 268435456);
}

proof fn lemma_part(low: int, k: int)
    requires
        0 <= low < 128,
        0 <= k < 5,
    ensures
        low * varint_weight(k) % 4294967296 == if k == 0 {
            low
        } else if k == 1 {
            low * 128
        } else if k == 2 {
            low * 16384
        } else if k == 3 {
            low * 2097152
        } else {
            low % 16 * 268435456
        },
{
    lemma_top_part(low);
    if k == 0 {
        assert(low * varint_weight(0) == low);
    } else if k == 1 {
        assert(low * varint_weight(1) == low * 128);
    } else if k == 2 {
        assert(low * varint_weight(2) == low * 16384);
    } else if k == 3 {
        assert(low * varint_weight(3) == low * 2097152);
    } else {
        assert(low * varint_weight(4) == low * 268435456);
    }
}

pub fn read_uvarint32(data: &[u8], cur: &mut usize) -> (r: Result<u32, SrsV2Error>)
    ensures
        ({
            let s = read_varint(data@, *old(cur) as int);
            &&& *final(cur) == s.next
            &&& *final(cur) <= data@.len() || *final(cur) == *old(cur)
            &&& *old(cur) <= *final(cur)
            &&& match s.value {
                Ok(u) => r is Ok && r->Ok_0 == u && *old(cur) < *final(cur) <= data@.len(),
                Err(e) => r == Err::<u32, SrsV2Error>(e),
            }
        }),
{
    let ghost start = *cur as int;
    let mut out: u32 = 0;
    let mut k: u32 = 0;
    loop
        invariant
            k <= 5,
            start == *old(cur),
            start <= *cur,
            *cur <= data@.len() || *cur == start,
            k > 0 ==> *cur > start,
            read_varint(data@, start) == varint_from(data@, *cur as int, k as int, out as int),
            k < 5 ==> out < varint_weight(k as int),
        decreases 6 - k,
    {
        if *cur >= data.len() {
            return Err(SrsV2Error::Truncated);
        }
        let b: u8 = data[*cur];
        *cur += 1;
        if k >= 5 {
            return Err(SrsV2Error::Syntax("inter MV varint overflow"));
        }
        let low: u32 = (b % 128) as u32;
        let part: u32 = if k == 0 {
            low
        } else if k == 1 {
            low * 128
        } else if k == 2 {
            low * 16384
        } else if k == 3 {
            low * 2097152
        } else {
            low % 16 * 268435456
        };
        proof {
            lemma_part(low as int, k as int);
        }
        out = out + part;
        if b < 128 {
            return Ok(out);
        }
        k += 1;
    }
}

pub fn read_signed_varint(data: &[u8], cur: &mut usize) -> (r: Result<i32, SrsV2Error>)
    ensures
        ({
            let s = read_signed(data@, *old(cur) as int);
            &&& *final(cur) == s.next
            &&& *final(cur) <= data@.len() || *final(cur) == *old(cur)
            &&& *old(cur) <= *final(cur)
            &&& match s.value {
                Ok(v) => r is Ok && r->Ok_0 == v && *old(cur) < *final(cur) <= data@.len(),
                Err(e) => r == Err::<i32, SrsV2Error>(e),
            }
        }),
{
    match read_uvarint32(data, cur) {
        Ok(u) => Ok(zigzag_decode_u32(u)),
        Err(e) => Err(e),
    }
}

proof fn lemma_varint_from(pre: Seq<u8>, u: int, post: Seq<u8>, k: int, acc: int)
    requires
        0 <= k < 5,
        0 <= u,
        u * varint_weight(k) < 4294967296,
    ensures
        varint_from(pre + varint(u) + post, pre.len() as int, k, acc) == (Read::<int> {
            value: Ok(acc + u * varint_weight(k)),
            next: (pre.len() + varint(u).len()) as int,
        }),
    decreases u,
{
    let s = pre + varint(u) + post;
    let c = pre.len() as int;
    assert(s[c] == varint(u)[0]);
    if u >= 128 {
        let b = (u % 128 + 128) as u8;
        assert(varint(u) == seq![b] + varint(u / 128));
        assert(s =~= pre.push(b) + varint(u / 128) + post);
        assert(k < 4) by {
            if k == 4 {
                assert(varint_weight(4) == 268435456);
            }
        }
        assert(varint_weight(k + 1) == 128 * varint_weight(k));
        let w = varint_weight(k);
        assert(u / 128 * (128 * w) <= u * w && u * w == u / 128 * (128 * w) + u % 128 * w)
            by (nonlinear_arith)
            requires
                0 <= u,
                0 < w,
        ;
        assert(0 <= u % 128 * w < 4294967296) by (nonlinear_arith)
            requires
                0 < w,
                0 <= u,
                u * w < 4294967296,
                u % 128 <= u,
        ;
        lemma_varint_from(pre.push(b), u / 128, post, k + 1, acc + u % 128 * w);
    } else {
        assert(varint(u) == seq![u as u8]);
    }
}

/// Reading a varint gives back the number that was written, and stops right behind it.
pub proof fn varint_round_trip(pre: Seq<u8>, u: u32, post: Seq<u8>)
    ensures
        read_varint(pre + varint(u as int) + post, pre.len() as int) == (Read::<int> {
            value: Ok(u as int),
            next: (pre.len() + varint(u as int).len()) as int,
        }),
{
    lemma_varint_from(pre, u as int, post, 0, 0);
}

/// Reading a signed varint gives back the number that was written, and stops right behind it.
pub proof fn signed_varint_round_trip(pre: Seq<u8>, v: i32, post: Seq<u8>)
    ensures
        read_signed(pre + signed_varint(v as int) + post, pre.len() as int) == (Read::<int> {
            value: Ok(v as int),
            next: (pre.len() + signed_varint(v as int).len()) as int,
        }),
{
    varint_round_trip(pre, zigzag(v as int) as u32, post);
}

/// A varint of 32 bits takes one to five bytes.
pub proof fn varint_length(u: u32)
    ensures
        1 <= varint(u as int).len() <= 5,
{
    reveal_with_fuel(varint, 6);
}

/// Byte length of one signed varint.
pub fn signed_varint_wire_bytes(v: i32) -> (n: usize)
    ensures
        n == signed_varint(v as int).len(),
        1 <= n <= 5,
{
    let mut tmp: Vec<u8> = Vec::new();
    write_signed_varint(&mut tmp, v);
    proof {
        varint_length(zigzag(v as int) as u32);
        assert(tmp@ =~= signed_varint(v as int));
    }
    tmp.len()
}

/// Both components of `mv` minus the prediction fit in 32 bits.
pub open spec fn delta_fits(mv: (i32, i32), pred: (i32, i32)) -> bool {
    &&& i32::MIN <= mv.0 - pred.0 <= i32::MAX
    &&& i32::MIN <= mv.1 - pred.1 <= i32::MAX
}

/// The two varints of one vector: its difference from the prediction.
pub open spec fn delta_bytes(mv: (i32, i32), pred: (i32, i32)) -> Seq<u8> {
    signed_varint(mv.0 - pred.0) + signed_varint(mv.1 - pred.1)
}

/// The bytes of the first `n` vectors of a grid.
pub open spec fn grid_bytes(cols: int, mvs: Seq<(i32, i32)>, n: int) -> Seq<u8>
    decreases n,
{
    if n <= 0 {
        seq![]
    } else {
        grid_bytes(cols, mvs, n - 1) + delta_bytes(mvs[n - 1], predicted(cols, mvs, n - 1))
    }
}

/// Every difference of the first `n` vectors from their predictions fits in 32 bits.
pub open spec fn grid_deltas_fit(cols: int, mvs: Seq<(i32, i32)>, n: int) -> bool {
    forall|i: int| 0 <= i < n ==> delta_fits(mvs[i], #[trigger] predicted(cols, mvs, i))
}

proof fn lemma_grid_position(idx: int, cols: int, rows: int)
    requires
        0 <= idx < cols * rows,
        0 < cols,
    ensures
        0 <= idx % cols < cols,
        0 <= idx / cols < rows,
        idx == idx / cols * cols + idx % cols,
{
    super::frame::lemma_packed_position(idx, cols, rows);
}

/// A motion vector grid as median-predicted varints.
pub fn encode_mv_grid_compact(mvs: &[(i32, i32)], mb_cols: u32, mb_rows: u32) -> (out: Vec<u8>)
    requires
        mb_cols * mb_rows <= u32::MAX,
        mb_cols * mb_rows <= mvs@.len(),
        grid_deltas_fit(mb_cols as int, mvs@, mb_cols * mb_rows),
    ensures
        out@ == grid_bytes(mb_cols as int, mvs@, mb_cols * mb_rows),
{
    let n: u32 = mb_cols * mb_rows;
    let mut out: Vec<u8> = Vec::new();
    let mut idx: u32 = 0;
    while idx < n
        invariant
            idx <= n,
            n == mb_cols * mb_rows,
            n <= mvs@.len(),
            grid_deltas_fit(mb_cols as int, mvs@, n as int),
            out@ == grid_bytes(mb_cols as int, mvs@, idx as int),
        decreases n - idx,
    {
        assert(mb_cols > 0) by (nonlinear_arith)
            requires
                0 < mb_cols * mb_rows,
        ;
        proof {
            lemma_grid_position(idx as int, mb_cols as int, mb_rows as int);
        }
        let p = predict_mv_qpel(idx % mb_cols, idx / mb_cols, mb_cols, mvs);
        let mv = mvs[idx as usize];
        assert(delta_fits(mv, p));
        let ghost before = out@;
        write_signed_varint(&mut out, mv.0 - p.0);
        write_signed_varint(&mut out, mv.1 - p.1);
        assert(out@ =~= before + delta_bytes(mv, p));
        idx += 1;
    }
    out
}

/// Component `k` of the differences of a grid: horizontal and vertical in turn.
pub open spec fn grid_delta(cols: int, mvs: Seq<(i32, i32)>, k: int) -> int {
    let p = predicted(cols, mvs, k / 2);
    if k % 2 == 0 {
        mvs[k / 2].0 - p.0
    } else {
        mvs[k / 2].1 - p.1
    }
}

/// Number of zero differences, number of others, and sum of their absolute values.
pub fn mv_compact_grid_delta_statistics(mvs: &[(i32, i32)], mb_cols: u32, mb_rows: u32) -> (r: (
    u64,
    u64,
    u64,
))
    requires
        mb_cols * mb_rows <= u32::MAX,
        mb_cols * mb_rows <= mvs@.len(),
        grid_deltas_fit(mb_cols as int, mvs@, mb_cols * mb_rows),
    ensures
        r.0 == total(
            2 * (mb_cols * mb_rows),
            |k: int| if grid_delta(mb_cols as int, mvs@, k) == 0 { 1int } else { 0 },
        ),
        r.0 + r.1 == 2 * (mb_cols * mb_rows),
        r.2 == total(
            2 * (mb_cols * mb_rows),
            |k: int| magnitude(grid_delta(mb_cols as int, mvs@, k)),
        ),
        r.2 <= 4294967296 * (mb_cols * mb_rows),
{
    let n: u32 = mb_cols * mb_rows;
    let ghost zero = |k: int| if grid_delta(mb_cols as int, mvs@, k) == 0 { 1int } else { 0 };
    let ghost size = |k: int| magnitude(grid_delta(mb_cols as int, mvs@, k));
    let mut zero_v: u64 = 0;
    let mut nonzero_v: u64 = 0;
    let mut sum_abs: u64 = 0;
    let mut idx: u32 = 0;
    while idx < n
        invariant
            idx <= n,
            n == mb_cols * mb_rows,
            n <= mvs@.len(),
            grid_deltas_fit(mb_cols as int, mvs@, n as int),
            zero == (|k: int| if grid_delta(mb_cols as int, mvs@, k) == 0 { 1int } else { 0 }),
            size == (|k: int| magnitude(grid_delta(mb_cols as int, mvs@, k))),
            zero_v == total(2 * idx, zero),
            zero_v + nonzero_v == 2 * idx,
            sum_abs == total(2 * idx, size),
            sum_abs <= 4294967296 * idx,
        decreases n - idx,
    {
        assert(mb_cols > 0) by (nonlinear_arith)
            requires
                0 < mb_cols * mb_rows,
        ;
        proof {
            lemma_grid_position(idx as int, mb_cols as int, mb_rows as int);
        }
        let p = predict_mv_qpel(idx % mb_cols, idx / mb_cols, mb_cols, mvs);
        let mv = mvs[idx as usize];
        assert(delta_fits(mv, p));
        let dx: i64 = mv.0 as i64 - p.0 as i64;
        let dy: i64 = mv.1 as i64 - p.1 as i64;
        assert(zero(2 * idx) == if dx == 0 { 1int } else { 0 });
        assert(zero(2 * idx + 1) == if dy == 0 { 1int } else { 0 });
        assert(size(2 * idx) == magnitude(dx as int));
        assert(size(2 * idx + 1) == magnitude(dy as int));
        assert(total(2 * (idx + 1), zero) == total(2 * idx, zero) + zero(2 * idx) + zero(
            2 * idx + 1,
        )) by {
            reveal_with_fuel(total, 3);
        }
        assert(total(2 * (idx + 1), size) == total(2 * idx, size) + size(2 * idx) + size(
            2 * idx + 1,
        )) by {
            reveal_with_fuel(total, 3);
        }
        if dx == 0 {
            zero_v += 1;
        } else {
            nonzero_v += 1;
        }
        if dy == 0 {
            zero_v += 1;
        } else {
            nonzero_v += 1;
        }
        let ax: u64 = if dx < 0 { (-dx) as u64 } else { dx as u64 };
        let ay: u64 = if dy < 0 { (-dy) as u64 } else { dy as u64 };
        sum_abs = sum_abs + ax + ay;
        idx += 1;
    }
    (zero_v, nonzero_v, sum_abs)
}

/// The vectors that a compact grid spells out before any further check on them, where the cursor
/// stands after them, and what stopped the reading early, if anything did.
pub struct GridRead {
    pub mvs: Seq<(i32, i32)>,
    pub next: int,
    pub fault: Option<SrsV2Error>,
}

/// One vector: two varints, each added to the prediction.
pub open spec fn read_vector(data: Seq<u8>, cur: int, pred: (i32, i32)) -> Read<(i32, i32)> {
    let dx = read_signed(data, cur);
    match dx.value {
        Err(e) => Read { value: Err(e), next: dx.next },
        Ok(x) => {
            let dy = read_signed(data, dx.next);
            match dy.value {
                Err(e) => Read { value: Err(e), next: dy.next },
                Ok(y) => if !(i32::MIN <= pred.0 + x <= i32::MAX) || !(i32::MIN <= pred.1 + y
                    <= i32::MAX) {
                    Read { value: Err(SrsV2Error::CorruptedMotionVector), next: dy.next }
                } else {
                    Read {
                        value: Ok(((pred.0 + x) as i32, (pred.1 + y) as i32)),
                        next: dy.next,
                    }
                },
            }
        },
    }
}

/// The first `n` vectors of a compact grid that starts at `cur`.
pub open spec fn raw_grid(data: Seq<u8>, cur: int, cols: int, n: int) -> GridRead
    decreases n,
{
    if n <= 0 {
        GridRead { mvs: seq![], next: cur, fault: None }
    } else {
        let g = raw_grid(data, cur, cols, n - 1);
        match g.fault {
            Some(_) => g,
            None => {
                let v = read_vector(data, g.next, predicted(cols, g.mvs, n - 1));
                match v.value {
                    Ok(mv) => GridRead { mvs: g.mvs.push(mv), next: v.next, fault: None },
                    Err(e) => GridRead { mvs: g.mvs, next: v.next, fault: Some(e) },
                }
            },
        }
    }
}

proof fn lemma_raw_grid_prefix(data: Seq<u8>, cur: int, cols: int, k: int, n: int)
    requires
        0 <= k <= n,
    ensures
        ({
            let a = raw_grid(data, cur, cols, k);
            let b = raw_grid(data, cur, cols, n);
            &&& a.fault is None ==> a.mvs.len() == k && k <= b.mvs.len() && a.mvs == b.mvs.take(k)
            &&& a.fault is Some ==> a == b
            &&& b.mvs.len() <= n
            &&& b.fault is None ==> b.mvs.len() == n
        }),
    decreases n,
{
    if k < n {
        lemma_raw_grid_prefix(data, cur, cols, k, n - 1);
        let a = raw_grid(data, cur, cols, k);
        let m = raw_grid(data, cur, cols, n - 1);
        let b = raw_grid(data, cur, cols, n);
        if a.fault is None {
            assert(a.mvs =~= b.mvs.take(k));
        }
    } else if n > 0 {
        lemma_raw_grid_prefix(data, cur, cols, n - 1, n - 1);
        assert(raw_grid(data, cur, cols, n).mvs =~= raw_grid(data, cur, cols, n).mvs.take(
            raw_grid(data, cur, cols, n).mvs.len() as int,
        ));
    } else {
        assert(raw_grid(data, cur, cols, 0).mvs =~= raw_grid(data, cur, cols, 0).mvs.take(0));
    }
}

/// `validate` answered `Ok` for each of the first `n` vectors.
pub open spec fn accepted<F: Fn(i32, i32) -> Result<(), SrsV2Error>>(
    validate: F,
    mvs: Seq<(i32, i32)>,
    n: int,
) -> bool {
    forall|i: int|
        0 <= i < n ==> call_ensures(
            validate,
            ((#[trigger] mvs[i]).0, mvs[i].1),
            Ok::<(), SrsV2Error>(()),
        )
}

/// `validate` accepted the vectors before `j` and answered `e` for vector `j`.
pub open spec fn refused_at<F: Fn(i32, i32) -> Result<(), SrsV2Error>>(
    validate: F,
    mvs: Seq<(i32, i32)>,
    j: int,
    e: SrsV2Error,
) -> bool {
    &&& 0 <= j < mvs.len()
    &&& accepted(validate, mvs, j)
    &&& call_ensures(validate, (mvs[j].0, mvs[j].1), Err::<(), SrsV2Error>(e))
}

/// How a checked reading of vectors ends: with all of them when nothing is wrong, else with what
/// comes first, a refusal of `validate` or what stopped the reading.
pub open spec fn checked_reading<F: Fn(i32, i32) -> Result<(), SrsV2Error>>(
    raw: GridRead,
    validate: F,
    r: Result<Vec<(i32, i32)>, SrsV2Error>,
) -> bool {
    match r {
        Ok(g) => raw.fault is None && g@ == raw.mvs && accepted(
            validate,
            raw.mvs,
            raw.mvs.len() as int,
        ),
        Err(e) => (raw.fault == Some(e) && accepted(validate, raw.mvs, raw.mvs.len() as int)) || (
        exists|j: int| refused_at(validate, raw.mvs, j, e)),
    }
}

fn read_mv(data: &[u8], cur: &mut usize, pred: (i32, i32)) -> (r: Result<(i32, i32), SrsV2Error>)
    ensures
        ({
            let v = read_vector(data@, *old(cur) as int, pred);
            &&& *final(cur) == v.next
            &&& *old(cur) <= *final(cur)
            &&& match v.value {
                Ok(mv) => r == Ok::<(i32, i32), SrsV2Error>(mv) && *final(cur) <= data@.len(),
                Err(e) => r == Err::<(i32, i32), SrsV2Error>(e),
            }
        }),
{
    let dx: i32 = match read_signed_varint(data, cur) {
        Ok(v) => v,
        Err(e) => {
            return Err(e);
        },
    };
    let dy: i32 = match read_signed_varint(data, cur) {
        Ok(v) => v,
        Err(e) => {
            return Err(e);
        },
    };
    let x: i32 = match pred.0.checked_add(dx) {
        Some(v) => v,
        None => {
            return Err(SrsV2Error::CorruptedMotionVector);
        },
    };
    let y: i32 = match pred.1.checked_add(dy) {
        Some(v) => v,
        None => {
            return Err(SrsV2Error::CorruptedMotionVector);
        },
    };
    Ok((x, y))
}

proof fn lemma_raw_grid_step(data: Seq<u8>, c0: int, cols: int, k: int, n: int)
    requires
        0 <= k < n,
        raw_grid(data, c0, cols, k).fault is None,
    ensures
        ({
            let g = raw_grid(data, c0, cols, k);
            let v = read_vector(data, g.next, predicted(cols, g.mvs, k));
            let h = raw_grid(data, c0, cols, k + 1);
            let whole = raw_grid(data, c0, cols, n);
            match v.value {
                Ok(mv) => {
                    &&& h == (GridRead { mvs: g.mvs.push(mv), next: v.next, fault: None })
                    &&& k < whole.mvs.len()
                    &&& forall|i: int| 0 <= i <= k ==> #[trigger] whole.mvs[i] == h.mvs[i]
                },
                Err(e) => whole.fault == Some(e) && whole.mvs == g.mvs && whole.next == v.next,
            }
        }),
{
    lemma_raw_grid_prefix(data, c0, cols, k + 1, n);
    let h = raw_grid(data, c0, cols, k + 1);
    let whole = raw_grid(data, c0, cols, n);
    if h.fault is None {
        assert forall|i: int| 0 <= i <= k implies #[trigger] whole.mvs[i] == h.mvs[i] by {
            assert(whole.mvs.take(k + 1)[i] == whole.mvs[i]);
        }
    }
}

proof fn lemma_accepted_push<F: Fn(i32, i32) -> Result<(), SrsV2Error>>(
    validate: F,
    g: Seq<(i32, i32)>,
    mv: (i32, i32),
)
    requires
        accepted(validate, g, g.len() as int),
        call_ensures(validate, (mv.0, mv.1), Ok::<(), SrsV2Error>(())),
    ensures
        accepted(validate, g.push(mv), g.len() as int + 1),
{
    let h = g.push(mv);
    assert forall|i: int| 0 <= i < h.len() implies call_ensures(
        validate,
        ((#[trigger] h[i]).0, h[i].1),
        Ok::<(), SrsV2Error>(()),
    ) by {
        if i < g.len() {
            assert(h[i] == g[i]);
        }
    }
}

proof fn lemma_refused<F: Fn(i32, i32) -> Result<(), SrsV2Error>>(
    validate: F,
    g: Seq<(i32, i32)>,
    whole: Seq<(i32, i32)>,
    e: SrsV2Error,
)
    requires
        accepted(validate, g, g.len() as int),
        g.len() < whole.len(),
        forall|i: int| 0 <= i < g.len() ==> #[trigger] whole[i] == g[i],
        call_ensures(
            validate,
            (whole[g.len() as int].0, whole[g.len() as int].1),
            Err::<(), SrsV2Error>(e),
        ),
    ensures
        refused_at(validate, whole, g.len() as int, e),
{
    assert forall|i: int| 0 <= i < g.len() implies call_ensures(
        validate,
        ((#[trigger] whole[i]).0, whole[i].1),
        Ok::<(), SrsV2Error>(()),
    ) by {
        assert(whole[i] == g[i]);
    }
}

/// Where a checked reading of a grid that starts at `cur` leaves the cursor: behind the last
/// vector that was read, or where the reading failed.
pub open spec fn stopped_in_grid<F: Fn(i32, i32) -> Result<(), SrsV2Error>>(
    data: Seq<u8>,
    cur: int,
    cols: int,
    n: int,
    validate: F,
    r: Result<Vec<(i32, i32)>, SrsV2Error>,
    next: int,
) -> bool {
    let raw = raw_grid(data, cur, cols, n);
    match r {
        Ok(_) => next == raw.next,
        Err(e) => {
            ||| raw.fault == Some(e) && accepted(validate, raw.mvs, raw.mvs.len() as int) && next
                == raw.next
            ||| exists|j: int| #[trigger]
                refused_at(validate, raw.mvs, j, e) && next == raw_grid(
                    data,
                    cur,
                    cols,
                    j + 1,
                ).next
        },
    }
}

/// Reads a compact grid; every vector has to pass `validate`.
pub fn decode_mv_grid_compact<F>(
    data: &[u8],
    cur: &mut usize,
    mb_cols: u32,
    mb_rows: u32,
    validate: F,
) -> (r: Result<Vec<(i32, i32)>, SrsV2Error>) where F: Fn(i32, i32) -> Result<(), SrsV2Error>
    requires
        mb_cols * mb_rows <= u32::MAX,
        forall|x: i32, y: i32| #[trigger] call_requires(validate, (x, y)),
    ensures
        checked_reading(
            raw_grid(data@, *old(cur) as int, mb_cols as int, mb_cols * mb_rows),
            validate,
            r,
        ),
        stopped_in_grid(
            data@,
            *old(cur) as int,
            mb_cols as int,
            mb_cols * mb_rows,
            validate,
            r,
            *final(cur) as int,
        ),
        r is Ok ==> *old(cur) <= *final(cur),
        r is Ok && *old(cur) <= data@.len() ==> *final(cur) <= data@.len(),
{
    let n: u32 = mb_cols * mb_rows;
    let ghost c0 = *cur as int;
    let ghost whole = raw_grid(data@, c0, mb_cols as int, n as int);
    let mut grid: Vec<(i32, i32)> = Vec::new();
    let mut idx: u32 = 0;
    proof {
        lemma_raw_grid_prefix(data@, c0, mb_cols as int, n as int, n as int);
    }
    while idx < n
        invariant
            idx <= n,
            n == mb_cols * mb_rows,
            c0 == *old(cur),
            whole == raw_grid(data@, c0, mb_cols as int, n as int),
            grid@.len() == idx,
            ({
                let g = raw_grid(data@, c0, mb_cols as int, idx as int);
                g.fault is None && g.mvs == grid@ && g.next == *cur
            }),
            c0 <= *cur,
            c0 <= data@.len() ==> *cur <= data@.len(),
            accepted(validate, grid@, idx as int),
            forall|x: i32, y: i32| #[trigger] call_requires(validate, (x, y)),
        decreases n - idx,
    {
        assert(mb_cols > 0) by (nonlinear_arith)
            requires
                0 < mb_cols * mb_rows,
        ;
        proof {
            lemma_grid_position(idx as int, mb_cols as int, mb_rows as int);
            lemma_raw_grid_step(data@, c0, mb_cols as int, idx as int, n as int);
        }
        let p = predict_mv_qpel(idx % mb_cols, idx / mb_cols, mb_cols, grid.as_slice());
        let ghost g0 = grid@;
        let mv = match read_mv(data, cur, p) {
            Ok(mv) => mv,
            Err(e) => {
                return Err(e);
            },
        };
        grid.push(mv);
        let answer = validate(mv.0, mv.1);
        match answer {
            Ok(u) => {
                assert(u == ());
                assert(answer == Ok::<(), SrsV2Error>(()));
            },
            Err(e) => {
                proof {
                    lemma_refused(validate, g0, whole.mvs, e);
                }
                return Err(e);
            },
        }
        proof {
            lemma_accepted_push(validate, g0, mv);
        }
        idx += 1;
    }
    Ok(grid)
}

/// The first of the vectors from `j` on that `check` refuses, as its refusal.
pub open spec fn first_refusal(
    mvs: Seq<(i32, i32)>,
    check: spec_fn(i32, i32) -> Result<(), SrsV2Error>,
    j: int,
) -> Option<SrsV2Error>
    decreases mvs.len() - j,
{
    if j < 0 || j >= mvs.len() {
        None
    } else {
        match check(mvs[j].0, mvs[j].1) {
            Err(e) => Some(e),
            Ok(_) => first_refusal(mvs, check, j + 1),
        }
    }
}

/// A reading whose vectors have to pass `check`.
pub open spec fn settle(
    raw: GridRead,
    check: spec_fn(i32, i32) -> Result<(), SrsV2Error>,
) -> Result<Seq<(i32, i32)>, SrsV2Error> {
    match first_refusal(raw.mvs, check, 0) {
        Some(e) => Err(e),
        None => match raw.fault {
            Some(e) => Err(e),
            None => Ok(raw.mvs),
        },
    }
}

proof fn lemma_first_refusal(
    mvs: Seq<(i32, i32)>,
    check: spec_fn(i32, i32) -> Result<(), SrsV2Error>,
    j: int,
    k: int,
)
    requires
        0 <= j <= k <= mvs.len(),
        forall|i: int| j <= i < k ==> check((#[trigger] mvs[i]).0, mvs[i].1) is Ok,
    ensures
        first_refusal(mvs, check, j) == first_refusal(mvs, check, k),
    decreases k - j,
{
    if j < k {
        assert(check(mvs[j].0, mvs[j].1) is Ok);
        lemma_first_refusal(mvs, check, j + 1, k);
    }
}

/// Where `validate` always answers as `check` does, a checked reading has one possible end.
pub proof fn checked_reading_settles<F: Fn(i32, i32) -> Result<(), SrsV2Error>>(
    raw: GridRead,
    validate: F,
    check: spec_fn(i32, i32) -> Result<(), SrsV2Error>,
    r: Result<Vec<(i32, i32)>, SrsV2Error>,
)
    requires
        checked_reading(raw, validate, r),
        forall|x: i32, y: i32, a: Result<(), SrsV2Error>| #[trigger]
            call_ensures(validate, (x, y), a) ==> a == check(x, y),
    ensures
        match r {
            Ok(g) => settle(raw, check) == Ok::<Seq<(i32, i32)>, SrsV2Error>(g@),
            Err(e) => settle(raw, check) == Err::<Seq<(i32, i32)>, SrsV2Error>(e),
        },
{
    let n = raw.mvs.len() as int;
    if accepted(validate, raw.mvs, n) {
        lemma_first_refusal(raw.mvs, check, 0, n);
    }
    if let Err(e) = r {
        if !(raw.fault == Some(e) && accepted(validate, raw.mvs, n)) {
            let j = choose|j: int| refused_at(validate, raw.mvs, j, e);
            lemma_first_refusal(raw.mvs, check, 0, j);
        }
    }
}

proof fn lemma_read_vector(pre: Seq<u8>, mv: (i32, i32), pred: (i32, i32), post: Seq<u8>)
    requires
        delta_fits(mv, pred),
    ensures
        read_vector(pre + delta_bytes(mv, pred) + post, pre.len() as int, pred) == (Read::<
            (i32, i32),
        > { value: Ok(mv), next: (pre.len() + delta_bytes(mv, pred).len()) as int }),
{
    let a = signed_varint(mv.0 - pred.0);
    let b = signed_varint(mv.1 - pred.1);
    let s = pre + delta_bytes(mv, pred) + post;
    assert(s =~= pre + a + (b + post));
    assert(s =~= (pre + a) + b + post);
    signed_varint_round_trip(pre, (mv.0 - pred.0) as i32, b + post);
    signed_varint_round_trip(pre + a, (mv.1 - pred.1) as i32, post);
}

proof fn lemma_grid_bytes_prefix(cols: int, mvs: Seq<(i32, i32)>, k: int, n: int) -> (rest: Seq<u8>)
    requires
        0 <= k <= n,
    ensures
        grid_bytes(cols, mvs, n) == grid_bytes(cols, mvs, k) + rest,
    decreases n - k,
{
    if k == n {
        assert(grid_bytes(cols, mvs, n) =~= grid_bytes(cols, mvs, k) + Seq::<u8>::empty());
        Seq::empty()
    } else {
        let r = lemma_grid_bytes_prefix(cols, mvs, k, n - 1);
        let d = delta_bytes(mvs[n - 1], predicted(cols, mvs, n - 1));
        assert(grid_bytes(cols, mvs, n) =~= grid_bytes(cols, mvs, k) + (r + d));
        r + d
    }
}

/// Reading the bytes of a grid gives back its vectors and stops right behind them, whatever
/// stands before and after.
pub proof fn mv_grid_round_trip(
    pre: Seq<u8>,
    cols: int,
    mvs: Seq<(i32, i32)>,
    n: int,
    post: Seq<u8>,
)
    requires
        0 < cols,
        0 <= n <= mvs.len(),
        grid_deltas_fit(cols, mvs, n),
    ensures
        raw_grid(pre + grid_bytes(cols, mvs, n) + post, pre.len() as int, cols, n) == (GridRead {
            mvs: mvs.take(n),
            next: (pre.len() + grid_bytes(cols, mvs, n).len()) as int,
            fault: None,
        }),
{
    lemma_grid_round_trip(pre, cols, mvs, n, n, post);
}

proof fn lemma_grid_round_trip(
    pre: Seq<u8>,
    cols: int,
    mvs: Seq<(i32, i32)>,
    k: int,
    n: int,
    post: Seq<u8>,
)
    requires
        0 < cols,
        0 <= k <= n <= mvs.len(),
        grid_deltas_fit(cols, mvs, n),
    ensures
        raw_grid(pre + grid_bytes(cols, mvs, n) + post, pre.len() as int, cols, k) == (GridRead {
            mvs: mvs.take(k),
            next: (pre.len() + grid_bytes(cols, mvs, k).len()) as int,
            fault: None,
        }),
    decreases k,
{
    let s = pre + grid_bytes(cols, mvs, n) + post;
    if k > 0 {
        lemma_grid_round_trip(pre, cols, mvs, k - 1, n, post);
        let rest = lemma_grid_bytes_prefix(cols, mvs, k, n);
        let p = predicted(cols, mvs, k - 1);
        let d = delta_bytes(mvs[k - 1], p);
        let head = pre + grid_bytes(cols, mvs, k - 1);
        assert(s =~= head + d + (rest + post));
        lemma_read_vector(head, mvs[k - 1], p, rest + post);
        prediction_reads_earlier_vectors(cols, mvs, mvs.take(k - 1), k - 1);
        assert(mvs.take(k) =~= mvs.take(k - 1).push(mvs[k - 1]));
    } else {
        assert(mvs.take(0) =~= Seq::empty());
    }
}

/// Prediction units of a partition type.
pub open spec fn units(pt: u8) -> int {
    if pt == P_PART_WIRE_16X16 {
        1
    } else if pt == P_PART_WIRE_16X8 || pt == P_PART_WIRE_8X16 {
        2
    } else {
        4
    }
}

/// Number of prediction units of a partition type.
pub fn pu_count_partition_wire(pt: u8) -> (r: Result<usize, SrsV2Error>)
    ensures
        pt <= 3 ==> r == Ok::<usize, SrsV2Error>(units(pt) as usize),
        pt > 3 ==> r == Err::<usize, SrsV2Error>(SrsV2Error::Syntax("P partition reserved bits")),
{
    match validate_partition_reserved_bits(pt) {
        Ok(p) => if p == P_PART_WIRE_16X16 {
            Ok(1)
        } else if p == P_PART_WIRE_16X8 || p == P_PART_WIRE_8X16 {
            Ok(2)
        } else {
            Ok(4)
        },
        Err(e) => Err(e),
    }
}

/// Only the two low bits of a partition byte may be set.
pub fn validate_partition_reserved_bits(b: u8) -> (r: Result<u8, SrsV2Error>)
    ensures
        b <= 3 ==> r == Ok::<u8, SrsV2Error>(b),
        b > 3 ==> r == Err::<u8, SrsV2Error>(SrsV2Error::Syntax("P partition reserved bits")),
{
    if b > 3 {
        return Err(SrsV2Error::Syntax("P partition reserved bits"));
    }
    Ok(b)
}

/// Prediction units of the first `i` macroblocks.
pub open spec fn pu_start(parts: Seq<u8>, i: int) -> int
    decreases i,
{
    if i <= 0 {
        0
    } else {
        pu_start(parts, i - 1) + units(parts[i - 1])
    }
}

pub proof fn lemma_pu_start(parts: Seq<u8>, i: int, j: int)
    requires
        0 <= i <= j,
    ensures
        i <= pu_start(parts, i) <= pu_start(parts, j) <= 4 * j,
        i < j ==> pu_start(parts, i) + units(parts[i]) <= pu_start(parts, j),
    decreases j,
{
    if i < j {
        lemma_pu_start(parts, i, j - 1);
    } else if i > 0 {
        lemma_pu_start(parts, i - 1, i - 1);
    }
}

/// How counting the units of partition bytes from byte `i` on ends, after `t` units.
pub open spec fn unit_count(parts: Seq<u8>, max_mb: int, i: int, t: int) -> Result<
    int,
    SrsV2Error,
>
    decreases parts.len() - i,
{
    if i < 0 || i >= parts.len() {
        Ok(t)
    } else if parts[i] > 3 {
        Err(SrsV2Error::Syntax("P partition reserved bits"))
    } else if t + units(parts[i]) > usize::MAX {
        Err(SrsV2Error::Syntax("P partition unit count overflow"))
    } else if t + units(parts[i]) > least(max_mb * 4, usize::MAX as int) {
        Err(SrsV2Error::Syntax("P partition unit cap exceeded"))
    } else {
        unit_count(parts, max_mb, i + 1, t + units(parts[i]))
    }
}

/// Sum of partition units; rejects more than four per macroblock.
pub fn total_partition_units_bounded(partition_bytes: &[u8], max_mb: usize) -> (r: Result<
    usize,
    SrsV2Error,
>)
    ensures
        match unit_count(partition_bytes@, max_mb as int, 0, 0) {
            Ok(n) => r is Ok && r->Ok_0 == n && n == pu_start(
                partition_bytes@,
                partition_bytes@.len() as int,
            ) && forall|i: int|
                0 <= i < partition_bytes@.len() ==> #[trigger] partition_bytes@[i] <= 3,
            Err(e) => r == Err::<usize, SrsV2Error>(e),
        },
{
    let cap: usize = sat_mul_usize(max_mb, 4);
    let mut t: usize = 0;
    let mut i: usize = 0;
    while i < partition_bytes.len()
        invariant
            i <= partition_bytes@.len(),
            cap == least(max_mb * 4, usize::MAX as int),
            t == pu_start(partition_bytes@, i as int),
            unit_count(partition_bytes@, max_mb as int, 0, 0) == unit_count(
                partition_bytes@,
                max_mb as int,
                i as int,
                t as int,
            ),
            forall|k: int| 0 <= k < i ==> #[trigger] partition_bytes@[k] <= 3,
        decreases partition_bytes@.len() - i,
    {
        let n: usize = match pu_count_partition_wire(partition_bytes[i]) {
            Ok(n) => n,
            Err(e) => {
                return Err(e);
            },
        };
        t = match t.checked_add(n) {
            Some(v) => v,
            None => {
                return Err(SrsV2Error::Syntax("P partition unit count overflow"));
            },
        };
        if t > cap {
            return Err(SrsV2Error::Syntax("P partition unit cap exceeded"));
        }
        i += 1;
    }
    Ok(t)
}

/// The first vector of each of the first `n` macroblocks.
pub open spec fn firsts(parts: Seq<u8>, mvs: Seq<(i32, i32)>, n: int) -> Seq<(i32, i32)> {
    Seq::new(n as nat, |k: int| mvs[pu_start(parts, k)])
}

/// The prediction of unit `j` of macroblock `i`: spatial for the first unit, the unit before for
/// the others.
pub open spec fn pu_prediction(
    cols: int,
    parts: Seq<u8>,
    mvs: Seq<(i32, i32)>,
    i: int,
    j: int,
) -> (i32, i32) {
    if j == 0 {
        predicted(cols, firsts(parts, mvs, i), i)
    } else {
        mvs[pu_start(parts, i) + j - 1]
    }
}

/// The bytes of the units of macroblocks before `i` and of the first `j` units of macroblock `i`.
pub open spec fn stream_bytes(
    cols: int,
    parts: Seq<u8>,
    mvs: Seq<(i32, i32)>,
    i: int,
    j: int,
) -> Seq<u8>
    decreases i, j,
{
    if j > 0 {
        stream_bytes(cols, parts, mvs, i, j - 1) + delta_bytes(
            mvs[pu_start(parts, i) + j - 1],
            pu_prediction(cols, parts, mvs, i, j - 1),
        )
    } else if i > 0 {
        stream_bytes(cols, parts, mvs, i - 1, units(parts[i - 1]))
    } else {
        seq![]
    }
}

/// Every difference of the units of the first `n` macroblocks from their predictions fits in 32
/// bits.
pub open spec fn stream_deltas_fit(
    cols: int,
    parts: Seq<u8>,
    mvs: Seq<(i32, i32)>,
    n: int,
) -> bool {
    forall|i: int, j: int|
        0 <= i < n && 0 <= j < units(parts[i]) ==> delta_fits(
            mvs[pu_start(parts, i) + j],
            #[trigger] pu_prediction(cols, parts, mvs, i, j),
        )
}

/// Why a partitioned stream cannot be formed, if it cannot.
pub open spec fn stream_refusal(n_mb: int, parts: Seq<u8>) -> Option<SrsV2Error> {
    if parts.len() != n_mb {
        Some(SrsV2Error::Syntax("P partition byte count mismatch"))
    } else {
        match unit_count(parts, n_mb, 0, 0) {
            Ok(_) => None,
            Err(e) => Some(e),
        }
    }
}

/// Vectors of variable partitions as varints.
pub fn encode_mv_stream_partitioned(
    mb_cols: u32,
    mb_rows: u32,
    partition_types: &[u8],
    pu_mvs: &[(i32, i32)],
) -> (r: Result<Vec<u8>, SrsV2Error>)
    requires
        mb_cols * mb_rows <= u32::MAX,
        stream_refusal(mb_cols * mb_rows, partition_types@) is None && pu_mvs@.len() == pu_start(
            partition_types@,
            mb_cols * mb_rows,
        ) ==> stream_deltas_fit(mb_cols as int, partition_types@, pu_mvs@, mb_cols * mb_rows),
    ensures
        match stream_refusal(mb_cols * mb_rows, partition_types@) {
            Some(e) => r == Err::<Vec<u8>, SrsV2Error>(e),
            None => if pu_mvs@.len() != pu_start(partition_types@, mb_cols * mb_rows) {
                r == Err::<Vec<u8>, SrsV2Error>(SrsV2Error::Syntax("P MV PU count mismatch"))
            } else {
                r is Ok && r->Ok_0@ == stream_bytes(
                    mb_cols as int,
                    partition_types@,
                    pu_mvs@,
                    mb_cols * mb_rows,
                    0,
                )
            },
        },
{
    let n_mb: usize = (mb_cols * mb_rows) as usize;
    if partition_types.len() != n_mb {
        return Err(SrsV2Error::Syntax("P partition byte count mismatch"));
    }
    let total: usize = match total_partition_units_bounded(partition_types, n_mb) {
        Ok(t) => t,
        Err(e) => {
            return Err(e);
        },
    };
    if pu_mvs.len() != total {
        return Err(SrsV2Error::Syntax("P MV PU count mismatch"));
    }
    let ghost cols = mb_cols as int;
    let ghost parts = partition_types@;
    let ghost mvs = pu_mvs@;
    let mut grid_first: Vec<(i32, i32)> = Vec::new();
    let mut out: Vec<u8> = Vec::new();
    let mut pu_i: usize = 0;
    let mut idx: usize = 0;
    while idx < n_mb
        invariant
            idx <= n_mb,
            n_mb == mb_cols * mb_rows,
            n_mb <= u32::MAX,
            cols == mb_cols,
            parts == partition_types@,
            mvs == pu_mvs@,
            parts.len() == n_mb,
            forall|k: int| 0 <= k < parts.len() ==> #[trigger] parts[k] <= 3,
            mvs.len() == pu_start(parts, n_mb as int),
            stream_deltas_fit(cols, parts, mvs, n_mb as int),
            pu_i == pu_start(parts, idx as int),
            grid_first@ == firsts(parts, mvs, idx as int),
            out@ == stream_bytes(cols, parts, mvs, idx as int, 0),
        decreases n_mb - idx,
    {
        assert(mb_cols > 0) by (nonlinear_arith)
            requires
                0 < mb_cols * mb_rows,
        ;
        proof {
            lemma_grid_position(idx as int, cols, mb_rows as int);
            lemma_pu_start(parts, idx as int, n_mb as int);
        }
        let mbx: u32 = idx as u32 % mb_cols;
        let mby: u32 = idx as u32 / mb_cols;
        let spatial = predict_mv_qpel(mbx, mby, mb_cols, grid_first.as_slice());
        let npu: usize = match pu_count_partition_wire(partition_types[idx]) {
            Ok(n) => n,
            Err(e) => {
                return Err(e);
            },
        };
        let start: usize = pu_i;
        let mut j: usize = 0;
        while j < npu
            invariant
                j <= npu,
                idx < n_mb,
                npu == units(parts[idx as int]),
                start == pu_start(parts, idx as int),
                pu_i == start + j,
                start + npu <= mvs.len(),
                mvs == pu_mvs@,
                stream_deltas_fit(cols, parts, mvs, n_mb as int),
                spatial == predicted(cols, firsts(parts, mvs, idx as int), idx as int),
                out@ == stream_bytes(cols, parts, mvs, idx as int, j as int),
            decreases npu - j,
        {
            let pred = if j == 0 {
                spatial
            } else {
                pu_mvs[pu_i - 1]
            };
            let mv = pu_mvs[pu_i];
            assert(pred == pu_prediction(cols, parts, mvs, idx as int, j as int));
            assert(delta_fits(mv, pred));
            let ghost before = out@;
            write_signed_varint(&mut out, mv.0 - pred.0);
            write_signed_varint(&mut out, mv.1 - pred.1);
            assert(out@ =~= before + delta_bytes(mv, pred));
            pu_i += 1;
            j += 1;
        }
        grid_first.push(pu_mvs[start]);
        assert(grid_first@ =~= firsts(parts, mvs, idx + 1));
        assert(stream_bytes(cols, parts, mvs, idx + 1, 0) == stream_bytes(
            cols,
            parts,
            mvs,
            idx as int,
            units(parts[idx as int]),
        ));
        idx += 1;
    }
    Ok(out)
}

/// The units that a partitioned stream spells out: those of macroblocks before `i` and the first
/// `j` of macroblock `i`.
pub open spec fn raw_stream(
    data: Seq<u8>,
    cur: int,
    cols: int,
    parts: Seq<u8>,
    i: int,
    j: int,
) -> GridRead
    decreases i, j,
{
    if j > 0 {
        let g = raw_stream(data, cur, cols, parts, i, j - 1);
        match g.fault {
            Some(_) => g,
            None => {
                let v = read_vector(data, g.next, pu_prediction(cols, parts, g.mvs, i, j - 1));
                match v.value {
                    Ok(mv) => GridRead { mvs: g.mvs.push(mv), next: v.next, fault: None },
                    Err(e) => GridRead { mvs: g.mvs, next: v.next, fault: Some(e) },
                }
            },
        }
    } else if i > 0 {
        raw_stream(data, cur, cols, parts, i - 1, units(parts[i - 1]))
    } else {
        GridRead { mvs: seq![], next: cur, fault: None }
    }
}

/// (i, j) comes no later than (m, n) when units are counted macroblock by macroblock.
spec fn not_after(parts: Seq<u8>, i: int, j: int, m: int, n: int) -> bool {
    0 <= j && 0 <= n && 0 <= i && ((i < m && j <= units(parts[i])) || (i == m && j <= n))
}

proof fn lemma_raw_stream_prefix(
    data: Seq<u8>,
    cur: int,
    cols: int,
    parts: Seq<u8>,
    i: int,
    j: int,
    m: int,
    n: int,
)
    requires
        not_after(parts, i, j, m, n),
    ensures
        ({
            let a = raw_stream(data, cur, cols, parts, i, j);
            let b = raw_stream(data, cur, cols, parts, m, n);
            &&& a.fault is None ==> a.mvs.len() == pu_start(parts, i) + j && a.mvs.len()
                <= b.mvs.len() && a.mvs == b.mvs.take(a.mvs.len() as int)
            &&& a.fault is Some ==> a == b
            &&& b.fault is None ==> b.mvs.len() == pu_start(parts, m) + n
        }),
    decreases m, n,
{
    let a = raw_stream(data, cur, cols, parts, i, j);
    let b = raw_stream(data, cur, cols, parts, m, n);
    if i == m && j == n {
        assert(b.mvs =~= b.mvs.take(b.mvs.len() as int));
        if n > 0 {
            lemma_raw_stream_prefix(data, cur, cols, parts, m, n - 1, m, n - 1);
        } else if m > 0 {
            lemma_raw_stream_prefix(
                data,
                cur,
                cols,
                parts,
                m - 1,
                units(parts[m - 1]),
                m - 1,
                units(parts[m - 1]),
            );
        }
    } else if n > 0 {
        lemma_raw_stream_prefix(data, cur, cols, parts, i, j, m, n - 1);
        let c = raw_stream(data, cur, cols, parts, m, n - 1);
        if a.fault is None {
            assert(a.mvs =~= b.mvs.take(a.mvs.len() as int));
        }
    } else {
        lemma_raw_stream_prefix(data, cur, cols, parts, i, j, m - 1, units(parts[m - 1]));
    }
}

proof fn lemma_raw_stream_step(
    data: Seq<u8>,
    c0: int,
    cols: int,
    parts: Seq<u8>,
    i: int,
    j: int,
    m: int,
)
    requires
        0 <= i < m,
        0 <= j < units(parts[i]),
        raw_stream(data, c0, cols, parts, i, j).fault is None,
    ensures
        ({
            let g = raw_stream(data, c0, cols, parts, i, j);
            let v = read_vector(data, g.next, pu_prediction(cols, parts, g.mvs, i, j));
            let h = raw_stream(data, c0, cols, parts, i, j + 1);
            let whole = raw_stream(data, c0, cols, parts, m, 0);
            &&& g.mvs.len() == pu_start(parts, i) + j
            &&& match v.value {
                Ok(mv) => {
                    &&& h == (GridRead { mvs: g.mvs.push(mv), next: v.next, fault: None })
                    &&& g.mvs.len() < whole.mvs.len()
                    &&& forall|k: int|
                        0 <= k <= g.mvs.len() ==> #[trigger] whole.mvs[k] == h.mvs[k]
                },
                Err(e) => whole.fault == Some(e) && whole.mvs == g.mvs && whole.next == v.next,
            }
        }),
{
    lemma_raw_stream_prefix(data, c0, cols, parts, i, j, i, j);
    lemma_raw_stream_prefix(data, c0, cols, parts, i, j + 1, m, 0);
    let h = raw_stream(data, c0, cols, parts, i, j + 1);
    let whole = raw_stream(data, c0, cols, parts, m, 0);
    if h.fault is None {
        assert forall|k: int| 0 <= k < h.mvs.len() implies #[trigger] whole.mvs[k]
            == h.mvs[k] by {
            assert(whole.mvs.take(h.mvs.len() as int)[k] == whole.mvs[k]);
        }
    }
}

/// Where a checked reading of the units of `n` macroblocks that starts at `cur` leaves the cursor:
/// behind the last vector that was read, or where the reading failed.
pub open spec fn stopped_in_stream<F: Fn(i32, i32) -> Result<(), SrsV2Error>>(
    data: Seq<u8>,
    cur: int,
    cols: int,
    parts: Seq<u8>,
    n: int,
    validate: F,
    r: Result<Vec<(i32, i32)>, SrsV2Error>,
    next: int,
) -> bool {
    let raw = raw_stream(data, cur, cols, parts, n, 0);
    match r {
        Ok(_) => next == raw.next,
        Err(e) => {
            ||| raw.fault == Some(e) && accepted(validate, raw.mvs, raw.mvs.len() as int) && next
                == raw.next
            ||| exists|i: int, j: int|
                0 <= i < n && 0 <= j < units(parts[i]) && refused_at(
                    validate,
                    raw.mvs,
                    pu_start(parts, i) + j,
                    e,
                ) && next == (#[trigger] raw_stream(data, cur, cols, parts, i, j + 1)).next
        },
    }
}

/// Reads the vectors of variable partitions; each has to pass `validate`.
pub fn decode_mv_stream_partitioned<F>(
    data: &[u8],
    cur: &mut usize,
    mb_cols: u32,
    mb_rows: u32,
    partition_types: &[u8],
    validate: &F,
) -> (r: Result<Vec<(i32, i32)>, SrsV2Error>) where F: Fn(i32, i32) -> Result<(), SrsV2Error>
    requires
        mb_cols * mb_rows <= u32::MAX,
        forall|x: i32, y: i32| #[trigger] call_requires(*validate, (x, y)),
    ensures
        match stream_refusal(mb_cols * mb_rows, partition_types@) {
            Some(e) => r == Err::<Vec<(i32, i32)>, SrsV2Error>(e),
            None => checked_reading(
                raw_stream(
                    data@,
                    *old(cur) as int,
                    mb_cols as int,
                    partition_types@,
                    mb_cols * mb_rows,
                    0,
                ),
                *validate,
                r,
            ),
        },
        stream_refusal(mb_cols * mb_rows, partition_types@) is Some ==> *final(cur) == *old(cur),
        stream_refusal(mb_cols * mb_rows, partition_types@) is None ==> stopped_in_stream(
            data@,
            *old(cur) as int,
            mb_cols as int,
            partition_types@,
            mb_cols * mb_rows,
            *validate,
            r,
            *final(cur) as int,
        ),
        r is Ok ==> *old(cur) <= *final(cur),
        r is Ok && *old(cur) <= data@.len() ==> *final(cur) <= data@.len(),
        r matches Ok(g) ==> g@.len() == pu_start(partition_types@, mb_cols * mb_rows),
{
    let n_mb: usize = (mb_cols * mb_rows) as usize;
    if partition_types.len() != n_mb {
        return Err(SrsV2Error::Syntax("P partition byte count mismatch"));
    }
    match total_partition_units_bounded(partition_types, n_mb) {
        Ok(_) => {},
        Err(e) => {
            return Err(e);
        },
    }
    let ghost cols = mb_cols as int;
    let ghost parts = partition_types@;
    let ghost c0 = *cur as int;
    let ghost whole = raw_stream(data@, c0, cols, parts, n_mb as int, 0);
    let mut out: Vec<(i32, i32)> = Vec::new();
    let mut grid_first: Vec<(i32, i32)> = Vec::new();
    let mut idx: usize = 0;
    while idx < n_mb
        invariant
            idx <= n_mb,
            n_mb == mb_cols * mb_rows,
            n_mb <= u32::MAX,
            cols == mb_cols,
            parts == partition_types@,
            parts.len() == n_mb,
            forall|k: int| 0 <= k < parts.len() ==> #[trigger] parts[k] <= 3,
            c0 == *old(cur),
            whole == raw_stream(data@, c0, cols, parts, n_mb as int, 0),
            ({
                let g = raw_stream(data@, c0, cols, parts, idx as int, 0);
                g.fault is None && g.mvs == out@ && g.next == *cur
            }),
            out@.len() == pu_start(parts, idx as int),
            grid_first@ == firsts(parts, out@, idx as int),
            c0 <= *cur,
            c0 <= data@.len() ==> *cur <= data@.len(),
            accepted(*validate, out@, out@.len() as int),
            forall|x: i32, y: i32| #[trigger] call_requires(*validate, (x, y)),
            stream_refusal(n_mb as int, parts) is None,
        decreases n_mb - idx,
    {
        assert(mb_cols > 0) by (nonlinear_arith)
            requires
                0 < mb_cols * mb_rows,
        ;
        proof {
            lemma_grid_position(idx as int, cols, mb_rows as int);
            lemma_pu_start(parts, idx as int, n_mb as int);
        }
        let mbx: u32 = idx as u32 % mb_cols;
        let mby: u32 = idx as u32 / mb_cols;
        let spatial = predict_mv_qpel(mbx, mby, mb_cols, grid_first.as_slice());
        let npu: usize = match pu_count_partition_wire(partition_types[idx]) {
            Ok(n) => n,
            Err(e) => {
                return Err(e);
            },
        };
        let start: usize = out.len();
        let mut j: usize = 0;
        while j < npu
            invariant
                j <= npu,
                idx < n_mb,
                n_mb == mb_cols * mb_rows,
                cols == mb_cols,
                parts == partition_types@,
                npu == units(parts[idx as int]),
                start == pu_start(parts, idx as int),
                out@.len() == start + j,
                c0 == *old(cur),
                whole == raw_stream(data@, c0, cols, parts, n_mb as int, 0),
                grid_first@ == firsts(parts, out@, idx as int),
                spatial == predicted(cols, grid_first@, idx as int),
                ({
                    let g = raw_stream(data@, c0, cols, parts, idx as int, j as int);
                    g.fault is None && g.mvs == out@ && g.next == *cur
                }),
                c0 <= *cur,
                c0 <= data@.len() ==> *cur <= data@.len(),
                accepted(*validate, out@, out@.len() as int),
                forall|x: i32, y: i32| #[trigger] call_requires(*validate, (x, y)),
                stream_refusal(n_mb as int, parts) is None,
            decreases npu - j,
        {
            let pred = if j == 0 {
                spatial
            } else {
                out[out.len() - 1]
            };
            proof {
                lemma_raw_stream_step(data@, c0, cols, parts, idx as int, j as int, n_mb as int);
                lemma_pu_start(parts, idx as int, idx as int);
                assert forall|k: int| 0 <= k < idx implies 0 <= #[trigger] pu_start(parts, k)
                    < out@.len() by {
                    lemma_pu_start(parts, k, idx as int);
                }
            }
            let ghost g0 = out@;
            let mv = match read_mv(data, cur, pred) {
                Ok(mv) => mv,
                Err(e) => {
                    return Err(e);
                },
            };
            out.push(mv);
            let answer = (*validate)(mv.0, mv.1);
            match answer {
                Ok(u) => {
                    assert(u == ());
                    assert(answer == Ok::<(), SrsV2Error>(()));
                },
                Err(e) => {
                    proof {
                        lemma_refused(*validate, g0, whole.mvs, e);
                    }
                    return Err(e);
                },
            }
            proof {
                lemma_accepted_push(*validate, g0, mv);
                assert(firsts(parts, out@, idx as int) =~= firsts(parts, g0, idx as int));
            }
            j += 1;
        }
        grid_first.push(out[start]);
        assert(grid_first@ =~= firsts(parts, out@, idx + 1));
        idx += 1;
    }
    proof {
        lemma_pu_start(parts, 0, n_mb as int);
    }
    Ok(out)
}

proof fn lemma_stream_bytes_prefix(
    cols: int,
    parts: Seq<u8>,
    mvs: Seq<(i32, i32)>,
    i: int,
    j: int,
    m: int,
    n: int,
) -> (rest: Seq<u8>)
    requires
        not_after(parts, i, j, m, n),
    ensures
        stream_bytes(cols, parts, mvs, m, n) == stream_bytes(cols, parts, mvs, i, j) + rest,
    decreases m, n,
{
    let a = stream_bytes(cols, parts, mvs, i, j);
    if i == m && j == n {
        assert(a =~= a + Seq::<u8>::empty());
        Seq::empty()
    } else if n > 0 {
        let r = lemma_stream_bytes_prefix(cols, parts, mvs, i, j, m, n - 1);
        let d = delta_bytes(
            mvs[pu_start(parts, m) + n - 1],
            pu_prediction(cols, parts, mvs, m, n - 1),
        );
        assert(stream_bytes(cols, parts, mvs, m, n) =~= a + (r + d));
        r + d
    } else {
        lemma_stream_bytes_prefix(cols, parts, mvs, i, j, m - 1, units(parts[m - 1]))
    }
}

proof fn lemma_stream_round_trip(
    pre: Seq<u8>,
    cols: int,
    parts: Seq<u8>,
    mvs: Seq<(i32, i32)>,
    i: int,
    j: int,
    n: int,
    post: Seq<u8>,
)
    requires
        0 < cols,
        0 <= n <= parts.len(),
        (0 <= i < n && 0 <= j <= units(parts[i])) || (i == n && j == 0),
        mvs.len() == pu_start(parts, n),
        stream_deltas_fit(cols, parts, mvs, n),
    ensures
        raw_stream(
            pre + stream_bytes(cols, parts, mvs, n, 0) + post,
            pre.len() as int,
            cols,
            parts,
            i,
            j,
        ) == (GridRead {
            mvs: mvs.take(pu_start(parts, i) + j),
            next: (pre.len() + stream_bytes(cols, parts, mvs, i, j).len()) as int,
            fault: None,
        }),
        pu_start(parts, i) + j <= mvs.len(),
    decreases i, j,
{
    let s = pre + stream_bytes(cols, parts, mvs, n, 0) + post;
    lemma_pu_start(parts, i, n);
    if j > 0 {
        lemma_stream_round_trip(pre, cols, parts, mvs, i, j - 1, n, post);
        let rest = lemma_stream_bytes_prefix(cols, parts, mvs, i, j, n, 0);
        let at = pu_start(parts, i) + j - 1;
        let p = pu_prediction(cols, parts, mvs, i, j - 1);
        let d = delta_bytes(mvs[at], p);
        let head = pre + stream_bytes(cols, parts, mvs, i, j - 1);
        assert(s =~= head + d + (rest + post));
        assert(delta_fits(mvs[at], p));
        lemma_read_vector(head, mvs[at], p, rest + post);
        let seen = mvs.take(at);
        assert(pu_prediction(cols, parts, seen, i, j - 1) == p) by {
            if j - 1 == 0 {
                assert forall|k: int| 0 <= k < i implies 0 <= #[trigger] pu_start(parts, k)
                    < at by {
                    lemma_pu_start(parts, k, i);
                }
                assert(firsts(parts, seen, i) =~= firsts(parts, mvs, i));
            }
        }
        assert(mvs.take(at + 1) =~= mvs.take(at).push(mvs[at]));
    } else if i > 0 {
        lemma_stream_round_trip(pre, cols, parts, mvs, i - 1, units(parts[i - 1]), n, post);
    } else {
        assert(mvs.take(0) =~= Seq::empty());
    }
}

/// Reading the bytes of a partitioned stream gives back its vectors and stops right behind them,
/// whatever stands before and after.
pub proof fn mv_stream_round_trip(
    pre: Seq<u8>,
    cols: int,
    parts: Seq<u8>,
    mvs: Seq<(i32, i32)>,
    post: Seq<u8>,
)
    requires
        0 < cols,
        mvs.len() == pu_start(parts, parts.len() as int),
        stream_deltas_fit(cols, parts, mvs, parts.len() as int),
    ensures
        raw_stream(
            pre + stream_bytes(cols, parts, mvs, parts.len() as int, 0) + post,
            pre.len() as int,
            cols,
            parts,
            parts.len() as int,
            0,
        ) == (GridRead {
            mvs,
            next: (pre.len() + stream_bytes(cols, parts, mvs, parts.len() as int, 0).len()) as int,
            fault: None,
        }),
{
    lemma_stream_round_trip(pre, cols, parts, mvs, parts.len() as int, 0, parts.len() as int, post);
    assert(mvs.take(mvs.len() as int) =~= mvs);
}

/// The middle one of three numbers is one of them, with one of the others on either side.
pub proof fn middle_lies_between(a: i32, b: i32, c: i32)
    ensures
        ({
            let m = middle(a, b, c);
            &&& m == a || m == b || m == c
            &&& (a <= m && m <= b) || (b <= m && m <= a) || (a <= m && m <= c) || (c <= m && m <= a)
                || (b <= m && m <= c) || (c <= m && m <= b)
            &&& a == b ==> m == a
            &&& b == c ==> m == b
            &&& a == c ==> m == a
            &&& a < b && b < c ==> m == b
            &&& m == middle(b, a, c)
            &&& m == middle(a, c, b)
        }),
{
}

/// A vector is predicted from its neighbours to the left, above and above right: where two of them
/// agree, that is the prediction. Beyond the edges of the picture neighbours count as still, so
/// the vectors of the first row are predicted as still.
pub proof fn neighbours_predict_vectors(
    cols: int,
    mvs: Seq<(i32, i32)>,
    x: int,
    y: int,
    v: (i32, i32),
)
    requires
        0 <= x < cols,
        0 <= y,
        mvs.len() >= y * cols + x,
    ensures
        ({
            let p = predicted(cols, mvs, y * cols + x);
            let left = mvs[y * cols + x - 1];
            let above = mvs[(y - 1) * cols + x];
            let right = mvs[(y - 1) * cols + x + 1];
            &&& y == 0 ==> p == (0i32, 0i32)
            &&& y > 0 && x > 0 && left == v && above == v ==> p == v
            &&& y > 0 && x > 0 && x + 1 < cols && left == v && right == v ==> p == v
            &&& y > 0 && x + 1 < cols && above == v && right == v ==> p == v
            &&& y > 0 && x > 0 && x + 1 < cols ==> p.0 == middle(left.0, above.0, right.0) && p.1
                == middle(left.1, above.1, right.1)
            &&& y > 0 && x == 0 && x + 1 < cols ==> p.0 == middle(0, above.0, right.0) && p.1
                == middle(0, above.1, right.1)
            &&& y > 0 && x > 0 && x + 1 == cols ==> p.0 == middle(left.0, above.0, 0) && p.1
                == middle(left.1, above.1, 0)
        }),
{
    lemma_position(x, y, cols);
    assert((y - 1) * cols == y * cols - cols) by (nonlinear_arith);
}

/// Small numbers of either sign take few bytes: the wire counts 0, -1, 1, -2, 2 and so on, and one
/// byte holds the first 128 of these.
pub proof fn small_differences_take_one_byte(n: int)
    requires
        -64 <= n < 64,
    ensures
        signed_varint(n).len() == 1,
        n >= 0 ==> signed_varint(n)[0] == 2 * n,
        n < 0 ==> signed_varint(n)[0] == -2 * n - 1,
{
    reveal_with_fuel(varint, 2);
}

/// A longer number goes on in the next byte: its low seven bits come first, with the top bit set.
pub proof fn varints_run_from_the_low_end(u: int)
    requires
        128 <= u,
    ensures
        varint(u).len() == varint(u / 128).len() + 1,
        varint(u)[0] == 128 + u % 128,
        varint(u).skip(1) == varint(u / 128),
{
    assert(varint(u).skip(1) =~= varint(u / 128));
}

/// A unit that moves as the unit before it in its macroblock takes two zero bytes, whatever the
/// others do.
pub proof fn units_that_move_alike_take_two_bytes(
    cols: int,
    parts: Seq<u8>,
    mvs: Seq<(i32, i32)>,
    i: int,
    j: int,
)
    requires
        0 <= i,
        1 <= j,
        mvs[pu_start(parts, i) + j] == mvs[pu_start(parts, i) + j - 1],
    ensures
        stream_bytes(cols, parts, mvs, i, j + 1) == stream_bytes(cols, parts, mvs, i, j) + seq![
            0u8,
            0u8,
        ],
{
    assert(varint(0) =~= seq![0u8]);
    assert(signed_varint(0) + signed_varint(0) =~= seq![0u8, 0u8]);
}

/// The first unit of a macroblock is predicted from the first units of the macroblocks around it: two
/// of them that move alike predict how it moves.
pub proof fn first_units_predict_first_units(
    cols: int,
    parts: Seq<u8>,
    mvs: Seq<(i32, i32)>,
    i: int,
)
    requires
        1 <= cols,
        cols < i,
        i % cols > 0,
        mvs[pu_start(parts, i)] == mvs[pu_start(parts, i - 1)],
        mvs[pu_start(parts, i)] == mvs[pu_start(parts, i - cols)],
    ensures
        stream_bytes(cols, parts, mvs, i, 1) == stream_bytes(cols, parts, mvs, i, 0) + seq![
            0u8,
            0u8,
        ],
{
    assert(varint(0) =~= seq![0u8]);
    assert(signed_varint(0) + signed_varint(0) =~= seq![0u8, 0u8]);
    assert(i / cols > 0) by (nonlinear_arith)
        requires
            1 <= cols,
            cols < i,
    ;
    let f = firsts(parts, mvs, i);
    assert(f[i - 1] == mvs[pu_start(parts, i - 1)]);
    assert(f[i - cols] == mvs[pu_start(parts, i - cols)]);
}

} // verus!
