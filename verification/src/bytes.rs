//! Little-endian fields inside byte strings.
use vstd::prelude::*;

verus! {

/// The unsigned 16-bit little-endian field that starts at `i`.
pub open spec fn le16(s: Seq<u8>, i: int) -> int {
    s[i] + 256 * s[i + 1]
}

/// The unsigned 32-bit little-endian field that starts at `i`.
pub open spec fn le32(s: Seq<u8>, i: int) -> int {
    s[i] + 256 * s[i + 1] + 65536 * s[i + 2] + 16777216 * s[i + 3]
}

/// The value of a 16-bit field read as a two's complement number.
pub open spec fn signed16(v: int) -> int {
    if v >= 32768 { v - 65536 } else { v }
}

/// The value of a 32-bit field read as a two's complement number.
pub open spec fn signed32(v: int) -> int {
    if v >= 2147483648 { v - 4294967296 } else { v }
}

/// The two bytes of a 16-bit field.
pub open spec fn bytes16(v: int) -> Seq<u8> {
    seq![(v % 256) as u8, (v / 256 % 256) as u8]
}

/// The four bytes of a 32-bit field.
pub open spec fn bytes32(v: int) -> Seq<u8> {
    seq![
        (v % 256) as u8,
        (v / 256 % 256) as u8,
        (v / 65536 % 256) as u8,
        (v / 16777216 % 256) as u8,
    ]
}

/// A 16-bit field holds the value that was written to it.
pub proof fn le16_reads_bytes16(pre: Seq<u8>, v: int, post: Seq<u8>)
    requires
        0 <= v < 65536,
    ensures
        le16(pre + bytes16(v) + post, pre.len() as int) == v,
{
    let s = pre + bytes16(v) + post;
    let n = pre.len() as int;
    assert(s[n] == bytes16(v)[0]);
    assert(s[n + 1] == bytes16(v)[1]);
}

/// A 32-bit field holds the value that was written to it.
pub proof fn le32_reads_bytes32(pre: Seq<u8>, v: int, post: Seq<u8>)
    requires
        0 <= v < 4294967296,
    ensures
        le32(pre + bytes32(v) + post, pre.len() as int) == v,
{
    let s = pre + bytes32(v) + post;
    let n = pre.len() as int;
    assert(s[n] == bytes32(v)[0]);
    assert(s[n + 1] == bytes32(v)[1]);
    assert(s[n + 2] == bytes32(v)[2]);
    assert(s[n + 3] == bytes32(v)[3]);
}

/// Appending is associative.
pub proof fn append_is_associative(a: Seq<u8>, b: Seq<u8>, c: Seq<u8>)
    ensures
        a + b + c == a + (b + c),
{
    assert(a + b + c =~= a + (b + c));
}

/// Appends a 16-bit field.
pub fn push_u16(out: &mut Vec<u8>, v: u16)
    ensures
        final(out)@ == old(out)@ + bytes16(v as int),
{
    out.push((v % 256) as u8);
    out.push((v / 256) as u8);
}

/// Appends a 32-bit field.
pub fn push_u32(out: &mut Vec<u8>, v: u32)
    ensures
        final(out)@ == old(out)@ + bytes32(v as int),
{
    out.push((v % 256) as u8);
    out.push((v / 256 % 256) as u8);
    out.push((v / 65536 % 256) as u8);
    out.push((v / 16777216) as u8);
}

/// The bits of `v` as an unsigned number.
pub open spec fn unsigned16(v: int) -> int {
    if v < 0 { v + 65536 } else { v }
}

/// The bits of `v` as an unsigned number.
pub open spec fn unsigned32(v: int) -> int {
    if v < 0 { v + 4294967296 } else { v }
}

/// Appends a signed 16-bit field.
pub fn push_i16(out: &mut Vec<u8>, v: i16)
    ensures
        final(out)@ == old(out)@ + bytes16(unsigned16(v as int)),
{
    let u: u16 = if v < 0 { (v as i32 + 65536) as u16 } else { v as u16 };
    push_u16(out, u);
}

/// Appends a signed 32-bit field.
pub fn push_i32(out: &mut Vec<u8>, v: i32)
    ensures
        final(out)@ == old(out)@ + bytes32(unsigned32(v as int)),
{
    let u: u32 = if v < 0 { (v as i64 + 4294967296) as u32 } else { v as u32 };
    push_u32(out, u);
}

/// Reads the 16-bit field at `i`.
pub fn get_u16(s: &[u8], i: usize) -> (v: u16)
    requires
        i + 2 <= s@.len(),
    ensures
        v == le16(s@, i as int),
{
    s[i] as u16 + 256 * s[i + 1] as u16
}

/// Reads the 32-bit field at `i`.
pub fn get_u32(s: &[u8], i: usize) -> (v: u32)
    requires
        i + 4 <= s@.len(),
    ensures
        v == le32(s@, i as int),
{
    s[i] as u32 + 256 * s[i + 1] as u32 + 65536 * s[i + 2] as u32 + 16777216 * s[i + 3] as u32
}

/// Reads the signed 16-bit field at `i`.
pub fn get_i16(s: &[u8], i: usize) -> (v: i16)
    requires
        i + 2 <= s@.len(),
    ensures
        v == signed16(le16(s@, i as int)),
{
    let u: u16 = get_u16(s, i);
    if u >= 32768 { (u as i32 - 65536) as i16 } else { u as i16 }
}

/// Reads the signed 32-bit field at `i`.
pub fn get_i32(s: &[u8], i: usize) -> (v: i32)
    requires
        i + 4 <= s@.len(),
    ensures
        v == signed32(le32(s@, i as int)),
{
    let u: u32 = get_u32(s, i);
    if u >= 2147483648 { (u as i64 - 4294967296) as i32 } else { u as i32 }
}

/// Appends every byte of `src`.
pub fn push_all(out: &mut Vec<u8>, src: &[u8])
    ensures
        final(out)@ == old(out)@ + src@,
{
    let ghost start = out@;
    let mut i: usize = 0;
    while i < src.len()
        invariant
            i <= src@.len(),
            out@ == start + src@.take(i as int),
        decreases src@.len() - i,
    {
        out.push(src[i]);
        assert(src@.take(i + 1) =~= src@.take(i as int).push(src@[i as int]));
        i += 1;
    }
    assert(src@.take(src@.len() as int) =~= src@);
}

/// A copy of the bytes from `from` up to `to`.
pub fn copy_range(src: &[u8], from: usize, to: usize) -> (out: Vec<u8>)
    requires
        from <= to <= src@.len(),
    ensures
        out@ == src@.subrange(from as int, to as int),
{
    let mut out: Vec<u8> = Vec::with_capacity(to - from);
    let mut i: usize = from;
    while i < to
        invariant
            from <= i <= to <= src@.len(),
            out@ == src@.subrange(from as int, i as int),
        decreases to - i,
    {
        out.push(src[i]);
        assert(src@.subrange(from as int, i + 1) =~= src@.subrange(from as int, i as int).push(
            src@[i as int],
        ));
        i += 1;
    }
    out
}

/// Quotient of `a` by a positive `b`, rounded toward zero.
pub open spec fn tdiv(a: int, b: int) -> int {
    if a >= 0 { a / b } else { -((-a) / b) }
}

/// `v` brought into the range from `lo` to `hi`.
pub open spec fn clip(v: int, lo: int, hi: int) -> int {
    if v < lo { lo } else if v > hi { hi } else { v }
}

/// Fields of several bytes run from the low byte to the high byte.
pub proof fn fields_run_from_the_low_byte(v: int, s: Seq<u8>, i: int)
    ensures
        0 <= v < 65536 ==> v == bytes16(v)[0] + 256 * bytes16(v)[1],
        0 <= v < 4294967296 ==> v == bytes32(v)[0] + 256 * bytes32(v)[1] + 65536 * bytes32(v)[2]
            + 16777216 * bytes32(v)[3],
        bytes16(v).len() == 2,
        bytes32(v).len() == 4,
        le16(s, i) == s[i] + 256 * s[i + 1],
        le32(s, i) == le16(s, i) + 65536 * le16(s, i + 2),
{
}

/// Negative numbers stand at the upper end of their field.
pub proof fn negative_numbers_wrap(v: int)
    ensures
        -32768 <= v < 32768 ==> signed16(unsigned16(v)) == v && 0 <= unsigned16(v) < 65536,
        -32768 <= v < 0 ==> unsigned16(v) == v + 65536,
        0 <= v < 32768 ==> unsigned16(v) == v,
        -2147483648 <= v < 2147483648 ==> signed32(unsigned32(v)) == v && 0 <= unsigned32(v)
            < 4294967296,
        -2147483648 <= v < 0 ==> unsigned32(v) == v + 4294967296,
        0 <= v < 2147483648 ==> unsigned32(v) == v,
{
}

} // verus!
