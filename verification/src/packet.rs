//! Framing shared by both video streams: a sync word, a checked header and the payload.
use vstd::prelude::*;

use crate::bytes::{bytes32, le32, le32_reads_bytes32, push_all, push_u32};

verus! {

/// Bytes of a packet before its payload.
pub const PACKET_HEADER_BYTES: usize = 16;

/// One bit of the CRC-32 division: the low bit leaves, and the reflected IEEE polynomial is taken
/// off where it was set.
pub open spec fn crc_bit(c: u32) -> u32 {
    if c & 1 == 1 {
        (c >> 1) ^ 0xEDB88320
    } else {
        c >> 1
    }
}

/// The CRC-32 register after one more byte.
pub open spec fn crc_byte(c: u32, b: u8) -> u32 {
    crc_bit(crc_bit(crc_bit(crc_bit(crc_bit(crc_bit(crc_bit(crc_bit(c ^ (b as u32)))))))))
}

/// The CRC-32 register after some bytes; it starts with every bit set.
pub open spec fn crc_register(data: Seq<u8>) -> u32
    decreases data.len(),
{
    if data.len() == 0 {
        0xFFFF_FFFF
    } else {
        crc_byte(crc_register(data.drop_last()), data.last())
    }
}

/// The CRC-32 (IEEE) checksum of some bytes: the register with every bit flipped.
pub open spec fn crc32(data: Seq<u8>) -> u32 {
    !crc_register(data)
}

/// `crc32fast::hash`: the CRC-32 (IEEE) checksum of a buffer.
#[verifier::external_body]
fn crc32_of(data: &[u8]) -> (crc: u32)
    ensures
        crc == crc32(data@),
{
    crc32fast::hash(data)
}

proof fn lemma_crc_bit_injective(c: u32, d: u32)
    ensures
        crc_bit(c) == crc_bit(d) ==> c == d,
{
    assert((if c & 1 == 1 {
        (c >> 1) ^ 0xEDB88320
    } else {
        c >> 1
    }) == (if d & 1 == 1 {
        (d >> 1) ^ 0xEDB88320
    } else {
        d >> 1
    }) ==> c == d) by (bit_vector);
}

proof fn lemma_crc_byte_injective(c: u32, a: u8, d: u32, b: u8)
    requires
        crc_byte(c, a) == crc_byte(d, b),
    ensures
        c ^ (a as u32) == d ^ (b as u32),
{
    let c0 = c ^ (a as u32);
    let d0 = d ^ (b as u32);
    lemma_crc_bit_injective(c0, d0);
    lemma_crc_bit_injective(crc_bit(c0), crc_bit(d0));
    lemma_crc_bit_injective(crc_bit(crc_bit(c0)), crc_bit(crc_bit(d0)));
    lemma_crc_bit_injective(crc_bit(crc_bit(crc_bit(c0))), crc_bit(crc_bit(crc_bit(d0))));
    let c4 = crc_bit(crc_bit(crc_bit(crc_bit(c0))));
    let d4 = crc_bit(crc_bit(crc_bit(crc_bit(d0))));
    lemma_crc_bit_injective(c4, d4);
    lemma_crc_bit_injective(crc_bit(c4), crc_bit(d4));
    lemma_crc_bit_injective(crc_bit(crc_bit(c4)), crc_bit(crc_bit(d4)));
    lemma_crc_bit_injective(crc_bit(crc_bit(crc_bit(c4))), crc_bit(crc_bit(crc_bit(d4))));
}

proof fn lemma_registers_differ(data: Seq<u8>, i: int, b: u8)
    requires
        0 <= i < data.len(),
        data[i] != b,
    ensures
        crc_register(data) != crc_register(data.update(i, b)),
    decreases data.len(),
{
    let other = data.update(i, b);
    let c = crc_register(data.drop_last());
    let d = crc_register(other.drop_last());
    if crc_register(data) == crc_register(other) {
        lemma_crc_byte_injective(c, data.last(), d, other.last());
        let x: u8 = data.last();
        let y: u8 = other.last();
        if i == data.len() - 1 {
            assert(other.drop_last() =~= data.drop_last());
            assert(x == y) by (bit_vector)
                requires
                    c ^ (x as u32) == d ^ (y as u32),
                    c == d,
            ;
        } else {
            lemma_registers_differ(data.drop_last(), i, b);
            assert(other.drop_last() =~= data.drop_last().update(i, b));
            assert(c == d) by (bit_vector)
                requires
                    c ^ (x as u32) == d ^ (y as u32),
                    x == y,
            ;
        }
    }
}

/// A changed byte changes the checksum.
pub proof fn changed_byte_changes_checksum(data: Seq<u8>, i: int, b: u8)
    requires
        0 <= i < data.len(),
        data[i] != b,
    ensures
        crc32(data) != crc32(data.update(i, b)),
{
    lemma_registers_differ(data, i, b);
    let c = crc_register(data);
    let d = crc_register(data.update(i, b));
    assert(!c != !d) by (bit_vector)
        requires
            c != d,
    ;
}

/// The bytes that the checksum of a packet covers.
pub open spec fn checked_bytes(version: u8, kind: u8, index: u32, payload: Seq<u8>) -> Seq<u8> {
    seq![version, kind] + bytes32(index as int) + bytes32(payload.len() as int) + payload
}

/// A packet as it stands in a stream.
pub open spec fn packet_bytes(
    version: u8,
    kind: u8,
    index: u32,
    payload: Seq<u8>,
    crc: u32,
) -> Seq<u8> {
    seq![86u8, 80u8, version, kind] + bytes32(index as int) + bytes32(payload.len() as int)
        + bytes32(crc as int) + payload
}

/// The checksum of a packet.
pub fn packet_crc(version: u8, kind: u8, index: u32, payload: &[u8]) -> (crc: u32)
    requires
        payload@.len() <= u32::MAX,
    ensures
        crc == crc32(checked_bytes(version, kind, index, payload@)),
{
    let mut data: Vec<u8> = Vec::new();
    data.push(version);
    data.push(kind);
    push_u32(&mut data, index);
    push_u32(&mut data, payload.len() as u32);
    push_all(&mut data, payload);
    assert(data@ =~= checked_bytes(version, kind, index, payload@));
    crc32_of(data.as_slice())
}

/// A packet with a given checksum.
pub fn assemble_packet(version: u8, kind: u8, index: u32, payload: &[u8], crc: u32) -> (p: Vec<u8>)
    requires
        payload@.len() <= u32::MAX,
    ensures
        p@ == packet_bytes(version, kind, index, payload@, crc),
{
    let mut p: Vec<u8> = Vec::new();
    p.push(86);
    p.push(80);
    p.push(version);
    p.push(kind);
    push_u32(&mut p, index);
    push_u32(&mut p, payload.len() as u32);
    push_u32(&mut p, crc);
    push_all(&mut p, payload);
    assert(p@ =~= packet_bytes(version, kind, index, payload@, crc));
    p
}

/// The fields of a packet stand where a reader looks for them, whatever follows it.
pub proof fn packet_fields(
    version: u8,
    kind: u8,
    index: u32,
    payload: Seq<u8>,
    crc: u32,
    rest: Seq<u8>,
)
    requires
        payload.len() <= u32::MAX,
    ensures
        ({
            let s = packet_bytes(version, kind, index, payload, crc) + rest;
            &&& packet_bytes(version, kind, index, payload, crc).len() == 16 + payload.len()
            &&& s[0] == 86 && s[1] == 80 && s[2] == version && s[3] == kind
            &&& le32(s, 4) == index
            &&& le32(s, 8) == payload.len()
            &&& le32(s, 12) == crc
            &&& s.subrange(16, 16 + payload.len() as int) == payload
            &&& s.skip(16 + payload.len() as int) == rest
        }),
{
    let s = packet_bytes(version, kind, index, payload, crc) + rest;
    let a = seq![86u8, 80u8, version, kind];
    let i = bytes32(index as int);
    let n = bytes32(payload.len() as int);
    let c = bytes32(crc as int);
    le32_reads_bytes32(a, index as int, n + c + payload + rest);
    assert(a + i + (n + c + payload + rest) =~= s);
    le32_reads_bytes32(a + i, payload.len() as int, c + payload + rest);
    assert(a + i + n + (c + payload + rest) =~= s);
    le32_reads_bytes32(a + i + n, crc as int, payload + rest);
    assert(a + i + n + c + (payload + rest) =~= s);
    assert(s.subrange(16, 16 + payload.len() as int) =~= payload);
    assert(s.skip(16 + payload.len() as int) =~= rest);
}

/// A packet with one payload byte changed is the packet of the changed payload under the old
/// checksum, which is not that payload's own.
pub proof fn changed_payload_changes_checksum(
    version: u8,
    kind: u8,
    index: u32,
    payload: Seq<u8>,
    crc: u32,
    i: int,
    b: u8,
)
    requires
        0 <= i < payload.len(),
        payload[i] != b,
    ensures
        packet_bytes(version, kind, index, payload, crc).update(16 + i, b) == packet_bytes(
            version,
            kind,
            index,
            payload.update(i, b),
            crc,
        ),
        crc32(checked_bytes(version, kind, index, payload)) != crc32(
            checked_bytes(version, kind, index, payload.update(i, b)),
        ),
{
    let data = checked_bytes(version, kind, index, payload);
    assert(packet_bytes(version, kind, index, payload, crc).update(16 + i, b) =~= packet_bytes(
        version,
        kind,
        index,
        payload.update(i, b),
        crc,
    ));
    changed_byte_changes_checksum(data, 10 + i, b);
    assert(data.update(10 + i, b) =~= checked_bytes(version, kind, index, payload.update(i, b)));
}

} // verus!
