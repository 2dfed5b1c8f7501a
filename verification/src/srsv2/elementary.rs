//! `.srsv2` elementary stream: a sequence header, then checked payload packets.
use vstd::prelude::*;
use vstd::slice::slice_subrange;

use crate::bytes::{copy_range, get_u32, le32, push_all};
use crate::packet::{
    assemble_packet, changed_payload_changes_checksum, checked_bytes, crc32, packet_bytes,
    packet_crc, packet_fields,
};
use super::error::SrsV2Error;
use super::limits::{MAX_FRAME_PAYLOAD_BYTES, MAX_REF_FRAMES};
use super::model::{
    decode_sequence_header_v2, encode_sequence_header_v2, header_bytes, header_matches,
    header_matches_own_bytes, header_refusal, sequence_header_round_trip, SEQUENCE_HEADER_BYTES,
    SEQUENCE_MAGIC, VideoSequenceHeaderV2,
};

verus! {

pub const SRSV2_STREAM_PACKET_VERSION: u8 = 2;

/// The packet that a payload becomes in a stream, or why it is refused.
pub open spec fn payload_packet(index: u32, payload: Seq<u8>) -> Result<Seq<u8>, SrsV2Error> {
    if payload.len() > MAX_FRAME_PAYLOAD_BYTES {
        Err(SrsV2Error::AllocationLimit { context: "elementary frame payload" })
    } else {
        Ok(packet_bytes(2, 0, index, payload, crc32(checked_bytes(2, 0, index, payload))))
    }
}

/// How many bytes the next packet must have before it can be judged further, if the bytes at
/// hand are too few.
pub open spec fn payload_need(b: Seq<u8>) -> Option<int> {
    if b.len() < 2 {
        Some(2)
    } else if !(b[0] == 86 && b[1] == 80) {
        None
    } else if b.len() < 4 {
        Some(4)
    } else if b[2] != 2 {
        None
    } else if b.len() < 12 {
        Some(12)
    } else if le32(b, 8) > MAX_FRAME_PAYLOAD_BYTES {
        None
    } else if b.len() < 16 + le32(b, 8) {
        Some(16 + le32(b, 8))
    } else {
        None
    }
}

/// How many bytes are read for the next packet.
pub open spec fn payload_span(b: Seq<u8>) -> int {
    if payload_need(b) is Some {
        b.len() as int
    } else if !(b[0] == 86 && b[1] == 80) {
        2
    } else if b[2] != 2 {
        4
    } else if le32(b, 8) > MAX_FRAME_PAYLOAD_BYTES {
        12
    } else {
        16 + le32(b, 8)
    }
}

/// A packet whose bytes are all there, with the checksum that they have.
pub open spec fn judged_payload(b: Seq<u8>, actual: u32) -> Result<(u32, Seq<u8>), SrsV2Error> {
    if actual != le32(b, 12) {
        Err(SrsV2Error::Syntax("crc mismatch srsv2"))
    } else {
        Ok((le32(b, 4) as u32, b.subrange(16, 16 + le32(b, 8))))
    }
}

/// What the next packet says once there are bytes enough.
pub open spec fn payload_result(b: Seq<u8>) -> Result<(u32, Seq<u8>), SrsV2Error> {
    if !(b[0] == 86 && b[1] == 80) {
        Err(SrsV2Error::Syntax("bad VP sync in srsv2"))
    } else if b[2] != 2 {
        Err(SrsV2Error::UnsupportedVersion(b[2]))
    } else if le32(b, 8) > MAX_FRAME_PAYLOAD_BYTES {
        Err(SrsV2Error::LimitExceeded("elementary payload"))
    } else {
        judged_payload(
            b,
            crc32(checked_bytes(b[2], b[3], le32(b, 4) as u32, b.subrange(16, 16 + le32(b, 8)))),
        )
    }
}

/// What can be said of the next packet from the bytes at hand.
pub enum PayloadStep {
    /// The packet needs this many bytes in all before it can be judged further.
    Need(usize),
    Failed(SrsV2Error),
    Payload(u32, Vec<u8>),
}

/// Hands out the payload of a packet whose bytes are all there and whose checksum is `actual`.
pub fn judge_payload(packet: &[u8], actual: u32) -> (r: Result<(u32, Vec<u8>), SrsV2Error>)
    requires
        packet@.len() >= 16,
        packet@.len() >= 16 + le32(packet@, 8),
    ensures
        match judged_payload(packet@, actual) {
            Ok(p) => r is Ok && r->Ok_0.0 == p.0 && r->Ok_0.1@ == p.1,
            Err(e) => r == Err::<(u32, Vec<u8>), SrsV2Error>(e),
        },
{
    if actual != get_u32(packet, 12) {
        return Err(SrsV2Error::syntax("crc mismatch srsv2"));
    }
    let have: usize = packet.len();
    let n: usize = get_u32(packet, 8) as usize;
    assert(16 + n <= have);
    Ok((get_u32(packet, 4), copy_range(packet, 16, 16 + n)))
}

/// What the bytes at hand say of the next packet.
pub fn payload_step(bytes: &[u8]) -> (r: PayloadStep)
    ensures
        match payload_need(bytes@) {
            Some(n) => r == PayloadStep::Need(n as usize) && n <= 16 + MAX_FRAME_PAYLOAD_BYTES,
            None => match payload_result(bytes@) {
                Ok(p) => (r matches PayloadStep::Payload(i, v) && i == p.0 && v@ == p.1),
                Err(e) => r == PayloadStep::Failed(e),
            },
        },
{
    let have: usize = bytes.len();
    if have < 2 {
        return PayloadStep::Need(2);
    }
    if !(bytes[0] == 86 && bytes[1] == 80) {
        return PayloadStep::Failed(SrsV2Error::syntax("bad VP sync in srsv2"));
    }
    if have < 4 {
        return PayloadStep::Need(4);
    }
    if bytes[2] != SRSV2_STREAM_PACKET_VERSION {
        return PayloadStep::Failed(SrsV2Error::UnsupportedVersion(bytes[2]));
    }
    if have < 12 {
        return PayloadStep::Need(12);
    }
    let n: usize = get_u32(bytes, 8) as usize;
    if n > MAX_FRAME_PAYLOAD_BYTES {
        return PayloadStep::Failed(SrsV2Error::LimitExceeded("elementary payload"));
    }
    if have < 16 + n {
        return PayloadStep::Need(16 + n);
    }
    let payload: &[u8] = slice_subrange(bytes, 16, 16 + n);
    let actual: u32 = packet_crc(bytes[2], bytes[3], get_u32(bytes, 4), payload);
    match judge_payload(bytes, actual) {
        Ok((i, v)) => PayloadStep::Payload(i, v),
        Err(e) => PayloadStep::Failed(e),
    }
}

fn span_of(bytes: &[u8]) -> (n: usize)
    ensures
        n == payload_span(bytes@),
        n <= bytes@.len(),
{
    let have: usize = bytes.len();
    if have < 2 {
        return have;
    }
    if !(bytes[0] == 86 && bytes[1] == 80) {
        return 2;
    }
    if have < 4 {
        return have;
    }
    if bytes[2] != SRSV2_STREAM_PACKET_VERSION {
        return 4;
    }
    if have < 12 {
        return have;
    }
    let n: usize = get_u32(bytes, 8) as usize;
    if n > MAX_FRAME_PAYLOAD_BYTES {
        return 12;
    }
    if have < 16 + n {
        have
    } else {
        16 + n
    }
}

/// Writes a stream into memory.
pub struct VideoStreamWriterV2 {
    inner: Vec<u8>,
}

impl VideoStreamWriterV2 {
    /// What was written so far.
    pub closed spec fn written(&self) -> Seq<u8> {
        self.inner@
    }

    pub fn new(inner: Vec<u8>, seq: &VideoSequenceHeaderV2) -> (w: Self)
        ensures
            w.written() == inner@ + header_bytes(*seq),
    {
        let mut inner: Vec<u8> = inner;
        let head: [u8; SEQUENCE_HEADER_BYTES] = encode_sequence_header_v2(seq);
        push_all(&mut inner, head.as_slice());
        VideoStreamWriterV2 { inner }
    }

    /// Appends a payload.
    pub fn write_frame_payload(&mut self, frame_index: u32, payload: &[u8]) -> (r: Result<
        (),
        SrsV2Error,
    >)
        ensures
            match payload_packet(frame_index, payload@) {
                Ok(p) => final(self).written() == old(self).written() + p && r is Ok,
                Err(e) => final(self).written() == old(self).written() && r == Err::<
                    (),
                    SrsV2Error,
                >(e),
            },
    {
        if payload.len() > MAX_FRAME_PAYLOAD_BYTES {
            return Err(SrsV2Error::AllocationLimit { context: "elementary frame payload" });
        }
        let crc: u32 = packet_crc(SRSV2_STREAM_PACKET_VERSION, 0, frame_index, payload);
        let packet: Vec<u8> = assemble_packet(
            SRSV2_STREAM_PACKET_VERSION,
            0,
            frame_index,
            payload,
            crc,
        );
        push_all(&mut self.inner, packet.as_slice());
        Ok(())
    }

    pub fn into_inner(self) -> (v: Vec<u8>)
        ensures
            v@ == self.written(),
    {
        self.inner
    }
}

/// Reads a stream from memory.
pub struct VideoStreamReaderV2 {
    inner: Vec<u8>,
    at: usize,
    pub seq: VideoSequenceHeaderV2,
}

impl VideoStreamReaderV2 {
    /// The cursor stands inside the stream.
    pub closed spec fn valid(&self) -> bool {
        self.at <= self.inner@.len()
    }

    /// The header that the stream began with.
    pub closed spec fn head(&self) -> VideoSequenceHeaderV2 {
        self.seq
    }

    /// What was not read yet.
    pub closed spec fn rest(&self) -> Seq<u8> {
        self.inner@.skip(self.at as int)
    }

    pub fn new(inner: Vec<u8>) -> (r: Result<Self, SrsV2Error>)
        ensures
            inner@.len() < SEQUENCE_HEADER_BYTES ==> r == Err::<Self, SrsV2Error>(
                SrsV2Error::UnexpectedEof,
            ),
            inner@.len() >= SEQUENCE_HEADER_BYTES ==> match header_refusal(
                inner@.take(SEQUENCE_HEADER_BYTES as int),
            ) {
                Some(e) => r == Err::<Self, SrsV2Error>(e),
                None => {
                    &&& r is Ok
                    &&& r->Ok_0.valid()
                    &&& header_matches(r->Ok_0.head(), inner@.take(SEQUENCE_HEADER_BYTES as int))
                    &&& r->Ok_0.rest() == inner@.skip(SEQUENCE_HEADER_BYTES as int)
                },
            },
    {
        if inner.len() < SEQUENCE_HEADER_BYTES {
            return Err(SrsV2Error::UnexpectedEof);
        }
        let head: &[u8] = slice_subrange(inner.as_slice(), 0, SEQUENCE_HEADER_BYTES);
        assert(head@ =~= inner@.take(SEQUENCE_HEADER_BYTES as int));
        let seq: VideoSequenceHeaderV2 = decode_sequence_header_v2(head)?;
        Ok(VideoStreamReaderV2 { inner, at: SEQUENCE_HEADER_BYTES, seq })
    }

    /// Reads the next payload and its index; `None` where no packet begins any more.
    pub fn read_next_payload(&mut self) -> (r: Result<Option<(u32, Vec<u8>)>, SrsV2Error>)
        requires
            old(self).valid(),
        ensures
            final(self).valid(),
            final(self).head() == old(self).head(),
            final(self).rest() == old(self).rest().skip(payload_span(old(self).rest())),
            match payload_need(old(self).rest()) {
                Some(n) => r == if n == 2 {
                    Ok::<Option<(u32, Vec<u8>)>, SrsV2Error>(None)
                } else {
                    Err::<Option<(u32, Vec<u8>)>, SrsV2Error>(SrsV2Error::UnexpectedEof)
                },
                None => match payload_result(old(self).rest()) {
                    Ok(p) => (r matches Ok(Some(v)) && v.0 == p.0 && v.1@ == p.1),
                    Err(e) => r == Err::<Option<(u32, Vec<u8>)>, SrsV2Error>(e),
                },
            },
    {
        let ghost rest = self.rest();
        let bytes: &[u8] = slice_subrange(self.inner.as_slice(), self.at, self.inner.len());
        assert(bytes@ =~= rest);
        let step: PayloadStep = payload_step(bytes);
        let n: usize = span_of(bytes);
        self.at = self.at + n;
        assert(self.rest() =~= rest.skip(n as int));
        match step {
            PayloadStep::Need(k) => if k == 2 {
                Ok(None)
            } else {
                Err(SrsV2Error::UnexpectedEof)
            },
            PayloadStep::Failed(e) => Err(e),
            PayloadStep::Payload(i, v) => Ok(Some((i, v))),
        }
    }
}

/// Whether a stream begins like an `.srsv2` stream.
pub fn peek_is_srsv2(first_four: &[u8]) -> (r: bool)
    ensures
        r <==> first_four@.len() >= 4 && first_four@.take(4) == SEQUENCE_MAGIC@,
{
    if first_four.len() < 4 {
        return false;
    }
    let ghost m = first_four@.take(4);
    assert(m[0] == first_four@[0] && m[1] == first_four@[1] && m[2] == first_four@[2] && m[3]
        == first_four@[3]);
    let r = first_four[0] == SEQUENCE_MAGIC[0] && first_four[1] == SEQUENCE_MAGIC[1]
        && first_four[2] == SEQUENCE_MAGIC[2] && first_four[3] == SEQUENCE_MAGIC[3];
    proof {
        if r {
            assert(m =~= SEQUENCE_MAGIC@);
        }
    }
    r
}

/// A reader that meets a written payload reads it and stops right behind it.
pub proof fn written_payload_is_read(index: u32, payload: Seq<u8>, rest: Seq<u8>)
    requires
        payload_packet(index, payload) is Ok,
    ensures
        ({
            let p = payload_packet(index, payload)->Ok_0;
            let b = p + rest;
            &&& payload_need(b) is None
            &&& payload_result(b) == Ok::<(u32, Seq<u8>), SrsV2Error>((index, payload))
            &&& payload_span(b) == p.len()
            &&& b.skip(payload_span(b)) == rest
        }),
{
    let crc = crc32(checked_bytes(2, 0, index, payload));
    packet_fields(2, 0, index, payload, crc, rest);
}

/// A reader that meets a written payload with one byte changed refuses it, and still stops right
/// behind it.
pub proof fn changed_payload_is_refused(index: u32, payload: Seq<u8>, i: int, v: u8, rest: Seq<u8>)
    requires
        payload_packet(index, payload) is Ok,
        0 <= i < payload.len(),
        payload[i] != v,
    ensures
        ({
            let p = payload_packet(index, payload)->Ok_0;
            let b = p.update(16 + i, v) + rest;
            &&& payload_need(b) is None
            &&& payload_result(b) == Err::<(u32, Seq<u8>), SrsV2Error>(
                SrsV2Error::Syntax("crc mismatch srsv2"),
            )
            &&& b.skip(payload_span(b)) == rest
        }),
{
    let crc = crc32(checked_bytes(2, 0, index, payload));
    changed_payload_changes_checksum(2, 0, index, payload, crc, i, v);
    packet_fields(2, 0, index, payload.update(i, v), crc, rest);
}

/// The bytes of payloads written one after another.
pub open spec fn payload_stream(list: Seq<(u32, Seq<u8>)>) -> Seq<u8>
    decreases list.len(),
{
    if list.len() == 0 {
        seq![]
    } else {
        payload_stream(list.drop_last()) + payload_packet(list.last().0, list.last().1)->Ok_0
    }
}

/// What a reader has left of some bytes after `n` reads.
pub open spec fn left_after(b: Seq<u8>, n: nat) -> Seq<u8>
    decreases n,
{
    if n == 0 {
        b
    } else {
        let a = left_after(b, (n - 1) as nat);
        a.skip(payload_span(a))
    }
}

proof fn lemma_payloads_read(list: Seq<(u32, Seq<u8>)>, rest: Seq<u8>)
    requires
        forall|k: int|
            0 <= k < list.len() ==> (#[trigger] list[k]).1.len() <= MAX_FRAME_PAYLOAD_BYTES,
    ensures
        left_after(payload_stream(list) + rest, list.len()) == rest,
        forall|k: int|
            0 <= k < list.len() ==> {
                let a = #[trigger] left_after(payload_stream(list) + rest, k as nat);
                &&& payload_need(a) is None
                &&& payload_result(a) == Ok::<(u32, Seq<u8>), SrsV2Error>(list[k])
            },
    decreases list.len(),
{
    let all = payload_stream(list) + rest;
    if list.len() == 0 {
        assert(all =~= rest);
    } else {
        let init = list.drop_last();
        let last = list.last();
        assert(list[list.len() - 1] == last);
        let p = payload_packet(last.0, last.1)->Ok_0;
        assert forall|k: int| 0 <= k < init.len() implies (#[trigger] init[k]).1.len()
            <= MAX_FRAME_PAYLOAD_BYTES by {
            assert(init[k] == list[k]);
        }
        lemma_payloads_read(init, p + rest);
        assert(payload_stream(init) + (p + rest) =~= all);
        assert(left_after(all, init.len()) == p + rest);
        written_payload_is_read(last.0, last.1, rest);
        assert forall|k: int| 0 <= k < list.len() implies {
            let a = #[trigger] left_after(all, k as nat);
            &&& payload_need(a) is None
            &&& payload_result(a) == Ok::<(u32, Seq<u8>), SrsV2Error>(list[k])
        } by {
            if k < init.len() {
                assert(init[k] == list[k]);
                let a = left_after(payload_stream(init) + (p + rest), k as nat);
                assert(payload_need(a) is None);
            } else {
                assert(k as nat == init.len());
            }
        }
    }
}

/// A reader hands out the payloads of a written stream in the order in which they were written,
/// and then finds that no packet begins any more.
pub proof fn written_payloads_are_read_in_order(
    seq: VideoSequenceHeaderV2,
    list: Seq<(u32, Seq<u8>)>,
)
    requires
        seq.max_ref_frames <= MAX_REF_FRAMES,
        forall|k: int| 0 <= k < list.len() ==> payload_packet(list[k].0, list[k].1) is Ok,
    ensures
        ({
            let s = header_bytes(seq) + payload_stream(list);
            let b = s.skip(SEQUENCE_HEADER_BYTES as int);
            &&& header_refusal(s.take(SEQUENCE_HEADER_BYTES as int)) is None
            &&& forall|h: VideoSequenceHeaderV2|
                header_matches(h, s.take(SEQUENCE_HEADER_BYTES as int)) ==> h == seq
            &&& forall|k: int|
                0 <= k < list.len() ==> {
                    let a = #[trigger] left_after(b, k as nat);
                    &&& payload_need(a) is None
                    &&& payload_result(a) == Ok::<(u32, Seq<u8>), SrsV2Error>(list[k])
                }
            &&& payload_need(left_after(b, list.len())) == Some(2int)
        }),
{
    let s = header_bytes(seq) + payload_stream(list);
    assert(s.take(SEQUENCE_HEADER_BYTES as int) =~= header_bytes(seq));
    assert(s.skip(SEQUENCE_HEADER_BYTES as int) =~= payload_stream(list) + Seq::<u8>::empty());
    assert forall|k: int| 0 <= k < list.len() implies (#[trigger] list[k]).1.len()
        <= MAX_FRAME_PAYLOAD_BYTES by {
        assert(payload_packet(list[k].0, list[k].1) is Ok);
    }
    lemma_payloads_read(list, seq![]);
    assert(header_matches(seq, header_bytes(seq))) by {
        header_matches_own_bytes(seq);
    }
    sequence_header_round_trip(seq, seq);
    assert forall|h: VideoSequenceHeaderV2| header_matches(h, header_bytes(seq)) implies h == seq by {
        sequence_header_round_trip(seq, h);
    }
}

} // verus!
