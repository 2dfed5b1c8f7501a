//! Grayscale elementary stream: a 16-byte header, then checked frame packets.
use vstd::prelude::*;
use vstd::slice::slice_subrange;

use crate::bytes::{bytes32, get_u32, le32, le32_reads_bytes32, push_all};
use crate::codec::{
    decode_frame, encode_frame, frame_payload, frame_round_trip, payload_samples, type_code,
    type_of, FrameType, VideoFrame,
};
use crate::error::VideoCodecError;
use crate::packet::{
    assemble_packet, changed_payload_changes_checksum, checked_bytes, crc32, packet_bytes,
    packet_crc, packet_fields,
};

verus! {

#[derive(Debug, Clone, Copy, PartialEq, Eq, Structural)]
pub struct VideoStreamHeader {
    pub width: u32,
    pub height: u32,
}

/// A stream header as it stands in a stream.
pub open spec fn stream_header_bytes(h: VideoStreamHeader) -> Seq<u8> {
    seq![83u8, 82u8, 83u8, 86u8, 1u8, 0u8, 0u8, 0u8] + bytes32(h.width as int) + bytes32(
        h.height as int,
    )
}

/// The header that 16 bytes spell, or why they are refused.
pub open spec fn stream_header_of(b: Seq<u8>) -> Result<VideoStreamHeader, VideoCodecError> {
    if !(b[0] == 83 && b[1] == 82 && b[2] == 83 && b[3] == 86) {
        Err(VideoCodecError::InvalidData("invalid video stream magic"))
    } else if b[4] != 1 {
        Err(VideoCodecError::InvalidData("unsupported video stream version"))
    } else if le32(b, 8) == 0 || le32(b, 12) == 0 {
        Err(VideoCodecError::InvalidData("invalid zero dimension stream"))
    } else {
        Ok(VideoStreamHeader { width: le32(b, 8) as u32, height: le32(b, 12) as u32 })
    }
}

fn byte_of(v: u32, k: u32) -> (b: u8)
    requires
        k < 4,
    ensures
        b == bytes32(v as int)[k as int],
{
    if k == 0 {
        (v % 256) as u8
    } else if k == 1 {
        (v / 256 % 256) as u8
    } else if k == 2 {
        (v / 65536 % 256) as u8
    } else {
        (v / 16777216) as u8
    }
}

impl VideoStreamHeader {
    pub fn encode(&self) -> (b: [u8; 16])
        ensures
            b@ == stream_header_bytes(*self),
    {
        let (w, h): (u32, u32) = (self.width, self.height);
        let b: [u8; 16] = [
            83,
            82,
            83,
            86,
            1,
            0,
            0,
            0,
            byte_of(w, 0),
            byte_of(w, 1),
            byte_of(w, 2),
            byte_of(w, 3),
            byte_of(h, 0),
            byte_of(h, 1),
            byte_of(h, 2),
            byte_of(h, 3),
        ];
        assert(b@ =~= stream_header_bytes(*self));
        b
    }

    pub fn decode(bytes: [u8; 16]) -> (r: Result<Self, VideoCodecError>)
        ensures
            r == stream_header_of(bytes@),
    {
        if !(bytes[0] == 83 && bytes[1] == 82 && bytes[2] == 83 && bytes[3] == 86) {
            return Err(VideoCodecError::InvalidData("invalid video stream magic"));
        }
        if bytes[4] != 1 {
            return Err(VideoCodecError::InvalidData("unsupported video stream version"));
        }
        let s: &[u8] = bytes.as_slice();
        let width: u32 = get_u32(s, 8);
        let height: u32 = get_u32(s, 12);
        if width == 0 || height == 0 {
            return Err(VideoCodecError::InvalidData("invalid zero dimension stream"));
        }
        Ok(VideoStreamHeader { width, height })
    }
}

/// A header with two nonzero sides is read back from its bytes.
pub proof fn stream_header_round_trip(h: VideoStreamHeader)
    requires
        h.width > 0,
        h.height > 0,
    ensures
        stream_header_of(stream_header_bytes(h)) == Ok::<VideoStreamHeader, VideoCodecError>(h),
{
    let a = seq![83u8, 82u8, 83u8, 86u8, 1u8, 0u8, 0u8, 0u8];
    let w = bytes32(h.width as int);
    let v = bytes32(h.height as int);
    le32_reads_bytes32(a, h.width as int, v);
    le32_reads_bytes32(a + w, h.height as int, seq![]);
    assert(a + w + v + seq![] =~= stream_header_bytes(h));
}

#[derive(Debug, Clone, Copy, PartialEq, Eq, Structural)]
pub struct FramePacketMetadata {
    pub frame_index: u32,
    pub frame_type: FrameType,
    pub payload_len: u32,
    pub crc32: u32,
}

/// What the head of a frame packet says, or why it is refused.
pub open spec fn packet_head(p: Seq<u8>) -> Result<FramePacketMetadata, VideoCodecError> {
    if p.len() < 16 {
        Err(VideoCodecError::InvalidData("packet too small for video frame header"))
    } else if !(p[0] == 86 && p[1] == 80) {
        Err(VideoCodecError::InvalidData("invalid video packet sync"))
    } else if p[2] != 1 {
        Err(VideoCodecError::InvalidData("unsupported video packet version"))
    } else {
        match type_of(p[3]) {
            Err(e) => Err(e),
            Ok(t) => Ok(
                FramePacketMetadata {
                    frame_index: le32(p, 4) as u32,
                    frame_type: t,
                    payload_len: le32(p, 8) as u32,
                    crc32: le32(p, 12) as u32,
                },
            ),
        }
    }
}

pub fn parse_video_frame_packet_header(packet: &[u8]) -> (r: Result<
    FramePacketMetadata,
    VideoCodecError,
>)
    ensures
        r == packet_head(packet@),
{
    if packet.len() < 16 {
        return Err(VideoCodecError::InvalidData("packet too small for video frame header"));
    }
    if !(packet[0] == 86 && packet[1] == 80) {
        return Err(VideoCodecError::InvalidData("invalid video packet sync"));
    }
    if packet[2] != 1 {
        return Err(VideoCodecError::InvalidData("unsupported video packet version"));
    }
    let frame_type: FrameType = FrameType::from_u8(packet[3])?;
    Ok(
        FramePacketMetadata {
            frame_index: get_u32(packet, 4),
            frame_type,
            payload_len: get_u32(packet, 8),
            crc32: get_u32(packet, 12),
        },
    )
}

/// What can be said of the next packet from the bytes at hand.
pub enum FrameStep {
    /// The packet needs this many bytes in all before it can be judged further.
    Need(u64),
    Failed(VideoCodecError),
    Frame(VideoFrame),
}

/// A packet whose bytes are all there, with the checksum that they have.
pub open spec fn judged_packet(
    w: int,
    h: int,
    p: Seq<u8>,
    actual: u32,
) -> Result<Seq<u8>, VideoCodecError> {
    if actual != le32(p, 12) {
        Err(VideoCodecError::CrcMismatch { expected: le32(p, 12) as u32, actual })
    } else {
        match type_of(p[3]) {
            Err(e) => Err(e),
            Ok(t) => payload_samples(w, h, t, p.subrange(16, 16 + le32(p, 8))),
        }
    }
}

/// A frame is the one whose samples, index and type a packet holds.
pub open spec fn frame_of_packet(
    f: VideoFrame,
    header: VideoStreamHeader,
    p: Seq<u8>,
    samples: Seq<u8>,
) -> bool {
    &&& f.width == header.width
    &&& f.height == header.height
    &&& f.frame_index == le32(p, 4)
    &&& Ok::<FrameType, VideoCodecError>(f.frame_type) == type_of(p[3])
    &&& f.data@ == samples
}

/// Decodes a packet whose bytes are all there and whose checksum is `actual`.
pub fn judge_packet(header: &VideoStreamHeader, packet: &[u8], actual: u32) -> (r: Result<
    VideoFrame,
    VideoCodecError,
>)
    requires
        packet@.len() >= 16,
        packet@.len() >= 16 + le32(packet@, 8),
    ensures
        match judged_packet(header.width as int, header.height as int, packet@, actual) {
            Ok(s) => r is Ok && frame_of_packet(r->Ok_0, *header, packet@, s),
            Err(e) => r == Err::<VideoFrame, VideoCodecError>(e),
        },
{
    let expected: u32 = get_u32(packet, 12);
    if actual != expected {
        return Err(VideoCodecError::CrcMismatch { expected, actual });
    }
    let frame_type: FrameType = FrameType::from_u8(packet[3])?;
    let n: usize = get_u32(packet, 8) as usize;
    let payload: &[u8] = slice_subrange(packet, 16, 16 + n);
    decode_frame(header.width, header.height, get_u32(packet, 4), frame_type, payload)
}

/// How many bytes the next packet must have before it can be judged further, if the bytes at
/// hand are too few.
pub open spec fn packet_need(b: Seq<u8>) -> Option<int> {
    if b.len() < 2 {
        Some(2)
    } else if !(b[0] == 86 && b[1] == 80) {
        None
    } else if b.len() < 4 {
        Some(4)
    } else if b[2] != 1 || type_of(b[3]) is Err {
        None
    } else if b.len() < 16 {
        Some(16)
    } else if b.len() < 16 + le32(b, 8) {
        Some(16 + le32(b, 8))
    } else {
        None
    }
}

/// How many bytes are read for the next packet.
pub open spec fn packet_span(b: Seq<u8>) -> int {
    if packet_need(b) is Some {
        b.len() as int
    } else if !(b[0] == 86 && b[1] == 80) {
        2
    } else if b[2] != 1 || type_of(b[3]) is Err {
        4
    } else {
        16 + le32(b, 8)
    }
}

/// What the next packet says once there are bytes enough: its samples, or why it is refused.
pub open spec fn packet_result(
    header: VideoStreamHeader,
    b: Seq<u8>,
) -> Result<Seq<u8>, VideoCodecError> {
    if !(b[0] == 86 && b[1] == 80) {
        Err(VideoCodecError::InvalidData("invalid video packet sync"))
    } else if b[2] != 1 {
        Err(VideoCodecError::InvalidData("unsupported video packet version"))
    } else {
        match type_of(b[3]) {
            Err(e) => Err(e),
            Ok(t) => judged_packet(
                header.width as int,
                header.height as int,
                b,
                crc32(
                    checked_bytes(
                        b[2],
                        b[3],
                        le32(b, 4) as u32,
                        b.subrange(16, 16 + le32(b, 8)),
                    ),
                ),
            ),
        }
    }
}

/// What the bytes at hand say of the next packet.
pub fn frame_step(header: &VideoStreamHeader, bytes: &[u8]) -> (r: FrameStep)
    ensures
        match packet_need(bytes@) {
            Some(n) => r == FrameStep::Need(n as u64) && n <= u64::MAX,
            None => match packet_result(*header, bytes@) {
                Ok(s) => (r matches FrameStep::Frame(f) && frame_of_packet(f, *header, bytes@, s)),
                Err(e) => r == FrameStep::Failed(e),
            },
        },
{
    let have: usize = bytes.len();
    if have < 2 {
        return FrameStep::Need(2);
    }
    if !(bytes[0] == 86 && bytes[1] == 80) {
        return FrameStep::Failed(VideoCodecError::InvalidData("invalid video packet sync"));
    }
    if have < 4 {
        return FrameStep::Need(4);
    }
    if bytes[2] != 1 {
        return FrameStep::Failed(VideoCodecError::InvalidData("unsupported video packet version"));
    }
    match FrameType::from_u8(bytes[3]) {
        Err(e) => {
            return FrameStep::Failed(e);
        },
        Ok(_) => {},
    }
    if have < 16 {
        return FrameStep::Need(16);
    }
    let n: u32 = get_u32(bytes, 8);
    if have as u64 - 16 < n as u64 {
        return FrameStep::Need(16 + n as u64);
    }
    let payload: &[u8] = slice_subrange(bytes, 16, 16 + n as usize);
    let actual: u32 = packet_crc(bytes[2], bytes[3], get_u32(bytes, 4), payload);
    match judge_packet(header, bytes, actual) {
        Ok(f) => FrameStep::Frame(f),
        Err(e) => FrameStep::Failed(e),
    }
}

fn span_of(bytes: &[u8]) -> (n: usize)
    ensures
        n == packet_span(bytes@),
        n <= bytes@.len(),
{
    let have: usize = bytes.len();
    if have < 2 {
        return have;
    }
    if !(bytes[0] == 86 && bytes[1] == 80) {
        return 2;
    }
    if have < 4 {
        return have;
    }
    if bytes[2] != 1 || FrameType::from_u8(bytes[3]).is_err() {
        return 4;
    }
    if have < 16 {
        return have;
    }
    let n: u32 = get_u32(bytes, 8);
    if have as u64 - 16 < n as u64 {
        have
    } else {
        16 + n as usize
    }
}

/// Writes a stream into memory.
pub struct VideoStreamWriter {
    inner: Vec<u8>,
    header: VideoStreamHeader,
}

impl VideoStreamWriter {
    /// What was written so far.
    pub closed spec fn written(&self) -> Seq<u8> {
        self.inner@
    }

    /// The header that the stream began with.
    pub closed spec fn head(&self) -> VideoStreamHeader {
        self.header
    }

    pub fn new(inner: Vec<u8>, width: u32, height: u32) -> (w: Self)
        ensures
            w.head() == (VideoStreamHeader { width, height }),
            w.written() == inner@ + stream_header_bytes(w.head()),
    {
        let header: VideoStreamHeader = VideoStreamHeader { width, height };
        let mut inner: Vec<u8> = inner;
        let head: [u8; 16] = header.encode();
        push_all(&mut inner, head.as_slice());
        VideoStreamWriter { inner, header }
    }

    /// Appends a frame.
    pub fn write_frame(&mut self, frame: &VideoFrame) -> (r: Result<
        FramePacketMetadata,
        VideoCodecError,
    >)
        ensures
            final(self).head() == old(self).head(),
            match written_packet(old(self).head(), *frame) {
                Ok(p) => {
                    &&& final(self).written() == old(self).written() + p
                    &&& r is Ok
                    &&& packet_head(p) == r
                },
                Err(e) => final(self).written() == old(self).written() && r == Err::<
                    FramePacketMetadata,
                    VideoCodecError,
                >(e),
            },
    {
        if frame.width != self.header.width || frame.height != self.header.height {
            return Err(
                VideoCodecError::DimensionMismatch {
                    expected_width: self.header.width,
                    expected_height: self.header.height,
                    actual_width: frame.width,
                    actual_height: frame.height,
                },
            );
        }
        let payload: Vec<u8> = encode_frame(frame)?;
        let n: usize = payload.len();
        if n as u64 > 0xffff_ffff {
            return Err(VideoCodecError::InvalidData("payload too large"));
        }
        let kind: u8 = frame.frame_type.to_u8();
        let crc: u32 = packet_crc(1, kind, frame.frame_index, payload.as_slice());
        let packet: Vec<u8> = assemble_packet(1, kind, frame.frame_index, payload.as_slice(), crc);
        push_all(&mut self.inner, packet.as_slice());
        proof {
            packet_fields(1, kind, frame.frame_index, payload@, crc, seq![]);
            assert(packet@ + seq![] =~= packet@);
        }
        Ok(
            FramePacketMetadata {
                frame_index: frame.frame_index,
                frame_type: frame.frame_type,
                payload_len: n as u32,
                crc32: crc,
            },
        )
    }

    pub fn into_inner(self) -> (v: Vec<u8>)
        ensures
            v@ == self.written(),
    {
        self.inner
    }
}

/// The packet that a frame becomes in a stream, or why it is refused.
pub open spec fn written_packet(header: VideoStreamHeader, frame: VideoFrame) -> Result<
    Seq<u8>,
    VideoCodecError,
> {
    if frame.width != header.width || frame.height != header.height {
        Err(
            VideoCodecError::DimensionMismatch {
                expected_width: header.width,
                expected_height: header.height,
                actual_width: frame.width,
                actual_height: frame.height,
            },
        )
    } else {
        match frame_payload(frame) {
            Err(e) => Err(e),
            Ok(p) => if p.len() > u32::MAX {
                Err(VideoCodecError::InvalidData("payload too large"))
            } else {
                let kind = type_code(frame.frame_type);
                Ok(
                    packet_bytes(
                        1,
                        kind,
                        frame.frame_index,
                        p,
                        crc32(checked_bytes(1, kind, frame.frame_index, p)),
                    ),
                )
            },
        }
    }
}

/// Reads a stream from memory.
pub struct VideoStreamReader {
    inner: Vec<u8>,
    at: usize,
    pub header: VideoStreamHeader,
}

impl VideoStreamReader {
    /// The cursor stands inside the stream.
    pub closed spec fn valid(&self) -> bool {
        self.at <= self.inner@.len()
    }

    /// The header that the stream began with.
    pub closed spec fn head(&self) -> VideoStreamHeader {
        self.header
    }

    /// What was not read yet.
    pub closed spec fn rest(&self) -> Seq<u8> {
        self.inner@.skip(self.at as int)
    }

    pub fn new(inner: Vec<u8>) -> (r: Result<Self, VideoCodecError>)
        ensures
            inner@.len() < 16 ==> r == Err::<Self, VideoCodecError>(VideoCodecError::UnexpectedEof),
            inner@.len() >= 16 ==> match stream_header_of(inner@.take(16)) {
                Ok(h) => r is Ok && r->Ok_0.valid() && r->Ok_0.head() == h && r->Ok_0.rest()
                    == inner@.skip(16),
                Err(e) => r == Err::<Self, VideoCodecError>(e),
            },
    {
        if inner.len() < 16 {
            return Err(VideoCodecError::UnexpectedEof);
        }
        let b: [u8; 16] = [
            inner[0],
            inner[1],
            inner[2],
            inner[3],
            inner[4],
            inner[5],
            inner[6],
            inner[7],
            inner[8],
            inner[9],
            inner[10],
            inner[11],
            inner[12],
            inner[13],
            inner[14],
            inner[15],
        ];
        assert(b@ =~= inner@.take(16));
        let header: VideoStreamHeader = VideoStreamHeader::decode(b)?;
        Ok(VideoStreamReader { inner, at: 16, header })
    }

    /// Reads the next frame; `None` where no packet begins any more.
    pub fn read_next_frame(&mut self) -> (r: Result<Option<VideoFrame>, VideoCodecError>)
        requires
            old(self).valid(),
        ensures
            final(self).valid(),
            final(self).head() == old(self).head(),
            final(self).rest() == old(self).rest().skip(packet_span(old(self).rest())),
            match packet_need(old(self).rest()) {
                Some(n) => r == if n == 2 {
                    Ok::<Option<VideoFrame>, VideoCodecError>(None)
                } else {
                    Err::<Option<VideoFrame>, VideoCodecError>(VideoCodecError::UnexpectedEof)
                },
                None => match packet_result(old(self).head(), old(self).rest()) {
                    Ok(s) => (r matches Ok(Some(f)) && frame_of_packet(
                        f,
                        old(self).head(),
                        old(self).rest(),
                        s,
                    )),
                    Err(e) => r == Err::<Option<VideoFrame>, VideoCodecError>(e),
                },
            },
    {
        let ghost rest = self.rest();
        let bytes: &[u8] = slice_subrange(self.inner.as_slice(), self.at, self.inner.len());
        assert(bytes@ =~= rest);
        let step: FrameStep = frame_step(&self.header, bytes);
        let n: usize = span_of(bytes);
        self.at = self.at + n;
        assert(self.rest() =~= rest.skip(n as int));
        match step {
            FrameStep::Need(k) => if k == 2 {
                Ok(None)
            } else {
                Err(VideoCodecError::UnexpectedEof)
            },
            FrameStep::Failed(e) => Err(e),
            FrameStep::Frame(f) => Ok(Some(f)),
        }
    }
}

/// A reader that meets a written frame reads that frame and stops right behind it.
pub proof fn written_frame_is_read(header: VideoStreamHeader, frame: VideoFrame, rest: Seq<u8>)
    requires
        written_packet(header, frame) is Ok,
    ensures
        ({
            let p = written_packet(header, frame)->Ok_0;
            let b = p + rest;
            &&& packet_need(b) is None
            &&& packet_result(header, b) == Ok::<Seq<u8>, VideoCodecError>(frame.data@)
            &&& frame_of_packet(frame, header, b, frame.data@)
            &&& packet_span(b) == p.len()
            &&& b.skip(packet_span(b)) == rest
        }),
{
    let payload = frame_payload(frame)->Ok_0;
    let kind = type_code(frame.frame_type);
    let crc = crc32(checked_bytes(1, kind, frame.frame_index, payload));
    packet_fields(1, kind, frame.frame_index, payload, crc, rest);
    frame_round_trip(frame);
}

/// A reader that meets a written frame with one payload byte changed reports the checksums, and
/// still stops right behind it.
pub proof fn changed_frame_is_refused(
    header: VideoStreamHeader,
    frame: VideoFrame,
    i: int,
    v: u8,
    rest: Seq<u8>,
)
    requires
        written_packet(header, frame) is Ok,
        0 <= i < frame_payload(frame)->Ok_0.len(),
        frame_payload(frame)->Ok_0[i] != v,
    ensures
        ({
            let p = written_packet(header, frame)->Ok_0;
            let b = p.update(16 + i, v) + rest;
            &&& packet_need(b) is None
            &&& packet_result(header, b) is Err
            &&& packet_result(header, b)->Err_0 is CrcMismatch
            &&& b.skip(packet_span(b)) == rest
        }),
{
    let payload = frame_payload(frame)->Ok_0;
    let kind = type_code(frame.frame_type);
    let crc = crc32(checked_bytes(1, kind, frame.frame_index, payload));
    changed_payload_changes_checksum(1, kind, frame.frame_index, payload, crc, i, v);
    packet_fields(1, kind, frame.frame_index, payload.update(i, v), crc, rest);
}

/// The bytes of frames written one after another.
pub open spec fn frame_stream(header: VideoStreamHeader, list: Seq<VideoFrame>) -> Seq<u8>
    decreases list.len(),
{
    if list.len() == 0 {
        seq![]
    } else {
        frame_stream(header, list.drop_last()) + written_packet(header, list.last())->Ok_0
    }
}

/// What a reader has left of some bytes after `n` reads.
pub open spec fn left_after(b: Seq<u8>, n: nat) -> Seq<u8>
    decreases n,
{
    if n == 0 {
        b
    } else {
        let a = left_after(b, (n - 1) as nat);
        a.skip(packet_span(a))
    }
}

/// The next packet of some bytes is the one of a frame.
pub open spec fn next_is(header: VideoStreamHeader, b: Seq<u8>, f: VideoFrame) -> bool {
    &&& packet_need(b) is None
    &&& packet_result(header, b) == Ok::<Seq<u8>, VideoCodecError>(f.data@)
    &&& frame_of_packet(f, header, b, f.data@)
}

proof fn lemma_frames_read(header: VideoStreamHeader, list: Seq<VideoFrame>, rest: Seq<u8>)
    requires
        forall|k: int| 0 <= k < list.len() ==> written_packet(header, #[trigger] list[k]) is Ok,
    ensures
        left_after(frame_stream(header, list) + rest, list.len()) == rest,
        forall|k: int|
            0 <= k < list.len() ==> next_is(
                header,
                #[trigger] left_after(frame_stream(header, list) + rest, k as nat),
                list[k],
            ),
    decreases list.len(),
{
    let all = frame_stream(header, list) + rest;
    if list.len() == 0 {
        assert(all =~= rest);
    } else {
        let init = list.drop_last();
        let last = list.last();
        assert(list[list.len() - 1] == last);
        let p = written_packet(header, last)->Ok_0;
        assert forall|k: int| 0 <= k < init.len() implies written_packet(
            header,
            #[trigger] init[k],
        ) is Ok by {
            assert(init[k] == list[k]);
        }
        lemma_frames_read(header, init, p + rest);
        assert(frame_stream(header, init) + (p + rest) =~= all);
        assert(left_after(all, init.len()) == p + rest);
        written_frame_is_read(header, last, rest);
        assert forall|k: int| 0 <= k < list.len() implies next_is(
            header,
            #[trigger] left_after(all, k as nat),
            list[k],
        ) by {
            if k < init.len() {
                assert(init[k] == list[k]);
                let a = left_after(frame_stream(header, init) + (p + rest), k as nat);
                assert(next_is(header, a, init[k]));
            } else {
                assert(k as nat == init.len());
            }
        }
    }
}

/// A reader hands out the frames of a written stream in the order in which they were written, and
/// then finds that no packet begins any more.
pub proof fn written_frames_are_read_in_order(header: VideoStreamHeader, list: Seq<VideoFrame>)
    requires
        header.width > 0,
        header.height > 0,
        forall|k: int| 0 <= k < list.len() ==> written_packet(header, #[trigger] list[k]) is Ok,
    ensures
        ({
            let s = stream_header_bytes(header) + frame_stream(header, list);
            let b = s.skip(16);
            &&& stream_header_of(s.take(16)) == Ok::<VideoStreamHeader, VideoCodecError>(header)
            &&& forall|k: int|
                0 <= k < list.len() ==> next_is(
                    header,
                    #[trigger] left_after(b, k as nat),
                    list[k],
                )
            &&& packet_need(left_after(b, list.len())) == Some(2int)
        }),
{
    let s = stream_header_bytes(header) + frame_stream(header, list);
    stream_header_round_trip(header);
    assert(s.take(16) =~= stream_header_bytes(header));
    assert(s.skip(16) =~= frame_stream(header, list) + Seq::<u8>::empty());
    lemma_frames_read(header, list, seq![]);
}

/// The head of a packet tells what it was assembled from.
pub proof fn assembled_heads_are_read(
    kind: u8,
    index: u32,
    payload: Seq<u8>,
    crc: u32,
    rest: Seq<u8>,
)
    requires
        payload.len() <= u32::MAX,
        kind <= 1,
    ensures
        ({
            let m = packet_head(packet_bytes(1, kind, index, payload, crc) + rest);
            &&& m is Ok
            &&& m->Ok_0.frame_index == index
            &&& m->Ok_0.payload_len == payload.len()
            &&& m->Ok_0.crc32 == crc
            &&& kind == 0 <==> m->Ok_0.frame_type is I
        }),
{
    packet_fields(1, kind, index, payload, crc, rest);
}

} // verus!
