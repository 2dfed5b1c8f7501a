//! Both video streams, the grayscale codec and the container bookkeeping.
use libsrs::container::{
    rebuild_index, resync_target, seek_nearest, track_count, IndexEntry, MuxError, MuxWriter,
    PacketHeader, ParsedBlock,
};
use libsrs::contract::{Packet, StreamId, Timebase, Timestamp};
use libsrs::pipeline::{
    AudioFrame, DecodedAudioFrame, DecodedVideoFrame, NativeTranscoder, NoopNativeTranscoder,
    PipelineAction, PipelineMode, PipelineRequest,
};
use libsrs::packet::packet_crc;
use libsrs::srsv2::elementary::{
    payload_step, peek_is_srsv2, PayloadStep, VideoStreamReaderV2, VideoStreamWriterV2,
};
use libsrs::srsv2::error::SrsV2Error;
use libsrs::srsv2::model::VideoSequenceHeaderV2;
use libsrs::{
    decode_frame, encode_frame, parse_video_frame_packet_header, FrameType, VideoCodecError,
    VideoFrame, VideoStreamHeader, VideoStreamReader, VideoStreamWriter,
};

fn frame(w: u32, h: u32, index: u32, f: fn(u32) -> u8) -> VideoFrame {
    VideoFrame {
        width: w,
        height: h,
        frame_index: index,
        frame_type: FrameType::I,
        data: (0..w * h).map(f).collect(),
    }
}

#[test]
fn max_luma_samples_export_matches_8k_uhd_plane() {
    assert_eq!(libsrs::MAX_LUMA_SAMPLES, 33_177_600);
}

#[test]
fn frames_are_coded_without_loss() {
    let patterns: [fn(u32) -> u8; 4] =
        [|_| 128, |i| (i * 37 % 256) as u8, |i| (i / 5) as u8, |i| if i % 2 == 0 { 0 } else { 255 }];
    for f in patterns {
        for (w, h) in [(1, 1), (8, 8), (9, 7), (17, 23), (64, 3)] {
            let fr = frame(w, h, 3, f);
            let payload = encode_frame(&fr).unwrap();
            let back = decode_frame(w, h, 3, FrameType::I, &payload).unwrap();
            assert_eq!(back, fr);
        }
    }
}

#[test]
fn flat_block_is_one_run() {
    // Block size, sample count, and a run of 64 samples equal to the start value.
    let payload = encode_frame(&frame(8, 8, 0, |_| 128)).unwrap();
    assert_eq!(payload, vec![8, 64, 0, 0, 0, 63]);
    // A difference of 2, then a run of 63.
    let payload = encode_frame(&frame(8, 8, 0, |_| 130)).unwrap();
    assert_eq!(payload, vec![8, 64, 0, 0, 0, 194, 62]);
    // A difference of 127 takes the long form.
    let payload = encode_frame(&frame(1, 1, 0, |_| 255)).unwrap();
    assert_eq!(payload, vec![8, 1, 0, 0, 0, 128, 127, 0]);
}

#[test]
fn broken_frames_are_refused() {
    let mut short = frame(8, 8, 0, |_| 1);
    short.data.pop();
    assert!(matches!(
        encode_frame(&short),
        Err(VideoCodecError::InvalidData("frame pixel buffer length does not match dimensions"))
    ));
    let mut reserved = frame(8, 8, 0, |_| 1);
    reserved.frame_type = FrameType::PReserved;
    assert!(matches!(
        encode_frame(&reserved),
        Err(VideoCodecError::InvalidData("v1 encoder only supports intra (I) frames"))
    ));
    let d = |p: &[u8]| decode_frame(8, 8, 0, FrameType::I, p).unwrap_err();
    assert_eq!(d(&[8]), VideoCodecError::InvalidData("payload too small"));
    assert_eq!(d(&[4, 64, 0, 0, 0]), VideoCodecError::InvalidData("unsupported block size"));
    assert_eq!(
        d(&[8, 65, 0, 0, 0]),
        VideoCodecError::InvalidData("payload length metadata does not match frame dimensions")
    );
    assert_eq!(d(&[8, 64, 0, 0, 0]), VideoCodecError::InvalidData("truncated payload"));
    assert_eq!(d(&[8, 64, 0, 0, 0, 64]), VideoCodecError::InvalidData("zero run overflows block"));
    assert_eq!(d(&[8, 64, 0, 0, 0, 128, 1]), VideoCodecError::InvalidData("truncated i16 literal"));
    assert_eq!(
        d(&[8, 64, 0, 0, 0, 128, 255, 127]),
        VideoCodecError::InvalidData("decoded sample out of range")
    );
    assert_eq!(
        d(&[8, 64, 0, 0, 0, 63, 0]),
        VideoCodecError::InvalidData("unexpected bytes after payload")
    );
    assert_eq!(FrameType::from_u8(2), Err(VideoCodecError::UnsupportedFrameType(2)));
}

#[test]
fn stream_gives_back_its_frames() {
    let frames = [frame(16, 9, 0, |i| i as u8), frame(16, 9, 1, |i| (i * 3) as u8)];
    let mut w = VideoStreamWriter::new(Vec::new(), 16, 9);
    let meta = w.write_frame(&frames[0]).unwrap();
    assert_eq!(meta.frame_index, 0);
    w.write_frame(&frames[1]).unwrap();
    let bytes = w.into_inner();
    assert_eq!(parse_video_frame_packet_header(&bytes[16..]).unwrap(), meta);
    let mut r = VideoStreamReader::new(bytes).unwrap();
    assert_eq!(r.header, VideoStreamHeader { width: 16, height: 9 });
    assert_eq!(r.read_next_frame().unwrap().unwrap(), frames[0]);
    assert_eq!(r.read_next_frame().unwrap().unwrap(), frames[1]);
    assert!(r.read_next_frame().unwrap().is_none());
}

#[test]
fn packet_checksum_covers_head_and_payload() {
    let mut w = VideoStreamWriter::new(Vec::new(), 8, 8);
    let meta = w.write_frame(&frame(8, 8, 7, |_| 128)).unwrap();
    let mut h = crc32fast::Hasher::new();
    h.update(&[1, 0]);
    h.update(&7_u32.to_le_bytes());
    h.update(&6_u32.to_le_bytes());
    h.update(&[8, 64, 0, 0, 0, 63]);
    assert_eq!(meta.crc32, h.finalize());
}

#[test]
fn broken_streams_are_refused() {
    assert!(matches!(VideoStreamReader::new(vec![1; 15]), Err(VideoCodecError::UnexpectedEof)));
    let head = VideoStreamHeader { width: 8, height: 8 }.encode();
    let mut bad = head;
    bad[0] = b'X';
    assert_eq!(
        VideoStreamHeader::decode(bad),
        Err(VideoCodecError::InvalidData("invalid video stream magic"))
    );
    bad = head;
    bad[4] = 9;
    assert_eq!(
        VideoStreamHeader::decode(bad),
        Err(VideoCodecError::InvalidData("unsupported video stream version"))
    );
    assert_eq!(
        VideoStreamHeader::decode(VideoStreamHeader { width: 0, height: 8 }.encode()),
        Err(VideoCodecError::InvalidData("invalid zero dimension stream"))
    );
    let mut w = VideoStreamWriter::new(Vec::new(), 8, 8);
    assert_eq!(
        w.write_frame(&frame(8, 9, 0, |_| 0)),
        Err(VideoCodecError::DimensionMismatch {
            expected_width: 8,
            expected_height: 8,
            actual_width: 8,
            actual_height: 9
        })
    );
    w.write_frame(&frame(8, 8, 0, |_| 5)).unwrap();
    let good = w.into_inner();
    let read = |bytes: &[u8]| VideoStreamReader::new(bytes.to_vec()).unwrap().read_next_frame();
    let change = |at: usize, v: u8| {
        let mut b = good.clone();
        b[at] = v;
        b
    };
    assert!(matches!(
        read(&change(16, 0)),
        Err(VideoCodecError::InvalidData("invalid video packet sync"))
    ));
    assert!(matches!(
        read(&change(18, 3)),
        Err(VideoCodecError::InvalidData("unsupported video packet version"))
    ));
    assert!(matches!(read(&change(19, 5)), Err(VideoCodecError::UnsupportedFrameType(5))));
    assert!(matches!(read(&change(20, 1)), Err(VideoCodecError::CrcMismatch { .. })));
    assert!(matches!(read(&good[..good.len() - 1]), Err(VideoCodecError::UnexpectedEof)));
    assert!(matches!(read(&good[..17]), Ok(None)));
    assert_eq!(
        parse_video_frame_packet_header(&good[16..30]),
        Err(VideoCodecError::InvalidData("packet too small for video frame header"))
    );
}

#[test]
fn elementary_stream_gives_back_its_payloads() {
    let seq = VideoSequenceHeaderV2::intra_main_yuv420_bt709_limited(64, 48);
    let mut w = VideoStreamWriterV2::new(Vec::new(), &seq);
    w.write_frame_payload(4, &[1, 2, 3]).unwrap();
    w.write_frame_payload(5, &[]).unwrap();
    let bytes = w.into_inner();
    assert!(peek_is_srsv2(&bytes));
    assert!(!peek_is_srsv2(b"SRS"));
    assert!(!peek_is_srsv2(b"SRSV"));
    let mut r = VideoStreamReaderV2::new(bytes.clone()).unwrap();
    assert_eq!(r.seq.width, 64);
    assert_eq!(r.seq.height, 48);
    assert_eq!(r.read_next_payload().unwrap(), Some((4, vec![1, 2, 3])));
    assert_eq!(r.read_next_payload().unwrap(), Some((5, vec![])));
    assert_eq!(r.read_next_payload().unwrap(), None);

    let read = |at: usize, v: u8| {
        let mut b = bytes.clone();
        b[at] = v;
        VideoStreamReaderV2::new(b).unwrap().read_next_payload()
    };
    assert!(matches!(read(64, 0), Err(SrsV2Error::Syntax("bad VP sync in srsv2"))));
    assert!(matches!(read(66, 1), Err(SrsV2Error::UnsupportedVersion(1))));
    assert!(matches!(read(75, 255), Err(SrsV2Error::LimitExceeded("elementary payload"))));
    assert!(matches!(read(80, 9), Err(SrsV2Error::Syntax("crc mismatch srsv2"))));
    assert!(matches!(VideoStreamReaderV2::new(vec![0; 63]), Err(SrsV2Error::UnexpectedEof)));
    assert!(matches!(payload_step(&bytes[64..70]), PayloadStep::Need(12)));
    assert!(matches!(payload_step(&bytes[64..80]), PayloadStep::Need(19)));
}

fn entry(n: u64, pts: u64) -> IndexEntry {
    IndexEntry { packet_number: n, file_offset: 100 + n, track_id: 1, flags: 0, pts }
}

#[test]
fn cues_list_every_packet_once() {
    let mut m = MuxWriter::new(2, 1);
    let mut cued = Vec::new();
    for n in 0..5_u64 {
        let h = m.next_header(1, n * 10, n * 10, n == 0, 7).unwrap();
        assert_eq!(h.sequence, n);
        assert_eq!(h.flags, if n == 0 { 1 } else { 0 });
        if let Some(c) = m.write_packet(h, 100 + n) {
            assert_eq!(c.first_packet_number, cued.len() as u64);
            cued.extend(c.entries);
        }
    }
    assert_eq!(cued.len(), 4);
    let last = m.finalize().unwrap();
    assert_eq!(last.cue_id, 2);
    cued.extend(last.entries);
    assert_eq!(cued, m.entries);
    assert_eq!(m.finalize(), None);
    assert_eq!(track_count(65535), Ok(65535));
    assert_eq!(track_count(65536), Err(MuxError::TooManyTracks));
}

#[test]
fn seeking_takes_the_last_of_the_nearest() {
    let index = [entry(0, 0), entry(1, 20), entry(2, 10), entry(3, 20), entry(4, 90)];
    assert_eq!(seek_nearest(&index, 50), Some(entry(3, 20)));
    assert_eq!(seek_nearest(&index, 19), Some(entry(2, 10)));
    assert_eq!(seek_nearest(&index[1..], 5), None);
    assert_eq!(seek_nearest(&[], 5), None);
}

#[test]
fn index_is_rebuilt_from_blocks() {
    let mut index = Vec::new();
    let h = PacketHeader { track_id: 1, flags: 0, sequence: 0, pts: 5, dts: 5, payload_len: 3 };
    assert!(!rebuild_index(&mut index, ParsedBlock::Packet(100, h)));
    assert_eq!(index, vec![entry(0, 5)]);
    assert!(!rebuild_index(&mut index, ParsedBlock::Cue(vec![entry(0, 5)])));
    assert_eq!(index.len(), 2);
    assert!(rebuild_index(&mut index, ParsedBlock::Index(vec![entry(9, 9)])));
    assert_eq!(index, vec![entry(9, 9)]);
    assert_eq!(resync_target(1000, 8192, 4, Some(17)), Some(1017));
    assert_eq!(resync_target(1000, 3, 4, Some(17)), None);
    assert_eq!(resync_target(1000, 8192, 4, None), None);
}

#[test]
fn transcoder_counts_packets() {
    let mut t = NoopNativeTranscoder::default();
    for _ in 0..3 {
        t.transcode_packet(Packet {
            stream_id: StreamId(1),
            pts: Some(Timestamp::new(5, Timebase::milliseconds())),
            dts: None,
            duration: None,
            keyframe: true,
            data: vec![1],
        })
        .unwrap();
    }
    t.finalize().unwrap();
    assert_eq!(t.packet_count(), 3);
    assert_eq!(Timebase::milliseconds(), Timebase::new(1, 1000));
    let req = |mode: PipelineMode| PipelineRequest { input: "a".to_string(), output: None, mode };
    assert_eq!(req(PipelineMode::Analyze).action(), PipelineAction::Probe);
    assert_eq!(req(PipelineMode::Import).action(), PipelineAction::Import);
    assert_eq!(req(PipelineMode::Transcode).action(), PipelineAction::Import);
}

#[test]
fn decoded_frames_show_their_fields() {
    let v = frame(4, 2, 9, |i| i as u8);
    assert_eq!(DecodedVideoFrame::width(&v), 4);
    assert_eq!(DecodedVideoFrame::height(&v), 2);
    assert_eq!(DecodedVideoFrame::frame_index(&v), 9);
    assert_eq!(v.gray8_pixels(), &[0, 1, 2, 3, 4, 5, 6, 7]);
    let a = AudioFrame { sample_rate: 48000, channels: 2, frame_index: 1, samples: vec![1, -1] };
    assert_eq!(DecodedAudioFrame::sample_rate(&a), 48000);
    assert_eq!(DecodedAudioFrame::channels(&a), 2);
    assert_eq!(a.samples_i16_interleaved(), &[1, -1]);
}

fn crc32(data: &[u8]) -> u32 {
    let mut c = u32::MAX;
    for b in data {
        c ^= u32::from(*b);
        for _ in 0..8 {
            c = if c & 1 == 1 { (c >> 1) ^ 0xEDB8_8320 } else { c >> 1 };
        }
    }
    !c
}

#[test]
fn checksum_is_the_ieee_one() {
    assert_eq!(crc32(b"123456789"), 0xCBF4_3926);
    for n in [0, 1, 7, 16, 100] {
        let payload: Vec<u8> = (0..n).map(|i| (i * 37) as u8).collect();
        let mut data = vec![2, 0, 4, 0, 0, 0, n as u8, 0, 0, 0];
        data.extend_from_slice(&payload);
        assert_eq!(packet_crc(2, 0, 4, &payload), crc32(&data));
    }
}

#[test]
fn any_changed_payload_byte_is_noticed() {
    let mut w = VideoStreamWriter::new(Vec::new(), 16, 9);
    w.write_frame(&frame(16, 9, 0, |i| i as u8)).unwrap();
    let end = w.into_inner();
    let mut w = VideoStreamWriter::new(Vec::new(), 16, 9);
    w.write_frame(&frame(16, 9, 0, |i| i as u8)).unwrap();
    w.write_frame(&frame(16, 9, 1, |_| 3)).unwrap();
    let bytes = w.into_inner();
    for at in 32..end.len() {
        let mut b = bytes.clone();
        b[at] ^= 1;
        let mut r = VideoStreamReader::new(b).unwrap();
        assert!(matches!(r.read_next_frame(), Err(VideoCodecError::CrcMismatch { .. })));
        assert_eq!(r.read_next_frame().unwrap().unwrap().frame_index, 1);
    }
}

#[test]
fn frame_payloads_are_exact() {
    let payload = encode_frame(&frame(16, 9, 0, |i| (i * 40) as u8)).unwrap();
    for k in 0..payload.len() {
        assert!(matches!(
            decode_frame(16, 9, 0, FrameType::I, &payload[..k]),
            Err(VideoCodecError::InvalidData(_))
        ));
    }
    let mut long = payload.clone();
    long.push(0);
    assert!(matches!(
        decode_frame(16, 9, 0, FrameType::I, &long),
        Err(VideoCodecError::InvalidData("unexpected bytes after payload"))
    ));
    assert!(matches!(
        decode_frame(16, 9, 0, FrameType::PReserved, &payload),
        Err(VideoCodecError::InvalidData(_))
    ));
}
