//! Sequence headers.
use libsrs::srsv2::model::{
    decode_sequence_header_v2, encode_sequence_header_v2, ChromaSiting, ColorPrimaries, ColorRange,
    MatrixCoefficients, PixelFormat, SrsVideoProfile, TransferFunction, VideoSequenceHeaderV2,
};

#[test]
fn sequence_header_profiles_ultra_research_roundtrip() {
    for p in [SrsVideoProfile::Ultra, SrsVideoProfile::Research] {
        let seq = VideoSequenceHeaderV2 {
            width: 7680,
            height: 4320,
            profile: p,
            pixel_format: PixelFormat::Yuv420p8,
            color_primaries: ColorPrimaries::Bt709,
            transfer: TransferFunction::Sdr,
            matrix: MatrixCoefficients::Bt709,
            chroma_siting: ChromaSiting::Center,
            range: ColorRange::Limited,
            disable_loop_filter: true,
            max_ref_frames: 4,
            deblock_strength: 0,
        };
        let b = encode_sequence_header_v2(&seq);
        let d = decode_sequence_header_v2(&b).expect("decode");
        assert_eq!(d.profile, p);
        assert_eq!(d.width, 7680);
        assert_eq!(d.height, 4320);
    }
}

#[test]
fn every_field_of_a_header_is_read_back() {
    let seq = VideoSequenceHeaderV2 {
        disable_loop_filter: false,
        deblock_strength: 41,
        max_ref_frames: 3,
        ..VideoSequenceHeaderV2::intra_main_yuv420_bt709_limited(640, 360)
    };
    let b = encode_sequence_header_v2(&seq);
    assert_eq!(b[25], 41);
    let d = decode_sequence_header_v2(&b).unwrap();
    assert_eq!(d.deblock_strength, 41);
    assert_eq!(d.max_ref_frames, 3);
    assert!(!d.disable_loop_filter);
    assert_eq!(d.pixel_format, seq.pixel_format);
    assert_eq!((d.width, d.height), (640, 360));
}
