//! Media types.
use libsrs::contract::CodecType;

#[test]
fn royalty_free_codecs_are_allowed() {
    for codec in CodecType::royalty_free_codecs() {
        assert!(
            codec.is_royalty_free_playback_allowed(),
            "{} should be allowed",
            codec.display_name()
        );
    }
}

#[test]
fn patent_sensitive_codecs_are_not_allowed_by_policy() {
    for codec in [CodecType::Aac, CodecType::H264, CodecType::H265] {
        assert!(codec.requires_external_playback_license_attention());
        assert!(!codec.is_royalty_free_playback_allowed());
    }
}

#[test]
fn unknown_codec_is_not_allowed() {
    assert!(!CodecType::Unknown.is_royalty_free_playback_allowed());
}
