//! Media types that the parts of the system exchange.
use vstd::prelude::*;

verus! {

/// Number of a stream.
#[derive(Debug, Clone, Copy, PartialEq, Eq, Structural)]
pub struct StreamId(pub u32);

/// Number of a track.
#[derive(Debug, Clone, Copy, PartialEq, Eq, Structural)]
pub struct TrackId(pub u32);

/// A tick is `num / den` seconds.
#[derive(Debug, Clone, Copy, PartialEq, Eq, Structural)]
pub struct Timebase {
    pub num: u32,
    pub den: u32,
}

impl Timebase {
    pub fn new(num: u32, den: u32) -> (t: Self)
        ensures
            t == (Timebase { num, den }),
    {
        Timebase { num, den }
    }

    pub fn milliseconds() -> (t: Self)
        ensures
            t == (Timebase { num: 1, den: 1000 }),
    {
        Timebase { num: 1, den: 1_000 }
    }
}

/// A point in time.
#[derive(Debug, Clone, Copy, PartialEq, Eq, Structural)]
pub struct Timestamp {
    pub ticks: i64,
    pub timebase: Timebase,
}

impl Timestamp {
    pub fn new(ticks: i64, timebase: Timebase) -> (t: Self)
        ensures
            t == (Timestamp { ticks, timebase }),
    {
        Timestamp { ticks, timebase }
    }
}

#[derive(Debug, Clone, Copy, PartialEq, Eq, Structural)]
pub enum MediaKind {
    Audio,
    Video,
    Subtitle,
    Data,
}

#[derive(Debug, Clone, Copy, PartialEq, Eq, Structural)]
pub enum StreamRole {
    Primary,
    Alternate,
    Commentary,
    Unknown,
}

#[derive(Debug, Clone, Copy, PartialEq, Eq, Structural)]
pub enum CodecType {
    NativeSrsVideo,
    NativeSrsAudio,
    Aac,
    Opus,
    Vorbis,
    Flac,
    Speex,
    Pcm,
    H264,
    H265,
    Av1,
    Vp8,
    Vp9,
    Theora,
    Unknown,
}

/// A codec whose playback needs a licence from somebody else.
pub open spec fn needs_license(c: CodecType) -> bool {
    c is Aac || c is H264 || c is H265
}

/// A codec that may be played without one; an unknown codec may not.
pub open spec fn royalty_free(c: CodecType) -> bool {
    !needs_license(c) && c !is Unknown
}

/// The name that users see.
pub open spec fn codec_name(c: CodecType) -> &'static str {
    match c {
        CodecType::NativeSrsVideo => "SRS Native Video",
        CodecType::NativeSrsAudio => "SRS Native Audio",
        CodecType::Aac => "AAC",
        CodecType::Opus => "Opus",
        CodecType::Vorbis => "Vorbis",
        CodecType::Flac => "FLAC",
        CodecType::Speex => "Speex",
        CodecType::Pcm => "PCM",
        CodecType::H264 => "H.264/AVC",
        CodecType::H265 => "H.265/HEVC",
        CodecType::Av1 => "AV1",
        CodecType::Vp8 => "VP8",
        CodecType::Vp9 => "VP9",
        CodecType::Theora => "Theora",
        CodecType::Unknown => "Unknown",
    }
}

impl CodecType {
    pub fn is_royalty_free_playback_allowed(self) -> (r: bool)
        ensures
            r == royalty_free(self),
    {
        match self {
            CodecType::NativeSrsVideo
            | CodecType::NativeSrsAudio
            | CodecType::Opus
            | CodecType::Vorbis
            | CodecType::Flac
            | CodecType::Speex
            | CodecType::Pcm
            | CodecType::Av1
            | CodecType::Vp8
            | CodecType::Vp9
            | CodecType::Theora => true,
            _ => false,
        }
    }

    pub fn requires_external_playback_license_attention(self) -> (r: bool)
        ensures
            r == needs_license(self),
    {
        match self {
            CodecType::Aac | CodecType::H264 | CodecType::H265 => true,
            _ => false,
        }
    }

    pub fn display_name(self) -> (s: &'static str)
        ensures
            s == codec_name(self),
    {
        match self {
            CodecType::NativeSrsVideo => "SRS Native Video",
            CodecType::NativeSrsAudio => "SRS Native Audio",
            CodecType::Aac => "AAC",
            CodecType::Opus => "Opus",
            CodecType::Vorbis => "Vorbis",
            CodecType::Flac => "FLAC",
            CodecType::Speex => "Speex",
            CodecType::Pcm => "PCM",
            CodecType::H264 => "H.264/AVC",
            CodecType::H265 => "H.265/HEVC",
            CodecType::Av1 => "AV1",
            CodecType::Vp8 => "VP8",
            CodecType::Vp9 => "VP9",
            CodecType::Theora => "Theora",
            CodecType::Unknown => "Unknown",
        }
    }

    /// The codecs that may be played without a licence, the preferred ones first.
    pub fn royalty_free_codecs() -> (v: Vec<Self>)
        ensures
            v@ == free_codecs(),
    {
        let v: Vec<Self> = vec![
            CodecType::NativeSrsVideo,
            CodecType::NativeSrsAudio,
            CodecType::Av1,
            CodecType::Vp9,
            CodecType::Vp8,
            CodecType::Theora,
            CodecType::Opus,
            CodecType::Vorbis,
            CodecType::Flac,
            CodecType::Speex,
            CodecType::Pcm,
        ];
        assert(v@ =~= free_codecs());
        v
    }
}

/// The codecs that may be played without a licence, the preferred ones first.
pub open spec fn free_codecs() -> Seq<CodecType> {
    seq![
        CodecType::NativeSrsVideo,
        CodecType::NativeSrsAudio,
        CodecType::Av1,
        CodecType::Vp9,
        CodecType::Vp8,
        CodecType::Theora,
        CodecType::Opus,
        CodecType::Vorbis,
        CodecType::Flac,
        CodecType::Speex,
        CodecType::Pcm,
    ]
}

/// A codec is on the list exactly if it may be played without a licence, and it is there once.
pub proof fn list_is_what_is_allowed(c: CodecType)
    ensures
        free_codecs().contains(c) <==> royalty_free(c),
        free_codecs().no_duplicates(),
        !(royalty_free(c) && needs_license(c)),
{
    let l = free_codecs();
    assert(l[0] is NativeSrsVideo && l[1] is NativeSrsAudio && l[2] is Av1 && l[3] is Vp9 && l[4]
        is Vp8 && l[5] is Theora && l[6] is Opus && l[7] is Vorbis && l[8] is Flac && l[9] is Speex
        && l[10] is Pcm);
}

#[derive(Debug, Clone)]
pub struct TrackInfo {
    pub id: TrackId,
    pub kind: MediaKind,
    pub codec: CodecType,
    pub role: StreamRole,
    pub language: Option<String>,
}

#[derive(Debug, Clone)]
pub struct StreamInfo {
    pub id: StreamId,
    pub timebase: Timebase,
    pub track: TrackInfo,
}

#[derive(Debug, Clone)]
pub struct Packet {
    pub stream_id: StreamId,
    pub pts: Option<Timestamp>,
    pub dts: Option<Timestamp>,
    pub duration: Option<Timestamp>,
    pub keyframe: bool,
    pub data: Vec<u8>,
}

#[derive(Debug, Clone, Copy)]
pub struct FrameInfo {
    pub stream_id: StreamId,
    pub pts: Option<Timestamp>,
    pub duration: Option<Timestamp>,
    pub sample_count: Option<u32>,
    pub width: Option<u32>,
    pub height: Option<u32>,
}

/// What is wrong with a media type.
#[derive(Debug)]
pub enum ContractError {
    InvalidTimebase { num: u32, den: u32 },
    UnsupportedStream(String),
}

/// Every known codec is either free to play or needs a licence, never both; an unknown codec is
/// neither. The native codecs are free, and the patented ones are not.
pub proof fn codecs_are_free_or_licensed(c: CodecType)
    ensures
        c is Unknown <==> !royalty_free(c) && !needs_license(c),
        !(royalty_free(c) && needs_license(c)),
        c is NativeSrsVideo || c is NativeSrsAudio || c is Av1 || c is Vp9 || c is Vp8 || c is Theora
            || c is Opus || c is Vorbis || c is Flac || c is Speex || c is Pcm <==> royalty_free(c),
        c is Aac || c is H264 || c is H265 <==> needs_license(c),
{
}

/// No two codecs are shown under one name.
pub proof fn codec_names_differ(a: CodecType, b: CodecType)
    requires
        codec_name(a)@ == codec_name(b)@,
    ensures
        a == b,
{
    reveal_strlit("SRS Native Video");
    reveal_strlit("SRS Native Audio");
    reveal_strlit("AAC");
    reveal_strlit("Opus");
    reveal_strlit("Vorbis");
    reveal_strlit("FLAC");
    reveal_strlit("Speex");
    reveal_strlit("PCM");
    reveal_strlit("H.264/AVC");
    reveal_strlit("H.265/HEVC");
    reveal_strlit("AV1");
    reveal_strlit("VP8");
    reveal_strlit("VP9");
    reveal_strlit("Theora");
    reveal_strlit("Unknown");
    let (x, y) = (codec_name(a)@, codec_name(b)@);
    assert(x.len() == y.len());
    assert(x[0] == y[0] && x[1] == y[1] && x[2] == y[2]);
    assert(x.len() > 11 ==> x[11] == y[11]);
}

} // verus!
