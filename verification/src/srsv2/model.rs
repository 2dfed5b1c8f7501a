//! SRSV2 logical model and the packed sequence header.
use vstd::prelude::*;

use crate::bytes::{bytes32, get_u32, le32, push_u32};
use super::deblock::SrsV2LoopFilterMode;
use super::error::SrsV2Error;
use super::limits::MAX_REF_FRAMES;

verus! {

/// Identifies elementary stream content (distinct from a container codec id).
#[derive(Debug, Clone, Copy, PartialEq, Eq, Structural)]
pub enum SrsVideoCodecId {
    /// Grayscale intra prototype.
    Srsv1,
    /// SRSV2 intra/inter architecture.
    Srsv2,
}

impl SrsVideoCodecId {
    pub fn from_u8(v: u8) -> (r: Result<Self, SrsV2Error>)
        ensures
            r == match v {
                1 => Ok::<Self, SrsV2Error>(SrsVideoCodecId::Srsv1),
                2 => Ok::<Self, SrsV2Error>(SrsVideoCodecId::Srsv2),
                _ => Err::<Self, SrsV2Error>(SrsV2Error::Unsupported("unknown SrsVideoCodecId")),
            },
    {
        match v {
            1 => Ok(SrsVideoCodecId::Srsv1),
            2 => Ok(SrsVideoCodecId::Srsv2),
            _ => Err(SrsV2Error::Unsupported("unknown SrsVideoCodecId")),
        }
    }
}

/// Profile tier signalled in the sequence header.
#[derive(Debug, Clone, Copy, PartialEq, Eq, Structural)]
pub enum SrsVideoProfile {
    Baseline,
    Main,
    Pro,
    Lossless,
    Screen,
    Ultra,
    Research,
}

#[derive(Debug, Clone, Copy, PartialEq, Eq, Structural)]
pub enum PixelFormat {
    Gray8,
    Yuv420p8,
    Yuv420p10,
    Yuv422p8,
    Yuv422p10,
    Yuv444p8,
    Yuv444p10,
    Rgb8,
    Rgba8,
    Bgra8,
}

#[derive(Debug, Clone, Copy, PartialEq, Eq, Structural)]
pub enum ColorPrimaries {
    Bt601,
    Bt709,
    Bt2020,
}

#[derive(Debug, Clone, Copy, PartialEq, Eq, Structural)]
pub enum TransferFunction {
    Sdr,
    Pq,
    Hlg,
}

#[derive(Debug, Clone, Copy, PartialEq, Eq, Structural)]
pub enum MatrixCoefficients {
    Bt601,
    Bt709,
    Bt2020Ncl,
}

#[derive(Debug, Clone, Copy, PartialEq, Eq, Structural)]
pub enum ChromaSiting {
    Center,
    Left,
    TopLeft,
}

#[derive(Debug, Clone, Copy, PartialEq, Eq, Structural)]
pub enum ColorRange {
    Limited,
    Full,
}

#[derive(Debug, Clone, Copy, PartialEq, Eq, Structural)]
pub enum FrameTypeV2 {
    Intra,
    Predicted,
}

#[derive(Debug, Clone, Copy, PartialEq, Eq, Structural)]
pub enum BlockMode {
    /// Leaf coding unit, no further partition.
    Leaf,
    SplitQuad,
}

#[derive(Debug, Clone, Copy, PartialEq, Eq, Structural)]
pub enum IntraMode {
    Dc,
    Planar,
    Horizontal,
    Vertical,
    Diagonal,
}

#[derive(Debug, Clone, Copy, PartialEq, Eq, Structural)]
pub enum InterMode {
    Skip,
    MvDelta,
    MergeNearest,
}

#[derive(Debug, Clone, Copy, PartialEq, Eq, Structural)]
pub enum TransformType {
    Dct4,
    Dct8,
    Dct16,
}

#[derive(Debug, Clone, Copy)]
pub struct QuantizerState {
    pub base_qp: u8,
    pub delta_qp: i8,
}

impl Default for QuantizerState {
    fn default() -> (r: Self)
        ensures
            r.base_qp == 0,
            r.delta_qp == 0,
    {
        QuantizerState { base_qp: 0, delta_qp: 0 }
    }
}

#[derive(Debug, Clone, Copy)]
pub struct MotionVector {
    pub x: i16,
    pub y: i16,
}

impl Default for MotionVector {
    fn default() -> (r: Self)
        ensures
            r.x == 0,
            r.y == 0,
    {
        MotionVector { x: 0, y: 0 }
    }
}

#[derive(Debug, Clone)]
pub struct ReferenceFrameSet {
    pub max_slots: u8,
}

impl Default for ReferenceFrameSet {
    fn default() -> (r: Self)
        ensures
            r.max_slots == 0,
    {
        ReferenceFrameSet { max_slots: 0 }
    }
}

/// Parameters shared by every picture of a sequence.
#[derive(Debug, Clone, Copy)]
pub struct VideoSequenceHeaderV2 {
    pub width: u32,
    pub height: u32,
    pub profile: SrsVideoProfile,
    pub pixel_format: PixelFormat,
    pub color_primaries: ColorPrimaries,
    pub transfer: TransferFunction,
    pub matrix: MatrixCoefficients,
    pub chroma_siting: ChromaSiting,
    pub range: ColorRange,
    /// When true, the loop filter stage is skipped.
    pub disable_loop_filter: bool,
    /// Loop filter strength; 0 selects the default strength.
    pub deblock_strength: u8,
    pub max_ref_frames: u8,
}

impl VideoSequenceHeaderV2 {
    /// Intra sequence: Main profile, YUV 4:2:0 8-bit, BT.709 limited range, no references.
    pub fn intra_main_yuv420_bt709_limited(width: u32, height: u32) -> (r: Self)
        ensures
            r == (VideoSequenceHeaderV2 {
                width,
                height,
                profile: SrsVideoProfile::Main,
                pixel_format: PixelFormat::Yuv420p8,
                color_primaries: ColorPrimaries::Bt709,
                transfer: TransferFunction::Sdr,
                matrix: MatrixCoefficients::Bt709,
                chroma_siting: ChromaSiting::Center,
                range: ColorRange::Limited,
                disable_loop_filter: true,
                deblock_strength: 0,
                max_ref_frames: 0,
            }),
    {
        VideoSequenceHeaderV2 {
            width,
            height,
            profile: SrsVideoProfile::Main,
            pixel_format: PixelFormat::Yuv420p8,
            color_primaries: ColorPrimaries::Bt709,
            transfer: TransferFunction::Sdr,
            matrix: MatrixCoefficients::Bt709,
            chroma_siting: ChromaSiting::Center,
            range: ColorRange::Limited,
            disable_loop_filter: true,
            deblock_strength: 0,
            max_ref_frames: 0,
        }
    }

    /// The same sequence with one reference picture, so that predicted frames may follow.
    pub fn intra_main_yuv420_bt709_limited_one_ref(width: u32, height: u32) -> (r: Self)
        ensures
            r == (VideoSequenceHeaderV2 {
                width,
                height,
                profile: SrsVideoProfile::Main,
                pixel_format: PixelFormat::Yuv420p8,
                color_primaries: ColorPrimaries::Bt709,
                transfer: TransferFunction::Sdr,
                matrix: MatrixCoefficients::Bt709,
                chroma_siting: ChromaSiting::Center,
                range: ColorRange::Limited,
                disable_loop_filter: true,
                deblock_strength: 0,
                max_ref_frames: 1,
            }),
    {
        let mut s = VideoSequenceHeaderV2::intra_main_yuv420_bt709_limited(width, height);
        s.max_ref_frames = 1;
        s
    }

    /// The loop filter that the header selects.
    pub fn loop_filter_mode(&self) -> (r: SrsV2LoopFilterMode)
        ensures
            r == filter_mode(*self),
    {
        if self.disable_loop_filter {
            SrsV2LoopFilterMode::Off
        } else {
            SrsV2LoopFilterMode::SimpleDeblock
        }
    }
}

/// The loop filter that a sequence header selects.
pub open spec fn filter_mode(seq: VideoSequenceHeaderV2) -> SrsV2LoopFilterMode {
    if seq.disable_loop_filter {
        SrsV2LoopFilterMode::Off
    } else {
        SrsV2LoopFilterMode::SimpleDeblock
    }
}

#[derive(Debug, Clone)]
pub struct FrameHeaderV2 {
    pub frame_index: u32,
    pub frame_type: FrameTypeV2,
    pub quantizer: QuantizerState,
}

#[derive(Debug, Clone)]
pub struct TileHeaderV2 {
    pub tile_col: u16,
    pub tile_row: u16,
}

#[derive(Debug, Clone)]
pub struct SuperblockHeaderV2 {
    pub sb_x: u16,
    pub sb_y: u16,
}

/// Packed on-wire size of the sequence header.
pub const SEQUENCE_HEADER_BYTES: usize = 64;

/// First four bytes of the packed sequence header (`SRS2`).
pub const SEQUENCE_MAGIC: [u8; 4] = [0x53, 0x52, 0x53, 0x32];

pub open spec fn profile_code(p: SrsVideoProfile) -> u8 {
    match p {
        SrsVideoProfile::Baseline => 0,
        SrsVideoProfile::Main => 1,
        SrsVideoProfile::Pro => 2,
        SrsVideoProfile::Lossless => 3,
        SrsVideoProfile::Screen => 4,
        SrsVideoProfile::Ultra => 5,
        SrsVideoProfile::Research => 6,
    }
}

pub open spec fn pixel_format_code(p: PixelFormat) -> u8 {
    match p {
        PixelFormat::Gray8 => 0,
        PixelFormat::Yuv420p8 => 1,
        PixelFormat::Yuv420p10 => 2,
        PixelFormat::Yuv422p8 => 3,
        PixelFormat::Yuv422p10 => 4,
        PixelFormat::Yuv444p8 => 5,
        PixelFormat::Yuv444p10 => 6,
        PixelFormat::Rgb8 => 7,
        PixelFormat::Rgba8 => 8,
        PixelFormat::Bgra8 => 9,
    }
}

pub open spec fn primaries_code(p: ColorPrimaries) -> u8 {
    match p {
        ColorPrimaries::Bt601 => 0,
        ColorPrimaries::Bt709 => 1,
        ColorPrimaries::Bt2020 => 2,
    }
}

pub open spec fn transfer_code(p: TransferFunction) -> u8 {
    match p {
        TransferFunction::Sdr => 0,
        TransferFunction::Pq => 1,
        TransferFunction::Hlg => 2,
    }
}

pub open spec fn matrix_code(p: MatrixCoefficients) -> u8 {
    match p {
        MatrixCoefficients::Bt601 => 0,
        MatrixCoefficients::Bt709 => 1,
        MatrixCoefficients::Bt2020Ncl => 2,
    }
}

pub open spec fn siting_code(p: ChromaSiting) -> u8 {
    match p {
        ChromaSiting::Center => 0,
        ChromaSiting::Left => 1,
        ChromaSiting::TopLeft => 2,
    }
}

pub open spec fn range_code(p: ColorRange) -> u8 {
    match p {
        ColorRange::Limited => 0,
        ColorRange::Full => 1,
    }
}

/// Byte `i` of the packed sequence header.
pub open spec fn header_byte(seq: VideoSequenceHeaderV2, i: int) -> u8 {
    if i < 4 {
        SEQUENCE_MAGIC@[i]
    } else if i == 4 {
        1
    } else if 8 <= i < 12 {
        bytes32(seq.width as int)[i - 8]
    } else if 12 <= i < 16 {
        bytes32(seq.height as int)[i - 12]
    } else if i == 16 {
        profile_code(seq.profile)
    } else if i == 17 {
        pixel_format_code(seq.pixel_format)
    } else if i == 18 {
        primaries_code(seq.color_primaries)
    } else if i == 19 {
        transfer_code(seq.transfer)
    } else if i == 20 {
        matrix_code(seq.matrix)
    } else if i == 21 {
        siting_code(seq.chroma_siting)
    } else if i == 22 {
        range_code(seq.range)
    } else if i == 23 {
        if seq.disable_loop_filter { 1 } else { 0 }
    } else if i == 24 {
        seq.max_ref_frames
    } else if i == 25 {
        seq.deblock_strength
    } else {
        0
    }
}

/// The bytes of the packed sequence header.
pub open spec fn header_bytes(seq: VideoSequenceHeaderV2) -> Seq<u8> {
    Seq::new(SEQUENCE_HEADER_BYTES as nat, |i: int| header_byte(seq, i))
}

fn encode_profile(p: SrsVideoProfile) -> (b: u8)
    ensures
        b == profile_code(p),
{
    match p {
        SrsVideoProfile::Baseline => 0,
        SrsVideoProfile::Main => 1,
        SrsVideoProfile::Pro => 2,
        SrsVideoProfile::Lossless => 3,
        SrsVideoProfile::Screen => 4,
        SrsVideoProfile::Ultra => 5,
        SrsVideoProfile::Research => 6,
    }
}

fn encode_pixel_format(p: PixelFormat) -> (b: u8)
    ensures
        b == pixel_format_code(p),
{
    match p {
        PixelFormat::Gray8 => 0,
        PixelFormat::Yuv420p8 => 1,
        PixelFormat::Yuv420p10 => 2,
        PixelFormat::Yuv422p8 => 3,
        PixelFormat::Yuv422p10 => 4,
        PixelFormat::Yuv444p8 => 5,
        PixelFormat::Yuv444p10 => 6,
        PixelFormat::Rgb8 => 7,
        PixelFormat::Rgba8 => 8,
        PixelFormat::Bgra8 => 9,
    }
}

fn encode_color_primaries(p: ColorPrimaries) -> (b: u8)
    ensures
        b == primaries_code(p),
{
    match p {
        ColorPrimaries::Bt601 => 0,
        ColorPrimaries::Bt709 => 1,
        ColorPrimaries::Bt2020 => 2,
    }
}

fn encode_transfer(p: TransferFunction) -> (b: u8)
    ensures
        b == transfer_code(p),
{
    match p {
        TransferFunction::Sdr => 0,
        TransferFunction::Pq => 1,
        TransferFunction::Hlg => 2,
    }
}

fn encode_matrix(p: MatrixCoefficients) -> (b: u8)
    ensures
        b == matrix_code(p),
{
    match p {
        MatrixCoefficients::Bt601 => 0,
        MatrixCoefficients::Bt709 => 1,
        MatrixCoefficients::Bt2020Ncl => 2,
    }
}

fn encode_chroma_siting(p: ChromaSiting) -> (b: u8)
    ensures
        b == siting_code(p),
{
    match p {
        ChromaSiting::Center => 0,
        ChromaSiting::Left => 1,
        ChromaSiting::TopLeft => 2,
    }
}

fn encode_range(p: ColorRange) -> (b: u8)
    ensures
        b == range_code(p),
{
    match p {
        ColorRange::Limited => 0,
        ColorRange::Full => 1,
    }
}

/// Packs a sequence header.
pub fn encode_sequence_header_v2(seq: &VideoSequenceHeaderV2) -> (b: [u8; SEQUENCE_HEADER_BYTES])
    ensures
        b@ == header_bytes(*seq),
{
    let mut dims: Vec<u8> = Vec::new();
    push_u32(&mut dims, seq.width);
    push_u32(&mut dims, seq.height);
    assert(dims@ == bytes32(seq.width as int) + bytes32(seq.height as int));
    let mut b: [u8; SEQUENCE_HEADER_BYTES] = [0u8; SEQUENCE_HEADER_BYTES];
    let mut i: usize = 0;
    while i < SEQUENCE_HEADER_BYTES
        invariant
            i <= SEQUENCE_HEADER_BYTES,
            dims@ == bytes32(seq.width as int) + bytes32(seq.height as int),
            forall|j: int| 0 <= j < i ==> b@[j] == header_byte(*seq, j),
        decreases SEQUENCE_HEADER_BYTES - i,
    {
        b[i] = if i < 4 {
            SEQUENCE_MAGIC[i]
        } else if i == 4 {
            1
        } else if 8 <= i && i < 16 {
            dims[i - 8]
        } else if i == 16 {
            encode_profile(seq.profile)
        } else if i == 17 {
            encode_pixel_format(seq.pixel_format)
        } else if i == 18 {
            encode_color_primaries(seq.color_primaries)
        } else if i == 19 {
            encode_transfer(seq.transfer)
        } else if i == 20 {
            encode_matrix(seq.matrix)
        } else if i == 21 {
            encode_chroma_siting(seq.chroma_siting)
        } else if i == 22 {
            encode_range(seq.range)
        } else if i == 23 {
            if seq.disable_loop_filter {
                1
            } else {
                0
            }
        } else if i == 24 {
            seq.max_ref_frames
        } else if i == 25 {
            seq.deblock_strength
        } else {
            0
        };
        i += 1;
    }
    assert(b@ =~= header_bytes(*seq));
    b
}

fn decode_profile(b: u8) -> (r: Result<SrsVideoProfile, SrsV2Error>)
    ensures
        b <= 6 <==> r is Ok,
        r matches Ok(p) ==> profile_code(p) == b,
        r matches Err(e) ==> e == SrsV2Error::Syntax("unknown SRSV2 profile byte"),
{
    match b {
        0 => Ok(SrsVideoProfile::Baseline),
        1 => Ok(SrsVideoProfile::Main),
        2 => Ok(SrsVideoProfile::Pro),
        3 => Ok(SrsVideoProfile::Lossless),
        4 => Ok(SrsVideoProfile::Screen),
        5 => Ok(SrsVideoProfile::Ultra),
        6 => Ok(SrsVideoProfile::Research),
        _ => Err(SrsV2Error::Syntax("unknown SRSV2 profile byte")),
    }
}

fn decode_pixel_format(b: u8) -> (r: Result<PixelFormat, SrsV2Error>)
    ensures
        b <= 9 <==> r is Ok,
        r matches Ok(p) ==> pixel_format_code(p) == b,
        r matches Err(e) ==> e == SrsV2Error::Syntax("unknown pixel format"),
{
    match b {
        0 => Ok(PixelFormat::Gray8),
        1 => Ok(PixelFormat::Yuv420p8),
        2 => Ok(PixelFormat::Yuv420p10),
        3 => Ok(PixelFormat::Yuv422p8),
        4 => Ok(PixelFormat::Yuv422p10),
        5 => Ok(PixelFormat::Yuv444p8),
        6 => Ok(PixelFormat::Yuv444p10),
        7 => Ok(PixelFormat::Rgb8),
        8 => Ok(PixelFormat::Rgba8),
        9 => Ok(PixelFormat::Bgra8),
        _ => Err(SrsV2Error::Syntax("unknown pixel format")),
    }
}

fn decode_primaries(b: u8) -> (r: Result<ColorPrimaries, SrsV2Error>)
    ensures
        b <= 2 <==> r is Ok,
        r matches Ok(p) ==> primaries_code(p) == b,
        r matches Err(e) ==> e == SrsV2Error::Syntax("unknown primaries"),
{
    match b {
        0 => Ok(ColorPrimaries::Bt601),
        1 => Ok(ColorPrimaries::Bt709),
        2 => Ok(ColorPrimaries::Bt2020),
        _ => Err(SrsV2Error::Syntax("unknown primaries")),
    }
}

fn decode_transfer(b: u8) -> (r: Result<TransferFunction, SrsV2Error>)
    ensures
        b <= 2 <==> r is Ok,
        r matches Ok(p) ==> transfer_code(p) == b,
        r matches Err(e) ==> e == SrsV2Error::Syntax("unknown transfer"),
{
    match b {
        0 => Ok(TransferFunction::Sdr),
        1 => Ok(TransferFunction::Pq),
        2 => Ok(TransferFunction::Hlg),
        _ => Err(SrsV2Error::Syntax("unknown transfer")),
    }
}

fn decode_matrix(b: u8) -> (r: Result<MatrixCoefficients, SrsV2Error>)
    ensures
        b <= 2 <==> r is Ok,
        r matches Ok(p) ==> matrix_code(p) == b,
        r matches Err(e) ==> e == SrsV2Error::Syntax("unknown matrix"),
{
    match b {
        0 => Ok(MatrixCoefficients::Bt601),
        1 => Ok(MatrixCoefficients::Bt709),
        2 => Ok(MatrixCoefficients::Bt2020Ncl),
        _ => Err(SrsV2Error::Syntax("unknown matrix")),
    }
}

fn decode_chroma_siting(b: u8) -> (r: Result<ChromaSiting, SrsV2Error>)
    ensures
        b <= 2 <==> r is Ok,
        r matches Ok(p) ==> siting_code(p) == b,
        r matches Err(e) ==> e == SrsV2Error::Syntax("unknown chroma siting"),
{
    match b {
        0 => Ok(ChromaSiting::Center),
        1 => Ok(ChromaSiting::Left),
        2 => Ok(ChromaSiting::TopLeft),
        _ => Err(SrsV2Error::Syntax("unknown chroma siting")),
    }
}

fn decode_range(b: u8) -> (r: Result<ColorRange, SrsV2Error>)
    ensures
        b <= 1 <==> r is Ok,
        r matches Ok(p) ==> range_code(p) == b,
        r matches Err(e) ==> e == SrsV2Error::Syntax("unknown color range"),
{
    match b {
        0 => Ok(ColorRange::Limited),
        1 => Ok(ColorRange::Full),
        _ => Err(SrsV2Error::Syntax("unknown color range")),
    }
}

/// Why a packed sequence header is refused, if it is.
pub open spec fn header_refusal(b: Seq<u8>) -> Option<SrsV2Error> {
    if b.len() < SEQUENCE_HEADER_BYTES {
        Some(SrsV2Error::Truncated)
    } else if b.subrange(0, 4) != SEQUENCE_MAGIC@ {
        Some(SrsV2Error::BadMagic)
    } else if b[4] != 1 {
        Some(SrsV2Error::UnsupportedVersion(b[4]))
    } else if b[24] > MAX_REF_FRAMES {
        Some(SrsV2Error::ExcessiveReferenceFrames(b[24]))
    } else if b[16] > 6 {
        Some(SrsV2Error::Syntax("unknown SRSV2 profile byte"))
    } else if b[17] > 9 {
        Some(SrsV2Error::Syntax("unknown pixel format"))
    } else if b[18] > 2 {
        Some(SrsV2Error::Syntax("unknown primaries"))
    } else if b[19] > 2 {
        Some(SrsV2Error::Syntax("unknown transfer"))
    } else if b[20] > 2 {
        Some(SrsV2Error::Syntax("unknown matrix"))
    } else if b[21] > 2 {
        Some(SrsV2Error::Syntax("unknown chroma siting"))
    } else if b[22] > 1 {
        Some(SrsV2Error::Syntax("unknown color range"))
    } else {
        None
    }
}

/// `h` holds what the fields of the packed header `b` say.
pub open spec fn header_matches(h: VideoSequenceHeaderV2, b: Seq<u8>) -> bool {
    &&& h.width == le32(b, 8)
    &&& h.height == le32(b, 12)
    &&& profile_code(h.profile) == b[16]
    &&& pixel_format_code(h.pixel_format) == b[17]
    &&& primaries_code(h.color_primaries) == b[18]
    &&& transfer_code(h.transfer) == b[19]
    &&& matrix_code(h.matrix) == b[20]
    &&& siting_code(h.chroma_siting) == b[21]
    &&& range_code(h.range) == b[22]
    &&& h.disable_loop_filter == (b[23] != 0)
    &&& h.max_ref_frames == b[24]
    &&& h.deblock_strength == b[25]
}

/// Reads a packed sequence header.
pub fn decode_sequence_header_v2(buf: &[u8]) -> (r: Result<VideoSequenceHeaderV2, SrsV2Error>)
    ensures
        match header_refusal(buf@) {
            Some(e) => r == Err::<VideoSequenceHeaderV2, SrsV2Error>(e),
            None => r is Ok && header_matches(r->Ok_0, buf@),
        },
{
    if buf.len() < SEQUENCE_HEADER_BYTES {
        return Err(SrsV2Error::Truncated);
    }
    let magic_ok = buf[0] == SEQUENCE_MAGIC[0] && buf[1] == SEQUENCE_MAGIC[1] && buf[2]
        == SEQUENCE_MAGIC[2] && buf[3] == SEQUENCE_MAGIC[3];
    proof {
        let m = buf@.subrange(0, 4);
        assert(m[0] == buf@[0] && m[1] == buf@[1] && m[2] == buf@[2] && m[3] == buf@[3]);
        if magic_ok {
            assert(m =~= SEQUENCE_MAGIC@);
        }
    }
    if !magic_ok {
        return Err(SrsV2Error::BadMagic);
    }
    if buf[4] != 1 {
        return Err(SrsV2Error::UnsupportedVersion(buf[4]));
    }
    let width: u32 = get_u32(buf, 8);
    let height: u32 = get_u32(buf, 12);
    if buf[24] > MAX_REF_FRAMES {
        return Err(SrsV2Error::ExcessiveReferenceFrames(buf[24]));
    }
    let profile = match decode_profile(buf[16]) {
        Ok(p) => p,
        Err(e) => {
            return Err(e);
        },
    };
    let pixel_format = match decode_pixel_format(buf[17]) {
        Ok(p) => p,
        Err(e) => {
            return Err(e);
        },
    };
    let color_primaries = match decode_primaries(buf[18]) {
        Ok(p) => p,
        Err(e) => {
            return Err(e);
        },
    };
    let transfer = match decode_transfer(buf[19]) {
        Ok(p) => p,
        Err(e) => {
            return Err(e);
        },
    };
    let matrix = match decode_matrix(buf[20]) {
        Ok(p) => p,
        Err(e) => {
            return Err(e);
        },
    };
    let chroma_siting = match decode_chroma_siting(buf[21]) {
        Ok(p) => p,
        Err(e) => {
            return Err(e);
        },
    };
    let range = match decode_range(buf[22]) {
        Ok(p) => p,
        Err(e) => {
            return Err(e);
        },
    };
    Ok(
        VideoSequenceHeaderV2 {
            width,
            height,
            profile,
            pixel_format,
            color_primaries,
            transfer,
            matrix,
            chroma_siting,
            range,
            disable_loop_filter: buf[23] != 0,
            deblock_strength: buf[25],
            max_ref_frames: buf[24],
        },
    )
}

/// A packed header whose reference count is within the limit is accepted, and reading it gives
/// back every field.
pub proof fn sequence_header_round_trip(seq: VideoSequenceHeaderV2, h: VideoSequenceHeaderV2)
    requires
        seq.max_ref_frames <= MAX_REF_FRAMES,
        header_matches(h, header_bytes(seq)),
    ensures
        header_refusal(header_bytes(seq)) is None,
        h == seq,
{
    let b = header_bytes(seq);
    assert(b.subrange(0, 4) =~= SEQUENCE_MAGIC@);
    lemma_header_dimensions(seq);
    assert(profile_code(h.profile) == profile_code(seq.profile));
    assert(pixel_format_code(h.pixel_format) == pixel_format_code(seq.pixel_format));
    assert(primaries_code(h.color_primaries) == primaries_code(seq.color_primaries));
    assert(transfer_code(h.transfer) == transfer_code(seq.transfer));
    assert(matrix_code(h.matrix) == matrix_code(seq.matrix));
    assert(siting_code(h.chroma_siting) == siting_code(seq.chroma_siting));
    assert(range_code(h.range) == range_code(seq.range));
}

/// A header is what its packed form says.
pub proof fn header_matches_own_bytes(seq: VideoSequenceHeaderV2)
    ensures
        header_matches(seq, header_bytes(seq)),
{
    lemma_header_dimensions(seq);
}

proof fn lemma_header_dimensions(seq: VideoSequenceHeaderV2)
    ensures
        le32(header_bytes(seq), 8) == seq.width,
        le32(header_bytes(seq), 12) == seq.height,
{
    let b = header_bytes(seq);
    lemma_bytes32_parts(seq.width as int);
    lemma_bytes32_parts(seq.height as int);
}

proof fn lemma_bytes32_parts(v: int)
    requires
        0 <= v < 4294967296,
    ensures
        v == bytes32(v)[0] + 256 * bytes32(v)[1] + 65536 * bytes32(v)[2] + 16777216 * bytes32(v)[3],
{
}

/// Where the fields of a packed header stand: the name of the format, its version, the sides of the
/// picture from the low byte on, seven codes, and the loop filter, reference and strength bytes.
pub proof fn header_fields_stand_at_their_places(seq: VideoSequenceHeaderV2, i: int)
    requires
        0 <= i < 64,
    ensures
        ({
            let b = header_bytes(seq);
            &&& b.len() == 64
            &&& b[0] == 0x53 && b[1] == 0x52 && b[2] == 0x53 && b[3] == 0x32 && b[4] == 1
            &&& le32(b, 8) == seq.width
            &&& le32(b, 12) == seq.height
            &&& b[23] == if seq.disable_loop_filter {
                1u8
            } else {
                0
            }
            &&& b[24] == seq.max_ref_frames
            &&& b[25] == seq.deblock_strength
            &&& 5 <= i < 8 || 26 <= i ==> b[i] == 0
        }),
{
    lemma_header_dimensions(seq);
}

/// The codes of a header count through the choices of each field in the order in which they are
/// listed.
pub proof fn header_codes(seq: VideoSequenceHeaderV2)
    ensures
        ({
            let b = header_bytes(seq);
            &&& b[16] == 0 <==> seq.profile is Baseline
            &&& b[16] == 1 <==> seq.profile is Main
            &&& b[16] == 2 <==> seq.profile is Pro
            &&& b[16] == 3 <==> seq.profile is Lossless
            &&& b[16] == 4 <==> seq.profile is Screen
            &&& b[16] == 5 <==> seq.profile is Ultra
            &&& b[16] == 6 <==> seq.profile is Research
            &&& b[17] == 0 <==> seq.pixel_format is Gray8
            &&& b[17] == 1 <==> seq.pixel_format is Yuv420p8
            &&& b[17] == 2 <==> seq.pixel_format is Yuv420p10
            &&& b[17] == 3 <==> seq.pixel_format is Yuv422p8
            &&& b[17] == 5 <==> seq.pixel_format is Yuv444p8
            &&& b[17] == 7 <==> seq.pixel_format is Rgb8
            &&& b[18] == 0 <==> seq.color_primaries is Bt601
            &&& b[18] == 1 <==> seq.color_primaries is Bt709
            &&& b[18] == 2 <==> seq.color_primaries is Bt2020
            &&& b[22] == 0 <==> seq.range is Limited
            &&& b[22] == 1 <==> seq.range is Full
        }),
{
}

} // verus!
