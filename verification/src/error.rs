//! Errors of the grayscale codec and its stream.
use vstd::prelude::*;

verus! {

/// What the grayscale codec reports.
#[derive(Debug, Clone, Copy, PartialEq, Eq)]
pub enum VideoCodecError {
    InvalidData(&'static str),
    DimensionMismatch {
        expected_width: u32,
        expected_height: u32,
        actual_width: u32,
        actual_height: u32,
    },
    UnsupportedFrameType(u8),
    CrcMismatch { expected: u32, actual: u32 },
    /// The stream ended inside a header or a packet.
    UnexpectedEof,
}

} // verus!
