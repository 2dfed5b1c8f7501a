//! Structured errors of the SRSV2 path.
use vstd::prelude::*;

verus! {

/// What a parser, a validator or an encoder of the SRSV2 path reports.
#[derive(Debug, Clone, Copy)]
pub enum SrsV2Error {
    /// Invalid magic or container tag.
    BadMagic,
    /// Unsupported SRSV2 bitstream version.
    UnsupportedVersion(u8),
    /// Syntax error.
    Syntax(&'static str),
    /// Invalid picture dimensions.
    Dimensions { width: u32, height: u32 },
    /// Allocation limit exceeded.
    AllocationLimit { context: &'static str },
    /// Integer overflow.
    Overflow(&'static str),
    /// Truncated bitstream.
    Truncated,
    /// Reserved or unsupported feature.
    Unsupported(&'static str),
    /// Profile limits exceeded.
    LimitExceeded(&'static str),
    /// More reference frames than the format allows.
    ExcessiveReferenceFrames(u8),
    /// A motion vector outside the bounds of the format.
    CorruptedMotionVector,
    /// An inter frame arrived while no reference picture is stored.
    PFrameWithoutReference,
    /// Decode mismatch.
    Internal,
    /// The stream ended inside a header or a packet.
    UnexpectedEof,
}

impl SrsV2Error {
    pub fn syntax(msg: &'static str) -> (r: Self)
        ensures
            r == SrsV2Error::Syntax(msg),
    {
        SrsV2Error::Syntax(msg)
    }
}

} // verus!
