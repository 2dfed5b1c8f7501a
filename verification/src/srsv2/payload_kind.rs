//! What a frame payload is, by its `FR2` revision byte.
use vstd::prelude::*;

use super::error::SrsV2Error;

verus! {

/// The place of a frame payload in a stream.
#[derive(Debug, Clone, Copy, PartialEq, Eq, Structural)]
pub enum Srsv2PayloadKind {
    /// A refresh picture, to be indexed as a keyframe.
    Intra,
    /// Predicted from other pictures, so never a keyframe.
    Predicted,
    /// A reference picture that is not displayed.
    AltRef,
    /// A revision that has no place in a stream; it must not be muxed.
    Unknown,
}

/// The kind of a revision.
pub open spec fn kind_of_revision(rev: int) -> Srsv2PayloadKind {
    if rev == 1 || rev == 3 || rev == 7 {
        Srsv2PayloadKind::Intra
    } else if rev == 12 {
        Srsv2PayloadKind::AltRef
    } else if 2 <= rev <= 28 {
        Srsv2PayloadKind::Predicted
    } else {
        Srsv2PayloadKind::Unknown
    }
}

/// Sorts a frame payload by its revision.
pub fn classify_srsv2_payload(payload: &[u8]) -> (r: Result<Srsv2PayloadKind, SrsV2Error>)
    ensures
        r == if payload@.len() < 4 {
            Err::<Srsv2PayloadKind, SrsV2Error>(
                SrsV2Error::Syntax("SRSV2 payload too short for FR2 header"),
            )
        } else if payload@.take(3) != seq![70u8, 82u8, 50u8] {
            Err::<Srsv2PayloadKind, SrsV2Error>(SrsV2Error::BadMagic)
        } else {
            Ok::<Srsv2PayloadKind, SrsV2Error>(kind_of_revision(payload@[3] as int))
        },
{
    if payload.len() < 4 {
        return Err(SrsV2Error::syntax("SRSV2 payload too short for FR2 header"));
    }
    let ghost m = payload@.take(3);
    assert(m[0] == payload@[0] && m[1] == payload@[1] && m[2] == payload@[2]);
    if payload[0] != 70 || payload[1] != 82 || payload[2] != 50 {
        return Err(SrsV2Error::BadMagic);
    }
    assert(m =~= seq![70u8, 82u8, 50u8]);
    Ok(
        match payload[3] {
            1 | 3 | 7 => Srsv2PayloadKind::Intra,
            12 => Srsv2PayloadKind::AltRef,
            rev => if 2 <= rev && rev <= 28 {
                Srsv2PayloadKind::Predicted
            } else {
                Srsv2PayloadKind::Unknown
            },
        },
    )
}

} // verus!
