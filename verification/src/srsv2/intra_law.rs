//! An intra picture comes back from its payload.
use vstd::prelude::*;

use crate::arith::magnitude;

use super::error::SrsV2Error;
use super::frame::{DecodedVideoFrameV2, VideoPlane, YuvFrame};
use super::intra_frame::{
    PlaneInput, explicit_plane_round_trip, intra_decoded, intra_magic, intra_payload,
    intra_payload_round_trip,
};
use super::intra_plane::{
    IntraPlaneEncoder, decoded_plane_is_the_source, padded_len, residual_views, residuals_within,
};
use super::model::VideoSequenceHeaderV2;
use super::rate_control::{ResidualEntropy, SrsV2CoeffLayoutMode, SrsV2EncodeSettings};

verus! {

/// An encoder has finished a plane, and its residuals came back within `e` of those that it handed
/// out for the plane.
pub open spec fn finished(
    enc: IntraPlaneEncoder,
    plane: VideoPlane<u8>,
    res: Vec<[i16; 64]>,
    e: int,
) -> bool {
    &&& enc.wf()
    &&& !enc.coded
    &&& enc.done == enc.total()
    &&& plane.valid()
    &&& enc.pw == padded_len(plane.width as int)
    &&& enc.ph == padded_len(plane.height as int)
    &&& residual_views(res@) == enc.residuals@
    &&& residuals_within(plane, enc.modes@, enc.residuals@, e)
}

proof fn lemma_plane_back(
    enc: IntraPlaneEncoder,
    plane: VideoPlane<u8>,
    res: Vec<[i16; 64]>,
    e: int,
    x: int,
    y: int,
    trailing: &'static str,
)
    requires
        finished(enc, plane, res, e),
        0 <= e,
        0 <= x < plane.width,
        0 <= y < plane.height,
    ensures
        ({
            let w = plane.width as int;
            let r = super::intra_frame::plane_outcome(
                PlaneInput::Residuals(res),
                enc.out@,
                1,
                w,
                plane.height as int,
                trailing,
            );
            r is Ok && magnitude(r->Ok_0[y * w + x] - plane.at(x, y)) <= e
        }),
{
    let (w, h) = (plane.width as int, plane.height as int);
    explicit_plane_round_trip(enc, w, h, res, trailing);
    super::intra_plane::decoder_matches_encoder(enc);
    decoded_plane_is_the_source(plane, enc.modes@, enc.residuals@, e, x, y);
}

/// A picture whose planes were coded with explicit coefficients and put into an intra payload comes
/// back from it in all three planes, up to what was lost of the residuals, under its number.
pub proof fn intra_picture_comes_back(
    seq: VideoSequenceHeaderV2,
    s: SrsV2EncodeSettings,
    cur: YuvFrame,
    frame_index: u32,
    qp: u8,
    enc: (IntraPlaneEncoder, IntraPlaneEncoder, IntraPlaneEncoder),
    coded: Seq<Result<Vec<u8>, SrsV2Error>>,
    res: (Vec<[i16; 64]>, Vec<[i16; 64]>, Vec<[i16; 64]>),
    f: DecodedVideoFrameV2,
    e: int,
    x: int,
    y: int,
)
    requires
        s.residual_entropy == ResidualEntropy::Explicit,
        s.coeff_layout_mode != SrsV2CoeffLayoutMode::CompactV1,
        cur.y.width == seq.width,
        cur.y.height == seq.height,
        cur.u.width == (seq.width + 1) / 2,
        cur.u.height == (seq.height + 1) / 2,
        cur.v.width == cur.u.width,
        cur.v.height == cur.u.height,
        0 <= e,
        finished(enc.0, cur.y, res.0, e),
        finished(enc.1, cur.u, res.1, e),
        finished(enc.2, cur.v, res.2, e),
        coded.len() == 3,
        coded[0] is Ok && coded[0]->Ok_0@ == enc.0.out@,
        coded[1] is Ok && coded[1]->Ok_0@ == enc.1.out@,
        coded[2] is Ok && coded[2]->Ok_0@ == enc.2.out@,
        intra_payload(s, frame_index as int, qp as int, coded) is Ok,
        intra_decoded(
            seq,
            intra_payload(s, frame_index as int, qp as int, coded)->Ok_0,
            seq![
                PlaneInput::Residuals(res.0),
                PlaneInput::Residuals(res.1),
                PlaneInput::Residuals(res.2),
            ],
            Ok(f),
        ),
        0 <= x < seq.width,
        0 <= y < seq.height,
    ensures
        f.frame_index == frame_index,
        magnitude(f.yuv.y.at(x, y) - cur.y.at(x, y)) <= e,
        magnitude(f.yuv.u.at(x / 2, y / 2) - cur.u.at(x / 2, y / 2)) <= e,
        magnitude(f.yuv.v.at(x / 2, y / 2) - cur.v.at(x / 2, y / 2)) <= e,
{
    assert(intra_magic(s)@[3] == 1);
    intra_payload_round_trip(s, frame_index as int, qp as int, coded);
    lemma_plane_back(enc.0, cur.y, res.0, e, x, y, "y plane trailing bits");
    lemma_plane_back(enc.1, cur.u, res.1, e, x / 2, y / 2, "u plane trailing bits");
    lemma_plane_back(enc.2, cur.v, res.2, e, x / 2, y / 2, "v plane trailing bits");
}

} // verus!
