//! Payload kinds.
use libsrs::srsv2::frame_codec::{payload_route, PayloadRoute};
use libsrs::srsv2::payload_kind::{classify_srsv2_payload, Srsv2PayloadKind};

#[test]
fn fr2_rev1_is_intra() {
    assert_eq!(
        classify_srsv2_payload(&[b'F', b'R', b'2', 1, 0]).unwrap(),
        Srsv2PayloadKind::Intra
    );
}

#[test]
fn fr2_rev2_is_predicted() {
    assert_eq!(
        classify_srsv2_payload(&[b'F', b'R', b'2', 2]).unwrap(),
        Srsv2PayloadKind::Predicted
    );
}

#[test]
fn too_short_errors() {
    assert!(classify_srsv2_payload(&[1, 2]).is_err());
}

#[test]
fn bad_magic_errors() {
    assert!(classify_srsv2_payload(b"XX2\x01").is_err());
}

#[test]
fn unknown_revision_ok_unknown() {
    assert_eq!(
        classify_srsv2_payload(&[b'F', b'R', b'2', 99]).unwrap(),
        Srsv2PayloadKind::Unknown
    );
}

#[test]
fn fr2_rev3_is_intra() {
    assert_eq!(
        classify_srsv2_payload(&[b'F', b'R', b'2', 3]).unwrap(),
        Srsv2PayloadKind::Intra
    );
}

#[test]
fn fr2_rev4_is_predicted() {
    assert_eq!(
        classify_srsv2_payload(&[b'F', b'R', b'2', 4]).unwrap(),
        Srsv2PayloadKind::Predicted
    );
}

#[test]
fn fr2_rev5_rev6_are_predicted() {
    assert_eq!(
        classify_srsv2_payload(&[b'F', b'R', b'2', 5]).unwrap(),
        Srsv2PayloadKind::Predicted
    );
    assert_eq!(
        classify_srsv2_payload(&[b'F', b'R', b'2', 6]).unwrap(),
        Srsv2PayloadKind::Predicted
    );
}

#[test]
fn fr2_rev7_is_intra() {
    assert_eq!(
        classify_srsv2_payload(&[b'F', b'R', b'2', 7]).unwrap(),
        Srsv2PayloadKind::Intra
    );
}

#[test]
fn fr2_rev8_rev9_are_predicted() {
    assert_eq!(
        classify_srsv2_payload(&[b'F', b'R', b'2', 8]).unwrap(),
        Srsv2PayloadKind::Predicted
    );
    assert_eq!(
        classify_srsv2_payload(&[b'F', b'R', b'2', 9]).unwrap(),
        Srsv2PayloadKind::Predicted
    );
}

#[test]
fn fr2_rev10_rev11_are_predicted_b_syntax() {
    assert_eq!(
        classify_srsv2_payload(&[b'F', b'R', b'2', 10]).unwrap(),
        Srsv2PayloadKind::Predicted
    );
    assert_eq!(
        classify_srsv2_payload(&[b'F', b'R', b'2', 11]).unwrap(),
        Srsv2PayloadKind::Predicted
    );
}

#[test]
fn fr2_rev12_is_alt_ref() {
    assert_eq!(
        classify_srsv2_payload(&[b'F', b'R', b'2', 12]).unwrap(),
        Srsv2PayloadKind::AltRef
    );
}

#[test]
fn fr2_rev14_is_predicted_b_syntax() {
    assert_eq!(
        classify_srsv2_payload(&[b'F', b'R', b'2', 14]).unwrap(),
        Srsv2PayloadKind::Predicted
    );
}

#[test]
fn fr2_rev15_rev17_compact_entropy_p_are_predicted() {
    assert_eq!(
        classify_srsv2_payload(&[b'F', b'R', b'2', 15]).unwrap(),
        Srsv2PayloadKind::Predicted
    );
    assert_eq!(
        classify_srsv2_payload(&[b'F', b'R', b'2', 17]).unwrap(),
        Srsv2PayloadKind::Predicted
    );
}

#[test]
fn fr2_rev19_through_22_are_predicted_for_mux_policy() {
    for rev in [19u8, 20, 21, 22] {
        assert_eq!(
            classify_srsv2_payload(&[b'F', b'R', b'2', rev]).unwrap(),
            Srsv2PayloadKind::Predicted
        );
    }
}

#[test]
fn fr2_rev27_rev28_are_predicted_for_mux_policy() {
    for rev in [27u8, 28] {
        assert_eq!(
            classify_srsv2_payload(&[b'F', b'R', b'2', rev]).unwrap(),
            Srsv2PayloadKind::Predicted
        );
    }
}

#[test]
fn fr2_rev23_through_26_are_predicted_for_mux_policy() {
    for rev in [23u8, 24, 25, 26] {
        assert_eq!(
            classify_srsv2_payload(&[b'F', b'R', b'2', rev]).unwrap(),
            Srsv2PayloadKind::Predicted
        );
    }
}

#[test]
fn fr2_rev16_rev18_compact_entropy_b_are_predicted() {
    assert_eq!(
        classify_srsv2_payload(&[b'F', b'R', b'2', 16]).unwrap(),
        Srsv2PayloadKind::Predicted
    );
    assert_eq!(
        classify_srsv2_payload(&[b'F', b'R', b'2', 18]).unwrap(),
        Srsv2PayloadKind::Predicted
    );
}

#[test]
fn indexed_keyframes_need_no_reference() {
    for rev in 0..=255_u8 {
        let kind = classify_srsv2_payload(&[b'F', b'R', b'2', rev]).unwrap();
        let route = payload_route(rev);
        if kind == Srsv2PayloadKind::Intra {
            assert_eq!(route, PayloadRoute::Intra);
        }
        assert_eq!(kind == Srsv2PayloadKind::AltRef, route == PayloadRoute::HiddenReference);
        if matches!(route, PayloadRoute::Forward | PayloadRoute::Bidirectional) {
            assert_ne!(kind, Srsv2PayloadKind::Intra);
        }
    }
}
