//! Rate control.
use libsrs::srsv2::limits::{MAX_MOTION_SEARCH_RADIUS, MAX_SUBPEL_REFINEMENT_RADIUS};
use libsrs::srsv2::rate_control::{
    target_payload_bytes, PreviousFrameRcStats, SrsV2EncodeSettings, SrsV2RateControlMode,
    SrsV2RateController,
};

fn tb_settings(kbps: u32, q0: u8) -> SrsV2EncodeSettings {
    SrsV2EncodeSettings {
        rate_control_mode: SrsV2RateControlMode::TargetBitrate,
        target_bitrate_kbps: Some(kbps),
        quantizer: q0,
        min_qp: 4,
        max_qp: 51,
        qp_step_limit_per_frame: 2,
        ..Default::default()
    }
}

#[test]
fn fixed_qp_returns_same_qp() {
    let s = SrsV2EncodeSettings {
        rate_control_mode: SrsV2RateControlMode::FixedQp,
        quantizer: 28,
        min_qp: 10,
        max_qp: 40,
        ..Default::default()
    };
    let mut rc = SrsV2RateController::new(&s, 30, 1).unwrap();
    assert_eq!(rc.qp_for_frame(0, None), 28);
    assert_eq!(
        rc.qp_for_frame(
            1,
            Some(PreviousFrameRcStats {
                encoded_bytes: 9999,
                is_keyframe: false,
            })
        ),
        28
    );
}

#[test]
fn constant_quality_maps_deterministically() {
    let s = SrsV2EncodeSettings {
        rate_control_mode: SrsV2RateControlMode::ConstantQuality,
        quality: Some(22),
        min_qp: 10,
        max_qp: 40,
        ..Default::default()
    };
    let mut rc = SrsV2RateController::new(&s, 30, 1).unwrap();
    assert_eq!(rc.qp_for_frame(0, None), 22);
}

#[test]
fn target_bitrate_increases_qp_after_oversized_frame() {
    // 1 kbps @ 30 fps => ~4 byte P-frame budget; pretend we emitted far more => raise QP.
    let s = tb_settings(1, 10);
    let mut rc = SrsV2RateController::new(&s, 30, 1).unwrap();
    assert_eq!(rc.current_qp, 10);
    let _ = rc.qp_for_frame(0, None);
    let tiny_target = target_payload_bytes(1, 30, 1, false);
    let big = tiny_target.saturating_mul(100).min(u32::MAX as u64) as usize;
    rc.observe_frame(0, big, false);
    let qp1 = rc.qp_for_frame(1, None);
    assert!(qp1 > 10);
}

#[test]
fn target_bitrate_decreases_qp_after_undersized_frame() {
    let s = tb_settings(10_000, 40);
    let mut rc = SrsV2RateController::new(&s, 30, 1).unwrap();
    let _ = rc.qp_for_frame(0, None);
    rc.observe_frame(0, 1, false);
    let qp1 = rc.qp_for_frame(1, None);
    assert!(qp1 < 40);
}

#[test]
fn qp_stays_inside_min_max() {
    let s = SrsV2EncodeSettings {
        rate_control_mode: SrsV2RateControlMode::FixedQp,
        quantizer: 99,
        min_qp: 10,
        max_qp: 20,
        ..Default::default()
    };
    let mut rc = SrsV2RateController::new(&s, 30, 1).unwrap();
    assert_eq!(rc.qp_for_frame(0, None), 20);
}

#[test]
fn qp_step_limit_respected_magnitude() {
    let s = SrsV2EncodeSettings {
        rate_control_mode: SrsV2RateControlMode::TargetBitrate,
        target_bitrate_kbps: Some(1),
        quantizer: 20,
        min_qp: 4,
        max_qp: 51,
        qp_step_limit_per_frame: 3,
        ..Default::default()
    };
    let mut rc = SrsV2RateController::new(&s, 30, 1).unwrap();
    let _ = rc.qp_for_frame(0, None);
    let before = rc.current_qp;
    let tiny = target_payload_bytes(1, 30, 1, false);
    let big = tiny.saturating_mul(50).min(u32::MAX as u64) as usize;
    rc.observe_frame(0, big, false);
    let after = rc.qp_for_frame(1, None);
    assert!(after <= before + 3);
}

#[test]
fn invalid_settings_errors() {
    let s = SrsV2EncodeSettings {
        min_qp: 40,
        max_qp: 10,
        ..Default::default()
    };
    assert!(s.validate_rate_control().is_err());

    let s = SrsV2EncodeSettings {
        rate_control_mode: SrsV2RateControlMode::TargetBitrate,
        target_bitrate_kbps: Some(0),
        ..Default::default()
    };
    assert!(s.validate_rate_control().is_err());

    let s = SrsV2EncodeSettings {
        rate_control_mode: SrsV2RateControlMode::ConstantQuality,
        quality: None,
        ..Default::default()
    };
    assert!(s.validate_rate_control().is_err());
}

#[test]
fn invalid_fps_rejected() {
    let s = SrsV2EncodeSettings::default();
    assert!(SrsV2RateController::new(&s, 0, 1).is_err());
    assert!(SrsV2RateController::new(&s, 30, 0).is_err());
}

#[test]
fn motion_radius_tests_negative_clamps() {
    let s = SrsV2EncodeSettings {
        motion_search_radius: -40,
        ..Default::default()
    };
    assert_eq!(s.clamped_motion_search_radius(), 0);
}

#[test]
fn motion_radius_tests_oversized_clamps() {
    let s = SrsV2EncodeSettings {
        motion_search_radius: i16::MAX,
        ..Default::default()
    };
    assert_eq!(s.clamped_motion_search_radius(), MAX_MOTION_SEARCH_RADIUS);
}

#[test]
fn motion_radius_tests_default_stable() {
    let s = SrsV2EncodeSettings::default();
    assert_eq!(s.motion_search_radius, 16);
    assert_eq!(s.clamped_motion_search_radius(), 16);
}

#[test]
fn subpel_refinement_radius_clamps_to_max() {
    let s = SrsV2EncodeSettings {
        subpel_refinement_radius: 255,
        ..Default::default()
    };
    assert_eq!(
        s.clamped_subpel_refinement_radius(),
        MAX_SUBPEL_REFINEMENT_RADIUS
    );
}

#[test]
fn no_step_keeps_the_qp() {
    let s = SrsV2EncodeSettings { qp_step_limit_per_frame: 0, ..tb_settings(1, 20) };
    let mut rc = SrsV2RateController::new(&s, 30, 1).unwrap();
    rc.observe_frame(0, 1_000_000, false);
    assert_eq!(rc.qp_for_frame(1, None), 20);
}
