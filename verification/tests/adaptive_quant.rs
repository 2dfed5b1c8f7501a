//! Adaptive quantization.
use libsrs::srsv2::adaptive_quant::{resolve_frame_adaptive_qp, validate_adaptive_quant_settings};
use libsrs::srsv2::frame::{VideoPlane, YuvFrame};
use libsrs::srsv2::model::PixelFormat;
use libsrs::srsv2::rate_control::{SrsV2AdaptiveQuantizationMode, SrsV2EncodeSettings};

fn gray_frame(v: u8, w: u32, h: u32) -> YuvFrame {
    let y = VideoPlane::try_new(w, h, w as usize).unwrap();
    let cw = w.div_ceil(2);
    let ch = h.div_ceil(2);
    let mut u = VideoPlane::try_new(cw, ch, cw as usize).unwrap();
    let mut vpl = VideoPlane::try_new(cw, ch, cw as usize).unwrap();
    u.samples.fill(128);
    vpl.samples.fill(128);
    let mut yy = y;
    yy.samples.fill(v);
    YuvFrame {
        format: PixelFormat::Yuv420p8,
        y: yy,
        u,
        v: vpl,
    }
}

#[test]
fn aq_off_keeps_effective_qp_equal_base() {
    let yuv = gray_frame(100, 64, 64);
    let s = SrsV2EncodeSettings {
        adaptive_quantization_mode: SrsV2AdaptiveQuantizationMode::Off,
        ..Default::default()
    };
    let (eff, st) = resolve_frame_adaptive_qp(33, &yuv, &s).unwrap();
    assert_eq!(eff, 33);
    assert_eq!(st.base_qp, 33);
    assert_eq!(st.effective_qp, 33);
    assert!(!st.aq_enabled);
}

#[test]
fn aq_respects_min_max_qp_after_resolve() {
    let mut yuv = gray_frame(80, 64, 64);
    for y in 0..64usize {
        for x in 32..64usize {
            let v = if (x / 4 + y / 4) % 2 == 0 {
                40_u8
            } else {
                220_u8
            };
            yuv.y.samples[y * 64 + x] = v;
        }
    }
    let s = SrsV2EncodeSettings {
        adaptive_quantization_mode: SrsV2AdaptiveQuantizationMode::Activity,
        aq_strength: 24,
        min_qp: 12,
        max_qp: 18,
        min_block_qp_delta: -8,
        max_block_qp_delta: 8,
        ..Default::default()
    };
    let (eff, st) = resolve_frame_adaptive_qp(40, &yuv, &s).unwrap();
    assert!((12..=18).contains(&eff));
    assert!((12..=18).contains(&st.min_block_qp_used));
    assert!((12..=18).contains(&st.max_block_qp_used));
}

#[test]
fn validation_rejects_inverted_delta_range() {
    let s = SrsV2EncodeSettings {
        min_block_qp_delta: 4,
        max_block_qp_delta: -4,
        ..Default::default()
    };
    assert!(validate_adaptive_quant_settings(&s).is_err());
}

#[test]
fn checker_pattern_aq_changes_effective_qp() {
    // Uniform checker repeats per MB → per-MB scores match → deltas vs median are zero.
    // Use left-flat / right-checker so MB scores differ and AQ produces nonzero ± deltas.
    let mut yuv = gray_frame(120, 64, 64);
    for y in 0..64usize {
        for x in 32..64usize {
            let v = if (x / 4 + y / 4) % 2 == 0 {
                60_u8
            } else {
                200_u8
            };
            yuv.y.samples[y * 64 + x] = v;
        }
    }
    let s = SrsV2EncodeSettings {
        adaptive_quantization_mode: SrsV2AdaptiveQuantizationMode::Activity,
        aq_strength: 8,
        min_block_qp_delta: -4,
        max_block_qp_delta: 6,
        ..Default::default()
    };
    let (_eff, st) = resolve_frame_adaptive_qp(22, &yuv, &s).unwrap();
    assert!(st.aq_enabled);
    assert!(st.positive_qp_delta_blocks > 0 || st.negative_qp_delta_blocks > 0);
    assert!(st.min_block_qp_used <= st.max_block_qp_used);
}

#[test]
fn edge_detail_triggers_aq_deltas_vs_uniform_flat() {
    let mut yuv = gray_frame(80, 64, 64);
    for y in 8..56usize {
        for x in 28..36usize {
            yuv.y.samples[y * 64 + x] = 240;
        }
    }
    let flat = gray_frame(80, 64, 64);
    let s = SrsV2EncodeSettings {
        adaptive_quantization_mode: SrsV2AdaptiveQuantizationMode::EdgeAware,
        aq_strength: 6,
        min_block_qp_delta: -4,
        max_block_qp_delta: 4,
        ..Default::default()
    };
    let (_, st_edge) = resolve_frame_adaptive_qp(24, &yuv, &s).unwrap();
    let (_, st_flat) = resolve_frame_adaptive_qp(24, &flat, &s).unwrap();
    assert_eq!(
        st_flat.positive_qp_delta_blocks + st_flat.negative_qp_delta_blocks,
        0
    );
    assert!(st_edge.positive_qp_delta_blocks + st_edge.negative_qp_delta_blocks > 0);
}

#[test]
fn aq_activity_mixed_detail_changes_effective_qp_from_base() {
    let mut yuv = gray_frame(120, 64, 64);
    for y in 0..64usize {
        for x in 32..64usize {
            let v = if (x / 4 + y / 4) % 2 == 0 {
                60_u8
            } else {
                200_u8
            };
            yuv.y.samples[y * 64 + x] = v;
        }
    }
    let s = SrsV2EncodeSettings {
        adaptive_quantization_mode: SrsV2AdaptiveQuantizationMode::Activity,
        aq_strength: 12,
        min_qp: 8,
        max_qp: 48,
        min_block_qp_delta: -6,
        max_block_qp_delta: 8,
        ..Default::default()
    };
    let (eff, st) = resolve_frame_adaptive_qp(22, &yuv, &s).unwrap();
    assert!(st.aq_enabled);
    assert_eq!(st.effective_qp, eff);
    assert!(
        st.positive_qp_delta_blocks > 0 || st.negative_qp_delta_blocks > 0,
        "mixed-detail activity should propose ± block QP deltas"
    );
    assert_ne!(st.min_block_qp_used, st.max_block_qp_used);
}
