//! Quantizer deltas of blocks.
use libsrs::srsv2::block_aq::{
    apply_qp_delta_clamped, choose_block_qp_delta, validate_wire_qp_delta,
};

#[test]
fn apply_qp_delta_clamps_to_clip() {
    assert_eq!(apply_qp_delta_clamped(20, 10, 4, 51), 30);
    assert_eq!(apply_qp_delta_clamped(10, -20, 4, 51), 4);
    assert_eq!(apply_qp_delta_clamped(1, -5, 4, 51), 4);
}

#[test]
fn wire_delta_out_of_range_errors() {
    assert!(validate_wire_qp_delta(25).is_err());
    assert!(validate_wire_qp_delta(-25).is_err());
    assert!(validate_wire_qp_delta(24).is_ok());
}

#[test]
fn negative_delta_lowers_effective_qp_vs_positive() {
    let lo = apply_qp_delta_clamped(28, -4, 4, 51);
    let hi = apply_qp_delta_clamped(28, 4, 4, 51);
    assert!(lo < hi);
}

#[test]
fn choose_block_delta_detail_prefers_negative_vs_flat() {
    let med = 100_u64;
    let flat_var = 80_u32;
    let edge_var = 800_u32;
    let d_flat = choose_block_qp_delta(flat_var, med, 8, -6, 6);
    let d_edge = choose_block_qp_delta(edge_var, med, 8, -6, 6);
    assert!(
        d_flat >= d_edge,
        "higher activity should steer toward lower QP (negative delta)"
    );
}

#[test]
fn very_flat_block_vs_high_median_hits_positive_delta_cap() {
    // block_var << median_var ⇒ raw > 0 ⇒ compress flat regions harder when allowed.
    let d = choose_block_qp_delta(1, 5000, 25, -6, 6);
    assert_eq!(d, 6);
}

#[test]
fn block_variance_near_median_yields_small_delta() {
    let d = choose_block_qp_delta(1000, 1000, 8, -6, 6);
    assert_eq!(d, 0);
}

#[test]
fn block_delta_without_variance_follows_the_block() {
    assert_eq!(choose_block_qp_delta(1, 0, 4, -6, 6), -4);
    assert_eq!(choose_block_qp_delta(u32::MAX, 0, 255, -6, 6), -6);
    assert_eq!(choose_block_qp_delta(0, u64::MAX, 255, -90, 90), 63);
}
