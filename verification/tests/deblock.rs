//! Loop filter.
use libsrs::srsv2::deblock::{
    apply_loop_filter_y, resolve_deblock_strength, SrsV2LoopFilterMode, DEFAULT_DEBLOCK_STRENGTH,
};
use libsrs::srsv2::frame::VideoPlane;

#[test]
fn flat_frame_unchanged_under_simple_deblock() {
    let mut p = VideoPlane::try_new(64, 64, 64).unwrap();
    p.samples.fill(111);
    let copy = p.samples.clone();
    apply_loop_filter_y(
        SrsV2LoopFilterMode::SimpleDeblock,
        DEFAULT_DEBLOCK_STRENGTH,
        &mut p,
    );
    assert_eq!(p.samples, copy);
}

#[test]
fn off_mode_byte_identical() {
    let mut p = VideoPlane::try_new(64, 64, 64).unwrap();
    p.samples.fill(40);
    for y in 0..64usize {
        for x in 32..64usize {
            p.samples[y * 64 + x] = 220;
        }
    }
    let copy = p.samples.clone();
    apply_loop_filter_y(SrsV2LoopFilterMode::Off, 99, &mut p);
    assert_eq!(p.samples, copy);
}

#[test]
fn weak_block_boundary_softened() {
    let mut p = VideoPlane::try_new(64, 64, 64).unwrap();
    p.samples.fill(42);
    for y in 0..64usize {
        for x in 32..64usize {
            p.samples[y * 64 + x] = 58;
        }
    }
    let row = 16usize;
    let bx = 32usize;
    let before = (p.samples[row * 64 + bx - 1], p.samples[row * 64 + bx]);
    apply_loop_filter_y(
        SrsV2LoopFilterMode::SimpleDeblock,
        DEFAULT_DEBLOCK_STRENGTH,
        &mut p,
    );
    let after = (p.samples[row * 64 + bx - 1], p.samples[row * 64 + bx]);
    assert_ne!(
        before, after,
        "small step across MB edge should be smoothed"
    );
}

#[test]
fn strong_edge_preserved_above_threshold() {
    let mut p = VideoPlane::try_new(64, 64, 64).unwrap();
    p.samples.fill(10);
    for y in 0..64usize {
        for x in 32..64usize {
            p.samples[y * 64 + x] = 250;
        }
    }
    let row = 20usize;
    let bx = 32usize;
    let before = (p.samples[row * 64 + bx - 1], p.samples[row * 64 + bx]);
    apply_loop_filter_y(
        SrsV2LoopFilterMode::SimpleDeblock,
        DEFAULT_DEBLOCK_STRENGTH,
        &mut p,
    );
    let after = (p.samples[row * 64 + bx - 1], p.samples[row * 64 + bx]);
    assert_eq!(
        before, after,
        "240-step edge should exceed preservation threshold"
    );
}

#[test]
fn tiny_plane_no_panic() {
    let mut p = VideoPlane::try_new(1, 1, 1).unwrap();
    p.samples[0] = 5;
    apply_loop_filter_y(SrsV2LoopFilterMode::SimpleDeblock, 80, &mut p);
    assert_eq!(p.samples[0], 5);

    let mut p2 = VideoPlane::try_new(4, 4, 4).unwrap();
    p2.samples.fill(9);
    apply_loop_filter_y(SrsV2LoopFilterMode::SimpleDeblock, 10, &mut p2);
}

#[test]
fn deterministic_two_passes() {
    let mut a = VideoPlane::try_new(32, 32, 32).unwrap();
    for y in 0..32usize {
        for x in 0..32usize {
            a.samples[y * 32 + x] = ((x.wrapping_mul(17) ^ y.wrapping_mul(31)) & 255) as u8;
        }
    }
    let mut b = a.clone();
    apply_loop_filter_y(SrsV2LoopFilterMode::SimpleDeblock, 44, &mut a);
    apply_loop_filter_y(SrsV2LoopFilterMode::SimpleDeblock, 44, &mut b);
    assert_eq!(a.samples, b.samples);
}

#[test]
fn strength_zero_uses_default_constant() {
    assert_eq!(resolve_deblock_strength(0), DEFAULT_DEBLOCK_STRENGTH);
}
