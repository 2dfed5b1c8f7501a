//! Texture of macroblocks.
use libsrs::srsv2::activity::mb_activity_y16;
use libsrs::srsv2::frame::VideoPlane;

fn plane_constant(v: u8, w: u32, h: u32) -> VideoPlane<u8> {
    let mut p = VideoPlane::try_new(w, h, w as usize).unwrap();
    p.samples.fill(v);
    p
}

#[test]
fn flat_block_low_activity() {
    let p = plane_constant(128, 32, 32);
    let a = mb_activity_y16(&p, 0, 0);
    assert!(a.variance_sum < 1000, "flat variance {:?}", a);
    assert!(a.edge_sum < 500, "flat edge {:?}", a);
}

#[test]
fn checker_high_variance() {
    let mut p = VideoPlane::try_new(32, 32, 32).unwrap();
    for y in 0..32usize {
        for x in 0..32usize {
            let v = if (x / 4 + y / 4) % 2 == 0 {
                40_u8
            } else {
                220_u8
            };
            p.samples[y * 32 + x] = v;
        }
    }
    let a = mb_activity_y16(&p, 0, 0);
    assert!(a.variance_sum > 100_000, "checker variance {:?}", a);
    assert!(a.edge_sum > 1000, "checker edges {:?}", a);
}

#[test]
fn edge_strip_higher_than_flat() {
    // MB (0,0): uniform; MB (1,0): same row band but adds a bright vertical bar wholly inside x∈16..32.
    let mut p = plane_constant(100, 32, 32);
    for y in 4..28usize {
        for x in 20..24usize {
            p.samples[y * 32 + x] = 240;
        }
    }
    let flat = mb_activity_y16(&p, 0, 0);
    let edge_mb = mb_activity_y16(&p, 1, 0);
    assert!(
        edge_mb.edge_sum > flat.edge_sum,
        "edge {:?} vs flat {:?}",
        edge_mb,
        flat
    );
}

#[test]
fn deterministic_same_input() {
    let p = plane_constant(99, 64, 64);
    let a = mb_activity_y16(&p, 1, 1);
    let b = mb_activity_y16(&p, 1, 1);
    assert_eq!(a, b);
}

#[test]
fn tiny_frame_no_panic() {
    let p = plane_constant(50, 8, 8);
    let _ = mb_activity_y16(&p, 0, 0);
}
