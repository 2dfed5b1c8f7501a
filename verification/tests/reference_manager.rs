//! Reference slots.
use libsrs::srsv2::frame::{VideoPlane, YuvFrame};
use libsrs::srsv2::model::PixelFormat;
use libsrs::srsv2::reference_manager::SrsV2ReferenceManager;

fn tiny_gray_frame(v: u8) -> YuvFrame {
    let y = VideoPlane::try_new(16, 16, 16).unwrap();
    let mut u = VideoPlane::try_new(8, 8, 8).unwrap();
    let mut vv = VideoPlane::try_new(8, 8, 8).unwrap();
    let mut yy = y;
    yy.samples.fill(v);
    u.samples.fill(128);
    vv.samples.fill(128);
    YuvFrame {
        format: PixelFormat::Yuv420p8,
        y: yy,
        u,
        v: vv,
    }
}

#[test]
fn max_ref_zero_empty_slots() {
    let m = SrsV2ReferenceManager::new(0).unwrap();
    assert!(m.slots.is_empty());
    assert!(m.primary_ref().is_none());
}

#[test]
fn max_ref_one_keeps_last_in_slot_zero() {
    let mut m = SrsV2ReferenceManager::new(1).unwrap();
    m.push_displayable_last(0, tiny_gray_frame(40));
    assert!(m.primary_ref().is_some());
    m.push_displayable_last(1, tiny_gray_frame(50));
    assert_eq!(m.slots[0].as_ref().unwrap().frame_index, 1);
}

#[test]
fn max_ref_two_stores_multiple() {
    let mut m = SrsV2ReferenceManager::new(2).unwrap();
    m.push_displayable_last(0, tiny_gray_frame(10));
    m.push_displayable_last(1, tiny_gray_frame(20));
    assert!(m.frame_at_slot_index(0).is_ok());
    assert!(m.frame_at_slot_index(1).is_ok());
}

#[test]
fn invalid_slot_fails() {
    let m = SrsV2ReferenceManager::new(1).unwrap();
    assert!(m.validate_slot_index(1).is_err());
    assert!(m.frame_at_slot_index(2).is_err());
}

#[test]
fn slot_frame_index_tracks_picture_order() {
    let mut m = SrsV2ReferenceManager::new(2).unwrap();
    m.push_displayable_last(10, tiny_gray_frame(1));
    m.push_displayable_last(20, tiny_gray_frame(2));
    assert_eq!(m.slot_frame_index(0).unwrap(), 20);
    assert_eq!(m.slot_frame_index(1).unwrap(), 10);
}

#[test]
fn clear_removes_all() {
    let mut m = SrsV2ReferenceManager::new(2).unwrap();
    m.push_displayable_last(0, tiny_gray_frame(1));
    m.clear();
    assert!(m.primary_ref().is_none());
}
