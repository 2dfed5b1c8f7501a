//! Planes.
use libsrs::srsv2::frame::VideoPlane;
use libsrs::srsv2::limits::MAX_DIMENSION;

#[test]
fn rejects_huge_dim_product() {
    assert!(VideoPlane::<u8>::try_new(
        MAX_DIMENSION,
        MAX_DIMENSION + 1,
        MAX_DIMENSION as usize
    )
    .is_err());
}
