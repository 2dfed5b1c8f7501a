//! Compact partition maps.
use libsrs::srsv2::mv_share::{decode_mv_share_groups_v2, encode_mv_share_groups_v2, MvShareGroupV2};
use libsrs::srsv2::partition_syntax_v2::{
    decode_partition_map_v2, encode_partition_map_v2, estimate_partition_syntax_v2_bytes,
    total_pu_slots_for_modes, v1_legacy_partition_map_bytes, PartitionMapV2, PartitionModeV2,
    PartitionSyntaxV2Error, MAP_KIND_RLE, MAP_KIND_UNIFORM, PARTITION_MAP_V2_MAGIC,
};

fn map_uniform(cols: u32, rows: u32, m: PartitionModeV2) -> PartitionMapV2 {
    let n = (cols * rows) as usize;
    PartitionMapV2::new(cols, rows, vec![m; n]).unwrap()
}

#[test]
fn all_16x16_roundtrip() {
    let m = map_uniform(8, 8, PartitionModeV2::Int16x16);
    let enc = encode_partition_map_v2(&m).unwrap();
    let dec = decode_partition_map_v2(&enc, 8, 8).unwrap();
    assert_eq!(dec, m);
}

#[test]
fn all_8x8_roundtrip() {
    let m = map_uniform(4, 4, PartitionModeV2::Int8x8);
    let enc = encode_partition_map_v2(&m).unwrap();
    let dec = decode_partition_map_v2(&enc, 4, 4).unwrap();
    assert_eq!(dec, m);
}

#[test]
fn mixed_moving_square_like_roundtrip() {
    // 8×8 MBs: mostly 16×16, one 8×8 split in the center.
    let mut modes = vec![PartitionModeV2::Int16x16; 64];
    modes[27] = PartitionModeV2::Int8x8;
    let m = PartitionMapV2::new(8, 8, modes).unwrap();
    let enc = encode_partition_map_v2(&m).unwrap();
    let dec = decode_partition_map_v2(&enc, 8, 8).unwrap();
    assert_eq!(dec, m);
}

#[test]
fn rle_malformed_zero_run_rejected() {
    let mut blob = Vec::new();
    blob.extend_from_slice(&PARTITION_MAP_V2_MAGIC);
    blob.push(MAP_KIND_RLE);
    blob.extend_from_slice(&1u16.to_le_bytes()); // n_runs
    blob.push(PartitionModeV2::Int16x16.to_wire());
    blob.extend_from_slice(&0u16.to_le_bytes()); // zero count — illegal
    assert!(decode_partition_map_v2(&blob, 4, 1).is_err());
}

#[test]
fn truncated_map_rejected() {
    let blob = PARTITION_MAP_V2_MAGIC.to_vec();
    assert_eq!(
        decode_partition_map_v2(&blob, 2, 2),
        Err(PartitionSyntaxV2Error::Truncated)
    );
}

#[test]
fn invalid_mode_rejected() {
    let mut blob = Vec::new();
    blob.extend_from_slice(&PARTITION_MAP_V2_MAGIC);
    blob.push(MAP_KIND_UNIFORM);
    blob.push(0xFF);
    assert!(decode_partition_map_v2(&blob, 1, 1).is_err());
}

#[test]
fn mv_share_missing_leaf_rejected() {
    let map = map_uniform(2, 2, PartitionModeV2::Int16x16);
    let total = total_pu_slots_for_modes(&map.modes).unwrap();
    assert_eq!(total, 4);
    let g = MvShareGroupV2::new(vec![0, 99]).unwrap();
    assert!(encode_mv_share_groups_v2(&[g], total).is_err());
}

#[test]
fn all_16x16_byte_length_le_v1_for_mid_grid() {
    let cols = 16u32;
    let rows = 16u32;
    let m = map_uniform(cols, rows, PartitionModeV2::Int16x16);
    let enc = encode_partition_map_v2(&m).unwrap();
    let v1 = v1_legacy_partition_map_bytes(m.n_mb());
    assert!(
        enc.len() <= v1,
        "v2 {} bytes vs v1 {} bytes",
        enc.len(),
        v1
    );
}

#[test]
fn mostly_16x16_sparse_split_smaller_than_v1() {
    let cols = 10u32;
    let rows = 10u32;
    let mut modes = vec![PartitionModeV2::Int16x16; 100];
    modes[42] = PartitionModeV2::Int8x8;
    let m = PartitionMapV2::new(cols, rows, modes).unwrap();
    let enc = encode_partition_map_v2(&m).unwrap();
    let v1 = v1_legacy_partition_map_bytes(m.n_mb());
    assert!(enc.len() < v1, "v2 {} v1 {}", enc.len(), v1);
}

#[test]
fn mv_share_roundtrip() {
    let map = map_uniform(2, 2, PartitionModeV2::Int8x8);
    let total = total_pu_slots_for_modes(&map.modes).unwrap();
    let g1 = MvShareGroupV2::new(vec![0, 1]).unwrap();
    let g2 = MvShareGroupV2::new(vec![2, 3]).unwrap();
    let enc = encode_mv_share_groups_v2(&[g1.clone(), g2.clone()], total).unwrap();
    let dec = decode_mv_share_groups_v2(&enc, total).unwrap();
    assert_eq!(dec, vec![g1, g2]);
}

#[test]
fn mv_share_duplicate_across_groups_rejected() {
    let map = map_uniform(2, 2, PartitionModeV2::Int8x8);
    let total = total_pu_slots_for_modes(&map.modes).unwrap();
    let g1 = MvShareGroupV2::new(vec![0, 1]).unwrap();
    let g2 = MvShareGroupV2::new(vec![1, 2]).unwrap();
    assert!(encode_mv_share_groups_v2(&[g1, g2], total).is_err());
}

#[test]
fn partition_map_trailing_byte_rejected() {
    let m = map_uniform(4, 4, PartitionModeV2::Int16x16);
    let mut enc = encode_partition_map_v2(&m).unwrap();
    enc.push(0);
    assert_eq!(
        decode_partition_map_v2(&enc, 4, 4),
        Err(PartitionSyntaxV2Error::TrailingMapBytes)
    );
}

#[test]
fn estimate_stats_matches_encode() {
    let m = map_uniform(8, 8, PartitionModeV2::Int16x16);
    let stats = estimate_partition_syntax_v2_bytes(&m, None, 0).unwrap();
    assert_eq!(stats.map_wire_bytes, encode_partition_map_v2(&m).unwrap().len());
    assert_eq!(stats.map_kind, MAP_KIND_UNIFORM);
}

#[test]
fn map_blobs_are_exact() {
    let mixed = |cols: u32, rows: u32| {
        let mut modes = vec![PartitionModeV2::Int16x16; (cols * rows) as usize];
        modes[1] = PartitionModeV2::Int8x8;
        PartitionMapV2::new(cols, rows, modes).unwrap()
    };
    for m in [map_uniform(4, 4, PartitionModeV2::Int8x8), mixed(2, 2), mixed(4, 4)] {
        let enc = encode_partition_map_v2(&m).unwrap();
        for k in 0..enc.len() {
            assert_eq!(
                decode_partition_map_v2(&enc[..k], m.mb_cols, m.mb_rows),
                Err(PartitionSyntaxV2Error::Truncated)
            );
        }
        let mut long = enc.clone();
        long.push(7);
        assert_eq!(
            decode_partition_map_v2(&long, m.mb_cols, m.mb_rows),
            Err(PartitionSyntaxV2Error::TrailingMapBytes)
        );
    }
}

#[test]
fn share_groups_have_one_blob() {
    let blob = [0x53, 0x32, 0x47, 1, 1, 0, 3, 0, 5, 0, 2, 0, 9, 0];
    let groups = decode_mv_share_groups_v2(&blob, 16).unwrap();
    assert_eq!(groups, vec![MvShareGroupV2::new(vec![5, 2, 9]).unwrap()]);
    assert_eq!(encode_mv_share_groups_v2(&groups, 16).unwrap(), blob.to_vec());
}
