//! Motion vector streams.
use libsrs::srsv2::inter_mv::{
    decode_mv_grid_compact, decode_mv_stream_partitioned, encode_mv_grid_compact,
    encode_mv_stream_partitioned, median_i32, read_signed_varint, total_partition_units_bounded,
    validate_partition_reserved_bits, P_PART_WIRE_16X16, P_PART_WIRE_8X8,
};

#[test]
fn median_three() {
    assert_eq!(median_i32(3, 1, 2), 2);
    assert_eq!(median_i32(-5, 0, -1), -1);
}

#[test]
fn zero_mv_field_zero_deltas() {
    let mb_cols = 4;
    let mb_rows = 4;
    let mvs = vec![(0i32, 0i32); 16];
    let enc = encode_mv_grid_compact(&mvs, mb_cols, mb_rows);
    assert!(
        enc.iter().all(|&b| b == 0),
        "zigzag 0 -> single zero byte each"
    );
    let mut c = 0usize;
    let dec = decode_mv_grid_compact(&enc, &mut c, mb_cols, mb_rows, |_x, _y| Ok(())).unwrap();
    assert_eq!(c, enc.len());
    assert_eq!(dec, mvs);
}

#[test]
fn smooth_motion_roundtrip() {
    let mb_cols = 4;
    let mb_rows = 1;
    let mvs: Vec<(i32, i32)> = (0..4).map(|i| (i * 4, 0)).collect();
    let enc = encode_mv_grid_compact(&mvs, mb_cols, mb_rows);
    let mut c = 0usize;
    let dec = decode_mv_grid_compact(&enc, &mut c, mb_cols, mb_rows, |_x, _y| Ok(())).unwrap();
    assert_eq!(c, enc.len());
    assert_eq!(dec, mvs);
}

#[test]
fn edge_mb_predictor_safe() {
    let mb_cols = 2;
    let mb_rows = 2;
    let mvs = vec![(8, -4), (12, 0), (-4, 8), (20, 4)];
    let enc = encode_mv_grid_compact(&mvs, mb_cols, mb_rows);
    let mut c = 0usize;
    let dec = decode_mv_grid_compact(&enc, &mut c, mb_cols, mb_rows, |_x, _y| Ok(())).unwrap();
    assert_eq!(c, enc.len());
    assert_eq!(dec, mvs);
}

#[test]
fn truncated_varint_fails() {
    let mut cur = 0usize;
    assert!(read_signed_varint(&[0x80], &mut cur).is_err());
}

#[test]
fn random_mv_grid_roundtrip_deterministic() {
    let mb_cols = 5_u32;
    let mb_rows = 5_u32;
    let n = (mb_cols * mb_rows) as usize;
    let mut mvs = vec![(0_i32, 0_i32); n];
    let mut s: u64 = 0xDECAFBAD;
    for mv in &mut mvs {
        s = s.wrapping_mul(6364136223846793005).wrapping_add(1);
        mv.0 = ((s >> 17) & 0x1FF) as i32 - 256;
        mv.1 = ((s >> 33) & 0x1FF) as i32 - 256;
    }
    let enc = encode_mv_grid_compact(&mvs, mb_cols, mb_rows);
    let mut c = 0usize;
    let dec = decode_mv_grid_compact(&enc, &mut c, mb_cols, mb_rows, |_x, _y| Ok(())).unwrap();
    assert_eq!(c, enc.len());
    assert_eq!(dec, mvs);
}

#[test]
fn half_grid_even_qpels_roundtrip() {
    let mvs = vec![(0_i32, 0_i32), (8, -4), (-16, 12)];
    let enc = encode_mv_grid_compact(&mvs, 3, 1);
    let mut c = 0usize;
    let dec = decode_mv_grid_compact(&enc, &mut c, 3, 1, |_x, _y| Ok(())).unwrap();
    assert_eq!(dec, mvs);
}

#[test]
fn partitioned_mv_stream_roundtrips_two_mbs() {
    let mb_cols = 2u32;
    let mb_rows = 1u32;
    let parts = vec![P_PART_WIRE_16X16, P_PART_WIRE_8X8];
    let mvs = vec![(0, 0), (8, 0), (0, 8), (8, 8), (4, -4)];
    let enc = encode_mv_stream_partitioned(mb_cols, mb_rows, &parts, &mvs).unwrap();
    let mut cur = 0usize;
    let val = |_mx: i32, _my: i32| Ok(());
    let dec = decode_mv_stream_partitioned(&enc, &mut cur, mb_cols, mb_rows, &parts, &val)
        .unwrap();
    assert_eq!(dec, mvs);
    assert_eq!(cur, enc.len());
}

#[test]
fn partition_reserved_bits_rejected() {
    assert!(validate_partition_reserved_bits(4).is_err());
}

#[test]
fn partition_unit_cap_exceeded_when_rows_do_not_match_budget() {
    // Hostile or mismatched slice: three macroblocks worth of split8×8 partition bytes
    // but budget allows only one macroblock → 12 PU > 4×1.
    let parts = vec![P_PART_WIRE_8X8, P_PART_WIRE_8X8, P_PART_WIRE_8X8];
    assert!(total_partition_units_bounded(&parts, 1).is_err());
    assert_eq!(total_partition_units_bounded(&parts, 3).unwrap(), 12);
}

#[test]
fn partition_unit_sum_hits_exact_cap_all_split8x8() {
    let n_mb = 5usize;
    let parts = vec![P_PART_WIRE_8X8; n_mb];
    assert_eq!(
        total_partition_units_bounded(&parts, n_mb).unwrap(),
        n_mb * 4
    );
}
