//! What holds of the library as a whole, on chosen values.
use libsrs::rank::{median_of, value_at_rank};
use libsrs::srsv2::block_aq::{apply_qp_delta_clamped, collect_plane_block_variances};
use libsrs::srsv2::dct::ZIGZAG;
use libsrs::srsv2::deblock::{
    apply_loop_filter_y, apply_simple_mb_boundary_deblock_y, SrsV2LoopFilterMode,
};
use libsrs::srsv2::error::SrsV2Error;
use libsrs::srsv2::frame::{DecodedVideoFrameV2, VideoPlane, YuvFrame};
use libsrs::srsv2::inter_mv::{
    decode_mv_grid_compact, encode_mv_grid_compact, read_signed_varint, write_signed_varint,
};
use libsrs::srsv2::intra_codec::{
    dequantize, dequantize_4x4, quantize, quantize_4x4, read_block, write_block, PredMode,
};
use libsrs::srsv2::model::PixelFormat;
use libsrs::srsv2::motion_search::SrsV2RdoBenchStats;
use libsrs::srsv2::partition_map::{decode_rle_partition_map, rle_partition_payload};
use libsrs::srsv2::rate_control::{SrsV2InterSyntaxMode, SrsV2RdoMode};
use libsrs::srsv2::rdo::{
    autofast_partition_mb_rdo_score, choose_min_partition_by_precomputed_scores,
    estimate_inter_header_bytes, estimate_mv_delta_wire_bytes,
    p_subblock_skip_residual_is_rdo_cheaper, rdo_fast_enabled, rdo_score, RdoModeDecisionStats,
    RdoStats,
};
use libsrs::srsv2::reference::ReferenceFrameBuffer;
use libsrs::srsv2::reference_manager::SrsV2ReferenceManager;
use libsrs::srsv2::subpel::{
    refine_half_pel_center, sample_luma_bilinear_qpel, validate_mv_qpel_halfgrid,
};

fn plane(w: u32, h: u32, f: fn(u32, u32) -> u8) -> VideoPlane<u8> {
    let mut p = VideoPlane::<u8>::try_new(w, h, w as usize).unwrap();
    for y in 0..h {
        for x in 0..w {
            p.samples[(y * w + x) as usize] = f(x, y);
        }
    }
    p
}

fn picture(v: u8) -> YuvFrame {
    let mut y = plane(16, 16, |_, _| 0);
    y.samples.fill(v);
    let c = plane(8, 8, |_, _| 128);
    YuvFrame { format: PixelFormat::Yuv420p8, y, u: c.clone(), v: c }
}

#[test]
fn ranks_are_those_of_a_sorted_list() {
    let values = [7_u64, 3, 9, 3, 1];
    let sorted = [1_u64, 3, 3, 7, 9];
    for k in 0..5 {
        assert_eq!(value_at_rank(&values, k), sorted[k]);
    }
    assert_eq!(median_of(&values, 9), 3);
    assert_eq!(median_of(&[4, 1, 8, 3], 8), 3);
    assert_eq!(median_of(&[], 0), 0);
}

#[test]
fn effective_qp_follows_its_delta() {
    let mut last = 0;
    for d in -24..=24 {
        let qp = apply_qp_delta_clamped(28, d, 10, 40);
        assert!(qp >= last);
        last = qp;
    }
    assert_eq!(apply_qp_delta_clamped(28, -24, 10, 40), 10);
    assert_eq!(apply_qp_delta_clamped(28, 5, 10, 40), 33);
    assert_eq!(apply_qp_delta_clamped(28, 24, 10, 40), 40);
}

#[test]
fn variances_cover_every_block() {
    let p = plane(16, 9, |x, _| if x < 8 { 50 } else { (x % 2 * 10) as u8 });
    let (vars, median) = collect_plane_block_variances(&p);
    // The last row of blocks is filled up with 128.
    assert_eq!(vars, vec![0, 25, 724, 1798]);
    assert_eq!(median, (25 + 724) / 2);
}

#[test]
fn zigzag_is_a_permutation() {
    let mut seen = [false; 64];
    for i in ZIGZAG {
        assert!(!seen[i]);
        seen[i] = true;
    }
    assert!(seen.iter().all(|&s| s));
}

#[test]
fn quantization_error_is_bounded() {
    for qp in [1_i16, 2, 7, 28, 51] {
        for v in [-3000_i16, -29, -1, 0, 1, 13, 14, 28, 2999] {
            let mut block = [0_i16; 64];
            block[5] = v;
            let back = dequantize(&quantize(&block, qp), qp);
            assert!((back[5] - v).abs() <= qp / 2 + qp % 2);
            let mut small = [0_i16; 16];
            small[5] = v;
            assert_eq!(dequantize_4x4(&quantize_4x4(&small, qp), qp)[5], back[5]);
        }
    }
    let mut block = [0_i16; 64];
    block[0] = 42;
    assert_eq!(quantize(&block, 28)[0], 2);
    assert_eq!(dequantize(&quantize(&block, 28), 28)[0], 56);
}

#[test]
fn written_blocks_are_read_back() {
    let mut levels = [0_i16; 64];
    levels[0] = -300;
    levels[ZIGZAG[17]] = 12;
    levels[63] = 1;
    let mut out = vec![9, 9];
    write_block(PredMode::Vertical, &levels, &mut out).unwrap();
    let mut cursor = 2;
    let (mode, back) = read_block(&out, &mut cursor).unwrap();
    assert_eq!(mode, PredMode::Vertical);
    assert_eq!(back, levels);
    assert_eq!(cursor, out.len());
    assert!(read_block(&out[..out.len() - 1], &mut 2).is_err());
}

#[test]
fn flat_planes_are_left_alone_by_the_filter() {
    let flat = plane(32, 32, |_, _| 77);
    let mut filtered = flat.clone();
    apply_loop_filter_y(SrsV2LoopFilterMode::SimpleDeblock, 40, &mut filtered);
    assert_eq!(filtered.samples, flat.samples);
    let mut step = plane(32, 32, |x, _| if x < 16 { 100 } else { 110 });
    apply_simple_mb_boundary_deblock_y(&mut step);
    assert!(step.samples.iter().all(|&s| (100..=110).contains(&s)));
    assert_eq!(&step.samples[14..18], &[100, 100, 109, 110]);
}

#[test]
fn varints_are_read_back() {
    for v in [0, 1, -1, 63, -64, 64, 8191, i32::MAX, i32::MIN] {
        let mut out = vec![5];
        write_signed_varint(&mut out, v);
        let mut cursor = 1;
        assert_eq!(read_signed_varint(&out, &mut cursor).unwrap(), v);
        assert_eq!(cursor, out.len());
    }
}

#[test]
fn vector_grids_are_read_back() {
    let mvs = vec![(4, -8), (4, -8), (12, 0), (-100, 64), (0, 0), (4, 4)];
    let bytes = encode_mv_grid_compact(&mvs, 3, 2);
    let check = |_x: i32, _y: i32| -> Result<(), SrsV2Error> { Ok(()) };
    let mut cursor = 0;
    assert_eq!(decode_mv_grid_compact(&bytes, &mut cursor, 3, 2, &check).unwrap(), mvs);
    assert_eq!(cursor, bytes.len());
}

#[test]
fn runs_are_read_back() {
    let parts = vec![0, 0, 0, 3, 3, 1, 2, 2];
    let bytes = rle_partition_payload(&parts).unwrap();
    assert_eq!(bytes, vec![4, 0, 0, 3, 0, 3, 2, 0, 1, 1, 0, 2, 2, 0]);
    let mut cursor = 0;
    assert_eq!(decode_rle_partition_map(&bytes, &mut cursor, 8).unwrap(), parts);
    assert_eq!(cursor, bytes.len());
}

#[test]
fn whole_pels_are_taken_as_they_are() {
    let p = plane(16, 16, |x, y| (x * 11 + y * 3) as u8);
    for (x, y) in [(0, 0), (5, 9), (15, 15)] {
        assert_eq!(
            sample_luma_bilinear_qpel(&p, x, y, 0, 0),
            p.samples[(y * 16 + x) as usize]
        );
    }
    assert_eq!(sample_luma_bilinear_qpel(&p, 5, 9, 4, -8), p.samples[7 * 16 + 6]);
    // Between 82 and 93.
    assert_eq!(sample_luma_bilinear_qpel(&p, 5, 9, 2, 0), 88);
}

#[test]
fn refinement_stays_near_its_centre() {
    let cur = plane(32, 32, |x, y| (x * 5 + y * 7) as u8);
    let refp = plane(32, 32, |x, y| (x * 5 + y * 7 + 3) as u8);
    for radius in 0..=2 {
        let (mut evals, mut tested) = (0, 0);
        let (qx, qy) =
            refine_half_pel_center(&cur, &refp, 0, 0, 1, -1, radius, &mut evals, &mut tested);
        assert!((qx - 4).abs() <= 4 && (qy + 4).abs() <= 4);
        assert!(validate_mv_qpel_halfgrid(qx, qy).is_ok());
        if radius == 0 {
            assert_eq!((qx, qy, evals, tested), (4, -4, 0, 0));
        } else {
            assert_eq!((evals, tested), (8 * radius as u64, 1));
        }
    }
    assert!(matches!(validate_mv_qpel_halfgrid(1, 0), Err(SrsV2Error::Syntax(_))));
    assert!(matches!(
        validate_mv_qpel_halfgrid(1026, 0),
        Err(SrsV2Error::CorruptedMotionVector)
    ));
}

#[test]
fn more_bytes_never_score_better() {
    let mut last = 0;
    for bytes in 0..50 {
        let s = rdo_score(100, 300, bytes);
        assert!(s >= last);
        last = s;
    }
    assert_eq!(rdo_score(100, 0, 1000), 100);
    assert_eq!(rdo_score(100, 512, 10), 120);
    assert!(p_subblock_skip_residual_is_rdo_cheaper(2, 256, 2));
    assert!(!p_subblock_skip_residual_is_rdo_cheaper(3, 256, 2));
}

#[test]
fn least_score_wins_and_the_smaller_tag_breaks_ties() {
    let d = choose_min_partition_by_precomputed_scores(&[(3, 9), (2, 5), (1, 5)]).unwrap();
    assert_eq!((d.chosen_id, d.best_score), (1, 5));
    assert!(matches!(
        choose_min_partition_by_precomputed_scores(&[]),
        Err(SrsV2Error::Syntax("RDO partition: empty score list"))
    ));
    assert!(matches!(
        choose_min_partition_by_precomputed_scores(&vec![(0, 0); 1000]),
        Err(SrsV2Error::Syntax("RDO partition: too many score rows"))
    ));
    assert!(matches!(
        autofast_partition_mb_rdo_score(7, 1, 1, 1, 1, 1, false),
        Err(SrsV2Error::Syntax("P partition reserved bits"))
    ));
    assert_eq!(autofast_partition_mb_rdo_score(0, 1000, 0, 256, 9, 9, true).unwrap(), 1000);
}

#[test]
fn side_information_is_estimated() {
    assert_eq!(estimate_inter_header_bytes(SrsV2InterSyntaxMode::RawLegacy, false), 9);
    assert_eq!(estimate_inter_header_bytes(SrsV2InterSyntaxMode::CompactV1, true), 12);
    let raw = SrsV2InterSyntaxMode::RawLegacy;
    assert_eq!(estimate_mv_delta_wire_bytes(raw, false, 0, 0, 4, &[], (0, 0)), 4);
    assert_eq!(estimate_mv_delta_wire_bytes(raw, true, 0, 0, 4, &[], (0, 0)), 8);
    let compact = SrsV2InterSyntaxMode::CompactV1;
    assert_eq!(estimate_mv_delta_wire_bytes(compact, false, 0, 0, 4, &[], (0, 200)), 3);
    assert!(rdo_fast_enabled(SrsV2RdoMode::Fast));
    assert!(!rdo_fast_enabled(SrsV2RdoMode::Off));
}

#[test]
fn decisions_are_merged_into_counters() {
    let mut bench = SrsV2RdoBenchStats::default();
    let stats = RdoStats { candidates_compared: 4, estimated_side_bytes: 30 };
    stats.merge_into_bench(&mut bench);
    stats.merge_into_bench(&mut bench);
    assert_eq!(bench.candidates_tested, 8);
    assert_eq!(bench.estimated_bits_used_for_decision, 60);
    let mut modes = RdoModeDecisionStats::default();
    modes.record_inter_mv_pick(true);
    modes.record_inter_mv_pick(false);
    modes.record_inter_mv_pick(false);
    modes.merge_into_bench(&mut bench);
    assert_eq!(bench.inter_zero_mv_wins, 1);
    assert_eq!(bench.inter_me_mv_wins, 2);
}

#[test]
fn newer_pictures_push_older_ones_on() {
    let mut m = SrsV2ReferenceManager::new(3).unwrap();
    for i in 1..=4 {
        m.push_displayable_last(i * 10, picture(i as u8));
    }
    assert_eq!(m.slot_frame_index(0).unwrap(), 40);
    assert_eq!(m.slot_frame_index(1).unwrap(), 30);
    assert_eq!(m.slot_frame_index(2).unwrap(), 20);
    assert_eq!(m.frame_at_slot_index(2).unwrap().y.samples[0], 2);
    assert_eq!(m.nearest_previous_frame_index(35), Some(30));
    assert_eq!(m.nearest_previous_frame_index(20), None);
    assert_eq!(m.future_reference_if_any(25).unwrap().y.samples[0], 3);
    assert!(m.future_reference_if_any(40).is_none());
    m.bootstrap_legacy_primary(7, picture(9));
    assert_eq!(m.slot_frame_index(0).unwrap(), 7);
    assert_eq!(m.legacy_primary_clone().unwrap().y.samples[0], 9);
    m.clear();
    assert!(m.legacy_primary_clone().is_none());
}

#[test]
fn buffer_holds_its_primary_picture() {
    let mut b = ReferenceFrameBuffer::new(2).unwrap();
    assert!(b.primary_ref().is_none());
    b.set_primary(picture(3));
    assert_eq!(b.primary_ref().unwrap().y.samples[0], 3);
    b.clear();
    assert!(b.primary_ref().is_none());
}

#[test]
fn rows_are_written_in_place() {
    let mut p = VideoPlane::<u8>::try_new(3, 2, 5).unwrap();
    p.row_mut(1).copy_from_slice(&[1, 2, 3]);
    assert_eq!(p.samples, vec![0, 0, 0, 0, 0, 1, 2, 3, 0, 0]);
    assert_eq!(p.row(1), &[1, 2, 3]);
    let mut yuv = picture(0);
    yuv.y = p;
    let frame =
        DecodedVideoFrameV2 { frame_index: 0, width: 3, height: 2, is_displayable: true, yuv };
    assert_eq!(frame.luma_gray_bytes(), vec![0, 0, 0, 1, 2, 3]);
}
