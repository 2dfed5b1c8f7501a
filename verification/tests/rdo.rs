//! Rate-distortion decisions.
use libsrs::srsv2::inter_mv::P_PART_WIRE_8X8;
use libsrs::srsv2::rdo::{
    autofast_partition_mb_wire_cost, b_blend_rdo_score, bounded_candidate_push,
    choose_best_inter_mode_candidate, choose_best_partition_candidate,
    estimate_partition_candidate_bytes, partition_rdo_fast_score, rdo_score, RdoCandidate, RdoCost,
    RdoStats, MAX_RDO_CANDIDATES,
};

#[test]
fn rdo_score_matches_lambda_scaling() {
    let s = rdo_score(1000, 256, 10);
    assert_eq!(s, 1000 + 10);
}

#[test]
fn rdo_off_behavior_is_min_distortion_when_lambda_zero() {
    let d = choose_best_inter_mode_candidate(0, &[(500, 4), (400, 100)], &mut RdoStats::default()).unwrap();
    assert_eq!(d.chosen_index, 1);
}

#[test]
fn rdo_fast_rejects_split_when_side_cost_dominates() {
    // 16×16: SAD 1000, bytes 10. 8×8: SAD 950 (better) but huge MV+map bytes -> pick 16×16.
    let lam = 256i64;
    let c16 = estimate_partition_candidate_bytes(0, 10, 200, 0, 0, 0, 0);
    let c8 = estimate_partition_candidate_bytes(4, 80, 220, 4, 0, 0, 0);
    let dec = choose_best_partition_candidate(
        lam,
        &[
            RdoCandidate {
                id: 0,
                distortion: 1000,
                cost: c16,
            },
            RdoCandidate {
                id: 1,
                distortion: 950,
                cost: c8,
            },
        ],
        &mut RdoStats::default(),
    )
    .unwrap();
    assert_eq!(
        dec.chosen_index, 0,
        "flat/global-like side cost should keep 16×16"
    );
}

#[test]
fn rdo_fast_accepts_split_when_quality_win_overcomes_bytes() {
    let lam = 256i64;
    let c16 = estimate_partition_candidate_bytes(0, 10, 400, 0, 0, 0, 0);
    let c8 = estimate_partition_candidate_bytes(2, 24, 380, 2, 0, 0, 0);
    let dec = choose_best_partition_candidate(
        lam,
        &[
            RdoCandidate {
                id: 0,
                distortion: 5000,
                cost: c16,
            },
            RdoCandidate {
                id: 1,
                distortion: 800,
                cost: c8,
            },
        ],
        &mut RdoStats::default(),
    )
    .unwrap();
    assert_eq!(dec.chosen_index, 1);
}

#[test]
fn rdo_fast_halfpel_penalty_can_reject_subpel() {
    let lam = 512i64;
    let integ = b_blend_rdo_score(1000, lam, 8, 0, 0);
    let subp = b_blend_rdo_score(980, lam, 8, 0, 40);
    assert!(
        integ < subp,
        "tiny SAD gain must not pay half-pel side bytes"
    );
}

#[test]
fn rdo_fast_weighted_extra_can_reject_weighted() {
    let lam = 512i64;
    let avg = b_blend_rdo_score(1000, lam, 8, 0, 0);
    let wgt = b_blend_rdo_score(980, lam, 8, 72, 0);
    assert!(avg < wgt);
}

#[test]
fn candidate_cap_errors() {
    let mut v = Vec::new();
    for i in 0..=MAX_RDO_CANDIDATES {
        v.push(RdoCandidate {
            id: i as u8,
            distortion: i as u32,
            cost: RdoCost::default(),
        });
    }
    assert!(choose_best_partition_candidate(256, &v, &mut RdoStats::default()).is_err());
}

#[test]
fn bounded_candidate_push_respects_cap() {
    let mut v = Vec::new();
    for i in 0..MAX_RDO_CANDIDATES {
        bounded_candidate_push(
            &mut v,
            RdoCandidate {
                id: i as u8,
                distortion: 0,
                cost: RdoCost::default(),
            },
        )
        .unwrap();
    }
    assert_eq!(v.len(), MAX_RDO_CANDIDATES);
    assert!(bounded_candidate_push(
        &mut v,
        RdoCandidate {
            id: 0,
            distortion: 0,
            cost: RdoCost::default(),
        },
    )
    .is_err());
}

#[test]
fn tie_break_deterministic() {
    let lam = 256i64;
    let c = RdoCost::from_total_bytes(5);
    let dec = choose_best_partition_candidate(
        lam,
        &[
            RdoCandidate {
                id: 2,
                distortion: 100,
                cost: c.clone(),
            },
            RdoCandidate {
                id: 1,
                distortion: 100,
                cost: c.clone(),
            },
        ],
        &mut RdoStats::default(),
    )
    .unwrap();
    assert_eq!(dec.chosen_id, 1);
}

#[test]
fn partition_rdo_fast_score_deterministic() {
    let a = partition_rdo_fast_score(900, 4096, 256, 30, 200);
    let b = partition_rdo_fast_score(900, 4096, 256, 30, 200);
    assert_eq!(a, b);
}

#[test]
fn autofast_wire_cost_8x8_matches_expected_buckets() {
    let c = autofast_partition_mb_wire_cost(P_PART_WIRE_8X8, 80, 220, false).unwrap();
    assert_eq!(c.partition_map_bytes, 4);
    assert_eq!(c.mv_compact_or_entropy_bytes, 80);
    assert_eq!(c.residual_bytes, 220);
    assert_eq!(c.transform_id_bytes, 4);
}
