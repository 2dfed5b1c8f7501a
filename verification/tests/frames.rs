//! Coded pictures, with a cosine transform and a stand-in for the entropy coder.
use libsrs::srsv2::adaptive_quant::SrsV2AqEncodeStats;
use libsrs::srsv2::b_choose::BFrameEncodeStats;
use libsrs::srsv2::b_decode::{decode_yuv420_b_payload, find_b_mv_sections, parse_b_payload};
use libsrs::srsv2::b_encode::{
    compact_b_grids, encode_yuv420_b_payload, encode_yuv420_b_payload_mb_blend, plan_b_frame,
    plan_b_frame_mb_blend,
};
use libsrs::srsv2::b_frame_codec::{
    blend_weighted_pixels, validate_b_prediction_weights, BBlendModeWire,
};
use libsrs::srsv2::color::{rgb888_full_to_yuv420_bt709, YCbCr};
use libsrs::srsv2::error::SrsV2Error;
use libsrs::srsv2::frame::{DecodedVideoFrameV2, VideoPlane, YuvFrame};
use libsrs::srsv2::frame_codec::{
    apply_reconstruction_filter_if_enabled, decode_yuv420_srsv2_payload,
    decode_yuv420_srsv2_payload_managed, encode_yuv420_alt_ref_payload,
    encode_yuv420_inter_payload, parse_alt_ref_payload, payload_route, plan_yuv420_inter_payload,
    FramePlan, PayloadRoute,
};
use libsrs::srsv2::inter_frame::{InterParse, ResidualJob};
use libsrs::srsv2::inter_mv::{decode_mv_stream_partitioned, P_PART_WIRE_16X16};
use libsrs::srsv2::inter_write::CodedResidual;
use libsrs::srsv2::intra_codec::{dequantize, quantize};
use libsrs::srsv2::intra_frame::{
    decode_yuv420_intra_payload, encode_yuv420_intra_payload, parse_intra_payload, plan_intra_frame,
    PlaneInput,
};
use libsrs::srsv2::intra_plane::{parse_plane_intra, reconstruct_plane_intra, IntraPlaneEncoder};
use libsrs::srsv2::model::{
    decode_sequence_header_v2, ChromaSiting, ColorPrimaries, ColorRange, MatrixCoefficients,
    PixelFormat, SrsVideoProfile, TransferFunction, VideoSequenceHeaderV2,
};
use libsrs::srsv2::motion_search::SrsV2MotionEncodeStats;
use libsrs::srsv2::p_frame_codec::{
    decode_yuv420_p_payload, encode_yuv420_p_payload, parse_p_payload, plan_p_frame,
};
use libsrs::srsv2::p_var_decode::{
    decode_yuv420_p_payload_var_partition, find_p_mv_section, parse_p_var_payload, VarBlock,
    FRAME_PAYLOAD_MAGIC_P_INTER_ENTROPY_VAR,
};
use libsrs::srsv2::p_var_encode::{
    encode_yuv420_p_payload_var_partition, plan_p_var_frame, VarChunk,
};
use libsrs::srsv2::partition_map::{decode_rle_partition_map, rle_partition_payload};
use libsrs::srsv2::rate_control::{
    ResidualEncodeStats, ResidualEntropy, SrsV2AdaptiveQuantizationMode, SrsV2BMotionSearchMode,
    SrsV2BlockAqMode, SrsV2CoeffLayoutMode, SrsV2EncodeSettings, SrsV2InterPartitionMode,
    SrsV2InterSyntaxMode,
    SrsV2MotionSearchMode, SrsV2PartitionCostModel, SrsV2PartitionMapEncoding,
    SrsV2PartitionSettings, SrsV2ResidualContextMode, SrsV2SubpelMode, SrsV2TransformSizeMode,
};
use libsrs::srsv2::reader::{read_u32, read_u8};
use libsrs::srsv2::reference_manager::SrsV2ReferenceManager;

fn clamp_u8(x: f64) -> u8 {
    x.round().clamp(0.0, 255.0) as u8
}

fn rgb_to_ycbcr(r: f64, g: f64, b: f64, range: ColorRange) -> YCbCr {
    let y = 0.2126 * r + 0.7152 * g + 0.0722 * b;
    let cb = (b - y) / 1.8556 + 128.0;
    let cr = (r - y) / 1.5748 + 128.0;
    match range {
        ColorRange::Full => YCbCr { y: clamp_u8(y), cb: clamp_u8(cb), cr: clamp_u8(cr) },
        ColorRange::Limited => YCbCr {
            y: clamp_u8(y * (219.0 / 255.0) + 16.0),
            cb: clamp_u8((cb - 128.0) * (224.0 / 255.0) + 128.0),
            cr: clamp_u8((cr - 128.0) * (224.0 / 255.0) + 128.0),
        },
    }
}

/// The 4:2:0 picture of an RGB picture.
fn rgb_to_yuv(rgb: &[u8], w: u32, h: u32, range: ColorRange) -> Result<YuvFrame, SrsV2Error> {
    let mut converted = Vec::new();
    for px in rgb.chunks_exact(3).take((w * h) as usize) {
        converted.push(rgb_to_ycbcr(px[0] as f64, px[1] as f64, px[2] as f64, range));
    }
    rgb888_full_to_yuv420_bt709(rgb, w, h, &converted)
}

/// Rows of the cosine transform of `n` points, at half the orthonormal scale.
fn cosine(n: usize, k: usize, i: usize) -> f64 {
    let scale = if k == 0 { std::f64::consts::FRAC_1_SQRT_2 } else { 1.0 };
    let angle = std::f64::consts::PI / (2 * n) as f64 * k as f64 * (2 * i + 1) as f64;
    scale * angle.cos() / (n as f64).sqrt()
}

fn transform(block: &[i16; 64], inverse: bool) -> [i16; 64] {
    let at = |k: usize, i: usize| if inverse { cosine(8, i, k) } else { cosine(8, k, i) };
    let mut rows = [[0_f64; 8]; 8];
    for r in 0..8 {
        for k in 0..8 {
            for i in 0..8 {
                rows[r][k] += block[r * 8 + i] as f64 * at(k, i);
            }
        }
    }
    let mut out = [0_i16; 64];
    for c in 0..8 {
        for k in 0..8 {
            let mut s = 0_f64;
            for r in 0..8 {
                s += rows[r][c] * at(k, r);
            }
            out[k * 8 + c] = s.round().clamp(-32768.0, 32767.0) as i16;
        }
    }
    out
}

/// Stands for an entropy coder: the levels of a block as they are.
fn levels_to_bytes(levels: &[i16; 64]) -> Vec<u8> {
    let mut out = Vec::new();
    for v in levels {
        out.extend_from_slice(&v.to_le_bytes());
    }
    out
}

fn levels_from_bytes(bytes: &[u8]) -> Result<[i16; 64], SrsV2Error> {
    if bytes.len() != 128 {
        return Err(SrsV2Error::Truncated);
    }
    let mut out = [0_i16; 64];
    for i in 0..64 {
        out[i] = i16::from_le_bytes([bytes[2 * i], bytes[2 * i + 1]]);
    }
    Ok(out)
}

fn intra_plane_bytes(plane: &VideoPlane<u8>, qp: u8) -> Result<Vec<u8>, SrsV2Error> {
    let mut enc = IntraPlaneEncoder::new(plane, qp as i16);
    while !enc.is_finished() {
        let residual = enc.begin_block(plane);
        let seen = enc.code_block(&transform(&residual, false))?;
        enc.finish_block(&transform(&seen, true));
    }
    Ok(enc.out)
}

fn intra_payload(
    seq: &VideoSequenceHeaderV2,
    yuv: &YuvFrame,
    frame_index: u32,
    qp: u8,
    settings: &SrsV2EncodeSettings,
    stats: Option<&mut ResidualEncodeStats>,
    aq: Option<&mut SrsV2AqEncodeStats>,
) -> Result<Vec<u8>, SrsV2Error> {
    let plan = plan_intra_frame(seq, yuv, qp, settings)?;
    let planes = vec![
        intra_plane_bytes(&yuv.y, plan.qp),
        intra_plane_bytes(&yuv.u, plan.qp),
        intra_plane_bytes(&yuv.v, plan.qp),
    ];
    encode_yuv420_intra_payload(
        &plan,
        frame_index,
        settings,
        &planes,
        stats.unwrap_or(&mut ResidualEncodeStats::default()),
        aq.unwrap_or(&mut SrsV2AqEncodeStats::default()),
    )
}

fn plane_input(chunk: &[u8], rev: u8, qp: u8, w: usize, h: usize) -> PlaneInput {
    let n = ((w + 7) / 8) * ((h + 7) / 8);
    let mut cursor = 0;
    match parse_plane_intra(chunk, &mut cursor, n) {
        Err(e) => PlaneInput::Failed(e),
        Ok(blocks) => {
            let mut residuals = Vec::new();
            for b in &blocks {
                residuals.push(transform(&dequantize(&b.levels, qp as i16), true));
            }
            if rev == 1 {
                PlaneInput::Residuals(residuals)
            } else {
                PlaneInput::Samples {
                    consumed: cursor,
                    samples: reconstruct_plane_intra(w, h, &blocks, &residuals),
                }
            }
        }
    }
}

fn intra_inputs(seq: &VideoSequenceHeaderV2, payload: &[u8]) -> Vec<PlaneInput> {
    let (w, h) = (seq.width as usize, seq.height as usize);
    let (cw, ch) = ((w + 1) / 2, (h + 1) / 2);
    match parse_intra_payload(payload) {
        Err(_) => Vec::new(),
        Ok(l) => vec![
            plane_input(&payload[l.y.0..l.y.1], l.rev, l.base_qp, w, h),
            plane_input(&payload[l.u.0..l.u.1], l.rev, l.base_qp, cw, ch),
            plane_input(&payload[l.v.0..l.v.1], l.rev, l.base_qp, cw, ch),
        ],
    }
}

fn decode_intra(
    seq: &VideoSequenceHeaderV2,
    payload: &[u8],
) -> Result<DecodedVideoFrameV2, SrsV2Error> {
    decode_yuv420_intra_payload(seq, payload, &intra_inputs(seq, payload))
}

fn code_residuals(
    blocks: &[Option<[i16; 64]>],
    qp: impl Fn(usize) -> u8,
    explicit: bool,
) -> Vec<CodedResidual> {
    let mut coded = Vec::new();
    for (k, b) in blocks.iter().enumerate() {
        coded.push(match b {
            None => CodedResidual::Failed(SrsV2Error::Internal),
            Some(d) if explicit => CodedResidual::Coefficients(transform(d, false)),
            Some(d) => CodedResidual::Chunk {
                bytes: levels_to_bytes(&quantize(&transform(d, false), qp(k) as i16)),
                rans: false,
            },
        });
    }
    coded
}

fn residual_samples(
    parse: &InterParse,
    payload: &[u8],
) -> Vec<Result<[i16; 64], SrsV2Error>> {
    let mut out = Vec::new();
    for b in &parse.blocks {
        out.push(match b {
            None => Ok([0; 64]),
            Some(ResidualJob::Transform(c)) => Ok(transform(c, true)),
            Some(ResidualJob::Entropy { start, end, qp }) => {
                levels_from_bytes(&payload[*start..*end])
                    .map(|l| transform(&dequantize(&l, *qp), true))
            }
        });
    }
    out
}

fn p_payload(
    seq: &VideoSequenceHeaderV2,
    cur: &YuvFrame,
    reference: &YuvFrame,
    frame_index: u32,
    qp: u8,
    settings: &SrsV2EncodeSettings,
    stats: Option<&mut ResidualEncodeStats>,
    ms: Option<&mut SrsV2MotionEncodeStats>,
) -> Result<Vec<u8>, SrsV2Error> {
    let plan = plan_p_frame(
        seq,
        cur,
        reference,
        settings,
        ms.unwrap_or(&mut SrsV2MotionEncodeStats::default()),
    )?;
    let explicit = settings.residual_entropy == ResidualEntropy::Explicit;
    let coded = code_residuals(&plan.blocks, |k| plan.block_qp(settings, qp, k), explicit);
    encode_yuv420_p_payload(
        &plan,
        frame_index,
        qp,
        settings,
        &coded,
        stats.unwrap_or(&mut ResidualEncodeStats::default()),
    )
}

fn p_inputs(
    seq: &VideoSequenceHeaderV2,
    payload: &[u8],
    reference: &YuvFrame,
) -> Vec<Result<[i16; 64], SrsV2Error>> {
    match parse_p_payload(seq, payload, reference) {
        Ok(parse) => residual_samples(&parse, payload),
        Err(_) => Vec::new(),
    }
}

fn decode_p(
    seq: &VideoSequenceHeaderV2,
    payload: &[u8],
    reference: &YuvFrame,
) -> Result<DecodedVideoFrameV2, SrsV2Error> {
    decode_yuv420_p_payload(seq, payload, reference, &p_inputs(seq, payload, reference))
}

fn inter_payload(
    seq: &VideoSequenceHeaderV2,
    cur: &YuvFrame,
    reference: Option<&YuvFrame>,
    frame_index: u32,
    qp: u8,
    settings: &SrsV2EncodeSettings,
    stats: Option<&mut ResidualEncodeStats>,
    ms: Option<&mut SrsV2MotionEncodeStats>,
    aq: Option<&mut SrsV2AqEncodeStats>,
) -> Result<Vec<u8>, SrsV2Error> {
    let mut counted = SrsV2MotionEncodeStats::default();
    let plan = plan_yuv420_inter_payload(
        seq,
        cur,
        reference,
        frame_index,
        qp,
        settings,
        ms.unwrap_or(&mut counted),
    )?;
    let explicit = settings.residual_entropy == ResidualEntropy::Explicit;
    let (planes, coded) = match &plan {
        FramePlan::Intra(p) => (
            vec![
                intra_plane_bytes(&cur.y, p.qp),
                intra_plane_bytes(&cur.u, p.qp),
                intra_plane_bytes(&cur.v, p.qp),
            ],
            Vec::new(),
        ),
        FramePlan::Forward { plan, qp, .. } => {
            let block_qp = |k| plan.block_qp(settings, *qp, k);
            (Vec::new(), code_residuals(&plan.blocks, block_qp, explicit))
        }
    };
    encode_yuv420_inter_payload(
        &plan,
        frame_index,
        settings,
        &planes,
        &coded,
        stats.unwrap_or(&mut ResidualEncodeStats::default()),
        aq.unwrap_or(&mut SrsV2AqEncodeStats::default()),
    )
}

fn decode_any(
    seq: &VideoSequenceHeaderV2,
    payload: &[u8],
    slot: &mut Option<YuvFrame>,
) -> Result<DecodedVideoFrameV2, SrsV2Error> {
    let planes = intra_inputs(seq, payload);
    let residuals = match slot.as_ref() {
        Some(f) => p_inputs(seq, payload, f),
        None => Vec::new(),
    };
    decode_yuv420_srsv2_payload(seq, payload, slot, &planes, &residuals)
}

fn b_payload(
    seq: &VideoSequenceHeaderV2,
    cur: &YuvFrame,
    ref_a: &YuvFrame,
    ref_b: &YuvFrame,
    frame_index: u32,
    qp: u8,
    slot_a: u8,
    slot_b: u8,
    blend: BBlendModeWire,
    half_pel: bool,
) -> Result<Vec<u8>, SrsV2Error> {
    let plan = plan_b_frame(seq, cur, ref_a, ref_b, blend)?;
    let coded = code_residuals(&plan.blocks, |_| qp, false);
    encode_yuv420_b_payload(&plan, frame_index, qp, slot_a, slot_b, blend, half_pel, &coded)
}

fn b_payload_mb_blend(
    seq: &VideoSequenceHeaderV2,
    cur: &YuvFrame,
    ref_a: &YuvFrame,
    ref_b: &YuvFrame,
    frame_index: u32,
    qp: u8,
    slot_a: u8,
    slot_b: u8,
    settings: &SrsV2EncodeSettings,
    stats: &mut BFrameEncodeStats,
) -> Result<Vec<u8>, SrsV2Error> {
    let (cols, rows) = (seq.width / 16, seq.height / 16);
    let plan = plan_b_frame_mb_blend(seq, cur, ref_a, ref_b, settings, 0, stats)?;
    let coded = code_residuals(&plan.blocks, |_| qp, false);
    let (grid_a, grid_b) = compact_b_grids(&plan, cols, rows);
    let blobs = vec![Ok(grid_a), Ok(grid_b)];
    encode_yuv420_b_payload_mb_blend(
        &plan, cols, rows, frame_index, qp, slot_a, slot_b, settings, &coded, &blobs, stats,
    )
}

fn b_inputs(
    seq: &VideoSequenceHeaderV2,
    payload: &[u8],
    manager: &SrsV2ReferenceManager,
) -> (Vec<Result<Vec<u8>, SrsV2Error>>, Vec<Result<[i16; 64], SrsV2Error>>) {
    let mut vectors = Vec::new();
    for s in find_b_mv_sections(seq, payload) {
        vectors.push(Ok(payload[s.start..s.end].to_vec()));
    }
    let residuals = match parse_b_payload(seq, payload, manager, &vectors) {
        Ok(parse) => residual_samples(&parse, payload),
        Err(_) => Vec::new(),
    };
    (vectors, residuals)
}

fn decode_b(
    seq: &VideoSequenceHeaderV2,
    payload: &[u8],
    manager: &SrsV2ReferenceManager,
) -> Result<DecodedVideoFrameV2, SrsV2Error> {
    let (vectors, residuals) = b_inputs(seq, payload, manager);
    decode_yuv420_b_payload(seq, payload, manager, &vectors, &residuals)
}

fn decode_managed(
    seq: &VideoSequenceHeaderV2,
    payload: &[u8],
    manager: &mut SrsV2ReferenceManager,
) -> Result<DecodedVideoFrameV2, SrsV2Error> {
    let planes = match parse_alt_ref_payload(seq, payload, manager) {
        Ok(l) => {
            let (w, h) = (seq.width as usize, seq.height as usize);
            let (cw, ch) = ((w + 1) / 2, (h + 1) / 2);
            vec![
                plane_input(&payload[l.y.0..l.y.1], 12, l.base_qp, w, h),
                plane_input(&payload[l.u.0..l.u.1], 12, l.base_qp, cw, ch),
                plane_input(&payload[l.v.0..l.v.1], 12, l.base_qp, cw, ch),
            ]
        }
        Err(_) => intra_inputs(seq, payload),
    };
    let route = if payload.len() < 4 { PayloadRoute::Unknown } else { payload_route(payload[3]) };
    let (vectors, residuals) = match route {
        PayloadRoute::Bidirectional => b_inputs(seq, payload, manager),
        PayloadRoute::Forward => match manager.primary_ref() {
            Some(f) => (Vec::new(), p_inputs(seq, payload, f)),
            None => (Vec::new(), Vec::new()),
        },
        _ => (Vec::new(), Vec::new()),
    };
    decode_yuv420_srsv2_payload_managed(seq, payload, manager, &planes, &vectors, &residuals)
}

fn var_payload(
    seq: &VideoSequenceHeaderV2,
    cur: &YuvFrame,
    reference: &YuvFrame,
    frame_index: u32,
    qp: u8,
    settings: &SrsV2EncodeSettings,
    parts: &SrsV2PartitionSettings,
) -> Result<Vec<u8>, SrsV2Error> {
    let (cols, rows) = (seq.width / 16, seq.height / 16);
    let mut ms = SrsV2MotionEncodeStats::default();
    let plan = plan_p_var_frame(seq, cur, reference, qp, settings, parts, 0, &[], &mut ms)?;
    let mut coded = Vec::new();
    for b in &plan.blocks {
        let levels = quantize(&transform(&b.diff, false), b.qp as i16);
        match b.wire {
            VarBlock::Skip => {}
            VarBlock::Whole { .. } => {
                coded.push(Ok(VarChunk { bytes: levels_to_bytes(&levels), rans: false }))
            }
            VarBlock::Quarters { .. } => {
                for _ in 0..4 {
                    coded.push(Ok(VarChunk { bytes: levels_to_bytes(&levels), rans: false }));
                }
            }
        }
    }
    encode_yuv420_p_payload_var_partition(
        &plan,
        cols,
        rows,
        frame_index,
        qp,
        settings,
        parts,
        &coded,
        &None,
        &mut ResidualEncodeStats::default(),
        &mut ms,
    )
}

fn decode_var(
    seq: &VideoSequenceHeaderV2,
    payload: &[u8],
    reference: &YuvFrame,
    rev: u8,
) -> Result<DecodedVideoFrameV2, SrsV2Error> {
    let vectors = match find_p_mv_section(seq, payload, rev) {
        Some(s) => Some(Ok(payload[s.start..s.end].to_vec())),
        None => None,
    };
    let mut residuals = Vec::new();
    if let Ok(parse) = parse_p_var_payload(seq, payload, reference, rev, &vectors) {
        for j in &parse.jobs {
            residuals.push(
                levels_from_bytes(&payload[j.start..j.end])
                    .map(|l| transform(&dequantize(&l, j.qp), true)),
            );
        }
    }
    decode_yuv420_p_payload_var_partition(seq, payload, reference, rev, &vectors, &residuals)
}

fn whole_blocks() -> SrsV2PartitionSettings {
    SrsV2PartitionSettings {
        inter_partition_mode: SrsV2InterPartitionMode::Fixed16x16,
        partition_cost_model: SrsV2PartitionCostModel::SadOnly,
        partition_map_encoding: SrsV2PartitionMapEncoding::Raw,
        transform_size_mode: SrsV2TransformSizeMode::Force8x8,
        partition_rdo_lambda_scale: 256,
        partition_split_penalty: 0,
        partition_mv_penalty: 0,
        partition_header_penalty: 0,
        partition_quality_bias: 256,
    }
}

fn gray_to_yuv(gray: &[u8], w: u32, h: u32) -> Result<YuvFrame, SrsV2Error> {
    let mut y = VideoPlane::try_new(w, h, w as usize)?;
    y.samples.copy_from_slice(gray);
    let (cw, ch) = (w.div_ceil(2), h.div_ceil(2));
    let mut u = VideoPlane::try_new(cw, ch, cw as usize)?;
    u.samples.fill(128);
    let v = u.clone();
    Ok(YuvFrame { format: PixelFormat::Yuv420p8, y, u, v })
}

fn seq_b(w: u32, h: u32) -> VideoSequenceHeaderV2 {
    VideoSequenceHeaderV2 {
        width: w,
        height: h,
        profile: SrsVideoProfile::Main,
        pixel_format: PixelFormat::Yuv420p8,
        color_primaries: ColorPrimaries::Bt709,
        transfer: TransferFunction::Sdr,
        matrix: MatrixCoefficients::Bt709,
        chroma_siting: ChromaSiting::Center,
        range: ColorRange::Limited,
        disable_loop_filter: true,
        deblock_strength: 0,
        max_ref_frames: 2,
    }
}

fn flat_yuv(w: u32, h: u32, yv: u8) -> YuvFrame {
    let g = vec![yv; (w * h) as usize];
    gray_to_yuv(&g, w, h).unwrap()
}

#[test]
fn b_identical_refs_small_payload() {
    let seq = seq_b(64, 64);
    let gray = vec![99_u8; 64 * 64];
    let yuv = gray_to_yuv(&gray, 64, 64).unwrap();
    let pay = b_payload(
        &seq,
        &yuv,
        &yuv,
        &yuv,
        2,
        28,
        0,
        1,
        BBlendModeWire::Average,
        false,
    )
    .unwrap();
    assert!(pay.len() < 8000, "payload {}", pay.len());
}

#[test]
fn weighted_blend_wire_mode_is_reserved() {
    assert!(BBlendModeWire::from_u8(3).is_err());
}

#[test]
fn b_average_blend_decode_near_lossless_flat_scene() {
    let seq = seq_b(16, 16);
    let cur = flat_yuv(16, 16, 100);
    let ref_a = flat_yuv(16, 16, 80);
    let ref_b = flat_yuv(16, 16, 120);
    let pay = b_payload(
        &seq,
        &cur,
        &ref_a,
        &ref_b,
        5,
        18,
        1,
        0,
        BBlendModeWire::Average,
        false,
    )
    .unwrap();
    let mut mgr = SrsV2ReferenceManager::new(2).unwrap();
    mgr.push_displayable_last(4, ref_a);
    mgr.push_displayable_last(6, ref_b);
    let dec = decode_b(&seq, &pay, &mgr).unwrap();
    let mut max_abs = 0_u8;
    for i in 0..dec.yuv.y.samples.len() {
        let d = dec.yuv.y.samples[i].abs_diff(cur.y.samples[i]);
        max_abs = max_abs.max(d);
    }
    assert!(
        max_abs <= 8,
        "expected small quantization error on flat average-blend B, got max_abs={max_abs}"
    );
}

#[test]
fn decode_b_missing_backward_slot_fails() {
    let seq = seq_b(16, 16);
    let cur = flat_yuv(16, 16, 90);
    let ref_a = flat_yuv(16, 16, 70);
    let ref_b = flat_yuv(16, 16, 110);
    let pay = b_payload(
        &seq,
        &cur,
        &ref_a,
        &ref_b,
        5,
        28,
        1,
        0,
        BBlendModeWire::Average,
        false,
    )
    .unwrap();
    let mut mgr = SrsV2ReferenceManager::new(2).unwrap();
    mgr.push_displayable_last(6, ref_b);
    assert!(decode_b(&seq, &pay, &mgr).is_err());
}

#[test]
fn decode_b_missing_forward_slot_fails() {
    let seq = seq_b(16, 16);
    let cur = flat_yuv(16, 16, 90);
    let ref_a = flat_yuv(16, 16, 70);
    let ref_b = flat_yuv(16, 16, 110);
    let pay = b_payload(
        &seq,
        &cur,
        &ref_a,
        &ref_b,
        5,
        28,
        1,
        0,
        BBlendModeWire::Average,
        false,
    )
    .unwrap();
    let mut mgr = SrsV2ReferenceManager::new(2).unwrap();
    mgr.push_displayable_last(4, ref_a);
    assert!(decode_b(&seq, &pay, &mgr).is_err());
}

#[test]
fn decode_b_invalid_slot_index_fails() {
    let seq = seq_b(16, 16);
    let cur = flat_yuv(16, 16, 90);
    let ref_a = flat_yuv(16, 16, 70);
    let ref_b = flat_yuv(16, 16, 110);
    let mut pay = b_payload(
        &seq,
        &cur,
        &ref_a,
        &ref_b,
        5,
        28,
        1,
        0,
        BBlendModeWire::Average,
        false,
    )
    .unwrap();
    pay[9] = 7;
    let mut mgr = SrsV2ReferenceManager::new(2).unwrap();
    mgr.push_displayable_last(4, ref_a);
    mgr.push_displayable_last(6, ref_b);
    assert!(decode_b(&seq, &pay, &mgr).is_err());
}

#[test]
fn decode_b_weighted_blend_wire_rejected() {
    let seq = seq_b(16, 16);
    let cur = flat_yuv(16, 16, 90);
    let ref_a = flat_yuv(16, 16, 70);
    let ref_b = flat_yuv(16, 16, 110);
    let mut pay = b_payload(
        &seq,
        &cur,
        &ref_a,
        &ref_b,
        5,
        28,
        1,
        0,
        BBlendModeWire::Average,
        false,
    )
    .unwrap();
    pay[11] = 3;
    let mut mgr = SrsV2ReferenceManager::new(2).unwrap();
    mgr.push_displayable_last(4, ref_a);
    mgr.push_displayable_last(6, ref_b);
    let err = decode_b(&seq, &pay, &mgr).unwrap_err();
    assert!(matches!(err, SrsV2Error::Unsupported(_)));
}

#[test]
fn decode_b_truncated_payload_fails() {
    let seq = seq_b(16, 16);
    let cur = flat_yuv(16, 16, 90);
    let ref_a = flat_yuv(16, 16, 70);
    let ref_b = flat_yuv(16, 16, 110);
    let mut pay = b_payload(
        &seq,
        &cur,
        &ref_a,
        &ref_b,
        5,
        28,
        1,
        0,
        BBlendModeWire::Average,
        false,
    )
    .unwrap();
    pay.truncate(12);
    let mut mgr = SrsV2ReferenceManager::new(2).unwrap();
    mgr.push_displayable_last(4, ref_a);
    mgr.push_displayable_last(6, ref_b);
    assert!(decode_b(&seq, &pay, &mgr).is_err());
}

#[test]
fn decode_b_rev11_odd_qpel_mv_fails() {
    let seq = seq_b(16, 16);
    let cur = flat_yuv(16, 16, 100);
    let ref_a = flat_yuv(16, 16, 90);
    let ref_b = flat_yuv(16, 16, 110);
    let mut pay = b_payload(
        &seq,
        &cur,
        &ref_a,
        &ref_b,
        5,
        28,
        1,
        0,
        BBlendModeWire::Average,
        true,
    )
    .unwrap();
    assert_eq!(pay[3], 11);
    pay[12..16].copy_from_slice(&1_i32.to_le_bytes());
    let mut mgr = SrsV2ReferenceManager::new(2).unwrap();
    mgr.push_displayable_last(4, ref_a);
    mgr.push_displayable_last(6, ref_b);
    assert!(decode_b(&seq, &pay, &mgr).is_err());
}

#[test]
fn b_rev13_roundtrip_managed_refs() {
    let seq = seq_b(16, 16);
    let cur = flat_yuv(16, 16, 100);
    let ref_a = flat_yuv(16, 16, 80);
    let ref_b = flat_yuv(16, 16, 120);
    let mut st = BFrameEncodeStats::default();
    let settings = SrsV2EncodeSettings {
        b_motion_search_mode: SrsV2BMotionSearchMode::Off,
        ..Default::default()
    };
    let pay = b_payload_mb_blend(
        &seq, &cur, &ref_a, &ref_b, 5, 28, 1, 0, &settings, &mut st,
    )
    .unwrap();
    assert_eq!(pay[3], 13);
    let mut mgr = SrsV2ReferenceManager::new(2).unwrap();
    mgr.push_displayable_last(4, ref_a);
    mgr.push_displayable_last(6, ref_b);
    let dec = decode_b(&seq, &pay, &mgr).unwrap();
    assert_eq!(dec.frame_index, 5);
    assert!(dec.is_displayable);
}

#[test]
fn b_compact_rev16_roundtrip_matches_legacy_luma() {
    let seq = seq_b(16, 16);
    let cur = flat_yuv(16, 16, 100);
    let ref_a = flat_yuv(16, 16, 80);
    let ref_b = flat_yuv(16, 16, 120);
    let base = SrsV2EncodeSettings {
        b_motion_search_mode: SrsV2BMotionSearchMode::Off,
        ..Default::default()
    };
    let raw_settings = SrsV2EncodeSettings {
        inter_syntax_mode: SrsV2InterSyntaxMode::RawLegacy,
        ..base.clone()
    };
    let compact_settings = SrsV2EncodeSettings {
        inter_syntax_mode: SrsV2InterSyntaxMode::CompactV1,
        ..base
    };
    let mut st = BFrameEncodeStats::default();
    let mut st2 = BFrameEncodeStats::default();
    let pay_raw = b_payload_mb_blend(
        &seq,
        &cur,
        &ref_a,
        &ref_b,
        5,
        28,
        1,
        0,
        &raw_settings,
        &mut st,
    )
    .unwrap();
    let pay_co = b_payload_mb_blend(
        &seq,
        &cur,
        &ref_a,
        &ref_b,
        5,
        28,
        1,
        0,
        &compact_settings,
        &mut st2,
    )
    .unwrap();
    assert_eq!(pay_co[3], 16);
    let mut mgr = SrsV2ReferenceManager::new(2).unwrap();
    mgr.push_displayable_last(4, ref_a);
    mgr.push_displayable_last(6, ref_b);
    let d_raw = decode_b(&seq, &pay_raw, &mgr).unwrap();
    let d_co = decode_b(&seq, &pay_co, &mgr).unwrap();
    assert_eq!(d_raw.yuv.y.samples, d_co.yuv.y.samples);
}

#[test]
fn b_entropy_rev18_roundtrip_matches_compact_luma() {
    let seq = seq_b(16, 16);
    let cur = flat_yuv(16, 16, 100);
    let ref_a = flat_yuv(16, 16, 80);
    let ref_b = flat_yuv(16, 16, 120);
    let compact_settings = SrsV2EncodeSettings {
        b_motion_search_mode: SrsV2BMotionSearchMode::Off,
        inter_syntax_mode: SrsV2InterSyntaxMode::CompactV1,
        ..Default::default()
    };
    let entropy_settings = SrsV2EncodeSettings {
        inter_syntax_mode: SrsV2InterSyntaxMode::EntropyV1,
        ..compact_settings.clone()
    };
    let mut st = BFrameEncodeStats::default();
    let mut st2 = BFrameEncodeStats::default();
    let pay_co = b_payload_mb_blend(
        &seq,
        &cur,
        &ref_a,
        &ref_b,
        5,
        28,
        1,
        0,
        &compact_settings,
        &mut st,
    )
    .unwrap();
    let pay_en = b_payload_mb_blend(
        &seq,
        &cur,
        &ref_a,
        &ref_b,
        5,
        28,
        1,
        0,
        &entropy_settings,
        &mut st2,
    )
    .unwrap();
    assert_eq!(pay_en[3], 18);
    let mut mgr = SrsV2ReferenceManager::new(2).unwrap();
    mgr.push_displayable_last(4, ref_a);
    mgr.push_displayable_last(6, ref_b);
    let d_co = decode_b(&seq, &pay_co, &mgr).unwrap();
    let d_en = decode_b(&seq, &pay_en, &mgr).unwrap();
    assert_eq!(d_co.yuv.y.samples, d_en.yuv.y.samples);
}

#[test]
fn b_compact_rev16_truncated_mv_grid_fails() {
    let seq = seq_b(16, 16);
    let cur = flat_yuv(16, 16, 100);
    let ref_a = flat_yuv(16, 16, 80);
    let ref_b = flat_yuv(16, 16, 120);
    let settings = SrsV2EncodeSettings {
        b_motion_search_mode: SrsV2BMotionSearchMode::Off,
        inter_syntax_mode: SrsV2InterSyntaxMode::CompactV1,
        ..Default::default()
    };
    let mut st = BFrameEncodeStats::default();
    let mut pay = b_payload_mb_blend(
        &seq, &cur, &ref_a, &ref_b, 5, 28, 1, 0, &settings, &mut st,
    )
    .unwrap();
    assert_eq!(pay[3], 16);
    pay.truncate(12);
    let mut mgr = SrsV2ReferenceManager::new(2).unwrap();
    mgr.push_displayable_last(4, ref_a);
    mgr.push_displayable_last(6, ref_b);
    let err = decode_b(&seq, &pay, &mgr).unwrap_err();
    assert!(matches!(err, SrsV2Error::Truncated));
}

#[test]
fn b_compact_rev16_mv_varint_truncated_fails() {
    let seq = seq_b(16, 16);
    let cur = flat_yuv(16, 16, 100);
    let ref_a = flat_yuv(16, 16, 80);
    let ref_b = flat_yuv(16, 16, 120);
    let settings = SrsV2EncodeSettings {
        b_motion_search_mode: SrsV2BMotionSearchMode::Off,
        inter_syntax_mode: SrsV2InterSyntaxMode::CompactV1,
        ..Default::default()
    };
    let mut st = BFrameEncodeStats::default();
    let mut pay = b_payload_mb_blend(
        &seq, &cur, &ref_a, &ref_b, 5, 28, 1, 0, &settings, &mut st,
    )
    .unwrap();
    pay.truncate(13);
    pay.push(0x80);
    let mut mgr = SrsV2ReferenceManager::new(2).unwrap();
    mgr.push_displayable_last(4, ref_a);
    mgr.push_displayable_last(6, ref_b);
    let err = decode_b(&seq, &pay, &mgr).unwrap_err();
    assert!(matches!(err, SrsV2Error::Truncated));
}

#[test]
fn b_entropy_rev18_first_mv_sym_count_out_of_range_fails() {
    let seq = seq_b(16, 16);
    let cur = flat_yuv(16, 16, 100);
    let ref_a = flat_yuv(16, 16, 80);
    let ref_b = flat_yuv(16, 16, 120);
    let settings = SrsV2EncodeSettings {
        b_motion_search_mode: SrsV2BMotionSearchMode::Off,
        inter_syntax_mode: SrsV2InterSyntaxMode::EntropyV1,
        ..Default::default()
    };
    let mut st = BFrameEncodeStats::default();
    let mut pay = b_payload_mb_blend(
        &seq, &cur, &ref_a, &ref_b, 5, 28, 1, 0, &settings, &mut st,
    )
    .unwrap();
    assert_eq!(pay[3], 18);
    pay[12..16].copy_from_slice(&99999u32.to_le_bytes());
    let mut mgr = SrsV2ReferenceManager::new(2).unwrap();
    mgr.push_displayable_last(4, ref_a);
    mgr.push_displayable_last(6, ref_b);
    let err = decode_b(&seq, &pay, &mgr).unwrap_err();
    assert!(matches!(err, SrsV2Error::Syntax(_)));
}

#[test]
fn b_rev13_first_mb_weighted_blend_wire_rejected() {
    let seq = seq_b(16, 16);
    let cur = flat_yuv(16, 16, 90);
    let ref_a = flat_yuv(16, 16, 70);
    let ref_b = flat_yuv(16, 16, 110);
    let mut st = BFrameEncodeStats::default();
    let settings = SrsV2EncodeSettings::default();
    let mut pay = b_payload_mb_blend(
        &seq, &cur, &ref_a, &ref_b, 5, 28, 1, 0, &settings, &mut st,
    )
    .unwrap();
    // Header ends at index 10 (0-based): magic4 + fi4 + qp + slot_a + slot_b → next is first MB blend.
    pay[11] = BBlendModeWire::Weighted.to_u8();
    let mut mgr = SrsV2ReferenceManager::new(2).unwrap();
    mgr.push_displayable_last(4, ref_a);
    mgr.push_displayable_last(6, ref_b);
    let err = decode_b(&seq, &pay, &mgr).unwrap_err();
    assert!(matches!(err, SrsV2Error::Unsupported(_)));
}

#[test]
fn b_rev13_cur_matches_forward_ref_prefers_forward_blend() {
    let seq = seq_b(16, 16);
    let ref_a = flat_yuv(16, 16, 50);
    let ref_b = flat_yuv(16, 16, 200);
    let cur = ref_a.clone();
    let mut st = BFrameEncodeStats::default();
    let settings = SrsV2EncodeSettings {
        b_motion_search_mode: SrsV2BMotionSearchMode::Off,
        ..Default::default()
    };
    let _ = b_payload_mb_blend(
        &seq, &cur, &ref_a, &ref_b, 5, 28, 1, 0, &settings, &mut st,
    )
    .unwrap();
    assert_eq!(st.b_forward_macroblocks, 1);
    assert_eq!(st.b_weighted_macroblocks, 0);
}

#[test]
fn b_rev13_cur_matches_backward_ref_prefers_backward_blend() {
    let seq = seq_b(16, 16);
    let ref_a = flat_yuv(16, 16, 40);
    let ref_b = flat_yuv(16, 16, 90);
    let cur = ref_b.clone();
    let mut st = BFrameEncodeStats::default();
    let settings = SrsV2EncodeSettings {
        b_motion_search_mode: SrsV2BMotionSearchMode::Off,
        ..Default::default()
    };
    let _ = b_payload_mb_blend(
        &seq, &cur, &ref_a, &ref_b, 5, 28, 1, 0, &settings, &mut st,
    )
    .unwrap();
    assert_eq!(st.b_backward_macroblocks, 1);
    assert_eq!(st.b_weighted_macroblocks, 0);
}

#[test]
fn b_rev13_flat_midpoint_prefers_average_blend() {
    let seq = seq_b(16, 16);
    let ref_a = flat_yuv(16, 16, 80);
    let ref_b = flat_yuv(16, 16, 120);
    let cur = flat_yuv(16, 16, 100);
    let mut st = BFrameEncodeStats::default();
    let settings = SrsV2EncodeSettings {
        b_motion_search_mode: SrsV2BMotionSearchMode::Off,
        ..Default::default()
    };
    let _ = b_payload_mb_blend(
        &seq, &cur, &ref_a, &ref_b, 5, 28, 1, 0, &settings, &mut st,
    )
    .unwrap();
    assert_eq!(st.b_average_macroblocks, 1);
}

#[test]
fn b_rev13_independent_motion_search_collects_extra_sad_evaluations() {
    let seq = seq_b(16, 16);
    let cur = flat_yuv(16, 16, 100);
    let ref_a = flat_yuv(16, 16, 80);
    let ref_b = flat_yuv(16, 16, 120);
    let mut st_off = BFrameEncodeStats::default();
    let s_off = SrsV2EncodeSettings {
        b_motion_search_mode: SrsV2BMotionSearchMode::Off,
        motion_search_mode: SrsV2MotionSearchMode::Diamond,
        motion_search_radius: 4,
        ..Default::default()
    };
    let _ = b_payload_mb_blend(
        &seq,
        &cur,
        &ref_a,
        &ref_b,
        5,
        28,
        1,
        0,
        &s_off,
        &mut st_off,
    )
    .unwrap();
    let mut st_ind = BFrameEncodeStats::default();
    let s_ind = SrsV2EncodeSettings {
        b_motion_search_mode: SrsV2BMotionSearchMode::IndependentForwardBackward,
        motion_search_mode: SrsV2MotionSearchMode::Diamond,
        motion_search_radius: 4,
        ..Default::default()
    };
    let _ = b_payload_mb_blend(
        &seq,
        &cur,
        &ref_a,
        &ref_b,
        5,
        28,
        1,
        0,
        &s_ind,
        &mut st_ind,
    )
    .unwrap();
    assert!(st_ind.b_sad_evaluations > st_off.b_sad_evaluations);
}

#[test]
fn weighted_prediction_blend_math_deterministic() {
    assert_eq!(blend_weighted_pixels(100, 200, 128, 128), 150);
    assert_eq!(blend_weighted_pixels(100, 200, 64, 192), 175);
    assert_eq!(blend_weighted_pixels(40, 80, 192, 64), 50);
}

#[test]
fn validate_b_prediction_weights_rejects_bad_sum() {
    assert!(validate_b_prediction_weights(100, 100).is_err());
    assert!(validate_b_prediction_weights(1, 254).is_err());
    assert!(validate_b_prediction_weights(128, 128).is_ok());
}

#[test]
fn b_rev13_magic_with_independent_integer_me() {
    let seq = seq_b(16, 16);
    let cur = flat_yuv(16, 16, 100);
    let ref_a = flat_yuv(16, 16, 80);
    let ref_b = flat_yuv(16, 16, 120);
    let mut st = BFrameEncodeStats::default();
    let settings = SrsV2EncodeSettings {
        b_motion_search_mode: SrsV2BMotionSearchMode::IndependentForwardBackward,
        motion_search_mode: SrsV2MotionSearchMode::Diamond,
        motion_search_radius: 4,
        ..Default::default()
    };
    let pay = b_payload_mb_blend(
        &seq, &cur, &ref_a, &ref_b, 5, 28, 1, 0, &settings, &mut st,
    )
    .unwrap();
    assert_eq!(pay[3], 13);
}

#[test]
fn b_rev14_magic_with_half_pel_b_motion_mode() {
    let seq = seq_b(16, 16);
    let cur = flat_yuv(16, 16, 100);
    let ref_a = flat_yuv(16, 16, 80);
    let ref_b = flat_yuv(16, 16, 120);
    let mut st = BFrameEncodeStats::default();
    let settings = SrsV2EncodeSettings {
        b_motion_search_mode: SrsV2BMotionSearchMode::IndependentForwardBackwardHalfPel,
        motion_search_mode: SrsV2MotionSearchMode::Diamond,
        motion_search_radius: 4,
        ..Default::default()
    };
    let pay = b_payload_mb_blend(
        &seq, &cur, &ref_a, &ref_b, 5, 28, 1, 0, &settings, &mut st,
    )
    .unwrap();
    assert_eq!(pay[3], 14);
    let mut mgr = SrsV2ReferenceManager::new(2).unwrap();
    mgr.push_displayable_last(4, ref_a);
    mgr.push_displayable_last(6, ref_b);
    let dec = decode_b(&seq, &pay, &mgr).unwrap();
    assert_eq!(dec.frame_index, 5);
}

#[test]
fn decode_b_rev14_odd_qpel_mv_fails() {
    let seq = seq_b(16, 16);
    let cur = flat_yuv(16, 16, 100);
    let ref_a = flat_yuv(16, 16, 80);
    let ref_b = flat_yuv(16, 16, 120);
    let mut st = BFrameEncodeStats::default();
    let settings = SrsV2EncodeSettings {
        b_motion_search_mode: SrsV2BMotionSearchMode::IndependentForwardBackwardHalfPel,
        motion_search_mode: SrsV2MotionSearchMode::Diamond,
        motion_search_radius: 4,
        ..Default::default()
    };
    let mut pay = b_payload_mb_blend(
        &seq, &cur, &ref_a, &ref_b, 5, 28, 1, 0, &settings, &mut st,
    )
    .unwrap();
    assert_eq!(pay[3], 14);
    // First MB: blend @ 11, then four i32 MVs @ 12..28
    pay[12] = 1;
    pay[13] = 0;
    pay[14] = 0;
    pay[15] = 0;
    let mut mgr = SrsV2ReferenceManager::new(2).unwrap();
    mgr.push_displayable_last(4, ref_a);
    mgr.push_displayable_last(6, ref_b);
    assert!(decode_b(&seq, &pay, &mgr).is_err());
}

#[test]
fn legacy_intra_then_inter_rev2_still_decodes() {
    let seq = VideoSequenceHeaderV2::intra_main_yuv420_bt709_limited_one_ref(16, 16);
    let st = SrsV2EncodeSettings {
        residual_entropy: ResidualEntropy::Explicit,
        ..Default::default()
    };
    let yuv0 = flat_yuv(16, 16, 0x33);
    let yuv1 = flat_yuv(16, 16, 0xCC);
    let enc0 = intra_payload(&seq, &yuv0, 0, 28, &st, None, None).unwrap();
    let mut slot = None;
    decode_any(&seq, &enc0, &mut slot).unwrap();
    let enc1 =
        inter_payload(&seq, &yuv1, slot.as_ref(), 1, 28, &st, None, None, None)
            .unwrap();
    assert_eq!(enc1[3], 2);
    decode_any(&seq, &enc1, &mut slot).unwrap();
}

fn seq_inter(w: u32, h: u32) -> VideoSequenceHeaderV2 {
    VideoSequenceHeaderV2 {
        width: w,
        height: h,
        profile: SrsVideoProfile::Main,
        pixel_format: PixelFormat::Yuv420p8,
        color_primaries: ColorPrimaries::Bt709,
        transfer: TransferFunction::Sdr,
        matrix: MatrixCoefficients::Bt709,
        chroma_siting: ChromaSiting::Center,
        range: ColorRange::Limited,
        disable_loop_filter: true,
        deblock_strength: 0,
        max_ref_frames: 1,
    }
}

#[test]
fn identical_frames_p_smaller_than_i() {
    let w = 64u32;
    let h = 64u32;
    let seq = seq_inter(w, h);
    let rgb = vec![200_u8; (w * h * 3) as usize];
    let yuv = rgb_to_yuv(&rgb, w, h, ColorRange::Limited).unwrap();
    let qp = 28_u8;
    let settings = SrsV2EncodeSettings {
        keyframe_interval: 30,
        motion_search_radius: 16,
        residual_entropy: ResidualEntropy::Explicit,
        ..Default::default()
    };
    let i_payload =
        intra_payload(&seq, &yuv, 0, qp, &settings, None, None).unwrap();
    let p_payload =
        p_payload(&seq, &yuv, &yuv, 1, qp, &settings, None, None).unwrap();
    assert!(
        p_payload.len() < i_payload.len(),
        "expected P payload smaller than I for identical texture: p={} i={}",
        p_payload.len(),
        i_payload.len()
    );
}

#[test]
fn moving_square_decodes_different_frames() {
    let w = 64u32;
    let h = 64u32;
    let seq = seq_inter(w, h);
    let mut rgb0 = vec![20_u8; (w * h * 3) as usize];
    for y in 20..44 {
        for x in 20..44 {
            let i = ((y * w + x) * 3) as usize;
            rgb0[i] = 240;
            rgb0[i + 1] = 240;
            rgb0[i + 2] = 240;
        }
    }
    let mut rgb1 = vec![20_u8; (w * h * 3) as usize];
    for y in 20..44 {
        for x in 24..48 {
            let i = ((y * w + x) * 3) as usize;
            rgb1[i] = 240;
            rgb1[i + 1] = 240;
            rgb1[i + 2] = 240;
        }
    }
    let y0 = rgb_to_yuv(&rgb0, w, h, ColorRange::Limited).unwrap();
    let y1 = rgb_to_yuv(&rgb1, w, h, ColorRange::Limited).unwrap();
    let qp = 24_u8;
    let settings = SrsV2EncodeSettings {
        keyframe_interval: 30,
        motion_search_radius: 16,
        ..Default::default()
    };
    let p_payload =
        p_payload(&seq, &y1, &y0, 1, qp, &settings, None, None).unwrap();
    let dec = decode_p(&seq, &p_payload, &y0).unwrap();
    let mean_dec: u32 = dec.yuv.y.samples.iter().map(|&x| x as u32).sum::<u32>()
        / dec.yuv.y.samples.len() as u32;
    let mean_tgt: u32 =
        y1.y.samples.iter().map(|&x| x as u32).sum::<u32>() / y1.y.samples.len() as u32;
    assert!(
        (mean_dec as i32 - mean_tgt as i32).abs() < 40,
        "mean luma should be loosely tracked"
    );
}

#[test]
fn corrupted_mv_rejected() {
    let w = 64u32;
    let h = 64u32;
    let seq = seq_inter(w, h);
    let rgb = vec![128_u8; (w * h * 3) as usize];
    let yuv = rgb_to_yuv(&rgb, w, h, ColorRange::Limited).unwrap();
    let mut payload = p_payload(
        &seq,
        &yuv,
        &yuv,
        1,
        28,
        &SrsV2EncodeSettings::default(),
        None,
        None,
    )
    .unwrap();
    // Corrupt first MV after header (offset 4+4+1 = 9): i16 LE 300 > MAX_MOTION_VECTOR_PELS
    if payload.len() > 11 {
        payload[9] = 0x2c;
        payload[10] = 0x01;
    }
    let err = decode_p(&seq, &payload, &yuv).unwrap_err();
    assert!(matches!(err, SrsV2Error::CorruptedMotionVector));
}

fn compare_luma_mae(a: &VideoPlane<u8>, b: &VideoPlane<u8>) -> f64 {
    assert_eq!(a.width, b.width);
    assert_eq!(a.height, b.height);
    let mut sum = 0u64;
    let mut n = 0u64;
    for y in 0..a.height {
        for x in 0..a.width {
            sum += a.samples[y as usize * a.stride + x as usize]
                .abs_diff(b.samples[y as usize * b.stride + x as usize])
                as u64;
            n += 1;
        }
    }
    sum as f64 / n.max(1) as f64
}

fn compare_luma_max_abs(a: &VideoPlane<u8>, b: &VideoPlane<u8>) -> u8 {
    assert_eq!(a.width, b.width);
    assert_eq!(a.height, b.height);
    let mut m = 0_u8;
    for y in 0..a.height {
        for x in 0..a.width {
            let d = a.samples[y as usize * a.stride + x as usize]
                .abs_diff(b.samples[y as usize * b.stride + x as usize]);
            m = m.max(d);
        }
    }
    m
}

#[test]
fn identical_frames_skip_enabled_emits_skipped_subblocks() {
    let seq = seq_inter(64, 64);
    let rgb = vec![200_u8; 64 * 64 * 3];
    let yuv = rgb_to_yuv(&rgb, 64, 64, ColorRange::Limited).unwrap();
    let settings = SrsV2EncodeSettings {
        enable_skip_blocks: true,
        residual_entropy: ResidualEntropy::Explicit,
        ..Default::default()
    };
    let mut ms = SrsV2MotionEncodeStats::default();
    p_payload(&seq, &yuv, &yuv, 1, 28, &settings, None, Some(&mut ms)).unwrap();
    assert!(ms.skip_subblocks > 0);
}

#[test]
fn identical_frames_skip_disabled_emits_zero_skipped_subblocks() {
    let seq = seq_inter(64, 64);
    let rgb = vec![200_u8; 64 * 64 * 3];
    let yuv = rgb_to_yuv(&rgb, 64, 64, ColorRange::Limited).unwrap();
    let settings = SrsV2EncodeSettings {
        enable_skip_blocks: false,
        residual_entropy: ResidualEntropy::Explicit,
        ..Default::default()
    };
    let mut ms = SrsV2MotionEncodeStats::default();
    p_payload(&seq, &yuv, &yuv, 1, 28, &settings, None, Some(&mut ms)).unwrap();
    assert_eq!(ms.skip_subblocks, 0);
}

#[test]
fn skip_disabled_tracks_small_dc_bias_closer_than_skip_enabled() {
    // Same geometry with MV (0,0): tiny uniform residual (≤ SKIP_ABS_THRESH) is skipped when
    // enable_skip_blocks, wiping the bias; disabled path keeps quantized residuals.
    let seq = seq_inter(64, 64);
    let rgb = vec![120_u8; 64 * 64 * 3];
    let y_ref = rgb_to_yuv(&rgb, 64, 64, ColorRange::Limited).unwrap();
    let mut y_cur = y_ref.clone();
    for y in 0..64 {
        for x in 0..64 {
            let ix = y as usize * y_ref.y.stride + x as usize;
            y_cur.y.samples[ix] = y_ref.y.samples[ix].saturating_add(4);
        }
    }
    let qp = 26_u8;
    let on = SrsV2EncodeSettings {
        enable_skip_blocks: true,
        motion_search_mode: SrsV2MotionSearchMode::NoSearch,
        residual_entropy: ResidualEntropy::Explicit,
        ..Default::default()
    };
    let off = SrsV2EncodeSettings {
        enable_skip_blocks: false,
        motion_search_mode: SrsV2MotionSearchMode::NoSearch,
        residual_entropy: ResidualEntropy::Explicit,
        ..Default::default()
    };
    let p_on = p_payload(&seq, &y_cur, &y_ref, 1, qp, &on, None, None).unwrap();
    let p_off = p_payload(&seq, &y_cur, &y_ref, 1, qp, &off, None, None).unwrap();
    let dec_on = decode_p(&seq, &p_on, &y_ref).unwrap();
    let dec_off = decode_p(&seq, &p_off, &y_ref).unwrap();
    let mae_on = compare_luma_mae(&y_cur.y, &dec_on.yuv.y);
    let mae_off = compare_luma_mae(&y_cur.y, &dec_off.yuv.y);
    assert!(
        mae_off < mae_on - 0.25,
        "skip disabled should preserve small residuals: off={mae_off} on={mae_on}"
    );
}

#[test]
fn skip_disabled_decode_differs_from_reference_plane() {
    let seq = seq_inter(64, 64);
    let rgb0 = vec![40_u8; 64 * 64 * 3];
    let mut rgb1 = vec![40_u8; 64 * 64 * 3];
    for y in 10..54 {
        for x in 10..54 {
            let i = ((y * 64 + x) * 3) as usize;
            rgb1[i] = 220;
            rgb1[i + 1] = 180;
            rgb1[i + 2] = 140;
        }
    }
    let y0 = rgb_to_yuv(&rgb0, 64, 64, ColorRange::Limited).unwrap();
    let y1 = rgb_to_yuv(&rgb1, 64, 64, ColorRange::Limited).unwrap();
    let settings = SrsV2EncodeSettings {
        enable_skip_blocks: false,
        motion_search_radius: 16,
        residual_entropy: ResidualEntropy::Explicit,
        ..Default::default()
    };
    let payload =
        p_payload(&seq, &y1, &y0, 1, 26, &settings, None, None).unwrap();
    let dec = decode_p(&seq, &payload, &y0).unwrap();
    assert!(
        compare_luma_max_abs(&dec.yuv.y, &y0.y) > 8,
        "decoded P should diverge from raw reference when current differs"
    );
}

#[test]
fn corrupted_skip_pattern_errors_as_syntax_or_truncated() {
    let seq = seq_inter(16, 16);
    let rgb = vec![100_u8; 16 * 16 * 3];
    let yuv = rgb_to_yuv(&rgb, 16, 16, ColorRange::Limited).unwrap();
    let settings = SrsV2EncodeSettings {
        enable_skip_blocks: false,
        residual_entropy: ResidualEntropy::Explicit,
        ..Default::default()
    };
    let mut payload =
        p_payload(&seq, &yuv, &yuv, 1, 28, &settings, None, None).unwrap();
    let pat_idx = 9 + 4;
    payload[pat_idx] = 0x0F;
    let err = decode_p(&seq, &payload, &yuv).unwrap_err();
    assert!(
        matches!(err, SrsV2Error::Truncated | SrsV2Error::Syntax(_)),
        "unexpected err: {err:?}"
    );
}

#[test]
fn corrupted_residual_chunk_length_errors_truncated() {
    let seq = seq_inter(16, 16);
    let rgb = vec![100_u8; 16 * 16 * 3];
    let yuv = rgb_to_yuv(&rgb, 16, 16, ColorRange::Limited).unwrap();
    let settings = SrsV2EncodeSettings {
        enable_skip_blocks: false,
        residual_entropy: ResidualEntropy::Explicit,
        ..Default::default()
    };
    let mut payload =
        p_payload(&seq, &yuv, &yuv, 1, 28, &settings, None, None).unwrap();
    let chunk_len_idx = 9 + 4 + 1;
    payload[chunk_len_idx..chunk_len_idx + 4].copy_from_slice(&0xFFFF_FFFFu32.to_le_bytes());
    let err = decode_p(&seq, &payload, &yuv).unwrap_err();
    assert!(matches!(
        err,
        SrsV2Error::Truncated | SrsV2Error::Overflow(_)
    ));
}

#[test]
fn identical_p_decode_near_source_with_quant_tolerance() {
    let seq = seq_inter(64, 64);
    let rgb = vec![180_u8; 64 * 64 * 3];
    let yuv = rgb_to_yuv(&rgb, 64, 64, ColorRange::Limited).unwrap();
    let settings = SrsV2EncodeSettings {
        enable_skip_blocks: true,
        residual_entropy: ResidualEntropy::Explicit,
        ..Default::default()
    };
    let payload =
        p_payload(&seq, &yuv, &yuv, 1, 28, &settings, None, None).unwrap();
    let dec = decode_p(&seq, &payload, &yuv).unwrap();
    assert!(
        compare_luma_max_abs(&yuv.y, &dec.yuv.y) <= 8,
        "identical MC + tiny residuals should reconstruct within small tolerance"
    );
}

#[test]
fn excessive_max_ref_in_header_rejected() {
    let mut hdr = [0_u8; 64];
    hdr[0..4].copy_from_slice(b"SRS2");
    hdr[4] = 1;
    hdr[8..12].copy_from_slice(&64u32.to_le_bytes());
    hdr[12..16].copy_from_slice(&64u32.to_le_bytes());
    hdr[24] = 99;
    let err = decode_sequence_header_v2(&hdr).unwrap_err();
    assert!(matches!(err, SrsV2Error::ExcessiveReferenceFrames(99)));
}

#[test]
fn subpel_off_keeps_fr2_rev2_explicit() {
    let seq = seq_inter(64, 64);
    let rgb = vec![200_u8; 64 * 64 * 3];
    let yuv = rgb_to_yuv(&rgb, 64, 64, ColorRange::Limited).unwrap();
    let settings = SrsV2EncodeSettings {
        subpel_mode: SrsV2SubpelMode::Off,
        residual_entropy: ResidualEntropy::Explicit,
        ..Default::default()
    };
    let p = p_payload(&seq, &yuv, &yuv, 1, 28, &settings, None, None).unwrap();
    assert_eq!(p[3], 2);
}

#[test]
fn subpel_half_emits_fr2_rev5_explicit_residual() {
    let seq = seq_inter(64, 64);
    let rgb = vec![200_u8; 64 * 64 * 3];
    let yuv = rgb_to_yuv(&rgb, 64, 64, ColorRange::Limited).unwrap();
    let settings = SrsV2EncodeSettings {
        subpel_mode: SrsV2SubpelMode::HalfPel,
        residual_entropy: ResidualEntropy::Explicit,
        ..Default::default()
    };
    let p = p_payload(&seq, &yuv, &yuv, 1, 28, &settings, None, None).unwrap();
    assert_eq!(p[3], 5);
}

#[test]
fn rev5_odd_qpel_mv_rejected_as_syntax() {
    let seq = seq_inter(64, 64);
    let rgb = vec![128_u8; 64 * 64 * 3];
    let yuv = rgb_to_yuv(&rgb, 64, 64, ColorRange::Limited).unwrap();
    let settings = SrsV2EncodeSettings {
        subpel_mode: SrsV2SubpelMode::HalfPel,
        motion_search_mode: SrsV2MotionSearchMode::NoSearch,
        residual_entropy: ResidualEntropy::Explicit,
        ..Default::default()
    };
    let mut payload =
        p_payload(&seq, &yuv, &yuv, 1, 28, &settings, None, None).unwrap();
    let mv_off = 9;
    payload[mv_off..mv_off + 4].copy_from_slice(&1i32.to_le_bytes());
    let err = decode_p(&seq, &payload, &yuv).unwrap_err();
    assert!(matches!(err, SrsV2Error::Syntax(_)));
}

#[test]
fn half_pel_dispatcher_matches_raw_p_decode_when_loop_filter_off() {
    let mut seq = seq_inter(64, 64);
    seq.disable_loop_filter = true;
    let mut rgb0 = vec![20_u8; 64 * 64 * 3];
    for y in 20..44 {
        for x in 20..44 {
            let i = (y * 64 + x) * 3;
            rgb0[i] = 240;
            rgb0[i + 1] = 240;
            rgb0[i + 2] = 240;
        }
    }
    let mut rgb1 = vec![20_u8; 64 * 64 * 3];
    for y in 20..44 {
        for x in 24..48 {
            let i = (y * 64 + x) * 3;
            rgb1[i] = 240;
            rgb1[i + 1] = 240;
            rgb1[i + 2] = 240;
        }
    }
    let y0 = rgb_to_yuv(&rgb0, 64, 64, ColorRange::Limited).unwrap();
    let y1 = rgb_to_yuv(&rgb1, 64, 64, ColorRange::Limited).unwrap();
    let qp = 24_u8;
    let settings = SrsV2EncodeSettings {
        subpel_mode: SrsV2SubpelMode::HalfPel,
        motion_search_radius: 16,
        residual_entropy: ResidualEntropy::Explicit,
        ..Default::default()
    };
    let i_payload =
        intra_payload(&seq, &y0, 0, qp, &settings, None, None).unwrap();
    let mut slot = None;
    decode_any(&seq, &i_payload, &mut slot).unwrap();
    let ref_y = slot.as_ref().unwrap();
    let p_payload =
        p_payload(&seq, &y1, ref_y, 1, qp, &settings, None, None).unwrap();
    assert_eq!(p_payload[3], 5);
    let mut slot2 = Some(ref_y.clone());
    let via_disp = decode_any(&seq, &p_payload, &mut slot2).unwrap();
    let dec_raw = decode_p(&seq, &p_payload, ref_y).unwrap();
    assert_eq!(via_disp.yuv.y.samples, dec_raw.yuv.y.samples);
}

#[test]
fn subpel_encode_populates_motion_stats() {
    let seq = seq_inter(64, 64);
    let rgb = vec![130_u8; 64 * 64 * 3];
    let yuv = rgb_to_yuv(&rgb, 64, 64, ColorRange::Limited).unwrap();
    let settings = SrsV2EncodeSettings {
        subpel_mode: SrsV2SubpelMode::HalfPel,
        residual_entropy: ResidualEntropy::Explicit,
        ..Default::default()
    };
    let mut ms = SrsV2MotionEncodeStats::default();
    p_payload(&seq, &yuv, &yuv, 1, 28, &settings, None, Some(&mut ms)).unwrap();
    assert!(ms.subpel_enabled);
    assert!(ms.subpel_blocks_tested > 0);
    assert!(ms.additional_subpel_evaluations > 0);
}

fn seq_inter16() -> VideoSequenceHeaderV2 {
    VideoSequenceHeaderV2 {
        width: 16,
        height: 16,
        profile: SrsVideoProfile::Main,
        pixel_format: PixelFormat::Yuv420p8,
        color_primaries: ColorPrimaries::Bt709,
        transfer: TransferFunction::Sdr,
        matrix: MatrixCoefficients::Bt709,
        chroma_siting: ChromaSiting::Center,
        range: ColorRange::Limited,
        disable_loop_filter: true,
        deblock_strength: 0,
        max_ref_frames: 1,
    }
}

/// Byte index of the first residual control byte (matches [`decode_var`] MV parse).
fn residual_cursor_after_mv(payload: &[u8], w: u32, h: u32) -> usize {
    let mb_cols = w / 16;
    let mb_rows = h / 16;
    let n_mb = (mb_cols * mb_rows) as usize;
    let mut cur = 4usize;
    let _frame_index = read_u32(payload, &mut cur).unwrap();
    let _qp = read_u8(payload, &mut cur).unwrap();
    let flags = read_u8(payload, &mut cur).unwrap();
    if flags & 2 != 0 {
        cur += 2;
    }
    assert!(payload.len() >= cur + n_mb);
    let partitions = &payload[cur..cur + n_mb];
    cur += n_mb;
    if payload[3] == FRAME_PAYLOAD_MAGIC_P_INTER_ENTROPY_VAR[3] {
        let _sym_count = read_u32(payload, &mut cur).unwrap() as usize;
        let blob_len = read_u32(payload, &mut cur).unwrap() as usize;
        cur += blob_len;
    } else {
        let val = |_mx: i32, _my: i32| Ok(());
        decode_mv_stream_partitioned(payload, &mut cur, mb_cols, mb_rows, partitions, &val)
            .unwrap();
    }
    cur
}

#[test]
fn decode_rejects_unsupported_tx16_wire_value() {
    let seq = seq_inter16();
    let rgb = vec![90_u8; 16 * 16 * 3];
    let yuv = rgb_to_yuv(&rgb, 16, 16, ColorRange::Limited).unwrap();
    let settings = SrsV2EncodeSettings {
        motion_search_mode: SrsV2MotionSearchMode::NoSearch,
        inter_syntax_mode: SrsV2InterSyntaxMode::CompactV1,
        residual_entropy: ResidualEntropy::Explicit,
        enable_skip_blocks: false,
        ..Default::default()
    };
    let mut payload = var_payload(
        &seq, &yuv, &yuv, 1, 28, &settings, &whole_blocks(),
    )
    .unwrap();
    let res = residual_cursor_after_mv(&payload, 16, 16);
    // First 8×8 subblock ctrl: force tx wire = TX_WIRE_16 (value 2) → bits (tx<<1) = 4.
    payload[res] = 4;
    let err = decode_var(&seq, &payload, &yuv, 19).unwrap_err();
    match err {
        SrsV2Error::Syntax(s) => assert!(s.contains("unsupported P transform")),
        e => panic!("expected Syntax unsupported transform: {e:?}"),
    }
}

#[test]
fn decode_rejects_reserved_transform_wire_symbol() {
    let seq = seq_inter16();
    let rgb = vec![90_u8; 16 * 16 * 3];
    let yuv = rgb_to_yuv(&rgb, 16, 16, ColorRange::Limited).unwrap();
    let settings = SrsV2EncodeSettings {
        motion_search_mode: SrsV2MotionSearchMode::NoSearch,
        inter_syntax_mode: SrsV2InterSyntaxMode::CompactV1,
        residual_entropy: ResidualEntropy::Explicit,
        enable_skip_blocks: false,
        ..Default::default()
    };
    let mut payload = var_payload(
        &seq, &yuv, &yuv, 1, 28, &settings, &whole_blocks(),
    )
    .unwrap();
    let res = residual_cursor_after_mv(&payload, 16, 16);
    // Illegal tx nibble 3 → ctrl byte (3<<1)=6 (still passes ctrl & !7 check).
    payload[res] = 6;
    let err = decode_var(&seq, &payload, &yuv, 19).unwrap_err();
    match err {
        SrsV2Error::Syntax(s) => assert!(s.contains("bad P var-partition transform wire")),
        e => panic!("expected Syntax bad transform wire: {e:?}"),
    }
}

#[test]
fn partition_map_rle_roundtrip_all_same() {
    let p = vec![P_PART_WIRE_16X16; 64];
    let r = rle_partition_payload(&p).unwrap();
    assert!(r.len() < p.len(), "RLE should beat raw for uniform map");
    let mut c = 0usize;
    let out = decode_rle_partition_map(&r, &mut c, 64).unwrap();
    assert_eq!(out, p);
    assert_eq!(c, r.len());
}

#[test]
fn partition_map_rle_rejects_run_overflow_vs_mb_count() {
    let mut blob = Vec::new();
    blob.extend_from_slice(&1u16.to_le_bytes());
    blob.push(P_PART_WIRE_16X16);
    blob.extend_from_slice(&100u16.to_le_bytes());
    let mut c = 0usize;
    let err = decode_rle_partition_map(&blob, &mut c, 64).unwrap_err();
    assert!(matches!(err, SrsV2Error::Syntax(_)));
}

#[test]
fn partition_map_rle_rejects_truncated_header() {
    let blob = 1u16.to_le_bytes();
    let mut c = 0usize;
    assert!(decode_rle_partition_map(&blob, &mut c, 64).is_err());
}

fn explicit_only_settings() -> SrsV2EncodeSettings {
    SrsV2EncodeSettings {
        residual_entropy: ResidualEntropy::Explicit,
        ..Default::default()
    }
}

#[test]
fn srsv2_dispatcher_p_requires_reference_then_decodes() {
    let w = 64u32;
    let h = 64u32;
    let mut seq = VideoSequenceHeaderV2 {
        width: w,
        height: h,
        profile: SrsVideoProfile::Main,
        pixel_format: PixelFormat::Yuv420p8,
        color_primaries: ColorPrimaries::Bt709,
        transfer: TransferFunction::Sdr,
        matrix: MatrixCoefficients::Bt709,
        chroma_siting: ChromaSiting::Center,
        range: ColorRange::Limited,
        disable_loop_filter: true,
        deblock_strength: 0,
        max_ref_frames: 1,
    };
    let rgb = vec![128_u8; (w * h * 3) as usize];
    let yuv = rgb_to_yuv(&rgb, w, h, ColorRange::Limited).unwrap();
    let st = explicit_only_settings();
    let pbytes =
        inter_payload(&seq, &yuv, Some(&yuv), 1, 28, &st, None, None, None)
            .unwrap();
    let mut slot = None::<YuvFrame>;
    assert!(matches!(
        decode_any(&seq, &pbytes, &mut slot),
        Err(SrsV2Error::PFrameWithoutReference)
    ));
    slot = Some(yuv.clone());
    decode_any(&seq, &pbytes, &mut slot).unwrap();
    seq.max_ref_frames = 0;
    let intra_only =
        inter_payload(&seq, &yuv, None, 5, 28, &st, None, None, None).unwrap();
    assert_eq!(intra_only[3], 1);
}

#[test]
fn yuv420_intra_payload_encode_decode_roundtrip() {
    let seq = VideoSequenceHeaderV2 {
        width: 64,
        height: 64,
        profile: SrsVideoProfile::Main,
        pixel_format: PixelFormat::Yuv420p8,
        color_primaries: ColorPrimaries::Bt709,
        transfer: TransferFunction::Sdr,
        matrix: MatrixCoefficients::Bt709,
        chroma_siting: ChromaSiting::Center,
        range: ColorRange::Limited,
        disable_loop_filter: true,
        deblock_strength: 0,
        max_ref_frames: 0,
    };
    let rgb = vec![128_u8; 64 * 64 * 3];
    let yuv = rgb_to_yuv(&rgb, 64, 64, ColorRange::Limited).expect("yuv");
    let qp = 10_u8;
    let st = explicit_only_settings();
    let payload = intra_payload(&seq, &yuv, 1, qp, &st, None, None).expect("enc");
    let dec = decode_intra(&seq, &payload).expect("dec");
    assert_eq!(dec.frame_index, 1);
    assert_eq!(dec.width, 64);
    assert_eq!(dec.height, 64);
    assert_eq!(dec.yuv.y.samples.len(), yuv.y.samples.len());
}

/// Legacy **`FR2` rev 1** explicit intra still decodes after coeff-layout settings exist (defaults unchanged).
#[test]
fn fr2_rev1_explicit_intra_decodes_with_default_coeff_layout_fields() {
    let seq = VideoSequenceHeaderV2 {
        width: 64,
        height: 64,
        profile: SrsVideoProfile::Main,
        pixel_format: PixelFormat::Yuv420p8,
        color_primaries: ColorPrimaries::Bt709,
        transfer: TransferFunction::Sdr,
        matrix: MatrixCoefficients::Bt709,
        chroma_siting: ChromaSiting::Center,
        range: ColorRange::Limited,
        disable_loop_filter: true,
        deblock_strength: 0,
        max_ref_frames: 0,
    };
    let rgb = vec![128_u8; 64 * 64 * 3];
    let yuv = rgb_to_yuv(&rgb, 64, 64, ColorRange::Limited).expect("yuv");
    let st = explicit_only_settings();
    assert_eq!(st.coeff_layout_mode, SrsV2CoeffLayoutMode::Legacy);
    let payload = intra_payload(&seq, &yuv, 7, 22, &st, None, None).expect("enc");
    assert_eq!(payload[3], 1, "explicit residual uses FR2 revision byte 1");
    decode_intra(&seq, &payload).expect("dec");
}

#[test]
fn intra_decode_deblock_changes_y_when_loop_filter_disabled() {
    let seq_off = VideoSequenceHeaderV2 {
        width: 64,
        height: 64,
        profile: SrsVideoProfile::Main,
        pixel_format: PixelFormat::Yuv420p8,
        color_primaries: ColorPrimaries::Bt709,
        transfer: TransferFunction::Sdr,
        matrix: MatrixCoefficients::Bt709,
        chroma_siting: ChromaSiting::Center,
        range: ColorRange::Limited,
        disable_loop_filter: true,
        deblock_strength: 0,
        max_ref_frames: 0,
    };
    let mut rgb = vec![30_u8; 64 * 64 * 3];
    for y in 0..64usize {
        for x in 0..64usize {
            let v = if (x / 16 + y / 16) % 2 == 0 {
                240_u8
            } else {
                40_u8
            };
            let i = (y * 64 + x) * 3;
            rgb[i] = v;
            rgb[i + 1] = v;
            rgb[i + 2] = v;
        }
    }
    let yuv = rgb_to_yuv(&rgb, 64, 64, ColorRange::Limited).unwrap();
    let st = SrsV2EncodeSettings {
        residual_entropy: ResidualEntropy::Explicit,
        ..Default::default()
    };
    let payload = intra_payload(&seq_off, &yuv, 0, 22, &st, None, None).unwrap();
    let mut dec_off = decode_intra(&seq_off, &payload).unwrap();
    apply_reconstruction_filter_if_enabled(&seq_off, &mut dec_off);
    let mut seq_on = seq_off.clone();
    seq_on.disable_loop_filter = false;
    let mut dec_on = decode_intra(&seq_on, &payload).unwrap();
    apply_reconstruction_filter_if_enabled(&seq_on, &mut dec_on);
    let mut diff = 0usize;
    for i in 0..dec_off.yuv.y.samples.len() {
        if dec_off.yuv.y.samples[i] != dec_on.yuv.y.samples[i] {
            diff += 1;
        }
    }
    assert!(diff > 0, "deblocking should alter some luma samples");
}

#[test]
fn identical_frames_p_payload_smaller_than_intra() {
    let w = 64u32;
    let h = 64u32;
    let seq = VideoSequenceHeaderV2 {
        width: w,
        height: h,
        profile: SrsVideoProfile::Main,
        pixel_format: PixelFormat::Yuv420p8,
        color_primaries: ColorPrimaries::Bt709,
        transfer: TransferFunction::Sdr,
        matrix: MatrixCoefficients::Bt709,
        chroma_siting: ChromaSiting::Center,
        range: ColorRange::Limited,
        disable_loop_filter: true,
        deblock_strength: 0,
        max_ref_frames: 1,
    };
    let rgb = vec![200_u8; (w * h * 3) as usize];
    let yuv = rgb_to_yuv(&rgb, w, h, ColorRange::Limited).unwrap();
    let qp = 28_u8;
    let st = explicit_only_settings();
    let intra = intra_payload(&seq, &yuv, 0, qp, &st, None, None).unwrap();
    let mut slot = None;
    decode_any(&seq, &intra, &mut slot).unwrap();
    let p =
        inter_payload(&seq, &yuv, slot.as_ref(), 1, qp, &st, None, None, None)
            .unwrap();
    assert_eq!(p[3], 2);
    assert!(
        p.len() < intra.len(),
        "expected P payload smaller than intra for identical texture (p={} intra={})",
        p.len(),
        intra.len()
    );
}

#[test]
fn intra_entropy_matches_explicit_decode() {
    let seq = VideoSequenceHeaderV2 {
        width: 64,
        height: 64,
        profile: SrsVideoProfile::Main,
        pixel_format: PixelFormat::Yuv420p8,
        color_primaries: ColorPrimaries::Bt709,
        transfer: TransferFunction::Sdr,
        matrix: MatrixCoefficients::Bt709,
        chroma_siting: ChromaSiting::Center,
        range: ColorRange::Limited,
        disable_loop_filter: true,
        deblock_strength: 0,
        max_ref_frames: 0,
    };
    let rgb = vec![90_u8; 64 * 64 * 3];
    let yuv = rgb_to_yuv(&rgb, 64, 64, ColorRange::Limited).unwrap();
    let st_exp = SrsV2EncodeSettings {
        residual_entropy: ResidualEntropy::Explicit,
        ..Default::default()
    };
    let payload_exp =
        intra_payload(&seq, &yuv, 0, 22, &st_exp, None, None).unwrap();
    assert_eq!(payload_exp[3], 1);
    let st_auto = SrsV2EncodeSettings::default();
    let payload_auto =
        intra_payload(&seq, &yuv, 0, 22, &st_auto, None, None).unwrap();
    assert_eq!(payload_auto[3], 3);
    let dec_exp = decode_intra(&seq, &payload_exp).unwrap();
    let dec_auto = decode_intra(&seq, &payload_auto).unwrap();
    assert_eq!(dec_exp.yuv.y.samples, dec_auto.yuv.y.samples);
    assert_eq!(dec_exp.yuv.u.samples, dec_auto.yuv.u.samples);
    assert_eq!(dec_exp.yuv.v.samples, dec_auto.yuv.v.samples);
}

#[test]
fn aq_activity_qp_byte_matches_effective_qp_stats() {
    let seq = VideoSequenceHeaderV2 {
        width: 64,
        height: 64,
        profile: SrsVideoProfile::Main,
        pixel_format: PixelFormat::Yuv420p8,
        color_primaries: ColorPrimaries::Bt709,
        transfer: TransferFunction::Sdr,
        matrix: MatrixCoefficients::Bt709,
        chroma_siting: ChromaSiting::Center,
        range: ColorRange::Limited,
        disable_loop_filter: true,
        deblock_strength: 0,
        max_ref_frames: 0,
    };
    let mut yuv =
        rgb_to_yuv(&vec![128_u8; 64 * 64 * 3], 64, 64, ColorRange::Limited)
            .unwrap();
    for y in 0..64usize {
        for x in 32..64usize {
            let v = if (x / 4 + y / 4) % 2 == 0 {
                60_u8
            } else {
                200_u8
            };
            yuv.y.samples[y * 64 + x] = v;
        }
    }
    let st = SrsV2EncodeSettings {
        adaptive_quantization_mode: SrsV2AdaptiveQuantizationMode::Activity,
        aq_strength: 12,
        min_qp: 10,
        max_qp: 45,
        min_block_qp_delta: -6,
        max_block_qp_delta: 8,
        residual_entropy: ResidualEntropy::Explicit,
        ..Default::default()
    };
    let mut aq = SrsV2AqEncodeStats::default();
    let payload =
        intra_payload(&seq, &yuv, 0, 22, &st, None, Some(&mut aq)).unwrap();
    assert!(aq.aq_enabled);
    assert_eq!(payload[8], aq.effective_qp);
    assert!(
        aq.positive_qp_delta_blocks > 0 || aq.negative_qp_delta_blocks > 0,
        "encode path should record AQ deltas on mixed-detail Y"
    );
}

#[test]
fn p_decode_chain_is_deterministic_with_loop_filter_enabled() {
    let seq = VideoSequenceHeaderV2 {
        width: 64,
        height: 64,
        profile: SrsVideoProfile::Main,
        pixel_format: PixelFormat::Yuv420p8,
        color_primaries: ColorPrimaries::Bt709,
        transfer: TransferFunction::Sdr,
        matrix: MatrixCoefficients::Bt709,
        chroma_siting: ChromaSiting::Center,
        range: ColorRange::Limited,
        disable_loop_filter: false,
        deblock_strength: 41,
        max_ref_frames: 1,
    };
    let rgb = vec![140_u8; 64 * 64 * 3];
    let yuv = rgb_to_yuv(&rgb, 64, 64, ColorRange::Limited).unwrap();
    let mut rgb2 = rgb.clone();
    for y in 16..48usize {
        for x in 16..48usize {
            let i = (y * 64 + x) * 3;
            rgb2[i] = 40;
            rgb2[i + 1] = 40;
            rgb2[i + 2] = 40;
        }
    }
    let yuv2 = rgb_to_yuv(&rgb2, 64, 64, ColorRange::Limited).unwrap();
    let st = explicit_only_settings();
    let intra = intra_payload(&seq, &yuv, 0, 26, &st, None, None).unwrap();
    let mut slot = None;
    decode_any(&seq, &intra, &mut slot).unwrap();
    let p =
        inter_payload(&seq, &yuv2, slot.as_ref(), 1, 26, &st, None, None, None)
            .unwrap();

    fn decode_twice(seq: &VideoSequenceHeaderV2, intra: &[u8], p: &[u8]) -> (Vec<u8>, Vec<u8>) {
        let mut slot = None;
        let d0 = decode_any(seq, intra, &mut slot).unwrap();
        let d1 = decode_any(seq, p, &mut slot).unwrap();
        (d0.yuv.y.samples.clone(), d1.yuv.y.samples.clone())
    }

    let (a0, a1) = decode_twice(&seq, &intra, &p);
    let (b0, b1) = decode_twice(&seq, &intra, &p);
    assert_eq!(a0, b0);
    assert_eq!(a1, b1);
}

#[test]
fn dispatcher_matches_raw_intra_plus_single_reconstruction_filter() {
    let seq = VideoSequenceHeaderV2 {
        width: 64,
        height: 64,
        profile: SrsVideoProfile::Main,
        pixel_format: PixelFormat::Yuv420p8,
        color_primaries: ColorPrimaries::Bt709,
        transfer: TransferFunction::Sdr,
        matrix: MatrixCoefficients::Bt709,
        chroma_siting: ChromaSiting::Center,
        range: ColorRange::Limited,
        disable_loop_filter: false,
        deblock_strength: 0,
        max_ref_frames: 0,
    };
    let rgb = vec![128_u8; 64 * 64 * 3];
    let yuv = rgb_to_yuv(&rgb, 64, 64, ColorRange::Limited).unwrap();
    let st = explicit_only_settings();
    let payload = intra_payload(&seq, &yuv, 2, 22, &st, None, None).unwrap();
    let via_dispatcher = decode_any(&seq, &payload, &mut None).unwrap();
    let mut via_raw = decode_intra(&seq, &payload).unwrap();
    apply_reconstruction_filter_if_enabled(&seq, &mut via_raw);
    assert_eq!(
        via_dispatcher.yuv.y.samples, via_raw.yuv.y.samples,
        "dispatcher must apply reconstruction filter exactly once"
    );
    assert_eq!(via_dispatcher.frame_index, via_raw.frame_index);
}

#[test]
fn dispatcher_intra_twice_from_clean_state_is_identical() {
    let seq = VideoSequenceHeaderV2 {
        width: 64,
        height: 64,
        profile: SrsVideoProfile::Main,
        pixel_format: PixelFormat::Yuv420p8,
        color_primaries: ColorPrimaries::Bt709,
        transfer: TransferFunction::Sdr,
        matrix: MatrixCoefficients::Bt709,
        chroma_siting: ChromaSiting::Center,
        range: ColorRange::Limited,
        disable_loop_filter: false,
        deblock_strength: 41,
        max_ref_frames: 1,
    };
    let rgb = vec![90_u8; 64 * 64 * 3];
    let yuv = rgb_to_yuv(&rgb, 64, 64, ColorRange::Limited).unwrap();
    let st = explicit_only_settings();
    let intra = intra_payload(&seq, &yuv, 0, 24, &st, None, None).unwrap();
    let mut slot_a = None;
    let mut slot_b = None;
    let da = decode_any(&seq, &intra, &mut slot_a).unwrap();
    let db = decode_any(&seq, &intra, &mut slot_b).unwrap();
    assert_eq!(da.yuv.y.samples, db.yuv.y.samples);
}

#[test]
fn reference_slot_y_matches_decoded_after_filtered_intra() {
    let seq = VideoSequenceHeaderV2 {
        width: 64,
        height: 64,
        profile: SrsVideoProfile::Main,
        pixel_format: PixelFormat::Yuv420p8,
        color_primaries: ColorPrimaries::Bt709,
        transfer: TransferFunction::Sdr,
        matrix: MatrixCoefficients::Bt709,
        chroma_siting: ChromaSiting::Center,
        range: ColorRange::Limited,
        disable_loop_filter: false,
        deblock_strength: 22,
        max_ref_frames: 1,
    };
    let rgb = vec![111_u8; 64 * 64 * 3];
    let yuv = rgb_to_yuv(&rgb, 64, 64, ColorRange::Limited).unwrap();
    let st = explicit_only_settings();
    let intra = intra_payload(&seq, &yuv, 0, 21, &st, None, None).unwrap();
    let mut slot = None;
    let dec = decode_any(&seq, &intra, &mut slot).unwrap();
    let got = slot.expect("ref slot");
    assert_eq!(got.y.samples, dec.yuv.y.samples);
}

#[test]
fn fr2_rev31_b_reserved_managed_decode_unsupported() {
    let seq = VideoSequenceHeaderV2 {
        width: 64,
        height: 64,
        profile: SrsVideoProfile::Main,
        pixel_format: PixelFormat::Yuv420p8,
        color_primaries: ColorPrimaries::Bt709,
        transfer: TransferFunction::Sdr,
        matrix: MatrixCoefficients::Bt709,
        chroma_siting: ChromaSiting::Center,
        range: ColorRange::Limited,
        disable_loop_filter: true,
        deblock_strength: 0,
        max_ref_frames: 2,
    };
    let payload = vec![b'F', b'R', b'2', 31, 0, 0, 0, 0, 28, 0, 1];
    let mut mgr = SrsV2ReferenceManager::new(2).unwrap();
    let err = decode_managed(&seq, &payload, &mut mgr).unwrap_err();
    assert!(matches!(
        err,
        SrsV2Error::Unsupported(_)
    ));
}

#[test]
fn legacy_dispatcher_rejects_fr2_rev10_through_12() {
    let seq = VideoSequenceHeaderV2 {
        width: 16,
        height: 16,
        profile: SrsVideoProfile::Main,
        pixel_format: PixelFormat::Yuv420p8,
        color_primaries: ColorPrimaries::Bt709,
        transfer: TransferFunction::Sdr,
        matrix: MatrixCoefficients::Bt709,
        chroma_siting: ChromaSiting::Center,
        range: ColorRange::Limited,
        disable_loop_filter: true,
        deblock_strength: 0,
        max_ref_frames: 2,
    };
    let mut slot = None::<YuvFrame>;
    for rev in [10_u8, 11, 12] {
        let pl = vec![b'F', b'R', b'2', rev];
        assert!(matches!(
            decode_any(&seq, &pl, &mut slot),
            Err(SrsV2Error::Unsupported(_))
        ));
    }
}

fn seq64(max_ref_frames: u8) -> VideoSequenceHeaderV2 {
    VideoSequenceHeaderV2 {
        width: 64,
        height: 64,
        profile: SrsVideoProfile::Main,
        pixel_format: PixelFormat::Yuv420p8,
        color_primaries: ColorPrimaries::Bt709,
        transfer: TransferFunction::Sdr,
        matrix: MatrixCoefficients::Bt709,
        chroma_siting: ChromaSiting::Center,
        range: ColorRange::Limited,
        disable_loop_filter: true,
        deblock_strength: 0,
        max_ref_frames,
    }
}

fn flat_rgb(side: u32, v: u8) -> YuvFrame {
    let rgb = vec![v; (side * side * 3) as usize];
    rgb_to_yuv(&rgb, side, side, ColorRange::Limited).unwrap()
}

#[test]
fn b_mb_blend_encode_rejects_residual_context_v1() {
    let seq = VideoSequenceHeaderV2 { width: 16, height: 16, ..seq64(2) };
    let yuv_a = flat_rgb(16, 80);
    let yuv_b = flat_rgb(16, 120);
    let yuv_c = flat_rgb(16, 100);
    let settings = SrsV2EncodeSettings {
        residual_context_mode: SrsV2ResidualContextMode::ContextV1,
        residual_entropy: ResidualEntropy::Rans,
        b_motion_search_mode: SrsV2BMotionSearchMode::Off,
        ..Default::default()
    };
    let mut st = BFrameEncodeStats::default();
    let err = b_payload_mb_blend(&seq, &yuv_c, &yuv_a, &yuv_b, 5, 28, 1, 0, &settings, &mut st)
        .unwrap_err();
    assert!(matches!(err, SrsV2Error::Unsupported(_)));
}

#[test]
fn inter_encode_rejects_residual_context_v1_until_wired() {
    let seq = seq64(1);
    let yuv = flat_rgb(64, 80);
    let mut slot = None;
    let intra =
        intra_payload(&seq, &yuv, 0, 24, &SrsV2EncodeSettings::default(), None, None).unwrap();
    decode_any(&seq, &intra, &mut slot).unwrap();
    let st_bad = SrsV2EncodeSettings {
        residual_entropy: ResidualEntropy::Auto,
        residual_context_mode: SrsV2ResidualContextMode::ContextV1,
        keyframe_interval: 30,
        ..Default::default()
    };
    let bad = inter_payload(&seq, &yuv, slot.as_ref(), 1, 24, &st_bad, None, None, None);
    assert!(bad.is_err());
}

#[test]
fn intra_rev7_block_aq_roundtrips() {
    let seq = seq64(0);
    let yuv = flat_rgb(64, 90);
    let st = SrsV2EncodeSettings {
        residual_entropy: ResidualEntropy::Auto,
        block_aq_mode: SrsV2BlockAqMode::BlockDelta,
        keyframe_interval: 1,
        ..Default::default()
    };
    let mut aq = SrsV2AqEncodeStats::default();
    let payload = intra_payload(&seq, &yuv, 3, 24, &st, None, Some(&mut aq)).unwrap();
    assert_eq!(payload[3], 7);
    assert!(aq.block_wire.block_aq_enabled);
    let dec = decode_intra(&seq, &payload).unwrap();
    assert_eq!(dec.frame_index, 3);
}

#[test]
fn intra_residual_context_v1_matches_static_rans_reconstruction() {
    let seq = seq64(0);
    let yuv = flat_rgb(64, 77);
    let st_ctx = SrsV2EncodeSettings {
        residual_entropy: ResidualEntropy::Rans,
        residual_context_mode: SrsV2ResidualContextMode::ContextV1,
        adaptive_quantization_mode: SrsV2AdaptiveQuantizationMode::Off,
        keyframe_interval: 1,
        ..Default::default()
    };
    let st_ref = SrsV2EncodeSettings {
        residual_entropy: ResidualEntropy::Rans,
        residual_context_mode: SrsV2ResidualContextMode::Off,
        adaptive_quantization_mode: SrsV2AdaptiveQuantizationMode::Off,
        keyframe_interval: 1,
        ..Default::default()
    };
    let payload_ctx = intra_payload(&seq, &yuv, 0, 21, &st_ctx, None, None).unwrap();
    let payload_ref = intra_payload(&seq, &yuv, 0, 21, &st_ref, None, None).unwrap();
    assert_eq!(payload_ctx[3], 29);
    assert_eq!(payload_ref[3], 3);
    assert_ne!(
        payload_ctx, payload_ref,
        "expected ContextV1 to emit a distinct bitstream vs static rANS"
    );
    let dec_ctx = decode_intra(&seq, &payload_ctx).unwrap();
    let dec_ref = decode_intra(&seq, &payload_ref).unwrap();
    assert_eq!(dec_ctx.yuv.y.samples, dec_ref.yuv.y.samples);
    assert_eq!(dec_ctx.yuv.u.samples, dec_ref.yuv.u.samples);
    assert_eq!(dec_ctx.yuv.v.samples, dec_ref.yuv.v.samples);
}

fn context_settings() -> SrsV2EncodeSettings {
    SrsV2EncodeSettings {
        residual_entropy: ResidualEntropy::Rans,
        residual_context_mode: SrsV2ResidualContextMode::ContextV1,
        adaptive_quantization_mode: SrsV2AdaptiveQuantizationMode::Off,
        keyframe_interval: 1,
        ..Default::default()
    }
}

#[test]
fn fr2_rev29_intra_roundtrip_managed_matches_direct_decode() {
    let seq = seq64(1);
    let yuv = flat_rgb(64, 88);
    let payload = intra_payload(&seq, &yuv, 2, 22, &context_settings(), None, None).unwrap();
    assert_eq!(payload[3], 29);
    let dec_intra = decode_intra(&seq, &payload).unwrap();
    assert_eq!(dec_intra.frame_index, 2);
    let mut mgr = SrsV2ReferenceManager::new(1).unwrap();
    let dec_mgr = decode_managed(&seq, &payload, &mut mgr).unwrap();
    assert_eq!(dec_intra.yuv.y.samples, dec_mgr.yuv.y.samples);
}

#[test]
fn fr2_rev29_malformed_truncated_payload_fails() {
    let seq = seq64(0);
    let yuv = flat_rgb(64, 90);
    let payload = intra_payload(&seq, &yuv, 0, 20, &context_settings(), None, None).unwrap();
    assert_eq!(payload[3], 29);
    let mut bad = payload.clone();
    bad.truncate(bad.len().saturating_sub(12));
    assert!(decode_intra(&seq, &bad).is_err());
}

#[test]
fn fr2_rev32_decoded_pixels_match_legacy_auto_intra_path() {
    let seq = seq64(0);
    let mut rgb = vec![90_u8; 64 * 64 * 3];
    for y in 0..64usize {
        for x in 0..64usize {
            let i = (y * 64 + x) * 3;
            let v = (30 + (x + y) % 40) as u8;
            rgb[i] = v;
            rgb[i + 1] = v;
            rgb[i + 2] = v;
        }
    }
    let yuv = rgb_to_yuv(&rgb, 64, 64, ColorRange::Limited).unwrap();
    let qp = 21_u8;
    let st_legacy = SrsV2EncodeSettings {
        coeff_layout_mode: SrsV2CoeffLayoutMode::Legacy,
        ..Default::default()
    };
    let st_compact = SrsV2EncodeSettings {
        coeff_layout_mode: SrsV2CoeffLayoutMode::CompactV1,
        ..Default::default()
    };
    let pl_legacy = intra_payload(&seq, &yuv, 0, qp, &st_legacy, None, None).unwrap();
    assert_eq!(pl_legacy[3], 3);
    let pl_compact = intra_payload(&seq, &yuv, 0, qp, &st_compact, None, None).unwrap();
    assert_eq!(pl_compact[3], 32);
    let dec_l = decode_intra(&seq, &pl_legacy).unwrap();
    let dec_c = decode_intra(&seq, &pl_compact).unwrap();
    assert_eq!(dec_l.yuv.y.samples, dec_c.yuv.y.samples);
    assert_eq!(dec_l.yuv.u.samples, dec_c.yuv.u.samples);
    assert_eq!(dec_l.yuv.v.samples, dec_c.yuv.v.samples);
}

#[test]
fn fr2_intra_revisions_1_3_7_29_still_decode_via_dispatcher() {
    let seq = seq64(0);
    let yuv = flat_rgb(64, 110);
    let qp = 23_u8;
    let deltas = SrsV2EncodeSettings {
        block_aq_mode: SrsV2BlockAqMode::BlockDelta,
        ..Default::default()
    };
    let contexts = SrsV2EncodeSettings {
        residual_context_mode: SrsV2ResidualContextMode::ContextV1,
        ..Default::default()
    };
    let payloads = [
        intra_payload(&seq, &yuv, 1, qp, &explicit_only_settings(), None, None).unwrap(),
        intra_payload(&seq, &yuv, 2, qp, &SrsV2EncodeSettings::default(), None, None).unwrap(),
        intra_payload(&seq, &yuv, 3, qp, &deltas, None, None).unwrap(),
        intra_payload(&seq, &yuv, 4, qp, &contexts, None, None).unwrap(),
    ];
    assert_eq!(payloads[0][3], 1);
    assert_eq!(payloads[1][3], 3);
    assert_eq!(payloads[2][3], 7);
    assert_eq!(payloads[3][3], 29);
    let mut slot = None::<YuvFrame>;
    for pl in &payloads {
        decode_any(&seq, pl, &mut slot).unwrap();
    }
}

#[test]
fn intra_payloads_are_exact() {
    let seq = seq64(0);
    let yuv = flat_rgb(64, 90);
    let payload = intra_payload(&seq, &yuv, 7, 24, &explicit_only_settings(), None, None).unwrap();
    for k in [0, 3, 20, 21, 40, payload.len() - 1] {
        assert!(matches!(decode_intra(&seq, &payload[..k]), Err(SrsV2Error::Truncated)));
    }
    let mut long = payload.clone();
    long.push(0);
    assert!(matches!(
        decode_intra(&seq, &long),
        Err(SrsV2Error::Syntax("trailing frame bytes"))
    ));
}

#[test]
fn bidirectional_payloads_are_exact() {
    let seq = seq_b(16, 16);
    let (a, b) = (flat_yuv(16, 16, 40), flat_yuv(16, 16, 80));
    let cur = flat_yuv(16, 16, 60);
    let mut mgr = SrsV2ReferenceManager::new(2).unwrap();
    mgr.store_alt_ref_at(0, 0, a.clone()).unwrap();
    mgr.store_alt_ref_at(1, 9, b.clone()).unwrap();
    let mut payload =
        b_payload(&seq, &cur, &a, &b, 5, 28, 0, 1, BBlendModeWire::Average, false).unwrap();
    assert_eq!(decode_b(&seq, &payload, &mgr).unwrap().frame_index, 5);
    payload.push(0);
    assert!(matches!(
        decode_b(&seq, &payload, &mgr),
        Err(SrsV2Error::Syntax("trailing B-frame bytes"))
    ));
}

#[test]
fn hidden_references_are_stored_filtered() {
    let filtered = VideoSequenceHeaderV2 {
        disable_loop_filter: false,
        deblock_strength: 41,
        ..seq64(2)
    };
    let mut yuv = flat_rgb(64, 90);
    for (i, s) in yuv.y.samples.iter_mut().enumerate() {
        if i % 64 >= 16 {
            *s += 6;
        }
    }
    let planes = vec![
        intra_plane_bytes(&yuv.y, 8),
        intra_plane_bytes(&yuv.u, 8),
        intra_plane_bytes(&yuv.v, 8),
    ];
    let payload = encode_yuv420_alt_ref_payload(&filtered, &yuv, 4, 8, 1, &planes).unwrap();
    let decode = |seq: &VideoSequenceHeaderV2| {
        let mut mgr = SrsV2ReferenceManager::new(2).unwrap();
        let dec = decode_managed(seq, &payload, &mut mgr).unwrap();
        let stored = mgr.frame_at_slot_index(1).unwrap().y.samples.clone();
        assert_eq!(stored, dec.yuv.y.samples);
        stored
    };
    assert_ne!(decode(&filtered), decode(&seq64(2)));
}

fn delta_settings() -> SrsV2EncodeSettings {
    SrsV2EncodeSettings {
        residual_entropy: ResidualEntropy::Auto,
        block_aq_mode: SrsV2BlockAqMode::BlockDelta,
        keyframe_interval: 30,
        ..Default::default()
    }
}

#[test]
fn p_rev8_block_aq_roundtrips() {
    let seq = seq64(1);
    let yuv = flat_rgb(64, 120);
    let st = delta_settings();
    let intra = intra_payload(&seq, &yuv, 0, 26, &st, None, None).unwrap();
    let mut slot = None;
    decode_any(&seq, &intra, &mut slot).unwrap();
    let p = inter_payload(&seq, &yuv, slot.as_ref(), 1, 26, &st, None, None, None).unwrap();
    assert_eq!(p[3], 8);
    slot = None;
    decode_any(&seq, &intra, &mut slot).unwrap();
    decode_any(&seq, &p, &mut slot).unwrap();
}

#[test]
fn p_rev9_block_aq_half_pel_roundtrips() {
    let seq = seq64(1);
    let yuv = flat_rgb(64, 130);
    let st = SrsV2EncodeSettings { subpel_mode: SrsV2SubpelMode::HalfPel, ..delta_settings() };
    let intra = intra_payload(&seq, &yuv, 0, 26, &st, None, None).unwrap();
    let mut slot = None;
    decode_any(&seq, &intra, &mut slot).unwrap();
    let p = inter_payload(&seq, &yuv, slot.as_ref(), 1, 26, &st, None, None, None).unwrap();
    assert_eq!(p[3], 9);
    slot = None;
    decode_any(&seq, &intra, &mut slot).unwrap();
    decode_any(&seq, &p, &mut slot).unwrap();
}

/// A flat picture and one with detail in its first sub-block.
fn flat_and_busy() -> (YuvFrame, YuvFrame) {
    let flat = flat_yuv(16, 16, 100);
    let mut busy = flat.clone();
    for y in 0..8 {
        for x in 0..8 {
            busy.y.samples[y * 16 + x] = if (x + y) % 2 == 0 { 60 } else { 140 };
        }
    }
    (flat, busy)
}

#[test]
fn block_deltas_stand_in_front_of_their_chunks() {
    let seq = seq_inter16();
    let (flat, busy) = flat_and_busy();
    let st = SrsV2EncodeSettings {
        min_qp: 10,
        max_qp: 40,
        aq_strength: 4,
        motion_search_radius: 0,
        adaptive_quantization_mode: SrsV2AdaptiveQuantizationMode::Off,
        ..delta_settings()
    };
    let mut aq = SrsV2AqEncodeStats::default();
    let p = inter_payload(&seq, &busy, Some(&flat), 1, 26, &st, None, None, Some(&mut aq)).unwrap();
    assert!(aq.block_wire.block_aq_enabled);
    assert_eq!(&p[..11], &[70, 82, 50, 8, 1, 0, 0, 0, 26, 10, 40]);
    // Vector, skip bits of three sub-blocks, then one chunk of a delta and 128 bytes.
    assert_eq!(&p[11..20], &[0, 0, 0, 0, 14, 129, 0, 0, 0]);
    assert_eq!(p[20] as i8, -6);
    assert_eq!(p.len(), 149);
    let parse = parse_p_payload(&seq, &p, &flat).unwrap();
    assert!(matches!(
        parse.blocks[0],
        Some(ResidualJob::Entropy { start: 21, end: 149, qp: 20 })
    ));
    assert_eq!(decode_p(&seq, &p, &flat).unwrap().frame_index, 1);

    let with = |at: usize, v: u8| {
        let mut q = p.clone();
        q[at] = v;
        parse_p_payload(&seq, &q, &flat)
    };
    let fault = |at: usize, v: u8| with(at, v).unwrap().fault;
    assert!(matches!(fault(20, 25), Some(SrsV2Error::Syntax("qp_delta out of wire range"))));
    assert!(matches!(fault(20, 231), Some(SrsV2Error::Syntax("qp_delta out of wire range"))));
    assert!(fault(20, 24).is_none());
    assert!(fault(20, 232).is_none());
    assert!(matches!(fault(16, 0), Some(SrsV2Error::Truncated)));
    assert!(matches!(with(9, 41), Err(SrsV2Error::Syntax("invalid qp clip range"))));
    assert!(matches!(parse_p_payload(&seq, &p[..10], &flat), Err(SrsV2Error::Truncated)));
    let rev9 = with(3, 9).unwrap();
    assert!(rev9.fault.is_some());
    let mut long = p.clone();
    long.push(0);
    assert!(matches!(
        decode_p(&seq, &long, &flat),
        Err(SrsV2Error::Syntax("trailing P-frame bytes"))
    ));
}

#[test]
fn block_deltas_that_the_wire_cannot_carry_are_refused() {
    let seq = seq_inter16();
    let (flat, busy) = flat_and_busy();
    let st = SrsV2EncodeSettings { aq_strength: 255, min_block_qp_delta: -25, ..delta_settings() };
    assert!(matches!(
        p_payload(&seq, &busy, &flat, 1, 26, &st, None, None),
        Err(SrsV2Error::Syntax("qp_delta out of wire range"))
    ));
    let st = SrsV2EncodeSettings { max_qp: 52, ..delta_settings() };
    assert!(matches!(
        p_payload(&seq, &busy, &flat, 1, 26, &st, None, None),
        Err(SrsV2Error::Syntax("invalid qp clip range"))
    ));
    let st = SrsV2EncodeSettings { residual_entropy: ResidualEntropy::Explicit, ..st };
    assert_eq!(p_payload(&seq, &busy, &flat, 1, 26, &st, None, None).unwrap()[3], 2);
}
