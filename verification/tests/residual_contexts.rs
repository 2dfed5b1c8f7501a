//! Contexts of coefficient symbols, with a token layer and a stand-in for the entropy coder.
use libsrs::srsv2::dct::ZIGZAG;
use libsrs::srsv2::residual_context_entropy::{
    classify_activity, decode_residual_context_v1_block, encode_residual_context_v1_block,
    parse_residual_context_v1_block, plan_residual_context_v1_block, BlockActivityContext,
    CoeffBandContext, MagnitudeContext, NeighborResidualContext, ResidualAlphabet,
    ResidualContextEntropyError, ResidualContextId, ResidualContextModel, ResidualPlane,
    ZeroRunContext, NUM_CONTEXT_SLOTS,
};

fn value_of(z: usize) -> i16 {
    if z % 2 == 1 {
        (z as i16 + 1) / 2
    } else {
        -(z as i16 / 2)
    }
}

fn alphabet() -> ResidualAlphabet {
    let mut values = vec![None];
    for z in 1..255 {
        values.push(Some(value_of(z)));
    }
    ResidualAlphabet { eob: 0, values, max_symbols: 127 }
}

fn tokens(q: &[i16; 64]) -> Vec<usize> {
    let mut out = Vec::new();
    let mut run = 0;
    for zi in 1..64 {
        let v = q[ZIGZAG[zi]];
        if v == 0 {
            run += 1;
            continue;
        }
        if run > 0 {
            out.push(run);
            run = 0;
        }
        let z = if v > 0 { 2 * v as usize - 1 } else { 2 * (-v) as usize };
        out.push(62 + z);
    }
    out.push(0);
    out
}

fn coefficients(symbols: &[usize], dc: i16) -> [i16; 64] {
    let mut q = [0_i16; 64];
    q[0] = dc;
    let mut zi = 1;
    for &s in symbols {
        if s == 0 {
            break;
        }
        if s < 63 {
            zi += s;
        } else {
            q[ZIGZAG[zi]] = value_of(s - 62);
            zi += 1;
        }
    }
    q
}

fn coded(symbols: &[usize]) -> Vec<u8> {
    symbols.iter().flat_map(|&s| (s as u16).to_le_bytes()).collect()
}

fn decoded(payload: &[u8]) -> Vec<usize> {
    payload.chunks_exact(2).map(|c| u16::from_le_bytes([c[0], c[1]]) as usize).collect()
}

fn encode(plane: ResidualPlane, left: bool, above: bool, q: &[i16; 64]) -> Vec<u8> {
    let symbols = tokens(q);
    let contexts =
        plan_residual_context_v1_block(&alphabet(), plane, left, above, q, &symbols).unwrap();
    encode_residual_context_v1_block(&contexts, &coded(&symbols)).0
}

fn decode(
    plane: ResidualPlane,
    left: bool,
    above: bool,
    blob: &[u8],
    dc: i16,
) -> Result<[i16; 64], ResidualContextEntropyError> {
    let a = alphabet();
    let parts = parse_residual_context_v1_block(a.max_symbols, blob)?;
    let symbols = decoded(&parts.payload);
    let q = coefficients(&symbols, dc);
    decode_residual_context_v1_block(
        &a,
        plane,
        left,
        above,
        blob.len(),
        &parts.contexts,
        &symbols,
        &q,
        &tokens(&q),
    )?;
    Ok(q)
}

fn rt_block(plane: ResidualPlane, left: bool, above: bool, q: &[i16; 64]) -> [i16; 64] {
    decode(plane, left, above, &encode(plane, left, above, q), q[0]).unwrap()
}

#[test]
fn all_zero_block_roundtrip() {
    let mut q = [0_i16; 64];
    q[0] = 11;
    let out = rt_block(ResidualPlane::Y, false, false, &q);
    assert_eq!(out, q);
}

#[test]
fn dc_only_block_roundtrip() {
    let mut q = [0_i16; 64];
    q[0] = -50;
    let out = rt_block(ResidualPlane::U, false, true, &q);
    assert_eq!(out, q);
}

#[test]
fn sparse_ac_block_roundtrip() {
    let mut q = [0_i16; 64];
    q[0] = 3;
    q[ZIGZAG[3]] = -1;
    q[ZIGZAG[10]] = 4;
    let out = rt_block(ResidualPlane::V, true, false, &q);
    assert_eq!(out, q);
}

#[test]
fn dense_noisy_block_roundtrip() {
    let mut q = [0_i16; 64];
    q[0] = 5;
    let mut zi = 1;
    while zi < 64 {
        q[ZIGZAG[zi]] = (((zi * 13) % 17) as i16).saturating_sub(8).clamp(-127, 127);
        zi += 1;
    }
    let out = rt_block(ResidualPlane::Y, true, true, &q);
    assert_eq!(out, q);
}

#[test]
fn flat_plane_context_roundtrip() {
    let mut q = [0_i16; 64];
    q[0] = 1;
    q[ZIGZAG[1]] = 2;
    assert_eq!(classify_activity(&q), BlockActivityContext::Flat);
    let out = rt_block(ResidualPlane::Y, false, false, &q);
    assert_eq!(out, q);
}

#[test]
fn edge_plane_context_roundtrip() {
    let mut q = [0_i16; 64];
    q[0] = 0;
    for zi in 1..12 {
        q[ZIGZAG[zi]] = ((zi % 5) as i16).saturating_sub(2);
    }
    assert_eq!(classify_activity(&q), BlockActivityContext::Edge);
    let out = rt_block(ResidualPlane::U, false, true, &q);
    assert_eq!(out, q);
}

#[test]
fn invalid_context_slot_in_blob_fails() {
    let mut q = [0_i16; 64];
    q[ZIGZAG[1]] = 3;
    let mut blob = encode(ResidualPlane::Y, false, false, &q);
    assert!(blob.len() > 2);
    blob[2] = NUM_CONTEXT_SLOTS as u8;
    let err = decode(ResidualPlane::Y, false, false, &blob, 0).unwrap_err();
    match err {
        ResidualContextEntropyError::InvalidContextSlot(s, _) => {
            assert_eq!(s, NUM_CONTEXT_SLOTS as u8)
        }
        e => panic!("unexpected {e:?}"),
    }
}

#[test]
fn symbol_budget_header_enforced() {
    let mut blob = vec![0xff_u8, 0x01];
    blob.resize(2 + 0x1ff + 8, 0);
    let err = decode(ResidualPlane::Y, false, false, &blob, 0).unwrap_err();
    match err {
        ResidualContextEntropyError::SymbolBudget { .. } => {}
        e => panic!("unexpected {e:?}"),
    }
}

#[test]
fn deterministic_encode_same_input() {
    let mut q = [0_i16; 64];
    q[ZIGZAG[5]] = -20;
    q[ZIGZAG[30]] = 11;
    let a = encode(ResidualPlane::V, true, false, &q);
    let b = encode(ResidualPlane::V, true, false, &q);
    assert_eq!(a, b);
}

#[test]
fn side_info_mismatch_rejected() {
    let mut q = [0_i16; 64];
    q[ZIGZAG[1]] = 4;
    let blob = encode(ResidualPlane::Y, false, false, &q);
    let err = decode(ResidualPlane::Y, true, false, &blob, 0).unwrap_err();
    match err {
        ResidualContextEntropyError::Entropy(msg) => {
            assert!(msg.contains("mismatch"));
        }
        e => panic!("unexpected {e:?}"),
    }
}

#[test]
fn slots_mix_all_parts_of_a_context() {
    let id = ResidualContextId {
        plane: ResidualPlane::V,
        activity: BlockActivityContext::Textured,
        band: CoeffBandContext::HighAc,
        zero_run: ZeroRunContext::Long,
        magnitude: MagnitudeContext::Large,
        neighbor: NeighborResidualContext::Both,
    };
    // ((((2 * 31 + 2) * 31 + 3) * 17 + 2) * 19 + 4) * 23 + 3 = 14762392
    assert_eq!(id.to_slot(), (14_762_392_u32 % 128) as u8);
    assert!(ResidualContextId::try_from_slot(5).is_none());
    assert!(ResidualContextId::try_from_slot(200).is_none());
}

#[test]
fn truncated_blobs_and_bad_symbols_are_refused() {
    let a = alphabet();
    assert_eq!(
        parse_residual_context_v1_block(a.max_symbols, &[1]).unwrap_err(),
        ResidualContextEntropyError::Entropy("truncated v1 header")
    );
    assert_eq!(
        parse_residual_context_v1_block(a.max_symbols, &[0, 0]).unwrap_err(),
        ResidualContextEntropyError::InvalidSymbols
    );
    assert_eq!(
        parse_residual_context_v1_block(a.max_symbols, &[3, 0, 1]).unwrap_err(),
        ResidualContextEntropyError::Entropy("truncated context bytes")
    );
    let q = [0_i16; 64];
    let err = plan_residual_context_v1_block(&a, ResidualPlane::Y, false, false, &q, &[317]);
    assert_eq!(err.unwrap_err(), ResidualContextEntropyError::InvalidSymbols);
    let long = plan_residual_context_v1_block(&a, ResidualPlane::Y, false, false, &q, &[62, 62]);
    assert_eq!(long.unwrap_err(), ResidualContextEntropyError::InvalidSymbols);
}

#[test]
fn tables_add_up_to_the_scale() {
    let model = ResidualContextModel::new(4096);
    assert_eq!(model.slots.len(), 128);
    for (s, table) in model.slots.iter().enumerate() {
        assert_eq!(table.len(), 317);
        assert_eq!(table.iter().sum::<u32>(), 4096);
        assert_eq!(table[0], 200 - (s as u32 % 17 + 1));
    }
}
