//! Contexts of compact motion vector bytes.
use libsrs::srsv2::context_inter_entropy::{
    close_mv_context_blob, mv_context_freqs, mv_fixed_grid_compact_contexts,
    mv_partitioned_compact_contexts, open_mv_context_blob,
    rans_encode_mv_bytes_context_v1, MvFixedCtxParse, MvPartitionCtxParse,
};
use libsrs::srsv2::error::SrsV2Error;
use libsrs::srsv2::inter_mv::{
    encode_mv_grid_compact, encode_mv_stream_partitioned, P_PART_WIRE_16X16, P_PART_WIRE_8X8,
};

#[test]
fn context_encode_rejects_invalid_context_id() {
    let compact = vec![0_u8, 1_u8];
    let bad_ctx = vec![16_u8, 0_u8];
    let err = rans_encode_mv_bytes_context_v1(&compact, &bad_ctx, Some(vec![])).unwrap_err();
    assert!(matches!(err, SrsV2Error::Syntax(_)));
}

#[test]
fn coder_results_are_handed_on() {
    assert_eq!(
        rans_encode_mv_bytes_context_v1(&[1, 2], &[0, 15], Some(vec![7])).unwrap(),
        vec![7]
    );
    assert!(matches!(
        rans_encode_mv_bytes_context_v1(&[1, 2], &[0, 15], None),
        Err(SrsV2Error::Syntax("MV context rANS encode"))
    ));
    assert!(matches!(
        rans_encode_mv_bytes_context_v1(&[1], &[0, 15], Some(vec![7])),
        Err(SrsV2Error::Syntax("MV context length mismatch"))
    ));
}

#[test]
fn decoder_selects_the_contexts_of_a_grid() {
    let mvs = vec![(4, 0), (8, 0), (200, -4), (16, 40)];
    let compact = encode_mv_grid_compact(&mvs, 2, 2);
    let contexts = mv_fixed_grid_compact_contexts(&compact, 2, 2).unwrap();
    assert_eq!(contexts.len(), compact.len());
    let mut parse = MvFixedCtxParse::new(2, 2);
    for (b, c) in compact.iter().zip(&contexts) {
        assert_eq!(parse.peek_context(), *c);
        parse.push_symbol_byte(*b).unwrap();
    }
    assert_eq!(parse.mb_left, 0);
    // The first pair of differences is (4, 0): class 1 for x, class 0 for y.
    assert_eq!(contexts[0], 0);
    assert_eq!(contexts[2], 4);
}

#[test]
fn decoder_selects_the_contexts_of_a_partitioned_stream() {
    let parts = vec![P_PART_WIRE_16X16, P_PART_WIRE_8X8];
    let mvs = vec![(0, 0), (8, 0), (0, 8), (8, 8), (4, -4)];
    let compact = encode_mv_stream_partitioned(2, 1, &parts, &mvs).unwrap();
    let contexts = mv_partitioned_compact_contexts(&compact, 2, 1, &parts).unwrap();
    let mut parse = MvPartitionCtxParse::new(2, 1, &parts).unwrap();
    for (b, c) in compact.iter().zip(&contexts) {
        assert_eq!(parse.peek_context(), *c);
        parse.push_symbol_byte(*b).unwrap();
    }
    assert_eq!(parse.mb, 2);
}

#[test]
fn streams_that_do_not_fit_are_refused() {
    assert!(matches!(
        mv_fixed_grid_compact_contexts(&[0, 0, 0], 1, 1),
        Err(SrsV2Error::Syntax("MV compact/context labeling mismatch"))
    ));
    assert!(matches!(mv_fixed_grid_compact_contexts(&[0], 1, 1), Err(SrsV2Error::Truncated)));
    assert!(matches!(
        mv_partitioned_compact_contexts(&[0, 0], 1, 1, &[9]),
        Err(SrsV2Error::Syntax("P partition reserved bits"))
    ));
    assert!(matches!(
        mv_partitioned_compact_contexts(&[0, 0], 1, 1, &[]),
        Err(SrsV2Error::Syntax("partition map length mismatch"))
    ));
}

#[test]
fn tables_of_contexts_add_up() {
    for ctx in 0..16 {
        let f = mv_context_freqs(4096, ctx);
        assert_eq!(f.len(), 256);
        assert_eq!(f.iter().sum::<u32>(), 4096);
    }
    // 4096 - 255 * 14 = 526; context 3 moves 33 of it.
    assert_eq!(mv_context_freqs(4096, 3)[0], 526 - 33);
    assert_eq!(mv_context_freqs(4096, 3)[1], 14 + 33);
}

#[test]
fn vector_blobs_are_opened_and_used_up() {
    assert!(matches!(open_mv_context_blob(&[1, 2, 3]), Err(SrsV2Error::Truncated)));
    assert_eq!(open_mv_context_blob(&[1, 2, 3, 4, 5]).unwrap(), 0x0403_0201);
    let blob = [1, 2, 3, 4, 5];
    assert_eq!(close_mv_context_blob(&blob, 5, vec![9]).unwrap(), vec![9]);
    assert!(matches!(
        close_mv_context_blob(&blob, 4, vec![9]),
        Err(SrsV2Error::Syntax("trailing rANS bytes"))
    ));
}
