use lib::cabac::CabacMbType;
use lib::inter_pred::SliceType;
use lib::macroblock::{BMbType, IMbType, PMbType};
use lib::bitreader::BitReader;
use lib::cabac::{
    decode_signed_mapping, get_syntax_element_properties, BinarizationType, CabacContext,
    CtxIncParams, SyntaxElement,
};
use lib::macroblock::NeighborMb;

/// Context initialisation values that leave every context at state 62,
/// MPS 0 (`preCtxState` clamps to 1).
fn zero_table() -> Vec<(i8, i8)> {
    vec![(0, 0); 1024]
}

#[test]
fn test_cabac_init() {
    let data = [0u8; 10]; // enough zeros
    let reader = BitReader::new(&data);
    let ctx = CabacContext::new(reader, 26, &zero_table());
    assert!(ctx.is_ok());
}

/// Verify that bits read through a CabacContext come in the same order as
/// a plain `reader.u(1)` stream.
#[test]
fn test_bit_buffer_matches_reader() {
    // Mix of byte boundaries and varied bit patterns.
    let data = [0xAB, 0xCD, 0xEF, 0x01, 0x23, 0x45, 0x67, 0x89, 0xFE, 0xDC];

    // Reference: read 1 bit at a time from the underlying reader.
    let mut ref_reader = BitReader::new(&data);
    let mut ref_bits: Vec<u32> = Vec::new();
    for _ in 0..(data.len() * 8) {
        ref_bits.push(ref_reader.u(1).unwrap());
    }

    // Under test: read through the CabacContext, mixing read sizes (9
    // then 1s then 7 then 3, covering boundary cases).
    let reader = BitReader::new(&data);
    let mut ctx = CabacContext::new_unprimed(reader, 26, &zero_table());

    let mut got_bits: Vec<u32> = Vec::new();
    let sizes = [9u32, 1, 1, 1, 7, 3, 1, 8];
    for &n in &sizes {
        let v = ctx.read_bits(n).expect("read_bits failed on opening reads");
        for i in (0..n).rev() {
            got_bits.push((v >> i) & 1);
        }
    }
    while got_bits.len() < 70 {
        let v = ctx.read_bits(1).unwrap_or_else(|e| {
            panic!("read_bits(1) failed at got_bits.len={}: {}", got_bits.len(), e)
        });
        got_bits.push(v);
    }

    assert_eq!(
        got_bits,
        ref_bits[..got_bits.len()],
        "bit buffer decoded a different bit sequence than reader.u(1)*N"
    );
}

/// `decode_bypass_bits(n)` must produce the same bin sequence as calling
/// `decode_bypass()` in a loop `n` times, and leave the same offset.
#[test]
fn test_decode_bypass_bits_matches_loop() {
    let data = [0xAB, 0xCD, 0xEF, 0x01, 0x23, 0x45, 0x67, 0x89];
    let table = zero_table();

    // Reference: call decode_bypass() n times, packing MSB-first.
    let mut ref_ctx = CabacContext::new(BitReader::new(&data), 26, &table).expect("init");
    let n: u32 = 7;
    let mut ref_packed = 0u32;
    for _ in 0..n {
        ref_packed = (ref_packed << 1) | u32::from(ref_ctx.decode_bypass().unwrap());
    }

    // Under test.
    let mut test_ctx = CabacContext::new(BitReader::new(&data), 26, &table).expect("init");
    let got_packed = test_ctx.decode_bypass_bits(n).unwrap();

    assert_eq!(got_packed, ref_packed, "bins differ");
    assert_eq!(
        test_ctx.offset(),
        ref_ctx.offset(),
        "offset state diverged between batched and per-bit bypass"
    );
}

#[test]
fn engine_start_rejects_offsets_510_and_511() {
    // First nine bits 1111 1111 0 = 510 and 1111 1111 1 = 511.
    assert!(CabacContext::new(BitReader::new(&[0xFF, 0x00]), 26, &zero_table()).is_err());
    assert!(CabacContext::new(BitReader::new(&[0xFF, 0x80]), 26, &zero_table()).is_err());
    // Fewer than nine bits.
    assert!(CabacContext::new(BitReader::new(&[0x00]), 26, &zero_table()).is_err());
}

#[test]
fn terminate_bin_ends_the_slice_at_the_top_of_the_range() {
    // codIOffset = 1111 1110 0 = 508 = codIRange - 2: the terminating bin is 1.
    let mut ctx = CabacContext::new(BitReader::new(&[0xFE, 0x00, 0x00]), 26, &zero_table()).unwrap();
    assert_eq!(ctx.decode_terminate(), Ok(true));
    // codIOffset = 0: the terminating bin is 0 and decoding goes on.
    let mut ctx = CabacContext::new(BitReader::new(&[0x00, 0x00, 0x00]), 26, &zero_table()).unwrap();
    assert_eq!(ctx.decode_terminate(), Ok(false));
    assert_eq!(ctx.decode_bypass(), Ok(0));
}

#[test]
fn decode_bin_on_zeros_gives_the_most_probable_symbol() {
    // Every context starts with MPS 0; an offset of 0 always stays below
    // the MPS sub-range.
    let data = [0u8; 16];
    let mut ctx = CabacContext::new(BitReader::new(&data), 26, &zero_table()).unwrap();
    for idx in [0usize, 11, 60, 399, 1023] {
        assert_eq!(ctx.decode_bin(idx), Ok(0));
    }
    assert_eq!(ctx.parse_sub_mb_type_p(), Ok(lib::macroblock::SubMbType::P_L0_8x4));
    assert_eq!(ctx.parse_unary_bin(SyntaxElement::MbQpDelta, CtxIncParams::Standard(0)), Ok(0));
    assert_eq!(
        ctx.parse_ueg_k(SyntaxElement::Mvd(0, 0), CtxIncParams::Standard(0)),
        Ok(0)
    );
}

#[test]
fn decoding_past_the_end_fails() {
    // Two bytes: nine bits start the engine, seven are left.
    let mut ctx = CabacContext::new(BitReader::new(&[0x00, 0x00]), 26, &zero_table()).unwrap();
    for _ in 0..7 {
        assert_eq!(ctx.decode_bypass(), Ok(0));
    }
    assert!(ctx.decode_bypass().is_err());
}

#[test]
fn signed_mapping_alternates_signs() {
    let got: Vec<i32> = (0..7).map(decode_signed_mapping).collect();
    assert_eq!(got, vec![0, 1, -1, 2, -2, 3, -3]);
}

#[test]
fn syntax_element_table_offsets() {
    let offsets: Vec<u32> = (0..6)
        .map(|cat| get_syntax_element_properties(SyntaxElement::CodedBlockFlag(cat)).ctx_idx_offset)
        .collect();
    assert_eq!(offsets, vec![85, 89, 93, 97, 101, 1012]);
    let sig = |cat| get_syntax_element_properties(SyntaxElement::SignificantCoeffFlag(cat)).ctx_idx_offset;
    assert_eq!((sig(0), sig(2), sig(4), sig(5)), (105, 134, 152, 402));
    let last = |cat| get_syntax_element_properties(SyntaxElement::LastSignificantCoeffFlag(cat)).ctx_idx_offset;
    assert_eq!((last(1), last(3), last(5)), (181, 210, 417));
    let abs = |cat| get_syntax_element_properties(SyntaxElement::CoeffAbsLevelMinus1(cat)).ctx_idx_offset;
    assert_eq!((abs(0), abs(3), abs(4), abs(5)), (227, 257, 266, 426));
    let mvd = get_syntax_element_properties(SyntaxElement::Mvd(1, 1));
    assert_eq!(mvd.ctx_idx_offset, 47);
    assert_eq!(mvd.binarization, BinarizationType::UEGk { k: 3, signed_val_flag: true, u_coff: 9 });
    assert_eq!(get_syntax_element_properties(SyntaxElement::EndOfSliceFlag).ctx_idx_offset, 276);
}

#[test]
fn context_increments() {
    assert_eq!(CabacContext::get_ctx_idx_inc_sig_coeff_flag(3, 5), 2);
    assert_eq!(CabacContext::get_ctx_idx_inc_sig_coeff_flag(2, 9), 9);
    assert_eq!(CabacContext::get_ctx_idx_inc_sig_coeff_flag(5, 10), 3);
    assert_eq!(CabacContext::get_ctx_idx_inc_last_sig_coeff_flag(5, 20), 2);
    assert_eq!(CabacContext::get_ctx_idx_inc_last_sig_coeff_flag(5, 62), 8);
    assert_eq!(CabacContext::get_ctx_idx_inc_abs_level(0, 0, 0, 5), 4);
    assert_eq!(CabacContext::get_ctx_idx_inc_abs_level(0, 0, 2, 0), 0);
    assert_eq!(CabacContext::get_ctx_idx_inc_abs_level(3, 1, 7, 0), 8);
    assert_eq!(CabacContext::get_ctx_idx_inc_abs_level(1, 2, 7, 0), 9);
    let skipped = NeighborMb { skipped: true, ..Default::default() };
    let coded = NeighborMb { cbp_luma: 3, mb_qp_delta: -2, ..Default::default() };
    assert_eq!(CabacContext::get_ctx_idx_inc_mb_skip_flag(Some(skipped), Some(coded)), 1);
    assert_eq!(CabacContext::get_ctx_idx_inc_mb_skip_flag(None, Some(coded)), 1);
    assert_eq!(CabacContext::get_ctx_idx_inc_mb_qp_delta(5, 0, Some(coded)), 1);
    assert_eq!(CabacContext::get_ctx_idx_inc_mb_qp_delta(5, 5, Some(coded)), 0);
    assert_eq!(CabacContext::get_ctx_idx_inc_mb_qp_delta(5, 0, Some(skipped)), 0);
    let no_cbp = NeighborMb { mb_qp_delta: 4, ..Default::default() };
    assert_eq!(CabacContext::get_ctx_idx_inc_mb_qp_delta(5, 0, Some(no_cbp)), 0);
    let intra16 = NeighborMb { intra_16x16: true, mb_qp_delta: 4, ..Default::default() };
    assert_eq!(CabacContext::get_ctx_idx_inc_mb_qp_delta(5, 0, Some(intra16)), 1);
}

#[test]
fn macroblock_header_reads_skip_flag_then_type() {
    let data = [0u8; 16];
    let mut ctx = CabacContext::new(BitReader::new(&data), 26, &zero_table()).unwrap();
    assert_eq!(
        ctx.parse_mb_header(SliceType::P, false, None, None),
        Ok(Some(CabacMbType::P(PMbType::P_L0_16x16)))
    );
    let mut ctx = CabacContext::new(BitReader::new(&data), 26, &zero_table()).unwrap();
    assert_eq!(
        ctx.parse_mb_header(SliceType::I, false, None, None),
        Ok(Some(CabacMbType::I(IMbType::I_NxN)))
    );
    let mut ctx = CabacContext::new(BitReader::new(&data), 26, &zero_table()).unwrap();
    assert_eq!(
        ctx.parse_mb_header(SliceType::B, false, None, None),
        Ok(Some(CabacMbType::B(BMbType::B_Direct_16x16)))
    );
}

#[test]
fn macroblock_header_of_a_skipped_macroblock_is_none() {
    // An offset of 508 lies in the LPS sub-range: the skip flag is 1.
    let data = [0xFEu8, 0, 0, 0, 0, 0, 0, 0];
    let mut ctx = CabacContext::new(BitReader::new(&data), 26, &zero_table()).unwrap();
    assert_eq!(ctx.parse_mb_header(SliceType::P, false, None, None), Ok(None));
}

#[test]
fn macroblock_header_refuses_mbaff_and_si() {
    let data = [0u8; 16];
    let mut ctx = CabacContext::new(BitReader::new(&data), 26, &zero_table()).unwrap();
    assert_eq!(
        ctx.parse_mb_header(SliceType::P, true, None, None),
        Err("MBAFF (mb_adaptive_frame_field) is not supported".to_string())
    );
    assert_eq!(
        ctx.parse_mb_header(SliceType::SI, false, None, None),
        Err("SI slice decoding is not supported".to_string())
    );
}
