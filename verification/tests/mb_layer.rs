use lib::bitreader::BitReader;
use lib::cavlc::{
    parse_b_macroblock, parse_macroblock, parse_p_macroblock, parse_slice_data_cavlc, skip_macroblock,
    MbLayerInputs,
};
use lib::inter_pred::SliceType;
use lib::macroblock::{
    BMbType, BSubMbType, IMbType, Macroblock, MotionVector, PMbType, PartitionInfo, SubMbType,
};

/// Bytes of a string of bits ('0', '1'; spaces ignored), padded with zero
/// bits to a whole byte.
fn bits(s: &str) -> Vec<u8> {
    let mut out = Vec::new();
    let mut cur = 0u8;
    let mut n = 0;
    for c in s.chars().filter(|c| *c == '0' || *c == '1') {
        cur = (cur << 1) | if c == '1' { 1 } else { 0 };
        n += 1;
        if n == 8 {
            out.push(cur);
            cur = 0;
            n = 0;
        }
    }
    if n > 0 {
        out.push(cur << (8 - n));
    }
    out
}

fn ctx(l0: u32, l1: u32) -> MbLayerInputs {
    MbLayerInputs {
        num_ref_idx_l0_active_minus1: l0,
        num_ref_idx_l1_active_minus1: l1,
        transform_8x8_mode: false,
        chroma_subsampled: true,
    }
}

fn mv(x: i16, y: i16) -> MotionVector {
    MotionVector { x, y }
}

#[test]
fn p_16x16_reads_one_mvd_and_an_empty_pattern() {
    // mvd (1, -1), coded_block_pattern code 0 (pattern 0).
    let data = bits("010 011 1 1");
    let mut r = BitReader::new(&data);
    let mb = parse_p_macroblock(&mut r, &ctx(0, 0), None, None, PMbType::P_L0_16x16).unwrap();
    assert_eq!(r.position(), 7);
    match mb {
        Macroblock::P(p) => {
            assert_eq!(p.mb_type, PMbType::P_L0_16x16);
            assert_eq!(p.pred_syntax.parts[0][0].mvd_l0, mv(1, -1));
            assert_eq!(p.pred_syntax.parts[0][0].ref_idx_l0, 0);
            assert_eq!(p.pred_syntax.parts[1][0], PartitionInfo::default());
            assert_eq!(p.coded_block_pattern.0, 0);
            assert_eq!(p.mb_qp_delta, 0);
            assert!(p.residual.is_none());
        },
        _ => panic!("expected a P macroblock"),
    }
}

#[test]
fn p_16x8_reads_one_bit_reference_indices_before_the_mvds() {
    // Two references with range 1 (inverted bits 0 and 1), mvds (0, 0) and
    // (1, 1), pattern 0.
    let data = bits("0 1 1 1 010 010 1 1");
    let mut r = BitReader::new(&data);
    let mb = parse_p_macroblock(&mut r, &ctx(1, 0), None, None, PMbType::P_L0_L0_16x8).unwrap();
    match mb {
        Macroblock::P(p) => {
            assert_eq!(p.pred_syntax.parts[0][0].ref_idx_l0, 1);
            assert_eq!(p.pred_syntax.parts[1][0].ref_idx_l0, 0);
            assert_eq!(p.pred_syntax.parts[0][0].mvd_l0, mv(0, 0));
            assert_eq!(p.pred_syntax.parts[1][0].mvd_l0, mv(1, 1));
        },
        _ => panic!("expected a P macroblock"),
    }
}

#[test]
fn p_8x8_reads_sub_types_then_a_pair_per_sub_partition() {
    // sub_mb_types 0..=3 (1, 2, 2 and 4 partitions), nine mvd pairs of which
    // the last is (1, -1), pattern 0.
    let data = bits("1 010 011 00100  11 11 11 11 11 11 11 11 010 011  1 1");
    let mut r = BitReader::new(&data);
    let mb = parse_p_macroblock(&mut r, &ctx(0, 0), None, None, PMbType::P_8x8).unwrap();
    match mb {
        Macroblock::P(p) => {
            assert_eq!(
                p.sub_mb_types,
                [SubMbType::P_L0_8x8, SubMbType::P_L0_8x4, SubMbType::P_L0_4x8, SubMbType::P_L0_4x4]
            );
            assert_eq!(p.pred_syntax.parts[3][3].mvd_l0, mv(1, -1));
            assert_eq!(p.pred_syntax.parts[3][2].mvd_l0, mv(0, 0));
            assert_eq!(p.pred_syntax.parts[0][1], PartitionInfo::default());
        },
        _ => panic!("expected a P macroblock"),
    }
}

#[test]
fn p_8x8_sub_type_past_the_table_is_an_error() {
    let data = bits("00101 1 1 1 1");
    let mut r = BitReader::new(&data);
    assert!(parse_p_macroblock(&mut r, &ctx(0, 0), None, None, PMbType::P_8x8).is_err());
}

#[test]
fn p_mvd_past_the_end_is_an_error() {
    let data = bits("010 0000 0000");
    let mut r = BitReader::new(&data);
    assert!(parse_p_macroblock(&mut r, &ctx(0, 0), None, None, PMbType::P_L0_16x16).is_err());
}

#[test]
fn b_bi_16x16_reads_the_list_0_pair_before_the_list_1_pair() {
    // mvd l0 (1, 0), mvd l1 (0, -1), pattern 0.
    let data = bits("010 1 1 011 1 1");
    let mut r = BitReader::new(&data);
    let mb = parse_b_macroblock(&mut r, &ctx(0, 0), None, None, BMbType::B_Bi_16x16).unwrap();
    match mb {
        Macroblock::B(b) => {
            assert_eq!(b.pred_syntax.parts[0][0].mvd_l0, mv(1, 0));
            assert_eq!(b.pred_syntax.parts[0][0].mvd_l1, mv(0, -1));
            assert_eq!(b.coded_block_pattern.0, 0);
        },
        _ => panic!("expected a B macroblock"),
    }
}

#[test]
fn b_8x8_reads_only_the_lists_each_sub_macroblock_uses() {
    // Direct, L0, L1 and Bi sub-macroblocks; list 0 indices for the L0 and
    // Bi ones, list 1 indices for the L1 and Bi ones, then their pairs.
    let data = bits("1 010 011 00100  0 1  1 0  010 010 1 1  011 1 1 010  1 1");
    let mut r = BitReader::new(&data);
    let mb = parse_b_macroblock(&mut r, &ctx(1, 1), None, None, BMbType::B_8x8).unwrap();
    match mb {
        Macroblock::B(b) => {
            assert_eq!(
                b.sub_mb_types,
                [BSubMbType::B_Direct_8x8, BSubMbType::B_L0_8x8, BSubMbType::B_L1_8x8, BSubMbType::B_Bi_8x8]
            );
            assert_eq!(b.pred_syntax.parts[1][0].ref_idx_l0, 1);
            assert_eq!(b.pred_syntax.parts[1][0].mvd_l0, mv(1, 1));
            assert_eq!(b.pred_syntax.parts[3][0].ref_idx_l0, 0);
            assert_eq!(b.pred_syntax.parts[2][0].ref_idx_l1, 0);
            assert_eq!(b.pred_syntax.parts[2][0].mvd_l1, mv(-1, 0));
            assert_eq!(b.pred_syntax.parts[3][0].ref_idx_l1, 1);
            assert_eq!(b.pred_syntax.parts[3][0].mvd_l1, mv(0, 1));
            assert_eq!(b.pred_syntax.parts[0][0], PartitionInfo::default());
        },
        _ => panic!("expected a B macroblock"),
    }
}

#[test]
fn b_direct_16x16_reads_no_prediction_syntax() {
    let data = bits("1 1");
    let mut r = BitReader::new(&data);
    let mb = parse_b_macroblock(&mut r, &ctx(3, 3), None, None, BMbType::B_Direct_16x16).unwrap();
    assert_eq!(r.position(), 1);
    match mb {
        Macroblock::B(b) => assert_eq!(b.pred_syntax.parts[0][0], PartitionInfo::default()),
        _ => panic!("expected a B macroblock"),
    }
}

#[test]
fn macroblock_dispatch_follows_the_slice_type() {
    // P slice, mb_type 0: P_L0_16x16.
    let data = bits("1 010 011 1 1");
    let mut r = BitReader::new(&data);
    match parse_macroblock(&mut r, SliceType::P, &ctx(0, 0), None, None).unwrap() {
        Macroblock::P(p) => assert_eq!(p.pred_syntax.parts[0][0].mvd_l0, mv(1, -1)),
        _ => panic!("expected a P macroblock"),
    }
    // P slice, mb_type 31: past the I types.
    let data = bits("00000100000 1");
    let mut r = BitReader::new(&data);
    assert!(parse_macroblock(&mut r, SliceType::P, &ctx(0, 0), None, None).is_err());
    // B slice, mb_type 3: B_Bi_16x16.
    let data = bits("00100 010 1 1 011 1 1");
    let mut r = BitReader::new(&data);
    match parse_macroblock(&mut r, SliceType::B, &ctx(0, 0), None, None).unwrap() {
        Macroblock::B(b) => assert_eq!(b.mb_type, BMbType::B_Bi_16x16),
        _ => panic!("expected a B macroblock"),
    }
}

#[test]
fn p_slice_skip_run_then_one_macroblock_fills_the_picture() {
    // mb_skip_run 1, then P_L0_16x16 with mvd (0, 0) and pattern 0, then the
    // stop bit.
    let data = bits("010 1 1 1 1 1");
    let mut r = BitReader::new(&data);
    let mut mbs = Vec::new();
    parse_slice_data_cavlc(&mut r, SliceType::P, &ctx(0, 0), 2, 2, 0, &mut mbs).unwrap();
    assert_eq!(mbs.len(), 2);
    assert!(mbs[0].is_skipped());
    assert!(matches!(&mbs[1], Macroblock::P(p) if p.mb_type == PMbType::P_L0_16x16));
}

#[test]
fn skip_run_that_fills_the_picture_ends_the_slice() {
    let data = bits("011 1");
    let mut r = BitReader::new(&data);
    let mut mbs = Vec::new();
    parse_slice_data_cavlc(&mut r, SliceType::B, &ctx(0, 0), 2, 2, 0, &mut mbs).unwrap();
    assert_eq!(mbs.len(), 2);
    assert!(matches!(&mbs[1], Macroblock::B(b) if b.mb_type == BMbType::B_Skip));
}

#[test]
fn skip_run_past_the_picture_ends_the_slice_with_an_error() {
    let data = bits("00100 1");
    let mut r = BitReader::new(&data);
    let mut mbs = Vec::new();
    let err = parse_slice_data_cavlc(&mut r, SliceType::P, &ctx(0, 0), 2, 2, 0, &mut mbs).unwrap_err();
    assert_eq!(err, "Trying to skip 3 blocks, only 2 blocks left");
    assert!(mbs.is_empty());
}

#[test]
fn skip_run_followed_by_the_trailing_bits_ends_the_slice() {
    // mb_skip_run 1 out of 3, then only the stop bit.
    let data = bits("010 1");
    let mut r = BitReader::new(&data);
    let mut mbs = Vec::new();
    parse_slice_data_cavlc(&mut r, SliceType::P, &ctx(0, 0), 3, 3, 0, &mut mbs).unwrap();
    assert_eq!(mbs.len(), 1);
}

#[test]
fn i_slice_parses_macroblocks_until_the_picture_is_full() {
    // Two I_NxN macroblocks: mb_type 0, sixteen predicted modes, DC chroma,
    // coded_block_pattern code 3 (pattern 0).
    let one = "1 1111111111111111 1 00100";
    let data = bits(&format!("{one} {one} 1"));
    let mut r = BitReader::new(&data);
    let mut mbs = Vec::new();
    parse_slice_data_cavlc(&mut r, SliceType::I, &ctx(0, 0), 2, 2, 0, &mut mbs).unwrap();
    assert_eq!(mbs.len(), 2);
    for mb in &mbs {
        assert!(matches!(mb, Macroblock::I(i) if i.mb_type == IMbType::I_NxN && i.residual.is_none()));
    }
}

#[test]
fn skipped_macroblocks_carry_no_residual() {
    assert!(skip_macroblock(false).is_skipped());
    assert!(matches!(skip_macroblock(true), Macroblock::B(b) if b.residual.is_none()));
}

#[test]
fn more_rbsp_data_stops_at_the_trailing_bits() {
    let data = [0b1000_0000u8];
    assert!(!BitReader::new(&data).more_rbsp_data());
    let data = [0b0100_0000u8];
    assert!(BitReader::new(&data).more_rbsp_data());
    let mut r = BitReader::new(&data);
    r.read_bit().unwrap();
    assert!(!r.more_rbsp_data());
}
