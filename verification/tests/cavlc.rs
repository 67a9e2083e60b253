use lib::cavlc::{
    code_num_to_inter_coded_block_pattern, code_num_to_intra_coded_block_pattern,
    parse_coded_block_pattern,
};
use lib::bitreader::BitReader;
use lib::cavlc::{
    calculate_nc, lookup_coeff_token, lookup_run_before, lookup_total_zeros,
    lookup_total_zeros_chroma, parse_residual, parse_residual_block, CoeffToken,
};
use lib::macroblock::{
    CodedBlockPattern, LumaResidual, Macroblock, MbPredictionMode, PMb, PcmMb, Residual,
};
use lib::plane::ColorPlane;

fn prepare_bits(bit_str: &str) -> u16 {
    let value = u16::from_str_radix(bit_str, 2).unwrap();
    value << (u16::BITS - bit_str.len() as u32)
}

fn prepare_bit_vec(bit_str: &str) -> Vec<u8> {
    let mut result = Vec::<u8>::new();
    for byte in bit_str.split(' ') {
        result.push(u8::from_str_radix(byte, 2).unwrap());
    }
    result
}

#[test]
pub fn test_parse_residual() {
    // Examples from the book:
    // The H.264 advanced video compression standard / Iain E. Richardson.
    let data = prepare_bit_vec("00001000 11100101 11101101");
    let mut output = [0i32; 16];

    assert_eq!(parse_residual_block(&mut BitReader::new(&data), &mut output, 0).unwrap(), 5);
    assert_eq!(output, [0, 3, 0, 1, -1, -1, 0, 1, 0, 0, 0, 0, 0, 0, 0, 0]);

    let data = prepare_bit_vec("00000001 10100010 01000010 11100110 0");
    output.fill(0);
    assert_eq!(parse_residual_block(&mut BitReader::new(&data), &mut output, 0).unwrap(), 5);
    assert_eq!(output, [-2, 4, 3, -3, 0, 0, -1, 0, 0, 0, 0, 0, 0, 0, 0, 0]);

    let data = prepare_bit_vec("00011100 01110010");
    output.fill(0);
    assert_eq!(parse_residual_block(&mut BitReader::new(&data), &mut output, 0).unwrap(), 3);
    assert_eq!(output, [0, 0, 0, 1, 0, 1, 0, 0, 0, -1, 0, 0, 0, 0, 0, 0]);

    // Example from the article:
    // VHDL Implementation of an Efficient Context Adaptive
    // Variable Length Coding Algorithm of H.264 Video Codec
    let data = prepare_bit_vec("01101000 10001111 11001001 11011110 0");
    output.fill(0);
    assert_eq!(parse_residual_block(&mut BitReader::new(&data), &mut output, 5).unwrap(), 8);
    assert_eq!(output, [1, 1, -2, -4, 0, 0, 0, 1, 1, 1, 0, 1, 0, 0, 0, 0]);

    // Examples from the article:
    // IMPLEMENTATION OF CONTEXT ADAPTIVE VARIABLE LENGTH CODING AND DECODING
    // ALGORITHM FOR H.264 VIDEO CODEC USING MATLAB
    let data = prepare_bit_vec("01000100 01001000 01011100 11000000");
    output.fill(0);
    assert_eq!(parse_residual_block(&mut BitReader::new(&data), &mut output, 4).unwrap(), 5);
    assert_eq!(output, [-2, 4, 3, -3, 0, 0, -1, 0, 0, 0, 0, 0, 0, 0, 0, 0]);
}

#[test]
pub fn test_parse_residual_refcase1() {
    /*
        @254F: coeff_token (total_coeff =  5 / t1s =  3) :     : (5)  : [00110]
        @2554: trailing_ones_sign                        :  -1 : (1)  : [1]
        @2555: trailing_ones_sign                        :  -1 : (1)  : [1]
        @2556: trailing_ones_sign                        :   1 : (1)  : [0]
        @2557: coeff_level                               :  -1 : (2)  : [01]
        @2559: coeff_level                               :  -2 : (3)  : [011]
        @255C: total_zeros                               :  10 : (4)  : [0001]
        @2560: run_before                                :  10 : (7)  : [0000001]
    */
    let data = prepare_bit_vec("00110110 01011000 10000001");
    let mut output = [0i32; 16];
    assert_eq!(parse_residual_block(&mut BitReader::new(&data), &mut output, 2).unwrap(), 5);
    assert_eq!(output, [-2, -1, 1, -1, 0, 0, 0, 0, 0, 0, 0, 0, 0, 0, -1, 0]);
}

#[test]
pub fn test_parse_residual_refcase2() {
    /*
        @68  : coeff_token (total_coeff =  4 / t1s =  1) :     : (9)  : [000000110]
        @71  : trailing_ones_sign                        :  -1 : (1)  : [1]
        @72  : coeff_level                               :  -5 : (10) : [0000000001]
        @7C  : coeff_level                               : -19 : (12) : [000000000101]
        @88  : coeff_level                               :   6 : (5)  : [01010]
        @8D  : total_zeros                               :   3 : (4)  : [0100]
        @91  : run_before                                :   0 : (2)  : [11]
        @93  : run_before                                :   3 : (2)  : [00]
    */
    let data = prepare_bit_vec("00000011 01000000 00010000 00000101 01010010 01100000");
    let mut output = [0i32; 16];
    assert_eq!(parse_residual_block(&mut BitReader::new(&data), &mut output, 0).unwrap(), 4);
    assert_eq!(output, [6, -19, 0, 0, 0, -6, -1, 0, 0, 0, 0, 0, 0, 0, 0, 0]);
}

#[test]
pub fn test_lookup_run_before() {
    for i in 3..7 {
        assert_eq!(lookup_run_before(prepare_bits("11"), i), (0, 2));
    }

    assert_eq!(lookup_run_before(prepare_bits("010"), 5), (3, 3));
    assert_eq!(lookup_run_before(prepare_bits("0000001"), 7), (10, 7));
    assert_eq!(lookup_run_before(prepare_bits("0000000001"), 7), (13, 10));
    assert_eq!(lookup_run_before(prepare_bits("00000000001"), 7), (14, 11));
    assert_eq!(lookup_run_before(prepare_bits("110"), 7), (1, 3));
    assert_eq!(lookup_run_before(prepare_bits("10"), 5), (1, 2));
    assert_eq!(lookup_run_before(prepare_bits("101"), 6), (5, 3));
    assert_eq!(lookup_run_before(prepare_bits("00"), 2), (2, 2));
}

#[test]
pub fn brute_force_test_lookup_total_zeros() {
    for vcl_idx in 1..16 {
        let mut recognizer_patterns = [false; 16];
        for bits in 0..=u16::MAX {
            let result = lookup_total_zeros(bits, vcl_idx);
            if result.1 == 0 {
                continue;
            }
            assert!(result.1 <= 9);
            assert!(result.0 < 17 - vcl_idx);
            recognizer_patterns[result.0 as usize] = true;
        }
        for i in 0..(17 - vcl_idx) {
            assert!(recognizer_patterns[i as usize], "vcl_idx:{:} i:{:}", vcl_idx, i);
        }
    }
}

#[test]
pub fn test_lookup_total_zeros() {
    assert_eq!(lookup_total_zeros(prepare_bits("00000010"), 1), (12, 8));
    assert_eq!(lookup_total_zeros(prepare_bits("110"), 3), (2, 3));
    assert_eq!(lookup_total_zeros(prepare_bits("000000"), 7), (9, 6));
    assert_eq!(lookup_total_zeros(prepare_bits("000001"), 6), (0, 6));

    assert_eq!(lookup_total_zeros(prepare_bits("000001"), 8), (0, 6));
    assert_eq!(lookup_total_zeros(prepare_bits("1"), 15), (1, 1));
    assert_eq!(lookup_total_zeros(prepare_bits("00000"), 10), (1, 5));
    assert_eq!(lookup_total_zeros(prepare_bits("0000"), 12), (0, 4));
    assert_eq!(lookup_total_zeros(prepare_bits("00001"), 9), (7, 5));
}

#[test]
pub fn test_lookup_total_zeros_chroma() {
    assert_eq!(lookup_total_zeros_chroma(prepare_bits("1"), 1), (0, 1));
    assert_eq!(lookup_total_zeros_chroma(prepare_bits("1"), 2), (0, 1));
    assert_eq!(lookup_total_zeros_chroma(prepare_bits("1"), 3), (0, 1));

    assert_eq!(lookup_total_zeros_chroma(prepare_bits("01"), 1), (1, 2));
    assert_eq!(lookup_total_zeros_chroma(prepare_bits("01"), 2), (1, 2));
    assert_eq!(lookup_total_zeros_chroma(prepare_bits("0"), 3), (1, 1));

    assert_eq!(lookup_total_zeros_chroma(prepare_bits("001"), 1), (2, 3));
    assert_eq!(lookup_total_zeros_chroma(prepare_bits("00"), 2), (2, 2));

    assert_eq!(lookup_total_zeros_chroma(prepare_bits("000"), 1), (3, 3));
}

#[test]
pub fn test_lookup_coeff_token() {
    assert_eq!(
        lookup_coeff_token(prepare_bits("0000100"), 0),
        CoeffToken { total_coeffs: 5, trailing_ones: 3, pattern_len: 7 }
    );

    assert_eq!(
        lookup_coeff_token(prepare_bits("0000000110"), 0),
        CoeffToken { total_coeffs: 5, trailing_ones: 1, pattern_len: 10 }
    );

    assert_eq!(
        lookup_coeff_token(prepare_bits("00011"), 0),
        CoeffToken { total_coeffs: 3, trailing_ones: 3, pattern_len: 5 }
    );
}

#[test]
pub fn brute_force_test_lookup_coeff_token() {
    for nc in [0, 2, 4, 8, -1, -2, -3] {
        let mut recognizer_patterns = [[false; 4]; 17];
        for bits in 0..=u16::MAX {
            let result = lookup_coeff_token(bits, nc);
            if !result.is_valid() {
                continue;
            }
            if result.pattern_len == 1 {
                assert!(bits & 0x8000 != 0);
            }
            recognizer_patterns[result.total_coeffs as usize][result.trailing_ones as usize] =
                true;
            assert!(result.trailing_ones <= 3);
            match nc {
                -1 => {
                    assert!(result.pattern_len <= 8);
                    assert!(result.total_coeffs <= 4);
                }
                -2 => {
                    assert!(result.pattern_len <= 13);
                    assert!(result.total_coeffs <= 8);
                }
                8 => {
                    assert_eq!(result.pattern_len, 6);
                    assert!(result.total_coeffs <= 16);
                }
                _ => {
                    assert!(result.pattern_len <= 16);
                    assert!(result.total_coeffs <= 16);
                }
            };
        }

        match nc {
            -1 => {
                for total in 0..16 {
                    for ones in 0..4 {
                        let value = total <= 4 && ones <= total;
                        assert_eq!(recognizer_patterns[total][ones], value);
                    }
                }
            }
            -2 => {
                for total in 0..16 {
                    for ones in 0..4 {
                        let value = total <= 8 && ones <= total;
                        assert_eq!(recognizer_patterns[total][ones], value);
                    }
                }
            }
            -3 => {
                for total in 0..16 {
                    for ones in 0..4 {
                        assert!(!recognizer_patterns[total][ones]);
                    }
                }
            }
            _ => {
                for total in 0..16 {
                    for ones in 0..4 {
                        let value = ones <= total;
                        assert_eq!(recognizer_patterns[total][ones], value);
                    }
                }
            }
        };
    }
}

// A chroma DC block (nC = -1) of four coefficients with one level and a
// total_zeros code from the chroma table.
#[test]
fn chroma_dc_block_uses_the_chroma_total_zeros_table() {
    // coeff_token nC=-1, TotalCoeff 1, TrailingOnes 1: "1"; sign "0" (+1);
    // total_zeros (vlc 1) "001" = 2.
    let data = prepare_bit_vec("10001000");
    let mut output = [9i32; 4];
    assert_eq!(parse_residual_block(&mut BitReader::new(&data), &mut output, -1).unwrap(), 1);
    assert_eq!(output, [9, 9, 1, 9]);
}

#[test]
fn empty_block_reads_only_the_token() {
    // nC = 0: "1" is TotalCoeff 0; the coefficients stay as they were.
    let data = [0b1000_0000u8];
    let mut output = [7i32; 16];
    let mut reader = BitReader::new(&data);
    assert_eq!(parse_residual_block(&mut reader, &mut output, 0).unwrap(), 0);
    assert_eq!(output, [7; 16]);
    assert_eq!(reader.position(), 1);
}

#[test]
fn truncated_block_is_an_error_and_leaves_the_levels() {
    // The first block of test_parse_residual cut after its first byte.
    let data = prepare_bit_vec("00001000");
    let mut output = [0i32; 16];
    assert!(parse_residual_block(&mut BitReader::new(&data), &mut output, 0).is_err());
    assert_eq!(output, [0; 16]);
}

#[test]
fn no_bits_left_is_an_error() {
    let data: [u8; 0] = [];
    let mut output = [0i32; 16];
    assert!(parse_residual_block(&mut BitReader::new(&data), &mut output, 0).is_err());
}

#[test]
fn too_many_coefficients_for_the_block_is_an_error() {
    // nC = 8: the 6-bit code 111111 is TotalCoeff 16, more than an AC
    // block of 15 holds.
    let data = [0b1111_1100u8, 0, 0, 0, 0, 0, 0, 0];
    let mut output = [0i32; 15];
    assert!(parse_residual_block(&mut BitReader::new(&data), &mut output, 8).is_err());
    assert_eq!(output, [0; 15]);
}

#[test]
fn unknown_coeff_token_is_an_error() {
    // nC = 0: sixteen zero bits match no code.
    let data = [0u8, 0u8];
    let mut output = [0i32; 16];
    assert!(parse_residual_block(&mut BitReader::new(&data), &mut output, 0).is_err());
}

#[test]
fn total_coeff_is_the_number_of_non_zero_levels() {
    let cases: [(&str, i32); 5] = [
        ("00001000 11100101 11101101", 0),
        ("00000001 10100010 01000010 11100110 0", 0),
        ("00011100 01110010", 0),
        ("01101000 10001111 11001001 11011110 0", 5),
        ("00000011 01000000 00010000 00000101 01010010 01100000", 0),
    ];
    for (bits, nc) in cases {
        let data = prepare_bit_vec(bits);
        let mut output = [0i32; 16];
        let n = parse_residual_block(&mut BitReader::new(&data), &mut output, nc).unwrap();
        assert_eq!(n as usize, output.iter().filter(|&&v| v != 0).count(), "{bits}");
    }
}

#[test]
fn residual_of_one_coded_8x8_block_uses_in_macroblock_neighbours() {
    // Block 0: TotalCoeff 1, one trailing one (+1), total_zeros 0. Blocks 1..3
    // have nC from block 0 and each other and code no coefficients.
    let data = prepare_bit_vec("01011110");
    let mut input = BitReader::new(&data);
    let mut residual = Residual {
        prediction_mode: MbPredictionMode::Pred_L0,
        coded_block_pattern: CodedBlockPattern::new(0, 1),
        ..Residual::default()
    };
    parse_residual(&mut input, None, None, true, &mut residual).unwrap();
    assert_eq!(input.position(), 7);
    let LumaResidual::Block4x4 { levels, nc } = residual.luma else { panic!("4x4 layout expected") };
    let mut expected = [0i32; 16];
    expected[0] = 1;
    assert_eq!(levels[0], expected);
    assert_eq!(levels[1], [0; 16]);
    assert_eq!(nc[0], 1);
    assert_eq!(&nc[1..], &[0u8; 15]);
    assert_eq!(residual.chroma_dc, [[0; 4]; 2]);
}

#[test]
fn residual_chroma_dc_uses_the_chroma_dc_code() {
    // No luma; chroma pattern 1: Cb DC is TotalCoeff 1 with a trailing one
    // (-1) and total_zeros 0, Cr DC codes nothing.
    let data = prepare_bit_vec("11101000");
    let mut input = BitReader::new(&data);
    let mut residual = Residual {
        prediction_mode: MbPredictionMode::Pred_L0,
        coded_block_pattern: CodedBlockPattern::new(1, 0),
        ..Residual::default()
    };
    parse_residual(&mut input, None, None, true, &mut residual).unwrap();
    assert_eq!(input.position(), 5);
    assert_eq!(residual.chroma_dc, [[-1, 0, 0, 0], [0; 4]]);
}

#[test]
fn residual_without_subsampled_chroma_is_refused() {
    let data = [0xffu8; 4];
    let mut residual = Residual::default();
    assert!(parse_residual(&mut BitReader::new(&data), None, None, false, &mut residual).is_err());
}

#[test]
fn nc_is_the_rounded_mean_of_available_neighbours() {
    let mut nc = [0u8; 16];
    nc[5] = 3;
    let left = Macroblock::P(PMb {
        residual: Some(Box::new(Residual {
            luma: LumaResidual::Block4x4 { levels: [[0; 16]; 16], nc },
            ..Residual::default()
        })),
        ..PMb::default()
    });
    let above = Macroblock::PCM(PcmMb::default());
    let current = Residual::default();
    // Block 0: A is block 5 of the left macroblock (3), B is block 10 of the
    // I_PCM macroblock above (16): (3 + 16 + 1) / 2.
    assert_eq!(calculate_nc(Some(&left), Some(&above), 0, &current, ColorPlane::Y), 10);
    assert_eq!(calculate_nc(Some(&left), None, 0, &current, ColorPlane::Y), 3);
    assert_eq!(calculate_nc(None, Some(&above), 0, &current, ColorPlane::Y), 16);
    assert_eq!(calculate_nc(None, None, 0, &current, ColorPlane::Y), 0);
    // Chroma block 3 has both neighbours inside the macroblock.
    let mut current = Residual::default();
    current.chroma_nc[0] = [0, 0, 4, 0];
    current.chroma_nc[1] = [0, 7, 0, 0];
    assert_eq!(calculate_nc(None, None, 3, &current, ColorPlane::Cb), 2);
    assert_eq!(calculate_nc(None, None, 3, &current, ColorPlane::Cr), 4);
}

use lib::cabac::CabacMbType;
use lib::cavlc::{mb_type_from_value, parse_mb_type, parse_skip_run};
use lib::inter_pred::SliceType;
use lib::macroblock::{BMbType, IMbType, PMbType};

#[test]
fn exp_golomb_codes() {
    // ue: 1 -> 0, 010 -> 1, 011 -> 2, 00100 -> 3, 0001000 -> 7; se of 2 is -1, of 3 is 2.
    let data = prepare_bit_vec("10100110 01000001 00001100 10000000");
    let mut r = BitReader::new(&data);
    assert_eq!(r.ue().unwrap(), 0);
    assert_eq!(r.ue().unwrap(), 1);
    assert_eq!(r.ue().unwrap(), 2);
    assert_eq!(r.ue().unwrap(), 3);
    assert_eq!(r.ue().unwrap(), 7);
    assert_eq!(r.se().unwrap(), -1);
    assert_eq!(r.se().unwrap(), 2);
    assert_eq!(r.position(), 27);
    let zeros = [0u8; 8];
    assert!(BitReader::new(&zeros).ue().is_err());
}

#[test]
fn mb_type_ranges_follow_the_slice_type() {
    assert_eq!(mb_type_from_value(SliceType::I, 0).unwrap(), CabacMbType::I(IMbType::I_NxN));
    assert_eq!(mb_type_from_value(SliceType::I, 25).unwrap(), CabacMbType::I(IMbType::I_PCM));
    assert!(mb_type_from_value(SliceType::I, 26).is_err());
    assert_eq!(mb_type_from_value(SliceType::P, 3).unwrap(), CabacMbType::P(PMbType::P_8x8));
    assert_eq!(mb_type_from_value(SliceType::P, 5).unwrap(), CabacMbType::I(IMbType::I_NxN));
    assert_eq!(
        mb_type_from_value(SliceType::P, 18).unwrap(),
        CabacMbType::I(IMbType::I_16x16 { pred_mode: 0, cbp_chroma: 0, cbp_luma: 1 })
    );
    assert!(mb_type_from_value(SliceType::P, 31).is_err());
    assert_eq!(mb_type_from_value(SliceType::B, 22).unwrap(), CabacMbType::B(BMbType::B_8x8));
    assert_eq!(mb_type_from_value(SliceType::B, 48).unwrap(), CabacMbType::I(IMbType::I_PCM));
    assert!(mb_type_from_value(SliceType::B, 49).is_err());
    // ue 00110 = 5 in a P slice: I_NxN.
    let data = prepare_bit_vec("00110000");
    let mut r = BitReader::new(&data);
    assert_eq!(parse_mb_type(&mut r, SliceType::P).unwrap(), CabacMbType::I(IMbType::I_NxN));
    assert_eq!(r.position(), 5);
}

#[test]
fn skip_run_past_the_picture_is_refused() {
    // ue 00100 = 3.
    let data = prepare_bit_vec("00100000");
    assert_eq!(parse_skip_run(&mut BitReader::new(&data), 10, 7).unwrap(), 3);
    assert!(parse_skip_run(&mut BitReader::new(&data), 10, 8).is_err());
}

#[test]
fn coded_block_pattern_code_numbers() {
    assert_eq!(code_num_to_intra_coded_block_pattern(0), Some(CodedBlockPattern(47)));
    assert_eq!(code_num_to_intra_coded_block_pattern(3), Some(CodedBlockPattern(0)));
    assert_eq!(code_num_to_inter_coded_block_pattern(0), Some(CodedBlockPattern(0)));
    assert_eq!(code_num_to_inter_coded_block_pattern(12), Some(CodedBlockPattern(47)));
    assert_eq!(code_num_to_inter_coded_block_pattern(47), Some(CodedBlockPattern(41)));
    assert_eq!(code_num_to_intra_coded_block_pattern(48), None);
    // ue 011 = 2: intra 15, inter 1.
    let data = prepare_bit_vec("01100000");
    assert_eq!(parse_coded_block_pattern(&mut BitReader::new(&data), true).unwrap(), CodedBlockPattern(15));
    assert_eq!(parse_coded_block_pattern(&mut BitReader::new(&data), false).unwrap(), CodedBlockPattern(1));
}

use lib::cavlc::{parse_i_macroblock, parse_intra4x4_pred_modes};
use lib::intra_pred::Intra_4x4_SamplePredMode;
use lib::macroblock::{IMb, Intra_Chroma_Pred_Mode};

#[test]
fn intra4x4_modes_follow_the_predicted_mode() {
    // Neighbour A all Vertical, B all Horizontal: every predicted mode is
    // the smaller, Vertical, and sixteen flags of 1 take it.
    let a = Macroblock::I(IMb {
        mb_type: IMbType::I_NxN,
        rem_intra4x4_pred_mode: [Intra_4x4_SamplePredMode::Vertical; 16],
        ..IMb::default()
    });
    let b = Macroblock::I(IMb {
        mb_type: IMbType::I_NxN,
        rem_intra4x4_pred_mode: [Intra_4x4_SamplePredMode::Horizontal; 16],
        ..IMb::default()
    });
    let data = prepare_bit_vec("11111111 11111111");
    let mut r = BitReader::new(&data);
    let modes = parse_intra4x4_pred_modes(&mut r, Some(&a), Some(&b)).unwrap();
    assert_eq!(modes, [Intra_4x4_SamplePredMode::Vertical; 16]);
    assert_eq!(r.position(), 16);
    // Without B every predicted mode is DC.
    let mut r = BitReader::new(&data);
    let modes = parse_intra4x4_pred_modes(&mut r, Some(&a), None).unwrap();
    assert_eq!(modes[0], Intra_4x4_SamplePredMode::DC);
}

#[test]
fn i_nxn_macroblock_without_residual() {
    // Block 0: flag 0, rem 000 (below the predicted DC): Vertical; the
    // other blocks take DC. Chroma mode ue 0, coded_block_pattern code 3
    // (0): no QP delta, no residual.
    let data = prepare_bit_vec("00001111 11111111 11110010 00000000");
    let mut r = BitReader::new(&data);
    let mb = parse_i_macroblock(&mut r, false, true, None, None, IMbType::I_NxN).unwrap();
    let Macroblock::I(i) = mb else { panic!("I macroblock expected") };
    assert_eq!(i.rem_intra4x4_pred_mode[0], Intra_4x4_SamplePredMode::Vertical);
    assert!(i.rem_intra4x4_pred_mode[1..].iter().all(|&m| m == Intra_4x4_SamplePredMode::DC));
    assert_eq!(i.intra_chroma_pred_mode, Intra_Chroma_Pred_Mode::DC);
    assert_eq!(i.coded_block_pattern, CodedBlockPattern(0));
    assert!(i.residual.is_none());
    assert_eq!(r.position(), 25);
}

#[test]
fn i_16x16_macroblock_parses_its_dc_block() {
    // Chroma mode ue 0, mb_qp_delta se 0, luma DC coeff_token TotalCoeff 0.
    let data = prepare_bit_vec("11100000");
    let mut r = BitReader::new(&data);
    let t = IMbType::I_16x16 { pred_mode: 0, cbp_chroma: 0, cbp_luma: 0 };
    let mb = parse_i_macroblock(&mut r, false, true, None, None, t).unwrap();
    let Macroblock::I(i) = mb else { panic!("I macroblock expected") };
    assert_eq!(i.mb_qp_delta, 0);
    let res = i.residual.expect("residual");
    assert_eq!(res.prediction_mode, MbPredictionMode::Intra_16x16);
    assert!(matches!(res.luma, LumaResidual::Intra16x16 { .. }));
    assert_eq!(r.position(), 3);
    // Transform 8x8 asked for an I_NxN macroblock: refused.
    let data = prepare_bit_vec("10000000");
    assert!(parse_i_macroblock(&mut BitReader::new(&data), true, true, None, None, IMbType::I_NxN).is_err());
}

#[test]
fn i_pcm_macroblock_reads_aligned_samples() {
    let mut data = vec![0b1010_0000u8];
    data.extend((0..384).map(|i| i as u8));
    let mut r = BitReader::new(&data);
    r.u(3).unwrap();
    let mb = parse_i_macroblock(&mut r, false, true, None, None, IMbType::I_PCM).unwrap();
    let Macroblock::PCM(p) = mb else { panic!("I_PCM expected") };
    assert_eq!(p.pcm_sample_luma.len(), 256);
    assert_eq!(p.pcm_sample_luma[5], 5);
    assert_eq!(p.pcm_sample_chroma_cb[0], 0);
    assert_eq!(p.pcm_sample_chroma_cr[63], (383 % 256) as u8);
    assert_eq!(r.position(), 8 + 384 * 8);
}
