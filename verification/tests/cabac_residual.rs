use lib::bitreader::BitReader;
use lib::cabac::CabacContext;

/// Table 9-44, rangeTabLPS, row by row.
const RANGE_LPS: [u8; 256] = [
    128, 176, 208, 240, 128, 167, 197, 227, 128, 158, 187, 216, 123, 150, 178, 205,
    116, 142, 169, 195, 111, 135, 160, 185, 105, 128, 152, 175, 100, 122, 144, 166,
    95, 116, 137, 158, 90, 110, 130, 150, 85, 104, 123, 142, 81, 99, 117, 135,
    77, 94, 111, 128, 73, 89, 105, 122, 69, 85, 100, 116, 66, 80, 95, 110,
    62, 76, 90, 104, 59, 72, 86, 99, 56, 69, 81, 94, 53, 65, 77, 89,
    51, 62, 73, 85, 48, 59, 69, 80, 46, 56, 66, 76, 43, 53, 63, 72,
    41, 50, 59, 69, 39, 48, 56, 65, 37, 45, 54, 62, 35, 43, 51, 59,
    33, 41, 48, 56, 32, 39, 46, 53, 30, 37, 43, 50, 29, 35, 41, 48,
    27, 33, 39, 45, 26, 31, 37, 43, 24, 30, 35, 41, 23, 28, 33, 39,
    22, 27, 32, 37, 21, 26, 30, 35, 20, 24, 29, 33, 19, 23, 27, 31,
    18, 22, 26, 30, 17, 21, 25, 28, 16, 20, 23, 27, 15, 19, 22, 25,
    14, 18, 21, 24, 14, 17, 20, 23, 13, 16, 19, 22, 12, 15, 18, 21,
    12, 14, 17, 20, 11, 14, 16, 19, 11, 13, 15, 18, 10, 12, 15, 17,
    10, 12, 14, 16, 9, 11, 13, 15, 9, 11, 12, 14, 8, 10, 12, 14,
    8, 9, 11, 13, 7, 9, 11, 12, 7, 9, 10, 12, 7, 8, 10, 11,
    6, 8, 9, 11, 6, 7, 9, 10, 6, 7, 8, 9, 2, 2, 2, 2,
];

/// Table 9-45, transIdxLPS.
const TRANS_LPS: [u8; 64] = [
    0, 0, 1, 2, 2, 4, 4, 5, 6, 7, 8, 9, 9, 11, 11, 12,
    13, 13, 15, 15, 16, 16, 18, 18, 19, 19, 21, 21, 22, 22, 23, 24,
    24, 25, 26, 26, 27, 27, 28, 29, 29, 30, 30, 30, 31, 32, 32, 33,
    33, 33, 34, 34, 35, 35, 35, 36, 36, 36, 37, 37, 37, 38, 38, 63,
];

/// The arithmetic encoder of Section 9.3.4.2, to produce the bins that a
/// test decodes.
struct Encoder {
    low: u32,
    range: u32,
    first_bit: bool,
    outstanding: u32,
    bits: Vec<u8>,
    ctx: Vec<(u8, u8)>,
}

impl Encoder {
    /// Contexts as a zero initialisation table leaves them: state 62, MPS 0.
    fn new() -> Self {
        Encoder { low: 0, range: 510, first_bit: true, outstanding: 0, bits: Vec::new(), ctx: vec![(62, 0); 1024] }
    }

    fn put_bit(&mut self, b: u8) {
        if self.first_bit {
            self.first_bit = false;
        } else {
            self.bits.push(b);
        }
        while self.outstanding > 0 {
            self.bits.push(1 - b);
            self.outstanding -= 1;
        }
    }

    fn renorm(&mut self) {
        while self.range < 256 {
            if self.low < 256 {
                self.put_bit(0);
            } else if self.low >= 512 {
                self.low -= 512;
                self.put_bit(1);
            } else {
                self.low -= 256;
                self.outstanding += 1;
            }
            self.range <<= 1;
            self.low <<= 1;
        }
    }

    fn decision(&mut self, ctx_idx: usize, bin: u8) {
        let (p, mps) = self.ctx[ctx_idx];
        let q = ((self.range >> 6) & 3) as usize;
        let lps = RANGE_LPS[4 * p as usize + q] as u32;
        self.range -= lps;
        if bin != mps {
            self.low += self.range;
            self.range = lps;
            let new_mps = if p == 0 { 1 - mps } else { mps };
            self.ctx[ctx_idx] = (TRANS_LPS[p as usize], new_mps);
        } else {
            self.ctx[ctx_idx] = (if p < 62 { p + 1 } else { p }, mps);
        }
        self.renorm();
    }

    fn bypass(&mut self, bin: u8) {
        self.low <<= 1;
        if bin == 1 {
            self.low += self.range;
        }
        if self.low >= 1024 {
            self.put_bit(1);
            self.low -= 1024;
        } else if self.low < 512 {
            self.put_bit(0);
        } else {
            self.low -= 512;
            self.outstanding += 1;
        }
    }

    /// A terminating 1 bin and the flush, then zero bytes to spare.
    fn finish(mut self) -> Vec<u8> {
        self.range -= 2;
        self.low += self.range;
        self.range = 2;
        self.renorm();
        let b = ((self.low >> 9) & 1) as u8;
        self.put_bit(b);
        self.bits.push(((self.low >> 8) & 1) as u8);
        self.bits.push(1);
        while self.bits.len() % 8 != 0 {
            self.bits.push(0);
        }
        let mut out: Vec<u8> = self.bits.chunks(8).map(|c| c.iter().fold(0u8, |a, &b| a * 2 + b)).collect();
        out.extend_from_slice(&[0u8; 8]);
        out
    }
}

fn zero_table() -> Vec<(i8, i8)> {
    vec![(0, 0); 1024]
}

/// The bins of coeff_abs_level_minus1 = `v` (UEG0, uCoff 14) with the
/// context indices of bin 0 and of the later prefix bins.
fn encode_abs_minus1(enc: &mut Encoder, v: u32, ctx0: usize, ctx1: usize) {
    let prefix = v.min(14);
    for i in 0..prefix {
        enc.decision(if i == 0 { ctx0 } else { ctx1 }, 1);
    }
    if prefix < 14 {
        enc.decision(if prefix == 0 { ctx0 } else { ctx1 }, 0);
        return;
    }
    let mut suffix = v - 14;
    let mut k = 0;
    while suffix >= (1 << k) {
        enc.bypass(1);
        suffix -= 1 << k;
        k += 1;
    }
    enc.bypass(0);
    for i in (0..k).rev() {
        enc.bypass(((suffix >> i) & 1) as u8);
    }
}

#[test]
fn luma_4x4_block_round_trip() {
    // ctxBlockCat 2: coded_block_flag at 85 + 8, significant_coeff_flag at
    // 134 + i, last_significant_coeff_flag at 195 + i, levels at 247.
    let mut enc = Encoder::new();
    enc.decision(93 + 1, 1);
    // Significant positions 0, 2 and 5, the last.
    for i in 0..6 {
        let sig = [0usize, 2, 5].contains(&i);
        enc.decision(134 + i, sig as u8);
        if sig {
            enc.decision(195 + i, (i == 5) as u8);
        }
    }
    // Levels from the highest position: +1, -1, then 3.
    encode_abs_minus1(&mut enc, 0, 247 + 1, 247 + 5);
    enc.bypass(0);
    encode_abs_minus1(&mut enc, 0, 247 + 2, 247 + 5);
    enc.bypass(1);
    encode_abs_minus1(&mut enc, 2, 247 + 3, 247 + 5);
    enc.bypass(0);
    let data = enc.finish();

    let mut ctx = CabacContext::new(BitReader::new(&data), 26, &zero_table()).unwrap();
    let mut levels = [7i32; 64];
    let (cbf, n) = ctx.parse_residual_block_cabac(false, false, 2, 1, 16, &mut levels).unwrap();
    assert!(cbf);
    assert_eq!(n, 3);
    let mut want = [0i32; 64];
    want[0] = 3;
    want[2] = -1;
    want[5] = 1;
    assert_eq!(levels, want);
}

#[test]
fn chroma_dc_block_infers_the_last_position() {
    // ctxBlockCat 3 (max 4): coded_block_flag at 97, significance at 149 +
    // min(i, 2), levels at 257; no flag is significant before position 3,
    // which is then significant without a flag.
    let mut enc = Encoder::new();
    enc.decision(97, 1);
    for i in 0..3 {
        enc.decision(149 + i.min(2), 0);
    }
    // -20: coeff_abs_level_minus1 = 19, 14 prefix bins and an
    // Exp-Golomb suffix of 5; bins after the first use 257 + 5 + min(3, 0).
    encode_abs_minus1(&mut enc, 19, 257 + 1, 257 + 5);
    enc.bypass(1);
    let data = enc.finish();

    let mut ctx = CabacContext::new(BitReader::new(&data), 26, &zero_table()).unwrap();
    let mut levels = [0i32; 64];
    let (cbf, n) = ctx.parse_residual_block_cabac(false, false, 3, 0, 4, &mut levels).unwrap();
    assert!(cbf);
    assert_eq!(n, 1);
    let mut want = [0i32; 64];
    want[3] = -20;
    assert_eq!(levels, want);
}

#[test]
fn uncoded_block_reads_only_its_flag() {
    let mut enc = Encoder::new();
    enc.decision(85 + 4 * 4 + 2, 0);
    let data = enc.finish();
    let mut ctx = CabacContext::new(BitReader::new(&data), 26, &zero_table()).unwrap();
    let mut levels = [5i32; 64];
    let (cbf, n) = ctx.parse_residual_block_cabac(false, false, 4, 2, 15, &mut levels).unwrap();
    assert!(!cbf);
    assert_eq!(n, 0);
    assert_eq!(levels, [0; 64]);
}

#[test]
fn luma_8x8_block_has_no_flag_outside_4_4_4() {
    // ctxBlockCat 5: no coded_block_flag; significance at 402 + Table 9-43,
    // last at 417 + Table 9-43, levels at 426. Position 0 alone, the last.
    let mut enc = Encoder::new();
    enc.decision(402, 1);
    enc.decision(417, 1);
    encode_abs_minus1(&mut enc, 1, 426 + 1, 426 + 5);
    enc.bypass(0);
    let data = enc.finish();
    let mut ctx = CabacContext::new(BitReader::new(&data), 26, &zero_table()).unwrap();
    let mut levels = [0i32; 64];
    let (cbf, n) = ctx.parse_residual_block_cabac(false, false, 5, 0, 64, &mut levels).unwrap();
    assert!(cbf);
    assert_eq!(n, 1);
    let mut want = [0i32; 64];
    want[0] = 2;
    assert_eq!(levels, want);
}

#[test]
fn field_pictures_are_refused() {
    let data = [0u8; 16];
    let mut ctx = CabacContext::new(BitReader::new(&data), 26, &zero_table()).unwrap();
    let mut levels = [0i32; 64];
    assert!(ctx.parse_residual_block_cabac(true, false, 2, 0, 16, &mut levels).is_err());
}

use lib::cabac::{
    CabacMbType, CachedNeighborMb, CbfInfo, CurrentMbInfo, NeighborAccessor, ResidualNeighborCache,
};
use lib::macroblock::{
    get_4x4chroma_block_neighbor, get_4x4luma_block_neighbor, CodedBlockPattern, IMb, IMbType,
    Macroblock, MbMotion, MbNeighborName, MbPredictionMode, MotionVector, PMb, PMbType, PcmMb,
};

fn p_mb() -> CurrentMbInfo {
    CurrentMbInfo {
        mb_type: CabacMbType::P(PMbType::P_L0_16x16),
        motion: MbMotion::default(),
        coded_block_pattern: CodedBlockPattern(0),
        transform_size_8x8_flag: false,
        cbf: CbfInfo::default(),
    }
}

#[test]
fn block_neighbours_follow_section_6_4_11() {
    // Block 0 sits at the corner: its left is block 5 of A, above it block 10 of B.
    assert_eq!(get_4x4luma_block_neighbor(0, MbNeighborName::A), (5, Some(MbNeighborName::A)));
    assert_eq!(get_4x4luma_block_neighbor(0, MbNeighborName::B), (10, Some(MbNeighborName::B)));
    // Block 6 (8, 4): left is block 3, above block 4, both inside.
    assert_eq!(get_4x4luma_block_neighbor(6, MbNeighborName::A), (3, None));
    assert_eq!(get_4x4luma_block_neighbor(6, MbNeighborName::B), (4, None));
    assert_eq!(get_4x4luma_block_neighbor(8, MbNeighborName::A), (13, Some(MbNeighborName::A)));
    assert_eq!(get_4x4chroma_block_neighbor(2, MbNeighborName::A), (3, Some(MbNeighborName::A)));
    assert_eq!(get_4x4chroma_block_neighbor(1, MbNeighborName::B), (3, Some(MbNeighborName::B)));
    assert_eq!(get_4x4chroma_block_neighbor(3, MbNeighborName::A), (2, None));
}

#[test]
fn coded_block_flag_context_reads_the_neighbouring_blocks() {
    // A is available with 8x8 block 1 coded and the flag of its block 5 set.
    let a = CachedNeighborMb {
        available: true,
        cbp: CodedBlockPattern(0b0010),
        cbf: CbfInfo { luma_ac: 1 << 5, ..CbfInfo::default() },
        ..CachedNeighborMb::default()
    };
    let cache = ResidualNeighborCache { a, b: CachedNeighborMb::default() };
    assert_eq!(CabacContext::get_ctx_idx_inc_coded_block_flag_cached(&cache, &p_mb(), 2, 0, 0), 1);
    // An unavailable B counts 1 for an intra macroblock.
    let intra = CurrentMbInfo { mb_type: CabacMbType::I(IMbType::I_NxN), ..p_mb() };
    assert_eq!(CabacContext::get_ctx_idx_inc_coded_block_flag_cached(&cache, &intra, 2, 0, 0), 3);
    // Block 1 reads block 0 of the current macroblock on its left and a
    // skipped B above.
    let cur = CurrentMbInfo {
        coded_block_pattern: CodedBlockPattern(1),
        cbf: CbfInfo { luma_ac: 1, ..CbfInfo::default() },
        ..p_mb()
    };
    let skipped_b = ResidualNeighborCache {
        a,
        b: CachedNeighborMb { available: true, is_skipped: true, ..CachedNeighborMb::default() },
    };
    assert_eq!(CabacContext::get_ctx_idx_inc_coded_block_flag_cached(&skipped_b, &cur, 2, 1, 0), 1);
    // Chroma DC of Cr reads the Cr flag of A's chroma.
    let chroma_a = CachedNeighborMb {
        available: true,
        cbp: CodedBlockPattern(16),
        cbf: CbfInfo { cr_dc: true, ..CbfInfo::default() },
        ..CachedNeighborMb::default()
    };
    let cache = ResidualNeighborCache { a: chroma_a, b: CachedNeighborMb::default() };
    assert_eq!(CabacContext::get_ctx_idx_inc_coded_block_flag_cached(&cache, &p_mb(), 3, 0, 1), 1);
    assert_eq!(CabacContext::get_ctx_idx_inc_coded_block_flag_cached(&cache, &p_mb(), 3, 0, 0), 0);
}

#[test]
fn coded_block_pattern_contexts() {
    let a = Macroblock::P(PMb::default());
    let b = Macroblock::PCM(PcmMb::default());
    let cur = p_mb();
    let acc = NeighborAccessor::new(Some(&a), Some(&b), &cur);
    // A's 8x8 block 1 is not coded: 1; B is I_PCM: 0.
    assert_eq!(CabacContext::get_ctx_idx_inc_cbp_luma(&acc, 0), 1);
    // Chroma: I_PCM B counts 1, A's chroma pattern 0 counts 0; bin 1 adds 4.
    assert_eq!(CabacContext::get_ctx_idx_inc_cbp_chroma(&acc, 0), 2);
    assert_eq!(CabacContext::get_ctx_idx_inc_cbp_chroma(&acc, 1), 6);
    let t8 = Macroblock::I(IMb { transform_size_8x8_flag: true, ..IMb::default() });
    let acc = NeighborAccessor::new(Some(&t8), None, &cur);
    assert_eq!(CabacContext::get_ctx_idx_inc_transform_size_8x8_flag(&acc), 1);
}

fn p_with(row: usize, col: usize, ref_idx: u8, mvd_x: i16) -> Macroblock {
    let mut motion = MbMotion::default();
    motion.partitions[row][col].pred_mode = MbPredictionMode::Pred_L0;
    motion.partitions[row][col].ref_idx_l0 = ref_idx;
    motion.partitions[row][col].mvd_l0 = MotionVector { x: mvd_x, y: 0 };
    Macroblock::P(PMb { motion, ..PMb::default() })
}

#[test]
fn ref_idx_context_reads_the_partition_neighbours() {
    // Partition 1 of a 16x8 macroblock starts at block 8: its left
    // neighbour is block 13 of A (row 2, column 3), above it block 2 of
    // the current macroblock (row 1, column 0).
    let a = p_with(2, 3, 2, 0);
    let mut cur = CurrentMbInfo { mb_type: CabacMbType::P(PMbType::P_L0_L0_16x8), ..p_mb() };
    cur.motion.partitions[1][0].pred_mode = MbPredictionMode::Pred_L0;
    let acc = NeighborAccessor::new(Some(&a), None, &cur);
    assert_eq!(CabacContext::get_ctx_idx_inc_ref_idx(&acc, 1, 0), 1);
    cur.motion.partitions[1][0].ref_idx_l0 = 1;
    let acc = NeighborAccessor::new(Some(&a), None, &cur);
    assert_eq!(CabacContext::get_ctx_idx_inc_ref_idx(&acc, 1, 0), 3);
    // List 1 is not used by these partitions.
    assert_eq!(CabacContext::get_ctx_idx_inc_ref_idx(&acc, 1, 1), 0);
    // An intra neighbour counts 0.
    let intra = Macroblock::I(IMb::default());
    let acc = NeighborAccessor::new(Some(&intra), None, &cur);
    assert_eq!(CabacContext::get_ctx_idx_inc_ref_idx(&acc, 1, 0), 2);
}

#[test]
fn mvd_context_sums_the_neighbouring_differences() {
    // Block 0: left is block 5 of A (row 0, column 3), above block 10 of B
    // (row 3, column 0).
    let cur = p_mb();
    for (ax, bx, want) in [(20i16, -15i16, 2usize), (2, -1, 1), (1, 1, 0), (40, 0, 2)] {
        let a = p_with(0, 3, 0, ax);
        let b = p_with(3, 0, 0, bx);
        let acc = NeighborAccessor::new(Some(&a), Some(&b), &cur);
        assert_eq!(CabacContext::get_ctx_idx_inc_mvd(&acc, 0, 0, 0), want, "{ax} {bx}");
    }
}

#[test]
fn ref_idx_round_trip() {
    // Unary 2 at 54 + 0, 54 + 4, 54 + 5.
    let mut enc = Encoder::new();
    for (ctx, bin) in [(54, 1), (58, 1), (59, 0)] {
        enc.decision(ctx, bin);
    }
    let data = enc.finish();
    let cur = p_mb();
    let acc = NeighborAccessor::new(None, None, &cur);
    let mut ctx = CabacContext::new(BitReader::new(&data), 26, &zero_table()).unwrap();
    assert_eq!(ctx.parse_ref_idx_cabac(&acc, 0, 3, 0).unwrap(), 2);
    let mut ctx = CabacContext::new(BitReader::new(&data), 26, &zero_table()).unwrap();
    assert!(ctx.parse_ref_idx_cabac(&acc, 0, 1, 0).is_err());
}

#[test]
fn mvd_round_trip() {
    // -3: prefix 1, 1, 1, 0 at 40, 43, 44, 45, then a sign bypass bin 1.
    let mut enc = Encoder::new();
    for (ctx, bin) in [(40, 1), (43, 1), (44, 1), (45, 0)] {
        enc.decision(ctx, bin);
    }
    enc.bypass(1);
    let data = enc.finish();
    let cur = p_mb();
    let acc = NeighborAccessor::new(None, None, &cur);
    let mut ctx = CabacContext::new(BitReader::new(&data), 26, &zero_table()).unwrap();
    assert_eq!(ctx.parse_mvd_cabac(&acc, 0, 0, 0).unwrap(), -3);
}

#[test]
fn coded_block_pattern_round_trip() {
    // No neighbour is available: luma bins at 73, 73, 73, then 73 + 2
    // (block 1 uncoded above block 3); chroma bins at 77 and 81.
    let mut enc = Encoder::new();
    for (ctx, bin) in [(73, 1), (73, 0), (73, 1), (75, 1), (77, 1), (81, 0)] {
        enc.decision(ctx, bin);
    }
    let data = enc.finish();
    let mut ctx = CabacContext::new(BitReader::new(&data), 26, &zero_table()).unwrap();
    let mut cur = p_mb();
    let cbp = ctx.parse_coded_block_pattern_cabac(None, None, &mut cur, true).unwrap();
    assert_eq!(cbp, CodedBlockPattern(16 + 13));
    assert_eq!(cur.coded_block_pattern, cbp);
}

#[test]
fn mb_qp_delta_round_trip() {
    // Unary 3 (bins at 60, 62, 63, 63) maps to +2.
    let mut enc = Encoder::new();
    for (ctx, bin) in [(60, 1), (62, 1), (63, 1), (63, 0)] {
        enc.decision(ctx, bin);
    }
    let data = enc.finish();
    let mut ctx = CabacContext::new(BitReader::new(&data), 26, &zero_table()).unwrap();
    assert_eq!(ctx.parse_mb_qp_delta_cabac(0).unwrap(), 2);
}

use lib::macroblock::{LumaResidual, Residual};
use lib::params::ChromaFormat;

#[test]
fn residual_of_chroma_dc_records_flags_and_levels() {
    // P macroblock, chroma pattern 1, no neighbours: the Cb DC flag (97, its
    // neighbours unavailable to an inter macroblock) is 1 with position 0
    // alone significant (149, last at 210) and level +1; the Cr DC flag is 0.
    let mut enc = Encoder::new();
    enc.decision(97, 1);
    enc.decision(149, 1);
    enc.decision(210, 1);
    encode_abs_minus1(&mut enc, 0, 257 + 1, 257 + 5);
    enc.bypass(0);
    enc.decision(97, 0);
    let data = enc.finish();

    let mut ctx = CabacContext::new(BitReader::new(&data), 26, &zero_table()).unwrap();
    let cache = ResidualNeighborCache::default();
    let mut curr = CurrentMbInfo { coded_block_pattern: CodedBlockPattern::new(1, 0), ..p_mb() };
    let mut residual = Residual::default();
    ctx.parse_residual_cabac(false, ChromaFormat::YUV420, &cache, &mut curr, &mut residual).unwrap();
    assert_eq!(residual.chroma_dc, [[1, 0, 0, 0], [0; 4]]);
    assert!(curr.cbf.cb_dc);
    assert!(!curr.cbf.cr_dc);
    assert_eq!(residual.prediction_mode, MbPredictionMode::Pred_L0);
    assert_eq!(residual.coded_block_pattern, CodedBlockPattern::new(1, 0));
    assert!(matches!(residual.luma, LumaResidual::Block4x4 { .. }));
}

#[test]
fn residual_of_intra_16x16_starts_with_the_dc_block() {
    // I_16x16 with no coded AC or chroma: only the luma DC flag (85 + 0,
    // both neighbours unavailable to an intra macroblock: 1 + 2) is read.
    let mut enc = Encoder::new();
    enc.decision(85 + 3, 0);
    let data = enc.finish();
    let mut ctx = CabacContext::new(BitReader::new(&data), 26, &zero_table()).unwrap();
    let cache = ResidualNeighborCache::default();
    let mut curr = CurrentMbInfo {
        mb_type: CabacMbType::I(IMbType::I_16x16 { pred_mode: 0, cbp_chroma: 0, cbp_luma: 0 }),
        ..p_mb()
    };
    let mut residual = Residual::default();
    ctx.parse_residual_cabac(false, ChromaFormat::YUV420, &cache, &mut curr, &mut residual).unwrap();
    assert_eq!(residual.prediction_mode, MbPredictionMode::Intra_16x16);
    assert!(!curr.cbf.luma_dc);
    let LumaResidual::Intra16x16 { dc, .. } = residual.luma else { panic!("Intra_16x16 layout expected") };
    assert_eq!(dc, [0; 16]);
}

#[test]
fn residual_refusals() {
    let data = [0u8; 16];
    let cache = ResidualNeighborCache::default();
    let mut residual = Residual::default();
    // 4:4:4 is refused.
    let mut ctx = CabacContext::new(BitReader::new(&data), 26, &zero_table()).unwrap();
    let mut curr = p_mb();
    assert!(ctx.parse_residual_cabac(false, ChromaFormat::YUV444, &cache, &mut curr, &mut residual).is_err());
    // 4:2:2 chroma DC is refused; without chroma it is not.
    let mut curr = CurrentMbInfo { coded_block_pattern: CodedBlockPattern::new(1, 0), ..p_mb() };
    assert!(ctx.parse_residual_cabac(false, ChromaFormat::YUV422, &cache, &mut curr, &mut residual).is_err());
    let mut curr = p_mb();
    assert!(ctx.parse_residual_cabac(false, ChromaFormat::YUV422, &cache, &mut curr, &mut residual).is_ok());
    // A field picture is refused once a block is coded, not before.
    let mut curr = p_mb();
    assert!(ctx.parse_residual_cabac(true, ChromaFormat::YUV420, &cache, &mut curr, &mut residual).is_ok());
    let mut curr = CurrentMbInfo { coded_block_pattern: CodedBlockPattern::new(0, 1), ..p_mb() };
    assert!(ctx.parse_residual_cabac(true, ChromaFormat::YUV420, &cache, &mut curr, &mut residual).is_err());
}

#[test]
fn neighbour_snapshot_reads_flags_from_levels() {
    let mut nc = [0u8; 16];
    nc[3] = 2;
    nc[12] = 1;
    let mut residual = Residual {
        luma: LumaResidual::Block4x4 { levels: [[0; 16]; 16], nc },
        coded_block_pattern: CodedBlockPattern::new(2, 0b1001),
        ..Residual::default()
    };
    residual.chroma_dc[1] = [0, 0, -3, 0];
    residual.chroma_nc[0] = [0, 1, 0, 4];
    let mb = Macroblock::P(PMb {
        coded_block_pattern: CodedBlockPattern::new(2, 0b1001),
        residual: Some(Box::new(residual)),
        ..PMb::default()
    });
    let cbf = mb.get_cbf_info();
    assert_eq!(cbf.luma_ac, 1 << 3 | 1 << 12);
    assert!(!cbf.luma_dc);
    assert!(!cbf.cb_dc);
    assert!(cbf.cr_dc);
    assert_eq!(cbf.cb_ac, 0b1010);
    assert_eq!(cbf.cr_ac, 0);

    let cache = ResidualNeighborCache::build(Some(&mb), None);
    assert!(cache.a.available);
    assert!(!cache.a.is_skipped);
    assert_eq!(cache.a.cbp, CodedBlockPattern::new(2, 0b1001));
    assert_eq!(cache.a.cbf, cbf);
    assert_eq!(cache.b, CachedNeighborMb::default());

    let pcm = Macroblock::PCM(PcmMb::default());
    let cache = ResidualNeighborCache::build(None, Some(&pcm));
    assert!(cache.b.is_pcm);
    assert_eq!(cache.b.cbf.luma_ac, 0xFFFF);
}

use lib::macroblock::{BMbType, BSubMbType};

#[test]
fn b_partition_geometry() {
    assert_eq!(CabacContext::get_sub_mb_blk_idx_b(BSubMbType::B_L0_8x4, 1), 2);
    assert_eq!(CabacContext::get_sub_mb_blk_idx_b(BSubMbType::B_Bi_4x8, 1), 1);
    assert_eq!(CabacContext::get_sub_mb_blk_idx_b(BSubMbType::B_L1_4x4, 3), 3);
    assert_eq!(CabacContext::get_sub_mb_blk_idx_b(BSubMbType::B_Direct_8x8, 0), 0);
    assert_eq!(CabacContext::get_sub_mb_grid_size_b(BSubMbType::B_L0_8x4), (2, 1));
    assert_eq!(CabacContext::get_sub_mb_grid_size_b(BSubMbType::B_Bi_4x8), (1, 2));
    assert_eq!(CabacContext::get_sub_mb_grid_size_b(BSubMbType::B_L1_8x8), (2, 2));
    assert_eq!(CabacContext::get_mb_part_grid_size_b(BMbType::B_L0_L1_16x8), (4, 2));
    assert_eq!(CabacContext::get_mb_part_grid_size_b(BMbType::B_Bi_L0_8x16), (2, 4));
    assert_eq!(CabacContext::get_mb_part_grid_size_b(BMbType::B_Bi_16x16), (4, 4));
    assert_eq!(CabacContext::get_mb_part_start_blk_idx_b(BMbType::B_L0_L1_16x8, 1), 8);
    assert_eq!(CabacContext::get_mb_part_start_blk_idx_b(BMbType::B_L0_L1_8x16, 1), 4);
    assert_eq!(CabacContext::get_mb_part_start_blk_idx_b(BMbType::B_L0_L1_8x16, 0), 0);
}

use lib::intra_pred::Intra_4x4_SamplePredMode;

#[test]
fn intra4x4_modes_with_cabac() {
    // Block 0: flag 0 then rem 1 (bins 1, 0, 0 at context 69), below the
    // predicted DC: Horizontal. The other fifteen flags are 1: DC, as every
    // block has a neighbour outside the macroblock or next to those.
    let mut enc = Encoder::new();
    enc.decision(68, 0);
    enc.decision(69, 1);
    enc.decision(69, 0);
    enc.decision(69, 0);
    for _ in 0..15 {
        enc.decision(68, 1);
    }
    let data = enc.finish();
    let mut ctx = CabacContext::new(BitReader::new(&data), 26, &zero_table()).unwrap();
    let modes = ctx.parse_intra4x4_pred_modes_cabac(None, None).unwrap();
    assert_eq!(modes[0], Intra_4x4_SamplePredMode::Horizontal);
    assert!(modes[1..].iter().all(|&m| m == Intra_4x4_SamplePredMode::DC));
}
