//! CAVLC parsing: the code tables of `coeff_token`, `total_zeros` and
//! `run_before` (Section 9.2), the decoding of one block of coefficient
//! levels and of all the blocks of a macroblock's residual, the macroblock
//! layer of I, P and B macroblocks (Section 7.3.5) and the slice data loop
//! over `mb_skip_run` (Section 7.3.4).
use crate::bitreader::{
    more_rbsp_spec, se_of, ue_spec, bits_value, lemma_bits_value_bound, padded_value, stream_bit, total_bits, zeros_before_one,
    BitReader,
};
use crate::cabac::{CabacMbType, ParseResult};
use crate::inter_pred::SliceType;
use crate::macroblock::{
    get_4x4chroma_block_neighbor, get_4x4luma_block_neighbor, spec_chroma4x4_neighbor,
    spec_luma4x4_neighbor, b_mb_types, BMbType, CodedBlockPattern, IMb, IMbType, Intra_Chroma_Pred_Mode, LumaResidual,
    PcmMb, Macroblock, MbNeighborName, MbPredictionMode,
    PMbType, Residual, MotionVector, PartitionInfo, InterPredSyntax, SubMbType, BSubMbType, PMb, BMb, MbMotion,
    spec_sub_mb_type_p, spec_num_sub_mb_part_p, b_sub_mb_types, spec_num_sub_mb_part_b,
    spec_sub_mb_pred_mode_b, spec_mb_part_pred_mode_b, spec_num_mb_part_p, spec_num_mb_part_b, no_motion_record,
};
use crate::intra_pred::Intra_4x4_SamplePredMode;
use crate::plane::ColorPlane;
use crate::residual::{
    block_key, block_len, block_levels, block_ok, block_written, fits, is_luma_block, keys_increase,
    lemma_not_yet_parsed, lemma_residual_jobs, lemma_zero_luma_block, nc_slot, nc_view, plane_slot,
    record_nc, residual_blocks, residual_jobs, residual_result, spec_mb_nc, start_levels, start_nc,
    ResidualBlock,
};
use vstd::arithmetic::power2::{
    lemma2_to64, lemma_pow2_strictly_increases, lemma_pow2_unfold, pow2,
};
use vstd::prelude::*;

verus! {

/// A decoded `coeff_token`: `TotalCoeff`, `TrailingOnes` and the length of
/// its code; a length of 0 marks a code that was not recognised.
#[derive(Copy, Clone, Debug, PartialEq, Eq, Default, Structural)]
pub struct CoeffToken {
    pub total_coeffs: u8,
    pub trailing_ones: u8,
    pub pattern_len: u8,
}

impl CoeffToken {
    /// The token stands for a recognised code.
    pub fn is_valid(&self) -> (b: bool)
        ensures
            b == (self.pattern_len > 0),
    {
        self.pattern_len > 0
    }
}

/// The code `pattern` of `len` bits is a prefix of the 16 bits `bits`.
pub open spec fn code_match(bits: u16, pattern: u16, len: u8) -> bool {
    0 < len <= 16 && (bits >> ((16 - len) as u16)) == pattern
}

fn code_match_exec(bits: u16, pattern: u16, len: u8) -> (b: bool)
    ensures
        b == code_match(bits, pattern, len),
{
    0 < len && len <= 16 && (bits >> ((16 - len) as u16)) == pattern
}

/// Table 9-5, the lengths of the `coeff_token` codes of column `c` (0: `0 <=
/// nC < 2`, 1: `2 <= nC < 4`, 2: `4 <= nC < 8`, 3: `8 <= nC`, 4: `nC == -1`,
/// 5: `nC == -2`), indexed by `4 * TotalCoeff + TrailingOnes`; 0 where
/// there is no code.
pub open spec fn ct_len(c: int) -> Seq<u8> {
    if c == 0 {
        seq![1u8, 0, 0, 0, 6, 2, 0, 0, 8, 6, 3, 0, 9, 8, 7, 5, 10, 9, 8, 6, 11, 10, 9, 7, 13, 11, 10, 8, 13, 13, 11, 9, 13, 13, 13, 10, 14, 14, 13, 11, 14, 14, 14, 13, 15, 15, 14, 14, 15, 15, 15, 14, 16, 15, 15, 15, 16, 16, 16, 15, 16, 16, 16, 16, 16, 16, 16, 16]
    } else if c == 1 {
        seq![2u8, 0, 0, 0, 6, 2, 0, 0, 6, 5, 3, 0, 7, 6, 6, 4, 8, 6, 6, 4, 8, 7, 7, 5, 9, 8, 8, 6, 11, 9, 9, 6, 11, 11, 11, 7, 12, 11, 11, 9, 12, 12, 12, 11, 12, 12, 12, 11, 13, 13, 13, 12, 13, 13, 13, 13, 13, 14, 13, 13, 14, 14, 14, 13, 14, 14, 14, 14]
    } else if c == 2 {
        seq![4u8, 0, 0, 0, 6, 4, 0, 0, 6, 5, 4, 0, 6, 5, 5, 4, 7, 5, 5, 4, 7, 5, 5, 4, 7, 6, 6, 4, 7, 6, 6, 4, 8, 7, 7, 5, 8, 8, 7, 6, 9, 8, 8, 7, 9, 9, 8, 8, 9, 9, 9, 8, 10, 9, 9, 9, 10, 10, 10, 10, 10, 10, 10, 10, 10, 10, 10, 10]
    } else if c == 3 {
        seq![6u8, 0, 0, 0, 6, 6, 0, 0, 6, 6, 6, 0, 6, 6, 6, 6, 6, 6, 6, 6, 6, 6, 6, 6, 6, 6, 6, 6, 6, 6, 6, 6, 6, 6, 6, 6, 6, 6, 6, 6, 6, 6, 6, 6, 6, 6, 6, 6, 6, 6, 6, 6, 6, 6, 6, 6, 6, 6, 6, 6, 6, 6, 6, 6, 6, 6, 6, 6]
    } else if c == 4 {
        seq![2u8, 0, 0, 0, 6, 1, 0, 0, 6, 6, 3, 0, 6, 7, 7, 6, 6, 8, 8, 7, 0, 0, 0, 0, 0, 0, 0, 0, 0, 0, 0, 0, 0, 0, 0, 0, 0, 0, 0, 0, 0, 0, 0, 0, 0, 0, 0, 0, 0, 0, 0, 0, 0, 0, 0, 0, 0, 0, 0, 0, 0, 0, 0, 0, 0, 0, 0, 0]
    } else {
        seq![1u8, 0, 0, 0, 7, 2, 0, 0, 7, 7, 3, 0, 9, 7, 7, 5, 9, 9, 7, 6, 10, 10, 9, 7, 11, 11, 10, 7, 12, 12, 11, 10, 13, 12, 12, 11, 0, 0, 0, 0, 0, 0, 0, 0, 0, 0, 0, 0, 0, 0, 0, 0, 0, 0, 0, 0, 0, 0, 0, 0, 0, 0, 0, 0, 0, 0, 0, 0]
    }
}

/// Table 9-5, the `coeff_token` codes of column `c` (see `ct_len`), as
/// unsigned integers of their length.
pub open spec fn ct_bits(c: int) -> Seq<u16> {
    if c == 0 {
        seq![1u16, 0, 0, 0, 5, 1, 0, 0, 7, 4, 1, 0, 7, 6, 5, 3, 7, 6, 5, 3, 7, 6, 5, 4, 15, 6, 5, 4, 11, 14, 5, 4, 8, 10, 13, 4, 15, 14, 9, 4, 11, 10, 13, 12, 15, 14, 9, 12, 11, 10, 13, 8, 15, 1, 9, 12, 11, 14, 13, 8, 7, 10, 9, 12, 4, 6, 5, 8]
    } else if c == 1 {
        seq![3u16, 0, 0, 0, 11, 2, 0, 0, 7, 7, 3, 0, 7, 10, 9, 5, 7, 6, 5, 4, 4, 6, 5, 6, 7, 6, 5, 8, 15, 6, 5, 4, 11, 14, 13, 4, 15, 10, 9, 4, 11, 14, 13, 12, 8, 10, 9, 8, 15, 14, 13, 12, 11, 10, 9, 12, 7, 11, 6, 8, 9, 8, 10, 1, 7, 6, 5, 4]
    } else if c == 2 {
        seq![15u16, 0, 0, 0, 15, 14, 0, 0, 11, 15, 13, 0, 8, 12, 14, 12, 15, 10, 11, 11, 11, 8, 9, 10, 9, 14, 13, 9, 8, 10, 9, 8, 15, 14, 13, 13, 11, 14, 10, 12, 15, 10, 13, 12, 11, 14, 9, 12, 8, 10, 13, 8, 13, 7, 9, 12, 9, 12, 11, 10, 5, 8, 7, 6, 1, 4, 3, 2]
    } else if c == 3 {
        seq![3u16, 0, 0, 0, 0, 1, 0, 0, 4, 5, 6, 0, 8, 9, 10, 11, 12, 13, 14, 15, 16, 17, 18, 19, 20, 21, 22, 23, 24, 25, 26, 27, 28, 29, 30, 31, 32, 33, 34, 35, 36, 37, 38, 39, 40, 41, 42, 43, 44, 45, 46, 47, 48, 49, 50, 51, 52, 53, 54, 55, 56, 57, 58, 59, 60, 61, 62, 63]
    } else if c == 4 {
        seq![1u16, 0, 0, 0, 7, 1, 0, 0, 4, 6, 1, 0, 3, 3, 2, 5, 2, 3, 2, 0, 0, 0, 0, 0, 0, 0, 0, 0, 0, 0, 0, 0, 0, 0, 0, 0, 0, 0, 0, 0, 0, 0, 0, 0, 0, 0, 0, 0, 0, 0, 0, 0, 0, 0, 0, 0, 0, 0, 0, 0, 0, 0, 0, 0, 0, 0, 0, 0]
    } else {
        seq![1u16, 0, 0, 0, 15, 1, 0, 0, 14, 13, 1, 0, 7, 12, 11, 1, 6, 5, 10, 1, 7, 6, 4, 9, 7, 6, 5, 8, 7, 6, 5, 4, 7, 5, 4, 4, 0, 0, 0, 0, 0, 0, 0, 0, 0, 0, 0, 0, 0, 0, 0, 0, 0, 0, 0, 0, 0, 0, 0, 0, 0, 0, 0, 0, 0, 0, 0, 0]
    }
}

/// The lengths and codes of column `c` of Table 9-5.
fn ct_column(c: usize) -> (r: ([u8; 68], [u16; 68]))
    requires
        c < 6,
    ensures
        r.0@ == ct_len(c as int),
        r.1@ == ct_bits(c as int),
{
    if c == 0 {
        let l: [u8; 68] = [1, 0, 0, 0, 6, 2, 0, 0, 8, 6, 3, 0, 9, 8, 7, 5, 10, 9, 8, 6, 11, 10, 9, 7, 13, 11, 10, 8, 13, 13, 11, 9, 13, 13, 13, 10, 14, 14, 13, 11, 14, 14, 14, 13, 15, 15, 14, 14, 15, 15, 15, 14, 16, 15, 15, 15, 16, 16, 16, 15, 16, 16, 16, 16, 16, 16, 16, 16];
        let b: [u16; 68] = [1, 0, 0, 0, 5, 1, 0, 0, 7, 4, 1, 0, 7, 6, 5, 3, 7, 6, 5, 3, 7, 6, 5, 4, 15, 6, 5, 4, 11, 14, 5, 4, 8, 10, 13, 4, 15, 14, 9, 4, 11, 10, 13, 12, 15, 14, 9, 12, 11, 10, 13, 8, 15, 1, 9, 12, 11, 14, 13, 8, 7, 10, 9, 12, 4, 6, 5, 8];
        assert(l@ =~= ct_len(0));
        assert(b@ =~= ct_bits(0));
        (l, b)
    } else if c == 1 {
        let l: [u8; 68] = [2, 0, 0, 0, 6, 2, 0, 0, 6, 5, 3, 0, 7, 6, 6, 4, 8, 6, 6, 4, 8, 7, 7, 5, 9, 8, 8, 6, 11, 9, 9, 6, 11, 11, 11, 7, 12, 11, 11, 9, 12, 12, 12, 11, 12, 12, 12, 11, 13, 13, 13, 12, 13, 13, 13, 13, 13, 14, 13, 13, 14, 14, 14, 13, 14, 14, 14, 14];
        let b: [u16; 68] = [3, 0, 0, 0, 11, 2, 0, 0, 7, 7, 3, 0, 7, 10, 9, 5, 7, 6, 5, 4, 4, 6, 5, 6, 7, 6, 5, 8, 15, 6, 5, 4, 11, 14, 13, 4, 15, 10, 9, 4, 11, 14, 13, 12, 8, 10, 9, 8, 15, 14, 13, 12, 11, 10, 9, 12, 7, 11, 6, 8, 9, 8, 10, 1, 7, 6, 5, 4];
        assert(l@ =~= ct_len(1));
        assert(b@ =~= ct_bits(1));
        (l, b)
    } else if c == 2 {
        let l: [u8; 68] = [4, 0, 0, 0, 6, 4, 0, 0, 6, 5, 4, 0, 6, 5, 5, 4, 7, 5, 5, 4, 7, 5, 5, 4, 7, 6, 6, 4, 7, 6, 6, 4, 8, 7, 7, 5, 8, 8, 7, 6, 9, 8, 8, 7, 9, 9, 8, 8, 9, 9, 9, 8, 10, 9, 9, 9, 10, 10, 10, 10, 10, 10, 10, 10, 10, 10, 10, 10];
        let b: [u16; 68] = [15, 0, 0, 0, 15, 14, 0, 0, 11, 15, 13, 0, 8, 12, 14, 12, 15, 10, 11, 11, 11, 8, 9, 10, 9, 14, 13, 9, 8, 10, 9, 8, 15, 14, 13, 13, 11, 14, 10, 12, 15, 10, 13, 12, 11, 14, 9, 12, 8, 10, 13, 8, 13, 7, 9, 12, 9, 12, 11, 10, 5, 8, 7, 6, 1, 4, 3, 2];
        assert(l@ =~= ct_len(2));
        assert(b@ =~= ct_bits(2));
        (l, b)
    } else if c == 3 {
        let l: [u8; 68] = [6, 0, 0, 0, 6, 6, 0, 0, 6, 6, 6, 0, 6, 6, 6, 6, 6, 6, 6, 6, 6, 6, 6, 6, 6, 6, 6, 6, 6, 6, 6, 6, 6, 6, 6, 6, 6, 6, 6, 6, 6, 6, 6, 6, 6, 6, 6, 6, 6, 6, 6, 6, 6, 6, 6, 6, 6, 6, 6, 6, 6, 6, 6, 6, 6, 6, 6, 6];
        let b: [u16; 68] = [3, 0, 0, 0, 0, 1, 0, 0, 4, 5, 6, 0, 8, 9, 10, 11, 12, 13, 14, 15, 16, 17, 18, 19, 20, 21, 22, 23, 24, 25, 26, 27, 28, 29, 30, 31, 32, 33, 34, 35, 36, 37, 38, 39, 40, 41, 42, 43, 44, 45, 46, 47, 48, 49, 50, 51, 52, 53, 54, 55, 56, 57, 58, 59, 60, 61, 62, 63];
        assert(l@ =~= ct_len(3));
        assert(b@ =~= ct_bits(3));
        (l, b)
    } else if c == 4 {
        let l: [u8; 68] = [2, 0, 0, 0, 6, 1, 0, 0, 6, 6, 3, 0, 6, 7, 7, 6, 6, 8, 8, 7, 0, 0, 0, 0, 0, 0, 0, 0, 0, 0, 0, 0, 0, 0, 0, 0, 0, 0, 0, 0, 0, 0, 0, 0, 0, 0, 0, 0, 0, 0, 0, 0, 0, 0, 0, 0, 0, 0, 0, 0, 0, 0, 0, 0, 0, 0, 0, 0];
        let b: [u16; 68] = [1, 0, 0, 0, 7, 1, 0, 0, 4, 6, 1, 0, 3, 3, 2, 5, 2, 3, 2, 0, 0, 0, 0, 0, 0, 0, 0, 0, 0, 0, 0, 0, 0, 0, 0, 0, 0, 0, 0, 0, 0, 0, 0, 0, 0, 0, 0, 0, 0, 0, 0, 0, 0, 0, 0, 0, 0, 0, 0, 0, 0, 0, 0, 0, 0, 0, 0, 0];
        assert(l@ =~= ct_len(4));
        assert(b@ =~= ct_bits(4));
        (l, b)
    } else {
        let l: [u8; 68] = [1, 0, 0, 0, 7, 2, 0, 0, 7, 7, 3, 0, 9, 7, 7, 5, 9, 9, 7, 6, 10, 10, 9, 7, 11, 11, 10, 7, 12, 12, 11, 10, 13, 12, 12, 11, 0, 0, 0, 0, 0, 0, 0, 0, 0, 0, 0, 0, 0, 0, 0, 0, 0, 0, 0, 0, 0, 0, 0, 0, 0, 0, 0, 0, 0, 0, 0, 0];
        let b: [u16; 68] = [1, 0, 0, 0, 15, 1, 0, 0, 14, 13, 1, 0, 7, 12, 11, 1, 6, 5, 10, 1, 7, 6, 4, 9, 7, 6, 5, 8, 7, 6, 5, 4, 7, 5, 4, 4, 0, 0, 0, 0, 0, 0, 0, 0, 0, 0, 0, 0, 0, 0, 0, 0, 0, 0, 0, 0, 0, 0, 0, 0, 0, 0, 0, 0, 0, 0, 0, 0];
        assert(l@ =~= ct_len(5));
        assert(b@ =~= ct_bits(5));
        (l, b)
    }
}

/// Tables 9-7 and 9-8, the lengths of the `total_zeros` codes for
/// `tzVlcIndex` `v` (1..=15), indexed by `total_zeros`; 0 where there is no
/// code.
pub open spec fn tz_len(v: int) -> Seq<u8> {
    if v == 1 {
        seq![1u8, 3, 3, 4, 4, 5, 5, 6, 6, 7, 7, 8, 8, 9, 9, 9]
    } else if v == 2 {
        seq![3u8, 3, 3, 3, 3, 4, 4, 4, 4, 5, 5, 6, 6, 6, 6, 0]
    } else if v == 3 {
        seq![4u8, 3, 3, 3, 4, 4, 3, 3, 4, 5, 5, 6, 5, 6, 0, 0]
    } else if v == 4 {
        seq![5u8, 3, 4, 4, 3, 3, 3, 4, 3, 4, 5, 5, 5, 0, 0, 0]
    } else if v == 5 {
        seq![4u8, 4, 4, 3, 3, 3, 3, 3, 4, 5, 4, 5, 0, 0, 0, 0]
    } else if v == 6 {
        seq![6u8, 5, 3, 3, 3, 3, 3, 3, 4, 3, 6, 0, 0, 0, 0, 0]
    } else if v == 7 {
        seq![6u8, 5, 3, 3, 3, 2, 3, 4, 3, 6, 0, 0, 0, 0, 0, 0]
    } else if v == 8 {
        seq![6u8, 4, 5, 3, 2, 2, 3, 3, 6, 0, 0, 0, 0, 0, 0, 0]
    } else if v == 9 {
        seq![6u8, 6, 4, 2, 2, 3, 2, 5, 0, 0, 0, 0, 0, 0, 0, 0]
    } else if v == 10 {
        seq![5u8, 5, 3, 2, 2, 2, 4, 0, 0, 0, 0, 0, 0, 0, 0, 0]
    } else if v == 11 {
        seq![4u8, 4, 3, 3, 1, 3, 0, 0, 0, 0, 0, 0, 0, 0, 0, 0]
    } else if v == 12 {
        seq![4u8, 4, 2, 1, 3, 0, 0, 0, 0, 0, 0, 0, 0, 0, 0, 0]
    } else if v == 13 {
        seq![3u8, 3, 1, 2, 0, 0, 0, 0, 0, 0, 0, 0, 0, 0, 0, 0]
    } else if v == 14 {
        seq![2u8, 2, 1, 0, 0, 0, 0, 0, 0, 0, 0, 0, 0, 0, 0, 0]
    } else {
        seq![1u8, 1, 0, 0, 0, 0, 0, 0, 0, 0, 0, 0, 0, 0, 0, 0]
    }
}

/// Tables 9-7 and 9-8, the `total_zeros` codes for `tzVlcIndex` `v`.
pub open spec fn tz_bits(v: int) -> Seq<u16> {
    if v == 1 {
        seq![1u16, 3, 2, 3, 2, 3, 2, 3, 2, 3, 2, 3, 2, 3, 2, 1]
    } else if v == 2 {
        seq![7u16, 6, 5, 4, 3, 5, 4, 3, 2, 3, 2, 3, 2, 1, 0, 0]
    } else if v == 3 {
        seq![5u16, 7, 6, 5, 4, 3, 4, 3, 2, 3, 2, 1, 1, 0, 0, 0]
    } else if v == 4 {
        seq![3u16, 7, 5, 4, 6, 5, 4, 3, 3, 2, 2, 1, 0, 0, 0, 0]
    } else if v == 5 {
        seq![5u16, 4, 3, 7, 6, 5, 4, 3, 2, 1, 1, 0, 0, 0, 0, 0]
    } else if v == 6 {
        seq![1u16, 1, 7, 6, 5, 4, 3, 2, 1, 1, 0, 0, 0, 0, 0, 0]
    } else if v == 7 {
        seq![1u16, 1, 5, 4, 3, 3, 2, 1, 1, 0, 0, 0, 0, 0, 0, 0]
    } else if v == 8 {
        seq![1u16, 1, 1, 3, 3, 2, 2, 1, 0, 0, 0, 0, 0, 0, 0, 0]
    } else if v == 9 {
        seq![1u16, 0, 1, 3, 2, 1, 1, 1, 0, 0, 0, 0, 0, 0, 0, 0]
    } else if v == 10 {
        seq![1u16, 0, 1, 3, 2, 1, 1, 0, 0, 0, 0, 0, 0, 0, 0, 0]
    } else if v == 11 {
        seq![0u16, 1, 1, 2, 1, 3, 0, 0, 0, 0, 0, 0, 0, 0, 0, 0]
    } else if v == 12 {
        seq![0u16, 1, 1, 1, 1, 0, 0, 0, 0, 0, 0, 0, 0, 0, 0, 0]
    } else if v == 13 {
        seq![0u16, 1, 1, 1, 0, 0, 0, 0, 0, 0, 0, 0, 0, 0, 0, 0]
    } else if v == 14 {
        seq![0u16, 1, 1, 0, 0, 0, 0, 0, 0, 0, 0, 0, 0, 0, 0, 0]
    } else {
        seq![0u16, 1, 0, 0, 0, 0, 0, 0, 0, 0, 0, 0, 0, 0, 0, 0]
    }
}

fn tz_column(v: u8) -> (r: ([u8; 16], [u16; 16]))
    requires
        1 <= v <= 15,
    ensures
        r.0@ == tz_len(v as int),
        r.1@ == tz_bits(v as int),
{
    if v == 1 {
        let l: [u8; 16] = [1, 3, 3, 4, 4, 5, 5, 6, 6, 7, 7, 8, 8, 9, 9, 9];
        let b: [u16; 16] = [1, 3, 2, 3, 2, 3, 2, 3, 2, 3, 2, 3, 2, 3, 2, 1];
        assert(l@ =~= tz_len(1));
        assert(b@ =~= tz_bits(1));
        (l, b)
    } else if v == 2 {
        let l: [u8; 16] = [3, 3, 3, 3, 3, 4, 4, 4, 4, 5, 5, 6, 6, 6, 6, 0];
        let b: [u16; 16] = [7, 6, 5, 4, 3, 5, 4, 3, 2, 3, 2, 3, 2, 1, 0, 0];
        assert(l@ =~= tz_len(2));
        assert(b@ =~= tz_bits(2));
        (l, b)
    } else if v == 3 {
        let l: [u8; 16] = [4, 3, 3, 3, 4, 4, 3, 3, 4, 5, 5, 6, 5, 6, 0, 0];
        let b: [u16; 16] = [5, 7, 6, 5, 4, 3, 4, 3, 2, 3, 2, 1, 1, 0, 0, 0];
        assert(l@ =~= tz_len(3));
        assert(b@ =~= tz_bits(3));
        (l, b)
    } else if v == 4 {
        let l: [u8; 16] = [5, 3, 4, 4, 3, 3, 3, 4, 3, 4, 5, 5, 5, 0, 0, 0];
        let b: [u16; 16] = [3, 7, 5, 4, 6, 5, 4, 3, 3, 2, 2, 1, 0, 0, 0, 0];
        assert(l@ =~= tz_len(4));
        assert(b@ =~= tz_bits(4));
        (l, b)
    } else if v == 5 {
        let l: [u8; 16] = [4, 4, 4, 3, 3, 3, 3, 3, 4, 5, 4, 5, 0, 0, 0, 0];
        let b: [u16; 16] = [5, 4, 3, 7, 6, 5, 4, 3, 2, 1, 1, 0, 0, 0, 0, 0];
        assert(l@ =~= tz_len(5));
        assert(b@ =~= tz_bits(5));
        (l, b)
    } else if v == 6 {
        let l: [u8; 16] = [6, 5, 3, 3, 3, 3, 3, 3, 4, 3, 6, 0, 0, 0, 0, 0];
        let b: [u16; 16] = [1, 1, 7, 6, 5, 4, 3, 2, 1, 1, 0, 0, 0, 0, 0, 0];
        assert(l@ =~= tz_len(6));
        assert(b@ =~= tz_bits(6));
        (l, b)
    } else if v == 7 {
        let l: [u8; 16] = [6, 5, 3, 3, 3, 2, 3, 4, 3, 6, 0, 0, 0, 0, 0, 0];
        let b: [u16; 16] = [1, 1, 5, 4, 3, 3, 2, 1, 1, 0, 0, 0, 0, 0, 0, 0];
        assert(l@ =~= tz_len(7));
        assert(b@ =~= tz_bits(7));
        (l, b)
    } else if v == 8 {
        let l: [u8; 16] = [6, 4, 5, 3, 2, 2, 3, 3, 6, 0, 0, 0, 0, 0, 0, 0];
        let b: [u16; 16] = [1, 1, 1, 3, 3, 2, 2, 1, 0, 0, 0, 0, 0, 0, 0, 0];
        assert(l@ =~= tz_len(8));
        assert(b@ =~= tz_bits(8));
        (l, b)
    } else if v == 9 {
        let l: [u8; 16] = [6, 6, 4, 2, 2, 3, 2, 5, 0, 0, 0, 0, 0, 0, 0, 0];
        let b: [u16; 16] = [1, 0, 1, 3, 2, 1, 1, 1, 0, 0, 0, 0, 0, 0, 0, 0];
        assert(l@ =~= tz_len(9));
        assert(b@ =~= tz_bits(9));
        (l, b)
    } else if v == 10 {
        let l: [u8; 16] = [5, 5, 3, 2, 2, 2, 4, 0, 0, 0, 0, 0, 0, 0, 0, 0];
        let b: [u16; 16] = [1, 0, 1, 3, 2, 1, 1, 0, 0, 0, 0, 0, 0, 0, 0, 0];
        assert(l@ =~= tz_len(10));
        assert(b@ =~= tz_bits(10));
        (l, b)
    } else if v == 11 {
        let l: [u8; 16] = [4, 4, 3, 3, 1, 3, 0, 0, 0, 0, 0, 0, 0, 0, 0, 0];
        let b: [u16; 16] = [0, 1, 1, 2, 1, 3, 0, 0, 0, 0, 0, 0, 0, 0, 0, 0];
        assert(l@ =~= tz_len(11));
        assert(b@ =~= tz_bits(11));
        (l, b)
    } else if v == 12 {
        let l: [u8; 16] = [4, 4, 2, 1, 3, 0, 0, 0, 0, 0, 0, 0, 0, 0, 0, 0];
        let b: [u16; 16] = [0, 1, 1, 1, 1, 0, 0, 0, 0, 0, 0, 0, 0, 0, 0, 0];
        assert(l@ =~= tz_len(12));
        assert(b@ =~= tz_bits(12));
        (l, b)
    } else if v == 13 {
        let l: [u8; 16] = [3, 3, 1, 2, 0, 0, 0, 0, 0, 0, 0, 0, 0, 0, 0, 0];
        let b: [u16; 16] = [0, 1, 1, 1, 0, 0, 0, 0, 0, 0, 0, 0, 0, 0, 0, 0];
        assert(l@ =~= tz_len(13));
        assert(b@ =~= tz_bits(13));
        (l, b)
    } else if v == 14 {
        let l: [u8; 16] = [2, 2, 1, 0, 0, 0, 0, 0, 0, 0, 0, 0, 0, 0, 0, 0];
        let b: [u16; 16] = [0, 1, 1, 0, 0, 0, 0, 0, 0, 0, 0, 0, 0, 0, 0, 0];
        assert(l@ =~= tz_len(14));
        assert(b@ =~= tz_bits(14));
        (l, b)
    } else {
        let l: [u8; 16] = [1, 1, 0, 0, 0, 0, 0, 0, 0, 0, 0, 0, 0, 0, 0, 0];
        let b: [u16; 16] = [0, 1, 0, 0, 0, 0, 0, 0, 0, 0, 0, 0, 0, 0, 0, 0];
        assert(l@ =~= tz_len(15));
        assert(b@ =~= tz_bits(15));
        (l, b)
    }
}

/// Table 9-9 (a), the lengths of the `total_zeros` codes of 4:2:0 chroma
/// DC blocks for `tzVlcIndex` `v` (1..=3), indexed by `total_zeros`.
pub open spec fn tzc_len(v: int) -> Seq<u8> {
    if v == 1 {
        seq![1u8, 2, 3, 3]
    } else if v == 2 {
        seq![1u8, 2, 2, 0]
    } else {
        seq![1u8, 1, 0, 0]
    }
}

/// Table 9-9 (a), the `total_zeros` codes of 4:2:0 chroma DC blocks.
pub open spec fn tzc_bits(v: int) -> Seq<u16> {
    if v == 1 {
        seq![1u16, 1, 1, 0]
    } else if v == 2 {
        seq![1u16, 1, 0, 0]
    } else {
        seq![1u16, 0, 0, 0]
    }
}

fn tzc_column(v: u8) -> (r: ([u8; 4], [u16; 4]))
    requires
        1 <= v <= 3,
    ensures
        r.0@ == tzc_len(v as int),
        r.1@ == tzc_bits(v as int),
{
    if v == 1 {
        let l: [u8; 4] = [1, 2, 3, 3];
        let b: [u16; 4] = [1, 1, 1, 0];
        assert(l@ =~= tzc_len(1));
        assert(b@ =~= tzc_bits(1));
        (l, b)
    } else if v == 2 {
        let l: [u8; 4] = [1, 2, 2, 0];
        let b: [u16; 4] = [1, 1, 0, 0];
        assert(l@ =~= tzc_len(2));
        assert(b@ =~= tzc_bits(2));
        (l, b)
    } else {
        let l: [u8; 4] = [1, 1, 0, 0];
        let b: [u16; 4] = [1, 0, 0, 0];
        assert(l@ =~= tzc_len(3));
        assert(b@ =~= tzc_bits(3));
        (l, b)
    }
}

/// Table 9-10, the lengths of the `run_before` codes for `zerosLeft` `z`
/// (1..=6, and 7 for more than 6), indexed by `run_before`; 0 where there
/// is no code.
pub open spec fn rb_len(z: int) -> Seq<u8> {
    if z == 1 {
        seq![1u8, 1, 0, 0, 0, 0, 0, 0, 0, 0, 0, 0, 0, 0, 0]
    } else if z == 2 {
        seq![1u8, 2, 2, 0, 0, 0, 0, 0, 0, 0, 0, 0, 0, 0, 0]
    } else if z == 3 {
        seq![2u8, 2, 2, 2, 0, 0, 0, 0, 0, 0, 0, 0, 0, 0, 0]
    } else if z == 4 {
        seq![2u8, 2, 2, 3, 3, 0, 0, 0, 0, 0, 0, 0, 0, 0, 0]
    } else if z == 5 {
        seq![2u8, 2, 3, 3, 3, 3, 0, 0, 0, 0, 0, 0, 0, 0, 0]
    } else if z == 6 {
        seq![2u8, 3, 3, 3, 3, 3, 3, 0, 0, 0, 0, 0, 0, 0, 0]
    } else {
        seq![3u8, 3, 3, 3, 3, 3, 3, 4, 5, 6, 7, 8, 9, 10, 11]
    }
}

/// Table 9-10, the `run_before` codes for `zerosLeft` `z`.
pub open spec fn rb_bits(z: int) -> Seq<u16> {
    if z == 1 {
        seq![1u16, 0, 0, 0, 0, 0, 0, 0, 0, 0, 0, 0, 0, 0, 0]
    } else if z == 2 {
        seq![1u16, 1, 0, 0, 0, 0, 0, 0, 0, 0, 0, 0, 0, 0, 0]
    } else if z == 3 {
        seq![3u16, 2, 1, 0, 0, 0, 0, 0, 0, 0, 0, 0, 0, 0, 0]
    } else if z == 4 {
        seq![3u16, 2, 1, 1, 0, 0, 0, 0, 0, 0, 0, 0, 0, 0, 0]
    } else if z == 5 {
        seq![3u16, 2, 3, 2, 1, 0, 0, 0, 0, 0, 0, 0, 0, 0, 0]
    } else if z == 6 {
        seq![3u16, 0, 1, 3, 2, 5, 4, 0, 0, 0, 0, 0, 0, 0, 0]
    } else {
        seq![7u16, 6, 5, 4, 3, 2, 1, 1, 1, 1, 1, 1, 1, 1, 1]
    }
}

fn rb_column(z: u8) -> (r: ([u8; 15], [u16; 15]))
    requires
        1 <= z <= 7,
    ensures
        r.0@ == rb_len(z as int),
        r.1@ == rb_bits(z as int),
{
    if z == 1 {
        let l: [u8; 15] = [1, 1, 0, 0, 0, 0, 0, 0, 0, 0, 0, 0, 0, 0, 0];
        let b: [u16; 15] = [1, 0, 0, 0, 0, 0, 0, 0, 0, 0, 0, 0, 0, 0, 0];
        assert(l@ =~= rb_len(1));
        assert(b@ =~= rb_bits(1));
        (l, b)
    } else if z == 2 {
        let l: [u8; 15] = [1, 2, 2, 0, 0, 0, 0, 0, 0, 0, 0, 0, 0, 0, 0];
        let b: [u16; 15] = [1, 1, 0, 0, 0, 0, 0, 0, 0, 0, 0, 0, 0, 0, 0];
        assert(l@ =~= rb_len(2));
        assert(b@ =~= rb_bits(2));
        (l, b)
    } else if z == 3 {
        let l: [u8; 15] = [2, 2, 2, 2, 0, 0, 0, 0, 0, 0, 0, 0, 0, 0, 0];
        let b: [u16; 15] = [3, 2, 1, 0, 0, 0, 0, 0, 0, 0, 0, 0, 0, 0, 0];
        assert(l@ =~= rb_len(3));
        assert(b@ =~= rb_bits(3));
        (l, b)
    } else if z == 4 {
        let l: [u8; 15] = [2, 2, 2, 3, 3, 0, 0, 0, 0, 0, 0, 0, 0, 0, 0];
        let b: [u16; 15] = [3, 2, 1, 1, 0, 0, 0, 0, 0, 0, 0, 0, 0, 0, 0];
        assert(l@ =~= rb_len(4));
        assert(b@ =~= rb_bits(4));
        (l, b)
    } else if z == 5 {
        let l: [u8; 15] = [2, 2, 3, 3, 3, 3, 0, 0, 0, 0, 0, 0, 0, 0, 0];
        let b: [u16; 15] = [3, 2, 3, 2, 1, 0, 0, 0, 0, 0, 0, 0, 0, 0, 0];
        assert(l@ =~= rb_len(5));
        assert(b@ =~= rb_bits(5));
        (l, b)
    } else if z == 6 {
        let l: [u8; 15] = [2, 3, 3, 3, 3, 3, 3, 0, 0, 0, 0, 0, 0, 0, 0];
        let b: [u16; 15] = [3, 0, 1, 3, 2, 5, 4, 0, 0, 0, 0, 0, 0, 0, 0];
        assert(l@ =~= rb_len(6));
        assert(b@ =~= rb_bits(6));
        (l, b)
    } else {
        let l: [u8; 15] = [3, 3, 3, 3, 3, 3, 3, 4, 5, 6, 7, 8, 9, 10, 11];
        let b: [u16; 15] = [7, 6, 5, 4, 3, 2, 1, 1, 1, 1, 1, 1, 1, 1, 1];
        assert(l@ =~= rb_len(7));
        assert(b@ =~= rb_bits(7));
        (l, b)
    }
}

/// The column of Table 9-5 for `nC` (see `ct_len`), or -1 for none.
pub open spec fn nc_column(nc: int) -> int {
    if 0 <= nc < 2 {
        0
    } else if 2 <= nc < 4 {
        1
    } else if 4 <= nc < 8 {
        2
    } else if nc >= 8 {
        3
    } else if nc == -1 {
        4
    } else if nc == -2 {
        5
    } else {
        -1
    }
}

/// The token that a code of zero length stands for.
pub open spec fn no_token() -> CoeffToken {
    CoeffToken { total_coeffs: 0, trailing_ones: 0, pattern_len: 0 }
}

/// Table 9-5: the `coeff_token` of column `c` whose code is a prefix of
/// `bits`, scanning the codes in order of `TotalCoeff` and then
/// `TrailingOnes` from entry `k` on and stopping at the first entry without
/// a code; `no_token()` when none matches.
pub open spec fn ct_scan(bits: u16, c: int, k: int) -> CoeffToken
    decreases 68 - k,
{
    if k >= 68 || k < 0 {
        no_token()
    } else if k % 4 > k / 4 {
        ct_scan(bits, c, k + 1)
    } else if ct_len(c)[k] == 0 {
        no_token()
    } else if code_match(bits, ct_bits(c)[k], ct_len(c)[k]) {
        CoeffToken { total_coeffs: (k / 4) as u8, trailing_ones: (k % 4) as u8, pattern_len: ct_len(c)[k] }
    } else {
        ct_scan(bits, c, k + 1)
    }
}

/// Section 9.2.1, Table 9-5: the `coeff_token` whose code starts the 16
/// bits `bits`, in the column of `nC`.
pub open spec fn spec_coeff_token(bits: u16, nc: int) -> CoeffToken {
    let c = nc_column(nc);
    if c < 0 {
        no_token()
    } else {
        ct_scan(bits, c, 0)
    }
}

/// Section 9.2.1, Table 9-5: the `coeff_token` whose code starts the 16
/// bits `bits` (see `spec_coeff_token`).
pub fn lookup_coeff_token(bits: u16, nc: i32) -> (t: CoeffToken)
    ensures
        t == spec_coeff_token(bits, nc as int),
{
    let c: usize = if 0 <= nc && nc < 2 {
        0
    } else if 2 <= nc && nc < 4 {
        1
    } else if 4 <= nc && nc < 8 {
        2
    } else if nc >= 8 {
        3
    } else if nc == -1 {
        4
    } else if nc == -2 {
        5
    } else {
        return CoeffToken { total_coeffs: 0, trailing_ones: 0, pattern_len: 0 };
    };
    let (lens, codes) = ct_column(c);
    let mut k: usize = 0;
    while k < 68
        invariant
            k <= 68,
            c < 6,
            c as int == nc_column(nc as int),
            lens@ == ct_len(c as int),
            codes@ == ct_bits(c as int),
            ct_scan(bits, c as int, 0) == ct_scan(bits, c as int, k as int),
        decreases 68 - k,
    {
        if k % 4 <= k / 4 {
            let len = lens[k];
            if len == 0 {
                return CoeffToken { total_coeffs: 0, trailing_ones: 0, pattern_len: 0 };
            }
            if code_match_exec(bits, codes[k], len) {
                return CoeffToken { total_coeffs: (k / 4) as u8, trailing_ones: (k % 4) as u8, pattern_len: len };
            }
        }
        k = k + 1;
    }
    CoeffToken { total_coeffs: 0, trailing_ones: 0, pattern_len: 0 }
}

/// The entry from `k` on of a code table with lengths `lens` and codes
/// `codes` whose code is a prefix of `bits`, as (entry, length); `(0, 0)`
/// when none matches. With `stop`, the scan ends at the first entry without
/// a code.
pub open spec fn table_scan(bits: u16, lens: Seq<u8>, codes: Seq<u16>, k: int, stop: bool) -> (u8, u8)
    decreases lens.len() - k,
{
    if k >= lens.len() || k < 0 {
        (0, 0)
    } else if stop && lens[k] == 0 {
        (0, 0)
    } else if code_match(bits, codes[k], lens[k]) {
        (k as u8, lens[k])
    } else {
        table_scan(bits, lens, codes, k + 1, stop)
    }
}

/// Tables 9-7 and 9-8: `(total_zeros, length)` of the code that starts
/// `bits` for `tzVlcIndex` `vlc_idx`, `(0, 0)` for none.
pub open spec fn spec_total_zeros(bits: u16, vlc_idx: int) -> (u8, u8) {
    if vlc_idx < 1 || vlc_idx > 15 {
        (0, 0)
    } else {
        table_scan(bits, tz_len(vlc_idx), tz_bits(vlc_idx), 0, false)
    }
}

/// Table 9-9 (a): `(total_zeros, length)` of the 4:2:0 chroma DC code that
/// starts `bits`, `(0, 0)` for none.
pub open spec fn spec_total_zeros_chroma(bits: u16, vlc_idx: int) -> (u8, u8) {
    if vlc_idx < 1 || vlc_idx > 3 {
        (0, 0)
    } else {
        table_scan(bits, tzc_len(vlc_idx), tzc_bits(vlc_idx), 0, false)
    }
}

/// Table 9-10: `(run_before, length)` of the code that starts `bits` when
/// `zeros_left` zeros are left, `(0, 0)` for none.
pub open spec fn spec_run_before(bits: u16, zeros_left: int) -> (u8, u8) {
    if zeros_left <= 0 {
        (0, 0)
    } else {
        table_scan(
            bits,
            rb_len(if zeros_left > 7 { 7 } else { zeros_left }),
            rb_bits(if zeros_left > 7 { 7 } else { zeros_left }),
            0,
            true,
        )
    }
}

fn table_lookup<const N: usize>(bits: u16, lens: &[u8; N], codes: &[u16; N], stop: bool) -> (r: (u8, u8))
    requires
        N <= 68,
    ensures
        r == table_scan(bits, lens@, codes@, 0, stop),
{
    let mut k: usize = 0;
    while k < N
        invariant
            k <= N <= 68,
            lens@.len() == N,
            table_scan(bits, lens@, codes@, 0, stop) == table_scan(bits, lens@, codes@, k as int, stop),
        decreases N - k,
    {
        let len = lens[k];
        if stop && len == 0 {
            return (0, 0);
        }
        if code_match_exec(bits, codes[k], len) {
            return (k as u8, len);
        }
        k = k + 1;
    }
    (0, 0)
}

/// Tables 9-7 and 9-8 (see `spec_total_zeros`).
pub fn lookup_total_zeros(bits: u16, vlc_idx: u8) -> (r: (u8, u8))
    ensures
        r == spec_total_zeros(bits, vlc_idx as int),
{
    if vlc_idx == 0 || vlc_idx > 15 {
        return (0, 0);
    }
    let (lens, codes) = tz_column(vlc_idx);
    table_lookup(bits, &lens, &codes, false)
}

/// Table 9-9 (a) (see `spec_total_zeros_chroma`).
pub fn lookup_total_zeros_chroma(bits: u16, vlc_idx: u8) -> (r: (u8, u8))
    ensures
        r == spec_total_zeros_chroma(bits, vlc_idx as int),
{
    if vlc_idx < 1 || vlc_idx > 3 {
        return (0, 0);
    }
    let (lens, codes) = tzc_column(vlc_idx);
    table_lookup(bits, &lens, &codes, false)
}

/// Table 9-10 (see `spec_run_before`).
pub fn lookup_run_before(bits: u16, zeros_left: u8) -> (r: (u8, u8))
    ensures
        r == spec_run_before(bits, zeros_left as int),
{
    if zeros_left == 0 {
        return (0, 0);
    }
    let z = if zeros_left > 7 {
        7
    } else {
        zeros_left
    };
    let (lens, codes) = rb_column(z);
    table_lookup(bits, &lens, &codes, true)
}

/// A `coeff_token` that was recognised has `TrailingOnes <= TotalCoeff <=
/// 16`, at most three trailing ones and a code of at most 16 bits.
proof fn lemma_ct_scan_shape(bits: u16, c: int, k: int)
    ensures
        ct_scan(bits, c, k).pattern_len > 0 ==> {
            let t = ct_scan(bits, c, k);
            &&& t.trailing_ones <= t.total_coeffs <= 16
            &&& t.trailing_ones <= 3
            &&& t.pattern_len <= 16
        },
    decreases 68 - k,
{
    if k >= 68 || k < 0 {
    } else if k % 4 > k / 4 {
        lemma_ct_scan_shape(bits, c, k + 1);
    } else if ct_len(c)[k] == 0 {
    } else if code_match(bits, ct_bits(c)[k], ct_len(c)[k]) {
    } else {
        lemma_ct_scan_shape(bits, c, k + 1);
    }
}

/// Section 9.2.1: the `coeff_token` at bit `pos`, read from the next 16
/// bits with 0 past the end; `None` when no bit is left, no code matches or
/// the code runs past the end.
pub open spec fn token_at(data: Seq<u8>, pos: int, nc: int) -> Option<CoeffToken> {
    if pos >= total_bits(data) {
        None
    } else {
        let t = spec_coeff_token(padded_value(data, pos, 16) as u16, nc);
        if t.pattern_len == 0 || pos + t.pattern_len > total_bits(data) {
            None
        } else {
            Some(t)
        }
    }
}

/// The largest `level_prefix` that is decoded; a larger one makes
/// `levelCode` leave the range of 32-bit levels, and is refused.
pub const MAX_LEVEL_PREFIX: u32 = 33;

/// Section 9.2.2.1: the size in bits of `level_suffix` after `level_prefix`
/// `prefix` with `suffixLength` `suffix_len`.
pub open spec fn suffix_size(prefix: int, suffix_len: int) -> int {
    if prefix == 14 && suffix_len == 0 {
        4
    } else if prefix >= 15 {
        prefix - 3
    } else {
        suffix_len
    }
}

/// Section 9.2.2.1: `levelCode` from `level_prefix`, `suffixLength` and
/// `level_suffix`; `first_bonus` adds 2 for the first level after fewer
/// than three trailing ones.
pub open spec fn level_code(prefix: int, suffix_len: int, suffix: int, first_bonus: bool) -> int {
    (if prefix < 15 { prefix } else { 15 }) * pow2(suffix_len as nat) + suffix + (if prefix >= 15
        && suffix_len == 0 {
        15int
    } else {
        0int
    }) + (if prefix >= 16 {
        pow2((prefix - 3) as nat) - 4096
    } else {
        0int
    }) + (if first_bonus {
        2int
    } else {
        0int
    })
}

/// The magnitude of the level that `levelCode` `code` stands for.
pub open spec fn level_magnitude(code: int) -> int {
    if code % 2 == 0 {
        (code + 2) / 2
    } else {
        (code + 1) / 2
    }
}

/// Section 9.2.2.1: the level that `levelCode` `code` stands for, positive
/// for an even code.
pub open spec fn level_of_code(code: int) -> int {
    if code % 2 == 0 {
        level_magnitude(code)
    } else {
        -level_magnitude(code)
    }
}

/// Section 9.2.2: `suffixLength` after a level of `levelCode` `code` that
/// was decoded with `suffix_len`.
pub open spec fn next_suffix_len(suffix_len: int, code: int) -> int {
    let s = if suffix_len == 0 {
        1
    } else {
        suffix_len
    };
    if s < 6 && level_magnitude(code) > 3 * pow2((s - 1) as nat) {
        s + 1
    } else {
        s
    }
}

/// Section 9.2.2: one level that is not a trailing one, at bit `pos`, as
/// (position after it, level, next `suffixLength`); `None` when the bits
/// run out or `level_prefix` exceeds `MAX_LEVEL_PREFIX`.
pub open spec fn level_step(data: Seq<u8>, pos: int, suffix_len: int, first_bonus: bool) -> Option<
    (int, i32, int),
> {
    match zeros_before_one(data, pos, 0) {
        None => None,
        Some(prefix) => {
            let p = pos + prefix + 1;
            let size = suffix_size(prefix as int, suffix_len);
            if prefix > MAX_LEVEL_PREFIX || p + size > total_bits(data) {
                None
            } else {
                let code = level_code(
                    prefix as int,
                    suffix_len,
                    bits_value(data, p, size as nat) as int,
                    first_bonus,
                );
                Some((p + size, level_of_code(code) as i32, next_suffix_len(suffix_len, code)))
            }
        }
    }
}

/// Section 9.2.2: the levels `i..tc` after the levels `acc`, from bit `pos`
/// with `suffixLength` `suffix_len`, as (position after them, all levels);
/// `t1` is the number of trailing ones.
pub open spec fn levels_from(
    data: Seq<u8>,
    pos: int,
    suffix_len: int,
    i: int,
    tc: int,
    t1: int,
    acc: Seq<i32>,
) -> Option<(int, Seq<i32>)>
    decreases tc - i,
{
    if i >= tc {
        Some((pos, acc))
    } else {
        match level_step(data, pos, suffix_len, i == t1 && t1 < 3) {
            None => None,
            Some((p, level, s)) => levels_from(data, p, s, i + 1, tc, t1, acc.push(level)),
        }
    }
}

/// Section 9.2.2: the levels of the `t1` trailing ones, from their sign
/// bits at `pos`.
pub open spec fn trailing_one_levels(data: Seq<u8>, pos: int, t1: int) -> Seq<i32> {
    Seq::new(t1 as nat, |i: int| (1 - 2 * stream_bit(data, pos + i)) as i32)
}

/// Section 9.2.2: the `tc` levels of a block with `t1` trailing ones, from
/// bit `pos` on, in decoding order (highest frequency first), as (position
/// after them, levels).
pub open spec fn levels_at(data: Seq<u8>, pos: int, tc: int, t1: int) -> Option<(int, Seq<i32>)> {
    if pos + t1 > total_bits(data) {
        None
    } else {
        levels_from(
            data,
            pos + t1,
            if tc > 10 && t1 < 3 {
                1
            } else {
                0
            },
            t1,
            tc,
            t1,
            trailing_one_levels(data, pos, t1),
        )
    }
}

/// Section 9.2.3: `total_zeros` at bit `pos` for `tc` coefficients in a
/// block of `max` (the 4:2:0 chroma DC table when `max` is 4), as
/// (position after it, `total_zeros`); 0 with nothing read when the block
/// is full. `None` when no code matches, the bits run out, or the zeros do
/// not fit in the block.
pub open spec fn total_zeros_at(data: Seq<u8>, pos: int, tc: int, max: int) -> Option<(int, int)> {
    if tc >= max {
        Some((pos, 0))
    } else if pos >= total_bits(data) {
        None
    } else {
        let bits = padded_value(data, pos, 16) as u16;
        let found = if max == 4 {
            spec_total_zeros_chroma(bits, tc)
        } else {
            spec_total_zeros(bits, tc)
        };
        if found.1 == 0 || pos + found.1 > total_bits(data) || tc + found.0 > max {
            None
        } else {
            Some((pos + found.1, found.0 as int))
        }
    }
}

/// Section 9.2.3: `run_before` of the levels `i..n` after the runs `acc`,
/// from bit `pos` with `zeros_left` zeros left, as (position after them,
/// zeros left, all runs); a run is 0 with nothing read once no zero is
/// left. `None` when no code matches, the bits run out, or a run exceeds
/// the zeros left.
pub open spec fn runs_from(data: Seq<u8>, pos: int, zeros_left: int, i: int, n: int, acc: Seq<u8>) -> Option<
    (int, int, Seq<u8>),
>
    decreases n - i,
{
    if i >= n {
        Some((pos, zeros_left, acc))
    } else if zeros_left <= 0 {
        runs_from(data, pos, zeros_left, i + 1, n, acc.push(0u8))
    } else if pos >= total_bits(data) {
        None
    } else {
        let found = spec_run_before(padded_value(data, pos, 16) as u16, zeros_left);
        if found.1 == 0 || pos + found.1 > total_bits(data) || found.0 > zeros_left {
            None
        } else {
            runs_from(data, pos + found.1, zeros_left - found.0, i + 1, n, acc.push(found.0))
        }
    }
}

/// The sum of `runs[i..]`.
pub open spec fn run_sum(runs: Seq<u8>, i: int) -> nat
    decreases runs.len() - i,
{
    if i < 0 || i >= runs.len() {
        0
    } else {
        runs[i] as nat + run_sum(runs, i + 1)
    }
}

/// Section 9.2.4: the scan position of level `i` when level `j` is followed
/// by `runs[j]` zeros: the number of levels and zeros from `i` on, less 1.
pub open spec fn coeff_index(runs: Seq<u8>, i: int) -> int {
    run_sum(runs, i) + runs.len() - i - 1
}

/// Section 9.2.4: `c` with the levels `i..` written at their scan
/// positions.
pub open spec fn place_levels(c: Seq<i32>, levels: Seq<i32>, runs: Seq<u8>, i: int) -> Seq<i32>
    decreases runs.len() - i,
{
    if i < 0 || i >= runs.len() {
        c
    } else {
        place_levels(c, levels, runs, i + 1).update(coeff_index(runs, i), levels[i])
    }
}

/// Section 9.2: the CAVLC residual block at bit `pos` with neighbour count
/// `nc`, decoded into the coefficients `c` (whose length is that of the
/// block), as (position after it, `TotalCoeff`, coefficients); the
/// coefficients that no level lands on keep their values. `None` for a
/// stream that cannot be decoded, which includes a block whose
/// coefficients or zeros do not fit in `c`.
#[verifier::opaque]
pub open spec fn spec_residual_block(data: Seq<u8>, pos: int, nc: int, c: Seq<i32>) -> Option<
    (int, u8, Seq<i32>),
> {
    let max = c.len() as int;
    match token_at(data, pos, nc) {
        None => None,
        Some(t) => {
            let p = pos + t.pattern_len;
            let tc = t.total_coeffs as int;
            if tc == 0 {
                Some((p, 0u8, c))
            } else if tc > max {
                None
            } else {
                match levels_at(data, p, tc, t.trailing_ones as int) {
                    None => None,
                    Some((p2, levels)) => match total_zeros_at(data, p2, tc, max) {
                        None => None,
                        Some((p3, tz)) => match runs_from(data, p3, tz, 0, tc - 1, Seq::empty()) {
                            None => None,
                            Some((p4, z, runs)) => Some(
                                (p4, t.total_coeffs, place_levels(c, levels, runs.push(z as u8), 0)),
                            ),
                        },
                    },
                }
            }
        },
    }
}

/// `2^k` for `k < 32`.
fn pow2_u32(k: u32) -> (r: u32)
    requires
        k < 32,
    ensures
        r == pow2(k as nat),
{
    proof {
        lemma2_to64();
    }
    let mut r: u32 = 1;
    let mut i: u32 = 0;
    while i < k
        invariant
            i <= k < 32,
            r == pow2(i as nat),
        decreases k - i,
    {
        proof {
            lemma_pow2_unfold((i + 1) as nat);
            lemma2_to64();
            if i < 30 {
                lemma_pow2_strictly_increases(i as nat, 30);
            }
        }
        r = r * 2;
        i = i + 1;
    }
    r
}

/// Section 9.2.1: reads a `coeff_token` (see `token_at`).
fn read_coeff_token(input: &mut BitReader<'_>, nc: i32) -> (r: ParseResult<CoeffToken>)
    requires
        old(input).wf(),
    ensures
        final(input).wf(),
        final(input).data() == old(input).data(),
        match r {
            Ok(t) => token_at(old(input).data(), old(input).pos(), nc as int) == Some(t)
                && final(input).pos() == old(input).pos() + t.pattern_len
                && t.trailing_ones <= t.total_coeffs <= 16 && t.trailing_ones <= 3,
            Err(_) => token_at(old(input).data(), old(input).pos(), nc as int) is None,
        },
{
    let bits = match input.peek_or_pad16() {
        Ok(b) => b,
        Err(e) => return Err(e),
    };
    let t = lookup_coeff_token(bits, nc);
    proof {
        let c = nc_column(nc as int);
        if c >= 0 {
            lemma_ct_scan_shape(bits, c, 0);
        }
    }
    if !t.is_valid() {
        return Err("unknown coeff_token code".to_owned());
    }
    match input.skip(t.pattern_len as u32) {
        Ok(()) => Ok(t),
        Err(e) => Err(e),
    }
}

/// Section 9.2.2: reads one level that is not a trailing one (see
/// `level_step`), returning it with the next `suffixLength`.
#[verifier::spinoff_prover]
fn read_level(input: &mut BitReader<'_>, suffix_len: u32, first_bonus: bool) -> (r: ParseResult<
    (i32, u32),
>)
    requires
        old(input).wf(),
        suffix_len <= 6,
    ensures
        final(input).wf(),
        final(input).data() == old(input).data(),
        match r {
            Ok((level, s)) => level_step(
                old(input).data(),
                old(input).pos(),
                suffix_len as int,
                first_bonus,
            ) == Some((final(input).pos(), level, s as int)) && s <= 6,
            Err(_) => level_step(
                old(input).data(),
                old(input).pos(),
                suffix_len as int,
                first_bonus,
            ) is None,
        },
{
    let prefix = match input.read_till_one() {
        Ok(v) => v,
        Err(e) => return Err(e),
    };
    if prefix > MAX_LEVEL_PREFIX {
        return Err("level_prefix out of range".to_owned());
    }
    let size: u32 = if prefix == 14 && suffix_len == 0 {
        4
    } else if prefix >= 15 {
        prefix - 3
    } else {
        suffix_len
    };
    let ghost p = input.pos();
    let suffix: u32 = if size > 0 {
        match input.u(size) {
            Ok(v) => v,
            Err(e) => return Err(e),
        }
    } else {
        0
    };
    proof {
        lemma_bits_value_bound(input.data(), p, size as nat);
        lemma2_to64();
        if size < 30 {
            lemma_pow2_strictly_increases(size as nat, 30);
        }
        if size < 6 {
            lemma_pow2_strictly_increases(size as nat, 6);
        }
        if suffix_len < 6 {
            lemma_pow2_strictly_increases(suffix_len as nat, 6);
        }
    }
    assert(suffix as nat == bits_value(input.data(), p, size as nat));
    let base: u32 = if prefix < 15 {
        prefix
    } else {
        15
    };
    let scale = pow2_u32(suffix_len);
    assert(base * scale <= 15 * 64) by (nonlinear_arith)
        requires
            base <= 15,
            scale <= 64,
    ;
    assert(prefix < 16 ==> suffix < 4096);
    assert(suffix < 0x4000_0000);
    let mut code: u32 = base * scale + suffix;
    if prefix >= 15 && suffix_len == 0 {
        code = code + 15;
    }
    if prefix >= 16 {
        let big = pow2_u32(prefix - 3);
        proof {
            if prefix - 3 > 13 {
                lemma_pow2_strictly_increases(13, (prefix - 3) as nat);
            }
            if prefix - 3 < 30 {
                lemma_pow2_strictly_increases((prefix - 3) as nat, 30);
            }
        }
        code = code + (big - 4096);
    }
    if first_bonus {
        code = code + 2;
    }
    assert(code == level_code(prefix as int, suffix_len as int, suffix as int, first_bonus));
    let mag: u32 = if code % 2 == 0 {
        (code + 2) / 2
    } else {
        (code + 1) / 2
    };
    let level: i32 = if code % 2 == 0 {
        mag as i32
    } else {
        -(mag as i32)
    };
    let mut s: u32 = if suffix_len == 0 {
        1
    } else {
        suffix_len
    };
    if s < 6 {
        let t = pow2_u32(s - 1);
        proof {
            if s - 1 < 5 {
                lemma_pow2_strictly_increases((s - 1) as nat, 5);
            }
        }
        if mag > 3 * t {
            s = s + 1;
        }
    }
    Ok((level, s))
}

/// Section 9.2.2: reads the `tc` levels of a block with `t1` trailing ones
/// into `levels[..tc]` (see `levels_at`).
fn read_levels(input: &mut BitReader<'_>, tc: u8, t1: u8, levels: &mut [i32; 16]) -> (r: ParseResult<()>)
    requires
        old(input).wf(),
        t1 <= tc <= 16,
        t1 <= 3,
    ensures
        final(input).wf(),
        final(input).data() == old(input).data(),
        match r {
            Ok(_) => levels_at(old(input).data(), old(input).pos(), tc as int, t1 as int) == Some(
                (final(input).pos(), final(levels)@.subrange(0, tc as int)),
            ),
            Err(_) => levels_at(old(input).data(), old(input).pos(), tc as int, t1 as int) is None,
        },
{
    if input.remaining() < t1 as usize {
        return Err("trailing_ones_sign_flag: no bits left".to_owned());
    }
    let ghost data = input.data();
    let ghost p0 = input.pos();
    let mut i: usize = 0;
    while i < t1 as usize
        invariant
            input.wf(),
            input.data() == data,
            data == old(input).data(),
            p0 == old(input).pos(),
            input.pos() == p0 + i,
            i <= t1 <= 3,
            p0 + t1 <= total_bits(data),
            forall|j: int| 0 <= j < i ==> levels[j] == (1 - 2 * stream_bit(data, p0 + j)) as i32,
        decreases t1 - i,
    {
        let b = match input.read_bit() {
            Ok(b) => b,
            Err(e) => return Err(e),
        };
        levels[i] = 1 - 2 * (b as i32);
        i = i + 1;
    }
    assert(levels@.subrange(0, t1 as int) =~= trailing_one_levels(data, p0, t1 as int));
    let mut suffix_len: u32 = if tc > 10 && t1 < 3 {
        1
    } else {
        0
    };
    let mut i: usize = t1 as usize;
    while i < tc as usize
        invariant
            input.wf(),
            input.data() == data,
            data == old(input).data(),
            p0 == old(input).pos(),
            t1 <= i <= tc <= 16,
            t1 <= 3,
            suffix_len <= 6,
            levels_at(data, p0, tc as int, t1 as int) == levels_from(
                data,
                input.pos(),
                suffix_len as int,
                i as int,
                tc as int,
                t1 as int,
                levels@.subrange(0, i as int),
            ),
        decreases tc - i,
    {
        let ghost before = levels@.subrange(0, i as int);
        let (level, s) = match read_level(input, suffix_len, i == t1 as usize && t1 < 3) {
            Ok(v) => v,
            Err(e) => return Err(e),
        };
        levels[i] = level;
        assert(levels@.subrange(0, i + 1) =~= before.push(level));
        suffix_len = s;
        i = i + 1;
    }
    Ok(())
}

/// Section 9.2.3: reads `total_zeros` for `tc` coefficients in a block of
/// `max` (see `total_zeros_at`).
fn read_total_zeros(input: &mut BitReader<'_>, tc: u8, max: usize) -> (r: ParseResult<u8>)
    requires
        old(input).wf(),
        1 <= tc <= max,
        max == 4 || max == 15 || max == 16,
    ensures
        final(input).wf(),
        final(input).data() == old(input).data(),
        match r {
            Ok(tz) => total_zeros_at(old(input).data(), old(input).pos(), tc as int, max as int) == Some(
                (final(input).pos(), tz as int),
            ),
            Err(_) => total_zeros_at(old(input).data(), old(input).pos(), tc as int, max as int) is None,
        },
{
    if tc as usize >= max {
        return Ok(0);
    }
    let bits = match input.peek_or_pad16() {
        Ok(b) => b,
        Err(e) => return Err(e),
    };
    let (tz, len) = if max == 4 {
        lookup_total_zeros_chroma(bits, tc)
    } else {
        lookup_total_zeros(bits, tc)
    };
    if len == 0 {
        return Err("unknown total_zeros code".to_owned());
    }
    if tc as usize + tz as usize > max {
        return Err("total_zeros exceeds the block".to_owned());
    }
    match input.skip(len as u32) {
        Ok(()) => Ok(tz),
        Err(e) => Err(e),
    }
}

/// Section 9.2.3: reads the `run_before` of the first `tc - 1` levels into
/// `runs[..tc - 1]` and returns the zeros left (see `runs_from`).
fn read_runs(input: &mut BitReader<'_>, tc: u8, total_zeros: u8, runs: &mut [u8; 16]) -> (r: ParseResult<u8>)
    requires
        old(input).wf(),
        1 <= tc <= 16,
    ensures
        final(input).wf(),
        final(input).data() == old(input).data(),
        match r {
            Ok(z) => runs_from(
                old(input).data(),
                old(input).pos(),
                total_zeros as int,
                0,
                tc - 1,
                Seq::empty(),
            ) == Some((final(input).pos(), z as int, final(runs)@.subrange(0, tc - 1))),
            Err(_) => runs_from(
                old(input).data(),
                old(input).pos(),
                total_zeros as int,
                0,
                tc - 1,
                Seq::empty(),
            ) is None,
        },
{
    let ghost data = input.data();
    let ghost p0 = input.pos();
    let n: usize = (tc - 1) as usize;
    let mut zeros_left: u8 = total_zeros;
    let mut i: usize = 0;
    assert(runs@.subrange(0, 0) =~= Seq::<u8>::empty());
    while i < n
        invariant
            input.wf(),
            input.data() == data,
            data == old(input).data(),
            p0 == old(input).pos(),
            i <= n < 16,
            n == tc - 1,
            runs_from(data, p0, total_zeros as int, 0, n as int, Seq::empty()) == runs_from(
                data,
                input.pos(),
                zeros_left as int,
                i as int,
                n as int,
                runs@.subrange(0, i as int),
            ),
        decreases n - i,
    {
        let ghost before = runs@.subrange(0, i as int);
        if zeros_left > 0 {
            let bits = match input.peek_or_pad16() {
                Ok(b) => b,
                Err(e) => return Err(e),
            };
            let (run, len) = lookup_run_before(bits, zeros_left);
            if len == 0 {
                return Err("unknown run_before code".to_owned());
            }
            if run > zeros_left {
                return Err("run_before exceeds the zeros left".to_owned());
            }
            match input.skip(len as u32) {
                Ok(()) => {},
                Err(e) => return Err(e),
            }
            runs[i] = run;
            zeros_left = zeros_left - run;
        } else {
            runs[i] = 0;
        }
        assert(runs@.subrange(0, i + 1) =~= before.push(runs[i as int]));
        i = i + 1;
    }
    Ok(zeros_left)
}

proof fn lemma_run_sum_push(s: Seq<u8>, x: u8, i: int)
    requires
        0 <= i <= s.len(),
    ensures
        run_sum(s.push(x), i) == run_sum(s, i) + x,
    decreases s.len() - i,
{
    if i < s.len() {
        lemma_run_sum_push(s, x, i + 1);
    } else {
        assert(run_sum(s.push(x), i + 1) == 0);
    }
}

proof fn lemma_run_sum_mono(s: Seq<u8>, i: int)
    requires
        0 <= i <= s.len(),
    ensures
        run_sum(s, i) <= run_sum(s, 0),
    decreases i,
{
    if i > 0 {
        lemma_run_sum_mono(s, i - 1);
    }
}

/// The runs read by `runs_from` and the zeros left add up to the zeros
/// there were.
proof fn lemma_runs_from_total(data: Seq<u8>, pos: int, zeros_left: int, i: int, n: int, acc: Seq<u8>)
    requires
        0 <= zeros_left,
        i <= n,
    ensures
        match runs_from(data, pos, zeros_left, i, n, acc) {
            Some((p, z, r)) => run_sum(r, 0) + z == run_sum(acc, 0) + zeros_left && 0 <= z <= zeros_left
                && r.len() == acc.len() + n - i,
            None => true,
        },
    decreases n - i,
{
    if i >= n {
    } else if zeros_left <= 0 {
        lemma_run_sum_push(acc, 0u8, 0);
        lemma_runs_from_total(data, pos, zeros_left, i + 1, n, acc.push(0u8));
    } else if pos >= total_bits(data) {
    } else {
        let found = spec_run_before(padded_value(data, pos, 16) as u16, zeros_left);
        if found.1 == 0 || pos + found.1 > total_bits(data) || found.0 > zeros_left {
        } else {
            lemma_run_sum_push(acc, found.0, 0);
            lemma_runs_from_total(
                data,
                pos + found.1,
                zeros_left - found.0,
                i + 1,
                n,
                acc.push(found.0),
            );
        }
    }
}

/// Section 9.2: parses one CAVLC residual block (`residual_block_cavlc`)
/// with neighbour count `nc` into `coeff_level`, whose length (4, 15 or 16)
/// is that of the block, and returns `TotalCoeff`. The coefficients that
/// no level lands on keep their values. Follows `spec_residual_block`; on
/// an error `coeff_level` is left as it was.
pub fn parse_residual_block(input: &mut BitReader<'_>, coeff_level: &mut [i32], nc: i32) -> (r:
    ParseResult<u8>)
    requires
        old(input).wf(),
        old(coeff_level)@.len() == 4 || old(coeff_level)@.len() == 15 || old(coeff_level)@.len()
            == 16,
    ensures
        final(input).wf(),
        final(input).data() == old(input).data(),
        final(coeff_level)@.len() == old(coeff_level)@.len(),
        match r {
            Ok(n) => spec_residual_block(
                old(input).data(),
                old(input).pos(),
                nc as int,
                old(coeff_level)@,
            ) == Some((final(input).pos(), n, final(coeff_level)@)),
            Err(_) => spec_residual_block(
                old(input).data(),
                old(input).pos(),
                nc as int,
                old(coeff_level)@,
            ) is None && final(coeff_level)@ == old(coeff_level)@,
        },
{
    proof {
        reveal(spec_residual_block);
    }
    let max = coeff_level.len();
    let token = match read_coeff_token(input, nc) {
        Ok(t) => t,
        Err(e) => return Err(e),
    };
    let tc = token.total_coeffs;
    if tc == 0 {
        return Ok(0);
    }
    if tc as usize > max {
        return Err("more coefficients than the block holds".to_owned());
    }
    let mut levels = [0i32; 16];
    match read_levels(input, tc, token.trailing_ones, &mut levels) {
        Ok(()) => {},
        Err(e) => return Err(e),
    }
    let ghost levels_seq = levels@.subrange(0, tc as int);
    let total_zeros = match read_total_zeros(input, tc, max) {
        Ok(v) => v,
        Err(e) => return Err(e),
    };
    let mut runs = [0u8; 16];
    let ghost p3 = input.pos();
    let zeros_left = match read_runs(input, tc, total_zeros, &mut runs) {
        Ok(v) => v,
        Err(e) => return Err(e),
    };
    let ghost read_seq = runs@.subrange(0, tc - 1);
    proof {
        lemma_runs_from_total(input.data(), p3, total_zeros as int, 0, tc - 1, Seq::empty());
        lemma_run_sum_push(read_seq, zeros_left, 0);
    }
    runs[(tc - 1) as usize] = zeros_left;
    let ghost runs_seq = read_seq.push(zeros_left);
    assert(runs@.subrange(0, tc as int) =~= runs_seq);
    let ghost c0 = coeff_level@;
    let mut i: usize = tc as usize;
    let mut next: usize = 0;
    while i > 0
        invariant
            coeff_level@.len() == max,
            i <= tc <= max,
            tc <= 16,
            runs_seq.len() == tc,
            runs@.subrange(0, tc as int) == runs_seq,
            levels@.subrange(0, tc as int) == levels_seq,
            next == coeff_index(runs_seq, i as int) + 1,
            coeff_index(runs_seq, 0) < max,
            coeff_level@ == place_levels(c0, levels_seq, runs_seq, i as int),
        decreases i,
    {
        i = i - 1;
        proof {
            lemma_run_sum_mono(runs_seq, i as int);
        }
        assert(runs[i as int] == runs_seq[i as int]);
        assert(levels[i as int] == levels_seq[i as int]);
        next = next + runs[i] as usize + 1;
        coeff_level[next - 1] = levels[i];
    }
    Ok(tc)
}

/// The number of non-zero entries among the first `n` of `s`.
pub open spec fn count_nonzero(s: Seq<i32>, n: int) -> nat
    decreases n,
{
    if n <= 0 {
        0
    } else {
        count_nonzero(s, n - 1) + if s[n - 1] != 0 {
            1nat
        } else {
            0nat
        }
    }
}

pub proof fn lemma_count_nonzero_zeros(s: Seq<i32>, n: int)
    requires
        n <= s.len(),
        forall|k: int| 0 <= k < s.len() ==> s[k] == 0,
    ensures
        count_nonzero(s, n) == 0,
    decreases n,
{
    if n > 0 {
        lemma_count_nonzero_zeros(s, n - 1);
    }
}

/// Writing a non-zero value over a zero adds one non-zero entry.
proof fn lemma_count_nonzero_update(s: Seq<i32>, k: int, v: i32, n: int)
    requires
        0 <= k < s.len(),
        n <= s.len(),
        s[k] == 0,
        v != 0,
    ensures
        count_nonzero(s.update(k, v), n) == count_nonzero(s, n) + if k < n {
            1nat
        } else {
            0nat
        },
    decreases n,
{
    if n > 0 {
        lemma_count_nonzero_update(s, k, v, n - 1);
    }
}

/// Every level that `level_step` decodes is non-zero.
proof fn lemma_level_step_nonzero(data: Seq<u8>, pos: int, suffix_len: int, first_bonus: bool)
    requires
        0 <= suffix_len <= 6,
    ensures
        level_step(data, pos, suffix_len, first_bonus) matches Some((p, level, s)) ==> level != 0 && 0
            <= s <= 6,
{
    match zeros_before_one(data, pos, 0) {
        None => {},
        Some(prefix) => {
            let p = pos + prefix + 1;
            let size = suffix_size(prefix as int, suffix_len);
            if prefix <= MAX_LEVEL_PREFIX && p + size <= total_bits(data) {
                let suffix = bits_value(data, p, size as nat) as int;
                lemma_bits_value_bound(data, p, size as nat);
                lemma2_to64();
                vstd::arithmetic::power2::lemma_pow2_pos(suffix_len as nat);
                if prefix >= 16 {
                    if prefix - 3 > 13 {
                        lemma_pow2_strictly_increases(13, (prefix - 3) as nat);
                    }
                    if prefix - 3 < 30 {
                        lemma_pow2_strictly_increases((prefix - 3) as nat, 30);
                    }
                }
                if size < 30 {
                    lemma_pow2_strictly_increases(size as nat, 30);
                }
                let base = if prefix < 15 {
                    prefix as int
                } else {
                    15
                };
                assert(base * pow2(suffix_len as nat) >= 0) by (nonlinear_arith)
                    requires
                        base >= 0,
                ;
                if suffix_len < 6 {
                    lemma_pow2_strictly_increases(suffix_len as nat, 6);
                }
                assert(base * pow2(suffix_len as nat) <= 15 * 64) by (nonlinear_arith)
                    requires
                        0 <= base <= 15,
                        pow2(suffix_len as nat) <= 64,
                ;
                let code = level_code(prefix as int, suffix_len, suffix, first_bonus);
                assert(0 <= code < 0x8000_0000);
                assert(level_magnitude(code) >= 1);
            }
        },
    }
}

/// The levels that `levels_from` adds to `acc` are non-zero, one per index
/// from `i` to `tc`.
proof fn lemma_levels_from_nonzero(
    data: Seq<u8>,
    pos: int,
    suffix_len: int,
    i: int,
    tc: int,
    t1: int,
    acc: Seq<i32>,
)
    requires
        0 <= suffix_len <= 6,
        i <= tc,
        forall|k: int| 0 <= k < acc.len() ==> acc[k] != 0,
    ensures
        levels_from(data, pos, suffix_len, i, tc, t1, acc) matches Some((p, levels)) ==> levels.len()
            == acc.len() + tc - i && forall|k: int| 0 <= k < levels.len() ==> levels[k] != 0,
    decreases tc - i,
{
    if i < tc {
        lemma_level_step_nonzero(data, pos, suffix_len, i == t1 && t1 < 3);
        match level_step(data, pos, suffix_len, i == t1 && t1 < 3) {
            None => {},
            Some((p, level, s)) => {
                lemma_levels_from_nonzero(data, p, s, i + 1, tc, t1, acc.push(level));
            },
        }
    }
}

/// The scan positions of the levels fall from the first level to the last.
proof fn lemma_coeff_index_step(runs: Seq<u8>, i: int)
    requires
        0 <= i < runs.len(),
    ensures
        coeff_index(runs, i) == coeff_index(runs, i + 1) + runs[i] + 1,
{
}

/// Placing the levels `i..` writes nothing above the scan position of level
/// `i`.
proof fn lemma_place_above(c: Seq<i32>, levels: Seq<i32>, runs: Seq<u8>, i: int, k: int)
    requires
        0 <= i <= runs.len(),
        k > coeff_index(runs, i),
        coeff_index(runs, i) < c.len(),
    ensures
        place_levels(c, levels, runs, i).len() == c.len(),
        0 <= k < c.len() ==> place_levels(c, levels, runs, i)[k] == c[k],
    decreases runs.len() - i,
{
    if i < runs.len() {
        lemma_coeff_index_step(runs, i);
        lemma_place_above(c, levels, runs, i + 1, k);
        lemma_place_above(c, levels, runs, i + 1, coeff_index(runs, i));
    }
}

/// Placing the non-zero levels `i..` in a block of zeros at positions
/// inside it gives one non-zero coefficient per level.
proof fn lemma_place_count(c: Seq<i32>, levels: Seq<i32>, runs: Seq<u8>, i: int)
    requires
        0 <= i <= runs.len(),
        levels.len() == runs.len(),
        forall|k: int| 0 <= k < c.len() ==> c[k] == 0,
        forall|k: int| 0 <= k < levels.len() ==> levels[k] != 0,
        coeff_index(runs, i) < c.len(),
    ensures
        count_nonzero(place_levels(c, levels, runs, i), c.len() as int) == runs.len() - i,
        place_levels(c, levels, runs, i).len() == c.len(),
    decreases runs.len() - i,
{
    if i == runs.len() {
        lemma_count_nonzero_zeros(c, c.len() as int);
    } else {
        lemma_coeff_index_step(runs, i);
        lemma_place_count(c, levels, runs, i + 1);
        lemma_place_above(c, levels, runs, i + 1, coeff_index(runs, i));
        let prev = place_levels(c, levels, runs, i + 1);
        lemma_count_nonzero_update(prev, coeff_index(runs, i), levels[i], c.len() as int);
    }
}

/// The number that `parse_residual_block` returns is the number of
/// non-zero coefficients it decodes: a block decoded into zeros has
/// exactly `TotalCoeff` non-zero coefficients.
pub proof fn lemma_total_coeff_counts_nonzero(data: Seq<u8>, pos: int, nc: int, c: Seq<i32>)
    requires
        c.len() == 4 || c.len() == 15 || c.len() == 16,
        forall|k: int| 0 <= k < c.len() ==> c[k] == 0,
    ensures
        spec_residual_block(data, pos, nc, c) matches Some((p, n, out)) ==> count_nonzero(
            out,
            out.len() as int,
        ) == n && out.len() == c.len(),
{
    reveal(spec_residual_block);
    let max = c.len() as int;
    match token_at(data, pos, nc) {
        None => {},
        Some(t) => {
            let p = pos + t.pattern_len;
            let tc = t.total_coeffs as int;
            let t1 = t.trailing_ones as int;
            if tc == 0 {
                lemma_count_nonzero_zeros(c, max);
            } else if tc <= max {
                let c_ = padded_value(data, pos, 16) as u16;
                let col = nc_column(nc);
                if col >= 0 {
                    lemma_ct_scan_shape(c_, col, 0);
                }
                match levels_at(data, p, tc, t1) {
                    None => {},
                    Some((p2, levels)) => {
                        let signs = trailing_one_levels(data, p, t1);
                        assert forall|k: int| 0 <= k < signs.len() implies signs[k] != 0 by {
                            crate::bitreader::lemma_stream_bit_bound(data, p + k);
                        }
                        lemma_levels_from_nonzero(
                            data,
                            p + t1,
                            if tc > 10 && t1 < 3 {
                                1
                            } else {
                                0
                            },
                            t1,
                            tc,
                            t1,
                            signs,
                        );
                        match total_zeros_at(data, p2, tc, max) {
                            None => {},
                            Some((p3, tz)) => {
                                lemma_runs_from_total(data, p3, tz, 0, tc - 1, Seq::empty());
                                match runs_from(data, p3, tz, 0, tc - 1, Seq::empty()) {
                                    None => {},
                                    Some((p4, z, runs)) => {
                                        let all = runs.push(z as u8);
                                        lemma_run_sum_push(runs, z as u8, 0);
                                        lemma_place_count(c, levels, all, 0);
                                    },
                                }
                            },
                        }
                    },
                }
            }
        },
    }
}

/// Section 9.2.1: `nN` of neighbour `dir` (A or B) of 4x4 block `blk` of
/// `plane`, with `nc` the counts of the current macroblock so far (see
/// `nc_view`); `None` where that neighbour is not available.
pub open spec fn nb_nc(
    a: Option<&Macroblock>,
    b: Option<&Macroblock>,
    nc: Seq<u8>,
    blk: int,
    plane: ColorPlane,
    dir: MbNeighborName,
) -> Option<int> {
    let nbr = if plane == ColorPlane::Y {
        spec_luma4x4_neighbor(blk, dir)
    } else {
        spec_chroma4x4_neighbor(blk, dir)
    };
    match nbr.1 {
        Some(name) => match (if name == MbNeighborName::A {
            a
        } else {
            b
        }) {
            Some(m) => Some(spec_mb_nc(*m, nbr.0, plane)),
            None => None,
        },
        None => Some(nc[plane_slot(nbr.0, plane)] as int),
    }
}

/// Section 9.2.1: `nC` of 4x4 block `blk` of `plane`: the rounded mean of
/// `nA` and `nB` where both are available, the one that is, else 0.
pub open spec fn spec_calculate_nc(
    a: Option<&Macroblock>,
    b: Option<&Macroblock>,
    nc: Seq<u8>,
    blk: int,
    plane: ColorPlane,
) -> int {
    match (nb_nc(a, b, nc, blk, plane, MbNeighborName::A), nb_nc(a, b, nc, blk, plane, MbNeighborName::B)) {
        (Some(x), Some(y)) => (x + y + 1) / 2,
        (Some(x), None) => x,
        (None, Some(y)) => y,
        (None, None) => 0,
    }
}

/// Section 9.2.1: `nC` of 4x4 block `blk_idx` of `plane` of the macroblock
/// whose residual so far is `residual`, with `mb_a` and `mb_b` its
/// neighbours A and B where available (see `spec_calculate_nc`).
pub fn calculate_nc(
    mb_a: Option<&Macroblock>,
    mb_b: Option<&Macroblock>,
    blk_idx: u8,
    residual: &Residual,
    plane: ColorPlane,
) -> (nc: i32)
    requires
        blk_idx < 16,
        plane != ColorPlane::Y ==> blk_idx < 4,
    ensures
        nc == spec_calculate_nc(mb_a, mb_b, nc_view(*residual), blk_idx as int, plane),
        0 <= nc <= 255,
{
    let mut total_nc: i32 = 0;
    let mut nc_counted: i32 = 0;
    let ghost nv = nc_view(*residual);
    let ghost na = nb_nc(mb_a, mb_b, nv, blk_idx as int, plane, MbNeighborName::A);
    let ghost nb = nb_nc(mb_a, mb_b, nv, blk_idx as int, plane, MbNeighborName::B);
    let mut step: u8 = 0;
    while step < 2
        invariant
            step <= 2,
            blk_idx < 16,
            plane != ColorPlane::Y ==> blk_idx < 4,
            nv == nc_view(*residual),
            na == nb_nc(mb_a, mb_b, nv, blk_idx as int, plane, MbNeighborName::A),
            nb == nb_nc(mb_a, mb_b, nv, blk_idx as int, plane, MbNeighborName::B),
            nc_counted == (if step >= 1 && na is Some { 1int } else { 0 }) + (if step >= 2 && nb is Some {
                1int
            } else {
                0
            }),
            total_nc == (if step >= 1 && na is Some { na->0 } else { 0 }) + (if step >= 2 && nb is Some {
                nb->0
            } else {
                0
            }),
            0 <= total_nc <= 255 * step,
        decreases 2 - step,
    {
        let neighbor = if step == 0 {
            MbNeighborName::A
        } else {
            MbNeighborName::B
        };
        let (block_neighbor_idx, mb_neighbor) = if plane == ColorPlane::Y {
            get_4x4luma_block_neighbor(blk_idx, neighbor)
        } else {
            get_4x4chroma_block_neighbor(blk_idx, neighbor)
        };
        match mb_neighbor {
            Some(name) => {
                let m = match name {
                    MbNeighborName::A => mb_a,
                    _ => mb_b,
                };
                if let Some(mb) = m {
                    let n = mb.get_nc(block_neighbor_idx, plane) as i32;
                    total_nc = total_nc + n;
                    nc_counted = nc_counted + 1;
                }
            },
            None => {
                let n = residual.get_nc(block_neighbor_idx, plane) as i32;
                total_nc = total_nc + n;
                nc_counted = nc_counted + 1;
            },
        }
        step = step + 1;
    }
    if nc_counted == 2 {
        total_nc = (total_nc + 1) / 2;
    }
    total_nc
}

/// `nC` of block `s`: -1 for chroma DC (4:2:0), else as 9.2.1 derives it
/// from the block's 4x4 position (position 0 for the luma DC block).
pub open spec fn job_nc(a: Option<&Macroblock>, b: Option<&Macroblock>, nc: Seq<u8>, s: ResidualBlock) -> int {
    match s {
        ResidualBlock::LumaDc => spec_calculate_nc(a, b, nc, 0, ColorPlane::Y),
        ResidualBlock::LumaAc(k) => spec_calculate_nc(a, b, nc, k as int, ColorPlane::Y),
        ResidualBlock::Luma4x4(k) => spec_calculate_nc(a, b, nc, k as int, ColorPlane::Y),
        ResidualBlock::Luma8x8(_) => 0,
        ResidualBlock::ChromaDc(_) => -1,
        ResidualBlock::ChromaAc(c, k) => spec_calculate_nc(
            a,
            b,
            nc,
            k as int,
            if c == 0 {
                ColorPlane::Cb
            } else {
                ColorPlane::Cr
            },
        ),
    }
}

/// Section 7.3.5.3: the blocks `jobs[i..]` of a residual decoded from bit
/// `pos` of `data`, each by `spec_residual_block` with its `nC`, from the
/// levels of `init` (see `start_levels`) and the counts `nc` so far: the
/// position after them, the final counts and the levels of each block;
/// `None` where a block cannot be decoded.
pub open spec fn cavlc_run(
    data: Seq<u8>,
    pos: int,
    a: Option<&Macroblock>,
    b: Option<&Macroblock>,
    init: Residual,
    nc: Seq<u8>,
    jobs: Seq<ResidualBlock>,
    i: int,
) -> Option<(int, Seq<u8>, Seq<Seq<i32>>)>
    decreases jobs.len() - i,
{
    if i < 0 || i >= jobs.len() {
        Some((pos, nc, Seq::empty()))
    } else {
        let s = jobs[i];
        match spec_residual_block(data, pos, job_nc(a, b, nc, s), start_levels(init, s)) {
            None => None,
            Some((p, n, lv)) => match cavlc_run(data, p, a, b, init, record_nc(nc, s, n), jobs, i + 1) {
                None => None,
                Some((pf, ncf, outs)) => Some((pf, ncf, seq![lv] + outs)),
            },
        }
    }
}

/// The blocks that CAVLC codes for a residual of prediction mode `pm` and
/// coded block pattern `cbp` (4:2:0), in bitstream order.
pub open spec fn cavlc_jobs(pm: MbPredictionMode, cbp: crate::macroblock::CodedBlockPattern) -> Seq<ResidualBlock> {
    let chroma = (cbp.0 / 16) as u8;
    residual_jobs(pm == MbPredictionMode::Intra_16x16, false, cbp, chroma & 3 != 0, chroma & 2 != 0)
}

/// Block `s` of `residual` decoded (see `spec_residual_block`) with its
/// `nC` (see `job_nc`) from the levels it holds; its levels and count set
/// from the result.
fn parse_block_job(
    input: &mut BitReader<'_>,
    mb_a: Option<&Macroblock>,
    mb_b: Option<&Macroblock>,
    residual: &mut Residual,
    s: ResidualBlock,
) -> (r: ParseResult<u8>)
    requires
        old(input).wf(),
        block_ok(s),
        fits(old(residual).luma, s),
        !(s is Luma8x8),
    ensures
        final(input).wf(),
        final(input).data() == old(input).data(),
        match r {
            Ok(n) => {
                &&& spec_residual_block(
                    old(input).data(),
                    old(input).pos(),
                    job_nc(mb_a, mb_b, nc_view(*old(residual)), s),
                    block_levels(*old(residual), s),
                ) == Some((final(input).pos(), n, block_levels(*final(residual), s)))
                &&& block_written(*old(residual), *final(residual), s, block_levels(*final(residual), s), n)
            },
            Err(_) => spec_residual_block(
                old(input).data(),
                old(input).pos(),
                job_nc(mb_a, mb_b, nc_view(*old(residual)), s),
                block_levels(*old(residual), s),
            ) is None,
        },
{
    let nc = block_nc(mb_a, mb_b, residual, s);
    let mut levels = residual.levels_of(s);
    let n = match parse_residual_block(input, levels.as_mut_slice(), nc) {
        Ok(n) => n,
        Err(e) => return Err(e),
    };
    residual.set_block(s, levels.as_slice(), n);
    assert(levels@.take(block_len(s)) =~= levels@);
    Ok(n)
}

/// `nC` of block `s` of the macroblock whose residual so far is
/// `residual` (see `job_nc`).
fn block_nc(mb_a: Option<&Macroblock>, mb_b: Option<&Macroblock>, residual: &Residual, s: ResidualBlock) -> (nc: i32)
    requires
        block_ok(s),
    ensures
        nc == job_nc(mb_a, mb_b, nc_view(*residual), s),
{
    match s {
        ResidualBlock::LumaDc => calculate_nc(mb_a, mb_b, 0, residual, ColorPlane::Y),
        ResidualBlock::LumaAc(k) => calculate_nc(mb_a, mb_b, k, residual, ColorPlane::Y),
        ResidualBlock::Luma4x4(k) => calculate_nc(mb_a, mb_b, k, residual, ColorPlane::Y),
        ResidualBlock::Luma8x8(_) => 0,
        ResidualBlock::ChromaDc(_) => -1,
        ResidualBlock::ChromaAc(c, k) => calculate_nc(
            mb_a,
            mb_b,
            k,
            residual,
            if c == 0 {
                ColorPlane::Cb
            } else {
                ColorPlane::Cr
            },
        ),
    }
}

/// One block of `cavlc_run` decoded: the levels of the blocks so far and
/// the untouched blocks stay as the invariant of `parse_residual` says,
/// and what is left of the run follows on.
proof fn lemma_cavlc_step(
    data: Seq<u8>,
    pos_i: int,
    pos_next: int,
    a: Option<&Macroblock>,
    b: Option<&Macroblock>,
    r0: Residual,
    prev: Residual,
    r2: Residual,
    jv: Seq<ResidualBlock>,
    i: int,
    done: Seq<Seq<i32>>,
    n: u8,
)
    requires
        0 <= i < jv.len(),
        keys_increase(jv),
        block_ok(jv[i]),
        fits(prev.luma, jv[i]),
        !jv.take(i).contains(jv[i]),
        done.len() == i,
        forall|j: int| 0 <= j < i ==> #[trigger] block_levels(prev, jv[j]) == done[j],
        forall|t: ResidualBlock|
            block_ok(t) && fits(prev.luma, t) && !jv.take(i).contains(t) ==> #[trigger] block_levels(prev, t)
                == start_levels(r0, t),
        forall|j: int| 0 <= j < jv.len() ==> block_ok(#[trigger] jv[j]) && fits(prev.luma, jv[j]),
        spec_residual_block(data, pos_i, job_nc(a, b, nc_view(prev), jv[i]), block_levels(prev, jv[i])) == Some(
            (pos_next, n, block_levels(r2, jv[i])),
        ),
        block_written(prev, r2, jv[i], block_levels(r2, jv[i]), n),
    ensures
        forall|j: int|
            0 <= j < i + 1 ==> #[trigger] block_levels(r2, jv[j]) == done.push(block_levels(r2, jv[i]))[j],
        forall|t: ResidualBlock|
            block_ok(t) && fits(r2.luma, t) && !jv.take(i + 1).contains(t) ==> #[trigger] block_levels(r2, t)
                == start_levels(r0, t),
        after(done, cavlc_run(data, pos_i, a, b, r0, nc_view(prev), jv, i)) == after(
            done.push(block_levels(r2, jv[i])),
            cavlc_run(data, pos_next, a, b, r0, nc_view(r2), jv, i + 1),
        ),
{
    let s = jv[i];
    let lv = block_levels(r2, s);
    assert forall|j: int| 0 <= j < i + 1 implies #[trigger] block_levels(r2, jv[j]) == done.push(lv)[j] by {
        if j < i {
            assert(block_key(jv[j]) < block_key(jv[i]));
            assert(block_ok(jv[j]) && fits(prev.luma, jv[j]));
        }
    }
    assert forall|t: ResidualBlock|
        block_ok(t) && fits(r2.luma, t) && !jv.take(i + 1).contains(t) implies #[trigger] block_levels(r2, t)
        == start_levels(r0, t) by {
        if jv.take(i).contains(t) {
            let j = choose|j: int| 0 <= j < i && jv.take(i)[j] == t;
            assert(jv.take(i + 1)[j] == t);
        }
        if t == s {
            assert(jv.take(i + 1)[i] == t);
        }
    }
    let rest = cavlc_run(data, pos_next, a, b, r0, nc_view(r2), jv, i + 1);
    assert(block_levels(prev, s) == start_levels(r0, s));
    assert(nc_view(r2) == record_nc(nc_view(prev), s, n));
    assert(cavlc_run(data, pos_i, a, b, r0, nc_view(prev), jv, i) == after(seq![lv], rest));
    match rest {
        Some((p, ncf, outs)) => {
            assert(done + (seq![lv] + outs) =~= done.push(lv) + outs);
        },
        None => {},
    }
}

/// `cavlc_run` over all of `jobs` after `done`, its levels put after those
/// of `done`.
pub open spec fn after(
    done: Seq<Seq<i32>>,
    rest: Option<(int, Seq<u8>, Seq<Seq<i32>>)>,
) -> Option<(int, Seq<u8>, Seq<Seq<i32>>)> {
    match rest {
        None => None,
        Some((p, nc, outs)) => Some((p, nc, done + outs)),
    }
}

/// `r` is the residual that CAVLC decodes from bit `pos` of `data` for
/// the residual `r0` (its prediction mode and coded block pattern), with
/// neighbours `a` and `b`, ending at bit `end` (see `parse_residual`).
pub open spec fn residual_parsed(
    data: Seq<u8>,
    pos: int,
    a: Option<&Macroblock>,
    b: Option<&Macroblock>,
    chroma_subsampled: bool,
    r0: Residual,
    r: Residual,
    end: int,
) -> bool {
    &&& chroma_subsampled
    &&& r.prediction_mode == r0.prediction_mode
    &&& r.coded_block_pattern == r0.coded_block_pattern
    &&& r.transform_size_8x8_flag == r0.transform_size_8x8_flag
    &&& (if r0.prediction_mode == MbPredictionMode::Intra_16x16 {
        r.luma is Intra16x16
    } else {
        r.luma is Block4x4
    })
    &&& match cavlc_run(
        data,
        pos,
        a,
        b,
        r0,
        start_nc(r0),
        cavlc_jobs(r0.prediction_mode, r0.coded_block_pattern),
        0,
    ) {
        Some((p, nc, outs)) => end == p && residual_result(
            r0,
            r,
            cavlc_jobs(r0.prediction_mode, r0.coded_block_pattern),
            outs,
            nc,
        ),
        None => false,
    }
}

/// Section 7.3.5.3 with CAVLC (9.2): the residual of a macroblock whose
/// prediction mode and coded block pattern `residual` holds, with `mb_a`
/// and `mb_b` its neighbours A and B where available. The luma layout is
/// set afresh (Intra_16x16, or 4x4 blocks), then each block of
/// `cavlc_jobs` is decoded in turn (see `cavlc_run`). 4:4:4
/// (`chroma_subsampled` false) is refused.
pub fn parse_residual(
    input: &mut BitReader<'_>,
    mb_a: Option<&Macroblock>,
    mb_b: Option<&Macroblock>,
    chroma_subsampled: bool,
    residual: &mut Residual,
) -> (r: ParseResult<()>)
    requires
        old(input).wf(),
    ensures
        final(input).wf(),
        final(input).data() == old(input).data(),
        match r {
            Ok(()) => residual_parsed(
                old(input).data(),
                old(input).pos(),
                mb_a,
                mb_b,
                chroma_subsampled,
                *old(residual),
                *final(residual),
                final(input).pos(),
            ),
            Err(_) => !chroma_subsampled || cavlc_run(
                old(input).data(),
                old(input).pos(),
                mb_a,
                mb_b,
                *old(residual),
                start_nc(*old(residual)),
                cavlc_jobs(old(residual).prediction_mode, old(residual).coded_block_pattern),
                0,
            ) is None,
        },
{
    if !chroma_subsampled {
        return Err("YUV 4:4:4 residual parsing is not supported".to_owned());
    }
    let ghost r0 = *residual;
    let ghost data = input.data();
    let ghost pos0 = input.pos();
    let intra16 = residual.prediction_mode == MbPredictionMode::Intra_16x16;
    let cbp = residual.coded_block_pattern;
    let chroma = cbp.chroma();
    let jobs = residual_blocks(intra16, false, cbp, chroma & 3 != 0, chroma & 2 != 0);
    let ghost jv = jobs@;
    proof {
        lemma_residual_jobs(intra16, false, cbp, chroma & 3 != 0, chroma & 2 != 0);
    }
    if intra16 {
        residual.luma.init_intra_16x16();
    } else {
        residual.luma.init_4x4();
    }
    let ghost r1 = *residual;
    proof {
        assert(nc_view(r1) =~= start_nc(r0));
        assert forall|s: ResidualBlock| block_ok(s) && fits(r1.luma, s) implies #[trigger] block_levels(
            r1,
            s,
        ) == start_levels(r0, s) by {
            if is_luma_block(s) {
                lemma_zero_luma_block(r1, s);
            }
        }
    }
    proof {
        assert forall|j: int| 0 <= j < jv.len() implies block_ok(#[trigger] jv[j]) && fits(r1.luma, jv[j]) && !(
        jv[j] is Luma8x8) by {}
    }
    let ghost total = cavlc_run(data, pos0, mb_a, mb_b, r0, start_nc(r0), jv, 0);
    let ghost mut done: Seq<Seq<i32>> = Seq::empty();
    let mut i: usize = 0;
    while i < jobs.len()
        invariant
            input.wf(),
            input.data() == data,
            data == old(input).data(),
            pos0 == old(input).pos(),
            r0 == *old(residual),
            chroma_subsampled,
            total == cavlc_run(data, pos0, mb_a, mb_b, r0, start_nc(r0), jv, 0),
            jobs@ == jv,
            jv == cavlc_jobs(r0.prediction_mode, r0.coded_block_pattern),
            i <= jv.len(),
            keys_increase(jv),
            forall|j: int|
                0 <= j < jv.len() ==> block_ok(#[trigger] jv[j]) && fits(residual.luma, jv[j]) && !(
                jv[j] is Luma8x8),
            intra16 == (r0.prediction_mode == MbPredictionMode::Intra_16x16),
            residual.prediction_mode == r0.prediction_mode,
            residual.coded_block_pattern == r0.coded_block_pattern,
            residual.transform_size_8x8_flag == r0.transform_size_8x8_flag,
            if intra16 {
                residual.luma is Intra16x16
            } else {
                residual.luma is Block4x4
            },
            done.len() == i,
            forall|j: int| 0 <= j < i ==> #[trigger] block_levels(*residual, jv[j]) == done[j],
            forall|s: ResidualBlock|
                block_ok(s) && fits(residual.luma, s) && !jv.take(i as int).contains(s)
                    ==> #[trigger] block_levels(*residual, s) == start_levels(r0, s),
            total == after(
                done,
                cavlc_run(data, input.pos(), mb_a, mb_b, r0, nc_view(*residual), jv, i as int),
            ),
        decreases jv.len() - i,
    {
        let s = jobs[i];
        let ghost pos_i = input.pos();
        let ghost prev = *residual;
        proof {
            lemma_not_yet_parsed(jv, i as int);
        }
        let n = match parse_block_job(input, mb_a, mb_b, residual, s) {
            Ok(n) => n,
            Err(e) => {
                proof {
                    assert(block_levels(prev, s) == start_levels(r0, s));
                    assert(cavlc_run(data, pos_i, mb_a, mb_b, r0, nc_view(prev), jv, i as int) is None);
                }
                return Err(e);
            },
        };
        let ghost lv = block_levels(*residual, s);
        proof {
            lemma_cavlc_step(data, pos_i, input.pos(), mb_a, mb_b, r0, prev, *residual, jv, i as int, done, n);
        }
        proof {
            done = done.push(lv);
        }
        i = i + 1;
    }
    proof {
        assert(jv.take(jv.len() as int) =~= jv);
        assert(done + Seq::<Seq<i32>>::empty() =~= done);
    }
    Ok(())
}

/// The count slots of distinct blocks of a strictly increasing block list
/// differ.
proof fn lemma_slots_distinct(jobs: Seq<ResidualBlock>, i: int, j: int)
    requires
        keys_increase(jobs),
        0 <= i < j < jobs.len(),
        block_ok(jobs[i]),
        block_ok(jobs[j]),
        nc_slot(jobs[i]) is Some,
        nc_slot(jobs[j]) is Some,
    ensures
        nc_slot(jobs[i]) != nc_slot(jobs[j]),
{
    assert(block_key(jobs[i]) < block_key(jobs[j]));
}

/// Along `cavlc_run` from zeroed levels, each block's count is the number
/// of its non-zero levels, and the counts of the blocks it does not decode
/// stay as they were.
proof fn lemma_cavlc_run_counts(
    data: Seq<u8>,
    pos: int,
    a: Option<&Macroblock>,
    b: Option<&Macroblock>,
    init: Residual,
    nc: Seq<u8>,
    jobs: Seq<ResidualBlock>,
    i: int,
)
    requires
        0 <= i <= jobs.len(),
        keys_increase(jobs),
        forall|j: int| 0 <= j < jobs.len() ==> block_ok(#[trigger] jobs[j]) && !(jobs[j] is Luma8x8),
        forall|j: int, k: int|
            i <= j < jobs.len() && 0 <= k < block_len(jobs[j]) ==> #[trigger] start_levels(init, jobs[j])[k]
                == 0,
        forall|j: int| 0 <= j < jobs.len() ==> #[trigger] start_levels(init, jobs[j]).len() == block_len(jobs[j]),
        nc.len() == 24,
    ensures
        cavlc_run(data, pos, a, b, init, nc, jobs, i) matches Some((p, ncf, outs)) ==> {
            &&& outs.len() == jobs.len() - i
            &&& ncf.len() == 24
            &&& forall|j: int|
                i <= j < jobs.len() ==> (#[trigger] outs[j - i]).len() == block_len(jobs[j]) && (
                nc_slot(jobs[j]) matches Some(k) ==> ncf[k] as int == count_nonzero(
                    outs[j - i],
                    block_len(jobs[j]),
                ))
            &&& forall|k: int|
                0 <= k < 24 && (forall|j: int| i <= j < jobs.len() ==> nc_slot(#[trigger] jobs[j]) != Some(k))
                    ==> ncf[k] == nc[k]
        },
    decreases jobs.len() - i,
{
    if i < jobs.len() {
        let s = jobs[i];
        let c = start_levels(init, s);
        assert(block_ok(jobs[i]));
        let ncv = job_nc(a, b, nc, s);
        lemma_total_coeff_counts_nonzero(data, pos, ncv, c);
        match spec_residual_block(data, pos, ncv, c) {
            None => {},
            Some((p1, n, lv)) => {
                let nc2 = record_nc(nc, s, n);
                lemma_cavlc_run_counts(data, p1, a, b, init, nc2, jobs, i + 1);
                match cavlc_run(data, p1, a, b, init, nc2, jobs, i + 1) {
                    None => {},
                    Some((pf, ncf, rest)) => {
                        let outs = seq![lv] + rest;
                        assert forall|j: int| i <= j < jobs.len() implies (#[trigger] outs[j - i]).len()
                            == block_len(jobs[j]) && (nc_slot(jobs[j]) matches Some(k) ==> ncf[k] as int
                            == count_nonzero(outs[j - i], block_len(jobs[j]))) by {
                            if j == i {
                                if nc_slot(s) is Some {
                                    let k = nc_slot(s)->0;
                                    assert forall|j2: int| i + 1 <= j2 < jobs.len() implies nc_slot(
                                        #[trigger] jobs[j2],
                                    ) != Some(k) by {
                                        if nc_slot(jobs[j2]) is Some {
                                            lemma_slots_distinct(jobs, i, j2);
                                        }
                                    }
                                }
                            } else {
                                assert(outs[j - i] == rest[j - (i + 1)]);
                            }
                        }
                        assert forall|k: int|
                            0 <= k < 24 && (forall|j: int| i <= j < jobs.len() ==> nc_slot(#[trigger] jobs[j]) != Some(
                                k,
                            )) implies ncf[k] == nc[k] by {
                            assert(nc_slot(jobs[i]) != Some(k));
                            assert forall|j: int| i + 1 <= j < jobs.len() implies nc_slot(#[trigger] jobs[j])
                                != Some(k) by {
                                assert(i <= j);
                            }
                        }
                    },
                }
            },
        }
    }
}

/// A residual that CAVLC decodes into zeroed levels records, for each
/// 4x4 block it decodes, the number of that block's non-zero levels: the
/// count that deblocking and the `nC` of later blocks read.
pub proof fn lemma_residual_counts_nonzero(
    data: Seq<u8>,
    pos: int,
    a: Option<&Macroblock>,
    b: Option<&Macroblock>,
    r0: Residual,
    r: Residual,
    s: ResidualBlock,
)
    requires
        forall|c: int, k: int| 0 <= c < 2 && 0 <= k < 4 ==> #[trigger] r0.chroma_dc@[c]@[k] == 0,
        forall|c: int, j: int, k: int|
            0 <= c < 2 && 0 <= j < 4 && 0 <= k < 15 ==> #[trigger] r0.chroma_ac@[c]@[j]@[k] == 0,
        cavlc_run(
            data,
            pos,
            a,
            b,
            r0,
            start_nc(r0),
            cavlc_jobs(r0.prediction_mode, r0.coded_block_pattern),
            0,
        ) matches Some((p, nc, outs)) && residual_result(
            r0,
            r,
            cavlc_jobs(r0.prediction_mode, r0.coded_block_pattern),
            outs,
            nc,
        ),
        cavlc_jobs(r0.prediction_mode, r0.coded_block_pattern).contains(s),
        nc_slot(s) is Some,
    ensures
        nc_view(r)[nc_slot(s)->0] as int == count_nonzero(block_levels(r, s), block_len(s)),
{
    let jobs = cavlc_jobs(r0.prediction_mode, r0.coded_block_pattern);
    let chroma = (r0.coded_block_pattern.0 / 16) as u8;
    lemma_residual_jobs(
        r0.prediction_mode == MbPredictionMode::Intra_16x16,
        false,
        r0.coded_block_pattern,
        chroma & 3 != 0,
        chroma & 2 != 0,
    );
    assert forall|j: int, k: int|
        0 <= j < jobs.len() && 0 <= k < block_len(jobs[j]) implies #[trigger] start_levels(r0, jobs[j])[k]
        == 0 by {
        assert(block_ok(jobs[j]));
    }
    assert forall|j: int| 0 <= j < jobs.len() implies #[trigger] start_levels(r0, jobs[j]).len() == block_len(
        jobs[j],
    ) by {
        assert(block_ok(jobs[j]));
    }
    lemma_cavlc_run_counts(data, pos, a, b, r0, start_nc(r0), jobs, 0);
    let j = choose|j: int| 0 <= j < jobs.len() && jobs[j] == s;
    match cavlc_run(data, pos, a, b, r0, start_nc(r0), jobs, 0) {
        Some((p, nc, outs)) => {
            assert(block_levels(r, jobs[j]) == outs[j]);
            assert(outs[j - 0] == outs[j]);
        },
        None => {},
    }
}

/// Table 7-11: the I macroblock type of `mb_type` value `v` (0 I_NxN,
/// 1..=24 I_16x16, 25 I_PCM).
pub open spec fn spec_i_mb_type(v: int) -> Option<IMbType> {
    if v == 0 {
        Some(IMbType::I_NxN)
    } else if 1 <= v <= 24 {
        Some(
            IMbType::I_16x16 {
                pred_mode: ((v - 1) % 4) as u8,
                cbp_chroma: (((v - 1) / 4) % 3) as u8,
                cbp_luma: if v >= 13 {
                    1u8
                } else {
                    0u8
                },
            },
        )
    } else if v == 25 {
        Some(IMbType::I_PCM)
    } else {
        None
    }
}

/// Table 7-13: the P macroblock type of `mb_type` value `v` (0..=4).
pub open spec fn spec_p_mb_type(v: int) -> Option<PMbType> {
    if v == 0 {
        Some(PMbType::P_L0_16x16)
    } else if v == 1 {
        Some(PMbType::P_L0_L0_16x8)
    } else if v == 2 {
        Some(PMbType::P_L0_L0_8x16)
    } else if v == 3 {
        Some(PMbType::P_8x8)
    } else if v == 4 {
        Some(PMbType::P_8x8ref0)
    } else {
        None
    }
}

/// Tables 7-11, 7-13, 7-14: the macroblock type of `mb_type` value `v` in
/// a slice of type `t`. I and SI slices: I types (`v <= 25`). P and SP
/// slices: `v <= 4` the P types, `5..=30` the I types of `v - 5`. B
/// slices: `v <= 22` the B types, `23..=48` the I types of `v - 23`.
/// `None` beyond.
pub open spec fn spec_mb_type_cavlc(t: SliceType, v: int) -> Option<CabacMbType> {
    if t == SliceType::I || t == SliceType::SI {
        match spec_i_mb_type(v) {
            Some(m) => Some(CabacMbType::I(m)),
            None => None,
        }
    } else if t == SliceType::B {
        if v >= 23 {
            match spec_i_mb_type(v - 23) {
                Some(m) => Some(CabacMbType::I(m)),
                None => None,
            }
        } else if 0 <= v {
            Some(CabacMbType::B(b_mb_types()[v]))
        } else {
            None
        }
    } else if v >= 5 {
        match spec_i_mb_type(v - 5) {
            Some(m) => Some(CabacMbType::I(m)),
            None => None,
        }
    } else {
        match spec_p_mb_type(v) {
            Some(m) => Some(CabacMbType::P(m)),
            None => None,
        }
    }
}

/// The macroblock type of `mb_type` value `v` in a slice of type
/// `slice_type` (see `spec_mb_type_cavlc`); an error for a value past the
/// slice type's tables.
pub fn mb_type_from_value(slice_type: SliceType, v: u32) -> (r: ParseResult<CabacMbType>)
    ensures
        match r {
            Ok(t) => spec_mb_type_cavlc(slice_type, v as int) == Some(t),
            Err(_) => spec_mb_type_cavlc(slice_type, v as int) is None,
        },
{
    let i_value = if slice_type == SliceType::I || slice_type == SliceType::SI {
        Some(v)
    } else if slice_type == SliceType::B {
        if v >= 23 {
            Some(v - 23)
        } else {
            None
        }
    } else if v >= 5 {
        Some(v - 5)
    } else {
        None
    };
    match i_value {
        Some(iv) => match IMbType::from_value(iv) {
            Some(m) => Ok(CabacMbType::I(m)),
            None => Err("invalid I mb_type".to_owned()),
        },
        None => {
            if slice_type == SliceType::B {
                match BMbType::from_value(v) {
                    Some(m) => Ok(CabacMbType::B(m)),
                    None => Err("invalid B mb_type".to_owned()),
                }
            } else {
                let m = if v == 0 {
                    PMbType::P_L0_16x16
                } else if v == 1 {
                    PMbType::P_L0_L0_16x8
                } else if v == 2 {
                    PMbType::P_L0_L0_8x16
                } else if v == 3 {
                    PMbType::P_8x8
                } else {
                    PMbType::P_8x8ref0
                };
                Ok(CabacMbType::P(m))
            }
        },
    }
}

/// Section 7.3.5: reads the `ue(v)` `mb_type` of a macroblock of a slice of
/// type `slice_type` and maps it (see `spec_mb_type_cavlc`).
pub fn parse_mb_type(input: &mut BitReader<'_>, slice_type: SliceType) -> (r: ParseResult<CabacMbType>)
    requires
        old(input).wf(),
    ensures
        final(input).wf(),
        final(input).data() == old(input).data(),
        match r {
            Ok(t) => match ue_spec(old(input).data(), old(input).pos()) {
                Some((v, p)) => p == final(input).pos() && spec_mb_type_cavlc(slice_type, v) == Some(t),
                None => false,
            },
            Err(_) => match ue_spec(old(input).data(), old(input).pos()) {
                Some((v, p)) => spec_mb_type_cavlc(slice_type, v) is None,
                None => true,
            },
        },
{
    let v = match input.ue() {
        Ok(v) => v,
        Err(e) => return Err(e),
    };
    mb_type_from_value(slice_type, v)
}

/// The message of a skip run past the end of the picture, as `format!`
/// (std) writes it. Nothing is stated of the text.
#[verifier::external_body]
fn skip_run_message(run: u32, left: usize) -> String {
    format!("Trying to skip {run} blocks, only {left} blocks left")
}

/// Section 7.3.4: reads the `ue(v)` `mb_skip_run` of a P or B slice whose
/// next macroblock is `next_mb_addr` of `pic_size_in_mbs`: an error where
/// the run would skip past the picture, so that no skipped macroblock is
/// appended for it.
pub fn parse_skip_run(input: &mut BitReader<'_>, pic_size_in_mbs: usize, next_mb_addr: usize) -> (r: ParseResult<usize>)
    requires
        old(input).wf(),
        next_mb_addr <= pic_size_in_mbs,
    ensures
        final(input).wf(),
        final(input).data() == old(input).data(),
        match r {
            Ok(run) => match ue_spec(old(input).data(), old(input).pos()) {
                Some((v, p)) => p == final(input).pos() && run == v && v <= pic_size_in_mbs - next_mb_addr,
                None => false,
            },
            Err(_) => match ue_spec(old(input).data(), old(input).pos()) {
                Some((v, p)) => v > pic_size_in_mbs - next_mb_addr,
                None => true,
            },
        },
{
    let v = match input.ue() {
        Ok(v) => v,
        Err(e) => return Err(e),
    };
    let blocks_left = pic_size_in_mbs - next_mb_addr;
    if v as usize > blocks_left {
        return Err(skip_run_message(v, blocks_left));
    }
    Ok(v as usize)
}

/// Table 9-4 (4:2:0 and 4:2:2): the `coded_block_pattern` of each `me(v)`
/// code number for Intra_4x4 and Intra_8x8 macroblocks.
pub open spec fn intra_cbp_table() -> Seq<u8> {
    seq![47u8, 31u8, 15u8, 0u8, 23u8, 27u8, 29u8, 30u8, 7u8, 11u8, 13u8, 14u8, 39u8, 43u8, 45u8, 46u8, 16u8, 3u8, 5u8, 10u8, 12u8, 19u8, 21u8, 26u8, 28u8, 35u8, 37u8, 42u8, 44u8, 1u8, 2u8, 4u8, 8u8, 17u8, 18u8, 20u8, 24u8, 6u8, 9u8, 22u8, 25u8, 32u8, 33u8, 34u8, 36u8, 40u8, 38u8, 41u8]
}

/// Table 9-4 (4:2:0 and 4:2:2): the `coded_block_pattern` of each `me(v)`
/// code number for inter macroblocks.
pub open spec fn inter_cbp_table() -> Seq<u8> {
    seq![0u8, 16u8, 1u8, 2u8, 4u8, 8u8, 32u8, 3u8, 5u8, 10u8, 12u8, 15u8, 47u8, 7u8, 11u8, 13u8, 14u8, 6u8, 9u8, 31u8, 35u8, 37u8, 42u8, 44u8, 33u8, 34u8, 36u8, 40u8, 39u8, 43u8, 45u8, 46u8, 17u8, 18u8, 20u8, 24u8, 19u8, 21u8, 26u8, 28u8, 23u8, 27u8, 29u8, 30u8, 22u8, 25u8, 38u8, 41u8]
}

/// The intra `coded_block_pattern` of code number `code_num` (Table 9-4);
/// `None` past 47.
pub fn code_num_to_intra_coded_block_pattern(code_num: u8) -> (r: Option<CodedBlockPattern>)
    ensures
        r == (if code_num < 48 {
            Some(CodedBlockPattern(intra_cbp_table()[code_num as int]))
        } else {
            None
        }),
{
    let table: [u8; 48] = [47, 31, 15, 0, 23, 27, 29, 30, 7, 11, 13, 14, 39, 43, 45, 46, 16, 3, 5, 10, 12, 19, 21, 26, 28, 35, 37, 42, 44, 1, 2, 4, 8, 17, 18, 20, 24, 6, 9, 22, 25, 32, 33, 34, 36, 40, 38, 41];
    assert(table@ =~= intra_cbp_table());
    if code_num < 48 {
        Some(CodedBlockPattern(table[code_num as usize]))
    } else {
        None
    }
}

/// The inter `coded_block_pattern` of code number `code_num` (Table 9-4);
/// `None` past 47.
pub fn code_num_to_inter_coded_block_pattern(code_num: u8) -> (r: Option<CodedBlockPattern>)
    ensures
        r == (if code_num < 48 {
            Some(CodedBlockPattern(inter_cbp_table()[code_num as int]))
        } else {
            None
        }),
{
    let table: [u8; 48] = [0, 16, 1, 2, 4, 8, 32, 3, 5, 10, 12, 15, 47, 7, 11, 13, 14, 6, 9, 31, 35, 37, 42, 44, 33, 34, 36, 40, 39, 43, 45, 46, 17, 18, 20, 24, 19, 21, 26, 28, 23, 27, 29, 30, 22, 25, 38, 41];
    assert(table@ =~= inter_cbp_table());
    if code_num < 48 {
        Some(CodedBlockPattern(table[code_num as usize]))
    } else {
        None
    }
}

/// Sections 7.3.5 and 9.1.2: reads the `me(v)` `coded_block_pattern` of an
/// intra (`intra`) or inter macroblock: the `ue(v)` code number mapped by
/// Table 9-4; an error past code number 47.
pub fn parse_coded_block_pattern(input: &mut BitReader<'_>, intra: bool) -> (r: ParseResult<CodedBlockPattern>)
    requires
        old(input).wf(),
    ensures
        final(input).wf(),
        final(input).data() == old(input).data(),
        match r {
            Ok(c) => match ue_spec(old(input).data(), old(input).pos()) {
                Some((v, p)) => p == final(input).pos() && v < 48 && c.0 == (if intra {
                    intra_cbp_table()[v]
                } else {
                    inter_cbp_table()[v]
                }),
                None => false,
            },
            Err(_) => match ue_spec(old(input).data(), old(input).pos()) {
                Some((v, p)) => v >= 48,
                None => true,
            },
        },
{
    let v = match input.ue() {
        Ok(v) => v,
        Err(e) => return Err(e),
    };
    if v >= 48 {
        return Err("Invalid coded_block_pattern".to_owned());
    }
    let c = if intra {
        code_num_to_intra_coded_block_pattern(v as u8)
    } else {
        code_num_to_inter_coded_block_pattern(v as u8)
    };
    match c {
        Some(c) => Ok(c),
        None => Err("Invalid coded_block_pattern".to_owned()),
    }
}

/// The number of `Intra4x4PredMode` `m` (Table 8-2).
pub open spec fn mode_num(m: Intra_4x4_SamplePredMode) -> int {
    match m {
        Intra_4x4_SamplePredMode::Vertical => 0,
        Intra_4x4_SamplePredMode::Horizontal => 1,
        Intra_4x4_SamplePredMode::DC => 2,
        Intra_4x4_SamplePredMode::Diagonal_Down_Left => 3,
        Intra_4x4_SamplePredMode::Diagonal_Down_Right => 4,
        Intra_4x4_SamplePredMode::Vertical_Right => 5,
        Intra_4x4_SamplePredMode::Horizontal_Down => 6,
        Intra_4x4_SamplePredMode::Vertical_Left => 7,
        Intra_4x4_SamplePredMode::Horizontal_Up => 8,
    }
}

/// The numbers of the modes `modes`.
pub open spec fn mode_nums(modes: Seq<Intra_4x4_SamplePredMode>) -> Seq<int> {
    modes.map_values(|m: Intra_4x4_SamplePredMode| mode_num(m))
}

fn mode_number(m: Intra_4x4_SamplePredMode) -> (v: u8)
    ensures
        v == mode_num(m),
{
    match m {
        Intra_4x4_SamplePredMode::Vertical => 0,
        Intra_4x4_SamplePredMode::Horizontal => 1,
        Intra_4x4_SamplePredMode::DC => 2,
        Intra_4x4_SamplePredMode::Diagonal_Down_Left => 3,
        Intra_4x4_SamplePredMode::Diagonal_Down_Right => 4,
        Intra_4x4_SamplePredMode::Vertical_Right => 5,
        Intra_4x4_SamplePredMode::Horizontal_Down => 6,
        Intra_4x4_SamplePredMode::Vertical_Left => 7,
        Intra_4x4_SamplePredMode::Horizontal_Up => 8,
    }
}

pub(crate) fn mode_from_number(v: u8) -> (m: Intra_4x4_SamplePredMode)
    requires
        v <= 8,
    ensures
        mode_num(m) == v,
{
    if v == 0 {
        Intra_4x4_SamplePredMode::Vertical
    } else if v == 1 {
        Intra_4x4_SamplePredMode::Horizontal
    } else if v == 2 {
        Intra_4x4_SamplePredMode::DC
    } else if v == 3 {
        Intra_4x4_SamplePredMode::Diagonal_Down_Left
    } else if v == 4 {
        Intra_4x4_SamplePredMode::Diagonal_Down_Right
    } else if v == 5 {
        Intra_4x4_SamplePredMode::Vertical_Right
    } else if v == 6 {
        Intra_4x4_SamplePredMode::Horizontal_Down
    } else if v == 7 {
        Intra_4x4_SamplePredMode::Vertical_Left
    } else {
        Intra_4x4_SamplePredMode::Horizontal_Up
    }
}

/// Section 8.3.1.1: `intraMxMPredModeN` of neighbour `dir` (A or B) of 4x4
/// block `blk`, with `modes` the mode numbers of the current macroblock so
/// far: the neighbouring block's mode in an I_NxN macroblock, 2 (DC) in any
/// other; `None` (`dcPredModePredictedFlag`) where the neighbouring
/// macroblock is not available.
pub open spec fn nb_pred_mode(
    a: Option<&Macroblock>,
    b: Option<&Macroblock>,
    modes: Seq<int>,
    blk: int,
    dir: MbNeighborName,
) -> Option<int> {
    let nbr = spec_luma4x4_neighbor(blk, dir);
    match nbr.1 {
        None => Some(modes[nbr.0]),
        Some(name) => match (if name == MbNeighborName::A {
            a
        } else {
            b
        }) {
            None => None,
            Some(m) => Some(
                match *m {
                    Macroblock::I(i) => if i.mb_type == IMbType::I_NxN {
                        mode_num(i.rem_intra4x4_pred_mode@[nbr.0])
                    } else {
                        2
                    },
                    _ => 2,
                },
            ),
        },
    }
}

/// Section 8.3.1.1: `predIntra4x4PredMode` of 4x4 block `blk`: the smaller
/// of the neighbours' modes, 2 (DC) where either neighbour is missing.
pub open spec fn pred_intra4x4_mode(a: Option<&Macroblock>, b: Option<&Macroblock>, modes: Seq<int>, blk: int) -> int {
    match (nb_pred_mode(a, b, modes, blk, MbNeighborName::A), nb_pred_mode(a, b, modes, blk, MbNeighborName::B)) {
        (Some(x), Some(y)) => if x < y {
            x
        } else {
            y
        },
        _ => 2,
    }
}

/// Sections 7.3.5.1 and 8.3.1.1: the `Intra4x4PredMode` numbers of blocks
/// `k..16` read from bit `pos`: per block a `prev_intra4x4_pred_mode_flag`,
/// 1 for the predicted mode, else a 3-bit `rem_intra4x4_pred_mode`, taken
/// as it is below the predicted mode and one more from it on; with the
/// modes so far `modes`, and the position after them.
pub open spec fn intra4x4_modes_spec(
    data: Seq<u8>,
    pos: int,
    a: Option<&Macroblock>,
    b: Option<&Macroblock>,
    modes: Seq<int>,
    k: int,
) -> Option<(Seq<int>, int)>
    decreases 16 - k,
{
    if k < 0 || k >= 16 {
        Some((modes, pos))
    } else {
        let pred = pred_intra4x4_mode(a, b, modes, k);
        if pos < 0 || pos >= total_bits(data) {
            None
        } else if stream_bit(data, pos) == 1 {
            intra4x4_modes_spec(data, pos + 1, a, b, modes.update(k, pred), k + 1)
        } else if pos + 4 > total_bits(data) {
            None
        } else {
            let rem = bits_value(data, pos + 1, 3) as int;
            intra4x4_modes_spec(
                data,
                pos + 4,
                a,
                b,
                modes.update(
                    k,
                    if rem < pred {
                        rem
                    } else {
                        rem + 1
                    },
                ),
                k + 1,
            )
        }
    }
}

/// `intraMxMPredModeN` of neighbour `dir` of block `blk` (see
/// `nb_pred_mode`).
fn nb_mode_of(
    mb_a: Option<&Macroblock>,
    mb_b: Option<&Macroblock>,
    modes: &[Intra_4x4_SamplePredMode; 16],
    blk: u8,
    dir: MbNeighborName,
) -> (v: Option<u8>)
    requires
        blk < 16,
        dir == MbNeighborName::A || dir == MbNeighborName::B,
    ensures
        match v {
            Some(x) => nb_pred_mode(mb_a, mb_b, mode_nums(modes@), blk as int, dir) == Some(x as int) && x <= 8,
            None => nb_pred_mode(mb_a, mb_b, mode_nums(modes@), blk as int, dir) is None,
        },
{
    let (k, mbn) = get_4x4luma_block_neighbor(blk, dir);
    match mbn {
        None => Some(mode_number(modes[k as usize])),
        Some(name) => {
            let m = match name {
                MbNeighborName::A => mb_a,
                _ => mb_b,
            };
            match m {
                None => None,
                Some(mb) => Some(
                    match mb {
                        Macroblock::I(i) => if i.mb_type == IMbType::I_NxN {
                            mode_number(i.rem_intra4x4_pred_mode[k as usize])
                        } else {
                            2
                        },
                        _ => 2,
                    },
                ),
            }
        },
    }
}

/// `predIntra4x4PredMode` of block `blk` (see `pred_intra4x4_mode`).
pub(crate) fn pred_mode_of(
    mb_a: Option<&Macroblock>,
    mb_b: Option<&Macroblock>,
    modes: &[Intra_4x4_SamplePredMode; 16],
    blk: u8,
) -> (p: u8)
    requires
        blk < 16,
    ensures
        p == pred_intra4x4_mode(mb_a, mb_b, mode_nums(modes@), blk as int),
        p <= 8,
{
    let a = nb_mode_of(mb_a, mb_b, modes, blk, MbNeighborName::A);
    let b = nb_mode_of(mb_a, mb_b, modes, blk, MbNeighborName::B);
    match (a, b) {
        (Some(x), Some(y)) => if x < y {
            x
        } else {
            y
        },
        _ => 2,
    }
}

/// Sections 7.3.5.1 and 8.3.1.1: reads the `Intra4x4PredMode` of the 16
/// blocks of an Intra_4x4 macroblock whose neighbours A and B are `mb_a`
/// and `mb_b` where available (see `intra4x4_modes_spec`).
pub fn parse_intra4x4_pred_modes(input: &mut BitReader<'_>, mb_a: Option<&Macroblock>, mb_b: Option<&Macroblock>) -> (r:
    ParseResult<[Intra_4x4_SamplePredMode; 16]>)
    requires
        old(input).wf(),
    ensures
        final(input).wf(),
        final(input).data() == old(input).data(),
        match r {
            Ok(m) => intra4x4_modes_spec(
                old(input).data(),
                old(input).pos(),
                mb_a,
                mb_b,
                Seq::new(16, |i: int| 2int),
                0,
            ) == Some((mode_nums(m@), final(input).pos())),
            Err(_) => intra4x4_modes_spec(
                old(input).data(),
                old(input).pos(),
                mb_a,
                mb_b,
                Seq::new(16, |i: int| 2int),
                0,
            ) is None,
        },
{
    let mut modes = [Intra_4x4_SamplePredMode::DC; 16];
    let ghost data = input.data();
    let ghost total = intra4x4_modes_spec(data, input.pos(), mb_a, mb_b, Seq::new(16, |i: int| 2int), 0);
    proof {
        assert(mode_nums(modes@) =~= Seq::new(16, |i: int| 2int));
    }
    let mut k: u8 = 0;
    while k < 16
        invariant
            k <= 16,
            input.wf(),
            input.data() == data,
            data == old(input).data(),
            total == intra4x4_modes_spec(data, old(input).pos(), mb_a, mb_b, Seq::new(16, |i: int| 2int), 0),
            total == intra4x4_modes_spec(data, input.pos(), mb_a, mb_b, mode_nums(modes@), k as int),
        decreases 16 - k,
    {
        let pred = pred_mode_of(mb_a, mb_b, &modes, k);
        let ghost nums = mode_nums(modes@);
        let flag = match input.read_bit() {
            Ok(b) => b,
            Err(e) => return Err(e),
        };
        let m = if flag == 1 {
            pred
        } else {
            let rem = match input.u(3) {
                Ok(v) => v,
                Err(e) => return Err(e),
            };
            proof {
                crate::bitreader::lemma_bits_value_bound(data, input.pos() - 3, 3);
                vstd::arithmetic::power2::lemma2_to64();
            }
            if (rem as u8) < pred {
                rem as u8
            } else {
                rem as u8 + 1
            }
        };
        modes[k as usize] = mode_from_number(m);
        proof {
            assert(mode_nums(modes@) =~= nums.update(k as int, m as int));
        }
        k = k + 1;
    }
    Ok(modes)
}

/// The number of `intra_chroma_pred_mode` `m` (Table 7-16).
pub open spec fn chroma_mode_num(m: Intra_Chroma_Pred_Mode) -> int {
    match m {
        Intra_Chroma_Pred_Mode::DC => 0,
        Intra_Chroma_Pred_Mode::Horizontal => 1,
        Intra_Chroma_Pred_Mode::Vertical => 2,
        Intra_Chroma_Pred_Mode::Plane => 3,
    }
}

/// `MbPartPredMode` of an I macroblock of type `t`: Intra_4x4 or
/// Intra_8x8 (by the transform size) for I_NxN, Intra_16x16 otherwise.
pub open spec fn i_pred_mode(t: IMbType, t8: bool) -> MbPredictionMode {
    if t == IMbType::I_NxN {
        if t8 {
            MbPredictionMode::Intra_8x8
        } else {
            MbPredictionMode::Intra_4x4
        }
    } else {
        MbPredictionMode::Intra_16x16
    }
}

/// Table 7-11: the coded block pattern that an I_16x16 type carries
/// (luma 0 or 15); `None` for patterns outside the table.
pub open spec fn i16x16_cbp(cbp_chroma: u8, cbp_luma: u8) -> Option<int> {
    if cbp_chroma <= 2 && cbp_luma <= 1 {
        Some(cbp_chroma * 16 + if cbp_luma == 1 {
            15int
        } else {
            0int
        })
    } else {
        None
    }
}

/// Section 7.3.5: the syntax of an I macroblock of type `t` (not I_PCM)
/// before its residual, from bit `pos`: `transform_size_8x8_flag` where
/// `t8_mode` allows it for I_NxN (Intra_8x8 refused); the
/// `Intra4x4PredMode`s (see `intra4x4_modes_spec`) for Intra_4x4, all DC
/// for Intra_16x16; `intra_chroma_pred_mode` (`ue(v)` up to 3) where chroma
/// is subsampled, else 0; the coded block pattern, from the type for
/// Intra_16x16, else `me(v)`; and `mb_qp_delta` (`se(v)`) where a residual
/// follows. The flag, modes, chroma mode, pattern, QP delta and the
/// position after them.
#[verifier::opaque]
pub open spec fn i_mb_header_spec(
    data: Seq<u8>,
    pos: int,
    t8_mode: bool,
    sub: bool,
    a: Option<&Macroblock>,
    b: Option<&Macroblock>,
    t: IMbType,
) -> Option<(bool, Seq<int>, int, int, int, int)> {
    let t8_read = t8_mode && t == IMbType::I_NxN;
    if t8_read && (pos < 0 || pos >= total_bits(data)) {
        None
    } else {
        let t8 = t8_read && stream_bit(data, pos) == 1;
        let p1 = if t8_read {
            pos + 1
        } else {
            pos
        };
        if t8 {
            None
        } else {
            let m = if t == IMbType::I_NxN {
                intra4x4_modes_spec(data, p1, a, b, Seq::new(16, |i: int| 2int), 0)
            } else {
                Some((Seq::new(16, |i: int| 2int), p1))
            };
            match m {
                None => None,
                Some((modes, p2)) => {
                    let c = if sub {
                        match ue_spec(data, p2) {
                            None => None,
                            Some((v, p)) => if v > 3 {
                                None
                            } else {
                                Some((v, p))
                            },
                        }
                    } else {
                        Some((0, p2))
                    };
                    match c {
                        None => None,
                        Some((chroma, p3)) => {
                            let cb = match t {
                                IMbType::I_16x16 { pred_mode, cbp_chroma, cbp_luma } => match i16x16_cbp(
                                    cbp_chroma,
                                    cbp_luma,
                                ) {
                                    Some(c) => Some((c, p3)),
                                    None => None,
                                },
                                _ => match ue_spec(data, p3) {
                                    None => None,
                                    Some((v, p)) => if v < 48 {
                                        Some((intra_cbp_table()[v] as int, p))
                                    } else {
                                        None
                                    },
                                },
                            };
                            match cb {
                                None => None,
                                Some((cbp, p4)) => if cbp != 0 || t is I_16x16 {
                                    match ue_spec(data, p4) {
                                        None => None,
                                        Some((k, p5)) => Some((t8, modes, chroma, cbp, se_of(k), p5)),
                                    }
                                } else {
                                    Some((t8, modes, chroma, cbp, 0, p4))
                                },
                            }
                        },
                    }
                },
            }
        }
    }
}

/// The residual an I macroblock starts its parse from: its prediction
/// mode and coded block pattern, no luma layout, zero chroma.
pub open spec fn fresh_residual(r: Residual, pm: MbPredictionMode, cbp: int) -> bool {
    &&& r.prediction_mode == pm
    &&& r.coded_block_pattern.0 == cbp
    &&& !r.transform_size_8x8_flag
    &&& r.luma is Empty
    &&& forall|c: int, k: int| 0 <= c < 2 && 0 <= k < 4 ==> #[trigger] r.chroma_dc@[c]@[k] == 0
    &&& forall|c: int, j: int, k: int|
        0 <= c < 2 && 0 <= j < 4 && 0 <= k < 15 ==> #[trigger] r.chroma_ac@[c]@[j]@[k] == 0
    &&& forall|c: int, j: int| 0 <= c < 2 && 0 <= j < 4 ==> #[trigger] r.chroma_nc@[c]@[j] == 0
}

/// Bytes read as integers.
pub open spec fn as_ints(v: Seq<u8>) -> Seq<int> {
    v.map_values(|x: u8| x as int)
}

/// The 8-bit samples of I_PCM from bit `pos`: 384 bytes' worth.
pub open spec fn pcm_bytes(data: Seq<u8>, pos: int, from: int, n: int) -> Seq<int> {
    Seq::new(n as nat, |i: int| bits_value(data, pos + 8 * (from + i), 8) as int)
}

fn read_pcm_samples(input: &mut BitReader<'_>, n: usize) -> (r: ParseResult<Vec<u8>>)
    requires
        old(input).wf(),
        n <= 256,
    ensures
        final(input).wf(),
        final(input).data() == old(input).data(),
        match r {
            Ok(v) => old(input).pos() + 8 * n <= total_bits(old(input).data()) && final(input).pos()
                == old(input).pos() + 8 * n && as_ints(v@) == pcm_bytes(
                old(input).data(),
                old(input).pos(),
                0,
                n as int,
            ),
            Err(_) => old(input).pos() + 8 * n > total_bits(old(input).data()),
        },
{
    let mut v: Vec<u8> = Vec::new();
    let mut i: usize = 0;
    while i < n
        invariant
            i <= n <= 256,
            input.wf(),
            input.data() == old(input).data(),
            input.pos() == old(input).pos() + 8 * i,
            old(input).pos() + 8 * i <= total_bits(old(input).data()),
            v@.len() == i,
            as_ints(v@) == pcm_bytes(old(input).data(), old(input).pos(), 0, i as int),
        decreases n - i,
    {
        let b = match input.u(8) {
            Ok(b) => b,
            Err(e) => return Err(e),
        };
        proof {
            crate::bitreader::lemma_bits_value_bound(old(input).data(), old(input).pos() + 8 * i, 8);
            vstd::arithmetic::power2::lemma2_to64();
        }
        let ghost prev = v@;
        v.push(b as u8);
        proof {
            let want = pcm_bytes(old(input).data(), old(input).pos(), 0, i + 1);
            let had = pcm_bytes(old(input).data(), old(input).pos(), 0, i as int);
            assert forall|j: int| 0 <= j < i + 1 implies as_ints(v@)[j] == #[trigger] want[j] by {
                if j < i {
                    assert(v@[j] == prev[j]);
                    assert(prev.map_values(|x: u8| x as int)[j] == had[j]);
                } else {
                    assert(b == bits_value(old(input).data(), old(input).pos() + 8 * i, 8));
                }
            }
            assert(as_ints(v@) =~= want);
        }
        i = i + 1;
    }
    Ok(v)
}

/// The syntax of an I macroblock before its residual (see
/// `i_mb_header_spec`): its `Intra4x4PredMode`s, chroma mode, coded block
/// pattern and QP delta (0 where no residual follows).
#[verifier::rlimit(100)]
#[verifier::spinoff_prover]
fn parse_i_mb_header(
    input: &mut BitReader<'_>,
    transform_8x8_mode: bool,
    chroma_subsampled: bool,
    mb_a: Option<&Macroblock>,
    mb_b: Option<&Macroblock>,
    mb_type: IMbType,
) -> (r: ParseResult<([Intra_4x4_SamplePredMode; 16], Intra_Chroma_Pred_Mode, CodedBlockPattern, i32)>)
    requires
        old(input).wf(),
        mb_type != IMbType::I_PCM,
    ensures
        final(input).wf(),
        final(input).data() == old(input).data(),
        match r {
            Ok((m, c, cbp, dq)) => i_mb_header_spec(
                old(input).data(),
                old(input).pos(),
                transform_8x8_mode,
                chroma_subsampled,
                mb_a,
                mb_b,
                mb_type,
            ) == Some((false, mode_nums(m@), chroma_mode_num(c), cbp.0 as int, dq as int, final(input).pos())),
            Err(_) => i_mb_header_spec(
                old(input).data(),
                old(input).pos(),
                transform_8x8_mode,
                chroma_subsampled,
                mb_a,
                mb_b,
                mb_type,
            ) is None,
        },
{
    proof {
        reveal(i_mb_header_spec);
    }
    let ghost data = input.data();
    let ghost p0 = input.pos();
    let t8_read = transform_8x8_mode && mb_type == IMbType::I_NxN;
    let mut t8 = false;
    if t8_read {
        let b = match input.read_bit() {
            Ok(b) => b,
            Err(e) => return Err(e),
        };
        t8 = b == 1;
    }
    if t8 {
        return Err("Intra_8x8 prediction is not supported".to_owned());
    }
    let is_nxn = mb_type == IMbType::I_NxN;
    let modes = if is_nxn {
        match parse_intra4x4_pred_modes(input, mb_a, mb_b) {
            Ok(m) => m,
            Err(e) => return Err(e),
        }
    } else {
        let m = [Intra_4x4_SamplePredMode::DC; 16];
        assert(mode_nums(m@) =~= Seq::new(16, |i: int| 2int));
        m
    };
    let chroma_mode = if chroma_subsampled {
        let v = match input.ue() {
            Ok(v) => v,
            Err(e) => return Err(e),
        };
        if v > 3 {
            return Err("intra_chroma_pred_mode out of range".to_owned());
        }
        if v == 0 {
            Intra_Chroma_Pred_Mode::DC
        } else if v == 1 {
            Intra_Chroma_Pred_Mode::Horizontal
        } else if v == 2 {
            Intra_Chroma_Pred_Mode::Vertical
        } else {
            Intra_Chroma_Pred_Mode::Plane
        }
    } else {
        Intra_Chroma_Pred_Mode::DC
    };
    let intra16 = match mb_type {
        IMbType::I_16x16 { .. } => true,
        _ => false,
    };
    let cbp = match mb_type {
        IMbType::I_16x16 { pred_mode, cbp_chroma, cbp_luma } => {
            if cbp_chroma <= 2 && cbp_luma <= 1 {
                CodedBlockPattern(cbp_chroma * 16 + if cbp_luma == 1 {
                    15
                } else {
                    0
                })
            } else {
                return Err("Invalid coded_block_pattern".to_owned());
            }
        },
        _ => match parse_coded_block_pattern(input, true) {
            Ok(c) => c,
            Err(e) => return Err(e),
        },
    };
    if cbp.0 == 0 && !intra16 {
        return Ok((modes, chroma_mode, cbp, 0));
    }
    let mb_qp_delta = match input.se() {
        Ok(v) => v,
        Err(e) => return Err(e),
    };
    Ok((modes, chroma_mode, cbp, mb_qp_delta))
}

/// What `parse_i_macroblock` gives for a macroblock of type `t` from bit
/// `pos`, ending at bit `end` (see there).
pub open spec fn i_mb_parsed(
    data: Seq<u8>,
    pos: int,
    t8_mode: bool,
    cs: bool,
    a: Option<&Macroblock>,
    b: Option<&Macroblock>,
    t: IMbType,
    r: ParseResult<Macroblock>,
    end: int,
) -> bool {
    &&& t == IMbType::I_PCM ==> ({
        let p = if pos % 8 == 0 {
            pos
        } else {
            pos - pos % 8 + 8
        };
        match r {
            Ok(mb) => {
                &&& p + 8 * 384 <= total_bits(data)
                &&& end == p + 8 * 384
                &&& mb matches Macroblock::PCM(m)
                &&& m.qp == 0
                &&& as_ints(m.pcm_sample_luma@) == pcm_bytes(data, p, 0, 256)
                &&& as_ints(m.pcm_sample_chroma_cb@) == pcm_bytes(
                    data,
                    p,
                    256,
                    64,
                )
                &&& as_ints(m.pcm_sample_chroma_cr@) == pcm_bytes(
                    data,
                    p,
                    320,
                    64,
                )
            },
            Err(_) => p + 8 * 384 > total_bits(data),
        }
    })
    &&& t != IMbType::I_PCM ==> match i_mb_header_spec(
        data,
        pos,
        t8_mode,
        cs,
        a,
        b,
        t,
    ) {
        Some((t8, modes, chroma, cbp, dq, p)) => match r {
            Ok(mb) => (mb matches Macroblock::I(i) && {
                &&& i.mb_type == t
                &&& mode_nums(i.rem_intra4x4_pred_mode@) == modes
                &&& chroma_mode_num(i.intra_chroma_pred_mode) == chroma
                &&& i.transform_size_8x8_flag == t8
                &&& i.coded_block_pattern.0 == cbp
                &&& i.mb_qp_delta == dq
                &&& i.qp == 0
                &&& if cbp != 0 || t is I_16x16 {
                    i.residual matches Some(res) && exists|r0: Residual|
                        #[trigger] fresh_residual(r0, i_pred_mode(t, t8), cbp) && residual_parsed(
                            data,
                            p,
                            a,
                            b,
                            cs,
                            r0,
                            *res,
                            end,
                        )
                } else {
                    i.residual is None && end == p
                }
            }),
            Err(_) => (cbp != 0 || t is I_16x16) && forall|r0: Residual|
                #[trigger] fresh_residual(r0, i_pred_mode(t, t8), cbp) ==> !cs || cavlc_run(
                    data,
                    p,
                    a,
                    b,
                    r0,
                    start_nc(r0),
                    cavlc_jobs(r0.prediction_mode, r0.coded_block_pattern),
                    0,
                ) is None,
        },
        None => r is Err,
    }
}

/// Section 7.3.5: an I macroblock of type `mb_type` (from `mb_type` of its
/// slice; see `mb_type_from_value`), with `transform_8x8_mode` the PPS's
/// `transform_8x8_mode_flag`, `chroma_subsampled` whether chroma is 4:2:0
/// or 4:2:2, and `mb_a`, `mb_b` its neighbours A and B where available.
/// I_PCM: aligned to a byte, 256 luma then 64 Cb and 64 Cr samples of 8
/// bits. Other types: the syntax of `i_mb_header_spec`, then, where the
/// coded block pattern is non-zero or the type is Intra_16x16, the residual
/// (see `parse_residual`). The quantiser is left 0, for the slice to set.
#[verifier::rlimit(100)]
#[verifier::spinoff_prover]
pub fn parse_i_macroblock(
    input: &mut BitReader<'_>,
    transform_8x8_mode: bool,
    chroma_subsampled: bool,
    mb_a: Option<&Macroblock>,
    mb_b: Option<&Macroblock>,
    mb_type: IMbType,
) -> (r: ParseResult<Macroblock>)
    requires
        old(input).wf(),
    ensures
        final(input).wf(),
        final(input).data() == old(input).data(),
        mb_type == IMbType::I_PCM ==> ({
            let p = if old(input).pos() % 8 == 0 {
                old(input).pos()
            } else {
                old(input).pos() - old(input).pos() % 8 + 8
            };
            match r {
                Ok(mb) => {
                    &&& p + 8 * 384 <= total_bits(old(input).data())
                    &&& final(input).pos() == p + 8 * 384
                    &&& mb matches Macroblock::PCM(m)
                    &&& m.qp == 0
                    &&& as_ints(m.pcm_sample_luma@) == pcm_bytes(old(input).data(), p, 0, 256)
                    &&& as_ints(m.pcm_sample_chroma_cb@) == pcm_bytes(
                        old(input).data(),
                        p,
                        256,
                        64,
                    )
                    &&& as_ints(m.pcm_sample_chroma_cr@) == pcm_bytes(
                        old(input).data(),
                        p,
                        320,
                        64,
                    )
                },
                Err(_) => p + 8 * 384 > total_bits(old(input).data()),
            }
        }),
        mb_type != IMbType::I_PCM ==> match i_mb_header_spec(
            old(input).data(),
            old(input).pos(),
            transform_8x8_mode,
            chroma_subsampled,
            mb_a,
            mb_b,
            mb_type,
        ) {
            Some((t8, modes, chroma, cbp, dq, p)) => match r {
                Ok(mb) => (mb matches Macroblock::I(i) && {
                    &&& i.mb_type == mb_type
                    &&& mode_nums(i.rem_intra4x4_pred_mode@) == modes
                    &&& chroma_mode_num(i.intra_chroma_pred_mode) == chroma
                    &&& i.transform_size_8x8_flag == t8
                    &&& i.coded_block_pattern.0 == cbp
                    &&& i.mb_qp_delta == dq
                    &&& i.qp == 0
                    &&& if cbp != 0 || mb_type is I_16x16 {
                        i.residual matches Some(res) && exists|r0: Residual|
                            #[trigger] fresh_residual(r0, i_pred_mode(mb_type, t8), cbp) && residual_parsed(
                                old(input).data(),
                                p,
                                mb_a,
                                mb_b,
                                chroma_subsampled,
                                r0,
                                *res,
                                final(input).pos(),
                            )
                    } else {
                        i.residual is None && final(input).pos() == p
                    }
                }),
                Err(_) => (cbp != 0 || mb_type is I_16x16) && forall|r0: Residual|
                    #[trigger] fresh_residual(r0, i_pred_mode(mb_type, t8), cbp) ==> !chroma_subsampled || cavlc_run(
                        old(input).data(),
                        p,
                        mb_a,
                        mb_b,
                        r0,
                        start_nc(r0),
                        cavlc_jobs(r0.prediction_mode, r0.coded_block_pattern),
                        0,
                    ) is None,
            },
            None => r is Err,
        },
{
    if mb_type == IMbType::I_PCM {
        input.align();
        let luma = match read_pcm_samples(input, 256) {
            Ok(v) => v,
            Err(e) => return Err(e),
        };
        let cb = match read_pcm_samples(input, 64) {
            Ok(v) => v,
            Err(e) => return Err(e),
        };
        let cr = match read_pcm_samples(input, 64) {
            Ok(v) => v,
            Err(e) => return Err(e),
        };
        return Ok(
            Macroblock::PCM(PcmMb { qp: 0, pcm_sample_luma: luma, pcm_sample_chroma_cb: cb, pcm_sample_chroma_cr: cr }),
        );
    }
    let (modes, chroma_mode, cbp, mb_qp_delta) = match parse_i_mb_header(
        input,
        transform_8x8_mode,
        chroma_subsampled,
        mb_a,
        mb_b,
        mb_type,
    ) {
        Ok(h) => h,
        Err(e) => return Err(e),
    };
    let ghost t8 = false;
    let intra16 = match mb_type {
        IMbType::I_16x16 { .. } => true,
        _ => false,
    };
    let ghost hdr = i_mb_header_spec(
        old(input).data(),
        old(input).pos(),
        transform_8x8_mode,
        chroma_subsampled,
        mb_a,
        mb_b,
        mb_type,
    );
    assert(hdr == Some((false, mode_nums(modes@), chroma_mode_num(chroma_mode), cbp.0 as int, mb_qp_delta as int, input.pos())));
    if cbp.0 == 0 && !intra16 {
        assert(mb_qp_delta == 0) by {
            reveal(i_mb_header_spec);
        }
        return Ok(
            Macroblock::I(
                IMb {
                    mb_type,
                    rem_intra4x4_pred_mode: modes,
                    intra_chroma_pred_mode: chroma_mode,
                    transform_size_8x8_flag: false,
                    coded_block_pattern: cbp,
                    mb_qp_delta: 0,
                    qp: 0,
                    residual: None,
                },
            ),
        );
    }
    let prediction_mode = if intra16 {
        MbPredictionMode::Intra_16x16
    } else {
        MbPredictionMode::Intra_4x4
    };
    let mut residual = Residual {
        prediction_mode,
        coded_block_pattern: cbp,
        transform_size_8x8_flag: false,
        luma: LumaResidual::Empty,
        chroma_dc: [[0i32; 4]; 2],
        chroma_ac: [[[0i32; 15]; 4]; 2],
        chroma_nc: [[0u8; 4]; 2],
    };
    let ghost r0 = residual;
    let ghost p5 = input.pos();
    proof {
        assert(fresh_residual(r0, i_pred_mode(mb_type, t8), cbp.0 as int));
        assert forall|r1: Residual| #[trigger] fresh_residual(r1, i_pred_mode(mb_type, t8), cbp.0 as int) implies r1
            == r0 by {
            lemma_fresh_unique(r1, r0, i_pred_mode(mb_type, t8), cbp.0 as int);
        }
    }
    match parse_residual(input, mb_a, mb_b, chroma_subsampled, &mut residual) {
        Ok(()) => {},
        Err(e) => return Err(e),
    }
    Ok(
        Macroblock::I(
            IMb {
                mb_type,
                rem_intra4x4_pred_mode: modes,
                intra_chroma_pred_mode: chroma_mode,
                transform_size_8x8_flag: false,
                coded_block_pattern: cbp,
                mb_qp_delta,
                qp: 0,
                residual: Some(Box::new(residual)),
            },
        ),
    )
}

/// The residual `fresh_residual` describes is unique.
proof fn lemma_fresh_unique(x: Residual, y: Residual, pm: MbPredictionMode, cbp: int)
    requires
        fresh_residual(x, pm, cbp),
        fresh_residual(y, pm, cbp),
    ensures
        x == y,
{
    assert forall|c: int| 0 <= c < 2 implies x.chroma_dc@[c] == y.chroma_dc@[c] by {
        assert(x.chroma_dc@[c]@ =~= y.chroma_dc@[c]@);
        vstd::array::axiom_array_ext_equal(x.chroma_dc@[c], y.chroma_dc@[c]);
    }
    vstd::array::axiom_array_ext_equal(x.chroma_dc, y.chroma_dc);
    assert forall|c: int| 0 <= c < 2 implies x.chroma_nc@[c] == y.chroma_nc@[c] by {
        assert(x.chroma_nc@[c]@ =~= y.chroma_nc@[c]@);
        vstd::array::axiom_array_ext_equal(x.chroma_nc@[c], y.chroma_nc@[c]);
    }
    vstd::array::axiom_array_ext_equal(x.chroma_nc, y.chroma_nc);
    assert forall|c: int| 0 <= c < 2 implies x.chroma_ac@[c] == y.chroma_ac@[c] by {
        assert forall|j: int| 0 <= j < 4 implies x.chroma_ac@[c]@[j] == y.chroma_ac@[c]@[j] by {
            assert(x.chroma_ac@[c]@[j]@ =~= y.chroma_ac@[c]@[j]@);
            vstd::array::axiom_array_ext_equal(x.chroma_ac@[c]@[j], y.chroma_ac@[c]@[j]);
        }
        vstd::array::axiom_array_ext_equal(x.chroma_ac@[c], y.chroma_ac@[c]);
    }
    vstd::array::axiom_array_ext_equal(x.chroma_ac, y.chroma_ac);
    assert(x.coded_block_pattern == y.coded_block_pattern);
}

/// Section 9.1: a `te(v)` code with range `max` (at least 1) from bit
/// `pos`: one inverted bit where `max` is 1, else `ue(v)`.
pub open spec fn te_spec(data: Seq<u8>, pos: int, max: int) -> Option<(int, int)> {
    if max == 1 {
        if 0 <= pos < total_bits(data) {
            Some((1 - stream_bit(data, pos), pos + 1))
        } else {
            None
        }
    } else {
        ue_spec(data, pos)
    }
}

/// Reads a `te(v)` reference index with range `max` (see `te_spec`); an
/// error for an index past 255.
fn read_te(input: &mut BitReader<'_>, max: u32) -> (r: ParseResult<u8>)
    requires
        old(input).wf(),
        max >= 1,
    ensures
        final(input).wf(),
        final(input).data() == old(input).data(),
        match r {
            Ok(v) => te_spec(old(input).data(), old(input).pos(), max as int) == Some(
                (v as int, final(input).pos()),
            ),
            Err(_) => match te_spec(old(input).data(), old(input).pos(), max as int) {
                Some((v, p)) => v > 255,
                None => true,
            },
        },
{
    if max == 1 {
        let b = match input.read_bit() {
            Ok(b) => b,
            Err(e) => return Err(e),
        };
        Ok((1 - b) as u8)
    } else {
        let v = match input.ue() {
            Ok(v) => v,
            Err(e) => return Err(e),
        };
        if v > 255 {
            return Err("reference index out of range".to_owned());
        }
        Ok(v as u8)
    }
}

/// The reference indices of one list for the four partitions (or
/// sub-macroblocks) from bit `pos`: a `te(v)` with range `max` for each
/// `i` where `mask[i]` holds and `max > 0`, in order, 0 elsewhere. `None`
/// where a read fails or an index does not fit 8 bits.
pub open spec fn ref_idx_list_spec(data: Seq<u8>, pos: int, max: int, mask: Seq<bool>) -> Option<(Seq<int>, int)>
    decreases mask.len(),
{
    if mask.len() == 0 {
        Some((seq![], pos))
    } else {
        match ref_idx_list_spec(data, pos, max, mask.drop_last()) {
            None => None,
            Some((v, p)) => if mask.last() && max > 0 {
                match te_spec(data, p, max) {
                    None => None,
                    Some((x, q)) => if x <= 255 {
                        Some((v.push(x), q))
                    } else {
                        None
                    },
                }
            } else {
                Some((v.push(0), p))
            },
        }
    }
}

fn read_ref_idx_list(input: &mut BitReader<'_>, max: u32, mask: [bool; 4]) -> (r: ParseResult<[u8; 4]>)
    requires
        old(input).wf(),
    ensures
        final(input).wf(),
        final(input).data() == old(input).data(),
        match r {
            Ok(v) => ref_idx_list_spec(old(input).data(), old(input).pos(), max as int, mask@) == Some(
                (v@.map_values(|x: u8| x as int), final(input).pos()),
            ),
            Err(_) => ref_idx_list_spec(old(input).data(), old(input).pos(), max as int, mask@) is None,
        },
{
    let ghost data = input.data();
    let ghost p0 = input.pos();
    let mut v: [u8; 4] = [0u8; 4];
    let mut i: usize = 0;
    while i < 4
        invariant
            i <= 4,
            input.wf(),
            input.data() == data,
            data == old(input).data(),
            p0 == old(input).pos(),
            ref_idx_list_spec(data, p0, max as int, mask@.take(i as int)) == Some(
                (v@.take(i as int).map_values(|x: u8| x as int), input.pos()),
            ),
        decreases 4 - i,
    {
        proof {
            assert(mask@.take(i + 1).drop_last() =~= mask@.take(i as int));
            assert(mask@.take(i + 1).last() == mask@[i as int]);
        }
        let ghost prev = v@;
        if mask[i] && max > 0 {
            let x = match read_te(input, max) {
                Ok(x) => x,
                Err(e) => {
                    assert(ref_idx_list_spec(data, p0, max as int, mask@.take(i + 1)) is None);
                    proof {
                        lemma_ref_idx_list_prefix_fails(data, p0, max as int, mask@, i + 1);
                    }
                    assert(mask@.take(4) =~= mask@);
                    return Err(e);
                },
            };
            v[i] = x;
        } else {
            v[i] = 0;
        }
        assert(v@.take(i + 1).map_values(|x: u8| x as int) =~= prev.take(i as int).map_values(|x: u8| x as int).push(
            v@[i as int] as int,
        ));
        i = i + 1;
    }
    assert(mask@.take(4) =~= mask@);
    assert(v@.take(4) =~= v@);
    Ok(v)
}

/// A list whose first `k` reads fail fails as a whole.
proof fn lemma_ref_idx_list_prefix_fails(data: Seq<u8>, pos: int, max: int, mask: Seq<bool>, k: int)
    requires
        0 <= k <= mask.len(),
        ref_idx_list_spec(data, pos, max, mask.take(k)) is None,
    ensures
        ref_idx_list_spec(data, pos, max, mask) is None,
    decreases mask.len() - k,
{
    if k < mask.len() {
        assert(mask.take(k + 1).drop_last() =~= mask.take(k));
        lemma_ref_idx_list_prefix_fails(data, pos, max, mask, k + 1);
    } else {
        assert(mask.take(k) =~= mask);
    }
}

/// An `mvd` pair from bit `pos` (Section 7.3.5.1): two `se(v)`, x then y,
/// each kept to its low 16 bits.
pub open spec fn mvd_spec(data: Seq<u8>, pos: int) -> Option<(MotionVector, int)> {
    match ue_spec(data, pos) {
        None => None,
        Some((kx, p)) => match ue_spec(data, p) {
            None => None,
            Some((ky, q)) => Some((MotionVector { x: se_of(kx) as i16, y: se_of(ky) as i16 }, q)),
        },
    }
}

/// `n` consecutive `mvd` pairs from bit `pos`.
pub open spec fn mvds_spec(data: Seq<u8>, pos: int, n: nat) -> Option<(Seq<MotionVector>, int)>
    decreases n,
{
    if n == 0 {
        Some((seq![], pos))
    } else {
        match mvds_spec(data, pos, (n - 1) as nat) {
            None => None,
            Some((s, p)) => match mvd_spec(data, p) {
                None => None,
                Some((m, q)) => Some((s.push(m), q)),
            },
        }
    }
}

/// The zero vector.
pub open spec fn zero_mv() -> MotionVector {
    MotionVector { x: 0, y: 0 }
}

fn read_mvd(input: &mut BitReader<'_>) -> (r: ParseResult<MotionVector>)
    requires
        old(input).wf(),
    ensures
        final(input).wf(),
        final(input).data() == old(input).data(),
        match r {
            Ok(m) => mvd_spec(old(input).data(), old(input).pos()) == Some((m, final(input).pos())),
            Err(_) => mvd_spec(old(input).data(), old(input).pos()) is None,
        },
{
    let x = match input.se() {
        Ok(x) => x,
        Err(e) => return Err(e),
    };
    let y = match input.se() {
        Ok(y) => y,
        Err(e) => return Err(e),
    };
    Ok(MotionVector { x: x as i16, y: y as i16 })
}

/// A run of `n` (at most 4) `mvd` pairs into the first `n` entries of a
/// row, the rest zero.
fn read_mvd_row(input: &mut BitReader<'_>, n: u8) -> (r: ParseResult<[MotionVector; 4]>)
    requires
        old(input).wf(),
        n <= 4,
    ensures
        final(input).wf(),
        final(input).data() == old(input).data(),
        match r {
            Ok(row) => match mvds_spec(old(input).data(), old(input).pos(), n as nat) {
                Some((s, p)) => p == final(input).pos() && row@.take(n as int) == s && forall|j: int|
                    n <= j < 4 ==> #[trigger] row@[j] == zero_mv(),
                None => false,
            },
            Err(_) => mvds_spec(old(input).data(), old(input).pos(), n as nat) is None,
        },
{
    let ghost data = input.data();
    let ghost p0 = input.pos();
    let mut row = [MotionVector { x: 0, y: 0 }; 4];
    let mut j: u8 = 0;
    while j < n
        invariant
            j <= n <= 4,
            input.wf(),
            input.data() == data,
            data == old(input).data(),
            p0 == old(input).pos(),
            mvds_spec(data, p0, j as nat) == Some((row@.take(j as int), input.pos())),
            forall|k: int| j <= k < 4 ==> #[trigger] row@[k] == zero_mv(),
        decreases n - j,
    {
        let ghost prev = row@;
        let m = match read_mvd(input) {
            Ok(m) => m,
            Err(e) => {
                proof {
                    lemma_mvds_prefix_fails(data, p0, (j + 1) as nat, n as nat);
                }
                return Err(e);
            },
        };
        row[j as usize] = m;
        assert(row@.take(j + 1) =~= prev.take(j as int).push(m));
        j = j + 1;
    }
    Ok(row)
}

/// Runs that fail after `k` pairs fail when longer.
proof fn lemma_mvds_prefix_fails(data: Seq<u8>, pos: int, k: nat, n: nat)
    requires
        k <= n,
        mvds_spec(data, pos, k) is None,
    ensures
        mvds_spec(data, pos, n) is None,
    decreases n - k,
{
    if k < n {
        lemma_mvds_prefix_fails(data, pos, k + 1, n);
    }
}

/// The `mvd` pairs of one list for the four partitions (or
/// sub-macroblocks) from bit `pos`: `counts[i]` pairs for each `i`, in
/// order.
pub open spec fn mvd_groups_spec(data: Seq<u8>, pos: int, counts: Seq<int>) -> Option<(Seq<Seq<MotionVector>>, int)>
    decreases counts.len(),
{
    if counts.len() == 0 {
        Some((seq![], pos))
    } else {
        match mvd_groups_spec(data, pos, counts.drop_last()) {
            None => None,
            Some((g, p)) => match mvds_spec(data, p, counts.last() as nat) {
                None => None,
                Some((s, q)) => Some((g.push(s), q)),
            },
        }
    }
}

/// Entry `j` of group `i` of `g`, zero past the group's end.
pub open spec fn slot_mvd(g: Seq<Seq<MotionVector>>, i: int, j: int) -> MotionVector {
    if 0 <= j < g[i].len() {
        g[i][j]
    } else {
        zero_mv()
    }
}

fn read_mvd_groups(input: &mut BitReader<'_>, counts: [u8; 4]) -> (r: ParseResult<[[MotionVector; 4]; 4]>)
    requires
        old(input).wf(),
        forall|i: int| 0 <= i < 4 ==> #[trigger] counts@[i] <= 4,
    ensures
        final(input).wf(),
        final(input).data() == old(input).data(),
        match r {
            Ok(m) => match mvd_groups_spec(
                old(input).data(),
                old(input).pos(),
                counts@.map_values(|c: u8| c as int),
            ) {
                Some((g, p)) => p == final(input).pos() && g.len() == 4 && forall|i: int, j: int|
                    0 <= i < 4 && 0 <= j < 4 ==> #[trigger] m@[i]@[j] == slot_mvd(g, i, j),
                None => false,
            },
            Err(_) => mvd_groups_spec(old(input).data(), old(input).pos(), counts@.map_values(|c: u8| c as int))
                is None,
        },
{
    let ghost data = input.data();
    let ghost p0 = input.pos();
    let ghost cs = counts@.map_values(|c: u8| c as int);
    let mut m = [[MotionVector { x: 0, y: 0 }; 4]; 4];
    let mut i: usize = 0;
    while i < 4
        invariant
            i <= 4,
            input.wf(),
            input.data() == data,
            data == old(input).data(),
            p0 == old(input).pos(),
            cs == counts@.map_values(|c: u8| c as int),
            forall|k: int| 0 <= k < 4 ==> #[trigger] counts@[k] <= 4,
            match mvd_groups_spec(data, p0, cs.take(i as int)) {
                Some((g, p)) => p == input.pos() && g.len() == i && forall|a: int, b: int|
                    0 <= a < i && 0 <= b < 4 ==> #[trigger] m@[a]@[b] == slot_mvd(g, a, b),
                None => false,
            },
        decreases 4 - i,
    {
        proof {
            assert(cs.take(i + 1).drop_last() =~= cs.take(i as int));
            assert(cs.take(i + 1).last() == counts@[i as int] as int);
        }
        let ghost prev = m@;
        let row = match read_mvd_row(input, counts[i]) {
            Ok(row) => row,
            Err(e) => {
                proof {
                    lemma_mvd_groups_prefix_fails(data, p0, cs, i + 1);
                    assert(cs.take(4) =~= cs);
                }
                return Err(e);
            },
        };
        m[i] = row;
        proof {
            let (g, p) = mvd_groups_spec(data, p0, cs.take(i as int)).unwrap();
            let (g2, q) = mvd_groups_spec(data, p0, cs.take(i + 1)).unwrap();
            assert forall|a: int, b: int| 0 <= a < i + 1 && 0 <= b < 4 implies #[trigger] m@[a]@[b] == slot_mvd(
                g2,
                a,
                b,
            ) by {
                if a < i {
                    assert(m@[a] == prev[a]);
                    assert(g2[a] == g[a]);
                } else {
                    assert(m@[a] == row);
                    if b < counts@[i as int] {
                        assert(row@.take(counts@[i as int] as int)[b] == row@[b]);
                    }
                }
            }
        }
        i = i + 1;
    }
    assert(cs.take(4) =~= cs);
    Ok(m)
}

/// Groups that fail after `k` entries fail as a whole.
proof fn lemma_mvd_groups_prefix_fails(data: Seq<u8>, pos: int, counts: Seq<int>, k: int)
    requires
        0 <= k <= counts.len(),
        mvd_groups_spec(data, pos, counts.take(k)) is None,
    ensures
        mvd_groups_spec(data, pos, counts) is None,
    decreases counts.len() - k,
{
    if k < counts.len() {
        assert(counts.take(k + 1).drop_last() =~= counts.take(k));
        lemma_mvd_groups_prefix_fails(data, pos, counts, k + 1);
    } else {
        assert(counts.take(k) =~= counts);
    }
}

/// The reference indices and `mvd` pairs of an inter macroblock's
/// prediction syntax from bit `pos` (Sections 7.3.5.1 and 7.3.5.2): the
/// list 0 indices for `mask0`, the list 1 indices for `mask1`, then
/// `counts0[i]` list 0 pairs and `counts1[i]` list 1 pairs for each `i`.
pub open spec fn inter_pred_spec(
    data: Seq<u8>,
    pos: int,
    max0: int,
    max1: int,
    mask0: Seq<bool>,
    mask1: Seq<bool>,
    counts0: Seq<int>,
    counts1: Seq<int>,
) -> Option<(Seq<int>, Seq<int>, Seq<Seq<MotionVector>>, Seq<Seq<MotionVector>>, int)> {
    match ref_idx_list_spec(data, pos, max0, mask0) {
        None => None,
        Some((r0, p1)) => match ref_idx_list_spec(data, p1, max1, mask1) {
            None => None,
            Some((r1, p2)) => match mvd_groups_spec(data, p2, counts0) {
                None => None,
                Some((m0, p3)) => match mvd_groups_spec(data, p3, counts1) {
                    None => None,
                    Some((m1, p4)) => Some((r0, r1, m0, m1, p4)),
                },
            },
        },
    }
}

/// The record of partition `j` of group `i`: within the group's `slots[i]`
/// partitions its reference indices and `mvd` pairs, past them no motion.
pub open spec fn part_record(
    slots: Seq<int>,
    r0: Seq<int>,
    r1: Seq<int>,
    m0: Seq<Seq<MotionVector>>,
    m1: Seq<Seq<MotionVector>>,
    i: int,
    j: int,
) -> PartitionInfo {
    if j < slots[i] {
        PartitionInfo {
            pred_mode: MbPredictionMode::NoMode,
            ref_idx_l0: r0[i] as u8,
            ref_idx_l1: r1[i] as u8,
            mv_l0: zero_mv(),
            mv_l1: zero_mv(),
            mvd_l0: slot_mvd(m0, i, j),
            mvd_l1: slot_mvd(m1, i, j),
        }
    } else {
        no_motion_record()
    }
}

/// `s` holds `part_record` at each of its sixteen places.
pub open spec fn parts_hold(
    s: InterPredSyntax,
    slots: Seq<int>,
    r0: Seq<int>,
    r1: Seq<int>,
    m0: Seq<Seq<MotionVector>>,
    m1: Seq<Seq<MotionVector>>,
) -> bool {
    forall|i: int, j: int|
        0 <= i < 4 && 0 <= j < 4 ==> #[trigger] s.parts@[i]@[j] == part_record(slots, r0, r1, m0, m1, i, j)
}

/// Reads the reference indices and `mvd` pairs of `inter_pred_spec` and
/// lays them out by `slots` (see `parts_hold`).
fn parse_inter_pred(
    input: &mut BitReader<'_>,
    max0: u32,
    max1: u32,
    mask0: [bool; 4],
    mask1: [bool; 4],
    counts0: [u8; 4],
    counts1: [u8; 4],
    slots: [u8; 4],
) -> (r: ParseResult<InterPredSyntax>)
    requires
        old(input).wf(),
        forall|i: int| 0 <= i < 4 ==> #[trigger] counts0@[i] <= 4,
        forall|i: int| 0 <= i < 4 ==> #[trigger] counts1@[i] <= 4,
        forall|i: int| 0 <= i < 4 ==> #[trigger] slots@[i] <= 4,
    ensures
        final(input).wf(),
        final(input).data() == old(input).data(),
        match inter_pred_spec(
            old(input).data(),
            old(input).pos(),
            max0 as int,
            max1 as int,
            mask0@,
            mask1@,
            counts0@.map_values(|c: u8| c as int),
            counts1@.map_values(|c: u8| c as int),
        ) {
            Some((r0, r1, m0, m1, p)) => r matches Ok(s) && p == final(input).pos() && parts_hold(
                s,
                slots@.map_values(|c: u8| c as int),
                r0,
                r1,
                m0,
                m1,
            ),
            None => r is Err,
        },
{
    let r0 = match read_ref_idx_list(input, max0, mask0) {
        Ok(v) => v,
        Err(e) => return Err(e),
    };
    let r1 = match read_ref_idx_list(input, max1, mask1) {
        Ok(v) => v,
        Err(e) => return Err(e),
    };
    let m0 = match read_mvd_groups(input, counts0) {
        Ok(v) => v,
        Err(e) => return Err(e),
    };
    let m1 = match read_mvd_groups(input, counts1) {
        Ok(v) => v,
        Err(e) => return Err(e),
    };
    let ghost sl = slots@.map_values(|c: u8| c as int);
    let ghost rs0 = r0@.map_values(|x: u8| x as int);
    let ghost rs1 = r1@.map_values(|x: u8| x as int);
    let ghost spec = inter_pred_spec(
        old(input).data(),
        old(input).pos(),
        max0 as int,
        max1 as int,
        mask0@,
        mask1@,
        counts0@.map_values(|c: u8| c as int),
        counts1@.map_values(|c: u8| c as int),
    );
    let ghost g0 = spec.unwrap().2;
    let ghost g1 = spec.unwrap().3;
    let mut parts = [[PartitionInfo::no_motion(); 4]; 4];
    let mut i: usize = 0;
    while i < 4
        invariant
            i <= 4,
            sl == slots@.map_values(|c: u8| c as int),
            rs0 == r0@.map_values(|x: u8| x as int),
            rs1 == r1@.map_values(|x: u8| x as int),
            forall|a: int, b: int| 0 <= a < 4 && 0 <= b < 4 ==> #[trigger] m0@[a]@[b] == slot_mvd(g0, a, b),
            forall|a: int, b: int| 0 <= a < 4 && 0 <= b < 4 ==> #[trigger] m1@[a]@[b] == slot_mvd(g1, a, b),
            forall|a: int, b: int|
                0 <= a < i && 0 <= b < 4 ==> #[trigger] parts@[a]@[b] == part_record(sl, rs0, rs1, g0, g1, a, b),
            forall|a: int, b: int| i <= a < 4 && 0 <= b < 4 ==> #[trigger] parts@[a]@[b] == no_motion_record(),
        decreases 4 - i,
    {
        let mut row = parts[i];
        let mut j: usize = 0;
        while j < 4
            invariant
                i < 4,
                j <= 4,
                sl == slots@.map_values(|c: u8| c as int),
                rs0 == r0@.map_values(|x: u8| x as int),
                rs1 == r1@.map_values(|x: u8| x as int),
                forall|a: int, b: int| 0 <= a < 4 && 0 <= b < 4 ==> #[trigger] m0@[a]@[b] == slot_mvd(g0, a, b),
                forall|a: int, b: int| 0 <= a < 4 && 0 <= b < 4 ==> #[trigger] m1@[a]@[b] == slot_mvd(g1, a, b),
                forall|b: int| 0 <= b < j ==> #[trigger] row@[b] == part_record(sl, rs0, rs1, g0, g1, i as int, b),
                forall|b: int| j <= b < 4 ==> #[trigger] row@[b] == no_motion_record(),
            decreases 4 - j,
        {
            if (j as u8) < slots[i] {
                row[j] = PartitionInfo {
                    pred_mode: MbPredictionMode::NoMode,
                    ref_idx_l0: r0[i],
                    ref_idx_l1: r1[i],
                    mv_l0: MotionVector { x: 0, y: 0 },
                    mv_l1: MotionVector { x: 0, y: 0 },
                    mvd_l0: m0[i][j],
                    mvd_l1: m1[i][j],
                };
            }
            j = j + 1;
        }
        parts[i] = row;
        i = i + 1;
    }
    Ok(InterPredSyntax { parts })
}

/// Four P `sub_mb_type`s from bit `pos` (`ue(v)` each, Table 7-17); `None`
/// where a read fails or a value is past the table.
pub open spec fn sub_types_p_spec(data: Seq<u8>, pos: int, n: nat) -> Option<(Seq<SubMbType>, int)>
    decreases n,
{
    if n == 0 {
        Some((seq![], pos))
    } else {
        match sub_types_p_spec(data, pos, (n - 1) as nat) {
            None => None,
            Some((s, p)) => match ue_spec(data, p) {
                None => None,
                Some((v, q)) => match spec_sub_mb_type_p(v) {
                    None => None,
                    Some(t) => Some((s.push(t), q)),
                },
            },
        }
    }
}

/// B `sub_mb_type`s from bit `pos` (`ue(v)` each, Table 7-18); `None`
/// where a read fails or a value is past the table.
pub open spec fn sub_types_b_spec(data: Seq<u8>, pos: int, n: nat) -> Option<(Seq<BSubMbType>, int)>
    decreases n,
{
    if n == 0 {
        Some((seq![], pos))
    } else {
        match sub_types_b_spec(data, pos, (n - 1) as nat) {
            None => None,
            Some((s, p)) => match ue_spec(data, p) {
                None => None,
                Some((v, q)) => if v < 13 {
                    Some((s.push(b_sub_mb_types()[v]), q))
                } else {
                    None
                },
            },
        }
    }
}

proof fn lemma_sub_types_p_prefix_fails(data: Seq<u8>, pos: int, k: nat, n: nat)
    requires
        k <= n,
        sub_types_p_spec(data, pos, k) is None,
    ensures
        sub_types_p_spec(data, pos, n) is None,
    decreases n - k,
{
    if k < n {
        lemma_sub_types_p_prefix_fails(data, pos, k + 1, n);
    }
}

proof fn lemma_sub_types_b_prefix_fails(data: Seq<u8>, pos: int, k: nat, n: nat)
    requires
        k <= n,
        sub_types_b_spec(data, pos, k) is None,
    ensures
        sub_types_b_spec(data, pos, n) is None,
    decreases n - k,
{
    if k < n {
        lemma_sub_types_b_prefix_fails(data, pos, k + 1, n);
    }
}

fn read_sub_types_p(input: &mut BitReader<'_>) -> (r: ParseResult<[SubMbType; 4]>)
    requires
        old(input).wf(),
    ensures
        final(input).wf(),
        final(input).data() == old(input).data(),
        match r {
            Ok(t) => sub_types_p_spec(old(input).data(), old(input).pos(), 4) == Some((t@, final(input).pos())),
            Err(_) => sub_types_p_spec(old(input).data(), old(input).pos(), 4) is None,
        },
{
    let ghost data = input.data();
    let ghost p0 = input.pos();
    let mut t = [SubMbType::P_L0_8x8; 4];
    let mut i: usize = 0;
    while i < 4
        invariant
            i <= 4,
            input.wf(),
            input.data() == data,
            data == old(input).data(),
            p0 == old(input).pos(),
            sub_types_p_spec(data, p0, i as nat) == Some((t@.take(i as int), input.pos())),
        decreases 4 - i,
    {
        let ghost prev = t@;
        let v = match input.ue() {
            Ok(v) => v,
            Err(e) => {
                proof {
                    lemma_sub_types_p_prefix_fails(data, p0, (i + 1) as nat, 4);
                }
                return Err(e);
            },
        };
        let st = match SubMbType::from_value(v) {
            Some(st) => st,
            None => {
                proof {
                    lemma_sub_types_p_prefix_fails(data, p0, (i + 1) as nat, 4);
                }
                return Err("invalid sub_mb_type".to_owned());
            },
        };
        t[i] = st;
        assert(t@.take(i + 1) =~= prev.take(i as int).push(st));
        i = i + 1;
    }
    assert(t@.take(4) =~= t@);
    Ok(t)
}

fn read_sub_types_b(input: &mut BitReader<'_>) -> (r: ParseResult<[BSubMbType; 4]>)
    requires
        old(input).wf(),
    ensures
        final(input).wf(),
        final(input).data() == old(input).data(),
        match r {
            Ok(t) => sub_types_b_spec(old(input).data(), old(input).pos(), 4) == Some((t@, final(input).pos())),
            Err(_) => sub_types_b_spec(old(input).data(), old(input).pos(), 4) is None,
        },
{
    let ghost data = input.data();
    let ghost p0 = input.pos();
    let mut t = [BSubMbType::B_Direct_8x8; 4];
    let mut i: usize = 0;
    while i < 4
        invariant
            i <= 4,
            input.wf(),
            input.data() == data,
            data == old(input).data(),
            p0 == old(input).pos(),
            sub_types_b_spec(data, p0, i as nat) == Some((t@.take(i as int), input.pos())),
        decreases 4 - i,
    {
        let ghost prev = t@;
        let v = match input.ue() {
            Ok(v) => v,
            Err(e) => {
                proof {
                    lemma_sub_types_b_prefix_fails(data, p0, (i + 1) as nat, 4);
                }
                return Err(e);
            },
        };
        let st = match BSubMbType::from_value(v) {
            Some(st) => st,
            None => {
                proof {
                    lemma_sub_types_b_prefix_fails(data, p0, (i + 1) as nat, 4);
                }
                return Err("invalid sub_mb_type".to_owned());
            },
        };
        t[i] = st;
        assert(t@.take(i + 1) =~= prev.take(i as int).push(st));
        i = i + 1;
    }
    assert(t@.take(4) =~= t@);
    Ok(t)
}

/// The syntax of an inter macroblock after its prediction, from bit `pos`
/// (Section 7.3.5): the `me(v)` `coded_block_pattern` (inter column of
/// Table 9-4), then `mb_qp_delta` (`se(v)`) where the pattern is not zero.
/// The pattern, the QP delta (0 where not read) and the position after.
pub open spec fn inter_tail_spec(data: Seq<u8>, pos: int) -> Option<(int, int, int)> {
    match ue_spec(data, pos) {
        None => None,
        Some((v, p)) => if v >= 48 {
            None
        } else {
            let cbp = inter_cbp_table()[v] as int;
            if cbp != 0 {
                match ue_spec(data, p) {
                    None => None,
                    Some((k, q)) => Some((cbp, se_of(k), q)),
                }
            } else {
                Some((cbp, 0, p))
            }
        },
    }
}

/// `res` is what follows the coded block pattern `cbp` of a macroblock
/// predicted in mode `pm` from bit `pos` up to bit `end`: a residual
/// parsed afresh (see `parse_residual`) where `cbp` is not zero, else none
/// and nothing read.
pub open spec fn tail_residual(
    data: Seq<u8>,
    pos: int,
    a: Option<&Macroblock>,
    b: Option<&Macroblock>,
    chroma_subsampled: bool,
    pm: MbPredictionMode,
    cbp: int,
    res: Option<Box<Residual>>,
    end: int,
) -> bool {
    if cbp != 0 {
        res matches Some(rr) && exists|r0: Residual|
            #[trigger] fresh_residual(r0, pm, cbp) && residual_parsed(data, pos, a, b, chroma_subsampled, r0, *rr, end)
    } else {
        res is None && end == pos
    }
}

/// The residual that `tail_residual` asks for cannot be parsed.
pub open spec fn tail_residual_fails(
    data: Seq<u8>,
    pos: int,
    a: Option<&Macroblock>,
    b: Option<&Macroblock>,
    chroma_subsampled: bool,
    pm: MbPredictionMode,
    cbp: int,
) -> bool {
    cbp != 0 && forall|r0: Residual|
        #[trigger] fresh_residual(r0, pm, cbp) ==> !chroma_subsampled || cavlc_run(
            data,
            pos,
            a,
            b,
            r0,
            start_nc(r0),
            cavlc_jobs(r0.prediction_mode, r0.coded_block_pattern),
            0,
        ) is None
}

/// Reads what `inter_tail_spec` describes and the residual after it.
fn parse_inter_tail(
    input: &mut BitReader<'_>,
    chroma_subsampled: bool,
    mb_a: Option<&Macroblock>,
    mb_b: Option<&Macroblock>,
    pm: MbPredictionMode,
) -> (r: ParseResult<(CodedBlockPattern, i32, Option<Box<Residual>>)>)
    requires
        old(input).wf(),
        pm != MbPredictionMode::Intra_16x16,
    ensures
        final(input).wf(),
        final(input).data() == old(input).data(),
        match inter_tail_spec(old(input).data(), old(input).pos()) {
            None => r is Err,
            Some((cbp, dq, p)) => match r {
                Ok((c, d, res)) => c.0 == cbp && d == dq && tail_residual(
                    old(input).data(),
                    p,
                    mb_a,
                    mb_b,
                    chroma_subsampled,
                    pm,
                    cbp,
                    res,
                    final(input).pos(),
                ),
                Err(_) => tail_residual_fails(old(input).data(), p, mb_a, mb_b, chroma_subsampled, pm, cbp),
            },
        },
{
    let cbp = match parse_coded_block_pattern(input, false) {
        Ok(c) => c,
        Err(e) => return Err(e),
    };
    if cbp.0 == 0 {
        return Ok((cbp, 0, None));
    }
    let dq = match input.se() {
        Ok(v) => v,
        Err(e) => return Err(e),
    };
    let mut residual = Residual {
        prediction_mode: pm,
        coded_block_pattern: cbp,
        transform_size_8x8_flag: false,
        luma: LumaResidual::Empty,
        chroma_dc: [[0i32; 4]; 2],
        chroma_ac: [[[0i32; 15]; 4]; 2],
        chroma_nc: [[0u8; 4]; 2],
    };
    let ghost r0 = residual;
    proof {
        assert(fresh_residual(r0, pm, cbp.0 as int));
        assert forall|r1: Residual| #[trigger] fresh_residual(r1, pm, cbp.0 as int) implies r1 == r0 by {
            lemma_fresh_unique(r1, r0, pm, cbp.0 as int);
        }
    }
    match parse_residual(input, mb_a, mb_b, chroma_subsampled, &mut residual) {
        Ok(()) => {},
        Err(e) => return Err(e),
    }
    Ok((cbp, dq, Some(Box::new(residual))))
}

/// What the macroblock layer reads of its slice and picture parameters:
/// `num_ref_idx_l0_active_minus1` and `num_ref_idx_l1_active_minus1` of
/// the slice header, `transform_8x8_mode_flag` of the PPS, and whether
/// chroma is subsampled (4:2:0 or 4:2:2).
#[derive(Clone, Copy, Debug, Default, PartialEq, Eq, Structural)]
pub struct MbLayerInputs {
    pub num_ref_idx_l0_active_minus1: u32,
    pub num_ref_idx_l1_active_minus1: u32,
    pub transform_8x8_mode: bool,
    pub chroma_subsampled: bool,
}

/// A partition predicted in mode `m` reads list `list` (0 or 1): list 0
/// for Pred_L0 and BiPred, list 1 for Pred_L1 and BiPred.
pub open spec fn reads_list(m: MbPredictionMode, list: int) -> bool {
    m == MbPredictionMode::BiPred || (list == 0 && m == MbPredictionMode::Pred_L0) || (list == 1 && m
        == MbPredictionMode::Pred_L1)
}

fn reads_list_exec(m: MbPredictionMode, list: u8) -> (b: bool)
    ensures
        b == reads_list(m, list as int),
{
    m == MbPredictionMode::BiPred || (list == 0 && m == MbPredictionMode::Pred_L0) || (list == 1 && m
        == MbPredictionMode::Pred_L1)
}

/// No list is read.
pub open spec fn no_mask() -> Seq<bool> {
    Seq::new(4, |i: int| false)
}

/// No `mvd` pair is read.
pub open spec fn no_counts() -> Seq<int> {
    Seq::new(4, |i: int| 0int)
}

/// The motion of a macroblock before motion vector prediction: no motion
/// in any block, none decoded.
pub open spec fn motion_unset(m: MbMotion) -> bool {
    &&& m.decoded_mask == 0
    &&& forall|i: int, j: int| 0 <= i < 4 && 0 <= j < 4 ==> #[trigger] m.partitions@[i]@[j] == no_motion_record()
}

/// P_8x8 or P_8x8ref0.
pub open spec fn is_p8x8(t: PMbType) -> bool {
    t == PMbType::P_8x8 || t == PMbType::P_8x8ref0
}

/// The partitions (or sub-macroblocks) of a P macroblock of type `t` that
/// carry a list 0 reference index: all four sub-macroblocks of P_8x8, none
/// of P_8x8ref0 (all 0), each partition otherwise.
pub open spec fn p_mask0(t: PMbType) -> Seq<bool> {
    Seq::new(
        4,
        |i: int|
            if is_p8x8(t) {
                t == PMbType::P_8x8
            } else {
                i < spec_num_mb_part_p(t)
            },
    )
}

/// The `mvd` pairs per partition (or sub-macroblock) of a P macroblock of
/// type `t` with sub-macroblock types `subs`: one per partition, or
/// `NumSubMbPart` per sub-macroblock.
pub open spec fn p_counts(t: PMbType, subs: Seq<SubMbType>) -> Seq<int> {
    Seq::new(
        4,
        |i: int|
            if is_p8x8(t) {
                spec_num_sub_mb_part_p(subs[i]) as int
            } else if i < spec_num_mb_part_p(t) {
                1int
            } else {
                0int
            },
    )
}

/// The `sub_mb_type`s a P macroblock keeps when it has none.
pub open spec fn default_subs_p() -> Seq<SubMbType> {
    Seq::new(4, |i: int| SubMbType::P_L0_8x8)
}

/// Section 7.3.5.1 and 7.3.5.2 for a P macroblock of type `t` from bit
/// `pos`: the four `sub_mb_type`s of the 8x8 types, then the list 0
/// reference indices (range `max0`) and `mvd` pairs (see
/// `inter_pred_spec`). The sub-macroblock types, indices, pairs and the
/// position after them.
pub open spec fn p_pred_spec(data: Seq<u8>, pos: int, t: PMbType, max0: int) -> Option<
    (Seq<SubMbType>, Seq<int>, Seq<int>, Seq<Seq<MotionVector>>, Seq<Seq<MotionVector>>, int),
> {
    let st = if is_p8x8(t) {
        sub_types_p_spec(data, pos, 4)
    } else {
        Some((default_subs_p(), pos))
    };
    match st {
        None => None,
        Some((subs, p1)) => match inter_pred_spec(
            data,
            p1,
            max0,
            0,
            p_mask0(t),
            no_mask(),
            p_counts(t, subs),
            no_counts(),
        ) {
            None => None,
            Some((r0, r1, m0, m1, p2)) => Some((subs, r0, r1, m0, m1, p2)),
        },
    }
}

/// `MbPartPredMode(t, 0)` of a P type: Pred_L0, no mode for the 8x8 types.
pub open spec fn p_residual_mode(t: PMbType) -> MbPredictionMode {
    if is_p8x8(t) {
        MbPredictionMode::NoMode
    } else {
        MbPredictionMode::Pred_L0
    }
}

fn unset_motion() -> (m: MbMotion)
    ensures
        motion_unset(m),
{
    MbMotion { partitions: [[PartitionInfo::no_motion(); 4]; 4], decoded_mask: 0 }
}

/// What `parse_p_macroblock` gives for a macroblock of type `t` from bit `pos`,
/// ending at bit `end` (see there).
pub open spec fn p_mb_parsed(
    data: Seq<u8>,
    pos: int,
    ctx: MbLayerInputs,
    a: Option<&Macroblock>,
    b: Option<&Macroblock>,
    t: PMbType,
    r: ParseResult<Macroblock>,
    end: int,
) -> bool {
    match p_pred_spec(data, pos, t, ctx.num_ref_idx_l0_active_minus1 as int) {
        None => r is Err,
        Some((subs, r0, r1, m0, m1, p1)) => match inter_tail_spec(data, p1) {
            None => r is Err,
            Some((cbp, dq, p2)) => match r {
                Ok(mb) => (mb matches Macroblock::P(m) && {
                    &&& m.mb_type == t
                    &&& m.sub_mb_types@ == subs
                    &&& parts_hold(m.pred_syntax, p_counts(t, subs), r0, r1, m0, m1)
                    &&& motion_unset(m.motion)
                    &&& m.coded_block_pattern.0 == cbp
                    &&& m.mb_qp_delta == dq
                    &&& m.qp == 0
                    &&& !m.transform_size_8x8_flag
                    &&& tail_residual(
                        data,
                        p2,
                        a,
                        b,
                        ctx.chroma_subsampled,
                        p_residual_mode(t),
                        cbp,
                        m.residual,
                        end,
                    )
                }),
                Err(_) => tail_residual_fails(
                    data,
                    p2,
                    a,
                    b,
                    ctx.chroma_subsampled,
                    p_residual_mode(t),
                    cbp,
                ),
            },
        },
    }
}

/// Section 7.3.5: a P macroblock of type `mb_type` (from `mb_type` of its
/// slice; see `mb_type_from_value`) with `mb_a`, `mb_b` its neighbours A
/// and B where available: its prediction syntax (`p_pred_spec`), laid out
/// in `pred_syntax`, then its coded block pattern, QP delta and residual
/// (`inter_tail_spec`, `tail_residual`). Its motion is left unset and its
/// quantiser 0: motion vector prediction and the slice fill them in.
#[verifier::rlimit(100)]
#[verifier::spinoff_prover]
pub fn parse_p_macroblock(
    input: &mut BitReader<'_>,
    ctx: &MbLayerInputs,
    mb_a: Option<&Macroblock>,
    mb_b: Option<&Macroblock>,
    mb_type: PMbType,
) -> (r: ParseResult<Macroblock>)
    requires
        old(input).wf(),
        mb_type != PMbType::P_Skip,
    ensures
        final(input).wf(),
        final(input).data() == old(input).data(),
        p_mb_parsed(old(input).data(), old(input).pos(), *ctx, mb_a, mb_b, mb_type, r, final(input).pos()),
{
    let ghost data = input.data();
    let ghost p0 = input.pos();
    let is8x8 = mb_type == PMbType::P_8x8 || mb_type == PMbType::P_8x8ref0;
    let subs = if is8x8 {
        match read_sub_types_p(input) {
            Ok(t) => t,
            Err(e) => return Err(e),
        }
    } else {
        let t = [SubMbType::P_L0_8x8; 4];
        assert(t@ =~= default_subs_p());
        t
    };
    let n = mb_type.num_mb_part();
    let mut mask0 = [false; 4];
    let mut counts0 = [0u8; 4];
    let mut i: usize = 0;
    while i < 4
        invariant
            i <= 4,
            n == spec_num_mb_part_p(mb_type),
            is8x8 == is_p8x8(mb_type),
            forall|k: int| 0 <= k < i ==> #[trigger] mask0@[k] == p_mask0(mb_type)[k],
            forall|k: int| 0 <= k < i ==> #[trigger] counts0@[k] as int == p_counts(mb_type, subs@)[k],
            forall|k: int| 0 <= k < 4 ==> #[trigger] counts0@[k] <= 4,
        decreases 4 - i,
    {
        if is8x8 {
            mask0[i] = mb_type == PMbType::P_8x8;
            counts0[i] = subs[i].num_sub_mb_part();
        } else {
            mask0[i] = (i as u8) < n;
            counts0[i] = if (i as u8) < n {
                1
            } else {
                0
            };
        }
        i = i + 1;
    }
    assert(mask0@ =~= p_mask0(mb_type));
    assert(counts0@.map_values(|c: u8| c as int) =~= p_counts(mb_type, subs@));
    let mask1 = [false; 4];
    let counts1 = [0u8; 4];
    assert(mask1@ =~= no_mask());
    assert(counts1@.map_values(|c: u8| c as int) =~= no_counts());
    let pred = match parse_inter_pred(
        input,
        ctx.num_ref_idx_l0_active_minus1,
        0,
        mask0,
        mask1,
        counts0,
        counts1,
        counts0,
    ) {
        Ok(s) => s,
        Err(e) => return Err(e),
    };
    let pm = if is8x8 {
        MbPredictionMode::NoMode
    } else {
        MbPredictionMode::Pred_L0
    };
    let (cbp, dq, residual) = match parse_inter_tail(input, ctx.chroma_subsampled, mb_a, mb_b, pm) {
        Ok(t) => t,
        Err(e) => return Err(e),
    };
    Ok(
        Macroblock::P(
            PMb {
                mb_type,
                sub_mb_types: subs,
                pred_syntax: pred,
                motion: unset_motion(),
                coded_block_pattern: cbp,
                qp: 0,
                mb_qp_delta: dq,
                transform_size_8x8_flag: false,
                residual,
            },
        ),
    )
}

/// The partitions (or sub-macroblocks) of a B macroblock of type `t` with
/// sub-macroblock types `subs` that carry a reference index of list
/// `list`: those predicted from it (see `reads_list`); none of
/// B_Direct_16x16 and of direct sub-macroblocks.
pub open spec fn b_mask(t: BMbType, subs: Seq<BSubMbType>, list: int) -> Seq<bool> {
    Seq::new(
        4,
        |i: int|
            if t == BMbType::B_8x8 {
                reads_list(spec_sub_mb_pred_mode_b(subs[i]), list)
            } else {
                i < spec_num_mb_part_b(t) && reads_list(spec_mb_part_pred_mode_b(t, i), list)
            },
    )
}

/// The `mvd` pairs of list `list` per partition (or sub-macroblock) of a B
/// macroblock: one per partition predicted from the list, `NumSubMbPart`
/// per sub-macroblock predicted from it.
pub open spec fn b_counts(t: BMbType, subs: Seq<BSubMbType>, list: int) -> Seq<int> {
    Seq::new(
        4,
        |i: int|
            if !b_mask(t, subs, list)[i] {
                0int
            } else if t == BMbType::B_8x8 {
                spec_num_sub_mb_part_b(subs[i]) as int
            } else {
                1int
            },
    )
}

/// The partitions per group of a B macroblock that `pred_syntax` fills:
/// one per partition (none for B_Direct_16x16), `NumSubMbPart` per
/// sub-macroblock of B_8x8.
pub open spec fn b_slots(t: BMbType, subs: Seq<BSubMbType>) -> Seq<int> {
    Seq::new(
        4,
        |i: int|
            if t == BMbType::B_8x8 {
                spec_num_sub_mb_part_b(subs[i]) as int
            } else if t != BMbType::B_Direct_16x16 && i < spec_num_mb_part_b(t) {
                1int
            } else {
                0int
            },
    )
}

/// The `sub_mb_type`s a B macroblock keeps when it has none.
pub open spec fn default_subs_b() -> Seq<BSubMbType> {
    Seq::new(4, |i: int| BSubMbType::B_Direct_8x8)
}

/// Section 7.3.5.1 and 7.3.5.2 for a B macroblock of type `t` from bit
/// `pos`: the four `sub_mb_type`s of B_8x8, then the reference indices of
/// lists 0 and 1 (ranges `max0`, `max1`) and their `mvd` pairs (see
/// `inter_pred_spec`); nothing for B_Direct_16x16.
pub open spec fn b_pred_spec(data: Seq<u8>, pos: int, t: BMbType, max0: int, max1: int) -> Option<
    (Seq<BSubMbType>, Seq<int>, Seq<int>, Seq<Seq<MotionVector>>, Seq<Seq<MotionVector>>, int),
> {
    let st = if t == BMbType::B_8x8 {
        sub_types_b_spec(data, pos, 4)
    } else {
        Some((default_subs_b(), pos))
    };
    match st {
        None => None,
        Some((subs, p1)) => match inter_pred_spec(
            data,
            p1,
            max0,
            max1,
            b_mask(t, subs, 0),
            b_mask(t, subs, 1),
            b_counts(t, subs, 0),
            b_counts(t, subs, 1),
        ) {
            None => None,
            Some((r0, r1, m0, m1, p2)) => Some((subs, r0, r1, m0, m1, p2)),
        },
    }
}

/// What `parse_b_macroblock` gives for a macroblock of type `t` from bit `pos`,
/// ending at bit `end` (see there).
pub open spec fn b_mb_parsed(
    data: Seq<u8>,
    pos: int,
    ctx: MbLayerInputs,
    a: Option<&Macroblock>,
    b: Option<&Macroblock>,
    t: BMbType,
    r: ParseResult<Macroblock>,
    end: int,
) -> bool {
    match b_pred_spec(
        data,
        pos,
        t,
        ctx.num_ref_idx_l0_active_minus1 as int,
        ctx.num_ref_idx_l1_active_minus1 as int,
    ) {
        None => r is Err,
        Some((subs, r0, r1, m0, m1, p1)) => match inter_tail_spec(data, p1) {
            None => r is Err,
            Some((cbp, dq, p2)) => match r {
                Ok(mb) => (mb matches Macroblock::B(m) && {
                    &&& m.mb_type == t
                    &&& m.sub_mb_types@ == subs
                    &&& parts_hold(m.pred_syntax, b_slots(t, subs), r0, r1, m0, m1)
                    &&& motion_unset(m.motion)
                    &&& m.coded_block_pattern.0 == cbp
                    &&& m.mb_qp_delta == dq
                    &&& m.qp == 0
                    &&& !m.transform_size_8x8_flag
                    &&& tail_residual(
                        data,
                        p2,
                        a,
                        b,
                        ctx.chroma_subsampled,
                        spec_mb_part_pred_mode_b(t, 0),
                        cbp,
                        m.residual,
                        end,
                    )
                }),
                Err(_) => tail_residual_fails(
                    data,
                    p2,
                    a,
                    b,
                    ctx.chroma_subsampled,
                    spec_mb_part_pred_mode_b(t, 0),
                    cbp,
                ),
            },
        },
    }
}

/// Section 7.3.5: a B macroblock of type `mb_type` (not B_Skip) with
/// `mb_a`, `mb_b` its neighbours A and B where available: its prediction
/// syntax (`b_pred_spec`), laid out in `pred_syntax` by `b_slots`, then
/// its coded block pattern, QP delta and residual (`inter_tail_spec`,
/// `tail_residual`). Its motion is left unset and its quantiser 0.
#[verifier::rlimit(100)]
#[verifier::spinoff_prover]
pub fn parse_b_macroblock(
    input: &mut BitReader<'_>,
    ctx: &MbLayerInputs,
    mb_a: Option<&Macroblock>,
    mb_b: Option<&Macroblock>,
    mb_type: BMbType,
) -> (r: ParseResult<Macroblock>)
    requires
        old(input).wf(),
        mb_type != BMbType::B_Skip,
    ensures
        final(input).wf(),
        final(input).data() == old(input).data(),
        b_mb_parsed(old(input).data(), old(input).pos(), *ctx, mb_a, mb_b, mb_type, r, final(input).pos()),
{
    let is8x8 = mb_type == BMbType::B_8x8;
    let subs = if is8x8 {
        match read_sub_types_b(input) {
            Ok(t) => t,
            Err(e) => return Err(e),
        }
    } else {
        let t = [BSubMbType::B_Direct_8x8; 4];
        assert(t@ =~= default_subs_b());
        t
    };
    let n = mb_type.num_mb_part();
    let mut mask0 = [false; 4];
    let mut mask1 = [false; 4];
    let mut counts0 = [0u8; 4];
    let mut counts1 = [0u8; 4];
    let mut slots = [0u8; 4];
    let mut i: usize = 0;
    while i < 4
        invariant
            i <= 4,
            n == spec_num_mb_part_b(mb_type),
            is8x8 == (mb_type == BMbType::B_8x8),
            forall|k: int| 0 <= k < i ==> #[trigger] mask0@[k] == b_mask(mb_type, subs@, 0)[k],
            forall|k: int| 0 <= k < i ==> #[trigger] mask1@[k] == b_mask(mb_type, subs@, 1)[k],
            forall|k: int| 0 <= k < i ==> #[trigger] counts0@[k] as int == b_counts(mb_type, subs@, 0)[k],
            forall|k: int| 0 <= k < i ==> #[trigger] counts1@[k] as int == b_counts(mb_type, subs@, 1)[k],
            forall|k: int| 0 <= k < i ==> #[trigger] slots@[k] as int == b_slots(mb_type, subs@)[k],
            forall|k: int| 0 <= k < 4 ==> #[trigger] counts0@[k] <= 4,
            forall|k: int| 0 <= k < 4 ==> #[trigger] counts1@[k] <= 4,
            forall|k: int| 0 <= k < 4 ==> #[trigger] slots@[k] <= 4,
        decreases 4 - i,
    {
        let (m, parts) = if is8x8 {
            (subs[i].sub_mb_pred_mode(), subs[i].num_sub_mb_part())
        } else {
            (mb_type.mb_part_pred_mode(i as u8), 1u8)
        };
        let inside = is8x8 || (i as u8) < n;
        let u0 = inside && reads_list_exec(m, 0);
        let u1 = inside && reads_list_exec(m, 1);
        mask0[i] = u0;
        mask1[i] = u1;
        counts0[i] = if u0 {
            parts
        } else {
            0
        };
        counts1[i] = if u1 {
            parts
        } else {
            0
        };
        slots[i] = if is8x8 {
            parts
        } else if mb_type != BMbType::B_Direct_16x16 && (i as u8) < n {
            1
        } else {
            0
        };
        i = i + 1;
    }
    assert(mask0@ =~= b_mask(mb_type, subs@, 0));
    assert(mask1@ =~= b_mask(mb_type, subs@, 1));
    assert(counts0@.map_values(|c: u8| c as int) =~= b_counts(mb_type, subs@, 0));
    assert(counts1@.map_values(|c: u8| c as int) =~= b_counts(mb_type, subs@, 1));
    assert(slots@.map_values(|c: u8| c as int) =~= b_slots(mb_type, subs@));
    let pred = match parse_inter_pred(
        input,
        ctx.num_ref_idx_l0_active_minus1,
        ctx.num_ref_idx_l1_active_minus1,
        mask0,
        mask1,
        counts0,
        counts1,
        slots,
    ) {
        Ok(s) => s,
        Err(e) => return Err(e),
    };
    let pm = mb_type.mb_part_pred_mode(0);
    let (cbp, dq, residual) = match parse_inter_tail(input, ctx.chroma_subsampled, mb_a, mb_b, pm) {
        Ok(t) => t,
        Err(e) => return Err(e),
    };
    Ok(
        Macroblock::B(
            BMb {
                mb_type,
                sub_mb_types: subs,
                pred_syntax: pred,
                mb_qp_delta: dq,
                motion: unset_motion(),
                coded_block_pattern: cbp,
                qp: 0,
                transform_size_8x8_flag: false,
                residual,
            },
        ),
    )
}

/// No `mb_type` value of a B slice below 23 stands for B_Skip.
proof fn lemma_b_types_not_skip(v: int)
    requires
        0 <= v < 23,
    ensures
        b_mb_types()[v] != BMbType::B_Skip,
{
    assert(b_mb_types().len() == 24);
    assert(b_mb_types()[23] == BMbType::B_Skip);
    assert(forall|k: int| 0 <= k < 23 ==> #[trigger] b_mb_types()[k] != BMbType::B_Skip) by {
        assert forall|k: int| 0 <= k < 23 implies #[trigger] b_mb_types()[k] != BMbType::B_Skip by {
            let s = b_mb_types();
            if k == 0 { assert(s[0] == BMbType::B_Direct_16x16); }
            else if k == 1 { assert(s[1] == BMbType::B_L0_16x16); }
            else if k == 2 { assert(s[2] == BMbType::B_L1_16x16); }
            else if k == 3 { assert(s[3] == BMbType::B_Bi_16x16); }
            else if k == 4 { assert(s[4] == BMbType::B_L0_L0_16x8); }
            else if k == 5 { assert(s[5] == BMbType::B_L0_L0_8x16); }
            else if k == 6 { assert(s[6] == BMbType::B_L1_L1_16x8); }
            else if k == 7 { assert(s[7] == BMbType::B_L1_L1_8x16); }
            else if k == 8 { assert(s[8] == BMbType::B_L0_L1_16x8); }
            else if k == 9 { assert(s[9] == BMbType::B_L0_L1_8x16); }
            else if k == 10 { assert(s[10] == BMbType::B_L1_L0_16x8); }
            else if k == 11 { assert(s[11] == BMbType::B_L1_L0_8x16); }
            else if k == 12 { assert(s[12] == BMbType::B_L0_Bi_16x8); }
            else if k == 13 { assert(s[13] == BMbType::B_L0_Bi_8x16); }
            else if k == 14 { assert(s[14] == BMbType::B_L1_Bi_16x8); }
            else if k == 15 { assert(s[15] == BMbType::B_L1_Bi_8x16); }
            else if k == 16 { assert(s[16] == BMbType::B_Bi_L0_16x8); }
            else if k == 17 { assert(s[17] == BMbType::B_Bi_L0_8x16); }
            else if k == 18 { assert(s[18] == BMbType::B_Bi_L1_16x8); }
            else if k == 19 { assert(s[19] == BMbType::B_Bi_L1_8x16); }
            else if k == 20 { assert(s[20] == BMbType::B_Bi_Bi_16x8); }
            else if k == 21 { assert(s[21] == BMbType::B_Bi_Bi_8x16); }
            else { assert(s[22] == BMbType::B_8x8); }
        }
    }
}

/// What the macroblock layer gives from bit `pos` of a slice of type `st`
/// (Section 7.3.5): the `ue(v)` `mb_type`, mapped by `spec_mb_type_cavlc`,
/// then the macroblock of that type (`i_mb_parsed`, `p_mb_parsed`,
/// `b_mb_parsed`), ending at bit `end`.
pub open spec fn mb_parsed(
    data: Seq<u8>,
    pos: int,
    st: SliceType,
    ctx: MbLayerInputs,
    a: Option<&Macroblock>,
    b: Option<&Macroblock>,
    r: ParseResult<Macroblock>,
    end: int,
) -> bool {
    match ue_spec(data, pos) {
        None => r is Err,
        Some((v, p)) => match spec_mb_type_cavlc(st, v) {
            None => r is Err,
            Some(CabacMbType::I(t)) => i_mb_parsed(
                data,
                p,
                ctx.transform_8x8_mode,
                ctx.chroma_subsampled,
                a,
                b,
                t,
                r,
                end,
            ),
            Some(CabacMbType::P(t)) => p_mb_parsed(data, p, ctx, a, b, t, r, end),
            Some(CabacMbType::B(t)) => b_mb_parsed(data, p, ctx, a, b, t, r, end),
        },
    }
}

/// Section 7.3.5: a macroblock of a slice of type `slice_type` with CAVLC,
/// `mb_a` and `mb_b` its neighbours A and B where available (see
/// `mb_parsed`).
pub fn parse_macroblock(
    input: &mut BitReader<'_>,
    slice_type: SliceType,
    ctx: &MbLayerInputs,
    mb_a: Option<&Macroblock>,
    mb_b: Option<&Macroblock>,
) -> (r: ParseResult<Macroblock>)
    requires
        old(input).wf(),
    ensures
        final(input).wf(),
        final(input).data() == old(input).data(),
        mb_parsed(old(input).data(), old(input).pos(), slice_type, *ctx, mb_a, mb_b, r, final(input).pos()),
{
    let t = match parse_mb_type(input, slice_type) {
        Ok(t) => t,
        Err(e) => return Err(e),
    };
    match t {
        CabacMbType::I(m) => parse_i_macroblock(
            input,
            ctx.transform_8x8_mode,
            ctx.chroma_subsampled,
            mb_a,
            mb_b,
            m,
        ),
        CabacMbType::P(m) => {
            assert(m != PMbType::P_Skip);
            parse_p_macroblock(input, ctx, mb_a, mb_b, m)
        },
        CabacMbType::B(m) => {
            proof {
                let (v, p) = ue_spec(old(input).data(), old(input).pos()).unwrap();
                lemma_b_types_not_skip(v);
            }
            parse_b_macroblock(input, ctx, mb_a, mb_b, m)
        },
    }
}

/// Neighbour A of macroblock `k` of a slice whose first macroblock has
/// address `first`, in a picture `w` macroblocks wide: macroblock `k - 1`
/// where it lies in the same row and in the slice.
pub open spec fn slice_nb_a<'a>(mbs: &'a Seq<Macroblock>, first: int, w: int, k: int) -> Option<&'a Macroblock> {
    if (first + k) % w != 0 && k >= 1 {
        Some(&mbs[k - 1])
    } else {
        None
    }
}

/// Neighbour B of macroblock `k` (see `slice_nb_a`): the macroblock above,
/// `k - w`, where it lies in the slice.
pub open spec fn slice_nb_b<'a>(mbs: &'a Seq<Macroblock>, first: int, w: int, k: int) -> Option<&'a Macroblock> {
    if k >= w {
        Some(&mbs[k - w])
    } else {
        None
    }
}

/// The macroblock a skip run appends: P_Skip (`b_slice` false) or B_Skip,
/// with no prediction syntax, motion left unset, no residual and
/// everything else zero.
pub open spec fn skip_mb(mb: Macroblock, b_slice: bool) -> bool {
    if b_slice {
        mb matches Macroblock::B(m) && {
            &&& m.mb_type == BMbType::B_Skip
            &&& m.sub_mb_types@ == default_subs_b()
            &&& forall|i: int, j: int|
                0 <= i < 4 && 0 <= j < 4 ==> #[trigger] m.pred_syntax.parts@[i]@[j] == no_motion_record()
            &&& motion_unset(m.motion)
            &&& m.coded_block_pattern.0 == 0
            &&& m.mb_qp_delta == 0
            &&& m.qp == 0
            &&& !m.transform_size_8x8_flag
            &&& m.residual is None
        }
    } else {
        mb matches Macroblock::P(m) && {
            &&& m.mb_type == PMbType::P_Skip
            &&& m.sub_mb_types@ == default_subs_p()
            &&& forall|i: int, j: int|
                0 <= i < 4 && 0 <= j < 4 ==> #[trigger] m.pred_syntax.parts@[i]@[j] == no_motion_record()
            &&& motion_unset(m.motion)
            &&& m.coded_block_pattern.0 == 0
            &&& m.mb_qp_delta == 0
            &&& m.qp == 0
            &&& !m.transform_size_8x8_flag
            &&& m.residual is None
        }
    }
}

fn unset_pred_syntax() -> (s: InterPredSyntax)
    ensures
        forall|i: int, j: int| 0 <= i < 4 && 0 <= j < 4 ==> #[trigger] s.parts@[i]@[j] == no_motion_record(),
{
    InterPredSyntax { parts: [[PartitionInfo::no_motion(); 4]; 4] }
}

/// The macroblock of `skip_mb`.
pub fn skip_macroblock(b_slice: bool) -> (mb: Macroblock)
    ensures
        skip_mb(mb, b_slice),
{
    if b_slice {
        let subs = [BSubMbType::B_Direct_8x8; 4];
        assert(subs@ =~= default_subs_b());
        Macroblock::B(
            BMb {
                mb_type: BMbType::B_Skip,
                sub_mb_types: subs,
                pred_syntax: unset_pred_syntax(),
                mb_qp_delta: 0,
                motion: unset_motion(),
                coded_block_pattern: CodedBlockPattern(0),
                qp: 0,
                transform_size_8x8_flag: false,
                residual: None,
            },
        )
    } else {
        let subs = [SubMbType::P_L0_8x8; 4];
        assert(subs@ =~= default_subs_p());
        Macroblock::P(
            PMb {
                mb_type: PMbType::P_Skip,
                sub_mb_types: subs,
                pred_syntax: unset_pred_syntax(),
                motion: unset_motion(),
                coded_block_pattern: CodedBlockPattern(0),
                qp: 0,
                mb_qp_delta: 0,
                transform_size_8x8_flag: false,
                residual: None,
            },
        )
    }
}

/// A P, SP or B slice: it carries `mb_skip_run`s.
pub open spec fn has_skip_runs(st: SliceType) -> bool {
    st != SliceType::I && st != SliceType::SI
}

/// One turn of the slice data loop (Section 7.3.4), as
/// `(c0, p0, run, p1, parsed, p2)`: from `c0` macroblocks at bit `p0`, in
/// a P or B slice the `ue(v)` `mb_skip_run` `run` (at most the macroblocks
/// left), ending at bit `p1`, appends `run` skipped macroblocks (none and
/// `p1 == p0` in an I slice); then, unless the picture is full or a
/// non-empty run ends the data, one macroblock parsed from `p1` to `p2`
/// with its neighbours among `mbs` (`parsed`; else `p2 == p1`).
pub open spec fn slice_step_ok(
    data: Seq<u8>,
    st: SliceType,
    ctx: MbLayerInputs,
    first: int,
    w: int,
    size: int,
    mbs: Seq<Macroblock>,
    s: (int, int, int, int, bool, int),
) -> bool {
    let (c0, p0, run, p1, parsed, p2) = s;
    let inter = has_skip_runs(st);
    &&& 0 <= c0
    &&& 0 <= run
    &&& (if inter {
        ue_spec(data, p0) == Some((run, p1)) && run <= size - (first + c0)
    } else {
        run == 0 && p1 == p0
    })
    &&& c0 + run + (if parsed {
        1int
    } else {
        0int
    }) <= mbs.len()
    &&& forall|k: int| c0 <= k < c0 + run ==> skip_mb(#[trigger] mbs[k], st == SliceType::B)
    &&& parsed == !(inter && (first + c0 + run >= size || (run > 0 && !more_rbsp_spec(data, p1))))
    &&& if parsed {
        mb_parsed(
            data,
            p1,
            st,
            ctx,
            slice_nb_a(&mbs, first, w, c0 + run),
            slice_nb_b(&mbs, first, w, c0 + run),
            Ok(mbs[c0 + run]),
            p2,
        )
    } else {
        p2 == p1
    }
}

/// Where the turn after `s` starts: one macroblock past its skip run, at
/// the bit its macroblock ended.
pub open spec fn next_start(s: (int, int, int, int, bool, int)) -> (int, int) {
    (s.0 + s.2 + 1, s.5)
}

/// The loop goes on after turn `s`: it parsed a macroblock, the picture
/// is not full and data follows.
pub open spec fn continues(data: Seq<u8>, first: int, size: int, s: (int, int, int, int, bool, int)) -> bool {
    s.4 && first + s.0 + s.2 + 1 < size && more_rbsp_spec(data, s.5)
}

/// `tr` are turns of the slice data loop from `c_start` macroblocks at bit
/// `pos`, each valid, each starting where the one before ended, all but
/// possibly the last going on.
pub open spec fn turns_chain(
    data: Seq<u8>,
    pos: int,
    st: SliceType,
    ctx: MbLayerInputs,
    first: int,
    w: int,
    size: int,
    c_start: int,
    mbs: Seq<Macroblock>,
    tr: Seq<(int, int, int, int, bool, int)>,
) -> bool {
    &&& tr.len() > 0 ==> tr[0].0 == c_start && tr[0].1 == pos
    &&& forall|t: int| 0 <= t < tr.len() ==> slice_step_ok(data, st, ctx, first, w, size, mbs, #[trigger] tr[t])
    &&& forall|t: int|
        0 <= t < tr.len() - 1 ==> continues(data, first, size, #[trigger] tr[t]) && (tr[t + 1].0, tr[t + 1].1)
            == next_start(tr[t])
}

/// Where the turn after `tr` starts.
pub open spec fn after_turns(c_start: int, pos: int, tr: Seq<(int, int, int, int, bool, int)>) -> (int, int) {
    if tr.len() == 0 {
        (c_start, pos)
    } else {
        next_start(tr.last())
    }
}

/// The turn of the slice data loop from `c0` macroblocks at bit `p0` fails
/// (with its neighbours among `mbs`): the skip run cannot be read or runs
/// past the picture, or the macroblock to parse is refused.
pub open spec fn slice_step_fails(
    data: Seq<u8>,
    st: SliceType,
    ctx: MbLayerInputs,
    first: int,
    w: int,
    size: int,
    mbs: Seq<Macroblock>,
    c0: int,
    p0: int,
) -> bool {
    let mb_fails = |k: int, p: int|
        exists|e: String, q: int|
            #[trigger] mb_parsed(
                data,
                p,
                st,
                ctx,
                slice_nb_a(&mbs, first, w, k),
                slice_nb_b(&mbs, first, w, k),
                Err::<Macroblock, String>(e),
                q,
            );
    if has_skip_runs(st) {
        match ue_spec(data, p0) {
            None => true,
            Some((run, p1)) => run > size - (first + c0) || (first + c0 + run < size && (run == 0
                || more_rbsp_spec(data, p1)) && mb_fails(c0 + run, p1)),
        }
    } else {
        mb_fails(c0, p0)
    }
}

/// Turn `s` still holds once more macroblocks follow those of `mbs`.
proof fn lemma_step_stable(
    data: Seq<u8>,
    st: SliceType,
    ctx: MbLayerInputs,
    first: int,
    w: int,
    size: int,
    mbs: Seq<Macroblock>,
    mbs2: Seq<Macroblock>,
    s: (int, int, int, int, bool, int),
)
    requires
        slice_step_ok(data, st, ctx, first, w, size, mbs, s),
        mbs.len() <= mbs2.len(),
        w >= 1,
        forall|k: int| 0 <= k < mbs.len() ==> mbs2[k] == mbs[k],
    ensures
        slice_step_ok(data, st, ctx, first, w, size, mbs2, s),
{
    let (c0, p0, run, p1, parsed, p2) = s;
    assert(0 <= c0 && c0 + run <= mbs.len());
    assert forall|k: int| c0 <= k < c0 + run implies skip_mb(#[trigger] mbs2[k], st == SliceType::B) by {
        assert(mbs2[k] == mbs[k]);
        assert(skip_mb(mbs[k], st == SliceType::B));
    }
    if parsed {
        let k = c0 + run;
        assert(k + 1 <= mbs.len());
        assert(mbs2[k] == mbs[k]);
        assert(slice_nb_a(&mbs2, first, w, k) == slice_nb_a(&mbs, first, w, k)) by {
            if (first + k) % w != 0 && k >= 1 {
                assert(mbs2[k - 1] == mbs[k - 1]);
            }
        }
        assert(slice_nb_b(&mbs2, first, w, k) == slice_nb_b(&mbs, first, w, k)) by {
            if k >= w {
                assert(mbs2[k - w] == mbs[k - w]);
            }
        }
    }
}

/// Section 7.3.4 with CAVLC: the macroblocks of a slice of type
/// `slice_type` appended to `mbs`, which holds those parsed so far of the
/// slice that starts at macroblock `first_mb` of a picture
/// `pic_width_in_mbs` macroblocks wide and `pic_size_in_mbs` large. Each
/// turn reads, in P and B slices, an `mb_skip_run` and appends that many
/// skipped macroblocks (an error where the run passes the end of the
/// picture), then parses one macroblock with its neighbours in the slice,
/// until the picture is full or no data follows (see `slice_step_ok`).
/// Motion and quantisers are left for the caller to fill in.
#[verifier::rlimit(100)]
#[verifier::spinoff_prover]
pub fn parse_slice_data_cavlc(
    input: &mut BitReader<'_>,
    slice_type: SliceType,
    ctx: &MbLayerInputs,
    pic_width_in_mbs: usize,
    pic_size_in_mbs: usize,
    first_mb: usize,
    mbs: &mut Vec<Macroblock>,
) -> (r: ParseResult<()>)
    requires
        old(input).wf(),
        pic_width_in_mbs >= 1,
        first_mb + old(mbs)@.len() < pic_size_in_mbs,
    ensures
        final(input).wf(),
        final(input).data() == old(input).data(),
        old(mbs)@.len() <= final(mbs)@.len() <= pic_size_in_mbs - first_mb,
        forall|k: int| 0 <= k < old(mbs)@.len() ==> #[trigger] final(mbs)@[k] == old(mbs)@[k],
        match r {
            Ok(()) => exists|tr: Seq<(int, int, int, int, bool, int)>|
                {
                    &&& #[trigger] turns_chain(
                        old(input).data(),
                        old(input).pos(),
                        slice_type,
                        *ctx,
                        first_mb as int,
                        pic_width_in_mbs as int,
                        pic_size_in_mbs as int,
                        old(mbs)@.len() as int,
                        final(mbs)@,
                        tr,
                    )
                    &&& tr.len() > 0
                    &&& !continues(old(input).data(), first_mb as int, pic_size_in_mbs as int, tr.last())
                    &&& final(mbs)@.len() == tr.last().0 + tr.last().2 + (if tr.last().4 {
                        1int
                    } else {
                        0int
                    })
                    &&& final(input).pos() == tr.last().5
                },
            Err(_) => exists|tr: Seq<(int, int, int, int, bool, int)>|
                {
                    &&& #[trigger] turns_chain(
                        old(input).data(),
                        old(input).pos(),
                        slice_type,
                        *ctx,
                        first_mb as int,
                        pic_width_in_mbs as int,
                        pic_size_in_mbs as int,
                        old(mbs)@.len() as int,
                        final(mbs)@,
                        tr,
                    )
                    &&& (tr.len() > 0 ==> continues(
                        old(input).data(),
                        first_mb as int,
                        pic_size_in_mbs as int,
                        tr.last(),
                    ))
                    &&& slice_step_fails(
                        old(input).data(),
                        slice_type,
                        *ctx,
                        first_mb as int,
                        pic_width_in_mbs as int,
                        pic_size_in_mbs as int,
                        final(mbs)@,
                        after_turns(old(mbs)@.len() as int, old(input).pos(), tr).0,
                        after_turns(old(mbs)@.len() as int, old(input).pos(), tr).1,
                    )
                },
        },
{
    let ghost data = input.data();
    let ghost pos0 = input.pos();
    let ghost c_start = mbs@.len() as int;
    let ghost mbs0 = mbs@;
    let ghost first = first_mb as int;
    let ghost w = pic_width_in_mbs as int;
    let ghost size = pic_size_in_mbs as int;
    let ghost mut tr: Seq<(int, int, int, int, bool, int)> = seq![];
    let inter = slice_type != SliceType::I && slice_type != SliceType::SI;
    let b_slice = slice_type == SliceType::B;
    loop
        invariant
            input.wf(),
            input.data() == data,
            data == old(input).data(),
            pos0 == old(input).pos(),
            mbs0 == old(mbs)@,
            c_start == mbs0.len(),
            first == first_mb,
            w == pic_width_in_mbs,
            size == pic_size_in_mbs,
            w >= 1,
            inter == has_skip_runs(slice_type),
            b_slice == (slice_type == SliceType::B),
            first_mb + mbs@.len() < pic_size_in_mbs,
            c_start <= mbs@.len(),
            forall|k: int| 0 <= k < c_start ==> #[trigger] mbs@[k] == mbs0[k],
            turns_chain(data, pos0, slice_type, *ctx, first, w, size, c_start, mbs@, tr),
            tr.len() > 0 ==> continues(data, first, size, tr.last()),
            after_turns(c_start, pos0, tr) == (mbs@.len() as int, input.pos()),
        decreases pic_size_in_mbs - first_mb - mbs@.len(),
    {
        let ghost c0 = mbs@.len() as int;
        let ghost p0 = input.pos();
        let ghost m_start = mbs@;
        let mut run: usize = 0;
        let ghost mut p1 = p0;
        if inter {
            run = match parse_skip_run(input, pic_size_in_mbs, first_mb + mbs.len()) {
                Ok(r) => r,
                Err(e) => {
                    proof {
                        assert(slice_step_fails(data, slice_type, *ctx, first, w, size, mbs@, c0, p0));
                    }
                    return Err(e);
                },
            };
            proof {
                p1 = input.pos();
            }
            let mut j: usize = 0;
            while j < run
                invariant
                    0 <= c0,
                    j <= run,
                    run <= pic_size_in_mbs - first_mb - c0,
                    mbs@.len() == c0 + j,
                    forall|k: int| 0 <= k < c0 ==> #[trigger] mbs@[k] == m_start[k],
                    forall|k: int| c0 <= k < c0 + j ==> skip_mb(#[trigger] mbs@[k], b_slice),
                decreases run - j,
            {
                let ghost prev = mbs@;
                let smb = skip_macroblock(b_slice);
                mbs.push(smb);
                proof {
                    assert forall|kk: int| c0 <= kk < c0 + j + 1 implies skip_mb(#[trigger] mbs@[kk], b_slice) by {
                        if kk < c0 + j {
                            assert(mbs@[kk] == prev[kk]);
                        }
                    }
                    assert forall|kk: int| 0 <= kk < c0 implies #[trigger] mbs@[kk] == m_start[kk] by {
                        assert(mbs@[kk] == prev[kk]);
                    }
                }
                j = j + 1;
            }
            let full = first_mb + mbs.len() >= pic_size_in_mbs;
            let stop = full || (run > 0 && !input.more_rbsp_data());
            if stop {
                proof {
                    let s = (c0, p0, run as int, p1, false, p1);
                    assert(slice_step_ok(data, slice_type, *ctx, first, w, size, mbs@, s));
                    assert forall|t: int| 0 <= t < tr.len() implies slice_step_ok(
                        data,
                        slice_type,
                        *ctx,
                        first,
                        w,
                        size,
                        mbs@,
                        #[trigger] tr[t],
                    ) by {
                        lemma_step_stable(data, slice_type, *ctx, first, w, size, m_start, mbs@, tr[t]);
                    }
                    let tr2 = tr.push(s);
                    assert(tr2.last() == s);
                    assert forall|t: int| 0 <= t < tr2.len() implies slice_step_ok(
                        data,
                        slice_type,
                        *ctx,
                        first,
                        w,
                        size,
                        mbs@,
                        #[trigger] tr2[t],
                    ) by {
                        if t < tr.len() {
                            assert(tr2[t] == tr[t]);
                        }
                    }
                    assert forall|t: int| 0 <= t < tr2.len() - 1 implies continues(
                        data,
                        first,
                        size,
                        #[trigger] tr2[t],
                    ) && (tr2[t + 1].0, tr2[t + 1].1) == next_start(tr2[t]) by {
                        assert(tr2[t] == tr[t]);
                        if t + 1 < tr.len() {
                            assert(tr2[t + 1] == tr[t + 1]);
                        }
                    }
                    assert(turns_chain(data, pos0, slice_type, *ctx, first, w, size, c_start, mbs@, tr2));
                    assert forall|k: int| 0 <= k < c_start implies #[trigger] mbs@[k] == mbs0[k] by {
                        assert(mbs@[k] == m_start[k]);
                    }
                }
                return Ok(());
            }
        }
        let k = mbs.len();
        let mb = {
            let a = if (first_mb + k) % pic_width_in_mbs != 0 && k >= 1 {
                Some(&mbs[k - 1])
            } else {
                None
            };
            let b = if k >= pic_width_in_mbs {
                Some(&mbs[k - pic_width_in_mbs])
            } else {
                None
            };
            assert(a == slice_nb_a(&mbs@, first, w, k as int));
            assert(b == slice_nb_b(&mbs@, first, w, k as int));
            match parse_macroblock(input, slice_type, ctx, a, b) {
                Ok(mb) => mb,
                Err(e) => {
                    proof {
                        assert(mb_parsed(
                            data,
                            p1,
                            slice_type,
                            *ctx,
                            slice_nb_a(&mbs@, first, w, k as int),
                            slice_nb_b(&mbs@, first, w, k as int),
                            Err::<Macroblock, String>(e),
                            input.pos(),
                        ));
                        assert(slice_step_fails(data, slice_type, *ctx, first, w, size, mbs@, c0, p0));
                        assert forall|t: int| 0 <= t < tr.len() implies slice_step_ok(
                            data,
                            slice_type,
                            *ctx,
                            first,
                            w,
                            size,
                            mbs@,
                            #[trigger] tr[t],
                        ) by {
                            lemma_step_stable(data, slice_type, *ctx, first, w, size, m_start, mbs@, tr[t]);
                        }
                        assert forall|kk: int| 0 <= kk < c_start implies #[trigger] mbs@[kk] == mbs0[kk] by {
                            assert(mbs@[kk] == m_start[kk]);
                        }
                        assert(turns_chain(data, pos0, slice_type, *ctx, first, w, size, c_start, mbs@, tr));
                    }
                    return Err(e);
                },
            }
        };
        let ghost m_mid = mbs@;
        let ghost nba = slice_nb_a(&mbs@, first, w, k as int);
        let ghost nbb = slice_nb_b(&mbs@, first, w, k as int);
        mbs.push(mb);
        let ghost p2 = input.pos();
        proof {
            let s = (c0, p0, run as int, p1, true, p2);
            assert(mbs@[k as int] == mb);
            assert(slice_nb_a(&mbs@, first, w, k as int) == nba) by {
                if (first + k) % w != 0 && k >= 1 {
                    assert(mbs@[k - 1] == m_mid[k - 1]);
                }
            }
            assert(slice_nb_b(&mbs@, first, w, k as int) == nbb) by {
                if k >= w {
                    assert(mbs@[k - w] == m_mid[k - w]);
                }
            }
            assert forall|kk: int| c0 <= kk < c0 + run implies skip_mb(#[trigger] mbs@[kk], b_slice) by {
                assert(mbs@[kk] == m_mid[kk]);
            }
            assert(slice_step_ok(data, slice_type, *ctx, first, w, size, mbs@, s));
            assert forall|t: int| 0 <= t < tr.len() implies slice_step_ok(
                data,
                slice_type,
                *ctx,
                first,
                w,
                size,
                mbs@,
                #[trigger] tr[t],
            ) by {
                lemma_step_stable(data, slice_type, *ctx, first, w, size, m_start, mbs@, tr[t]);
            }
            let tr2 = tr.push(s);
            assert(tr2.last() == s);
            assert forall|t: int| 0 <= t < tr2.len() implies slice_step_ok(
                data,
                slice_type,
                *ctx,
                first,
                w,
                size,
                mbs@,
                #[trigger] tr2[t],
            ) by {
                if t < tr.len() {
                    assert(tr2[t] == tr[t]);
                }
            }
            assert forall|t: int| 0 <= t < tr2.len() - 1 implies continues(
                data,
                first,
                size,
                #[trigger] tr2[t],
            ) && (tr2[t + 1].0, tr2[t + 1].1) == next_start(tr2[t]) by {
                assert(tr2[t] == tr[t]);
                if t + 1 < tr.len() {
                    assert(tr2[t + 1] == tr[t + 1]);
                }
            }
            assert forall|kk: int| 0 <= kk < c_start implies #[trigger] mbs@[kk] == mbs0[kk] by {
                assert(mbs@[kk] == m_start[kk]);
            }
            tr = tr2;
        }
        if first_mb + mbs.len() >= pic_size_in_mbs || !input.more_rbsp_data() {
            proof {
                assert(turns_chain(data, pos0, slice_type, *ctx, first, w, size, c_start, mbs@, tr));
            }
            return Ok(());
        }
    }
}


/// Table 9-4 (`ChromaArrayType` 1 or 2), inter column: the coded block
/// pattern of each code number, shortest code first, and back: each of
/// the 48 patterns `v` has exactly one code number, `code_of[v]`.
pub proof fn lemma_inter_cbp_table_9_4()
    ensures
        inter_cbp_table() == seq![
            0u8, 16u8, 1u8, 2u8, 4u8, 8u8, 32u8, 3u8, 5u8, 10u8, 12u8, 15u8, 47u8, 7u8, 11u8, 13u8,
            14u8, 6u8, 9u8, 31u8, 35u8, 37u8, 42u8, 44u8, 33u8, 34u8, 36u8, 40u8, 39u8, 43u8, 45u8, 46u8,
            17u8, 18u8, 20u8, 24u8, 19u8, 21u8, 26u8, 28u8, 23u8, 27u8, 29u8, 30u8, 22u8, 25u8, 38u8, 41u8,
        ],
        ({
            let code_of = seq![
            0int, 2int, 3int, 7int, 4int, 8int, 17int, 13int, 5int, 18int, 9int, 14int, 10int, 15int, 16int, 11int,
            1int, 32int, 33int, 36int, 34int, 37int, 44int, 40int, 35int, 45int, 38int, 41int, 39int, 42int, 43int, 19int,
            6int, 24int, 25int, 20int, 26int, 21int, 46int, 28int, 27int, 47int, 22int, 29int, 23int, 30int, 31int, 12int,
        ];
            &&& forall|k: int| 0 <= k < 48 ==> #[trigger] code_of[inter_cbp_table()[k] as int] == k
            &&& forall|v: int| 0 <= v < 48 ==> #[trigger] inter_cbp_table()[code_of[v]] == v
        }),
        forall|k: int, l: int| 0 <= k < 48 && 0 <= l < 48 && inter_cbp_table()[k] == inter_cbp_table()[l] ==> k == l,
{
    let t = inter_cbp_table();
    let code_of = seq![
            0int, 2int, 3int, 7int, 4int, 8int, 17int, 13int, 5int, 18int, 9int, 14int, 10int, 15int, 16int, 11int,
            1int, 32int, 33int, 36int, 34int, 37int, 44int, 40int, 35int, 45int, 38int, 41int, 39int, 42int, 43int, 19int,
            6int, 24int, 25int, 20int, 26int, 21int, 46int, 28int, 27int, 47int, 22int, 29int, 23int, 30int, 31int, 12int,
        ];
    assert(t =~= seq![
            0u8, 16u8, 1u8, 2u8, 4u8, 8u8, 32u8, 3u8, 5u8, 10u8, 12u8, 15u8, 47u8, 7u8, 11u8, 13u8,
            14u8, 6u8, 9u8, 31u8, 35u8, 37u8, 42u8, 44u8, 33u8, 34u8, 36u8, 40u8, 39u8, 43u8, 45u8, 46u8,
            17u8, 18u8, 20u8, 24u8, 19u8, 21u8, 26u8, 28u8, 23u8, 27u8, 29u8, 30u8, 22u8, 25u8, 38u8, 41u8,
        ]);
    assert forall|k: int| 0 <= k < 48 implies #[trigger] code_of[t[k] as int] == k by {
            if k == 0 {
            } else if k == 1 {
            } else if k == 2 {
            } else if k == 3 {
            } else if k == 4 {
            } else if k == 5 {
            } else if k == 6 {
            } else if k == 7 {
            } else if k == 8 {
            } else if k == 9 {
            } else if k == 10 {
            } else if k == 11 {
            } else if k == 12 {
            } else if k == 13 {
            } else if k == 14 {
            } else if k == 15 {
            } else if k == 16 {
            } else if k == 17 {
            } else if k == 18 {
            } else if k == 19 {
            } else if k == 20 {
            } else if k == 21 {
            } else if k == 22 {
            } else if k == 23 {
            } else if k == 24 {
            } else if k == 25 {
            } else if k == 26 {
            } else if k == 27 {
            } else if k == 28 {
            } else if k == 29 {
            } else if k == 30 {
            } else if k == 31 {
            } else if k == 32 {
            } else if k == 33 {
            } else if k == 34 {
            } else if k == 35 {
            } else if k == 36 {
            } else if k == 37 {
            } else if k == 38 {
            } else if k == 39 {
            } else if k == 40 {
            } else if k == 41 {
            } else if k == 42 {
            } else if k == 43 {
            } else if k == 44 {
            } else if k == 45 {
            } else if k == 46 {
            } else if k == 47 {
            } else {
            }
    }
    assert forall|v: int| 0 <= v < 48 implies #[trigger] t[code_of[v]] == v by {
            if v == 0 {
            } else if v == 1 {
            } else if v == 2 {
            } else if v == 3 {
            } else if v == 4 {
            } else if v == 5 {
            } else if v == 6 {
            } else if v == 7 {
            } else if v == 8 {
            } else if v == 9 {
            } else if v == 10 {
            } else if v == 11 {
            } else if v == 12 {
            } else if v == 13 {
            } else if v == 14 {
            } else if v == 15 {
            } else if v == 16 {
            } else if v == 17 {
            } else if v == 18 {
            } else if v == 19 {
            } else if v == 20 {
            } else if v == 21 {
            } else if v == 22 {
            } else if v == 23 {
            } else if v == 24 {
            } else if v == 25 {
            } else if v == 26 {
            } else if v == 27 {
            } else if v == 28 {
            } else if v == 29 {
            } else if v == 30 {
            } else if v == 31 {
            } else if v == 32 {
            } else if v == 33 {
            } else if v == 34 {
            } else if v == 35 {
            } else if v == 36 {
            } else if v == 37 {
            } else if v == 38 {
            } else if v == 39 {
            } else if v == 40 {
            } else if v == 41 {
            } else if v == 42 {
            } else if v == 43 {
            } else if v == 44 {
            } else if v == 45 {
            } else if v == 46 {
            } else if v == 47 {
            } else {
            }
    }
    assert forall|k: int, l: int| 0 <= k < 48 && 0 <= l < 48 && t[k] == t[l] implies k == l by {
        assert(code_of[t[k] as int] == k);
        assert(code_of[t[l] as int] == l);
    }
}

/// Table 9-4 (`ChromaArrayType` 1 or 2), intra (Intra_4x4 and Intra_8x8) column: the coded block
/// pattern of each code number, shortest code first, and back: each of
/// the 48 patterns `v` has exactly one code number, `code_of[v]`.
pub proof fn lemma_intra_cbp_table_9_4()
    ensures
        intra_cbp_table() == seq![
            47u8, 31u8, 15u8, 0u8, 23u8, 27u8, 29u8, 30u8, 7u8, 11u8, 13u8, 14u8, 39u8, 43u8, 45u8, 46u8,
            16u8, 3u8, 5u8, 10u8, 12u8, 19u8, 21u8, 26u8, 28u8, 35u8, 37u8, 42u8, 44u8, 1u8, 2u8, 4u8,
            8u8, 17u8, 18u8, 20u8, 24u8, 6u8, 9u8, 22u8, 25u8, 32u8, 33u8, 34u8, 36u8, 40u8, 38u8, 41u8,
        ],
        ({
            let code_of = seq![
            3int, 29int, 30int, 17int, 31int, 18int, 37int, 8int, 32int, 38int, 19int, 9int, 20int, 10int, 11int, 2int,
            16int, 33int, 34int, 21int, 35int, 22int, 39int, 4int, 36int, 40int, 23int, 5int, 24int, 6int, 7int, 1int,
            41int, 42int, 43int, 25int, 44int, 26int, 46int, 12int, 45int, 47int, 27int, 13int, 28int, 14int, 15int, 0int,
        ];
            &&& forall|k: int| 0 <= k < 48 ==> #[trigger] code_of[intra_cbp_table()[k] as int] == k
            &&& forall|v: int| 0 <= v < 48 ==> #[trigger] intra_cbp_table()[code_of[v]] == v
        }),
        forall|k: int, l: int| 0 <= k < 48 && 0 <= l < 48 && intra_cbp_table()[k] == intra_cbp_table()[l] ==> k == l,
{
    let t = intra_cbp_table();
    let code_of = seq![
            3int, 29int, 30int, 17int, 31int, 18int, 37int, 8int, 32int, 38int, 19int, 9int, 20int, 10int, 11int, 2int,
            16int, 33int, 34int, 21int, 35int, 22int, 39int, 4int, 36int, 40int, 23int, 5int, 24int, 6int, 7int, 1int,
            41int, 42int, 43int, 25int, 44int, 26int, 46int, 12int, 45int, 47int, 27int, 13int, 28int, 14int, 15int, 0int,
        ];
    assert(t =~= seq![
            47u8, 31u8, 15u8, 0u8, 23u8, 27u8, 29u8, 30u8, 7u8, 11u8, 13u8, 14u8, 39u8, 43u8, 45u8, 46u8,
            16u8, 3u8, 5u8, 10u8, 12u8, 19u8, 21u8, 26u8, 28u8, 35u8, 37u8, 42u8, 44u8, 1u8, 2u8, 4u8,
            8u8, 17u8, 18u8, 20u8, 24u8, 6u8, 9u8, 22u8, 25u8, 32u8, 33u8, 34u8, 36u8, 40u8, 38u8, 41u8,
        ]);
    assert forall|k: int| 0 <= k < 48 implies #[trigger] code_of[t[k] as int] == k by {
            if k == 0 {
            } else if k == 1 {
            } else if k == 2 {
            } else if k == 3 {
            } else if k == 4 {
            } else if k == 5 {
            } else if k == 6 {
            } else if k == 7 {
            } else if k == 8 {
            } else if k == 9 {
            } else if k == 10 {
            } else if k == 11 {
            } else if k == 12 {
            } else if k == 13 {
            } else if k == 14 {
            } else if k == 15 {
            } else if k == 16 {
            } else if k == 17 {
            } else if k == 18 {
            } else if k == 19 {
            } else if k == 20 {
            } else if k == 21 {
            } else if k == 22 {
            } else if k == 23 {
            } else if k == 24 {
            } else if k == 25 {
            } else if k == 26 {
            } else if k == 27 {
            } else if k == 28 {
            } else if k == 29 {
            } else if k == 30 {
            } else if k == 31 {
            } else if k == 32 {
            } else if k == 33 {
            } else if k == 34 {
            } else if k == 35 {
            } else if k == 36 {
            } else if k == 37 {
            } else if k == 38 {
            } else if k == 39 {
            } else if k == 40 {
            } else if k == 41 {
            } else if k == 42 {
            } else if k == 43 {
            } else if k == 44 {
            } else if k == 45 {
            } else if k == 46 {
            } else if k == 47 {
            } else {
            }
    }
    assert forall|v: int| 0 <= v < 48 implies #[trigger] t[code_of[v]] == v by {
            if v == 0 {
            } else if v == 1 {
            } else if v == 2 {
            } else if v == 3 {
            } else if v == 4 {
            } else if v == 5 {
            } else if v == 6 {
            } else if v == 7 {
            } else if v == 8 {
            } else if v == 9 {
            } else if v == 10 {
            } else if v == 11 {
            } else if v == 12 {
            } else if v == 13 {
            } else if v == 14 {
            } else if v == 15 {
            } else if v == 16 {
            } else if v == 17 {
            } else if v == 18 {
            } else if v == 19 {
            } else if v == 20 {
            } else if v == 21 {
            } else if v == 22 {
            } else if v == 23 {
            } else if v == 24 {
            } else if v == 25 {
            } else if v == 26 {
            } else if v == 27 {
            } else if v == 28 {
            } else if v == 29 {
            } else if v == 30 {
            } else if v == 31 {
            } else if v == 32 {
            } else if v == 33 {
            } else if v == 34 {
            } else if v == 35 {
            } else if v == 36 {
            } else if v == 37 {
            } else if v == 38 {
            } else if v == 39 {
            } else if v == 40 {
            } else if v == 41 {
            } else if v == 42 {
            } else if v == 43 {
            } else if v == 44 {
            } else if v == 45 {
            } else if v == 46 {
            } else if v == 47 {
            } else {
            }
    }
    assert forall|k: int, l: int| 0 <= k < 48 && 0 <= l < 48 && t[k] == t[l] implies k == l by {
        assert(code_of[t[k] as int] == k);
        assert(code_of[t[l] as int] == l);
    }
}

/// Table 7-11: `mb_type` 0 is I_NxN, 25 I_PCM, and 1 to 24 the Intra_16x16
/// types, numbered in order of the luma pattern (0 or 15), then the chroma
/// pattern (0, 1, 2), then the prediction mode (0 to 3):
/// `mb_type = 1 + pred_mode + 4 * cbp_chroma + 12 * (cbp_luma / 15)`.
pub proof fn lemma_i_mb_type_table_7_11(v: int)
    ensures
        (spec_i_mb_type(v) == Some(IMbType::I_NxN)) <==> v == 0,
        (spec_i_mb_type(v) == Some(IMbType::I_PCM)) <==> v == 25,
        spec_i_mb_type(v) is None <==> (v < 0 || v > 25),
        1 <= v <= 24 ==> (spec_i_mb_type(v) matches Some(IMbType::I_16x16 { pred_mode, cbp_chroma, cbp_luma })
            && pred_mode <= 3 && cbp_chroma <= 2 && cbp_luma <= 1 && 1 + pred_mode + 4 * cbp_chroma + 12
            * cbp_luma == v),
{
}

/// Section 9.1.1: the `se(v)` values of code numbers alternate in sign,
/// positive first: code `2n - 1` is `n` and code `2n` is `-n`.
pub proof fn lemma_se_mapping(n: int)
    requires
        n >= 1,
    ensures
        se_of(2 * n - 1) == n,
        se_of(2 * n) == -n,
        se_of(0) == 0,
{
}

/// Section 9.2.2.1: `levelCode` numbers the non-zero levels alternately by
/// sign, positive first: code `2n - 2` is the level `n`, code `2n - 1` the
/// level `-n`.
pub proof fn lemma_level_code_mapping(n: int)
    requires
        n >= 1,
    ensures
        level_of_code(2 * n - 2) == n,
        level_of_code(2 * n - 1) == -n,
{
}

/// Section 9.2.2: after a level, `suffixLength` (counted from 1 once the
/// first level is read) grows by one, up to 6, when the level's magnitude
/// exceeds 3, 6, 12, 24 and 48 for `suffixLength` 1 to 5.
pub proof fn lemma_suffix_length_steps(s: int, code: int)
    requires
        0 <= s <= 6,
        code >= 0,
    ensures
        ({
            let s1 = if s == 0 {
                1int
            } else {
                s
            };
            let limit = if s1 == 1 {
                3int
            } else if s1 == 2 {
                6
            } else if s1 == 3 {
                12
            } else if s1 == 4 {
                24
            } else {
                48
            };
            next_suffix_len(s, code) == if s1 < 6 && level_magnitude(code) > limit {
                s1 + 1
            } else {
                s1
            }
        }),
{
    vstd::arithmetic::power2::lemma2_to64();
}


/// Section 8.3.1.1: a block whose `prev_intra4x4_pred_mode_flag` is 1
/// takes the predicted mode; otherwise the three bits after the flag give
/// the rank of its mode among the eight modes other than the predicted
/// one, in ascending order: a mode `m` other than the predicted one is
/// read from the value `m` when `m` is below the predicted mode and from
/// `m - 1` when it is above. Either way decoding goes on with the next
/// block after the bits read.
pub proof fn lemma_intra4x4_mode_rank(
    data: Seq<u8>,
    pos: int,
    a: Option<&Macroblock>,
    b: Option<&Macroblock>,
    modes: Seq<int>,
    k: int,
    m: int,
)
    requires
        0 <= k < 16,
        0 <= pos,
        pos + 4 <= total_bits(data),
    ensures
        stream_bit(data, pos) == 1 ==> intra4x4_modes_spec(data, pos, a, b, modes, k) == intra4x4_modes_spec(
            data,
            pos + 1,
            a,
            b,
            modes.update(k, pred_intra4x4_mode(a, b, modes, k)),
            k + 1,
        ),
        stream_bit(data, pos) == 0 && m != pred_intra4x4_mode(a, b, modes, k) && bits_value(data, pos + 1, 3)
            == m - (if m > pred_intra4x4_mode(a, b, modes, k) {
            1int
        } else {
            0int
        }) ==> intra4x4_modes_spec(data, pos, a, b, modes, k) == intra4x4_modes_spec(
            data,
            pos + 4,
            a,
            b,
            modes.update(k, m),
            k + 1,
        ),
{
}


/// Section 9.2.1: `coeff_token` is read from the column of Table 9-5 for
/// `0 <= nC < 2`, `2 <= nC < 4`, `4 <= nC < 8`, `8 <= nC`, `nC == -1`
/// (chroma DC of 4:2:0) and `nC == -2`; and `nC` itself is the rounded
/// mean `(nA + nB + 1) >> 1` when both neighbouring blocks are available,
/// the available one's count when only one is, and 0 when neither is.
pub proof fn lemma_nc_rules(
    nc: int,
    a: Option<&Macroblock>,
    b: Option<&Macroblock>,
    counts: Seq<u8>,
    blk: int,
    plane: ColorPlane,
    na: int,
    nb: int,
)
    ensures
        0 <= nc <= 1 ==> nc_column(nc) == 0,
        2 <= nc <= 3 ==> nc_column(nc) == 1,
        4 <= nc <= 7 ==> nc_column(nc) == 2,
        8 <= nc ==> nc_column(nc) == 3,
        nc == -1 ==> nc_column(nc) == 4,
        nc == -2 ==> nc_column(nc) == 5,
        nc < -2 ==> nc_column(nc) == -1,
        nb_nc(a, b, counts, blk, plane, MbNeighborName::A) == Some(na) && nb_nc(
            a,
            b,
            counts,
            blk,
            plane,
            MbNeighborName::B,
        ) == Some(nb) && na >= 0 && nb >= 0 ==> 2 * spec_calculate_nc(a, b, counts, blk, plane) - (na + nb)
            == (na + nb) % 2,
        nb_nc(a, b, counts, blk, plane, MbNeighborName::A) == Some(na) && nb_nc(
            a,
            b,
            counts,
            blk,
            plane,
            MbNeighborName::B,
        ) is None ==> spec_calculate_nc(a, b, counts, blk, plane) == na,
        nb_nc(a, b, counts, blk, plane, MbNeighborName::A) is None && nb_nc(
            a,
            b,
            counts,
            blk,
            plane,
            MbNeighborName::B,
        ) == Some(nb) ==> spec_calculate_nc(a, b, counts, blk, plane) == nb,
        nb_nc(a, b, counts, blk, plane, MbNeighborName::A) is None && nb_nc(
            a,
            b,
            counts,
            blk,
            plane,
            MbNeighborName::B,
        ) is None ==> spec_calculate_nc(a, b, counts, blk, plane) == 0,
{
}


/// Tables 7-13 and 7-17 with Section 7.4.5: in P and SP slices `mb_type`
/// 0 to 4 are P_L0_16x16, P_L0_L0_16x8, P_L0_L0_8x16, P_8x8 and P_8x8ref0,
/// with 1, 2, 2, 4 and 4 partitions, and 5 to 30 are the I types of
/// `mb_type - 5`; in B slices 23 to 48 are the I types of `mb_type - 23`.
/// `sub_mb_type` 0 to 3 are P_L0_8x8, P_L0_8x4, P_L0_4x8 and P_L0_4x4,
/// with 1, 2, 2 and 4 partitions.
pub proof fn lemma_p_mb_types_table_7_13(v: int, t: SliceType)
    ensures
        spec_p_mb_type(0) == Some(PMbType::P_L0_16x16) && spec_num_mb_part_p(PMbType::P_L0_16x16) == 1,
        spec_p_mb_type(1) == Some(PMbType::P_L0_L0_16x8) && spec_num_mb_part_p(PMbType::P_L0_L0_16x8) == 2,
        spec_p_mb_type(2) == Some(PMbType::P_L0_L0_8x16) && spec_num_mb_part_p(PMbType::P_L0_L0_8x16) == 2,
        spec_p_mb_type(3) == Some(PMbType::P_8x8) && spec_num_mb_part_p(PMbType::P_8x8) == 4,
        spec_p_mb_type(4) == Some(PMbType::P_8x8ref0) && spec_num_mb_part_p(PMbType::P_8x8ref0) == 4,
        spec_p_mb_type(v) is None <==> (v < 0 || v > 4),
        (t == SliceType::P || t == SliceType::SP) && 0 <= v <= 4 ==> spec_mb_type_cavlc(t, v) == Some(
            CabacMbType::P(spec_p_mb_type(v)->0),
        ),
        (t == SliceType::P || t == SliceType::SP) && v >= 5 ==> spec_mb_type_cavlc(t, v) == match spec_i_mb_type(v - 5) {
            Some(m) => Some(CabacMbType::I(m)),
            None => None::<CabacMbType>,
        },
        t == SliceType::B && v >= 23 ==> spec_mb_type_cavlc(t, v) == match spec_i_mb_type(v - 23) {
            Some(m) => Some(CabacMbType::I(m)),
            None => None::<CabacMbType>,
        },
        spec_sub_mb_type_p(0) == Some(SubMbType::P_L0_8x8) && spec_num_sub_mb_part_p(SubMbType::P_L0_8x8) == 1,
        spec_sub_mb_type_p(1) == Some(SubMbType::P_L0_8x4) && spec_num_sub_mb_part_p(SubMbType::P_L0_8x4) == 2,
        spec_sub_mb_type_p(2) == Some(SubMbType::P_L0_4x8) && spec_num_sub_mb_part_p(SubMbType::P_L0_4x8) == 2,
        spec_sub_mb_type_p(3) == Some(SubMbType::P_L0_4x4) && spec_num_sub_mb_part_p(SubMbType::P_L0_4x4) == 4,
        spec_sub_mb_type_p(v) is None <==> (v < 0 || v > 3),
{
}

} // verus!
