//! The parts of a decoded macroblock that prediction and deblocking read:
//! motion vectors, prediction modes, partitions and macroblock types.
use crate::intra_pred::Intra_4x4_SamplePredMode;
use vstd::prelude::*;

verus! {

/// A motion vector in quarter luma sample units.
#[derive(Clone, Copy, Debug, Default, PartialEq, Eq, Structural)]
pub struct MotionVector {
    pub x: i16,
    pub y: i16,
}

/// Prediction mode of a macroblock partition (Tables 7-11, 7-13, 7-14).
#[allow(non_camel_case_types)]
#[derive(Clone, Copy, Debug, Default, PartialEq, Eq, Structural)]
pub enum MbPredictionMode {
    #[default]
    NoMode,
    Intra_4x4,
    Intra_8x8,
    Intra_16x16,
    Direct,
    Pred_L0,
    Pred_L1,
    BiPred,
}

/// Motion of one 4x4 block of a macroblock: the lists it predicts from,
/// reference indices, motion vectors and motion vector differences.
#[derive(Clone, Copy, Debug, Default, PartialEq, Eq, Structural)]
pub struct PartitionInfo {
    pub pred_mode: MbPredictionMode,
    pub ref_idx_l0: u8,
    pub ref_idx_l1: u8,
    pub mv_l0: MotionVector,
    pub mv_l1: MotionVector,
    pub mvd_l0: MotionVector,
    pub mvd_l1: MotionVector,
}

/// The record of a block without motion: no mode, reference indices 0 and
/// zero vectors.
pub open spec fn no_motion_record() -> PartitionInfo {
    PartitionInfo {
        pred_mode: MbPredictionMode::NoMode,
        ref_idx_l0: 0,
        ref_idx_l1: 0,
        mv_l0: MotionVector { x: 0, y: 0 },
        mv_l1: MotionVector { x: 0, y: 0 },
        mvd_l0: MotionVector { x: 0, y: 0 },
        mvd_l1: MotionVector { x: 0, y: 0 },
    }
}

impl PartitionInfo {
    /// The record of a block without motion (`no_motion_record`).
    pub fn no_motion() -> (p: PartitionInfo)
        ensures
            p == no_motion_record(),
    {
        PartitionInfo {
            pred_mode: MbPredictionMode::NoMode,
            ref_idx_l0: 0,
            ref_idx_l1: 0,
            mv_l0: MotionVector { x: 0, y: 0 },
            mv_l1: MotionVector { x: 0, y: 0 },
            mvd_l0: MotionVector { x: 0, y: 0 },
            mvd_l1: MotionVector { x: 0, y: 0 },
        }
    }
}

/// Motion of a macroblock: a 4x4 grid of partition records, `[row][col]`.
#[derive(Clone, Copy, Debug, Default, PartialEq, Eq)]
pub struct MbMotion {
    pub partitions: [[PartitionInfo; 4]; 4],
    pub decoded_mask: u16,
}

/// The prediction syntax of an inter macroblock (Sections 7.3.5.1 and
/// 7.3.5.2), before motion vector prediction: `[i][0]` holds partition `i`
/// of a 16x16, 16x8 or 8x16 type, `[i][j]` partition `j` of sub-macroblock
/// `i` of an 8x8 type. Each record holds the partition's reference indices
/// and motion vector differences; its mode and vectors stay unset.
#[derive(Clone, Copy, Debug, Default, PartialEq, Eq)]
pub struct InterPredSyntax {
    pub parts: [[PartitionInfo; 4]; 4],
}

/// `mb_type` of a P macroblock (Table 7-13), and P_Skip.
#[allow(non_camel_case_types)]
#[derive(Clone, Copy, Debug, Default, PartialEq, Eq, Structural)]
pub enum PMbType {
    #[default]
    P_L0_16x16,
    P_L0_L0_16x8,
    P_L0_L0_8x16,
    P_8x8,
    P_8x8ref0,
    P_Skip,
}

/// `NumMbPart` of Table 7-13 (4 for the 8x8 types, 1 for P_Skip).
pub open spec fn spec_num_mb_part_p(t: PMbType) -> u8 {
    match t {
        PMbType::P_L0_16x16 | PMbType::P_Skip => 1u8,
        PMbType::P_L0_L0_16x8 | PMbType::P_L0_L0_8x16 => 2u8,
        _ => 4u8,
    }
}

impl PMbType {
    /// `NumMbPart` of Table 7-13 (4 for the 8x8 types, 1 for P_Skip).
    pub fn num_mb_part(&self) -> (n: u8)
        ensures
            n == spec_num_mb_part_p(*self),
    {
        match *self {
            PMbType::P_L0_16x16 | PMbType::P_Skip => 1,
            PMbType::P_L0_L0_16x8 | PMbType::P_L0_L0_8x16 => 2,
            _ => 4,
        }
    }
}

/// `coded_block_pattern` (Section 7.4.5): the luma pattern in the low four
/// bits, one per 8x8 block, and the chroma pattern (0..=2) above them.
#[derive(Clone, Copy, Debug, Default, PartialEq, Eq, Structural)]
pub struct CodedBlockPattern(pub u8);

impl CodedBlockPattern {
    /// The pattern with chroma part `chroma` and luma part `luma`.
    pub fn new(chroma: u8, luma: u8) -> (c: Self)
        requires
            chroma < 16,
            luma < 16,
        ensures
            c.0 == chroma * 16 + luma,
    {
        CodedBlockPattern(chroma * 16 + luma)
    }

    /// `CodedBlockPatternLuma`.
    pub fn luma(&self) -> (l: u8)
        ensures
            l == self.0 % 16,
    {
        self.0 % 16
    }

    /// `CodedBlockPatternChroma`.
    pub fn chroma(&self) -> (c: u8)
        ensures
            c == self.0 / 16,
    {
        self.0 / 16
    }
}

/// The 64 levels of one 8x8 luma transform block.
#[derive(Clone, Copy, Debug, PartialEq, Eq)]
pub struct LumaLevel8x8 {
    pub levels: [i32; 64],
}

impl Default for LumaLevel8x8 {
    fn default() -> (l: Self)
        ensures
            forall|i: int| 0 <= i < 64 ==> #[trigger] l.levels@[i] == 0,
    {
        LumaLevel8x8 { levels: [0i32; 64] }
    }
}

/// The luma levels of a macroblock in the layout its transform uses, with
/// the number of non-zero coefficients of each 4x4 block in Z-scan order.
#[derive(Clone, Copy, Debug, Default, PartialEq, Eq)]
pub enum LumaResidual {
    /// Intra_16x16: the 16 DC levels and the 15 AC levels of each block.
    Intra16x16 { dc: [i32; 16], ac: [[i32; 15]; 16], ac_nc: [u8; 16] },
    /// 8x8 transform: four blocks of 64 levels.
    Block8x8 { levels: [LumaLevel8x8; 4], nc: [u8; 16] },
    /// 4x4 transform: sixteen blocks of 16 levels.
    Block4x4 { levels: [[i32; 16]; 16], nc: [u8; 16] },
    /// No luma levels were coded.
    #[default]
    Empty,
}

/// The coded residual of a macroblock: the prediction mode and coded block
/// pattern it was parsed for, its luma levels, and the levels of its two
/// chroma components (index 0 Cb, 1 Cr) with the number of non-zero
/// coefficients of each 4x4 chroma AC block.
#[derive(Clone, Copy, Debug, Default, PartialEq, Eq)]
pub struct Residual {
    pub prediction_mode: MbPredictionMode,
    pub coded_block_pattern: CodedBlockPattern,
    pub transform_size_8x8_flag: bool,
    pub luma: LumaResidual,
    pub chroma_dc: [[i32; 4]; 2],
    pub chroma_ac: [[[i32; 15]; 4]; 2],
    pub chroma_nc: [[u8; 4]; 2],
}

/// Section 6.4.3: the index in Z-scan order of the 4x4 luma block at
/// (`row`, `col`) of a macroblock.
pub open spec fn spec_scan_4x4(row: int, col: int) -> int {
    8 * (row / 2) + 4 * (col / 2) + 2 * (row % 2) + col % 2
}

/// Section 6.4.3: the index in Z-scan order of the 4x4 luma block at
/// (`row`, `col`) of a macroblock.
pub fn scan_4x4(row: usize, col: usize) -> (i: usize)
    requires
        row < 4,
        col < 4,
    ensures
        i == spec_scan_4x4(row as int, col as int),
        i < 16,
{
    8 * (row / 2) + 4 * (col / 2) + 2 * (row % 2) + col % 2
}

/// A P macroblock: its type, motion, quantiser and residual.
#[derive(Clone, Debug, Default, PartialEq, Eq)]
pub struct PMb {
    pub mb_type: PMbType,
    /// `sub_mb_type` of the four sub-macroblocks of P_8x8 and P_8x8ref0.
    pub sub_mb_types: [SubMbType; 4],
    /// The reference indices and motion vector differences that `mb_pred`
    /// or `sub_mb_pred` carries (see `InterPredSyntax`).
    pub pred_syntax: InterPredSyntax,
    pub motion: MbMotion,
    pub coded_block_pattern: CodedBlockPattern,
    pub mb_qp_delta: i32,
    pub qp: u8,
    pub transform_size_8x8_flag: bool,
    pub residual: Option<Box<Residual>>,
}

/// A B macroblock: its type, the types of its sub-macroblocks (for
/// B_8x8), motion, quantiser and residual.
#[derive(Clone, Debug, Default, PartialEq, Eq)]
pub struct BMb {
    pub mb_type: BMbType,
    pub sub_mb_types: [BSubMbType; 4],
    /// The reference indices and motion vector differences that `mb_pred`
    /// or `sub_mb_pred` carries (see `InterPredSyntax`).
    pub pred_syntax: InterPredSyntax,
    pub mb_qp_delta: i32,
    pub motion: MbMotion,
    pub coded_block_pattern: CodedBlockPattern,
    pub qp: u8,
    pub transform_size_8x8_flag: bool,
    pub residual: Option<Box<Residual>>,
}

/// An I macroblock other than I_PCM: its type, the `Intra4x4PredMode` of
/// each 4x4 block (for I_NxN), quantiser and residual.
#[derive(Clone, Debug, Default, PartialEq, Eq)]
pub struct IMb {
    pub mb_type: IMbType,
    pub rem_intra4x4_pred_mode: [Intra_4x4_SamplePredMode; 16],
    pub intra_chroma_pred_mode: Intra_Chroma_Pred_Mode,
    pub transform_size_8x8_flag: bool,
    pub coded_block_pattern: CodedBlockPattern,
    pub mb_qp_delta: i32,
    pub qp: u8,
    pub residual: Option<Box<Residual>>,
}

/// An I_PCM macroblock, which carries its samples uncoded: 256 luma, 64 Cb
/// and 64 Cr samples in raster order.
#[derive(Clone, Debug, Default, PartialEq, Eq)]
pub struct PcmMb {
    pub qp: u8,
    pub pcm_sample_luma: Vec<u8>,
    pub pcm_sample_chroma_cb: Vec<u8>,
    pub pcm_sample_chroma_cr: Vec<u8>,
}

/// A decoded macroblock.
#[derive(Clone, Debug, PartialEq, Eq)]
pub enum Macroblock {
    I(IMb),
    P(PMb),
    B(BMb),
    PCM(PcmMb),
}

/// The coded block pattern of `mb`; I_PCM carries every coefficient, which
/// counts as luma pattern 15 and chroma pattern 2.
pub open spec fn spec_cbp(mb: Macroblock) -> CodedBlockPattern {
    match mb {
        Macroblock::I(m) => m.coded_block_pattern,
        Macroblock::P(m) => m.coded_block_pattern,
        Macroblock::B(m) => m.coded_block_pattern,
        Macroblock::PCM(_) => CodedBlockPattern(47),
    }
}

/// The residual of `mb`, if one was coded; I_PCM has none.
pub open spec fn spec_residual(mb: Macroblock) -> Option<Residual> {
    match mb {
        Macroblock::I(m) => match m.residual {
            Some(r) => Some(*r),
            None => None,
        },
        Macroblock::P(m) => match m.residual {
            Some(r) => Some(*r),
            None => None,
        },
        Macroblock::B(m) => match m.residual {
            Some(r) => Some(*r),
            None => None,
        },
        Macroblock::PCM(_) => None,
    }
}

/// P_Skip or B_Skip.
pub open spec fn spec_is_skipped(mb: Macroblock) -> bool {
    match mb {
        Macroblock::P(m) => m.mb_type == PMbType::P_Skip,
        Macroblock::B(m) => m.mb_type == BMbType::B_Skip,
        _ => false,
    }
}

/// `transform_size_8x8_flag` of `mb`; false for I_PCM.
pub open spec fn spec_t8(mb: Macroblock) -> bool {
    match mb {
        Macroblock::I(m) => m.transform_size_8x8_flag,
        Macroblock::P(m) => m.transform_size_8x8_flag,
        Macroblock::B(m) => m.transform_size_8x8_flag,
        Macroblock::PCM(_) => false,
    }
}

/// `mb` with its quantiser set to `qp`, everything else as it was.
pub open spec fn spec_with_qp(mb: Macroblock, qp: u8) -> Macroblock {
    match mb {
        Macroblock::I(m) => Macroblock::I(IMb { qp, ..m }),
        Macroblock::P(m) => Macroblock::P(PMb { qp, ..m }),
        Macroblock::B(m) => Macroblock::B(BMb { qp, ..m }),
        Macroblock::PCM(m) => Macroblock::PCM(PcmMb { qp, ..m }),
    }
}

/// The `mb_qp_delta` a macroblock carries; none (0) for I_PCM.
pub open spec fn spec_qp_delta(mb: Macroblock) -> i32 {
    match mb {
        Macroblock::I(m) => m.mb_qp_delta,
        Macroblock::P(m) => m.mb_qp_delta,
        Macroblock::B(m) => m.mb_qp_delta,
        Macroblock::PCM(_) => 0,
    }
}

impl Macroblock {
    /// The macroblock with its quantiser set to `qp`.
    pub fn with_qp(self, qp: u8) -> (r: Macroblock)
        ensures
            r == spec_with_qp(self, qp),
    {
        match self {
            Macroblock::I(m) => Macroblock::I(IMb { qp, ..m }),
            Macroblock::P(m) => Macroblock::P(PMb { qp, ..m }),
            Macroblock::B(m) => Macroblock::B(BMb { qp, ..m }),
            Macroblock::PCM(m) => Macroblock::PCM(PcmMb { qp, ..m }),
        }
    }

    /// The `mb_qp_delta` the macroblock carries (see `spec_qp_delta`).
    pub fn qp_delta(&self) -> (d: i32)
        ensures
            d == spec_qp_delta(*self),
    {
        match self {
            Macroblock::I(m) => m.mb_qp_delta,
            Macroblock::P(m) => m.mb_qp_delta,
            Macroblock::B(m) => m.mb_qp_delta,
            Macroblock::PCM(_) => 0,
        }
    }

    /// P_Skip or B_Skip.
    pub fn is_skipped(&self) -> (b: bool)
        ensures
            b == spec_is_skipped(*self),
    {
        match self {
            Macroblock::P(m) => m.mb_type == PMbType::P_Skip,
            Macroblock::B(m) => m.mb_type == BMbType::B_Skip,
            _ => false,
        }
    }

    /// `transform_size_8x8_flag`; false for I_PCM.
    pub fn transform_size_8x8_flag(&self) -> (b: bool)
        ensures
            b == spec_t8(*self),
    {
        match self {
            Macroblock::I(m) => m.transform_size_8x8_flag,
            Macroblock::P(m) => m.transform_size_8x8_flag,
            Macroblock::B(m) => m.transform_size_8x8_flag,
            Macroblock::PCM(_) => false,
        }
    }

    /// Coded in an Intra prediction mode (I, including I_PCM).
    pub fn is_intra(&self) -> (b: bool)
        ensures
            b == (*self is I || *self is PCM),
    {
        match self {
            Macroblock::I(_) | Macroblock::PCM(_) => true,
            _ => false,
        }
    }

    /// The macroblock's coded block pattern.
    pub fn get_coded_block_pattern(&self) -> (c: CodedBlockPattern)
        ensures
            c == spec_cbp(*self),
    {
        match self {
            Macroblock::I(m) => m.coded_block_pattern,
            Macroblock::P(m) => m.coded_block_pattern,
            Macroblock::B(m) => m.coded_block_pattern,
            Macroblock::PCM(_) => CodedBlockPattern(47),
        }
    }

    /// The macroblock's residual, if one was coded.
    pub fn get_residual(&self) -> (r: Option<&Residual>)
        ensures
            match r {
                Some(x) => spec_residual(*self) == Some(*x),
                None => spec_residual(*self) is None,
            },
    {
        match self {
            Macroblock::I(m) => match &m.residual {
                Some(r) => Some(&**r),
                None => None,
            },
            Macroblock::P(m) => match &m.residual {
                Some(r) => Some(&**r),
                None => None,
            },
            Macroblock::B(m) => match &m.residual {
                Some(r) => Some(&**r),
                None => None,
            },
            Macroblock::PCM(_) => None,
        }
    }
}

/// `mb_type` of an I macroblock (Table 7-11). The 24 Intra_16x16 types
/// are told apart by their prediction mode (0..=3), chroma coded block
/// pattern (0..=2) and luma coded block pattern (0 or 1, meaning 0 or 15):
/// `mb_type = 1 + pred_mode + 4 * cbp_chroma + 12 * cbp_luma`.
#[allow(non_camel_case_types)]
#[derive(Clone, Copy, Debug, Default, PartialEq, Eq, Structural)]
pub enum IMbType {
    #[default]
    I_NxN,
    I_16x16 { pred_mode: u8, cbp_chroma: u8, cbp_luma: u8 },
    I_PCM,
}

/// `mb_type` of a B macroblock (Table 7-14), and B_Skip.
#[allow(non_camel_case_types)]
#[derive(Clone, Copy, Debug, Default, PartialEq, Eq, Structural)]
pub enum BMbType {
    #[default]
    B_Direct_16x16,
    B_L0_16x16,
    B_L1_16x16,
    B_Bi_16x16,
    B_L0_L0_16x8,
    B_L0_L0_8x16,
    B_L1_L1_16x8,
    B_L1_L1_8x16,
    B_L0_L1_16x8,
    B_L0_L1_8x16,
    B_L1_L0_16x8,
    B_L1_L0_8x16,
    B_L0_Bi_16x8,
    B_L0_Bi_8x16,
    B_L1_Bi_16x8,
    B_L1_Bi_8x16,
    B_Bi_L0_16x8,
    B_Bi_L0_8x16,
    B_Bi_L1_16x8,
    B_Bi_L1_8x16,
    B_Bi_Bi_16x8,
    B_Bi_Bi_8x16,
    B_8x8,
    B_Skip,
}

impl IMbType {
    /// The I macroblock type with `mb_type` value `v` (Table 7-11).
    pub fn from_value(v: u32) -> (t: Option<IMbType>)
        ensures
            t == (if v == 0 {
                Some(IMbType::I_NxN)
            } else if v <= 24 {
                Some(
                    IMbType::I_16x16 {
                        pred_mode: ((v - 1) % 4) as u8,
                        cbp_chroma: (((v - 1) / 4) % 3) as u8,
                        cbp_luma: if v >= 13 {
                            1u8
                        } else {
                            0u8
                        },
                    },
                )
            } else if v == 25 {
                Some(IMbType::I_PCM)
            } else {
                None
            }),
    {
        if v == 0 {
            Some(IMbType::I_NxN)
        } else if v <= 24 {
            let k = v - 1;
            Some(
                IMbType::I_16x16 {
                    pred_mode: (k % 4) as u8,
                    cbp_chroma: ((k / 4) % 3) as u8,
                    cbp_luma: if v >= 13 {
                        1
                    } else {
                        0
                    },
                },
            )
        } else if v == 25 {
            Some(IMbType::I_PCM)
        } else {
            None
        }
    }
}

/// The B macroblock types in the order of their `mb_type` values (Table
/// 7-14), followed by B_Skip, which is not coded as an `mb_type`.
pub open spec fn b_mb_types() -> Seq<BMbType> {
    seq![
        BMbType::B_Direct_16x16,
        BMbType::B_L0_16x16,
        BMbType::B_L1_16x16,
        BMbType::B_Bi_16x16,
        BMbType::B_L0_L0_16x8,
        BMbType::B_L0_L0_8x16,
        BMbType::B_L1_L1_16x8,
        BMbType::B_L1_L1_8x16,
        BMbType::B_L0_L1_16x8,
        BMbType::B_L0_L1_8x16,
        BMbType::B_L1_L0_16x8,
        BMbType::B_L1_L0_8x16,
        BMbType::B_L0_Bi_16x8,
        BMbType::B_L0_Bi_8x16,
        BMbType::B_L1_Bi_16x8,
        BMbType::B_L1_Bi_8x16,
        BMbType::B_Bi_L0_16x8,
        BMbType::B_Bi_L0_8x16,
        BMbType::B_Bi_L1_16x8,
        BMbType::B_Bi_L1_8x16,
        BMbType::B_Bi_Bi_16x8,
        BMbType::B_Bi_Bi_8x16,
        BMbType::B_8x8,
        BMbType::B_Skip,
    ]
}

/// `NumMbPart` of Table 7-14; B_Direct_16x16 and B_Skip count 4.
pub open spec fn spec_num_mb_part_b(t: BMbType) -> u8 {
    match t {
        BMbType::B_L0_16x16 | BMbType::B_L1_16x16 | BMbType::B_Bi_16x16 => 1u8,
        BMbType::B_8x8 | BMbType::B_Direct_16x16 | BMbType::B_Skip => 4u8,
        _ => 2u8,
    }
}

impl BMbType {
    /// The B macroblock type with `mb_type` value `v` (Table 7-14); 23
    /// stands for B_Skip.
    pub fn from_value(v: u32) -> (t: Option<BMbType>)
        ensures
            t == (if v < 24 {
                Some(b_mb_types()[v as int])
            } else {
                None
            }),
    {
        let types: [BMbType; 24] = [
            BMbType::B_Direct_16x16,
            BMbType::B_L0_16x16,
            BMbType::B_L1_16x16,
            BMbType::B_Bi_16x16,
            BMbType::B_L0_L0_16x8,
            BMbType::B_L0_L0_8x16,
            BMbType::B_L1_L1_16x8,
            BMbType::B_L1_L1_8x16,
            BMbType::B_L0_L1_16x8,
            BMbType::B_L0_L1_8x16,
            BMbType::B_L1_L0_16x8,
            BMbType::B_L1_L0_8x16,
            BMbType::B_L0_Bi_16x8,
            BMbType::B_L0_Bi_8x16,
            BMbType::B_L1_Bi_16x8,
            BMbType::B_L1_Bi_8x16,
            BMbType::B_Bi_L0_16x8,
            BMbType::B_Bi_L0_8x16,
            BMbType::B_Bi_L1_16x8,
            BMbType::B_Bi_L1_8x16,
            BMbType::B_Bi_Bi_16x8,
            BMbType::B_Bi_Bi_8x16,
            BMbType::B_8x8,
            BMbType::B_Skip,
        ];
        assert(types@ =~= b_mb_types());
        if v < 24 {
            Some(types[v as usize])
        } else {
            None
        }
    }

    /// `NumMbPart` of Table 7-14: 1 for the 16x16 types, 2 for the 16x8 and
    /// 8x16 types, 4 for B_8x8; B_Direct_16x16 and B_Skip, whose motion is
    /// derived per 8x8 sub-macroblock, count 4 as well.
    pub fn num_mb_part(&self) -> (n: u8)
        ensures
            n == spec_num_mb_part_b(*self),
    {
        match *self {
            BMbType::B_L0_16x16 | BMbType::B_L1_16x16 | BMbType::B_Bi_16x16 => 1,
            BMbType::B_8x8 | BMbType::B_Direct_16x16 | BMbType::B_Skip => 4,
            _ => 2,
        }
    }
}

/// `MbPartHeight` of Table 7-14: 8 for the 16x8 types, B_8x8,
/// B_Direct_16x16 and B_Skip; 16 for the others.
pub open spec fn spec_mb_part_height_b(t: BMbType) -> u8 {
    match t {
        BMbType::B_L0_L0_16x8 | BMbType::B_L1_L1_16x8 | BMbType::B_L0_L1_16x8 | BMbType::B_L1_L0_16x8
        | BMbType::B_L0_Bi_16x8 | BMbType::B_L1_Bi_16x8 | BMbType::B_Bi_L0_16x8 | BMbType::B_Bi_L1_16x8
        | BMbType::B_Bi_Bi_16x8 | BMbType::B_8x8 | BMbType::B_Direct_16x16 | BMbType::B_Skip => 8u8,
        _ => 16u8,
    }
}

impl BMbType {
    /// `MbPartHeight` of Table 7-14 (see `spec_mb_part_height_b`).
    pub fn mb_part_height(&self) -> (h: u8)
        ensures
            h == spec_mb_part_height_b(*self),
    {
        match *self {
            BMbType::B_L0_L0_16x8 | BMbType::B_L1_L1_16x8 | BMbType::B_L0_L1_16x8 | BMbType::B_L1_L0_16x8
            | BMbType::B_L0_Bi_16x8 | BMbType::B_L1_Bi_16x8 | BMbType::B_Bi_L0_16x8 | BMbType::B_Bi_L1_16x8
            | BMbType::B_Bi_Bi_16x8 | BMbType::B_8x8 | BMbType::B_Direct_16x16 | BMbType::B_Skip => 8,
            _ => 16,
        }
    }
}

/// `MbPartWidth` of Table 7-14, 8 for B_8x8 and the direct types.
pub open spec fn spec_mb_part_width_b(t: BMbType) -> u8 {
    match t {
        BMbType::B_L0_16x16 | BMbType::B_L1_16x16 | BMbType::B_Bi_16x16 | BMbType::B_L0_L0_16x8
        | BMbType::B_L1_L1_16x8 | BMbType::B_L0_L1_16x8 | BMbType::B_L1_L0_16x8 | BMbType::B_L0_Bi_16x8
        | BMbType::B_L1_Bi_16x8 | BMbType::B_Bi_L0_16x8 | BMbType::B_Bi_L1_16x8 | BMbType::B_Bi_Bi_16x8 => 16u8,
        _ => 8u8,
    }
}

impl BMbType {
    /// `MbPartWidth` of Table 7-14 (see `spec_mb_part_width_b`).
    pub fn mb_part_width(&self) -> (w: u8)
        ensures
            w == spec_mb_part_width_b(*self),
    {
        match *self {
            BMbType::B_L0_16x16 | BMbType::B_L1_16x16 | BMbType::B_Bi_16x16 | BMbType::B_L0_L0_16x8
            | BMbType::B_L1_L1_16x8 | BMbType::B_L0_L1_16x8 | BMbType::B_L1_L0_16x8 | BMbType::B_L0_Bi_16x8
            | BMbType::B_L1_Bi_16x8 | BMbType::B_Bi_L0_16x8 | BMbType::B_Bi_L1_16x8 | BMbType::B_Bi_Bi_16x8 => 16,
            _ => 8,
        }
    }
}

/// `sub_mb_type` in P macroblocks (Table 7-17).
#[allow(non_camel_case_types)]
#[derive(Clone, Copy, Debug, Default, PartialEq, Eq, Structural)]
pub enum SubMbType {
    #[default]
    P_L0_8x8,
    P_L0_8x4,
    P_L0_4x8,
    P_L0_4x4,
}

/// `sub_mb_type` in B macroblocks (Table 7-18).
#[allow(non_camel_case_types)]
#[derive(Clone, Copy, Debug, Default, PartialEq, Eq, Structural)]
pub enum BSubMbType {
    #[default]
    B_Direct_8x8,
    B_L0_8x8,
    B_L1_8x8,
    B_Bi_8x8,
    B_L0_8x4,
    B_L0_4x8,
    B_L1_8x4,
    B_L1_4x8,
    B_Bi_8x4,
    B_Bi_4x8,
    B_L0_4x4,
    B_L1_4x4,
    B_Bi_4x4,
}

/// `NumSubMbPart` of Table 7-17.
pub open spec fn spec_num_sub_mb_part_p(t: SubMbType) -> u8 {
    match t {
        SubMbType::P_L0_8x8 => 1u8,
        SubMbType::P_L0_8x4 | SubMbType::P_L0_4x8 => 2u8,
        SubMbType::P_L0_4x4 => 4u8,
    }
}

/// The P `sub_mb_type` of value `v` (Table 7-17, 0..=3).
pub open spec fn spec_sub_mb_type_p(v: int) -> Option<SubMbType> {
    if v == 0 {
        Some(SubMbType::P_L0_8x8)
    } else if v == 1 {
        Some(SubMbType::P_L0_8x4)
    } else if v == 2 {
        Some(SubMbType::P_L0_4x8)
    } else if v == 3 {
        Some(SubMbType::P_L0_4x4)
    } else {
        None
    }
}

impl SubMbType {
    /// The P `sub_mb_type` of value `v` (see `spec_sub_mb_type_p`).
    pub fn from_value(v: u32) -> (t: Option<SubMbType>)
        ensures
            t == spec_sub_mb_type_p(v as int),
    {
        if v == 0 {
            Some(SubMbType::P_L0_8x8)
        } else if v == 1 {
            Some(SubMbType::P_L0_8x4)
        } else if v == 2 {
            Some(SubMbType::P_L0_4x8)
        } else if v == 3 {
            Some(SubMbType::P_L0_4x4)
        } else {
            None
        }
    }

    /// `NumSubMbPart` of Table 7-17.
    pub fn num_sub_mb_part(&self) -> (n: u8)
        ensures
            n == spec_num_sub_mb_part_p(*self),
    {
        match *self {
            SubMbType::P_L0_8x8 => 1,
            SubMbType::P_L0_8x4 | SubMbType::P_L0_4x8 => 2,
            SubMbType::P_L0_4x4 => 4,
        }
    }
}

/// The B `sub_mb_type`s in the order of their values (Table 7-18).
pub open spec fn b_sub_mb_types() -> Seq<BSubMbType> {
    seq![
        BSubMbType::B_Direct_8x8,
        BSubMbType::B_L0_8x8,
        BSubMbType::B_L1_8x8,
        BSubMbType::B_Bi_8x8,
        BSubMbType::B_L0_8x4,
        BSubMbType::B_L0_4x8,
        BSubMbType::B_L1_8x4,
        BSubMbType::B_L1_4x8,
        BSubMbType::B_Bi_8x4,
        BSubMbType::B_Bi_4x8,
        BSubMbType::B_L0_4x4,
        BSubMbType::B_L1_4x4,
        BSubMbType::B_Bi_4x4,
    ]
}

/// `NumSubMbPart` of Table 7-18 (4 for B_Direct_8x8).
pub open spec fn spec_num_sub_mb_part_b(t: BSubMbType) -> u8 {
    match t {
        BSubMbType::B_L0_8x8 | BSubMbType::B_L1_8x8 | BSubMbType::B_Bi_8x8 => 1u8,
        BSubMbType::B_L0_8x4 | BSubMbType::B_L0_4x8 | BSubMbType::B_L1_8x4 | BSubMbType::B_L1_4x8
        | BSubMbType::B_Bi_8x4 | BSubMbType::B_Bi_4x8 => 2u8,
        _ => 4u8,
    }
}

/// `SubMbPredMode` of Table 7-18.
pub open spec fn spec_sub_mb_pred_mode_b(t: BSubMbType) -> MbPredictionMode {
    match t {
        BSubMbType::B_Direct_8x8 => MbPredictionMode::Direct,
        BSubMbType::B_L0_8x8 | BSubMbType::B_L0_8x4 | BSubMbType::B_L0_4x8 | BSubMbType::B_L0_4x4 => MbPredictionMode::Pred_L0,
        BSubMbType::B_L1_8x8 | BSubMbType::B_L1_8x4 | BSubMbType::B_L1_4x8 | BSubMbType::B_L1_4x4 => MbPredictionMode::Pred_L1,
        _ => MbPredictionMode::BiPred,
    }
}

impl BSubMbType {
    /// The B `sub_mb_type` of value `v` (Table 7-18, 0..=12).
    pub fn from_value(v: u32) -> (t: Option<BSubMbType>)
        ensures
            t == (if v < 13 {
                Some(b_sub_mb_types()[v as int])
            } else {
                None
            }),
    {
        let types: [BSubMbType; 13] = [
            BSubMbType::B_Direct_8x8,
            BSubMbType::B_L0_8x8,
            BSubMbType::B_L1_8x8,
            BSubMbType::B_Bi_8x8,
            BSubMbType::B_L0_8x4,
            BSubMbType::B_L0_4x8,
            BSubMbType::B_L1_8x4,
            BSubMbType::B_L1_4x8,
            BSubMbType::B_Bi_8x4,
            BSubMbType::B_Bi_4x8,
            BSubMbType::B_L0_4x4,
            BSubMbType::B_L1_4x4,
            BSubMbType::B_Bi_4x4,
        ];
        assert(types@ =~= b_sub_mb_types());
        if v < 13 {
            Some(types[v as usize])
        } else {
            None
        }
    }

    /// `NumSubMbPart` of Table 7-18.
    pub fn num_sub_mb_part(&self) -> (n: u8)
        ensures
            n == spec_num_sub_mb_part_b(*self),
    {
        match *self {
            BSubMbType::B_L0_8x8 | BSubMbType::B_L1_8x8 | BSubMbType::B_Bi_8x8 => 1,
            BSubMbType::B_L0_8x4 | BSubMbType::B_L0_4x8 | BSubMbType::B_L1_8x4 | BSubMbType::B_L1_4x8
            | BSubMbType::B_Bi_8x4 | BSubMbType::B_Bi_4x8 => 2,
            _ => 4,
        }
    }

    /// `SubMbPredMode` of Table 7-18.
    pub fn sub_mb_pred_mode(&self) -> (m: MbPredictionMode)
        ensures
            m == spec_sub_mb_pred_mode_b(*self),
    {
        match *self {
            BSubMbType::B_Direct_8x8 => MbPredictionMode::Direct,
            BSubMbType::B_L0_8x8 | BSubMbType::B_L0_8x4 | BSubMbType::B_L0_4x8 | BSubMbType::B_L0_4x4 => MbPredictionMode::Pred_L0,
            BSubMbType::B_L1_8x8 | BSubMbType::B_L1_8x4 | BSubMbType::B_L1_4x8 | BSubMbType::B_L1_4x4 => MbPredictionMode::Pred_L1,
            _ => MbPredictionMode::BiPred,
        }
    }
}

/// `MbPartPredMode(t, i)` of Table 7-14 for partition `i` (0 or 1):
/// Direct for B_Direct_16x16 and B_Skip, no mode for B_8x8 and for a
/// second partition of a 16x16 type.
pub open spec fn spec_mb_part_pred_mode_b(t: BMbType, i: int) -> MbPredictionMode {
    let l0 = MbPredictionMode::Pred_L0;
    let l1 = MbPredictionMode::Pred_L1;
    let bi = MbPredictionMode::BiPred;
    let (m0, m1) = match t {
        BMbType::B_Direct_16x16 | BMbType::B_Skip => (MbPredictionMode::Direct, MbPredictionMode::Direct),
        BMbType::B_L0_16x16 => (l0, MbPredictionMode::NoMode),
        BMbType::B_L1_16x16 => (l1, MbPredictionMode::NoMode),
        BMbType::B_Bi_16x16 => (bi, MbPredictionMode::NoMode),
        BMbType::B_L0_L0_16x8 | BMbType::B_L0_L0_8x16 => (l0, l0),
        BMbType::B_L1_L1_16x8 | BMbType::B_L1_L1_8x16 => (l1, l1),
        BMbType::B_L0_L1_16x8 | BMbType::B_L0_L1_8x16 => (l0, l1),
        BMbType::B_L1_L0_16x8 | BMbType::B_L1_L0_8x16 => (l1, l0),
        BMbType::B_L0_Bi_16x8 | BMbType::B_L0_Bi_8x16 => (l0, bi),
        BMbType::B_L1_Bi_16x8 | BMbType::B_L1_Bi_8x16 => (l1, bi),
        BMbType::B_Bi_L0_16x8 | BMbType::B_Bi_L0_8x16 => (bi, l0),
        BMbType::B_Bi_L1_16x8 | BMbType::B_Bi_L1_8x16 => (bi, l1),
        BMbType::B_Bi_Bi_16x8 | BMbType::B_Bi_Bi_8x16 => (bi, bi),
        BMbType::B_8x8 => (MbPredictionMode::NoMode, MbPredictionMode::NoMode),
    };
    if i == 0 {
        m0
    } else {
        m1
    }
}

impl BMbType {
    /// `MbPartPredMode` of Table 7-14 (see `spec_mb_part_pred_mode_b`).
    pub fn mb_part_pred_mode(&self, i: u8) -> (m: MbPredictionMode)
        ensures
            m == spec_mb_part_pred_mode_b(*self, i as int),
    {
        let l0 = MbPredictionMode::Pred_L0;
        let l1 = MbPredictionMode::Pred_L1;
        let bi = MbPredictionMode::BiPred;
        let (m0, m1) = match *self {
            BMbType::B_Direct_16x16 | BMbType::B_Skip => (MbPredictionMode::Direct, MbPredictionMode::Direct),
            BMbType::B_L0_16x16 => (l0, MbPredictionMode::NoMode),
            BMbType::B_L1_16x16 => (l1, MbPredictionMode::NoMode),
            BMbType::B_Bi_16x16 => (bi, MbPredictionMode::NoMode),
            BMbType::B_L0_L0_16x8 | BMbType::B_L0_L0_8x16 => (l0, l0),
            BMbType::B_L1_L1_16x8 | BMbType::B_L1_L1_8x16 => (l1, l1),
            BMbType::B_L0_L1_16x8 | BMbType::B_L0_L1_8x16 => (l0, l1),
            BMbType::B_L1_L0_16x8 | BMbType::B_L1_L0_8x16 => (l1, l0),
            BMbType::B_L0_Bi_16x8 | BMbType::B_L0_Bi_8x16 => (l0, bi),
            BMbType::B_L1_Bi_16x8 | BMbType::B_L1_Bi_8x16 => (l1, bi),
            BMbType::B_Bi_L0_16x8 | BMbType::B_Bi_L0_8x16 => (bi, l0),
            BMbType::B_Bi_L1_16x8 | BMbType::B_Bi_L1_8x16 => (bi, l1),
            BMbType::B_Bi_Bi_16x8 | BMbType::B_Bi_Bi_8x16 => (bi, bi),
            BMbType::B_8x8 => (MbPredictionMode::NoMode, MbPredictionMode::NoMode),
        };
        if i == 0 {
            m0
        } else {
            m1
        }
    }
}

/// `intra_chroma_pred_mode` (Table 7-16).
#[allow(non_camel_case_types)]
#[derive(Clone, Copy, Debug, Default, PartialEq, Eq, Structural)]
pub enum Intra_Chroma_Pred_Mode {
    #[default]
    DC,
    Horizontal,
    Vertical,
    Plane,
}

/// What the context index derivations of CABAC (Section 9.3.3.1.1) read
/// of a neighbouring, available macroblock.
#[derive(Clone, Copy, Debug, Default, PartialEq, Eq, Structural)]
pub struct NeighborMb {
    /// P_Skip or B_Skip.
    pub skipped: bool,
    /// I_PCM.
    pub pcm: bool,
    /// An I macroblock of type I_NxN.
    pub intra_nxn: bool,
    /// An I macroblock of an Intra_16x16 type.
    pub intra_16x16: bool,
    /// A B macroblock of type B_Skip or B_Direct_16x16.
    pub b_skip_or_direct: bool,
    /// `intra_chroma_pred_mode` of an I macroblock; 0 otherwise.
    pub intra_chroma_pred_mode: u8,
    /// The luma and chroma parts of `coded_block_pattern`.
    pub cbp_luma: u8,
    pub cbp_chroma: u8,
    /// `mb_qp_delta`.
    pub mb_qp_delta: i32,
}

/// Column of 4x4 luma block `b` (in Z-scan order) inside its macroblock
/// (Section 6.4.3).
pub open spec fn blk4_x(b: int) -> int {
    8 * ((b / 4) % 2) + 4 * (b % 2)
}

/// Row of 4x4 luma block `b` inside its macroblock (Section 6.4.3).
pub open spec fn blk4_y(b: int) -> int {
    8 * (b / 8) + 4 * ((b % 4) / 2)
}

/// Column and row, in 4x4 blocks, of 4x4 luma block `k` inside its
/// macroblock.
pub fn luma4x4_col_row(k: u8) -> (r: (usize, usize))
    requires
        k < 16,
    ensures
        r.0 == blk4_x(k as int) / 4,
        r.1 == blk4_y(k as int) / 4,
        r.0 < 4,
        r.1 < 4,
{
    let kk = k as usize;
    (2 * ((kk / 4) % 2) + kk % 2, 2 * (kk / 8) + (kk % 4) / 2)
}

/// A neighbour of a macroblock or block (Section 6.4.11): left (A), above
/// (B), above right (C), above left (D).
#[derive(Clone, Copy, Debug, PartialEq, Eq, Structural)]
pub enum MbNeighborName {
    A,
    B,
    C,
    D,
}

/// Section 6.4.11.4: the 4x4 luma block left of (`A`) or above (`B`)
/// block `b`: its index, and the neighbouring macroblock it lies in, or
/// `None` when it lies in the same macroblock.
pub open spec fn spec_luma4x4_neighbor(b: int, dir: MbNeighborName) -> (int, Option<MbNeighborName>) {
    let col = blk4_x(b) / 4;
    let row = blk4_y(b) / 4;
    if dir == MbNeighborName::A {
        if col == 0 {
            (spec_scan_4x4(row, 3), Some(MbNeighborName::A))
        } else {
            (spec_scan_4x4(row, col - 1), None)
        }
    } else if row == 0 {
        (spec_scan_4x4(3, col), Some(MbNeighborName::B))
    } else {
        (spec_scan_4x4(row - 1, col), None)
    }
}

/// Section 6.4.11.5 for 4:2:0: the 4x4 chroma block left of (`A`) or
/// above (`B`) block `b` of the 2x2 blocks of a chroma macroblock.
pub open spec fn spec_chroma4x4_neighbor(b: int, dir: MbNeighborName) -> (int, Option<MbNeighborName>) {
    let col = b % 2;
    let row = b / 2;
    if dir == MbNeighborName::A {
        if col == 0 {
            (2 * row + 1, Some(MbNeighborName::A))
        } else {
            (2 * row, None)
        }
    } else if row == 0 {
        (2 + col, Some(MbNeighborName::B))
    } else {
        (col, None)
    }
}

/// Section 6.4.11.4: the 4x4 luma block left of (`A`) or above (`B`)
/// block `blk_idx` (see `spec_luma4x4_neighbor`).
pub fn get_4x4luma_block_neighbor(blk_idx: u8, dir: MbNeighborName) -> (r: (u8, Option<MbNeighborName>))
    requires
        blk_idx < 16,
        dir == MbNeighborName::A || dir == MbNeighborName::B,
    ensures
        r.0 as int == spec_luma4x4_neighbor(blk_idx as int, dir).0,
        r.1 == spec_luma4x4_neighbor(blk_idx as int, dir).1,
        r.0 < 16,
{
    let b = blk_idx as usize;
    let col = (8 * ((b / 4) % 2) + 4 * (b % 2)) / 4;
    let row = (8 * (b / 8) + 4 * ((b % 4) / 2)) / 4;
    match dir {
        MbNeighborName::A => {
            if col == 0 {
                (scan_4x4(row, 3) as u8, Some(MbNeighborName::A))
            } else {
                (scan_4x4(row, col - 1) as u8, None)
            }
        },
        _ => {
            if row == 0 {
                (scan_4x4(3, col) as u8, Some(MbNeighborName::B))
            } else {
                (scan_4x4(row - 1, col) as u8, None)
            }
        },
    }
}

/// Section 6.4.11.5 for 4:2:0: the 4x4 chroma block left of (`A`) or
/// above (`B`) block `blk_idx` (see `spec_chroma4x4_neighbor`).
pub fn get_4x4chroma_block_neighbor(blk_idx: u8, dir: MbNeighborName) -> (r: (u8, Option<MbNeighborName>))
    requires
        blk_idx < 4,
        dir == MbNeighborName::A || dir == MbNeighborName::B,
    ensures
        r.0 as int == spec_chroma4x4_neighbor(blk_idx as int, dir).0,
        r.1 == spec_chroma4x4_neighbor(blk_idx as int, dir).1,
        r.0 < 4,
{
    let col = blk_idx % 2;
    let row = blk_idx / 2;
    match dir {
        MbNeighborName::A => {
            if col == 0 {
                (2 * row + 1, Some(MbNeighborName::A))
            } else {
                (2 * row, None)
            }
        },
        _ => {
            if row == 0 {
                (2 + col, Some(MbNeighborName::B))
            } else {
                (col, None)
            }
        },
    }
}

/// Section 6.4.3: the Z-scan index of the 4x4 luma blocks and their
/// positions undo each other: block `b` lies at column `blk4_x(b) / 4`,
/// row `blk4_y(b) / 4`, whose scan index is `b`; and blocks 0 to 3 fill the
/// top-left 8x8 quadrant, 4 to 7 the top-right, 8 to 11 the bottom-left.
pub proof fn lemma_scan_4x4_positions(b: int)
    requires
        0 <= b < 16,
    ensures
        spec_scan_4x4(blk4_y(b) / 4, blk4_x(b) / 4) == b,
        0 <= blk4_x(b) <= 12 && blk4_x(b) % 4 == 0,
        0 <= blk4_y(b) <= 12 && blk4_y(b) % 4 == 0,
        (blk4_x(b) >= 8) == (b % 8 >= 4),
        (blk4_y(b) >= 8) == (b >= 8),
{
        if b == 0 {
        } else if b == 1 {
        } else if b == 2 {
        } else if b == 3 {
        } else if b == 4 {
        } else if b == 5 {
        } else if b == 6 {
        } else if b == 7 {
        } else if b == 8 {
        } else if b == 9 {
        } else if b == 10 {
        } else if b == 11 {
        } else if b == 12 {
        } else if b == 13 {
        } else if b == 14 {
        } else if b == 15 {
        } else {
        }
}

/// Table 7-14: after B_Direct_16x16, types 1 to 3 are the 16x16 ones from
/// list 0, list 1 and both; types 4 to 21 come in pairs, 16x8 then 8x16,
/// whose two partitions are predicted as L0 L0, L1 L1, L0 L1, L1 L0, L0 Bi,
/// L1 Bi, Bi L0, Bi L1, Bi Bi in turn; 22 is B_8x8.
pub proof fn lemma_b_mb_types_table_7_14(v: int)
    requires
        0 <= v < 23,
    ensures
        v == 0 <==> b_mb_types()[v] == BMbType::B_Direct_16x16,
        v == 22 <==> b_mb_types()[v] == BMbType::B_8x8,
        1 <= v <= 3 ==> spec_num_mb_part_b(b_mb_types()[v]) == 1 && spec_mb_part_pred_mode_b(b_mb_types()[v], 0)
            == (if v == 1 {
            MbPredictionMode::Pred_L0
        } else if v == 2 {
            MbPredictionMode::Pred_L1
        } else {
            MbPredictionMode::BiPred
        }),
        4 <= v <= 21 ==> ({
            let t = b_mb_types()[v];
            let pair = (v - 4) / 2;
            let first = if pair == 0 || pair == 2 || pair == 4 {
                MbPredictionMode::Pred_L0
            } else if pair == 1 || pair == 3 || pair == 5 {
                MbPredictionMode::Pred_L1
            } else {
                MbPredictionMode::BiPred
            };
            let second = if pair == 0 || pair == 3 || pair == 6 {
                MbPredictionMode::Pred_L0
            } else if pair == 1 || pair == 2 || pair == 7 {
                MbPredictionMode::Pred_L1
            } else {
                MbPredictionMode::BiPred
            };
            &&& spec_num_mb_part_b(t) == 2
            &&& spec_mb_part_height_b(t) == (if v % 2 == 0 {
                8u8
            } else {
                16u8
            })
            &&& spec_mb_part_width_b(t) == (if v % 2 == 0 {
                16u8
            } else {
                8u8
            })
            &&& spec_mb_part_pred_mode_b(t, 0) == first
            &&& spec_mb_part_pred_mode_b(t, 1) == second
        }),
{
    let s = b_mb_types();
    if v == 0 {
    } else if v == 1 {
    } else if v == 2 {
    } else if v == 3 {
    } else if v == 4 {
    } else if v == 5 {
    } else if v == 6 {
    } else if v == 7 {
    } else if v == 8 {
    } else if v == 9 {
    } else if v == 10 {
    } else if v == 11 {
    } else if v == 12 {
    } else if v == 13 {
    } else if v == 14 {
    } else if v == 15 {
    } else if v == 16 {
    } else if v == 17 {
    } else if v == 18 {
    } else if v == 19 {
    } else if v == 20 {
    } else if v == 21 {
    } else if v == 22 {
    } else {
    }
}

/// Table 7-18: after B_Direct_8x8 (four parts, direct), types 1 to 3 are
/// single 8x8 parts from list 0, list 1 and both; 4 to 9 come in pairs,
/// 8x4 then 4x8 (two parts), from list 0, list 1 and both; 10 to 12 are
/// four 4x4 parts from list 0, list 1 and both.
pub proof fn lemma_b_sub_mb_types_table_7_18(v: int)
    requires
        0 <= v < 13,
    ensures
        ({
            let t = b_sub_mb_types()[v];
            let mode = if v == 0 {
                MbPredictionMode::Direct
            } else if (v <= 3 && v == 1) || (4 <= v <= 9 && (v - 4) / 2 == 0) || v == 10 {
                MbPredictionMode::Pred_L0
            } else if (v <= 3 && v == 2) || (4 <= v <= 9 && (v - 4) / 2 == 1) || v == 11 {
                MbPredictionMode::Pred_L1
            } else {
                MbPredictionMode::BiPred
            };
            let parts = if v == 0 || v >= 10 {
                4u8
            } else if v <= 3 {
                1u8
            } else {
                2u8
            };
            &&& spec_sub_mb_pred_mode_b(t) == mode
            &&& spec_num_sub_mb_part_b(t) == parts
            &&& 4 <= v <= 9 ==> crate::cabac::spec_sub_mb_grid_b(t) == (if v % 2 == 0 {
                (2usize, 1usize)
            } else {
                (1usize, 2usize)
            })
        }),
{
    let s = b_sub_mb_types();
    if v == 0 {
    } else if v == 1 {
    } else if v == 2 {
    } else if v == 3 {
    } else if v == 4 {
    } else if v == 5 {
    } else if v == 6 {
    } else if v == 7 {
    } else if v == 8 {
    } else if v == 9 {
    } else if v == 10 {
    } else if v == 11 {
    } else if v == 12 {
    } else {
    }
}


/// Sections 6.4.3 and 6.4.11.4: the 4x4 luma blocks of a macroblock lie in
/// Z order (block `b` at column `x[b]` and row `y[b]`, in 4x4 blocks, of
/// the tables below), and the neighbour left of a block is the one in the
/// same row one column to the left, in macroblock A (its column 3) for the
/// blocks of column 0; the neighbour above is the one in the same column
/// one row up, in macroblock B (its row 3) for the blocks of row 0.
pub proof fn lemma_luma4x4_neighbors(b: int)
    requires
        0 <= b < 16,
    ensures
        blk4_x(b) / 4 == seq![0int, 1, 0, 1, 2, 3, 2, 3, 0, 1, 0, 1, 2, 3, 2, 3][b],
        blk4_y(b) / 4 == seq![0int, 0, 1, 1, 0, 0, 1, 1, 2, 2, 3, 3, 2, 2, 3, 3][b],
        spec_luma4x4_neighbor(b, MbNeighborName::A).0 == seq![5int, 0, 7, 2, 1, 4, 3, 6, 13, 8, 15, 10, 9, 12, 11, 14][b],
        spec_luma4x4_neighbor(b, MbNeighborName::A).1 == (if b == 0 || b == 2 || b == 8 || b == 10 {
            Some(MbNeighborName::A)
        } else {
            None
        }),
        spec_luma4x4_neighbor(b, MbNeighborName::B).0 == seq![10int, 11, 0, 1, 14, 15, 4, 5, 2, 3, 8, 9, 6, 7, 12, 13][b],
        spec_luma4x4_neighbor(b, MbNeighborName::B).1 == (if b == 0 || b == 1 || b == 4 || b == 5 {
            Some(MbNeighborName::B)
        } else {
            None
        }),
{
    if b == 0 {
    } else if b == 1 {
    } else if b == 2 {
    } else if b == 3 {
    } else if b == 4 {
    } else if b == 5 {
    } else if b == 6 {
    } else if b == 7 {
    } else if b == 8 {
    } else if b == 9 {
    } else if b == 10 {
    } else if b == 11 {
    } else if b == 12 {
    } else if b == 13 {
    } else if b == 14 {
    } else {
    }
}

/// Section 6.4.11.5 for 4:2:0: of the four 4x4 chroma blocks, in raster
/// order, the neighbour left of blocks 0 and 2 is block 1 and 3 of
/// macroblock A, of blocks 1 and 3 blocks 0 and 2; the neighbour above
/// blocks 0 and 1 is block 2 and 3 of macroblock B, of blocks 2 and 3
/// blocks 0 and 1.
pub proof fn lemma_chroma4x4_neighbors()
    ensures
        spec_chroma4x4_neighbor(0, MbNeighborName::A) == (1int, Some(MbNeighborName::A)),
        spec_chroma4x4_neighbor(1, MbNeighborName::A) == (0int, None::<MbNeighborName>),
        spec_chroma4x4_neighbor(2, MbNeighborName::A) == (3int, Some(MbNeighborName::A)),
        spec_chroma4x4_neighbor(3, MbNeighborName::A) == (2int, None::<MbNeighborName>),
        spec_chroma4x4_neighbor(0, MbNeighborName::B) == (2int, Some(MbNeighborName::B)),
        spec_chroma4x4_neighbor(1, MbNeighborName::B) == (3int, Some(MbNeighborName::B)),
        spec_chroma4x4_neighbor(2, MbNeighborName::B) == (0int, None::<MbNeighborName>),
        spec_chroma4x4_neighbor(3, MbNeighborName::B) == (1int, None::<MbNeighborName>),
{
}

} // verus!
