//! The binarizations and context selections of the CABAC syntax elements
//! (Tables 9-36 to 9-39, Section 9.3.3.1), stated as the bin strings and
//! context indices of the standard and proved of the decoding specs.
use crate::cabac::{
    dec, mb_type_b_spec, mb_type_p_spec, spec_abs_inc, spec_abs_mvd_comp, spec_last_inc, spec_mvd_inc,
    spec_sig_inc, sub_mb_type_b_spec, sub_mb_type_p_spec, i16x16_spec, last8_table, sig8_table, CabacMbType,
    CurrentMbInfo, CtxIncParams, Engine, SyntaxElement, spec_ctx_inc, cabac_intra4x4_modes_spec, decode_decision, spec_props,
};
use crate::macroblock::{Macroblock, MbNeighborName, PMbType, SubMbType};
use vstd::prelude::*;

verus! {

/// Section 9.3.3.1.3, `coeff_abs_level_minus1`: its first bin takes
/// context increment 0 exactly when a level greater than 1 has already
/// been decoded in the block; until then it counts the levels equal to 1
/// decoded so far, from 1 up to at most 4, one step per level. The other
/// bins take 5 plus the number of levels greater than 1, capped at 4 (at 3
/// for chroma DC, category 3).
pub proof fn lemma_abs_level_ctx_inc(cat: int, bin_idx: int, gt1: int, eq1: int)
    requires
        0 <= bin_idx,
        0 <= gt1,
        0 <= eq1,
    ensures
        bin_idx == 0 ==> (spec_abs_inc(cat, bin_idx, gt1, eq1) == 0 <==> gt1 > 0),
        bin_idx == 0 && gt1 == 0 ==> 1 <= spec_abs_inc(cat, bin_idx, gt1, eq1) <= 4,
        bin_idx == 0 && gt1 == 0 && eq1 < 3 ==> spec_abs_inc(cat, bin_idx, gt1, eq1) == eq1 + 1,
        bin_idx == 0 && gt1 == 0 && eq1 >= 3 ==> spec_abs_inc(cat, bin_idx, gt1, eq1) == 4,
        bin_idx == 0 && gt1 == 0 && eq1 < 3 ==> spec_abs_inc(cat, bin_idx, gt1, eq1 + 1) == spec_abs_inc(
            cat,
            bin_idx,
            gt1,
            eq1,
        ) + 1,
        bin_idx > 0 ==> 5 <= spec_abs_inc(cat, bin_idx, gt1, eq1) <= 9,
        bin_idx > 0 && gt1 < 3 ==> spec_abs_inc(cat, bin_idx, gt1, eq1) == 5 + gt1,
        bin_idx > 0 && gt1 >= 4 ==> spec_abs_inc(cat, bin_idx, gt1, eq1) == (if cat == 3 {
            8int
        } else {
            9int
        }),
        bin_idx > 0 && gt1 == 3 ==> spec_abs_inc(cat, bin_idx, gt1, eq1) == 8,
{
}

/// Table 9-37, P slices: an `mb_type` whose first bin (context 14) is 0 is
/// an inter type, read from two more bins, the second with context 15 and
/// the third with context 16 after a second bin 0, 17 after a 1. The bin
/// strings: 0 0 0 is P_L0_16x16, 0 0 1 P_8x8, 0 1 1 P_L0_L0_16x8 and
/// 0 1 0 P_L0_L0_8x16.
pub proof fn lemma_mb_type_p_bin_strings(
    e: Engine,
    data: Seq<u8>,
    b1: u8,
    b2: u8,
    e1: Engine,
    e2: Engine,
    e3: Engine,
)
    requires
        dec(e, data, 14) == Some((0u8, e1)),
        dec(e1, data, 15) == Some((b1, e2)),
        dec(
            e2,
            data,
            if b1 == 1 {
                17
            } else {
                16
            },
        ) == Some((b2, e3)),
    ensures
        b1 == 0 && b2 == 0 ==> mb_type_p_spec(e, data) == Some((CabacMbType::P(PMbType::P_L0_16x16), e3)),
        b1 == 0 && b2 == 1 ==> mb_type_p_spec(e, data) == Some((CabacMbType::P(PMbType::P_8x8), e3)),
        b1 == 1 && b2 == 1 ==> mb_type_p_spec(e, data) == Some((CabacMbType::P(PMbType::P_L0_L0_16x8), e3)),
        b1 == 1 && b2 == 0 ==> mb_type_p_spec(e, data) == Some((CabacMbType::P(PMbType::P_L0_L0_8x16), e3)),
{
}

/// Table 9-38: the bin strings of a P `sub_mb_type`, at contexts 21, 22
/// and 23 in turn: 1 is P_L0_8x8, 0 0 P_L0_8x4, 0 1 1 P_L0_4x8 and
/// 0 1 0 P_L0_4x4.
pub proof fn lemma_sub_mb_type_p_bin_strings(
    e: Engine,
    data: Seq<u8>,
    b0: u8,
    b1: u8,
    b2: u8,
    e1: Engine,
    e2: Engine,
    e3: Engine,
)
    requires
        dec(e, data, 21) == Some((b0, e1)),
        b0 == 0 ==> dec(e1, data, 22) == Some((b1, e2)),
        b0 == 0 && b1 == 1 ==> dec(e2, data, 23) == Some((b2, e3)),
    ensures
        b0 == 1 ==> sub_mb_type_p_spec(e, data) == Some((SubMbType::P_L0_8x8, e1)),
        b0 == 0 && b1 == 0 ==> sub_mb_type_p_spec(e, data) == Some((SubMbType::P_L0_8x4, e2)),
        b0 == 0 && b1 == 1 && b2 == 1 ==> sub_mb_type_p_spec(e, data) == Some((SubMbType::P_L0_4x8, e3)),
        b0 == 0 && b1 == 1 && b2 == 0 ==> sub_mb_type_p_spec(e, data) == Some((SubMbType::P_L0_4x4, e3)),
{
}

/// Section 9.3.3.1.1.7: the context increment of the first bin of an
/// `mvd` component grows with the magnitudes `absMvdComp` of the two
/// neighbours' differences: 0 while their sum is below 3, 1 up to 32, 2
/// beyond.
pub proof fn lemma_mvd_ctx_inc_thresholds(
    a: Option<&Macroblock>,
    b: Option<&Macroblock>,
    curr: CurrentMbInfo,
    blk: int,
    list: int,
    comp: int,
)
    ensures
        ({
            let sum = spec_abs_mvd_comp(a, b, curr, blk, list, comp, MbNeighborName::A) + spec_abs_mvd_comp(
                a,
                b,
                curr,
                blk,
                list,
                comp,
                MbNeighborName::B,
            );
            &&& sum < 3 ==> spec_mvd_inc(a, b, curr, blk, list, comp) == 0
            &&& 3 <= sum <= 32 ==> spec_mvd_inc(a, b, curr, blk, list, comp) == 1
            &&& sum > 32 ==> spec_mvd_inc(a, b, curr, blk, list, comp) == 2
        }),
{
    assert(spec_abs_mvd_comp(a, b, curr, blk, list, comp, MbNeighborName::A) >= 0);
    assert(spec_abs_mvd_comp(a, b, curr, blk, list, comp, MbNeighborName::B) >= 0);
}

/// Section 9.3.3.1.3: the significance map of a 4x4 block (categories 0,
/// 1, 2 and 4) takes one context per scanning position; chroma DC
/// (category 3) takes positions 0, 1 and shares one context from 2 on;
/// in a frame-coded 8x8 block (categories 5, 9, 13) the contexts of
/// `last_significant_coeff_flag` follow Table 9-43: 0 at position 0, then
/// 1 up to 15, 2 up to 31, 3 up to 39, 4 up to 47, and one more per group
/// of four positions from 48 on.
pub proof fn lemma_sig_last_ctx_inc(cat: int, pos: int)
    requires
        0 <= pos < 63,
    ensures
        (cat == 0 || cat == 1 || cat == 2 || cat == 4) ==> spec_sig_inc(cat, pos) == pos && spec_last_inc(cat, pos)
            == pos,
        cat == 3 ==> spec_sig_inc(cat, pos) == (if pos < 2 {
            pos
        } else {
            2
        }) && spec_last_inc(cat, pos) == spec_sig_inc(cat, pos),
        (cat == 5 || cat == 9 || cat == 13) ==> spec_last_inc(cat, pos) == (if pos == 0 {
            0
        } else if pos < 16 {
            1
        } else if pos < 32 {
            2
        } else if pos < 40 {
            3
        } else if pos < 48 {
            4
        } else {
            5 + (pos - 48) / 4
        }),
        (cat == 5 || cat == 9 || cat == 13) ==> 0 <= spec_sig_inc(cat, pos) <= 14,
{
    let t = last8_table();
    let u = sig8_table();
    if pos == 0 {
    } else if pos == 1 {
    } else if pos == 2 {
    } else if pos == 3 {
    } else if pos == 4 {
    } else if pos == 5 {
    } else if pos == 6 {
    } else if pos == 7 {
    } else if pos == 8 {
    } else if pos == 9 {
    } else if pos == 10 {
    } else if pos == 11 {
    } else if pos == 12 {
    } else if pos == 13 {
    } else if pos == 14 {
    } else if pos == 15 {
    } else if pos == 16 {
    } else if pos == 17 {
    } else if pos == 18 {
    } else if pos == 19 {
    } else if pos == 20 {
    } else if pos == 21 {
    } else if pos == 22 {
    } else if pos == 23 {
    } else if pos == 24 {
    } else if pos == 25 {
    } else if pos == 26 {
    } else if pos == 27 {
    } else if pos == 28 {
    } else if pos == 29 {
    } else if pos == 30 {
    } else if pos == 31 {
    } else if pos == 32 {
    } else if pos == 33 {
    } else if pos == 34 {
    } else if pos == 35 {
    } else if pos == 36 {
    } else if pos == 37 {
    } else if pos == 38 {
    } else if pos == 39 {
    } else if pos == 40 {
    } else if pos == 41 {
    } else if pos == 42 {
    } else if pos == 43 {
    } else if pos == 44 {
    } else if pos == 45 {
    } else if pos == 46 {
    } else if pos == 47 {
    } else if pos == 48 {
    } else if pos == 49 {
    } else if pos == 50 {
    } else if pos == 51 {
    } else if pos == 52 {
    } else if pos == 53 {
    } else if pos == 54 {
    } else if pos == 55 {
    } else if pos == 56 {
    } else if pos == 57 {
    } else if pos == 58 {
    } else if pos == 59 {
    } else if pos == 60 {
    } else if pos == 61 {
    } else if pos == 62 {
    } else {
    }
}

/// Table 9-36 with the contexts of Table 9-39 (I slices, context offset 3): after the bins
/// that select Intra_16x16, the next bin is the luma pattern (context
/// 6), the next whether chroma is coded (context 7), for coded
/// chroma one more whether it is pattern 2 (context 8), and the last
/// two the prediction mode, high bit first (contexts 9, 10 without
/// chroma, 9, 10 with). The type is the one Table 7-11 numbers
/// `1 + pred_mode + 4 * cbp_chroma + 12 * luma`.
pub proof fn lemma_i16x16_bins_i_slice(
    e: Engine,
    data: Seq<u8>,
    l: u8,
    b3: u8,
    b4: u8,
    m1: u8,
    m0: u8,
    e1: Engine,
    e2: Engine,
    e3: Engine,
    e4: Engine,
    e5: Engine,
)
    requires
        l <= 1 && b3 <= 1 && b4 <= 1 && m1 <= 1 && m0 <= 1,
        dec(e, data, 6) == Some((l, e1)),
        dec(e1, data, 7) == Some((b3, e2)),
        b3 == 0 ==> dec(e2, data, 9) == Some((m1, e3)) && dec(e3, data, 10) == Some((m0, e4)),
        b3 == 1 ==> dec(e2, data, 8) == Some((b4, e3)) && dec(e3, data, 9) == Some((m1, e4)) && dec(
            e4,
            data,
            10,
        ) == Some((m0, e5)),
    ensures
        ({
            let chroma: int = if b3 == 0 {
                0
            } else if b4 == 0 {
                1
            } else {
                2
            };
            let end = if b3 == 0 {
                e4
            } else {
                e5
            };
            i16x16_spec(e, data, 3, SyntaxElement::MbTypeI) == Some(
                (crate::cavlc::spec_i_mb_type(1 + 2 * m1 + m0 + 4 * chroma + 12 * l).unwrap(), end),
            )
        }),
{
}

/// Table 9-36 with the contexts of Table 9-39 (the intra suffix of P and SP slices, offset 17): after the bins
/// that select Intra_16x16, the next bin is the luma pattern (context
/// 18), the next whether chroma is coded (context 19), for coded
/// chroma one more whether it is pattern 2 (context 19), and the last
/// two the prediction mode, high bit first (contexts 20, 20 without
/// chroma, 20, 20 with). The type is the one Table 7-11 numbers
/// `1 + pred_mode + 4 * cbp_chroma + 12 * luma`.
pub proof fn lemma_i16x16_bins_suffix(
    e: Engine,
    data: Seq<u8>,
    l: u8,
    b3: u8,
    b4: u8,
    m1: u8,
    m0: u8,
    e1: Engine,
    e2: Engine,
    e3: Engine,
    e4: Engine,
    e5: Engine,
)
    requires
        l <= 1 && b3 <= 1 && b4 <= 1 && m1 <= 1 && m0 <= 1,
        dec(e, data, 18) == Some((l, e1)),
        dec(e1, data, 19) == Some((b3, e2)),
        b3 == 0 ==> dec(e2, data, 20) == Some((m1, e3)) && dec(e3, data, 20) == Some((m0, e4)),
        b3 == 1 ==> dec(e2, data, 19) == Some((b4, e3)) && dec(e3, data, 20) == Some((m1, e4)) && dec(
            e4,
            data,
            20,
        ) == Some((m0, e5)),
    ensures
        ({
            let chroma: int = if b3 == 0 {
                0
            } else if b4 == 0 {
                1
            } else {
                2
            };
            let end = if b3 == 0 {
                e4
            } else {
                e5
            };
            i16x16_spec(e, data, 17, SyntaxElement::MbTypeISuffix) == Some(
                (crate::cavlc::spec_i_mb_type(1 + 2 * m1 + m0 + 4 * chroma + 12 * l).unwrap(), end),
            )
        }),
{
}

/// Table 9-37, B slices, with the contexts of Table 9-39 (offset 27): bin
/// 0 (context `27 + inc0`) 0 is B_Direct_16x16; `1 0 c` (bins at 30 and
/// 32) is type `1 + c` of Table 7-14, B_L0_16x16 or B_L1_16x16.
pub proof fn lemma_mb_type_b_short_strings(e: Engine, data: Seq<u8>, inc0: int, b0: u8, b1: u8, c: u8, e1: Engine, e2: Engine, e3: Engine)
    requires
        dec(e, data, 27 + inc0) == Some((b0, e1)),
        b0 == 1 ==> dec(e1, data, 30) == Some((b1, e2)),
        b0 == 1 && b1 == 0 ==> dec(e2, data, 32) == Some((c, e3)),
        c <= 1,
    ensures
        b0 == 0 ==> mb_type_b_spec(e, data, inc0) == Some((CabacMbType::B(crate::macroblock::b_mb_types()[0]), e1)),
        b0 == 1 && b1 == 0 ==> mb_type_b_spec(e, data, inc0) == Some((CabacMbType::B(crate::macroblock::b_mb_types()[1 + c]), e3)),
{
}

/// Table 9-37, B slices: the six-bin strings `1 1 0 a b c` (bins at
/// contexts `27 + inc0`, 30, 31, then 32) are types `3 + 4a + 2b + c` of
/// Table 7-14, B_Bi_16x16 to B_L1_L0_16x8.
pub proof fn lemma_mb_type_b_six_bin_strings(
    e: Engine,
    data: Seq<u8>,
    inc0: int,
    a: u8,
    b: u8,
    c: u8,
    e1: Engine,
    e2: Engine,
    e3: Engine,
    e4: Engine,
    e5: Engine,
    e6: Engine,
)
    requires
        a <= 1 && b <= 1 && c <= 1,
        dec(e, data, 27 + inc0) == Some((1u8, e1)),
        dec(e1, data, 30) == Some((1u8, e2)),
        dec(e2, data, 31) == Some((0u8, e3)),
        dec(e3, data, 32) == Some((a, e4)),
        dec(e4, data, 32) == Some((b, e5)),
        dec(e5, data, 32) == Some((c, e6)),
    ensures
        mb_type_b_spec(e, data, inc0) == Some((CabacMbType::B(crate::macroblock::b_mb_types()[3 + 4 * a + 2 * b + c]), e6)),
{
}

/// Table 9-37, B slices: the seven-bin strings `1 1 1 0 a b c` (contexts
/// `27 + inc0`, 30, 31, then 32) are types `12 + 4a + 2b + c` of Table
/// 7-14, B_L0_Bi_16x8 to B_Bi_L1_8x16.
pub proof fn lemma_mb_type_b_seven_bin_strings(
    e: Engine,
    data: Seq<u8>,
    inc0: int,
    a: u8,
    b: u8,
    c: u8,
    e1: Engine,
    e2: Engine,
    e3: Engine,
    e4: Engine,
    e5: Engine,
    e6: Engine,
    e7: Engine,
)
    requires
        a <= 1 && b <= 1 && c <= 1,
        dec(e, data, 27 + inc0) == Some((1u8, e1)),
        dec(e1, data, 30) == Some((1u8, e2)),
        dec(e2, data, 31) == Some((1u8, e3)),
        dec(e3, data, 32) == Some((0u8, e4)),
        dec(e4, data, 32) == Some((a, e5)),
        dec(e5, data, 32) == Some((b, e6)),
        dec(e6, data, 32) == Some((c, e7)),
    ensures
        mb_type_b_spec(e, data, inc0) == Some((CabacMbType::B(crate::macroblock::b_mb_types()[12 + 4 * a + 2 * b + c]), e7)),
{
}

/// Table 9-37, B slices: after `1 1 1 1` (contexts `27 + inc0`, 30, 31,
/// 32), `0 0 c` is type `20 + c` of Table 7-14 (B_Bi_Bi_16x8, 8x16),
/// `1 0` is type 11 (B_L1_L0_8x16) and `1 1` type 22 (B_8x8); every bin
/// after the first four at context 32.
pub proof fn lemma_mb_type_b_long_strings(
    e: Engine,
    data: Seq<u8>,
    inc0: int,
    x: u8,
    y: u8,
    c: u8,
    e1: Engine,
    e2: Engine,
    e3: Engine,
    e4: Engine,
    e5: Engine,
    e6: Engine,
    e7: Engine,
)
    requires
        c <= 1,
        dec(e, data, 27 + inc0) == Some((1u8, e1)),
        dec(e1, data, 30) == Some((1u8, e2)),
        dec(e2, data, 31) == Some((1u8, e3)),
        dec(e3, data, 32) == Some((1u8, e4)),
        dec(e4, data, 32) == Some((x, e5)),
        dec(e5, data, 32) == Some((y, e6)),
        x == 0 && y == 0 ==> dec(e6, data, 32) == Some((c, e7)),
    ensures
        x == 0 && y == 0 ==> mb_type_b_spec(e, data, inc0) == Some((CabacMbType::B(crate::macroblock::b_mb_types()[20 + c]), e7)),
        x == 1 && y == 0 ==> mb_type_b_spec(e, data, inc0) == Some((CabacMbType::B(crate::macroblock::b_mb_types()[11]), e6)),
        x == 1 && y == 1 ==> mb_type_b_spec(e, data, inc0) == Some((CabacMbType::B(crate::macroblock::b_mb_types()[22]), e6)),
{
}

/// Table 9-38, B slices, with the contexts of Table 9-39 (offset 36): `0`
/// is value 0 (B_Direct_8x8); `1 0 c` (contexts 36, 37, 39) value `1 + c`;
/// `1 1 0 a b` (36, 37, 38, 39, 39) value `3 + 2a + b`; `1 1 1 0 a b`
/// (36, 37, 38, then 39) value `7 + 2a + b`; `1 1 1 1 c` value `11 + c`:
/// the sub-macroblock type of that value in Table 7-18.
pub proof fn lemma_sub_mb_type_b_bin_strings(
    e: Engine,
    data: Seq<u8>,
    b: Seq<u8>,
    es: Seq<Engine>,
)
    requires
        b.len() == 6,
        es.len() == 7,
        es[0] == e,
        forall|i: int| 0 <= i < 6 ==> #[trigger] b[i] <= 1,
        dec(es[0], data, 36) == Some((b[0], es[1])),
        b[0] == 1 ==> dec(es[1], data, 37) == Some((b[1], es[2])),
        b[0] == 1 && b[1] == 0 ==> dec(es[2], data, 39) == Some((b[2], es[3])),
        b[0] == 1 && b[1] == 1 ==> dec(es[2], data, 38) == Some((b[2], es[3])) && dec(es[3], data, 39) == Some(
            (b[3], es[4]),
        ) && dec(es[4], data, 39) == Some((b[4], es[5])),
        b[0] == 1 && b[1] == 1 && b[2] == 1 && b[3] == 0 ==> dec(es[5], data, 39) == Some((b[5], es[6])),
    ensures
        b[0] == 0 ==> sub_mb_type_b_spec(e, data) == Some((crate::macroblock::b_sub_mb_types()[0], es[1])),
        b[0] == 1 && b[1] == 0 ==> sub_mb_type_b_spec(e, data) == Some(
            (crate::macroblock::b_sub_mb_types()[1 + b[2]], es[3]),
        ),
        b[0] == 1 && b[1] == 1 && b[2] == 0 ==> sub_mb_type_b_spec(e, data) == Some(
            (crate::macroblock::b_sub_mb_types()[3 + 2 * b[3] + b[4]], es[5]),
        ),
        b[0] == 1 && b[1] == 1 && b[2] == 1 && b[3] == 0 ==> sub_mb_type_b_spec(e, data) == Some(
            (crate::macroblock::b_sub_mb_types()[7 + 2 * b[4] + b[5]], es[6]),
        ),
        b[0] == 1 && b[1] == 1 && b[2] == 1 && b[3] == 1 ==> sub_mb_type_b_spec(e, data) == Some(
            (crate::macroblock::b_sub_mb_types()[11 + b[4]], es[5]),
        ),
{
    assert(b[0] <= 1 && b[1] <= 1 && b[2] <= 1 && b[3] <= 1 && b[4] <= 1 && b[5] <= 1);
}


/// Table 9-39, the context increments of the bins after the first: of
/// `mb_qp_delta` 2 then 3; of `ref_idx` 4 then 5; of `mvd` 3, 4, 5 then 6;
/// of `intra_chroma_pred_mode` 3. The first bin takes the increment
/// derived from the neighbours (`initial`). The `mb_type` trees: in I
/// slices bins 2 and 3 take 3 and 4, bins 4 and 5 take 5 and 6 after a
/// bin 3 of 1 and 6 and 7 after a 0, bin 6 takes 7; the I suffix in P and
/// B slices takes 1, 2, then 2 or 3 (after a bin 3 of 1 or 0), then 3; the
/// P prefix takes 0, 1, then 3 after a bin 1 of 1 and 2 after a 0; the B
/// prefix takes 3 at bin 1, 4 or 5 at bin 2 (after a bin 1 of 1 or 0) and
/// 5 at bin 3.
pub proof fn lemma_ctx_inc_table_9_39(bin_idx: int, initial: usize, prior: u8, list: usize, comp: usize)
    requires
        0 <= bin_idx,
    ensures
        bin_idx == 0 ==> spec_ctx_inc(SyntaxElement::MbQpDelta, bin_idx, CtxIncParams::Standard(initial))
            == initial,
        bin_idx == 1 ==> spec_ctx_inc(SyntaxElement::MbQpDelta, bin_idx, CtxIncParams::Standard(initial)) == 2,
        bin_idx >= 2 ==> spec_ctx_inc(SyntaxElement::MbQpDelta, bin_idx, CtxIncParams::Standard(initial)) == 3,
        bin_idx == 0 ==> spec_ctx_inc(SyntaxElement::RefIdx(list), bin_idx, CtxIncParams::Standard(initial))
            == initial,
        bin_idx == 1 ==> spec_ctx_inc(SyntaxElement::RefIdx(list), bin_idx, CtxIncParams::Standard(initial))
            == 4,
        bin_idx >= 2 ==> spec_ctx_inc(SyntaxElement::RefIdx(list), bin_idx, CtxIncParams::Standard(initial))
            == 5,
        bin_idx == 0 ==> spec_ctx_inc(SyntaxElement::Mvd(list, comp), bin_idx, CtxIncParams::Standard(initial))
            == initial,
        bin_idx == 1 ==> spec_ctx_inc(SyntaxElement::Mvd(list, comp), bin_idx, CtxIncParams::Standard(initial))
            == 3,
        bin_idx == 2 ==> spec_ctx_inc(SyntaxElement::Mvd(list, comp), bin_idx, CtxIncParams::Standard(initial))
            == 4,
        bin_idx == 3 ==> spec_ctx_inc(SyntaxElement::Mvd(list, comp), bin_idx, CtxIncParams::Standard(initial))
            == 5,
        bin_idx >= 4 ==> spec_ctx_inc(SyntaxElement::Mvd(list, comp), bin_idx, CtxIncParams::Standard(initial))
            == 6,
        bin_idx == 0 ==> spec_ctx_inc(SyntaxElement::IntraChromaPredMode, bin_idx, CtxIncParams::Standard(initial))
            == initial,
        bin_idx >= 1 ==> spec_ctx_inc(SyntaxElement::IntraChromaPredMode, bin_idx, CtxIncParams::Standard(initial))
            == 3,
        bin_idx <= 1 ==> spec_ctx_inc(SyntaxElement::MbTypeP, bin_idx, CtxIncParams::Standard(initial))
            == bin_idx,
        spec_ctx_inc(SyntaxElement::MbTypeP, 2, CtxIncParams::MbType { prior }) == (if prior == 1 {
            3int
        } else {
            2int
        }),
        spec_ctx_inc(SyntaxElement::MbTypeI, 2, CtxIncParams::MbType { prior }) == 3,
        spec_ctx_inc(SyntaxElement::MbTypeI, 3, CtxIncParams::MbType { prior }) == 4,
        spec_ctx_inc(SyntaxElement::MbTypeI, 4, CtxIncParams::MbType { prior }) == (if prior != 0 {
            5int
        } else {
            6int
        }),
        spec_ctx_inc(SyntaxElement::MbTypeI, 5, CtxIncParams::MbType { prior }) == (if prior != 0 {
            6int
        } else {
            7int
        }),
        spec_ctx_inc(SyntaxElement::MbTypeI, 6, CtxIncParams::MbType { prior }) == 7,
        spec_ctx_inc(SyntaxElement::MbTypeISuffix, 2, CtxIncParams::MbType { prior }) == 1,
        spec_ctx_inc(SyntaxElement::MbTypeISuffix, 3, CtxIncParams::MbType { prior }) == 2,
        spec_ctx_inc(SyntaxElement::MbTypeISuffix, 4, CtxIncParams::MbType { prior }) == (if prior != 0 {
            2int
        } else {
            3int
        }),
        bin_idx >= 5 ==> spec_ctx_inc(SyntaxElement::MbTypeISuffix, bin_idx, CtxIncParams::MbType { prior }) == 3,
        spec_ctx_inc(SyntaxElement::MbTypeB, 1, CtxIncParams::MbType { prior }) == 3,
        spec_ctx_inc(SyntaxElement::MbTypeB, 2, CtxIncParams::MbType { prior }) == (if prior != 0 {
            4int
        } else {
            5int
        }),
        spec_ctx_inc(SyntaxElement::MbTypeB, 3, CtxIncParams::MbType { prior }) == 5,
{
}


/// Sections 9.3.2.5 and 8.3.1.1 with CABAC: a `prev_intra4x4_pred_mode_flag`
/// of 1 (context 68) selects the predicted mode; after a 0 the three bins
/// of context 69, least significant first, give the rank of the block's
/// mode among the eight modes other than the predicted one: mode `m` comes
/// from the value `m` below the predicted mode and `m - 1` above it.
pub proof fn lemma_cabac_intra4x4_mode_rank(
    e: Engine,
    data: Seq<u8>,
    a: Option<&Macroblock>,
    b: Option<&Macroblock>,
    modes: Seq<int>,
    k: int,
    f: u8,
    b0: u8,
    b1: u8,
    b2: u8,
    e1: Engine,
    e2: Engine,
    e3: Engine,
    e4: Engine,
    m: int,
)
    requires
        0 <= k < 16,
        decode_decision(e, data, 68) == Some((f, e1)),
    ensures
        f == 1 ==> cabac_intra4x4_modes_spec(e, data, a, b, modes, k) == cabac_intra4x4_modes_spec(
            e1,
            data,
            a,
            b,
            modes.update(k, crate::cavlc::pred_intra4x4_mode(a, b, modes, k)),
            k + 1,
        ),
        f == 0 && decode_decision(e1, data, 69) == Some((b0, e2)) && decode_decision(e2, data, 69) == Some(
            (b1, e3),
        ) && decode_decision(e3, data, 69) == Some((b2, e4)) && m != crate::cavlc::pred_intra4x4_mode(
            a,
            b,
            modes,
            k,
        ) && b0 + 2 * b1 + 4 * b2 == m - (if m > crate::cavlc::pred_intra4x4_mode(a, b, modes, k) {
            1int
        } else {
            0int
        }) ==> cabac_intra4x4_modes_spec(e, data, a, b, modes, k) == cabac_intra4x4_modes_spec(
            e4,
            data,
            a,
            b,
            modes.update(k, m),
            k + 1,
        ),
{
}


/// Table 9-43, frame-coded blocks: the context increment of
/// `significant_coeff_flag` at each scanning position of an 8x8 block
/// (categories 5, 9 and 13).
pub proof fn lemma_sig8_table_9_43(cat: int, pos: int)
    requires
        cat == 5 || cat == 9 || cat == 13,
        0 <= pos < 63,
    ensures
        spec_sig_inc(cat, pos) == seq![0u8, 1u8, 2u8, 3u8, 4u8, 5u8, 5u8, 4u8, 4u8, 3u8, 3u8, 4u8, 4u8, 4u8, 5u8, 5u8, 4u8, 4u8, 4u8, 4u8, 3u8, 3u8, 6u8, 7u8, 7u8, 7u8, 8u8, 9u8, 10u8, 9u8, 8u8, 7u8, 7u8, 6u8, 11u8, 12u8, 13u8, 11u8, 6u8, 7u8, 8u8, 9u8, 14u8, 10u8, 9u8, 8u8, 6u8, 11u8, 12u8, 13u8, 11u8, 6u8, 9u8, 14u8, 10u8, 9u8, 11u8, 12u8, 13u8, 11u8, 14u8, 10u8, 12u8][pos] as int,
{
    assert(sig8_table() =~= seq![0u8, 1u8, 2u8, 3u8, 4u8, 5u8, 5u8, 4u8, 4u8, 3u8, 3u8, 4u8, 4u8, 4u8, 5u8, 5u8, 4u8, 4u8, 4u8, 4u8, 3u8, 3u8, 6u8, 7u8, 7u8, 7u8, 8u8, 9u8, 10u8, 9u8, 8u8, 7u8, 7u8, 6u8, 11u8, 12u8, 13u8, 11u8, 6u8, 7u8, 8u8, 9u8, 14u8, 10u8, 9u8, 8u8, 6u8, 11u8, 12u8, 13u8, 11u8, 6u8, 9u8, 14u8, 10u8, 9u8, 11u8, 12u8, 13u8, 11u8, 14u8, 10u8, 12u8]);
}


/// Tables 9-34 and 9-40 for frame coded slices: the first context index
/// (`ctxIdxOffset`, plus `ctxBlockCatOffset` for the residual flags and
/// levels) of each syntax element; for the residual ones by block category
/// 0 to 13, in the order listed.
pub proof fn lemma_ctx_offsets_table_9_34(cat: usize, list: usize, comp: usize)
    requires
        cat <= 13,
        comp <= 1,
    ensures
        spec_props(SyntaxElement::MbTypeI).ctx_idx_offset == 3,
        spec_props(SyntaxElement::MbSkipFlagP).ctx_idx_offset == 11,
        spec_props(SyntaxElement::MbTypeP).ctx_idx_offset == 14,
        spec_props(SyntaxElement::MbTypeP).ctx_idx_offset_suffix == Some(17u32),
        spec_props(SyntaxElement::SubMbTypeP).ctx_idx_offset == 21,
        spec_props(SyntaxElement::MbSkipFlagB).ctx_idx_offset == 24,
        spec_props(SyntaxElement::MbTypeB).ctx_idx_offset == 27,
        spec_props(SyntaxElement::MbTypeB).ctx_idx_offset_suffix == Some(32u32),
        spec_props(SyntaxElement::SubMbTypeB).ctx_idx_offset == 36,
        spec_props(SyntaxElement::Mvd(list, comp)).ctx_idx_offset == (if comp == 0 {
            40u32
        } else {
            47u32
        }),
        spec_props(SyntaxElement::RefIdx(list)).ctx_idx_offset == 54,
        spec_props(SyntaxElement::MbQpDelta).ctx_idx_offset == 60,
        spec_props(SyntaxElement::IntraChromaPredMode).ctx_idx_offset == 64,
        spec_props(SyntaxElement::PrevIntra4x4PredModeFlag).ctx_idx_offset == 68,
        spec_props(SyntaxElement::RemIntra4x4PredMode).ctx_idx_offset == 69,
        spec_props(SyntaxElement::CodedBlockPattern).ctx_idx_offset == 73,
        spec_props(SyntaxElement::CodedBlockPattern).ctx_idx_offset_suffix == Some(77u32),
        spec_props(SyntaxElement::EndOfSliceFlag).ctx_idx_offset == 276,
        spec_props(SyntaxElement::TransformSize8x8Flag).ctx_idx_offset == 399,
        spec_props(SyntaxElement::CodedBlockFlag(cat)).ctx_idx_offset == seq![85u32, 89u32, 93u32, 97u32, 101u32, 1012u32, 460u32, 464u32, 468u32, 1016u32, 472u32, 476u32, 480u32, 1020u32][cat as int],
        spec_props(SyntaxElement::SignificantCoeffFlag(cat)).ctx_idx_offset == seq![105u32, 120u32, 134u32, 149u32, 152u32, 402u32, 484u32, 499u32, 513u32, 660u32, 528u32, 543u32, 557u32, 718u32][cat as int],
        spec_props(SyntaxElement::LastSignificantCoeffFlag(cat)).ctx_idx_offset == seq![166u32, 181u32, 195u32, 210u32, 213u32, 417u32, 572u32, 587u32, 601u32, 690u32, 616u32, 631u32, 645u32, 748u32][cat as int],
        spec_props(SyntaxElement::CoeffAbsLevelMinus1(cat)).ctx_idx_offset == seq![227u32, 237u32, 247u32, 257u32, 266u32, 426u32, 952u32, 962u32, 972u32, 708u32, 982u32, 992u32, 1002u32, 766u32][cat as int],
{
    if cat == 0 {
    } else if cat == 1 {
    } else if cat == 2 {
    } else if cat == 3 {
    } else if cat == 4 {
    } else if cat == 5 {
    } else if cat == 6 {
    } else if cat == 7 {
    } else if cat == 8 {
    } else if cat == 9 {
    } else if cat == 10 {
    } else if cat == 11 {
    } else if cat == 12 {
    } else {
    }
}

} // verus!
