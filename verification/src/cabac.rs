//! Context-adaptive binary arithmetic decoding (Section 9.3): the decoding
//! engine, the binarizations of the syntax elements that the slice data
//! parser reads bin by bin, and the context index derivations of Table 9-39.
use vstd::prelude::*;

use crate::arith::lemma_i32_shr;
use crate::bitreader::{bits_value, stream_bit, total_bits, BitReader};
use crate::macroblock::{
    blk4_x, blk4_y, get_4x4chroma_block_neighbor, get_4x4luma_block_neighbor, luma4x4_col_row, spec_cbp,
    spec_chroma4x4_neighbor, spec_is_skipped, spec_luma4x4_neighbor, spec_t8, BMbType, BSubMbType,
    CodedBlockPattern, IMbType, Intra_Chroma_Pred_Mode, Macroblock, MbMotion, MbNeighborName,
    MbPredictionMode, MotionVector, NeighborMb, PMbType, PartitionInfo, SubMbType, no_motion_record,
    spec_mb_part_height_b, spec_mb_part_width_b, spec_num_mb_part_b, LumaResidual, Residual,
};
use crate::intra_pred::Intra_4x4_SamplePredMode;
use crate::inter_pred::SliceType;
use crate::params::ChromaFormat;
use crate::residual::{
    block_key, block_len, block_levels, block_ok, block_written, fits, is_luma_block, keys_increase,
    lemma_not_yet_parsed, lemma_residual_jobs, lemma_zero_luma_block, nc_view, record_nc,
    residual_blocks, residual_jobs, residual_result, start_levels, start_nc, ResidualBlock,
};

verus! {

/// Table 9-44, `rangeTabLPS[pStateIdx][qCodIRangeIdx]`, row by row.
pub open spec fn range_lps_table() -> Seq<u8> {
    seq![
        128u8, 176u8, 208u8, 240u8, 128u8, 167u8, 197u8, 227u8, 128u8, 158u8, 187u8, 216u8, 123u8, 150u8, 178u8, 205u8,
        116u8, 142u8, 169u8, 195u8, 111u8, 135u8, 160u8, 185u8, 105u8, 128u8, 152u8, 175u8, 100u8, 122u8, 144u8, 166u8,
        95u8, 116u8, 137u8, 158u8, 90u8, 110u8, 130u8, 150u8, 85u8, 104u8, 123u8, 142u8, 81u8, 99u8, 117u8, 135u8,
        77u8, 94u8, 111u8, 128u8, 73u8, 89u8, 105u8, 122u8, 69u8, 85u8, 100u8, 116u8, 66u8, 80u8, 95u8, 110u8,
        62u8, 76u8, 90u8, 104u8, 59u8, 72u8, 86u8, 99u8, 56u8, 69u8, 81u8, 94u8, 53u8, 65u8, 77u8, 89u8,
        51u8, 62u8, 73u8, 85u8, 48u8, 59u8, 69u8, 80u8, 46u8, 56u8, 66u8, 76u8, 43u8, 53u8, 63u8, 72u8,
        41u8, 50u8, 59u8, 69u8, 39u8, 48u8, 56u8, 65u8, 37u8, 45u8, 54u8, 62u8, 35u8, 43u8, 51u8, 59u8,
        33u8, 41u8, 48u8, 56u8, 32u8, 39u8, 46u8, 53u8, 30u8, 37u8, 43u8, 50u8, 29u8, 35u8, 41u8, 48u8,
        27u8, 33u8, 39u8, 45u8, 26u8, 31u8, 37u8, 43u8, 24u8, 30u8, 35u8, 41u8, 23u8, 28u8, 33u8, 39u8,
        22u8, 27u8, 32u8, 37u8, 21u8, 26u8, 30u8, 35u8, 20u8, 24u8, 29u8, 33u8, 19u8, 23u8, 27u8, 31u8,
        18u8, 22u8, 26u8, 30u8, 17u8, 21u8, 25u8, 28u8, 16u8, 20u8, 23u8, 27u8, 15u8, 19u8, 22u8, 25u8,
        14u8, 18u8, 21u8, 24u8, 14u8, 17u8, 20u8, 23u8, 13u8, 16u8, 19u8, 22u8, 12u8, 15u8, 18u8, 21u8,
        12u8, 14u8, 17u8, 20u8, 11u8, 14u8, 16u8, 19u8, 11u8, 13u8, 15u8, 18u8, 10u8, 12u8, 15u8, 17u8,
        10u8, 12u8, 14u8, 16u8, 9u8, 11u8, 13u8, 15u8, 9u8, 11u8, 12u8, 14u8, 8u8, 10u8, 12u8, 14u8,
        8u8, 9u8, 11u8, 13u8, 7u8, 9u8, 11u8, 12u8, 7u8, 9u8, 10u8, 12u8, 7u8, 8u8, 10u8, 11u8,
        6u8, 8u8, 9u8, 11u8, 6u8, 7u8, 9u8, 10u8, 6u8, 7u8, 8u8, 9u8, 2u8, 2u8, 2u8, 2u8,
    ]
}

/// Table 9-45, `transIdxLPS[pStateIdx]`.
pub open spec fn trans_lps_table() -> Seq<u8> {
    seq![
        0u8, 0u8, 1u8, 2u8, 2u8, 4u8, 4u8, 5u8, 6u8, 7u8, 8u8, 9u8, 9u8, 11u8, 11u8, 12u8,
        13u8, 13u8, 15u8, 15u8, 16u8, 16u8, 18u8, 18u8, 19u8, 19u8, 21u8, 21u8, 22u8, 22u8, 23u8, 24u8,
        24u8, 25u8, 26u8, 26u8, 27u8, 27u8, 28u8, 29u8, 29u8, 30u8, 30u8, 30u8, 31u8, 32u8, 32u8, 33u8,
        33u8, 33u8, 34u8, 34u8, 35u8, 35u8, 35u8, 36u8, 36u8, 36u8, 37u8, 37u8, 37u8, 38u8, 38u8, 63u8,
    ]
}

/// `rangeTabLPS[p][q]`.
pub open spec fn range_lps(p: int, q: int) -> int {
    range_lps_table()[4 * p + q] as int
}

/// `transIdxLPS[p]`.
pub open spec fn trans_lps(p: int) -> int {
    trans_lps_table()[p] as int
}

/// `transIdxMPS[p]` (Table 9-45): the next state, up to 62; state 63 is
/// kept for termination.
pub open spec fn trans_mps(p: int) -> int {
    if p < 62 {
        p + 1
    } else {
        p
    }
}

fn range_lps_lookup(p: u8, q: u8) -> (r: u32)
    requires
        p < 64,
        q < 4,
    ensures
        r == range_lps(p as int, q as int),
        2 <= r <= 240,
{
    let t: [u8; 256] = [
        128, 176, 208, 240, 128, 167, 197, 227, 128, 158, 187, 216, 123, 150, 178, 205,
        116, 142, 169, 195, 111, 135, 160, 185, 105, 128, 152, 175, 100, 122, 144, 166,
        95, 116, 137, 158, 90, 110, 130, 150, 85, 104, 123, 142, 81, 99, 117, 135,
        77, 94, 111, 128, 73, 89, 105, 122, 69, 85, 100, 116, 66, 80, 95, 110,
        62, 76, 90, 104, 59, 72, 86, 99, 56, 69, 81, 94, 53, 65, 77, 89,
        51, 62, 73, 85, 48, 59, 69, 80, 46, 56, 66, 76, 43, 53, 63, 72,
        41, 50, 59, 69, 39, 48, 56, 65, 37, 45, 54, 62, 35, 43, 51, 59,
        33, 41, 48, 56, 32, 39, 46, 53, 30, 37, 43, 50, 29, 35, 41, 48,
        27, 33, 39, 45, 26, 31, 37, 43, 24, 30, 35, 41, 23, 28, 33, 39,
        22, 27, 32, 37, 21, 26, 30, 35, 20, 24, 29, 33, 19, 23, 27, 31,
        18, 22, 26, 30, 17, 21, 25, 28, 16, 20, 23, 27, 15, 19, 22, 25,
        14, 18, 21, 24, 14, 17, 20, 23, 13, 16, 19, 22, 12, 15, 18, 21,
        12, 14, 17, 20, 11, 14, 16, 19, 11, 13, 15, 18, 10, 12, 15, 17,
        10, 12, 14, 16, 9, 11, 13, 15, 9, 11, 12, 14, 8, 10, 12, 14,
        8, 9, 11, 13, 7, 9, 11, 12, 7, 9, 10, 12, 7, 8, 10, 11,
        6, 8, 9, 11, 6, 7, 9, 10, 6, 7, 8, 9, 2, 2, 2, 2,
    ];
    assert(t@ =~= range_lps_table());
    proof {
        lemma_range_lps_bounds(p as int, q as int);
    }
    t[4 * p as usize + q as usize] as u32
}

fn trans_lps_lookup(p: u8) -> (r: u8)
    requires
        p < 64,
    ensures
        r == trans_lps(p as int),
        r < 64,
{
    let t: [u8; 64] = [
        0, 0, 1, 2, 2, 4, 4, 5, 6, 7, 8, 9, 9, 11, 11, 12,
        13, 13, 15, 15, 16, 16, 18, 18, 19, 19, 21, 21, 22, 22, 23, 24,
        24, 25, 26, 26, 27, 27, 28, 29, 29, 30, 30, 30, 31, 32, 32, 33,
        33, 33, 34, 34, 35, 35, 35, 36, 36, 36, 37, 37, 37, 38, 38, 63,
    ];
    assert(t@ =~= trans_lps_table());
    proof {
        lemma_trans_lps_bounds(p as int);
    }
    t[p as usize]
}

/// Every entry of `rangeTabLPS` lies in `2..=240`.
pub proof fn lemma_range_lps_bounds(p: int, q: int)
    requires
        0 <= p < 64,
        0 <= q < 4,
    ensures
        2 <= range_lps(p, q) <= 240,
{
    assert(forall|i: int| 0 <= i < 256 ==> 2 <= #[trigger] range_lps_table()[i] <= 240) by {
        assert forall|i: int| 0 <= i < 256 implies 2 <= #[trigger] range_lps_table()[i] <= 240 by {
            assert(range_lps_table().len() == 256);
        }
    }
}

/// Every entry of `transIdxLPS` is a state.
pub proof fn lemma_trans_lps_bounds(p: int)
    requires
        0 <= p < 64,
    ensures
        0 <= trans_lps(p) < 64,
{
    assert(trans_lps_table().len() == 64);
}

/// Tables 9-44 and 9-45: for every state but the terminating one (63), the
/// LPS range grows strictly with the quarter `qCodIRangeIdx` of the
/// current range and stays below the smallest range of that quarter
/// (`256 + 64 * q`), so the MPS keeps a non-empty share; it does not grow
/// as the state (the LPS probability falling) rises; and an LPS moves the
/// state back, never forward, to a state that does not fall as the state
/// rises. The terminating state keeps the range 2 and itself.
pub proof fn lemma_state_tables_shape(p: int, q: int)
    requires
        0 <= p < 64,
        0 <= q < 4,
    ensures
        p < 63 && q < 3 ==> range_lps(p, q) < range_lps(p, q + 1),
        p < 63 ==> range_lps(p, q) < 256 + 64 * q,
        p + 1 < 63 ==> range_lps(p + 1, q) <= range_lps(p, q),
        p < 63 ==> trans_lps(p) <= p,
        0 < p < 63 ==> trans_lps(p) < p,
        p + 1 < 63 ==> trans_lps(p) <= trans_lps(p + 1),
        p == 63 ==> range_lps(p, q) == 2 && trans_lps(p) == 63,
        trans_mps(p) == (if p < 62 {
            p + 1
        } else {
            p
        }),
{
    assert(range_lps_table().len() == 256 && trans_lps_table().len() == 64);
    assert(q == 0 || q == 1 || q == 2 || q == 3);
    if p == 0 {
    } else if p == 1 {
    } else if p == 2 {
    } else if p == 3 {
    } else if p == 4 {
    } else if p == 5 {
    } else if p == 6 {
    } else if p == 7 {
    } else if p == 8 {
    } else if p == 9 {
    } else if p == 10 {
    } else if p == 11 {
    } else if p == 12 {
    } else if p == 13 {
    } else if p == 14 {
    } else if p == 15 {
    } else if p == 16 {
    } else if p == 17 {
    } else if p == 18 {
    } else if p == 19 {
    } else if p == 20 {
    } else if p == 21 {
    } else if p == 22 {
    } else if p == 23 {
    } else if p == 24 {
    } else if p == 25 {
    } else if p == 26 {
    } else if p == 27 {
    } else if p == 28 {
    } else if p == 29 {
    } else if p == 30 {
    } else if p == 31 {
    } else if p == 32 {
    } else if p == 33 {
    } else if p == 34 {
    } else if p == 35 {
    } else if p == 36 {
    } else if p == 37 {
    } else if p == 38 {
    } else if p == 39 {
    } else if p == 40 {
    } else if p == 41 {
    } else if p == 42 {
    } else if p == 43 {
    } else if p == 44 {
    } else if p == 45 {
    } else if p == 46 {
    } else if p == 47 {
    } else if p == 48 {
    } else if p == 49 {
    } else if p == 50 {
    } else if p == 51 {
    } else if p == 52 {
    } else if p == 53 {
    } else if p == 54 {
    } else if p == 55 {
    } else if p == 56 {
    } else if p == 57 {
    } else if p == 58 {
    } else if p == 59 {
    } else if p == 60 {
    } else if p == 61 {
    } else if p == 62 {
    } else if p == 63 {
    }
}

/// The state of the arithmetic decoding engine (Section 9.3.1.2):
/// `codIRange`, `codIOffset`, the number of bits read, and the context
/// variables, each `2 * pStateIdx + valMPS`.
pub struct Engine {
    pub range: int,
    pub offset: int,
    pub pos: int,
    pub ctx: Seq<u8>,
}

/// The invariant of the decoding engine between decoding steps.
pub open spec fn eng_ok(e: Engine, data: Seq<u8>) -> bool {
    &&& 256 <= e.range <= 510
    &&& 0 <= e.offset < e.range
    &&& 0 <= e.pos <= total_bits(data)
    &&& e.ctx.len() == 1024
}

/// A quantity that every decoding step decreases: bits left, then range.
pub open spec fn progress(e: Engine, data: Seq<u8>) -> int {
    (total_bits(data) - e.pos) * 512 + e.range
}

/// The number of bits that renormalisation reads at `range`.
pub open spec fn renorm_bits(range: int) -> int
    decreases 512 - range,
{
    if range <= 0 || range >= 256 {
        0
    } else {
        1 + renorm_bits(2 * range)
    }
}

/// Section 9.3.3.2.2: renormalisation doubles `codIRange`, and shifts a bit
/// of the stream into `codIOffset`, until the range is at least 256.
pub open spec fn renorm(e: Engine, data: Seq<u8>) -> Engine
    decreases 512 - e.range,
{
    if e.range <= 0 || e.range >= 256 {
        e
    } else {
        renorm(
            Engine {
                range: 2 * e.range,
                offset: 2 * e.offset + stream_bit(data, e.pos),
                pos: e.pos + 1,
                ctx: e.ctx,
            },
            data,
        )
    }
}

/// Renormalisation, when the stream holds the bits it reads.
pub open spec fn renorm_checked(e: Engine, data: Seq<u8>) -> Option<Engine> {
    if e.pos + renorm_bits(e.range) <= total_bits(data) {
        Some(renorm(e, data))
    } else {
        None
    }
}

/// Section 9.3.3.2.1 (Figure 9-3): decoding a bin with context variable
/// `ctx_idx`, its state transition (Table 9-45), and renormalisation. `None`
/// when the stream runs out.
pub open spec fn decode_decision(e: Engine, data: Seq<u8>, ctx_idx: int) -> Option<(u8, Engine)> {
    let b = e.ctx[ctx_idx] as int;
    let p = (b / 2) % 64;
    let mps = b % 2;
    let r_lps = range_lps(p, (e.range / 64) % 4);
    let r_mps = e.range - r_lps;
    let lps = e.offset >= r_mps;
    let e1 = if lps {
        Engine {
            range: r_lps,
            offset: e.offset - r_mps,
            pos: e.pos,
            ctx: e.ctx.update(
                ctx_idx,
                (2 * trans_lps(p) + if p == 0 {
                    1 - mps
                } else {
                    mps
                }) as u8,
            ),
        }
    } else {
        Engine {
            range: r_mps,
            offset: e.offset,
            pos: e.pos,
            ctx: e.ctx.update(ctx_idx, (2 * trans_mps(p) + mps) as u8),
        }
    };
    let bin = (if lps {
        1 - mps
    } else {
        mps
    }) as u8;
    match renorm_checked(e1, data) {
        Some(e2) => Some((bin, e2)),
        None => None,
    }
}

/// Section 9.3.3.2.3: decoding a bypass bin. `None` when the stream runs
/// out.
pub open spec fn decode_bypass_spec(e: Engine, data: Seq<u8>) -> Option<(u8, Engine)> {
    if e.pos < total_bits(data) {
        let o = 2 * e.offset + stream_bit(data, e.pos);
        if o >= e.range {
            Some((1u8, Engine { range: e.range, offset: o - e.range, pos: e.pos + 1, ctx: e.ctx }))
        } else {
            Some((0u8, Engine { range: e.range, offset: o, pos: e.pos + 1, ctx: e.ctx }))
        }
    } else {
        None
    }
}

/// Section 9.3.3.2.4: decoding the bin before termination. A 1 ends the
/// arithmetic code and reads nothing; a 0 renormalises. `None` when the
/// stream runs out.
pub open spec fn decode_terminate_spec(e: Engine, data: Seq<u8>) -> Option<(bool, Engine)> {
    let e1 = Engine { range: e.range - 2, offset: e.offset, pos: e.pos, ctx: e.ctx };
    if e.offset >= e.range - 2 {
        Some((true, e1))
    } else {
        match renorm_checked(e1, data) {
            Some(e2) => Some((false, e2)),
            None => None,
        }
    }
}

proof fn lemma_bit_le1(x: u8, s: u8)
    by (bit_vector)
    ensures
        (x >> s) & 1u8 <= 1u8,
{
}

/// Renormalisation leaves the range in `256..=510` and the offset below it,
/// reading `renorm_bits` bits.
pub proof fn lemma_renorm(e: Engine, data: Seq<u8>)
    requires
        2 <= e.range <= 510,
        0 <= e.offset < e.range,
    ensures
        256 <= renorm(e, data).range <= 510,
        0 <= renorm(e, data).offset < renorm(e, data).range,
        renorm(e, data).pos == e.pos + renorm_bits(e.range),
        renorm(e, data).ctx == e.ctx,
        e.range < 256 ==> renorm_bits(e.range) >= 1,
        e.range >= 256 ==> renorm(e, data) == e,
    decreases 512 - e.range,
{
    if e.range < 256 {
        lemma_bit_le1(data[e.pos / 8], (7 - e.pos % 8) as u8);
        lemma_renorm(
            Engine {
                range: 2 * e.range,
                offset: 2 * e.offset + stream_bit(data, e.pos),
                pos: e.pos + 1,
                ctx: e.ctx,
            },
            data,
        );
    }
}

/// A decoded bin is 0 or 1, keeps the engine invariant, and advances the
/// engine.
pub proof fn lemma_decision_progress(e: Engine, data: Seq<u8>, ctx_idx: int)
    requires
        eng_ok(e, data),
        0 <= ctx_idx < 1024,
    ensures
        decode_decision(e, data, ctx_idx) matches Some((b, e2)) ==> b <= 1 && eng_ok(e2, data)
            && progress(e2, data) < progress(e, data),
{
    let b = e.ctx[ctx_idx] as int;
    let p = (b / 2) % 64;
    let q = (e.range / 64) % 4;
    lemma_range_lps_bounds(p, q);
    lemma_trans_lps_bounds(p);
    let r_lps = range_lps(p, q);
    let r_mps = e.range - r_lps;
    if e.offset >= r_mps {
        let e1 = Engine {
            range: r_lps,
            offset: e.offset - r_mps,
            pos: e.pos,
            ctx: e.ctx.update(
                ctx_idx,
                (2 * trans_lps(p) + if p == 0 {
                    1 - b % 2
                } else {
                    b % 2
                }) as u8,
            ),
        };
        lemma_renorm(e1, data);
    } else {
        let e1 = Engine {
            range: r_mps,
            offset: e.offset,
            pos: e.pos,
            ctx: e.ctx.update(ctx_idx, (2 * trans_mps(p) + b % 2) as u8),
        };
        lemma_renorm(e1, data);
    }
}

/// Section 9.3.1.1, Eqs. 9-5 and 9-6: the context variable that `(m, n)`
/// initialises for slice QP `qp`, as `2 * pStateIdx + valMPS`.
pub open spec fn init_ctx_byte(m: int, n: int, qp: int) -> u8 {
    let q = clamp(qp, 0, 51);
    let pre = clamp((m * q) / 16 + n, 1, 126);
    (if pre <= 63 {
        2 * (63 - pre)
    } else {
        2 * (pre - 64) + 1
    }) as u8
}

/// Section 9.3.1.1: an initialised context takes the most probable symbol
/// 1 exactly when `preCtxState` (`((m * Clip3(0, 51, SliceQPY)) >> 4) + n`
/// clipped into `1..=126`) lies above 63, and a state that is its distance
/// from the midpoint 63.5, less a half: `2 * pStateIdx + 1 ==
/// |2 * preCtxState - 127|`, never the terminating state 63. Mirrored
/// values of `preCtxState` give the same state with opposite symbols.
pub proof fn lemma_init_ctx_shape(m: int, n: int, qp: int)
    ensures
        ({
            let pre = clamp((m * clamp(qp, 0, 51)) / 16 + n, 1, 126);
            let c = init_ctx_byte(m, n, qp);
            &&& (c % 2 == 1 <==> pre >= 64)
            &&& 2 * (c / 2) + 1 == (if 2 * pre >= 127 {
                2 * pre - 127
            } else {
                127 - 2 * pre
            })
            &&& c / 2 <= 62
        }),
        1 <= n <= 126 ==> init_ctx_byte(0, n, qp) / 2 == init_ctx_byte(0, 127 - n, qp) / 2 && init_ctx_byte(
            0,
            n,
            qp,
        ) % 2 != init_ctx_byte(0, 127 - n, qp) % 2,
{
}

/// The context variables that an initialisation table gives for slice QP
/// `qp`.
pub open spec fn init_contexts(table: Seq<(i8, i8)>, qp: int) -> Seq<u8> {
    Seq::new(1024, |i: int| init_ctx_byte(table[i].0 as int, table[i].1 as int, qp))
}

/// `v` clamped into `lo..=hi`.
pub open spec fn clamp(v: int, lo: int, hi: int) -> int {
    crate::arith::clamp(v, lo, hi)
}

/// `pos` rounded up to a whole byte.
pub open spec fn align_up(pos: int) -> int {
    if pos % 8 == 0 {
        pos
    } else {
        pos - pos % 8 + 8
    }
}

/// The result of a parsing step.
pub type ParseResult<T> = Result<T, String>;

/// The CABAC decoding state of a slice: the bit reader of its data, the
/// arithmetic decoding engine, and the 1024 context variables.
pub struct CabacContext<'a> {
    reader: BitReader<'a>,
    range: u32,
    offset: u32,
    ctx_table: Vec<u8>,
}

impl<'a> CabacContext<'a> {
    /// The slice data.
    pub closed spec fn data(&self) -> Seq<u8> {
        self.reader.data()
    }

    /// The engine state.
    pub closed spec fn eng(&self) -> Engine {
        Engine {
            range: self.range as int,
            offset: self.offset as int,
            pos: self.reader.pos(),
            ctx: self.ctx_table@,
        }
    }

    /// The reader's position lies in its data.
    pub closed spec fn reader_ok(&self) -> bool {
        self.reader.wf()
    }

    /// The reader and the engine are in a state to decode the next bin.
    pub closed spec fn wf(&self) -> bool {
        self.reader.wf() && eng_ok(self.eng(), self.data())
    }

    /// A well-formed context's engine state is in range: `codIRange` in
    /// `256..=510`, `codIOffset` below it, the read position within the
    /// stream, 1024 context variables.
    pub proof fn lemma_wf_engine(&self)
        requires
            self.wf(),
        ensures
            eng_ok(self.eng(), self.data()),
    {
    }

    /// Sections 9.3.1.1 and 9.3.1.2: context variables initialised from
    /// `init_table` (the `(m, n)` pairs of Tables 9-12 to 9-33 that the
    /// slice type and `cabac_init_idc` select) for `slice_qp_y`; then, from
    /// the next byte boundary, `codIRange = 510` and `codIOffset` read from
    /// 9 bits. Fails when fewer than 9 bits are left or the offset is 510
    /// or 511.
    pub fn new(reader: BitReader<'a>, slice_qp_y: i32, init_table: &[(i8, i8)]) -> (r: ParseResult<
        Self,
    >)
        requires
            reader.wf(),
            init_table@.len() == 1024,
        ensures
            ({
                let start = align_up(reader.pos());
                match r {
                    Ok(c) => {
                        &&& c.wf()
                        &&& c.data() == reader.data()
                        &&& c.eng() == (Engine {
                            range: 510,
                            offset: bits_value(reader.data(), start, 9) as int,
                            pos: start + 9,
                            ctx: init_contexts(init_table@, slice_qp_y as int),
                        })
                    },
                    Err(_) => start + 9 > total_bits(reader.data()) || bits_value(
                        reader.data(),
                        start,
                        9,
                    ) >= 510,
                }
            }),
    {
        let mut c = Self::new_unprimed(reader, slice_qp_y, init_table);
        let res = c.reader.u(9);
        if res.is_err() {
            return Err("CABAC: fewer than 9 bits for codIOffset".to_owned());
        }
        let v = res.unwrap();
        if v >= 510 {
            return Err("codIOffset equal to 510 or 511 is illegal".to_owned());
        }
        c.offset = v;
        Ok(c)
    }

    /// The context variables of Section 9.3.1.1 for `slice_qp_y` and the
    /// reader moved to the next byte boundary, before the decoding engine
    /// reads its first bits.
    pub fn new_unprimed(reader: BitReader<'a>, slice_qp_y: i32, init_table: &[(i8, i8)]) -> (c: Self)
        requires
            reader.wf(),
            init_table@.len() == 1024,
        ensures
            c.reader_ok(),
            c.data() == reader.data(),
            c.eng() == (Engine {
                range: 510,
                offset: 0,
                pos: align_up(reader.pos()),
                ctx: init_contexts(init_table@, slice_qp_y as int),
            }),
    {
        let qp: i32 = if slice_qp_y < 0 {
            0
        } else if slice_qp_y > 51 {
            51
        } else {
            slice_qp_y
        };
        let mut table: Vec<u8> = Vec::new();
        let mut i: usize = 0;
        while i < 1024
            invariant
                i <= 1024,
                init_table@.len() == 1024,
                0 <= qp <= 51,
                qp == clamp(slice_qp_y as int, 0, 51),
                table@.len() == i,
                forall|k: int|
                    0 <= k < i ==> #[trigger] table@[k] == init_ctx_byte(
                        init_table@[k].0 as int,
                        init_table@[k].1 as int,
                        slice_qp_y as int,
                    ),
            decreases 1024 - i,
        {
            let (m, n) = init_table[i];
            assert(-128 * 51 <= (m as i32) * qp <= 127 * 51) by (nonlinear_arith)
                requires
                    -128 <= m <= 127,
                    0 <= qp <= 51,
            ;
            let prod = (m as i32) * qp;
            proof {
                lemma_i32_shr(prod, 4);
                vstd::arithmetic::power2::lemma2_to64();
            }
            let v = (prod >> 4u32) + n as i32;
            let pre = if v < 1 {
                1
            } else if v > 126 {
                126
            } else {
                v
            };
            let byte: u8 = if pre <= 63 {
                (2 * (63 - pre)) as u8
            } else {
                (2 * (pre - 64) + 1) as u8
            };
            table.push(byte);
            i = i + 1;
        }
        assert(table@ =~= init_contexts(init_table@, slice_qp_y as int));
        let mut reader = reader;
        reader.align();
        CabacContext { reader, range: 510, offset: 0, ctx_table: table }
    }

    /// Section 9.3.3.2.2: renormalisation, bit by bit.
    fn renorm(&mut self) -> (r: ParseResult<()>)
        requires
            old(self).reader.wf(),
            2 <= old(self).range <= 510,
            old(self).offset < old(self).range,
            old(self).ctx_table@.len() == 1024,
        ensures
            final(self).data() == old(self).data(),
            match r {
                Ok(_) => renorm_checked(old(self).eng(), old(self).data()) == Some(final(self).eng())
                    && final(self).wf(),
                Err(_) => renorm_checked(old(self).eng(), old(self).data()) is None,
            },
    {
        let ghost e0 = self.eng();
        let ghost d = self.data();
        proof {
            lemma_renorm(e0, d);
        }
        while self.range < 256
            invariant
                e0 == old(self).eng(),
                d == old(self).data(),
                self.reader.wf(),
                self.data() == d,
                self.ctx_table@ == e0.ctx,
                2 <= self.range <= 510,
                self.offset < self.range,
                renorm(e0, d) == renorm(self.eng(), d),
                self.reader.pos() + renorm_bits(self.range as int) == e0.pos + renorm_bits(e0.range),
            decreases 512 - self.range,
        {
            proof {
                lemma_renorm(self.eng(), d);
            }
            let res = self.reader.read_bit();
            if res.is_err() {
                return Err("CABAC: the slice data ends inside renormalisation".to_owned());
            }
            let bit = res.unwrap();
            self.range = self.range * 2;
            self.offset = self.offset * 2 + bit;
        }
        proof {
            lemma_renorm(self.eng(), d);
        }
        Ok(())
    }

    /// Section 9.3.3.2.1: decodes a bin with context variable `ctx_idx`.
    pub fn decode_bin(&mut self, ctx_idx: usize) -> (r: ParseResult<u8>)
        requires
            old(self).wf(),
            ctx_idx < 1024,
        ensures
            final(self).data() == old(self).data(),
            match r {
                Ok(b) => decode_decision(old(self).eng(), old(self).data(), ctx_idx as int) == Some(
                    (b, final(self).eng()),
                ) && final(self).wf() && b <= 1,
                Err(_) => decode_decision(old(self).eng(), old(self).data(), ctx_idx as int) is None,
            },
    {
        let ghost e0 = self.eng();
        let b = self.ctx_table[ctx_idx];
        let p = (b / 2) % 64;
        let mps = b % 2;
        let q = ((self.range / 64) % 4) as u8;
        let r_lps = range_lps_lookup(p, q);
        let r_mps = self.range - r_lps;
        let bin;
        if self.offset >= r_mps {
            bin = 1 - mps;
            self.offset = self.offset - r_mps;
            self.range = r_lps;
            let nm = if p == 0 {
                1 - mps
            } else {
                mps
            };
            let np = trans_lps_lookup(p);
            self.ctx_table.set(ctx_idx, 2 * np + nm);
        } else {
            bin = mps;
            self.range = r_mps;
            let np = if p < 62 {
                p + 1
            } else {
                p
            };
            self.ctx_table.set(ctx_idx, 2 * np + mps);
        }
        match self.renorm() {
            Ok(()) => Ok(bin),
            Err(e) => Err(e),
        }
    }

    /// Section 9.3.3.2.3: decodes a bypass bin.
    pub fn decode_bypass(&mut self) -> (r: ParseResult<u8>)
        requires
            old(self).wf(),
        ensures
            final(self).data() == old(self).data(),
            match r {
                Ok(b) => decode_bypass_spec(old(self).eng(), old(self).data()) == Some(
                    (b, final(self).eng()),
                ) && final(self).wf(),
                Err(_) => decode_bypass_spec(old(self).eng(), old(self).data()) is None,
            },
    {
        let res = self.reader.read_bit();
        if res.is_err() {
            return Err("CABAC: the slice data ends inside a bypass bin".to_owned());
        }
        let bit = res.unwrap();
        self.offset = self.offset * 2 + bit;
        if self.offset >= self.range {
            self.offset = self.offset - self.range;
            Ok(1)
        } else {
            Ok(0)
        }
    }

    /// Section 9.3.3.2.4: decodes the bin before termination
    /// (`end_of_slice_flag`, and `I_PCM` in `mb_type`). After a 1 the
    /// arithmetic code ends: the engine is not in a state to decode more.
    pub fn decode_terminate(&mut self) -> (r: ParseResult<bool>)
        requires
            old(self).wf(),
        ensures
            final(self).data() == old(self).data(),
            match r {
                Ok(b) => decode_terminate_spec(old(self).eng(), old(self).data()) == Some(
                    (b, final(self).eng()),
                ) && (!b ==> final(self).wf()),
                Err(_) => decode_terminate_spec(old(self).eng(), old(self).data()) is None,
            },
    {
        self.range = self.range - 2;
        if self.offset >= self.range {
            Ok(true)
        } else {
            match self.renorm() {
                Ok(()) => Ok(false),
                Err(e) => Err(e),
            }
        }
    }

    /// `codIOffset`.
    pub fn offset(&self) -> (o: u32)
        ensures
            o == self.eng().offset,
    {
        self.offset
    }

    /// The next `n` bits (`1 <= n <= 32`) of the slice data, outside the
    /// arithmetic code.
    pub fn read_bits(&mut self, n: u32) -> (r: ParseResult<u32>)
        requires
            old(self).reader_ok(),
            n <= 32,
        ensures
            final(self).reader_ok(),
            final(self).data() == old(self).data(),
            match r {
                Ok(v) => v == bits_value(old(self).data(), old(self).eng().pos, n as nat)
                    && final(self).eng().pos == old(self).eng().pos + n,
                Err(_) => old(self).eng().pos + n > total_bits(old(self).data()),
            },
    {
        self.reader.u(n)
    }
}


/// Table 9-43: `ctxIdxInc` of `significant_coeff_flag` in frame-coded 8x8
/// blocks, by scanning position.
pub open spec fn sig8_table() -> Seq<u8> {
    seq![
        0u8, 1u8, 2u8, 3u8, 4u8, 5u8, 5u8, 4u8, 4u8, 3u8, 3u8, 4u8, 4u8, 4u8, 5u8, 5u8,
        4u8, 4u8, 4u8, 4u8, 3u8, 3u8, 6u8, 7u8, 7u8, 7u8, 8u8, 9u8, 10u8, 9u8, 8u8, 7u8,
        7u8, 6u8, 11u8, 12u8, 13u8, 11u8, 6u8, 7u8, 8u8, 9u8, 14u8, 10u8, 9u8, 8u8, 6u8, 11u8,
        12u8, 13u8, 11u8, 6u8, 9u8, 14u8, 10u8, 9u8, 11u8, 12u8, 13u8, 11u8, 14u8, 10u8, 12u8,
    ]
}

/// Table 9-43: `ctxIdxInc` of `last_significant_coeff_flag` in 8x8 blocks,
/// by scanning position.
pub open spec fn last8_table() -> Seq<u8> {
    seq![
        0u8, 1u8, 1u8, 1u8, 1u8, 1u8, 1u8, 1u8, 1u8, 1u8, 1u8, 1u8, 1u8, 1u8, 1u8, 1u8,
        2u8, 2u8, 2u8, 2u8, 2u8, 2u8, 2u8, 2u8, 2u8, 2u8, 2u8, 2u8, 2u8, 2u8, 2u8, 2u8,
        3u8, 3u8, 3u8, 3u8, 3u8, 3u8, 3u8, 3u8, 4u8, 4u8, 4u8, 4u8, 4u8, 4u8, 4u8, 4u8,
        5u8, 5u8, 5u8, 5u8, 6u8, 6u8, 6u8, 6u8, 7u8, 7u8, 7u8, 7u8, 8u8, 8u8, 8u8,
    ]
}

fn sig8_lookup(pos: usize) -> (r: usize)
    requires
        pos < 63,
    ensures
        r == sig8_table()[pos as int],
{
    let t: [u8; 63] = [
        0, 1, 2, 3, 4, 5, 5, 4, 4, 3, 3, 4, 4, 4, 5, 5,
        4, 4, 4, 4, 3, 3, 6, 7, 7, 7, 8, 9, 10, 9, 8, 7,
        7, 6, 11, 12, 13, 11, 6, 7, 8, 9, 14, 10, 9, 8, 6, 11,
        12, 13, 11, 6, 9, 14, 10, 9, 11, 12, 13, 11, 14, 10, 12,
    ];
    assert(t@ =~= sig8_table());
    t[pos] as usize
}

fn last8_lookup(pos: usize) -> (r: usize)
    requires
        pos < 63,
    ensures
        r == last8_table()[pos as int],
{
    let t: [u8; 63] = [
        0, 1, 1, 1, 1, 1, 1, 1, 1, 1, 1, 1, 1, 1, 1, 1,
        2, 2, 2, 2, 2, 2, 2, 2, 2, 2, 2, 2, 2, 2, 2, 2,
        3, 3, 3, 3, 3, 3, 3, 3, 4, 4, 4, 4, 4, 4, 4, 4,
        5, 5, 5, 5, 6, 6, 6, 6, 7, 7, 7, 7, 8, 8, 8,
    ];
    assert(t@ =~= last8_table());
    t[pos] as usize
}

/// The syntax elements that CABAC decodes (Table 9-34).
#[derive(Debug, Clone, Copy, PartialEq, Eq, Structural)]
pub enum SyntaxElement {
    MbTypeSI,
    MbTypeI,
    MbTypeISuffix,
    MbSkipFlagP,
    MbTypeP,
    SubMbTypeP,
    MbSkipFlagB,
    MbTypeB,
    SubMbTypeB,
    /// `mvd_lX[][][comp]`: list index, component index.
    Mvd(usize, usize),
    /// `ref_idx_lX`: list index.
    RefIdx(usize),
    MbQpDelta,
    IntraChromaPredMode,
    PrevIntra4x4PredModeFlag,
    RemIntra4x4PredMode,
    MbFieldDecodingFlag,
    CodedBlockPattern,
    /// By `ctxBlockCat`.
    CodedBlockFlag(usize),
    /// By `ctxBlockCat`.
    SignificantCoeffFlag(usize),
    /// By `ctxBlockCat`.
    LastSignificantCoeffFlag(usize),
    /// By `ctxBlockCat`.
    CoeffAbsLevelMinus1(usize),
    EndOfSliceFlag,
    TransformSize8x8Flag,
}

/// Binarizations of Section 9.3.2.
#[derive(Debug, Clone, Copy, PartialEq, Eq, Structural)]
pub enum BinarizationType {
    /// Fixed length.
    FL { c_max: u32 },
    /// Unary.
    U,
    /// Truncated unary.
    TU { c_max: u32 },
    /// Concatenated unary / k-th order Exp-Golomb.
    UEGk { k: u32, signed_val_flag: bool, u_coff: u32 },
    /// A prefix and a suffix (`mb_type`, `coded_block_pattern`).
    PrefixSuffix,
    /// A binarization tree of its own (Tables 9-36 to 9-38).
    Custom,
}

/// A row of Table 9-34: binarization, `maxBinIdxCtx` and `ctxIdxOffset`,
/// and those of a suffix where the element has one.
#[derive(Debug, Clone, Copy, PartialEq, Eq, Structural)]
pub struct CabacTableEntry {
    pub binarization: BinarizationType,
    pub max_bin_idx_ctx: u32,
    pub ctx_idx_offset: u32,
    pub max_bin_idx_ctx_suffix: Option<u32>,
    pub ctx_idx_offset_suffix: Option<u32>,
}

/// `ctxIdxOffset + ctxBlockCatOffset` of `coded_block_flag` (Tables 9-34,
/// 9-40) for `ctxBlockCat` `cat`; 85 past the table.
pub open spec fn cbf_offset(cat: int) -> int {
    if cat <= 4 {
        85 + 4 * cat
    } else if cat == 5 {
        1012
    } else if cat <= 8 {
        460 + 4 * (cat - 6)
    } else if cat == 9 {
        1016
    } else if cat <= 12 {
        472 + 4 * (cat - 10)
    } else if cat == 13 {
        1020
    } else {
        85
    }
}

/// `ctxBlockCatOffset` of the significance maps and of
/// `coeff_abs_level_minus1` for the blocks of one colour component: the
/// offsets of categories 0 to 4 (Table 9-40).
pub open spec fn cat_offset(cat: int, sig: bool) -> int {
    if cat == 0 {
        0
    } else if cat == 1 {
        if sig {
            15
        } else {
            10
        }
    } else if cat == 2 {
        if sig {
            29
        } else {
            20
        }
    } else if cat == 3 {
        if sig {
            44
        } else {
            30
        }
    } else {
        if sig {
            47
        } else {
            39
        }
    }
}

/// `ctxIdxOffset + ctxBlockCatOffset` of `significant_coeff_flag` in frame
/// coded macroblocks (Tables 9-34, 9-40); 105 past the table.
pub open spec fn sig_offset(cat: int) -> int {
    if cat <= 4 {
        105 + cat_offset(cat, true)
    } else if cat == 5 {
        402
    } else if cat <= 8 {
        484 + cat_offset(cat - 6, true)
    } else if cat == 9 {
        660
    } else if cat <= 12 {
        528 + cat_offset(cat - 10, true)
    } else if cat == 13 {
        718
    } else {
        105
    }
}

/// `ctxIdxOffset + ctxBlockCatOffset` of `last_significant_coeff_flag` in
/// frame coded macroblocks; 166 past the table.
pub open spec fn last_offset(cat: int) -> int {
    if cat <= 4 {
        166 + cat_offset(cat, true)
    } else if cat == 5 {
        417
    } else if cat <= 8 {
        572 + cat_offset(cat - 6, true)
    } else if cat == 9 {
        690
    } else if cat <= 12 {
        616 + cat_offset(cat - 10, true)
    } else if cat == 13 {
        748
    } else {
        166
    }
}

/// `ctxIdxOffset + ctxBlockCatOffset` of `coeff_abs_level_minus1`; 227
/// past the table.
pub open spec fn abs_offset(cat: int) -> int {
    if cat <= 4 {
        227 + cat_offset(cat, false)
    } else if cat == 5 {
        426
    } else if cat <= 8 {
        952 + cat_offset(cat - 6, false)
    } else if cat == 9 {
        708
    } else if cat <= 12 {
        982 + cat_offset(cat - 10, false)
    } else if cat == 13 {
        766
    } else {
        227
    }
}

fn cat_offset_exec(cat: usize, sig: bool) -> (o: u32)
    requires
        cat <= 4,
    ensures
        o == cat_offset(cat as int, sig),
{
    match cat {
        0 => 0,
        1 => if sig {
            15
        } else {
            10
        },
        2 => if sig {
            29
        } else {
            20
        },
        3 => if sig {
            44
        } else {
            30
        },
        _ => if sig {
            47
        } else {
            39
        },
    }
}

/// An entry with one binarization and context range and no suffix.
pub open spec fn plain(b: BinarizationType, max_bin_idx_ctx: u32, ctx_idx_offset: int) -> CabacTableEntry {
    CabacTableEntry {
        binarization: b,
        max_bin_idx_ctx,
        ctx_idx_offset: ctx_idx_offset as u32,
        max_bin_idx_ctx_suffix: None,
        ctx_idx_offset_suffix: None,
    }
}

/// Table 9-34 for frame coded slices: the row of each syntax element.
pub open spec fn spec_props(se: SyntaxElement) -> CabacTableEntry {
    match se {
        SyntaxElement::MbTypeSI => CabacTableEntry {
            binarization: BinarizationType::PrefixSuffix,
            max_bin_idx_ctx: 0,
            ctx_idx_offset: 0,
            max_bin_idx_ctx_suffix: Some(6),
            ctx_idx_offset_suffix: Some(3),
        },
        SyntaxElement::MbTypeI => plain(BinarizationType::Custom, 6, 3),
        SyntaxElement::MbTypeISuffix => plain(BinarizationType::Custom, 6, 17),
        SyntaxElement::MbSkipFlagP => plain(BinarizationType::FL { c_max: 1 }, 0, 11),
        SyntaxElement::MbTypeP => CabacTableEntry {
            binarization: BinarizationType::PrefixSuffix,
            max_bin_idx_ctx: 2,
            ctx_idx_offset: 14,
            max_bin_idx_ctx_suffix: Some(5),
            ctx_idx_offset_suffix: Some(17),
        },
        SyntaxElement::SubMbTypeP => plain(BinarizationType::Custom, 2, 21),
        SyntaxElement::MbSkipFlagB => plain(BinarizationType::FL { c_max: 1 }, 0, 24),
        SyntaxElement::MbTypeB => CabacTableEntry {
            binarization: BinarizationType::PrefixSuffix,
            max_bin_idx_ctx: 3,
            ctx_idx_offset: 27,
            max_bin_idx_ctx_suffix: Some(5),
            ctx_idx_offset_suffix: Some(32),
        },
        SyntaxElement::SubMbTypeB => plain(BinarizationType::Custom, 3, 36),
        SyntaxElement::Mvd(_, comp) => plain(
            BinarizationType::UEGk { k: 3, signed_val_flag: true, u_coff: 9 },
            4,
            if comp == 0 {
                40
            } else {
                47
            },
        ),
        SyntaxElement::RefIdx(_) => plain(BinarizationType::U, 2, 54),
        SyntaxElement::MbQpDelta => plain(BinarizationType::Custom, 2, 60),
        SyntaxElement::IntraChromaPredMode => plain(BinarizationType::TU { c_max: 3 }, 1, 64),
        SyntaxElement::PrevIntra4x4PredModeFlag => plain(BinarizationType::FL { c_max: 1 }, 0, 68),
        SyntaxElement::MbFieldDecodingFlag => plain(BinarizationType::FL { c_max: 1 }, 0, 70),
        SyntaxElement::RemIntra4x4PredMode => plain(BinarizationType::FL { c_max: 7 }, 0, 69),
        SyntaxElement::CodedBlockPattern => CabacTableEntry {
            binarization: BinarizationType::PrefixSuffix,
            max_bin_idx_ctx: 3,
            ctx_idx_offset: 73,
            max_bin_idx_ctx_suffix: Some(1),
            ctx_idx_offset_suffix: Some(77),
        },
        SyntaxElement::CodedBlockFlag(cat) => plain(BinarizationType::FL { c_max: 1 }, 0, cbf_offset(cat as int)),
        SyntaxElement::SignificantCoeffFlag(cat) => plain(
            BinarizationType::FL { c_max: 1 },
            0,
            sig_offset(cat as int),
        ),
        SyntaxElement::LastSignificantCoeffFlag(cat) => plain(
            BinarizationType::FL { c_max: 1 },
            0,
            last_offset(cat as int),
        ),
        SyntaxElement::CoeffAbsLevelMinus1(cat) => plain(
            BinarizationType::UEGk { k: 0, signed_val_flag: false, u_coff: 14 },
            1,
            abs_offset(cat as int),
        ),
        SyntaxElement::EndOfSliceFlag => plain(BinarizationType::FL { c_max: 1 }, 0, 276),
        SyntaxElement::TransformSize8x8Flag => plain(BinarizationType::FL { c_max: 1 }, 0, 399),
    }
}

fn entry(b: BinarizationType, max_bin_idx_ctx: u32, ctx_idx_offset: u32) -> (e: CabacTableEntry)
    ensures
        e == plain(b, max_bin_idx_ctx, ctx_idx_offset as int),
{
    CabacTableEntry {
        binarization: b,
        max_bin_idx_ctx,
        ctx_idx_offset,
        max_bin_idx_ctx_suffix: None,
        ctx_idx_offset_suffix: None,
    }
}

/// Table 9-34 for frame coded slices: binarization, `maxBinIdxCtx` and
/// `ctxIdxOffset` of a syntax element.
pub fn get_syntax_element_properties(se: SyntaxElement) -> (e: CabacTableEntry)
    ensures
        e == spec_props(se),
{
    match se {
        SyntaxElement::MbTypeSI => CabacTableEntry {
            binarization: BinarizationType::PrefixSuffix,
            max_bin_idx_ctx: 0,
            ctx_idx_offset: 0,
            max_bin_idx_ctx_suffix: Some(6),
            ctx_idx_offset_suffix: Some(3),
        },
        SyntaxElement::MbTypeI => entry(BinarizationType::Custom, 6, 3),
        SyntaxElement::MbTypeISuffix => entry(BinarizationType::Custom, 6, 17),
        SyntaxElement::MbSkipFlagP => entry(BinarizationType::FL { c_max: 1 }, 0, 11),
        SyntaxElement::MbTypeP => CabacTableEntry {
            binarization: BinarizationType::PrefixSuffix,
            max_bin_idx_ctx: 2,
            ctx_idx_offset: 14,
            max_bin_idx_ctx_suffix: Some(5),
            ctx_idx_offset_suffix: Some(17),
        },
        SyntaxElement::SubMbTypeP => entry(BinarizationType::Custom, 2, 21),
        SyntaxElement::MbSkipFlagB => entry(BinarizationType::FL { c_max: 1 }, 0, 24),
        SyntaxElement::MbTypeB => CabacTableEntry {
            binarization: BinarizationType::PrefixSuffix,
            max_bin_idx_ctx: 3,
            ctx_idx_offset: 27,
            max_bin_idx_ctx_suffix: Some(5),
            ctx_idx_offset_suffix: Some(32),
        },
        SyntaxElement::SubMbTypeB => entry(BinarizationType::Custom, 3, 36),
        SyntaxElement::Mvd(_, comp) => entry(
            BinarizationType::UEGk { k: 3, signed_val_flag: true, u_coff: 9 },
            4,
            if comp == 0 {
                40
            } else {
                47
            },
        ),
        SyntaxElement::RefIdx(_) => entry(BinarizationType::U, 2, 54),
        SyntaxElement::MbQpDelta => entry(BinarizationType::Custom, 2, 60),
        SyntaxElement::IntraChromaPredMode => entry(BinarizationType::TU { c_max: 3 }, 1, 64),
        SyntaxElement::PrevIntra4x4PredModeFlag => entry(BinarizationType::FL { c_max: 1 }, 0, 68),
        SyntaxElement::MbFieldDecodingFlag => entry(BinarizationType::FL { c_max: 1 }, 0, 70),
        SyntaxElement::RemIntra4x4PredMode => entry(BinarizationType::FL { c_max: 7 }, 0, 69),
        SyntaxElement::CodedBlockPattern => CabacTableEntry {
            binarization: BinarizationType::PrefixSuffix,
            max_bin_idx_ctx: 3,
            ctx_idx_offset: 73,
            max_bin_idx_ctx_suffix: Some(1),
            ctx_idx_offset_suffix: Some(77),
        },
        SyntaxElement::CodedBlockFlag(cat) => {
            let o: u32 = if cat <= 4 {
                85 + 4 * cat as u32
            } else if cat == 5 {
                1012
            } else if cat <= 8 {
                460 + 4 * (cat as u32 - 6)
            } else if cat == 9 {
                1016
            } else if cat <= 12 {
                472 + 4 * (cat as u32 - 10)
            } else if cat == 13 {
                1020
            } else {
                85
            };
            entry(BinarizationType::FL { c_max: 1 }, 0, o)
        },
        SyntaxElement::SignificantCoeffFlag(cat) => {
            let o: u32 = if cat <= 4 {
                105 + cat_offset_exec(cat, true)
            } else if cat == 5 {
                402
            } else if cat <= 8 {
                484 + cat_offset_exec(cat - 6, true)
            } else if cat == 9 {
                660
            } else if cat <= 12 {
                528 + cat_offset_exec(cat - 10, true)
            } else if cat == 13 {
                718
            } else {
                105
            };
            entry(BinarizationType::FL { c_max: 1 }, 0, o)
        },
        SyntaxElement::LastSignificantCoeffFlag(cat) => {
            let o: u32 = if cat <= 4 {
                166 + cat_offset_exec(cat, true)
            } else if cat == 5 {
                417
            } else if cat <= 8 {
                572 + cat_offset_exec(cat - 6, true)
            } else if cat == 9 {
                690
            } else if cat <= 12 {
                616 + cat_offset_exec(cat - 10, true)
            } else if cat == 13 {
                748
            } else {
                166
            };
            entry(BinarizationType::FL { c_max: 1 }, 0, o)
        },
        SyntaxElement::CoeffAbsLevelMinus1(cat) => {
            let o: u32 = if cat <= 4 {
                227 + cat_offset_exec(cat, false)
            } else if cat == 5 {
                426
            } else if cat <= 8 {
                952 + cat_offset_exec(cat - 6, false)
            } else if cat == 9 {
                708
            } else if cat <= 12 {
                982 + cat_offset_exec(cat - 10, false)
            } else if cat == 13 {
                766
            } else {
                227
            };
            entry(BinarizationType::UEGk { k: 0, signed_val_flag: false, u_coff: 14 }, 1, o)
        },
        SyntaxElement::EndOfSliceFlag => entry(BinarizationType::FL { c_max: 1 }, 0, 276),
        SyntaxElement::TransformSize8x8Flag => entry(BinarizationType::FL { c_max: 1 }, 0, 399),
    }
}

/// Every context index that Table 9-34 gives lies below 1024.
pub proof fn lemma_props_offset(se: SyntaxElement)
    ensures
        spec_props(se).ctx_idx_offset <= 1020,
        spec_props(se).max_bin_idx_ctx <= 6,
{
}

/// Section 9.3.3.1.3: `ctxIdxInc` of `significant_coeff_flag` at scanning
/// position `pos` of a block of category `cat` (frame coded).
pub open spec fn spec_sig_inc(cat: int, pos: int) -> int {
    if cat == 3 {
        if pos < 2 {
            pos
        } else {
            2
        }
    } else if cat == 5 || cat == 9 || cat == 13 {
        sig8_table()[pos] as int
    } else {
        pos
    }
}

/// Section 9.3.3.1.3: `ctxIdxInc` of `last_significant_coeff_flag`.
pub open spec fn spec_last_inc(cat: int, pos: int) -> int {
    if cat == 3 {
        if pos < 2 {
            pos
        } else {
            2
        }
    } else if cat == 5 || cat == 9 || cat == 13 {
        last8_table()[pos] as int
    } else {
        pos
    }
}

/// Section 9.3.3.1.3: `ctxIdxInc` of bin `bin_idx` of
/// `coeff_abs_level_minus1` after `gt1` decoded levels greater than 1 and
/// `eq1` equal to 1.
pub open spec fn spec_abs_inc(cat: int, bin_idx: int, gt1: int, eq1: int) -> int {
    if bin_idx == 0 {
        if gt1 != 0 {
            0
        } else if 1 + eq1 < 4 {
            1 + eq1
        } else {
            4
        }
    } else {
        let limit = if cat == 3 {
            3
        } else {
            4
        };
        5 + if gt1 < limit {
            gt1
        } else {
            limit
        }
    }
}

/// Parameters of the `ctxIdxInc` derivation of a bin (Table 9-39 and
/// Section 9.3.3.1).
#[derive(Clone, Copy, Debug, PartialEq, Eq, Structural)]
pub enum CtxIncParams {
    /// The `ctxIdxInc` of bin 0, derived from the neighbouring blocks; later
    /// bins have fixed increments.
    Standard(usize),
    /// `coeff_abs_level_minus1`: the numbers of decoded levels greater than
    /// 1 and equal to 1.
    AbsLevel { gt1: usize, eq1: usize },
    /// `mb_type` and `sub_mb_type` bins that depend on an earlier bin.
    MbType { prior: u8 },
}

impl<'a> CabacContext<'a> {
    /// Section 9.3.3.1.1.8: `ctxIdxInc` of `intra_chroma_pred_mode`.
    pub fn get_ctx_idx_inc_intra_chroma_pred_mode(a: Option<NeighborMb>, b: Option<NeighborMb>) -> (inc: usize)
        ensures
            inc == cond_chroma_mode(a) + cond_chroma_mode(b),
    {
        let fa = match a {
            Some(m) => !m.pcm && m.intra_chroma_pred_mode != 0,
            None => false,
        };
        let fb = match b {
            Some(m) => !m.pcm && m.intra_chroma_pred_mode != 0,
            None => false,
        };
        flag(fa) + flag(fb)
    }

    /// Section 9.3.3.1.1.3: `ctxIdxInc` of bin 0 of `mb_type` in I slices.
    pub fn get_ctx_idx_inc_mb_type_i(a: Option<NeighborMb>, b: Option<NeighborMb>) -> (inc: usize)
        ensures
            inc == cond_not_nxn(a) + cond_not_nxn(b),
    {
        let fa = match a {
            Some(m) => !m.intra_nxn,
            None => false,
        };
        let fb = match b {
            Some(m) => !m.intra_nxn,
            None => false,
        };
        flag(fa) + flag(fb)
    }

    /// Section 9.3.3.1.1.5: `ctxIdxInc` of `mb_qp_delta`, from the macroblock
    /// before `mb_addr` in decoding order (`prev`, `None` when it was not
    /// decoded). It is 0 for the first macroblock of the slice.
    pub fn get_ctx_idx_inc_mb_qp_delta(mb_addr: usize, first_mb_in_slice: usize, prev: Option<NeighborMb>) -> (inc:
        usize)
        ensures
            inc == if mb_addr <= first_mb_in_slice {
                0
            } else {
                spec_qp_delta_inc(prev)
            },
    {
        if mb_addr <= first_mb_in_slice {
            return 0;
        }
        match prev {
            None => 0,
            Some(m) => {
                if m.skipped || m.pcm {
                    return 0;
                }
                if !m.intra_16x16 && m.cbp_luma == 0 && m.cbp_chroma == 0 {
                    return 0;
                }
                if m.mb_qp_delta == 0 {
                    0
                } else {
                    1
                }
            },
        }
    }

    /// Section 9.3.3.1.1.1: `ctxIdxInc` of `mb_skip_flag`: the number of
    /// available, non-skipped neighbours A (left) and B (above).
    pub fn get_ctx_idx_inc_mb_skip_flag(a: Option<NeighborMb>, b: Option<NeighborMb>) -> (inc: usize)
        ensures
            inc == cond_not_skipped(a) + cond_not_skipped(b),
    {
        let fa = match a {
            Some(m) => !m.skipped,
            None => false,
        };
        let fb = match b {
            Some(m) => !m.skipped,
            None => false,
        };
        flag(fa) + flag(fb)
    }

    /// Section 9.3.3.1.3: `ctxIdxInc` of bin `bin_idx` of
    /// `coeff_abs_level_minus1`.
    pub fn get_ctx_idx_inc_abs_level(
        ctx_block_cat: usize,
        bin_idx: u32,
        num_decod_abs_level_gt1: usize,
        num_decod_abs_level_eq1: usize,
    ) -> (inc: usize)
        ensures
            inc == spec_abs_inc(
                ctx_block_cat as int,
                bin_idx as int,
                num_decod_abs_level_gt1 as int,
                num_decod_abs_level_eq1 as int,
            ),
            inc <= 9,
    {
        if bin_idx == 0 {
            if num_decod_abs_level_gt1 != 0 {
                0
            } else if num_decod_abs_level_eq1 < 3 {
                1 + num_decod_abs_level_eq1
            } else {
                4
            }
        } else {
            let limit: usize = if ctx_block_cat == 3 {
                3
            } else {
                4
            };
            5 + if num_decod_abs_level_gt1 < limit {
                num_decod_abs_level_gt1
            } else {
                limit
            }
        }
    }

    /// Section 9.3.3.1.3: `ctxIdxInc` of `last_significant_coeff_flag` at
    /// scanning position `scanning_pos` of a block of category
    /// `ctx_block_cat`.
    pub fn get_ctx_idx_inc_last_sig_coeff_flag(ctx_block_cat: usize, scanning_pos: usize) -> (inc: usize)
        requires
            (ctx_block_cat == 5 || ctx_block_cat == 9 || ctx_block_cat == 13) ==> scanning_pos < 63,
        ensures
            inc == spec_last_inc(ctx_block_cat as int, scanning_pos as int),
    {
        if ctx_block_cat == 3 {
            if scanning_pos < 2 {
                scanning_pos
            } else {
                2
            }
        } else if ctx_block_cat == 5 || ctx_block_cat == 9 || ctx_block_cat == 13 {
            last8_lookup(scanning_pos)
        } else {
            scanning_pos
        }
    }

    /// Section 9.3.3.1.3: `ctxIdxInc` of `significant_coeff_flag` at scanning
    /// position `scanning_pos` of a block of category `ctx_block_cat`.
    pub fn get_ctx_idx_inc_sig_coeff_flag(ctx_block_cat: usize, scanning_pos: usize) -> (inc: usize)
        requires
            (ctx_block_cat == 5 || ctx_block_cat == 9 || ctx_block_cat == 13) ==> scanning_pos < 63,
        ensures
            inc == spec_sig_inc(ctx_block_cat as int, scanning_pos as int),
    {
        if ctx_block_cat == 3 {
            if scanning_pos < 2 {
                scanning_pos
            } else {
                2
            }
        } else if ctx_block_cat == 5 || ctx_block_cat == 9 || ctx_block_cat == 13 {
            sig8_lookup(scanning_pos)
        } else {
            scanning_pos
        }
    }

}

/// `get_ctx_idx_inc` is defined for these syntax elements, bins and
/// parameters (Table 9-39).
pub open spec fn ctx_inc_defined(se: SyntaxElement, bin_idx: int, ctx: CtxIncParams) -> bool {
    match ctx {
        CtxIncParams::Standard(_) => match se {
            SyntaxElement::MbQpDelta | SyntaxElement::RefIdx(_) | SyntaxElement::Mvd(_, _)
            | SyntaxElement::IntraChromaPredMode => true,
            SyntaxElement::MbTypeI | SyntaxElement::MbTypeISuffix | SyntaxElement::MbTypeB => bin_idx
                == 0,
            SyntaxElement::MbTypeP => bin_idx == 0 || bin_idx == 1,
            SyntaxElement::SubMbTypeB => 0 <= bin_idx <= 3,
            _ => false,
        },
        CtxIncParams::AbsLevel { .. } => se is CoeffAbsLevelMinus1,
        CtxIncParams::MbType { .. } => match se {
            SyntaxElement::MbTypeI | SyntaxElement::MbTypeISuffix => 2 <= bin_idx <= 6,
            SyntaxElement::MbTypeP => bin_idx == 2,
            SyntaxElement::MbTypeB => 1 <= bin_idx <= 3,
            _ => false,
        },
    }
}

/// Table 9-39: `ctxIdxInc` of bin `bin_idx` of `se`.
pub open spec fn spec_ctx_inc(se: SyntaxElement, bin_idx: int, ctx: CtxIncParams) -> int {
    match ctx {
        CtxIncParams::Standard(initial) => match se {
            SyntaxElement::MbQpDelta => if bin_idx == 0 {
                initial as int
            } else if bin_idx == 1 {
                2
            } else {
                3
            },
            SyntaxElement::RefIdx(_) => if bin_idx == 0 {
                initial as int
            } else if bin_idx == 1 {
                4
            } else {
                5
            },
            SyntaxElement::Mvd(_, _) => if bin_idx == 0 {
                initial as int
            } else if bin_idx + 2 < 6 {
                bin_idx + 2
            } else {
                6
            },
            SyntaxElement::IntraChromaPredMode => if bin_idx == 0 {
                initial as int
            } else {
                3
            },
            SyntaxElement::MbTypeP | SyntaxElement::SubMbTypeB => bin_idx,
            _ => initial as int,
        },
        CtxIncParams::AbsLevel { gt1, eq1 } => match se {
            SyntaxElement::CoeffAbsLevelMinus1(cat) => spec_abs_inc(cat as int, bin_idx, gt1 as int, eq1 as int),
            _ => 0,
        },
        CtxIncParams::MbType { prior } => match se {
            SyntaxElement::MbTypeI => if bin_idx == 2 {
                3
            } else if bin_idx == 3 {
                4
            } else if bin_idx == 4 {
                if prior == 0 {
                    6
                } else {
                    5
                }
            } else if bin_idx == 5 {
                if prior == 0 {
                    7
                } else {
                    6
                }
            } else {
                7
            },
            SyntaxElement::MbTypeP => if prior == 1 {
                3
            } else {
                2
            },
            SyntaxElement::MbTypeISuffix => if bin_idx == 2 {
                1
            } else if bin_idx == 3 {
                2
            } else if bin_idx == 4 {
                if prior == 0 {
                    3
                } else {
                    2
                }
            } else {
                3
            },
            _ => if bin_idx == 1 {
                3
            } else if bin_idx == 2 {
                if prior != 0 {
                    4
                } else {
                    5
                }
            } else {
                5
            },
        },
    }
}




/// Table 9-39: `ctxIdxInc` of bin `bin_idx` of `se`.
pub fn get_ctx_idx_inc(se: SyntaxElement, bin_idx: u32, ctx: CtxIncParams) -> (inc: usize)
    requires
        ctx_inc_defined(se, bin_idx as int, ctx),
    ensures
        inc == spec_ctx_inc(se, bin_idx as int, ctx),
{
    match ctx {
        CtxIncParams::Standard(initial) => match se {
            SyntaxElement::MbQpDelta => if bin_idx == 0 {
                initial
            } else if bin_idx == 1 {
                2
            } else {
                3
            },
            SyntaxElement::RefIdx(_) => if bin_idx == 0 {
                initial
            } else if bin_idx == 1 {
                4
            } else {
                5
            },
            SyntaxElement::Mvd(_, _) => if bin_idx == 0 {
                initial
            } else if bin_idx < 4 {
                bin_idx as usize + 2
            } else {
                6
            },
            SyntaxElement::IntraChromaPredMode => if bin_idx == 0 {
                initial
            } else {
                3
            },
            SyntaxElement::MbTypeP | SyntaxElement::SubMbTypeB => bin_idx as usize,
            _ => initial,
        },
        CtxIncParams::AbsLevel { gt1, eq1 } => match se {
            SyntaxElement::CoeffAbsLevelMinus1(cat) => CabacContext::get_ctx_idx_inc_abs_level(cat, bin_idx, gt1, eq1),
            _ => 0,
        },
        CtxIncParams::MbType { prior } => match se {
            SyntaxElement::MbTypeI => if bin_idx == 2 {
                3
            } else if bin_idx == 3 {
                4
            } else if bin_idx == 4 {
                if prior == 0 {
                    6
                } else {
                    5
                }
            } else if bin_idx == 5 {
                if prior == 0 {
                    7
                } else {
                    6
                }
            } else {
                7
            },
            SyntaxElement::MbTypeP => if prior == 1 {
                3
            } else {
                2
            },
            SyntaxElement::MbTypeISuffix => if bin_idx == 2 {
                1
            } else if bin_idx == 3 {
                2
            } else if bin_idx == 4 {
                if prior == 0 {
                    3
                } else {
                    2
                }
            } else {
                3
            },
            _ => if bin_idx == 1 {
                3
            } else if bin_idx == 2 {
                if prior != 0 {
                    4
                } else {
                    5
                }
            } else {
                5
            },
        },
    }
}

/// Table 9-3: the signed value that an unsigned code `val` maps to: 0, 1,
/// -1, 2, -2, ...
pub open spec fn spec_signed_mapping(val: int) -> int {
    if val == 0 {
        0
    } else if val % 2 == 0 {
        -(val / 2)
    } else {
        (val + 1) / 2
    }
}

/// `val` read as a two's complement `i32`.
pub open spec fn as_i32(val: u32) -> int {
    if val < 0x8000_0000 {
        val as int
    } else {
        val - 0x1_0000_0000
    }
}

/// Table 9-3: maps a decoded unsigned value back to a signed one (the
/// value is first read as an `i32`).
pub fn decode_signed_mapping(val: u32) -> (r: i32)
    requires
        val != 0x7FFF_FFFF,
    ensures
        r == spec_signed_mapping(as_i32(val)),
{
    if val == 0 {
        0
    } else if val % 2 == 0 {
        if val < 0x8000_0000 {
            -((val / 2) as i32)
        } else {
            ((u32::MAX - val + 1) / 2) as i32
        }
    } else {
        if val < 0x8000_0000 {
            ((val / 2) + 1) as i32
        } else {
            -(((u32::MAX - val) / 2) as i32)
        }
    }
}

/// Every bin of `se` that has a context of its own (`binIdx <=
/// maxBinIdxCtx`) has a defined `ctxIdxInc`, and its context index lies
/// below 1024.
pub open spec fn bins_ok(se: SyntaxElement, ctx: CtxIncParams, props: CabacTableEntry) -> bool {
    forall|b: int|
        0 <= b <= props.max_bin_idx_ctx ==> #[trigger] ctx_inc_defined(se, b, ctx)
            && props.ctx_idx_offset + spec_ctx_inc(se, b, ctx) < 1024
}

/// The context index of bin `bin` of `se`: bins past `maxBinIdxCtx` use
/// the context of bin `maxBinIdxCtx` (Section 9.3.3.1).
pub open spec fn bin_ctx_idx(se: SyntaxElement, ctx: CtxIncParams, props: CabacTableEntry, bin: int) -> int {
    let eff = if bin < props.max_bin_idx_ctx {
        bin
    } else {
        props.max_bin_idx_ctx as int
    };
    props.ctx_idx_offset + spec_ctx_inc(se, eff, ctx)
}

/// `cMax` of a truncated unary binarization: the override, or the `cMax`
/// of the table entry.
pub open spec fn tu_c_max(c_max_override: Option<u32>, props: CabacTableEntry) -> int {
    match c_max_override {
        Some(c) => c as int,
        None => match props.binarization {
            BinarizationType::TU { c_max } => c_max as int,
            _ => 0,
        },
    }
}

/// Section 9.3.2.2: a truncated unary value with `cMax = c_max`, from bin
/// `bin` on: the number of 1 bins before the first 0, or `c_max` after
/// `c_max` 1 bins.
pub open spec fn tu_spec(
    e: Engine,
    data: Seq<u8>,
    se: SyntaxElement,
    ctx: CtxIncParams,
    props: CabacTableEntry,
    c_max: int,
    bin: int,
) -> Option<(u32, Engine)>
    decreases c_max - bin,
{
    if bin >= c_max {
        Some((c_max as u32, e))
    } else {
        match decode_decision(e, data, bin_ctx_idx(se, ctx, props, bin)) {
            None => None,
            Some((b, e2)) => if b == 0 {
                Some((bin as u32, e2))
            } else {
                tu_spec(e2, data, se, ctx, props, c_max, bin + 1)
            },
        }
    }
}

/// The context index of a bin of an element whose bins are all defined
/// lies in the table.
pub proof fn lemma_bin_ctx_idx(se: SyntaxElement, ctx: CtxIncParams, props: CabacTableEntry, bin: int)
    requires
        bins_ok(se, ctx, props),
        bin >= 0,
    ensures
        0 <= bin_ctx_idx(se, ctx, props, bin) < 1024,
        ctx_inc_defined(
            se,
            if bin < props.max_bin_idx_ctx {
                bin
            } else {
                props.max_bin_idx_ctx as int
            },
            ctx,
        ),
{
    let eff = if bin < props.max_bin_idx_ctx {
        bin
    } else {
        props.max_bin_idx_ctx as int
    };
    assert(ctx_inc_defined(se, eff, ctx));
    assert(spec_ctx_inc(se, eff, ctx) >= 0) by {
        match ctx {
            CtxIncParams::AbsLevel { gt1, eq1 } => {},
            _ => {},
        }
    }
}

/// Section 9.3.2.1: a unary value from bin `bin` on: the number of 1 bins
/// before the first 0. `None` when the stream runs out, or the value would
/// not fit in a `u32`.
pub open spec fn unary_spec(
    e: Engine,
    data: Seq<u8>,
    se: SyntaxElement,
    ctx: CtxIncParams,
    props: CabacTableEntry,
    bin: int,
) -> Option<(u32, Engine)>
    decreases progress(e, data),
    when eng_ok(e, data) && bins_ok(se, ctx, props) && bin >= 0
{
    let ctx_idx = bin_ctx_idx(se, ctx, props, bin);
    match decode_decision(e, data, ctx_idx) {
        None => None,
        Some((b, e2)) => if b == 0 {
            Some((bin as u32, e2))
        } else if bin >= 0xFFFF_FFFF {
            None
        } else {
            proof {
                lemma_bin_ctx_idx(se, ctx, props, bin);
                lemma_decision_progress(e, data, ctx_idx);
            }
            unary_spec(e2, data, se, ctx, props, bin + 1)
        },
    }
}

/// `n` bypass bins from `e` on, as an unsigned integer with the first bin
/// most significant.
pub open spec fn bypass_bits_spec(e: Engine, data: Seq<u8>, n: nat) -> Option<(int, Engine)>
    decreases n,
{
    if n == 0 {
        Some((0, e))
    } else {
        match bypass_bits_spec(e, data, (n - 1) as nat) {
            None => None,
            Some((v, e1)) => match decode_bypass_spec(e1, data) {
                None => None,
                Some((b, e2)) => Some((2 * v + b, e2)),
            },
        }
    }
}

/// `n + 1` bypass bins are the first bin, worth `2^n`, then `n` more: so
/// `decode_bypass_bits(n)` gives what `n` successive `decode_bypass` calls
/// give, first bin most significant.
pub proof fn lemma_bypass_bits_front(e: Engine, data: Seq<u8>, n: nat)
    ensures
        bypass_bits_spec(e, data, n + 1) == match decode_bypass_spec(e, data) {
            None => None,
            Some((b, e1)) => match bypass_bits_spec(e1, data, n) {
                None => None,
                Some((v, e2)) => Some((b * vstd::arithmetic::power2::pow2(n) + v, e2)),
            },
        },
    decreases n,
{
    vstd::arithmetic::power2::lemma2_to64();
    if n > 0 {
        lemma_bypass_bits_front(e, data, (n - 1) as nat);
        vstd::arithmetic::power2::lemma_pow2_unfold(n);
        match decode_bypass_spec(e, data) {
            None => {},
            Some((b, e1)) => match bypass_bits_spec(e1, data, (n - 1) as nat) {
                None => {},
                Some((v, e2)) => {
                    let w = b * vstd::arithmetic::power2::pow2((n - 1) as nat) + v;
                    assert(bypass_bits_spec(e, data, n) == Some((w, e2)));
                    match decode_bypass_spec(e2, data) {
                        None => {},
                        Some((b2, e3)) => {
                            assert(bypass_bits_spec(e1, data, n) == Some((2 * v + b2, e3)));
                            assert(2 * w == b * vstd::arithmetic::power2::pow2(n) + 2 * v) by (nonlinear_arith)
                                requires
                                    vstd::arithmetic::power2::pow2(n) == 2 * vstd::arithmetic::power2::pow2(
                                        (n - 1) as nat,
                                    ),
                                    w == b * vstd::arithmetic::power2::pow2((n - 1) as nat) + v,
                            ;
                        },
                    }
                },
            },
        }
    }
}

proof fn lemma_bypass_bits_none(e: Engine, data: Seq<u8>, i: nat, n: nat)
    requires
        i <= n,
        bypass_bits_spec(e, data, i) is None,
    ensures
        bypass_bits_spec(e, data, n) is None,
    decreases n - i,
{
    if i < n {
        lemma_bypass_bits_none(e, data, i, (n - 1) as nat);
    }
}

/// Section 9.3.2.3: the unary part of a k-th order Exp-Golomb suffix, from
/// exponent `k` and accumulated value `acc` on, then its `k`-bit tail.
/// `None` when the stream runs out or the exponent reaches 30.
pub open spec fn egk_spec(e: Engine, data: Seq<u8>, k: int, acc: int) -> Option<(int, Engine)>
    decreases total_bits(data) - e.pos,
    when e.pos <= total_bits(data)
{
    if k >= 30 || k < 0 {
        None
    } else {
        match decode_bypass_spec(e, data) {
            None => None,
            Some((b, e2)) => if b == 1 {
                egk_spec(e2, data, k + 1, acc + vstd::arithmetic::power2::pow2(k as nat))
            } else {
                match bypass_bits_spec(e2, data, k as nat) {
                    None => None,
                    Some((v, e3)) => Some((acc + v, e3)),
                }
            },
        }
    }
}

/// A value with its sign bin: a bypass bin after a non-zero value of a
/// signed syntax element, 1 for negative.
pub open spec fn sign_spec(e: Engine, data: Seq<u8>, val: int, signed: bool) -> Option<(i32, Engine)> {
    if signed && val != 0 {
        match decode_bypass_spec(e, data) {
            None => None,
            Some((s, e2)) => Some(
                ((if s == 1 {
                    -val
                } else {
                    val
                }) as i32, e2),
            ),
        }
    } else {
        Some((val as i32, e))
    }
}

/// The UEGk parameters of a table entry whose values fit the decoder's
/// arithmetic.
pub open spec fn ueg_props_ok(props: CabacTableEntry) -> bool {
    match props.binarization {
        BinarizationType::UEGk { k, signed_val_flag, u_coff } => u_coff <= 1024,
        _ => false,
    }
}

/// The table entry is a UEGk binarization without a sign.
pub open spec fn ueg_unsigned(props: CabacTableEntry) -> bool {
    match props.binarization {
        BinarizationType::UEGk { k, signed_val_flag, u_coff } => !signed_val_flag,
        _ => false,
    }
}

/// Section 9.3.2.3: a UEGk value: a truncated unary prefix with `cMax =
/// uCoff`, an Exp-Golomb suffix when the prefix reaches `uCoff`, and a
/// sign.
pub open spec fn ueg_spec(e: Engine, data: Seq<u8>, se: SyntaxElement, ctx: CtxIncParams, props: CabacTableEntry) -> Option<(i32, Engine)> {
    match props.binarization {
        BinarizationType::UEGk { k, signed_val_flag, u_coff } => match tu_spec(
            e,
            data,
            se,
            ctx,
            props,
            u_coff as int,
            0,
        ) {
            None => None,
            Some((prefix, e1)) => if prefix < u_coff {
                sign_spec(e1, data, prefix as int, signed_val_flag)
            } else {
                match egk_spec(e1, data, k as int, 0) {
                    None => None,
                    Some((suffix, e2)) => sign_spec(e2, data, prefix + suffix, signed_val_flag),
                }
            },
        },
        _ => None,
    }
}

/// A truncated unary value is at most `cMax`.
pub proof fn lemma_tu_bound(
    e: Engine,
    data: Seq<u8>,
    se: SyntaxElement,
    ctx: CtxIncParams,
    props: CabacTableEntry,
    c_max: int,
    bin: int,
)
    requires
        0 <= bin,
        0 <= c_max <= u32::MAX,
    ensures
        tu_spec(e, data, se, ctx, props, c_max, bin) matches Some((v, e2)) ==> v <= c_max,
    decreases c_max - bin,
{
    if bin < c_max {
        match decode_decision(e, data, bin_ctx_idx(se, ctx, props, bin)) {
            None => {},
            Some((b, e2)) => {
                if b != 0 {
                    lemma_tu_bound(e2, data, se, ctx, props, c_max, bin + 1);
                }
            },
        }
    }
}

impl<'a> CabacContext<'a> {
    /// Section 9.3.2.2: decodes a truncated unary value of `se` with the
    /// table entry `props`; `cMax` is `c_max_override` if given, else that
    /// of the entry.
    pub fn parse_truncated_unary_bin_with(
        &mut self,
        se: SyntaxElement,
        c_max_override: Option<u32>,
        ctx: CtxIncParams,
        props: &CabacTableEntry,
    ) -> (r: ParseResult<u32>)
        requires
            old(self).wf(),
            bins_ok(se, ctx, *props),
            c_max_override is Some || props.binarization is TU,
        ensures
            final(self).data() == old(self).data(),
            match r {
                Ok(v) => tu_spec(
                    old(self).eng(),
                    old(self).data(),
                    se,
                    ctx,
                    *props,
                    tu_c_max(c_max_override, *props),
                    0,
                ) == Some((v, final(self).eng())) && final(self).wf(),
                Err(_) => tu_spec(
                    old(self).eng(),
                    old(self).data(),
                    se,
                    ctx,
                    *props,
                    tu_c_max(c_max_override, *props),
                    0,
                ) is None,
            },
    {
        let c_max = match c_max_override {
            Some(c) => c,
            None => match props.binarization {
                BinarizationType::TU { c_max } => c_max,
                _ => 0,
            },
        };
        let ghost e0 = self.eng();
        let ghost d = self.data();
        let mut bin_idx: u32 = 0;
        while bin_idx < c_max
            invariant
                e0 == old(self).eng(),
                d == old(self).data(),
                self.wf(),
                self.data() == d,
                bins_ok(se, ctx, *props),
                c_max == tu_c_max(c_max_override, *props),
                bin_idx <= c_max,
                tu_spec(e0, d, se, ctx, *props, c_max as int, 0) == tu_spec(
                    self.eng(),
                    d,
                    se,
                    ctx,
                    *props,
                    c_max as int,
                    bin_idx as int,
                ),
            decreases c_max - bin_idx,
        {
            let eff = if bin_idx < props.max_bin_idx_ctx {
                bin_idx
            } else {
                props.max_bin_idx_ctx
            };
            proof {
                lemma_bin_ctx_idx(se, ctx, *props, bin_idx as int);
            }
            let inc = get_ctx_idx_inc(se, eff, ctx);
            let ctx_idx = props.ctx_idx_offset as usize + inc;
            let ghost eb = self.eng();
            proof {
                lemma_decision_progress(eb, d, ctx_idx as int);
            }
            let bin = match self.decode_bin(ctx_idx) {
                Ok(b) => b,
                Err(e) => {
                    return Err(e);
                },
            };
            if bin == 0 {
                return Ok(bin_idx);
            }
            bin_idx = bin_idx + 1;
        }
        Ok(c_max)
    }

    /// Section 9.3.2.2: decodes a truncated unary value of `se` with the
    /// entry of Table 9-34.
    pub fn parse_truncated_unary_bin(
        &mut self,
        se: SyntaxElement,
        c_max_override: Option<u32>,
        ctx: CtxIncParams,
    ) -> (r: ParseResult<u32>)
        requires
            old(self).wf(),
            bins_ok(se, ctx, spec_props(se)),
            c_max_override is Some || spec_props(se).binarization is TU,
        ensures
            final(self).data() == old(self).data(),
            match r {
                Ok(v) => tu_spec(
                    old(self).eng(),
                    old(self).data(),
                    se,
                    ctx,
                    spec_props(se),
                    tu_c_max(c_max_override, spec_props(se)),
                    0,
                ) == Some((v, final(self).eng())) && final(self).wf(),
                Err(_) => tu_spec(
                    old(self).eng(),
                    old(self).data(),
                    se,
                    ctx,
                    spec_props(se),
                    tu_c_max(c_max_override, spec_props(se)),
                    0,
                ) is None,
            },
    {
        let props = get_syntax_element_properties(se);
        self.parse_truncated_unary_bin_with(se, c_max_override, ctx, &props)
    }

    /// Section 9.3.2.1: decodes a unary value of `se` (Table 9-34's entry).
    /// Fails when the stream runs out, or the value would not fit in a
    /// `u32`.
    pub fn parse_unary_bin(&mut self, se: SyntaxElement, ctx: CtxIncParams) -> (r: ParseResult<u32>)
        requires
            old(self).wf(),
            bins_ok(se, ctx, spec_props(se)),
        ensures
            final(self).data() == old(self).data(),
            match r {
                Ok(v) => unary_spec(old(self).eng(), old(self).data(), se, ctx, spec_props(se), 0)
                    == Some((v, final(self).eng())) && final(self).wf(),
                Err(_) => unary_spec(old(self).eng(), old(self).data(), se, ctx, spec_props(se), 0) is None,
            },
    {
        let props = get_syntax_element_properties(se);
        let ghost e0 = self.eng();
        let ghost d = self.data();
        let mut bin_idx: u32 = 0;
        loop
            invariant
                e0 == old(self).eng(),
                d == old(self).data(),
                props == spec_props(se),
                self.wf(),
                self.data() == d,
                bins_ok(se, ctx, props),
                unary_spec(e0, d, se, ctx, props, 0) == unary_spec(
                    self.eng(),
                    d,
                    se,
                    ctx,
                    props,
                    bin_idx as int,
                ),
            decreases progress(self.eng(), d),
        {
            let eff = if bin_idx < props.max_bin_idx_ctx {
                bin_idx
            } else {
                props.max_bin_idx_ctx
            };
            proof {
                lemma_bin_ctx_idx(se, ctx, props, bin_idx as int);
            }
            let inc = get_ctx_idx_inc(se, eff, ctx);
            let ctx_idx = props.ctx_idx_offset as usize + inc;
            let ghost eb = self.eng();
            proof {
                lemma_decision_progress(eb, d, ctx_idx as int);
            }
            let bin = match self.decode_bin(ctx_idx) {
                Ok(b) => b,
                Err(e) => {
                    return Err(e);
                },
            };
            if bin == 0 {
                return Ok(bin_idx);
            }
            if bin_idx == u32::MAX {
                return Err("CABAC: unary value too large".to_owned());
            }
            bin_idx = bin_idx + 1;
        }
    }

    /// Decodes `n` (at most 32) bypass bins, the first one most
    /// significant: the fixed-length tail of an Exp-Golomb suffix.
    pub fn decode_bypass_bits(&mut self, n: u32) -> (r: ParseResult<u32>)
        requires
            old(self).wf(),
            n <= 32,
        ensures
            final(self).data() == old(self).data(),
            match r {
                Ok(v) => bypass_bits_spec(old(self).eng(), old(self).data(), n as nat) == Some(
                    (v as int, final(self).eng()),
                ) && final(self).wf() && v < vstd::arithmetic::power2::pow2(n as nat),
                Err(_) => bypass_bits_spec(old(self).eng(), old(self).data(), n as nat) is None,
            },
    {
        let ghost e0 = self.eng();
        let ghost d = self.data();
        let mut result: u64 = 0;
        let mut i: u32 = 0;
        proof {
            vstd::arithmetic::power2::lemma2_to64();
        }
        while i < n
            invariant
                e0 == old(self).eng(),
                d == old(self).data(),
                self.wf(),
                self.data() == d,
                i <= n <= 32,
                result < vstd::arithmetic::power2::pow2(i as nat),
                bypass_bits_spec(e0, d, i as nat) == Some((result as int, self.eng())),
            decreases n - i,
        {
            let b = match self.decode_bypass() {
                Ok(b) => b,
                Err(e) => {
                    proof {
                        lemma_bypass_bits_none(e0, d, (i + 1) as nat, n as nat);
                    }
                    return Err(e);
                },
            };
            proof {
                vstd::arithmetic::power2::lemma_pow2_unfold((i + 1) as nat);
                vstd::arithmetic::power2::lemma2_to64();
                if i < 31 {
                    vstd::arithmetic::power2::lemma_pow2_strictly_increases(i as nat, 31);
                }
            }
            result = result * 2 + b as u64;
            i = i + 1;
        }
        proof {
            vstd::arithmetic::power2::lemma2_to64();
            if n < 32 {
                vstd::arithmetic::power2::lemma_pow2_strictly_increases(n as nat, 32);
            }
        }
        Ok(result as u32)
    }

    /// A value with its sign bin (`sign_spec`).
    fn apply_sign(&mut self, val: u32, signed: bool) -> (r: ParseResult<i32>)
        requires
            old(self).wf(),
            val <= 0x4000_1000,
        ensures
            final(self).data() == old(self).data(),
            match r {
                Ok(v) => sign_spec(old(self).eng(), old(self).data(), val as int, signed) == Some(
                    (v, final(self).eng()),
                ) && final(self).wf(),
                Err(_) => sign_spec(old(self).eng(), old(self).data(), val as int, signed) is None,
            },
    {
        let v = val as i32;
        if signed && val != 0 {
            let s = match self.decode_bypass() {
                Ok(s) => s,
                Err(e) => {
                    return Err(e);
                },
            };
            if s == 1 {
                Ok(-v)
            } else {
                Ok(v)
            }
        } else {
            Ok(v)
        }
    }

    /// Section 9.3.2.3: decodes a UEGk value of `se` with the table entry
    /// `props`. Fails when the stream runs out or the Exp-Golomb exponent
    /// reaches 30.
    pub fn parse_ueg_k_with(&mut self, se: SyntaxElement, ctx: CtxIncParams, props: &CabacTableEntry) -> (r:
        ParseResult<i32>)
        requires
            old(self).wf(),
            bins_ok(se, ctx, *props),
            ueg_props_ok(*props),
        ensures
            final(self).data() == old(self).data(),
            match r {
                Ok(v) => ueg_spec(old(self).eng(), old(self).data(), se, ctx, *props) == Some(
                    (v, final(self).eng()),
                ) && final(self).wf() && (ueg_unsigned(*props) ==> 0 <= v <= 0x4000_1000),
                Err(_) => ueg_spec(old(self).eng(), old(self).data(), se, ctx, *props) is None,
            },
    {
        let (u_coff, k_val, signed) = match props.binarization {
            BinarizationType::UEGk { k, signed_val_flag, u_coff } => (u_coff, k, signed_val_flag),
            _ => (0, 0, false),
        };
        let prefix = match self.parse_truncated_unary_bin_with(se, Some(u_coff), ctx, props) {
            Ok(p) => p,
            Err(e) => {
                return Err(e);
            },
        };
        proof {
            lemma_tu_bound(old(self).eng(), old(self).data(), se, ctx, *props, u_coff as int, 0);
        }
        if prefix < u_coff {
            return self.apply_sign(prefix, signed);
        }
        let suffix = match self.parse_egk_suffix(k_val) {
            Ok(v) => v,
            Err(e) => {
                return Err(e);
            },
        };
        self.apply_sign(prefix + suffix, signed)
    }

    /// Section 9.3.2.3: the k-th order Exp-Golomb suffix of a UEGk value,
    /// from exponent `k_val` on. Fails when the stream runs out or the
    /// exponent reaches 30.
    fn parse_egk_suffix(&mut self, k_val: u32) -> (r: ParseResult<u32>)
        requires
            old(self).wf(),
        ensures
            final(self).data() == old(self).data(),
            match r {
                Ok(v) => egk_spec(old(self).eng(), old(self).data(), k_val as int, 0) == Some(
                    (v as int, final(self).eng()),
                ) && final(self).wf() && v < 0x4000_0000,
                Err(_) => egk_spec(old(self).eng(), old(self).data(), k_val as int, 0) is None,
            },
    {
        let ghost e1 = self.eng();
        let ghost d = self.data();
        let mut suffix: u32 = 0;
        let mut k = k_val;
        if k >= 30 {
            return Err("CABAC: Exp-Golomb suffix too long".to_owned());
        }
        proof {
            vstd::arithmetic::power2::lemma_pow2_pos(k as nat);
            vstd::arithmetic::power2::lemma2_to64();
            if k < 29 {
                vstd::arithmetic::power2::lemma_pow2_strictly_increases(k as nat, 29);
            }
        }
        let mut bitk: u32 = 1u32 << k;
        assert(bitk == vstd::arithmetic::power2::pow2(k as nat)) by {
            vstd::bits::lemma_u32_shl_is_mul(1u32, k);
        }
        loop
            invariant
                e1 == old(self).eng(),
                k < 30 ==> bitk == vstd::arithmetic::power2::pow2(k as nat),
                d == old(self).data(),
                self.wf(),
                self.data() == d,
                k < 30 ==> suffix < vstd::arithmetic::power2::pow2(k as nat),
                egk_spec(e1, d, k_val as int, 0) == egk_spec(self.eng(), d, k as int, suffix as int),
            decreases total_bits(d) - self.eng().pos,
        {
            if k >= 30 {
                return Err("CABAC: Exp-Golomb suffix too long".to_owned());
            }
            let bit = match self.decode_bypass() {
                Ok(b) => b,
                Err(e) => {
                    return Err(e);
                },
            };
            proof {
                vstd::arithmetic::power2::lemma2_to64();
                vstd::arithmetic::power2::lemma_pow2_unfold((k + 1) as nat);
                if k < 29 {
                    vstd::arithmetic::power2::lemma_pow2_strictly_increases(k as nat, 29);
                }
                if k + 1 < 30 {
                    vstd::arithmetic::power2::lemma_pow2_strictly_increases((k + 1) as nat, 30);
                }
            }
            if bit == 1 {
                suffix = suffix + bitk;
                k = k + 1;
                if k < 30 {
                    bitk = bitk * 2;
                }
            } else {
                let v = match self.decode_bypass_bits(k) {
                    Ok(v) => v,
                    Err(e) => {
                        return Err(e);
                    },
                };
                return Ok(suffix + v);
            }
        }
    }

    /// Section 9.3.2.3: decodes a UEGk value of `se` with the entry of
    /// Table 9-34.
    pub fn parse_ueg_k(&mut self, se: SyntaxElement, ctx: CtxIncParams) -> (r: ParseResult<i32>)
        requires
            old(self).wf(),
            bins_ok(se, ctx, spec_props(se)),
            ueg_props_ok(spec_props(se)),
        ensures
            final(self).data() == old(self).data(),
            match r {
                Ok(v) => ueg_spec(old(self).eng(), old(self).data(), se, ctx, spec_props(se)) == Some(
                    (v, final(self).eng()),
                ) && final(self).wf(),
                Err(_) => ueg_spec(old(self).eng(), old(self).data(), se, ctx, spec_props(se)) is None,
            },
    {
        let props = get_syntax_element_properties(se);
        self.parse_ueg_k_with(se, ctx, &props)
    }
}

/// The `mb_type` of a macroblock, by the slice type it is coded in.
#[derive(Copy, Clone, Debug, PartialEq, Eq, Structural)]
pub enum CabacMbType {
    I(IMbType),
    P(PMbType),
    B(BMbType),
}

/// `condTermFlagN` of `mb_skip_flag` (Section 9.3.3.1.1.1): the neighbour
/// is available and not skipped.
pub open spec fn cond_not_skipped(n: Option<NeighborMb>) -> int {
    match n {
        Some(m) => if !m.skipped {
            1
        } else {
            0
        },
        None => 0,
    }
}

/// `condTermFlagN` of `mb_type` in I slices (Section 9.3.3.1.1.3): the
/// neighbour is available and not I_NxN.
pub open spec fn cond_not_nxn(n: Option<NeighborMb>) -> int {
    match n {
        Some(m) => if !m.intra_nxn {
            1
        } else {
            0
        },
        None => 0,
    }
}

/// `condTermFlagN` of `mb_type` in B slices (Section 9.3.3.1.1.3): the
/// neighbour is available and neither B_Skip nor B_Direct_16x16.
pub open spec fn cond_not_direct(n: Option<NeighborMb>) -> int {
    match n {
        Some(m) => if !m.b_skip_or_direct {
            1
        } else {
            0
        },
        None => 0,
    }
}

/// `condTermFlagN` of `intra_chroma_pred_mode` (Section 9.3.3.1.1.8): the
/// neighbour is an available I macroblock (not I_PCM) whose mode is not DC.
pub open spec fn cond_chroma_mode(n: Option<NeighborMb>) -> int {
    match n {
        Some(m) => if !m.pcm && m.intra_chroma_pred_mode != 0 {
            1
        } else {
            0
        },
        None => 0,
    }
}

/// Section 9.3.3.1.1.5: `ctxIdxInc` of `mb_qp_delta` from the previous
/// macroblock in decoding order, if it belongs to the slice.
pub open spec fn spec_qp_delta_inc(prev: Option<NeighborMb>) -> int {
    match prev {
        None => 0,
        Some(m) => if m.skipped || m.pcm || (!m.intra_16x16 && m.cbp_luma == 0 && m.cbp_chroma == 0)
            || m.mb_qp_delta == 0 {
            0
        } else {
            1
        },
    }
}

fn flag(b: bool) -> (r: usize)
    ensures
        r == if b {
            1int
        } else {
            0
        },
{
    if b {
        1
    } else {
        0
    }
}





/// Decodes bin `idx` of the decision tree of a syntax element: the bin and
/// the engine after it.
#[verifier::opaque]
pub open spec fn dec(e: Engine, data: Seq<u8>, idx: int) -> Option<(u8, Engine)> {
    decode_decision(e, data, idx)
}

/// Table 9-36: the bins of an Intra_16x16 `mb_type` after its I_PCM bin,
/// with context offset `off` (3 in I slices, 17 as the suffix in P and B
/// slices).
pub open spec fn i16x16_spec(e: Engine, data: Seq<u8>, off: int, se: SyntaxElement) -> Option<(IMbType, Engine)> {
    let p0 = CtxIncParams::MbType { prior: 0 };
    let p1 = CtxIncParams::MbType { prior: 1 };
    match dec(e, data, off + spec_ctx_inc(se, 2, p0)) {
        None => None,
        Some((cbpl, e1)) => match dec(e1, data, off + spec_ctx_inc(se, 3, p0)) {
            None => None,
            Some((b3, e2)) => if b3 == 0 {
                match dec(e2, data, off + spec_ctx_inc(se, 4, p0)) {
                    None => None,
                    Some((m1, e3)) => match dec(e3, data, off + spec_ctx_inc(se, 5, p0)) {
                        None => None,
                        Some((m0, e4)) => Some(
                            (
                                IMbType::I_16x16 {
                                    pred_mode: (2 * m1 + m0) as u8,
                                    cbp_chroma: 0,
                                    cbp_luma: cbpl,
                                },
                                e4,
                            ),
                        ),
                    },
                }
            } else {
                match dec(e2, data, off + spec_ctx_inc(se, 4, p1)) {
                    None => None,
                    Some((b4, e3)) => match dec(e3, data, off + spec_ctx_inc(se, 5, p1)) {
                        None => None,
                        Some((m1, e4)) => match dec(e4, data, off + spec_ctx_inc(se, 6, p0)) {
                            None => None,
                            Some((m0, e5)) => Some(
                                (
                                    IMbType::I_16x16 {
                                        pred_mode: (2 * m1 + m0) as u8,
                                        cbp_chroma: if b4 == 0 {
                                            1u8
                                        } else {
                                            2u8
                                        },
                                        cbp_luma: cbpl,
                                    },
                                    e5,
                                ),
                            ),
                        },
                    },
                }
            },
        },
    }
}

/// Table 9-36: an I-slice `mb_type` (context offset 3, bin 0 with
/// `ctxIdxInc = inc0`), or the intra suffix of a P or B `mb_type` (offset
/// 17 or 32, bin 0 with `ctxIdxInc = 0`): I_NxN, I_PCM, or an Intra_16x16
/// type.
pub open spec fn intra_mb_type_spec(e: Engine, data: Seq<u8>, off: int, inc0: int, se: SyntaxElement) -> Option<
    (IMbType, Engine),
> {
    match dec(e, data, off + inc0) {
        None => None,
        Some((b0, e1)) => if b0 == 0 {
            Some((IMbType::I_NxN, e1))
        } else {
            match decode_terminate_spec(e1, data) {
                None => None,
                Some((t, e2)) => if t {
                    Some((IMbType::I_PCM, e2))
                } else {
                    i16x16_spec(e2, data, off, se)
                },
            }
        },
    }
}

/// Table 9-37 (P part): a P-slice `mb_type`, prefix bins at offset 14, the
/// intra suffix at offset 17.
pub open spec fn mb_type_p_spec(e: Engine, data: Seq<u8>) -> Option<(CabacMbType, Engine)> {
    match dec(e, data, 14) {
        None => None,
        Some((b0, e1)) => if b0 == 1 {
            match intra_mb_type_spec(e1, data, 17, 0, SyntaxElement::MbTypeISuffix) {
                None => None,
                Some((t, e2)) => Some((CabacMbType::I(t), e2)),
            }
        } else {
            match dec(e1, data, 15) {
                None => None,
                Some((b1, e2)) => match dec(
                    e2,
                    data,
                    14 + spec_ctx_inc(SyntaxElement::MbTypeP, 2, CtxIncParams::MbType { prior: b1 }),
                ) {
                    None => None,
                    Some((b2, e3)) => Some(
                        (
                            CabacMbType::P(
                                if b1 == 1 {
                                    if b2 == 1 {
                                        PMbType::P_L0_L0_16x8
                                    } else {
                                        PMbType::P_L0_L0_8x16
                                    }
                                } else if b2 == 1 {
                                    PMbType::P_8x8
                                } else {
                                    PMbType::P_L0_16x16
                                },
                            ),
                            e3,
                        ),
                    ),
                },
            }
        },
    }
}

/// Table 9-38: a P `sub_mb_type`, bins at context indices 21 to 23.
pub open spec fn sub_mb_type_p_spec(e: Engine, data: Seq<u8>) -> Option<(SubMbType, Engine)> {
    match dec(e, data, 21) {
        None => None,
        Some((b0, e1)) => if b0 == 1 {
            Some((SubMbType::P_L0_8x8, e1))
        } else {
            match dec(e1, data, 22) {
                None => None,
                Some((b1, e2)) => if b1 == 0 {
                    Some((SubMbType::P_L0_8x4, e2))
                } else {
                    match dec(e2, data, 23) {
                        None => None,
                        Some((b2, e3)) => Some(
                            (
                                if b2 == 1 {
                                    SubMbType::P_L0_4x8
                                } else {
                                    SubMbType::P_L0_4x4
                                },
                                e3,
                            ),
                        ),
                    }
                },
            }
        },
    }
}

impl<'a> CabacContext<'a> {
    /// Table 9-36: the bins of an Intra_16x16 `mb_type` after its I_PCM
    /// bin.
    fn parse_i_16x16_params(&mut self, off: usize, se: SyntaxElement) -> (r: ParseResult<IMbType>)
        requires
            old(self).wf(),
            off + 7 < 1024,
            se is MbTypeI || se is MbTypeISuffix,
        ensures
            final(self).data() == old(self).data(),
            match r {
                Ok(t) => i16x16_spec(old(self).eng(), old(self).data(), off as int, se) == Some(
                    (t, final(self).eng()),
                ) && final(self).wf(),
                Err(_) => i16x16_spec(old(self).eng(), old(self).data(), off as int, se) is None,
            },
    {
        let p0 = CtxIncParams::MbType { prior: 0 };
        let p1 = CtxIncParams::MbType { prior: 1 };
        let cbpl = match self.bin(off + get_ctx_idx_inc(se, 2, p0)) {
            Ok(b) => b,
            Err(e) => {
                return Err(e);
            },
        };
        let b3 = match self.bin(off + get_ctx_idx_inc(se, 3, p0)) {
            Ok(b) => b,
            Err(e) => {
                return Err(e);
            },
        };
        if b3 == 0 {
            let m1 = match self.bin(off + get_ctx_idx_inc(se, 4, p0)) {
                Ok(b) => b,
                Err(e) => {
                    return Err(e);
                },
            };
            let m0 = match self.bin(off + get_ctx_idx_inc(se, 5, p0)) {
                Ok(b) => b,
                Err(e) => {
                    return Err(e);
                },
            };
            Ok(IMbType::I_16x16 { pred_mode: 2 * m1 + m0, cbp_chroma: 0, cbp_luma: cbpl })
        } else {
            let b4 = match self.bin(off + get_ctx_idx_inc(se, 4, p1)) {
                Ok(b) => b,
                Err(e) => {
                    return Err(e);
                },
            };
            let m1 = match self.bin(off + get_ctx_idx_inc(se, 5, p1)) {
                Ok(b) => b,
                Err(e) => {
                    return Err(e);
                },
            };
            let m0 = match self.bin(off + get_ctx_idx_inc(se, 6, p0)) {
                Ok(b) => b,
                Err(e) => {
                    return Err(e);
                },
            };
            let cbpc: u8 = if b4 == 0 {
                1
            } else {
                2
            };
            Ok(IMbType::I_16x16 { pred_mode: 2 * m1 + m0, cbp_chroma: cbpc, cbp_luma: cbpl })
        }
    }

    /// Table 9-36: an intra `mb_type` whose bin 0 has context index
    /// `off + inc0`: I_NxN, I_PCM (a terminating bin), or Intra_16x16.
    fn parse_intra_mb_type(&mut self, off: usize, inc0: usize, se: SyntaxElement) -> (r: ParseResult<IMbType>)
        requires
            old(self).wf(),
            off + 7 < 1024,
            inc0 <= 2,
            se is MbTypeI || se is MbTypeISuffix,
        ensures
            final(self).data() == old(self).data(),
            match r {
                Ok(t) => intra_mb_type_spec(old(self).eng(), old(self).data(), off as int, inc0 as int, se)
                    == Some((t, final(self).eng())) && (t != IMbType::I_PCM ==> final(self).wf()),
                Err(_) => intra_mb_type_spec(old(self).eng(), old(self).data(), off as int, inc0 as int, se)
                    is None,
            },
    {
        let b0 = match self.bin(off + inc0) {
            Ok(b) => b,
            Err(e) => {
                return Err(e);
            },
        };
        if b0 == 0 {
            return Ok(IMbType::I_NxN);
        }
        let t = match self.decode_terminate() {
            Ok(t) => t,
            Err(e) => {
                return Err(e);
            },
        };
        if t {
            return Ok(IMbType::I_PCM);
        }
        self.parse_i_16x16_params(off, se)
    }

    /// Table 9-36: `mb_type` in I slices, with the left (`a`) and upper
    /// (`b`) neighbours where available.
    pub fn parse_mb_type_i(&mut self, a: Option<NeighborMb>, b: Option<NeighborMb>) -> (r: ParseResult<
        IMbType,
    >)
        requires
            old(self).wf(),
        ensures
            final(self).data() == old(self).data(),
            match r {
                Ok(t) => intra_mb_type_spec(
                    old(self).eng(),
                    old(self).data(),
                    3,
                    cond_not_nxn(a) + cond_not_nxn(b),
                    SyntaxElement::MbTypeI,
                ) == Some((t, final(self).eng())) && (t != IMbType::I_PCM ==> final(self).wf()),
                Err(_) => intra_mb_type_spec(
                    old(self).eng(),
                    old(self).data(),
                    3,
                    cond_not_nxn(a) + cond_not_nxn(b),
                    SyntaxElement::MbTypeI,
                ) is None,
            },
    {
        let inc0 = Self::get_ctx_idx_inc_mb_type_i(a, b);
        self.parse_intra_mb_type(3, inc0, SyntaxElement::MbTypeI)
    }

    /// Table 9-37: `mb_type` in P slices; intra types come after a prefix
    /// bin of 1.
    pub fn parse_mb_type_p(&mut self) -> (r: ParseResult<CabacMbType>)
        requires
            old(self).wf(),
        ensures
            final(self).data() == old(self).data(),
            match r {
                Ok(t) => mb_type_p_spec(old(self).eng(), old(self).data()) == Some((t, final(self).eng()))
                    && (t != CabacMbType::I(IMbType::I_PCM) ==> final(self).wf()),
                Err(_) => mb_type_p_spec(old(self).eng(), old(self).data()) is None,
            },
    {
        let b0 = match self.bin(14) {
            Ok(b) => b,
            Err(e) => {
                return Err(e);
            },
        };
        if b0 == 1 {
            return match self.parse_intra_mb_type(17, 0, SyntaxElement::MbTypeISuffix) {
                Ok(t) => Ok(CabacMbType::I(t)),
                Err(e) => Err(e),
            };
        }
        let b1 = match self.bin(15) {
            Ok(b) => b,
            Err(e) => {
                return Err(e);
            },
        };
        let inc2 = get_ctx_idx_inc(SyntaxElement::MbTypeP, 2, CtxIncParams::MbType { prior: b1 });
        let b2 = match self.bin(14 + inc2) {
            Ok(b) => b,
            Err(e) => {
                return Err(e);
            },
        };
        let t = if b1 == 1 {
            if b2 == 1 {
                PMbType::P_L0_L0_16x8
            } else {
                PMbType::P_L0_L0_8x16
            }
        } else if b2 == 1 {
            PMbType::P_8x8
        } else {
            PMbType::P_L0_16x16
        };
        Ok(CabacMbType::P(t))
    }

    /// Table 9-38: `sub_mb_type` in P slices.
    pub fn parse_sub_mb_type_p(&mut self) -> (r: ParseResult<SubMbType>)
        requires
            old(self).wf(),
        ensures
            final(self).data() == old(self).data(),
            match r {
                Ok(t) => sub_mb_type_p_spec(old(self).eng(), old(self).data()) == Some(
                    (t, final(self).eng()),
                ) && final(self).wf(),
                Err(_) => sub_mb_type_p_spec(old(self).eng(), old(self).data()) is None,
            },
    {
        let b0 = match self.bin(21) {
            Ok(b) => b,
            Err(e) => {
                return Err(e);
            },
        };
        if b0 == 1 {
            return Ok(SubMbType::P_L0_8x8);
        }
        let b1 = match self.bin(22) {
            Ok(b) => b,
            Err(e) => {
                return Err(e);
            },
        };
        if b1 == 0 {
            return Ok(SubMbType::P_L0_8x4);
        }
        let b2 = match self.bin(23) {
            Ok(b) => b,
            Err(e) => {
                return Err(e);
            },
        };
        if b2 == 1 {
            Ok(SubMbType::P_L0_4x8)
        } else {
            Ok(SubMbType::P_L0_4x4)
        }
    }

    /// Section 9.3.3.1.1.1: `mb_skip_flag`, with context offset 24 in B
    /// slices and 11 otherwise.
    pub fn parse_mb_skip_flag(&mut self, b_slice: bool, a: Option<NeighborMb>, b: Option<NeighborMb>) -> (r:
        ParseResult<bool>)
        requires
            old(self).wf(),
        ensures
            final(self).data() == old(self).data(),
            ({
                let idx = (if b_slice {
                    24int
                } else {
                    11
                }) + cond_not_skipped(a) + cond_not_skipped(b);
                match r {
                    Ok(skip) => dec(old(self).eng(), old(self).data(), idx) matches Some((bin, e2)) && e2
                        == final(self).eng() && skip == (bin == 1) && final(self).wf(),
                    Err(_) => dec(old(self).eng(), old(self).data(), idx) is None,
                }
            }),
    {
        let inc = Self::get_ctx_idx_inc_mb_skip_flag(a, b);
        let se = if b_slice {
            SyntaxElement::MbSkipFlagB
        } else {
            SyntaxElement::MbSkipFlagP
        };
        let props = get_syntax_element_properties(se);
        proof {
            reveal(dec);
        }
        match self.decode_bin(props.ctx_idx_offset as usize + inc) {
            Ok(bin) => Ok(bin == 1),
            Err(e) => Err(e),
        }
    }
}

/// Table 9-37: the B `mb_type`s of the bin strings `1 1 0 h x y` (types 3
/// to 10), by `h` and `2 * x + y`.
pub open spec fn b_group4(h: u8, idx: int) -> BMbType {
    if h == 0 {
        if idx == 0 {
            BMbType::B_Bi_16x16
        } else if idx == 1 {
            BMbType::B_L0_L0_16x8
        } else if idx == 2 {
            BMbType::B_L0_L0_8x16
        } else {
            BMbType::B_L1_L1_16x8
        }
    } else {
        if idx == 0 {
            BMbType::B_L1_L1_8x16
        } else if idx == 1 {
            BMbType::B_L0_L1_16x8
        } else if idx == 2 {
            BMbType::B_L0_L1_8x16
        } else {
            BMbType::B_L1_L0_16x8
        }
    }
}

/// Table 9-37: the B `mb_type`s of the bin strings `1 1 1 0 x y z` (types
/// 12 to 19), by `4 * x + 2 * y + z`.
pub open spec fn b_group8(idx: int) -> BMbType {
    if idx == 0 {
        BMbType::B_L0_Bi_16x8
    } else if idx == 1 {
        BMbType::B_L0_Bi_8x16
    } else if idx == 2 {
        BMbType::B_L1_Bi_16x8
    } else if idx == 3 {
        BMbType::B_L1_Bi_8x16
    } else if idx == 4 {
        BMbType::B_Bi_L0_16x8
    } else if idx == 5 {
        BMbType::B_Bi_L0_8x16
    } else if idx == 6 {
        BMbType::B_Bi_L1_16x8
    } else {
        BMbType::B_Bi_L1_8x16
    }
}

/// Table 9-37: the last two bins `x y` of the B `mb_type`s `1 1 0 h x y`.
pub open spec fn b_pair_spec(e: Engine, data: Seq<u8>, h: u8) -> Option<(CabacMbType, Engine)> {
    match dec(e, data, 32) {
        None => None,
        Some((x, e1)) => match dec(e1, data, 32) {
            None => None,
            Some((y, e2)) => Some((CabacMbType::B(b_group4(h, 2 * x + y)), e2)),
        },
    }
}

/// Table 9-37: the last three bins `x y z` of the B `mb_type`s `1 1 1 0 x y
/// z`.
pub open spec fn b_triple_spec(e: Engine, data: Seq<u8>) -> Option<(CabacMbType, Engine)> {
    match dec(e, data, 32) {
        None => None,
        Some((x, e1)) => match dec(e1, data, 32) {
            None => None,
            Some((y, e2)) => match dec(e2, data, 32) {
                None => None,
                Some((z, e3)) => Some((CabacMbType::B(b_group8(4 * x + 2 * y + z)), e3)),
            },
        },
    }
}

/// Table 9-37: the bins after `1 1 1 1`: B_Bi_Bi_16x8 / 8x16 (`0 0 z`),
/// an intra type (`0 1` and the intra suffix at offset 32), B_L1_L0_8x16
/// (`1 0`) or B_8x8 (`1 1`).
pub open spec fn b_last_spec(e: Engine, data: Seq<u8>) -> Option<(CabacMbType, Engine)> {
    match dec(e, data, 32) {
        None => None,
        Some((x, e1)) => if x == 0 {
            match dec(e1, data, 32) {
                None => None,
                Some((y, e2)) => if y == 0 {
                    match dec(e2, data, 32) {
                        None => None,
                        Some((z, e3)) => Some(
                            (
                                CabacMbType::B(
                                    if z == 0 {
                                        BMbType::B_Bi_Bi_16x8
                                    } else {
                                        BMbType::B_Bi_Bi_8x16
                                    },
                                ),
                                e3,
                            ),
                        ),
                    }
                } else {
                    match intra_mb_type_spec(e2, data, 32, 0, SyntaxElement::MbTypeISuffix) {
                        None => None,
                        Some((t, e3)) => Some((CabacMbType::I(t), e3)),
                    }
                },
            }
        } else {
            match dec(e1, data, 32) {
                None => None,
                Some((y, e2)) => Some(
                    (
                        CabacMbType::B(
                            if y == 0 {
                                BMbType::B_L1_L0_8x16
                            } else {
                                BMbType::B_8x8
                            },
                        ),
                        e2,
                    ),
                ),
            }
        },
    }
}

/// Table 9-37: the bins of a B `mb_type` after `1 1`: bin 2 at context
/// index 31, the rest at 32.
pub open spec fn b_rest_spec(e: Engine, data: Seq<u8>) -> Option<(CabacMbType, Engine)> {
    match dec(e, data, 31) {
        None => None,
        Some((b2, e1)) => match dec(e1, data, 32) {
            None => None,
            Some((b3, e2)) => if b2 == 0 {
                b_pair_spec(e2, data, b3)
            } else if b3 == 0 {
                b_triple_spec(e2, data)
            } else {
                b_last_spec(e2, data)
            },
        },
    }
}

/// Table 9-37 (B part): a B-slice `mb_type`, bin 0 with `ctxIdxInc =
/// inc0`, later bins at context indices 30 to 32, the intra suffix at
/// offset 32.
pub open spec fn mb_type_b_spec(e: Engine, data: Seq<u8>, inc0: int) -> Option<(CabacMbType, Engine)> {
    match dec(e, data, 27 + inc0) {
        None => None,
        Some((b0, e1)) => if b0 == 0 {
            Some((CabacMbType::B(BMbType::B_Direct_16x16), e1))
        } else {
            match dec(e1, data, 30) {
                None => None,
                Some((b1, e2)) => if b1 == 0 {
                    match dec(e2, data, 32) {
                        None => None,
                        Some((b2, e3)) => Some(
                            (
                                CabacMbType::B(
                                    if b2 == 0 {
                                        BMbType::B_L0_16x16
                                    } else {
                                        BMbType::B_L1_16x16
                                    },
                                ),
                                e3,
                            ),
                        ),
                    }
                } else {
                    b_rest_spec(e2, data)
                },
            }
        },
    }
}

/// Table 9-38: a B `sub_mb_type`, bins at context indices 36 to 39.
pub open spec fn sub_mb_type_b_spec(e: Engine, data: Seq<u8>) -> Option<(BSubMbType, Engine)> {
    match dec(e, data, 36) {
        None => None,
        Some((b0, e1)) => if b0 == 0 {
            Some((BSubMbType::B_Direct_8x8, e1))
        } else {
            match dec(e1, data, 37) {
                None => None,
                Some((b1, e2)) => if b1 == 0 {
                    match dec(e2, data, 39) {
                        None => None,
                        Some((b2, e3)) => Some(
                            (
                                if b2 == 0 {
                                    BSubMbType::B_L0_8x8
                                } else {
                                    BSubMbType::B_L1_8x8
                                },
                                e3,
                            ),
                        ),
                    }
                } else {
                    match dec(e2, data, 38) {
                        None => None,
                        Some((b2, e3)) => match dec(e3, data, 39) {
                            None => None,
                            Some((b3, e4)) => if b2 == 0 {
                                match dec(e4, data, 39) {
                                    None => None,
                                    Some((x, e5)) => {
                                        let idx = 2 * b3 + x;
                                        Some(
                                            (
                                                if idx == 0 {
                                                    BSubMbType::B_Bi_8x8
                                                } else if idx == 1 {
                                                    BSubMbType::B_L0_8x4
                                                } else if idx == 2 {
                                                    BSubMbType::B_L0_4x8
                                                } else {
                                                    BSubMbType::B_L1_8x4
                                                },
                                                e5,
                                            ),
                                        )
                                    },
                                }
                            } else if b3 == 0 {
                                match dec(e4, data, 39) {
                                    None => None,
                                    Some((x, e5)) => match dec(e5, data, 39) {
                                        None => None,
                                        Some((y, e6)) => {
                                            let idx = 2 * x + y;
                                            Some(
                                                (
                                                    if idx == 0 {
                                                        BSubMbType::B_L1_4x8
                                                    } else if idx == 1 {
                                                        BSubMbType::B_Bi_8x4
                                                    } else if idx == 2 {
                                                        BSubMbType::B_Bi_4x8
                                                    } else {
                                                        BSubMbType::B_L0_4x4
                                                    },
                                                    e6,
                                                ),
                                            )
                                        },
                                    },
                                }
                            } else {
                                match dec(e4, data, 39) {
                                    None => None,
                                    Some((x, e5)) => Some(
                                        (
                                            if x == 0 {
                                                BSubMbType::B_L1_4x4
                                            } else {
                                                BSubMbType::B_Bi_4x4
                                            },
                                            e5,
                                        ),
                                    ),
                                }
                            },
                        },
                    }
                },
            }
        },
    }
}

/// Table 7-16: the chroma prediction mode of a value.
pub open spec fn chroma_mode_of(v: int) -> Intra_Chroma_Pred_Mode {
    if v == 0 {
        Intra_Chroma_Pred_Mode::DC
    } else if v == 1 {
        Intra_Chroma_Pred_Mode::Horizontal
    } else if v == 2 {
        Intra_Chroma_Pred_Mode::Vertical
    } else {
        Intra_Chroma_Pred_Mode::Plane
    }
}

fn b_group4_exec(h: u8, idx: u8) -> (t: BMbType)
    ensures
        t == b_group4(h, idx as int),
{
    if h == 0 {
        if idx == 0 {
            BMbType::B_Bi_16x16
        } else if idx == 1 {
            BMbType::B_L0_L0_16x8
        } else if idx == 2 {
            BMbType::B_L0_L0_8x16
        } else {
            BMbType::B_L1_L1_16x8
        }
    } else {
        if idx == 0 {
            BMbType::B_L1_L1_8x16
        } else if idx == 1 {
            BMbType::B_L0_L1_16x8
        } else if idx == 2 {
            BMbType::B_L0_L1_8x16
        } else {
            BMbType::B_L1_L0_16x8
        }
    }
}

fn b_group8_exec(idx: u8) -> (t: BMbType)
    ensures
        t == b_group8(idx as int),
{
    if idx == 0 {
        BMbType::B_L0_Bi_16x8
    } else if idx == 1 {
        BMbType::B_L0_Bi_8x16
    } else if idx == 2 {
        BMbType::B_L1_Bi_16x8
    } else if idx == 3 {
        BMbType::B_L1_Bi_8x16
    } else if idx == 4 {
        BMbType::B_Bi_L0_16x8
    } else if idx == 5 {
        BMbType::B_Bi_L0_8x16
    } else if idx == 6 {
        BMbType::B_Bi_L1_16x8
    } else {
        BMbType::B_Bi_L1_8x16
    }
}

impl<'a> CabacContext<'a> {
    /// Decodes the bin with context index `idx`, or passes the error on.
    fn bin(&mut self, idx: usize) -> (r: ParseResult<u8>)
        requires
            old(self).wf(),
            idx < 1024,
        ensures
            final(self).data() == old(self).data(),
            match r {
                Ok(b) => dec(old(self).eng(), old(self).data(), idx as int) == Some((b, final(self).eng()))
                    && final(self).wf() && b <= 1,
                Err(_) => dec(old(self).eng(), old(self).data(), idx as int) is None,
            },
    {
        proof {
            reveal(dec);
        }
        self.decode_bin(idx)
    }

    /// Table 9-37: `mb_type` in B slices, with the left (`a`) and upper
    /// (`b`) neighbours where available.
    pub fn parse_mb_type_b(&mut self, a: Option<NeighborMb>, b: Option<NeighborMb>) -> (r: ParseResult<
        CabacMbType,
    >)
        requires
            old(self).wf(),
        ensures
            final(self).data() == old(self).data(),
            match r {
                Ok(t) => mb_type_b_spec(
                    old(self).eng(),
                    old(self).data(),
                    cond_not_direct(a) + cond_not_direct(b),
                ) == Some((t, final(self).eng())) && (t != CabacMbType::I(IMbType::I_PCM)
                    ==> final(self).wf()),
                Err(_) => mb_type_b_spec(
                    old(self).eng(),
                    old(self).data(),
                    cond_not_direct(a) + cond_not_direct(b),
                ) is None,
            },
    {
        let fa = match a {
            Some(m) => !m.b_skip_or_direct,
            None => false,
        };
        let fb = match b {
            Some(m) => !m.b_skip_or_direct,
            None => false,
        };
        let inc0 = flag(fa) + flag(fb);
        let b0 = match self.bin(27 + inc0) {
            Ok(v) => v,
            Err(e) => {
                return Err(e);
            },
        };
        if b0 == 0 {
            return Ok(CabacMbType::B(BMbType::B_Direct_16x16));
        }
        let b1 = match self.bin(30) {
            Ok(v) => v,
            Err(e) => {
                return Err(e);
            },
        };
        if b1 == 0 {
            let b2 = match self.bin(32) {
                Ok(v) => v,
                Err(e) => {
                    return Err(e);
                },
            };
            return Ok(
                CabacMbType::B(
                    if b2 == 0 {
                        BMbType::B_L0_16x16
                    } else {
                        BMbType::B_L1_16x16
                    },
                ),
            );
        }
        self.parse_b_rest()
    }

    /// The bins of a B `mb_type` after `1 1` (`b_rest_spec`).
    fn parse_b_rest(&mut self) -> (r: ParseResult<CabacMbType>)
        requires
            old(self).wf(),
        ensures
            final(self).data() == old(self).data(),
            match r {
                Ok(t) => b_rest_spec(old(self).eng(), old(self).data()) == Some((t, final(self).eng()))
                    && (t != CabacMbType::I(IMbType::I_PCM) ==> final(self).wf()),
                Err(_) => b_rest_spec(old(self).eng(), old(self).data()) is None,
            },
    {
        let b2 = match self.bin(31) {
            Ok(v) => v,
            Err(e) => {
                return Err(e);
            },
        };
        let b3 = match self.bin(32) {
            Ok(v) => v,
            Err(e) => {
                return Err(e);
            },
        };
        if b2 == 0 {
            let x = match self.bin(32) {
                Ok(v) => v,
                Err(e) => {
                    return Err(e);
                },
            };
            let y = match self.bin(32) {
                Ok(v) => v,
                Err(e) => {
                    return Err(e);
                },
            };
            return Ok(CabacMbType::B(b_group4_exec(b3, 2 * x + y)));
        }
        if b3 == 0 {
            let x = match self.bin(32) {
                Ok(v) => v,
                Err(e) => {
                    return Err(e);
                },
            };
            let y = match self.bin(32) {
                Ok(v) => v,
                Err(e) => {
                    return Err(e);
                },
            };
            let z = match self.bin(32) {
                Ok(v) => v,
                Err(e) => {
                    return Err(e);
                },
            };
            return Ok(CabacMbType::B(b_group8_exec(4 * x + 2 * y + z)));
        }
        self.parse_b_last()
    }

    /// The bins of a B `mb_type` after `1 1 1 1` (`b_last_spec`).
    fn parse_b_last(&mut self) -> (r: ParseResult<CabacMbType>)
        requires
            old(self).wf(),
        ensures
            final(self).data() == old(self).data(),
            match r {
                Ok(t) => b_last_spec(old(self).eng(), old(self).data()) == Some((t, final(self).eng()))
                    && (t != CabacMbType::I(IMbType::I_PCM) ==> final(self).wf()),
                Err(_) => b_last_spec(old(self).eng(), old(self).data()) is None,
            },
    {
        let x = match self.bin(32) {
            Ok(v) => v,
            Err(e) => {
                return Err(e);
            },
        };
        if x == 0 {
            let y = match self.bin(32) {
                Ok(v) => v,
                Err(e) => {
                    return Err(e);
                },
            };
            if y == 0 {
                let z = match self.bin(32) {
                    Ok(v) => v,
                    Err(e) => {
                        return Err(e);
                    },
                };
                return Ok(
                    CabacMbType::B(
                        if z == 0 {
                            BMbType::B_Bi_Bi_16x8
                        } else {
                            BMbType::B_Bi_Bi_8x16
                        },
                    ),
                );
            }
            return match self.parse_intra_mb_type(32, 0, SyntaxElement::MbTypeISuffix) {
                Ok(t) => Ok(CabacMbType::I(t)),
                Err(e) => Err(e),
            };
        }
        let y = match self.bin(32) {
            Ok(v) => v,
            Err(e) => {
                return Err(e);
            },
        };
        Ok(
            CabacMbType::B(
                if y == 0 {
                    BMbType::B_L1_L0_8x16
                } else {
                    BMbType::B_8x8
                },
            ),
        )
    }

    /// Table 9-38: `sub_mb_type` in B slices.
    pub fn parse_sub_mb_type_b(&mut self) -> (r: ParseResult<BSubMbType>)
        requires
            old(self).wf(),
        ensures
            final(self).data() == old(self).data(),
            match r {
                Ok(t) => sub_mb_type_b_spec(old(self).eng(), old(self).data()) == Some(
                    (t, final(self).eng()),
                ) && final(self).wf(),
                Err(_) => sub_mb_type_b_spec(old(self).eng(), old(self).data()) is None,
            },
    {
        let b0 = match self.bin(36) {
            Ok(v) => v,
            Err(e) => {
                return Err(e);
            },
        };
        if b0 == 0 {
            return Ok(BSubMbType::B_Direct_8x8);
        }
        let b1 = match self.bin(37) {
            Ok(v) => v,
            Err(e) => {
                return Err(e);
            },
        };
        if b1 == 0 {
            let b2 = match self.bin(39) {
                Ok(v) => v,
                Err(e) => {
                    return Err(e);
                },
            };
            return Ok(
                if b2 == 0 {
                    BSubMbType::B_L0_8x8
                } else {
                    BSubMbType::B_L1_8x8
                },
            );
        }
        let b2 = match self.bin(38) {
            Ok(v) => v,
            Err(e) => {
                return Err(e);
            },
        };
        let b3 = match self.bin(39) {
            Ok(v) => v,
            Err(e) => {
                return Err(e);
            },
        };
        if b2 == 0 {
            let x = match self.bin(39) {
                Ok(v) => v,
                Err(e) => {
                    return Err(e);
                },
            };
            let idx = 2 * b3 + x;
            return Ok(
                if idx == 0 {
                    BSubMbType::B_Bi_8x8
                } else if idx == 1 {
                    BSubMbType::B_L0_8x4
                } else if idx == 2 {
                    BSubMbType::B_L0_4x8
                } else {
                    BSubMbType::B_L1_8x4
                },
            );
        }
        if b3 == 0 {
            let x = match self.bin(39) {
                Ok(v) => v,
                Err(e) => {
                    return Err(e);
                },
            };
            let y = match self.bin(39) {
                Ok(v) => v,
                Err(e) => {
                    return Err(e);
                },
            };
            let idx = 2 * x + y;
            return Ok(
                if idx == 0 {
                    BSubMbType::B_L1_4x8
                } else if idx == 1 {
                    BSubMbType::B_Bi_8x4
                } else if idx == 2 {
                    BSubMbType::B_Bi_4x8
                } else {
                    BSubMbType::B_L0_4x4
                },
            );
        }
        let x = match self.bin(39) {
            Ok(v) => v,
            Err(e) => {
                return Err(e);
            },
        };
        Ok(
            if x == 0 {
                BSubMbType::B_L1_4x4
            } else {
                BSubMbType::B_Bi_4x4
            },
        )
    }

    /// Section 9.3.3.1.1.8 and Table 9-34: `intra_chroma_pred_mode`, a
    /// truncated unary value with `cMax = 3`.
    pub fn parse_intra_chroma_pred_mode(&mut self, a: Option<NeighborMb>, b: Option<NeighborMb>) -> (r:
        ParseResult<Intra_Chroma_Pred_Mode>)
        requires
            old(self).wf(),
        ensures
            final(self).data() == old(self).data(),
            ({
                let ctx = CtxIncParams::Standard((cond_chroma_mode(a) + cond_chroma_mode(b)) as usize);
                let se = SyntaxElement::IntraChromaPredMode;
                match r {
                    Ok(m) => tu_spec(old(self).eng(), old(self).data(), se, ctx, spec_props(se), 3, 0) matches Some(
                        (v, e2),
                    ) && m == chroma_mode_of(v as int) && e2 == final(self).eng() && final(self).wf(),
                    Err(_) => tu_spec(old(self).eng(), old(self).data(), se, ctx, spec_props(se), 3, 0) is None,
                }
            }),
    {
        let inc = Self::get_ctx_idx_inc_intra_chroma_pred_mode(a, b);
        let ctx = CtxIncParams::Standard(inc);
        let se = SyntaxElement::IntraChromaPredMode;
        assert(bins_ok(se, ctx, spec_props(se))) by {
            assert forall|bb: int| 0 <= bb <= spec_props(se).max_bin_idx_ctx implies #[trigger] ctx_inc_defined(
                se,
                bb,
                ctx,
            ) && spec_props(se).ctx_idx_offset + spec_ctx_inc(se, bb, ctx) < 1024 by {}
        }
        let v = match self.parse_truncated_unary_bin(se, None, ctx) {
            Ok(v) => v,
            Err(e) => {
                return Err(e);
            },
        };
        Ok(
            if v == 0 {
                Intra_Chroma_Pred_Mode::DC
            } else if v == 1 {
                Intra_Chroma_Pred_Mode::Horizontal
            } else if v == 2 {
                Intra_Chroma_Pred_Mode::Vertical
            } else {
                Intra_Chroma_Pred_Mode::Plane
            },
        )
    }
}

/// Section 7.3.5.3.3: `coded_block_flag` of a block of category `cat` with
/// `ctxIdxInc` `inc`; it is decoded unless the block has 64 coefficients
/// outside 4:4:4 (`chroma_444`), where it is 1.
pub open spec fn cbf_spec(e: Engine, data: Seq<u8>, cat: int, inc: int, max: int, chroma_444: bool) -> Option<
    (u8, Engine),
> {
    if max != 64 || chroma_444 {
        decode_decision(e, data, cbf_offset(cat) + inc)
    } else {
        Some((1u8, e))
    }
}

/// Section 7.3.5.3.3: the significance map of a block of `max`
/// coefficients from scanning position `i` on, after the positions `map`:
/// `significant_coeff_flag` at each position before the last, followed by
/// `last_significant_coeff_flag` where it is 1; the last position is
/// significant when no earlier flag ended the map.
pub open spec fn sig_map_spec(e: Engine, data: Seq<u8>, cat: int, max: int, i: int, map: Seq<bool>) -> Option<
    (Seq<bool>, Engine),
>
    decreases max - i,
{
    if i < 0 || i >= max - 1 {
        Some((map.update(max - 1, true), e))
    } else {
        match decode_decision(e, data, sig_offset(cat) + spec_sig_inc(cat, i)) {
            None => None,
            Some((s, e1)) => if s == 0 {
                sig_map_spec(e1, data, cat, max, i + 1, map)
            } else {
                match decode_decision(e1, data, last_offset(cat) + spec_last_inc(cat, i)) {
                    None => None,
                    Some((l, e2)) => if l == 1 {
                        Some((map.update(i, true), e2))
                    } else {
                        sig_map_spec(e2, data, cat, max, i + 1, map.update(i, true))
                    },
                }
            },
        }
    }
}

/// Section 7.3.5.3.3: the levels of the significant positions `pos` and
/// below of `map`, highest position first, after `gt1` levels greater
/// than 1 and `eq1` equal to 1, written into `acc`: each is
/// `coeff_abs_level_minus1 + 1` with the sign of `coeff_sign_flag`.
pub open spec fn levels_cabac_spec(
    e: Engine,
    data: Seq<u8>,
    cat: int,
    map: Seq<bool>,
    pos: int,
    gt1: int,
    eq1: int,
    acc: Seq<i32>,
) -> Option<(Seq<i32>, Engine)>
    decreases pos + 1,
{
    if pos < 0 {
        Some((acc, e))
    } else if !map[pos] {
        levels_cabac_spec(e, data, cat, map, pos - 1, gt1, eq1, acc)
    } else {
        let se = SyntaxElement::CoeffAbsLevelMinus1(cat as usize);
        match ueg_spec(e, data, se, CtxIncParams::AbsLevel { gt1: gt1 as usize, eq1: eq1 as usize }, spec_props(se)) {
            None => None,
            Some((v, e1)) => match decode_bypass_spec(e1, data) {
                None => None,
                Some((s, e2)) => {
                    let abs = v + 1;
                    levels_cabac_spec(
                        e2,
                        data,
                        cat,
                        map,
                        pos - 1,
                        if abs == 1 {
                            gt1
                        } else {
                            gt1 + 1
                        },
                        if abs == 1 {
                            eq1 + 1
                        } else {
                            eq1
                        },
                        acc.update(
                            pos,
                            (if s == 1 {
                                -abs
                            } else {
                                abs
                            }) as i32,
                        ),
                    )
                },
            },
        }
    }
}

/// The number of `true` entries among the first `n` of `map`.
pub open spec fn count_set(map: Seq<bool>, n: int) -> nat
    decreases n,
{
    if n <= 0 {
        0
    } else {
        count_set(map, n - 1) + if map[n - 1] {
            1nat
        } else {
            0nat
        }
    }
}

/// Section 7.3.5.3.3: a CABAC residual block of category `cat` with `max`
/// coefficients, `ctxIdxInc` `inc` for its `coded_block_flag`: (the flag,
/// the number of significant coefficients, the 64 coefficients in scanning
/// order, zero past the block and where not significant, the engine after
/// it).
#[verifier::opaque]
pub open spec fn residual_block_cabac_spec(
    e: Engine,
    data: Seq<u8>,
    cat: int,
    inc: int,
    max: int,
    chroma_444: bool,
) -> Option<(bool, u8, Seq<i32>, Engine)> {
    let zeros = Seq::new(64, |i: int| 0i32);
    match cbf_spec(e, data, cat, inc, max, chroma_444) {
        None => None,
        Some((c, e1)) => if c == 0 {
            Some((false, 0u8, zeros, e1))
        } else {
            match sig_map_spec(e1, data, cat, max, 0, Seq::new(64, |i: int| false)) {
                None => None,
                Some((map, e2)) => match levels_cabac_spec(e2, data, cat, map, 63, 0, 0, zeros) {
                    None => None,
                    Some((levels, e3)) => Some((true, count_set(map, 64) as u8, levels, e3)),
                },
            }
        },
    }
}

/// The engine has not read past the stream.
pub open spec fn pos_ok(e: Engine, data: Seq<u8>) -> bool {
    e.pos <= total_bits(data)
}

proof fn lemma_renorm_pos(e: Engine, data: Seq<u8>)
    ensures
        renorm(e, data).pos == e.pos + renorm_bits(e.range),
    decreases 512 - e.range,
{
    if e.range > 0 && e.range < 256 {
        lemma_renorm_pos(
            Engine {
                range: 2 * e.range,
                offset: 2 * e.offset + stream_bit(data, e.pos),
                pos: e.pos + 1,
                ctx: e.ctx,
            },
            data,
        );
    }
}

proof fn lemma_decision_pos(e: Engine, data: Seq<u8>, ctx_idx: int)
    ensures
        decode_decision(e, data, ctx_idx) matches Some((b, e2)) ==> pos_ok(e2, data),
{
    let b = e.ctx[ctx_idx] as int;
    let p = (b / 2) % 64;
    let mps = b % 2;
    let r_lps = range_lps(p, (e.range / 64) % 4);
    let r_mps = e.range - r_lps;
    let lps = e.offset >= r_mps;
    let e1 = if lps {
        Engine {
            range: r_lps,
            offset: e.offset - r_mps,
            pos: e.pos,
            ctx: e.ctx.update(
                ctx_idx,
                (2 * trans_lps(p) + if p == 0 {
                    1 - mps
                } else {
                    mps
                }) as u8,
            ),
        }
    } else {
        Engine { range: r_mps, offset: e.offset, pos: e.pos, ctx: e.ctx.update(ctx_idx, (2 * trans_mps(p) + mps) as u8) }
    };
    lemma_renorm_pos(e1, data);
}

proof fn lemma_tu_pos(
    e: Engine,
    data: Seq<u8>,
    se: SyntaxElement,
    ctx: CtxIncParams,
    props: CabacTableEntry,
    c_max: int,
    bin: int,
)
    requires
        pos_ok(e, data),
    ensures
        tu_spec(e, data, se, ctx, props, c_max, bin) matches Some((v, e2)) ==> pos_ok(e2, data),
    decreases c_max - bin,
{
    if bin < c_max {
        lemma_decision_pos(e, data, bin_ctx_idx(se, ctx, props, bin));
        match decode_decision(e, data, bin_ctx_idx(se, ctx, props, bin)) {
            None => {},
            Some((b, e2)) => {
                if b != 0 {
                    lemma_tu_pos(e2, data, se, ctx, props, c_max, bin + 1);
                }
            },
        }
    }
}

proof fn lemma_bypass_bits_bound(e: Engine, data: Seq<u8>, n: nat)
    requires
        pos_ok(e, data),
    ensures
        bypass_bits_spec(e, data, n) matches Some((v, e2)) ==> 0 <= v < vstd::arithmetic::power2::pow2(n)
            && pos_ok(e2, data),
    decreases n,
{
    vstd::arithmetic::power2::lemma2_to64();
    if n > 0 {
        lemma_bypass_bits_bound(e, data, (n - 1) as nat);
        vstd::arithmetic::power2::lemma_pow2_unfold(n);
        match bypass_bits_spec(e, data, (n - 1) as nat) {
            None => {},
            Some((v, e1)) => match decode_bypass_spec(e1, data) {
                None => {},
                Some((b, e2)) => {
                    assert(b <= 1);
                    assert(0 <= 2 * v + b < vstd::arithmetic::power2::pow2(n));
                },
            },
        }
    }
}

proof fn lemma_egk_bound(e: Engine, data: Seq<u8>, k: int, acc: int)
    requires
        pos_ok(e, data),
        0 <= k,
        0 <= acc,
        k < 30 ==> acc < vstd::arithmetic::power2::pow2(k as nat),
    ensures
        egk_spec(e, data, k, acc) matches Some((v, e2)) ==> 0 <= v < vstd::arithmetic::power2::pow2(30)
            && pos_ok(e2, data),
    decreases total_bits(data) - e.pos,
{
    if k < 30 {
        vstd::arithmetic::power2::lemma_pow2_unfold((k + 1) as nat);
        if k + 1 < 30 {
            vstd::arithmetic::power2::lemma_pow2_strictly_increases((k + 1) as nat, 30);
        }
        match decode_bypass_spec(e, data) {
            None => {},
            Some((b, e2)) => {
                if b == 1 {
                    lemma_egk_bound(e2, data, k + 1, acc + vstd::arithmetic::power2::pow2(k as nat));
                } else {
                    lemma_bypass_bits_bound(e2, data, k as nat);
                }
            },
        }
    }
}

/// `coeff_abs_level_minus1` is non-negative and below `14 + 2^30`.
proof fn lemma_abs_level_bound(e: Engine, data: Seq<u8>, cat: int, ctx: CtxIncParams)
    requires
        pos_ok(e, data),
        0 <= cat <= 13,
    ensures
        ueg_spec(
            e,
            data,
            SyntaxElement::CoeffAbsLevelMinus1(cat as usize),
            ctx,
            spec_props(SyntaxElement::CoeffAbsLevelMinus1(cat as usize)),
        ) matches Some((v, e2)) ==> 0 <= v < 14 + 0x4000_0000 && pos_ok(e2, data),
{
    let se = SyntaxElement::CoeffAbsLevelMinus1(cat as usize);
    let props = spec_props(se);
    lemma_tu_pos(e, data, se, ctx, props, 14, 0);
    lemma_tu_bound(e, data, se, ctx, props, 14, 0);
    vstd::arithmetic::power2::lemma2_to64();
    match tu_spec(e, data, se, ctx, props, 14, 0) {
        None => {},
        Some((prefix, e1)) => {
            if prefix >= 14 {
                lemma_egk_bound(e1, data, 0, 0);
            }
        },
    }
}

/// The levels of `levels_cabac_spec` are non-zero exactly at the
/// significant positions `pos` and below (from zero there), and keep
/// `acc` above.
proof fn lemma_levels_nonzero(
    e: Engine,
    data: Seq<u8>,
    cat: int,
    map: Seq<bool>,
    pos: int,
    gt1: int,
    eq1: int,
    acc: Seq<i32>,
)
    requires
        pos_ok(e, data),
        0 <= cat <= 13,
        -1 <= pos < 64,
        map.len() == 64,
        acc.len() == 64,
        0 <= gt1,
        0 <= eq1,
        forall|i: int| 0 <= i <= pos ==> acc[i] == 0,
    ensures
        levels_cabac_spec(e, data, cat, map, pos, gt1, eq1, acc) matches Some((out, e2)) ==> {
            &&& out.len() == 64
            &&& forall|i: int| 0 <= i <= pos ==> (#[trigger] out[i] != 0) == map[i]
            &&& forall|i: int| pos < i < 64 ==> #[trigger] out[i] == acc[i]
        },
    decreases pos + 1,
{
    if pos >= 0 {
        if !map[pos] {
            lemma_levels_nonzero(e, data, cat, map, pos - 1, gt1, eq1, acc);
        } else {
            let se = SyntaxElement::CoeffAbsLevelMinus1(cat as usize);
            let ctx = CtxIncParams::AbsLevel { gt1: gt1 as usize, eq1: eq1 as usize };
            lemma_abs_level_bound(e, data, cat, ctx);
            match ueg_spec(e, data, se, ctx, spec_props(se)) {
                None => {},
                Some((v, e1)) => match decode_bypass_spec(e1, data) {
                    None => {},
                    Some((sgn, e2)) => {
                        let abs = v + 1;
                        let lv = (if sgn == 1 {
                            -abs
                        } else {
                            abs
                        }) as i32;
                        assert(lv != 0);
                        let acc2 = acc.update(pos, lv);
                        lemma_levels_nonzero(
                            e2,
                            data,
                            cat,
                            map,
                            pos - 1,
                            if abs == 1 {
                                gt1
                            } else {
                                gt1 + 1
                            },
                            if abs == 1 {
                                eq1 + 1
                            } else {
                                eq1
                            },
                            acc2,
                        );
                    },
                },
            }
        }
    }
}

/// The significance map ends with some position significant, and reads no
/// further than the stream.
#[verifier::spinoff_prover]
#[verifier::rlimit(40)]
proof fn lemma_sig_map_set(e: Engine, data: Seq<u8>, cat: int, max: int, i: int, map: Seq<bool>)
    requires
        pos_ok(e, data),
        1 <= max <= 64,
        0 <= i,
        map.len() == 64,
    ensures
        sig_map_spec(e, data, cat, max, i, map) matches Some((m2, e2)) ==> m2.len() == 64 && pos_ok(e2, data)
            && exists|j: int| 0 <= j < 64 && #[trigger] m2[j],
    decreases max - i,
{
    if i >= max - 1 {
        assert(map.update(max - 1, true)[max - 1]);
    } else {
        lemma_decision_pos(e, data, sig_offset(cat) + spec_sig_inc(cat, i));
        match decode_decision(e, data, sig_offset(cat) + spec_sig_inc(cat, i)) {
            None => {},
            Some((sg, e1)) => if sg == 0 {
                lemma_sig_map_set(e1, data, cat, max, i + 1, map);
            } else {
                lemma_decision_pos(e1, data, last_offset(cat) + spec_last_inc(cat, i));
                match decode_decision(e1, data, last_offset(cat) + spec_last_inc(cat, i)) {
                    None => {},
                    Some((l, e2)) => if l == 1 {
                        assert(map.update(i, true)[i]);
                    } else {
                        lemma_sig_map_set(e2, data, cat, max, i + 1, map.update(i, true));
                    },
                }
            },
        }
    }
}

proof fn lemma_count_matches(s: Seq<i32>, m: Seq<bool>, n: int)
    requires
        0 <= n <= s.len(),
        n <= m.len(),
        forall|i: int| 0 <= i < n ==> (#[trigger] s[i] != 0) == m[i],
    ensures
        crate::cavlc::count_nonzero(s, n) == count_set(m, n),
        count_set(m, n) <= n,
        (exists|j: int| 0 <= j < n && #[trigger] m[j]) ==> count_set(m, n) >= 1,
    decreases n,
{
    if n > 0 {
        lemma_count_matches(s, m, n - 1);
        if exists|j: int| 0 <= j < n && #[trigger] m[j] {
            let j = choose|j: int| 0 <= j < n && #[trigger] m[j];
            if j < n - 1 {
                assert(exists|j: int| 0 <= j < n - 1 && #[trigger] m[j]);
            }
        }
    }
}

/// A CABAC residual block's `coded_block_flag` is 1 exactly when one of its
/// levels is non-zero, and the count it gives is the number of its
/// non-zero levels.
#[verifier::spinoff_prover]
#[verifier::rlimit(60)]
pub proof fn lemma_cabac_block_counts_nonzero(
    e: Engine,
    data: Seq<u8>,
    cat: int,
    inc: int,
    max: int,
    chroma_444: bool,
)
    requires
        pos_ok(e, data),
        0 <= cat <= 13,
        1 <= max <= 64,
    ensures
        residual_block_cabac_spec(e, data, cat, inc, max, chroma_444) matches Some((cbf, n, lv, e2)) ==> {
            &&& lv.len() == 64
            &&& n == crate::cavlc::count_nonzero(lv, 64)
            &&& cbf == (n > 0)
        },
{
    reveal(residual_block_cabac_spec);
    let zeros = Seq::new(64, |i: int| 0i32);
    if max != 64 || chroma_444 {
        lemma_decision_pos(e, data, cbf_offset(cat) + inc);
    }
    match cbf_spec(e, data, cat, inc, max, chroma_444) {
        None => {},
        Some((c, e1)) => if c == 0 {
            crate::cavlc::lemma_count_nonzero_zeros(zeros, 64);
        } else {
            let m0 = Seq::new(64, |i: int| false);
            lemma_sig_map_set(e1, data, cat, max, 0, m0);
            match sig_map_spec(e1, data, cat, max, 0, m0) {
                None => {},
                Some((map, e2)) => {
                    lemma_levels_nonzero(e2, data, cat, map, 63, 0, 0, zeros);
                    match levels_cabac_spec(e2, data, cat, map, 63, 0, 0, zeros) {
                        None => {},
                        Some((levels, e3)) => {
                            lemma_count_matches(levels, map, 64);
                            assert(count_set(map, 64) >= 1);
                            assert((count_set(map, 64) as u8) as int == count_set(map, 64));
                        },
                    }
                },
            }
        },
    }
}

impl<'a> CabacContext<'a> {
    /// Section 7.3.5.3.3: the significance map of a block of category `cat`
    /// with `max` coefficients into `map` (see `sig_map_spec`).
    fn parse_sig_map(&mut self, cat: usize, max: usize, map: &mut [bool; 64]) -> (r: ParseResult<()>)
        requires
            old(self).wf(),
            cat <= 13,
            1 <= max <= 64,
            old(map)@ == Seq::new(64, |i: int| false),
        ensures
            final(self).data() == old(self).data(),
            match r {
                Ok(_) => sig_map_spec(old(self).eng(), old(self).data(), cat as int, max as int, 0, old(map)@)
                    == Some((final(map)@, final(self).eng())) && final(self).wf(),
                Err(_) => sig_map_spec(old(self).eng(), old(self).data(), cat as int, max as int, 0, old(map)@)
                    is None,
            },
    {
        let sig_off = get_syntax_element_properties(SyntaxElement::SignificantCoeffFlag(cat)).ctx_idx_offset as usize;
        let last_off = get_syntax_element_properties(SyntaxElement::LastSignificantCoeffFlag(cat)).ctx_idx_offset
            as usize;
        let ghost e0 = self.eng();
        let ghost d = self.data();
        let ghost m0 = map@;
        let mut i: usize = 0;
        while i + 1 < max
            invariant
                e0 == old(self).eng(),
                d == old(self).data(),
                m0 == old(map)@,
                self.wf(),
                self.data() == d,
                cat <= 13,
                1 <= max <= 64,
                i < max,
                sig_off == sig_offset(cat as int),
                last_off == last_offset(cat as int),
                map@.len() == 64,
                sig_map_spec(e0, d, cat as int, max as int, 0, m0) == sig_map_spec(
                    self.eng(),
                    d,
                    cat as int,
                    max as int,
                    i as int,
                    map@,
                ),
            decreases max - i,
        {
            let sig_inc = CabacContext::get_ctx_idx_inc_sig_coeff_flag(cat, i);
            let sig = match self.decode_bin(sig_off + sig_inc) {
                Ok(b) => b,
                Err(e) => return Err(e),
            };
            if sig == 1 {
                map[i] = true;
                let last_inc = CabacContext::get_ctx_idx_inc_last_sig_coeff_flag(cat, i);
                let last = match self.decode_bin(last_off + last_inc) {
                    Ok(b) => b,
                    Err(e) => return Err(e),
                };
                if last == 1 {
                    return Ok(());
                }
            }
            i = i + 1;
        }
        map[max - 1] = true;
        Ok(())
    }
}

impl<'a> CabacContext<'a> {
    /// Section 7.3.5.3.3: the levels of the significant positions of `map`
    /// into `coeff_level` (see `levels_cabac_spec`).
    fn parse_levels_cabac(&mut self, cat: usize, map: &[bool; 64], coeff_level: &mut [i32; 64]) -> (r: ParseResult<
        (),
    >)
        requires
            old(self).wf(),
            cat <= 13,
        ensures
            final(self).data() == old(self).data(),
            match r {
                Ok(_) => levels_cabac_spec(old(self).eng(), old(self).data(), cat as int, map@, 63, 0, 0, old(coeff_level)@)
                    == Some((final(coeff_level)@, final(self).eng())) && final(self).wf(),
                Err(_) => levels_cabac_spec(old(self).eng(), old(self).data(), cat as int, map@, 63, 0, 0, old(coeff_level)@)
                    is None,
            },
    {
        let se = SyntaxElement::CoeffAbsLevelMinus1(cat);
        let props = get_syntax_element_properties(se);
        let ghost e0 = self.eng();
        let ghost d = self.data();
        let ghost c0 = coeff_level@;
        let mut gt1: usize = 0;
        let mut eq1: usize = 0;
        let mut k: usize = 64;
        while k > 0
            invariant
                e0 == old(self).eng(),
                d == old(self).data(),
                c0 == old(coeff_level)@,
                self.wf(),
                self.data() == d,
                cat <= 13,
                props == spec_props(se),
                se == SyntaxElement::CoeffAbsLevelMinus1(cat),
                k <= 64,
                gt1 + eq1 + k <= 64,
                levels_cabac_spec(e0, d, cat as int, map@, 63, 0, 0, c0) == levels_cabac_spec(
                    self.eng(),
                    d,
                    cat as int,
                    map@,
                    k - 1,
                    gt1 as int,
                    eq1 as int,
                    coeff_level@,
                ),
            decreases k,
        {
            let pos = k - 1;
            if map[pos] {
                let ctx = CtxIncParams::AbsLevel { gt1, eq1 };
                assert(bins_ok(se, ctx, props)) by {
                    assert forall|b: int| 0 <= b <= props.max_bin_idx_ctx implies #[trigger] ctx_inc_defined(se, b, ctx)
                        && props.ctx_idx_offset + spec_ctx_inc(se, b, ctx) < 1024 by {}
                }
                let v = match self.parse_ueg_k_with(se, ctx, &props) {
                    Ok(v) => v,
                    Err(e) => return Err(e),
                };
                let sign = match self.decode_bypass() {
                    Ok(b) => b,
                    Err(e) => return Err(e),
                };
                let abs = v + 1;
                coeff_level[pos] = if sign == 1 {
                    -abs
                } else {
                    abs
                };
                if abs == 1 {
                    eq1 = eq1 + 1;
                } else {
                    gt1 = gt1 + 1;
                }
            }
            k = k - 1;
        }
        Ok(())
    }

    /// Section 7.3.5.3.3: parses a CABAC residual block
    /// (`residual_block_cabac`) of category `ctx_block_cat` with
    /// `max_num_coeff` coefficients, `cbf_ctx_inc` being the `ctxIdxInc` of
    /// its `coded_block_flag` (Section 9.3.3.1.1.9, from the neighbouring
    /// blocks). `coeff_level` receives the 64 coefficients in scanning
    /// order; the result is the `coded_block_flag` and the number of
    /// significant coefficients (see `residual_block_cabac_spec`). Field
    /// coded pictures are refused.
    pub fn parse_residual_block_cabac(
        &mut self,
        field_pic_flag: bool,
        chroma_444: bool,
        ctx_block_cat: usize,
        cbf_ctx_inc: usize,
        max_num_coeff: usize,
        coeff_level: &mut [i32; 64],
    ) -> (r: ParseResult<(bool, u8)>)
        requires
            old(self).wf(),
            ctx_block_cat <= 13,
            cbf_ctx_inc < 4,
            1 <= max_num_coeff <= 64,
        ensures
            final(self).data() == old(self).data(),
            field_pic_flag ==> r is Err && final(self).eng() == old(self).eng() && final(self).wf()
                && final(coeff_level)@ == old(coeff_level)@,
            match r {
                Ok((cbf, n)) => !field_pic_flag && residual_block_cabac_spec(
                    old(self).eng(),
                    old(self).data(),
                    ctx_block_cat as int,
                    cbf_ctx_inc as int,
                    max_num_coeff as int,
                    chroma_444,
                ) == Some((cbf, n, final(coeff_level)@, final(self).eng())) && final(self).wf(),
                Err(_) => field_pic_flag || residual_block_cabac_spec(
                    old(self).eng(),
                    old(self).data(),
                    ctx_block_cat as int,
                    cbf_ctx_inc as int,
                    max_num_coeff as int,
                    chroma_444,
                ) is None,
            },
    {
        proof {
            reveal(residual_block_cabac_spec);
        }
        if field_pic_flag {
            return Err("field-coded macroblock decoding is not supported".to_owned());
        }
        let zeros = [0i32; 64];
        assert(zeros@ =~= Seq::new(64, |i: int| 0i32));
        *coeff_level = zeros;
        let cbf = if max_num_coeff != 64 || chroma_444 {
            let off = get_syntax_element_properties(SyntaxElement::CodedBlockFlag(ctx_block_cat)).ctx_idx_offset as usize;
            match self.decode_bin(off + cbf_ctx_inc) {
                Ok(b) => b == 1,
                Err(e) => return Err(e),
            }
        } else {
            true
        };
        if !cbf {
            return Ok((false, 0));
        }
        let mut map = [false; 64];
        assert(map@ =~= Seq::new(64, |i: int| false));
        match self.parse_sig_map(ctx_block_cat, max_num_coeff, &mut map) {
            Ok(()) => {},
            Err(e) => return Err(e),
        }
        match self.parse_levels_cabac(ctx_block_cat, &map, coeff_level) {
            Ok(()) => {},
            Err(e) => return Err(e),
        }
        let mut n: u8 = 0;
        let mut i: usize = 0;
        while i < 64
            invariant
                i <= 64,
                n == count_set(map@, i as int),
                n <= i,
            decreases 64 - i,
        {
            if map[i] {
                n = n + 1;
            }
            i = i + 1;
        }
        Ok((true, n))
    }
}

/// The `coded_block_flag`s decoded in a macroblock: bit `k` of `luma_ac`
/// for 4x4 luma block `k` (all four bits of an 8x8 block for its flag),
/// bit `k` of `cb_ac` and `cr_ac` for 4x4 chroma block `k`.
#[derive(Clone, Copy, Debug, Default, PartialEq, Eq, Structural)]
pub struct CbfInfo {
    pub luma_dc: bool,
    pub luma_ac: u16,
    pub cb_dc: bool,
    pub cr_dc: bool,
    pub cb_ac: u8,
    pub cr_ac: u8,
}

/// What the `coded_block_flag` and `coded_block_pattern` contexts read of
/// the macroblock left of (A) or above (B) the current one; all false
/// when it is not available.
#[derive(Clone, Copy, Debug, Default, PartialEq, Eq, Structural)]
pub struct CachedNeighborMb {
    pub available: bool,
    pub is_pcm: bool,
    pub is_skipped: bool,
    pub is_intra_16x16: bool,
    pub transform_size_8x8_flag: bool,
    pub cbp: CodedBlockPattern,
    pub cbf: CbfInfo,
}

/// The neighbours A and B of the current macroblock.
#[derive(Clone, Copy, Debug, Default, PartialEq, Eq, Structural)]
pub struct ResidualNeighborCache {
    pub a: CachedNeighborMb,
    pub b: CachedNeighborMb,
}

impl ResidualNeighborCache {
    /// Neighbour `dir`, A or B.
    pub fn get(&self, dir: MbNeighborName) -> (n: &CachedNeighborMb)
        requires
            dir == MbNeighborName::A || dir == MbNeighborName::B,
        ensures
            *n == (if dir == MbNeighborName::A {
                self.a
            } else {
                self.b
            }),
    {
        match dir {
            MbNeighborName::A => &self.a,
            _ => &self.b,
        }
    }
}

/// What the context derivations read of the macroblock being decoded.
#[derive(Clone, Copy, Debug, PartialEq, Eq)]
pub struct CurrentMbInfo {
    pub mb_type: CabacMbType,
    pub motion: MbMotion,
    pub coded_block_pattern: CodedBlockPattern,
    pub transform_size_8x8_flag: bool,
    pub cbf: CbfInfo,
}

/// P_Skip or B_Skip.
pub open spec fn is_skip_type(t: CabacMbType) -> bool {
    t == CabacMbType::P(PMbType::P_Skip) || t == CabacMbType::B(BMbType::B_Skip)
}

/// An Intra_16x16 `mb_type`.
pub open spec fn is_intra_16x16_type(t: CabacMbType) -> bool {
    t matches CabacMbType::I(IMbType::I_16x16 { .. })
}

/// The `coded_block_flag` of block `k` of category `cat` (component `comp`
/// for chroma) among the flags `cbf`.
pub open spec fn spec_cbf_bit(cbf: CbfInfo, cat: int, comp: int, k: u8) -> bool {
    if cat == 0 {
        cbf.luma_dc
    } else if cat == 1 || cat == 2 || cat == 5 {
        (cbf.luma_ac >> (k as u16)) & 1u16 != 0
    } else if cat == 3 {
        if comp == 0 {
            cbf.cb_dc
        } else {
            cbf.cr_dc
        }
    } else if cat == 4 {
        if comp == 0 {
            (cbf.cb_ac >> k) & 1u8 != 0
        } else {
            (cbf.cr_ac >> k) & 1u8 != 0
        }
    } else {
        false
    }
}

/// Section 9.3.3.1.1.9: `condTermFlagN` of the `coded_block_flag` of block
/// `blk` of category `cat` (component `comp`) for neighbour `dir` (A or
/// B): 1 for an unavailable neighbour of an intra macroblock or an I_PCM
/// one, 0 for other unavailable or skipped ones; else the neighbouring
/// block's flag where its coded block pattern (and, for luma, transform
/// size) says it was coded, 0 where not.
pub open spec fn spec_cbf_cond(
    cache: ResidualNeighborCache,
    curr: CurrentMbInfo,
    cat: int,
    blk: int,
    comp: int,
    dir: MbNeighborName,
) -> int {
    let nbr = if cat == 3 || cat == 4 {
        spec_chroma4x4_neighbor(blk, dir)
    } else {
        spec_luma4x4_neighbor(blk, dir)
    };
    let k = nbr.0 as u8;
    let internal = nbr.1 is None;
    let nb = if dir == MbNeighborName::A {
        cache.a
    } else {
        cache.b
    };
    let cbp = if internal {
        curr.coded_block_pattern
    } else {
        nb.cbp
    };
    let cbf = if internal {
        curr.cbf
    } else {
        nb.cbf
    };
    let t8 = if internal {
        curr.transform_size_8x8_flag
    } else {
        nb.transform_size_8x8_flag
    };
    let luma_coded = ((cbp.0 % 16) >> (k / 4)) & 1u8 != 0;
    if !internal && !nb.available {
        if curr.mb_type is I {
            1
        } else {
            0
        }
    } else if (if internal {
        curr.mb_type == CabacMbType::I(IMbType::I_PCM)
    } else {
        nb.is_pcm
    }) {
        1
    } else if (if internal {
        is_skip_type(curr.mb_type)
    } else {
        nb.is_skipped
    }) {
        0
    } else if cat == 0 || cat == 6 || cat == 10 {
        if (if internal {
            is_intra_16x16_type(curr.mb_type)
        } else {
            nb.is_intra_16x16
        }) && spec_cbf_bit(cbf, cat, 0, k) {
            1
        } else {
            0
        }
    } else if cat == 1 || cat == 2 {
        if luma_coded && spec_cbf_bit(
            cbf,
            if t8 {
                5
            } else {
                cat
            },
            0,
            k,
        ) {
            1
        } else {
            0
        }
    } else if cat == 3 {
        if cbp.0 / 16 != 0 && spec_cbf_bit(cbf, 3, comp, k) {
            1
        } else {
            0
        }
    } else if cat == 4 {
        if cbp.0 / 16 == 2 && spec_cbf_bit(cbf, 4, comp, k) {
            1
        } else {
            0
        }
    } else if cat == 5 {
        if luma_coded && t8 && spec_cbf_bit(cbf, 5, 0, k) {
            1
        } else {
            0
        }
    } else {
        0
    }
}

/// The categories of Cb and Cr blocks in 4:4:4 whose `coded_block_flag`
/// context the decoder does not derive.
pub open spec fn cbf_cat_unsupported(cat: int) -> bool {
    cat == 7 || cat == 8 || cat == 9 || cat == 11 || cat == 12 || cat == 13
}

fn cbf_bit(cbf: &CbfInfo, ctx_block_cat: usize, comp_idx: usize, k: u8) -> (b: bool)
    requires
        k < 16,
        ctx_block_cat == 4 ==> k < 8,
    ensures
        b == spec_cbf_bit(*cbf, ctx_block_cat as int, comp_idx as int, k),
{
    if ctx_block_cat == 0 {
        cbf.luma_dc
    } else if ctx_block_cat == 1 || ctx_block_cat == 2 || ctx_block_cat == 5 {
        (cbf.luma_ac >> (k as u16)) & 1u16 != 0
    } else if ctx_block_cat == 3 {
        if comp_idx == 0 {
            cbf.cb_dc
        } else {
            cbf.cr_dc
        }
    } else if ctx_block_cat == 4 {
        if comp_idx == 0 {
            (cbf.cb_ac >> k) & 1u8 != 0
        } else {
            (cbf.cr_ac >> k) & 1u8 != 0
        }
    } else {
        false
    }
}

fn check_neighbor_cbf(
    cache: &ResidualNeighborCache,
    curr_mb: &CurrentMbInfo,
    ctx_block_cat: usize,
    blk_idx: usize,
    comp_idx: usize,
    dir: MbNeighborName,
) -> (c: usize)
    requires
        dir == MbNeighborName::A || dir == MbNeighborName::B,
        blk_idx < 16,
        (ctx_block_cat == 3 || ctx_block_cat == 4) ==> blk_idx < 4,
        !cbf_cat_unsupported(ctx_block_cat as int),
    ensures
        c == spec_cbf_cond(*cache, *curr_mb, ctx_block_cat as int, blk_idx as int, comp_idx as int, dir),
        c <= 1,
{
    let (k, mb_neighbor) = if ctx_block_cat == 3 || ctx_block_cat == 4 {
        get_4x4chroma_block_neighbor(blk_idx as u8, dir)
    } else {
        get_4x4luma_block_neighbor(blk_idx as u8, dir)
    };
    let internal = mb_neighbor.is_none();
    let nb = cache.get(dir);
    if !internal && !nb.available {
        return match curr_mb.mb_type {
            CabacMbType::I(_) => 1,
            _ => 0,
        };
    }
    let is_pcm = if internal {
        curr_mb.mb_type == CabacMbType::I(IMbType::I_PCM)
    } else {
        nb.is_pcm
    };
    if is_pcm {
        return 1;
    }
    let is_skipped = if internal {
        curr_mb.mb_type == CabacMbType::P(PMbType::P_Skip) || curr_mb.mb_type == CabacMbType::B(BMbType::B_Skip)
    } else {
        nb.is_skipped
    };
    if is_skipped {
        return 0;
    }
    let cbp = if internal {
        curr_mb.coded_block_pattern
    } else {
        nb.cbp
    };
    let cbf_src = if internal {
        &curr_mb.cbf
    } else {
        &nb.cbf
    };
    let t8 = if internal {
        curr_mb.transform_size_8x8_flag
    } else {
        nb.transform_size_8x8_flag
    };
    let luma_coded = (cbp.luma() >> (k / 4)) & 1u8 != 0;
    if ctx_block_cat == 0 || ctx_block_cat == 6 || ctx_block_cat == 10 {
        let is_intra_16x16 = if internal {
            match curr_mb.mb_type {
                CabacMbType::I(IMbType::I_16x16 { .. }) => true,
                _ => false,
            }
        } else {
            nb.is_intra_16x16
        };
        if is_intra_16x16 && cbf_bit(cbf_src, ctx_block_cat, 0, k) {
            1
        } else {
            0
        }
    } else if ctx_block_cat == 1 || ctx_block_cat == 2 {
        let cat = if t8 {
            5
        } else {
            ctx_block_cat
        };
        if luma_coded && cbf_bit(cbf_src, cat, 0, k) {
            1
        } else {
            0
        }
    } else if ctx_block_cat == 3 {
        if cbp.chroma() != 0 && cbf_bit(cbf_src, 3, comp_idx, k) {
            1
        } else {
            0
        }
    } else if ctx_block_cat == 4 {
        if cbp.chroma() == 2 && cbf_bit(cbf_src, 4, comp_idx, k) {
            1
        } else {
            0
        }
    } else if ctx_block_cat == 5 {
        if luma_coded && t8 && cbf_bit(cbf_src, 5, 0, k) {
            1
        } else {
            0
        }
    } else {
        0
    }
}

impl<'a> CabacContext<'a> {
    /// Section 9.3.3.1.1.9: `ctxIdxInc` of the `coded_block_flag` of block
    /// `blk_idx` of category `ctx_block_cat` (component `comp_idx` for
    /// chroma), `condTermFlagA + 2 * condTermFlagB` (see `spec_cbf_cond`).
    /// The Cb and Cr categories of 4:4:4 other than DC are not derived.
    pub fn get_ctx_idx_inc_coded_block_flag_cached(
        cache: &ResidualNeighborCache,
        curr_mb: &CurrentMbInfo,
        ctx_block_cat: usize,
        blk_idx: usize,
        comp_idx: usize,
    ) -> (inc: usize)
        requires
            blk_idx < 16,
            (ctx_block_cat == 3 || ctx_block_cat == 4) ==> blk_idx < 4,
            !cbf_cat_unsupported(ctx_block_cat as int),
        ensures
            inc == spec_cbf_cond(
                *cache,
                *curr_mb,
                ctx_block_cat as int,
                blk_idx as int,
                comp_idx as int,
                MbNeighborName::A,
            ) + 2 * spec_cbf_cond(
                *cache,
                *curr_mb,
                ctx_block_cat as int,
                blk_idx as int,
                comp_idx as int,
                MbNeighborName::B,
            ),
            inc < 4,
    {
        let a = check_neighbor_cbf(cache, curr_mb, ctx_block_cat, blk_idx, comp_idx, MbNeighborName::A);
        let b = check_neighbor_cbf(cache, curr_mb, ctx_block_cat, blk_idx, comp_idx, MbNeighborName::B);
        a + 2 * b
    }
}

/// Neighbour `dir` (A or B) of 4x4 luma block `blk` lies in the current
/// macroblock.
pub open spec fn nb_internal(blk: int, dir: MbNeighborName) -> bool {
    spec_luma4x4_neighbor(blk, dir).1 is None
}

/// The index of the 4x4 luma block next to `blk` in direction `dir`.
pub open spec fn nb_blk(blk: int, dir: MbNeighborName) -> int {
    spec_luma4x4_neighbor(blk, dir).0
}

/// Neighbour `dir` (A or B) among `a` and `b`.
pub open spec fn nb_mb<'m>(a: Option<&'m Macroblock>, b: Option<&'m Macroblock>, dir: MbNeighborName) -> Option<
    &'m Macroblock,
> {
    if dir == MbNeighborName::A {
        a
    } else {
        b
    }
}

/// The macroblock of the block next to `blk` is available: the current
/// one always is.
pub open spec fn spec_nb_available(a: Option<&Macroblock>, b: Option<&Macroblock>, blk: int, dir: MbNeighborName) -> bool {
    nb_internal(blk, dir) || nb_mb(a, b, dir) is Some
}

/// The macroblock of the block next to `blk` is I_PCM.
pub open spec fn spec_nb_pcm(
    a: Option<&Macroblock>,
    b: Option<&Macroblock>,
    curr: CurrentMbInfo,
    blk: int,
    dir: MbNeighborName,
) -> bool {
    if nb_internal(blk, dir) {
        curr.mb_type == CabacMbType::I(IMbType::I_PCM)
    } else {
        nb_mb(a, b, dir) matches Some(m) && *m is PCM
    }
}

/// The macroblock of the block next to `blk` is P_Skip or B_Skip.
pub open spec fn spec_nb_skipped(
    a: Option<&Macroblock>,
    b: Option<&Macroblock>,
    curr: CurrentMbInfo,
    blk: int,
    dir: MbNeighborName,
) -> bool {
    if nb_internal(blk, dir) {
        is_skip_type(curr.mb_type)
    } else {
        nb_mb(a, b, dir) matches Some(m) && spec_is_skipped(*m)
    }
}

/// The macroblock of the block next to `blk` is an intra one.
pub open spec fn spec_nb_intra(
    a: Option<&Macroblock>,
    b: Option<&Macroblock>,
    curr: CurrentMbInfo,
    blk: int,
    dir: MbNeighborName,
) -> bool {
    if nb_internal(blk, dir) {
        curr.mb_type is I
    } else {
        nb_mb(a, b, dir) matches Some(m) && (*m is I || *m is PCM)
    }
}

/// The coded block pattern of the macroblock of the block next to `blk`,
/// if it is available.
pub open spec fn spec_nb_cbp(
    a: Option<&Macroblock>,
    b: Option<&Macroblock>,
    curr: CurrentMbInfo,
    blk: int,
    dir: MbNeighborName,
) -> Option<CodedBlockPattern> {
    if nb_internal(blk, dir) {
        Some(curr.coded_block_pattern)
    } else {
        match nb_mb(a, b, dir) {
            Some(m) => Some(spec_cbp(*m)),
            None => None,
        }
    }
}

/// `transform_size_8x8_flag` of the macroblock of the block next to `blk`;
/// false when it is not available.
pub open spec fn spec_nb_t8(
    a: Option<&Macroblock>,
    b: Option<&Macroblock>,
    curr: CurrentMbInfo,
    blk: int,
    dir: MbNeighborName,
) -> bool {
    if nb_internal(blk, dir) {
        curr.transform_size_8x8_flag
    } else {
        nb_mb(a, b, dir) matches Some(m) && spec_t8(*m)
    }
}

/// The motion record of 4x4 block `k` of `motion`.
pub open spec fn part_at(motion: MbMotion, k: int) -> PartitionInfo {
    motion.partitions@[blk4_y(k) / 4]@[blk4_x(k) / 4]
}

/// The motion of a P or B macroblock.
pub open spec fn mb_motion(m: Macroblock) -> Option<MbMotion> {
    match m {
        Macroblock::P(p) => Some(p.motion),
        Macroblock::B(b) => Some(b.motion),
        _ => None,
    }
}

/// The block next to `blk` is predicted in direct mode: in B_Skip or
/// B_Direct_16x16, or in a B_Direct_8x8 sub-macroblock of a neighbouring
/// B_8x8 macroblock.
pub open spec fn spec_nb_direct(
    a: Option<&Macroblock>,
    b: Option<&Macroblock>,
    curr: CurrentMbInfo,
    blk: int,
    dir: MbNeighborName,
) -> bool {
    if nb_internal(blk, dir) {
        curr.mb_type == CabacMbType::B(BMbType::B_Skip) || curr.mb_type == CabacMbType::B(BMbType::B_Direct_16x16)
    } else {
        match nb_mb(a, b, dir) {
            Some(m) => match *m {
                Macroblock::B(bm) => bm.mb_type == BMbType::B_Skip || bm.mb_type == BMbType::B_Direct_16x16 || (
                bm.mb_type == BMbType::B_8x8 && bm.sub_mb_types@[blk4_x(nb_blk(blk, dir)) / 8 + (blk4_y(
                    nb_blk(blk, dir),
                ) / 8) * 2] == BSubMbType::B_Direct_8x8),
                _ => false,
            },
            None => false,
        }
    }
}

/// The motion record of the block next to `blk`: `None` when its
/// macroblock is not available; for an intra neighbour, the default
/// record.
pub open spec fn spec_nb_part(
    a: Option<&Macroblock>,
    b: Option<&Macroblock>,
    curr: CurrentMbInfo,
    blk: int,
    dir: MbNeighborName,
) -> Option<PartitionInfo> {
    let k = nb_blk(blk, dir);
    if nb_internal(blk, dir) {
        Some(part_at(curr.motion, k))
    } else {
        match nb_mb(a, b, dir) {
            Some(m) => match mb_motion(*m) {
                Some(mo) => Some(part_at(mo, k)),
                None => Some(no_motion_record()),
            },
            None => None,
        }
    }
}

/// Answers what the context derivations ask of the blocks next to a 4x4
/// luma block: about the current macroblock from `curr_mb`, about the
/// neighbouring macroblocks A and B (when available) from `mb_a` and
/// `mb_b`.
pub struct NeighborAccessor<'a> {
    pub mb_a: Option<&'a Macroblock>,
    pub mb_b: Option<&'a Macroblock>,
    pub curr_mb: &'a CurrentMbInfo,
}

impl<'a> NeighborAccessor<'a> {
    pub fn new(mb_a: Option<&'a Macroblock>, mb_b: Option<&'a Macroblock>, curr_mb: &'a CurrentMbInfo) -> (r: Self)
        ensures
            r.mb_a == mb_a,
            r.mb_b == mb_b,
            *r.curr_mb == *curr_mb,
    {
        NeighborAccessor { mb_a, mb_b, curr_mb }
    }

    fn neighbor(&self, dir: MbNeighborName) -> (m: Option<&'a Macroblock>)
        ensures
            m == nb_mb(self.mb_a, self.mb_b, dir),
    {
        match dir {
            MbNeighborName::A => self.mb_a,
            _ => self.mb_b,
        }
    }

    /// See `spec_nb_available`.
    pub fn is_available(&self, blk_idx: u8, dir: MbNeighborName) -> (b: bool)
        requires
            blk_idx < 16,
            dir == MbNeighborName::A || dir == MbNeighborName::B,
        ensures
            b == spec_nb_available(self.mb_a, self.mb_b, blk_idx as int, dir),
    {
        let (_, mb_neighbor) = get_4x4luma_block_neighbor(blk_idx, dir);
        match mb_neighbor {
            None => true,
            Some(_) => self.neighbor(dir).is_some(),
        }
    }

    /// See `spec_nb_pcm`.
    pub fn is_pcm(&self, blk_idx: u8, dir: MbNeighborName) -> (b: bool)
        requires
            blk_idx < 16,
            dir == MbNeighborName::A || dir == MbNeighborName::B,
        ensures
            b == spec_nb_pcm(self.mb_a, self.mb_b, *self.curr_mb, blk_idx as int, dir),
    {
        let (_, mb_neighbor) = get_4x4luma_block_neighbor(blk_idx, dir);
        match mb_neighbor {
            None => self.curr_mb.mb_type == CabacMbType::I(IMbType::I_PCM),
            Some(_) => match self.neighbor(dir) {
                Some(Macroblock::PCM(_)) => true,
                _ => false,
            },
        }
    }

    /// See `spec_nb_skipped`.
    pub fn get_mb_type_is_skipped(&self, blk_idx: u8, dir: MbNeighborName) -> (b: bool)
        requires
            blk_idx < 16,
            dir == MbNeighborName::A || dir == MbNeighborName::B,
        ensures
            b == spec_nb_skipped(self.mb_a, self.mb_b, *self.curr_mb, blk_idx as int, dir),
    {
        let (_, mb_neighbor) = get_4x4luma_block_neighbor(blk_idx, dir);
        match mb_neighbor {
            None => self.curr_mb.mb_type == CabacMbType::P(PMbType::P_Skip) || self.curr_mb.mb_type
                == CabacMbType::B(BMbType::B_Skip),
            Some(_) => match self.neighbor(dir) {
                Some(m) => m.is_skipped(),
                None => false,
            },
        }
    }

    /// See `spec_nb_intra`.
    pub fn get_mb_type_is_intra(&self, blk_idx: u8, dir: MbNeighborName) -> (b: bool)
        requires
            blk_idx < 16,
            dir == MbNeighborName::A || dir == MbNeighborName::B,
        ensures
            b == spec_nb_intra(self.mb_a, self.mb_b, *self.curr_mb, blk_idx as int, dir),
    {
        let (_, mb_neighbor) = get_4x4luma_block_neighbor(blk_idx, dir);
        match mb_neighbor {
            None => match self.curr_mb.mb_type {
                CabacMbType::I(_) => true,
                _ => false,
            },
            Some(_) => match self.neighbor(dir) {
                Some(m) => m.is_intra(),
                None => false,
            },
        }
    }

    /// See `spec_nb_cbp`.
    pub fn get_cbp(&self, blk_idx: u8, dir: MbNeighborName) -> (c: Option<CodedBlockPattern>)
        requires
            blk_idx < 16,
            dir == MbNeighborName::A || dir == MbNeighborName::B,
        ensures
            c == spec_nb_cbp(self.mb_a, self.mb_b, *self.curr_mb, blk_idx as int, dir),
    {
        let (_, mb_neighbor) = get_4x4luma_block_neighbor(blk_idx, dir);
        match mb_neighbor {
            None => Some(self.curr_mb.coded_block_pattern),
            Some(_) => match self.neighbor(dir) {
                Some(m) => Some(m.get_coded_block_pattern()),
                None => None,
            },
        }
    }

    /// See `spec_nb_t8`.
    pub fn get_transform_size_8x8_flag(&self, blk_idx: u8, dir: MbNeighborName) -> (b: bool)
        requires
            blk_idx < 16,
            dir == MbNeighborName::A || dir == MbNeighborName::B,
        ensures
            b == spec_nb_t8(self.mb_a, self.mb_b, *self.curr_mb, blk_idx as int, dir),
    {
        let (_, mb_neighbor) = get_4x4luma_block_neighbor(blk_idx, dir);
        match mb_neighbor {
            None => self.curr_mb.transform_size_8x8_flag,
            Some(_) => match self.neighbor(dir) {
                Some(m) => m.transform_size_8x8_flag(),
                None => false,
            },
        }
    }

    /// See `spec_nb_direct`.
    pub fn is_direct_mode(&self, blk_idx: u8, dir: MbNeighborName) -> (b: bool)
        requires
            blk_idx < 16,
            dir == MbNeighborName::A || dir == MbNeighborName::B,
        ensures
            b == spec_nb_direct(self.mb_a, self.mb_b, *self.curr_mb, blk_idx as int, dir),
    {
        let (k, mb_neighbor) = get_4x4luma_block_neighbor(blk_idx, dir);
        match mb_neighbor {
            None => self.curr_mb.mb_type == CabacMbType::B(BMbType::B_Skip) || self.curr_mb.mb_type
                == CabacMbType::B(BMbType::B_Direct_16x16),
            Some(_) => match self.neighbor(dir) {
                Some(Macroblock::B(bm)) => {
                    if bm.mb_type == BMbType::B_Skip || bm.mb_type == BMbType::B_Direct_16x16 {
                        true
                    } else if bm.mb_type == BMbType::B_8x8 {
                        let (x, y) = luma4x4_col_row(k);
                        let b8 = x / 2 + (y / 2) * 2;
                        bm.sub_mb_types[b8] == BSubMbType::B_Direct_8x8
                    } else {
                        false
                    }
                },
                _ => false,
            },
        }
    }

    /// The motion record of the block next to `blk_idx` (see
    /// `spec_nb_part`).
    fn get_partition(&self, blk_idx: u8, dir: MbNeighborName) -> (p: Option<PartitionInfo>)
        requires
            blk_idx < 16,
            dir == MbNeighborName::A || dir == MbNeighborName::B,
        ensures
            p == spec_nb_part(self.mb_a, self.mb_b, *self.curr_mb, blk_idx as int, dir),
    {
        let (k, mb_neighbor) = get_4x4luma_block_neighbor(blk_idx, dir);
        let (x, y) = luma4x4_col_row(k);
        match mb_neighbor {
            None => Some(self.curr_mb.motion.partitions[y][x]),
            Some(_) => match self.neighbor(dir) {
                Some(Macroblock::P(pm)) => Some(pm.motion.partitions[y][x]),
                Some(Macroblock::B(bm)) => Some(bm.motion.partitions[y][x]),
                Some(_) => Some(PartitionInfo::no_motion()),
                None => None,
            },
        }
    }

    /// The reference index in list `list_idx` of the block next to
    /// `blk_idx`: 0 for an intra neighbour, `None` when not available.
    pub fn get_ref_idx(&self, blk_idx: u8, dir: MbNeighborName, list_idx: usize) -> (r: Option<u8>)
        requires
            blk_idx < 16,
            dir == MbNeighborName::A || dir == MbNeighborName::B,
        ensures
            r == match spec_nb_part(self.mb_a, self.mb_b, *self.curr_mb, blk_idx as int, dir) {
                Some(p) => Some(
                    if list_idx == 0 {
                        p.ref_idx_l0
                    } else {
                        p.ref_idx_l1
                    },
                ),
                None => None,
            },
    {
        match self.get_partition(blk_idx, dir) {
            Some(p) => Some(
                if list_idx == 0 {
                    p.ref_idx_l0
                } else {
                    p.ref_idx_l1
                },
            ),
            None => None,
        }
    }

    /// The motion vector difference in list `list_idx` of the block next to
    /// `blk_idx`: zero for an intra neighbour, `None` when not available.
    pub fn get_mvd(&self, blk_idx: u8, dir: MbNeighborName, list_idx: usize) -> (r: Option<MotionVector>)
        requires
            blk_idx < 16,
            dir == MbNeighborName::A || dir == MbNeighborName::B,
        ensures
            r == match spec_nb_part(self.mb_a, self.mb_b, *self.curr_mb, blk_idx as int, dir) {
                Some(p) => Some(
                    if list_idx == 0 {
                        p.mvd_l0
                    } else {
                        p.mvd_l1
                    },
                ),
                None => None,
            },
    {
        match self.get_partition(blk_idx, dir) {
            Some(p) => Some(
                if list_idx == 0 {
                    p.mvd_l0
                } else {
                    p.mvd_l1
                },
            ),
            None => None,
        }
    }

    /// The prediction mode of the block next to `blk_idx`: no mode for an
    /// intra or unavailable neighbour.
    pub fn get_pred_mode(&self, blk_idx: u8, dir: MbNeighborName) -> (r: MbPredictionMode)
        requires
            blk_idx < 16,
            dir == MbNeighborName::A || dir == MbNeighborName::B,
        ensures
            r == match spec_nb_part(self.mb_a, self.mb_b, *self.curr_mb, blk_idx as int, dir) {
                Some(p) => p.pred_mode,
                None => MbPredictionMode::NoMode,
            },
    {
        match self.get_partition(blk_idx, dir) {
            Some(p) => p.pred_mode,
            None => MbPredictionMode::NoMode,
        }
    }
}

/// Section 9.3.3.1.1.4: `condTermFlagN` of bin `bin` (the 8x8 block) of
/// the luma prefix of `coded_block_pattern`: 0 for an unavailable or I_PCM
/// neighbour, 1 for a skipped neighbouring macroblock, else 1 when the
/// neighbouring 8x8 block was not coded.
pub open spec fn spec_cbp_luma_cond(
    a: Option<&Macroblock>,
    b: Option<&Macroblock>,
    curr: CurrentMbInfo,
    bin: int,
    dir: MbNeighborName,
) -> int {
    let blk = 4 * bin;
    if !spec_nb_available(a, b, blk, dir) {
        0
    } else if spec_nb_pcm(a, b, curr, blk, dir) {
        0
    } else if !nb_internal(blk, dir) && spec_nb_skipped(a, b, curr, blk, dir) {
        1
    } else {
        match spec_nb_cbp(a, b, curr, blk, dir) {
            Some(c) => if ((c.0 % 16) >> ((nb_blk(blk, dir) / 4) as u8)) & 1u8 != 0 {
                0
            } else {
                1
            },
            None => 1,
        }
    }
}

/// Section 9.3.3.1.1.4: `condTermFlagN` of bin `bin` of the chroma suffix
/// of `coded_block_pattern`: 1 for an I_PCM neighbour, 0 for an unavailable
/// or skipped one, else whether its chroma pattern is non-zero (bin 0) or
/// 2 (bin 1).
pub open spec fn spec_cbp_chroma_cond(
    a: Option<&Macroblock>,
    b: Option<&Macroblock>,
    curr: CurrentMbInfo,
    bin: int,
    dir: MbNeighborName,
) -> int {
    if spec_nb_pcm(a, b, curr, 0, dir) {
        1
    } else if !spec_nb_available(a, b, 0, dir) {
        0
    } else if spec_nb_skipped(a, b, curr, 0, dir) {
        0
    } else {
        match spec_nb_cbp(a, b, curr, 0, dir) {
            Some(c) => if (bin == 0 && c.0 / 16 != 0) || (bin != 0 && c.0 / 16 == 2) {
                1
            } else {
                0
            },
            None => 0,
        }
    }
}

/// `ctxIdxInc` of luma bin `bin` of `coded_block_pattern`.
pub open spec fn spec_cbp_luma_inc(a: Option<&Macroblock>, b: Option<&Macroblock>, curr: CurrentMbInfo, bin: int) -> int {
    spec_cbp_luma_cond(a, b, curr, bin, MbNeighborName::A) + 2 * spec_cbp_luma_cond(a, b, curr, bin, MbNeighborName::B)
}

/// `ctxIdxInc` of chroma bin `bin` of `coded_block_pattern`.
pub open spec fn spec_cbp_chroma_inc(a: Option<&Macroblock>, b: Option<&Macroblock>, curr: CurrentMbInfo, bin: int) -> int {
    spec_cbp_chroma_cond(a, b, curr, bin, MbNeighborName::A) + 2 * spec_cbp_chroma_cond(
        a,
        b,
        curr,
        bin,
        MbNeighborName::B,
    ) + if bin == 1 {
        4int
    } else {
        0int
    }
}

fn cbp_luma_cond(accessor: &NeighborAccessor, bin_idx: u32, dir: MbNeighborName) -> (c: usize)
    requires
        bin_idx < 4,
        dir == MbNeighborName::A || dir == MbNeighborName::B,
    ensures
        c == spec_cbp_luma_cond(accessor.mb_a, accessor.mb_b, *accessor.curr_mb, bin_idx as int, dir),
        c <= 1,
{
    let blk_idx = (bin_idx * 4) as u8;
    if !accessor.is_available(blk_idx, dir) {
        return 0;
    }
    if accessor.is_pcm(blk_idx, dir) {
        return 0;
    }
    let (neighbor_blk_idx, mb_neighbor) = get_4x4luma_block_neighbor(blk_idx, dir);
    if mb_neighbor.is_some() && accessor.get_mb_type_is_skipped(blk_idx, dir) {
        return 1;
    }
    match accessor.get_cbp(blk_idx, dir) {
        Some(cbp) => {
            let bit_idx = neighbor_blk_idx / 4;
            if (cbp.luma() >> bit_idx) & 1 != 0 {
                0
            } else {
                1
            }
        },
        None => 1,
    }
}

fn cbp_chroma_cond(accessor: &NeighborAccessor, bin_idx: u32, dir: MbNeighborName) -> (c: usize)
    requires
        dir == MbNeighborName::A || dir == MbNeighborName::B,
    ensures
        c == spec_cbp_chroma_cond(accessor.mb_a, accessor.mb_b, *accessor.curr_mb, bin_idx as int, dir),
        c <= 1,
{
    if accessor.is_pcm(0, dir) {
        return 1;
    }
    if !accessor.is_available(0, dir) {
        return 0;
    }
    if accessor.get_mb_type_is_skipped(0, dir) {
        return 0;
    }
    match accessor.get_cbp(0, dir) {
        Some(cbp) => {
            let chroma = cbp.chroma();
            if (bin_idx == 0 && chroma != 0) || (bin_idx != 0 && chroma == 2) {
                1
            } else {
                0
            }
        },
        None => 0,
    }
}

impl<'a> CabacContext<'a> {
    /// Section 9.3.3.1.1.4: `ctxIdxInc` of luma bin `bin_idx` of
    /// `coded_block_pattern` (see `spec_cbp_luma_inc`).
    pub fn get_ctx_idx_inc_cbp_luma(accessor: &NeighborAccessor, bin_idx: u32) -> (inc: usize)
        requires
            bin_idx < 4,
        ensures
            inc == spec_cbp_luma_inc(accessor.mb_a, accessor.mb_b, *accessor.curr_mb, bin_idx as int),
            inc < 4,
    {
        cbp_luma_cond(accessor, bin_idx, MbNeighborName::A) + 2 * cbp_luma_cond(accessor, bin_idx, MbNeighborName::B)
    }

    /// Section 9.3.3.1.1.4: `ctxIdxInc` of chroma bin `bin_idx` of
    /// `coded_block_pattern` (see `spec_cbp_chroma_inc`).
    pub fn get_ctx_idx_inc_cbp_chroma(accessor: &NeighborAccessor, bin_idx: u32) -> (inc: usize)
        ensures
            inc == spec_cbp_chroma_inc(accessor.mb_a, accessor.mb_b, *accessor.curr_mb, bin_idx as int),
            inc < 8,
    {
        cbp_chroma_cond(accessor, bin_idx, MbNeighborName::A) + 2 * cbp_chroma_cond(accessor, bin_idx, MbNeighborName::B)
            + if bin_idx == 1 {
            4
        } else {
            0
        }
    }

    /// Section 9.3.3.1.1.10: `ctxIdxInc` of `transform_size_8x8_flag`, the
    /// number of neighbours A and B that use the 8x8 transform.
    pub fn get_ctx_idx_inc_transform_size_8x8_flag(accessor: &NeighborAccessor) -> (inc: usize)
        ensures
            inc == (if spec_nb_t8(accessor.mb_a, accessor.mb_b, *accessor.curr_mb, 0, MbNeighborName::A) {
                1int
            } else {
                0int
            }) + (if spec_nb_t8(accessor.mb_a, accessor.mb_b, *accessor.curr_mb, 0, MbNeighborName::B) {
                1int
            } else {
                0int
            }),
    {
        let a = accessor.get_transform_size_8x8_flag(0, MbNeighborName::A) as usize;
        let b = accessor.get_transform_size_8x8_flag(0, MbNeighborName::B) as usize;
        a + b
    }
}

/// `curr` with coded block pattern `cbp`.
pub open spec fn with_cbp(curr: CurrentMbInfo, cbp: u8) -> CurrentMbInfo {
    CurrentMbInfo { coded_block_pattern: CodedBlockPattern(cbp), ..curr }
}

/// Section 9.3.2.6: the luma prefix of `coded_block_pattern` from bin `i`
/// on, after the bits `luma`; the current macroblock's pattern is updated
/// after each bin, for the bins after it to read.
pub open spec fn cbp_luma_bins(
    e: Engine,
    data: Seq<u8>,
    a: Option<&Macroblock>,
    b: Option<&Macroblock>,
    cur: CurrentMbInfo,
    i: int,
    luma: int,
) -> Option<(int, Engine)>
    decreases 4 - i,
{
    if i < 0 || i >= 4 {
        Some((luma, e))
    } else {
        match decode_decision(e, data, 73 + spec_cbp_luma_inc(a, b, cur, i)) {
            None => None,
            Some((bin, e1)) => {
                let l = luma + bin * vstd::arithmetic::power2::pow2(i as nat);
                cbp_luma_bins(e1, data, a, b, with_cbp(cur, l as u8), i + 1, l)
            },
        }
    }
}

/// Section 9.3.2.6: `coded_block_pattern`, its luma prefix of four bins and,
/// where chroma is subsampled, its truncated unary chroma suffix.
pub open spec fn cbp_spec(
    e: Engine,
    data: Seq<u8>,
    a: Option<&Macroblock>,
    b: Option<&Macroblock>,
    curr: CurrentMbInfo,
    chroma_subsampled: bool,
) -> Option<(CodedBlockPattern, Engine)> {
    match cbp_luma_bins(e, data, a, b, curr, 0, 0) {
        None => None,
        Some((luma, e1)) => {
            let cur = with_cbp(curr, luma as u8);
            if !chroma_subsampled {
                Some((CodedBlockPattern(luma as u8), e1))
            } else {
                match decode_decision(e1, data, 77 + spec_cbp_chroma_inc(a, b, cur, 0)) {
                    None => None,
                    Some((b0, e2)) => if b0 == 0 {
                        Some((CodedBlockPattern(luma as u8), e2))
                    } else {
                        match decode_decision(e2, data, 77 + spec_cbp_chroma_inc(a, b, cur, 1)) {
                            None => None,
                            Some((b1, e3)) => Some(
                                (CodedBlockPattern(
                                    ((if b1 == 1 {
                                        2int
                                    } else {
                                        1int
                                    }) * 16 + luma) as u8,
                                ), e3),
                            ),
                        }
                    },
                }
            }
        },
    }
}

impl<'a> CabacContext<'a> {
    /// Section 7.3.5: decodes `coded_block_pattern` (see `cbp_spec`) and
    /// records it in `curr_mb`; `mb_a` and `mb_b` are the neighbouring
    /// macroblocks A and B, when available.
    #[verifier::rlimit(60)]
    #[verifier::spinoff_prover]
    pub fn parse_coded_block_pattern_cabac(
        &mut self,
        mb_a: Option<&Macroblock>,
        mb_b: Option<&Macroblock>,
        curr_mb: &mut CurrentMbInfo,
        chroma_subsampled: bool,
    ) -> (r: ParseResult<CodedBlockPattern>)
        requires
            old(self).wf(),
        ensures
            final(self).data() == old(self).data(),
            *final(curr_mb) == with_cbp(*old(curr_mb), final(curr_mb).coded_block_pattern.0),
            match r {
                Ok(cbp) => cbp_spec(old(self).eng(), old(self).data(), mb_a, mb_b, *old(curr_mb), chroma_subsampled)
                    == Some((cbp, final(self).eng())) && final(self).wf() && final(curr_mb).coded_block_pattern
                    == cbp,
                Err(_) => cbp_spec(old(self).eng(), old(self).data(), mb_a, mb_b, *old(curr_mb), chroma_subsampled)
                    is None,
            },
    {
        let props = get_syntax_element_properties(SyntaxElement::CodedBlockPattern);
        let ctx_idx_offset = props.ctx_idx_offset as usize;
        let ghost e0 = self.eng();
        let ghost d = self.data();
        let ghost c0 = *curr_mb;
        proof {
            vstd::arithmetic::power2::lemma2_to64();
        }
        let mut cbp_luma: u8 = 0;
        let mut i: u32 = 0;
        while i < 4
            invariant
                e0 == old(self).eng(),
                d == old(self).data(),
                c0 == *old(curr_mb),
                self.wf(),
                self.data() == d,
                ctx_idx_offset == 73,
                i <= 4,
                cbp_luma < vstd::arithmetic::power2::pow2(i as nat),
                *curr_mb == with_cbp(c0, curr_mb.coded_block_pattern.0),
                i > 0 ==> *curr_mb == with_cbp(c0, cbp_luma),
                i == 0 ==> *curr_mb == c0,
                cbp_luma_bins(e0, d, mb_a, mb_b, c0, 0, 0) == cbp_luma_bins(
                    self.eng(),
                    d,
                    mb_a,
                    mb_b,
                    *curr_mb,
                    i as int,
                    cbp_luma as int,
                ),
            decreases 4 - i,
        {
            proof {
                vstd::arithmetic::power2::lemma2_to64();
            }
            let inc = {
                let accessor = NeighborAccessor::new(mb_a, mb_b, curr_mb);
                CabacContext::get_ctx_idx_inc_cbp_luma(&accessor, i)
            };
            let bin = match self.decode_bin(ctx_idx_offset + inc) {
                Ok(b) => b,
                Err(e) => return Err(e),
            };
            let bit: u8 = if i == 0 {
                1
            } else if i == 1 {
                2
            } else if i == 2 {
                4
            } else {
                8
            };
            cbp_luma = cbp_luma + bin * bit;
            curr_mb.coded_block_pattern = CodedBlockPattern::new(0, cbp_luma);
            i = i + 1;
        }
        let mut cbp_chroma: u8 = 0;
        if chroma_subsampled {
            let off_c: usize = 77;
            let inc0 = {
                let accessor = NeighborAccessor::new(mb_a, mb_b, curr_mb);
                CabacContext::get_ctx_idx_inc_cbp_chroma(&accessor, 0)
            };
            let bit0 = match self.decode_bin(off_c + inc0) {
                Ok(b) => b,
                Err(e) => return Err(e),
            };
            if bit0 == 1 {
                let inc1 = {
                    let accessor = NeighborAccessor::new(mb_a, mb_b, curr_mb);
                    CabacContext::get_ctx_idx_inc_cbp_chroma(&accessor, 1)
                };
                let bit1 = match self.decode_bin(off_c + inc1) {
                    Ok(b) => b,
                    Err(e) => return Err(e),
                };
                cbp_chroma = if bit1 == 1 {
                    2
                } else {
                    1
                };
            }
        }
        let cbp = CodedBlockPattern::new(cbp_chroma, cbp_luma);
        curr_mb.coded_block_pattern = cbp;
        Ok(cbp)
    }

    /// Section 7.3.5: decodes `mb_qp_delta`, a unary value mapped to a
    /// signed one (Table 9-3), `ctx_idx_inc` being the `ctxIdxInc` of its
    /// first bin (`get_ctx_idx_inc_mb_qp_delta`). The one code that has no
    /// signed value in 32 bits is refused.
    pub fn parse_mb_qp_delta_cabac(&mut self, ctx_idx_inc: usize) -> (r: ParseResult<i32>)
        requires
            old(self).wf(),
            ctx_idx_inc <= 2,
        ensures
            final(self).data() == old(self).data(),
            match r {
                Ok(v) => match unary_spec(
                    old(self).eng(),
                    old(self).data(),
                    SyntaxElement::MbQpDelta,
                    CtxIncParams::Standard(ctx_idx_inc),
                    spec_props(SyntaxElement::MbQpDelta),
                    0,
                ) {
                    Some((m, e)) => m != 0x7FFF_FFFF && v == spec_signed_mapping(as_i32(m)) && e
                        == final(self).eng() && final(self).wf(),
                    None => false,
                },
                Err(_) => match unary_spec(
                    old(self).eng(),
                    old(self).data(),
                    SyntaxElement::MbQpDelta,
                    CtxIncParams::Standard(ctx_idx_inc),
                    spec_props(SyntaxElement::MbQpDelta),
                    0,
                ) {
                    Some((m, e)) => m == 0x7FFF_FFFF,
                    None => true,
                },
            },
    {
        let se = SyntaxElement::MbQpDelta;
        let ctx = CtxIncParams::Standard(ctx_idx_inc);
        assert(bins_ok(se, ctx, spec_props(se))) by {
            assert forall|b: int| 0 <= b <= spec_props(se).max_bin_idx_ctx implies #[trigger] ctx_inc_defined(se, b, ctx)
                && spec_props(se).ctx_idx_offset + spec_ctx_inc(se, b, ctx) < 1024 by {}
        }
        let mapped = match self.parse_unary_bin(se, ctx) {
            Ok(v) => v,
            Err(e) => return Err(e),
        };
        if mapped == 0x7FFF_FFFF {
            return Err("mb_qp_delta out of range".to_owned());
        }
        Ok(decode_signed_mapping(mapped))
    }
}

/// The 4x4 block at the top left of partition `part` of a macroblock of
/// type `t`, where the `ref_idx` context looks for neighbours.
pub open spec fn ref_idx_blk(t: CabacMbType, part: int) -> int {
    let quarter = if part == 1 {
        4int
    } else if part == 2 {
        8int
    } else if part == 3 {
        12int
    } else {
        0int
    };
    match t {
        CabacMbType::P(p) => match p {
            PMbType::P_L0_L0_16x8 => if part == 0 {
                0
            } else {
                8
            },
            PMbType::P_L0_L0_8x16 => if part == 0 {
                0
            } else {
                4
            },
            PMbType::P_8x8 => quarter,
            _ => 0,
        },
        CabacMbType::B(b) => if b == BMbType::B_8x8 {
            quarter
        } else if spec_num_mb_part_b(b) <= 1 {
            0
        } else if spec_mb_part_height_b(b) == 8 {
            if part == 0 {
                0
            } else {
                8
            }
        } else if part == 0 {
            0
        } else {
            4
        },
        _ => 0,
    }
}

/// A partition predicted in `mode` uses list `list`: list 0 for L0, Bi and
/// no mode; list 1 for L1 and Bi.
pub open spec fn pred_mode_uses_list(mode: MbPredictionMode, list: int) -> bool {
    if list == 0 {
        mode == MbPredictionMode::Pred_L0 || mode == MbPredictionMode::BiPred || mode == MbPredictionMode::NoMode
    } else if list == 1 {
        mode == MbPredictionMode::Pred_L1 || mode == MbPredictionMode::BiPred
    } else {
        true
    }
}

/// The prediction mode of the block next to `blk`; no mode when its
/// macroblock is not available.
pub open spec fn spec_nb_mode(a: Option<&Macroblock>, b: Option<&Macroblock>, curr: CurrentMbInfo, blk: int, dir: MbNeighborName) -> MbPredictionMode {
    match spec_nb_part(a, b, curr, blk, dir) {
        Some(p) => p.pred_mode,
        None => MbPredictionMode::NoMode,
    }
}

/// Section 9.3.3.1.1.6: `condTermFlagN` of `ref_idx_lX` for the block
/// `blk`: 0 for a neighbour that is unavailable, intra, predicted in
/// direct mode or not from list `list`; else whether its reference index
/// is above 0.
pub open spec fn spec_ref_idx_cond(
    a: Option<&Macroblock>,
    b: Option<&Macroblock>,
    curr: CurrentMbInfo,
    blk: int,
    list: int,
    dir: MbNeighborName,
) -> int {
    if !spec_nb_available(a, b, blk, dir) || spec_nb_intra(a, b, curr, blk, dir) || spec_nb_direct(
        a,
        b,
        curr,
        blk,
        dir,
    ) || !pred_mode_uses_list(spec_nb_mode(a, b, curr, blk, dir), list) {
        0
    } else {
        let r = match spec_nb_part(a, b, curr, blk, dir) {
            Some(p) => if list == 0 {
                p.ref_idx_l0
            } else {
                p.ref_idx_l1
            },
            None => 0u8,
        };
        if r > 0 {
            1
        } else {
            0
        }
    }
}

/// Section 9.3.3.1.1.7: `absMvdCompN` of component `comp` of `mvd_lX` for
/// the block `blk`: 0 for a neighbour that is unavailable, skipped or not
/// predicted from list `list`; else the magnitude of its motion vector
/// difference.
pub open spec fn spec_abs_mvd_comp(
    a: Option<&Macroblock>,
    b: Option<&Macroblock>,
    curr: CurrentMbInfo,
    blk: int,
    list: int,
    comp: int,
    dir: MbNeighborName,
) -> int {
    if !spec_nb_available(a, b, blk, dir) || spec_nb_skipped(a, b, curr, blk, dir) || !pred_mode_uses_list(
        spec_nb_mode(a, b, curr, blk, dir),
        list,
    ) {
        0
    } else {
        let mvd = match spec_nb_part(a, b, curr, blk, dir) {
            Some(p) => if list == 0 {
                p.mvd_l0
            } else {
                p.mvd_l1
            },
            None => MotionVector { x: 0, y: 0 },
        };
        let v = if comp == 0 {
            mvd.x as int
        } else {
            mvd.y as int
        };
        if v < 0 {
            -v
        } else {
            v
        }
    }
}

/// Section 9.3.3.1.1.7: `ctxIdxInc` of the first bin of `mvd_lX`: 2 when a
/// neighbour's difference or their sum exceeds 32, 1 when the sum exceeds
/// 2, else 0.
pub open spec fn spec_mvd_inc(a: Option<&Macroblock>, b: Option<&Macroblock>, curr: CurrentMbInfo, blk: int, list: int, comp: int) -> int {
    let abs_a = spec_abs_mvd_comp(a, b, curr, blk, list, comp, MbNeighborName::A);
    let abs_b = spec_abs_mvd_comp(a, b, curr, blk, list, comp, MbNeighborName::B);
    if abs_a > 32 || abs_b > 32 || abs_a + abs_b > 32 {
        2
    } else if abs_a + abs_b > 2 {
        1
    } else {
        0
    }
}

fn pred_mode_equal(mode: MbPredictionMode, list_idx: usize) -> (b: bool)
    ensures
        b == pred_mode_uses_list(mode, list_idx as int),
{
    if list_idx == 0 {
        mode == MbPredictionMode::Pred_L0 || mode == MbPredictionMode::BiPred || mode == MbPredictionMode::NoMode
    } else if list_idx == 1 {
        mode == MbPredictionMode::Pred_L1 || mode == MbPredictionMode::BiPred
    } else {
        true
    }
}

fn ref_idx_cond(accessor: &NeighborAccessor, blk_idx: u8, list_idx: usize, dir: MbNeighborName) -> (c: usize)
    requires
        blk_idx < 16,
        dir == MbNeighborName::A || dir == MbNeighborName::B,
    ensures
        c == spec_ref_idx_cond(accessor.mb_a, accessor.mb_b, *accessor.curr_mb, blk_idx as int, list_idx as int, dir),
        c <= 1,
{
    if !accessor.is_available(blk_idx, dir) {
        return 0;
    }
    if accessor.get_mb_type_is_intra(blk_idx, dir) {
        return 0;
    }
    if accessor.is_direct_mode(blk_idx, dir) {
        return 0;
    }
    let mode = accessor.get_pred_mode(blk_idx, dir);
    if !pred_mode_equal(mode, list_idx) {
        return 0;
    }
    let ref_idx = match accessor.get_ref_idx(blk_idx, dir, list_idx) {
        Some(r) => r,
        None => 0,
    };
    if ref_idx > 0 {
        1
    } else {
        0
    }
}

fn abs_mvd_comp(accessor: &NeighborAccessor, list_idx: usize, comp_idx: usize, blk_idx: u8, dir: MbNeighborName) -> (v: usize)
    requires
        blk_idx < 16,
        dir == MbNeighborName::A || dir == MbNeighborName::B,
    ensures
        v == spec_abs_mvd_comp(
            accessor.mb_a,
            accessor.mb_b,
            *accessor.curr_mb,
            blk_idx as int,
            list_idx as int,
            comp_idx as int,
            dir,
        ),
        v <= 32768,
{
    if !accessor.is_available(blk_idx, dir) {
        return 0;
    }
    if accessor.get_mb_type_is_skipped(blk_idx, dir) {
        return 0;
    }
    let mode = accessor.get_pred_mode(blk_idx, dir);
    if !pred_mode_equal(mode, list_idx) {
        return 0;
    }
    let mvd = match accessor.get_mvd(blk_idx, dir, list_idx) {
        Some(m) => m,
        None => MotionVector { x: 0, y: 0 },
    };
    let val = if comp_idx == 0 {
        mvd.x
    } else {
        mvd.y
    };
    if val < 0 {
        (-(val as i32)) as usize
    } else {
        val as usize
    }
}

impl<'a> CabacContext<'a> {
    /// Section 9.3.3.1.1.6: `ctxIdxInc` of the first bin of `ref_idx_lX`
    /// of partition `mb_part_idx`, `condTermFlagA + 2 * condTermFlagB` at
    /// the partition's top-left block (see `spec_ref_idx_cond`).
    pub fn get_ctx_idx_inc_ref_idx(accessor: &NeighborAccessor, mb_part_idx: usize, list_idx: usize) -> (inc: usize)
        ensures
            ({
                let blk = ref_idx_blk(accessor.curr_mb.mb_type, mb_part_idx as int);
                inc == spec_ref_idx_cond(accessor.mb_a, accessor.mb_b, *accessor.curr_mb, blk, list_idx as int, MbNeighborName::A)
                    + 2 * spec_ref_idx_cond(accessor.mb_a, accessor.mb_b, *accessor.curr_mb, blk, list_idx as int, MbNeighborName::B)
            }),
            inc < 4,
    {
        let quarter: u8 = if mb_part_idx == 1 {
            4
        } else if mb_part_idx == 2 {
            8
        } else if mb_part_idx == 3 {
            12
        } else {
            0
        };
        let blk_idx: u8 = match accessor.curr_mb.mb_type {
            CabacMbType::P(p) => match p {
                PMbType::P_L0_L0_16x8 => if mb_part_idx == 0 {
                    0
                } else {
                    8
                },
                PMbType::P_L0_L0_8x16 => if mb_part_idx == 0 {
                    0
                } else {
                    4
                },
                PMbType::P_8x8 => quarter,
                _ => 0,
            },
            CabacMbType::B(b) => if b == BMbType::B_8x8 {
                quarter
            } else if b.num_mb_part() <= 1 {
                0
            } else if b.mb_part_height() == 8 {
                if mb_part_idx == 0 {
                    0
                } else {
                    8
                }
            } else if mb_part_idx == 0 {
                0
            } else {
                4
            },
            _ => 0,
        };
        ref_idx_cond(accessor, blk_idx, list_idx, MbNeighborName::A) + 2 * ref_idx_cond(
            accessor,
            blk_idx,
            list_idx,
            MbNeighborName::B,
        )
    }

    /// Section 9.3.3.1.1.7: `ctxIdxInc` of the first bin of component
    /// `comp_idx` of `mvd_lX` at 4x4 block `blk_idx` (see `spec_mvd_inc`).
    pub fn get_ctx_idx_inc_mvd(accessor: &NeighborAccessor, list_idx: usize, comp_idx: usize, blk_idx: usize) -> (inc: usize)
        requires
            blk_idx < 16,
        ensures
            inc == spec_mvd_inc(accessor.mb_a, accessor.mb_b, *accessor.curr_mb, blk_idx as int, list_idx as int, comp_idx as int),
            inc <= 2,
    {
        let a = abs_mvd_comp(accessor, list_idx, comp_idx, blk_idx as u8, MbNeighborName::A);
        let b = abs_mvd_comp(accessor, list_idx, comp_idx, blk_idx as u8, MbNeighborName::B);
        if a > 32 || b > 32 || a + b > 32 {
            2
        } else if a + b > 2 {
            1
        } else {
            0
        }
    }

    /// Section 7.3.5.1: decodes `ref_idx_lX` of partition `mb_part_idx`, a
    /// unary value; one above `num_ref_idx_active_minus1` is refused.
    pub fn parse_ref_idx_cabac(
        &mut self,
        accessor: &NeighborAccessor,
        list_idx: usize,
        num_ref_idx_active_minus1: u32,
        mb_part_idx: usize,
    ) -> (r: ParseResult<u8>)
        requires
            old(self).wf(),
        ensures
            final(self).data() == old(self).data(),
            ({
                let blk = ref_idx_blk(accessor.curr_mb.mb_type, mb_part_idx as int);
                let inc = spec_ref_idx_cond(accessor.mb_a, accessor.mb_b, *accessor.curr_mb, blk, list_idx as int, MbNeighborName::A)
                    + 2 * spec_ref_idx_cond(accessor.mb_a, accessor.mb_b, *accessor.curr_mb, blk, list_idx as int, MbNeighborName::B);
                let se = SyntaxElement::RefIdx(list_idx);
                let u = unary_spec(old(self).eng(), old(self).data(), se, CtxIncParams::Standard(inc as usize), spec_props(se), 0);
                match r {
                    Ok(v) => u matches Some((m, e)) && m <= num_ref_idx_active_minus1 && v == m as u8 && e == final(self).eng()
                        && final(self).wf(),
                    Err(_) => u is None || (u matches Some((m, e)) && m > num_ref_idx_active_minus1),
                }
            }),
    {
        let inc = CabacContext::get_ctx_idx_inc_ref_idx(accessor, mb_part_idx, list_idx);
        let se = SyntaxElement::RefIdx(list_idx);
        let ctx = CtxIncParams::Standard(inc);
        assert(bins_ok(se, ctx, spec_props(se))) by {
            assert forall|b: int| 0 <= b <= spec_props(se).max_bin_idx_ctx implies #[trigger] ctx_inc_defined(se, b, ctx)
                && spec_props(se).ctx_idx_offset + spec_ctx_inc(se, b, ctx) < 1024 by {}
        }
        let val = match self.parse_unary_bin(se, ctx) {
            Ok(v) => v,
            Err(e) => return Err(e),
        };
        if val > num_ref_idx_active_minus1 {
            return Err("ref_idx exceeds num_ref_idx_active_minus1".to_owned());
        }
        Ok(val as u8)
    }

    /// Section 7.3.5.1: decodes component `comp_idx` of `mvd_lX` at 4x4
    /// block `blk_idx`, a signed UEG3 value kept in 16 bits.
    pub fn parse_mvd_cabac(&mut self, accessor: &NeighborAccessor, list_idx: usize, comp_idx: usize, blk_idx: usize) -> (r:
        ParseResult<i16>)
        requires
            old(self).wf(),
            blk_idx < 16,
        ensures
            final(self).data() == old(self).data(),
            ({
                let inc = spec_mvd_inc(accessor.mb_a, accessor.mb_b, *accessor.curr_mb, blk_idx as int, list_idx as int, comp_idx as int);
                let se = SyntaxElement::Mvd(list_idx, comp_idx);
                let u = ueg_spec(old(self).eng(), old(self).data(), se, CtxIncParams::Standard(inc as usize), spec_props(se));
                match r {
                    Ok(v) => u matches Some((m, e)) && v == m as i16 && e == final(self).eng() && final(self).wf(),
                    Err(_) => u is None,
                }
            }),
    {
        let inc = CabacContext::get_ctx_idx_inc_mvd(accessor, list_idx, comp_idx, blk_idx);
        let se = SyntaxElement::Mvd(list_idx, comp_idx);
        let ctx = CtxIncParams::Standard(inc);
        assert(bins_ok(se, ctx, spec_props(se))) by {
            assert forall|b: int| 0 <= b <= spec_props(se).max_bin_idx_ctx implies #[trigger] ctx_inc_defined(se, b, ctx)
                && spec_props(se).ctx_idx_offset + spec_ctx_inc(se, b, ctx) < 1024 by {}
        }
        let val = match self.parse_ueg_k(se, ctx) {
            Ok(v) => v,
            Err(e) => return Err(e),
        };
        Ok(val as i16)
    }
}

/// `ctxBlockCat`, block index, component and `maxNumCoeff` of block `s`.
pub open spec fn block_cat(s: ResidualBlock) -> (int, int, int, int) {
    match s {
        ResidualBlock::LumaDc => (0, 0, 0, 16),
        ResidualBlock::LumaAc(k) => (1, k as int, 0, 15),
        ResidualBlock::Luma4x4(k) => (2, k as int, 0, 16),
        ResidualBlock::Luma8x8(k) => (5, k as int, 0, 64),
        ResidualBlock::ChromaDc(c) => (3, 0, c as int, 4),
        ResidualBlock::ChromaAc(c, k) => (4, k as int, c as int, 15),
    }
}

/// `ctxBlockCat`, block index, component and `maxNumCoeff` of block `s`
/// (see `block_cat`).
pub fn block_params(s: ResidualBlock) -> (r: (usize, usize, usize, usize))
    requires
        block_ok(s),
    ensures
        (r.0 as int, r.1 as int, r.2 as int, r.3 as int) == block_cat(s),
{
    match s {
        ResidualBlock::LumaDc => (0, 0, 0, 16),
        ResidualBlock::LumaAc(k) => (1, k as usize, 0, 15),
        ResidualBlock::Luma4x4(k) => (2, k as usize, 0, 16),
        ResidualBlock::Luma8x8(k) => (5, k as usize, 0, 64),
        ResidualBlock::ChromaDc(c) => (3, 0, c as usize, 4),
        ResidualBlock::ChromaAc(c, k) => (4, k as usize, c as usize, 15),
    }
}

/// `ctxIdxInc` of the `coded_block_flag` of block `s`: none is decoded for
/// an 8x8 block outside 4:4:4 (`c444`), whose flag is inferred.
pub open spec fn job_cbf_inc(cache: ResidualNeighborCache, curr: CurrentMbInfo, s: ResidualBlock, c444: bool) -> int {
    let (cat, blk, comp, max) = block_cat(s);
    if max != 64 || c444 {
        spec_cbf_cond(cache, curr, cat, blk, comp, MbNeighborName::A) + 2 * spec_cbf_cond(
            cache,
            curr,
            cat,
            blk,
            comp,
            MbNeighborName::B,
        )
    } else {
        0
    }
}

/// The flags `c` with the `coded_block_flag` `cbf` of block `s` recorded:
/// the DC flags set to it, the bit of an AC or 4x4 block (the four bits of
/// an 8x8 block) set where it is 1.
pub open spec fn record_cbf(c: CbfInfo, s: ResidualBlock, cbf: bool) -> CbfInfo {
    match s {
        ResidualBlock::LumaDc => CbfInfo { luma_dc: cbf, ..c },
        ResidualBlock::LumaAc(k) => if cbf {
            CbfInfo { luma_ac: c.luma_ac | (1u16 << (k as u16)), ..c }
        } else {
            c
        },
        ResidualBlock::Luma4x4(k) => if cbf {
            CbfInfo { luma_ac: c.luma_ac | (1u16 << (k as u16)), ..c }
        } else {
            c
        },
        ResidualBlock::Luma8x8(k) => if cbf {
            CbfInfo { luma_ac: c.luma_ac | (0xFu16 << (4 * k) as u16), ..c }
        } else {
            c
        },
        ResidualBlock::ChromaDc(comp) => if comp == 0 {
            CbfInfo { cb_dc: cbf, ..c }
        } else {
            CbfInfo { cr_dc: cbf, ..c }
        },
        ResidualBlock::ChromaAc(comp, k) => if !cbf {
            c
        } else if comp == 0 {
            CbfInfo { cb_ac: c.cb_ac | (1u8 << k), ..c }
        } else {
            CbfInfo { cr_ac: c.cr_ac | (1u8 << k), ..c }
        },
    }
}

/// Section 7.3.5.3 with CABAC: the blocks `jobs[i..]` of a residual decoded
/// by `residual_block_cabac_spec` from engine state `e`, each with the
/// `coded_block_flag` context its neighbours give (see `job_cbf_inc`, with
/// `curr` the current macroblock and its flags so far): the engine after
/// them, the final flags and counts (see `nc_view`), and the levels each
/// block ends with (its start levels where its flag is 0); `None` where a
/// block cannot be decoded.
pub open spec fn cabac_run(
    e: Engine,
    data: Seq<u8>,
    cache: ResidualNeighborCache,
    curr: CurrentMbInfo,
    init: Residual,
    nc: Seq<u8>,
    jobs: Seq<ResidualBlock>,
    i: int,
    c444: bool,
) -> Option<(Engine, CbfInfo, Seq<u8>, Seq<Seq<i32>>)>
    decreases jobs.len() - i,
{
    if i < 0 || i >= jobs.len() {
        Some((e, curr.cbf, nc, Seq::empty()))
    } else {
        let s = jobs[i];
        let (cat, blk, comp, max) = block_cat(s);
        match residual_block_cabac_spec(e, data, cat, job_cbf_inc(cache, curr, s, c444), max, c444) {
            None => None,
            Some((cbf, n, lv, e2)) => {
                let curr2 = CurrentMbInfo { cbf: record_cbf(curr.cbf, s, cbf), ..curr };
                let out = if cbf {
                    lv.take(block_len(s))
                } else {
                    start_levels(init, s)
                };
                let nc2 = if cbf {
                    record_nc(nc, s, n)
                } else {
                    nc
                };
                match cabac_run(e2, data, cache, curr2, init, nc2, jobs, i + 1, c444) {
                    None => None,
                    Some((ef, cf, ncf, outs)) => Some((ef, cf, ncf, seq![out] + outs)),
                }
            },
        }
    }
}

/// `cabac_run` after the blocks `done`, their levels first.
pub open spec fn after_cabac(
    done: Seq<Seq<i32>>,
    rest: Option<(Engine, CbfInfo, Seq<u8>, Seq<Seq<i32>>)>,
) -> Option<(Engine, CbfInfo, Seq<u8>, Seq<Seq<i32>>)> {
    match rest {
        None => None,
        Some((e, c, nc, outs)) => Some((e, c, nc, done + outs)),
    }
}

/// The prediction mode that a residual records for `mb_type`: Intra_4x4
/// or Intra_8x8 (by the transform size) for I_NxN, Intra_16x16 for the
/// other I types, Pred_L0 for P and B.
pub open spec fn residual_pred_mode(curr: CurrentMbInfo) -> MbPredictionMode {
    match curr.mb_type {
        CabacMbType::I(m) => if m == IMbType::I_NxN {
            if curr.transform_size_8x8_flag {
                MbPredictionMode::Intra_8x8
            } else {
                MbPredictionMode::Intra_4x4
            }
        } else {
            MbPredictionMode::Intra_16x16
        },
        _ => MbPredictionMode::Pred_L0,
    }
}

/// The blocks that CABAC codes for the current macroblock, in bitstream
/// order: chroma only where `chroma_array_type` subsamples it.
pub open spec fn cabac_jobs(curr: CurrentMbInfo, chroma_array_type: ChromaFormat) -> Seq<ResidualBlock> {
    let sub = chroma_array_type == ChromaFormat::YUV420 || chroma_array_type == ChromaFormat::YUV422;
    let chroma = curr.coded_block_pattern.0 / 16;
    residual_jobs(
        residual_pred_mode(curr) == MbPredictionMode::Intra_16x16,
        curr.transform_size_8x8_flag,
        curr.coded_block_pattern,
        sub && chroma != 0,
        sub && chroma == 2,
    )
}

/// The chroma residuals that are not decoded: any of 4:4:4, and the chroma
/// DC of 4:2:2.
pub open spec fn chroma_refused(chroma_array_type: ChromaFormat, cbp: CodedBlockPattern) -> bool {
    chroma_array_type == ChromaFormat::YUV444 || (chroma_array_type == ChromaFormat::YUV422 && cbp.0 / 16
        != 0)
}

impl<'a> CabacContext<'a> {
    /// Block `s` decoded by `parse_residual_block_cabac` into
    /// `coeff_level` with its `coded_block_flag` context (see
    /// `job_cbf_inc`); the flag recorded in `curr_mb`, and, where it is
    /// 1, the levels and count stored in `residual`.
    fn parse_cabac_job(
        &mut self,
        field_pic_flag: bool,
        cache: &ResidualNeighborCache,
        curr_mb: &mut CurrentMbInfo,
        residual: &mut Residual,
        s: ResidualBlock,
        chroma_444: bool,
        coeff_level: &mut [i32; 64],
    ) -> (r: ParseResult<(bool, u8)>)
        requires
            old(self).wf(),
            block_ok(s),
            fits(old(residual).luma, s),
        ensures
            final(self).data() == old(self).data(),
            match r {
                Ok((cbf, n)) => {
                    &&& !field_pic_flag
                    &&& final(self).wf()
                    &&& residual_block_cabac_spec(
                        old(self).eng(),
                        old(self).data(),
                        block_cat(s).0,
                        job_cbf_inc(*cache, *old(curr_mb), s, chroma_444),
                        block_cat(s).3,
                        chroma_444,
                    ) == Some((cbf, n, final(coeff_level)@, final(self).eng()))
                    &&& *final(curr_mb) == CurrentMbInfo { cbf: record_cbf(old(curr_mb).cbf, s, cbf), ..*old(curr_mb) }
                    &&& if cbf {
                        block_written(
                            *old(residual),
                            *final(residual),
                            s,
                            final(coeff_level)@.take(block_len(s)),
                            n,
                        )
                    } else {
                        *final(residual) == *old(residual)
                    }
                },
                Err(_) => *final(curr_mb) == *old(curr_mb) && (field_pic_flag || residual_block_cabac_spec(
                    old(self).eng(),
                    old(self).data(),
                    block_cat(s).0,
                    job_cbf_inc(*cache, *old(curr_mb), s, chroma_444),
                    block_cat(s).3,
                    chroma_444,
                ) is None),
            },
    {
        let (cat, blk, comp, max) = block_params(s);
        let inc = if max != 64 || chroma_444 {
            Self::get_ctx_idx_inc_coded_block_flag_cached(cache, curr_mb, cat, blk, comp)
        } else {
            0
        };
        let (cbf, n) = match self.parse_residual_block_cabac(field_pic_flag, chroma_444, cat, inc, max, coeff_level) {
            Ok(x) => x,
            Err(e) => return Err(e),
        };
        match s {
            ResidualBlock::LumaDc => curr_mb.cbf.luma_dc = cbf,
            ResidualBlock::LumaAc(k) => if cbf {
                curr_mb.cbf.luma_ac = curr_mb.cbf.luma_ac | (1u16 << (k as u16));
            },
            ResidualBlock::Luma4x4(k) => if cbf {
                curr_mb.cbf.luma_ac = curr_mb.cbf.luma_ac | (1u16 << (k as u16));
            },
            ResidualBlock::Luma8x8(k) => if cbf {
                curr_mb.cbf.luma_ac = curr_mb.cbf.luma_ac | (0xFu16 << (4 * k) as u16);
            },
            ResidualBlock::ChromaDc(c) => if c == 0 {
                curr_mb.cbf.cb_dc = cbf;
            } else {
                curr_mb.cbf.cr_dc = cbf;
            },
            ResidualBlock::ChromaAc(c, k) => if cbf {
                if c == 0 {
                    curr_mb.cbf.cb_ac = curr_mb.cbf.cb_ac | (1u8 << k);
                } else {
                    curr_mb.cbf.cr_ac = curr_mb.cbf.cr_ac | (1u8 << k);
                }
            },
        }
        if cbf {
            residual.set_block(s, coeff_level, n);
        }
        Ok((cbf, n))
    }
}

/// One block of `cabac_run` decoded: the levels of the blocks so far and
/// the untouched blocks stay as the invariant of `parse_residual_cabac`
/// says, and what is left of the run follows on.
proof fn lemma_cabac_step(
    e_i: Engine,
    e_next: Engine,
    data: Seq<u8>,
    cache: ResidualNeighborCache,
    curr: CurrentMbInfo,
    curr2: CurrentMbInfo,
    r0: Residual,
    prev: Residual,
    r2: Residual,
    jv: Seq<ResidualBlock>,
    i: int,
    done: Seq<Seq<i32>>,
    cbf: bool,
    n: u8,
    lv: Seq<i32>,
    c444: bool,
)
    requires
        0 <= i < jv.len(),
        keys_increase(jv),
        !jv.take(i).contains(jv[i]),
        done.len() == i,
        forall|j: int| 0 <= j < i ==> #[trigger] block_levels(prev, jv[j]) == done[j],
        forall|t: ResidualBlock|
            block_ok(t) && fits(prev.luma, t) && !jv.take(i).contains(t) ==> #[trigger] block_levels(prev, t)
                == start_levels(r0, t),
        forall|j: int| 0 <= j < jv.len() ==> block_ok(#[trigger] jv[j]) && fits(prev.luma, jv[j]),
        residual_block_cabac_spec(
            e_i,
            data,
            block_cat(jv[i]).0,
            job_cbf_inc(cache, curr, jv[i], c444),
            block_cat(jv[i]).3,
            c444,
        ) == Some((cbf, n, lv, e_next)),
        curr2 == (CurrentMbInfo { cbf: record_cbf(curr.cbf, jv[i], cbf), ..curr }),
        if cbf {
            block_written(prev, r2, jv[i], lv.take(block_len(jv[i])), n)
        } else {
            r2 == prev
        },
    ensures
        ({
            let out = if cbf {
                lv.take(block_len(jv[i]))
            } else {
                start_levels(r0, jv[i])
            };
            &&& forall|j: int| 0 <= j < i + 1 ==> #[trigger] block_levels(r2, jv[j]) == done.push(out)[j]
            &&& after_cabac(done, cabac_run(e_i, data, cache, curr, r0, nc_view(prev), jv, i, c444)) == after_cabac(
                done.push(out),
                cabac_run(e_next, data, cache, curr2, r0, nc_view(r2), jv, i + 1, c444),
            )
        }),
        forall|t: ResidualBlock|
            block_ok(t) && fits(r2.luma, t) && !jv.take(i + 1).contains(t) ==> #[trigger] block_levels(r2, t)
                == start_levels(r0, t),
        forall|j: int| 0 <= j < jv.len() ==> block_ok(#[trigger] jv[j]) && fits(r2.luma, jv[j]),
{
    let s = jv[i];
    let out = if cbf {
        lv.take(block_len(s))
    } else {
        start_levels(r0, s)
    };
    assert(block_ok(jv[i]) && fits(prev.luma, jv[i]));
    assert(block_levels(prev, s) == start_levels(r0, s));
    assert forall|j: int| 0 <= j < i + 1 implies #[trigger] block_levels(r2, jv[j]) == done.push(out)[j] by {
        if j < i {
            assert(block_key(jv[j]) < block_key(jv[i]));
            assert(block_ok(jv[j]) && fits(prev.luma, jv[j]));
        }
    }
    assert forall|t: ResidualBlock|
        block_ok(t) && fits(r2.luma, t) && !jv.take(i + 1).contains(t) implies #[trigger] block_levels(r2, t)
        == start_levels(r0, t) by {
        if jv.take(i).contains(t) {
            let j = choose|j: int| 0 <= j < i && jv.take(i)[j] == t;
            assert(jv.take(i + 1)[j] == t);
        }
        if t == s {
            assert(jv.take(i + 1)[i] == t);
        }
    }
    assert forall|j: int| 0 <= j < jv.len() implies block_ok(#[trigger] jv[j]) && fits(r2.luma, jv[j]) by {
        assert(block_ok(jv[j]) && fits(prev.luma, jv[j]));
    }
    let nc2 = if cbf {
        record_nc(nc_view(prev), s, n)
    } else {
        nc_view(prev)
    };
    assert(nc_view(r2) == nc2);
    let rest = cabac_run(e_next, data, cache, curr2, r0, nc_view(r2), jv, i + 1, c444);
    assert(cabac_run(e_i, data, cache, curr, r0, nc_view(prev), jv, i, c444) == after_cabac(seq![out], rest));
    match rest {
        Some((e, c, ncf, outs)) => {
            assert(done + (seq![out] + outs) =~= done.push(out) + outs);
        },
        None => {},
    }
}

impl<'a> CabacContext<'a> {
    /// Section 7.3.5.3 with CABAC: the residual of the current macroblock
    /// (`curr_mb`, with `neighbor_cache` its neighbours A and B). The
    /// residual records the prediction mode (see `residual_pred_mode`),
    /// coded block pattern and transform size of `curr_mb`, its luma layout
    /// is set afresh (Intra_16x16, 8x8 or 4x4 blocks), then each block of
    /// `cabac_jobs` is decoded in turn (see `cabac_run`), its
    /// `coded_block_flag` recorded in `curr_mb`. Refused: the chroma of
    /// `chroma_refused`, once the luma blocks are decoded (4:4:4 luma with
    /// its `coded_block_flag` on 8x8 blocks too), and field pictures where
    /// any block is coded.
    pub fn parse_residual_cabac(
        &mut self,
        field_pic_flag: bool,
        chroma_array_type: ChromaFormat,
        neighbor_cache: &ResidualNeighborCache,
        curr_mb: &mut CurrentMbInfo,
        residual: &mut Residual,
    ) -> (r: ParseResult<()>)
        requires
            old(self).wf(),
            !(residual_pred_mode(*old(curr_mb)) == MbPredictionMode::Intra_16x16
                && old(curr_mb).transform_size_8x8_flag),
        ensures
            final(self).data() == old(self).data(),
            *final(curr_mb) == (CurrentMbInfo { cbf: final(curr_mb).cbf, ..*old(curr_mb) }),
            match r {
                Ok(()) => {
                    &&& !chroma_refused(chroma_array_type, old(curr_mb).coded_block_pattern)
                    &&& (!field_pic_flag || cabac_jobs(*old(curr_mb), chroma_array_type).len() == 0)
                    &&& final(self).wf()
                    &&& final(residual).prediction_mode == residual_pred_mode(*old(curr_mb))
                    &&& final(residual).coded_block_pattern == old(curr_mb).coded_block_pattern
                    &&& final(residual).transform_size_8x8_flag == old(curr_mb).transform_size_8x8_flag
                    &&& (if residual_pred_mode(*old(curr_mb)) == MbPredictionMode::Intra_16x16 {
                        final(residual).luma is Intra16x16
                    } else if old(curr_mb).transform_size_8x8_flag {
                        final(residual).luma is Block8x8
                    } else {
                        final(residual).luma is Block4x4
                    })
                    &&& match cabac_run(
                        old(self).eng(),
                        old(self).data(),
                        *neighbor_cache,
                        *old(curr_mb),
                        *old(residual),
                        start_nc(*old(residual)),
                        cabac_jobs(*old(curr_mb), chroma_array_type),
                        0,
                        false,
                    ) {
                        Some((e, cf, nc, outs)) => {
                            &&& final(self).eng() == e
                            &&& final(curr_mb).cbf == cf
                            &&& residual_result(
                                *old(residual),
                                *final(residual),
                                cabac_jobs(*old(curr_mb), chroma_array_type),
                                outs,
                                nc,
                            )
                        },
                        None => false,
                    }
                },
                Err(_) => chroma_refused(chroma_array_type, old(curr_mb).coded_block_pattern) || (field_pic_flag
                    && cabac_jobs(*old(curr_mb), chroma_array_type).len() > 0) || cabac_run(
                    old(self).eng(),
                    old(self).data(),
                    *neighbor_cache,
                    *old(curr_mb),
                    *old(residual),
                    start_nc(*old(residual)),
                    cabac_jobs(*old(curr_mb), chroma_array_type),
                    0,
                    false,
                ) is None,
            },
    {
        let cbp = curr_mb.coded_block_pattern;
        let chroma = cbp.chroma();
        let c444 = chroma_array_type == ChromaFormat::YUV444;
        let refused = c444 || (chroma_array_type == ChromaFormat::YUV422 && chroma != 0);
        let ghost r0 = *residual;
        let ghost c0 = *curr_mb;
        let ghost data = self.data();
        let ghost e0 = self.eng();
        let t8 = curr_mb.transform_size_8x8_flag;
        let prediction_mode = match curr_mb.mb_type {
            CabacMbType::I(m) => if m == IMbType::I_NxN {
                if t8 {
                    MbPredictionMode::Intra_8x8
                } else {
                    MbPredictionMode::Intra_4x4
                }
            } else {
                MbPredictionMode::Intra_16x16
            },
            _ => MbPredictionMode::Pred_L0,
        };
        let intra16 = prediction_mode == MbPredictionMode::Intra_16x16;
        let sub = chroma_array_type == ChromaFormat::YUV420 || chroma_array_type == ChromaFormat::YUV422;
        let jobs = residual_blocks(intra16, t8, cbp, sub && chroma != 0, sub && chroma == 2);
        let n_luma = residual_blocks(intra16, t8, cbp, false, false).len();
        let ghost jv = jobs@;
        proof {
            lemma_residual_jobs(intra16, t8, cbp, sub && chroma != 0, sub && chroma == 2);
            assert(n_luma <= jv.len());
        }
        residual.prediction_mode = prediction_mode;
        residual.coded_block_pattern = cbp;
        residual.transform_size_8x8_flag = t8;
        if intra16 {
            residual.luma.init_intra_16x16();
        } else if t8 {
            residual.luma.init_8x8();
        } else {
            residual.luma.init_4x4();
        }
        let ghost r1 = *residual;
        proof {
            assert(nc_view(r1) =~= start_nc(r0));
            assert forall|t: ResidualBlock| block_ok(t) && fits(r1.luma, t) implies #[trigger] block_levels(
                r1,
                t,
            ) == start_levels(r0, t) by {
                if is_luma_block(t) {
                    lemma_zero_luma_block(r1, t);
                }
            }
            assert forall|j: int| 0 <= j < jv.len() implies block_ok(#[trigger] jv[j]) && fits(r1.luma, jv[j]) by {}
        }
        let ghost total = cabac_run(e0, data, *neighbor_cache, c0, r0, start_nc(r0), jv, 0, c444);
        let ghost mut done: Seq<Seq<i32>> = Seq::empty();
        let mut coeff_level = [0i32; 64];
        let mut i: usize = 0;
        while i < jobs.len()
            invariant
                self.wf(),
                self.data() == data,
                data == old(self).data(),
                e0 == old(self).eng(),
                r0 == *old(residual),
                c0 == *old(curr_mb),
                refused == chroma_refused(chroma_array_type, c0.coded_block_pattern),
                c444 == (chroma_array_type == ChromaFormat::YUV444),
                c444 ==> refused,
                refused ==> i <= n_luma,
                n_luma <= jv.len(),
                total == cabac_run(e0, data, *neighbor_cache, c0, r0, start_nc(r0), jv, 0, c444),
                jobs@ == jv,
                jv == cabac_jobs(c0, chroma_array_type),
                i <= jv.len(),
                i > 0 ==> !field_pic_flag,
                keys_increase(jv),
                forall|j: int| 0 <= j < jv.len() ==> block_ok(#[trigger] jv[j]) && fits(residual.luma, jv[j]),
                *curr_mb == (CurrentMbInfo { cbf: curr_mb.cbf, ..c0 }),
                residual.prediction_mode == residual_pred_mode(c0),
                residual.coded_block_pattern == c0.coded_block_pattern,
                residual.transform_size_8x8_flag == c0.transform_size_8x8_flag,
                if residual_pred_mode(c0) == MbPredictionMode::Intra_16x16 {
                    residual.luma is Intra16x16
                } else if c0.transform_size_8x8_flag {
                    residual.luma is Block8x8
                } else {
                    residual.luma is Block4x4
                },
                done.len() == i,
                forall|j: int| 0 <= j < i ==> #[trigger] block_levels(*residual, jv[j]) == done[j],
                forall|t: ResidualBlock|
                    block_ok(t) && fits(residual.luma, t) && !jv.take(i as int).contains(t)
                        ==> #[trigger] block_levels(*residual, t) == start_levels(r0, t),
                total == after_cabac(
                    done,
                    cabac_run(self.eng(), data, *neighbor_cache, *curr_mb, r0, nc_view(*residual), jv, i as int, c444),
                ),
            decreases jv.len() - i,
        {
            if i == n_luma && refused {
                return Err(
                    if c444 {
                        "YUV444 chroma residual parsing is not supported".to_owned()
                    } else {
                        "YUV422 chroma DC residual parsing is not supported".to_owned()
                    },
                );
            }
            let s = jobs[i];
            let ghost e_i = self.eng();
            let ghost prev = *residual;
            let ghost curr = *curr_mb;
            proof {
                lemma_not_yet_parsed(jv, i as int);
                assert(block_ok(jv[i as int]) && fits(prev.luma, jv[i as int]));
            }
            let (cbf, n) = match self.parse_cabac_job(field_pic_flag, neighbor_cache, curr_mb, residual, s, c444, &mut coeff_level) {
                Ok(x) => x,
                Err(e) => {
                    proof {
                        assert(block_levels(prev, s) == start_levels(r0, s));
                    }
                    return Err(e);
                },
            };
            let ghost out = if cbf {
                coeff_level@.take(block_len(s))
            } else {
                start_levels(r0, s)
            };
            proof {
                lemma_cabac_step(
                    e_i,
                    self.eng(),
                    data,
                    *neighbor_cache,
                    curr,
                    *curr_mb,
                    r0,
                    prev,
                    *residual,
                    jv,
                    i as int,
                    done,
                    cbf,
                    n,
                    coeff_level@,
                    c444,
                );
                done = done.push(out);
            }
            i = i + 1;
        }
        if refused {
            return Err(
                if c444 {
                    "YUV444 chroma residual parsing is not supported".to_owned()
                } else {
                    "YUV422 chroma DC residual parsing is not supported".to_owned()
                },
            );
        }
        proof {
            assert(jv.take(jv.len() as int) =~= jv);
            assert(done + Seq::<Seq<i32>>::empty() =~= done);
        }
        Ok(())
    }
}

/// Some level of `s` is non-zero.
pub open spec fn any_nonzero(s: Seq<i32>) -> bool {
    exists|i: int| 0 <= i < s.len() && s[i] != 0
}

/// 4x4 luma block `k` of `r` has coefficients: its count is non-zero, or,
/// with the 8x8 transform, its 8x8 block has a non-zero level.
pub open spec fn luma_blk_coded(r: Residual, k: int) -> bool {
    match r.luma {
        LumaResidual::Intra16x16 { ac_nc, .. } => ac_nc@[k] != 0,
        LumaResidual::Block4x4 { nc, .. } => nc@[k] != 0,
        LumaResidual::Block8x8 { levels, .. } => any_nonzero(levels@[k / 4].levels@),
        LumaResidual::Empty => false,
    }
}

/// The bits of the first `n` 4x4 luma blocks of `r` that have
/// coefficients.
pub open spec fn luma_bits(r: Residual, n: nat) -> u16
    decreases n,
{
    if n == 0 {
        0
    } else {
        luma_bits(r, (n - 1) as nat) | (if luma_blk_coded(r, n - 1) {
            1u16 << ((n - 1) as u16)
        } else {
            0u16
        })
    }
}

/// The bits of the first `n` AC blocks of chroma component `c` of `r`
/// with a non-zero count.
pub open spec fn chroma_bits(r: Residual, c: int, n: nat) -> u8
    decreases n,
{
    if n == 0 {
        0
    } else {
        chroma_bits(r, c, (n - 1) as nat) | (if r.chroma_nc@[c]@[n - 1] != 0 {
            1u8 << ((n - 1) as u8)
        } else {
            0u8
        })
    }
}

/// The `coded_block_flag`s of a decoded macroblock as its levels show
/// them (a flag is 1 exactly where its block has a non-zero level): all
/// set for I_PCM, none without residual.
pub open spec fn spec_cbf_info(mb: Macroblock) -> CbfInfo {
    if mb is PCM {
        CbfInfo { luma_dc: true, luma_ac: 0xFFFF, cb_dc: true, cr_dc: true, cb_ac: 0xF, cr_ac: 0xF }
    } else {
        match crate::macroblock::spec_residual(mb) {
            None => CbfInfo { luma_dc: false, luma_ac: 0, cb_dc: false, cr_dc: false, cb_ac: 0, cr_ac: 0 },
            Some(r) => CbfInfo {
                luma_dc: match r.luma {
                    LumaResidual::Intra16x16 { dc, .. } => any_nonzero(dc@),
                    _ => false,
                },
                luma_ac: luma_bits(r, 16),
                cb_dc: any_nonzero(r.chroma_dc@[0]@),
                cr_dc: any_nonzero(r.chroma_dc@[1]@),
                cb_ac: chroma_bits(r, 0, 4),
                cr_ac: chroma_bits(r, 1, 4),
            },
        }
    }
}

/// Some level of `a` is non-zero (see `any_nonzero`).
fn has_nonzero<const N: usize>(a: &[i32; N]) -> (b: bool)
    ensures
        b == any_nonzero(a@),
{
    let mut i: usize = 0;
    while i < N
        invariant
            i <= N,
            a@.len() == N,
            forall|j: int| 0 <= j < i ==> a@[j] == 0,
        decreases N - i,
    {
        if a[i] != 0 {
            return true;
        }
        i = i + 1;
    }
    false
}

impl Macroblock {
    /// The `coded_block_flag`s of this macroblock as a neighbour (see
    /// `spec_cbf_info`).
    pub fn get_cbf_info(&self) -> (c: CbfInfo)
        ensures
            c == spec_cbf_info(*self),
    {
        if let Macroblock::PCM(_) = self {
            return CbfInfo { luma_dc: true, luma_ac: 0xFFFF, cb_dc: true, cr_dc: true, cb_ac: 0xF, cr_ac: 0xF };
        }
        let r = match self.get_residual() {
            Some(r) => r,
            None => return CbfInfo { luma_dc: false, luma_ac: 0, cb_dc: false, cr_dc: false, cb_ac: 0, cr_ac: 0 },
        };
        let luma_dc = match &r.luma {
            LumaResidual::Intra16x16 { dc, .. } => has_nonzero(dc),
            _ => false,
        };
        let mut luma_ac: u16 = 0;
        let mut k: u16 = 0;
        while k < 16
            invariant
                k <= 16,
                luma_ac == luma_bits(*r, k as nat),
            decreases 16 - k,
        {
            let coded = match &r.luma {
                LumaResidual::Intra16x16 { ac_nc, .. } => ac_nc[k as usize] != 0,
                LumaResidual::Block4x4 { nc, .. } => nc[k as usize] != 0,
                LumaResidual::Block8x8 { levels, .. } => has_nonzero(&levels[(k / 4) as usize].levels),
                LumaResidual::Empty => false,
            };
            luma_ac = luma_ac | (if coded {
                1u16 << k
            } else {
                0u16
            });
            k = k + 1;
        }
        let mut ac: [u8; 2] = [0u8; 2];
        let mut c: usize = 0;
        while c < 2
            invariant
                c <= 2,
                forall|j: int| 0 <= j < c ==> #[trigger] ac@[j] == chroma_bits(*r, j, 4),
            decreases 2 - c,
        {
            let mut bits: u8 = 0;
            let mut b: u8 = 0;
            while b < 4
                invariant
                    c < 2,
                    b <= 4,
                    bits == chroma_bits(*r, c as int, b as nat),
                decreases 4 - b,
            {
                bits = bits | (if r.chroma_nc[c][b as usize] != 0 {
                    1u8 << b
                } else {
                    0u8
                });
                b = b + 1;
            }
            ac[c] = bits;
            c = c + 1;
        }
        CbfInfo {
            luma_dc,
            luma_ac,
            cb_dc: has_nonzero(&r.chroma_dc[0]),
            cr_dc: has_nonzero(&r.chroma_dc[1]),
            cb_ac: ac[0],
            cr_ac: ac[1],
        }
    }
}

/// What the `coded_block_flag` and `coded_block_pattern` contexts read of
/// neighbour `mb`: unavailable where it is `None`.
pub open spec fn spec_snapshot(mb: Option<&Macroblock>) -> CachedNeighborMb {
    match mb {
        None => CachedNeighborMb {
            available: false,
            is_pcm: false,
            is_skipped: false,
            is_intra_16x16: false,
            transform_size_8x8_flag: false,
            cbp: CodedBlockPattern(0),
            cbf: CbfInfo { luma_dc: false, luma_ac: 0, cb_dc: false, cr_dc: false, cb_ac: 0, cr_ac: 0 },
        },
        Some(m) => CachedNeighborMb {
            available: true,
            is_pcm: *m is PCM,
            is_skipped: spec_is_skipped(*m),
            is_intra_16x16: match *m {
                Macroblock::I(i) => i.mb_type != IMbType::I_NxN && i.mb_type != IMbType::I_PCM,
                _ => false,
            },
            transform_size_8x8_flag: spec_t8(*m),
            cbp: spec_cbp(*m),
            cbf: spec_cbf_info(*m),
        },
    }
}

/// What the `coded_block_flag` and `coded_block_pattern` contexts read of
/// neighbour `mb` (see `spec_snapshot`).
pub fn snapshot_neighbor_mb(mb: Option<&Macroblock>) -> (c: CachedNeighborMb)
    ensures
        c == spec_snapshot(mb),
{
    let m = match mb {
        Some(m) => m,
        None => {
            return CachedNeighborMb {
                available: false,
                is_pcm: false,
                is_skipped: false,
                is_intra_16x16: false,
                transform_size_8x8_flag: false,
                cbp: CodedBlockPattern(0),
                cbf: CbfInfo { luma_dc: false, luma_ac: 0, cb_dc: false, cr_dc: false, cb_ac: 0, cr_ac: 0 },
            };
        },
    };
    let (transform_size_8x8_flag, is_intra_16x16, is_pcm) = match m {
        Macroblock::I(i) => (
            i.transform_size_8x8_flag,
            i.mb_type != IMbType::I_NxN && i.mb_type != IMbType::I_PCM,
            false,
        ),
        Macroblock::P(p) => (p.transform_size_8x8_flag, false, false),
        Macroblock::B(b) => (b.transform_size_8x8_flag, false, false),
        Macroblock::PCM(_) => (false, false, true),
    };
    CachedNeighborMb {
        available: true,
        is_pcm,
        is_skipped: m.is_skipped(),
        is_intra_16x16,
        transform_size_8x8_flag,
        cbp: m.get_coded_block_pattern(),
        cbf: m.get_cbf_info(),
    }
}

impl ResidualNeighborCache {
    /// The neighbours A and B of the current macroblock, `None` where not
    /// available.
    pub fn build(mb_a: Option<&Macroblock>, mb_b: Option<&Macroblock>) -> (c: Self)
        ensures
            c.a == spec_snapshot(mb_a),
            c.b == spec_snapshot(mb_b),
    {
        ResidualNeighborCache { a: snapshot_neighbor_mb(mb_a), b: snapshot_neighbor_mb(mb_b) }
    }
}

/// The width and height, in 4x4 blocks, of a sub-macroblock partition of
/// type `t` (Table 7-18).
pub open spec fn spec_sub_mb_grid_b(t: BSubMbType) -> (usize, usize) {
    match t {
        BSubMbType::B_Direct_8x8 | BSubMbType::B_L0_8x8 | BSubMbType::B_L1_8x8 | BSubMbType::B_Bi_8x8 => (2, 2),
        BSubMbType::B_L0_8x4 | BSubMbType::B_L1_8x4 | BSubMbType::B_Bi_8x4 => (2, 1),
        BSubMbType::B_L0_4x8 | BSubMbType::B_L1_4x8 | BSubMbType::B_Bi_4x8 => (1, 2),
        _ => (1, 1),
    }
}

/// The index, among the four 4x4 blocks of its 8x8 block, of the first
/// block of sub-macroblock partition `j` of type `t`: 0, 2 for the 8x4
/// types, 0, 1 for the 4x8 types, `j` for the 4x4 types, else 0.
pub open spec fn spec_sub_mb_blk_idx_b(t: BSubMbType, j: int) -> int {
    match t {
        BSubMbType::B_L0_8x4 | BSubMbType::B_L1_8x4 | BSubMbType::B_Bi_8x4 => if j == 1 {
            2
        } else {
            0
        },
        BSubMbType::B_L0_4x8 | BSubMbType::B_L1_4x8 | BSubMbType::B_Bi_4x8 => if j == 1 {
            1
        } else {
            0
        },
        BSubMbType::B_L0_4x4 | BSubMbType::B_L1_4x4 | BSubMbType::B_Bi_4x4 => j,
        _ => 0,
    }
}

impl<'a> CabacContext<'a> {
    /// See `spec_sub_mb_blk_idx_b`.
    pub fn get_sub_mb_blk_idx_b(sub_mb_type: BSubMbType, j: usize) -> (r: usize)
        ensures
            r as int == spec_sub_mb_blk_idx_b(sub_mb_type, j as int),
    {
        match sub_mb_type {
            BSubMbType::B_L0_8x4 | BSubMbType::B_L1_8x4 | BSubMbType::B_Bi_8x4 => if j == 1 {
                2
            } else {
                0
            },
            BSubMbType::B_L0_4x8 | BSubMbType::B_L1_4x8 | BSubMbType::B_Bi_4x8 => if j == 1 {
                1
            } else {
                0
            },
            BSubMbType::B_L0_4x4 | BSubMbType::B_L1_4x4 | BSubMbType::B_Bi_4x4 => j,
            _ => 0,
        }
    }

    /// See `spec_sub_mb_grid_b`.
    pub fn get_sub_mb_grid_size_b(sub_mb_type: BSubMbType) -> (r: (usize, usize))
        ensures
            r == spec_sub_mb_grid_b(sub_mb_type),
    {
        match sub_mb_type {
            BSubMbType::B_Direct_8x8 | BSubMbType::B_L0_8x8 | BSubMbType::B_L1_8x8 | BSubMbType::B_Bi_8x8 => (2, 2),
            BSubMbType::B_L0_8x4 | BSubMbType::B_L1_8x4 | BSubMbType::B_Bi_8x4 => (2, 1),
            BSubMbType::B_L0_4x8 | BSubMbType::B_L1_4x8 | BSubMbType::B_Bi_4x8 => (1, 2),
            _ => (1, 1),
        }
    }

    /// The width and height, in 4x4 blocks, of a macroblock partition of
    /// type `b_type`.
    pub fn get_mb_part_grid_size_b(b_type: BMbType) -> (r: (usize, usize))
        ensures
            r.0 == spec_mb_part_width_b(b_type) / 4,
            r.1 == spec_mb_part_height_b(b_type) / 4,
    {
        ((b_type.mb_part_width() / 4) as usize, (b_type.mb_part_height() / 4) as usize)
    }

    /// The index of the first 4x4 block of macroblock partition
    /// `part_idx`: 0 for the first, 8 for the second of a 16x8 type, 4 for
    /// the second of an 8x16 type.
    pub fn get_mb_part_start_blk_idx_b(b_type: BMbType, part_idx: usize) -> (r: usize)
        ensures
            r == (if part_idx == 0 {
                0usize
            } else if spec_mb_part_height_b(b_type) == 8 {
                8usize
            } else {
                4usize
            }),
    {
        if part_idx == 0 {
            0
        } else if b_type.mb_part_height() == 8 {
            8
        } else {
            4
        }
    }
}

/// Sections 7.3.5.1 and 8.3.1.1 with CABAC: the `Intra4x4PredMode`
/// numbers of blocks `k..16` from engine state `e`: per block
/// `prev_intra4x4_pred_mode_flag` (context 68), 1 for the predicted mode
/// (see `pred_intra4x4_mode`), else `rem_intra4x4_pred_mode` as three bins
/// of context 69, least significant first, taken as it is below the
/// predicted mode and one more from it on; with the modes so far `modes`.
pub open spec fn cabac_intra4x4_modes_spec(
    e: Engine,
    data: Seq<u8>,
    a: Option<&Macroblock>,
    b: Option<&Macroblock>,
    modes: Seq<int>,
    k: int,
) -> Option<(Seq<int>, Engine)>
    decreases 16 - k,
{
    if k < 0 || k >= 16 {
        Some((modes, e))
    } else {
        let pred = crate::cavlc::pred_intra4x4_mode(a, b, modes, k);
        match decode_decision(e, data, 68) {
            None => None,
            Some((f, e1)) => if f == 1 {
                cabac_intra4x4_modes_spec(e1, data, a, b, modes.update(k, pred), k + 1)
            } else {
                match decode_decision(e1, data, 69) {
                    None => None,
                    Some((b0, e2)) => match decode_decision(e2, data, 69) {
                        None => None,
                        Some((b1, e3)) => match decode_decision(e3, data, 69) {
                            None => None,
                            Some((b2, e4)) => {
                                let rem = b0 + 2 * b1 + 4 * b2;
                                cabac_intra4x4_modes_spec(
                                    e4,
                                    data,
                                    a,
                                    b,
                                    modes.update(
                                        k,
                                        if rem < pred {
                                            rem
                                        } else {
                                            rem + 1
                                        },
                                    ),
                                    k + 1,
                                )
                            },
                        },
                    },
                }
            },
        }
    }
}

impl<'a> CabacContext<'a> {
    /// The `Intra4x4PredMode`s of the 16 blocks of an Intra_4x4
    /// macroblock with neighbours `mb_a` and `mb_b` where available (see
    /// `cabac_intra4x4_modes_spec`).
    pub fn parse_intra4x4_pred_modes_cabac(&mut self, mb_a: Option<&Macroblock>, mb_b: Option<&Macroblock>) -> (r:
        ParseResult<[Intra_4x4_SamplePredMode; 16]>)
        requires
            old(self).wf(),
        ensures
            final(self).data() == old(self).data(),
            match r {
                Ok(m) => cabac_intra4x4_modes_spec(
                    old(self).eng(),
                    old(self).data(),
                    mb_a,
                    mb_b,
                    Seq::new(16, |i: int| 2int),
                    0,
                ) == Some((crate::cavlc::mode_nums(m@), final(self).eng())) && final(self).wf(),
                Err(_) => cabac_intra4x4_modes_spec(
                    old(self).eng(),
                    old(self).data(),
                    mb_a,
                    mb_b,
                    Seq::new(16, |i: int| 2int),
                    0,
                ) is None,
            },
    {
        let mut modes = [Intra_4x4_SamplePredMode::DC; 16];
        let ghost data = self.data();
        let ghost total = cabac_intra4x4_modes_spec(self.eng(), data, mb_a, mb_b, Seq::new(16, |i: int| 2int), 0);
        proof {
            assert(crate::cavlc::mode_nums(modes@) =~= Seq::new(16, |i: int| 2int));
        }
        let mut k: u8 = 0;
        while k < 16
            invariant
                k <= 16,
                self.wf(),
                self.data() == data,
                data == old(self).data(),
                total == cabac_intra4x4_modes_spec(old(self).eng(), data, mb_a, mb_b, Seq::new(16, |i: int| 2int), 0),
                total == cabac_intra4x4_modes_spec(self.eng(), data, mb_a, mb_b, crate::cavlc::mode_nums(modes@), k as int),
            decreases 16 - k,
        {
            let pred = crate::cavlc::pred_mode_of(mb_a, mb_b, &modes, k);
            let ghost nums = crate::cavlc::mode_nums(modes@);
            let flag = match self.decode_bin(68) {
                Ok(b) => b,
                Err(e) => return Err(e),
            };
            let m = if flag == 1 {
                pred
            } else {
                let b0 = match self.decode_bin(69) {
                    Ok(b) => b,
                    Err(e) => return Err(e),
                };
                let b1 = match self.decode_bin(69) {
                    Ok(b) => b,
                    Err(e) => return Err(e),
                };
                let b2 = match self.decode_bin(69) {
                    Ok(b) => b,
                    Err(e) => return Err(e),
                };
                let rem = b0 + 2 * b1 + 4 * b2;
                if rem < pred {
                    rem
                } else {
                    rem + 1
                }
            };
            modes[k as usize] = crate::cavlc::mode_from_number(m);
            proof {
                assert(crate::cavlc::mode_nums(modes@) =~= nums.update(k as int, m as int));
            }
            k = k + 1;
        }
        Ok(modes)
    }
}

/// The start of the macroblock layer with CABAC (Sections 7.3.4 and 7.3.5)
/// from engine state `e`, in a slice of type `st`, with neighbours `a` and
/// `b` where available: in P and B slices `mb_skip_flag` (a set flag ends
/// the macroblock as skipped, `None`), then `mb_type` by the tables of the
/// slice type (Tables 9-36, 9-37). SI slices are refused. The outcome and
/// the engine after it; `None` where decoding fails.
pub open spec fn mb_header_cabac_spec(
    e: Engine,
    data: Seq<u8>,
    st: SliceType,
    a: Option<NeighborMb>,
    b: Option<NeighborMb>,
) -> Option<(Option<CabacMbType>, Engine)> {
    let typed = |e1: Engine|
        if st == SliceType::I {
            match intra_mb_type_spec(e1, data, 3, cond_not_nxn(a) + cond_not_nxn(b), SyntaxElement::MbTypeI) {
                Some((t, e2)) => Some((Some(CabacMbType::I(t)), e2)),
                None => None,
            }
        } else if st == SliceType::SI {
            None
        } else if st == SliceType::B {
            match mb_type_b_spec(e1, data, cond_not_direct(a) + cond_not_direct(b)) {
                Some((t, e2)) => Some((Some(t), e2)),
                None => None,
            }
        } else {
            match mb_type_p_spec(e1, data) {
                Some((t, e2)) => Some((Some(t), e2)),
                None => None,
            }
        };
    if st == SliceType::P || st == SliceType::B {
        let idx = (if st == SliceType::B {
            24int
        } else {
            11
        }) + cond_not_skipped(a) + cond_not_skipped(b);
        match dec(e, data, idx) {
            None => None,
            Some((bin, e1)) => if bin == 1 {
                Some((None, e1))
            } else {
                typed(e1)
            },
        }
    } else {
        typed(e)
    }
}

impl<'a> CabacContext<'a> {
    /// The start of the macroblock layer (see `mb_header_cabac_spec`):
    /// `Ok(None)` for a skipped macroblock, else its type. MBAFF frames
    /// (`mbaff`) are refused before anything is read, and so are the
    /// macroblocks of SI slices.
    pub fn parse_mb_header(
        &mut self,
        slice_type: SliceType,
        mbaff: bool,
        a: Option<NeighborMb>,
        b: Option<NeighborMb>,
    ) -> (r: ParseResult<Option<CabacMbType>>)
        requires
            old(self).wf(),
        ensures
            final(self).data() == old(self).data(),
            mbaff ==> r is Err && final(self).eng() == old(self).eng(),
            slice_type == SliceType::SI ==> r is Err,
            !mbaff ==> match mb_header_cabac_spec(old(self).eng(), old(self).data(), slice_type, a, b) {
                Some((h, e2)) => r == Ok::<Option<CabacMbType>, String>(h) && final(self).eng() == e2 && (h
                    != Some(CabacMbType::I(IMbType::I_PCM)) ==> final(self).wf()),
                None => r is Err,
            },
    {
        if mbaff {
            return Err("MBAFF (mb_adaptive_frame_field) is not supported".to_owned());
        }
        if slice_type == SliceType::P || slice_type == SliceType::B {
            let skipped = match self.parse_mb_skip_flag(slice_type == SliceType::B, a, b) {
                Ok(f) => f,
                Err(e) => return Err(e),
            };
            if skipped {
                return Ok(None);
            }
        }
        if slice_type == SliceType::I {
            match self.parse_mb_type_i(a, b) {
                Ok(t) => Ok(Some(CabacMbType::I(t))),
                Err(e) => Err(e),
            }
        } else if slice_type == SliceType::SI {
            Err("SI slice decoding is not supported".to_owned())
        } else if slice_type == SliceType::B {
            match self.parse_mb_type_b(a, b) {
                Ok(t) => Ok(Some(t)),
                Err(e) => Err(e),
            }
        } else {
            match self.parse_mb_type_p() {
                Ok(t) => Ok(Some(t)),
                Err(e) => Err(e),
            }
        }
    }
}

} // verus!
