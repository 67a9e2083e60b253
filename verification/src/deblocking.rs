//! The deblocking filter of Section 8.7: the records it keeps of each
//! macroblock, the boundary strengths it derives from them, and the sample
//! filters it applies across the edges of each macroblock.
use crate::arith::{clamp, clip1, clip_u8, lemma_i32_shr};
use crate::decoder::{get_chroma_qp, spec_chroma_qp, DeblockingFilterIdc, SliceDeblockParams};
use crate::frame::{BorderedFrame, PlaneBuf};
use crate::macroblock::{
    scan_4x4, spec_cbp, spec_num_mb_part_b, spec_num_mb_part_p, spec_residual, spec_scan_4x4,
    LumaResidual, Macroblock, MbMotion, Residual,
};
use crate::params::PicParameterSet;
use crate::plane::ColorPlane;
use vstd::prelude::*;

verus! {

/// Boundary strength 4: a macroblock edge next to an intra macroblock.
pub const BS_STRONG: u8 = 4;

/// Boundary strength 3: an internal edge of an intra macroblock.
pub const BS_INTRA: u8 = 3;

/// Boundary strength 2: a transform block with coefficients on a side.
pub const BS_CODED: u8 = 2;

/// Boundary strength 1: different reference pictures or distant motion.
pub const BS_MOTION: u8 = 1;

/// Boundary strength 0: the edge is left alone.
pub const BS_NONE: u8 = 0;

/// The offset that maps an index `qp_av + offset` in `-12..=63` onto the
/// padded tables below.
pub const QP_OFFSET_PAD: i32 = 12;

/// Table 8-16, `alpha'`, indexed by `indexA + 12`: twelve leading entries
/// for negative indices, the 52 entries of the standard and twelve that
/// repeat its last one.
pub open spec fn alpha_table() -> Seq<u8> {
    seq![
        0u8, 0, 0, 0, 0, 0, 0, 0, 0, 0, 0, 0,
        0, 0, 0, 0, 0, 0, 0, 0, 0, 0, 0, 0, 0, 0, 0, 0, 4, 4, 5, 6, 7, 8, 9, 10, 12, 13, 15, 17, 20,
        22, 25, 28, 32, 36, 40, 45, 50, 56, 63, 71, 80, 90, 101, 113, 127, 144, 162, 182, 203, 226,
        255, 255, 255, 255, 255, 255, 255, 255, 255, 255, 255, 255, 255, 255,
    ]
}

/// Table 8-16, `beta'`, padded as `alpha_table`.
pub open spec fn beta_table() -> Seq<u8> {
    seq![
        0u8, 0, 0, 0, 0, 0, 0, 0, 0, 0, 0, 0,
        0, 0, 0, 0, 0, 0, 0, 0, 0, 0, 0, 0, 0, 0, 0, 0, 2, 2, 2, 3, 3, 3, 3, 4, 4, 4, 6, 6, 7, 7, 8, 8,
        9, 9, 10, 10, 11, 11, 12, 12, 13, 13, 14, 14, 15, 15, 16, 16, 17, 17, 18, 18,
        18, 18, 18, 18, 18, 18, 18, 18, 18, 18, 18, 18,
    ]
}

/// Table 8-17, `tC0'` for bS = 1, padded as `alpha_table`.
pub open spec fn tc0_table_bs1() -> Seq<u8> {
    seq![
        0u8, 0, 0, 0, 0, 0, 0, 0, 0, 0, 0, 0,
        0, 0, 0, 0, 0, 0, 0, 0, 0, 0, 0, 0, 0, 0, 0, 0, 0, 0, 0, 0, 0, 0, 0, 1, 1, 1, 1, 1, 1, 1,
        1, 1, 1, 2, 2, 2, 2, 3, 3, 3, 4, 4, 4, 5, 6, 6, 7, 8, 9, 10, 11, 13,
        13, 13, 13, 13, 13, 13, 13, 13, 13, 13, 13, 13,
    ]
}

/// Table 8-17, `tC0'` for bS = 2, padded as `alpha_table`.
pub open spec fn tc0_table_bs2() -> Seq<u8> {
    seq![
        0u8, 0, 0, 0, 0, 0, 0, 0, 0, 0, 0, 0,
        0, 0, 0, 0, 0, 0, 0, 0, 0, 0, 0, 0, 0, 0, 0, 0, 0, 0, 0, 0, 0, 1, 1, 1, 1, 1, 1, 1, 1, 1,
        1, 2, 2, 2, 2, 3, 3, 3, 4, 4, 5, 5, 6, 7, 8, 8, 10, 11, 12, 13, 15, 17,
        17, 17, 17, 17, 17, 17, 17, 17, 17, 17, 17, 17,
    ]
}

/// Table 8-17, `tC0'` for bS = 3, padded as `alpha_table`.
pub open spec fn tc0_table_bs3() -> Seq<u8> {
    seq![
        0u8, 0, 0, 0, 0, 0, 0, 0, 0, 0, 0, 0,
        0, 0, 0, 0, 0, 0, 0, 0, 0, 0, 0, 0, 0, 0, 0, 0, 0, 1, 1, 1, 1, 1, 1, 1, 1, 1, 1, 2, 2, 2,
        2, 3, 3, 3, 4, 4, 4, 5, 6, 6, 7, 8, 9, 10, 11, 13, 14, 16, 18, 20, 23, 25,
        25, 25, 25, 25, 25, 25, 25, 25, 25, 25, 25, 25,
    ]
}

/// `tC0'` of Table 8-17 for boundary strength `bs` in `1..=3` at padded
/// index `index_a`.
pub open spec fn tc0_of(bs: int, index_a: int) -> int {
    if bs == 1 {
        tc0_table_bs1()[index_a] as int
    } else if bs == 2 {
        tc0_table_bs2()[index_a] as int
    } else {
        tc0_table_bs3()[index_a] as int
    }
}

proof fn lemma_tc0_bound(bs: int, index_a: int)
    requires
        1 <= bs <= 3,
        0 <= index_a < 76,
    ensures
        0 <= tc0_of(bs, index_a) <= 25,
{
    assert(tc0_table_bs1().len() == 76 && tc0_table_bs2().len() == 76 && tc0_table_bs3().len()
        == 76);
    assert(forall|i: int| 0 <= i < 76 ==> #[trigger] tc0_table_bs1()[i] <= 25);
    assert(forall|i: int| 0 <= i < 76 ==> #[trigger] tc0_table_bs2()[i] <= 25);
    assert(forall|i: int| 0 <= i < 76 ==> #[trigger] tc0_table_bs3()[i] <= 25);
}

/// The filter thresholds of an edge (Section 8.7.2.2): `alpha`, `beta` and
/// the padded index `indexA + 12` that selects `tC0`.
#[derive(Clone, Copy, Debug, PartialEq, Eq, Structural)]
pub struct FilterThresholds {
    pub alpha: i32,
    pub beta: i32,
    pub index_a: usize,
}

/// Equations 8-453 to 8-455 and Table 8-16: the thresholds of an edge
/// between blocks whose QPs are `p_qp` and `q_qp`, with the slice's offsets
/// `a_off` and `b_off`.
pub open spec fn th_spec(p_qp: int, q_qp: int, a_off: int, b_off: int) -> FilterThresholds {
    let ia = (p_qp + q_qp + 1) / 2 + a_off + 12;
    let ib = (p_qp + q_qp + 1) / 2 + b_off + 12;
    FilterThresholds { alpha: alpha_table()[ia] as i32, beta: beta_table()[ib] as i32, index_a: ia as usize }
}

impl FilterThresholds {
    /// The thresholds come from Table 8-16 at an index inside it.
    pub open spec fn wf(self) -> bool {
        &&& self.index_a < 76
        &&& 0 <= self.alpha <= 255
        &&& 0 <= self.beta <= 18
    }

    /// Equations 8-453 to 8-455 and Table 8-16: the thresholds of an edge
    /// between blocks whose QPs are `p_qp` and `q_qp`, with the slice's
    /// offsets `alpha_offset` and `beta_offset` (`FilterOffsetA`/`B`).
    pub fn from_qp(p_qp: u8, q_qp: u8, alpha_offset: i32, beta_offset: i32) -> (t: Self)
        requires
            -12 <= (p_qp + q_qp + 1) / 2 + alpha_offset <= 63,
            -12 <= (p_qp + q_qp + 1) / 2 + beta_offset <= 63,
        ensures
            t.wf(),
            t.index_a == (p_qp + q_qp + 1) / 2 + alpha_offset + 12,
            t.alpha == alpha_table()[t.index_a as int],
            t.beta == beta_table()[(p_qp + q_qp + 1) / 2 + beta_offset + 12],
            t == th_spec(p_qp as int, q_qp as int, alpha_offset as int, beta_offset as int),
    {
        let alpha_t: [u8; 76] = [
            0, 0, 0, 0, 0, 0, 0, 0, 0, 0, 0, 0,
            0, 0, 0, 0, 0, 0, 0, 0, 0, 0, 0, 0, 0, 0, 0, 0, 4, 4, 5, 6, 7, 8, 9, 10, 12, 13, 15, 17,
            20, 22, 25, 28, 32, 36, 40, 45, 50, 56, 63, 71, 80, 90, 101, 113, 127, 144, 162, 182,
            203, 226, 255, 255, 255, 255, 255, 255, 255, 255, 255, 255, 255, 255, 255, 255,
        ];
        let beta_t: [u8; 76] = [
            0, 0, 0, 0, 0, 0, 0, 0, 0, 0, 0, 0,
            0, 0, 0, 0, 0, 0, 0, 0, 0, 0, 0, 0, 0, 0, 0, 0, 2, 2, 2, 3, 3, 3, 3, 4, 4, 4, 6, 6, 7, 7,
            8, 8, 9, 9, 10, 10, 11, 11, 12, 12, 13, 13, 14, 14, 15, 15, 16, 16, 17, 17, 18, 18,
            18, 18, 18, 18, 18, 18, 18, 18, 18, 18, 18, 18,
        ];
        assert(alpha_t@ =~= alpha_table());
        assert(beta_t@ =~= beta_table());
        assert(forall|i: int| 0 <= i < 76 ==> #[trigger] beta_table()[i] <= 18);
        let sum: i32 = p_qp as i32 + q_qp as i32 + 1;
        proof {
            lemma_i32_shr(sum, 1);
            vstd::arithmetic::power2::lemma2_to64();
        }
        let qp_av: i32 = sum >> 1u32;
        assert(qp_av == sum / 2);
        let index_a = (qp_av + alpha_offset + QP_OFFSET_PAD) as usize;
        let index_b = (qp_av + beta_offset + QP_OFFSET_PAD) as usize;
        FilterThresholds {
            alpha: alpha_t[index_a] as i32,
            beta: beta_t[index_b] as i32,
            index_a,
        }
    }
}

/// `tC0'` of Table 8-17 for boundary strength `bs` in `1..=3` at padded
/// index `index_a`.
pub fn tc0_lookup(bs: u8, index_a: usize) -> (t: i32)
    requires
        1 <= bs <= 3,
        index_a < 76,
    ensures
        t == tc0_of(bs as int, index_a as int),
        0 <= t <= 25,
{
    let t1: [u8; 76] = [
        0, 0, 0, 0, 0, 0, 0, 0, 0, 0, 0, 0,
        0, 0, 0, 0, 0, 0, 0, 0, 0, 0, 0, 0, 0, 0, 0, 0, 0, 0, 0, 0, 0, 0, 0, 1, 1, 1, 1, 1, 1, 1,
        1, 1, 1, 2, 2, 2, 2, 3, 3, 3, 4, 4, 4, 5, 6, 6, 7, 8, 9, 10, 11, 13,
        13, 13, 13, 13, 13, 13, 13, 13, 13, 13, 13, 13,
    ];
    let t2: [u8; 76] = [
        0, 0, 0, 0, 0, 0, 0, 0, 0, 0, 0, 0,
        0, 0, 0, 0, 0, 0, 0, 0, 0, 0, 0, 0, 0, 0, 0, 0, 0, 0, 0, 0, 0, 1, 1, 1, 1, 1, 1, 1, 1, 1,
        1, 2, 2, 2, 2, 3, 3, 3, 4, 4, 5, 5, 6, 7, 8, 8, 10, 11, 12, 13, 15, 17,
        17, 17, 17, 17, 17, 17, 17, 17, 17, 17, 17, 17,
    ];
    let t3: [u8; 76] = [
        0, 0, 0, 0, 0, 0, 0, 0, 0, 0, 0, 0,
        0, 0, 0, 0, 0, 0, 0, 0, 0, 0, 0, 0, 0, 0, 0, 0, 0, 1, 1, 1, 1, 1, 1, 1, 1, 1, 1, 2, 2, 2,
        2, 3, 3, 3, 4, 4, 4, 5, 6, 6, 7, 8, 9, 10, 11, 13, 14, 16, 18, 20, 23, 25,
        25, 25, 25, 25, 25, 25, 25, 25, 25, 25, 25, 25,
    ];
    assert(t1@ =~= tc0_table_bs1());
    assert(t2@ =~= tc0_table_bs2());
    assert(t3@ =~= tc0_table_bs3());
    proof {
        lemma_tc0_bound(bs as int, index_a as int);
    }
    if bs == 1 {
        t1[index_a] as i32
    } else if bs == 2 {
        t2[index_a] as i32
    } else {
        t3[index_a] as i32
    }
}

/// `|v|`.
pub open spec fn iabs(v: int) -> int {
    if v < 0 {
        -v
    } else {
        v
    }
}

/// Equation 8-460: the samples `p1, p0, q0, q1` across an edge are filtered.
pub open spec fn edge_active(p1: int, p0: int, q0: int, q1: int, alpha: int, beta: int) -> bool {
    iabs(p0 - q0) < alpha && iabs(p1 - p0) < beta && iabs(q1 - q0) < beta
}

/// Section 8.7.2.4, one side of a luma edge with bS = 4: the new values of
/// the samples `x2, x1, x0` nearest the edge on that side, where `x3..x0`
/// are that side's samples away from the edge and `y0, y1, y2` the other
/// side's (Equations 8-477 to 8-480, and mirrored 8-484 to 8-487).
pub open spec fn strong_side(
    x3: int,
    x2: int,
    x1: int,
    x0: int,
    y0: int,
    y1: int,
    alpha: int,
    beta: int,
) -> (u8, u8, u8) {
    if iabs(x2 - x0) < beta && iabs(x0 - y0) < alpha / 4 + 2 {
        (
            clip_u8((2 * x3 + 3 * x2 + x1 + x0 + y0 + 4) / 8),
            clip_u8((x2 + x1 + x0 + y0 + 2) / 4),
            clip_u8((x2 + 2 * x1 + 2 * x0 + 2 * y0 + y1 + 4) / 8),
        )
    } else {
        (x2 as u8, x1 as u8, clip_u8((2 * x1 + x0 + y1 + 2) / 4))
    }
}

/// Section 8.7.2.3, the second sample `x1` from a luma edge with bS < 4
/// (Equation 8-470, and mirrored 8-472), where `x2, x1, x0` are that side's
/// samples and `y0` the nearest on the other side.
pub open spec fn weak_side(x2: int, x1: int, x0: int, y0: int, tc0: int, beta: int) -> u8 {
    if iabs(x2 - x0) < beta {
        clip_u8(x1 + clamp((x2 + (x0 + y0 + 1) / 2 - 2 * x1) / 2, -tc0, tc0))
    } else {
        x1 as u8
    }
}

/// Equation 8-467 clipped into `-tc..=tc`: the change of the samples next
/// to an edge filtered with bS < 4.
pub open spec fn weak_delta(p1: int, p0: int, q0: int, q1: int, tc: int) -> int {
    clamp(((q0 - p0) * 4 + (p1 - q1) + 4) / 8, -tc, tc)
}

/// Sections 8.7.2.3 and 8.7.2.4: the luma samples `p3, p2, p1, p0, q0, q1,
/// q2, q3` of one line across an edge after filtering, with the filter for
/// bS = 4 (`strong`) or the one for bS < 4 with `tc0` (Table 8-17).
pub open spec fn luma_line(s: Seq<u8>, strong: bool, tc0: int, alpha: int, beta: int) -> Seq<u8> {
    let p3 = s[0] as int;
    let p2 = s[1] as int;
    let p1 = s[2] as int;
    let p0 = s[3] as int;
    let q0 = s[4] as int;
    let q1 = s[5] as int;
    let q2 = s[6] as int;
    let q3 = s[7] as int;
    if !edge_active(p1, p0, q0, q1, alpha, beta) {
        s
    } else if strong {
        let (np2, np1, np0) = strong_side(p3, p2, p1, p0, q0, q1, alpha, beta);
        let (nq2, nq1, nq0) = strong_side(q3, q2, q1, q0, p0, p1, alpha, beta);
        seq![s[0], np2, np1, np0, nq0, nq1, nq2, s[7]]
    } else {
        // Equation 8-465
        let tc = tc0 + (if iabs(p2 - p0) < beta {
            1int
        } else {
            0int
        }) + (if iabs(q2 - q0) < beta {
            1int
        } else {
            0int
        });
        let delta = weak_delta(p1, p0, q0, q1, tc);
        seq![
            s[0],
            s[1],
            weak_side(p2, p1, p0, q0, tc0, beta),
            clip_u8(p0 + delta),
            clip_u8(q0 - delta),
            weak_side(q2, q1, q0, p0, tc0, beta),
            s[6],
            s[7],
        ]
    }
}

/// Sections 8.7.2.3 and 8.7.2.4 with `chromaEdgeFlag = 1`: the chroma
/// samples `p1, p0, q0, q1` of one line across an edge after filtering,
/// with the filter for bS = 4 (`strong`) or the one for bS < 4 with `tc`
/// (Equation 8-466).
pub open spec fn chroma_line(s: Seq<u8>, strong: bool, tc: int, alpha: int, beta: int) -> Seq<u8> {
    let p1 = s[0] as int;
    let p0 = s[1] as int;
    let q0 = s[2] as int;
    let q1 = s[3] as int;
    if !edge_active(p1, p0, q0, q1, alpha, beta) {
        s
    } else if strong {
        // Equations 8-480 and 8-487
        s.update(1, clip_u8((2 * p1 + p0 + q1 + 2) / 4)).update(2, clip_u8((2 * q1 + q0 + p1 + 2) / 4))
    } else {
        let delta = clamp(((q0 - p0) * 4 + (p1 - q1) + 4) / 8, -tc, tc);
        s.update(1, clip_u8(p0 + delta)).update(2, clip_u8(q0 - delta))
    }
}

/// The eight samples of `d` from `base`, `step` apart.
pub open spec fn line8(d: Seq<u8>, base: int, step: int) -> Seq<u8> {
    seq![
        d[base],
        d[base + step],
        d[base + 2 * step],
        d[base + 3 * step],
        d[base + 4 * step],
        d[base + 5 * step],
        d[base + 6 * step],
        d[base + 7 * step],
    ]
}

/// `d` with the eight samples from `base`, `step` apart, replaced by `v`.
pub open spec fn put8(d: Seq<u8>, base: int, step: int, v: Seq<u8>) -> Seq<u8> {
    d.update(base, v[0]).update(base + step, v[1]).update(base + 2 * step, v[2]).update(
        base + 3 * step,
        v[3],
    ).update(base + 4 * step, v[4]).update(base + 5 * step, v[5]).update(base + 6 * step, v[6]).update(
        base + 7 * step,
        v[7],
    )
}

/// The four samples of `d` from `base`, `step` apart.
pub open spec fn line4(d: Seq<u8>, base: int, step: int) -> Seq<u8> {
    seq![d[base], d[base + step], d[base + 2 * step], d[base + 3 * step]]
}

/// `d` with the four samples from `base`, `step` apart, replaced by `v`.
pub open spec fn put4(d: Seq<u8>, base: int, step: int, v: Seq<u8>) -> Seq<u8> {
    d.update(base, v[0]).update(base + step, v[1]).update(base + 2 * step, v[2]).update(
        base + 3 * step,
        v[3],
    )
}

/// `v >> k` for `k` in `1..=3`: the floor of `v / 2^k`.
fn floor_shr(v: i32, k: u32) -> (r: i32)
    requires
        1 <= k <= 3,
    ensures
        k == 1 ==> r == v / 2,
        k == 2 ==> r == v / 4,
        k == 3 ==> r == v / 8,
{
    proof {
        lemma_i32_shr(v, k);
        vstd::arithmetic::power2::lemma2_to64();
    }
    v >> k
}

/// `|v|` for an `i32` other than `i32::MIN`.
fn abs_i32(v: i32) -> (r: i32)
    requires
        v > i32::MIN,
    ensures
        r == iabs(v as int),
{
    if v < 0 {
        -v
    } else {
        v
    }
}

/// `v` clamped into `-t..=t`.
fn clamp_sym(v: i32, t: i32) -> (r: i32)
    requires
        0 <= t,
    ensures
        r == clamp(v as int, -t as int, t as int),
{
    if v < -t {
        -t
    } else if v > t {
        t
    } else {
        v
    }
}

/// One side of a luma edge with bS = 4 (see `strong_side`).
fn strong_side_exec(x3: i32, x2: i32, x1: i32, x0: i32, y0: i32, y1: i32, alpha: i32, beta: i32) -> (r: (u8, u8, u8))
    requires
        0 <= x3 <= 255,
        0 <= x2 <= 255,
        0 <= x1 <= 255,
        0 <= x0 <= 255,
        0 <= y0 <= 255,
        0 <= y1 <= 255,
        0 <= alpha <= 255,
        0 <= beta <= 255,
    ensures
        r == strong_side(x3 as int, x2 as int, x1 as int, x0 as int, y0 as int, y1 as int, alpha as int, beta as int),
{
    if abs_i32(x2 - x0) < beta && abs_i32(x0 - y0) < floor_shr(alpha, 2) + 2 {
        (
            clip1(floor_shr(2 * x3 + 3 * x2 + x1 + x0 + y0 + 4, 3)),
            clip1(floor_shr(x2 + x1 + x0 + y0 + 2, 2)),
            clip1(floor_shr(x2 + 2 * x1 + 2 * x0 + 2 * y0 + y1 + 4, 3)),
        )
    } else {
        (x2 as u8, x1 as u8, clip1(floor_shr(2 * x1 + x0 + y1 + 2, 2)))
    }
}

/// The second sample from a luma edge with bS < 4 (see `weak_side`).
fn weak_side_exec(x2: i32, x1: i32, x0: i32, y0: i32, tc0: i32, beta: i32) -> (r: u8)
    requires
        0 <= x2 <= 255,
        0 <= x1 <= 255,
        0 <= x0 <= 255,
        0 <= y0 <= 255,
        0 <= tc0 <= 25,
        0 <= beta <= 255,
    ensures
        r == weak_side(x2 as int, x1 as int, x0 as int, y0 as int, tc0 as int, beta as int),
{
    if abs_i32(x2 - x0) < beta {
        clip1(x1 + clamp_sym(floor_shr(x2 + floor_shr(x0 + y0 + 1, 1) - 2 * x1, 1), tc0))
    } else {
        x1 as u8
    }
}

/// Sections 8.7.2.3 and 8.7.2.4: filters the luma samples `p3..q3` of one
/// line across an edge (see `luma_line`).
pub fn filter_luma_samples(s: [u8; 8], strong: bool, tc0: i32, thresh: &FilterThresholds) -> (r: [u8; 8])
    requires
        thresh.wf(),
        0 <= tc0 <= 25,
    ensures
        r@ == luma_line(s@, strong, tc0 as int, thresh.alpha as int, thresh.beta as int),
{
    let alpha = thresh.alpha;
    let beta = thresh.beta;
    let p3 = s[0] as i32;
    let p2 = s[1] as i32;
    let p1 = s[2] as i32;
    let p0 = s[3] as i32;
    let q0 = s[4] as i32;
    let q1 = s[5] as i32;
    let q2 = s[6] as i32;
    let q3 = s[7] as i32;
    if !(abs_i32(p0 - q0) < alpha && abs_i32(p1 - p0) < beta && abs_i32(q1 - q0) < beta) {
        return s;
    }
    if strong {
        let (np2, np1, np0) = strong_side_exec(p3, p2, p1, p0, q0, q1, alpha, beta);
        let (nq2, nq1, nq0) = strong_side_exec(q3, q2, q1, q0, p0, p1, alpha, beta);
        let r = [s[0], np2, np1, np0, nq0, nq1, nq2, s[7]];
        assert(r@ =~= luma_line(s@, strong, tc0 as int, alpha as int, beta as int));
        r
    } else {
        let tc = tc0 + (if abs_i32(p2 - p0) < beta {
            1i32
        } else {
            0i32
        }) + (if abs_i32(q2 - q0) < beta {
            1i32
        } else {
            0i32
        });
        let delta = clamp_sym(floor_shr((q0 - p0) * 4 + (p1 - q1) + 4, 3), tc);
        let r = [
            s[0],
            s[1],
            weak_side_exec(p2, p1, p0, q0, tc0, beta),
            clip1(p0 + delta),
            clip1(q0 - delta),
            weak_side_exec(q2, q1, q0, p0, tc0, beta),
            s[6],
            s[7],
        ];
        assert(r@ =~= luma_line(s@, strong, tc0 as int, alpha as int, beta as int));
        r
    }
}

/// Sections 8.7.2.3 and 8.7.2.4 with `chromaEdgeFlag = 1`: filters the
/// chroma samples `p1, p0, q0, q1` of one line across an edge (see
/// `chroma_line`).
pub fn filter_chroma_samples(s: [u8; 4], strong: bool, tc: i32, thresh: &FilterThresholds) -> (r: [u8; 4])
    requires
        thresh.wf(),
        0 <= tc <= 26,
    ensures
        r@ == chroma_line(s@, strong, tc as int, thresh.alpha as int, thresh.beta as int),
{
    let alpha = thresh.alpha;
    let beta = thresh.beta;
    let p1 = s[0] as i32;
    let p0 = s[1] as i32;
    let q0 = s[2] as i32;
    let q1 = s[3] as i32;
    let mut r = s;
    if abs_i32(p0 - q0) < alpha && abs_i32(p1 - p0) < beta && abs_i32(q1 - q0) < beta {
        if strong {
            r = [
                s[0],
                clip1(floor_shr(2 * p1 + p0 + q1 + 2, 2)),
                clip1(floor_shr(2 * q1 + q0 + p1 + 2, 2)),
                s[3],
            ];
        } else {
            let delta = clamp_sym(floor_shr((q0 - p0) * 4 + (p1 - q1) + 4, 3), tc);
            r = [s[0], clip1(p0 + delta), clip1(q0 - delta), s[3]];
        }
    }
    assert(r@ =~= chroma_line(s@, strong, tc as int, alpha as int, beta as int));
    r
}

/// `tC0` of a segment with boundary strength `bs` (Table 8-17), 0 for the
/// bS = 4 filter, which does not use it.
pub open spec fn tc0_for(bs: u8, index_a: int) -> int {
    if bs >= 4 {
        0
    } else {
        tc0_of(bs as int, index_a)
    }
}

/// Samples on either side of an edge that a line of the luma (4) or
/// chroma (2) filter reads.
pub open spec fn half_of(luma: bool) -> int {
    if luma {
        4
    } else {
        2
    }
}

/// Index in the plane buffer of the first sample of line `k` across the
/// vertical (`vertical`) edge left of column `x`, from row `y`, or the
/// horizontal edge above row `y`, from column `x`; coordinates count from
/// the sample at `origin`, and rows are `stride` apart.
pub open spec fn edge_line_base(
    luma: bool,
    vertical: bool,
    origin: int,
    stride: int,
    x: int,
    y: int,
    k: int,
) -> int {
    if vertical {
        origin + (y + k) * stride + x - half_of(luma)
    } else {
        origin + (y - half_of(luma)) * stride + x + k
    }
}

/// Distance in the buffer between consecutive samples of a line across
/// the edge.
pub open spec fn edge_step(vertical: bool, stride: int) -> int {
    if vertical {
        1
    } else {
        stride
    }
}

/// Line `k` of the edge lies in a buffer of `len` samples: across a vertical
/// edge each row on its own, across a horizontal edge all rows together,
/// and none when the edge starts before the buffer.
pub open spec fn edge_line_ok(
    len: int,
    luma: bool,
    vertical: bool,
    origin: int,
    stride: int,
    x: int,
    y: int,
    k: int,
) -> bool {
    let h = half_of(luma);
    if vertical {
        &&& y * stride + x >= h
        &&& stride >= 2 * h
        &&& origin + (y + k) * stride + x + h <= len
    } else {
        &&& y * stride + x >= h * stride
        &&& stride >= 4 * h
        &&& origin + (y + h - 1) * stride + x + 4 * h <= len
    }
}

/// The boundary strength of line `k`: the luma lines come four, the chroma
/// lines two to a segment.
pub open spec fn line_bs(bs: Seq<u8>, luma: bool, k: int) -> u8 {
    bs[k / (half_of(luma))]
}

/// The samples of a line after filtering with boundary strength `b > 0`.
pub open spec fn filtered_line(line: Seq<u8>, luma: bool, b: u8, th: FilterThresholds) -> Seq<u8> {
    if luma {
        luma_line(line, b >= 4, tc0_for(b, th.index_a as int), th.alpha as int, th.beta as int)
    } else {
        chroma_line(
            line,
            b >= 4,
            if b >= 4 {
                0
            } else {
                tc0_for(b, th.index_a as int) + 1
            },
            th.alpha as int,
            th.beta as int,
        )
    }
}

/// The plane buffer `d` after filtering the first `n` lines of an edge (see
/// `edge_line_base`) in order; a line is filtered where its segment's
/// boundary strength is not 0 and it lies in the buffer.
pub open spec fn filter_edge_spec(
    d: Seq<u8>,
    luma: bool,
    vertical: bool,
    origin: int,
    stride: int,
    x: int,
    y: int,
    bs: Seq<u8>,
    th: FilterThresholds,
    n: int,
) -> Seq<u8>
    decreases n,
{
    if n <= 0 {
        d
    } else {
        let prev = filter_edge_spec(d, luma, vertical, origin, stride, x, y, bs, th, n - 1);
        let k = n - 1;
        let b = line_bs(bs, luma, k);
        if b != 0 && edge_line_ok(d.len() as int, luma, vertical, origin, stride, x, y, k) {
            let base = edge_line_base(luma, vertical, origin, stride, x, y, k);
            let step = edge_step(vertical, stride);
            if luma {
                put8(prev, base, step, filtered_line(line8(prev, base, step), luma, b, th))
            } else {
                put4(prev, base, step, filtered_line(line4(prev, base, step), luma, b, th))
            }
        } else {
            prev
        }
    }
}

/// A line that lies in the buffer has all its samples there.
proof fn lemma_edge_line_in_range(
    len: int,
    luma: bool,
    vertical: bool,
    origin: int,
    stride: int,
    x: int,
    y: int,
    k: int,
)
    requires
        0 <= origin,
        0 <= stride,
        0 <= x,
        0 <= y,
        0 <= k < 4 * half_of(luma),
        edge_line_ok(len, luma, vertical, origin, stride, x, y, k),
    ensures
        0 <= edge_line_base(luma, vertical, origin, stride, x, y, k),
        edge_line_base(luma, vertical, origin, stride, x, y, k) + (2 * half_of(luma) - 1)
            * edge_step(vertical, stride) < len,
{
    let h = half_of(luma);
    if vertical {
        assert((y + k) * stride >= y * stride) by (nonlinear_arith)
            requires
                k >= 0,
                stride >= 0,
        ;
    } else {
        assert((y - h) * stride + x >= 0) by (nonlinear_arith)
            requires
                y * stride + x >= h * stride,
        ;
        assert((y - h) * stride + (2 * h - 1) * stride == (y + h - 1) * stride) by (nonlinear_arith);
    }
}

proof fn lemma_filter_edge_len(
    d: Seq<u8>,
    luma: bool,
    vertical: bool,
    origin: int,
    stride: int,
    x: int,
    y: int,
    bs: Seq<u8>,
    th: FilterThresholds,
    n: int,
)
    requires
        0 <= origin,
        0 <= stride,
        0 <= x,
        0 <= y,
        n <= 4 * half_of(luma),
    ensures
        filter_edge_spec(d, luma, vertical, origin, stride, x, y, bs, th, n).len() == d.len(),
    decreases n,
{
    if n > 0 {
        lemma_filter_edge_len(d, luma, vertical, origin, stride, x, y, bs, th, n - 1);
        let k = n - 1;
        if line_bs(bs, luma, k) != 0 && edge_line_ok(d.len() as int, luma, vertical, origin, stride, x, y, k) {
            lemma_edge_line_in_range(d.len() as int, luma, vertical, origin, stride, x, y, k);
        }
    }
}

/// Where line `k` of an edge lies (see `edge_line_base`), and whether it
/// lies in a buffer of `len` samples.
fn edge_line_geometry(
    len: usize,
    luma: bool,
    vertical: bool,
    origin: usize,
    stride: usize,
    x: usize,
    y: usize,
    k: usize,
) -> (r: (bool, usize, usize))
    requires
        k < 4 * half_of(luma),
        origin + (y + 16) * stride + x + 16 <= usize::MAX,
    ensures
        r.0 == edge_line_ok(len as int, luma, vertical, origin as int, stride as int, x as int, y as int, k as int),
        r.0 ==> r.1 == edge_line_base(luma, vertical, origin as int, stride as int, x as int, y as int, k as int),
        r.2 == edge_step(vertical, stride as int),
{
    let half: usize = if luma {
        4
    } else {
        2
    };
    assert(y * stride <= (y + 16) * stride && (y + k) * stride == y * stride + k * stride && k
        * stride <= 16 * stride && 16 * stride <= (y + 16) * stride && (y + 16) * stride == y
        * stride + 16 * stride) by (nonlinear_arith)
        requires
            k <= 16,
    ;
    let ys = y * stride;
    if vertical {
        let row = ys + k * stride;
        let ok = ys + x >= half && stride >= 2 * half && origin + row + x + half <= len;
        if ok {
            (true, origin + row + x - half, 1)
        } else {
            (false, 0, 1)
        }
    } else {
        assert((y + half - 1) * stride == y * stride + (half - 1) * stride && (half - 1) * stride
            <= 16 * stride && half * stride <= 16 * stride && stride <= half * stride && half
            * stride - stride == (half - 1) * stride && (y - half) * stride == y * stride - half
            * stride) by (nonlinear_arith)
            requires
                2 <= half <= 4,
        ;
        let hs = half * stride;
        let ok = ys + x >= hs && stride >= 4 * half && origin + ys + (hs - stride) + x + 4 * half
            <= len;
        if ok {
            (true, origin + ys + x + k - hs, stride)
        } else {
            (false, 0, stride)
        }
    }
}

/// Filters one line of `2 * half_of(luma)` samples from `base`, `step`
/// apart, with boundary strength `b > 0`.
fn filter_line(
    data: &mut Vec<u8>,
    luma: bool,
    base: usize,
    step: usize,
    b: u8,
    thresh: &FilterThresholds,
)
    requires
        b != 0,
        thresh.wf(),
        luma ==> base + 7 * step < old(data)@.len(),
        !luma ==> base + 3 * step < old(data)@.len(),
    ensures
        final(data)@ == (if luma {
            put8(old(data)@, base as int, step as int, filtered_line(line8(old(data)@, base as int, step as int), luma, b, *thresh))
        } else {
            put4(old(data)@, base as int, step as int, filtered_line(line4(old(data)@, base as int, step as int), luma, b, *thresh))
        }),
{
    let len = data.len();
    if luma {
        let line = [
            data[base],
            data[base + step],
            data[base + 2 * step],
            data[base + 3 * step],
            data[base + 4 * step],
            data[base + 5 * step],
            data[base + 6 * step],
            data[base + 7 * step],
        ];
        assert(line@ =~= line8(data@, base as int, step as int));
        let tc0 = if b >= 4 {
            0
        } else {
            tc0_lookup(b, thresh.index_a)
        };
        let r = filter_luma_samples(line, b >= 4, tc0, thresh);
        data.set(base, r[0]);
        data.set(base + step, r[1]);
        data.set(base + 2 * step, r[2]);
        data.set(base + 3 * step, r[3]);
        data.set(base + 4 * step, r[4]);
        data.set(base + 5 * step, r[5]);
        data.set(base + 6 * step, r[6]);
        data.set(base + 7 * step, r[7]);
    } else {
        let line = [data[base], data[base + step], data[base + 2 * step], data[base + 3 * step]];
        assert(line@ =~= line4(data@, base as int, step as int));
        let tc = if b >= 4 {
            0
        } else {
            tc0_lookup(b, thresh.index_a) + 1
        };
        let r = filter_chroma_samples(line, b >= 4, tc, thresh);
        data.set(base, r[0]);
        data.set(base + step, r[1]);
        data.set(base + 2 * step, r[2]);
        data.set(base + 3 * step, r[3]);
    }
}

/// Filters the lines of one edge of a plane held in `data` (see
/// `filter_edge_spec`): 16 luma lines of 8 samples or 8 chroma lines of 4.
fn filter_edge_lines(
    data: &mut Vec<u8>,
    luma: bool,
    vertical: bool,
    origin: usize,
    stride: usize,
    x: usize,
    y: usize,
    bs: &[u8; 4],
    thresh: &FilterThresholds,
)
    requires
        thresh.wf(),
        origin + (y + 16) * stride + x + 16 <= usize::MAX,
    ensures
        final(data)@ == filter_edge_spec(
            old(data)@,
            luma,
            vertical,
            origin as int,
            stride as int,
            x as int,
            y as int,
            bs@,
            *thresh,
            4 * half_of(luma),
        ),
{
    let ghost d0 = data@;
    let half: usize = if luma {
        4
    } else {
        2
    };
    let n: usize = 4 * half;
    let len = data.len();
    let mut k: usize = 0;
    while k < n
        invariant
            k <= n,
            n == 4 * half_of(luma),
            half == half_of(luma),
            len == d0.len(),
            thresh.wf(),
            origin + (y + 16) * stride + x + 16 <= usize::MAX,
            data@ == filter_edge_spec(
                d0,
                luma,
                vertical,
                origin as int,
                stride as int,
                x as int,
                y as int,
                bs@,
                *thresh,
                k as int,
            ),
        decreases n - k,
    {
        proof {
            lemma_filter_edge_len(
                d0,
                luma,
                vertical,
                origin as int,
                stride as int,
                x as int,
                y as int,
                bs@,
                *thresh,
                k as int,
            );
        }
        let b = bs[k / half];
        assert(b == line_bs(bs@, luma, k as int));
        if b != 0 {
            let (ok, base, step) = edge_line_geometry(len, luma, vertical, origin, stride, x, y, k);
            if ok {
                proof {
                    lemma_edge_line_in_range(
                        len as int,
                        luma,
                        vertical,
                        origin as int,
                        stride as int,
                        x as int,
                        y as int,
                        k as int,
                    );
                }
                filter_line(data, luma, base, step, b, thresh);
            }
        }
        k = k + 1;
    }
}

/// `MbDeblockInfo::flags`: the macroblock is coded in an Intra prediction
/// mode (I, including I_PCM).
pub const INTRA: u8 = 1;

/// `MbDeblockInfo::flags`: `transform_size_8x8_flag` is set.
pub const TRANSFORM_8X8: u8 = 2;

/// `MbDeblockInfo::flags`: every internal edge of the macroblock has bS 0.
pub const NO_INTERNAL_EDGES: u8 = 4;

/// `MbDeblockInfo::flags`: the macroblock's slice has an empty
/// `RefPicList1`, as P slices do.
pub const L1_EMPTY: u8 = 8;

/// `MbDeblockInfo::flags`: no slice decoded the macroblock.
pub const NOT_DECODED: u8 = 16;

/// Flag `f` is set in `flags`.
pub open spec fn has_flag(flags: u8, f: u8) -> bool {
    flags & f != 0
}

/// Bit `i` of the mask `nz` is set.
pub open spec fn nz_bit(nz: u16, i: int) -> bool {
    (nz >> (i as u16)) & 1u16 != 0
}

/// The per-4x4-block inputs of Section 8.7.2.1 for an inter macroblock, in
/// raster order: 4x4 block (row, col) is index `4 * row + col`.
#[derive(Clone, Copy, Debug, Default, PartialEq, Eq)]
pub struct BlockInfo {
    /// Bit `4 * row + col` is set when the luma transform block holding 4x4
    /// block (row, col) has non-zero coefficients.
    pub nz: u16,
    /// Picture id of each block's list 0 and list 1 reference; 0 when the
    /// reference index selects no picture.
    pub ref_l0: [u8; 16],
    pub ref_l1: [u8; 16],
    /// Each block's list 0 and list 1 motion vector as `[x, y]`.
    pub mv_l0: [[i16; 2]; 16],
    pub mv_l1: [[i16; 2]; 16],
}

/// What the deblocking filter reads about one macroblock (Section 8.7).
#[derive(Clone, Copy, Debug, Default, PartialEq, Eq)]
pub struct MbDeblockInfo {
    /// `QP_Y` of the macroblock.
    pub qp: u8,
    /// `QP_C` of the Cb and Cr planes for `qp` (Section 8.5.8).
    pub qp_c: [u8; 2],
    /// `INTRA`, `TRANSFORM_8X8`, `NO_INTERNAL_EDGES`, `L1_EMPTY`,
    /// `NOT_DECODED`.
    pub flags: u8,
    /// Index of the slice that decoded the macroblock.
    pub slice_id: u16,
    /// The inputs of the boundary strengths of its 4x4 blocks; zero for
    /// intra macroblocks, whose edges get bS 3 or 4 regardless.
    pub blocks: BlockInfo,
}

impl MbDeblockInfo {
    /// Flag `flag` is set.
    pub fn is(&self, flag: u8) -> (b: bool)
        ensures
            b == has_flag(self.flags, flag),
    {
        self.flags & flag != 0
    }
}

/// Motion vectors closer than 4 quarter luma samples in both components.
pub open spec fn mv_close(a: [i16; 2], b: [i16; 2]) -> bool {
    iabs(a@[0] - b@[0]) < 4 && iabs(a@[1] - b@[1]) < 4
}

/// Section 8.7.2.1: bS (2, 1 or 0) of the edge segment between 4x4 block
/// `pb` of `p` and block `qb` of `q`, blocks of inter macroblocks.
/// `p_rules` is set when q's slice has no list 1: only list 0 is compared.
pub open spec fn spec_segment_bs(p: BlockInfo, pb: int, q: BlockInfo, qb: int, p_rules: bool) -> u8 {
    let same_motion = if p_rules {
        p.ref_l0@[pb] == q.ref_l0@[qb] && mv_close(p.mv_l0@[pb], q.mv_l0@[qb])
    } else {
        // The same pictures with close motion vectors, pairing the lists
        // either directly or crosswise.
        let direct = p.ref_l0@[pb] == q.ref_l0@[qb] && p.ref_l1@[pb] == q.ref_l1@[qb] && mv_close(
            p.mv_l0@[pb],
            q.mv_l0@[qb],
        ) && mv_close(p.mv_l1@[pb], q.mv_l1@[qb]);
        let swap = p.ref_l0@[pb] == q.ref_l1@[qb] && p.ref_l1@[pb] == q.ref_l0@[qb] && mv_close(
            p.mv_l0@[pb],
            q.mv_l1@[qb],
        ) && mv_close(p.mv_l1@[pb], q.mv_l0@[qb]);
        direct || swap
    };
    if nz_bit(p.nz, pb) || nz_bit(q.nz, qb) {
        BS_CODED
    } else if same_motion {
        BS_NONE
    } else {
        BS_MOTION
    }
}

fn mv_close_exec(a: [i16; 2], b: [i16; 2]) -> (r: bool)
    ensures
        r == mv_close(a, b),
{
    abs_i32(a[0] as i32 - b[0] as i32) < 4 && abs_i32(a[1] as i32 - b[1] as i32) < 4
}

/// Section 8.7.2.1: bS (2, 1 or 0) of the edge segment between 4x4 block
/// `p_blk` of `p` and block `q_blk` of `q` (see `spec_segment_bs`).
pub fn segment_bs(p: &BlockInfo, p_blk: usize, q: &BlockInfo, q_blk: usize, p_rules: bool) -> (r: u8)
    requires
        p_blk < 16,
        q_blk < 16,
    ensures
        r == spec_segment_bs(*p, p_blk as int, *q, q_blk as int, p_rules),
{
    let (ref_p_l0, ref_q_l0) = (p.ref_l0[p_blk], q.ref_l0[q_blk]);
    let (ref_p_l1, ref_q_l1) = (p.ref_l1[p_blk], q.ref_l1[q_blk]);
    let same_motion = if p_rules {
        ref_p_l0 == ref_q_l0 && mv_close_exec(p.mv_l0[p_blk], q.mv_l0[q_blk])
    } else {
        let direct = ref_p_l0 == ref_q_l0 && ref_p_l1 == ref_q_l1 && mv_close_exec(
            p.mv_l0[p_blk],
            q.mv_l0[q_blk],
        ) && mv_close_exec(p.mv_l1[p_blk], q.mv_l1[q_blk]);
        let swap = ref_p_l0 == ref_q_l1 && ref_p_l1 == ref_q_l0 && mv_close_exec(
            p.mv_l0[p_blk],
            q.mv_l1[q_blk],
        ) && mv_close_exec(p.mv_l1[p_blk], q.mv_l0[q_blk]);
        direct || swap
    };
    let coded = (p.nz >> (p_blk as u16)) & 1 != 0 || (q.nz >> (q_blk as u16)) & 1 != 0;
    if coded {
        BS_CODED
    } else if same_motion {
        BS_NONE
    } else {
        BS_MOTION
    }
}

/// Entry `i` of the blocks across the edges left of (`vertical`) or above
/// the blocks of a macroblock: whether it is a block of the neighbouring
/// macroblock (its last column or row), and its raster index there.
pub open spec fn across(vertical: bool, i: int) -> (bool, int) {
    if vertical {
        if i % 4 == 0 {
            (true, i + 3)
        } else {
            (false, i - 1)
        }
    } else if i < 4 {
        (true, i + 12)
    } else {
        (false, i - 4)
    }
}

/// The coefficient mask of the blocks across the edges (see `across`).
pub open spec fn across_nz(q: u16, n: u16, vertical: bool) -> u16 {
    if vertical {
        ((q << 1u16) & 0xEEEEu16) | ((n >> 3u16) & 0x1111u16)
    } else {
        (q << 4u16) | (n >> 12u16)
    }
}

/// The entries of `q` and `neighbour` across the edges (see `across`).
pub open spec fn across_arr<T>(q: Seq<T>, n: Seq<T>, vertical: bool) -> Seq<T> {
    Seq::new(
        16,
        |i: int|
            {
                let (from_n, j) = across(vertical, i);
                if from_n {
                    n[j]
                } else {
                    q[j]
                }
            },
    )
}

proof fn lemma_across_nz(q: u16, n: u16, i: u16)
    requires
        i < 16,
    ensures
        nz_bit(across_nz(q, n, true), i as int) == (if i % 4 == 0 {
            nz_bit(n, i + 3)
        } else {
            nz_bit(q, i - 1)
        }),
        nz_bit(across_nz(q, n, false), i as int) == (if i < 4 {
            nz_bit(n, i + 12)
        } else {
            nz_bit(q, i - 4)
        }),
{
    assert(((((q << 1u16) & 0xEEEEu16) | ((n >> 3u16) & 0x1111u16)) >> i) & 1u16 != 0 == (if i % 4
        == 0 {
        (n >> ((i + 3) as u16)) & 1u16 != 0
    } else {
        (q >> ((i - 1) as u16)) & 1u16 != 0
    })) by (bit_vector)
        requires
            i < 16,
    ;
    assert((((q << 4u16) | (n >> 12u16)) >> i) & 1u16 != 0 == (if i < 4 {
        (n >> ((i + 12) as u16)) & 1u16 != 0
    } else {
        (q >> ((i - 4) as u16)) & 1u16 != 0
    })) by (bit_vector)
        requires
            i < 16,
    ;
}

fn across_array<T: Copy>(q: &[T; 16], n: &[T; 16], vertical: bool) -> (r: [T; 16])
    ensures
        r@ == across_arr(q@, n@, vertical),
{
    let mut r = *q;
    let mut i: usize = 0;
    while i < 16
        invariant
            i <= 16,
            r@.len() == 16,
            forall|j: int| 0 <= j < i ==> #[trigger] r@[j] == across_arr(q@, n@, vertical)[j],
        decreases 16 - i,
    {
        let v = if vertical {
            if i % 4 == 0 {
                n[i + 3]
            } else {
                q[i - 1]
            }
        } else if i < 4 {
            n[i + 12]
        } else {
            q[i - 4]
        };
        r[i] = v;
        i = i + 1;
    }
    assert(r@ =~= across_arr(q@, n@, vertical));
    r
}

/// The blocks across the edges left of (`vertical`) or above the blocks of
/// `q`: across an internal edge a block of `q`, across the macroblock edge
/// one of `neighbour`'s last column or row.
pub fn blocks_across(q: &BlockInfo, neighbour: &BlockInfo, vertical: bool) -> (r: BlockInfo)
    ensures
        r.nz == across_nz(q.nz, neighbour.nz, vertical),
        r.ref_l0@ == across_arr(q.ref_l0@, neighbour.ref_l0@, vertical),
        r.ref_l1@ == across_arr(q.ref_l1@, neighbour.ref_l1@, vertical),
        r.mv_l0@ == across_arr(q.mv_l0@, neighbour.mv_l0@, vertical),
        r.mv_l1@ == across_arr(q.mv_l1@, neighbour.mv_l1@, vertical),
{
    let nz = if vertical {
        ((q.nz << 1u16) & 0xEEEEu16) | ((neighbour.nz >> 3u16) & 0x1111u16)
    } else {
        (q.nz << 4u16) | (neighbour.nz >> 12u16)
    };
    BlockInfo {
        nz,
        ref_l0: across_array(&q.ref_l0, &neighbour.ref_l0, vertical),
        ref_l1: across_array(&q.ref_l1, &neighbour.ref_l1, vertical),
        mv_l0: across_array(&q.mv_l0, &neighbour.mv_l0, vertical),
        mv_l1: across_array(&q.mv_l1, &neighbour.mv_l1, vertical),
    }
}

/// bS of the 16 edge segments between block `i` of `p` and block `i` of
/// `q`.
pub fn segment_strengths(p: &BlockInfo, q: &BlockInfo, p_rules: bool) -> (r: [u8; 16])
    ensures
        forall|i: int| 0 <= i < 16 ==> #[trigger] r@[i] == spec_segment_bs(*p, i, *q, i, p_rules),
{
    let mut r = [0u8; 16];
    let mut i: usize = 0;
    while i < 16
        invariant
            i <= 16,
            r@.len() == 16,
            forall|j: int| 0 <= j < i ==> #[trigger] r@[j] == spec_segment_bs(*p, j, *q, j, p_rules),
        decreases 16 - i,
    {
        r[i] = segment_bs(p, i, q, i, p_rules);
        i = i + 1;
    }
    r
}

/// Raster index of the block on the p side (left of or above) of segment
/// `b` of edge `e` of a macroblock; for edge 0 a block of the neighbouring
/// macroblock's last column or row.
pub open spec fn p_blk_of(vertical: bool, e: int, b: int) -> int {
    let pe = if e == 0 {
        3
    } else {
        e - 1
    };
    if vertical {
        4 * b + pe
    } else {
        4 * pe + b
    }
}

/// Raster index of the block on the q side of segment `b` of edge `e`.
pub open spec fn q_blk_of(vertical: bool, e: int, b: int) -> int {
    if vertical {
        4 * b + e
    } else {
        4 * e + b
    }
}

/// Bit `e` of the mask of internal edges is set.
pub open spec fn internal_bit(internal: u8, e: int) -> bool {
    (internal >> (e as u8)) & 1u8 != 0
}

/// The neighbour behind an optional reference.
pub open spec fn deref_opt(o: Option<&MbDeblockInfo>) -> Option<MbDeblockInfo> {
    match o {
        Some(p) => Some(*p),
        None => None,
    }
}

/// Section 8.7.2.1: bS of segment `b` of the vertical (`vertical`) or
/// horizontal edge `e` of inter macroblock `q`. `nb` is the macroblock
/// across edge 0, `None` when that edge is not filtered; bit `e` of
/// `internal` selects internal edge `e` (1..=3). Edges left out have bS 0.
pub open spec fn inter_bs(
    q: MbDeblockInfo,
    nb: Option<MbDeblockInfo>,
    internal: u8,
    vertical: bool,
    e: int,
    b: int,
) -> u8 {
    let rules = has_flag(q.flags, L1_EMPTY);
    if e == 0 {
        match nb {
            None => BS_NONE,
            Some(p) => if has_flag(p.flags, INTRA) {
                BS_STRONG
            } else {
                spec_segment_bs(p.blocks, p_blk_of(vertical, 0, b), q.blocks, q_blk_of(vertical, 0, b), rules)
            },
        }
    } else if internal_bit(internal, e) {
        spec_segment_bs(q.blocks, p_blk_of(vertical, e, b), q.blocks, q_blk_of(vertical, e, b), rules)
    } else {
        BS_NONE
    }
}

/// Across segment `b` of edge `e`, the blocks across the edges of `q` (see
/// `blocks_across`) hold the block on the p side of the segment.
proof fn lemma_across_segment(
    a: BlockInfo,
    q: BlockInfo,
    n: BlockInfo,
    qq: BlockInfo,
    vertical: bool,
    e: int,
    b: int,
    rules: bool,
)
    requires
        0 <= e < 4,
        0 <= b < 4,
        a.nz == across_nz(q.nz, n.nz, vertical),
        a.ref_l0@ == across_arr(q.ref_l0@, n.ref_l0@, vertical),
        a.ref_l1@ == across_arr(q.ref_l1@, n.ref_l1@, vertical),
        a.mv_l0@ == across_arr(q.mv_l0@, n.mv_l0@, vertical),
        a.mv_l1@ == across_arr(q.mv_l1@, n.mv_l1@, vertical),
    ensures
        spec_segment_bs(a, q_blk_of(vertical, e, b), qq, q_blk_of(vertical, e, b), rules)
            == spec_segment_bs(
            if e == 0 {
                n
            } else {
                q
            },
            p_blk_of(vertical, e, b),
            qq,
            q_blk_of(vertical, e, b),
            rules,
        ),
{
    let i = q_blk_of(vertical, e, b);
    lemma_across_nz(q.nz, n.nz, i as u16);
    let src = if e == 0 {
        n
    } else {
        q
    };
    let j = p_blk_of(vertical, e, b);
    assert(a.ref_l0@[i] == src.ref_l0@[j]);
    assert(a.ref_l1@[i] == src.ref_l1@[j]);
    assert(a.mv_l0@[i] == src.mv_l0@[j]);
    assert(a.mv_l1@[i] == src.mv_l1@[j]);
    assert(nz_bit(a.nz, i) == nz_bit(src.nz, j));
}

/// The bS of the four segments of edge `e` from the bS of the 16 segments
/// between a block and the block across from it.
fn edge_row(segments: &[u8; 16], vertical: bool, e: usize) -> (r: [u8; 4])
    requires
        e < 4,
    ensures
        forall|b: int| 0 <= b < 4 ==> #[trigger] r@[b] == segments@[q_blk_of(vertical, e as int, b)],
{
    if vertical {
        [segments[e], segments[4 + e], segments[8 + e], segments[12 + e]]
    } else {
        [segments[4 * e], segments[4 * e + 1], segments[4 * e + 2], segments[4 * e + 3]]
    }
}

/// Section 8.7.2.1: the boundary strengths of the vertical (`vertical`) or
/// horizontal edges of inter macroblock `q`, indexed by `[edge][segment]`
/// (see `inter_bs`).
pub fn inter_edge_strengths(
    q: &MbDeblockInfo,
    neighbour: Option<&MbDeblockInfo>,
    internal_edges: u8,
    vertical: bool,
) -> (r: [[u8; 4]; 4])
    ensures
        forall|e: int, b: int|
            0 <= e < 4 && 0 <= b < 4 ==> #[trigger] r@[e]@[b] == inter_bs(
                *q,
                deref_opt(neighbour),
                internal_edges,
                vertical,
                e,
                b,
            ),
{
    let mut bs = [[BS_NONE; 4]; 4];
    let rules = q.is(L1_EMPTY);
    let mut edge0 = false;
    let mut p_side: &MbDeblockInfo = q;
    match neighbour {
        Some(p) => {
            if p.is(INTRA) {
                bs[0] = [BS_STRONG; 4];
            } else {
                edge0 = true;
                p_side = p;
            }
        },
        None => {},
    }
    let e1 = (internal_edges >> 1u8) & 1u8 != 0;
    let e2 = (internal_edges >> 2u8) & 1u8 != 0;
    let e3 = (internal_edges >> 3u8) & 1u8 != 0;
    assert(e1 == internal_bit(internal_edges, 1) && e2 == internal_bit(internal_edges, 2) && e3
        == internal_bit(internal_edges, 3));
    if !(e1 || e2 || e3) {
        // At most the macroblock edge: its four segments on their own.
        if edge0 {
            let pb = &p_side.blocks;
            let qb = &q.blocks;
            bs[0] = if vertical {
                [
                    segment_bs(pb, 3, qb, 0, rules),
                    segment_bs(pb, 7, qb, 4, rules),
                    segment_bs(pb, 11, qb, 8, rules),
                    segment_bs(pb, 15, qb, 12, rules),
                ]
            } else {
                [
                    segment_bs(pb, 12, qb, 0, rules),
                    segment_bs(pb, 13, qb, 1, rules),
                    segment_bs(pb, 14, qb, 2, rules),
                    segment_bs(pb, 15, qb, 3, rules),
                ]
            };
        }
        assert forall|e: int, b: int| 0 <= e < 4 && 0 <= b < 4 implies #[trigger] bs@[e]@[b]
            == inter_bs(*q, deref_opt(neighbour), internal_edges, vertical, e, b) by {
            assert(e == 0 || e == 1 || e == 2 || e == 3);
        }
        return bs;
    }
    let p_blocks = blocks_across(&q.blocks, &p_side.blocks, vertical);
    let segments = segment_strengths(&p_blocks, &q.blocks, rules);
    if edge0 {
        bs[0] = edge_row(&segments, vertical, 0);
    }
    if e1 {
        bs[1] = edge_row(&segments, vertical, 1);
    }
    if e2 {
        bs[2] = edge_row(&segments, vertical, 2);
    }
    if e3 {
        bs[3] = edge_row(&segments, vertical, 3);
    }
    assert forall|e: int, b: int| 0 <= e < 4 && 0 <= b < 4 implies #[trigger] bs@[e]@[b]
        == inter_bs(*q, deref_opt(neighbour), internal_edges, vertical, e, b) by {
        assert(e == 0 || e == 1 || e == 2 || e == 3);
        lemma_across_segment(
            p_blocks,
            q.blocks,
            p_side.blocks,
            q.blocks,
            vertical,
            e,
            b,
            rules,
        );
        assert(segments@[q_blk_of(vertical, e, b)] == spec_segment_bs(
            p_blocks,
            q_blk_of(vertical, e, b),
            q.blocks,
            q_blk_of(vertical, e, b),
            rules,
        ));
    }
    bs
}

/// The internal edges of inter macroblock `q` to derive, as a mask of edge
/// indices: with the 8x8 transform only edge 2, and none when they all have
/// bS 0.
pub open spec fn internal_edge_mask(q: MbDeblockInfo) -> u8 {
    if has_flag(q.flags, NO_INTERNAL_EDGES) {
        0
    } else if has_flag(q.flags, TRANSFORM_8X8) {
        4
    } else {
        14
    }
}

/// Section 8.7.2.1 for intra macroblock `q`: bS 4 on the macroblock edge
/// where it is filtered (`present`), bS 3 on the internal edges that its
/// transform has (only edge 2 with the 8x8 transform).
pub open spec fn intra_bs(q: MbDeblockInfo, present: bool, e: int) -> u8 {
    if e == 0 {
        if present {
            BS_STRONG
        } else {
            BS_NONE
        }
    } else if has_flag(q.flags, TRANSFORM_8X8) {
        if e == 2 {
            BS_INTRA
        } else {
            BS_NONE
        }
    } else {
        BS_INTRA
    }
}

/// Section 8.7.2.1: bS of segment `b` of the vertical (`vertical`) or
/// horizontal edge `e` of macroblock `q`, with `nb` across edge 0 (`None`
/// when that edge is not filtered).
pub open spec fn mb_bs(q: MbDeblockInfo, nb: Option<MbDeblockInfo>, vertical: bool, e: int, b: int) -> u8 {
    if has_flag(q.flags, INTRA) {
        intra_bs(q, nb is Some, e)
    } else {
        inter_bs(q, nb, internal_edge_mask(q), vertical, e, b)
    }
}

/// Section 8.7.2.1: the boundary strengths of all edges of macroblock `q`,
/// `(vertical, horizontal)`, each indexed by `[edge][segment]`; edge 0 is
/// shared with `left` / `top`, which is `None` when that edge isn't
/// filtered.
pub fn compute_bs_arrays(
    q: &MbDeblockInfo,
    left: Option<&MbDeblockInfo>,
    top: Option<&MbDeblockInfo>,
) -> (r: ([[u8; 4]; 4], [[u8; 4]; 4]))
    ensures
        forall|e: int, b: int|
            0 <= e < 4 && 0 <= b < 4 ==> #[trigger] r.0@[e]@[b] == mb_bs(*q, deref_opt(left), true, e, b),
        forall|e: int, b: int|
            0 <= e < 4 && 0 <= b < 4 ==> #[trigger] r.1@[e]@[b] == mb_bs(*q, deref_opt(top), false, e, b),
{
    if q.is(INTRA) {
        let mut bs_vert = [[BS_NONE; 4]; 4];
        let mut bs_horz = [[BS_NONE; 4]; 4];
        if left.is_some() {
            bs_vert[0] = [BS_STRONG; 4];
        }
        if top.is_some() {
            bs_horz[0] = [BS_STRONG; 4];
        }
        if q.is(TRANSFORM_8X8) {
            bs_vert[2] = [BS_INTRA; 4];
            bs_horz[2] = [BS_INTRA; 4];
        } else {
            bs_vert[1] = [BS_INTRA; 4];
            bs_horz[1] = [BS_INTRA; 4];
            bs_vert[2] = [BS_INTRA; 4];
            bs_horz[2] = [BS_INTRA; 4];
            bs_vert[3] = [BS_INTRA; 4];
            bs_horz[3] = [BS_INTRA; 4];
        }
        assert forall|e: int, b: int| 0 <= e < 4 && 0 <= b < 4 implies #[trigger] bs_vert@[e]@[b]
            == mb_bs(*q, deref_opt(left), true, e, b) && bs_horz@[e]@[b] == mb_bs(
            *q,
            deref_opt(top),
            false,
            e,
            b,
        ) by {
            assert(e == 0 || e == 1 || e == 2 || e == 3);
        }
        return (bs_vert, bs_horz);
    }
    let internal_edges = if q.is(NO_INTERNAL_EDGES) {
        0
    } else if q.is(TRANSFORM_8X8) {
        4
    } else {
        14
    };
    (
        inter_edge_strengths(q, left, internal_edges, true),
        inter_edge_strengths(q, top, internal_edges, false),
    )
}

/// No POC occurs twice in `s`.
pub open spec fn distinct_pocs(s: Seq<i32>) -> bool {
    forall|i: int, j: int| 0 <= i < s.len() && 0 <= j < s.len() && i != j ==> s[i] != s[j]
}

/// The picture id of index `i` of the distinct POCs: `i + 1`, capped at
/// 255.
pub open spec fn id_at(i: int) -> u8 {
    if i + 1 <= 255 {
        (i + 1) as u8
    } else {
        255u8
    }
}

/// The POCs after looking up the id of `poc`, and that id: its position
/// among the distinct POCs seen so far, which gain it at their end if it is
/// new.
pub open spec fn poc_id(pocs: Seq<i32>, poc: i32) -> (Seq<i32>, u8) {
    if pocs.contains(poc) {
        (pocs, id_at(choose|i: int| 0 <= i < pocs.len() && pocs[i] == poc))
    } else {
        (pocs.push(poc), id_at(pocs.len() as int))
    }
}

/// Section 8.7.2.1 compares the reference pictures two blocks use, and the
/// blocks may belong to slices with different reference picture lists. This
/// numbers the distinct POCs of all lists of the picture from 1, so that the
/// comparison is a byte compare; 0 stands for "no picture".
pub struct RefPictureIds {
    pocs: Vec<i32>,
}

impl View for RefPictureIds {
    type V = Seq<i32>;

    closed spec fn view(&self) -> Seq<i32> {
        self.pocs@
    }
}

impl Default for RefPictureIds {
    fn default() -> (r: Self)
        ensures
            r@ == Seq::<i32>::empty(),
    {
        RefPictureIds { pocs: Vec::new() }
    }
}

impl RefPictureIds {
    /// The id of `poc` (see `poc_id`).
    pub fn id_of(&mut self, poc: i32) -> (id: u8)
        requires
            distinct_pocs(old(self)@),
        ensures
            (final(self)@, id) == poc_id(old(self)@, poc),
            distinct_pocs(final(self)@),
    {
        let n = self.pocs.len();
        let mut i: usize = 0;
        while i < n
            invariant
                i <= n,
                n == self.pocs@.len(),
                self.pocs@ == old(self)@,
                distinct_pocs(self.pocs@),
                forall|j: int| 0 <= j < i ==> self.pocs@[j] != poc,
            decreases n - i,
        {
            if self.pocs[i] == poc {
                let ghost pocs = self.pocs@;
                assert(pocs.contains(poc));
                let ghost c = choose|k: int| 0 <= k < pocs.len() && pocs[k] == poc;
                assert(c == i as int);
                return if i < 255 {
                    (i + 1) as u8
                } else {
                    255
                };
            }
            i = i + 1;
        }
        assert(!self.pocs@.contains(poc));
        self.pocs.push(poc);
        if n < 255 {
            (n + 1) as u8
        } else {
            255
        }
    }

    /// Forgets every POC.
    pub fn clear(&mut self)
        ensures
            final(self)@ == Seq::<i32>::empty(),
    {
        self.pocs.clear();
    }
}

/// The POCs after looking up the ids of the POCs of `list` in order, and
/// those ids.
pub open spec fn assign_ids(pocs: Seq<i32>, list: Seq<i32>) -> (Seq<i32>, Seq<u8>)
    decreases list.len(),
{
    if list.len() == 0 {
        (pocs, Seq::empty())
    } else {
        let (p1, ids) = assign_ids(pocs, list.drop_last());
        let (p2, id) = poc_id(p1, list.last());
        (p2, ids.push(id))
    }
}

proof fn lemma_poc_id_distinct(pocs: Seq<i32>, poc: i32)
    requires
        distinct_pocs(pocs),
    ensures
        distinct_pocs(poc_id(pocs, poc).0),
{
}

proof fn lemma_assign_ids(pocs: Seq<i32>, list: Seq<i32>)
    requires
        distinct_pocs(pocs),
    ensures
        distinct_pocs(assign_ids(pocs, list).0),
        assign_ids(pocs, list).1.len() == list.len(),
    decreases list.len(),
{
    if list.len() > 0 {
        lemma_assign_ids(pocs, list.drop_last());
        let (p1, ids) = assign_ids(pocs, list.drop_last());
        lemma_poc_id_distinct(p1, list.last());
    }
}

/// A table of 256 picture ids indexed by reference index: `ids` in front,
/// 0 after them.
pub open spec fn id_table(ids: Seq<u8>) -> Seq<u8> {
    Seq::new(
        256,
        |k: int|
            if k < ids.len() {
                ids[k]
            } else {
                0u8
            },
    )
}

/// One slice's picture ids, indexed by reference index. Every `u8` index is
/// in range: entries past the end of a list are 0, which also covers
/// `u8::MAX`, the marker of an unused list.
pub struct SliceRefIds {
    pub slice_id: u16,
    pub l0: [u8; 256],
    pub l1: [u8; 256],
    /// Entries of `l0` / `l1` that may be non-zero.
    pub l0_len: usize,
    pub l1_len: usize,
    /// The slice's list 1 is empty.
    pub l1_empty: bool,
}

impl Default for SliceRefIds {
    fn default() -> (r: Self)
        ensures
            r.wf(),
            r.slice_id == 0,
            r.l0_len == 0,
            r.l1_len == 0,
            r.l1_empty,
    {
        let r = SliceRefIds { slice_id: 0, l0: [0; 256], l1: [0; 256], l0_len: 0, l1_len: 0, l1_empty: true };
        assert(r.l0@ =~= id_table(Seq::empty()));
        assert(r.l1@ =~= id_table(Seq::empty()));
        r
    }
}

/// Zeroes the first `len` entries of `table` and fills it with the ids of
/// the first 256 POCs of `pocs`; returns how many it filled.
fn fill_ids(table: &mut [u8; 256], len: usize, ref_ids: &mut RefPictureIds, pocs: &[i32]) -> (n: usize)
    requires
        len <= 256,
        forall|k: int| len <= k < 256 ==> #[trigger] old(table)@[k] == 0,
        distinct_pocs(old(ref_ids)@),
    ensures
        n == (if pocs@.len() < 256 {
            pocs@.len() as int
        } else {
            256
        }),
        (final(ref_ids)@, final(table)@) == (
            assign_ids(old(ref_ids)@, pocs@.take(n as int)).0,
            id_table(assign_ids(old(ref_ids)@, pocs@.take(n as int)).1),
        ),
        distinct_pocs(final(ref_ids)@),
{
    let mut k: usize = 0;
    while k < len
        invariant
            k <= len <= 256,
            table@.len() == 256,
            forall|j: int| 0 <= j < k ==> #[trigger] table@[j] == 0,
            forall|j: int| len <= j < 256 ==> #[trigger] table@[j] == 0,
        decreases len - k,
    {
        table[k] = 0;
        k = k + 1;
    }
    let n = if pocs.len() < 256 {
        pocs.len()
    } else {
        256
    };
    let ghost ids0 = ref_ids@;
    let mut i: usize = 0;
    while i < n
        invariant
            i <= n <= 256,
            n <= pocs@.len(),
            table@.len() == 256,
            distinct_pocs(ids0),
            (ref_ids@, table@) == (
                assign_ids(ids0, pocs@.take(i as int)).0,
                id_table(assign_ids(ids0, pocs@.take(i as int)).1),
            ),
            distinct_pocs(ref_ids@),
        decreases n - i,
    {
        proof {
            lemma_assign_ids(ids0, pocs@.take(i as int));
            assert(pocs@.take(i + 1).drop_last() =~= pocs@.take(i as int));
        }
        let id = ref_ids.id_of(pocs[i]);
        table[i] = id;
        i = i + 1;
        assert(table@ =~= id_table(assign_ids(ids0, pocs@.take(i as int)).1));
    }
    n
}

impl SliceRefIds {
    /// Entries past the end of each list are 0.
    pub open spec fn wf(&self) -> bool {
        &&& self.l0_len <= 256
        &&& self.l1_len <= 256
        &&& forall|k: int| self.l0_len <= k < 256 ==> #[trigger] self.l0@[k] == 0
        &&& forall|k: int| self.l1_len <= k < 256 ==> #[trigger] self.l1@[k] == 0
    }

    /// Switches the tables to slice `slice_id`, whose lists hold the
    /// pictures with POCs `l0_pocs` and `l1_pocs`: entry `i` of each list is
    /// the id of its `i`-th POC (the first 256 of them), looked up list 0
    /// first, and 0 past the list's end.
    pub fn load(&mut self, ref_ids: &mut RefPictureIds, slice_id: u16, l0_pocs: &[i32], l1_pocs: &[i32])
        requires
            old(self).wf(),
            distinct_pocs(old(ref_ids)@),
        ensures
            final(self).wf(),
            distinct_pocs(final(ref_ids)@),
            final(self).slice_id == slice_id,
            final(self).l0_len == (if l0_pocs@.len() < 256 {
                l0_pocs@.len() as int
            } else {
                256
            }),
            final(self).l1_len == (if l1_pocs@.len() < 256 {
                l1_pocs@.len() as int
            } else {
                256
            }),
            final(self).l1_empty == (l1_pocs@.len() == 0),
            ({
                let (p1, ids0) = assign_ids(old(ref_ids)@, l0_pocs@.take(final(self).l0_len as int));
                let (p2, ids1) = assign_ids(p1, l1_pocs@.take(final(self).l1_len as int));
                &&& final(self).l0@ == id_table(ids0)
                &&& final(self).l1@ == id_table(ids1)
                &&& final(ref_ids)@ == p2
            }),
    {
        let ghost r0 = ref_ids@;
        let n0 = fill_ids(&mut self.l0, self.l0_len, ref_ids, l0_pocs);
        self.l0_len = n0;
        let ghost r1 = ref_ids@;
        let n1 = fill_ids(&mut self.l1, self.l1_len, ref_ids, l1_pocs);
        self.l1_len = n1;
        self.l1_empty = l1_pocs.len() == 0;
        self.slice_id = slice_id;
        proof {
            lemma_assign_ids(r0, l0_pocs@.take(n0 as int));
            lemma_assign_ids(r1, l1_pocs@.take(n1 as int));
        }
    }
}

/// `QP_Y` of a macroblock.
pub open spec fn spec_get_qp(mb: Macroblock) -> u8 {
    match mb {
        Macroblock::I(m) => m.qp,
        Macroblock::P(m) => m.qp,
        Macroblock::B(m) => m.qp,
        Macroblock::PCM(m) => m.qp,
    }
}

/// `QP_Y` of a macroblock.
pub fn get_qp(mb: &Macroblock) -> (qp: u8)
    ensures
        qp == spec_get_qp(*mb),
{
    match mb {
        Macroblock::I(m) => m.qp,
        Macroblock::P(m) => m.qp,
        Macroblock::B(m) => m.qp,
        Macroblock::PCM(m) => m.qp,
    }
}

/// Section 8.7.2.1: the luma transform block holding 4x4 block `blk`
/// (Z-scan order) has non-zero coefficients in residual `res`. With the
/// 8x8 transform the four 4x4 blocks of an 8x8 block share its coded bit.
pub open spec fn block_coded(res: Option<Residual>, blk: int) -> bool {
    match res {
        None => false,
        Some(r) => match r.luma {
            LumaResidual::Intra16x16 { dc, ac_nc, .. } => ac_nc@[blk] != 0 || dc@[blk] != 0,
            LumaResidual::Block8x8 { .. } => ((r.coded_block_pattern.0 % 16) >> ((blk / 4) as u8))
                & 1u8 != 0,
            LumaResidual::Block4x4 { nc, .. } => nc@[blk] != 0,
            LumaResidual::Empty => false,
        },
    }
}

fn block_coded_exec(res: &Residual, blk: usize) -> (b: bool)
    requires
        blk < 16,
    ensures
        b == block_coded(Some(*res), blk as int),
{
    match &res.luma {
        LumaResidual::Intra16x16 { dc, ac_nc, .. } => ac_nc[blk] != 0 || dc[blk] != 0,
        LumaResidual::Block8x8 { .. } => {
            let cbp_luma = res.coded_block_pattern.luma();
            (cbp_luma >> ((blk / 4) as u8)) & 1 != 0
        },
        LumaResidual::Block4x4 { nc, .. } => nc[blk] != 0,
        LumaResidual::Empty => false,
    }
}

proof fn lemma_set_bit(m: u16, k: u16, c: u16, j: u16)
    requires
        k < 16,
        j < 16,
        c <= 1,
        m >> k == 0,
    ensures
        ((m | (c << k)) >> j) & 1u16 != 0 == (if j == k {
            c == 1
        } else {
            (m >> j) & 1u16 != 0
        }),
        k + 1 < 16 ==> (m | (c << k)) >> ((k + 1) as u16) == 0,
{
    assert(((m | (c << k)) >> j) & 1u16 != 0 == (if j == k {
        c == 1
    } else {
        (m >> j) & 1u16 != 0
    })) by (bit_vector)
        requires
            k < 16,
            j < 16,
            c <= 1,
            m >> k == 0,
    ;
    assert(k + 1 < 16 ==> (m | (c << k)) >> ((k + 1) as u16) == 0) by (bit_vector)
        requires
            k < 16,
            c <= 1,
            m >> k == 0,
    ;
}

/// The raster mask (bit `4 * row + col`) of the 4x4 blocks of `mb` whose
/// luma transform block has non-zero coefficients.
pub fn nonzero_blocks(mb: &Macroblock) -> (nz: u16)
    ensures
        forall|i: int|
            0 <= i < 16 ==> #[trigger] nz_bit(nz, i) == block_coded(
                spec_residual(*mb),
                spec_scan_4x4(i / 4, i % 4),
            ),
{
    let res = match mb.get_residual() {
        Some(r) => r,
        None => {
            assert forall|i: int| 0 <= i < 16 implies #[trigger] nz_bit(0u16, i) == false by {
                let j = i as u16;
                assert((0u16 >> j) & 1u16 == 0) by (bit_vector);
            }
            return 0;
        },
    };
    let mut mask: u16 = 0;
    let mut k: usize = 0;
    assert(0u16 >> 0u16 == 0) by (bit_vector);
    while k < 16
        invariant
            k <= 16,
            spec_residual(*mb) == Some(*res),
            k < 16 ==> mask >> (k as u16) == 0,
            forall|j: int|
                0 <= j < k ==> #[trigger] nz_bit(mask, j) == block_coded(
                    Some(*res),
                    spec_scan_4x4(j / 4, j % 4),
                ),
        decreases 16 - k,
    {
        let coded = block_coded_exec(res, scan_4x4(k / 4, k % 4));
        let c: u16 = if coded {
            1
        } else {
            0
        };
        let ghost old_mask = mask;
        mask = mask | (c << (k as u16));
        proof {
            assert forall|j: int| 0 <= j < k + 1 implies #[trigger] nz_bit(mask, j) == block_coded(
                Some(*res),
                spec_scan_4x4(j / 4, j % 4),
            ) by {
                lemma_set_bit(old_mask, k as u16, c, j as u16);
                if j < k {
                    assert(nz_bit(old_mask, j) == block_coded(Some(*res), spec_scan_4x4(j / 4, j % 4)));
                } else {
                    assert(j == k);
                    assert(nz_bit(mask, j) == (c == 1));
                }
            }
            lemma_set_bit(old_mask, k as u16, c, 0);
        }
        k = k + 1;
    }
    mask
}

/// Every internal edge of `mb` has bS 0: an inter macroblock with a single
/// 16x16 partition and no coded luma coefficients.
pub open spec fn spec_no_internal_edges(mb: Macroblock) -> bool {
    spec_cbp(mb).0 % 16 == 0 && match mb {
        Macroblock::P(m) => spec_num_mb_part_p(m.mb_type) == 1,
        Macroblock::B(m) => spec_num_mb_part_b(m.mb_type) == 1,
        _ => false,
    }
}

/// Every internal edge of `mb` has bS 0 (see `spec_no_internal_edges`).
pub fn has_no_internal_edges(mb: &Macroblock) -> (b: bool)
    ensures
        b == spec_no_internal_edges(*mb),
{
    if mb.get_coded_block_pattern().luma() != 0 {
        return false;
    }
    match mb {
        Macroblock::P(m) => m.mb_type.num_mb_part() == 1,
        Macroblock::B(m) => m.mb_type.num_mb_part() == 1,
        _ => false,
    }
}

/// The flags of the record of `mb`, a macroblock of a slice whose list 1 is
/// empty when `l1_empty`.
pub open spec fn record_flags(mb: Macroblock, l1_empty: bool) -> u8 {
    let base = if l1_empty {
        L1_EMPTY
    } else {
        0u8
    };
    match mb {
        Macroblock::I(m) => if m.transform_size_8x8_flag {
            (base | INTRA) | TRANSFORM_8X8
        } else {
            base | INTRA
        },
        Macroblock::PCM(_) => base | INTRA,
        Macroblock::P(m) => {
            let f = if m.transform_size_8x8_flag {
                base | TRANSFORM_8X8
            } else {
                base
            };
            if spec_no_internal_edges(mb) {
                f | NO_INTERNAL_EDGES
            } else {
                f
            }
        },
        Macroblock::B(m) => {
            let f = if m.transform_size_8x8_flag {
                base | TRANSFORM_8X8
            } else {
                base
            };
            if spec_no_internal_edges(mb) {
                f | NO_INTERNAL_EDGES
            } else {
                f
            }
        },
    }
}

/// All the block inputs are zero.
pub open spec fn blocks_zero(b: BlockInfo) -> bool {
    &&& b.nz == 0
    &&& forall|i: int|
        0 <= i < 16 ==> #[trigger] b.ref_l0@[i] == 0 && b.ref_l1@[i] == 0 && b.mv_l0@[i]@[0] == 0
            && b.mv_l0@[i]@[1] == 0 && b.mv_l1@[i]@[0] == 0 && b.mv_l1@[i]@[1] == 0
}

/// The block inputs of an inter macroblock with motion `m` and coded
/// blocks from `res`, its reference indices resolved through `ids`.
pub open spec fn blocks_of(b: BlockInfo, m: MbMotion, res: Option<Residual>, ids: SliceRefIds) -> bool {
    forall|i: int|
        0 <= i < 16 ==> {
            let part = #[trigger] m.partitions@[i / 4]@[i % 4];
            &&& nz_bit(b.nz, i) == block_coded(res, spec_scan_4x4(i / 4, i % 4))
            &&& b.ref_l0@[i] == ids.l0@[part.ref_idx_l0 as int]
            &&& b.ref_l1@[i] == ids.l1@[part.ref_idx_l1 as int]
            &&& b.mv_l0@[i]@[0] == part.mv_l0.x && b.mv_l0@[i]@[1] == part.mv_l0.y
            &&& b.mv_l1@[i]@[0] == part.mv_l1.x && b.mv_l1@[i]@[1] == part.mv_l1.y
        }
}

/// `info` is the record of decoded macroblock `mb` of slice `slice_id`,
/// whose reference picture lists resolve through `ids`; `offsets` are the
/// chroma QP index offsets of Cb and Cr.
pub open spec fn record_of(
    info: MbDeblockInfo,
    mb: Macroblock,
    slice_id: u16,
    ids: SliceRefIds,
    offsets: [i32; 2],
) -> bool {
    &&& info.qp == spec_get_qp(mb)
    &&& info.qp_c@[0] as int == spec_chroma_qp(info.qp as int, offsets@[0] as int, 0)
    &&& info.qp_c@[1] as int == spec_chroma_qp(info.qp as int, offsets@[1] as int, 0)
    &&& info.slice_id == slice_id
    &&& info.flags == record_flags(mb, ids.l1_empty)
    &&& match mb {
        Macroblock::P(m) => blocks_of(info.blocks, m.motion, spec_residual(mb), ids),
        Macroblock::B(m) => blocks_of(info.blocks, m.motion, spec_residual(mb), ids),
        _ => blocks_zero(info.blocks),
    }
}

/// Zero block inputs.
fn zero_blocks() -> (b: BlockInfo)
    ensures
        blocks_zero(b),
{
    BlockInfo { nz: 0, ref_l0: [0; 16], ref_l1: [0; 16], mv_l0: [[0; 2]; 16], mv_l1: [[0; 2]; 16] }
}

/// The block inputs of inter macroblock `mb` with motion `motion`.
fn inter_blocks(mb: &Macroblock, motion: &MbMotion, ids: &SliceRefIds) -> (b: BlockInfo)
    ensures
        blocks_of(b, *motion, spec_residual(*mb), *ids),
{
    let mut b = zero_blocks();
    b.nz = nonzero_blocks(mb);
    let mut blk: usize = 0;
    while blk < 16
        invariant
            blk <= 16,
            forall|i: int|
                0 <= i < 16 ==> #[trigger] nz_bit(b.nz, i) == block_coded(
                    spec_residual(*mb),
                    spec_scan_4x4(i / 4, i % 4),
                ),
            forall|i: int|
                0 <= i < blk ==> {
                    let part = #[trigger] motion.partitions@[i / 4]@[i % 4];
                    &&& b.ref_l0@[i] == ids.l0@[part.ref_idx_l0 as int]
                    &&& b.ref_l1@[i] == ids.l1@[part.ref_idx_l1 as int]
                    &&& b.mv_l0@[i]@[0] == part.mv_l0.x && b.mv_l0@[i]@[1] == part.mv_l0.y
                    &&& b.mv_l1@[i]@[0] == part.mv_l1.x && b.mv_l1@[i]@[1] == part.mv_l1.y
                },
        decreases 16 - blk,
    {
        let part = motion.partitions[blk / 4][blk % 4];
        b.ref_l0[blk] = ids.l0[part.ref_idx_l0 as usize];
        b.ref_l1[blk] = ids.l1[part.ref_idx_l1 as usize];
        b.mv_l0[blk] = [part.mv_l0.x, part.mv_l0.y];
        b.mv_l1[blk] = [part.mv_l1.x, part.mv_l1.y];
        blk = blk + 1;
    }
    b
}

impl MbDeblockInfo {
    /// Makes this the record of decoded macroblock `mb` of slice
    /// `slice_id`, whose reference picture lists resolve through `ref_ids`;
    /// `chroma_qp_offsets` are the chroma QP index offsets of Cb and Cr.
    pub fn fill(&mut self, mb: &Macroblock, slice_id: u16, ref_ids: &SliceRefIds, chroma_qp_offsets: [i32; 2])
        requires
            chroma_qp_offsets@[0] <= i32::MAX - 255,
            chroma_qp_offsets@[1] <= i32::MAX - 255,
        ensures
            record_of(*final(self), *mb, slice_id, *ref_ids, chroma_qp_offsets),
    {
        let qp = get_qp(mb);
        self.qp = qp;
        // Section 8.7.2.2: for chroma edges qPp / qPq are the QP_C values of
        // the luma QPs, from Table 8-15.
        self.qp_c = [
            get_chroma_qp(qp as i32, chroma_qp_offsets[0], 0),
            get_chroma_qp(qp as i32, chroma_qp_offsets[1], 0),
        ];
        self.slice_id = slice_id;
        let base = if ref_ids.l1_empty {
            L1_EMPTY
        } else {
            0
        };
        match mb {
            Macroblock::I(m) => {
                self.flags = if m.transform_size_8x8_flag {
                    (base | INTRA) | TRANSFORM_8X8
                } else {
                    base | INTRA
                };
                self.blocks = zero_blocks();
            },
            Macroblock::PCM(_) => {
                self.flags = base | INTRA;
                self.blocks = zero_blocks();
            },
            Macroblock::P(m) => {
                let f = if m.transform_size_8x8_flag {
                    base | TRANSFORM_8X8
                } else {
                    base
                };
                self.flags = if has_no_internal_edges(mb) {
                    f | NO_INTERNAL_EDGES
                } else {
                    f
                };
                self.blocks = inter_blocks(mb, &m.motion, ref_ids);
            },
            Macroblock::B(m) => {
                let f = if m.transform_size_8x8_flag {
                    base | TRANSFORM_8X8
                } else {
                    base
                };
                self.flags = if has_no_internal_edges(mb) {
                    f | NO_INTERNAL_EDGES
                } else {
                    f
                };
                self.blocks = inter_blocks(mb, &m.motion, ref_ids);
            },
        }
    }
}

/// The record of a macroblock that no slice decoded.
pub open spec fn blank_record(info: MbDeblockInfo) -> bool {
    &&& info.qp == 0
    &&& info.qp_c@[0] == 0
    &&& info.qp_c@[1] == 0
    &&& info.flags == NOT_DECODED
    &&& info.slice_id == 0
    &&& blocks_zero(info.blocks)
}

/// The `MbDeblockInfo` of every macroblock of the picture being decoded, in
/// raster order, gathered as its slices are decoded; and the storage to
/// gather them, reused from one picture to the next.
pub struct DeblockRecords {
    records: Vec<MbDeblockInfo>,
    ref_ids: RefPictureIds,
    slice: SliceRefIds,
    chroma_qp_offsets: [i32; 2],
}

impl Default for DeblockRecords {
    fn default() -> (r: Self)
        ensures
            r.wf(),
            r.recs() == Seq::<MbDeblockInfo>::empty(),
            r.pocs() == Seq::<i32>::empty(),
            r.offsets()@ == seq![0i32, 0i32],
    {
        let r = DeblockRecords {
            records: Vec::new(),
            ref_ids: RefPictureIds::default(),
            slice: SliceRefIds::default(),
            chroma_qp_offsets: [0, 0],
        };
        assert(r.chroma_qp_offsets@ =~= seq![0i32, 0i32]);
        r
    }
}

impl DeblockRecords {
    /// The records, in raster order.
    pub closed spec fn recs(&self) -> Seq<MbDeblockInfo> {
        self.records@
    }

    /// The distinct POCs numbered so far in this picture.
    pub closed spec fn pocs(&self) -> Seq<i32> {
        self.ref_ids@
    }

    /// The picture ids of the slice last started.
    pub closed spec fn slice_ids(&self) -> SliceRefIds {
        self.slice
    }

    /// The chroma QP index offsets of Cb and Cr of the picture.
    pub closed spec fn offsets(&self) -> [i32; 2] {
        self.chroma_qp_offsets
    }

    /// The POCs are distinct, the slice's tables well formed, and the
    /// offsets leave room for any `QP_Y`.
    pub open spec fn wf(&self) -> bool {
        &&& distinct_pocs(self.pocs())
        &&& self.slice_ids().wf()
        &&& self.offsets()@[0] <= i32::MAX - 255
        &&& self.offsets()@[1] <= i32::MAX - 255
    }

    /// Starts the records of a picture of `pic_size_in_mbs` macroblocks
    /// whose picture parameter set is `pps`. Macroblocks count as not
    /// decoded until they are recorded.
    pub fn start_picture(&mut self, pic_size_in_mbs: usize, pps: &PicParameterSet)
        requires
            old(self).wf(),
            pps.chroma_qp_index_offset <= i32::MAX - 255,
            pps.second_chroma_qp_index_offset <= i32::MAX - 255,
        ensures
            final(self).wf(),
            picture_started(*final(self), pic_size_in_mbs as int, *pps),
            final(self).slice_ids() == old(self).slice_ids(),
    {
        self.records.clear();
        let blank = MbDeblockInfo {
            qp: 0,
            qp_c: [0, 0],
            flags: NOT_DECODED,
            slice_id: 0,
            blocks: zero_blocks(),
        };
        let mut i: usize = 0;
        while i < pic_size_in_mbs
            invariant
                i <= pic_size_in_mbs,
                self.records@.len() == i,
                self.slice == old(self).slice,
                blank_record(blank),
                forall|j: int| 0 <= j < i ==> #[trigger] blank_record(self.records@[j]),
            decreases pic_size_in_mbs - i,
        {
            self.records.push(blank);
            i = i + 1;
        }
        self.ref_ids.clear();
        self.chroma_qp_offsets = [
            pps.get_chroma_qp_index_offset(ColorPlane::Cb),
            pps.get_chroma_qp_index_offset(ColorPlane::Cr),
        ];
        assert(self.chroma_qp_offsets@ =~= seq![pps.chroma_qp_index_offset, pps.second_chroma_qp_index_offset]);
    }

    /// Starts slice `slice_id` of the picture, whose reference picture lists
    /// hold the pictures with POCs `l0_pocs` and `l1_pocs` (see
    /// `SliceRefIds::load`).
    pub fn start_slice(&mut self, slice_id: u16, l0_pocs: &[i32], l1_pocs: &[i32])
        requires
            old(self).wf(),
        ensures
            final(self).wf(),
            slice_started(*old(self), *final(self), slice_id, l0_pocs@, l1_pocs@),
    {
        self.slice.load(&mut self.ref_ids, slice_id, l0_pocs, l1_pocs);
    }

    /// Records decoded macroblock `mb` of the slice last started, whose
    /// address is `mb_addr`; an address past the picture is ignored.
    pub fn record(&mut self, mb_addr: usize, mb: &Macroblock)
        requires
            old(self).wf(),
        ensures
            final(self).wf(),
            final(self).pocs() == old(self).pocs(),
            final(self).slice_ids() == old(self).slice_ids(),
            final(self).offsets() == old(self).offsets(),
            final(self).recs().len() == old(self).recs().len(),
            forall|i: int|
                0 <= i < old(self).recs().len() && i != mb_addr ==> #[trigger] final(self).recs()[i]
                    == old(self).recs()[i],
            mb_addr < old(self).recs().len() ==> record_of(
                final(self).recs()[mb_addr as int],
                *mb,
                old(self).slice_ids().slice_id,
                old(self).slice_ids(),
                old(self).offsets(),
            ),
    {
        if mb_addr < self.records.len() {
            let mut rec = self.records[mb_addr];
            rec.fill(mb, self.slice.slice_id, &self.slice, self.chroma_qp_offsets);
            self.records.set(mb_addr, rec);
        }
    }

    /// The records, in raster order.
    pub fn records(&self) -> (r: &[MbDeblockInfo])
        ensures
            r@ == self.recs(),
    {
        self.records.as_slice()
    }

    /// The picture ids of the slice last started.
    pub fn slice_ref_ids(&self) -> (r: &SliceRefIds)
        ensures
            *r == self.slice_ids(),
    {
        &self.slice
    }
}

/// Section 8.7, steps 2.c and 2.d: the macroblock edge between `q` and its
/// left or top neighbour `p` is filtered (`filterLeftMbEdgeFlag` /
/// `filterTopMbEdgeFlag`), where `idc` is `disable_deblocking_filter_idc` of
/// q's slice.
pub open spec fn spec_should_filter_edge(idc: DeblockingFilterIdc, q: MbDeblockInfo, p: MbDeblockInfo) -> bool {
    !has_flag(p.flags, NOT_DECODED) && match idc {
        DeblockingFilterIdc::On => true,
        DeblockingFilterIdc::Off => false,
        DeblockingFilterIdc::OnExceptSliceBounds => p.slice_id == q.slice_id,
    }
}

/// Section 8.7, steps 2.c and 2.d (see `spec_should_filter_edge`).
pub fn should_filter_edge(idc: DeblockingFilterIdc, q: &MbDeblockInfo, p: &MbDeblockInfo) -> (b: bool)
    ensures
        b == spec_should_filter_edge(idc, *q, *p),
{
    if p.is(NOT_DECODED) {
        return false;
    }
    match idc {
        DeblockingFilterIdc::On => true,
        DeblockingFilterIdc::Off => false,
        DeblockingFilterIdc::OnExceptSliceBounds => p.slice_id == q.slice_id,
    }
}

/// The picture-wide inputs of the deblocking pass besides the records
/// gathered while its slices were decoded: the per-slice deblocking
/// parameters and the picture's size in macroblocks.
pub struct PictureDeblockInput<'a> {
    pub slice_deblock: &'a [SliceDeblockParams],
    pub pic_width_in_mbs: usize,
    pub pic_height_in_mbs: usize,
}

/// The record at `i`, if there is one.
pub open spec fn rec_at(records: Seq<MbDeblockInfo>, i: int) -> Option<MbDeblockInfo> {
    if 0 <= i < records.len() {
        Some(records[i])
    } else {
        None
    }
}

/// Section 6.4.9, with every macroblock of the picture available: the
/// records left of (A) and above (B) the macroblock at (`mb_x`, `mb_y`) of a
/// picture `width` macroblocks wide, or `None` on the picture boundary.
pub fn mb_neighbors(
    records: &[MbDeblockInfo],
    width: usize,
    mb_x: usize,
    mb_y: usize,
) -> (r: (Option<&MbDeblockInfo>, Option<&MbDeblockInfo>))
    requires
        mb_x < width,
        mb_y * width + mb_x <= usize::MAX,
    ensures
        deref_opt(r.0) == (if mb_x > 0 {
            rec_at(records@, mb_y * width + mb_x - 1)
        } else {
            None
        }),
        deref_opt(r.1) == (if mb_y > 0 {
            rec_at(records@, mb_y * width + mb_x - width)
        } else {
            None
        }),
{
    let mb_addr = mb_y * width + mb_x;
    let left = if mb_x > 0 && mb_addr - 1 < records.len() {
        Some(&records[mb_addr - 1])
    } else {
        None
    };
    let top = if mb_y > 0 {
        assert(mb_y * width >= width) by (nonlinear_arith)
            requires
                mb_y > 0,
        ;
        if mb_addr - width < records.len() {
            Some(&records[mb_addr - width])
        } else {
            None
        }
    } else {
        None
    };
    (left, top)
}

/// One edge to filter: vertical or not, its position (`x`, `y`), the
/// boundary strengths of its four segments and its thresholds.
pub type EdgeOp = (bool, int, int, Seq<u8>, FilterThresholds);

/// A plane buffer `d` after filtering the edges `ops` in order.
pub open spec fn apply_ops(d: Seq<u8>, luma: bool, origin: int, stride: int, ops: Seq<EdgeOp>) -> Seq<u8>
    decreases ops.len(),
{
    if ops.len() == 0 {
        d
    } else {
        let op = ops.last();
        filter_edge_spec(
            apply_ops(d, luma, origin, stride, ops.drop_last()),
            luma,
            op.0,
            origin,
            stride,
            op.1,
            op.2,
            op.3,
            op.4,
            4 * half_of(luma),
        )
    }
}

proof fn lemma_apply_push(d: Seq<u8>, luma: bool, origin: int, stride: int, ops: Seq<EdgeOp>, op: EdgeOp)
    ensures
        apply_ops(d, luma, origin, stride, ops.push(op)) == filter_edge_spec(
            apply_ops(d, luma, origin, stride, ops),
            luma,
            op.0,
            origin,
            stride,
            op.1,
            op.2,
            op.3,
            op.4,
            4 * half_of(luma),
        ),
{
    assert(ops.push(op).drop_last() =~= ops);
}

/// Some segment of an edge has a boundary strength above 0.
pub open spec fn bs_nonzero(r: Seq<u8>) -> bool {
    r[0] != 0 || r[1] != 0 || r[2] != 0 || r[3] != 0
}

/// `ops` with `op` at its end when `c` holds.
pub open spec fn push_if(ops: Seq<EdgeOp>, c: bool, op: EdgeOp) -> Seq<EdgeOp> {
    if c {
        ops.push(op)
    } else {
        ops
    }
}

/// The boundary strengths of the four segments of edge `e` (see `mb_bs`).
pub open spec fn bs_row(q: MbDeblockInfo, nb: Option<MbDeblockInfo>, vertical: bool, e: int) -> Seq<u8> {
    seq![mb_bs(q, nb, vertical, e, 0), mb_bs(q, nb, vertical, e, 1), mb_bs(q, nb, vertical, e, 2), mb_bs(q, nb, vertical, e, 3)]
}

/// `ops` followed by the luma edges of macroblock `q` at (`x`, `y`) in one
/// direction, left to right or top to bottom: its macroblock edge, with the
/// thresholds of the QPs of both sides, and its internal edges (only edge
/// 2 with the 8x8 transform), with q's QP on both sides; only those with a
/// segment of bS above 0. `nb` is the neighbour across the macroblock edge,
/// `None` when that edge is not filtered.
pub open spec fn luma_dir_ops(
    ops: Seq<EdgeOp>,
    vertical: bool,
    x: int,
    y: int,
    q: MbDeblockInfo,
    nb: Option<MbDeblockInfo>,
    ao: int,
    bo: int,
) -> Seq<EdgeOp> {
    let internal = th_spec(q.qp as int, q.qp as int, ao, bo);
    let t8 = has_flag(q.flags, TRANSFORM_8X8);
    let at = |e: int|
        if vertical {
            (x + 4 * e, y)
        } else {
            (x, y + 4 * e)
        };
    let s0 = match nb {
        Some(p) => push_if(
            ops,
            bs_nonzero(bs_row(q, nb, vertical, 0)),
            (vertical, x, y, bs_row(q, nb, vertical, 0), th_spec(p.qp as int, q.qp as int, ao, bo)),
        ),
        None => ops,
    };
    let s1 = push_if(
        s0,
        !t8 && bs_nonzero(bs_row(q, nb, vertical, 1)),
        (vertical, at(1).0, at(1).1, bs_row(q, nb, vertical, 1), internal),
    );
    let s2 = push_if(
        s1,
        bs_nonzero(bs_row(q, nb, vertical, 2)),
        (vertical, at(2).0, at(2).1, bs_row(q, nb, vertical, 2), internal),
    );
    push_if(
        s2,
        !t8 && bs_nonzero(bs_row(q, nb, vertical, 3)),
        (vertical, at(3).0, at(3).1, bs_row(q, nb, vertical, 3), internal),
    )
}

/// `ops` followed by the edges of chroma plane `i` (0 for Cb, 1 for Cr) of
/// macroblock `q` at (`x`, `y`) in one direction: its macroblock edge,
/// reusing the bS of luma edge 0, and its internal edge, reusing that of
/// luma edge 2; only those with a segment of bS above 0, with the
/// thresholds of the planes' QPs.
pub open spec fn chroma_dir_ops(
    ops: Seq<EdgeOp>,
    i: int,
    vertical: bool,
    x: int,
    y: int,
    q: MbDeblockInfo,
    nb: Option<MbDeblockInfo>,
    ao: int,
    bo: int,
) -> Seq<EdgeOp> {
    let qc = q.qp_c@[i] as int;
    let s0 = match nb {
        Some(p) => push_if(
            ops,
            bs_nonzero(bs_row(q, nb, vertical, 0)),
            (vertical, x, y, bs_row(q, nb, vertical, 0), th_spec(p.qp_c@[i] as int, qc, ao, bo)),
        ),
        None => ops,
    };
    push_if(
        s0,
        bs_nonzero(bs_row(q, nb, vertical, 2)),
        (
            vertical,
            if vertical {
                x + 4
            } else {
                x
            },
            if vertical {
                y
            } else {
                y + 4
            },
            bs_row(q, nb, vertical, 2),
            th_spec(qc, qc, ao, bo),
        ),
    )
}

/// The QPs of a decoded record lie in `0..=51`.
pub open spec fn qps_ok(r: MbDeblockInfo) -> bool {
    has_flag(r.flags, NOT_DECODED) || (r.qp <= 51 && r.qp_c@[0] <= 51 && r.qp_c@[1] <= 51)
}

fn has_nonzero_bs(bs: &[u8; 4]) -> (b: bool)
    ensures
        b == bs_nonzero(bs@),
{
    bs[0] != 0 || bs[1] != 0 || bs[2] != 0 || bs[3] != 0
}

/// Filters one edge and records it among the edges filtered so far.
fn apply_edge(
    data: &mut Vec<u8>,
    luma: bool,
    origin: usize,
    stride: usize,
    vertical: bool,
    x: usize,
    y: usize,
    bs: &[u8; 4],
    th: &FilterThresholds,
    Ghost(d0): Ghost<Seq<u8>>,
    Ghost(ops): Ghost<Seq<EdgeOp>>,
)
    requires
        th.wf(),
        origin + (y + 16) * stride + x + 16 <= usize::MAX,
        old(data)@ == apply_ops(d0, luma, origin as int, stride as int, ops),
    ensures
        final(data)@ == apply_ops(
            d0,
            luma,
            origin as int,
            stride as int,
            ops.push((vertical, x as int, y as int, bs@, *th)),
        ),
{
    filter_edge_lines(data, luma, vertical, origin, stride, x, y, bs, th);
    proof {
        lemma_apply_push(d0, luma, origin as int, stride as int, ops, (vertical, x as int, y as int, bs@, *th));
    }
}

/// Filters the luma edges of macroblock `q` at (`x`, `y`) in one direction
/// (see `luma_dir_ops`), whose boundary strengths are `bs`.
fn filter_luma_dir(
    data: &mut Vec<u8>,
    origin: usize,
    stride: usize,
    vertical: bool,
    x: usize,
    y: usize,
    q: &MbDeblockInfo,
    nb: Option<&MbDeblockInfo>,
    bs: &[[u8; 4]; 4],
    ao: i32,
    bo: i32,
    Ghost(d0): Ghost<Seq<u8>>,
    Ghost(ops): Ghost<Seq<EdgeOp>>,
)
    requires
        old(data)@ == apply_ops(d0, true, origin as int, stride as int, ops),
        forall|e: int| 0 <= e < 4 ==> #[trigger] bs@[e]@ == bs_row(*q, deref_opt(nb), vertical, e),
        q.qp <= 51,
        match nb {
            Some(p) => p.qp <= 51,
            None => true,
        },
        -12 <= ao <= 12,
        -12 <= bo <= 12,
        y + 32 <= usize::MAX,
        origin + (y + 32) * stride + x + 32 <= usize::MAX,
    ensures
        final(data)@ == apply_ops(
            d0,
            true,
            origin as int,
            stride as int,
            luma_dir_ops(ops, vertical, x as int, y as int, *q, deref_opt(nb), ao as int, bo as int),
        ),
{
    assert((y + 16) * stride <= (y + 32) * stride && (y + 28) * stride <= (y + 32) * stride) by (nonlinear_arith);
    let internal = FilterThresholds::from_qp(q.qp, q.qp, ao, bo);
    let t8 = q.is(TRANSFORM_8X8);
    let ghost mut cur = ops;
    assert(bs@[0]@ == bs_row(*q, deref_opt(nb), vertical, 0));
    assert(bs@[1]@ == bs_row(*q, deref_opt(nb), vertical, 1));
    assert(bs@[2]@ == bs_row(*q, deref_opt(nb), vertical, 2));
    assert(bs@[3]@ == bs_row(*q, deref_opt(nb), vertical, 3));
    match nb {
        Some(p) => {
            if has_nonzero_bs(&bs[0]) {
                let edge = FilterThresholds::from_qp(p.qp, q.qp, ao, bo);
                apply_edge(data, true, origin, stride, vertical, x, y, &bs[0], &edge, Ghost(d0), Ghost(cur));
                proof {
                    cur = cur.push((vertical, x as int, y as int, bs@[0]@, edge));
                }
            }
        },
        None => {},
    }
    let mut e: usize = 1;
    while e < 4
        invariant
            1 <= e <= 4,
            internal == th_spec(q.qp as int, q.qp as int, ao as int, bo as int),
            internal.wf(),
            t8 == has_flag(q.flags, TRANSFORM_8X8),
            forall|k: int| 0 <= k < 4 ==> #[trigger] bs@[k]@ == bs_row(*q, deref_opt(nb), vertical, k),
            origin + (y + 32) * stride + x + 32 <= usize::MAX,
            y + 32 <= usize::MAX,
            data@ == apply_ops(d0, true, origin as int, stride as int, cur),
            ({
                let internal = th_spec(q.qp as int, q.qp as int, ao as int, bo as int);
                let s0 = match deref_opt(nb) {
                    Some(p) => push_if(
                        ops,
                        bs_nonzero(bs_row(*q, deref_opt(nb), vertical, 0)),
                        (vertical, x as int, y as int, bs_row(*q, deref_opt(nb), vertical, 0), th_spec(p.qp as int, q.qp as int, ao as int, bo as int)),
                    ),
                    None => ops,
                };
                let s1 = push_if(
                    s0,
                    !t8 && bs_nonzero(bs_row(*q, deref_opt(nb), vertical, 1)),
                    (vertical, if vertical { x + 4 } else { x as int }, if vertical { y as int } else { y + 4 }, bs_row(*q, deref_opt(nb), vertical, 1), internal),
                );
                let s2 = push_if(
                    s1,
                    bs_nonzero(bs_row(*q, deref_opt(nb), vertical, 2)),
                    (vertical, if vertical { x + 8 } else { x as int }, if vertical { y as int } else { y + 8 }, bs_row(*q, deref_opt(nb), vertical, 2), internal),
                );
                let s3 = push_if(
                    s2,
                    !t8 && bs_nonzero(bs_row(*q, deref_opt(nb), vertical, 3)),
                    (vertical, if vertical { x + 12 } else { x as int }, if vertical { y as int } else { y + 12 }, bs_row(*q, deref_opt(nb), vertical, 3), internal),
                );
                cur == (if e == 1 { s0 } else if e == 2 { s1 } else if e == 3 { s2 } else { s3 })
            }),
        decreases 4 - e,
    {
        if (e == 2 || !t8) && has_nonzero_bs(&bs[e]) {
            let (ex, ey) = if vertical {
                (x + 4 * e, y)
            } else {
                (x, y + 4 * e)
            };
            assert((ey + 16) * stride <= (y + 32) * stride) by (nonlinear_arith)
                requires
                    ey <= y + 12,
            ;
            apply_edge(data, true, origin, stride, vertical, ex, ey, &bs[e], &internal, Ghost(d0), Ghost(cur));
            proof {
                cur = cur.push((vertical, ex as int, ey as int, bs@[e as int]@, internal));
            }
        }
        e = e + 1;
    }
}

/// Filters the edges of chroma plane `i` of macroblock `q` at (`x`, `y`)
/// in one direction (see `chroma_dir_ops`), whose luma boundary strengths
/// are `bs`.
fn filter_chroma_dir(
    data: &mut Vec<u8>,
    origin: usize,
    stride: usize,
    i: usize,
    vertical: bool,
    x: usize,
    y: usize,
    q: &MbDeblockInfo,
    nb: Option<&MbDeblockInfo>,
    bs: &[[u8; 4]; 4],
    ao: i32,
    bo: i32,
    Ghost(d0): Ghost<Seq<u8>>,
    Ghost(ops): Ghost<Seq<EdgeOp>>,
)
    requires
        i < 2,
        old(data)@ == apply_ops(d0, false, origin as int, stride as int, ops),
        forall|e: int| 0 <= e < 4 ==> #[trigger] bs@[e]@ == bs_row(*q, deref_opt(nb), vertical, e),
        q.qp_c@[i as int] <= 51,
        match nb {
            Some(p) => p.qp_c@[i as int] <= 51,
            None => true,
        },
        -12 <= ao <= 12,
        -12 <= bo <= 12,
        y + 32 <= usize::MAX,
        origin + (y + 32) * stride + x + 32 <= usize::MAX,
    ensures
        final(data)@ == apply_ops(
            d0,
            false,
            origin as int,
            stride as int,
            chroma_dir_ops(ops, i as int, vertical, x as int, y as int, *q, deref_opt(nb), ao as int, bo as int),
        ),
{
    assert((y + 16) * stride <= (y + 32) * stride && (y + 20) * stride <= (y + 32) * stride) by (nonlinear_arith);
    let qc = q.qp_c[i];
    let ghost mut cur = ops;
    assert(bs@[0]@ == bs_row(*q, deref_opt(nb), vertical, 0));
    assert(bs@[2]@ == bs_row(*q, deref_opt(nb), vertical, 2));
    match nb {
        Some(p) => {
            if has_nonzero_bs(&bs[0]) {
                let edge = FilterThresholds::from_qp(p.qp_c[i], qc, ao, bo);
                apply_edge(data, false, origin, stride, vertical, x, y, &bs[0], &edge, Ghost(d0), Ghost(cur));
                proof {
                    cur = cur.push((vertical, x as int, y as int, bs@[0]@, edge));
                }
            }
        },
        None => {},
    }
    if has_nonzero_bs(&bs[2]) {
        let internal = FilterThresholds::from_qp(qc, qc, ao, bo);
        let (ex, ey) = if vertical {
            (x + 4, y)
        } else {
            (x, y + 4)
        };
        apply_edge(data, false, origin, stride, vertical, ex, ey, &bs[2], &internal, Ghost(d0), Ghost(cur));
    }
}

/// Section 8.7 for one macroblock: the planes `d` after filtering the
/// edges of decoded macroblock `q` at (`mb_x`, `mb_y`), left to right, then
/// top to bottom, luma then Cb then Cr, with the parameters of q's slice
/// among `slices`. `left` and `top` are the macroblocks across its left and
/// top edges, `None` on the picture boundary; an edge is filtered as
/// `spec_should_filter_edge` says.
pub open spec fn filter_mb_spec(
    d: (Seq<u8>, Seq<u8>, Seq<u8>),
    origins: (int, int, int),
    strides: (int, int, int),
    slices: Seq<SliceDeblockParams>,
    mb_x: int,
    mb_y: int,
    q: MbDeblockInfo,
    left: Option<MbDeblockInfo>,
    top: Option<MbDeblockInfo>,
) -> (Seq<u8>, Seq<u8>, Seq<u8>) {
    if has_flag(q.flags, NOT_DECODED) {
        d
    } else {
        let params = slices[q.slice_id as int];
        if params.idc == DeblockingFilterIdc::Off {
            d
        } else {
            let left2 = match left {
                Some(p) => if spec_should_filter_edge(params.idc, q, p) {
                    Some(p)
                } else {
                    None
                },
                None => None,
            };
            let top2 = match top {
                Some(p) => if spec_should_filter_edge(params.idc, q, p) {
                    Some(p)
                } else {
                    None
                },
                None => None,
            };
            let ao = params.alpha_c0_offset_div2 * 2;
            let bo = params.beta_offset_div2 * 2;
            let luma = luma_dir_ops(
                luma_dir_ops(Seq::empty(), true, 16 * mb_x, 16 * mb_y, q, left2, ao, bo),
                false,
                16 * mb_x,
                16 * mb_y,
                q,
                top2,
                ao,
                bo,
            );
            let cb = chroma_dir_ops(
                chroma_dir_ops(Seq::empty(), 0, true, 8 * mb_x, 8 * mb_y, q, left2, ao, bo),
                0,
                false,
                8 * mb_x,
                8 * mb_y,
                q,
                top2,
                ao,
                bo,
            );
            let cr = chroma_dir_ops(
                chroma_dir_ops(Seq::empty(), 1, true, 8 * mb_x, 8 * mb_y, q, left2, ao, bo),
                1,
                false,
                8 * mb_x,
                8 * mb_y,
                q,
                top2,
                ao,
                bo,
            );
            (
                apply_ops(d.0, true, origins.0, strides.0, luma),
                apply_ops(d.1, false, origins.1, strides.1, cb),
                apply_ops(d.2, false, origins.2, strides.2, cr),
            )
        }
    }
}

/// The planes of `f`.
pub open spec fn planes_of(f: BorderedFrame) -> (Seq<u8>, Seq<u8>, Seq<u8>) {
    (f.luma.data@, f.chroma_cb.data@, f.chroma_cr.data@)
}

/// The offsets of the first visible samples of the planes of `f`.
pub open spec fn origins_of(f: BorderedFrame) -> (int, int, int) {
    (f.luma.cfg.origin(), f.chroma_cb.cfg.origin(), f.chroma_cr.cfg.origin())
}

/// The strides of the planes of `f`.
pub open spec fn strides_of(f: BorderedFrame) -> (int, int, int) {
    (f.luma.cfg.stride as int, f.chroma_cb.cfg.stride as int, f.chroma_cr.cfg.stride as int)
}

/// The deblocking offsets of every slice lie in `-6..=6`.
pub open spec fn slices_ok(slices: Seq<SliceDeblockParams>) -> bool {
    forall|i: int|
        0 <= i < slices.len() ==> -6 <= #[trigger] slices[i].alpha_c0_offset_div2 <= 6 && -6
            <= slices[i].beta_offset_div2 <= 6
}

/// A plane's macroblock at (`mb_x`, `mb_y`), of `size` samples a side,
/// lies far enough inside the address space for its edges' samples to be
/// addressed.
pub open spec fn plane_fits(p: PlaneBuf, size: int, mb_x: int, mb_y: int) -> bool {
    &&& size * mb_y + 32 <= usize::MAX
    &&& p.cfg.origin() + (size * mb_y + 32) * p.cfg.stride + size * mb_x + 32 <= usize::MAX
}

/// Sections 8.7.1 and 8.7.2: filters every edge of the macroblock at
/// (`mb_x`, `mb_y`) whose record is `q` (see `filter_mb_spec`), with
/// `left` and `top` the records across its left and top edges.
#[verifier::spinoff_prover]
#[verifier::rlimit(40)]
pub fn filter_macroblock(
    input: &PictureDeblockInput,
    frame: &mut BorderedFrame,
    mb_x: usize,
    mb_y: usize,
    q: &MbDeblockInfo,
    left: Option<&MbDeblockInfo>,
    top: Option<&MbDeblockInfo>,
)
    requires
        !has_flag(q.flags, NOT_DECODED) ==> q.slice_id < input.slice_deblock@.len(),
        slices_ok(input.slice_deblock@),
        qps_ok(*q),
        match left {
            Some(p) => qps_ok(*p),
            None => true,
        },
        match top {
            Some(p) => qps_ok(*p),
            None => true,
        },
        plane_fits(old(frame).luma, 16, mb_x as int, mb_y as int),
        plane_fits(old(frame).chroma_cb, 8, mb_x as int, mb_y as int),
        plane_fits(old(frame).chroma_cr, 8, mb_x as int, mb_y as int),
    ensures
        final(frame).luma.cfg == old(frame).luma.cfg,
        final(frame).chroma_cb.cfg == old(frame).chroma_cb.cfg,
        final(frame).chroma_cr.cfg == old(frame).chroma_cr.cfg,
        planes_of(*final(frame)) == filter_mb_spec(
            planes_of(*old(frame)),
            origins_of(*old(frame)),
            strides_of(*old(frame)),
            input.slice_deblock@,
            mb_x as int,
            mb_y as int,
            *q,
            deref_opt(left),
            deref_opt(top),
        ),
{
    if q.is(NOT_DECODED) {
        return;
    }
    // Per Section 8.7, the parameters of an edge come from the slice that
    // holds the q-block, the current macroblock for its left and top edges.
    let q_params = &input.slice_deblock[q.slice_id as usize];
    if q_params.idc == DeblockingFilterIdc::Off {
        return;
    }
    let ao = q_params.alpha_c0_offset_div2 * 2;
    let bo = q_params.beta_offset_div2 * 2;
    // Section 8.7, steps 2.c and 2.d: filterLeftMbEdgeFlag and
    // filterTopMbEdgeFlag.
    let left = match left {
        Some(p) => if should_filter_edge(q_params.idc, q, p) {
            Some(p)
        } else {
            None
        },
        None => None,
    };
    let top = match top {
        Some(p) => if should_filter_edge(q_params.idc, q, p) {
            Some(p)
        } else {
            None
        },
        None => None,
    };
    let (bs_vert, bs_horz) = compute_bs_arrays(q, left, top);
    assert forall|e: int| 0 <= e < 4 implies #[trigger] bs_vert@[e]@ == bs_row(*q, deref_opt(left), true, e) by {
        assert(bs_vert@[e]@ =~= bs_row(*q, deref_opt(left), true, e));
    }
    assert forall|e: int| 0 <= e < 4 implies #[trigger] bs_horz@[e]@ == bs_row(*q, deref_opt(top), false, e) by {
        assert(bs_horz@[e]@ =~= bs_row(*q, deref_opt(top), false, e));
    }
    // Luma: left to right, then top to bottom.
    {
        let cfg = frame.luma.cfg;
        let origin = cfg.yorigin * cfg.stride + cfg.xorigin;
        let ghost d0 = frame.luma.data@;
        let (x, y) = (16 * mb_x, 16 * mb_y);
        filter_luma_dir(&mut frame.luma.data, origin, cfg.stride, true, x, y, q, left, &bs_vert, ao, bo, Ghost(d0), Ghost(Seq::empty()));
        let ghost ops1 = luma_dir_ops(Seq::empty(), true, x as int, y as int, *q, deref_opt(left), ao as int, bo as int);
        filter_luma_dir(&mut frame.luma.data, origin, cfg.stride, false, x, y, q, top, &bs_horz, ao, bo, Ghost(d0), Ghost(ops1));
    }
    // Chroma (4:2:0), each plane on its own: the macroblock edges reuse the
    // bS of luma edge 0, the internal edges that of luma edge 2.
    {
        let cfg = frame.chroma_cb.cfg;
        let origin = cfg.yorigin * cfg.stride + cfg.xorigin;
        let ghost d0 = frame.chroma_cb.data@;
        let (x, y) = (8 * mb_x, 8 * mb_y);
        filter_chroma_dir(&mut frame.chroma_cb.data, origin, cfg.stride, 0, true, x, y, q, left, &bs_vert, ao, bo, Ghost(d0), Ghost(Seq::empty()));
        let ghost ops1 = chroma_dir_ops(Seq::empty(), 0, true, x as int, y as int, *q, deref_opt(left), ao as int, bo as int);
        filter_chroma_dir(&mut frame.chroma_cb.data, origin, cfg.stride, 0, false, x, y, q, top, &bs_horz, ao, bo, Ghost(d0), Ghost(ops1));
    }
    {
        let cfg = frame.chroma_cr.cfg;
        let origin = cfg.yorigin * cfg.stride + cfg.xorigin;
        let ghost d0 = frame.chroma_cr.data@;
        let (x, y) = (8 * mb_x, 8 * mb_y);
        filter_chroma_dir(&mut frame.chroma_cr.data, origin, cfg.stride, 1, true, x, y, q, left, &bs_vert, ao, bo, Ghost(d0), Ghost(Seq::empty()));
        let ghost ops1 = chroma_dir_ops(Seq::empty(), 1, true, x as int, y as int, *q, deref_opt(left), ao as int, bo as int);
        filter_chroma_dir(&mut frame.chroma_cr.data, origin, cfg.stride, 1, false, x, y, q, top, &bs_horz, ao, bo, Ghost(d0), Ghost(ops1));
    }
}

/// The planes `d` after the step of the picture pass for the macroblock at
/// address `k` of a picture `width` macroblocks wide: nothing without a
/// record, else `filter_mb_spec` with its left and top neighbours.
pub open spec fn mb_step(
    d: (Seq<u8>, Seq<u8>, Seq<u8>),
    origins: (int, int, int),
    strides: (int, int, int),
    slices: Seq<SliceDeblockParams>,
    records: Seq<MbDeblockInfo>,
    width: int,
    k: int,
) -> (Seq<u8>, Seq<u8>, Seq<u8>) {
    let mb_x = k % width;
    let mb_y = k / width;
    match rec_at(records, k) {
        None => d,
        Some(q) => filter_mb_spec(
            d,
            origins,
            strides,
            slices,
            mb_x,
            mb_y,
            q,
            if mb_x > 0 {
                rec_at(records, k - 1)
            } else {
                None
            },
            if mb_y > 0 {
                rec_at(records, k - width)
            } else {
                None
            },
        ),
    }
}

/// The planes `d` after the steps of the picture pass for the first `n`
/// macroblocks, in raster order.
pub open spec fn picture_spec(
    d: (Seq<u8>, Seq<u8>, Seq<u8>),
    origins: (int, int, int),
    strides: (int, int, int),
    slices: Seq<SliceDeblockParams>,
    records: Seq<MbDeblockInfo>,
    width: int,
    n: int,
) -> (Seq<u8>, Seq<u8>, Seq<u8>)
    decreases n,
{
    if n <= 0 {
        d
    } else {
        mb_step(picture_spec(d, origins, strides, slices, records, width, n - 1), origins, strides, slices, records, width, n - 1)
    }
}

/// Every slice has `disable_deblocking_filter_idc` 1.
pub open spec fn all_off(slices: Seq<SliceDeblockParams>) -> bool {
    forall|i: int| 0 <= i < slices.len() ==> #[trigger] slices[i].idc == DeblockingFilterIdc::Off
}

proof fn lemma_plane_fits_below(p: PlaneBuf, size: int, a: int, b: int, x: int, y: int)
    requires
        size >= 0,
        0 <= x <= a,
        0 <= y <= b,
        plane_fits(p, size, a, b),
    ensures
        plane_fits(p, size, x, y),
{
    assert((size * y + 32) * p.cfg.stride <= (size * b + 32) * p.cfg.stride && size * y <= size * b
        && size * x <= size * a) by (nonlinear_arith)
        requires
            size >= 0,
            0 <= x <= a,
            0 <= y <= b,
    ;
}

/// Section 8.7: the deblocking pass over a whole picture. Every macroblock
/// with a record is filtered in raster order (see `filter_mb_spec`), with
/// the parameters of the slice that decoded it; when every slice has
/// `disable_deblocking_filter_idc` 1 the picture is left alone.
pub fn filter_picture(input: &PictureDeblockInput, records: &DeblockRecords, frame: &mut BorderedFrame)
    requires
        all_off(input.slice_deblock@) || {
            &&& input.pic_height_in_mbs * input.pic_width_in_mbs <= usize::MAX
            &&& slices_ok(input.slice_deblock@)
            &&& forall|i: int|
                0 <= i < records.recs().len() ==> qps_ok(#[trigger] records.recs()[i]) && (!has_flag(
                    records.recs()[i].flags,
                    NOT_DECODED,
                ) ==> records.recs()[i].slice_id < input.slice_deblock@.len())
            &&& plane_fits(old(frame).luma, 16, input.pic_width_in_mbs as int, input.pic_height_in_mbs as int)
            &&& plane_fits(old(frame).chroma_cb, 8, input.pic_width_in_mbs as int, input.pic_height_in_mbs as int)
            &&& plane_fits(old(frame).chroma_cr, 8, input.pic_width_in_mbs as int, input.pic_height_in_mbs as int)
        },
    ensures
        final(frame).luma.cfg == old(frame).luma.cfg,
        final(frame).chroma_cb.cfg == old(frame).chroma_cb.cfg,
        final(frame).chroma_cr.cfg == old(frame).chroma_cr.cfg,
        planes_of(*final(frame)) == (if all_off(input.slice_deblock@) {
            planes_of(*old(frame))
        } else {
            picture_spec(
                planes_of(*old(frame)),
                origins_of(*old(frame)),
                strides_of(*old(frame)),
                input.slice_deblock@,
                records.recs(),
                input.pic_width_in_mbs as int,
                input.pic_height_in_mbs * input.pic_width_in_mbs,
            )
        }),
{
    let slices = input.slice_deblock;
    let mut every_off = true;
    let mut i: usize = 0;
    while i < slices.len()
        invariant
            i <= slices@.len(),
            every_off == (forall|j: int| 0 <= j < i ==> #[trigger] slices@[j].idc == DeblockingFilterIdc::Off),
        decreases slices@.len() - i,
    {
        if slices[i].idc != DeblockingFilterIdc::Off {
            every_off = false;
        }
        i = i + 1;
    }
    if every_off {
        return;
    }
    let recs = records.records();
    let width = input.pic_width_in_mbs;
    let height = input.pic_height_in_mbs;
    let ghost d0 = planes_of(*frame);
    let ghost origins = origins_of(*frame);
    let ghost strides = strides_of(*frame);
    let ghost f0 = *frame;
    let mut mb_y: usize = 0;
    while mb_y < height
        invariant
            mb_y <= height,
            height * width <= usize::MAX,
            width == input.pic_width_in_mbs,
            height == input.pic_height_in_mbs,
            recs@ == records.recs(),
            slices_ok(input.slice_deblock@),
            forall|i: int|
                0 <= i < recs@.len() ==> qps_ok(#[trigger] recs@[i]) && (!has_flag(recs@[i].flags, NOT_DECODED)
                    ==> recs@[i].slice_id < input.slice_deblock@.len()),
            frame.luma.cfg == f0.luma.cfg,
            frame.chroma_cb.cfg == f0.chroma_cb.cfg,
            frame.chroma_cr.cfg == f0.chroma_cr.cfg,
            origins == origins_of(f0),
            strides == strides_of(f0),
            plane_fits(f0.luma, 16, width as int, height as int),
            plane_fits(f0.chroma_cb, 8, width as int, height as int),
            plane_fits(f0.chroma_cr, 8, width as int, height as int),
            planes_of(*frame) == picture_spec(d0, origins, strides, input.slice_deblock@, recs@, width as int, mb_y * width),
        decreases height - mb_y,
    {
        assert(mb_y * width + width == (mb_y + 1) * width && (mb_y + 1) * width <= height * width) by (nonlinear_arith)
            requires
                mb_y < height,
        ;
        let mut mb_x: usize = 0;
        while mb_x < width
            invariant
                mb_x <= width,
                mb_y < height,
                height * width <= usize::MAX,
                mb_y * width + width <= height * width,
                width == input.pic_width_in_mbs,
                recs@ == records.recs(),
                slices_ok(input.slice_deblock@),
                forall|i: int|
                    0 <= i < recs@.len() ==> qps_ok(#[trigger] recs@[i]) && (!has_flag(recs@[i].flags, NOT_DECODED)
                        ==> recs@[i].slice_id < input.slice_deblock@.len()),
                frame.luma.cfg == f0.luma.cfg,
                frame.chroma_cb.cfg == f0.chroma_cb.cfg,
                frame.chroma_cr.cfg == f0.chroma_cr.cfg,
                origins == origins_of(f0),
                strides == strides_of(f0),
                plane_fits(f0.luma, 16, width as int, height as int),
                plane_fits(f0.chroma_cb, 8, width as int, height as int),
                plane_fits(f0.chroma_cr, 8, width as int, height as int),
                planes_of(*frame) == picture_spec(d0, origins, strides, input.slice_deblock@, recs@, width as int, mb_y * width + mb_x),
            decreases width - mb_x,
        {
            let k = mb_y * width + mb_x;
            proof {
                vstd::arithmetic::div_mod::lemma_fundamental_div_mod_converse(k as int, width as int, mb_y as int, mb_x as int);
                lemma_plane_fits_below(f0.luma, 16, width as int, height as int, mb_x as int, mb_y as int);
                lemma_plane_fits_below(f0.chroma_cb, 8, width as int, height as int, mb_x as int, mb_y as int);
                lemma_plane_fits_below(f0.chroma_cr, 8, width as int, height as int, mb_x as int, mb_y as int);
            }
            if k < recs.len() {
                let q = &recs[k];
                let (left, top) = mb_neighbors(recs, width, mb_x, mb_y);
                filter_macroblock(input, frame, mb_x, mb_y, q, left, top);
            }
            mb_x = mb_x + 1;
        }
        mb_y = mb_y + 1;
    }
}

/// The ids stand for the POCs: with fewer than 254 distinct POCs numbered,
/// two POCs looked up one after the other get the same id exactly when
/// they are equal, and looking up the first again gives its id again.
pub proof fn lemma_ids_identify_pocs(pocs: Seq<i32>, a: i32, b: i32)
    requires
        distinct_pocs(pocs),
        pocs.len() < 254,
    ensures
        ({
            let (p1, ia) = poc_id(pocs, a);
            let (p2, ib) = poc_id(p1, b);
            &&& (ia == ib <==> a == b)
            &&& poc_id(p2, a).1 == ia
            &&& distinct_pocs(p2)
        }),
{
    let (p1, ia) = poc_id(pocs, a);
    let (p2, ib) = poc_id(p1, b);
    lemma_poc_id_distinct(pocs, a);
    lemma_poc_id_distinct(p1, b);
    let ka = choose|i: int| 0 <= i < p1.len() && p1[i] == a;
    if !pocs.contains(a) {
        assert(p1[pocs.len() as int] == a);
    }
    assert(p1.contains(a));
    assert(0 <= ka < p1.len() && p1[ka] == a);
    assert(ia == id_at(ka));
    if p1.contains(b) {
        assert(p2 == p1);
    } else {
        assert(p2 == p1.push(b));
        assert(p2[ka] == p1[ka]);
    }
    assert(p2[ka] == a);
    assert(p2.contains(a));
    let ka2 = choose|i: int| 0 <= i < p2.len() && p2[i] == a;
    assert(ka2 == ka);
    if p1.contains(b) {
        let kb = choose|i: int| 0 <= i < p1.len() && p1[i] == b;
        assert(ib == id_at(kb));
        assert(a == b ==> kb == ka);
        assert(a != b ==> kb != ka);
    } else {
        assert(ib == id_at(p1.len() as int));
        assert(a != b);
    }
}

/// What `start_picture` leaves: `n` blank records, no numbered POCs, the
/// chroma QP offsets of `pps`.
pub open spec fn picture_started(r: DeblockRecords, n: int, pps: PicParameterSet) -> bool {
    &&& r.recs().len() == n
    &&& forall|i: int| 0 <= i < n ==> #[trigger] blank_record(r.recs()[i])
    &&& r.pocs() == Seq::<i32>::empty()
    &&& r.offsets()@ == seq![pps.chroma_qp_index_offset, pps.second_chroma_qp_index_offset]
}

/// What `start_slice` makes of `r0`: the records and offsets kept, the
/// slice's id, list lengths (at most 256) and id tables numbered from the
/// POCs of `r0` on (see `SliceRefIds::load`).
pub open spec fn slice_started(
    r0: DeblockRecords,
    r: DeblockRecords,
    slice_id: u16,
    l0_pocs: Seq<i32>,
    l1_pocs: Seq<i32>,
) -> bool {
    &&& r.recs() == r0.recs()
    &&& r.offsets() == r0.offsets()
    &&& r.slice_ids().slice_id == slice_id
    &&& r.slice_ids().l1_empty == (l1_pocs.len() == 0)
    &&& r.slice_ids().l0_len == (if l0_pocs.len() < 256 {
        l0_pocs.len() as int
    } else {
        256
    })
    &&& r.slice_ids().l1_len == (if l1_pocs.len() < 256 {
        l1_pocs.len() as int
    } else {
        256
    })
    &&& ({
        let (p1, ids0) = assign_ids(r0.pocs(), l0_pocs.take(r.slice_ids().l0_len as int));
        let (p2, ids1) = assign_ids(p1, l1_pocs.take(r.slice_ids().l1_len as int));
        &&& r.slice_ids().l0@ == id_table(ids0)
        &&& r.slice_ids().l1@ == id_table(ids1)
        &&& r.pocs() == p2
    })
}

/// Records reused from picture to picture keep nothing of earlier ones:
/// after `start_picture` and the first `start_slice`, two records however
/// used before hold the same POC numbering, chroma offsets and slice
/// tables, and every macroblock is blank (not decoded) until recorded.
pub proof fn lemma_records_reuse(
    a0: DeblockRecords,
    a1: DeblockRecords,
    b0: DeblockRecords,
    b1: DeblockRecords,
    n: int,
    pps: PicParameterSet,
    slice_id: u16,
    l0_pocs: Seq<i32>,
    l1_pocs: Seq<i32>,
)
    requires
        picture_started(a0, n, pps),
        picture_started(b0, n, pps),
        slice_started(a0, a1, slice_id, l0_pocs, l1_pocs),
        slice_started(b0, b1, slice_id, l0_pocs, l1_pocs),
    ensures
        a1.pocs() == b1.pocs(),
        a1.offsets() == b1.offsets(),
        a1.slice_ids() == b1.slice_ids(),
        a1.recs().len() == n && b1.recs().len() == n,
        forall|i: int|
            0 <= i < n ==> blank_record(#[trigger] a1.recs()[i]) && blank_record(b1.recs()[i])
                && a1.recs()[i].flags == NOT_DECODED,
{
    assert forall|i: int| 0 <= i < n implies blank_record(#[trigger] a1.recs()[i]) && blank_record(b1.recs()[i])
        && a1.recs()[i].flags == NOT_DECODED by {
        assert(blank_record(a0.recs()[i]));
        assert(blank_record(b0.recs()[i]));
    }
    assert(a1.offsets()@ =~= b1.offsets()@);
    assert(a1.offsets() == b1.offsets()) by {
        vstd::array::axiom_array_ext_equal(a1.offsets(), b1.offsets());
    }
    assert(a1.slice_ids().l0 == b1.slice_ids().l0) by {
        vstd::array::axiom_array_ext_equal(a1.slice_ids().l0, b1.slice_ids().l0);
    }
    assert(a1.slice_ids().l1 == b1.slice_ids().l1) by {
        vstd::array::axiom_array_ext_equal(a1.slice_ids().l1, b1.slice_ids().l1);
    }
}

/// Tables 8-16 and 8-17 grow with the quantiser: `alpha'`, `beta'` and
/// each column of `tC0'` never decrease from one index to the next; at
/// every index `tC0'` grows with the boundary strength; and no edge is
/// filtered below `indexA` 16 (`alpha'` and `beta'` are 0 there), while
/// from `indexA` 16 on both are positive.
pub proof fn lemma_filter_tables_grow(i: int)
    requires
        0 <= i < 75,
    ensures
        alpha_table()[i] <= alpha_table()[i + 1],
        beta_table()[i] <= beta_table()[i + 1],
        tc0_table_bs1()[i] <= tc0_table_bs1()[i + 1],
        tc0_table_bs2()[i] <= tc0_table_bs2()[i + 1],
        tc0_table_bs3()[i] <= tc0_table_bs3()[i + 1],
        tc0_table_bs1()[i] <= tc0_table_bs2()[i] <= tc0_table_bs3()[i],
        i < 12 + 16 ==> alpha_table()[i] == 0 && beta_table()[i] == 0,
        i >= 12 + 16 ==> alpha_table()[i] > 0 && beta_table()[i] > 0,
{
    let a = alpha_table();
    let b = beta_table();
    let t1 = tc0_table_bs1();
    let t2 = tc0_table_bs2();
    let t3 = tc0_table_bs3();
        if i == 0 {
        } else if i == 1 {
        } else if i == 2 {
        } else if i == 3 {
        } else if i == 4 {
        } else if i == 5 {
        } else if i == 6 {
        } else if i == 7 {
        } else if i == 8 {
        } else if i == 9 {
        } else if i == 10 {
        } else if i == 11 {
        } else if i == 12 {
        } else if i == 13 {
        } else if i == 14 {
        } else if i == 15 {
        } else if i == 16 {
        } else if i == 17 {
        } else if i == 18 {
        } else if i == 19 {
        } else if i == 20 {
        } else if i == 21 {
        } else if i == 22 {
        } else if i == 23 {
        } else if i == 24 {
        } else if i == 25 {
        } else if i == 26 {
        } else if i == 27 {
        } else if i == 28 {
        } else if i == 29 {
        } else if i == 30 {
        } else if i == 31 {
        } else if i == 32 {
        } else if i == 33 {
        } else if i == 34 {
        } else if i == 35 {
        } else if i == 36 {
        } else if i == 37 {
        } else if i == 38 {
        } else if i == 39 {
        } else if i == 40 {
        } else if i == 41 {
        } else if i == 42 {
        } else if i == 43 {
        } else if i == 44 {
        } else if i == 45 {
        } else if i == 46 {
        } else if i == 47 {
        } else if i == 48 {
        } else if i == 49 {
        } else if i == 50 {
        } else if i == 51 {
        } else if i == 52 {
        } else if i == 53 {
        } else if i == 54 {
        } else if i == 55 {
        } else if i == 56 {
        } else if i == 57 {
        } else if i == 58 {
        } else if i == 59 {
        } else if i == 60 {
        } else if i == 61 {
        } else if i == 62 {
        } else if i == 63 {
        } else if i == 64 {
        } else if i == 65 {
        } else if i == 66 {
        } else if i == 67 {
        } else if i == 68 {
        } else if i == 69 {
        } else if i == 70 {
        } else if i == 71 {
        } else if i == 72 {
        } else if i == 73 {
        } else if i == 74 {
        } else {
        }
}


/// Section 8.7.2.1, the boundary strength of segment `b` of edge `e`: 4
/// only on a filtered macroblock edge with an intra macroblock on either
/// side; 3 on the internal edges of an intra macroblock (with the 8x8
/// transform only on the middle one); elsewhere 2 exactly where the 4x4
/// block on either side of the segment has coefficients, else 0 where
/// both blocks use the same reference pictures with motion vectors less
/// than 4 quarter samples apart and 1 where they do not. Edges that are
/// not filtered get 0. The p block of a vertical edge is the block to the
/// left (column `e - 1`, or column 3 of the left neighbour), of a
/// horizontal edge the block above.
pub proof fn lemma_bs_rules(q: MbDeblockInfo, nb: Option<MbDeblockInfo>, vertical: bool, e: int, b: int)
    requires
        0 <= e < 4,
        0 <= b < 4,
    ensures
        ({
            let bs = mb_bs(q, nb, vertical, e, b);
            let pcol = if e == 0 {
                3
            } else {
                e - 1
            };
            let pb = if vertical {
                4 * b + pcol
            } else {
                4 * pcol + b
            };
            let qb = if vertical {
                4 * b + e
            } else {
                4 * e + b
            };
            let pblocks = if e == 0 && nb is Some {
                nb->0.blocks
            } else {
                q.blocks
            };
            let intra = has_flag(q.flags, INTRA);
            let t8 = has_flag(q.flags, TRANSFORM_8X8);
            let l0_only = has_flag(q.flags, L1_EMPTY);
            let filtered_inter_edge = !intra && (if e == 0 {
                nb is Some && !has_flag(nb->0.flags, INTRA)
            } else {
                !has_flag(q.flags, NO_INTERNAL_EDGES) && (!t8 || e == 2)
            });
            let coded = nz_bit(pblocks.nz, pb) || nz_bit(q.blocks.nz, qb);
            &&& bs <= 4
            &&& (bs == 4 <==> e == 0 && nb is Some && (intra || has_flag(nb->0.flags, INTRA)))
            &&& e == 0 && nb is None ==> bs == 0
            &&& intra && e > 0 ==> bs == (if !t8 || e == 2 {
                3u8
            } else {
                0u8
            })
            &&& !intra && e > 0 && !filtered_inter_edge ==> bs == 0
            &&& filtered_inter_edge ==> (bs == 2 <==> coded) && bs <= 2
            &&& filtered_inter_edge && !coded && l0_only ==> (bs == 0 <==> pblocks.ref_l0@[pb] == q.blocks.ref_l0@[qb]
                && iabs(pblocks.mv_l0@[pb]@[0] - q.blocks.mv_l0@[qb]@[0]) < 4 && iabs(
                pblocks.mv_l0@[pb]@[1] - q.blocks.mv_l0@[qb]@[1],
            ) < 4)
            &&& filtered_inter_edge && !coded && !l0_only && pblocks.ref_l0@[pb] == q.blocks.ref_l0@[qb]
                && pblocks.ref_l1@[pb] == q.blocks.ref_l1@[qb] && mv_close(pblocks.mv_l0@[pb], q.blocks.mv_l0@[qb])
                && mv_close(pblocks.mv_l1@[pb], q.blocks.mv_l1@[qb]) ==> bs == 0
            &&& filtered_inter_edge && !coded && !l0_only && pblocks.ref_l0@[pb] != q.blocks.ref_l0@[qb]
                && pblocks.ref_l0@[pb] != q.blocks.ref_l1@[qb] ==> bs == 1
        }),
{
    assert(internal_bit(0, e) == false) by {
        let k = e as u8;
        assert((0u8 >> k) & 1u8 == 0u8) by (bit_vector);
    }
    if e == 1 {
        assert(internal_bit(14, e)) by {
            assert((14u8 >> 1u8) & 1u8 != 0u8) by (bit_vector);
        }
        assert(!internal_bit(4, e)) by {
            assert((4u8 >> 1u8) & 1u8 == 0u8) by (bit_vector);
        }
    } else if e == 2 {
        assert(internal_bit(14, e)) by {
            assert((14u8 >> 2u8) & 1u8 != 0u8) by (bit_vector);
        }
        assert(internal_bit(4, e)) by {
            assert((4u8 >> 2u8) & 1u8 != 0u8) by (bit_vector);
        }
    } else if e == 3 {
        assert(internal_bit(14, e)) by {
            assert((14u8 >> 3u8) & 1u8 != 0u8) by (bit_vector);
        }
        assert(!internal_bit(4, e)) by {
            assert((4u8 >> 3u8) & 1u8 == 0u8) by (bit_vector);
        }
    }
}


/// Sections 8.7.2.3 and 8.7.2.4, one line of luma samples `p3..p0, q0..q3`
/// across an edge: the filters never change `p3` and `q3`; the filter for
/// bS < 4 leaves `p2` and `q2` too, moves `p1` and `q1` by at most `tC0`
/// and `p0` and `q0` by at most `tC0 + 2`; and a line of equal samples is
/// left as it is by both.
pub proof fn lemma_luma_line_reach(s: Seq<u8>, strong: bool, tc0: int, alpha: int, beta: int)
    requires
        s.len() == 8,
        0 <= tc0,
    ensures
        ({
            let r = luma_line(s, strong, tc0, alpha, beta);
            &&& r.len() == 8
            &&& r[0] == s[0] && r[7] == s[7]
            &&& !strong ==> r[1] == s[1] && r[6] == s[6] && iabs(r[2] - s[2]) <= tc0 && iabs(r[5] - s[5])
                <= tc0 && iabs(r[3] - s[3]) <= tc0 + 2 && iabs(r[4] - s[4]) <= tc0 + 2
            &&& (forall|i: int| 0 <= i < 8 ==> #[trigger] s[i] == s[0]) ==> r == s
        }),
{
    let k = s[0] as int;
    if forall|i: int| 0 <= i < 8 ==> #[trigger] s[i] == s[0] {
        assert(s[1] == k && s[2] == k && s[3] == k && s[4] == k && s[5] == k && s[6] == k && s[7] == k);
        assert((2 * k + 1) / 2 == k);
        assert((k + (k + k + 1) / 2 - 2 * k) / 2 == 0);
        assert(((k - k) * 4 + (k - k) + 4) / 8 == 0);
        assert((2 * k + 3 * k + k + k + k + 4) / 8 == k);
        assert((k + k + k + k + 2) / 4 == k);
        assert((k + 2 * k + 2 * k + 2 * k + k + 4) / 8 == k);
        assert((2 * k + k + k + 2) / 4 == k);
        let r = luma_line(s, strong, tc0, alpha, beta);
        assert(r =~= s);
    }
}

/// Sections 8.7.2.3 and 8.7.2.4 with `chromaEdgeFlag = 1`, one line of
/// chroma samples `p1, p0, q0, q1`: only `p0` and `q0` change, by at most
/// `tC` with bS < 4, and a line of equal samples is left as it is.
pub proof fn lemma_chroma_line_reach(s: Seq<u8>, strong: bool, tc: int, alpha: int, beta: int)
    requires
        s.len() == 4,
        0 <= tc,
    ensures
        ({
            let r = chroma_line(s, strong, tc, alpha, beta);
            &&& r.len() == 4
            &&& r[0] == s[0] && r[3] == s[3]
            &&& !strong ==> iabs(r[1] - s[1]) <= tc && iabs(r[2] - s[2]) <= tc
            &&& (forall|i: int| 0 <= i < 4 ==> #[trigger] s[i] == s[0]) ==> r == s
        }),
{
    let k = s[0] as int;
    if forall|i: int| 0 <= i < 4 ==> #[trigger] s[i] == s[0] {
        assert(s[1] == k && s[2] == k && s[3] == k);
        assert(((k - k) * 4 + (k - k) + 4) / 8 == 0);
        assert((2 * k + k + k + 2) / 4 == k);
        let r = chroma_line(s, strong, tc, alpha, beta);
        assert(r =~= s);
    }
}

} // verus!
