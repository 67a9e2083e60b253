//! Inter prediction (Section 8.4.2): fractional sample interpolation of
//! luma and chroma, weighted sample prediction, and the grouping of a
//! macroblock's motion grid into prediction rectangles.
use vstd::arithmetic::power2::{lemma_pow2_pos, pow2};
use vstd::prelude::*;

use crate::arith::{clamp, clip1, clip_u8, lemma_i32_shl_one, lemma_i32_shr, shr};
use crate::macroblock::{spec_num_mb_part_p, MbMotion, MbPredictionMode, MotionVector, PMb, PMbType, PartitionInfo};
use crate::plane::{
    at2, lemma_plane_index, lemma_rc_distinct, lemma_rect_index, rect_fits, rect_replaced, ColorPlane, Plane,
    Point,
};

verus! {

/// Weighted prediction mode of a slice (Section 8.4.2.3).
#[derive(Debug, Clone, Copy, PartialEq, Eq, Structural)]
pub enum WeightedPredMode {
    Default,
    Explicit,
    Implicit,
}

/// Slice types as far as weighted prediction tells them apart.
#[derive(Debug, Clone, Copy, PartialEq, Eq, Structural)]
pub enum SliceType {
    P,
    B,
    I,
    SP,
    SI,
}

/// Resolved weighting parameters for one prediction direction (Section
/// 8.4.3 outputs).
#[derive(Debug, Clone, Copy, PartialEq, Eq)]
pub struct WeightParams {
    pub log_wd: u32,
    pub w0: i32,
    pub o0: i32,
    pub w1: i32,
    pub o1: i32,
}

/// Section 8.4.2.3: the weighted prediction mode of a slice of type
/// `slice_type` under a PPS with `weighted_pred_flag` and
/// `weighted_bipred_idc`.
pub fn get_weighted_pred_mode(
    slice_type: SliceType,
    weighted_pred_flag: bool,
    weighted_bipred_idc: u8,
) -> (m: WeightedPredMode)
    ensures
        m == match slice_type {
            SliceType::P | SliceType::SP => if weighted_pred_flag {
                WeightedPredMode::Explicit
            } else {
                WeightedPredMode::Default
            },
            SliceType::B => if weighted_bipred_idc == 1 {
                WeightedPredMode::Explicit
            } else if weighted_bipred_idc == 2 {
                WeightedPredMode::Implicit
            } else {
                WeightedPredMode::Default
            },
            _ => WeightedPredMode::Default,
        },
{
    match slice_type {
        SliceType::P | SliceType::SP => {
            if weighted_pred_flag {
                WeightedPredMode::Explicit
            } else {
                WeightedPredMode::Default
            }
        },
        SliceType::B => {
            if weighted_bipred_idc == 1 {
                WeightedPredMode::Explicit
            } else if weighted_bipred_idc == 2 {
                WeightedPredMode::Implicit
            } else {
                WeightedPredMode::Default
            }
        },
        _ => WeightedPredMode::Default,
    }
}

/// Eq. 8-274 / 8-275: explicitly weighted uni-prediction of sample `pred`.
pub open spec fn spec_weighted_uni(pred: int, w: int, o: int, log_wd: nat) -> u8 {
    clip_u8(
        if log_wd >= 1 {
            shr(pred * w + pow2((log_wd - 1) as nat), log_wd) + o
        } else {
            pred * w + o
        },
    )
}

/// `v` is an `i32` value.
pub open spec fn fits_i32(v: int) -> bool {
    i32::MIN <= v <= i32::MAX
}

/// Every intermediate value of Eq. 8-274 / 8-275 on `pred` fits in an
/// `i32`, and the shifts are below 32.
pub open spec fn uni_pred_fits(pred: int, w: int, o: int, log_wd: nat) -> bool {
    &&& log_wd < 32
    &&& fits_i32(pred * w)
    &&& if log_wd >= 1 {
        fits_i32(pred * w + pow2((log_wd - 1) as nat)) && fits_i32(
            shr(pred * w + pow2((log_wd - 1) as nat), log_wd) + o,
        )
    } else {
        fits_i32(pred * w + o)
    }
}

/// Eq. 8-274 / 8-275 fits in an `i32` for every 8-bit sample.
pub open spec fn uni_weights_fit(w: int, o: int, log_wd: nat) -> bool {
    forall|p: int| 0 <= p <= 255 ==> #[trigger] uni_pred_fits(p, w, o, log_wd)
}

/// Section 8.4.2.3.2, Eq. 8-274 / 8-275: weighted sample prediction for
/// uni-prediction.
pub fn weighted_uni_pred(pred: u8, w: i32, o: i32, log_wd: u32) -> (r: u8)
    requires
        uni_pred_fits(pred as int, w as int, o as int, log_wd as nat),
    ensures
        r == spec_weighted_uni(pred as int, w as int, o as int, log_wd as nat),
{
    let p = pred as i32;
    let val = if log_wd >= 1 {
        proof {
            lemma_i32_shl_one((log_wd - 1) as u32);
        }
        let sum = p * w + (1i32 << (log_wd - 1));
        proof {
            lemma_i32_shr(sum, log_wd);
        }
        (sum >> log_wd) + o
    } else {
        p * w + o
    };
    clip1(val)
}

/// Eq. 8-276: weighted bi-prediction of samples `l0` and `l1`.
pub open spec fn spec_weighted_bi(l0: int, l1: int, wp: WeightParams) -> u8 {
    clip_u8(
        shr(l0 * wp.w0 + l1 * wp.w1 + pow2(wp.log_wd as nat), (wp.log_wd + 1) as nat) + shr(
            wp.o0 + wp.o1 + 1,
            1,
        ),
    )
}

/// Every intermediate value of Eq. 8-276 on `l0`, `l1` fits in an `i32`,
/// and the shifts are below 32.
pub open spec fn bi_pred_fits(l0: int, l1: int, wp: WeightParams) -> bool {
    &&& wp.log_wd <= 30
    &&& fits_i32(l0 * wp.w0)
    &&& fits_i32(l1 * wp.w1)
    &&& fits_i32(l0 * wp.w0 + l1 * wp.w1)
    &&& fits_i32(l0 * wp.w0 + l1 * wp.w1 + pow2(wp.log_wd as nat))
    &&& fits_i32(wp.o0 + wp.o1)
    &&& fits_i32(wp.o0 + wp.o1 + 1)
    &&& fits_i32(
        shr(l0 * wp.w0 + l1 * wp.w1 + pow2(wp.log_wd as nat), (wp.log_wd + 1) as nat) + shr(
            wp.o0 + wp.o1 + 1,
            1,
        ),
    )
}

/// Eq. 8-276 fits in an `i32` for every pair of 8-bit samples.
pub open spec fn bi_weights_fit(wp: WeightParams) -> bool {
    forall|a: int, b: int| 0 <= a <= 255 && 0 <= b <= 255 ==> #[trigger] bi_pred_fits(a, b, wp)
}

/// Section 8.4.2.3.2, Eq. 8-276: weighted sample prediction for
/// bi-prediction.
pub fn weighted_bi_pred(pred_l0: u8, pred_l1: u8, wp: &WeightParams) -> (r: u8)
    requires
        bi_pred_fits(pred_l0 as int, pred_l1 as int, *wp),
    ensures
        r == spec_weighted_bi(pred_l0 as int, pred_l1 as int, *wp),
{
    proof {
        lemma_i32_shl_one(wp.log_wd);
    }
    let sum = (pred_l0 as i32) * wp.w0 + (pred_l1 as i32) * wp.w1 + (1i32 << wp.log_wd);
    let offsets = wp.o0 + wp.o1 + 1;
    proof {
        lemma_i32_shr(sum, (wp.log_wd + 1) as u32);
        lemma_i32_shr(offsets, 1);
    }
    let val = (sum >> (wp.log_wd + 1)) + (offsets >> 1u32);
    clip1(val)
}

/// With the default weight `2^log_wd` and no offset, explicitly weighted
/// uni-prediction gives back the sample it weights.
pub proof fn lemma_default_weight_is_identity(pred: u8, log_wd: nat)
    requires
        log_wd <= 22,
    ensures
        uni_pred_fits(pred as int, pow2(log_wd) as int, 0, log_wd),
        spec_weighted_uni(pred as int, pow2(log_wd) as int, 0, log_wd) == pred,
{
    let k = log_wd;
    let p = pred as int;
    lemma_pow2_pos(k);
    assert(pow2(k) <= pow2(22)) by {
        if k < 22 {
            vstd::arithmetic::power2::lemma_pow2_strictly_increases(k, 22);
        }
    }
    assert(pow2(22) == 0x40_0000) by {
        vstd::arithmetic::power2::lemma2_to64();
    }
    assert(0 <= p * pow2(k) <= 255 * 0x40_0000) by (nonlinear_arith)
        requires
            0 <= p <= 255,
            0 < pow2(k) <= 0x40_0000,
    ;
    if k >= 1 {
        let half = pow2((k - 1) as nat);
        vstd::arithmetic::power2::lemma_pow2_unfold(k);
        lemma_pow2_pos((k - 1) as nat);
        vstd::arithmetic::div_mod::lemma_fundamental_div_mod_converse(
            p * pow2(k) + half,
            pow2(k) as int,
            p,
            half as int,
        );
        assert(shr(p * pow2(k) + half, k) == p);
    } else {
        assert(pow2(0) == 1) by {
            vstd::arithmetic::power2::lemma2_to64();
        }
        assert(pow2(k) == 1);
        assert(p * pow2(k) == p) by (nonlinear_arith)
            requires
                pow2(k) == 1,
        ;
    }
}

/// Default bi-prediction weights (`w0 = w1 = 32`, `log_wd = 5`, no offsets)
/// give the rounded-up average of the two predictions (Section 8.4.2.3.1).
pub proof fn lemma_equal_weights_average(l0: u8, l1: u8)
    ensures
        spec_weighted_bi(
            l0 as int,
            l1 as int,
            WeightParams { log_wd: 5, w0: 32, o0: 0, w1: 32, o1: 0 },
        ) == (l0 + l1 + 1) / 2,
{
    assert(pow2(5) == 32 && pow2(6) == 64 && pow2(1) == 2) by {
        vstd::arithmetic::power2::lemma2_to64();
    }
    let t = l0 + l1 + 1;
    assert(shr(1, 1) == 0);
    assert((l0 as int) * 32 + (l1 as int) * 32 + 32 == 32 * t);
    assert((32 * t) / 64 == t / 2) by {
        vstd::arithmetic::div_mod::lemma_fundamental_div_mod(t, 2);
        vstd::arithmetic::div_mod::lemma_fundamental_div_mod_converse(32 * t, 64, t / 2, 32 * (t % 2));
    }
}

/// Position and size of a prediction rectangle within its macroblock, in
/// samples of one plane.
#[derive(Clone, Copy, Debug, PartialEq, Eq, Structural)]
pub struct Area {
    pub x: u8,
    pub y: u8,
    pub w: u8,
    pub h: u8,
}

impl Area {
    /// Offset of the rectangle's top-left sample from the macroblock's.
    pub fn offset(self, stride: usize) -> (o: usize)
        requires
            self.y * stride + self.x <= usize::MAX,
        ensures
            o == self.y * stride + self.x,
    {
        (self.y as usize) * stride + (self.x as usize)
    }
}

/// Row `r` of a strided buffer of `len` elements either does not exist (it
/// would start at or past the end) or holds `w` elements, `w <= stride`:
/// the condition under which walking the buffer's rows writes the first `w`
/// samples of the row without running past it.
pub open spec fn row_ok(len: int, stride: int, w: int, r: int) -> bool {
    r * stride < len ==> (w <= stride && r * stride + w <= len)
}

/// Every row below `h` is `row_ok`.
pub open spec fn rows_ok(len: int, stride: int, w: int, h: int) -> bool {
    forall|r: int| 0 <= r < h ==> #[trigger] row_ok(len, stride, w, r)
}

/// The first `w` samples of each of the first `h` rows of the strided
/// buffer `old` are replaced by `f`, as far as the rows exist in the
/// buffer; the other elements are unchanged.
pub open spec fn rows_replaced(
    new: Seq<u8>,
    old: Seq<u8>,
    stride: int,
    w: int,
    h: int,
    f: spec_fn(int, int) -> u8,
) -> bool {
    &&& new.len() == old.len()
    &&& forall|r: int, c: int|
        0 <= r < h && 0 <= c < w && r * stride < old.len() ==> #[trigger] at2(new, stride, r, c)
            == f(r, c)
    &&& forall|r: int, c: int|
        0 <= r && 0 <= c < stride && r * stride + c < old.len() && !(r < h && c < w)
            ==> #[trigger] at2(new, stride, r, c) == at2(old, stride, r, c)
}

/// How a rectangle's samples are rewritten in place.
#[derive(Clone, Copy)]
pub enum InPlace {
    /// Every sample becomes the value.
    Fill(u8),
    /// Every sample is weighted by Eq. 8-274 / 8-275 with these weight,
    /// offset and `log_wd`.
    WeightUni(i32, i32, u32),
}

/// The value that `op` gives sample `v`.
pub open spec fn spec_in_place(op: InPlace, v: u8) -> u8 {
    match op {
        InPlace::Fill(value) => value,
        InPlace::WeightUni(w, o, log_wd) => spec_weighted_uni(
            v as int,
            w as int,
            o as int,
            log_wd as nat,
        ),
    }
}

/// `op` can be applied to every 8-bit sample.
pub open spec fn in_place_ok(op: InPlace) -> bool {
    match op {
        InPlace::Fill(_) => true,
        InPlace::WeightUni(w, o, log_wd) => uni_weights_fit(w as int, o as int, log_wd as nat),
    }
}

fn apply_in_place(op: InPlace, v: u8) -> (r: u8)
    requires
        in_place_ok(op),
    ensures
        r == spec_in_place(op, v),
{
    match op {
        InPlace::Fill(value) => value,
        InPlace::WeightUni(w, o, log_wd) => {
            assert(uni_pred_fits(v as int, w as int, o as int, log_wd as nat));
            weighted_uni_pred(v, w, o, log_wd)
        },
    }
}

/// Rewrites, with `op`, the first `w` samples of each of the first `h` rows
/// of `dst` (rows `stride` apart) that exist in `dst`.
fn rewrite_rows(dst: &mut [u8], stride: usize, w: usize, h: usize, op: InPlace)
    requires
        stride > 0,
        rows_ok(old(dst)@.len() as int, stride as int, w as int, h as int),
        in_place_ok(op),
    ensures
        rows_replaced(
            final(dst)@,
            old(dst)@,
            stride as int,
            w as int,
            h as int,
            |r: int, c: int| spec_in_place(op, at2(old(dst)@, stride as int, r, c)),
        ),
{
    let ghost orig = dst@;
    let ghost f = |r: int, c: int| spec_in_place(op, at2(orig, stride as int, r, c));
    let len = dst.len();
    let mut r: usize = 0;
    let mut start: usize = 0;
    while r < h && start < len
        invariant
            stride > 0,
            len == dst@.len() == orig.len(),
            r <= h,
            rows_ok(len as int, stride as int, w as int, h as int),
            in_place_ok(op),
            f == (|rr: int, cc: int| spec_in_place(op, at2(orig, stride as int, rr, cc))),
            start == if r * stride < len { r * stride } else { len as int },
            forall|rr: int, c: int|
                0 <= rr < r && 0 <= c < w && rr * stride < len ==> #[trigger] at2(
                    dst@,
                    stride as int,
                    rr,
                    c,
                ) == f(rr, c),
            forall|rr: int, c: int|
                0 <= rr && 0 <= c < stride && rr * stride + c < len && !(rr < r && c < w)
                    ==> #[trigger] at2(dst@, stride as int, rr, c) == at2(orig, stride as int, rr, c),
        decreases h - r,
    {
        assert(row_ok(len as int, stride as int, w as int, r as int));
        let mut c: usize = 0;
        while c < w
            invariant
                stride > 0,
                len == dst@.len() == orig.len(),
                r < h,
                start == r * stride,
                w <= stride,
                start + w <= len,
                in_place_ok(op),
                rows_ok(len as int, stride as int, w as int, h as int),
                f == (|rr: int, cc: int| spec_in_place(op, at2(orig, stride as int, rr, cc))),
                c <= w,
                forall|rr: int, cc: int|
                    0 <= rr < r && 0 <= cc < w && rr * stride < len ==> #[trigger] at2(
                        dst@,
                        stride as int,
                        rr,
                        cc,
                    ) == f(rr, cc),
                forall|cc: int| 0 <= cc < c ==> #[trigger] at2(dst@, stride as int, r as int, cc) == f(r as int, cc),
                forall|rr: int, cc: int|
                    0 <= rr && 0 <= cc < stride && rr * stride + cc < len && !(rr < r && cc < w)
                        && !(rr == r && cc < c) ==> #[trigger] at2(dst@, stride as int, rr, cc)
                        == at2(orig, stride as int, rr, cc),
            decreases w - c,
        {
            let i = start + c;
            let v = dst[i];
            assert(at2(dst@, stride as int, r as int, c as int) == at2(
                orig,
                stride as int,
                r as int,
                c as int,
            ));
            assert(v == at2(orig, stride as int, r as int, c as int));
            let nv = apply_in_place(op, v);
            let ghost before = dst@;
            dst[i] = nv;
            proof {
                assert(dst@[i as int] == nv);
                assert(i == r * stride + c);
                assert(at2(dst@, stride as int, r as int, c as int) == nv);
                assert(at2(dst@, stride as int, r as int, c as int) == f(r as int, c as int));
                assert forall|rr: int, cc: int|
                    0 <= rr && 0 <= cc < stride && rr * stride + cc < len && (rr != r || cc != c)
                    implies #[trigger] at2(dst@, stride as int, rr, cc) == at2(before, stride as int, rr, cc) by {
                    lemma_rc_distinct(stride as int, rr, cc, r as int, c as int);
                }
                assert forall|rr: int, cc: int|
                    0 <= rr < r && 0 <= cc < w && rr * stride < len implies #[trigger] at2(
                        dst@,
                        stride as int,
                        rr,
                        cc,
                    ) == f(rr, cc) by {
                    assert(row_ok(len as int, stride as int, w as int, rr));
                    lemma_rc_distinct(stride as int, rr, cc, r as int, c as int);
                }
            }
            c = c + 1;
        }
        r = r + 1;
        assert(r * stride == (r - 1) * stride + stride) by (nonlinear_arith);
        if len - start > stride {
            start = start + stride;
        } else {
            start = len;
        }
        proof {
            if start < len {
                assert(start == r * stride);
            } else {
                assert(r * stride >= len);
            }
        }
    }
    proof {
        assert forall|rr: int, c: int|
            0 <= rr < h && 0 <= c < w && rr * stride < len implies #[trigger] at2(
                dst@,
                stride as int,
                rr,
                c,
            ) == f(rr, c) by {
            if rr >= r {
                // Rows from `r` on start past the end.
                assert(rr * stride >= r * stride) by (nonlinear_arith)
                    requires
                        rr >= r,
                        stride > 0,
                ;
            }
        }
        assert forall|rr: int, c: int|
            0 <= rr && 0 <= c < stride && rr * stride + c < len && !(rr < h && c < w)
                implies #[trigger] at2(dst@, stride as int, rr, c) == at2(orig, stride as int, rr, c) by {
            if rr >= r && rr < h && c < w {
                assert(rr * stride >= r * stride) by (nonlinear_arith)
                    requires
                        rr >= r,
                        stride > 0,
                ;
            }
        }
    }
}

/// Sets every sample of the rectangle at the start of `dst` (rows `stride`
/// apart) to `value`, as far as its rows exist in `dst`.
pub fn fill_rect(dst: &mut [u8], stride: usize, area: Area, value: u8)
    requires
        stride > 0,
        rows_ok(old(dst)@.len() as int, stride as int, area.w as int, area.h as int),
    ensures
        rows_replaced(
            final(dst)@,
            old(dst)@,
            stride as int,
            area.w as int,
            area.h as int,
            |r: int, c: int| value,
        ),
{
    rewrite_rows(dst, stride, area.w as usize, area.h as usize, InPlace::Fill(value));
}

/// Section 8.4.2.3.2, Eqs. 8-274 and 8-275: explicit weighting of a
/// uni-predicted rectangle in place. `dst` starts at its top-left sample.
pub fn weight_uni_in_place(
    dst: &mut [u8],
    stride: usize,
    area: Area,
    weight: i32,
    offset: i32,
    log_wd: u32,
)
    requires
        stride > 0,
        rows_ok(old(dst)@.len() as int, stride as int, area.w as int, area.h as int),
        uni_weights_fit(weight as int, offset as int, log_wd as nat),
    ensures
        rows_replaced(
            final(dst)@,
            old(dst)@,
            stride as int,
            area.w as int,
            area.h as int,
            |r: int, c: int|
                spec_weighted_uni(
                    at2(old(dst)@, stride as int, r, c) as int,
                    weight as int,
                    offset as int,
                    log_wd as nat,
                ),
        ),
{
    rewrite_rows(
        dst,
        stride,
        area.w as usize,
        area.h as usize,
        InPlace::WeightUni(weight, offset, log_wd),
    );
}

/// A grid of integer sample values, `g(x, y)`.
pub type Grid = spec_fn(int, int) -> int;

/// The 6-tap filter (1, -5, 20, 20, -5, 1) of Eqs. 8-241 / 8-242 over the
/// samples `g(x + k*dx, y + k*dy)`, `k = -2..=3`.
pub open spec fn tap6(g: Grid, x: int, y: int, dx: int, dy: int) -> int {
    g(x - 2 * dx, y - 2 * dy) - 5 * g(x - dx, y - dy) + 20 * g(x, y) + 20 * g(x + dx, y + dy) - 5
        * g(x + 2 * dx, y + 2 * dy) + g(x + 3 * dx, y + 3 * dy)
}

/// The unclipped horizontal half sample `b1` right of integer sample
/// (`x`, `y`) (Eq. 8-241).
pub open spec fn b1(g: Grid, x: int, y: int) -> int {
    tap6(g, x, y, 1, 0)
}

/// The unclipped vertical half sample `h1` below integer sample (`x`, `y`)
/// (Eq. 8-242).
pub open spec fn h1(g: Grid, x: int, y: int) -> int {
    tap6(g, x, y, 0, 1)
}

/// The unclipped centre half sample `j1` (Eq. 8-245): the 6-tap filter over
/// the `b1` values of the rows around (`x`, `y`).
pub open spec fn j1(g: Grid, x: int, y: int) -> int {
    b1(g, x, y - 2) - 5 * b1(g, x, y - 1) + 20 * b1(g, x, y) + 20 * b1(g, x, y + 1) - 5 * b1(
        g,
        x,
        y + 2,
    ) + b1(g, x, y + 3)
}

/// A half sample from its unclipped value (Eqs. 8-243, 8-244).
pub open spec fn half_sample(v: int) -> u8 {
    clip_u8((v + 16) / 32)
}

/// The centre half sample from `j1` (Eq. 8-247).
pub open spec fn centre_sample(v: int) -> u8 {
    clip_u8((v + 512) / 1024)
}

/// The average of two samples, rounded up (Eqs. 8-250 to 8-261).
pub open spec fn avg_up(a: int, b: int) -> u8 {
    ((a + b + 1) / 2) as u8
}

/// Table 8-12 / Eqs. 8-241 to 8-261: the luma prediction sample at
/// fractional offset (`xf`, `yf`) quarter samples right of and below
/// integer sample (`x`, `y`) of `g`.
pub open spec fn luma_pel(g: Grid, x: int, y: int, xf: int, yf: int) -> u8 {
    let gg = g(x, y);
    let b = half_sample(b1(g, x, y)) as int;
    let h = half_sample(h1(g, x, y)) as int;
    let j = centre_sample(j1(g, x, y)) as int;
    let s = half_sample(b1(g, x, y + 1)) as int;
    let m = half_sample(h1(g, x + 1, y)) as int;
    if xf == 0 && yf == 0 {
        gg as u8
    } else if xf == 0 && yf == 1 {
        avg_up(gg, h)
    } else if xf == 0 && yf == 2 {
        h as u8
    } else if xf == 0 && yf == 3 {
        avg_up(g(x, y + 1), h)
    } else if xf == 1 && yf == 0 {
        avg_up(gg, b)
    } else if xf == 2 && yf == 0 {
        b as u8
    } else if xf == 3 && yf == 0 {
        avg_up(g(x + 1, y), b)
    } else if xf == 1 && yf == 1 {
        avg_up(b, h)
    } else if xf == 3 && yf == 1 {
        avg_up(b, m)
    } else if xf == 1 && yf == 3 {
        avg_up(h, s)
    } else if xf == 3 && yf == 3 {
        avg_up(m, s)
    } else if xf == 2 && yf == 2 {
        j as u8
    } else if xf == 2 && yf == 1 {
        avg_up(b, j)
    } else if xf == 2 && yf == 3 {
        avg_up(j, s)
    } else if xf == 1 && yf == 2 {
        avg_up(h, j)
    } else {
        avg_up(j, m)
    }
}

/// Eq. 8-270: the chroma prediction sample at fractional offset (`xf`,
/// `yf`) eighth samples right of and below integer sample (`x`, `y`) of
/// `g`.
pub open spec fn chroma_pel(g: Grid, x: int, y: int, xf: int, yf: int) -> u8 {
    (((8 - xf) * (8 - yf) * g(x, y) + xf * (8 - yf) * g(x + 1, y) + (8 - xf) * yf * g(x, y + 1)
        + xf * yf * g(x + 1, y + 1) + 32) / 64) as u8
}

/// The integer samples of a reference picture: picture samples, with
/// coordinates outside the picture clamped to its edge (Eqs. 8-228, 8-229
/// and 8-264, 8-265).
pub open spec fn ref_grid(p: Plane) -> Grid {
    |x: int, y: int| p.clamped(x, y)
}

/// The interpolation window: row `r`, column `c` of a 21x21 buffer.
pub open spec fn buf_grid(buf: Seq<u8>) -> Grid {
    |x: int, y: int| buf[y * 21 + x] as int
}

/// Buffer for the integer samples around a luma block, with 2 samples of
/// padding on the top/left and 3 on the bottom/right: room for a 16x16
/// block and the 6-tap filter's reach.
pub struct InterpolationBuffer {
    pub data: Vec<u8>,
}

impl InterpolationBuffer {
    /// The buffer holds 21x21 samples.
    pub open spec fn wf(&self) -> bool {
        self.data@.len() == 441
    }

    /// A zeroed 21x21 buffer.
    pub fn new() -> (b: Self)
        ensures
            b.wf(),
            b.data@ == Seq::new(441, |i: int| 0u8),
    {
        let data = vec![0u8; 441];
        assert(data@ =~= Seq::new(441, |i: int| 0u8));
        InterpolationBuffer { data }
    }
}

/// How two predictions combine into one (Section 8.4.2.3).
#[derive(Clone, Copy)]
pub enum Combine {
    /// Default weighted prediction: the average rounded up (Eq. 8-273).
    Average,
    /// Explicit or implicit weighted bi-prediction (Eq. 8-276).
    Weighted(WeightParams),
}

/// The sample that `mode` makes of `a` and `b`.
pub open spec fn spec_combine(mode: Combine, a: int, b: int) -> u8 {
    match mode {
        Combine::Average => avg_up(a, b),
        Combine::Weighted(wp) => spec_weighted_bi(a, b, wp),
    }
}

/// Where the samples of a predicted rectangle come from; row `r`, column
/// `c` of the rectangle.
#[derive(Clone, Copy)]
pub enum SampleSource<'a> {
    /// Two predictions with rows `stride` apart, combined by `mode`.
    Combine { l0: &'a [u8], l1: &'a [u8], stride: usize, mode: Combine },
    /// A luma block at quarter-sample offset (`x_frac`, `y_frac`), from an
    /// interpolation window whose sample (2, 2) is the block's top-left
    /// integer sample.
    LumaWindow { buf: &'a Vec<u8>, x_frac: u8, y_frac: u8 },
    /// Integer samples from (`x`, `y`) of a reference plane, clamped to it.
    Reference { plane: Plane<'a>, x: i32, y: i32 },
    /// A chroma block whose samples and weighted neighbours all lie inside
    /// the picture: `src` starts at its top-left sample, rows `stride`
    /// apart, fractions in eighths.
    ChromaInside { src: &'a [u8], stride: usize, x_frac: u16, y_frac: u16 },
    /// A chroma block from (`x`, `y`) of a reference plane at fractional
    /// offset (`x_frac`, `y_frac`), coordinates clamped to the plane.
    ChromaClamped { plane: Plane<'a>, x: i32, y: i32, xf: i16, yf: i16 },
}

/// The value of sample (`r`, `c`) of a `ChromaInside` source.
pub open spec fn chroma_inside_value(src: Seq<u8>, stride: int, xf: int, yf: int, r: int, c: int) -> u8 {
    let s00 = at2(src, stride, r, c) as int;
    if xf == 0 && yf == 0 {
        s00 as u8
    } else if yf == 0 {
        (((8 - xf) * s00 + xf * at2(src, stride, r, c + 1) + 4) / 8) as u8
    } else if xf == 0 {
        (((8 - yf) * s00 + yf * at2(src, stride, r + 1, c) + 4) / 8) as u8
    } else {
        (((8 - xf) * (8 - yf) * s00 + xf * (8 - yf) * at2(src, stride, r, c + 1) + (8 - xf) * yf
            * at2(src, stride, r + 1, c) + xf * yf * at2(src, stride, r + 1, c + 1) + 32) / 64) as u8
    }
}

/// Sample (`r`, `c`) of the rectangle that `src` describes.
pub open spec fn source_value(src: SampleSource, r: int, c: int) -> u8 {
    match src {
        SampleSource::Combine { l0, l1, stride, mode } => spec_combine(
            mode,
            at2(l0@, stride as int, r, c) as int,
            at2(l1@, stride as int, r, c) as int,
        ),
        SampleSource::LumaWindow { buf, x_frac, y_frac } => luma_pel(
            buf_grid(buf@),
            c + 2,
            r + 2,
            x_frac as int,
            y_frac as int,
        ),
        SampleSource::Reference { plane, x, y } => plane.clamped(x + c, y + r) as u8,
        SampleSource::ChromaInside { src, stride, x_frac, y_frac } => chroma_inside_value(
            src@,
            stride as int,
            x_frac as int,
            y_frac as int,
            r,
            c,
        ),
        SampleSource::ChromaClamped { plane, x, y, xf, yf } => chroma_pel(
            ref_grid(plane),
            x + c,
            y + r,
            xf as int,
            yf as int,
        ),
    }
}

/// Coordinates fit comfortably in an `i32`.
pub open spec fn small_coord(v: int) -> bool {
    -0x1000_0000 <= v <= 0x7fff_fe00
}

/// `src` can produce every sample of a `w` x `h` rectangle.
pub open spec fn source_ok(src: SampleSource, w: int, h: int) -> bool {
    match src {
        SampleSource::Combine { l0, l1, stride, mode } => {
            &&& rect_fits(l0@.len() as int, stride as int, w, h)
            &&& rect_fits(l1@.len() as int, stride as int, w, h)
            &&& (mode matches Combine::Weighted(wp) ==> bi_weights_fit(wp))
        },
        SampleSource::LumaWindow { buf, x_frac, y_frac } => {
            &&& buf@.len() == 441
            &&& w + 5 <= 21
            &&& h + 5 <= 21
            &&& x_frac < 4
            &&& y_frac < 4
        },
        SampleSource::Reference { plane, x, y } => {
            &&& plane.wf()
            &&& plane.cfg.width <= 0x1000_0000
            &&& plane.cfg.height <= 0x1000_0000
            &&& small_coord(x as int)
            &&& small_coord(y as int)
            &&& w <= 0x100
            &&& h <= 0x100
        },
        SampleSource::ChromaInside { src, stride, x_frac, y_frac } => {
            &&& x_frac < 8
            &&& y_frac < 8
            &&& w > 0
            &&& h > 0
            &&& (h - 1 + if y_frac != 0 { 1int } else { 0 }) * stride + w + (if x_frac != 0 { 1int } else { 0 }) <= src@.len()
        },
        SampleSource::ChromaClamped { plane, x, y, xf, yf } => {
            &&& plane.wf()
            &&& plane.cfg.width <= 0x1000_0000
            &&& plane.cfg.height <= 0x1000_0000
            &&& small_coord(x as int)
            &&& small_coord(y as int)
            &&& 0 <= xf < 8
            &&& 0 <= yf < 8
            &&& w <= 0x100
            &&& h <= 0x100
        },
    }
}

/// Integer sample (`x`, `y`) of `plane`, coordinates clamped to the
/// picture.
fn clamped_sample(plane: &Plane, x: i32, y: i32) -> (v: u8)
    requires
        plane.wf(),
        plane.cfg.width <= 0x1000_0000,
        plane.cfg.height <= 0x1000_0000,
    ensures
        v as int == plane.clamped(x as int, y as int),
{
    let w = plane.cfg.width as i32;
    let h = plane.cfg.height as i32;
    let cx = if x < 0 { 0 } else if x > w - 1 { w - 1 } else { x };
    let cy = if y < 0 { 0 } else if y > h - 1 { h - 1 } else { y };
    plane.at(cx as usize, cy as usize)
}

/// Sample (`r`, `c`) of the window: 0..=255.
fn win(buf: &Vec<u8>, x: usize, y: usize) -> (v: i32)
    requires
        buf@.len() == 441,
        x < 21,
        y < 21,
    ensures
        v == buf_grid(buf@)(x as int, y as int),
        0 <= v <= 255,
{
    buf[y * 21 + x] as i32
}

/// `b1` at window position (`x`, `y`) (needs `x >= 2`, `x + 3 < 21`).
fn win_b1(buf: &Vec<u8>, x: usize, y: usize) -> (v: i32)
    requires
        buf@.len() == 441,
        2 <= x,
        x + 3 < 21,
        y < 21,
    ensures
        v == b1(buf_grid(buf@), x as int, y as int),
        -2550 <= v <= 10710,
{
    win(buf, x - 2, y) - 5 * win(buf, x - 1, y) + 20 * win(buf, x, y) + 20 * win(buf, x + 1, y) - 5
        * win(buf, x + 2, y) + win(buf, x + 3, y)
}

/// `h1` at window position (`x`, `y`) (needs `y >= 2`, `y + 3 < 21`).
fn win_h1(buf: &Vec<u8>, x: usize, y: usize) -> (v: i32)
    requires
        buf@.len() == 441,
        x < 21,
        2 <= y,
        y + 3 < 21,
    ensures
        v == h1(buf_grid(buf@), x as int, y as int),
        -2550 <= v <= 10710,
{
    win(buf, x, y - 2) - 5 * win(buf, x, y - 1) + 20 * win(buf, x, y) + 20 * win(buf, x, y + 1) - 5
        * win(buf, x, y + 2) + win(buf, x, y + 3)
}

/// `j1` at window position (`x`, `y`).
fn win_j1(buf: &Vec<u8>, x: usize, y: usize) -> (v: i32)
    requires
        buf@.len() == 441,
        2 <= x,
        x + 3 < 21,
        2 <= y,
        y + 3 < 21,
    ensures
        v == j1(buf_grid(buf@), x as int, y as int),
        -2550 * 42 - 10710 * 10 <= v <= 10710 * 42 + 2550 * 10,
{
    win_b1(buf, x, y - 2) - 5 * win_b1(buf, x, y - 1) + 20 * win_b1(buf, x, y) + 20 * win_b1(
        buf,
        x,
        y + 1,
    ) - 5 * win_b1(buf, x, y + 2) + win_b1(buf, x, y + 3)
}

/// Eqs. 8-243 / 8-244: a half sample from its unclipped value.
fn half_pel(v: i32) -> (s: i32)
    requires
        -0x100_0000 <= v <= 0x100_0000,
    ensures
        s == half_sample(v as int) as int,
        0 <= s <= 255,
{
    let t = v + 16;
    proof {
        lemma_i32_shr(t, 5);
        assert(vstd::arithmetic::power2::pow2(5) == 32) by {
            vstd::arithmetic::power2::lemma2_to64();
        }
    }
    clip1(t >> 5u32) as i32
}

/// Eq. 8-247: the centre half sample from `j1`.
fn centre_pel(v: i32) -> (s: i32)
    requires
        -0x100_0000 <= v <= 0x100_0000,
    ensures
        s == centre_sample(v as int) as int,
        0 <= s <= 255,
{
    let t = v + 512;
    proof {
        lemma_i32_shr(t, 10);
        assert(vstd::arithmetic::power2::pow2(10) == 1024) by {
            vstd::arithmetic::power2::lemma2_to64();
        }
    }
    clip1(t >> 10u32) as i32
}

/// The average of two samples rounded up.
fn avg_pel(a: i32, b: i32) -> (s: u8)
    requires
        0 <= a <= 255,
        0 <= b <= 255,
    ensures
        s == avg_up(a as int, b as int),
{
    ((a + b + 1) / 2) as u8
}

/// Table 8-12: the luma sample at quarter-sample offset (`xf`, `yf`) from
/// window position (`x`, `y`).
fn luma_window_pel(buf: &Vec<u8>, x: usize, y: usize, xf: u8, yf: u8) -> (v: u8)
    requires
        buf@.len() == 441,
        2 <= x,
        x + 3 < 21,
        2 <= y,
        y + 3 < 21,
        xf < 4,
        yf < 4,
    ensures
        v == luma_pel(buf_grid(buf@), x as int, y as int, xf as int, yf as int),
{
    let g = win(buf, x, y);
    if xf == 0 && yf == 0 {
        return g as u8;
    }
    if xf == 0 {
        let h = half_pel(win_h1(buf, x, y));
        return if yf == 1 {
            avg_pel(g, h)
        } else if yf == 2 {
            h as u8
        } else {
            avg_pel(win(buf, x, y + 1), h)
        };
    }
    if yf == 0 {
        let b = half_pel(win_b1(buf, x, y));
        return if xf == 1 {
            avg_pel(g, b)
        } else if xf == 2 {
            b as u8
        } else {
            avg_pel(win(buf, x + 1, y), b)
        };
    }
    if xf == 2 || yf == 2 {
        let j = centre_pel(win_j1(buf, x, y));
        if xf == 2 && yf == 2 {
            return j as u8;
        } else if xf == 2 && yf == 1 {
            return avg_pel(half_pel(win_b1(buf, x, y)), j);
        } else if xf == 2 {
            return avg_pel(j, half_pel(win_b1(buf, x, y + 1)));
        } else if xf == 1 {
            return avg_pel(half_pel(win_h1(buf, x, y)), j);
        } else {
            return avg_pel(j, half_pel(win_h1(buf, x + 1, y)));
        }
    }
    // The diagonal quarter positions e, g, p, r.
    let b_or_s = if yf == 1 {
        half_pel(win_b1(buf, x, y))
    } else {
        half_pel(win_b1(buf, x, y + 1))
    };
    let h_or_m = if xf == 1 {
        half_pel(win_h1(buf, x, y))
    } else {
        half_pel(win_h1(buf, x + 1, y))
    };
    if yf == 1 {
        avg_pel(b_or_s, h_or_m)
    } else {
        avg_pel(h_or_m, b_or_s)
    }
}

/// A value that fits in a byte.
fn low_byte(value: u16) -> (b: u8)
    ensures
        b == if value <= 255 { value } else { 255 },
{
    if value <= 255 {
        value as u8
    } else {
        255
    }
}

/// Sample (`r`, `c`) of two predictions with rows `stride` apart, combined
/// by `mode`.
fn combine_sample(
    l0: &[u8],
    l1: &[u8],
    stride: usize,
    mode: Combine,
    w: usize,
    h: usize,
    r: usize,
    c: usize,
) -> (v: u8)
    requires
        rect_fits(l0@.len() as int, stride as int, w as int, h as int),
        rect_fits(l1@.len() as int, stride as int, w as int, h as int),
        mode matches Combine::Weighted(wp) ==> bi_weights_fit(wp),
        r < h,
        c < w,
    ensures
        v == spec_combine(
            mode,
            at2(l0@, stride as int, r as int, c as int) as int,
            at2(l1@, stride as int, r as int, c as int) as int,
        ),
{
    proof {
        lemma_rect_index(l0@.len() as int, stride as int, w as int, h as int, r as int, c as int);
        lemma_rect_index(l1@.len() as int, stride as int, w as int, h as int, r as int, c as int);
    }
    let n0 = l0.len();
    let i = r * stride + c;
    let a = l0[i];
    let b = l1[i];
    match mode {
        Combine::Average => avg_pel(a as i32, b as i32),
        Combine::Weighted(wp) => {
            assert(bi_pred_fits(a as int, b as int, wp));
            weighted_bi_pred(a, b, &wp)
        },
    }
}

/// Sample (`r`, `c`) of a chroma block lying inside the picture, `data`
/// starting at its top-left sample.
fn chroma_inside_sample(
    data: &[u8],
    stride: usize,
    x_frac: u16,
    y_frac: u16,
    w: usize,
    h: usize,
    r: usize,
    c: usize,
) -> (v: u8)
    requires
        x_frac < 8,
        y_frac < 8,
        (h - 1 + if y_frac != 0 { 1int } else { 0 }) * stride + w + (if x_frac != 0 { 1int } else { 0 })
            <= data@.len(),
        r < h,
        c < w,
    ensures
        v == chroma_inside_value(data@, stride as int, x_frac as int, y_frac as int, r as int, c as int),
{
    let s = stride;
    let (xf, yf) = (x_frac, y_frac);
    let ghost dy: int = if yf != 0 { 1 } else { 0 };
    let ghost dx: int = if xf != 0 { 1 } else { 0 };
    assert(r * s + c + dy * s + dx < data@.len()) by (nonlinear_arith)
        requires
            r < h,
            c < w,
            (h - 1 + dy) * s + w + dx <= data@.len(),
            0 <= dy <= 1,
            0 <= dx,
    ;
    let n = data.len();
    assert(r * s + c < n);
    let i = r * s + c;
    assert((r + 1) * s == r * s + s) by (nonlinear_arith);
    let s00 = data[i] as u16;
    if xf == 0 && yf == 0 {
        s00 as u8
    } else if yf == 0 {
        let s01 = data[i + 1] as u16;
        let xa = 8 - xf;
        assert(xa * s00 + xf * s01 <= 8 * 255) by (nonlinear_arith)
            requires
                xa + xf == 8,
                s00 <= 255,
                s01 <= 255,
        ;
        low_byte((xa * s00 + xf * s01 + 4) / 8)
    } else if xf == 0 {
        let s10 = data[i + s] as u16;
        let ya = 8 - yf;
        assert(ya * s00 + yf * s10 <= 8 * 255) by (nonlinear_arith)
            requires
                ya + yf == 8,
                s00 <= 255,
                s10 <= 255,
        ;
        low_byte((ya * s00 + yf * s10 + 4) / 8)
    } else {
        let s01 = data[i + 1] as u16;
        let s10 = data[i + s] as u16;
        let s11 = data[i + s + 1] as u16;
        let (xa, xb, ya, yb) = (8 - xf, xf, 8 - yf, yf);
        assert(xa * ya <= 64 && xb * ya <= 64 && xa * yb <= 64 && xb * yb <= 64
            && xa * ya + xb * ya + xa * yb + xb * yb == 64) by (nonlinear_arith)
            requires
                xa + xb == 8,
                ya + yb == 8,
                xa <= 8,
                xb <= 8,
                ya <= 8,
                yb <= 8,
        ;
        let (w00, w10, w01, w11) = (xa * ya, xb * ya, xa * yb, xb * yb);
        assert(w00 * s00 + w10 * s01 + w01 * s10 + w11 * s11 <= 64 * 255) by (nonlinear_arith)
            requires
                w00 + w10 + w01 + w11 == 64,
                s00 <= 255,
                s01 <= 255,
                s10 <= 255,
                s11 <= 255,
        ;
        let top = w00 * s00 + w10 * s01;
        let bottom = w01 * s10 + w11 * s11;
        low_byte((top + bottom + 32) / 64)
    }
}

/// Sample (`r`, `c`) of a chroma block from (`x`, `y`) of `plane` at
/// fractional offset (`xf`, `yf`), coordinates clamped to the plane.
fn chroma_clamped_sample(plane: &Plane, x: i32, y: i32, xf: i16, yf: i16, r: usize, c: usize) -> (v: u8)
    requires
        plane.wf(),
        plane.cfg.width <= 0x1000_0000,
        plane.cfg.height <= 0x1000_0000,
        small_coord(x as int),
        small_coord(y as int),
        0 <= xf < 8,
        0 <= yf < 8,
        r <= 0x100,
        c <= 0x100,
    ensures
        v == chroma_pel(ref_grid(*plane), x + c, y + r, xf as int, yf as int),
{
    let (xf, yf) = (xf as i32, yf as i32);
    assert(0 <= (8 - xf) * (8 - yf) <= 64 && 0 <= xf * (8 - yf) <= 64 && 0 <= (8 - xf) * yf <= 64
        && 0 <= xf * yf <= 64) by (nonlinear_arith)
        requires
            0 <= xf < 8,
            0 <= yf < 8,
    ;
    let xx = x + c as i32;
    let yy = y + r as i32;
    let a = clamped_sample(plane, xx, yy) as i32;
    let b = clamped_sample(plane, xx + 1, yy) as i32;
    let cc = clamped_sample(plane, xx, yy + 1) as i32;
    let d = clamped_sample(plane, xx + 1, yy + 1) as i32;
    let w00 = (8 - xf) * (8 - yf);
    let w10 = xf * (8 - yf);
    let w01 = (8 - xf) * yf;
    let w11 = xf * yf;
    assert(0 <= w00 * a + w10 * b + w01 * cc + w11 * d <= 64 * 255) by (nonlinear_arith)
        requires
            0 <= xf < 8,
            0 <= yf < 8,
            0 <= a <= 255,
            0 <= b <= 255,
            0 <= cc <= 255,
            0 <= d <= 255,
            w00 == (8 - xf) * (8 - yf),
            w10 == xf * (8 - yf),
            w01 == (8 - xf) * yf,
            w11 == xf * yf,
    ;
    ((w00 * a + w10 * b + w01 * cc + w11 * d + 32) / 64) as u8
}

/// Sample (`r`, `c`) of the rectangle that `src` describes.
fn source_sample(src: SampleSource, w: usize, h: usize, r: usize, c: usize) -> (v: u8)
    requires
        source_ok(src, w as int, h as int),
        r < h,
        c < w,
    ensures
        v == source_value(src, r as int, c as int),
{
    match src {
        SampleSource::LumaWindow { buf, x_frac, y_frac } => {
            luma_window_pel(buf, c + 2, r + 2, x_frac, y_frac)
        },
        SampleSource::Reference { plane, x, y } => {
            clamped_sample(&plane, x + c as i32, y + r as i32)
        },
        SampleSource::ChromaInside { src: data, stride, x_frac, y_frac } => {
            chroma_inside_sample(data, stride, x_frac, y_frac, w, h, r, c)
        },
        SampleSource::ChromaClamped { plane, x, y, xf, yf } => {
            chroma_clamped_sample(&plane, x, y, xf, yf, r, c)
        },
        SampleSource::Combine { l0, l1, stride, mode } => {
            let v = combine_sample(l0, l1, stride, mode, w, h, r, c);
            assert(v == source_value(src, r as int, c as int));
            v
        },
    }
}

/// Writes the `w` x `h` rectangle that `src` describes to the start of
/// `dst`, rows `stride` apart.
fn write_rect(dst: &mut [u8], stride: usize, w: usize, h: usize, src: SampleSource)
    requires
        source_ok(src, w as int, h as int),
        w <= stride,
        rect_fits(old(dst)@.len() as int, stride as int, w as int, h as int),
    ensures
        rect_replaced(
            final(dst)@,
            old(dst)@,
            stride as int,
            w as int,
            h as int,
            |r: int, c: int| source_value(src, r, c),
        ),
{
    let ghost orig = dst@;
    let len = dst.len();
    let mut r: usize = 0;
    while r < h
        invariant
            len == dst@.len() == orig.len(),
            source_ok(src, w as int, h as int),
            w <= stride,
            rect_fits(len as int, stride as int, w as int, h as int),
            r <= h,
            forall|rr: int, cc: int|
                0 <= rr < r && 0 <= cc < w ==> #[trigger] at2(dst@, stride as int, rr, cc)
                    == source_value(src, rr, cc),
            forall|rr: int, cc: int|
                0 <= rr && 0 <= cc < stride && rr * stride + cc < len && !(rr < r && cc < w)
                    ==> #[trigger] at2(dst@, stride as int, rr, cc) == at2(orig, stride as int, rr, cc),
        decreases h - r,
    {
        let mut c: usize = 0;
        while c < w
            invariant
                len == dst@.len() == orig.len(),
                source_ok(src, w as int, h as int),
                w <= stride,
                rect_fits(len as int, stride as int, w as int, h as int),
                r < h,
                c <= w,
                forall|rr: int, cc: int|
                    0 <= rr < r && 0 <= cc < w ==> #[trigger] at2(dst@, stride as int, rr, cc)
                        == source_value(src, rr, cc),
                forall|cc: int|
                    0 <= cc < c ==> #[trigger] at2(dst@, stride as int, r as int, cc)
                        == source_value(src, r as int, cc),
                forall|rr: int, cc: int|
                    0 <= rr && 0 <= cc < stride && rr * stride + cc < len && !(rr < r && cc < w)
                        && !(rr == r && cc < c) ==> #[trigger] at2(dst@, stride as int, rr, cc)
                        == at2(orig, stride as int, rr, cc),
            decreases w - c,
        {
            proof {
                lemma_rect_index(len as int, stride as int, w as int, h as int, r as int, c as int);
            }
            let v = source_sample(src, w, h, r, c);
            let i = r * stride + c;
            let ghost before = dst@;
            dst[i] = v;
            proof {
                assert(at2(dst@, stride as int, r as int, c as int) == v);
                assert forall|rr: int, cc: int|
                    0 <= rr && 0 <= cc < stride && rr * stride + cc < len && (rr != r || cc != c)
                    implies #[trigger] at2(dst@, stride as int, rr, cc) == at2(before, stride as int, rr, cc) by {
                    lemma_rc_distinct(stride as int, rr, cc, r as int, c as int);
                }
                assert forall|rr: int, cc: int|
                    0 <= rr < r && 0 <= cc < w implies #[trigger] at2(dst@, stride as int, rr, cc)
                        == source_value(src, rr, cc) by {
                    lemma_rect_index(len as int, stride as int, w as int, h as int, rr, cc);
                    lemma_rc_distinct(stride as int, rr, cc, r as int, c as int);
                }
            }
            c = c + 1;
        }
        r = r + 1;
    }
}

/// A motion vector component split into whole samples and a fraction of
/// `1/4` (`k == 2`) or `1/8` (`k == 3`) sample: `v >> k` and
/// `v & (2^k - 1)`.
fn split_mv(v: i16, k: u32) -> (res: (i32, i32))
    requires
        k == 2 || k == 3,
    ensures
        k == 2 ==> res.0 == (v as int) / 4 && res.1 == (v as int) % 4,
        k == 3 ==> res.0 == (v as int) / 8 && res.1 == (v as int) % 8,
{
    let vi = v as i32;
    proof {
        lemma_i32_shr(vi, k);
        vstd::arithmetic::power2::lemma2_to64();
    }
    let q = vi >> k;
    if k == 2 {
        proof {
            vstd::arithmetic::div_mod::lemma_fundamental_div_mod(vi as int, 4);
        }
        (q, vi - q * 4)
    } else {
        proof {
            vstd::arithmetic::div_mod::lemma_fundamental_div_mod(vi as int, 8);
        }
        (q, vi - q * 8)
    }
}

/// A reference plane whose geometry the interpolation arithmetic handles in
/// `i32`.
pub open spec fn ref_plane_ok(p: Plane) -> bool {
    &&& p.wf()
    &&& p.cfg.width <= 0x1000_0000
    &&& p.cfg.height <= 0x1000_0000
}

/// Luma prediction blocks are 4, 8, 12 or 16 samples wide and high.
pub open spec fn luma_block_dim(n: int) -> bool {
    n == 4 || n == 8 || n == 12 || n == 16
}

/// Sections 8.4.2.2 and 8.4.2.2.1 (Eqs. 8-228 to 8-231, Table 8-12):
/// sample (`r`, `c`) of the luma prediction of the block at (`blk_x`,
/// `blk_y`) of the macroblock at (`mb_x`, `mb_y`), displaced by the
/// quarter-sample motion vector `mv`.
pub open spec fn luma_pred_sample(
    plane: Plane,
    mb_x: int,
    mb_y: int,
    blk_x: int,
    blk_y: int,
    mv: MotionVector,
    r: int,
    c: int,
) -> u8 {
    luma_pel(
        ref_grid(plane),
        mb_x + blk_x + (mv.x as int) / 4 + c,
        mb_y + blk_y + (mv.y as int) / 4 + r,
        (mv.x as int) % 4,
        (mv.y as int) % 4,
    )
}

/// The luma prediction sample depends only on the 6x6 integer samples
/// around it: two grids that agree there (up to a translation) give the
/// same sample.
pub proof fn lemma_luma_pel_window(
    g1: Grid,
    g2: Grid,
    x1: int,
    y1: int,
    x2: int,
    y2: int,
    xf: int,
    yf: int,
)
    requires
        forall|x: int, y: int|
            x1 - 2 <= x <= x1 + 3 && y1 - 2 <= y <= y1 + 3 ==> #[trigger] g1(x, y) == g2(
                x - x1 + x2,
                y - y1 + y2,
            ),
    ensures
        luma_pel(g1, x1, y1, xf, yf) == luma_pel(g2, x2, y2, xf, yf),
{
    assert forall|j: int| -2 <= j <= 3 implies #[trigger] b1(g1, x1, y1 + j) == b1(g2, x2, y2 + j) by {
        assert(g1(x1 - 2, y1 + j) == g2(x2 - 2, y2 + j));
        assert(g1(x1 - 1, y1 + j) == g2(x2 - 1, y2 + j));
        assert(g1(x1, y1 + j) == g2(x2, y2 + j));
        assert(g1(x1 + 1, y1 + j) == g2(x2 + 1, y2 + j));
        assert(g1(x1 + 2, y1 + j) == g2(x2 + 2, y2 + j));
        assert(g1(x1 + 3, y1 + j) == g2(x2 + 3, y2 + j));
    }
    assert forall|i: int| 0 <= i <= 1 implies #[trigger] h1(g1, x1 + i, y1) == h1(g2, x2 + i, y2) by {
        assert(g1(x1 + i, y1 - 2) == g2(x2 + i, y2 - 2));
        assert(g1(x1 + i, y1 - 1) == g2(x2 + i, y2 - 1));
        assert(g1(x1 + i, y1) == g2(x2 + i, y2));
        assert(g1(x1 + i, y1 + 1) == g2(x2 + i, y2 + 1));
        assert(g1(x1 + i, y1 + 2) == g2(x2 + i, y2 + 2));
        assert(g1(x1 + i, y1 + 3) == g2(x2 + i, y2 + 3));
    }
    assert(b1(g1, x1, y1 - 2) == b1(g2, x2, y2 - 2));
    assert(b1(g1, x1, y1 - 1) == b1(g2, x2, y2 - 1));
    assert(b1(g1, x1, y1 + 0) == b1(g2, x2, y2 + 0));
    assert(b1(g1, x1, y1 + 1) == b1(g2, x2, y2 + 1));
    assert(b1(g1, x1, y1 + 2) == b1(g2, x2, y2 + 2));
    assert(b1(g1, x1, y1 + 3) == b1(g2, x2, y2 + 3));
    assert(h1(g1, x1 + 0, y1) == h1(g2, x2 + 0, y2));
    assert(h1(g1, x1 + 1, y1) == h1(g2, x2 + 1, y2));
    assert(j1(g1, x1, y1) == j1(g2, x2, y2));
    assert(g1(x1, y1) == g2(x2, y2));
    assert(g1(x1 + 1, y1) == g2(x2 + 1, y2));
    assert(g1(x1, y1 + 1) == g2(x2, y2 + 1));
}

/// Section 8.4.2.2.1: luma sample interpolation of a `width` x `height`
/// block at (`blk_x`, `blk_y`) of the macroblock at (`mb_x`, `mb_y`) with
/// quarter-sample motion vector `mv`, written to `dst` (rows `dst_stride`
/// apart). Reference samples outside the picture are those of its nearest
/// edge. `buffer` is scratch space for the 6-tap filters.
pub fn interpolate_luma(
    ref_plane: Plane,
    mb_x: u32,
    mb_y: u32,
    blk_x: u8,
    blk_y: u8,
    width: u8,
    height: u8,
    mv: MotionVector,
    dst: &mut [u8],
    dst_stride: usize,
    buffer: &mut InterpolationBuffer,
)
    requires
        ref_plane_ok(ref_plane),
        mb_x as int + blk_x as int <= i32::MAX,
        mb_y as int + blk_y as int <= i32::MAX,
        mb_x as int + blk_x as int + (mv.x as int) / 4 <= 0x7fff_fe00,
        mb_y as int + blk_y as int + (mv.y as int) / 4 <= 0x7fff_fe00,
        luma_block_dim(width as int),
        luma_block_dim(height as int),
        rect_fits(old(dst)@.len() as int, dst_stride as int, width as int, height as int),
        old(buffer).wf(),
    ensures
        final(buffer).wf(),
        rect_replaced(
            final(dst)@,
            old(dst)@,
            dst_stride as int,
            width as int,
            height as int,
            |r: int, c: int|
                luma_pred_sample(
                    ref_plane,
                    mb_x as int,
                    mb_y as int,
                    blk_x as int,
                    blk_y as int,
                    mv,
                    r,
                    c,
                ),
        ),
{
    let (qx, x_frac) = split_mv(mv.x, 2);
    let (qy, y_frac) = split_mv(mv.y, 2);
    let x_int = mb_x as i32 + blk_x as i32 + qx;
    let y_int = mb_y as i32 + blk_y as i32 + qy;
    let w = width as usize;
    let h = height as usize;
    let ghost f = |r: int, c: int|
        luma_pred_sample(ref_plane, mb_x as int, mb_y as int, blk_x as int, blk_y as int, mv, r, c);
    let ghost old_dst = dst@;
    if x_frac == 0 && y_frac == 0 {
        let src = SampleSource::Reference { plane: ref_plane, x: x_int, y: y_int };
        write_rect(dst, dst_stride, w, h, src);
        assert forall|r: int, c: int| 0 <= r < h && 0 <= c < w implies #[trigger] at2(
            dst@,
            dst_stride as int,
            r,
            c,
        ) == f(r, c) by {
            assert(at2(dst@, dst_stride as int, r, c) == source_value(src, r, c));
        }
        return ;
    }
    // The integer samples that the 6-tap filters reach: 2 left of / above
    // the block and 3 right of / below it.
    let ghost before = buffer.data@;
    let win_src = SampleSource::Reference { plane: ref_plane, x: x_int - 2, y: y_int - 2 };
    write_rect(buffer.data.as_mut_slice(), 21, w + 5, h + 5, win_src);
    let src = SampleSource::LumaWindow { buf: &buffer.data, x_frac: x_frac as u8, y_frac: y_frac as u8 };
    write_rect(dst, dst_stride, w, h, src);
    proof {
        let win = buffer.data@;
        assert forall|r: int, c: int| 0 <= r < h && 0 <= c < w implies #[trigger] at2(
            dst@,
            dst_stride as int,
            r,
            c,
        ) == f(r, c) by {
            assert(at2(dst@, dst_stride as int, r, c) == source_value(src, r, c));
            assert forall|x: int, y: int|
                c + 2 - 2 <= x <= c + 2 + 3 && r + 2 - 2 <= y <= r + 2 + 3 implies #[trigger] buf_grid(
                win,
            )(x, y) == ref_grid(ref_plane)(x - (c + 2) + (x_int + c), y - (r + 2) + (y_int + r)) by {
                assert(at2(win, 21, y, x) == source_value(win_src, y, x));
            }
            lemma_luma_pel_window(
                buf_grid(win),
                ref_grid(ref_plane),
                c + 2,
                r + 2,
                x_int + c,
                y_int + r,
                x_frac as int,
                y_frac as int,
            );
        }
    }
}

/// Chroma prediction blocks take the fast path when they are 2, 4, 6 or 8
/// samples wide and high.
pub open spec fn chroma_block_dim(n: int) -> bool {
    n == 2 || n == 4 || n == 6 || n == 8
}

/// Section 8.4.2.2.2 (Eqs. 8-229, 8-230, 8-266 to 8-270, 4:2:0): sample
/// (`r`, `c`) of the chroma prediction of the block at (`blk_x`, `blk_y`)
/// of the chroma macroblock at (`mb_x`, `mb_y`), displaced by the luma
/// motion vector `mv`, whose quarter luma samples are eighth chroma
/// samples.
pub open spec fn chroma_pred_sample(
    plane: Plane,
    mb_x: int,
    mb_y: int,
    blk_x: int,
    blk_y: int,
    mv: MotionVector,
    r: int,
    c: int,
) -> u8 {
    chroma_pel(
        ref_grid(plane),
        mb_x + blk_x + (mv.x as int) / 8 + c,
        mb_y + blk_y + (mv.y as int) / 8 + r,
        (mv.x as int) % 8,
        (mv.y as int) % 8,
    )
}

/// `1` where a fraction is non-zero: the extra column or row of samples
/// that Eq. 8-270 weights.
pub open spec fn reach(frac: int) -> int {
    if frac != 0 {
        1
    } else {
        0
    }
}

/// Where a chroma block and the neighbours that its non-zero fractions
/// weight all lie inside the picture, Eq. 8-270 computed on the plane buffer
/// from the block's top-left sample on (in eighths, as the fast path does)
/// gives the same sample as on the reference picture with clamped
/// coordinates.
pub proof fn lemma_chroma_inside_matches_clamped(
    plane: Plane,
    x: int,
    y: int,
    xf: int,
    yf: int,
    w: int,
    h: int,
    r: int,
    c: int,
)
    requires
        plane.wf(),
        0 <= xf < 8,
        0 <= yf < 8,
        0 <= x,
        x + w + reach(xf) <= plane.cfg.width,
        0 <= y,
        y + h + reach(yf) <= plane.cfg.height,
        0 <= r < h,
        0 <= c < w,
    ensures
        chroma_inside_value(
            plane.data@.subrange(plane.cfg.index_of(x, y), plane.data@.len() as int),
            plane.cfg.stride as int,
            xf,
            yf,
            r,
            c,
        ) == chroma_pel(ref_grid(plane), x + c, y + r, xf, yf),
{
    let cfg = plane.cfg;
    let s = cfg.stride as int;
    let base = cfg.index_of(x, y);
    let src = plane.data@.subrange(base, plane.data@.len() as int);
    let g = ref_grid(plane);
    lemma_plane_index(cfg, x, y);
    // Each sample read from the buffer is the picture sample there.
    assert forall|i: int, j: int|
        0 <= i <= reach(xf) && 0 <= j <= reach(yf) implies #[trigger] at2(src, s, r + j, c + i)
        as int == g(x + c + i, y + r + j) by {
        lemma_plane_index(cfg, x + c + i, y + r + j);
        assert((r + j) * s + (c + i) + base == cfg.index_of(x + c + i, y + r + j)) by (nonlinear_arith)
            requires
                base == cfg.index_of(x, y),
                s == cfg.stride,
        ;
    }
    let s00 = at2(src, s, r, c) as int;
    assert(s00 == g(x + c, y + r)) by {
        assert(at2(src, s, r + 0, c + 0) as int == g(x + c + 0, y + r + 0));
    }
    if xf == 0 && yf == 0 {
        assert(((8 - xf) * (8 - yf) * g(x + c, y + r) + xf * (8 - yf) * g(x + c + 1, y + r) + (8 - xf)
            * yf * g(x + c, y + r + 1) + xf * yf * g(x + c + 1, y + r + 1) + 32) / 64 == s00)
            by (nonlinear_arith)
            requires
                xf == 0,
                yf == 0,
                s00 == g(x + c, y + r),
        ;
    } else if yf == 0 {
        let s01 = at2(src, s, r, c + 1) as int;
        assert(s01 == g(x + c + 1, y + r)) by {
            assert(at2(src, s, r + 0, c + 1) as int == g(x + c + 1, y + r + 0));
        }
        let a = (8 - xf) * s00 + xf * s01;
        assert(a >= 0) by (nonlinear_arith)
            requires
                a == (8 - xf) * s00 + xf * s01,
                0 <= xf < 8,
                0 <= s00,
                0 <= s01,
        ;
        assert((8 - xf) * (8 - yf) * g(x + c, y + r) + xf * (8 - yf) * g(x + c + 1, y + r) + (8 - xf)
            * yf * g(x + c, y + r + 1) + xf * yf * g(x + c + 1, y + r + 1) + 32 == 8 * (a + 4))
            by (nonlinear_arith)
            requires
                yf == 0,
                s00 == g(x + c, y + r),
                s01 == g(x + c + 1, y + r),
                a == (8 - xf) * s00 + xf * s01,
        ;
        vstd::arithmetic::div_mod::lemma_div_denominator(8 * (a + 4), 8, 8);
        vstd::arithmetic::div_mod::lemma_div_multiples_vanish(a + 4, 8);
    } else if xf == 0 {
        let s10 = at2(src, s, r + 1, c) as int;
        assert(s10 == g(x + c, y + r + 1)) by {
            assert(at2(src, s, r + 1, c + 0) as int == g(x + c + 0, y + r + 1));
        }
        let a = (8 - yf) * s00 + yf * s10;
        assert(a >= 0) by (nonlinear_arith)
            requires
                a == (8 - yf) * s00 + yf * s10,
                0 <= yf < 8,
                0 <= s00,
                0 <= s10,
        ;
        assert((8 - xf) * (8 - yf) * g(x + c, y + r) + xf * (8 - yf) * g(x + c + 1, y + r) + (8 - xf)
            * yf * g(x + c, y + r + 1) + xf * yf * g(x + c + 1, y + r + 1) + 32 == 8 * (a + 4))
            by (nonlinear_arith)
            requires
                xf == 0,
                s00 == g(x + c, y + r),
                s10 == g(x + c, y + r + 1),
                a == (8 - yf) * s00 + yf * s10,
        ;
        vstd::arithmetic::div_mod::lemma_div_denominator(8 * (a + 4), 8, 8);
        vstd::arithmetic::div_mod::lemma_div_multiples_vanish(a + 4, 8);
    } else {
        assert(at2(src, s, r + 0, c + 1) as int == g(x + c + 1, y + r + 0));
        assert(at2(src, s, r + 1, c + 0) as int == g(x + c + 0, y + r + 1));
        assert(at2(src, s, r + 1, c + 1) as int == g(x + c + 1, y + r + 1));
    }
}

/// Section 8.4.2.2.2: chroma sample interpolation (Eq. 8-270) of a
/// `width` x `height` block whose top-left integer sample is (`x_int`,
/// `y_int`) of `ref_plane`, at fractional offset (`x_frac`, `y_frac`) in
/// eighths. Every sample coordinate is clamped into the picture first, so
/// the block may reach outside it.
pub fn interpolate_chroma_clamped(
    ref_plane: Plane,
    x_int: i32,
    y_int: i32,
    x_frac: i16,
    y_frac: i16,
    width: u8,
    height: u8,
    dst: &mut [u8],
    dst_stride: usize,
)
    requires
        ref_plane_ok(ref_plane),
        small_coord(x_int as int),
        small_coord(y_int as int),
        0 <= x_frac < 8,
        0 <= y_frac < 8,
        rect_fits(old(dst)@.len() as int, dst_stride as int, width as int, height as int),
    ensures
        rect_replaced(
            final(dst)@,
            old(dst)@,
            dst_stride as int,
            width as int,
            height as int,
            |r: int, c: int|
                chroma_pel(ref_grid(ref_plane), x_int + c, y_int + r, x_frac as int, y_frac as int),
        ),
{
    let src = SampleSource::ChromaClamped { plane: ref_plane, x: x_int, y: y_int, xf: x_frac, yf: y_frac };
    write_rect(dst, dst_stride, width as usize, height as usize, src);
    assert forall|r: int, c: int| 0 <= r < height && 0 <= c < width implies #[trigger] at2(
        dst@,
        dst_stride as int,
        r,
        c,
    ) == chroma_pel(ref_grid(ref_plane), x_int + c, y_int + r, x_frac as int, y_frac as int) by {
        assert(at2(dst@, dst_stride as int, r, c) == source_value(src, r, c));
    }
}

/// Section 8.4.2.2.2 (4:2:0): chroma sample interpolation of a `width` x
/// `height` block at (`blk_x`, `blk_y`) of the chroma macroblock at
/// (`mb_x`, `mb_y`), displaced by the luma motion vector `mv`, written to
/// `dst` (rows `dst_stride` apart). Blocks of the usual sizes whose samples
/// lie inside the picture are read straight from the plane; the others go
/// through `interpolate_chroma_clamped`.
pub fn interpolate_chroma(
    ref_plane: Plane,
    mb_x: u32,
    mb_y: u32,
    blk_x: u8,
    blk_y: u8,
    width: u8,
    height: u8,
    mv: MotionVector,
    dst: &mut [u8],
    dst_stride: usize,
)
    requires
        ref_plane_ok(ref_plane),
        mb_x as int + blk_x as int <= i32::MAX,
        mb_y as int + blk_y as int <= i32::MAX,
        mb_x as int + blk_x as int + (mv.x as int) / 8 <= 0x7fff_fe00,
        mb_y as int + blk_y as int + (mv.y as int) / 8 <= 0x7fff_fe00,
        rect_fits(old(dst)@.len() as int, dst_stride as int, width as int, height as int),
    ensures
        rect_replaced(
            final(dst)@,
            old(dst)@,
            dst_stride as int,
            width as int,
            height as int,
            |r: int, c: int|
                chroma_pred_sample(
                    ref_plane,
                    mb_x as int,
                    mb_y as int,
                    blk_x as int,
                    blk_y as int,
                    mv,
                    r,
                    c,
                ),
        ),
{
    let (qx, x_frac) = split_mv(mv.x, 3);
    let (qy, y_frac) = split_mv(mv.y, 3);
    let x_int = mb_x as i32 + blk_x as i32 + qx;
    let y_int = mb_y as i32 + blk_y as i32 + qy;
    let plane_width = ref_plane.cfg.width as i32;
    let plane_height = ref_plane.cfg.height as i32;
    // Eq. 8-270 gives the column right of (row below) the block weight 0
    // when the horizontal (vertical) fraction is 0, so it only has to be
    // inside the picture when its fraction is non-zero.
    let reach_x: i32 = width as i32 + if x_frac != 0 { 1i32 } else { 0 };
    let reach_y: i32 = height as i32 + if y_frac != 0 { 1i32 } else { 0 };
    let sized = (width == 2 || width == 4 || width == 6 || width == 8) && (height == 2 || height
        == 4 || height == 6 || height == 8);
    if sized && x_int >= 0 && x_int + reach_x <= plane_width && y_int >= 0 && y_int + reach_y
        <= plane_height {
        let stride = ref_plane.cfg.stride;
        let base = ref_plane.cfg.index(x_int as usize, y_int as usize);
        let n = ref_plane.data.len();
        let data = vstd::slice::slice_subrange(ref_plane.data, base, n);
        let ghost dx = reach(x_frac as int);
        let ghost dy = reach(y_frac as int);
        proof {
            let cfg = ref_plane.cfg;
            let (xe, ye) = (x_int + width + dx - 1, y_int + height + dy - 1);
            lemma_plane_index(cfg, xe, ye);
            lemma_plane_index(cfg, x_int as int, y_int as int);
            assert((height - 1 + dy) * stride + width + dx + base == cfg.index_of(xe, ye) + 1)
                by (nonlinear_arith)
                requires
                    base == cfg.index_of(x_int as int, y_int as int),
                    stride == cfg.stride,
                    xe == x_int + width + dx - 1,
                    ye == y_int + height + dy - 1,
            ;
        }
        let src = SampleSource::ChromaInside {
            src: data,
            stride,
            x_frac: x_frac as u16,
            y_frac: y_frac as u16,
        };
        write_rect(dst, dst_stride, width as usize, height as usize, src);
        assert forall|r: int, c: int| 0 <= r < height && 0 <= c < width implies #[trigger] at2(
            dst@,
            dst_stride as int,
            r,
            c,
        ) == chroma_pred_sample(
            ref_plane,
            mb_x as int,
            mb_y as int,
            blk_x as int,
            blk_y as int,
            mv,
            r,
            c,
        ) by {
            assert(at2(dst@, dst_stride as int, r, c) == source_value(src, r, c));
            lemma_chroma_inside_matches_clamped(
                ref_plane,
                x_int as int,
                y_int as int,
                x_frac as int,
                y_frac as int,
                width as int,
                height as int,
                r,
                c,
            );
        }
    } else {
        interpolate_chroma_clamped(
            ref_plane,
            x_int,
            y_int,
            x_frac as i16,
            y_frac as i16,
            width,
            height,
            dst,
            dst_stride,
        );
    }
}

/// Section 8.4.2.3.1: default weighted bi-prediction, the average of the
/// two predictions (rows `src_stride` apart) rounded up, written to the
/// rectangle at the start of `dst` (rows `dst_stride` apart).
pub fn average_into(
    dst: &mut [u8],
    dst_stride: usize,
    l0: &[u8],
    l1: &[u8],
    src_stride: usize,
    area: Area,
)
    requires
        rect_fits(old(dst)@.len() as int, dst_stride as int, area.w as int, area.h as int),
        rect_fits(l0@.len() as int, src_stride as int, area.w as int, area.h as int),
        rect_fits(l1@.len() as int, src_stride as int, area.w as int, area.h as int),
    ensures
        rect_replaced(
            final(dst)@,
            old(dst)@,
            dst_stride as int,
            area.w as int,
            area.h as int,
            |r: int, c: int|
                avg_up(at2(l0@, src_stride as int, r, c) as int, at2(l1@, src_stride as int, r, c) as int),
        ),
{
    combine_into(dst, dst_stride, l0, l1, src_stride, area, Combine::Average);
}

/// Section 8.4.2.3.2, Eq. 8-276: bi-prediction of two predictions (rows
/// `src_stride` apart) with the weights `wp`, written to the rectangle at
/// the start of `dst` (rows `dst_stride` apart).
pub fn weight_bi_into(
    dst: &mut [u8],
    dst_stride: usize,
    l0: &[u8],
    l1: &[u8],
    src_stride: usize,
    area: Area,
    wp: &WeightParams,
)
    requires
        rect_fits(old(dst)@.len() as int, dst_stride as int, area.w as int, area.h as int),
        rect_fits(l0@.len() as int, src_stride as int, area.w as int, area.h as int),
        rect_fits(l1@.len() as int, src_stride as int, area.w as int, area.h as int),
        bi_weights_fit(*wp),
    ensures
        rect_replaced(
            final(dst)@,
            old(dst)@,
            dst_stride as int,
            area.w as int,
            area.h as int,
            |r: int, c: int|
                spec_weighted_bi(
                    at2(l0@, src_stride as int, r, c) as int,
                    at2(l1@, src_stride as int, r, c) as int,
                    *wp,
                ),
        ),
{
    combine_into(dst, dst_stride, l0, l1, src_stride, area, Combine::Weighted(*wp));
}

/// Combines two predictions (rows `src_stride` apart) sample by sample with
/// `mode` into the rectangle at the start of `dst` (rows `dst_stride`
/// apart).
pub fn combine_into(
    dst: &mut [u8],
    dst_stride: usize,
    l0: &[u8],
    l1: &[u8],
    src_stride: usize,
    area: Area,
    mode: Combine,
)
    requires
        rect_fits(old(dst)@.len() as int, dst_stride as int, area.w as int, area.h as int),
        rect_fits(l0@.len() as int, src_stride as int, area.w as int, area.h as int),
        rect_fits(l1@.len() as int, src_stride as int, area.w as int, area.h as int),
        mode matches Combine::Weighted(wp) ==> bi_weights_fit(wp),
    ensures
        rect_replaced(
            final(dst)@,
            old(dst)@,
            dst_stride as int,
            area.w as int,
            area.h as int,
            |r: int, c: int|
                spec_combine(
                    mode,
                    at2(l0@, src_stride as int, r, c) as int,
                    at2(l1@, src_stride as int, r, c) as int,
                ),
        ),
{
    let src = SampleSource::Combine { l0, l1, stride: src_stride, mode };
    write_rect(dst, dst_stride, area.w as usize, area.h as usize, src);
}

/// A luma coordinate in samples of `plane`: chroma is 4:2:0, at half the
/// luma position.
pub open spec fn plane_coord(plane: ColorPlane, v: int) -> int {
    if plane == ColorPlane::Y {
        v
    } else {
        v / 2
    }
}

/// Index of the macroblock's top-left sample of `plane` in a plane buffer
/// with rows `stride` apart. Chroma is 4:2:0, at half the luma position.
pub fn mb_origin(plane: ColorPlane, mb_loc: Point, stride: usize) -> (o: usize)
    requires
        plane_coord(plane, mb_loc.y as int) * stride + plane_coord(plane, mb_loc.x as int) <= usize::MAX,
    ensures
        o == plane_coord(plane, mb_loc.y as int) * stride + plane_coord(plane, mb_loc.x as int),
{
    let (x, y) = match plane {
        ColorPlane::Y => (mb_loc.x, mb_loc.y),
        _ => (mb_loc.x / 2, mb_loc.y / 2),
    };
    (y as usize) * stride + (x as usize)
}

/// The fields of a `PartitionInfo` that inter prediction depends on (8.4.2):
/// the lists a cell predicts from, and each list's reference index and
/// motion vector. Cells with equal keys predict identically, so they can
/// share one interpolation call.
#[derive(Clone, Copy, Debug, Default, PartialEq, Eq, Structural)]
pub struct PredKey {
    pub pred_mode: MbPredictionMode,
    pub ref_idx_l0: u8,
    pub mv_l0: MotionVector,
    pub ref_idx_l1: u8,
    pub mv_l1: MotionVector,
}

impl PredKey {
    /// A P macroblock cell: every P cell predicts from L0 alone, so the key
    /// is L0 with its reference index and motion vector, and the L1 fields
    /// zeroed.
    pub fn p(p: &PartitionInfo) -> (k: Self)
        ensures
            k == (PredKey {
                pred_mode: MbPredictionMode::Pred_L0,
                ref_idx_l0: p.ref_idx_l0,
                mv_l0: p.mv_l0,
                ref_idx_l1: 0,
                mv_l1: MotionVector { x: 0, y: 0 },
            }),
    {
        PredKey {
            pred_mode: MbPredictionMode::Pred_L0,
            ref_idx_l0: p.ref_idx_l0,
            mv_l0: p.mv_l0,
            ref_idx_l1: 0,
            mv_l1: MotionVector { x: 0, y: 0 },
        }
    }

    /// A B macroblock cell, on the full key. The motion vector differences
    /// do not affect prediction, so they are left out.
    pub fn b(p: &PartitionInfo) -> (k: Self)
        ensures
            k == (PredKey {
                pred_mode: p.pred_mode,
                ref_idx_l0: p.ref_idx_l0,
                mv_l0: p.mv_l0,
                ref_idx_l1: p.ref_idx_l1,
                mv_l1: p.mv_l1,
            }),
    {
        PredKey {
            pred_mode: p.pred_mode,
            ref_idx_l0: p.ref_idx_l0,
            mv_l0: p.mv_l0,
            ref_idx_l1: p.ref_idx_l1,
            mv_l1: p.mv_l1,
        }
    }
}

/// One rectangular region of a macroblock's 4x4 motion grid whose cells
/// share a `PredKey`. Positions and sizes are in grid cells (a whole
/// macroblock is 4x4 cells).
#[derive(Clone, Copy, Debug, Default, PartialEq, Eq, Structural)]
pub struct PartitionRect {
    pub grid_y: u8,
    pub grid_x: u8,
    pub grid_h: u8,
    pub grid_w: u8,
    pub key: PredKey,
}

impl PartitionRect {
    /// The rectangle lies inside the 4x4 grid and is not empty.
    pub open spec fn wf(self) -> bool {
        &&& 1 <= self.grid_w
        &&& 1 <= self.grid_h
        &&& self.grid_x + self.grid_w <= 4
        &&& self.grid_y + self.grid_h <= 4
    }

    /// The rectangle in samples of `plane`: a grid cell covers 4x4 luma
    /// samples, or 2x2 chroma samples in 4:2:0.
    pub fn area(&self, plane: ColorPlane) -> (a: Area)
        requires
            self.wf(),
        ensures
            ({
                let scale: int = if plane == ColorPlane::Y { 4 } else { 2 };
                &&& a.x == self.grid_x * scale
                &&& a.y == self.grid_y * scale
                &&& a.w == self.grid_w * scale
                &&& a.h == self.grid_h * scale
            }),
    {
        let scale: u8 = if plane == ColorPlane::Y { 4 } else { 2 };
        Area {
            x: self.grid_x * scale,
            y: self.grid_y * scale,
            w: self.grid_w * scale,
            h: self.grid_h * scale,
        }
    }
}

/// What implicit weighting reads of a reference picture: its picture order
/// count and whether it is marked "used for long-term reference".
#[derive(Clone, Copy, Debug, PartialEq, Eq, Structural)]
pub struct RefPicInfo {
    pub poc: i32,
    pub long_term: bool,
}

/// Picture order counts whose differences fit in an `i32`.
pub open spec fn poc_ok(poc: int) -> bool {
    -0x4000_0000 <= poc < 0x4000_0000
}

/// The default implicit weights: `w0 = w1 = 32`, `log_wd = 5`, no offsets.
pub open spec fn default_implicit() -> WeightParams {
    WeightParams { log_wd: 5, w0: 32, o0: 0, w1: 32, o1: 0 }
}

/// Eqs. 8-201, 8-202: `DistScaleFactor` of the references at picture order
/// counts `poc0` and `poc1` (`poc1 != poc0`) for the current picture at
/// `cur`. The division of `tx` truncates towards zero.
pub open spec fn dist_scale_factor(poc0: int, poc1: int, cur: int) -> int {
    let td = clamp(poc1 - poc0, -128, 127);
    let tb = clamp(cur - poc0, -128, 127);
    let n = 16384 + abs(td) / 2;
    let tx = if td > 0 {
        n / td
    } else {
        -(n / -td)
    };
    clamp((tb * tx + 32) / 64, -1024, 1023)
}

/// `|v|`.
pub open spec fn abs(v: int) -> int {
    if v < 0 {
        -v
    } else {
        v
    }
}

/// Section 8.4.2.3.1, Eqs. 8-277 to 8-283: the implicit weights of the
/// reference pair (`l0`, `l1`) for the current picture at `cur`. Long-term
/// references, equal picture order counts and out-of-range scale factors
/// fall back to the default weights.
pub open spec fn spec_implicit_weights(l0: RefPicInfo, l1: RefPicInfo, cur: int) -> WeightParams {
    if l0.long_term || l1.long_term || l1.poc == l0.poc {
        default_implicit()
    } else {
        let w1 = dist_scale_factor(l0.poc as int, l1.poc as int, cur) / 4;
        if w1 < -64 || w1 > 128 {
            default_implicit()
        } else {
            WeightParams { log_wd: 5, w0: (64 - w1) as i32, o0: 0, w1: w1 as i32, o1: 0 }
        }
    }
}

/// Section 8.4.3: implicit weighting parameters of one reference pair from
/// their picture order count distances (Eqs. 8-277 to 8-283).
pub fn get_implicit_weights(ref_pic_l0: &RefPicInfo, ref_pic_l1: &RefPicInfo, current_poc: i32) -> (wp:
    WeightParams)
    requires
        poc_ok(ref_pic_l0.poc as int),
        poc_ok(ref_pic_l1.poc as int),
        poc_ok(current_poc as int),
    ensures
        wp == spec_implicit_weights(*ref_pic_l0, *ref_pic_l1, current_poc as int),
        wp.w0 + wp.w1 == 64,
{
    let default = WeightParams { log_wd: 5, w0: 32, o0: 0, w1: 32, o1: 0 };
    // Eq. 8-280: long-term references get the default weights.
    if ref_pic_l0.long_term || ref_pic_l1.long_term {
        return default;
    }
    let poc_l0 = ref_pic_l0.poc;
    let poc_l1 = ref_pic_l1.poc;
    let diff = poc_l1 - poc_l0;
    if diff == 0 {
        return default;
    }
    let td = if diff < -128 { -128 } else if diff > 127 { 127 } else { diff };
    let d = current_poc - poc_l0;
    let tb = if d < -128 { -128 } else if d > 127 { 127 } else { d };
    let num = 16384 + (if td < 0 { -td } else { td }) / 2;
    proof {
        vstd::arithmetic::div_mod::lemma_div_nonincreasing(num as int, abs(td as int));
        vstd::arithmetic::div_mod::lemma_div_pos_is_pos(num as int, abs(td as int));
    }
    let tx = if td > 0 {
        num / td
    } else {
        -(num / (-td))
    };
    assert(-128 * 16448 <= tb * tx <= 128 * 16448) by (nonlinear_arith)
        requires
            -128 <= tb <= 127,
            -16448 <= tx <= 16448,
    ;
    let scaled = tb * tx + 32;
    proof {
        lemma_i32_shr(scaled, 6);
        vstd::arithmetic::power2::lemma2_to64();
    }
    let s6 = scaled >> 6u32;
    let dsf = if s6 < -1024 { -1024 } else if s6 > 1023 { 1023 } else { s6 };
    proof {
        lemma_i32_shr(dsf, 2);
    }
    let w1 = dsf >> 2u32;
    if w1 < -64 || w1 > 128 {
        return default;
    }
    WeightParams { log_wd: 5, w0: 64 - w1, o0: 0, w1, o1: 0 }
}

/// The implicit weights of every pair of the first 16 entries of two
/// reference picture lists, row `i` for L0 entry `i`: entry `16 * i + j`.
/// Pairs past the end of a list get the default weights.
pub fn build_implicit_weight_table(
    ref_pics_l0: &[RefPicInfo],
    ref_pics_l1: &[RefPicInfo],
    current_poc: i32,
) -> (table: Vec<WeightParams>)
    requires
        forall|i: int| 0 <= i < ref_pics_l0@.len() ==> poc_ok(#[trigger] ref_pics_l0@[i].poc as int),
        forall|i: int| 0 <= i < ref_pics_l1@.len() ==> poc_ok(#[trigger] ref_pics_l1@[i].poc as int),
        poc_ok(current_poc as int),
    ensures
        table@.len() == 256,
        forall|i: int, j: int|
            0 <= i < 16 && 0 <= j < 16 ==> #[trigger] table@[16 * i + j] == if i < ref_pics_l0@.len()
                && j < ref_pics_l1@.len() {
                spec_implicit_weights(ref_pics_l0@[i], ref_pics_l1@[j], current_poc as int)
            } else {
                default_implicit()
            },
{
    let mut table: Vec<WeightParams> = Vec::new();
    let n0 = ref_pics_l0.len();
    let n1 = ref_pics_l1.len();
    let mut i: usize = 0;
    while i < 16
        invariant
            i <= 16,
            n0 == ref_pics_l0@.len(),
            n1 == ref_pics_l1@.len(),
            forall|k: int| 0 <= k < ref_pics_l0@.len() ==> poc_ok(#[trigger] ref_pics_l0@[k].poc as int),
            forall|k: int| 0 <= k < ref_pics_l1@.len() ==> poc_ok(#[trigger] ref_pics_l1@[k].poc as int),
            poc_ok(current_poc as int),
            table@.len() == 16 * i,
            forall|a: int, b: int|
                0 <= a < i && 0 <= b < 16 ==> #[trigger] table@[16 * a + b] == if a < n0 && b < n1 {
                    spec_implicit_weights(ref_pics_l0@[a], ref_pics_l1@[b], current_poc as int)
                } else {
                    default_implicit()
                },
        decreases 16 - i,
    {
        let mut j: usize = 0;
        while j < 16
            invariant
                i < 16,
                j <= 16,
                n0 == ref_pics_l0@.len(),
                n1 == ref_pics_l1@.len(),
                forall|k: int|
                    0 <= k < ref_pics_l0@.len() ==> poc_ok(#[trigger] ref_pics_l0@[k].poc as int),
                forall|k: int|
                    0 <= k < ref_pics_l1@.len() ==> poc_ok(#[trigger] ref_pics_l1@[k].poc as int),
                poc_ok(current_poc as int),
                table@.len() == 16 * i + j,
                forall|a: int, b: int|
                    0 <= a < i && 0 <= b < 16 ==> #[trigger] table@[16 * a + b] == if a < n0 && b
                        < n1 {
                        spec_implicit_weights(ref_pics_l0@[a], ref_pics_l1@[b], current_poc as int)
                    } else {
                        default_implicit()
                    },
                forall|b: int|
                    0 <= b < j ==> #[trigger] table@[16 * i + b] == if i < n0 && b < n1 {
                        spec_implicit_weights(ref_pics_l0@[i as int], ref_pics_l1@[b], current_poc as int)
                    } else {
                        default_implicit()
                    },
            decreases 16 - j,
        {
            let wp = if i < n0 && j < n1 {
                get_implicit_weights(&ref_pics_l0[i], &ref_pics_l1[j], current_poc)
            } else {
                WeightParams { log_wd: 5, w0: 32, o0: 0, w1: 32, o1: 0 }
            };
            table.push(wp);
            j = j + 1;
        }
        proof {
            assert forall|a: int, b: int|
                0 <= a < i + 1 && 0 <= b < 16 implies #[trigger] table@[16 * a + b] == if a < n0 && b
                    < n1 {
                    spec_implicit_weights(ref_pics_l0@[a], ref_pics_l1@[b], current_poc as int)
                } else {
                    default_implicit()
                } by {
                if a == i {
                    assert(table@[16 * i + b] == table@[16 * a + b]);
                }
            }
        }
        i = i + 1;
    }
    table
}

/// Key of cell (`y`, `x`) of a 4x4 grid of keys in raster order.
pub open spec fn kat(keys: Seq<PredKey>, y: int, x: int) -> PredKey {
    keys[4 * y + x]
}

/// The width of the run of cells equal to cell (`y`, `x`) starting at it,
/// extended right from width `w` on.
pub open spec fn run_right(keys: Seq<PredKey>, y: int, x: int, w: int) -> int
    decreases 4 - x - w,
{
    if x + w < 4 && kat(keys, y, x + w) == kat(keys, y, x) {
        run_right(keys, y, x, w + 1)
    } else {
        w
    }
}

/// Every cell of row `y` from column `x` on, `w` of them, has key `k`.
pub open spec fn row_matches(keys: Seq<PredKey>, y: int, x: int, w: int, k: PredKey) -> bool {
    forall|d: int| 0 <= d < w ==> #[trigger] kat(keys, y, x + d) == k
}

/// The height of the block of rows below cell (`y`, `x`) whose first `w`
/// cells all equal it, extended down from height `h` on.
pub open spec fn run_down(keys: Seq<PredKey>, y: int, x: int, w: int, h: int) -> int
    decreases 4 - y - h,
{
    if y + h < 4 && row_matches(keys, y + h, x, w, kat(keys, y, x)) {
        run_down(keys, y, x, w, h + 1)
    } else {
        h
    }
}

/// The rectangle that the greedy walk starts at cell (`y`, `x`): as wide as
/// the run of equal keys to its right, then as high as the rows below
/// match across that width.
pub open spec fn greedy_rect(keys: Seq<PredKey>, y: int, x: int) -> PartitionRect {
    let w = run_right(keys, y, x, 1);
    PartitionRect {
        grid_y: y as u8,
        grid_x: x as u8,
        grid_h: run_down(keys, y, x, w, 1) as u8,
        grid_w: w as u8,
        key: kat(keys, y, x),
    }
}

/// `r` covers cell (`y`, `x`).
pub open spec fn covers(r: PartitionRect, y: int, x: int) -> bool {
    &&& r.grid_y <= y < r.grid_y + r.grid_h
    &&& r.grid_x <= x < r.grid_x + r.grid_w
}

/// The cells covered and the rectangles emitted once the greedy walk has
/// passed the first `n` cells in raster order: a cell not yet covered
/// starts the next rectangle.
pub open spec fn greedy_state(keys: Seq<PredKey>, n: nat) -> (Seq<bool>, Seq<PartitionRect>)
    decreases n,
{
    if n == 0 {
        (Seq::new(16, |k: int| false), Seq::empty())
    } else {
        let (vis, rects) = greedy_state(keys, (n - 1) as nat);
        let i = n - 1;
        if vis[i] {
            (vis, rects)
        } else {
            let r = greedy_rect(keys, i / 4, i % 4);
            (Seq::new(16, |k: int| vis[k] || covers(r, k / 4, k % 4)), rects.push(r))
        }
    }
}

/// The greedy walk keeps one flag per cell.
pub proof fn lemma_greedy_state_len(keys: Seq<PredKey>, n: nat)
    ensures
        greedy_state(keys, n).0.len() == 16,
    decreases n,
{
    if n > 0 {
        lemma_greedy_state_len(keys, (n - 1) as nat);
    }
}

/// The rectangles of a greedy left-to-right, top-to-bottom scan of a 4x4
/// key grid that merges adjacent cells with equal keys.
pub open spec fn greedy_rects(keys: Seq<PredKey>) -> Seq<PartitionRect> {
    greedy_state(keys, 16).1
}

/// Every cell of `r` lies in the grid and has key `r.key`.
pub open spec fn rect_uniform(keys: Seq<PredKey>, r: PartitionRect) -> bool {
    &&& r.wf()
    &&& forall|y: int, x: int| #[trigger] covers(r, y, x) ==> kat(keys, y, x) == r.key
}

proof fn lemma_run_right(keys: Seq<PredKey>, y: int, x: int, w: int)
    requires
        0 <= x,
        1 <= w,
        x + w <= 4,
        forall|d: int| 0 <= d < w ==> #[trigger] kat(keys, y, x + d) == kat(keys, y, x),
    ensures
        w <= run_right(keys, y, x, w),
        x + run_right(keys, y, x, w) <= 4,
        forall|d: int|
            0 <= d < run_right(keys, y, x, w) ==> #[trigger] kat(keys, y, x + d) == kat(keys, y, x),
    decreases 4 - x - w,
{
    if x + w < 4 && kat(keys, y, x + w) == kat(keys, y, x) {
        assert forall|d: int| 0 <= d < w + 1 implies #[trigger] kat(keys, y, x + d) == kat(keys, y, x) by {
            if d < w {
                assert(kat(keys, y, x + d) == kat(keys, y, x));
            }
        }
        lemma_run_right(keys, y, x, w + 1);
    }
}

proof fn lemma_run_down(keys: Seq<PredKey>, y: int, x: int, w: int, h: int)
    requires
        0 <= y,
        1 <= h,
        y + h <= 4,
        forall|e: int| 1 <= e < h ==> #[trigger] row_matches(keys, y + e, x, w, kat(keys, y, x)),
    ensures
        h <= run_down(keys, y, x, w, h),
        y + run_down(keys, y, x, w, h) <= 4,
        forall|e: int|
            1 <= e < run_down(keys, y, x, w, h) ==> #[trigger] row_matches(
                keys,
                y + e,
                x,
                w,
                kat(keys, y, x),
            ),
    decreases 4 - y - h,
{
    if y + h < 4 && row_matches(keys, y + h, x, w, kat(keys, y, x)) {
        assert forall|e: int| 1 <= e < h + 1 implies #[trigger] row_matches(
            keys,
            y + e,
            x,
            w,
            kat(keys, y, x),
        ) by {
            if e < h {
                assert(row_matches(keys, y + e, x, w, kat(keys, y, x)));
            }
        }
        lemma_run_down(keys, y, x, w, h + 1);
    }
}

/// The rectangle that the greedy walk starts at a cell lies in the grid,
/// covers the cell and has one key throughout.
pub proof fn lemma_greedy_rect_uniform(keys: Seq<PredKey>, y: int, x: int)
    requires
        0 <= y < 4,
        0 <= x < 4,
    ensures
        rect_uniform(keys, greedy_rect(keys, y, x)),
        covers(greedy_rect(keys, y, x), y, x),
{
    assert(kat(keys, y, x + 0) == kat(keys, y, x));
    lemma_run_right(keys, y, x, 1);
    let w = run_right(keys, y, x, 1);
    lemma_run_down(keys, y, x, w, 1);
    let h = run_down(keys, y, x, w, 1);
    let r = greedy_rect(keys, y, x);
    assert forall|yy: int, xx: int| #[trigger] covers(r, yy, xx) implies kat(keys, yy, xx) == r.key by {
        if yy == y {
            assert(kat(keys, y, x + (xx - x)) == kat(keys, y, x));
        } else {
            assert(row_matches(keys, y + (yy - y), x, w, kat(keys, y, x)));
            assert(kat(keys, yy, x + (xx - x)) == kat(keys, y, x));
        }
    }
}

/// What the greedy walk keeps true: every rectangle so far is uniform, a
/// flagged cell is covered by one of them, and the cells passed are
/// flagged.
pub open spec fn greedy_inv(keys: Seq<PredKey>, n: nat) -> bool {
    let (vis, rects) = greedy_state(keys, n);
    &&& vis.len() == 16
    &&& forall|j: int| 0 <= j < rects.len() ==> #[trigger] rect_uniform(keys, rects[j])
    &&& forall|k: int|
        0 <= k < 16 && #[trigger] vis[k] ==> exists|j: int| 0 <= j < rects.len() && covers(rects[j], k / 4, k % 4)
    &&& forall|k: int| 0 <= k < n && k < 16 ==> #[trigger] vis[k]
}

proof fn lemma_greedy_inv(keys: Seq<PredKey>, n: nat)
    requires
        n <= 16,
    ensures
        greedy_inv(keys, n),
    decreases n,
{
    lemma_greedy_state_len(keys, n);
    if n > 0 {
        lemma_greedy_inv(keys, (n - 1) as nat);
        let (vis, rects) = greedy_state(keys, (n - 1) as nat);
        let i = n - 1;
        if !vis[i] {
            let r = greedy_rect(keys, i / 4, i % 4);
            lemma_greedy_rect_uniform(keys, i / 4, i % 4);
            let (vis2, rects2) = greedy_state(keys, n);
            assert(rects2 == rects.push(r));
            assert forall|k: int| 0 <= k < 16 && #[trigger] vis2[k] implies exists|j: int|
                0 <= j < rects2.len() && covers(rects2[j], k / 4, k % 4) by {
                if vis[k] {
                    let j = choose|j: int| 0 <= j < rects.len() && covers(rects[j], k / 4, k % 4);
                    assert(rects2[j] == rects[j]);
                } else {
                    assert(rects2[rects.len() as int] == r);
                }
            }
            assert forall|j: int| 0 <= j < rects2.len() implies #[trigger] rect_uniform(keys, rects2[j]) by {
                if j < rects.len() {
                    assert(rects2[j] == rects[j]);
                }
            }
        }
    }
}

/// Some rectangle of `rects` covers cell (`y`, `x`).
pub open spec fn cell_covered(rects: Seq<PartitionRect>, y: int, x: int) -> bool {
    exists|j: int| 0 <= j < rects.len() && covers(rects[j], y, x)
}

/// The greedy scan's rectangles cover every cell of the grid, lie in it,
/// and each has one key throughout: predicting each rectangle with its key
/// predicts every cell with its own.
pub proof fn lemma_greedy_rects_cover(keys: Seq<PredKey>)
    ensures
        forall|j: int| 0 <= j < greedy_rects(keys).len() ==> #[trigger] rect_uniform(keys, greedy_rects(keys)[j]),
        forall|y: int, x: int|
            0 <= y < 4 && 0 <= x < 4 ==> #[trigger] cell_covered(greedy_rects(keys), y, x),
{
    lemma_greedy_inv(keys, 16);
    let (vis, rects) = greedy_state(keys, 16);
    assert forall|y: int, x: int| 0 <= y < 4 && 0 <= x < 4 implies #[trigger] cell_covered(rects, y, x) by {
        let k = 4 * y + x;
        assert(vis[k]);
        assert(k / 4 == y && k % 4 == x);
    }
}

/// Whether the first `w` cells of row `y` from column `x` on have key `k`.
fn row_matches_exec(keys: &Vec<PredKey>, y: usize, x: usize, w: usize, k: PredKey) -> (b: bool)
    requires
        keys@.len() == 16,
        y < 4,
        x + w <= 4,
    ensures
        b == row_matches(keys@, y as int, x as int, w as int, k),
{
    let mut d: usize = 0;
    while d < w
        invariant
            keys@.len() == 16,
            y < 4,
            x + w <= 4,
            d <= w,
            row_matches(keys@, y as int, x as int, d as int, k),
        decreases w - d,
    {
        if keys[4 * y + x + d] != k {
            assert(kat(keys@, y as int, x + d) != k);
            return false;
        }
        assert forall|e: int| 0 <= e < d + 1 implies #[trigger] kat(keys@, y as int, x + e) == k by {
            if e < d {
                assert(kat(keys@, y as int, x + e) == k);
            }
        }
        d = d + 1;
    }
    true
}

/// Greedy-rectangle scan of a macroblock's 4x4 grid of prediction keys
/// (raster order): adjacent cells with equal keys are merged into maximal
/// rectangles, left to right and top to bottom. On a grid filled one
/// H.264 partition at a time this recovers the partition shapes; it also
/// merges neighbouring partitions that happen to share a key.
pub fn collect_pred_rects(keys: &Vec<PredKey>) -> (rects: Vec<PartitionRect>)
    requires
        keys@.len() == 16,
    ensures
        rects@ == greedy_rects(keys@),
{
    let mut visited: Vec<bool> = vec![false; 16];
    let mut rects: Vec<PartitionRect> = Vec::new();
    let mut i: usize = 0;
    assert(visited@ == greedy_state(keys@, 0).0);
    while i < 16
        invariant
            keys@.len() == 16,
            i <= 16,
            visited@ == greedy_state(keys@, i as nat).0,
            rects@ == greedy_state(keys@, i as nat).1,
        decreases 16 - i,
    {
        proof {
            reveal_with_fuel(greedy_state, 2);
            lemma_greedy_state_len(keys@, i as nat);
        }
        let gy = i / 4;
        let gx = i % 4;
        if !visited[i] {
            let key = keys[i];
            // Extend right while the next cell of row `gy` matches.
            let mut w: usize = 1;
            while gx + w < 4 && keys[4 * gy + gx + w] == key
                invariant
                    keys@.len() == 16,
                    gy < 4,
                    gx < 4,
                    1 <= w,
                    gx + w <= 4,
                    key == kat(keys@, gy as int, gx as int),
                    run_right(keys@, gy as int, gx as int, 1) == run_right(
                        keys@,
                        gy as int,
                        gx as int,
                        w as int,
                    ),
                decreases 4 - w,
            {
                w = w + 1;
            }
            // Extend down while every cell of the next row across the width
            // matches.
            let mut h: usize = 1;
            while gy + h < 4 && row_matches_exec(keys, gy + h, gx, w, key)
                invariant
                    keys@.len() == 16,
                    gy < 4,
                    gx < 4,
                    1 <= h,
                    gy + h <= 4,
                    gx + w <= 4,
                    key == kat(keys@, gy as int, gx as int),
                    w == run_right(keys@, gy as int, gx as int, 1),
                    run_down(keys@, gy as int, gx as int, w as int, 1) == run_down(
                        keys@,
                        gy as int,
                        gx as int,
                        w as int,
                        h as int,
                    ),
                decreases 4 - h,
            {
                h = h + 1;
            }
            let r = PartitionRect {
                grid_y: gy as u8,
                grid_x: gx as u8,
                grid_h: h as u8,
                grid_w: w as u8,
                key,
            };
            assert(r == greedy_rect(keys@, gy as int, gx as int));
            let ghost vis = visited@;
            let mut k: usize = 0;
            while k < 16
                invariant
                    visited@.len() == 16,
                    vis.len() == 16,
                    k <= 16,
                    gy + h <= 4,
                    gx + w <= 4,
                    r.grid_y == gy && r.grid_x == gx && r.grid_h == h && r.grid_w == w,
                    forall|j: int| 0 <= j < k ==> #[trigger] visited@[j] == (vis[j] || covers(r, j / 4, j % 4)),
                    forall|j: int| k <= j < 16 ==> #[trigger] visited@[j] == vis[j],
                decreases 16 - k,
            {
                let (ky, kx) = (k / 4, k % 4);
                let inside = gy <= ky && ky < gy + h && gx <= kx && kx < gx + w;
                let v = visited[k] || inside;
                visited.set(k, v);
                k = k + 1;
            }
            rects.push(r);
            assert(visited@ == greedy_state(keys@, (i + 1) as nat).0);
        }
        i = i + 1;
    }
    rects
}

/// The key of a P macroblock cell (`PredKey::p`).
pub open spec fn spec_key_p(p: PartitionInfo) -> PredKey {
    PredKey {
        pred_mode: MbPredictionMode::Pred_L0,
        ref_idx_l0: p.ref_idx_l0,
        mv_l0: p.mv_l0,
        ref_idx_l1: 0,
        mv_l1: MotionVector { x: 0, y: 0 },
    }
}

/// The key of a B macroblock cell (`PredKey::b`).
pub open spec fn spec_key_b(p: PartitionInfo) -> PredKey {
    PredKey {
        pred_mode: p.pred_mode,
        ref_idx_l0: p.ref_idx_l0,
        mv_l0: p.mv_l0,
        ref_idx_l1: p.ref_idx_l1,
        mv_l1: p.mv_l1,
    }
}

/// Cell (`y`, `x`) of a macroblock's motion grid.
pub open spec fn cell(motion: MbMotion, y: int, x: int) -> PartitionInfo {
    motion.partitions@[y]@[x]
}

/// The keys of a macroblock's cells in raster order, P (`b == false`) or B.
pub open spec fn grid_keys(motion: MbMotion, b: bool) -> Seq<PredKey> {
    Seq::new(
        16,
        |i: int|
            if b {
                spec_key_b(cell(motion, i / 4, i % 4))
            } else {
                spec_key_p(cell(motion, i / 4, i % 4))
            },
    )
}

/// A rectangle of `h` x `w` cells at (`y`, `x`) with the P key of its
/// top-left cell.
pub open spec fn p_part(motion: MbMotion, y: int, x: int, h: int, w: int) -> PartitionRect {
    PartitionRect {
        grid_y: y as u8,
        grid_x: x as u8,
        grid_h: h as u8,
        grid_w: w as u8,
        key: spec_key_p(cell(motion, y, x)),
    }
}

/// The prediction rectangles of a P macroblock: the partitions of its
/// `mb_type` (Table 7-13), or a scan of the motion grid for `P_8x8` and
/// `P_8x8ref0`, whose sub-macroblock types are not kept.
pub open spec fn spec_rects_p(mb: PMb) -> Seq<PartitionRect> {
    let m = mb.motion;
    match mb.mb_type {
        PMbType::P_Skip | PMbType::P_L0_16x16 => seq![p_part(m, 0, 0, 4, 4)],
        PMbType::P_L0_L0_16x8 => seq![p_part(m, 0, 0, 2, 4), p_part(m, 2, 0, 2, 4)],
        PMbType::P_L0_L0_8x16 => seq![p_part(m, 0, 0, 4, 2), p_part(m, 0, 2, 4, 2)],
        _ => greedy_rects(grid_keys(m, false)),
    }
}

/// The keys of a macroblock's cells in raster order.
fn keys_of(motion: &MbMotion, b: bool) -> (keys: Vec<PredKey>)
    ensures
        keys@ == grid_keys(*motion, b),
{
    let mut keys: Vec<PredKey> = Vec::new();
    let mut i: usize = 0;
    while i < 16
        invariant
            i <= 16,
            keys@.len() == i,
            forall|j: int| 0 <= j < i ==> #[trigger] keys@[j] == grid_keys(*motion, b)[j],
        decreases 16 - i,
    {
        let p = motion.partitions[i / 4][i % 4];
        let k = if b {
            PredKey::b(&p)
        } else {
            PredKey::p(&p)
        };
        keys.push(k);
        i = i + 1;
    }
    assert(keys@ =~= grid_keys(*motion, b));
    keys
}

/// The prediction rectangles of a macroblock, shared by luma and both
/// chroma planes: chroma motion compensation walks the same 4x4 grid, with
/// sample offsets scaled by 2 instead of 4 (8.4.2.2.2).
pub struct PredRects {
    rects: Vec<PartitionRect>,
}

impl View for PredRects {
    type V = Seq<PartitionRect>;

    closed spec fn view(&self) -> Seq<PartitionRect> {
        self.rects@
    }
}

impl PredRects {
    /// The rectangles of a P macroblock, all predicted from L0.
    pub fn for_p(mb: &PMb) -> (r: Self)
        ensures
            r@ == spec_rects_p(*mb),
    {
        let m = &mb.motion;
        match mb.mb_type {
            PMbType::P_Skip | PMbType::P_L0_16x16 => {
                let key = PredKey::p(&m.partitions[0][0]);
                let rects = vec![PartitionRect { grid_y: 0, grid_x: 0, grid_h: 4, grid_w: 4, key }];
                PredRects { rects }
            },
            PMbType::P_L0_L0_16x8 => {
                let top = PredKey::p(&m.partitions[0][0]);
                let bottom = PredKey::p(&m.partitions[2][0]);
                let rects = vec![
                    PartitionRect { grid_y: 0, grid_x: 0, grid_h: 2, grid_w: 4, key: top },
                    PartitionRect { grid_y: 2, grid_x: 0, grid_h: 2, grid_w: 4, key: bottom },
                ];
                PredRects { rects }
            },
            PMbType::P_L0_L0_8x16 => {
                let left = PredKey::p(&m.partitions[0][0]);
                let right = PredKey::p(&m.partitions[0][2]);
                let rects = vec![
                    PartitionRect { grid_y: 0, grid_x: 0, grid_h: 4, grid_w: 2, key: left },
                    PartitionRect { grid_y: 0, grid_x: 2, grid_h: 4, grid_w: 2, key: right },
                ];
                PredRects { rects }
            },
            _ => Self::scan_p(m),
        }
    }

    /// The rectangles of a P macroblock from a scan of its motion grid,
    /// merging cells on their L0 reference index and motion vector.
    pub fn scan_p(motion: &MbMotion) -> (r: Self)
        ensures
            r@ == greedy_rects(grid_keys(*motion, false)),
    {
        let keys = keys_of(motion, false);
        PredRects { rects: collect_pred_rects(&keys) }
    }

    /// The rectangles of a B macroblock, each L0-only, L1-only or
    /// bi-predicted with fixed references and motion vectors.
    pub fn for_b(motion: &MbMotion) -> (r: Self)
        ensures
            r@ == greedy_rects(grid_keys(*motion, true)),
    {
        let keys = keys_of(motion, true);
        PredRects { rects: collect_pred_rects(&keys) }
    }

    /// The rectangles, in scan order.
    pub fn as_slice(&self) -> (s: &[PartitionRect])
        ensures
            s@ == self@,
    {
        self.rects.as_slice()
    }
}

/// On a grid of one value `k`, every luma prediction sample is `k`: the
/// 6-tap filter sums to 32, the 2-D filter to 1024, and the average of two
/// equal samples is that sample.
pub proof fn lemma_constant_grid_luma(g: Grid, k: int, x: int, y: int, xf: int, yf: int)
    requires
        0 <= k <= 255,
        forall|a: int, b: int| #[trigger] g(a, b) == k,
    ensures
        luma_pel(g, x, y, xf, yf) == k,
{
    assert(b1(g, x, y) == 32 * k);
    assert(h1(g, x, y) == 32 * k);
    assert(b1(g, x, y + 1) == 32 * k);
    assert(h1(g, x + 1, y) == 32 * k);
    assert(b1(g, x, y - 2) == 32 * k && b1(g, x, y - 1) == 32 * k && b1(g, x, y + 2) == 32 * k && b1(g, x, y + 3)
        == 32 * k);
    assert(j1(g, x, y) == 1024 * k);
    assert(half_sample(32 * k) == k);
    assert(centre_sample(1024 * k) == k);
}

/// A reference plane whose visible samples all equal `k` predicts `k` at
/// every luma position, also at motion vectors reaching outside it: so
/// `interpolate_luma` fills its block with `k`.
pub proof fn lemma_constant_plane_luma(
    plane: Plane,
    k: u8,
    mb_x: int,
    mb_y: int,
    blk_x: int,
    blk_y: int,
    mv: MotionVector,
    r: int,
    c: int,
)
    requires
        plane.cfg.width >= 1,
        plane.cfg.height >= 1,
        forall|x: int, y: int|
            0 <= x < plane.cfg.width && 0 <= y < plane.cfg.height ==> #[trigger] plane.sample(x, y) == k,
    ensures
        luma_pred_sample(plane, mb_x, mb_y, blk_x, blk_y, mv, r, c) == k,
{
    let g = ref_grid(plane);
    assert forall|a: int, b: int| #[trigger] g(a, b) == k as int by {
        let cx = crate::arith::clamp(a, 0, plane.cfg.width - 1);
        let cy = crate::arith::clamp(b, 0, plane.cfg.height - 1);
        assert(plane.sample(cx, cy) == k);
    }
    lemma_constant_grid_luma(
        g,
        k as int,
        mb_x + blk_x + (mv.x as int) / 4 + c,
        mb_y + blk_y + (mv.y as int) / 4 + r,
        (mv.x as int) % 4,
        (mv.y as int) % 4,
    );
}

/// `g` mirrored left to right: column `a` holds column `-a` of `g`.
pub open spec fn mirror_x(g: Grid) -> Grid {
    |a: int, b: int| g(-a, b)
}

/// `g` mirrored top to bottom: row `b` holds row `-b` of `g`.
pub open spec fn mirror_y(g: Grid) -> Grid {
    |a: int, b: int| g(a, -b)
}

/// Table 8-12 treats left and right alike: a luma sample `xf` quarters
/// right of column `x` (for `xf` 1 to 3) is the sample `4 - xf` quarters
/// right of column `-x - 1` of the picture mirrored left to right. So the
/// quarter positions right of a half sample (`xf` 3) take the vertical
/// half sample of the column to their right, as those left of it (`xf` 1)
/// take that of their own column.
pub proof fn lemma_luma_pel_mirror_x(g: Grid, x: int, y: int, xf: int, yf: int)
    requires
        1 <= xf <= 3,
        0 <= yf <= 3,
    ensures
        luma_pel(g, x, y, xf, yf) == luma_pel(mirror_x(g), -x - 1, y, 4 - xf, yf),
{
    let m = mirror_x(g);
    assert forall|k: int| #[trigger] b1(m, -x - 1, y + k) == b1(g, x, y + k) by {
        assert(m(-x - 1 - 2, y + k) == g(x + 3, y + k));
        assert(m(-x - 1 - 1, y + k) == g(x + 2, y + k));
        assert(m(-x - 1, y + k) == g(x + 1, y + k));
        assert(m(-x - 1 + 1, y + k) == g(x, y + k));
        assert(m(-x - 1 + 2, y + k) == g(x - 1, y + k));
        assert(m(-x - 1 + 3, y + k) == g(x - 2, y + k));
    }
    assert(b1(m, -x - 1, y) == b1(g, x, y)) by {
        assert(b1(m, -x - 1, y + 0) == b1(g, x, y + 0));
    }
    assert(b1(m, -x - 1, y + 1) == b1(g, x, y + 1));
    assert(b1(m, -x - 1, y - 2) == b1(g, x, y - 2)) by {
        assert(b1(m, -x - 1, y + -2) == b1(g, x, y + -2));
    }
    assert(b1(m, -x - 1, y - 1) == b1(g, x, y - 1)) by {
        assert(b1(m, -x - 1, y + -1) == b1(g, x, y + -1));
    }
    assert(b1(m, -x - 1, y + 2) == b1(g, x, y + 2));
    assert(b1(m, -x - 1, y + 3) == b1(g, x, y + 3));
    assert(j1(m, -x - 1, y) == j1(g, x, y));
    assert(h1(m, -x - 1, y) == h1(g, x + 1, y));
    assert(h1(m, -x - 1 + 1, y) == h1(g, x, y));
    assert(m(-x - 1, y) == g(x + 1, y));
    assert(m(-x - 1 + 1, y) == g(x, y));
    assert(m(-x - 1, y + 1) == g(x + 1, y + 1));
}

/// Table 8-12 treats top and bottom alike: a luma sample `yf` quarters
/// below row `y` (for `yf` 1 to 3) is the sample `4 - yf` quarters below
/// row `-y - 1` of the picture mirrored top to bottom.
pub proof fn lemma_luma_pel_mirror_y(g: Grid, x: int, y: int, xf: int, yf: int)
    requires
        0 <= xf <= 3,
        1 <= yf <= 3,
    ensures
        luma_pel(g, x, y, xf, yf) == luma_pel(mirror_y(g), x, -y - 1, xf, 4 - yf),
{
    let m = mirror_y(g);
    assert forall|k: int| #[trigger] b1(m, x, -y - 1 + k) == b1(g, x, y + 1 - k) by {
        assert(m(x - 2, -y - 1 + k) == g(x - 2, y + 1 - k));
        assert(m(x - 1, -y - 1 + k) == g(x - 1, y + 1 - k));
        assert(m(x, -y - 1 + k) == g(x, y + 1 - k));
        assert(m(x + 1, -y - 1 + k) == g(x + 1, y + 1 - k));
        assert(m(x + 2, -y - 1 + k) == g(x + 2, y + 1 - k));
        assert(m(x + 3, -y - 1 + k) == g(x + 3, y + 1 - k));
    }
    assert(b1(m, x, -y - 1 - 2) == b1(g, x, y + 3)) by {
        assert(b1(m, x, -y - 1 + -2) == b1(g, x, y + 1 - -2));
    }
    assert(b1(m, x, -y - 1 - 1) == b1(g, x, y + 2)) by {
        assert(b1(m, x, -y - 1 + -1) == b1(g, x, y + 1 - -1));
    }
    assert(b1(m, x, -y - 1) == b1(g, x, y + 1)) by {
        assert(b1(m, x, -y - 1 + 0) == b1(g, x, y + 1 - 0));
    }
    assert(b1(m, x, -y - 1 + 1) == b1(g, x, y));
    assert(b1(m, x, -y - 1 + 2) == b1(g, x, y - 1));
    assert(b1(m, x, -y - 1 + 3) == b1(g, x, y - 2));
    assert(j1(m, x, -y - 1) == j1(g, x, y));
    assert forall|c: int| #[trigger] h1(m, c, -y - 1) == h1(g, c, y) by {
        assert(m(c, -y - 1 - 2) == g(c, y + 3));
        assert(m(c, -y - 1 - 1) == g(c, y + 2));
        assert(m(c, -y - 1) == g(c, y + 1));
        assert(m(c, -y - 1 + 1) == g(c, y));
        assert(m(c, -y - 1 + 2) == g(c, y - 1));
        assert(m(c, -y - 1 + 3) == g(c, y - 2));
    }
    assert(h1(m, x, -y - 1) == h1(g, x, y));
    assert(h1(m, x + 1, -y - 1) == h1(g, x + 1, y));
    assert(m(x, -y - 1) == g(x, y + 1));
    assert(m(x, -y - 1 + 1) == g(x, y));
}

/// Eq. 8-255: the quarter position `g` (`xf` 3, `yf` 1) is the rounded
/// average of the half sample `b` right of (`x`, `y`) and the half sample
/// `m` below (`x + 1`, `y`), the vertical half sample of the next column.
pub proof fn lemma_luma_pel_g(g: Grid, x: int, y: int)
    ensures
        luma_pel(g, x, y, 3, 1) == avg_up(half_sample(b1(g, x, y)) as int, half_sample(h1(g, x + 1, y)) as int),
        luma_pel(g, x, y, 3, 1) == luma_pel(mirror_x(g), -x - 1, y, 1, 1),
{
    lemma_luma_pel_mirror_x(g, x, y, 3, 1);
}

/// Eq. 8-270 treats left and right alike: a chroma sample `xf` eighths
/// right of column `x` (for `xf` 1 to 7) is the sample `8 - xf` eighths
/// right of column `-x - 1` of the picture mirrored left to right; and
/// top and bottom alike.
pub proof fn lemma_chroma_pel_mirror(g: Grid, x: int, y: int, xf: int, yf: int)
    requires
        0 <= xf <= 8,
        0 <= yf <= 8,
    ensures
        1 <= xf ==> chroma_pel(g, x, y, xf, yf) == chroma_pel(mirror_x(g), -x - 1, y, 8 - xf, yf),
        1 <= yf ==> chroma_pel(g, x, y, xf, yf) == chroma_pel(mirror_y(g), x, -y - 1, xf, 8 - yf),
{
    let mx = mirror_x(g);
    let my = mirror_y(g);
    assert(mx(-x - 1, y) == g(x + 1, y) && mx(-x - 1 + 1, y) == g(x, y) && mx(-x - 1, y + 1) == g(x + 1, y + 1)
        && mx(-x - 1 + 1, y + 1) == g(x, y + 1));
    assert(my(x, -y - 1) == g(x, y + 1) && my(x + 1, -y - 1) == g(x + 1, y + 1) && my(x, -y - 1 + 1) == g(x, y)
        && my(x + 1, -y - 1 + 1) == g(x + 1, y));
    let a = g(x, y);
    let b = g(x + 1, y);
    let c = g(x, y + 1);
    let d = g(x + 1, y + 1);
    assert((8 - (8 - xf)) * (8 - yf) * b + (8 - xf) * (8 - yf) * a + (8 - (8 - xf)) * yf * d + (8 - xf) * yf * c
        == (8 - xf) * (8 - yf) * a + xf * (8 - yf) * b + (8 - xf) * yf * c + xf * yf * d) by (nonlinear_arith);
    assert((8 - xf) * (8 - (8 - yf)) * c + xf * (8 - (8 - yf)) * d + (8 - xf) * (8 - yf) * a + xf * (8 - yf) * b
        == (8 - xf) * (8 - yf) * a + xf * (8 - yf) * b + (8 - xf) * yf * c + xf * yf * d) by (nonlinear_arith);
}

/// Eq. 8-254: the quarter position `e` (`xf` 1, `yf` 1) is the rounded
/// average of the half sample `b` right of (`x`, `y`) and the half sample
/// `h` below it, the vertical half sample of its own column.
pub proof fn lemma_luma_pel_e(g: Grid, x: int, y: int)
    ensures
        luma_pel(g, x, y, 1, 1) == avg_up(half_sample(b1(g, x, y)) as int, half_sample(h1(g, x, y)) as int),
{
}


/// Section 8.4.2.3.1, implicit mode: a picture that lies halfway between
/// its two short-term references, at most 63 pictures from each, weighs
/// them equally (`w0 = w1 = 32`, the default weights).
pub proof fn lemma_implicit_midpoint_equal_weights(l0: RefPicInfo, l1: RefPicInfo, cur: int)
    requires
        !l0.long_term,
        !l1.long_term,
        l1.poc - cur == cur - l0.poc,
        1 <= abs(cur - l0.poc) <= 63,
    ensures
        spec_implicit_weights(l0, l1, cur) == default_implicit(),
{
    let d = cur - l0.poc;
    let e = abs(d);
    let n = 16384 + e;
    let q = n / (2 * e);
    let r = n % (2 * e);
    vstd::arithmetic::div_mod::lemma_fundamental_div_mod(n, 2 * e);
    assert(0 <= r < 2 * e);
    assert(8161 <= e * q <= 8223) by (nonlinear_arith)
        requires
            n == 16384 + e,
            n == (2 * e) * q + r,
            0 <= r < 2 * e,
            1 <= e <= 63,
    ;
    let td = clamp(l1.poc - l0.poc, -128, 127);
    let tb = clamp(cur - l0.poc, -128, 127);
    assert(td == 2 * d && tb == d);
    assert(abs(td) / 2 == e);
    let tx = if td > 0 {
        n / td
    } else {
        -(n / -td)
    };
    if d > 0 {
        assert(tx == q);
        assert(tb * tx == e * q);
    } else {
        assert(-td == 2 * e);
        assert(tx == -q);
        assert(tb * tx == e * q) by (nonlinear_arith)
            requires
                tb == -e,
                tx == -q,
        ;
    }
    assert((tb * tx + 32) / 64 == 128);
    assert(dist_scale_factor(l0.poc as int, l1.poc as int, cur) == 128);
}


/// Table 7-13: a P_L0_16x16 (or P_Skip) macroblock is predicted as one
/// 16x16 rectangle; P_L0_L0_16x8 as two rectangles 16 samples wide and 8
/// high, the upper one first; P_L0_L0_8x16 as two 8 wide and 16 high, the
/// left one first (sizes in 4x4 cells, of 4 samples). Each rectangle takes
/// the motion of its top-left cell, and there are `NumMbPart` of them.
pub proof fn lemma_p_partition_shapes(mb: PMb)
    ensures
        ({
            let r = spec_rects_p(mb);
            let m = mb.motion;
            &&& (mb.mb_type == PMbType::P_L0_16x16 || mb.mb_type == PMbType::P_Skip) ==> r.len() == 1 && r[0].grid_y
                == 0 && r[0].grid_x == 0 && 4 * r[0].grid_w == 16 && 4 * r[0].grid_h == 16 && r[0].key
                == spec_key_p(cell(m, 0, 0))
            &&& mb.mb_type == PMbType::P_L0_L0_16x8 ==> r.len() == 2 && 4 * r[0].grid_w == 16 && 4 * r[0].grid_h
                == 8 && 4 * r[1].grid_w == 16 && 4 * r[1].grid_h == 8 && r[0].grid_x == 0 && r[0].grid_y == 0
                && r[1].grid_x == 0 && 4 * r[1].grid_y == 8 && r[0].key == spec_key_p(cell(m, 0, 0)) && r[1].key
                == spec_key_p(cell(m, 2, 0))
            &&& mb.mb_type == PMbType::P_L0_L0_8x16 ==> r.len() == 2 && 4 * r[0].grid_w == 8 && 4 * r[0].grid_h
                == 16 && 4 * r[1].grid_w == 8 && 4 * r[1].grid_h == 16 && r[0].grid_x == 0 && r[0].grid_y == 0
                && 4 * r[1].grid_x == 8 && r[1].grid_y == 0 && r[0].key == spec_key_p(cell(m, 0, 0)) && r[1].key
                == spec_key_p(cell(m, 0, 2))
            &&& (mb.mb_type == PMbType::P_L0_16x16 || mb.mb_type == PMbType::P_L0_L0_16x8 || mb.mb_type
                == PMbType::P_L0_L0_8x16) ==> r.len() == spec_num_mb_part_p(mb.mb_type)
        }),
{
}


/// Table 8-12 on a picture that rises by `2 * d` per sample to the right
/// and does not change downwards: every quarter-sample position, whatever
/// its vertical fraction, is predicted as the linear interpolation
/// `(2 * G + xf * d + 1) >> 1` from the integer sample `G` at its left,
/// while the samples it reads stay in `0..=255`.
#[verifier::rlimit(40)]
pub proof fn lemma_luma_pel_horizontal_ramp(g: Grid, d: int, x: int, y: int, xf: int, yf: int)
    requires
        forall|a: int, b: int| #[trigger] g(a + 1, b) == g(a, b) + 2 * d,
        forall|a: int, b: int| #[trigger] g(a, b + 1) == g(a, b),
        0 <= g(x, y) <= 255,
        0 <= g(x, y) + 2 * d <= 255,
        0 <= xf <= 3,
        0 <= yf <= 3,
    ensures
        luma_pel(g, x, y, xf, yf) == (2 * g(x, y) + xf * d + 1) / 2,
{
    let gg = g(x, y);
    assert(g(x + 1, y) == gg + 2 * d) by {
        let a = x;
        assert(g(a + 1, y) == g(a, y) + 2 * d);
    }
    assert(g(x + 2, y) == gg + 4 * d) by {
        let a = x + 1;
        assert(g(a + 1, y) == g(a, y) + 2 * d);
    }
    assert(g(x + 3, y) == gg + 6 * d) by {
        let a = x + 2;
        assert(g(a + 1, y) == g(a, y) + 2 * d);
    }
    assert(g(x + 4, y) == gg + 8 * d) by {
        let a = x + 3;
        assert(g(a + 1, y) == g(a, y) + 2 * d);
    }
    assert(g(x - 1, y) == gg - 2 * d) by {
        let a = x - 1;
        assert(g(a + 1, y) == g(a, y) + 2 * d);
    }
    assert(g(x - 2, y) == gg - 4 * d) by {
        let a = x - 2;
        assert(g(a + 1, y) == g(a, y) + 2 * d);
    }
    assert(g(x - 2, y + 1) == g(x - 2, y)) by {
        let b = y;
        assert(g(x - 2, b + 1) == g(x - 2, b));
    }
    assert(g(x - 2, y + 2) == g(x - 2, y)) by {
        let b = y + 1;
        assert(g(x - 2, b + 1) == g(x - 2, b));
    }
    assert(g(x - 2, y + 3) == g(x - 2, y)) by {
        let b = y + 2;
        assert(g(x - 2, b + 1) == g(x - 2, b));
    }
    assert(g(x - 2, y + 4) == g(x - 2, y)) by {
        let b = y + 3;
        assert(g(x - 2, b + 1) == g(x - 2, b));
    }
    assert(g(x - 2, y - 1) == g(x - 2, y)) by {
        let b = y - 1;
        assert(g(x - 2, b + 1) == g(x - 2, b));
    }
    assert(g(x - 2, y - 2) == g(x - 2, y)) by {
        let b = y - 2;
        assert(g(x - 2, b + 1) == g(x - 2, b));
    }
    assert(g(x - 1, y + 1) == g(x - 1, y)) by {
        let b = y;
        assert(g(x - 1, b + 1) == g(x - 1, b));
    }
    assert(g(x - 1, y + 2) == g(x - 1, y)) by {
        let b = y + 1;
        assert(g(x - 1, b + 1) == g(x - 1, b));
    }
    assert(g(x - 1, y + 3) == g(x - 1, y)) by {
        let b = y + 2;
        assert(g(x - 1, b + 1) == g(x - 1, b));
    }
    assert(g(x - 1, y + 4) == g(x - 1, y)) by {
        let b = y + 3;
        assert(g(x - 1, b + 1) == g(x - 1, b));
    }
    assert(g(x - 1, y - 1) == g(x - 1, y)) by {
        let b = y - 1;
        assert(g(x - 1, b + 1) == g(x - 1, b));
    }
    assert(g(x - 1, y - 2) == g(x - 1, y)) by {
        let b = y - 2;
        assert(g(x - 1, b + 1) == g(x - 1, b));
    }
    assert(g(x, y + 1) == g(x, y)) by {
        let b = y;
        assert(g(x, b + 1) == g(x, b));
    }
    assert(g(x, y + 2) == g(x, y)) by {
        let b = y + 1;
        assert(g(x, b + 1) == g(x, b));
    }
    assert(g(x, y + 3) == g(x, y)) by {
        let b = y + 2;
        assert(g(x, b + 1) == g(x, b));
    }
    assert(g(x, y + 4) == g(x, y)) by {
        let b = y + 3;
        assert(g(x, b + 1) == g(x, b));
    }
    assert(g(x, y - 1) == g(x, y)) by {
        let b = y - 1;
        assert(g(x, b + 1) == g(x, b));
    }
    assert(g(x, y - 2) == g(x, y)) by {
        let b = y - 2;
        assert(g(x, b + 1) == g(x, b));
    }
    assert(g(x + 1, y + 1) == g(x + 1, y)) by {
        let b = y;
        assert(g(x + 1, b + 1) == g(x + 1, b));
    }
    assert(g(x + 1, y + 2) == g(x + 1, y)) by {
        let b = y + 1;
        assert(g(x + 1, b + 1) == g(x + 1, b));
    }
    assert(g(x + 1, y + 3) == g(x + 1, y)) by {
        let b = y + 2;
        assert(g(x + 1, b + 1) == g(x + 1, b));
    }
    assert(g(x + 1, y + 4) == g(x + 1, y)) by {
        let b = y + 3;
        assert(g(x + 1, b + 1) == g(x + 1, b));
    }
    assert(g(x + 1, y - 1) == g(x + 1, y)) by {
        let b = y - 1;
        assert(g(x + 1, b + 1) == g(x + 1, b));
    }
    assert(g(x + 1, y - 2) == g(x + 1, y)) by {
        let b = y - 2;
        assert(g(x + 1, b + 1) == g(x + 1, b));
    }
    assert(g(x + 2, y + 1) == g(x + 2, y)) by {
        let b = y;
        assert(g(x + 2, b + 1) == g(x + 2, b));
    }
    assert(g(x + 2, y + 2) == g(x + 2, y)) by {
        let b = y + 1;
        assert(g(x + 2, b + 1) == g(x + 2, b));
    }
    assert(g(x + 2, y + 3) == g(x + 2, y)) by {
        let b = y + 2;
        assert(g(x + 2, b + 1) == g(x + 2, b));
    }
    assert(g(x + 2, y + 4) == g(x + 2, y)) by {
        let b = y + 3;
        assert(g(x + 2, b + 1) == g(x + 2, b));
    }
    assert(g(x + 2, y - 1) == g(x + 2, y)) by {
        let b = y - 1;
        assert(g(x + 2, b + 1) == g(x + 2, b));
    }
    assert(g(x + 2, y - 2) == g(x + 2, y)) by {
        let b = y - 2;
        assert(g(x + 2, b + 1) == g(x + 2, b));
    }
    assert(g(x + 3, y + 1) == g(x + 3, y)) by {
        let b = y;
        assert(g(x + 3, b + 1) == g(x + 3, b));
    }
    assert(g(x + 3, y + 2) == g(x + 3, y)) by {
        let b = y + 1;
        assert(g(x + 3, b + 1) == g(x + 3, b));
    }
    assert(g(x + 3, y + 3) == g(x + 3, y)) by {
        let b = y + 2;
        assert(g(x + 3, b + 1) == g(x + 3, b));
    }
    assert(g(x + 3, y + 4) == g(x + 3, y)) by {
        let b = y + 3;
        assert(g(x + 3, b + 1) == g(x + 3, b));
    }
    assert(g(x + 3, y - 1) == g(x + 3, y)) by {
        let b = y - 1;
        assert(g(x + 3, b + 1) == g(x + 3, b));
    }
    assert(g(x + 3, y - 2) == g(x + 3, y)) by {
        let b = y - 2;
        assert(g(x + 3, b + 1) == g(x + 3, b));
    }
    assert(g(x + 4, y + 1) == g(x + 4, y)) by {
        let b = y;
        assert(g(x + 4, b + 1) == g(x + 4, b));
    }
    assert(g(x + 4, y + 2) == g(x + 4, y)) by {
        let b = y + 1;
        assert(g(x + 4, b + 1) == g(x + 4, b));
    }
    assert(g(x + 4, y + 3) == g(x + 4, y)) by {
        let b = y + 2;
        assert(g(x + 4, b + 1) == g(x + 4, b));
    }
    assert(g(x + 4, y + 4) == g(x + 4, y)) by {
        let b = y + 3;
        assert(g(x + 4, b + 1) == g(x + 4, b));
    }
    assert(g(x + 4, y - 1) == g(x + 4, y)) by {
        let b = y - 1;
        assert(g(x + 4, b + 1) == g(x + 4, b));
    }
    assert(g(x + 4, y - 2) == g(x + 4, y)) by {
        let b = y - 2;
        assert(g(x + 4, b + 1) == g(x + 4, b));
    }
    assert(b1(g, x, y - 2) == 32 * gg + 32 * d);
    assert(b1(g, x, y - 1) == 32 * gg + 32 * d);
    assert(b1(g, x, y) == 32 * gg + 32 * d);
    assert(b1(g, x, y + 1) == 32 * gg + 32 * d);
    assert(b1(g, x, y + 2) == 32 * gg + 32 * d);
    assert(b1(g, x, y + 3) == 32 * gg + 32 * d);
    assert(h1(g, x, y) == 32 * gg);
    assert(h1(g, x + 1, y) == 32 * gg + 64 * d);
    assert(g(x, y + 1) == gg);
    assert(j1(g, x, y) == 1024 * gg + 1024 * d);
    assert(half_sample(32 * gg + 32 * d) == gg + d);
    assert(centre_sample(1024 * gg + 1024 * d) == gg + d);
    assert(half_sample(32 * gg) == gg);
    assert(half_sample(32 * gg + 64 * d) == gg + 2 * d);
    assert(xf == 0 || xf == 1 || xf == 2 || xf == 3);
}

/// Table 8-12 on a picture that rises by `2 * d` per sample downwards and
/// does not change to the right: every quarter-sample position, whatever
/// its horizontal fraction, is predicted as `(2 * G + yf * d + 1) >> 1`
/// from the integer sample `G` above it, while the samples it reads stay
/// in `0..=255`.
#[verifier::rlimit(40)]
pub proof fn lemma_luma_pel_vertical_ramp(g: Grid, d: int, x: int, y: int, xf: int, yf: int)
    requires
        forall|a: int, b: int| #[trigger] g(a, b + 1) == g(a, b) + 2 * d,
        forall|a: int, b: int| #[trigger] g(a + 1, b) == g(a, b),
        0 <= g(x, y) <= 255,
        0 <= g(x, y) + 2 * d <= 255,
        0 <= xf <= 3,
        0 <= yf <= 3,
    ensures
        luma_pel(g, x, y, xf, yf) == (2 * g(x, y) + yf * d + 1) / 2,
{
    let gg = g(x, y);
    assert(g(x, y + 1) == gg + 2 * d) by {
        let b = y;
        assert(g(x, b + 1) == g(x, b) + 2 * d);
    }
    assert(g(x, y + 2) == gg + 4 * d) by {
        let b = y + 1;
        assert(g(x, b + 1) == g(x, b) + 2 * d);
    }
    assert(g(x, y + 3) == gg + 6 * d) by {
        let b = y + 2;
        assert(g(x, b + 1) == g(x, b) + 2 * d);
    }
    assert(g(x, y + 4) == gg + 8 * d) by {
        let b = y + 3;
        assert(g(x, b + 1) == g(x, b) + 2 * d);
    }
    assert(g(x, y - 1) == gg - 2 * d) by {
        let b = y - 1;
        assert(g(x, b + 1) == g(x, b) + 2 * d);
    }
    assert(g(x, y - 2) == gg - 4 * d) by {
        let b = y - 2;
        assert(g(x, b + 1) == g(x, b) + 2 * d);
    }
    assert(g(x + 1, y - 2) == g(x, y - 2)) by {
        let a = x;
        assert(g(a + 1, y - 2) == g(a, y - 2));
    }
    assert(g(x + 2, y - 2) == g(x, y - 2)) by {
        let a = x + 1;
        assert(g(a + 1, y - 2) == g(a, y - 2));
    }
    assert(g(x + 3, y - 2) == g(x, y - 2)) by {
        let a = x + 2;
        assert(g(a + 1, y - 2) == g(a, y - 2));
    }
    assert(g(x + 4, y - 2) == g(x, y - 2)) by {
        let a = x + 3;
        assert(g(a + 1, y - 2) == g(a, y - 2));
    }
    assert(g(x - 1, y - 2) == g(x, y - 2)) by {
        let a = x - 1;
        assert(g(a + 1, y - 2) == g(a, y - 2));
    }
    assert(g(x - 2, y - 2) == g(x, y - 2)) by {
        let a = x - 2;
        assert(g(a + 1, y - 2) == g(a, y - 2));
    }
    assert(g(x + 1, y - 1) == g(x, y - 1)) by {
        let a = x;
        assert(g(a + 1, y - 1) == g(a, y - 1));
    }
    assert(g(x + 2, y - 1) == g(x, y - 1)) by {
        let a = x + 1;
        assert(g(a + 1, y - 1) == g(a, y - 1));
    }
    assert(g(x + 3, y - 1) == g(x, y - 1)) by {
        let a = x + 2;
        assert(g(a + 1, y - 1) == g(a, y - 1));
    }
    assert(g(x + 4, y - 1) == g(x, y - 1)) by {
        let a = x + 3;
        assert(g(a + 1, y - 1) == g(a, y - 1));
    }
    assert(g(x - 1, y - 1) == g(x, y - 1)) by {
        let a = x - 1;
        assert(g(a + 1, y - 1) == g(a, y - 1));
    }
    assert(g(x - 2, y - 1) == g(x, y - 1)) by {
        let a = x - 2;
        assert(g(a + 1, y - 1) == g(a, y - 1));
    }
    assert(g(x + 1, y) == g(x, y)) by {
        let a = x;
        assert(g(a + 1, y) == g(a, y));
    }
    assert(g(x + 2, y) == g(x, y)) by {
        let a = x + 1;
        assert(g(a + 1, y) == g(a, y));
    }
    assert(g(x + 3, y) == g(x, y)) by {
        let a = x + 2;
        assert(g(a + 1, y) == g(a, y));
    }
    assert(g(x + 4, y) == g(x, y)) by {
        let a = x + 3;
        assert(g(a + 1, y) == g(a, y));
    }
    assert(g(x - 1, y) == g(x, y)) by {
        let a = x - 1;
        assert(g(a + 1, y) == g(a, y));
    }
    assert(g(x - 2, y) == g(x, y)) by {
        let a = x - 2;
        assert(g(a + 1, y) == g(a, y));
    }
    assert(g(x + 1, y + 1) == g(x, y + 1)) by {
        let a = x;
        assert(g(a + 1, y + 1) == g(a, y + 1));
    }
    assert(g(x + 2, y + 1) == g(x, y + 1)) by {
        let a = x + 1;
        assert(g(a + 1, y + 1) == g(a, y + 1));
    }
    assert(g(x + 3, y + 1) == g(x, y + 1)) by {
        let a = x + 2;
        assert(g(a + 1, y + 1) == g(a, y + 1));
    }
    assert(g(x + 4, y + 1) == g(x, y + 1)) by {
        let a = x + 3;
        assert(g(a + 1, y + 1) == g(a, y + 1));
    }
    assert(g(x - 1, y + 1) == g(x, y + 1)) by {
        let a = x - 1;
        assert(g(a + 1, y + 1) == g(a, y + 1));
    }
    assert(g(x - 2, y + 1) == g(x, y + 1)) by {
        let a = x - 2;
        assert(g(a + 1, y + 1) == g(a, y + 1));
    }
    assert(g(x + 1, y + 2) == g(x, y + 2)) by {
        let a = x;
        assert(g(a + 1, y + 2) == g(a, y + 2));
    }
    assert(g(x + 2, y + 2) == g(x, y + 2)) by {
        let a = x + 1;
        assert(g(a + 1, y + 2) == g(a, y + 2));
    }
    assert(g(x + 3, y + 2) == g(x, y + 2)) by {
        let a = x + 2;
        assert(g(a + 1, y + 2) == g(a, y + 2));
    }
    assert(g(x + 4, y + 2) == g(x, y + 2)) by {
        let a = x + 3;
        assert(g(a + 1, y + 2) == g(a, y + 2));
    }
    assert(g(x - 1, y + 2) == g(x, y + 2)) by {
        let a = x - 1;
        assert(g(a + 1, y + 2) == g(a, y + 2));
    }
    assert(g(x - 2, y + 2) == g(x, y + 2)) by {
        let a = x - 2;
        assert(g(a + 1, y + 2) == g(a, y + 2));
    }
    assert(g(x + 1, y + 3) == g(x, y + 3)) by {
        let a = x;
        assert(g(a + 1, y + 3) == g(a, y + 3));
    }
    assert(g(x + 2, y + 3) == g(x, y + 3)) by {
        let a = x + 1;
        assert(g(a + 1, y + 3) == g(a, y + 3));
    }
    assert(g(x + 3, y + 3) == g(x, y + 3)) by {
        let a = x + 2;
        assert(g(a + 1, y + 3) == g(a, y + 3));
    }
    assert(g(x + 4, y + 3) == g(x, y + 3)) by {
        let a = x + 3;
        assert(g(a + 1, y + 3) == g(a, y + 3));
    }
    assert(g(x - 1, y + 3) == g(x, y + 3)) by {
        let a = x - 1;
        assert(g(a + 1, y + 3) == g(a, y + 3));
    }
    assert(g(x - 2, y + 3) == g(x, y + 3)) by {
        let a = x - 2;
        assert(g(a + 1, y + 3) == g(a, y + 3));
    }
    assert(g(x + 1, y + 4) == g(x, y + 4)) by {
        let a = x;
        assert(g(a + 1, y + 4) == g(a, y + 4));
    }
    assert(g(x + 2, y + 4) == g(x, y + 4)) by {
        let a = x + 1;
        assert(g(a + 1, y + 4) == g(a, y + 4));
    }
    assert(g(x + 3, y + 4) == g(x, y + 4)) by {
        let a = x + 2;
        assert(g(a + 1, y + 4) == g(a, y + 4));
    }
    assert(g(x + 4, y + 4) == g(x, y + 4)) by {
        let a = x + 3;
        assert(g(a + 1, y + 4) == g(a, y + 4));
    }
    assert(g(x - 1, y + 4) == g(x, y + 4)) by {
        let a = x - 1;
        assert(g(a + 1, y + 4) == g(a, y + 4));
    }
    assert(g(x - 2, y + 4) == g(x, y + 4)) by {
        let a = x - 2;
        assert(g(a + 1, y + 4) == g(a, y + 4));
    }
    assert(h1(g, x, y) == 32 * gg + 32 * d);
    assert(h1(g, x + 1, y) == 32 * gg + 32 * d);
    assert(b1(g, x, y - 2) == 32 * g(x, y - 2));
    assert(b1(g, x, y - 1) == 32 * g(x, y - 1));
    assert(b1(g, x, y) == 32 * g(x, y));
    assert(b1(g, x, y + 1) == 32 * g(x, y + 1));
    assert(b1(g, x, y + 2) == 32 * g(x, y + 2));
    assert(b1(g, x, y + 3) == 32 * g(x, y + 3));
    assert(b1(g, x, y + 1) == 32 * gg + 64 * d);
    assert(g(x + 1, y) == gg);
    assert(j1(g, x, y) == 1024 * gg + 1024 * d);
    assert(half_sample(32 * gg + 32 * d) == gg + d);
    assert(centre_sample(1024 * gg + 1024 * d) == gg + d);
    assert(half_sample(32 * gg) == gg);
    assert(half_sample(32 * gg + 64 * d) == gg + 2 * d);
    assert(yf == 0 || yf == 1 || yf == 2 || yf == 3);
}


proof fn lemma_bilinear_weights(gg: int, dx: int, dy: int, xf: int, yf: int)
    ensures
        (8 - xf) * (8 - yf) * gg + xf * (8 - yf) * (gg + 8 * dx) + (8 - xf) * yf * (gg + 8 * dy) + xf * yf * (gg
            + 8 * dx + 8 * dy) == 64 * (gg + xf * dx + yf * dy),
{
    let p = (8 - xf) * (8 - yf);
    let q = xf * (8 - yf);
    let r = (8 - xf) * yf;
    let t = xf * yf;
    assert(p + q + r + t == 64) by (nonlinear_arith)
        requires
            p == (8 - xf) * (8 - yf),
            q == xf * (8 - yf),
            r == (8 - xf) * yf,
            t == xf * yf,
    ;
    assert(q + t == 8 * xf) by (nonlinear_arith)
        requires
            q == xf * (8 - yf),
            t == xf * yf,
    ;
    assert(r + t == 8 * yf) by (nonlinear_arith)
        requires
            r == (8 - xf) * yf,
            t == xf * yf,
    ;
    assert(q * (gg + 8 * dx) == q * gg + 8 * (q * dx)) by (nonlinear_arith);
    assert(r * (gg + 8 * dy) == r * gg + 8 * (r * dy)) by (nonlinear_arith);
    assert(t * (gg + 8 * dx + 8 * dy) == t * gg + 8 * (t * dx) + 8 * (t * dy)) by (nonlinear_arith);
    assert(p * gg + q * gg + r * gg + t * gg == (p + q + r + t) * gg) by (nonlinear_arith);
    assert(q * dx + t * dx == (q + t) * dx) by (nonlinear_arith);
    assert(r * dy + t * dy == (r + t) * dy) by (nonlinear_arith);
    assert((8 * xf) * dx == 8 * (xf * dx)) by (nonlinear_arith);
    assert((8 * yf) * dy == 8 * (yf * dy)) by (nonlinear_arith);
    assert(64 * gg + 64 * (xf * dx) + 64 * (yf * dy) == 64 * (gg + xf * dx + yf * dy));
}

/// Eq. 8-270 on a planar picture, rising by `8 * dx` per sample to the
/// right and `8 * dy` per sample downwards: the chroma sample at eighth
/// offsets (`xf`, `yf`) is exactly `G + xf * dx + yf * dy`, `G` the integer
/// sample at its top left, while the result stays in `0..=255`.
pub proof fn lemma_chroma_pel_planar(g: Grid, dx: int, dy: int, x: int, y: int, xf: int, yf: int)
    requires
        forall|a: int, b: int| #[trigger] g(a + 1, b) == g(a, b) + 8 * dx,
        forall|a: int, b: int| #[trigger] g(a, b + 1) == g(a, b) + 8 * dy,
        0 <= xf <= 7,
        0 <= yf <= 7,
        0 <= g(x, y) + xf * dx + yf * dy <= 255,
    ensures
        chroma_pel(g, x, y, xf, yf) == g(x, y) + xf * dx + yf * dy,
{
    let gg = g(x, y);
    assert(g(x + 1, y) == gg + 8 * dx);
    assert(g(x, y + 1) == gg + 8 * dy);
    assert(g(x + 1, y + 1) == gg + 8 * dx + 8 * dy) by {
        let b = y;
        assert(g(x + 1, b + 1) == g(x + 1, b) + 8 * dy);
    }
    lemma_bilinear_weights(gg, dx, dy, xf, yf);
    let k = gg + xf * dx + yf * dy;
    assert((64 * k + 32) / 64 == k);
}

} // verus!
