//! Intra sample prediction (Section 8.3): the predicted samples of a block
//! from the reconstructed samples above and to the left of it.
use crate::arith::{clip1, clip_u8, lemma_i32_shr};
use crate::macroblock::{blk4_x, blk4_y, scan_4x4, spec_scan_4x4, Intra_Chroma_Pred_Mode};
use crate::frame::PlaneBuf;
use crate::plane::{Plane, PlaneConfig, Point};
use vstd::prelude::*;

verus! {

/// `Intra8x8PredMode` (Table 8-3).
#[allow(non_camel_case_types)]
#[derive(Clone, Copy, Debug, PartialEq, Eq, Structural)]
pub enum Intra_8x8_SamplePredMode {
    Vertical,
    Horizontal,
    DC,
    Diagonal_Down_Left,
    Diagonal_Down_Right,
    Vertical_Right,
    Horizontal_Down,
    Vertical_Left,
    Horizontal_Up,
}

/// `(a + 2 * b + c + 2) >> 2`, the 3-tap low-pass filter of the intra
/// modes.
pub open spec fn w3(a: int, b: int, c: int) -> u8 {
    ((a + 2 * b + c + 2) / 4) as u8
}

/// `(a + b + 1) >> 1`, the 2-tap average of the intra modes.
pub open spec fn av(a: int, b: int) -> u8 {
    ((a + b + 1) / 2) as u8
}

/// (A + 2*B + C + 2) >> 2 -- the 3-tap low-pass used throughout Intra 4x4
/// and 8x8.
pub fn weighted_avg3(a: u8, b: u8, c: u8) -> (r: u8)
    ensures
        r == w3(a as int, b as int, c as int),
{
    ((a as u16 + 2 * (b as u16) + c as u16 + 2) / 4) as u8
}

/// (A + B + 1) >> 1 -- the 2-tap average used throughout Intra 4x4 and
/// 8x8.
pub fn avg(a: u8, b: u8) -> (r: u8)
    ensures
        r == av(a as int, b as int),
{
    ((a as u16 + b as u16 + 1) / 2) as u8
}

/// The reference samples of an 8x8 luma block after the filtering of
/// Section 8.3.2.2.1: `p_top[x]` is `p'[x, -1]`, `p_left[y]` is `p'[-1, y]`
/// and `p_corner` is `p'[-1, -1]`; with which of them are available.
#[derive(Clone, Copy, Debug, Default)]
pub struct Surroundings8x8 {
    pub offset: Point,
    pub p_top: [u8; 16],
    pub p_left: [u8; 8],
    pub p_corner: u8,
    pub top_available: bool,
    pub left_available: bool,
    pub corner_available: bool,
}

/// The sum of the first eight samples of `s`.
pub open spec fn sum8(s: Seq<u8>) -> int {
    s[0] + s[1] + s[2] + s[3] + s[4] + s[5] + s[6] + s[7]
}

/// Section 8.3.2.2.4, Equations 8-91 to 8-94: the value of every sample of
/// an Intra_8x8_DC block.
pub open spec fn dc8(c: Surroundings8x8) -> u8 {
    if c.top_available && c.left_available {
        ((sum8(c.p_top@) + sum8(c.p_left@) + 8) / 16) as u8
    } else if c.top_available {
        ((sum8(c.p_top@) + 4) / 8) as u8
    } else if c.left_available {
        ((sum8(c.p_left@) + 4) / 8) as u8
    } else {
        128
    }
}

/// `p'[i, -1]`, where index -1 is the corner.
pub open spec fn top_or_corner(c: Surroundings8x8, i: int) -> int {
    if i < 0 {
        c.p_corner as int
    } else {
        c.p_top@[i] as int
    }
}

/// `p'[-1, i]`, where index -1 is the corner.
pub open spec fn left_or_corner(c: Surroundings8x8, i: int) -> int {
    if i < 0 {
        c.p_corner as int
    } else {
        c.p_left@[i] as int
    }
}

/// Sections 8.3.2.2.2 to 8.3.2.2.10: predicted sample `pred8x8L[x, y]` of
/// an 8x8 luma block in `mode`, from the filtered reference samples `c`.
pub open spec fn pred8(c: Surroundings8x8, mode: Intra_8x8_SamplePredMode, x: int, y: int) -> u8 {
    let t = |i: int| c.p_top@[i] as int;
    let l = |i: int| c.p_left@[i] as int;
    match mode {
        // Equation 8-89
        Intra_8x8_SamplePredMode::Vertical => c.p_top@[x],
        // Equation 8-90
        Intra_8x8_SamplePredMode::Horizontal => c.p_left@[y],
        Intra_8x8_SamplePredMode::DC => dc8(c),
        // Equations 8-95 and 8-96
        Intra_8x8_SamplePredMode::Diagonal_Down_Left => if x == 7 && y == 7 {
            w3(t(14), t(15), t(15))
        } else {
            w3(t(x + y), t(x + y + 1), t(x + y + 2))
        },
        // Equations 8-97 to 8-99
        Intra_8x8_SamplePredMode::Diagonal_Down_Right => if x > y {
            w3(top_or_corner(c, x - y - 2), top_or_corner(c, x - y - 1), t(x - y))
        } else if x < y {
            w3(left_or_corner(c, y - x - 2), left_or_corner(c, y - x - 1), l(y - x))
        } else {
            w3(t(0), c.p_corner as int, l(0))
        },
        // Equations 8-100 to 8-103
        Intra_8x8_SamplePredMode::Vertical_Right => {
            let z = 2 * x - y;
            let i = x - y / 2;
            if z >= 0 && z % 2 == 0 {
                av(top_or_corner(c, i - 1), top_or_corner(c, i))
            } else if z > 0 {
                w3(top_or_corner(c, i - 2), top_or_corner(c, i - 1), top_or_corner(c, i))
            } else if z == -1 {
                w3(l(0), c.p_corner as int, t(0))
            } else {
                let k = y - 2 * x - 1;
                w3(left_or_corner(c, k - 2), left_or_corner(c, k - 1), l(k))
            }
        },
        // Equations 8-104 to 8-107
        Intra_8x8_SamplePredMode::Horizontal_Down => {
            let z = 2 * y - x;
            let i = y - x / 2;
            if z >= 0 && z % 2 == 0 {
                av(left_or_corner(c, i - 1), left_or_corner(c, i))
            } else if z > 0 {
                w3(left_or_corner(c, i - 2), left_or_corner(c, i - 1), left_or_corner(c, i))
            } else if z == -1 {
                w3(l(0), c.p_corner as int, t(0))
            } else {
                let k = x - 2 * y - 1;
                w3(top_or_corner(c, k - 2), top_or_corner(c, k - 1), t(k))
            }
        },
        // Equations 8-108 and 8-109
        Intra_8x8_SamplePredMode::Vertical_Left => {
            let i = x + y / 2;
            if y % 2 == 0 {
                av(t(i), t(i + 1))
            } else {
                w3(t(i), t(i + 1), t(i + 2))
            }
        },
        // Equations 8-110 to 8-113
        Intra_8x8_SamplePredMode::Horizontal_Up => {
            let z = x + 2 * y;
            let i = y + x / 2;
            if z <= 12 && z % 2 == 0 {
                av(l(i), l(i + 1))
            } else if z <= 11 {
                w3(l(i), l(i + 1), l(i + 2))
            } else if z == 13 {
                w3(l(6), l(7), l(7))
            } else {
                c.p_left@[7]
            }
        },
    }
}

fn top_or_corner_exec(c: &Surroundings8x8, i: i32) -> (v: u8)
    requires
        i < 16,
    ensures
        v as int == top_or_corner(*c, i as int),
{
    if i < 0 {
        c.p_corner
    } else {
        c.p_top[i as usize]
    }
}

fn left_or_corner_exec(c: &Surroundings8x8, i: i32) -> (v: u8)
    requires
        i < 8,
    ensures
        v as int == left_or_corner(*c, i as int),
{
    if i < 0 {
        c.p_corner
    } else {
        c.p_left[i as usize]
    }
}

fn dc8_exec(c: &Surroundings8x8) -> (v: u8)
    ensures
        v == dc8(*c),
{
    let t = &c.p_top;
    let l = &c.p_left;
    let st: u32 = t[0] as u32 + t[1] as u32 + t[2] as u32 + t[3] as u32 + t[4] as u32 + t[5] as u32
        + t[6] as u32 + t[7] as u32;
    let sl: u32 = l[0] as u32 + l[1] as u32 + l[2] as u32 + l[3] as u32 + l[4] as u32 + l[5] as u32
        + l[6] as u32 + l[7] as u32;
    if c.top_available && c.left_available {
        ((st + sl + 8) / 16) as u8
    } else if c.top_available {
        ((st + 4) / 8) as u8
    } else if c.left_available {
        ((sl + 4) / 8) as u8
    } else {
        128
    }
}

/// Predicted sample `pred8x8L[x, y]` (see `pred8`).
fn pred8_sample(c: &Surroundings8x8, mode: Intra_8x8_SamplePredMode, x: i32, y: i32, dc: u8) -> (v: u8)
    requires
        0 <= x < 8,
        0 <= y < 8,
        dc == dc8(*c),
    ensures
        v == pred8(*c, mode, x as int, y as int),
{
    let t = &c.p_top;
    let l = &c.p_left;
    match mode {
        Intra_8x8_SamplePredMode::Vertical => t[x as usize],
        Intra_8x8_SamplePredMode::Horizontal => l[y as usize],
        Intra_8x8_SamplePredMode::DC => dc,
        Intra_8x8_SamplePredMode::Diagonal_Down_Left => {
            let i = (x + y) as usize;
            if x == 7 && y == 7 {
                weighted_avg3(t[14], t[15], t[15])
            } else {
                weighted_avg3(t[i], t[i + 1], t[i + 2])
            }
        },
        Intra_8x8_SamplePredMode::Diagonal_Down_Right => {
            if x > y {
                let i = x - y;
                weighted_avg3(top_or_corner_exec(c, i - 2), top_or_corner_exec(c, i - 1), t[i as usize])
            } else if x < y {
                let i = y - x;
                weighted_avg3(left_or_corner_exec(c, i - 2), left_or_corner_exec(c, i - 1), l[i as usize])
            } else {
                weighted_avg3(t[0], c.p_corner, l[0])
            }
        },
        Intra_8x8_SamplePredMode::Vertical_Right => {
            let z = 2 * x - y;
            let i = x - y / 2;
            if z >= 0 && z % 2 == 0 {
                avg(top_or_corner_exec(c, i - 1), top_or_corner_exec(c, i))
            } else if z > 0 {
                weighted_avg3(top_or_corner_exec(c, i - 2), top_or_corner_exec(c, i - 1), top_or_corner_exec(c, i))
            } else if z == -1 {
                weighted_avg3(l[0], c.p_corner, t[0])
            } else {
                let k = y - 2 * x - 1;
                weighted_avg3(left_or_corner_exec(c, k - 2), left_or_corner_exec(c, k - 1), l[k as usize])
            }
        },
        Intra_8x8_SamplePredMode::Horizontal_Down => {
            let z = 2 * y - x;
            let i = y - x / 2;
            if z >= 0 && z % 2 == 0 {
                avg(left_or_corner_exec(c, i - 1), left_or_corner_exec(c, i))
            } else if z > 0 {
                weighted_avg3(left_or_corner_exec(c, i - 2), left_or_corner_exec(c, i - 1), left_or_corner_exec(c, i))
            } else if z == -1 {
                weighted_avg3(l[0], c.p_corner, t[0])
            } else {
                let k = x - 2 * y - 1;
                weighted_avg3(top_or_corner_exec(c, k - 2), top_or_corner_exec(c, k - 1), t[k as usize])
            }
        },
        Intra_8x8_SamplePredMode::Vertical_Left => {
            let i = (x + y / 2) as usize;
            if y % 2 == 0 {
                avg(t[i], t[i + 1])
            } else {
                weighted_avg3(t[i], t[i + 1], t[i + 2])
            }
        },
        Intra_8x8_SamplePredMode::Horizontal_Up => {
            let z = x + 2 * y;
            let i = (y + x / 2) as usize;
            if z <= 12 && z % 2 == 0 {
                avg(l[i], l[i + 1])
            } else if z <= 11 {
                weighted_avg3(l[i], l[i + 1], l[i + 2])
            } else if z == 13 {
                weighted_avg3(l[6], l[7], l[7])
            } else {
                l[7]
            }
        },
    }
}

/// Section 8.3.2.2: the predicted samples of an 8x8 luma block in `mode`;
/// `pred[y][x]` holds `pred8x8L[x, y]` (see `pred8`).
pub fn fill_predicted_8x8(pred: &mut [[u8; 8]; 8], ctx: &Surroundings8x8, mode: Intra_8x8_SamplePredMode)
    ensures
        forall|x: int, y: int|
            0 <= x < 8 && 0 <= y < 8 ==> #[trigger] final(pred)@[y]@[x] == pred8(*ctx, mode, x, y),
{
    let dc = dc8_exec(ctx);
    let mut y: usize = 0;
    while y < 8
        invariant
            y <= 8,
            dc == dc8(*ctx),
            forall|xx: int, yy: int|
                0 <= xx < 8 && 0 <= yy < y ==> #[trigger] pred@[yy]@[xx] == pred8(*ctx, mode, xx, yy),
        decreases 8 - y,
    {
        let mut row = [0u8; 8];
        let mut x: usize = 0;
        while x < 8
            invariant
                x <= 8,
                y < 8,
                dc == dc8(*ctx),
                forall|xx: int| 0 <= xx < x ==> #[trigger] row@[xx] == pred8(*ctx, mode, xx, y as int),
            decreases 8 - x,
        {
            row[x] = pred8_sample(ctx, mode, x as i32, y as i32, dc);
            x = x + 1;
        }
        pred[y] = row;
        y = y + 1;
    }
}

/// Every mode predicts a flat block from flat reference samples: the
/// filters and averages of Section 8.3.2.2 keep a constant, and the DC mode
/// averages it whenever a side is available.
pub proof fn lemma_flat_references_predict_flat(c: Surroundings8x8, k: u8, mode: Intra_8x8_SamplePredMode)
    requires
        forall|i: int| 0 <= i < 16 ==> #[trigger] c.p_top@[i] == k,
        forall|i: int| 0 <= i < 8 ==> #[trigger] c.p_left@[i] == k,
        c.p_corner == k,
        mode == Intra_8x8_SamplePredMode::DC ==> c.top_available || c.left_available,
    ensures
        forall|x: int, y: int| 0 <= x < 8 && 0 <= y < 8 ==> #[trigger] pred8(c, mode, x, y) == k,
{
    assert(w3(k as int, k as int, k as int) == k);
    assert(av(k as int, k as int) == k);
    assert(sum8(c.p_top@) == 8 * k);
    assert(sum8(c.p_left@) == 8 * k);
    assert forall|x: int, y: int| 0 <= x < 8 && 0 <= y < 8 implies #[trigger] pred8(c, mode, x, y) == k by {
        assert(forall|i: int| -1 <= i < 16 ==> #[trigger] top_or_corner(c, i) == k);
        assert(forall|i: int| -1 <= i < 8 ==> #[trigger] left_or_corner(c, i) == k);
    }
}

/// Section 8.3.2.2.1, Equations 8-78 to 8-81: the filtered samples above an
/// 8x8 block from the unfiltered `raw` ones, with the corner sample `corner`
/// where it is available.
pub open spec fn filter_top(raw: Seq<u8>, corner: u8, corner_available: bool) -> Seq<u8> {
    Seq::new(
        16,
        |x: int|
            if x == 0 {
                if corner_available {
                    w3(corner as int, raw[0] as int, raw[1] as int)
                } else {
                    ((3 * raw[0] + raw[1] + 2) / 4) as u8
                }
            } else if x == 15 {
                ((raw[14] + 3 * raw[15] + 2) / 4) as u8
            } else {
                w3(raw[x - 1] as int, raw[x] as int, raw[x + 1] as int)
            },
    )
}

/// Section 8.3.2.2.1, Equations 8-85 to 8-88: the filtered samples left of
/// an 8x8 block from the unfiltered `raw` ones.
pub open spec fn filter_left(raw: Seq<u8>, corner: u8, corner_available: bool) -> Seq<u8> {
    Seq::new(
        8,
        |y: int|
            if y == 0 {
                if corner_available {
                    w3(corner as int, raw[0] as int, raw[1] as int)
                } else {
                    ((3 * raw[0] + raw[1] + 2) / 4) as u8
                }
            } else if y == 7 {
                ((raw[6] + 3 * raw[7] + 2) / 4) as u8
            } else {
                w3(raw[y - 1] as int, raw[y] as int, raw[y + 1] as int)
            },
    )
}

fn filter_top_refs(raw: &[u8; 16], corner: u8, corner_available: bool) -> (r: [u8; 16])
    ensures
        r@ == filter_top(raw@, corner, corner_available),
{
    let mut r = [0u8; 16];
    r[0] = if corner_available {
        weighted_avg3(corner, raw[0], raw[1])
    } else {
        ((3 * (raw[0] as u16) + raw[1] as u16 + 2) / 4) as u8
    };
    let mut x: usize = 1;
    while x < 15
        invariant
            1 <= x <= 15,
            r@.len() == 16,
            r@[0] == filter_top(raw@, corner, corner_available)[0],
            forall|i: int| 1 <= i < x ==> #[trigger] r@[i] == filter_top(raw@, corner, corner_available)[i],
        decreases 15 - x,
    {
        r[x] = weighted_avg3(raw[x - 1], raw[x], raw[x + 1]);
        x = x + 1;
    }
    r[15] = ((raw[14] as u16 + 3 * (raw[15] as u16) + 2) / 4) as u8;
    assert(r@ =~= filter_top(raw@, corner, corner_available));
    r
}

fn filter_left_refs(raw: &[u8; 8], corner: u8, corner_available: bool) -> (r: [u8; 8])
    ensures
        r@ == filter_left(raw@, corner, corner_available),
{
    let mut r = [0u8; 8];
    r[0] = if corner_available {
        weighted_avg3(corner, raw[0], raw[1])
    } else {
        ((3 * (raw[0] as u16) + raw[1] as u16 + 2) / 4) as u8
    };
    let mut y: usize = 1;
    while y < 7
        invariant
            1 <= y <= 7,
            r@.len() == 8,
            r@[0] == filter_left(raw@, corner, corner_available)[0],
            forall|i: int| 1 <= i < y ==> #[trigger] r@[i] == filter_left(raw@, corner, corner_available)[i],
        decreases 7 - y,
    {
        r[y] = weighted_avg3(raw[y - 1], raw[y], raw[y + 1]);
        y = y + 1;
    }
    r[7] = ((raw[6] as u16 + 3 * (raw[7] as u16) + 2) / 4) as u8;
    assert(r@ =~= filter_left(raw@, corner, corner_available));
    r
}

/// The unfiltered samples above the 8x8 block at (`x`, `y`) of the buffer
/// `d` laid out as `cfg`: `p[0..15, -1]`, where those from 8 on repeat
/// `p[7, -1]` when they are not available (`has_top_right`).
pub open spec fn raw_top(d: Seq<u8>, cfg: PlaneConfig, x: int, y: int, has_top_right: bool) -> Seq<u8> {
    Seq::new(
        16,
        |i: int|
            if i < 8 || has_top_right {
                sample_of(d, cfg, x + i, y - 1)
            } else {
                sample_of(d, cfg, x + 7, y - 1)
            },
    )
}

/// The unfiltered samples left of the 8x8 block at (`x`, `y`): `p[-1,
/// 0..7]`.
pub open spec fn raw_left(d: Seq<u8>, cfg: PlaneConfig, x: int, y: int) -> Seq<u8> {
    Seq::new(8, |i: int| sample_of(d, cfg, x - 1, y + i))
}

/// The reference samples of the 8x8 block at (`x`, `y`) of the buffer `d`
/// laid out as `cfg`, as `Surroundings8x8::load` reads and filters them
/// with the given availabilities.
pub open spec fn refs8_loaded(
    c: Surroundings8x8,
    d: Seq<u8>,
    cfg: PlaneConfig,
    x: int,
    y: int,
    has_top: bool,
    has_left: bool,
    has_corner: bool,
    has_top_right: bool,
) -> bool {
    let top_av = has_top && y > 0;
    let left_av = has_left && x > 0;
    let corner_av = has_corner && y > 0 && x > 0;
    let top = if top_av {
        raw_top(d, cfg, x, y, has_top_right)
    } else {
        Seq::new(16, |i: int| 0u8)
    };
    let left = if left_av {
        raw_left(d, cfg, x, y)
    } else {
        Seq::new(8, |i: int| 0u8)
    };
    let corner = if corner_av {
        sample_of(d, cfg, x - 1, y - 1)
    } else {
        0u8
    };
    &&& c.offset == Point { x: x as u32, y: y as u32 }
    &&& c.top_available == top_av
    &&& c.left_available == left_av
    &&& c.corner_available == corner_av
    &&& c.p_top@ == (if top_av {
        filter_top(top, corner, corner_av)
    } else {
        top
    })
    &&& c.p_left@ == (if left_av {
        filter_left(left, corner, corner_av)
    } else {
        left
    })
    &&& c.p_corner == (if corner_av {
        w3(top[0] as int, corner as int, left[0] as int)
    } else {
        0u8
    })
}

/// The reference samples of the 8x8 block at (`x`, `y`) of `plane` after
/// `Surroundings8x8::load` with the given availabilities (see
/// `refs8_loaded`).
pub open spec fn loaded8x8(
    c: Surroundings8x8,
    plane: Plane,
    x: int,
    y: int,
    has_top: bool,
    has_left: bool,
    has_corner: bool,
    has_top_right: bool,
) -> bool {
    refs8_loaded(c, plane.data@, plane.cfg, x, y, has_top, has_left, has_corner, has_top_right)
}

/// Sample (`x`, `y`) of `plane`, counted from its first visible sample,
/// wherever it lies in the buffer.
fn sample_at(plane: &Plane, x: usize, y: usize) -> (v: u8)
    requires
        plane.cfg.yorigin + y <= usize::MAX,
        plane.cfg.index_of(x as int, y as int) < plane.data@.len(),
    ensures
        v == plane.sample(x as int, y as int),
{
    let len = plane.data.len();
    let r = plane.cfg.yorigin + y;
    assert(0 <= r * plane.cfg.stride) by (nonlinear_arith)
        requires
            r >= 0,
            plane.cfg.stride >= 0,
    ;
    plane.data[r * plane.cfg.stride + plane.cfg.xorigin + x]
}

impl Surroundings8x8 {
    /// Section 8.3.2.2: loads the reference samples of the 8x8 block at
    /// `blk_loc` of `plane` and filters them (Section 8.3.2.2.1). `has_top`,
    /// `has_left` and `has_corner` say whether the samples above, left of and
    /// above-left of the block are available for prediction, and
    /// `has_top_right` whether those above and right of it are; samples on
    /// the picture's first row or column never are.
    pub fn load(
        &mut self,
        plane: &Plane,
        blk_loc: Point,
        has_top: bool,
        has_left: bool,
        has_corner: bool,
        has_top_right: bool,
    )
        requires
            plane.cfg.yorigin + blk_loc.y + 8 <= usize::MAX,
            has_top && blk_loc.y > 0 ==> plane.cfg.index_of(
                blk_loc.x + (if has_top_right {
                    15int
                } else {
                    7int
                }),
                blk_loc.y - 1,
            ) < plane.data@.len(),
            has_left && blk_loc.x > 0 ==> plane.cfg.index_of(blk_loc.x - 1, blk_loc.y + 7)
                < plane.data@.len(),
            has_corner && blk_loc.y > 0 && blk_loc.x > 0 ==> plane.cfg.index_of(
                blk_loc.x - 1,
                blk_loc.y - 1,
            ) < plane.data@.len(),
        ensures
            loaded8x8(
                *final(self),
                *plane,
                blk_loc.x as int,
                blk_loc.y as int,
                has_top,
                has_left,
                has_corner,
                has_top_right,
            ),
    {
        let x = blk_loc.x as usize;
        let y = blk_loc.y as usize;
        let top_available = has_top && y > 0;
        let left_available = has_left && x > 0;
        let corner_available = has_corner && y > 0 && x > 0;
        let ghost top_spec = raw_top(plane.data@, plane.cfg, x as int, y as int, has_top_right);
        let ghost left_spec = raw_left(plane.data@, plane.cfg, x as int, y as int);
        let mut top_row_raw = [0u8; 16];
        let mut left_col_raw = [0u8; 8];
        let mut corner_raw = 0u8;
        let len = plane.data.len();
        if top_available {
            assert(0 <= (plane.cfg.yorigin + y - 1) * plane.cfg.stride) by (nonlinear_arith)
                requires
                    y > 0,
            ;
            let mut i: usize = 0;
            while i < 16
                invariant
                    i <= 16,
                    y > 0,
                    top_row_raw@.len() == 16,
                    len == plane.data@.len(),
                    0 <= (plane.cfg.yorigin + y - 1) * plane.cfg.stride,
                    plane.cfg.yorigin + y + 8 <= usize::MAX,
                    plane.cfg.index_of(
                        x + (if has_top_right {
                            15int
                        } else {
                            7int
                        }),
                        y - 1,
                    ) < plane.data@.len(),
                    top_spec == raw_top(plane.data@, plane.cfg, x as int, y as int, has_top_right),
                    forall|j: int| 0 <= j < i ==> #[trigger] top_row_raw@[j] == top_spec[j],
                decreases 16 - i,
            {
                let col = if i < 8 || has_top_right {
                    x + i
                } else {
                    x + 7
                };
                top_row_raw[i] = sample_at(plane, col, y - 1);
                i = i + 1;
            }
        }
        if left_available {
            let mut i: usize = 0;
            while i < 8
                invariant
                    i <= 8,
                    x > 0,
                    left_col_raw@.len() == 8,
                    plane.cfg.yorigin + y + 8 <= usize::MAX,
                    plane.cfg.index_of(x - 1, y + 7) < plane.data@.len(),
                    left_spec == raw_left(plane.data@, plane.cfg, x as int, y as int),
                    forall|j: int| 0 <= j < i ==> #[trigger] left_col_raw@[j] == left_spec[j],
                decreases 8 - i,
            {
                assert((plane.cfg.yorigin + y + i) * plane.cfg.stride <= (plane.cfg.yorigin + y + 7)
                    * plane.cfg.stride) by (nonlinear_arith)
                    requires
                        i < 8,
                ;
                left_col_raw[i] = sample_at(plane, x - 1, y + i);
                i = i + 1;
            }
        }
        if corner_available {
            corner_raw = sample_at(plane, x - 1, y - 1);
        }
        assert(top_row_raw@ =~= (if top_available {
            top_spec
        } else {
            Seq::new(16, |i: int| 0u8)
        }));
        assert(left_col_raw@ =~= (if left_available {
            left_spec
        } else {
            Seq::new(8, |i: int| 0u8)
        }));
        self.top_available = top_available;
        self.left_available = left_available;
        self.corner_available = corner_available;
        self.p_top = if top_available {
            filter_top_refs(&top_row_raw, corner_raw, corner_available)
        } else {
            top_row_raw
        };
        self.p_left = if left_available {
            filter_left_refs(&left_col_raw, corner_raw, corner_available)
        } else {
            left_col_raw
        };
        self.p_corner = if corner_available {
            weighted_avg3(top_row_raw[0], corner_raw, left_col_raw[0])
        } else {
            0
        };
        self.offset = blk_loc;
    }
}

/// `Intra4x4PredMode` (Table 8-2).
#[allow(non_camel_case_types)]
#[derive(Clone, Copy, Debug, Default, PartialEq, Eq, Structural)]
pub enum Intra_4x4_SamplePredMode {
    Vertical,
    Horizontal,
    #[default]
    DC,
    Diagonal_Down_Left,
    Diagonal_Down_Right,
    Vertical_Right,
    Horizontal_Down,
    Vertical_Left,
    Horizontal_Up,
}

/// The reference samples of a 4x4 luma block (Section 8.3.1.2):
/// `top_row[0]` is `p[-1, -1]` and `top_row[1 + x]` is `p[x, -1]` for
/// `x` in `0..8`; `left_column[0]` is `p[-1, -1]` again and
/// `left_column[1 + y]` is `p[-1, y]` for `y` in `0..4`.
#[derive(Clone, Copy, Debug, Default)]
pub struct Surroundings4x4 {
    pub offset: Point,
    pub top_row: [u8; 9],
    pub left_column: [u8; 5],
}

impl Surroundings4x4 {
    /// The four samples above the block, `p[0..4, -1]`.
    pub fn top4(&self) -> (r: [u8; 4])
        ensures
            r@ == self.top_row@.subrange(1, 5),
    {
        let r = [self.top_row[1], self.top_row[2], self.top_row[3], self.top_row[4]];
        assert(r@ =~= self.top_row@.subrange(1, 5));
        r
    }

    /// The four samples left of the block, `p[-1, 0..4]`.
    pub fn left4(&self) -> (r: [u8; 4])
        ensures
            r@ == self.left_column@.subrange(1, 5),
    {
        let r = [self.left_column[1], self.left_column[2], self.left_column[3], self.left_column[4]];
        assert(r@ =~= self.left_column@.subrange(1, 5));
        r
    }
}

/// Section 8.3.1.2.3, Equations 8-48 to 8-51: the value of every sample of
/// an Intra_4x4_DC block with the reference samples `top` and `left` (laid
/// out as `Surroundings4x4::top_row` and `left_column`), where the samples
/// left of (`avail_a`) and above (`avail_b`) the block may be available.
pub open spec fn dc4_refs(top: Seq<u8>, left: Seq<u8>, avail_a: bool, avail_b: bool) -> u8 {
    let l = left;
    let t = top;
    let sa = l[1] + l[2] + l[3] + l[4];
    let sb = t[1] + t[2] + t[3] + t[4];
    if avail_a && avail_b {
        ((sa + sb + 4) / 8) as u8
    } else if avail_a {
        ((sa + 2) / 4) as u8
    } else if avail_b {
        ((sb + 2) / 4) as u8
    } else {
        128
    }
}

/// Sections 8.3.1.2.1 to 8.3.1.2.9: predicted sample `pred4x4L[x, y]` of a
/// 4x4 luma block in `mode`, from the reference samples `top` and `left`
/// (laid out as `Surroundings4x4::top_row` and `left_column`).
pub open spec fn pred4_refs(
    top: Seq<u8>,
    left: Seq<u8>,
    mode: Intra_4x4_SamplePredMode,
    avail_a: bool,
    avail_b: bool,
    x: int,
    y: int,
) -> u8 {
    let t = |i: int| top[i] as int;
    let l = |i: int| left[i] as int;
    match mode {
        // Equation 8-46
        Intra_4x4_SamplePredMode::Vertical => top[1 + x],
        // Equation 8-47
        Intra_4x4_SamplePredMode::Horizontal => left[1 + y],
        Intra_4x4_SamplePredMode::DC => dc4_refs(top, left, avail_a, avail_b),
        // Equations 8-52 and 8-53
        Intra_4x4_SamplePredMode::Diagonal_Down_Left => if x + y == 6 {
            w3(t(7), t(8), t(8))
        } else {
            w3(t(x + y + 1), t(x + y + 2), t(x + y + 3))
        },
        // Equations 8-54 to 8-56
        Intra_4x4_SamplePredMode::Diagonal_Down_Right => if x > y {
            w3(t(x - y - 1), t(x - y), t(x - y + 1))
        } else if x < y {
            w3(l(y - x - 1), l(y - x), l(y - x + 1))
        } else {
            w3(t(1), t(0), l(1))
        },
        // Equations 8-57 to 8-60
        Intra_4x4_SamplePredMode::Vertical_Right => {
            let z = 2 * x - y;
            let i = 1 + x - y / 2;
            if z >= 0 && z % 2 == 0 {
                av(t(i), t(i - 1))
            } else if z > 0 {
                w3(t(i - 2), t(i - 1), t(i))
            } else if z == -1 {
                w3(t(1), t(0), l(1))
            } else {
                w3(l(y - 2), l(y - 1), l(y))
            }
        },
        // Equations 8-61 to 8-64
        Intra_4x4_SamplePredMode::Horizontal_Down => {
            let z = 2 * y - x;
            let i = 1 + y - x / 2;
            if z >= 0 && z % 2 == 0 {
                av(l(i - 1), l(i))
            } else if z > 0 {
                w3(l(i - 2), l(i - 1), l(i))
            } else if z == -1 {
                w3(l(1), t(0), t(1))
            } else {
                w3(t(x - 2), t(x - 1), t(x))
            }
        },
        // Equations 8-65 and 8-66
        Intra_4x4_SamplePredMode::Vertical_Left => {
            let i = 1 + x + y / 2;
            if y % 2 == 0 {
                av(t(i), t(i + 1))
            } else {
                w3(t(i), t(i + 1), t(i + 2))
            }
        },
        // Equations 8-67 to 8-70
        Intra_4x4_SamplePredMode::Horizontal_Up => {
            let z = x + 2 * y;
            let i = 1 + y + x / 2;
            if z <= 4 && z % 2 == 0 {
                av(l(i), l(i + 1))
            } else if z <= 3 {
                w3(l(i), l(i + 1), l(i + 2))
            } else if z == 5 {
                w3(l(3), l(4), l(4))
            } else {
                left[4]
            }
        },
    }
}

/// `dc4_refs` over the reference samples of `c`.
pub open spec fn dc4(c: Surroundings4x4, avail_a: bool, avail_b: bool) -> u8 {
    dc4_refs(c.top_row@, c.left_column@, avail_a, avail_b)
}

/// `pred4_refs` over the reference samples of `c`.
pub open spec fn pred4(c: Surroundings4x4, mode: Intra_4x4_SamplePredMode, avail_a: bool, avail_b: bool, x: int, y: int) -> u8 {
    pred4_refs(c.top_row@, c.left_column@, mode, avail_a, avail_b, x, y)
}

fn dc4_exec(c: &Surroundings4x4, avail_a: bool, avail_b: bool) -> (v: u8)
    ensures
        v == dc4(*c, avail_a, avail_b),
{
    let l = &c.left_column;
    let t = &c.top_row;
    let sa: u32 = l[1] as u32 + l[2] as u32 + l[3] as u32 + l[4] as u32;
    let sb: u32 = t[1] as u32 + t[2] as u32 + t[3] as u32 + t[4] as u32;
    if avail_a && avail_b {
        ((sa + sb + 4) / 8) as u8
    } else if avail_a {
        ((sa + 2) / 4) as u8
    } else if avail_b {
        ((sb + 2) / 4) as u8
    } else {
        128
    }
}

/// Predicted sample `pred4x4L[x, y]` (see `pred4`).
#[verifier::rlimit(40)]
fn pred4_sample(c: &Surroundings4x4, mode: Intra_4x4_SamplePredMode, x: usize, y: usize, dc: u8) -> (v: u8)
    requires
        x < 4,
        y < 4,
    ensures
        mode != Intra_4x4_SamplePredMode::DC ==> v == pred4(*c, mode, false, false, x as int, y as int),
        mode == Intra_4x4_SamplePredMode::DC ==> v == dc,
{
    let t = &c.top_row;
    let l = &c.left_column;
    match mode {
        Intra_4x4_SamplePredMode::Vertical => t[1 + x],
        Intra_4x4_SamplePredMode::Horizontal => l[1 + y],
        Intra_4x4_SamplePredMode::DC => dc,
        Intra_4x4_SamplePredMode::Diagonal_Down_Left => {
            let i = x + y;
            if i == 6 {
                weighted_avg3(t[7], t[8], t[8])
            } else {
                weighted_avg3(t[i + 1], t[i + 2], t[i + 3])
            }
        },
        Intra_4x4_SamplePredMode::Diagonal_Down_Right => {
            if x > y {
                let i = 1 + x - y;
                weighted_avg3(t[i - 2], t[i - 1], t[i])
            } else if x < y {
                let i = 1 + y - x;
                weighted_avg3(l[i - 2], l[i - 1], l[i])
            } else {
                weighted_avg3(t[1], t[0], l[1])
            }
        },
        Intra_4x4_SamplePredMode::Vertical_Right => {
            let z = 2 * (x as i32) - (y as i32);
            if z >= 0 && z % 2 == 0 {
                let i = 1 + x - y / 2;
                avg(t[i], t[i - 1])
            } else if z > 0 {
                let i = 1 + x - y / 2;
                weighted_avg3(t[i - 2], t[i - 1], t[i])
            } else if z == -1 {
                weighted_avg3(t[1], t[0], l[1])
            } else {
                weighted_avg3(l[y - 2], l[y - 1], l[y])
            }
        },
        Intra_4x4_SamplePredMode::Horizontal_Down => {
            let z = 2 * (y as i32) - (x as i32);
            if z >= 0 && z % 2 == 0 {
                let i = 1 + y - x / 2;
                avg(l[i - 1], l[i])
            } else if z > 0 {
                let i = 1 + y - x / 2;
                weighted_avg3(l[i - 2], l[i - 1], l[i])
            } else if z == -1 {
                weighted_avg3(l[1], t[0], t[1])
            } else {
                weighted_avg3(t[x - 2], t[x - 1], t[x])
            }
        },
        Intra_4x4_SamplePredMode::Vertical_Left => {
            let i = 1 + x + y / 2;
            if y % 2 == 0 {
                avg(t[i], t[i + 1])
            } else {
                weighted_avg3(t[i], t[i + 1], t[i + 2])
            }
        },
        Intra_4x4_SamplePredMode::Horizontal_Up => {
            let z = x + 2 * y;
            let i = 1 + y + x / 2;
            if z <= 4 && z % 2 == 0 {
                avg(l[i], l[i + 1])
            } else if z <= 3 {
                weighted_avg3(l[i], l[i + 1], l[i + 2])
            } else if z == 5 {
                weighted_avg3(l[3], l[4], l[4])
            } else {
                l[4]
            }
        },
    }
}

/// Section 8.3.1.2: the predicted samples of a 4x4 luma block in `mode`;
/// `pred[y][x]` holds `pred4x4L[x, y]` (see `pred4`). `avail_a` and
/// `avail_b` say whether the samples left of and above the block are
/// available, which only the DC mode reads.
pub fn predict_4x4(ctx: &Surroundings4x4, mode: Intra_4x4_SamplePredMode, avail_a: bool, avail_b: bool) -> (pred: [[u8; 4]; 4])
    ensures
        forall|x: int, y: int|
            0 <= x < 4 && 0 <= y < 4 ==> #[trigger] pred@[y]@[x] == pred4(*ctx, mode, avail_a, avail_b, x, y),
{
    let dc = dc4_exec(ctx, avail_a, avail_b);
    let mut pred = [[0u8; 4]; 4];
    let mut y: usize = 0;
    while y < 4
        invariant
            y <= 4,
            dc == dc4(*ctx, avail_a, avail_b),
            forall|xx: int, yy: int|
                0 <= xx < 4 && 0 <= yy < y ==> #[trigger] pred@[yy]@[xx] == pred4(*ctx, mode, avail_a, avail_b, xx, yy),
        decreases 4 - y,
    {
        let mut row = [0u8; 4];
        let mut x: usize = 0;
        while x < 4
            invariant
                x <= 4,
                y < 4,
                dc == dc4(*ctx, avail_a, avail_b),
                forall|xx: int| 0 <= xx < x ==> #[trigger] row@[xx] == pred4(*ctx, mode, avail_a, avail_b, xx, y as int),
            decreases 4 - x,
        {
            row[x] = pred4_sample(ctx, mode, x, y, dc);
            x = x + 1;
        }
        pred[y] = row;
        y = y + 1;
    }
    pred
}

/// Visible sample (`x`, `y`) of the buffer `d` laid out as `cfg`.
pub open spec fn sample_of(d: Seq<u8>, cfg: PlaneConfig, x: int, y: int) -> u8 {
    d[cfg.index_of(x, y)]
}

/// The row above the 4x4 block at (`x`, `y`) of the buffer `d` laid out as
/// `cfg`, as `Surroundings4x4::load` reads it: from column `x - 1` on when
/// the block is below row 1, with `p[4..7, -1]` repeating `p[3, -1]` where
/// they are not available (`substitute_right`); 0 otherwise.
pub open spec fn top4_refs(d: Seq<u8>, cfg: PlaneConfig, x: int, y: int, substitute_right: bool) -> Seq<u8> {
    if y > 1 {
        Seq::new(
            9,
            |i: int|
                if i < 5 || !substitute_right {
                    sample_of(d, cfg, x - 1 + i, y - 1)
                } else {
                    sample_of(d, cfg, x + 3, y - 1)
                },
        )
    } else {
        Seq::new(9, |i: int| 0u8)
    }
}

/// The column left of the 4x4 block at (`x`, `y`), as
/// `Surroundings4x4::load` reads it: the corner of `top4_refs` first, then
/// the four samples left of the block when it is right of column 1, else 0.
pub open spec fn left4_refs(d: Seq<u8>, cfg: PlaneConfig, x: int, y: int, substitute_right: bool) -> Seq<u8> {
    Seq::new(
        5,
        |i: int|
            if i == 0 {
                top4_refs(d, cfg, x, y, substitute_right)[0]
            } else if x > 1 {
                sample_of(d, cfg, x - 1, y + i - 1)
            } else {
                0u8
            },
    )
}

/// The reference samples of the 4x4 block at (`x`, `y`) of `plane` after
/// `Surroundings4x4::load` (see `top4_refs` and `left4_refs`).
pub open spec fn loaded4x4(c: Surroundings4x4, plane: Plane, x: int, y: int, substitute_right: bool) -> bool {
    &&& c.offset == Point { x: x as u32, y: y as u32 }
    &&& c.top_row@ == top4_refs(plane.data@, plane.cfg, x, y, substitute_right)
    &&& c.left_column@ == left4_refs(plane.data@, plane.cfg, x, y, substitute_right)
}

/// Sample (`x - 1`, `y`) of `plane`, counted from its first visible
/// sample, wherever it lies in the buffer.
fn sample_left_of(plane: &Plane, x: usize, y: usize) -> (v: u8)
    requires
        plane.cfg.yorigin + y <= usize::MAX,
        0 <= plane.cfg.index_of(x - 1, y as int) < plane.data@.len(),
    ensures
        v == plane.sample(x - 1, y as int),
{
    let len = plane.data.len();
    let r = plane.cfg.yorigin + y;
    assert(0 <= r * plane.cfg.stride) by (nonlinear_arith)
        requires
            r >= 0,
            plane.cfg.stride >= 0,
    ;
    plane.data[r * plane.cfg.stride + plane.cfg.xorigin + x - 1]
}

impl Surroundings4x4 {
    /// Section 8.3.1.2: loads the reference samples of the 4x4 block at
    /// `blk_loc` of `plane` (see `loaded4x4`); `substitute_right` says that
    /// the samples above and right of the block are not available.
    pub fn load(&mut self, plane: &Plane, blk_loc: Point, substitute_right: bool)
        requires
            plane.cfg.yorigin + blk_loc.y + 4 <= usize::MAX,
            blk_loc.y > 1 ==> 0 <= plane.cfg.index_of(blk_loc.x - 1, blk_loc.y - 1)
                && plane.cfg.index_of(blk_loc.x + 7, blk_loc.y - 1) < plane.data@.len(),
            blk_loc.x > 1 ==> plane.cfg.index_of(blk_loc.x - 1, blk_loc.y + 3) < plane.data@.len(),
        ensures
            loaded4x4(*final(self), *plane, blk_loc.x as int, blk_loc.y as int, substitute_right),
    {
        let x = blk_loc.x as usize;
        let y = blk_loc.y as usize;
        let len = plane.data.len();
        let mut top_row = [0u8; 9];
        if y > 1 {
            assert(0 <= (plane.cfg.yorigin + y - 1) * plane.cfg.stride) by (nonlinear_arith)
                requires
                    y > 0,
            ;
            let mut i: usize = 0;
            while i < 9
                invariant
                    i <= 9,
                    y > 1,
                    top_row@.len() == 9,
                    len == plane.data@.len(),
                    0 <= (plane.cfg.yorigin + y - 1) * plane.cfg.stride,
                    plane.cfg.yorigin + y + 4 <= usize::MAX,
                    plane.cfg.index_of(x + 7, y - 1) < plane.data@.len(),
                    0 <= plane.cfg.index_of(x - 1, y - 1),
                    forall|j: int|
                        0 <= j < i ==> #[trigger] top_row@[j] == (if j < 5 || !substitute_right {
                            plane.sample(x - 1 + j, y - 1)
                        } else {
                            plane.sample(x + 3, y - 1)
                        }),
                decreases 9 - i,
            {
                let col = if i < 5 || !substitute_right {
                    x + i
                } else {
                    x + 4
                };
                top_row[i] = sample_left_of(plane, col, y - 1);
                i = i + 1;
            }
        }
        let mut left_column = [0u8; 5];
        left_column[0] = top_row[0];
        if x > 1 {
            let mut i: usize = 1;
            while i < 5
                invariant
                    1 <= i <= 5,
                    x > 1,
                    left_column@.len() == 5,
                    left_column@[0] == top_row@[0],
                    plane.cfg.yorigin + y + 4 <= usize::MAX,
                    plane.cfg.index_of(x - 1, y + 3) < plane.data@.len(),
                    forall|j: int| 1 <= j < i ==> #[trigger] left_column@[j] == plane.sample(x - 1, y + j - 1),
                decreases 5 - i,
            {
                assert((plane.cfg.yorigin + y + i - 1) * plane.cfg.stride <= (plane.cfg.yorigin + y + 3)
                    * plane.cfg.stride) by (nonlinear_arith)
                    requires
                        i < 5,
                ;
                left_column[i] = sample_left_of(plane, x, y + i - 1);
                i = i + 1;
            }
        }
        self.top_row = top_row;
        self.left_column = left_column;
        self.offset = blk_loc;
        assert(self.top_row@ =~= top4_refs(plane.data@, plane.cfg, x as int, y as int, substitute_right));
        assert(self.left_column@ =~= left4_refs(plane.data@, plane.cfg, x as int, y as int, substitute_right));
    }
}

/// `Intra16x16PredMode` (Table 8-4).
#[allow(non_camel_case_types)]
#[derive(Clone, Copy, Debug, PartialEq, Eq, Structural)]
pub enum Intra_16x16_SamplePredMode {
    Intra_16x16_Vertical,
    Intra_16x16_Horizontal,
    Intra_16x16_DC,
    Intra_16x16_Plane,
}

/// The sum of the `n` samples of `s` from `lo`.
pub open spec fn ssum(s: Seq<u8>, lo: int, n: int) -> int
    decreases n,
{
    if n <= 0 {
        0
    } else {
        ssum(s, lo, n - 1) + s[lo + n - 1]
    }
}

fn sum_samples(s: &[u8], lo: usize, n: usize) -> (r: u32)
    requires
        lo + n <= s@.len(),
        lo + n <= 17,
    ensures
        r == ssum(s@, lo as int, n as int),
        r <= 255 * n,
{
    let mut acc: u32 = 0;
    let mut i: usize = 0;
    while i < n
        invariant
            i <= n <= 17,
            lo + n <= s@.len(),
            lo + n <= 17,
            acc == ssum(s@, lo as int, i as int),
            acc <= 255 * i,
        decreases n - i,
    {
        acc = acc + s[lo + i] as u32;
        i = i + 1;
    }
    acc
}

/// Equation 8-126 or 8-127 for a reference array whose entry 8 is the
/// sample next to the centre: `sum(i * (r[8 + i] - r[8 - i]))` for `i` in
/// `1..=8`.
pub open spec fn plane_grad16(r: Seq<u8>) -> int {
    1 * (r[9] - r[7]) + 2 * (r[10] - r[6]) + 3 * (r[11] - r[5]) + 4 * (r[12] - r[4]) + 5 * (r[13]
        - r[3]) + 6 * (r[14] - r[2]) + 7 * (r[15] - r[1]) + 8 * (r[16] - r[0])
}

/// Section 8.3.3: predicted sample `predL[x, y]` of a 16x16 luma block in
/// `mode`, where `top[0]` is `p[-1, -1]`, `top[1 + x]` is `p[x, -1]` and
/// `left[1 + y]` is `p[-1, y]`; `has_a` and `has_b` say whether the
/// samples left of and above the block are available (Section 8.3.3.3).
pub open spec fn pred16(
    top: Seq<u8>,
    left: Seq<u8>,
    mode: Intra_16x16_SamplePredMode,
    has_a: bool,
    has_b: bool,
    x: int,
    y: int,
) -> u8 {
    match mode {
        // Equation 8-116
        Intra_16x16_SamplePredMode::Intra_16x16_Vertical => top[1 + x],
        // Equation 8-117
        Intra_16x16_SamplePredMode::Intra_16x16_Horizontal => left[1 + y],
        // Equations 8-118 to 8-121
        Intra_16x16_SamplePredMode::Intra_16x16_DC => if has_a && has_b {
            ((ssum(left, 1, 16) + ssum(top, 1, 16) + 16) / 32) as u8
        } else if has_a {
            ((ssum(left, 1, 16) + 8) / 16) as u8
        } else if has_b {
            ((ssum(top, 1, 16) + 8) / 16) as u8
        } else {
            128
        },
        // Equations 8-122 to 8-127
        Intra_16x16_SamplePredMode::Intra_16x16_Plane => {
            let a = 16 * (top[16] + left[16]);
            let b = (5 * plane_grad16(top) + 32) / 64;
            let c = (5 * plane_grad16(left) + 32) / 64;
            clip_u8((a + b * (x - 7) + c * (y - 7) + 16) / 32)
        },
    }
}

/// `v >> k` for `k` in `5..=6`: the floor of `v / 2^k`.
fn floor_shr_i32(v: i32, k: u32) -> (r: i32)
    requires
        5 <= k <= 6,
    ensures
        k == 5 ==> r == v / 32,
        k == 6 ==> r == v / 64,
{
    proof {
        lemma_i32_shr(v, k);
        vstd::arithmetic::power2::lemma2_to64();
    }
    v >> k
}

/// Section 8.3.3: the predicted samples of a 16x16 luma block in `mode`;
/// `pred[y][x]` holds `predL[x, y]` (see `pred16`).
pub fn predict_16x16(
    top: &[u8; 17],
    left: &[u8; 17],
    mode: Intra_16x16_SamplePredMode,
    has_a: bool,
    has_b: bool,
) -> (pred: [[u8; 16]; 16])
    ensures
        forall|x: int, y: int|
            0 <= x < 16 && 0 <= y < 16 ==> #[trigger] pred@[y]@[x] == pred16(top@, left@, mode, has_a, has_b, x, y),
{
    let mut pred = [[0u8; 16]; 16];
    match mode {
        Intra_16x16_SamplePredMode::Intra_16x16_Plane => {
            let t = top;
            let l = left;
            let h: i32 = 1 * (t[9] as i32 - t[7] as i32) + 2 * (t[10] as i32 - t[6] as i32) + 3 * (t[11] as i32
                - t[5] as i32) + 4 * (t[12] as i32 - t[4] as i32) + 5 * (t[13] as i32 - t[3] as i32) + 6 * (
            t[14] as i32 - t[2] as i32) + 7 * (t[15] as i32 - t[1] as i32) + 8 * (t[16] as i32 - t[0] as i32);
            let v: i32 = 1 * (l[9] as i32 - l[7] as i32) + 2 * (l[10] as i32 - l[6] as i32) + 3 * (l[11] as i32
                - l[5] as i32) + 4 * (l[12] as i32 - l[4] as i32) + 5 * (l[13] as i32 - l[3] as i32) + 6 * (
            l[14] as i32 - l[2] as i32) + 7 * (l[15] as i32 - l[1] as i32) + 8 * (l[16] as i32 - l[0] as i32);
            let a = (t[16] as i32 + l[16] as i32) * 16;
            let b = floor_shr_i32(5 * h + 32, 6);
            let c = floor_shr_i32(5 * v + 32, 6);
            assert(-9180 <= h <= 9180 && -9180 <= v <= 9180);
            assert(-720 <= b <= 720 && -720 <= c <= 720);
            let mut py: usize = 0;
            while py < 16
                invariant
                    py <= 16,
                    mode == Intra_16x16_SamplePredMode::Intra_16x16_Plane,
                    a == 16 * (top@[16] + left@[16]),
                    b == (5 * plane_grad16(top@) + 32) / 64,
                    c == (5 * plane_grad16(left@) + 32) / 64,
                    -720 <= b <= 720,
                    -720 <= c <= 720,
                    0 <= a <= 8160,
                    forall|xx: int, yy: int|
                        0 <= xx < 16 && 0 <= yy < py ==> #[trigger] pred@[yy]@[xx] == pred16(top@, left@, mode, has_a, has_b, xx, yy),
                decreases 16 - py,
            {
                let mut row = [0u8; 16];
                let mut px: usize = 0;
                while px < 16
                    invariant
                        px <= 16,
                        py < 16,
                        mode == Intra_16x16_SamplePredMode::Intra_16x16_Plane,
                        a == 16 * (top@[16] + left@[16]),
                        b == (5 * plane_grad16(top@) + 32) / 64,
                        c == (5 * plane_grad16(left@) + 32) / 64,
                        -720 <= b <= 720,
                        -720 <= c <= 720,
                        0 <= a <= 8160,
                        forall|xx: int| 0 <= xx < px ==> #[trigger] row@[xx] == pred16(top@, left@, mode, has_a, has_b, xx, py as int),
                    decreases 16 - px,
                {
                    assert(-720 * 9 <= b * (px as i32 - 7) <= 720 * 9 && -720 * 9 <= c * (py as i32 - 7) <= 720 * 9) by (nonlinear_arith)
                        requires
                            -720 <= b <= 720,
                            -720 <= c <= 720,
                            px < 16,
                            py < 16,
                    ;
                    let value = floor_shr_i32(a + b * (px as i32 - 7) + c * (py as i32 - 7) + 16, 5);
                    row[px] = clip1(value);
                    px = px + 1;
                }
                pred[py] = row;
                py = py + 1;
            }
        },
        _ => {
            let dc: u8 = if has_a && has_b {
                ((sum_samples(left, 1, 16) + sum_samples(top, 1, 16) + 16) / 32) as u8
            } else if has_a {
                ((sum_samples(left, 1, 16) + 8) / 16) as u8
            } else if has_b {
                ((sum_samples(top, 1, 16) + 8) / 16) as u8
            } else {
                128
            };
            let mut y: usize = 0;
            while y < 16
                invariant
                    y <= 16,
                    mode != Intra_16x16_SamplePredMode::Intra_16x16_Plane,
                    mode == Intra_16x16_SamplePredMode::Intra_16x16_DC ==> dc == pred16(top@, left@, mode, has_a, has_b, 0, 0),
                    forall|xx: int, yy: int|
                        0 <= xx < 16 && 0 <= yy < y ==> #[trigger] pred@[yy]@[xx] == pred16(top@, left@, mode, has_a, has_b, xx, yy),
                decreases 16 - y,
            {
                let mut row = [0u8; 16];
                let mut x: usize = 0;
                while x < 16
                    invariant
                        x <= 16,
                        y < 16,
                        mode != Intra_16x16_SamplePredMode::Intra_16x16_Plane,
                        mode == Intra_16x16_SamplePredMode::Intra_16x16_DC ==> dc == pred16(top@, left@, mode, has_a, has_b, 0, 0),
                        forall|xx: int| 0 <= xx < x ==> #[trigger] row@[xx] == pred16(top@, left@, mode, has_a, has_b, xx, y as int),
                    decreases 16 - x,
                {
                    row[x] = match mode {
                        Intra_16x16_SamplePredMode::Intra_16x16_Vertical => top[1 + x],
                        Intra_16x16_SamplePredMode::Intra_16x16_Horizontal => left[1 + y],
                        _ => dc,
                    };
                    x = x + 1;
                }
                pred[y] = row;
                y = y + 1;
            }
        },
    }
    pred
}

/// Equation 8-148 or 8-149 for a reference array whose entry 4 is the
/// sample next to the centre: `sum((i + 1) * (r[5 + i] - r[3 - i]))` for
/// `i` in `0..=3`.
pub open spec fn plane_grad8(r: Seq<u8>) -> int {
    1 * (r[5] - r[3]) + 2 * (r[6] - r[2]) + 3 * (r[7] - r[1]) + 4 * (r[8] - r[0])
}

/// Section 8.3.4.1, Equations 8-132 to 8-141: the DC value of chroma 4x4
/// block `blk` (0..=3 in raster order) of a 4:2:0 macroblock.
pub open spec fn chroma_dc(top: Seq<u8>, left: Seq<u8>, has_a: bool, has_b: bool, blk: int) -> u8 {
    let tl = ssum(top, 1, 4);
    let tr = ssum(top, 5, 4);
    let lt = ssum(left, 1, 4);
    let lb = ssum(left, 5, 4);
    if blk == 0 {
        if has_a && has_b {
            ((lt + tl + 4) / 8) as u8
        } else if has_b {
            ((tl + 2) / 4) as u8
        } else if has_a {
            ((lt + 2) / 4) as u8
        } else {
            128
        }
    } else if blk == 1 {
        if has_b {
            ((tr + 2) / 4) as u8
        } else if has_a {
            ((lt + 2) / 4) as u8
        } else {
            128
        }
    } else if blk == 2 {
        if has_a {
            ((lb + 2) / 4) as u8
        } else if has_b {
            ((tl + 2) / 4) as u8
        } else {
            128
        }
    } else if has_a && has_b {
        ((lb + tr + 4) / 8) as u8
    } else if has_b {
        ((tr + 2) / 4) as u8
    } else if has_a {
        ((lb + 2) / 4) as u8
    } else {
        128
    }
}

/// Section 8.3.4: predicted chroma sample `predC[x, y]` of a 4:2:0
/// macroblock in `mode`, where `top[0]` is `p[-1, -1]`, `top[1 + x]` is
/// `p[x, -1]` and `left[1 + y]` is `p[-1, y]`.
pub open spec fn predc(
    top: Seq<u8>,
    left: Seq<u8>,
    mode: Intra_Chroma_Pred_Mode,
    has_a: bool,
    has_b: bool,
    x: int,
    y: int,
) -> u8 {
    match mode {
        Intra_Chroma_Pred_Mode::DC => chroma_dc(top, left, has_a, has_b, 2 * (y / 4) + x / 4),
        // Equation 8-142
        Intra_Chroma_Pred_Mode::Horizontal => left[1 + y],
        // Equation 8-143
        Intra_Chroma_Pred_Mode::Vertical => top[1 + x],
        // Equations 8-144 to 8-149
        Intra_Chroma_Pred_Mode::Plane => {
            let a = 16 * (left[8] + top[8]);
            let b = (34 * plane_grad8(top) + 32) / 64;
            let c = (34 * plane_grad8(left) + 32) / 64;
            clip_u8((a + b * (x - 3) + c * (y - 3) + 16) / 32)
        },
    }
}

/// Section 8.3.4: the predicted samples of the chroma blocks of a 4:2:0
/// macroblock in `mode`; `pred[y][x]` holds `predC[x, y]` (see `predc`).
pub fn predict_chroma(
    top: &[u8; 9],
    left: &[u8; 9],
    mode: Intra_Chroma_Pred_Mode,
    has_a: bool,
    has_b: bool,
) -> (pred: [[u8; 8]; 8])
    ensures
        forall|x: int, y: int|
            0 <= x < 8 && 0 <= y < 8 ==> #[trigger] pred@[y]@[x] == predc(top@, left@, mode, has_a, has_b, x, y),
{
    let t = top;
    let l = left;
    let h: i32 = 1 * (t[5] as i32 - t[3] as i32) + 2 * (t[6] as i32 - t[2] as i32) + 3 * (t[7] as i32
        - t[1] as i32) + 4 * (t[8] as i32 - t[0] as i32);
    let v: i32 = 1 * (l[5] as i32 - l[3] as i32) + 2 * (l[6] as i32 - l[2] as i32) + 3 * (l[7] as i32
        - l[1] as i32) + 4 * (l[8] as i32 - l[0] as i32);
    let a = 16 * (l[8] as i32 + t[8] as i32);
    let b = floor_shr_i32(34 * h + 32, 6);
    let c = floor_shr_i32(34 * v + 32, 6);
    assert(-1360 <= b <= 1360 && -1360 <= c <= 1360);
    let tl = sum_samples(top, 1, 4);
    let tr = sum_samples(top, 5, 4);
    let lt = sum_samples(left, 1, 4);
    let lb = sum_samples(left, 5, 4);
    let dc = [
        if has_a && has_b {
            ((lt + tl + 4) / 8) as u8
        } else if has_b {
            ((tl + 2) / 4) as u8
        } else if has_a {
            ((lt + 2) / 4) as u8
        } else {
            128
        },
        if has_b {
            ((tr + 2) / 4) as u8
        } else if has_a {
            ((lt + 2) / 4) as u8
        } else {
            128
        },
        if has_a {
            ((lb + 2) / 4) as u8
        } else if has_b {
            ((tl + 2) / 4) as u8
        } else {
            128
        },
        if has_a && has_b {
            ((lb + tr + 4) / 8) as u8
        } else if has_b {
            ((tr + 2) / 4) as u8
        } else if has_a {
            ((lb + 2) / 4) as u8
        } else {
            128
        },
    ];
    assert(forall|k: int| 0 <= k < 4 ==> #[trigger] dc@[k] == chroma_dc(top@, left@, has_a, has_b, k));
    let mut pred = [[0u8; 8]; 8];
    let mut y: usize = 0;
    while y < 8
        invariant
            y <= 8,
            a == 16 * (left@[8] + top@[8]),
            b == (34 * plane_grad8(top@) + 32) / 64,
            c == (34 * plane_grad8(left@) + 32) / 64,
            -1360 <= b <= 1360,
            -1360 <= c <= 1360,
            0 <= a <= 8160,
            forall|k: int| 0 <= k < 4 ==> #[trigger] dc@[k] == chroma_dc(top@, left@, has_a, has_b, k),
            forall|xx: int, yy: int|
                0 <= xx < 8 && 0 <= yy < y ==> #[trigger] pred@[yy]@[xx] == predc(top@, left@, mode, has_a, has_b, xx, yy),
        decreases 8 - y,
    {
        let mut row = [0u8; 8];
        let mut x: usize = 0;
        while x < 8
            invariant
                x <= 8,
                y < 8,
                a == 16 * (left@[8] + top@[8]),
                b == (34 * plane_grad8(top@) + 32) / 64,
                c == (34 * plane_grad8(left@) + 32) / 64,
                -1360 <= b <= 1360,
                -1360 <= c <= 1360,
                0 <= a <= 8160,
                forall|k: int| 0 <= k < 4 ==> #[trigger] dc@[k] == chroma_dc(top@, left@, has_a, has_b, k),
                forall|xx: int| 0 <= xx < x ==> #[trigger] row@[xx] == predc(top@, left@, mode, has_a, has_b, xx, y as int),
            decreases 8 - x,
        {
            row[x] = match mode {
                Intra_Chroma_Pred_Mode::DC => dc[2 * (y / 4) + x / 4],
                Intra_Chroma_Pred_Mode::Horizontal => left[1 + y],
                Intra_Chroma_Pred_Mode::Vertical => top[1 + x],
                Intra_Chroma_Pred_Mode::Plane => {
                    assert(-1360 * 5 <= b * (x as i32 - 3) <= 1360 * 5 && -1360 * 5 <= c * (y as i32 - 3)
                        <= 1360 * 5) by (nonlinear_arith)
                        requires
                            -1360 <= b <= 1360,
                            -1360 <= c <= 1360,
                            x < 8,
                            y < 8,
                    ;
                    clip1(floor_shr_i32(a + b * (x as i32 - 3) + c * (y as i32 - 3) + 16, 5))
                },
            };
            x = x + 1;
        }
        pred[y] = row;
        y = y + 1;
    }
    pred
}

/// The residual samples of a 4x4 block after the inverse transform,
/// `samples[y][x]`.
#[derive(Clone, Copy, Debug, Default, PartialEq, Eq)]
pub struct Block4x4 {
    pub samples: [[i32; 4]; 4],
}

/// The residual samples of `b` leave room for any sample value.
pub open spec fn block_ok(b: Block4x4) -> bool {
    forall|y: int, x: int| 0 <= y < 4 && 0 <= x < 4 ==> #[trigger] b.samples@[y]@[x] <= i32::MAX - 255
}

/// Offset `k` of a plane buffer lies in the `w` by `h` block whose first
/// sample is at `base`, with rows `stride` apart.
pub open spec fn in_block(k: int, base: int, stride: int, w: int, h: int) -> bool {
    base <= k && (k - base) / stride < h && (k - base) % stride < w
}

/// The buffer `d` with the `w` by `h` block at `base` replaced by `vals`
/// (`vals[y][x]`).
pub open spec fn written(d: Seq<u8>, base: int, stride: int, w: int, h: int, vals: Seq<Seq<u8>>) -> Seq<u8> {
    Seq::new(
        d.len(),
        |k: int|
            if in_block(k, base, stride, w, h) {
                vals[(k - base) / stride][(k - base) % stride]
            } else {
                d[k]
            },
    )
}

proof fn lemma_block_pos(base: int, stride: int, x: int, y: int)
    requires
        stride > 0,
        0 <= x < stride,
        0 <= y,
    ensures
        (base + y * stride + x - base) / stride == y,
        (base + y * stride + x - base) % stride == x,
{
    vstd::arithmetic::div_mod::lemma_fundamental_div_mod_converse(y * stride + x, stride, y, x);
}

/// Writes the `w` by `h` block `vals` at `base` of `data`, rows `stride`
/// apart.
fn write_block(data: &mut Vec<u8>, base: usize, stride: usize, w: usize, h: usize, vals: &[[u8; 16]; 16])
    requires
        1 <= w <= 16,
        1 <= h <= 16,
        w <= stride,
        base + (h - 1) * stride + w <= old(data)@.len(),
    ensures
        final(data)@ == written(
            old(data)@,
            base as int,
            stride as int,
            w as int,
            h as int,
            Seq::new(16, |j: int| vals@[j]@),
        ),
{
    let ghost d0 = data@;
    let ghost v = Seq::new(16, |j: int| vals@[j]@);
    let len = data.len();
    let mut j: usize = 0;
    while j < h
        invariant
            j <= h <= 16,
            len == d0.len(),
            1 <= w <= 16,
            w <= stride,
            base + (h - 1) * stride + w <= d0.len(),
            data@.len() == d0.len(),
            v == Seq::new(16, |jj: int| vals@[jj]@),
            forall|k: int|
                0 <= k < d0.len() ==> #[trigger] data@[k] == (if in_block(k, base as int, stride as int, w as int, j as int) {
                    v[(k - base) / stride as int][(k - base) % stride as int]
                } else {
                    d0[k]
                }),
        decreases h - j,
    {
        assert(j * stride + w <= (h - 1) * stride + w) by (nonlinear_arith)
            requires
                j < h,
        ;
        let row = base + j * stride;
        let mut i: usize = 0;
        while i < w
            invariant
                i <= w <= 16,
                len == d0.len(),
                j < h <= 16,
                w <= stride,
                row == base + j * stride,
                row + w <= d0.len(),
                data@.len() == d0.len(),
                v == Seq::new(16, |jj: int| vals@[jj]@),
                forall|k: int|
                    0 <= k < d0.len() ==> #[trigger] data@[k] == (if in_block(k, base as int, stride as int, w as int, j as int) || (row <= k < row + i) {
                        v[(k - base) / stride as int][(k - base) % stride as int]
                    } else {
                        d0[k]
                    }),
            decreases w - i,
        {
            proof {
                lemma_block_pos(base as int, stride as int, i as int, j as int);
            }
            data.set(row + i, vals[j][i]);
            i = i + 1;
        }
        proof {
            assert forall|k: int| 0 <= k < d0.len() implies #[trigger] data@[k] == (if in_block(k, base as int, stride as int, w as int, j + 1) {
                v[(k - base) / stride as int][(k - base) % stride as int]
            } else {
                d0[k]
            }) by {
                if base <= k {
                    vstd::arithmetic::div_mod::lemma_fundamental_div_mod(k - base, stride as int);
                    let q = (k - base) / stride as int;
                    let r = (k - base) % stride as int;
                    if q == j {
                        assert(row <= k < row + w <==> r < w) by (nonlinear_arith)
                            requires
                                k - base == stride * q + r,
                                q == j,
                                row == base + j * stride,
                                0 <= r < stride,
                        ;
                    } else {
                        assert(!(row <= k < row + w)) by (nonlinear_arith)
                            requires
                                k - base == stride * q + r,
                                q != j,
                                row == base + j * stride,
                                0 <= r < stride,
                                w <= stride,
                        ;
                    }
                }
            }
        }
        j = j + 1;
    }
    assert(data@ =~= written(d0, base as int, stride as int, w as int, h as int, v));
}

/// The sample at offset `r` from the first visible sample of `p`.
pub open spec fn rel_sample(p: PlaneBuf, r: int) -> u8 {
    p.data@[p.cfg.origin() + r]
}

/// The references above a macroblock whose first sample is at offset `rel`
/// from the first visible sample: entry `i` is `p[i - 1, -1]`; entries that
/// `needed` leaves out are not read and count as 0.
pub open spec fn refs_above(p: PlaneBuf, rel: int, n: int, needed: spec_fn(int) -> bool) -> Seq<u8> {
    Seq::new(
        n as nat,
        |i: int|
            if needed(i) {
                rel_sample(p, rel - p.cfg.stride - 1 + i)
            } else {
                0u8
            },
    )
}

/// The references left of the macroblock: entry `i` is `p[-1, i - 1]`.
pub open spec fn refs_left(p: PlaneBuf, rel: int, n: int, needed: spec_fn(int) -> bool) -> Seq<u8> {
    Seq::new(
        n as nat,
        |i: int|
            if needed(i) {
                rel_sample(p, rel - p.cfg.stride - 1 + i * p.cfg.stride)
            } else {
                0u8
            },
    )
}

/// The reference above entry `i` that a 16x16 or chroma `mode` reads.
pub open spec fn needs_above(plane_mode: bool, vertical: bool, dc: bool, has_b: bool, i: int) -> bool {
    plane_mode || (i >= 1 && (vertical || (dc && has_b)))
}

/// The reference left entry `i` that a 16x16 or chroma `mode` reads.
pub open spec fn needs_left(plane_mode: bool, horizontal: bool, dc: bool, has_a: bool, i: int) -> bool {
    plane_mode || (i >= 1 && (horizontal || (dc && has_a)))
}

/// Reads the `n` references above (`above`) or left of a block of `p`
/// whose first sample is at offset `rel`: all of them (`need_all`), all but
/// the corner (`need_rest`), or none.
fn read_refs(
    p: &PlaneBuf,
    origin: usize,
    rel: usize,
    n: usize,
    above: bool,
    need_all: bool,
    need_rest: bool,
) -> (r: [u8; 17])
    requires
        origin == p.cfg.origin(),
        p.cfg.stride >= 1,
        1 <= n <= 17,
        origin + rel + (n - 1) * (if above {
            1int
        } else {
            p.cfg.stride as int
        }) <= usize::MAX,
        need_all || need_rest ==> {
            &&& rel - p.cfg.stride - 1 + (if need_all {
                0int
            } else if above {
                1int
            } else {
                p.cfg.stride as int
            }) >= 0
            &&& origin + rel - p.cfg.stride - 1 + (n - 1) * (if above {
                1int
            } else {
                p.cfg.stride as int
            }) < p.data@.len()
        },
    ensures
        forall|i: int|
            0 <= i < n ==> #[trigger] r@[i] == (if need_all || (need_rest && i >= 1) {
                rel_sample(
                    *p,
                    rel - p.cfg.stride - 1 + i * (if above {
                        1int
                    } else {
                        p.cfg.stride as int
                    }),
                )
            } else {
                0u8
            }),
{
    let mut r = [0u8; 17];
    if !(need_all || need_rest) {
        return r;
    }
    let len = p.data.len();
    let stride = p.cfg.stride;
    let step: usize = if above {
        1
    } else {
        stride
    };
    let first: usize = if need_all {
        0
    } else {
        1
    };
    let mut i: usize = first;
    while i < n
        invariant
            first <= i <= n <= 17,
            first == (if need_all {
                0usize
            } else {
                1usize
            }),
            need_all || need_rest,
            len == p.data@.len(),
            stride == p.cfg.stride,
            stride >= 1,
            step == (if above {
                1usize
            } else {
                stride
            }),
            origin == p.cfg.origin(),
            origin + rel + (n - 1) * step <= usize::MAX,
            rel - stride - 1 + first * step >= 0,
            origin + rel - stride - 1 + (n - 1) * step < len,
            r@.len() == 17,
            forall|k: int| 0 <= k < first ==> #[trigger] r@[k] == 0u8,
            forall|k: int|
                first <= k < i ==> #[trigger] r@[k] == rel_sample(*p, rel - stride - 1 + k * step),
        decreases n - i,
    {
        assert(i * step <= (n - 1) * step && first * step <= i * step) by (nonlinear_arith)
            requires
                first <= i < n,
        ;
        r[i] = p.data[origin + rel + i * step - stride - 1];
        i = i + 1;
    }
    r
}

/// Sample (`i`, `j`) of a 16x16 luma macroblock after Intra_16x16
/// prediction and its residual: the residual of 4x4 block `blk` (Z-scan
/// order) is added, clipped, where `residuals` has one.
pub open spec fn mb16_value(
    top: Seq<u8>,
    left: Seq<u8>,
    mode: Intra_16x16_SamplePredMode,
    has_a: bool,
    has_b: bool,
    residuals: Seq<Block4x4>,
    i: int,
    j: int,
) -> u8 {
    let p = pred16(top, left, mode, has_a, has_b, i, j);
    let blk = spec_scan_4x4(j / 4, i / 4);
    if blk < residuals.len() {
        clip_u8(p + residuals[blk].samples@[j % 4]@[i % 4])
    } else {
        p
    }
}

/// The references that an Intra_16x16 `mode` reads above the macroblock at
/// offset `rel` of `p`.
pub open spec fn refs16_above(p: PlaneBuf, rel: int, mode: Intra_16x16_SamplePredMode, has_b: bool) -> Seq<u8> {
    refs_above(
        p,
        rel,
        17,
        |i: int|
            needs_above(
                mode == Intra_16x16_SamplePredMode::Intra_16x16_Plane,
                mode == Intra_16x16_SamplePredMode::Intra_16x16_Vertical,
                mode == Intra_16x16_SamplePredMode::Intra_16x16_DC,
                has_b,
                i,
            ),
    )
}

/// The references that an Intra_16x16 `mode` reads left of the macroblock.
pub open spec fn refs16_left(p: PlaneBuf, rel: int, mode: Intra_16x16_SamplePredMode, has_a: bool) -> Seq<u8> {
    refs_left(
        p,
        rel,
        17,
        |i: int|
            needs_left(
                mode == Intra_16x16_SamplePredMode::Intra_16x16_Plane,
                mode == Intra_16x16_SamplePredMode::Intra_16x16_Horizontal,
                mode == Intra_16x16_SamplePredMode::Intra_16x16_DC,
                has_a,
                i,
            ),
    )
}

/// `pred` plus the residuals that cover its samples, clipped: `blk_of(x,
/// y)` picks the residual block of sample (`x`, `y`) and `(bx, by)` its
/// position there.
fn add_residuals(pred: &[[u8; 16]; 16], w: usize, h: usize, residuals: &[Block4x4], luma: bool) -> (r: [[u8; 16]; 16])
    requires
        w <= 16,
        h <= 16,
        luma ==> w == 16 && h == 16,
        !luma ==> w == 8 && h == 8,
        forall|b: int| 0 <= b < residuals@.len() ==> block_ok(#[trigger] residuals@[b]),
    ensures
        forall|i: int, j: int|
            0 <= i < w && 0 <= j < h ==> #[trigger] r@[j]@[i] == {
                let p = pred@[j]@[i];
                let blk = if luma {
                    spec_scan_4x4(j / 4, i / 4)
                } else {
                    2 * (j / 4) + i / 4
                };
                if blk < residuals@.len() {
                    clip_u8(p + residuals@[blk].samples@[j % 4]@[i % 4])
                } else {
                    p
                }
            },
{
    let mut r = *pred;
    let mut j: usize = 0;
    while j < h
        invariant
            j <= h <= 16,
            w <= 16,
            luma ==> w == 16 && h == 16,
            !luma ==> w == 8 && h == 8,
            forall|b: int| 0 <= b < residuals@.len() ==> block_ok(#[trigger] residuals@[b]),
            forall|i: int, jj: int|
                0 <= i < w && 0 <= jj < j ==> #[trigger] r@[jj]@[i] == {
                    let p = pred@[jj]@[i];
                    let blk = if luma {
                        spec_scan_4x4(jj / 4, i / 4)
                    } else {
                        2 * (jj / 4) + i / 4
                    };
                    if blk < residuals@.len() {
                        clip_u8(p + residuals@[blk].samples@[jj % 4]@[i % 4])
                    } else {
                        p
                    }
                },
        decreases h - j,
    {
        let mut row = pred[j];
        let mut i: usize = 0;
        while i < w
            invariant
                i <= w <= 16,
                j < h <= 16,
                luma ==> w == 16 && h == 16,
                !luma ==> w == 8 && h == 8,
                forall|b: int| 0 <= b < residuals@.len() ==> block_ok(#[trigger] residuals@[b]),
                forall|ii: int|
                    0 <= ii < i ==> #[trigger] row@[ii] == {
                        let jj = j as int;
                        let p = pred@[jj]@[ii];
                        let blk = if luma {
                            spec_scan_4x4(jj / 4, ii / 4)
                        } else {
                            2 * (jj / 4) + ii / 4
                        };
                        if blk < residuals@.len() {
                            clip_u8(p + residuals@[blk].samples@[jj % 4]@[ii % 4])
                        } else {
                            p
                        }
                    },
            decreases w - i,
        {
            let blk = if luma {
                scan_4x4(j / 4, i / 4)
            } else {
                2 * (j / 4) + i / 4
            };
            let p = pred[j][i];
            row[i] = if blk < residuals.len() {
                let res = residuals[blk].samples[j % 4][i % 4];
                clip1(p as i32 + res)
            } else {
                p
            };
            i = i + 1;
        }
        r[j] = row;
        j = j + 1;
    }
    r
}

/// Section 8.3.3: Intra_16x16 prediction of the luma macroblock at `loc` of
/// `target`, plus its residual blocks (`mb16_value`). `has_a` and `has_b`
/// say whether the macroblocks left of and above it are available.
pub fn render_luma_16x16_intra_prediction(
    has_a: bool,
    has_b: bool,
    loc: Point,
    target: &mut PlaneBuf,
    mode: Intra_16x16_SamplePredMode,
    residuals: &[Block4x4],
)
    requires
        old(target).cfg.stride >= 16,
        residuals@.len() <= 16,
        forall|b: int| 0 <= b < residuals@.len() ==> block_ok(#[trigger] residuals@[b]),
        old(target).cfg.origin() + loc.y * old(target).cfg.stride + loc.x + 16 * old(target).cfg.stride
            + 16 <= usize::MAX,
        old(target).cfg.origin() + loc.y * old(target).cfg.stride + loc.x + 15 * old(target).cfg.stride
            + 16 <= old(target).data@.len(),
        mode == Intra_16x16_SamplePredMode::Intra_16x16_Plane ==> loc.y * old(target).cfg.stride + loc.x
            >= old(target).cfg.stride + 1,
        mode == Intra_16x16_SamplePredMode::Intra_16x16_Vertical || (mode
            == Intra_16x16_SamplePredMode::Intra_16x16_DC && has_b) ==> loc.y * old(target).cfg.stride
            + loc.x >= old(target).cfg.stride,
        mode == Intra_16x16_SamplePredMode::Intra_16x16_Horizontal || (mode
            == Intra_16x16_SamplePredMode::Intra_16x16_DC && has_a) ==> loc.y * old(target).cfg.stride
            + loc.x >= 1,
    ensures
        final(target).cfg == old(target).cfg,
        ({
            let rel = loc.y * old(target).cfg.stride + loc.x;
            let top = refs16_above(*old(target), rel, mode, has_b);
            let left = refs16_left(*old(target), rel, mode, has_a);
            final(target).data@ == written(
                old(target).data@,
                old(target).cfg.origin() + rel,
                old(target).cfg.stride as int,
                16,
                16,
                Seq::new(16, |j: int| Seq::new(16, |i: int| mb16_value(top, left, mode, has_a, has_b, residuals@, i, j))),
            )
        }),
{
    let stride = target.cfg.stride;
    let x = loc.x as usize;
    let y = loc.y as usize;
    assert(0 <= y * stride) by (nonlinear_arith);
    assert(target.cfg.yorigin * target.cfg.stride >= 0) by (nonlinear_arith);
    let origin = target.cfg.yorigin * stride + target.cfg.xorigin;
    let rel = y * stride + x;
    let plane_mode = mode == Intra_16x16_SamplePredMode::Intra_16x16_Plane;
    let dc = mode == Intra_16x16_SamplePredMode::Intra_16x16_DC;
    let top = read_refs(
        target,
        origin,
        rel,
        17,
        true,
        plane_mode,
        mode == Intra_16x16_SamplePredMode::Intra_16x16_Vertical || (dc && has_b),
    );
    let left = read_refs(
        target,
        origin,
        rel,
        17,
        false,
        plane_mode,
        mode == Intra_16x16_SamplePredMode::Intra_16x16_Horizontal || (dc && has_a),
    );
    let ghost top_spec = refs16_above(*target, rel as int, mode, has_b);
    let ghost left_spec = refs16_left(*target, rel as int, mode, has_a);
    assert(top@ =~= top_spec);
    assert(left@ =~= left_spec);
    let pred = predict_16x16(&top, &left, mode, has_a, has_b);
    let vals = add_residuals(&pred, 16, 16, residuals, true);
    let ghost v = Seq::new(16, |j: int| vals@[j]@);
    assert(v =~= Seq::new(16, |j: int| Seq::new(16, |i: int| mb16_value(top_spec, left_spec, mode, has_a, has_b, residuals@, i, j)))) by {
        assert forall|j: int| 0 <= j < 16 implies #[trigger] v[j] =~= Seq::new(16, |i: int| mb16_value(top_spec, left_spec, mode, has_a, has_b, residuals@, i, j)) by {}
    }
    write_block(&mut target.data, origin + rel, stride, 16, 16, &vals);
}

/// Sample (`i`, `j`) of the chroma block of a 4:2:0 macroblock after
/// intra prediction and its residual: the residual of 4x4 block
/// `2 * (j / 4) + i / 4` is added, clipped, where `residuals` has one.
pub open spec fn mbc_value(
    top: Seq<u8>,
    left: Seq<u8>,
    mode: Intra_Chroma_Pred_Mode,
    has_a: bool,
    has_b: bool,
    residuals: Seq<Block4x4>,
    i: int,
    j: int,
) -> u8 {
    let p = predc(top, left, mode, has_a, has_b, i, j);
    let blk = 2 * (j / 4) + i / 4;
    if blk < residuals.len() {
        clip_u8(p + residuals[blk].samples@[j % 4]@[i % 4])
    } else {
        p
    }
}

/// The references that a chroma `mode` reads above the block at offset
/// `rel` of `p`.
pub open spec fn refsc_above(p: PlaneBuf, rel: int, mode: Intra_Chroma_Pred_Mode, has_b: bool) -> Seq<u8> {
    refs_above(
        p,
        rel,
        9,
        |i: int|
            needs_above(
                mode == Intra_Chroma_Pred_Mode::Plane,
                mode == Intra_Chroma_Pred_Mode::Vertical,
                mode == Intra_Chroma_Pred_Mode::DC,
                has_b,
                i,
            ),
    )
}

/// The references that a chroma `mode` reads left of the block.
pub open spec fn refsc_left(p: PlaneBuf, rel: int, mode: Intra_Chroma_Pred_Mode, has_a: bool) -> Seq<u8> {
    refs_left(
        p,
        rel,
        9,
        |i: int|
            needs_left(
                mode == Intra_Chroma_Pred_Mode::Plane,
                mode == Intra_Chroma_Pred_Mode::Horizontal,
                mode == Intra_Chroma_Pred_Mode::DC,
                has_a,
                i,
            ),
    )
}

fn embed8(small: &[[u8; 8]; 8]) -> (big: [[u8; 16]; 16])
    ensures
        forall|i: int, j: int| 0 <= i < 8 && 0 <= j < 8 ==> #[trigger] big@[j]@[i] == small@[j]@[i],
{
    let mut big = [[0u8; 16]; 16];
    let mut j: usize = 0;
    while j < 8
        invariant
            j <= 8,
            forall|i: int, jj: int| 0 <= i < 8 && 0 <= jj < j ==> #[trigger] big@[jj]@[i] == small@[jj]@[i],
        decreases 8 - j,
    {
        let mut row = [0u8; 16];
        let mut i: usize = 0;
        while i < 8
            invariant
                i <= 8,
                j < 8,
                forall|ii: int| 0 <= ii < i ==> #[trigger] row@[ii] == small@[j as int]@[ii],
            decreases 8 - i,
        {
            row[i] = small[j][i];
            i = i + 1;
        }
        big[j] = row;
        j = j + 1;
    }
    big
}

/// Section 8.3.4: intra prediction of the chroma block of the 4:2:0
/// macroblock at luma position `loc` in chroma plane `target`, plus its
/// residual blocks (`mbc_value`). `has_a` and `has_b` say whether the
/// macroblocks left of and above it are available.
pub fn render_chroma_intra_prediction(
    has_a: bool,
    has_b: bool,
    loc: Point,
    target: &mut PlaneBuf,
    mode: Intra_Chroma_Pred_Mode,
    residuals: &[Block4x4],
)
    requires
        old(target).cfg.stride >= 8,
        residuals@.len() <= 4,
        forall|b: int| 0 <= b < residuals@.len() ==> block_ok(#[trigger] residuals@[b]),
        old(target).cfg.origin() + (loc.y / 2) * old(target).cfg.stride + loc.x / 2 + 8 * old(target).cfg.stride
            + 8 <= usize::MAX,
        old(target).cfg.origin() + (loc.y / 2) * old(target).cfg.stride + loc.x / 2 + 7 * old(target).cfg.stride
            + 8 <= old(target).data@.len(),
        mode == Intra_Chroma_Pred_Mode::Plane ==> (loc.y / 2) * old(target).cfg.stride + loc.x / 2
            >= old(target).cfg.stride + 1,
        mode == Intra_Chroma_Pred_Mode::Vertical || (mode == Intra_Chroma_Pred_Mode::DC && has_b) ==> (loc.y
            / 2) * old(target).cfg.stride + loc.x / 2 >= old(target).cfg.stride,
        mode == Intra_Chroma_Pred_Mode::Horizontal || (mode == Intra_Chroma_Pred_Mode::DC && has_a) ==> (
        loc.y / 2) * old(target).cfg.stride + loc.x / 2 >= 1,
    ensures
        final(target).cfg == old(target).cfg,
        ({
            let rel = (loc.y / 2) * old(target).cfg.stride + loc.x / 2;
            let top = refsc_above(*old(target), rel, mode, has_b);
            let left = refsc_left(*old(target), rel, mode, has_a);
            final(target).data@ == written(
                old(target).data@,
                old(target).cfg.origin() + rel,
                old(target).cfg.stride as int,
                8,
                8,
                Seq::new(16, |j: int| Seq::new(16, |i: int| mbc_value(top, left, mode, has_a, has_b, residuals@, i, j))),
            )
        }),
{
    let stride = target.cfg.stride;
    let x = (loc.x / 2) as usize;
    let y = (loc.y / 2) as usize;
    assert(0 <= y * stride) by (nonlinear_arith);
    assert(target.cfg.yorigin * target.cfg.stride >= 0) by (nonlinear_arith);
    let origin = target.cfg.yorigin * stride + target.cfg.xorigin;
    let rel = y * stride + x;
    let plane_mode = mode == Intra_Chroma_Pred_Mode::Plane;
    let dc = mode == Intra_Chroma_Pred_Mode::DC;
    let top9 = read_refs(target, origin, rel, 9, true, plane_mode, mode == Intra_Chroma_Pred_Mode::Vertical || (dc && has_b));
    let left9 = read_refs(target, origin, rel, 9, false, plane_mode, mode == Intra_Chroma_Pred_Mode::Horizontal || (dc && has_a));
    let top = [top9[0], top9[1], top9[2], top9[3], top9[4], top9[5], top9[6], top9[7], top9[8]];
    let left = [left9[0], left9[1], left9[2], left9[3], left9[4], left9[5], left9[6], left9[7], left9[8]];
    let ghost top_spec = refsc_above(*target, rel as int, mode, has_b);
    let ghost left_spec = refsc_left(*target, rel as int, mode, has_a);
    assert(top@ =~= top_spec);
    assert(left@ =~= left_spec);
    let pred = predict_chroma(&top, &left, mode, has_a, has_b);
    let big = embed8(&pred);
    let vals = add_residuals(&big, 8, 8, residuals, false);
    let ghost v = Seq::new(16, |j: int| vals@[j]@);
    let ghost want = Seq::new(16, |j: int| Seq::new(16, |i: int| mbc_value(top_spec, left_spec, mode, has_a, has_b, residuals@, i, j)));
    write_block(&mut target.data, origin + rel, stride, 8, 8, &vals);
    proof {
        let d0 = old(target).data@;
        let base = old(target).cfg.origin() + rel;
        assert(written(d0, base, stride as int, 8, 8, v) =~= written(d0, base, stride as int, 8, 8, want)) by {
            assert forall|k: int| 0 <= k < d0.len() && in_block(k, base, stride as int, 8, 8) implies #[trigger] v[(k - base) / stride as int][(k - base) % stride as int]
                == want[(k - base) / stride as int][(k - base) % stride as int] by {
                let jj = (k - base) / stride as int;
                let ii = (k - base) % stride as int;
                vstd::arithmetic::div_mod::lemma_fundamental_div_mod(k - base, stride as int);
                assert(0 <= jj < 8 && 0 <= ii < 8);
                assert(v[jj][ii] == vals@[jj]@[ii]);
            }
        }
    }
}

fn blk4_offset(b: usize) -> (r: (u32, u32))
    requires
        b < 16,
    ensures
        r.0 == blk4_x(b as int),
        r.1 == blk4_y(b as int),
        r.0 <= 12,
        r.1 <= 12,
{
    ((8 * ((b / 4) % 2) + 4 * (b % 2)) as u32, (8 * (b / 8) + 4 * ((b % 4) / 2)) as u32)
}

/// Whether the samples above and right of 4x4 luma block `b` count as not
/// available, so that `p[3, -1]` stands for them: those of blocks 3, 7,
/// 11, 13 and 15, and those of block 5 when the macroblock above and right
/// (`has_c`) is not available.
pub open spec fn substitute_right4(b: int, has_c: bool) -> bool {
    b == 3 || b == 7 || b == 11 || b == 13 || b == 15 || (b == 5 && !has_c)
}

/// Sample (`i`, `j`) of the 4x4 luma block `b` at (`x`, `y`) of the buffer
/// `d` after Intra_4x4 prediction in `mode` from the samples around it and
/// its residual, clipped, where `residuals` has one.
pub open spec fn blk4_value(
    d: Seq<u8>,
    cfg: PlaneConfig,
    x: int,
    y: int,
    substitute_right: bool,
    mode: Intra_4x4_SamplePredMode,
    avail_a: bool,
    avail_b: bool,
    residuals: Seq<Block4x4>,
    b: int,
    i: int,
    j: int,
) -> u8 {
    let p = pred4_refs(
        top4_refs(d, cfg, x, y, substitute_right),
        left4_refs(d, cfg, x, y, substitute_right),
        mode,
        avail_a,
        avail_b,
        i,
        j,
    );
    if b < residuals.len() {
        clip_u8(p + residuals[b].samples@[j]@[i])
    } else {
        p
    }
}

/// Section 8.3.1.2: the buffer `d` of the luma plane laid out as `cfg`
/// after the first `n` 4x4 blocks of the macroblock at `loc` were predicted
/// in `modes` and their residuals added, each block reading the samples
/// that the blocks before it wrote. `has_a`, `has_b` and `has_c` say
/// whether the macroblocks left, above and above right are available.
pub open spec fn render4x4_after(
    d: Seq<u8>,
    cfg: PlaneConfig,
    loc: Point,
    modes: Seq<Intra_4x4_SamplePredMode>,
    has_a: bool,
    has_b: bool,
    has_c: bool,
    residuals: Seq<Block4x4>,
    n: int,
) -> Seq<u8>
    decreases n,
{
    if n <= 0 {
        d
    } else {
        let prev = render4x4_after(d, cfg, loc, modes, has_a, has_b, has_c, residuals, n - 1);
        let b = n - 1;
        let x = loc.x + blk4_x(b);
        let y = loc.y + blk4_y(b);
        written(
            prev,
            cfg.index_of(x, y),
            cfg.stride as int,
            4,
            4,
            Seq::new(
                4,
                |j: int|
                    Seq::new(
                        4,
                        |i: int|
                            blk4_value(
                                prev,
                                cfg,
                                x,
                                y,
                                substitute_right4(b, has_c),
                                modes[b],
                                blk4_x(b) > 0 || has_a,
                                blk4_y(b) > 0 || has_b,
                                residuals,
                                b,
                                i,
                                j,
                            ),
                    ),
            ),
        )
    }
}

/// Writing blocks that agree on the block gives the same buffer.
proof fn lemma_written_agree(
    d: Seq<u8>,
    base: int,
    stride: int,
    w: int,
    h: int,
    v1: Seq<Seq<u8>>,
    v2: Seq<Seq<u8>>,
)
    requires
        stride > 0,
        forall|j: int, i: int| 0 <= j < h && 0 <= i < w ==> #[trigger] v1[j][i] == v2[j][i],
    ensures
        written(d, base, stride, w, h, v1) == written(d, base, stride, w, h, v2),
{
    assert forall|k: int| 0 <= k < d.len() implies #[trigger] written(d, base, stride, w, h, v1)[k]
        == written(d, base, stride, w, h, v2)[k] by {
        if in_block(k, base, stride, w, h) {
            vstd::arithmetic::div_mod::lemma_div_pos_is_pos(k - base, stride);
            vstd::arithmetic::div_mod::lemma_mod_pos_bound(k - base, stride);
            let jj = (k - base) / stride;
            let ii = (k - base) % stride;
            assert(v1[jj][ii] == v2[jj][ii]);
        }
    }
    assert(written(d, base, stride, w, h, v1) =~= written(d, base, stride, w, h, v2));
}

/// A visible index moved by `dx` columns and `dy` rows.
proof fn lemma_index_shift(cfg: PlaneConfig, x: int, y: int, dx: int, dy: int)
    ensures
        cfg.index_of(x + dx, y + dy) == cfg.index_of(x, y) + dy * cfg.stride + dx,
{
    assert((cfg.yorigin + y + dy) * cfg.stride == (cfg.yorigin + y) * cfg.stride + dy * cfg.stride)
        by (nonlinear_arith);
}

/// The predicted 4x4 block `pred` plus residual block `b`, clipped, where
/// `residuals` has one, in the corner of a 16x16 array.
fn blk4_with_residual(pred: &[[u8; 4]; 4], residuals: &[Block4x4], b: usize) -> (r: [[u8; 16]; 16])
    requires
        forall|k: int| 0 <= k < residuals@.len() ==> block_ok(#[trigger] residuals@[k]),
    ensures
        forall|i: int, j: int|
            0 <= i < 4 && 0 <= j < 4 ==> #[trigger] r@[j]@[i] == (if b < residuals@.len() {
                clip_u8(pred@[j]@[i] + residuals@[b as int].samples@[j]@[i])
            } else {
                pred@[j]@[i]
            }),
{
    let mut r = [[0u8; 16]; 16];
    let mut j: usize = 0;
    while j < 4
        invariant
            j <= 4,
            forall|k: int| 0 <= k < residuals@.len() ==> block_ok(#[trigger] residuals@[k]),
            forall|i: int, jj: int|
                0 <= i < 4 && 0 <= jj < j ==> #[trigger] r@[jj]@[i] == (if b < residuals@.len() {
                    clip_u8(pred@[jj]@[i] + residuals@[b as int].samples@[jj]@[i])
                } else {
                    pred@[jj]@[i]
                }),
        decreases 4 - j,
    {
        let mut row = [0u8; 16];
        let mut i: usize = 0;
        while i < 4
            invariant
                i <= 4,
                j < 4,
                forall|k: int| 0 <= k < residuals@.len() ==> block_ok(#[trigger] residuals@[k]),
                forall|ii: int|
                    0 <= ii < i ==> #[trigger] row@[ii] == (if b < residuals@.len() {
                        clip_u8(pred@[j as int]@[ii] + residuals@[b as int].samples@[j as int]@[ii])
                    } else {
                        pred@[j as int]@[ii]
                    }),
            decreases 4 - i,
        {
            let p = pred[j][i];
            row[i] = if b < residuals.len() {
                assert(block_ok(residuals@[b as int]));
                clip1(p as i32 + residuals[b].samples[j][i])
            } else {
                p
            };
            i = i + 1;
        }
        r[j] = row;
        j = j + 1;
    }
    r
}

/// Section 8.3.1.2: Intra_4x4 prediction of the 16 luma blocks of the
/// macroblock at `loc` of `target`, in Z-scan order, block `b` in
/// `modes[b]` with the residual `residuals[b]` added where there is one
/// (`render4x4_after`). `has_a`, `has_b` and `has_c` say whether the
/// macroblocks left, above and above right are available.
#[verifier::rlimit(60)]
#[verifier::spinoff_prover]
pub fn render_luma_4x4_intra_prediction(
    has_a: bool,
    has_b: bool,
    has_c: bool,
    loc: Point,
    target: &mut PlaneBuf,
    modes: &[Intra_4x4_SamplePredMode; 16],
    residuals: &[Block4x4],
)
    requires
        old(target).cfg.stride >= 16,
        loc.x + 16 <= u32::MAX,
        loc.y + 16 <= u32::MAX,
        forall|b: int| 0 <= b < residuals@.len() ==> block_ok(#[trigger] residuals@[b]),
        old(target).cfg.origin() + loc.y * old(target).cfg.stride + loc.x + 15 * old(target).cfg.stride
            + 16 <= old(target).data@.len(),
    ensures
        final(target).cfg == old(target).cfg,
        final(target).data@ == render4x4_after(
            old(target).data@,
            old(target).cfg,
            loc,
            modes@,
            has_a,
            has_b,
            has_c,
            residuals@,
            16,
        ),
{
    let ghost d0 = target.data@;
    let cfg = target.cfg;
    let stride = cfg.stride;
    let len = target.data.len();
    proof {
        lemma_index_shift(cfg, 0, 0, loc.x as int, loc.y as int);
        assert(cfg.index_of(0, 0) == cfg.origin());
    }
    let mut ctx = Surroundings4x4 { offset: Point { x: 0, y: 0 }, top_row: [0u8; 9], left_column: [0u8; 5] };
    let mut b: usize = 0;
    while b < 16
        invariant
            b <= 16,
            target.cfg == cfg,
            stride == cfg.stride,
            stride >= 16,
            len == target.data@.len(),
            len == d0.len(),
            loc.x + 16 <= u32::MAX,
            loc.y + 16 <= u32::MAX,
            forall|k: int| 0 <= k < residuals@.len() ==> block_ok(#[trigger] residuals@[k]),
            cfg.index_of(loc.x as int, loc.y as int) + 15 * stride + 16 <= len,
            target.data@ == render4x4_after(d0, cfg, loc, modes@, has_a, has_b, has_c, residuals@, b as int),
        decreases 16 - b,
    {
        let (bx, by) = blk4_offset(b);
        let blk_loc = Point { x: loc.x + bx, y: loc.y + by };
        let x = blk_loc.x as usize;
        let y = blk_loc.y as usize;
        let ghost xi = x as int;
        let ghost yi = y as int;
        let ghost base_i = cfg.index_of(xi, yi);
        proof {
            lemma_index_shift(cfg, loc.x as int, loc.y as int, bx as int, by as int);
            lemma_index_shift(cfg, xi, yi, -1, -1);
            lemma_index_shift(cfg, xi, yi, 7, -1);
            lemma_index_shift(cfg, xi, yi, -1, 3);
            lemma_index_shift(cfg, xi, yi, 3, 3);
            assert(by * stride <= 12 * stride) by (nonlinear_arith)
                requires
                    by <= 12,
                    stride >= 0,
            ;
            assert(cfg.yorigin + yi + 3 <= (cfg.yorigin + yi + 3) * stride) by (nonlinear_arith)
                requires
                    stride >= 16,
                    cfg.yorigin + yi + 3 >= 0,
            ;
            assert((cfg.yorigin + yi + 3) * stride == base_i - cfg.xorigin - xi + 3 * stride) by (nonlinear_arith)
                requires
                    base_i == (cfg.yorigin + yi) * stride + cfg.xorigin + xi,
            ;
            assert((cfg.yorigin + yi) * stride <= base_i);
            if yi > 1 {
                assert((cfg.yorigin + yi - 1) * stride >= stride) by (nonlinear_arith)
                    requires
                        yi > 1,
                        stride >= 0,
                ;
            }
        }
        let sr = b == 3 || b == 7 || b == 11 || b == 13 || b == 15 || (b == 5 && !has_c);
        {
            let view = Plane { data: target.data.as_slice(), cfg };
            ctx.load(&view, blk_loc, sr);
        }
        let avail_a = bx > 0 || has_a;
        let avail_b = by > 0 || has_b;
        let pred = predict_4x4(&ctx, modes[b], avail_a, avail_b);
        let vals = blk4_with_residual(&pred, residuals, b);
        let base = (cfg.yorigin + y) * stride + cfg.xorigin + x;
        let ghost prev = target.data@;
        write_block(&mut target.data, base, stride, 4, 4, &vals);
        proof {
            let v_spec = Seq::new(
                4,
                |j: int|
                    Seq::new(
                        4,
                        |i: int|
                            blk4_value(
                                prev,
                                cfg,
                                xi,
                                yi,
                                substitute_right4(b as int, has_c),
                                modes@[b as int],
                                blk4_x(b as int) > 0 || has_a,
                                blk4_y(b as int) > 0 || has_b,
                                residuals@,
                                b as int,
                                i,
                                j,
                            ),
                    ),
            );
            let v_exec = Seq::new(16, |j: int| vals@[j]@);
            assert forall|j: int, i: int| 0 <= j < 4 && 0 <= i < 4 implies #[trigger] v_exec[j][i]
                == v_spec[j][i] by {
                assert(vals@[j]@[i] == (if b < residuals@.len() {
                    clip_u8(pred@[j]@[i] + residuals@[b as int].samples@[j]@[i])
                } else {
                    pred@[j]@[i]
                }));
                assert(pred@[j]@[i] == pred4(ctx, modes@[b as int], avail_a, avail_b, i, j));
            }
            lemma_written_agree(prev, base as int, stride as int, 4, 4, v_exec, v_spec);
        }
        b = b + 1;
    }
}

/// The availabilities `(top, left, corner, top right)` of the samples
/// around 8x8 luma block `b` of a macroblock whose neighbours A, B, C and D
/// are available as given: blocks 0 and 1 take their top from B, blocks 0
/// and 2 their left from A; block 0's corner is in D, block 1's in B and
/// block 2's in A; block 1's top right is in C. Edges inside the macroblock
/// are available, but for block 3's top right, which is decoded later.
pub open spec fn avail8(b: int, has_a: bool, has_b: bool, has_c: bool, has_d: bool) -> (bool, bool, bool, bool) {
    if b == 0 {
        (has_b, has_a, has_d, has_b)
    } else if b == 1 {
        (has_b, true, has_b, has_c)
    } else if b == 2 {
        (true, has_a, has_a, true)
    } else {
        (true, true, true, false)
    }
}

/// The reference samples that `Surroundings8x8::load` reads for 8x8 luma
/// block `b` at (`x`, `y`) of the buffer `d` laid out as `cfg` (see
/// `refs8_loaded`, which fixes them).
pub open spec fn refs8_at(
    d: Seq<u8>,
    cfg: PlaneConfig,
    x: int,
    y: int,
    b: int,
    has_a: bool,
    has_b: bool,
    has_c: bool,
    has_d: bool,
) -> Surroundings8x8 {
    let av = avail8(b, has_a, has_b, has_c, has_d);
    choose|c: Surroundings8x8| refs8_loaded(c, d, cfg, x, y, av.0, av.1, av.2, av.3)
}

/// The samples around an 8x8 block fix its `Surroundings8x8`.
proof fn lemma_refs8_unique(
    c1: Surroundings8x8,
    c2: Surroundings8x8,
    d: Seq<u8>,
    cfg: PlaneConfig,
    x: int,
    y: int,
    has_top: bool,
    has_left: bool,
    has_corner: bool,
    has_top_right: bool,
)
    requires
        refs8_loaded(c1, d, cfg, x, y, has_top, has_left, has_corner, has_top_right),
        refs8_loaded(c2, d, cfg, x, y, has_top, has_left, has_corner, has_top_right),
    ensures
        c1 == c2,
{
    assert(c1.p_top =~= c2.p_top);
    assert(c1.p_left =~= c2.p_left);
}

/// Sample (`i`, `j`) of 8x8 luma block `b` at (`x`, `y`) of the buffer `d`
/// after Intra_8x8 prediction in `mode` and the residual of its 4x4 block
/// `4 * b + 2 * (j / 4) + i / 4`, clipped, where `residuals` has one.
pub open spec fn blk8_value(
    d: Seq<u8>,
    cfg: PlaneConfig,
    x: int,
    y: int,
    b: int,
    mode: Intra_8x8_SamplePredMode,
    has_a: bool,
    has_b: bool,
    has_c: bool,
    has_d: bool,
    residuals: Seq<Block4x4>,
    i: int,
    j: int,
) -> u8 {
    let p = pred8(refs8_at(d, cfg, x, y, b, has_a, has_b, has_c, has_d), mode, i, j);
    let k = 4 * b + 2 * (j / 4) + i / 4;
    if k < residuals.len() {
        clip_u8(p + residuals[k].samples@[j % 4]@[i % 4])
    } else {
        p
    }
}

/// Section 8.3.2: the buffer `d` of the luma plane laid out as `cfg` after
/// the first `n` 8x8 blocks of the macroblock at `loc` were predicted in
/// `modes` and their residuals added, each block reading the samples that
/// the blocks before it wrote.
pub open spec fn render8x8_after(
    d: Seq<u8>,
    cfg: PlaneConfig,
    loc: Point,
    modes: Seq<Intra_8x8_SamplePredMode>,
    has_a: bool,
    has_b: bool,
    has_c: bool,
    has_d: bool,
    residuals: Seq<Block4x4>,
    n: int,
) -> Seq<u8>
    decreases n,
{
    if n <= 0 {
        d
    } else {
        let prev = render8x8_after(d, cfg, loc, modes, has_a, has_b, has_c, has_d, residuals, n - 1);
        let b = n - 1;
        let x = loc.x + 8 * (b % 2);
        let y = loc.y + 8 * (b / 2);
        written(
            prev,
            cfg.index_of(x, y),
            cfg.stride as int,
            8,
            8,
            Seq::new(
                8,
                |j: int|
                    Seq::new(
                        8,
                        |i: int|
                            blk8_value(prev, cfg, x, y, b, modes[b], has_a, has_b, has_c, has_d, residuals, i, j),
                    ),
            ),
        )
    }
}

/// The predicted 8x8 block `pred` of 8x8 block `b` plus the residuals of
/// its four 4x4 blocks, clipped, where `residuals` has them, in the corner
/// of a 16x16 array.
fn blk8_with_residual(pred: &[[u8; 8]; 8], residuals: &[Block4x4], b: usize) -> (r: [[u8; 16]; 16])
    requires
        b < 4,
        forall|k: int| 0 <= k < residuals@.len() ==> block_ok(#[trigger] residuals@[k]),
    ensures
        forall|i: int, j: int|
            0 <= i < 8 && 0 <= j < 8 ==> #[trigger] r@[j]@[i] == ({
                let k = 4 * b + 2 * (j / 4) + i / 4;
                if k < residuals@.len() {
                    clip_u8(pred@[j]@[i] + residuals@[k].samples@[j % 4]@[i % 4])
                } else {
                    pred@[j]@[i]
                }
            }),
{
    let mut r = [[0u8; 16]; 16];
    let mut j: usize = 0;
    while j < 8
        invariant
            j <= 8,
            b < 4,
            forall|k: int| 0 <= k < residuals@.len() ==> block_ok(#[trigger] residuals@[k]),
            forall|i: int, jj: int|
                0 <= i < 8 && 0 <= jj < j ==> #[trigger] r@[jj]@[i] == ({
                    let k = 4 * b + 2 * (jj / 4) + i / 4;
                    if k < residuals@.len() {
                        clip_u8(pred@[jj]@[i] + residuals@[k].samples@[jj % 4]@[i % 4])
                    } else {
                        pred@[jj]@[i]
                    }
                }),
        decreases 8 - j,
    {
        let mut row = [0u8; 16];
        let mut i: usize = 0;
        while i < 8
            invariant
                i <= 8,
                j < 8,
                b < 4,
                forall|k: int| 0 <= k < residuals@.len() ==> block_ok(#[trigger] residuals@[k]),
                forall|ii: int|
                    0 <= ii < i ==> #[trigger] row@[ii] == ({
                        let jj = j as int;
                        let k = 4 * b + 2 * (jj / 4) + ii / 4;
                        if k < residuals@.len() {
                            clip_u8(pred@[jj]@[ii] + residuals@[k].samples@[jj % 4]@[ii % 4])
                        } else {
                            pred@[j as int]@[ii]
                        }
                    }),
            decreases 8 - i,
        {
            let k = 4 * b + 2 * (j / 4) + i / 4;
            let p = pred[j][i];
            row[i] = if k < residuals.len() {
                assert(block_ok(residuals@[k as int]));
                clip1(p as i32 + residuals[k].samples[j % 4][i % 4])
            } else {
                p
            };
            i = i + 1;
        }
        r[j] = row;
        j = j + 1;
    }
    r
}

/// The samples that `render_8x8_block` writes are those of `blk8_value`.
proof fn lemma_blk8_agree(
    d: Seq<u8>,
    cfg: PlaneConfig,
    x: int,
    y: int,
    b: int,
    mode: Intra_8x8_SamplePredMode,
    has_a: bool,
    has_b: bool,
    has_c: bool,
    has_d: bool,
    residuals: Seq<Block4x4>,
    ctx: Surroundings8x8,
    pred: [[u8; 8]; 8],
    vals: [[u8; 16]; 16],
)
    requires
        ({
            let av = avail8(b, has_a, has_b, has_c, has_d);
            refs8_loaded(ctx, d, cfg, x, y, av.0, av.1, av.2, av.3)
        }),
        forall|i: int, j: int| 0 <= i < 8 && 0 <= j < 8 ==> #[trigger] pred@[j]@[i] == pred8(ctx, mode, i, j),
        forall|i: int, j: int|
            0 <= i < 8 && 0 <= j < 8 ==> #[trigger] vals@[j]@[i] == ({
                let k = 4 * b + 2 * (j / 4) + i / 4;
                if k < residuals.len() {
                    clip_u8(pred@[j]@[i] + residuals[k].samples@[j % 4]@[i % 4])
                } else {
                    pred@[j]@[i]
                }
            }),
    ensures
        forall|j: int, i: int|
            0 <= j < 8 && 0 <= i < 8 ==> #[trigger] vals@[j]@[i] == blk8_value(
                d,
                cfg,
                x,
                y,
                b,
                mode,
                has_a,
                has_b,
                has_c,
                has_d,
                residuals,
                i,
                j,
            ),
{
    let av = avail8(b, has_a, has_b, has_c, has_d);
    let chosen = refs8_at(d, cfg, x, y, b, has_a, has_b, has_c, has_d);
    lemma_refs8_unique(chosen, ctx, d, cfg, x, y, av.0, av.1, av.2, av.3);
    assert forall|j: int, i: int| 0 <= j < 8 && 0 <= i < 8 implies #[trigger] vals@[j]@[i] == blk8_value(
        d,
        cfg,
        x,
        y,
        b,
        mode,
        has_a,
        has_b,
        has_c,
        has_d,
        residuals,
        i,
        j,
    ) by {
        assert(pred@[j]@[i] == pred8(ctx, mode, i, j));
    }
}

/// Intra_8x8 prediction of 8x8 luma block `b` of the macroblock at `loc`
/// of `target` in `mode`, with its residuals (one step of
/// `render8x8_after`).
fn render_8x8_block(
    has_a: bool,
    has_b: bool,
    has_c: bool,
    has_d: bool,
    loc: Point,
    target: &mut PlaneBuf,
    b: usize,
    mode: Intra_8x8_SamplePredMode,
    residuals: &[Block4x4],
)
    requires
        b < 4,
        old(target).cfg.stride >= 16,
        loc.x + 16 <= u32::MAX,
        loc.y + 16 <= u32::MAX,
        forall|k: int| 0 <= k < residuals@.len() ==> block_ok(#[trigger] residuals@[k]),
        old(target).cfg.index_of(loc.x as int, loc.y as int) + 15 * old(target).cfg.stride + 16
            <= old(target).data@.len(),
    ensures
        final(target).cfg == old(target).cfg,
        ({
            let x = loc.x + 8 * (b % 2);
            let y = loc.y + 8 * (b / 2);
            let d = old(target).data@;
            let cfg = old(target).cfg;
            final(target).data@ == written(
                d,
                cfg.index_of(x, y),
                cfg.stride as int,
                8,
                8,
                Seq::new(
                    8,
                    |j: int|
                        Seq::new(
                            8,
                            |i: int| blk8_value(d, cfg, x, y, b as int, mode, has_a, has_b, has_c, has_d, residuals@, i, j),
                        ),
                ),
            )
        }),
{
    let cfg = target.cfg;
    let stride = cfg.stride;
    let len = target.data.len();
    let ghost prev = target.data@;
    let bx: u32 = 8 * (b % 2) as u32;
    let by: u32 = 8 * (b / 2) as u32;
    let blk_loc = Point { x: loc.x + bx, y: loc.y + by };
    let x = blk_loc.x as usize;
    let y = blk_loc.y as usize;
    let ghost xi = x as int;
    let ghost yi = y as int;
    let ghost base_i = cfg.index_of(xi, yi);
    proof {
        lemma_index_shift(cfg, loc.x as int, loc.y as int, bx as int, by as int);
        lemma_index_shift(cfg, xi, yi, -1, -1);
        lemma_index_shift(cfg, xi, yi, 15, -1);
        lemma_index_shift(cfg, xi, yi, 7, -1);
        lemma_index_shift(cfg, xi, yi, -1, 7);
        lemma_index_shift(cfg, xi, yi, 7, 7);
        assert(by * stride <= 8 * stride) by (nonlinear_arith)
            requires
                by <= 8,
                stride >= 0,
        ;
        assert(cfg.yorigin + yi + 7 <= (cfg.yorigin + yi + 7) * stride) by (nonlinear_arith)
            requires
                stride >= 16,
                cfg.yorigin + yi + 7 >= 0,
        ;
        assert((cfg.yorigin + yi + 7) * stride == base_i - cfg.xorigin - xi + 7 * stride) by (nonlinear_arith)
            requires
                base_i == (cfg.yorigin + yi) * stride + cfg.xorigin + xi,
        ;
        assert((cfg.yorigin + yi) * stride <= base_i);
    }
    let (has_top, has_left, has_corner, has_top_right) = if b == 0 {
        (has_b, has_a, has_d, has_b)
    } else if b == 1 {
        (has_b, true, has_b, has_c)
    } else if b == 2 {
        (true, has_a, has_a, true)
    } else {
        (true, true, true, false)
    };
    let mut ctx = Surroundings8x8 {
        offset: Point { x: 0, y: 0 },
        p_top: [0u8; 16],
        p_left: [0u8; 8],
        p_corner: 0,
        top_available: false,
        left_available: false,
        corner_available: false,
    };
    {
        let view = Plane { data: target.data.as_slice(), cfg };
        ctx.load(&view, blk_loc, has_top, has_left, has_corner, has_top_right);
    }
    let mut pred = [[0u8; 8]; 8];
    fill_predicted_8x8(&mut pred, &ctx, mode);
    let vals = blk8_with_residual(&pred, residuals, b);
    let base = (cfg.yorigin + y) * stride + cfg.xorigin + x;
    write_block(&mut target.data, base, stride, 8, 8, &vals);
    proof {
        lemma_blk8_agree(prev, cfg, xi, yi, b as int, mode, has_a, has_b, has_c, has_d, residuals@, ctx, pred, vals);
        lemma_written_agree(
            prev,
            base as int,
            stride as int,
            8,
            8,
            Seq::new(16, |j: int| vals@[j]@),
            Seq::new(
                8,
                |j: int|
                    Seq::new(
                        8,
                        |i: int| blk8_value(prev, cfg, xi, yi, b as int, mode, has_a, has_b, has_c, has_d, residuals@, i, j),
                    ),
            ),
        );
    }
}

/// Section 8.3.2: Intra_8x8 prediction of the four 8x8 luma blocks of the
/// macroblock at `loc` of `target`, block `b` in `modes[b]` with the
/// residuals of its 4x4 blocks added where there are some
/// (`render8x8_after`). `has_a`, `has_b`, `has_c` and `has_d` say whether
/// the macroblocks left, above, above right and above left are available.
pub fn render_luma_8x8_intra_prediction(
    has_a: bool,
    has_b: bool,
    has_c: bool,
    has_d: bool,
    loc: Point,
    target: &mut PlaneBuf,
    modes: &[Intra_8x8_SamplePredMode; 4],
    residuals: &[Block4x4],
)
    requires
        old(target).cfg.stride >= 16,
        loc.x + 16 <= u32::MAX,
        loc.y + 16 <= u32::MAX,
        forall|b: int| 0 <= b < residuals@.len() ==> block_ok(#[trigger] residuals@[b]),
        old(target).cfg.origin() + loc.y * old(target).cfg.stride + loc.x + 15 * old(target).cfg.stride
            + 16 <= old(target).data@.len(),
    ensures
        final(target).cfg == old(target).cfg,
        final(target).data@ == render8x8_after(
            old(target).data@,
            old(target).cfg,
            loc,
            modes@,
            has_a,
            has_b,
            has_c,
            has_d,
            residuals@,
            4,
        ),
{
    let ghost d0 = target.data@;
    let ghost cfg = target.cfg;
    proof {
        lemma_index_shift(cfg, 0, 0, loc.x as int, loc.y as int);
        assert(cfg.index_of(0, 0) == cfg.origin());
    }
    let mut b: usize = 0;
    while b < 4
        invariant
            b <= 4,
            target.cfg == cfg,
            cfg.stride >= 16,
            loc.x + 16 <= u32::MAX,
            loc.y + 16 <= u32::MAX,
            forall|k: int| 0 <= k < residuals@.len() ==> block_ok(#[trigger] residuals@[k]),
            cfg.index_of(loc.x as int, loc.y as int) + 15 * cfg.stride + 16 <= target.data@.len(),
            target.data@.len() == d0.len(),
            target.data@ == render8x8_after(d0, cfg, loc, modes@, has_a, has_b, has_c, has_d, residuals@, b as int),
        decreases 4 - b,
    {
        render_8x8_block(has_a, has_b, has_c, has_d, loc, target, b, modes[b], residuals);
        b = b + 1;
    }
}

/// Section 8.3.1.2: transposing the neighbourhood of a 4x4 block
/// transposes its prediction. With the left column as the row above and
/// the row above as the left column (the corner shared, the availability
/// of the two sides swapped), Vertical and Horizontal trade places, as do
/// Vertical_Right and Horizontal_Down, while DC and Diagonal_Down_Right
/// keep theirs.
pub proof fn lemma_pred4_transpose(
    top: Seq<u8>,
    left: Seq<u8>,
    tt: Seq<u8>,
    tl: Seq<u8>,
    avail_a: bool,
    avail_b: bool,
    x: int,
    y: int,
)
    requires
        top.len() == 9,
        left.len() == 5,
        tt.len() == 9,
        tl.len() == 5,
        top[0] == left[0],
        forall|i: int| 0 <= i < 5 ==> #[trigger] tt[i] == left[i],
        forall|i: int| 0 <= i < 5 ==> #[trigger] tl[i] == top[i],
        0 <= x < 4,
        0 <= y < 4,
    ensures
        pred4_refs(top, left, Intra_4x4_SamplePredMode::Vertical, avail_a, avail_b, x, y) == pred4_refs(
            tt,
            tl,
            Intra_4x4_SamplePredMode::Horizontal,
            avail_b,
            avail_a,
            y,
            x,
        ),
        pred4_refs(top, left, Intra_4x4_SamplePredMode::DC, avail_a, avail_b, x, y) == pred4_refs(
            tt,
            tl,
            Intra_4x4_SamplePredMode::DC,
            avail_b,
            avail_a,
            y,
            x,
        ),
        pred4_refs(top, left, Intra_4x4_SamplePredMode::Diagonal_Down_Right, avail_a, avail_b, x, y)
            == pred4_refs(tt, tl, Intra_4x4_SamplePredMode::Diagonal_Down_Right, avail_b, avail_a, y, x),
        pred4_refs(top, left, Intra_4x4_SamplePredMode::Vertical_Right, avail_a, avail_b, x, y) == pred4_refs(
            tt,
            tl,
            Intra_4x4_SamplePredMode::Horizontal_Down,
            avail_b,
            avail_a,
            y,
            x,
        ),
{
    assert(tt[0] == left[0] && tt[1] == left[1] && tt[2] == left[2] && tt[3] == left[3] && tt[4] == left[4]);
    assert(tl[0] == top[0] && tl[1] == top[1] && tl[2] == top[2] && tl[3] == top[3] && tl[4] == top[4]);
}

/// Section 8.3.3: transposing the neighbourhood of a 16x16 luma block
/// (the column on the left read as the row above and the other way round,
/// the corner shared, the availability of the two sides swapped)
/// transposes its prediction, with Vertical and Horizontal trading places
/// and DC and Plane keeping theirs.
pub proof fn lemma_pred16_transpose(
    top: Seq<u8>,
    left: Seq<u8>,
    mode: Intra_16x16_SamplePredMode,
    has_a: bool,
    has_b: bool,
    x: int,
    y: int,
)
    requires
        top.len() == 17,
        left.len() == 17,
        top[0] == left[0],
        0 <= x < 16,
        0 <= y < 16,
    ensures
        pred16(top, left, mode, has_a, has_b, x, y) == pred16(
            left,
            top,
            match mode {
                Intra_16x16_SamplePredMode::Intra_16x16_Vertical => Intra_16x16_SamplePredMode::Intra_16x16_Horizontal,
                Intra_16x16_SamplePredMode::Intra_16x16_Horizontal => Intra_16x16_SamplePredMode::Intra_16x16_Vertical,
                _ => mode,
            },
            has_b,
            has_a,
            y,
            x,
        ),
{
}

/// Section 8.3.4 (4:2:0): transposing the neighbourhood of the chroma
/// blocks of a macroblock transposes their prediction, with Vertical and
/// Horizontal trading places and DC and Plane keeping theirs; in DC the
/// top-right and bottom-left 4x4 blocks trade their rules.
pub proof fn lemma_predc_transpose(
    top: Seq<u8>,
    left: Seq<u8>,
    mode: Intra_Chroma_Pred_Mode,
    has_a: bool,
    has_b: bool,
    x: int,
    y: int,
)
    requires
        top.len() == 9,
        left.len() == 9,
        top[0] == left[0],
        0 <= x < 8,
        0 <= y < 8,
    ensures
        predc(top, left, mode, has_a, has_b, x, y) == predc(
            left,
            top,
            match mode {
                Intra_Chroma_Pred_Mode::Vertical => Intra_Chroma_Pred_Mode::Horizontal,
                Intra_Chroma_Pred_Mode::Horizontal => Intra_Chroma_Pred_Mode::Vertical,
                _ => mode,
            },
            has_b,
            has_a,
            y,
            x,
        ),
{
}


proof fn lemma_ssum_flat(s: Seq<u8>, lo: int, n: int, k: int)
    requires
        0 <= lo,
        0 <= n,
        lo + n <= s.len(),
        forall|i: int| lo <= i < lo + n ==> #[trigger] s[i] == k,
    ensures
        ssum(s, lo, n) == n * k,
    decreases n,
{
    if n > 0 {
        lemma_ssum_flat(s, lo, n - 1, k);
        assert(s[lo + n - 1] == k);
        assert((n - 1) * k + k == n * k) by (nonlinear_arith);
        assert(ssum(s, lo, n) == ssum(s, lo, n - 1) + s[lo + n - 1]);
    } else {
        assert(0 * k == 0);
    }
}

/// Sections 8.3.1.2, 8.3.3 and 8.3.4: from reference samples that all equal
/// `k`, every Intra_4x4, Intra_16x16 and chroma mode predicts `k` at every
/// position (DC when a side is available; with neither side DC predicts
/// 128).
pub proof fn lemma_flat_references_predict_flat_4x4_16x16_chroma(
    top4: Seq<u8>,
    left4: Seq<u8>,
    top16: Seq<u8>,
    left16: Seq<u8>,
    topc: Seq<u8>,
    leftc: Seq<u8>,
    k: u8,
    m4: Intra_4x4_SamplePredMode,
    m16: Intra_16x16_SamplePredMode,
    mc: Intra_Chroma_Pred_Mode,
    has_a: bool,
    has_b: bool,
    x: int,
    y: int,
    u: int,
    v: int,
    uc: int,
    vc: int,
)
    requires
        top4.len() == 9 && left4.len() == 5 && top16.len() == 17 && left16.len() == 17,
        topc.len() == 9 && leftc.len() == 9,
        forall|i: int| 0 <= i < 9 ==> #[trigger] top4[i] == k,
        forall|i: int| 0 <= i < 5 ==> #[trigger] left4[i] == k,
        forall|i: int| 0 <= i < 17 ==> #[trigger] top16[i] == k,
        forall|i: int| 0 <= i < 17 ==> #[trigger] left16[i] == k,
        forall|i: int| 0 <= i < 9 ==> #[trigger] topc[i] == k,
        forall|i: int| 0 <= i < 9 ==> #[trigger] leftc[i] == k,
        0 <= x < 4 && 0 <= y < 4,
        0 <= u < 16 && 0 <= v < 16,
        0 <= uc < 8 && 0 <= vc < 8,
    ensures
        has_a || has_b ==> pred4_refs(top4, left4, m4, has_a, has_b, x, y) == k,
        m4 != Intra_4x4_SamplePredMode::DC ==> pred4_refs(top4, left4, m4, has_a, has_b, x, y) == k,
        !has_a && !has_b ==> pred4_refs(top4, left4, Intra_4x4_SamplePredMode::DC, has_a, has_b, x, y) == 128,
        has_a || has_b || m16 != Intra_16x16_SamplePredMode::Intra_16x16_DC ==> pred16(
            top16,
            left16,
            m16,
            has_a,
            has_b,
            u,
            v,
        ) == k,
        has_a || has_b || mc != Intra_Chroma_Pred_Mode::DC ==> predc(topc, leftc, mc, has_a, has_b, uc, vc) == k,
{
    let kk = k as int;
    assert(w3(kk, kk, kk) == k);
    assert(av(kk, kk) == k);
    assert((4 * kk + 4 * kk + 4) / 8 == kk);
    assert((4 * kk + 2) / 4 == kk);
    assert(top4[1] == k && top4[2] == k && top4[3] == k && top4[4] == k && top4[5] == k && top4[6] == k
        && top4[7] == k && top4[8] == k && top4[0] == k);
    assert(left4[1] == k && left4[2] == k && left4[3] == k && left4[4] == k && left4[0] == k);
    lemma_ssum_flat(top16, 1, 16, kk);
    lemma_ssum_flat(left16, 1, 16, kk);
    assert((16 * kk + 16 * kk + 16) / 32 == kk);
    assert((16 * kk + 8) / 16 == kk);
    assert(plane_grad16(top16) == 0);
    assert(plane_grad16(left16) == 0);
    assert((16 * (top16[16] + left16[16]) + 0 * (u - 7) + 0 * (v - 7) + 16) / 32 == kk);
    lemma_ssum_flat(topc, 1, 4, kk);
    lemma_ssum_flat(topc, 5, 4, kk);
    lemma_ssum_flat(leftc, 1, 4, kk);
    lemma_ssum_flat(leftc, 5, 4, kk);
    assert(plane_grad8(topc) == 0);
    assert(plane_grad8(leftc) == 0);
    assert((16 * (leftc[8] + topc[8]) + 0 * (uc - 3) + 0 * (vc - 3) + 16) / 32 == kk);
}

} // verus!
