//! The blocks of transform coefficient levels that make up a macroblock's
//! residual, the order in which the bitstream codes them, and the number
//! of non-zero coefficients that neighbouring blocks report.
use crate::macroblock::{
    spec_is_skipped, spec_residual, CodedBlockPattern, LumaLevel8x8, LumaResidual, Macroblock,
    MbPredictionMode, Residual,
};
use crate::plane::ColorPlane;
use vstd::prelude::*;

verus! {

/// One block of levels of a macroblock's residual.
#[derive(Clone, Copy, Debug, PartialEq, Eq, Structural)]
pub enum ResidualBlock {
    /// The 16 luma DC levels of an Intra_16x16 macroblock.
    LumaDc,
    /// The 15 AC levels of 4x4 luma block `k` of an Intra_16x16 macroblock.
    LumaAc(u8),
    /// The 16 levels of 4x4 luma block `k`.
    Luma4x4(u8),
    /// The 64 levels of 8x8 luma block `k`.
    Luma8x8(u8),
    /// The 4 DC levels of chroma component `c` (0 Cb, 1 Cr).
    ChromaDc(u8),
    /// The 15 AC levels of 4x4 block `k` of chroma component `c`.
    ChromaAc(u8, u8),
}

/// The indices of `s` are in range.
pub open spec fn block_ok(s: ResidualBlock) -> bool {
    match s {
        ResidualBlock::LumaDc => true,
        ResidualBlock::LumaAc(k) => k < 16,
        ResidualBlock::Luma4x4(k) => k < 16,
        ResidualBlock::Luma8x8(k) => k < 4,
        ResidualBlock::ChromaDc(c) => c < 2,
        ResidualBlock::ChromaAc(c, k) => c < 2 && k < 4,
    }
}

/// The number of levels of `s`.
pub open spec fn block_len(s: ResidualBlock) -> int {
    match s {
        ResidualBlock::LumaDc => 16,
        ResidualBlock::LumaAc(_) => 15,
        ResidualBlock::Luma4x4(_) => 16,
        ResidualBlock::Luma8x8(_) => 64,
        ResidualBlock::ChromaDc(_) => 4,
        ResidualBlock::ChromaAc(_, _) => 15,
    }
}

/// `s` is a luma block.
pub open spec fn is_luma_block(s: ResidualBlock) -> bool {
    s is LumaDc || s is LumaAc || s is Luma4x4 || s is Luma8x8
}

/// The luma layout `l` holds block `s` (every layout holds the chroma
/// blocks).
pub open spec fn fits(l: LumaResidual, s: ResidualBlock) -> bool {
    match s {
        ResidualBlock::LumaDc => l is Intra16x16,
        ResidualBlock::LumaAc(_) => l is Intra16x16,
        ResidualBlock::Luma4x4(_) => l is Block4x4,
        ResidualBlock::Luma8x8(_) => l is Block8x8,
        _ => true,
    }
}

/// `l1` and `l2` are the same layout.
pub open spec fn same_layout(l1: LumaResidual, l2: LumaResidual) -> bool {
    &&& (l1 is Intra16x16) == (l2 is Intra16x16)
    &&& (l1 is Block4x4) == (l2 is Block4x4)
    &&& (l1 is Block8x8) == (l2 is Block8x8)
    &&& (l1 is Empty) == (l2 is Empty)
}

/// The levels that `r` holds for block `s` (empty where its layout has no
/// such block).
pub open spec fn block_levels(r: Residual, s: ResidualBlock) -> Seq<i32> {
    match s {
        ResidualBlock::LumaDc => match r.luma {
            LumaResidual::Intra16x16 { dc, .. } => dc@,
            _ => Seq::empty(),
        },
        ResidualBlock::LumaAc(k) => match r.luma {
            LumaResidual::Intra16x16 { ac, .. } => ac@[k as int]@,
            _ => Seq::empty(),
        },
        ResidualBlock::Luma4x4(k) => match r.luma {
            LumaResidual::Block4x4 { levels, .. } => levels@[k as int]@,
            _ => Seq::empty(),
        },
        ResidualBlock::Luma8x8(k) => match r.luma {
            LumaResidual::Block8x8 { levels, .. } => levels@[k as int].levels@,
            _ => Seq::empty(),
        },
        ResidualBlock::ChromaDc(c) => r.chroma_dc@[c as int]@,
        ResidualBlock::ChromaAc(c, k) => r.chroma_ac@[c as int]@[k as int]@,
    }
}

/// Where `nc_view` keeps the count of non-zero coefficients of `s`: 4x4
/// luma blocks at 0..16, Cb AC blocks at 16..20, Cr AC blocks at 20..24;
/// DC and 8x8 blocks keep none.
pub open spec fn nc_slot(s: ResidualBlock) -> Option<int> {
    match s {
        ResidualBlock::LumaAc(k) => Some(k as int),
        ResidualBlock::Luma4x4(k) => Some(k as int),
        ResidualBlock::ChromaAc(c, k) => Some(16 + 4 * c + k),
        _ => None,
    }
}

/// The slot of `nc_view` of 4x4 block `k` of `plane`.
pub open spec fn plane_slot(k: int, plane: ColorPlane) -> int {
    match plane {
        ColorPlane::Y => k,
        ColorPlane::Cb => 16 + k,
        ColorPlane::Cr => 20 + k,
    }
}

/// The number of non-zero coefficients that `r` records for 4x4 block `k`
/// of `plane`: the AC count for Intra_16x16, 0 where no luma was coded.
pub open spec fn spec_res_nc(r: Residual, k: int, plane: ColorPlane) -> u8 {
    match plane {
        ColorPlane::Y => match r.luma {
            LumaResidual::Intra16x16 { ac_nc, .. } => ac_nc@[k],
            LumaResidual::Block8x8 { nc, .. } => nc@[k],
            LumaResidual::Block4x4 { nc, .. } => nc@[k],
            LumaResidual::Empty => 0,
        },
        ColorPlane::Cb => r.chroma_nc@[0]@[k],
        ColorPlane::Cr => r.chroma_nc@[1]@[k],
    }
}

/// The 24 counts of `r` (see `nc_slot`).
pub open spec fn nc_view(r: Residual) -> Seq<u8> {
    Seq::new(
        24,
        |i: int|
            if i < 16 {
                spec_res_nc(r, i, ColorPlane::Y)
            } else if i < 20 {
                spec_res_nc(r, i - 16, ColorPlane::Cb)
            } else {
                spec_res_nc(r, i - 20, ColorPlane::Cr)
            },
    )
}

/// Section 9.2.1: `nN` of 4x4 block `k` of `plane` in neighbouring
/// macroblock `mb`: 16 for I_PCM, 0 for a skipped macroblock or one
/// without residual, else the count its residual records.
pub open spec fn spec_mb_nc(mb: Macroblock, k: int, plane: ColorPlane) -> int {
    if mb is PCM {
        16
    } else if spec_is_skipped(mb) {
        0
    } else {
        match spec_residual(mb) {
            Some(r) => spec_res_nc(r, k, plane) as int,
            None => 0,
        }
    }
}

impl Residual {
    /// The number of non-zero coefficients of 4x4 block `blk_idx` of
    /// `plane` (see `spec_res_nc`).
    pub fn get_nc(&self, blk_idx: u8, plane: ColorPlane) -> (n: u8)
        requires
            blk_idx < 16,
            plane != ColorPlane::Y ==> blk_idx < 4,
        ensures
            n == spec_res_nc(*self, blk_idx as int, plane),
            n == nc_view(*self)[plane_slot(blk_idx as int, plane)],
    {
        let k = blk_idx as usize;
        match plane {
            ColorPlane::Y => match &self.luma {
                LumaResidual::Intra16x16 { ac_nc, .. } => ac_nc[k],
                LumaResidual::Block8x8 { nc, .. } => nc[k],
                LumaResidual::Block4x4 { nc, .. } => nc[k],
                LumaResidual::Empty => 0,
            },
            ColorPlane::Cb => self.chroma_nc[0][k],
            ColorPlane::Cr => self.chroma_nc[1][k],
        }
    }
}

impl Macroblock {
    /// Section 9.2.1: `nN` of 4x4 block `blk_idx` of `plane` of this
    /// macroblock as a neighbour (see `spec_mb_nc`).
    pub fn get_nc(&self, blk_idx: u8, plane: ColorPlane) -> (n: u8)
        requires
            blk_idx < 16,
            plane != ColorPlane::Y ==> blk_idx < 4,
        ensures
            n as int == spec_mb_nc(*self, blk_idx as int, plane),
    {
        if let Macroblock::PCM(_) = self {
            return 16;
        }
        if self.is_skipped() {
            return 0;
        }
        match self.get_residual() {
            Some(r) => r.get_nc(blk_idx, plane),
            None => 0,
        }
    }
}

/// `r2` is `r1` with block `s` holding `lv` and, where `s` keeps a count,
/// that count `n`; everything else unchanged.
pub open spec fn block_written(r1: Residual, r2: Residual, s: ResidualBlock, lv: Seq<i32>, n: u8) -> bool {
    &&& r2.prediction_mode == r1.prediction_mode
    &&& r2.coded_block_pattern == r1.coded_block_pattern
    &&& r2.transform_size_8x8_flag == r1.transform_size_8x8_flag
    &&& same_layout(r1.luma, r2.luma)
    &&& block_levels(r2, s) == lv
    &&& forall|t: ResidualBlock|
        #![trigger block_levels(r2, t)]
        block_ok(t) && fits(r1.luma, t) && t != s ==> block_levels(r2, t) == block_levels(r1, t)
    &&& nc_view(r2) == match nc_slot(s) {
        Some(i) => nc_view(r1).update(i, n),
        None => nc_view(r1),
    }
}

/// The first `N` entries of `lv` copied into `a`.
fn copy_into<const N: usize>(a: &mut [i32; N], lv: &[i32])
    requires
        N <= lv@.len(),
    ensures
        final(a)@ == lv@.take(N as int),
{
    let mut i: usize = 0;
    while i < N
        invariant
            i <= N,
            N <= lv@.len(),
            a@.len() == N,
            forall|j: int| 0 <= j < i ==> #[trigger] a@[j] == lv@[j],
        decreases N - i,
    {
        a[i] = lv[i];
        i = i + 1;
    }
    assert(a@ =~= lv@.take(N as int));
}

/// The levels of `a` as a vector.
fn to_vec<const N: usize>(a: &[i32; N]) -> (v: Vec<i32>)
    ensures
        v@ == a@,
{
    let mut v: Vec<i32> = Vec::new();
    let mut i: usize = 0;
    while i < N
        invariant
            i <= N,
            a@.len() == N,
            v@ == a@.take(i as int),
        decreases N - i,
    {
        v.push(a[i]);
        i = i + 1;
        assert(v@ =~= a@.take(i as int));
    }
    assert(a@.take(N as int) =~= a@);
    v
}

impl Residual {
    /// The levels of block `s` (see `block_levels`).
    pub fn levels_of(&self, s: ResidualBlock) -> (v: Vec<i32>)
        requires
            block_ok(s),
            fits(self.luma, s),
        ensures
            v@ == block_levels(*self, s),
            v@.len() == block_len(s),
    {
        match s {
            ResidualBlock::LumaDc => match &self.luma {
                LumaResidual::Intra16x16 { dc, .. } => to_vec(dc),
                _ => Vec::new(),
            },
            ResidualBlock::LumaAc(k) => match &self.luma {
                LumaResidual::Intra16x16 { ac, .. } => to_vec(&ac[k as usize]),
                _ => Vec::new(),
            },
            ResidualBlock::Luma4x4(k) => match &self.luma {
                LumaResidual::Block4x4 { levels, .. } => to_vec(&levels[k as usize]),
                _ => Vec::new(),
            },
            ResidualBlock::Luma8x8(k) => match &self.luma {
                LumaResidual::Block8x8 { levels, .. } => to_vec(&levels[k as usize].levels),
                _ => Vec::new(),
            },
            ResidualBlock::ChromaDc(c) => to_vec(&self.chroma_dc[c as usize]),
            ResidualBlock::ChromaAc(c, k) => to_vec(&self.chroma_ac[c as usize][k as usize]),
        }
    }

    /// Block `s` set to the first `block_len(s)` entries of `lv` and, where
    /// it keeps one, its count set to `n` (see `block_written`).
    pub fn set_block(&mut self, s: ResidualBlock, lv: &[i32], n: u8)
        requires
            block_ok(s),
            fits(old(self).luma, s),
            block_len(s) <= lv@.len(),
        ensures
            block_written(*old(self), *final(self), s, lv@.take(block_len(s)), n),
    {
        let ghost r1 = *self;
        match s {
            ResidualBlock::LumaDc => {
                if let LumaResidual::Intra16x16 { dc, ac, ac_nc } = self.luma {
                    let mut d = dc;
                    copy_into(&mut d, lv);
                    self.luma = LumaResidual::Intra16x16 { dc: d, ac, ac_nc };
                }
            },
            ResidualBlock::LumaAc(k) => {
                if let LumaResidual::Intra16x16 { dc, ac, ac_nc } = self.luma {
                    let ku = k as usize;
                    let mut a = ac;
                    let mut b = a[ku];
                    copy_into(&mut b, lv);
                    a[ku] = b;
                    let mut c = ac_nc;
                    c[ku] = n;
                    self.luma = LumaResidual::Intra16x16 { dc, ac: a, ac_nc: c };
                }
            },
            ResidualBlock::Luma4x4(k) => {
                if let LumaResidual::Block4x4 { levels, nc } = self.luma {
                    let ku = k as usize;
                    let mut a = levels;
                    let mut b = a[ku];
                    copy_into(&mut b, lv);
                    a[ku] = b;
                    let mut c = nc;
                    c[ku] = n;
                    self.luma = LumaResidual::Block4x4 { levels: a, nc: c };
                }
            },
            ResidualBlock::Luma8x8(k) => {
                if let LumaResidual::Block8x8 { levels, nc } = self.luma {
                    let ku = k as usize;
                    let mut a = levels;
                    let mut b = a[ku].levels;
                    copy_into(&mut b, lv);
                    a[ku] = LumaLevel8x8 { levels: b };
                    self.luma = LumaResidual::Block8x8 { levels: a, nc };
                }
            },
            ResidualBlock::ChromaDc(c) => {
                let cu = c as usize;
                let mut b = self.chroma_dc[cu];
                copy_into(&mut b, lv);
                self.chroma_dc[cu] = b;
            },
            ResidualBlock::ChromaAc(c, k) => {
                let cu = c as usize;
                let ku = k as usize;
                let mut a = self.chroma_ac[cu];
                let mut b = a[ku];
                copy_into(&mut b, lv);
                a[ku] = b;
                self.chroma_ac[cu] = a;
                let mut m = self.chroma_nc[cu];
                m[ku] = n;
                self.chroma_nc[cu] = m;
            },
        }
        proof {
            let r2 = *self;
            let want = match nc_slot(s) {
                Some(i) => nc_view(r1).update(i, n),
                None => nc_view(r1),
            };
            assert(nc_view(r2) =~= want);
        }
    }
}

/// Every level and count of the luma layout `l` is zero.
pub open spec fn luma_zero(l: LumaResidual) -> bool {
    match l {
        LumaResidual::Intra16x16 { dc, ac, ac_nc } => {
            &&& forall|i: int| 0 <= i < 16 ==> #[trigger] dc@[i] == 0
            &&& forall|k: int, i: int| 0 <= k < 16 && 0 <= i < 15 ==> #[trigger] ac@[k]@[i] == 0
            &&& forall|k: int| 0 <= k < 16 ==> #[trigger] ac_nc@[k] == 0
        },
        LumaResidual::Block8x8 { levels, nc } => {
            &&& forall|k: int, i: int| 0 <= k < 4 && 0 <= i < 64 ==> #[trigger] levels@[k].levels@[i] == 0
            &&& forall|k: int| 0 <= k < 16 ==> #[trigger] nc@[k] == 0
        },
        LumaResidual::Block4x4 { levels, nc } => {
            &&& forall|k: int, i: int| 0 <= k < 16 && 0 <= i < 16 ==> #[trigger] levels@[k]@[i] == 0
            &&& forall|k: int| 0 <= k < 16 ==> #[trigger] nc@[k] == 0
        },
        LumaResidual::Empty => true,
    }
}

/// `n` zero levels.
pub open spec fn zeros(n: int) -> Seq<i32> {
    Seq::new(n as nat, |i: int| 0i32)
}

/// A zeroed luma block of `block_len(s)` levels reads as zeros, and its
/// count as zero.
pub proof fn lemma_zero_luma_block(r: Residual, s: ResidualBlock)
    requires
        luma_zero(r.luma),
        block_ok(s),
        is_luma_block(s),
        fits(r.luma, s),
    ensures
        block_levels(r, s) == zeros(block_len(s)),
{
    match s {
        ResidualBlock::LumaDc => match r.luma {
            LumaResidual::Intra16x16 { dc, .. } => assert(dc@ =~= zeros(16)),
            _ => {},
        },
        ResidualBlock::LumaAc(k) => match r.luma {
            LumaResidual::Intra16x16 { ac, .. } => {
                assert forall|i: int| 0 <= i < 15 implies ac@[k as int]@[i] == 0 by {}
                assert(ac@[k as int]@ =~= zeros(15));
            },
            _ => {},
        },
        ResidualBlock::Luma4x4(k) => match r.luma {
            LumaResidual::Block4x4 { levels, .. } => {
                assert forall|i: int| 0 <= i < 16 implies levels@[k as int]@[i] == 0 by {}
                assert(levels@[k as int]@ =~= zeros(16));
            },
            _ => {},
        },
        ResidualBlock::Luma8x8(k) => match r.luma {
            LumaResidual::Block8x8 { levels, .. } => {
                assert forall|i: int| 0 <= i < 64 implies levels@[k as int].levels@[i] == 0 by {}
                assert(levels@[k as int].levels@ =~= zeros(64));
            },
            _ => {},
        },
        _ => {},
    }
}

impl LumaResidual {
    /// The Intra_16x16 layout, all zero.
    pub fn init_intra_16x16(&mut self)
        ensures
            *final(self) is Intra16x16,
            luma_zero(*final(self)),
    {
        *self = LumaResidual::Intra16x16 { dc: [0i32; 16], ac: [[0i32; 15]; 16], ac_nc: [0u8; 16] };
    }

    /// The 8x8 transform layout, all zero.
    pub fn init_8x8(&mut self)
        ensures
            *final(self) is Block8x8,
            luma_zero(*final(self)),
    {
        *self = LumaResidual::Block8x8 { levels: [LumaLevel8x8 { levels: [0i32; 64] }; 4], nc: [0u8; 16] };
    }

    /// The 4x4 transform layout, all zero.
    pub fn init_4x4(&mut self)
        ensures
            *final(self) is Block4x4,
            luma_zero(*final(self)),
    {
        *self = LumaResidual::Block4x4 { levels: [[0i32; 16]; 16], nc: [0u8; 16] };
    }
}

/// The coded block pattern says 8x8 luma block `i8x8` has coefficients.
pub open spec fn luma_coded(cbp: CodedBlockPattern, i8x8: int) -> bool {
    (cbp.0 % 16) as u8 & (1u8 << (i8x8 as u8)) != 0
}

/// The luma blocks among the first `n` 4x4 positions, in bitstream order:
/// the DC block first for Intra_16x16; then, for each 4x4 position `k`
/// whose 8x8 block is coded, its AC block (Intra_16x16) or its 4x4 block;
/// with the 8x8 transform, 8x8 block `k` for the first four positions.
pub open spec fn luma_jobs(n: nat, intra16: bool, t8: bool, cbp: CodedBlockPattern) -> Seq<ResidualBlock>
    decreases n,
{
    if n == 0 {
        if intra16 {
            seq![ResidualBlock::LumaDc]
        } else {
            Seq::empty()
        }
    } else {
        let k = n - 1;
        let prev = luma_jobs((n - 1) as nat, intra16, t8, cbp);
        if t8 {
            if k < 4 && luma_coded(cbp, k) {
                prev.push(ResidualBlock::Luma8x8(k as u8))
            } else {
                prev
            }
        } else if luma_coded(cbp, k / 4) {
            prev.push(
                if intra16 {
                    ResidualBlock::LumaAc(k as u8)
                } else {
                    ResidualBlock::Luma4x4(k as u8)
                },
            )
        } else {
            prev
        }
    }
}

/// The chroma blocks in bitstream order: the Cb and Cr DC blocks if `dc`,
/// then the four Cb and the four Cr AC blocks if `ac`.
pub open spec fn chroma_jobs(dc: bool, ac: bool) -> Seq<ResidualBlock> {
    (if dc {
        seq![ResidualBlock::ChromaDc(0), ResidualBlock::ChromaDc(1)]
    } else {
        Seq::empty()
    }) + (if ac {
        seq![
            ResidualBlock::ChromaAc(0, 0),
            ResidualBlock::ChromaAc(0, 1),
            ResidualBlock::ChromaAc(0, 2),
            ResidualBlock::ChromaAc(0, 3),
            ResidualBlock::ChromaAc(1, 0),
            ResidualBlock::ChromaAc(1, 1),
            ResidualBlock::ChromaAc(1, 2),
            ResidualBlock::ChromaAc(1, 3),
        ]
    } else {
        Seq::empty()
    })
}

/// All the blocks of a residual in bitstream order.
pub open spec fn residual_jobs(intra16: bool, t8: bool, cbp: CodedBlockPattern, dc: bool, ac: bool) -> Seq<
    ResidualBlock,
> {
    luma_jobs(16, intra16, t8, cbp) + chroma_jobs(dc, ac)
}

/// The position of `s` in bitstream order.
pub open spec fn block_key(s: ResidualBlock) -> int {
    match s {
        ResidualBlock::LumaDc => 0,
        ResidualBlock::LumaAc(k) => 1 + k,
        ResidualBlock::Luma4x4(k) => 1 + k,
        ResidualBlock::Luma8x8(k) => 1 + 4 * k,
        ResidualBlock::ChromaDc(c) => 17 + c,
        ResidualBlock::ChromaAc(c, k) => 19 + 4 * c + k,
    }
}

/// The keys of `jobs` increase strictly.
pub open spec fn keys_increase(jobs: Seq<ResidualBlock>) -> bool {
    forall|i: int, j: int| 0 <= i < j < jobs.len() ==> block_key(jobs[i]) < block_key(jobs[j])
}

proof fn lemma_luma_jobs(n: nat, intra16: bool, t8: bool, cbp: CodedBlockPattern)
    requires
        n <= 16,
    ensures
        keys_increase(luma_jobs(n, intra16, t8, cbp)),
        forall|i: int|
            0 <= i < luma_jobs(n, intra16, t8, cbp).len() ==> {
                let s = #[trigger] luma_jobs(n, intra16, t8, cbp)[i];
                &&& block_ok(s)
                &&& is_luma_block(s)
                &&& block_key(s) < (if t8 { 4 * n + 1 } else { n + 1 })
                &&& block_key(s) <= 16
                &&& (s is LumaDc ==> intra16)
                &&& (s is LumaAc ==> intra16 && !t8)
                &&& (s is Luma4x4 ==> !intra16 && !t8)
                &&& (s is Luma8x8 ==> t8)
            },
    decreases n,
{
    if n > 0 {
        lemma_luma_jobs((n - 1) as nat, intra16, t8, cbp);
        let prev = luma_jobs((n - 1) as nat, intra16, t8, cbp);
        let cur = luma_jobs(n, intra16, t8, cbp);
        assert forall|i: int| 0 <= i < prev.len() implies cur[i] == prev[i] by {}
        if cur.len() > prev.len() {
            let s = cur[prev.len() as int];
            assert(block_key(s) == (if t8 { 4 * n - 3 } else { n as int }));
        }
    }
}

/// The blocks of a residual come in strictly increasing bitstream order,
/// each in range, the luma ones of the kind the layout holds.
pub proof fn lemma_residual_jobs(intra16: bool, t8: bool, cbp: CodedBlockPattern, dc: bool, ac: bool)
    ensures
        keys_increase(residual_jobs(intra16, t8, cbp, dc, ac)),
        forall|i: int|
            0 <= i < residual_jobs(intra16, t8, cbp, dc, ac).len() ==> {
                let s = #[trigger] residual_jobs(intra16, t8, cbp, dc, ac)[i];
                &&& block_ok(s)
                &&& (s is LumaDc ==> intra16)
                &&& (s is LumaAc ==> intra16 && !t8)
                &&& (s is Luma4x4 ==> !intra16 && !t8)
                &&& (s is Luma8x8 ==> t8)
            },
{
    lemma_luma_jobs(16, intra16, t8, cbp);
    let l = luma_jobs(16, intra16, t8, cbp);
    let c = chroma_jobs(dc, ac);
    let all = l + c;
    assert forall|i: int| 0 <= i < c.len() implies 17 <= block_key(#[trigger] c[i]) && block_ok(c[i]) by {}
    assert forall|i: int, j: int| 0 <= i < j < all.len() implies block_key(all[i]) < block_key(all[j]) by {
        if j < l.len() {
        } else if i < l.len() {
            assert(all[j] == c[j - l.len()]);
        } else {
            assert(all[i] == c[i - l.len()]);
            assert(all[j] == c[j - l.len()]);
        }
    }
    assert forall|i: int| 0 <= i < all.len() implies {
        let s = #[trigger] all[i];
        &&& block_ok(s)
        &&& (s is LumaDc ==> intra16)
        &&& (s is LumaAc ==> intra16 && !t8)
        &&& (s is Luma4x4 ==> !intra16 && !t8)
        &&& (s is Luma8x8 ==> t8)
    } by {
        if i >= l.len() {
            assert(all[i] == c[i - l.len()]);
        }
    }
}

/// The blocks of a residual in bitstream order (see `residual_jobs`).
pub fn residual_blocks(intra16: bool, t8: bool, cbp: CodedBlockPattern, dc: bool, ac: bool) -> (v: Vec<
    ResidualBlock,
>)
    ensures
        v@ == residual_jobs(intra16, t8, cbp, dc, ac),
{
    let mut v: Vec<ResidualBlock> = Vec::new();
    if intra16 {
        v.push(ResidualBlock::LumaDc);
    }
    let luma = cbp.luma();
    let mut k: u8 = 0;
    while k < 16
        invariant
            k <= 16,
            luma == cbp.0 % 16,
            v@ == luma_jobs(k as nat, intra16, t8, cbp),
        decreases 16 - k,
    {
        let coded = if t8 {
            k < 4 && luma & (1u8 << k) != 0
        } else {
            luma & (1u8 << (k / 4)) != 0
        };
        if coded {
            v.push(
                if t8 {
                    ResidualBlock::Luma8x8(k)
                } else if intra16 {
                    ResidualBlock::LumaAc(k)
                } else {
                    ResidualBlock::Luma4x4(k)
                },
            );
        }
        k = k + 1;
    }
    let ghost l = v@;
    if dc {
        v.push(ResidualBlock::ChromaDc(0));
        v.push(ResidualBlock::ChromaDc(1));
    }
    if ac {
        let mut c: u8 = 0;
        while c < 2
            invariant
                c <= 2,
                v@ == l + (if dc {
                    seq![ResidualBlock::ChromaDc(0), ResidualBlock::ChromaDc(1)]
                } else {
                    Seq::<ResidualBlock>::empty()
                }) + Seq::new(4 * c as nat, |i: int| ResidualBlock::ChromaAc((i / 4) as u8, (i % 4) as u8)),
            decreases 2 - c,
        {
            let mut b: u8 = 0;
            while b < 4
                invariant
                    c < 2,
                    b <= 4,
                    v@ == l + (if dc {
                        seq![ResidualBlock::ChromaDc(0), ResidualBlock::ChromaDc(1)]
                    } else {
                        Seq::<ResidualBlock>::empty()
                    }) + Seq::new(
                        (4 * c + b) as nat,
                        |i: int| ResidualBlock::ChromaAc((i / 4) as u8, (i % 4) as u8),
                    ),
                decreases 4 - b,
            {
                v.push(ResidualBlock::ChromaAc(c, b));
                b = b + 1;
            }
            c = c + 1;
        }
    }
    proof {
        let want = residual_jobs(intra16, t8, cbp, dc, ac);
        assert(v@ =~= want);
    }
    v
}

/// The levels a block starts from: zero for luma (whose layout is set
/// afresh), what `r` holds for chroma.
pub open spec fn start_levels(r: Residual, s: ResidualBlock) -> Seq<i32> {
    if is_luma_block(s) {
        zeros(block_len(s))
    } else {
        block_levels(r, s)
    }
}

/// The counts a residual starts from: zero for luma, those of `r` for
/// chroma.
pub open spec fn start_nc(r: Residual) -> Seq<u8> {
    Seq::new(
        24,
        |i: int|
            if i < 16 {
                0u8
            } else {
                nc_view(r)[i]
            },
    )
}

/// `nc` with the count of `s`, where it keeps one, set to `n`.
pub open spec fn record_nc(nc: Seq<u8>, s: ResidualBlock, n: u8) -> Seq<u8> {
    match nc_slot(s) {
        Some(i) => nc.update(i, n),
        None => nc,
    }
}

/// `r` is the residual that the blocks `jobs` decoded as `outs` with final
/// counts `nc` make of `r0`: each block of `jobs` holds its levels, every
/// other block its start levels, and the counts are `nc`.
pub open spec fn residual_result(
    r0: Residual,
    r: Residual,
    jobs: Seq<ResidualBlock>,
    outs: Seq<Seq<i32>>,
    nc: Seq<u8>,
) -> bool {
    &&& outs.len() == jobs.len()
    &&& forall|j: int| 0 <= j < jobs.len() ==> #[trigger] block_levels(r, jobs[j]) == outs[j]
    &&& forall|s: ResidualBlock|
        block_ok(s) && fits(r.luma, s) && !jobs.contains(s) ==> #[trigger] block_levels(r, s) == start_levels(
            r0,
            s,
        )
    &&& nc_view(r) == nc
}

/// In strictly increasing `jobs`, the `i`-th block is not among the
/// first `i`.
pub proof fn lemma_not_yet_parsed(jobs: Seq<ResidualBlock>, i: int)
    requires
        keys_increase(jobs),
        0 <= i < jobs.len(),
    ensures
        !jobs.take(i).contains(jobs[i]),
{
    if jobs.take(i).contains(jobs[i]) {
        let j = choose|j: int| 0 <= j < i && jobs.take(i)[j] == jobs[i];
        assert(jobs[j] == jobs[i]);
    }
}

} // verus!
