//! Decoder-internal frame storage: three planes, each with a border of
//! `BORDER_PX` samples on every side for motion compensation that reaches
//! past the picture.
use crate::plane::{lemma_plane_index, lemma_rc_distinct, ColorPlane, Plane, PlaneConfig};
use vstd::prelude::*;

verus! {

/// Border padding, in samples per side, around every plane: enough for
/// quarter-sample motion across a 16x16 macroblock, which reads up to 16
/// samples past the picture.
pub const BORDER_PX: usize = 16;

/// `value` rounded up to a multiple of `align`.
pub open spec fn spec_round_up(value: int, align: int) -> int {
    ((value + align - 1) / align) * align
}

/// `value` rounded up to a multiple of `align`.
pub fn round_up(value: usize, align: usize) -> (r: usize)
    requires
        align > 0,
        value + align <= usize::MAX,
    ensures
        r == spec_round_up(value as int, align as int),
        value <= r < value + align,
        r % align == 0,
{
    let q = value / align;
    let q = if value % align == 0 {
        q
    } else {
        q + 1
    };
    proof {
        let v = value as int;
        let a = align as int;
        vstd::arithmetic::div_mod::lemma_fundamental_div_mod(v, a);
        vstd::arithmetic::div_mod::lemma_fundamental_div_mod(v + a - 1, a);
        assert(q * a < v + a && v <= q * a) by (nonlinear_arith)
            requires
                v == a * (v / a) + v % a,
                0 <= v % a < a,
                q == (if v % a == 0 {
                    v / a
                } else {
                    v / a + 1
                }),
        ;
        assert(q == (v + a - 1) / a) by (nonlinear_arith)
            requires
                v + a - 1 == a * ((v + a - 1) / a) + (v + a - 1) % a,
                0 <= (v + a - 1) % a < a,
                v <= q * a < v + a,
                a > 0,
        ;
        vstd::arithmetic::div_mod::lemma_mod_multiples_basic(q as int, a);
    }
    q * align
}

/// The configuration of a plane of `visible_w` by `visible_h` samples with
/// a border of `BORDER_PX` on every side and a stride rounded up to a
/// multiple of `BORDER_PX`.
pub fn bordered_plane_cfg(visible_w: usize, visible_h: usize) -> (cfg: PlaneConfig)
    requires
        visible_w + 3 * BORDER_PX <= usize::MAX,
        visible_h + 2 * BORDER_PX <= usize::MAX,
    ensures
        cfg.stride == spec_round_up(visible_w + 2 * BORDER_PX, BORDER_PX as int),
        cfg.width == visible_w,
        cfg.height == visible_h,
        cfg.xorigin == BORDER_PX,
        cfg.yorigin == BORDER_PX,
        cfg.alloc_height == visible_h + 2 * BORDER_PX,
        cfg.xorigin + cfg.width + BORDER_PX <= cfg.stride,
{
    let stride = round_up(visible_w + 2 * BORDER_PX, BORDER_PX);
    let alloc_height = visible_h + 2 * BORDER_PX;
    PlaneConfig {
        stride,
        width: visible_w,
        height: visible_h,
        xorigin: BORDER_PX,
        yorigin: BORDER_PX,
        alloc_height,
    }
}

/// A plane's samples, borders included, and where its visible part is.
pub struct PlaneBuf {
    pub data: Vec<u8>,
    pub cfg: PlaneConfig,
}

impl PlaneBuf {
    /// The buffer holds the allocation of its configuration.
    pub open spec fn wf(&self) -> bool {
        self.cfg.stride * self.cfg.alloc_height <= self.data@.len()
    }

    /// A zeroed plane of configuration `cfg`.
    pub fn zeroed(cfg: PlaneConfig) -> (p: Self)
        requires
            cfg.stride * cfg.alloc_height <= usize::MAX,
        ensures
            p.cfg == cfg,
            p.data@.len() == cfg.stride * cfg.alloc_height,
            forall|i: int| 0 <= i < p.data@.len() ==> #[trigger] p.data@[i] == 0,
            p.wf(),
    {
        let n = cfg.total_bytes();
        PlaneBuf { data: vec![0u8; n], cfg }
    }
}

proof fn lemma_product_over(s: int, r: int)
    requires
        s > 0,
        r >= 0,
    ensures
        r > (usize::MAX as int) / s ==> s * r > usize::MAX,
{
    if r > (usize::MAX as int) / s {
        vstd::arithmetic::div_mod::lemma_fundamental_div_mod(usize::MAX as int, s);
        let q = (usize::MAX as int) / s;
        assert(s * r >= s * (q + 1) && s * (q + 1) == s * q + s) by (nonlinear_arith)
            requires
                s > 0,
                r >= q + 1,
        ;
    }
}

proof fn lemma_product_under(s: int, r: int)
    requires
        s > 0,
        0 <= r <= (usize::MAX as int) / s,
    ensures
        s * r <= usize::MAX,
{
    vstd::arithmetic::div_mod::lemma_fundamental_div_mod(usize::MAX as int, s);
    assert(s * r <= s * ((usize::MAX as int) / s)) by (nonlinear_arith)
        requires
            s > 0,
            r <= (usize::MAX as int) / s,
    ;
}

/// A 4:2:0 frame: luma and the two chroma planes at half resolution, each
/// with its border.
pub struct BorderedFrame {
    pub luma: PlaneBuf,
    pub chroma_cb: PlaneBuf,
    pub chroma_cr: PlaneBuf,
}

/// The configurations of a 4:2:0 frame of `w` by `h` luma samples.
pub open spec fn frame_cfgs_ok(f: BorderedFrame, w: int, h: int) -> bool {
    &&& f.luma.cfg.width == w
    &&& f.luma.cfg.height == h
    &&& f.chroma_cb.cfg.width == w / 2
    &&& f.chroma_cb.cfg.height == h / 2
    &&& f.chroma_cr.cfg == f.chroma_cb.cfg
    &&& f.luma.cfg.xorigin == BORDER_PX && f.luma.cfg.yorigin == BORDER_PX
    &&& f.chroma_cb.cfg.xorigin == BORDER_PX && f.chroma_cb.cfg.yorigin == BORDER_PX
    &&& f.luma.cfg.alloc_height == h + 2 * BORDER_PX
    &&& f.chroma_cb.cfg.alloc_height == h / 2 + 2 * BORDER_PX
    &&& f.luma.cfg.stride == spec_round_up(w + 2 * BORDER_PX, BORDER_PX as int)
    &&& f.chroma_cb.cfg.stride == spec_round_up(w / 2 + 2 * BORDER_PX, BORDER_PX as int)
}

impl BorderedFrame {
    /// A zeroed 4:2:0 frame of `luma_width` by `luma_height` samples:
    /// luma plus Cb and Cr at half resolution, each with a border of
    /// `BORDER_PX` on every side. `None` when the planes would not fit in
    /// the address space.
    pub fn alloc_4_2_0(luma_width: usize, luma_height: usize) -> (f: Option<Self>)
        ensures
            match f {
                Some(f) => {
                    &&& frame_cfgs_ok(f, luma_width as int, luma_height as int)
                    &&& f.luma.wf() && f.chroma_cb.wf() && f.chroma_cr.wf()
                },
                None => luma_width + 3 * BORDER_PX > usize::MAX || luma_height + 2 * BORDER_PX
                    > usize::MAX || spec_round_up(luma_width + 2 * BORDER_PX, BORDER_PX as int) * (
                luma_height + 2 * BORDER_PX) > usize::MAX || spec_round_up(
                    luma_width / 2 + 2 * BORDER_PX,
                    BORDER_PX as int,
                ) * (luma_height / 2 + 2 * BORDER_PX) > usize::MAX,
            },
    {
        if luma_width > usize::MAX - 3 * BORDER_PX || luma_height > usize::MAX - 2 * BORDER_PX {
            return None;
        }
        let luma_cfg = bordered_plane_cfg(luma_width, luma_height);
        let chroma_cfg = bordered_plane_cfg(luma_width / 2, luma_height / 2);
        if luma_cfg.alloc_height > usize::MAX / luma_cfg.stride || chroma_cfg.alloc_height
            > usize::MAX / chroma_cfg.stride {
            proof {
                lemma_product_over(luma_cfg.stride as int, luma_cfg.alloc_height as int);
                lemma_product_over(chroma_cfg.stride as int, chroma_cfg.alloc_height as int);
            }
            return None;
        }
        proof {
            lemma_product_under(luma_cfg.stride as int, luma_cfg.alloc_height as int);
            lemma_product_under(chroma_cfg.stride as int, chroma_cfg.alloc_height as int);
        }
        Some(
            BorderedFrame {
                luma: PlaneBuf::zeroed(luma_cfg),
                chroma_cb: PlaneBuf::zeroed(chroma_cfg),
                chroma_cr: PlaneBuf::zeroed(chroma_cfg),
            },
        )
    }

    /// Mutable access to a plane's buffer; the other planes stay as they
    /// are.
    pub fn plane_mut(&mut self, plane: ColorPlane) -> (p: &mut PlaneBuf)
        ensures
            *p == (match plane {
                ColorPlane::Y => old(self).luma,
                ColorPlane::Cb => old(self).chroma_cb,
                ColorPlane::Cr => old(self).chroma_cr,
            }),
            *final(self) == (match plane {
                ColorPlane::Y => BorderedFrame { luma: *final(p), ..*old(self) },
                ColorPlane::Cb => BorderedFrame { chroma_cb: *final(p), ..*old(self) },
                ColorPlane::Cr => BorderedFrame { chroma_cr: *final(p), ..*old(self) },
            }),
    {
        match plane {
            ColorPlane::Y => &mut self.luma,
            ColorPlane::Cb => &mut self.chroma_cb,
            ColorPlane::Cr => &mut self.chroma_cr,
        }
    }

    /// Read-only view of a plane.
    pub fn plane(&self, plane: ColorPlane) -> (p: Plane<'_>)
        ensures
            p.data@ == (match plane {
                ColorPlane::Y => self.luma.data@,
                ColorPlane::Cb => self.chroma_cb.data@,
                ColorPlane::Cr => self.chroma_cr.data@,
            }),
            p.cfg == (match plane {
                ColorPlane::Y => self.luma.cfg,
                ColorPlane::Cb => self.chroma_cb.cfg,
                ColorPlane::Cr => self.chroma_cr.cfg,
            }),
    {
        let b = match plane {
            ColorPlane::Y => &self.luma,
            ColorPlane::Cb => &self.chroma_cb,
            ColorPlane::Cr => &self.chroma_cr,
        };
        Plane { data: b.data.as_slice(), cfg: b.cfg }
    }
}

/// Index `i` of a plane buffer is one of the `w` x `h` visible samples
/// whose top-left one is (`x0`, `y0`).
pub open spec fn in_block(cfg: PlaneConfig, x0: int, y0: int, w: int, h: int, i: int) -> bool {
    exists|r: int, c: int| 0 <= r < h && 0 <= c < w && #[trigger] cfg.index_of(x0 + c, y0 + r) == i
}

/// `new` is the buffer `old` of a plane of configuration `cfg` with the
/// `w` x `h` block of visible samples at (`x0`, `y0`) set from `src`, row
/// by row, and every other byte as it was.
pub open spec fn block_written(
    new: Seq<u8>,
    old: Seq<u8>,
    cfg: PlaneConfig,
    x0: int,
    y0: int,
    w: int,
    h: int,
    src: Seq<u8>,
) -> bool {
    &&& new.len() == old.len()
    &&& forall|r: int, c: int|
        0 <= r < h && 0 <= c < w ==> new[#[trigger] cfg.index_of(x0 + c, y0 + r)] == src[r * w + c]
    &&& forall|i: int| 0 <= i < old.len() && !in_block(cfg, x0, y0, w, h, i) ==> #[trigger] new[i] == old[i]
}

impl PlaneBuf {
    /// Sets the `w` x `h` block of visible samples at (`x0`, `y0`) from
    /// `src`, row by row (see `block_written`).
    pub fn write_block(&mut self, x0: usize, y0: usize, w: usize, h: usize, src: &[u8])
        requires
            old(self).cfg.wf(),
            old(self).wf(),
            x0 + w <= old(self).cfg.width,
            y0 + h <= old(self).cfg.height,
            w <= 16,
            h <= 16,
            src@.len() == w * h,
        ensures
            final(self).cfg == old(self).cfg,
            block_written(
                final(self).data@,
                old(self).data@,
                old(self).cfg,
                x0 as int,
                y0 as int,
                w as int,
                h as int,
                src@,
            ),
    {
        let ghost orig = self.data@;
        let cfg = self.cfg;
        let mut r: usize = 0;
        while r < h
            invariant
                self.cfg == cfg,
                cfg.wf(),
                cfg.stride * cfg.alloc_height <= self.data@.len(),
                self.data@.len() == orig.len(),
                x0 + w <= cfg.width,
                y0 + h <= cfg.height,
                w <= 16,
                h <= 16,
                src@.len() == w * h,
                r <= h,
                forall|rr: int, cc: int|
                    0 <= rr < r && 0 <= cc < w ==> self.data@[#[trigger] cfg.index_of(x0 + cc, y0 + rr)] == src@[rr * w
                        + cc],
                forall|i: int|
                    0 <= i < orig.len() && !(exists|rr: int, cc: int|
                        0 <= rr < r && 0 <= cc < w && #[trigger] cfg.index_of(x0 + cc, y0 + rr) == i)
                        ==> #[trigger] self.data@[i] == orig[i],
            decreases h - r,
        {
            let mut c: usize = 0;
            while c < w
                invariant
                    self.cfg == cfg,
                    cfg.wf(),
                    cfg.stride * cfg.alloc_height <= self.data@.len(),
                    self.data@.len() == orig.len(),
                    x0 + w <= cfg.width,
                    y0 + h <= cfg.height,
                    w <= 16,
                    h <= 16,
                    src@.len() == w * h,
                    r < h,
                    c <= w,
                    forall|rr: int, cc: int|
                        0 <= rr < r && 0 <= cc < w ==> self.data@[#[trigger] cfg.index_of(x0 + cc, y0 + rr)]
                            == src@[rr * w + cc],
                    forall|cc: int|
                        0 <= cc < c ==> self.data@[#[trigger] cfg.index_of(x0 + cc, y0 + r)] == src@[r * w + cc],
                    forall|i: int|
                        0 <= i < orig.len() && !(exists|rr: int, cc: int|
                            0 <= rr < r && 0 <= cc < w && #[trigger] cfg.index_of(x0 + cc, y0 + rr) == i) && !(
                        exists|cc: int| 0 <= cc < c && #[trigger] cfg.index_of(x0 + cc, y0 + r) == i)
                            ==> #[trigger] self.data@[i] == orig[i],
                decreases w - c,
            {
                proof {
                    lemma_plane_index(cfg, (x0 + c) as int, (y0 + r) as int);
                    assert(r * w + c < w * h && w * h <= 256) by (nonlinear_arith)
                        requires
                            r < h,
                            c < w,
                            h <= 16,
                            w <= 16,
                    ;
                }
                let idx = cfg.index(x0 + c, y0 + r);
                let v = src[r * w + c];
                let ghost before = self.data@;
                self.data[idx] = v;
                proof {
                    let row = cfg.yorigin + y0 + r;
                    let col = cfg.xorigin + x0 + c;
                    assert forall|rr: int, cc: int| 0 <= rr < h && 0 <= cc < w && (rr != r || cc != c) implies
                        #[trigger] cfg.index_of(x0 + cc, y0 + rr) != idx by {
                        lemma_rc_distinct(
                            cfg.stride as int,
                            cfg.yorigin + y0 + rr,
                            cfg.xorigin + x0 + cc,
                            row as int,
                            col as int,
                        );
                    }
                    assert forall|rr: int, cc: int|
                        0 <= rr < r && 0 <= cc < w implies self.data@[#[trigger] cfg.index_of(x0 + cc, y0 + rr)]
                        == src@[rr * w + cc] by {
                        lemma_plane_index(cfg, x0 + cc, y0 + rr);
                        assert(cfg.index_of(x0 + cc, y0 + rr) != idx);
                    }
                    assert forall|cc: int| 0 <= cc < c + 1 implies self.data@[#[trigger] cfg.index_of(
                        x0 + cc,
                        y0 + r,
                    )] == src@[r * w + cc] by {
                        if cc < c {
                            lemma_plane_index(cfg, x0 + cc, y0 + r);
                            assert(cfg.index_of(x0 + cc, y0 + r) != idx);
                        }
                    }
                    assert forall|i: int|
                        0 <= i < orig.len() && !(exists|rr: int, cc: int|
                            0 <= rr < r && 0 <= cc < w && #[trigger] cfg.index_of(x0 + cc, y0 + rr) == i) && !(
                        exists|cc: int| 0 <= cc < c + 1 && #[trigger] cfg.index_of(x0 + cc, y0 + r) == i) implies
                        #[trigger] self.data@[i] == orig[i] by {
                        assert(cfg.index_of(x0 + c, y0 + r) == idx);
                        assert(i != idx);
                        assert(self.data@[i] == before[i]);
                    }
                }
                c = c + 1;
            }
            proof {
                assert forall|i: int|
                    0 <= i < orig.len() && !(exists|rr: int, cc: int|
                        0 <= rr < r + 1 && 0 <= cc < w && #[trigger] cfg.index_of(x0 + cc, y0 + rr) == i) implies
                    #[trigger] self.data@[i] == orig[i] by {
                    assert(!(exists|cc: int| 0 <= cc < w && #[trigger] cfg.index_of(x0 + cc, y0 + r) == i)) by {
                        if exists|cc: int| 0 <= cc < w && #[trigger] cfg.index_of(x0 + cc, y0 + r) == i {
                            let cc = choose|cc: int| 0 <= cc < w && #[trigger] cfg.index_of(x0 + cc, y0 + r) == i;
                            assert(0 <= r < r + 1 && 0 <= cc < w && cfg.index_of(x0 + cc, y0 + r) == i);
                        }
                    }
                    assert(!(exists|rr: int, cc: int|
                        0 <= rr < r && 0 <= cc < w && #[trigger] cfg.index_of(x0 + cc, y0 + rr) == i)) by {
                        if exists|rr: int, cc: int| 0 <= rr < r && 0 <= cc < w && #[trigger] cfg.index_of(x0 + cc, y0 + rr) == i {
                            let (rr, cc) = choose|rr: int, cc: int|
                                0 <= rr < r && 0 <= cc < w && #[trigger] cfg.index_of(x0 + cc, y0 + rr) == i;
                            assert(0 <= rr < r + 1 && 0 <= cc < w && cfg.index_of(x0 + cc, y0 + rr) == i);
                        }
                    }
                }
            }
            r = r + 1;
        }
    }
}

} // verus!
