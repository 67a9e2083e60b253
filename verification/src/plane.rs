//! Sample planes: a byte buffer with a visible `width` x `height` window at
//! (`xorigin`, `yorigin`) and rows `stride` bytes apart, and the indexing
//! facts that the sample-processing stages share.
use vstd::prelude::*;

use crate::arith::clamp;

verus! {

/// Element (`r`, `c`) of `s` read as rows `stride` elements apart.
pub open spec fn at2(s: Seq<u8>, stride: int, r: int, c: int) -> u8 {
    s[r * stride + c]
}

/// `new` is `old` with the `w` x `h` rectangle at the start of the strided
/// view replaced by `f`; every element outside the rectangle is unchanged.
/// (Every index of a buffer is `r * stride + c` for exactly one `r` and one
/// `c < stride`.)
pub open spec fn rect_replaced(
    new: Seq<u8>,
    old: Seq<u8>,
    stride: int,
    w: int,
    h: int,
    f: spec_fn(int, int) -> u8,
) -> bool {
    &&& new.len() == old.len()
    &&& forall|r: int, c: int|
        0 <= r < h && 0 <= c < w ==> #[trigger] at2(new, stride, r, c) == f(r, c)
    &&& forall|r: int, c: int|
        0 <= r && 0 <= c < stride && r * stride + c < old.len() && !(r < h && c < w)
            ==> #[trigger] at2(new, stride, r, c) == at2(old, stride, r, c)
}

/// The `w` x `h` rectangle at the start of a strided buffer of `len`
/// elements fits in it.
pub open spec fn rect_fits(len: int, stride: int, w: int, h: int) -> bool {
    w <= stride && (h > 0 && w > 0 ==> (h - 1) * stride + w <= len)
}

/// Two positions of a strided view with columns below `stride` are
/// different elements.
pub proof fn lemma_rc_distinct(stride: int, r: int, c: int, r0: int, c0: int)
    requires
        0 <= c < stride,
        0 <= c0 < stride,
        0 <= r,
        0 <= r0,
        r != r0 || c != c0,
    ensures
        r * stride + c != r0 * stride + c0,
{
    if r < r0 {
        assert(r * stride + c < r0 * stride + c0) by (nonlinear_arith)
            requires
                r < r0,
                0 <= c < stride,
                0 <= c0,
        ;
    } else if r > r0 {
        assert(r * stride + c > r0 * stride + c0) by (nonlinear_arith)
            requires
                r > r0,
                0 <= c0 < stride,
                0 <= c,
        ;
    }
}

/// A position inside the rectangle of `rect_fits` is inside the buffer.
pub proof fn lemma_rect_index(len: int, stride: int, w: int, h: int, r: int, c: int)
    requires
        rect_fits(len, stride, w, h),
        0 <= r < h,
        0 <= c < w,
    ensures
        0 <= r * stride + c < len,
        r * stride + c <= (h - 1) * stride + c,
{
    assert(0 <= r * stride + c && r * stride + c <= (h - 1) * stride + c) by (nonlinear_arith)
        requires
            0 <= r < h,
            0 <= c < w,
            w <= stride,
    ;
}

/// Geometry of a plane buffer.
#[derive(Clone, Copy, Debug, PartialEq, Eq)]
pub struct PlaneConfig {
    /// Distance between the starts of consecutive rows.
    pub stride: usize,
    /// Visible width in samples.
    pub width: usize,
    /// Visible height in samples.
    pub height: usize,
    /// Column of the first visible sample.
    pub xorigin: usize,
    /// Row of the first visible sample.
    pub yorigin: usize,
    /// Rows allocated, borders included.
    pub alloc_height: usize,
}

impl PlaneConfig {
    /// The visible window is non-empty and lies inside the allocation,
    /// whose size fits in a `usize`.
    pub open spec fn wf(self) -> bool {
        &&& 1 <= self.width
        &&& 1 <= self.height
        &&& self.xorigin + self.width <= self.stride
        &&& self.yorigin + self.height <= self.alloc_height
        &&& self.stride * self.alloc_height <= usize::MAX
    }

    /// Index in the buffer of visible sample (`x`, `y`).
    pub open spec fn index_of(self, x: int, y: int) -> int {
        (self.yorigin + y) * self.stride + self.xorigin + x
    }

    /// Index in the buffer of the first visible sample.
    pub open spec fn origin(self) -> int {
        self.yorigin * self.stride + self.xorigin
    }

    /// Bytes of the allocation: `stride * alloc_height`.
    pub fn total_bytes(&self) -> (n: usize)
        requires
            self.stride * self.alloc_height <= usize::MAX,
        ensures
            n == self.stride * self.alloc_height,
    {
        self.stride * self.alloc_height
    }

    /// Index in the buffer of visible sample (`x`, `y`).
    pub fn index(&self, x: usize, y: usize) -> (i: usize)
        requires
            self.wf(),
            x < self.width,
            y < self.height,
        ensures
            i == self.index_of(x as int, y as int),
            i < self.stride * self.alloc_height,
    {
        proof {
            lemma_plane_index(*self, x as int, y as int);
        }
        (self.yorigin + y) * self.stride + self.xorigin + x
    }
}

/// A visible sample's index lies inside the allocation.
pub proof fn lemma_plane_index(cfg: PlaneConfig, x: int, y: int)
    requires
        cfg.wf(),
        0 <= x < cfg.width,
        0 <= y < cfg.height,
    ensures
        0 <= cfg.origin() <= cfg.index_of(x, y) < cfg.stride * cfg.alloc_height,
        cfg.index_of(x, y) == cfg.origin() + y * cfg.stride + x,
{
    let s = cfg.stride as int;
    let yo = cfg.yorigin as int;
    let r = yo + y;
    assert(r * s + s <= s * cfg.alloc_height) by (nonlinear_arith)
        requires
            r < cfg.alloc_height,
            0 <= s,
    ;
    assert(r * s == yo * s + y * s && 0 <= y * s && 0 <= yo * s) by (nonlinear_arith)
        requires
            r == yo + y,
            0 <= y,
            0 <= yo,
            0 <= s,
    ;
}

/// A read-only view of a plane.
#[derive(Clone, Copy)]
pub struct Plane<'a> {
    /// The whole allocation, borders included.
    pub data: &'a [u8],
    /// Where the visible samples are.
    pub cfg: PlaneConfig,
}

impl<'a> Plane<'a> {
    /// The configuration is well formed and the buffer holds the allocation.
    pub open spec fn wf(&self) -> bool {
        self.cfg.wf() && self.cfg.stride * self.cfg.alloc_height <= self.data@.len()
    }

    /// Visible sample (`x`, `y`).
    pub open spec fn sample(&self, x: int, y: int) -> u8 {
        self.data@[self.cfg.index_of(x, y)]
    }

    /// The sample nearest to (`x`, `y`) inside the picture: coordinates are
    /// clamped to the visible window (the behaviour of references outside
    /// the picture in Section 8.4.2.2).
    pub open spec fn clamped(&self, x: int, y: int) -> int {
        self.sample(
            clamp(x, 0, self.cfg.width - 1),
            clamp(y, 0, self.cfg.height - 1),
        ) as int
    }

    /// Visible sample (`x`, `y`).
    pub fn at(&self, x: usize, y: usize) -> (v: u8)
        requires
            self.wf(),
            x < self.cfg.width,
            y < self.cfg.height,
        ensures
            v == self.sample(x as int, y as int),
    {
        let i = self.cfg.index(x, y);
        self.data[i]
    }

    /// The buffer from the first visible sample on.
    pub fn data_origin(&self) -> (s: &'a [u8])
        requires
            self.wf(),
        ensures
            s@ == self.data@.subrange(self.cfg.origin(), self.data@.len() as int),
    {
        let o = self.cfg.index(0, 0);
        vstd::slice::slice_subrange(self.data, o, self.data.len())
    }
}

/// The three colour planes of a 4:2:0 picture.
#[derive(Clone, Copy, Debug, PartialEq, Eq, Structural)]
pub enum ColorPlane {
    Y,
    Cb,
    Cr,
}

/// A position in luma samples.
#[derive(Clone, Copy, Debug, Default, PartialEq, Eq, Structural)]
pub struct Point {
    pub x: u32,
    pub y: u32,
}

/// A signed position in a plane, as the plane's slicing takes it.
#[derive(Clone, Copy, Debug, Default, PartialEq, Eq, Structural)]
pub struct PlaneOffset {
    pub x: isize,
    pub y: isize,
}

/// The plane offset of point `p`.
pub fn point_to_plane_offset(p: Point) -> (o: PlaneOffset)
    requires
        p.x <= isize::MAX,
        p.y <= isize::MAX,
    ensures
        o.x == p.x,
        o.y == p.y,
{
    PlaneOffset { x: p.x as isize, y: p.y as isize }
}

} // verus!
