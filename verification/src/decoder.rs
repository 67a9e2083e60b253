//! Decoder state shared across the stages: a packed bit vector, the
//! parameter-set store, per-slice deblocking parameters and the
//! quantisation parameter derivations.
use vstd::prelude::*;

use crate::arith::clamp;
use crate::error::DecoderError;
use crate::macroblock::{spec_qp_delta, spec_with_qp, Macroblock, MbMotion, PcmMb};
use crate::frame::{block_written, BorderedFrame};
use crate::params::{ChromaFormat, PicParameterSet, SequenceParameterSet};

verus! {

/// Bit `k` of `w`.
pub open spec fn bit(w: u64, k: int) -> bool {
    (w >> (k as u64)) & 1u64 == 1u64
}

proof fn lemma_bit_test(w: u64, k: u64)
    by (bit_vector)
    requires
        k < 64,
    ensures
        (w & (1u64 << k) != 0u64) == ((w >> k) & 1u64 == 1u64),
{
}

proof fn lemma_bit_set(w: u64, k: u64, j: u64)
    by (bit_vector)
    requires
        k < 64,
        j < 64,
    ensures
        ((w | (1u64 << k)) >> j) & 1u64 == if j == k {
            1u64
        } else {
            (w >> j) & 1u64
        },
        ((w & !(1u64 << k)) >> j) & 1u64 == if j == k {
            0u64
        } else {
            (w >> j) & 1u64
        },
{
}

proof fn lemma_zero_bits(j: u64)
    by (bit_vector)
    requires
        j < 64,
    ensures
        (0u64 >> j) & 1u64 == 0u64,
{
}

/// Compact bit-packed boolean vector.
#[derive(Clone, Debug, Default)]
pub struct BitVec {
    words: Vec<u64>,
    len: usize,
}

/// Words needed for `len` bits.
pub open spec fn words_for(len: int) -> int {
    len / 64 + if len % 64 != 0 {
        1int
    } else {
        0
    }
}

impl View for BitVec {
    type V = Seq<bool>;

    closed spec fn view(&self) -> Seq<bool> {
        Seq::new(self.len as nat, |i: int| bit(self.words@[i / 64], i % 64))
    }
}

impl BitVec {
    /// The words hold exactly the bits.
    pub closed spec fn wf(&self) -> bool {
        self.words@.len() == words_for(self.len as int)
    }

    /// `len` bits, all clear.
    pub fn zeros(len: usize) -> (b: Self)
        ensures
            b.wf(),
            b@ == Seq::new(len as nat, |i: int| false),
    {
        let n = len / 64 + if len % 64 != 0 {
            1
        } else {
            0
        };
        let b = BitVec { words: vec![0u64; n], len };
        assert forall|i: int| 0 <= i < len implies #[trigger] b@[i] == false by {
            lemma_zero_bits((i % 64) as u64);
        }
        assert(b@ =~= Seq::new(len as nat, |i: int| false));
        b
    }

    /// Number of bits.
    pub fn len(&self) -> (n: usize)
        ensures
            n == self@.len(),
    {
        self.len
    }

    /// There are no bits.
    pub fn is_empty(&self) -> (b: bool)
        ensures
            b == (self@.len() == 0),
    {
        self.len == 0
    }

    /// Bit `i`.
    pub fn get(&self, i: usize) -> (b: bool)
        requires
            self.wf(),
            i < self@.len(),
        ensures
            b == self@[i as int],
    {
        proof {
            lemma_bit_test(self.words@[(i / 64) as int], (i % 64) as u64);
        }
        self.words[i / 64] & (1u64 << ((i % 64) as u64)) != 0
    }

    /// Sets bit `i` to `v`.
    pub fn set(&mut self, i: usize, v: bool)
        requires
            old(self).wf(),
            i < old(self)@.len(),
        ensures
            final(self).wf(),
            final(self)@ == old(self)@.update(i as int, v),
    {
        let k = (i % 64) as u64;
        let wi = i / 64;
        let w = self.words[wi];
        let mask = 1u64 << k;
        let nw = if v {
            w | mask
        } else {
            w & !mask
        };
        let ghost before = self@;
        self.words.set(wi, nw);
        proof {
            assert forall|j: int| 0 <= j < before.len() implies #[trigger] self@[j] == before.update(
                i as int,
                v,
            )[j] by {
                lemma_bit_set(w, k, (j % 64) as u64);
                if j / 64 == wi as int {
                    if j != i {
                        assert(j % 64 != i % 64);
                    }
                }
            }
            assert(self@ =~= before.update(i as int, v));
        }
    }
}

/// Stores motion information from a decoded picture, needed for temporal
/// direct prediction in B slices.
#[derive(Clone, Debug)]
pub struct MotionFieldStorage {
    /// Per-macroblock motion vectors and reference indices, by address.
    pub mb_motion: Vec<MbMotion>,
    /// Per-macroblock intra flag, by address.
    pub mb_is_intra: BitVec,
    /// Slice that decoded each macroblock, by address.
    pub mb_slice_id: Vec<u16>,
    /// Picture order counts of both reference picture lists of each slice,
    /// by slice id.
    pub slice_ref_pocs: Vec<(Vec<i32>, Vec<i32>)>,
}

/// Errors of the decoding process.
#[derive(Debug, Clone)]
pub enum DecodingError {
    MisformedData(String),
    OutOfRange(String),
    FeatureNotSupported(String),
    ReferenceNotFound(String),
}

/// `disable_deblocking_filter_idc` of a slice (Section 7.4.3).
#[derive(Clone, Copy, Debug, Default, PartialEq, Eq, Structural)]
pub enum DeblockingFilterIdc {
    /// 0: filter every edge.
    #[default]
    On,
    /// 1: filter nothing.
    Off,
    /// 2: filter every edge but those on slice boundaries.
    OnExceptSliceBounds,
}

/// Per-slice deblocking parameters captured at slice-decode time and
/// consumed by the picture-level deblocking pass (Section 8.7).
#[derive(Clone, Copy, Debug)]
pub struct SliceDeblockParams {
    pub idc: DeblockingFilterIdc,
    pub alpha_c0_offset_div2: i32,
    pub beta_offset_div2: i32,
}

/// Table 8-15: `QPc` as a function of `qPI` for `qPI >= 0`.
pub open spec fn qpc_table(qpi: int) -> int {
    if qpi < 30 {
        qpi
    } else if qpi == 30 {
        29
    } else if qpi == 31 {
        30
    } else if qpi == 32 {
        31
    } else if qpi <= 34 {
        32
    } else if qpi == 35 {
        33
    } else if qpi <= 37 {
        34
    } else if qpi <= 39 {
        35
    } else if qpi <= 41 {
        36
    } else if qpi <= 44 {
        37
    } else if qpi <= 47 {
        38
    } else {
        39
    }
}

/// Section 8.5.8, Eqs. 8-313 to 8-315: the chroma quantisation parameter
/// `QP'c` for luma parameter `luma_qp`, offset `chroma_qp_offset` and
/// `QpBdOffsetC = qp_bd_offset_c`.
pub open spec fn spec_chroma_qp(luma_qp: int, chroma_qp_offset: int, qp_bd_offset_c: int) -> int {
    let qpi = clamp(luma_qp + chroma_qp_offset, -qp_bd_offset_c, 51);
    let qpc = if qpi < 0 {
        qpi
    } else {
        qpc_table(qpi)
    };
    qpc + qp_bd_offset_c
}

/// Section 8.5.8: the chroma quantisation parameter `QP'c` (Table 8-15).
/// With `qp_bd_offset_c = 6 * bit_depth_chroma_minus8` in `0..=36` the
/// result lies in `0..=87`.
pub fn get_chroma_qp(luma_qp: i32, chroma_qp_offset: i32, qp_bd_offset_c: i32) -> (qp: u8)
    requires
        0 <= qp_bd_offset_c <= 36,
        i32::MIN <= luma_qp + chroma_qp_offset <= i32::MAX,
    ensures
        qp == spec_chroma_qp(luma_qp as int, chroma_qp_offset as int, qp_bd_offset_c as int),
{
    let sum = luma_qp + chroma_qp_offset;
    let qp_i = if sum < -qp_bd_offset_c {
        -qp_bd_offset_c
    } else if sum > 51 {
        51
    } else {
        sum
    };
    let qp_c: i32 = if qp_i < 30 {
        qp_i
    } else if qp_i == 30 {
        29
    } else if qp_i == 31 {
        30
    } else if qp_i == 32 {
        31
    } else if qp_i <= 34 {
        32
    } else if qp_i == 35 {
        33
    } else if qp_i <= 37 {
        34
    } else if qp_i <= 39 {
        35
    } else if qp_i <= 41 {
        36
    } else if qp_i <= 44 {
        37
    } else if qp_i <= 47 {
        38
    } else {
        39
    };
    (qp_c + qp_bd_offset_c) as u8
}

/// Section 7.4.5, Eq. 7-37: `QP_Y` after `mb_qp_delta`, wrapping around
/// the range `-qp_bd_offset_y..=51`.
pub fn next_qp(qp: i32, mb_qp_delta: i32, qp_bd_offset_y: i32) -> (r: i32)
    requires
        0 <= qp_bd_offset_y <= 36,
        -qp_bd_offset_y <= qp <= 51,
        -(26 + qp_bd_offset_y / 2) <= mb_qp_delta <= 25 + qp_bd_offset_y / 2,
    ensures
        r == (qp + mb_qp_delta + 52 + 2 * qp_bd_offset_y) % (52 + qp_bd_offset_y) - qp_bd_offset_y,
        -qp_bd_offset_y <= r <= 51,
{
    (qp + mb_qp_delta + 52 + 2 * qp_bd_offset_y) % (52 + qp_bd_offset_y) - qp_bd_offset_y
}

/// The first element of `s` whose key is `id`.
pub open spec fn find_by<T>(s: Seq<T>, key: spec_fn(T) -> u8, id: u8) -> Option<T>
    decreases s.len(),
{
    if s.len() == 0 {
        None
    } else if key(s[0]) == id {
        Some(s[0])
    } else {
        find_by(s.subrange(1, s.len() as int), key, id)
    }
}

/// The elements whose key is not `id`.
pub open spec fn key_not<T>(key: spec_fn(T) -> u8, id: u8) -> spec_fn(T) -> bool {
    |x: T| key(x) != id
}

/// `s` without the elements whose key is `id`, in order.
pub open spec fn without<T>(s: Seq<T>, key: spec_fn(T) -> u8, id: u8) -> Seq<T> {
    s.filter(key_not(key, id))
}

/// The key of a sequence parameter set: its id.
pub open spec fn sps_key() -> spec_fn(SequenceParameterSet) -> u8 {
    |x: SequenceParameterSet| x.seq_parameter_set_id
}

/// The key of a picture parameter set: its id.
pub open spec fn pps_key() -> spec_fn(PicParameterSet) -> u8 {
    |x: PicParameterSet| x.pic_parameter_set_id
}

proof fn lemma_find_none<T>(s: Seq<T>, key: spec_fn(T) -> u8, id: u8)
    requires
        forall|k: int| 0 <= k < s.len() ==> key(#[trigger] s[k]) != id,
    ensures
        find_by(s, key, id) is None,
    decreases s.len(),
{
    if s.len() > 0 {
        let t = s.subrange(1, s.len() as int);
        assert forall|k: int| 0 <= k < t.len() implies key(#[trigger] t[k]) != id by {
            assert(t[k] == s[k + 1]);
        }
        lemma_find_none(t, key, id);
    }
}

proof fn lemma_find_push<T>(s: Seq<T>, key: spec_fn(T) -> u8, x: T, id: u8)
    ensures
        find_by(s.push(x), key, id) == if find_by(s, key, id) is Some {
            find_by(s, key, id)
        } else if key(x) == id {
            Some(x)
        } else {
            None
        },
    decreases s.len(),
{
    let t = s.push(x);
    if s.len() == 0 {
        assert(t.subrange(1, t.len() as int) =~= Seq::<T>::empty());
        assert(find_by(Seq::<T>::empty(), key, id) is None);
        assert(find_by(s, key, id) is None);
    } else {
        assert(t[0] == s[0]);
        let s1 = s.subrange(1, s.len() as int);
        assert(t.subrange(1, t.len() as int) =~= s1.push(x));
        lemma_find_push(s1, key, x, id);
    }
}

proof fn lemma_find_without<T>(s: Seq<T>, key: spec_fn(T) -> u8, id: u8, other: u8)
    requires
        other != id,
    ensures
        find_by(without(s, key, id), key, other) == find_by(s, key, other),
    decreases s.len(),
{
    let p = key_not(key, id);
    reveal(Seq::filter);
    if s.len() > 0 {
        let t = s.subrange(1, s.len() as int);
        assert(s =~= seq![s[0]] + t);
        t.lemma_filter_prepend(s[0], p);
        lemma_find_without(t, key, id, other);
        let wt = without(t, key, id);
        if p(s[0]) {
            let w = seq![s[0]] + wt;
            assert(w[0] == s[0]);
            assert(w.subrange(1, w.len() as int) =~= wt);
        } else {
            assert(without(s, key, id) =~= wt);
        }
    }
}

/// Storing an element with key `k` in a keyed store (dropping the older
/// ones with that key, then appending it) makes a look-up of `k` give it
/// back, and leaves the look-up of every other key as it was.
pub proof fn lemma_put_then_find<T>(s: Seq<T>, key: spec_fn(T) -> u8, x: T, other: u8)
    ensures
        find_by(without(s, key, key(x)).push(x), key, key(x)) == Some(x),
        other != key(x) ==> find_by(without(s, key, key(x)).push(x), key, other) == find_by(
            s,
            key,
            other,
        ),
{
    let w = without(s, key, key(x));
    let p = key_not(key, key(x));
    broadcast use vstd::seq_lib::group_filter_ensures;

    assert forall|k: int| 0 <= k < w.len() implies key(#[trigger] w[k]) != key(x) by {
        s.lemma_filter_pred(p, k);
    }
    lemma_find_none(w, key, key(x));
    lemma_find_push(w, key, x, key(x));
    lemma_find_push(w, key, x, other);
    if other != key(x) {
        lemma_find_without(s, key, key(x), other);
    }
}

/// The parameter sets received so far, oldest first.
#[derive(Clone, Debug, Default)]
pub struct DecoderContext {
    sps: Vec<SequenceParameterSet>,
    pps: Vec<PicParameterSet>,
}

/// A reference held in an option, read as a value.
pub open spec fn deref_opt<T>(o: Option<&T>) -> Option<T> {
    match o {
        Some(x) => Some(*x),
        None => None,
    }
}

impl DecoderContext {
    /// The stored sequence parameter sets, oldest first.
    pub closed spec fn sps_list(&self) -> Seq<SequenceParameterSet> {
        self.sps@
    }

    /// The stored picture parameter sets, oldest first.
    pub closed spec fn pps_list(&self) -> Seq<PicParameterSet> {
        self.pps@
    }

    /// A context with no parameter sets.
    pub fn new() -> (c: Self)
        ensures
            c.sps_list() == Seq::<SequenceParameterSet>::empty(),
            c.pps_list() == Seq::<PicParameterSet>::empty(),
    {
        DecoderContext { sps: Vec::new(), pps: Vec::new() }
    }

    /// The sequence parameter set with id `id`, if one was stored.
    pub fn get_sps(&self, id: u8) -> (r: Option<&SequenceParameterSet>)
        ensures
            deref_opt(r) == find_by(self.sps_list(), sps_key(), id),
    {
        let n = self.sps.len();
        let mut i: usize = 0;
        assert(self.sps@.subrange(0, n as int) =~= self.sps@);
        while i < n
            invariant
                n == self.sps@.len(),
                i <= n,
                find_by(self.sps@, sps_key(), id) == find_by(
                    self.sps@.subrange(i as int, n as int),
                    sps_key(),
                    id,
                ),
            decreases n - i,
        {
            let ghost rest = self.sps@.subrange(i as int, n as int);
            assert(rest[0] == self.sps@[i as int]);
            if self.sps[i].seq_parameter_set_id == id {
                return Some(&self.sps[i]);
            }
            assert(rest.subrange(1, rest.len() as int) =~= self.sps@.subrange(i + 1, n as int));
            i = i + 1;
        }
        None
    }

    /// Stores `sps`, replacing any stored one with its id.
    pub fn put_sps(&mut self, sps: SequenceParameterSet)
        ensures
            final(self).sps_list() == without(old(self).sps_list(), sps_key(), sps.seq_parameter_set_id).push(
                sps,
            ),
            final(self).pps_list() == old(self).pps_list(),
    {
        let id = sps.seq_parameter_set_id;
        let ghost s = self.sps@;
        let ghost p = key_not(sps_key(), id);
        let mut kept: Vec<SequenceParameterSet> = Vec::new();
        let n = self.sps.len();
        let mut i: usize = 0;
        assert(s.subrange(0, 0).filter(p) =~= Seq::<SequenceParameterSet>::empty()) by {
            reveal(Seq::filter);
        }
        while i < n
            invariant
                n == s.len(),
                s == self.sps@,
                i <= n,
                p == key_not(sps_key(), id),
                kept@ == s.subrange(0, i as int).filter(p),
            decreases n - i,
        {
            let x = self.sps[i];
            proof {
                reveal(Seq::filter);
                assert(s.subrange(0, i + 1).drop_last() =~= s.subrange(0, i as int));
            }
            if x.seq_parameter_set_id != id {
                kept.push(x);
            }
            i = i + 1;
        }
        assert(s.subrange(0, n as int) =~= s);
        kept.push(sps);
        self.sps = kept;
    }

    /// The picture parameter set with id `id`, if one was stored.
    pub fn get_pps(&self, id: u8) -> (r: Option<&PicParameterSet>)
        ensures
            deref_opt(r) == find_by(self.pps_list(), pps_key(), id),
    {
        let n = self.pps.len();
        let mut i: usize = 0;
        assert(self.pps@.subrange(0, n as int) =~= self.pps@);
        while i < n
            invariant
                n == self.pps@.len(),
                i <= n,
                find_by(self.pps@, pps_key(), id) == find_by(
                    self.pps@.subrange(i as int, n as int),
                    pps_key(),
                    id,
                ),
            decreases n - i,
        {
            let ghost rest = self.pps@.subrange(i as int, n as int);
            assert(rest[0] == self.pps@[i as int]);
            if self.pps[i].pic_parameter_set_id == id {
                return Some(&self.pps[i]);
            }
            assert(rest.subrange(1, rest.len() as int) =~= self.pps@.subrange(i + 1, n as int));
            i = i + 1;
        }
        None
    }

    /// Stores `pps`, replacing any stored one with its id.
    pub fn put_pps(&mut self, pps: PicParameterSet)
        ensures
            final(self).pps_list() == without(old(self).pps_list(), pps_key(), pps.pic_parameter_set_id).push(
                pps,
            ),
            final(self).sps_list() == old(self).sps_list(),
    {
        let id = pps.pic_parameter_set_id;
        let ghost s = self.pps@;
        let ghost p = key_not(pps_key(), id);
        let mut kept: Vec<PicParameterSet> = Vec::new();
        let n = self.pps.len();
        let mut i: usize = 0;
        assert(s.subrange(0, 0).filter(p) =~= Seq::<PicParameterSet>::empty()) by {
            reveal(Seq::filter);
        }
        while i < n
            invariant
                n == s.len(),
                s == self.pps@,
                i <= n,
                p == key_not(pps_key(), id),
                kept@ == s.subrange(0, i as int).filter(p),
            decreases n - i,
        {
            let x = self.pps[i];
            proof {
                reveal(Seq::filter);
                assert(s.subrange(0, i + 1).drop_last() =~= s.subrange(0, i as int));
            }
            if x.pic_parameter_set_id != id {
                kept.push(x);
            }
            i = i + 1;
        }
        assert(s.subrange(0, n as int) =~= s);
        kept.push(pps);
        self.pps = kept;
    }
}

/// What Section 7.4.1.2.4 compares between the first slice of the current
/// picture and the next slice: values of the slice header and of its NAL
/// unit header.
#[derive(Clone, Copy, Debug, Default, PartialEq, Eq)]
pub struct PictureIdentity {
    pub frame_num: u32,
    pub pic_parameter_set_id: u32,
    pub field_pic_flag: bool,
    pub nal_ref_idc_nonzero: bool,
    pub nal_unit_type_is_idr: bool,
    pub idr_pic_id: u32,
    pub pic_order_cnt_lsb: u32,
    pub delta_pic_order_cnt_bottom: i32,
    pub delta_pic_order_cnt: [i32; 2],
}

/// Section 7.4.1.2.4: a slice described by `next` starts a new primary
/// coded picture after the picture of `prev`: `frame_num`,
/// `pic_parameter_set_id` or `field_pic_flag` differ, `nal_ref_idc` is 0
/// for one only, one only is an IDR picture, both are IDR pictures with
/// different `idr_pic_id`, or the picture order count fields of
/// `pic_order_cnt_type` 0 or 1 differ.
pub open spec fn spec_is_new_picture(prev: PictureIdentity, next: PictureIdentity, pic_order_cnt_type: u8) -> bool {
    ||| prev.frame_num != next.frame_num
    ||| prev.pic_parameter_set_id != next.pic_parameter_set_id
    ||| prev.field_pic_flag != next.field_pic_flag
    ||| prev.nal_ref_idc_nonzero != next.nal_ref_idc_nonzero
    ||| prev.nal_unit_type_is_idr != next.nal_unit_type_is_idr
    ||| (prev.nal_unit_type_is_idr && next.nal_unit_type_is_idr && prev.idr_pic_id != next.idr_pic_id)
    ||| (pic_order_cnt_type == 0 && (prev.pic_order_cnt_lsb != next.pic_order_cnt_lsb
        || prev.delta_pic_order_cnt_bottom != next.delta_pic_order_cnt_bottom))
    ||| (pic_order_cnt_type == 1 && prev.delta_pic_order_cnt@ != next.delta_pic_order_cnt@)
}

/// Section 7.4.1.2.4: whether the slice described by `next` begins a new
/// picture (see `spec_is_new_picture`).
pub fn is_new_picture(prev: &PictureIdentity, next: &PictureIdentity, pic_order_cnt_type: u8) -> (b: bool)
    ensures
        b == spec_is_new_picture(*prev, *next, pic_order_cnt_type),
{
    if prev.frame_num != next.frame_num {
        return true;
    }
    if prev.pic_parameter_set_id != next.pic_parameter_set_id {
        return true;
    }
    if prev.field_pic_flag != next.field_pic_flag {
        return true;
    }
    if prev.nal_ref_idc_nonzero != next.nal_ref_idc_nonzero {
        return true;
    }
    if prev.nal_unit_type_is_idr != next.nal_unit_type_is_idr {
        return true;
    }
    if prev.nal_unit_type_is_idr && next.nal_unit_type_is_idr && prev.idr_pic_id != next.idr_pic_id {
        return true;
    }
    if pic_order_cnt_type == 0 {
        if prev.pic_order_cnt_lsb != next.pic_order_cnt_lsb {
            return true;
        }
        if prev.delta_pic_order_cnt_bottom != next.delta_pic_order_cnt_bottom {
            return true;
        }
    }
    if pic_order_cnt_type == 1 {
        let differs = prev.delta_pic_order_cnt[0] != next.delta_pic_order_cnt[0] || prev.delta_pic_order_cnt[1]
            != next.delta_pic_order_cnt[1];
        assert(differs == (prev.delta_pic_order_cnt@ != next.delta_pic_order_cnt@)) by {
            if !differs {
                assert(prev.delta_pic_order_cnt@ =~= next.delta_pic_order_cnt@);
            }
        }
        if differs {
            return true;
        }
    }
    false
}

/// The slices of one picture carry the same identity: a slice never
/// starts a new picture after a slice with the same values.
pub proof fn lemma_same_slice_not_new_picture(id: PictureIdentity, pic_order_cnt_type: u8)
    ensures
        !spec_is_new_picture(id, id, pic_order_cnt_type),
{
}

/// The pictures that the DPB indices of `ref_list` select, in order; a
/// `ReferenceNotFound` error naming `list_name` where an index lies past
/// the end of `dpb_pictures`.
pub fn resolve_ref_pic_list<'a, T>(ref_list: &[usize], dpb_pictures: &'a [T], list_name: &str) -> (r: Result<
    Vec<&'a T>,
    DecoderError,
>)
    ensures
        match r {
            Ok(v) => {
                &&& v@.len() == ref_list@.len()
                &&& forall|i: int|
                    0 <= i < ref_list@.len() ==> ref_list@[i] < dpb_pictures@.len() && #[trigger] v@[i]
                        == &dpb_pictures@[ref_list@[i] as int]
            },
            Err(e) => e is ReferenceNotFound && exists|i: int|
                0 <= i < ref_list@.len() && #[trigger] ref_list@[i] >= dpb_pictures@.len(),
        },
{
    let mut v: Vec<&'a T> = Vec::new();
    let mut i: usize = 0;
    while i < ref_list.len()
        invariant
            i <= ref_list@.len(),
            v@.len() == i,
            forall|j: int| 0 <= j < i ==> #[trigger] ref_list@[j] < dpb_pictures@.len(),
            forall|j: int| 0 <= j < i ==> #[trigger] v@[j] == &dpb_pictures@[ref_list@[j] as int],
        decreases ref_list@.len() - i,
    {
        let dpb_idx = ref_list[i];
        if dpb_idx >= dpb_pictures.len() {
            return Err(DecoderError::ReferenceNotFound(list_name.to_owned()));
        }
        let pic = &dpb_pictures[dpb_idx];
        let ghost old_v = v@;
        v.push(pic);
        assert forall|j: int| 0 <= j <= i implies ref_list@[j] < dpb_pictures@.len() && #[trigger] v@[j]
            == &dpb_pictures@[ref_list@[j] as int] by {
            if j < i {
                assert(v@[j] == old_v[j]);
            }
        }
        i = i + 1;
    }
    Ok(v)
}

/// The store that `puts` leave, one after another, in an empty keyed store
/// (each dropping the older elements with its key, then appended).
pub open spec fn store_after<T>(key: spec_fn(T) -> u8, puts: Seq<T>) -> Seq<T>
    decreases puts.len(),
{
    if puts.len() == 0 {
        Seq::empty()
    } else {
        without(store_after(key, puts.drop_last()), key, key(puts.last())).push(puts.last())
    }
}

/// The last element of `puts` with key `id`.
pub open spec fn last_with<T>(key: spec_fn(T) -> u8, puts: Seq<T>, id: u8) -> Option<T>
    decreases puts.len(),
{
    if puts.len() == 0 {
        None
    } else if key(puts.last()) == id {
        Some(puts.last())
    } else {
        last_with(key, puts.drop_last(), id)
    }
}

/// After any sequence of stores into an empty keyed store (such as
/// `put_sps` or `put_pps` on a new `DecoderContext`), a look-up of `id`
/// gives the last element stored with that key, and nothing where none
/// was.
pub proof fn lemma_puts_then_find<T>(key: spec_fn(T) -> u8, puts: Seq<T>, id: u8)
    ensures
        find_by(store_after(key, puts), key, id) == last_with(key, puts, id),
    decreases puts.len(),
{
    if puts.len() > 0 {
        lemma_puts_then_find(key, puts.drop_last(), id);
        lemma_put_then_find(store_after(key, puts.drop_last()), key, puts.last(), id);
    }
}

/// The bits that `sets` (index and value, in order) leave in `n` cleared
/// bits.
pub open spec fn bits_after_sets(n: nat, sets: Seq<(int, bool)>) -> Seq<bool>
    decreases sets.len(),
{
    if sets.len() == 0 {
        Seq::new(n, |i: int| false)
    } else {
        bits_after_sets(n, sets.drop_last()).update(sets.last().0, sets.last().1)
    }
}

/// The value of the last of `sets` at index `i`; false where none is.
pub open spec fn last_set(sets: Seq<(int, bool)>, i: int) -> bool
    decreases sets.len(),
{
    if sets.len() == 0 {
        false
    } else if sets.last().0 == i {
        sets.last().1
    } else {
        last_set(sets.drop_last(), i)
    }
}

/// After `BitVec::zeros(n)` and any sequence of `set` calls inside it, bit
/// `i` is the value of the last call that set it, false where none did;
/// the length stays `n`.
pub proof fn lemma_bitvec_sets(n: nat, sets: Seq<(int, bool)>, i: int)
    requires
        0 <= i < n,
        forall|k: int| 0 <= k < sets.len() ==> 0 <= (#[trigger] sets[k]).0 < n,
    ensures
        bits_after_sets(n, sets).len() == n,
        bits_after_sets(n, sets)[i] == last_set(sets, i),
    decreases sets.len(),
{
    if sets.len() > 0 {
        let d = sets.drop_last();
        assert forall|k: int| 0 <= k < d.len() implies 0 <= (#[trigger] d[k]).0 < n by {
            assert(d[k] == sets[k]);
        }
        assert(0 <= sets[sets.len() - 1].0 < n);
        lemma_bitvec_sets(n, d, i);
    }
}

/// A sequence parameter set whose stream this decoder does not decode:
/// chroma other than 4:2:0, interlace (`frame_mbs_only_flag` 0), or gaps
/// in `frame_num`.
pub open spec fn sps_unsupported(sps: SequenceParameterSet) -> bool {
    sps.chroma_format_idc != ChromaFormat::YUV420 || !sps.frame_mbs_only_flag
        || sps.gaps_in_frame_num_value_allowed_flag
}

/// Refuses, with `FeatureNotSupported`, a sequence parameter set of a
/// stream this decoder does not decode (see `sps_unsupported`), checking
/// chroma format, then interlace, then `frame_num` gaps.
pub fn check_supported_sps(sps: &SequenceParameterSet) -> (r: Result<(), DecoderError>)
    ensures
        r is Err <==> sps_unsupported(*sps),
        r is Err ==> r matches Err(DecoderError::FeatureNotSupported(_)),
{
    if sps.chroma_format_idc != ChromaFormat::YUV420 {
        return Err(DecoderError::FeatureNotSupported("chroma formats other than YUV420 are not supported".to_owned()));
    }
    if !sps.frame_mbs_only_flag {
        return Err(
            DecoderError::FeatureNotSupported("interlaced video (frame_mbs_only_flag=0) is not supported".to_owned()),
        );
    }
    if sps.gaps_in_frame_num_value_allowed_flag {
        return Err(
            DecoderError::FeatureNotSupported("gaps_in_frame_num_value_allowed_flag=1 is not supported".to_owned()),
        );
    }
    Ok(())
}

/// A picture parameter set that this decoder does not decode with: slice
/// groups, or constrained intra prediction.
pub open spec fn pps_unsupported(pps: PicParameterSet) -> bool {
    pps.num_slice_groups_minus1 > 0 || pps.constrained_intra_pred_flag
}

/// Refuses, with `FeatureNotSupported`, a picture parameter set this
/// decoder does not decode with (see `pps_unsupported`), checking slice
/// groups first.
pub fn check_supported_pps(pps: &PicParameterSet) -> (r: Result<(), DecoderError>)
    ensures
        r is Err <==> pps_unsupported(*pps),
        r is Err ==> r matches Err(DecoderError::FeatureNotSupported(_)),
{
    if pps.num_slice_groups_minus1 > 0 {
        return Err(DecoderError::FeatureNotSupported("slice groups are not supported".to_owned()));
    }
    if pps.constrained_intra_pred_flag {
        return Err(DecoderError::FeatureNotSupported("constrained intra prediction is not supported".to_owned()));
    }
    Ok(())
}

impl DecoderContext {
    /// The step of NAL dispatch for a parsed sequence parameter set: one
    /// of a stream this decoder does not decode is refused with
    /// `FeatureNotSupported` (see `check_supported_sps`) and the stored sets
    /// stay as they were; any other is stored, replacing one with its id.
    pub fn accept_sps(&mut self, sps: SequenceParameterSet) -> (r: Result<(), DecoderError>)
        ensures
            r is Err <==> sps_unsupported(sps),
            r is Err ==> (r matches Err(DecoderError::FeatureNotSupported(_))) && final(self).sps_list()
                == old(self).sps_list(),
            r is Ok ==> final(self).sps_list() == without(
                old(self).sps_list(),
                sps_key(),
                sps.seq_parameter_set_id,
            ).push(sps),
            final(self).pps_list() == old(self).pps_list(),
    {
        match check_supported_sps(&sps) {
            Ok(()) => {},
            Err(e) => return Err(e),
        }
        self.put_sps(sps);
        Ok(())
    }

    /// The step of NAL dispatch for a parsed picture parameter set: one
    /// this decoder does not decode with is refused with
    /// `FeatureNotSupported` (see `check_supported_pps`) and the stored sets
    /// stay as they were; any other is stored, replacing one with its id.
    pub fn accept_pps(&mut self, pps: PicParameterSet) -> (r: Result<(), DecoderError>)
        ensures
            r is Err <==> pps_unsupported(pps),
            r is Err ==> (r matches Err(DecoderError::FeatureNotSupported(_))) && final(self).pps_list()
                == old(self).pps_list(),
            r is Ok ==> final(self).pps_list() == without(
                old(self).pps_list(),
                pps_key(),
                pps.pic_parameter_set_id,
            ).push(pps),
            final(self).sps_list() == old(self).sps_list(),
    {
        match check_supported_pps(&pps) {
            Ok(()) => {},
            Err(e) => return Err(e),
        }
        self.put_pps(pps);
        Ok(())
    }
}

/// The part of picture reconstruction for an I_PCM macroblock at
/// macroblock column `mb_x`, row `mb_y`: its 256 luma samples set the
/// 16x16 luma block; then monochrome is refused with `FeatureNotSupported`,
/// the chroma planes left as they were; for 4:2:0 its 64 Cb and 64 Cr
/// samples set the 8x8 chroma blocks.
pub fn reconstruct_pcm(
    frame: &mut BorderedFrame,
    mb: &PcmMb,
    mb_x: usize,
    mb_y: usize,
    chroma: ChromaFormat,
) -> (r: Result<(), DecoderError>)
    requires
        chroma == ChromaFormat::YUV420 || chroma == ChromaFormat::Monochrome,
        old(frame).luma.cfg.wf() && old(frame).luma.wf(),
        old(frame).chroma_cb.cfg.wf() && old(frame).chroma_cb.wf(),
        old(frame).chroma_cr.cfg.wf() && old(frame).chroma_cr.wf(),
        16 * mb_x + 16 <= old(frame).luma.cfg.width,
        16 * mb_y + 16 <= old(frame).luma.cfg.height,
        8 * mb_x + 8 <= old(frame).chroma_cb.cfg.width,
        8 * mb_y + 8 <= old(frame).chroma_cb.cfg.height,
        8 * mb_x + 8 <= old(frame).chroma_cr.cfg.width,
        8 * mb_y + 8 <= old(frame).chroma_cr.cfg.height,
        mb.pcm_sample_luma@.len() == 256,
        mb.pcm_sample_chroma_cb@.len() == 64,
        mb.pcm_sample_chroma_cr@.len() == 64,
    ensures
        final(frame).luma.cfg == old(frame).luma.cfg,
        final(frame).chroma_cb.cfg == old(frame).chroma_cb.cfg,
        final(frame).chroma_cr.cfg == old(frame).chroma_cr.cfg,
        block_written(
            final(frame).luma.data@,
            old(frame).luma.data@,
            old(frame).luma.cfg,
            16 * mb_x,
            16 * mb_y,
            16,
            16,
            mb.pcm_sample_luma@,
        ),
        chroma == ChromaFormat::Monochrome ==> (r matches Err(DecoderError::FeatureNotSupported(_)))
            && final(frame).chroma_cb.data@ == old(frame).chroma_cb.data@ && final(frame).chroma_cr.data@ == old(
            frame,
        ).chroma_cr.data@,
        chroma == ChromaFormat::YUV420 ==> r is Ok && block_written(
            final(frame).chroma_cb.data@,
            old(frame).chroma_cb.data@,
            old(frame).chroma_cb.cfg,
            8 * mb_x,
            8 * mb_y,
            8,
            8,
            mb.pcm_sample_chroma_cb@,
        ) && block_written(
            final(frame).chroma_cr.data@,
            old(frame).chroma_cr.data@,
            old(frame).chroma_cr.cfg,
            8 * mb_x,
            8 * mb_y,
            8,
            8,
            mb.pcm_sample_chroma_cr@,
        ),
{
    frame.luma.write_block(16 * mb_x, 16 * mb_y, 16, 16, mb.pcm_sample_luma.as_slice());
    if chroma == ChromaFormat::Monochrome {
        return Err(DecoderError::FeatureNotSupported("monochrome chroma format is not supported".to_owned()));
    }
    frame.chroma_cb.write_block(8 * mb_x, 8 * mb_y, 8, 8, mb.pcm_sample_chroma_cb.as_slice());
    frame.chroma_cr.write_block(8 * mb_x, 8 * mb_y, 8, 8, mb.pcm_sample_chroma_cr.as_slice());
    Ok(())
}

/// The QP_Y in force after macroblock `mb` when `qp` was before it
/// (Section 7.4.5 and the decoder's loop): 0 after I_PCM, else `next_qp`
/// of its `mb_qp_delta` (0 for skipped macroblocks).
pub open spec fn qp_after(qp: int, mb: Macroblock, off: int) -> int {
    if mb is PCM {
        0
    } else {
        (qp + spec_qp_delta(mb) + 52 + 2 * off) % (52 + off) - off
    }
}

/// The QP_Y in force after the first `k` macroblocks of `mbs`, from
/// `slice_qp`.
pub open spec fn slice_qp_after(slice_qp: int, mbs: Seq<Macroblock>, off: int, k: nat) -> int
    decreases k,
{
    if k == 0 {
        slice_qp
    } else {
        qp_after(slice_qp_after(slice_qp, mbs, off, (k - 1) as nat), mbs[k - 1], off)
    }
}

/// `mb_qp_delta` of `mb` lies in the range Section 7.4.5 gives it.
pub open spec fn qp_delta_ok(mb: Macroblock, off: int) -> bool {
    -(26 + off / 2) <= spec_qp_delta(mb) <= 25 + off / 2
}

/// The quantiser tracking of picture reconstruction: each macroblock of
/// the slice, in order, gets the QP_Y in force after it (see
/// `slice_qp_after`), starting from `slice_qp`, kept to 8 bits.
pub fn assign_slice_qps(mbs: &mut Vec<Macroblock>, slice_qp: i32, qp_bd_offset_y: i32)
    requires
        0 <= qp_bd_offset_y <= 36,
        -qp_bd_offset_y <= slice_qp <= 51,
        forall|k: int| 0 <= k < old(mbs)@.len() ==> qp_delta_ok(#[trigger] old(mbs)@[k], qp_bd_offset_y as int),
    ensures
        final(mbs)@.len() == old(mbs)@.len(),
        forall|k: int|
            0 <= k < old(mbs)@.len() ==> #[trigger] final(mbs)@[k] == spec_with_qp(
                old(mbs)@[k],
                slice_qp_after(slice_qp as int, old(mbs)@, qp_bd_offset_y as int, (k + 1) as nat) as u8,
            ),
{
    let ghost orig = mbs@;
    let ghost off = qp_bd_offset_y as int;
    let mut src: Vec<Macroblock> = Vec::new();
    std::mem::swap(&mut src, mbs);
    let n = src.len();
    let mut stack: Vec<Macroblock> = Vec::new();
    while src.len() > 0
        invariant
            n == orig.len(),
            src@.len() + stack@.len() == n,
            forall|j: int| 0 <= j < src@.len() ==> #[trigger] src@[j] == orig[j],
            forall|j: int| 0 <= j < stack@.len() ==> #[trigger] stack@[j] == orig[n - 1 - j],
        decreases src@.len(),
    {
        let mb = src.pop().unwrap();
        stack.push(mb);
    }
    let mut qp = slice_qp;
    let mut k: usize = 0;
    while k < n
        invariant
            n == orig.len(),
            k <= n,
            stack@.len() == n - k,
            mbs@.len() == k,
            0 <= qp_bd_offset_y <= 36,
            off == qp_bd_offset_y,
            -qp_bd_offset_y <= qp <= 51,
            qp == slice_qp_after(slice_qp as int, orig, off, k as nat),
            forall|j: int| 0 <= j < orig.len() ==> qp_delta_ok(#[trigger] orig[j], off),
            forall|j: int| 0 <= j < stack@.len() ==> #[trigger] stack@[j] == orig[n - 1 - j],
            forall|j: int|
                0 <= j < k ==> #[trigger] mbs@[j] == spec_with_qp(
                    orig[j],
                    slice_qp_after(slice_qp as int, orig, off, (j + 1) as nat) as u8,
                ),
        decreases n - k,
    {
        let ghost before = mbs@;
        let mb = stack.pop().unwrap();
        assert(mb == orig[k as int]);
        let is_pcm = match &mb {
            Macroblock::PCM(_) => true,
            _ => false,
        };
        qp = if is_pcm {
            0
        } else {
            let d = mb.qp_delta();
            assert(qp_delta_ok(orig[k as int], off));
            next_qp(qp, d, qp_bd_offset_y)
        };
        assert(qp == slice_qp_after(slice_qp as int, orig, off, (k + 1) as nat));
        mbs.push(mb.with_qp(qp as u8));
        proof {
            assert forall|j: int| 0 <= j < k + 1 implies #[trigger] mbs@[j] == spec_with_qp(
                orig[j],
                slice_qp_after(slice_qp as int, orig, off, (j + 1) as nat) as u8,
            ) by {
                if j < k {
                    assert(mbs@[j] == before[j]);
                }
            }
        }
        k = k + 1;
    }
}

/// Table 8-15: `QPc` equals `qPI` below 30 and then never exceeds it; from
/// one `qPI` to the next it rises by 1, except that it stays level on
/// reaching 30, 34, 37, 39, 41, 43, 44, 46, 47, 49, 50 and 51 (reaching 39
/// at `qPI` 48).
pub proof fn lemma_qpc_table_8_15(q: int)
    requires
        0 <= q < 51,
    ensures
        q < 30 ==> qpc_table(q) == q,
        qpc_table(q) <= q,
        qpc_table(q + 1) == qpc_table(q) + (if q + 1 == 30 || q + 1 == 34 || q + 1 == 37 || q + 1 == 39 || q + 1
            == 41 || q + 1 == 43 || q + 1 == 44 || q + 1 == 46 || q + 1 == 47 || q + 1 == 49 || q + 1 == 50 || q
            + 1 == 51 {
            0int
        } else {
            1int
        }),
{
}

} // verus!
