//! Reference picture lists (Section 8.2.4): the initial lists of P and B
//! slices, built from the pictures of the decoded picture buffer, and
//! their modification by `ref_pic_list_modification`.
use vstd::prelude::*;

use crate::inter_pred::SliceType;

verus! {

/// How a picture of the decoded picture buffer is marked (Section 8.2.5).
#[derive(Clone, Copy, Debug, PartialEq, Eq, Structural)]
pub enum DpbMarking {
    UnusedForReference,
    UsedForShortTermReference,
    /// With its `LongTermFrameIdx`.
    UsedForLongTermReference(u32),
}

impl DpbMarking {
    /// Marked "used for short-term reference".
    pub fn is_short_term(&self) -> (b: bool)
        ensures
            b == (*self == DpbMarking::UsedForShortTermReference),
    {
        match self {
            DpbMarking::UsedForShortTermReference => true,
            _ => false,
        }
    }
}

/// What list construction reads of a picture of the decoded picture
/// buffer: its marking, `frame_num` and `PicOrderCnt`.
#[derive(Clone, Copy, Debug, PartialEq, Eq, Structural)]
pub struct DpbRef {
    pub marking: DpbMarking,
    pub frame_num: u32,
    pub pic_order_cnt: i32,
}

/// The initial list being built, with what its order depends on.
#[derive(Clone, Copy, Debug, PartialEq, Eq, Structural)]
pub enum ListOrder {
    /// List 0 of a P slice, by `PicNum` (Section 8.2.4.2.1).
    P { curr_frame_num: u32, max_frame_num: u32 },
    /// List 0 of a B slice, by `PicOrderCnt` around the current picture's
    /// (Section 8.2.4.2.3).
    B0 { current_poc: i32 },
    /// List 1 of a B slice.
    B1 { current_poc: i32 },
}

/// Section 8.2.4.1: `PicNum` of a short-term frame: its `frame_num`, less
/// `MaxFrameNum` when it exceeds the current one.
pub open spec fn pic_num(frame_num: int, curr_frame_num: int, max_frame_num: int) -> int {
    if frame_num > curr_frame_num {
        frame_num - max_frame_num
    } else {
        frame_num
    }
}

/// Where picture `p` goes in an initial list: its group (0 first) and its
/// key within the group (smallest first); `None` for a picture that is no
/// reference. P: short-term frames by descending `PicNum`, then long-term
/// ones by ascending `LongTermPicNum`. B list 0: short-term frames before
/// the current one by descending `PicOrderCnt`, those after it ascending,
/// then long-term ones; list 1 takes the short-term groups the other way
/// round.
pub open spec fn order_key(p: DpbRef, order: ListOrder) -> Option<(int, int)> {
    match p.marking {
        DpbMarking::UnusedForReference => None,
        DpbMarking::UsedForLongTermReference(lt) => Some((2, lt as int)),
        DpbMarking::UsedForShortTermReference => match order {
            ListOrder::P { curr_frame_num, max_frame_num } => Some(
                (0, -pic_num(p.frame_num as int, curr_frame_num as int, max_frame_num as int)),
            ),
            ListOrder::B0 { current_poc } => if p.pic_order_cnt <= current_poc {
                Some((0, -p.pic_order_cnt))
            } else {
                Some((1, p.pic_order_cnt as int))
            },
            ListOrder::B1 { current_poc } => if p.pic_order_cnt > current_poc {
                Some((0, p.pic_order_cnt as int))
            } else {
                Some((1, -p.pic_order_cnt))
            },
        },
    }
}

/// The group and key of a reference picture.
pub open spec fn key_of(p: DpbRef, order: ListOrder) -> (int, int) {
    order_key(p, order)->0
}

/// Picture `i` of `dpb` comes before picture `j` in the initial list:
/// by group, then key, then (for equal keys) by position in the buffer.
pub open spec fn list_before(dpb: Seq<DpbRef>, order: ListOrder, i: int, j: int) -> bool {
    let a = key_of(dpb[i], order);
    let b = key_of(dpb[j], order);
    a.0 < b.0 || (a.0 == b.0 && (a.1 < b.1 || (a.1 == b.1 && i < j)))
}

/// Section 8.2.4.2: `list` is the initial list of `dpb` in `order`: every
/// reference picture of the buffer once, in the order of `list_before`.
pub open spec fn is_initial_list(dpb: Seq<DpbRef>, order: ListOrder, list: Seq<usize>) -> bool {
    &&& forall|k: int| 0 <= k < list.len() ==> #[trigger] list[k] < dpb.len() && order_key(dpb[list[k] as int], order) is Some
    &&& forall|i: int| 0 <= i < dpb.len() && #[trigger] order_key(dpb[i], order) is Some ==> list.contains(i as usize)
    &&& forall|a: int, b: int| 0 <= a < b < list.len() ==> list_before(dpb, order, #[trigger] list[a] as int, #[trigger] list[b] as int)
}

fn order_key_exec(p: &DpbRef, order: ListOrder) -> (r: Option<(u8, i64)>)
    ensures
        match order_key(*p, order) {
            None => r is None,
            Some(k) => r matches Some(e) && e.0 as int == k.0 && e.1 as int == k.1,
        },
{
    match p.marking {
        DpbMarking::UnusedForReference => None,
        DpbMarking::UsedForLongTermReference(lt) => Some((2, lt as i64)),
        DpbMarking::UsedForShortTermReference => match order {
            ListOrder::P { curr_frame_num, max_frame_num } => {
                let pn: i64 = if p.frame_num > curr_frame_num {
                    p.frame_num as i64 - max_frame_num as i64
                } else {
                    p.frame_num as i64
                };
                Some((0, -pn))
            },
            ListOrder::B0 { current_poc } => if p.pic_order_cnt <= current_poc {
                Some((0, -(p.pic_order_cnt as i64)))
            } else {
                Some((1, p.pic_order_cnt as i64))
            },
            ListOrder::B1 { current_poc } => if p.pic_order_cnt > current_poc {
                Some((0, p.pic_order_cnt as i64))
            } else {
                Some((1, -(p.pic_order_cnt as i64)))
            },
        },
    }
}

/// Section 8.2.4.2: the initial list of `dpb` in `order` (see
/// `is_initial_list`), built by inserting each reference picture after
/// those that come before it.
pub fn initial_ref_pic_list(dpb: &[DpbRef], order: ListOrder) -> (list: Vec<usize>)
    ensures
        is_initial_list(dpb@, order, list@),
{
    let mut list: Vec<usize> = Vec::new();
    let mut i: usize = 0;
    while i < dpb.len()
        invariant
            i <= dpb.len(),
            forall|k: int| 0 <= k < list@.len() ==> #[trigger] list@[k] < i && order_key(dpb@[list@[k] as int], order) is Some,
            forall|j: int| 0 <= j < i && #[trigger] order_key(dpb@[j], order) is Some ==> list@.contains(j as usize),
            forall|a: int, b: int| 0 <= a < b < list@.len() ==> list_before(dpb@, order, #[trigger] list@[a] as int, #[trigger] list@[b] as int),
        decreases dpb.len() - i,
    {
        match order_key_exec(&dpb[i], order) {
            None => {},
            Some(key) => {
                let mut p: usize = 0;
                while p < list.len()
                    invariant
                        i < dpb.len(),
                        p <= list@.len(),
                        order_key(dpb@[i as int], order) is Some,
                        key.0 as int == key_of(dpb@[i as int], order).0,
                        key.1 as int == key_of(dpb@[i as int], order).1,
                        forall|k: int| 0 <= k < list@.len() ==> #[trigger] list@[k] < i && order_key(dpb@[list@[k] as int], order) is Some,
                        forall|a: int| 0 <= a < p ==> list_before(dpb@, order, #[trigger] list@[a] as int, i as int),
                    ensures
                        p <= list@.len(),
                        forall|a: int| 0 <= a < p ==> list_before(dpb@, order, #[trigger] list@[a] as int, i as int),
                        p == list@.len() || !list_before(dpb@, order, list@[p as int] as int, i as int),
                    decreases list@.len() - p,
                {
                    let other = order_key_exec(&dpb[list[p]], order).unwrap();
                    let before = other.0 < key.0 || (other.0 == key.0 && (other.1 < key.1 || (other.1 == key.1
                        && list[p] < i)));
                    if !before {
                        break;
                    }
                    p = p + 1;
                }
                let ghost old_list = list@;
                list.insert(p, i);
                proof {
                    assert forall|a: int, b: int| 0 <= a < b < list@.len() implies list_before(
                        dpb@,
                        order,
                        #[trigger] list@[a] as int,
                        #[trigger] list@[b] as int,
                    ) by {
                        if b < p {
                            assert(list@[a] == old_list[a] && list@[b] == old_list[b]);
                        } else if b == p {
                            assert(list@[a] == old_list[a]);
                        } else if a == p {
                            assert(list@[b] == old_list[b - 1]);
                            assert(list_before(dpb@, order, i as int, old_list[p as int] as int));
                            if b - 1 > p {
                                assert(list_before(dpb@, order, old_list[p as int] as int, old_list[b - 1] as int));
                            }
                        } else if a < p {
                            assert(list@[a] == old_list[a] && list@[b] == old_list[b - 1]);
                        } else {
                            assert(list@[a] == old_list[a - 1] && list@[b] == old_list[b - 1]);
                        }
                    }
                    assert forall|j: int| 0 <= j < i + 1 && #[trigger] order_key(dpb@[j], order) is Some implies list@.contains(
                        j as usize,
                    ) by {
                        if j < i {
                            let k = choose|k: int| 0 <= k < old_list.len() && old_list[k] == j as usize;
                            if k < p {
                                assert(list@[k] == j as usize);
                            } else {
                                assert(list@[k + 1] == j as usize);
                            }
                        } else {
                            assert(list@[p as int] == i);
                        }
                    }
                }
            },
        }
        i = i + 1;
    }
    list
}

/// Section 8.2.4.2.1: the initial list 0 of a P slice: the short-term
/// references by descending `PicNum`, then the long-term ones by ascending
/// `LongTermPicNum`.
pub fn initialize_ref_pic_list0(dpb: &[DpbRef], curr_frame_num: u32, max_frame_num: u32) -> (list: Vec<usize>)
    ensures
        is_initial_list(dpb@, ListOrder::P { curr_frame_num, max_frame_num }, list@),
{
    initial_ref_pic_list(dpb, ListOrder::P { curr_frame_num, max_frame_num })
}

/// Section 8.2.4.2.3: the initial list 0 of a B slice: the short-term
/// references up to the current `PicOrderCnt` by descending order count,
/// those after it ascending, then the long-term ones.
pub fn initialize_ref_pic_list0_b(dpb: &[DpbRef], current_poc: i32) -> (list: Vec<usize>)
    ensures
        is_initial_list(dpb@, ListOrder::B0 { current_poc }, list@),
{
    initial_ref_pic_list(dpb, ListOrder::B0 { current_poc })
}

/// Section 8.2.4.2.3: the initial list 1 of a B slice: the short-term
/// references after the current `PicOrderCnt` ascending, those up to it
/// descending, then the long-term ones.
pub fn initialize_ref_pic_list1(dpb: &[DpbRef], current_poc: i32) -> (list: Vec<usize>)
    ensures
        is_initial_list(dpb@, ListOrder::B1 { current_poc }, list@),
{
    initial_ref_pic_list(dpb, ListOrder::B1 { current_poc })
}

/// `s` without its entries equal to `pic`.
pub open spec fn without(s: Seq<usize>, pic: usize) -> Seq<usize>
    decreases s.len(),
{
    if s.len() == 0 {
        s
    } else if s.last() == pic {
        without(s.drop_last(), pic)
    } else {
        without(s.drop_last(), pic).push(s.last())
    }
}

/// Section 8.2.4.3: `list` with picture `pic` placed at index `ref_idx`
/// and its later copies removed; appended when the list is no longer than
/// `ref_idx`.
pub open spec fn placed(list: Seq<usize>, pic: usize, ref_idx: int) -> Seq<usize> {
    if ref_idx < list.len() {
        list.take(ref_idx).push(pic) + without(list.skip(ref_idx), pic)
    } else {
        list.push(pic)
    }
}

/// Section 8.2.4.3: places picture `pic_idx` at index `ref_idx` of `list`
/// (see `placed`).
pub fn place_picture_in_list(list: &mut Vec<usize>, pic_idx: usize, ref_idx: usize)
    ensures
        final(list)@ == placed(old(list)@, pic_idx, ref_idx as int),
{
    if ref_idx < list.len() {
        let ghost l0 = list@;
        let mut out: Vec<usize> = Vec::new();
        let mut k: usize = 0;
        while k < ref_idx
            invariant
                k <= ref_idx < l0.len(),
                list@ == l0,
                out@ == l0.take(k as int),
            decreases ref_idx - k,
        {
            out.push(list[k]);
            assert(l0.take(k + 1) =~= l0.take(k as int).push(l0[k as int]));
            k = k + 1;
        }
        out.push(pic_idx);
        assert(without(l0.subrange(ref_idx as int, ref_idx as int), pic_idx) =~= Seq::<usize>::empty());
        assert(out@ =~= l0.take(ref_idx as int).push(pic_idx) + without(l0.subrange(ref_idx as int, ref_idx as int), pic_idx));
        let mut k: usize = ref_idx;
        while k < list.len()
            invariant
                ref_idx <= k <= l0.len(),
                list@ == l0,
                out@ == l0.take(ref_idx as int).push(pic_idx) + without(l0.subrange(ref_idx as int, k as int), pic_idx),
            decreases l0.len() - k,
        {
            let ghost sub = l0.subrange(ref_idx as int, k as int);
            assert(l0.subrange(ref_idx as int, k + 1).drop_last() =~= sub);
            assert(l0.subrange(ref_idx as int, k + 1).last() == l0[k as int]);
            if list[k] != pic_idx {
                out.push(list[k]);
                assert(out@ =~= l0.take(ref_idx as int).push(pic_idx) + without(l0.subrange(ref_idx as int, k + 1), pic_idx));
            }
            k = k + 1;
        }
        assert(l0.subrange(ref_idx as int, l0.len() as int) =~= l0.skip(ref_idx as int));
        *list = out;
    } else {
        list.push(pic_idx);
    }
}

/// The first short-term picture of `dpb` from index `j` on whose
/// `frame_num` is `pic_num`.
pub open spec fn find_short(dpb: Seq<DpbRef>, pic_num: int, j: int) -> Option<int>
    decreases dpb.len() - j,
{
    if j < 0 || j >= dpb.len() {
        None
    } else if dpb[j].marking == DpbMarking::UsedForShortTermReference && dpb[j].frame_num == pic_num {
        Some(j)
    } else {
        find_short(dpb, pic_num, j + 1)
    }
}

/// The first long-term picture of `dpb` from index `j` on whose
/// `LongTermFrameIdx` is `long_term_pic_num`.
pub open spec fn find_long(dpb: Seq<DpbRef>, long_term_pic_num: int, j: int) -> Option<int>
    decreases dpb.len() - j,
{
    if j < 0 || j >= dpb.len() {
        None
    } else if dpb[j].marking == DpbMarking::UsedForLongTermReference(long_term_pic_num as u32) && 0
        <= long_term_pic_num <= u32::MAX {
        Some(j)
    } else {
        find_long(dpb, long_term_pic_num, j + 1)
    }
}

/// The index in `dpb` of the first short-term picture whose `frame_num` is
/// `pic_num` (see `find_short`).
pub fn find_short_term_in_dpb(dpb: &[DpbRef], pic_num: i64) -> (r: Option<usize>)
    ensures
        match find_short(dpb@, pic_num as int, 0) {
            Some(j) => r == Some(j as usize),
            None => r is None,
        },
{
    let mut j: usize = 0;
    while j < dpb.len()
        invariant
            j <= dpb@.len(),
            find_short(dpb@, pic_num as int, 0) == find_short(dpb@, pic_num as int, j as int),
        decreases dpb.len() - j,
    {
        if dpb[j].marking.is_short_term() && dpb[j].frame_num as i64 == pic_num {
            return Some(j);
        }
        j = j + 1;
    }
    None
}

/// The index in `dpb` of the first long-term picture whose
/// `LongTermFrameIdx` is `long_term_pic_num` (see `find_long`).
pub fn find_long_term_in_dpb(dpb: &[DpbRef], long_term_pic_num: u32) -> (r: Option<usize>)
    ensures
        match find_long(dpb@, long_term_pic_num as int, 0) {
            Some(j) => r == Some(j as usize),
            None => r is None,
        },
{
    let mut j: usize = 0;
    while j < dpb.len()
        invariant
            j <= dpb@.len(),
            find_long(dpb@, long_term_pic_num as int, 0) == find_long(dpb@, long_term_pic_num as int, j as int),
        decreases dpb.len() - j,
    {
        match dpb[j].marking {
            DpbMarking::UsedForLongTermReference(idx) => {
                if idx == long_term_pic_num {
                    return Some(j);
                }
            },
            _ => {},
        }
        j = j + 1;
    }
    None
}

/// One `ref_pic_list_modification` command (Section 7.4.3.1).
#[derive(Clone, Copy, Debug, PartialEq, Eq, Structural)]
pub enum RefPicListModification {
    /// `modification_of_pic_nums_idc` 0, with `abs_diff_pic_num_minus1`.
    RemapShortTermNegative(u32),
    /// `modification_of_pic_nums_idc` 1, with `abs_diff_pic_num_minus1`.
    RemapShortTermPositive(u32),
    /// `modification_of_pic_nums_idc` 2, with `long_term_pic_num`.
    RemapLongTerm(u32),
}

/// Section 8.2.4.3: the commands `mods[k..]` applied to `list`, with
/// `picNumLXPred` `pred` and `refIdxLX` `ref_idx`. A short-term command
/// moves the prediction by `abs_diff_pic_num_minus1 + 1` modulo
/// `MaxFrameNum` (`max`); a command whose picture is not in the buffer
/// leaves the list alone.
pub open spec fn modify_from(
    dpb: Seq<DpbRef>,
    max: int,
    mods: Seq<RefPicListModification>,
    k: int,
    pred: int,
    ref_idx: int,
    list: Seq<usize>,
) -> Seq<usize>
    decreases mods.len() - k,
{
    if k < 0 || k >= mods.len() {
        list
    } else {
        let (found, next_pred) = match mods[k] {
            RefPicListModification::RemapShortTermNegative(d) => {
                let no_wrap = pred - (d + 1);
                let pn = if no_wrap < 0 {
                    no_wrap + max
                } else {
                    no_wrap
                };
                (find_short(dpb, pn, 0), pn)
            },
            RefPicListModification::RemapShortTermPositive(d) => {
                let no_wrap = pred + (d + 1);
                let pn = if no_wrap >= max {
                    no_wrap - max
                } else {
                    no_wrap
                };
                (find_short(dpb, pn, 0), pn)
            },
            RefPicListModification::RemapLongTerm(n) => (find_long(dpb, n as int, 0), pred),
        };
        match found {
            Some(idx) => modify_from(dpb, max, mods, k + 1, next_pred, ref_idx + 1, placed(list, idx as usize, ref_idx)),
            None => modify_from(dpb, max, mods, k + 1, next_pred, ref_idx, list),
        }
    }
}

/// The short-term commands of `mods` move the prediction by less than
/// `max`.
pub open spec fn mods_in_range(mods: Seq<RefPicListModification>, max: int) -> bool {
    forall|k: int| 0 <= k < mods.len() ==> match #[trigger] mods[k] {
        RefPicListModification::RemapShortTermNegative(d) => d < max,
        RefPicListModification::RemapShortTermPositive(d) => d < max,
        RefPicListModification::RemapLongTerm(_) => true,
    }
}

/// Section 8.2.4.3: applies the modification commands `modifications` to
/// `ref_list`, starting from `picNumLXPred = curr_frame_num` (see
/// `modify_from`).
pub fn modify_ref_pic_list(
    dpb: &[DpbRef],
    curr_frame_num: u32,
    max_frame_num: u32,
    modifications: &[RefPicListModification],
    ref_list: &mut Vec<usize>,
)
    requires
        1 <= max_frame_num <= 0x1_0000,
        curr_frame_num < max_frame_num,
        mods_in_range(modifications@, max_frame_num as int),
    ensures
        final(ref_list)@ == modify_from(
            dpb@,
            max_frame_num as int,
            modifications@,
            0,
            curr_frame_num as int,
            0,
            old(ref_list)@,
        ),
{
    let ghost l0 = ref_list@;
    let max = max_frame_num as i64;
    let mut pred: i64 = curr_frame_num as i64;
    let mut ref_idx: usize = 0;
    let mut k: usize = 0;
    while k < modifications.len()
        invariant
            k <= modifications@.len(),
            ref_idx <= k,
            0 <= pred < max,
            max == max_frame_num,
            1 <= max_frame_num <= 0x1_0000,
            mods_in_range(modifications@, max_frame_num as int),
            modify_from(dpb@, max as int, modifications@, 0, curr_frame_num as int, 0, l0) == modify_from(
                dpb@,
                max as int,
                modifications@,
                k as int,
                pred as int,
                ref_idx as int,
                ref_list@,
            ),
        decreases modifications@.len() - k,
    {
        let m = modifications[k];
        assert(mods_in_range(modifications@, max_frame_num as int) ==> match modifications@[k as int] {
            RefPicListModification::RemapShortTermNegative(d) => d < max,
            RefPicListModification::RemapShortTermPositive(d) => d < max,
            RefPicListModification::RemapLongTerm(_) => true,
        });
        let found = match m {
            RefPicListModification::RemapShortTermNegative(d) => {
                let no_wrap = pred - (d as i64 + 1);
                pred = if no_wrap < 0 {
                    no_wrap + max
                } else {
                    no_wrap
                };
                find_short_term_in_dpb(dpb, pred)
            },
            RefPicListModification::RemapShortTermPositive(d) => {
                let no_wrap = pred + (d as i64 + 1);
                pred = if no_wrap >= max {
                    no_wrap - max
                } else {
                    no_wrap
                };
                find_short_term_in_dpb(dpb, pred)
            },
            RefPicListModification::RemapLongTerm(n) => find_long_term_in_dpb(dpb, n),
        };
        match found {
            Some(idx) => {
                place_picture_in_list(ref_list, idx, ref_idx);
                ref_idx = ref_idx + 1;
            },
            None => {},
        }
        k = k + 1;
    }
}

/// `list` cut to its first `len` entries.
pub open spec fn truncated(list: Seq<usize>, len: int) -> Seq<usize> {
    if list.len() > len {
        list.take(len)
    } else {
        list
    }
}

/// Sections 8.2.4.2 and 8.2.4.3: reference picture list 0 of a slice:
/// empty for I and SI slices; else the initial list of `dpb` (by `PicNum`
/// for P and SP slices, by `PicOrderCnt` around `current_poc` for B
/// slices), modified by `modifications` and cut to
/// `num_ref_idx_l0_active_minus1 + 1` entries.
pub fn construct_ref_pic_list0(
    slice_type: SliceType,
    dpb: &[DpbRef],
    curr_frame_num: u32,
    max_frame_num: u32,
    current_poc: i32,
    modifications: &[RefPicListModification],
    num_ref_idx_l0_active_minus1: u32,
) -> (list: Vec<usize>)
    requires
        1 <= max_frame_num <= 0x1_0000,
        curr_frame_num < max_frame_num,
        mods_in_range(modifications@, max_frame_num as int),
        num_ref_idx_l0_active_minus1 < u32::MAX,
    ensures
        slice_type == SliceType::I || slice_type == SliceType::SI ==> list@.len() == 0,
        !(slice_type == SliceType::I || slice_type == SliceType::SI) ==> exists|init: Seq<usize>|
            is_initial_list(
                dpb@,
                if slice_type == SliceType::B {
                    ListOrder::B0 { current_poc }
                } else {
                    ListOrder::P { curr_frame_num, max_frame_num }
                },
                init,
            ) && list@ == truncated(
                modify_from(dpb@, max_frame_num as int, modifications@, 0, curr_frame_num as int, 0, init),
                num_ref_idx_l0_active_minus1 + 1,
            ),
{
    if slice_type == SliceType::I || slice_type == SliceType::SI {
        return Vec::new();
    }
    let mut list = if slice_type == SliceType::B {
        initialize_ref_pic_list0_b(dpb, current_poc)
    } else {
        initialize_ref_pic_list0(dpb, curr_frame_num, max_frame_num)
    };
    let ghost init = list@;
    modify_ref_pic_list(dpb, curr_frame_num, max_frame_num, modifications, &mut list);
    let len = (num_ref_idx_l0_active_minus1 + 1) as usize;
    if list.len() > len {
        list.truncate(len);
    }
    list
}

fn same_list(a: &Vec<usize>, b: &[usize]) -> (r: bool)
    ensures
        r == (a@ == b@),
{
    if a.len() != b.len() {
        return false;
    }
    let mut k: usize = 0;
    while k < a.len()
        invariant
            k <= a@.len(),
            a@.len() == b@.len(),
            forall|j: int| 0 <= j < k ==> a@[j] == b@[j],
        decreases a@.len() - k,
    {
        if a[k] != b[k] {
            return false;
        }
        k = k + 1;
    }
    assert(a@ =~= b@);
    true
}

/// The initial list 1 of a B slice with its first two entries swapped
/// when it has more than one entry and equals list 0 (Section 8.2.4.2.3).
pub open spec fn list1_start(init: Seq<usize>, list0: Seq<usize>) -> Seq<usize> {
    if init.len() > 1 && init == list0 {
        init.update(0, init[1]).update(1, init[0])
    } else {
        init
    }
}

/// Sections 8.2.4.2.3 and 8.2.4.3: reference picture list 1 of a B slice:
/// the initial list of `dpb` by `PicOrderCnt` around `current_poc`, its
/// first two entries swapped when it has more than one and equals
/// `ref_pic_list0` (see `list1_start`), modified by `modifications` and
/// cut to `num_ref_idx_l1_active_minus1 + 1` entries.
pub fn construct_ref_pic_list1(
    dpb: &[DpbRef],
    ref_pic_list0: &[usize],
    curr_frame_num: u32,
    max_frame_num: u32,
    current_poc: i32,
    modifications: &[RefPicListModification],
    num_ref_idx_l1_active_minus1: u32,
) -> (list: Vec<usize>)
    requires
        1 <= max_frame_num <= 0x1_0000,
        curr_frame_num < max_frame_num,
        mods_in_range(modifications@, max_frame_num as int),
        num_ref_idx_l1_active_minus1 < u32::MAX,
    ensures
        exists|init: Seq<usize>|
            is_initial_list(dpb@, ListOrder::B1 { current_poc }, init) && list@ == truncated(
                modify_from(
                    dpb@,
                    max_frame_num as int,
                    modifications@,
                    0,
                    curr_frame_num as int,
                    0,
                    list1_start(init, ref_pic_list0@),
                ),
                num_ref_idx_l1_active_minus1 + 1,
            ),
{
    let mut list = initialize_ref_pic_list1(dpb, current_poc);
    let ghost init = list@;
    if list.len() > 1 && same_list(&list, ref_pic_list0) {
        let first = list[0];
        let second = list[1];
        list.set(0, second);
        list.set(1, first);
    }
    assert(list@ == list1_start(init, ref_pic_list0@));
    modify_ref_pic_list(dpb, curr_frame_num, max_frame_num, modifications, &mut list);
    let len = (num_ref_idx_l1_active_minus1 + 1) as usize;
    if list.len() > len {
        list.truncate(len);
    }
    list
}

/// Section 8.2.4.2.3: before modification, list 1 of a B slice with more
/// than one entry never equals list 0.
pub proof fn lemma_list1_start_differs(dpb: Seq<DpbRef>, current_poc: i32, init: Seq<usize>, list0: Seq<usize>)
    requires
        is_initial_list(dpb, ListOrder::B1 { current_poc }, init),
        init.len() > 1,
    ensures
        list1_start(init, list0) != list0,
{
    assert(list_before(dpb, ListOrder::B1 { current_poc }, init[0] as int, init[1] as int));
    if init == list0 {
        assert(list1_start(init, list0)[0] == init[1]);
        assert(list0[0] == init[0]);
    }
}

/// Section 8.2.4.2.1: in the initial list 0 of a P slice, every short-term
/// reference comes before every long-term one; short-term references come
/// by descending `PicNum` and long-term ones by ascending
/// `LongTermPicNum`; no unused picture is listed.
pub proof fn lemma_p_list_order(
    dpb: Seq<DpbRef>,
    curr_frame_num: u32,
    max_frame_num: u32,
    list: Seq<usize>,
    a: int,
    b: int,
)
    requires
        is_initial_list(dpb, ListOrder::P { curr_frame_num, max_frame_num }, list),
        0 <= a < b < list.len(),
    ensures
        ({
            let p = dpb[list[a] as int];
            let q = dpb[list[b] as int];
            &&& p.marking != DpbMarking::UnusedForReference
            &&& q.marking == DpbMarking::UsedForShortTermReference ==> p.marking
                == DpbMarking::UsedForShortTermReference && pic_num(
                p.frame_num as int,
                curr_frame_num as int,
                max_frame_num as int,
            ) >= pic_num(q.frame_num as int, curr_frame_num as int, max_frame_num as int)
            &&& match (p.marking, q.marking) {
                (
                    DpbMarking::UsedForLongTermReference(lp),
                    DpbMarking::UsedForLongTermReference(lq),
                ) => lp <= lq,
                _ => true,
            }
        }),
{
    assert(list_before(dpb, ListOrder::P { curr_frame_num, max_frame_num }, list[a] as int, list[b] as int));
    assert(order_key(dpb[list[a] as int], ListOrder::P { curr_frame_num, max_frame_num }) is Some);
    assert(order_key(dpb[list[b] as int], ListOrder::P { curr_frame_num, max_frame_num }) is Some);
}

/// Section 8.2.4.2.3: in the initial list 0 of a B slice, short-term
/// references up to the current `PicOrderCnt` come first, by descending
/// order count, then those after it, by ascending order count, then the
/// long-term ones by ascending `LongTermPicNum`; list 1 puts the later
/// short-term references first, ascending, then the earlier ones,
/// descending.
pub proof fn lemma_b_list_order(dpb: Seq<DpbRef>, current_poc: i32, list0: Seq<usize>, list1: Seq<usize>, a: int, b: int)
    requires
        is_initial_list(dpb, ListOrder::B0 { current_poc }, list0),
        is_initial_list(dpb, ListOrder::B1 { current_poc }, list1),
        0 <= a < b,
    ensures
        b < list0.len() ==> ({
            let p = dpb[list0[a] as int];
            let q = dpb[list0[b] as int];
            &&& q.marking == DpbMarking::UsedForShortTermReference ==> p.marking
                == DpbMarking::UsedForShortTermReference
            &&& p.marking == DpbMarking::UsedForShortTermReference && q.marking
                == DpbMarking::UsedForShortTermReference ==> {
                &&& q.pic_order_cnt <= current_poc ==> p.pic_order_cnt <= current_poc && p.pic_order_cnt
                    >= q.pic_order_cnt
                &&& p.pic_order_cnt > current_poc ==> q.pic_order_cnt > current_poc && p.pic_order_cnt
                    <= q.pic_order_cnt
            }
            &&& match (p.marking, q.marking) {
                (
                    DpbMarking::UsedForLongTermReference(lp),
                    DpbMarking::UsedForLongTermReference(lq),
                ) => lp <= lq,
                _ => true,
            }
        }),
        b < list1.len() ==> ({
            let p = dpb[list1[a] as int];
            let q = dpb[list1[b] as int];
            &&& q.marking == DpbMarking::UsedForShortTermReference ==> p.marking
                == DpbMarking::UsedForShortTermReference
            &&& p.marking == DpbMarking::UsedForShortTermReference && q.marking
                == DpbMarking::UsedForShortTermReference ==> {
                &&& q.pic_order_cnt > current_poc ==> p.pic_order_cnt > current_poc && p.pic_order_cnt
                    <= q.pic_order_cnt
                &&& p.pic_order_cnt <= current_poc ==> q.pic_order_cnt <= current_poc && p.pic_order_cnt
                    >= q.pic_order_cnt
            }
            &&& match (p.marking, q.marking) {
                (
                    DpbMarking::UsedForLongTermReference(lp),
                    DpbMarking::UsedForLongTermReference(lq),
                ) => lp <= lq,
                _ => true,
            }
        }),
{
    if b < list0.len() {
        assert(list_before(dpb, ListOrder::B0 { current_poc }, list0[a] as int, list0[b] as int));
        assert(order_key(dpb[list0[a] as int], ListOrder::B0 { current_poc }) is Some);
        assert(order_key(dpb[list0[b] as int], ListOrder::B0 { current_poc }) is Some);
    }
    if b < list1.len() {
        assert(list_before(dpb, ListOrder::B1 { current_poc }, list1[a] as int, list1[b] as int));
        assert(order_key(dpb[list1[a] as int], ListOrder::B1 { current_poc }) is Some);
        assert(order_key(dpb[list1[b] as int], ListOrder::B1 { current_poc }) is Some);
    }
}

} // verus!
