use lib::inter_pred::SliceType;
use lib::ref_lists::{
    construct_ref_pic_list0, construct_ref_pic_list1, find_long_term_in_dpb,
    find_short_term_in_dpb, initial_ref_pic_list, initialize_ref_pic_list0,
    initialize_ref_pic_list0_b, initialize_ref_pic_list1, modify_ref_pic_list, place_picture_in_list,
    DpbMarking, DpbRef, ListOrder, RefPicListModification,
};

fn short(frame_num: u32, poc: i32) -> DpbRef {
    DpbRef { marking: DpbMarking::UsedForShortTermReference, frame_num, pic_order_cnt: poc }
}

fn long(idx: u32) -> DpbRef {
    DpbRef { marking: DpbMarking::UsedForLongTermReference(idx), frame_num: 0, pic_order_cnt: 0 }
}

fn unused() -> DpbRef {
    DpbRef { marking: DpbMarking::UnusedForReference, frame_num: 1, pic_order_cnt: 1 }
}

fn p_dpb() -> Vec<DpbRef> {
    vec![short(3, 0), short(5, 0), long(1), short(7, 0), long(0), unused()]
}

#[test]
fn p_list_orders_by_descending_pic_num_then_long_term() {
    // frame_num 7 exceeds the current 6, so its PicNum is 7 - 16.
    let list = initial_ref_pic_list(&p_dpb(), ListOrder::P { curr_frame_num: 6, max_frame_num: 16 });
    assert_eq!(list, vec![1, 0, 3, 4, 2]);
}

#[test]
fn b_lists_order_by_pic_order_count_around_the_current_picture() {
    let dpb = vec![short(0, 4), short(1, 12), short(2, 8), short(3, 16), long(0)];
    assert_eq!(initial_ref_pic_list(&dpb, ListOrder::B0 { current_poc: 10 }), vec![2, 0, 1, 3, 4]);
    assert_eq!(initial_ref_pic_list(&dpb, ListOrder::B1 { current_poc: 10 }), vec![1, 3, 2, 0, 4]);
}

#[test]
fn equal_keys_keep_the_buffer_order() {
    let dpb = vec![short(2, 0), short(2, 0), long(3), long(3)];
    let list = initial_ref_pic_list(&dpb, ListOrder::P { curr_frame_num: 4, max_frame_num: 16 });
    assert_eq!(list, vec![0, 1, 2, 3]);
}

#[test]
fn list1_equal_to_list0_swaps_its_first_two_entries() {
    let dpb = vec![short(0, 4), short(1, 8)];
    let l0 = construct_ref_pic_list0(SliceType::B, &dpb, 2, 16, 10, &[], 3);
    assert_eq!(l0, vec![1, 0]);
    let l1 = construct_ref_pic_list1(&dpb, &l0, 2, 16, 10, &[], 3);
    assert_eq!(l1, vec![0, 1]);
    // A single entry is left alone.
    let one = vec![short(0, 4)];
    assert_eq!(construct_ref_pic_list1(&one, &[0], 2, 16, 10, &[], 3), vec![0]);
}

#[test]
fn modifications_move_pictures_to_the_front() {
    let mods = [
        RefPicListModification::RemapShortTermNegative(2), // PicNum 6 - 3 = 3: entry 0
        RefPicListModification::RemapLongTerm(1),          // entry 2
    ];
    let list = construct_ref_pic_list0(SliceType::P, &p_dpb(), 6, 16, 0, &mods, 2);
    assert_eq!(list, vec![0, 2, 1]);
}

#[test]
fn modification_pic_nums_wrap_around_max_frame_num() {
    let dpb = p_dpb();
    let mut list = vec![1, 0, 3, 4, 2];
    let mods = [
        // 6 - 9 = -3 wraps to 13: no such picture, nothing moves.
        RefPicListModification::RemapShortTermNegative(8),
        // 13 + 10 = 23 wraps to 7: entry 3.
        RefPicListModification::RemapShortTermPositive(9),
    ];
    modify_ref_pic_list(&dpb, 6, 16, &mods, &mut list);
    assert_eq!(list, vec![3, 1, 0, 4, 2]);
}

#[test]
fn placing_a_picture_removes_its_later_copies() {
    let mut list = vec![5, 6, 7, 6];
    place_picture_in_list(&mut list, 6, 0);
    assert_eq!(list, vec![6, 5, 7]);
    let mut list = vec![5, 6];
    place_picture_in_list(&mut list, 9, 2);
    assert_eq!(list, vec![5, 6, 9]);
    let mut list = vec![5, 6, 7];
    place_picture_in_list(&mut list, 5, 1);
    assert_eq!(list, vec![5, 5, 6, 7]);
}

#[test]
fn intra_slices_have_no_reference_list() {
    assert!(construct_ref_pic_list0(SliceType::I, &p_dpb(), 6, 16, 0, &[], 3).is_empty());
}

#[test]
fn buffer_lookups() {
    let dpb = p_dpb();
    assert_eq!(find_short_term_in_dpb(&dpb, 7), Some(3));
    assert_eq!(find_short_term_in_dpb(&dpb, 4), None);
    assert_eq!(find_long_term_in_dpb(&dpb, 0), Some(4));
    assert_eq!(find_long_term_in_dpb(&dpb, 2), None);
}

#[test]
fn named_initial_lists_follow_their_orders() {
    assert_eq!(initialize_ref_pic_list0(&p_dpb(), 6, 16), vec![1, 0, 3, 4, 2]);
    let dpb = vec![short(0, 8), short(1, 2), long(0), short(2, 12), short(3, 4)];
    // Current POC 6: list 0 takes 4, 2 (descending), then 8, 12, then the
    // long-term picture; list 1 takes 8, 12 first, then 4, 2.
    assert_eq!(initialize_ref_pic_list0_b(&dpb, 6), vec![4, 1, 0, 3, 2]);
    assert_eq!(initialize_ref_pic_list1(&dpb, 6), vec![0, 3, 4, 1, 2]);
}
