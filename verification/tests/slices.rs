use bdwgc_box::vec::{from_fn, from_iter, SliceLayout, VecInner};
use bdwgc_box::{init, Registration};

#[test]
fn from_fn_calls_the_function_at_each_index() {
    let mut reg = Registration::new();
    let token = init(&mut reg);
    let squares = from_fn(&token, 5, |i: usize| i * i);
    assert_eq!(squares, vec![0, 1, 4, 9, 16]);
    let none: Vec<u8> = from_fn(&token, 0, |_i: usize| 7u8);
    assert!(none.is_empty());
}

#[test]
fn from_iter_keeps_the_items_in_order() {
    let mut reg = Registration::new();
    let token = init(&mut reg);
    assert_eq!(from_iter(&token, vec![1, 2, 3, 4, 5], 0).0, vec![1, 2, 3, 4, 5]);
    assert_eq!(from_iter(&token, vec![1, 2, 3, 4, 5], 5).0, vec![1, 2, 3, 4, 5]);
    assert_eq!(from_iter(&token, vec![1, 2, 3, 4, 5], 64).0, vec![1, 2, 3, 4, 5]);
    let words = vec![String::from("a"), String::from("bc")];
    assert_eq!(from_iter(&token, words.clone(), 1).0, words);
    assert_eq!(from_iter(&token, Vec::<u32>::new(), 0).0, Vec::<u32>::new());
}

#[test]
fn from_iter_reports_the_capacity_it_grew_to() {
    let mut reg = Registration::new();
    let token = init(&mut reg);
    assert_eq!(from_iter(&token, vec![1, 2, 3, 4, 5], 0).1, 8);
    assert_eq!(from_iter(&token, vec![1, 2, 3, 4, 5], 3).1, 6);
    assert_eq!(from_iter(&token, vec![1, 2, 3, 4, 5], 5).1, 5);
    assert_eq!(from_iter(&token, vec![1, 2, 3, 4, 5], 64).1, 64);
    assert_eq!(from_iter(&token, Vec::<u32>::new(), 0).1, 1);
}

#[test]
fn layout_of_word_sized_elements() {
    let l = VecInner::<u64>::allocation_layout(3);
    assert_eq!(l, SliceLayout { size: 32, align: 8, data_offset: 8 });
}

#[test]
fn layout_of_bytes() {
    let l = VecInner::<u8>::allocation_layout(5);
    assert_eq!(l, SliceLayout { size: 13, align: 8, data_offset: 8 });
    let empty = VecInner::<u8>::allocation_layout(0);
    assert_eq!(empty, SliceLayout { size: 8, align: 8, data_offset: 8 });
}

#[test]
fn layout_of_large_elements() {
    let l = VecInner::<[u64; 3]>::allocation_layout(2);
    assert_eq!(l, SliceLayout { size: 72, align: 8, data_offset: 24 });
    let pair = VecInner::<[u64; 2]>::allocation_layout(1);
    assert_eq!(pair, SliceLayout { size: 32, align: 8, data_offset: 16 });
}

#[test]
fn layout_of_odd_sized_elements_starts_after_one_element() {
    let odd = VecInner::<[u8; 12]>::allocation_layout(2);
    assert_eq!(odd, SliceLayout { size: 36, align: 8, data_offset: 12 });
    let nine = VecInner::<[u8; 9]>::allocation_layout(1);
    assert_eq!(nine, SliceLayout { size: 18, align: 8, data_offset: 9 });
}

#[test]
fn layout_of_wide_elements() {
    let align = std::mem::align_of::<u128>();
    let l = VecInner::<u128>::allocation_layout(1);
    assert_eq!(l, SliceLayout { size: 32, align: align.max(8), data_offset: 16 });
    assert_eq!(l.data_offset % align, 0);
}

#[test]
fn layout_of_zero_sized_elements() {
    let l = VecInner::<()>::allocation_layout(100);
    assert_eq!(l, SliceLayout { size: 8, align: 8, data_offset: 8 });
}

#[test]
fn layout_that_overflows_is_refused() {
    assert_eq!(VecInner::<u64>::try_allocation_layout(usize::MAX / 8), None);
    assert_eq!(VecInner::<u8>::try_allocation_layout(usize::MAX), None);
    assert_eq!(
        VecInner::<u64>::try_allocation_layout(3),
        Some(SliceLayout { size: 32, align: 8, data_offset: 8 })
    );
    assert_eq!(
        VecInner::<u8>::try_allocation_layout(usize::MAX - 8),
        Some(SliceLayout { size: usize::MAX, align: 8, data_offset: 8 })
    );
}
