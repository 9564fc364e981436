use bdwgc_box::boxed::allocate;
use bdwgc_box::{init, Registration};

#[test]
fn a_box_holds_its_value() {
    let mut reg = Registration::new();
    let token = init(&mut reg);
    let b = allocate(&token, 42i32);
    assert_eq!(*b.as_ref(&token), 42);
    let s = allocate(&token, String::from("kept"));
    assert_eq!(s.as_ref(&token), "kept");
}

#[test]
fn a_box_can_be_written_through() {
    let mut reg = Registration::new();
    let token = init(&mut reg);
    let mut b = allocate(&token, vec![1u8, 2]);
    b.as_mut(&token).push(3);
    assert_eq!(b.as_ref(&token), &vec![1, 2, 3]);
    *b.as_mut(&token) = vec![9];
    assert_eq!(b.as_ref(&token), &vec![9]);
}
