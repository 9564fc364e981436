use bdwgc_box::token::{registration_succeeded, GC_SUCCESS};
use bdwgc_box::{init, init_thread, unregister, Registration, ThreadToken};

#[test]
fn a_fresh_thread_has_no_token() {
    let reg = Registration::new();
    assert!(!reg.is_registered());
    assert!(ThreadToken::try_get(&reg).is_none());
}

#[test]
fn init_registers_the_thread() {
    let mut reg = Registration::new();
    let _token = init(&mut reg);
    assert!(reg.is_registered());
    assert!(ThreadToken::try_get(&reg).is_some());
    let _again = ThreadToken::get(&reg);
}

#[test]
fn init_thread_registers_the_thread() {
    let mut reg = Registration::new();
    assert!(reg.may_register(0));
    let _guard = init_thread(&mut reg);
    assert!(reg.is_registered());
    assert!(ThreadToken::try_get(&reg).is_some());
}

#[test]
fn a_registered_thread_may_not_register_again() {
    let mut reg = Registration::new();
    assert!(!reg.may_register(1));
    let _token = init(&mut reg);
    assert!(!reg.may_register(0));
    assert!(!reg.may_register(1));
}

#[test]
fn only_the_success_code_is_success() {
    assert_eq!(GC_SUCCESS, 0);
    assert!(registration_succeeded(0));
    assert!(!registration_succeeded(-1));
    assert!(!registration_succeeded(1));
}

#[test]
fn unregistering_takes_the_token_away() {
    let mut reg = Registration::new();
    let guard = init_thread(&mut reg);
    assert!(ThreadToken::try_get(&reg).is_some());
    unregister(&mut reg, guard);
    assert!(!reg.is_registered());
    assert!(ThreadToken::try_get(&reg).is_none());
    assert!(reg.may_register(0));
}
