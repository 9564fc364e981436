use bdwgc_box::cstring::{from_cstr, from_iter, from_str, Formatter};
use bdwgc_box::{init, Registration};

fn err_of<T, E>(r: Result<T, E>) -> E {
    match r {
        Ok(_) => panic!("expected an error"),
        Err(e) => e,
    }
}

#[test]
fn from_str_appends_a_terminator() {
    let mut reg = Registration::new();
    let token = init(&mut reg);
    let c = from_str(&token, "abc").unwrap();
    assert_eq!(c.as_ref(&token), b"abc\0");
    let e = from_str(&token, "").unwrap();
    assert_eq!(e.as_ref(&token), b"\0");
}

#[test]
fn from_str_reports_the_first_nul() {
    let mut reg = Registration::new();
    let token = init(&mut reg);
    assert_eq!(err_of(from_str(&token, "a\0b")).nul_position(), 1);
    assert_eq!(err_of(from_str(&token, "\0")).nul_position(), 0);
    assert_eq!(err_of(from_str(&token, "é\0x\0")).nul_position(), 2);
}

#[test]
fn from_cstr_copies_the_bytes() {
    let mut reg = Registration::new();
    let token = init(&mut reg);
    let c = from_cstr(&token, b"hi there\0");
    assert_eq!(c.as_ref(&token), b"hi there\0");
    let e = from_cstr(&token, b"\0");
    assert_eq!(e.as_ref(&token), b"\0");
    let raw = from_cstr(&token, &[0xff, 0xfe, 0]);
    assert_eq!(raw.as_ref(&token), &[0xff, 0xfe, 0]);
}

#[test]
fn from_iter_collects_characters_with_a_terminator() {
    let mut reg = Registration::new();
    let token = init(&mut reg);
    let c = from_iter(&token, &['x', 'é', 'z'], 1).unwrap();
    assert_eq!(c.as_ref(&token), "xéz\0".as_bytes());
    let e = from_iter(&token, &[], 0).unwrap();
    assert_eq!(e.as_ref(&token), b"\0");
}

#[test]
fn from_iter_stops_at_the_first_nul() {
    let mut reg = Registration::new();
    let token = init(&mut reg);
    let rest = err_of(from_iter(&token, &['a', '\0', 'b', '\0', 'c'], 5));
    assert_eq!(rest, vec!['b', '\0', 'c']);
    let at_end = err_of(from_iter(&token, &['a', '\0'], 0));
    assert_eq!(at_end, Vec::<char>::new());
}

#[test]
fn formatter_refuses_nul_and_keeps_its_contents() {
    let mut reg = Registration::new();
    let token = init(&mut reg);
    let mut f = Formatter::new(&token);
    f.write_str("ab").unwrap();
    assert!(f.write_str("c\0d").is_err());
    assert!(f.write_char('\0').is_err());
    assert_eq!(f.len(), 2);
    assert_eq!(f.capacity(), 2);
    f.write_char('c').unwrap();
    assert_eq!(f.capacity(), 4);
    assert_eq!(f.finish().as_ref(&token), b"abc\0");
}

#[test]
fn formatter_grows_by_doubling_from_a_reservation() {
    let mut reg = Registration::new();
    let token = init(&mut reg);
    let mut f = Formatter::with_capacity(&token, 3);
    f.write_str("abc").unwrap();
    assert_eq!(f.capacity(), 3);
    f.write_str("d").unwrap();
    assert_eq!(f.capacity(), 6);
    f.write_str("efghijklm").unwrap();
    assert_eq!(f.capacity(), 24);
    assert_eq!(f.finish().as_ref(&token), b"abcdefghijklm\0");
}

#[test]
fn an_empty_cstring_formatter_finishes_with_only_a_terminator() {
    let mut reg = Registration::new();
    let token = init(&mut reg);
    let f = Formatter::new(&token);
    assert_eq!(f.finish().as_ref(&token), b"\0");
}

#[test]
fn nul_error_describes_its_position() {
    let mut reg = Registration::new();
    let token = init(&mut reg);
    let e = err_of(from_str(&token, "\0"));
    assert_eq!(e.to_string(), "nul byte found in provided data at position: 0");
    let e = err_of(from_str(&token, "abcdefghijkl\0"));
    assert_eq!(e.to_string(), "nul byte found in provided data at position: 12");
    let long = format!("{}\0", "a".repeat(1204));
    let e = err_of(from_str(&token, &long));
    assert_eq!(e.nul_position(), 1204);
    assert_eq!(e.to_string(), "nul byte found in provided data at position: 1204");
}

#[test]
fn the_block_has_room_for_the_terminator_after_growth() {
    let mut reg = Registration::new();
    let token = init(&mut reg);
    let mut f = Formatter::new(&token);
    assert_eq!(f.allocation_size(), 0);
    f.write_str("abc").unwrap();
    assert_eq!(f.capacity(), 4);
    assert_eq!(f.allocation_size(), 5);
    f.write_str("d").unwrap();
    assert_eq!(f.allocation_size(), 5);
    assert!(f.write_str("\0").is_err());
    assert_eq!(f.allocation_size(), 5);
    f.write_str("e").unwrap();
    assert_eq!(f.capacity(), 8);
    assert_eq!(f.allocation_size(), 9);
}

#[test]
fn with_capacity_asks_for_exactly_the_capacity() {
    let mut reg = Registration::new();
    let token = init(&mut reg);
    let mut f = Formatter::with_capacity(&token, 3);
    assert_eq!(f.allocation_size(), 3);
    f.write_str("ab").unwrap();
    assert_eq!(f.allocation_size(), 3);
    f.write_str("c").unwrap();
    assert_eq!(f.allocation_size(), 3);
    assert_eq!(f.len(), 3);
    f.write_str("d").unwrap();
    assert_eq!(f.allocation_size(), 7);
    let empty = Formatter::with_capacity(&token, 0);
    assert_eq!(empty.allocation_size(), 0);
}
