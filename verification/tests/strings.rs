use bdwgc_box::encoding::encode_char;
use bdwgc_box::string::{from_iter, from_str, Formatter};
use bdwgc_box::{init, Registration};

#[test]
fn from_str_copies_the_text() {
    let mut reg = Registration::new();
    let token = init(&mut reg);
    let s = from_str(&token, "héllo, wörld");
    assert_eq!(s.as_ref(&token), "héllo, wörld");
    let empty = from_str(&token, "");
    assert_eq!(empty.as_ref(&token), "");
}

#[test]
fn from_iter_collects_characters() {
    let mut reg = Registration::new();
    let token = init(&mut reg);
    let chars = ['a', 'é', '€', '😀'];
    let s = from_iter(&token, &chars, 0);
    assert_eq!(s.as_ref(&token), "aé€😀");
    let t = from_iter(&token, &chars, 100);
    assert_eq!(t.as_ref(&token), "aé€😀");
    let none = from_iter(&token, &[], 0);
    assert_eq!(none.as_ref(&token), "");
}

#[test]
fn formatter_concatenates_writes() {
    let mut reg = Registration::new();
    let token = init(&mut reg);
    let mut f = Formatter::new(&token);
    assert!(f.write_str("Hello").is_ok());
    assert!(f.write_char(',').is_ok());
    assert!(f.write_str(" world").is_ok());
    assert!(f.write_char('!').is_ok());
    assert_eq!(f.len(), 13);
    assert_eq!(f.finish().as_ref(&token), "Hello, world!");
}

#[test]
fn formatter_grows_by_doubling() {
    let mut reg = Registration::new();
    let token = init(&mut reg);
    let mut f = Formatter::new(&token);
    assert_eq!(f.capacity(), 0);
    f.write_str("a").unwrap();
    assert_eq!(f.capacity(), 2);
    f.write_str("bc").unwrap();
    assert_eq!(f.capacity(), 4);
    f.write_str("d").unwrap();
    assert_eq!(f.capacity(), 4);
    f.write_str("efghijk").unwrap();
    assert_eq!(f.capacity(), 16);
    assert_eq!(f.len(), 11);
}

#[test]
fn formatter_keeps_a_reservation_that_fits() {
    let mut reg = Registration::new();
    let token = init(&mut reg);
    let mut f = Formatter::with_capacity(&token, 10);
    f.write_str("0123456789").unwrap();
    assert_eq!(f.capacity(), 10);
    f.write_char('€').unwrap();
    assert_eq!(f.capacity(), 20);
    assert_eq!(f.finish().as_ref(&token), "0123456789€");
}

#[test]
fn an_empty_formatter_finishes_empty() {
    let mut reg = Registration::new();
    let token = init(&mut reg);
    let f = Formatter::with_capacity(&token, 8);
    assert_eq!(f.finish().as_ref(&token), "");
}

#[test]
fn characters_encode_as_utf8() {
    assert_eq!(encode_char('A'), vec![0x41]);
    assert_eq!(encode_char('\0'), vec![0x00]);
    assert_eq!(encode_char('é'), vec![0xC3, 0xA9]);
    assert_eq!(encode_char('€'), vec![0xE2, 0x82, 0xAC]);
    assert_eq!(encode_char('😀'), vec![0xF0, 0x9F, 0x98, 0x80]);
    for c in ['a', 'ß', 'ह', '中', '\u{10FFFF}', '\u{7FF}', '\u{800}', '\u{FFFF}'] {
        let mut buf = [0u8; 4];
        assert_eq!(encode_char(c), c.encode_utf8(&mut buf).as_bytes().to_vec());
    }
}

#[test]
fn capacity_depends_only_on_the_total_written() {
    let mut reg = Registration::new();
    let token = init(&mut reg);
    let mut split = Formatter::with_capacity(&token, 3);
    split.write_str("ab").unwrap();
    split.write_str("cde").unwrap();
    split.write_str("fghij").unwrap();
    let mut whole = Formatter::with_capacity(&token, 3);
    whole.write_str("abcdefghij").unwrap();
    assert_eq!(split.capacity(), whole.capacity());
    assert_eq!(whole.capacity(), 12);
    assert_eq!(split.finish().as_ref(&token), whole.finish().as_ref(&token));
}
