use veneer::cstr::{bytes_equal, digit_at};
use veneer::{CStr, Error};

#[test]
fn from_bytes_strips_terminator() {
    let raw = b"abc\0";
    let s = CStr::from_bytes(raw);
    assert_eq!(s.as_bytes(), b"abc");
    assert_eq!(s.len(), 3);
    assert_eq!(s.as_ptr(), b"abc\0");
}

#[test]
fn empty_cstr() {
    let s = CStr::from_bytes(b"\0");
    assert_eq!(s.len(), 0);
    assert_eq!(s.as_bytes(), b"");
    assert_eq!(s.get(0), None);
}

#[test]
fn get_stops_before_terminator() {
    let s = CStr::from_bytes(b"xy\0");
    assert_eq!(s.get(0), Some(&b'x'));
    assert_eq!(s.get(1), Some(&b'y'));
    assert_eq!(s.get(2), None);
    assert_eq!(s.get(100), None);
}

#[test]
fn eq_bytes_with_and_without_terminator() {
    let s = CStr::from_bytes(b"name\0");
    assert!(s.eq_bytes(b"name"));
    assert!(s.eq_bytes(b"name\0"));
    assert!(!s.eq_bytes(b"nam"));
    assert!(!s.eq_bytes(b"nam\0"));
    assert!(!s.eq_bytes(b"names"));
}

#[test]
fn bytes_equal_compares_all() {
    assert!(bytes_equal(b"", b""));
    assert!(bytes_equal(b"ab", b"ab"));
    assert!(!bytes_equal(b"ab", b"ac"));
    assert!(!bytes_equal(b"ab", b"a"));
}

#[test]
fn digit_at_checks_bounds_and_digits() {
    let s: &[u8] = b"a1/9";
    assert!(!digit_at(s, 0));
    assert!(digit_at(s, 1));
    assert!(!digit_at(s, 2));
    assert!(digit_at(s, 3));
    assert!(!digit_at(s, 4));
}

#[test]
fn error_from_codes() {
    assert_eq!(Error::from(13i32), Error(13));
    assert_eq!(Error::from(-4isize), Error(-4));
    assert_eq!(Error(2).code(), 2);
}

#[test]
fn cstr_equals_byte_slices() {
    let s = CStr::from_bytes(b"abc\0");
    assert!(s == &b"abc"[..]);
    assert!(s == &b"abc\0"[..]);
    assert!(!(s == &b"ab"[..]));
}
