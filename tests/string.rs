use raw_array_string::{InvalidEncoding, RawArrayString};

#[test]
fn new_is_empty() {
    let s = RawArrayString::<16>::new();
    assert!(s.is_empty());
    assert_eq!(s.len(), 0);
    assert_eq!(s.capacity(), 16);
    assert_eq!(s.as_str(), "");
    assert!(!s.is_full());
}

#[test]
fn default_is_empty() {
    let s: RawArrayString<5> = Default::default();
    assert!(s.is_empty());
    assert_eq!(s.as_str(), "");
}

#[test]
fn from_reads_back() {
    let s = RawArrayString::<3>::from("foo").unwrap();
    assert_eq!(s.as_str(), "foo");
    assert_eq!(s.len(), 3);
    assert_eq!(s.capacity(), 3);
    let t = RawArrayString::<10>::from("héllo").unwrap();
    assert_eq!(t.as_str(), "héllo");
    assert_eq!(t.len(), 6);
    assert!(!t.is_full());
}

#[test]
fn from_too_long() {
    match RawArrayString::<2>::from("foo") {
        Ok(_) => panic!("three bytes do not fit in two"),
        Err(e) => assert_eq!(e.element(), "foo"),
    }
    // two-byte character into one byte of room
    assert!(RawArrayString::<1>::from("é").is_err());
}

#[test]
fn push_sequence() {
    let mut string = RawArrayString::<2>::new();
    string.try_push_str("a").unwrap();
    assert_eq!(string.as_str(), "a");
    let overflow1 = string.try_push_str("bc");
    assert_eq!(string.as_str(), "a");
    string.try_push_str("d").unwrap();
    assert_eq!(string.as_str(), "ad");
    let overflow2 = string.try_push_str("ef");
    assert_eq!(string.as_str(), "ad");
    assert_eq!(overflow1.unwrap_err().element(), "bc");
    assert_eq!(overflow2.unwrap_err().element(), "ef");
}

#[test]
fn push_str_fits() {
    let mut string = RawArrayString::<2>::new();
    string.push_str("a");
    string.push_str("d");
    assert_eq!(string.as_str(), "ad");
    assert!(string.is_full());
}

#[test]
fn push_str_fills_one() {
    let mut string = RawArrayString::<1>::new();
    assert!(!string.is_full());
    string.push_str("A");
    assert!(string.is_full());
}

#[test]
fn full_takes_only_empty() {
    let mut s = RawArrayString::<9>::from("1234 abcd").unwrap();
    assert!(s.is_full());
    assert!(s.try_push_str("").is_ok());
    assert_eq!(s.as_str(), "1234 abcd");
    match s.try_push_str(" ") {
        Ok(()) => panic!("a full string takes no more text"),
        Err(e) => assert_eq!(e.element(), " "),
    }
    assert_eq!(s.as_str(), "1234 abcd");
}

#[test]
fn clear_empties() {
    let mut s = RawArrayString::<4>::from("abcd").unwrap();
    s.clear();
    assert!(s.is_empty());
    assert_eq!(s.as_str(), "");
    s.clear();
    assert!(s.is_empty());
    let mut z = RawArrayString::<0>::new();
    z.clear();
    assert!(z.is_empty());
}

#[test]
fn reuse_after_clear() {
    let mut s = RawArrayString::<6>::from("abcdef").unwrap();
    s.clear();
    s.push_str("xy");
    assert_eq!(s.as_str(), "xy");
    assert_eq!(s.len(), 2);
}

#[test]
fn zero_capacity() {
    let mut z = RawArrayString::<0>::new();
    assert!(z.is_empty());
    assert!(z.is_full());
    assert_eq!(z.len(), 0);
    assert!(z.try_push_str("").is_ok());
    match z.try_push_str("a") {
        Ok(()) => panic!("nothing fits in capacity zero"),
        Err(e) => assert_eq!(e.element(), "a"),
    }
    assert!(RawArrayString::<0>::from("").is_ok());
    assert!(RawArrayString::<0>::from("x").is_err());
}

#[test]
fn copy_is_independent() {
    let mut a = RawArrayString::<8>::from("ab").unwrap();
    let b = a.clone();
    assert_eq!(b.as_str(), "ab");
    a.push_str("cd");
    assert_eq!(a.as_str(), "abcd");
    assert_eq!(b.as_str(), "ab");
    let mut c = b;
    c.clear();
    assert_eq!(b.as_str(), "ab");
    assert_eq!(c.as_str(), "");
}

#[test]
fn equality_ignores_tail() {
    let mut a = RawArrayString::<5>::from("abcde").unwrap();
    a.clear();
    a.push_str("x");
    let b = RawArrayString::<5>::from("x").unwrap();
    assert!(a == b);
    let c = RawArrayString::<5>::from("y").unwrap();
    assert!(a != c);
    assert!(<RawArrayString<5> as PartialEq<str>>::eq(&a, "x"));
    assert!(!<RawArrayString<5> as PartialEq<str>>::eq(&a, "xy"));
    assert!(<str as PartialEq<RawArrayString<5>>>::eq("x", &a));
}

#[test]
fn to_string_copies_text() {
    let s = RawArrayString::<4>::from("hé").unwrap();
    assert_eq!(s.to_string(), String::from("hé"));
}

#[test]
fn from_byte_string_whole_buffer() {
    let s = RawArrayString::from_byte_string(b"hello world").unwrap();
    assert_eq!(s.as_str(), "hello world");
    assert_eq!(s.len(), 11);
    assert!(s.is_full());
}

#[test]
fn from_byte_string_stops_at_zero() {
    let s = RawArrayString::from_byte_string(b"ab\0d").unwrap();
    assert_eq!(s.as_str(), "ab");
    assert_eq!(s.len(), 2);
    let z = RawArrayString::from_byte_string(&[0u8; 3]).unwrap();
    assert!(z.is_empty());
}

#[test]
fn from_byte_string_invalid() {
    let r = RawArrayString::from_byte_string(&[0x61u8, 0xc3]);
    assert!(matches!(r, Err(InvalidEncoding)));
}
