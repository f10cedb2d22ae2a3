use std::collections::HashSet;
use tl::bytes::IntoOwnedBytes;
use tl::errors::ParseError;
use tl::errors::SetBytesError;
use tl::Bytes;

#[test]
fn from_str() {
    let x = Bytes::from("hello");
    assert_eq!(x.as_bytes(), b"hello");
}

#[test]
fn from_bytes() {
    let x = Bytes::from(b"hello" as &[u8]);
    assert_eq!(x.as_bytes(), b"hello");
}

#[test]
fn as_bytes_borrowed() {
    let xb = Bytes::from(b"hello" as &[u8]);
    assert_eq!(xb.as_bytes_borrowed(), Some(b"hello" as &[u8]));

    let mut xc = xb.clone();
    xc.set("test2").unwrap();
    assert_eq!(xc.as_bytes_borrowed(), None);
}

#[test]
fn as_utf8_str() {
    assert_eq!(Bytes::from("hello").as_utf8_str(), "hello");
}

#[test]
fn clone_shallow() {
    // cloning a borrowed slice does not deep-clone
    let x = Bytes::from("hello");
    let xp = x.as_ptr();

    let y = x.clone();
    let yp = y.as_ptr();

    assert_eq!(xp, yp);
}

#[test]
fn drop_old_owned() {
    let mut x = Bytes::from("");
    x.set("test").unwrap();
    x.set("test2").unwrap();
}

#[test]
fn clone_owned_deep() {
    let mut x = Bytes::from("");
    x.set("hello").unwrap();
    let xp = x.as_ptr();

    let y = x.clone();
    let yp = y.as_ptr();

    assert_eq!(x, y);
    assert_ne!(xp, yp);
}

#[test]
fn empty() {
    let _x = Bytes::new();
}

#[test]
fn empty_set() {
    let mut x = Bytes::new();
    x.set("hello").unwrap();
}

#[test]
fn set() {
    let mut x = Bytes::from("hello");
    let xp = x.as_ptr();

    x.set("world").unwrap();
    let xp2 = x.as_ptr();

    // check that the changes are reflected
    assert_eq!(x.as_bytes(), b"world");

    // pointer must be different now as the call to `set` should cause an allocation
    assert_ne!(xp, xp2);
}

#[test]
fn clone_deep() {
    let x = Bytes::from("hello");
    let xp = x.as_ptr();

    let mut y = x.clone();
    y.set("world").unwrap();
    let yp = y.as_ptr();

    assert_ne!(xp, yp);
}

#[test]
fn into_owned_bytes() {
    let mut x1 = Bytes::new();
    x1.set("hello").unwrap(); // &str

    let mut x2 = x1.clone();
    x2.set(b"world" as &[u8]).unwrap(); // &[u8]

    let mut x3 = x1.clone();
    x3.set(vec![0u8, 1, 2, 3, 4]).unwrap(); // Vec<u8>

    let mut x4 = x1.clone();
    x4.set(vec![0u8, 1, 2, 3, 4].into_boxed_slice()).unwrap(); // Box<[u8]>

    let mut x5 = x1.clone();
    x5.set(String::from("Tests are important")).unwrap(); // String
}

#[test]
fn set_returns_the_buffer_it_replaces() {
    let mut x = Bytes::from("borrowed");
    assert_eq!(x.set("first").unwrap(), None);
    assert_eq!(x.set("second").unwrap(), Some(b"first".to_vec()));
    assert_eq!(x.as_bytes(), b"second");
    assert_eq!(x.set_unchecked(vec![1u8, 2]), Some(b"second".to_vec()));
    assert_eq!(x.as_bytes(), &[1, 2]);
}

#[test]
fn clone_is_isolated_from_the_original() {
    let mut x = Bytes::new();
    x.set("owned").unwrap();
    let mut y = x.clone();
    assert_eq!(y.as_bytes(), x.as_bytes());
    y.set("changed").unwrap();
    assert_eq!(x.as_bytes(), b"owned");
    assert_eq!(y.as_bytes(), b"changed");

    let b = Bytes::from("borrowed");
    let mut c = b.clone();
    assert_eq!(c.as_bytes(), b.as_bytes());
    c.set("other").unwrap();
    assert_eq!(b.as_bytes(), b"borrowed");
}

#[test]
fn equality_looks_at_content_only() {
    let borrowed = Bytes::from("same");
    let mut owned = Bytes::new();
    owned.set("same").unwrap();
    assert_eq!(borrowed, owned);
    assert!(borrowed == *"same");
    assert!(owned == *b"same".as_slice());
    assert_ne!(borrowed, Bytes::from("other"));
}

#[test]
fn lossy_and_checked_views() {
    let bad = Bytes::from(&[0x61u8, 0xff, 0x62][..]);
    assert_eq!(bad.as_utf8_str(), "a\u{fffd}b");
    assert_eq!(bad.try_as_utf8_str(), None);
    assert_eq!(Bytes::from("ok").try_as_utf8_str(), Some("ok"));
    assert_eq!(Bytes::from("ok").len(), 2);
}

#[test]
fn slices_and_owned_conversions() {
    let b = Bytes::from("hello world");
    let s = b.slice(6, 11);
    assert_eq!(s.as_bytes(), b"world");
    assert!(s.as_bytes_borrowed().is_some());
    let mut o = Bytes::new();
    o.set("hello world").unwrap();
    let t = o.slice(0, 5);
    assert_eq!(t.as_bytes(), b"hello");
    assert!(t.as_bytes_borrowed().is_none());
    let owned = Bytes::try_from(String::from("text")).unwrap();
    assert_eq!(owned.as_bytes(), b"text");
    assert!(owned.as_bytes_borrowed().is_none());
    assert_eq!(IntoOwnedBytes::into_bytes(String::from("abc")), b"abc".to_vec());
    assert_eq!(IntoOwnedBytes::into_bytes("abc"), b"abc".to_vec());
    assert_eq!(IntoOwnedBytes::into_bytes(&b"xyz"[..]), b"xyz".to_vec());
    assert_eq!(IntoOwnedBytes::into_bytes(vec![1u8, 2]), vec![1u8, 2]);
    let boxed: Box<[u8]> = vec![7u8, 8, 9].into_boxed_slice();
    let mut from_box = Bytes::new();
    from_box.set(boxed).unwrap();
    assert_eq!(from_box.as_bytes(), &[7, 8, 9]);
    let mut from_string = Bytes::new();
    from_string.set(String::from("h\u{e9}")).unwrap();
    assert_eq!(from_string.as_bytes(), &[0x68, 0xc3, 0xa9]);
    assert_eq!(Bytes::default().as_bytes(), b"");
}

#[test]
fn error_texts() {
    assert_eq!(
        ParseError::InvalidLength.to_string(),
        "The input string length is too large to fit in a `u32`"
    );
    assert_eq!(
        SetBytesError::LengthOverflow.to_string(),
        "The string length is too large to fit in a `u32`"
    );
}

#[test]
fn order_looks_at_content_only() {
    let a = Bytes::from("abc");
    let mut b = Bytes::new();
    b.set("abd").unwrap();
    assert!(a < b);
    assert!(b > a);
    assert!(Bytes::from("ab") < a);
    assert!(Bytes::from("") < Bytes::from("a"));
    assert!(Bytes::from("b") > Bytes::from("abc"));
    let mut c = Bytes::new();
    c.set("abc").unwrap();
    assert!(a <= c && a >= c);
    assert_eq!(a.partial_cmp(&c), Some(std::cmp::Ordering::Equal));
    assert_eq!(tl::bytes::compare_bytes(b"x", b"xy"), -1);
    assert_eq!(tl::bytes::compare_bytes(b"y", b"xy"), 1);
    assert_eq!(tl::bytes::compare_bytes(b"", b""), 0);
}

#[test]
fn hashing_looks_at_content_only() {
    let mut owned = Bytes::new();
    owned.set("key").unwrap();
    let mut set = HashSet::new();
    set.insert(Bytes::from("key"));
    assert!(set.contains(&owned));
    assert!(!set.insert(owned));
}
