use tl::util::hash_bytes;
use tl::parser::index::ByteMap;
use tl::Bytes;

#[test]
fn bytemap_insert_get_remove() {
    let mut m = ByteMap::<u32>::new();
    assert_eq!(m.get(b"a"), None);
    m.insert(Bytes::from("a"), 1);
    m.insert(Bytes::from("b"), 2);
    m.insert(Bytes::from("a"), 3);
    assert_eq!(m.get(b"a"), Some(&3));
    assert_eq!(m.get(b"b"), Some(&2));
    assert_eq!(m.get(b"c"), None);
    assert_eq!(m.remove(b"a"), Some(3));
    assert_eq!(m.remove(b"a"), None);
    assert_eq!(m.get(b"a"), None);
    assert_eq!(m.get(b"b"), Some(&2));
    for i in 0..2000u32 {
        let key = i.to_string();
        let mut k = Bytes::new();
        k.set(key).unwrap();
        m.insert(k, i);
    }
    for i in (0..2000u32).step_by(97) {
        assert_eq!(m.get(i.to_string().as_bytes()), Some(&i));
    }
    assert_eq!(m.get(b"2000"), None);
    assert_eq!(ByteMap::<u8>::default().get(b""), None);
}

#[test]
fn hash_values() {
    assert_eq!(hash_bytes(b""), 0xcbf29ce484222325);
    assert_eq!(hash_bytes(b"a"), 0xaf63dc4c8601ec8c);
    assert_eq!(hash_bytes(b"foobar"), 0x85944171f73967e8);
}
