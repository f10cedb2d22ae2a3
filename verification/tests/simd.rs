use tl::simd;
use tl::simd::fallback;
use tl::simd::stable;
use tl::util;

#[test]
fn matches_case_insensitive_test() {
    assert!(simd::matches_case_insensitive(b"hTmL", *b"html"));
    assert!(!simd::matches_case_insensitive(b"hTmLs", *b"html"));
    assert!(!simd::matches_case_insensitive(b"hTmy", *b"html"));
    assert!(!simd::matches_case_insensitive(b"/Tmy", *b"html"));
}

#[test]
fn string_search() {
    assert_eq!(simd::find(b"a", b' '), None);
    assert_eq!(simd::find(b"", b' '), None);
    assert_eq!(simd::find(b"a ", b' '), Some(1));
    assert_eq!(simd::find(b"abcd ", b' '), Some(4));
    assert_eq!(simd::find(b"ab cd ", b' '), Some(2));
    assert_eq!(simd::find(b"abcdefgh ", b' '), Some(8));
    assert_eq!(simd::find(b"abcdefghi ", b' '), Some(9));
    assert_eq!(simd::find(b"abcdefghi", b' '), None);
    assert_eq!(simd::find(b"abcdefghiabcdefghi .", b' '), Some(18));
    assert_eq!(simd::find(b"abcdefghiabcdefghi.", b' '), None);

    let count = 1000usize;

    let long = "a".repeat(count) + "b";
    assert_eq!(simd::find(long.as_bytes(), b'b'), Some(count));
}

#[test]
fn string_search_4() {
    const NEEDLE: [u8; 4] = [b'a', b'b', b'c', b'd'];

    assert_eq!(simd::find4(b"e", NEEDLE), None);
    assert_eq!(simd::find4(b"a", NEEDLE), Some(0));
    assert_eq!(simd::find4(b"ea", NEEDLE), Some(1));
    assert_eq!(simd::find4(b"ef", NEEDLE), None);
    assert_eq!(simd::find4(b"ef a", NEEDLE), Some(3));
    assert_eq!(simd::find4(b"ef g", NEEDLE), None);
    assert_eq!(simd::find4(b"ef ghijk", NEEDLE), None);
    assert_eq!(simd::find4(b"ef ghijkl", NEEDLE), None);
    assert_eq!(simd::find4(b"ef ghijkla", NEEDLE), Some(9));
    assert_eq!(simd::find4(b"ef ghiajklm", NEEDLE), Some(6));
    assert_eq!(simd::find4(b"ef ghibjklm", NEEDLE), Some(6));
    assert_eq!(simd::find4(b"ef ghicjklm", NEEDLE), Some(6));
    assert_eq!(simd::find4(b"ef ghidjklm", NEEDLE), Some(6));
    assert_eq!(simd::find4(b"ef ghijklmnopqrstua", NEEDLE), Some(18));
    assert_eq!(simd::find4(b"ef ghijklmnopqrstub", NEEDLE), Some(18));
    assert_eq!(simd::find4(b"ef ghijklmnopqrstuc", NEEDLE), Some(18));
    assert_eq!(simd::find4(b"ef ghijklmnopqrstud", NEEDLE), Some(18));
    assert_eq!(simd::find4(b"ef ghijklmnopqrstu", NEEDLE), None);
}

#[test]
fn search_non_ident() {
    assert_eq!(simd::search_non_ident(b"this-is-a-very-long-identifier<"), Some(30));
    assert_eq!(simd::search_non_ident(b"0123456789Abc_-<"), Some(15));
    assert_eq!(simd::search_non_ident(b"0123456789Abc-<"), Some(14));
    assert_eq!(simd::search_non_ident(b"0123456789Abcdef_-<"), Some(18));
    assert_eq!(simd::search_non_ident(b""), None);
    assert_eq!(simd::search_non_ident(b"short"), None);
    assert_eq!(simd::search_non_ident(b"short_<"), Some(6));
    assert_eq!(simd::search_non_ident(b"0123456789abcdefghijklmnopqrstuvwxyzABCDEFGHIJKLMNOPQRSTUVWXYZ-_"), None);
    assert_eq!(simd::search_non_ident(b"0123456789abcdefghijklmnopqrstuvwxyzABCDEFGHIJKLMNOPQRSTUVWXYZ-_<"), Some(64));
    assert_eq!(simd::search_non_ident(b"0123456789ab<defghijklmnopqrstuvwxyzABCDEFGHIJKLMNOPQRSTUVWXYZ-_<"), Some(12));
}

#[test]
fn block_and_plain_searches_agree() {
    let mut text = Vec::new();
    for i in 0..70u8 {
        text.push(b'a' + (i % 20));
    }
    for at in 0..text.len() {
        let mut t = text.clone();
        t[at] = b'<';
        assert_eq!(stable::find(&t, b'<'), Some(at));
        assert_eq!(fallback::find(&t, b'<'), Some(at));
        assert_eq!(stable::find_multi(&t, [b'<', b'>']), Some(at));
        assert_eq!(fallback::find_multi(&t, [b'<', b'>']), Some(at));
        assert_eq!(stable::search_non_ident(&t), Some(at));
        assert_eq!(fallback::search_non_ident(&t), Some(at));
    }
    assert_eq!(stable::find(&text, b'<'), None);
    assert_eq!(stable::search_non_ident(&text), None);
    assert_eq!(stable::find_multi(&text, [b'<', b'>']), None);
}

#[test]
fn first_of_several_matches_is_found() {
    assert_eq!(simd::find(b"0123456789abcdef<0123456789abcdef<", b'<'), Some(16));
    assert_eq!(simd::find(b"<<", b'<'), Some(0));
    assert_eq!(simd::find4(b"xxxxxxxxxxxxxxxxxxxxb a", [b'a', b'b', b' ', b'c']), Some(20));
}

#[test]
fn closing_bytes() {
    assert!(simd::is_closing(b'/'));
    assert!(simd::is_closing(b'>'));
    assert!(!simd::is_closing(b'<'));
    assert!(stable::is_closing(b'/'));
    assert!(!stable::is_closing(b' '));
}

#[test]
fn ident_and_lower() {
    for c in b"azAZ09-_" {
        assert!(util::is_ident(*c));
    }
    for c in b" <>/=\"'.:@[`{" {
        assert!(!util::is_ident(*c));
    }
    assert_eq!(util::to_lower(b'A'), b'a');
    assert_eq!(util::to_lower(b'Z'), b'z');
    assert_eq!(util::to_lower(b'a'), b'a');
    assert_eq!(util::to_lower(b'@'), b'@');
    assert_eq!(util::to_lower(b'['), b'[');
    assert_eq!(util::to_lower(0xff), 0xff);
}
