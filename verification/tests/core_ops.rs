use std::collections::hash_map::DefaultHasher;
use std::hash::Hash;
use std::hash::Hasher;
use string32::String32;
use string32::Str32;

const TEXT: &str = "A string that is indexed by u32 instead of usize.\n\
On 64-bit platforms the owned type stores its pointer, length\n\
and capacity in fewer bytes than the native growable string.\n\
The borrowed view reports its length in the 32-bit domain and\n\
is derived from the owned type or from a native string slice.\n";

#[test]
fn test_simple() {
    let s1 = String::from(TEXT);
    let mut s2 = String32::new();
    s2.push_str(TEXT);
    assert_eq!(s1.as_str(), s2.as_str());
    assert_eq!(s1, s2.into_string());
}

#[test]
fn test_complex() {
    let mut s = String32::try_from_str(TEXT).unwrap();
    s.shrink_to_fit();
    s.push('\n');
    s.reserve_exact(2 * s.len());
    s.reserve(1);
    s.push_str(TEXT);
    s.pop();
    s.remove(s.len() - 1);
    s.remove(0);
    s.insert(s.len() - 1, '\n');
    s.insert(0, '\n');
    s.insert_str(0, TEXT);
    s.truncate(s.len() / 2);
    let mut other = s.split_off(s.len() / 2);
    other.push_str(s.as_str());
    assert!(!other.is_empty());
}

#[test]
fn test_hash() {
    let mut hash1 = DefaultHasher::new();
    let mut hash2 = DefaultHasher::new();

    let s1 = String::from(TEXT);
    let s2 = String32::try_from_str(TEXT).unwrap();

    <String as Hash>::hash(&s1, &mut hash1);
    <String32 as Hash>::hash(&s2, &mut hash2);
    <str as Hash>::hash(&s1, &mut hash1);
    <Str32 as Hash>::hash(&s2.as_str32(), &mut hash2);

    assert_eq!(hash1.finish(), hash2.finish());
}

#[test]
fn empty_then_append_hello() {
    let mut s = String32::new();
    assert!(s.is_empty());
    s.push_str("hello");
    assert_eq!(s.len(), 5);
    assert_eq!(s.as_str(), "hello");
}

#[test]
fn remove_returns_char_at_offset() {
    let mut s = String32::try_from_str("abbc").unwrap();
    assert_eq!(s.remove(1), 'b');
    assert_eq!(s.as_str(), "abc");
}

#[test]
fn split_off_at_offset() {
    let mut s1 = String32::try_from_str("123abc").unwrap();
    let s2 = s1.split_off(3);
    assert_eq!(s1.as_str(), "123");
    assert_eq!(s2.as_str(), "abc");
}

#[test]
fn round_trip_preserves_content() {
    let original = String::from("round trip: te\u{1F642}st \u{0159}\u{4e16}\u{754c}");
    let bounded = String32::try_from_string(original.clone()).unwrap();
    let back = bounded.into_string();
    assert_eq!(back, original);
}

#[test]
fn length_equals_utf8_byte_length() {
    let s = String32::try_from_str("te\u{1F642}st").unwrap();
    assert_eq!(s.len(), 8);
    assert_eq!(s.len() as usize, "te\u{1F642}st".len());
    assert_eq!(s.as_bytes().len(), 8);
    let v = Str32::try_from_str("\u{0159}").unwrap();
    assert_eq!(v.len(), 2);
}

#[test]
fn push_and_pop() {
    let mut s = String32::try_from_str("\n").unwrap();
    assert_eq!(s.pop(), Some('\n'));
    assert_eq!(s.pop(), None);
    s.push('x');
    s.push('\u{1F642}');
    assert_eq!(s.len(), 5);
    assert_eq!(s.pop(), Some('\u{1F642}'));
    assert_eq!(s.as_str(), "x");
}

#[test]
fn insert_char_and_str() {
    let mut s = String32::try_from_str("ac").unwrap();
    s.insert(1, 'b');
    assert_eq!(s.as_str(), "abc");
    let mut t = String32::try_from_str("ad").unwrap();
    t.insert_str(1, "bc");
    assert_eq!(t.as_str(), "abcd");
}

#[test]
fn truncate_shortens_and_ignores_long() {
    let mut s = String32::try_from_str("abcde").unwrap();
    s.truncate(3);
    assert_eq!(s.as_str(), "abc");
    s.truncate(10);
    assert_eq!(s.as_str(), "abc");
    s.truncate(0);
    assert!(s.is_empty());
}

#[test]
fn clear_empties() {
    let mut s = String32::try_from_str("abc").unwrap();
    s.clear();
    assert!(s.is_empty());
    assert_eq!(s.len(), 0);
}

#[test]
fn capacity_and_reserve() {
    let mut s = String32::new();
    assert_eq!(0, s.capacity());
    s.push('\n');
    assert!(s.capacity() > 0);

    let mut t = String32::try_from_str("abc").unwrap();
    t.reserve(10);
    assert!(t.capacity() >= 13);

    let mut u = String32::with_capacity(5);
    u.reserve_exact(10);
    assert!(u.capacity() >= 10);

    let mut w = String32::with_capacity(10);
    w.shrink_to_fit();
    assert_eq!(0, w.capacity());

    let mut v = String32::with_capacity(1);
    let cap: u32 = v.capacity();
    v.push('\n');
    assert_eq!(cap, v.capacity());
}

#[test]
fn make_ascii_case() {
    let mut s = String32::try_from_str("aBc \u{0159}").unwrap();
    s.make_ascii_uppercase();
    assert_eq!(s.as_str(), "ABC \u{0159}");
    s.make_ascii_lowercase();
    assert_eq!(s.as_str(), "abc \u{0159}");
}

#[test]
fn into_bytes_gives_utf8() {
    let s = String32::try_from_str("123").unwrap();
    let v = s.into_bytes();
    assert_eq!(v, b"123");
}

#[test]
fn default_is_empty() {
    let s: String32 = Default::default();
    assert!(s.is_empty());
}

#[test]
fn equality_follows_content() {
    let a = String32::try_from_str("abc").unwrap();
    let b = String32::try_from_str("abc").unwrap();
    let c = String32::try_from_str("abd").unwrap();
    assert_eq!(a, b);
    assert!(a != c);
}

#[test]
fn width_conversions() {
    assert_eq!(string32::width::checked_u32(5), Some(5));
    assert_eq!(
        string32::width::checked_u32(u32::MAX as usize),
        Some(u32::MAX)
    );
    if usize::MAX > u32::MAX as usize {
        assert_eq!(string32::width::checked_u32(u32::MAX as usize + 1), None);
    }
    assert_eq!(string32::width::to_usize(7), 7);
}

#[test]
fn overflow_error_message() {
    let e = string32::TryFromStrError;
    assert_eq!(e.message(), "string too large for u32-indexed buffer");
}
