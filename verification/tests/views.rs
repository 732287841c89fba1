use string32::CharIndices;
use string32::Str32;
use string32::String32;

#[test]
fn char_index_sequence() {
    let v = Str32::try_from_str("te\u{1F642}st").unwrap();
    let pairs = v.char_indices();
    assert_eq!(
        pairs,
        vec![(0u32, 't'), (1, 'e'), (2, '\u{1F642}'), (6, 's'), (7, 't')]
    );
}

#[test]
fn char_index_cursor() {
    let v = Str32::try_from_str("te\u{1F642}st").unwrap();
    let mut it = CharIndices::new(v);
    assert_eq!(it.next(), Some((0u32, 't')));
    assert_eq!(it.next(), Some((1u32, 'e')));
    assert_eq!(it.next(), Some((2u32, '\u{1F642}')));
    assert_eq!(it.next(), Some((6u32, 's')));
    assert_eq!(it.next(), Some((7u32, 't')));
    assert_eq!(it.next(), None);
    assert_eq!(it.next(), None);
}

#[test]
fn boundaries_inside_multibyte_character() {
    let v = Str32::try_from_str("te\u{1F642}st").unwrap();
    assert!(v.is_char_boundary(0));
    assert!(v.is_char_boundary(2));
    assert!(!v.is_char_boundary(3));
    assert!(!v.is_char_boundary(4));
    assert!(!v.is_char_boundary(5));
    assert!(v.is_char_boundary(6));
    assert!(v.is_char_boundary(8));
    assert!(!v.is_char_boundary(9));
}

#[test]
fn split_at_offset() {
    let v = Str32::try_from_str("123abc").unwrap();
    let (a, b) = v.split_at(3);
    assert_eq!(a.as_str(), "123");
    assert_eq!(b.as_str(), "abc");
    let (c, d) = v.split_at(0);
    assert_eq!(c.as_str(), "");
    assert_eq!(d.as_str(), "123abc");
    let (e, f) = v.split_at(6);
    assert_eq!(e.as_str(), "123abc");
    assert_eq!(f.as_str(), "");
}

#[test]
fn chars_and_bytes() {
    let v = Str32::try_from_str("te\u{1F642}").unwrap();
    assert_eq!(v.chars(), vec!['t', 'e', '\u{1F642}']);
    assert_eq!(v.bytes(), vec![0x74u8, 0x65, 0xF0, 0x9F, 0x99, 0x82]);
    assert_eq!(v.as_bytes(), &[0x74u8, 0x65, 0xF0, 0x9F, 0x99, 0x82]);
}

#[test]
fn trims_remove_whitespace() {
    let v = Str32::try_from_str(" \t hi there\n ").unwrap();
    assert_eq!(v.trim_start().as_str(), "hi there\n ");
    assert_eq!(v.trim_end().as_str(), " \t hi there");
    assert_eq!(v.trim().as_str(), "hi there");
    let w = Str32::try_from_str(" \n\t ").unwrap();
    assert_eq!(w.trim().as_str(), "");
    assert_eq!(w.trim_start().as_str(), "");
    assert_eq!(w.trim_end().as_str(), "");
}

#[test]
fn lines_split_at_line_feeds() {
    let v = Str32::try_from_str("alpha\r\nbeta\ngamma").unwrap();
    let got: Vec<&str> = v.lines().iter().map(|t| t.as_str()).collect();
    assert_eq!(got, vec!["alpha", "beta", "gamma"]);

    let w = Str32::try_from_str("x\n").unwrap();
    let got: Vec<&str> = w.lines().iter().map(|t| t.as_str()).collect();
    assert_eq!(got, vec!["x"]);

    let z = Str32::try_from_str("a\n\nb").unwrap();
    let got: Vec<&str> = z.lines().iter().map(|t| t.as_str()).collect();
    assert_eq!(got, vec!["a", "", "b"]);

    let cr = Str32::try_from_str("a\rb").unwrap();
    let got: Vec<&str> = cr.lines().iter().map(|t| t.as_str()).collect();
    assert_eq!(got, vec!["a\rb"]);
}

#[test]
fn whitespace_words() {
    let v = Str32::try_from_str(" one\ttwo  three \n").unwrap();
    let got: Vec<&str> = v.split_whitespace().iter().map(|t| t.as_str()).collect();
    assert_eq!(got, vec!["one", "two", "three"]);
    let got: Vec<&str> = v
        .split_ascii_whitespace()
        .iter()
        .map(|t| t.as_str())
        .collect();
    assert_eq!(got, vec!["one", "two", "three"]);

    let nb = Str32::try_from_str("a\u{a0}b").unwrap();
    let got: Vec<&str> = nb.split_whitespace().iter().map(|t| t.as_str()).collect();
    assert_eq!(got, vec!["a", "b"]);
    let got: Vec<&str> = nb
        .split_ascii_whitespace()
        .iter()
        .map(|t| t.as_str())
        .collect();
    assert_eq!(got, vec!["a\u{a0}b"]);
}

#[test]
fn ascii_case_comparisons() {
    let a = Str32::try_from_str("aBc").unwrap();
    let b = Str32::try_from_str("AbC").unwrap();
    let c = Str32::try_from_str("abd").unwrap();
    assert!(a.eq_ignore_ascii_case(&b));
    assert!(!a.eq_ignore_ascii_case(&c));
    assert_eq!(a.to_ascii_lowercase().as_str(), "abc");
    assert_eq!(a.to_ascii_uppercase().as_str(), "ABC");
}

#[test]
fn unicode_case_conversions() {
    let v = Str32::try_from_str("HeLLo \u{0158}").unwrap();
    assert_eq!(v.to_lowercase().unwrap().as_str(), "hello \u{0159}");
    assert_eq!(v.to_uppercase().unwrap().as_str(), "HELLO \u{0158}");
}

#[test]
fn repeat_concatenates_copies() {
    let v = Str32::try_from_str("ab").unwrap();
    assert_eq!(v.repeat(3).as_str(), "ababab");
    assert_eq!(v.repeat(0).as_str(), "");
}

#[test]
fn view_equality_follows_content() {
    let a = Str32::try_from_str("abc").unwrap();
    let b = Str32::try_from_str("abc").unwrap();
    let c = Str32::try_from_str("ab\u{0159}").unwrap();
    assert_eq!(a, b);
    assert!(a != c);
    assert_eq!(a.to_string32().as_str(), "abc");
}

#[test]
fn owned_footprint_no_larger_than_native() {
    assert!(std::mem::size_of::<String32>() <= std::mem::size_of::<String>());
    assert_eq!(std::mem::size_of::<Str32>(), std::mem::size_of::<&str>());
    assert_eq!(std::mem::align_of::<Str32>(), std::mem::align_of::<&str>());
}
