use inlinable_string::{InlinableString, InlineString, INLINE_STRING_CAPACITY};
use std::collections::hash_map::DefaultHasher;
use std::hash::{Hash, Hasher};
use std::iter::FromIterator;

// First, operations that overflow the inline capacity and move the string to
// the heap.

#[test]
fn lib_test_push_str() {
    let mut s = InlinableString::new();
    s.push_str("small");
    assert_eq!(s, "small");

    let long_str = "this is a really long string that is much larger than
                        INLINE_STRING_CAPACITY and so cannot be stored inline.";
    s.push_str(long_str);
    assert_eq!(s, String::from("small") + long_str);
}

#[test]
fn lib_test_push() {
    let mut s = InlinableString::new();

    for _ in 0..INLINE_STRING_CAPACITY {
        s.push('a');
    }
    s.push('a');

    assert_eq!(s, String::from_iter((0..INLINE_STRING_CAPACITY + 1).map(|_| 'a')));
}

#[test]
fn lib_test_insert() {
    let mut s = InlinableString::new();

    for _ in 0..INLINE_STRING_CAPACITY {
        s.insert(0, 'a');
    }
    s.insert(0, 'a');

    assert_eq!(s, String::from_iter((0..INLINE_STRING_CAPACITY + 1).map(|_| 'a')));
}

// Next, some general sanity tests.

#[test]
fn test_new() {
    let s = InlinableString::new();
    assert!(InlinableString::is_empty(&s));
}

#[test]
fn test_with_capacity() {
    let s = InlinableString::with_capacity(10);
    assert!(InlinableString::capacity(&s) >= 10);
}

#[test]
fn test_from_utf8() {
    let s = InlinableString::from_utf8(vec![104, 101, 108, 108, 111]);
    assert_eq!(s.unwrap(), "hello");
}

#[test]
fn test_from_utf16() {
    let v = &mut [0xD834, 0xDD1E, 0x006d, 0x0075, 0x0073, 0x0069, 0x0063];
    let s = InlinableString::from_utf16(v);
    assert_eq!(s.unwrap(), "𝄞music");
}

#[test]
fn test_from_utf16_lossy() {
    let input = b"Hello \xF0\x90\x80World";
    let output = InlinableString::from_utf8_lossy(input);
    assert_eq!(output, "Hello \u{FFFD}World");
}

#[test]
fn test_into_bytes() {
    let s = InlinableString::from("hello");
    let bytes = InlinableString::into_bytes(s);
    assert_eq!(bytes, [104, 101, 108, 108, 111]);
}

#[test]
fn test_capacity() {
    let s = InlinableString::with_capacity(100);
    assert!(InlinableString::capacity(&s) >= 100);
}

#[test]
fn test_reserve() {
    let mut s = InlinableString::new();
    InlinableString::reserve(&mut s, 100);
    assert!(InlinableString::capacity(&s) >= 100);
}

#[test]
fn test_reserve_exact() {
    let mut s = InlinableString::new();
    InlinableString::reserve_exact(&mut s, 100);
    assert!(InlinableString::capacity(&s) >= 100);
}

#[test]
fn test_shrink_to_fit() {
    let mut s = InlinableString::with_capacity(100);
    InlinableString::push_str(&mut s, "foo");
    InlinableString::shrink_to_fit(&mut s);
    assert_eq!(InlinableString::capacity(&s), INLINE_STRING_CAPACITY);
}

#[test]
fn test_truncate() {
    let mut s = InlinableString::from("foo");
    InlinableString::truncate(&mut s, 1);
    assert_eq!(s, "f");
}

#[test]
fn test_pop() {
    let mut s = InlinableString::from("foo");
    assert_eq!(InlinableString::pop(&mut s), Some('o'));
    assert_eq!(InlinableString::pop(&mut s), Some('o'));
    assert_eq!(InlinableString::pop(&mut s), Some('f'));
    assert_eq!(InlinableString::pop(&mut s), None);
}

// Moving to the heap, and what follows it.

fn is_inline(s: &InlinableString) -> bool {
    matches!(s, InlinableString::Inline(_))
}

#[test]
fn new_is_inline_with_the_inline_capacity() {
    let s = InlinableString::new();
    assert!(is_inline(&s));
    assert_eq!(s.capacity(), INLINE_STRING_CAPACITY);
    assert_eq!(s.len(), 0);
    assert_eq!(s, "");
    assert!(is_inline(&InlinableString::default()));
}

#[test]
fn with_capacity_picks_the_storage() {
    assert!(is_inline(&InlinableString::with_capacity(0)));
    assert!(is_inline(&InlinableString::with_capacity(32)));
    assert!(!is_inline(&InlinableString::with_capacity(33)));
    let s = InlinableString::with_capacity(33);
    assert!(s.is_empty());
    assert!(s.capacity() >= 33);
}

#[test]
fn from_picks_the_storage_by_length() {
    let short = InlinableString::from("0123456789abcdef0123456789abcdef");
    assert!(is_inline(&short));
    assert_eq!(short, "0123456789abcdef0123456789abcdef");
    let long = InlinableString::from("0123456789abcdef0123456789abcdefg");
    assert!(!is_inline(&long));
    assert_eq!(long, "0123456789abcdef0123456789abcdefg");
    assert_eq!(long.len(), 33);
}

#[test]
fn thirty_third_push_moves_to_the_heap() {
    let mut s = InlinableString::new();
    for i in 0..32 {
        s.push('x');
        assert!(is_inline(&s));
        assert_eq!(s.capacity(), 32);
        assert_eq!(s.len(), i + 1);
    }
    s.push('y');
    assert!(!is_inline(&s));
    assert_eq!(s, "xxxxxxxxxxxxxxxxxxxxxxxxxxxxxxxxy");
    assert_eq!(s.len(), 33);
    assert!(s.capacity() >= 33);
    assert_ne!(s.capacity(), INLINE_STRING_CAPACITY);
}

#[test]
fn once_on_the_heap_it_stays_there() {
    let mut s = InlinableString::from("0123456789abcdef0123456789abcdef");
    assert!(is_inline(&s));
    s.push('!');
    assert!(!is_inline(&s));
    assert_eq!(s.pop(), Some('!'));
    assert!(!is_inline(&s));
    assert_eq!(s.len(), 32);
    s.truncate(4);
    assert!(!is_inline(&s));
    assert_eq!(s.remove(0), '0');
    assert!(!is_inline(&s));
    s.push('a');
    s.push_str("bc");
    s.insert(0, '>');
    assert!(!is_inline(&s));
    assert_eq!(s, ">123abc");
    assert!(s.capacity() >= s.len());
    s.clear();
    assert!(!is_inline(&s));
    assert!(s.is_empty());
}

#[test]
fn push_of_a_wide_char_across_the_limit() {
    let mut s = InlinableString::from("0123456789abcdef0123456789abcd");
    s.push('\u{1d11e}');
    assert!(!is_inline(&s));
    assert_eq!(s, "0123456789abcdef0123456789abcd\u{1d11e}");
    assert_eq!(s.len(), 34);
}

#[test]
fn push_str_that_fits_stays_inline() {
    let mut s = InlinableString::from("0123456789abcdef");
    s.push_str("0123456789abcdef");
    assert!(is_inline(&s));
    assert_eq!(s, "0123456789abcdef0123456789abcdef");
    s.push_str("");
    assert!(is_inline(&s));
    s.push_str("g");
    assert!(!is_inline(&s));
    assert_eq!(s, "0123456789abcdef0123456789abcdefg");
}

#[test]
fn insert_across_the_limit_keeps_the_order() {
    let mut s = InlinableString::from("0123456789abcdef0123456789abcd\u{e9}");
    assert_eq!(s.len(), 32);
    s.insert(10, '\u{20ac}');
    assert!(!is_inline(&s));
    assert_eq!(s, "0123456789\u{20ac}abcdef0123456789abcd\u{e9}");
    let mut s = InlinableString::from("0123456789abcdef0123456789abcdef");
    s.insert(32, '!');
    assert_eq!(s, "0123456789abcdef0123456789abcdef!");
    let mut s = InlinableString::from("0123456789abcdef0123456789abcdef");
    s.insert(0, '!');
    assert_eq!(s, "!0123456789abcdef0123456789abcdef");
}

#[test]
fn push_then_pop_round_trip_in_every_storage() {
    for ch in ['a', '\u{e9}', '\u{20ac}', '\u{1d11e}'] {
        // inline before and after
        let mut s = InlinableString::from("caf\u{e9}");
        s.push(ch);
        assert_eq!(s.pop(), Some(ch));
        assert_eq!(s, "caf\u{e9}");
        assert_eq!(s.len(), 5);
        assert!(is_inline(&s));

        // on the heap before and after
        let long = "this text is longer than the inline capacity";
        let mut s = InlinableString::from(long);
        s.push(ch);
        assert_eq!(s.pop(), Some(ch));
        assert_eq!(s, long);
        assert_eq!(s.len(), long.len());

        // across the move to the heap
        let mut s = InlinableString::from("0123456789abcdef0123456789abcdef");
        s.push(ch);
        assert!(!is_inline(&s));
        assert_eq!(s.pop(), Some(ch));
        assert_eq!(s, "0123456789abcdef0123456789abcdef");
        assert_eq!(s.len(), 32);
    }
}

#[test]
fn shrink_to_fit_is_idempotent() {
    // a heap string that fits inline moves inline, once
    let mut s = InlinableString::with_capacity(100);
    s.push_str("foo");
    assert!(!is_inline(&s));
    s.shrink_to_fit();
    assert!(is_inline(&s));
    assert_eq!(s, "foo");
    let once = s.clone();
    s.shrink_to_fit();
    assert!(is_inline(&s));
    assert_eq!(s, once);
    assert_eq!(s.capacity(), INLINE_STRING_CAPACITY);

    // a heap string that does not fit stays on the heap
    let long = "this text is longer than the inline capacity";
    let mut s = InlinableString::with_capacity(100);
    s.push_str(long);
    s.shrink_to_fit();
    assert!(!is_inline(&s));
    assert_eq!(s, long);
    let capacity = s.capacity();
    s.shrink_to_fit();
    assert!(!is_inline(&s));
    assert_eq!(s, long);
    assert_eq!(s.capacity(), capacity);

    // exactly at the limit
    let mut s = InlinableString::with_capacity(100);
    s.push_str("0123456789abcdef0123456789abcdef");
    s.shrink_to_fit();
    assert!(is_inline(&s));
    assert_eq!(s, "0123456789abcdef0123456789abcdef");
}

#[test]
fn reserve_moves_only_when_it_must() {
    let mut s = InlinableString::from("hello");
    s.reserve(27);
    assert!(is_inline(&s));
    assert_eq!(s.capacity(), 32);
    s.reserve(28);
    assert!(!is_inline(&s));
    assert!(s.capacity() >= 33);
    assert_eq!(s, "hello");
    s.reserve(1000);
    assert!(s.capacity() >= 1005);
    assert_eq!(s, "hello");

    let mut s = InlinableString::from("hello");
    s.reserve_exact(27);
    assert!(is_inline(&s));
    s.reserve_exact(28);
    assert!(!is_inline(&s));
    assert!(s.capacity() >= 33);
    assert_eq!(s, "hello");
    s.reserve_exact(0);
    assert_eq!(s, "hello");
}

// The same operations on a string that is on the heap.

fn heap(text: &str) -> InlinableString {
    let mut s = InlinableString::with_capacity(64);
    s.push_str(text);
    assert!(!is_inline(&s));
    s
}

#[test]
fn heap_push_and_push_str() {
    let mut s = heap("a");
    s.push('\u{e9}');
    s.push_str("\u{20ac}\u{1d11e}");
    assert_eq!(s, "a\u{e9}\u{20ac}\u{1d11e}");
    assert_eq!(s.len(), 10);
    assert_eq!(s.as_bytes(), [0x61, 0xC3, 0xA9, 0xE2, 0x82, 0xAC, 0xF0, 0x9D, 0x84, 0x9E]);
}

#[test]
fn heap_insert_and_remove() {
    let mut s = heap("a\u{20ac}b");
    s.insert(1, '\u{e9}');
    assert_eq!(s, "a\u{e9}\u{20ac}b");
    s.insert(7, '!');
    assert_eq!(s, "a\u{e9}\u{20ac}b!");
    assert_eq!(s.remove(3), '\u{20ac}');
    assert_eq!(s, "a\u{e9}b!");
    assert_eq!(s.remove(0), 'a');
    assert_eq!(s, "\u{e9}b!");
}

#[test]
fn heap_pop_truncate_clear() {
    let mut s = heap("a\u{20ac}\u{1d11e}");
    assert_eq!(s.pop(), Some('\u{1d11e}'));
    assert_eq!(s, "a\u{20ac}");
    s.truncate(4);
    assert_eq!(s, "a\u{20ac}");
    s.truncate(1);
    assert_eq!(s, "a");
    assert_eq!(s.pop(), Some('a'));
    assert_eq!(s.pop(), None);
    assert!(s.is_empty());
    s.push_str("again");
    s.clear();
    assert_eq!(s, "");
    assert_eq!(s.len(), 0);
}

#[test]
fn heap_views() {
    let s = heap("h\u{e9}llo");
    assert_eq!(s.as_str(), "h\u{e9}llo");
    assert_eq!(s.as_bytes(), "h\u{e9}llo".as_bytes());
    assert_eq!(s.len(), 6);
    assert!(!s.is_empty());
    assert_eq!(s.clone().into_bytes(), "h\u{e9}llo".as_bytes());
    let boundaries: Vec<usize> = (0..=8).filter(|&i| s.is_char_boundary(i)).collect();
    assert_eq!(boundaries, [0, 1, 3, 4, 5, 6]);
}

#[test]
fn inline_views() {
    let s = InlinableString::from("h\u{e9}llo");
    assert!(is_inline(&s));
    assert_eq!(s.as_str(), "h\u{e9}llo");
    assert_eq!(s.as_bytes(), "h\u{e9}llo".as_bytes());
    assert_eq!(s.len(), 6);
    assert!(!s.is_empty());
    assert_eq!(s.clone().into_bytes(), "h\u{e9}llo".as_bytes());
    let boundaries: Vec<usize> = (0..=8).filter(|&i| s.is_char_boundary(i)).collect();
    assert_eq!(boundaries, [0, 1, 3, 4, 5, 6]);
}

#[test]
fn inline_insert_remove_truncate() {
    let mut s = InlinableString::from("a\u{20ac}b");
    s.insert(1, '\u{e9}');
    assert_eq!(s, "a\u{e9}\u{20ac}b");
    assert_eq!(s.remove(3), '\u{20ac}');
    assert_eq!(s, "a\u{e9}b");
    s.truncate(3);
    assert_eq!(s, "a\u{e9}");
    s.clear();
    assert!(s.is_empty());
    assert!(is_inline(&s));
}

#[test]
fn offset_inside_a_character_is_no_boundary_in_either_storage() {
    for s in [InlinableString::from("a\u{20ac}b"), heap("a\u{20ac}b")] {
        assert!(s.is_char_boundary(1));
        assert!(!s.is_char_boundary(2));
        assert!(!s.is_char_boundary(3));
        assert!(s.is_char_boundary(4));
        assert!(s.is_char_boundary(5));
        assert!(!s.is_char_boundary(6));
    }
}

// Construction from encoded text.

#[test]
fn from_utf8_rejects_invalid_bytes() {
    assert!(InlinableString::from_utf8(vec![0x61, 0x80]).is_err());
    assert!(InlinableString::from_utf8(vec![0xE2, 0x82]).is_err());
    assert!(InlinableString::from_utf8(vec![0xED, 0xA0, 0x80]).is_err());
    assert!(InlinableString::from_utf8(vec![0xC0, 0x80]).is_err());
    assert!(InlinableString::from_utf8(vec![0xF4, 0x90, 0x80, 0x80]).is_err());
    let ok = InlinableString::from_utf8(vec![0x61, 0xC3, 0xA9, 0xE2, 0x82, 0xAC]).unwrap();
    assert_eq!(ok, "a\u{e9}\u{20ac}");
    assert!(!is_inline(&ok));
    assert_eq!(InlinableString::from_utf8(Vec::new()).unwrap(), "");
}

#[test]
fn from_utf16_rejects_a_lone_surrogate() {
    assert!(InlinableString::from_utf16(&[0xD834, 0x006d]).is_err());
    assert_eq!(InlinableString::from_utf16(&[0x0068, 0x0069]).unwrap(), "hi");
}

#[test]
fn from_utf16_lossy_replaces_a_lone_surrogate() {
    let v = &[0xD834, 0xDD1E, 0x006d, 0x0075, 0xD800, 0x0069, 0x0063];
    assert_eq!(InlinableString::from_utf16_lossy(v), "\u{1d11e}mu\u{fffd}ic");
    assert!(!is_inline(&InlinableString::from_utf16_lossy(v)));
}

#[test]
fn from_utf8_lossy_keeps_valid_text() {
    assert_eq!(InlinableString::from_utf8_lossy("h\u{e9}llo".as_bytes()), "h\u{e9}llo");
    assert_eq!(InlinableString::from_utf8_lossy(b""), "");
}

// Folding iterators into a string.

#[test]
fn extend_with_chars() {
    let mut s = InlinableString::from("ab");
    s.extend("c\u{e9}".chars());
    assert_eq!(s, "abc\u{e9}");
    assert!(is_inline(&s));
    s.extend(std::iter::repeat('x').take(40));
    assert_eq!(s.len(), 45);
    assert!(!is_inline(&s));
    assert_eq!(s, String::from("abc\u{e9}") + &"x".repeat(40));
    s.extend("".chars());
    assert_eq!(s.len(), 45);
}

#[test]
fn extend_with_strs() {
    let mut s = InlinableString::from("ab");
    s.extend_from_strs(["cd", "", "\u{20ac}"].into_iter());
    assert_eq!(s, "abcd\u{20ac}");
    s.extend_from_strs(["0123456789abcdef", "0123456789abcdef"].into_iter());
    assert!(!is_inline(&s));
    assert_eq!(s, "abcd\u{20ac}0123456789abcdef0123456789abcdef");
}

#[test]
fn collect_from_iterators() {
    let s = InlinableString::from_iter("h\u{e9}llo".chars());
    assert_eq!(s, "h\u{e9}llo");
    let s = InlinableString::from_iter((0..33).map(|_| 'a'));
    assert_eq!(s, "a".repeat(33));
    assert!(!is_inline(&s));
    let s = InlinableString::from_iter_strs(["foo", "bar", "baz"].into_iter());
    assert_eq!(s, "foobarbaz");
    let s = InlinableString::from_iter_strs(std::iter::empty());
    assert_eq!(s, "");
}

// Seen as `str`, compared and hashed by text.

#[test]
fn deref_gives_the_str_methods() {
    let s = InlinableString::from("h\u{e9}llo");
    assert_eq!(s.chars().count(), 5);
    assert_eq!(&s[0..3], "h\u{e9}");
    assert!(s.starts_with("h"));
    assert_eq!(&*heap("h\u{e9}llo"), "h\u{e9}llo");
}

#[test]
fn add_appends() {
    let s = InlinableString::from("foo") + "bar";
    assert_eq!(s, "foobar");
    let s = s + "0123456789abcdef0123456789abcdef";
    assert_eq!(s, "foobar0123456789abcdef0123456789abcdef");
    assert!(!is_inline(&s));
}

#[test]
fn equality_ignores_the_storage() {
    let inline = InlinableString::from("hello");
    let on_heap = heap("hello");
    assert!(is_inline(&inline));
    assert_eq!(inline, on_heap);
    assert_eq!(on_heap, inline);
    assert_eq!(inline, "hello");
    assert_eq!(on_heap, "hello");
    assert_eq!(inline, *"hello");
    assert_eq!(inline, String::from("hello"));
    assert_eq!(on_heap, InlineString::from("hello"));
    assert_ne!(inline, heap("hellp"));
    assert_ne!(inline, heap("hell"));
    assert_ne!(on_heap, "hello!");
}

fn hash_of<T: Hash + ?Sized>(value: &T) -> u64 {
    let mut hasher = DefaultHasher::new();
    value.hash(&mut hasher);
    hasher.finish()
}

#[test]
fn hash_ignores_the_storage() {
    let inline = InlinableString::from("hello");
    let on_heap = heap("hello");
    assert_eq!(hash_of(&inline), hash_of(&on_heap));
    assert_eq!(hash_of(&inline), hash_of("hello"));
    assert_ne!(hash_of(&inline), hash_of(&heap("hellp")));
}

#[test]
fn clone_keeps_text_and_storage() {
    let inline = InlinableString::from("hello");
    let copy = inline.clone();
    assert!(is_inline(&copy));
    assert_eq!(copy, "hello");
    let on_heap = heap("hello");
    let copy = on_heap.clone();
    assert!(!is_inline(&copy));
    assert_eq!(copy, "hello");
}

#[test]
fn decoded_text_goes_on_the_heap() {
    let ok: Result<String, u8> = Ok(String::from("hi"));
    let s = InlinableString::on_heap(ok).unwrap();
    assert!(!is_inline(&s));
    assert_eq!(s, "hi");
    let err: Result<String, u8> = Err(7);
    assert_eq!(InlinableString::on_heap(err), Err(7));
}
