//! Specifications assumed of standard-library functions that the verified
//! code calls.  Nothing in this file is proved: each contract restates what
//! the standard library documents.

use crate::utf8::{char_at, with_inserted, with_removed};
use vstd::prelude::*;
use vstd::string::StringSliceAdditionalSpecFns;
use vstd::utf8::*;

verus! {

/// `char::from_u32` yields the character with the given scalar value, and
/// `None` exactly when the number is not a Unicode scalar value (a surrogate,
/// or above `0x10FFFF`).
pub assume_specification[ char::from_u32 ](i: u32) -> (r: Option<char>)
    ensures
        is_scalar(i) ==> r == Some(i as char),
        !is_scalar(i) ==> r is None,
;

/// The error of `core::str::from_utf8`, carried through unopened.
#[verifier::external_type_specification]
#[verifier::external_body]
pub struct ExUtf8Error(core::str::Utf8Error);

/// `core::str::from_utf8` succeeds exactly on byte slices that are valid
/// UTF-8, and the string slice it then returns consists of those same bytes.
pub assume_specification<'a>[ core::str::from_utf8 ](v: &'a [u8]) -> (r: Result<
    &'a str,
    core::str::Utf8Error,
>)
    ensures
        r is Ok <==> valid_utf8(v@),
        r is Ok ==> r->Ok_0.spec_bytes() == v@,
;

/// `String::with_capacity` returns an empty string.  It panics when asked for
/// more than `isize::MAX` bytes, so such requests are excluded.
pub assume_specification[ String::with_capacity ](capacity: usize) -> (s: String)
    requires
        capacity <= isize::MAX,
    ensures
        s@ == Seq::<char>::empty(),
;

/// `String::capacity` is never less than the string's length in bytes.
pub assume_specification[ String::capacity ](s: &String) -> (c: usize)
    ensures
        c >= encode_utf8(s@).len(),
;

/// `String::reserve` leaves the text as it is.  It panics when the requested
/// total exceeds `isize::MAX` bytes, so such requests are excluded.
pub assume_specification[ String::reserve ](s: &mut String, additional: usize)
    requires
        encode_utf8(old(s)@).len() + additional <= isize::MAX,
    ensures
        final(s)@ == old(s)@,
;

/// `String::reserve_exact` leaves the text as it is.  It panics when the
/// requested total exceeds `isize::MAX` bytes, so such requests are excluded.
pub assume_specification[ String::reserve_exact ](s: &mut String, additional: usize)
    requires
        encode_utf8(old(s)@).len() + additional <= isize::MAX,
    ensures
        final(s)@ == old(s)@,
;

/// `String::shrink_to_fit` leaves the text as it is.
pub assume_specification[ String::shrink_to_fit ](s: &mut String)
    ensures
        final(s)@ == old(s)@,
;

/// `String::push` appends the character to the end of the text.
pub assume_specification[ String::push ](s: &mut String, ch: char)
    ensures
        final(s)@ == old(s)@.push(ch),
;

/// `String::push_str` appends the given text to the end of the string.
pub assume_specification[ String::push_str ](s: &mut String, string: &str)
    ensures
        final(s)@ == old(s)@ + string@,
;

/// `String::insert` splices the character's encoding in at byte position
/// `idx`.  It panics unless `idx` lies on a character boundary, so other
/// positions are excluded.
pub assume_specification[ String::insert ](s: &mut String, idx: usize, ch: char)
    requires
        is_char_boundary(encode_utf8(old(s)@), idx as int),
    ensures
        encode_utf8(final(s)@) == with_inserted(encode_utf8(old(s)@), idx as int, ch),
;

/// `String::remove` cuts out the character that starts at byte position `idx`
/// and returns it.  It panics unless `idx` is the start of a character, so
/// other positions are excluded.
pub assume_specification[ String::remove ](s: &mut String, idx: usize) -> (ch: char)
    requires
        is_char_boundary(encode_utf8(old(s)@), idx as int),
        idx < encode_utf8(old(s)@).len(),
    ensures
        ch == char_at(encode_utf8(old(s)@), idx as int),
        encode_utf8(final(s)@) == with_removed(encode_utf8(old(s)@), idx as int),
;

/// `String::pop` removes the last character and returns it, or returns
/// `None` and changes nothing when the string is empty.
pub assume_specification[ String::pop ](s: &mut String) -> (r: Option<char>)
    ensures
        old(s)@.len() == 0 ==> r is None && final(s)@ == old(s)@,
        old(s)@.len() > 0 ==> r == Some(old(s)@.last()) && final(s)@ == old(s)@.drop_last(),
;

/// `String::truncate` keeps the first `new_len` bytes, and has no effect when
/// `new_len` is not less than the current length.  It panics when `new_len`
/// falls inside a character, so such lengths are excluded.
pub assume_specification[ String::truncate ](s: &mut String, new_len: usize)
    requires
        new_len <= encode_utf8(old(s)@).len() ==> is_char_boundary(
            encode_utf8(old(s)@),
            new_len as int,
        ),
    ensures
        new_len <= encode_utf8(old(s)@).len() ==> encode_utf8(final(s)@) == encode_utf8(
            old(s)@,
        ).subrange(0, new_len as int),
        new_len > encode_utf8(old(s)@).len() ==> final(s)@ == old(s)@,
;

/// `String::clear` removes all of the text.
pub assume_specification[ String::clear ](s: &mut String)
    ensures
        final(s)@ == Seq::<char>::empty(),
;

/// `String::into_bytes` hands out the UTF-8 encoding of the text.
pub assume_specification[ String::into_bytes ](s: String) -> (v: Vec<u8>)
    ensures
        v@ == encode_utf8(s@),
;

/// The error of `String::from_utf8`, carried through unopened.
#[verifier::external_type_specification]
#[verifier::external_body]
pub struct ExFromUtf8Error(std::string::FromUtf8Error);

/// `String::from_utf8` succeeds exactly on byte vectors that are valid UTF-8,
/// and the string it then returns consists of those same bytes.
pub assume_specification[ String::from_utf8 ](vec: Vec<u8>) -> (r: Result<
    String,
    std::string::FromUtf8Error,
>)
    ensures
        r is Ok <==> valid_utf8(vec@),
        r is Ok ==> encode_utf8(r->Ok_0@) == vec@,
;

/// The error of `String::from_utf16`, carried through unopened.
#[verifier::external_type_specification]
#[verifier::external_body]
pub struct ExFromUtf16Error(std::string::FromUtf16Error);

/// The text that `String::from_utf16` decodes from the given UTF-16 code
/// units, or `None` where it reports an error.
pub uninterp spec fn utf16_decoded(units: Seq<u16>) -> Option<Seq<char>>;

/// The text that `String::from_utf16_lossy` decodes from the given UTF-16
/// code units.
pub uninterp spec fn utf16_decoded_lossy(units: Seq<u16>) -> Seq<char>;

/// The text that `String::from_utf8_lossy` decodes from the given bytes.
pub uninterp spec fn utf8_decoded_lossy(bytes: Seq<u8>) -> Seq<char>;

/// `String::from_utf16` decodes UTF-16 code units, and fails when they hold
/// invalid data.  What it decodes depends on the code units alone.
pub assume_specification[ String::from_utf16 ](v: &[u16]) -> (r: Result<
    String,
    std::string::FromUtf16Error,
>)
    ensures
        r is Ok <==> utf16_decoded(v@) is Some,
        r is Ok ==> Some(r->Ok_0@) == utf16_decoded(v@),
;

/// `String::from_utf16_lossy` decodes UTF-16 code units, putting U+FFFD in
/// place of invalid data.  What it decodes depends on the code units alone.
pub assume_specification[ String::from_utf16_lossy ](v: &[u16]) -> (s: String)
    ensures
        s@ == utf16_decoded_lossy(v@),
;

/// `String::from_utf8_lossy` decodes bytes as UTF-8, putting U+FFFD in place
/// of invalid sequences; valid UTF-8 comes back as it is.  What it decodes
/// depends on the bytes alone.
pub assume_specification<'a>[ String::from_utf8_lossy ](v: &'a [u8]) -> (s: std::borrow::Cow<
    'a,
    str,
>)
    ensures
        s@ == utf8_decoded_lossy(v@),
        valid_utf8(v@) ==> s@ == decode_utf8(v@),
;

/// `Iterator::size_hint`: the lower bound that the iterator reports for the
/// number of items it has left.  Nothing is promised of it, since an iterator
/// is free to report any number.
#[verifier::external_body]
pub(crate) fn size_hint_lower<I: Iterator>(iter: &I) -> (n: usize) {
    iter.size_hint().0
}

/// `<str as Hash>::hash` feeds the text into the hasher.  What the hasher
/// makes of it is the hasher's own business, so nothing is stated.
#[verifier::external_body]
pub(crate) fn hash_str<H: std::hash::Hasher>(text: &str, state: &mut H) {
    std::hash::Hash::hash(text, state)
}

} // verus!
