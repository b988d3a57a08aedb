//! Laws that relate the operations of the two string types to one another.
//!
//! Each law speaks of the states before and after the operations it names:
//! its hypotheses are what those operations guarantee of their results, and
//! its conclusion is what follows for the states at the two ends.

use crate::inlinable::InlinableString;
use crate::inline_string::{InlineString, INLINE_STRING_CAPACITY};
use crate::utf8::{
    char_at, char_bytes, lemma_char_at_boundary, lemma_char_bytes, lemma_concat_boundary,
    lemma_decode_concat, lemma_split_chars, width_at, with_inserted, with_removed,
};
use vstd::prelude::*;
use vstd::string::StringSliceAdditionalSpecFns;
use vstd::utf8::*;

verus! {

/// Text that fits the inline capacity survives being stored in an
/// `InlineString` and read back: if `built` is what `InlineString::from`
/// makes of `text`, and `read` is what `as_str` then returns, then `read` is
/// exactly `text`, character for character and byte for byte.
pub proof fn lemma_from_then_as_str(text: &str, built: InlineString, read: &str)
    requires
        text.spec_bytes().len() <= INLINE_STRING_CAPACITY,
        built.spec_bytes() == text.spec_bytes(),
        built@ == text@,
        read.spec_bytes() == built.spec_bytes(),
        read@ == built@,
    ensures
        read@ == text@,
        read.spec_bytes() == text.spec_bytes(),
{
}

/// Pushing a character and then popping gives that character back and
/// restores the text and its length, whether the string was inline or on the
/// heap, and also when the push moved it to the heap: if `pushed` is what
/// `push(ch)` makes of `before`, and `pop` on it returns `r` and leaves
/// `popped`, then `r` is `ch` and `popped` holds what `before` held.
pub proof fn lemma_push_then_pop(
    before: InlinableString,
    ch: char,
    pushed: InlinableString,
    r: Option<char>,
    popped: InlinableString,
)
    requires
        pushed.spec_bytes() == before.spec_bytes() + char_bytes(ch),
        pushed@ == before@.push(ch),
        pushed@.len() == 0 ==> r is None && popped@ == pushed@,
        pushed@.len() > 0 ==> r == Some(pushed@.last()),
        pushed@.len() > 0 ==> popped@ == pushed@.drop_last(),
        pushed@.len() > 0 ==> popped.spec_bytes() + char_bytes(pushed@.last())
            == pushed.spec_bytes(),
    ensures
        r == Some(ch),
        popped@ == before@,
        popped.spec_bytes() == before.spec_bytes(),
        popped.spec_bytes().len() == before.spec_bytes().len(),
{
    let tail = char_bytes(ch);
    assert((before.spec_bytes() + tail).subrange(0, before.spec_bytes().len() as int)
        =~= before.spec_bytes());
}

/// The same round trip on the inline buffer alone, for a push that found
/// room: if `pushed` is what a successful `push(ch)` makes of `before`, and
/// `pop` on it returns `r` and leaves `popped`, then `r` is `ch` and `popped`
/// holds what `before` held.
pub proof fn lemma_inline_push_then_pop(
    before: InlineString,
    ch: char,
    pushed: InlineString,
    r: Option<char>,
    popped: InlineString,
)
    requires
        before.spec_bytes().len() + char_bytes(ch).len() <= INLINE_STRING_CAPACITY,
        pushed.spec_bytes() == before.spec_bytes() + char_bytes(ch),
        pushed@ == before@.push(ch),
        pushed@.len() == 0 ==> r is None && popped == pushed,
        pushed@.len() > 0 ==> r == Some(pushed@.last()),
        pushed@.len() > 0 ==> popped@ == pushed@.drop_last(),
        pushed@.len() > 0 ==> popped.spec_bytes() + char_bytes(pushed@.last())
            == pushed.spec_bytes(),
    ensures
        r == Some(ch),
        popped@ == before@,
        popped.spec_bytes() == before.spec_bytes(),
        popped.spec_bytes().len() == before.spec_bytes().len(),
{
    let tail = char_bytes(ch);
    assert((before.spec_bytes() + tail).subrange(0, before.spec_bytes().len() as int)
        =~= before.spec_bytes());
}

/// A string moves to the heap exactly when its text first outgrows the
/// inline capacity, and once there it stays: after two pushes in a row,
/// starting from `start`, the string is inline exactly if it was inline at
/// the start and all of the text still fits.
pub proof fn lemma_promotion_follows_length(
    start: InlinableString,
    first: char,
    middle: InlinableString,
    second: char,
    end: InlinableString,
)
    requires
        middle.spec_bytes() == start.spec_bytes() + char_bytes(first),
        middle.is_inline() <==> start.is_inline() && start.spec_bytes().len() + char_bytes(
            first,
        ).len() <= INLINE_STRING_CAPACITY,
        end.spec_bytes() == middle.spec_bytes() + char_bytes(second),
        end.is_inline() <==> middle.is_inline() && middle.spec_bytes().len() + char_bytes(
            second,
        ).len() <= INLINE_STRING_CAPACITY,
    ensures
        end.is_inline() <==> start.is_inline() && end.spec_bytes().len()
            <= INLINE_STRING_CAPACITY,
        !middle.is_inline() ==> !end.is_inline(),
{
}

/// Once a push has moved a string to the heap, the capacity it reports is no
/// longer the inline constant but a larger number that covers the text: if
/// `pushed` is what `push(ch)` makes of the inline string `before`, and it is
/// on the heap, then the `capacity` it reports exceeds the inline capacity.
pub proof fn lemma_capacity_after_promotion(
    before: InlinableString,
    ch: char,
    pushed: InlinableString,
    capacity: usize,
)
    requires
        before.is_inline(),
        pushed.spec_bytes() == before.spec_bytes() + char_bytes(ch),
        pushed.is_inline() <==> before.is_inline() && before.spec_bytes().len() + char_bytes(
            ch,
        ).len() <= INLINE_STRING_CAPACITY,
        !pushed.is_inline(),
        pushed.is_inline() ==> capacity == INLINE_STRING_CAPACITY,
        capacity >= pushed.spec_bytes().len(),
    ensures
        capacity > INLINE_STRING_CAPACITY,
        capacity >= pushed.spec_bytes().len(),
{
}

/// An offset that falls strictly inside the encoding of a character is not
/// a character boundary, so `insert`, `remove` and `truncate`, which demand a
/// boundary, do not admit it: if a character starts at `start`, no offset
/// after `start` and before the end of that character is a boundary.
pub proof fn lemma_inside_a_character_is_no_boundary(bytes: Seq<u8>, start: int, idx: int)
    requires
        valid_utf8(bytes),
        is_char_boundary(bytes, start),
        start < bytes.len(),
        start < idx < start + width_at(bytes, start),
    ensures
        !is_char_boundary(bytes, idx),
{
    lemma_char_at_boundary(bytes, start);
    is_char_boundary_iff_not_is_continuation_byte(bytes, idx);
}

/// Inserting a character and then removing it at the same offset gives the
/// character back and restores the bytes: what `remove` makes of what
/// `insert` made is what was there before the insertion.
pub proof fn lemma_insert_then_remove(bytes: Seq<u8>, idx: int, ch: char)
    requires
        valid_utf8(bytes),
        is_char_boundary(bytes, idx),
    ensures
        valid_utf8(with_inserted(bytes, idx, ch)),
        is_char_boundary(with_inserted(bytes, idx, ch), idx),
        idx < with_inserted(bytes, idx, ch).len(),
        char_at(with_inserted(bytes, idx, ch), idx) == ch,
        with_removed(with_inserted(bytes, idx, ch), idx) == bytes,
{
    lemma_split_chars(bytes, idx);
    lemma_char_bytes(ch);
    let left = bytes.subrange(0, idx);
    let right = bytes.subrange(idx, bytes.len() as int);
    let enc = char_bytes(ch);
    let grown = with_inserted(bytes, idx, ch);
    lemma_decode_concat(enc, right);
    lemma_concat_boundary(left, enc + right);
    assert(left + (enc + right) =~= grown);
    lemma_char_at_boundary(grown, idx);
    assert(decode_utf8(enc + right)[0] == ch);
}

/// Shrinking is idempotent: if `once` is what `shrink_to_fit` makes of
/// `before`, and `twice` is what it makes of `once`, then `twice` stores the
/// same text in the same way as `once`; and where the first call moved the
/// text inline, the second leaves the very same value.
pub proof fn lemma_shrink_to_fit_idempotent(
    before: InlinableString,
    once: InlinableString,
    twice: InlinableString,
)
    requires
        InlinableString::shrunk(before, once),
        InlinableString::shrunk(once, twice),
    ensures
        twice.spec_bytes() == once.spec_bytes(),
        twice@ == once@,
        twice.is_inline() == once.is_inline(),
        once.is_inline() ==> twice == once,
{
}

} // verus!
