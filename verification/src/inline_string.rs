//! A short UTF-8 string held in a fixed inline buffer, with no heap
//! allocation.  It can never be longer than [`INLINE_STRING_CAPACITY`] bytes,
//! so the operations that grow it report failure instead of growing.

use crate::utf8::{
    char_at, char_bytes, chars_before, decode_char_at, encode_char, is_boundary, last_char_start,
    lemma_char_at_boundary, lemma_char_bytes, lemma_decode_concat, lemma_insert_chars,
    lemma_remove_chars, lemma_split_chars, utf8_width, with_inserted, with_removed,
};
use vstd::prelude::*;
use vstd::slice::slice_subrange;
use vstd::string::StringSliceAdditionalSpecFns;
use vstd::utf8::*;

verus! {

/// The capacity (in bytes) of inline storage for small strings.
/// `InlineString::len()` is never larger than this.
pub const INLINE_STRING_CAPACITY: usize = 32;

/// A short UTF-8 string that uses inline storage and does no heap allocation.
#[derive(Debug)]
pub struct InlineString {
    length: usize,
    bytes: [u8; INLINE_STRING_CAPACITY],
}

/// The error returned when there is not enough space in an `InlineString` for
/// the requested operation.
#[derive(Debug, PartialEq)]
pub struct NotEnoughSpaceError;

/// Copies the first `count` bytes of `src` into `buf`, starting at offset
/// `at`; every other byte of `buf` stays as it was.
fn write_at(buf: &mut [u8; INLINE_STRING_CAPACITY], at: usize, src: &[u8], count: usize)
    requires
        at + count <= INLINE_STRING_CAPACITY,
        count <= src@.len(),
    ensures
        forall|j: int| 0 <= j < count ==> final(buf)@[at + j] == src@[j],
        forall|j: int|
            0 <= j < INLINE_STRING_CAPACITY && !(at <= j < at + count) ==> final(buf)@[j] == old(
                buf,
            )@[j],
{
    let mut i: usize = 0;
    while i < count
        invariant
            i <= count,
            at + count <= INLINE_STRING_CAPACITY,
            count <= src@.len(),
            forall|j: int| 0 <= j < i ==> buf@[at + j] == src@[j],
            forall|j: int|
                0 <= j < INLINE_STRING_CAPACITY && !(at <= j < at + i) ==> buf@[j] == old(buf)@[j],
        decreases count - i,
    {
        buf[at + i] = src[i];
        i = i + 1;
    }
}

/// Moves the bytes at `[from, end)` up by `by` places, working from the last
/// byte down so that an overlapping destination never clobbers bytes still to
/// be moved.  Bytes below `from + by` and at or above `end + by` stay as they
/// were.
fn shift_right(buf: &mut [u8; INLINE_STRING_CAPACITY], from: usize, end: usize, by: usize)
    requires
        from <= end,
        end + by <= INLINE_STRING_CAPACITY,
    ensures
        forall|j: int| from <= j < end ==> final(buf)@[j + by] == old(buf)@[j],
        forall|j: int|
            0 <= j < INLINE_STRING_CAPACITY && !(from + by <= j < end + by) ==> final(buf)@[j]
                == old(buf)@[j],
{
    let mut i: usize = end;
    while i > from
        invariant
            from <= i <= end,
            end + by <= INLINE_STRING_CAPACITY,
            forall|j: int| i <= j < end ==> buf@[j + by] == old(buf)@[j],
            forall|j: int|
                0 <= j < INLINE_STRING_CAPACITY && !(i + by <= j < end + by) ==> buf@[j] == old(
                    buf,
                )@[j],
        decreases i,
    {
        i = i - 1;
        buf[i + by] = buf[i];
    }
}

/// Moves the bytes at `[from, end)` down by `by` places, working from the
/// first byte up.  Bytes below `from - by` and at or above `end - by` stay as
/// they were.
fn shift_left(buf: &mut [u8; INLINE_STRING_CAPACITY], from: usize, end: usize, by: usize)
    requires
        by <= from <= end <= INLINE_STRING_CAPACITY,
    ensures
        forall|j: int| from <= j < end ==> final(buf)@[j - by] == old(buf)@[j],
        forall|j: int|
            0 <= j < INLINE_STRING_CAPACITY && !(from - by <= j < end - by) ==> final(buf)@[j]
                == old(buf)@[j],
{
    let mut i: usize = from;
    while i < end
        invariant
            by <= from <= i <= end <= INLINE_STRING_CAPACITY,
            forall|j: int| from <= j < i ==> buf@[j - by] == old(buf)@[j],
            forall|j: int|
                0 <= j < INLINE_STRING_CAPACITY && !(from - by <= j < i - by) ==> buf@[j] == old(
                    buf,
                )@[j],
        decreases end - i,
    {
        buf[i - by] = buf[i];
        i = i + 1;
    }
}

impl View for InlineString {
    type V = Seq<char>;

    /// The text, as the sequence of its characters.
    open spec fn view(&self) -> Seq<char> {
        decode_utf8(self.spec_bytes())
    }
}

impl Clone for InlineString {
    fn clone(&self) -> (s: Self)
        ensures
            s == *self,
    {
        proof {
            use_type_invariant(self);
        }
        InlineString { length: self.length, bytes: self.bytes }
    }
}

impl Default for InlineString {
    /// The empty string.
    fn default() -> (s: InlineString)
        ensures
            s.spec_bytes() == Seq::<u8>::empty(),
            s@ == Seq::<char>::empty(),
    {
        InlineString::new()
    }
}

impl InlineString {
    /// The length never exceeds the capacity, and the bytes in use are valid
    /// UTF-8.
    #[verifier::type_invariant]
    pub closed spec fn wf(&self) -> bool {
        &&& self.length <= INLINE_STRING_CAPACITY
        &&& valid_utf8(self.bytes@.subrange(0, self.length as int))
    }

    /// The bytes in use: the UTF-8 encoding of the text.
    pub closed spec fn spec_bytes(&self) -> Seq<u8> {
        self.bytes@.subrange(0, self.length as int)
    }

    /// What well-formedness says of the bytes in use.
    pub proof fn lemma_wf(&self)
        requires
            self.wf(),
        ensures
            self.spec_bytes().len() <= INLINE_STRING_CAPACITY,
            valid_utf8(self.spec_bytes()),
            encode_utf8(self@) == self.spec_bytes(),
    {
        decode_utf8_encode_utf8(self.spec_bytes());
    }

    /// Creates a new string buffer initialized with the empty string.
    pub fn new() -> (s: InlineString)
        ensures
            s.spec_bytes() == Seq::<u8>::empty(),
            s@ == Seq::<char>::empty(),
    {
        let s = InlineString { length: 0, bytes: [0; INLINE_STRING_CAPACITY] };
        s
    }

    /// Creates an `InlineString` holding a copy of the given text, which must
    /// fit in the inline capacity.
    pub fn from(string: &str) -> (s: InlineString)
        requires
            string.spec_bytes().len() <= INLINE_STRING_CAPACITY,
        ensures
            s.spec_bytes() == string.spec_bytes(),
            s@ == string@,
    {
        let src = string.as_bytes();
        let n: usize = src.len();
        let mut buf: [u8; INLINE_STRING_CAPACITY] = [0; INLINE_STRING_CAPACITY];
        write_at(&mut buf, 0, src, n);
        proof {
            assert(buf@.subrange(0, n as int) =~= src@);
            encode_utf8_valid_utf8(string@);
            encode_utf8_decode_utf8(string@);
        }
        InlineString { length: n, bytes: buf }
    }

    /// Returns the number of bytes in this string.
    pub fn len(&self) -> (n: usize)
        ensures
            n == self.spec_bytes().len(),
            n == encode_utf8(self@).len(),
            n <= INLINE_STRING_CAPACITY,
    {
        proof {
            use_type_invariant(self);
            self.lemma_wf();
        }
        self.length
    }

    /// Returns true if the string contains no bytes.
    pub fn is_empty(&self) -> (b: bool)
        ensures
            b == (self.spec_bytes().len() == 0),
            b == (self@.len() == 0),
    {
        proof {
            use_type_invariant(self);
        }
        self.length == 0
    }

    /// Works with the underlying buffer as a byte slice.
    pub fn as_bytes(&self) -> (b: &[u8])
        ensures
            b@ == self.spec_bytes(),
            valid_utf8(b@),
            b@.len() <= INLINE_STRING_CAPACITY,
    {
        proof {
            use_type_invariant(self);
        }
        slice_subrange(self.bytes.as_slice(), 0, self.length)
    }

    /// Views the text as a string slice.
    pub fn as_str(&self) -> (s: &str)
        ensures
            s.spec_bytes() == self.spec_bytes(),
            s@ == self@,
    {
        match core::str::from_utf8(self.as_bytes()) {
            Ok(s) => {
                proof {
                    encode_utf8_decode_utf8(s@);
                }
                s
            },
            Err(_) => unreached(),
        }
    }

    /// Returns the underlying byte buffer, encoded as UTF-8.  Trailing bytes
    /// are zeroed.
    pub fn into_bytes(self) -> (out: [u8; INLINE_STRING_CAPACITY])
        ensures
            out@.subrange(0, self.spec_bytes().len() as int) == self.spec_bytes(),
            forall|i: int|
                self.spec_bytes().len() <= i < INLINE_STRING_CAPACITY ==> out@[i] == 0,
    {
        proof {
            use_type_invariant(&self);
        }
        let mut buf = self.bytes;
        let mut i: usize = self.length;
        while i < INLINE_STRING_CAPACITY
            invariant
                self.length <= i <= INLINE_STRING_CAPACITY,
                forall|j: int| 0 <= j < self.length ==> buf@[j] == self.bytes@[j],
                forall|j: int| self.length <= j < i ==> buf@[j] == 0,
            decreases INLINE_STRING_CAPACITY - i,
        {
            buf[i] = 0;
            i = i + 1;
        }
        buf
    }

    /// Whether byte offset `idx` lies on a character boundary of the text:
    /// at its start, at its end, or between two characters.
    pub fn is_char_boundary(&self, idx: usize) -> (b: bool)
        ensures
            b == is_char_boundary(self.spec_bytes(), idx as int),
    {
        is_boundary(self.as_bytes(), idx)
    }

    /// Pushes the given string onto this string buffer, or reports that it
    /// does not fit and leaves the buffer as it was.
    pub fn push_str(&mut self, string: &str) -> (r: Result<(), NotEnoughSpaceError>)
        ensures
            r is Ok <==> old(self).spec_bytes().len() + string.spec_bytes().len()
                <= INLINE_STRING_CAPACITY,
            r is Ok ==> final(self).spec_bytes() == old(self).spec_bytes() + string.spec_bytes(),
            r is Ok ==> final(self)@ == old(self)@ + string@,
            r is Err ==> *final(self) == *old(self),
    {
        proof {
            use_type_invariant(&*self);
        }
        let src = string.as_bytes();
        let n: usize = src.len();
        if n > INLINE_STRING_CAPACITY - self.length {
            return Err(NotEnoughSpaceError);
        }
        let mut buf = self.bytes;
        write_at(&mut buf, self.length, src, n);
        proof {
            let before = self.spec_bytes();
            assert(buf@.subrange(0, self.length + n) =~= before + src@);
            encode_utf8_valid_utf8(string@);
            encode_utf8_decode_utf8(string@);
            lemma_decode_concat(before, src@);
        }
        *self = InlineString { length: self.length + n, bytes: buf };
        Ok(())
    }

    /// Adds the given character to the end of the string, or reports that it
    /// does not fit and leaves the buffer as it was.
    pub fn push(&mut self, ch: char) -> (r: Result<(), NotEnoughSpaceError>)
        ensures
            r is Ok <==> old(self).spec_bytes().len() + char_bytes(ch).len()
                <= INLINE_STRING_CAPACITY,
            r is Ok ==> final(self).spec_bytes() == old(self).spec_bytes() + char_bytes(ch),
            r is Ok ==> final(self)@ == old(self)@.push(ch),
            r is Err ==> *final(self) == *old(self),
    {
        proof {
            use_type_invariant(&*self);
        }
        if utf8_width(ch) > INLINE_STRING_CAPACITY - self.length {
            return Err(NotEnoughSpaceError);
        }
        let (enc, width) = encode_char(ch);
        let mut buf = self.bytes;
        write_at(&mut buf, self.length, enc.as_slice(), width);
        proof {
            let before = self.spec_bytes();
            assert(buf@.subrange(0, self.length + width) =~= before + char_bytes(ch));
            lemma_char_bytes(ch);
            lemma_decode_concat(before, char_bytes(ch));
        }
        *self = InlineString { length: self.length + width, bytes: buf };
        Ok(())
    }

    /// Inserts a character at byte position `idx`, which must lie on a
    /// character boundary, or reports that the character does not fit and
    /// leaves the buffer as it was.
    pub fn insert(&mut self, idx: usize, ch: char) -> (r: Result<(), NotEnoughSpaceError>)
        requires
            is_char_boundary(old(self).spec_bytes(), idx as int),
        ensures
            r is Ok <==> old(self).spec_bytes().len() + char_bytes(ch).len()
                <= INLINE_STRING_CAPACITY,
            r is Ok ==> final(self).spec_bytes() == with_inserted(
                old(self).spec_bytes(),
                idx as int,
                ch,
            ),
            r is Ok ==> final(self)@ == old(self)@.insert(
                chars_before(old(self).spec_bytes(), idx as int),
                ch,
            ),
            chars_before(old(self).spec_bytes(), idx as int) <= old(self)@.len(),
            r is Err ==> *final(self) == *old(self),
    {
        proof {
            use_type_invariant(&*self);
            lemma_insert_chars(self.spec_bytes(), idx as int, ch);
        }
        if utf8_width(ch) > INLINE_STRING_CAPACITY - self.length {
            return Err(NotEnoughSpaceError);
        }
        let (enc, width) = encode_char(ch);
        let mut buf = self.bytes;
        shift_right(&mut buf, idx, self.length, width);
        write_at(&mut buf, idx, enc.as_slice(), width);
        proof {
            let before = self.spec_bytes();
            assert(buf@.subrange(0, self.length + width) =~= with_inserted(before, idx as int, ch));
        }
        *self = InlineString { length: self.length + width, bytes: buf };
        Ok(())
    }

    /// Removes the character that starts at byte position `idx` and returns
    /// it.  `idx` must be the start of a character.
    pub fn remove(&mut self, idx: usize) -> (ch: char)
        requires
            is_char_boundary(old(self).spec_bytes(), idx as int),
            idx < old(self).spec_bytes().len(),
        ensures
            ch == char_at(old(self).spec_bytes(), idx as int),
            ch == old(self)@[chars_before(old(self).spec_bytes(), idx as int)],
            final(self).spec_bytes() == with_removed(old(self).spec_bytes(), idx as int),
            final(self)@ == old(self)@.remove(chars_before(old(self).spec_bytes(), idx as int)),
            chars_before(old(self).spec_bytes(), idx as int) < old(self)@.len(),
    {
        proof {
            use_type_invariant(&*self);
        }
        let (ch, width) = decode_char_at(self.as_bytes(), idx);
        let mut buf = self.bytes;
        shift_left(&mut buf, idx + width, self.length, width);
        proof {
            let before = self.spec_bytes();
            lemma_remove_chars(before, idx as int);
            assert(buf@.subrange(0, self.length - width) =~= with_removed(before, idx as int));
        }
        *self = InlineString { length: self.length - width, bytes: buf };
        ch
    }

    /// Removes the last character from the string buffer and returns it.
    /// Returns `None` if this string buffer is empty.
    pub fn pop(&mut self) -> (r: Option<char>)
        ensures
            old(self)@.len() == 0 ==> r is None && *final(self) == *old(self),
            old(self)@.len() > 0 ==> r == Some(old(self)@.last()),
            old(self)@.len() > 0 ==> final(self)@ == old(self)@.drop_last(),
            old(self)@.len() > 0 ==> final(self).spec_bytes() + char_bytes(old(self)@.last())
                == old(self).spec_bytes(),
    {
        if self.is_empty() {
            return None;
        }
        let bytes = self.as_bytes();
        let start = last_char_start(bytes);
        let (ch, _) = decode_char_at(bytes, start);
        proof {
            use_type_invariant(&*self);
            let all = self.spec_bytes();
            lemma_char_at_boundary(all, start as int);
            assert(all.subrange(0, start as int) =~= self.bytes@.subrange(0, start as int));
        }
        *self = InlineString { length: start, bytes: self.bytes };
        Some(ch)
    }

    /// Shortens the string to `new_len` bytes, which must not exceed the
    /// current length and must lie on a character boundary.
    pub fn truncate(&mut self, new_len: usize)
        requires
            is_char_boundary(old(self).spec_bytes(), new_len as int),
        ensures
            new_len <= old(self).spec_bytes().len(),
            final(self).spec_bytes() == old(self).spec_bytes().subrange(0, new_len as int),
            final(self)@ == old(self)@.take(chars_before(old(self).spec_bytes(), new_len as int)),
            chars_before(old(self).spec_bytes(), new_len as int) <= old(self)@.len(),
    {
        proof {
            use_type_invariant(&*self);
            lemma_split_chars(self.spec_bytes(), new_len as int);
            assert(self.spec_bytes().subrange(0, new_len as int) =~= self.bytes@.subrange(
                0,
                new_len as int,
            ));
        }
        *self = InlineString { length: new_len, bytes: self.bytes };
    }

    /// Truncates the string, returning it to 0 length.
    pub fn clear(&mut self)
        ensures
            final(self).spec_bytes() == Seq::<u8>::empty(),
            final(self)@ == Seq::<char>::empty(),
    {
        *self = InlineString { length: 0, bytes: self.bytes };
    }
}

} // verus!
