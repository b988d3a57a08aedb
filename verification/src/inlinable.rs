//! The growable string: inline while it is short, on the heap once it has
//! outgrown the inline capacity.

use crate::inline_string::{InlineString, INLINE_STRING_CAPACITY};
use crate::std_specs::{size_hint_lower, utf16_decoded, utf16_decoded_lossy, utf8_decoded_lossy};
use crate::utf8::{
    char_at, char_bytes, chars_before, lemma_encode_concat, lemma_encode_push, lemma_insert_chars,
    lemma_remove_chars, lemma_split_chars, with_inserted, with_removed,
};
use std::borrow::Cow;
use std::string::{FromUtf16Error, FromUtf8Error};
use vstd::prelude::*;
use vstd::slice::slice_to_vec;
use vstd::std_specs::iter::IteratorSpec;
use vstd::string::StringSliceAdditionalSpecFns;
use vstd::utf8::*;

verus! {

/// An owned, grow-able UTF-8 string that stores short strings inline.
#[derive(Debug)]
pub enum InlinableString {
    /// A heap-allocated string.
    Heap(String),
    /// A small string stored inline.
    Inline(InlineString),
}

impl View for InlinableString {
    type V = Seq<char>;

    /// The text, as the sequence of its characters, whichever way it is
    /// stored.
    open spec fn view(&self) -> Seq<char> {
        match self {
            InlinableString::Heap(s) => s@,
            InlinableString::Inline(s) => s@,
        }
    }
}

/// The pieces of text joined end to end.
pub open spec fn concat_strs(parts: Seq<&str>) -> Seq<char>
    decreases parts.len(),
{
    if parts.len() == 0 {
        Seq::<char>::empty()
    } else {
        concat_strs(parts.drop_last()) + parts.last()@
    }
}

impl Clone for InlinableString {
    fn clone(&self) -> (s: Self)
        ensures
            s == *self,
            s.wf(),
    {
        match self {
            InlinableString::Heap(h) => InlinableString::Heap(h.clone()),
            InlinableString::Inline(i) => {
                proof {
                    use_type_invariant(i);
                }
                InlinableString::Inline(i.clone())
            },
        }
    }
}

impl Default for InlinableString {
    /// The empty string, stored inline.
    fn default() -> (s: InlinableString)
        ensures
            s.wf(),
            s.is_inline(),
            s.spec_bytes() == Seq::<u8>::empty(),
            s@ == Seq::<char>::empty(),
    {
        InlinableString::new()
    }
}

impl InlinableString {
    /// The UTF-8 encoding of the text, whichever way it is stored.
    pub open spec fn spec_bytes(&self) -> Seq<u8> {
        match self {
            InlinableString::Heap(s) => encode_utf8(s@),
            InlinableString::Inline(s) => s.spec_bytes(),
        }
    }

    /// Whether the text is stored inline rather than on the heap.
    pub open spec fn is_inline(&self) -> bool {
        self is Inline
    }

    /// Whether an inline buffer, if that is what holds the text, is well
    /// formed.  Every string that the operations below create or leave
    /// behind is.
    pub open spec fn wf(&self) -> bool {
        match self {
            InlinableString::Heap(_) => true,
            InlinableString::Inline(s) => s.wf(),
        }
    }

    /// What well-formedness says: the bytes are valid UTF-8, they are the
    /// encoding of the text, and an inline string is within the inline
    /// capacity.
    pub proof fn lemma_wf(&self)
        requires
            self.wf(),
        ensures
            valid_utf8(self.spec_bytes()),
            self.spec_bytes() == encode_utf8(self@),
            self@ == decode_utf8(self.spec_bytes()),
            self.is_inline() ==> self.spec_bytes().len() <= INLINE_STRING_CAPACITY,
    {
        match self {
            InlinableString::Heap(s) => {
                encode_utf8_valid_utf8(s@);
                encode_utf8_decode_utf8(s@);
            },
            InlinableString::Inline(s) => {
                s.lemma_wf();
            },
        }
    }

    /// How a string `after` a request to reserve `additional` bytes relates
    /// to the string `before` it: the text is the same; a heap string stays
    /// on the heap; an inline string stays as it is when the inline capacity
    /// covers the request, and moves to the heap when it does not.
    pub open spec fn reserved(before: Self, additional: int, after: Self) -> bool {
        &&& after.spec_bytes() == before.spec_bytes()
        &&& after@ == before@
        &&& after.is_inline() <==> before.is_inline() && before.spec_bytes().len() + additional
            <= INLINE_STRING_CAPACITY
        &&& after.is_inline() ==> after == before
    }

    /// How a string `after` shrinking relates to the string `before` it: the
    /// text is the same; it is inline exactly when the text fits the inline
    /// capacity; and a string that was inline already is untouched.
    pub open spec fn shrunk(before: Self, after: Self) -> bool {
        &&& after.spec_bytes() == before.spec_bytes()
        &&& after@ == before@
        &&& after.is_inline() <==> before.spec_bytes().len() <= INLINE_STRING_CAPACITY
        &&& before.is_inline() ==> after == before
    }

    /// Creates a new, empty string, stored inline.
    pub fn new() -> (s: InlinableString)
        ensures
            s.wf(),
            s.is_inline(),
            s.spec_bytes() == Seq::<u8>::empty(),
            s@ == Seq::<char>::empty(),
    {
        let inline = InlineString::new();
        proof {
            use_type_invariant(&inline);
        }
        InlinableString::Inline(inline)
    }

    /// Creates a new, empty string that can hold `capacity` bytes: inline
    /// when the inline capacity is enough, otherwise on the heap.
    pub fn with_capacity(capacity: usize) -> (s: InlinableString)
        requires
            capacity <= isize::MAX,
        ensures
            s.wf(),
            s.is_inline() <==> capacity <= INLINE_STRING_CAPACITY,
            s.spec_bytes() == Seq::<u8>::empty(),
            s@ == Seq::<char>::empty(),
    {
        if capacity <= INLINE_STRING_CAPACITY {
            InlinableString::new()
        } else {
            InlinableString::Heap(String::with_capacity(capacity))
        }
    }

    /// Creates a string holding a copy of the given text: inline when it
    /// fits the inline capacity, otherwise on the heap.
    pub fn from(string: &str) -> (s: InlinableString)
        ensures
            s.wf(),
            s@ == string@,
            s.spec_bytes() == string.spec_bytes(),
            s.is_inline() <==> string.spec_bytes().len() <= INLINE_STRING_CAPACITY,
    {
        if string.as_bytes().len() <= INLINE_STRING_CAPACITY {
            let inline = InlineString::from(string);
            proof {
                use_type_invariant(&inline);
            }
            InlinableString::Inline(inline)
        } else {
            InlinableString::Heap(string.to_owned())
        }
    }

    /// Puts the outcome of a decoding on the heap: decoded text becomes a
    /// heap string, and an error is handed on as it is.
    pub fn on_heap<E>(decoded: Result<String, E>) -> (r: Result<InlinableString, E>)
        ensures
            match decoded {
                Ok(text) => r == Ok::<InlinableString, E>(InlinableString::Heap(text)),
                Err(e) => r == Err::<InlinableString, E>(e),
            },
    {
        match decoded {
            Ok(text) => Ok(InlinableString::Heap(text)),
            Err(e) => Err(e),
        }
    }

    /// Converts a vector of bytes to a heap string, or fails when the bytes
    /// are not valid UTF-8.
    pub fn from_utf8(vec: Vec<u8>) -> (r: Result<InlinableString, FromUtf8Error>)
        ensures
            r is Ok <==> valid_utf8(vec@),
            r is Ok ==> r->Ok_0.wf() && !r->Ok_0.is_inline() && r->Ok_0.spec_bytes() == vec@,
    {
        Self::on_heap(String::from_utf8(vec))
    }

    /// Decodes UTF-16 code units into a heap string, or fails when they hold
    /// invalid data.
    pub fn from_utf16(v: &[u16]) -> (r: Result<InlinableString, FromUtf16Error>)
        ensures
            r is Ok <==> utf16_decoded(v@) is Some,
            r is Ok ==> r->Ok_0.wf() && !r->Ok_0.is_inline() && Some(r->Ok_0@) == utf16_decoded(
                v@,
            ),
    {
        Self::on_heap(String::from_utf16(v))
    }

    /// Decodes UTF-16 code units into a heap string, putting U+FFFD in place
    /// of invalid data.
    pub fn from_utf16_lossy(v: &[u16]) -> (s: InlinableString)
        ensures
            s.wf(),
            !s.is_inline(),
            s@ == utf16_decoded_lossy(v@),
    {
        InlinableString::Heap(String::from_utf16_lossy(v))
    }

    /// Decodes bytes as UTF-8, putting U+FFFD in place of invalid sequences.
    /// Valid UTF-8 comes back as it is.
    pub fn from_utf8_lossy(v: &[u8]) -> (s: Cow<'_, str>)
        ensures
            s@ == utf8_decoded_lossy(v@),
            valid_utf8(v@) ==> s@ == decode_utf8(v@),
    {
        String::from_utf8_lossy(v)
    }

    /// Collects the characters that the iterator yields into a new string.
    /// The iterator must be one that comes to an end.
    pub fn from_iter<I: Iterator<Item = char>>(iter: I) -> (s: InlinableString)
        requires
            iter.obeys_prophetic_iter_laws(),
            iter.decrease() is Some,
        ensures
            s.wf(),
            s@ == iter.remaining(),
            s.spec_bytes() == encode_utf8(iter.remaining()),
    {
        let mut buf = InlinableString::new();
        buf.extend(iter);
        buf
    }

    /// Collects the pieces of text that the iterator yields into a new
    /// string.  The iterator must be one that comes to an end.
    pub fn from_iter_strs<'a, I: Iterator<Item = &'a str>>(iter: I) -> (s: InlinableString)
        requires
            iter.obeys_prophetic_iter_laws(),
            iter.decrease() is Some,
        ensures
            s.wf(),
            s@ == concat_strs(iter.remaining()),
            s.spec_bytes() == encode_utf8(concat_strs(iter.remaining())),
    {
        let mut buf = InlinableString::new();
        buf.extend_from_strs(iter);
        buf
    }

    /// Returns the number of bytes of text.
    pub fn len(&self) -> (n: usize)
        ensures
            n == self.spec_bytes().len(),
            n == encode_utf8(self@).len(),
    {
        match self {
            InlinableString::Heap(s) => s.as_str().as_bytes().len(),
            InlinableString::Inline(s) => s.len(),
        }
    }

    /// Returns true if the string holds no text.
    pub fn is_empty(&self) -> (b: bool)
        ensures
            b == (self.spec_bytes().len() == 0),
            b == (self@.len() == 0),
    {
        match self {
            InlinableString::Heap(s) => s.as_str().is_empty(),
            InlinableString::Inline(s) => s.is_empty(),
        }
    }

    /// Returns the number of bytes the string can hold without moving or
    /// reallocating: the inline capacity while it is stored inline, and the
    /// heap string's own capacity otherwise.
    pub fn capacity(&self) -> (c: usize)
        ensures
            self.is_inline() ==> c == INLINE_STRING_CAPACITY,
            c >= self.spec_bytes().len(),
    {
        match self {
            InlinableString::Heap(s) => s.capacity(),
            InlinableString::Inline(s) => {
                proof {
                    use_type_invariant(s);
                    s.lemma_wf();
                }
                INLINE_STRING_CAPACITY
            },
        }
    }

    /// Views the text as UTF-8 bytes.
    pub fn as_bytes(&self) -> (b: &[u8])
        ensures
            b@ == self.spec_bytes(),
            valid_utf8(b@),
    {
        match self {
            InlinableString::Heap(s) => {
                proof {
                    encode_utf8_valid_utf8(s@);
                }
                s.as_str().as_bytes()
            },
            InlinableString::Inline(s) => s.as_bytes(),
        }
    }

    /// Views the text as a string slice.
    pub fn as_str(&self) -> (r: &str)
        ensures
            r@ == self@,
            r.spec_bytes() == self.spec_bytes(),
    {
        match self {
            InlinableString::Heap(s) => s.as_str(),
            InlinableString::Inline(s) => s.as_str(),
        }
    }

    /// Whether byte offset `idx` lies on a character boundary of the text:
    /// at its start, at its end, or between two characters.
    pub fn is_char_boundary(&self, idx: usize) -> (b: bool)
        ensures
            b == is_char_boundary(self.spec_bytes(), idx as int),
    {
        match self {
            InlinableString::Heap(s) => s.as_str().is_char_boundary(idx),
            InlinableString::Inline(s) => s.is_char_boundary(idx),
        }
    }

    /// Converts the string into its UTF-8 bytes.
    pub fn into_bytes(self) -> (v: Vec<u8>)
        ensures
            v@ == self.spec_bytes(),
    {
        match self {
            InlinableString::Heap(s) => s.into_bytes(),
            InlinableString::Inline(s) => slice_to_vec(s.as_bytes()),
        }
    }

    /// Appends the given text, moving the contents to the heap when they no
    /// longer fit inline.
    pub fn push_str(&mut self, string: &str)
        ensures
            final(self).wf(),
            final(self).spec_bytes() == old(self).spec_bytes() + string.spec_bytes(),
            final(self)@ == old(self)@ + string@,
            final(self).is_inline() <==> old(self).is_inline() && old(self).spec_bytes().len()
                + string.spec_bytes().len() <= INLINE_STRING_CAPACITY,
    {
        let promoted = match self {
            InlinableString::Heap(s) => {
                proof {
                    lemma_encode_concat(s@, string@);
                }
                s.push_str(string);
                return ;
            },
            InlinableString::Inline(s) => {
                if s.push_str(string).is_ok() {
                    proof {
                        use_type_invariant(&*s);
                    }
                    return ;
                }
                let mut promoted = s.as_str().to_owned();
                promoted.push_str(string);
                proof {
                    use_type_invariant(&*s);
                    lemma_encode_concat(s@, string@);
                }
                promoted
            },
        };
        *self = InlinableString::Heap(promoted);
    }

    /// Appends the given character, moving the text to the heap when it no
    /// longer fits inline.
    pub fn push(&mut self, ch: char)
        ensures
            final(self).wf(),
            final(self).spec_bytes() == old(self).spec_bytes() + char_bytes(ch),
            final(self)@ == old(self)@.push(ch),
            final(self).is_inline() <==> old(self).is_inline() && old(self).spec_bytes().len()
                + char_bytes(ch).len() <= INLINE_STRING_CAPACITY,
    {
        let promoted = match self {
            InlinableString::Heap(s) => {
                proof {
                    lemma_encode_push(s@, ch);
                }
                s.push(ch);
                return ;
            },
            InlinableString::Inline(s) => {
                if s.push(ch).is_ok() {
                    proof {
                        use_type_invariant(&*s);
                    }
                    return ;
                }
                let mut promoted = String::with_capacity(s.len() + 1);
                promoted.push_str(s.as_str());
                promoted.push(ch);
                proof {
                    use_type_invariant(&*s);
                    lemma_encode_push(s@, ch);
                }
                promoted
            },
        };
        *self = InlinableString::Heap(promoted);
    }

    /// Inserts a character at byte position `idx`, which must lie on a
    /// character boundary, moving the text to the heap when it no longer
    /// fits inline.
    pub fn insert(&mut self, idx: usize, ch: char)
        requires
            is_char_boundary(old(self).spec_bytes(), idx as int),
        ensures
            final(self).wf(),
            final(self).spec_bytes() == with_inserted(old(self).spec_bytes(), idx as int, ch),
            final(self)@ == old(self)@.insert(chars_before(old(self).spec_bytes(), idx as int), ch),
            chars_before(old(self).spec_bytes(), idx as int) <= old(self)@.len(),
            final(self).is_inline() <==> old(self).is_inline() && old(self).spec_bytes().len()
                + char_bytes(ch).len() <= INLINE_STRING_CAPACITY,
    {
        let promoted = match self {
            InlinableString::Heap(s) => {
                proof {
                    encode_utf8_valid_utf8(s@);
                    encode_utf8_decode_utf8(s@);
                    lemma_insert_chars(encode_utf8(s@), idx as int, ch);
                }
                s.insert(idx, ch);
                proof {
                    encode_utf8_decode_utf8(s@);
                }
                return ;
            },
            InlinableString::Inline(s) => {
                if s.insert(idx, ch).is_ok() {
                    proof {
                        use_type_invariant(&*s);
                    }
                    return ;
                }
                let (left, right) = s.as_str().split_at(idx);
                let mut promoted = String::with_capacity(s.len() + 1);
                promoted.push_str(left);
                promoted.push(ch);
                promoted.push_str(right);
                proof {
                    use_type_invariant(&*s);
                    s.lemma_wf();
                    lemma_encode_push(left@, ch);
                    lemma_encode_concat(left@.push(ch), right@);
                    lemma_insert_chars(s.spec_bytes(), idx as int, ch);
                    encode_utf8_decode_utf8(promoted@);
                }
                promoted
            },
        };
        *self = InlinableString::Heap(promoted);
    }

    /// Removes the character that starts at byte position `idx` and returns
    /// it.  `idx` must be the start of a character.
    pub fn remove(&mut self, idx: usize) -> (ch: char)
        requires
            is_char_boundary(old(self).spec_bytes(), idx as int),
            idx < old(self).spec_bytes().len(),
        ensures
            final(self).wf(),
            ch == char_at(old(self).spec_bytes(), idx as int),
            ch == old(self)@[chars_before(old(self).spec_bytes(), idx as int)],
            final(self).spec_bytes() == with_removed(old(self).spec_bytes(), idx as int),
            final(self)@ == old(self)@.remove(chars_before(old(self).spec_bytes(), idx as int)),
            chars_before(old(self).spec_bytes(), idx as int) < old(self)@.len(),
            final(self).is_inline() == old(self).is_inline(),
    {
        match self {
            InlinableString::Heap(s) => {
                proof {
                    encode_utf8_valid_utf8(s@);
                    encode_utf8_decode_utf8(s@);
                    lemma_remove_chars(encode_utf8(s@), idx as int);
                }
                let ch = s.remove(idx);
                proof {
                    encode_utf8_decode_utf8(s@);
                }
                ch
            },
            InlinableString::Inline(s) => {
                let ch = s.remove(idx);
                proof {
                    use_type_invariant(&*s);
                }
                ch
            },
        }
    }

    /// Removes the last character and returns it, or returns `None` if the
    /// string is empty.
    pub fn pop(&mut self) -> (r: Option<char>)
        ensures
            final(self).wf(),
            old(self)@.len() == 0 ==> r is None && final(self)@ == old(self)@,
            old(self)@.len() > 0 ==> r == Some(old(self)@.last()),
            old(self)@.len() > 0 ==> final(self)@ == old(self)@.drop_last(),
            old(self)@.len() > 0 ==> final(self).spec_bytes() + char_bytes(old(self)@.last())
                == old(self).spec_bytes(),
            final(self).is_inline() == old(self).is_inline(),
    {
        match self {
            InlinableString::Heap(s) => {
                proof {
                    if s@.len() > 0 {
                        lemma_encode_push(s@.drop_last(), s@.last());
                        assert(s@.drop_last().push(s@.last()) =~= s@);
                    }
                }
                s.pop()
            },
            InlinableString::Inline(s) => {
                let r = s.pop();
                proof {
                    use_type_invariant(&*s);
                }
                r
            },
        }
    }

    /// Shortens the string to `new_len` bytes, which must not exceed the
    /// current length and must lie on a character boundary.
    pub fn truncate(&mut self, new_len: usize)
        requires
            is_char_boundary(old(self).spec_bytes(), new_len as int),
        ensures
            final(self).wf(),
            new_len <= old(self).spec_bytes().len(),
            final(self).spec_bytes() == old(self).spec_bytes().subrange(0, new_len as int),
            final(self)@ == old(self)@.take(chars_before(old(self).spec_bytes(), new_len as int)),
            chars_before(old(self).spec_bytes(), new_len as int) <= old(self)@.len(),
            final(self).is_inline() == old(self).is_inline(),
    {
        match self {
            InlinableString::Heap(s) => {
                proof {
                    encode_utf8_valid_utf8(s@);
                    encode_utf8_decode_utf8(s@);
                    lemma_split_chars(encode_utf8(s@), new_len as int);
                }
                s.truncate(new_len);
                proof {
                    encode_utf8_decode_utf8(s@);
                }
            },
            InlinableString::Inline(s) => {
                s.truncate(new_len);
                proof {
                    use_type_invariant(&*s);
                }
            },
        }
    }

    /// Removes all of the text, keeping the storage it is in.
    pub fn clear(&mut self)
        ensures
            final(self).wf(),
            final(self).spec_bytes() == Seq::<u8>::empty(),
            final(self)@ == Seq::<char>::empty(),
            final(self).is_inline() == old(self).is_inline(),
    {
        match self {
            InlinableString::Heap(s) => s.clear(),
            InlinableString::Inline(s) => {
                s.clear();
                proof {
                    use_type_invariant(&*s);
                }
            },
        }
    }

    /// Makes room for at least `additional` more bytes.  An inline string
    /// for which the inline capacity is enough is left alone; one for which
    /// it is not moves to the heap.
    pub fn reserve(&mut self, additional: usize)
        requires
            old(self).spec_bytes().len() + additional <= isize::MAX,
        ensures
            final(self).wf(),
            Self::reserved(*old(self), additional as int, *final(self)),
    {
        let promoted = match self {
            InlinableString::Heap(s) => {
                s.reserve(additional);
                return ;
            },
            InlinableString::Inline(s) => {
                let new_capacity = s.len() + additional;
                if new_capacity <= INLINE_STRING_CAPACITY {
                    proof {
                        use_type_invariant(&*s);
                    }
                    return ;
                }
                let mut promoted = String::with_capacity(new_capacity);
                promoted.push_str(s.as_str());
                promoted
            },
        };
        *self = InlinableString::Heap(promoted);
    }

    /// Makes room for exactly `additional` more bytes, as far as the heap
    /// allocator allows.  An inline string for which the inline capacity is
    /// enough is left alone; one for which it is not moves to the heap.
    pub fn reserve_exact(&mut self, additional: usize)
        requires
            old(self).spec_bytes().len() + additional <= isize::MAX,
        ensures
            final(self).wf(),
            Self::reserved(*old(self), additional as int, *final(self)),
    {
        let promoted = match self {
            InlinableString::Heap(s) => {
                s.reserve_exact(additional);
                return ;
            },
            InlinableString::Inline(s) => {
                let new_capacity = s.len() + additional;
                if new_capacity <= INLINE_STRING_CAPACITY {
                    proof {
                        use_type_invariant(&*s);
                    }
                    return ;
                }
                let mut promoted = String::with_capacity(new_capacity);
                promoted.push_str(s.as_str());
                promoted
            },
        };
        *self = InlinableString::Heap(promoted);
    }

    /// Gives back unused space.  A heap string whose text fits the inline
    /// capacity moves inline; a longer one asks the heap to shrink its
    /// allocation; an inline string is left alone.
    pub fn shrink_to_fit(&mut self)
        ensures
            final(self).wf(),
            Self::shrunk(*old(self), *final(self)),
    {
        let demoted = match self {
            InlinableString::Heap(s) => {
                if s.as_str().as_bytes().len() > INLINE_STRING_CAPACITY {
                    s.shrink_to_fit();
                    return ;
                }
                let demoted = InlineString::from(s.as_str());
                proof {
                    use_type_invariant(&demoted);
                }
                demoted
            },
            InlinableString::Inline(s) => {
                proof {
                    use_type_invariant(&*s);
                    s.lemma_wf();
                }
                return ;
            },
        };
        *self = InlinableString::Inline(demoted);
    }

    /// Reserves room for `additional` more bytes where that many can be
    /// asked for at all; a larger number is an estimate that cannot be
    /// honoured, and is passed over.
    fn reserve_hint(&mut self, additional: usize)
        ensures
            final(self).wf(),
            final(self).spec_bytes() == old(self).spec_bytes(),
            final(self)@ == old(self)@,
            final(self).is_inline() ==> *final(self) == *old(self),
    {
        let len = self.len();
        let max: usize = isize::MAX as usize;
        if len <= max && additional <= max - len {
            self.reserve(additional);
        } else {
            proof {
                match &*self {
                    InlinableString::Inline(s) => {
                        use_type_invariant(s);
                    },
                    InlinableString::Heap(_) => {},
                }
            }
        }
    }

    /// Appends every character that the iterator yields, after reserving
    /// room for as many as the iterator says it has at least.  The iterator
    /// must be one that comes to an end.
    pub fn extend<I: Iterator<Item = char>>(&mut self, iter: I)
        requires
            iter.obeys_prophetic_iter_laws(),
            iter.decrease() is Some,
        ensures
            final(self).wf(),
            final(self)@ == old(self)@ + iter.remaining(),
            final(self).spec_bytes() == old(self).spec_bytes() + encode_utf8(iter.remaining()),
            final(self).is_inline() ==> old(self).is_inline(),
    {
        let mut iter = iter;
        let ghost all = iter.remaining();
        let ghost mut taken = Seq::<char>::empty();
        self.reserve_hint(size_hint_lower(&iter));
        loop
            invariant
                iter.obeys_prophetic_iter_laws(),
                iter.decrease() is Some,
                taken + iter.remaining() == all,
                self.wf(),
                self@ == old(self)@ + taken,
                self.spec_bytes() == old(self).spec_bytes() + encode_utf8(taken),
                self.is_inline() ==> old(self).is_inline(),
            ensures
                self.wf(),
                self@ == old(self)@ + all,
                self.spec_bytes() == old(self).spec_bytes() + encode_utf8(all),
                self.is_inline() ==> old(self).is_inline(),
            decreases iter.decrease()->0,
        {
            match iter.next() {
                Some(ch) => {
                    self.push(ch);
                    proof {
                        lemma_encode_push(taken, ch);
                        taken = taken.push(ch);
                    }
                },
                None => {
                    break ;
                },
            }
        }
    }

    /// Appends every piece of text that the iterator yields, after reserving
    /// room for as many bytes as the iterator says it has pieces at least.
    /// The iterator must be one that comes to an end.
    pub fn extend_from_strs<'a, I: Iterator<Item = &'a str>>(&mut self, iter: I)
        requires
            iter.obeys_prophetic_iter_laws(),
            iter.decrease() is Some,
        ensures
            final(self).wf(),
            final(self)@ == old(self)@ + concat_strs(iter.remaining()),
            final(self).spec_bytes() == old(self).spec_bytes() + encode_utf8(
                concat_strs(iter.remaining()),
            ),
            final(self).is_inline() ==> old(self).is_inline(),
    {
        let mut iter = iter;
        let ghost all = iter.remaining();
        let ghost mut taken = Seq::<&'a str>::empty();
        self.reserve_hint(size_hint_lower(&iter));
        loop
            invariant
                iter.obeys_prophetic_iter_laws(),
                iter.decrease() is Some,
                taken + iter.remaining() == all,
                self.wf(),
                self@ == old(self)@ + concat_strs(taken),
                self.spec_bytes() == old(self).spec_bytes() + encode_utf8(concat_strs(taken)),
                self.is_inline() ==> old(self).is_inline(),
            ensures
                self.wf(),
                self@ == old(self)@ + concat_strs(all),
                self.spec_bytes() == old(self).spec_bytes() + encode_utf8(concat_strs(all)),
                self.is_inline() ==> old(self).is_inline(),
            decreases iter.decrease()->0,
        {
            match iter.next() {
                Some(part) => {
                    self.push_str(part);
                    proof {
                        assert(taken.push(part).drop_last() =~= taken);
                        lemma_encode_concat(concat_strs(taken), part@);
                        taken = taken.push(part);
                    }
                },
                None => {
                    break ;
                },
            }
        }
    }
}

} // verus!
