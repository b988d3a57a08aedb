//! The string types seen as `str`, hashed as `str`, and `+` on the growable
//! string.

use crate::inlinable::InlinableString;
use crate::inline_string::{InlineString, INLINE_STRING_CAPACITY};
use crate::std_specs::hash_str;
use std::hash::{Hash, Hasher};
use std::ops::{Add, Deref};
use vstd::prelude::*;
use vstd::std_specs::ops::AddSpecImpl;
use vstd::string::StringSliceAdditionalSpecFns;

verus! {

impl Deref for InlineString {
    type Target = str;

    fn deref(&self) -> (r: &str)
        ensures
            r@ == self@,
            r.spec_bytes() == self.spec_bytes(),
    {
        self.as_str()
    }
}

impl Deref for InlinableString {
    type Target = str;

    fn deref(&self) -> (r: &str)
        ensures
            r@ == self@,
            r.spec_bytes() == self.spec_bytes(),
    {
        self.as_str()
    }
}

impl<'a> Add<&'a str> for InlinableString {
    type Output = InlinableString;

    fn add(self, other: &'a str) -> (r: InlinableString)
        ensures
            r.wf(),
            r@ == self@ + other@,
            r.spec_bytes() == self.spec_bytes() + other.spec_bytes(),
            r.is_inline() <==> self.is_inline() && self.spec_bytes().len()
                + other.spec_bytes().len() <= INLINE_STRING_CAPACITY,
    {
        let mut s = self;
        s.push_str(other);
        s
    }
}

/// The sum is described by the contract of `add` itself: as a value it is
/// not a function of the operands alone, since a heap string says nothing of
/// its allocation.
impl<'a> AddSpecImpl<&'a str> for InlinableString {
    open spec fn obeys_add_spec() -> bool {
        false
    }

    open spec fn add_req(self, other: &'a str) -> bool {
        true
    }

    open spec fn add_spec(self, other: &'a str) -> InlinableString {
        self
    }
}

/// Hashes the text alone, as `str` does, so that equal strings hash alike.
impl Hash for InlineString {
    fn hash<H: Hasher>(&self, state: &mut H) {
        hash_str(self.as_str(), state)
    }
}

/// Hashes the text alone, as `str` does, so that equal strings hash alike
/// whichever way each of them is stored.
impl Hash for InlinableString {
    fn hash<H: Hasher>(&self, state: &mut H) {
        hash_str(self.as_str(), state)
    }
}

} // verus!
