//! Equality by content: two strings are equal when they hold the same text,
//! whichever way each of them stores it.

use crate::inlinable::InlinableString;
use crate::inline_string::InlineString;
use vstd::prelude::*;
use vstd::std_specs::cmp::PartialEqSpecImpl;
use vstd::string::StringSliceAdditionalSpecFns;
use vstd::utf8::*;

verus! {

/// Whether two byte slices hold the same bytes.
pub fn same_bytes(a: &[u8], b: &[u8]) -> (r: bool)
    ensures
        r == (a@ == b@),
{
    if a.len() != b.len() {
        return false;
    }
    let mut i: usize = 0;
    while i < a.len()
        invariant
            a@.len() == b@.len(),
            i <= a@.len(),
            forall|j: int| 0 <= j < i ==> a@[j] == b@[j],
        decreases a@.len() - i,
    {
        if a[i] != b[i] {
            return false;
        }
        i = i + 1;
    }
    assert(a@ =~= b@);
    true
}

impl PartialEq for InlineString {
    fn eq(&self, other: &InlineString) -> (r: bool) {
        same_bytes(self.as_bytes(), other.as_bytes())
    }
}

impl PartialEqSpecImpl for InlineString {
    open spec fn obeys_eq_spec() -> bool {
        true
    }

    open spec fn eq_spec(&self, other: &InlineString) -> bool {
        self.spec_bytes() == other.spec_bytes()
    }
}

impl Eq for InlineString {

}

impl PartialEq<str> for InlineString {
    fn eq(&self, other: &str) -> (r: bool) {
        same_bytes(self.as_bytes(), other.as_bytes())
    }
}

impl PartialEqSpecImpl<str> for InlineString {
    open spec fn obeys_eq_spec() -> bool {
        true
    }

    open spec fn eq_spec(&self, other: &str) -> bool {
        self.spec_bytes() == other.spec_bytes()
    }
}

impl<'a> PartialEq<&'a str> for InlineString {
    fn eq(&self, other: &&'a str) -> (r: bool) {
        same_bytes(self.as_bytes(), other.as_bytes())
    }
}

impl<'a> PartialEqSpecImpl<&'a str> for InlineString {
    open spec fn obeys_eq_spec() -> bool {
        true
    }

    open spec fn eq_spec(&self, other: &&'a str) -> bool {
        self.spec_bytes() == other.spec_bytes()
    }
}

impl PartialEq for InlinableString {
    fn eq(&self, other: &InlinableString) -> (r: bool) {
        same_bytes(self.as_bytes(), other.as_bytes())
    }
}

impl PartialEqSpecImpl for InlinableString {
    open spec fn obeys_eq_spec() -> bool {
        true
    }

    open spec fn eq_spec(&self, other: &InlinableString) -> bool {
        self.spec_bytes() == other.spec_bytes()
    }
}

impl Eq for InlinableString {

}

impl PartialEq<str> for InlinableString {
    fn eq(&self, other: &str) -> (r: bool) {
        same_bytes(self.as_bytes(), other.as_bytes())
    }
}

impl PartialEqSpecImpl<str> for InlinableString {
    open spec fn obeys_eq_spec() -> bool {
        true
    }

    open spec fn eq_spec(&self, other: &str) -> bool {
        self.spec_bytes() == other.spec_bytes()
    }
}

impl<'a> PartialEq<&'a str> for InlinableString {
    fn eq(&self, other: &&'a str) -> (r: bool) {
        same_bytes(self.as_bytes(), other.as_bytes())
    }
}

impl<'a> PartialEqSpecImpl<&'a str> for InlinableString {
    open spec fn obeys_eq_spec() -> bool {
        true
    }

    open spec fn eq_spec(&self, other: &&'a str) -> bool {
        self.spec_bytes() == other.spec_bytes()
    }
}

impl PartialEq<String> for InlinableString {
    fn eq(&self, other: &String) -> (r: bool) {
        same_bytes(self.as_bytes(), other.as_str().as_bytes())
    }
}

impl PartialEqSpecImpl<String> for InlinableString {
    open spec fn obeys_eq_spec() -> bool {
        true
    }

    open spec fn eq_spec(&self, other: &String) -> bool {
        self.spec_bytes() == encode_utf8(other@)
    }
}

impl PartialEq<InlineString> for InlinableString {
    fn eq(&self, other: &InlineString) -> (r: bool) {
        same_bytes(self.as_bytes(), other.as_bytes())
    }
}

impl PartialEqSpecImpl<InlineString> for InlinableString {
    open spec fn obeys_eq_spec() -> bool {
        true
    }

    open spec fn eq_spec(&self, other: &InlineString) -> bool {
        self.spec_bytes() == other.spec_bytes()
    }
}

} // verus!
