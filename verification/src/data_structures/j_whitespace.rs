//! The whitespace of a JSON document.

use vstd::prelude::*;
use crate::serializer::Serialize;
use crate::text::{chars_of, is_whitespace, push_char};

verus! {

/// Whether every character of `s` is whitespace.
pub open spec fn all_whitespace(s: Seq<char>) -> bool {
    forall|i: int| 0 <= i < s.len() ==> is_whitespace(#[trigger] s[i])
}

/// Whether `s`, which is not empty, holds only whitespace.
pub fn is_whitespace_text(s: &str) -> (b: bool)
    ensures
        b == all_whitespace(s@),
{
    let chars = chars_of(s);
    let mut i: usize = 0;
    while i < chars.len()
        invariant
            i <= chars.len(),
            chars@ == s@,
            forall|k: int| 0 <= k < i ==> is_whitespace(#[trigger] s@[k]),
        decreases chars.len() - i,
    {
        let c = chars[i];
        if !(c == ' ' || c == '\n' || c == '\r' || c == '\t') {
            return false;
        }
        i += 1;
    }
    true
}

/// A data structure that represents whitespace. Whitespace is any sequence of
/// one or more of the following code points: character tabulation (U+0009),
/// line feed (U+000A), carriage return (U+000D), and space (U+0020).
#[derive(Debug)]
pub struct JWhitespace {
    value: String,
}

impl View for JWhitespace {
    type V = Seq<char>;

    closed spec fn view(&self) -> Seq<char> {
        self.value@
    }
}

impl Clone for JWhitespace {
    fn clone(&self) -> (r: Self)
        ensures
            r@ == self@,
    {
        proof {
            use_type_invariant(self);
        }
        JWhitespace { value: self.value.clone() }
    }
}

impl PartialEq for JWhitespace {
    fn eq(&self, other: &Self) -> (r: bool) {
        self.value == other.value
    }
}

impl vstd::std_specs::cmp::PartialEqSpecImpl for JWhitespace {
    open spec fn obeys_eq_spec() -> bool {
        true
    }

    /// Two runs of whitespace are equal if they hold the same characters.
    open spec fn eq_spec(&self, other: &JWhitespace) -> bool {
        self@ == other@
    }
}

impl JWhitespace {
    #[verifier::type_invariant]
    spec fn holds_whitespace(&self) -> bool {
        self.value@.len() > 0 && all_whitespace(self.value@)
    }

    /// Creates a new run of whitespace, which holds only the characters
    /// U+0020, U+000A, U+000D and U+0009, and at least one of them.
    pub fn new(whitespace: &str) -> (r: Result<JWhitespace, &'static str>)
        ensures
            match r {
                Ok(w) => whitespace@.len() > 0 && all_whitespace(whitespace@) && w@
                    == whitespace@,
                Err(m) => if whitespace@.len() == 0 {
                    m@ == "The string is empty"@
                } else {
                    !all_whitespace(whitespace@) && m@ == "The string contains illegal characters"@
                },
            },
    {
        if whitespace.unicode_len() == 0 {
            Err("The string is empty")
        } else if is_whitespace_text(whitespace) {
            Ok(JWhitespace { value: String::from_str(whitespace) })
        } else {
            Err("The string contains illegal characters")
        }
    }

    /// The whitespace, as it was given.
    pub fn to_string(&self) -> (r: String)
        ensures
            r@ == self@,
    {
        self.value.clone()
    }
}

impl Serialize for JWhitespace {
    /// Any run of whitespace is written as a single space.
    open spec fn serialization(&self) -> Seq<char> {
        seq![' ']
    }

    fn serialize(&self) -> (r: String) {
        let mut s = String::new();
        push_char(&mut s, ' ');
        s
    }
}

} // verus!
