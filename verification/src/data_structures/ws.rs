//! Whitespace between the tokens of a JSON document.

use vstd::prelude::*;
use crate::data_structures::j_whitespace::{all_whitespace, is_whitespace_text};

verus! {

/// A data structure that represents whitespace. Whitespace is any sequence of
/// one or more of the following code points: character tabulation (U+0009),
/// line feed (U+000A), carriage return (U+000D), and space (U+0020).
#[derive(Debug)]
pub struct Ws {
    value: String,
}

impl View for Ws {
    type V = Seq<char>;

    closed spec fn view(&self) -> Seq<char> {
        self.value@
    }
}

impl Clone for Ws {
    fn clone(&self) -> (r: Self)
        ensures
            r@ == self@,
    {
        proof {
            use_type_invariant(self);
        }
        Ws { value: self.value.clone() }
    }
}

impl PartialEq for Ws {
    fn eq(&self, other: &Self) -> (r: bool) {
        self.value == other.value
    }
}

impl vstd::std_specs::cmp::PartialEqSpecImpl for Ws {
    open spec fn obeys_eq_spec() -> bool {
        true
    }

    /// Two runs of whitespace are equal if they hold the same characters.
    open spec fn eq_spec(&self, other: &Ws) -> bool {
        self@ == other@
    }
}

impl Ws {
    #[verifier::type_invariant]
    spec fn holds_whitespace(&self) -> bool {
        self.value@.len() > 0 && all_whitespace(self.value@)
    }

    /// Creates a new run of whitespace, which holds only the characters
    /// U+0020, U+000A, U+000D and U+0009, and at least one of them.
    pub fn new(whitespace: &str) -> (r: Result<Ws, &'static str>)
        ensures
            match r {
                Ok(w) => whitespace@.len() > 0 && all_whitespace(whitespace@) && w@
                    == whitespace@,
                Err(m) => if whitespace@.len() == 0 {
                    m@ == "The string is empty"@
                } else {
                    !all_whitespace(whitespace@) && m@ == "The string contains illegal characters"@
                },
            },
    {
        if whitespace.unicode_len() == 0 {
            Err("The string is empty")
        } else if is_whitespace_text(whitespace) {
            Ok(Ws { value: String::from_str(whitespace) })
        } else {
            Err("The string contains illegal characters")
        }
    }

    /// The whitespace, as it was given.
    pub fn to_string(&self) -> (r: String)
        ensures
            r@ == self@,
    {
        self.value.clone()
    }
}

} // verus!
