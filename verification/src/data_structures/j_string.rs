//! The string of a JSON document.

use vstd::prelude::*;
use crate::serializer::{quoted, serialize_string, Serialize};
use crate::text::{chars_of, hex_text, push_hex};

verus! {

/// Whether `c` is a control character that no string may hold: U+0000 to
/// U+0007, U+000B, and U+000E to U+001F.
pub open spec fn is_illegal_char(c: char) -> bool {
    (c as u32) < 0x0008 || (c as u32) == 0x000B || ((c as u32) > 0x000D && (c as u32) < 0x0020)
}

/// Whether `s` holds no illegal character.
pub open spec fn is_legal_text(s: Seq<char>) -> bool {
    forall|i: int| 0 <= i < s.len() ==> !is_illegal_char(#[trigger] s[i])
}

/// The first illegal character of `s`; a space where `s` holds none.
pub open spec fn first_illegal_char(s: Seq<char>) -> char
    decreases s.len(),
{
    if s.len() == 0 {
        ' '
    } else if is_illegal_char(s[0]) {
        s[0]
    } else {
        first_illegal_char(s.drop_first())
    }
}

/// The message for a text that holds the illegal character `c`.
pub open spec fn illegal_char_message(c: char) -> Seq<char> {
    "The string contains an illegal char (0x"@ + hex_text(c as nat, 4, true) + ")"@
}

/// The message for a text that holds the illegal character `c`.
pub fn illegal_char_text(c: char) -> (m: String)
    ensures
        m@ == illegal_char_message(c),
{
    let mut m = String::from_str("The string contains an illegal char (0x");
    push_hex(&mut m, c as u32, 4, true);
    m.append(")");
    m
}

/// A string is a sequence of Unicode code points wrapped with quotation
/// marks. All code points may be placed within the quotation marks except
/// for the control characters that [`is_illegal_char`] names.
#[derive(Debug, Hash)]
pub struct JString {
    value: String,
}

impl View for JString {
    type V = Seq<char>;

    closed spec fn view(&self) -> Seq<char> {
        self.value@
    }
}

impl Clone for JString {
    fn clone(&self) -> (r: Self)
        ensures
            r@ == self@,
    {
        proof {
            use_type_invariant(self);
        }
        JString { value: self.value.clone() }
    }
}

impl PartialEq for JString {
    fn eq(&self, other: &Self) -> (r: bool) {
        self.value == other.value
    }
}

impl Eq for JString {

}

impl vstd::std_specs::cmp::PartialEqSpecImpl for JString {
    open spec fn obeys_eq_spec() -> bool {
        true
    }

    /// Two strings are equal if they hold the same characters.
    open spec fn eq_spec(&self, other: &JString) -> bool {
        self@ == other@
    }
}

impl JString {
    #[verifier::type_invariant]
    spec fn holds_legal_text(&self) -> bool {
        is_legal_text(self.value@)
    }

    /// Creates a new JSON string object. The text is taken as it is, unless
    /// it holds an illegal character: the error is then the first one.
    pub fn from_text(str: &str) -> (r: Result<JString, char>)
        ensures
            match r {
                Ok(s) => is_legal_text(str@) && s@ == str@,
                Err(c) => !is_legal_text(str@) && c == first_illegal_char(str@),
            },
    {
        let chars = chars_of(str);
        let mut i: usize = 0;
        assert(str@.subrange(0, str@.len() as int) =~= str@);
        while i < chars.len()
            invariant
                i <= chars.len(),
                chars@ == str@,
                is_legal_text(str@.subrange(0, i as int)),
                first_illegal_char(str@) == first_illegal_char(
                    str@.subrange(i as int, str@.len() as int),
                ),
            decreases chars.len() - i,
        {
            let c = chars[i];
            let ghost rest = str@.subrange(i as int, str@.len() as int);
            assert(rest[0] == c);
            if (c as u32) < 0x0008 || (c as u32) == 0x000B || ((c as u32) > 0x000D && (c as u32)
                < 0x0020) {
                assert(is_illegal_char(str@[i as int]));
                return Err(c);
            }
            proof {
                assert(rest.drop_first() =~= str@.subrange(i + 1, str@.len() as int));
                assert forall|k: int| 0 <= k < i + 1 implies !is_illegal_char(
                    #[trigger] str@.subrange(0, i + 1)[k],
                ) by {
                    if k < i {
                        assert(str@.subrange(0, i as int)[k] == str@[k]);
                    }
                }
            }
            i += 1;
        }
        assert(str@.subrange(0, i as int) =~= str@);
        Ok(JString { value: String::from_str(str) })
    }

    /// Creates a new JSON string object. The text is taken as it is, unless
    /// it holds an illegal character: the error then names the first one.
    pub fn new(str: &str) -> (r: Result<JString, String>)
        ensures
            match r {
                Ok(s) => is_legal_text(str@) && s@ == str@,
                Err(m) => !is_legal_text(str@) && m@ == illegal_char_message(
                    first_illegal_char(str@),
                ),
            },
    {
        match JString::from_text(str) {
            Ok(s) => Ok(s),
            Err(c) => Err(illegal_char_text(c)),
        }
    }

    /// The text of the string, as it was given.
    pub fn to_string(&self) -> (r: String)
        ensures
            r@ == self@,
    {
        self.value.clone()
    }

    /// The text of the string, which is legal.
    pub fn as_str(&self) -> (r: &str)
        ensures
            r@ == self@,
            is_legal_text(self@),
    {
        proof {
            use_type_invariant(self);
        }
        self.value.as_str()
    }
}

impl Serialize for JString {
    open spec fn serialization(&self) -> Seq<char> {
        quoted(self@)
    }

    /// Creates a serialization of the string as a JSON string: its
    /// characters, escaped where needed, between quotation marks.
    fn serialize(&self) -> (r: String) {
        serialize_string(&self.value)
    }
}

} // verus!
