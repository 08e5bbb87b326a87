//! Compact JSON text for values that are already built.

use vstd::prelude::*;
use crate::text::push_char;

verus! {

/// A data structure that has a JSON text.
pub trait Serialize {
    /// The JSON text of the value, with no whitespace between its tokens.
    spec fn serialization(&self) -> Seq<char>;

    /// Writes the value as JSON text with no whitespace between its tokens.
    fn serialize(&self) -> (r: String)
        ensures
            r@ == self.serialization(),
    ;
}

/// Whether `c` is written as a two-character escape inside a string:
/// quotation mark, backslash, slash, backspace, form feed, line feed,
/// carriage return and tab.
pub open spec fn is_escaped(c: char) -> bool {
    c == '"' || c == '\\' || c == '/' || c == '\u{8}' || c == '\u{c}' || c == '\n' || c == '\r'
        || c == '\t'
}

/// How `c` is written inside a string: as a backslash and a second character
/// if it is one of the escaped characters, and else as itself.
pub open spec fn escape(c: char) -> Seq<char> {
    if c == '\n' {
        seq!['\\', 'n']
    } else if c == '\t' {
        seq!['\\', 't']
    } else if c == '"' {
        seq!['\\', '"']
    } else if c == '\\' {
        seq!['\\', '\\']
    } else if c == '/' {
        seq!['\\', '/']
    } else if c == '\u{8}' {
        seq!['\\', 'b']
    } else if c == '\u{c}' {
        seq!['\\', 'f']
    } else if c == '\r' {
        seq!['\\', 'r']
    } else {
        seq![c]
    }
}

/// The characters of `s`, each written as inside a string.
pub open spec fn escape_all(s: Seq<char>) -> Seq<char>
    decreases s.len(),
{
    if s.len() == 0 {
        Seq::empty()
    } else {
        escape_all(s.drop_last()) + escape(s.last())
    }
}

/// The JSON text of the string `s`: its characters, escaped where needed,
/// between quotation marks.
pub open spec fn quoted(s: Seq<char>) -> Seq<char> {
    seq!['"'] + escape_all(s) + seq!['"']
}

/// Appends `c` to `out` as it is written inside a string.
fn push_escaped(out: &mut String, c: char)
    ensures
        final(out)@ == old(out)@ + escape(c),
{
    if c == '\n' {
        push_char(out, '\\');
        push_char(out, 'n');
    } else if c == '\t' {
        push_char(out, '\\');
        push_char(out, 't');
    } else if c == '"' {
        push_char(out, '\\');
        push_char(out, '"');
    } else if c == '\\' {
        push_char(out, '\\');
        push_char(out, '\\');
    } else if c == '/' {
        push_char(out, '\\');
        push_char(out, '/');
    } else if c == '\u{8}' {
        push_char(out, '\\');
        push_char(out, 'b');
    } else if c == '\u{c}' {
        push_char(out, '\\');
        push_char(out, 'f');
    } else if c == '\r' {
        push_char(out, '\\');
        push_char(out, 'r');
    } else {
        push_char(out, c);
    }
    assert(out@ =~= old(out)@ + escape(c));
}

/// Appends the characters `chars` to `out`, each written as inside a string,
/// between quotation marks.
pub fn push_quoted(out: &mut String, chars: &Vec<char>)
    ensures
        final(out)@ == old(out)@ + quoted(chars@),
{
    push_char(out, '"');
    let mut i: usize = 0;
    assert(chars@.subrange(0, 0) =~= Seq::<char>::empty());
    while i < chars.len()
        invariant
            i <= chars.len(),
            out@ == old(out)@ + seq!['"'] + escape_all(chars@.subrange(0, i as int)),
        decreases chars.len() - i,
    {
        push_escaped(out, chars[i]);
        proof {
            let next = chars@.subrange(0, i + 1);
            assert(next.drop_last() =~= chars@.subrange(0, i as int));
            assert(next.last() == chars@[i as int]);
            assert(out@ =~= old(out)@ + seq!['"'] + escape_all(next));
        }
        i += 1;
    }
    push_char(out, '"');
    assert(chars@.subrange(0, chars.len() as int) =~= chars@);
    assert(out@ =~= old(out)@ + quoted(chars@));
}

/// Creates a serialization of a string as a JSON string with minimal
/// whitespace characters.
pub fn serialize_string(string: &String) -> (r: String)
    ensures
        r@ == quoted(string@),
{
    let chars = crate::text::chars_of(string.as_str());
    let mut s = String::new();
    push_quoted(&mut s, &chars);
    assert(s@ =~= quoted(string@));
    s
}

} // verus!
