//! Helpers on characters and strings shared by the other modules: turning a
//! string into a vector of its characters, appending to a string, and writing
//! numbers in decimal and hexadecimal notation.

use vstd::prelude::*;
use vstd::std_specs::iter::IteratorSpec;

verus! {

/// Whether `c` is one of the decimal digits U+0030 through U+0039.
pub open spec fn is_digit(c: char) -> bool {
    '0' <= c <= '9'
}

/// Whether every character of `s` is a decimal digit.
pub open spec fn all_digits(s: Seq<char>) -> bool {
    forall|i: int| 0 <= i < s.len() ==> is_digit(#[trigger] s[i])
}

/// Whether `c` is one of the four whitespace characters of JSON: space, line
/// feed, carriage return and character tabulation.
pub open spec fn is_whitespace(c: char) -> bool {
    c == ' ' || c == '\n' || c == '\r' || c == '\t'
}

/// The character that writes the digit `d` in bases up to sixteen, with the
/// letters in upper case if `upper` holds and in lower case otherwise.
pub open spec fn digit_char(d: nat, upper: bool) -> char
    recommends
        d < 16,
{
    if d < 10 {
        (48 + d) as char
    } else if upper {
        (55 + d) as char
    } else {
        (87 + d) as char
    }
}

/// The decimal notation of `n`, without leading zeros.
pub open spec fn decimal_text(n: nat) -> Seq<char>
    decreases n,
{
    if n < 10 {
        seq![digit_char(n, false)]
    } else {
        decimal_text(n / 10).push(digit_char(n % 10, false))
    }
}

/// The hexadecimal notation of `n`, padded with leading zeros to at least
/// `width` digits.
pub open spec fn hex_text(n: nat, width: nat, upper: bool) -> Seq<char>
    decreases n, width,
{
    if n < 16 && width <= 1 {
        seq![digit_char(n, upper)]
    } else {
        let rest: nat = if width > 0 {
            (width - 1) as nat
        } else {
            0
        };
        hex_text(n / 16, rest, upper).push(digit_char(n % 16, upper))
    }
}

/// Appends one character to a string.
///
/// Trusted: `String::push` is assumed to extend the string's sequence of
/// characters by exactly `c` at its end.
#[verifier::external_body]
pub(crate) fn push_char(s: &mut String, c: char)
    ensures
        final(s)@ == old(s)@.push(c),
{
    s.push(c)
}

/// The characters of `s`, in order, as a vector that can be indexed.
pub fn chars_of(s: &str) -> (v: Vec<char>)
    ensures
        v@ == s@,
{
    let mut v: Vec<char> = Vec::new();
    let mut it = s.chars();
    loop
        invariant
            it.obeys_prophetic_iter_laws(),
            it.decrease() is Some,
            v@ + it.remaining() == s@,
        ensures
            v@ == s@,
        decreases it.decrease()->0,
    {
        match it.next() {
            Some(c) => {
                v.push(c);
            },
            None => {
                assert(v@ =~= s@);
                break;
            },
        }
    }
    v
}

/// The string made of the characters `v[from..to]`.
pub fn string_of(v: &Vec<char>, from: usize, to: usize) -> (s: String)
    requires
        from <= to <= v.len(),
    ensures
        s@ == v@.subrange(from as int, to as int),
{
    let mut s = String::new();
    let mut i: usize = from;
    while i < to
        invariant
            from <= i <= to <= v.len(),
            s@ == v@.subrange(from as int, i as int),
        decreases to - i,
    {
        push_char(&mut s, v[i]);
        i += 1;
        assert(s@ =~= v@.subrange(from as int, i as int));
    }
    s
}

/// The character for a digit below sixteen.
fn digit_to_char(d: u8, upper: bool) -> (c: char)
    requires
        d < 16,
    ensures
        c == digit_char(d as nat, upper),
{
    if d < 10 {
        (48 + d) as char
    } else if upper {
        (55 + d) as char
    } else {
        (87 + d) as char
    }
}

/// Appends the decimal notation of `n` to `s`.
pub fn push_decimal(s: &mut String, n: usize)
    ensures
        final(s)@ == old(s)@ + decimal_text(n as nat),
    decreases n,
{
    if n < 10 {
        push_char(s, digit_to_char(n as u8, false));
        assert(s@ =~= old(s)@ + decimal_text(n as nat));
    } else {
        push_decimal(s, n / 10);
        push_char(s, digit_to_char((n % 10) as u8, false));
        assert(s@ =~= old(s)@ + decimal_text(n as nat));
    }
}

/// Appends the hexadecimal notation of `n` to `s`, padded with leading zeros
/// to at least `width` digits.
pub fn push_hex(s: &mut String, n: u32, width: u32, upper: bool)
    ensures
        final(s)@ == old(s)@ + hex_text(n as nat, width as nat, upper),
    decreases n, width,
{
    if n < 16 && width <= 1 {
        push_char(s, digit_to_char(n as u8, upper));
        assert(s@ =~= old(s)@ + hex_text(n as nat, width as nat, upper));
    } else {
        let w: u32 = if width == 0 { 0 } else { width - 1 };
        push_hex(s, n / 16, w, upper);
        push_char(s, digit_to_char((n % 16) as u8, upper));
        assert(s@ =~= old(s)@ + hex_text(n as nat, width as nat, upper));
    }
}

/// Appends the characters of `t` to `s`.
pub fn push_seq(s: &mut String, t: &Vec<char>)
    ensures
        final(s)@ == old(s)@ + t@,
{
    let mut i: usize = 0;
    while i < t.len()
        invariant
            i <= t.len(),
            s@ == old(s)@ + t@.subrange(0, i as int),
        decreases t.len() - i,
    {
        push_char(s, t[i]);
        i += 1;
        assert(s@ =~= old(s)@ + t@.subrange(0, i as int));
    }
    assert(t@.subrange(0, t.len() as int) =~= t@);
}

} // verus!
