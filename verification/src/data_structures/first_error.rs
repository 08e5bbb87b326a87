//! The error of a text that is no numeric literal names the first character
//! that cannot stand where it does.

use vstd::prelude::*;
use crate::data_structures::j_number::{
    digits_end,
    exponent_end,
    exponent_start,
    fraction_end,
    has_exponent,
    has_exponent_sign,
    has_fraction,
    integer_end,
    integer_start,
    lemma_digits_end_bounds,
    lemma_digits_end_run,
    number_spec,
};
use crate::text::is_digit;

verus! {

/// Whether `s` and `t` hold the same characters before index `k`.
pub open spec fn agree_before(s: Seq<char>, t: Seq<char>, k: int) -> bool {
    &&& 0 <= k <= s.len()
    &&& k <= t.len()
    &&& forall|x: int| 0 <= x < k ==> s[x] == t[x]
}

/// A run of digits that ends before index `k` ends at the same place in
/// every text that holds the same characters up to and including the one
/// that ends it.
pub proof fn lemma_digits_end_agrees(s: Seq<char>, t: Seq<char>, k: int, from: int)
    requires
        agree_before(s, t, k),
        0 <= from <= digits_end(s, from) < k,
    ensures
        digits_end(t, from) == digits_end(s, from),
    decreases k - from,
{
    if is_digit(s[from]) {
        lemma_digits_end_bounds(s, from + 1);
        lemma_digits_end_agrees(s, t, k, from + 1);
    }
}

/// A text that holds the same characters as `s` up to and including the one
/// at which `s` is refused is refused at the same place and for the same
/// reason: nothing that follows can mend the text.
pub proof fn lemma_error_is_final(s: Seq<char>, t: Seq<char>)
    requires
        s.len() <= usize::MAX,
        number_spec(s) is Err,
        number_spec(s)->Err_0.position() < s.len(),
        agree_before(s, t, number_spec(s)->Err_0.position() + 1),
    ensures
        number_spec(t) == number_spec(s),
{
    let i = number_spec(s)->Err_0.position() as int;
    let k = i + 1;
    let a = integer_start(s);
    let b = integer_end(s);
    lemma_digits_end_bounds(s, a);
    assert(integer_start(t) == a);
    if b == a {
        assert(i == a);
        if a < t.len() && t[a] != '0' {
            lemma_digits_end_agrees(s, t, k, a);
        }
        assert(integer_end(t) == a);
    } else {
        if has_fraction(s) {
            lemma_digits_end_bounds(s, b + 1);
        }
        if has_exponent(s) {
            lemma_digits_end_bounds(s, exponent_start(s));
        }
        assert(b <= i);
        if s[a] != '0' {
            lemma_digits_end_agrees(s, t, k, a);
        }
        assert(integer_end(t) == b);
        assert(has_fraction(t) == has_fraction(s));
        let c = fraction_end(s);
        if has_fraction(s) && c == b + 1 {
            assert(i == b + 1);
            lemma_digits_end_agrees(s, t, k, b + 1);
        } else {
            assert(c <= i);
            if has_fraction(s) {
                lemma_digits_end_agrees(s, t, k, b + 1);
            }
            assert(fraction_end(t) == c);
            assert(has_exponent(t) == has_exponent(s));
            if has_exponent(s) {
                let d = exponent_start(s);
                assert(d <= i);
                assert(has_exponent_sign(t) == has_exponent_sign(s));
                assert(exponent_start(t) == d);
                lemma_digits_end_agrees(s, t, k, d);
            }
            assert(exponent_end(t) == exponent_end(s));
        }
    }
}


/// In the first `k` characters of `s`, a run of digits ends where it ends
/// in `s`, or at `k` if it goes on beyond.
pub proof fn lemma_digits_end_cut(s: Seq<char>, k: int, from: int)
    requires
        0 <= from <= k <= s.len(),
    ensures
        digits_end(s.subrange(0, k), from) == if digits_end(s, from) < k {
            digits_end(s, from)
        } else {
            k
        },
    decreases k - from,
{
    let p = s.subrange(0, k);
    lemma_digits_end_bounds(s, from);
    if from < k {
        assert(p[from] == s[from]);
        if is_digit(s[from]) {
            lemma_digits_end_cut(s, k, from + 1);
        }
    }
}

/// In the first `k` characters of `s` with a zero behind them, a run of
/// digits ends where it ends in `s`, or behind the zero if it goes on up to
/// `k`.
pub proof fn lemma_digits_end_zero(s: Seq<char>, k: int, from: int)
    requires
        0 <= from <= k <= s.len(),
    ensures
        digits_end(s.subrange(0, k).push('0'), from) == if digits_end(s, from) < k {
            digits_end(s, from)
        } else {
            k + 1
        },
{
    let u = s.subrange(0, k).push('0');
    lemma_digits_end_bounds(s, from);
    assert(agree_before(s, u, k));
    if digits_end(s, from) < k {
        lemma_digits_end_agrees(s, u, k, from);
    } else {
        assert forall|x: int| from <= x < k + 1 implies is_digit(#[trigger] u[x]) by {
            if x < k {
                assert(u[x] == s[x]);
            }
        }
        lemma_digits_end_run(u, from, k + 1);
    }
}

/// The characters before the one at which `s` is refused can start a
/// literal: they are a literal, or become one when a zero follows them. With
/// [`lemma_error_is_final`] this says that the error names the first
/// character that cannot stand where it does.
pub proof fn lemma_error_is_first(s: Seq<char>)
    requires
        s.len() <= usize::MAX,
        number_spec(s) is Err,
    ensures
        number_spec(s)->Err_0.position() <= s.len(),
        number_spec(s.subrange(0, number_spec(s)->Err_0.position() as int)) is Ok || number_spec(
            s.subrange(0, number_spec(s)->Err_0.position() as int).push('0'),
        ) is Ok,
{
    let i = number_spec(s)->Err_0.position() as int;
    let a = integer_start(s);
    let b = integer_end(s);
    lemma_digits_end_bounds(s, a);
    if has_fraction(s) {
        lemma_digits_end_bounds(s, b + 1);
    }
    if has_exponent(s) {
        lemma_digits_end_bounds(s, exponent_start(s));
    }
    let c = fraction_end(s);
    let d = exponent_start(s);
    assert(0 <= i <= s.len());
    let p = s.subrange(0, i);
    let u = p.push('0');
    assert(forall|x: int| 0 <= x < i ==> p[x] == s[x]);
    assert(forall|x: int| 0 <= x < i ==> u[x] == s[x]);
    assert(u[i] == '0');
    if b == a {
        assert(integer_start(u) == a);
        assert(integer_end(u) == a + 1);
        assert(number_spec(u) is Ok);
    } else if has_fraction(s) && c == b + 1 {
        assert(integer_start(u) == a);
        if s[a] != '0' {
            lemma_digits_end_zero(s, i, a);
        }
        assert(integer_end(u) == b);
        lemma_digits_end_zero(s, i, b + 1);
        assert(fraction_end(u) == b + 2);
        assert(number_spec(u) is Ok);
    } else if has_exponent(s) && exponent_end(s) == d {
        assert(integer_start(u) == a);
        if s[a] != '0' {
            lemma_digits_end_zero(s, i, a);
        }
        assert(integer_end(u) == b);
        if has_fraction(s) {
            lemma_digits_end_zero(s, i, b + 1);
        }
        assert(fraction_end(u) == c);
        assert(has_exponent(u));
        assert(has_exponent_sign(u) == has_exponent_sign(s));
        assert(exponent_start(u) == d);
        lemma_digits_end_zero(s, i, d);
        assert(exponent_end(u) == d + 1);
        assert(number_spec(u) is Ok);
    } else {
        assert(integer_start(p) == a);
        if s[a] != '0' {
            lemma_digits_end_cut(s, i, a);
        }
        assert(integer_end(p) == b);
        assert(has_fraction(p) == has_fraction(s));
        if has_fraction(s) {
            lemma_digits_end_cut(s, i, b + 1);
        }
        assert(fraction_end(p) == c);
        assert(has_exponent(p) == has_exponent(s));
        if has_exponent(s) {
            assert(has_exponent_sign(p) == has_exponent_sign(s));
            assert(exponent_start(p) == d);
            lemma_digits_end_cut(s, i, d);
        }
        assert(exponent_end(p) == i);
        assert(number_spec(p) is Ok);
    }
}

} // verus!
