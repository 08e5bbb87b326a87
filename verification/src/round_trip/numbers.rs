//! A number that is written and read again.

use vstd::prelude::*;
use crate::data_structures::j_number::{
    digits_end,
    exponent_end,
    exponent_start,
    fraction_end,
    has_exponent,
    has_exponent_sign,
    has_fraction,
    integer_end,
    integer_start,
    lemma_digits_end_run,
    literal_parts,
    number_spec,
    zero_digits,
    Decimal,
    NumberError,
    Sign,
};
use crate::data_structures::number_value::digits_value;
use crate::text::is_digit;

verus! {

impl Decimal {
    /// The number as reading its text gives it: without the marker and the
    /// sign of an exponent that is `0`.
    pub open spec fn canonical(self) -> Decimal {
        if self.exponent == zero_digits() {
            Decimal { e_sign: Sign::NoSign, e_symbol: None, ..self }
        } else {
            self
        }
    }

}

/// Where digits stand from `from` up to `to`, and no digit stands at `to`,
/// the run of digits that starts at `from` ends at `to`.
pub proof fn lemma_digits_end_at(s: Seq<char>, from: int, to: int)
    requires
        0 <= from <= to <= s.len(),
        forall|k: int| from <= k < to ==> is_digit(#[trigger] s[k]),
        to < s.len() ==> !is_digit(s[to]),
    ensures
        digits_end(s, from) == to,
{
    lemma_digits_end_run(s, from, to);
}

/// Reading the text of a well-formed number gives the number back, in its
/// canonical form.
pub proof fn lemma_number_round_trip(d: Decimal)
    requires
        d.well_formed(),
    ensures
        number_spec(d.render()) == Ok::<Decimal, NumberError>(d.canonical()),
{
    let s = d.render();
    let sg = d.sign_text();
    let ft = d.fraction_text();
    let et = d.exponent_text();
    let a = sg.len() as int;
    let b = a + d.integer.len();
    let c = b + ft.len();
    let n = c + et.len();
    assert(s.len() == n);
    assert(forall|k: int| 0 <= k < a ==> s[k] == sg[k]);
    assert(forall|k: int| a <= k < b ==> s[k] == d.integer[k - a]);
    assert(forall|k: int| b <= k < c ==> s[k] == ft[k - b]);
    assert(forall|k: int| c <= k < n ==> s[k] == et[k - c]);
    assert(is_digit(d.integer[0]));
    assert(s[a] == d.integer[0]);
    assert(integer_start(s) == a);
    assert(is_digit(d.fraction[0]));
    assert(is_digit(d.exponent[0]));
    // The integer part.
    assert forall|k: int| a <= k < b implies is_digit(#[trigger] s[k]) by {
        assert(is_digit(d.integer[k - a]));
    }
    assert(b < n ==> !is_digit(s[b])) by {
        if b < c {
            assert(s[b] == ft[0]);
        } else if b < n {
            assert(s[b] == et[0]);
        }
    }
    lemma_digits_end_at(s, a, b);
    assert(integer_end(s) == b);
    // The fraction.
    assert(has_fraction(s) == (d.fraction != zero_digits())) by {
        if b < c {
            assert(s[b] == ft[0]);
        } else if b < n {
            assert(s[b] == et[0]);
        }
    }
    if has_fraction(s) {
        assert forall|k: int| b + 1 <= k < c implies is_digit(#[trigger] s[k]) by {
            assert(s[k] == ft[k - b]);
            assert(ft[k - b] == d.fraction[k - b - 1]);
        }
        assert(c < n ==> !is_digit(s[c])) by {
            if c < n {
                assert(s[c] == et[0]);
            }
        }
        lemma_digits_end_at(s, b + 1, c);
    }
    assert(fraction_end(s) == c);
    // The exponent.
    assert(has_exponent(s) == (d.exponent != zero_digits())) by {
        if c < n {
            assert(s[c] == et[0]);
        }
    }
    if has_exponent(s) {
        let signed: int = if d.e_sign == Sign::NoSign {
            0
        } else {
            1
        };
        assert(et.len() == 1 + signed + d.exponent.len());
        assert(s[c + 1] == et[1]);
        assert(has_exponent_sign(s) == (d.e_sign != Sign::NoSign)) by {
            if d.e_sign == Sign::NoSign {
                assert(et[1] == d.exponent[0]);
            }
        }
        let x = c + 1 + signed;
        assert(exponent_start(s) == x);
        assert forall|k: int| x <= k < n implies is_digit(#[trigger] s[k]) by {
            assert(s[k] == et[k - c]);
            assert(et[k - c] == d.exponent[k - x]);
        }
        lemma_digits_end_at(s, x, n);
        assert(s.subrange(x, n) =~= d.exponent);
    }
    assert(exponent_end(s) == n);
    let m = literal_parts(s);
    assert(m.integer =~= d.integer);
    if has_fraction(s) {
        assert(s.subrange(b + 1, c) =~= d.fraction);
    }
    assert(m.fraction == d.fraction);
    assert(m.exponent == d.exponent);
    assert(m.sign == d.sign);
    assert(m == d.canonical());
}

/// The canonical form of a number has the value of the number.
pub proof fn lemma_canonical_same_value(d: Decimal)
    ensures
        d.canonical().same_value(d),
        d.canonical().canonical() == d.canonical(),
        d.well_formed() ==> d.canonical().well_formed(),
{
    if d.exponent == zero_digits() {
        assert(zero_digits().drop_last().len() == 0);
        assert(digits_value(zero_digits()) == 0) by {
            reveal_with_fuel(digits_value, 2);
        }
    }
}

} // verus!
