//! The number of a JSON document: the grammar of a numeric literal, the
//! structured form that a literal is taken apart into, and the way back to
//! text.

use vstd::prelude::*;
use crate::serializer::Serialize;
use crate::text::{
    all_digits,
    chars_of,
    decimal_text,
    is_digit,
    push_char,
    push_decimal,
    push_seq,
};

verus! {

/// The sign of a number or of its exponent.
#[derive(Debug, Clone, Copy, PartialEq, Eq, Structural)]
pub enum Sign {
    NoSign,
    Positive,
    Negative,
}

/// The mathematical model of a number: the parts of its literal.
///
/// A literal without a fractional part has the fraction `0`, and one without
/// an exponent has the exponent `0` and no exponent marker.
pub struct Decimal {
    pub sign: Sign,
    pub integer: Seq<char>,
    pub fraction: Seq<char>,
    pub exponent: Seq<char>,
    pub e_sign: Sign,
    pub e_symbol: Option<char>,
}

/// Why a text is not a numeric literal. Every variant carries the index of
/// the first character that cannot stand where it does; an index equal to the
/// length of the text says that the text ends too early.
#[derive(Debug, Clone, Copy, PartialEq, Eq, Structural)]
pub enum NumberError {
    /// The text starts with something other than a digit or a minus sign, or
    /// holds a second exponent marker.
    IllegalSymbol { symbol: char, index: usize },
    /// Something other than a point or an exponent marker follows a leading
    /// zero.
    PointExpected { index: usize },
    /// A digit is missing: after the minus sign, after the point, or in the
    /// exponent at the end of the text.
    DigitExpected { index: usize },
    /// A point stands after another point or in the exponent.
    IllegalPoint { index: usize },
    /// A sign stands neither first nor directly behind the exponent marker.
    IllegalSign { index: usize },
    /// A character that no numeric literal holds.
    IllegalFirstSymbol { symbol: char, index: usize },
}

/// The sequence that holds the single digit zero.
pub open spec fn zero_digits() -> Seq<char> {
    seq!['0']
}

impl Decimal {
    /// The parts are digit sequences of the right shape: none is empty, the
    /// integer part has no superfluous leading zero, the number's sign is not
    /// written as a plus, and an exponent needs its marker.
    pub open spec fn well_formed(self) -> bool {
        &&& self.sign != Sign::Positive
        &&& self.integer.len() > 0
        &&& all_digits(self.integer)
        &&& (self.integer[0] == '0' ==> self.integer.len() == 1)
        &&& self.fraction.len() > 0
        &&& all_digits(self.fraction)
        &&& self.exponent.len() > 0
        &&& all_digits(self.exponent)
        &&& match self.e_symbol {
            Some(c) => c == 'e' || c == 'E',
            None => self.exponent == zero_digits() && self.e_sign == Sign::NoSign,
        }
    }

    /// The text of the sign: a minus sign if the number is negative.
    pub open spec fn sign_text(self) -> Seq<char> {
        if self.sign == Sign::Negative {
            seq!['-']
        } else {
            Seq::<char>::empty()
        }
    }

    /// The text of the fraction: its digits behind a point, and nothing if
    /// the fraction is `0`.
    pub open spec fn fraction_text(self) -> Seq<char> {
        if self.fraction != zero_digits() {
            seq!['.'] + self.fraction
        } else {
            Seq::<char>::empty()
        }
    }

    /// The text of the exponent: its digits behind the marker and the sign,
    /// and nothing if the exponent is `0`.
    pub open spec fn exponent_text(self) -> Seq<char> {
        if self.exponent != zero_digits() {
            (match self.e_symbol {
                Some(c) => seq![c],
                None => Seq::<char>::empty(),
            }) + (match self.e_sign {
                Sign::NoSign => Seq::<char>::empty(),
                Sign::Positive => seq!['+'],
                Sign::Negative => seq!['-'],
            }) + self.exponent
        } else {
            Seq::<char>::empty()
        }
    }

    /// The text of the number: the sign, the integer part, the fraction and
    /// the exponent.
    pub open spec fn render(self) -> Seq<char> {
        self.sign_text() + self.integer + self.fraction_text() + self.exponent_text()
    }
}

impl NumberError {
    /// The index of the offending character.
    pub open spec fn position(self) -> usize {
        match self {
            NumberError::IllegalSymbol { index, .. } => index,
            NumberError::PointExpected { index } => index,
            NumberError::DigitExpected { index } => index,
            NumberError::IllegalPoint { index } => index,
            NumberError::IllegalSign { index } => index,
            NumberError::IllegalFirstSymbol { index, .. } => index,
        }
    }

    /// The text of the error message.
    pub open spec fn message_spec(self) -> Seq<char> {
        match self {
            NumberError::IllegalSymbol { symbol, index } => "Illegal symbol "@ + seq![symbol]
                + " at index "@ + decimal_text(index as nat),
            NumberError::PointExpected { index } => "Illegal input! Point was expected at index "@
                + decimal_text(index as nat),
            NumberError::DigitExpected { index } => "Digit was expected at index "@ + decimal_text(
                index as nat,
            ),
            NumberError::IllegalPoint { index } => "An illegal point at index "@ + decimal_text(
                index as nat,
            ),
            NumberError::IllegalSign { index } => "An illegal sign at index "@ + decimal_text(
                index as nat,
            ),
            NumberError::IllegalFirstSymbol { symbol, index } => "Illegal first symbol "@
                + seq![symbol] + " at index "@ + decimal_text(index as nat),
        }
    }

    /// The index of the offending character.
    pub fn index(&self) -> (i: usize)
        ensures
            i == self.position(),
    {
        match self {
            NumberError::IllegalSymbol { index, .. } => *index,
            NumberError::PointExpected { index } => *index,
            NumberError::DigitExpected { index } => *index,
            NumberError::IllegalPoint { index } => *index,
            NumberError::IllegalSign { index } => *index,
            NumberError::IllegalFirstSymbol { index, .. } => *index,
        }
    }

    /// The error message.
    pub fn message(&self) -> (m: String)
        ensures
            m@ == self.message_spec(),
    {
        match self {
            NumberError::IllegalSymbol { symbol, index } => {
                let mut m = String::from_str("Illegal symbol ");
                push_char(&mut m, *symbol);
                m.append(" at index ");
                push_decimal(&mut m, *index);
                m
            },
            NumberError::PointExpected { index } => {
                let mut m = String::from_str("Illegal input! Point was expected at index ");
                push_decimal(&mut m, *index);
                m
            },
            NumberError::DigitExpected { index } => {
                let mut m = String::from_str("Digit was expected at index ");
                push_decimal(&mut m, *index);
                m
            },
            NumberError::IllegalPoint { index } => {
                let mut m = String::from_str("An illegal point at index ");
                push_decimal(&mut m, *index);
                m
            },
            NumberError::IllegalSign { index } => {
                let mut m = String::from_str("An illegal sign at index ");
                push_decimal(&mut m, *index);
                m
            },
            NumberError::IllegalFirstSymbol { symbol, index } => {
                let mut m = String::from_str("Illegal first symbol ");
                push_char(&mut m, *symbol);
                m.append(" at index ");
                push_decimal(&mut m, *index);
                m
            },
        }
    }
}


/// The first index at or behind `from` at which `s` holds no digit.
pub open spec fn digits_end(s: Seq<char>, from: int) -> int
    decreases s.len() - from,
{
    if 0 <= from < s.len() && is_digit(s[from]) {
        digits_end(s, from + 1)
    } else {
        from
    }
}

/// Where the integer part starts: behind the minus sign, if there is one.
pub open spec fn integer_start(s: Seq<char>) -> int {
    if s.len() > 0 && s[0] == '-' {
        1
    } else {
        0
    }
}

/// Where the integer part ends: behind a leading zero, or else behind the
/// digits that stand at its start.
pub open spec fn integer_end(s: Seq<char>) -> int {
    let a = integer_start(s);
    if a < s.len() && s[a] == '0' {
        a + 1
    } else {
        digits_end(s, a)
    }
}

/// Whether a point follows the integer part.
pub open spec fn has_fraction(s: Seq<char>) -> bool {
    let b = integer_end(s);
    b < s.len() && s[b] == '.'
}

/// Where the fractional part ends; where the integer part ends if there is
/// no point.
pub open spec fn fraction_end(s: Seq<char>) -> int {
    if has_fraction(s) {
        digits_end(s, integer_end(s) + 1)
    } else {
        integer_end(s)
    }
}

/// Whether an exponent marker follows the integer and fractional parts.
pub open spec fn has_exponent(s: Seq<char>) -> bool {
    let c = fraction_end(s);
    c < s.len() && (s[c] == 'e' || s[c] == 'E')
}

/// Whether the exponent marker is followed by a sign.
pub open spec fn has_exponent_sign(s: Seq<char>) -> bool {
    let d = fraction_end(s) + 1;
    has_exponent(s) && d < s.len() && (s[d] == '+' || s[d] == '-')
}

/// Where the digits of the exponent start: behind the marker and its sign.
pub open spec fn exponent_start(s: Seq<char>) -> int {
    if has_exponent_sign(s) {
        fraction_end(s) + 2
    } else {
        fraction_end(s) + 1
    }
}

/// Where the exponent ends; where the fractional part ends if there is no
/// exponent marker.
pub open spec fn exponent_end(s: Seq<char>) -> int {
    if has_exponent(s) {
        digits_end(s, exponent_start(s))
    } else {
        fraction_end(s)
    }
}

/// The error for a character that ends a run of digits and cannot follow it.
pub open spec fn stray_symbol(c: char, index: usize) -> NumberError {
    if c == '.' {
        NumberError::IllegalPoint { index }
    } else if c == 'e' || c == 'E' {
        NumberError::IllegalSymbol { symbol: c, index }
    } else if c == '+' || c == '-' {
        NumberError::IllegalSign { index }
    } else {
        NumberError::IllegalFirstSymbol { symbol: c, index }
    }
}

/// The error that `s` gives where its integer part has no digit.
pub open spec fn missing_integer(s: Seq<char>) -> NumberError {
    let a = integer_start(s);
    if a >= s.len() {
        NumberError::DigitExpected { index: a as usize }
    } else if a == 0 {
        NumberError::IllegalSymbol { symbol: s[0], index: 0 }
    } else if s[a] == '.' || s[a] == 'e' || s[a] == 'E' {
        NumberError::DigitExpected { index: a as usize }
    } else {
        stray_symbol(s[a], a as usize)
    }
}

/// The error that `s` gives where its exponent has no digit.
pub open spec fn missing_exponent(s: Seq<char>) -> NumberError {
    let d = exponent_start(s);
    if d >= s.len() {
        NumberError::DigitExpected { index: d as usize }
    } else {
        stray_symbol(s[d], d as usize)
    }
}

/// The error that `s` gives where something follows the last part.
pub open spec fn trailing_symbol(s: Seq<char>) -> NumberError {
    let e = exponent_end(s);
    if !has_fraction(s) && !has_exponent(s) && s[integer_start(s)] == '0' {
        NumberError::PointExpected { index: e as usize }
    } else {
        stray_symbol(s[e], e as usize)
    }
}

/// The parts of the literal `s`.
pub open spec fn literal_parts(s: Seq<char>) -> Decimal {
    let a = integer_start(s);
    let b = integer_end(s);
    let c = fraction_end(s);
    let d = exponent_start(s);
    Decimal {
        sign: if a == 1 {
            Sign::Negative
        } else {
            Sign::NoSign
        },
        integer: s.subrange(a, b),
        fraction: if has_fraction(s) {
            s.subrange(b + 1, c)
        } else {
            zero_digits()
        },
        exponent: if has_exponent(s) {
            s.subrange(d, exponent_end(s))
        } else {
            zero_digits()
        },
        e_sign: if !has_exponent_sign(s) {
            Sign::NoSign
        } else if s[c + 1] == '+' {
            Sign::Positive
        } else {
            Sign::Negative
        },
        e_symbol: if has_exponent(s) {
            Some(s[c])
        } else {
            None
        },
    }
}

/// What reading `s` as a numeric literal gives.
///
/// A literal is an optional minus sign; then a single zero, or a digit from
/// one to nine and any number of digits; then optionally a point and at least
/// one digit; then optionally an exponent marker, an optional sign and at
/// least one digit. Any other text gives the error for the first place at
/// which it leaves this form.
pub open spec fn number_spec(s: Seq<char>) -> Result<Decimal, NumberError> {
    if integer_end(s) == integer_start(s) {
        Err(missing_integer(s))
    } else if has_fraction(s) && fraction_end(s) == integer_end(s) + 1 {
        Err(NumberError::DigitExpected { index: fraction_end(s) as usize })
    } else if has_exponent(s) && exponent_end(s) == exponent_start(s) {
        Err(missing_exponent(s))
    } else if exponent_end(s) < s.len() {
        Err(trailing_symbol(s))
    } else {
        Ok(literal_parts(s))
    }
}

/// A number is a sequence of decimal digits with no superfluous leading
/// zero. It may have a preceding minus sign. It may have a fractional part
/// prefixed by a decimal point. It may have an exponent, prefixed by `e` or
/// `E` and optionally `+` or `-`.
#[derive(Debug)]
pub struct JNumber {
    sign: Sign,
    integer_part: Vec<char>,
    fractional_part: Vec<char>,
    exponent: Vec<char>,
    e_sign: Sign,
    e_symbol: Option<char>,
}

impl View for JNumber {
    type V = Decimal;

    closed spec fn view(&self) -> Decimal {
        Decimal {
            sign: self.sign,
            integer: self.integer_part@,
            fraction: self.fractional_part@,
            exponent: self.exponent@,
            e_sign: self.e_sign,
            e_symbol: self.e_symbol,
        }
    }
}

impl Clone for JNumber {
    fn clone(&self) -> (r: Self)
        ensures
            r@ == self@,
    {
        proof {
            use_type_invariant(self);
        }
        let integer_part = self.integer_part.clone();
        let fractional_part = self.fractional_part.clone();
        let exponent = self.exponent.clone();
        assert(integer_part@ =~= self.integer_part@);
        assert(fractional_part@ =~= self.fractional_part@);
        assert(exponent@ =~= self.exponent@);
        JNumber {
            sign: self.sign,
            integer_part,
            fractional_part,
            exponent,
            e_sign: self.e_sign,
            e_symbol: self.e_symbol,
        }
    }
}

impl std::str::FromStr for JNumber {
    type Err = String;

    /// Reads `s` as a numeric literal: see [`JNumber::from_str`].
    fn from_str(s: &str) -> (r: Result<Self, String>)
        ensures
            match r {
                Ok(n) => number_spec(s@) == Ok::<Decimal, NumberError>(n@) && n@.well_formed(),
                Err(m) => number_spec(s@) is Err && m@ == number_spec(s@)->Err_0.message_spec(),
            },
    {
        JNumber::from_str(s)
    }
}

/// The part of a literal that the recogniser is reading.
enum Phase {
    BeforePoint,
    AfterPoint,
    AfterExponent,
}

/// Whether `c` is a decimal digit.
pub fn is_digit_char(c: char) -> (b: bool)
    ensures
        b == is_digit(c),
{
    '0' <= c && c <= '9'
}

/// The error for a character that ends a run of digits and cannot follow it.
fn stray(c: char, index: usize) -> (e: NumberError)
    ensures
        e == stray_symbol(c, index),
{
    if c == '.' {
        NumberError::IllegalPoint { index }
    } else if c == 'e' || c == 'E' {
        NumberError::IllegalSymbol { symbol: c, index }
    } else if c == '+' || c == '-' {
        NumberError::IllegalSign { index }
    } else {
        NumberError::IllegalFirstSymbol { symbol: c, index }
    }
}

/// Steps over a run of digits: `digits_end` is the same from every index of
/// the run.
pub proof fn lemma_digits_end_run(s: Seq<char>, from: int, to: int)
    requires
        0 <= from <= to <= s.len(),
        forall|k: int| from <= k < to ==> is_digit(#[trigger] s[k]),
    ensures
        digits_end(s, from) == digits_end(s, to),
        to <= digits_end(s, to) <= s.len(),
    decreases to - from,
{
    if from < to {
        lemma_digits_end_run(s, from + 1, to);
    } else {
        lemma_digits_end_bounds(s, to);
    }
}

/// `digits_end` lies between its start and the end of the text, and only
/// digits stand before it.
pub proof fn lemma_digits_end_bounds(s: Seq<char>, from: int)
    requires
        0 <= from <= s.len(),
    ensures
        from <= digits_end(s, from) <= s.len(),
        forall|k: int| from <= k < digits_end(s, from) ==> is_digit(#[trigger] s[k]),
        digits_end(s, from) < s.len() ==> !is_digit(s[digits_end(s, from)]),
    decreases s.len() - from,
{
    if from < s.len() && is_digit(s[from]) {
        lemma_digits_end_bounds(s, from + 1);
    }
}


/// What the recogniser knows after it has read `s[..i]` without an error: the
/// parts that are complete agree with the grammar's, and the part that is
/// being read holds the digits seen so far.
spec fn in_progress(
    s: Seq<char>,
    i: int,
    phase: Phase,
    sign: Sign,
    integer: Seq<char>,
    fraction: Seq<char>,
    exponent: Seq<char>,
    e_sign: Sign,
    e_symbol: Option<char>,
    has_point: bool,
) -> bool {
    let a = integer_start(s);
    let b = integer_end(s);
    let c = fraction_end(s);
    let d = exponent_start(s);
    &&& 0 <= i <= s.len()
    &&& i == 0 ==> sign == Sign::NoSign && phase is BeforePoint && integer.len() == 0
    &&& i > 0 ==> a <= i && sign == literal_parts(s).sign
    &&& match phase {
        Phase::BeforePoint => {
            &&& i > 0 ==> integer == s.subrange(a, i)
            &&& forall|k: int| a <= k < i ==> is_digit(#[trigger] s[k])
            &&& i > a && s[a] == '0' ==> i == a + 1
            &&& fraction.len() == 0
            &&& exponent.len() == 0
            &&& e_sign == Sign::NoSign
            &&& e_symbol is None
            &&& !has_point
        },
        Phase::AfterPoint => {
            &&& a < b
            &&& integer == s.subrange(a, b)
            &&& has_fraction(s)
            &&& has_point
            &&& b + 1 <= i
            &&& fraction == s.subrange(b + 1, i)
            &&& forall|k: int| b + 1 <= k < i ==> is_digit(#[trigger] s[k])
            &&& exponent.len() == 0
            &&& e_sign == Sign::NoSign
            &&& e_symbol is None
        },
        Phase::AfterExponent => {
            &&& a < b
            &&& integer == s.subrange(a, b)
            &&& has_point == has_fraction(s)
            &&& has_point ==> b + 1 < c && fraction == s.subrange(b + 1, c)
            &&& !has_point ==> fraction.len() == 0
            &&& has_exponent(s)
            &&& e_symbol == Some(s[c])
            &&& c + 1 <= i
            &&& i == c + 1 ==> e_sign == Sign::NoSign && exponent.len() == 0
            &&& i > c + 1 ==> {
                &&& d <= i
                &&& exponent == s.subrange(d, i)
                &&& e_sign == literal_parts(s).e_sign
                &&& forall|k: int| d <= k < i ==> is_digit(#[trigger] s[k])
            }
        },
    }
}

impl JNumber {
    #[verifier::type_invariant]
    spec fn parts_well_formed(&self) -> bool {
        self@.well_formed()
    }

    /// Reads the characters `s` as a numeric literal.
    pub fn from_chars(s: &Vec<char>) -> (r: Result<JNumber, NumberError>)
        ensures
            match r {
                Ok(n) => number_spec(s@) == Ok::<Decimal, NumberError>(n@) && n@.well_formed(),
                Err(e) => number_spec(s@) == Err::<Decimal, NumberError>(e),
            },
    {
        let n: usize = s.len();
        let mut sign = Sign::NoSign;
        let mut phase = Phase::BeforePoint;
        let mut integer: Vec<char> = Vec::new();
        let mut fraction: Vec<char> = Vec::new();
        let mut exponent: Vec<char> = Vec::new();
        let mut e_sign = Sign::NoSign;
        let mut e_symbol: Option<char> = None;
        let mut has_point = false;
        let mut i: usize = 0;
        while i < n
            invariant
                n == s.len(),
                in_progress(
                    s@,
                    i as int,
                    phase,
                    sign,
                    integer@,
                    fraction@,
                    exponent@,
                    e_sign,
                    e_symbol,
                    has_point,
                ),
            decreases n - i,
        {
            let c = s[i];
            let ghost a = integer_start(s@);
            proof {
                lemma_digits_end_bounds(s@, i as int);
                if i >= a {
                    lemma_digits_end_bounds(s@, a);
                }
            }
            if i == 0 && c == '-' {
                sign = Sign::Negative;
                assert(integer@ =~= s@.subrange(1, 1));
            } else if i == 0 && !is_digit_char(c) {
                return Err(NumberError::IllegalSymbol { symbol: c, index: 0 });
            } else {
                match phase {
                    Phase::BeforePoint => {
                        proof {
                            lemma_digits_end_run(s@, a, i as int);
                        }
                        let leading_zero = integer.len() == 1 && integer[0] == '0';
                        assert(leading_zero <==> i > a && s@[a] == '0') by {
                            if i > a {
                                assert(integer@[0] == s@[a]);
                            }
                        }
                        if leading_zero && c != '.' && c != 'e' && c != 'E' {
                            return Err(NumberError::PointExpected { index: i });
                        } else if !leading_zero && is_digit_char(c) {
                            integer.push(c);
                            assert(integer@ =~= s@.subrange(a, i + 1));
                        } else if integer.len() == 0 {
                            if c == '.' || c == 'e' || c == 'E' {
                                return Err(NumberError::DigitExpected { index: i });
                            } else {
                                return Err(stray(c, i));
                            }
                        } else if c == '.' {
                            phase = Phase::AfterPoint;
                            has_point = true;
                            assert(fraction@ =~= s@.subrange(i + 1, i + 1));
                        } else if c == 'e' || c == 'E' {
                            phase = Phase::AfterExponent;
                            e_symbol = Some(c);
                        } else {
                            return Err(stray(c, i));
                        }
                    },
                    Phase::AfterPoint => {
                        let ghost b = integer_end(s@);
                        proof {
                            lemma_digits_end_run(s@, b + 1, i as int);
                        }
                        if is_digit_char(c) {
                            fraction.push(c);
                            assert(fraction@ =~= s@.subrange(b + 1, i + 1));
                        } else if fraction.len() == 0 {
                            return Err(NumberError::DigitExpected { index: i });
                        } else if c == 'e' || c == 'E' {
                            phase = Phase::AfterExponent;
                            e_symbol = Some(c);
                        } else {
                            return Err(stray(c, i));
                        }
                    },
                    Phase::AfterExponent => {
                        let ghost c0 = fraction_end(s@);
                        let ghost d = exponent_start(s@);
                        proof {
                            if i > c0 + 1 {
                                lemma_digits_end_run(s@, d, i as int);
                            }
                        }
                        if is_digit_char(c) {
                            exponent.push(c);
                            assert(exponent@ =~= s@.subrange(d, i + 1));
                        } else if exponent.len() == 0 && e_sign == Sign::NoSign && (c == '+' || c
                            == '-') {
                            e_sign = if c == '+' {
                                Sign::Positive
                            } else {
                                Sign::Negative
                            };
                            assert(exponent@ =~= s@.subrange(d, i + 1));
                        } else {
                            return Err(stray(c, i));
                        }
                    },
                }
            }
            i += 1;
        }
        match phase {
            Phase::BeforePoint => {
                proof {
                    if integer_start(s@) <= n {
                        lemma_digits_end_run(s@, integer_start(s@), n as int);
                    }
                }
                if integer.len() == 0 {
                    return Err(NumberError::DigitExpected { index: n });
                }
            },
            Phase::AfterPoint => {
                proof {
                    lemma_digits_end_run(s@, integer_end(s@) + 1, n as int);
                }
                if fraction.len() == 0 {
                    return Err(NumberError::DigitExpected { index: n });
                }
            },
            Phase::AfterExponent => {
                proof {
                    if n > fraction_end(s@) + 1 {
                        lemma_digits_end_run(s@, exponent_start(s@), n as int);
                    }
                }
                if exponent.len() == 0 {
                    return Err(NumberError::DigitExpected { index: n });
                }
            },
        }
        if fraction.len() == 0 {
            fraction.push('0');
        }
        if exponent.len() == 0 {
            exponent.push('0');
        }
        proof {
            let m = literal_parts(s@);
            assert(fraction@ =~= m.fraction);
            assert(exponent@ =~= m.exponent);
            assert(integer@ =~= m.integer);
            lemma_literal_well_formed(s@);
        }
        Ok(
            JNumber {
                sign,
                integer_part: integer,
                fractional_part: fraction,
                exponent,
                e_sign,
                e_symbol,
            },
        )
    }
}

/// The parts of a literal are well formed.
pub proof fn lemma_literal_well_formed(s: Seq<char>)
    requires
        number_spec(s) is Ok,
    ensures
        number_spec(s)->Ok_0.well_formed(),
{
    let a = integer_start(s);
    let b = integer_end(s);
    let c = fraction_end(s);
    let d = exponent_start(s);
    let m = literal_parts(s);
    lemma_digits_end_bounds(s, a);
    if has_fraction(s) {
        lemma_digits_end_bounds(s, b + 1);
    }
    if has_exponent(s) {
        lemma_digits_end_bounds(s, d);
    }
    assert(all_digits(m.integer));
    assert(all_digits(m.fraction));
    assert(all_digits(m.exponent));
    assert(m.integer[0] == s[a]);
}

/// The places at which the parts of a literal start and end follow one
/// another, and the exponent ends where the literal ends.
pub proof fn lemma_literal_places(s: Seq<char>)
    requires
        number_spec(s) is Ok,
    ensures
        0 <= integer_start(s) < integer_end(s) <= fraction_end(s) <= exponent_end(s) == s.len(),
        has_fraction(s) ==> integer_end(s) + 1 < fraction_end(s),
        !has_fraction(s) ==> integer_end(s) == fraction_end(s),
        has_exponent(s) ==> fraction_end(s) < exponent_start(s) < s.len(),
        !has_exponent(s) ==> fraction_end(s) == s.len(),
{
    lemma_digits_end_bounds(s, integer_start(s));
    if has_fraction(s) {
        lemma_digits_end_bounds(s, integer_end(s) + 1);
    }
    if has_exponent(s) {
        lemma_digits_end_bounds(s, exponent_start(s));
    }
}

/// The text of the sign of a literal is what stands before its integer
/// part.
proof fn lemma_sign_text(s: Seq<char>)
    requires
        number_spec(s) is Ok,
    ensures
        literal_parts(s).sign_text() == s.subrange(0, integer_start(s)),
{
    lemma_literal_places(s);
    assert(literal_parts(s).sign_text() =~= s.subrange(0, integer_start(s)));
}

/// The text of the fraction of a literal is what stands between its integer
/// part and its exponent, unless the fraction is written as `0`.
proof fn lemma_fraction_text(s: Seq<char>)
    requires
        number_spec(s) is Ok,
        has_fraction(s) ==> literal_parts(s).fraction != zero_digits(),
    ensures
        literal_parts(s).fraction_text() == s.subrange(integer_end(s), fraction_end(s)),
{
    lemma_literal_places(s);
    let b = integer_end(s);
    let c = fraction_end(s);
    if has_fraction(s) {
        assert(s.subrange(b, c) =~= seq![s[b]] + s.subrange(b + 1, c));
    } else {
        assert(s.subrange(b, c) =~= Seq::<char>::empty());
    }
}

/// The text of the exponent of a literal is what stands behind its
/// fraction, unless the exponent is written as `0`.
proof fn lemma_exponent_text(s: Seq<char>)
    requires
        number_spec(s) is Ok,
        has_exponent(s) ==> literal_parts(s).exponent != zero_digits(),
    ensures
        literal_parts(s).exponent_text() == s.subrange(fraction_end(s), s.len() as int),
{
    lemma_literal_places(s);
    let c = fraction_end(s);
    let d = exponent_start(s);
    let n = s.len() as int;
    if has_exponent(s) {
        if has_exponent_sign(s) {
            assert(s.subrange(c, n) =~= seq![s[c]] + seq![s[c + 1]] + s.subrange(d, n));
        } else {
            assert(s.subrange(c, n) =~= seq![s[c]] + Seq::<char>::empty() + s.subrange(d, n));
        }
    } else {
        assert(s.subrange(c, n) =~= Seq::<char>::empty());
    }
}

/// A sequence is made of its parts between any four places.
proof fn lemma_four_parts(s: Seq<char>, a: int, b: int, c: int)
    requires
        0 <= a <= b <= c <= s.len(),
    ensures
        s == s.subrange(0, a) + s.subrange(a, b) + s.subrange(b, c) + s.subrange(
            c,
            s.len() as int,
        ),
{
    assert(s =~= s.subrange(0, a) + s.subrange(a, b) + s.subrange(b, c) + s.subrange(
        c,
        s.len() as int,
    ));
}

/// Rendering the parts of a literal gives the literal back, provided that it
/// has no fractional part `0` and no exponent `0`.
pub proof fn lemma_render_reproduces_literal(s: Seq<char>)
    requires
        number_spec(s) is Ok,
        has_fraction(s) ==> literal_parts(s).fraction != zero_digits(),
        has_exponent(s) ==> literal_parts(s).exponent != zero_digits(),
    ensures
        number_spec(s)->Ok_0.render() == s,
{
    lemma_literal_places(s);
    lemma_sign_text(s);
    lemma_fraction_text(s);
    lemma_exponent_text(s);
    lemma_four_parts(s, integer_start(s), integer_end(s), fraction_end(s));
}

/// In a literal a sign stands only in two places: a minus sign as the very
/// first character, and a plus or a minus sign directly behind the exponent
/// marker.
pub proof fn lemma_sign_places(s: Seq<char>, k: int)
    requires
        number_spec(s) is Ok,
        0 <= k < s.len(),
        s[k] == '+' || s[k] == '-',
    ensures
        (k == 0 && s[k] == '-') || (k > 0 && (s[k - 1] == 'e' || s[k - 1] == 'E')),
{
    let a = integer_start(s);
    let b = integer_end(s);
    let c = fraction_end(s);
    let d = exponent_start(s);
    lemma_digits_end_bounds(s, a);
    if has_fraction(s) {
        lemma_digits_end_bounds(s, b + 1);
    }
    if has_exponent(s) {
        lemma_digits_end_bounds(s, d);
    }
    assert(!is_digit(s[k]));
    if a <= k < b {
        assert(is_digit(s[k]));
    } else if b < k < c {
        assert(is_digit(s[k]));
    } else if d <= k {
        assert(is_digit(s[k]));
    }
}

impl JNumber {
    /// Reads `s` as a numeric literal; the error is the message of the
    /// [`NumberError`] that the text gives.
    pub fn from_str(s: &str) -> (r: Result<JNumber, String>)
        ensures
            match r {
                Ok(n) => number_spec(s@) == Ok::<Decimal, NumberError>(n@) && n@.well_formed(),
                Err(m) => number_spec(s@) is Err && m@ == number_spec(s@)->Err_0.message_spec(),
            },
    {
        let chars = chars_of(s);
        match JNumber::from_chars(&chars) {
            Ok(n) => Ok(n),
            Err(e) => Err(e.message()),
        }
    }

    /// The text of the number: see [`Decimal::render`].
    pub fn to_string(&self) -> (t: String)
        ensures
            t@ == self@.render(),
    {
        let mut t = String::new();
        if self.sign == Sign::Negative {
            push_char(&mut t, '-');
        }
        push_seq(&mut t, &self.integer_part);
        if !is_zero_digits(&self.fractional_part) {
            push_char(&mut t, '.');
            push_seq(&mut t, &self.fractional_part);
        }
        if !is_zero_digits(&self.exponent) {
            match self.e_symbol {
                Some(c) => {
                    push_char(&mut t, c);
                },
                None => {},
            }
            match self.e_sign {
                Sign::NoSign => {},
                Sign::Positive => {
                    push_char(&mut t, '+');
                },
                Sign::Negative => {
                    push_char(&mut t, '-');
                },
            }
            push_seq(&mut t, &self.exponent);
        }
        assert(t@ =~= self@.render());
        t
    }

    /// The sign of the number.
    pub fn sign(&self) -> (r: Sign)
        ensures
            r == self@.sign,
    {
        self.sign
    }

    /// The digits of the integer part. The parts of a number are well
    /// formed.
    pub fn integer_digits(&self) -> (r: &Vec<char>)
        ensures
            r@ == self@.integer,
            self@.well_formed(),
    {
        proof {
            use_type_invariant(self);
        }
        &self.integer_part
    }

    /// The digits of the fractional part; the single digit `0` if the number
    /// has none.
    pub fn fractional_digits(&self) -> (r: &Vec<char>)
        ensures
            r@ == self@.fraction,
    {
        &self.fractional_part
    }

    /// The digits of the exponent; the single digit `0` if the number has
    /// none.
    pub fn exponent_digits(&self) -> (r: &Vec<char>)
        ensures
            r@ == self@.exponent,
    {
        &self.exponent
    }

    /// The sign of the exponent.
    pub fn exponent_sign(&self) -> (r: Sign)
        ensures
            r == self@.e_sign,
    {
        self.e_sign
    }

    /// The exponent marker, `e` or `E`, if the literal had one.
    pub fn exponent_marker(&self) -> (r: Option<char>)
        ensures
            r == self@.e_symbol,
    {
        self.e_symbol
    }
}

impl Serialize for JNumber {
    open spec fn serialization(&self) -> Seq<char> {
        self@.render()
    }

    /// The JSON text of a number is the text of its parts.
    fn serialize(&self) -> (r: String) {
        self.to_string()
    }
}

/// Whether `v` holds the single digit zero.
fn is_zero_digits(v: &Vec<char>) -> (b: bool)
    ensures
        b == (v@ == zero_digits()),
{
    let b = v.len() == 1 && v[0] == '0';
    assert(b ==> v@ =~= zero_digits());
    assert(!b ==> v@ != zero_digits()) by {
        if v@ == zero_digits() {
            assert(zero_digits().len() == 1);
            assert(zero_digits()[0] == '0');
        }
    }
    b
}

} // verus!
