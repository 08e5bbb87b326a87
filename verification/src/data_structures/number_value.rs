//! The exact value of a number, and the comparison of two numbers by value.

use vstd::prelude::*;
use crate::data_structures::j_number::{Decimal, JNumber, Sign};
use crate::text::{all_digits, is_digit};

verus! {

/// The value of the digit `c`.
pub open spec fn digit_value(c: char) -> nat {
    if is_digit(c) {
        (c as nat - 48) as nat
    } else {
        0
    }
}

/// The number that the digits `s` write in decimal notation.
pub open spec fn digits_value(s: Seq<char>) -> nat
    decreases s.len(),
{
    if s.len() == 0 {
        0
    } else {
        10 * digits_value(s.drop_last()) + digit_value(s.last())
    }
}

/// Ten to the power `n`.
pub open spec fn pow10(n: nat) -> nat
    decreases n,
{
    if n == 0 {
        1
    } else {
        10 * pow10((n - 1) as nat)
    }
}

impl Decimal {
    /// The digits of the integer part and of the fraction, read as one
    /// number.
    pub open spec fn mantissa(self) -> nat {
        digits_value(self.integer + self.fraction)
    }

    /// The power of ten by which the mantissa is multiplied: the exponent,
    /// less the number of digits of the fraction.
    pub open spec fn power(self) -> int {
        if self.e_sign == Sign::Negative {
            -digits_value(self.exponent) - self.fraction.len()
        } else {
            digits_value(self.exponent) - self.fraction.len()
        }
    }

    /// The mantissa, scaled to the power of ten `k`, which is at most the
    /// number's own.
    pub open spec fn scaled(self, k: int) -> nat {
        self.mantissa() * pow10((self.power() - k) as nat)
    }

    /// Whether two numbers have the same value: the same magnitude, once
    /// both are scaled to the smaller of their powers of ten, and the same
    /// sign unless they are zero.
    pub open spec fn same_value(self, other: Decimal) -> bool {
        let k = if self.power() <= other.power() {
            self.power()
        } else {
            other.power()
        };
        &&& self.scaled(k) == other.scaled(k)
        &&& (self.mantissa() == 0 || (self.sign == Sign::Negative) == (other.sign
            == Sign::Negative))
    }
}

/// The number that the first `n` digits of `s` write.
pub open spec fn prefix_value(s: Seq<char>, n: int) -> nat {
    digits_value(s.subrange(0, n))
}

/// Taking the last digit off divides the value by ten.
pub proof fn lemma_prefix_step(s: Seq<char>, n: int)
    requires
        0 < n <= s.len(),
    ensures
        prefix_value(s, n) == 10 * prefix_value(s, n - 1) + digit_value(s[n - 1]),
{
    let p = s.subrange(0, n);
    assert(p.drop_last() =~= s.subrange(0, n - 1));
    assert(p.last() == s[n - 1]);
}

/// A power of ten is positive.
pub proof fn lemma_pow10_positive(n: nat)
    ensures
        pow10(n) > 0,
    decreases n,
{
    if n > 0 {
        lemma_pow10_positive((n - 1) as nat);
    }
}

/// Powers of ten multiply by adding their exponents.
pub proof fn lemma_pow10_add(a: nat, b: nat)
    ensures
        pow10(a + b) == pow10(a) * pow10(b),
    decreases a,
{
    if a > 0 {
        lemma_pow10_add((a - 1) as nat, b);
        assert(pow10(a + b) == 10 * pow10((a - 1 + b) as nat));
        assert(10 * (pow10((a - 1) as nat) * pow10(b)) == (10 * pow10((a - 1) as nat)) * pow10(
            b,
        )) by (nonlinear_arith);
    } else {
        assert(pow10(0) * pow10(b) == pow10(b)) by (nonlinear_arith)
            requires
                pow10(0) == 1,
        ;
    }
}

/// A number that is no multiple of ten, times a power of ten, determines
/// both: two such products are equal only if the numbers and the powers
/// are.
pub proof fn lemma_scaled_unique(m1: nat, e1: nat, m2: nat, e2: nat)
    requires
        m1 % 10 != 0,
        m2 % 10 != 0,
        m1 * pow10(e1) == m2 * pow10(e2),
    ensures
        m1 == m2,
        e1 == e2,
    decreases e1 + e2,
{
    if e1 > 0 && e2 > 0 {
        let a = pow10((e1 - 1) as nat);
        let b = pow10((e2 - 1) as nat);
        assert(m1 * (10 * a) == 10 * (m1 * a)) by (nonlinear_arith);
        assert(m2 * (10 * b) == 10 * (m2 * b)) by (nonlinear_arith);
        lemma_scaled_unique(m1, (e1 - 1) as nat, m2, (e2 - 1) as nat);
    } else if e1 > 0 {
        let a = pow10((e1 - 1) as nat);
        assert(m1 * (10 * a) == 10 * (m1 * a)) by (nonlinear_arith);
        assert(m2 * 1 == m2) by (nonlinear_arith);
        assert((10 * (m1 * a)) % 10 == 0) by (nonlinear_arith);
    } else if e2 > 0 {
        let b = pow10((e2 - 1) as nat);
        assert(m2 * (10 * b) == 10 * (m2 * b)) by (nonlinear_arith);
        assert(m1 * 1 == m1) by (nonlinear_arith);
        assert((10 * (m2 * b)) % 10 == 0) by (nonlinear_arith);
    } else {
        assert(m1 * 1 == m1) by (nonlinear_arith);
        assert(m2 * 1 == m2) by (nonlinear_arith);
    }
}

/// The value of the digit `c`.
fn digit_of(c: char) -> (d: u128)
    ensures
        d == digit_value(c),
        d <= 9,
{
    if '0' <= c && c <= '9' {
        (c as u32 - 48) as u128
    } else {
        0
    }
}

/// Takes the last of the first `n` digits of `x` off: what comes back is
/// the number of digits that are left and the value of the digit, which is
/// zero where there was none to take.
fn last_digit(x: &Vec<char>, n: usize) -> (r: (usize, u128))
    requires
        n <= x.len(),
    ensures
        r.0 <= x.len(),
        r.0 <= n,
        n > 0 ==> r.0 < n,
        r.1 <= 9,
        prefix_value(x@, n as int) == 10 * prefix_value(x@, r.0 as int) + r.1,
{
    if n > 0 {
        proof {
            lemma_prefix_step(x@, n as int);
        }
        (n - 1, digit_of(x[n - 1]))
    } else {
        assert(x@.subrange(0, 0).len() == 0);
        (0, 0)
    }
}

/// Two numbers written with a last digit each are equal if and only if the
/// last digits agree modulo ten and the rest, with what is carried, is
/// equal.
pub proof fn lemma_column(p: int, l: int, q: int, r: int)
    requires
        0 <= l,
        0 <= r,
    ensures
        (10 * p + l == 10 * q + r) <==> (l % 10 == r % 10 && p + l / 10 == q + r / 10),
{
    assert(l == 10 * (l / 10) + l % 10);
    assert(r == 10 * (r / 10) + r % 10);
    assert(0 <= l % 10 < 10);
    assert(0 <= r % 10 < 10);
}

/// Whether the two sums `x1[..n1] + x2[..n2] + c` and `y1[..m1] + y2[..m2] + d`
/// are equal, where each sequence of digits stands for the number that it
/// writes. The sums are compared digit by digit from the right, as in
/// written addition, so that no number has to fit a machine word.
fn balanced(
    x1: &Vec<char>,
    n1: usize,
    x2: &Vec<char>,
    n2: usize,
    c: u128,
    y1: &Vec<char>,
    m1: usize,
    y2: &Vec<char>,
    m2: usize,
    d: u128,
) -> (r: bool)
    requires
        n1 <= x1.len(),
        n2 <= x2.len(),
        m1 <= y1.len(),
        m2 <= y2.len(),
        c <= 0x4_0000_0000_0000_0000,
        d <= 0x4_0000_0000_0000_0000,
    ensures
        r == (prefix_value(x1@, n1 as int) + prefix_value(x2@, n2 as int) + c == prefix_value(
            y1@,
            m1 as int,
        ) + prefix_value(y2@, m2 as int) + d),
{
    let mut i1 = n1;
    let mut i2 = n2;
    let mut j1 = m1;
    let mut j2 = m2;
    let mut left: u128 = c;
    let mut right: u128 = d;
    let ghost goal = prefix_value(x1@, n1 as int) + prefix_value(x2@, n2 as int) + c
        == prefix_value(y1@, m1 as int) + prefix_value(y2@, m2 as int) + d;
    while i1 > 0 || i2 > 0 || j1 > 0 || j2 > 0
        invariant
            i1 <= x1.len(),
            i2 <= x2.len(),
            j1 <= y1.len(),
            j2 <= y2.len(),
            left <= 0x4_0000_0000_0000_0000,
            right <= 0x4_0000_0000_0000_0000,
            goal == (prefix_value(x1@, n1 as int) + prefix_value(x2@, n2 as int) + c
                == prefix_value(y1@, m1 as int) + prefix_value(y2@, m2 as int) + d),
            goal == (prefix_value(x1@, i1 as int) + prefix_value(x2@, i2 as int) + left
                == prefix_value(y1@, j1 as int) + prefix_value(y2@, j2 as int) + right),
        decreases i1 + i2 + j1 + j2,
    {
        let (k1, a1) = last_digit(x1, i1);
        let (k2, a2) = last_digit(x2, i2);
        let (l1, b1) = last_digit(y1, j1);
        let (l2, b2) = last_digit(y2, j2);
        let lhs: u128 = left + a1 + a2;
        let rhs: u128 = right + b1 + b2;
        proof {
            lemma_column(
                (prefix_value(x1@, k1 as int) + prefix_value(x2@, k2 as int)) as int,
                lhs as int,
                (prefix_value(y1@, l1 as int) + prefix_value(y2@, l2 as int)) as int,
                rhs as int,
            );
        }
        if lhs % 10 != rhs % 10 {
            return false;
        }
        i1 = k1;
        i2 = k2;
        j1 = l1;
        j2 = l2;
        left = lhs / 10;
        right = rhs / 10;
    }
    proof {
        assert(x1@.subrange(0, 0).len() == 0);
        assert(x2@.subrange(0, 0).len() == 0);
        assert(y1@.subrange(0, 0).len() == 0);
        assert(y2@.subrange(0, 0).len() == 0);
    }
    left == right
}


/// The digits `a` followed by the digits `b`.
fn joined(a: &Vec<char>, b: &Vec<char>) -> (r: Vec<char>)
    ensures
        r@ == a@ + b@,
{
    let mut r: Vec<char> = Vec::new();
    let mut i: usize = 0;
    while i < a.len()
        invariant
            i <= a.len(),
            r@ == a@.subrange(0, i as int),
        decreases a.len() - i,
    {
        r.push(a[i]);
        i += 1;
        assert(r@ =~= a@.subrange(0, i as int));
    }
    assert(a@.subrange(0, a.len() as int) =~= a@);
    let mut j: usize = 0;
    while j < b.len()
        invariant
            j <= b.len(),
            r@ == a@ + b@.subrange(0, j as int),
        decreases b.len() - j,
    {
        r.push(b[j]);
        j += 1;
        assert(r@ =~= a@ + b@.subrange(0, j as int));
    }
    assert(b@.subrange(0, b.len() as int) =~= b@);
    r
}

/// The number of digits of `x` that are left when the zeros at its end are
/// taken off. The value of `x` is the value of these digits times a power of
/// ten, and they write no multiple of ten unless none is left.
fn significant(x: &Vec<char>) -> (n: usize)
    requires
        all_digits(x@),
    ensures
        n <= x.len(),
        digits_value(x@) == prefix_value(x@, n as int) * pow10((x.len() - n) as nat),
        n > 0 ==> prefix_value(x@, n as int) % 10 != 0,
        n == 0 ==> digits_value(x@) == 0,
{
    let mut n: usize = x.len();
    assert(x@.subrange(0, n as int) =~= x@);
    assert(digits_value(x@) * 1 == digits_value(x@)) by (nonlinear_arith);
    while n > 0 && x[n - 1] == '0'
        invariant
            n <= x.len(),
            all_digits(x@),
            digits_value(x@) == prefix_value(x@, n as int) * pow10((x.len() - n) as nat),
        decreases n,
    {
        proof {
            lemma_prefix_step(x@, n as int);
            let v = prefix_value(x@, n - 1);
            let e = pow10((x.len() - n) as nat);
            assert((10 * v) * e == v * (10 * e)) by (nonlinear_arith);
        }
        n -= 1;
    }
    proof {
        if n > 0 {
            lemma_prefix_step(x@, n as int);
            assert(is_digit(x@[n - 1]));
        } else {
            assert(x@.subrange(0, 0).len() == 0);
            assert(0 * pow10(x.len() as nat) == 0) by (nonlinear_arith);
        }
    }
    n
}

/// Two numbers, each a number that is no multiple of ten times two powers
/// of ten, are equal if and only if the first factors are equal and the
/// powers add up to the same.
pub proof fn lemma_same_magnitude(m1: nat, t1: nat, s1: nat, m2: nat, t2: nat, s2: nat)
    requires
        m1 % 10 != 0,
        m2 % 10 != 0,
    ensures
        (m1 * pow10(t1) * pow10(s1) == m2 * pow10(t2) * pow10(s2)) <==> (m1 == m2 && t1 + s1 == t2
            + s2),
{
    lemma_pow10_add(t1, s1);
    lemma_pow10_add(t2, s2);
    let a = pow10(t1);
    let b = pow10(s1);
    let c = pow10(t2);
    let d = pow10(s2);
    assert(m1 * a * b == m1 * (a * b)) by (nonlinear_arith);
    assert(m2 * c * d == m2 * (c * d)) by (nonlinear_arith);
    if m1 * pow10(t1 + s1) == m2 * pow10(t2 + s2) {
        lemma_scaled_unique(m1, t1 + s1, m2, t2 + s2);
    }
}

impl PartialEq for JNumber {
    fn eq(&self, other: &Self) -> (r: bool) {
        self.same_value(other)
    }
}

impl vstd::std_specs::cmp::PartialEqSpecImpl for JNumber {
    open spec fn obeys_eq_spec() -> bool {
        true
    }

    /// Two numbers are equal if they have the same value.
    open spec fn eq_spec(&self, other: &JNumber) -> bool {
        self@.same_value(other@)
    }
}

impl JNumber {
    /// Whether the two numbers have the same value, whatever their
    /// spelling: see [`Decimal::same_value`].
    pub fn same_value(&self, other: &JNumber) -> (r: bool)
        ensures
            r == self@.same_value(other@),
    {
        let none: Vec<char> = Vec::new();
        let xa = joined(self.integer_digits(), self.fractional_digits());
        let xb = joined(other.integer_digits(), other.fractional_digits());
        assert(all_digits(xa@));
        assert(all_digits(xb@));
        let na = significant(&xa);
        let nb = significant(&xb);
        let ghost k = if self@.power() <= other@.power() {
            self@.power()
        } else {
            other@.power()
        };
        let ghost sa = (self@.power() - k) as nat;
        let ghost sb = (other@.power() - k) as nat;
        proof {
            lemma_pow10_positive(sa);
            lemma_pow10_positive(sb);
            lemma_pow10_positive((xa.len() - na) as nat);
            lemma_pow10_positive((xb.len() - nb) as nat);
        }
        if na == 0 || nb == 0 {
            proof {
                let va = digits_value(xa@);
                let vb = digits_value(xb@);
                let pa = pow10(sa);
                let pb = pow10(sb);
                assert(va > 0 && pa > 0 ==> va * pa > 0) by (nonlinear_arith);
                assert(vb > 0 && pb > 0 ==> vb * pb > 0) by (nonlinear_arith);
                assert(va == 0 ==> va * pa == 0) by (nonlinear_arith);
                assert(vb == 0 ==> vb * pb == 0) by (nonlinear_arith);
                if na > 0 {
                    let m = prefix_value(xa@, na as int);
                    let e = pow10((xa.len() - na) as nat);
                    assert(m > 0 && e > 0 ==> m * e > 0) by (nonlinear_arith);
                }
                if nb > 0 {
                    let m = prefix_value(xb@, nb as int);
                    let e = pow10((xb.len() - nb) as nat);
                    assert(m > 0 && e > 0 ==> m * e > 0) by (nonlinear_arith);
                }
            }
            return na == 0 && nb == 0;
        }
        let same_sign = (self.sign() == Sign::Negative) == (other.sign() == Sign::Negative);
        let same_digits = balanced(&xa, na, &none, 0, 0, &xb, nb, &none, 0, 0);
        let fa = self.fractional_digits().len();
        let fb = other.fractional_digits().len();
        let ea = self.exponent_digits();
        let eb = other.exponent_digits();
        let left: u128 = (xa.len() - na) as u128 + fb as u128;
        let right: u128 = (xb.len() - nb) as u128 + fa as u128;
        let a_negative = self.exponent_sign() == Sign::Negative;
        let b_negative = other.exponent_sign() == Sign::Negative;
        proof {
            assert(none@.subrange(0, 0).len() == 0);
            assert(ea@.subrange(0, ea.len() as int) =~= ea@);
            assert(eb@.subrange(0, eb.len() as int) =~= eb@);
            assert(ea@.subrange(0, 0).len() == 0);
            assert(eb@.subrange(0, 0).len() == 0);
        }
        let same_power = if a_negative && b_negative {
            balanced(eb, eb.len(), &none, 0, left, ea, ea.len(), &none, 0, right)
        } else if a_negative {
            balanced(&none, 0, &none, 0, left, ea, ea.len(), eb, eb.len(), right)
        } else if b_negative {
            balanced(ea, ea.len(), eb, eb.len(), left, &none, 0, &none, 0, right)
        } else {
            balanced(ea, ea.len(), &none, 0, left, eb, eb.len(), &none, 0, right)
        };
        proof {
            let ta = (xa.len() - na) as nat;
            let tb = (xb.len() - nb) as nat;
            assert(same_power == (self@.power() + ta == other@.power() + tb));
            lemma_same_magnitude(
                prefix_value(xa@, na as int),
                ta,
                sa,
                prefix_value(xb@, nb as int),
                tb,
                sb,
            );
            let m = prefix_value(xa@, na as int);
            let e = pow10(ta);
            assert(m > 0 && e > 0 ==> m * e > 0) by (nonlinear_arith);
        }
        same_sign && same_digits && same_power
    }
}

} // verus!
