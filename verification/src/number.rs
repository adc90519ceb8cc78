//! Decimal numbers as text.

use vstd::prelude::*;
use vstd::string::*;

use crate::text::{chars_of, text_between};

verus! {

pub open spec fn is_digit(c: char) -> bool {
    '0' <= c <= '9'
}

/// The digit for a number below ten.
pub open spec fn digit(n: nat) -> char {
    (48 + n) as char
}

/// The decimal digits of `n`, without leading zeros.
pub open spec fn decimal(n: nat) -> Seq<char>
    decreases n,
{
    if n < 10 {
        seq![digit(n)]
    } else {
        decimal(n / 10).push(digit(n % 10))
    }
}

/// The decimal digits of `n`, behind a minus sign if it is negative.
pub open spec fn signed_decimal(n: int) -> Seq<char> {
    if n < 0 {
        seq!['-'] + decimal((-n) as nat)
    } else {
        decimal(n as nat)
    }
}

/// Writes `n` in decimal.
pub fn decimal_text(n: u32) -> (r: String)
    ensures
        r@ == decimal(n as nat),
    decreases n,
{
    if n < 10 {
        let mut out = String::new();
        out.push((48u8 + n as u8) as char);
        assert(out@ =~= seq![digit(n as nat)]);
        out
    } else {
        let mut out = decimal_text(n / 10);
        out.push((48u8 + (n % 10) as u8) as char);
        out
    }
}

/// Writes `n` in decimal, with a sign if it is negative.
pub fn signed_decimal_text(n: i32) -> (r: String)
    ensures
        r@ == signed_decimal(n as int),
{
    if n < 0 {
        let magnitude: u32 = (-(n as i64)) as u32;
        let mut out = String::new();
        out.push('-');
        assert(out@ =~= seq!['-']);
        out.append(decimal_text(magnitude).as_str());
        out
    } else {
        decimal_text(n as u32)
    }
}

pub open spec fn all_digits(s: Seq<char>) -> bool {
    forall|i: int| 0 <= i < s.len() ==> is_digit(#[trigger] s[i])
}

/// The value of a text of decimal digits.
pub open spec fn decimal_value(s: Seq<char>) -> nat
    decreases s.len(),
{
    if s.len() == 0 {
        0
    } else {
        decimal_value(s.drop_last()) * 10 + (s.last() as nat - 48) as nat
    }
}

/// The longest run of digits that `s` starts with.
pub open spec fn leading_digits(s: Seq<char>) -> Seq<char>
    decreases s.len(),
{
    if s.len() > 0 && is_digit(s[0]) {
        seq![s[0]] + leading_digits(s.skip(1))
    } else {
        Seq::empty()
    }
}

/// Why a text is no number of 32 bits.
#[derive(Debug, Clone, Copy, PartialEq, Eq, Structural)]
pub enum NumberFault {
    /// There is no text.
    Empty,
    /// Something other than a digit stands where a digit must.
    InvalidDigit,
    /// The number does not fit.
    TooLarge,
}

impl NumberFault {
    pub open spec fn text(self) -> Seq<char> {
        match self {
            NumberFault::Empty => "cannot parse integer from empty string"@,
            NumberFault::InvalidDigit => "invalid digit found in string"@,
            NumberFault::TooLarge => "number too large to fit in target type"@,
        }
    }

    /// The fault in words.
    pub fn message(self) -> (r: String)
        ensures
            r@ == self.text(),
    {
        match self {
            NumberFault::Empty => "cannot parse integer from empty string".to_owned(),
            NumberFault::InvalidDigit => "invalid digit found in string".to_owned(),
            NumberFault::TooLarge => "number too large to fit in target type".to_owned(),
        }
    }
}

/// The digits of a number's text: all of it but a plus sign in front.
pub open spec fn digits_of(s: Seq<char>) -> Seq<char> {
    if s.len() > 0 && s[0] == '+' {
        s.skip(1)
    } else {
        s
    }
}

/// The number that a text of digits spells, a plus sign in front allowed.
///
/// Digits are read from the left: a number that grows too large is found out
/// before a wrong character further right.
pub open spec fn number(s: Seq<char>) -> Result<u32, NumberFault> {
    let digits = digits_of(s);
    let run = leading_digits(digits);
    if s.len() == 0 {
        Err(NumberFault::Empty)
    } else if decimal_value(run) > u32::MAX {
        Err(NumberFault::TooLarge)
    } else if digits.len() == 0 || run.len() < digits.len() {
        Err(NumberFault::InvalidDigit)
    } else {
        Ok(decimal_value(run) as u32)
    }
}

/// The digits that a text starts with, up to the first other character.
pub proof fn lemma_leading_digits(s: Seq<char>, k: int)
    requires
        0 <= k <= s.len(),
        all_digits(s.take(k)),
    ensures
        leading_digits(s) == s.take(k) + leading_digits(s.skip(k)),
        k == s.len() || !is_digit(s[k]) ==> leading_digits(s) == s.take(k),
    decreases k,
{
    if k > 0 {
        assert(is_digit(s.take(k)[0]));
        let t = s.skip(1);
        assert(t.take(k - 1) =~= s.take(k).skip(1));
        assert forall|i: int| 0 <= i < k - 1 implies is_digit(#[trigger] t.take(k - 1)[i]) by {
            assert(is_digit(s.take(k)[i + 1]));
        }
        lemma_leading_digits(t, k - 1);
        assert(t.skip(k - 1) =~= s.skip(k));
        assert(seq![s[0]] + (t.take(k - 1) + leading_digits(s.skip(k))) =~= s.take(k)
            + leading_digits(s.skip(k)));
    } else {
        assert(s.skip(0) =~= s);
        assert(s.take(0) + leading_digits(s) =~= leading_digits(s));
    }
    if k == s.len() || !is_digit(s[k]) {
        assert(leading_digits(s.skip(k)) =~= Seq::empty());
        assert(s.take(k) + Seq::<char>::empty() =~= s.take(k));
    }
}

proof fn lemma_value_grows(s: Seq<char>, t: Seq<char>)
    ensures
        decimal_value(s) <= decimal_value(s + t),
    decreases t.len(),
{
    if t.len() == 0 {
        assert(s + t =~= s);
    } else {
        lemma_value_grows(s, t.drop_last());
        assert((s + t).drop_last() =~= s + t.drop_last());
    }
}

/// What the digits up to index `k`, and the character there, say of a number.
proof fn lemma_one_more_digit(digits: Seq<char>, k: int)
    requires
        0 <= k < digits.len(),
        all_digits(digits.take(k)),
    ensures
        !is_digit(digits[k]) ==> leading_digits(digits) == digits.take(k),
        is_digit(digits[k]) ==> {
            &&& all_digits(digits.take(k + 1))
            &&& decimal_value(digits.take(k + 1)) == decimal_value(digits.take(k)) * 10 + (
            digits[k] as nat - 48)
            &&& decimal_value(digits.take(k + 1)) <= decimal_value(leading_digits(digits))
        },
{
    lemma_leading_digits(digits, k);
    if is_digit(digits[k]) {
        let more = digits.take(k + 1);
        assert(more.drop_last() =~= digits.take(k));
        assert forall|j: int| 0 <= j < more.len() implies is_digit(#[trigger] more[j]) by {
            if j < k {
                assert(is_digit(digits.take(k)[j]));
            }
        }
        lemma_leading_digits(digits, k + 1);
        lemma_value_grows(more, leading_digits(digits.skip(k + 1)));
    }
}

/// Reads a number of 32 bits.
pub fn parse_number(s: &str) -> (r: Result<u32, NumberFault>)
    ensures
        r == number(s@),
{
    let chars = chars_of(s);
    let n = chars.len();
    if n == 0 {
        return Err(NumberFault::Empty);
    }
    let start: usize = if chars[0] == '+' {
        1
    } else {
        0
    };
    let ghost digits = digits_of(s@);
    let mut i: usize = start;
    let mut value: u32 = 0;
    assert(digits.take(0) =~= Seq::empty());
    while i < n
        invariant
            start <= i <= n,
            start <= 1,
            n == s@.len(),
            n > 0,
            chars@ == s@,
            digits == digits_of(s@),
            digits.len() == n - start,
            forall|k: int| 0 <= k < digits.len() ==> #[trigger] digits[k] == s@[start + k],
            all_digits(digits.take(i - start)),
            value == decimal_value(digits.take(i - start)),
        decreases n - i,
    {
        let c = chars[i];
        let ghost k = i - start;
        proof {
            assert(digits[k] == s@[start + k]);
            lemma_one_more_digit(digits, k);
        }
        if c < '0' || c > '9' {
            return Err(NumberFault::InvalidDigit);
        }
        let d: u32 = c as u32 - 48;
        let wide: u64 = value as u64 * 10 + d as u64;
        if wide > u32::MAX as u64 {
            return Err(NumberFault::TooLarge);
        }
        value = wide as u32;
        i = i + 1;
    }
    proof {
        assert(digits.take(n - start) =~= digits);
        lemma_leading_digits(digits, digits.len() as int);
    }
    if n == start {
        return Err(NumberFault::InvalidDigit);
    }
    Ok(value)
}

/// The longest run of digits that `s` ends with.
pub open spec fn trailing_digits(s: Seq<char>) -> Seq<char>
    decreases s.len(),
{
    if s.len() > 0 && is_digit(s.last()) {
        trailing_digits(s.drop_last()).push(s.last())
    } else {
        Seq::empty()
    }
}

/// Takes the digits that `s` ends with.
pub fn trailing_digits_of(s: &str) -> (r: String)
    ensures
        r@ == trailing_digits(s@),
{
    let chars = chars_of(s);
    let n = chars.len();
    let mut i: usize = n;
    assert(s@.take(n as int) =~= s@);
    assert(trailing_digits(s@) + s@.skip(n as int) =~= trailing_digits(s@));
    while i > 0 && '0' <= chars[i - 1] && chars[i - 1] <= '9'
        invariant
            i <= n == chars@.len(),
            chars@ == s@,
            trailing_digits(s@.take(i as int)) + s@.skip(i as int) == trailing_digits(s@),
        decreases i,
    {
        proof {
            let now = s@.take(i as int);
            assert(now.drop_last() =~= s@.take(i as int - 1));
            assert(trailing_digits(now.drop_last()).push(now.last()) + s@.skip(i as int)
                =~= trailing_digits(s@.take(i as int - 1)) + s@.skip(i as int - 1));
        }
        i = i - 1;
    }
    proof {
        assert(trailing_digits(s@.take(i as int)) =~= Seq::empty());
        assert(Seq::<char>::empty() + s@.skip(i as int) =~= s@.subrange(i as int, n as int));
    }
    text_between(&chars, i, n)
}

// ---------------------------------------------------------------------------
// Laws
// ---------------------------------------------------------------------------

/// Decimal text is made of digits, and these have the value that was written.
pub proof fn lemma_decimal(n: nat)
    ensures
        decimal(n).len() > 0,
        all_digits(decimal(n)),
        decimal_value(decimal(n)) == n,
    decreases n,
{
    let s = decimal(n);
    if n < 10 {
        assert(s.drop_last() =~= Seq::empty());
        assert(decimal_value(s.drop_last()) == 0);
    } else {
        lemma_decimal(n / 10);
        assert(s.drop_last() =~= decimal(n / 10));
    }
}

/// What is written in decimal reads back as the same number.
pub proof fn law_decimal_reads_back(n: u32)
    ensures
        number(decimal(n as nat)) == Ok::<u32, NumberFault>(n),
{
    let s = decimal(n as nat);
    lemma_decimal(n as nat);
    assert(is_digit(s[0]));
    assert(s.take(s.len() as int) =~= s);
    lemma_leading_digits(s, s.len() as int);
}

/// A number at the end of a text is what its trailing digits are, where no digit stands
/// before it.
pub proof fn law_trailing_number(base: Seq<char>, n: nat)
    requires
        base.len() == 0 || !is_digit(base.last()),
    ensures
        trailing_digits(base + decimal(n)) == decimal(n),
{
    lemma_decimal(n);
    lemma_trailing_digits(base, decimal(n));
}

proof fn lemma_trailing_digits(base: Seq<char>, digits: Seq<char>)
    requires
        base.len() == 0 || !is_digit(base.last()),
        all_digits(digits),
    ensures
        trailing_digits(base + digits) == digits,
    decreases digits.len(),
{
    let s = base + digits;
    if digits.len() == 0 {
        assert(s =~= base);
        assert(trailing_digits(base) =~= Seq::empty());
    } else {
        assert(is_digit(digits[digits.len() - 1]));
        assert(s.drop_last() =~= base + digits.drop_last());
        lemma_trailing_digits(base, digits.drop_last());
        assert(digits.drop_last().push(digits.last()) =~= digits);
    }
}

}
