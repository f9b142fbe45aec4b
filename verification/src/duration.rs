//! The duration grammar: a signed decimal magnitude followed by one letter
//! for the unit, as in `10d`, `-3h`, `45m` or `90s`.

use vstd::prelude::*;
use crate::time::{span_seconds, TimeSpan};

verus! {

/// Why a string is no duration.
#[derive(Clone, Copy, Debug, PartialEq, Eq, Structural)]
pub enum ParseError {
    /// Fewer than two characters.
    TooShort,
    /// What precedes the last character is not a decimal integer that fits
    /// in 64 bits, or it is one, but that many units are more than a span holds.
    InvalidMagnitude,
    /// The last character is none of `d`, `h`, `m`, `s`.
    UnknownGranularity,
}

/// Whether `c` is one of the ten decimal digits.
pub open spec fn is_digit(c: char) -> bool {
    48 <= c as u32 <= 57
}

/// The number that the digit `c` stands for.
pub open spec fn digit(c: char) -> int {
    c as u32 - 48
}

/// Whether `s` is made of decimal digits alone.
pub open spec fn all_digits(s: Seq<char>) -> bool {
    forall|i: int| 0 <= i < s.len() ==> is_digit(#[trigger] s[i])
}

/// The number that the digits of `s` write in base ten.
pub open spec fn digits_value(s: Seq<char>) -> int
    decreases s.len(),
{
    if s.len() == 0 {
        0
    } else {
        digits_value(s.drop_last()) * 10 + digit(s.last())
    }
}

/// Whether `s` begins with a sign.
pub open spec fn signed(s: Seq<char>) -> bool {
    s.len() > 0 && (s[0] == '-' || s[0] == '+')
}

/// The integer that `s` writes: an optional `+` or `-`, then one or more
/// decimal digits and nothing else, with a value that fits in 64 bits.
pub open spec fn magnitude(s: Seq<char>) -> Option<int> {
    let body = if signed(s) { s.skip(1) } else { s };
    let value = if signed(s) && s[0] == '-' { -digits_value(body) } else { digits_value(body) };
    if body.len() > 0 && all_digits(body) && i64::MIN <= value <= i64::MAX {
        Some(value)
    } else {
        None
    }
}

/// The length in seconds of the unit that `c` names.
pub open spec fn unit_seconds(c: char) -> Option<int> {
    if c == 'd' {
        Some(86_400)
    } else if c == 'h' {
        Some(3_600)
    } else if c == 'm' {
        Some(60)
    } else if c == 's' {
        Some(1)
    } else {
        None
    }
}

/// The seconds that the duration string `s` stands for, or why it stands for
/// none. The magnitude is judged before the unit.
pub open spec fn parsed(s: Seq<char>) -> Result<int, ParseError> {
    if s.len() < 2 {
        Err(ParseError::TooShort)
    } else {
        match magnitude(s.drop_last()) {
            None => Err(ParseError::InvalidMagnitude),
            Some(m) => match unit_seconds(s.last()) {
                None => Err(ParseError::UnknownGranularity),
                Some(unit) => match span_seconds(m, unit) {
                    Some(seconds) => Ok(seconds as int),
                    None => Err(ParseError::InvalidMagnitude),
                },
            },
        }
    }
}

/// The digits of a number are worth at least as much as any of their beginnings.
proof fn lemma_value_grows(s: Seq<char>, k: int)
    requires
        all_digits(s),
        0 <= k <= s.len(),
    ensures
        0 <= digits_value(s.take(k)) <= digits_value(s),
    decreases s.len(),
{
    if s.len() == 0 {
        assert(s.take(k) =~= s);
    } else if k == s.len() {
        assert(s.take(k) =~= s);
        let front = s.drop_last();
        assert forall|i: int| 0 <= i < front.len() implies is_digit(#[trigger] front[i]) by {
            assert(front[i] == s[i]);
        }
        lemma_value_grows(front, 0);
    } else {
        let front = s.drop_last();
        assert forall|i: int| 0 <= i < front.len() implies is_digit(#[trigger] front[i]) by {
            assert(front[i] == s[i]);
        }
        lemma_value_grows(front, k);
        assert(front.take(k) =~= s.take(k));
        assert(is_digit(s[s.len() - 1]));
    }
}

/// The integer that the first `end` characters of `s` write, if they write one.
fn parse_magnitude(s: &str, end: usize) -> (r: Option<i64>)
    requires
        end <= s@.len(),
    ensures
        match r {
            Some(m) => magnitude(s@.take(end as int)) == Some(m as int),
            None => magnitude(s@.take(end as int)) is None,
        },
{
    let ghost text = s@.take(end as int);
    if end == 0 {
        return None;
    }
    let first = s.get_char(0);
    let negative = first == '-';
    let start: usize = if first == '-' || first == '+' { 1 } else { 0 };
    let ghost body = if signed(text) { text.skip(1) } else { text };
    assert(text[0] == s@[0]);
    assert(body =~= s@.subrange(start as int, end as int));
    if start == end {
        return None;
    }
    let limit: u128 = if negative { 9_223_372_036_854_775_808 } else { 9_223_372_036_854_775_807 };
    let mut value: u128 = 0;
    let mut i: usize = start;
    assert(body.take(0) =~= Seq::<char>::empty());
    while i < end
        invariant
            start <= i <= end <= s@.len(),
            text == s@.take(end as int),
            body == if signed(text) { text.skip(1) } else { text },
            body == s@.subrange(start as int, end as int),
            negative == (signed(text) && text[0] == '-'),
            limit == if negative { 9_223_372_036_854_775_808u128 } else { 9_223_372_036_854_775_807u128 },
            value == digits_value(body.take(i - start)),
            all_digits(body.take(i - start)),
            value <= limit,
        decreases end - i,
    {
        let c = s.get_char(i);
        let code: u32 = c as u32;
        let ghost k = i - start;
        assert(body[k] == c);
        if code < 48 || code > 57 {
            assert(!is_digit(body[k]));
            return None;
        }
        let next: u128 = value * 10 + (code - 48) as u128;
        proof {
            let longer = body.take(k + 1);
            assert(longer.drop_last() =~= body.take(k));
            assert(longer.last() == c);
            assert(digits_value(longer) == next);
            assert forall|j: int| 0 <= j < longer.len() implies is_digit(#[trigger] longer[j]) by {
                if j < k {
                    assert(body.take(k)[j] == longer[j]);
                }
            }
        }
        if next > limit {
            proof {
                if all_digits(body) {
                    lemma_value_grows(body, k + 1);
                }
            }
            return None;
        }
        value = next;
        i = i + 1;
    }
    assert(body.take(end - start) =~= body);
    if negative {
        if value == 9_223_372_036_854_775_808 {
            Some(i64::MIN)
        } else {
            Some(-(value as i64))
        }
    } else {
        Some(value as i64)
    }
}

/// Reads a duration: a signed decimal magnitude, then `d` for days, `h` for
/// hours, `m` for minutes or `s` for seconds. The result is exactly the
/// magnitude times the length of the unit.
pub fn str_to_timedelta(s: &str) -> (r: Result<TimeSpan, ParseError>)
    ensures
        match r {
            Ok(span) => parsed(s@) == Ok::<int, ParseError>(span@),
            Err(e) => parsed(s@) == Err::<int, ParseError>(e),
        },
{
    let n: usize = s.unicode_len();
    if n < 2 {
        return Err(ParseError::TooShort);
    }
    assert(s@.take(n - 1) =~= s@.drop_last());
    let amount: i64 = match parse_magnitude(s, n - 1) {
        Some(m) => m,
        None => {
            return Err(ParseError::InvalidMagnitude);
        },
    };
    let granularity = s.get_char(n - 1);
    let span = if granularity == 'd' {
        TimeSpan::days(amount)
    } else if granularity == 'h' {
        TimeSpan::hours(amount)
    } else if granularity == 'm' {
        TimeSpan::minutes(amount)
    } else if granularity == 's' {
        TimeSpan::seconds(amount)
    } else {
        return Err(ParseError::UnknownGranularity);
    };
    match span {
        Some(span) => Ok(span),
        None => Err(ParseError::InvalidMagnitude),
    }
}

/// The character that writes the digit `d`.
pub open spec fn digit_char(d: int) -> char {
    ((d + 48) as u8) as char
}

/// The decimal digits of the natural number `n`, without leading zeros.
pub open spec fn digits_of(n: int) -> Seq<char>
    decreases n,
{
    if n < 10 {
        seq![digit_char(n)]
    } else {
        digits_of(n / 10).push(digit_char(n % 10))
    }
}

/// The integer `m` written in base ten, with `-` in front if it is negative.
pub open spec fn decimal(m: int) -> Seq<char> {
    if m < 0 {
        seq!['-'] + digits_of(-m)
    } else {
        digits_of(m)
    }
}

/// The digits of a natural number are digits, at least one, and write that number.
proof fn lemma_digits_of(n: int)
    requires
        0 <= n,
    ensures
        digits_of(n).len() >= 1,
        all_digits(digits_of(n)),
        digits_value(digits_of(n)) == n,
    decreases n,
{
    if n < 10 {
        let s = seq![digit_char(n)];
        assert(s.drop_last() =~= Seq::<char>::empty());
        assert(digits_value(s.drop_last()) == 0);
        assert(digit(s.last()) == n);
    } else {
        lemma_digits_of(n / 10);
        let front = digits_of(n / 10);
        let s = front.push(digit_char(n % 10));
        assert(s.drop_last() =~= front);
        assert(digit(s.last()) == n % 10);
        assert forall|i: int| 0 <= i < s.len() implies is_digit(#[trigger] s[i]) by {
            if i < front.len() {
                assert(s[i] == front[i]);
            }
        }
    }
}

/// Reading a written integer gives that integer back.
pub proof fn lemma_magnitude_of_decimal(m: i64)
    ensures
        decimal(m as int).len() >= 1,
        magnitude(decimal(m as int)) == Some(m as int),
{
    let s = decimal(m as int);
    if m < 0 {
        lemma_digits_of(-m);
        assert(s[0] == '-');
        assert(s.skip(1) =~= digits_of(-m));
    } else {
        lemma_digits_of(m as int);
        assert(is_digit(s[0]));
    }
}

/// A magnitude written in base ten and followed by a unit reads as exactly
/// that magnitude times the length of the unit, with no rounding; or as an
/// invalid magnitude where that many seconds are more than a span holds.
pub proof fn lemma_round_trip(m: i64, unit: char)
    requires
        unit_seconds(unit) is Some,
    ensures
        parsed(decimal(m as int).push(unit)) == match span_seconds(
            m as int,
            unit_seconds(unit)->0,
        ) {
            Some(seconds) => Ok::<int, ParseError>(m * unit_seconds(unit)->0),
            None => Err::<int, ParseError>(ParseError::InvalidMagnitude),
        },
{
    lemma_magnitude_of_decimal(m);
    let s = decimal(m as int).push(unit);
    assert(s.drop_last() =~= decimal(m as int));
    assert(s.last() == unit);
}

} // verus!
