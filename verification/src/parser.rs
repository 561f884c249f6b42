//! The parser: one function for each production of the grammar, and the
//! strict parse of a whole string.

use vstd::pervasive::unreached;
use vstd::prelude::*;
use vstd::string::StringExecFns;
use vstd::utf8::is_ascii_chars_encode_utf8;
use crate::duration::{Duration, SECONDS_IN_HOUR, SECONDS_IN_MINUTE};
use crate::grammar;
use crate::grammar::{Parsed, decimal_value, digit_value, pow10};
use crate::scan::{digit1, is_digit, one_of, tag};

verus! {

/// Why a string is not a duration.
#[derive(Clone, Copy, Debug, PartialEq, Eq, Structural)]
pub enum ParseDurationErr {
    /// The string does not start with a duration, or its fraction has more
    /// than nine digits.
    Unspecified,
    /// The string starts with a duration, and something follows it.
    LeftoverCharacters,
}

/// Why a string does not start with a fraction of a second.
#[derive(Clone, Copy, Debug, PartialEq, Eq, Structural)]
pub enum ParseFractError {
    /// There is no point, or no digit after it.
    NoFraction,
    /// There are more than nine digits after the point.
    TooMuchPrecision,
}

impl ParseDurationErr {
    /// What the error says of the string.
    pub open spec fn message(self) -> Seq<char> {
        match self {
            ParseDurationErr::Unspecified => "Unspecified error"@,
            ParseDurationErr::LeftoverCharacters => "Leftover characters"@,
        }
    }

    /// The error in words.
    pub fn to_string(&self) -> (out: String)
        ensures
            out@ == self.message(),
    {
        match self {
            ParseDurationErr::Unspecified => String::from_str("Unspecified error"),
            ParseDurationErr::LeftoverCharacters => String::from_str("Leftover characters"),
        }
    }
}

/// A parser's result `r` is what the grammar yields, `p`: the same text left
/// over, the same time.
pub open spec fn agrees(r: Option<(&str, Duration)>, p: Option<Parsed>) -> bool {
    match (r, p) {
        (Some((rest, d)), Some(q)) => rest@ =~= q.rest && d@ == q.nanos,
        (None, None) => true,
        _ => false,
    }
}

/// The same for a single digit, which yields its value.
pub open spec fn digit_agrees(r: Option<(&str, u8)>, p: Option<(Seq<char>, nat)>) -> bool {
    match (r, p) {
        (Some((rest, v)), Some((left, value))) => rest@ =~= left && v == value,
        (None, None) => true,
        _ => false,
    }
}

/// Splits the one-character `pattern` off the front of `input`.
fn symbol<'a>(pattern: &str, c: char, input: &'a str) -> (r: Option<&'a str>)
    requires
        pattern@ == seq![c],
    ensures
        match r {
            Some(rest) => input@.len() > 0 && input@[0] == c && rest@ == input@.skip(1),
            None => input@.len() == 0 || input@[0] != c,
        },
{
    match tag(pattern, input) {
        Ok((rest, _)) => {
            assert(input@[0] == pattern@[0]);
            assert(rest@ =~= input@.skip(1));
            Some(rest)
        },
        Err(_) => {
            proof {
                if input@.len() > 0 && input@[0] == c {
                    assert(pattern@ =~= input@.subrange(0, 1));
                }
            }
            None
        },
    }
}

/// Splits a colon off the front of `input`.
fn colon<'a>(input: &'a str) -> (r: Option<&'a str>)
    ensures
        match r {
            Some(rest) => input@.len() > 0 && input@[0] == ':' && rest@ == input@.skip(1),
            None => input@.len() == 0 || input@[0] != ':',
        },
{
    proof {
        reveal_strlit(":");
        assert(":"@ =~= seq![':']);
    }
    symbol(":", ':', input)
}

/// Splits a decimal point off the front of `input`.
fn point<'a>(input: &'a str) -> (r: Option<&'a str>)
    ensures
        match r {
            Some(rest) => input@.len() > 0 && input@[0] == '.' && rest@ == input@.skip(1),
            None => input@.len() == 0 || input@[0] != '.',
        },
{
    proof {
        reveal_strlit(".");
        assert("."@ =~= seq!['.']);
    }
    symbol(".", '.', input)
}

/// `zero_to_five`: a digit from `0` to `5`, as its value.
pub fn zero_through_five(input: &str) -> (r: Option<(&str, u8)>)
    ensures
        digit_agrees(r, grammar::zero_through_five(input@)),
{
    proof {
        reveal_strlit("012345");
    }
    let list = "012345";
    match one_of(list, input) {
        Ok((rest, digit)) => {
            assert('0' <= digit <= '5') by {
                let i = choose|i: int| 0 <= i < list@.len() && list@[i] == digit;
                assert(list@[i] == digit);
            }
            Some((rest, digit as u8 - 48))
        },
        Err(_) => {
            proof {
                if input@.len() > 0 && grammar::is_zero_through_five(input@[0]) {
                    assert(list@[input@[0] as u32 - 48] == input@[0]);
                }
            }
            None
        },
    }
}

/// `digit`: a decimal digit, as its value.
pub fn single_digit(input: &str) -> (r: Option<(&str, u8)>)
    ensures
        digit_agrees(r, grammar::single_digit(input@)),
{
    proof {
        reveal_strlit("0123456789");
    }
    let list = "0123456789";
    match one_of(list, input) {
        Ok((rest, digit)) => {
            assert('0' <= digit <= '9') by {
                let i = choose|i: int| 0 <= i < list@.len() && list@[i] == digit;
                assert(list@[i] == digit);
            }
            Some((rest, digit as u8 - 48))
        },
        Err(_) => {
            proof {
                if input@.len() > 0 && is_digit(input@[0]) {
                    assert(list@[input@[0] as u32 - 48] == input@[0]);
                }
            }
            None
        },
    }
}

/// The number that `digits` stands for in base ten, unless it is more than a
/// `u64` can hold.
fn decimal_number(digits: &str) -> (r: Option<u64>)
    requires
        forall|i: int| 0 <= i < digits@.len() ==> is_digit(#[trigger] digits@[i]),
    ensures
        match r {
            Some(n) => n == decimal_value(digits@),
            None => decimal_value(digits@) > u64::MAX,
        },
{
    let bytes = digits.as_bytes();
    proof {
        is_ascii_chars_encode_utf8(digits@);
    }
    let mut value: u64 = 0;
    let mut i: usize = 0;
    while i < bytes.len()
        invariant
            i <= bytes.len(),
            bytes@.len() == digits@.len(),
            forall|j: int| 0 <= j < digits@.len() ==> is_digit(#[trigger] digits@[j]),
            forall|j: int| 0 <= j < digits@.len() ==> digits@[j] as u8 == #[trigger] bytes@[j],
            value == decimal_value(digits@.take(i as int)),
        decreases bytes.len() - i,
    {
        let ghost next = digits@.take(i + 1);
        proof {
            assert(next.drop_last() =~= digits@.take(i as int));
            assert(next.last() == digits@[i as int]);
            assert(is_digit(digits@[i as int]));
            grammar::lemma_decimal_value_of_prefix(digits@, i + 1);
        }
        let digit: u8 = bytes[i] - 48;
        assert(digit == digit_value(digits@[i as int]));
        let shifted = match value.checked_mul(10) {
            Some(shifted) => shifted,
            None => {
                return None;
            },
        };
        value = match shifted.checked_add(digit as u64) {
            Some(value) => value,
            None => {
                return None;
            },
        };
        i += 1;
    }
    assert(digits@.take(i as int) =~= digits@);
    Some(value)
}

/// `hour_prefix`: one digit or more and a colon, read as hours.
pub fn hour_prefix(input: &str) -> (r: Option<(&str, Duration)>)
    ensures
        agrees(r, grammar::hour_prefix(input@)),
{
    match digit1(input) {
        Err(_) => None,
        Ok((rest, digits)) => {
            proof {
                grammar::lemma_digit_run(digits@, rest@);
                assert(input@.take(digits@.len() as int) =~= digits@);
                assert(input@.skip(digits@.len() as int) =~= rest@);
            }
            match colon(rest) {
                None => None,
                Some(rest) => match decimal_number(digits) {
                    None => None,
                    Some(hours) => match hours.checked_mul(SECONDS_IN_HOUR) {
                        None => None,
                        Some(secs) => Some((rest, Duration::new(secs, 0))),
                    },
                },
            }
        },
    }
}

/// `dd_minute_prefix`: two digits from `00` to `59` and a colon, read as
/// minutes.
pub fn double_digit_minute_prefix(input: &str) -> (r: Option<(&str, Duration)>)
    ensures
        agrees(r, grammar::double_digit_minute_prefix(input@)),
{
    match zero_through_five(input) {
        None => None,
        Some((rest, tens)) => match single_digit(rest) {
            None => None,
            Some((rest, ones)) => match colon(rest) {
                None => None,
                Some(rest) => {
                    let minutes: u64 = tens as u64 * 10 + ones as u64;
                    Some((rest, Duration::new(minutes * SECONDS_IN_MINUTE, 0)))
                },
            },
        },
    }
}

/// `sd_minute_prefix`: one digit and a colon, read as minutes.
pub fn single_digit_minute_prefix(input: &str) -> (r: Option<(&str, Duration)>)
    ensures
        agrees(r, grammar::single_digit_minute_prefix(input@)),
{
    match single_digit(input) {
        None => None,
        Some((rest, ones)) => match colon(rest) {
            None => None,
            Some(rest) => Some((rest, Duration::new(ones as u64 * SECONDS_IN_MINUTE, 0))),
        },
    }
}

/// `dd_seconds`: two digits from `00` to `59`, read as seconds.
pub fn double_digit_seconds(input: &str) -> (r: Option<(&str, Duration)>)
    ensures
        agrees(r, grammar::double_digit_seconds(input@)),
{
    match zero_through_five(input) {
        None => None,
        Some((rest, tens)) => match single_digit(rest) {
            None => None,
            Some((rest, ones)) => Some((rest, Duration::new(tens as u64 * 10 + ones as u64, 0))),
        },
    }
}

/// `sd_seconds`: one digit, read as seconds.
pub fn single_digit_seconds(input: &str) -> (r: Option<(&str, Duration)>)
    ensures
        agrees(r, grammar::single_digit_seconds(input@)),
{
    match single_digit(input) {
        None => None,
        Some((rest, ones)) => Some((rest, Duration::new(ones as u64, 0))),
    }
}

/// The weight in nanoseconds of the last of `len` digits after the point:
/// ten to the power nine less `len`.
pub fn scale_from_length(len: usize) -> (r: Result<u32, ParseFractError>)
    ensures
        match r {
            Ok(scale) => len <= 9 && scale == pow10((9 - len) as nat),
            Err(e) => len > 9 && e == ParseFractError::TooMuchPrecision,
        },
{
    if len > 9 {
        Err(ParseFractError::TooMuchPrecision)
    } else {
        let mut scale: u32 = 1;
        let mut i: usize = 9;
        while i > len
            invariant
                len <= i <= 9,
                scale == pow10((9 - i) as nat),
                scale <= 100_000_000 || i == len,
            decreases i,
        {
            proof {
                assert(pow10((9 - i + 1) as nat) == 10 * pow10((9 - i) as nat));
                lemma_pow10_at_most((9 - i + 1) as nat);
            }
            scale = scale * 10;
            i -= 1;
        }
        Ok(scale)
    }
}

/// The powers of ten up to the ninth, which is a billion.
proof fn lemma_pow10_at_most(n: nat)
    requires
        n <= 9,
    ensures
        pow10(n) <= 1_000_000_000,
        n < 9 ==> pow10(n) <= 100_000_000,
{
    reveal_with_fuel(pow10, 10);
}

/// `fraction`: a point and one to nine digits, read as a fraction of a
/// second.
pub fn fractional(input: &str) -> (r: Result<(&str, Duration), ParseFractError>)
    ensures
        match r {
            Ok(found) => agrees(Some(found), grammar::fractional(input@)),
            Err(ParseFractError::NoFraction) => grammar::fraction_digits(input@) == 0,
            Err(ParseFractError::TooMuchPrecision) => grammar::fraction_digits(input@) > 9,
        },
{
    let after_point = match point(input) {
        Some(rest) => rest,
        None => {
            return Err(ParseFractError::NoFraction);
        },
    };
    match digit1(after_point) {
        Err(_) => {
            proof {
                reveal_with_fuel(grammar::digit_run, 1);
            }
            Err(ParseFractError::NoFraction)
        },
        Ok((rest, digits)) => {
            proof {
                let n = digits@.len() as int;
                grammar::lemma_digit_run(digits@, rest@);
                is_ascii_chars_encode_utf8(digits@);
                assert(after_point@ =~= digits@ + rest@);
                assert(input@.subrange(1, 1 + n) =~= digits@);
                assert(after_point@.skip(n) =~= rest@);
                assert(input@.skip(1 + n) =~= after_point@.skip(n));
                assert(grammar::fraction_digits(input@) == n);
                grammar::lemma_fractional_is_below_a_second(input@);
                grammar::lemma_decimal_value_bound(digits@);
            }
            let scale = match scale_from_length(digits.as_bytes().len()) {
                Ok(scale) => scale,
                Err(e) => {
                    return Err(e);
                },
            };
            proof {
                lemma_pow10_at_most(digits@.len());
            }
            match decimal_number(digits) {
                // Nine digits at most stand for less than a billion.
                None => unreached(),
                Some(value) => {
                    let nanos: u64 = value * (scale as u64);
                    Ok((rest, Duration::new(0, nanos as u32)))
                },
            }
        },
    }
}

/// `hours_and_dd_minutes`: an hour prefix, then a two-digit minute prefix.
pub fn hours_and_double_digit_minute_prefix(input: &str) -> (r: Option<(&str, Duration)>)
    ensures
        agrees(r, grammar::hours_and_double_digit_minute_prefix(input@)),
{
    match hour_prefix(input) {
        None => None,
        Some((rest, hours)) => match double_digit_minute_prefix(rest) {
            None => None,
            Some((rest, minutes)) => match hours.checked_add(minutes) {
                None => None,
                Some(sum) => Some((rest, sum)),
            },
        },
    }
}

/// `hour_and_minute`: hours and two-digit minutes, or else two-digit minutes
/// alone.
pub fn hour_and_minute_prefix(input: &str) -> (r: Option<(&str, Duration)>)
    ensures
        agrees(r, grammar::hour_and_minute_prefix(input@)),
{
    match hours_and_double_digit_minute_prefix(input) {
        Some(found) => Some(found),
        None => double_digit_minute_prefix(input),
    }
}

/// `minute_prefix`: an hour-and-minute prefix, or else a one-digit minute
/// prefix.
pub fn minute_prefix(input: &str) -> (r: Option<(&str, Duration)>)
    ensures
        agrees(r, grammar::minute_prefix(input@)),
{
    match hour_and_minute_prefix(input) {
        Some(found) => Some(found),
        None => single_digit_minute_prefix(input),
    }
}

/// `prefix_and_dd_seconds`: a minute prefix if there is one, then two-digit
/// seconds.
pub fn prefix_and_double_digit_seconds(input: &str) -> (r: Option<(&str, Duration)>)
    ensures
        agrees(r, grammar::prefix_and_double_digit_seconds(input@)),
{
    match minute_prefix(input) {
        None => double_digit_seconds(input),
        Some((rest, minutes)) => match double_digit_seconds(rest) {
            None => None,
            Some((rest, seconds)) => match minutes.checked_add(seconds) {
                None => None,
                Some(sum) => Some((rest, sum)),
            },
        },
    }
}

/// `without_decimal`: a prefix and two-digit seconds, or else one-digit
/// seconds.
pub fn without_decimal(input: &str) -> (r: Option<(&str, Duration)>)
    ensures
        agrees(r, grammar::without_decimal(input@)),
{
    match prefix_and_double_digit_seconds(input) {
        Some(found) => Some(found),
        None => single_digit_seconds(input),
    }
}

/// `duration`: reads the duration that `input` starts with, and returns it
/// with the text that follows it.
pub fn duration_parser(input: &str) -> (r: Option<(&str, Duration)>)
    ensures
        agrees(r, grammar::duration(input@)),
{
    match without_decimal(input) {
        None => None,
        Some((rest, seconds)) => {
            proof {
                grammar::lemma_without_decimal_is_whole(input@);
                grammar::lemma_fractional_is_below_a_second(rest@);
            }
            match fractional(rest) {
                Ok((rest, fraction)) => Some((rest, seconds + fraction)),
                Err(ParseFractError::NoFraction) => Some((rest, seconds)),
                Err(ParseFractError::TooMuchPrecision) => None,
            }
        },
    }
}

impl core::str::FromStr for Duration {
    type Err = ParseDurationErr;

    /// Reads a whole string as one duration.
    fn from_str(s: &str) -> (r: Result<Duration, ParseDurationErr>)
        ensures
            match r {
                Ok(d) => grammar::parse(s@) == Ok::<nat, ParseDurationErr>(d@),
                Err(e) => grammar::parse(s@) == Err::<nat, ParseDurationErr>(e),
            },
    {
        match duration_parser(s) {
            Some((remaining, duration)) => {
                if remaining.is_empty() {
                    Ok(duration)
                } else {
                    Err(ParseDurationErr::LeftoverCharacters)
                }
            },
            None => Err(ParseDurationErr::Unspecified),
        }
    }
}

} // verus!
