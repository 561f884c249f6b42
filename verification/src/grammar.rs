//! The grammar of digital duration strings, as functions on sequences of
//! characters.
//!
//! ```text
//! hour_prefix      := digit+ ':'
//! dd_minute_prefix := zero_to_five digit ':'
//! sd_minute_prefix := digit ':'
//! dd_seconds       := zero_to_five digit
//! sd_seconds       := digit
//! fraction         := '.' digit{1,9}
//!
//! hours_and_dd_minutes  := hour_prefix dd_minute_prefix
//! hour_and_minute       := hours_and_dd_minutes | dd_minute_prefix
//! minute_prefix         := hour_and_minute | sd_minute_prefix
//! prefix_and_dd_seconds := minute_prefix? dd_seconds
//! without_decimal       := prefix_and_dd_seconds | sd_seconds
//! duration              := without_decimal fraction?
//! ```
//!
//! A choice takes its first alternative that matches and never returns to a
//! later one. Each production reads a prefix of its input and yields the time
//! that its own fields stand for; a sequence adds up what its parts yield. A
//! production whose value is more than a duration can hold does not match.

use vstd::prelude::*;
use crate::duration::span_limit;
use crate::parser::ParseDurationErr;
use crate::scan::is_digit;

verus! {

/// What a production yields: the input left over, and a time in nanoseconds.
pub struct Parsed {
    pub rest: Seq<char>,
    pub nanos: nat,
}

/// A digit from `0` to `5`: the tens of a minute or second field.
pub open spec fn is_zero_through_five(c: char) -> bool {
    '0' <= c <= '5'
}

/// The number a digit stands for.
pub open spec fn digit_value(c: char) -> nat {
    (c as u32 - 0x30) as nat
}

/// How many digits `s` starts with.
pub open spec fn digit_run(s: Seq<char>) -> nat
    decreases s.len(),
{
    if s.len() > 0 && is_digit(s[0]) {
        1 + digit_run(s.skip(1))
    } else {
        0
    }
}

/// The number that a sequence of digits stands for in base ten.
pub open spec fn decimal_value(s: Seq<char>) -> nat
    decreases s.len(),
{
    if s.len() == 0 {
        0
    } else {
        decimal_value(s.drop_last()) * 10 + digit_value(s.last())
    }
}

/// Ten to the power `n`.
pub open spec fn pow10(n: nat) -> nat
    decreases n,
{
    if n == 0 {
        1
    } else {
        10 * pow10((n - 1) as nat)
    }
}

/// `zero_to_five`: the digit's value and what follows it.
pub open spec fn zero_through_five(s: Seq<char>) -> Option<(Seq<char>, nat)> {
    if s.len() > 0 && is_zero_through_five(s[0]) {
        Some((s.skip(1), digit_value(s[0])))
    } else {
        None
    }
}

/// `digit`: the digit's value and what follows it.
pub open spec fn single_digit(s: Seq<char>) -> Option<(Seq<char>, nat)> {
    if s.len() > 0 && is_digit(s[0]) {
        Some((s.skip(1), digit_value(s[0])))
    } else {
        None
    }
}

/// `hour_prefix`: one digit or more and a colon, read as hours.
pub open spec fn hour_prefix(s: Seq<char>) -> Option<Parsed> {
    let n = digit_run(s) as int;
    let hours = decimal_value(s.take(n));
    if 0 < n < s.len() && s[n] == ':' && hours * 3600 <= u64::MAX {
        Some(Parsed { rest: s.skip(n + 1), nanos: hours * 3600 * 1_000_000_000 })
    } else {
        None
    }
}

/// `dd_minute_prefix`: two digits from `00` to `59` and a colon, read as
/// minutes.
pub open spec fn double_digit_minute_prefix(s: Seq<char>) -> Option<Parsed> {
    if s.len() >= 3 && is_zero_through_five(s[0]) && is_digit(s[1]) && s[2] == ':' {
        Some(
            Parsed {
                rest: s.skip(3),
                nanos: (10 * digit_value(s[0]) + digit_value(s[1])) * 60 * 1_000_000_000,
            },
        )
    } else {
        None
    }
}

/// `sd_minute_prefix`: one digit and a colon, read as minutes.
pub open spec fn single_digit_minute_prefix(s: Seq<char>) -> Option<Parsed> {
    if s.len() >= 2 && is_digit(s[0]) && s[1] == ':' {
        Some(Parsed { rest: s.skip(2), nanos: digit_value(s[0]) * 60 * 1_000_000_000 })
    } else {
        None
    }
}

/// `dd_seconds`: two digits from `00` to `59`, read as seconds.
pub open spec fn double_digit_seconds(s: Seq<char>) -> Option<Parsed> {
    if s.len() >= 2 && is_zero_through_five(s[0]) && is_digit(s[1]) {
        Some(
            Parsed {
                rest: s.skip(2),
                nanos: (10 * digit_value(s[0]) + digit_value(s[1])) * 1_000_000_000,
            },
        )
    } else {
        None
    }
}

/// `sd_seconds`: one digit, read as seconds.
pub open spec fn single_digit_seconds(s: Seq<char>) -> Option<Parsed> {
    if s.len() >= 1 && is_digit(s[0]) {
        Some(Parsed { rest: s.skip(1), nanos: digit_value(s[0]) * 1_000_000_000 })
    } else {
        None
    }
}

/// How many digits follow the point that `s` starts with; zero when `s` does
/// not start with a point.
pub open spec fn fraction_digits(s: Seq<char>) -> nat {
    if s.len() > 0 && s[0] == '.' {
        digit_run(s.skip(1))
    } else {
        0
    }
}

/// `fraction`: a point and one to nine digits, read as a fraction of a
/// second. The last digit given stands at its own decimal place: `.8` is 800
/// milliseconds, `.817` is 817.
pub open spec fn fractional(s: Seq<char>) -> Option<Parsed> {
    let n = fraction_digits(s) as int;
    if 1 <= n <= 9 {
        Some(
            Parsed {
                rest: s.skip(1 + n),
                nanos: decimal_value(s.subrange(1, 1 + n)) * pow10((9 - n) as nat),
            },
        )
    } else {
        None
    }
}

/// The sequence of two productions: `second` is what the later one yields on
/// the input that the earlier one left. Their times add up.
pub open spec fn followed_by(first: Parsed, second: Option<Parsed>) -> Option<Parsed> {
    match second {
        Some(p) if first.nanos + p.nanos < span_limit() => Some(
            Parsed { rest: p.rest, nanos: first.nanos + p.nanos },
        ),
        _ => None,
    }
}

/// `hours_and_dd_minutes`: an hour prefix, then a two-digit minute prefix.
pub open spec fn hours_and_double_digit_minute_prefix(s: Seq<char>) -> Option<Parsed> {
    match hour_prefix(s) {
        Some(hours) => followed_by(hours, double_digit_minute_prefix(hours.rest)),
        None => None,
    }
}

/// `hour_and_minute`: hours and two-digit minutes, or else two-digit minutes
/// alone.
pub open spec fn hour_and_minute_prefix(s: Seq<char>) -> Option<Parsed> {
    match hours_and_double_digit_minute_prefix(s) {
        Some(p) => Some(p),
        None => double_digit_minute_prefix(s),
    }
}

/// `minute_prefix`: an hour-and-minute prefix, or else a one-digit minute
/// prefix.
pub open spec fn minute_prefix(s: Seq<char>) -> Option<Parsed> {
    match hour_and_minute_prefix(s) {
        Some(p) => Some(p),
        None => single_digit_minute_prefix(s),
    }
}

/// `prefix_and_dd_seconds`: a minute prefix if there is one, then two-digit
/// seconds.
pub open spec fn prefix_and_double_digit_seconds(s: Seq<char>) -> Option<Parsed> {
    match minute_prefix(s) {
        Some(prefix) => followed_by(prefix, double_digit_seconds(prefix.rest)),
        None => double_digit_seconds(s),
    }
}

/// `without_decimal`: a prefix and two-digit seconds, or else one-digit
/// seconds.
pub open spec fn without_decimal(s: Seq<char>) -> Option<Parsed> {
    match prefix_and_double_digit_seconds(s) {
        Some(p) => Some(p),
        None => single_digit_seconds(s),
    }
}

/// `duration`: whole seconds, then a fraction if there is one. A fraction of
/// more than nine digits makes the whole input invalid.
pub open spec fn duration(s: Seq<char>) -> Option<Parsed> {
    match without_decimal(s) {
        Some(whole) => if fraction_digits(whole.rest) == 0 {
            Some(whole)
        } else {
            followed_by(whole, fractional(whole.rest))
        },
        None => None,
    }
}

/// The strict reading of a whole string: the time in nanoseconds that `s`
/// stands for when all of `s` is one duration.
pub open spec fn parse(s: Seq<char>) -> Result<nat, ParseDurationErr> {
    match duration(s) {
        Some(p) => if p.rest.len() == 0 {
            Ok(p.nanos)
        } else {
            Err(ParseDurationErr::LeftoverCharacters)
        },
        None => Err(ParseDurationErr::Unspecified),
    }
}

/// A run of digits followed by no further digit is the digit run of the
/// whole.
pub proof fn lemma_digit_run(digits: Seq<char>, rest: Seq<char>)
    requires
        forall|i: int| 0 <= i < digits.len() ==> is_digit(#[trigger] digits[i]),
        rest.len() > 0 ==> !is_digit(rest[0]),
    ensures
        digit_run(digits + rest) == digits.len(),
    decreases digits.len(),
{
    let s = digits + rest;
    if digits.len() == 0 {
        assert(s =~= rest);
    } else {
        assert(s[0] == digits[0]);
        assert(s.skip(1) =~= digits.skip(1) + rest);
        lemma_digit_run(digits.skip(1), rest);
    }
}

/// The digit run of `s` is made of digits and ends where `s` ends or at a
/// character that is no digit.
pub proof fn lemma_digit_run_is_maximal(s: Seq<char>)
    ensures
        digit_run(s) <= s.len(),
        forall|i: int| 0 <= i < digit_run(s) ==> is_digit(#[trigger] s[i]),
        digit_run(s) < s.len() ==> !is_digit(s[digit_run(s) as int]),
    decreases s.len(),
{
    if s.len() > 0 && is_digit(s[0]) {
        lemma_digit_run_is_maximal(s.skip(1));
        assert forall|i: int| 0 <= i < digit_run(s) implies is_digit(#[trigger] s[i]) by {
            if i > 0 {
                assert(s[i] == s.skip(1)[i - 1]);
            }
        }
        if digit_run(s) < s.len() {
            assert(s[digit_run(s) as int] == s.skip(1)[digit_run(s.skip(1)) as int]);
        }
    }
}

/// A prefix of a sequence of digits stands for no more than the whole.
pub proof fn lemma_decimal_value_of_prefix(s: Seq<char>, k: int)
    requires
        0 <= k <= s.len(),
    ensures
        decimal_value(s.take(k)) <= decimal_value(s),
    decreases s.len() - k,
{
    if k == s.len() {
        assert(s.take(k) =~= s);
    } else {
        lemma_decimal_value_of_prefix(s.drop_last(), k);
        assert(s.drop_last().take(k) =~= s.take(k));
    }
}

/// `n` digits stand for a number below ten to the power `n`.
pub proof fn lemma_decimal_value_bound(s: Seq<char>)
    requires
        forall|i: int| 0 <= i < s.len() ==> is_digit(#[trigger] s[i]),
    ensures
        decimal_value(s) < pow10(s.len()),
    decreases s.len(),
{
    if s.len() > 0 {
        lemma_decimal_value_bound(s.drop_last());
        assert(is_digit(s[s.len() - 1]));
    }
}

/// Powers of ten multiply by adding their exponents.
pub proof fn lemma_pow10_adds(a: nat, b: nat)
    ensures
        pow10(a) * pow10(b) == pow10(a + b),
    decreases a,
{
    if a > 0 {
        let less = (a - 1) as nat;
        lemma_pow10_adds(less, b);
        assert(pow10(a) == 10 * pow10(less));
        assert(pow10(a + b) == 10 * pow10((a + b - 1) as nat));
        assert((a + b - 1) as nat == less + b);
        assert(pow10(a) * pow10(b) == 10 * (pow10(less) * pow10(b))) by (nonlinear_arith)
            requires
                pow10(a) == 10 * pow10(less),
        ;
    } else {
        assert(pow10(a) * pow10(b) == pow10(b)) by (nonlinear_arith)
            requires
                pow10(a) == 1,
        ;
    }
}

/// `rest` is what is left of `s` when a prefix of one character or more has
/// been read from it.
pub open spec fn is_left_of(rest: Seq<char>, s: Seq<char>) -> bool {
    rest.len() < s.len() && rest =~= s.skip(s.len() - rest.len())
}

/// What is left of what was left is left of the whole.
pub proof fn lemma_is_left_of_chains(rest: Seq<char>, middle: Seq<char>, s: Seq<char>)
    requires
        is_left_of(middle, s),
        is_left_of(rest, middle),
    ensures
        is_left_of(rest, s),
{
}

/// What a prefix production leaves is the end of its input, behind the
/// prefix.
pub proof fn lemma_minute_prefix_reads_a_prefix(s: Seq<char>)
    ensures
        minute_prefix(s) matches Some(p) ==> is_left_of(p.rest, s),
{
    lemma_digit_run_is_maximal(s);
    if let Some(hours) = hour_prefix(s) {
        if let Some(minutes) = double_digit_minute_prefix(hours.rest) {
            lemma_is_left_of_chains(minutes.rest, hours.rest, s);
        }
    }
}

/// A duration is read from the front of its input: what is left is the end
/// of the input, behind a prefix of one character or more.
pub proof fn law_a_duration_is_a_prefix(s: Seq<char>)
    ensures
        duration(s) matches Some(p) ==> is_left_of(p.rest, s),
{
    lemma_minute_prefix_reads_a_prefix(s);
    if let Some(prefix) = minute_prefix(s) {
        if let Some(seconds) = double_digit_seconds(prefix.rest) {
            lemma_is_left_of_chains(seconds.rest, prefix.rest, s);
        }
    }
    if let Some(whole) = without_decimal(s) {
        assert(is_left_of(whole.rest, s));
        if let Some(fraction) = fractional(whole.rest) {
            lemma_digit_run_is_maximal(whole.rest.skip(1));
            lemma_is_left_of_chains(fraction.rest, whole.rest, s);
        }
    }
}

/// A fraction is less than a second.
pub proof fn lemma_fractional_is_below_a_second(s: Seq<char>)
    ensures
        fractional(s) matches Some(p) ==> p.nanos < 1_000_000_000,
{
    let n = fraction_digits(s);
    if 1 <= n <= 9 {
        let digits = s.subrange(1, 1 + n as int);
        lemma_digit_run_is_maximal(s.skip(1));
        assert forall|i: int| 0 <= i < digits.len() implies is_digit(#[trigger] digits[i]) by {
            assert(digits[i] == s.skip(1)[i]);
        }
        lemma_decimal_value_bound(digits);
        lemma_pow10_adds(n, (9 - n) as nat);
        assert(pow10(9) == 1_000_000_000) by {
            reveal_with_fuel(pow10, 10);
        }
        assert(pow10((9 - n) as nat) > 0) by {
            reveal_with_fuel(pow10, 10);
        }
        assert(decimal_value(digits) * pow10((9 - n) as nat) < pow10(n) * pow10((9 - n) as nat))
            by (nonlinear_arith)
            requires
                decimal_value(digits) < pow10(n),
                pow10((9 - n) as nat) > 0,
        ;
    }
}

/// What `without_decimal` yields is a whole number of seconds that a duration
/// can hold.
pub proof fn lemma_without_decimal_is_whole(s: Seq<char>)
    ensures
        without_decimal(s) matches Some(p) ==> p.nanos % 1_000_000_000 == 0 && p.nanos
            < span_limit(),
{
}

} // verus!
