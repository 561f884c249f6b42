//! What is written reads back: the laws that tie the formatters to the
//! grammar.

use vstd::prelude::*;
use crate::duration::span_limit;
use crate::grammar::{
    decimal_value, digit_value, double_digit_minute_prefix, double_digit_seconds, duration,
    fraction_digits, fractional, hour_and_minute_prefix, hour_prefix,
    hours_and_double_digit_minute_prefix, is_zero_through_five, lemma_digit_run, minute_prefix,
    parse, pow10, prefix_and_double_digit_seconds, single_digit_minute_prefix,
    single_digit_seconds, without_decimal, Parsed,
};
use crate::parser::ParseDurationErr;
use crate::scan::is_digit;
use crate::text::{
    clock, clock_seconds, decimal, digit_char, exact, exact_seconds, fixed_decimal, padded,
    trimmed_fraction, two_or_more_digits, Alignment,
};

verus! {

/// Every character of `s` is a digit.
pub open spec fn all_digits(s: Seq<char>) -> bool {
    forall|i: int| 0 <= i < s.len() ==> is_digit(#[trigger] s[i])
}

/// A production yields `nanos` and leaves `rest`.
pub open spec fn yields(r: Option<Parsed>, rest: Seq<char>, nanos: nat) -> bool {
    r matches Some(p) && p.rest =~= rest && p.nanos == nanos
}

/// The character of a digit is a digit, and stands for it.
pub proof fn lemma_digit_char(d: nat)
    requires
        d < 10,
    ensures
        is_digit(digit_char(d)),
        digit_value(digit_char(d)) == d,
        d <= 5 ==> is_zero_through_five(digit_char(d)),
{
}

/// A number written in base ten is made of digits and stands for itself.
pub proof fn lemma_decimal(n: nat)
    ensures
        decimal(n).len() >= 1,
        all_digits(decimal(n)),
        decimal_value(decimal(n)) == n,
        n < 10 ==> decimal(n) =~= seq![digit_char(n)],
        10 <= n < 100 ==> decimal(n) =~= seq![digit_char(n / 10), digit_char(n % 10)],
    decreases n,
{
    let s = decimal(n);
    if n >= 10 {
        lemma_decimal(n / 10);
        lemma_digit_char(n % 10);
        assert(s.drop_last() =~= decimal(n / 10));
        assert(s.last() == digit_char(n % 10));
    } else {
        lemma_digit_char(n);
        assert(s.drop_last() =~= Seq::<char>::empty());
        assert(decimal_value(s.drop_last()) == 0);
    }
}

/// A number below ten to the power `places`, written in `places` digits, is
/// made of digits and stands for itself.
pub proof fn lemma_fixed_decimal(n: nat, places: nat)
    requires
        n < pow10(places),
    ensures
        fixed_decimal(n, places).len() == places,
        all_digits(fixed_decimal(n, places)),
        decimal_value(fixed_decimal(n, places)) == n,
    decreases places,
{
    let s = fixed_decimal(n, places);
    if places > 0 {
        lemma_fixed_decimal(n / 10, (places - 1) as nat);
        lemma_digit_char(n % 10);
        assert(s.drop_last() =~= fixed_decimal(n / 10, (places - 1) as nat));
        assert(s.last() == digit_char(n % 10));
    }
}

/// A number below a hundred in two digits.
pub proof fn lemma_two_digits(n: nat)
    requires
        n < 100,
    ensures
        fixed_decimal(n, 2) =~= seq![digit_char(n / 10), digit_char(n % 10)],
{
    reveal_with_fuel(fixed_decimal, 3);
}

/// A fraction without the zeros at its end is made of one digit or more, and
/// stands for the fraction when its last digit is given its place.
pub proof fn lemma_trimmed_fraction(n: nat, places: nat)
    requires
        0 < n < pow10(places),
    ensures
        1 <= trimmed_fraction(n, places).len() <= places,
        all_digits(trimmed_fraction(n, places)),
        decimal_value(trimmed_fraction(n, places)) * pow10(
            (places - trimmed_fraction(n, places).len()) as nat,
        ) == n,
    decreases places,
{
    let t = trimmed_fraction(n, places);
    if n % 10 == 0 {
        let fewer = (places - 1) as nat;
        lemma_trimmed_fraction(n / 10, fewer);
        let unit = pow10((fewer - t.len()) as nat);
        assert(pow10((places - t.len()) as nat) == 10 * unit);
        assert(decimal_value(t) * (10 * unit) == n) by (nonlinear_arith)
            requires
                decimal_value(t) * unit == n / 10,
                n % 10 == 0,
        ;
    } else {
        lemma_fixed_decimal(n, places);
        assert(pow10(0) == 1);
        assert(decimal_value(t) * 1 == n);
    }
}

/// Digits and a colon are an hour prefix.
pub proof fn lemma_hour_prefix_matches(digits: Seq<char>, tail: Seq<char>)
    requires
        digits.len() > 0,
        all_digits(digits),
        decimal_value(digits) * 3600 <= u64::MAX,
    ensures
        yields(
            hour_prefix(digits + seq![':'] + tail),
            tail,
            decimal_value(digits) * 3600 * 1_000_000_000,
        ),
{
    let s = digits + seq![':'] + tail;
    let n = digits.len() as int;
    assert(s =~= digits + (seq![':'] + tail));
    lemma_digit_run(digits, seq![':'] + tail);
    assert(s.take(n) =~= digits);
    assert(s.skip(n + 1) =~= tail);
}

/// Digits that no colon follows are no hour prefix.
pub proof fn lemma_hour_prefix_fails(digits: Seq<char>, tail: Seq<char>)
    requires
        all_digits(digits),
        tail.len() > 0 ==> !is_digit(tail[0]) && tail[0] != ':',
    ensures
        hour_prefix(digits + tail) is None,
{
    lemma_digit_run(digits, tail);
}

/// Two digits below sixty and a colon are a two-digit minute prefix.
pub proof fn lemma_double_digit_minute_prefix_matches(minutes: nat, tail: Seq<char>)
    requires
        minutes < 60,
    ensures
        yields(
            double_digit_minute_prefix(fixed_decimal(minutes, 2) + seq![':'] + tail),
            tail,
            minutes * 60 * 1_000_000_000,
        ),
{
    let s = fixed_decimal(minutes, 2) + seq![':'] + tail;
    lemma_two_digits(minutes);
    lemma_digit_char(minutes / 10);
    lemma_digit_char(minutes % 10);
    assert(s.skip(3) =~= tail);
}

/// Two digits below sixty are two-digit seconds.
pub proof fn lemma_double_digit_seconds_matches(seconds: nat, tail: Seq<char>)
    requires
        seconds < 60,
    ensures
        yields(
            double_digit_seconds(fixed_decimal(seconds, 2) + tail),
            tail,
            seconds * 1_000_000_000,
        ),
{
    let s = fixed_decimal(seconds, 2) + tail;
    lemma_two_digits(seconds);
    lemma_digit_char(seconds / 10);
    lemma_digit_char(seconds % 10);
    assert(s.skip(2) =~= tail);
}

/// What may follow the whole seconds of a written duration: nothing, or a
/// point.
pub open spec fn ends_the_seconds(tail: Seq<char>) -> bool {
    tail.len() > 0 ==> tail[0] == '.'
}

/// With hours: `H:MM:SS` reads back.
proof fn lemma_hours_minutes_seconds_read_back(
    hh: Seq<char>,
    minutes: nat,
    seconds: nat,
    tail: Seq<char>,
)
    requires
        hh.len() > 0,
        all_digits(hh),
        minutes < 60,
        seconds < 60,
        decimal_value(hh) * 3600 + minutes * 60 + seconds <= u64::MAX,
    ensures
        yields(
            prefix_and_double_digit_seconds(
                hh + seq![':'] + fixed_decimal(minutes, 2) + seq![':'] + fixed_decimal(seconds, 2)
                    + tail,
            ),
            tail,
            (decimal_value(hh) * 3600 + minutes * 60 + seconds) * 1_000_000_000,
        ),
{
    let ss = fixed_decimal(seconds, 2);
    let mm = fixed_decimal(minutes, 2);
    let s = hh + seq![':'] + mm + seq![':'] + ss + tail;
    let after_hours = mm + seq![':'] + (ss + tail);
    assert(s =~= hh + seq![':'] + after_hours);
    lemma_hour_prefix_matches(hh, after_hours);
    lemma_double_digit_minute_prefix_matches(minutes, ss + tail);
    lemma_double_digit_seconds_matches(seconds, tail);
    assert(yields(
        hours_and_double_digit_minute_prefix(s),
        ss + tail,
        (decimal_value(hh) * 3600 + minutes * 60) * 1_000_000_000,
    ));
}

/// Without hours, two digits of minutes: `MM:SS` reads back.
proof fn lemma_two_digit_minutes_read_back(minutes: nat, seconds: nat, tail: Seq<char>)
    requires
        minutes < 60,
        seconds < 60,
        ends_the_seconds(tail),
    ensures
        yields(
            prefix_and_double_digit_seconds(
                fixed_decimal(minutes, 2) + seq![':'] + fixed_decimal(seconds, 2) + tail,
            ),
            tail,
            (minutes * 60 + seconds) * 1_000_000_000,
        ),
{
    let ss = fixed_decimal(seconds, 2);
    let mm = fixed_decimal(minutes, 2);
    let s = mm + seq![':'] + ss + tail;
    assert(s =~= mm + seq![':'] + (ss + tail));
    assert(pow10(2) == 100) by {
        reveal_with_fuel(pow10, 3);
    }
    lemma_fixed_decimal(minutes, 2);
    lemma_hour_prefix_matches(mm, ss + tail);
    assert(double_digit_minute_prefix(ss + tail) is None) by {
        lemma_two_digits(seconds);
    }
    assert(hours_and_double_digit_minute_prefix(s) is None);
    lemma_double_digit_minute_prefix_matches(minutes, ss + tail);
    lemma_double_digit_seconds_matches(seconds, tail);
}

/// Without hours, one digit of minutes: `M:SS` reads back.
proof fn lemma_one_digit_minutes_read_back(minutes: nat, seconds: nat, tail: Seq<char>)
    requires
        minutes < 10,
        seconds < 60,
        ends_the_seconds(tail),
    ensures
        yields(
            prefix_and_double_digit_seconds(
                seq![digit_char(minutes)] + seq![':'] + fixed_decimal(seconds, 2) + tail,
            ),
            tail,
            (minutes * 60 + seconds) * 1_000_000_000,
        ),
{
    let ss = fixed_decimal(seconds, 2);
    let m = seq![digit_char(minutes)];
    let s = m + seq![':'] + ss + tail;
    lemma_digit_char(minutes);
    assert(s =~= m + seq![':'] + (ss + tail));
    assert(decimal_value(m) == minutes) by {
        assert(m.drop_last() =~= Seq::<char>::empty());
        reveal_with_fuel(decimal_value, 2);
    }
    lemma_hour_prefix_matches(m, ss + tail);
    assert(double_digit_minute_prefix(ss + tail) is None) by {
        lemma_two_digits(seconds);
    }
    assert(hours_and_double_digit_minute_prefix(s) is None);
    assert(double_digit_minute_prefix(s) is None);
    assert(yields(single_digit_minute_prefix(s), ss + tail, minutes * 60 * 1_000_000_000)) by {
        assert(s.skip(2) =~= ss + tail);
    }
    lemma_double_digit_seconds_matches(seconds, tail);
}

/// Seconds alone, in one digit or two without a leading zero, read back.
proof fn lemma_seconds_alone_read_back(seconds: nat, tail: Seq<char>)
    requires
        seconds < 60,
        ends_the_seconds(tail),
    ensures
        yields(without_decimal(decimal(seconds) + tail), tail, seconds * 1_000_000_000),
{
    let s = decimal(seconds) + tail;
    lemma_decimal(seconds);
    lemma_hour_prefix_fails(decimal(seconds), tail);
    lemma_digit_char(seconds / 10);
    lemma_digit_char(seconds % 10);
    if seconds >= 10 {
        assert(s.len() > 2 ==> s[2] == tail[0]);
        assert(double_digit_minute_prefix(s) is None);
        assert(single_digit_minute_prefix(s) is None);
        assert(decimal(seconds) =~= fixed_decimal(seconds, 2)) by {
            lemma_two_digits(seconds);
        }
        lemma_double_digit_seconds_matches(seconds, tail);
    } else {
        assert(s[0] == digit_char(seconds));
        assert(s.len() > 1 ==> s[1] == tail[0]);
        assert(s.skip(1) =~= tail);
        assert(double_digit_minute_prefix(s) is None);
        assert(single_digit_minute_prefix(s) is None);
        assert(double_digit_seconds(s) is None);
        assert(yields(single_digit_seconds(s), tail, seconds * 1_000_000_000));
    }
}

/// The display form of whole seconds reads back as those seconds.
pub proof fn lemma_clock_seconds_read_back(secs: nat, tail: Seq<char>)
    requires
        secs <= u64::MAX,
        ends_the_seconds(tail),
    ensures
        yields(without_decimal(clock_seconds(secs) + tail), tail, secs * 1_000_000_000),
{
    let hours = secs / 3600;
    let minutes = secs / 60 % 60;
    let seconds = secs % 60;
    let s = clock_seconds(secs) + tail;
    let ss = fixed_decimal(seconds, 2);
    assert(secs == hours * 3600 + minutes * 60 + seconds);
    if hours > 0 {
        lemma_decimal(hours);
        assert(s =~= decimal(hours) + seq![':'] + fixed_decimal(minutes, 2) + seq![':'] + ss
            + tail);
        lemma_hours_minutes_seconds_read_back(decimal(hours), minutes, seconds, tail);
    } else if minutes >= 10 {
        lemma_decimal(minutes);
        lemma_two_digits(minutes);
        assert(s =~= fixed_decimal(minutes, 2) + seq![':'] + ss + tail);
        lemma_two_digit_minutes_read_back(minutes, seconds, tail);
    } else if minutes > 0 {
        lemma_decimal(minutes);
        assert(s =~= seq![digit_char(minutes)] + seq![':'] + ss + tail);
        lemma_one_digit_minutes_read_back(minutes, seconds, tail);
    } else {
        lemma_seconds_alone_read_back(seconds, tail);
    }
}

/// The exact form of whole seconds reads back as those seconds.
pub proof fn lemma_exact_seconds_read_back(secs: nat, tail: Seq<char>)
    requires
        secs <= u64::MAX,
        ends_the_seconds(tail),
    ensures
        yields(without_decimal(exact_seconds(secs) + tail), tail, secs * 1_000_000_000),
{
    let hours = secs / 3600;
    let minutes = secs / 60 % 60;
    let seconds = secs % 60;
    let s = exact_seconds(secs) + tail;
    let ss = fixed_decimal(seconds, 2);
    let mm = fixed_decimal(minutes, 2);
    assert(secs == hours * 3600 + minutes * 60 + seconds);
    if hours > 0 {
        let hh = two_or_more_digits(hours);
        assert(hh.len() > 0 && all_digits(hh) && decimal_value(hh) == hours) by {
            if hours < 10 {
                assert(pow10(2) == 100) by {
                    reveal_with_fuel(pow10, 3);
                }
                lemma_fixed_decimal(hours, 2);
            } else {
                lemma_decimal(hours);
            }
        }
        assert(s =~= hh + seq![':'] + mm + seq![':'] + ss + tail);
        lemma_hours_minutes_seconds_read_back(hh, minutes, seconds, tail);
    } else {
        assert(s =~= mm + seq![':'] + ss + tail);
        lemma_two_digit_minutes_read_back(minutes, seconds, tail);
    }
}

/// A point and digits, one to nine of them, are a fraction.
pub proof fn lemma_fractional_matches(digits: Seq<char>)
    requires
        1 <= digits.len() <= 9,
        all_digits(digits),
    ensures
        fraction_digits(seq!['.'] + digits) == digits.len(),
        yields(
            fractional(seq!['.'] + digits),
            Seq::empty(),
            decimal_value(digits) * pow10((9 - digits.len()) as nat),
        ),
{
    let s = seq!['.'] + digits;
    let n = digits.len() as int;
    assert(s.skip(1) =~= digits + Seq::<char>::empty());
    lemma_digit_run(digits, Seq::empty());
    assert(s.subrange(1, 1 + n) =~= digits);
    assert(s.skip(1 + n) =~= Seq::<char>::empty());
}

/// Formatting, then parsing: the display form of a duration, unpadded,
/// reads back as that duration, less what is beyond its tenths of a second.
pub proof fn law_display_form_reads_back(nanos: nat, precision: nat)
    requires
        nanos < span_limit(),
    ensures
        parse(clock(nanos, precision)) == Ok::<nat, ParseDurationErr>(
            (nanos - nanos % 100_000_000) as nat,
        ),
{
    let secs = nanos / 1_000_000_000;
    let tenths = nanos % 1_000_000_000 / 100_000_000;
    let s = clock(nanos, precision);
    assert(secs * 1_000_000_000 + tenths * 100_000_000 == nanos - nanos % 100_000_000) by {
        let fraction = nanos % 1_000_000_000;
        assert(nanos == (secs * 10 + tenths) * 100_000_000 + fraction % 100_000_000);
    }
    if tenths > 0 || precision > 0 {
        let digits = seq![digit_char(tenths)];
        let tail = seq!['.'] + digits;
        assert(s =~= clock_seconds(secs) + tail);
        lemma_clock_seconds_read_back(secs, tail);
        lemma_digit_char(tenths);
        assert(digits.drop_last() =~= Seq::<char>::empty());
        assert(decimal_value(digits) == tenths) by {
            reveal_with_fuel(decimal_value, 2);
        }
        assert(pow10(8) == 100_000_000) by {
            reveal_with_fuel(pow10, 9);
        }
        lemma_fractional_matches(digits);
    } else {
        assert(s =~= clock_seconds(secs) + Seq::<char>::empty());
        lemma_clock_seconds_read_back(secs, Seq::empty());
    }
}

/// The same for a duration given by its fields: hours, minutes and seconds
/// below sixty, and tenths of a second. Its display form reads back as the
/// duration itself.
pub proof fn law_fields_read_back(
    hours: nat,
    minutes: nat,
    seconds: nat,
    tenths: nat,
    precision: nat,
)
    requires
        minutes <= 59,
        seconds <= 59,
        tenths <= 9,
        hours * 3600 + minutes * 60 + seconds <= u64::MAX,
    ensures
        parse(
            clock(
                (hours * 3600 + minutes * 60 + seconds) * 1_000_000_000 + tenths * 100_000_000,
                precision,
            ),
        ) == Ok::<nat, ParseDurationErr>(
            (hours * 3600 + minutes * 60 + seconds) * 1_000_000_000 + tenths * 100_000_000,
        ),
{
    law_display_form_reads_back(
        (hours * 3600 + minutes * 60 + seconds) * 1_000_000_000 + tenths * 100_000_000,
        precision,
    );
}

/// The display form shows nothing of what is beyond the tenths of a second.
pub proof fn lemma_clock_stops_at_tenths(nanos: nat, precision: nat)
    ensures
        clock((nanos - nanos % 100_000_000) as nat, precision) == clock(nanos, precision),
{
    let shown = (nanos - nanos % 100_000_000) as nat;
    let secs = nanos / 1_000_000_000;
    let tenths = nanos % 1_000_000_000 / 100_000_000;
    assert(shown == secs * 1_000_000_000 + tenths * 100_000_000) by {
        let fraction = nanos % 1_000_000_000;
        assert(nanos == (secs * 10 + tenths) * 100_000_000 + fraction % 100_000_000);
    }
    assert(shown / 1_000_000_000 == secs);
    assert(shown % 1_000_000_000 / 100_000_000 == tenths);
}

/// Parsing, then formatting: a display form is reproduced by formatting what
/// it reads back as, with the precision it was written with.
pub proof fn law_display_form_is_reproduced(nanos: nat, precision: nat)
    requires
        nanos < span_limit(),
    ensures
        parse(clock(nanos, precision)) matches Ok(read) && clock(read, precision) == clock(
            nanos,
            precision,
        ),
{
    law_display_form_reads_back(nanos, precision);
    lemma_clock_stops_at_tenths(nanos, precision);
}

/// The exact form of a duration reads back as that duration, to the
/// nanosecond.
pub proof fn law_exact_form_reads_back(nanos: nat)
    requires
        nanos < span_limit(),
    ensures
        parse(exact(nanos)) == Ok::<nat, ParseDurationErr>(nanos),
{
    let secs = nanos / 1_000_000_000;
    let fraction = nanos % 1_000_000_000;
    let s = exact(nanos);
    if fraction > 0 {
        let digits = trimmed_fraction(fraction, 9);
        let tail = seq!['.'] + digits;
        assert(pow10(9) == 1_000_000_000) by {
            reveal_with_fuel(pow10, 10);
        }
        lemma_trimmed_fraction(fraction, 9);
        assert(s =~= exact_seconds(secs) + tail);
        lemma_exact_seconds_read_back(secs, tail);
        lemma_fractional_matches(digits);
    } else {
        assert(s =~= exact_seconds(secs) + Seq::<char>::empty());
        lemma_exact_seconds_read_back(secs, Seq::empty());
    }
}

/// A fraction of ten digits or more is no fraction, and a string that goes
/// on with one after its whole seconds is no duration.
pub proof fn law_long_fraction_is_refused(s: Seq<char>)
    ensures
        fraction_digits(s) >= 10 ==> fractional(s) is None,
        without_decimal(s) matches Some(whole) && fraction_digits(whole.rest) >= 10 ==> parse(s)
            == Err::<nat, ParseDurationErr>(ParseDurationErr::Unspecified),
{
}

/// A padded text fills its field: it is as long as the wider of the text and
/// the field. Aligned to the right, it ends with the text.
pub proof fn law_padding_fills_the_field(text: Seq<char>, width: nat, align: Alignment)
    ensures
        padded(text, width, align).len() == if text.len() >= width {
            text.len()
        } else {
            width
        },
        align == Alignment::Right ==> text.is_suffix_of(padded(text, width, align)),
{
    if text.len() < width && align == Alignment::Right {
        let p = padded(text, width, align);
        assert(p.subrange(p.len() - text.len(), p.len() as int) =~= text);
    }
}

} // verus!
