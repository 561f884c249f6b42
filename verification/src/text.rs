//! What a duration looks like in writing, as sequences of characters.

use vstd::prelude::*;

verus! {

/// Where a text stands in a field that is wider than the text.
#[derive(Clone, Copy, Debug, PartialEq, Eq, Structural)]
pub enum Alignment {
    /// At the start of the field, the padding after it.
    Left,
    /// At the end of the field, the padding before it.
    Right,
    /// In the middle; of an odd number of spaces the greater half follows.
    Center,
}

/// The character for a digit below ten.
pub open spec fn digit_char(d: nat) -> char {
    ((d + 0x30) as u8) as char
}

/// `n` in base ten, without leading zeros.
pub open spec fn decimal(n: nat) -> Seq<char>
    decreases n,
{
    if n < 10 {
        seq![digit_char(n)]
    } else {
        decimal(n / 10).push(digit_char(n % 10))
    }
}

/// The last `places` digits of `n` in base ten, leading zeros included.
pub open spec fn fixed_decimal(n: nat, places: nat) -> Seq<char>
    decreases places,
{
    if places == 0 {
        Seq::empty()
    } else {
        fixed_decimal(n / 10, (places - 1) as nat).push(digit_char(n % 10))
    }
}

/// `n` in base ten, with a leading zero if it is below ten.
pub open spec fn two_or_more_digits(n: nat) -> Seq<char> {
    if n < 10 {
        fixed_decimal(n, 2)
    } else {
        decimal(n)
    }
}

/// The digits of `n` as a fraction of `places` decimal places, without the
/// zeros at its end.
pub open spec fn trimmed_fraction(n: nat, places: nat) -> Seq<char>
    decreases places,
{
    if places == 0 {
        Seq::empty()
    } else if n % 10 == 0 {
        trimmed_fraction(n / 10, (places - 1) as nat)
    } else {
        fixed_decimal(n, places)
    }
}

/// `n` spaces.
pub open spec fn spaces(n: nat) -> Seq<char> {
    Seq::new(n, |i: int| ' ')
}

/// The display form of `secs` whole seconds: `H:MM:SS`, `M:SS` or `S` by the
/// largest unit that is not zero. The leading field has no leading zero, the
/// fields after it have two digits.
pub open spec fn clock_seconds(secs: nat) -> Seq<char> {
    let hours = secs / 3600;
    let minutes = secs / 60 % 60;
    let seconds = secs % 60;
    if hours > 0 {
        decimal(hours) + seq![':'] + fixed_decimal(minutes, 2) + seq![':'] + fixed_decimal(
            seconds,
            2,
        )
    } else if minutes > 0 {
        decimal(minutes) + seq![':'] + fixed_decimal(seconds, 2)
    } else {
        decimal(seconds)
    }
}

/// The display form of a span of `nanos` nanoseconds: the whole seconds,
/// then a point and the tenths of a second if they are not zero or a
/// precision was asked for. Less than a tenth of a second is not shown.
pub open spec fn clock(nanos: nat, precision: nat) -> Seq<char> {
    let tenths = nanos % 1_000_000_000 / 100_000_000;
    if tenths > 0 || precision > 0 {
        clock_seconds(nanos / 1_000_000_000) + seq!['.', digit_char(tenths)]
    } else {
        clock_seconds(nanos / 1_000_000_000)
    }
}

/// `text` in a field of at least `width` characters, filled up with spaces.
pub open spec fn padded(text: Seq<char>, width: nat, align: Alignment) -> Seq<char> {
    if text.len() >= width {
        text
    } else {
        let room = (width - text.len()) as nat;
        match align {
            Alignment::Left => text + spaces(room),
            Alignment::Right => spaces(room) + text,
            Alignment::Center => spaces(room / 2) + text + spaces((room + 1) / 2),
        }
    }
}

/// The exact form of `secs` whole seconds: `HH:MM:SS` or, below an hour,
/// `MM:SS`, each field of two digits or more.
pub open spec fn exact_seconds(secs: nat) -> Seq<char> {
    let hours = secs / 3600;
    let minutes = secs / 60 % 60;
    let seconds = secs % 60;
    if hours > 0 {
        two_or_more_digits(hours) + seq![':'] + fixed_decimal(minutes, 2) + seq![':']
            + fixed_decimal(seconds, 2)
    } else {
        fixed_decimal(minutes, 2) + seq![':'] + fixed_decimal(seconds, 2)
    }
}

/// The exact form of a span of `nanos` nanoseconds: the whole seconds, then
/// a point and the fraction of a second down to its last digit that is not
/// zero, if there is one.
pub open spec fn exact(nanos: nat) -> Seq<char> {
    let fraction = nanos % 1_000_000_000;
    if fraction > 0 {
        exact_seconds(nanos / 1_000_000_000) + seq!['.'] + trimmed_fraction(fraction, 9)
    } else {
        exact_seconds(nanos / 1_000_000_000)
    }
}

/// The field that stands for a value that is absent: spaces, one at least.
pub open spec fn blank(width: nat) -> Seq<char> {
    if width > 1 {
        spaces(width)
    } else {
        spaces(1)
    }
}

} // verus!
