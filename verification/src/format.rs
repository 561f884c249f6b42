//! The formatters: the display form, padded to a field, and the exact form.

use vstd::prelude::*;
use vstd::string::{StrSliceExecFns, StringExecFns};
use crate::duration::{Duration, SECONDS_IN_HOUR, SECONDS_IN_MINUTE};
use crate::text::{
    blank, clock, decimal, digit_char, exact, fixed_decimal, padded, spaces, trimmed_fraction,
    Alignment,
};

verus! {

/// `String::push` appends one character to the string.
pub assume_specification[ String::push ](s: &mut String, ch: char)
    ensures
        final(s)@ == old(s)@.push(ch),
;

/// Appends the digit `d`.
fn push_digit(out: &mut String, d: u8)
    requires
        d < 10,
    ensures
        final(out)@ == old(out)@.push(digit_char(d as nat)),
{
    out.push((d + 48) as char);
}

/// Appends `n` in base ten.
fn push_decimal(out: &mut String, n: u64)
    ensures
        final(out)@ == old(out)@ + decimal(n as nat),
    decreases n,
{
    if n >= 10 {
        push_decimal(out, n / 10);
    }
    push_digit(out, (n % 10) as u8);
}

/// Appends the last `places` digits of `n`.
fn push_fixed_decimal(out: &mut String, n: u64, places: u8)
    ensures
        final(out)@ == old(out)@ + fixed_decimal(n as nat, places as nat),
    decreases places,
{
    if places > 0 {
        push_fixed_decimal(out, n / 10, places - 1);
        push_digit(out, (n % 10) as u8);
    }
}

/// Appends `n` spaces.
fn push_spaces(out: &mut String, n: usize)
    ensures
        final(out)@ == old(out)@ + spaces(n as nat),
{
    let mut i: usize = 0;
    while i < n
        invariant
            i <= n,
            out@ == old(out)@ + spaces(i as nat),
        decreases n - i,
    {
        out.push(' ');
        i += 1;
    }
}

/// `text` in a field of at least `width` characters.
pub fn pad(text: &str, width: usize, align: Alignment) -> (out: String)
    ensures
        out@ == padded(text@, width as nat, align),
{
    let len = text.unicode_len();
    let mut out = String::new();
    if len >= width {
        out.append(text);
    } else {
        let room: usize = width - len;
        match align {
            Alignment::Left => {
                out.append(text);
                push_spaces(&mut out, room);
            },
            Alignment::Right => {
                push_spaces(&mut out, room);
                out.append(text);
            },
            Alignment::Center => {
                push_spaces(&mut out, room / 2);
                out.append(text);
                push_spaces(&mut out, room - room / 2);
            },
        }
    }
    out
}

impl Duration {
    /// The display form in a field of at least `width` characters. The
    /// tenths of a second are written if they are not zero, and also if
    /// `precision` is not zero.
    pub fn fmt(&self, width: usize, precision: usize, align: Alignment) -> (out: String)
        ensures
            out@ == padded(clock(self@, precision as nat), width as nat, align),
    {
        let all_secs = self.as_secs();
        let hours: u64 = all_secs / SECONDS_IN_HOUR;
        let minutes: u64 = all_secs / SECONDS_IN_MINUTE % SECONDS_IN_MINUTE;
        let seconds: u64 = all_secs % SECONDS_IN_MINUTE;
        let tenths: u32 = self.subsec_nanos() / 100_000_000;

        let mut result = String::new();
        if hours > 0 {
            push_decimal(&mut result, hours);
            result.push(':');
            push_fixed_decimal(&mut result, minutes, 2);
            result.push(':');
            push_fixed_decimal(&mut result, seconds, 2);
        } else if minutes > 0 {
            push_decimal(&mut result, minutes);
            result.push(':');
            push_fixed_decimal(&mut result, seconds, 2);
        } else {
            push_decimal(&mut result, seconds);
        }
        if tenths > 0 || precision > 0 {
            result.push('.');
            push_digit(&mut result, tenths as u8);
        }
        assert(result@ =~= clock(self@, precision as nat));
        pad(result.as_str(), width, align)
    }

    /// The display form, neither padded nor with tenths that are zero.
    pub fn to_string(&self) -> (out: String)
        ensures
            out@ == clock(self@, 0),
    {
        self.fmt(0, 0, Alignment::Right)
    }

    /// The exact form, which reads back as the same duration.
    pub fn serialize(&self) -> (out: String)
        ensures
            out@ == exact(self@),
    {
        let nanos = self.subsec_nanos();
        let seconds = self.as_secs();
        let minutes: u64 = seconds / 60;
        let hours: u64 = minutes / 60;
        let seconds: u64 = seconds % 60;
        let minutes: u64 = minutes % 60;

        let mut string = String::new();
        if hours > 0 {
            if hours < 10 {
                push_fixed_decimal(&mut string, hours, 2);
            } else {
                push_decimal(&mut string, hours);
            }
            string.push(':');
        }
        push_fixed_decimal(&mut string, minutes, 2);
        string.push(':');
        push_fixed_decimal(&mut string, seconds, 2);
        if nanos > 0 {
            string.push('.');
            let mut digits: u64 = nanos as u64;
            let mut places: u8 = 9;
            while places > 0 && digits % 10 == 0
                invariant
                    places <= 9,
                    trimmed_fraction(digits as nat, places as nat) == trimmed_fraction(
                        nanos as nat,
                        9,
                    ),
                decreases places,
            {
                digits = digits / 10;
                places = places - 1;
            }
            push_fixed_decimal(&mut string, digits, places);
        }
        assert(string@ =~= exact(self@));
        string
    }
}

/// The field that stands for an absent value.
pub fn pad_blank(width: usize) -> (out: String)
    ensures
        out@ == blank(width as nat),
{
    let mut out = String::new();
    if width > 1 {
        push_spaces(&mut out, width);
    } else {
        push_spaces(&mut out, 1);
    }
    out
}

} // verus!
