//! The duration value: whole seconds and the nanoseconds of the second begun.

use vstd::prelude::*;

pub use crate::parser::{
    double_digit_minute_prefix, double_digit_seconds, duration_parser, fractional,
    hour_and_minute_prefix, hour_prefix, hours_and_double_digit_minute_prefix, minute_prefix,
    prefix_and_double_digit_seconds, scale_from_length, single_digit, single_digit_minute_prefix,
    single_digit_seconds, without_decimal, zero_through_five, ParseDurationErr, ParseFractError,
};
pub use crate::text::Alignment;

verus! {

pub const SECONDS_IN_MINUTE: u64 = 60;

pub const MINUTES_IN_HOUR: u64 = 60;

pub const SECONDS_IN_HOUR: u64 = 3600;

pub const NANOSECONDS_IN_SECOND: u32 = 1_000_000_000;

/// The largest number of nanoseconds a [`Duration`] can hold, plus one.
pub open spec fn span_limit() -> nat {
    0x1_0000_0000_0000_0000 * 1_000_000_000
}

/// A non-negative span of time.
///
/// Its view is the span in nanoseconds. Two durations are equal exactly when
/// their views are.
#[derive(Clone, Copy, Debug, PartialEq, Eq, Structural, Ord)]
pub struct Duration {
    secs: u64,
    nanos: u32,
}

impl View for Duration {
    type V = nat;

    closed spec fn view(&self) -> nat {
        self.secs as nat * 1_000_000_000 + self.nanos as nat
    }
}

impl Duration {
    /// The nanoseconds of the second begun are fewer than a second. Every
    /// duration that a program holds is well formed.
    #[verifier::type_invariant]
    pub closed spec fn wf(self) -> bool {
        self.nanos < 1_000_000_000
    }

    /// The well-formed duration of `nanos` nanoseconds.
    pub closed spec fn of_nanos(nanos: nat) -> Duration {
        Duration {
            secs: (nanos / 1_000_000_000) as u64,
            nanos: (nanos % 1_000_000_000) as u32,
        }
    }

    /// Every span below the limit is the view of one well-formed duration.
    pub proof fn lemma_of_nanos(nanos: nat)
        requires
            nanos < span_limit(),
        ensures
            Self::of_nanos(nanos)@ == nanos,
            Self::of_nanos(nanos).wf(),
    {
    }

    /// A well-formed duration stands for a span below the limit, and two
    /// of them that stand for the same span are the same duration.
    pub proof fn law_one_duration_for_each_span(self, other: Duration)
        requires
            self.wf(),
            other.wf(),
        ensures
            self@ < span_limit(),
            self@ == other@ <==> self == other,
    {
    }

    /// A duration of `secs` seconds and `nanos` nanoseconds. A billion
    /// nanoseconds or more carry over into the seconds.
    pub fn new(secs: u64, nanos: u32) -> (d: Self)
        requires
            secs + nanos / 1_000_000_000 <= u64::MAX,
        ensures
            d@ == secs * 1_000_000_000 + nanos,
    {
        if nanos < NANOSECONDS_IN_SECOND {
            Duration { secs, nanos }
        } else {
            let carry: u32 = nanos / NANOSECONDS_IN_SECOND;
            Duration { secs: secs + carry as u64, nanos: nanos % NANOSECONDS_IN_SECOND }
        }
    }

    /// A duration of hours, minutes and seconds.
    pub fn new_hour_min_sec(hours: u64, mins: u8, secs: u8) -> (d: Self)
        requires
            (hours * 60 + mins) * 60 + secs <= u64::MAX,
        ensures
            d@ == ((hours * 60 + mins) * 60 + secs) * 1_000_000_000,
    {
        Self::new_min_sec(hours * MINUTES_IN_HOUR + mins as u64, secs)
    }

    /// A duration of minutes and seconds.
    pub fn new_min_sec(mins: u64, secs: u8) -> (d: Self)
        requires
            mins * 60 + secs <= u64::MAX,
        ensures
            d@ == (mins * 60 + secs) * 1_000_000_000,
    {
        Self::new_min_sec_tenths(mins, secs, 0)
    }

    /// A duration of minutes, seconds and tenths of a second.
    pub fn new_min_sec_tenths(mins: u64, secs: u8, tenths: u8) -> (d: Self)
        requires
            mins * 60 + secs + tenths / 10 <= u64::MAX,
            tenths * 100_000_000 <= u32::MAX,
        ensures
            d@ == (mins * 60 + secs) * 1_000_000_000 + tenths * 100_000_000,
    {
        Self::new(mins * SECONDS_IN_MINUTE + secs as u64, tenths as u32 * 100_000_000)
    }

    /// A duration of whole seconds.
    pub fn from_secs(secs: u64) -> (d: Self)
        ensures
            d@ == secs * 1_000_000_000,
    {
        Duration { secs, nanos: 0 }
    }

    /// The sum of two durations, unless it is more than a duration can hold.
    pub fn checked_add(self, rhs: Duration) -> (sum: Option<Duration>)
        ensures
            match sum {
                Some(d) => d@ == self@ + rhs@ && self@ + rhs@ < span_limit(),
                None => self@ + rhs@ >= span_limit(),
            },
    {
        proof {
            use_type_invariant(&self);
            use_type_invariant(&rhs);
        }
        let total: u32 = self.nanos + rhs.nanos;
        let carry: u64 = if total >= NANOSECONDS_IN_SECOND { 1 } else { 0 };
        let nanos: u32 = if total >= NANOSECONDS_IN_SECOND {
            total - NANOSECONDS_IN_SECOND
        } else {
            total
        };
        match self.secs.checked_add(rhs.secs) {
            None => None,
            Some(whole) => match whole.checked_add(carry) {
                None => None,
                Some(secs) => Some(Duration { secs, nanos }),
            },
        }
    }

    /// The whole seconds.
    pub fn as_secs(&self) -> (secs: u64)
        ensures
            secs == self@ / 1_000_000_000,
    {
        proof {
            use_type_invariant(self);
        }
        self.secs
    }

    /// The whole milliseconds beyond the whole seconds.
    pub fn subsec_millis(&self) -> (millis: u32)
        ensures
            millis == self@ % 1_000_000_000 / 1_000_000,
    {
        proof {
            use_type_invariant(self);
        }
        self.nanos / 1_000_000
    }

    /// The nanoseconds beyond the whole seconds.
    pub fn subsec_nanos(&self) -> (nanos: u32)
        ensures
            nanos == self@ % 1_000_000_000,
    {
        proof {
            use_type_invariant(self);
        }
        self.nanos
    }
}

/// The sum of the spans of `items`, in nanoseconds.
pub open spec fn total(items: Seq<Duration>) -> nat
    decreases items.len(),
{
    if items.len() == 0 {
        0
    } else {
        total(items.drop_last()) + items.last()@
    }
}

/// The first `k` of `items` add up to no more than all of them.
pub proof fn lemma_total_of_prefix(items: Seq<Duration>, k: int)
    requires
        0 <= k <= items.len(),
    ensures
        total(items.take(k)) <= total(items),
    decreases items.len() - k,
{
    if k == items.len() {
        assert(items.take(k) =~= items);
    } else {
        lemma_total_of_prefix(items.drop_last(), k);
        assert(items.drop_last().take(k) =~= items.take(k));
    }
}

impl Duration {
    /// The sum of `items`. It must be one that a duration can hold.
    pub fn sum(items: &[Duration]) -> (d: Duration)
        requires
            total(items@) < span_limit(),
        ensures
            d@ == total(items@),
    {
        let mut sum = Duration::from_secs(0);
        let mut i: usize = 0;
        while i < items.len()
            invariant
                i <= items.len(),
                sum@ == total(items@.take(i as int)),
                total(items@) < span_limit(),
            decreases items.len() - i,
        {
            proof {
                lemma_total_of_prefix(items@, i + 1);
                assert(items@.take(i + 1).drop_last() =~= items@.take(i as int));
            }
            sum = sum + items[i];
            i += 1;
        }
        assert(items@.take(i as int) =~= items@);
        sum
    }
}

impl core::ops::Add for Duration {
    type Output = Duration;

    /// The sum of two durations. It must be one that a duration can hold.
    fn add(self, rhs: Duration) -> (sum: Duration)
        ensures
            sum@ == self@ + rhs@,
    {
        proof {
            use_type_invariant(&self);
            use_type_invariant(&rhs);
            Duration::lemma_of_nanos(self@ + rhs@);
        }
        let total: u32 = self.nanos + rhs.nanos;
        if total >= NANOSECONDS_IN_SECOND {
            Duration { secs: self.secs + rhs.secs + 1, nanos: total - NANOSECONDS_IN_SECOND }
        } else {
            Duration { secs: self.secs + rhs.secs, nanos: total }
        }
    }
}

impl vstd::std_specs::ops::AddSpecImpl for Duration {
    open spec fn obeys_add_spec() -> bool {
        true
    }

    open spec fn add_req(self, rhs: Duration) -> bool {
        self@ + rhs@ < span_limit()
    }

    open spec fn add_spec(self, rhs: Duration) -> Duration {
        Duration::of_nanos(self@ + rhs@)
    }
}

impl core::ops::AddAssign for Duration {
    /// Adds `rhs` to this duration. The sum must be one that a duration can
    /// hold.
    fn add_assign(&mut self, rhs: Duration)
        requires
            old(self)@ + rhs@ < span_limit(),
        ensures
            final(self)@ == old(self)@ + rhs@,
    {
        *self = *self + rhs;
    }
}

impl core::ops::Div<u32> for Duration {
    type Output = Duration;

    /// This duration divided by `rhs`, rounded down to the nanosecond.
    /// `rhs` must not be zero.
    fn div(self, rhs: u32) -> (q: Duration)
        ensures
            q@ == self@ / (rhs as nat),
    {
        proof {
            use_type_invariant(&self);
        }
        let divisor: u64 = rhs as u64;
        let secs: u64 = self.secs / divisor;
        let extra_secs: u64 = self.secs % divisor;
        let rest: u64 = extra_secs * 1_000_000_000 + self.nanos as u64;
        let nanos: u64 = rest / divisor;
        proof {
            let d = divisor as int;
            let whole = secs as int * 1_000_000_000;
            let rest = rest as int;
            vstd::arithmetic::div_mod::lemma_fundamental_div_mod(self.secs as int, d);
            assert(d * secs == secs * d) by (nonlinear_arith);
            assert(self@ == whole * d + rest) by (nonlinear_arith)
                requires
                    self@ == self.secs * 1_000_000_000 + self.nanos,
                    self.secs == secs * d + extra_secs,
                    rest == extra_secs * 1_000_000_000 + self.nanos,
                    whole == secs * 1_000_000_000,
            ;
            assert(rest < 1_000_000_000 * d) by (nonlinear_arith)
                requires
                    rest == extra_secs * 1_000_000_000 + self.nanos,
                    extra_secs <= d - 1,
                    self.nanos < 1_000_000_000,
            ;
            assert(rest / d < 1_000_000_000) by (nonlinear_arith)
                requires
                    0 <= rest < 1_000_000_000 * d,
                    d > 0,
            ;
            assert((whole * d + rest) / d == whole + rest / d) by (nonlinear_arith)
                requires
                    d > 0,
            ;
            Duration::lemma_of_nanos(self@ / (rhs as nat));
        }
        Duration { secs, nanos: nanos as u32 }
    }
}

impl vstd::std_specs::ops::DivSpecImpl<u32> for Duration {
    open spec fn obeys_div_spec() -> bool {
        true
    }

    open spec fn div_req(self, rhs: u32) -> bool {
        rhs != 0
    }

    open spec fn div_spec(self, rhs: u32) -> Duration {
        Duration::of_nanos(self@ / (rhs as nat))
    }
}

} // verus!
