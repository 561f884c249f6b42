//! The order of durations: by their seconds, then by their nanoseconds,
//! which is the order of the spans they stand for.

use std::cmp::Ordering;
use vstd::prelude::*;
use crate::duration::Duration;

verus! {

/// How the span `a` compares with the span `b`.
pub open spec fn compare_spans(a: nat, b: nat) -> Ordering {
    if a < b {
        Ordering::Less
    } else if a == b {
        Ordering::Equal
    } else {
        Ordering::Greater
    }
}

/// How `a` seconds and `b` nanoseconds compare with `c` seconds and `d`
/// nanoseconds: by the seconds, and by the nanoseconds where those are the
/// same.
pub open spec fn compare_fields(a: nat, b: nat, c: nat, d: nat) -> Ordering {
    if a < c || (a == c && b < d) {
        Ordering::Less
    } else if a == c && b == d {
        Ordering::Equal
    } else {
        Ordering::Greater
    }
}

/// Spans compare as their whole seconds do, and as their nanoseconds beyond
/// those where the whole seconds are the same.
pub proof fn law_order_is_by_seconds_then_nanoseconds(a: nat, b: nat)
    ensures
        compare_spans(a, b) == compare_fields(
            a / 1_000_000_000,
            a % 1_000_000_000,
            b / 1_000_000_000,
            b % 1_000_000_000,
        ),
{
}

impl PartialOrd for Duration {
    fn partial_cmp(&self, other: &Duration) -> (r: Option<Ordering>) {
        let (secs, nanos) = (self.as_secs(), self.subsec_nanos());
        let (other_secs, other_nanos) = (other.as_secs(), other.subsec_nanos());
        if secs < other_secs {
            Some(Ordering::Less)
        } else if secs > other_secs {
            Some(Ordering::Greater)
        } else if nanos < other_nanos {
            Some(Ordering::Less)
        } else if nanos > other_nanos {
            Some(Ordering::Greater)
        } else {
            Some(Ordering::Equal)
        }
    }
}

impl vstd::std_specs::cmp::PartialOrdSpecImpl for Duration {
    open spec fn obeys_partial_cmp_spec() -> bool {
        true
    }

    open spec fn partial_cmp_spec(&self, other: &Duration) -> Option<Ordering> {
        Some(compare_spans(self@, other@))
    }
}

} // verus!
