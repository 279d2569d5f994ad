//! The order of timestamps in time, to the nanosecond.

use crate::calendar::DateTime;
use crate::timestamp::Timestamp;
use std::cmp::Ordering;
use vstd::prelude::*;
use vstd::std_specs::cmp::PartialOrdSpecImpl;

verus! {

/// How the date and time `a` stands to `b` in one time zone: the first of
/// year, month, day, hour, minute, second and nanosecond in which they differ
/// decides.
pub open spec fn date_time_order(a: DateTime, b: DateTime) -> Ordering {
    if a.year != b.year {
        if a.year < b.year {
            Ordering::Less
        } else {
            Ordering::Greater
        }
    } else if a.month != b.month {
        if a.month < b.month {
            Ordering::Less
        } else {
            Ordering::Greater
        }
    } else if a.day != b.day {
        if a.day < b.day {
            Ordering::Less
        } else {
            Ordering::Greater
        }
    } else if a.hour != b.hour {
        if a.hour < b.hour {
            Ordering::Less
        } else {
            Ordering::Greater
        }
    } else if a.minute != b.minute {
        if a.minute < b.minute {
            Ordering::Less
        } else {
            Ordering::Greater
        }
    } else if a.second != b.second {
        if a.second < b.second {
            Ordering::Less
        } else {
            Ordering::Greater
        }
    } else if a.nanosecond != b.nanosecond {
        if a.nanosecond < b.nanosecond {
            Ordering::Less
        } else {
            Ordering::Greater
        }
    } else {
        Ordering::Equal
    }
}

/// Compares two numbers of one field.
fn field_order(a: u32, b: u32) -> (order: Ordering)
    ensures
        order == (if a < b {
            Ordering::Less
        } else if a > b {
            Ordering::Greater
        } else {
            Ordering::Equal
        }),
{
    if a < b {
        Ordering::Less
    } else if a > b {
        Ordering::Greater
    } else {
        Ordering::Equal
    }
}

/// Compares two dates and times of one time zone.
pub fn compare_date_times(a: &DateTime, b: &DateTime) -> (order: Ordering)
    ensures
        order == date_time_order(*a, *b),
{
    if a.year != b.year {
        if a.year < b.year {
            Ordering::Less
        } else {
            Ordering::Greater
        }
    } else if a.month != b.month {
        field_order(a.month.into(), b.month.into())
    } else if a.day != b.day {
        field_order(a.day.into(), b.day.into())
    } else if a.hour != b.hour {
        field_order(a.hour.into(), b.hour.into())
    } else if a.minute != b.minute {
        field_order(a.minute.into(), b.minute.into())
    } else if a.second != b.second {
        field_order(a.second.into(), b.second.into())
    } else {
        field_order(a.nanosecond, b.nanosecond)
    }
}

impl PartialOrd for Timestamp {
    /// Compares two timestamps in time, to the nanosecond.
    fn partial_cmp(&self, other: &Timestamp) -> (order: Option<Ordering>) {
        Some(compare_date_times(&self.utc(), &other.utc()))
    }
}

impl PartialOrdSpecImpl for Timestamp {
    open spec fn obeys_partial_cmp_spec() -> bool {
        true
    }

    open spec fn partial_cmp_spec(&self, other: &Timestamp) -> Option<Ordering> {
        Some(date_time_order(self@, other@))
    }
}

/// Two dates and times are equal in the order exactly when they are the
/// same to the nanosecond, and one is earlier exactly when the other is
/// later.
pub proof fn lemma_order_is_strict(a: DateTime, b: DateTime)
    ensures
        date_time_order(a, b) == Ordering::Equal <==> a == b,
        date_time_order(a, b) == Ordering::Less <==> date_time_order(b, a) == Ordering::Greater,
{
}

/// What is earlier than something that is earlier than a third is earlier
/// than the third.
pub proof fn lemma_order_is_transitive(a: DateTime, b: DateTime, c: DateTime)
    requires
        date_time_order(a, b) == Ordering::Less,
        date_time_order(b, c) == Ordering::Less,
    ensures
        date_time_order(a, c) == Ordering::Less,
{
}

} // verus!
