//! Plain-value models of a signed duration and of an absolute instant.
//!
//! A `TimeDelta` is a signed number of nanoseconds.  An `Instant` is a
//! number of nanoseconds since the Unix epoch together with the fixed
//! UTC offset (in seconds) that the value was written with; the offset
//! matters only for the calendar-flooring functions, never for equality
//! of the underlying moment.

use vstd::prelude::*;

verus! {

/// A signed span of time with nanosecond precision.
#[derive(Clone, Copy, Debug, PartialEq, Eq, Structural)]
pub struct TimeDelta {
    pub nanos: i64,
}

/// An absolute moment: nanoseconds since the Unix epoch, plus the fixed
/// UTC offset (seconds) the moment was expressed in.
#[derive(Clone, Copy, Debug, PartialEq, Eq, Structural)]
pub struct Instant {
    pub epoch_nanos: i64,
    pub offset_secs: i32,
}

impl TimeDelta {
    pub fn new(nanos: i64) -> (r: TimeDelta)
        ensures
            r.nanos == nanos,
    {
        TimeDelta { nanos }
    }

    /// Sum of two durations, or `None` when it does not fit in an `i64`.
    pub fn checked_add(&self, other: &TimeDelta) -> (r: Option<TimeDelta>)
        ensures
            i64::MIN <= self.nanos + other.nanos <= i64::MAX ==> r == Some(
                TimeDelta { nanos: (self.nanos + other.nanos) as i64 },
            ),
            !(i64::MIN <= self.nanos + other.nanos <= i64::MAX) ==> r is None,
    {
        match self.nanos.checked_add(other.nanos) {
            Some(n) => Some(TimeDelta { nanos: n }),
            None => None,
        }
    }

    /// Difference of two durations, or `None` when it does not fit in an `i64`.
    pub fn checked_sub(&self, other: &TimeDelta) -> (r: Option<TimeDelta>)
        ensures
            i64::MIN <= self.nanos - other.nanos <= i64::MAX ==> r == Some(
                TimeDelta { nanos: (self.nanos - other.nanos) as i64 },
            ),
            !(i64::MIN <= self.nanos - other.nanos <= i64::MAX) ==> r is None,
    {
        match self.nanos.checked_sub(other.nanos) {
            Some(n) => Some(TimeDelta { nanos: n }),
            None => None,
        }
    }
}

impl Instant {
    pub fn new(epoch_nanos: i64, offset_secs: i32) -> (r: Instant)
        ensures
            r.epoch_nanos == epoch_nanos,
            r.offset_secs == offset_secs,
    {
        Instant { epoch_nanos, offset_secs }
    }

    /// The instant shifted forward by a duration; keeps this instant's
    /// offset.  `None` when the shifted moment does not fit in an `i64`.
    pub fn checked_add_delta(&self, delta: &TimeDelta) -> (r: Option<Instant>)
        ensures
            i64::MIN <= self.epoch_nanos + delta.nanos <= i64::MAX ==> r == Some(
                Instant {
                    epoch_nanos: (self.epoch_nanos + delta.nanos) as i64,
                    offset_secs: self.offset_secs,
                },
            ),
            !(i64::MIN <= self.epoch_nanos + delta.nanos <= i64::MAX) ==> r is None,
    {
        match self.epoch_nanos.checked_add(delta.nanos) {
            Some(n) => Some(Instant { epoch_nanos: n, offset_secs: self.offset_secs }),
            None => None,
        }
    }

    /// The instant shifted back by a duration; keeps this instant's
    /// offset.  `None` when the shifted moment does not fit in an `i64`.
    pub fn checked_sub_delta(&self, delta: &TimeDelta) -> (r: Option<Instant>)
        ensures
            i64::MIN <= self.epoch_nanos - delta.nanos <= i64::MAX ==> r == Some(
                Instant {
                    epoch_nanos: (self.epoch_nanos - delta.nanos) as i64,
                    offset_secs: self.offset_secs,
                },
            ),
            !(i64::MIN <= self.epoch_nanos - delta.nanos <= i64::MAX) ==> r is None,
    {
        match self.epoch_nanos.checked_sub(delta.nanos) {
            Some(n) => Some(Instant { epoch_nanos: n, offset_secs: self.offset_secs }),
            None => None,
        }
    }

    /// The duration from `other` to `self`, or `None` when it does not
    /// fit in an `i64`.
    pub fn checked_sub_instant(&self, other: &Instant) -> (r: Option<TimeDelta>)
        ensures
            i64::MIN <= self.epoch_nanos - other.epoch_nanos <= i64::MAX ==> r == Some(
                TimeDelta { nanos: (self.epoch_nanos - other.epoch_nanos) as i64 },
            ),
            !(i64::MIN <= self.epoch_nanos - other.epoch_nanos <= i64::MAX) ==> r is None,
    {
        match self.epoch_nanos.checked_sub(other.epoch_nanos) {
            Some(n) => Some(TimeDelta { nanos: n }),
            None => None,
        }
    }
}

} // verus!
