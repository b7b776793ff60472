//! The two built-in unary functions: flooring an instant to the start
//! of its calendar day or hour.
//!
//! Flooring works on the instant's local timeline: the moment shifted
//! by its own UTC offset is rounded down to a multiple of the span, and
//! the difference is taken off the moment itself.

use vstd::prelude::*;
use crate::duration::{DAY_NS, HOUR_NS, SECOND_NS};
use crate::eval::State;
use crate::time::Instant;

verus! {

/// The instant floored so that its local reading starts a span:
/// `None` when the local timeline or the result leaves `i64`
/// nanoseconds.
pub open spec fn spec_floor_to_span(i: Instant, span: int) -> Option<Instant> {
    let local = i.epoch_nanos + i.offset_secs * (SECOND_NS as int);
    if i64::MIN <= local <= i64::MAX {
        let delta = local % span;
        if i64::MIN <= i.epoch_nanos - delta <= i64::MAX {
            Some(Instant { epoch_nanos: (i.epoch_nanos - delta) as i64, offset_secs: i.offset_secs })
        } else {
            None
        }
    } else {
        None
    }
}

/// `full_day` floors a date-time state to the start of its day.
pub open spec fn spec_full_day(arg: State) -> Option<State> {
    match arg {
        State::DateTime(i) => match spec_floor_to_span(i, DAY_NS as int) {
            Some(f) => Some(State::DateTime(f)),
            None => None,
        },
        _ => None,
    }
}

/// `full_hour` floors a date-time state to the start of its hour.
pub open spec fn spec_full_hour(arg: State) -> Option<State> {
    match arg {
        State::DateTime(i) => match spec_floor_to_span(i, HOUR_NS as int) {
            Some(f) => Some(State::DateTime(f)),
            None => None,
        },
        _ => None,
    }
}

/// How far past the last span boundary the local reading of the
/// instant lies.
fn local_span_offset(i: &Instant, span: i64) -> (r: Option<i64>)
    requires
        span == DAY_NS || span == HOUR_NS,
    ensures
        ({
            let local = i.epoch_nanos + i.offset_secs * (SECOND_NS as int);
            match r {
                Some(d) => i64::MIN <= local <= i64::MAX && d == local % (span as int),
                None => !(i64::MIN <= local <= i64::MAX),
            }
        }),
{
    let shift: i64 = (i.offset_secs as i64) * SECOND_NS;
    let local = match i.epoch_nanos.checked_add(shift) {
        Some(l) => l,
        None => {
            return None;
        },
    };
    let span_u = span as u64;
    let ghost span_i = span as int;
    if local >= 0 {
        let m = (local as u64) % span_u;
        proof {
            assert(local as int % span_i == m);
        }
        Some(m as i64)
    } else {
        // local is negative: derive the Euclidean remainder from the
        // remainder of the magnitude
        let mag: u64 = ((-(local + 1)) as u64) + 1;
        let m = mag % span_u;
        let d: u64 = if m == 0 {
            0
        } else {
            span_u - m
        };
        proof {
            let lm = mag as int;
            let sm = span_i;
            vstd::arithmetic::div_mod::lemma_fundamental_div_mod(lm, sm);
            let q = lm / sm;
            let rr = lm % sm;
            vstd::arithmetic::div_mod::lemma_mod_bound(lm, sm);
            assert(local as int == -lm);
            assert(-lm == (-q - 1) * sm + (sm - rr)) by (nonlinear_arith)
                requires
                    lm == q * sm + rr,
            ;
            vstd::arithmetic::div_mod::lemma_mod_multiples_vanish(-q - 1, sm - rr, sm);
            if rr == 0 {
                assert((sm - rr) % sm == 0) by {
                    vstd::arithmetic::div_mod::lemma_mod_self_0(sm);
                }
            } else {
                assert((sm - rr) % sm == sm - rr) by {
                    vstd::arithmetic::div_mod::lemma_small_mod((sm - rr) as nat, sm as nat);
                }
            }
            assert(local as int % span_i == d);
        }
        Some(d as i64)
    }
}

/// Floors the instant to the start of a span on its local timeline.
fn floor_to_span(i: &Instant, span: i64) -> (r: Option<Instant>)
    requires
        span == DAY_NS || span == HOUR_NS,
    ensures
        r == spec_floor_to_span(*i, span as int),
{
    match local_span_offset(i, span) {
        None => None,
        Some(delta) => {
            match i.epoch_nanos.checked_sub(delta) {
                Some(n) => Some(Instant { epoch_nanos: n, offset_secs: i.offset_secs }),
                None => None,
            }
        },
    }
}

/// Floors a date-time state to the start of its calendar day; any
/// other state is an error.
pub fn full_day(arg1: &State) -> (r: Result<State, String>)
    ensures
        match spec_full_day(*arg1) {
            Some(s) => r == Ok::<State, String>(s),
            None => r is Err,
        },
{
    let datetime = if let State::DateTime(datetime) = arg1 {
        datetime
    } else {
        return Err(String::from_str("the first argument to full_day should be datetime"));
    };
    match floor_to_span(datetime, DAY_NS) {
        Some(f) => Ok(State::DateTime(f)),
        None => Err(String::from_str("datetime out of range for full_day")),
    }
}

/// Floors a date-time state to the start of its hour; any other state
/// is an error.
pub fn full_hour(arg1: &State) -> (r: Result<State, String>)
    ensures
        match spec_full_hour(*arg1) {
            Some(s) => r == Ok::<State, String>(s),
            None => r is Err,
        },
{
    let datetime = if let State::DateTime(datetime) = arg1 {
        datetime
    } else {
        return Err(String::from_str("the first argument to full_hour should be datetime"));
    };
    match floor_to_span(datetime, HOUR_NS) {
        Some(f) => Ok(State::DateTime(f)),
        None => Err(String::from_str("datetime out of range for full_hour")),
    }
}

} // verus!
