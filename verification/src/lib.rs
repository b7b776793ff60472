//! A small calculator for date-times and durations.
//!
//! The crate parses a textual expression language that mixes absolute
//! instants (RFC 3339 date-times or epoch timestamps), signed durations
//! (`1d2h3m`), the `now` literal, the unary functions `full_day` and
//! `full_hour`, and parenthesized sub-expressions, and evaluates the
//! resulting syntax tree — given an externally supplied current moment —
//! to either an absolute instant or a duration.

pub mod ast;
pub mod builtin_funcs;
pub mod cursor;
pub mod duration;
pub mod eval;
pub mod laws;
pub mod matchers;
pub mod parsers;
pub mod rfc3339;
pub mod text;
pub mod time;

pub use cursor::{InputPointer, Match};
pub use eval::{evaluate, EvaluationResult};
pub use parsers::parse_expr;

pub use time::{Instant, TimeDelta};
