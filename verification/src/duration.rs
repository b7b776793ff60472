//! The short textual format for durations (`"1d2h3m4s5ms6us7ns"`).
//!
//! A duration string is an optional `-` followed by at most one group per
//! unit, in the fixed order `d h m s ms us ns`; each group is a run of
//! decimal digits followed by the unit's letters.  Missing groups
//! contribute zero.  Parsing demands that the whole input is consumed;
//! matching (for the expression grammar) takes the longest prefix of this
//! shape.

use vstd::prelude::*;
use vstd::arithmetic::mul::*;
use crate::time::TimeDelta;

verus! {

pub const NS: i64 = 1;

pub const US_NS: i64 = 1000 * NS;

pub const MS_NS: i64 = 1000 * US_NS;

pub const SECOND_NS: i64 = 1000 * MS_NS;

pub const MINUTE_NS: i64 = 60 * SECOND_NS;

pub const HOUR_NS: i64 = 60 * MINUTE_NS;

pub const DAY_NS: i64 = 24 * HOUR_NS;

pub open spec fn is_digit_char(c: char) -> bool {
    '0' <= c && c <= '9'
}

pub open spec fn digit_char(d: int) -> char {
    (('0' as int) + d) as char
}

pub open spec fn digit_char_value(c: char) -> int {
    (c as int) - ('0' as int)
}

/// First position at or after `pos` that does not hold a decimal digit.
pub open spec fn digit_run_end(s: Seq<char>, pos: int) -> int
    decreases s.len() - pos,
{
    if pos < 0 || pos >= s.len() {
        pos
    } else if is_digit_char(s[pos]) {
        digit_run_end(s, pos + 1)
    } else {
        pos
    }
}

/// Numeric value of a sequence of decimal digits, most significant first.
pub open spec fn digits_value(s: Seq<char>) -> int
    decreases s.len(),
{
    if s.len() == 0 {
        0
    } else {
        digits_value(s.drop_last()) * 10 + digit_char_value(s.last())
    }
}

/// Decimal text of a non-negative number, most significant digit first.
pub open spec fn digits_text(n: int) -> Seq<char>
    decreases n,
{
    if n < 10 {
        seq![digit_char(if n < 0 { 0 } else { n })]
    } else {
        digits_text(n / 10) + seq![digit_char(n % 10)]
    }
}

/// The seven units of the short format, in the order they may appear.
/// `0` is days, `1` hours, `2` minutes, `3` seconds, `4` milliseconds,
/// `5` microseconds, `6` nanoseconds.
pub open spec fn unit_suffix(u: int) -> Seq<char> {
    if u == 0 {
        seq!['d']
    } else if u == 1 {
        seq!['h']
    } else if u == 2 {
        seq!['m']
    } else if u == 3 {
        seq!['s']
    } else if u == 4 {
        seq!['m', 's']
    } else if u == 5 {
        seq!['u', 's']
    } else {
        seq!['n', 's']
    }
}

pub open spec fn unit_nanos(u: int) -> int {
    if u == 0 {
        DAY_NS as int
    } else if u == 1 {
        HOUR_NS as int
    } else if u == 2 {
        MINUTE_NS as int
    } else if u == 3 {
        SECOND_NS as int
    } else if u == 4 {
        MS_NS as int
    } else if u == 5 {
        US_NS as int
    } else {
        NS as int
    }
}

/// Which unit's suffix stands at position `e`, or `-1` for none.  The
/// two-letter units win over the one-letter ones, so a digit run
/// followed by `ms` is milliseconds and never minutes-then-garbage;
/// this is what lets every formatted duration parse back.
pub open spec fn unit_at(s: Seq<char>, e: int) -> int {
    if 0 <= e < s.len() {
        if s[e] == 'm' && e + 1 < s.len() && s[e + 1] == 's' {
            4
        } else if s[e] == 'u' {
            if e + 1 < s.len() && s[e + 1] == 's' {
                5
            } else {
                -1
            }
        } else if s[e] == 'n' {
            if e + 1 < s.len() && s[e + 1] == 's' {
                6
            } else {
                -1
            }
        } else if s[e] == 'd' {
            0
        } else if s[e] == 'h' {
            1
        } else if s[e] == 'm' {
            2
        } else if s[e] == 's' {
            3
        } else {
            -1
        }
    } else {
        -1
    }
}

/// Greedy match of the unit groups `u..7` starting at `pos`: returns the
/// position after the last matched group and the total nanoseconds of
/// the groups matched (unsigned).
pub open spec fn dur_groups(s: Seq<char>, pos: int, u: int) -> (int, int)
    decreases 7 - u,
{
    if u < 0 || u >= 7 || pos < 0 || pos > s.len() {
        (pos, 0)
    } else {
        let e = digit_run_end(s, pos);
        if e > pos && e <= s.len() && unit_at(s, e) == u {
            let v = digits_value(s.subrange(pos, e));
            let after = e + unit_suffix(u).len();
            let rest = dur_groups(s, after, u + 1);
            (rest.0, v * unit_nanos(u) + rest.1)
        } else {
            dur_groups(s, pos, u + 1)
        }
    }
}

/// End of the longest duration-shaped prefix starting at `pos` (an
/// optional `-`, then the groups).  Equal to `pos` when nothing of the
/// shape is there; a lone `-` counts as a (zero-valued) match.
pub open spec fn duration_match_end(s: Seq<char>, pos: int) -> int {
    if pos < s.len() && s[pos] == '-' {
        dur_groups(s, pos + 1, 0).0
    } else {
        dur_groups(s, pos, 0).0
    }
}

/// Signed nanosecond value of the duration-shaped prefix at `pos`.
pub open spec fn duration_match_value(s: Seq<char>, pos: int) -> int {
    if pos < s.len() && s[pos] == '-' {
        -dur_groups(s, pos + 1, 0).1
    } else {
        dur_groups(s, pos, 0).1
    }
}

/// What parsing a whole string as a duration yields: the signed value,
/// provided the shape covers the entire string and the value fits in an
/// `i64`; `None` otherwise.
pub open spec fn short_format_value(s: Seq<char>) -> Option<int> {
    let end = duration_match_end(s, 0);
    if end == s.len() {
        let v = duration_match_value(s, 0);
        if i64::MIN <= v <= i64::MAX {
            Some(v)
        } else {
            None
        }
    } else {
        None
    }
}

/// Remainder of the magnitude after the units before `u` took their
/// share: `rem_val(mag, 0)` is `mag` itself, and each unit removes the
/// multiples it displays.
pub open spec fn rem_val(mag: int, u: int) -> int
    decreases u,
{
    if u <= 0 {
        mag
    } else {
        rem_val(mag, u - 1) % unit_nanos(u - 1)
    }
}

/// How many of unit `u` the canonical decomposition of `mag` shows.
pub open spec fn comp_val(mag: int, u: int) -> int {
    rem_val(mag, u) / unit_nanos(u)
}

/// Text of one component: nothing when the count is zero, else the
/// digits followed by the unit letters.
pub open spec fn component_text(v: int, u: int) -> Seq<char> {
    if v == 0 {
        Seq::empty()
    } else {
        digits_text(v) + unit_suffix(u)
    }
}

/// Concatenated components for the units `u..7` of magnitude `mag`.
pub open spec fn body_text(mag: int, u: int) -> Seq<char>
    decreases 7 - u,
{
    if u < 0 || u >= 7 {
        Seq::empty()
    } else {
        component_text(comp_val(mag, u), u) + body_text(mag, u + 1)
    }
}

/// The short format of a signed nanosecond count: `-` for negative
/// values, the non-zero components in descending unit order, and `0s`
/// when every component is zero.
pub open spec fn short_format_text(nanos: int) -> Seq<char> {
    let mag = if nanos < 0 { -nanos } else { nanos };
    let body = body_text(mag, 0);
    let full = if body.len() == 0 { seq!['0', 's'] } else { body };
    if nanos < 0 {
        seq!['-'] + full
    } else {
        full
    }
}

pub proof fn lemma_digit_run_bounds(s: Seq<char>, pos: int)
    requires
        0 <= pos <= s.len(),
    ensures
        pos <= digit_run_end(s, pos) <= s.len(),
        forall|i: int| pos <= i < digit_run_end(s, pos) ==> is_digit_char(s[i]),
        digit_run_end(s, pos) < s.len() ==> !is_digit_char(s[digit_run_end(s, pos)]),
    decreases s.len() - pos,
{
    if pos < s.len() && is_digit_char(s[pos]) {
        lemma_digit_run_bounds(s, pos + 1);
    }
}

pub proof fn lemma_digits_value_nonneg(s: Seq<char>)
    requires
        forall|i: int| 0 <= i < s.len() ==> is_digit_char(s[i]),
    ensures
        digits_value(s) >= 0,
    decreases s.len(),
{
    if s.len() > 0 {
        assert(forall|i: int| 0 <= i < s.drop_last().len() ==> is_digit_char(
            s.drop_last()[i],
        ));
        lemma_digits_value_nonneg(s.drop_last());
    }
}

pub proof fn lemma_digits_value_prefix(s: Seq<char>, j: int)
    requires
        forall|i: int| 0 <= i < s.len() ==> is_digit_char(s[i]),
        0 <= j <= s.len(),
    ensures
        digits_value(s.subrange(0, j)) <= digits_value(s),
    decreases s.len(),
{
    if j < s.len() {
        let t = s.drop_last();
        assert(forall|i: int| 0 <= i < t.len() ==> is_digit_char(t[i]));
        lemma_digits_value_prefix(t, j);
        assert(t.subrange(0, j) =~= s.subrange(0, j));
        lemma_digits_value_nonneg(t);
    } else {
        assert(s.subrange(0, j) =~= s);
    }
}

pub proof fn lemma_dur_groups_bounds(s: Seq<char>, pos: int, u: int)
    requires
        0 <= pos <= s.len(),
    ensures
        pos <= dur_groups(s, pos, u).0 <= s.len(),
        dur_groups(s, pos, u).1 >= 0,
    decreases 7 - u,
{
    if 0 <= u < 7 {
        let e = digit_run_end(s, pos);
        lemma_digit_run_bounds(s, pos);
        if e > pos && e <= s.len() && unit_at(s, e) == u {
            let v = digits_value(s.subrange(pos, e));
            let after = e + unit_suffix(u).len();
            assert(after <= s.len());
            lemma_dur_groups_bounds(s, after, u + 1);
            assert(forall|i: int|
                0 <= i < s.subrange(pos, e).len() ==> is_digit_char(s.subrange(pos, e)[i]));
            lemma_digits_value_nonneg(s.subrange(pos, e));
            lemma_mul_nonnegative(v, unit_nanos(u));
        } else {
            lemma_dur_groups_bounds(s, pos, u + 1);
        }
    }
}

/// Decides whether a decimal digit stands at position `i`.
fn is_digit_at(chars: &Vec<char>, i: usize) -> (r: bool)
    requires
        i < chars@.len(),
    ensures
        r == is_digit_char(chars@[i as int]),
{
    let c = chars[i];
    '0' <= c && c <= '9'
}

/// First position at or after `pos` without a decimal digit.
pub(crate) fn digits_end(chars: &Vec<char>, pos: usize) -> (r: usize)
    requires
        pos <= chars@.len(),
    ensures
        r == digit_run_end(chars@, pos as int),
        pos <= r <= chars@.len(),
    decreases chars@.len() - pos,
{
    let n = chars.len();
    let mut e = pos;
    while e < n && '0' <= chars[e] && chars[e] <= '9'
        invariant
            pos <= e <= n,
            n == chars@.len(),
            digit_run_end(chars@, pos as int) == digit_run_end(chars@, e as int),
        decreases n - e,
    {
        e = e + 1;
    }
    e
}

/// The numeric value of the digit run `[from, to)`, or `None` when it
/// does not fit in a `u64`.
pub(crate) fn digits_to_u64(chars: &Vec<char>, from: usize, to: usize) -> (r: Option<u64>)
    requires
        from <= to <= chars@.len(),
        forall|i: int| from <= i < to ==> is_digit_char(chars@[i]),
    ensures
        ({
            let v = digits_value(chars@.subrange(from as int, to as int));
            match r {
                Some(m) => m == v,
                None => v > u64::MAX,
            }
        }),
{
    let ghost whole = chars@.subrange(from as int, to as int);
    proof {
        assert(forall|i: int| 0 <= i < whole.len() ==> is_digit_char(whole[i]));
    }
    let mut acc: u64 = 0;
    let mut i = from;
    while i < to
        invariant
            from <= i <= to <= chars@.len(),
            forall|j: int| from <= j < to ==> is_digit_char(chars@[j]),
            whole == chars@.subrange(from as int, to as int),
            acc == digits_value(chars@.subrange(from as int, i as int)),
        decreases to - i,
    {
        let c = chars[i];
        let d: u64 = (c as u64) - ('0' as u64);
        let ghost prefix_next = chars@.subrange(from as int, i + 1);
        proof {
            assert(prefix_next.drop_last() =~= chars@.subrange(from as int, i as int));
            assert(prefix_next.last() == chars@[i as int]);
        }
        let step = match acc.checked_mul(10) {
            Some(p) => p.checked_add(d),
            None => None,
        };
        match step {
            Some(next) => {
                acc = next;
                i = i + 1;
            },
            None => {
                proof {
                    assert(digits_value(prefix_next) > u64::MAX);
                    lemma_digits_value_prefix(whole, i + 1 - from);
                    assert(whole.subrange(0, i + 1 - from) =~= prefix_next);
                }
                return None;
            },
        }
    }
    proof {
        assert(chars@.subrange(from as int, i as int) =~= whole);
    }
    Some(acc)
}

/// The unit whose suffix stands at `e`, if any.
fn unit_index_at(chars: &Vec<char>, e: usize) -> (r: Option<u8>)
    requires
        e <= chars@.len(),
    ensures
        match r {
            Some(u) => unit_at(chars@, e as int) == u as int && u < 7,
            None => unit_at(chars@, e as int) == -1,
        },
{
    let n = chars.len();
    if e >= n {
        return None;
    }
    let c = chars[e];
    if c == 'm' && e + 1 < n && chars[e + 1] == 's' {
        Some(4)
    } else if c == 'u' {
        if e + 1 < n && chars[e + 1] == 's' {
            Some(5)
        } else {
            None
        }
    } else if c == 'n' {
        if e + 1 < n && chars[e + 1] == 's' {
            Some(6)
        } else {
            None
        }
    } else if c == 'd' {
        Some(0)
    } else if c == 'h' {
        Some(1)
    } else if c == 'm' {
        Some(2)
    } else if c == 's' {
        Some(3)
    } else {
        None
    }
}

fn unit_suffix_chars(u: u8) -> (r: usize)
    requires
        u < 7,
    ensures
        r == unit_suffix(u as int).len(),
{
    if u < 4 {
        1
    } else {
        2
    }
}

fn unit_nanos_u64(u: u8) -> (r: u64)
    requires
        u < 7,
    ensures
        r == unit_nanos(u as int),
{
    if u == 0 {
        DAY_NS as u64
    } else if u == 1 {
        HOUR_NS as u64
    } else if u == 2 {
        MINUTE_NS as u64
    } else if u == 3 {
        SECOND_NS as u64
    } else if u == 4 {
        MS_NS as u64
    } else if u == 5 {
        US_NS as u64
    } else {
        NS as u64
    }
}

/// Matches the unit groups `u..7` at `pos`; returns the end of the
/// match and the unsigned total, `None` when the total exceeds `u64`.
fn scan_groups(chars: &Vec<char>, pos: usize, u: u8) -> (r: (usize, Option<u64>))
    requires
        pos <= chars@.len(),
        u <= 7,
    ensures
        ({
            let g = dur_groups(chars@, pos as int, u as int);
            &&& r.0 == g.0
            &&& pos <= r.0 <= chars@.len()
            &&& match r.1 {
                Some(m) => m == g.1,
                None => g.1 > u64::MAX,
            }
        }),
    decreases 7 - u,
{
    if u >= 7 {
        return (pos, Some(0));
    }
    let e = digits_end(chars, pos);
    proof {
        lemma_digit_run_bounds(chars@, pos as int);
    }
    if e > pos {
        if let Some(uu) = unit_index_at(chars, e) {
            if uu == u {
                let ghost sub = chars@.subrange(pos as int, e as int);
                proof {
                    assert(forall|i: int| 0 <= i < sub.len() ==> is_digit_char(sub[i]));
                    lemma_digits_value_nonneg(sub);
                }
                let v_opt = digits_to_u64(chars, pos, e);
                proof {
                    if u < 4 {
                        assert(unit_suffix(u as int).len() == 1);
                        assert(e < chars@.len());
                    } else {
                        assert(unit_suffix(u as int).len() == 2);
                        assert(e + 1 < chars@.len());
                    }
                    assert(e + unit_suffix(u as int).len() <= chars@.len());
                }
                let n = chars.len();
                let after = e + unit_suffix_chars(u);
                proof {
                    assert(after <= n);
                }
                let rest = scan_groups(chars, after, u + 1);
                let ghost v_spec = digits_value(sub);
                let ghost unit = unit_nanos(u as int);
                let ghost g_rest = dur_groups(chars@, after as int, (u + 1) as int);
                proof {
                    lemma_dur_groups_bounds(chars@, after as int, (u + 1) as int);
                    lemma_mul_nonnegative(v_spec, unit);
                }
                let total: Option<u64> = match v_opt {
                    Some(v) => {
                        match v.checked_mul(unit_nanos_u64(u)) {
                            Some(p) => {
                                match rest.1 {
                                    Some(rv) => p.checked_add(rv),
                                    None => None,
                                }
                            },
                            None => {
                                proof {
                                    // the product alone is already too large
                                    assert(v_spec * unit > u64::MAX);
                                }
                                None
                            },
                        }
                    },
                    None => {
                        proof {
                            // the digits alone are already too large
                            assert(v_spec * unit >= v_spec) by (nonlinear_arith)
                                requires
                                    v_spec >= 0,
                                    unit >= 1,
                            ;
                        }
                        None
                    },
                };
                return (rest.0, total);
            }
        }
    }
    scan_groups(chars, pos, u + 1)
}

/// Longest duration-shaped prefix at `pos` and its signed value:
/// `r.0` is the end of the match and `r.1` the value, `None` when the
/// value does not fit in an `i64`.
pub(crate) fn scan_duration(chars: &Vec<char>, pos: usize) -> (r: (usize, Option<i64>))
    requires
        pos <= chars@.len(),
    ensures
        r.0 == duration_match_end(chars@, pos as int),
        pos <= r.0 <= chars@.len(),
        ({
            let v = duration_match_value(chars@, pos as int);
            match r.1 {
                Some(m) => m == v,
                None => !(i64::MIN <= v <= i64::MAX),
            }
        }),
{
    let negative = pos < chars.len() && chars[pos] == '-';
    let start = if negative {
        pos + 1
    } else {
        pos
    };
    let (end, mag) = scan_groups(chars, start, 0);
    proof {
        lemma_dur_groups_bounds(chars@, start as int, 0);
    }
    let value: Option<i64> = match mag {
        Some(m) => {
            if negative {
                if m <= 9_223_372_036_854_775_807u64 {
                    Some(-(m as i64))
                } else if m == 9_223_372_036_854_775_808u64 {
                    Some(i64::MIN)
                } else {
                    None
                }
            } else {
                if m <= 9_223_372_036_854_775_807u64 {
                    Some(m as i64)
                } else {
                    None
                }
            }
        },
        None => None,
    };
    (end, value)
}

impl TimeDelta {
    /// Parses the short duration format; the whole input must be of the
    /// shape and the value must fit in an `i64` count of nanoseconds.
    pub fn from_short_format(s: &str) -> (r: Result<TimeDelta, String>)
        ensures
            match short_format_value(s@) {
                Some(v) => r matches Ok(d) && d.nanos == v,
                None => r is Err,
            },
    {
        let chars = crate::text::str_to_chars(s);
        let (end, value) = scan_duration(&chars, 0);
        if end < chars.len() {
            return Err(String::from_str("did not match entire input"));
        }
        match value {
            Some(v) => Ok(TimeDelta::new(v)),
            None => Err(String::from_str("duration value out of range")),
        }
    }
}

/// Total nanoseconds shown by the components for units `u..7` of `mag`.
pub open spec fn tail_val(mag: int, u: int) -> int
    decreases 7 - u,
{
    if u < 0 || u >= 7 {
        0
    } else {
        comp_val(mag, u) * unit_nanos(u) + tail_val(mag, u + 1)
    }
}

pub proof fn lemma_unit_nanos_positive(u: int)
    ensures
        unit_nanos(u) >= 1,
{
}

pub proof fn lemma_rem_val_nonneg(mag: int, u: int)
    requires
        mag >= 0,
        u >= 0,
    ensures
        rem_val(mag, u) >= 0,
    decreases u,
{
    if u > 0 {
        lemma_rem_val_nonneg(mag, u - 1);
        lemma_unit_nanos_positive(u - 1);
        vstd::arithmetic::div_mod::lemma_mod_bound(rem_val(mag, u - 1), unit_nanos(u - 1));
    }
}

proof fn lemma_tail_val_is_rem(mag: int, u: int)
    requires
        mag >= 0,
        0 <= u <= 7,
    ensures
        tail_val(mag, u) == rem_val(mag, u),
    decreases 7 - u,
{
    lemma_rem_val_nonneg(mag, u);
    if u == 7 {
        lemma_rem_val_nonneg(mag, 6);
        assert(rem_val(mag, 7) == rem_val(mag, 6) % 1);
        assert(rem_val(mag, 6) % 1 == 0) by (nonlinear_arith);
    } else {
        lemma_tail_val_is_rem(mag, u + 1);
        lemma_unit_nanos_positive(u);
        vstd::arithmetic::div_mod::lemma_fundamental_div_mod(rem_val(mag, u), unit_nanos(u));
        lemma_mul_is_commutative(comp_val(mag, u), unit_nanos(u));
    }
}

pub proof fn lemma_digits_text_props(n: int)
    requires
        n >= 0,
    ensures
        digits_text(n).len() >= 1,
        forall|i: int| 0 <= i < digits_text(n).len() ==> is_digit_char(digits_text(n)[i]),
    decreases n,
{
    if n < 10 {
        assert(digit_char(n) as int == '0' as int + n);
        assert(is_digit_char(digit_char(n)));
    } else {
        lemma_digits_text_props(n / 10);
        vstd::arithmetic::div_mod::lemma_mod_bound(n, 10);
        assert(digit_char(n % 10) as int == '0' as int + n % 10);
        assert(is_digit_char(digit_char(n % 10)));
        assert(forall|i: int|
            0 <= i < digits_text(n).len() ==> is_digit_char(#[trigger] digits_text(n)[i]));
    }
}

proof fn lemma_digits_roundtrip(n: int)
    requires
        n >= 0,
    ensures
        digits_value(digits_text(n)) == n,
    decreases n,
{
    if n < 10 {
        let s = digits_text(n);
        assert(s.len() == 1);
        assert(s.drop_last() =~= Seq::<char>::empty());
        assert(digits_value(Seq::<char>::empty()) == 0);
        assert(s.last() == digit_char(n));
        assert(digit_char(n) as int == '0' as int + n);
        assert(digits_value(s) == digit_char_value(digit_char(n)));
    } else {
        lemma_digits_roundtrip(n / 10);
        let s = digits_text(n);
        assert(s.drop_last() =~= digits_text(n / 10));
        vstd::arithmetic::div_mod::lemma_mod_bound(n, 10);
        assert(digit_char(n % 10) as int == '0' as int + n % 10);
        assert(s.last() == digit_char(n % 10));
        vstd::arithmetic::div_mod::lemma_fundamental_div_mod(n, 10);
        assert(digits_value(s) == (n / 10) * 10 + n % 10);
    }
}

proof fn lemma_digit_run_exact(s: Seq<char>, pos: int, k: int)
    requires
        0 <= pos,
        k >= 0,
        pos + k <= s.len(),
        forall|i: int| pos <= i < pos + k ==> is_digit_char(s[i]),
        pos + k == s.len() || !is_digit_char(s[pos + k]),
    ensures
        digit_run_end(s, pos) == pos + k,
    decreases k,
{
    if k > 0 {
        assert(is_digit_char(s[pos]));
        lemma_digit_run_exact(s, pos + 1, k - 1);
    }
}

pub proof fn lemma_body_starts_with_digit(mag: int, u: int)
    requires
        mag >= 0,
        0 <= u <= 7,
    ensures
        body_text(mag, u).len() > 0 ==> is_digit_char(body_text(mag, u)[0]),
    decreases 7 - u,
{
    if u < 7 {
        let v = comp_val(mag, u);
        if v == 0 {
            lemma_body_starts_with_digit(mag, u + 1);
            assert(body_text(mag, u) =~= body_text(mag, u + 1));
        } else {
            lemma_rem_val_nonneg(mag, u);
            lemma_unit_nanos_positive(u);
            vstd::arithmetic::div_mod::lemma_div_pos_is_pos(rem_val(mag, u), unit_nanos(u));
            lemma_digits_text_props(v);
            assert(body_text(mag, u)[0] == digits_text(v)[0]);
        }
    }
}

pub proof fn lemma_body_empty_tail_zero(mag: int, u: int)
    requires
        mag >= 0,
        0 <= u <= 7,
        body_text(mag, u).len() == 0,
    ensures
        tail_val(mag, u) == 0,
    decreases 7 - u,
{
    if u < 7 {
        let v = comp_val(mag, u);
        lemma_rem_val_nonneg(mag, u);
        lemma_unit_nanos_positive(u);
        vstd::arithmetic::div_mod::lemma_div_pos_is_pos(rem_val(mag, u), unit_nanos(u));
        if v != 0 {
            lemma_digits_text_props(v);
            assert(false);
        }
        lemma_body_empty_tail_zero(mag, u + 1);
    }
}

/// Parsing the formatted component text for units `u..7` consumes it
/// entirely and recovers exactly the nanoseconds those components show.
proof fn lemma_groups_parse_body(s: Seq<char>, pos: int, mag: int, u: int)
    requires
        mag >= 0,
        0 <= u <= 7,
        0 <= pos <= s.len(),
        s.subrange(pos, s.len() as int) == body_text(mag, u),
    ensures
        dur_groups(s, pos, u) == (s.len() as int, tail_val(mag, u)),
        pos < s.len() ==> digit_run_end(s, pos) > pos && digit_run_end(s, pos) <= s.len() && u
            <= unit_at(s, digit_run_end(s, pos)) < 7,
    decreases 7 - u,
{
    let len = s.len() as int;
    if u == 7 {
        assert(body_text(mag, 7).len() == 0);
        assert(pos == len);
    } else {
        let v = comp_val(mag, u);
        lemma_rem_val_nonneg(mag, u);
        lemma_unit_nanos_positive(u);
        vstd::arithmetic::div_mod::lemma_div_pos_is_pos(rem_val(mag, u), unit_nanos(u));
        if v == 0 {
            assert(body_text(mag, u) =~= body_text(mag, u + 1));
            lemma_groups_parse_body(s, pos, mag, u + 1);
            if pos < len {
                let e = digit_run_end(s, pos);
                assert(unit_at(s, e) != u);
            }
            assert(v * unit_nanos(u) == 0) by (nonlinear_arith)
                requires
                    v == 0,
            ;
        } else {
            let digits = digits_text(v);
            let suffix = unit_suffix(u);
            let dlen = digits.len() as int;
            let slen = suffix.len() as int;
            lemma_digits_text_props(v);
            lemma_digits_roundtrip(v);
            assert(body_text(mag, u) == (digits + suffix) + body_text(mag, u + 1));
            // positions: digits at [pos, pos+dlen), suffix at [pos+dlen, pos+dlen+slen)
            assert(pos + dlen + slen <= len) by {
                assert(s.subrange(pos, len).len() == body_text(mag, u).len());
            }
            assert forall|i: int| pos <= i < pos + dlen implies s[i] == digits[i - pos] by {
                assert(s[i] == s.subrange(pos, len)[i - pos]);
                assert((digits + suffix)[i - pos] == digits[i - pos]);
            }
            assert(forall|i: int| pos <= i < pos + dlen ==> is_digit_char(s[i]));
            assert forall|j: int| 0 <= j < slen implies s[pos + dlen + j] == suffix[j] by {
                assert(s[pos + dlen + j] == s.subrange(pos, len)[dlen + j]);
                assert((digits + suffix)[dlen + j] == suffix[j]);
            }
            assert(!is_digit_char(suffix[0]));
            lemma_digit_run_exact(s, pos, dlen);
            let e = pos + dlen;
            // The character after the suffix, if any, begins the next
            // component, so it is a digit; the suffix letters therefore
            // pick out exactly unit `u`.
            lemma_body_starts_with_digit(mag, u + 1);
            let after = e + slen;
            assert(s.subrange(after, len) =~= body_text(mag, u + 1)) by {
                assert forall|i: int| after <= i < len implies s[i] == body_text(mag, u + 1)[i
                    - after] by {
                    assert(s[i] == s.subrange(pos, len)[i - pos]);
                    assert(body_text(mag, u)[i - pos] == body_text(mag, u + 1)[i - pos - (dlen
                        + slen)]);
                }
            }
            if after < len {
                assert(s[after] == body_text(mag, u + 1)[0]);
                assert(is_digit_char(s[after]));
            }
            assert(unit_at(s, e) == u);
            lemma_groups_parse_body(s, after, mag, u + 1);
            assert(s.subrange(pos, e) =~= digits);
            assert(digits_value(s.subrange(pos, e)) == v);
            assert(dur_groups(s, pos, u) == (len, v * unit_nanos(u) + tail_val(mag, u + 1)));
        }
    }
}

/// For every `i64` nanosecond count, parsing the short format of the
/// value yields the value back — the codec round-trips, zero and
/// negative durations included.
pub proof fn lemma_short_format_roundtrip(nanos: int)
    requires
        i64::MIN <= nanos <= i64::MAX,
    ensures
        short_format_value(short_format_text(nanos)) == Some(nanos),
{
    let mag: int = if nanos < 0 {
        -nanos
    } else {
        nanos
    };
    let body = body_text(mag, 0);
    lemma_tail_val_is_rem(mag, 0);
    lemma_body_starts_with_digit(mag, 0);
    if body.len() == 0 {
        lemma_body_empty_tail_zero(mag, 0);
        assert(mag == 0);
        assert(nanos == 0);
        let s = short_format_text(0);
        assert(s =~= seq!['0', 's']);
        // evaluate the parse of "0s" by hand
        assert(is_digit_char(s[0]));
        assert(!is_digit_char(s[1]));
        lemma_digit_run_exact(s, 0, 1);
        assert(digit_run_end(s, 0) == 1);
        assert(unit_at(s, 1) == 3);
        assert(s.subrange(0, 1) =~= seq!['0']);
        assert(digits_value(seq!['0']) == 0) by {
            assert(seq!['0'].len() == 1);
            assert(seq!['0'].last() == '0');
            assert(seq!['0'].drop_last() =~= Seq::<char>::empty());
            assert(digits_value(Seq::<char>::empty()) == 0);
        }
        assert(dur_groups(s, 2, 4).0 == 2 && dur_groups(s, 2, 4).1 == 0) by {
            reveal_with_fuel(dur_groups, 5);
        }
        assert(dur_groups(s, 0, 0).0 == 2 && dur_groups(s, 0, 0).1 == 0) by {
            reveal_with_fuel(dur_groups, 5);
        }
        assert(duration_match_end(s, 0) == 2);
        assert(duration_match_value(s, 0) == 0);
    } else {
        let s = short_format_text(nanos);
        if nanos < 0 {
            assert(s =~= seq!['-'] + body);
            assert(s[0] == '-');
            assert(s.subrange(1, s.len() as int) =~= body);
            lemma_groups_parse_body(s, 1, mag, 0);
            assert(duration_match_end(s, 0) == s.len());
            assert(duration_match_value(s, 0) == -mag);
        } else {
            assert(s =~= body);
            assert(is_digit_char(s[0]));
            assert(s[0] != '-');
            assert(s.subrange(0, s.len() as int) =~= body);
            lemma_groups_parse_body(s, 0, mag, 0);
            assert(duration_match_end(s, 0) == s.len());
            assert(duration_match_value(s, 0) == mag);
        }
    }
}

/// Appends the decimal digits of `v`, most significant first.
fn append_u64_digits(out: &mut String, v: u64)
    ensures
        final(out)@ == old(out)@ + digits_text(v as int),
    decreases v,
{
    if v < 10 {
        out.append(crate::text::digit_str(v));
    } else {
        append_u64_digits(out, v / 10);
        let ghost mid = out@;
        out.append(crate::text::digit_str(v % 10));
        proof {
            assert(out@ =~= old(out)@ + digits_text(v as int));
        }
    }
}

/// The letters of one unit, for building the short format.
fn unit_suffix_str(u: u8) -> (r: &'static str)
    requires
        u < 7,
    ensures
        r@ == unit_suffix(u as int),
{
    proof {
        reveal_strlit("d");
        reveal_strlit("h");
        reveal_strlit("m");
        reveal_strlit("s");
        reveal_strlit("ms");
        reveal_strlit("us");
        reveal_strlit("ns");
    }
    let r = if u == 0 {
        "d"
    } else if u == 1 {
        "h"
    } else if u == 2 {
        "m"
    } else if u == 3 {
        "s"
    } else if u == 4 {
        "ms"
    } else if u == 5 {
        "us"
    } else {
        "ns"
    };
    proof {
        assert(r@ =~= unit_suffix(u as int));
    }
    r
}

impl TimeDelta {
    /// Writes the duration in the short format: sign, then every
    /// non-zero component in descending unit order, `0s` when all are
    /// zero.
    pub fn as_short_format(&self) -> (r: String)
        ensures
            r@ == short_format_text(self.nanos as int),
    {
        let nanos = self.nanos;
        let negative = nanos < 0;
        let mag: u64 = if nanos >= 0 {
            nanos as u64
        } else {
            ((-(nanos + 1)) as u64) + 1
        };
        let ghost mag_i: int = if (self.nanos as int) < 0 {
            -(self.nanos as int)
        } else {
            self.nanos as int
        };
        proof {
            assert(mag == mag_i);
        }
        let mut body = String::new();
        let mut rem: u64 = mag;
        let mut u: u8 = 0;
        while u < 7
            invariant
                u <= 7,
                rem == rem_val(mag_i, u as int),
                body@ + body_text(mag_i, u as int) =~= body_text(mag_i, 0),
            decreases 7 - u,
        {
            let unit = unit_nanos_u64(u);
            let c = rem / unit;
            let ghost body_before = body@;
            rem = rem % unit;
            if c != 0 {
                append_u64_digits(&mut body, c);
                body.append(unit_suffix_str(u));
            }
            proof {
                assert(c == comp_val(mag_i, u as int));
                assert(rem == rem_val(mag_i, (u + 1) as int));
                assert(body@ =~= body_before + component_text(comp_val(mag_i, u as int), u as int));
                assert(body@ + body_text(mag_i, (u + 1) as int) =~= body_text(mag_i, 0));
            }
            u = u + 1;
        }
        proof {
            assert(body_text(mag_i, 7) =~= Seq::<char>::empty());
            assert(body@ =~= body_text(mag_i, 0));
        }
        let mut out = String::new();
        if negative {
            proof {
                reveal_strlit("-");
            }
            out.append("-");
        }
        if body.as_str().unicode_len() == 0 {
            proof {
                reveal_strlit("0s");
            }
            out.append("0s");
            proof {
                assert(seq!['0', 's'] =~= "0s"@);
                assert(out@ =~= short_format_text(self.nanos as int));
            }
        } else {
            out.append(body.as_str());
            proof {
                assert(out@ =~= short_format_text(self.nanos as int));
            }
        }
        out
    }
}

/// The duration-shaped prefix of `s`, or `None` when no non-empty
/// prefix has the shape.
pub fn match_duration(s: &str) -> (r: Option<&str>)
    ensures
        ({
            let end = duration_match_end(s@, 0);
            if end > 0 {
                r matches Some(m) && m@ == s@.subrange(0, end)
            } else {
                r is None
            }
        }),
{
    let chars = crate::text::str_to_chars(s);
    let (end, _) = scan_duration(&chars, 0);
    if end > 0 {
        Some(s.substring_char(0, end))
    } else {
        None
    }
}

} // verus!
