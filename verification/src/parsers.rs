//! The expression grammar.
//!
//! ```text
//! expr        := ws0 term (ws1 sign ws1 term)* ws0
//! term        := datetime | "now" | signed_duration | timestamp
//!              | func_name "(" expr ")" | "(" ws0 expr ws0 ")"
//! ```
//!
//! Alternation tries its branches in order and, when all fail, reports
//! the failure that advanced furthest (ties keep the earliest); a
//! failing sequence reports the position where the sequence began, so
//! that alternation above it can try siblings cleanly.
//!
//! The spec functions below are the grammar's meaning; each executable
//! parser is proved to return exactly what they describe.  A handful of
//! spec branches guard impossible positions only to bound the
//! recursion; the executable parsers are proved never to reach them.

use vstd::prelude::*;
use crate::ast::{Node, NodeV, Oper, ParseErr, ParseOk, nodes_view};
use crate::cursor::InputPointer;
use crate::duration::{
    digit_run_end, digits_value, duration_match_end, duration_match_value, is_digit_char,
};
use crate::rfc3339::rfc3339_instant;
use crate::time::{Instant, TimeDelta};

verus! {

/// The outcome of matching one grammar rule at a position: how far it
/// consumed and which node it built, or where it stopped and why.
#[verifier::ext_equal]
pub enum SpecOutcome {
    Success { next: int, node: NodeV },
    Failure { at: int, message: Seq<char> },
}

/// Position where the failure stopped, or the success position.
pub open spec fn outcome_pos(o: SpecOutcome) -> int {
    match o {
        SpecOutcome::Success { next, .. } => next,
        SpecOutcome::Failure { at, .. } => at,
    }
}

/// First position at or after `pos` that does not hold a space.
pub open spec fn ws_run_end(s: Seq<char>, pos: int) -> int
    decreases s.len() - pos,
{
    if pos < 0 || pos >= s.len() {
        pos
    } else if s[pos] == ' ' {
        ws_run_end(s, pos + 1)
    } else {
        pos
    }
}

/// The literal `lit` stands at `pos`.
pub open spec fn match_lit(s: Seq<char>, pos: int, lit: Seq<char>) -> bool {
    &&& 0 <= pos
    &&& pos + lit.len() <= s.len()
    &&& s.subrange(pos, pos + lit.len()) == lit
}

/// A maximal run of spaces; succeeds when optional or non-empty.
pub open spec fn spec_whitespace(s: Seq<char>, pos: int, optional: bool) -> SpecOutcome {
    let e = ws_run_end(s, pos);
    if optional || e > pos {
        SpecOutcome::Success { next: e, node: NodeV::Literal(" "@, true) }
    } else {
        SpecOutcome::Failure { at: pos, message: "whitespace not matched"@ }
    }
}

/// The `now` literal.
pub open spec fn spec_now(s: Seq<char>, pos: int) -> SpecOutcome {
    if match_lit(s, pos, "now"@) {
        SpecOutcome::Success { next: pos + "now"@.len(), node: NodeV::Now }
    } else {
        SpecOutcome::Failure { at: pos, message: "expected literal"@ }
    }
}

/// The sign between terms: consumed, never stored in the tree.
pub open spec fn spec_sign(s: Seq<char>, pos: int) -> Option<(int, Oper)> {
    if match_lit(s, pos, "+"@) {
        Some((pos + "+"@.len(), Oper::Plus))
    } else if match_lit(s, pos, "-"@) {
        Some((pos + "-"@.len(), Oper::Minus))
    } else {
        None
    }
}

/// Exactly `k` decimal digits stand at `pos`.
pub open spec fn digits_exact(s: Seq<char>, pos: int, k: int) -> bool {
    &&& 0 <= pos
    &&& pos + k <= s.len()
    &&& forall|i: int| pos <= i < pos + k ==> is_digit_char(s[i])
}

/// The character `c` stands at `pos`.
pub open spec fn char_at_is(s: Seq<char>, pos: int, c: char) -> bool {
    0 <= pos < s.len() && s[pos] == c
}

/// End of an extended ISO-8601 date-time shape at `pos`:
/// `dddd-dd-ddTdd:dd:dd`, an optional `.digits` fraction, and a
/// required `Z` or `±dd:dd` offset.
pub open spec fn rfc3339_shape_end(s: Seq<char>, pos: int) -> Option<int> {
    if digits_exact(s, pos, 4) && char_at_is(s, pos + 4, '-') && digits_exact(s, pos + 5, 2)
        && char_at_is(s, pos + 7, '-') && digits_exact(s, pos + 8, 2) && char_at_is(
        s,
        pos + 10,
        'T',
    ) && digits_exact(s, pos + 11, 2) && char_at_is(s, pos + 13, ':') && digits_exact(
        s,
        pos + 14,
        2,
    ) && char_at_is(s, pos + 16, ':') && digits_exact(s, pos + 17, 2) {
        let base = pos + 19;
        let afrac = if char_at_is(s, base, '.') && digit_run_end(s, base + 1) > base + 1 {
            digit_run_end(s, base + 1)
        } else {
            base
        };
        if char_at_is(s, afrac, 'Z') {
            Some(afrac + 1)
        } else if (char_at_is(s, afrac, '+') || char_at_is(s, afrac, '-')) && digits_exact(
            s,
            afrac + 1,
            2,
        ) && char_at_is(s, afrac + 3, ':') && digits_exact(s, afrac + 4, 2) {
            Some(afrac + 6)
        } else {
            None
        }
    } else {
        None
    }
}

/// A date-time term: the ISO shape, handed to the RFC 3339 reader.
pub open spec fn spec_datetime(s: Seq<char>, pos: int) -> SpecOutcome {
    match rfc3339_shape_end(s, pos) {
        Some(end) => match rfc3339_instant(s.subrange(pos, end)) {
            Some(pair) => SpecOutcome::Success {
                next: end,
                node: NodeV::DateTime(pair.0 as int, pair.1 as int),
            },
            None => SpecOutcome::Failure { at: pos, message: "bad datetime"@ },
        },
        None => SpecOutcome::Failure { at: pos, message: "not a datetime"@ },
    }
}

pub open spec fn pow10(k: int) -> int
    decreases k,
{
    if k <= 0 {
        1
    } else {
        10 * pow10(k - 1)
    }
}

/// Nanoseconds written by a fractional-second digit run, right-padded
/// to nine digits.
pub open spec fn frac_nanos(fs: Seq<char>) -> int {
    if fs.len() <= 9 {
        digits_value(fs) * pow10(9 - fs.len())
    } else {
        digits_value(fs)
    }
}

/// An epoch-seconds term: optional sign, seconds, optional fraction.
/// The moment must fit in an `i64` nanosecond count and the fraction
/// must stay under two seconds' worth of nanoseconds.
pub open spec fn spec_timestamp(s: Seq<char>, pos: int) -> SpecOutcome {
    let neg = char_at_is(s, pos, '-');
    let ds = if neg {
        pos + 1
    } else {
        pos
    };
    let de = digit_run_end(s, ds);
    if de == ds {
        SpecOutcome::Failure { at: pos, message: "not a timestamp"@ }
    } else {
        let fe = if char_at_is(s, de, '.') && digit_run_end(s, de + 1) > de + 1 {
            digit_run_end(s, de + 1)
        } else {
            de
        };
        let secs_mag = digits_value(s.subrange(ds, de));
        let secs = if neg {
            -secs_mag
        } else {
            secs_mag
        };
        let nanos = if fe == de {
            0
        } else {
            frac_nanos(s.subrange(de + 1, fe))
        };
        let total = secs * 1_000_000_000 + nanos;
        if nanos < 2_000_000_000 && i64::MIN <= total <= i64::MAX {
            SpecOutcome::Success { next: fe, node: NodeV::DateTime(total, 0) }
        } else {
            SpecOutcome::Failure { at: pos, message: "bad datetime"@ }
        }
    }
}

/// A signed duration term, by the longest duration-shaped prefix.
pub open spec fn spec_signed_duration(s: Seq<char>, pos: int) -> SpecOutcome {
    let end = duration_match_end(s, pos);
    if end > pos {
        let v = duration_match_value(s, pos);
        if i64::MIN <= v <= i64::MAX {
            SpecOutcome::Success { next: end, node: NodeV::Duration(v) }
        } else {
            SpecOutcome::Failure { at: pos, message: "did not match any duration"@ }
        }
    } else {
        SpecOutcome::Failure { at: pos, message: "did not match any duration"@ }
    }
}

/// Which nodes survive into the tree when a sequence is finalized:
/// skipped literals and empty sub-sequences are dropped.
pub open spec fn keep_node(n: NodeV) -> bool {
    match n {
        NodeV::Literal(_, skip) => !skip,
        NodeV::Expr(children) => children.len() > 0,
        _ => true,
    }
}

/// Drops the insignificant nodes of a finalized sequence.
pub open spec fn filter_nodes_v(nodes: Seq<NodeV>) -> Seq<NodeV>
    decreases nodes.len(),
{
    if nodes.len() == 0 {
        Seq::empty()
    } else {
        let rest = filter_nodes_v(nodes.drop_first());
        if keep_node(nodes[0]) {
            seq![nodes[0]] + rest
        } else {
            rest
        }
    }
}

/// A unary function call: `full_day(expr)` or `full_hour(expr)`.
pub open spec fn spec_func_call(s: Seq<char>, pos: int) -> SpecOutcome
    decreases s.len() - pos, 1int,
{
    if !(0 <= pos <= s.len()) {
        SpecOutcome::Failure { at: pos, message: Seq::empty() }
    } else {
        let name_end = if match_lit(s, pos, "full_day"@) {
            Some((pos + "full_day"@.len(), "full_day"@))
        } else if match_lit(s, pos, "full_hour"@) {
            Some((pos + "full_hour"@.len(), "full_hour"@))
        } else {
            None
        };
        match name_end {
            None => SpecOutcome::Failure { at: pos, message: "expected literal"@ },
            Some((n_end, name)) => {
                if !match_lit(s, n_end, "("@) {
                    SpecOutcome::Failure { at: pos, message: "expected literal"@ }
                } else {
                    let b = n_end + "("@.len();
                    if !(pos < b <= s.len()) {
                        SpecOutcome::Failure { at: pos, message: Seq::empty() }
                    } else {
                        match spec_expr(s, b) {
                            SpecOutcome::Failure { at, message } => SpecOutcome::Failure {
                                at: pos,
                                message,
                            },
                            SpecOutcome::Success { next: e_next, node: e_node } => {
                                if match_lit(s, e_next, ")"@) {
                                    SpecOutcome::Success {
                                        next: e_next + ")"@.len(),
                                        node: NodeV::FuncAry1(name, Box::new(e_node)),
                                    }
                                } else {
                                    SpecOutcome::Failure {
                                        at: pos,
                                        message: "expected literal"@,
                                    }
                                }
                            },
                        }
                    }
                }
            },
        }
    }
}

/// A parenthesized sub-expression: `"(" ws0 expr ws0 ")"`, finalized
/// as a sequence.
pub open spec fn spec_bracket_expr(s: Seq<char>, pos: int) -> SpecOutcome
    decreases s.len() - pos, 1int,
{
    if !(0 <= pos <= s.len()) {
        SpecOutcome::Failure { at: pos, message: Seq::empty() }
    } else if !match_lit(s, pos, "("@) {
        SpecOutcome::Failure { at: pos, message: "expected literal"@ }
    } else {
        let p1 = pos + "("@.len();
        let w1 = ws_run_end(s, p1);
        if !(pos < w1 <= s.len()) {
            SpecOutcome::Failure { at: pos, message: Seq::empty() }
        } else {
            match spec_expr(s, w1) {
                SpecOutcome::Failure { at, message } => SpecOutcome::Failure { at: pos, message },
                SpecOutcome::Success { next: e_next, node: e_node } => {
                    let w2 = ws_run_end(s, e_next);
                    if match_lit(s, w2, ")"@) {
                        SpecOutcome::Success {
                            next: w2 + ")"@.len(),
                            node: NodeV::Expr(
                                filter_nodes_v(
                                    seq![
                                        NodeV::Literal("("@, true),
                                        NodeV::Literal(" "@, true),
                                        e_node,
                                        NodeV::Literal(" "@, true),
                                        NodeV::Literal(")"@, true),
                                    ],
                                ),
                            ),
                        }
                    } else {
                        SpecOutcome::Failure { at: pos, message: "expected literal"@ }
                    }
                },
            }
        }
    }
}

/// One term: the alternatives in their fixed order; when all fail, the
/// failure that advanced furthest wins, ties keeping the earliest.
pub open spec fn spec_term(s: Seq<char>, pos: int) -> SpecOutcome
    decreases s.len() - pos, 2int,
{
    if !(0 <= pos <= s.len()) {
        SpecOutcome::Failure { at: pos, message: Seq::empty() }
    } else {
        let r1 = spec_datetime(s, pos);
        let r2 = spec_now(s, pos);
        let r3 = spec_signed_duration(s, pos);
        let r4 = spec_timestamp(s, pos);
        if r1 is Success {
            r1
        } else if r2 is Success {
            r2
        } else if r3 is Success {
            r3
        } else if r4 is Success {
            r4
        } else {
            let r5 = spec_func_call(s, pos);
            if r5 is Success {
                r5
            } else {
                let r6 = spec_bracket_expr(s, pos);
                if r6 is Success {
                    r6
                } else {
                    let best = outcome_pos(r1);
                    let best = if outcome_pos(r2) > best {
                        outcome_pos(r2)
                    } else {
                        best
                    };
                    let best = if outcome_pos(r3) > best {
                        outcome_pos(r3)
                    } else {
                        best
                    };
                    let best = if outcome_pos(r4) > best {
                        outcome_pos(r4)
                    } else {
                        best
                    };
                    let best = if outcome_pos(r5) > best {
                        outcome_pos(r5)
                    } else {
                        best
                    };
                    let best = if outcome_pos(r6) > best {
                        outcome_pos(r6)
                    } else {
                        best
                    };
                    SpecOutcome::Failure { at: best, message: "none of the parsers matched"@ }
                }
            }
        }
    }
}

/// One `(ws1 sign ws1 term)` element of the tail; fails at the
/// element's start, whatever failed inside.
pub open spec fn spec_oper_term(s: Seq<char>, pos: int) -> SpecOutcome
    decreases s.len() - pos, 1int,
{
    if !(0 <= pos <= s.len()) {
        SpecOutcome::Failure { at: pos, message: Seq::empty() }
    } else {
        match spec_whitespace(s, pos, false) {
            SpecOutcome::Failure { at, message } => SpecOutcome::Failure { at: pos, message },
            SpecOutcome::Success { next: p1, .. } => {
                match spec_sign(s, p1) {
                    None => SpecOutcome::Failure { at: pos, message: "expected literal"@ },
                    Some((p2, oper)) => {
                        match spec_whitespace(s, p2, false) {
                            SpecOutcome::Failure { at, message } => SpecOutcome::Failure {
                                at: pos,
                                message,
                            },
                            SpecOutcome::Success { next: p3, .. } => {
                                if !(pos < p3 <= s.len()) {
                                    SpecOutcome::Failure { at: pos, message: Seq::empty() }
                                } else {
                                    match spec_term(s, p3) {
                                        SpecOutcome::Failure { at, message } => {
                                            SpecOutcome::Failure { at: pos, message }
                                        },
                                        SpecOutcome::Success { next: p4, node } => {
                                            SpecOutcome::Success {
                                                next: p4,
                                                node: NodeV::OperNode(oper, Box::new(node)),
                                            }
                                        },
                                    }
                                }
                            },
                        }
                    },
                }
            },
        }
    }
}

/// Zero or more signed-term elements, wrapped in a sequence node;
/// always succeeds.
pub open spec fn spec_repeated_terms(s: Seq<char>, pos: int) -> SpecOutcome
    decreases s.len() - pos, 2int,
{
    if !(0 <= pos <= s.len()) {
        SpecOutcome::Success { next: pos, node: NodeV::Expr(Seq::empty()) }
    } else {
        match spec_oper_term(s, pos) {
            SpecOutcome::Failure { .. } => SpecOutcome::Success {
                next: pos,
                node: NodeV::Expr(Seq::empty()),
            },
            SpecOutcome::Success { next, node } => {
                if !(pos < next <= s.len()) {
                    SpecOutcome::Success { next: pos, node: NodeV::Expr(Seq::empty()) }
                } else {
                    match spec_repeated_terms(s, next) {
                        SpecOutcome::Success { next: r_next, node: NodeV::Expr(rest) } => {
                            SpecOutcome::Success {
                                next: r_next,
                                node: NodeV::Expr(seq![node] + rest),
                            }
                        },
                        _ => SpecOutcome::Success { next: pos, node: NodeV::Expr(Seq::empty()) },
                    }
                }
            },
        }
    }
}

/// A whole expression: `ws0 term (ws1 sign ws1 term)* ws0`, finalized
/// as a sequence; fails at the expression's start, whatever failed
/// inside.
pub open spec fn spec_expr(s: Seq<char>, pos: int) -> SpecOutcome
    decreases s.len() - pos, 3int,
{
    if !(0 <= pos <= s.len()) {
        SpecOutcome::Failure { at: pos, message: Seq::empty() }
    } else {
        let w1 = ws_run_end(s, pos);
        if !(pos <= w1 <= s.len()) {
            SpecOutcome::Failure { at: pos, message: Seq::empty() }
        } else {
            match spec_term(s, w1) {
                SpecOutcome::Failure { at, message } => SpecOutcome::Failure { at: pos, message },
                SpecOutcome::Success { next: t_next, node: t_node } => {
                    if !(pos < t_next <= s.len()) {
                        SpecOutcome::Failure { at: pos, message: Seq::empty() }
                    } else {
                        match spec_repeated_terms(s, t_next) {
                            SpecOutcome::Failure { at, message } => SpecOutcome::Failure {
                                at: pos,
                                message,
                            },
                            SpecOutcome::Success { next: r_next, node: r_node } => {
                                let w2 = ws_run_end(s, r_next);
                                SpecOutcome::Success {
                                    next: w2,
                                    node: NodeV::Expr(
                                        filter_nodes_v(
                                            seq![
                                                NodeV::Literal(" "@, true),
                                                t_node,
                                                r_node,
                                                NodeV::Literal(" "@, true),
                                            ],
                                        ),
                                    ),
                                }
                            },
                        }
                    }
                }
            }
        }
    }
}

/// What parsing a whole input yields: the expression must consume every
/// character, or the position where matching stopped is reported.
pub open spec fn spec_parse_expr(s: Seq<char>) -> SpecOutcome {
    match spec_expr(s, 0) {
        SpecOutcome::Success { next, node } => {
            if next == s.len() {
                SpecOutcome::Success { next, node }
            } else {
                SpecOutcome::Failure { at: next, message: "not all input matched"@ }
            }
        },
        f => f,
    }
}

/// Law: when an input matches none of a term's alternatives, the
/// reported failure position is the furthest position any alternative
/// reached — never the first attempted — and it is always one of the
/// alternatives' own positions, the earliest such on a tie.
pub proof fn lemma_alternation_furthest_failure(s: Seq<char>, pos: int)
    requires
        0 <= pos <= s.len(),
        spec_term(s, pos) is Failure,
    ensures
        spec_datetime(s, pos) is Failure,
        spec_now(s, pos) is Failure,
        spec_signed_duration(s, pos) is Failure,
        spec_timestamp(s, pos) is Failure,
        spec_func_call(s, pos) is Failure,
        spec_bracket_expr(s, pos) is Failure,
        outcome_pos(spec_term(s, pos)) >= outcome_pos(spec_datetime(s, pos)),
        outcome_pos(spec_term(s, pos)) >= outcome_pos(spec_now(s, pos)),
        outcome_pos(spec_term(s, pos)) >= outcome_pos(spec_signed_duration(s, pos)),
        outcome_pos(spec_term(s, pos)) >= outcome_pos(spec_timestamp(s, pos)),
        outcome_pos(spec_term(s, pos)) >= outcome_pos(spec_func_call(s, pos)),
        outcome_pos(spec_term(s, pos)) >= outcome_pos(spec_bracket_expr(s, pos)),
        outcome_pos(spec_term(s, pos)) == outcome_pos(spec_datetime(s, pos)) || outcome_pos(
            spec_term(s, pos),
        ) == outcome_pos(spec_now(s, pos)) || outcome_pos(spec_term(s, pos)) == outcome_pos(
            spec_signed_duration(s, pos),
        ) || outcome_pos(spec_term(s, pos)) == outcome_pos(spec_timestamp(s, pos)) || outcome_pos(
            spec_term(s, pos),
        ) == outcome_pos(spec_func_call(s, pos)) || outcome_pos(spec_term(s, pos)) == outcome_pos(
            spec_bracket_expr(s, pos),
        ),
{
}

/// Law: a failing sequence reports the position where the sequence
/// began, not the position its inner matcher stopped at, so that
/// alternation above it can try siblings cleanly.  This holds of every
/// sequence form of the grammar: a whole expression, a signed-term
/// element, a function call and a bracketed group.
pub proof fn lemma_sequence_failure_noncommittal(s: Seq<char>, pos: int)
    ensures
        spec_expr(s, pos) is Failure ==> outcome_pos(spec_expr(s, pos)) == pos,
        spec_oper_term(s, pos) is Failure ==> outcome_pos(spec_oper_term(s, pos)) == pos,
        spec_func_call(s, pos) is Failure ==> outcome_pos(spec_func_call(s, pos)) == pos,
        spec_bracket_expr(s, pos) is Failure ==> outcome_pos(spec_bracket_expr(s, pos)) == pos,
{
}

/// How an executable parsing step corresponds to a spec outcome.
pub open spec fn step_matches(r: Result<(usize, Node), (usize, String)>, o: SpecOutcome) -> bool {
    match r {
        Ok(p) => o == (SpecOutcome::Success { next: p.0 as int, node: p.1@ }),
        Err(p) => o == (SpecOutcome::Failure { at: p.0 as int, message: p.1@ }),
    }
}

/// First position at or after `pos` without a space.
fn ws_end_exec(chars: &Vec<char>, pos: usize) -> (r: usize)
    requires
        pos <= chars@.len(),
    ensures
        r == ws_run_end(chars@, pos as int),
        pos <= r <= chars@.len(),
    decreases chars@.len() - pos,
{
    let n = chars.len();
    let mut e = pos;
    while e < n && chars[e] == ' '
        invariant
            pos <= e <= n,
            n == chars@.len(),
            ws_run_end(chars@, pos as int) == ws_run_end(chars@, e as int),
        decreases n - e,
    {
        e = e + 1;
    }
    e
}

/// Whether the literal `lit` stands at `pos`.
fn match_literal_at(chars: &Vec<char>, pos: usize, lit: &str) -> (r: bool)
    requires
        pos <= chars@.len(),
    ensures
        r == match_lit(chars@, pos as int, lit@),
{
    let llen = lit.unicode_len();
    let n = chars.len();
    if llen > n - pos {
        return false;
    }
    let mut i: usize = 0;
    while i < llen
        invariant
            pos + llen <= n,
            n == chars@.len(),
            llen == lit@.len(),
            i <= llen,
            forall|j: int| 0 <= j < i ==> chars@[pos + j] == lit@[j],
        decreases llen - i,
    {
        if chars[pos + i] != lit.get_char(i) {
            proof {
                assert(chars@.subrange(pos as int, pos + llen)[i as int] == chars@[pos + i]);
            }
            return false;
        }
        i = i + 1;
    }
    proof {
        assert(chars@.subrange(pos as int, pos + llen) =~= lit@);
    }
    true
}

/// A maximal run of spaces; an error when required and none is there.
fn parse_whitespace(chars: &Vec<char>, pos: usize, optional: bool) -> (r: Result<
    (usize, Node),
    (usize, String),
>)
    requires
        pos <= chars@.len(),
    ensures
        step_matches(r, spec_whitespace(chars@, pos as int, optional)),
        r matches Ok(p) ==> pos <= p.0 <= chars@.len(),
        !optional ==> (r matches Ok(p) ==> p.0 > pos),
        r matches Err(p) ==> p.0 == pos,
{
    let e = ws_end_exec(chars, pos);
    if optional || e > pos {
        Ok((e, Node::Literal { literal: String::from_str(" "), skip: true }))
    } else {
        Err((pos, String::from_str("whitespace not matched")))
    }
}

/// The `now` literal.
fn parse_now(chars: &Vec<char>, pos: usize) -> (r: Result<(usize, Node), (usize, String)>)
    requires
        pos <= chars@.len(),
    ensures
        step_matches(r, spec_now(chars@, pos as int)),
        r matches Ok(p) ==> pos < p.0 <= chars@.len(),
        r matches Err(p) ==> p.0 == pos,
{
    proof {
        reveal_strlit("now");
    }
    let n = chars.len();
    if match_literal_at(chars, pos, "now") {
        proof {
            assert(pos + 3 <= n);
        }
        Ok((pos + 3, Node::Now))
    } else {
        Err((pos, String::from_str("expected literal")))
    }
}

/// Whether `k` digits stand at `pos`.
fn digits_exact_exec(chars: &Vec<char>, pos: usize, k: usize) -> (r: bool)
    requires
        pos <= chars@.len(),
    ensures
        r == digits_exact(chars@, pos as int, k as int),
{
    let n = chars.len();
    if k > n - pos {
        return false;
    }
    let mut i: usize = 0;
    while i < k
        invariant
            pos + k <= n,
            n == chars@.len(),
            i <= k,
            forall|j: int| pos <= j < pos + i ==> is_digit_char(chars@[j]),
        decreases k - i,
    {
        let c = chars[pos + i];
        if !('0' <= c && c <= '9') {
            return false;
        }
        i = i + 1;
    }
    true
}

/// Whether character `c` stands at `pos`.
fn char_at_is_exec(chars: &Vec<char>, pos: usize, c: char) -> (r: bool)
    ensures
        r == char_at_is(chars@, pos as int, c),
{
    pos < chars.len() && chars[pos] == c
}

/// A date-time term: the ISO shape, then the RFC 3339 reader.
fn parse_datetime(chars: &Vec<char>, pos: usize) -> (r: Result<(usize, Node), (usize, String)>)
    requires
        pos <= chars@.len(),
    ensures
        step_matches(r, spec_datetime(chars@, pos as int)),
        r matches Ok(p) ==> pos < p.0 <= chars@.len(),
        r matches Err(p) ==> p.0 == pos,
{
    let _n = chars.len();
    let shape_head = digits_exact_exec(chars, pos, 4) && char_at_is_exec(chars, pos + 4, '-')
        && digits_exact_exec(chars, pos + 5, 2) && char_at_is_exec(chars, pos + 7, '-')
        && digits_exact_exec(chars, pos + 8, 2) && char_at_is_exec(chars, pos + 10, 'T')
        && digits_exact_exec(chars, pos + 11, 2) && char_at_is_exec(chars, pos + 13, ':')
        && digits_exact_exec(chars, pos + 14, 2) && char_at_is_exec(chars, pos + 16, ':')
        && digits_exact_exec(chars, pos + 17, 2);
    if !shape_head {
        return Err((pos, String::from_str("not a datetime")));
    }
    let base = pos + 19;
    let afrac = if char_at_is_exec(chars, base, '.') {
        let fe = crate::duration::digits_end(chars, base + 1);
        if fe > base + 1 {
            fe
        } else {
            base
        }
    } else {
        base
    };
    let end = if char_at_is_exec(chars, afrac, 'Z') {
        afrac + 1
    } else if (char_at_is_exec(chars, afrac, '+') || char_at_is_exec(chars, afrac, '-'))
        && digits_exact_exec(chars, afrac + 1, 2) && char_at_is_exec(chars, afrac + 3, ':')
        && digits_exact_exec(chars, afrac + 4, 2) {
        afrac + 6
    } else {
        return Err((pos, String::from_str("not a datetime")));
    };
    proof {
        assert(rfc3339_shape_end(chars@, pos as int) == Some(end as int));
    }
    match crate::rfc3339::parse_rfc3339(chars, pos, end) {
        Some(pair) => Ok(
            (end, Node::DateTime(Instant { epoch_nanos: pair.0, offset_secs: pair.1 })),
        ),
        None => Err((pos, String::from_str("bad datetime"))),
    }
}

/// A signed-duration term, by the longest duration-shaped prefix.
fn parse_signed_duration(chars: &Vec<char>, pos: usize) -> (r: Result<
    (usize, Node),
    (usize, String),
>)
    requires
        pos <= chars@.len(),
    ensures
        step_matches(r, spec_signed_duration(chars@, pos as int)),
        r matches Ok(p) ==> pos < p.0 <= chars@.len(),
        r matches Err(p) ==> p.0 == pos,
{
    let (end, val) = crate::duration::scan_duration(chars, pos);
    if end > pos {
        match val {
            Some(v) => Ok((end, Node::Duration(TimeDelta { nanos: v }))),
            None => Err((pos, String::from_str("did not match any duration"))),
        }
    } else {
        Err((pos, String::from_str("did not match any duration")))
    }
}

fn pow10_u64(k: usize) -> (r: u64)
    requires
        k <= 9,
    ensures
        r as int == pow10(k as int),
        r >= 1,
{
    proof {
        assert(pow10(0) == 1);
        assert(pow10(1) == 10);
        assert(pow10(2) == 100);
        assert(pow10(3) == 1000);
        assert(pow10(4) == 10_000);
        assert(pow10(5) == 100_000);
        assert(pow10(6) == 1_000_000);
        assert(pow10(7) == 10_000_000);
        assert(pow10(8) == 100_000_000);
        assert(pow10(9) == 1_000_000_000);
    }
    if k == 0 {
        1
    } else if k == 1 {
        10
    } else if k == 2 {
        100
    } else if k == 3 {
        1000
    } else if k == 4 {
        10_000
    } else if k == 5 {
        100_000
    } else if k == 6 {
        1_000_000
    } else if k == 7 {
        10_000_000
    } else if k == 8 {
        100_000_000
    } else {
        1_000_000_000
    }
}

/// An epoch-seconds term.
fn parse_timestamp(chars: &Vec<char>, pos: usize) -> (r: Result<(usize, Node), (usize, String)>)
    requires
        pos <= chars@.len(),
    ensures
        step_matches(r, spec_timestamp(chars@, pos as int)),
        r matches Ok(p) ==> pos < p.0 <= chars@.len(),
        r matches Err(p) ==> p.0 == pos,
{
    let _n = chars.len();
    let neg = char_at_is_exec(chars, pos, '-');
    let ds = if neg {
        pos + 1
    } else {
        pos
    };
    let de = crate::duration::digits_end(chars, ds);
    if de == ds {
        return Err((pos, String::from_str("not a timestamp")));
    }
    proof {
        crate::duration::lemma_digit_run_bounds(chars@, ds as int);
    }
    let fe = if char_at_is_exec(chars, de, '.') {
        let fe0 = crate::duration::digits_end(chars, de + 1);
        if fe0 > de + 1 {
            fe0
        } else {
            de
        }
    } else {
        de
    };
    proof {
        if fe != de {
            crate::duration::lemma_digit_run_bounds(chars@, (de + 1) as int);
        }
    }
    let ghost secs_mag_spec = digits_value(chars@.subrange(ds as int, de as int));
    let ghost nanos_spec = if fe == de {
        0int
    } else {
        frac_nanos(chars@.subrange((de + 1) as int, fe as int))
    };
    proof {
        assert(forall|i: int| ds <= i < de ==> is_digit_char(chars@[i]));
        crate::duration::lemma_digits_value_nonneg(chars@.subrange(ds as int, de as int));
    }
    let secs_opt = crate::duration::digits_to_u64(chars, ds, de);
    let nanos_opt: Option<u64> = if fe == de {
        Some(0)
    } else {
        let flen = fe - (de + 1);
        let ghost frac = chars@.subrange((de + 1) as int, fe as int);
        proof {
            assert(forall|i: int| de + 1 <= i < fe ==> is_digit_char(chars@[i]));
            assert(forall|i: int| 0 <= i < frac.len() ==> is_digit_char(frac[i]));
            crate::duration::lemma_digits_value_nonneg(frac);
        }
        match crate::duration::digits_to_u64(chars, de + 1, fe) {
            Some(v) => {
                if flen <= 9 {
                    let mult = pow10_u64(9 - flen);
                    let stepped = v.checked_mul(mult);
                    proof {
                        if stepped is None {
                            assert(nanos_spec > u64::MAX);
                        }
                    }
                    stepped
                } else {
                    Some(v)
                }
            },
            None => {
                proof {
                    let dv = digits_value(frac);
                    if frac.len() <= 9 {
                        let p = pow10(9 - frac.len());
                        assert(pow10(9 - frac.len()) >= 1) by {
                            assert(pow10(0) == 1);
                            assert(pow10(1) == 10);
                            assert(pow10(2) == 100);
                            assert(pow10(3) == 1000);
                            assert(pow10(4) == 10_000);
                            assert(pow10(5) == 100_000);
                            assert(pow10(6) == 1_000_000);
                            assert(pow10(7) == 10_000_000);
                            assert(pow10(8) == 100_000_000);
                            assert(pow10(9) == 1_000_000_000);
                        }
                        assert(dv * p >= dv) by (nonlinear_arith)
                            requires
                                dv >= 0,
                                p >= 1,
                        ;
                    }
                    assert(nanos_spec > u64::MAX);
                }
                None
            },
        }
    };
    match secs_opt {
        Some(mag) => {
            match nanos_opt {
                Some(nv) => {
                    if nv >= 2_000_000_000 {
                        return Err((pos, String::from_str("bad datetime")));
                    }
                    if mag > 10_000_000_000 {
                        return Err((pos, String::from_str("bad datetime")));
                    }
                    let prod: u64 = mag * 1_000_000_000;
                    if neg {
                        if prod >= nv {
                            let m = prod - nv;
                            if m <= 9_223_372_036_854_775_807u64 {
                                Ok(
                                    (
                                        fe,
                                        Node::DateTime(
                                            Instant { epoch_nanos: -(m as i64), offset_secs: 0 },
                                        ),
                                    ),
                                )
                            } else if m == 9_223_372_036_854_775_808u64 {
                                Ok(
                                    (
                                        fe,
                                        Node::DateTime(
                                            Instant { epoch_nanos: i64::MIN, offset_secs: 0 },
                                        ),
                                    ),
                                )
                            } else {
                                Err((pos, String::from_str("bad datetime")))
                            }
                        } else {
                            let t = nv - prod;
                            Ok((fe, Node::DateTime(Instant { epoch_nanos: t as i64, offset_secs: 0 })))
                        }
                    } else {
                        let t = prod + nv;
                        if t <= 9_223_372_036_854_775_807u64 {
                            Ok((fe, Node::DateTime(Instant { epoch_nanos: t as i64, offset_secs: 0 })))
                        } else {
                            Err((pos, String::from_str("bad datetime")))
                        }
                    }
                },
                None => {
                    // the fraction alone is too large to be a valid count
                    // of nanoseconds
                    Err((pos, String::from_str("bad datetime")))
                },
            }
        },
        None => {
            // the seconds are already beyond any moment an i64 count of
            // nanoseconds can hold
            proof {
                let total = (if neg {
                    -secs_mag_spec
                } else {
                    secs_mag_spec
                }) * 1_000_000_000 + nanos_spec;
                assert(secs_mag_spec > u64::MAX);
                if nanos_spec < 2_000_000_000 {
                    assert(!(i64::MIN <= total <= i64::MAX));
                }
            }
            Err((pos, String::from_str("bad datetime")))
        },
    }
}

/// Tests whether a node survives sequence finalization.
fn keep_node_exec(n: &Node) -> (r: bool)
    ensures
        r == keep_node(n@),
{
    match n {
        Node::Literal { literal: _, skip } => !*skip,
        Node::Expr(children) => {
            proof {
                crate::ast::lemma_nodes_view_index(children@);
            }
            children.len() > 0
        },
        _ => true,
    }
}

/// The kept elements among four finalized nodes.
pub open spec fn keep1(x: NodeV) -> Seq<NodeV> {
    if keep_node(x) {
        seq![x]
    } else {
        Seq::empty()
    }
}

pub proof fn lemma_filter4(a: NodeV, b: NodeV, c: NodeV, d: NodeV)
    ensures
        filter_nodes_v(seq![a, b, c, d]) == keep1(a) + keep1(b) + keep1(c) + keep1(d),
{
    reveal_with_fuel(filter_nodes_v, 6);
    let s = seq![a, b, c, d];
    assert(s.drop_first() =~= seq![b, c, d]);
    assert(seq![b, c, d].drop_first() =~= seq![c, d]);
    assert(seq![c, d].drop_first() =~= seq![d]);
    assert(seq![d].drop_first() =~= Seq::<NodeV>::empty());
    assert(filter_nodes_v(s) =~= keep1(a) + keep1(b) + keep1(c) + keep1(d));
}

pub proof fn lemma_filter5(a: NodeV, b: NodeV, c: NodeV, d: NodeV, e: NodeV)
    ensures
        filter_nodes_v(seq![a, b, c, d, e]) == keep1(a) + keep1(b) + keep1(c) + keep1(d) + keep1(
            e,
        ),
{
    reveal_with_fuel(filter_nodes_v, 7);
    let s = seq![a, b, c, d, e];
    assert(s.drop_first() =~= seq![b, c, d, e]);
    lemma_filter4(b, c, d, e);
    assert(filter_nodes_v(s) =~= keep1(a) + (keep1(b) + keep1(c) + keep1(d) + keep1(e)));
    assert(keep1(a) + (keep1(b) + keep1(c) + keep1(d) + keep1(e)) =~= keep1(a) + keep1(b) + keep1(
        c,
    ) + keep1(d) + keep1(e));
}

/// A unary function call term: `full_day(expr)` or `full_hour(expr)`.
fn parse_func_call(chars: &Vec<char>, pos: usize) -> (r: Result<(usize, Node), (usize, String)>)
    requires
        pos <= chars@.len(),
    ensures
        step_matches(r, spec_func_call(chars@, pos as int)),
        r matches Ok(p) ==> pos < p.0 <= chars@.len(),
        r matches Err(p) ==> p.0 == pos,
    decreases chars@.len() - pos, 1int,
{
    proof {
        reveal_strlit("full_day");
        reveal_strlit("full_hour");
        reveal_strlit("(");
        reveal_strlit(")");
    }
    let n = chars.len();
    let (n_end, name) = if match_literal_at(chars, pos, "full_day") {
        (pos + 8, String::from_str("full_day"))
    } else if match_literal_at(chars, pos, "full_hour") {
        (pos + 9, String::from_str("full_hour"))
    } else {
        return Err((pos, String::from_str("expected literal")));
    };
    if !match_literal_at(chars, n_end, "(") {
        return Err((pos, String::from_str("expected literal")));
    }
    let b = n_end + 1;
    match parse_expr_at(chars, b) {
        Err(p) => Err((pos, p.1)),
        Ok((e_next, e_node)) => {
            if match_literal_at(chars, e_next, ")") {
                Ok((e_next + 1, Node::FuncAry1 { name, arg1: Box::new(e_node) }))
            } else {
                Err((pos, String::from_str("expected literal")))
            }
        },
    }
}

/// A parenthesized sub-expression term.
fn parse_bracket_expr(chars: &Vec<char>, pos: usize) -> (r: Result<(usize, Node), (usize, String)>)
    requires
        pos <= chars@.len(),
    ensures
        step_matches(r, spec_bracket_expr(chars@, pos as int)),
        r matches Ok(p) ==> pos < p.0 <= chars@.len(),
        r matches Err(p) ==> p.0 == pos,
    decreases chars@.len() - pos, 1int,
{
    proof {
        reveal_strlit("(");
        reveal_strlit(")");
    }
    let _n = chars.len();
    if !match_literal_at(chars, pos, "(") {
        return Err((pos, String::from_str("expected literal")));
    }
    let p1 = pos + 1;
    let w1 = ws_end_exec(chars, p1);
    match parse_expr_at(chars, w1) {
        Err(p) => Err((pos, p.1)),
        Ok((e_next, e_node)) => {
            let w2 = ws_end_exec(chars, e_next);
            if match_literal_at(chars, w2, ")") {
                let ghost ev = e_node@;
                let mut children: Vec<Node> = Vec::new();
                let e_kept = keep_node_exec(&e_node);
                if e_kept {
                    children.push(e_node);
                }
                proof {
                    lemma_filter5(
                        NodeV::Literal("("@, true),
                        NodeV::Literal(" "@, true),
                        ev,
                        NodeV::Literal(" "@, true),
                        NodeV::Literal(")"@, true),
                    );
                    crate::ast::lemma_nodes_view_index(children@);
                    if e_kept {
                        assert(nodes_view(children@) =~= keep1(ev));
                    } else {
                        assert(nodes_view(children@) =~= keep1(ev));
                    }
                    assert(filter_nodes_v(
                        seq![
                            NodeV::Literal("("@, true),
                            NodeV::Literal(" "@, true),
                            ev,
                            NodeV::Literal(" "@, true),
                            NodeV::Literal(")"@, true),
                        ],
                    ) =~= nodes_view(children@));
                }
                Ok((w2 + 1, Node::Expr(children)))
            } else {
                Err((pos, String::from_str("expected literal")))
            }
        },
    }
}

/// One term: the alternatives in their fixed order, reporting the
/// furthest failure when none matches.
fn parse_term(chars: &Vec<char>, pos: usize) -> (r: Result<(usize, Node), (usize, String)>)
    requires
        pos <= chars@.len(),
    ensures
        step_matches(r, spec_term(chars@, pos as int)),
        r matches Ok(p) ==> pos < p.0 <= chars@.len(),
        r matches Err(p) ==> pos <= p.0 <= chars@.len(),
    decreases chars@.len() - pos, 2int,
{
    let at1 = match parse_datetime(chars, pos) {
        Ok(p) => {
            return Ok(p);
        },
        Err(p) => p.0,
    };
    let at2 = match parse_now(chars, pos) {
        Ok(p) => {
            return Ok(p);
        },
        Err(p) => p.0,
    };
    let at3 = match parse_signed_duration(chars, pos) {
        Ok(p) => {
            return Ok(p);
        },
        Err(p) => p.0,
    };
    let at4 = match parse_timestamp(chars, pos) {
        Ok(p) => {
            return Ok(p);
        },
        Err(p) => p.0,
    };
    let at5 = match parse_func_call(chars, pos) {
        Ok(p) => {
            return Ok(p);
        },
        Err(p) => p.0,
    };
    let at6 = match parse_bracket_expr(chars, pos) {
        Ok(p) => {
            return Ok(p);
        },
        Err(p) => p.0,
    };
    let mut best = at1;
    if at2 > best {
        best = at2;
    }
    if at3 > best {
        best = at3;
    }
    if at4 > best {
        best = at4;
    }
    if at5 > best {
        best = at5;
    }
    if at6 > best {
        best = at6;
    }
    Err((best, String::from_str("none of the parsers matched")))
}

/// One `(ws1 sign ws1 term)` element of an expression's tail.
#[verifier::rlimit(50)]
fn parse_oper_term(chars: &Vec<char>, pos: usize) -> (r: Result<(usize, Node), (usize, String)>)
    requires
        pos <= chars@.len(),
    ensures
        step_matches(r, spec_oper_term(chars@, pos as int)),
        r matches Ok(p) ==> pos < p.0 <= chars@.len(),
        r matches Err(p) ==> p.0 == pos,
    decreases chars@.len() - pos, 1int,
{
    proof {
        reveal_strlit("+");
        reveal_strlit("-");
    }
    let _n = chars.len();
    let p1 = match parse_whitespace(chars, pos, false) {
        Err(p) => {
            return Err((pos, p.1));
        },
        Ok(p) => p.0,
    };
    let (p2, oper) = if match_literal_at(chars, p1, "+") {
        (p1 + 1, Oper::Plus)
    } else if match_literal_at(chars, p1, "-") {
        (p1 + 1, Oper::Minus)
    } else {
        return Err((pos, String::from_str("expected literal")));
    };
    let p3 = match parse_whitespace(chars, p2, false) {
        Err(p) => {
            return Err((pos, p.1));
        },
        Ok(p) => p.0,
    };
    match parse_term(chars, p3) {
        Err(p) => Err((pos, p.1)),
        Ok((p4, node)) => Ok((p4, Node::OperNode { oper, node: Box::new(node) })),
    }
}

/// Zero or more signed-term elements; always succeeds.
fn parse_repeated_terms(chars: &Vec<char>, pos: usize) -> (r: (usize, Vec<Node>))
    requires
        pos <= chars@.len(),
    ensures
        spec_repeated_terms(chars@, pos as int) == (SpecOutcome::Success {
            next: r.0 as int,
            node: NodeV::Expr(nodes_view(r.1@)),
        }),
        pos <= r.0 <= chars@.len(),
    decreases chars@.len() - pos, 2int,
{
    match parse_oper_term(chars, pos) {
        Err(_) => {
            let empty: Vec<Node> = Vec::new();
            proof {
                crate::ast::lemma_nodes_view_index(empty@);
                assert(nodes_view(empty@) =~= Seq::<NodeV>::empty());
            }
            (pos, empty)
        },
        Ok((next, node)) => {
            let ghost nv = node@;
            let (r_next, mut rest_vec) = parse_repeated_terms(chars, next);
            let ghost old_seq = rest_vec@;
            let ghost rest_views = nodes_view(old_seq);
            rest_vec.insert(0, node);
            proof {
                let new_seq = rest_vec@;
                assert(old_seq.subrange(0, 0).push(node) =~= seq![node]);
                assert(old_seq.subrange(0, old_seq.len() as int) =~= old_seq);
                assert(new_seq =~= seq![node] + old_seq);
                crate::ast::lemma_nodes_view_index(old_seq);
                crate::ast::lemma_nodes_view_index(new_seq);
                assert forall|i: int| 0 <= i < new_seq.len() implies nodes_view(new_seq)[i] == (
                seq![nv] + rest_views)[i] by {
                    if i > 0 {
                        assert(new_seq[i] == old_seq[i - 1]);
                    }
                }
                assert(nodes_view(new_seq) =~= seq![nv] + rest_views);
            }
            (r_next, rest_vec)
        },
    }
}

/// A whole expression at a position.
fn parse_expr_at(chars: &Vec<char>, pos: usize) -> (r: Result<(usize, Node), (usize, String)>)
    requires
        pos <= chars@.len(),
    ensures
        step_matches(r, spec_expr(chars@, pos as int)),
        r matches Ok(p) ==> pos < p.0 <= chars@.len(),
        r matches Err(p) ==> p.0 == pos,
    decreases chars@.len() - pos, 3int,
{
    let w1 = ws_end_exec(chars, pos);
    match parse_term(chars, w1) {
        Err(p) => Err((pos, p.1)),
        Ok((t_next, t_node)) => {
            let ghost tv = t_node@;
            let (r_next, rest_vec) = parse_repeated_terms(chars, t_next);
            let ghost rv = NodeV::Expr(nodes_view(rest_vec@));
            let w2 = ws_end_exec(chars, r_next);
            let mut children: Vec<Node> = Vec::new();
            let t_kept = keep_node_exec(&t_node);
            if t_kept {
                children.push(t_node);
            }
            let rest_kept = rest_vec.len() > 0;
            proof {
                crate::ast::lemma_nodes_view_index(rest_vec@);
                assert(keep_node(rv) == rest_kept);
            }
            if rest_kept {
                children.push(Node::Expr(rest_vec));
            }
            proof {
                lemma_filter4(
                    NodeV::Literal(" "@, true),
                    tv,
                    rv,
                    NodeV::Literal(" "@, true),
                );
                crate::ast::lemma_nodes_view_index(children@);
                assert(nodes_view(children@) =~= keep1(tv) + keep1(rv));
                assert(filter_nodes_v(
                    seq![NodeV::Literal(" "@, true), tv, rv, NodeV::Literal(" "@, true)],
                ) =~= nodes_view(children@));
            }
            Ok((w2, Node::Expr(children)))
        },
    }
}

/// Parses the entire input as one expression: the grammar must consume
/// every character, else the position where matching stopped is
/// reported.
pub fn parse_expr<'a>(input: &'a String) -> (r: Result<ParseOk<'a>, ParseErr<'a>>)
    ensures
        match spec_parse_expr(input@) {
            SpecOutcome::Success { next, node } => r matches Ok(ok) && ok.pointer.input@
                == input@ && ok.pointer.pos == next && ok.node@ == node && ok.pointer.wf(),
            SpecOutcome::Failure { at, message } => r matches Err(e) && e.pointer.input@ == input@
                && e.pointer.pos == at && e.message@ == message && e.pointer.wf(),
        },
{
    let chars = crate::text::str_to_chars(input.as_str());
    match parse_expr_at(&chars, 0) {
        Ok((next, node)) => {
            if next == chars.len() {
                Ok(ParseOk { pointer: InputPointer { input, pos: next }, node })
            } else {
                Err(
                    ParseErr {
                        pointer: InputPointer { input, pos: next },
                        message: String::from_str("not all input matched"),
                    },
                )
            }
        },
        Err(p) => Err(ParseErr { pointer: InputPointer { input, pos: p.0 }, message: p.1 }),
    }
}

/// The whole-expression parser, as a matcher value.
pub struct ExprParser;

impl ExprParser {
    /// Parses one expression at the pointer, leaving whatever follows
    /// unconsumed.
    pub fn parse<'a>(&self, pointer: InputPointer<'a>) -> (r: Result<ParseOk<'a>, ParseErr<'a>>)
        requires
            pointer.wf(),
        ensures
            match spec_expr(pointer.text(), pointer.pos as int) {
                SpecOutcome::Success { next, node } => r matches Ok(ok) && ok.pointer.input@
                    == pointer.input@ && ok.pointer.pos == next && ok.node@ == node
                    && ok.pointer.wf(),
                SpecOutcome::Failure { at, message } => r matches Err(e) && e.pointer.input@
                    == pointer.input@ && e.pointer.pos == at && e.message@ == message
                    && e.pointer.wf(),
            },
    {
        let chars = crate::text::str_to_chars(pointer.input.as_str());
        match parse_expr_at(&chars, pointer.pos) {
            Ok((next, node)) => Ok(
                ParseOk { pointer: InputPointer { input: pointer.input, pos: next }, node },
            ),
            Err(p) => Err(
                ParseErr { pointer: InputPointer { input: pointer.input, pos: p.0 }, message: p.1 },
            ),
        }
    }
}

/// The signed-duration term parser, as a matcher value.
pub struct SignedDuration;

impl SignedDuration {
    /// Parses the longest duration-shaped prefix at the pointer.
    pub fn parse<'a>(&self, pointer: InputPointer<'a>) -> (r: Result<ParseOk<'a>, ParseErr<'a>>)
        requires
            pointer.wf(),
        ensures
            match spec_signed_duration(pointer.text(), pointer.pos as int) {
                SpecOutcome::Success { next, node } => r matches Ok(ok) && ok.pointer.input@
                    == pointer.input@ && ok.pointer.pos == next && ok.node@ == node
                    && ok.pointer.wf(),
                SpecOutcome::Failure { at, message } => r matches Err(e) && e.pointer.input@
                    == pointer.input@ && e.pointer.pos == at && e.message@ == message
                    && e.pointer.wf(),
            },
    {
        let chars = crate::text::str_to_chars(pointer.input.as_str());
        match parse_signed_duration(&chars, pointer.pos) {
            Ok((next, node)) => Ok(
                ParseOk { pointer: InputPointer { input: pointer.input, pos: next }, node },
            ),
            Err(p) => Err(
                ParseErr { pointer: InputPointer { input: pointer.input, pos: p.0 }, message: p.1 },
            ),
        }
    }
}

/// The date-time term parser, as a matcher value.
pub struct DateTime;

impl DateTime {
    /// Parses an extended ISO-8601 date-time with required offset.
    pub fn parse<'a>(&self, pointer: InputPointer<'a>) -> (r: Result<ParseOk<'a>, ParseErr<'a>>)
        requires
            pointer.wf(),
        ensures
            match spec_datetime(pointer.text(), pointer.pos as int) {
                SpecOutcome::Success { next, node } => r matches Ok(ok) && ok.pointer.input@
                    == pointer.input@ && ok.pointer.pos == next && ok.node@ == node
                    && ok.pointer.wf(),
                SpecOutcome::Failure { at, message } => r matches Err(e) && e.pointer.input@
                    == pointer.input@ && e.pointer.pos == at && e.message@ == message
                    && e.pointer.wf(),
            },
    {
        let chars = crate::text::str_to_chars(pointer.input.as_str());
        match parse_datetime(&chars, pointer.pos) {
            Ok((next, node)) => Ok(
                ParseOk { pointer: InputPointer { input: pointer.input, pos: next }, node },
            ),
            Err(p) => Err(
                ParseErr { pointer: InputPointer { input: pointer.input, pos: p.0 }, message: p.1 },
            ),
        }
    }
}

/// The whitespace matcher: a maximal run of spaces, optional or
/// required.
pub struct Whitespace {
    pub optional: bool,
}

impl Whitespace {
    /// A whitespace matcher that demands at least one space.
    pub fn new_must_have() -> (r: Whitespace)
        ensures
            !r.optional,
    {
        Whitespace { optional: false }
    }

    /// A whitespace matcher that also matches nothing.
    pub fn new_optional() -> (r: Whitespace)
        ensures
            r.optional,
    {
        Whitespace { optional: true }
    }

    /// Consumes a maximal run of spaces.
    pub fn parse<'a>(&self, pointer: InputPointer<'a>) -> (r: Result<ParseOk<'a>, ParseErr<'a>>)
        requires
            pointer.wf(),
        ensures
            match spec_whitespace(pointer.text(), pointer.pos as int, self.optional) {
                SpecOutcome::Success { next, node } => r matches Ok(ok) && ok.pointer.input@
                    == pointer.input@ && ok.pointer.pos == next && ok.node@ == node
                    && ok.pointer.wf(),
                SpecOutcome::Failure { at, message } => r matches Err(e) && e.pointer.input@
                    == pointer.input@ && e.pointer.pos == at && e.message@ == message
                    && e.pointer.wf(),
            },
    {
        let chars = crate::text::str_to_chars(pointer.input.as_str());
        match parse_whitespace(&chars, pointer.pos, self.optional) {
            Ok((next, node)) => Ok(
                ParseOk { pointer: InputPointer { input: pointer.input, pos: next }, node },
            ),
            Err(p) => Err(
                ParseErr { pointer: InputPointer { input: pointer.input, pos: p.0 }, message: p.1 },
            ),
        }
    }
}

/// The first of a list of literals that stands at the position, or a
/// failure there.
pub open spec fn spec_any_literal(
    s: Seq<char>,
    pos: int,
    lits: Seq<Seq<char>>,
    skip: bool,
) -> SpecOutcome
    decreases lits.len(),
{
    if lits.len() == 0 {
        SpecOutcome::Failure { at: pos, message: "expected literal"@ }
    } else if match_lit(s, pos, lits[0]) {
        SpecOutcome::Success { next: pos + lits[0].len(), node: NodeV::Literal(lits[0], skip) }
    } else {
        spec_any_literal(s, pos, lits.drop_first(), skip)
    }
}

/// Matches any of a list of literal strings.
pub struct Literal {
    pub literals: Vec<String>,
    pub skip: bool,
}

impl Literal {
    /// A matcher for one literal.
    pub fn new(literal: &str) -> (r: Literal)
        ensures
            r.literals@.len() == 1,
            r.literals@[0]@ == literal@,
            !r.skip,
    {
        let mut literals: Vec<String> = Vec::new();
        literals.push(String::from_str(literal));
        Literal { literals, skip: false }
    }

    /// A matcher for the first of several literals.
    pub fn new_any(literals: &[&str]) -> (r: Literal)
        ensures
            r.literals@.len() == literals@.len(),
            forall|i: int| 0 <= i < literals@.len() ==> r.literals@[i]@ == literals@[i]@,
            !r.skip,
    {
        let n = literals.len();
        let mut out: Vec<String> = Vec::new();
        let mut i: usize = 0;
        while i < n
            invariant
                i <= n,
                n == literals@.len(),
                out@.len() == i,
                forall|j: int| 0 <= j < i ==> out@[j]@ == literals@[j]@,
            decreases n - i,
        {
            out.push(String::from_str(literals[i]));
            i = i + 1;
        }
        Literal { literals: out, skip: false }
    }

    /// The same matcher, with its result marked insignificant.
    pub fn set_skip(self) -> (r: Literal)
        ensures
            r.literals == self.literals,
            r.skip,
    {
        Literal { skip: true, ..self }
    }

    /// Whether matched text is dropped from the tree.
    pub fn skip(&self) -> (r: bool)
        ensures
            r == self.skip,
    {
        self.skip
    }

    /// Matches the first of the literals that prefixes the remaining
    /// input.
    pub fn parse<'a>(&self, pointer: InputPointer<'a>) -> (r: Result<ParseOk<'a>, ParseErr<'a>>)
        requires
            pointer.wf(),
        ensures
            match spec_any_literal(
                pointer.text(),
                pointer.pos as int,
                self.literals.deep_view(),
                self.skip,
            ) {
                SpecOutcome::Success { next, node } => r matches Ok(ok) && ok.pointer.input@
                    == pointer.input@ && ok.pointer.pos == next && ok.node@ == node
                    && ok.pointer.wf(),
                SpecOutcome::Failure { at, message } => r matches Err(e) && e.pointer.input@
                    == pointer.input@ && e.pointer.pos == at && e.message@ == message
                    && e.pointer.wf(),
            },
    {
        let chars = crate::text::str_to_chars(pointer.input.as_str());
        let ghost lits = self.literals.deep_view();
        let n = self.literals.len();
        proof {
            assert(lits.subrange(0, n as int) =~= lits);
        }
        let mut i: usize = 0;
        while i < n
            invariant
                pointer.wf(),
                i <= n,
                n == self.literals@.len(),
                lits == self.literals.deep_view(),
                lits.len() == n,
                forall|j: int| 0 <= j < n ==> lits[j] == self.literals@[j]@,
                chars@ == pointer.text(),
                spec_any_literal(pointer.text(), pointer.pos as int, lits, self.skip)
                    == spec_any_literal(
                    pointer.text(),
                    pointer.pos as int,
                    lits.subrange(i as int, n as int),
                    self.skip,
                ),
            decreases n - i,
        {
            let ghost tail = lits.subrange(i as int, n as int);
            proof {
                assert(tail[0] == self.literals@[i as int]@);
                assert(tail.drop_first() =~= lits.subrange(i + 1, n as int));
            }
            let lit = &self.literals[i];
            if match_literal_at(&chars, pointer.pos, lit.as_str()) {
                let llen = lit.as_str().unicode_len();
                let total = chars.len();
                proof {
                    assert(pointer.pos + llen <= total);
                }
                let next = pointer.pos + llen;
                return Ok(
                    ParseOk {
                        pointer: InputPointer { input: pointer.input, pos: next },
                        node: Node::Literal { literal: lit.clone(), skip: self.skip },
                    },
                );
            }
            i = i + 1;
        }
        proof {
            assert(lits.subrange(n as int, n as int) =~= Seq::<Seq<char>>::empty());
        }
        Err(
            ParseErr {
                pointer: InputPointer { input: pointer.input, pos: pointer.pos },
                message: String::from_str("expected literal"),
            },
        )
    }
}

/// One literal matched and marked to be dropped from the tree.
pub open spec fn spec_skip_literal(s: Seq<char>, pos: int, lit: Seq<char>) -> SpecOutcome {
    if match_lit(s, pos, lit) {
        SpecOutcome::Success { next: pos + lit.len(), node: NodeV::Literal(lit, true) }
    } else {
        SpecOutcome::Failure { at: pos, message: "expected literal"@ }
    }
}

/// Matches one literal and marks it to be dropped from the tree.
pub struct SkipLiteral(pub String);

impl SkipLiteral {
    /// A skipped-literal matcher.
    pub fn new(literal: &str) -> (r: SkipLiteral)
        ensures
            r.0@ == literal@,
    {
        SkipLiteral(String::from_str(literal))
    }

    /// Matches the literal, producing an insignificant node.
    pub fn parse<'a>(&self, pointer: InputPointer<'a>) -> (r: Result<ParseOk<'a>, ParseErr<'a>>)
        requires
            pointer.wf(),
        ensures
            match spec_skip_literal(pointer.text(), pointer.pos as int, self.0@) {
                SpecOutcome::Success { next, node } => r matches Ok(ok) && ok.pointer.input@
                    == pointer.input@ && ok.pointer.pos == next && ok.node@ == node
                    && ok.pointer.wf(),
                SpecOutcome::Failure { at, message } => r matches Err(e) && e.pointer.input@
                    == pointer.input@ && e.pointer.pos == at && e.message@ == message
                    && e.pointer.wf(),
            },
    {
        let chars = crate::text::str_to_chars(pointer.input.as_str());
        if match_literal_at(&chars, pointer.pos, self.0.as_str()) {
            let llen = self.0.as_str().unicode_len();
            let total = chars.len();
            proof {
                assert(pointer.pos + llen <= total);
            }
            let next = pointer.pos + llen;
            let cloned = self.0.clone();
            proof {
                assert(cloned@ == self.0@);
            }
            Ok(
                ParseOk {
                    pointer: InputPointer { input: pointer.input, pos: next },
                    node: Node::Literal { literal: cloned, skip: true },
                },
            )
        } else {
            Err(
                ParseErr {
                    pointer: InputPointer { input: pointer.input, pos: pointer.pos },
                    message: String::from_str("expected literal"),
                },
            )
        }
    }
}

/// Where repeating the signed-duration matcher from `pos` stops, and
/// the nodes it collects.
pub open spec fn spec_zero_or_more_durations(s: Seq<char>, pos: int) -> (int, Seq<NodeV>)
    decreases s.len() - pos,
{
    if !(0 <= pos <= s.len()) {
        (pos, Seq::empty())
    } else {
        match spec_signed_duration(s, pos) {
            SpecOutcome::Failure { .. } => (pos, Seq::empty()),
            SpecOutcome::Success { next, node } => {
                if !(pos < next <= s.len()) {
                    (pos, Seq::empty())
                } else {
                    let rest = spec_zero_or_more_durations(s, next);
                    (rest.0, seq![node] + rest.1)
                }
            },
        }
    }
}

/// Repeats the signed-duration matcher zero or more times, collecting
/// the duration nodes into a sequence node.
pub struct ZeroOrMoreDurations;

impl ZeroOrMoreDurations {
    fn collect<'a>(chars: &Vec<char>, pos: usize) -> (r: (usize, Vec<Node>))
        requires
            pos <= chars@.len(),
        ensures
            ({
                let o = spec_zero_or_more_durations(chars@, pos as int);
                r.0 == o.0 && nodes_view(r.1@) == o.1
            }),
            pos <= r.0 <= chars@.len(),
        decreases chars@.len() - pos,
    {
        match parse_signed_duration(chars, pos) {
            Err(_) => {
                let empty: Vec<Node> = Vec::new();
                proof {
                    crate::ast::lemma_nodes_view_index(empty@);
                    assert(nodes_view(empty@) =~= Seq::<NodeV>::empty());
                }
                (pos, empty)
            },
            Ok((next, node)) => {
                let ghost nv = node@;
                let (r_next, mut rest_vec) = Self::collect(chars, next);
                let ghost old_seq = rest_vec@;
                let ghost rest_views = nodes_view(old_seq);
                rest_vec.insert(0, node);
                proof {
                    let new_seq = rest_vec@;
                    assert(old_seq.subrange(0, 0).push(node) =~= seq![node]);
                    assert(old_seq.subrange(0, old_seq.len() as int) =~= old_seq);
                    assert(new_seq =~= seq![node] + old_seq);
                    crate::ast::lemma_nodes_view_index(old_seq);
                    crate::ast::lemma_nodes_view_index(new_seq);
                    assert forall|i: int| 0 <= i < new_seq.len() implies nodes_view(new_seq)[i]
                        == (seq![nv] + rest_views)[i] by {
                        if i > 0 {
                            assert(new_seq[i] == old_seq[i - 1]);
                        }
                    }
                    assert(nodes_view(new_seq) =~= seq![nv] + rest_views);
                }
                (r_next, rest_vec)
            },
        }
    }

    /// Collects consecutive signed durations into one sequence node;
    /// always succeeds, with an empty sequence when none matches.
    pub fn parse<'a>(&self, pointer: InputPointer<'a>) -> (r: Result<ParseOk<'a>, ParseErr<'a>>)
        requires
            pointer.wf(),
        ensures
            ({
                let o = spec_zero_or_more_durations(pointer.text(), pointer.pos as int);
                r matches Ok(ok) && ok.pointer.input@ == pointer.input@ && ok.pointer.pos == o.0
                    && ok.node@ == NodeV::Expr(o.1) && ok.pointer.wf()
            }),
    {
        let chars = crate::text::str_to_chars(pointer.input.as_str());
        let (next, nodes) = Self::collect(&chars, pointer.pos);
        Ok(
            ParseOk {
                pointer: InputPointer { input: pointer.input, pos: next },
                node: Node::Expr(nodes),
            },
        )
    }
}

/// One closed union over the leaf matchers, so that the generic
/// combinators below can hold mixed lists of them.
pub enum ParserKind {
    SignedDuration(SignedDuration),
    DateTime(DateTime),
    Whitespace(Whitespace),
    Literal(Literal),
    SkipLiteral(SkipLiteral),
}

/// What each leaf matcher means, by kind.
pub open spec fn spec_parser_kind(p: ParserKind, text: Seq<char>, pos: int) -> SpecOutcome {
    match p {
        ParserKind::SignedDuration(_) => spec_signed_duration(text, pos),
        ParserKind::DateTime(_) => spec_datetime(text, pos),
        ParserKind::Whitespace(w) => spec_whitespace(text, pos, w.optional),
        ParserKind::Literal(l) => spec_any_literal(text, pos, l.literals.deep_view(), l.skip),
        ParserKind::SkipLiteral(sl) => spec_skip_literal(text, pos, sl.0@),
    }
}

proof fn lemma_any_literal_failure_at(s: Seq<char>, pos: int, lits: Seq<Seq<char>>, skip: bool)
    ensures
        spec_any_literal(s, pos, lits, skip) is Failure ==> outcome_pos(
            spec_any_literal(s, pos, lits, skip),
        ) == pos,
    decreases lits.len(),
{
    if lits.len() > 0 && !match_lit(s, pos, lits[0]) {
        lemma_any_literal_failure_at(s, pos, lits.drop_first(), skip);
    }
}

impl ParserKind {
    /// Dispatches to the matcher this kind stands for.
    pub fn parse<'a>(&self, pointer: InputPointer<'a>) -> (r: Result<ParseOk<'a>, ParseErr<'a>>)
        requires
            pointer.wf(),
        ensures
            match spec_parser_kind(*self, pointer.text(), pointer.pos as int) {
                SpecOutcome::Success { next, node } => r matches Ok(ok) && ok.pointer.input@
                    == pointer.input@ && ok.pointer.pos == next && ok.node@ == node
                    && ok.pointer.wf(),
                SpecOutcome::Failure { at, message } => r matches Err(e) && e.pointer.input@
                    == pointer.input@ && e.pointer.pos == at && e.pointer.pos == pointer.pos
                    && e.message@ == message && e.pointer.wf(),
            },
    {
        proof {
            match self {
                ParserKind::Literal(l) => lemma_any_literal_failure_at(
                    pointer.text(),
                    pointer.pos as int,
                    l.literals.deep_view(),
                    l.skip,
                ),
                _ => (),
            }
        }
        match self {
            ParserKind::SignedDuration(p) => p.parse(pointer),
            ParserKind::DateTime(p) => p.parse(pointer),
            ParserKind::Whitespace(p) => p.parse(pointer),
            ParserKind::Literal(p) => p.parse(pointer),
            ParserKind::SkipLiteral(p) => p.parse(pointer),
        }
    }
}

/// Whether an empty repetition is acceptable.
pub enum ConsumeRepeated {
    ZeroOrMore,
    OneOrMore,
}

/// A successful repetition: the resting pointer and the nodes matched.
#[derive(Debug)]
pub struct RepeatedOk<'a> {
    pub pointer: InputPointer<'a>,
    pub nodes: Vec<Node>,
}

/// A successful parser sequence: the nodes each parser produced, and
/// the pointer after the last one.
#[derive(Debug)]
pub struct SequenceOk<'a> {
    pub nodes: Vec<Node>,
    pub pointer: InputPointer<'a>,
}

/// Where repeating a matcher from `pos` rests, and the nodes collected:
/// matching stops at the first failure (resting at that failure's
/// position) or as soon as a match consumes nothing.
pub open spec fn spec_consume_repeated(p: ParserKind, text: Seq<char>, pos: int) -> (
    int,
    Seq<NodeV>,
)
    decreases text.len() - pos,
{
    if !(0 <= pos <= text.len()) {
        (pos, Seq::empty())
    } else {
        match spec_parser_kind(p, text, pos) {
            SpecOutcome::Failure { at, .. } => (at, Seq::empty()),
            SpecOutcome::Success { next, node } => {
                if !(pos < next <= text.len()) {
                    (pos, Seq::empty())
                } else {
                    let rest = spec_consume_repeated(p, text, next);
                    (rest.0, seq![node] + rest.1)
                }
            },
        }
    }
}

fn repeated_collect<'a>(parser: &ParserKind, pointer: InputPointer<'a>) -> (r: (
    InputPointer<'a>,
    Vec<Node>,
))
    requires
        pointer.wf(),
    ensures
        ({
            let rep = spec_consume_repeated(*parser, pointer.text(), pointer.pos as int);
            r.0.pos == rep.0 && nodes_view(r.1@) == rep.1
        }),
        r.0.input@ == pointer.input@,
        r.0.wf(),
    decreases pointer.text().len() - pointer.pos,
{
    match parser.parse(pointer) {
        Err(e) => {
            let empty: Vec<Node> = Vec::new();
            proof {
                crate::ast::lemma_nodes_view_index(empty@);
                assert(nodes_view(empty@) =~= Seq::<NodeV>::empty());
            }
            (e.pointer, empty)
        },
        Ok(ok) => {
            if ok.pointer.pos <= pointer.pos {
                // a match that consumed nothing: stop, or the
                // repetition would never end
                let empty: Vec<Node> = Vec::new();
                proof {
                    crate::ast::lemma_nodes_view_index(empty@);
                    assert(nodes_view(empty@) =~= Seq::<NodeV>::empty());
                }
                (pointer, empty)
            } else {
                let ghost nv = ok.node@;
                let (restp, mut rest_vec) = repeated_collect(parser, ok.pointer);
                let ghost old_seq = rest_vec@;
                let ghost rest_views = nodes_view(old_seq);
                rest_vec.insert(0, ok.node);
                proof {
                    let new_seq = rest_vec@;
                    assert(old_seq.subrange(0, 0).push(ok.node) =~= seq![ok.node]);
                    assert(old_seq.subrange(0, old_seq.len() as int) =~= old_seq);
                    assert(new_seq =~= seq![ok.node] + old_seq);
                    crate::ast::lemma_nodes_view_index(old_seq);
                    crate::ast::lemma_nodes_view_index(new_seq);
                    assert forall|i: int| 0 <= i < new_seq.len() implies nodes_view(new_seq)[i]
                        == (seq![nv] + rest_views)[i] by {
                        if i > 0 {
                            assert(new_seq[i] == old_seq[i - 1]);
                        }
                    }
                    assert(nodes_view(new_seq) =~= seq![nv] + rest_views);
                }
                (restp, rest_vec)
            }
        },
    }
}

/// Applies the matcher repeatedly until it fails, collecting each
/// produced node.  With `OneOrMore`, zero matches is a failure carrying
/// the given message; with `ZeroOrMore` it is an empty success.
pub fn consume_repeated<'a>(
    parser: &ParserKind,
    pointer: InputPointer<'a>,
    zero_config: ConsumeRepeated,
    error_message: &str,
) -> (r: Result<RepeatedOk<'a>, ParseErr<'a>>)
    requires
        pointer.wf(),
    ensures
        ({
            let rep = spec_consume_repeated(*parser, pointer.text(), pointer.pos as int);
            if rep.1.len() == 0 {
                match zero_config {
                    ConsumeRepeated::ZeroOrMore => r matches Ok(ok) && ok.pointer.input@
                        == pointer.input@ && ok.pointer.pos == rep.0 && nodes_view(ok.nodes@)
                        == rep.1 && ok.pointer.wf(),
                    ConsumeRepeated::OneOrMore => r matches Err(e) && e.pointer.input@
                        == pointer.input@ && e.pointer.pos == rep.0 && e.message@
                        == error_message@ && e.pointer.wf(),
                }
            } else {
                r matches Ok(ok) && ok.pointer.input@ == pointer.input@ && ok.pointer.pos == rep.0
                    && nodes_view(ok.nodes@) == rep.1 && ok.pointer.wf()
            }
        }),
{
    let (resting, nodes) = repeated_collect(parser, pointer);
    proof {
        crate::ast::lemma_nodes_view_index(nodes@);
    }
    if nodes.len() == 0 {
        match zero_config {
            ConsumeRepeated::ZeroOrMore => Ok(RepeatedOk { pointer: resting, nodes }),
            ConsumeRepeated::OneOrMore => Err(
                ParseErr { pointer: resting, message: String::from_str(error_message) },
            ),
        }
    } else {
        Ok(RepeatedOk { pointer: resting, nodes })
    }
}

/// What running the parsers `i..` in order from `cur` yields: the end
/// position with every produced node, or the message of the first
/// failure.
pub open spec fn spec_consume_sequence(
    parsers: Seq<ParserKind>,
    text: Seq<char>,
    i: int,
    cur: int,
) -> Result<(int, Seq<NodeV>), Seq<char>>
    decreases parsers.len() - i,
{
    if i < 0 || i >= parsers.len() {
        Ok((cur, Seq::empty()))
    } else {
        match spec_parser_kind(parsers[i], text, cur) {
            SpecOutcome::Failure { message, .. } => Err(message),
            SpecOutcome::Success { next, node } => {
                match spec_consume_sequence(parsers, text, i + 1, next) {
                    Ok(p) => Ok((p.0, seq![node] + p.1)),
                    Err(m) => Err(m),
                }
            },
        }
    }
}

fn sequence_collect<'a>(parsers: &Vec<ParserKind>, i: usize, pointer: InputPointer<'a>) -> (r:
    Result<(InputPointer<'a>, Vec<Node>), String>)
    requires
        pointer.wf(),
        i <= parsers@.len(),
    ensures
        match spec_consume_sequence(parsers@, pointer.text(), i as int, pointer.pos as int) {
            Ok(p) => r matches Ok(got) && got.0.input@ == pointer.input@ && got.0.pos == p.0
                && nodes_view(got.1@) == p.1 && got.0.wf(),
            Err(m) => r matches Err(msg) && msg@ == m,
        },
    decreases parsers@.len() - i,
{
    if i >= parsers.len() {
        let empty: Vec<Node> = Vec::new();
        proof {
            crate::ast::lemma_nodes_view_index(empty@);
            assert(nodes_view(empty@) =~= Seq::<NodeV>::empty());
        }
        return Ok((pointer, empty));
    }
    match parsers[i].parse(pointer) {
        Err(e) => Err(e.message),
        Ok(ok) => {
            let ghost nv = ok.node@;
            match sequence_collect(parsers, i + 1, ok.pointer) {
                Err(m) => Err(m),
                Ok((endp, mut rest_vec)) => {
                    let ghost old_seq = rest_vec@;
                    let ghost rest_views = nodes_view(old_seq);
                    rest_vec.insert(0, ok.node);
                    proof {
                        let new_seq = rest_vec@;
                        assert(old_seq.subrange(0, 0).push(ok.node) =~= seq![ok.node]);
                        assert(old_seq.subrange(0, old_seq.len() as int) =~= old_seq);
                        assert(new_seq =~= seq![ok.node] + old_seq);
                        crate::ast::lemma_nodes_view_index(old_seq);
                        crate::ast::lemma_nodes_view_index(new_seq);
                        assert forall|j: int| 0 <= j < new_seq.len() implies nodes_view(
                            new_seq,
                        )[j] == (seq![nv] + rest_views)[j] by {
                            if j > 0 {
                                assert(new_seq[j] == old_seq[j - 1]);
                            }
                        }
                        assert(nodes_view(new_seq) =~= seq![nv] + rest_views);
                    }
                    Ok((endp, rest_vec))
                },
            }
        },
    }
}

/// Succeeds only if every parser matches, one after another.  A
/// failure anywhere reports the pointer the sequence began at, so the
/// sequence commits to nothing.
pub fn consume_sequence<'a>(parsers: &Vec<ParserKind>, pointer: InputPointer<'a>) -> (r: Result<
    SequenceOk<'a>,
    ParseErr<'a>,
>)
    requires
        pointer.wf(),
    ensures
        match spec_consume_sequence(parsers@, pointer.text(), 0, pointer.pos as int) {
            Ok(p) => r matches Ok(ok) && ok.pointer.input@ == pointer.input@ && ok.pointer.pos
                == p.0 && nodes_view(ok.nodes@) == p.1 && ok.pointer.wf(),
            Err(m) => r matches Err(e) && e.pointer.input@ == pointer.input@ && e.pointer.pos
                == pointer.pos && e.message@ == m && e.pointer.wf(),
        },
{
    match sequence_collect(parsers, 0, pointer) {
        Ok((endp, nodes)) => Ok(SequenceOk { nodes, pointer: endp }),
        Err(message) => {
            // pass the original pointer on, so that when the sequence
            // fails the pointer does not move
            Err(ParseErr { pointer, message })
        },
    }
}

/// The first success among the parsers `i..`, or the failure that
/// advanced furthest (`best` carries the furthest failure position seen
/// so far; ties keep the earlier one).
pub open spec fn spec_consume_first(
    parsers: Seq<ParserKind>,
    text: Seq<char>,
    pos: int,
    i: int,
    best: int,
) -> SpecOutcome
    decreases parsers.len() - i,
{
    if i < 0 || i >= parsers.len() {
        SpecOutcome::Failure { at: best, message: "none of the parsers matched"@ }
    } else {
        match spec_parser_kind(parsers[i], text, pos) {
            SpecOutcome::Success { next, node } => SpecOutcome::Success { next, node },
            SpecOutcome::Failure { at, .. } => spec_consume_first(
                parsers,
                text,
                pos,
                i + 1,
                if at > best {
                    at
                } else {
                    best
                },
            ),
        }
    }
}

fn consume_first_from<'a>(
    parsers: &Vec<ParserKind>,
    pointer: InputPointer<'a>,
    i: usize,
    best: usize,
) -> (r: Result<ParseOk<'a>, ParseErr<'a>>)
    requires
        pointer.wf(),
        i <= parsers@.len(),
        best <= pointer.text().len(),
    ensures
        match spec_consume_first(
            parsers@,
            pointer.text(),
            pointer.pos as int,
            i as int,
            best as int,
        ) {
            SpecOutcome::Success { next, node } => r matches Ok(ok) && ok.pointer.input@
                == pointer.input@ && ok.pointer.pos == next && ok.node@ == node
                && ok.pointer.wf(),
            SpecOutcome::Failure { at, message } => r matches Err(e) && e.pointer.input@
                == pointer.input@ && e.pointer.pos == at && e.message@ == message
                && e.pointer.wf(),
        },
    decreases parsers@.len() - i,
{
    if i >= parsers.len() {
        return Err(
            ParseErr {
                pointer: pointer.at_pos(best),
                message: String::from_str("none of the parsers matched"),
            },
        );
    }
    match parsers[i].parse(pointer) {
        Ok(ok) => Ok(ok),
        Err(e) => {
            let new_best = if e.pointer.pos > best {
                e.pointer.pos
            } else {
                best
            };
            consume_first_from(parsers, pointer, i + 1, new_best)
        },
    }
}

/// Tries the parsers in order and returns the first success; when all
/// fail, the failure that advanced furthest is reported (ties keep the
/// earliest).
pub struct FirstOf {
    pub parsers: Vec<ParserKind>,
}

impl FirstOf {
    pub fn new(parsers: Vec<ParserKind>) -> (r: FirstOf)
        ensures
            r.parsers@ == parsers@,
    {
        FirstOf { parsers }
    }

    /// The first success, or the furthest failure.
    pub fn parse<'a>(&self, pointer: InputPointer<'a>) -> (r: Result<ParseOk<'a>, ParseErr<'a>>)
        requires
            pointer.wf(),
            self.parsers@.len() > 0,
        ensures
            match spec_consume_first(
                self.parsers@,
                pointer.text(),
                pointer.pos as int,
                0,
                pointer.pos as int,
            ) {
                SpecOutcome::Success { next, node } => r matches Ok(ok) && ok.pointer.input@
                    == pointer.input@ && ok.pointer.pos == next && ok.node@ == node
                    && ok.pointer.wf(),
                SpecOutcome::Failure { at, message } => r matches Err(e) && e.pointer.input@
                    == pointer.input@ && e.pointer.pos == at && e.message@ == message
                    && e.pointer.wf(),
            },
    {
        consume_first_from(&self.parsers, pointer, 0, pointer.pos)
    }
}

} // verus!
