//! Laws that tie the codec, the grammar and the evaluator together.

use vstd::prelude::*;
use crate::ast::NodeV;
use crate::duration::{
    body_text, comp_val, digits_text, duration_match_end, duration_match_value, is_digit_char,
    lemma_body_starts_with_digit, lemma_digits_text_props, lemma_rem_val_nonneg,
    lemma_short_format_roundtrip, lemma_unit_nanos_positive, rem_val, short_format_text,
    short_format_value, unit_nanos, unit_suffix,
};
use crate::eval::{spec_eval, spec_eval_fold, State};
use crate::parsers::{
    char_at_is, digits_exact, filter_nodes_v, lemma_filter4, match_lit, rfc3339_shape_end,
    spec_datetime, spec_expr, spec_now, spec_oper_term, spec_parse_expr, spec_repeated_terms,
    spec_signed_duration, spec_term, spec_whitespace, ws_run_end, SpecOutcome,
};
use crate::time::{Instant, TimeDelta};

verus! {

/// No character of a formatted body is a minus sign: only digits and
/// unit letters occur there.
proof fn lemma_body_no_minus(mag: int, u: int)
    requires
        mag >= 0,
        0 <= u <= 7,
    ensures
        forall|i: int| 0 <= i < body_text(mag, u).len() ==> body_text(mag, u)[i] != '-',
    decreases 7 - u,
{
    if u < 7 {
        let v = comp_val(mag, u);
        lemma_rem_val_nonneg(mag, u);
        lemma_unit_nanos_positive(u);
        vstd::arithmetic::div_mod::lemma_div_pos_is_pos(rem_val(mag, u), unit_nanos(u));
        lemma_body_no_minus(mag, u + 1);
        if v == 0 {
            assert(body_text(mag, u) =~= body_text(mag, u + 1));
        } else {
            lemma_digits_text_props(v);
            let digits = digits_text(v);
            let suffix = unit_suffix(u);
            let dlen = digits.len() as int;
            let slen = suffix.len() as int;
            assert(body_text(mag, u) == (digits + suffix) + body_text(mag, u + 1));
            assert(forall|j: int| 0 <= j < slen ==> suffix[j] != '-');
            assert forall|i: int| 0 <= i < body_text(mag, u).len() implies body_text(mag, u)[i]
                != '-' by {
                if i < dlen {
                    assert(body_text(mag, u)[i] == digits[i]);
                    assert(is_digit_char(digits[i]));
                } else if i < dlen + slen {
                    assert(body_text(mag, u)[i] == suffix[i - dlen]);
                } else {
                    assert(body_text(mag, u)[i] == body_text(mag, u + 1)[i - dlen - slen]);
                }
            }
        }
    }
}

/// Law: the short format of any duration value parses back as a whole
/// expression holding exactly that duration, and evaluating the parsed
/// tree — under any current moment — yields the duration again.  With
/// the codec round-trip this makes format-then-parse-then-evaluate
/// idempotent for duration results.
#[verifier::rlimit(100)]
pub proof fn lemma_format_parse_eval_roundtrip(nanos: int, now: Instant)
    requires
        i64::MIN <= nanos <= i64::MAX,
    ensures
        spec_parse_expr(short_format_text(nanos)) == (SpecOutcome::Success {
            next: short_format_text(nanos).len() as int,
            node: NodeV::Expr(seq![NodeV::Duration(nanos)]),
        }),
        spec_eval(State::Empty, NodeV::Expr(seq![NodeV::Duration(nanos)]), now) == Some(
            State::TimeDelta(TimeDelta { nanos: nanos as i64 }),
        ),
{
    let text = short_format_text(nanos);
    let len = text.len() as int;
    let mag: int = if nanos < 0 {
        -nanos
    } else {
        nanos
    };
    let body = body_text(mag, 0);
    lemma_short_format_roundtrip(nanos);
    assert(short_format_value(text) == Some(nanos));
    assert(duration_match_end(text, 0) == len);
    assert(duration_match_value(text, 0) == nanos);
    lemma_body_starts_with_digit(mag, 0);
    lemma_body_no_minus(mag, 0);
    // the first character is '-', '0' or a digit, and position 4 never
    // holds '-'
    if nanos < 0 {
        assert(len >= 1);
        assert(text[0] == '-');
    } else if body.len() == 0 {
        assert(text =~= seq!['0', 's']);
        assert(len >= 1);
        assert(text[0] == '0');
    } else {
        assert(text =~= body);
        assert(len >= 1);
        assert(is_digit_char(text[0]));
    }
    assert(!is_digit_char('-'));
    // the date-time alternative fails: the shape wants '-' at position 4
    assert(spec_datetime(text, 0) is Failure) by {
        if nanos < 0 {
            assert(!digits_exact(text, 0, 4));
        } else if body.len() == 0 {
            assert(!digits_exact(text, 0, 4));
        } else {
            if digits_exact(text, 0, 4) && char_at_is(text, 4, '-') {
                assert(text[4] == body[4]);
                assert(false);
            }
        }
        assert(rfc3339_shape_end(text, 0) is None);
    }
    // the now alternative fails: the first character is never 'n'
    assert(spec_now(text, 0) is Failure) by {
        reveal_strlit("now");
        if match_lit(text, 0, "now"@) {
            assert(text.subrange(0, 3)[0] == text[0]);
            assert(text[0] == 'n');
            assert(false);
        }
    }
    // the duration alternative succeeds with the value itself
    assert(spec_signed_duration(text, 0) == (SpecOutcome::Success {
        next: len,
        node: NodeV::Duration(nanos),
    }));
    assert(spec_term(text, 0) == (SpecOutcome::Success {
        next: len,
        node: NodeV::Duration(nanos),
    }));
    // no leading or trailing whitespace in a formatted duration
    assert(text[0] != ' ');
    assert(ws_run_end(text, 0) == 0);
    assert(ws_run_end(text, len) == len);
    // the expression wraps the single term
    assert(spec_whitespace(text, len, false) is Failure);
    assert(spec_oper_term(text, len) is Failure);
    assert(spec_repeated_terms(text, len) == (SpecOutcome::Success {
        next: len,
        node: NodeV::Expr(Seq::empty()),
    }));
    let tv = NodeV::Duration(nanos);
    let rv = NodeV::Expr(Seq::<NodeV>::empty());
    lemma_filter4(NodeV::Literal(" "@, true), tv, rv, NodeV::Literal(" "@, true));
    assert(filter_nodes_v(
        seq![NodeV::Literal(" "@, true), tv, rv, NodeV::Literal(" "@, true)],
    ) =~= seq![tv]);
    assert(spec_expr(text, 0) == (SpecOutcome::Success {
        next: len,
        node: NodeV::Expr(seq![tv]),
    }));
    assert(spec_parse_expr(text) == (SpecOutcome::Success {
        next: len,
        node: NodeV::Expr(seq![tv]),
    }));
    // evaluating the tree gives the duration back
    assert(spec_eval(State::Empty, tv, now) == Some(
        State::TimeDelta(TimeDelta { nanos: nanos as i64 }),
    ));
    let result_state = State::TimeDelta(TimeDelta { nanos: nanos as i64 });
    assert(seq![tv].len() == 1);
    assert(seq![tv][0] == tv);
    assert(seq![tv].drop_first() =~= Seq::<NodeV>::empty());
    assert(spec_eval_fold(result_state, seq![tv].drop_first(), now) == Some(result_state));
    assert(spec_eval_fold(State::Empty, seq![tv], now) == Some(result_state));
    assert(spec_eval(State::Empty, NodeV::Expr(seq![tv]), now) == Some(result_state));
}

} // verus!
