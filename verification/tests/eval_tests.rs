use timecalc::ast::Node;
use timecalc::builtin_funcs::full_day;
use timecalc::eval::State;
use timecalc::eval::{evaluate, EvaluationResult};
use timecalc::parsers::parse_expr;
use timecalc::{Instant, TimeDelta};

fn instant_of_rfc3339(s: &str) -> Instant {
    let d = chrono::DateTime::parse_from_rfc3339(s).unwrap();
    Instant::new(d.timestamp_nanos_opt().unwrap(), d.offset().local_minus_utc())
}

fn parse_from_rfc3339(s: &str) -> EvaluationResult {
    // every input below is written in UTC, so the expected instants
    // carry a zero offset
    let d = chrono::DateTime::parse_from_rfc3339(s).unwrap();
    EvaluationResult::DateTime(Instant::new(d.timestamp_nanos_opt().unwrap(), 0))
}

fn now() -> Instant {
    instant_of_rfc3339("2024-01-01T00:00:00Z")
}

#[test]
fn parse_and_eval_sums() {
    let input = "1d + 2h + 2000-01-01T00:00:00Z + 3m + 4s".to_string();
    let result_node = parse_expr(&input).unwrap().node;
    let result = evaluate(result_node, now());
    assert!(result.is_ok(), "result not ok: {:?}", result);
    assert_eq!(result.unwrap(), parse_from_rfc3339("2000-01-02T02:03:04Z"))
}

#[test]
fn parse_and_eval_diff_duration() {
    let input = "1d + 2h + 2000-01-01T00:00:00Z - 1d - 2h".to_string();
    let result_node = parse_expr(&input).unwrap().node;
    let result = evaluate(result_node, now());
    assert!(result.is_ok(), "result not ok");
    assert_eq!(result.unwrap(), parse_from_rfc3339("2000-01-01T00:00:00Z"))
}

#[test]
fn parse_and_eval_diff_datetimes_1() {
    let input = "1999-01-01T01:00:00Z - 1999-01-01T00:00:00Z + 2000-01-01T00:00:00Z".to_string();
    let result_node = parse_expr(&input).unwrap().node;
    let result = evaluate(result_node, now());
    assert!(result.is_ok(), "result not ok");
    assert_eq!(result.unwrap(), parse_from_rfc3339("2000-01-01T01:00:00Z"))
}

#[test]
fn parse_and_eval_diff_datetimes_2() {
    let input =
        "1s + 1999-01-01T01:00:00Z - 1m - 1999-01-01T00:00:00Z + -2s + 2000-01-01T00:00:00Z"
            .to_string();
    let result_node = parse_expr(&input).unwrap().node;
    let result = evaluate(result_node, now());
    assert!(result.is_ok(), "result not ok");
    assert_eq!(result.unwrap(), parse_from_rfc3339("2000-01-01T00:58:59Z"))
}

#[test]
fn eval_bracket_duration_difference() {
    let input = "1s - (2s + 3s) - (1s + 2s)".to_string();
    let result_node = parse_expr(&input).unwrap().node;
    let result = evaluate(result_node, now()).unwrap();
    assert_eq!(result, EvaluationResult::TimeDelta(TimeDelta::new(-7_000_000_000)));
}

#[test]
fn eval_instant_plus_instant_is_error() {
    let input = "2000-01-01T00:00:00Z + 2000-01-01T00:00:00Z".to_string();
    let result_node = parse_expr(&input).unwrap().node;
    assert!(evaluate(result_node, now()).is_err());
}

#[test]
fn eval_duration_minus_instant_is_error() {
    let input = "1s - 2000-01-01T00:00:00Z".to_string();
    let result_node = parse_expr(&input).unwrap().node;
    assert!(evaluate(result_node, now()).is_err());
}

#[test]
fn eval_unknown_function_is_error() {
    let node = Node::FuncAry1 {
        name: "no_such".to_string(),
        arg1: Box::new(Node::Expr(vec![Node::Now])),
    };
    assert!(evaluate(node, now()).is_err());
}

#[test]
fn eval_full_day_rejects_duration_argument() {
    let input = "full_day(1s)".to_string();
    let result_node = parse_expr(&input).unwrap().node;
    assert!(evaluate(result_node, now()).is_err());
}

#[test]
fn eval_overflow_is_error() {
    let input = "9223372036854775807ns + 1s".to_string();
    let result_node = parse_expr(&input).unwrap().node;
    assert!(evaluate(result_node, now()).is_err());
}

#[test]
fn full_day_before_the_epoch() {
    // an instant one hour before the epoch floors to the previous
    // midnight
    let arg = State::DateTime(Instant::new(-3_600_000_000_000, 0));
    match full_day(&arg).unwrap() {
        State::DateTime(i) => {
            assert_eq!(i.epoch_nanos, -86_400_000_000_000);
            assert_eq!(i.offset_secs, 0);
        }
        other => panic!("expected a datetime state, got {:?}", other),
    }
}

#[test]
fn format_of_result_reparses_to_same_value() {
    // evaluate, format the duration, parse it again, evaluate again
    let input = "1s - (2s + 3s) - (1s + 2s)".to_string();
    let node = parse_expr(&input).unwrap().node;
    let first = evaluate(node, now()).unwrap();
    let text = match &first {
        EvaluationResult::TimeDelta(d) => d.as_short_format(),
        EvaluationResult::DateTime(_) => panic!("expected a duration"),
    };
    let node2 = parse_expr(&text).unwrap().node;
    let second = evaluate(node2, now()).unwrap();
    assert_eq!(first, second);
}
