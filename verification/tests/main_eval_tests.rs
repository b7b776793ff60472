//! End-to-end checks: parse, evaluate, and render the result the way
//! the command-line front end does.

use timecalc::eval::{evaluate, EvaluationResult};
use timecalc::parsers::parse_expr;
use timecalc::Instant;

fn parse_and_eval(input: &String, output_tz: &chrono_tz::Tz, now: Instant) -> Result<String, String> {
    let parse_result = parse_expr(input);
    let parse_ok = match parse_result {
        Ok(ok) => ok,
        Err(e) => return Err(e.message),
    };
    let eval_result = evaluate(parse_ok.node, now)?;
    Ok(match eval_result {
        EvaluationResult::DateTime(i) => chrono::DateTime::from_timestamp_nanos(i.epoch_nanos)
            .with_timezone(output_tz)
            .to_rfc3339(),
        EvaluationResult::TimeDelta(delta) => delta.as_short_format(),
    })
}

fn check_parse_and_eval(input: &str, expected: Option<&str>) {
    check_parse_and_eval_tz(input, expected, &chrono_tz::UTC)
}

fn check_parse_and_eval_tz(input: &str, expected: Option<&str>, tz: &chrono_tz::Tz) {
    let result = parse_and_eval(&input.to_string(), tz, now());
    let result_str = format!("{:?}", result);
    if let Some(expected) = expected {
        let actual = result.expect(&format!("expected ok result, got: {}", result_str));
        assert_eq!(actual, expected);
    } else {
        result.expect_err("expected err result");
    }
}

fn now() -> Instant {
    let d = chrono::DateTime::parse_from_rfc3339("2001-01-01T01:01:01Z").unwrap();
    Instant::new(d.timestamp_nanos_opt().unwrap(), d.offset().local_minus_utc())
}

#[test]
fn test_eval_garbage_on_right() {
    check_parse_and_eval("1h + 2h + 2000-01-01T00:00:00Z garbage", None);
}

#[test]
fn test_eval_with_now() {
    check_parse_and_eval("1s + now", Some("2001-01-01T01:01:02+00:00"));
}

#[test]
fn test_eval_brackets_1() {
    check_parse_and_eval("now - (1s - 1s)", Some("2001-01-01T01:01:01+00:00"));
}

#[test]
fn test_eval_brackets_2() {
    check_parse_and_eval(
        "(1s - (2s - 1s)) + now - (1s - (2s - 1s))",
        Some("2001-01-01T01:01:01+00:00"),
    );
}

#[test]
fn test_eval_brackets_3() {
    check_parse_and_eval(
        "(now - (now - 1d)) + now - (now - (now - 1d))",
        Some("2001-01-01T01:01:01+00:00"),
    );
}

#[test]
fn test_eval_func_full_day_1() {
    check_parse_and_eval("full_day(now)", Some("2001-01-01T00:00:00+00:00"));
}

#[test]
fn test_eval_func_full_hour_1() {
    check_parse_and_eval("full_hour(now)", Some("2001-01-01T01:00:00+00:00"));
}

#[test]
fn test_eval_timestamp_1() {
    check_parse_and_eval("1234567890.000", Some("2009-02-13T23:31:30+00:00"));
}

#[test]
fn test_eval_timestamp_2() {
    check_parse_and_eval("0.0 + (0.0 - 1.0)", Some("1969-12-31T23:59:59+00:00"));
}

#[test]
fn test_eval_timestamp_3() {
    check_parse_and_eval("0", Some("1970-01-01T00:00:00+00:00"));
}

#[test]
fn test_eval_timestamp_4() {
    check_parse_and_eval("0.0", Some("1970-01-01T00:00:00+00:00"));
}

#[test]
fn test_eval_timestamp_5() {
    check_parse_and_eval("0.1", Some("1970-01-01T00:00:00.100+00:00"));
}

#[test]
fn test_eval_timestamp_6() {
    check_parse_and_eval("0.12345", Some("1970-01-01T00:00:00.123450+00:00"));
}

#[test]
fn test_eval_missing_bracket_1() {
    check_parse_and_eval("0.0 + (0.0 - 1.0", None);
}

#[test]
fn test_eval_duration_6() {
    check_parse_and_eval("2000-01-01T00:00:00Z + 1m2s3ms", Some("2000-01-01T00:01:02.003+00:00"));
}

#[test]
fn test_eval_different_tz_1() {
    check_parse_and_eval_tz(
        "2000-01-02T00:00:00Z",
        Some("2000-01-01T19:00:00-05:00"),
        &chrono_tz::US::Eastern,
    );
}

#[test]
fn instant_result_rerenders_and_reparses() {
    let input = "1d + 2h + 2000-01-01T00:00:00Z + 3m + 4s".to_string();
    let node = parse_expr(&input).unwrap().node;
    let first = match evaluate(node, now()).unwrap() {
        EvaluationResult::DateTime(i) => i,
        other => panic!("expected an instant, got {:?}", other),
    };
    let text = chrono::DateTime::from_timestamp_nanos(first.epoch_nanos).to_rfc3339();
    let node2 = parse_expr(&text).unwrap().node;
    let second = match evaluate(node2, now()).unwrap() {
        EvaluationResult::DateTime(i) => i,
        other => panic!("expected an instant, got {:?}", other),
    };
    assert_eq!(first.epoch_nanos, second.epoch_nanos);
}

#[test]
fn full_day_follows_the_instants_own_offset() {
    // 2001-01-01T01:01:01+02:00 floors to local midnight, two hours
    // before UTC midnight
    let input = "full_day(2001-01-01T01:01:01+02:00)".to_string();
    let node = parse_expr(&input).unwrap().node;
    let result = evaluate(node, now()).unwrap();
    match result {
        EvaluationResult::DateTime(i) => {
            let expected = chrono::DateTime::parse_from_rfc3339("2000-12-31T22:00:00Z")
                .unwrap()
                .timestamp_nanos_opt()
                .unwrap();
            assert_eq!(i.epoch_nanos, expected);
            assert_eq!(i.offset_secs, 7200);
        }
        other => panic!("expected an instant, got {:?}", other),
    }
}
