use timecalc::ast::{Node, Oper};
use timecalc::cursor::InputPointer;
use timecalc::parsers::{parse_expr, DateTime, ExprParser, SignedDuration};
use timecalc::duration::{DAY_NS, HOUR_NS, SECOND_NS};
use timecalc::{Instant, TimeDelta};

fn instant_of_rfc3339(s: &str) -> Instant {
    let d = chrono::DateTime::parse_from_rfc3339(s).unwrap();
    Instant::new(d.timestamp_nanos_opt().unwrap(), d.offset().local_minus_utc())
}

#[test]
fn parsers_test_parse_signed_duration() {
    check_parse_duration("-123h", Some(-123 * HOUR_NS));
    check_parse_duration("123h", Some(123 * HOUR_NS));
    check_parse_duration("123d", Some(123 * DAY_NS));
    check_parse_duration("123x", None);
    check_parse_duration("x123d", None);
    check_parse_duration("123", None);
    check_parse_duration("-1d2s3ns", Some(-(DAY_NS + 2 * SECOND_NS + 3)));
}

fn check_parse_duration(input: &str, expected_ns: Option<i64>) {
    let parser = SignedDuration;
    let s = String::from(input);
    let p = InputPointer::from_string(&s);
    let result = parser.parse(p);
    if let Some(ns) = expected_ns {
        assert!(result.is_ok(), "result not ok: {:?}", result);
        assert_eq!(result.unwrap().node, Node::Duration(TimeDelta::new(ns)));
    } else {
        assert!(result.is_err(), "result not err: {:?}", result);
    }
}

#[test]
fn parsers_test_parse_datetime() {
    check_parse_datetime("2000-01-01T00:00:00Z", Some("2000-01-01T00:00:00Z"));
    check_parse_datetime("2000-01-01T00:00:00+00:00", Some("2000-01-01T00:00:00+00:00"));
    check_parse_datetime("2000-01-01T00:00:ZZZ", None);
}

#[test]
fn lib_test_parse_datetime() {
    check_parse_datetime("2000-01-01T00:00:00Z", Some("2000-01-01T00:00:00Z"));
    check_parse_datetime("2000-01-01T00:00:00+00:00", Some("2000-01-01T00:00:00+00:00"));
    check_parse_datetime("2000-01-01T00:00:ZZZ", None);
}

fn check_parse_datetime(input: &str, expected: Option<&str>) {
    let parser = DateTime;
    let s = String::from(input);
    let p = InputPointer::from_string(&s);
    let result = parser.parse(p);
    if let Some(expected) = expected {
        assert!(result.is_ok(), "result not ok: {:?}", result);
        let actual_node = result.unwrap().node;
        assert_eq!(actual_node, Node::DateTime(instant_of_rfc3339(expected)));
    } else {
        assert!(result.is_err(), "result not err: {:?}", result);
    }
}

#[test]
fn datetime_epoch_value() {
    let s = String::from("2000-01-01T00:00:00Z");
    let result = ExprParser.parse(InputPointer::from_string(&s)).unwrap();
    match result.node {
        Node::Expr(children) => match &children[0] {
            Node::DateTime(i) => {
                assert_eq!(i.epoch_nanos, 946_684_800_000_000_000);
                assert_eq!(i.offset_secs, 0);
            }
            other => panic!("expected a datetime, got {:?}", other),
        },
        other => panic!("expected an expression, got {:?}", other),
    }
}

#[test]
fn datetime_offset_is_kept() {
    let s = String::from("2000-01-01T00:00:00+02:00");
    let result = DateTime.parse(InputPointer::from_string(&s)).unwrap();
    match result.node {
        Node::DateTime(i) => {
            assert_eq!(i.offset_secs, 7200);
            assert_eq!(i.epoch_nanos, 946_684_800_000_000_000 - 7200 * 1_000_000_000);
        }
        other => panic!("expected a datetime, got {:?}", other),
    }
}

#[test]
fn test_expr_parser_1() {
    check_expr_parser("2000-01-01T00:00:00Z", Some(Node::Expr(vec![datetime_node()])));
}

#[test]
fn test_expr_parser_2() {
    check_expr_parser(" 2000-01-01T00:00:00Z", Some(Node::Expr(vec![datetime_node()])));
}

#[test]
fn test_expr_parser_3a() {
    check_expr_parser("2000-01-01T00:00:00Z+1s", None);
}

#[test]
fn test_expr_parser_3b() {
    check_expr_parser(
        "2000-01-01T00:00:00Z + 1s",
        Some(Node::Expr(vec![
            datetime_node(),
            Node::Expr(vec![Node::OperNode {
                oper: Oper::Plus,
                node: Box::new(duration_1s_node()),
            }]),
        ])),
    );
}

#[test]
fn test_expr_parser_4() {
    check_expr_parser(
        "2000-01-01T00:00:00Z + 1s + 2s",
        Some(Node::Expr(vec![
            datetime_node(),
            Node::Expr(vec![
                Node::OperNode { oper: Oper::Plus, node: Box::new(duration_1s_node()) },
                Node::OperNode { oper: Oper::Plus, node: Box::new(duration_2s_node()) },
            ]),
        ])),
    );
}

#[test]
fn test_expr_parser_5a() {
    check_expr_parser("1s+2000-01-01T00:00:00Z", None);
}

#[test]
fn test_expr_parser_5b() {
    check_expr_parser(
        "1s + 2000-01-01T00:00:00Z",
        Some(Node::Expr(vec![
            duration_1s_node(),
            Node::Expr(vec![Node::OperNode {
                oper: Oper::Plus,
                node: Box::new(datetime_node()),
            }]),
        ])),
    );
}

#[test]
fn test_expr_parser_6() {
    check_expr_parser(
        " 1s + 2000-01-01T00:00:00Z ",
        Some(Node::Expr(vec![
            duration_1s_node(),
            Node::Expr(vec![Node::OperNode {
                oper: Oper::Plus,
                node: Box::new(datetime_node()),
            }]),
        ])),
    );
}

#[test]
fn test_expr_parser_7() {
    check_expr_parser(
        "1s + 2s + 3s - 2000-01-01T00:00:00Z - 1s + 2s + 3s",
        Some(Node::Expr(vec![
            duration_1s_node(),
            Node::Expr(vec![
                Node::OperNode { oper: Oper::Plus, node: Box::new(duration_2s_node()) },
                Node::OperNode { oper: Oper::Plus, node: Box::new(duration_3s_node()) },
                Node::OperNode { oper: Oper::Minus, node: Box::new(datetime_node()) },
                Node::OperNode { oper: Oper::Minus, node: Box::new(duration_1s_node()) },
                Node::OperNode { oper: Oper::Plus, node: Box::new(duration_2s_node()) },
                Node::OperNode { oper: Oper::Plus, node: Box::new(duration_3s_node()) },
            ]),
        ])),
    );
}

#[test]
fn test_subtract_date_1() {
    check_expr_parser(
        "2000-01-01T00:00:00Z - 2000-01-01T00:00:00Z",
        Some(Node::Expr(vec![
            datetime_node(),
            Node::Expr(vec![Node::OperNode {
                oper: Oper::Minus,
                node: Box::new(datetime_node()),
            }]),
        ])),
    )
}

#[test]
fn test_subtract_date_2() {
    check_expr_parser(
        "2000-01-01T00:00:00Z + 1s - 2000-01-01T00:00:00Z + 2000-01-01T00:00:00Z",
        Some(Node::Expr(vec![
            datetime_node(),
            Node::Expr(vec![
                Node::OperNode { oper: Oper::Plus, node: Box::new(duration_1s_node()) },
                Node::OperNode { oper: Oper::Minus, node: Box::new(datetime_node()) },
                Node::OperNode { oper: Oper::Plus, node: Box::new(datetime_node()) },
            ]),
        ])),
    )
}

#[test]
fn test_parse_brackets_1() {
    check_expr_parser(
        "1s - (2s + 3s) - (1s + 2s)",
        Some(Node::Expr(vec![
            duration_1s_node(),
            Node::Expr(vec![
                Node::OperNode {
                    oper: Oper::Minus,
                    node: Box::new(Node::Expr(vec![Node::Expr(vec![
                        duration_2s_node(),
                        Node::Expr(vec![Node::OperNode {
                            oper: Oper::Plus,
                            node: Box::new(duration_3s_node()),
                        }]),
                    ])])),
                },
                Node::OperNode {
                    oper: Oper::Minus,
                    node: Box::new(Node::Expr(vec![Node::Expr(vec![
                        duration_1s_node(),
                        Node::Expr(vec![Node::OperNode {
                            oper: Oper::Plus,
                            node: Box::new(duration_2s_node()),
                        }]),
                    ])])),
                },
            ]),
        ])),
    );
}

#[test]
fn test_func_call_1() {
    check_expr_parser(
        "full_day(now)",
        Some(Node::Expr(vec![Node::FuncAry1 {
            name: "full_day".to_string(),
            arg1: Box::new(Node::Expr(vec![Node::Now])),
        }])),
    );
}

#[test]
fn test_timestamp_1() {
    check_expr_parser("946684800.000", Some(Node::Expr(vec![datetime_node_utc()])));
}

#[test]
fn test_parse_missing_bracket_1() {
    check_expr_parser("0.0 + (0.0 - 1.0", None);
}

#[test]
fn sequence_failure_reports_sequence_start() {
    // the signed-term element "+ xx" fails somewhere inside, but the
    // repetition is left exactly where the previous match ended: the
    // reported stuck position is right after "1d " (the trailing
    // whitespace is consumed), never in the middle of the failed
    // element
    let input = String::from("1d + xx");
    let err = parse_expr(&input).unwrap_err();
    assert_eq!(err.pointer.pos, 3);
    assert_eq!(err.message, "not all input matched");
}

fn check_expr_parser(input: &str, expected: Option<Node>) {
    let parser = ExprParser;
    let input = input.to_string();
    let pointer = InputPointer::from_string(&input);
    let result = parser.parse(pointer);
    if let Some(expected) = expected {
        let parse_ok = if let Ok(parse_ok) = result {
            parse_ok
        } else {
            panic!("parser failed: {:?}", result)
        };

        assert!(
            parse_ok.pointer.is_end(),
            "expected parser to parse to the end, rest={}",
            parse_ok.pointer.rest()
        );
        assert_eq!(parse_ok.node, expected, "input: {}", input)
    } else {
        assert!(
            !(pointer.is_end() && result.is_ok()),
            "expected not a full match or not ok result={:?}",
            result
        );
    }
}

fn duration_1s_node() -> Node {
    Node::Duration(TimeDelta::new(SECOND_NS))
}

fn duration_2s_node() -> Node {
    Node::Duration(TimeDelta::new(2 * SECOND_NS))
}

fn duration_3s_node() -> Node {
    Node::Duration(TimeDelta::new(3 * SECOND_NS))
}

fn datetime_node() -> Node {
    let d = chrono::DateTime::parse_from_rfc3339("2000-01-01T00:00:00Z").unwrap();
    Node::DateTime(Instant::new(d.timestamp_nanos_opt().unwrap(), d.offset().local_minus_utc()))
}

fn datetime_node_utc() -> Node {
    datetime_node()
}
