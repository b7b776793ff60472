use timecalc::ast::Node;
use timecalc::cursor::InputPointer;
use timecalc::parsers::{
    consume_repeated, consume_sequence, ConsumeRepeated, DateTime, FirstOf, Literal, ParserKind,
    SignedDuration,
};
use timecalc::TimeDelta;

fn seconds(n: i64) -> Node {
    Node::Duration(TimeDelta::new(n * 1_000_000_000))
}

#[test]
fn test_consume_repeated_1() {
    let input = "1s2s3s".to_string();
    let result = consume_repeated(
        &ParserKind::SignedDuration(SignedDuration),
        InputPointer::from_string(&input),
        ConsumeRepeated::OneOrMore,
        "bla",
    );
    assert!(result.is_ok(), "expected ok, was: {:?}", result);
    let result = result.unwrap();
    let expected_nodes = vec![seconds(1), seconds(2), seconds(3)];
    assert_eq!(result.nodes, expected_nodes);
    assert_eq!(result.pointer.rest(), "");
}

#[test]
fn test_consume_repeated_2() {
    let input = "1s2sxx".to_string();
    let result = consume_repeated(
        &ParserKind::SignedDuration(SignedDuration),
        InputPointer::from_string(&input),
        ConsumeRepeated::OneOrMore,
        "bla",
    );
    assert!(result.is_ok(), "expected ok, was: {:?}", result);
    let result = result.unwrap();
    let expected_nodes = vec![seconds(1), seconds(2)];
    assert_eq!(result.nodes, expected_nodes);
    assert_eq!(result.pointer.rest(), "xx");
}

#[test]
fn consume_repeated_one_or_more_needs_a_match() {
    let input = "xx".to_string();
    let result = consume_repeated(
        &ParserKind::SignedDuration(SignedDuration),
        InputPointer::from_string(&input),
        ConsumeRepeated::OneOrMore,
        "bla",
    );
    let err = result.unwrap_err();
    assert_eq!(err.message, "bla");
    let input2 = "xx".to_string();
    let ok = consume_repeated(
        &ParserKind::SignedDuration(SignedDuration),
        InputPointer::from_string(&input2),
        ConsumeRepeated::ZeroOrMore,
        "bla",
    )
    .unwrap();
    assert!(ok.nodes.is_empty());
}

#[test]
fn parsers_test_parse_first_of() {
    let parser = FirstOf::new(vec![
        ParserKind::SignedDuration(SignedDuration),
        ParserKind::DateTime(DateTime),
    ]);
    let input = String::from("1s + bla");
    let p = InputPointer::from_string(&input);
    let result = parser.parse(p);
    assert!(result.is_ok(), "expected ok, was {:?}", result);
    assert_eq!(result.unwrap().node, seconds(1));
}

#[test]
fn lib_test_parse_first_of() {
    let parser = FirstOf::new(vec![
        ParserKind::SignedDuration(SignedDuration),
        ParserKind::DateTime(DateTime),
    ]);
    let input = String::from("1s + bla");
    let p = InputPointer::from_string(&input);
    let result = parser.parse(p);
    assert!(result.is_ok(), "expected ok, was {:?}", result);
    assert_eq!(result.unwrap().node, seconds(1));
}

#[test]
fn test_consume_sequence_1() {
    let input = "1s+2s+3s".to_string();
    let p = InputPointer::from_string(&input);
    let parsers: Vec<ParserKind> = vec![
        ParserKind::SignedDuration(SignedDuration),
        ParserKind::Literal(Literal::new("+")),
        ParserKind::SignedDuration(SignedDuration),
    ];
    let result = consume_sequence(&parsers, p);
    let result = result.expect("expected ok");
    assert_eq!(
        result.nodes,
        vec![
            seconds(1),
            Node::Literal { literal: "+".to_string(), skip: false },
            seconds(2),
        ]
    );
    assert_eq!(result.pointer.rest(), "+3s");
}

#[test]
fn test_consume_sequence_2() {
    let input = "1s-2s-3s".to_string();
    let p = InputPointer::from_string(&input);
    let parsers: Vec<ParserKind> = vec![
        ParserKind::SignedDuration(SignedDuration),
        ParserKind::Literal(Literal::new("+")),
        ParserKind::SignedDuration(SignedDuration),
    ];
    let result = consume_sequence(&parsers, p);
    let result = result.expect_err("expected err");
    assert_eq!(result.pointer.rest(), "1s-2s-3s");
}
