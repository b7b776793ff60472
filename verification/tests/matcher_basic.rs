use timecalc::cursor::InputPointer;
use timecalc::matchers::{CharRange, CharRangeParser, Concat, Matcher};

#[test]
fn letter_matcher_with_letter_is_ok() {
    let matcher = CharRange('a', 'z');
    let input = String::from("x");
    let pp = InputPointer { input: &input, pos: 0 };
    let result = matcher.match_input(pp);
    assert!(result.is_ok(), "result was: {:?}", result)
}

#[test]
fn letter_matcher_with_garbage_is_not_ok() {
    let matcher = CharRange('a', 'z');
    let input = String::from("1");
    let pp = InputPointer { input: &input, pos: 0 };
    let result = matcher.match_input(pp);
    assert!(!result.is_ok(), "result was: {:?}", result)
}

#[test]
fn letter_parser_with_letter_is_ok() {
    let parser = CharRangeParser('a', 'z');
    let input = String::from("x");
    let pp = InputPointer { input: &input, pos: 0 };
    let result = parser.parse(&pp);
    assert!(result.is_ok(), "result was: {:?}", result)
}

#[test]
fn letter_parser_with_garbage_is_not_ok() {
    let parser = CharRangeParser('a', 'z');
    let input = String::from("1");
    let pp = InputPointer { input: &input, pos: 0 };
    let result = parser.parse(&pp);
    assert!(!result.is_ok(), "result was: {:?}", result)
}

#[test]
fn test_concat_variants() {
    test_concat("1234", Some(2), Some(3), Some("123"));
    test_concat("1234", Some(2), Some(5), Some("1234"));
    test_concat("1234", Some(6), Some(11), None);
    test_concat("1234", Some(4), Some(4), Some("1234"));
    test_concat("1234", None, Some(4), Some("1234"));
    test_concat("1234", Some(1), None, Some("1234"));
    test_concat("1234", None, None, Some("1234"));
    test_concat("123x", None, None, Some("123"));
    test_concat("12xx", Some(3), None, None);
}

fn test_concat(
    input: &str,
    at_least: Option<u32>,
    at_most: Option<u32>,
    expected_match: Option<&str>,
) {
    let digit = CharRangeParser('0', '9');
    let parser = Concat { parser: &digit, at_least, at_most };
    let owned = String::from(input);
    let pointer = InputPointer { input: &owned, pos: 0 };
    let result = parser.parse(&pointer);
    match expected_match {
        Some(expected_match) => {
            assert!(result.is_ok(), "expected match for input {}, but didn't get one", input);
            let actual_match = result.as_ref().unwrap().matched;
            assert_eq!(
                expected_match, actual_match,
                "expected match {} but got {}",
                expected_match, actual_match
            );
        }
        None => {
            assert!(
                !result.is_ok(),
                "expected to fail for input {} but got match {}",
                input,
                result.unwrap().matched
            );
        }
    }
}

#[test]
fn cursor_operations() {
    let input = String::from("hello world");
    let p = InputPointer::from_string(&input);
    assert!(!p.is_end());
    assert_eq!(p.rest(), "hello world");
    let p2 = p.advance(6);
    assert_eq!(p2.rest(), "world");
    assert_eq!(p2.peek_n(3), "wor");
    let p3 = p2.at_pos(100);
    assert!(p3.is_end());
    assert_eq!(p3.rest(), "");
}
