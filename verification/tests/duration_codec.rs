use timecalc::duration::{DAY_NS, HOUR_NS, MINUTE_NS, MS_NS, NS, SECOND_NS, US_NS};
use timecalc::TimeDelta;

#[test]
fn format_large() {
    let d = TimeDelta::new(
        1 * DAY_NS + 2 * HOUR_NS + 3 * MINUTE_NS + 4 * SECOND_NS + 5 * MS_NS + 6 * US_NS + 7 * NS,
    );
    assert_eq!("1d2h3m4s5ms6us7ns", d.as_short_format());
}

#[test]
fn parse_large() {
    let actual = TimeDelta::from_short_format("1d2h3m4s5ms6us7ns").unwrap();
    let d = TimeDelta::new(
        1 * DAY_NS + 2 * HOUR_NS + 3 * MINUTE_NS + 4 * SECOND_NS + 5 * MS_NS + 6 * US_NS + 7 * NS,
    );
    assert_eq!(actual, d);
}

#[test]
fn format_3() {
    let d = TimeDelta::new(DAY_NS + MINUTE_NS + MS_NS);
    assert_eq!("1d1m1ms", d.as_short_format());
}

#[test]
fn parse_3() {
    let d = TimeDelta::new(DAY_NS + MINUTE_NS + MS_NS);
    let actual = TimeDelta::from_short_format("1d1m1ms").unwrap();
    assert_eq!(actual, d);
}

#[test]
fn format_zero() {
    let d = TimeDelta::new(0);
    assert_eq!("0s", d.as_short_format());
}

#[test]
fn parse_zero() {
    let d = TimeDelta::new(0);
    let actual = TimeDelta::from_short_format("0s").unwrap();
    assert_eq!(actual, d);
}

#[test]
fn format_neg_small() {
    let d = TimeDelta::new(-3 * HOUR_NS);
    assert_eq!("-3h", d.as_short_format());
}

#[test]
fn parse_neg_small() {
    let d = TimeDelta::new(-3 * HOUR_NS);
    let actual = TimeDelta::from_short_format("-3h").unwrap();
    assert_eq!(actual, d);
}

#[test]
fn format_neg_large() {
    let d = TimeDelta::new(-(DAY_NS + HOUR_NS + MINUTE_NS + SECOND_NS + MS_NS + US_NS + NS));
    assert_eq!("-1d1h1m1s1ms1us1ns", d.as_short_format());
}

#[test]
fn parse_neg_large() {
    let d = TimeDelta::new(-(DAY_NS + HOUR_NS + MINUTE_NS + SECOND_NS + MS_NS + US_NS + NS));
    let actual = TimeDelta::from_short_format("-1d1h1m1s1ms1us1ns").unwrap();
    assert_eq!(actual, d);
}

#[test]
fn fail_on_not_full_match() {
    assert!(TimeDelta::from_short_format("1dxxx").is_err());
}

#[test]
fn roundtrip_many_values() {
    let values = [
        0i64,
        1,
        -1,
        5 * MS_NS,
        -5 * MS_NS,
        42 * DAY_NS + 5 * MS_NS,
        123 * HOUR_NS + 59 * MINUTE_NS + 59 * SECOND_NS + 999 * MS_NS + 999 * US_NS + 999 * NS,
        i64::MAX,
        i64::MIN,
        i64::MIN + 1,
    ];
    for v in values {
        let d = TimeDelta::new(v);
        let text = d.as_short_format();
        let back = TimeDelta::from_short_format(&text).unwrap();
        assert_eq!(back, d, "round trip failed for {}", text);
    }
}

#[test]
fn parse_lone_minus_is_zero() {
    assert_eq!(TimeDelta::from_short_format("-").unwrap(), TimeDelta::new(0));
}

#[test]
fn parse_empty_is_zero() {
    assert_eq!(TimeDelta::from_short_format("").unwrap(), TimeDelta::new(0));
}

#[test]
fn parse_out_of_range_fails() {
    assert!(TimeDelta::from_short_format("9999999999999999999999d").is_err());
    assert!(TimeDelta::from_short_format("9223372036854775808ns").is_err());
    assert!(TimeDelta::from_short_format("-9223372036854775808ns").is_ok());
}

#[test]
fn parse_out_of_order_units_fails() {
    assert!(TimeDelta::from_short_format("1s2d").is_err());
    assert!(TimeDelta::from_short_format("1d1d").is_err());
}

#[test]
fn match_duration_prefix() {
    assert_eq!(timecalc::duration::match_duration("1s + 2s"), Some("1s"));
    assert_eq!(timecalc::duration::match_duration("5ms rest"), Some("5ms"));
    assert_eq!(timecalc::duration::match_duration("xyz"), None);
    assert_eq!(timecalc::duration::match_duration(""), None);
}
