use toggle_comment::address::{Address, AddressComponent, AddressPattern};
use toggle_comment::parse::{try_parse_component, try_parse_pattern, PatternSyntaxError};

#[test]
fn parses_line_number_component() {
    match try_parse_component("42") {
        Ok(AddressComponent::Line(n)) => assert_eq!(n, 42),
        other => panic!("expected a line number, got {:?}", other.is_ok()),
    }
}

#[test]
fn parses_relative_component() {
    match try_parse_component("+7") {
        Ok(AddressComponent::Relative(n)) => assert_eq!(n, 7),
        other => panic!("expected a relative offset, got {:?}", other.is_ok()),
    }
}

#[test]
fn parses_regex_component() {
    match try_parse_component("/foo.*bar/") {
        Ok(AddressComponent::RegexPattern(re)) => assert_eq!(re.as_str(), "foo.*bar"),
        other => panic!("expected a regex, got {:?}", other.is_ok()),
    }
}

#[test]
fn rejects_garbage_component() {
    assert!(matches!(try_parse_component("abc"), Err(PatternSyntaxError::Malformed)));
    assert!(matches!(try_parse_component(""), Err(PatternSyntaxError::Malformed)));
    assert!(matches!(try_parse_component("+x"), Err(PatternSyntaxError::Malformed)));
    assert!(matches!(try_parse_component("/unterminated"), Err(PatternSyntaxError::Malformed)));
}

#[test]
fn rejects_bad_regex_component() {
    assert!(matches!(try_parse_component("/(/"), Err(PatternSyntaxError::BadRegex)));
}

#[test]
fn rejects_oversized_line_number() {
    assert!(matches!(try_parse_component("99999999999999999999999999"), Err(PatternSyntaxError::Malformed)));
}

#[test]
fn empty_pattern_matches_everything() {
    let p = try_parse_pattern("").unwrap();
    assert!(matches!(p.pattern, Address::ZeroAddress));
    assert!(!p.negated);
}

#[test]
fn bang_alone_negates_the_empty_address() {
    let p = try_parse_pattern("!").unwrap();
    assert!(matches!(p.pattern, Address::ZeroAddress));
    assert!(p.negated);
}

#[test]
fn parses_single_line_pattern() {
    let p = try_parse_pattern("3").unwrap();
    assert!(matches!(
        p.pattern,
        Address::OneAddress(AddressComponent::Line(3))
    ));
    assert!(!p.negated);
}

#[test]
fn parses_negated_range_pattern() {
    let p = try_parse_pattern("2,4!").unwrap();
    assert!(matches!(
        p.pattern,
        Address::AddressRange(AddressComponent::Line(2), AddressComponent::Line(4))
    ));
    assert!(p.negated);
}

#[test]
fn parses_regex_range_pattern() {
    let p = try_parse_pattern("/start/,/end/").unwrap();
    match p.pattern {
        Address::AddressRange(
            AddressComponent::RegexPattern(a),
            AddressComponent::RegexPattern(b),
        ) => {
            assert_eq!(a.as_str(), "start");
            assert_eq!(b.as_str(), "end");
        },
        _ => panic!("expected a double-regex range"),
    }
}

#[test]
fn parses_counted_range_pattern() {
    let p = try_parse_pattern("5,+2").unwrap();
    assert!(matches!(
        p.pattern,
        Address::AddressRange(AddressComponent::Line(5), AddressComponent::Relative(2))
    ));
}

#[test]
fn rejects_relative_sole_address() {
    assert!(matches!(try_parse_pattern("+2"), Err(PatternSyntaxError::RelativeFirst)));
}

#[test]
fn rejects_relative_range_start() {
    assert!(matches!(try_parse_pattern("+2,5"), Err(PatternSyntaxError::RelativeFirst)));
}

#[test]
fn rejects_three_part_pattern() {
    assert!(matches!(try_parse_pattern("1,2,3"), Err(PatternSyntaxError::Malformed)));
}

#[test]
fn rejects_bad_regex_in_pattern() {
    assert!(matches!(try_parse_pattern("1,/(/"), Err(PatternSyntaxError::BadRegex)));
    assert!(matches!(try_parse_pattern("/[/"), Err(PatternSyntaxError::BadRegex)));
}

#[test]
fn rejects_malformed_left_before_bad_right() {
    assert!(matches!(try_parse_pattern("x,/(/"), Err(PatternSyntaxError::Malformed)));
}
