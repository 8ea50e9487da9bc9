use toggle_comment::address::{
    Address, AddressComponent, AddressPattern, MatchState,
};

fn range(pattern: Address) -> AddressPattern {
    AddressPattern { pattern, negated: false }
}

fn range_negated(pattern: Address) -> AddressPattern {
    AddressPattern { pattern, negated: true }
}

fn empty() -> MatchState {
    MatchState::empty()
}

#[test]
fn zero_address_always_matches() {
    let addr = range(Address::ZeroAddress);
    for l in [1, 2, 3, 4, 5] {
        assert!(addr.matches(l, "", &empty()).0);
    }
}

#[test]
fn zero_address_invert_never_matches() {
    let addr = range_negated(Address::ZeroAddress);
    for l in [1, 2, 3, 4, 5] {
        assert!(!addr.matches(l, "", &empty()).0);
    }
}

#[test]
fn one_address_matches_one_line() {
    let addr = range(Address::OneAddress(AddressComponent::Line(3)));
    assert!(addr.matches(3, "", &empty()).0);
    for l in [1, 2, 4, 5] {
        assert!(!addr.matches(l, "", &empty()).0);
    }
}

#[test]
fn one_address_inverted_matches_but_one_line() {
    let addr = range_negated(Address::OneAddress(AddressComponent::Line(3)));
    assert!(!addr.matches(3, "", &empty()).0);
    for l in [1, 2, 4, 5] {
        assert!(addr.matches(l, "", &empty()).0);
    }
}

#[test]
fn matches_range_lines() {
    let addr = range(Address::AddressRange(
        AddressComponent::Line(3),
        AddressComponent::Line(5),
    ));
    for l in [3, 4, 5] {
        assert!(addr.matches(l, "", &empty()).0);
    }
    for l in [2, 9] {
        assert!(!addr.matches(l, "", &empty()).0);
    }
}

#[test]
fn matches_range_lines_invert() {
    let addr = range_negated(Address::AddressRange(
        AddressComponent::Line(3),
        AddressComponent::Line(5),
    ));
    for l in [3, 4, 5] {
        assert!(!addr.matches(l, "", &empty()).0);
    }
    for l in [2, 9] {
        assert!(addr.matches(l, "", &empty()).0);
    }
}

#[test]
fn matches_range_relative_lines() {
    let addr = range(Address::AddressRange(
        AddressComponent::Line(3),
        AddressComponent::Relative(5),
    ));
    for l in [3, 8] {
        assert!(addr.matches(l, "", &empty()).0);
    }
    for l in [2, 9] {
        assert!(!addr.matches(l, "", &empty()).0);
    }
}

#[test]
fn matches_range_relative_lines_invert() {
    let addr = range_negated(Address::AddressRange(
        AddressComponent::Line(3),
        AddressComponent::Relative(5),
    ));
    for l in [3, 8] {
        assert!(!addr.matches(l, "", &empty()).0);
    }
    for l in [2, 9] {
        assert!(addr.matches(l, "", &empty()).0);
    }
}

#[test]
fn matches_regex_relative_range() {
    let re = regex::Regex::new("foo").unwrap();
    let addr = range(Address::AddressRange(
        AddressComponent::RegexPattern(re),
        AddressComponent::Relative(3),
    ));

    assert!(addr.matches(1, "foo", &empty()).0);
    let state = MatchState { left_match: Some(1), right_match: None };
    assert!(addr.matches(2, "match", &state).0);
    assert!(addr.matches(3, "match", &state).0);
    assert!(addr.matches(4, "match", &state).0);
    assert!(!addr.matches(5, "un-match", &state).0);
}

#[test]
fn matches_regex_absolute_range() {
    let re = regex::Regex::new("foo").unwrap();
    let addr = range(Address::AddressRange(
        AddressComponent::RegexPattern(re),
        AddressComponent::Line(4),
    ));

    assert!(addr.matches(1, "foo", &empty()).0);
    let state = MatchState { left_match: Some(1), right_match: None };
    assert!(addr.matches(2, "match", &state).0);
    assert!(addr.matches(3, "match", &state).0);
    assert!(addr.matches(4, "match", &state).0);
    assert!(!addr.matches(5, "un-match", &state).0);
}

#[test]
fn matches_regex_empty_absolute_range() {
    let re = regex::Regex::new("foo").unwrap();
    let addr = range(Address::AddressRange(
        AddressComponent::RegexPattern(re),
        AddressComponent::Line(2),
    ));

    assert!(!addr.matches(1, "un-match", &empty()).0);
    assert!(!addr.matches(2, "un-match", &empty()).0);
    assert!(addr.matches(3, "foo", &empty()).0);
    let state = MatchState { left_match: Some(3), right_match: None };
    assert!(!addr.matches(4, "un-match", &state).0);
    assert!(!addr.matches(5, "un-match", &state).0);
}

#[test]
fn matches_absolute_regex_end_range() {
    let re = regex::Regex::new("foo").unwrap();
    let addr = range(Address::AddressRange(
        AddressComponent::Line(2),
        AddressComponent::RegexPattern(re),
    ));

    assert!(!addr.matches(1, "un-match", &empty()).0);
    assert!(addr.matches(2, "match", &empty()).0);
    assert!(addr.matches(3, "match", &empty()).0);
    assert!(addr.matches(4, "foo", &empty()).0);
    let state = MatchState { left_match: None, right_match: Some(4) };
    assert!(!addr.matches(5, "un-match", &state).0);
}

#[test]
fn matches_double_regex_range() {
    let re1 = regex::Regex::new("foo").unwrap();
    let re2 = regex::Regex::new("bar").unwrap();
    let addr = range(Address::AddressRange(
        AddressComponent::RegexPattern(re1),
        AddressComponent::RegexPattern(re2),
    ));

    assert!(!addr.matches(1, "un-match", &empty()).0);
    assert!(addr.matches(2, "foo", &empty()).0);
    let state = MatchState { left_match: Some(2), right_match: None };
    assert!(addr.matches(3, "match", &state).0);
    assert!(addr.matches(4, "bar", &state).0);
    let state = MatchState { left_match: Some(2), right_match: Some(4) };
    assert!(!addr.matches(5, "un-match", &state).0);
}

#[test]
fn matches_double_regex_range_update() {
    let re1 = regex::Regex::new("foo").unwrap();
    let re2 = regex::Regex::new("bar").unwrap();
    let addr = range(Address::AddressRange(
        AddressComponent::RegexPattern(re1),
        AddressComponent::RegexPattern(re2),
    ));

    let (is_match, state) = addr.matches(1, "un-match", &empty());
    assert!(!is_match);
    let (is_match, state) = addr.matches(2, "foo", &state);
    assert!(is_match);
    let (is_match, state) = addr.matches(3, "match", &state);
    assert!(is_match);
    let (is_match, state) = addr.matches(4, "bar", &state);
    assert!(is_match);
    let (is_match, _state) = addr.matches(5, "un-match", &state);
    assert!(!is_match);
}

#[test]
fn matches_double_regex_range_with_multiple_matches_on_same_line() {
    let re1 = regex::Regex::new("foo").unwrap();
    let re2 = regex::Regex::new("bar").unwrap();
    let addr = range(Address::AddressRange(
        AddressComponent::RegexPattern(re1),
        AddressComponent::RegexPattern(re2),
    ));

    let (is_match, state) = addr.matches(1, "foo", &empty());
    assert!(is_match, "line 1 failed");
    let (is_match, state) = addr.matches(2, "bar", &state);
    assert!(is_match, "line 2 failed");
    let (is_match, state) = addr.matches(3, "bar", &state);
    assert!(!is_match, "line 3 failed");
    let (is_match, state) = addr.matches(4, "foo bar", &state);
    assert!(is_match, "line 4 failed");
    let (is_match, _state) = addr.matches(5, "match", &state);
    assert!(is_match, "line 5 failed");
}

#[test]
fn match_state_update_overwrites() {
    let mut state = MatchState::empty();
    assert_eq!(state.left_match, None);
    assert_eq!(state.right_match, None);
    let other = state.match_left(7).match_right(9);
    state.update(other);
    assert_eq!(state.left_match, Some(7));
    assert_eq!(state.right_match, Some(9));
    assert_eq!(state.unchanged(), state);
}
