use toggle_comment::address::MatchState;
use toggle_comment::parse::try_parse_pattern;
use toggle_comment::select::{comment_lines, get_matches, process_lines};
use toggle_comment::transform::CommentingMode;

fn lines(xs: &[&str]) -> Vec<String> {
    xs.iter().map(|s| s.to_string()).collect()
}

#[test]
fn line_address_only_matches_one() {
    let pattern = try_parse_pattern("2").unwrap();
    let input = lines(&["one", "two", "three"]);

    let matches = get_matches(&pattern, &input, MatchState::empty());
    assert_eq!(matches.len(), 3);
    assert_eq!(matches[1], (true, lines(&["two"])));
}

#[test]
fn line_range_address_matches_block() {
    let pattern = try_parse_pattern("2,4").unwrap();
    let input = lines(&["one", "two", "three", "four"]);

    let matches = get_matches(&pattern, &input, MatchState::empty());
    assert_eq!(matches.len(), 2);
    assert_eq!(matches[1], (true, lines(&["two", "three", "four"])));
}

#[test]
fn comments_the_second_line() {
    let pattern = try_parse_pattern("2").unwrap();
    let input = lines(&["one", "two", "three"]);
    let output = process_lines(&pattern, &CommentingMode::Comment, "# ", &input);
    assert_eq!(output, lines(&["one", "# two", "three"]));
}

#[test]
fn comments_a_middle_range() {
    let pattern = try_parse_pattern("2,4").unwrap();
    let input = lines(&["one", "two", "three", "four", "five"]);
    let output = process_lines(&pattern, &CommentingMode::Comment, "# ", &input);
    assert_eq!(output, lines(&["one", "# two", "# three", "# four", "five"]));
}

#[test]
fn toggles_a_range_as_one_block() {
    let pattern = try_parse_pattern("1,4").unwrap();
    let input = lines(&["a = 1", "b = 2", "#c = 3", "d = 4"]);
    let once = process_lines(&pattern, &CommentingMode::Toggle, "# ", &input);
    assert_eq!(once, lines(&["# a = 1", "# b = 2", "# #c = 3", "# d = 4"]));
    let twice = process_lines(&pattern, &CommentingMode::Toggle, "# ", &once);
    assert_eq!(twice, input);
}

#[test]
fn regex_address_selects_matching_lines() {
    let pattern = try_parse_pattern("/two/").unwrap();
    let input = lines(&["one", "two", "three", "twofold"]);
    let output = process_lines(&pattern, &CommentingMode::Comment, "# ", &input);
    assert_eq!(output, lines(&["one", "# two", "three", "# twofold"]));
}

#[test]
fn double_regex_range_restarts_after_close() {
    let pattern = try_parse_pattern("/begin/,/end/").unwrap();
    let input = lines(&[
        "before", "begin", "inside", "end", "between", "begin", "end", "after",
    ]);
    let output = process_lines(&pattern, &CommentingMode::Comment, "# ", &input);
    assert_eq!(
        output,
        lines(&[
            "before", "# begin", "# inside", "# end", "between", "# begin", "# end", "after",
        ])
    );
}

#[test]
fn zero_start_lets_the_range_close_on_line_one() {
    let input = lines(&["one", "two", "three"]);

    let zero = try_parse_pattern("0,/one/").unwrap();
    let output = process_lines(&zero, &CommentingMode::Comment, "# ", &input);
    assert_eq!(output, lines(&["# one", "two", "three"]));

    let one = try_parse_pattern("1,/one/").unwrap();
    let output = process_lines(&one, &CommentingMode::Comment, "# ", &input);
    assert_eq!(output, lines(&["# one", "# two", "# three"]));
}

#[test]
fn negated_address_complements_the_selection() {
    let pattern = try_parse_pattern("2!").unwrap();
    let input = lines(&["one", "two", "three"]);
    let output = comment_lines(&input, &pattern, "# ", &CommentingMode::Comment);
    assert_eq!(output, lines(&["# one", "two", "# three"]));
}

#[test]
fn uncomment_mode_strips_selected_lines() {
    let pattern = try_parse_pattern("1,2").unwrap();
    let input = lines(&["# one", "# two", "# three"]);
    let output = process_lines(&pattern, &CommentingMode::Uncomment, "# ", &input);
    assert_eq!(output, lines(&["one", "two", "# three"]));
}

#[test]
fn counted_range_spans_count_plus_one_lines() {
    let pattern = try_parse_pattern("2,+1").unwrap();
    let input = lines(&["one", "two", "three", "four"]);
    let output = process_lines(&pattern, &CommentingMode::Comment, "# ", &input);
    assert_eq!(output, lines(&["one", "# two", "# three", "four"]));
}

#[test]
fn custom_prefix_is_honoured() {
    let pattern = try_parse_pattern("1").unwrap();
    let input = lines(&["fn main() {"]);
    let output = process_lines(&pattern, &CommentingMode::Comment, "// ", &input);
    assert_eq!(output, lines(&["// fn main() {"]));
}

#[test]
fn per_line_toggle_flips_each_line_on_its_own() {
    let pattern = try_parse_pattern("/= /").unwrap();
    let input = lines(&["# a = 1", "b = 2", "c"]);
    let output = process_lines(&pattern, &CommentingMode::Toggle, "# ", &input);
    assert_eq!(output, lines(&["a = 1", "# b = 2", "c"]));
}

#[test]
fn uncomment_leaves_unprefixed_lines_alone() {
    let pattern = try_parse_pattern("").unwrap();
    let input = lines(&["plain", "  indented", "# commented"]);
    let output = process_lines(&pattern, &CommentingMode::Uncomment, "# ", &input);
    assert_eq!(output, lines(&["plain", "  indented", "commented"]));
}
