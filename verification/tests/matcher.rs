use yew_router::matcher::{match_path, Captured, MatchError, MatcherSettings, RouteMatcher};
use yew_router::optimizer::{parse_and_optimize, OptimizedToken};
use yew_router::parser::token::CaptureVariant;

fn matcher(pattern: &str, case_insensitive: bool) -> RouteMatcher {
    RouteMatcher::new(pattern, MatcherSettings { case_insensitive }).expect("should parse")
}

#[test]
fn default_settings_ignore_case() {
    assert!(MatcherSettings::default().case_insensitive);
}

#[test]
fn bare_separator_matches_only_the_root() {
    let tokens = parse_and_optimize("/").expect("should parse");
    let settings = MatcherSettings::default();
    assert_eq!(match_path(&tokens, &settings, "/").map(|c| c.entries.len()), Ok(0));
    assert_eq!(match_path(&tokens, &settings, "/a").err(), Some(MatchError::TrailingPath));
    assert_eq!(match_path(&tokens, &settings, "").err(), Some(MatchError::LiteralMismatch));
    assert_eq!(match_path(&tokens, &settings, "a").err(), Some(MatchError::LiteralMismatch));
}

#[test]
fn named_capture_takes_a_segment() {
    let m = matcher("/capture/number/{num}", true);
    let (rest, map) = m.capture_route_into_map("/capture/number/22").expect("should match");
    assert_eq!(rest, "");
    assert_eq!(map.get("num"), Some(&"22".to_string()));
    assert_eq!(map.get("other"), None);
}

#[test]
fn named_capture_takes_an_empty_segment() {
    let m = matcher("/capture/number/{num}", true);
    let (rest, map) = m.capture_route_into_map("/capture/number/").expect("should match");
    assert_eq!(rest, "");
    assert_eq!(map.get("num"), Some(&"".to_string()));
}

#[test]
fn single_capture_stops_at_the_next_separator() {
    let m = matcher("/{a}", true);
    let (rest, values) = m.capture_route_into_vec("/x/y").expect("should match");
    assert_eq!(rest, "/y");
    assert_eq!(values, vec!["x".to_string()]);
}

#[test]
fn greedy_capture_leaves_what_the_rest_needs() {
    let m = matcher("/{*}/end", true);
    let (rest, values) = m.capture_route_into_vec("/a/b/c/end").expect("should match");
    assert_eq!(rest, "");
    assert_eq!(values, vec!["a/b/c".to_string()]);
}

#[test]
fn greedy_capture_takes_the_longest() {
    let m = matcher("/{*:x}/end", true);
    let (rest, map) = m.capture_route_into_map("/a/end/b/end/zzz").expect("should match");
    assert_eq!(rest, "/zzz");
    assert_eq!(map.get("x"), Some(&"a/end/b".to_string()));
}

#[test]
fn greedy_capture_at_the_end_takes_all() {
    let m = matcher("/files/{*:path}", true);
    let (rest, map) = m.capture_route_into_map("/files/a/b/c.txt").expect("should match");
    assert_eq!(rest, "");
    assert_eq!(map.get("path"), Some(&"a/b/c.txt".to_string()));
    let (rest, map) = m.capture_route_into_map("/files/").expect("should match");
    assert_eq!(rest, "");
    assert_eq!(map.get("path"), Some(&"".to_string()));
}

#[test]
fn greedy_capture_fails_where_the_rest_never_matches() {
    let m = matcher("/{*}/end", true);
    assert_eq!(
        m.capture_route_into_vec("/a/b/c").err(),
        Some(MatchError::Unsatisfiable)
    );
}

#[test]
fn two_greedy_captures() {
    let m = matcher("/{*:a}/x/{*:b}", true);
    let (rest, map) = m.capture_route_into_map("/1/x/2/x/3").expect("should match");
    assert_eq!(rest, "");
    assert_eq!(map.get("a"), Some(&"1/x/2".to_string()));
    assert_eq!(map.get("b"), Some(&"3".to_string()));
}

#[test]
fn counted_capture_takes_its_segments() {
    let m = matcher("/{2:pair}/{}", true);
    let (rest, values) = m.capture_route_into_vec("/a/b/c/d").expect("should match");
    assert_eq!(rest, "/d");
    assert_eq!(values, vec!["a/b".to_string(), "c".to_string()]);
}

#[test]
fn counted_capture_needs_its_segments() {
    let m = matcher("/{3}", true);
    assert_eq!(
        m.capture_route_into_vec("/a/b").err(),
        Some(MatchError::InsufficientSegments)
    );
    let (rest, values) = m.capture_route_into_vec("/a/b/").expect("the third segment is empty");
    assert_eq!(rest, "");
    assert_eq!(values, vec!["a/b/".to_string()]);
}

#[test]
fn counted_capture_of_no_segments_takes_nothing() {
    let m = matcher("/{0}x", true);
    let (rest, values) = m.capture_route_into_vec("/xyz").expect("should match");
    assert_eq!(rest, "yz");
    assert_eq!(values, vec!["".to_string()]);
}

#[test]
fn literal_case_follows_the_settings() {
    let tokens = vec![OptimizedToken::Match("Hello".to_string())];
    let insensitive = MatcherSettings { case_insensitive: true };
    let sensitive = MatcherSettings { case_insensitive: false };
    assert!(match_path(&tokens, &insensitive, "hello").is_ok());
    assert!(match_path(&tokens, &insensitive, "HELLO").is_ok());
    assert_eq!(
        match_path(&tokens, &sensitive, "hello").err(),
        Some(MatchError::LiteralMismatch)
    );
    assert!(match_path(&tokens, &sensitive, "Hello").is_ok());
}

#[test]
fn case_is_folded_for_ascii_letters_only() {
    let tokens = vec![OptimizedToken::Match("/\u{c9}t\u{e9}".to_string())];
    let insensitive = MatcherSettings { case_insensitive: true };
    assert!(match_path(&tokens, &insensitive, "/\u{c9}T\u{e9}").is_ok());
    assert_eq!(
        match_path(&tokens, &insensitive, "/\u{e9}t\u{e9}").err(),
        Some(MatchError::LiteralMismatch)
    );
    let edge = vec![OptimizedToken::Match("/@[`{".to_string())];
    assert!(match_path(&edge, &insensitive, "/@[`{").is_ok());
    assert_eq!(
        match_path(&edge, &insensitive, "/`{@[").err(),
        Some(MatchError::LiteralMismatch)
    );
}

#[test]
fn captured_values_keep_their_case() {
    let m = matcher("/User/{name}", true);
    let (_, map) = m.capture_route_into_map("/user/Alice").expect("should match");
    assert_eq!(map.get("name"), Some(&"Alice".to_string()));
}

#[test]
fn absent_optional_group_captures_nothing() {
    let m = matcher("/a[/b/{x}]/c", true);
    let (rest, map) = m.capture_route_into_map("/a/c").expect("should match");
    assert_eq!(rest, "");
    assert_eq!(map.get("x"), None);
    assert!(!map.contains_key("x"));
    let (rest, map) = m.capture_route_into_map("/a/b/1/c").expect("should match");
    assert_eq!(rest, "");
    assert_eq!(map.get("x"), Some(&"1".to_string()));
}

#[test]
fn optional_group_that_fails_half_way_takes_nothing() {
    let m = matcher("/a[/{x}/b]/{y}", true);
    let (rest, captures) = m.capture_route("/a/1").expect("should match");
    assert_eq!(rest, "");
    assert_eq!(
        captures.entries,
        vec![Captured { name: Some("y".to_string()), value: "1".to_string() }]
    );
}

#[test]
fn optional_group_is_not_given_up_once_matched() {
    let m = matcher("/a[/b]/b/c", true);
    assert_eq!(m.capture_route("/a/b/c").err(), Some(MatchError::LiteralMismatch));
    assert!(m.capture_route("/a/b/b/c").is_ok());
}

#[test]
fn trailing_path_is_handed_back() {
    let m = matcher("/a/{x}", true);
    let (rest, values) = m.capture_route_into_vec("/a/1/b/2").expect("should match");
    assert_eq!(rest, "/b/2");
    assert_eq!(values, vec!["1".to_string()]);
    assert_eq!(
        match_path(&m.tokens, &m.settings, "/a/1/b/2").err(),
        Some(MatchError::TrailingPath)
    );
}

#[test]
fn trailing_tokens_fail_the_match() {
    let m = matcher("/a/b", true);
    assert_eq!(m.capture_route("/a").err(), Some(MatchError::LiteralMismatch));
}

#[test]
fn captures_come_in_order_with_their_names() {
    let m = matcher("/{a}/{}/{2:b}/{*}", true);
    let (rest, captures) = m.capture_route("/1/2/3/4/5/6").expect("should match");
    assert_eq!(rest, "");
    assert_eq!(
        captures.entries,
        vec![
            Captured { name: Some("a".to_string()), value: "1".to_string() },
            Captured { name: None, value: "2".to_string() },
            Captured { name: Some("b".to_string()), value: "3/4".to_string() },
            Captured { name: None, value: "5/6".to_string() },
        ]
    );
    assert_eq!(
        captures.to_vec(),
        vec!["1".to_string(), "2".to_string(), "3/4".to_string(), "5/6".to_string()]
    );
    let map = captures.to_map();
    assert_eq!(map.get("a"), Some(&"1".to_string()));
    assert_eq!(map.get("b"), Some(&"3/4".to_string()));
    assert_eq!(captures.entries[0].clone(), captures.entries[0]);
}

#[test]
fn a_name_twice_keeps_the_first_value() {
    let m = matcher("/{x}/{x}", true);
    let (_, map) = m.capture_route_into_map("/1/2").expect("should match");
    assert_eq!(map.get("x"), Some(&"1".to_string()));
}

#[test]
fn path_beyond_ascii_is_matched_by_characters() {
    let m = matcher("/caf\u{e9}/{x}", false);
    let (rest, values) = m.capture_route_into_vec("/caf\u{e9}/\u{4e2d}\u{6587}/r").expect("should match");
    assert_eq!(rest, "/r");
    assert_eq!(values, vec!["\u{4e2d}\u{6587}".to_string()]);
}

#[test]
fn matcher_is_refused_with_its_pattern() {
    let e = RouteMatcher::new("/{", MatcherSettings::default()).expect_err("should not parse");
    assert_eq!(e.position, 1);
    let m = matcher("/{x}", false);
    assert_eq!(
        m.tokens,
        vec![
            OptimizedToken::Match("/".to_string()),
            OptimizedToken::Capture(CaptureVariant::Named("x".to_string())),
        ]
    );
    assert!(!m.settings.case_insensitive);
}
