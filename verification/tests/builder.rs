use yew_router::builder::{build_path, BuildError, ValueSource};
use yew_router::captures::CaptureMap;
use yew_router::matcher::{match_path, MatcherSettings};
use yew_router::optimizer::parse_and_optimize;

fn named(pairs: &[(&str, &str)]) -> ValueSource {
    let mut map = CaptureMap::new();
    for (name, value) in pairs {
        map.insert(name.to_string(), value.to_string());
    }
    ValueSource::Named(map)
}

fn positional(values: &[&str]) -> ValueSource {
    ValueSource::Positional(values.iter().map(|v| v.to_string()).collect())
}

#[test]
fn literals_are_written_as_they_are() {
    let tokens = parse_and_optimize("/a/b").expect("should parse");
    assert_eq!(build_path(&tokens, &positional(&[])), Ok("/a/b".to_string()));
    assert_eq!(build_path(&tokens, &named(&[])), Ok("/a/b".to_string()));
}

#[test]
fn captures_are_written_by_position() {
    let tokens = parse_and_optimize("/a/{x}/b/{}/{*}").expect("should parse");
    assert_eq!(
        build_path(&tokens, &positional(&["1", "2", "3/4"])),
        Ok("/a/1/b/2/3/4".to_string())
    );
}

#[test]
fn captures_are_written_by_name() {
    let tokens = parse_and_optimize("/a/{x}/b/{2:y}/{*:z}").expect("should parse");
    assert_eq!(
        build_path(&tokens, &named(&[("z", "5"), ("x", "1"), ("y", "2/3")])),
        Ok("/a/1/b/2/3/5".to_string())
    );
}

#[test]
fn missing_value_fails_the_build() {
    let tokens = parse_and_optimize("/a/{x}/{y}").expect("should parse");
    assert_eq!(build_path(&tokens, &positional(&["1"])), Err(BuildError::MissingValue));
    assert_eq!(build_path(&tokens, &named(&[("x", "1")])), Err(BuildError::MissingValue));
}

#[test]
fn unnamed_capture_takes_no_value_by_name() {
    let tokens = parse_and_optimize("/a/{}").expect("should parse");
    assert_eq!(build_path(&tokens, &named(&[("x", "1")])), Err(BuildError::UnnamedCapture));
}

#[test]
fn optional_group_without_its_values_writes_nothing() {
    let tokens = parse_and_optimize("/a[/b/{x}]/c").expect("should parse");
    assert_eq!(build_path(&tokens, &named(&[])), Ok("/a/c".to_string()));
    assert_eq!(build_path(&tokens, &named(&[("x", "1")])), Ok("/a/b/1/c".to_string()));
    assert_eq!(build_path(&tokens, &positional(&[])), Ok("/a/c".to_string()));
    assert_eq!(build_path(&tokens, &positional(&["1"])), Ok("/a/b/1/c".to_string()));
}

#[test]
fn optional_group_takes_no_value_where_it_fails() {
    let tokens = parse_and_optimize("/a[/{x}/{y}]/{z}").expect("should parse");
    assert_eq!(build_path(&tokens, &positional(&["1"])), Ok("/a/1".to_string()));
    assert_eq!(build_path(&tokens, &positional(&["1", "2"])), Err(BuildError::MissingValue));
    assert_eq!(build_path(&tokens, &positional(&["1", "2", "3"])), Ok("/a/1/2/3".to_string()));
}

#[test]
fn building_from_what_was_matched_gives_the_path_back() {
    let sensitive = MatcherSettings { case_insensitive: false };
    let cases = [
        ("/capture/number/{num}", "/capture/number/22"),
        ("/capture/number/{num}", "/capture/number/"),
        ("/{*:x}/end", "/a/b/c/end"),
        ("/{2:a}/x/{b}", "/1/2/x/3"),
        ("/a[/b/{x}]/c", "/a/c"),
        ("/a[/b/{x}]/c", "/a/b/1/c"),
        ("/", "/"),
    ];
    for (pattern, path) in cases {
        let tokens = parse_and_optimize(pattern).expect("should parse");
        let captures = match_path(&tokens, &sensitive, path).expect("should match");
        assert_eq!(
            build_path(&tokens, &ValueSource::Named(captures.to_map())),
            Ok(path.to_string()),
            "{} by name",
            pattern
        );
    }
    let cases = [
        ("/capture/{}/{num}", "/capture/number/22"),
        ("/{*}/end", "/a/b/c/end"),
        ("/{2}/x/{b}", "/1/2/x/3"),
    ];
    for (pattern, path) in cases {
        let tokens = parse_and_optimize(pattern).expect("should parse");
        let captures = match_path(&tokens, &sensitive, path).expect("should match");
        assert_eq!(
            build_path(&tokens, &ValueSource::Positional(captures.to_vec())),
            Ok(path.to_string()),
            "{} by position",
            pattern
        );
    }
}

#[test]
fn building_gives_the_path_back_up_to_case() {
    let insensitive = MatcherSettings { case_insensitive: true };
    let tokens = parse_and_optimize("/Users/{name}/Profile").expect("should parse");
    let captures = match_path(&tokens, &insensitive, "/users/Alice/PROFILE").expect("should match");
    let built = build_path(&tokens, &ValueSource::Named(captures.to_map())).expect("should build");
    assert_eq!(built, "/Users/Alice/Profile");
    assert!(built.eq_ignore_ascii_case("/users/Alice/PROFILE"));
}

#[test]
fn optional_group_without_capture_does_not_round_trip() {
    let sensitive = MatcherSettings { case_insensitive: false };
    let tokens = parse_and_optimize("/a[/index]").expect("should parse");
    let captures = match_path(&tokens, &sensitive, "/a").expect("should match");
    assert_eq!(
        build_path(&tokens, &ValueSource::Named(captures.to_map())),
        Ok("/a/index".to_string())
    );
}
