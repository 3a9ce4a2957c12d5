use yew_router::builder::{build_path, ValueSource};
use yew_router::matcher::{match_path, MatchError, MatcherSettings};
use yew_router::optimizer::parse_and_optimize;
use yew_router::roundtrip::{round_trips_by_name, round_trips_by_position};

#[test]
fn patterns_that_round_trip_by_name_are_told() {
    for (pattern, expected) in [
        ("/", true),
        ("/a/b", true),
        ("/a/{x}/{y}", true),
        ("/{*:x}/end/{2:y}", true),
        ("/{x}/{x}", false),
        ("/{}", false),
        ("/{x}/{*}", false),
        ("/{x}/{3}", false),
        ("/a[/b]", false),
        ("/a[/{x}]", true),
        ("/a[/{x}]/{x}", false),
        ("/a[/{x}]/{y}", true),
        ("/a[/b[/{x}]]", false),
        ("/a[/{y}[/{x}]]", true),
        ("/a[/{y}[/{y}]]", false),
        ("/a[/{x}][/{x}]", false),
        ("/a[/{x}][/{y}]", true),
    ] {
        let tokens = parse_and_optimize(pattern).expect("should parse");
        assert_eq!(round_trips_by_name(&tokens), expected, "{}", pattern);
    }
}

#[test]
fn patterns_that_round_trip_by_position_are_told() {
    for (pattern, expected) in [
        ("/", true),
        ("/a/{}/{x}/{*}", true),
        ("/a[/b]", false),
        ("/a/{}[/{}]", false),
    ] {
        let tokens = parse_and_optimize(pattern).expect("should parse");
        assert_eq!(round_trips_by_position(&tokens), expected, "{}", pattern);
    }
}

#[test]
fn what_is_told_to_round_trip_does() {
    let sensitive = MatcherSettings { case_insensitive: false };
    let patterns = [
        "/",
        "/a/{x}/{y}",
        "/{*:x}/end/{2:y}",
        "/a[/{x}]/{y}",
        "/a[/{y}/[/{x}]]/z",
        "/a[/{x}][/{y}]",
        "/{x}-{y}",
        "/a/{}/{b}/{*}",
        "/{2}/{}",
    ];
    let paths = [
        "/", "/a", "/a/", "/a/1", "/a/1/2", "/a/1/2/3", "/a/1//z", "/a/z", "/x/end/1/2",
        "/x/y/end/end/1/2", "/1-2", "/-", "/a//b/", "/a/1/b/c/d", "//", "/a/1/z", "/a/z/z",
    ];
    let mut tried = 0;
    for pattern in patterns {
        let tokens = parse_and_optimize(pattern).expect("should parse");
        for path in paths {
            if let Ok(captures) = match_path(&tokens, &sensitive, path) {
                if round_trips_by_name(&tokens) {
                    assert_eq!(
                        build_path(&tokens, &ValueSource::Named(captures.to_map())),
                        Ok(path.to_string()),
                        "{} on {} by name",
                        pattern,
                        path
                    );
                    tried += 1;
                }
                if round_trips_by_position(&tokens) {
                    assert_eq!(
                        build_path(&tokens, &ValueSource::Positional(captures.to_vec())),
                        Ok(path.to_string()),
                        "{} on {} by position",
                        pattern,
                        path
                    );
                    tried += 1;
                }
            }
        }
    }
    assert!(tried >= 20, "only {} round trips were tried", tried);
}

#[test]
fn many_greedy_captures_come_to_an_end() {
    let settings = MatcherSettings::default();
    let tokens = parse_and_optimize("/{*}/{*}/{*}/x/{*}/y").expect("should parse");
    let mut path = String::new();
    for _ in 0..24 {
        path.push_str("/ab");
    }
    assert_eq!(match_path(&tokens, &settings, &path).err(), Some(MatchError::Unsatisfiable));
    path.push_str("/x/c/y");
    let captures = match_path(&tokens, &settings, &path).expect("should match");
    let values = captures.to_vec();
    assert_eq!(values.len(), 4);
    assert_eq!(values[3], "c");
    assert_eq!(values[1], "ab");
    assert_eq!(values[2], "ab");
    assert_eq!(values[0].len(), 22 * 3 - 1);
}
