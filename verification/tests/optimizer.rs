use yew_router::optimizer::{optimize, parse_and_optimize, parser_tokens_of, OptimizedToken};
use yew_router::parser::parse;
use yew_router::parser::token::{CaptureVariant, ParseErrorKind, RouteParserToken};

#[test]
fn hello_is_one_literal() {
    let tokens = parse_and_optimize("/hello").expect("should parse");
    assert_eq!(tokens, vec![OptimizedToken::Match("/hello".to_string())]);
}

#[test]
fn separators_and_literals_merge() {
    let raw = vec![
        RouteParserToken::Separator,
        RouteParserToken::Match("a".to_string()),
        RouteParserToken::Separator,
        RouteParserToken::Match("b".to_string()),
    ];
    assert_eq!(optimize(raw), vec![OptimizedToken::Match("/a/b".to_string())]);
}

#[test]
fn captures_divide_literals() {
    let tokens = parse_and_optimize("/a/{x}/b/{*}").expect("should parse");
    assert_eq!(
        tokens,
        vec![
            OptimizedToken::Match("/a/".to_string()),
            OptimizedToken::Capture(CaptureVariant::Named("x".to_string())),
            OptimizedToken::Match("/b/".to_string()),
            OptimizedToken::Capture(CaptureVariant::ManyUnnamed),
        ]
    );
}

#[test]
fn optional_groups_are_optimized_inside() {
    let tokens = parse_and_optimize("/a[/b/c[/d/{e}]]/f").expect("should parse");
    assert_eq!(
        tokens,
        vec![
            OptimizedToken::Match("/a".to_string()),
            OptimizedToken::Optional(vec![
                OptimizedToken::Match("/b/c".to_string()),
                OptimizedToken::Optional(vec![
                    OptimizedToken::Match("/d/".to_string()),
                    OptimizedToken::Capture(CaptureVariant::Named("e".to_string())),
                ]),
            ]),
            OptimizedToken::Match("/f".to_string()),
        ]
    );
}

#[test]
fn bare_separator_is_one_literal() {
    let tokens = parse_and_optimize("/").expect("should parse");
    assert_eq!(tokens, vec![OptimizedToken::Match("/".to_string())]);
}

#[test]
fn optimizing_nothing_gives_nothing() {
    assert_eq!(optimize(Vec::new()), Vec::<OptimizedToken>::new());
}

#[test]
fn optimizing_twice_changes_nothing() {
    for pattern in ["/", "/hello", "/a/{x}/b", "/a[/b[/{c}]]/d/{*:rest}", "/{2:x}y/{}"] {
        let once = optimize(parse(pattern).expect("should parse"));
        let twice = optimize(parser_tokens_of(&once));
        assert_eq!(once, twice, "{}", pattern);
    }
}

#[test]
fn parse_and_optimize_fails_as_parse_does() {
    let e = parse_and_optimize("/path{}{}").expect_err("Should not validate");
    assert_eq!(e.kind, ParseErrorKind::AdjacentCaptures);
    assert_eq!(e.position, 7);
    assert_eq!(Err(e), parse("/path{}{}"));
}

#[test]
fn optimized_tokens_can_be_cloned() {
    let tokens = parse_and_optimize("/a[/{b}]").expect("should parse");
    assert_eq!(tokens.clone(), tokens);
}
