use yew_router::parser::parse;
use yew_router::parser::path::{path_parser, section_matchers};
use yew_router::parser::token::{CaptureVariant, ParseErrorKind, RouteParserToken};

#[test]
fn path_must_start_with_separator() {
    path_parser("hello").expect_err("Should reject at absence of /");
    let parsed = parse("/hello").expect("should parse");
    assert_eq!(
        parsed,
        vec![RouteParserToken::Separator, RouteParserToken::Match("hello".to_string())]
    )
}

#[test]
fn path_cant_contain_multiple_matches_in_a_row_0() {
    parse("/path*{match}").expect_err("Should not validate");
    let (rest, _) = path_parser("/path*{match}").expect("the path before the star parses");
    assert_eq!(rest, "*{match}");
}

#[test]
fn path_cant_contain_multiple_matches_in_a_row_1() {
    parse("/path{match1}{match2}").expect_err("Should not validate");
    let (rest, _) = path_parser("/path{match1}{match2}").expect("the first capture parses");
    assert_eq!(rest, "{match2}");
}

#[test]
fn path_cant_contain_multiple_matches_in_a_row_2() {
    let e = parse("/path{}{}").expect_err("Should not validate");
    assert_eq!(e.kind, ParseErrorKind::AdjacentCaptures);
    assert_eq!(e.position, 7);
    let (rest, tokens) = path_parser("/path{}{}").expect("the first capture parses");
    assert_eq!(rest, "{}");
    assert_eq!(tokens.len(), 3);
    assert_eq!(tokens[2], RouteParserToken::Capture(CaptureVariant::Unnamed));
}

#[test]
fn section_matchers_falis_to_match() {
    section_matchers("{aoeu").expect_err("Should not complete");
}

#[test]
fn bare_separator_is_one_token() {
    let parsed = parse("/").expect("the root parses");
    assert_eq!(parsed, vec![RouteParserToken::Separator]);
}

#[test]
fn empty_pattern_is_refused() {
    let e = parse("").expect_err("an empty pattern has no separator");
    assert_eq!(e.kind, ParseErrorKind::MissingSeparator);
    assert_eq!(e.position, 0);
}

#[test]
fn pattern_without_leading_separator_is_refused() {
    let e = parse("hello").expect_err("a pattern starts with a separator");
    assert_eq!(e.kind, ParseErrorKind::MissingSeparator);
    assert_eq!(e.position, 0);
}

#[test]
fn the_six_captures_parse() {
    let parsed = parse("/{}/{*}/{3}/{name}/{*:rest}/{2:pair}").expect("should parse");
    assert_eq!(
        parsed,
        vec![
            RouteParserToken::Separator,
            RouteParserToken::Capture(CaptureVariant::Unnamed),
            RouteParserToken::Separator,
            RouteParserToken::Capture(CaptureVariant::ManyUnnamed),
            RouteParserToken::Separator,
            RouteParserToken::Capture(CaptureVariant::NumberedUnnamed { sections: 3 }),
            RouteParserToken::Separator,
            RouteParserToken::Capture(CaptureVariant::Named("name".to_string())),
            RouteParserToken::Separator,
            RouteParserToken::Capture(CaptureVariant::ManyNamed("rest".to_string())),
            RouteParserToken::Separator,
            RouteParserToken::Capture(CaptureVariant::NumberedNamed {
                sections: 2,
                name: "pair".to_string()
            }),
        ]
    );
}

#[test]
fn literal_and_capture_alternate_in_a_segment() {
    let parsed = parse("/a{x}b{y}").expect("should parse");
    assert_eq!(
        parsed,
        vec![
            RouteParserToken::Separator,
            RouteParserToken::Match("a".to_string()),
            RouteParserToken::Capture(CaptureVariant::Named("x".to_string())),
            RouteParserToken::Match("b".to_string()),
            RouteParserToken::Capture(CaptureVariant::Named("y".to_string())),
        ]
    );
}

#[test]
fn empty_segments_and_trailing_separator_parse() {
    assert_eq!(
        parse("/a/").expect("should parse"),
        vec![
            RouteParserToken::Separator,
            RouteParserToken::Match("a".to_string()),
            RouteParserToken::Separator,
        ]
    );
    assert_eq!(
        parse("//").expect("should parse"),
        vec![RouteParserToken::Separator, RouteParserToken::Separator]
    );
}

#[test]
fn optional_group_parses_to_nested_tokens() {
    let parsed = parse("/a[/b[/{c}]]/d").expect("should parse");
    assert_eq!(
        parsed,
        vec![
            RouteParserToken::Separator,
            RouteParserToken::Match("a".to_string()),
            RouteParserToken::Optional(vec![
                RouteParserToken::Separator,
                RouteParserToken::Match("b".to_string()),
                RouteParserToken::Optional(vec![
                    RouteParserToken::Separator,
                    RouteParserToken::Capture(CaptureVariant::Named("c".to_string())),
                ]),
            ]),
            RouteParserToken::Separator,
            RouteParserToken::Match("d".to_string()),
        ]
    );
}

#[test]
fn unterminated_capture_is_refused() {
    let e = parse("/{aoeu").expect_err("the brace is not closed");
    assert_eq!(e.kind, ParseErrorKind::UnterminatedCapture);
    assert_eq!(e.position, 1);
    let e = parse("/abc{aoeu").expect_err("the brace is not closed");
    assert_eq!(e.kind, ParseErrorKind::UnterminatedCapture);
    assert_eq!(e.position, 4);
}

#[test]
fn invalid_capture_is_refused() {
    for pattern in ["/{a b}", "/{*x}", "/{*:}", "/{1x}", "/{2:}", "/{2:3}", "/{a/b}", "/{-}"] {
        let e = parse(pattern).expect_err("no form of a capture");
        assert_eq!(e.kind, ParseErrorKind::InvalidCapture, "{}", pattern);
        assert_eq!(e.position, 1, "{}", pattern);
    }
}

#[test]
fn count_too_large_is_refused() {
    let e = parse("/{99999999999999999999999999999999999999999999}").expect_err("too large");
    assert_eq!(e.kind, ParseErrorKind::InvalidCount);
    assert_eq!(e.position, 1);
    let e = parse("/{99999999999999999999999999999999999999999999:n}").expect_err("too large");
    assert_eq!(e.kind, ParseErrorKind::InvalidCount);
}

#[test]
fn count_with_leading_zeros_parses() {
    assert_eq!(
        parse("/{007}").expect("should parse"),
        vec![
            RouteParserToken::Separator,
            RouteParserToken::Capture(CaptureVariant::NumberedUnnamed { sections: 7 }),
        ]
    );
}

#[test]
fn adjacent_captures_are_refused() {
    let e = parse("/path{match1}{match2}").expect_err("Should not validate");
    assert_eq!(e.kind, ParseErrorKind::AdjacentCaptures);
    assert_eq!(e.position, 13);
    let e = parse("/[/{a}{b}]").expect_err("Should not validate");
    assert_eq!(e.kind, ParseErrorKind::AdjacentCaptures);
    assert_eq!(e.position, 6);
}

#[test]
fn stray_characters_are_refused() {
    let e = parse("/path*{match}").expect_err("Should not validate");
    assert_eq!(e.kind, ParseErrorKind::UnexpectedInput);
    assert_eq!(e.position, 5);
    let e = parse("/a]").expect_err("no group is open");
    assert_eq!(e.kind, ParseErrorKind::UnexpectedInput);
    assert_eq!(e.position, 2);
    let e = parse("/a?b").expect_err("a query is no part of a path");
    assert_eq!(e.kind, ParseErrorKind::UnexpectedInput);
    assert_eq!(e.position, 2);
    let e = parse("[/a]{x}").expect_err("a capture needs a separator or a literal before it");
    assert_eq!(e.kind, ParseErrorKind::UnexpectedInput);
    assert_eq!(e.position, 4);
}

#[test]
fn optional_group_errors() {
    let e = parse("/a[/b").expect_err("the group is not closed");
    assert_eq!(e.kind, ParseErrorKind::UnterminatedOptional);
    assert_eq!(e.position, 2);
    let e = parse("/a[]").expect_err("the group is empty");
    assert_eq!(e.kind, ParseErrorKind::MissingSeparator);
    assert_eq!(e.position, 3);
    let e = parse("/a[b]").expect_err("the group starts with no separator");
    assert_eq!(e.kind, ParseErrorKind::MissingSeparator);
    assert_eq!(e.position, 3);
    let e = parse("/a[/b*]").expect_err("a star stands in the group");
    assert_eq!(e.kind, ParseErrorKind::UnexpectedInput);
    assert_eq!(e.position, 5);
}

#[test]
fn section_matchers_hand_back_the_rest() {
    let (rest, tokens) = section_matchers("ab{x}cd/ef").expect("should parse");
    assert_eq!(rest, "/ef");
    assert_eq!(
        tokens,
        vec![
            RouteParserToken::Match("ab".to_string()),
            RouteParserToken::Capture(CaptureVariant::Named("x".to_string())),
            RouteParserToken::Match("cd".to_string()),
        ]
    );
    let e = section_matchers("").expect_err("nothing to read");
    assert_eq!(e.kind, ParseErrorKind::UnexpectedInput);
    let e = section_matchers("/a").expect_err("a separator is no matcher");
    assert_eq!(e.kind, ParseErrorKind::UnexpectedInput);
    assert_eq!(e.position, 0);
}

#[test]
fn path_parser_stops_at_a_group() {
    let (rest, tokens) = path_parser("/a[/b]").expect("should parse");
    assert_eq!(rest, "[/b]");
    assert_eq!(
        tokens,
        vec![RouteParserToken::Separator, RouteParserToken::Match("a".to_string())]
    );
}

#[test]
fn literal_holds_characters_beyond_ascii() {
    let parsed = parse("/caf\u{e9}-\u{4e2d}.html").expect("should parse");
    assert_eq!(
        parsed,
        vec![
            RouteParserToken::Separator,
            RouteParserToken::Match("caf\u{e9}-\u{4e2d}.html".to_string()),
        ]
    );
    let (rest, _) = path_parser("/\u{e9}*x").expect("should parse");
    assert_eq!(rest, "*x");
}

#[test]
fn tokens_can_be_cloned() {
    let parsed = parse("/a[/{b}]").expect("should parse");
    let copy = parsed.clone();
    assert_eq!(parsed, copy);
}

#[test]
fn error_tells_the_offending_part() {
    let pattern = "/caf\u{e9}/{a}{b}/x";
    let e = parse(pattern).expect_err("Should not validate");
    assert_eq!(e.kind, ParseErrorKind::AdjacentCaptures);
    assert_eq!(e.position, 9);
    assert_eq!(e.offending(pattern), "{b}/x");
    assert_eq!(e.offending("/a"), "");
    let e = parse("").expect_err("Should not validate");
    assert_eq!(e.offending(""), "");
}
