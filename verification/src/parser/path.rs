//! The path of a pattern: separators, each followed by the matchers of its
//! segment.

use vstd::prelude::*;
use crate::parser::capture::{capture, capture_at, literal_at, match_specific};
use crate::parser::token::{ParseError, ParseErrorKind, ParserTokenSpec, RouteParserToken, parser_tokens_view};
use crate::text::chars_of;

verus! {

/// The matchers that follow one another from `pos` on, and the position behind
/// the last of them. After a capture only a literal may follow, after a
/// literal only a capture: two captures never stand side by side.
pub open spec fn sections_after(s: Seq<char>, pos: int, after_capture: bool) -> (
    Seq<ParserTokenSpec>,
    int,
)
    decreases s.len() - pos,
{
    let next = if after_capture {
        literal_at(s, pos)
    } else {
        capture_at(s, pos)
    };
    match next {
        Ok((token, end)) => {
            if pos < end <= s.len() {
                let rest = sections_after(s, end, !after_capture);
                (seq![token] + rest.0, rest.1)
            } else {
                (seq![token], end)
            }
        },
        Err(_) => (Seq::empty(), pos),
    }
}

/// The matchers of one segment, from `pos` on: a literal or a capture, then
/// what may follow it. At least one is needed.
pub open spec fn sections_at(s: Seq<char>, pos: int) -> Result<
    (Seq<ParserTokenSpec>, int),
    ParseError,
> {
    let starts_capture = 0 <= pos < s.len() && s[pos] == '{';
    let first = if starts_capture {
        capture_at(s, pos)
    } else {
        literal_at(s, pos)
    };
    match first {
        Ok((token, end)) => {
            let rest = sections_after(s, end, starts_capture);
            Ok((seq![token] + rest.0, rest.1))
        },
        Err(e) => Err(e),
    }
}

/// The separator at `pos`, with the position behind it.
pub open spec fn separator_at(s: Seq<char>, pos: int) -> Result<(ParserTokenSpec, int), ParseError> {
    if 0 <= pos < s.len() && s[pos] == '/' {
        Ok((ParserTokenSpec::Separator, pos + 1))
    } else {
        Err(ParseError { kind: ParseErrorKind::MissingSeparator, position: pos as usize })
    }
}

/// The segments from `pos` on, as many as there are: each a separator and the
/// matchers behind it, if any. With them comes the position behind the last.
pub open spec fn segments_at(s: Seq<char>, pos: int) -> (Seq<ParserTokenSpec>, int)
    decreases s.len() - pos,
{
    if 0 <= pos < s.len() && s[pos] == '/' {
        let (sections, after) = match sections_at(s, pos + 1) {
            Ok(found) => found,
            Err(_) => (Seq::empty(), pos + 1),
        };
        if pos < after <= s.len() {
            let rest = segments_at(s, after);
            (seq![ParserTokenSpec::Separator] + sections + rest.0, rest.1)
        } else {
            (seq![ParserTokenSpec::Separator] + sections, after)
        }
    } else {
        (Seq::empty(), pos)
    }
}

/// The path that starts at `pos`: one segment or more. It starts with a
/// separator.
pub open spec fn path_at(s: Seq<char>, pos: int) -> Result<(Seq<ParserTokenSpec>, int), ParseError> {
    if 0 <= pos < s.len() && s[pos] == '/' {
        Ok(segments_at(s, pos))
    } else {
        Err(ParseError { kind: ParseErrorKind::MissingSeparator, position: pos as usize })
    }
}

/// Whether an executable result is the one that the model gives.
pub open spec fn tokens_result_is(
    r: Result<(Vec<RouteParserToken>, usize), ParseError>,
    model: Result<(Seq<ParserTokenSpec>, int), ParseError>,
) -> bool {
    match r {
        Ok((tokens, end)) => model == Ok::<(Seq<ParserTokenSpec>, int), ParseError>(
            (parser_tokens_view(tokens@), end as int),
        ),
        Err(e) => model == Err::<(Seq<ParserTokenSpec>, int), ParseError>(e),
    }
}

/// Whether a result that hands back the rest of the text `i` is the one that
/// the model gives.
pub open spec fn rest_result_is(
    i: Seq<char>,
    r: Result<(&str, Vec<RouteParserToken>), ParseError>,
    model: Result<(Seq<ParserTokenSpec>, int), ParseError>,
) -> bool {
    match r {
        Ok((rest, tokens)) => {
            &&& model matches Ok((found, end))
            &&& found == parser_tokens_view(tokens@)
            &&& 0 <= end <= i.len()
            &&& rest@ == i.subrange(end, i.len() as int)
        },
        Err(e) => model == Err::<(Seq<ParserTokenSpec>, int), ParseError>(e),
    }
}

/// The models of a sequence that grew by one token.
pub proof fn lemma_view_push(tokens: Seq<RouteParserToken>, token: RouteParserToken)
    ensures
        parser_tokens_view(tokens.push(token)) == parser_tokens_view(tokens).push(token@),
{
    assert(parser_tokens_view(tokens.push(token)) =~= parser_tokens_view(tokens).push(token@));
}

/// The models of two sequences put together.
pub proof fn lemma_view_add(a: Seq<RouteParserToken>, b: Seq<RouteParserToken>)
    ensures
        parser_tokens_view(a + b) == parser_tokens_view(a) + parser_tokens_view(b),
{
    assert(parser_tokens_view(a + b) =~= parser_tokens_view(a) + parser_tokens_view(b));
}

/// Reads a separator at `pos`.
pub fn separator_token(chars: &Vec<char>, pos: usize) -> (r: Result<
    (RouteParserToken, usize),
    ParseError,
>)
    ensures
        crate::parser::capture::token_result_is(r, separator_at(chars@, pos as int)),
{
    if pos < chars.len() && chars[pos] == '/' {
        Ok((RouteParserToken::Separator, pos + 1))
    } else {
        Err(ParseError { kind: ParseErrorKind::MissingSeparator, position: pos })
    }
}

/// Reads the matchers of one segment from `pos` on.
pub fn section_matchers_at(chars: &Vec<char>, pos: usize) -> (r: Result<
    (Vec<RouteParserToken>, usize),
    ParseError,
>)
    ensures
        tokens_result_is(r, sections_at(chars@, pos as int)),
        r matches Ok((tokens, end)) ==> pos < end <= chars.len() && tokens.len() > 0,
{
    let starts_capture = pos < chars.len() && chars[pos] == '{';
    let first = if starts_capture {
        capture(chars, pos)
    } else {
        match_specific(chars, pos)
    };
    let (token, first_end) = match first {
        Ok(found) => found,
        Err(e) => {
            return Err(e);
        },
    };
    let ghost head = token@;
    let mut tokens: Vec<RouteParserToken> = Vec::new();
    tokens.push(token);
    let mut at: usize = first_end;
    let mut after_capture = starts_capture;
    assert(parser_tokens_view(tokens@) =~= seq![head]);
    loop
        invariant
            pos < at <= chars.len(),
            tokens.len() > 0,
            seq![head] + sections_after(chars@, first_end as int, starts_capture).0
                == parser_tokens_view(tokens@) + sections_after(
                chars@,
                at as int,
                after_capture,
            ).0,
            sections_after(chars@, first_end as int, starts_capture).1 == sections_after(
                chars@,
                at as int,
                after_capture,
            ).1,
        ensures
            pos < at <= chars.len(),
            tokens.len() > 0,
            seq![head] + sections_after(chars@, first_end as int, starts_capture).0
                == parser_tokens_view(tokens@),
            sections_after(chars@, first_end as int, starts_capture).1 == at,
        decreases chars.len() - at,
    {
        let next = if after_capture {
            match_specific(chars, at)
        } else {
            capture(chars, at)
        };
        match next {
            Ok((token, end)) => {
                proof {
                    lemma_view_push(tokens@, token);
                    let rest = sections_after(chars@, end as int, !after_capture);
                    assert(parser_tokens_view(tokens@) + (seq![token@] + rest.0)
                        =~= parser_tokens_view(tokens@).push(token@) + rest.0);
                }
                tokens.push(token);
                at = end;
                after_capture = !after_capture;
            },
            Err(_) => {
                assert(parser_tokens_view(tokens@) + Seq::<ParserTokenSpec>::empty()
                    =~= parser_tokens_view(tokens@));
                break ;
            },
        }
    }
    Ok((tokens, at))
}

/// Reads a path from `pos` on: one segment or more, each a separator and the
/// matchers behind it, if any.
pub fn path_parser_at(chars: &Vec<char>, pos: usize) -> (r: Result<
    (Vec<RouteParserToken>, usize),
    ParseError,
>)
    ensures
        tokens_result_is(r, path_at(chars@, pos as int)),
        r matches Ok((tokens, end)) ==> pos < end <= chars.len() && tokens.len() > 0,
{
    let (first, mut at) = match separator_token(chars, pos) {
        Ok(found) => found,
        Err(e) => {
            return Err(e);
        },
    };
    let mut tokens: Vec<RouteParserToken> = Vec::new();
    tokens.push(first);
    assert(parser_tokens_view(tokens@) =~= seq![ParserTokenSpec::Separator]);
    loop
        invariant_except_break
            pos < at <= chars.len(),
            tokens.len() > 0,
            match sections_at(chars@, at as int) {
                Ok((sections, after)) => {
                    &&& segments_at(chars@, pos as int).0 == parser_tokens_view(tokens@)
                        + sections + (if at - 1 < after <= chars.len() {
                        segments_at(chars@, after).0
                    } else {
                        Seq::empty()
                    })
                    &&& segments_at(chars@, pos as int).1 == (if at - 1 < after <= chars.len() {
                        segments_at(chars@, after).1
                    } else {
                        after
                    })
                },
                Err(_) => {
                    &&& segments_at(chars@, pos as int).0 == parser_tokens_view(tokens@)
                        + segments_at(chars@, at as int).0
                    &&& segments_at(chars@, pos as int).1 == segments_at(chars@, at as int).1
                },
            },
        ensures
            pos < at <= chars.len(),
            tokens.len() > 0,
            segments_at(chars@, pos as int) == (parser_tokens_view(tokens@), at as int),
        decreases chars.len() - at,
    {
        match section_matchers_at(chars, at) {
            Ok((mut sections, end)) => {
                proof {
                    lemma_view_add(tokens@, sections@);
                }
                tokens.append(&mut sections);
                at = end;
            },
            Err(_) => {},
        }
        match separator_token(chars, at) {
            Ok((separator, next)) => {
                proof {
                    lemma_view_push(tokens@, separator);
                    let sections = match sections_at(chars@, next as int) {
                        Ok((sections, _)) => sections,
                        Err(_) => Seq::empty(),
                    };
                    let after = match sections_at(chars@, next as int) {
                        Ok((_, after)) => after,
                        Err(_) => next as int,
                    };
                    let rest: Seq<ParserTokenSpec> = if at < after <= chars.len() {
                        segments_at(chars@, after).0
                    } else {
                        Seq::empty()
                    };
                    assert(parser_tokens_view(tokens@) + (seq![ParserTokenSpec::Separator]
                        + sections + rest) =~= parser_tokens_view(tokens@).push(
                        ParserTokenSpec::Separator,
                    ) + sections + rest);
                    assert(parser_tokens_view(tokens@) + (seq![ParserTokenSpec::Separator]
                        + sections) =~= parser_tokens_view(tokens@).push(
                        ParserTokenSpec::Separator,
                    ) + sections);
                    assert(parser_tokens_view(tokens@).push(ParserTokenSpec::Separator) + sections
                        + Seq::<ParserTokenSpec>::empty() =~= parser_tokens_view(tokens@).push(
                        ParserTokenSpec::Separator,
                    ) + sections);
                }
                tokens.push(separator);
                at = next;
            },
            Err(_) => {
                assert(parser_tokens_view(tokens@) + Seq::<ParserTokenSpec>::empty()
                    =~= parser_tokens_view(tokens@));
                break ;
            },
        }
    }
    Ok((tokens, at))
}

/// Reads the matchers of one segment at the start of `i`: a literal or a
/// capture, then what may follow it, never two captures side by side. Hands
/// back the rest of `i` with them.
pub fn section_matchers(i: &str) -> (r: Result<(&str, Vec<RouteParserToken>), ParseError>)
    ensures
        rest_result_is(i@, r, sections_at(i@, 0)),
{
    let chars = chars_of(i);
    match section_matchers_at(&chars, 0) {
        Ok((tokens, end)) => Ok((i.substring_char(end, chars.len()), tokens)),
        Err(e) => Err(e),
    }
}

/// Reads a path at the start of `i`: one segment or more, each a `/` and the
/// matchers behind it, if any. Hands back the rest of `i` with the tokens.
pub fn path_parser(i: &str) -> (r: Result<(&str, Vec<RouteParserToken>), ParseError>)
    ensures
        rest_result_is(i@, r, path_at(i@, 0)),
{
    let chars = chars_of(i);
    match path_parser_at(&chars, 0) {
        Ok((tokens, end)) => Ok((i.substring_char(end, chars.len()), tokens)),
        Err(e) => Err(e),
    }
}

} // verus!
