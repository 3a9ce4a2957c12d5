//! The parser of route patterns.
//!
//! A pattern is one unit or more, and the whole text must be used up:
//!
//! ```text
//! pattern  = unit+
//! unit     = path | "[" pattern "]"
//! path     = segment+
//! segment  = "/" matchers?
//! matchers = literals and captures in turn, never two captures side by side
//! capture  = "{}" | "{*}" | "{" digits "}" | "{" name "}"
//!          | "{*:" name "}" | "{" digits ":" name "}"
//! literal  = one character or more, none of / { } [ ] * ? & #
//! name     = ASCII letters, digits and underscores, the first no digit
//! ```
//!
//! The model of the parser is `pattern_tokens`. What it gives is well formed
//! (`formed`), and it reads back every pattern that well-formed tokens are
//! written as (`written`).

pub mod capture;
pub mod formed;
pub mod path;
pub mod token;
pub mod written;

use vstd::prelude::*;
use crate::parser::formed::{lemma_pattern_well_formed, well_formed};
use crate::parser::capture::capture_at;
use crate::parser::path::{lemma_view_add, path_parser_at, segments_at};
use crate::parser::token::{ParseError, ParseErrorKind, ParserTokenSpec, RouteParserToken, parser_tokens_view};
use crate::text::chars_of;

verus! {

/// Why the text at `at` cannot go on a pattern whose tokens so far are
/// `before`: a capture that is none, a capture right behind another, or
/// something that can begin nothing here.
pub open spec fn stray_at(s: Seq<char>, at: int, before: Seq<ParserTokenSpec>) -> ParseError {
    let unexpected = ParseError { kind: ParseErrorKind::UnexpectedInput, position: at as usize };
    if 0 <= at < s.len() && s[at] == '{' {
        match capture_at(s, at) {
            Err(e) => e,
            Ok(_) => {
                if before.len() > 0 && before.last() is Capture {
                    ParseError { kind: ParseErrorKind::AdjacentCaptures, position: at as usize }
                } else {
                    unexpected
                }
            },
        }
    } else {
        unexpected
    }
}

/// The units from `pos` on, as many as there are, and the position behind the
/// last: paths, and optional groups with their own units inside.
pub open spec fn units_at(s: Seq<char>, pos: int) -> Result<(Seq<ParserTokenSpec>, int), ParseError>
    decreases s.len() - pos,
{
    if 0 <= pos < s.len() && s[pos] == '/' {
        let (tokens, after) = segments_at(s, pos);
        if pos < after <= s.len() {
            match units_at(s, after) {
                Ok((rest, end)) => Ok((tokens + rest, end)),
                Err(e) => Err(e),
            }
        } else {
            Ok((tokens, after))
        }
    } else if 0 <= pos < s.len() && s[pos] == '[' {
        match units_at(s, pos + 1) {
            Err(e) => Err(e),
            Ok((inner, close)) => {
                if inner.len() == 0 {
                    Err(
                        ParseError {
                            kind: ParseErrorKind::MissingSeparator,
                            position: (pos + 1) as usize,
                        },
                    )
                } else if !(pos < close < s.len()) {
                    Err(
                        ParseError {
                            kind: ParseErrorKind::UnterminatedOptional,
                            position: pos as usize,
                        },
                    )
                } else if s[close] != ']' {
                    Err(stray_at(s, close, inner))
                } else {
                    match units_at(s, close + 1) {
                        Ok((rest, end)) => Ok((seq![ParserTokenSpec::Optional(inner)] + rest, end)),
                        Err(e) => Err(e),
                    }
                }
            },
        }
    } else {
        Ok((Seq::empty(), pos))
    }
}

/// The tokens that the pattern `s` writes, or why it writes none: it needs
/// one unit or more, and nothing behind them.
pub open spec fn pattern_tokens(s: Seq<char>) -> Result<Seq<ParserTokenSpec>, ParseError> {
    match units_at(s, 0) {
        Err(e) => Err(e),
        Ok((tokens, end)) => {
            if tokens.len() == 0 {
                Err(ParseError { kind: ParseErrorKind::MissingSeparator, position: 0 })
            } else if end >= s.len() {
                Ok(tokens)
            } else {
                Err(stray_at(s, end, tokens))
            }
        },
    }
}

/// Finds out why the text at `at` cannot go on a pattern whose last token so
/// far is a capture or not.
fn stray(chars: &Vec<char>, at: usize, after_capture: bool) -> (e: ParseError)
    requires
        at <= chars.len(),
    ensures
        forall|before: Seq<ParserTokenSpec>|
            after_capture == (before.len() > 0 && before.last() is Capture) ==> e == stray_at(
                chars@,
                at as int,
                before,
            ),
{
    let unexpected = ParseError { kind: ParseErrorKind::UnexpectedInput, position: at };
    if at < chars.len() && chars[at] == '{' {
        match crate::parser::capture::capture(chars, at) {
            Err(e) => e,
            Ok(_) => {
                if after_capture {
                    ParseError { kind: ParseErrorKind::AdjacentCaptures, position: at }
                } else {
                    unexpected
                }
            },
        }
    } else {
        unexpected
    }
}

/// Whether the last of `tokens` is a capture.
fn ends_with_capture(tokens: &Vec<RouteParserToken>) -> (r: bool)
    ensures
        r == (parser_tokens_view(tokens@).len() > 0 && parser_tokens_view(tokens@).last()
            is Capture),
{
    if tokens.len() == 0 {
        false
    } else {
        match &tokens[tokens.len() - 1] {
            RouteParserToken::Capture(_) => true,
            _ => false,
        }
    }
}

/// Reads the units from `pos` on, as many as there are.
fn units(chars: &Vec<char>, pos: usize) -> (r: Result<(Vec<RouteParserToken>, usize), ParseError>)
    requires
        pos <= chars.len(),
    ensures
        crate::parser::path::tokens_result_is(r, units_at(chars@, pos as int)),
        r matches Ok((_, end)) ==> pos <= end <= chars.len(),
    decreases chars.len() - pos,
{
    if pos < chars.len() && chars[pos] == '/' {
        let (mut tokens, after) = match path_parser_at(chars, pos) {
            Ok(found) => found,
            Err(e) => {
                return Err(e);
            },
        };
        match units(chars, after) {
            Ok((mut rest, end)) => {
                proof {
                    lemma_view_add(tokens@, rest@);
                }
                tokens.append(&mut rest);
                Ok((tokens, end))
            },
            Err(e) => Err(e),
        }
    } else if pos < chars.len() && chars[pos] == '[' {
        let (inner, close) = match units(chars, pos + 1) {
            Ok(found) => found,
            Err(e) => {
                return Err(e);
            },
        };
        if inner.len() == 0 {
            return Err(ParseError { kind: ParseErrorKind::MissingSeparator, position: pos + 1 });
        }
        if close >= chars.len() {
            return Err(ParseError { kind: ParseErrorKind::UnterminatedOptional, position: pos });
        }
        if chars[close] != ']' {
            return Err(stray(chars, close, ends_with_capture(&inner)));
        }
        match units(chars, close + 1) {
            Ok((mut rest, end)) => {
                let mut tokens: Vec<RouteParserToken> = Vec::new();
                let group = RouteParserToken::Optional(inner);
                proof {
                    lemma_view_add(seq![group], rest@);
                    assert(parser_tokens_view(seq![group]) =~= seq![group@]);
                }
                tokens.push(group);
                tokens.append(&mut rest);
                Ok((tokens, end))
            },
            Err(e) => Err(e),
        }
    } else {
        let tokens: Vec<RouteParserToken> = Vec::new();
        assert(parser_tokens_view(tokens@) =~= Seq::<ParserTokenSpec>::empty());
        Ok((tokens, pos))
    }
}

/// Parses the pattern `i` into its tokens.
///
/// Succeeds exactly on the texts that are one unit or more and nothing else,
/// with the tokens in the order in which they are written; fails, with the
/// reason and the place, on every other text. What it gives is well formed:
/// in particular, no two captures stand side by side.
pub fn parse(i: &str) -> (r: Result<Vec<RouteParserToken>, ParseError>)
    ensures
        match r {
            Ok(tokens) => pattern_tokens(i@) == Ok::<Seq<ParserTokenSpec>, ParseError>(
                parser_tokens_view(tokens@),
            ) && well_formed(parser_tokens_view(tokens@)),
            Err(e) => pattern_tokens(i@) == Err::<Seq<ParserTokenSpec>, ParseError>(e),
        },
{
    proof {
        lemma_pattern_well_formed(i@);
    }
    let chars = chars_of(i);
    match units(&chars, 0) {
        Err(e) => Err(e),
        Ok((tokens, end)) => {
            if tokens.len() == 0 {
                Err(ParseError { kind: ParseErrorKind::MissingSeparator, position: 0 })
            } else if end >= chars.len() {
                Ok(tokens)
            } else {
                Err(stray(&chars, end, ends_with_capture(&tokens)))
            }
        },
    }
}

} // verus!
