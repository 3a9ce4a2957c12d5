//! The tokens of a route pattern as the parser produces them, their
//! mathematical models, and the errors of parsing.

use vstd::prelude::*;

verus! {

/// The model of a capture: what kind it is, how many segments it takes and
/// under which name it stores its value.
pub enum CaptureSpec {
    /// `{}`: one segment, without a name.
    Unnamed,
    /// `{*}`: any number of segments, without a name.
    ManyUnnamed,
    /// `{n}`: exactly `sections` segments, without a name.
    NumberedUnnamed { sections: nat },
    /// `{name}`: one segment.
    Named(Seq<char>),
    /// `{*:name}`: any number of segments.
    ManyNamed(Seq<char>),
    /// `{n:name}`: exactly `sections` segments.
    NumberedNamed { sections: nat, name: Seq<char> },
}

impl CaptureSpec {
    /// The name under which the capture stores its value, if it has one.
    pub open spec fn name(self) -> Option<Seq<char>> {
        match self {
            CaptureSpec::Unnamed => None,
            CaptureSpec::ManyUnnamed => None,
            CaptureSpec::NumberedUnnamed { sections } => None,
            CaptureSpec::Named(name) => Some(name),
            CaptureSpec::ManyNamed(name) => Some(name),
            CaptureSpec::NumberedNamed { sections, name } => Some(name),
        }
    }

    /// Whether the capture takes as many segments as the rest of the pattern
    /// lets it have.
    pub open spec fn is_greedy(self) -> bool {
        self is ManyUnnamed || self is ManyNamed
    }
}

/// A section of a path that is captured rather than compared.
#[derive(Debug, PartialEq, Eq)]
pub enum CaptureVariant {
    /// `{}`: one segment, without a name.
    Unnamed,
    /// `{*}`: any number of segments, without a name.
    ManyUnnamed,
    /// `{n}`: exactly `sections` segments, without a name.
    NumberedUnnamed { sections: usize },
    /// `{name}`: one segment.
    Named(String),
    /// `{*:name}`: any number of segments.
    ManyNamed(String),
    /// `{n:name}`: exactly `sections` segments.
    NumberedNamed { sections: usize, name: String },
}

impl View for CaptureVariant {
    type V = CaptureSpec;

    open spec fn view(&self) -> CaptureSpec {
        match self {
            CaptureVariant::Unnamed => CaptureSpec::Unnamed,
            CaptureVariant::ManyUnnamed => CaptureSpec::ManyUnnamed,
            CaptureVariant::NumberedUnnamed { sections } => CaptureSpec::NumberedUnnamed {
                sections: *sections as nat,
            },
            CaptureVariant::Named(name) => CaptureSpec::Named(name@),
            CaptureVariant::ManyNamed(name) => CaptureSpec::ManyNamed(name@),
            CaptureVariant::NumberedNamed { sections, name } => CaptureSpec::NumberedNamed {
                sections: *sections as nat,
                name: name@,
            },
        }
    }
}

impl Clone for CaptureVariant {
    fn clone(&self) -> (r: Self)
        ensures
            r@ == self@,
    {
        match self {
            CaptureVariant::Unnamed => CaptureVariant::Unnamed,
            CaptureVariant::ManyUnnamed => CaptureVariant::ManyUnnamed,
            CaptureVariant::NumberedUnnamed { sections } => CaptureVariant::NumberedUnnamed {
                sections: *sections,
            },
            CaptureVariant::Named(name) => CaptureVariant::Named(name.clone()),
            CaptureVariant::ManyNamed(name) => CaptureVariant::ManyNamed(name.clone()),
            CaptureVariant::NumberedNamed { sections, name } => CaptureVariant::NumberedNamed {
                sections: *sections,
                name: name.clone(),
            },
        }
    }
}

/// The model of a token of the parser.
pub enum ParserTokenSpec {
    /// A `/`.
    Separator,
    /// A literal text.
    Match(Seq<char>),
    /// A capture.
    Capture(CaptureSpec),
    /// A group that a path may leave out.
    Optional(Seq<ParserTokenSpec>),
}

/// A token of a route pattern, as the parser produces it.
#[derive(Debug, PartialEq, Eq)]
pub enum RouteParserToken {
    /// A `/`.
    Separator,
    /// A literal text that a path must hold at this place.
    Match(String),
    /// A section of the path that is captured.
    Capture(CaptureVariant),
    /// A group of tokens that a path may leave out as a whole.
    Optional(Vec<RouteParserToken>),
}

impl View for RouteParserToken {
    type V = ParserTokenSpec;

    open spec fn view(&self) -> ParserTokenSpec {
        parser_token_view(*self)
    }
}

/// The model of a parser token.
pub open spec fn parser_token_view(token: RouteParserToken) -> ParserTokenSpec
    decreases token,
{
    match token {
        RouteParserToken::Separator => ParserTokenSpec::Separator,
        RouteParserToken::Match(text) => ParserTokenSpec::Match(text@),
        RouteParserToken::Capture(capture) => ParserTokenSpec::Capture(capture@),
        RouteParserToken::Optional(inner) => ParserTokenSpec::Optional(
            parser_tokens_view(inner@),
        ),
    }
}

/// The models of a sequence of parser tokens.
pub open spec fn parser_tokens_view(tokens: Seq<RouteParserToken>) -> Seq<ParserTokenSpec>
    decreases tokens,
{
    Seq::new(
        tokens.len(),
        |i: int|
            if 0 <= i < tokens.len() {
                parser_token_view(tokens[i])
            } else {
                ParserTokenSpec::Separator
            },
    )
}

/// A copy of `tokens`, token for token.
pub fn clone_parser_tokens(tokens: &Vec<RouteParserToken>) -> (r: Vec<RouteParserToken>)
    ensures
        parser_tokens_view(r@) == parser_tokens_view(tokens@),
    decreases tokens,
{
    let mut r: Vec<RouteParserToken> = Vec::new();
    let mut i: usize = 0;
    while i < tokens.len()
        invariant
            i <= tokens.len(),
            r.len() == i,
            forall|j: int| 0 <= j < i ==> r@[j]@ == tokens@[j]@,
        decreases tokens.len() - i,
    {
        let copy = match &tokens[i] {
            RouteParserToken::Separator => RouteParserToken::Separator,
            RouteParserToken::Match(text) => RouteParserToken::Match(text.clone()),
            RouteParserToken::Capture(capture) => RouteParserToken::Capture(capture.clone()),
            RouteParserToken::Optional(inner) => {
                let inner_copy = clone_parser_tokens(inner);
                RouteParserToken::Optional(inner_copy)
            },
        };
        r.push(copy);
        i += 1;
    }
    assert(parser_tokens_view(r@) =~= parser_tokens_view(tokens@));
    r
}

impl Clone for RouteParserToken {
    fn clone(&self) -> (r: Self)
        ensures
            r@ == self@,
    {
        match self {
            RouteParserToken::Separator => RouteParserToken::Separator,
            RouteParserToken::Match(text) => RouteParserToken::Match(text.clone()),
            RouteParserToken::Capture(capture) => RouteParserToken::Capture(capture.clone()),
            RouteParserToken::Optional(inner) => {
                let inner_copy = clone_parser_tokens(inner);
                RouteParserToken::Optional(inner_copy)
            },
        }
    }
}

/// Why a pattern was refused.
#[derive(Debug, Clone, Copy, PartialEq, Eq, Structural)]
pub enum ParseErrorKind {
    /// A `/` was expected: the pattern, or an optional group, is empty or
    /// starts with something else.
    MissingSeparator,
    /// A `{` without its `}`.
    UnterminatedCapture,
    /// The text between `{` and `}` is none of the six forms of a capture.
    InvalidCapture,
    /// The number of segments of a counted capture is too large.
    InvalidCount,
    /// A capture follows another with nothing in between.
    AdjacentCaptures,
    /// A `[` without its `]`.
    UnterminatedOptional,
    /// Something that no part of a pattern can begin with at this place: a
    /// reserved character out of place, or the end of the text.
    UnexpectedInput,
}

/// A refusal of a pattern: why, and at which character of the pattern.
#[derive(Debug, Clone, Copy, PartialEq, Eq, Structural)]
pub struct ParseError {
    /// Why the pattern was refused.
    pub kind: ParseErrorKind,
    /// The index, in characters, of the place in the pattern that is at fault.
    pub position: usize,
}

impl ParseError {
    /// The part of `pattern` that is at fault: what it holds from the place
    /// of the error on, or nothing where it is shorter than that.
    pub fn offending<'a>(&self, pattern: &'a str) -> (r: &'a str)
        ensures
            r@ == if self.position <= pattern@.len() {
                pattern@.subrange(self.position as int, pattern@.len() as int)
            } else {
                Seq::empty()
            },
    {
        let len = pattern.unicode_len();
        if self.position <= len {
            pattern.substring_char(self.position, len)
        } else {
            pattern.substring_char(len, len)
        }
    }
}

} // verus!
