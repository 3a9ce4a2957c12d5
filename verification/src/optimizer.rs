//! The tokens that matching and building work on, and the pass that makes
//! them from the parser's tokens: literals that follow one another become
//! one.

use vstd::prelude::*;
use crate::parser::parse;
use crate::parser::pattern_tokens;
use crate::parser::token::{CaptureSpec, CaptureVariant, ParseError, ParserTokenSpec, RouteParserToken, parser_tokens_view};

verus! {

/// The model of an optimized token.
pub enum TokenSpec {
    /// A literal text.
    Match(Seq<char>),
    /// A capture.
    Capture(CaptureSpec),
    /// A group that a path may leave out.
    Optional(Seq<TokenSpec>),
}

/// A token of a pattern that is ready for matching and building.
#[derive(Debug, PartialEq, Eq)]
pub enum OptimizedToken {
    /// A literal text, separators included, that a path must hold at this
    /// place.
    Match(String),
    /// A section of the path that is captured.
    Capture(CaptureVariant),
    /// A group of tokens that a path may leave out as a whole.
    Optional(Vec<OptimizedToken>),
}

impl View for OptimizedToken {
    type V = TokenSpec;

    open spec fn view(&self) -> TokenSpec {
        token_view(*self)
    }
}

/// The model of an optimized token.
pub open spec fn token_view(token: OptimizedToken) -> TokenSpec
    decreases token,
{
    match token {
        OptimizedToken::Match(text) => TokenSpec::Match(text@),
        OptimizedToken::Capture(capture) => TokenSpec::Capture(capture@),
        OptimizedToken::Optional(inner) => TokenSpec::Optional(tokens_view(inner@)),
    }
}

/// The models of a sequence of optimized tokens.
pub open spec fn tokens_view(tokens: Seq<OptimizedToken>) -> Seq<TokenSpec>
    decreases tokens,
{
    Seq::new(
        tokens.len(),
        |i: int|
            if 0 <= i < tokens.len() {
                token_view(tokens[i])
            } else {
                TokenSpec::Match(Seq::empty())
            },
    )
}

/// A copy of `tokens`, token for token.
pub fn clone_tokens(tokens: &Vec<OptimizedToken>) -> (r: Vec<OptimizedToken>)
    ensures
        tokens_view(r@) == tokens_view(tokens@),
    decreases tokens,
{
    let mut r: Vec<OptimizedToken> = Vec::new();
    let mut i: usize = 0;
    while i < tokens.len()
        invariant
            i <= tokens.len(),
            r.len() == i,
            forall|j: int| 0 <= j < i ==> r@[j]@ == tokens@[j]@,
        decreases tokens.len() - i,
    {
        let copy = match &tokens[i] {
            OptimizedToken::Match(text) => OptimizedToken::Match(text.clone()),
            OptimizedToken::Capture(capture) => OptimizedToken::Capture(capture.clone()),
            OptimizedToken::Optional(inner) => OptimizedToken::Optional(clone_tokens(inner)),
        };
        r.push(copy);
        i += 1;
    }
    assert(tokens_view(r@) =~= tokens_view(tokens@));
    r
}

impl Clone for OptimizedToken {
    fn clone(&self) -> (r: Self)
        ensures
            r@ == self@,
    {
        match self {
            OptimizedToken::Match(text) => OptimizedToken::Match(text.clone()),
            OptimizedToken::Capture(capture) => OptimizedToken::Capture(capture.clone()),
            OptimizedToken::Optional(inner) => OptimizedToken::Optional(clone_tokens(inner)),
        }
    }
}

/// `done` with the literal `text` behind it: where `done` ends with a
/// literal, that literal grows by `text`; else a new literal follows.
pub open spec fn append_literal(done: Seq<TokenSpec>, text: Seq<char>) -> Seq<TokenSpec> {
    if done.len() > 0 && done.last() is Match {
        done.drop_last().push(TokenSpec::Match(done.last()->Match_0 + text))
    } else {
        done.push(TokenSpec::Match(text))
    }
}

/// The optimized form of the parser's tokens: separators and literals that
/// follow one another are one literal with their texts in order, a capture
/// stays as it is, and an optional group holds the optimized form of what it
/// held.
pub open spec fn optimized(tokens: Seq<ParserTokenSpec>) -> Seq<TokenSpec>
    decreases tokens,
{
    if tokens.len() == 0 {
        Seq::empty()
    } else {
        let done = optimized(tokens.drop_last());
        match tokens.last() {
            ParserTokenSpec::Separator => append_literal(done, seq!['/']),
            ParserTokenSpec::Match(text) => append_literal(done, text),
            ParserTokenSpec::Capture(capture) => done.push(TokenSpec::Capture(capture)),
            ParserTokenSpec::Optional(inner) => done.push(TokenSpec::Optional(optimized(inner))),
        }
    }
}

/// The parser's token that writes the same as the optimized `token`.
pub open spec fn unoptimized_token(token: TokenSpec) -> ParserTokenSpec
    decreases token,
{
    match token {
        TokenSpec::Match(text) => ParserTokenSpec::Match(text),
        TokenSpec::Capture(capture) => ParserTokenSpec::Capture(capture),
        TokenSpec::Optional(inner) => ParserTokenSpec::Optional(unoptimized(inner)),
    }
}

/// Optimized tokens seen as tokens of the parser, one for one.
pub open spec fn unoptimized(tokens: Seq<TokenSpec>) -> Seq<ParserTokenSpec>
    decreases tokens,
{
    Seq::new(
        tokens.len(),
        |i: int|
            if 0 <= i < tokens.len() {
                unoptimized_token(tokens[i])
            } else {
                ParserTokenSpec::Separator
            },
    )
}

/// Whether `tokens` are in optimized form: no literal follows a literal, in
/// the sequence and in every optional group in it.
pub open spec fn is_optimized(tokens: Seq<TokenSpec>) -> bool
    decreases tokens,
{
    &&& forall|i: int|
        0 <= i < tokens.len() - 1 ==> !(#[trigger] tokens[i] is Match && tokens[i + 1] is Match)
    &&& forall|i: int|
        0 <= i < tokens.len() ==> (#[trigger] tokens[i] matches TokenSpec::Optional(inner)
            ==> is_optimized(inner))
}

/// What the optimizer gives is in optimized form.
pub proof fn lemma_optimized_is_optimized(tokens: Seq<ParserTokenSpec>)
    ensures
        is_optimized(optimized(tokens)),
    decreases tokens,
{
    if tokens.len() > 0 {
        let done = optimized(tokens.drop_last());
        lemma_optimized_is_optimized(tokens.drop_last());
        match tokens.last() {
            ParserTokenSpec::Optional(inner) => {
                lemma_optimized_is_optimized(inner);
            },
            _ => {},
        }
        let out = optimized(tokens);
        assert forall|i: int| 0 <= i < out.len() - 1 implies !(#[trigger] out[i] is Match && out[i
            + 1] is Match) by {
            if i + 1 < done.len() - 1 {
                assert(out[i] == done[i]);
                assert(out[i + 1] == done[i + 1]);
            } else if i + 1 == done.len() - 1 {
                assert(out[i] == done[i]);
                assert(out[i + 1] is Match == done[i + 1] is Match);
            }
        }
        assert forall|i: int| 0 <= i < out.len() implies (#[trigger] out[i] matches TokenSpec::Optional(
            inner,
        ) ==> is_optimized(inner)) by {
            if i < done.len() - 1 {
                assert(out[i] == done[i]);
            } else if i == done.len() - 1 {
                assert(out[i] is Optional ==> out[i] == done[i]);
            }
        }
    }
}

/// Optimizing tokens that are in optimized form gives them back.
pub proof fn lemma_optimize_keeps_optimized(tokens: Seq<TokenSpec>)
    requires
        is_optimized(tokens),
    ensures
        optimized(unoptimized(tokens)) == tokens,
    decreases tokens,
{
    let raw = unoptimized(tokens);
    if tokens.len() > 0 {
        let front = tokens.drop_last();
        assert(raw.drop_last() =~= unoptimized(front));
        assert(raw.last() == unoptimized_token(tokens.last()));
        assert(is_optimized(front)) by {
            assert forall|i: int| 0 <= i < front.len() - 1 implies !(#[trigger] front[i] is Match
                && front[i + 1] is Match) by {
                assert(front[i] == tokens[i]);
                assert(front[i + 1] == tokens[i + 1]);
            }
            assert forall|i: int| 0 <= i < front.len() implies (#[trigger] front[i] matches TokenSpec::Optional(
                inner,
            ) ==> is_optimized(inner)) by {
                assert(front[i] == tokens[i]);
            }
        }
        lemma_optimize_keeps_optimized(front);
        if front.len() > 0 {
            assert(front.last() == tokens[tokens.len() - 2]);
            assert(tokens.last() == tokens[tokens.len() - 2 + 1]);
        }
        match tokens.last() {
            TokenSpec::Optional(inner) => {
                assert(tokens[tokens.len() - 1] is Optional);
                lemma_optimize_keeps_optimized(inner);
            },
            _ => {},
        }
        assert(optimized(raw) =~= tokens);
    } else {
        assert(raw =~= Seq::<ParserTokenSpec>::empty());
    }
}

/// Optimizing is idempotent: what the optimizer gives, taken as the parser's
/// tokens and optimized once more, is unchanged.
pub proof fn lemma_optimize_idempotent(tokens: Seq<ParserTokenSpec>)
    ensures
        optimized(unoptimized(optimized(tokens))) == optimized(tokens),
{
    lemma_optimized_is_optimized(tokens);
    lemma_optimize_keeps_optimized(optimized(tokens));
}

/// Puts the literal `text` behind `done`, into its last token where that is a
/// literal.
fn push_literal(done: &mut Vec<OptimizedToken>, text: &str)
    ensures
        tokens_view(final(done)@) == append_literal(tokens_view(old(done)@), text@),
{
    let ghost before = tokens_view(done@);
    match done.pop() {
        Some(OptimizedToken::Match(mut merged)) => {
            let ghost front = tokens_view(done@);
            assert(front =~= before.drop_last());
            merged.append(text);
            done.push(OptimizedToken::Match(merged));
            assert(tokens_view(done@) =~= front.push(TokenSpec::Match(merged@)));
        },
        Some(other) => {
            done.push(other);
            assert(tokens_view(done@) =~= before);
            done.push(OptimizedToken::Match(String::from_str(text)));
            assert(tokens_view(done@) =~= before.push(TokenSpec::Match(text@)));
        },
        None => {
            done.push(OptimizedToken::Match(String::from_str(text)));
            assert(tokens_view(done@) =~= before.push(TokenSpec::Match(text@)));
        },
    }
}

/// The optimized form of `tokens`.
pub fn optimize_tokens(tokens: &Vec<RouteParserToken>) -> (r: Vec<OptimizedToken>)
    ensures
        tokens_view(r@) == optimized(parser_tokens_view(tokens@)),
    decreases tokens,
{
    let ghost raw = parser_tokens_view(tokens@);
    let mut done: Vec<OptimizedToken> = Vec::new();
    let mut i: usize = 0;
    assert(raw.take(0) =~= Seq::<ParserTokenSpec>::empty());
    assert(tokens_view(done@) =~= Seq::<TokenSpec>::empty());
    while i < tokens.len()
        invariant
            i <= tokens.len(),
            raw == parser_tokens_view(tokens@),
            tokens_view(done@) == optimized(raw.take(i as int)),
        decreases tokens.len() - i,
    {
        proof {
            assert(raw.take(i + 1).drop_last() =~= raw.take(i as int));
            assert(raw.take(i + 1).last() == tokens@[i as int]@);
            reveal_strlit("/");
            assert("/"@ =~= seq!['/']);
        }
        let ghost before = tokens_view(done@);
        match &tokens[i] {
            RouteParserToken::Separator => {
                push_literal(&mut done, "/");
            },
            RouteParserToken::Match(text) => {
                push_literal(&mut done, text.as_str());
            },
            RouteParserToken::Capture(capture) => {
                done.push(OptimizedToken::Capture(capture.clone()));
                assert(tokens_view(done@) =~= before.push(TokenSpec::Capture(capture@)));
            },
            RouteParserToken::Optional(inner) => {
                let group = optimize_tokens(inner);
                done.push(OptimizedToken::Optional(group));
                assert(tokens_view(done@) =~= before.push(
                    TokenSpec::Optional(optimized(parser_tokens_view(inner@))),
                ));
            },
        }
        i += 1;
    }
    assert(raw.take(tokens.len() as int) =~= raw);
    done
}

/// Optimizes the parser's tokens: literals and separators that follow one
/// another become one literal, captures stay, and optional groups are
/// optimized inside. Never fails.
pub fn optimize(tokens: Vec<RouteParserToken>) -> (r: Vec<OptimizedToken>)
    ensures
        tokens_view(r@) == optimized(parser_tokens_view(tokens@)),
        is_optimized(tokens_view(r@)),
{
    proof {
        lemma_optimized_is_optimized(parser_tokens_view(tokens@));
    }
    optimize_tokens(&tokens)
}

/// Optimized tokens as tokens of the parser, one for one.
pub fn parser_tokens_of(tokens: &Vec<OptimizedToken>) -> (r: Vec<RouteParserToken>)
    ensures
        parser_tokens_view(r@) == unoptimized(tokens_view(tokens@)),
    decreases tokens,
{
    let mut r: Vec<RouteParserToken> = Vec::new();
    let mut i: usize = 0;
    while i < tokens.len()
        invariant
            i <= tokens.len(),
            r.len() == i,
            forall|j: int| 0 <= j < i ==> r@[j]@ == unoptimized_token(tokens@[j]@),
        decreases tokens.len() - i,
    {
        let raw = match &tokens[i] {
            OptimizedToken::Match(text) => RouteParserToken::Match(text.clone()),
            OptimizedToken::Capture(capture) => RouteParserToken::Capture(capture.clone()),
            OptimizedToken::Optional(inner) => RouteParserToken::Optional(parser_tokens_of(inner)),
        };
        r.push(raw);
        i += 1;
    }
    assert(parser_tokens_view(r@) =~= unoptimized(tokens_view(tokens@)));
    r
}

/// The optimized tokens that the pattern `s` writes, or why it writes none.
pub open spec fn pattern_optimized(s: Seq<char>) -> Result<Seq<TokenSpec>, ParseError> {
    match pattern_tokens(s) {
        Ok(tokens) => Ok(optimized(tokens)),
        Err(e) => Err(e),
    }
}

/// Parses the pattern `i` and optimizes its tokens. Fails exactly where
/// parsing fails, with the same error.
pub fn parse_and_optimize(i: &str) -> (r: Result<Vec<OptimizedToken>, ParseError>)
    ensures
        match r {
            Ok(tokens) => pattern_optimized(i@) == Ok::<Seq<TokenSpec>, ParseError>(
                tokens_view(tokens@),
            ) && is_optimized(tokens_view(tokens@)),
            Err(e) => pattern_optimized(i@) == Err::<Seq<TokenSpec>, ParseError>(e),
        },
{
    match parse(i) {
        Ok(tokens) => Ok(optimize(tokens)),
        Err(e) => Err(e),
    }
}

} // verus!
