//! Building a path from optimized tokens and values: literals are written as
//! they are, captures are written as their values.

use vstd::prelude::*;
use crate::captures::CaptureMap;
use crate::matcher::{name_of, texts};
use crate::optimizer::{OptimizedToken, TokenSpec, tokens_view};
use crate::parser::token::CaptureSpec;

verus! {

/// The model of a source of values.
pub enum ValuesSpec {
    /// Values that are taken one after another.
    Positional(Seq<Seq<char>>),
    /// Values that are looked up by the name of the capture.
    Named(Map<Seq<char>, Seq<char>>),
}

/// Where a builder takes the values of captures from.
#[derive(Debug)]
pub enum ValueSource {
    /// Each capture, named or not, takes the next value.
    Positional(Vec<String>),
    /// Each capture takes the value of its name.
    Named(CaptureMap),
}

impl View for ValueSource {
    type V = ValuesSpec;

    open spec fn view(&self) -> ValuesSpec {
        match self {
            ValueSource::Positional(values) => ValuesSpec::Positional(texts(values@)),
            ValueSource::Named(map) => ValuesSpec::Named(map@),
        }
    }
}

/// Why a path cannot be built.
#[derive(Debug, Clone, Copy, PartialEq, Eq, Structural)]
pub enum BuildError {
    /// A capture has no value: the values have run out, or none has its name.
    MissingValue,
    /// A capture without a name cannot take a value by name.
    UnnamedCapture,
}

/// The value that `capture` takes from `values` when `next` values have been
/// taken, and how many have been taken then.
pub open spec fn value_for(capture: CaptureSpec, values: ValuesSpec, next: int) -> Result<
    (Seq<char>, int),
    BuildError,
> {
    match values {
        ValuesSpec::Positional(list) => {
            if 0 <= next < list.len() {
                Ok((list[next], next + 1))
            } else {
                Err(BuildError::MissingValue)
            }
        },
        ValuesSpec::Named(map) => match capture.name() {
            None => Err(BuildError::UnnamedCapture),
            Some(name) => {
                if map.contains_key(name) {
                    Ok((map[name], next))
                } else {
                    Err(BuildError::MissingValue)
                }
            },
        },
    }
}

/// The text that the tokens from the `i`-th on write with `values`, of which
/// `next` have been taken, and how many have been taken behind the last
/// token.
///
/// A literal writes itself, a capture its value. An optional group writes
/// what its tokens write where each of its captures has a value, and nothing
/// where one has none.
pub open spec fn build_from(tokens: Seq<TokenSpec>, i: int, values: ValuesSpec, next: int) -> Result<
    (Seq<char>, int),
    BuildError,
>
    decreases tokens, tokens.len() - i,
{
    if i < 0 || i >= tokens.len() {
        Ok((Seq::empty(), next))
    } else {
        let head = match tokens[i] {
            TokenSpec::Match(text) => Ok((text, next)),
            TokenSpec::Capture(capture) => value_for(capture, values, next),
            TokenSpec::Optional(inner) => match build_from(inner, 0, values, next) {
                Ok(written) => Ok(written),
                Err(_) => Ok((Seq::empty(), next)),
            },
        };
        match head {
            Err(e) => Err(e),
            Ok((text, taken)) => match build_from(tokens, i + 1, values, taken) {
                Ok((rest, last)) => Ok((text + rest, last)),
                Err(e) => Err(e),
            },
        }
    }
}

/// The path that `tokens` write with `values`.
pub open spec fn built(tokens: Seq<TokenSpec>, values: ValuesSpec) -> Result<Seq<char>, BuildError> {
    match build_from(tokens, 0, values, 0) {
        Ok((text, _)) => Ok(text),
        Err(e) => Err(e),
    }
}

/// Whether an executable result of building is the one that the model gives.
pub open spec fn built_is(
    r: Result<(String, usize), BuildError>,
    model: Result<(Seq<char>, int), BuildError>,
) -> bool {
    match r {
        Ok((text, next)) => model == Ok::<(Seq<char>, int), BuildError>((text@, next as int)),
        Err(e) => model == Err::<(Seq<char>, int), BuildError>(e),
    }
}

/// Writes the tokens from the `i`-th on with `values`, of which `next` have
/// been taken.
pub(crate) fn build_tokens(tokens: &Vec<OptimizedToken>, i: usize, values: &ValueSource, next: usize) -> (r:
    Result<(String, usize), BuildError>)
    requires
        i <= tokens.len(),
    ensures
        built_is(r, build_from(tokens_view(tokens@), i as int, values@, next as int)),
    decreases tokens, tokens.len() - i,
{
    let ghost model = tokens_view(tokens@);
    if i >= tokens.len() {
        return Ok((String::new(), next));
    }
    assert(model[i as int] == tokens@[i as int]@);
    let (mut text, taken) = match &tokens[i] {
        OptimizedToken::Match(text) => (text.clone(), next),
        OptimizedToken::Capture(capture) => match values {
            ValueSource::Positional(list) => {
                if next < list.len() {
                    assert(texts(list@)[next as int] == list@[next as int]@);
                    (list[next].clone(), next + 1)
                } else {
                    return Err(BuildError::MissingValue);
                }
            },
            ValueSource::Named(map) => match name_of(capture) {
                None => {
                    return Err(BuildError::UnnamedCapture);
                },
                Some(name) => match map.get(name.as_str()) {
                    Some(value) => (value.clone(), next),
                    None => {
                        return Err(BuildError::MissingValue);
                    },
                },
            },
        },
        OptimizedToken::Optional(inner) => match build_tokens(inner, 0, values, next) {
            Ok(written) => written,
            Err(_) => (String::new(), next),
        },
    };
    match build_tokens(tokens, i + 1, values, taken) {
        Ok((rest, last)) => {
            text.append(rest.as_str());
            Ok((text, last))
        },
        Err(e) => Err(e),
    }
}

/// Builds the path that `tokens` write with `values`. Fails exactly where a
/// capture outside every optional group has no value.
pub fn build_path(tokens: &Vec<OptimizedToken>, values: &ValueSource) -> (r: Result<
    String,
    BuildError,
>)
    ensures
        match r {
            Ok(path) => built(tokens_view(tokens@), values@) == Ok::<Seq<char>, BuildError>(path@),
            Err(e) => built(tokens_view(tokens@), values@) == Err::<Seq<char>, BuildError>(e),
        },
{
    match build_tokens(tokens, 0, values, 0) {
        Ok((text, _)) => Ok(text),
        Err(e) => Err(e),
    }
}

} // verus!
