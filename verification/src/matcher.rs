//! Matching a path against optimized tokens: literals are compared, captures
//! take their segments, optional groups are taken where they fit.

pub mod laws;

use vstd::prelude::*;
use crate::captures::CaptureMap;
use crate::optimizer::{OptimizedToken, TokenSpec, parse_and_optimize, pattern_optimized, tokens_view};
use crate::parser::token::ParseError;
use crate::parser::token::{CaptureSpec, CaptureVariant};
use crate::text::{chars_of, find_char, occurs_at, scan_to, starts_with_at, string_of};

verus! {

/// How literals are compared.
#[derive(Debug, Clone, Copy, PartialEq, Eq, Structural)]
pub struct MatcherSettings {
    /// Whether a literal matches a text that differs from it only in the
    /// case of ASCII letters.
    pub case_insensitive: bool,
}

impl Default for MatcherSettings {
    /// Literals are compared without regard to case.
    fn default() -> (r: Self)
        ensures
            r.case_insensitive,
    {
        MatcherSettings { case_insensitive: true }
    }
}

/// Why a path does not match a pattern.
#[derive(Debug, Clone, Copy, PartialEq, Eq, Structural)]
pub enum MatchError {
    /// The path does not hold a literal of the pattern at its place.
    LiteralMismatch,
    /// The path has fewer segments left than a counted capture takes.
    InsufficientSegments,
    /// However many segments a greedy capture takes, the tokens behind it do
    /// not match what is left.
    Unsatisfiable,
    /// The pattern matches, but the path goes on behind it.
    TrailingPath,
}

/// The model of a captured value.
pub struct CapturedSpec {
    /// The name of the capture, if it has one.
    pub name: Option<Seq<char>>,
    /// The part of the path that the capture took.
    pub value: Seq<char>,
}

/// A value that a capture took from a path.
#[derive(Debug, PartialEq, Eq)]
pub struct Captured {
    /// The name of the capture, if it has one.
    pub name: Option<String>,
    /// The part of the path that the capture took.
    pub value: String,
}

impl View for Captured {
    type V = CapturedSpec;

    open spec fn view(&self) -> CapturedSpec {
        CapturedSpec {
            name: match self.name {
                Some(name) => Some(name@),
                None => None,
            },
            value: self.value@,
        }
    }
}

impl Clone for Captured {
    fn clone(&self) -> (r: Self)
        ensures
            r@ == self@,
    {
        Captured {
            name: match &self.name {
                Some(name) => Some(name.clone()),
                None => None,
            },
            value: self.value.clone(),
        }
    }
}

/// The models of captured values.
pub open spec fn captures_view(captures: Seq<Captured>) -> Seq<CapturedSpec> {
    captures.map_values(|c: Captured| c@)
}

/// Where `count` segments that start at `pos` end: behind the last of them,
/// before the `/` that follows it, if any. `None` where the path has fewer
/// segments left. Segments are divided by `/`; no segments end where they
/// start.
pub open spec fn segments_end(path: Seq<char>, pos: int, count: nat) -> Option<int>
    decreases count,
{
    if count == 0 {
        Some(pos)
    } else {
        let end = scan_to(path, pos, '/');
        if count == 1 {
            Some(end)
        } else if end < path.len() {
            segments_end(path, end + 1, (count - 1) as nat)
        } else {
            None
        }
    }
}

/// Where a capture that is not greedy ends when it starts at `pos`: a single
/// capture takes up to the next `/` or the end, a counted one its segments.
pub open spec fn capture_end(capture: CaptureSpec, path: Seq<char>, pos: int) -> Option<int> {
    match capture {
        CaptureSpec::NumberedUnnamed { sections } => segments_end(path, pos, sections),
        CaptureSpec::NumberedNamed { sections, name } => segments_end(path, pos, sections),
        _ => Some(scan_to(path, pos, '/')),
    }
}

/// The value that `capture` takes when it takes the path from `pos` up to
/// `end`.
pub open spec fn captured(capture: CaptureSpec, path: Seq<char>, pos: int, end: int) -> CapturedSpec {
    CapturedSpec { name: capture.name(), value: path.subrange(pos, end) }
}

/// The match of the tokens from the `i`-th on against the path from `pos`
/// on: the captured values in the order of their captures, and the position
/// in the path behind what was matched.
///
/// A literal must stand at the position. A single capture takes up to the
/// next `/`, a counted capture its segments. A greedy capture takes the
/// longest part of the path that still lets the tokens behind it match. An
/// optional group is matched where it matches and passed over where it does
/// not. What the path holds behind the last token is left.
pub open spec fn match_from(
    tokens: Seq<TokenSpec>,
    i: int,
    path: Seq<char>,
    pos: int,
    case_insensitive: bool,
) -> Result<(Seq<CapturedSpec>, int), MatchError>
    decreases tokens, tokens.len() - i, path.len() - pos + 2,
{
    if i < 0 || i >= tokens.len() {
        Ok((Seq::empty(), pos))
    } else {
        match tokens[i] {
            TokenSpec::Match(text) => {
                if occurs_at(path, pos, text, case_insensitive) {
                    match_from(tokens, i + 1, path, pos + text.len(), case_insensitive)
                } else {
                    Err(MatchError::LiteralMismatch)
                }
            },
            TokenSpec::Capture(capture) => {
                if capture.is_greedy() {
                    if 0 <= pos <= path.len() {
                        longest_from(tokens, i, path, pos, path.len() as int, case_insensitive)
                    } else {
                        Err(MatchError::Unsatisfiable)
                    }
                } else {
                    match capture_end(capture, path, pos) {
                        None => Err(MatchError::InsufficientSegments),
                        Some(end) => match match_from(tokens, i + 1, path, end, case_insensitive) {
                            Ok((rest, last)) => Ok(
                                (seq![captured(capture, path, pos, end)] + rest, last),
                            ),
                            Err(e) => Err(e),
                        },
                    }
                }
            },
            TokenSpec::Optional(inner) => {
                let (taken, at) = match match_from(inner, 0, path, pos, case_insensitive) {
                    Ok(found) => found,
                    Err(_) => (Seq::empty(), pos),
                };
                match match_from(tokens, i + 1, path, at, case_insensitive) {
                    Ok((rest, last)) => Ok((taken + rest, last)),
                    Err(e) => Err(e),
                }
            },
        }
    }
}

/// The match of a greedy capture, the `i`-th token, that starts at `pos` and
/// ends at `end` or before: the first end, from `end` downwards, at which the
/// tokens behind the capture match.
pub open spec fn longest_from(
    tokens: Seq<TokenSpec>,
    i: int,
    path: Seq<char>,
    pos: int,
    end: int,
    case_insensitive: bool,
) -> Result<(Seq<CapturedSpec>, int), MatchError>
    decreases tokens, tokens.len() - i, end - pos + 1,
{
    if !(0 <= i < tokens.len()) || end < pos {
        Err(MatchError::Unsatisfiable)
    } else {
        match match_from(tokens, i + 1, path, end, case_insensitive) {
            Ok((rest, last)) => Ok(
                (
                    seq![
                        CapturedSpec {
                            name: match tokens[i] {
                                TokenSpec::Capture(capture) => capture.name(),
                                _ => None,
                            },
                            value: path.subrange(pos, end),
                        },
                    ] + rest,
                    last,
                ),
            ),
            Err(_) => longest_from(tokens, i, path, pos, end - 1, case_insensitive),
        }
    }
}

/// Whether an executable result of matching is the one that the model gives.
pub open spec fn matched_is(
    r: Result<(Vec<Captured>, usize), MatchError>,
    model: Result<(Seq<CapturedSpec>, int), MatchError>,
) -> bool {
    match r {
        Ok((captures, end)) => model == Ok::<(Seq<CapturedSpec>, int), MatchError>(
            (captures_view(captures@), end as int),
        ),
        Err(e) => model == Err::<(Seq<CapturedSpec>, int), MatchError>(e),
    }
}

/// Where `count` segments that start at `pos` end, if the path has that many.
pub(crate) fn end_of_segments(path: &Vec<char>, pos: usize, count: usize) -> (r: Option<usize>)
    requires
        pos <= path.len(),
    ensures
        match r {
            Some(end) => segments_end(path@, pos as int, count as nat) == Some(end as int) && pos
                <= end <= path.len(),
            None => segments_end(path@, pos as int, count as nat) == None::<int>,
        },
{
    if count == 0 {
        return Some(pos);
    }
    let mut at: usize = pos;
    let mut left: usize = count;
    loop
        invariant
            pos <= at <= path.len(),
            1 <= left <= count,
            segments_end(path@, pos as int, count as nat) == segments_end(
                path@,
                at as int,
                left as nat,
            ),
        decreases left,
    {
        let end = find_char(path, at, '/');
        if left == 1 {
            return Some(end);
        }
        if end >= path.len() {
            return None;
        }
        at = end + 1;
        left = left - 1;
    }
}

/// The name of a capture, if it has one.
pub fn name_of(capture: &CaptureVariant) -> (r: Option<String>)
    ensures
        match r {
            Some(name) => capture@.name() == Some(name@),
            None => capture@.name() == None::<Seq<char>>,
        },
{
    match capture {
        CaptureVariant::Unnamed => None,
        CaptureVariant::ManyUnnamed => None,
        CaptureVariant::NumberedUnnamed { sections } => None,
        CaptureVariant::Named(name) => Some(name.clone()),
        CaptureVariant::ManyNamed(name) => Some(name.clone()),
        CaptureVariant::NumberedNamed { sections, name } => Some(name.clone()),
    }
}

/// Puts `first` before `rest`.
fn with_first(first: Captured, rest: Vec<Captured>) -> (r: Vec<Captured>)
    ensures
        captures_view(r@) == seq![first@] + captures_view(rest@),
{
    let mut r: Vec<Captured> = Vec::new();
    r.push(first);
    let mut rest = rest;
    let ghost rest_view = captures_view(rest@);
    r.append(&mut rest);
    assert(captures_view(r@) =~= seq![first@] + rest_view);
    r
}

/// Matches the tokens from the `i`-th on against the path from `pos` on.
pub(crate) fn match_tokens(
    tokens: &Vec<OptimizedToken>,
    i: usize,
    path: &Vec<char>,
    pos: usize,
    case_insensitive: bool,
) -> (r: Result<(Vec<Captured>, usize), MatchError>)
    requires
        i <= tokens.len(),
        pos <= path.len(),
    ensures
        matched_is(
            r,
            match_from(tokens_view(tokens@), i as int, path@, pos as int, case_insensitive),
        ),
        r matches Ok((_, end)) ==> pos <= end <= path.len(),
    decreases tokens, tokens.len() - i, path.len() - pos + 2,
{
    let ghost model = tokens_view(tokens@);
    if i >= tokens.len() {
        let none: Vec<Captured> = Vec::new();
        assert(captures_view(none@) =~= Seq::<CapturedSpec>::empty());
        return Ok((none, pos));
    }
    assert(model[i as int] == tokens@[i as int]@);
    match &tokens[i] {
        OptimizedToken::Match(text) => {
            let literal = chars_of(text.as_str());
            if starts_with_at(path, pos, &literal, case_insensitive) {
                match_tokens(tokens, i + 1, path, pos + literal.len(), case_insensitive)
            } else {
                Err(MatchError::LiteralMismatch)
            }
        },
        OptimizedToken::Capture(capture) => {
            let end = match capture {
                CaptureVariant::ManyUnnamed | CaptureVariant::ManyNamed(_) => {
                    return longest_match(tokens, i, capture, path, pos, case_insensitive);
                },
                CaptureVariant::NumberedUnnamed { sections } => end_of_segments(
                    path,
                    pos,
                    *sections,
                ),
                CaptureVariant::NumberedNamed { sections, name } => end_of_segments(
                    path,
                    pos,
                    *sections,
                ),
                _ => Some(find_char(path, pos, '/')),
            };
            match end {
                None => Err(MatchError::InsufficientSegments),
                Some(end) => match match_tokens(tokens, i + 1, path, end, case_insensitive) {
                    Ok((rest, last)) => {
                        let first = Captured {
                            name: name_of(capture),
                            value: string_of(path, pos, end),
                        };
                        Ok((with_first(first, rest), last))
                    },
                    Err(e) => Err(e),
                },
            }
        },
        OptimizedToken::Optional(inner) => {
            let (mut taken, at) = match match_tokens(inner, 0, path, pos, case_insensitive) {
                Ok(found) => found,
                Err(_) => {
                    let none: Vec<Captured> = Vec::new();
                    assert(captures_view(none@) =~= Seq::<CapturedSpec>::empty());
                    (none, pos)
                },
            };
            match match_tokens(tokens, i + 1, path, at, case_insensitive) {
                Ok((mut rest, last)) => {
                    let ghost both = captures_view(taken@) + captures_view(rest@);
                    taken.append(&mut rest);
                    assert(captures_view(taken@) =~= both);
                    Ok((taken, last))
                },
                Err(e) => Err(e),
            }
        },
    }
}

/// Matches a greedy capture, the `i`-th token, that starts at `pos`: tries
/// every end from the end of the path downwards and keeps the first at which
/// the tokens behind the capture match.
fn longest_match(
    tokens: &Vec<OptimizedToken>,
    i: usize,
    capture: &CaptureVariant,
    path: &Vec<char>,
    pos: usize,
    case_insensitive: bool,
) -> (r: Result<(Vec<Captured>, usize), MatchError>)
    requires
        i < tokens.len(),
        pos <= path.len(),
        tokens@[i as int]@ == TokenSpec::Capture(capture@),
    ensures
        matched_is(
            r,
            longest_from(
                tokens_view(tokens@),
                i as int,
                path@,
                pos as int,
                path.len() as int,
                case_insensitive,
            ),
        ),
        r matches Ok((_, end)) ==> pos <= end <= path.len(),
    decreases tokens, tokens.len() - i, path.len() - pos + 1,
{
    let ghost model = tokens_view(tokens@);
    assert(model[i as int] == tokens@[i as int]@);
    let mut end: usize = path.len();
    loop
        invariant
            i < tokens.len(),
            pos <= end <= path.len(),
            model == tokens_view(tokens@),
            model[i as int] == TokenSpec::Capture(capture@),
            longest_from(model, i as int, path@, pos as int, path.len() as int, case_insensitive)
                == longest_from(model, i as int, path@, pos as int, end as int, case_insensitive),
        decreases end - pos,
    {
        match match_tokens(tokens, i + 1, path, end, case_insensitive) {
            Ok((rest, last)) => {
                let first = Captured { name: name_of(capture), value: string_of(path, pos, end) };
                return Ok((with_first(first, rest), last));
            },
            Err(_) => {
                if end == pos {
                    assert(longest_from(
                        model,
                        i as int,
                        path@,
                        pos as int,
                        end - 1,
                        case_insensitive,
                    ) == Err::<(Seq<CapturedSpec>, int), MatchError>(MatchError::Unsatisfiable));
                    return Err(MatchError::Unsatisfiable);
                }
                end = end - 1;
            },
        }
    }
}

/// The texts of strings.
pub open spec fn texts(strings: Seq<String>) -> Seq<Seq<char>> {
    strings.map_values(|s: String| s@)
}

/// The values of the named captures, by name; where a name occurs more than
/// once, the value captured first: no value is written over.
pub open spec fn named_values(captures: Seq<CapturedSpec>) -> Map<Seq<char>, Seq<char>>
    decreases captures.len(),
{
    if captures.len() == 0 {
        Map::empty()
    } else {
        let before = named_values(captures.drop_last());
        match captures.last().name {
            Some(name) => {
                if before.contains_key(name) {
                    before
                } else {
                    before.insert(name, captures.last().value)
                }
            },
            None => before,
        }
    }
}

/// The values of all captures, in the order in which they were captured.
pub open spec fn values_of(captures: Seq<CapturedSpec>) -> Seq<Seq<char>> {
    captures.map_values(|c: CapturedSpec| c.value)
}

/// The match of a whole path: the captured values where the tokens match the
/// path and use it up.
pub open spec fn full_match(tokens: Seq<TokenSpec>, path: Seq<char>, case_insensitive: bool) -> Result<
    Seq<CapturedSpec>,
    MatchError,
> {
    match match_from(tokens, 0, path, 0, case_insensitive) {
        Ok((captures, end)) => {
            if end >= path.len() {
                Ok(captures)
            } else {
                Err(MatchError::TrailingPath)
            }
        },
        Err(e) => Err(e),
    }
}

/// The values that the captures of a pattern took from a path, in the order
/// of the captures.
#[derive(Debug, PartialEq, Eq)]
pub struct Captures {
    /// One entry for each capture that took part in the match.
    pub entries: Vec<Captured>,
}

impl View for Captures {
    type V = Seq<CapturedSpec>;

    open spec fn view(&self) -> Seq<CapturedSpec> {
        captures_view(self.entries@)
    }
}

impl Captures {
    /// The values of the named captures, by name. Where a name occurs more
    /// than once, the map holds the value captured first.
    pub fn to_map(&self) -> (r: CaptureMap)
        ensures
            r@ == named_values(self@),
    {
        let mut map = CaptureMap::new();
        let mut j: usize = 0;
        assert(self@.take(0) =~= Seq::<CapturedSpec>::empty());
        while j < self.entries.len()
            invariant
                j <= self.entries.len(),
                map@ == named_values(self@.take(j as int)),
            decreases self.entries.len() - j,
        {
            proof {
                assert(self@.take(j + 1).drop_last() =~= self@.take(j as int));
                assert(self@.take(j + 1).last() == self.entries@[j as int]@);
            }
            match &self.entries[j].name {
                Some(name) => {
                    if !map.contains_key(name.as_str()) {
                        map.insert(name.clone(), self.entries[j].value.clone());
                    }
                },
                None => {},
            }
            j += 1;
        }
        assert(self@.take(self.entries.len() as int) =~= self@);
        map
    }

    /// The values of all captures, in order.
    pub fn to_vec(&self) -> (r: Vec<String>)
        ensures
            texts(r@) == values_of(self@),
    {
        let mut values: Vec<String> = Vec::new();
        let mut j: usize = 0;
        while j < self.entries.len()
            invariant
                j <= self.entries.len(),
                values.len() == j,
                forall|k: int| 0 <= k < j ==> values@[k]@ == self.entries@[k].value@,
            decreases self.entries.len() - j,
        {
            values.push(self.entries[j].value.clone());
            j += 1;
        }
        assert(texts(values@) =~= values_of(self@));
        values
    }
}

/// A pattern that is ready to match paths: its tokens and how to compare
/// literals.
#[derive(Debug, PartialEq, Eq)]
pub struct RouteMatcher {
    /// The optimized tokens of the pattern.
    pub tokens: Vec<OptimizedToken>,
    /// How literals are compared.
    pub settings: MatcherSettings,
}

impl RouteMatcher {
    /// The matcher for the pattern `i`. Fails exactly where the pattern does
    /// not parse.
    pub fn new(i: &str, settings: MatcherSettings) -> (r: Result<Self, ParseError>)
        ensures
            match r {
                Ok(matcher) => pattern_optimized(i@) == Ok::<Seq<TokenSpec>, ParseError>(
                    tokens_view(matcher.tokens@),
                ) && matcher.settings == settings,
                Err(e) => pattern_optimized(i@) == Err::<Seq<TokenSpec>, ParseError>(e),
            },
    {
        match parse_and_optimize(i) {
            Ok(tokens) => Ok(RouteMatcher { tokens, settings }),
            Err(e) => Err(e),
        }
    }

    /// The match of the start of `i`, as the model gives it.
    pub open spec fn matched(&self, i: Seq<char>) -> Result<(Seq<CapturedSpec>, int), MatchError> {
        match_from(tokens_view(self.tokens@), 0, i, 0, self.settings.case_insensitive)
    }

    /// Matches the start of `i` and hands back every capture with its name
    /// and value, in order, with what is left of `i`.
    pub fn capture_route<'a>(&self, i: &'a str) -> (r: Result<(&'a str, Captures), MatchError>)
        ensures
            match r {
                Ok((rest, captures)) => {
                    &&& self.matched(i@) matches Ok((found, end))
                    &&& captures@ == found
                    &&& 0 <= end <= i@.len()
                    &&& rest@ == i@.subrange(end, i@.len() as int)
                },
                Err(e) => self.matched(i@) == Err::<(Seq<CapturedSpec>, int), MatchError>(e),
            },
    {
        let path = chars_of(i);
        match match_tokens(&self.tokens, 0, &path, 0, self.settings.case_insensitive) {
            Ok((entries, end)) => Ok((i.substring_char(end, path.len()), Captures { entries })),
            Err(e) => Err(e),
        }
    }

    /// Matches the start of `i` and hands back the values of the named
    /// captures by name, with what is left of `i`.
    pub fn capture_route_into_map<'a>(&self, i: &'a str) -> (r: Result<
        (&'a str, CaptureMap),
        MatchError,
    >)
        ensures
            match r {
                Ok((rest, map)) => {
                    &&& self.matched(i@) matches Ok((found, end))
                    &&& map@ == named_values(found)
                    &&& 0 <= end <= i@.len()
                    &&& rest@ == i@.subrange(end, i@.len() as int)
                },
                Err(e) => self.matched(i@) == Err::<(Seq<CapturedSpec>, int), MatchError>(e),
            },
    {
        match self.capture_route(i) {
            Ok((rest, captures)) => Ok((rest, captures.to_map())),
            Err(e) => Err(e),
        }
    }

    /// Matches the start of `i` and hands back the values of all captures in
    /// order, with what is left of `i`.
    pub fn capture_route_into_vec<'a>(&self, i: &'a str) -> (r: Result<
        (&'a str, Vec<String>),
        MatchError,
    >)
        ensures
            match r {
                Ok((rest, values)) => {
                    &&& self.matched(i@) matches Ok((found, end))
                    &&& texts(values@) == values_of(found)
                    &&& 0 <= end <= i@.len()
                    &&& rest@ == i@.subrange(end, i@.len() as int)
                },
                Err(e) => self.matched(i@) == Err::<(Seq<CapturedSpec>, int), MatchError>(e),
            },
    {
        match self.capture_route(i) {
            Ok((rest, captures)) => Ok((rest, captures.to_vec())),
            Err(e) => Err(e),
        }
    }
}

/// Matches the whole of `path` against `tokens`. Succeeds, with the captured
/// values, exactly where the tokens match the path from its start and
/// nothing of it is left.
pub fn match_path(tokens: &Vec<OptimizedToken>, settings: &MatcherSettings, path: &str) -> (r: Result<
    Captures,
    MatchError,
>)
    ensures
        match r {
            Ok(captures) => full_match(tokens_view(tokens@), path@, settings.case_insensitive)
                == Ok::<Seq<CapturedSpec>, MatchError>(captures@),
            Err(e) => full_match(tokens_view(tokens@), path@, settings.case_insensitive) == Err::<
                Seq<CapturedSpec>,
                MatchError,
            >(e),
        },
{
    let chars = chars_of(path);
    match match_tokens(tokens, 0, &chars, 0, settings.case_insensitive) {
        Ok((entries, end)) => {
            if end >= chars.len() {
                Ok(Captures { entries })
            } else {
                Err(MatchError::TrailingPath)
            }
        },
        Err(e) => Err(e),
    }
}

} // verus!
