//! The two matchers of a section: a literal text and a capture in braces.

use vstd::prelude::*;
use crate::parser::token::{CaptureSpec, CaptureVariant, ParseError, ParseErrorKind, ParserTokenSpec, RouteParserToken};
use crate::decimal::{decimal_value, digit, is_digit, magnitude};
use crate::text::{find_char, scan_to, string_of};

verus! {

/// The characters that shape a pattern or a route, and so cannot stand in a
/// literal text.
pub open spec fn is_reserved(c: char) -> bool {
    c == '/' || c == '{' || c == '}' || c == '[' || c == ']' || c == '*' || c == '?' || c == '&'
        || c == '#'
}

/// Whether `c` can stand in the name of a capture: an ASCII letter, a digit
/// or an underscore.
pub open spec fn is_name_char(c: char) -> bool {
    ('a' <= c && c <= 'z') || ('A' <= c && c <= 'Z') || is_digit(c) || c == '_'
}

/// Whether `text` is the name of a capture: not empty, made of name
/// characters, and not starting with a digit.
pub open spec fn is_name(text: Seq<char>) -> bool {
    &&& text.len() > 0
    &&& !is_digit(text[0])
    &&& forall|i: int| 0 <= i < text.len() ==> is_name_char(#[trigger] text[i])
}

/// The position of the first reserved character in `s` at or after `pos`,
/// or the length of `s`.
pub open spec fn literal_end(s: Seq<char>, pos: int) -> int
    decreases s.len() - pos,
{
    if pos < 0 || pos >= s.len() {
        s.len() as int
    } else if is_reserved(s[pos]) {
        pos
    } else {
        literal_end(s, pos + 1)
    }
}

/// The position of the first character in `s` at or after `pos` that is no
/// digit, or the length of `s`.
pub open spec fn digits_end(s: Seq<char>, pos: int) -> int
    decreases s.len() - pos,
{
    if pos < 0 || pos >= s.len() {
        s.len() as int
    } else if !is_digit(s[pos]) {
        pos
    } else {
        digits_end(s, pos + 1)
    }
}

/// A counted capture of `count` segments, with or without a name; refused
/// when the count does not fit the machine's word.
pub open spec fn counted_capture(count: nat, name: Option<Seq<char>>) -> Result<
    CaptureSpec,
    ParseErrorKind,
> {
    if count > usize::MAX {
        Err(ParseErrorKind::InvalidCount)
    } else {
        match name {
            None => Ok(CaptureSpec::NumberedUnnamed { sections: count }),
            Some(name) => Ok(CaptureSpec::NumberedNamed { sections: count, name }),
        }
    }
}

/// The capture that the text between two braces writes.
///
/// Empty: `Unnamed`. `*`: `ManyUnnamed`. `*:name`: `ManyNamed`. Digits:
/// `NumberedUnnamed`. Digits, `:` and a name: `NumberedNamed`. A name:
/// `Named`. Anything else is no capture.
pub open spec fn capture_kind(body: Seq<char>) -> Result<CaptureSpec, ParseErrorKind> {
    if body.len() == 0 {
        Ok(CaptureSpec::Unnamed)
    } else if body[0] == '*' {
        if body.len() == 1 {
            Ok(CaptureSpec::ManyUnnamed)
        } else if body[1] == ':' && is_name(body.skip(2)) {
            Ok(CaptureSpec::ManyNamed(body.skip(2)))
        } else {
            Err(ParseErrorKind::InvalidCapture)
        }
    } else if is_digit(body[0]) {
        let d = digits_end(body, 0);
        let count = decimal_value(body.take(d));
        if d == body.len() {
            counted_capture(count, None)
        } else if body[d] == ':' && is_name(body.skip(d + 1)) {
            counted_capture(count, Some(body.skip(d + 1)))
        } else {
            Err(ParseErrorKind::InvalidCapture)
        }
    } else if is_name(body) {
        Ok(CaptureSpec::Named(body))
    } else {
        Err(ParseErrorKind::InvalidCapture)
    }
}

/// The literal that starts at `pos`: the longest run of characters that are
/// not reserved, which must not be empty. With it comes the position behind it.
pub open spec fn literal_at(s: Seq<char>, pos: int) -> Result<(ParserTokenSpec, int), ParseError> {
    let end = literal_end(s, pos);
    if 0 <= pos < end {
        Ok((ParserTokenSpec::Match(s.subrange(pos, end)), end))
    } else {
        Err(ParseError { kind: ParseErrorKind::UnexpectedInput, position: pos as usize })
    }
}

/// The capture that starts at `pos`: a `{`, the text up to the next `}`, which
/// must write a capture, and that `}`. With it comes the position behind it.
pub open spec fn capture_at(s: Seq<char>, pos: int) -> Result<(ParserTokenSpec, int), ParseError> {
    if !(0 <= pos < s.len() && s[pos] == '{') {
        Err(ParseError { kind: ParseErrorKind::UnexpectedInput, position: pos as usize })
    } else {
        let close = scan_to(s, pos + 1, '}');
        if close >= s.len() {
            Err(ParseError { kind: ParseErrorKind::UnterminatedCapture, position: pos as usize })
        } else {
            match capture_kind(s.subrange(pos + 1, close)) {
                Ok(capture) => Ok((ParserTokenSpec::Capture(capture), close + 1)),
                Err(kind) => Err(ParseError { kind, position: pos as usize }),
            }
        }
    }
}

/// Whether an executable result is the one that the model gives.
pub open spec fn token_result_is(
    r: Result<(RouteParserToken, usize), ParseError>,
    model: Result<(ParserTokenSpec, int), ParseError>,
) -> bool {
    match r {
        Ok((token, end)) => model == Ok::<(ParserTokenSpec, int), ParseError>((token@, end as int)),
        Err(e) => model == Err::<(ParserTokenSpec, int), ParseError>(e),
    }
}

/// Whether `c` is reserved.
pub fn reserved(c: char) -> (r: bool)
    ensures
        r == is_reserved(c),
{
    c == '/' || c == '{' || c == '}' || c == '[' || c == ']' || c == '*' || c == '?' || c == '&'
        || c == '#'
}

/// Whether `c` can stand in a name.
pub fn name_char(c: char) -> (r: bool)
    ensures
        r == is_name_char(c),
{
    ('a' <= c && c <= 'z') || ('A' <= c && c <= 'Z') || digit(c) || c == '_'
}

/// Whether the characters from `from` up to `to` are a name.
pub(crate) fn name_in(chars: &Vec<char>, from: usize, to: usize) -> (r: bool)
    requires
        from <= to <= chars.len(),
    ensures
        r == is_name(chars@.subrange(from as int, to as int)),
{
    let ghost text = chars@.subrange(from as int, to as int);
    if from == to || digit(chars[from]) {
        assert(from < to ==> text[0] == chars@[from as int]);
        return false;
    }
    assert(text[0] == chars@[from as int]);
    let mut i: usize = from;
    while i < to
        invariant
            from <= i <= to <= chars.len(),
            text == chars@.subrange(from as int, to as int),
            forall|j: int| 0 <= j < i - from ==> is_name_char(#[trigger] text[j]),
        decreases to - i,
    {
        if !name_char(chars[i]) {
            assert(text[i - from] == chars@[i as int]);
            return false;
        }
        assert(text[i - from] == chars@[i as int]);
        i += 1;
    }
    true
}

/// The number that the digits from `from` up to `to` write, or `None` when it
/// does not fit the machine's word.
pub(crate) fn decimal_in(chars: &Vec<char>, from: usize, to: usize) -> (r: Option<usize>)
    requires
        from <= to <= chars.len(),
        forall|i: int| from <= i < to ==> is_digit(chars@[i]),
    ensures
        match r {
            Some(n) => n == decimal_value(chars@.subrange(from as int, to as int)),
            None => decimal_value(chars@.subrange(from as int, to as int)) > usize::MAX,
        },
{
    match magnitude(chars, from, to) {
        Some(n) => {
            if n <= usize::MAX as u128 {
                Some(n as usize)
            } else {
                None
            }
        },
        None => None,
    }
}

/// The capture that the characters from `from` up to `to` write between
/// their braces.
pub(crate) fn capture_variant(chars: &Vec<char>, from: usize, to: usize) -> (r: Result<
    CaptureVariant,
    ParseErrorKind,
>)
    requires
        from <= to <= chars.len(),
    ensures
        match r {
            Ok(capture) => capture_kind(chars@.subrange(from as int, to as int)) == Ok::<
                CaptureSpec,
                ParseErrorKind,
            >(capture@),
            Err(kind) => capture_kind(chars@.subrange(from as int, to as int)) == Err::<
                CaptureSpec,
                ParseErrorKind,
            >(kind),
        },
{
    let ghost body = chars@.subrange(from as int, to as int);
    if from == to {
        return Ok(CaptureVariant::Unnamed);
    }
    let first = chars[from];
    assert(body[0] == first);
    if first == '*' {
        if to - from == 1 {
            Ok(CaptureVariant::ManyUnnamed)
        } else {
            assert(body[1] == chars@[from + 1]);
            assert(body.skip(2) == chars@.subrange(from + 2, to as int));
            if chars[from + 1] == ':' && name_in(chars, from + 2, to) {
                Ok(CaptureVariant::ManyNamed(string_of(chars, from + 2, to)))
            } else {
                Err(ParseErrorKind::InvalidCapture)
            }
        }
    } else if digit(first) {
        let mut d: usize = from;
        while d < to && digit(chars[d])
            invariant
                from <= d <= to <= chars.len(),
                body == chars@.subrange(from as int, to as int),
                digits_end(body, 0) == digits_end(body, d - from),
                forall|j: int| from <= j < d ==> is_digit(chars@[j]),
            decreases to - d,
        {
            assert(body[d - from] == chars@[d as int]);
            d += 1;
        }
        assert(d < to ==> body[d - from] == chars@[d as int]);
        assert(digits_end(body, 0) == d - from);
        assert(body.take(d - from) == chars@.subrange(from as int, d as int));
        let count = decimal_in(chars, from, d);
        if d == to {
            match count {
                Some(sections) => Ok(CaptureVariant::NumberedUnnamed { sections }),
                None => Err(ParseErrorKind::InvalidCount),
            }
        } else {
            assert(body.skip(d - from + 1) == chars@.subrange(d + 1, to as int));
            if chars[d] == ':' && name_in(chars, d + 1, to) {
                match count {
                    Some(sections) => Ok(
                        CaptureVariant::NumberedNamed {
                            sections,
                            name: string_of(chars, d + 1, to),
                        },
                    ),
                    None => Err(ParseErrorKind::InvalidCount),
                }
            } else {
                Err(ParseErrorKind::InvalidCapture)
            }
        }
    } else if name_in(chars, from, to) {
        Ok(CaptureVariant::Named(string_of(chars, from, to)))
    } else {
        Err(ParseErrorKind::InvalidCapture)
    }
}

/// Reads a literal text at `pos`: the longest run of characters that are not
/// reserved. Fails where that run is empty.
pub fn match_specific(chars: &Vec<char>, pos: usize) -> (r: Result<
    (RouteParserToken, usize),
    ParseError,
>)
    ensures
        token_result_is(r, literal_at(chars@, pos as int)),
        r matches Ok((_, end)) ==> pos < end <= chars.len(),
{
    if pos >= chars.len() {
        return Err(ParseError { kind: ParseErrorKind::UnexpectedInput, position: pos });
    }
    let mut end: usize = pos;
    while end < chars.len() && !reserved(chars[end])
        invariant
            pos <= end <= chars.len(),
            literal_end(chars@, pos as int) == literal_end(chars@, end as int),
        decreases chars.len() - end,
    {
        end += 1;
    }
    if end > pos {
        Ok((RouteParserToken::Match(string_of(chars, pos, end)), end))
    } else {
        Err(ParseError { kind: ParseErrorKind::UnexpectedInput, position: pos })
    }
}

/// Reads a capture at `pos`: `{`, one of the six forms, `}`.
pub fn capture(chars: &Vec<char>, pos: usize) -> (r: Result<(RouteParserToken, usize), ParseError>)
    ensures
        token_result_is(r, capture_at(chars@, pos as int)),
        r matches Ok((token, end)) ==> pos + 2 <= end <= chars.len() && token is Capture,
{
    if pos >= chars.len() || chars[pos] != '{' {
        return Err(ParseError { kind: ParseErrorKind::UnexpectedInput, position: pos });
    }
    let close = find_char(chars, pos + 1, '}');
    if close >= chars.len() {
        return Err(ParseError { kind: ParseErrorKind::UnterminatedCapture, position: pos });
    }
    match capture_variant(chars, pos + 1, close) {
        Ok(variant) => Ok((RouteParserToken::Capture(variant), close + 1)),
        Err(kind) => Err(ParseError { kind, position: pos }),
    }
}

} // verus!
