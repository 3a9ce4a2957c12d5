//! The text that tokens are written as, and the law that ties it to the
//! parser: tokens that are well formed are what their text parses to.

use vstd::prelude::*;
use crate::decimal::{all_digits, decimal_text, decimal_value, digit_char, is_digit};
use crate::parser::capture::{capture_at, capture_kind, digits_end, is_name_char, is_reserved, literal_at, literal_end};
use crate::parser::formed::{is_capture, is_literal, well_formed};
use crate::parser::path::{sections_after, sections_at, segments_at};
use crate::parser::token::{CaptureSpec, ParseError, ParseErrorKind, ParserTokenSpec};
use crate::parser::{pattern_tokens, units_at};
use crate::text::scan_to;

verus! {

/// What stands between the braces of a capture.
pub open spec fn capture_body(capture: CaptureSpec) -> Seq<char> {
    match capture {
        CaptureSpec::Unnamed => Seq::empty(),
        CaptureSpec::ManyUnnamed => seq!['*'],
        CaptureSpec::NumberedUnnamed { sections } => decimal_text(sections),
        CaptureSpec::Named(name) => name,
        CaptureSpec::ManyNamed(name) => seq!['*', ':'] + name,
        CaptureSpec::NumberedNamed { sections, name } => decimal_text(sections) + seq![':'] + name,
    }
}

/// The text that the tokens from the `i`-th on are written as: a separator
/// as `/`, a literal as itself, a capture between braces, an optional group
/// between brackets.
pub open spec fn text_from(tokens: Seq<ParserTokenSpec>, i: int) -> Seq<char>
    decreases tokens, tokens.len() - i,
{
    if i < 0 || i >= tokens.len() {
        Seq::empty()
    } else {
        let head = match tokens[i] {
            ParserTokenSpec::Separator => seq!['/'],
            ParserTokenSpec::Match(text) => text,
            ParserTokenSpec::Capture(capture) => seq!['{'] + capture_body(capture) + seq!['}'],
            ParserTokenSpec::Optional(inner) => seq!['['] + text_from(inner, 0) + seq![']'],
        };
        head + text_from(tokens, i + 1)
    }
}

/// The pattern that writes `tokens`.
pub open spec fn pattern_text(tokens: Seq<ParserTokenSpec>) -> Seq<char> {
    text_from(tokens, 0)
}

/// The digits of a number are digits, one or more.
pub proof fn lemma_decimal_text_digits(n: nat)
    ensures
        decimal_text(n).len() > 0,
        all_digits(decimal_text(n)),
    decreases n,
{
    if n >= 10 {
        lemma_decimal_text_digits(n / 10);
    }
    assert forall|i: int| 0 <= i < decimal_text(n).len() implies is_digit(
        #[trigger] decimal_text(n)[i],
    ) by {
        if n >= 10 && i < decimal_text(n / 10).len() {
            assert(decimal_text(n)[i] == decimal_text(n / 10)[i]);
        }
    }
}

/// The digits of a number write that number.
pub proof fn lemma_decimal_value_of_text(n: nat)
    ensures
        decimal_value(decimal_text(n)) == n,
    decreases n,
{
    if n >= 10 {
        lemma_decimal_value_of_text(n / 10);
        assert(decimal_text(n).drop_last() =~= decimal_text(n / 10));
        assert(decimal_text(n).last() == digit_char((n % 10) as int));
    } else {
        assert(decimal_text(n).drop_last() =~= Seq::<char>::empty());
        assert(decimal_text(n).last() == digit_char(n as int));
        assert(decimal_value(Seq::<char>::empty()) == 0);
    }
}

/// Whether `s` holds `text` at `pos`.
pub open spec fn holds_at(s: Seq<char>, pos: int, text: Seq<char>) -> bool {
    &&& 0 <= pos
    &&& pos + text.len() <= s.len()
    &&& forall|j: int| 0 <= j < text.len() ==> s[pos + j] == #[trigger] text[j]
}

/// A scan stops at the first place that holds what it looks for.
pub proof fn lemma_scan_stops(s: Seq<char>, pos: int, stop: char, end: int)
    requires
        0 <= pos <= end < s.len(),
        s[end] == stop,
        forall|i: int| pos <= i < end ==> s[i] != stop,
    ensures
        scan_to(s, pos, stop) == end,
    decreases end - pos,
{
    if pos < end {
        lemma_scan_stops(s, pos + 1, stop, end);
    }
}

/// A literal ends at the first reserved character, or at the end.
pub proof fn lemma_literal_stops(s: Seq<char>, pos: int, end: int)
    requires
        0 <= pos <= end <= s.len(),
        forall|i: int| pos <= i < end ==> !is_reserved(s[i]),
        end < s.len() ==> is_reserved(s[end]),
    ensures
        literal_end(s, pos) == end,
    decreases end - pos,
{
    if pos < end {
        lemma_literal_stops(s, pos + 1, end);
    }
}

/// Digits end at the first character that is none, or at the end.
pub proof fn lemma_digits_stop(s: Seq<char>, pos: int, end: int)
    requires
        0 <= pos <= end <= s.len(),
        forall|i: int| pos <= i < end ==> is_digit(s[i]),
        end < s.len() ==> !is_digit(s[end]),
    ensures
        digits_end(s, pos) == end,
    decreases end - pos,
{
    if pos < end {
        lemma_digits_stop(s, pos + 1, end);
    }
}

/// What stands between the braces of a capture that can be written holds no
/// brace, and writes that capture.
pub proof fn lemma_capture_body(capture: CaptureSpec)
    requires
        is_capture(capture),
    ensures
        capture_kind(capture_body(capture)) == Ok::<CaptureSpec, ParseErrorKind>(capture),
        forall|j: int|
            0 <= j < capture_body(capture).len() ==> #[trigger] capture_body(capture)[j] != '}',
{
    let body = capture_body(capture);
    match capture {
        CaptureSpec::Unnamed => {},
        CaptureSpec::ManyUnnamed => {},
        CaptureSpec::NumberedUnnamed { sections } => {
            lemma_decimal_text_digits(sections);
            lemma_decimal_value_of_text(sections);
            assert(is_digit(body[0]));
            lemma_digits_stop(body, 0, body.len() as int);
            assert(body.take(body.len() as int) =~= body);
        },
        CaptureSpec::Named(name) => {
            assert(is_name_char(name[0]));
        },
        CaptureSpec::ManyNamed(name) => {
            assert(body.skip(2) =~= name);
            assert forall|j: int| 0 <= j < body.len() implies #[trigger] body[j] != '}' by {
                if j >= 2 {
                    assert(body[j] == name[j - 2]);
                    assert(is_name_char(name[j - 2]));
                }
            }
        },
        CaptureSpec::NumberedNamed { sections, name } => {
            let digits = decimal_text(sections);
            lemma_decimal_text_digits(sections);
            lemma_decimal_value_of_text(sections);
            let d = digits.len() as int;
            assert(body[0] == digits[0]);
            assert(is_digit(digits[0]));
            assert forall|j: int| 0 <= j < d implies is_digit(body[j]) by {
                assert(body[j] == digits[j]);
            }
            assert(body[d] == ':');
            lemma_digits_stop(body, 0, d);
            assert(body.take(d) =~= digits);
            assert(body.skip(d + 1) =~= name);
            assert forall|j: int| 0 <= j < body.len() implies #[trigger] body[j] != '}' by {
                if j < d {
                    assert(body[j] == digits[j]);
                    assert(is_digit(digits[j]));
                } else if j > d {
                    assert(body[j] == name[j - d - 1]);
                    assert(is_name_char(name[j - d - 1]));
                }
            }
        },
    }
    assert forall|j: int| 0 <= j < body.len() implies #[trigger] body[j] != '}' by {
        match capture {
            CaptureSpec::NumberedUnnamed { sections } => {
                lemma_decimal_text_digits(sections);
                assert(is_digit(body[j]));
            },
            CaptureSpec::Named(name) => {
                assert(is_name_char(name[j]));
            },
            _ => {},
        }
    }
}

/// A capture that can be written is read back from where its text stands.
pub proof fn lemma_capture_read_back(s: Seq<char>, pos: int, capture: CaptureSpec)
    requires
        is_capture(capture),
        holds_at(s, pos, seq!['{'] + capture_body(capture) + seq!['}']),
    ensures
        capture_at(s, pos) == Ok::<(ParserTokenSpec, int), ParseError>(
            (ParserTokenSpec::Capture(capture), pos + capture_body(capture).len() + 2),
        ),
{
    let body = capture_body(capture);
    let text = seq!['{'] + body + seq!['}'];
    let close = pos + 1 + body.len();
    lemma_capture_body(capture);
    assert(text[0] == '{');
    assert(s[pos + 0] == text[0]);
    let last = body.len() as int + 1;
    assert(text[last] == '}');
    assert(s[pos + last] == text[last]);
    assert forall|i: int| pos + 1 <= i < close implies s[i] != '}' by {
        assert(text[i - pos] == body[i - pos - 1]);
        assert(s[pos + (i - pos)] == text[i - pos]);
    }
    lemma_scan_stops(s, pos + 1, '}', close);
    assert(s.subrange(pos + 1, close) =~= body) by {
        assert forall|k: int| 0 <= k < body.len() implies s.subrange(pos + 1, close)[k]
            == body[k] by {
            assert(text[k + 1] == body[k]);
            assert(s[pos + (k + 1)] == text[k + 1]);
        }
    }
}

/// A literal is read back from where its text stands, if no literal
/// character follows it.
pub proof fn lemma_literal_read_back(s: Seq<char>, pos: int, text: Seq<char>)
    requires
        is_literal(text),
        holds_at(s, pos, text),
        pos + text.len() < s.len() ==> is_reserved(s[pos + text.len()]),
    ensures
        literal_at(s, pos) == Ok::<(ParserTokenSpec, int), ParseError>(
            (ParserTokenSpec::Match(text), pos + text.len()),
        ),
{
    let end = pos + text.len();
    assert forall|i: int| pos <= i < end implies !is_reserved(s[i]) by {
        assert(s[pos + (i - pos)] == text[i - pos]);
    }
    lemma_literal_stops(s, pos, end);
    assert(s.subrange(pos, end) =~= text) by {
        assert forall|k: int| 0 <= k < text.len() implies s.subrange(pos, end)[k] == text[k] by {
            assert(s[pos + k] == text[k]);
        }
    }
}

/// Whether `s` ends behind the text of the tokens from the `i`-th on, which
/// stands at `pos`, or goes on with a `]`.
pub open spec fn closes_after(s: Seq<char>, pos: int, tokens: Seq<ParserTokenSpec>, i: int) -> bool {
    let end = pos + text_from(tokens, i).len();
    end < s.len() ==> s[end] == ']'
}

/// What the text of well-formed tokens begins with: a separator with `/`, a
/// capture with `{`, a group with `[`, a literal with a character that is
/// not reserved.
pub proof fn lemma_text_begins(tokens: Seq<ParserTokenSpec>, i: int)
    requires
        well_formed(tokens),
        0 <= i < tokens.len(),
    ensures
        text_from(tokens, i).len() > 0,
        tokens[i] is Separator ==> text_from(tokens, i)[0] == '/',
        tokens[i] is Capture ==> text_from(tokens, i)[0] == '{',
        tokens[i] is Optional ==> text_from(tokens, i)[0] == '[',
        tokens[i] is Match ==> !is_reserved(text_from(tokens, i)[0]),
{
    let rest = text_from(tokens, i + 1);
    match tokens[i] {
        ParserTokenSpec::Separator => {
            assert((seq!['/'] + rest)[0] == '/');
        },
        ParserTokenSpec::Match(text) => {
            assert((text + rest)[0] == text[0]);
        },
        ParserTokenSpec::Capture(capture) => {
            assert((seq!['{'] + capture_body(capture) + seq!['}'] + rest)[0] == '{');
        },
        ParserTokenSpec::Optional(inner) => {
            assert((seq!['['] + text_from(inner, 0) + seq![']'] + rest)[0] == '[');
        },
    }
}

/// A text that stands at a place stands there piece by piece.
pub proof fn lemma_holds_at_parts(s: Seq<char>, pos: int, head: Seq<char>, rest: Seq<char>)
    requires
        holds_at(s, pos, head + rest),
    ensures
        holds_at(s, pos, head),
        holds_at(s, pos + head.len(), rest),
{
    let whole = head + rest;
    assert forall|j: int| 0 <= j < head.len() implies s[pos + j] == #[trigger] head[j] by {
        assert(whole[j] == head[j]);
    }
    assert forall|j: int| 0 <= j < rest.len() implies s[pos + head.len() + j]
        == #[trigger] rest[j] by {
        assert(whole[head.len() + j] == rest[j]);
        assert(s[pos + (head.len() + j)] == whole[head.len() + j]);
    }
}

/// No matcher can be read where a separator, a group or the end of a group
/// stands, or where the text ends.
pub proof fn lemma_no_matcher(s: Seq<char>, pos: int)
    requires
        0 <= pos <= s.len(),
        pos < s.len() ==> s[pos] == '/' || s[pos] == '[' || s[pos] == ']',
    ensures
        literal_at(s, pos) is Err,
        capture_at(s, pos) is Err,
        sections_at(s, pos) is Err,
{
}

/// What stands at `pos` where the text of the tokens from the `i`-th on
/// begins: the first character of that text, or what follows the tokens.
pub proof fn lemma_char_at_start(s: Seq<char>, pos: int, tokens: Seq<ParserTokenSpec>, i: int)
    requires
        well_formed(tokens),
        0 <= i <= tokens.len(),
        holds_at(s, pos, text_from(tokens, i)),
        closes_after(s, pos, tokens, i),
    ensures
        i < tokens.len() ==> pos < s.len() && s[pos] == text_from(tokens, i)[0],
        i == tokens.len() ==> (pos < s.len() ==> s[pos] == ']'),
{
    if i < tokens.len() {
        lemma_text_begins(tokens, i);
        assert(s[pos + 0] == text_from(tokens, i)[0]);
    }
}

/// The matchers that follow one another are read back from where their
/// text stands: all of them up to the next separator or group.
pub proof fn lemma_sections_after_read_back(
    s: Seq<char>,
    pos: int,
    tokens: Seq<ParserTokenSpec>,
    i: int,
) -> (r: (int, int))
    requires
        well_formed(tokens),
        0 < i <= tokens.len(),
        tokens[i - 1] is Match || tokens[i - 1] is Capture,
        holds_at(s, pos, text_from(tokens, i)),
        closes_after(s, pos, tokens, i),
    ensures
        i <= r.0 <= tokens.len(),
        r.0 < tokens.len() ==> tokens[r.0] is Separator || tokens[r.0] is Optional,
        sections_after(s, pos, tokens[i - 1] is Capture) == (tokens.subrange(i, r.0), r.1),
        holds_at(s, r.1, text_from(tokens, r.0)),
        r.1 + text_from(tokens, r.0).len() == pos + text_from(tokens, i).len(),
        pos <= r.1,
    decreases tokens.len() - i,
{
    let after_capture = tokens[i - 1] is Capture;
    lemma_char_at_start(s, pos, tokens, i);
    if i < tokens.len() {
        lemma_text_begins(tokens, i);
    }
    if i == tokens.len() || tokens[i] is Separator || tokens[i] is Optional {
        lemma_no_matcher(s, pos);
        assert(tokens.subrange(i, i) =~= Seq::<ParserTokenSpec>::empty());
        (i, pos)
    } else {
        let rest = text_from(tokens, i + 1);
        let ghost head: Seq<char>;
        match tokens[i] {
            ParserTokenSpec::Match(text) => {
                head = text;
                lemma_holds_at_parts(s, pos, head, rest);
                lemma_char_at_start(s, pos + head.len(), tokens, i + 1);
                if i + 1 < tokens.len() {
                    lemma_text_begins(tokens, i + 1);
                    assert(tokens[i + 1 - 1] is Match);
                }
                lemma_literal_read_back(s, pos, text);
            },
            ParserTokenSpec::Capture(capture) => {
                head = seq!['{'] + capture_body(capture) + seq!['}'];
                lemma_holds_at_parts(s, pos, head, rest);
                lemma_capture_read_back(s, pos, capture);
            },
            _ => {
                head = Seq::empty();
            },
        }
        let next = pos + head.len();
        let (j, end) = lemma_sections_after_read_back(s, next, tokens, i + 1);
        assert(seq![tokens[i]] + tokens.subrange(i + 1, j) =~= tokens.subrange(i, j));
        (j, end)
    }
}

/// The segments of a path are read back from where their text stands: all
/// tokens up to the next group.
pub proof fn lemma_segments_read_back(
    s: Seq<char>,
    pos: int,
    tokens: Seq<ParserTokenSpec>,
    i: int,
) -> (r: (int, int))
    requires
        well_formed(tokens),
        0 <= i <= tokens.len(),
        i < tokens.len() ==> tokens[i] is Separator || tokens[i] is Optional,
        holds_at(s, pos, text_from(tokens, i)),
        closes_after(s, pos, tokens, i),
    ensures
        i <= r.0 <= tokens.len(),
        r.0 < tokens.len() ==> tokens[r.0] is Optional,
        i < tokens.len() && tokens[i] is Separator ==> i < r.0 && pos < r.1,
        segments_at(s, pos) == (tokens.subrange(i, r.0), r.1),
        holds_at(s, r.1, text_from(tokens, r.0)),
        r.1 + text_from(tokens, r.0).len() == pos + text_from(tokens, i).len(),
        pos <= r.1 <= s.len(),
    decreases tokens.len() - i,
{
    lemma_char_at_start(s, pos, tokens, i);
    if i == tokens.len() || tokens[i] is Optional {
        assert(tokens.subrange(i, i) =~= Seq::<ParserTokenSpec>::empty());
        (i, pos)
    } else {
        let rest = text_from(tokens, i + 1);
        lemma_holds_at_parts(s, pos, seq!['/'], rest);
        let start = pos + 1;
        lemma_char_at_start(s, start, tokens, i + 1);
        if i + 1 < tokens.len() {
            lemma_text_begins(tokens, i + 1);
        }
        let ghost j: int;
        let ghost after: int;
        if i + 1 == tokens.len() || tokens[i + 1] is Separator || tokens[i + 1] is Optional {
            lemma_no_matcher(s, start);
            j = i + 1;
            after = start;
            assert(tokens.subrange(i + 1, i + 1) =~= Seq::<ParserTokenSpec>::empty());
        } else {
            let behind = text_from(tokens, i + 2);
            let ghost head: Seq<char>;
            match tokens[i + 1] {
                ParserTokenSpec::Match(text) => {
                    head = text;
                    lemma_holds_at_parts(s, start, head, behind);
                    lemma_char_at_start(s, start + head.len(), tokens, i + 2);
                    if i + 2 < tokens.len() {
                        lemma_text_begins(tokens, i + 2);
                        assert(tokens[i + 2 - 1] is Match);
                    }
                    lemma_literal_read_back(s, start, text);
                },
                ParserTokenSpec::Capture(capture) => {
                    head = seq!['{'] + capture_body(capture) + seq!['}'];
                    lemma_holds_at_parts(s, start, head, behind);
                    lemma_capture_read_back(s, start, capture);
                },
                _ => {
                    head = Seq::empty();
                },
            }
            let found = lemma_sections_after_read_back(s, start + head.len(), tokens, i + 2);
            j = found.0;
            after = found.1;
            assert(seq![tokens[i + 1]] + tokens.subrange(i + 2, j) =~= tokens.subrange(i + 1, j));
        }
        assert(sections_at(s, start) is Ok ==> sections_at(s, start) == Ok::<
            (Seq<ParserTokenSpec>, int),
            ParseError,
        >((tokens.subrange(i + 1, j), after)));
        let (k, end) = lemma_segments_read_back(s, after, tokens, j);
        assert(seq![ParserTokenSpec::Separator] + tokens.subrange(i + 1, j) + tokens.subrange(j, k)
            =~= tokens.subrange(i, k));
        (k, end)
    }
}

/// The units of a pattern are read back from where their text stands.
pub proof fn lemma_units_read_back(s: Seq<char>, pos: int, tokens: Seq<ParserTokenSpec>, i: int)
    requires
        well_formed(tokens),
        0 <= i <= tokens.len(),
        i < tokens.len() ==> tokens[i] is Separator || tokens[i] is Optional,
        holds_at(s, pos, text_from(tokens, i)),
        closes_after(s, pos, tokens, i),
    ensures
        units_at(s, pos) == Ok::<(Seq<ParserTokenSpec>, int), ParseError>(
            (tokens.subrange(i, tokens.len() as int), pos + text_from(tokens, i).len()),
        ),
    decreases tokens, tokens.len() - i,
{
    let len = tokens.len() as int;
    lemma_char_at_start(s, pos, tokens, i);
    if i == len {
        assert(tokens.subrange(i, len) =~= Seq::<ParserTokenSpec>::empty());
    } else {
        lemma_text_begins(tokens, i);
        match tokens[i] {
            ParserTokenSpec::Optional(inner) => {
                let inside = text_from(inner, 0);
                let rest = text_from(tokens, i + 1);
                lemma_holds_at_parts(s, pos, seq!['['] + inside + seq![']'], rest);
                lemma_holds_at_parts(s, pos, seq!['['] + inside, seq![']']);
                lemma_holds_at_parts(s, pos, seq!['['], inside);
                let close = pos + 1 + inside.len();
                assert(seq![']'][0] == ']');
                assert(s[close + 0] == seq![']'][0]);
                assert(seq!['['][0] == '[');
                assert(s[pos + 0] == seq!['['][0]);
                assert(well_formed(inner));
                assert(inner.len() > 0 && (inner[0] is Separator || inner[0] is Optional));
                lemma_units_read_back(s, pos + 1, inner, 0);
                assert(inner.subrange(0, inner.len() as int) =~= inner);
                if i + 1 < len {
                    assert(tokens[i + 1 - 1] is Optional);
                }
                lemma_units_read_back(s, close + 1, tokens, i + 1);
                assert(seq![ParserTokenSpec::Optional(inner)] + tokens.subrange(i + 1, len)
                    =~= tokens.subrange(i, len));
            },
            _ => {
                let (k, after) = lemma_segments_read_back(s, pos, tokens, i);
                lemma_units_read_back(s, after, tokens, k);
                assert(tokens.subrange(i, k) + tokens.subrange(k, len) =~= tokens.subrange(i, len));
            },
        }
    }
}

/// Tokens that are well formed are what their text parses to: the parser
/// reads back every pattern that can be written, token for token.
pub proof fn lemma_pattern_read_back(tokens: Seq<ParserTokenSpec>)
    requires
        well_formed(tokens),
    ensures
        pattern_tokens(pattern_text(tokens)) == Ok::<Seq<ParserTokenSpec>, ParseError>(tokens),
{
    let s = pattern_text(tokens);
    lemma_units_read_back(s, 0, tokens, 0);
    assert(tokens.subrange(0, tokens.len() as int) =~= tokens);
}

} // verus!
