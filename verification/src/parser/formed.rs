//! What the parser gives is well formed: literals and captures are what
//! they should be and stand where they may, and two captures never stand
//! side by side.

use vstd::prelude::*;
use crate::parser::capture::{capture_at, is_name, is_reserved, literal_at, literal_end};
use crate::parser::path::{sections_after, sections_at, segments_at};
use crate::parser::token::{CaptureSpec, ParserTokenSpec};
use crate::parser::{pattern_tokens, units_at};

verus! {

/// Whether `text` can be a literal: not empty, and free of reserved
/// characters.
pub open spec fn is_literal(text: Seq<char>) -> bool {
    &&& text.len() > 0
    &&& forall|j: int| 0 <= j < text.len() ==> !is_reserved(#[trigger] text[j])
}

/// Whether a capture can be written: its name is a name, and its count fits
/// the machine's word.
pub open spec fn is_capture(capture: CaptureSpec) -> bool {
    match capture {
        CaptureSpec::Unnamed => true,
        CaptureSpec::ManyUnnamed => true,
        CaptureSpec::NumberedUnnamed { sections } => sections <= usize::MAX,
        CaptureSpec::Named(name) => is_name(name),
        CaptureSpec::ManyNamed(name) => is_name(name),
        CaptureSpec::NumberedNamed { sections, name } => sections <= usize::MAX && is_name(name),
    }
}

/// Whether `tokens` are well formed, as a pattern or as what an optional
/// group holds: there is one token or more, the first a separator or a
/// group; a literal is a literal and follows a separator or a capture; a
/// capture can be written and follows a separator or a literal; and what a
/// group holds is well formed.
pub open spec fn well_formed(tokens: Seq<ParserTokenSpec>) -> bool
    decreases tokens,
{
    &&& tokens.len() > 0
    &&& (tokens[0] is Separator || tokens[0] is Optional)
    &&& forall|i: int|
        0 <= i < tokens.len() ==> match #[trigger] tokens[i] {
            ParserTokenSpec::Separator => true,
            ParserTokenSpec::Match(text) => is_literal(text) && i > 0 && (tokens[i - 1]
                is Separator || tokens[i - 1] is Capture),
            ParserTokenSpec::Capture(capture) => is_capture(capture) && i > 0 && (tokens[i - 1]
                is Separator || tokens[i - 1] is Match),
            ParserTokenSpec::Optional(inner) => well_formed(inner),
        }
}

/// Whether `token` may stand behind `before`, or first where there is none.
pub open spec fn may_follow(before: Option<ParserTokenSpec>, token: ParserTokenSpec) -> bool {
    match token {
        ParserTokenSpec::Separator => true,
        ParserTokenSpec::Match(text) => is_literal(text) && (before matches Some(b) && (b
            is Separator || b is Capture)),
        ParserTokenSpec::Capture(capture) => is_capture(capture) && (before matches Some(b) && (b
            is Separator || b is Match)),
        ParserTokenSpec::Optional(inner) => well_formed(inner),
    }
}

/// The token before the `i`-th of `tokens`, which stand behind `before`.
pub open spec fn token_before(
    before: Option<ParserTokenSpec>,
    tokens: Seq<ParserTokenSpec>,
    i: int,
) -> Option<ParserTokenSpec> {
    if i <= 0 {
        before
    } else {
        Some(tokens[i - 1])
    }
}

/// Whether each of `tokens`, which stand behind `before`, may stand where it
/// does.
pub open spec fn chained(before: Option<ParserTokenSpec>, tokens: Seq<ParserTokenSpec>) -> bool {
    forall|i: int|
        0 <= i < tokens.len() ==> may_follow(token_before(before, tokens, i), #[trigger] tokens[i])
}

/// Two runs of tokens that are chained, the second behind the first, are
/// chained as one.
pub proof fn lemma_chained_add(
    before: Option<ParserTokenSpec>,
    a: Seq<ParserTokenSpec>,
    b: Seq<ParserTokenSpec>,
)
    requires
        chained(before, a),
        chained(token_before(before, a, a.len() as int), b),
    ensures
        chained(before, a + b),
{
    let both = a + b;
    assert forall|i: int| 0 <= i < both.len() implies may_follow(
        token_before(before, both, i),
        #[trigger] both[i],
    ) by {
        if i < a.len() {
            assert(both[i] == a[i]);
            if i > 0 {
                assert(both[i - 1] == a[i - 1]);
            }
        } else {
            let k = i - a.len();
            assert(both[i] == b[k]);
            if k > 0 {
                assert(both[i - 1] == b[k - 1]);
            } else if i > 0 {
                assert(both[i - 1] == a[a.len() - 1]);
            }
        }
    }
}

/// Tokens that are chained behind nothing, one or more, are well formed.
pub proof fn lemma_chained_is_well_formed(tokens: Seq<ParserTokenSpec>)
    requires
        tokens.len() > 0,
        chained(None, tokens),
    ensures
        well_formed(tokens),
{
    assert(may_follow(token_before(None, tokens, 0), tokens[0]));
    assert forall|i: int| 0 <= i < tokens.len() implies match #[trigger] tokens[i] {
        ParserTokenSpec::Separator => true,
        ParserTokenSpec::Match(text) => is_literal(text) && i > 0 && (tokens[i - 1]
            is Separator || tokens[i - 1] is Capture),
        ParserTokenSpec::Capture(capture) => is_capture(capture) && i > 0 && (tokens[i - 1]
            is Separator || tokens[i - 1] is Match),
        ParserTokenSpec::Optional(inner) => well_formed(inner),
    } by {
        assert(may_follow(token_before(None, tokens, i), tokens[i]));
    }
}

/// `literal_end` stops at the first reserved character and skips no other.
pub proof fn lemma_literal_end(s: Seq<char>, pos: int)
    requires
        0 <= pos <= s.len(),
    ensures
        pos <= literal_end(s, pos) <= s.len(),
        literal_end(s, pos) < s.len() ==> is_reserved(s[literal_end(s, pos)]),
        forall|i: int| pos <= i < literal_end(s, pos) ==> !is_reserved(s[i]),
    decreases s.len() - pos,
{
    if pos < s.len() && !is_reserved(s[pos]) {
        lemma_literal_end(s, pos + 1);
    }
}

/// A literal that was read is a literal.
pub proof fn lemma_literal_read(s: Seq<char>, pos: int)
    ensures
        literal_at(s, pos) matches Ok((token, end)) ==> token matches ParserTokenSpec::Match(text)
            && is_literal(text) && pos < end <= s.len(),
{
    if let Ok((token, end)) = literal_at(s, pos) {
        lemma_literal_end(s, pos);
        let text = s.subrange(pos, end);
        assert forall|j: int| 0 <= j < text.len() implies !is_reserved(#[trigger] text[j]) by {
            assert(text[j] == s[pos + j]);
        }
    }
}

/// A capture that was read can be written.
pub proof fn lemma_capture_read(s: Seq<char>, pos: int)
    ensures
        capture_at(s, pos) matches Ok((token, end)) ==> token matches ParserTokenSpec::Capture(
            capture,
        ) && is_capture(capture),
{
}

/// The matchers that follow one another are chained behind a literal or a
/// capture, and are matchers.
pub proof fn lemma_sections_after_chained(
    s: Seq<char>,
    pos: int,
    before: ParserTokenSpec,
)
    requires
        before is Match || before is Capture,
    ensures
        chained(Some(before), sections_after(s, pos, before is Capture).0),
        forall|i: int|
            0 <= i < sections_after(s, pos, before is Capture).0.len() ==> {
                let token = #[trigger] sections_after(s, pos, before is Capture).0[i];
                token is Match || token is Capture
            },
    decreases s.len() - pos,
{
    let after_capture = before is Capture;
    let next = if after_capture {
        literal_at(s, pos)
    } else {
        capture_at(s, pos)
    };
    lemma_literal_read(s, pos);
    lemma_capture_read(s, pos);
    let out = sections_after(s, pos, after_capture).0;
    match next {
        Ok((token, end)) => {
            let one = seq![token];
            assert(one[0] == token);
            assert(chained(Some(before), one));
            if pos < end <= s.len() {
                lemma_sections_after_chained(s, end, token);
                let rest = sections_after(s, end, !after_capture).0;
                lemma_chained_add(Some(before), one, rest);
                assert forall|i: int| 0 <= i < out.len() implies {
                    let t = #[trigger] out[i];
                    t is Match || t is Capture
                } by {
                    if i > 0 {
                        assert(out[i] == rest[i - 1]);
                    }
                }
            }
        },
        Err(_) => {},
    }
}

/// The matchers of a segment are chained behind a separator, and are
/// matchers.
pub proof fn lemma_sections_chained(s: Seq<char>, pos: int)
    ensures
        sections_at(s, pos) matches Ok((tokens, _)) ==> chained(
            Some(ParserTokenSpec::Separator),
            tokens,
        ) && forall|i: int|
            0 <= i < tokens.len() ==> (#[trigger] tokens[i]) is Match || tokens[i] is Capture,
{
    let starts_capture = 0 <= pos < s.len() && s[pos] == '{';
    let first = if starts_capture {
        capture_at(s, pos)
    } else {
        literal_at(s, pos)
    };
    lemma_literal_read(s, pos);
    lemma_capture_read(s, pos);
    if let Ok((token, end)) = first {
        let one = seq![token];
        assert(one[0] == token);
        assert(chained(Some(ParserTokenSpec::Separator), one));
        lemma_sections_after_chained(s, end, token);
        let rest = sections_after(s, end, starts_capture).0;
        lemma_chained_add(Some(ParserTokenSpec::Separator), one, rest);
        let tokens = one + rest;
        assert forall|i: int| 0 <= i < tokens.len() implies (#[trigger] tokens[i]) is Match
            || tokens[i] is Capture by {
            if i > 0 {
                assert(tokens[i] == rest[i - 1]);
            }
        }
    }
}

/// The segments of a path are chained behind anything, and hold no group.
pub proof fn lemma_segments_chained(s: Seq<char>, pos: int, before: Option<ParserTokenSpec>)
    ensures
        chained(before, segments_at(s, pos).0),
        forall|i: int|
            0 <= i < segments_at(s, pos).0.len() ==> !((#[trigger] segments_at(s, pos).0[i])
                is Optional),
    decreases s.len() - pos,
{
    if 0 <= pos < s.len() && s[pos] == '/' {
        let (sections, after) = match sections_at(s, pos + 1) {
            Ok(found) => found,
            Err(_) => (Seq::empty(), pos + 1),
        };
        lemma_sections_chained(s, pos + 1);
        let separator = seq![ParserTokenSpec::Separator];
        assert(separator[0] == ParserTokenSpec::Separator);
        assert(chained(before, separator));
        lemma_chained_add(before, separator, sections);
        let head = separator + sections;
        assert forall|i: int| 0 <= i < head.len() implies !((#[trigger] head[i]) is Optional) by {
            if i > 0 {
                assert(head[i] == sections[i - 1]);
            }
        }
        if pos < after <= s.len() {
            let last = token_before(before, head, head.len() as int);
            lemma_segments_chained(s, after, last);
            let rest = segments_at(s, after).0;
            lemma_chained_add(before, head, rest);
            let out = head + rest;
            assert forall|i: int| 0 <= i < out.len() implies !((#[trigger] out[i]) is Optional) by {
                if i < head.len() {
                    assert(out[i] == head[i]);
                } else {
                    assert(out[i] == rest[i - head.len()]);
                }
            }
        }
    }
}

/// The units of a pattern are chained behind a group or behind nothing.
pub proof fn lemma_units_chained(s: Seq<char>, pos: int, before: Option<ParserTokenSpec>)
    requires
        before matches Some(b) ==> !(b is Match) && !(b is Capture),
    ensures
        units_at(s, pos) matches Ok((tokens, _)) ==> chained(before, tokens),
    decreases s.len() - pos,
{
    if 0 <= pos < s.len() && s[pos] == '/' {
        let (tokens, after) = segments_at(s, pos);
        lemma_segments_chained(s, pos, before);
        if pos < after <= s.len() {
            if let Ok((rest, end)) = units_at(s, after) {
                if 0 <= after < s.len() && s[after] == '[' {
                    lemma_units_chained(s, after, Some(ParserTokenSpec::Separator));
                    let last = token_before(before, tokens, tokens.len() as int);
                    assert(chained(last, rest)) by {
                        lemma_group_first(s, after);
                        assert forall|i: int| 0 <= i < rest.len() implies may_follow(
                            token_before(last, rest, i),
                            #[trigger] rest[i],
                        ) by {
                            assert(may_follow(
                                token_before(Some(ParserTokenSpec::Separator), rest, i),
                                rest[i],
                            ));
                        }
                    }
                    lemma_chained_add(before, tokens, rest);
                } else {
                    assert(rest.len() == 0) by {
                        lemma_segments_use_separators(s, pos);
                    }
                    assert(tokens + rest =~= tokens);
                }
            }
        }
    } else if 0 <= pos < s.len() && s[pos] == '[' {
        if let Ok((inner, close)) = units_at(s, pos + 1) {
            if inner.len() > 0 && pos < close < s.len() && s[close] == ']' {
                lemma_units_chained(s, pos + 1, None);
                lemma_chained_is_well_formed(inner);
                let group = ParserTokenSpec::Optional(inner);
                let one = seq![group];
                assert(one[0] == group);
                assert(chained(before, one));
                if let Ok((rest, end)) = units_at(s, close + 1) {
                    lemma_units_chained(s, close + 1, Some(group));
                    lemma_chained_add(before, one, rest);
                }
            }
        }
    }
}

/// Units that start with a group start with a group token.
pub proof fn lemma_group_first(s: Seq<char>, pos: int)
    requires
        0 <= pos < s.len(),
        s[pos] == '[',
    ensures
        units_at(s, pos) matches Ok((tokens, _)) ==> tokens.len() > 0 && tokens[0] is Optional,
{
    if let Ok((inner, close)) = units_at(s, pos + 1) {
        if inner.len() > 0 && pos < close < s.len() && s[close] == ']' {
            if let Ok((rest, end)) = units_at(s, close + 1) {
                assert((seq![ParserTokenSpec::Optional(inner)] + rest)[0]
                    == ParserTokenSpec::Optional(inner));
            }
        }
    }
}

/// Behind the segments of a path stands no separator.
pub proof fn lemma_segments_use_separators(s: Seq<char>, pos: int)
    ensures
        ({
            let end = segments_at(s, pos).1;
            !(0 <= end < s.len() && s[end] == '/')
        }),
    decreases s.len() - pos,
{
    if 0 <= pos < s.len() && s[pos] == '/' {
        let after = match sections_at(s, pos + 1) {
            Ok((_, after)) => after,
            Err(_) => pos + 1,
        };
        if pos < after <= s.len() {
            lemma_segments_use_separators(s, after);
        } else {
            lemma_sections_end(s, pos + 1);
        }
    }
}

/// The matchers of a segment end inside the text, behind where they start.
pub proof fn lemma_sections_end(s: Seq<char>, pos: int)
    requires
        0 <= pos <= s.len(),
    ensures
        sections_at(s, pos) matches Ok((_, end)) ==> pos < end <= s.len(),
{
    let starts_capture = 0 <= pos < s.len() && s[pos] == '{';
    lemma_literal_read(s, pos);
    crate::text::lemma_scan_to(s, if pos < s.len() { pos + 1 } else { pos }, '}');
    let first = if starts_capture {
        capture_at(s, pos)
    } else {
        literal_at(s, pos)
    };
    if let Ok((token, end)) = first {
        lemma_sections_after_end(s, end, starts_capture);
    }
}

/// The matchers that follow one another end inside the text, at or behind
/// where they start.
pub proof fn lemma_sections_after_end(s: Seq<char>, pos: int, after_capture: bool)
    requires
        0 <= pos <= s.len(),
    ensures
        pos <= sections_after(s, pos, after_capture).1 <= s.len(),
    decreases s.len() - pos,
{
    let next = if after_capture {
        literal_at(s, pos)
    } else {
        capture_at(s, pos)
    };
    lemma_literal_read(s, pos);
    crate::text::lemma_scan_to(s, if pos < s.len() { pos + 1 } else { pos }, '}');
    if let Ok((token, end)) = next {
        if pos < end <= s.len() {
            lemma_sections_after_end(s, end, !after_capture);
        }
    }
}

/// What the parser gives is well formed. In particular no pattern gives two
/// captures side by side: a capture follows a separator or a literal, in the
/// pattern and in every optional group in it.
pub proof fn lemma_pattern_well_formed(s: Seq<char>)
    ensures
        pattern_tokens(s) matches Ok(tokens) ==> well_formed(tokens),
{
    if let Ok(tokens) = pattern_tokens(s) {
        lemma_units_chained(s, 0, None);
        lemma_chained_is_well_formed(tokens);
    }
}

} // verus!
