//! What holds of matching: where captures end, what a greedy capture
//! takes, and how an optional group is passed over.

use vstd::prelude::*;
use crate::matcher::{CapturedSpec, MatchError, capture_end, longest_from, match_from, segments_end};
use crate::optimizer::TokenSpec;
use crate::parser::token::CaptureSpec;
use crate::text::{lemma_scan_to, scan_to};

verus! {

/// Segments end inside the path, at or behind where they start.
pub proof fn lemma_segments_end_bounds(path: Seq<char>, pos: int, count: nat)
    requires
        0 <= pos <= path.len(),
    ensures
        segments_end(path, pos, count) matches Some(end) ==> pos <= end <= path.len(),
    decreases count,
{
    lemma_scan_to(path, pos, '/');
    if count > 1 {
        let end = scan_to(path, pos, '/');
        if end < path.len() {
            lemma_segments_end_bounds(path, end + 1, (count - 1) as nat);
        }
    }
}

/// A capture that is not greedy ends inside the path, at or behind where it
/// starts.
pub proof fn lemma_capture_end_bounds(capture: CaptureSpec, path: Seq<char>, pos: int)
    requires
        0 <= pos <= path.len(),
    ensures
        capture_end(capture, path, pos) matches Some(end) ==> pos <= end <= path.len(),
{
    lemma_scan_to(path, pos, '/');
    match capture {
        CaptureSpec::NumberedUnnamed { sections } => lemma_segments_end_bounds(path, pos, sections),
        CaptureSpec::NumberedNamed { sections, name } => lemma_segments_end_bounds(
            path,
            pos,
            sections,
        ),
        _ => {},
    }
}

/// Where a greedy capture matches, it ends at a position from which the
/// tokens behind it match, and it took the path up to there.
pub proof fn lemma_longest_from(
    tokens: Seq<TokenSpec>,
    i: int,
    path: Seq<char>,
    pos: int,
    limit: int,
    case_insensitive: bool,
) -> (end: int)
    requires
        0 <= pos,
        limit <= path.len(),
        longest_from(tokens, i, path, pos, limit, case_insensitive) is Ok,
        tokens[i] is Capture,
    ensures
        0 <= i < tokens.len(),
        pos <= end <= limit,
        match_from(tokens, i + 1, path, end, case_insensitive) is Ok,
        longest_from(tokens, i, path, pos, limit, case_insensitive) == Ok::<
            (Seq<CapturedSpec>, int),
            MatchError,
        >(
            (
                seq![
                    CapturedSpec {
                        name: tokens[i]->Capture_0.name(),
                        value: path.subrange(pos, end),
                    },
                ] + match_from(tokens, i + 1, path, end, case_insensitive)->Ok_0.0,
                match_from(tokens, i + 1, path, end, case_insensitive)->Ok_0.1,
            ),
        ),
        forall|later: int|
            end < later <= limit ==> #[trigger] match_from(
                tokens,
                i + 1,
                path,
                later,
                case_insensitive,
            ) is Err,
    decreases limit - pos,
{
    assert(0 <= i < tokens.len() && pos <= limit);
    if match_from(tokens, i + 1, path, limit, case_insensitive) is Ok {
        limit
    } else {
        assert(longest_from(tokens, i, path, pos, limit, case_insensitive) == longest_from(
            tokens,
            i,
            path,
            pos,
            limit - 1,
            case_insensitive,
        ));
        assert(pos <= limit - 1);
        lemma_longest_from(tokens, i, path, pos, limit - 1, case_insensitive)
    }
}

/// A greedy capture takes the longest part of the path that lets the tokens
/// behind it match: they match from where it ends, and from no later
/// position.
pub proof fn lemma_greedy_takes_longest(
    tokens: Seq<TokenSpec>,
    i: int,
    path: Seq<char>,
    pos: int,
    case_insensitive: bool,
)
    requires
        0 <= i < tokens.len(),
        0 <= pos <= path.len(),
        tokens[i] matches TokenSpec::Capture(capture) && capture.is_greedy(),
        match_from(tokens, i, path, pos, case_insensitive) is Ok,
    ensures
        ({
            let found = match_from(tokens, i, path, pos, case_insensitive)->Ok_0.0;
            let end = pos + found[0].value.len();
            &&& found.len() > 0
            &&& pos <= end <= path.len()
            &&& found[0].value == path.subrange(pos, end)
            &&& match_from(tokens, i + 1, path, end, case_insensitive) is Ok
            &&& forall|later: int|
                end < later <= path.len() ==> #[trigger] match_from(
                    tokens,
                    i + 1,
                    path,
                    later,
                    case_insensitive,
                ) is Err
        }),
{
    let end = lemma_longest_from(tokens, i, path, pos, path.len() as int, case_insensitive);
}

/// An optional group that the path does not hold at its place is passed
/// over: it captures nothing, takes nothing of the path and fails nothing, so
/// that the match is the match of the tokens behind it.
pub proof fn lemma_absent_group_is_passed_over(
    tokens: Seq<TokenSpec>,
    i: int,
    path: Seq<char>,
    pos: int,
    case_insensitive: bool,
)
    requires
        0 <= i < tokens.len(),
        tokens[i] matches TokenSpec::Optional(inner) && match_from(
            inner,
            0,
            path,
            pos,
            case_insensitive,
        ) is Err,
    ensures
        match_from(tokens, i, path, pos, case_insensitive) == match_from(
            tokens,
            i + 1,
            path,
            pos,
            case_insensitive,
        ),
{
    let rest = match_from(tokens, i + 1, path, pos, case_insensitive);
    if let Ok((found, end)) = rest {
        assert(Seq::<CapturedSpec>::empty() + found =~= found);
    }
}

/// An optional group that the path holds at its place is taken: what it
/// captures comes before what the tokens behind it capture, and they go on
/// where it ends.
pub proof fn lemma_present_group_is_taken(
    tokens: Seq<TokenSpec>,
    i: int,
    path: Seq<char>,
    pos: int,
    case_insensitive: bool,
)
    requires
        0 <= i < tokens.len(),
        tokens[i] matches TokenSpec::Optional(inner) && match_from(
            inner,
            0,
            path,
            pos,
            case_insensitive,
        ) is Ok,
    ensures
        ({
            let (taken, at) = match_from(
                tokens[i]->Optional_0,
                0,
                path,
                pos,
                case_insensitive,
            )->Ok_0;
            match_from(tokens, i, path, pos, case_insensitive) == match match_from(
                tokens,
                i + 1,
                path,
                at,
                case_insensitive,
            ) {
                Ok((rest, end)) => Ok::<(Seq<CapturedSpec>, int), MatchError>((taken + rest, end)),
                Err(e) => Err(e),
            }
        }),
{
}

} // verus!
