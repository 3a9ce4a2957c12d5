//! What holds of matching and building together: a path that is built from
//! the values that matching took from a path is that path again.

use vstd::prelude::*;
use crate::builder::{ValuesSpec, build_from, built};
use crate::matcher::laws::{lemma_capture_end_bounds, lemma_longest_from};
use crate::matcher::{CapturedSpec, capture_end, full_match, match_from, named_values, values_of};
use crate::matcher::name_of;
use crate::optimizer::{OptimizedToken, TokenSpec, tokens_view};
use crate::text::{same_char, same_text};

verus! {

/// Whether no token of `tokens` is an optional group.
pub open spec fn has_no_optional(tokens: Seq<TokenSpec>) -> bool {
    forall|i: int| 0 <= i < tokens.len() ==> !(#[trigger] tokens[i] is Optional)
}

/// Texts that are the same piece by piece are the same as wholes.
pub proof fn lemma_same_text_add(
    a: Seq<char>,
    b: Seq<char>,
    c: Seq<char>,
    d: Seq<char>,
    case_insensitive: bool,
)
    requires
        same_text(a, b, case_insensitive),
        same_text(c, d, case_insensitive),
    ensures
        same_text(a + c, b + d, case_insensitive),
{
    assert forall|i: int| 0 <= i < (a + c).len() implies same_char(
        #[trigger] (a + c)[i],
        (b + d)[i],
        case_insensitive,
    ) by {
        if i < a.len() {
            assert((a + c)[i] == a[i]);
            assert((b + d)[i] == b[i]);
        } else {
            assert((a + c)[i] == c[i - a.len()]);
            assert((b + d)[i] == d[i - a.len()]);
        }
    }
}

/// The round trip from a position on, with values that are taken in order.
pub proof fn lemma_round_trip_positional_from(
    tokens: Seq<TokenSpec>,
    i: int,
    path: Seq<char>,
    pos: int,
    case_insensitive: bool,
    values: Seq<Seq<char>>,
    next: int,
)
    requires
        has_no_optional(tokens),
        0 <= i <= tokens.len(),
        0 <= pos <= path.len(),
        match_from(tokens, i, path, pos, case_insensitive) is Ok,
        0 <= next,
        ({
            let found = match_from(tokens, i, path, pos, case_insensitive)->Ok_0.0;
            &&& next + found.len() <= values.len()
            &&& values.subrange(next, next + found.len()) == values_of(found)
        }),
    ensures
        ({
            let (found, end) = match_from(tokens, i, path, pos, case_insensitive)->Ok_0;
            &&& pos <= end <= path.len()
            &&& build_from(tokens, i, ValuesSpec::Positional(values), next) matches Ok(
                (text, last),
            )
            &&& last == next + found.len()
            &&& same_text(path.subrange(pos, end), text, case_insensitive)
        }),
    decreases tokens.len() - i,
{
    let (found, end) = match_from(tokens, i, path, pos, case_insensitive)->Ok_0;
    let source = ValuesSpec::Positional(values);
    if i >= tokens.len() {
        assert(path.subrange(pos, pos) =~= Seq::<char>::empty());
    } else {
        match tokens[i] {
            TokenSpec::Match(literal) => {
                let mid = pos + literal.len();
                lemma_round_trip_positional_from(
                    tokens,
                    i + 1,
                    path,
                    mid,
                    case_insensitive,
                    values,
                    next,
                );
                let rest = build_from(tokens, i + 1, source, next)->Ok_0.0;
                lemma_same_text_add(
                    path.subrange(pos, mid),
                    literal,
                    path.subrange(mid, end),
                    rest,
                    case_insensitive,
                );
                assert(path.subrange(pos, mid) + path.subrange(mid, end) =~= path.subrange(
                    pos,
                    end,
                ));
            },
            TokenSpec::Capture(capture) => {
                let mid = if capture.is_greedy() {
                    lemma_longest_from(tokens, i, path, pos, path.len() as int, case_insensitive)
                } else {
                    lemma_capture_end_bounds(capture, path, pos);
                    capture_end(capture, path, pos)->Some_0
                };
                let behind = match_from(tokens, i + 1, path, mid, case_insensitive)->Ok_0.0;
                let first = CapturedSpec { name: capture.name(), value: path.subrange(pos, mid) };
                assert(found == seq![first] + behind);
                assert(values_of(found)[0] == first.value);
                assert(values.subrange(next, next + found.len())[0] == values[next]);
                assert(values.subrange(next + 1, next + 1 + behind.len()) =~= values_of(behind))
                    by {
                    assert forall|k: int| 0 <= k < behind.len() implies values.subrange(
                        next + 1,
                        next + 1 + behind.len(),
                    )[k] == values_of(behind)[k] by {
                        assert(values.subrange(next, next + found.len())[k + 1] == values[next + 1
                            + k]);
                        assert(values_of(found)[k + 1] == found[k + 1].value);
                        assert(found[k + 1] == behind[k]);
                    }
                }
                lemma_round_trip_positional_from(
                    tokens,
                    i + 1,
                    path,
                    mid,
                    case_insensitive,
                    values,
                    next + 1,
                );
                let rest = build_from(tokens, i + 1, source, next + 1)->Ok_0.0;
                lemma_same_text_add(
                    path.subrange(pos, mid),
                    path.subrange(pos, mid),
                    path.subrange(mid, end),
                    rest,
                    case_insensitive,
                );
                assert(path.subrange(pos, mid) + path.subrange(mid, end) =~= path.subrange(
                    pos,
                    end,
                ));
            },
            TokenSpec::Optional(inner) => {},
        }
    }
}

/// Round trip, by position: where `tokens` without optional groups match the
/// whole of `path`, the path that they write with the captured values, taken
/// in order, is `path` again, up to the case of letters where literals are
/// compared without regard to it.
pub proof fn lemma_round_trip_positional(
    tokens: Seq<TokenSpec>,
    path: Seq<char>,
    case_insensitive: bool,
)
    requires
        has_no_optional(tokens),
        full_match(tokens, path, case_insensitive) is Ok,
    ensures
        ({
            let found = full_match(tokens, path, case_insensitive)->Ok_0;
            &&& built(tokens, ValuesSpec::Positional(values_of(found))) matches Ok(text)
            &&& same_text(path, text, case_insensitive)
            &&& !case_insensitive ==> text == path
        }),
{
    let found = full_match(tokens, path, case_insensitive)->Ok_0;
    let values = values_of(found);
    assert(values.subrange(0, found.len() as int) =~= values);
    lemma_round_trip_positional_from(tokens, 0, path, 0, case_insensitive, values, 0);
    let end = match_from(tokens, 0, path, 0, case_insensitive)->Ok_0.1;
    assert(path.subrange(0, end) =~= path);
    let text = built(tokens, ValuesSpec::Positional(values))->Ok_0;
    if !case_insensitive {
        assert(text =~= path);
    }
}

/// The names of the captures in the tokens from the `i`-th on, those inside
/// optional groups included.
pub open spec fn name_set(tokens: Seq<TokenSpec>, i: int) -> Set<Seq<char>>
    decreases tokens, tokens.len() - i,
{
    if i < 0 || i >= tokens.len() {
        Set::empty()
    } else {
        let here = match tokens[i] {
            TokenSpec::Match(_) => Set::empty(),
            TokenSpec::Capture(capture) => match capture.name() {
                Some(name) => Set::empty().insert(name),
                None => Set::empty(),
            },
            TokenSpec::Optional(inner) => name_set(inner, 0),
        };
        here.union(name_set(tokens, i + 1))
    }
}

/// Whether one of `tokens` is a capture.
pub open spec fn has_capture(tokens: Seq<TokenSpec>) -> bool {
    exists|k: int| 0 <= k < tokens.len() && #[trigger] tokens[k] is Capture
}

/// Whether the values of the tokens from the `i`-th on can be told apart by
/// name: every capture has a name, no name occurs twice, and every optional
/// group holds a capture of its own, outside the groups inside it, so that
/// its values show whether it was matched.
pub open spec fn told_apart_by_name(tokens: Seq<TokenSpec>, i: int) -> bool
    decreases tokens, tokens.len() - i,
{
    if i < 0 || i >= tokens.len() {
        true
    } else {
        &&& match tokens[i] {
            TokenSpec::Match(_) => true,
            TokenSpec::Capture(capture) => capture.name() is Some && !name_set(
                tokens,
                i + 1,
            ).contains(capture.name()->Some_0),
            TokenSpec::Optional(inner) => {
                &&& told_apart_by_name(inner, 0)
                &&& has_capture(inner)
                &&& name_set(inner, 0).disjoint(name_set(tokens, i + 1))
            },
        }
        &&& told_apart_by_name(tokens, i + 1)
    }
}

/// Whether one of `captures` has the name `name`.
pub open spec fn has_name(captures: Seq<CapturedSpec>, name: Seq<char>) -> bool {
    exists|j: int| 0 <= j < captures.len() && (#[trigger] captures[j]).name == Some(name)
}

/// Whether every one of `captures` has a name, and each another one.
pub open spec fn distinct_names(captures: Seq<CapturedSpec>) -> bool {
    &&& forall|j: int| 0 <= j < captures.len() ==> (#[trigger] captures[j]).name is Some
    &&& forall|j: int, k: int|
        0 <= j < k < captures.len() ==> (#[trigger] captures[j]).name != (
        #[trigger] captures[k]).name
}

/// Among tokens that are told apart by name, a capture has a name, and the
/// names of the tokens hold it.
pub proof fn lemma_capture_in_name_set(tokens: Seq<TokenSpec>, i: int, k: int)
    requires
        told_apart_by_name(tokens, i),
        0 <= i <= k < tokens.len(),
        tokens[k] is Capture,
    ensures
        tokens[k]->Capture_0.name() is Some,
        name_set(tokens, i).contains(tokens[k]->Capture_0.name()->Some_0),
    decreases k - i,
{
    if i < k {
        lemma_capture_in_name_set(tokens, i + 1, k);
    }
}

/// What matching captures among tokens that are told apart by name: values
/// with names of the tokens, each name once.
pub proof fn lemma_captured_names(
    tokens: Seq<TokenSpec>,
    i: int,
    path: Seq<char>,
    pos: int,
    case_insensitive: bool,
)
    requires
        told_apart_by_name(tokens, i),
        0 <= i <= tokens.len(),
        0 <= pos <= path.len(),
        match_from(tokens, i, path, pos, case_insensitive) is Ok,
    ensures
        ({
            let (found, end) = match_from(tokens, i, path, pos, case_insensitive)->Ok_0;
            &&& pos <= end <= path.len()
            &&& distinct_names(found)
            &&& forall|j: int|
                0 <= j < found.len() ==> name_set(tokens, i).contains(
                    (#[trigger] found[j]).name->Some_0,
                )
        }),
    decreases tokens, tokens.len() - i,
{
    let (found, end) = match_from(tokens, i, path, pos, case_insensitive)->Ok_0;
    if i < tokens.len() {
        match tokens[i] {
            TokenSpec::Match(literal) => {
                lemma_captured_names(tokens, i + 1, path, pos + literal.len(), case_insensitive);
            },
            TokenSpec::Capture(capture) => {
                let mid = if capture.is_greedy() {
                    lemma_longest_from(tokens, i, path, pos, path.len() as int, case_insensitive)
                } else {
                    lemma_capture_end_bounds(capture, path, pos);
                    capture_end(capture, path, pos)->Some_0
                };
                let behind = match_from(tokens, i + 1, path, mid, case_insensitive)->Ok_0.0;
                let first = CapturedSpec { name: capture.name(), value: path.subrange(pos, mid) };
                assert(found == seq![first] + behind);
                lemma_captured_names(tokens, i + 1, path, mid, case_insensitive);
                assert forall|j: int| 0 <= j < found.len() implies (#[trigger] found[j]).name
                    is Some && name_set(tokens, i).contains(found[j].name->Some_0) by {
                    if j > 0 {
                        assert(found[j] == behind[j - 1]);
                    }
                }
                assert forall|j: int, k: int| 0 <= j < k < found.len() implies (
                #[trigger] found[j]).name != (#[trigger] found[k]).name by {
                    assert(found[k] == behind[k - 1]);
                    if j > 0 {
                        assert(found[j] == behind[j - 1]);
                    }
                }
            },
            TokenSpec::Optional(inner) => {
                let tried = match_from(inner, 0, path, pos, case_insensitive);
                let (taken, at) = match tried {
                    Ok(got) => got,
                    Err(_) => (Seq::empty(), pos),
                };
                if tried is Ok {
                    lemma_captured_names(inner, 0, path, pos, case_insensitive);
                }
                lemma_captured_names(tokens, i + 1, path, at, case_insensitive);
                let rest = match_from(tokens, i + 1, path, at, case_insensitive)->Ok_0.0;
                assert(found == taken + rest);
                assert forall|j: int| 0 <= j < found.len() implies (#[trigger] found[j]).name
                    is Some && name_set(tokens, i).contains(found[j].name->Some_0) by {
                    if j < taken.len() {
                        assert(found[j] == taken[j]);
                    } else {
                        assert(found[j] == rest[j - taken.len()]);
                    }
                }
                assert forall|j: int, k: int| 0 <= j < k < found.len() implies (
                #[trigger] found[j]).name != (#[trigger] found[k]).name by {
                    if k < taken.len() {
                        assert(found[j] == taken[j]);
                        assert(found[k] == taken[k]);
                    } else if j >= taken.len() {
                        assert(found[j] == rest[j - taken.len()]);
                        assert(found[k] == rest[k - taken.len()]);
                    } else {
                        assert(found[j] == taken[j]);
                        assert(found[k] == rest[k - taken.len()]);
                        assert(name_set(inner, 0).contains(taken[j].name->Some_0));
                        assert(name_set(tokens, i + 1).contains(rest[k - taken.len()].name->Some_0));
                    }
                }
            },
        }
    }
}

/// Building by name takes no value by position.
pub proof fn lemma_build_keeps_count(
    tokens: Seq<TokenSpec>,
    i: int,
    map: Map<Seq<char>, Seq<char>>,
    next: int,
)
    ensures
        build_from(tokens, i, ValuesSpec::Named(map), next) matches Ok((_, last)) ==> last == next,
    decreases tokens, tokens.len() - i,
{
    if 0 <= i < tokens.len() {
        lemma_build_keeps_count(tokens, i + 1, map, next);
        match tokens[i] {
            TokenSpec::Optional(inner) => {
                lemma_build_keeps_count(inner, 0, map, next);
            },
            _ => {},
        }
    }
}

/// Tokens that hold a capture whose name has no value write nothing by name.
pub proof fn lemma_build_needs_value(
    tokens: Seq<TokenSpec>,
    i: int,
    k: int,
    map: Map<Seq<char>, Seq<char>>,
    next: int,
)
    requires
        0 <= i <= k < tokens.len(),
        tokens[k] is Capture,
        tokens[k]->Capture_0.name() matches Some(name) ==> !map.contains_key(name),
    ensures
        build_from(tokens, i, ValuesSpec::Named(map), next) is Err,
    decreases k - i,
{
    if i < k {
        lemma_build_needs_value(tokens, i + 1, k, map, next);
        match tokens[i] {
            TokenSpec::Optional(inner) => {
                lemma_build_keeps_count(inner, 0, map, next);
            },
            _ => {},
        }
    }
}

/// Whether `map` holds the value of every one of `captures` under its name,
/// and no value under any other of `names`.
pub open spec fn serves(
    map: Map<Seq<char>, Seq<char>>,
    captures: Seq<CapturedSpec>,
    names: Set<Seq<char>>,
) -> bool {
    &&& forall|j: int|
        0 <= j < captures.len() ==> (#[trigger] captures[j]).name is Some && map.contains_key(
            captures[j].name->Some_0,
        ) && map[captures[j].name->Some_0] == captures[j].value
    &&& forall|name: Seq<char>|
        #[trigger] names.contains(name) && !has_name(captures, name) ==> !map.contains_key(name)
}

/// Whether the names of `captures` are among `names`.
pub open spec fn named_within(captures: Seq<CapturedSpec>, names: Set<Seq<char>>) -> bool {
    forall|j: int| 0 <= j < captures.len() ==> names.contains((#[trigger] captures[j]).name->Some_0)
}

/// A map that serves two runs of captures with names apart serves each.
pub proof fn lemma_serves_parts(
    map: Map<Seq<char>, Seq<char>>,
    taken: Seq<CapturedSpec>,
    rest: Seq<CapturedSpec>,
    names: Set<Seq<char>>,
    taken_names: Set<Seq<char>>,
    rest_names: Set<Seq<char>>,
)
    requires
        serves(map, taken + rest, names),
        named_within(taken, taken_names),
        named_within(rest, rest_names),
        taken_names.disjoint(rest_names),
        taken_names.subset_of(names),
        rest_names.subset_of(names),
    ensures
        serves(map, taken, taken_names),
        serves(map, rest, rest_names),
{
    let found = taken + rest;
    assert forall|j: int| 0 <= j < taken.len() implies (#[trigger] taken[j]).name is Some
        && map.contains_key(taken[j].name->Some_0) && map[taken[j].name->Some_0]
        == taken[j].value by {
        assert(found[j] == taken[j]);
    }
    assert forall|j: int| 0 <= j < rest.len() implies (#[trigger] rest[j]).name is Some
        && map.contains_key(rest[j].name->Some_0) && map[rest[j].name->Some_0]
        == rest[j].value by {
        assert(found[taken.len() + j] == rest[j]);
    }
    assert forall|name: Seq<char>| #[trigger]
        taken_names.contains(name) && !has_name(taken, name) implies !map.contains_key(name) by {
        assert(names.contains(name));
        if has_name(found, name) {
            let j = choose|j: int| 0 <= j < found.len() && (#[trigger] found[j]).name == Some(name);
            if j < taken.len() {
                assert(found[j] == taken[j]);
            } else {
                assert(found[j] == rest[j - taken.len()]);
                assert(rest_names.contains(rest[j - taken.len()].name->Some_0));
            }
        }
    }
    assert forall|name: Seq<char>| #[trigger]
        rest_names.contains(name) && !has_name(rest, name) implies !map.contains_key(name) by {
        assert(names.contains(name));
        if has_name(found, name) {
            let j = choose|j: int| 0 <= j < found.len() && (#[trigger] found[j]).name == Some(name);
            if j < taken.len() {
                assert(found[j] == taken[j]);
                assert(taken_names.contains(taken[j].name->Some_0));
            } else {
                assert(found[j] == rest[j - taken.len()]);
            }
        }
    }
}

/// A map that serves captures serves them among fewer names.
pub proof fn lemma_serves_fewer(
    map: Map<Seq<char>, Seq<char>>,
    captures: Seq<CapturedSpec>,
    names: Set<Seq<char>>,
    fewer: Set<Seq<char>>,
)
    requires
        serves(map, captures, names),
        fewer.subset_of(names),
    ensures
        serves(map, captures, fewer),
{
    assert forall|name: Seq<char>| #[trigger]
        fewer.contains(name) && !has_name(captures, name) implies !map.contains_key(name) by {
        assert(names.contains(name));
    }
}

/// The round trip from a position on, with values that are looked up by
/// name.
pub proof fn lemma_round_trip_named_from(
    tokens: Seq<TokenSpec>,
    i: int,
    path: Seq<char>,
    pos: int,
    case_insensitive: bool,
    map: Map<Seq<char>, Seq<char>>,
    next: int,
)
    requires
        told_apart_by_name(tokens, i),
        0 <= i <= tokens.len(),
        0 <= pos <= path.len(),
        match_from(tokens, i, path, pos, case_insensitive) is Ok,
        serves(
            map,
            match_from(tokens, i, path, pos, case_insensitive)->Ok_0.0,
            name_set(tokens, i),
        ),
    ensures
        ({
            let (found, end) = match_from(tokens, i, path, pos, case_insensitive)->Ok_0;
            &&& pos <= end <= path.len()
            &&& build_from(tokens, i, ValuesSpec::Named(map), next) matches Ok((text, last))
            &&& last == next
            &&& same_text(path.subrange(pos, end), text, case_insensitive)
        }),
    decreases tokens, tokens.len() - i,
{
    let (found, end) = match_from(tokens, i, path, pos, case_insensitive)->Ok_0;
    let source = ValuesSpec::Named(map);
    let names = name_set(tokens, i);
    let later = name_set(tokens, i + 1);
    lemma_captured_names(tokens, i, path, pos, case_insensitive);
    if i >= tokens.len() {
        assert(path.subrange(pos, pos) =~= Seq::<char>::empty());
    } else {
        assert(later.subset_of(names));
        match tokens[i] {
            TokenSpec::Match(literal) => {
                let mid = pos + literal.len();
                lemma_serves_fewer(map, found, names, later);
                lemma_round_trip_named_from(tokens, i + 1, path, mid, case_insensitive, map, next);
                let rest = build_from(tokens, i + 1, source, next)->Ok_0.0;
                lemma_same_text_add(
                    path.subrange(pos, mid),
                    literal,
                    path.subrange(mid, end),
                    rest,
                    case_insensitive,
                );
                assert(path.subrange(pos, mid) + path.subrange(mid, end) =~= path.subrange(
                    pos,
                    end,
                ));
            },
            TokenSpec::Capture(capture) => {
                let mid = if capture.is_greedy() {
                    lemma_longest_from(tokens, i, path, pos, path.len() as int, case_insensitive)
                } else {
                    lemma_capture_end_bounds(capture, path, pos);
                    capture_end(capture, path, pos)->Some_0
                };
                let behind = match_from(tokens, i + 1, path, mid, case_insensitive)->Ok_0.0;
                let first = CapturedSpec { name: capture.name(), value: path.subrange(pos, mid) };
                assert(found == seq![first] + behind);
                assert(found[0] == first);
                assert(seq![first][0] == first);
                let own = Set::<Seq<char>>::empty().insert(capture.name()->Some_0);
                lemma_captured_names(tokens, i + 1, path, mid, case_insensitive);
                assert(own.subset_of(names));
                lemma_serves_parts(map, seq![first], behind, names, own, later);
                lemma_round_trip_named_from(
                    tokens,
                    i + 1,
                    path,
                    mid,
                    case_insensitive,
                    map,
                    next,
                );
                let rest = build_from(tokens, i + 1, source, next)->Ok_0.0;
                lemma_same_text_add(
                    path.subrange(pos, mid),
                    path.subrange(pos, mid),
                    path.subrange(mid, end),
                    rest,
                    case_insensitive,
                );
                assert(path.subrange(pos, mid) + path.subrange(mid, end) =~= path.subrange(
                    pos,
                    end,
                ));
            },
            TokenSpec::Optional(inner) => {
                let tried = match_from(inner, 0, path, pos, case_insensitive);
                let (taken, at) = match tried {
                    Ok(got) => got,
                    Err(_) => (Seq::empty(), pos),
                };
                let inside = name_set(inner, 0);
                if tried is Ok {
                    lemma_captured_names(inner, 0, path, pos, case_insensitive);
                }
                lemma_captured_names(tokens, i + 1, path, at, case_insensitive);
                let rest = match_from(tokens, i + 1, path, at, case_insensitive)->Ok_0.0;
                assert(found == taken + rest);
                assert(inside.subset_of(names));
                lemma_serves_parts(map, taken, rest, names, inside, later);
                lemma_round_trip_named_from(tokens, i + 1, path, at, case_insensitive, map, next);
                let behind = build_from(tokens, i + 1, source, next)->Ok_0.0;
                if tried is Ok {
                    lemma_round_trip_named_from(inner, 0, path, pos, case_insensitive, map, next);
                    let written = build_from(inner, 0, source, next)->Ok_0.0;
                    lemma_same_text_add(
                        path.subrange(pos, at),
                        written,
                        path.subrange(at, end),
                        behind,
                        case_insensitive,
                    );
                    assert(path.subrange(pos, at) + path.subrange(at, end) =~= path.subrange(
                        pos,
                        end,
                    ));
                } else {
                    let k = choose|k: int| 0 <= k < inner.len() && #[trigger] inner[k] is Capture;
                    lemma_capture_in_name_set(inner, 0, k);
                    let name = inner[k]->Capture_0.name()->Some_0;
                    assert(inside.contains(name));
                    assert(!has_name(taken, name));
                    assert(!map.contains_key(name));
                    lemma_build_needs_value(inner, 0, k, map, next);
                    assert(Seq::<char>::empty() + behind =~= behind);
                }
            },
        }
    }
}

/// What the map of captured values holds when each has a name of its own:
/// for every capture its value under its name, and no other name.
pub proof fn lemma_named_values(captures: Seq<CapturedSpec>)
    requires
        distinct_names(captures),
    ensures
        forall|j: int|
            0 <= j < captures.len() ==> named_values(captures).contains_key(
                (#[trigger] captures[j]).name->Some_0,
            ) && named_values(captures)[captures[j].name->Some_0] == captures[j].value,
        forall|name: Seq<char>| #[trigger]
            named_values(captures).contains_key(name) ==> has_name(captures, name),
    decreases captures.len(),
{
    if captures.len() > 0 {
        let front = captures.drop_last();
        let last = captures.last();
        assert forall|j: int| 0 <= j < front.len() implies (#[trigger] front[j]).name is Some by {
            assert(front[j] == captures[j]);
        }
        assert forall|j: int, k: int| 0 <= j < k < front.len() implies (#[trigger] front[j]).name
            != (#[trigger] front[k]).name by {
            assert(front[j] == captures[j]);
            assert(front[k] == captures[k]);
        }
        lemma_named_values(front);
        assert(last == captures[captures.len() - 1]);
        let name = last.name->Some_0;
        if named_values(front).contains_key(name) {
            assert(has_name(front, name));
            let k = choose|k: int| 0 <= k < front.len() && (#[trigger] front[k]).name == Some(name);
            assert(front[k] == captures[k]);
            assert(captures[k].name != captures[captures.len() - 1].name);
        }
        assert forall|j: int| 0 <= j < captures.len() implies named_values(captures).contains_key(
            (#[trigger] captures[j]).name->Some_0,
        ) && named_values(captures)[captures[j].name->Some_0] == captures[j].value by {
            if j < front.len() {
                assert(front[j] == captures[j]);
                assert(captures[j].name != captures[captures.len() - 1].name);
            }
        }
        assert forall|name: Seq<char>| #[trigger]
            named_values(captures).contains_key(name) implies has_name(captures, name) by {
            if last.name == Some(name) {
                assert(captures[captures.len() - 1].name == Some(name));
            } else {
                assert(named_values(front).contains_key(name));
                assert(has_name(front, name));
                let j = choose|j: int|
                    0 <= j < front.len() && (#[trigger] front[j]).name == Some(name);
                assert(captures[j] == front[j]);
            }
        }
    }
}

/// Round trip, by name: where `tokens` whose values can be told apart by name
/// match the whole of `path`, the path that they write with the captured
/// values, looked up by name, is `path` again, up to the case of letters
/// where literals are compared without regard to it.
pub proof fn lemma_round_trip_named(tokens: Seq<TokenSpec>, path: Seq<char>, case_insensitive: bool)
    requires
        told_apart_by_name(tokens, 0),
        full_match(tokens, path, case_insensitive) is Ok,
    ensures
        ({
            let found = full_match(tokens, path, case_insensitive)->Ok_0;
            &&& built(tokens, ValuesSpec::Named(named_values(found))) matches Ok(text)
            &&& same_text(path, text, case_insensitive)
            &&& !case_insensitive ==> text == path
        }),
{
    let found = full_match(tokens, path, case_insensitive)->Ok_0;
    let map = named_values(found);
    lemma_captured_names(tokens, 0, path, 0, case_insensitive);
    lemma_named_values(found);
    assert(serves(map, found, name_set(tokens, 0)));
    lemma_round_trip_named_from(tokens, 0, path, 0, case_insensitive, map, 0);
    let end = match_from(tokens, 0, path, 0, case_insensitive)->Ok_0.1;
    assert(path.subrange(0, end) =~= path);
    let text = built(tokens, ValuesSpec::Named(map))->Ok_0;
    if !case_insensitive {
        assert(text =~= path);
    }
}

/// The texts that are among `names`.
pub open spec fn texts_among(names: Seq<String>) -> Set<Seq<char>> {
    Set::new(|text: Seq<char>| exists|k: int| 0 <= k < names.len() && (#[trigger] names[k])@ == text)
}

/// Whether `name` is among `names`.
fn is_among(names: &Vec<String>, name: &String) -> (r: bool)
    ensures
        r == texts_among(names@).contains(name@),
{
    let mut k: usize = 0;
    while k < names.len()
        invariant
            k <= names.len(),
            forall|j: int| 0 <= j < k ==> (#[trigger] names@[j])@ != name@,
        decreases names.len() - k,
    {
        if names[k] == *name {
            return true;
        }
        k += 1;
    }
    false
}

/// Whether none of `names` is among `others`.
fn none_among(names: &Vec<String>, others: &Vec<String>) -> (r: bool)
    ensures
        r == texts_among(names@).disjoint(texts_among(others@)),
{
    let mut k: usize = 0;
    while k < names.len()
        invariant
            k <= names.len(),
            forall|j: int|
                0 <= j < k ==> !texts_among(others@).contains((#[trigger] names@[j])@),
        decreases names.len() - k,
    {
        if is_among(others, &names[k]) {
            assert(texts_among(names@).contains(names@[k as int]@));
            return false;
        }
        k += 1;
    }
    assert forall|text: Seq<char>|
        !(texts_among(names@).contains(text) && texts_among(others@).contains(text)) by {
        if texts_among(names@).contains(text) {
            let j = choose|j: int| 0 <= j < names.len() && (#[trigger] names@[j])@ == text;
            assert(!texts_among(others@).contains(names@[j]@));
        }
    }
    true
}

/// Whether one of `tokens` is a capture.
fn holds_capture(tokens: &Vec<OptimizedToken>) -> (r: bool)
    ensures
        r == has_capture(tokens_view(tokens@)),
{
    let ghost model = tokens_view(tokens@);
    let mut k: usize = 0;
    while k < tokens.len()
        invariant
            k <= tokens.len(),
            model == tokens_view(tokens@),
            forall|j: int| 0 <= j < k ==> !((#[trigger] model[j]) is Capture),
        decreases tokens.len() - k,
    {
        assert(model[k as int] == tokens@[k as int]@);
        match &tokens[k] {
            OptimizedToken::Capture(_) => {
                return true;
            },
            _ => {},
        }
        k += 1;
    }
    false
}

/// Whether the values of `tokens` can be told apart by name, and the names
/// of their captures.
fn names_told_apart(tokens: &Vec<OptimizedToken>) -> (r: (bool, Vec<String>))
    ensures
        r.0 == told_apart_by_name(tokens_view(tokens@), 0),
        texts_among(r.1@) == name_set(tokens_view(tokens@), 0),
    decreases tokens,
{
    let ghost model = tokens_view(tokens@);
    let mut apart = true;
    let mut names: Vec<String> = Vec::new();
    let mut i: usize = tokens.len();
    assert(texts_among(names@) =~= name_set(model, i as int));
    while i > 0
        invariant
            i <= tokens.len(),
            model == tokens_view(tokens@),
            apart == told_apart_by_name(model, i as int),
            texts_among(names@) == name_set(model, i as int),
        decreases i,
    {
        i = i - 1;
        assert(model[i as int] == tokens@[i as int]@);
        let ghost later = names@;
        match &tokens[i] {
            OptimizedToken::Match(_) => {
                assert(texts_among(names@) =~= name_set(model, i as int));
            },
            OptimizedToken::Capture(capture) => match name_of(capture) {
                Some(name) => {
                    if is_among(&names, &name) {
                        apart = false;
                    }
                    names.push(name);
                    assert(texts_among(names@) =~= name_set(model, i as int)) by {
                        assert forall|text: Seq<char>|
                            texts_among(names@).contains(text) == name_set(
                                model,
                                i as int,
                            ).contains(text) by {
                            if texts_among(names@).contains(text) {
                                let k = choose|k: int|
                                    0 <= k < names.len() && (#[trigger] names@[k])@ == text;
                                if k < later.len() {
                                    assert(later[k]@ == text);
                                    assert(texts_among(later).contains(text));
                                }
                            }
                            if texts_among(later).contains(text) {
                                let k = choose|k: int|
                                    0 <= k < later.len() && (#[trigger] later[k])@ == text;
                                assert(names@[k]@ == text);
                            }
                            if text == name@ {
                                assert(names@[later.len() as int]@ == text);
                            }
                        }
                    }
                },
                None => {
                    apart = false;
                    assert(texts_among(names@) =~= name_set(model, i as int));
                },
            },
            OptimizedToken::Optional(inner) => {
                let (inner_apart, mut inner_names) = names_told_apart(inner);
                if !inner_apart || !holds_capture(inner) || !none_among(&inner_names, &names) {
                    apart = false;
                }
                let ghost inside = inner_names@;
                names.append(&mut inner_names);
                assert(texts_among(names@) =~= name_set(model, i as int)) by {
                    assert forall|text: Seq<char>|
                        texts_among(names@).contains(text) == name_set(model, i as int).contains(
                            text,
                        ) by {
                        if texts_among(names@).contains(text) {
                            let k = choose|k: int|
                                0 <= k < names.len() && (#[trigger] names@[k])@ == text;
                            if k < later.len() {
                                assert(later[k]@ == text);
                                assert(texts_among(later).contains(text));
                            } else {
                                assert(inside[k - later.len()]@ == text);
                                assert(texts_among(inside).contains(text));
                            }
                        }
                        if texts_among(later).contains(text) {
                            let k = choose|k: int|
                                0 <= k < later.len() && (#[trigger] later[k])@ == text;
                            assert(names@[k]@ == text);
                        }
                        if texts_among(inside).contains(text) {
                            let k = choose|k: int|
                                0 <= k < inside.len() && (#[trigger] inside[k])@ == text;
                            assert(names@[later.len() + k]@ == text);
                        }
                    }
                }
            },
        }
    }
    (apart, names)
}

/// Whether a path that `tokens` match is written back from the values that
/// were captured, looked up by name: every capture has a name, no name
/// occurs twice, and every optional group holds a capture of its own.
pub fn round_trips_by_name(tokens: &Vec<OptimizedToken>) -> (r: bool)
    ensures
        r == told_apart_by_name(tokens_view(tokens@), 0),
{
    names_told_apart(tokens).0
}

/// Whether a path that `tokens` match is written back from the values that
/// were captured, taken in order: no token is an optional group.
pub fn round_trips_by_position(tokens: &Vec<OptimizedToken>) -> (r: bool)
    ensures
        r == has_no_optional(tokens_view(tokens@)),
{
    let ghost model = tokens_view(tokens@);
    let mut k: usize = 0;
    while k < tokens.len()
        invariant
            k <= tokens.len(),
            model == tokens_view(tokens@),
            forall|j: int| 0 <= j < k ==> !((#[trigger] model[j]) is Optional),
        decreases tokens.len() - k,
    {
        assert(model[k as int] == tokens@[k as int]@);
        match &tokens[k] {
            OptimizedToken::Optional(_) => {
                return false;
            },
            _ => {},
        }
        k += 1;
    }
    true
}

} // verus!
