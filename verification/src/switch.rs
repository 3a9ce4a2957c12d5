//! Values that can be read from a part of a route and written back into
//! one.

pub mod integers;

use vstd::prelude::*;
use vstd::std_specs::convert::FromSpecImpl;
use crate::route::Route;
use crate::text::{chars_of, push_char, string_of};

verus! {

/// How a text is read.
pub struct Reading {
    /// Whether the text is read as a value.
    pub accepted: bool,
    /// Whether the state of the part that holds the text is handed on.
    pub keeps_state: bool,
}

/// A type whose values are read from a part of a route and written into
/// one.
///
/// `reading`, `reads_as` and `written` are the model of an implementation:
/// they say what its two functions do. An implementation that is verified
/// defines them and is held to them. For one that is not, they stand for
/// whatever it does: nothing is known of them but that reading depends on
/// the text alone and writing on the value alone.
pub trait Switch: Sized {
    /// How the text `route` is read: whether as a value, and whether the
    /// state is handed on.
    open spec fn reading(route: Seq<char>) -> Reading {
        arbitrary::<spec_fn(Seq<char>) -> Reading>()(route)
    }

    /// Whether `value` is what the text `route` is read as.
    open spec fn reads_as(route: Seq<char>, value: Self) -> bool {
        arbitrary::<spec_fn(Seq<char>, Self) -> bool>()(route, value)
    }

    /// The text that the value is written as.
    open spec fn written(&self) -> Seq<char> {
        arbitrary::<spec_fn(Self) -> Seq<char>>()(*self)
    }

    /// Reads a value from a whole route.
    fn switch<T>(route: Route<T>) -> (r: Option<Self>)
        ensures
            r is Some <==> Self::reading(route.route@).accepted,
            r matches Some(value) ==> Self::reads_as(route.route@, value),
    {
        Self::from_route_part(route).0
    }

    /// Reads a value from a part of a route. With it comes the state of the
    /// part, or none where reading drops it.
    fn from_route_part<T>(part: Route<T>) -> (r: (Option<Self>, Option<T>))
        ensures
            r.0 is Some <==> Self::reading(part.route@).accepted,
            r.0 matches Some(value) ==> Self::reads_as(part.route@, value),
            r.1 == (if Self::reading(part.route@).keeps_state {
                part.state
            } else {
                None
            }),
    ;

    /// Writes the value at the end of `route`. No state comes of it.
    fn build_route_section<T>(self, route: &mut String) -> (r: Option<T>)
        ensures
            final(route)@ == old(route)@ + self.written(),
            r is None,
    ;

    /// The value that stands in where a route has no part for it: none,
    /// unless the type says otherwise.
    fn key_not_available() -> (r: Option<Self>)
        default_ensures
            r is None,
    {
        None
    }
}

/// A value behind a `/`: it is read from a part that starts with `/`, and
/// written behind one.
#[derive(Debug, Clone, Copy, PartialEq, Eq, Hash, PartialOrd, Ord)]
pub struct LeadingSlash<T>(pub T);

impl<U: Switch> Switch for LeadingSlash<U> {
    open spec fn reading(route: Seq<char>) -> Reading {
        if route.len() > 0 && route[0] == '/' {
            U::reading(route.skip(1))
        } else {
            Reading { accepted: false, keeps_state: false }
        }
    }

    open spec fn reads_as(route: Seq<char>, value: Self) -> bool {
        route.len() > 0 && route[0] == '/' && U::reads_as(route.skip(1), value.0)
    }

    open spec fn written(&self) -> Seq<char> {
        seq!['/'] + self.0.written()
    }

    fn from_route_part<T>(part: Route<T>) -> (r: (Option<Self>, Option<T>)) {
        let chars = chars_of(part.route.as_str());
        if chars.len() > 0 && chars[0] == '/' {
            assert(chars@.subrange(1, chars.len() as int) =~= part.route@.skip(1));
            let route = Route { route: string_of(&chars, 1, chars.len()), state: part.state };
            let (inner, state) = U::from_route_part(route);
            match inner {
                Some(value) => (Some(LeadingSlash(value)), state),
                None => (None, state),
            }
        } else {
            (None, None)
        }
    }

    fn build_route_section<T>(self, route: &mut String) -> (r: Option<T>) {
        proof {
            reveal_strlit("/");
        }
        route.append("/");
        assert(route@ =~= old(route)@ + seq!['/']);
        let state = self.0.build_route_section(route);
        assert(route@ =~= old(route)@ + (seq!['/'] + self.0.written()));
        state
    }
}

/// A value that may be absent: a part that is not read as a value is read
/// as its absence.
#[derive(Debug, PartialEq, Clone, Copy)]
pub struct Permissive<U>(pub Option<U>);

impl<U: Switch> Switch for Permissive<U> {
    open spec fn reading(route: Seq<char>) -> Reading {
        Reading {
            accepted: true,
            keeps_state: U::reading(route).accepted && U::reading(route).keeps_state,
        }
    }

    open spec fn reads_as(route: Seq<char>, value: Self) -> bool {
        match value.0 {
            Some(inner) => U::reading(route).accepted && U::reads_as(route, inner),
            None => !U::reading(route).accepted,
        }
    }

    open spec fn written(&self) -> Seq<char> {
        match self.0 {
            Some(inner) => inner.written(),
            None => Seq::empty(),
        }
    }

    fn from_route_part<T>(part: Route<T>) -> (r: (Option<Self>, Option<T>)) {
        let (inner, inner_state) = U::from_route_part(part);
        if inner.is_some() {
            (Some(Permissive(inner)), inner_state)
        } else {
            (Some(Permissive(None)), None)
        }
    }

    fn build_route_section<T>(self, route: &mut String) -> (r: Option<T>) {
        if let Some(inner) = self.0 {
            inner.build_route_section(route)
        } else {
            assert(route@ =~= old(route)@ + Seq::<char>::empty());
            None
        }
    }

    /// An absent value stands in where a route has no part for it.
    fn key_not_available() -> (r: Option<Self>)
        ensures
            r matches Some(value) && value.0 is None,
    {
        Some(Permissive(None))
    }
}

/// Whether a part of a route may stand for a missing value: it is empty, or
/// starts with `/`, `?`, `&` or `#`.
pub open spec fn may_be_missing(route: Seq<char>) -> bool {
    route.len() == 0 || route[0] == '/' || route[0] == '?' || route[0] == '&' || route[0] == '#'
}

/// A value that may be missing: a part that is not read as a value is read
/// as its absence where it is empty or starts with `/`, `?`, `&` or `#`.
#[derive(Debug, PartialEq, Clone, Copy)]
pub struct AllowMissing<U: std::fmt::Debug>(pub Option<U>);

impl<U: Switch + std::fmt::Debug> Switch for AllowMissing<U> {
    open spec fn reading(route: Seq<char>) -> Reading {
        let accepted = U::reading(route).accepted || may_be_missing(route);
        Reading { accepted, keeps_state: accepted && U::reading(route).keeps_state }
    }

    open spec fn reads_as(route: Seq<char>, value: Self) -> bool {
        match value.0 {
            Some(inner) => U::reading(route).accepted && U::reads_as(route, inner),
            None => !U::reading(route).accepted && may_be_missing(route),
        }
    }

    open spec fn written(&self) -> Seq<char> {
        match self.0 {
            Some(inner) => inner.written(),
            None => Seq::empty(),
        }
    }

    fn from_route_part<T>(part: Route<T>) -> (r: (Option<Self>, Option<T>)) {
        let route = chars_of(part.route.as_str());
        let (inner, inner_state) = U::from_route_part(part);
        if inner.is_some() {
            (Some(AllowMissing(inner)), inner_state)
        } else if route.len() == 0 || route[0] == '/' || route[0] == '?' || route[0] == '&'
            || route[0] == '#' {
            (Some(AllowMissing(None)), inner_state)
        } else {
            (None, None)
        }
    }

    fn build_route_section<T>(self, route: &mut String) -> (r: Option<T>) {
        if let AllowMissing(Some(inner)) = self {
            inner.build_route_section(route)
        } else {
            assert(route@ =~= old(route)@ + Seq::<char>::empty());
            None
        }
    }
}

impl Switch for String {
    open spec fn reading(route: Seq<char>) -> Reading {
        Reading { accepted: true, keeps_state: true }
    }

    open spec fn reads_as(route: Seq<char>, value: Self) -> bool {
        value@ == route
    }

    open spec fn written(&self) -> Seq<char> {
        self@
    }

    fn from_route_part<T>(part: Route<T>) -> (r: (Option<Self>, Option<T>)) {
        (Some(part.route), part.state)
    }

    fn build_route_section<T>(self, route: &mut String) -> (r: Option<T>) {
        route.append(self.as_str());
        None
    }
}

impl Switch for bool {
    open spec fn reading(route: Seq<char>) -> Reading {
        Reading {
            accepted: route == seq!['t', 'r', 'u', 'e'] || route == seq!['f', 'a', 'l', 's', 'e'],
            keeps_state: true,
        }
    }

    open spec fn reads_as(route: Seq<char>, value: Self) -> bool {
        route == value.written()
    }

    open spec fn written(&self) -> Seq<char> {
        if *self {
            seq!['t', 'r', 'u', 'e']
        } else {
            seq!['f', 'a', 'l', 's', 'e']
        }
    }

    /// Reads `true` or `false`, written exactly so.
    fn from_route_part<T>(part: Route<T>) -> (r: (Option<Self>, Option<T>)) {
        let text = chars_of(part.route.as_str());
        let value = if text.len() == 4 && text[0] == 't' && text[1] == 'r' && text[2] == 'u'
            && text[3] == 'e' {
            assert(text@ =~= seq!['t', 'r', 'u', 'e']);
            Some(true)
        } else if text.len() == 5 && text[0] == 'f' && text[1] == 'a' && text[2] == 'l' && text[3]
            == 's' && text[4] == 'e' {
            assert(text@ =~= seq!['f', 'a', 'l', 's', 'e']);
            Some(false)
        } else {
            None
        };
        (value, part.state)
    }

    /// Writes `true` or `false`.
    fn build_route_section<T>(self, route: &mut String) -> (r: Option<T>) {
        proof {
            reveal_strlit("true");
            reveal_strlit("false");
        }
        if self {
            route.append("true");
            assert(route@ =~= old(route)@ + seq!['t', 'r', 'u', 'e']);
        } else {
            route.append("false");
            assert(route@ =~= old(route)@ + seq!['f', 'a', 'l', 's', 'e']);
        }
        None
    }
}

impl Switch for char {
    open spec fn reading(route: Seq<char>) -> Reading {
        Reading { accepted: route.len() == 1, keeps_state: true }
    }

    open spec fn reads_as(route: Seq<char>, value: Self) -> bool {
        route == seq![value]
    }

    open spec fn written(&self) -> Seq<char> {
        seq![*self]
    }

    /// Reads a text of exactly one character as that character.
    fn from_route_part<T>(part: Route<T>) -> (r: (Option<Self>, Option<T>)) {
        let text = chars_of(part.route.as_str());
        let value = if text.len() == 1 {
            assert(text@ =~= seq![text@[0]]);
            Some(text[0])
        } else {
            None
        };
        (value, part.state)
    }

    /// Writes the character.
    fn build_route_section<T>(self, route: &mut String) -> (r: Option<T>) {
        push_char(route, self);
        assert(route@ =~= old(route)@ + seq![self]);
        None
    }
}

/// `String::with_capacity`: an empty text, whatever room it was given.
#[verifier::external_body]
fn string_with_capacity(capacity: usize) -> (r: String)
    ensures
        r@ == Seq::<char>::empty(),
{
    String::with_capacity(capacity)
}

/// `String::shrink_to_fit`: the text stays what it is.
#[verifier::external_body]
fn shrink_to_fit(s: &mut String)
    ensures
        final(s)@ == old(s)@,
{
    s.shrink_to_fit()
}

/// Builds the route that `switch` writes: its text is what the value is
/// written as, and it has no state.
pub fn build_route_from_switch<T: Switch, U>(switch: T) -> (r: Route<U>)
    ensures
        r.route@ == switch.written(),
        r.state is None,
{
    let mut buf = string_with_capacity(255);
    let state = switch.build_route_section(&mut buf);
    shrink_to_fit(&mut buf);
    assert(buf@ =~= switch.written());
    Route { route: buf, state }
}

impl<SW: Switch, T> From<SW> for Route<T> {
    /// The route that `switch` writes.
    fn from(switch: SW) -> (r: Self)
        ensures
            r.route@ == switch.written(),
            r.state is None,
    {
        build_route_from_switch(switch)
    }
}

impl<SW: Switch, T> FromSpecImpl<SW> for Route<T> {
    open spec fn obeys_from_spec() -> bool {
        false
    }

    open spec fn from_spec(switch: SW) -> Self {
        arbitrary()
    }
}

} // verus!
