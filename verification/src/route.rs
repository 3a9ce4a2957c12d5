//! A route: the text of a path, and a state that travels with it.

use vstd::prelude::*;

verus! {

/// The text of a route and the state that belongs to it.
#[derive(Debug, Clone, PartialEq, Eq)]
pub struct Route<T> {
    /// The text of the route.
    pub route: String,
    /// The state that travels with the route, if any.
    pub state: Option<T>,
}

} // verus!
