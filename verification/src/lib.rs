//! Route patterns: a small language of URL path templates, parsed once into
//! tokens, then used to match paths, capturing parts of them, and to build
//! paths back from captured values.
//!
//! A pattern such as `/users/{id}/files/{*:path}` is parsed (`parser`) and
//! optimized (`optimizer`) into tokens: literals, captures and optional
//! groups. The tokens match a path (`matcher`) and hand back what the
//! captures took, by name or in order; with such values they write a path
//! (`builder`). What is written from what was matched is the path that was
//! matched (`roundtrip`).
//!
//! On top of that, `switch` reads values of a type from the parts of a route
//! and writes them back, and `derive` decides how the fields of a struct or
//! of the variants of an enum take part in that.

pub mod builder;
pub mod captures;
pub mod decimal;
pub mod derive;
pub mod matcher;
pub mod optimizer;
pub mod parser;
pub mod roundtrip;
pub mod route;
pub mod switch;
pub mod text;

pub use crate::builder::{build_path, BuildError, ValueSource};
pub use crate::captures::CaptureMap;
pub use crate::matcher::{match_path, Captures, MatchError, MatcherSettings, RouteMatcher};
pub use crate::optimizer::{optimize, parse_and_optimize, OptimizedToken};
pub use crate::parser::parse;
pub use crate::parser::token::{CaptureVariant, ParseError, ParseErrorKind, RouteParserToken};
pub use crate::route::Route;
pub use crate::switch::{AllowMissing, LeadingSlash, Permissive, Switch};
