//! A parser-combinator engine: composable matchers over text that yield typed
//! results together with position-accurate diagnostics, and a tolerant
//! span-tree builder for incomplete input.
//!
//! A matcher implements [`Parser`]: given a cursor ([`PIter`]) it hands back
//! either a failure record ([`PErr`]) or the cursor after the match, a value,
//! and perhaps a soft record of why the match went no further. What a
//! matcher does is stated as a relation between a cursor and an outcome,
//! `yields`, and every combinator states its own outcomes in terms of those
//! of its parts.

pub mod charbool;
pub mod combi;
pub mod convert;
pub mod err;
pub mod iter;
pub mod named;
pub mod parser;
pub mod partial;
pub mod reader;
pub mod repeater;
pub mod select;
pub mod strings;
pub mod strung;
pub mod text;
pub mod trace;
pub mod tuple;

pub use charbool::{CharBool, CharBoolExt};
pub use err::{Expected, PErr, StrungError};
pub use iter::PIter;
pub use parser::{Combine, OParser, ParseRes, Parser, ResTrait};
