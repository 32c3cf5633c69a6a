//! A TOML value layer extended with environment variable placeholders.
//!
//! The crate parses a single TOML value (strings, integers, floats, booleans,
//! datetimes, arrays and inline tables, plus the `${NAME}` / `${NAME:default}`
//! placeholder syntax, bare or inside a basic string), resolves placeholders
//! against the environment value the caller hands in, and decides what a
//! deserializer's visitor is given for each value.


use vstd::prelude::*;

pub mod error;
pub mod text;
pub mod env;
pub mod integer;
pub mod datetime;
pub mod scalar;
pub mod strings;
pub mod value;
pub mod grammar;
pub mod parser;
pub mod keys;
pub mod deserializer;
pub mod laws;

pub use deserializer::ValueDeserializer;
pub use error::{Error, Span};

verus! {

/// A marker type that names the README's examples; it holds no code,
/// and the behaviour the examples show is exercised by the tests.
pub struct ReadmeDoctests;

} // verus!
