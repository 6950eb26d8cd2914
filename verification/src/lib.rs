//! Parses free-form `key=value` style text into a map of string keys to
//! string values, driven by a template pattern.
//!
//! A template such as `%{key}=%{val};%{key}:%{val}` is compiled once into a
//! [`Pattern`]: two sorted, deduplicated lists of literal separators, one
//! that splits the input into fields and one that splits a field into a key
//! and a value.  Running a pattern over an input line yields the mapping of
//! all complete key/value pairs, or nothing when no pair was found.
#![verifier::loop_isolation(false)]

pub mod engine;
pub mod error;
pub mod escape;
pub mod order;
pub mod pattern;
pub mod results;
pub mod search;
pub mod split;

pub use error::Error;
pub use pattern::Pattern;
pub use results::ResultMap;
