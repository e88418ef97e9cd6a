//! Normalization of tokenized queries into compilation-cache keys.
//!
//! Given the token sequence of a query (produced by an external lexer),
//! this library infers the query's argument scheme, extracts literal
//! constants into synthesized parameters with value-based deduplication,
//! and re-serializes the rewritten tokens into a canonical key string.

pub mod tokens;
pub mod outside;
pub mod text;
pub mod serialize;
pub mod scan;
pub mod values;
pub mod quoting;
pub mod normalize;

pub use tokens::{Kind, Pos, Token};
pub use values::{FloatWrapper, Value, Variable};
pub use normalize::{normalize, Entry, Error};
