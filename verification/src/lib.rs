//! A small filter-expression engine: a query language over typed record
//! fields, with a parser, a canonical serializer, a schema-driven validator
//! and an executor.
//!
//! Text is handled as UTF-8 byte sequences throughout: expression sources,
//! string values and field paths are byte vectors, so that the whole
//! parse/serialize pipeline can be reasoned about over `Seq<u8>`.
//! Numbers are IEEE-754 binary64 values carried as their bit patterns;
//! instants are microseconds since the Unix epoch, in UTC.

pub mod datetime;
pub mod engine;
pub mod expression;
pub mod laws;
pub mod misc;
pub mod number;
pub mod parser;
pub mod pattern;
pub mod schema;
pub mod serialize;

pub use engine::Engine;
pub use parser::ExpressionParser as Parser;
pub use expression::Expression;
pub use schema::{Schema, SchemaBuilder, SchemaTarget};
