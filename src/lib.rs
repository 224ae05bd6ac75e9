//! Composable text parsers over a shrinking read cursor.
//!
//! A [`ParserString`] holds the whole input and a read position. A [`Parser`]
//! reads a prefix of what is left and returns a value or a typed failure. The
//! combinators of [`combinators`] build larger parsers out of smaller ones
//! (the methods of [`Combine`] build them in builder style), and [`builtins`]
//! holds ready-made parsers for characters, words, whitespace and delimiters.
//! What each parser does is stated over [`Parser::yields`], and [`laws`] holds
//! what is proved of the combinators.
pub mod cursor;
pub use cursor::ParserString;

mod parser;
pub use parser::{deterministic, Combine, Parsable, Parser};

pub mod combinators;
pub mod builtins;

mod result;
pub use result::ParseResult;

pub mod laws;
