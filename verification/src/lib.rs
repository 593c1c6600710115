//! Front end of a small language: a tokenizer, a compact source-range
//! encoding, and a recursive-descent parser that builds a syntax tree whose
//! nodes point back into the text they were read from.
//!
//! All positions and sizes are counted in characters of the source text.

pub mod ast;
pub mod diagnostics;
pub mod front;
pub mod lexer;
pub mod lexer_laws;
pub mod parser;
pub mod parser_laws;
