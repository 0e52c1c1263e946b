//! The syntax analyzer for Jack: a tokenizer, and a parser that writes the
//! structure of a class as XML.

pub mod analyzer;
pub mod compilation_engine;
pub mod tokenizer;
