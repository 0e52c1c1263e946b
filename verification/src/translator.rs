//! The translator from the stack machine's language to Hack assembly.

pub mod code;
pub mod meaning;
pub mod parser;
pub mod translator;
