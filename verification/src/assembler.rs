//! The assembler: from the text of an assembly program to the words of the
//! machine, written in binary.

pub mod assembler;
pub mod command;
pub mod lines;
pub mod parser;
pub mod symbol_table;
