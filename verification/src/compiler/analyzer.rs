//! The analysis of a file of Jack.

use crate::compiler::compilation_engine::grammar::{parse, Input};
use crate::compiler::compilation_engine::writer::CompileError;
use crate::compiler::compilation_engine::CompilationEngine;
use crate::compiler::tokenizer::tokens_of;
use vstd::prelude::*;

verus! {

/// The analyzer of files of Jack.
pub struct Analyzer;

impl Analyzer {
    /// The tree of the class that a text holds, as XML.
    pub fn process(file: &str) -> (r: Result<String, CompileError>)
        ensures
            match parse(Input { tokens: tokens_of(file@).0, failure: tokens_of(file@).1 }) {
                Ok((tree, _)) => r matches Ok(text) && text@ == tree.xml(Seq::empty()),
                Err(e) => r matches Err(x) && x@ == e,
            },
    {
        CompilationEngine::new(file).compile()
    }

    /// The name of the file that holds the tree of the class of the file
    /// `stem.jack`.
    pub fn output_name(stem: &str) -> (r: String)
        ensures
            r@ == stem@ + "M.xml"@,
    {
        let mut name = String::from_str(stem);
        name.append("M.xml");
        name
    }
}

} // verus!
