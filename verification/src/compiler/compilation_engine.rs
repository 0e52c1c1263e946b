//! The parser of Jack.

pub mod grammar;
pub mod leaves;
pub mod writer;

use crate::compiler::compilation_engine::grammar::{
    begin, class, parse, render_all, Input,
};
use crate::compiler::compilation_engine::writer::{CompilationWriter, CompileError, XmlWriter};
use crate::compiler::tokenizer::{tokens_of, Tokenizer};
use vstd::prelude::*;

verus! {

/// The parts of a class that have a name in the grammar.
#[derive(Clone, Copy, Debug, PartialEq, Eq, Structural)]
pub enum NonTerminals {
    Class,
    ClassVarDec,
    SubroutineDec,
    ParameterList,
    SubroutineBody,
    VarDec,
    Statements,
    WhileStatement,
    IfStatement,
    ReturnStatement,
    LetStatement,
    DoStatement,
    Expression,
    Term,
    ExpressionList,
}

impl NonTerminals {
    /// The name of the part in the grammar.
    pub open spec fn name(self) -> Seq<char> {
        match self {
            NonTerminals::Class => "class"@,
            NonTerminals::ClassVarDec => "classVarDec"@,
            NonTerminals::SubroutineDec => "subroutineDec"@,
            NonTerminals::ParameterList => "parameterList"@,
            NonTerminals::SubroutineBody => "subroutineBody"@,
            NonTerminals::VarDec => "varDec"@,
            NonTerminals::Statements => "statements"@,
            NonTerminals::WhileStatement => "whileStatement"@,
            NonTerminals::IfStatement => "ifStatement"@,
            NonTerminals::ReturnStatement => "returnStatement"@,
            NonTerminals::LetStatement => "letStatement"@,
            NonTerminals::DoStatement => "doStatement"@,
            NonTerminals::Expression => "expression"@,
            NonTerminals::Term => "term"@,
            NonTerminals::ExpressionList => "expressionList"@,
        }
    }

    /// The name of the part in the grammar.
    pub fn as_str(self) -> (r: &'static str)
        ensures
            r@ == self.name(),
    {
        match self {
            NonTerminals::Class => "class",
            NonTerminals::ClassVarDec => "classVarDec",
            NonTerminals::SubroutineDec => "subroutineDec",
            NonTerminals::ParameterList => "parameterList",
            NonTerminals::SubroutineBody => "subroutineBody",
            NonTerminals::VarDec => "varDec",
            NonTerminals::Statements => "statements",
            NonTerminals::WhileStatement => "whileStatement",
            NonTerminals::IfStatement => "ifStatement",
            NonTerminals::ReturnStatement => "returnStatement",
            NonTerminals::LetStatement => "letStatement",
            NonTerminals::DoStatement => "doStatement",
            NonTerminals::Expression => "expression",
            NonTerminals::Term => "term",
            NonTerminals::ExpressionList => "expressionList",
        }
    }
}

/// The parser of one class.
pub struct CompilationEngine<'a> {
    pub tokenizer: Tokenizer<'a>,
}

impl<'a> CompilationEngine<'a> {
    /// The tokens that are left.
    pub open spec fn input(&self) -> Input {
        Input { tokens: self.tokenizer.tokens(), failure: self.tokenizer.failure() }
    }

    /// A parser at the start of a text.
    pub fn new(file: &'a str) -> (r: CompilationEngine<'a>)
        ensures
            (r.input().tokens, r.input().failure) == tokens_of(file@),
    {
        CompilationEngine { tokenizer: Tokenizer::new(file) }
    }

    /// Parses the class with which the tokens start and gives its tree as
    /// XML; what follows the class is not read.
    pub fn compile(self) -> (r: Result<String, CompileError>)
        ensures
            match parse(self.input()) {
                Ok((tree, _)) => r matches Ok(text) && text@ == tree.xml(Seq::empty()),
                Err(e) => r matches Err(x) && x@ == e,
            },
    {
        let mut output_writer = XmlWriter::new(self, String::new());
        match output_writer.write_class() {
            Ok(()) => {
                proof {
                    let trees = class(begin(self.input()))->Ok_0.0;
                    let pad = Seq::<char>::empty();
                    assert(trees.len() == 1);
                    assert(render_all(trees.drop_last(), pad) =~= Seq::<char>::empty());
                    assert(render_all(trees, pad) =~= trees[0].xml(pad));
                    assert(output_writer.writer@ =~= trees[0].xml(pad));
                }
                Ok(output_writer.writer)
            },
            Err(e) => Err(e),
        }
    }
}

} // verus!
