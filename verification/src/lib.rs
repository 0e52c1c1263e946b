//! Tools for the Hack platform: an assembler, a translator from the stack
//! machine's language to assembly, and a syntax analyzer for Jack.
//!
//! Each tool is a function from the text of its input to the text of its
//! output or to the error that names what is wrong with the input; reading
//! and writing files is left to the caller.
//!
//! - [`assembler`] turns the text of an assembly program into the words of
//!   the machine, one line of sixteen binary digits for each instruction.
//! - [`translator`] turns the files of a program for the stack machine into
//!   one assembly program. [`translator::code`] says which lines each
//!   command becomes, [`translator::meaning`] what those lines do on the
//!   machine of [`machine`].
//! - [`compiler`] reads the tokens of a class of Jack and writes the tree of
//!   the class, as [`compiler::compilation_engine::grammar`] defines it, in
//!   XML.
//! - [`hack`] holds the instruction set that the assembler and the
//!   translator share, [`text`] what all three need of characters, lines
//!   and numerals.
//!
//! Three functions of the standard library are called without a proof of
//! what they do: `str::lines`, `String::push` and `char::is_alphabetic`.
//! Each stands in a function of its own whose contract says what is taken
//! for granted.

pub mod assembler;
pub mod compiler;
pub mod hack;
pub mod machine;
pub mod text;
pub mod translator;
