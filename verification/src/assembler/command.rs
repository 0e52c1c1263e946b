//! The lines of an assembly program.

use crate::text::{chars_of, find_char, index_of_char, starts_with, trimmed, trim};
use vstd::prelude::*;

verus! {

/// An instruction or a label, with its fields as they stand in the text.
#[derive(Debug, PartialEq)]
pub enum Command<'a> {
    /// `@value`
    A(&'a str),
    /// `dest=comp;jump`
    C { dest: Option<&'a str>, comp: Option<&'a str>, jump: Option<&'a str> },
    /// `(name)`
    L(&'a str),
}

/// What a command says: the command with its fields as sequences of
/// characters.
pub enum Instruction {
    A(Seq<char>),
    C { dest: Option<Seq<char>>, comp: Option<Seq<char>>, jump: Option<Seq<char>> },
    L(Seq<char>),
}

/// What a line of a program holds.
pub enum Reading {
    /// Nothing: the line is empty or a comment.
    Nothing,
    Instruction(Instruction),
    /// Something that is neither an instruction nor a label.
    Unknown,
}

/// What a field holds, where there is one.
pub open spec fn field(s: Option<&str>) -> Option<Seq<char>> {
    match s {
        Some(s) => Some(s@),
        None => None,
    }
}

impl<'a> View for Command<'a> {
    type V = Instruction;

    open spec fn view(&self) -> Instruction {
        match self {
            Command::A(value) => Instruction::A(value@),
            Command::C { dest, comp, jump } => Instruction::C {
                dest: field(*dest),
                comp: field(*comp),
                jump: field(*jump),
            },
            Command::L(name) => Instruction::L(name@),
        }
    }
}

/// Tells whether a line without the whitespace round it is empty or a
/// comment.
pub open spec fn is_blank(t: Seq<char>) -> bool {
    t.len() == 0 || "//"@.is_prefix_of(t)
}

/// Tells whether a line without the whitespace round it declares a label.
pub open spec fn is_label(t: Seq<char>) -> bool {
    !is_blank(t) && t[0] == '(' && t.last() == ')'
}

/// The name that a label's line declares.
pub open spec fn label_name(t: Seq<char>) -> Seq<char> {
    t.subrange(1, t.len() - 1)
}

/// Tells whether a line takes a place in the program's memory: it is
/// neither empty, nor a comment, nor a label.
pub open spec fn takes_place(line: Seq<char>) -> bool {
    !is_blank(trimmed(line)) && !is_label(trimmed(line))
}

impl Instruction {
    /// What a line holds.
    ///
    /// Whitespace round the line does not count. An empty line and one that
    /// starts with `//` hold nothing. `(NAME)` is a label and `@X` an
    /// instruction of the first kind. Any other line with `=` or `;` is an
    /// instruction of the second kind: the destination stands before the
    /// first `=`, the jump after the first `;` that follows it.
    pub open spec fn read(line: Seq<char>) -> Reading {
        let t = trimmed(line);
        let n = t.len() as int;
        let i = find_char(t, '=', 0);
        let j = find_char(t, ';', 0);
        if is_blank(t) {
            Reading::Nothing
        } else if is_label(t) {
            Reading::Instruction(Instruction::L(label_name(t)))
        } else if t[0] == '@' {
            Reading::Instruction(Instruction::A(t.subrange(1, n)))
        } else if i < n && j < n {
            let k = find_char(t, ';', i + 1);
            if k < n {
                Reading::Instruction(
                    Instruction::C {
                        dest: Some(t.subrange(0, i)),
                        comp: Some(t.subrange(i + 1, k)),
                        jump: Some(t.subrange(k + 1, n)),
                    },
                )
            } else {
                Reading::Unknown
            }
        } else if i < n {
            Reading::Instruction(
                Instruction::C {
                    dest: Some(t.subrange(0, i)),
                    comp: Some(t.subrange(i + 1, n)),
                    jump: None,
                },
            )
        } else if j < n {
            Reading::Instruction(
                Instruction::C {
                    dest: None,
                    comp: Some(t.subrange(0, j)),
                    jump: Some(t.subrange(j + 1, n)),
                },
            )
        } else {
            Reading::Unknown
        }
    }
}

/// The error for a line that is neither an instruction nor a label.
#[derive(Debug, PartialEq, Eq, Structural)]
pub struct UnknownCommand;

impl<'a> Command<'a> {
    /// Reads a line: `Ok(None)` for a line that holds nothing.
    pub fn read(buf: &'a str) -> (r: Result<Option<Command<'a>>, UnknownCommand>)
        ensures
            match Instruction::read(buf@) {
                Reading::Nothing => r == Ok::<Option<Command<'a>>, UnknownCommand>(None),
                Reading::Instruction(i) => r matches Ok(Some(c)) && c@ == i,
                Reading::Unknown => r is Err,
            },
    {
        let t = trim(buf);
        let v = chars_of(t);
        let n = v.len();
        if n == 0 || starts_with(&v, "//") {
            return Ok(None);
        }
        if v[0] == '(' && v[n - 1] == ')' {
            return Ok(Some(Command::L(t.substring_char(1, n - 1))));
        }
        if v[0] == '@' {
            return Ok(Some(Command::A(t.substring_char(1, n))));
        }
        let i = index_of_char(&v, '=', 0);
        let j = index_of_char(&v, ';', 0);
        if i < n && j < n {
            let k = index_of_char(&v, ';', i + 1);
            if k < n {
                Ok(
                    Some(
                        Command::C {
                            dest: Some(t.substring_char(0, i)),
                            comp: Some(t.substring_char(i + 1, k)),
                            jump: Some(t.substring_char(k + 1, n)),
                        },
                    ),
                )
            } else {
                Err(UnknownCommand)
            }
        } else if i < n {
            Ok(
                Some(
                    Command::C {
                        dest: Some(t.substring_char(0, i)),
                        comp: Some(t.substring_char(i + 1, n)),
                        jump: None,
                    },
                ),
            )
        } else if j < n {
            Ok(
                Some(
                    Command::C {
                        dest: None,
                        comp: Some(t.substring_char(0, j)),
                        jump: Some(t.substring_char(j + 1, n)),
                    },
                ),
            )
        } else {
            Err(UnknownCommand)
        }
    }

    /// Reads a line that holds nothing, an instruction or a label.
    pub fn parse_instruction(buf: &'a str) -> (r: Option<Command<'a>>)
        requires
            !(Instruction::read(buf@) is Unknown),
        ensures
            match Instruction::read(buf@) {
                Reading::Instruction(i) => r matches Some(c) && c@ == i,
                _ => r is None,
            },
    {
        match Command::read(buf) {
            Ok(command) => command,
            Err(_) => None,
        }
    }

    /// Tells whether `parse_instruction` can read the line.
    pub fn is_known(buf: &str) -> (r: bool)
        ensures
            r == !(Instruction::read(buf@) is Unknown),
    {
        Command::read(buf).is_ok()
    }
}

} // verus!
