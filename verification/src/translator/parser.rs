//! The commands of the stack machine's language and the parser that reads
//! them from the lines of a file.

use crate::text::{
    chars_of, find_char, find_pair, index_of_char, index_of_pair, lines, numeral, parse_decimal,
    split_lines, starts_with, str_eq, trimmed, trimmed_end, trim_end, trim, views,
};
use vstd::prelude::*;

verus! {

/// The error for a line that is no command of the language.
#[derive(Debug, PartialEq, Eq, Structural)]
pub struct NotCommandError;

impl NotCommandError {
    /// What the error says.
    pub fn message(&self) -> (r: &'static str)
        ensures
            r@ == "supplied string is not a command"@,
    {
        "supplied string is not a command"
    }
}

/// The operations on the topmost values of the stack.
#[derive(Clone, Copy, Debug, PartialEq, Eq, Structural)]
pub enum ArtithmeticOperation {
    Add,
    Sub,
    Neg,
    Eq,
    Gt,
    Lt,
    And,
    Or,
    Not,
}

/// The segments of the memory.
#[derive(Clone, Copy, Debug, PartialEq, Eq, Structural)]
pub enum Segment {
    Argument,
    Local,
    Static,
    Constant,
    This,
    That,
    Pointer,
    Temp,
}

/// The largest number that an instruction can load: fifteen bits.
pub const MAX_NUMBER: u16 = 32767;

impl ArtithmeticOperation {
    /// The operation that a word names.
    pub open spec fn named(word: Seq<char>) -> Option<ArtithmeticOperation> {
        if word == "add"@ {
            Some(ArtithmeticOperation::Add)
        } else if word == "sub"@ {
            Some(ArtithmeticOperation::Sub)
        } else if word == "neg"@ {
            Some(ArtithmeticOperation::Neg)
        } else if word == "eq"@ {
            Some(ArtithmeticOperation::Eq)
        } else if word == "gt"@ {
            Some(ArtithmeticOperation::Gt)
        } else if word == "lt"@ {
            Some(ArtithmeticOperation::Lt)
        } else if word == "and"@ {
            Some(ArtithmeticOperation::And)
        } else if word == "or"@ {
            Some(ArtithmeticOperation::Or)
        } else if word == "not"@ {
            Some(ArtithmeticOperation::Not)
        } else {
            None
        }
    }

    /// Tells whether the operation compares, and so takes two labels.
    pub open spec fn is_comparison(self) -> bool {
        self == ArtithmeticOperation::Eq || self == ArtithmeticOperation::Gt || self
            == ArtithmeticOperation::Lt
    }

    /// The operation that a word names.
    pub fn try_from(value: &str) -> (r: Result<ArtithmeticOperation, NotCommandError>)
        ensures
            r == match Self::named(value@) {
                Some(op) => Ok::<ArtithmeticOperation, NotCommandError>(op),
                None => Err(NotCommandError),
            },
    {
        if str_eq(value, "add") {
            Ok(ArtithmeticOperation::Add)
        } else if str_eq(value, "sub") {
            Ok(ArtithmeticOperation::Sub)
        } else if str_eq(value, "neg") {
            Ok(ArtithmeticOperation::Neg)
        } else if str_eq(value, "eq") {
            Ok(ArtithmeticOperation::Eq)
        } else if str_eq(value, "gt") {
            Ok(ArtithmeticOperation::Gt)
        } else if str_eq(value, "lt") {
            Ok(ArtithmeticOperation::Lt)
        } else if str_eq(value, "and") {
            Ok(ArtithmeticOperation::And)
        } else if str_eq(value, "or") {
            Ok(ArtithmeticOperation::Or)
        } else if str_eq(value, "not") {
            Ok(ArtithmeticOperation::Not)
        } else {
            Err(NotCommandError)
        }
    }
}

impl Segment {
    /// The segment that a word names.
    pub open spec fn named(word: Seq<char>) -> Option<Segment> {
        if word == "argument"@ {
            Some(Segment::Argument)
        } else if word == "local"@ {
            Some(Segment::Local)
        } else if word == "static"@ {
            Some(Segment::Static)
        } else if word == "constant"@ {
            Some(Segment::Constant)
        } else if word == "this"@ {
            Some(Segment::This)
        } else if word == "that"@ {
            Some(Segment::That)
        } else if word == "pointer"@ {
            Some(Segment::Pointer)
        } else if word == "temp"@ {
            Some(Segment::Temp)
        } else {
            None
        }
    }

    /// The largest index that the segment has.
    pub open spec fn last_index(self) -> u16 {
        match self {
            Segment::Pointer => 1,
            Segment::Temp => 7,
            _ => MAX_NUMBER,
        }
    }

    /// The segment that a word names.
    pub fn try_from(value: &str) -> (r: Result<Segment, NotCommandError>)
        ensures
            r == match Self::named(value@) {
                Some(segment) => Ok::<Segment, NotCommandError>(segment),
                None => Err(NotCommandError),
            },
    {
        if str_eq(value, "argument") {
            Ok(Segment::Argument)
        } else if str_eq(value, "local") {
            Ok(Segment::Local)
        } else if str_eq(value, "static") {
            Ok(Segment::Static)
        } else if str_eq(value, "constant") {
            Ok(Segment::Constant)
        } else if str_eq(value, "this") {
            Ok(Segment::This)
        } else if str_eq(value, "that") {
            Ok(Segment::That)
        } else if str_eq(value, "pointer") {
            Ok(Segment::Pointer)
        } else if str_eq(value, "temp") {
            Ok(Segment::Temp)
        } else {
            Err(NotCommandError)
        }
    }

    fn max_index(self) -> (r: u16)
        ensures
            r == self.last_index(),
    {
        match self {
            Segment::Pointer => 1,
            Segment::Temp => 7,
            _ => MAX_NUMBER,
        }
    }
}

/// A command of the language.
#[allow(non_camel_case_types)]
#[derive(Debug)]
pub enum _Command {
    Arithmetic(ArtithmeticOperation),
    Push { segment: Segment, index: u16 },
    Pop { segment: Segment, index: u16 },
    Label(String),
    GOTO(String),
    If(String),
    Function { name: String, args: u16 },
    Return,
    Call { name: String, args: u16 },
}

/// What a command says: the command with its names as sequences of
/// characters.
pub enum Operation {
    Arithmetic(ArtithmeticOperation),
    Push { segment: Segment, index: u16 },
    Pop { segment: Segment, index: u16 },
    Label(Seq<char>),
    GOTO(Seq<char>),
    If(Seq<char>),
    Function { name: Seq<char>, args: u16 },
    Return,
    Call { name: Seq<char>, args: u16 },
}

impl View for _Command {
    type V = Operation;

    open spec fn view(&self) -> Operation {
        match self {
            _Command::Arithmetic(op) => Operation::Arithmetic(*op),
            _Command::Push { segment, index } => Operation::Push {
                segment: *segment,
                index: *index,
            },
            _Command::Pop { segment, index } => Operation::Pop { segment: *segment, index: *index },
            _Command::Label(name) => Operation::Label(name@),
            _Command::GOTO(name) => Operation::GOTO(name@),
            _Command::If(name) => Operation::If(name@),
            _Command::Function { name, args } => Operation::Function { name: name@, args: *args },
            _Command::Return => Operation::Return,
            _Command::Call { name, args } => Operation::Call { name: name@, args: *args },
        }
    }
}

impl Operation {
    /// Tells whether the machine can carry the command out: every number
    /// fits an instruction, an index lies in its segment, and nothing is
    /// popped into `constant`.
    pub open spec fn valid(self) -> bool {
        match self {
            Operation::Push { segment, index } => index <= segment.last_index(),
            Operation::Pop { segment, index } => segment != Segment::Constant && index
                <= segment.last_index(),
            Operation::Function { name, args } => args <= MAX_NUMBER,
            Operation::Call { name, args } => args <= MAX_NUMBER,
            _ => true,
        }
    }

    /// The command that a line states, for a line without the whitespace
    /// round it and without a comment.
    ///
    /// The words of a line are parted by one space each. A line of one word
    /// is an arithmetic command or `return`; a line of two words is `label`,
    /// `goto` or `if-goto` with a name; a line of three words is `push` or
    /// `pop` with a segment and an index, or `function` or `call` with a name
    /// and a number. Numbers are decimal numerals.
    pub open spec fn parse(line: Seq<char>) -> Option<Operation> {
        let n = line.len() as int;
        let i1 = find_char(line, ' ', 0);
        let first = line.subrange(0, i1);
        if i1 >= n {
            if first == "return"@ {
                Some(Operation::Return)
            } else {
                match ArtithmeticOperation::named(first) {
                    Some(op) => Some(Operation::Arithmetic(op)),
                    None => None,
                }
            }
        } else {
            let i2 = find_char(line, ' ', i1 + 1);
            let second = line.subrange(i1 + 1, i2);
            if i2 >= n {
                if second.len() == 0 {
                    None
                } else if first == "label"@ {
                    Some(Operation::Label(second))
                } else if first == "goto"@ {
                    Some(Operation::GOTO(second))
                } else if first == "if-goto"@ {
                    Some(Operation::If(second))
                } else {
                    None
                }
            } else {
                let third = line.subrange(i2 + 1, n);
                match numeral(third, MAX_NUMBER as nat) {
                    None => None,
                    Some(number) => {
                        let operation = if first == "push"@ {
                            match Segment::named(second) {
                                Some(segment) => Some(
                                    Operation::Push { segment, index: number as u16 },
                                ),
                                None => None,
                            }
                        } else if first == "pop"@ {
                            match Segment::named(second) {
                                Some(segment) => Some(
                                    Operation::Pop { segment, index: number as u16 },
                                ),
                                None => None,
                            }
                        } else if first == "function"@ && second.len() > 0 {
                            Some(Operation::Function { name: second, args: number as u16 })
                        } else if first == "call"@ && second.len() > 0 {
                            Some(Operation::Call { name: second, args: number as u16 })
                        } else {
                            None
                        };
                        match operation {
                            Some(op) if op.valid() => Some(op),
                            _ => None,
                        }
                    },
                }
            }
        }
    }
}

/// A line states only commands that the machine can carry out.
pub proof fn lemma_parse_valid(line: Seq<char>)
    ensures
        Operation::parse(line) matches Some(op) ==> op.valid(),
{
}

impl _Command {
    /// Reads the command that a line states.
    pub fn try_from(value: &str) -> (r: Result<_Command, NotCommandError>)
        ensures
            match Operation::parse(value@) {
                Some(op) => r is Ok && r->Ok_0@ == op,
                None => r is Err,
            },
    {
        let v = chars_of(value);
        let n = v.len();
        let i1 = index_of_char(&v, ' ', 0);
        let first = value.substring_char(0, i1);
        if i1 >= n {
            if str_eq(first, "return") {
                return Ok(_Command::Return);
            }
            return match ArtithmeticOperation::try_from(first) {
                Ok(op) => Ok(_Command::Arithmetic(op)),
                Err(e) => Err(e),
            };
        }
        let i2 = index_of_char(&v, ' ', i1 + 1);
        let second = value.substring_char(i1 + 1, i2);
        if i2 >= n {
            if i2 == i1 + 1 {
                return Err(NotCommandError);
            }
            if str_eq(first, "label") {
                return Ok(_Command::Label(String::from_str(second)));
            } else if str_eq(first, "goto") {
                return Ok(_Command::GOTO(String::from_str(second)));
            } else if str_eq(first, "if-goto") {
                return Ok(_Command::If(String::from_str(second)));
            } else {
                return Err(NotCommandError);
            }
        }
        let number = match parse_decimal(&v, i2 + 1, n, MAX_NUMBER as u32) {
            Some(number) => number as u16,
            None => {
                return Err(NotCommandError);
            },
        };
        if str_eq(first, "push") {
            let segment = Segment::try_from(second)?;
            if number <= segment.max_index() {
                Ok(_Command::Push { segment, index: number })
            } else {
                Err(NotCommandError)
            }
        } else if str_eq(first, "pop") {
            let segment = Segment::try_from(second)?;
            if segment != Segment::Constant && number <= segment.max_index() {
                Ok(_Command::Pop { segment, index: number })
            } else {
                Err(NotCommandError)
            }
        } else if str_eq(first, "function") && i2 > i1 + 1 {
            Ok(_Command::Function { name: String::from_str(second), args: number })
        } else if str_eq(first, "call") && i2 > i1 + 1 {
            Ok(_Command::Call { name: String::from_str(second), args: number })
        } else {
            Err(NotCommandError)
        }
    }
}

/// A command together with what its translation depends on: the name of the
/// file it stands in, and the numbers of the next labels.
#[derive(Debug)]
pub struct Command {
    pub cmd: _Command,
    /// The number of the next label of a comparison.
    pub label_value: u16,
    /// The number of the next return label of a call.
    pub call_label: u16,
    /// The name of the file, by which its `static` segment is told apart.
    pub name: String,
}

impl Command {
    /// The state at the start of a translation, in the file `name`: the
    /// labels are counted from 0, and the command is `return`.
    pub fn new(name: String) -> (r: Self)
        ensures
            r.cmd@ == Operation::Return,
            r.label_value == 0,
            r.call_label == 0,
            r.name@ == name@,
    {
        Self { cmd: _Command::Return, label_value: 0, call_label: 0, name }
    }
}

/// Tells whether a line holds a command: it is not empty and not a comment.
pub open spec fn holds_command(line: Seq<char>) -> bool {
    let t = trimmed(line);
    t.len() > 0 && !"//"@.is_prefix_of(t)
}

/// The text of the command of a line: the line without the whitespace round
/// it and without the comment at its end.
pub open spec fn command_text(line: Seq<char>) -> Seq<char> {
    let t = trimmed(line);
    let i = find_pair(t, '/', '/', 0);
    if i < t.len() {
        trimmed_end(t.subrange(0, i))
    } else {
        t
    }
}

/// The first line at or after `from` that holds a command, or `lines.len()`.
pub open spec fn next_command(lines: Seq<Seq<char>>, from: int) -> int
    decreases lines.len() - from,
{
    if from >= lines.len() {
        lines.len() as int
    } else if holds_command(lines[from]) {
        from
    } else {
        next_command(lines, from + 1)
    }
}

/// `next_command` gives the first line at or after `from` that holds a
/// command.
pub proof fn lemma_next_command(lines: Seq<Seq<char>>, from: int)
    requires
        0 <= from <= lines.len(),
    ensures
        from <= next_command(lines, from) <= lines.len(),
        forall|k: int| from <= k < next_command(lines, from) ==> !holds_command(lines[k]),
        next_command(lines, from) < lines.len() ==> holds_command(
            lines[next_command(lines, from)],
        ),
    decreases lines.len() - from,
{
    if from < lines.len() && !holds_command(lines[from]) {
        lemma_next_command(lines, from + 1);
    }
}

/// Reads the commands of one file after the other.
#[derive(Debug)]
pub struct Parser<'a> {
    /// The lines of the file.
    pub lines: Vec<&'a str>,
    /// The number of lines that were read.
    pub position: usize,
    /// The command that was read last, with the state of the translation.
    pub command: Command,
}

impl<'a> Parser<'a> {
    /// The lines of the file, as sequences of characters.
    pub open spec fn text(&self) -> Seq<Seq<char>> {
        views(self.lines@)
    }

    /// Tells whether the lines that were read are lines of the file.
    pub open spec fn wf(&self) -> bool {
        self.position <= self.lines.len()
    }

    /// A parser at the start of the file `name` with the text `file`, at the
    /// start of a translation.
    pub fn new(file: &'a str, name: String) -> (r: Self)
        ensures
            r.wf(),
            r.text() == split_lines(file@),
            r.position == 0,
            r.command.cmd@ == Operation::Return,
            r.command.label_value == 0,
            r.command.call_label == 0,
            r.command.name@ == name@,
    {
        Self { command: Command::new(name), lines: lines(file), position: 0 }
    }

    /// Goes on with another file; the numbers of the labels stay.
    pub fn next_file(&mut self, file: &'a str, name: &str)
        ensures
            final(self).wf(),
            final(self).text() == split_lines(file@),
            final(self).position == 0,
            final(self).command.cmd == old(self).command.cmd,
            final(self).command.label_value == old(self).command.label_value,
            final(self).command.call_label == old(self).command.call_label,
            final(self).command.name@ == name@,
    {
        self.lines = lines(file);
        self.position = 0;
        self.command.name = String::from_str(name);
    }

    /// Reads the next command. `Ok(true)` says that there was one, and that
    /// it stands in `command.cmd`; `Ok(false)` that the file has no more.
    /// A line that is not a command stays unread.
    pub fn advance(&mut self) -> (r: Result<bool, NotCommandError>)
        requires
            old(self).wf(),
        ensures
            final(self).wf(),
            final(self).lines == old(self).lines,
            final(self).command.label_value == old(self).command.label_value,
            final(self).command.call_label == old(self).command.call_label,
            final(self).command.name == old(self).command.name,
            ({
                let lines = old(self).text();
                let at = next_command(lines, old(self).position as int);
                if at >= lines.len() {
                    &&& r == Ok::<bool, NotCommandError>(false)
                    &&& final(self).position == lines.len()
                    &&& final(self).command.cmd == old(self).command.cmd
                } else {
                    match Operation::parse(command_text(lines[at])) {
                        Some(op) => {
                            &&& r == Ok::<bool, NotCommandError>(true)
                            &&& final(self).position == at + 1
                            &&& final(self).command.cmd@ == op
                        },
                        None => {
                            &&& r == Err::<bool, NotCommandError>(NotCommandError)
                            &&& final(self).position == at
                            &&& final(self).command.cmd == old(self).command.cmd
                        },
                    }
                }
            }),
    {
        let ghost text = self.text();
        let ghost start = self.position as int;
        proof {
            lemma_next_command(text, start);
        }
        let mut line: &str = "";
        let mut found = false;
        while !found && self.position < self.lines.len()
            invariant
                self.wf(),
                self.lines == old(self).lines,
                self.command == old(self).command,
                text == views(self.lines@),
                start <= self.position,
                self.position <= next_command(text, start),
                found ==> self.position == next_command(text, start) && self.position
                    < self.lines.len() && line@ == trimmed(text[self.position as int]),
                forall|k: int| start <= k < next_command(text, start) ==> !holds_command(text[k]),
                next_command(text, start) < text.len() ==> holds_command(
                    text[next_command(text, start)],
                ),
                next_command(text, start) <= text.len(),
            decreases self.lines.len() - self.position + if found { 0int } else { 1int },
        {
            let t = trim(self.lines[self.position]);
            assert(t@ == trimmed(text[self.position as int]));
            let tv = chars_of(t);
            if tv.len() == 0 || starts_with(&tv, "//") {
                self.position = self.position + 1;
            } else {
                line = t;
                found = true;
            }
        }
        if !found {
            return Ok(false);
        }
        let v = chars_of(line);
        let i = index_of_pair(&v, '/', '/', 0);
        let text_of_command = if i < v.len() {
            trim_end(line.substring_char(0, i))
        } else {
            line
        };
        match _Command::try_from(text_of_command) {
            Ok(cmd) => {
                self.command.cmd = cmd;
                self.position = self.position + 1;
                Ok(true)
            },
            Err(e) => Err(e),
        }
    }
}

} // verus!
