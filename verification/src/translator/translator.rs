//! The translation of a program: the files of a directory, one after the
//! other, into one assembly program.

use crate::hack::{program, render, write_program, Comp, Dest, Instr, Line, Register};
use crate::text::split_lines;
use crate::translator::code::{
    call_lines, compare_and_write_lines, pop_before_op_lines, stack_init_lines,
};
use crate::translator::parser::{
    command_text, holds_command, lemma_next_command, next_command, Command, Operation, Parser,
    _Command,
};
use vstd::prelude::*;

verus! {

/// Why a program cannot be translated; `file` and `line` count from 0.
#[derive(Clone, Copy, Debug, PartialEq, Eq, Structural)]
pub enum TranslateError {
    /// The line is no command of the language.
    NotCommand { file: usize, line: usize },
    /// The command needs a label whose number does not fit sixteen bits.
    OutOfLabels { file: usize, line: usize },
}

/// How far a translation has come: the assembly so far, and the numbers of
/// the next free labels.
pub struct Progress {
    pub code: Seq<Line>,
    pub label_value: u16,
    pub call_label: u16,
}

/// What stops the translation of a line.
pub enum Fault {
    NotCommand,
    OutOfLabels,
}

/// What every program starts with: `SP` is set to 256 and `Sys.init` is
/// called, which takes the return label 0.
pub open spec fn prologue() -> Progress {
    Progress {
        code: stack_init_lines() + call_lines("Sys.init"@, 0, 0),
        label_value: 0,
        call_label: 1,
    }
}

/// The translation after one more line of the file `name`.
pub open spec fn translate_line(p: Progress, line: Seq<char>, name: Seq<char>) -> Result<
    Progress,
    Fault,
> {
    if !holds_command(line) {
        Ok(p)
    } else {
        match Operation::parse(command_text(line)) {
            None => Err(Fault::NotCommand),
            Some(op) => if p.label_value + op.labels() > u16::MAX || p.call_label
                + op.return_labels() > u16::MAX {
                Err(Fault::OutOfLabels)
            } else {
                Ok(
                    Progress {
                        code: p.code + op.lines(name, p.label_value, p.call_label),
                        label_value: (p.label_value + op.labels()) as u16,
                        call_label: (p.call_label + op.return_labels()) as u16,
                    },
                )
            },
        }
    }
}

/// The translation after the first `n` lines of the file `name`, or the
/// first line that stops it.
pub open spec fn translate_lines(
    start: Progress,
    lines: Seq<Seq<char>>,
    name: Seq<char>,
    n: nat,
) -> Result<Progress, (nat, Fault)>
    decreases n,
{
    if n == 0 {
        Ok(start)
    } else {
        match translate_lines(start, lines, name, (n - 1) as nat) {
            Err(e) => Err(e),
            Ok(p) => match translate_line(p, lines[n - 1], name) {
                Ok(q) => Ok(q),
                Err(fault) => Err(((n - 1) as nat, fault)),
            },
        }
    }
}

/// The translation after the first `n` files, each a name and a text, or
/// the first line that stops it.
pub open spec fn translate_files(
    start: Progress,
    files: Seq<(Seq<char>, Seq<char>)>,
    n: nat,
) -> Result<Progress, (nat, nat, Fault)>
    decreases n,
{
    if n == 0 {
        Ok(start)
    } else {
        match translate_files(start, files, (n - 1) as nat) {
            Err(e) => Err(e),
            Ok(p) => {
                let lines = split_lines(files[n - 1].1);
                match translate_lines(p, lines, files[n - 1].0, lines.len()) {
                    Ok(q) => Ok(q),
                    Err((line, fault)) => Err(((n - 1) as nat, line, fault)),
                }
            },
        }
    }
}

/// Lines that hold no command leave a translation as it is.
pub proof fn lemma_translate_skips(
    start: Progress,
    lines: Seq<Seq<char>>,
    name: Seq<char>,
    a: nat,
    b: nat,
)
    requires
        a <= b <= lines.len(),
        forall|k: int| a <= k < b ==> !holds_command(lines[k]),
    ensures
        translate_lines(start, lines, name, b) == translate_lines(start, lines, name, a),
    decreases b - a,
{
    if a < b {
        lemma_translate_skips(start, lines, name, a, (b - 1) as nat);
    }
}

/// A translation goes on from what it has: the assembly so far stays at
/// the start of the assembly, and the numbers of the next labels do not
/// fall.
pub proof fn lemma_translate_lines_grows(
    start: Progress,
    lines: Seq<Seq<char>>,
    name: Seq<char>,
    m: nat,
    n: nat,
)
    requires
        m <= n,
        translate_lines(start, lines, name, n) is Ok,
    ensures
        translate_lines(start, lines, name, m) is Ok,
        ({
            let p = translate_lines(start, lines, name, m)->Ok_0;
            let q = translate_lines(start, lines, name, n)->Ok_0;
            &&& p.code.is_prefix_of(q.code)
            &&& p.label_value <= q.label_value
            &&& p.call_label <= q.call_label
        }),
    decreases n - m,
{
    if m < n {
        lemma_translate_lines_grows(start, lines, name, m, (n - 1) as nat);
        let p = translate_lines(start, lines, name, m)->Ok_0;
        let before = translate_lines(start, lines, name, (n - 1) as nat)->Ok_0;
        let q = translate_lines(start, lines, name, n)->Ok_0;
        assert(before.code.is_prefix_of(q.code));
    }
}

/// A translation goes on from what it has, from file to file.
pub proof fn lemma_translate_files_grows(
    start: Progress,
    files: Seq<(Seq<char>, Seq<char>)>,
    m: nat,
    n: nat,
)
    requires
        m <= n,
        translate_files(start, files, n) is Ok,
    ensures
        translate_files(start, files, m) is Ok,
        ({
            let p = translate_files(start, files, m)->Ok_0;
            let q = translate_files(start, files, n)->Ok_0;
            &&& p.code.is_prefix_of(q.code)
            &&& p.label_value <= q.label_value
            &&& p.call_label <= q.call_label
        }),
    decreases n - m,
{
    if m < n {
        lemma_translate_files_grows(start, files, m, (n - 1) as nat);
        let before = translate_files(start, files, (n - 1) as nat)->Ok_0;
        let lines = split_lines(files[n - 1].1);
        lemma_translate_lines_grows(before, lines, files[n - 1].0, 0, lines.len());
    }
}

/// The assembly of every program starts with the lines that set `SP` to
/// 256 and call `Sys.init`.
pub proof fn lemma_starts_with_prologue(files: Seq<(Seq<char>, Seq<char>)>)
    requires
        translate_files(prologue(), files, files.len()) is Ok,
    ensures
        ({
            let p = translate_files(prologue(), files, files.len())->Ok_0;
            let first = stack_init_lines() + call_lines("Sys.init"@, 0, 0);
            &&& first.is_prefix_of(p.code)
            &&& render(first).is_prefix_of(render(p.code))
        }),
{
    lemma_translate_files_grows(prologue(), files, 0, files.len());
    let p = translate_files(prologue(), files, files.len())->Ok_0;
    let first = prologue().code;
    let rest = p.code.subrange(first.len() as int, p.code.len() as int);
    assert(p.code =~= first + rest);
    crate::hack::lemma_render_concat(first, rest);
}

/// A comparison takes the next two labels: its assembly names the labels
/// with the numbers `label_value` and `label_value + 1`, and the next
/// comparison finds `label_value` two higher.
pub proof fn lemma_comparison_takes_two_labels(p: Progress, line: Seq<char>, name: Seq<char>)
    requires
        holds_command(line),
        Operation::parse(command_text(line)) matches Some(Operation::Arithmetic(op))
            && op.is_comparison(),
        translate_line(p, line, name) is Ok,
    ensures
        ({
            let q = translate_line(p, line, name)->Ok_0;
            let op = Operation::parse(command_text(line))->Some_0->Arithmetic_0;
            &&& q.label_value == p.label_value + 2
            &&& q.call_label == p.call_label
            &&& q.code == p.code + (pop_before_op_lines() + compare_and_write_lines(
                op,
                p.label_value,
            ))
        }),
{
}

/// A call takes the next return label.
pub proof fn lemma_call_takes_a_label(p: Progress, line: Seq<char>, name: Seq<char>)
    requires
        holds_command(line),
        Operation::parse(command_text(line)) is Some,
        Operation::parse(command_text(line))->Some_0 is Call,
        translate_line(p, line, name) is Ok,
    ensures
        ({
            let q = translate_line(p, line, name)->Ok_0;
            let op = Operation::parse(command_text(line))->Some_0;
            &&& q.label_value == p.label_value
            &&& q.call_label == p.call_label + 1
            &&& q.code == p.code + call_lines(op->Call_name, op->Call_args, p.call_label)
        }),
{
}

/// The files of a program.
pub struct Translator {
    /// Of each file its name without the extension, and its text.
    pub files: Vec<(String, String)>,
}

impl Translator {
    /// The names and texts of the files.
    pub open spec fn view(&self) -> Seq<(Seq<char>, Seq<char>)> {
        Seq::new(self.files@.len(), |i: int| (self.files@[i].0@, self.files@[i].1@))
    }

    /// The program of the files with these names and texts, in this order.
    pub fn new(files: Vec<(String, String)>) -> (r: Self)
        ensures
            r.files == files,
    {
        Self { files }
    }

    /// The name of the file for the assembly of the file or directory
    /// `name`.
    pub fn output_name(name: &str) -> (r: String)
        ensures
            r@ == name@ + ".asm"@,
    {
        let mut file = String::from_str(name);
        file.append(".asm");
        file
    }

    /// The assembly of the program.
    pub fn emit(&self) -> (r: Result<String, TranslateError>)
        ensures
            match translate_files(prologue(), self.view(), self.view().len()) {
                Ok(p) => r is Ok && r->Ok_0@ == render(p.code),
                Err((file, line, fault)) => r == Err::<String, TranslateError>(
                    match fault {
                        Fault::NotCommand => TranslateError::NotCommand {
                            file: file as usize,
                            line: line as usize,
                        },
                        Fault::OutOfLabels => TranslateError::OutOfLabels {
                            file: file as usize,
                            line: line as usize,
                        },
                    },
                ),
            },
    {
        let mut code: Vec<Instr> = Vec::new();
        code.push(Instr::Number(256));
        code.push(Instr::Compute(Dest::D, Comp::A, crate::hack::Jump::Null));
        code.push(Instr::Register(Register::SP));
        code.push(Instr::Compute(Dest::M, Comp::D, crate::hack::Jump::Null));
        assert(program(code@) =~= stack_init_lines());
        let mut start = Command::init();
        start.fmt(&mut code);
        assert(program(code@) =~= prologue().code);
        let mut parser = Parser::new("", String::new());
        parser.command.call_label = start.call_label;
        let ghost files = self.view();
        let mut i: usize = 0;
        while i < self.files.len()
            invariant
                i <= self.files.len(),
                files == self.view(),
                parser.wf(),
                translate_files(prologue(), files, i as nat) == Ok::<
                    Progress,
                    (nat, nat, Fault),
                >(
                    Progress {
                        code: program(code@),
                        label_value: parser.command.label_value,
                        call_label: parser.command.call_label,
                    },
                ),
            decreases self.files.len() - i,
        {
            let ghost begin = Progress {
                code: program(code@),
                label_value: parser.command.label_value,
                call_label: parser.command.call_label,
            };
            let file = &self.files[i];
            parser.next_file(file.1.as_str(), file.0.as_str());
            let ghost lines = split_lines(files[i as int].1);
            let ghost name = files[i as int].0;
            let mut more = true;
            while more
                invariant
                    i < self.files.len(),
                    files == self.view(),
                    parser.wf(),
                    parser.text() == lines,
                    parser.command.name@ == name,
                    more || parser.position == lines.len(),
                    translate_lines(begin, lines, name, parser.position as nat) == Ok::<
                        Progress,
                        (nat, Fault),
                    >(
                        Progress {
                            code: program(code@),
                            label_value: parser.command.label_value,
                            call_label: parser.command.call_label,
                        },
                    ),
                    translate_files(prologue(), files, i as nat) == Ok::<
                        Progress,
                        (nat, nat, Fault),
                    >(begin),
                    lines == split_lines(files[i as int].1),
                    name == files[i as int].0,
                decreases lines.len() - parser.position + if more { 1int } else { 0int },
            {
                let ghost from = parser.position as nat;
                let ghost at = next_command(lines, from as int);
                proof {
                    lemma_next_command(lines, from as int);
                    lemma_translate_skips(begin, lines, name, from, at as nat);
                }
                match parser.advance() {
                    Ok(true) => {
                        let fits = match &parser.command.cmd {
                            _Command::Arithmetic(op) => match op {
                                crate::translator::parser::ArtithmeticOperation::Eq
                                | crate::translator::parser::ArtithmeticOperation::Lt
                                | crate::translator::parser::ArtithmeticOperation::Gt => {
                                    parser.command.label_value <= u16::MAX - 2
                                },
                                _ => true,
                            },
                            _Command::Call { .. } => parser.command.call_label < u16::MAX,
                            _ => true,
                        };
                        if !fits {
                            assert(translate_lines(begin, lines, name, (at + 1) as nat) == Err::<
                                Progress,
                                (nat, Fault),
                            >((at as nat, Fault::OutOfLabels)));
                            proof {
                                lemma_translate_stops(begin, lines, name, (at + 1) as nat);
                                lemma_translate_files_stops(
                                    prologue(),
                                    files,
                                    (i + 1) as nat,
                                    files.len(),
                                );
                            }
                            return Err(
                                TranslateError::OutOfLabels { file: i, line: parser.position - 1 },
                            );
                        }
                        proof {
                            crate::translator::parser::lemma_parse_valid(
                                command_text(lines[at]),
                            );
                        }
                        parser.command.fmt(&mut code);
                    },
                    Ok(false) => {
                        more = false;
                    },
                    Err(_) => {
                        assert(translate_lines(begin, lines, name, (at + 1) as nat) == Err::<
                            Progress,
                            (nat, Fault),
                        >((at as nat, Fault::NotCommand)));
                        proof {
                            lemma_translate_stops(begin, lines, name, (at + 1) as nat);
                            lemma_translate_files_stops(
                                prologue(),
                                files,
                                (i + 1) as nat,
                                files.len(),
                            );
                        }
                        return Err(TranslateError::NotCommand { file: i, line: parser.position });
                    },
                }
            }
            i = i + 1;
        }
        let mut out = String::new();
        write_program(&mut out, &code);
        assert(out@ =~= render(program(code@)));
        Ok(out)
    }
}

/// A translation that a line has stopped stays stopped at that line.
pub proof fn lemma_translate_stops(
    start: Progress,
    lines: Seq<Seq<char>>,
    name: Seq<char>,
    n: nat,
)
    requires
        n <= lines.len(),
        translate_lines(start, lines, name, n) is Err,
    ensures
        translate_lines(start, lines, name, lines.len()) == translate_lines(start, lines, name, n),
    decreases lines.len() - n,
{
    if n < lines.len() {
        lemma_translate_stops(start, lines, name, n + 1);
    }
}

/// A translation that a file has stopped stays stopped there.
pub proof fn lemma_translate_files_stops(
    start: Progress,
    files: Seq<(Seq<char>, Seq<char>)>,
    n: nat,
    m: nat,
)
    requires
        n <= m,
        translate_files(start, files, n) is Err,
    ensures
        translate_files(start, files, m) == translate_files(start, files, n),
    decreases m - n,
{
    if n < m {
        lemma_translate_files_stops(start, files, n, (m - 1) as nat);
    }
}

} // verus!
