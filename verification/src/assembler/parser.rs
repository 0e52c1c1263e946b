//! The two passes over the lines of a program: the first gives every label
//! its address, the second reads the instructions and gives every variable
//! its address.

use crate::assembler::command::{
    is_label, label_name, takes_place, Command, Instruction, Reading,
};
use crate::assembler::symbol_table::{bindings, SymbolTable};
use crate::text::{
    chars_of, char_is_digit, is_digits, lines, split_lines, starts_with, str_eq, trimmed, trim,
    views,
};
use vstd::prelude::*;

verus! {

/// The largest address that an instruction can load: fifteen bits.
pub const MAX_ADDRESS: usize = 32767;

/// Why a program cannot be assembled. `line` counts the lines of the text
/// from 0, `command` the instructions and labels.
#[derive(Clone, Copy, Debug, PartialEq, Eq, Structural)]
pub enum AsmError {
    /// The line declares a label that an earlier line has declared.
    DuplicateLabel { line: usize },
    /// The line is neither an instruction nor a label.
    UnknownCommand { line: usize },
    /// The line needs a variable, and no address is left for it.
    OutOfMemory { line: usize },
    /// The number of the instruction is empty or does not fit fifteen bits.
    BadNumber { command: usize },
    /// The symbol of the instruction has no address.
    UndefinedSymbol { command: usize },
    /// The destination of the instruction is no mnemonic.
    UnknownDest { command: usize },
    /// The computation of the instruction is no mnemonic.
    UnknownComp { command: usize },
    /// The jump of the instruction is no mnemonic.
    UnknownJump { command: usize },
}

/// How many of the first `n` lines take a place in the program's memory.
pub open spec fn places(lines: Seq<Seq<char>>, n: nat) -> nat
    decreases n,
{
    if n == 0 {
        0
    } else {
        places(lines, (n - 1) as nat) + if takes_place(lines[n - 1]) {
            1nat
        } else {
            0nat
        }
    }
}

/// No more lines take a place than there are lines.
pub proof fn lemma_places_bound(lines: Seq<Seq<char>>, n: nat)
    ensures
        places(lines, n) <= n,
    decreases n,
{
    if n > 0 {
        lemma_places_bound(lines, (n - 1) as nat);
    }
}

/// Tells whether a binding of `name` is among `found`.
pub open spec fn declares(found: Seq<(Seq<char>, usize)>, name: Seq<char>) -> bool {
    exists|i: int| 0 <= i < found.len() && #[trigger] found[i].0 == name
}

/// The labels that the first `n` lines declare, each with the number of
/// lines before its own that take a place: the address of the instruction
/// that follows the label. `Err` holds the first line that declares a label
/// again.
pub open spec fn labels(lines: Seq<Seq<char>>, n: nat) -> Result<Seq<(Seq<char>, usize)>, nat>
    decreases n,
{
    if n == 0 {
        Ok(Seq::empty())
    } else {
        match labels(lines, (n - 1) as nat) {
            Err(line) => Err(line),
            Ok(found) => {
                let t = trimmed(lines[n - 1]);
                if !is_label(t) {
                    Ok(found)
                } else if declares(found, label_name(t)) {
                    Err((n - 1) as nat)
                } else {
                    Ok(found.push((label_name(t), places(lines, (n - 1) as nat) as usize)))
                }
            },
        }
    }
}

/// Tells whether the line `k` declares the label of `entry` and `entry`
/// holds, as its address, the number of lines before the line `k` that
/// take a place.
pub open spec fn declared_by(lines: Seq<Seq<char>>, k: int, entry: (Seq<char>, usize)) -> bool {
    &&& 0 <= k < lines.len()
    &&& is_label(trimmed(lines[k]))
    &&& entry.0 == label_name(trimmed(lines[k]))
    &&& entry.1 == places(lines, k as nat)
}

/// Tells whether one of the first `n` lines declares the label of `entry`
/// with its address.
pub open spec fn declared(lines: Seq<Seq<char>>, n: nat, entry: (Seq<char>, usize)) -> bool {
    exists|k: int| k < n && #[trigger] declared_by(lines, k, entry)
}

/// Every label of the first pass is declared by one of the lines, with the
/// number of lines before that line that take a place as its address, and
/// no two labels have the same name.
pub proof fn lemma_labels(lines: Seq<Seq<char>>, n: nat)
    requires
        n <= lines.len(),
        n <= usize::MAX,
        labels(lines, n) is Ok,
    ensures
        ({
            let found = labels(lines, n)->Ok_0;
            &&& forall|i: int| 0 <= i < found.len() ==> declared(lines, n, #[trigger] found[i])
            &&& forall|i: int, j: int|
                0 <= i < j < found.len() ==> (#[trigger] found[i]).0 != (#[trigger] found[j]).0
        }),
    decreases n,
{
    if n > 0 {
        lemma_labels(lines, (n - 1) as nat);
        lemma_places_bound(lines, (n - 1) as nat);
        let before = labels(lines, (n - 1) as nat)->Ok_0;
        let found = labels(lines, n)->Ok_0;
        assert forall|i: int| 0 <= i < found.len() implies declared(
            lines,
            n,
            #[trigger] found[i],
        ) by {
            if i < before.len() {
                assert(found[i] == before[i]);
                let k = choose|k: int| k < n - 1 && #[trigger] declared_by(lines, k, before[i]);
                assert(k < n && declared_by(lines, k, found[i]));
            } else {
                assert(declared_by(lines, n - 1, found[i]));
            }
        }
        assert forall|i: int, j: int| 0 <= i < j < found.len() implies (#[trigger] found[i]).0
            != (#[trigger] found[j]).0 by {
            assert(before[i] == found[i]);
            if j < before.len() {
                assert(before[j] == found[j]);
            } else {
                assert(!declares(before, found[j].0));
            }
        }
    }
}

/// What the second pass has read: the instructions and labels, the symbols
/// with their addresses, and the address of the next variable.
pub struct Reader {
    pub commands: Seq<Instruction>,
    pub symbols: Seq<(Seq<char>, usize)>,
    pub next: usize,
}

/// What stops the second pass at a line.
pub enum Stop {
    UnknownCommand,
    OutOfMemory,
}

/// Tells whether an instruction names a symbol that has no address yet.
pub open spec fn needs_variable(i: Instruction, symbols: Seq<(Seq<char>, usize)>) -> bool {
    i matches Instruction::A(value) && !is_digits(value) && !bindings(symbols).contains_key(value)
}

/// The second pass after one more line.
pub open spec fn read_line(r: Reader, line: Seq<char>) -> Result<Reader, Stop> {
    match Instruction::read(line) {
        Reading::Nothing => Ok(r),
        Reading::Unknown => Err(Stop::UnknownCommand),
        Reading::Instruction(i) => if needs_variable(i, r.symbols) {
            if r.next > MAX_ADDRESS {
                Err(Stop::OutOfMemory)
            } else {
                Ok(
                    Reader {
                        commands: r.commands.push(i),
                        symbols: r.symbols.push((i->A_0, r.next)),
                        next: (r.next + 1) as usize,
                    },
                )
            }
        } else {
            Ok(Reader { commands: r.commands.push(i), ..r })
        },
    }
}

/// The second pass after the first `n` lines, or the first line that stops
/// it.
pub open spec fn read_lines(start: Reader, lines: Seq<Seq<char>>, n: nat) -> Result<
    Reader,
    (nat, Stop),
>
    decreases n,
{
    if n == 0 {
        Ok(start)
    } else {
        match read_lines(start, lines, (n - 1) as nat) {
            Err(e) => Err(e),
            Ok(r) => match read_line(r, lines[n - 1]) {
                Ok(q) => Ok(q),
                Err(stop) => Err(((n - 1) as nat, stop)),
            },
        }
    }
}

/// What the commands say, one by one.
pub open spec fn instructions(commands: Seq<Command>) -> Seq<Instruction> {
    Seq::new(commands.len(), |i: int| commands[i]@)
}

/// The outcome of both passes over a text, from the symbols `symbols` and
/// the next variable's address `next`.
pub open spec fn parsed(text: Seq<char>, symbols: Seq<(Seq<char>, usize)>, next: usize) -> Result<
    Reader,
    AsmError,
> {
    let lines = split_lines(text);
    match labels(lines, lines.len()) {
        Err(line) => Err(AsmError::DuplicateLabel { line: line as usize }),
        Ok(found) => match read_lines(
            Reader { commands: Seq::empty(), symbols: symbols + found, next },
            lines,
            lines.len(),
        ) {
            Ok(r) => Ok(r),
            Err((line, Stop::UnknownCommand)) => Err(
                AsmError::UnknownCommand { line: line as usize },
            ),
            Err((line, Stop::OutOfMemory)) => Err(AsmError::OutOfMemory { line: line as usize }),
        },
    }
}

/// A pass that a line has stopped stays stopped at that line.
pub proof fn lemma_labels_stop(lines: Seq<Seq<char>>, n: nat, m: nat)
    requires
        n <= m,
        labels(lines, n) is Err,
    ensures
        labels(lines, m) == labels(lines, n),
    decreases m - n,
{
    if n < m {
        lemma_labels_stop(lines, n, (m - 1) as nat);
    }
}

/// A pass that a line has stopped stays stopped at that line.
pub proof fn lemma_read_lines_stop(start: Reader, lines: Seq<Seq<char>>, n: nat, m: nat)
    requires
        n <= m,
        read_lines(start, lines, n) is Err,
    ensures
        read_lines(start, lines, m) == read_lines(start, lines, n),
    decreases m - n,
{
    if n < m {
        lemma_read_lines_stop(start, lines, n, (m - 1) as nat);
    }
}

/// The second pass does not change the address of a symbol that has one:
/// it gives addresses only to symbols that have none.
pub proof fn lemma_symbols_stay(start: Reader, lines: Seq<Seq<char>>, n: nat)
    requires
        read_lines(start, lines, n) is Ok,
    ensures
        ({
            let r = read_lines(start, lines, n)->Ok_0;
            &&& start.next <= r.next
            &&& forall|name: Seq<char>| #[trigger]
                bindings(start.symbols).contains_key(name) ==> {
                    &&& bindings(r.symbols).contains_key(name)
                    &&& bindings(r.symbols)[name] == bindings(start.symbols)[name]
                }
        }),
    decreases n,
{
    if n > 0 {
        lemma_symbols_stay(start, lines, (n - 1) as nat);
        let before = read_lines(start, lines, (n - 1) as nat)->Ok_0;
        let r = read_lines(start, lines, n)->Ok_0;
        if r.symbols != before.symbols {
            let i = Instruction::read(lines[n - 1])->Instruction_0;
            assert(r.symbols.drop_last() =~= before.symbols);
        }
    }
}

/// The commands among the first `n` that are instructions, in their order.
pub open spec fn without_labels(commands: Seq<Instruction>, n: nat) -> Seq<Instruction>
    decreases n,
{
    if n == 0 {
        Seq::empty()
    } else if commands[n - 1] is L {
        without_labels(commands, (n - 1) as nat)
    } else {
        without_labels(commands, (n - 1) as nat).push(commands[n - 1])
    }
}

/// The instructions among the first `n` commands do not depend on the
/// commands after them.
pub proof fn lemma_without_labels_prefix(a: Seq<Instruction>, b: Seq<Instruction>, n: nat)
    requires
        n <= a.len(),
        n <= b.len(),
        forall|i: int| 0 <= i < n ==> a[i] == b[i],
    ensures
        without_labels(a, n) == without_labels(b, n),
    decreases n,
{
    if n > 0 {
        lemma_without_labels_prefix(a, b, (n - 1) as nat);
    }
}

/// The second pass reads one instruction from each line that takes a
/// place, and none from another line.
pub proof fn lemma_instruction_per_place(start: Reader, lines: Seq<Seq<char>>, n: nat)
    requires
        n <= lines.len(),
        read_lines(start, lines, n) is Ok,
    ensures
        ({
            let r = read_lines(start, lines, n)->Ok_0;
            &&& r.commands.len() >= start.commands.len()
            &&& without_labels(r.commands, r.commands.len()).len() == without_labels(
                start.commands,
                start.commands.len(),
            ).len() + places(lines, n)
        }),
    decreases n,
{
    if n > 0 {
        lemma_instruction_per_place(start, lines, (n - 1) as nat);
        let before = read_lines(start, lines, (n - 1) as nat)->Ok_0;
        let r = read_lines(start, lines, n)->Ok_0;
        if r.commands != before.commands {
            let i = Instruction::read(lines[n - 1])->Instruction_0;
            assert(r.commands == before.commands.push(i));
            lemma_without_labels_prefix(r.commands, before.commands, before.commands.len());
        }
    }
}

/// Tells whether a string is made of decimal digits only.
pub fn all_digits(s: &str) -> (r: bool)
    ensures
        r == is_digits(s@),
{
    let v = chars_of(s);
    let mut i: usize = 0;
    while i < v.len()
        invariant
            i <= v.len(),
            v@ == s@,
            forall|j: int| 0 <= j < i ==> crate::text::is_digit(#[trigger] s@[j]),
        decreases v.len() - i,
    {
        if !char_is_digit(v[i]) {
            return false;
        }
        i = i + 1;
    }
    true
}

/// The instructions and labels of a program, with its symbols.
#[derive(Debug)]
pub struct Parser<'a> {
    pub symbol_table: SymbolTable<'a>,
    pub commands: Vec<Command<'a>>,
}

impl<'a> Parser<'a> {
    /// A parser that has read nothing: it knows the symbols that every
    /// program knows.
    pub fn new() -> (r: Self)
        ensures
            r.symbol_table.table.list() == crate::assembler::symbol_table::predefined(),
            r.symbol_table.symbol_index == crate::assembler::symbol_table::FIRST_VARIABLE,
            r.commands@.len() == 0,
    {
        Parser { symbol_table: SymbolTable::new(), commands: Vec::new() }
    }

    /// Reads a program. The labels and the variables of the text join the
    /// symbols that the parser knows; the instructions and labels of the
    /// text take the place of the commands that it held.
    pub fn parse(&mut self, file: &'a str) -> (r: Result<(), AsmError>)
        ensures
            match parsed(
                file@,
                old(self).symbol_table.table.list(),
                old(self).symbol_table.symbol_index,
            ) {
                Ok(reader) => {
                    &&& r is Ok
                    &&& instructions(final(self).commands@) == reader.commands
                    &&& final(self).symbol_table.table.list() == reader.symbols
                    &&& final(self).symbol_table.symbol_index == reader.next
                },
                Err(e) => r == Err::<(), AsmError>(e),
            },
    {
        let ls = lines(file);
        let ghost text = split_lines(file@);
        let ghost known = self.symbol_table.table.list();
        let first = self.symbol_table.table.entries.len();
        let mut position: usize = 0;
        let mut i: usize = 0;
        while i < ls.len()
            invariant
                i <= ls.len(),
                views(ls@) == text,
                position == places(text, i as nat),
                first == known.len(),
                self.commands == old(self).commands,
                self.symbol_table.symbol_index == old(self).symbol_table.symbol_index,
                first <= self.symbol_table.table.entries.len(),
                labels(text, i as nat) is Ok,
                self.symbol_table.table.list() == known + labels(text, i as nat)->Ok_0,
                text == split_lines(file@),
                known == old(self).symbol_table.table.list(),
            decreases ls.len() - i,
        {
            let ghost found = labels(text, i as nat)->Ok_0;
            proof {
                lemma_places_bound(text, i as nat);
                assert(self.symbol_table.table.list().len() == known.len() + found.len());
            }
            let t = trim(ls[i]);
            assert(t@ == trimmed(text[i as int]));
            let v = chars_of(t);
            let n = v.len();
            if n == 0 || starts_with(&v, "//") {
            } else if v[0] == '(' && v[n - 1] == ')' {
                let name = t.substring_char(1, n - 1);
                let mut k = first;
                while k < self.symbol_table.table.entries.len()
                    invariant
                        first <= k <= self.symbol_table.table.entries.len(),
                        self.symbol_table.table.list() == known + found,
                        self.symbol_table.table.entries.len() == first + found.len(),
                        first == known.len(),
                        forall|j: int| 0 <= j < k - first ==> (#[trigger] found[j]).0 != name@,
                        i < ls.len(),
                        views(ls@) == text,
                        text == split_lines(file@),
                        known == old(self).symbol_table.table.list(),
                        labels(text, i as nat) == Ok::<Seq<(Seq<char>, usize)>, nat>(found),
                        is_label(trimmed(text[i as int])),
                        label_name(trimmed(text[i as int])) == name@,
                    decreases self.symbol_table.table.entries.len() - k,
                {
                    assert(self.symbol_table.table.list()[k as int] == (known + found)[k as int]);
                    assert((known + found)[k as int] == found[k - first]);
                    if str_eq(self.symbol_table.table.entries[k].0, name) {
                        proof {
                            assert(found[k - first].0 == name@);
                            assert(declares(found, name@));
                            assert(labels(text, (i + 1) as nat) == Err::<
                                Seq<(Seq<char>, usize)>,
                                nat,
                            >(i as nat));
                            lemma_labels_stop(text, (i + 1) as nat, text.len());
                        }
                        return Err(AsmError::DuplicateLabel { line: i });
                    }
                    k = k + 1;
                }
                assert(!declares(found, name@));
                self.symbol_table.table.insert(name, position);
                assert(self.symbol_table.table.list() =~= known + found.push((name@, position)));
            } else {
                position = position + 1;
            }
            i = i + 1;
        }
        let ghost found = labels(text, text.len())->Ok_0;
        let ghost start = Reader {
            commands: Seq::empty(),
            symbols: known + found,
            next: self.symbol_table.symbol_index,
        };
        self.commands = Vec::new();
        assert(instructions(self.commands@) =~= start.commands);
        let mut i: usize = 0;
        while i < ls.len()
            invariant
                i <= ls.len(),
                views(ls@) == text,
                text == split_lines(file@),
                labels(text, text.len()) == Ok::<Seq<(Seq<char>, usize)>, nat>(found),
                start == (Reader {
                    commands: Seq::empty(),
                    symbols: old(self).symbol_table.table.list() + found,
                    next: old(self).symbol_table.symbol_index,
                }),
                read_lines(start, text, i as nat) == Ok::<Reader, (nat, Stop)>(
                    Reader {
                        commands: instructions(self.commands@),
                        symbols: self.symbol_table.table.list(),
                        next: self.symbol_table.symbol_index,
                    },
                ),
            decreases ls.len() - i,
        {
            let ghost before = Reader {
                commands: instructions(self.commands@),
                symbols: self.symbol_table.table.list(),
                next: self.symbol_table.symbol_index,
            };
            match Command::read(ls[i]) {
                Err(_) => {
                    proof {
                        assert(read_lines(start, text, (i + 1) as nat) == Err::<
                            Reader,
                            (nat, Stop),
                        >((i as nat, Stop::UnknownCommand)));
                        lemma_read_lines_stop(start, text, (i + 1) as nat, text.len());
                    }
                    return Err(AsmError::UnknownCommand { line: i });
                },
                Ok(None) => {},
                Ok(Some(command)) => {
                    let ghost old_commands = self.commands@;
                    match &command {
                        Command::A(value) => {
                            if !all_digits(value) && !self.symbol_table.table.contains_key(value) {
                                if self.symbol_table.symbol_index > MAX_ADDRESS {
                                    proof {
                                        assert(needs_variable(command@, before.symbols));
                                        assert(read_lines(start, text, (i + 1) as nat) == Err::<
                                            Reader,
                                            (nat, Stop),
                                        >((i as nat, Stop::OutOfMemory)));
                                        lemma_read_lines_stop(
                                            start,
                                            text,
                                            (i + 1) as nat,
                                            text.len(),
                                        );
                                    }
                                    return Err(AsmError::OutOfMemory { line: i });
                                }
                                self.symbol_table.table.insert(
                                    value,
                                    self.symbol_table.symbol_index,
                                );
                                self.symbol_table.symbol_index = self.symbol_table.symbol_index
                                    + 1;
                            }
                        },
                        _ => {},
                    }
                    self.commands.push(command);
                    assert(instructions(self.commands@) =~= before.commands.push(command@));
                },
            }
            i = i + 1;
        }
        Ok(())
    }
}

} // verus!
