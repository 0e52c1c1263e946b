//! The encoding of instructions as words of sixteen bits, and the text of
//! the words in binary.

use crate::assembler::command::{Command, Instruction};
use crate::assembler::parser::{
    all_digits, instructions, labels, lemma_instruction_per_place, parsed, places, without_labels,
    AsmError, Parser, Reader, MAX_ADDRESS,
};
use crate::assembler::symbol_table::{
    bindings, comp_table, dest_table, jump_table, lemma_comp_table, lemma_dest_table,
    lemma_jump_table, predefined, InstructionTable, FIRST_VARIABLE,
};
use crate::hack::{Comp, Dest, Jump};
use crate::text::{
    chars_of, find_char, index_of_char, is_digits, numeral, parse_decimal, split_lines,
};
use vstd::prelude::*;

verus! {

/// Why an instruction has no word.
pub enum Fault {
    BadNumber,
    UndefinedSymbol,
    UnknownDest,
    UnknownComp,
    UnknownJump,
}

/// The three bits with which every compute instruction starts.
pub const COMPUTE: u16 = 0b111_0_000000_000_000;

/// The bits of a field of a compute instruction: those of its mnemonic, or
/// those of `null` where the field is absent.
pub open spec fn field_bits(table: Seq<(Seq<char>, u16)>, field: Option<Seq<char>>) -> Option<
    u16,
> {
    let key = match field {
        Some(mnemonic) => mnemonic,
        None => "null"@,
    };
    if bindings(table).contains_key(key) {
        Some(bindings(table)[key])
    } else {
        None
    }
}

/// The word of an instruction; a label has none.
///
/// An instruction `@X` whose `X` is made of digits has the number `X` as
/// its word, any other the address of the symbol `X`; either fits fifteen
/// bits. A compute instruction has the bits of its three fields, after
/// three ones.
pub open spec fn encode(i: Instruction, symbols: Map<Seq<char>, usize>) -> Result<
    Option<u16>,
    Fault,
> {
    match i {
        Instruction::L(_) => Ok(None),
        Instruction::A(value) => if is_digits(value) {
            match numeral(value, MAX_ADDRESS as nat) {
                Some(n) => Ok(Some(n as u16)),
                None => Err(Fault::BadNumber),
            }
        } else if !symbols.contains_key(value) {
            Err(Fault::UndefinedSymbol)
        } else if symbols[value] > MAX_ADDRESS {
            Err(Fault::BadNumber)
        } else {
            Ok(Some(symbols[value] as u16))
        },
        Instruction::C { dest, comp, jump } => match field_bits(dest_table(), dest) {
            None => Err(Fault::UnknownDest),
            Some(d) => match field_bits(comp_table(), comp) {
                None => Err(Fault::UnknownComp),
                Some(c) => match field_bits(jump_table(), jump) {
                    None => Err(Fault::UnknownJump),
                    Some(j) => Ok(Some(COMPUTE | d | c | j)),
                },
            },
        },
    }
}

/// The words of the first `n` commands, in their order, or the first
/// command that has none though it is no label.
pub open spec fn words(
    commands: Seq<Instruction>,
    symbols: Map<Seq<char>, usize>,
    n: nat,
) -> Result<Seq<u16>, (nat, Fault)>
    decreases n,
{
    if n == 0 {
        Ok(Seq::empty())
    } else {
        match words(commands, symbols, (n - 1) as nat) {
            Err(e) => Err(e),
            Ok(ws) => match encode(commands[n - 1], symbols) {
                Err(fault) => Err(((n - 1) as nat, fault)),
                Ok(None) => Ok(ws),
                Ok(Some(w)) => Ok(ws.push(w)),
            },
        }
    }
}

/// The sixteen bits of a word as characters, the highest first.
pub open spec fn binary(word: u16) -> Seq<char> {
    Seq::new(
        16,
        |i: int|
            if (word >> ((15 - i) as u16)) & 1u16 == 1u16 {
                '1'
            } else {
                '0'
            },
    )
}

/// The text of a program's words: each word in binary on a line of its own.
pub open spec fn hack_text(words: Seq<u16>) -> Seq<char>
    decreases words.len(),
{
    if words.len() == 0 {
        Seq::empty()
    } else {
        hack_text(words.drop_last()) + binary(words.last()) + seq!['\n']
    }
}

/// The error that a fault at a command makes.
pub open spec fn error_at(command: nat, fault: Fault) -> AsmError {
    match fault {
        Fault::BadNumber => AsmError::BadNumber { command: command as usize },
        Fault::UndefinedSymbol => AsmError::UndefinedSymbol { command: command as usize },
        Fault::UnknownDest => AsmError::UnknownDest { command: command as usize },
        Fault::UnknownComp => AsmError::UnknownComp { command: command as usize },
        Fault::UnknownJump => AsmError::UnknownJump { command: command as usize },
    }
}

/// A fault stays the first fault.
pub proof fn lemma_words_stop(
    commands: Seq<Instruction>,
    symbols: Map<Seq<char>, usize>,
    n: nat,
    m: nat,
)
    requires
        n <= m,
        words(commands, symbols, n) is Err,
    ensures
        words(commands, symbols, m) == words(commands, symbols, n),
    decreases m - n,
{
    if n < m {
        lemma_words_stop(commands, symbols, n, (m - 1) as nat);
    }
}

/// The field of a compute instruction that holds a destination: none for
/// `Null`, which is left out, else its mnemonic.
pub open spec fn dest_field(d: Dest) -> Option<Seq<char>> {
    if d == Dest::Null {
        None
    } else {
        Some(d.mnemonic())
    }
}

/// The field of a compute instruction that holds a jump: none for `Null`,
/// which is left out, else its mnemonic.
pub open spec fn jump_field(j: Jump) -> Option<Seq<char>> {
    if j == Jump::Null {
        None
    } else {
        Some(j.mnemonic())
    }
}

/// A compute instruction whose fields hold a destination, a computation
/// and a jump has three ones and the bits of the three as its word.
pub proof fn lemma_encode_compute(d: Dest, c: Comp, j: Jump, symbols: Map<Seq<char>, usize>)
    ensures
        encode(
            Instruction::C { dest: dest_field(d), comp: Some(c.mnemonic()), jump: jump_field(j) },
            symbols,
        ) == Ok::<Option<u16>, Fault>(Some(COMPUTE | d.bits() | c.bits() | j.bits())),
        encode(
            Instruction::C {
                dest: Some(d.mnemonic()),
                comp: Some(c.mnemonic()),
                jump: Some(j.mnemonic()),
            },
            symbols,
        ) == Ok::<Option<u16>, Fault>(Some(COMPUTE | d.bits() | c.bits() | j.bits())),
{
    lemma_dest_table(d);
    lemma_dest_table(Dest::Null);
    lemma_comp_table(c);
    lemma_jump_table(j);
    lemma_jump_table(Jump::Null);
}

/// Every instruction has one word and a label none: the words of a program
/// are as many as its instructions, and each word is that of the
/// instruction at its place among them.
pub proof fn lemma_word_per_instruction(
    commands: Seq<Instruction>,
    symbols: Map<Seq<char>, usize>,
    n: nat,
)
    requires
        n <= commands.len(),
        words(commands, symbols, n) is Ok,
    ensures
        ({
            let ws = words(commands, symbols, n)->Ok_0;
            let instructions = without_labels(commands, n);
            &&& ws.len() == instructions.len()
            &&& forall|k: int|
                0 <= k < ws.len() ==> encode(#[trigger] instructions[k], symbols) == Ok::<
                    Option<u16>,
                    Fault,
                >(Some(ws[k]))
        }),
    decreases n,
{
    if n > 0 {
        lemma_word_per_instruction(commands, symbols, (n - 1) as nat);
    }
}

/// The text of a program's words is made of lines of seventeen characters:
/// the sixteen binary digits of a word, in the order of the words, and a
/// line feed.
pub proof fn lemma_hack_text(words: Seq<u16>)
    ensures
        hack_text(words).len() == 17 * words.len(),
        forall|k: int|
            0 <= k < words.len() ==> {
                &&& #[trigger] hack_text(words).subrange(17 * k, 17 * k + 16) == binary(words[k])
                &&& hack_text(words)[17 * k + 16] == '\n'
            },
        forall|k: int, i: int|
            0 <= k < words.len() && 0 <= i < 16 ==> {
                let c = #[trigger] hack_text(words)[17 * k + i];
                c == '0' || c == '1'
            },
    decreases words.len(),
{
    if words.len() > 0 {
        let head = words.drop_last();
        lemma_hack_text(head);
        let text = hack_text(words);
        let n = head.len() as int;
        assert(text == hack_text(head) + binary(words.last()) + seq!['\n']);
        assert forall|k: int| 0 <= k < words.len() implies {
            &&& #[trigger] text.subrange(17 * k, 17 * k + 16) == binary(words[k])
            &&& text[17 * k + 16] == '\n'
        } by {
            if k < n {
                assert(text.subrange(17 * k, 17 * k + 16) =~= hack_text(head).subrange(
                    17 * k,
                    17 * k + 16,
                ));
                assert(text[17 * k + 16] == hack_text(head)[17 * k + 16]);
            } else {
                assert(text.subrange(17 * k, 17 * k + 16) =~= binary(words.last()));
            }
        }
        assert forall|k: int, i: int| 0 <= k < words.len() && 0 <= i < 16 implies {
            let c = #[trigger] text[17 * k + i];
            c == '0' || c == '1'
        } by {
            assert(text.subrange(17 * k, 17 * k + 16)[i] == text[17 * k + i]);
            assert(binary(words[k])[i] == '0' || binary(words[k])[i] == '1');
        }
    }
}

/// A text that is assembled becomes one line of sixteen binary digits for
/// each of its lines that is an instruction, in their order; its empty
/// lines, comments and labels become none.
pub proof fn lemma_one_line_per_instruction(text: Seq<char>)
    requires
        parsed(text, predefined(), FIRST_VARIABLE) is Ok,
        words(
            parsed(text, predefined(), FIRST_VARIABLE)->Ok_0.commands,
            bindings(parsed(text, predefined(), FIRST_VARIABLE)->Ok_0.symbols),
            parsed(text, predefined(), FIRST_VARIABLE)->Ok_0.commands.len(),
        ) is Ok,
    ensures
        ({
            let lines = split_lines(text);
            let reader = parsed(text, predefined(), FIRST_VARIABLE)->Ok_0;
            let symbols = bindings(reader.symbols);
            let ws = words(reader.commands, symbols, reader.commands.len())->Ok_0;
            let instructions = without_labels(reader.commands, reader.commands.len());
            &&& ws.len() == places(lines, lines.len())
            &&& ws.len() == instructions.len()
            &&& hack_text(ws).len() == 17 * ws.len()
            &&& forall|k: int|
                0 <= k < ws.len() ==> {
                    &&& encode(#[trigger] instructions[k], symbols) == Ok::<Option<u16>, Fault>(
                        Some(ws[k]),
                    )
                    &&& hack_text(ws).subrange(17 * k, 17 * k + 16) == binary(ws[k])
                    &&& hack_text(ws)[17 * k + 16] == '\n'
                }
        }),
{
    let lines = split_lines(text);
    let reader = parsed(text, predefined(), FIRST_VARIABLE)->Ok_0;
    let found = labels(lines, lines.len())->Ok_0;
    let start = Reader {
        commands: Seq::empty(),
        symbols: predefined() + found,
        next: FIRST_VARIABLE,
    };
    lemma_instruction_per_place(start, lines, lines.len());
    lemma_word_per_instruction(reader.commands, bindings(reader.symbols), reader.commands.len());
    let ws = words(reader.commands, bindings(reader.symbols), reader.commands.len())->Ok_0;
    lemma_hack_text(ws);
}

/// Appends the sixteen bits of `word` to `out`.
pub fn push_binary(out: &mut String, word: u16)
    ensures
        final(out)@ == old(out)@ + binary(word),
{
    let mut i: u16 = 0;
    while i < 16
        invariant
            i <= 16,
            out@ == old(out)@ + binary(word).take(i as int),
        decreases 16 - i,
    {
        proof {
            reveal_strlit("0");
            reveal_strlit("1");
        }
        let bit = (word >> (15 - i)) & 1;
        if bit == 1 {
            out.append("1");
        } else {
            out.append("0");
        }
        assert(out@ =~= old(out)@ + binary(word).take(i + 1));
        i = i + 1;
    }
    assert(binary(word).take(16) =~= binary(word));
}

/// A program that was read, ready to be encoded.
pub struct Assembler<'a> {
    pub parser: Parser<'a>,
}

impl<'a> Assembler<'a> {
    /// Reads a program.
    pub fn new(file: &'a str) -> (r: Result<Self, AsmError>)
        ensures
            match parsed(file@, predefined(), FIRST_VARIABLE) {
                Ok(reader) => {
                    &&& r matches Ok(a)
                    &&& instructions(a.parser.commands@) == reader.commands
                    &&& a.parser.symbol_table.table.list() == reader.symbols
                    &&& a.parser.symbol_table.symbol_index == reader.next
                },
                Err(e) => r matches Err(f) && f == e,
            },
    {
        let mut parser = Parser::new();
        match parser.parse(file) {
            Ok(()) => Ok(Self { parser }),
            Err(e) => Err(e),
        }
    }

    /// The name of the file for the words of the program in the file
    /// `file_name`: what stands before the first `.` of `file_name`, and
    /// `.hack`. `None` says that `file_name` holds no `.`.
    pub fn output_name(file_name: &str) -> (r: Option<String>)
        ensures
            ({
                let dot = find_char(file_name@, '.', 0);
                if dot < file_name@.len() {
                    r matches Some(name) && name@ == file_name@.subrange(0, dot) + ".hack"@
                } else {
                    r is None
                }
            }),
    {
        let v = chars_of(file_name);
        let dot = index_of_char(&v, '.', 0);
        if dot < v.len() {
            let mut name = String::from_str(file_name.substring_char(0, dot));
            name.append(".hack");
            Some(name)
        } else {
            None
        }
    }

    /// The word of one command; `None` for a label.
    pub fn encode(&self, table: &InstructionTable, command: &Command) -> (r: Result<
        Option<u16>,
        Fault,
    >)
        requires
            table.wf(),
        ensures
            r == encode(command@, self.parser.symbol_table.table@),
    {
        match command {
            Command::L(_) => Ok(None),
            Command::A(value) => {
                if all_digits(value) {
                    let v = chars_of(value);
                    assert(v@.subrange(0, v@.len() as int) =~= value@);
                    match parse_decimal(&v, 0, v.len(), MAX_ADDRESS as u32) {
                        Some(n) => Ok(Some(n as u16)),
                        None => Err(Fault::BadNumber),
                    }
                } else {
                    match self.parser.symbol_table.table.get(value) {
                        None => Err(Fault::UndefinedSymbol),
                        Some(address) => if address > MAX_ADDRESS {
                            Err(Fault::BadNumber)
                        } else {
                            Ok(Some(address as u16))
                        },
                    }
                }
            },
            Command::C { dest, comp, jump } => {
                let d = match table.dest.get(
                    match dest {
                        Some(d) => d,
                        None => "null",
                    },
                ) {
                    Some(d) => d,
                    None => {
                        return Err(Fault::UnknownDest);
                    },
                };
                let c = match table.comp.get(
                    match comp {
                        Some(c) => c,
                        None => "null",
                    },
                ) {
                    Some(c) => c,
                    None => {
                        return Err(Fault::UnknownComp);
                    },
                };
                let j = match table.jump.get(
                    match jump {
                        Some(j) => j,
                        None => "null",
                    },
                ) {
                    Some(j) => j,
                    None => {
                        return Err(Fault::UnknownJump);
                    },
                };
                Ok(Some(COMPUTE | d | c | j))
            },
        }
    }

    /// The text of the program's words: for each instruction, in the order
    /// of the program, one line of sixteen binary digits.
    pub fn emit(&self) -> (r: Result<String, AsmError>)
        ensures
            match words(
                instructions(self.parser.commands@),
                self.parser.symbol_table.table@,
                self.parser.commands@.len(),
            ) {
                Ok(ws) => r matches Ok(text) && text@ == hack_text(ws),
                Err((command, fault)) => r matches Err(e) && e == error_at(command, fault),
            },
    {
        let instruction_table = InstructionTable::new();
        let ghost commands = instructions(self.parser.commands@);
        let ghost symbols = self.parser.symbol_table.table@;
        let mut out = String::new();
        let ghost mut done: Seq<u16> = Seq::empty();
        let mut i: usize = 0;
        while i < self.parser.commands.len()
            invariant
                i <= self.parser.commands.len(),
                instruction_table.wf(),
                commands == instructions(self.parser.commands@),
                symbols == self.parser.symbol_table.table@,
                words(commands, symbols, i as nat) == Ok::<Seq<u16>, (nat, Fault)>(done),
                out@ == hack_text(done),
            decreases self.parser.commands.len() - i,
        {
            match self.encode(&instruction_table, &self.parser.commands[i]) {
                Err(fault) => {
                    proof {
                        assert(words(commands, symbols, (i + 1) as nat) == Err::<
                            Seq<u16>,
                            (nat, Fault),
                        >((i as nat, fault)));
                        lemma_words_stop(commands, symbols, (i + 1) as nat, commands.len());
                    }
                    return Err(
                        match fault {
                            Fault::BadNumber => AsmError::BadNumber { command: i },
                            Fault::UndefinedSymbol => AsmError::UndefinedSymbol { command: i },
                            Fault::UnknownDest => AsmError::UnknownDest { command: i },
                            Fault::UnknownComp => AsmError::UnknownComp { command: i },
                            Fault::UnknownJump => AsmError::UnknownJump { command: i },
                        },
                    );
                },
                Ok(None) => {},
                Ok(Some(word)) => {
                    push_binary(&mut out, word);
                    out.append("\n");
                    proof {
                        reveal_strlit("\n");
                        assert(done.push(word).drop_last() =~= done);
                        done = done.push(word);
                        assert(out@ =~= hack_text(done));
                    }
                },
            }
            i = i + 1;
        }
        Ok(out)
    }
}

} // verus!
