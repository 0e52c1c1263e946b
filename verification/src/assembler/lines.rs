//! What the assembler makes of the lines of `hack`: it reads the text of a
//! line as the instruction or label that the line is.

use crate::assembler::assembler::{
    dest_field, encode, jump_field, lemma_encode_compute, Fault, COMPUTE,
};
use crate::assembler::command::{Instruction, Reading};
use crate::assembler::parser::MAX_ADDRESS;
use crate::assembler::symbol_table::{bindings, lemma_registers_predefined, predefined};
use crate::hack::{Comp, Dest, Jump, Line, Register};
use crate::text::{
    decimal, is_whitespace, lemma_decimal, lemma_find_char_at, skip_whitespace,
    skip_whitespace_back, trimmed,
};
use vstd::prelude::*;

verus! {

/// Tells whether a field holds no whitespace, no `=` and no `;`, holds at
/// least one character, and starts with none of `@`, `(` and `/`.
pub open spec fn plain(w: Seq<char>) -> bool {
    &&& w.len() > 0
    &&& w[0] != '@'
    &&& w[0] != '('
    &&& w[0] != '/'
    &&& forall|i: int|
        0 <= i < w.len() ==> !is_whitespace(#[trigger] w[i]) && w[i] != '=' && w[i] != ';'
}

/// The mnemonics are plain.
pub proof fn lemma_mnemonics_plain(d: Dest, c: Comp, j: Jump)
    ensures
        plain(d.mnemonic()),
        plain(c.mnemonic()),
        plain(j.mnemonic()),
{
    reveal_strlit("null");
    reveal_strlit("M");
    reveal_strlit("D");
    reveal_strlit("MD");
    reveal_strlit("A");
    reveal_strlit("AM");
    reveal_strlit("AD");
    reveal_strlit("AMD");
    reveal_strlit("JGT");
    reveal_strlit("JEQ");
    reveal_strlit("JGE");
    reveal_strlit("JLT");
    reveal_strlit("JNE");
    reveal_strlit("JLE");
    reveal_strlit("JMP");
    reveal_strlit("0");
    reveal_strlit("1");
    reveal_strlit("-1");
    reveal_strlit("!D");
    reveal_strlit("!A");
    reveal_strlit("-D");
    reveal_strlit("-A");
    reveal_strlit("D+1");
    reveal_strlit("A+1");
    reveal_strlit("D-1");
    reveal_strlit("A-1");
    reveal_strlit("D+A");
    reveal_strlit("D-A");
    reveal_strlit("A-D");
    reveal_strlit("D&A");
    reveal_strlit("D|A");
    reveal_strlit("!M");
    reveal_strlit("-M");
    reveal_strlit("M+1");
    reveal_strlit("M-1");
    reveal_strlit("D+M");
    reveal_strlit("D-M");
    reveal_strlit("M-D");
    reveal_strlit("D&M");
    reveal_strlit("D|M");
}

/// A text that neither starts nor ends with whitespace is trimmed.
proof fn lemma_trimmed(t: Seq<char>)
    requires
        t.len() > 0,
        !is_whitespace(t[0]),
        !is_whitespace(t.last()),
    ensures
        trimmed(t) == t,
{
    assert(skip_whitespace(t, 0) == 0);
    assert(skip_whitespace_back(t, t.len() as int) == t.len());
    assert(t.subrange(0, t.len() as int) =~= t);
}

/// A line of plain fields with `=` and `;` between them is read as the
/// compute instruction of the three fields.
pub proof fn lemma_read_three(dest: Seq<char>, comp: Seq<char>, jump: Seq<char>)
    requires
        plain(dest),
        plain(comp),
        plain(jump),
    ensures
        Instruction::read(dest + seq!['='] + comp + seq![';'] + jump) == Reading::Instruction(
            Instruction::C { dest: Some(dest), comp: Some(comp), jump: Some(jump) },
        ),
{
    reveal_strlit("//");
    let t = dest + seq!['='] + comp + seq![';'] + jump;
    let i = dest.len() as int;
    let k = i + 1 + comp.len();
    lemma_trimmed(t);
    lemma_find_char_at(t, '=', 0, i);
    lemma_find_char_at(t, ';', 0, k);
    lemma_find_char_at(t, ';', i + 1, k);
    assert(t.subrange(0, i) =~= dest);
    assert(t.subrange(i + 1, k) =~= comp);
    assert(t.subrange(k + 1, t.len() as int) =~= jump);
}

/// A line of two plain fields with `=` between them is read as the compute
/// instruction with the first as its destination, and without a jump.
pub proof fn lemma_read_dest(dest: Seq<char>, comp: Seq<char>)
    requires
        plain(dest),
        plain(comp),
    ensures
        Instruction::read(dest + seq!['='] + comp) == Reading::Instruction(
            Instruction::C { dest: Some(dest), comp: Some(comp), jump: None },
        ),
{
    reveal_strlit("//");
    let t = dest + seq!['='] + comp;
    let i = dest.len() as int;
    lemma_trimmed(t);
    lemma_find_char_at(t, '=', 0, i);
    lemma_find_char_at(t, ';', 0, t.len() as int);
    assert(t.subrange(0, i) =~= dest);
    assert(t.subrange(i + 1, t.len() as int) =~= comp);
}

/// A line of two plain fields with `;` between them is read as the compute
/// instruction with the second as its jump, and without a destination.
pub proof fn lemma_read_jump(comp: Seq<char>, jump: Seq<char>)
    requires
        plain(comp),
        plain(jump),
    ensures
        Instruction::read(comp + seq![';'] + jump) == Reading::Instruction(
            Instruction::C { dest: None, comp: Some(comp), jump: Some(jump) },
        ),
{
    reveal_strlit("//");
    let t = comp + seq![';'] + jump;
    let k = comp.len() as int;
    lemma_trimmed(t);
    lemma_find_char_at(t, '=', 0, t.len() as int);
    lemma_find_char_at(t, ';', 0, k);
    assert(t.subrange(0, k) =~= comp);
    assert(t.subrange(k + 1, t.len() as int) =~= jump);
}

/// A line that is a name between `(` and `)` is read as the label of the
/// name.
pub proof fn lemma_read_label(name: Seq<char>)
    ensures
        Instruction::read(seq!['('] + name + seq![')']) == Reading::Instruction(
            Instruction::L(name),
        ),
{
    reveal_strlit("//");
    let t = seq!['('] + name + seq![')'];
    lemma_trimmed(t);
    assert(t.subrange(1, t.len() - 1) =~= name);
}

/// A line that is `@` and a name that does not end with whitespace is read
/// as the instruction that loads the name.
pub proof fn lemma_read_load(name: Seq<char>)
    requires
        name.len() > 0 ==> !is_whitespace(name.last()),
    ensures
        Instruction::read(seq!['@'] + name) == Reading::Instruction(Instruction::A(name)),
{
    reveal_strlit("//");
    let t = seq!['@'] + name;
    lemma_trimmed(t);
    assert(t.subrange(1, t.len() as int) =~= name);
}

/// The text of a line without the line feed at its end.
pub open spec fn line_text(line: Line) -> Seq<char> {
    line.text().drop_last()
}

/// The assembler reads a compute line that stores or jumps as the compute
/// instruction of its fields, and gives it three ones and the bits of its
/// fields as its word.
pub proof fn lemma_assembles_compute(d: Dest, c: Comp, j: Jump, symbols: Map<Seq<char>, usize>)
    requires
        d != Dest::Null || j != Jump::Null,
    ensures
        ({
            let i = Instruction::C {
                dest: dest_field(d),
                comp: Some(c.mnemonic()),
                jump: jump_field(j),
            };
            &&& Instruction::read(line_text(Line::Compute(d, c, j))) == Reading::Instruction(i)
            &&& encode(i, symbols) == Ok::<Option<u16>, Fault>(
                Some(COMPUTE | d.bits() | c.bits() | j.bits()),
            )
        }),
{
    reveal_strlit("=");
    reveal_strlit(";");
    reveal_strlit("\n");
    lemma_mnemonics_plain(d, c, j);
    lemma_encode_compute(d, c, j, symbols);
    let text = line_text(Line::Compute(d, c, j));
    if d != Dest::Null && j != Jump::Null {
        assert(text =~= d.mnemonic() + seq!['='] + c.mnemonic() + seq![';'] + j.mnemonic());
        lemma_read_three(d.mnemonic(), c.mnemonic(), j.mnemonic());
    } else if d != Dest::Null {
        assert(text =~= d.mnemonic() + seq!['='] + c.mnemonic());
        lemma_read_dest(d.mnemonic(), c.mnemonic());
    } else {
        assert(text =~= c.mnemonic() + seq![';'] + j.mnemonic());
        lemma_read_jump(c.mnemonic(), j.mnemonic());
    }
}

/// The assembler reads a line that loads a number of at most fifteen bits
/// as the instruction of its numeral, and gives it the number as its word.
pub proof fn lemma_assembles_number(n: u16, symbols: Map<Seq<char>, usize>)
    requires
        n <= MAX_ADDRESS,
    ensures
        ({
            let i = Instruction::A(decimal(n as nat));
            &&& Instruction::read(line_text(Line::Number(n))) == Reading::Instruction(i)
            &&& encode(i, symbols) == Ok::<Option<u16>, Fault>(Some(n))
        }),
{
    reveal_strlit("@");
    reveal_strlit("\n");
    lemma_decimal(n as nat);
    let name = decimal(n as nat);
    assert(crate::text::is_digit(name.last()));
    assert(line_text(Line::Number(n)) =~= seq!['@'] + name);
    lemma_read_load(name);
}

/// The assembler reads a line that loads a named cell as the instruction
/// of its name, and gives it the address of the cell as its word, in a
/// program without a label or a variable of that name.
pub proof fn lemma_assembles_register(r: Register)
    ensures
        ({
            let i = Instruction::A(r.name());
            &&& Instruction::read(line_text(Line::Register(r))) == Reading::Instruction(i)
            &&& encode(i, bindings(predefined())) == Ok::<Option<u16>, Fault>(
                Some(r.address() as u16),
            )
        }),
{
    reveal_strlit("@");
    reveal_strlit("\n");
    reveal_strlit("SP");
    reveal_strlit("LCL");
    reveal_strlit("ARG");
    reveal_strlit("THIS");
    reveal_strlit("THAT");
    reveal_strlit("R14");
    reveal_strlit("R15");
    lemma_registers_predefined(r);
    let name = r.name();
    assert(line_text(Line::Register(r)) =~= seq!['@'] + name);
    assert(!crate::text::is_digit(name[0]));
    lemma_read_load(name);
}

/// The assembler reads a line that declares a label as the label.
pub proof fn lemma_assembles_label(name: Seq<char>, symbols: Map<Seq<char>, usize>)
    ensures
        Instruction::read(line_text(Line::Label(name))) == Reading::Instruction(
            Instruction::L(name),
        ),
        encode(Instruction::L(name), symbols) == Ok::<Option<u16>, Fault>(None),
{
    reveal_strlit("(");
    reveal_strlit(")\n");
    assert(line_text(Line::Label(name)) =~= seq!['('] + name + seq![')']);
    lemma_read_label(name);
}

} // verus!
