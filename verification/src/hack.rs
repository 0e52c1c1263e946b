//! The instruction set of the Hack machine: the fields of a compute
//! instruction with their mnemonics and bits, the registers that have a
//! name, and the lines of an assembly program with their text.

use crate::text::{decimal, push_decimal};
use vstd::prelude::*;

verus! {

/// Where a compute instruction stores its result.
#[derive(Clone, Copy, Debug, PartialEq, Eq, Structural)]
pub enum Dest {
    Null,
    M,
    D,
    MD,
    A,
    AM,
    AD,
    AMD,
}

/// What a compute instruction computes.
#[derive(Clone, Copy, Debug, PartialEq, Eq, Structural)]
pub enum Comp {
    Zero,
    One,
    MinusOne,
    D,
    A,
    NotD,
    NotA,
    NegD,
    NegA,
    DPlusOne,
    APlusOne,
    DMinusOne,
    AMinusOne,
    DPlusA,
    DMinusA,
    AMinusD,
    DAndA,
    DOrA,
    M,
    NotM,
    NegM,
    MPlusOne,
    MMinusOne,
    DPlusM,
    DMinusM,
    MMinusD,
    DAndM,
    DOrM,
}

/// When a compute instruction jumps.
#[derive(Clone, Copy, Debug, PartialEq, Eq, Structural)]
pub enum Jump {
    Null,
    JGT,
    JEQ,
    JGE,
    JLT,
    JNE,
    JLE,
    JMP,
}

/// The memory cells that the programs of the translator address by name:
/// the pointers of the stack machine and two scratch cells.
#[derive(Clone, Copy, Debug, PartialEq, Eq, Structural)]
pub enum Register {
    SP,
    LCL,
    ARG,
    THIS,
    THAT,
    R14,
    R15,
}

impl Dest {
    /// The mnemonic as it stands in a program.
    pub open spec fn mnemonic(self) -> Seq<char> {
        match self {
            Dest::Null => "null"@,
            Dest::M => "M"@,
            Dest::D => "D"@,
            Dest::MD => "MD"@,
            Dest::A => "A"@,
            Dest::AM => "AM"@,
            Dest::AD => "AD"@,
            Dest::AMD => "AMD"@,
        }
    }

    /// The bits 5 to 3 of the instruction word.
    pub open spec fn bits(self) -> u16 {
        match self {
            Dest::Null => 0b000_000u16,
            Dest::M => 0b001_000u16,
            Dest::D => 0b010_000u16,
            Dest::MD => 0b011_000u16,
            Dest::A => 0b100_000u16,
            Dest::AM => 0b101_000u16,
            Dest::AD => 0b110_000u16,
            Dest::AMD => 0b111_000u16,
        }
    }

    /// The text as it stands in a program.
    pub fn as_str(self) -> (r: &'static str)
        ensures
            r@ == self.mnemonic(),
    {
        match self {
            Dest::Null => "null",
            Dest::M => "M",
            Dest::D => "D",
            Dest::MD => "MD",
            Dest::A => "A",
            Dest::AM => "AM",
            Dest::AD => "AD",
            Dest::AMD => "AMD",
        }
    }
}

impl Comp {
    /// The mnemonic as it stands in a program.
    pub open spec fn mnemonic(self) -> Seq<char> {
        match self {
            Comp::Zero => "0"@,
            Comp::One => "1"@,
            Comp::MinusOne => "-1"@,
            Comp::D => "D"@,
            Comp::A => "A"@,
            Comp::NotD => "!D"@,
            Comp::NotA => "!A"@,
            Comp::NegD => "-D"@,
            Comp::NegA => "-A"@,
            Comp::DPlusOne => "D+1"@,
            Comp::APlusOne => "A+1"@,
            Comp::DMinusOne => "D-1"@,
            Comp::AMinusOne => "A-1"@,
            Comp::DPlusA => "D+A"@,
            Comp::DMinusA => "D-A"@,
            Comp::AMinusD => "A-D"@,
            Comp::DAndA => "D&A"@,
            Comp::DOrA => "D|A"@,
            Comp::M => "M"@,
            Comp::NotM => "!M"@,
            Comp::NegM => "-M"@,
            Comp::MPlusOne => "M+1"@,
            Comp::MMinusOne => "M-1"@,
            Comp::DPlusM => "D+M"@,
            Comp::DMinusM => "D-M"@,
            Comp::MMinusD => "M-D"@,
            Comp::DAndM => "D&M"@,
            Comp::DOrM => "D|M"@,
        }
    }

    /// The bits 12 to 6 of the instruction word; bit 12 chooses between `A`
    /// and `M`.
    pub open spec fn bits(self) -> u16 {
        match self {
            Comp::Zero => 0b0_101010_000000u16,
            Comp::One => 0b0_111111_000000u16,
            Comp::MinusOne => 0b0_111010_000000u16,
            Comp::D => 0b0_001100_000000u16,
            Comp::A => 0b0_110000_000000u16,
            Comp::NotD => 0b0_001101_000000u16,
            Comp::NotA => 0b0_110001_000000u16,
            Comp::NegD => 0b0_001111_000000u16,
            Comp::NegA => 0b0_110011_000000u16,
            Comp::DPlusOne => 0b0_011111_000000u16,
            Comp::APlusOne => 0b0_110111_000000u16,
            Comp::DMinusOne => 0b0_001110_000000u16,
            Comp::AMinusOne => 0b0_110010_000000u16,
            Comp::DPlusA => 0b0_000010_000000u16,
            Comp::DMinusA => 0b0_010011_000000u16,
            Comp::AMinusD => 0b0_000111_000000u16,
            Comp::DAndA => 0b0_000000_000000u16,
            Comp::DOrA => 0b0_010101_000000u16,
            Comp::M => 0b1_110000_000000u16,
            Comp::NotM => 0b1_110001_000000u16,
            Comp::NegM => 0b1_110011_000000u16,
            Comp::MPlusOne => 0b1_110111_000000u16,
            Comp::MMinusOne => 0b1_110010_000000u16,
            Comp::DPlusM => 0b1_000010_000000u16,
            Comp::DMinusM => 0b1_010011_000000u16,
            Comp::MMinusD => 0b1_000111_000000u16,
            Comp::DAndM => 0b1_000000_000000u16,
            Comp::DOrM => 0b1_010101_000000u16,
        }
    }

    /// The text as it stands in a program.
    pub fn as_str(self) -> (r: &'static str)
        ensures
            r@ == self.mnemonic(),
    {
        match self {
            Comp::Zero => "0",
            Comp::One => "1",
            Comp::MinusOne => "-1",
            Comp::D => "D",
            Comp::A => "A",
            Comp::NotD => "!D",
            Comp::NotA => "!A",
            Comp::NegD => "-D",
            Comp::NegA => "-A",
            Comp::DPlusOne => "D+1",
            Comp::APlusOne => "A+1",
            Comp::DMinusOne => "D-1",
            Comp::AMinusOne => "A-1",
            Comp::DPlusA => "D+A",
            Comp::DMinusA => "D-A",
            Comp::AMinusD => "A-D",
            Comp::DAndA => "D&A",
            Comp::DOrA => "D|A",
            Comp::M => "M",
            Comp::NotM => "!M",
            Comp::NegM => "-M",
            Comp::MPlusOne => "M+1",
            Comp::MMinusOne => "M-1",
            Comp::DPlusM => "D+M",
            Comp::DMinusM => "D-M",
            Comp::MMinusD => "M-D",
            Comp::DAndM => "D&M",
            Comp::DOrM => "D|M",
        }
    }
}

impl Jump {
    /// The mnemonic as it stands in a program.
    pub open spec fn mnemonic(self) -> Seq<char> {
        match self {
            Jump::Null => "null"@,
            Jump::JGT => "JGT"@,
            Jump::JEQ => "JEQ"@,
            Jump::JGE => "JGE"@,
            Jump::JLT => "JLT"@,
            Jump::JNE => "JNE"@,
            Jump::JLE => "JLE"@,
            Jump::JMP => "JMP"@,
        }
    }

    /// The bits 2 to 0 of the instruction word.
    pub open spec fn bits(self) -> u16 {
        match self {
            Jump::Null => 0b000u16,
            Jump::JGT => 0b001u16,
            Jump::JEQ => 0b010u16,
            Jump::JGE => 0b011u16,
            Jump::JLT => 0b100u16,
            Jump::JNE => 0b101u16,
            Jump::JLE => 0b110u16,
            Jump::JMP => 0b111u16,
        }
    }

    /// The text as it stands in a program.
    pub fn as_str(self) -> (r: &'static str)
        ensures
            r@ == self.mnemonic(),
    {
        match self {
            Jump::Null => "null",
            Jump::JGT => "JGT",
            Jump::JEQ => "JEQ",
            Jump::JGE => "JGE",
            Jump::JLT => "JLT",
            Jump::JNE => "JNE",
            Jump::JLE => "JLE",
            Jump::JMP => "JMP",
        }
    }
}

impl Register {
    /// The name as it stands in a program.
    pub open spec fn name(self) -> Seq<char> {
        match self {
            Register::SP => "SP"@,
            Register::LCL => "LCL"@,
            Register::ARG => "ARG"@,
            Register::THIS => "THIS"@,
            Register::THAT => "THAT"@,
            Register::R14 => "R14"@,
            Register::R15 => "R15"@,
        }
    }

    /// The address of the cell.
    pub open spec fn address(self) -> int {
        match self {
            Register::SP => 0,
            Register::LCL => 1,
            Register::ARG => 2,
            Register::THIS => 3,
            Register::THAT => 4,
            Register::R14 => 14,
            Register::R15 => 15,
        }
    }

    /// The text as it stands in a program.
    pub fn as_str(self) -> (r: &'static str)
        ensures
            r@ == self.name(),
    {
        match self {
            Register::SP => "SP",
            Register::LCL => "LCL",
            Register::ARG => "ARG",
            Register::THIS => "THIS",
            Register::THAT => "THAT",
            Register::R14 => "R14",
            Register::R15 => "R15",
        }
    }
}

/// One line of an assembly program.
#[derive(Debug)]
pub enum Instr {
    /// `@SP` and the like: loads the address of a named cell into `A`.
    Register(Register),
    /// `@17`: loads a number into `A`.
    Number(u16),
    /// `@name`: loads what the assembler binds to `name` into `A`.
    Symbol(String),
    /// `dest=comp;jump`, where a `Null` destination or jump is left out.
    Compute(Dest, Comp, Jump),
    /// `(name)`: binds `name` to the address of the next instruction.
    Label(String),
}

/// What a line of an assembly program says.
pub enum Line {
    Register(Register),
    Number(u16),
    Symbol(Seq<char>),
    Compute(Dest, Comp, Jump),
    Label(Seq<char>),
}

impl View for Instr {
    type V = Line;

    open spec fn view(&self) -> Line {
        match self {
            Instr::Register(r) => Line::Register(*r),
            Instr::Number(n) => Line::Number(*n),
            Instr::Symbol(s) => Line::Symbol(s@),
            Instr::Compute(d, c, j) => Line::Compute(*d, *c, *j),
            Instr::Label(s) => Line::Label(s@),
        }
    }
}

/// What the lines of a program say, one by one.
pub open spec fn program(code: Seq<Instr>) -> Seq<Line> {
    Seq::new(code.len(), |i: int| code[i]@)
}

impl Line {
    /// The text of the line, with the line feed that ends it.
    pub open spec fn text(self) -> Seq<char> {
        match self {
            Line::Register(r) => "@"@ + r.name() + "\n"@,
            Line::Number(n) => "@"@ + decimal(n as nat) + "\n"@,
            Line::Symbol(s) => "@"@ + s + "\n"@,
            Line::Compute(d, c, j) => {
                let dest = if d == Dest::Null {
                    Seq::<char>::empty()
                } else {
                    d.mnemonic() + "="@
                };
                let jump = if j == Jump::Null {
                    Seq::<char>::empty()
                } else {
                    ";"@ + j.mnemonic()
                };
                dest + c.mnemonic() + jump + "\n"@
            },
            Line::Label(s) => "("@ + s + ")\n"@,
        }
    }
}

/// The text of a program: the texts of its lines, one after the other.
pub open spec fn render(code: Seq<Line>) -> Seq<char>
    decreases code.len(),
{
    if code.len() == 0 {
        Seq::empty()
    } else {
        render(code.drop_last()) + code.last().text()
    }
}

/// The text of two programs in a row is the text of the first followed by
/// the text of the second.
pub proof fn lemma_render_concat(a: Seq<Line>, b: Seq<Line>)
    ensures
        render(a + b) == render(a) + render(b),
    decreases b.len(),
{
    if b.len() == 0 {
        assert(a + b =~= a);
        assert(render(a) + render(b) =~= render(a));
    } else {
        lemma_render_concat(a, b.drop_last());
        assert((a + b).drop_last() =~= a + b.drop_last());
        assert(render(a + b) =~= render(a) + render(b));
    }
}

impl Instr {
    /// Appends the text of the line to `out`.
    pub fn write(&self, out: &mut String)
        ensures
            final(out)@ == old(out)@ + self@.text(),
    {
        match self {
            Instr::Register(r) => {
                out.append("@");
                out.append(r.as_str());
                out.append("\n");
                assert(final(out)@ =~= old(out)@ + self@.text());
            },
            Instr::Number(n) => {
                out.append("@");
                push_decimal(out, *n);
                out.append("\n");
                assert(final(out)@ =~= old(out)@ + self@.text());
            },
            Instr::Symbol(s) => {
                out.append("@");
                out.append(s.as_str());
                out.append("\n");
                assert(final(out)@ =~= old(out)@ + self@.text());
            },
            Instr::Compute(d, c, j) => {
                if *d != Dest::Null {
                    out.append(d.as_str());
                    out.append("=");
                }
                out.append(c.as_str());
                if *j != Jump::Null {
                    out.append(";");
                    out.append(j.as_str());
                }
                out.append("\n");
                assert(final(out)@ =~= old(out)@ + self@.text());
            },
            Instr::Label(s) => {
                out.append("(");
                out.append(s.as_str());
                out.append(")\n");
                assert(final(out)@ =~= old(out)@ + self@.text());
            },
        }
    }
}

/// Appends the text of a program to `out`.
pub fn write_program(out: &mut String, code: &Vec<Instr>)
    ensures
        final(out)@ == old(out)@ + render(program(code@)),
{
    let mut i: usize = 0;
    assert(program(code@).take(0) =~= Seq::<Line>::empty());
    while i < code.len()
        invariant
            i <= code.len(),
            out@ == old(out)@ + render(program(code@).take(i as int)),
        decreases code.len() - i,
    {
        code[i].write(out);
        proof {
            let p = program(code@);
            assert(p.take(i + 1).drop_last() =~= p.take(i as int));
            assert(p.take(i + 1).last() == code[i as int]@);
            assert(out@ =~= old(out)@ + render(p.take(i + 1)));
        }
        i = i + 1;
    }
    assert(program(code@).take(code.len() as int) =~= program(code@));
}

} // verus!
