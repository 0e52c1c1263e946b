//! The tables of the assembler: the symbols of a program with their
//! addresses, and the mnemonics of the machine with their bits.

use crate::hack::{Comp, Dest, Jump, Register};
use crate::text::str_eq;
use vstd::prelude::*;

verus! {

/// What a list of bindings binds each name to: where a name stands more
/// than once, its last binding counts.
pub open spec fn bindings<V>(entries: Seq<(Seq<char>, V)>) -> Map<Seq<char>, V>
    decreases entries.len(),
{
    if entries.len() == 0 {
        Map::empty()
    } else {
        bindings(entries.drop_last()).insert(entries.last().0, entries.last().1)
    }
}

/// A name that no binding holds is not bound.
pub proof fn lemma_bindings_absent<V>(entries: Seq<(Seq<char>, V)>, key: Seq<char>)
    requires
        forall|j: int| 0 <= j < entries.len() ==> entries[j].0 != key,
    ensures
        !bindings(entries).contains_key(key),
    decreases entries.len(),
{
    if entries.len() > 0 {
        lemma_bindings_absent(entries.drop_last(), key);
    }
}

/// A name is bound to what its last binding holds.
pub proof fn lemma_bindings_last<V>(entries: Seq<(Seq<char>, V)>, key: Seq<char>, at: int)
    requires
        0 <= at < entries.len(),
        entries[at].0 == key,
        forall|j: int| at < j < entries.len() ==> entries[j].0 != key,
    ensures
        bindings(entries).contains_key(key),
        bindings(entries)[key] == entries[at].1,
    decreases entries.len(),
{
    if at < entries.len() - 1 {
        lemma_bindings_last(entries.drop_last(), key, at);
    }
}

/// A table from names to values.
#[derive(Debug)]
pub struct Dictionary<'a, V> {
    pub entries: Vec<(&'a str, V)>,
}

impl<'a, V: Copy> Dictionary<'a, V> {
    /// The bindings in the order in which they were made.
    pub open spec fn list(&self) -> Seq<(Seq<char>, V)> {
        Seq::new(self.entries@.len(), |i: int| (self.entries@[i].0@, self.entries@[i].1))
    }

    /// The table as a map.
    pub open spec fn view(&self) -> Map<Seq<char>, V> {
        bindings(self.list())
    }

    /// A table without bindings.
    pub fn with_capacity(capacity: usize) -> (r: Self)
        ensures
            r.list() == Seq::<(Seq<char>, V)>::empty(),
            r@ == Map::<Seq<char>, V>::empty(),
    {
        let r = Self { entries: Vec::with_capacity(capacity) };
        assert(r.list() =~= Seq::<(Seq<char>, V)>::empty());
        r
    }

    /// Binds `key` to `value`, whatever it was bound to.
    pub fn insert(&mut self, key: &'a str, value: V)
        ensures
            final(self).list() == old(self).list().push((key@, value)),
            final(self)@ == old(self)@.insert(key@, value),
    {
        self.entries.push((key, value));
        assert(self.list() =~= old(self).list().push((key@, value)));
        assert(self.list().drop_last() =~= old(self).list());
    }

    /// What `key` is bound to.
    pub fn get(&self, key: &str) -> (r: Option<V>)
        ensures
            r == if self@.contains_key(key@) {
                Some(self@[key@])
            } else {
                None
            },
    {
        let mut i = self.entries.len();
        while i > 0
            invariant
                i <= self.entries.len(),
                forall|j: int| i <= j < self.entries.len() ==> self.list()[j].0 != key@,
            decreases i,
        {
            i = i - 1;
            if str_eq(self.entries[i].0, key) {
                proof {
                    lemma_bindings_last(self.list(), key@, i as int);
                }
                return Some(self.entries[i].1);
            }
        }
        proof {
            lemma_bindings_absent(self.list(), key@);
        }
        None
    }

    /// Tells whether `key` is bound.
    pub fn contains_key(&self, key: &str) -> (r: bool)
        ensures
            r == self@.contains_key(key@),
    {
        self.get(key).is_some()
    }
}

/// The symbols that every program knows, with their addresses.
pub open spec fn predefined() -> Seq<(Seq<char>, usize)> {
    seq![
        ("SP"@, 0usize),
        ("LCL"@, 1usize),
        ("ARG"@, 2usize),
        ("THIS"@, 3usize),
        ("THAT"@, 4usize),
        ("R0"@, 0usize),
        ("R1"@, 1usize),
        ("R2"@, 2usize),
        ("R3"@, 3usize),
        ("R4"@, 4usize),
        ("R5"@, 5usize),
        ("R6"@, 6usize),
        ("R7"@, 7usize),
        ("R8"@, 8usize),
        ("R9"@, 9usize),
        ("R10"@, 10usize),
        ("R11"@, 11usize),
        ("R12"@, 12usize),
        ("R13"@, 13usize),
        ("R14"@, 14usize),
        ("R15"@, 15usize),
        ("SCREEN"@, 16384usize),
        ("KBD"@, 24576usize),
    ]
}

/// Every program knows the cells that have a name in the translator's
/// programs, each by its address.
pub proof fn lemma_registers_predefined(r: Register)
    ensures
        bindings(predefined()).contains_key(r.name()),
        bindings(predefined())[r.name()] == r.address(),
{
    reveal_strlit("SP");
    reveal_strlit("LCL");
    reveal_strlit("ARG");
    reveal_strlit("THIS");
    reveal_strlit("THAT");
    reveal_strlit("R0");
    reveal_strlit("R1");
    reveal_strlit("R2");
    reveal_strlit("R3");
    reveal_strlit("R4");
    reveal_strlit("R5");
    reveal_strlit("R6");
    reveal_strlit("R7");
    reveal_strlit("R8");
    reveal_strlit("R9");
    reveal_strlit("R10");
    reveal_strlit("R11");
    reveal_strlit("R12");
    reveal_strlit("R13");
    reveal_strlit("R14");
    reveal_strlit("R15");
    reveal_strlit("SCREEN");
    reveal_strlit("KBD");
    let at: int = match r {
        Register::SP => 0,
        Register::LCL => 1,
        Register::ARG => 2,
        Register::THIS => 3,
        Register::THAT => 4,
        Register::R14 => 19,
        Register::R15 => 20,
    };
    assert(predefined()[at].0 == r.name());
    assert forall|j: int| at < j < predefined().len() implies predefined()[j].0 != r.name() by {
        let other = predefined()[j].0;
        let own = r.name();
        assert(other.len() != own.len() || other[0] != own[0] || other.last() != own.last()
            || other[1] != own[1]);
    }
    lemma_bindings_last(predefined(), r.name(), at);
}

/// The address of the first variable.
pub const FIRST_VARIABLE: usize = 16;

/// The symbols of a program, and the address of its next variable.
#[derive(Debug)]
pub struct SymbolTable<'a> {
    pub table: Dictionary<'a, usize>,
    pub symbol_index: usize,
}

impl<'a> SymbolTable<'a> {
    /// The table with the symbols that every program knows.
    pub fn new() -> (r: Self)
        ensures
            r.table.list() == predefined(),
            r.symbol_index == FIRST_VARIABLE,
    {
        let mut table = Dictionary::with_capacity(23);
        table.insert("SP", 0);
        table.insert("LCL", 1);
        table.insert("ARG", 2);
        table.insert("THIS", 3);
        table.insert("THAT", 4);
        table.insert("R0", 0);
        table.insert("R1", 1);
        table.insert("R2", 2);
        table.insert("R3", 3);
        table.insert("R4", 4);
        table.insert("R5", 5);
        table.insert("R6", 6);
        table.insert("R7", 7);
        table.insert("R8", 8);
        table.insert("R9", 9);
        table.insert("R10", 10);
        table.insert("R11", 11);
        table.insert("R12", 12);
        table.insert("R13", 13);
        table.insert("R14", 14);
        table.insert("R15", 15);
        table.insert("SCREEN", 16384);
        table.insert("KBD", 24576);
        assert(table.list() =~= predefined());
        SymbolTable { table, symbol_index: FIRST_VARIABLE }
    }
}

impl Dest {
    /// The bits at their place in the instruction word.
    pub fn code(self) -> (r: u16)
        ensures
            r == self.bits(),
    {
        match self {
            Dest::Null => 0b000_000,
            Dest::M => 0b001_000,
            Dest::D => 0b010_000,
            Dest::MD => 0b011_000,
            Dest::A => 0b100_000,
            Dest::AM => 0b101_000,
            Dest::AD => 0b110_000,
            Dest::AMD => 0b111_000,
        }
    }
}

impl Comp {
    /// The bits at their place in the instruction word.
    pub fn code(self) -> (r: u16)
        ensures
            r == self.bits(),
    {
        match self {
            Comp::Zero => 0b0_101010_000000,
            Comp::One => 0b0_111111_000000,
            Comp::MinusOne => 0b0_111010_000000,
            Comp::D => 0b0_001100_000000,
            Comp::A => 0b0_110000_000000,
            Comp::NotD => 0b0_001101_000000,
            Comp::NotA => 0b0_110001_000000,
            Comp::NegD => 0b0_001111_000000,
            Comp::NegA => 0b0_110011_000000,
            Comp::DPlusOne => 0b0_011111_000000,
            Comp::APlusOne => 0b0_110111_000000,
            Comp::DMinusOne => 0b0_001110_000000,
            Comp::AMinusOne => 0b0_110010_000000,
            Comp::DPlusA => 0b0_000010_000000,
            Comp::DMinusA => 0b0_010011_000000,
            Comp::AMinusD => 0b0_000111_000000,
            Comp::DAndA => 0b0_000000_000000,
            Comp::DOrA => 0b0_010101_000000,
            Comp::M => 0b1_110000_000000,
            Comp::NotM => 0b1_110001_000000,
            Comp::NegM => 0b1_110011_000000,
            Comp::MPlusOne => 0b1_110111_000000,
            Comp::MMinusOne => 0b1_110010_000000,
            Comp::DPlusM => 0b1_000010_000000,
            Comp::DMinusM => 0b1_010011_000000,
            Comp::MMinusD => 0b1_000111_000000,
            Comp::DAndM => 0b1_000000_000000,
            Comp::DOrM => 0b1_010101_000000,
        }
    }
}

impl Jump {
    /// The bits at their place in the instruction word.
    pub fn code(self) -> (r: u16)
        ensures
            r == self.bits(),
    {
        match self {
            Jump::Null => 0b000,
            Jump::JGT => 0b001,
            Jump::JEQ => 0b010,
            Jump::JGE => 0b011,
            Jump::JLT => 0b100,
            Jump::JNE => 0b101,
            Jump::JLE => 0b110,
            Jump::JMP => 0b111,
        }
    }
}

/// A destination with its bits.
pub open spec fn dest_entry(d: Dest) -> (Seq<char>, u16) {
    (d.mnemonic(), d.bits())
}

/// A computation with its bits.
pub open spec fn comp_entry(c: Comp) -> (Seq<char>, u16) {
    (c.mnemonic(), c.bits())
}

/// A jump with its bits.
pub open spec fn jump_entry(j: Jump) -> (Seq<char>, u16) {
    (j.mnemonic(), j.bits())
}

/// The destinations with their bits.
pub open spec fn dest_table() -> Seq<(Seq<char>, u16)> {
    seq![
        dest_entry(Dest::Null),
        dest_entry(Dest::M),
        dest_entry(Dest::D),
        dest_entry(Dest::MD),
        dest_entry(Dest::A),
        dest_entry(Dest::AM),
        dest_entry(Dest::AD),
        dest_entry(Dest::AMD),
    ]
}

/// The computations with their bits.
pub open spec fn comp_table() -> Seq<(Seq<char>, u16)> {
    seq![
        comp_entry(Comp::Zero),
        comp_entry(Comp::One),
        comp_entry(Comp::MinusOne),
        comp_entry(Comp::D),
        comp_entry(Comp::A),
        comp_entry(Comp::NotD),
        comp_entry(Comp::NotA),
        comp_entry(Comp::NegD),
        comp_entry(Comp::NegA),
        comp_entry(Comp::DPlusOne),
        comp_entry(Comp::APlusOne),
        comp_entry(Comp::DMinusOne),
        comp_entry(Comp::AMinusOne),
        comp_entry(Comp::DPlusA),
        comp_entry(Comp::DMinusA),
        comp_entry(Comp::AMinusD),
        comp_entry(Comp::DAndA),
        comp_entry(Comp::DOrA),
        comp_entry(Comp::M),
        comp_entry(Comp::NotM),
        comp_entry(Comp::NegM),
        comp_entry(Comp::MPlusOne),
        comp_entry(Comp::MMinusOne),
        comp_entry(Comp::DPlusM),
        comp_entry(Comp::DMinusM),
        comp_entry(Comp::MMinusD),
        comp_entry(Comp::DAndM),
        comp_entry(Comp::DOrM),
    ]
}

/// The jumps with their bits.
pub open spec fn jump_table() -> Seq<(Seq<char>, u16)> {
    seq![
        jump_entry(Jump::Null),
        jump_entry(Jump::JGT),
        jump_entry(Jump::JEQ),
        jump_entry(Jump::JGE),
        jump_entry(Jump::JLT),
        jump_entry(Jump::JNE),
        jump_entry(Jump::JLE),
        jump_entry(Jump::JMP),
    ]
}

/// The table of the destinations binds each mnemonic to its bits.
pub proof fn lemma_dest_table(x: Dest)
    ensures
        bindings(dest_table()).contains_key(x.mnemonic()),
        bindings(dest_table())[x.mnemonic()] == x.bits(),
{
    reveal_strlit("null");
    reveal_strlit("M");
    reveal_strlit("D");
    reveal_strlit("MD");
    reveal_strlit("A");
    reveal_strlit("AM");
    reveal_strlit("AD");
    reveal_strlit("AMD");
    let at: int = match x {
        Dest::Null => 0,
        Dest::M => 1,
        Dest::D => 2,
        Dest::MD => 3,
        Dest::A => 4,
        Dest::AM => 5,
        Dest::AD => 6,
        Dest::AMD => 7,
    };
    assert(dest_table()[at] == (x.mnemonic(), x.bits()));
    assert forall|j: int| at < j < dest_table().len() implies dest_table()[j].0 != x.mnemonic() by {
        let other = dest_table()[j].0;
        let own = x.mnemonic();
        assert(other.len() != own.len() || other[0] != own[0] || other.last() != own.last() || (
        own.len() > 1 && other[1] != own[1]));
    }
    lemma_bindings_last(dest_table(), x.mnemonic(), at);
}

/// The table of the jumps binds each mnemonic to its bits.
pub proof fn lemma_jump_table(x: Jump)
    ensures
        bindings(jump_table()).contains_key(x.mnemonic()),
        bindings(jump_table())[x.mnemonic()] == x.bits(),
{
    reveal_strlit("null");
    reveal_strlit("JGT");
    reveal_strlit("JEQ");
    reveal_strlit("JGE");
    reveal_strlit("JLT");
    reveal_strlit("JNE");
    reveal_strlit("JLE");
    reveal_strlit("JMP");
    let at: int = match x {
        Jump::Null => 0,
        Jump::JGT => 1,
        Jump::JEQ => 2,
        Jump::JGE => 3,
        Jump::JLT => 4,
        Jump::JNE => 5,
        Jump::JLE => 6,
        Jump::JMP => 7,
    };
    assert(jump_table()[at] == (x.mnemonic(), x.bits()));
    assert forall|j: int| at < j < jump_table().len() implies jump_table()[j].0 != x.mnemonic() by {
        let other = jump_table()[j].0;
        let own = x.mnemonic();
        assert(other.len() != own.len() || other[0] != own[0] || other.last() != own.last() || (
        own.len() > 1 && other[1] != own[1]));
    }
    lemma_bindings_last(jump_table(), x.mnemonic(), at);
}

/// The table of the computations binds each mnemonic to its bits.
pub proof fn lemma_comp_table(x: Comp)
    ensures
        bindings(comp_table()).contains_key(x.mnemonic()),
        bindings(comp_table())[x.mnemonic()] == x.bits(),
{
    reveal_strlit("0");
    reveal_strlit("1");
    reveal_strlit("-1");
    reveal_strlit("D");
    reveal_strlit("A");
    reveal_strlit("!D");
    reveal_strlit("!A");
    reveal_strlit("-D");
    reveal_strlit("-A");
    reveal_strlit("D+1");
    reveal_strlit("A+1");
    reveal_strlit("D-1");
    reveal_strlit("A-1");
    reveal_strlit("D+A");
    reveal_strlit("D-A");
    reveal_strlit("A-D");
    reveal_strlit("D&A");
    reveal_strlit("D|A");
    reveal_strlit("M");
    reveal_strlit("!M");
    reveal_strlit("-M");
    reveal_strlit("M+1");
    reveal_strlit("M-1");
    reveal_strlit("D+M");
    reveal_strlit("D-M");
    reveal_strlit("M-D");
    reveal_strlit("D&M");
    reveal_strlit("D|M");
    let at: int = match x {
        Comp::Zero => 0,
        Comp::One => 1,
        Comp::MinusOne => 2,
        Comp::D => 3,
        Comp::A => 4,
        Comp::NotD => 5,
        Comp::NotA => 6,
        Comp::NegD => 7,
        Comp::NegA => 8,
        Comp::DPlusOne => 9,
        Comp::APlusOne => 10,
        Comp::DMinusOne => 11,
        Comp::AMinusOne => 12,
        Comp::DPlusA => 13,
        Comp::DMinusA => 14,
        Comp::AMinusD => 15,
        Comp::DAndA => 16,
        Comp::DOrA => 17,
        Comp::M => 18,
        Comp::NotM => 19,
        Comp::NegM => 20,
        Comp::MPlusOne => 21,
        Comp::MMinusOne => 22,
        Comp::DPlusM => 23,
        Comp::DMinusM => 24,
        Comp::MMinusD => 25,
        Comp::DAndM => 26,
        Comp::DOrM => 27,
    };
    assert(comp_table()[at] == (x.mnemonic(), x.bits()));
    assert forall|j: int| at < j < comp_table().len() implies comp_table()[j].0 != x.mnemonic() by {
        let other = comp_table()[j].0;
        let own = x.mnemonic();
        assert(other.len() != own.len() || other[0] != own[0] || other.last() != own.last() || (
        own.len() > 1 && other[1] != own[1]));
    }
    lemma_bindings_last(comp_table(), x.mnemonic(), at);
}

/// The mnemonics of the three fields of a compute instruction, each with
/// its bits at their place in the instruction word.
pub struct InstructionTable<'a> {
    pub comp: Dictionary<'a, u16>,
    pub dest: Dictionary<'a, u16>,
    pub jump: Dictionary<'a, u16>,
}

impl<'a> InstructionTable<'a> {
    /// Tells whether the tables are those of the machine.
    pub open spec fn wf(&self) -> bool {
        &&& self.comp.list() == comp_table()
        &&& self.dest.list() == dest_table()
        &&& self.jump.list() == jump_table()
    }

    fn add_dest(table: &mut Dictionary<'a, u16>, d: Dest)
        ensures
            final(table).list() == old(table).list().push(dest_entry(d)),
    {
        table.insert(d.as_str(), d.code());
    }

    fn add_comp(table: &mut Dictionary<'a, u16>, c: Comp)
        ensures
            final(table).list() == old(table).list().push(comp_entry(c)),
    {
        table.insert(c.as_str(), c.code());
    }

    fn add_jump(table: &mut Dictionary<'a, u16>, j: Jump)
        ensures
            final(table).list() == old(table).list().push(jump_entry(j)),
    {
        table.insert(j.as_str(), j.code());
    }

    /// The tables of the machine.
    pub fn new() -> (r: Self)
        ensures
            r.wf(),
    {
        let mut dest = Dictionary::with_capacity(8);
        Self::add_dest(&mut dest, Dest::Null);
        Self::add_dest(&mut dest, Dest::M);
        Self::add_dest(&mut dest, Dest::D);
        Self::add_dest(&mut dest, Dest::MD);
        Self::add_dest(&mut dest, Dest::A);
        Self::add_dest(&mut dest, Dest::AM);
        Self::add_dest(&mut dest, Dest::AD);
        Self::add_dest(&mut dest, Dest::AMD);
        assert(dest.list() =~= dest_table());

        let mut comp = Dictionary::with_capacity(28);
        Self::add_comp(&mut comp, Comp::Zero);
        Self::add_comp(&mut comp, Comp::One);
        Self::add_comp(&mut comp, Comp::MinusOne);
        Self::add_comp(&mut comp, Comp::D);
        Self::add_comp(&mut comp, Comp::A);
        Self::add_comp(&mut comp, Comp::NotD);
        Self::add_comp(&mut comp, Comp::NotA);
        Self::add_comp(&mut comp, Comp::NegD);
        Self::add_comp(&mut comp, Comp::NegA);
        Self::add_comp(&mut comp, Comp::DPlusOne);
        Self::add_comp(&mut comp, Comp::APlusOne);
        Self::add_comp(&mut comp, Comp::DMinusOne);
        Self::add_comp(&mut comp, Comp::AMinusOne);
        Self::add_comp(&mut comp, Comp::DPlusA);
        Self::add_comp(&mut comp, Comp::DMinusA);
        Self::add_comp(&mut comp, Comp::AMinusD);
        Self::add_comp(&mut comp, Comp::DAndA);
        Self::add_comp(&mut comp, Comp::DOrA);
        Self::add_comp(&mut comp, Comp::M);
        Self::add_comp(&mut comp, Comp::NotM);
        Self::add_comp(&mut comp, Comp::NegM);
        Self::add_comp(&mut comp, Comp::MPlusOne);
        Self::add_comp(&mut comp, Comp::MMinusOne);
        Self::add_comp(&mut comp, Comp::DPlusM);
        Self::add_comp(&mut comp, Comp::DMinusM);
        Self::add_comp(&mut comp, Comp::MMinusD);
        Self::add_comp(&mut comp, Comp::DAndM);
        Self::add_comp(&mut comp, Comp::DOrM);
        assert(comp.list() =~= comp_table());

        let mut jump = Dictionary::with_capacity(8);
        Self::add_jump(&mut jump, Jump::Null);
        Self::add_jump(&mut jump, Jump::JGT);
        Self::add_jump(&mut jump, Jump::JEQ);
        Self::add_jump(&mut jump, Jump::JGE);
        Self::add_jump(&mut jump, Jump::JLT);
        Self::add_jump(&mut jump, Jump::JNE);
        Self::add_jump(&mut jump, Jump::JLE);
        Self::add_jump(&mut jump, Jump::JMP);
        assert(jump.list() =~= jump_table());

        Self { comp, dest, jump }
    }
}

} // verus!
