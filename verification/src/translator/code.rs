//! The assembly that each command of the stack machine becomes.
//!
//! The stack grows upwards: `SP` holds the address of the first free cell.
//! A call saves the caller's frame on the stack (the return address, then
//! `LCL`, `ARG`, `THIS` and `THAT`) and a return restores it from there.
//! `R14` and `R15` are scratch cells.

use crate::hack::{program, render, write_program, Comp, Dest, Instr, Jump, Line, Register};
use crate::text::{decimal, lemma_decimal_differs, push_decimal};
use crate::translator::parser::{
    ArtithmeticOperation, Command, Operation, Segment, _Command,
};
use vstd::prelude::*;

verus! {

/// `@r`
pub open spec fn load(r: Register) -> Line {
    Line::Register(r)
}

/// `@n`
pub open spec fn number(n: u16) -> Line {
    Line::Number(n)
}

/// `dest=comp`
pub open spec fn assign(dest: Dest, comp: Comp) -> Line {
    Line::Compute(dest, comp, Jump::Null)
}

/// `comp;jump`
pub open spec fn branch(comp: Comp, jump: Jump) -> Line {
    Line::Compute(Dest::Null, comp, jump)
}

/// The name of the `k`-th label of a comparison.
pub open spec fn label_name(k: u16) -> Seq<char> {
    "L"@ + decimal(k as nat)
}

/// The name of the label to which the `k`-th call returns.
pub open spec fn return_label(function: Seq<char>, k: u16) -> Seq<char> {
    function + ".ret."@ + decimal(k as nat)
}

/// The symbol of the cell `index` of the `static` segment of a file.
pub open spec fn static_symbol(file: Seq<char>, index: u16) -> Seq<char> {
    file + "."@ + decimal(index as nat)
}

/// Labels of comparisons with different numbers have different names.
pub proof fn lemma_label_names_differ(a: u16, b: u16)
    requires
        a != b,
    ensures
        label_name(a) != label_name(b),
{
    lemma_decimal_differs(a as nat, b as nat);
    let la = label_name(a);
    let lb = label_name(b);
    reveal_strlit("L");
    assert(la.subrange(1, la.len() as int) =~= decimal(a as nat));
    assert(lb.subrange(1, lb.len() as int) =~= decimal(b as nat));
}

/// Return labels of a function with different numbers have different
/// names.
pub proof fn lemma_return_labels_differ(function: Seq<char>, a: u16, b: u16)
    requires
        a != b,
    ensures
        return_label(function, a) != return_label(function, b),
{
    lemma_decimal_differs(a as nat, b as nat);
    let la = return_label(function, a);
    let lb = return_label(function, b);
    let n = (function + ".ret."@).len() as int;
    assert(la.subrange(n, la.len() as int) =~= decimal(a as nat));
    assert(lb.subrange(n, lb.len() as int) =~= decimal(b as nat));
}

/// Loads the topmost value into `D` and leaves `A` at the cell below it,
/// whose value is then in `M`. `SP` stays.
pub open spec fn pop_before_op_lines() -> Seq<Line> {
    seq![
        load(Register::SP),
        assign(Dest::A, Comp::M),
        assign(Dest::A, Comp::AMinusOne),
        assign(Dest::D, Comp::M),
        assign(Dest::A, Comp::AMinusOne),
    ]
}

/// Pushes `D`.
pub open spec fn push_from_d_reg_lines() -> Seq<Line> {
    seq![
        load(Register::SP),
        assign(Dest::A, Comp::M),
        assign(Dest::M, Comp::D),
        assign(Dest::D, Comp::APlusOne),
        load(Register::SP),
        assign(Dest::M, Comp::D),
    ]
}

/// Pops into `D`.
pub open spec fn pop_into_d_reg_lines() -> Seq<Line> {
    seq![load(Register::SP), assign(Dest::AM, Comp::MMinusOne), assign(Dest::D, Comp::M)]
}

/// Sets `SP` to the cell after the one that `A` holds.
pub open spec fn restore_sp_lines() -> Seq<Line> {
    seq![assign(Dest::D, Comp::APlusOne), load(Register::SP), assign(Dest::M, Comp::D)]
}

/// Pushes what the cell `r` holds.
pub open spec fn register_to_stack_lines(r: Register) -> Seq<Line> {
    seq![load(r), assign(Dest::D, Comp::M)] + push_from_d_reg_lines()
}

/// The jump that is taken where the comparison holds of `D`, the first
/// operand less the second.
pub open spec fn jump_of(op: ArtithmeticOperation) -> Jump {
    match op {
        ArtithmeticOperation::Eq => Jump::JEQ,
        ArtithmeticOperation::Lt => Jump::JLT,
        _ => Jump::JGT,
    }
}

/// After `pop_before_op_lines`: replaces the two topmost values by -1 where
/// the comparison holds of them and by 0 where it does not. Takes the labels
/// `k` and `k + 1`.
pub open spec fn compare_and_write_lines(op: ArtithmeticOperation, k: u16) -> Seq<Line> {
    seq![
        assign(Dest::D, Comp::MMinusD),
        Line::Symbol(label_name(k)),
        branch(Comp::D, jump_of(op)),
        assign(Dest::D, Comp::Zero),
        Line::Symbol(label_name((k + 1) as u16)),
        branch(Comp::Zero, Jump::JMP),
        Line::Label(label_name(k)),
        assign(Dest::D, Comp::MinusOne),
        Line::Label(label_name((k + 1) as u16)),
        load(Register::SP),
        assign(Dest::AM, Comp::MMinusOne),
        assign(Dest::A, Comp::AMinusOne),
        assign(Dest::M, Comp::D),
    ]
}

/// The cell that holds the base address of a segment that has one.
pub open spec fn base_register(segment: Segment) -> Register {
    match segment {
        Segment::Local => Register::LCL,
        Segment::Argument => Register::ARG,
        Segment::This => Register::THIS,
        _ => Register::THAT,
    }
}

/// The address at which a segment of fixed place starts: `pointer` at 3,
/// `temp` at 5.
pub open spec fn fixed_base(segment: Segment) -> u16 {
    match segment {
        Segment::Pointer => 3,
        _ => 5,
    }
}

/// Loads the value of a cell of a segment into `D`.
pub open spec fn fetch_lines(segment: Segment, index: u16, file: Seq<char>) -> Seq<Line> {
    match segment {
        Segment::Constant => seq![number(index), assign(Dest::D, Comp::A)],
        Segment::Static => seq![
            Line::Symbol(static_symbol(file, index)),
            assign(Dest::D, Comp::M),
        ],
        Segment::Temp | Segment::Pointer => seq![
            number(fixed_base(segment)),
            assign(Dest::D, Comp::A),
            number(index),
            assign(Dest::A, Comp::DPlusA),
            assign(Dest::D, Comp::M),
        ],
        _ => seq![
            load(base_register(segment)),
            assign(Dest::D, Comp::M),
            number(index),
            assign(Dest::A, Comp::DPlusA),
            assign(Dest::D, Comp::M),
        ],
    }
}

/// Loads the address of a cell of a segment into `D`.
pub open spec fn address_lines(segment: Segment, index: u16, file: Seq<char>) -> Seq<Line> {
    match segment {
        Segment::Static => seq![
            Line::Symbol(static_symbol(file, index)),
            assign(Dest::D, Comp::A),
        ],
        Segment::Temp | Segment::Pointer => seq![
            number(fixed_base(segment)),
            assign(Dest::D, Comp::A),
            number(index),
            assign(Dest::D, Comp::DPlusA),
        ],
        _ => seq![
            load(base_register(segment)),
            assign(Dest::D, Comp::M),
            number(index),
            assign(Dest::D, Comp::DPlusA),
        ],
    }
}

/// Pops into the cell whose address `D` holds.
pub open spec fn store_lines() -> Seq<Line> {
    seq![
        load(Register::R15),
        assign(Dest::M, Comp::D),
        load(Register::SP),
        assign(Dest::AM, Comp::MMinusOne),
        assign(Dest::D, Comp::M),
        load(Register::R15),
        assign(Dest::A, Comp::M),
        assign(Dest::M, Comp::D),
    ]
}

/// After `pop_before_op_lines`: an operation that is no comparison.
pub open spec fn compute_lines(op: ArtithmeticOperation) -> Seq<Line> {
    (match op {
        ArtithmeticOperation::Add => seq![assign(Dest::M, Comp::DPlusM)],
        ArtithmeticOperation::Sub => seq![assign(Dest::M, Comp::MMinusD)],
        ArtithmeticOperation::And => seq![assign(Dest::M, Comp::DAndM)],
        ArtithmeticOperation::Or => seq![assign(Dest::M, Comp::DOrM)],
        ArtithmeticOperation::Neg => seq![
            assign(Dest::A, Comp::APlusOne),
            assign(Dest::M, Comp::NegD),
        ],
        _ => seq![assign(Dest::A, Comp::APlusOne), assign(Dest::M, Comp::NotD)],
    }) + restore_sp_lines()
}

/// `block`, `n` times.
pub open spec fn repeat(block: Seq<Line>, n: nat) -> Seq<Line>
    decreases n,
{
    if n == 0 {
        Seq::empty()
    } else {
        repeat(block, (n - 1) as nat) + block
    }
}

/// Pushes a zero.
pub open spec fn push_zero_lines() -> Seq<Line> {
    seq![assign(Dest::D, Comp::Zero)] + push_from_d_reg_lines()
}

/// The lines of a call after the frame was pushed: they set `ARG` and
/// `LCL`, jump to the function, and declare the label to which it returns.
pub open spec fn enter_lines(function: Seq<char>, args: u16, k: u16) -> Seq<Line> {
    seq![
        number(5),
        assign(Dest::D, Comp::A),
        number(args),
        assign(Dest::D, Comp::DPlusA),
        load(Register::SP),
        assign(Dest::D, Comp::MMinusD),
        load(Register::ARG),
        assign(Dest::M, Comp::D),
        load(Register::SP),
        assign(Dest::D, Comp::M),
        load(Register::LCL),
        assign(Dest::M, Comp::D),
        Line::Symbol(function),
        branch(Comp::Zero, Jump::JMP),
        Line::Label(return_label(function, k)),
    ]
}

/// Calls `function` with the `args` topmost values as its arguments; `k` is
/// the number of the return label.
pub open spec fn call_lines(function: Seq<char>, args: u16, k: u16) -> Seq<Line> {
    seq![Line::Symbol(return_label(function, k)), assign(Dest::D, Comp::A)]
        + push_from_d_reg_lines() + register_to_stack_lines(Register::LCL)
        + register_to_stack_lines(Register::ARG) + register_to_stack_lines(Register::THIS)
        + register_to_stack_lines(Register::THAT) + enter_lines(function, args, k)
}

/// Keeps the frame's address in `R15` and the return address in `R14`.
pub open spec fn save_frame_lines() -> Seq<Line> {
    seq![
        load(Register::LCL),
        assign(Dest::D, Comp::M),
        load(Register::R15),
        assign(Dest::M, Comp::D),
        number(5),
        assign(Dest::A, Comp::DMinusA),
        assign(Dest::D, Comp::M),
        load(Register::R14),
        assign(Dest::M, Comp::D),
    ]
}

/// Pops the result into the first argument's cell and sets `SP` to the cell
/// after it.
pub open spec fn hand_back_lines() -> Seq<Line> {
    pop_into_d_reg_lines() + seq![
        load(Register::ARG),
        assign(Dest::A, Comp::M),
        assign(Dest::M, Comp::D),
        load(Register::ARG),
        assign(Dest::D, Comp::MPlusOne),
        load(Register::SP),
        assign(Dest::M, Comp::D),
    ]
}

/// Sets the cell `r` to what stands `back` cells below the frame's address.
pub open spec fn restore_lines(r: Register, back: u16) -> Seq<Line> {
    seq![
        load(Register::R15),
        assign(Dest::D, Comp::M),
        number(back),
        assign(Dest::A, Comp::DMinusA),
        assign(Dest::D, Comp::M),
        load(r),
        assign(Dest::M, Comp::D),
    ]
}

/// Jumps to the address that `R14` holds.
pub open spec fn jump_back_lines() -> Seq<Line> {
    seq![load(Register::R14), assign(Dest::A, Comp::M), branch(Comp::Zero, Jump::JMP)]
}

/// Returns from a function.
pub open spec fn return_lines() -> Seq<Line> {
    save_frame_lines() + hand_back_lines() + restore_lines(Register::THAT, 1) + restore_lines(
        Register::THIS,
        2,
    ) + restore_lines(Register::ARG, 3) + restore_lines(Register::LCL, 4) + jump_back_lines()
}

/// Sets `SP` to 256.
pub open spec fn stack_init_lines() -> Seq<Line> {
    seq![number(256), assign(Dest::D, Comp::A), load(Register::SP), assign(Dest::M, Comp::D)]
}

impl Operation {
    /// The number of labels of comparisons that the command takes.
    pub open spec fn labels(self) -> nat {
        match self {
            Operation::Arithmetic(op) if op.is_comparison() => 2,
            _ => 0,
        }
    }

    /// The number of return labels that the command takes.
    pub open spec fn return_labels(self) -> nat {
        match self {
            Operation::Call { .. } => 1,
            _ => 0,
        }
    }

    /// The assembly of the command, in the file `file`, where `label_value`
    /// and `call_label` are the numbers of the next free labels.
    pub open spec fn lines(self, file: Seq<char>, label_value: u16, call_label: u16) -> Seq<
        Line,
    > {
        match self {
            Operation::Arithmetic(op) => pop_before_op_lines() + (if op.is_comparison() {
                compare_and_write_lines(op, label_value)
            } else {
                compute_lines(op)
            }),
            Operation::Push { segment, index } => fetch_lines(segment, index, file)
                + push_from_d_reg_lines(),
            Operation::Pop { segment, index } => address_lines(segment, index, file)
                + store_lines(),
            Operation::Label(name) => seq![Line::Label(name)],
            Operation::GOTO(name) => seq![Line::Symbol(name), branch(Comp::Zero, Jump::JMP)],
            Operation::If(name) => pop_into_d_reg_lines() + seq![
                Line::Symbol(name),
                branch(Comp::D, Jump::JNE),
            ],
            Operation::Function { name, args } => seq![Line::Label(name)] + repeat(
                push_zero_lines(),
                args as nat,
            ),
            Operation::Return => return_lines(),
            Operation::Call { name, args } => call_lines(name, args, call_label),
        }
    }
}

fn emit(f: &mut Vec<Instr>, line: Instr)
    ensures
        program(final(f)@) == program(old(f)@).push(line@),
{
    f.push(line);
    assert(program(f@) =~= program(old(f)@).push(line@));
}

fn emit_load(f: &mut Vec<Instr>, r: Register)
    ensures
        program(final(f)@) == program(old(f)@).push(load(r)),
{
    emit(f, Instr::Register(r));
}

fn emit_number(f: &mut Vec<Instr>, n: u16)
    ensures
        program(final(f)@) == program(old(f)@).push(number(n)),
{
    emit(f, Instr::Number(n));
}

fn emit_assign(f: &mut Vec<Instr>, dest: Dest, comp: Comp)
    ensures
        program(final(f)@) == program(old(f)@).push(assign(dest, comp)),
{
    emit(f, Instr::Compute(dest, comp, Jump::Null));
}

fn emit_branch(f: &mut Vec<Instr>, comp: Comp, jump: Jump)
    ensures
        program(final(f)@) == program(old(f)@).push(branch(comp, jump)),
{
    emit(f, Instr::Compute(Dest::Null, comp, jump));
}

fn label_string(k: u16) -> (s: String)
    ensures
        s@ == label_name(k),
{
    let mut s = String::from_str("L");
    push_decimal(&mut s, k);
    s
}

fn return_label_string(function: &str, k: u16) -> (s: String)
    ensures
        s@ == return_label(function@, k),
{
    let mut s = String::from_str(function);
    s.append(".ret.");
    push_decimal(&mut s, k);
    s
}

fn static_symbol_string(file: &str, index: u16) -> (s: String)
    ensures
        s@ == static_symbol(file@, index),
{
    let mut s = String::from_str(file);
    s.append(".");
    push_decimal(&mut s, index);
    s
}

impl _Command {
    /// Appends the lines that load the two topmost values.
    pub fn pop_before_op(f: &mut Vec<Instr>)
        ensures
            program(final(f)@) == program(old(f)@) + pop_before_op_lines(),
    {
        emit_load(f, Register::SP);
        emit_assign(f, Dest::A, Comp::M);
        emit_assign(f, Dest::A, Comp::AMinusOne);
        emit_assign(f, Dest::D, Comp::M);
        emit_assign(f, Dest::A, Comp::AMinusOne);
        assert(program(f@) =~= program(old(f)@) + pop_before_op_lines());
    }

    /// Appends the lines that push `D`.
    pub fn push_from_d_reg(f: &mut Vec<Instr>)
        ensures
            program(final(f)@) == program(old(f)@) + push_from_d_reg_lines(),
    {
        emit_load(f, Register::SP);
        emit_assign(f, Dest::A, Comp::M);
        emit_assign(f, Dest::M, Comp::D);
        emit_assign(f, Dest::D, Comp::APlusOne);
        emit_load(f, Register::SP);
        emit_assign(f, Dest::M, Comp::D);
        assert(program(f@) =~= program(old(f)@) + push_from_d_reg_lines());
    }

    /// Appends the lines that pop into `D`.
    pub fn pop_into_d_reg(f: &mut Vec<Instr>)
        ensures
            program(final(f)@) == program(old(f)@) + pop_into_d_reg_lines(),
    {
        emit_load(f, Register::SP);
        emit_assign(f, Dest::AM, Comp::MMinusOne);
        emit_assign(f, Dest::D, Comp::M);
        assert(program(f@) =~= program(old(f)@) + pop_into_d_reg_lines());
    }

    /// Appends the lines of a comparison, which take the labels `label_value`
    /// and `label_value + 1`.
    pub fn compare_and_write(cmd: ArtithmeticOperation, label_value: u16, f: &mut Vec<Instr>)
        requires
            cmd.is_comparison(),
            label_value < u16::MAX,
        ensures
            program(final(f)@) == program(old(f)@) + compare_and_write_lines(cmd, label_value),
    {
        let jump = match cmd {
            ArtithmeticOperation::Eq => Jump::JEQ,
            ArtithmeticOperation::Lt => Jump::JLT,
            _ => Jump::JGT,
        };
        emit_assign(f, Dest::D, Comp::MMinusD);
        emit(f, Instr::Symbol(label_string(label_value)));
        emit_branch(f, Comp::D, jump);
        emit_assign(f, Dest::D, Comp::Zero);
        emit(f, Instr::Symbol(label_string(label_value + 1)));
        emit_branch(f, Comp::Zero, Jump::JMP);
        emit(f, Instr::Label(label_string(label_value)));
        emit_assign(f, Dest::D, Comp::MinusOne);
        emit(f, Instr::Label(label_string(label_value + 1)));
        emit_load(f, Register::SP);
        emit_assign(f, Dest::AM, Comp::MMinusOne);
        emit_assign(f, Dest::A, Comp::AMinusOne);
        emit_assign(f, Dest::M, Comp::D);
        assert(program(f@) =~= program(old(f)@) + compare_and_write_lines(cmd, label_value));
    }

    /// Appends the lines that set `SP` to the cell after the one that `A`
    /// holds.
    pub fn restore_sp(f: &mut Vec<Instr>)
        ensures
            program(final(f)@) == program(old(f)@) + restore_sp_lines(),
    {
        emit_assign(f, Dest::D, Comp::APlusOne);
        emit_load(f, Register::SP);
        emit_assign(f, Dest::M, Comp::D);
        assert(program(f@) =~= program(old(f)@) + restore_sp_lines());
    }

    /// Appends the lines that push what the cell `name` holds.
    pub fn register_to_stack(f: &mut Vec<Instr>, name: Register)
        ensures
            program(final(f)@) == program(old(f)@) + register_to_stack_lines(name),
    {
        emit_load(f, name);
        emit_assign(f, Dest::D, Comp::M);
        _Command::push_from_d_reg(f);
        assert(program(f@) =~= program(old(f)@) + register_to_stack_lines(name));
    }

    /// Appends the lines that set the cell `r` to what stands `back` cells
    /// below the frame's address.
    pub fn restore(f: &mut Vec<Instr>, r: Register, back: u16)
        ensures
            program(final(f)@) == program(old(f)@) + restore_lines(r, back),
    {
        emit_load(f, Register::R15);
        emit_assign(f, Dest::D, Comp::M);
        emit_number(f, back);
        emit_assign(f, Dest::A, Comp::DMinusA);
        emit_assign(f, Dest::D, Comp::M);
        emit_load(f, r);
        emit_assign(f, Dest::M, Comp::D);
        assert(program(f@) =~= program(old(f)@) + restore_lines(r, back));
    }

    /// Appends the lines that load the value of a cell of a segment into
    /// `D`.
    pub fn fetch(f: &mut Vec<Instr>, segment: Segment, index: u16, file: &str)
        ensures
            program(final(f)@) == program(old(f)@) + fetch_lines(segment, index, file@),
    {
        match segment {
            Segment::Constant => {
                emit_number(f, index);
                emit_assign(f, Dest::D, Comp::A);
            },
            Segment::Static => {
                emit(f, Instr::Symbol(static_symbol_string(file, index)));
                emit_assign(f, Dest::D, Comp::M);
            },
            Segment::Temp | Segment::Pointer => {
                emit_number(
                    f,
                    match segment {
                        Segment::Pointer => 3,
                        _ => 5,
                    },
                );
                emit_assign(f, Dest::D, Comp::A);
                emit_number(f, index);
                emit_assign(f, Dest::A, Comp::DPlusA);
                emit_assign(f, Dest::D, Comp::M);
            },
            _ => {
                emit_load(
                    f,
                    match segment {
                        Segment::Local => Register::LCL,
                        Segment::Argument => Register::ARG,
                        Segment::This => Register::THIS,
                        _ => Register::THAT,
                    },
                );
                emit_assign(f, Dest::D, Comp::M);
                emit_number(f, index);
                emit_assign(f, Dest::A, Comp::DPlusA);
                emit_assign(f, Dest::D, Comp::M);
            },
        }
        assert(program(f@) =~= program(old(f)@) + fetch_lines(segment, index, file@));
    }

    /// Appends the lines that load the address of a cell of a segment into
    /// `D`.
    pub fn address(f: &mut Vec<Instr>, segment: Segment, index: u16, file: &str)
        requires
            segment != Segment::Constant,
        ensures
            program(final(f)@) == program(old(f)@) + address_lines(segment, index, file@),
    {
        match segment {
            Segment::Static => {
                emit(f, Instr::Symbol(static_symbol_string(file, index)));
                emit_assign(f, Dest::D, Comp::A);
            },
            Segment::Temp | Segment::Pointer => {
                emit_number(
                    f,
                    match segment {
                        Segment::Pointer => 3,
                        _ => 5,
                    },
                );
                emit_assign(f, Dest::D, Comp::A);
                emit_number(f, index);
                emit_assign(f, Dest::D, Comp::DPlusA);
            },
            _ => {
                emit_load(
                    f,
                    match segment {
                        Segment::Local => Register::LCL,
                        Segment::Argument => Register::ARG,
                        Segment::This => Register::THIS,
                        _ => Register::THAT,
                    },
                );
                emit_assign(f, Dest::D, Comp::M);
                emit_number(f, index);
                emit_assign(f, Dest::D, Comp::DPlusA);
            },
        }
        assert(program(f@) =~= program(old(f)@) + address_lines(segment, index, file@));
    }

    /// Appends the lines that pop into the cell whose address `D` holds.
    pub fn store(f: &mut Vec<Instr>)
        ensures
            program(final(f)@) == program(old(f)@) + store_lines(),
    {
        emit_load(f, Register::R15);
        emit_assign(f, Dest::M, Comp::D);
        emit_load(f, Register::SP);
        emit_assign(f, Dest::AM, Comp::MMinusOne);
        emit_assign(f, Dest::D, Comp::M);
        emit_load(f, Register::R15);
        emit_assign(f, Dest::A, Comp::M);
        emit_assign(f, Dest::M, Comp::D);
        assert(program(f@) =~= program(old(f)@) + store_lines());
    }

    /// Appends the lines of an operation that is no comparison.
    pub fn compute(f: &mut Vec<Instr>, op: ArtithmeticOperation)
        requires
            !op.is_comparison(),
        ensures
            program(final(f)@) == program(old(f)@) + compute_lines(op),
    {
        match op {
            ArtithmeticOperation::Add => emit_assign(f, Dest::M, Comp::DPlusM),
            ArtithmeticOperation::Sub => emit_assign(f, Dest::M, Comp::MMinusD),
            ArtithmeticOperation::And => emit_assign(f, Dest::M, Comp::DAndM),
            ArtithmeticOperation::Or => emit_assign(f, Dest::M, Comp::DOrM),
            ArtithmeticOperation::Neg => {
                emit_assign(f, Dest::A, Comp::APlusOne);
                emit_assign(f, Dest::M, Comp::NegD);
            },
            _ => {
                emit_assign(f, Dest::A, Comp::APlusOne);
                emit_assign(f, Dest::M, Comp::NotD);
            },
        }
        _Command::restore_sp(f);
        assert(program(f@) =~= program(old(f)@) + compute_lines(op));
    }

    /// Appends the label of a function and the lines that push a zero for
    /// each of its `args` local variables.
    pub fn function(f: &mut Vec<Instr>, name: &str, args: u16)
        ensures
            program(final(f)@) == program(old(f)@) + (seq![Line::Label(name@)] + repeat(
                push_zero_lines(),
                args as nat,
            )),
    {
        emit(f, Instr::Label(String::from_str(name)));
        let ghost start = program(f@);
        let mut i: u16 = 0;
        assert(start + repeat(push_zero_lines(), 0) =~= start);
        while i < args
            invariant
                i <= args,
                start == program(old(f)@).push(Line::Label(name@)),
                program(f@) == start + repeat(push_zero_lines(), i as nat),
            decreases args - i,
        {
            emit_assign(f, Dest::D, Comp::Zero);
            _Command::push_from_d_reg(f);
            i = i + 1;
            assert(program(f@) =~= start + repeat(push_zero_lines(), i as nat));
        }
        assert(program(f@) =~= program(old(f)@) + (seq![Line::Label(name@)] + repeat(
            push_zero_lines(),
            args as nat,
        )));
    }

    /// Appends the lines of a call, which takes the return label `k`.
    pub fn call(f: &mut Vec<Instr>, name: &str, args: u16, k: u16)
        ensures
            program(final(f)@) == program(old(f)@) + call_lines(name@, args, k),
    {
        emit(f, Instr::Symbol(return_label_string(name, k)));
        emit_assign(f, Dest::D, Comp::A);
        _Command::push_from_d_reg(f);
        _Command::register_to_stack(f, Register::LCL);
        _Command::register_to_stack(f, Register::ARG);
        _Command::register_to_stack(f, Register::THIS);
        _Command::register_to_stack(f, Register::THAT);
        let ghost saved = program(f@);
        assert(saved =~= program(old(f)@) + (seq![
            Line::Symbol(return_label(name@, k)),
            assign(Dest::D, Comp::A),
        ] + push_from_d_reg_lines() + register_to_stack_lines(Register::LCL)
            + register_to_stack_lines(Register::ARG) + register_to_stack_lines(Register::THIS)
            + register_to_stack_lines(Register::THAT)));
        emit_number(f, 5);
        emit_assign(f, Dest::D, Comp::A);
        emit_number(f, args);
        emit_assign(f, Dest::D, Comp::DPlusA);
        emit_load(f, Register::SP);
        emit_assign(f, Dest::D, Comp::MMinusD);
        emit_load(f, Register::ARG);
        emit_assign(f, Dest::M, Comp::D);
        emit_load(f, Register::SP);
        emit_assign(f, Dest::D, Comp::M);
        emit_load(f, Register::LCL);
        emit_assign(f, Dest::M, Comp::D);
        emit(f, Instr::Symbol(String::from_str(name)));
        emit_branch(f, Comp::Zero, Jump::JMP);
        emit(f, Instr::Label(return_label_string(name, k)));
        assert(program(f@) =~= program(old(f)@) + call_lines(name@, args, k));
    }

    /// Appends the lines of a return.
    pub fn ret(f: &mut Vec<Instr>)
        ensures
            program(final(f)@) == program(old(f)@) + return_lines(),
    {
        emit_load(f, Register::LCL);
        emit_assign(f, Dest::D, Comp::M);
        emit_load(f, Register::R15);
        emit_assign(f, Dest::M, Comp::D);
        emit_number(f, 5);
        emit_assign(f, Dest::A, Comp::DMinusA);
        emit_assign(f, Dest::D, Comp::M);
        emit_load(f, Register::R14);
        emit_assign(f, Dest::M, Comp::D);
        assert(program(f@) =~= program(old(f)@) + save_frame_lines());
        let ghost saved = program(f@);
        _Command::pop_into_d_reg(f);
        emit_load(f, Register::ARG);
        emit_assign(f, Dest::A, Comp::M);
        emit_assign(f, Dest::M, Comp::D);
        emit_load(f, Register::ARG);
        emit_assign(f, Dest::D, Comp::MPlusOne);
        emit_load(f, Register::SP);
        emit_assign(f, Dest::M, Comp::D);
        assert(program(f@) =~= saved + hand_back_lines());
        _Command::restore(f, Register::THAT, 1);
        _Command::restore(f, Register::THIS, 2);
        _Command::restore(f, Register::ARG, 3);
        _Command::restore(f, Register::LCL, 4);
        let ghost restored = program(f@);
        emit_load(f, Register::R14);
        emit_assign(f, Dest::A, Comp::M);
        emit_branch(f, Comp::Zero, Jump::JMP);
        assert(program(f@) =~= restored + jump_back_lines());
        assert(program(f@) =~= program(old(f)@) + return_lines());
    }
}

impl Command {
    /// The call of `Sys.init` with which a program starts.
    pub fn init() -> (r: Self)
        ensures
            r.cmd@ == (Operation::Call { name: "Sys.init"@, args: 0 }),
            r.label_value == 0,
            r.call_label == 0,
            r.name@ == Seq::<char>::empty(),
    {
        Self {
            cmd: _Command::Call { name: String::from_str("Sys.init"), args: 0 },
            label_value: 0,
            call_label: 0,
            name: String::new(),
        }
    }

    /// Tells whether the labels that the command takes have numbers that
    /// fit sixteen bits.
    pub open spec fn has_labels(&self) -> bool {
        &&& self.label_value + self.cmd@.labels() <= u16::MAX
        &&& self.call_label + self.cmd@.return_labels() <= u16::MAX
    }

    /// Appends the assembly of the command to `f` and counts the labels that
    /// it took.
    pub fn fmt(&mut self, f: &mut Vec<Instr>)
        requires
            old(self).cmd@.valid(),
            old(self).has_labels(),
        ensures
            program(final(f)@) == program(old(f)@) + old(self).cmd@.lines(
                old(self).name@,
                old(self).label_value,
                old(self).call_label,
            ),
            final(self).cmd == old(self).cmd,
            final(self).name == old(self).name,
            final(self).label_value == old(self).label_value + old(self).cmd@.labels(),
            final(self).call_label == old(self).call_label + old(self).cmd@.return_labels(),
    {
        let ghost before = program(f@);
        match &self.cmd {
            _Command::Push { segment, index } => {
                _Command::fetch(f, *segment, *index, self.name.as_str());
                _Command::push_from_d_reg(f);
            },
            _Command::Pop { segment, index } => {
                _Command::address(f, *segment, *index, self.name.as_str());
                _Command::store(f);
            },
            _Command::Arithmetic(op) => {
                _Command::pop_before_op(f);
                match op {
                    ArtithmeticOperation::Eq
                    | ArtithmeticOperation::Lt
                    | ArtithmeticOperation::Gt => {
                        _Command::compare_and_write(*op, self.label_value, f);
                        self.label_value = self.label_value + 2;
                    },
                    _ => {
                        _Command::compute(f, *op);
                    },
                }
            },
            _Command::Label(label) => {
                emit(f, Instr::Label(label.clone()));
            },
            _Command::GOTO(label) => {
                emit(f, Instr::Symbol(label.clone()));
                emit_branch(f, Comp::Zero, Jump::JMP);
            },
            _Command::If(label) => {
                _Command::pop_into_d_reg(f);
                emit(f, Instr::Symbol(label.clone()));
                emit_branch(f, Comp::D, Jump::JNE);
            },
            _Command::Function { name, args } => {
                _Command::function(f, name.as_str(), *args);
            },
            _Command::Call { name, args } => {
                _Command::call(f, name.as_str(), *args, self.call_label);
                self.call_label = self.call_label + 1;
            },
            _Command::Return => {
                _Command::ret(f);
            },
        }
        assert(program(f@) =~= before + old(self).cmd@.lines(
            old(self).name@,
            old(self).label_value,
            old(self).call_label,
        ));
    }

    /// The text of the assembly of the command; counts the labels that it
    /// took.
    pub fn to_string(&mut self) -> (r: String)
        requires
            old(self).cmd@.valid(),
            old(self).has_labels(),
        ensures
            r@ == render(
                old(self).cmd@.lines(
                    old(self).name@,
                    old(self).label_value,
                    old(self).call_label,
                ),
            ),
            final(self).cmd == old(self).cmd,
            final(self).name == old(self).name,
            final(self).label_value == old(self).label_value + old(self).cmd@.labels(),
            final(self).call_label == old(self).call_label + old(self).cmd@.return_labels(),
    {
        let mut code: Vec<Instr> = Vec::new();
        self.fmt(&mut code);
        assert(program(code@) =~= old(self).cmd@.lines(
            old(self).name@,
            old(self).label_value,
            old(self).call_label,
        ));
        let mut out = String::new();
        write_program(&mut out, &code);
        assert(out@ =~= render(program(code@)));
        out
    }
}

} // verus!
