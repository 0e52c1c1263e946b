//! What the assembly of the commands does on the machine.

use crate::hack::{Comp, Dest, Jump, Line, Register};
use crate::machine::{lemma_run_concat, run, run_from, walk, word, State};
use crate::translator::code::{
    address_lines, base_register, call_lines, compute_lines, enter_lines, fetch_lines,
    fixed_base,
    hand_back_lines, jump_back_lines, jump_of, label_name, pop_before_op_lines,
    push_from_d_reg_lines,
    push_zero_lines, register_to_stack_lines, repeat, restore_lines, return_label,
    return_lines, save_frame_lines, stack_init_lines, static_symbol, store_lines,
};
use crate::translator::parser::{ArtithmeticOperation, Operation, Segment};
use vstd::prelude::*;

verus! {

/// Tells whether two states hold the same in every memory cell but those
/// that `changed` names.
pub open spec fn same_memory_but(s: State, t: State, changed: Set<int>) -> bool {
    forall|x: int|
        #![trigger (t.ram)(x)]
        #![trigger (s.ram)(x)]
        !changed.contains(x) ==> (t.ram)(x) == (s.ram)(x)
}

/// Pushing `D` puts it into the cell that `SP` addresses and moves `SP` to
/// the next cell.
pub proof fn lemma_push_from_d_reg(s: State, symbols: spec_fn(Seq<char>) -> int)
    requires
        16 <= s.register(Register::SP) < 65535,
    ensures
        ({
            let sp = s.register(Register::SP);
            let t = run(push_from_d_reg_lines(), s, symbols);
            &&& (t.ram)(sp) == s.d
            &&& t.register(Register::SP) == sp + 1
            &&& same_memory_but(s, t, set![0, sp])
        }),
{
    reveal_with_fuel(run_from, 8);
}

/// The address of a cell of a segment that has a place in the memory: the
/// address that the base cell of the segment holds, or the fixed address 3
/// or 5, and the index after it. The cells of `static` have the addresses
/// of their symbols.
pub open spec fn cell(
    s: State,
    segment: Segment,
    index: u16,
    file: Seq<char>,
    symbols: spec_fn(Seq<char>) -> int,
) -> int {
    match segment {
        Segment::Static => symbols(static_symbol(file, index)),
        Segment::Temp | Segment::Pointer => word(fixed_base(segment) + index),
        _ => word(s.register(base_register(segment)) + index),
    }
}

/// What a push takes from a segment: the index itself from `constant`,
/// and what the cell holds from any other.
pub open spec fn fetched(
    s: State,
    segment: Segment,
    index: u16,
    file: Seq<char>,
    symbols: spec_fn(Seq<char>) -> int,
) -> int {
    match segment {
        Segment::Constant => index as int,
        _ => (s.ram)(cell(s, segment, index, file, symbols)),
    }
}

/// A push puts what it takes from the segment into the cell that `SP`
/// addresses and moves `SP` to the next cell.
pub proof fn lemma_push(
    s: State,
    segment: Segment,
    index: u16,
    file: Seq<char>,
    label_value: u16,
    call_label: u16,
    symbols: spec_fn(Seq<char>) -> int,
)
    requires
        16 <= s.register(Register::SP) < 65535,
    ensures
        ({
            let sp = s.register(Register::SP);
            let t = run(
                (Operation::Push { segment, index }).lines(file, label_value, call_label),
                s,
                symbols,
            );
            &&& (t.ram)(sp) == fetched(s, segment, index, file, symbols)
            &&& t.register(Register::SP) == sp + 1
            &&& same_memory_but(s, t, set![0, sp])
        }),
{
    let load = fetch_lines(segment, index, file);
    let s0 = run(load, s, symbols);
    assert(s0.d == fetched(s, segment, index, file, symbols) && s0.ram == s.ram) by {
        reveal_with_fuel(run_from, 6);
    }
    lemma_run_concat(load, push_from_d_reg_lines(), s, symbols);
    lemma_push_from_d_reg(s0, symbols);
}

/// A pop takes the topmost value off the stack and puts it into the cell
/// of the segment. The cell is neither `SP` nor the scratch cell `R15`,
/// and `SP` addresses a cell after the named ones.
pub proof fn lemma_pop(
    s: State,
    segment: Segment,
    index: u16,
    file: Seq<char>,
    label_value: u16,
    call_label: u16,
    symbols: spec_fn(Seq<char>) -> int,
)
    requires
        segment != Segment::Constant,
        17 <= s.register(Register::SP) < 65536,
        cell(s, segment, index, file, symbols) != 0,
        cell(s, segment, index, file, symbols) != 15,
    ensures
        ({
            let sp = s.register(Register::SP);
            let at = cell(s, segment, index, file, symbols);
            let t = run(
                (Operation::Pop { segment, index }).lines(file, label_value, call_label),
                s,
                symbols,
            );
            &&& (t.ram)(at) == (s.ram)(sp - 1)
            &&& t.register(Register::SP) == sp - 1
            &&& same_memory_but(s, t, set![0, 15, at])
        }),
{
    let find = address_lines(segment, index, file);
    let s0 = run(find, s, symbols);
    assert(s0.d == cell(s, segment, index, file, symbols) && s0.ram == s.ram) by {
        reveal_with_fuel(run_from, 5);
    }
    lemma_run_concat(find, store_lines(), s, symbols);
    assert({
        let t = run(store_lines(), s0, symbols);
        &&& (t.ram)(s0.d) == (s0.ram)(s0.register(Register::SP) - 1)
        &&& t.register(Register::SP) == s0.register(Register::SP) - 1
        &&& same_memory_but(s0, t, set![0, 15, s0.d])
    }) by {
        reveal_with_fuel(run_from, 9);
    }
}

/// What an operation that is no comparison makes of the topmost value `y`
/// and the value `x` below it; `neg` and `not` leave `x` out.
pub open spec fn computed(op: ArtithmeticOperation, x: int, y: int) -> int {
    match op {
        ArtithmeticOperation::Add => word(y + x),
        ArtithmeticOperation::Sub => word(x - y),
        ArtithmeticOperation::And => ((y as u16) & (x as u16)) as int,
        ArtithmeticOperation::Or => ((y as u16) | (x as u16)) as int,
        ArtithmeticOperation::Neg => word(-y),
        _ => 65535 - y,
    }
}

/// An operation on two values takes them off the stack and puts what it
/// makes of them in their place; `neg` and `not` do so with one value.
pub proof fn lemma_compute(
    s: State,
    op: ArtithmeticOperation,
    file: Seq<char>,
    label_value: u16,
    call_label: u16,
    symbols: spec_fn(Seq<char>) -> int,
)
    requires
        !op.is_comparison(),
        18 <= s.register(Register::SP) < 65536,
    ensures
        ({
            let sp = s.register(Register::SP);
            let t = run(
                (Operation::Arithmetic(op)).lines(file, label_value, call_label),
                s,
                symbols,
            );
            let unary = op == ArtithmeticOperation::Neg || op == ArtithmeticOperation::Not;
            let result = computed(op, (s.ram)(sp - 2), (s.ram)(sp - 1));
            if unary {
                &&& (t.ram)(sp - 1) == result
                &&& t.register(Register::SP) == sp
                &&& same_memory_but(s, t, set![0, sp - 1])
            } else {
                &&& (t.ram)(sp - 2) == result
                &&& t.register(Register::SP) == sp - 1
                &&& same_memory_but(s, t, set![0, sp - 2])
            }
        }),
{
    let s0 = run(pop_before_op_lines(), s, symbols);
    let sp = s.register(Register::SP);
    assert(s0.a == sp - 2 && s0.d == (s.ram)(sp - 1) && s0.ram == s.ram) by {
        reveal_with_fuel(run_from, 6);
    }
    lemma_run_concat(pop_before_op_lines(), compute_lines(op), s, symbols);
    reveal_with_fuel(run_from, 6);
}

/// A comparison takes two values off the stack and puts -1 in their place
/// where the comparison holds of the first less the second, and 0 where it
/// does not. The labels stand at their places in the lines.
pub proof fn lemma_compare(
    s: State,
    op: ArtithmeticOperation,
    file: Seq<char>,
    k: u16,
    call_label: u16,
    symbols: spec_fn(Seq<char>) -> int,
)
    requires
        op.is_comparison(),
        k < u16::MAX,
        18 <= s.register(Register::SP) < 65536,
        symbols(label_name(k)) == 11,
        symbols(label_name((k + 1) as u16)) == 13,
    ensures
        ({
            let sp = s.register(Register::SP);
            let code = (Operation::Arithmetic(op)).lines(file, k, call_label);
            let (pc, t) = walk(code, 0, s, symbols, 16);
            let holds = jump_of(op).taken(word((s.ram)(sp - 2) - (s.ram)(sp - 1)));
            &&& code[11] == Line::Label(label_name(k))
            &&& code[13] == Line::Label(label_name((k + 1) as u16))
            &&& pc == code.len()
            &&& (t.ram)(sp - 2) == if holds {
                65535int
            } else {
                0int
            }
            &&& t.register(Register::SP) == sp - 1
            &&& same_memory_but(s, t, set![0, sp - 2])
        }),
{
    reveal_with_fuel(walk, 17);
}

/// `goto` goes to the label.
pub proof fn lemma_goto(
    s: State,
    name: Seq<char>,
    file: Seq<char>,
    label_value: u16,
    call_label: u16,
    symbols: spec_fn(Seq<char>) -> int,
)
    ensures
        ({
            let code = (Operation::GOTO(name)).lines(file, label_value, call_label);
            let (pc, t) = walk(code, 0, s, symbols, 2);
            &&& pc == symbols(name)
            &&& t.ram == s.ram
        }),
{
    reveal_with_fuel(walk, 3);
}

/// `if-goto` takes the topmost value off the stack and goes to the label
/// where the value is not 0, and on to the next line where it is.
pub proof fn lemma_if_goto(
    s: State,
    name: Seq<char>,
    file: Seq<char>,
    label_value: u16,
    call_label: u16,
    symbols: spec_fn(Seq<char>) -> int,
)
    requires
        17 <= s.register(Register::SP) < 65536,
    ensures
        ({
            let sp = s.register(Register::SP);
            let code = (Operation::If(name)).lines(file, label_value, call_label);
            let (pc, t) = walk(code, 0, s, symbols, 5);
            &&& pc == if (s.ram)(sp - 1) != 0 {
                symbols(name)
            } else {
                5
            }
            &&& t.register(Register::SP) == sp - 1
            &&& same_memory_but(s, t, set![0])
        }),
{
    reveal_with_fuel(walk, 6);
}

/// The lines that push a zero for each local variable of a function put
/// zeros into the cells from the one that `SP` addresses on, and move
/// `SP` after them.
pub proof fn lemma_push_zeros(s: State, n: nat, symbols: spec_fn(Seq<char>) -> int)
    requires
        16 <= s.register(Register::SP),
        s.register(Register::SP) + n < 65536,
    ensures
        ({
            let sp = s.register(Register::SP);
            let t = run(repeat(push_zero_lines(), n), s, symbols);
            &&& t.register(Register::SP) == sp + n
            &&& forall|x: int| sp <= x < sp + n ==> #[trigger] (t.ram)(x) == 0
            &&& forall|x: int|
                x != 0 && !(sp <= x < sp + n) ==> (t.ram)(x) == #[trigger] (s.ram)(x)
        }),
    decreases n,
{
    if n == 0 {
        reveal_with_fuel(run_from, 1);
    } else {
        let before = repeat(push_zero_lines(), (n - 1) as nat);
        lemma_push_zeros(s, (n - 1) as nat, symbols);
        let s0 = run(before, s, symbols);
        lemma_run_concat(before, push_zero_lines(), s, symbols);
        let zero = seq![Line::Compute(Dest::D, Comp::Zero, Jump::Null)];
        let s1 = run(zero, s0, symbols);
        assert(s1.d == 0 && s1.ram == s0.ram) by {
            reveal_with_fuel(run_from, 2);
        }
        lemma_run_concat(zero, push_from_d_reg_lines(), s0, symbols);
        lemma_push_from_d_reg(s1, symbols);
    }
}

/// Pushing a named cell puts what it holds into the cell that `SP`
/// addresses and moves `SP` to the next cell.
pub proof fn lemma_register_to_stack(s: State, r: Register, symbols: spec_fn(Seq<char>) -> int)
    requires
        16 <= s.register(Register::SP) < 65535,
    ensures
        ({
            let sp = s.register(Register::SP);
            let t = run(register_to_stack_lines(r), s, symbols);
            &&& (t.ram)(sp) == s.register(r)
            &&& t.register(Register::SP) == sp + 1
            &&& same_memory_but(s, t, set![0, sp])
        }),
{
    reveal_with_fuel(run_from, 10);
}

/// The first lines of a program set `SP` to 256.
pub proof fn lemma_stack_init(s: State, symbols: spec_fn(Seq<char>) -> int)
    ensures
        ({
            let t = run(stack_init_lines(), s, symbols);
            &&& t.register(Register::SP) == 256
            &&& same_memory_but(s, t, set![0])
        }),
{
    reveal_with_fuel(run_from, 6);
}

/// What a call is to leave behind: the caller's frame on the stack, where
/// `SP` stood, `ARG` at the first of the `args` arguments, `LCL` and `SP`
/// after the frame, and `A` at the function.
pub open spec fn called(
    s: State,
    t: State,
    function: Seq<char>,
    args: u16,
    k: u16,
    symbols: spec_fn(Seq<char>) -> int,
) -> bool {
    let sp = s.register(Register::SP);
    &&& (t.ram)(sp) == symbols(return_label(function, k))
    &&& (t.ram)(sp + 1) == s.register(Register::LCL)
    &&& (t.ram)(sp + 2) == s.register(Register::ARG)
    &&& (t.ram)(sp + 3) == s.register(Register::THIS)
    &&& (t.ram)(sp + 4) == s.register(Register::THAT)
    &&& t.register(Register::SP) == sp + 5
    &&& t.register(Register::LCL) == sp + 5
    &&& t.register(Register::ARG) == sp + 5 - 5 - args
    &&& t.a == symbols(function)
    &&& same_memory_but(s, t, set![0, 1, 2, sp, sp + 1, sp + 2, sp + 3, sp + 4])
}

proof fn lemma_enter(
    s: State,
    function: Seq<char>,
    args: u16,
    k: u16,
    symbols: spec_fn(Seq<char>) -> int,
)
    requires
        args <= 32767,
        5 + args <= s.register(Register::SP) < 65536,
    ensures
        ({
            let sp = s.register(Register::SP);
            let t = run(enter_lines(function, args, k), s, symbols);
            &&& t.register(Register::SP) == sp
            &&& t.register(Register::LCL) == sp
            &&& t.register(Register::ARG) == sp - 5 - args
            &&& t.a == symbols(function)
            &&& same_memory_but(s, t, set![1, 2])
        }),
{
    reveal_with_fuel(run_from, 16);
}

/// A call pushes the return address and the caller's `LCL`, `ARG`, `THIS`
/// and `THAT`, sets `ARG` to `SP - 5 - args` and `LCL` to `SP`, and jumps
/// to the function.
pub proof fn lemma_call(
    s: State,
    function: Seq<char>,
    args: u16,
    k: u16,
    symbols: spec_fn(Seq<char>) -> int,
)
    requires
        args <= 32767,
        16 <= s.register(Register::SP),
        args <= s.register(Register::SP),
        s.register(Register::SP) + 5 < 65536,
    ensures
        called(s, run(call_lines(function, args, k), s, symbols), function, args, k, symbols),
        call_lines(function, args, k)[call_lines(function, args, k).len() - 2] == Line::Compute(
            Dest::Null,
            Comp::Zero,
            Jump::JMP,
        ),
{
    let sp = s.register(Register::SP);
    let head = seq![
        Line::Symbol(return_label(function, k)),
        Line::Compute(Dest::D, Comp::A, Jump::Null),
    ];
    let s0 = run(head, s, symbols);
    assert(s0.d == symbols(return_label(function, k)) && s0.ram == s.ram) by {
        reveal_with_fuel(run_from, 3);
    }
    let c1 = head + push_from_d_reg_lines();
    let s1 = run(c1, s, symbols);
    lemma_run_concat(head, push_from_d_reg_lines(), s, symbols);
    lemma_push_from_d_reg(s0, symbols);
    let c2 = c1 + register_to_stack_lines(Register::LCL);
    let s2 = run(c2, s, symbols);
    lemma_run_concat(c1, register_to_stack_lines(Register::LCL), s, symbols);
    lemma_register_to_stack(s1, Register::LCL, symbols);
    let c3 = c2 + register_to_stack_lines(Register::ARG);
    let s3 = run(c3, s, symbols);
    lemma_run_concat(c2, register_to_stack_lines(Register::ARG), s, symbols);
    lemma_register_to_stack(s2, Register::ARG, symbols);
    let c4 = c3 + register_to_stack_lines(Register::THIS);
    let s4 = run(c4, s, symbols);
    lemma_run_concat(c3, register_to_stack_lines(Register::THIS), s, symbols);
    lemma_register_to_stack(s3, Register::THIS, symbols);
    let c5 = c4 + register_to_stack_lines(Register::THAT);
    let s5 = run(c5, s, symbols);
    lemma_run_concat(c4, register_to_stack_lines(Register::THAT), s, symbols);
    lemma_register_to_stack(s4, Register::THAT, symbols);
    let tail = enter_lines(function, args, k);
    assert(call_lines(function, args, k) =~= c5 + tail);
    lemma_run_concat(c5, tail, s, symbols);
    lemma_enter(s5, function, args, k, symbols);
    let t = run(call_lines(function, args, k), s, symbols);
    assert((s1.ram)(sp) == symbols(return_label(function, k)));
    assert((s2.ram)(sp + 1) == s.register(Register::LCL));
    assert((s3.ram)(sp + 2) == s.register(Register::ARG));
    assert((s4.ram)(sp + 3) == s.register(Register::THIS));
    assert((s5.ram)(sp + 4) == s.register(Register::THAT));
    assert(s5.register(Register::SP) == sp + 5);
}

/// The start of a program sets `SP` to 256 and calls `Sys.init` without
/// arguments: the frame stands in the cells from 256 on, and `SP` and
/// `LCL` hold 261, `ARG` 256.
pub proof fn lemma_prologue(s: State, symbols: spec_fn(Seq<char>) -> int)
    ensures
        ({
            let t = run(stack_init_lines() + call_lines("Sys.init"@, 0, 0), s, symbols);
            &&& (t.ram)(256) == symbols(return_label("Sys.init"@, 0))
            &&& (t.ram)(257) == s.register(Register::LCL)
            &&& (t.ram)(258) == s.register(Register::ARG)
            &&& (t.ram)(259) == s.register(Register::THIS)
            &&& (t.ram)(260) == s.register(Register::THAT)
            &&& t.register(Register::SP) == 261
            &&& t.register(Register::LCL) == 261
            &&& t.register(Register::ARG) == 256
            &&& t.a == symbols("Sys.init"@)
        }),
{
    lemma_stack_init(s, symbols);
    let s0 = run(stack_init_lines(), s, symbols);
    lemma_run_concat(stack_init_lines(), call_lines("Sys.init"@, 0, 0), s, symbols);
    lemma_call(s0, "Sys.init"@, 0, 0, symbols);
}

/// The command `call` is carried out by the lines of a call with the next
/// return label.
pub proof fn lemma_call_command(
    s: State,
    function: Seq<char>,
    args: u16,
    file: Seq<char>,
    label_value: u16,
    call_label: u16,
    symbols: spec_fn(Seq<char>) -> int,
)
    requires
        args <= 32767,
        16 <= s.register(Register::SP),
        args <= s.register(Register::SP),
        s.register(Register::SP) + 5 < 65536,
    ensures
        called(
            s,
            run(
                (Operation::Call { name: function, args }).lines(file, label_value, call_label),
                s,
                symbols,
            ),
            function,
            args,
            call_label,
            symbols,
        ),
{
    lemma_call(s, function, args, call_label, symbols);
}

/// Tells whether the frame of the function that runs stands where a call
/// has put it: `ARG` is no named cell, the five cells of the frame come
/// after it and end before `LCL`, and the stack holds at least one value
/// after the frame.
pub open spec fn in_frame(s: State) -> bool {
    let sp = s.register(Register::SP);
    let lcl = s.register(Register::LCL);
    let arg = s.register(Register::ARG);
    16 <= arg && arg + 5 <= lcl && lcl < sp && sp < 65536
}

proof fn lemma_save_frame(s: State, symbols: spec_fn(Seq<char>) -> int)
    requires
        21 <= s.register(Register::LCL) < 65536,
    ensures
        ({
            let lcl = s.register(Register::LCL);
            let t = run(save_frame_lines(), s, symbols);
            &&& t.register(Register::R15) == lcl
            &&& t.register(Register::R14) == (s.ram)(lcl - 5)
            &&& same_memory_but(s, t, set![14, 15])
        }),
{
    reveal_with_fuel(run_from, 10);
}

proof fn lemma_hand_back(s: State, symbols: spec_fn(Seq<char>) -> int)
    requires
        16 <= s.register(Register::ARG) < 65535,
        17 <= s.register(Register::SP) < 65536,
    ensures
        ({
            let sp = s.register(Register::SP);
            let arg = s.register(Register::ARG);
            let t = run(hand_back_lines(), s, symbols);
            &&& (t.ram)(arg) == (s.ram)(sp - 1)
            &&& t.register(Register::SP) == arg + 1
            &&& same_memory_but(s, t, set![0, arg])
        }),
{
    reveal_with_fuel(run_from, 11);
}

proof fn lemma_restore(s: State, r: Register, back: u16, symbols: spec_fn(Seq<char>) -> int)
    requires
        back <= 4,
        20 <= s.register(Register::R15) < 65536,
        1 <= r.address() <= 4,
    ensures
        ({
            let frame = s.register(Register::R15);
            let t = run(restore_lines(r, back), s, symbols);
            &&& t.register(r) == (s.ram)(frame - back)
            &&& same_memory_but(s, t, set![r.address()])
        }),
{
    reveal_with_fuel(run_from, 8);
}

proof fn lemma_jump_back(s: State, symbols: spec_fn(Seq<char>) -> int)
    ensures
        ({
            let t = run(jump_back_lines(), s, symbols);
            &&& t.a == s.register(Register::R14)
            &&& t.ram == s.ram
        }),
{
    reveal_with_fuel(run_from, 4);
}

/// What a return is to leave behind: the value that was on top of the
/// stack where the first argument stood, `SP` after it, the caller's
/// `THAT`, `THIS`, `ARG` and `LCL` from the four cells before the frame's
/// end, and `A` at the return address, the fifth.
pub open spec fn returned(s: State, t: State) -> bool {
    let sp = s.register(Register::SP);
    let frame = s.register(Register::LCL);
    let arg = s.register(Register::ARG);
    &&& (t.ram)(arg) == (s.ram)(sp - 1)
    &&& t.register(Register::SP) == arg + 1
    &&& t.register(Register::THAT) == (s.ram)(frame - 1)
    &&& t.register(Register::THIS) == (s.ram)(frame - 2)
    &&& t.register(Register::ARG) == (s.ram)(frame - 3)
    &&& t.register(Register::LCL) == (s.ram)(frame - 4)
    &&& t.a == (s.ram)(frame - 5)
    &&& same_memory_but(s, t, set![0, 1, 2, 3, 4, 14, 15, arg])
}

/// The command `return` is carried out by the lines of a return.
pub proof fn lemma_return_command(
    s: State,
    file: Seq<char>,
    label_value: u16,
    call_label: u16,
    symbols: spec_fn(Seq<char>) -> int,
)
    requires
        in_frame(s),
    ensures
        returned(s, run(Operation::Return.lines(file, label_value, call_label), s, symbols)),
{
    lemma_return(s, symbols);
}

/// A return hands the topmost value back, sets `SP` to `ARG + 1`, restores
/// `THAT`, `THIS`, `ARG` and `LCL` from the frame, and jumps to the return
/// address.
pub proof fn lemma_return(s: State, symbols: spec_fn(Seq<char>) -> int)
    requires
        in_frame(s),
    ensures
        returned(s, run(return_lines(), s, symbols)),
        return_lines().last() == Line::Compute(Dest::Null, Comp::Zero, Jump::JMP),
{
    let c1 = save_frame_lines();
    let s1 = run(c1, s, symbols);
    lemma_save_frame(s, symbols);
    let c2 = c1 + hand_back_lines();
    let s2 = run(c2, s, symbols);
    lemma_run_concat(c1, hand_back_lines(), s, symbols);
    lemma_hand_back(s1, symbols);
    let c3 = c2 + restore_lines(Register::THAT, 1);
    let s3 = run(c3, s, symbols);
    lemma_run_concat(c2, restore_lines(Register::THAT, 1), s, symbols);
    lemma_restore(s2, Register::THAT, 1, symbols);
    let c4 = c3 + restore_lines(Register::THIS, 2);
    let s4 = run(c4, s, symbols);
    lemma_run_concat(c3, restore_lines(Register::THIS, 2), s, symbols);
    lemma_restore(s3, Register::THIS, 2, symbols);
    let c5 = c4 + restore_lines(Register::ARG, 3);
    let s5 = run(c5, s, symbols);
    lemma_run_concat(c4, restore_lines(Register::ARG, 3), s, symbols);
    lemma_restore(s4, Register::ARG, 3, symbols);
    let c6 = c5 + restore_lines(Register::LCL, 4);
    let s6 = run(c6, s, symbols);
    lemma_run_concat(c5, restore_lines(Register::LCL, 4), s, symbols);
    lemma_restore(s5, Register::LCL, 4, symbols);
    assert(return_lines() =~= c6 + jump_back_lines());
    lemma_run_concat(c6, jump_back_lines(), s, symbols);
    lemma_jump_back(s6, symbols);
    let frame = s.register(Register::LCL);
    assert((s2.ram)(frame - 1) == (s.ram)(frame - 1));
    assert((s3.ram)(frame - 2) == (s.ram)(frame - 2));
    assert((s4.ram)(frame - 3) == (s.ram)(frame - 3));
    assert((s5.ram)(frame - 4) == (s.ram)(frame - 4));
    assert(return_lines().last() == jump_back_lines().last());
}

} // verus!
