//! The Hack machine: what the lines of an assembly program do to its
//! registers and its memory.
//!
//! A state holds words of sixteen bits as numbers from 0 to 65535. The
//! effect of a stretch of lines is that of its lines one after the other;
//! where a line jumps is not part of it.

use crate::hack::{Comp, Dest, Jump, Line, Register};
use vstd::prelude::*;

verus! {

/// The registers `A` and `D` and the memory.
pub struct State {
    pub a: int,
    pub d: int,
    pub ram: spec_fn(int) -> int,
}

/// The word that a number is, as the machine counts: modulo 65536.
pub open spec fn word(x: int) -> int {
    x % 65536
}

impl State {
    /// The memory cell that `A` addresses.
    pub open spec fn m(self) -> int {
        (self.ram)(self.a)
    }

    /// What a named cell holds.
    pub open spec fn register(self, r: Register) -> int {
        (self.ram)(r.address())
    }

    /// The state with `value` in the memory cell `address`.
    pub open spec fn store(self, address: int, value: int) -> State {
        State {
            ram: |x: int|
                if x == address {
                    value
                } else {
                    (self.ram)(x)
                },
            ..self
        }
    }
}

impl Dest {
    /// Tells whether the result goes to `A`.
    pub open spec fn has_a(self) -> bool {
        self == Dest::A || self == Dest::AM || self == Dest::AD || self == Dest::AMD
    }

    /// Tells whether the result goes to `D`.
    pub open spec fn has_d(self) -> bool {
        self == Dest::D || self == Dest::MD || self == Dest::AD || self == Dest::AMD
    }

    /// Tells whether the result goes to the memory cell that `A` addresses.
    pub open spec fn has_m(self) -> bool {
        self == Dest::M || self == Dest::MD || self == Dest::AM || self == Dest::AMD
    }
}

impl Comp {
    /// What the computation gives in a state.
    pub open spec fn value(self, s: State) -> int {
        match self {
            Comp::Zero => 0,
            Comp::One => 1,
            Comp::MinusOne => 65535,
            Comp::D => s.d,
            Comp::A => s.a,
            Comp::M => s.m(),
            Comp::NotD => 65535 - s.d,
            Comp::NotA => 65535 - s.a,
            Comp::NotM => 65535 - s.m(),
            Comp::NegD => word(-s.d),
            Comp::NegA => word(-s.a),
            Comp::NegM => word(-s.m()),
            Comp::DPlusOne => word(s.d + 1),
            Comp::APlusOne => word(s.a + 1),
            Comp::MPlusOne => word(s.m() + 1),
            Comp::DMinusOne => word(s.d - 1),
            Comp::AMinusOne => word(s.a - 1),
            Comp::MMinusOne => word(s.m() - 1),
            Comp::DPlusA => word(s.d + s.a),
            Comp::DPlusM => word(s.d + s.m()),
            Comp::DMinusA => word(s.d - s.a),
            Comp::DMinusM => word(s.d - s.m()),
            Comp::AMinusD => word(s.a - s.d),
            Comp::MMinusD => word(s.m() - s.d),
            Comp::DAndA => ((s.d as u16) & (s.a as u16)) as int,
            Comp::DAndM => ((s.d as u16) & (s.m() as u16)) as int,
            Comp::DOrA => ((s.d as u16) | (s.a as u16)) as int,
            Comp::DOrM => ((s.d as u16) | (s.m() as u16)) as int,
        }
    }
}

impl Jump {
    /// Tells whether the jump is taken where the computation gives `value`,
    /// a word that stands for a number from -32768 to 32767.
    pub open spec fn taken(self, value: int) -> bool {
        let negative = value >= 32768;
        let zero = value == 0;
        match self {
            Jump::Null => false,
            Jump::JGT => !negative && !zero,
            Jump::JEQ => zero,
            Jump::JGE => !negative,
            Jump::JLT => negative,
            Jump::JNE => !zero,
            Jump::JLE => negative || zero,
            Jump::JMP => true,
        }
    }
}

/// The state after a line, where `symbols` gives the address of each
/// symbol. A label does nothing, and a jump changes no register.
pub open spec fn step(line: Line, s: State, symbols: spec_fn(Seq<char>) -> int) -> State {
    match line {
        Line::Register(r) => State { a: r.address(), ..s },
        Line::Number(n) => State { a: n as int, ..s },
        Line::Symbol(name) => State { a: symbols(name), ..s },
        Line::Label(_) => s,
        Line::Compute(dest, comp, _) => {
            let value = comp.value(s);
            let stored = if dest.has_m() {
                s.store(s.a, value)
            } else {
                s
            };
            State {
                a: if dest.has_a() {
                    value
                } else {
                    s.a
                },
                d: if dest.has_d() {
                    value
                } else {
                    s.d
                },
                ram: stored.ram,
            }
        },
    }
}

/// The state after the lines of `code` from the `i`-th on, one after the
/// other.
pub open spec fn run_from(
    code: Seq<Line>,
    i: int,
    s: State,
    symbols: spec_fn(Seq<char>) -> int,
) -> State
    decreases code.len() - i,
{
    if i < 0 || i >= code.len() {
        s
    } else {
        run_from(code, i + 1, step(code[i], s, symbols), symbols)
    }
}

/// The state after the lines of `code`, one after the other.
pub open spec fn run(code: Seq<Line>, s: State, symbols: spec_fn(Seq<char>) -> int) -> State {
    run_from(code, 0, s, symbols)
}

/// The place of the line that comes after the line at `pc`: the place
/// that `A` holds where the line jumps, else the next place. Places count
/// the lines of `code`, labels too.
pub open spec fn next(code: Seq<Line>, pc: int, s: State) -> int {
    match code[pc] {
        Line::Compute(_, comp, jump) => if jump.taken(comp.value(s)) {
            s.a
        } else {
            pc + 1
        },
        _ => pc + 1,
    }
}

/// The place and the state after at most `n` lines of `code` from the
/// place `pc` on, where each line is followed by the one at the place that
/// `next` gives; the walk ends where it leaves the code.
pub open spec fn walk(
    code: Seq<Line>,
    pc: int,
    s: State,
    symbols: spec_fn(Seq<char>) -> int,
    n: nat,
) -> (int, State)
    decreases n,
{
    if n == 0 || pc < 0 || pc >= code.len() {
        (pc, s)
    } else {
        walk(code, next(code, pc, s), step(code[pc], s, symbols), symbols, (n - 1) as nat)
    }
}

proof fn lemma_run_from_concat(
    a: Seq<Line>,
    b: Seq<Line>,
    i: int,
    s: State,
    symbols: spec_fn(Seq<char>) -> int,
)
    requires
        0 <= i <= a.len(),
    ensures
        run_from(a + b, i, s, symbols) == run(b, run_from(a, i, s, symbols), symbols),
    decreases a.len() - i,
{
    if i < a.len() {
        assert((a + b)[i] == a[i]);
        lemma_run_from_concat(a, b, i + 1, step(a[i], s, symbols), symbols);
    } else {
        lemma_run_from_shift(a, b, 0, s, symbols);
    }
}

proof fn lemma_run_from_shift(
    a: Seq<Line>,
    b: Seq<Line>,
    j: int,
    s: State,
    symbols: spec_fn(Seq<char>) -> int,
)
    requires
        0 <= j <= b.len(),
    ensures
        run_from(a + b, a.len() + j, s, symbols) == run_from(b, j, s, symbols),
    decreases b.len() - j,
{
    if j < b.len() {
        assert((a + b)[a.len() + j] == b[j]);
        lemma_run_from_shift(a, b, j + 1, step(b[j], s, symbols), symbols);
    }
}

/// The effect of two stretches in a row is the effect of the second on
/// what the first leaves.
pub proof fn lemma_run_concat(
    a: Seq<Line>,
    b: Seq<Line>,
    s: State,
    symbols: spec_fn(Seq<char>) -> int,
)
    ensures
        run(a + b, s, symbols) == run(b, run(a, s, symbols), symbols),
{
    lemma_run_from_concat(a, b, 0, s, symbols);
}

} // verus!
