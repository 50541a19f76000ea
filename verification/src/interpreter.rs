//! What a step and a run of the machine are, as functions on its state.

use crate::decimal::decimal;
use crate::decimal::push_decimal;
use crate::instruction::Instruction;
use crate::BM_STACK_CAPACITY;
use crate::Word;
use vstd::prelude::*;
use vstd::string::StringExecFns;

verus! {

/// Why a step could not be taken.
#[derive(Debug, Clone, Copy, PartialEq, Eq, Structural)]
pub enum InterpreterErr {
    /// The instruction needs a free cell and the stack is full.
    StackOverflow,
    /// The instruction needs more cells than the stack holds.
    StackUnderflow,
    /// `Div` found 0 on top of the stack.
    DivideByZero,
    /// The instruction pointer, given here, lies outside the program.
    IllegalInstructionAccess(Word),
    /// `Dup` has a negative operand.
    IllegalOperand,
}

impl InterpreterErr {
    /// The error in words.
    pub open spec fn text(self) -> Seq<char> {
        match self {
            InterpreterErr::StackOverflow => "Err::StackOverflow"@,
            InterpreterErr::StackUnderflow => "Err::StackUnderflow"@,
            InterpreterErr::DivideByZero => "Err::DivideByZero"@,
            InterpreterErr::IllegalInstructionAccess(ip) => "Err::IllegalInstructionAccess("@
                + decimal(ip as int) + ")"@,
            InterpreterErr::IllegalOperand => "Err::IllegalOperand"@,
        }
    }

    /// The error in words.
    pub fn message(&self) -> (text: String)
        ensures
            text@ == self.text(),
    {
        match self {
            InterpreterErr::StackOverflow => String::from_str("Err::StackOverflow"),
            InterpreterErr::StackUnderflow => String::from_str("Err::StackUnderflow"),
            InterpreterErr::DivideByZero => String::from_str("Err::DivideByZero"),
            InterpreterErr::IllegalInstructionAccess(ip) => {
                let mut text = String::from_str("Err::IllegalInstructionAccess(");
                push_decimal(&mut text, *ip);
                text.append(")");
                text
            },
            InterpreterErr::IllegalOperand => String::from_str("Err::IllegalOperand"),
        }
    }
}

/// The state of a machine: the evaluation stack with its top at the end, the
/// loaded program, the index of the instruction to execute next, and whether
/// the machine has stopped.
pub struct MachineState {
    pub stack: Seq<Word>,
    pub program: Seq<Instruction>,
    pub ip: Word,
    pub halted: bool,
}

/// What a successful step leaves: the next state, and the value that
/// `PrintDebug` handed out, if that was the instruction.
pub struct Stepped {
    pub state: MachineState,
    pub emitted: Option<Word>,
}

/// What a run leaves: the state it ended in, the values handed out on the
/// way in their order, the error that ended it, if one did, and the number
/// of steps taken.
pub struct Run {
    pub state: MachineState,
    pub emitted: Seq<Word>,
    pub error: Option<InterpreterErr>,
    pub steps: nat,
}

/// The word that equals `x` modulo 2^64: what two's complement arithmetic
/// keeps of a result.
pub open spec fn wrap(x: int) -> Word {
    let r = x % 0x1_0000_0000_0000_0000;
    if r > Word::MAX {
        (r - 0x1_0000_0000_0000_0000) as Word
    } else {
        r as Word
    }
}

/// `a` divided by `b`, rounded toward zero.
pub open spec fn quotient(a: int, b: int) -> int
    recommends
        b != 0,
{
    if a >= 0 && b > 0 {
        a / b
    } else if a >= 0 {
        -(a / (-b))
    } else if b > 0 {
        -((-a) / b)
    } else {
        (-a) / (-b)
    }
}

/// What an arithmetic or comparing instruction leaves in place of `a`, the
/// lower of the two topmost cells, and `b`, the top. Sums, differences and
/// products wrap; so does the one quotient that does not fit.
pub open spec fn binary_result(inst: Instruction, a: Word, b: Word) -> Word {
    match inst {
        Instruction::Plus => wrap(a + b),
        Instruction::Minus => wrap(a - b),
        Instruction::Mult => wrap(a * b),
        Instruction::Div => wrap(quotient(a as int, b as int)),
        _ => if a == b {
            1
        } else {
            0
        },
    }
}

impl MachineState {
    /// The stack is within its capacity, every address fits a word, no jump
    /// of the program lacks its address, and a stopped machine rests on the
    /// `Halt` that stopped it.
    pub open spec fn wf(self) -> bool {
        &&& self.stack.len() <= BM_STACK_CAPACITY
        &&& self.program.len() <= Word::MAX
        &&& forall|i: int| 0 <= i < self.program.len() ==> (#[trigger] self.program[i]).resolved()
        &&& self.halted ==> 0 <= self.ip < self.program.len() && self.program[self.ip as int]
            == Instruction::Halt
    }

    /// The state with `stack` for its stack and the instruction pointer
    /// moved on by one.
    pub open spec fn advanced(self, stack: Seq<Word>) -> MachineState {
        MachineState { stack, ip: (self.ip + 1) as Word, ..self }
    }

    /// The state with `stack` for its stack and the instruction pointer at
    /// `addr`.
    pub open spec fn moved(self, addr: Word, stack: Seq<Word>) -> MachineState {
        MachineState { stack, ip: addr, ..self }
    }

    /// One step. It fails without any effect, or succeeds as a whole.
    ///
    /// `Dup` looks at its operand first, then at the depth, then at the
    /// room that is left. `JumpIf` takes the top off only when it jumps.
    /// A program that is `wf` holds no jump without an address, so that
    /// `unwrap` always finds one.
    pub open spec fn step(self) -> Result<Stepped, InterpreterErr> {
        if self.ip < 0 || self.program.len() <= self.ip {
            Err(InterpreterErr::IllegalInstructionAccess(self.ip))
        } else {
            let inst = self.program[self.ip as int];
            let depth = self.stack.len() as int;
            match inst {
                Instruction::Nop => Ok(Stepped { state: self.advanced(self.stack), emitted: None }),
                Instruction::Push(v) => if depth >= BM_STACK_CAPACITY {
                    Err(InterpreterErr::StackOverflow)
                } else {
                    Ok(Stepped { state: self.advanced(self.stack.push(v)), emitted: None })
                },
                Instruction::Dup(n) => if n < 0 {
                    Err(InterpreterErr::IllegalOperand)
                } else if depth <= n {
                    Err(InterpreterErr::StackUnderflow)
                } else if depth >= BM_STACK_CAPACITY {
                    Err(InterpreterErr::StackOverflow)
                } else {
                    Ok(
                        Stepped {
                            state: self.advanced(self.stack.push(self.stack[depth - 1 - n])),
                            emitted: None,
                        },
                    )
                },
                Instruction::Plus
                | Instruction::Minus
                | Instruction::Mult
                | Instruction::Div
                | Instruction::Eq => if depth < 2 {
                    Err(InterpreterErr::StackUnderflow)
                } else if inst == Instruction::Div && self.stack[depth - 1] == 0 {
                    Err(InterpreterErr::DivideByZero)
                } else {
                    let value = binary_result(inst, self.stack[depth - 2], self.stack[depth - 1]);
                    Ok(
                        Stepped {
                            state: self.advanced(self.stack.take(depth - 2).push(value)),
                            emitted: None,
                        },
                    )
                },
                Instruction::Jump(addr) => Ok(
                    Stepped { state: self.moved(addr.unwrap(), self.stack), emitted: None },
                ),
                Instruction::JumpIf(addr) => if depth < 1 {
                    Err(InterpreterErr::StackUnderflow)
                } else if self.stack[depth - 1] == 1 {
                    Ok(
                        Stepped {
                            state: self.moved(addr.unwrap(), self.stack.drop_last()),
                            emitted: None,
                        },
                    )
                } else {
                    Ok(Stepped { state: self.advanced(self.stack), emitted: None })
                },
                Instruction::Halt => Ok(
                    Stepped { state: MachineState { halted: true, ..self }, emitted: None },
                ),
                Instruction::PrintDebug => if depth < 1 {
                    Err(InterpreterErr::StackUnderflow)
                } else {
                    Ok(
                        Stepped {
                            state: self.advanced(self.stack.drop_last()),
                            emitted: Some(self.stack[depth - 1]),
                        },
                    )
                },
            }
        }
    }

    /// The instruction at the instruction pointer, if there is one.
    pub open spec fn fetch(self) -> Option<Instruction> {
        if 0 <= self.ip < self.program.len() {
            Some(self.program[self.ip as int])
        } else {
            None
        }
    }

    /// The step that comes next, if it succeeds, makes the stack deeper by
    /// one: it is a `Push` or a `Dup`.
    pub open spec fn grows(self) -> bool {
        self.fetch() matches Some(inst) && (inst is Push || inst is Dup)
    }

    /// The step that comes next, if it succeeds, makes the stack less deep
    /// by one: it computes, compares or hands out, or it is a `JumpIf` that
    /// finds 1 on top.
    pub open spec fn shrinks(self) -> bool {
        self.fetch() matches Some(inst) && match inst {
            Instruction::Plus => true,
            Instruction::Minus => true,
            Instruction::Mult => true,
            Instruction::Div => true,
            Instruction::Eq => true,
            Instruction::PrintDebug => true,
            Instruction::JumpIf(_) => self.stack.len() > 0 && self.stack.last() == 1,
            _ => false,
        }
    }

    /// By how much the step that comes next, if it succeeds, changes the
    /// depth of the stack.
    pub open spec fn depth_change(self) -> int {
        if self.grows() {
            1
        } else if self.shrinks() {
            -1
        } else {
            0
        }
    }

    /// How many of the first `n` steps from here made the stack deeper.
    /// Steps after one that fails do not count.
    pub open spec fn growing_steps(self, n: nat) -> nat
        decreases n,
    {
        if n == 0 {
            0
        } else {
            match self.step() {
                Err(_) => 0,
                Ok(s) => s.state.growing_steps((n - 1) as nat) + if self.grows() {
                    1nat
                } else {
                    0nat
                },
            }
        }
    }

    /// How many of the first `n` steps from here made the stack less deep.
    /// Steps after one that fails do not count.
    pub open spec fn shrinking_steps(self, n: nat) -> nat
        decreases n,
    {
        if n == 0 {
            0
        } else {
            match self.step() {
                Err(_) => 0,
                Ok(s) => s.state.shrinking_steps((n - 1) as nat) + if self.shrinks() {
                    1nat
                } else {
                    0nat
                },
            }
        }
    }

    /// A run of at most `fuel` steps: it ends at once where the machine has
    /// stopped or no step is left to take, and with the first step that
    /// fails, in the state that step found.
    pub open spec fn run(self, fuel: nat) -> Run
        decreases fuel,
    {
        if fuel == 0 || self.halted {
            Run { state: self, emitted: Seq::empty(), error: None, steps: 0 }
        } else {
            match self.step() {
                Err(e) => Run { state: self, emitted: Seq::empty(), error: Some(e), steps: 0 },
                Ok(s) => {
                    let rest = s.state.run((fuel - 1) as nat);
                    Run {
                        state: rest.state,
                        emitted: emitted_seq(s.emitted) + rest.emitted,
                        error: rest.error,
                        steps: rest.steps + 1,
                    }
                },
            }
        }
    }
}

/// A step that succeeds leaves a state that is `wf` with the same program,
/// and a stack that is deeper by one, less deep by one, or as deep as
/// before, as `grows` and `shrinks` tell.
pub proof fn lemma_step_depth(m: MachineState)
    requires
        m.wf(),
    ensures
        m.step() matches Ok(s) ==> s.state.wf() && s.state.program == m.program
            && s.state.stack.len() == m.stack.len() + m.depth_change(),
{
}

/// After any run the stack is as deep as it was before, plus the number of
/// steps that made it deeper, minus the number of steps that made it less
/// deep; and the depth is within the capacity.
pub proof fn lemma_run_depth(m: MachineState, fuel: nat)
    requires
        m.wf(),
    ensures
        m.run(fuel).state.wf(),
        m.run(fuel).state.program == m.program,
        m.run(fuel).steps <= fuel,
        0 <= m.run(fuel).state.stack.len() <= BM_STACK_CAPACITY,
        m.run(fuel).state.stack.len() == m.stack.len() + m.growing_steps(m.run(fuel).steps)
            - m.shrinking_steps(m.run(fuel).steps),
    decreases fuel,
{
    if fuel > 0 && !m.halted {
        lemma_step_depth(m);
        if let Ok(s) = m.step() {
            lemma_run_depth(s.state, (fuel - 1) as nat);
        }
    }
}

/// `JumpIf` jumps exactly if the top is 1, and takes the top off only
/// then: any other top, 0 too, stays, and the next instruction follows.
pub proof fn lemma_jump_if(m: MachineState, addr: Word)
    requires
        m.fetch() == Some(Instruction::JumpIf(Some(addr))),
        m.stack.len() >= 1,
    ensures
        m.stack.last() == 1 ==> m.step() == Ok::<Stepped, InterpreterErr>(
            Stepped {
                state: MachineState { stack: m.stack.drop_last(), ip: addr, ..m },
                emitted: None,
            },
        ),
        m.stack.last() != 1 ==> m.step() == Ok::<Stepped, InterpreterErr>(
            Stepped { state: MachineState { ip: (m.ip + 1) as Word, ..m }, emitted: None },
        ),
{
}

/// `Div` on a stack that ends in `a`, `b`: with `b` 0 it fails; else it
/// leaves the quotient in place of the two and the next instruction
/// follows.
pub proof fn lemma_div(m: MachineState, a: Word, b: Word)
    requires
        m.fetch() == Some(Instruction::Div),
        m.stack.len() >= 2,
        m.stack[m.stack.len() - 2] == a,
        m.stack.last() == b,
    ensures
        b == 0 ==> m.step() == Err::<Stepped, InterpreterErr>(InterpreterErr::DivideByZero),
        b != 0 ==> m.step() == Ok::<Stepped, InterpreterErr>(
            Stepped {
                state: MachineState {
                    stack: m.stack.take(m.stack.len() - 2).push(
                        wrap(quotient(a as int, b as int)),
                    ),
                    ip: (m.ip + 1) as Word,
                    ..m
                },
                emitted: None,
            },
        ),
{
}

/// A run of no steps changes nothing, hands out nothing and fails on
/// nothing.
pub proof fn lemma_run_of_no_steps(m: MachineState)
    ensures
        m.run(0) == (Run { state: m, emitted: Seq::empty(), error: None, steps: 0 }),
{
}

/// A machine that has stopped stays as it is: a step finds the `Halt` that
/// stopped it, and a run takes no step.
pub proof fn lemma_halted_stays(m: MachineState, fuel: nat)
    requires
        m.wf(),
        m.halted,
    ensures
        m.step() == Ok::<Stepped, InterpreterErr>(Stepped { state: m, emitted: None }),
        m.run(fuel) == (Run { state: m, emitted: Seq::empty(), error: None, steps: 0 }),
{
}

/// Within one range of 2^64 on either side of the words, wrapping adds or
/// takes away 2^64 once, or nothing.
pub proof fn lemma_wrap_near(x: int)
    requires
        -0x1_0000_0000_0000_0000 <= x < 0x1_0000_0000_0000_0000,
    ensures
        wrap(x) == if x > Word::MAX {
            x - 0x1_0000_0000_0000_0000
        } else if x < Word::MIN {
            x + 0x1_0000_0000_0000_0000
        } else {
            x
        },
{
}

/// Division rounds toward zero: what is left over has the sign of the
/// dividend and is smaller in size than the divisor, and the quotient is
/// no larger in size than the dividend.
pub proof fn lemma_quotient_truncates(a: int, b: int)
    requires
        b != 0,
    ensures
        ({
            let q = quotient(a, b);
            let r = a - q * b;
            &&& a >= 0 ==> 0 <= r
            &&& a <= 0 ==> r <= 0
            &&& b > 0 ==> -b < r < b
            &&& b < 0 ==> b < r < -b
            &&& a >= 0 ==> -a <= q <= a
            &&& a <= 0 ==> a <= q <= -a
        }),
{
    let x = if a >= 0 {
        a
    } else {
        -a
    };
    let d = if b > 0 {
        b
    } else {
        -b
    };
    vstd::arithmetic::div_mod::lemma_fundamental_div_mod(x, d);
    vstd::arithmetic::div_mod::lemma_mod_bound(x, d);
    vstd::arithmetic::div_mod::lemma_div_pos_is_pos(x, d);
    vstd::arithmetic::div_mod::lemma_div_nonincreasing(x, d);
    let k = x / d;
    assert(d * k == k * d) by (nonlinear_arith);
    assert((-k) * b == -(k * b)) by (nonlinear_arith);
    assert(k * (-b) == -(k * b)) by (nonlinear_arith);
    assert((-k) * (-b) == k * b) by (nonlinear_arith);
}

/// The quotient of two words is a word, but for the least word divided by
/// -1: that quotient wraps to the least word.
pub proof fn lemma_quotient_fits(a: Word, b: Word)
    requires
        b != 0,
    ensures
        a == Word::MIN && b == -1 ==> wrap(quotient(a as int, b as int)) == Word::MIN,
        !(a == Word::MIN && b == -1) ==> Word::MIN <= quotient(a as int, b as int) <= Word::MAX
            && wrap(quotient(a as int, b as int)) == quotient(a as int, b as int),
{
    lemma_quotient_truncates(a as int, b as int);
    let q = quotient(a as int, b as int);
    if a == Word::MIN {
        if b == -1 {
            assert(q == 0x8000_0000_0000_0000) by {
                vstd::arithmetic::div_mod::lemma_div_basics_2(-(a as int));
            }
        } else if b < 0 {
            vstd::arithmetic::div_mod::lemma_div_is_ordered_by_denominator(-(a as int), 2, -(b as int));
        }
    }
    lemma_wrap_near(q);
}

/// The values that one step handed out: one or none.
pub open spec fn emitted_seq(emitted: Option<Word>) -> Seq<Word> {
    match emitted {
        Some(v) => seq![v],
        None => Seq::empty(),
    }
}

} // verus!
