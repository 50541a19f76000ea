//! The machine itself: its state, and the functions that load and run it.

use crate::assembler::assemble;
use crate::assembler::assembly_of;
use crate::assembler::BasmCtx;
use crate::decimal::decimal;
use crate::decimal::push_decimal;
use crate::instruction::Instruction;
use crate::instruction::listing;
use crate::interpreter::binary_result;
use crate::interpreter::emitted_seq;
use crate::interpreter::InterpreterErr;
use crate::interpreter::lemma_quotient_fits;
use crate::interpreter::lemma_wrap_near;
use crate::interpreter::MachineState;
use crate::interpreter::quotient;
use crate::parser::InstructionParseErr;
use crate::BM_PROGRAM_CAPACITY;
use crate::BM_STACK_CAPACITY;
use crate::Word;
use vstd::prelude::*;
use vstd::slice::slice_to_vec;
use vstd::string::StringExecFns;

verus! {

/// One machine. It owns its stack and its program.
#[derive(Debug)]
pub struct BM {
    stack: Vec<Word>,
    halt: bool,
    program: Vec<Instruction>,
    ip: Word,
}

impl View for BM {
    type V = MachineState;

    closed spec fn view(&self) -> MachineState {
        MachineState { stack: self.stack@, program: self.program@, ip: self.ip, halted: self.halt }
    }
}

impl Default for BM {
    /// A machine with no program and an empty stack, ready to run from
    /// address 0.
    fn default() -> (bm: Self)
        ensures
            bm.wf(),
            bm@ == (MachineState {
                stack: Seq::empty(),
                program: Seq::empty(),
                ip: 0,
                halted: false,
            }),
    {
        BM {
            stack: Vec::with_capacity(BM_STACK_CAPACITY),
            halt: false,
            program: Vec::with_capacity(BM_PROGRAM_CAPACITY),
            ip: 0,
        }
    }
}

impl BM {
    /// The state is one that the functions below can work on.
    pub open spec fn wf(&self) -> bool {
        self@.wf()
    }

    /// Tells whether the machine has stopped.
    pub fn is_halted(&self) -> (halted: bool)
        ensures
            halted == self@.halted,
    {
        self.halt
    }

    /// The evaluation stack, its top at the end.
    pub fn stack(&self) -> (stack: &Vec<Word>)
        ensures
            stack@ == self@.stack,
    {
        &self.stack
    }

    /// The loaded program.
    pub fn program(&self) -> (program: &Vec<Instruction>)
        ensures
            program@ == self@.program,
    {
        &self.program
    }

    /// The address of the instruction to execute next.
    pub fn ip(&self) -> (ip: Word)
        ensures
            ip == self@.ip,
    {
        self.ip
    }

    /// Appends one instruction to the program. The program must have room
    /// for it, and a jump must come with its address.
    pub fn push_inst(&mut self, inst: Instruction)
        requires
            old(self).wf(),
            old(self)@.program.len() < BM_PROGRAM_CAPACITY,
            inst.resolved(),
        ensures
            final(self).wf(),
            final(self)@ == (MachineState {
                program: old(self)@.program.push(inst),
                ..old(self)@
            }),
    {
        self.program.push(inst);
    }

    /// Replaces the program by a copy of `program` and makes the machine
    /// ready to run it from address 0. The stack stays as it is. The
    /// program must fit the capacity, and its jumps must have their
    /// addresses.
    pub fn load_program_from_memory(&mut self, program: &[Instruction])
        requires
            old(self).wf(),
            program@.len() <= BM_PROGRAM_CAPACITY,
            forall|i: int| 0 <= i < program@.len() ==> (#[trigger] program@[i]).resolved(),
        ensures
            final(self).wf(),
            final(self)@ == (MachineState {
                stack: old(self)@.stack,
                program: program@,
                ip: 0,
                halted: false,
            }),
    {
        self.program = slice_to_vec(program);
        self.ip = 0;
        self.halt = false;
    }

    /// Executes the instruction at the instruction pointer. On success the
    /// result holds the value that `PrintDebug` took off the stack, if that
    /// was the instruction; on failure the machine is as it was.
    pub fn execute_instruction(&mut self) -> (r: Result<Option<Word>, InterpreterErr>)
        requires
            old(self).wf(),
        ensures
            final(self).wf(),
            match old(self)@.step() {
                Ok(s) => r == Ok::<Option<Word>, InterpreterErr>(s.emitted) && final(self)@
                    == s.state,
                Err(e) => r == Err::<Option<Word>, InterpreterErr>(e) && final(self)@ == old(
                    self,
                )@,
            },
    {
        if self.ip < 0 || self.program.len() as Word <= self.ip {
            return Err(InterpreterErr::IllegalInstructionAccess(self.ip));
        }
        let inst = self.program[self.ip as usize];
        let depth = self.stack.len();
        match inst {
            Instruction::Nop => {
                self.ip += 1;
                Ok(None)
            },
            Instruction::Push(v) => {
                if depth >= BM_STACK_CAPACITY {
                    return Err(InterpreterErr::StackOverflow);
                }
                self.stack.push(v);
                self.ip += 1;
                Ok(None)
            },
            Instruction::Dup(n) => {
                if n < 0 {
                    return Err(InterpreterErr::IllegalOperand);
                }
                if depth as Word <= n {
                    return Err(InterpreterErr::StackUnderflow);
                }
                if depth >= BM_STACK_CAPACITY {
                    return Err(InterpreterErr::StackOverflow);
                }
                let v = self.stack[depth - 1 - n as usize];
                self.stack.push(v);
                self.ip += 1;
                Ok(None)
            },
            Instruction::Plus
            | Instruction::Minus
            | Instruction::Mult
            | Instruction::Div
            | Instruction::Eq => {
                if depth < 2 {
                    return Err(InterpreterErr::StackUnderflow);
                }
                let a = self.stack[depth - 2];
                let b = self.stack[depth - 1];
                if matches!(inst, Instruction::Div) && b == 0 {
                    return Err(InterpreterErr::DivideByZero);
                }
                let value = binary(inst, a, b);
                self.stack.pop();
                self.stack.set(depth - 2, value);
                self.ip += 1;
                assert(self.stack@ =~= old(self).stack@.take(depth - 2).push(value));
                Ok(None)
            },
            Instruction::Jump(addr) => {
                self.ip = addr.unwrap();
                Ok(None)
            },
            Instruction::JumpIf(addr) => {
                if depth < 1 {
                    return Err(InterpreterErr::StackUnderflow);
                }
                if self.stack[depth - 1] == 1 {
                    self.stack.pop();
                    self.ip = addr.unwrap();
                } else {
                    self.ip += 1;
                }
                Ok(None)
            },
            Instruction::Halt => {
                self.halt = true;
                Ok(None)
            },
            Instruction::PrintDebug => {
                if depth < 1 {
                    return Err(InterpreterErr::StackUnderflow);
                }
                let top = self.stack.pop();
                self.ip += 1;
                Ok(top)
            },
        }
    }

    /// Assembles `source` and loads the program into the machine, which is
    /// then ready to run it from address 0; the stack stays as it is. On
    /// success `ctx` holds the labels with their addresses and the jumps
    /// that named one. On failure nothing has changed. The source must be
    /// short enough for every address to fit a word.
    pub fn program_from_asm(&mut self, source: &str, ctx: &mut BasmCtx) -> (r: Result<
        (),
        InstructionParseErr,
    >)
        requires
            old(self).wf(),
            source@.len() < Word::MAX,
        ensures
            final(self).wf(),
            match assembly_of(source@) {
                Ok(a) => r is Ok && final(ctx)@ == a.ctx && final(self)@ == (MachineState {
                    stack: old(self)@.stack,
                    program: a.program,
                    ip: 0,
                    halted: false,
                }),
                Err(e) => r is Err && r->Err_0@ == e && final(ctx)@ == old(ctx)@ && final(self)@
                    == old(self)@,
            },
    {
        match assemble(source, ctx) {
            Ok(program) => {
                self.program = program;
                self.ip = 0;
                self.halt = false;
                Ok(())
            },
            Err(e) => Err(e),
        }
    }

    /// The program in assembly, one instruction to a line.
    pub fn program_to_asm(&self) -> (text: String)
        requires
            self.wf(),
        ensures
            text@ == listing(self@.program),
    {
        let mut text = String::new();
        let mut i: usize = 0;
        while i < self.program.len()
            invariant
                self.wf(),
                i <= self.program@.len(),
                text@ == listing(self.program@.take(i as int)),
            decreases self.program@.len() - i,
        {
            self.program[i].push_asm(&mut text);
            text.push('\n');
            assert(self.program@.take(i + 1).drop_last() =~= self.program@.take(i as int));
            i += 1;
        }
        assert(self.program@.take(self.program@.len() as int) =~= self.program@);
        text
    }

    /// The stack as text: a heading, then its cells from the bottom to the
    /// top, one to a line, or a line that says that it is empty.
    pub fn dump_stack(&self) -> (text: String)
        ensures
            text@ == stack_dump(self@.stack),
    {
        let mut text = String::from_str("Stack: \n");
        if self.stack.len() == 0 {
            text.append("   [empty]\n");
            return text;
        }
        let mut i: usize = 0;
        while i < self.stack.len()
            invariant
                i <= self.stack@.len(),
                text@ == "Stack: \n"@ + stack_lines(self.stack@.take(i as int)),
            decreases self.stack@.len() - i,
        {
            text.append("   ");
            push_decimal(&mut text, self.stack[i]);
            text.push('\n');
            assert(self.stack@.take(i + 1).drop_last() =~= self.stack@.take(i as int));
            i += 1;
        }
        assert(self.stack@.take(self.stack@.len() as int) =~= self.stack@);
        text
    }

    /// Runs the machine until it has stopped, a step fails, or the budget
    /// of steps is used up: `limit` steps, or `usize::MAX` where there is
    /// no limit. The values that `PrintDebug` hands out are appended to
    /// `out`. The first error ends the run and is returned, with the
    /// machine as the failing step found it. To run out of steps is no
    /// error: the caller sees from `is_halted` which of the two happened.
    pub fn execute_program(&mut self, limit: Option<usize>, out: &mut Vec<Word>) -> (r: Result<
        (),
        InterpreterErr,
    >)
        requires
            old(self).wf(),
        ensures
            final(self).wf(),
            final(self)@ == old(self)@.run(step_budget(limit)).state,
            final(out)@ == old(out)@ + old(self)@.run(step_budget(limit)).emitted,
            r == match old(self)@.run(step_budget(limit)).error {
                Some(e) => Err::<(), InterpreterErr>(e),
                None => Ok::<(), InterpreterErr>(()),
            },
    {
        let budget = match limit {
            Some(l) => l,
            None => usize::MAX,
        };
        let ghost whole = self@.run(budget as nat);
        let ghost out_before = out@;
        let ghost emitted: Seq<Word> = Seq::empty();
        let mut taken: usize = 0;
        while taken < budget && !self.halt
            invariant
                self.wf(),
                taken <= budget,
                whole == old(self)@.run(step_budget(limit)),
                out_before == old(out)@,
                out@ == out_before + emitted,
                whole.state == self@.run((budget - taken) as nat).state,
                whole.emitted == emitted + self@.run((budget - taken) as nat).emitted,
                whole.error == self@.run((budget - taken) as nat).error,
            decreases budget - taken,
        {
            match self.execute_instruction() {
                Err(e) => {
                    return Err(e);
                },
                Ok(value) => {
                    if let Some(v) = value {
                        out.push(v);
                    }
                    proof {
                        emitted = emitted + emitted_seq(value);
                    }
                    taken += 1;
                },
            }
        }
        Ok(())
    }
}

/// The stack's cells from the bottom to the top, each in decimal on a line
/// of its own, after three blanks.
pub open spec fn stack_lines(stack: Seq<Word>) -> Seq<char>
    decreases stack.len(),
{
    if stack.len() == 0 {
        Seq::empty()
    } else {
        stack_lines(stack.drop_last()) + "   "@ + decimal(stack.last() as int) + seq!['\n']
    }
}

/// The text that shows a stack.
pub open spec fn stack_dump(stack: Seq<Word>) -> Seq<char> {
    if stack.len() == 0 {
        "Stack: \n"@ + "   [empty]\n"@
    } else {
        "Stack: \n"@ + stack_lines(stack)
    }
}

/// The most steps that a run with this limit takes.
pub open spec fn step_budget(limit: Option<usize>) -> nat {
    match limit {
        Some(l) => l as nat,
        None => usize::MAX as nat,
    }
}

/// Computes what an arithmetic or comparing instruction leaves for the
/// operands `a` and `b`.
fn binary(inst: Instruction, a: Word, b: Word) -> (value: Word)
    requires
        inst == Instruction::Div ==> b != 0,
    ensures
        value == binary_result(inst, a, b),
{
    proof {
        lemma_wrap_near(a + b);
        lemma_wrap_near(a - b);
        if b != 0 {
            lemma_quotient_fits(a, b);
        }
    }
    match inst {
        Instruction::Plus => a.wrapping_add(b),
        Instruction::Minus => a.wrapping_sub(b),
        Instruction::Mult => a.wrapping_mul(b),
        Instruction::Div => {
            let q = a.checked_div(b);
            assert(q == if a == Word::MIN && b == -1 {
                None
            } else {
                Some(quotient(a as int, b as int) as Word)
            }) by {
                if a == 0 {
                    vstd::arithmetic::div_mod::lemma_div_basics_1(b as int);
                    vstd::arithmetic::div_mod::lemma_div_basics_1(-b);
                }
            }
            match q {
                Some(q) => q,
                None => Word::MIN,
            }
        },
        _ => {
            if a == b {
                1
            } else {
                0
            }
        },
    }
}

} // verus!
