//! The instruction set, and how an instruction is written in assembly.

use crate::decimal::decimal;
use crate::decimal::push_decimal;
use crate::Word;
use vstd::prelude::*;
use vstd::string::StringExecFns;

verus! {

/// The operand of a jump: `None` while it still stands for a label that the
/// assembler has to look up.
pub type Address = Option<Word>;

/// One operation of the machine.
#[derive(Debug, Clone, Copy, PartialEq, Eq, Structural)]
pub enum Instruction {
    /// Does nothing.
    Nop,
    /// Pushes the operand.
    Push(Word),
    /// Pushes a copy of the cell that lies the operand's number of places
    /// below the top.
    Dup(Word),
    /// Replaces the two topmost cells by their sum.
    Plus,
    /// Replaces the two topmost cells by the lower one minus the top.
    Minus,
    /// Replaces the two topmost cells by the lower one divided by the top.
    Div,
    /// Replaces the two topmost cells by their product.
    Mult,
    /// Continues at the address.
    Jump(Address),
    /// Removes the top and continues at the address if the top is exactly 1.
    JumpIf(Address),
    /// Replaces the two topmost cells by 1 if they are equal, else by 0.
    Eq,
    /// Stops the machine.
    Halt,
    /// Removes the top and hands it out as diagnostic output.
    PrintDebug,
}

impl Default for Instruction {
    fn default() -> (inst: Self)
        ensures
            inst == Instruction::Nop,
    {
        Instruction::Nop
    }
}

impl Instruction {
    /// True unless this is a jump whose address is still missing.
    pub open spec fn resolved(self) -> bool {
        match self {
            Instruction::Jump(addr) => addr is Some,
            Instruction::JumpIf(addr) => addr is Some,
            _ => true,
        }
    }

    /// The instruction has an operand.
    pub open spec fn takes_operand(self) -> bool {
        match self {
            Instruction::Push(_) => true,
            Instruction::Dup(_) => true,
            Instruction::Jump(_) => true,
            Instruction::JumpIf(_) => true,
            _ => false,
        }
    }

    /// Tells whether the instruction can be executed and rendered as it is.
    pub fn is_resolved(&self) -> (b: bool)
        ensures
            b == self.resolved(),
    {
        match self {
            Instruction::Jump(None) => false,
            Instruction::JumpIf(None) => false,
            _ => true,
        }
    }

    /// The word by which the assembly names the instruction.
    pub open spec fn mnemonic(self) -> Seq<char> {
        match self {
            Instruction::Nop => "nop"@,
            Instruction::Push(_) => "push"@,
            Instruction::Dup(_) => "dup"@,
            Instruction::Plus => "plus"@,
            Instruction::Minus => "minus"@,
            Instruction::Div => "div"@,
            Instruction::Mult => "mult"@,
            Instruction::Jump(_) => "jmp"@,
            Instruction::JumpIf(_) => "jmpif"@,
            Instruction::Eq => "eq"@,
            Instruction::Halt => "halt"@,
            Instruction::PrintDebug => "print_debug"@,
        }
    }

    /// The instruction in assembly: its mnemonic, and after one blank its
    /// operand in decimal, if it has one. It is meant for an instruction
    /// that is `resolved`.
    pub open spec fn asm_text(self) -> Seq<char> {
        match self {
            Instruction::Push(v) => self.mnemonic().push(' ') + decimal(v as int),
            Instruction::Dup(v) => self.mnemonic().push(' ') + decimal(v as int),
            Instruction::Jump(addr) => self.mnemonic().push(' ') + decimal(addr.unwrap() as int),
            Instruction::JumpIf(addr) => self.mnemonic().push(' ') + decimal(addr.unwrap() as int),
            _ => self.mnemonic(),
        }
    }

    /// Renders the instruction in assembly. A jump must have its address.
    pub fn to_asm(&self) -> (text: String)
        requires
            self.resolved(),
        ensures
            text@ == self.asm_text(),
    {
        let mut text = String::new();
        self.push_asm(&mut text);
        text
    }

    /// Appends the instruction in assembly to `out`.
    pub fn push_asm(&self, out: &mut String)
        requires
            self.resolved(),
        ensures
            final(out)@ == old(out)@ + self.asm_text(),
    {
        match self {
            Instruction::Nop => out.append("nop"),
            Instruction::Push(v) => {
                out.append("push");
                out.push(' ');
                push_decimal(out, *v);
            },
            Instruction::Dup(v) => {
                out.append("dup");
                out.push(' ');
                push_decimal(out, *v);
            },
            Instruction::Plus => out.append("plus"),
            Instruction::Minus => out.append("minus"),
            Instruction::Div => out.append("div"),
            Instruction::Mult => out.append("mult"),
            Instruction::Jump(addr) => {
                out.append("jmp");
                out.push(' ');
                push_decimal(out, addr.unwrap());
            },
            Instruction::JumpIf(addr) => {
                out.append("jmpif");
                out.push(' ');
                push_decimal(out, addr.unwrap());
            },
            Instruction::Eq => out.append("eq"),
            Instruction::Halt => out.append("halt"),
            Instruction::PrintDebug => out.append("print_debug"),
        }
    }
}

/// A program in assembly: each instruction on a line of its own.
pub open spec fn listing(program: Seq<Instruction>) -> Seq<char>
    decreases program.len(),
{
    if program.len() == 0 {
        Seq::empty()
    } else {
        listing(program.drop_last()) + program.last().asm_text().push('\n')
    }
}

} // verus!
