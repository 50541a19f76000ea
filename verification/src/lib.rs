//! A small stack machine with a bounded evaluation stack, and the assembler
//! that turns its textual programs, labels included, into instructions.

use vstd::prelude::*;

pub mod assembler;
pub mod decimal;
pub mod instruction;
pub mod interpreter;
pub mod machine;
pub mod parser;
pub mod text;

pub use crate::assembler::BasmCtx;
pub use crate::assembler::UnresolvedLabel;
pub use crate::instruction::Address;
pub use crate::instruction::Instruction;
pub use crate::interpreter::InterpreterErr;
pub use crate::machine::BM;
pub use crate::parser::InstructionParseErr;
pub use crate::parser::ParsedLine;

verus! {

/// The machine's only value type: stack cells, operands and addresses alike.
pub type Word = i64;

/// Number of cells the evaluation stack can hold.
pub const BM_STACK_CAPACITY: usize = 1024;

/// Number of instructions a program may be loaded with.
pub const BM_PROGRAM_CAPACITY: usize = 1024;

} // verus!
