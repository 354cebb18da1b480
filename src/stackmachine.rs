//! The stack machine: ALU operations read a slot of the stack, every operation
//! that loads the accumulator may also push it, and jumps carry an absolute address
//! in a second byte.

mod assemble;
mod isa;
pub mod laws;
mod vm;
mod parse;

pub use assemble::{assemble, Assembly};
pub use parse::{Line, LineModel, Macro};
pub use vm::{simulate, Machine, MachineModel, Run, Step};
pub use isa::{
    Instruction, InstructionModel, PushableInstruction, PushableModel, Reg, StackOffset, Target,
    TargetModel,
};
