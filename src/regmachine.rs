//! The register machine: every instruction is one byte, operations combine the
//! accumulator with a register, and jumps move the program counter by a signed 5-bit
//! displacement.

mod assemble;
mod isa;
pub mod laws;
mod parse;
mod vm;

pub use assemble::{assemble, Assembly};
pub use isa::{Instruction, InstructionModel, Reg, Target, TargetModel};
pub use parse::{expand_macro, Line, LineModel};
pub use vm::{simulate, Machine, MachineModel, Run, Step};
