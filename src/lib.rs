//! A two-pass assembler and a cycle-limited interpreter for two small 8-bit CPUs:
//! a register machine whose instructions are one byte wide and whose jumps are
//! relative, and a stack machine whose jumps carry a second, absolute byte.

pub mod error;
pub mod labels;
pub mod regmachine;
pub mod stackmachine;
pub mod text;
