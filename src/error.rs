use vstd::prelude::*;

verus! {

/// Why assembling or running a program stopped. Each one is fatal.
#[derive(Clone, Copy, Debug, PartialEq, Eq, Structural)]
pub enum AsmError {
    /// A line to parse as an instruction holds no word.
    MissingMnemonic,
    /// The first word of the line names no instruction or macro.
    UnknownMnemonic,
    /// The instruction needs an operand that the line does not give.
    MissingOperand,
    /// An operand that must be a hexadecimal byte is not one.
    InvalidHex,
    /// A stack offset is not below 8.
    StackOffsetOutOfRange(u8),
    /// An operand that must name a register names none.
    InvalidRegister,
    /// A push or pop macro names the accumulator, which it overwrites.
    AccumulatorOperand,
    /// The label declared on this line (an index into the lines) was declared before.
    DuplicateLabel { line: usize },
    /// An instruction on this line names a label that no line declares.
    UndefinedLabel { line: usize },
    /// A relative jump at `at` cannot reach `target` with its 5-bit displacement.
    JumpOutOfRange { at: u8, target: u8 },
    /// The instructions do not fit into the 255 addressable bytes.
    ProgramTooLarge,
    /// An address computed from the instruction at `at` passes 0xFF.
    AddressOverflow { at: u8 },
    /// The program counter holds an address where no instruction starts.
    BadInstructionAddress(u8),
    /// An operand reached the machine at this address without being resolved.
    UnresolvedOperand(u8),
}

/// A result with the success value replaced by its model.
pub open spec fn view_result<T: View>(r: Result<T, AsmError>) -> Result<T::V, AsmError> {
    match r {
        Ok(v) => Ok(v@),
        Err(e) => Err(e),
    }
}

} // verus!
