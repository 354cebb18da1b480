use vstd::prelude::*;

verus! {

/// A register of the register machine.
#[allow(non_camel_case_types, clippy::upper_case_acronyms)]
#[derive(Clone, Copy, Debug, PartialEq, Eq, Structural)]
pub enum Reg {
    ACC,
    B,
    C,
    D,
    E,
    FLAGS,
    SP,
    PC,
    UNKNOWN,
}

/// The number of registers in the register file.
pub const REG_COUNT: usize = 8;

impl Reg {
    /// The register's number: its slot in the register file and its field in an opcode.
    pub open spec fn spec_index(self) -> nat {
        match self {
            Reg::ACC => 0,
            Reg::B => 1,
            Reg::C => 2,
            Reg::D => 3,
            Reg::E => 4,
            Reg::FLAGS => 5,
            Reg::SP => 6,
            Reg::PC => 7,
            Reg::UNKNOWN => 8,
        }
    }

    /// The register's number: its slot in the register file and its field in an opcode.
    pub fn index(self) -> (r: u8)
        ensures
            r == self.spec_index(),
    {
        match self {
            Reg::ACC => 0,
            Reg::B => 1,
            Reg::C => 2,
            Reg::D => 3,
            Reg::E => 4,
            Reg::FLAGS => 5,
            Reg::SP => 6,
            Reg::PC => 7,
            Reg::UNKNOWN => 8,
        }
    }
}

/// An operand that names a value: a label, or a constant.
#[derive(Clone, Debug, PartialEq, Eq)]
pub enum Target {
    Label(String),
    Constant(u8),
}

/// What a [`Target`] is, with the label's name as characters.
pub enum TargetModel {
    Label(Seq<char>),
    Constant(u8),
}

impl View for Target {
    type V = TargetModel;

    open spec fn view(&self) -> TargetModel {
        match self {
            Target::Label(l) => TargetModel::Label(l@),
            Target::Constant(c) => TargetModel::Constant(*c),
        }
    }
}

/// An instruction of the register machine.
#[derive(Clone, Debug, PartialEq, Eq)]
pub enum Instruction {
    LoadReg(Reg),
    StoreReg(Reg),
    Xor(Reg),
    And(Reg),
    Or(Reg),
    Add(Reg),
    Not(Reg),
    Mul(Reg),
    LoadMem(Reg),
    StoreMem(Reg),
    LoadLo(Target),
    LoadHi(Target),
    Jmp(Target),
    Jz(Target),
    Jnz(Target),
}

/// What an [`Instruction`] is.
pub enum InstructionModel {
    LoadReg(Reg),
    StoreReg(Reg),
    Xor(Reg),
    And(Reg),
    Or(Reg),
    Add(Reg),
    Not(Reg),
    Mul(Reg),
    LoadMem(Reg),
    StoreMem(Reg),
    LoadLo(TargetModel),
    LoadHi(TargetModel),
    Jmp(TargetModel),
    Jz(TargetModel),
    Jnz(TargetModel),
}

impl View for Instruction {
    type V = InstructionModel;

    open spec fn view(&self) -> InstructionModel {
        match self {
            Instruction::LoadReg(r) => InstructionModel::LoadReg(*r),
            Instruction::StoreReg(r) => InstructionModel::StoreReg(*r),
            Instruction::Xor(r) => InstructionModel::Xor(*r),
            Instruction::And(r) => InstructionModel::And(*r),
            Instruction::Or(r) => InstructionModel::Or(*r),
            Instruction::Add(r) => InstructionModel::Add(*r),
            Instruction::Not(r) => InstructionModel::Not(*r),
            Instruction::Mul(r) => InstructionModel::Mul(*r),
            Instruction::LoadMem(r) => InstructionModel::LoadMem(*r),
            Instruction::StoreMem(r) => InstructionModel::StoreMem(*r),
            Instruction::LoadLo(t) => InstructionModel::LoadLo(t@),
            Instruction::LoadHi(t) => InstructionModel::LoadHi(t@),
            Instruction::Jmp(t) => InstructionModel::Jmp(t@),
            Instruction::Jz(t) => InstructionModel::Jz(t@),
            Instruction::Jnz(t) => InstructionModel::Jnz(t@),
        }
    }
}

/// Whether every operand of the instruction is a constant.
pub open spec fn is_resolved(i: InstructionModel) -> bool {
    match i {
        InstructionModel::LoadLo(t) | InstructionModel::LoadHi(t) | InstructionModel::Jmp(t)
        | InstructionModel::Jz(t) | InstructionModel::Jnz(t) => t is Constant,
        _ => true,
    }
}

/// The byte of a resolved instruction: the operation in the high bits, the register's
/// number or the constant in the low bits.
pub open spec fn encoding_of(i: InstructionModel) -> u8 {
    match i {
        InstructionModel::StoreReg(r) => 0x00u8 | (r.spec_index() as u8),
        InstructionModel::StoreMem(r) => 0x08u8 | (r.spec_index() as u8),
        InstructionModel::Xor(r) => 0x40u8 | (r.spec_index() as u8),
        InstructionModel::And(r) => 0x48u8 | (r.spec_index() as u8),
        InstructionModel::Or(r) => 0x50u8 | (r.spec_index() as u8),
        InstructionModel::Add(r) => 0x58u8 | (r.spec_index() as u8),
        InstructionModel::Not(r) => 0x60u8 | (r.spec_index() as u8),
        InstructionModel::Mul(r) => 0x68u8 | (r.spec_index() as u8),
        InstructionModel::LoadReg(r) => 0x70u8 | (r.spec_index() as u8),
        InstructionModel::LoadMem(r) => 0x78u8 | (r.spec_index() as u8),
        InstructionModel::LoadLo(TargetModel::Constant(c)) => 0x80 | c,
        InstructionModel::LoadHi(TargetModel::Constant(c)) => 0x90 | c,
        InstructionModel::Jmp(TargetModel::Constant(c)) => 0xa0 | c,
        InstructionModel::Jz(TargetModel::Constant(c)) => 0xc0 | c,
        InstructionModel::Jnz(TargetModel::Constant(c)) => 0xe0 | c,
        _ => 0,
    }
}

impl Target {
    /// A copy of the target.
    pub fn duplicate(&self) -> (r: Target)
        ensures
            r@ == self@,
    {
        match self {
            Target::Label(l) => Target::Label(l.clone()),
            Target::Constant(c) => Target::Constant(*c),
        }
    }
}

impl Instruction {
    /// The byte of the resolved instruction.
    pub fn encode(&self) -> (r: u8)
        requires
            is_resolved(self@),
        ensures
            r == encoding_of(self@),
    {
        match self {
            Instruction::StoreReg(r) => 0x00 | r.index(),
            Instruction::StoreMem(r) => 0x08 | r.index(),
            Instruction::Xor(r) => 0x40 | r.index(),
            Instruction::And(r) => 0x48 | r.index(),
            Instruction::Or(r) => 0x50 | r.index(),
            Instruction::Add(r) => 0x58 | r.index(),
            Instruction::Not(r) => 0x60 | r.index(),
            Instruction::Mul(r) => 0x68 | r.index(),
            Instruction::LoadReg(r) => 0x70 | r.index(),
            Instruction::LoadMem(r) => 0x78 | r.index(),
            Instruction::LoadLo(Target::Constant(c)) => 0x80 | *c,
            Instruction::LoadHi(Target::Constant(c)) => 0x90 | *c,
            Instruction::Jmp(Target::Constant(c)) => 0xa0 | *c,
            Instruction::Jz(Target::Constant(c)) => 0xc0 | *c,
            Instruction::Jnz(Target::Constant(c)) => 0xe0 | *c,
            _ => 0,
        }
    }

    /// A copy of the instruction.
    pub fn duplicate(&self) -> (r: Instruction)
        ensures
            r@ == self@,
    {
        match self {
            Instruction::LoadReg(r) => Instruction::LoadReg(*r),
            Instruction::StoreReg(r) => Instruction::StoreReg(*r),
            Instruction::Xor(r) => Instruction::Xor(*r),
            Instruction::And(r) => Instruction::And(*r),
            Instruction::Or(r) => Instruction::Or(*r),
            Instruction::Add(r) => Instruction::Add(*r),
            Instruction::Not(r) => Instruction::Not(*r),
            Instruction::Mul(r) => Instruction::Mul(*r),
            Instruction::LoadMem(r) => Instruction::LoadMem(*r),
            Instruction::StoreMem(r) => Instruction::StoreMem(*r),
            Instruction::LoadLo(t) => Instruction::LoadLo(t.duplicate()),
            Instruction::LoadHi(t) => Instruction::LoadHi(t.duplicate()),
            Instruction::Jmp(t) => Instruction::Jmp(t.duplicate()),
            Instruction::Jz(t) => Instruction::Jz(t.duplicate()),
            Instruction::Jnz(t) => Instruction::Jnz(t.duplicate()),
        }
    }
}

} // verus!
