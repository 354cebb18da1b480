use vstd::prelude::*;

verus! {

/// A register of the stack machine.
#[allow(non_camel_case_types, clippy::upper_case_acronyms)]
#[derive(Clone, Copy, Debug, PartialEq, Eq, Structural)]
pub enum Reg {
    ACC,
    ADDR,
    FLAGS,
    SP,
    PC,
    UNKNOWN,
}

/// The number of registers in the register file.
pub const REG_COUNT: usize = 5;

impl Reg {
    /// The slot of the register in the register file.
    pub open spec fn spec_index(self) -> nat {
        match self {
            Reg::ACC => 0,
            Reg::ADDR => 1,
            Reg::FLAGS => 2,
            Reg::SP => 3,
            Reg::PC => 4,
            Reg::UNKNOWN => 5,
        }
    }

    /// The slot of the register in the register file.
    pub fn index(self) -> (r: usize)
        ensures
            r == self.spec_index(),
    {
        match self {
            Reg::ACC => 0,
            Reg::ADDR => 1,
            Reg::FLAGS => 2,
            Reg::SP => 3,
            Reg::PC => 4,
            Reg::UNKNOWN => 5,
        }
    }
}

/// An operand that names an address: a label, a value, or a distance from the
/// instruction's own address.
#[derive(Clone, Debug, PartialEq, Eq)]
pub enum Target {
    Label(String),
    Absolute(u8),
    Offset(u8),
}

/// What a [`Target`] is, with the label's name as characters.
pub enum TargetModel {
    Label(Seq<char>),
    Absolute(u8),
    Offset(u8),
}

impl View for Target {
    type V = TargetModel;

    open spec fn view(&self) -> TargetModel {
        match self {
            Target::Label(l) => TargetModel::Label(l@),
            Target::Absolute(v) => TargetModel::Absolute(*v),
            Target::Offset(o) => TargetModel::Offset(*o),
        }
    }
}

impl Target {
    /// A copy of the target.
    pub fn duplicate(&self) -> (r: Target)
        ensures
            r@ == self@,
    {
        match self {
            Target::Label(l) => Target::Label(l.clone()),
            Target::Absolute(v) => Target::Absolute(*v),
            Target::Offset(o) => Target::Offset(*o),
        }
    }
}

/// A distance below the stack pointer's slot, from 0 to 7.
#[derive(Clone, Copy, Debug, PartialEq, Eq)]
pub struct StackOffset(u8);

impl StackOffset {
    #[verifier::type_invariant]
    spec fn inv(&self) -> bool {
        self.0 < 8
    }

    /// The distance the offset stands for.
    pub closed spec fn spec_value(&self) -> u8 {
        self.0
    }

    /// The distance the offset stands for.
    pub fn value(&self) -> (r: u8)
        ensures
            r == self.spec_value(),
            r < 8,
    {
        proof {
            use_type_invariant(self);
        }
        self.0
    }

    /// The top of the stack.
    pub fn top() -> (r: StackOffset)
        ensures
            r.spec_value() == 0,
    {
        StackOffset::new(0)
    }

    /// The offset `val`, which must be below 8.
    pub fn new(val: u8) -> (r: StackOffset)
        requires
            val < 8,
        ensures
            r.spec_value() == val,
    {
        StackOffset(val)
    }
}

/// An operation that leaves its result in the accumulator, and may push it.
#[derive(Clone, Debug, PartialEq, Eq)]
pub enum PushableInstruction {
    LoadLo(Target),
    LoadHi(Target),
    Add(StackOffset),
    Xor(StackOffset),
    Not(StackOffset),
    Or(StackOffset),
    And(StackOffset),
    Mul(StackOffset),
    LoadFromStack(StackOffset),
    LoadMem,
    LoadPc,
}

/// What a [`PushableInstruction`] is; stack offsets as their values.
pub enum PushableModel {
    LoadLo(TargetModel),
    LoadHi(TargetModel),
    Add(u8),
    Xor(u8),
    Not(u8),
    Or(u8),
    And(u8),
    Mul(u8),
    LoadFromStack(u8),
    LoadMem,
    LoadPc,
}

impl View for PushableInstruction {
    type V = PushableModel;

    open spec fn view(&self) -> PushableModel {
        match self {
            PushableInstruction::LoadLo(t) => PushableModel::LoadLo(t@),
            PushableInstruction::LoadHi(t) => PushableModel::LoadHi(t@),
            PushableInstruction::Add(o) => PushableModel::Add(o.spec_value()),
            PushableInstruction::Xor(o) => PushableModel::Xor(o.spec_value()),
            PushableInstruction::Not(o) => PushableModel::Not(o.spec_value()),
            PushableInstruction::Or(o) => PushableModel::Or(o.spec_value()),
            PushableInstruction::And(o) => PushableModel::And(o.spec_value()),
            PushableInstruction::Mul(o) => PushableModel::Mul(o.spec_value()),
            PushableInstruction::LoadFromStack(o) => PushableModel::LoadFromStack(o.spec_value()),
            PushableInstruction::LoadMem => PushableModel::LoadMem,
            PushableInstruction::LoadPc => PushableModel::LoadPc,
        }
    }
}

impl PushableInstruction {
    /// A copy of the operation.
    pub fn duplicate(&self) -> (r: PushableInstruction)
        ensures
            r@ == self@,
    {
        match self {
            PushableInstruction::LoadLo(t) => PushableInstruction::LoadLo(t.duplicate()),
            PushableInstruction::LoadHi(t) => PushableInstruction::LoadHi(t.duplicate()),
            PushableInstruction::Add(o) => PushableInstruction::Add(*o),
            PushableInstruction::Xor(o) => PushableInstruction::Xor(*o),
            PushableInstruction::Not(o) => PushableInstruction::Not(*o),
            PushableInstruction::Or(o) => PushableInstruction::Or(*o),
            PushableInstruction::And(o) => PushableInstruction::And(*o),
            PushableInstruction::Mul(o) => PushableInstruction::Mul(*o),
            PushableInstruction::LoadFromStack(o) => PushableInstruction::LoadFromStack(*o),
            PushableInstruction::LoadMem => PushableInstruction::LoadMem,
            PushableInstruction::LoadPc => PushableInstruction::LoadPc,
        }
    }
}

/// An instruction of the stack machine.
#[derive(Clone, Debug, PartialEq, Eq)]
pub enum Instruction {
    StoreAddr,
    StoreMem,
    JmpAcc,
    Jmp(Target),
    Jz(Target),
    Jnz(Target),
    StoreToStack(StackOffset),
    Discard(StackOffset),
    Alloc(StackOffset),
    PopDiscard(StackOffset),
    WithPush(PushableInstruction),
    WithoutPush(PushableInstruction),
}

/// What an [`Instruction`] is.
pub enum InstructionModel {
    StoreAddr,
    StoreMem,
    JmpAcc,
    Jmp(TargetModel),
    Jz(TargetModel),
    Jnz(TargetModel),
    StoreToStack(u8),
    Discard(u8),
    Alloc(u8),
    PopDiscard(u8),
    WithPush(PushableModel),
    WithoutPush(PushableModel),
}

impl View for Instruction {
    type V = InstructionModel;

    open spec fn view(&self) -> InstructionModel {
        match self {
            Instruction::StoreAddr => InstructionModel::StoreAddr,
            Instruction::StoreMem => InstructionModel::StoreMem,
            Instruction::JmpAcc => InstructionModel::JmpAcc,
            Instruction::Jmp(t) => InstructionModel::Jmp(t@),
            Instruction::Jz(t) => InstructionModel::Jz(t@),
            Instruction::Jnz(t) => InstructionModel::Jnz(t@),
            Instruction::StoreToStack(o) => InstructionModel::StoreToStack(o.spec_value()),
            Instruction::Discard(o) => InstructionModel::Discard(o.spec_value()),
            Instruction::Alloc(o) => InstructionModel::Alloc(o.spec_value()),
            Instruction::PopDiscard(o) => InstructionModel::PopDiscard(o.spec_value()),
            Instruction::WithPush(p) => InstructionModel::WithPush(p@),
            Instruction::WithoutPush(p) => InstructionModel::WithoutPush(p@),
        }
    }
}

/// The number of bytes an instruction takes: jumps carry their address in a second byte.
pub open spec fn size_of(i: InstructionModel) -> nat {
    match i {
        InstructionModel::Jmp(_) | InstructionModel::Jz(_) | InstructionModel::Jnz(_) => 2,
        _ => 1,
    }
}

/// Whether every operand of the instruction is an absolute value.
pub open spec fn is_resolved(i: InstructionModel) -> bool {
    match i {
        InstructionModel::Jmp(t) | InstructionModel::Jz(t) | InstructionModel::Jnz(t) => t is Absolute,
        InstructionModel::WithPush(p) | InstructionModel::WithoutPush(p) => match p {
            PushableModel::LoadLo(t) | PushableModel::LoadHi(t) => t is Absolute,
            _ => true,
        },
        _ => true,
    }
}

/// The bytes of a resolved instruction: the opcode, and the address of a jump. The
/// opcodes of the operations other than jumps are not assigned, and encode as 0.
pub open spec fn encoding_of(i: InstructionModel) -> (u8, Option<u8>) {
    match i {
        InstructionModel::Jmp(TargetModel::Absolute(c)) => (0x3c, Some(c)),
        InstructionModel::Jnz(TargetModel::Absolute(c)) => (0x3d, Some(c)),
        InstructionModel::Jz(TargetModel::Absolute(c)) => (0x3e, Some(c)),
        _ => (0, None),
    }
}

impl Instruction {
    /// The operation `p`, pushing its result when `push` holds.
    pub fn with_push(push: bool, p: PushableInstruction) -> (r: Instruction)
        ensures
            push ==> r@ == InstructionModel::WithPush(p@),
            !push ==> r@ == InstructionModel::WithoutPush(p@),
    {
        if push {
            Instruction::WithPush(p)
        } else {
            Instruction::WithoutPush(p)
        }
    }

    /// The number of bytes the instruction takes.
    pub fn get_size(&self) -> (r: u8)
        ensures
            r as nat == size_of(self@),
            1 <= r <= 2,
    {
        match self {
            Instruction::Jmp(_) => 2,
            Instruction::Jnz(_) => 2,
            Instruction::Jz(_) => 2,
            _ => 1,
        }
    }

    /// The bytes of the resolved instruction.
    pub fn encode(&self) -> (r: (u8, Option<u8>))
        requires
            is_resolved(self@),
        ensures
            r == encoding_of(self@),
    {
        match self {
            Instruction::Jmp(Target::Absolute(c)) => (0x3c, Some(*c)),
            Instruction::Jnz(Target::Absolute(c)) => (0x3d, Some(*c)),
            Instruction::Jz(Target::Absolute(c)) => (0x3e, Some(*c)),
            _ => (0, None),
        }
    }

    /// A copy of the instruction.
    pub fn duplicate(&self) -> (r: Instruction)
        ensures
            r@ == self@,
    {
        match self {
            Instruction::StoreAddr => Instruction::StoreAddr,
            Instruction::StoreMem => Instruction::StoreMem,
            Instruction::JmpAcc => Instruction::JmpAcc,
            Instruction::Jmp(t) => Instruction::Jmp(t.duplicate()),
            Instruction::Jz(t) => Instruction::Jz(t.duplicate()),
            Instruction::Jnz(t) => Instruction::Jnz(t.duplicate()),
            Instruction::StoreToStack(o) => Instruction::StoreToStack(*o),
            Instruction::Discard(o) => Instruction::Discard(*o),
            Instruction::Alloc(o) => Instruction::Alloc(*o),
            Instruction::PopDiscard(o) => Instruction::PopDiscard(*o),
            Instruction::WithPush(p) => Instruction::WithPush(p.duplicate()),
            Instruction::WithoutPush(p) => Instruction::WithoutPush(p.duplicate()),
        }
    }
}

} // verus!
