use vstd::prelude::*;

use crate::error::AsmError;
use crate::stackmachine::assemble::rom_models;
use crate::stackmachine::isa::{
    size_of, Instruction, InstructionModel, PushableInstruction, PushableModel, Reg, StackOffset,
    Target, TargetModel, REG_COUNT,
};

verus! {

/// The number of bytes of memory.
pub const MEM_SIZE: usize = 256;

/// The address at which the machine stops.
pub const HALT_ADDRESS: u8 = 0xff;

/// The register file and the memory of the machine.
#[derive(Debug)]
pub struct Machine {
    pub regs: Vec<u8>,
    pub mem: Vec<u8>,
}

/// What a [`Machine`] holds.
pub struct MachineModel {
    pub regs: Seq<u8>,
    pub mem: Seq<u8>,
}

impl View for Machine {
    type V = MachineModel;

    open spec fn view(&self) -> MachineModel {
        MachineModel { regs: self.regs@, mem: self.mem@ }
    }
}

/// A machine with five registers and 256 bytes of memory.
pub open spec fn machine_wf(m: MachineModel) -> bool {
    m.regs.len() == REG_COUNT && m.mem.len() == MEM_SIZE
}

/// The machine at reset: every register and every byte zero.
pub open spec fn reset_model() -> MachineModel {
    MachineModel { regs: Seq::new(REG_COUNT as nat, |i: int| 0u8), mem: Seq::new(MEM_SIZE as nat, |i: int| 0u8) }
}

pub open spec fn reg(m: MachineModel, r: Reg) -> u8 {
    m.regs[r.spec_index() as int]
}

pub open spec fn with_reg(m: MachineModel, r: Reg, v: u8) -> MachineModel {
    MachineModel { regs: m.regs.update(r.spec_index() as int, v), mem: m.mem }
}

pub open spec fn with_mem(m: MachineModel, a: u8, v: u8) -> MachineModel {
    MachineModel { regs: m.regs, mem: m.mem.update(a as int, v) }
}

/// The address of the stack slot `o` places above the stack pointer, modulo 256.
pub open spec fn slot_addr(m: MachineModel, o: u8) -> u8 {
    ((reg(m, Reg::SP) + o) % 256) as u8
}

pub open spec fn slot(m: MachineModel, o: u8) -> u8 {
    m.mem[slot_addr(m, o) as int]
}

/// The low nibble of `c`, sign-extended to a byte.
pub open spec fn low_nibble_signed(c: u8) -> u8 {
    if c & 8 == 8 {
        (c & 0xf) | 0xf0
    } else {
        c & 0xf
    }
}

/// The effect of a pushable operation on the accumulator (and, for an addition, on
/// the flags, which take the carry).
pub open spec fn operate(m: MachineModel, p: PushableModel) -> Result<MachineModel, AsmError> {
    let a = reg(m, Reg::ACC);
    match p {
        PushableModel::LoadLo(t) => match t {
            TargetModel::Absolute(c) => Ok(with_reg(m, Reg::ACC, low_nibble_signed(c))),
            _ => Err(AsmError::UnresolvedOperand(reg(m, Reg::PC))),
        },
        PushableModel::LoadHi(t) => match t {
            TargetModel::Absolute(c) => Ok(with_reg(m, Reg::ACC, (a & 0x0f) | ((c * 16) % 256) as u8)),
            _ => Err(AsmError::UnresolvedOperand(reg(m, Reg::PC))),
        },
        PushableModel::Add(o) => {
            let sum = a + slot(m, o);
            Ok(with_reg(with_reg(m, Reg::ACC, (sum % 256) as u8), Reg::FLAGS, (sum / 256) as u8))
        },
        PushableModel::Xor(o) => Ok(with_reg(m, Reg::ACC, a ^ slot(m, o))),
        PushableModel::Not(o) => Ok(with_reg(m, Reg::ACC, (255 - slot(m, o)) as u8)),
        PushableModel::Or(o) => Ok(with_reg(m, Reg::ACC, a | slot(m, o))),
        PushableModel::And(o) => Ok(with_reg(m, Reg::ACC, a & slot(m, o))),
        PushableModel::Mul(o) => Ok(with_reg(m, Reg::ACC, ((a * slot(m, o)) % 256) as u8)),
        PushableModel::LoadFromStack(o) => Ok(with_reg(m, Reg::ACC, slot(m, o))),
        PushableModel::LoadMem => Ok(with_reg(m, Reg::ACC, m.mem[reg(m, Reg::ADDR) as int])),
        PushableModel::LoadPc => Ok(with_reg(m, Reg::ACC, reg(m, Reg::PC))),
    }
}

/// Pushes the accumulator: the stack pointer goes down by one, then the accumulator is
/// stored at it.
pub open spec fn push_acc(m: MachineModel) -> MachineModel {
    let sp = ((reg(m, Reg::SP) + 255) % 256) as u8;
    with_mem(with_reg(m, Reg::SP, sp), sp, reg(m, Reg::ACC))
}

/// Moves the program counter `n` bytes on, modulo 256.
pub open spec fn advance(m: MachineModel, n: nat) -> MachineModel {
    with_reg(m, Reg::PC, ((reg(m, Reg::PC) + n) % 256) as u8)
}

/// The effect of one instruction. A jump that is taken sets the program counter; every
/// other instruction moves it past its own bytes.
pub open spec fn execute(m: MachineModel, i: InstructionModel) -> Result<MachineModel, AsmError> {
    let a = reg(m, Reg::ACC);
    let sp = reg(m, Reg::SP);
    let unresolved = Err(AsmError::UnresolvedOperand(reg(m, Reg::PC)));
    match i {
        InstructionModel::WithPush(p) => match operate(m, p) {
            Ok(n) => Ok(advance(push_acc(n), 1)),
            Err(e) => Err(e),
        },
        InstructionModel::WithoutPush(p) => match operate(m, p) {
            Ok(n) => Ok(advance(n, 1)),
            Err(e) => Err(e),
        },
        InstructionModel::StoreAddr => Ok(advance(with_reg(m, Reg::ADDR, a), 1)),
        InstructionModel::StoreMem => Ok(advance(with_mem(m, reg(m, Reg::ADDR), a), 1)),
        InstructionModel::JmpAcc => Ok(with_reg(m, Reg::PC, a)),
        InstructionModel::Jmp(t) => match t {
            TargetModel::Absolute(c) => Ok(with_reg(m, Reg::PC, c)),
            _ => unresolved,
        },
        InstructionModel::Jz(t) => match t {
            TargetModel::Absolute(c) => Ok(
                if a == 0 {
                    with_reg(m, Reg::PC, c)
                } else {
                    advance(m, 2)
                },
            ),
            _ => unresolved,
        },
        InstructionModel::Jnz(t) => match t {
            TargetModel::Absolute(c) => Ok(
                if a != 0 {
                    with_reg(m, Reg::PC, c)
                } else {
                    advance(m, 2)
                },
            ),
            _ => unresolved,
        },
        InstructionModel::StoreToStack(o) => Ok(advance(with_mem(m, slot_addr(m, o), a), 1)),
        InstructionModel::Discard(o) => Ok(advance(with_reg(m, Reg::SP, ((sp + o) % 256) as u8), 1)),
        InstructionModel::Alloc(o) => Ok(advance(with_reg(m, Reg::SP, ((sp + 256 - o) % 256) as u8), 1)),
        InstructionModel::PopDiscard(o) => Ok(
            advance(
                with_reg(with_reg(m, Reg::ACC, m.mem[sp as int]), Reg::SP, ((sp + o + 1) % 256) as u8),
                1,
            ),
        ),
    }
}

impl Machine {
    pub open spec fn wf(&self) -> bool {
        machine_wf(self@)
    }

    /// A machine at reset.
    pub fn new() -> (r: Machine)
        ensures
            r@ == reset_model(),
    {
        let mut regs: Vec<u8> = Vec::new();
        let mut mem: Vec<u8> = Vec::new();
        let mut i: usize = 0;
        while i < MEM_SIZE
            invariant
                i <= MEM_SIZE,
                regs@ == Seq::new(if i < REG_COUNT { i as nat } else { REG_COUNT as nat }, |j: int| 0u8),
                mem@ == Seq::new(i as nat, |j: int| 0u8),
            decreases MEM_SIZE - i,
        {
            if i < REG_COUNT {
                regs.push(0);
            }
            mem.push(0);
            i = i + 1;
            assert(mem@ =~= Seq::new(i as nat, |j: int| 0u8));
            assert(regs@ =~= Seq::new(if i < REG_COUNT { i as nat } else { REG_COUNT as nat }, |j: int| 0u8));
        }
        let r = Machine { regs, mem };
        assert(r@ =~= reset_model());
        r
    }

    /// The value of a register.
    pub fn reg(&self, r: Reg) -> (v: u8)
        requires
            self.wf(),
            r != Reg::UNKNOWN,
        ensures
            v == reg(self@, r),
    {
        self.regs[r.index()]
    }

    /// The byte at an address.
    pub fn peek(&self, a: u8) -> (v: u8)
        requires
            self.wf(),
        ensures
            v == self@.mem[a as int],
    {
        self.mem[a as usize]
    }

    /// A copy of the machine.
    pub fn duplicate(&self) -> (r: Machine)
        ensures
            r@ == self@,
    {
        let mut regs: Vec<u8> = Vec::new();
        let mut i: usize = 0;
        while i < self.regs.len()
            invariant
                i <= self.regs@.len(),
                regs@ == self.regs@.take(i as int),
            decreases self.regs@.len() - i,
        {
            regs.push(self.regs[i]);
            i = i + 1;
            assert(regs@ =~= self.regs@.take(i as int));
        }
        let mut mem: Vec<u8> = Vec::new();
        let mut i: usize = 0;
        while i < self.mem.len()
            invariant
                i <= self.mem@.len(),
                mem@ == self.mem@.take(i as int),
            decreases self.mem@.len() - i,
        {
            mem.push(self.mem[i]);
            i = i + 1;
            assert(mem@ =~= self.mem@.take(i as int));
        }
        assert(regs@ =~= self.regs@);
        assert(mem@ =~= self.mem@);
        Machine { regs, mem }
    }

    fn set_reg(&mut self, r: Reg, v: u8)
        requires
            old(self).wf(),
            r != Reg::UNKNOWN,
        ensures
            final(self).wf(),
            final(self)@ == with_reg(old(self)@, r, v),
    {
        self.regs.set(r.index(), v);
    }

    fn set_mem(&mut self, a: u8, v: u8)
        requires
            old(self).wf(),
        ensures
            final(self).wf(),
            final(self)@ == with_mem(old(self)@, a, v),
    {
        self.mem.set(a as usize, v);
    }

    fn slot(&self, o: &StackOffset) -> (r: (u8, u8))
        requires
            self.wf(),
        ensures
            r.0 == slot_addr(self@, o.spec_value()),
            r.1 == slot(self@, o.spec_value()),
    {
        let a = ((self.reg(Reg::SP) as u16 + o.value() as u16) % 256) as u8;
        (a, self.mem[a as usize])
    }

    fn advance(&mut self, n: u8)
        requires
            old(self).wf(),
        ensures
            final(self).wf(),
            final(self)@ == advance(old(self)@, n as nat),
    {
        let pc = ((self.reg(Reg::PC) as u16 + n as u16) % 256) as u8;
        self.set_reg(Reg::PC, pc);
    }

    fn operate(&mut self, p: &PushableInstruction) -> (r: Result<(), AsmError>)
        requires
            old(self).wf(),
        ensures
            final(self).wf(),
            match r {
                Ok(()) => operate(old(self)@, p@) == Ok::<MachineModel, AsmError>(final(self)@),
                Err(e) => operate(old(self)@, p@) == Err::<MachineModel, AsmError>(e),
            },
    {
        let a = self.reg(Reg::ACC);
        match p {
            PushableInstruction::LoadLo(t) => match t {
                Target::Absolute(c) => {
                    let v = if *c & 8 == 8 { (*c & 0xf) | 0xf0 } else { *c & 0xf };
                    self.set_reg(Reg::ACC, v);
                },
                _ => return Err(AsmError::UnresolvedOperand(self.reg(Reg::PC))),
            },
            PushableInstruction::LoadHi(t) => match t {
                Target::Absolute(c) => {
                    let v = (a & 0x0f) | ((*c as u16 * 16) % 256) as u8;
                    self.set_reg(Reg::ACC, v);
                },
                _ => return Err(AsmError::UnresolvedOperand(self.reg(Reg::PC))),
            },
            PushableInstruction::Add(o) => {
                let s = self.slot(o).1;
                let sum = a as u16 + s as u16;
                self.set_reg(Reg::ACC, (sum % 256) as u8);
                self.set_reg(Reg::FLAGS, (sum / 256) as u8);
            },
            PushableInstruction::Xor(o) => {
                let s = self.slot(o).1;
                self.set_reg(Reg::ACC, a ^ s);
            },
            PushableInstruction::Not(o) => {
                let s = self.slot(o).1;
                self.set_reg(Reg::ACC, 255 - s);
            },
            PushableInstruction::Or(o) => {
                let s = self.slot(o).1;
                self.set_reg(Reg::ACC, a | s);
            },
            PushableInstruction::And(o) => {
                let s = self.slot(o).1;
                self.set_reg(Reg::ACC, a & s);
            },
            PushableInstruction::Mul(o) => {
                let s = self.slot(o).1;
                assert(a as u32 * s as u32 <= 255 * 255) by (nonlinear_arith)
                    requires
                        a <= 255,
                        s <= 255,
                ;
                self.set_reg(Reg::ACC, ((a as u32 * s as u32) % 256) as u8);
            },
            PushableInstruction::LoadFromStack(o) => {
                let s = self.slot(o).1;
                self.set_reg(Reg::ACC, s);
            },
            PushableInstruction::LoadMem => {
                let v = self.mem[self.reg(Reg::ADDR) as usize];
                self.set_reg(Reg::ACC, v);
            },
            PushableInstruction::LoadPc => {
                let v = self.reg(Reg::PC);
                self.set_reg(Reg::ACC, v);
            },
        }
        Ok(())
    }

    fn push_acc(&mut self)
        requires
            old(self).wf(),
        ensures
            final(self).wf(),
            final(self)@ == push_acc(old(self)@),
    {
        let sp = ((self.reg(Reg::SP) as u16 + 255) % 256) as u8;
        self.set_reg(Reg::SP, sp);
        let a = self.reg(Reg::ACC);
        self.set_mem(sp, a);
    }

    /// Runs one instruction.
    pub fn execute(&mut self, i: &Instruction) -> (r: Result<(), AsmError>)
        requires
            old(self).wf(),
        ensures
            final(self).wf(),
            match r {
                Ok(()) => execute(old(self)@, i@) == Ok::<MachineModel, AsmError>(final(self)@),
                Err(e) => execute(old(self)@, i@) == Err::<MachineModel, AsmError>(e),
            },
    {
        let a = self.reg(Reg::ACC);
        let sp = self.reg(Reg::SP);
        let pc = self.reg(Reg::PC);
        match i {
            Instruction::WithPush(p) => {
                self.operate(p)?;
                self.push_acc();
                self.advance(1);
            },
            Instruction::WithoutPush(p) => {
                self.operate(p)?;
                self.advance(1);
            },
            Instruction::StoreAddr => {
                self.set_reg(Reg::ADDR, a);
                self.advance(1);
            },
            Instruction::StoreMem => {
                let addr = self.reg(Reg::ADDR);
                self.set_mem(addr, a);
                self.advance(1);
            },
            Instruction::JmpAcc => {
                self.set_reg(Reg::PC, a);
            },
            Instruction::Jmp(t) => match t {
                Target::Absolute(c) => self.set_reg(Reg::PC, *c),
                _ => return Err(AsmError::UnresolvedOperand(pc)),
            },
            Instruction::Jz(t) => match t {
                Target::Absolute(c) => if a == 0 {
                    self.set_reg(Reg::PC, *c)
                } else {
                    self.advance(2)
                },
                _ => return Err(AsmError::UnresolvedOperand(pc)),
            },
            Instruction::Jnz(t) => match t {
                Target::Absolute(c) => if a != 0 {
                    self.set_reg(Reg::PC, *c)
                } else {
                    self.advance(2)
                },
                _ => return Err(AsmError::UnresolvedOperand(pc)),
            },
            Instruction::StoreToStack(o) => {
                let addr = self.slot(o).0;
                self.set_mem(addr, a);
                self.advance(1);
            },
            Instruction::Discard(o) => {
                self.set_reg(Reg::SP, ((sp as u16 + o.value() as u16) % 256) as u8);
                self.advance(1);
            },
            Instruction::Alloc(o) => {
                self.set_reg(Reg::SP, ((sp as u16 + 256 - o.value() as u16) % 256) as u8);
                self.advance(1);
            },
            Instruction::PopDiscard(o) => {
                let v = self.mem[sp as usize];
                self.set_reg(Reg::ACC, v);
                self.set_reg(Reg::SP, ((sp as u16 + o.value() as u16 + 1) % 256) as u8);
                self.advance(1);
            },
        }
        Ok(())
    }
}

/// The number of bytes a run of instructions takes.
pub open spec fn rom_size(rom: Seq<InstructionModel>) -> nat
    decreases rom.len(),
{
    if rom.len() == 0 {
        0
    } else {
        rom_size(rom.drop_last()) + size_of(rom.last())
    }
}

/// The index of the instruction that starts at address `a`, when the instructions are
/// laid out one after the other from address 0.
pub open spec fn fetch(rom: Seq<InstructionModel>, a: u8) -> Option<int>
    decreases rom.len(),
{
    if rom.len() == 0 {
        None
    } else if rom_size(rom.drop_last()) == a {
        Some(rom.len() - 1)
    } else {
        fetch(rom.drop_last(), a)
    }
}

/// One cycle: the instruction at the program counter, and the machine after it.
pub open spec fn cycle(rom: Seq<InstructionModel>, m: MachineModel) -> Result<(int, MachineModel), AsmError> {
    match fetch(rom, reg(m, Reg::PC)) {
        None => Err(AsmError::BadInstructionAddress(reg(m, Reg::PC))),
        Some(k) => match execute(m, rom[k]) {
            Ok(n) => Ok((k, n)),
            Err(e) => Err(e),
        },
    }
}

/// The cycles the machine runs from `m` with a budget of `fuel`: it stops when the
/// program counter holds the halt address or the budget is spent. Each cycle gives
/// the index of the instruction it ran and the machine after it.
pub open spec fn trace(rom: Seq<InstructionModel>, m: MachineModel, fuel: nat) -> Result<Seq<(int, MachineModel)>, AsmError>
    decreases fuel,
{
    if fuel == 0 || reg(m, Reg::PC) == HALT_ADDRESS {
        Ok(seq![])
    } else {
        match cycle(rom, m) {
            Err(e) => Err(e),
            Ok((k, n)) => match trace(rom, n, (fuel - 1) as nat) {
                Ok(t) => Ok(seq![(k, n)] + t),
                Err(e) => Err(e),
            },
        }
    }
}

/// One executed cycle: the index of the instruction and the machine after it.
#[derive(Debug)]
pub struct Step {
    pub index: usize,
    pub after: Machine,
}

/// The models of the executed cycles.
pub open spec fn step_models(v: Seq<Step>) -> Seq<(int, MachineModel)> {
    v.map_values(|s: Step| (s.index as int, s.after@))
}

/// A finished simulation: the machine at the end, every cycle, and whether the budget
/// ran out before the machine halted.
#[derive(Debug)]
pub struct Run {
    pub machine: Machine,
    pub cycles: usize,
    pub timed_out: bool,
    pub trace: Vec<Step>,
}

fn address_map(insts: &[Instruction]) -> (r: Option<Vec<Option<usize>>>)
    ensures
        match r {
            None => rom_size(rom_models(insts@)) > 255,
            Some(v) => {
                &&& rom_size(rom_models(insts@)) <= 255
                &&& v@.len() == 256
                &&& forall|a: u8| #[trigger] v@[a as int] == match fetch(rom_models(insts@), a) {
                    Some(k) => Some(k as usize),
                    None => None::<usize>,
                }
            },
        },
{
    let ghost rom = rom_models(insts@);
    let mut v: Vec<Option<usize>> = Vec::new();
    let mut a: usize = 0;
    while a < 256
        invariant
            a <= 256,
            v@.len() == a,
            forall|b: int| 0 <= b < a ==> v@[b] is None,
        decreases 256 - a,
    {
        v.push(None);
        a = a + 1;
    }
    let mut pc: usize = 0;
    let mut k: usize = 0;
    assert(rom.take(0) =~= Seq::<InstructionModel>::empty());
    while k < insts.len()
        invariant
            rom == rom_models(insts@),
            k <= insts@.len(),
            pc == rom_size(rom.take(k as int)),
            pc <= 255,
            v@.len() == 256,
            forall|b: u8| #[trigger] v@[b as int] == match fetch(rom.take(k as int), b) {
                Some(j) => Some(j as usize),
                None => None::<usize>,
            },
        decreases insts@.len() - k,
    {
        let ghost next = rom.take(k as int + 1);
        assert(next.drop_last() =~= rom.take(k as int));
        assert(next.last() == insts@[k as int]@);
        v.set(pc, Some(k));
        proof {
            assert forall|b: u8| #[trigger] v@[b as int] == match fetch(next, b) {
                Some(j) => Some(j as usize),
                None => None::<usize>,
            } by {
                lemma_fetch_range(next.drop_last(), b);
            }
        }
        pc = pc + insts[k].get_size() as usize;
        if pc > 255 {
            proof {
                lemma_rom_size_prefix(rom, k as int + 1);
            }
            return None;
        }
        k = k + 1;
    }
    assert(rom.take(insts@.len() as int) =~= rom);
    Some(v)
}

proof fn lemma_fetch_range(rom: Seq<InstructionModel>, a: u8)
    ensures
        fetch(rom, a) matches Some(k) ==> 0 <= k < rom.len(),
    decreases rom.len(),
{
    if rom.len() > 0 {
        lemma_fetch_range(rom.drop_last(), a);
    }
}

proof fn lemma_rom_size_prefix(rom: Seq<InstructionModel>, k: int)
    requires
        0 <= k <= rom.len(),
    ensures
        rom_size(rom.take(k)) <= rom_size(rom),
    decreases rom.len() - k,
{
    if k < rom.len() {
        lemma_rom_size_prefix(rom, k + 1);
        assert(rom.take(k + 1).drop_last() =~= rom.take(k));
    } else {
        assert(rom.take(k) =~= rom);
    }
}

proof fn lemma_trace_unfold(rom: Seq<InstructionModel>, m: MachineModel, fuel: nat)
    requires
        fuel > 0,
        reg(m, Reg::PC) != HALT_ADDRESS,
    ensures
        trace(rom, m, fuel) == match cycle(rom, m) {
            Err(e) => Err(e),
            Ok((k, n)) => match trace(rom, n, (fuel - 1) as nat) {
                Ok(t) => Ok(seq![(k, n)] + t),
                Err(e) => Err::<Seq<(int, MachineModel)>, AsmError>(e),
            },
        },
{
}

fn run_cycle(m: &mut Machine, insts: &[Instruction], map: &Vec<Option<usize>>) -> (r: Result<usize, AsmError>)
    requires
        old(m).wf(),
        map@.len() == 256,
        forall|b: u8| #[trigger] map@[b as int] == match fetch(rom_models(insts@), b) {
            Some(j) => Some(j as usize),
            None => None::<usize>,
        },
    ensures
        final(m).wf(),
        match r {
            Ok(k) => cycle(rom_models(insts@), old(m)@) == Ok::<(int, MachineModel), AsmError>((k as int, final(m)@)),
            Err(e) => cycle(rom_models(insts@), old(m)@) == Err::<(int, MachineModel), AsmError>(e),
        },
{
    let pc = m.reg(Reg::PC);
    let k = match map[pc as usize] {
        Some(k) => k,
        None => return Err(AsmError::BadInstructionAddress(pc)),
    };
    assert(map@[pc as int] == Some(k));
    let n = insts.len();
    proof {
        lemma_fetch_range(rom_models(insts@), pc);
        assert(map@[pc as int] == match fetch(rom_models(insts@), pc) {
            Some(j) => Some(j as usize),
            None => None::<usize>,
        });
        assert(fetch(rom_models(insts@), pc) is Some);
        let j = fetch(rom_models(insts@), pc)->0;
        assert(rom_models(insts@).len() == insts@.len());
        assert(0 <= j < insts@.len());
        assert(j as usize == k);
    }
    assert(fetch(rom_models(insts@), pc) == Some(k as int));
    m.execute(&insts[k])?;
    Ok(k)
}

/// Runs the program from reset for at most `cycle_limit` cycles, or until the program
/// counter holds 0xFF. The instructions stand one after the other from address 0, and
/// must fit into 255 bytes.
pub fn simulate(insts: &[Instruction], cycle_limit: usize) -> (r: Result<Run, AsmError>)
    ensures
        match r {
            Ok(run) => {
                &&& rom_size(rom_models(insts@)) <= 255
                &&& trace(rom_models(insts@), reset_model(), cycle_limit as nat)
                    == Ok::<Seq<(int, MachineModel)>, AsmError>(step_models(run.trace@))
                &&& run.cycles == run.trace@.len()
                &&& run.machine@ == if run.trace@.len() == 0 { reset_model() } else { run.trace@.last().after@ }
                &&& run.timed_out == (reg(run.machine@, Reg::PC) != HALT_ADDRESS)
            },
            Err(e) => if rom_size(rom_models(insts@)) > 255 {
                e == AsmError::ProgramTooLarge
            } else {
                trace(rom_models(insts@), reset_model(), cycle_limit as nat) == Err::<Seq<(int, MachineModel)>, AsmError>(e)
            },
        },
{
    let ghost rom = rom_models(insts@);
    let map = match address_map(insts) {
        Some(v) => v,
        None => return Err(AsmError::ProgramTooLarge),
    };
    let mut m = Machine::new();
    let mut steps: Vec<Step> = Vec::new();
    let mut cycles: usize = 0;
    assert(seq![] + trace(rom, reset_model(), cycle_limit as nat)->Ok_0 =~= trace(rom, reset_model(), cycle_limit as nat)->Ok_0);
    while cycles < cycle_limit && m.reg(Reg::PC) != HALT_ADDRESS
        invariant
            rom == rom_models(insts@),
            rom_size(rom) <= 255,
            map@.len() == 256,
            forall|b: u8| #[trigger] map@[b as int] == match fetch(rom, b) {
                Some(j) => Some(j as usize),
                None => None::<usize>,
            },
            m.wf(),
            cycles <= cycle_limit,
            cycles == steps@.len(),
            m@ == if steps@.len() == 0 { reset_model() } else { steps@.last().after@ },
            trace(rom, reset_model(), cycle_limit as nat) == match trace(rom, m@, (cycle_limit - cycles) as nat) {
                Ok(t) => Ok(step_models(steps@) + t),
                Err(e) => Err::<Seq<(int, MachineModel)>, AsmError>(e),
            },
        decreases cycle_limit - cycles,
    {
        let ghost before = m@;
        proof {
            lemma_trace_unfold(rom, before, (cycle_limit - cycles) as nat);
        }
        let k = run_cycle(&mut m, insts, &map)?;
        let ghost after = m@;
        let ghost steps_before = steps@;
        steps.push(Step { index: k, after: m.duplicate() });
        cycles = cycles + 1;
        proof {
            assert(step_models(steps@) =~= step_models(steps_before).push((k as int, after)));
            match trace(rom, after, (cycle_limit - cycles) as nat) {
                Ok(t) => {
                    assert(step_models(steps@) + t =~= step_models(steps_before) + (seq![(k as int, after)] + t));
                },
                Err(e) => {},
            }
        }
    }
    assert(trace(rom, m@, (cycle_limit - cycles) as nat) == Ok::<Seq<(int, MachineModel)>, AsmError>(seq![]));
    assert(step_models(steps@) + seq![] =~= step_models(steps@));
    let timed_out = m.reg(Reg::PC) != HALT_ADDRESS;
    Ok(Run { machine: m, cycles, timed_out, trace: steps })
}

} // verus!
