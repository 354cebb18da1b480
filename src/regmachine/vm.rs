use vstd::prelude::*;

use crate::error::AsmError;
use crate::regmachine::assemble::rom_models;
use crate::regmachine::isa::{Instruction, InstructionModel, Reg, Target, TargetModel, REG_COUNT};

verus! {

/// The number of bytes of memory.
pub const MEM_SIZE: usize = 256;

/// The address at which the machine stops.
pub const HALT_ADDRESS: u8 = 0xff;

/// The register file and the memory of the machine.
#[derive(Debug)]
pub struct Machine {
    pub regs: Vec<u8>,
    pub mem: Vec<u8>,
}

/// What a [`Machine`] holds.
pub struct MachineModel {
    pub regs: Seq<u8>,
    pub mem: Seq<u8>,
}

impl View for Machine {
    type V = MachineModel;

    open spec fn view(&self) -> MachineModel {
        MachineModel { regs: self.regs@, mem: self.mem@ }
    }
}

/// A machine with eight registers and 256 bytes of memory.
pub open spec fn machine_wf(m: MachineModel) -> bool {
    m.regs.len() == REG_COUNT && m.mem.len() == MEM_SIZE
}

/// The machine at reset: every register and every byte zero.
pub open spec fn reset_model() -> MachineModel {
    MachineModel { regs: Seq::new(REG_COUNT as nat, |i: int| 0u8), mem: Seq::new(MEM_SIZE as nat, |i: int| 0u8) }
}

pub open spec fn reg(m: MachineModel, r: Reg) -> u8 {
    m.regs[r.spec_index() as int]
}

pub open spec fn with_reg(m: MachineModel, r: Reg, v: u8) -> MachineModel {
    MachineModel { regs: m.regs.update(r.spec_index() as int, v), mem: m.mem }
}

pub open spec fn with_mem(m: MachineModel, a: u8, v: u8) -> MachineModel {
    MachineModel { regs: m.regs, mem: m.mem.update(a as int, v) }
}

/// The low nibble of `c`, sign-extended to a byte.
pub open spec fn low_nibble_signed(c: u8) -> u8 {
    if c & 8 == 8 {
        (c & 0xf) | 0xf0
    } else {
        c & 0xf
    }
}

/// The low five bits of `c` as a signed displacement, from -16 to 15.
pub open spec fn displacement(c: u8) -> int {
    let low = c % 32;
    if low >= 16 {
        low - 32
    } else {
        low as int
    }
}

/// Moves the program counter `n` bytes on, modulo 256.
pub open spec fn advance(m: MachineModel, n: nat) -> MachineModel {
    with_reg(m, Reg::PC, ((reg(m, Reg::PC) + n) % 256) as u8)
}

/// A relative jump: the program counter moves by the displacement in `c`, modulo 256.
pub open spec fn jump(m: MachineModel, c: u8) -> MachineModel {
    with_reg(m, Reg::PC, ((reg(m, Reg::PC) + displacement(c) + 256) % 256) as u8)
}

/// The register an instruction names, if any.
pub open spec fn named_reg(i: InstructionModel) -> Option<Reg> {
    match i {
        InstructionModel::LoadReg(r) | InstructionModel::StoreReg(r) | InstructionModel::Xor(r)
        | InstructionModel::And(r) | InstructionModel::Or(r) | InstructionModel::Add(r)
        | InstructionModel::Not(r) | InstructionModel::Mul(r) | InstructionModel::LoadMem(r)
        | InstructionModel::StoreMem(r) => Some(r),
        _ => None,
    }
}

/// The effect of one instruction. Operations combine the accumulator with a register;
/// an addition leaves its carry in the flags. A store into the program counter, and a
/// jump that is taken, set the program counter; every other instruction moves it on by
/// one.
pub open spec fn execute(m: MachineModel, i: InstructionModel) -> Result<MachineModel, AsmError> {
    let a = reg(m, Reg::ACC);
    let pc = reg(m, Reg::PC);
    if named_reg(i) == Some(Reg::UNKNOWN) {
        Err(AsmError::InvalidRegister)
    } else {
        match i {
            InstructionModel::LoadReg(r) => Ok(advance(with_reg(m, Reg::ACC, reg(m, r)), 1)),
            InstructionModel::StoreReg(r) => if r == Reg::PC {
                Ok(with_reg(m, Reg::PC, a))
            } else {
                Ok(advance(with_reg(m, r, a), 1))
            },
            InstructionModel::Xor(r) => Ok(advance(with_reg(m, Reg::ACC, a ^ reg(m, r)), 1)),
            InstructionModel::And(r) => Ok(advance(with_reg(m, Reg::ACC, a & reg(m, r)), 1)),
            InstructionModel::Or(r) => Ok(advance(with_reg(m, Reg::ACC, a | reg(m, r)), 1)),
            InstructionModel::Add(r) => {
                let sum = a + reg(m, r);
                Ok(advance(with_reg(with_reg(m, Reg::ACC, (sum % 256) as u8), Reg::FLAGS, (sum / 256) as u8), 1))
            },
            InstructionModel::Not(r) => Ok(advance(with_reg(m, Reg::ACC, (255 - reg(m, r)) as u8), 1)),
            InstructionModel::Mul(r) => Ok(advance(with_reg(m, Reg::ACC, ((a * reg(m, r)) % 256) as u8), 1)),
            InstructionModel::LoadMem(r) => Ok(advance(with_reg(m, Reg::ACC, m.mem[reg(m, r) as int]), 1)),
            InstructionModel::StoreMem(r) => Ok(advance(with_mem(m, reg(m, r), a), 1)),
            InstructionModel::LoadLo(TargetModel::Constant(c)) => Ok(advance(with_reg(m, Reg::ACC, low_nibble_signed(c)), 1)),
            InstructionModel::LoadHi(TargetModel::Constant(c)) => Ok(
                advance(with_reg(m, Reg::ACC, (a & 0x0f) | ((c * 16) % 256) as u8), 1),
            ),
            InstructionModel::Jmp(TargetModel::Constant(c)) => Ok(jump(m, c)),
            InstructionModel::Jz(TargetModel::Constant(c)) => Ok(if a == 0 { jump(m, c) } else { advance(m, 1) }),
            InstructionModel::Jnz(TargetModel::Constant(c)) => Ok(if a != 0 { jump(m, c) } else { advance(m, 1) }),
            _ => Err(AsmError::UnresolvedOperand(pc)),
        }
    }
}

impl Machine {
    pub open spec fn wf(&self) -> bool {
        machine_wf(self@)
    }

    /// A machine at reset.
    pub fn new() -> (r: Machine)
        ensures
            r@ == reset_model(),
    {
        let mut regs: Vec<u8> = Vec::new();
        let mut mem: Vec<u8> = Vec::new();
        let mut i: usize = 0;
        while i < MEM_SIZE
            invariant
                i <= MEM_SIZE,
                regs@ == Seq::new(if i < REG_COUNT { i as nat } else { REG_COUNT as nat }, |j: int| 0u8),
                mem@ == Seq::new(i as nat, |j: int| 0u8),
            decreases MEM_SIZE - i,
        {
            if i < REG_COUNT {
                regs.push(0);
            }
            mem.push(0);
            i = i + 1;
            assert(mem@ =~= Seq::new(i as nat, |j: int| 0u8));
            assert(regs@ =~= Seq::new(if i < REG_COUNT { i as nat } else { REG_COUNT as nat }, |j: int| 0u8));
        }
        let r = Machine { regs, mem };
        assert(r@ =~= reset_model());
        r
    }

    /// The value of a register.
    pub fn reg(&self, r: Reg) -> (v: u8)
        requires
            self.wf(),
            r != Reg::UNKNOWN,
        ensures
            v == reg(self@, r),
    {
        self.regs[r.index() as usize]
    }

    /// The byte at an address.
    pub fn peek(&self, a: u8) -> (v: u8)
        requires
            self.wf(),
        ensures
            v == self@.mem[a as int],
    {
        self.mem[a as usize]
    }

    /// A copy of the machine.
    pub fn duplicate(&self) -> (r: Machine)
        ensures
            r@ == self@,
    {
        let mut regs: Vec<u8> = Vec::new();
        let mut i: usize = 0;
        while i < self.regs.len()
            invariant
                i <= self.regs@.len(),
                regs@ == self.regs@.take(i as int),
            decreases self.regs@.len() - i,
        {
            regs.push(self.regs[i]);
            i = i + 1;
            assert(regs@ =~= self.regs@.take(i as int));
        }
        let mut mem: Vec<u8> = Vec::new();
        let mut i: usize = 0;
        while i < self.mem.len()
            invariant
                i <= self.mem@.len(),
                mem@ == self.mem@.take(i as int),
            decreases self.mem@.len() - i,
        {
            mem.push(self.mem[i]);
            i = i + 1;
            assert(mem@ =~= self.mem@.take(i as int));
        }
        assert(regs@ =~= self.regs@);
        assert(mem@ =~= self.mem@);
        Machine { regs, mem }
    }

    fn set_reg(&mut self, r: Reg, v: u8)
        requires
            old(self).wf(),
            r != Reg::UNKNOWN,
        ensures
            final(self).wf(),
            final(self)@ == with_reg(old(self)@, r, v),
    {
        self.regs.set(r.index() as usize, v);
    }

    fn set_mem(&mut self, a: u8, v: u8)
        requires
            old(self).wf(),
        ensures
            final(self).wf(),
            final(self)@ == with_mem(old(self)@, a, v),
    {
        self.mem.set(a as usize, v);
    }

    fn advance(&mut self, n: u8)
        requires
            old(self).wf(),
        ensures
            final(self).wf(),
            final(self)@ == advance(old(self)@, n as nat),
    {
        let pc = ((self.reg(Reg::PC) as u16 + n as u16) % 256) as u8;
        self.set_reg(Reg::PC, pc);
    }

    fn jump(&mut self, c: u8)
        requires
            old(self).wf(),
        ensures
            final(self).wf(),
            final(self)@ == jump(old(self)@, c),
    {
        let low = c % 32;
        let pc = self.reg(Reg::PC) as u16;
        let to = if low >= 16 { (pc + 256 + low as u16 - 32) % 256 } else { (pc + low as u16) % 256 };
        self.set_reg(Reg::PC, to as u8);
    }

    /// Runs one instruction.
    pub fn execute(&mut self, i: &Instruction) -> (r: Result<(), AsmError>)
        requires
            old(self).wf(),
        ensures
            final(self).wf(),
            match r {
                Ok(()) => execute(old(self)@, i@) == Ok::<MachineModel, AsmError>(final(self)@),
                Err(e) => execute(old(self)@, i@) == Err::<MachineModel, AsmError>(e),
            },
    {
        let a = self.reg(Reg::ACC);
        let pc = self.reg(Reg::PC);
        match i {
            Instruction::LoadReg(r) | Instruction::StoreReg(r) | Instruction::Xor(r) | Instruction::And(r)
            | Instruction::Or(r) | Instruction::Add(r) | Instruction::Not(r) | Instruction::Mul(r)
            | Instruction::LoadMem(r) | Instruction::StoreMem(r) => {
                if *r == Reg::UNKNOWN {
                    return Err(AsmError::InvalidRegister);
                }
            },
            _ => {},
        }
        match i {
            Instruction::LoadReg(r) => {
                let v = self.reg(*r);
                self.set_reg(Reg::ACC, v);
                self.advance(1);
            },
            Instruction::StoreReg(r) => {
                self.set_reg(*r, a);
                if *r != Reg::PC {
                    self.advance(1);
                }
            },
            Instruction::Xor(r) => {
                let v = self.reg(*r);
                self.set_reg(Reg::ACC, a ^ v);
                self.advance(1);
            },
            Instruction::And(r) => {
                let v = self.reg(*r);
                self.set_reg(Reg::ACC, a & v);
                self.advance(1);
            },
            Instruction::Or(r) => {
                let v = self.reg(*r);
                self.set_reg(Reg::ACC, a | v);
                self.advance(1);
            },
            Instruction::Add(r) => {
                let sum = a as u16 + self.reg(*r) as u16;
                self.set_reg(Reg::ACC, (sum % 256) as u8);
                self.set_reg(Reg::FLAGS, (sum / 256) as u8);
                self.advance(1);
            },
            Instruction::Not(r) => {
                let v = self.reg(*r);
                self.set_reg(Reg::ACC, 255 - v);
                self.advance(1);
            },
            Instruction::Mul(r) => {
                let v = self.reg(*r);
                assert(a as u32 * v as u32 <= 255 * 255) by (nonlinear_arith)
                    requires
                        a <= 255,
                        v <= 255,
                ;
                self.set_reg(Reg::ACC, ((a as u32 * v as u32) % 256) as u8);
                self.advance(1);
            },
            Instruction::LoadMem(r) => {
                let v = self.mem[self.reg(*r) as usize];
                self.set_reg(Reg::ACC, v);
                self.advance(1);
            },
            Instruction::StoreMem(r) => {
                let at = self.reg(*r);
                self.set_mem(at, a);
                self.advance(1);
            },
            Instruction::LoadLo(Target::Constant(c)) => {
                let v = if *c & 8 == 8 { (*c & 0xf) | 0xf0 } else { *c & 0xf };
                self.set_reg(Reg::ACC, v);
                self.advance(1);
            },
            Instruction::LoadHi(Target::Constant(c)) => {
                let v = (a & 0x0f) | ((*c as u16 * 16) % 256) as u8;
                self.set_reg(Reg::ACC, v);
                self.advance(1);
            },
            Instruction::Jmp(Target::Constant(c)) => self.jump(*c),
            Instruction::Jz(Target::Constant(c)) => if a == 0 {
                self.jump(*c)
            } else {
                self.advance(1)
            },
            Instruction::Jnz(Target::Constant(c)) => if a != 0 {
                self.jump(*c)
            } else {
                self.advance(1)
            },
            _ => return Err(AsmError::UnresolvedOperand(pc)),
        }
        Ok(())
    }
}

/// The instruction that starts at address `a`: every instruction is one byte.
pub open spec fn fetch(rom: Seq<InstructionModel>, a: u8) -> Option<int> {
    if a < rom.len() {
        Some(a as int)
    } else {
        None
    }
}

/// One cycle: the instruction at the program counter, and the machine after it.
pub open spec fn cycle(rom: Seq<InstructionModel>, m: MachineModel) -> Result<(int, MachineModel), AsmError> {
    match fetch(rom, reg(m, Reg::PC)) {
        None => Err(AsmError::BadInstructionAddress(reg(m, Reg::PC))),
        Some(k) => match execute(m, rom[k]) {
            Ok(n) => Ok((k, n)),
            Err(e) => Err(e),
        },
    }
}

/// The cycles the machine runs from `m` with a budget of `fuel`: it stops when the
/// program counter holds the halt address or the budget is spent. Each cycle gives
/// the index of the instruction it ran and the machine after it.
pub open spec fn trace(rom: Seq<InstructionModel>, m: MachineModel, fuel: nat) -> Result<Seq<(int, MachineModel)>, AsmError>
    decreases fuel,
{
    if fuel == 0 || reg(m, Reg::PC) == HALT_ADDRESS {
        Ok(seq![])
    } else {
        match cycle(rom, m) {
            Err(e) => Err(e),
            Ok((k, n)) => match trace(rom, n, (fuel - 1) as nat) {
                Ok(t) => Ok(seq![(k, n)] + t),
                Err(e) => Err(e),
            },
        }
    }
}

/// One executed cycle: the index of the instruction and the machine after it.
#[derive(Debug)]
pub struct Step {
    pub index: usize,
    pub after: Machine,
}

/// The models of the executed cycles.
pub open spec fn step_models(v: Seq<Step>) -> Seq<(int, MachineModel)> {
    v.map_values(|s: Step| (s.index as int, s.after@))
}

/// A finished simulation: the machine at the end, every cycle, and whether the budget
/// ran out before the machine halted.
#[derive(Debug)]
pub struct Run {
    pub machine: Machine,
    pub cycles: usize,
    pub timed_out: bool,
    pub trace: Vec<Step>,
}

proof fn lemma_trace_unfold(rom: Seq<InstructionModel>, m: MachineModel, fuel: nat)
    requires
        fuel > 0,
        reg(m, Reg::PC) != HALT_ADDRESS,
    ensures
        trace(rom, m, fuel) == match cycle(rom, m) {
            Err(e) => Err(e),
            Ok((k, n)) => match trace(rom, n, (fuel - 1) as nat) {
                Ok(t) => Ok(seq![(k, n)] + t),
                Err(e) => Err::<Seq<(int, MachineModel)>, AsmError>(e),
            },
        },
{
}

fn run_cycle(m: &mut Machine, insts: &[Instruction]) -> (r: Result<usize, AsmError>)
    requires
        old(m).wf(),
    ensures
        final(m).wf(),
        match r {
            Ok(k) => cycle(rom_models(insts@), old(m)@) == Ok::<(int, MachineModel), AsmError>((k as int, final(m)@)),
            Err(e) => cycle(rom_models(insts@), old(m)@) == Err::<(int, MachineModel), AsmError>(e),
        },
{
    let pc = m.reg(Reg::PC);
    if pc as usize >= insts.len() {
        return Err(AsmError::BadInstructionAddress(pc));
    }
    m.execute(&insts[pc as usize])?;
    Ok(pc as usize)
}

/// Runs the program from reset for at most `cycle_limit` cycles, or until the program
/// counter holds 0xFF. Instruction `k` stands at address `k`.
pub fn simulate(insts: &[Instruction], cycle_limit: usize) -> (r: Result<Run, AsmError>)
    ensures
        match r {
            Ok(run) => {
                &&& trace(rom_models(insts@), reset_model(), cycle_limit as nat)
                    == Ok::<Seq<(int, MachineModel)>, AsmError>(step_models(run.trace@))
                &&& run.cycles == run.trace@.len()
                &&& run.machine@ == if run.trace@.len() == 0 { reset_model() } else { run.trace@.last().after@ }
                &&& run.timed_out == (reg(run.machine@, Reg::PC) != HALT_ADDRESS)
            },
            Err(e) => trace(rom_models(insts@), reset_model(), cycle_limit as nat) == Err::<Seq<(int, MachineModel)>, AsmError>(e),
        },
{
    let ghost rom = rom_models(insts@);
    let mut m = Machine::new();
    let mut steps: Vec<Step> = Vec::new();
    let mut cycles: usize = 0;
    assert(seq![] + trace(rom, reset_model(), cycle_limit as nat)->Ok_0 =~= trace(rom, reset_model(), cycle_limit as nat)->Ok_0);
    while cycles < cycle_limit && m.reg(Reg::PC) != HALT_ADDRESS
        invariant
            rom == rom_models(insts@),
            m.wf(),
            cycles <= cycle_limit,
            cycles == steps@.len(),
            m@ == if steps@.len() == 0 { reset_model() } else { steps@.last().after@ },
            trace(rom, reset_model(), cycle_limit as nat) == match trace(rom, m@, (cycle_limit - cycles) as nat) {
                Ok(t) => Ok(step_models(steps@) + t),
                Err(e) => Err::<Seq<(int, MachineModel)>, AsmError>(e),
            },
        decreases cycle_limit - cycles,
    {
        let ghost before = m@;
        proof {
            lemma_trace_unfold(rom, before, (cycle_limit - cycles) as nat);
        }
        let k = run_cycle(&mut m, insts)?;
        let ghost after = m@;
        let ghost steps_before = steps@;
        steps.push(Step { index: k, after: m.duplicate() });
        cycles = cycles + 1;
        proof {
            assert(step_models(steps@) =~= step_models(steps_before).push((k as int, after)));
            match trace(rom, after, (cycle_limit - cycles) as nat) {
                Ok(t) => {
                    assert(step_models(steps@) + t =~= step_models(steps_before) + (seq![(k as int, after)] + t));
                },
                Err(e) => {},
            }
        }
    }
    assert(trace(rom, m@, (cycle_limit - cycles) as nat) == Ok::<Seq<(int, MachineModel)>, AsmError>(seq![]));
    assert(step_models(steps@) + seq![] =~= step_models(steps@));
    let timed_out = m.reg(Reg::PC) != HALT_ADDRESS;
    Ok(Run { machine: m, cycles, timed_out, trace: steps })
}

} // verus!
