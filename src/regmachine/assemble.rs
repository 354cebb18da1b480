use vstd::prelude::*;

use crate::error::AsmError;
use crate::labels::{lookup, LabelTable};
use crate::regmachine::isa::{Instruction, InstructionModel, Target, TargetModel};
use crate::regmachine::parse::{Line, LineModel};

verus! {

/// The 5-bit field that holds a displacement from -16 to 15, in two's complement.
pub open spec fn displacement_field(d: int) -> u8 {
    (if d < 0 { d + 32 } else { d }) as u8
}

/// Whether a relative jump can reach a displacement.
pub open spec fn reachable(d: int) -> bool {
    -16 <= d <= 15
}

/// A jump at `pc` to the address its target stands for: the displacement field, or
/// `JumpOutOfRange` when the 5-bit field cannot hold the displacement. A constant
/// stands as it is.
pub open spec fn resolve_jump(t: TargetModel, pc: u8, table: Seq<(Seq<char>, u8)>) -> Option<Result<TargetModel, AsmError>> {
    match t {
        TargetModel::Constant(_) => Some(Ok(t)),
        TargetModel::Label(n) => match lookup(table, n) {
            None => None,
            Some(a) => Some(
                if reachable(a - pc) {
                    Ok(TargetModel::Constant(displacement_field(a - pc)))
                } else {
                    Err(AsmError::JumpOutOfRange { at: pc, target: a })
                },
            ),
        },
    }
}

pub open spec fn jump_with(i: InstructionModel, t: TargetModel) -> InstructionModel {
    match i {
        InstructionModel::Jz(_) => InstructionModel::Jz(t),
        InstructionModel::Jnz(_) => InstructionModel::Jnz(t),
        _ => InstructionModel::Jmp(t),
    }
}

/// The instruction at address `pc` with every label replaced: a nibble load takes the
/// low or the high nibble of the label's address, a jump its displacement from `pc`.
/// `None` when a label is missing from the table.
pub open spec fn resolve_model(i: InstructionModel, pc: u8, table: Seq<(Seq<char>, u8)>) -> Option<Result<InstructionModel, AsmError>> {
    match i {
        InstructionModel::LoadLo(TargetModel::Label(n)) => match lookup(table, n) {
            Some(a) => Some(Ok(InstructionModel::LoadLo(TargetModel::Constant(a & 0xf)))),
            None => None,
        },
        InstructionModel::LoadHi(TargetModel::Label(n)) => match lookup(table, n) {
            Some(a) => Some(Ok(InstructionModel::LoadHi(TargetModel::Constant((a >> 4) & 0xf)))),
            None => None,
        },
        InstructionModel::Jmp(t) | InstructionModel::Jz(t) | InstructionModel::Jnz(t) => match resolve_jump(t, pc, table) {
            None => None,
            Some(Err(e)) => Some(Err(e)),
            Some(Ok(u)) => Some(Ok(jump_with(i, u))),
        },
        _ => Some(Ok(i)),
    }
}

fn resolve_jump_target(t: &Target, pc: u8, labels: &LabelTable) -> (r: Option<Result<Target, AsmError>>)
    requires
        labels.wf(),
    ensures
        match r {
            None => resolve_jump(t@, pc, labels@) is None,
            Some(Ok(u)) => resolve_jump(t@, pc, labels@) == Some(Ok::<TargetModel, AsmError>(u@)),
            Some(Err(e)) => resolve_jump(t@, pc, labels@) == Some(Err::<TargetModel, AsmError>(e)),
        },
{
    match t {
        Target::Constant(c) => Some(Ok(Target::Constant(*c))),
        Target::Label(n) => match labels.find(n.as_str()) {
            None => None,
            Some(a) => {
                let d: i16 = a as i16 - pc as i16;
                if -16 <= d && d <= 15 {
                    Some(Ok(Target::Constant(if d < 0 { (d + 32) as u8 } else { d as u8 })))
                } else {
                    Some(Err(AsmError::JumpOutOfRange { at: pc, target: a }))
                }
            },
        },
    }
}

impl Instruction {
    /// The instruction at address `pc` with every label replaced; `None` when it names
    /// a label that the table lacks, `JumpOutOfRange` when a jump cannot reach its label.
    pub fn resolve(&self, pc: u8, labels: &LabelTable) -> (r: Option<Result<Instruction, AsmError>>)
        requires
            labels.wf(),
        ensures
            match r {
                None => resolve_model(self@, pc, labels@) is None,
                Some(Ok(q)) => resolve_model(self@, pc, labels@) == Some(Ok::<InstructionModel, AsmError>(q@)),
                Some(Err(e)) => resolve_model(self@, pc, labels@) == Some(Err::<InstructionModel, AsmError>(e)),
            },
    {
        match self {
            Instruction::LoadLo(Target::Label(n)) => match labels.find(n.as_str()) {
                Some(a) => Some(Ok(Instruction::LoadLo(Target::Constant(a & 0xf)))),
                None => None,
            },
            Instruction::LoadHi(Target::Label(n)) => match labels.find(n.as_str()) {
                Some(a) => Some(Ok(Instruction::LoadHi(Target::Constant((a >> 4) & 0xf)))),
                None => None,
            },
            Instruction::Jmp(t) | Instruction::Jz(t) | Instruction::Jnz(t) => match resolve_jump_target(t, pc, labels) {
                None => None,
                Some(Err(e)) => Some(Err(e)),
                Some(Ok(u)) => Some(
                    Ok(
                        match self {
                            Instruction::Jz(_) => Instruction::Jz(u),
                            Instruction::Jnz(_) => Instruction::Jnz(u),
                            _ => Instruction::Jmp(u),
                        },
                    ),
                ),
            },
            _ => Some(Ok(self.duplicate())),
        }
    }
}

/// The models of the lines.
pub open spec fn line_models(lines: Seq<Line>) -> Seq<LineModel> {
    lines.map_values(|l: Line| l@)
}

/// The instructions a line contributes to the program.
pub open spec fn line_instructions(l: LineModel) -> Seq<InstructionModel> {
    match l {
        LineModel::Instruction(i) => seq![i],
        LineModel::Macro(_, v) => v,
        _ => seq![],
    }
}

/// The instructions of the lines in order, each with the index of its line.
pub open spec fn placed(lines: Seq<LineModel>) -> Seq<(InstructionModel, int)>
    decreases lines.len(),
{
    if lines.len() == 0 {
        seq![]
    } else {
        let k = lines.len() - 1;
        placed(lines.drop_last()) + line_instructions(lines.last()).map_values(
            |i: InstructionModel| (i, k),
        )
    }
}

/// The number of bytes a run of instructions takes.
pub open spec fn code_size(code: Seq<(InstructionModel, int)>) -> nat
    decreases code.len(),
{
    if code.len() == 0 {
        0
    } else {
        code_size(code.drop_last()) + 1
    }
}

/// The label table of pass 1: each label line, in order, with the number of bytes
/// that the instructions before it take.
pub open spec fn label_table(lines: Seq<LineModel>) -> Seq<(Seq<char>, u8)>
    decreases lines.len(),
{
    if lines.len() == 0 {
        seq![]
    } else {
        let prev = label_table(lines.drop_last());
        match lines.last() {
            LineModel::Label(n) => prev.push((n, code_size(placed(lines.drop_last())) as u8)),
            _ => prev,
        }
    }
}

/// The first line that declares a label declared on an earlier line.
pub open spec fn duplicate_label(lines: Seq<LineModel>) -> Option<int>
    decreases lines.len(),
{
    if lines.len() == 0 {
        None
    } else {
        match duplicate_label(lines.drop_last()) {
            Some(k) => Some(k),
            None => match lines.last() {
                LineModel::Label(n) => if lookup(label_table(lines.drop_last()), n) is Some {
                    Some(lines.len() - 1)
                } else {
                    None
                },
                _ => None,
            },
        }
    }
}

/// Pass 2 over placed instructions: each resolved at its own address; or, for the
/// first one that cannot be, the line of its undefined label or its unreachable jump.
pub open spec fn resolved_code(code: Seq<(InstructionModel, int)>, table: Seq<(Seq<char>, u8)>) -> Result<Seq<InstructionModel>, AsmError>
    decreases code.len(),
{
    if code.len() == 0 {
        Ok(seq![])
    } else {
        match resolved_code(code.drop_last(), table) {
            Err(e) => Err(e),
            Ok(prev) => match resolve_model(code.last().0, code_size(code.drop_last()) as u8, table) {
                Some(Ok(i)) => Ok(prev.push(i)),
                Some(Err(e)) => Err(e),
                None => Err(AsmError::UndefinedLabel { line: code.last().1 as usize }),
            },
        }
    }
}

/// What assembling the lines gives: the resolved instructions in order; or, first,
/// that they pass 255 bytes; then the first duplicate label; then the first reference
/// to an undefined label or jump out of reach.
pub open spec fn assembly(lines: Seq<LineModel>) -> Result<Seq<InstructionModel>, AsmError> {
    let code = placed(lines);
    if code_size(code) > 255 {
        Err(AsmError::ProgramTooLarge)
    } else {
        match duplicate_label(lines) {
            Some(k) => Err(AsmError::DuplicateLabel { line: k as usize }),
            None => resolved_code(code, label_table(lines)),
        }
    }
}

proof fn lemma_code_size_append(a: Seq<(InstructionModel, int)>, b: Seq<(InstructionModel, int)>)
    ensures
        code_size(a + b) == code_size(a) + code_size(b),
    decreases b.len(),
{
    if b.len() == 0 {
        assert(a + b =~= a);
    } else {
        lemma_code_size_append(a, b.drop_last());
        assert((a + b).drop_last() =~= a + b.drop_last());
    }
}

proof fn lemma_placed_prefix(lines: Seq<LineModel>, k: int)
    requires
        0 <= k <= lines.len(),
    ensures
        placed(lines) =~= placed(lines.take(k)) + placed(lines).skip(placed(lines.take(k)).len() as int),
    decreases lines.len() - k,
{
    if k == lines.len() {
        assert(lines.take(k) =~= lines);
    } else {
        lemma_placed_prefix(lines, k + 1);
        let t = lines.take(k + 1);
        assert(t.drop_last() =~= lines.take(k));
    }
}

proof fn lemma_resolved_err(a: Seq<(InstructionModel, int)>, b: Seq<(InstructionModel, int)>, table: Seq<(Seq<char>, u8)>)
    requires
        resolved_code(a, table) is Err,
    ensures
        resolved_code(a + b, table) == resolved_code(a, table),
    decreases b.len(),
{
    if b.len() == 0 {
        assert(a + b =~= a);
    } else {
        lemma_resolved_err(a, b.drop_last(), table);
        assert((a + b).drop_last() =~= a + b.drop_last());
    }
}

proof fn lemma_code_size_prefix(lines: Seq<LineModel>, k: int)
    requires
        0 <= k <= lines.len(),
    ensures
        code_size(placed(lines.take(k))) <= code_size(placed(lines)),
    decreases lines.len() - k,
{
    if k == lines.len() {
        assert(lines.take(k) =~= lines);
    } else {
        lemma_code_size_prefix(lines, k + 1);
        let t = lines.take(k + 1);
        assert(t.drop_last() =~= lines.take(k));
        lemma_code_size_append(
            placed(lines.take(k)),
            line_instructions(t.last()).map_values(|i: InstructionModel| (i, k)),
        );
    }
}

/// A program: its resolved instructions, and for each the index of the line it came
/// from and its address.
#[derive(Debug)]
pub struct Assembly {
    pub rom: Vec<Instruction>,
    pub placement: Vec<(usize, u8)>,
}

/// The models of a run of instructions.
pub open spec fn rom_models(v: Seq<Instruction>) -> Seq<InstructionModel> {
    v.map_values(|i: Instruction| i@)
}

fn line_code(l: &Line) -> (r: Vec<Instruction>)
    ensures
        rom_models(r@) == line_instructions(l@),
{
    let mut r: Vec<Instruction> = Vec::new();
    match l {
        Line::Instruction(i) => {
            r.push(i.duplicate());
        },
        Line::Macro(_, v) => {
            let mut j: usize = 0;
            while j < v.len()
                invariant
                    j <= v@.len(),
                    rom_models(r@) == rom_models(v@).take(j as int),
                decreases v@.len() - j,
            {
                let d = v[j].duplicate();
                let ghost r_before = r@;
                r.push(d);
                assert(r@ == r_before.push(d));
                assert(rom_models(r@) =~= rom_models(r_before).push(d@));
                assert(rom_models(v@).take(j as int + 1) =~= rom_models(v@).take(j as int).push(v@[j as int]@));
                j = j + 1;
            }
            assert(rom_models(v@).take(j as int) =~= rom_models(v@));
        },
        _ => {},
    }
    assert(rom_models(r@) =~= line_instructions(l@));
    r
}

/// Assembles the lines: pass 1 gives each label the address of the instruction after
/// it; pass 2 resolves every instruction at its own address. Every instruction is one
/// byte.
pub fn assemble(lines: &[Line]) -> (r: Result<Assembly, AsmError>)
    ensures
        match r {
            Ok(a) => {
                &&& assembly(line_models(lines@)) == Ok::<Seq<InstructionModel>, AsmError>(rom_models(a.rom@))
                &&& a.placement@.len() == a.rom@.len()
                &&& forall|j: int| 0 <= j < a.placement@.len() ==> {
                    &&& (#[trigger] a.placement@[j]).0 as int == placed(line_models(lines@))[j].1
                    &&& a.placement@[j].1 as nat == code_size(placed(line_models(lines@)).take(j))
                }
            },
            Err(e) => assembly(line_models(lines@)) == Err::<Seq<InstructionModel>, AsmError>(e),
        },
{
    let ghost ls = line_models(lines@);
    // pass 1: the label table, the size, the first duplicate label
    let mut table = LabelTable::new();
    let mut addr: usize = 0;
    let mut duplicate: Option<usize> = None;
    let mut k: usize = 0;
    assert(ls.take(0) =~= Seq::<LineModel>::empty());
    while k < lines.len()
        invariant
            ls == line_models(lines@),
            k <= lines@.len(),
            table.wf(),
            table@ == label_table(ls.take(k as int)),
            addr == code_size(placed(ls.take(k as int))),
            addr <= 255,
            duplicate == match duplicate_label(ls.take(k as int)) {
                Some(j) => Some(j as usize),
                None => None::<usize>,
            },
        decreases lines@.len() - k,
    {
        let ghost prefix = ls.take(k as int);
        let ghost next = ls.take(k as int + 1);
        assert(next.drop_last() =~= prefix);
        assert(next.last() == lines@[k as int]@);
        match &lines[k] {
            Line::Label(name) => {
                if duplicate.is_none() && table.find(name.as_str()).is_some() {
                    duplicate = Some(k);
                }
                table.insert(name.clone(), addr as u8);
            },
            _ => {},
        }
        let code = line_code(&lines[k]);
        let ghost before = placed(prefix);
        let ghost added = line_instructions(next.last()).map_values(|i: InstructionModel| (i, k as int));
        assert(placed(next) == before + added);
        let mut j: usize = 0;
        assert(before + added.take(0) =~= before);
        while j < code.len()
            invariant
                ls == line_models(lines@),
                k < lines@.len(),
                next == ls.take(k as int + 1),
                placed(next) == before + added,
                rom_models(code@) == line_instructions(next.last()),
                added == line_instructions(next.last()).map_values(|i: InstructionModel| (i, k as int)),
                j <= code@.len(),
                addr == code_size(before + added.take(j as int)),
                addr <= 255,
            decreases code@.len() - j,
        {
            assert((before + added.take(j as int + 1)).drop_last() =~= before + added.take(j as int));
            assert(code@[j as int]@ == added[j as int].0);
            addr = addr + 1;
            if addr > 255 {
                proof {
                    lemma_code_size_append(before + added.take(j as int + 1), added.skip(j as int + 1));
                    assert(before + added.take(j as int + 1) + added.skip(j as int + 1) =~= placed(next));
                    lemma_code_size_prefix(ls, k as int + 1);
                }
                return Err(AsmError::ProgramTooLarge);
            }
            j = j + 1;
        }
        assert(added.take(code@.len() as int) =~= added);
        k = k + 1;
    }
    assert(ls.take(lines@.len() as int) =~= ls);
    if let Some(d) = duplicate {
        return Err(AsmError::DuplicateLabel { line: d });
    }
    // pass 2: every instruction resolved at its own address
    let mut rom: Vec<Instruction> = Vec::new();
    let mut placement: Vec<(usize, u8)> = Vec::new();
    let mut pc: usize = 0;
    let ghost all = placed(ls);
    let mut k: usize = 0;
    assert(rom_models(rom@) =~= Seq::<InstructionModel>::empty());
    while k < lines.len()
        invariant
            ls == line_models(lines@),
            all == placed(ls),
            code_size(all) <= 255,
            duplicate_label(ls) is None,
            k <= lines@.len(),
            table.wf(),
            table@ == label_table(ls),
            pc == code_size(placed(ls.take(k as int))),
            resolved_code(placed(ls.take(k as int)), table@) == Ok::<Seq<InstructionModel>, AsmError>(rom_models(rom@)),
            placement@.len() == rom@.len(),
            rom@.len() == placed(ls.take(k as int)).len(),
            forall|j: int| 0 <= j < placement@.len() ==> {
                &&& (#[trigger] placement@[j]).0 as int == placed(ls.take(k as int))[j].1
                &&& placement@[j].1 as nat == code_size(placed(ls.take(k as int)).take(j))
            },
        decreases lines@.len() - k,
    {
        let ghost prefix = ls.take(k as int);
        let ghost next = ls.take(k as int + 1);
        assert(next.drop_last() =~= prefix);
        assert(next.last() == lines@[k as int]@);
        let code = line_code(&lines[k]);
        let ghost before = placed(prefix);
        let ghost added = line_instructions(next.last()).map_values(|i: InstructionModel| (i, k as int));
        assert(placed(next) == before + added);
        proof {
            lemma_code_size_prefix(ls, k as int + 1);
            lemma_placed_prefix(ls, k as int + 1);
        }
        let mut j: usize = 0;
        assert(before + added.take(0) =~= before);
        while j < code.len()
            invariant
                ls == line_models(lines@),
                all == placed(ls),
                all =~= placed(next) + all.skip(placed(next).len() as int),
                code_size(all) <= 255,
                duplicate_label(ls) is None,
                k < lines@.len(),
                next == ls.take(k as int + 1),
                placed(next) == before + added,
                table.wf(),
                table@ == label_table(ls),
                rom_models(code@) == line_instructions(next.last()),
                added == line_instructions(next.last()).map_values(|i: InstructionModel| (i, k as int)),
                code_size(before + added) <= 255,
                j <= code@.len(),
                pc == code_size(before + added.take(j as int)),
                resolved_code(before + added.take(j as int), table@) == Ok::<Seq<InstructionModel>, AsmError>(rom_models(rom@)),
                placement@.len() == rom@.len(),
                rom@.len() == (before + added.take(j as int)).len(),
                forall|i: int| 0 <= i < placement@.len() ==> {
                    &&& (#[trigger] placement@[i]).0 as int == (before + added.take(j as int))[i].1
                    &&& placement@[i].1 as nat == code_size((before + added.take(j as int)).take(i))
                },
            decreases code@.len() - j,
        {
            let ghost cur = before + added.take(j as int);
            let ghost nxt = before + added.take(j as int + 1);
            assert(nxt.drop_last() =~= cur);
            assert(code@[j as int]@ == added[j as int].0);
            proof {
                lemma_code_size_append(nxt, added.skip(j as int + 1));
                assert(nxt + added.skip(j as int + 1) =~= before + added);
            }
            match code[j].resolve(pc as u8, &table) {
                Some(Ok(q)) => {
                    let ghost rom_before = rom@;
                    rom.push(q);
                    placement.push((k, pc as u8));
                    proof {
                        assert(rom_models(rom@) =~= rom_models(rom_before).push(q@));
                        assert forall|i: int| 0 <= i < placement@.len() implies {
                            &&& (#[trigger] placement@[i]).0 as int == nxt[i].1
                            &&& placement@[i].1 as nat == code_size(nxt.take(i))
                        } by {
                            if i < placement@.len() - 1 {
                                assert(nxt.take(i) =~= cur.take(i));
                            } else {
                                assert(nxt.take(i) =~= cur);
                            }
                        }
                    }
                },
                None => {
                    proof {
                        assert(nxt + added.skip(j as int + 1) + all.skip(placed(next).len() as int) =~= all);
                        lemma_resolved_err(nxt, added.skip(j as int + 1) + all.skip(placed(next).len() as int), table@);
                        assert(nxt + (added.skip(j as int + 1) + all.skip(placed(next).len() as int)) =~= all);
                    }
                    return Err(AsmError::UndefinedLabel { line: k });
                },
                Some(Err(e)) => {
                    proof {
                        assert(nxt + added.skip(j as int + 1) + all.skip(placed(next).len() as int) =~= all);
                        lemma_resolved_err(nxt, added.skip(j as int + 1) + all.skip(placed(next).len() as int), table@);
                        assert(nxt + (added.skip(j as int + 1) + all.skip(placed(next).len() as int)) =~= all);
                    }
                    return Err(e);
                },
            }
            pc = pc + 1;
            j = j + 1;
        }
        assert(added.take(code@.len() as int) =~= added);
        k = k + 1;
    }
    assert(ls.take(lines@.len() as int) =~= ls);
    Ok(Assembly { rom, placement })
}

} // verus!
