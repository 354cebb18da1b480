use vstd::prelude::*;

use crate::labels::{lemma_lookup_push, lookup};
use crate::stackmachine::assemble::{
    assembly, code_size, duplicate_label, label_table, line_instructions, placed, resolve_model,
    resolved_code,
};
use crate::stackmachine::isa::{is_resolved, size_of, InstructionModel, PushableModel, Reg, TargetModel};
use crate::stackmachine::parse::LineModel;
use crate::stackmachine::vm::{
    cycle, execute, fetch, machine_wf, reg, reset_model, rom_size, slot, trace, MachineModel,
    HALT_ADDRESS,
};

verus! {

/// Resolving leaves only absolute operands, and resolving a resolved instruction again,
/// at any address and against any table, changes nothing.
pub proof fn lemma_resolve_idempotent(
    i: InstructionModel,
    pc: u8,
    table: Seq<(Seq<char>, u8)>,
    pc2: u8,
    table2: Seq<(Seq<char>, u8)>,
)
    requires
        resolve_model(i, pc, table) is Some,
    ensures
        is_resolved(resolve_model(i, pc, table)->0),
        resolve_model(resolve_model(i, pc, table)->0, pc2, table2) == resolve_model(i, pc, table),
{
}

/// An addition leaves the low byte of the sum in the accumulator and its high byte,
/// the carry, in the flags.
pub proof fn lemma_add_carries(m: MachineModel, o: u8, push: bool)
    requires
        machine_wf(m),
    ensures
        ({
            let i = if push {
                InstructionModel::WithPush(PushableModel::Add(o))
            } else {
                InstructionModel::WithoutPush(PushableModel::Add(o))
            };
            let sum = reg(m, Reg::ACC) + slot(m, o);
            &&& execute(m, i) is Ok
            &&& reg(execute(m, i)->Ok_0, Reg::ACC) == sum % 256
            &&& reg(execute(m, i)->Ok_0, Reg::FLAGS) == sum / 256
        }),
{
}

/// A conditional jump whose condition fails moves the program counter past both of
/// its bytes.
pub proof fn lemma_untaken_jump_skips_operand(m: MachineModel, c: u8)
    requires
        machine_wf(m),
    ensures
        reg(m, Reg::ACC) != 0 ==> execute(m, InstructionModel::Jz(TargetModel::Absolute(c)))
            == Ok::<MachineModel, crate::error::AsmError>(
                crate::stackmachine::vm::advance(m, size_of(InstructionModel::Jz(TargetModel::Absolute(c)))),
            ),
        reg(m, Reg::ACC) == 0 ==> execute(m, InstructionModel::Jnz(TargetModel::Absolute(c)))
            == Ok::<MachineModel, crate::error::AsmError>(
                crate::stackmachine::vm::advance(m, size_of(InstructionModel::Jnz(TargetModel::Absolute(c)))),
            ),
{
}

/// An instruction that never sets the program counter.
pub open spec fn is_straight(i: InstructionModel) -> bool {
    match i {
        InstructionModel::Jmp(_) | InstructionModel::Jz(_) | InstructionModel::Jnz(_) | InstructionModel::JmpAcc => false,
        _ => true,
    }
}

proof fn lemma_rom_size_take(rom: Seq<InstructionModel>, j: int, k: int)
    requires
        0 <= j <= k <= rom.len(),
    ensures
        rom_size(rom.take(j)) + (k - j) <= rom_size(rom.take(k)),
    decreases k - j,
{
    if j < k {
        lemma_rom_size_take(rom, j, k - 1);
        assert(rom.take(k).drop_last() =~= rom.take(k - 1));
    }
}

proof fn lemma_fetch_start(rom: Seq<InstructionModel>, j: int)
    requires
        0 <= j < rom.len(),
        rom_size(rom) <= 255,
    ensures
        fetch(rom, rom_size(rom.take(j)) as u8) == Some(j),
    decreases rom.len(),
{
    let last = rom.len() - 1;
    assert(rom.take(last) =~= rom.drop_last());
    lemma_rom_size_take(rom, j, last);
    if j < last {
        lemma_rom_size_take(rom, j, j + 1);
        lemma_rom_size_take(rom, j + 1, last);
        assert(rom.drop_last().take(j) =~= rom.take(j));
        lemma_fetch_start(rom.drop_last(), j);
    }
}

proof fn lemma_straight_step(m: MachineModel, i: InstructionModel)
    requires
        machine_wf(m),
        is_straight(i),
        is_resolved(i),
    ensures
        execute(m, i) is Ok,
        machine_wf(execute(m, i)->Ok_0),
        reg(execute(m, i)->Ok_0, Reg::PC) == (reg(m, Reg::PC) + 1) % 256,
{
}

proof fn lemma_halt_step(m: MachineModel)
    requires
        machine_wf(m),
    ensures
        execute(m, InstructionModel::Jmp(TargetModel::Absolute(HALT_ADDRESS))) is Ok,
        reg(execute(m, InstructionModel::Jmp(TargetModel::Absolute(HALT_ADDRESS)))->Ok_0, Reg::PC) == HALT_ADDRESS,
        machine_wf(execute(m, InstructionModel::Jmp(TargetModel::Absolute(HALT_ADDRESS)))->Ok_0),
{
}

proof fn lemma_straight_from(rom: Seq<InstructionModel>, h: int, m: MachineModel, j: int, fuel: nat)
    requires
        0 <= j <= h < rom.len(),
        rom_size(rom) <= 255,
        forall|i: int| 0 <= i < h ==> is_straight(#[trigger] rom[i]) && is_resolved(rom[i]),
        rom[h] == InstructionModel::Jmp(TargetModel::Absolute(HALT_ADDRESS)),
        machine_wf(m),
        reg(m, Reg::PC) as nat == rom_size(rom.take(j)),
        fuel > h - j,
    ensures
        trace(rom, m, fuel) matches Ok(t) && t.len() == h - j + 1 && (forall|i: int|
            0 <= i < t.len() ==> (#[trigger] t[i]).0 == j + i && machine_wf(t[i].1) && reg(t[i].1, Reg::PC) == if j + i < h {
                rom_size(rom.take(j + i + 1))
            } else {
                HALT_ADDRESS as nat
            }),
    decreases h - j,
{
    lemma_rom_size_take(rom, j, rom.len() as int);
    assert(rom.take(rom.len() as int) =~= rom);
    lemma_rom_size_take(rom, j + 1, rom.len() as int);
    assert(rom.take(j + 1).drop_last() =~= rom.take(j));
    lemma_fetch_start(rom, j);
    assert(reg(m, Reg::PC) != HALT_ADDRESS);
    if j == h {
        lemma_halt_step(m);
    } else {
        assert(is_straight(rom[j]) && is_resolved(rom[j]));
        lemma_straight_step(m, rom[j]);
    }
    let n = execute(m, rom[j])->Ok_0;
    assert(cycle(rom, m) == Ok::<(int, MachineModel), crate::error::AsmError>((j, n)));
    if j == h {
        assert(trace(rom, n, (fuel - 1) as nat) == Ok::<Seq<(int, MachineModel)>, crate::error::AsmError>(seq![]));
        assert(trace(rom, m, fuel)->Ok_0 =~= seq![(j, n)]);
    } else {
        assert(machine_wf(n) && reg(n, Reg::PC) as nat == rom_size(rom.take(j + 1)));
        lemma_straight_from(rom, h, n, j + 1, (fuel - 1) as nat);
        let t = trace(rom, n, (fuel - 1) as nat)->Ok_0;
        assert(trace(rom, m, fuel)->Ok_0 == seq![(j, n)] + t);
    }
}

/// A program whose instructions before a halt (a jump to 0xFF) never jump runs them
/// one after the other: cycle `j` runs instruction `j`, the program counter passes from
/// each instruction to the next, and the machine halts right after the halt, with the
/// cycle budget not yet spent.
pub proof fn lemma_straight_line_halts(rom: Seq<InstructionModel>, h: int, fuel: nat)
    requires
        0 <= h < rom.len(),
        rom_size(rom) <= 255,
        forall|i: int| 0 <= i < h ==> is_straight(#[trigger] rom[i]) && is_resolved(rom[i]),
        rom[h] == InstructionModel::Jmp(TargetModel::Absolute(HALT_ADDRESS)),
        fuel > h,
    ensures
        trace(rom, reset_model(), fuel) matches Ok(t) && t.len() == h + 1 && (forall|i: int|
            0 <= i < t.len() ==> (#[trigger] t[i]).0 == i && reg(t[i].1, Reg::PC) == if i < h {
                rom_size(rom.take(i + 1))
            } else {
                HALT_ADDRESS as nat
            }),
{
    assert(rom.take(0) =~= Seq::<InstructionModel>::empty());
    lemma_straight_from(rom, h, reset_model(), 0, fuel);
}

/// The address of a label is the number of bytes that the instructions on the lines
/// before its declaration take, whatever else stands around it.
pub proof fn lemma_label_address(lines: Seq<LineModel>, k: int, n: Seq<char>)
    requires
        0 <= k < lines.len(),
        lines[k] == LineModel::Label(n),
        duplicate_label(lines) is None,
    ensures
        lookup(label_table(lines), n) == Some(code_size(placed(lines.take(k))) as u8),
    decreases lines.len(),
{
    let prev = lines.drop_last();
    if k == lines.len() - 1 {
        assert(lines.take(k) =~= prev);
        lemma_lookup_push(label_table(prev), (n, code_size(placed(prev)) as u8), n);
    } else {
        assert(prev.take(k) =~= lines.take(k));
        lemma_label_address(prev, k, n);
        match lines.last() {
            LineModel::Label(m) => {
                lemma_lookup_push(label_table(prev), (m, code_size(placed(prev)) as u8), n);
            },
            _ => {},
        }
    }
}

/// The machine runs at most its budget of cycles, and stops short of it only on the
/// halt address.
pub proof fn lemma_trace_within_budget(rom: Seq<InstructionModel>, m: MachineModel, fuel: nat)
    ensures
        trace(rom, m, fuel) matches Ok(t) ==> t.len() <= fuel && (t.len() < fuel ==> reg(
            if t.len() == 0 { m } else { t.last().1 },
            Reg::PC,
        ) == HALT_ADDRESS),
    decreases fuel,
{
    if fuel > 0 && reg(m, Reg::PC) != HALT_ADDRESS {
        match cycle(rom, m) {
            Ok((k, n)) => {
                lemma_trace_within_budget(rom, n, (fuel - 1) as nat);
                match trace(rom, n, (fuel - 1) as nat) {
                    Ok(t) => {
                        assert((seq![(k, n)] + t).last() == if t.len() == 0 { (k, n) } else { t.last() });
                    },
                    Err(_) => {},
                }
            },
            Err(_) => {},
        }
    }
}

/// A jump to its own address runs for the whole budget: exactly `fuel` cycles, each
/// running that jump, and the machine never halts.
pub proof fn lemma_self_jump_spends_budget(rom: Seq<InstructionModel>, m: MachineModel, k: int, fuel: nat)
    requires
        machine_wf(m),
        0 <= k < rom.len(),
        rom_size(rom) <= 255,
        reg(m, Reg::PC) as nat == rom_size(rom.take(k)),
        rom[k] == InstructionModel::Jmp(TargetModel::Absolute(reg(m, Reg::PC))),
    ensures
        trace(rom, m, fuel) matches Ok(t) && t.len() == fuel && forall|i: int|
            0 <= i < t.len() ==> (#[trigger] t[i]).0 == k && reg(t[i].1, Reg::PC) == reg(m, Reg::PC),
    decreases fuel,
{
    if fuel > 0 {
        lemma_rom_size_take(rom, k, k + 1);
        lemma_rom_size_take(rom, k + 1, rom.len() as int);
        assert(rom.take(rom.len() as int) =~= rom);
        assert(rom.take(k + 1).drop_last() =~= rom.take(k));
        lemma_fetch_start(rom, k);
        let n = execute(m, rom[k])->Ok_0;
        assert(cycle(rom, m) == Ok::<(int, MachineModel), crate::error::AsmError>((k, n)));
        lemma_self_jump_spends_budget(rom, n, k, (fuel - 1) as nat);
        let t = trace(rom, n, (fuel - 1) as nat)->Ok_0;
        assert(trace(rom, m, fuel)->Ok_0 == seq![(k, n)] + t);
    } else {
        assert(trace(rom, m, fuel)->Ok_0 =~= Seq::<(int, MachineModel)>::empty());
    }
}

proof fn lemma_placed_same(l1: Seq<LineModel>, l2: Seq<LineModel>)
    requires
        l1.len() == l2.len(),
        forall|i: int| 0 <= i < l1.len() ==> line_instructions(#[trigger] l1[i]) == line_instructions(l2[i]),
    ensures
        placed(l1) == placed(l2),
    decreases l1.len(),
{
    if l1.len() > 0 {
        lemma_placed_same(l1.drop_last(), l2.drop_last());
    }
}

proof fn lemma_table_has(ls: Seq<LineModel>, n: Seq<char>)
    ensures
        lookup(label_table(ls), n) is Some <==> exists|i: int| 0 <= i < ls.len() && ls[i] == LineModel::Label(n),
    decreases ls.len(),
{
    if ls.len() > 0 {
        let prev = ls.drop_last();
        lemma_table_has(prev, n);
        match ls.last() {
            LineModel::Label(m) => {
                lemma_lookup_push(label_table(prev), (m, code_size(placed(prev)) as u8), n);
            },
            _ => {},
        }
        if exists|i: int| 0 <= i < ls.len() && ls[i] == LineModel::Label(n) {
            let i = choose|i: int| 0 <= i < ls.len() && ls[i] == LineModel::Label(n);
            if i < ls.len() - 1 {
                assert(prev[i] == ls[i]);
            }
        }
        if exists|i: int| 0 <= i < prev.len() && prev[i] == LineModel::Label(n) {
            let i = choose|i: int| 0 <= i < prev.len() && prev[i] == LineModel::Label(n);
            assert(ls[i] == prev[i]);
        }
    }
}

/// No label is declared on two lines.
pub open spec fn labels_distinct(ls: Seq<LineModel>) -> bool {
    forall|i: int, j: int|
        0 <= i < ls.len() && 0 <= j < ls.len() && i != j && (#[trigger] ls[j]) is Label ==> #[trigger] ls[i] != ls[j]
}

proof fn lemma_no_duplicate(ls: Seq<LineModel>)
    ensures
        duplicate_label(ls) is None <==> labels_distinct(ls),
    decreases ls.len(),
{
    if ls.len() > 0 {
        let prev = ls.drop_last();
        let k = ls.len() - 1;
        lemma_no_duplicate(prev);
        assert forall|i: int| 0 <= i < prev.len() implies prev[i] == ls[i] by {}
        match ls.last() {
            LineModel::Label(n) => {
                lemma_table_has(prev, n);
            },
            _ => {},
        }
        if labels_distinct(ls) {
            assert(labels_distinct(prev));
            if ls.last() is Label {
                assert(forall|i: int| 0 <= i < prev.len() ==> prev[i] != ls[k]);
            }
        }
        if duplicate_label(ls) is None {
            assert forall|i: int, j: int|
                0 <= i < ls.len() && 0 <= j < ls.len() && i != j && (#[trigger] ls[j]) is Label implies #[trigger] ls[i] != ls[j] by {
                if j == k {
                    assert(prev[i] == ls[i]);
                } else if i == k {
                    assert(prev[j] == ls[j]);
                } else {
                    assert(prev[i] == ls[i] && prev[j] == ls[j]);
                }
            }
        }
    }
}

proof fn lemma_resolved_same(code: Seq<(InstructionModel, int)>, t1: Seq<(Seq<char>, u8)>, t2: Seq<(Seq<char>, u8)>)
    requires
        forall|n: Seq<char>| #[trigger] lookup(t1, n) == lookup(t2, n),
    ensures
        resolved_code(code, t1) == resolved_code(code, t2),
    decreases code.len(),
{
    if code.len() > 0 {
        lemma_resolved_same(code.drop_last(), t1, t2);
        let i = code.last().0;
        let pc = code_size(code.drop_last()) as u8;
        match i {
            InstructionModel::Jmp(TargetModel::Label(n)) | InstructionModel::Jz(TargetModel::Label(n))
            | InstructionModel::Jnz(TargetModel::Label(n)) => {
                assert(lookup(t1, n) == lookup(t2, n));
            },
            InstructionModel::WithPush(p) | InstructionModel::WithoutPush(p) => match p {
                PushableModel::LoadLo(TargetModel::Label(n)) | PushableModel::LoadHi(TargetModel::Label(n)) => {
                    assert(lookup(t1, n) == lookup(t2, n));
                },
                _ => {},
            },
            _ => {},
        }
        assert(resolve_model(i, pc, t1) == resolve_model(i, pc, t2));
    }
}

/// The program with the lines at `k` and `k + 1` swapped.
pub open spec fn swapped(ls: Seq<LineModel>, k: int) -> Seq<LineModel> {
    ls.update(k, ls[k + 1]).update(k + 1, ls[k])
}

/// Moving a label's declaration past an adjacent comment or label, which hold no
/// code, changes nothing in the assembled program: every label keeps its address.
pub proof fn lemma_label_move(ls: Seq<LineModel>, k: int)
    requires
        0 <= k,
        k + 1 < ls.len(),
        ls[k] is Label,
        ls[k + 1] is Label || ls[k + 1] is Comment,
        duplicate_label(ls) is None,
    ensures
        assembly(swapped(ls, k)) == assembly(ls),
        forall|n: Seq<char>| #[trigger] lookup(label_table(swapped(ls, k)), n) == lookup(label_table(ls), n),
{
    let sw = swapped(ls, k);
    assert forall|i: int| 0 <= i < sw.len() implies line_instructions(#[trigger] sw[i]) == line_instructions(ls[i]) by {}
    lemma_placed_same(sw, ls);
    lemma_no_duplicate(ls);
    assert forall|i: int, j: int|
        0 <= i < sw.len() && 0 <= j < sw.len() && i != j && (#[trigger] sw[j]) is Label implies #[trigger] sw[i] != sw[j] by {
        let pi = if i == k { k + 1 } else if i == k + 1 { k } else { i };
        let pj = if j == k { k + 1 } else if j == k + 1 { k } else { j };
        assert(sw[i] == ls[pi] && sw[j] == ls[pj]);
    }
    lemma_no_duplicate(sw);
    assert forall|n: Seq<char>| #[trigger] lookup(label_table(sw), n) == lookup(label_table(ls), n) by {
        lemma_table_has(ls, n);
        lemma_table_has(sw, n);
        if exists|i: int| 0 <= i < ls.len() && ls[i] == LineModel::Label(n) {
            let p = choose|i: int| 0 <= i < ls.len() && ls[i] == LineModel::Label(n);
            let q = if p == k { k + 1 } else if p == k + 1 { k } else { p };
            assert(sw[q] == LineModel::Label(n));
            lemma_label_address(ls, p, n);
            lemma_label_address(sw, q, n);
            if p < k {
                assert(sw.take(q) =~= ls.take(p));
            } else if p > k + 1 {
                assert forall|i: int| 0 <= i < p implies line_instructions(#[trigger] sw.take(q)[i]) == line_instructions(ls.take(p)[i]) by {}
                lemma_placed_same(sw.take(q), ls.take(p));
            } else if p == k {
                assert(sw.take(q).drop_last() =~= ls.take(p));
            } else {
                assert(sw.take(q) =~= ls.take(k));
                assert(ls.take(p).drop_last() =~= ls.take(k));
            }
        } else {
            assert forall|i: int| 0 <= i < sw.len() implies sw[i] != LineModel::Label(n) by {
                let pi = if i == k { k + 1 } else if i == k + 1 { k } else { i };
                assert(sw[i] == ls[pi]);
            }
        }
    }
    lemma_resolved_same(placed(ls), label_table(sw), label_table(ls));
}

} // verus!
