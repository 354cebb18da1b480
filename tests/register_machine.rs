use asm8::error::AsmError;
use asm8::labels::LabelTable;
use asm8::regmachine::{assemble, expand_macro, simulate, Instruction, Line, Reg, Target};

fn parse_all(src: &[&str]) -> Vec<Line> {
    src.iter().map(|l| Line::parse(l.to_string()).unwrap()).collect()
}

fn build(src: &[&str]) -> Vec<Instruction> {
    assemble(&parse_all(src)).unwrap().rom
}

#[test]
fn register_names() {
    assert_eq!(Reg::parse("acc"), Some(Reg::ACC));
    assert_eq!(Reg::parse("flags"), Some(Reg::FLAGS));
    assert_eq!(Reg::parse("pc"), Some(Reg::PC));
    assert_eq!(Reg::parse("ACC"), None);
    assert_eq!(Reg::parse("unknown"), None);
    assert_eq!(Reg::SP.index(), 6);
}

#[test]
fn register_target_parse_forms() {
    assert_eq!(Target::parse(":x"), Ok(Target::Label(":x".to_string())));
    assert_eq!(Target::parse("c"), Ok(Target::Constant(12)));
    assert_eq!(Target::parse(""), Err(AsmError::MissingOperand));
    assert_eq!(Target::parse("w"), Err(AsmError::InvalidHex));
}

#[test]
fn instruction_parse() {
    assert_eq!(Instruction::parse("StoreReg sp"), Ok(Instruction::StoreReg(Reg::SP)));
    assert_eq!(Instruction::parse("loadlo 5"), Ok(Instruction::LoadLo(Target::Constant(5))));
    assert_eq!(Instruction::parse("JNZ :top"), Ok(Instruction::Jnz(Target::Label(":top".to_string()))));
    assert_eq!(Instruction::parse("xor q"), Err(AsmError::InvalidRegister));
    assert_eq!(Instruction::parse("add"), Err(AsmError::MissingOperand));
    assert_eq!(Instruction::parse("push b"), Err(AsmError::UnknownMnemonic));
    assert_eq!(Instruction::parse(""), Err(AsmError::MissingMnemonic));
}

#[test]
fn encodings_are_distinct_per_jump() {
    assert_eq!(Instruction::StoreReg(Reg::PC).encode(), 0x07);
    assert_eq!(Instruction::StoreMem(Reg::SP).encode(), 0x0e);
    assert_eq!(Instruction::Xor(Reg::B).encode(), 0x41);
    assert_eq!(Instruction::And(Reg::C).encode(), 0x4a);
    assert_eq!(Instruction::Or(Reg::D).encode(), 0x53);
    assert_eq!(Instruction::Add(Reg::SP).encode(), 0x5e);
    assert_eq!(Instruction::Not(Reg::E).encode(), 0x64);
    assert_eq!(Instruction::Mul(Reg::FLAGS).encode(), 0x6d);
    assert_eq!(Instruction::LoadReg(Reg::ACC).encode(), 0x70);
    assert_eq!(Instruction::LoadMem(Reg::B).encode(), 0x79);
    assert_eq!(Instruction::LoadLo(Target::Constant(5)).encode(), 0x85);
    assert_eq!(Instruction::LoadHi(Target::Constant(5)).encode(), 0x95);
    assert_eq!(Instruction::Jmp(Target::Constant(3)).encode(), 0xa3);
    assert_eq!(Instruction::Jz(Target::Constant(3)).encode(), 0xc3);
    assert_eq!(Instruction::Jnz(Target::Constant(3)).encode(), 0xe3);
}

#[test]
fn macro_expansions() {
    let words = vec!["inc", "b"];
    assert_eq!(
        expand_macro("inc", &words),
        Some(Ok(vec![Instruction::LoadLo(Target::Constant(1)), Instruction::Add(Reg::B), Instruction::StoreReg(Reg::B)]))
    );
    let words = vec!["dec", "c"];
    assert_eq!(
        expand_macro("dec", &words),
        Some(Ok(vec![Instruction::LoadLo(Target::Constant(0xf)), Instruction::Add(Reg::C), Instruction::StoreReg(Reg::C)]))
    );
    let words = vec!["push", "acc"];
    assert_eq!(expand_macro("push", &words), Some(Err(AsmError::AccumulatorOperand)));
    let words = vec!["pop", "zz"];
    assert_eq!(expand_macro("pop", &words), Some(Err(AsmError::InvalidRegister)));
    let words = vec!["loadlo", "1"];
    assert_eq!(expand_macro("loadlo", &words), None);
    match Line::parse("Call :f".to_string()).unwrap() {
        Line::Macro(_, v) => {
            assert_eq!(v.len(), 12);
            assert_eq!(v[6], Instruction::LoadLo(Target::Label(":f".to_string())));
            assert_eq!(v[7], Instruction::LoadHi(Target::Label(":f".to_string())));
        }
        other => panic!("not a macro: {:?}", other),
    }
    assert_eq!(Line::parse("pop acc".to_string()).unwrap_err(), AsmError::AccumulatorOperand);
}

#[test]
fn jump_reach_boundaries() {
    let mut t = LabelTable::new();
    t.insert(":a".to_string(), 20);
    let j = Instruction::Jmp(Target::Label(":a".to_string()));
    assert_eq!(j.resolve(5, &t), Some(Ok(Instruction::Jmp(Target::Constant(15)))));
    assert_eq!(j.resolve(4, &t), Some(Err(AsmError::JumpOutOfRange { at: 4, target: 20 })));
    assert_eq!(j.resolve(36, &t), Some(Ok(Instruction::Jmp(Target::Constant(0x10)))));
    assert_eq!(j.resolve(37, &t), Some(Err(AsmError::JumpOutOfRange { at: 37, target: 20 })));
    assert_eq!(j.resolve(20, &t), Some(Ok(Instruction::Jmp(Target::Constant(0)))));
    let z = Instruction::Jz(Target::Label(":a".to_string()));
    assert_eq!(z.resolve(21, &t), Some(Ok(Instruction::Jz(Target::Constant(0x1f)))));
    assert_eq!(Instruction::Jnz(Target::Label(":b".to_string())).resolve(0, &t), None);
    let lo = Instruction::LoadLo(Target::Label(":a".to_string()));
    assert_eq!(lo.resolve(0, &t), Some(Ok(Instruction::LoadLo(Target::Constant(4)))));
    let hi = Instruction::LoadHi(Target::Label(":a".to_string()));
    assert_eq!(hi.resolve(0, &t), Some(Ok(Instruction::LoadHi(Target::Constant(1)))));
}

#[test]
fn backward_and_forward_jumps_land_on_labels() {
    // a jump 15 bytes forward and one 16 bytes back, both at the edge of the field
    let mut src: Vec<&str> = vec!["loadlo 1"];
    src.extend(std::iter::repeat("storereg b").take(13));
    src.push(":back");
    src.push("storereg b"); // at 14
    src.push("jnz :ahead"); // at 15; :ahead at 30
    src.extend(std::iter::repeat("storereg c").take(14));
    src.push(":ahead");
    src.push("jz :back"); // at 30, never taken
    src.push("halt");
    let rom = build(&src);
    assert_eq!(rom[15], Instruction::Jnz(Target::Constant(15)));
    assert_eq!(rom[30], Instruction::Jz(Target::Constant(0x10)));
    let run = simulate(&rom, 100).unwrap();
    assert!(!run.timed_out);
    assert_eq!(run.trace[15].after.reg(Reg::PC), 30);

    let mut far: Vec<&str> = vec!["jmp :far"];
    far.extend(std::iter::repeat("storereg b").take(15));
    far.push(":far");
    far.push("halt");
    let lines = parse_all(&far);
    assert_eq!(assemble(&lines).unwrap_err(), AsmError::JumpOutOfRange { at: 0, target: 16 });
}

#[test]
fn load_store_halt_program() {
    let lines = parse_all(&["loadlo 5", "storereg acc", "halt"]);
    assert_eq!(lines.len(), 3);
    let program = assemble(&lines).unwrap();
    let bytes: Vec<u8> = program.rom.iter().map(|i| i.encode()).collect();
    assert_eq!(bytes, vec![0x85, 0x00, 0x8f, 0x07]);
    assert_eq!(program.placement, vec![(0, 0), (1, 1), (2, 2), (2, 3)]);
    let run = simulate(&program.rom, 100).unwrap();
    assert!(!run.timed_out);
    assert_eq!(run.cycles, 4);
    assert_eq!(run.trace[1].after.reg(Reg::ACC), 0x05);
    // the halt sequence loads 0xF, sign-extended, into the accumulator before the transfer
    assert_eq!(run.machine.reg(Reg::ACC), 0xff);
    assert_eq!(run.machine.reg(Reg::PC), 0xff);
}

#[test]
fn add_wraps_with_carry_in_flags() {
    let rom = build(&["loadlo f", "storereg b", "loadlo 2", "add b", "halt"]);
    let run = simulate(&rom, 100).unwrap();
    assert_eq!(run.trace[3].after.reg(Reg::ACC), 0x01);
    assert_eq!(run.trace[3].after.reg(Reg::FLAGS), 0x01);
}

#[test]
fn call_subroutine_and_return() {
    let rom = build(&["call :sub", "halt", ":sub", "loadlo 7", "storereg b", "ret"]);
    let run = simulate(&rom, 100).unwrap();
    assert!(!run.timed_out);
    assert_eq!(run.machine.reg(Reg::B), 7);
    assert_eq!(run.machine.reg(Reg::SP), 0);
    assert_eq!(run.cycles, 18);
}

#[test]
fn push_and_pop_through_memory() {
    let rom = build(&["loadlo 6", "storereg c", "push c", "loadlo 0", "storereg c", "pop d", "halt"]);
    let run = simulate(&rom, 100).unwrap();
    assert_eq!(run.machine.reg(Reg::D), 6);
    assert_eq!(run.machine.reg(Reg::SP), 0);
    assert_eq!(run.machine.peek(0xff), 6);
}

#[test]
fn register_self_jump_times_out_exactly() {
    let rom = build(&["loadlo 1", ":loop", "jmp :loop"]);
    assert_eq!(rom[1], Instruction::Jmp(Target::Constant(0)));
    for limit in [1usize, 2, 9, 100] {
        let run = simulate(&rom, limit).unwrap();
        assert!(run.timed_out);
        assert_eq!(run.cycles, limit);
    }
}

#[test]
fn alu_operations() {
    let rom = build(&[
        "loadlo 6", "storereg b", "loadlo 3", "xor b", "or b", "and b", "mul b", "not b", "storereg e",
        "storemem b", "loadmem b", "loadreg pc", "halt",
    ]);
    let run = simulate(&rom, 100).unwrap();
    assert_eq!(run.trace[3].after.reg(Reg::ACC), 5);
    assert_eq!(run.trace[4].after.reg(Reg::ACC), 7);
    assert_eq!(run.trace[5].after.reg(Reg::ACC), 6);
    assert_eq!(run.trace[6].after.reg(Reg::ACC), 36);
    assert_eq!(run.trace[7].after.reg(Reg::ACC), !6u8);
    assert_eq!(run.machine.peek(6), !6u8);
    assert_eq!(run.trace[10].after.reg(Reg::ACC), !6u8);
    assert_eq!(run.trace[11].after.reg(Reg::ACC), 11);
}

#[test]
fn assembly_and_execution_errors() {
    assert_eq!(assemble(&parse_all(&[":a", ":a"])).unwrap_err(), AsmError::DuplicateLabel { line: 1 });
    assert_eq!(assemble(&parse_all(&["jz :none"])).unwrap_err(), AsmError::UndefinedLabel { line: 0 });
    let big: Vec<&str> = std::iter::repeat("storereg b").take(256).collect();
    assert_eq!(assemble(&parse_all(&big)).unwrap_err(), AsmError::ProgramTooLarge);
    let rom = build(&["loadlo 9", "storereg pc"]);
    assert_eq!(simulate(&rom, 10).unwrap_err(), AsmError::BadInstructionAddress(0xf9));
    let rom = vec![Instruction::LoadHi(Target::Label(":x".to_string()))];
    assert_eq!(simulate(&rom, 10).unwrap_err(), AsmError::UnresolvedOperand(0));
    let rom = vec![Instruction::LoadReg(Reg::UNKNOWN)];
    assert_eq!(simulate(&rom, 10).unwrap_err(), AsmError::InvalidRegister);
}
