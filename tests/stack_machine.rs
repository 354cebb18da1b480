use asm8::error::AsmError;
use asm8::labels::LabelTable;
use asm8::stackmachine::{
    assemble, simulate, Instruction, Line, Macro, PushableInstruction, Reg, StackOffset, Target,
};

fn parse_all(src: &[&str]) -> Vec<Line> {
    src.iter().map(|l| Line::parse(l.to_string()).unwrap()).collect()
}

fn build(src: &[&str]) -> Vec<Instruction> {
    assemble(&parse_all(src)).unwrap().rom
}

#[test]
fn target_parse_forms() {
    assert_eq!(Target::parse(":loop"), Ok(Target::Label(":loop".to_string())));
    assert_eq!(Target::parse("1f"), Ok(Target::Absolute(0x1f)));
    assert_eq!(Target::parse(""), Err(AsmError::MissingOperand));
    assert_eq!(Target::parse("zz"), Err(AsmError::InvalidHex));
    assert_eq!(Target::parse("100"), Err(AsmError::InvalidHex));
}

#[test]
fn stack_offset_bounds() {
    assert_eq!(StackOffset::parse("7").unwrap().value(), 7);
    assert_eq!(StackOffset::top().value(), 0);
    assert_eq!(StackOffset::new(3).value(), 3);
    assert_eq!(StackOffset::parse("8"), Err(AsmError::StackOffsetOutOfRange(8)));
    assert_eq!(StackOffset::parse("x"), Err(AsmError::InvalidHex));
}

#[test]
fn instruction_parse_any_case_and_push() {
    assert_eq!(
        Instruction::parse("LoadLo 5 push"),
        Ok(Instruction::WithPush(PushableInstruction::LoadLo(Target::Absolute(5))))
    );
    assert_eq!(
        Instruction::parse("ADD 3"),
        Ok(Instruction::WithoutPush(PushableInstruction::Add(StackOffset::new(3))))
    );
    assert_eq!(
        Instruction::parse("loadmem push"),
        Ok(Instruction::WithPush(PushableInstruction::LoadMem))
    );
    assert_eq!(Instruction::parse("JZ :end"), Ok(Instruction::Jz(Target::Label(":end".to_string()))));
    assert_eq!(Instruction::parse("alloc 2"), Ok(Instruction::Alloc(StackOffset::new(2))));
    assert_eq!(Instruction::parse("storeaddr"), Ok(Instruction::StoreAddr));
}

#[test]
fn instruction_parse_errors() {
    assert_eq!(Instruction::parse("frobnicate 1"), Err(AsmError::UnknownMnemonic));
    assert_eq!(Instruction::parse("jmp"), Err(AsmError::MissingOperand));
    assert_eq!(Instruction::parse("add 9"), Err(AsmError::StackOffsetOutOfRange(9)));
    assert_eq!(Instruction::parse("loadlo q"), Err(AsmError::InvalidHex));
    assert_eq!(Instruction::parse("   "), Err(AsmError::MissingMnemonic));
}

#[test]
fn with_push_chooses_variant() {
    assert_eq!(
        Instruction::with_push(true, PushableInstruction::LoadPc),
        Instruction::WithPush(PushableInstruction::LoadPc)
    );
    assert_eq!(
        Instruction::with_push(false, PushableInstruction::LoadPc),
        Instruction::WithoutPush(PushableInstruction::LoadPc)
    );
}

#[test]
fn line_kinds() {
    assert!(matches!(Line::parse(String::new()), Ok(Line::Comment(c)) if c.is_empty()));
    assert!(matches!(Line::parse("# note".to_string()), Ok(Line::Comment(c)) if c == "# note"));
    assert!(matches!(Line::parse(":start".to_string()), Ok(Line::Label(l)) if l == ":start"));
    assert!(matches!(Line::parse("storemem".to_string()), Ok(Line::Instruction(Instruction::StoreMem))));
    assert_eq!(Line::parse(" ".to_string()).unwrap_err(), AsmError::MissingMnemonic);
    assert_eq!(Line::parse("call".to_string()).unwrap_err(), AsmError::MissingOperand);
}

#[test]
fn macros_expand() {
    match Line::parse("CALL :f".to_string()).unwrap() {
        Line::Macro(text, v) => {
            assert_eq!(text, "CALL :f");
            assert_eq!(
                v,
                vec![
                    Instruction::WithoutPush(PushableInstruction::LoadLo(Target::Offset(4))),
                    Instruction::WithPush(PushableInstruction::LoadHi(Target::Offset(3))),
                    Instruction::Jmp(Target::Label(":f".to_string())),
                ]
            );
        }
        other => panic!("not a macro: {:?}", other),
    }
    match Line::parse("ret".to_string()).unwrap() {
        Line::Macro(_, v) => assert_eq!(v, vec![Instruction::PopDiscard(StackOffset::top()), Instruction::JmpAcc]),
        other => panic!("not a macro: {:?}", other),
    }
    match Line::parse("halt".to_string()).unwrap() {
        Line::Macro(_, v) => assert_eq!(v, vec![Instruction::Jmp(Target::Absolute(0xff))]),
        other => panic!("not a macro: {:?}", other),
    }
    assert_eq!(Macro::from_name("ret"), Some(Macro::Ret));
    assert_eq!(Macro::from_name("RET"), None);
}

#[test]
fn sizes_and_encodings() {
    assert_eq!(Instruction::Jmp(Target::Absolute(0x10)).get_size(), 2);
    assert_eq!(Instruction::StoreAddr.get_size(), 1);
    assert_eq!(Instruction::Jmp(Target::Absolute(0x10)).encode(), (0x3c, Some(0x10)));
    assert_eq!(Instruction::Jnz(Target::Absolute(0x11)).encode(), (0x3d, Some(0x11)));
    assert_eq!(Instruction::Jz(Target::Absolute(0x12)).encode(), (0x3e, Some(0x12)));
    assert_eq!(Instruction::StoreAddr.encode(), (0, None));
}

#[test]
fn resolve_targets() {
    let mut t = LabelTable::new();
    t.insert(":f".to_string(), 0x37);
    let lo = Instruction::WithoutPush(PushableInstruction::LoadLo(Target::Label(":f".to_string())));
    let hi = Instruction::WithPush(PushableInstruction::LoadHi(Target::Label(":f".to_string())));
    assert_eq!(lo.resolve(0, &t), Some(Instruction::WithoutPush(PushableInstruction::LoadLo(Target::Absolute(7)))));
    assert_eq!(hi.resolve(0, &t), Some(Instruction::WithPush(PushableInstruction::LoadHi(Target::Absolute(3)))));
    assert_eq!(Instruction::Jz(Target::Offset(3)).resolve(0x10, &t), Some(Instruction::Jz(Target::Absolute(0x13))));
    assert_eq!(Instruction::Jnz(Target::Offset(3)).resolve(0xfe, &t), Some(Instruction::Jnz(Target::Absolute(0x01))));
    assert_eq!(Instruction::Jmp(Target::Label(":g".to_string())).resolve(0, &t), None);
}

#[test]
fn resolving_resolved_changes_nothing() {
    let mut t = LabelTable::new();
    t.insert(":f".to_string(), 0x37);
    let j = Instruction::Jmp(Target::Label(":f".to_string())).resolve(4, &t).unwrap();
    assert_eq!(j, Instruction::Jmp(Target::Absolute(0x37)));
    assert_eq!(j.resolve(9, &LabelTable::new()), Some(j.clone()));
    let a = Instruction::Jz(Target::Absolute(0x20));
    assert_eq!(a.resolve(0x40, &t), Some(a.clone()));
}

#[test]
fn labels_take_address_of_next_instruction() {
    let lines = parse_all(&[":a", "jmp :b", "# gap", ":b", "storeaddr", ":c", "halt"]);
    let program = assemble(&lines).unwrap();
    assert_eq!(
        program.rom,
        vec![
            Instruction::Jmp(Target::Absolute(2)),
            Instruction::StoreAddr,
            Instruction::Jmp(Target::Absolute(0xff)),
        ]
    );
    assert_eq!(program.placement, vec![(1, 0), (4, 2), (6, 3)]);
}

#[test]
fn moving_a_label_over_comments_keeps_its_address() {
    let first = build(&["storeaddr", ":x", "# one", "# two", "jmp :x"]);
    let second = build(&["storeaddr", "# one", "# two", ":x", "jmp :x"]);
    assert_eq!(first, second);
    assert_eq!(first[1], Instruction::Jmp(Target::Absolute(1)));
}

#[test]
fn assemble_errors() {
    let dup = parse_all(&[":a", "storeaddr", ":a"]);
    assert_eq!(assemble(&dup).unwrap_err(), AsmError::DuplicateLabel { line: 2 });
    let undefined = parse_all(&["storeaddr", "jmp :nowhere"]);
    assert_eq!(assemble(&undefined).unwrap_err(), AsmError::UndefinedLabel { line: 1 });
    let big: Vec<&str> = std::iter::repeat("jmp 0").take(128).collect();
    assert_eq!(assemble(&parse_all(&big)).unwrap_err(), AsmError::ProgramTooLarge);
    let fits: Vec<&str> = std::iter::repeat("storeaddr").take(255).collect();
    assert_eq!(assemble(&parse_all(&fits)).unwrap().rom.len(), 255);
}

#[test]
fn straight_line_program_runs_in_order() {
    let rom = build(&["loadlo 5", "storeaddr", "loadpc", "halt"]);
    let run = simulate(&rom, 100).unwrap();
    assert!(!run.timed_out);
    assert_eq!(run.cycles, 4);
    let pcs: Vec<u8> = run.trace.iter().map(|s| s.after.reg(Reg::PC)).collect();
    assert_eq!(pcs, vec![1, 2, 3, 0xff]);
    let idx: Vec<usize> = run.trace.iter().map(|s| s.index).collect();
    assert_eq!(idx, vec![0, 1, 2, 3]);
    assert_eq!(run.machine.reg(Reg::ADDR), 5);
    assert_eq!(run.machine.reg(Reg::ACC), 2);
}

#[test]
fn add_wraps_and_sets_carry() {
    let rom = build(&["loadlo f push", "loadlo 2", "add 0", "halt"]);
    let run = simulate(&rom, 100).unwrap();
    assert_eq!(run.machine.reg(Reg::ACC), 0x01);
    assert_eq!(run.machine.reg(Reg::FLAGS), 0x01);
}

#[test]
fn untaken_conditional_jump_skips_two_bytes() {
    let rom = build(&["loadlo 1", "jz :out", ":out", "halt"]);
    let run = simulate(&rom, 100).unwrap();
    assert_eq!(run.trace[1].after.reg(Reg::PC), 3);
    assert_eq!(run.cycles, 3);
    let rom = build(&["loadlo 0", "jnz :out", ":out", "halt"]);
    let run = simulate(&rom, 100).unwrap();
    assert_eq!(run.trace[1].after.reg(Reg::PC), 3);
}

#[test]
fn call_and_return_restore_stack() {
    let rom = build(&["call :sub", "halt", ":sub", "loadlo 7", "storeaddr", "ret"]);
    let run = simulate(&rom, 100).unwrap();
    assert!(!run.timed_out);
    assert_eq!(run.cycles, 8);
    assert_eq!(run.machine.reg(Reg::ADDR), 7);
    assert_eq!(run.machine.reg(Reg::SP), 0);
    assert_eq!(run.machine.peek(0xff), 4);
}

#[test]
fn self_jump_times_out_exactly() {
    let rom = build(&[":loop", "jmp :loop"]);
    for limit in [0usize, 1, 5, 37] {
        let run = simulate(&rom, limit).unwrap();
        assert!(run.timed_out);
        assert_eq!(run.cycles, limit);
        assert_eq!(run.trace.len(), limit);
    }
}

#[test]
fn halting_on_last_cycle_is_not_a_timeout() {
    let rom = build(&["storeaddr", "halt"]);
    let run = simulate(&rom, 2).unwrap();
    assert!(!run.timed_out);
    assert_eq!(run.cycles, 2);
}

#[test]
fn stack_operations() {
    let rom = build(&[
        "loadlo 3 push", "loadlo 5 push", "alloc 1", "loadlo 6", "storetostack 0", "xor 1", "or 2",
        "and 2", "mul 1", "not 0", "discard 1", "popdiscard 0", "halt",
    ]);
    let run = simulate(&rom, 100).unwrap();
    // stack from the top: 6, 5, 3
    assert_eq!(run.trace[4].after.peek(0xfd), 6);
    assert_eq!(run.trace[5].after.reg(Reg::ACC), 6 ^ 5);
    assert_eq!(run.trace[6].after.reg(Reg::ACC), (6 ^ 5) | 3);
    assert_eq!(run.trace[7].after.reg(Reg::ACC), ((6 ^ 5) | 3) & 3);
    assert_eq!(run.trace[8].after.reg(Reg::ACC), (((6 ^ 5) | 3) & 3) * 5);
    assert_eq!(run.trace[9].after.reg(Reg::ACC), !6u8);
    assert_eq!(run.machine.reg(Reg::ACC), 5);
    assert_eq!(run.machine.reg(Reg::SP), 0xff);
}

#[test]
fn nibble_loads() {
    let rom = build(&["loadlo 9", "storeaddr", "loadhi 3", "halt"]);
    let run = simulate(&rom, 100).unwrap();
    assert_eq!(run.trace[0].after.reg(Reg::ACC), 0xf9);
    assert_eq!(run.machine.reg(Reg::ACC), 0x39);
}

#[test]
fn execution_errors() {
    let rom = build(&["jmp 10"]);
    assert_eq!(simulate(&rom, 10).unwrap_err(), AsmError::BadInstructionAddress(0x10));
    let rom = vec![Instruction::Jmp(Target::Label(":x".to_string()))];
    assert_eq!(simulate(&rom, 10).unwrap_err(), AsmError::UnresolvedOperand(0));
    let big: Vec<Instruction> = (0..128).map(|_| Instruction::Jmp(Target::Absolute(0))).collect();
    assert_eq!(simulate(&big, 10).unwrap_err(), AsmError::ProgramTooLarge);
}

#[test]
fn label_table_finds_first_entry() {
    let mut t = LabelTable::new();
    assert_eq!(t.find(":a"), None);
    t.insert(":a".to_string(), 3);
    t.insert(":b".to_string(), 9);
    assert_eq!(t.find(":a"), Some(3));
    assert_eq!(t.find(":b"), Some(9));
    assert_eq!(t.find(":A"), None);
}
