use vstd::prelude::*;

use crate::error::{view_result, AsmError};
use crate::regmachine::isa::{Instruction, InstructionModel, Reg, Target, TargetModel};
use crate::text::{hex_byte, lower_of, lowercase, parse_hex_byte, same_text, split_words, texts, words};

verus! {

/// The register a word names: its name in lower case.
pub open spec fn reg_named(s: Seq<char>) -> Option<Reg> {
    if s == "acc"@ {
        Some(Reg::ACC)
    } else if s == "b"@ {
        Some(Reg::B)
    } else if s == "c"@ {
        Some(Reg::C)
    } else if s == "d"@ {
        Some(Reg::D)
    } else if s == "e"@ {
        Some(Reg::E)
    } else if s == "flags"@ {
        Some(Reg::FLAGS)
    } else if s == "sp"@ {
        Some(Reg::SP)
    } else if s == "pc"@ {
        Some(Reg::PC)
    } else {
        None
    }
}

/// A target operand: a label when it starts with `:`, else a hexadecimal byte.
pub open spec fn target_model(s: Seq<char>) -> Result<TargetModel, AsmError> {
    if s.len() == 0 {
        Err(AsmError::MissingOperand)
    } else if s[0] == ':' {
        Ok(TargetModel::Label(s))
    } else {
        match hex_byte(s) {
            Some(v) => Ok(TargetModel::Constant(v)),
            None => Err(AsmError::InvalidHex),
        }
    }
}

/// The register operand of a line's words: its second word.
pub open spec fn reg_operand(ws: Seq<Seq<char>>) -> Result<Reg, AsmError> {
    if ws.len() < 2 {
        Err(AsmError::MissingOperand)
    } else {
        match reg_named(ws[1]) {
            Some(r) => Ok(r),
            None => Err(AsmError::InvalidRegister),
        }
    }
}

/// The target operand of a line's words: its second word.
pub open spec fn target_operand(ws: Seq<Seq<char>>) -> Result<TargetModel, AsmError> {
    if ws.len() < 2 {
        Err(AsmError::MissingOperand)
    } else {
        target_model(ws[1])
    }
}

pub open spec fn is_reg_op(m: Seq<char>) -> bool {
    ||| m == "loadreg"@
    ||| m == "storereg"@
    ||| m == "xor"@
    ||| m == "and"@
    ||| m == "or"@
    ||| m == "add"@
    ||| m == "not"@
    ||| m == "mul"@
    ||| m == "loadmem"@
    ||| m == "storemem"@
}

/// The operation on register `r` that the lower-case mnemonic `m` names.
pub open spec fn reg_op(m: Seq<char>, r: Reg) -> InstructionModel {
    if m == "loadreg"@ {
        InstructionModel::LoadReg(r)
    } else if m == "storereg"@ {
        InstructionModel::StoreReg(r)
    } else if m == "xor"@ {
        InstructionModel::Xor(r)
    } else if m == "and"@ {
        InstructionModel::And(r)
    } else if m == "or"@ {
        InstructionModel::Or(r)
    } else if m == "add"@ {
        InstructionModel::Add(r)
    } else if m == "not"@ {
        InstructionModel::Not(r)
    } else if m == "mul"@ {
        InstructionModel::Mul(r)
    } else if m == "loadmem"@ {
        InstructionModel::LoadMem(r)
    } else {
        InstructionModel::StoreMem(r)
    }
}

pub open spec fn is_target_op(m: Seq<char>) -> bool {
    ||| m == "loadlo"@
    ||| m == "loadhi"@
    ||| m == "jmp"@
    ||| m == "jz"@
    ||| m == "jnz"@
}

/// The operation on target `t` that the lower-case mnemonic `m` names.
pub open spec fn target_op(m: Seq<char>, t: TargetModel) -> InstructionModel {
    if m == "loadlo"@ {
        InstructionModel::LoadLo(t)
    } else if m == "loadhi"@ {
        InstructionModel::LoadHi(t)
    } else if m == "jmp"@ {
        InstructionModel::Jmp(t)
    } else if m == "jz"@ {
        InstructionModel::Jz(t)
    } else {
        InstructionModel::Jnz(t)
    }
}

/// The instruction that the lower-case mnemonic `m` and the line's words give.
pub open spec fn instruction_from(m: Seq<char>, ws: Seq<Seq<char>>) -> Result<InstructionModel, AsmError> {
    if is_reg_op(m) {
        match reg_operand(ws) {
            Ok(r) => Ok(reg_op(m, r)),
            Err(e) => Err(e),
        }
    } else if is_target_op(m) {
        match target_operand(ws) {
            Ok(t) => Ok(target_op(m, t)),
            Err(e) => Err(e),
        }
    } else {
        Err(AsmError::UnknownMnemonic)
    }
}

/// The instruction that a line of words gives; the mnemonic is matched whatever its case.
pub open spec fn instruction_model(ws: Seq<Seq<char>>) -> Result<InstructionModel, AsmError> {
    if ws.len() == 0 {
        Err(AsmError::MissingMnemonic)
    } else {
        instruction_from(lower_of(ws[0]), ws)
    }
}

pub open spec fn constant(c: u8) -> TargetModel {
    TargetModel::Constant(c)
}

/// A call to `label`: push the return address (the program counter plus 5, taken
/// where the addition runs, which is the instruction after the jump), jump to the
/// label, and on return drop the return address.
pub open spec fn call_sequence(label: Seq<char>) -> Seq<InstructionModel> {
    seq![
        InstructionModel::LoadLo(constant(0xf)),
        InstructionModel::Add(Reg::SP),
        InstructionModel::StoreReg(Reg::SP),
        InstructionModel::LoadLo(constant(0x5)),
        InstructionModel::Add(Reg::PC),
        InstructionModel::StoreMem(Reg::SP),
        InstructionModel::LoadLo(TargetModel::Label(label)),
        InstructionModel::LoadHi(TargetModel::Label(label)),
        InstructionModel::StoreReg(Reg::PC),
        InstructionModel::LoadLo(constant(0x1)),
        InstructionModel::Add(Reg::SP),
        InstructionModel::StoreReg(Reg::SP),
    ]
}

/// The instructions that the macro named by the lower-case mnemonic `m` stands for,
/// given the words of its line; `None` when `m` names no macro. A push lowers the
/// stack pointer, then stores the register at it; a pop loads from it, then raises it.
pub open spec fn macro_expansion(m: Seq<char>, ws: Seq<Seq<char>>) -> Option<Result<Seq<InstructionModel>, AsmError>> {
    if m == "push"@ || m == "pop"@ {
        Some(
            match reg_operand(ws) {
                Err(e) => Err(e),
                Ok(r) => if r == Reg::ACC {
                    Err(AsmError::AccumulatorOperand)
                } else if m == "push"@ {
                    Ok(
                        seq![
                            InstructionModel::LoadLo(constant(0xf)),
                            InstructionModel::Add(Reg::SP),
                            InstructionModel::StoreReg(Reg::SP),
                            InstructionModel::LoadReg(r),
                            InstructionModel::StoreMem(Reg::SP),
                        ],
                    )
                } else {
                    Ok(
                        seq![
                            InstructionModel::LoadMem(Reg::SP),
                            InstructionModel::StoreReg(r),
                            InstructionModel::LoadLo(constant(0x1)),
                            InstructionModel::Add(Reg::SP),
                            InstructionModel::StoreReg(Reg::SP),
                        ],
                    )
                },
            },
        )
    } else if m == "inc"@ || m == "dec"@ {
        Some(
            match reg_operand(ws) {
                Err(e) => Err(e),
                Ok(r) => Ok(
                    seq![
                        InstructionModel::LoadLo(constant(if m == "inc"@ { 0x1 } else { 0xf })),
                        InstructionModel::Add(r),
                        InstructionModel::StoreReg(r),
                    ],
                ),
            },
        )
    } else if m == "call"@ {
        Some(
            if ws.len() < 2 {
                Err(AsmError::MissingOperand)
            } else {
                Ok(call_sequence(ws[1]))
            },
        )
    } else if m == "ret"@ {
        Some(Ok(seq![InstructionModel::LoadMem(Reg::SP), InstructionModel::StoreReg(Reg::PC)]))
    } else if m == "halt"@ {
        Some(Ok(seq![InstructionModel::LoadLo(constant(0xf)), InstructionModel::StoreReg(Reg::PC)]))
    } else {
        None
    }
}

/// The models of a run of instructions.
pub open spec fn models(v: Seq<Instruction>) -> Seq<InstructionModel> {
    v.map_values(|i: Instruction| i@)
}

impl Reg {
    /// The register that a word names: its name in lower case.
    pub fn parse(s: &str) -> (r: Option<Reg>)
        ensures
            r == reg_named(s@),
    {
        if same_text(s, "acc") {
            Some(Reg::ACC)
        } else if same_text(s, "b") {
            Some(Reg::B)
        } else if same_text(s, "c") {
            Some(Reg::C)
        } else if same_text(s, "d") {
            Some(Reg::D)
        } else if same_text(s, "e") {
            Some(Reg::E)
        } else if same_text(s, "flags") {
            Some(Reg::FLAGS)
        } else if same_text(s, "sp") {
            Some(Reg::SP)
        } else if same_text(s, "pc") {
            Some(Reg::PC)
        } else {
            None
        }
    }
}

impl Target {
    /// Reads a target: a label when the text starts with `:`, else a hexadecimal byte.
    pub fn parse(s: &str) -> (r: Result<Target, AsmError>)
        ensures
            view_result(r) == target_model(s@),
    {
        if s.unicode_len() == 0 {
            Err(AsmError::MissingOperand)
        } else if s.get_char(0) == ':' {
            Ok(Target::Label(s.to_owned()))
        } else {
            match parse_hex_byte(s) {
                Some(v) => Ok(Target::Constant(v)),
                None => Err(AsmError::InvalidHex),
            }
        }
    }
}

fn parse_reg_operand(ws: &Vec<&str>) -> (r: Result<Reg, AsmError>)
    ensures
        r == reg_operand(texts(ws@)),
{
    if ws.len() < 2 {
        Err(AsmError::MissingOperand)
    } else {
        match Reg::parse(ws[1]) {
            Some(r) => Ok(r),
            None => Err(AsmError::InvalidRegister),
        }
    }
}

fn parse_target_operand(ws: &Vec<&str>) -> (r: Result<Target, AsmError>)
    ensures
        view_result(r) == target_operand(texts(ws@)),
{
    if ws.len() < 2 {
        Err(AsmError::MissingOperand)
    } else {
        Target::parse(ws[1])
    }
}

impl Instruction {
    /// The instruction that the lower-case mnemonic `m` and the words of its line give.
    pub fn from_words(m: &str, ws: &Vec<&str>) -> (r: Result<Instruction, AsmError>)
        ensures
            view_result(r) == instruction_from(m@, texts(ws@)),
    {
        let loadreg = same_text(m, "loadreg");
        let storereg = same_text(m, "storereg");
        let xor = same_text(m, "xor");
        let and = same_text(m, "and");
        let or = same_text(m, "or");
        let add = same_text(m, "add");
        let not = same_text(m, "not");
        let mul = same_text(m, "mul");
        let loadmem = same_text(m, "loadmem");
        let storemem = same_text(m, "storemem");
        if loadreg || storereg || xor || and || or || add || not || mul || loadmem || storemem {
            let r = parse_reg_operand(ws)?;
            return Ok(
                if loadreg {
                    Instruction::LoadReg(r)
                } else if storereg {
                    Instruction::StoreReg(r)
                } else if xor {
                    Instruction::Xor(r)
                } else if and {
                    Instruction::And(r)
                } else if or {
                    Instruction::Or(r)
                } else if add {
                    Instruction::Add(r)
                } else if not {
                    Instruction::Not(r)
                } else if mul {
                    Instruction::Mul(r)
                } else if loadmem {
                    Instruction::LoadMem(r)
                } else {
                    Instruction::StoreMem(r)
                },
            );
        }
        let loadlo = same_text(m, "loadlo");
        let loadhi = same_text(m, "loadhi");
        let jmp = same_text(m, "jmp");
        let jz = same_text(m, "jz");
        let jnz = same_text(m, "jnz");
        if loadlo || loadhi || jmp || jz || jnz {
            return match parse_target_operand(ws) {
                Ok(t) => Ok(
                    if loadlo {
                        Instruction::LoadLo(t)
                    } else if loadhi {
                        Instruction::LoadHi(t)
                    } else if jmp {
                        Instruction::Jmp(t)
                    } else if jz {
                        Instruction::Jz(t)
                    } else {
                        Instruction::Jnz(t)
                    },
                ),
                Err(e) => Err(e),
            };
        }
        Err(AsmError::UnknownMnemonic)
    }

    /// Reads one instruction from a line; its mnemonic is matched whatever its case.
    pub fn parse(line: &str) -> (r: Result<Instruction, AsmError>)
        ensures
            view_result(r) == instruction_model(words(line@)),
    {
        let ws = split_words(line);
        if ws.len() == 0 {
            return Err(AsmError::MissingMnemonic);
        }
        let m = lowercase(ws[0]);
        Instruction::from_words(m.as_str(), &ws)
    }
}

/// The instructions that the macro named by the lower-case mnemonic `m` stands for,
/// given the words of its line; `None` when `m` names no macro.
pub fn expand_macro(m: &str, ws: &Vec<&str>) -> (r: Option<Result<Vec<Instruction>, AsmError>>)
    ensures
        match r {
            None => macro_expansion(m@, texts(ws@)) is None,
            Some(Ok(v)) => macro_expansion(m@, texts(ws@)) == Some(Ok::<Seq<InstructionModel>, AsmError>(models(v@))),
            Some(Err(e)) => macro_expansion(m@, texts(ws@)) == Some(Err::<Seq<InstructionModel>, AsmError>(e)),
        },
{
    let mut v: Vec<Instruction> = Vec::new();
    let push = same_text(m, "push");
    let inc = same_text(m, "inc");
    if push || same_text(m, "pop") {
        let r = match parse_reg_operand(ws) {
            Ok(r) => r,
            Err(e) => return Some(Err(e)),
        };
        if r == Reg::ACC {
            return Some(Err(AsmError::AccumulatorOperand));
        }
        if push {
            v.push(Instruction::LoadLo(Target::Constant(0xf)));
            v.push(Instruction::Add(Reg::SP));
            v.push(Instruction::StoreReg(Reg::SP));
            v.push(Instruction::LoadReg(r));
            v.push(Instruction::StoreMem(Reg::SP));
        } else {
            v.push(Instruction::LoadMem(Reg::SP));
            v.push(Instruction::StoreReg(r));
            v.push(Instruction::LoadLo(Target::Constant(0x1)));
            v.push(Instruction::Add(Reg::SP));
            v.push(Instruction::StoreReg(Reg::SP));
        }
    } else if inc || same_text(m, "dec") {
        let r = match parse_reg_operand(ws) {
            Ok(r) => r,
            Err(e) => return Some(Err(e)),
        };
        v.push(Instruction::LoadLo(Target::Constant(if inc { 0x1 } else { 0xf })));
        v.push(Instruction::Add(r));
        v.push(Instruction::StoreReg(r));
    } else if same_text(m, "call") {
        if ws.len() < 2 {
            return Some(Err(AsmError::MissingOperand));
        }
        v.push(Instruction::LoadLo(Target::Constant(0xf)));
        v.push(Instruction::Add(Reg::SP));
        v.push(Instruction::StoreReg(Reg::SP));
        v.push(Instruction::LoadLo(Target::Constant(0x5)));
        v.push(Instruction::Add(Reg::PC));
        v.push(Instruction::StoreMem(Reg::SP));
        v.push(Instruction::LoadLo(Target::Label(ws[1].to_owned())));
        v.push(Instruction::LoadHi(Target::Label(ws[1].to_owned())));
        v.push(Instruction::StoreReg(Reg::PC));
        v.push(Instruction::LoadLo(Target::Constant(0x1)));
        v.push(Instruction::Add(Reg::SP));
        v.push(Instruction::StoreReg(Reg::SP));
    } else if same_text(m, "ret") {
        v.push(Instruction::LoadMem(Reg::SP));
        v.push(Instruction::StoreReg(Reg::PC));
    } else if same_text(m, "halt") {
        v.push(Instruction::LoadLo(Target::Constant(0xf)));
        v.push(Instruction::StoreReg(Reg::PC));
    } else {
        return None;
    }
    proof {
        assert(models(v@) =~= macro_expansion(m@, texts(ws@))->0->Ok_0);
    }
    Some(Ok(v))
}

/// A line of source text, classified.
#[derive(Debug)]
pub enum Line {
    Label(String),
    Comment(String),
    Instruction(Instruction),
    Macro(String, Vec<Instruction>),
}

/// What a [`Line`] is.
pub enum LineModel {
    Label(Seq<char>),
    Comment(Seq<char>),
    Instruction(InstructionModel),
    Macro(Seq<char>, Seq<InstructionModel>),
}

impl View for Line {
    type V = LineModel;

    open spec fn view(&self) -> LineModel {
        match self {
            Line::Label(l) => LineModel::Label(l@),
            Line::Comment(c) => LineModel::Comment(c@),
            Line::Instruction(i) => LineModel::Instruction(i@),
            Line::Macro(s, v) => LineModel::Macro(s@, models(v@)),
        }
    }
}

/// What a line of text is: empty or starting with `#`, a comment; starting with `:`,
/// a label named by the whole line; else a macro or one instruction, by its first word
/// whatever its case.
pub open spec fn line_model(s: Seq<char>) -> Result<LineModel, AsmError> {
    if s.len() == 0 || s[0] == '#' {
        Ok(LineModel::Comment(s))
    } else if s[0] == ':' {
        Ok(LineModel::Label(s))
    } else {
        let ws = words(s);
        if ws.len() == 0 {
            Err(AsmError::MissingMnemonic)
        } else {
            match macro_expansion(lower_of(ws[0]), ws) {
                Some(Ok(v)) => Ok(LineModel::Macro(s, v)),
                Some(Err(e)) => Err(e),
                None => match instruction_from(lower_of(ws[0]), ws) {
                    Ok(i) => Ok(LineModel::Instruction(i)),
                    Err(e) => Err(e),
                },
            }
        }
    }
}

impl Line {
    /// Classifies one line of source text.
    pub fn parse(line: String) -> (r: Result<Line, AsmError>)
        ensures
            view_result(r) == line_model(line@),
    {
        let n = line.as_str().unicode_len();
        if n == 0 || line.as_str().get_char(0) == '#' {
            return Ok(Line::Comment(line));
        }
        if line.as_str().get_char(0) == ':' {
            return Ok(Line::Label(line));
        }
        let expanded = {
            let ws = split_words(line.as_str());
            if ws.len() == 0 {
                return Err(AsmError::MissingMnemonic);
            }
            let m = lowercase(ws[0]);
            match expand_macro(m.as_str(), &ws) {
                Some(Ok(v)) => Ok(v),
                Some(Err(e)) => return Err(e),
                None => match Instruction::from_words(m.as_str(), &ws) {
                    Ok(i) => Err(i),
                    Err(e) => return Err(e),
                },
            }
        };
        match expanded {
            Ok(v) => Ok(Line::Macro(line, v)),
            Err(i) => Ok(Line::Instruction(i)),
        }
    }
}

} // verus!
