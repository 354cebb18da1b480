use vstd::prelude::*;

use crate::error::{view_result, AsmError};
use crate::stackmachine::isa::{
    Instruction, InstructionModel, PushableInstruction, PushableModel, StackOffset, Target,
    TargetModel,
};
use crate::text::{hex_byte, lower_of, lowercase, parse_hex_byte, same_text, split_words, texts, words};

verus! {

/// A target operand: a label when it starts with `:`, else a hexadecimal byte.
pub open spec fn target_model(s: Seq<char>) -> Result<TargetModel, AsmError> {
    if s.len() == 0 {
        Err(AsmError::MissingOperand)
    } else if s[0] == ':' {
        Ok(TargetModel::Label(s))
    } else {
        match hex_byte(s) {
            Some(v) => Ok(TargetModel::Absolute(v)),
            None => Err(AsmError::InvalidHex),
        }
    }
}

/// A stack offset operand: a hexadecimal byte below 8.
pub open spec fn offset_model(s: Seq<char>) -> Result<u8, AsmError> {
    match hex_byte(s) {
        None => Err(AsmError::InvalidHex),
        Some(v) => if v < 8 {
            Ok(v)
        } else {
            Err(AsmError::StackOffsetOutOfRange(v))
        },
    }
}

/// The target operand of a line's words: its second word.
pub open spec fn target_operand(ws: Seq<Seq<char>>) -> Result<TargetModel, AsmError> {
    if ws.len() < 2 {
        Err(AsmError::MissingOperand)
    } else {
        target_model(ws[1])
    }
}

/// The stack offset operand of a line's words: its second word.
pub open spec fn offset_operand(ws: Seq<Seq<char>>) -> Result<u8, AsmError> {
    if ws.len() < 2 {
        Err(AsmError::MissingOperand)
    } else {
        offset_model(ws[1])
    }
}

/// The operation on a target that the lower-case mnemonic `m` names.
pub open spec fn target_op(m: Seq<char>, t: TargetModel) -> PushableModel {
    if m == "loadlo"@ {
        PushableModel::LoadLo(t)
    } else {
        PushableModel::LoadHi(t)
    }
}

/// The operation on a stack slot that the lower-case mnemonic `m` names.
pub open spec fn slot_op(m: Seq<char>, o: u8) -> PushableModel {
    if m == "add"@ {
        PushableModel::Add(o)
    } else if m == "xor"@ {
        PushableModel::Xor(o)
    } else if m == "not"@ {
        PushableModel::Not(o)
    } else if m == "or"@ {
        PushableModel::Or(o)
    } else if m == "and"@ {
        PushableModel::And(o)
    } else if m == "mul"@ {
        PushableModel::Mul(o)
    } else {
        PushableModel::LoadFromStack(o)
    }
}

pub open spec fn is_target_op(m: Seq<char>) -> bool {
    m == "loadlo"@ || m == "loadhi"@
}

pub open spec fn is_slot_op(m: Seq<char>) -> bool {
    ||| m == "add"@
    ||| m == "xor"@
    ||| m == "not"@
    ||| m == "or"@
    ||| m == "and"@
    ||| m == "mul"@
    ||| m == "loadfromstack"@
}

/// The pushable operation that the lower-case mnemonic `m` and the line's words
/// give, or `None` when `m` names none.
pub open spec fn pushable_model(m: Seq<char>, ws: Seq<Seq<char>>) -> Option<Result<PushableModel, AsmError>> {
    if is_target_op(m) {
        Some(
            match target_operand(ws) {
                Ok(t) => Ok(target_op(m, t)),
                Err(e) => Err(e),
            },
        )
    } else if is_slot_op(m) {
        Some(
            match offset_operand(ws) {
                Ok(o) => Ok(slot_op(m, o)),
                Err(e) => Err(e),
            },
        )
    } else if m == "loadmem"@ {
        Some(Ok(PushableModel::LoadMem))
    } else if m == "loadpc"@ {
        Some(Ok(PushableModel::LoadPc))
    } else {
        None
    }
}

/// The instruction that the lower-case mnemonic `m` and the line's words give. A
/// pushable operation pushes when the last word is `push`.
pub open spec fn instruction_from(m: Seq<char>, ws: Seq<Seq<char>>) -> Result<InstructionModel, AsmError> {
    match pushable_model(m, ws) {
        Some(Ok(p)) => Ok(
            if ws.last() == "push"@ {
                InstructionModel::WithPush(p)
            } else {
                InstructionModel::WithoutPush(p)
            },
        ),
        Some(Err(e)) => Err(e),
        None => if m == "storeaddr"@ {
            Ok(InstructionModel::StoreAddr)
        } else if m == "storemem"@ {
            Ok(InstructionModel::StoreMem)
        } else if m == "jmpacc"@ {
            Ok(InstructionModel::JmpAcc)
        } else if m == "jmp"@ || m == "jz"@ || m == "jnz"@ {
            match target_operand(ws) {
                Ok(t) => Ok(
                    if m == "jmp"@ {
                        InstructionModel::Jmp(t)
                    } else if m == "jz"@ {
                        InstructionModel::Jz(t)
                    } else {
                        InstructionModel::Jnz(t)
                    },
                ),
                Err(e) => Err(e),
            }
        } else if m == "storetostack"@ || m == "discard"@ || m == "popdiscard"@ || m == "alloc"@ {
            match offset_operand(ws) {
                Ok(o) => Ok(
                    if m == "storetostack"@ {
                        InstructionModel::StoreToStack(o)
                    } else if m == "discard"@ {
                        InstructionModel::Discard(o)
                    } else if m == "popdiscard"@ {
                        InstructionModel::PopDiscard(o)
                    } else {
                        InstructionModel::Alloc(o)
                    },
                ),
                Err(e) => Err(e),
            }
        } else {
            Err(AsmError::UnknownMnemonic)
        },
    }
}

/// The instruction that a line of words gives; the mnemonic is matched whatever its case.
pub open spec fn instruction_model(ws: Seq<Seq<char>>) -> Result<InstructionModel, AsmError> {
    if ws.len() == 0 {
        Err(AsmError::MissingMnemonic)
    } else {
        instruction_from(lower_of(ws[0]), ws)
    }
}

impl Target {
    /// Reads a target: a label when the text starts with `:`, else a hexadecimal byte.
    pub fn parse(s: &str) -> (r: Result<Target, AsmError>)
        ensures
            view_result(r) == target_model(s@),
    {
        if s.unicode_len() == 0 {
            Err(AsmError::MissingOperand)
        } else if s.get_char(0) == ':' {
            Ok(Target::Label(s.to_owned()))
        } else {
            match parse_hex_byte(s) {
                Some(v) => Ok(Target::Absolute(v)),
                None => Err(AsmError::InvalidHex),
            }
        }
    }
}

impl StackOffset {
    /// Reads a stack offset: a hexadecimal byte below 8.
    pub fn parse(s: &str) -> (r: Result<StackOffset, AsmError>)
        ensures
            match r {
                Ok(o) => offset_model(s@) == Ok::<u8, AsmError>(o.spec_value()),
                Err(e) => offset_model(s@) == Err::<u8, AsmError>(e),
            },
    {
        match parse_hex_byte(s) {
            None => Err(AsmError::InvalidHex),
            Some(v) => if v < 8 {
                Ok(StackOffset::new(v))
            } else {
                Err(AsmError::StackOffsetOutOfRange(v))
            },
        }
    }
}

fn parse_target_operand(ws: &Vec<&str>) -> (r: Result<Target, AsmError>)
    ensures
        view_result(r) == target_operand(texts(ws@)),
{
    if ws.len() < 2 {
        Err(AsmError::MissingOperand)
    } else {
        Target::parse(ws[1])
    }
}

fn parse_offset_operand(ws: &Vec<&str>) -> (r: Result<StackOffset, AsmError>)
    ensures
        match r {
            Ok(o) => offset_operand(texts(ws@)) == Ok::<u8, AsmError>(o.spec_value()),
            Err(e) => offset_operand(texts(ws@)) == Err::<u8, AsmError>(e),
        },
{
    if ws.len() < 2 {
        Err(AsmError::MissingOperand)
    } else {
        StackOffset::parse(ws[1])
    }
}

fn parse_pushable(m: &str, ws: &Vec<&str>) -> (r: Option<Result<PushableInstruction, AsmError>>)
    ensures
        match r {
            None => pushable_model(m@, texts(ws@)) is None,
            Some(res) => pushable_model(m@, texts(ws@)) == Some(view_result(res)),
        },
{
    let loadlo = same_text(m, "loadlo");
    if loadlo || same_text(m, "loadhi") {
        return Some(
            match parse_target_operand(ws) {
                Ok(t) => Ok(
                    if loadlo {
                        PushableInstruction::LoadLo(t)
                    } else {
                        PushableInstruction::LoadHi(t)
                    },
                ),
                Err(e) => Err(e),
            },
        );
    }
    let add = same_text(m, "add");
    let xor = same_text(m, "xor");
    let not = same_text(m, "not");
    let or = same_text(m, "or");
    let and = same_text(m, "and");
    let mul = same_text(m, "mul");
    let from_stack = same_text(m, "loadfromstack");
    if add || xor || not || or || and || mul || from_stack {
        return Some(
            match parse_offset_operand(ws) {
                Ok(o) => Ok(
                    if add {
                        PushableInstruction::Add(o)
                    } else if xor {
                        PushableInstruction::Xor(o)
                    } else if not {
                        PushableInstruction::Not(o)
                    } else if or {
                        PushableInstruction::Or(o)
                    } else if and {
                        PushableInstruction::And(o)
                    } else if mul {
                        PushableInstruction::Mul(o)
                    } else {
                        PushableInstruction::LoadFromStack(o)
                    },
                ),
                Err(e) => Err(e),
            },
        );
    }
    if same_text(m, "loadmem") {
        Some(Ok(PushableInstruction::LoadMem))
    } else if same_text(m, "loadpc") {
        Some(Ok(PushableInstruction::LoadPc))
    } else {
        None
    }
}

impl Instruction {
    /// The instruction that the lower-case mnemonic `m` and the words of its line give.
    pub fn from_words(m: &str, ws: &Vec<&str>) -> (r: Result<Instruction, AsmError>)
        requires
            ws@.len() > 0,
        ensures
            view_result(r) == instruction_from(m@, texts(ws@)),
    {
        if let Some(res) = parse_pushable(m, ws) {
            return match res {
                Ok(p) => Ok(
                    if same_text(ws[ws.len() - 1], "push") {
                        Instruction::WithPush(p)
                    } else {
                        Instruction::WithoutPush(p)
                    },
                ),
                Err(e) => Err(e),
            };
        }
        if same_text(m, "storeaddr") {
            return Ok(Instruction::StoreAddr);
        }
        if same_text(m, "storemem") {
            return Ok(Instruction::StoreMem);
        }
        if same_text(m, "jmpacc") {
            return Ok(Instruction::JmpAcc);
        }
        let jmp = same_text(m, "jmp");
        let jz = same_text(m, "jz");
        let jnz = same_text(m, "jnz");
        if jmp || jz || jnz {
            return match parse_target_operand(ws) {
                Ok(t) => Ok(
                    if jmp {
                        Instruction::Jmp(t)
                    } else if jz {
                        Instruction::Jz(t)
                    } else {
                        Instruction::Jnz(t)
                    },
                ),
                Err(e) => Err(e),
            };
        }
        let store = same_text(m, "storetostack");
        let discard = same_text(m, "discard");
        let pop = same_text(m, "popdiscard");
        let alloc = same_text(m, "alloc");
        if store || discard || pop || alloc {
            return match parse_offset_operand(ws) {
                Ok(o) => Ok(
                    if store {
                        Instruction::StoreToStack(o)
                    } else if discard {
                        Instruction::Discard(o)
                    } else if pop {
                        Instruction::PopDiscard(o)
                    } else {
                        Instruction::Alloc(o)
                    },
                ),
                Err(e) => Err(e),
            };
        }
        Err(AsmError::UnknownMnemonic)
    }

    /// Reads one instruction from a line; its mnemonic is matched whatever its case.
    pub fn parse(line: &str) -> (r: Result<Instruction, AsmError>)
        ensures
            view_result(r) == instruction_model(words(line@)),
    {
        let ws = split_words(line);
        if ws.len() == 0 {
            return Err(AsmError::MissingMnemonic);
        }
        let m = lowercase(ws[0]);
        Instruction::from_words(m.as_str(), &ws)
    }
}

/// A mnemonic that expands to a fixed run of instructions.
#[derive(Clone, Copy, Debug, PartialEq, Eq, Structural)]
pub enum Macro {
    Call,
    Ret,
    Halt,
}

/// The macro that the lower-case mnemonic `m` names.
pub open spec fn macro_named(m: Seq<char>) -> Option<Macro> {
    if m == "call"@ {
        Some(Macro::Call)
    } else if m == "ret"@ {
        Some(Macro::Ret)
    } else if m == "halt"@ {
        Some(Macro::Halt)
    } else {
        None
    }
}

/// The instructions a macro stands for. A call pushes the address just past its own
/// jump, assembled from the two nibbles of `here + 4`, then jumps to the label that
/// its second word names; a return pops that address into the accumulator and jumps
/// to it; a halt jumps to 0xFF.
pub open spec fn expansion(mac: Macro, ws: Seq<Seq<char>>) -> Result<Seq<InstructionModel>, AsmError> {
    match mac {
        Macro::Call => if ws.len() < 2 {
            Err(AsmError::MissingOperand)
        } else {
            Ok(
                seq![
                    InstructionModel::WithoutPush(PushableModel::LoadLo(TargetModel::Offset(4))),
                    InstructionModel::WithPush(PushableModel::LoadHi(TargetModel::Offset(3))),
                    InstructionModel::Jmp(TargetModel::Label(ws[1])),
                ],
            )
        },
        Macro::Ret => Ok(seq![InstructionModel::PopDiscard(0), InstructionModel::JmpAcc]),
        Macro::Halt => Ok(seq![InstructionModel::Jmp(TargetModel::Absolute(0xff))]),
    }
}

/// The models of a run of instructions.
pub open spec fn models(v: Seq<Instruction>) -> Seq<InstructionModel> {
    v.map_values(|i: Instruction| i@)
}

impl Macro {
    /// The macro that the lower-case mnemonic `m` names.
    pub fn from_name(m: &str) -> (r: Option<Macro>)
        ensures
            r == macro_named(m@),
    {
        if same_text(m, "call") {
            Some(Macro::Call)
        } else if same_text(m, "ret") {
            Some(Macro::Ret)
        } else if same_text(m, "halt") {
            Some(Macro::Halt)
        } else {
            None
        }
    }

    /// The instructions the macro stands for, given the words of its line.
    pub fn expand(self, ws: &Vec<&str>) -> (r: Result<Vec<Instruction>, AsmError>)
        ensures
            match r {
                Ok(v) => expansion(self, texts(ws@)) == Ok::<Seq<InstructionModel>, AsmError>(models(v@)),
                Err(e) => expansion(self, texts(ws@)) == Err::<Seq<InstructionModel>, AsmError>(e),
            },
    {
        let mut v: Vec<Instruction> = Vec::new();
        match self {
            Macro::Call => {
                if ws.len() < 2 {
                    return Err(AsmError::MissingOperand);
                }
                v.push(Instruction::WithoutPush(PushableInstruction::LoadLo(Target::Offset(4))));
                v.push(Instruction::WithPush(PushableInstruction::LoadHi(Target::Offset(3))));
                v.push(Instruction::Jmp(Target::Label(ws[1].to_owned())));
            },
            Macro::Ret => {
                v.push(Instruction::PopDiscard(StackOffset::top()));
                v.push(Instruction::JmpAcc);
            },
            Macro::Halt => {
                v.push(Instruction::Jmp(Target::Absolute(0xff)));
            },
        }
        proof {
            assert(models(v@) =~= expansion(self, texts(ws@))->Ok_0);
        }
        Ok(v)
    }
}

/// A line of source text, classified.
#[derive(Debug)]
pub enum Line {
    Label(String),
    Comment(String),
    Instruction(Instruction),
    Macro(String, Vec<Instruction>),
}

/// What a [`Line`] is.
pub enum LineModel {
    Label(Seq<char>),
    Comment(Seq<char>),
    Instruction(InstructionModel),
    Macro(Seq<char>, Seq<InstructionModel>),
}

impl View for Line {
    type V = LineModel;

    open spec fn view(&self) -> LineModel {
        match self {
            Line::Label(l) => LineModel::Label(l@),
            Line::Comment(c) => LineModel::Comment(c@),
            Line::Instruction(i) => LineModel::Instruction(i@),
            Line::Macro(s, v) => LineModel::Macro(s@, models(v@)),
        }
    }
}

/// What a line of text is: empty or starting with `#`, a comment; starting with `:`,
/// a label named by the whole line; else a macro or one instruction, by its first word
/// whatever its case.
pub open spec fn line_model(s: Seq<char>) -> Result<LineModel, AsmError> {
    if s.len() == 0 || s[0] == '#' {
        Ok(LineModel::Comment(s))
    } else if s[0] == ':' {
        Ok(LineModel::Label(s))
    } else {
        let ws = words(s);
        if ws.len() == 0 {
            Err(AsmError::MissingMnemonic)
        } else {
            match macro_named(lower_of(ws[0])) {
                Some(mac) => match expansion(mac, ws) {
                    Ok(v) => Ok(LineModel::Macro(s, v)),
                    Err(e) => Err(e),
                },
                None => match instruction_from(lower_of(ws[0]), ws) {
                    Ok(i) => Ok(LineModel::Instruction(i)),
                    Err(e) => Err(e),
                },
            }
        }
    }
}

impl Line {
    /// Classifies one line of source text.
    pub fn parse(line: String) -> (r: Result<Line, AsmError>)
        ensures
            view_result(r) == line_model(line@),
    {
        let n = line.as_str().unicode_len();
        if n == 0 || line.as_str().get_char(0) == '#' {
            return Ok(Line::Comment(line));
        }
        if line.as_str().get_char(0) == ':' {
            return Ok(Line::Label(line));
        }
        let expanded = {
            let ws = split_words(line.as_str());
            if ws.len() == 0 {
                return Err(AsmError::MissingMnemonic);
            }
            let m = lowercase(ws[0]);
            match Macro::from_name(m.as_str()) {
                Some(mac) => match mac.expand(&ws) {
                    Ok(v) => Ok(v),
                    Err(e) => return Err(e),
                },
                None => match Instruction::from_words(m.as_str(), &ws) {
                    Ok(i) => Err(i),
                    Err(e) => return Err(e),
                },
            }
        };
        match expanded {
            Ok(v) => Ok(Line::Macro(line, v)),
            Err(i) => Ok(Line::Instruction(i)),
        }
    }
}

} // verus!
