use vstd::prelude::*;

verus! {

/// The machine's value type.
pub type Integer = i64;

/// The closed set of opcodes.
#[derive(Debug, Clone, Copy, PartialEq, Eq, Structural)]
pub enum InstructionType {
    Push,
    Pop,
    Duplicate,
    Jump,
    JumpIf,
    Equal,
    Add,
    Subtract,
    Multiply,
    Divide,
    Dump,
    Halt,
}

/// The opcode that a numeric tag stands for, if any.
pub open spec fn opcode_of(tag: u8) -> Option<InstructionType> {
    match tag {
        0 => Some(InstructionType::Push),
        1 => Some(InstructionType::Pop),
        2 => Some(InstructionType::Duplicate),
        3 => Some(InstructionType::Jump),
        4 => Some(InstructionType::JumpIf),
        5 => Some(InstructionType::Equal),
        6 => Some(InstructionType::Add),
        7 => Some(InstructionType::Subtract),
        8 => Some(InstructionType::Multiply),
        9 => Some(InstructionType::Divide),
        10 => Some(InstructionType::Dump),
        11 => Some(InstructionType::Halt),
        _ => None,
    }
}

/// The numeric tag of an opcode.
pub open spec fn tag_of(t: InstructionType) -> u8 {
    match t {
        InstructionType::Push => 0,
        InstructionType::Pop => 1,
        InstructionType::Duplicate => 2,
        InstructionType::Jump => 3,
        InstructionType::JumpIf => 4,
        InstructionType::Equal => 5,
        InstructionType::Add => 6,
        InstructionType::Subtract => 7,
        InstructionType::Multiply => 8,
        InstructionType::Divide => 9,
        InstructionType::Dump => 10,
        InstructionType::Halt => 11,
    }
}

/// Whether an opcode takes one operand (otherwise it takes none).
pub open spec fn takes_operand(t: InstructionType) -> bool {
    match t {
        InstructionType::Push | InstructionType::Duplicate | InstructionType::Jump
        | InstructionType::JumpIf => true,
        _ => false,
    }
}

impl InstructionType {
    /// Maps a numeric tag in `0..=11` to its opcode; any other tag has none.
    pub fn from_tag(tag: u8) -> (r: Option<InstructionType>)
        ensures
            r == opcode_of(tag),
            r.is_some() <==> tag <= 11,
    {
        match tag {
            0 => Some(InstructionType::Push),
            1 => Some(InstructionType::Pop),
            2 => Some(InstructionType::Duplicate),
            3 => Some(InstructionType::Jump),
            4 => Some(InstructionType::JumpIf),
            5 => Some(InstructionType::Equal),
            6 => Some(InstructionType::Add),
            7 => Some(InstructionType::Subtract),
            8 => Some(InstructionType::Multiply),
            9 => Some(InstructionType::Divide),
            10 => Some(InstructionType::Dump),
            11 => Some(InstructionType::Halt),
            _ => None,
        }
    }

    /// The numeric tag of this opcode.
    pub fn tag(&self) -> (r: u8)
        ensures
            r == tag_of(*self),
            opcode_of(r) == Some(*self),
    {
        match self {
            InstructionType::Push => 0,
            InstructionType::Pop => 1,
            InstructionType::Duplicate => 2,
            InstructionType::Jump => 3,
            InstructionType::JumpIf => 4,
            InstructionType::Equal => 5,
            InstructionType::Add => 6,
            InstructionType::Subtract => 7,
            InstructionType::Multiply => 8,
            InstructionType::Divide => 9,
            InstructionType::Dump => 10,
            InstructionType::Halt => 11,
        }
    }

    /// The number of operands this opcode takes: 0 or 1.
    pub fn arity(&self) -> (r: usize)
        ensures
            r == (if takes_operand(*self) { 1usize } else { 0usize }),
    {
        match self {
            InstructionType::Push | InstructionType::Duplicate | InstructionType::Jump
            | InstructionType::JumpIf => 1,
            _ => 0,
        }
    }
}

/// An opcode with its optional operand.
#[derive(Debug, Clone, Copy, PartialEq, Eq, Structural)]
pub struct Instruction {
    pub instruction_type: InstructionType,
    pub operand: Option<Integer>,
}

impl Instruction {
    /// The operand is present exactly when the opcode takes one.
    pub open spec fn well_formed(&self) -> bool {
        self.operand.is_some() == takes_operand(self.instruction_type)
    }

    pub fn new(instruction_type: InstructionType, operand: Option<Integer>) -> (r: Self)
        ensures
            r.instruction_type == instruction_type,
            r.operand == operand,
    {
        Self { instruction_type, operand }
    }
}

} // verus!
