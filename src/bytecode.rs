//! The instruction set.
use vstd::prelude::*;

use crate::block::Block;
use crate::SpecialFunctions;

verus! {

/// The binary operators.
#[derive(PartialEq, Eq, Structural, Clone, Copy, Debug)]
pub enum BINOP {
    Add,
    Subtract,
    Multiply,
    Divide,
    Remainder,
    LessThan,
    LargerThan,
    LessOrEq,
    LargerOrEq,
    NotEq,
    Eq,
    And,
    Or,
    Xor,
}

/// One instruction. Each case carries only the operands it needs.
#[derive(Debug, PartialEq)]
pub enum OPTCODE {
    LoadInt { value: i64 },
    LoadBool { value: bool },
    LoadString { value: String },
    /// A float literal, as its IEEE-754 bit pattern.
    LoadFloat { bits: u64 },
    LoadVar { id: usize },
    /// A call by name; the linker turns it into `JumpToFunction`.
    CallFunction { name: String },
    JumpToFunction { target: usize, function_name: Option<String> },
    Return,
    Add,
    Subtract,
    Multiply,
    Divide,
    Remainder,
    LessThan,
    LargerThan,
    LessOrEq,
    LargerOrEq,
    NotEq,
    Eq,
    Or,
    And,
    Xor,
    JumpIfFalse { steps: usize },
    Jump { steps: usize },
    JumpBack { steps: usize },
    DefineVar { id: usize },
    DefineObject { id: usize },
    CreateObject { field_names: Vec<String> },
    GetObjectField { field_name: String },
    SetObjectField { id: usize, field_name: String },
    CreateArray { init_values_count: usize },
    DefineArray { id: usize, init_values_count: usize },
    GetFromArray { id: usize },
    AssignAtArrayIndex { id: usize },
    PushToArray { id: usize },
    ArrayLength { id: usize },
    AssignVar { id: usize },
    CallSpecialFunction { function: SpecialFunctions },
    /// Pops a repeat count and runs the nested block that many times.
    SimpleLoop { body_block: Block },
    PushToTestingStack { duplicate_stackvalue: bool },
    /// Must be lowered to jumps before execution.
    Break,
    /// Must be lowered to jumps before execution.
    Continue,
}

/// The instruction that applies a binary operator.
pub open spec fn binop_instruction(op: BINOP) -> OPTCODE {
    match op {
        BINOP::Add => OPTCODE::Add,
        BINOP::Subtract => OPTCODE::Subtract,
        BINOP::Multiply => OPTCODE::Multiply,
        BINOP::Divide => OPTCODE::Divide,
        BINOP::Remainder => OPTCODE::Remainder,
        BINOP::LessThan => OPTCODE::LessThan,
        BINOP::LargerThan => OPTCODE::LargerThan,
        BINOP::LessOrEq => OPTCODE::LessOrEq,
        BINOP::LargerOrEq => OPTCODE::LargerOrEq,
        BINOP::NotEq => OPTCODE::NotEq,
        BINOP::Eq => OPTCODE::Eq,
        BINOP::And => OPTCODE::And,
        BINOP::Or => OPTCODE::Or,
        BINOP::Xor => OPTCODE::Xor,
    }
}

/// The binary operator that an instruction applies, if it applies one.
pub open spec fn instruction_binop(i: OPTCODE) -> Option<BINOP> {
    match i {
        OPTCODE::Add => Some(BINOP::Add),
        OPTCODE::Subtract => Some(BINOP::Subtract),
        OPTCODE::Multiply => Some(BINOP::Multiply),
        OPTCODE::Divide => Some(BINOP::Divide),
        OPTCODE::Remainder => Some(BINOP::Remainder),
        OPTCODE::LessThan => Some(BINOP::LessThan),
        OPTCODE::LargerThan => Some(BINOP::LargerThan),
        OPTCODE::LessOrEq => Some(BINOP::LessOrEq),
        OPTCODE::LargerOrEq => Some(BINOP::LargerOrEq),
        OPTCODE::NotEq => Some(BINOP::NotEq),
        OPTCODE::Eq => Some(BINOP::Eq),
        OPTCODE::And => Some(BINOP::And),
        OPTCODE::Or => Some(BINOP::Or),
        OPTCODE::Xor => Some(BINOP::Xor),
        _ => None,
    }
}

} // verus!
