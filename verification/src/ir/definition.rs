pub use crate::parser::nodes::Type;
use crate::parser::nodes::{param_models, SpecType};
use vstd::prelude::*;

verus! {

/// An operand: a named variable or temporary, or a literal number.
#[derive(Debug, PartialEq)]
pub enum Val {
    Var(String),
    Number(u64),
}

/// The mathematical value of a [`Val`].
pub enum SpecVal {
    Var(Seq<char>),
    Number(u64),
}

impl View for Val {
    type V = SpecVal;

    open spec fn view(&self) -> SpecVal {
        match self {
            Val::Var(name) => SpecVal::Var(name@),
            Val::Number(n) => SpecVal::Number(*n),
        }
    }
}

impl Clone for Val {
    fn clone(&self) -> (r: Self)
        ensures
            r@ == self@,
    {
        match self {
            Val::Var(name) => Val::Var(name.clone()),
            Val::Number(n) => Val::Number(*n),
        }
    }
}

/// The operation of a `Binary` instruction.
#[derive(Debug, Clone, Copy, PartialEq, Eq)]
pub enum Binop {
    Add,
    Sub,
    Mul,
    Div,
    Mod,
    Equal,
}

/// A three-address instruction. Labels mark positions in the flat list of a
/// function's instructions.
#[derive(Debug, Clone, PartialEq)]
pub enum Instruction {
    Copy { src: Val, dst: Val },
    Binary { op: Binop, src1: Val, src2: Val, dst: Val },
    Return(Val),
    Label(String),
    Jump(String),
    JumpIfZero(Val, String),
    JumpIfNotZero(Val, String),
    FunctionCall(String, Vec<Val>, Val),
    GetAddress(Val, Val),
    Store(Val, Val),
    Load(Val, Val),
    AddPtr { ptr: Val, index: Val, dst: Val },
}

/// The mathematical value of an [`Instruction`].
pub enum SpecInstruction {
    Copy { src: SpecVal, dst: SpecVal },
    Binary { op: Binop, src1: SpecVal, src2: SpecVal, dst: SpecVal },
    Return(SpecVal),
    Label(Seq<char>),
    Jump(Seq<char>),
    JumpIfZero(SpecVal, Seq<char>),
    JumpIfNotZero(SpecVal, Seq<char>),
    FunctionCall(Seq<char>, Seq<SpecVal>, SpecVal),
    GetAddress(SpecVal, SpecVal),
    Store(SpecVal, SpecVal),
    Load(SpecVal, SpecVal),
    AddPtr { ptr: SpecVal, index: SpecVal, dst: SpecVal },
}

/// The mathematical values of a list of operands, in order.
pub open spec fn val_models(vals: Seq<Val>) -> Seq<SpecVal> {
    Seq::new(vals.len(), |i: int| vals[i]@)
}

impl View for Instruction {
    type V = SpecInstruction;

    open spec fn view(&self) -> SpecInstruction {
        match self {
            Instruction::Copy { src, dst } => SpecInstruction::Copy { src: src@, dst: dst@ },
            Instruction::Binary { op, src1, src2, dst } => SpecInstruction::Binary {
                op: *op,
                src1: src1@,
                src2: src2@,
                dst: dst@,
            },
            Instruction::Return(val) => SpecInstruction::Return(val@),
            Instruction::Label(name) => SpecInstruction::Label(name@),
            Instruction::Jump(name) => SpecInstruction::Jump(name@),
            Instruction::JumpIfZero(val, name) => SpecInstruction::JumpIfZero(val@, name@),
            Instruction::JumpIfNotZero(val, name) => SpecInstruction::JumpIfNotZero(val@, name@),
            Instruction::FunctionCall(name, args, dst) => SpecInstruction::FunctionCall(
                name@,
                val_models(args@),
                dst@,
            ),
            Instruction::GetAddress(src, dst) => SpecInstruction::GetAddress(src@, dst@),
            Instruction::Store(value, address) => SpecInstruction::Store(value@, address@),
            Instruction::Load(address, dst) => SpecInstruction::Load(address@, dst@),
            Instruction::AddPtr { ptr, index, dst } => SpecInstruction::AddPtr {
                ptr: ptr@,
                index: index@,
                dst: dst@,
            },
        }
    }
}

/// The mathematical values of a list of instructions, in order.
pub open spec fn instruction_models(instructions: Seq<Instruction>) -> Seq<SpecInstruction> {
    Seq::new(instructions.len(), |i: int| instructions[i]@)
}

/// A lowered function: its name, its parameters, its return type and the
/// flat list of its instructions.
#[derive(Debug)]
pub struct Function {
    pub name: String,
    pub params: Vec<(String, Type)>,
    pub return_type: Type,
    pub body: Vec<Instruction>,
}

/// The mathematical value of a [`Function`].
pub struct SpecFunction {
    pub name: Seq<char>,
    pub params: Seq<(Seq<char>, SpecType)>,
    pub return_type: SpecType,
    pub body: Seq<SpecInstruction>,
}

impl View for Function {
    type V = SpecFunction;

    open spec fn view(&self) -> SpecFunction {
        SpecFunction {
            name: self.name@,
            params: param_models(self.params@),
            return_type: self.return_type@,
            body: instruction_models(self.body@),
        }
    }
}

/// A lowered program: its functions in source order.
#[derive(Debug)]
pub struct Program {
    pub functions: Vec<Function>,
}

/// The mathematical value of a [`Program`].
pub struct SpecProgram {
    pub functions: Seq<SpecFunction>,
}

/// The mathematical values of a list of lowered functions, in order.
pub open spec fn function_models(functions: Seq<Function>) -> Seq<SpecFunction> {
    Seq::new(functions.len(), |i: int| functions[i]@)
}

impl View for Program {
    type V = SpecProgram;

    open spec fn view(&self) -> SpecProgram {
        SpecProgram { functions: function_models(self.functions@) }
    }
}

} // verus!
