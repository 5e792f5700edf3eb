//! The intermediate representation that the pass reads and rewrites.
//!
//! Only what the pass looks at or produces is kept: the order of functions,
//! blocks and instructions, the operands of an instruction, the debug
//! location attached to it, and the constant globals of the module. A host
//! compiler fills these types from its own representation and carries the
//! changes back.

use vstd::prelude::*;

verus! {

/// The type of a value, as far as a function signature needs it.
#[derive(Clone, Copy, Debug, PartialEq, Eq, Structural)]
pub enum ValueType {
    /// A 32-bit integer.
    Int32,
    /// A pointer to bytes.
    Pointer,
    /// Any other type.
    Other,
}

/// What an operand of an instruction refers to.
#[derive(Clone, Copy, Debug, PartialEq, Eq, Structural)]
pub enum Operand {
    /// A value that the pass never looks into.
    Value,
    /// The basic block with this address.
    Block(u64),
    /// A pointer to the global at this index of the module.
    Global(usize),
    /// The function at this index of the module.
    Function(usize),
    /// A 32-bit integer constant.
    Int32(u32),
}

/// The kind of an instruction.
#[derive(Clone, Copy, Debug, PartialEq, Eq, Structural)]
pub enum Opcode {
    /// A branch: one operand when unconditional, three when conditional.
    Branch,
    /// A call: the arguments in order, then the callee.
    Call,
    /// Anything else.
    Other,
}

/// The scope that a debug location lies in, with the path of its file where
/// the scope resolves to one.
#[derive(Clone, Debug, PartialEq, Eq)]
pub struct DebugScope {
    pub file: Option<String>,
}

/// The source position attached to an instruction.
#[derive(Clone, Debug, PartialEq, Eq)]
pub struct DebugLocation {
    pub line: u32,
    pub scope: Option<DebugScope>,
}

#[derive(Clone, Debug, PartialEq, Eq)]
pub struct Instruction {
    pub opcode: Opcode,
    pub operands: Vec<Operand>,
    pub location: Option<DebugLocation>,
}

/// A basic block. `address` is the token that tells blocks apart for the
/// length of one pass.
#[derive(Clone, Debug, PartialEq, Eq)]
pub struct Block {
    pub address: u64,
    pub instructions: Vec<Instruction>,
}

/// A function. One without blocks is a declaration.
#[derive(Clone, Debug, PartialEq, Eq)]
pub struct Function {
    pub name: String,
    pub result: ValueType,
    pub parameters: Vec<ValueType>,
    pub variadic: bool,
    pub blocks: Vec<Block>,
}

/// A global array of bytes.
#[derive(Clone, Debug, PartialEq, Eq)]
pub struct Global {
    pub bytes: Vec<u8>,
    pub constant: bool,
}

#[derive(Clone, Debug, PartialEq, Eq)]
pub struct Module {
    pub functions: Vec<Function>,
    pub globals: Vec<Global>,
}

pub struct DebugScopeView {
    pub file: Option<Seq<char>>,
}

pub struct DebugLocationView {
    pub line: u32,
    pub scope: Option<DebugScopeView>,
}

pub struct InstructionView {
    pub opcode: Opcode,
    pub operands: Seq<Operand>,
    pub location: Option<DebugLocationView>,
}

pub struct BlockView {
    pub address: u64,
    pub instructions: Seq<InstructionView>,
}

pub struct FunctionView {
    pub name: Seq<char>,
    pub result: ValueType,
    pub parameters: Seq<ValueType>,
    pub variadic: bool,
    pub blocks: Seq<BlockView>,
}

pub struct GlobalView {
    pub bytes: Seq<u8>,
    pub constant: bool,
}

pub struct ModuleView {
    pub functions: Seq<FunctionView>,
    pub globals: Seq<GlobalView>,
}

impl View for DebugScope {
    type V = DebugScopeView;

    open spec fn view(&self) -> DebugScopeView {
        DebugScopeView {
            file: match self.file {
                Some(path) => Some(path@),
                None => None,
            },
        }
    }
}

impl View for DebugLocation {
    type V = DebugLocationView;

    open spec fn view(&self) -> DebugLocationView {
        DebugLocationView {
            line: self.line,
            scope: match self.scope {
                Some(scope) => Some(scope@),
                None => None,
            },
        }
    }
}

impl View for Instruction {
    type V = InstructionView;

    open spec fn view(&self) -> InstructionView {
        InstructionView {
            opcode: self.opcode,
            operands: self.operands@,
            location: match self.location {
                Some(location) => Some(location@),
                None => None,
            },
        }
    }
}

impl View for Block {
    type V = BlockView;

    open spec fn view(&self) -> BlockView {
        BlockView {
            address: self.address,
            instructions: self.instructions@.map_values(|i: Instruction| i@),
        }
    }
}

impl View for Function {
    type V = FunctionView;

    open spec fn view(&self) -> FunctionView {
        FunctionView {
            name: self.name@,
            result: self.result,
            parameters: self.parameters@,
            variadic: self.variadic,
            blocks: self.blocks@.map_values(|b: Block| b@),
        }
    }
}

impl View for Global {
    type V = GlobalView;

    open spec fn view(&self) -> GlobalView {
        GlobalView { bytes: self.bytes@, constant: self.constant }
    }
}

impl View for Module {
    type V = ModuleView;

    open spec fn view(&self) -> ModuleView {
        ModuleView {
            functions: self.functions@.map_values(|f: Function| f@),
            globals: self.globals@.map_values(|g: Global| g@),
        }
    }
}

impl FunctionView {
    /// The number of parameters as the 32-bit integer that a call can carry:
    /// the low 32 bits of the count.
    pub open spec fn param_count(self) -> u32 {
        (self.parameters.len() % 0x1_0000_0000) as u32
    }
}

impl Function {
    /// The number of declared parameters, as a 32-bit integer.
    pub fn count_params(&self) -> (count: u32)
        ensures
            count == self@.param_count(),
    {
        let len: u64 = self.parameters.len() as u64;
        (len % 0x1_0000_0000) as u32
    }
}

} // verus!
