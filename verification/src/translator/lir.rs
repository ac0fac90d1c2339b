use crate::isa::WordSize;
use crate::translator::common::Address;
use std::collections::HashMap;
use vstd::prelude::*;

verus! {

/// The number of a basic block.
pub type BlockId = usize;

/// Whether a register is a data or an address register.
#[derive(Clone, Copy, PartialEq, Eq, Structural)]
pub enum RegisterType {
    Data,
    Address,
}

/// An operand of a low-level instruction.
pub enum LirOperand {
    Direct(u64),
    VirtualRegister(usize, RegisterType),
    Register(u8, RegisterType),
    Indirect(Box<LirOperand>),
    IndirectPostIncrement(Box<LirOperand>),
    IndirectPreDecrement(Box<LirOperand>),
    IndirectOffset { base: Box<LirOperand>, offset: Box<LirOperand> },
    IndirectDirect(Address),
}

/// The condition of a conditional branch.
#[derive(Clone, Copy, PartialEq, Eq, Structural)]
pub enum Condition {
    Equal,
    NotEqual,
    Greater,
    GreaterEqual,
    Lower,
    LowerEqual,
    CarrySet,
    CarryClear,
    OverflowSet,
    OverflowClear,
}

/// A low-level instruction: one machine instruction, or `SetBool`, which the assembler
/// expands into a short sequence.
pub enum LirInstruction {
    Mov { size: WordSize, source: LirOperand, destination: LirOperand },
    Cmp { size: WordSize, that: LirOperand, with: LirOperand },
    Add { size: WordSize, left: LirOperand, right: LirOperand, destination: LirOperand },
    Sub { size: WordSize, left: LirOperand, right: LirOperand, destination: LirOperand },
    Mul { size: WordSize, left: LirOperand, right: LirOperand, destination: LirOperand },
    Div { size: WordSize, left: LirOperand, right: LirOperand, destination: LirOperand },
    Rem { size: WordSize, left: LirOperand, right: LirOperand, destination: LirOperand },
    Lsl { size: WordSize, source: LirOperand, count: LirOperand, destination: LirOperand },
    Lsr { size: WordSize, source: LirOperand, count: LirOperand, destination: LirOperand },
    And { size: WordSize, left: LirOperand, right: LirOperand, destination: LirOperand },
    Or { size: WordSize, left: LirOperand, right: LirOperand, destination: LirOperand },
    Xor { size: WordSize, left: LirOperand, right: LirOperand, destination: LirOperand },
    Not { size: WordSize, source: LirOperand, destination: LirOperand },
    Jmp { label: BlockId },
    Branch { condition: Condition, label: BlockId },
    VAdd { left: LirOperand, right: LirOperand, destination: LirOperand },
    VSub { left: LirOperand, right: LirOperand, destination: LirOperand },
    VMul { left: LirOperand, right: LirOperand, destination: LirOperand },
    VDiv { left: LirOperand, right: LirOperand, destination: LirOperand },
    VRem { left: LirOperand, right: LirOperand, destination: LirOperand },
    VAnd { left: LirOperand, right: LirOperand, destination: LirOperand },
    VOr { left: LirOperand, right: LirOperand, destination: LirOperand },
    VXor { left: LirOperand, right: LirOperand, destination: LirOperand },
    VCmpBeq { left: LirOperand, right: LirOperand, destination: LirOperand },
    VCmpBne { left: LirOperand, right: LirOperand, destination: LirOperand },
    VCmpBgt { left: LirOperand, right: LirOperand, destination: LirOperand },
    VCmpBge { left: LirOperand, right: LirOperand, destination: LirOperand },
    VCmpBlt { left: LirOperand, right: LirOperand, destination: LirOperand },
    VCmpBle { left: LirOperand, right: LirOperand, destination: LirOperand },
    Call { label: BlockId },
    Ret,
    IntRet,
    In { port: LirOperand, destination: LirOperand, word_size: WordSize },
    Out { port: LirOperand, value: LirOperand, word_size: WordSize },
    Halt,
    SetBool { condition: Condition, destination: LirOperand },
    AllocateStackFrame,
}

/// A basic block of low-level instructions.
pub struct LirBlock {
    pub id: BlockId,
    pub instructions: Vec<LirInstruction>,
}

/// The output of the back end: the code, the initialised data by address, and the blocks
/// that serve the eight interrupt vectors.
pub struct LirPackage {
    pub text_section: Vec<LirBlock>,
    pub data_section: HashMap<Address, (u64, WordSize)>,
    pub interrupt_blocks: [BlockId; 8],
}

} // verus!
