use vstd::prelude::*;

verus! {

/// The width an instruction works on: the low byte or the whole 64-bit word.
#[derive(Clone, Copy, PartialEq, Eq, Hash, Structural)]
pub enum WordSize {
    Byte,
    Long,
}

/// A decoded operand description: addressing mode, main register and offset selector.
#[derive(Clone, Copy, PartialEq, Eq, Structural)]
pub struct Operand {
    pub mode: Mode,
    pub main_register: u8,
    pub offset: u8,
}

/// The operations of the instruction set.
#[derive(Clone, Copy, PartialEq, Eq, Hash, Structural)]
pub enum Operator {
    Hlt,
    Mov,
    Mova,
    Cmp,
    Add,
    Adc,
    Sub,
    Mul,
    Div,
    Rem,
    And,
    Or,
    Xor,
    Not,
    Lsl,
    Lsr,
    Asl,
    Asr,
    Jmp,
    Call,
    Ret,
    IntRet,
    Beq,
    Bne,
    Bgt,
    Bge,
    Blt,
    Ble,
    Bcs,
    Bcc,
    Bvs,
    Bvc,
    VAdd,
    VSub,
    VMul,
    VDiv,
    VRem,
    VAnd,
    VOr,
    VXor,
    In,
    Out,
    EI,
    DI,
    VCmpBeq,
    VCmpBne,
    VCmpBgt,
    VCmpBge,
    VCmpBlt,
    VCmpBle,
    VCmpBcs,
    VCmpBcc,
    VCmpBvs,
    VCmpBvc,
}

/// The addressing modes of an operand.
#[derive(Clone, Copy, PartialEq, Eq, Hash, Structural)]
pub enum Mode {
    Direct,
    DataRegister,
    AddressRegister,
    Indirect,
    IndirectPostIncrement,
    IndirectPreDecrement,
    IndirectOffset,
    IndirectDirect,
}

} // verus!
