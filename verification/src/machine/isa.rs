use vstd::prelude::*;

verus! {

/// An operand description of the earlier byte-oriented encoding.
#[derive(Clone, Copy, PartialEq, Eq, Structural)]
pub struct Operand {
    pub mode: Mode,
    pub main_register: u8,
    pub offset_register: u8,
}

/// The operations of the earlier byte-oriented encoding.
#[derive(Clone, Copy, PartialEq, Eq, Structural)]
pub enum Operator {
    Mov,
    Mova,
    Add,
    Adc,
    Sub,
    Mul,
    Div,
    Rem,
    And,
    Or,
    Xor,
    Not,
    Lsl,
    Lsr,
    Asl,
    Asr,
    Jmp,
    Call,
    Func,
    Ret,
    Link,
    Unlk,
    Beq,
    Bne,
    Bgt,
    Bge,
    Blt,
    Ble,
    Bcs,
    Bcc,
    Bvs,
    Bvc,
    Cmp,
}

/// The addressing modes of the earlier encoding; it has no mode 7.
#[derive(Clone, Copy, PartialEq, Eq, Structural)]
pub enum Mode {
    Direct,
    DataRegister,
    AddressRegister,
    Indirect,
    IndirectPostIncrement,
    IndirectPreDecrement,
    IndirectOffset,
}

/// The operator that an operation byte stands for, if any.
pub open spec fn operator_for_code(code: u8) -> Option<Operator> {
    match code {
        0x01 => Some(Operator::Mov),
        0x02 => Some(Operator::Mova),
        0x10 => Some(Operator::Add),
        0x11 => Some(Operator::Adc),
        0x12 => Some(Operator::Sub),
        0x13 => Some(Operator::Mul),
        0x14 => Some(Operator::Div),
        0x15 => Some(Operator::Rem),
        0x20 => Some(Operator::And),
        0x21 => Some(Operator::Or),
        0x22 => Some(Operator::Xor),
        0x23 => Some(Operator::Not),
        0x30 => Some(Operator::Lsl),
        0x31 => Some(Operator::Lsr),
        0x32 => Some(Operator::Asl),
        0x33 => Some(Operator::Asr),
        0x40 => Some(Operator::Jmp),
        0x41 => Some(Operator::Call),
        0x42 => Some(Operator::Func),
        0x43 => Some(Operator::Ret),
        0x44 => Some(Operator::Link),
        0x45 => Some(Operator::Unlk),
        0x50 => Some(Operator::Beq),
        0x51 => Some(Operator::Bne),
        0x52 => Some(Operator::Bgt),
        0x53 => Some(Operator::Bge),
        0x54 => Some(Operator::Blt),
        0x55 => Some(Operator::Ble),
        0x56 => Some(Operator::Bcs),
        0x57 => Some(Operator::Bcc),
        0x58 => Some(Operator::Bvs),
        0x59 => Some(Operator::Bvc),
        0x60 => Some(Operator::Cmp),
        _ => None,
    }
}

/// The addressing mode for a mode code of this encoding, if any.
pub open spec fn mode_for_code(code: u8) -> Option<Mode> {
    match code {
        0 => Some(Mode::Direct),
        1 => Some(Mode::DataRegister),
        2 => Some(Mode::AddressRegister),
        3 => Some(Mode::Indirect),
        4 => Some(Mode::IndirectPostIncrement),
        5 => Some(Mode::IndirectPreDecrement),
        6 => Some(Mode::IndirectOffset),
        _ => None,
    }
}

/// The mode code of an operand byte, in bits 7..5.
pub open spec fn mode_code_of(word: u8) -> u8 {
    (word & 0b11100000) >> 5u8
}

/// Decodes the earlier byte-oriented encoding.
pub struct InstructionParser {}

impl InstructionParser {
    pub fn new() -> (parser: Self) {
        Self {  }
    }

    /// The operator of an operation byte, which must be assigned.
    pub fn parse_operator(&self, word: u8) -> (operator: Operator)
        requires
            operator_for_code(word) is Some,
        ensures
            operator == operator_for_code(word)->0,
    {
        match word {
            0x01 => Operator::Mov,
            0x02 => Operator::Mova,
            0x10 => Operator::Add,
            0x11 => Operator::Adc,
            0x12 => Operator::Sub,
            0x13 => Operator::Mul,
            0x14 => Operator::Div,
            0x15 => Operator::Rem,
            0x20 => Operator::And,
            0x21 => Operator::Or,
            0x22 => Operator::Xor,
            0x23 => Operator::Not,
            0x30 => Operator::Lsl,
            0x31 => Operator::Lsr,
            0x32 => Operator::Asl,
            0x33 => Operator::Asr,
            0x40 => Operator::Jmp,
            0x41 => Operator::Call,
            0x42 => Operator::Func,
            0x43 => Operator::Ret,
            0x44 => Operator::Link,
            0x45 => Operator::Unlk,
            0x50 => Operator::Beq,
            0x51 => Operator::Bne,
            0x52 => Operator::Bgt,
            0x53 => Operator::Bge,
            0x54 => Operator::Blt,
            0x55 => Operator::Ble,
            0x56 => Operator::Bcs,
            0x57 => Operator::Bcc,
            0x58 => Operator::Bvs,
            0x59 => Operator::Bvc,
            _ => Operator::Cmp,
        }
    }

    /// The operand an operand byte describes: the mode from bits 7..5, the main register
    /// from bits 4..2 and the offset register from bits 1..0. Mode code 7 is unassigned.
    pub fn parse_operand(&self, word: u8) -> (operand: Operand)
        requires
            mode_for_code(mode_code_of(word)) is Some,
        ensures
            operand == (Operand {
                mode: mode_for_code(mode_code_of(word))->0,
                main_register: (word & 0b11100) >> 2u8,
                offset_register: word & 0b11,
            }),
    {
        let mode_code = (word & 0b11100000) >> 5;
        let main_register = (word & 0b11100) >> 2;
        let offset_register = word & 0b11;
        let mode = match mode_code {
            0 => Mode::Direct,
            1 => Mode::DataRegister,
            2 => Mode::AddressRegister,
            3 => Mode::Indirect,
            4 => Mode::IndirectPostIncrement,
            5 => Mode::IndirectPreDecrement,
            _ => Mode::IndirectOffset,
        };
        Operand { mode, main_register, offset_register }
    }
}

} // verus!
