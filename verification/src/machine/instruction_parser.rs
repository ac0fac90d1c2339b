use crate::isa::{Mode, Operand, Operator, WordSize};
use vstd::prelude::*;

verus! {

/// The operator that an operation code stands for, if any.
pub open spec fn operator_for_code(code: u8) -> Option<Operator> {
    match code {
        0x00 => Some(Operator::Hlt),
        0x01 => Some(Operator::Mov),
        0x02 => Some(Operator::Mova),
        0x03 => Some(Operator::Cmp),
        0x10 => Some(Operator::Add),
        0x11 => Some(Operator::Adc),
        0x12 => Some(Operator::Sub),
        0x13 => Some(Operator::Mul),
        0x14 => Some(Operator::Div),
        0x15 => Some(Operator::Rem),
        0x16 => Some(Operator::And),
        0x17 => Some(Operator::Or),
        0x18 => Some(Operator::Xor),
        0x19 => Some(Operator::Not),
        0x1A => Some(Operator::Lsl),
        0x1B => Some(Operator::Lsr),
        0x1C => Some(Operator::Asl),
        0x1D => Some(Operator::Asr),
        0x20 => Some(Operator::Jmp),
        0x21 => Some(Operator::Call),
        0x22 => Some(Operator::Ret),
        0x23 => Some(Operator::IntRet),
        0x30 => Some(Operator::Beq),
        0x31 => Some(Operator::Bne),
        0x32 => Some(Operator::Bgt),
        0x33 => Some(Operator::Bge),
        0x34 => Some(Operator::Blt),
        0x35 => Some(Operator::Ble),
        0x36 => Some(Operator::Bcs),
        0x37 => Some(Operator::Bcc),
        0x38 => Some(Operator::Bvs),
        0x39 => Some(Operator::Bvc),
        0x40 => Some(Operator::VAdd),
        0x42 => Some(Operator::VSub),
        0x43 => Some(Operator::VMul),
        0x44 => Some(Operator::VDiv),
        0x45 => Some(Operator::VRem),
        0x46 => Some(Operator::VAnd),
        0x47 => Some(Operator::VOr),
        0x48 => Some(Operator::VXor),
        0x50 => Some(Operator::In),
        0x51 => Some(Operator::Out),
        0x52 => Some(Operator::EI),
        0x53 => Some(Operator::DI),
        0x60 => Some(Operator::VCmpBeq),
        0x61 => Some(Operator::VCmpBne),
        0x62 => Some(Operator::VCmpBgt),
        0x63 => Some(Operator::VCmpBge),
        0x64 => Some(Operator::VCmpBlt),
        0x65 => Some(Operator::VCmpBle),
        0x66 => Some(Operator::VCmpBcs),
        0x67 => Some(Operator::VCmpBcc),
        0x68 => Some(Operator::VCmpBvs),
        0x69 => Some(Operator::VCmpBvc),
        _ => None,
    }
}

/// The addressing mode that a three-bit mode code stands for.
pub open spec fn mode_for_code(code: u8) -> Mode {
    match code {
        0 => Mode::Direct,
        1 => Mode::DataRegister,
        2 => Mode::AddressRegister,
        3 => Mode::Indirect,
        4 => Mode::IndirectPostIncrement,
        5 => Mode::IndirectPreDecrement,
        6 => Mode::IndirectOffset,
        _ => Mode::IndirectDirect,
    }
}

/// The operation code held in bits 31..25 of an instruction word.
pub open spec fn opcode_of(word: u32) -> u8 {
    ((word >> 25u32) & 0x7f) as u8
}

/// The width selected by bit 24 of an instruction word.
pub open spec fn word_size_of(word: u32) -> WordSize {
    if (word >> 24u32) & 1 == 1 {
        WordSize::Long
    } else {
        WordSize::Byte
    }
}

/// The operand that an operand byte describes: mode in bits 7..5, main register in
/// bits 4..2, offset selector in bits 1..0.
pub open spec fn operand_of(byte: u8) -> Operand {
    Operand {
        mode: mode_for_code((byte >> 5u8) & 7),
        main_register: (byte >> 2u8) & 7,
        offset: byte & 3,
    }
}

/// Decodes instruction words and operand bytes.
pub struct InstructionParser {}

impl InstructionParser {
    pub fn new() -> (parser: Self) {
        Self {  }
    }

    /// The operator for an operation code, or `None` where the code is unassigned.
    pub fn decode_operator(&self, code: u8) -> (operator: Option<Operator>)
        ensures
            operator == operator_for_code(code),
    {
        match code {
            0x00 => Some(Operator::Hlt),
            0x01 => Some(Operator::Mov),
            0x02 => Some(Operator::Mova),
            0x03 => Some(Operator::Cmp),
            0x10 => Some(Operator::Add),
            0x11 => Some(Operator::Adc),
            0x12 => Some(Operator::Sub),
            0x13 => Some(Operator::Mul),
            0x14 => Some(Operator::Div),
            0x15 => Some(Operator::Rem),
            0x16 => Some(Operator::And),
            0x17 => Some(Operator::Or),
            0x18 => Some(Operator::Xor),
            0x19 => Some(Operator::Not),
            0x1A => Some(Operator::Lsl),
            0x1B => Some(Operator::Lsr),
            0x1C => Some(Operator::Asl),
            0x1D => Some(Operator::Asr),
            0x20 => Some(Operator::Jmp),
            0x21 => Some(Operator::Call),
            0x22 => Some(Operator::Ret),
            0x23 => Some(Operator::IntRet),
            0x30 => Some(Operator::Beq),
            0x31 => Some(Operator::Bne),
            0x32 => Some(Operator::Bgt),
            0x33 => Some(Operator::Bge),
            0x34 => Some(Operator::Blt),
            0x35 => Some(Operator::Ble),
            0x36 => Some(Operator::Bcs),
            0x37 => Some(Operator::Bcc),
            0x38 => Some(Operator::Bvs),
            0x39 => Some(Operator::Bvc),
            0x40 => Some(Operator::VAdd),
            0x42 => Some(Operator::VSub),
            0x43 => Some(Operator::VMul),
            0x44 => Some(Operator::VDiv),
            0x45 => Some(Operator::VRem),
            0x46 => Some(Operator::VAnd),
            0x47 => Some(Operator::VOr),
            0x48 => Some(Operator::VXor),
            0x50 => Some(Operator::In),
            0x51 => Some(Operator::Out),
            0x52 => Some(Operator::EI),
            0x53 => Some(Operator::DI),
            0x60 => Some(Operator::VCmpBeq),
            0x61 => Some(Operator::VCmpBne),
            0x62 => Some(Operator::VCmpBgt),
            0x63 => Some(Operator::VCmpBge),
            0x64 => Some(Operator::VCmpBlt),
            0x65 => Some(Operator::VCmpBle),
            0x66 => Some(Operator::VCmpBcs),
            0x67 => Some(Operator::VCmpBcc),
            0x68 => Some(Operator::VCmpBvs),
            0x69 => Some(Operator::VCmpBvc),
            _ => None,
        }
    }

    /// The operation code of an instruction word.
    pub fn opcode(&self, word: u32) -> (code: u8)
        ensures
            code == opcode_of(word),
    {
        ((word >> 25) & 0x7f) as u8
    }

    /// The operator and width of an instruction word, whose operation code must be assigned.
    pub fn parse_operator(&self, word: u32) -> (decoded: (Operator, WordSize))
        requires
            operator_for_code(opcode_of(word)) is Some,
        ensures
            decoded.0 == operator_for_code(opcode_of(word))->0,
            decoded.1 == word_size_of(word),
    {
        let code = self.opcode(word);
        let operator = self.decode_operator(code).unwrap();
        let word_size = if (word >> 24) & 1 == 1 {
            WordSize::Long
        } else {
            WordSize::Byte
        };
        (operator, word_size)
    }

    /// The operand that an operand byte describes.
    pub fn parse_operand(&self, word: u8) -> (operand: Operand)
        ensures
            operand == operand_of(word),
            operand.main_register < 8,
            operand.offset < 4,
    {
        proof {
            assert((word >> 2u8) & 7 < 8 && word & 3 < 4) by (bit_vector);
        }
        let mode_code = (word >> 5) & 0x7;
        let main_register = (word >> 2) & 0x7;
        let offset = word & 0x3;
        let mode = match mode_code {
            0 => Mode::Direct,
            1 => Mode::DataRegister,
            2 => Mode::AddressRegister,
            3 => Mode::Indirect,
            4 => Mode::IndirectPostIncrement,
            5 => Mode::IndirectPreDecrement,
            6 => Mode::IndirectOffset,
            _ => Mode::IndirectDirect,
        };
        Operand { mode, main_register, offset }
    }
}

} // verus!
