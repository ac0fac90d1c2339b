use crate::isa::{Mode, Operator, WordSize};
use crate::machine::instruction_parser::{operand_of, operator_for_code, opcode_of, word_size_of};
use crate::isa::Operand;
use crate::machine::control_unit::branch_address;
use crate::machine::printers::disassemble::{decode_operand_at, word_at, DecodedOperand};
use crate::translator::common::Address;
use crate::translator::lir::{BlockId, Condition, LirBlock, LirInstruction, LirOperand, LirPackage, RegisterType};
use vstd::prelude::*;
use vstd::std_specs::hash::spec_hash_map_iter;
use vstd::std_specs::iter::IteratorSpec;

verus! {

broadcast use vstd::std_specs::hash::group_hash_axioms;

/// The operation code of each operator.
pub open spec fn operator_code(operator: Operator) -> u8 {
    match operator {
        Operator::Hlt => 0x00,
        Operator::Mov => 0x01,
        Operator::Mova => 0x02,
        Operator::Cmp => 0x03,
        Operator::Add => 0x10,
        Operator::Adc => 0x11,
        Operator::Sub => 0x12,
        Operator::Mul => 0x13,
        Operator::Div => 0x14,
        Operator::Rem => 0x15,
        Operator::And => 0x16,
        Operator::Or => 0x17,
        Operator::Xor => 0x18,
        Operator::Not => 0x19,
        Operator::Lsl => 0x1A,
        Operator::Lsr => 0x1B,
        Operator::Asl => 0x1C,
        Operator::Asr => 0x1D,
        Operator::Jmp => 0x20,
        Operator::Call => 0x21,
        Operator::Ret => 0x22,
        Operator::IntRet => 0x23,
        Operator::Beq => 0x30,
        Operator::Bne => 0x31,
        Operator::Bgt => 0x32,
        Operator::Bge => 0x33,
        Operator::Blt => 0x34,
        Operator::Ble => 0x35,
        Operator::Bcs => 0x36,
        Operator::Bcc => 0x37,
        Operator::Bvs => 0x38,
        Operator::Bvc => 0x39,
        Operator::VAdd => 0x40,
        Operator::VSub => 0x42,
        Operator::VMul => 0x43,
        Operator::VDiv => 0x44,
        Operator::VRem => 0x45,
        Operator::VAnd => 0x46,
        Operator::VOr => 0x47,
        Operator::VXor => 0x48,
        Operator::In => 0x50,
        Operator::Out => 0x51,
        Operator::EI => 0x52,
        Operator::DI => 0x53,
        Operator::VCmpBeq => 0x60,
        Operator::VCmpBne => 0x61,
        Operator::VCmpBgt => 0x62,
        Operator::VCmpBge => 0x63,
        Operator::VCmpBlt => 0x64,
        Operator::VCmpBle => 0x65,
        Operator::VCmpBcs => 0x66,
        Operator::VCmpBcc => 0x67,
        Operator::VCmpBvs => 0x68,
        Operator::VCmpBvc => 0x69,
    }
}

/// The code of each addressing mode.
pub open spec fn mode_code(mode: Mode) -> u8 {
    match mode {
        Mode::Direct => 0,
        Mode::DataRegister => 1,
        Mode::AddressRegister => 2,
        Mode::Indirect => 3,
        Mode::IndirectPostIncrement => 4,
        Mode::IndirectPreDecrement => 5,
        Mode::IndirectOffset => 6,
        Mode::IndirectDirect => 7,
    }
}

/// The code of each width: bit 24 of an instruction word.
pub open spec fn size_code(size: WordSize) -> u8 {
    match size {
        WordSize::Byte => 0,
        WordSize::Long => 1,
    }
}

/// The first byte of an instruction: the operation code above the width bit.
pub open spec fn head_byte(operator: Operator, size: WordSize) -> u8 {
    ((operator_code(operator) << 1u8) | size_code(size)) as u8
}

/// An operand byte: mode code in bits 7..5, register in bits 4..2, offset in bits 1..0.
pub open spec fn operand_byte(mode: Mode, register: u8, offset: u8) -> u8 {
    (((mode_code(mode) << 5u8) | (register << 2u8)) | offset) as u8
}

/// The four bytes of a 32-bit word, most significant first.
pub open spec fn be_bytes_32(value: u32) -> Seq<u8> {
    seq![(value >> 24u32) as u8, (value >> 16u32) as u8, (value >> 8u32) as u8, value as u8]
}

/// The low seven bytes of a 64-bit word, most significant first.
pub open spec fn be_bytes_56(value: u64) -> Seq<u8> {
    seq![
        (value >> 48u64) as u8,
        (value >> 40u64) as u8,
        (value >> 32u64) as u8,
        (value >> 24u64) as u8,
        (value >> 16u64) as u8,
        (value >> 8u64) as u8,
        value as u8,
    ]
}

/// The 32-bit word made of four bytes, most significant first.
pub open spec fn be_word(b0: u8, b1: u8, b2: u8, b3: u8) -> u32 {
    (((b0 as u32) << 24u32) | ((b1 as u32) << 16u32) | ((b2 as u32) << 8u32) | (b3 as u32)) as u32
}

/// How an operand is encoded: its operand byte and the words that follow the instruction
/// word; `None` where the operand has no encoding.
pub open spec fn operand_encoding(operand: LirOperand) -> Option<(u8, Seq<u8>)> {
    match operand {
        LirOperand::Direct(value) => Some((operand_byte(Mode::Direct, 0, 0), be_bytes_32(value as u32))),
        LirOperand::Register(register, RegisterType::Data) => Some(
            (operand_byte(Mode::DataRegister, register, 0), Seq::empty()),
        ),
        LirOperand::Register(register, RegisterType::Address) => Some(
            (operand_byte(Mode::AddressRegister, register, 0), Seq::empty()),
        ),
        LirOperand::Indirect(inner) => match *inner {
            LirOperand::Register(register, RegisterType::Address) => Some(
                (operand_byte(Mode::Indirect, register, 0), Seq::empty()),
            ),
            _ => None,
        },
        LirOperand::IndirectPostIncrement(inner) => match *inner {
            LirOperand::Register(register, RegisterType::Address) => Some(
                (operand_byte(Mode::IndirectPostIncrement, register, 0), Seq::empty()),
            ),
            _ => None,
        },
        LirOperand::IndirectPreDecrement(inner) => match *inner {
            LirOperand::Register(register, RegisterType::Address) => Some(
                (operand_byte(Mode::IndirectPreDecrement, register, 0), Seq::empty()),
            ),
            _ => None,
        },
        LirOperand::IndirectOffset { base, offset } => match *base {
            LirOperand::Register(base, RegisterType::Address) => match *offset {
                LirOperand::Register(index, RegisterType::Data) => if 5 <= index <= 7 {
                    Some((operand_byte(Mode::IndirectOffset, base, (index - 4) as u8), Seq::empty()))
                } else {
                    None
                },
                LirOperand::Direct(value) => Some(
                    (operand_byte(Mode::IndirectOffset, base, 0), be_bytes_32(value as u32)),
                ),
                _ => None,
            },
            _ => None,
        },
        LirOperand::IndirectDirect(address) => Some(
            (operand_byte(Mode::IndirectDirect, 0, 0), be_bytes_32(address as u32)),
        ),
        LirOperand::VirtualRegister(_, _) => None,
    }
}

/// Whether an operand has an encoding.
pub open spec fn encodable(operand: LirOperand) -> bool {
    operand_encoding(operand) is Some
}

/// The bytes of an instruction with two operands.
pub open spec fn two_operand_bytes(
    operator: Operator,
    size: WordSize,
    first: LirOperand,
    second: LirOperand,
) -> Seq<u8> {
    let a = operand_encoding(first)->0;
    let b = operand_encoding(second)->0;
    seq![head_byte(operator, size), a.0, b.0, 0u8] + a.1 + b.1
}

/// The bytes of an instruction with three operands.
pub open spec fn three_operand_bytes(
    operator: Operator,
    size: WordSize,
    first: LirOperand,
    second: LirOperand,
    third: LirOperand,
) -> Seq<u8> {
    let a = operand_encoding(first)->0;
    let b = operand_encoding(second)->0;
    let c = operand_encoding(third)->0;
    seq![head_byte(operator, size), a.0, b.0, c.0] + a.1 + b.1 + c.1
}

/// The bytes of a jump, call or branch before its target is filled in: the head byte and
/// seven zero bytes that will hold the target's word address.
pub open spec fn branch_bytes(operator: Operator) -> Seq<u8> {
    seq![head_byte(operator, WordSize::Byte)] + Seq::new(7, |i: int| 0u8)
}

/// The bytes of an instruction without operands.
pub open spec fn bare_bytes(operator: Operator) -> Seq<u8> {
    seq![head_byte(operator, WordSize::Byte), 0u8, 0u8, 0u8]
}

/// The branch that tests a condition.
pub open spec fn condition_operator(condition: Condition) -> Operator {
    match condition {
        Condition::Equal => Operator::Beq,
        Condition::NotEqual => Operator::Bne,
        Condition::Greater => Operator::Bgt,
        Condition::GreaterEqual => Operator::Bge,
        Condition::Lower => Operator::Blt,
        Condition::LowerEqual => Operator::Ble,
        Condition::CarrySet => Operator::Bcs,
        Condition::CarryClear => Operator::Bcc,
        Condition::OverflowSet => Operator::Bvs,
        Condition::OverflowClear => Operator::Bvc,
    }
}

/// The decoder reads back every operator from its code.
pub proof fn lemma_operator_code_decodes(operator: Operator)
    ensures
        operator_for_code(operator_code(operator)) == Some(operator),
        operator_code(operator) < 0x80,
{
    match operator {
        _ => {},
    }
}

/// An instruction word whose first byte is the head byte of an operator and a width decodes
/// to that operator and width, whatever the other bytes hold.
pub proof fn lemma_instruction_word_decodes(
    operator: Operator,
    size: WordSize,
    b1: u8,
    b2: u8,
    b3: u8,
)
    ensures
        operator_for_code(opcode_of(be_word(head_byte(operator, size), b1, b2, b3))) == Some(
            operator,
        ),
        word_size_of(be_word(head_byte(operator, size), b1, b2, b3)) == size,
{
    lemma_operator_code_decodes(operator);
    let c = operator_code(operator);
    let s = size_code(size);
    assert(s <= 1);
    let word = be_word(((c << 1u8) | s) as u8, b1, b2, b3);
    assert(((word >> 25u32) & 0x7f) as u8 == c && ((word >> 24u32) & 1 == 1) == (s == 1))
        by (bit_vector)
        requires
            c < 0x80,
            s <= 1,
            word == (((((((c << 1u8) | s) as u8) as u32) << 24u32) | ((b1 as u32) << 16u32) | ((
            b2 as u32) << 8u32) | (b3 as u32)) as u32),
    ;
}

/// An operand byte decodes to the mode, register and offset it was made of.
pub proof fn lemma_operand_byte_decodes(mode: Mode, register: u8, offset: u8)
    requires
        register < 8,
        offset < 4,
    ensures
        operand_of(operand_byte(mode, register, offset)) == (Operand {
            mode,
            main_register: register,
            offset,
        }),
{
    let m = mode_code(mode);
    assert(m < 8);
    let byte = operand_byte(mode, register, offset);
    assert((byte >> 5u8) & 7 == m && (byte >> 2u8) & 7 == register && byte & 3 == offset)
        by (bit_vector)
        requires
            m < 8,
            register < 8,
            offset < 4,
            byte == (((m << 5u8) | (register << 2u8)) | offset) as u8,
    ;
    match mode {
        _ => {},
    }
}

/// A branch whose target bytes hold a word address below 2^56 transfers control to that
/// address: the processor joins the low three bytes of the instruction word and the
/// following word into exactly the target.
pub proof fn lemma_branch_target_decodes(head: u8, target: u64)
    requires
        target < 0x100_0000_0000_0000,
    ensures
        ({
            let t = be_bytes_56(target);
            branch_address(be_word(head, t[0], t[1], t[2]), be_word(t[3], t[4], t[5], t[6]))
                == target
        }),
{
    let t = be_bytes_56(target);
    let ir = be_word(head, t[0], t[1], t[2]);
    let next = be_word(t[3], t[4], t[5], t[6]);
    assert((((ir & 0x00ff_ffff) as u64) << 32u64) | (next as u64) == target) by (bit_vector)
        requires
            target < 0x100_0000_0000_0000,
            ir == ((((head as u32) << 24u32) | ((((target >> 48u64) as u8) as u32) << 16u32) | ((((
            target >> 40u64) as u8) as u32) << 8u32) | (((target >> 32u64) as u8) as u32)) as u32),
            next == ((((((target >> 24u64) as u8) as u32) << 24u32) | ((((target >> 16u64) as u8)
                as u32) << 16u32) | ((((target >> 8u64) as u8) as u32) << 8u32) | ((target as u8)
                as u32)) as u32),
    ;
}

/// Whether a port operand can be encoded: an immediate that fits in a byte.
pub open spec fn port_encodable(port: LirOperand) -> bool {
    match port {
        LirOperand::Direct(value) => value <= 0xff,
        _ => false,
    }
}

/// The bytes of an input or output instruction: head byte, port, operand byte, zero, then
/// the operand's following bytes.
pub open spec fn io_bytes(operator: Operator, port: LirOperand, operand: LirOperand, size: WordSize) -> Seq<u8> {
    let e = operand_encoding(operand)->0;
    match port {
        LirOperand::Direct(value) => seq![head_byte(operator, size), value as u8, e.0, 0u8] + e.1,
        _ => Seq::empty(),
    }
}

/// The bytes of `SetBool` at byte position `position`: a branch on the condition over a move
/// of 0 and a jump, to a move of 1; both targets are filled in as word addresses.
pub open spec fn set_bool_bytes(condition: Condition, destination: LirOperand, position: int) -> Seq<u8> {
    let clear = two_operand_bytes(Operator::Mov, WordSize::Long, LirOperand::Direct(0), destination);
    let set = two_operand_bytes(Operator::Mov, WordSize::Long, LirOperand::Direct(1), destination);
    let set_address = ((position + 16 + clear.len()) / 4) as u64;
    let end_address = ((position + 16 + clear.len() + set.len()) / 4) as u64;
    seq![head_byte(condition_operator(condition), WordSize::Byte)] + be_bytes_56(set_address)
        + clear + seq![head_byte(Operator::Jmp, WordSize::Byte)] + be_bytes_56(end_address) + set
}

/// The bytes of one instruction placed at byte position `position`; jump, call and branch
/// targets are left as zeros.
pub open spec fn instruction_bytes(instruction: LirInstruction, position: int) -> Seq<u8> {
    match instruction {
        LirInstruction::Mov { size, source, destination } => two_operand_bytes(Operator::Mov, size, source, destination),
        LirInstruction::Cmp { size, that, with } => two_operand_bytes(Operator::Cmp, size, that, with),
        LirInstruction::Add { size, left, right, destination } => three_operand_bytes(Operator::Add, size, left, right, destination),
        LirInstruction::Sub { size, left, right, destination } => three_operand_bytes(Operator::Sub, size, left, right, destination),
        LirInstruction::Mul { size, left, right, destination } => three_operand_bytes(Operator::Mul, size, left, right, destination),
        LirInstruction::Div { size, left, right, destination } => three_operand_bytes(Operator::Div, size, left, right, destination),
        LirInstruction::Rem { size, left, right, destination } => three_operand_bytes(Operator::Rem, size, left, right, destination),
        LirInstruction::Lsl { size, source, count, destination } => three_operand_bytes(Operator::Lsl, size, source, count, destination),
        LirInstruction::Lsr { size, source, count, destination } => three_operand_bytes(Operator::Lsr, size, source, count, destination),
        LirInstruction::And { size, left, right, destination } => three_operand_bytes(Operator::And, size, left, right, destination),
        LirInstruction::Or { size, left, right, destination } => three_operand_bytes(Operator::Or, size, left, right, destination),
        LirInstruction::Xor { size, left, right, destination } => three_operand_bytes(Operator::Xor, size, left, right, destination),
        LirInstruction::Not { size, source, destination } => two_operand_bytes(Operator::Not, size, source, destination),
        LirInstruction::Jmp { label } => branch_bytes(Operator::Jmp),
        LirInstruction::Branch { condition, label } => branch_bytes(condition_operator(condition)),
        LirInstruction::VAdd { left, right, destination } => three_operand_bytes(Operator::VAdd, WordSize::Long, left, right, destination),
        LirInstruction::VSub { left, right, destination } => three_operand_bytes(Operator::VSub, WordSize::Long, left, right, destination),
        LirInstruction::VMul { left, right, destination } => three_operand_bytes(Operator::VMul, WordSize::Long, left, right, destination),
        LirInstruction::VDiv { left, right, destination } => three_operand_bytes(Operator::VDiv, WordSize::Long, left, right, destination),
        LirInstruction::VRem { left, right, destination } => three_operand_bytes(Operator::VRem, WordSize::Long, left, right, destination),
        LirInstruction::VAnd { left, right, destination } => three_operand_bytes(Operator::VAnd, WordSize::Long, left, right, destination),
        LirInstruction::VOr { left, right, destination } => three_operand_bytes(Operator::VOr, WordSize::Long, left, right, destination),
        LirInstruction::VXor { left, right, destination } => three_operand_bytes(Operator::VXor, WordSize::Long, left, right, destination),
        LirInstruction::VCmpBeq { left, right, destination } => three_operand_bytes(Operator::VCmpBeq, WordSize::Long, left, right, destination),
        LirInstruction::VCmpBne { left, right, destination } => three_operand_bytes(Operator::VCmpBne, WordSize::Long, left, right, destination),
        LirInstruction::VCmpBgt { left, right, destination } => three_operand_bytes(Operator::VCmpBgt, WordSize::Long, left, right, destination),
        LirInstruction::VCmpBge { left, right, destination } => three_operand_bytes(Operator::VCmpBge, WordSize::Long, left, right, destination),
        LirInstruction::VCmpBlt { left, right, destination } => three_operand_bytes(Operator::VCmpBlt, WordSize::Long, left, right, destination),
        LirInstruction::VCmpBle { left, right, destination } => three_operand_bytes(Operator::VCmpBle, WordSize::Long, left, right, destination),
        LirInstruction::Call { label } => branch_bytes(Operator::Call),
        LirInstruction::Ret => bare_bytes(Operator::Ret),
        LirInstruction::IntRet => bare_bytes(Operator::IntRet),
        LirInstruction::In { port, destination, word_size } => io_bytes(Operator::In, port, destination, word_size),
        LirInstruction::Out { port, value, word_size } => io_bytes(Operator::Out, port, value, word_size),
        LirInstruction::Halt => bare_bytes(Operator::Hlt),
        LirInstruction::SetBool { condition, destination } => set_bool_bytes(condition, destination, position),
        LirInstruction::AllocateStackFrame => Seq::empty(),
    }
}

/// Whether every operand of an instruction can be encoded.
pub open spec fn instruction_encodable(instruction: LirInstruction) -> bool {
    match instruction {
        LirInstruction::Mov { size, source, destination } => encodable(source) && encodable(destination),
        LirInstruction::Cmp { size, that, with } => encodable(that) && encodable(with),
        LirInstruction::Add { size, left, right, destination } => encodable(left) && encodable(right) && encodable(destination),
        LirInstruction::Sub { size, left, right, destination } => encodable(left) && encodable(right) && encodable(destination),
        LirInstruction::Mul { size, left, right, destination } => encodable(left) && encodable(right) && encodable(destination),
        LirInstruction::Div { size, left, right, destination } => encodable(left) && encodable(right) && encodable(destination),
        LirInstruction::Rem { size, left, right, destination } => encodable(left) && encodable(right) && encodable(destination),
        LirInstruction::Lsl { size, source, count, destination } => encodable(source) && encodable(count) && encodable(destination),
        LirInstruction::Lsr { size, source, count, destination } => encodable(source) && encodable(count) && encodable(destination),
        LirInstruction::And { size, left, right, destination } => encodable(left) && encodable(right) && encodable(destination),
        LirInstruction::Or { size, left, right, destination } => encodable(left) && encodable(right) && encodable(destination),
        LirInstruction::Xor { size, left, right, destination } => encodable(left) && encodable(right) && encodable(destination),
        LirInstruction::Not { size, source, destination } => encodable(source) && encodable(destination),
        LirInstruction::VAdd { left, right, destination } => encodable(left) && encodable(right) && encodable(destination),
        LirInstruction::VSub { left, right, destination } => encodable(left) && encodable(right) && encodable(destination),
        LirInstruction::VMul { left, right, destination } => encodable(left) && encodable(right) && encodable(destination),
        LirInstruction::VDiv { left, right, destination } => encodable(left) && encodable(right) && encodable(destination),
        LirInstruction::VRem { left, right, destination } => encodable(left) && encodable(right) && encodable(destination),
        LirInstruction::VAnd { left, right, destination } => encodable(left) && encodable(right) && encodable(destination),
        LirInstruction::VOr { left, right, destination } => encodable(left) && encodable(right) && encodable(destination),
        LirInstruction::VXor { left, right, destination } => encodable(left) && encodable(right) && encodable(destination),
        LirInstruction::VCmpBeq { left, right, destination } => encodable(left) && encodable(right) && encodable(destination),
        LirInstruction::VCmpBne { left, right, destination } => encodable(left) && encodable(right) && encodable(destination),
        LirInstruction::VCmpBgt { left, right, destination } => encodable(left) && encodable(right) && encodable(destination),
        LirInstruction::VCmpBge { left, right, destination } => encodable(left) && encodable(right) && encodable(destination),
        LirInstruction::VCmpBlt { left, right, destination } => encodable(left) && encodable(right) && encodable(destination),
        LirInstruction::VCmpBle { left, right, destination } => encodable(left) && encodable(right) && encodable(destination),
        LirInstruction::In { port, destination, word_size } => port_encodable(port) && encodable(destination),
        LirInstruction::Out { port, value, word_size } => port_encodable(port) && encodable(value),
        LirInstruction::SetBool { condition, destination } => encodable(destination),
        LirInstruction::AllocateStackFrame => false,
        _ => true,
    }
}

/// Where the target of a jump, call or branch at byte position `position` is to be filled in,
/// and which block it names.
pub open spec fn instruction_jumps(instruction: LirInstruction, position: int) -> Seq<(usize, BlockId)> {
    match instruction {
        LirInstruction::Jmp { label } => seq![((position + 1) as usize, label)],
        LirInstruction::Branch { condition, label } => seq![((position + 1) as usize, label)],
        LirInstruction::Call { label } => seq![((position + 1) as usize, label)],
        _ => Seq::empty(),
    }
}

/// The bytes of a sequence of instructions placed from byte position `position` on.
pub open spec fn instructions_bytes(instructions: Seq<LirInstruction>, position: int) -> Seq<u8>
    decreases instructions.len(),
{
    if instructions.len() == 0 {
        Seq::empty()
    } else {
        let prefix = instructions_bytes(instructions.drop_last(), position);
        prefix + instruction_bytes(instructions.last(), position + prefix.len())
    }
}

/// The targets to fill in for a sequence of instructions placed from `position` on.
pub open spec fn instructions_jumps(instructions: Seq<LirInstruction>, position: int) -> Seq<(usize, BlockId)>
    decreases instructions.len(),
{
    if instructions.len() == 0 {
        Seq::empty()
    } else {
        let prefix = instructions_bytes(instructions.drop_last(), position);
        instructions_jumps(instructions.drop_last(), position) + instruction_jumps(
            instructions.last(),
            position + prefix.len(),
        )
    }
}

/// An operand is followed by at most four bytes.
pub proof fn lemma_operand_tail(operand: LirOperand)
    requires
        encodable(operand),
    ensures
        (operand_encoding(operand)->0).1.len() <= 4,
{
}

/// An instruction with two operands takes at most 12 bytes.
pub proof fn lemma_two_operand_size(operator: Operator, size: WordSize, first: LirOperand, second: LirOperand)
    requires
        encodable(first),
        encodable(second),
    ensures
        two_operand_bytes(operator, size, first, second).len() <= 12,
{
    lemma_operand_tail(first);
    lemma_operand_tail(second);
}

/// An instruction with three operands takes at most 16 bytes.
pub proof fn lemma_three_operand_size(
    operator: Operator,
    size: WordSize,
    first: LirOperand,
    second: LirOperand,
    third: LirOperand,
)
    requires
        encodable(first),
        encodable(second),
        encodable(third),
    ensures
        three_operand_bytes(operator, size, first, second, third).len() <= 16,
{
    lemma_operand_tail(first);
    lemma_operand_tail(second);
    lemma_operand_tail(third);
}

/// No instruction takes more than 40 bytes.
pub proof fn lemma_instruction_size(instruction: LirInstruction, position: int)
    requires
        instruction_encodable(instruction),
    ensures
        instruction_bytes(instruction, position).len() <= 40,
{
    match instruction {
        LirInstruction::Mov { size, source, destination } => lemma_two_operand_size(Operator::Mov, size, source, destination),
        LirInstruction::Cmp { size, that, with } => lemma_two_operand_size(Operator::Cmp, size, that, with),
        LirInstruction::Add { size, left, right, destination } => lemma_three_operand_size(Operator::Add, size, left, right, destination),
        LirInstruction::Sub { size, left, right, destination } => lemma_three_operand_size(Operator::Sub, size, left, right, destination),
        LirInstruction::Mul { size, left, right, destination } => lemma_three_operand_size(Operator::Mul, size, left, right, destination),
        LirInstruction::Div { size, left, right, destination } => lemma_three_operand_size(Operator::Div, size, left, right, destination),
        LirInstruction::Rem { size, left, right, destination } => lemma_three_operand_size(Operator::Rem, size, left, right, destination),
        LirInstruction::Lsl { size, source, count, destination } => lemma_three_operand_size(Operator::Lsl, size, source, count, destination),
        LirInstruction::Lsr { size, source, count, destination } => lemma_three_operand_size(Operator::Lsr, size, source, count, destination),
        LirInstruction::And { size, left, right, destination } => lemma_three_operand_size(Operator::And, size, left, right, destination),
        LirInstruction::Or { size, left, right, destination } => lemma_three_operand_size(Operator::Or, size, left, right, destination),
        LirInstruction::Xor { size, left, right, destination } => lemma_three_operand_size(Operator::Xor, size, left, right, destination),
        LirInstruction::Not { size, source, destination } => lemma_two_operand_size(Operator::Not, size, source, destination),
        LirInstruction::VAdd { left, right, destination } => lemma_three_operand_size(Operator::VAdd, WordSize::Long, left, right, destination),
        LirInstruction::VSub { left, right, destination } => lemma_three_operand_size(Operator::VSub, WordSize::Long, left, right, destination),
        LirInstruction::VMul { left, right, destination } => lemma_three_operand_size(Operator::VMul, WordSize::Long, left, right, destination),
        LirInstruction::VDiv { left, right, destination } => lemma_three_operand_size(Operator::VDiv, WordSize::Long, left, right, destination),
        LirInstruction::VRem { left, right, destination } => lemma_three_operand_size(Operator::VRem, WordSize::Long, left, right, destination),
        LirInstruction::VAnd { left, right, destination } => lemma_three_operand_size(Operator::VAnd, WordSize::Long, left, right, destination),
        LirInstruction::VOr { left, right, destination } => lemma_three_operand_size(Operator::VOr, WordSize::Long, left, right, destination),
        LirInstruction::VXor { left, right, destination } => lemma_three_operand_size(Operator::VXor, WordSize::Long, left, right, destination),
        LirInstruction::VCmpBeq { left, right, destination } => lemma_three_operand_size(Operator::VCmpBeq, WordSize::Long, left, right, destination),
        LirInstruction::VCmpBne { left, right, destination } => lemma_three_operand_size(Operator::VCmpBne, WordSize::Long, left, right, destination),
        LirInstruction::VCmpBgt { left, right, destination } => lemma_three_operand_size(Operator::VCmpBgt, WordSize::Long, left, right, destination),
        LirInstruction::VCmpBge { left, right, destination } => lemma_three_operand_size(Operator::VCmpBge, WordSize::Long, left, right, destination),
        LirInstruction::VCmpBlt { left, right, destination } => lemma_three_operand_size(Operator::VCmpBlt, WordSize::Long, left, right, destination),
        LirInstruction::VCmpBle { left, right, destination } => lemma_three_operand_size(Operator::VCmpBle, WordSize::Long, left, right, destination),
        LirInstruction::In { port, destination, word_size } => lemma_operand_tail(destination),
        LirInstruction::Out { port, value, word_size } => lemma_operand_tail(value),
        LirInstruction::SetBool { condition, destination } => {
            lemma_two_operand_size(Operator::Mov, WordSize::Long, LirOperand::Direct(0), destination);
            lemma_two_operand_size(Operator::Mov, WordSize::Long, LirOperand::Direct(1), destination);
        },
        _ => {},
    }
}

/// A sequence of `n` encodable instructions takes at most `40 * n` bytes.
pub proof fn lemma_instructions_size(instructions: Seq<LirInstruction>, position: int)
    requires
        forall|i: int| 0 <= i < instructions.len() ==> instruction_encodable(#[trigger] instructions[i]),
    ensures
        instructions_bytes(instructions, position).len() <= 40 * instructions.len(),
    decreases instructions.len(),
{
    if instructions.len() > 0 {
        let rest = instructions.drop_last();
        assert forall|i: int| 0 <= i < rest.len() implies instruction_encodable(#[trigger] rest[i]) by {
            assert(rest[i] == instructions[i]);
        }
        lemma_instructions_size(rest, position);
        lemma_instruction_size(
            instructions.last(),
            position + instructions_bytes(rest, position).len(),
        );
    }
}

/// The code of a sequence of blocks laid out one after another from address 0; jump, call
/// and branch targets are left as zeros.
pub open spec fn text_bytes(blocks: Seq<LirBlock>) -> Seq<u8>
    decreases blocks.len(),
{
    if blocks.len() == 0 {
        Seq::empty()
    } else {
        let prefix = text_bytes(blocks.drop_last());
        prefix + instructions_bytes(blocks.last().instructions@, prefix.len() as int)
    }
}

/// Where the targets of a sequence of blocks are to be filled in, and which blocks they name.
pub open spec fn text_jumps(blocks: Seq<LirBlock>) -> Seq<(usize, BlockId)>
    decreases blocks.len(),
{
    if blocks.len() == 0 {
        Seq::empty()
    } else {
        let prefix = text_bytes(blocks.drop_last());
        text_jumps(blocks.drop_last()) + instructions_jumps(
            blocks.last().instructions@,
            prefix.len() as int,
        )
    }
}

/// The byte address at which each block starts; a block number that occurs twice names the
/// later block.
pub open spec fn block_starts(blocks: Seq<LirBlock>) -> Map<BlockId, u64>
    decreases blocks.len(),
{
    if blocks.len() == 0 {
        Map::empty()
    } else {
        block_starts(blocks.drop_last()).insert(
            blocks.last().id,
            text_bytes(blocks.drop_last()).len() as u64,
        )
    }
}

/// The number of instructions in a sequence of blocks.
pub open spec fn instruction_count(blocks: Seq<LirBlock>) -> nat
    decreases blocks.len(),
{
    if blocks.len() == 0 {
        0
    } else {
        instruction_count(blocks.drop_last()) + blocks.last().instructions@.len()
    }
}

/// Whether every instruction of every block can be encoded.
pub open spec fn text_encodable(blocks: Seq<LirBlock>) -> bool {
    forall|b: int, i: int|
        0 <= b < blocks.len() && 0 <= i < blocks[b].instructions@.len() ==> instruction_encodable(
            #[trigger] blocks[b].instructions@[i],
        )
}

/// Whether every target of a jump list lies inside `low..high` with room for seven bytes.
pub open spec fn jumps_within(jumps: Seq<(usize, BlockId)>, low: int, high: int) -> bool {
    forall|k: int| 0 <= k < jumps.len() ==> low <= #[trigger] jumps[k].0 && jumps[k].0 + 7 <= high
}

/// The code with each recorded target filled in, in order, with the word address of the
/// block it names.
pub open spec fn patched(bytes: Seq<u8>, jumps: Seq<(usize, BlockId)>, starts: Map<BlockId, u64>) -> Seq<u8>
    decreases jumps.len(),
{
    if jumps.len() == 0 {
        bytes
    } else {
        let before = patched(bytes, jumps.drop_last(), starts);
        let (offset, block) = jumps.last();
        before.take(offset as int) + be_bytes_56(starts[block] / 4) + before.skip(offset + 7)
    }
}

/// The 32-bit words of a byte sequence, four bytes each, most significant first; bytes past
/// the last whole word are left out.
pub open spec fn words_of(bytes: Seq<u8>) -> Seq<u32> {
    Seq::new(
        bytes.len() / 4,
        |i: int| be_word(bytes[4 * i], bytes[4 * i + 1], bytes[4 * i + 2], bytes[4 * i + 3]),
    )
}

/// The jumps of one instruction lie inside its bytes.
pub proof fn lemma_instruction_jumps_within(instruction: LirInstruction, position: int)
    requires
        0 <= position,
        position + 64 < usize::MAX,
    ensures
        jumps_within(
            instruction_jumps(instruction, position),
            position,
            position + instruction_bytes(instruction, position).len(),
        ),
{
}

/// The jumps of a sequence of instructions lie inside its bytes.
pub proof fn lemma_instructions_jumps_within(instructions: Seq<LirInstruction>, position: int)
    requires
        0 <= position,
        position + instructions_bytes(instructions, position).len() + 64 < usize::MAX,
    ensures
        jumps_within(
            instructions_jumps(instructions, position),
            position,
            position + instructions_bytes(instructions, position).len(),
        ),
    decreases instructions.len(),
{
    if instructions.len() > 0 {
        let rest = instructions.drop_last();
        let prefix = instructions_bytes(rest, position);
        lemma_instructions_jumps_within(rest, position);
        lemma_instruction_jumps_within(instructions.last(), position + prefix.len());
        let all = instructions_jumps(instructions, position);
        let first = instructions_jumps(rest, position);
        let second = instruction_jumps(instructions.last(), position + prefix.len());
        assert forall|k: int| 0 <= k < all.len() implies position <= #[trigger] all[k].0
            && all[k].0 + 7 <= position + instructions_bytes(instructions, position).len() by {
            if k < first.len() {
                assert(all[k] == first[k]);
            } else {
                assert(all[k] == second[k - first.len()]);
            }
        }
    }
}

/// The jumps of a sequence of blocks lie inside its code.
pub proof fn lemma_text_jumps_within(blocks: Seq<LirBlock>)
    requires
        text_bytes(blocks).len() + 64 < usize::MAX,
    ensures
        jumps_within(text_jumps(blocks), 0, text_bytes(blocks).len() as int),
    decreases blocks.len(),
{
    if blocks.len() > 0 {
        let rest = blocks.drop_last();
        let prefix = text_bytes(rest);
        lemma_text_jumps_within(rest);
        lemma_instructions_jumps_within(blocks.last().instructions@, prefix.len() as int);
        let all = text_jumps(blocks);
        let first = text_jumps(rest);
        let second = instructions_jumps(blocks.last().instructions@, prefix.len() as int);
        assert forall|k: int| 0 <= k < all.len() implies 0 <= #[trigger] all[k].0 && all[k].0 + 7
            <= text_bytes(blocks).len() by {
            if k < first.len() {
                assert(all[k] == first[k]);
            } else {
                assert(all[k] == second[k - first.len()]);
            }
        }
    }
}

/// The code of a sequence of blocks takes at most 40 bytes per instruction.
pub proof fn lemma_text_size(blocks: Seq<LirBlock>)
    requires
        text_encodable(blocks),
    ensures
        text_bytes(blocks).len() <= 40 * instruction_count(blocks),
    decreases blocks.len(),
{
    if blocks.len() > 0 {
        let rest = blocks.drop_last();
        assert forall|b: int, i: int|
            0 <= b < rest.len() && 0 <= i < rest[b].instructions@.len() implies instruction_encodable(
            #[trigger] rest[b].instructions@[i],
        ) by {
            assert(rest[b] == blocks[b]);
        }
        lemma_text_size(rest);
        let last = blocks.last();
        assert forall|i: int| 0 <= i < last.instructions@.len() implies instruction_encodable(
            #[trigger] last.instructions@[i],
        ) by {
            assert(blocks[blocks.len() - 1] == last);
        }
        lemma_instructions_size(last.instructions@, text_bytes(rest).len() as int);
    }
}

/// A prefix of the blocks holds no more instructions than all of them.
pub proof fn lemma_count_prefix(blocks: Seq<LirBlock>, n: int)
    requires
        0 <= n <= blocks.len(),
    ensures
        instruction_count(blocks.take(n)) <= instruction_count(blocks),
    decreases blocks.len(),
{
    if n < blocks.len() {
        assert(blocks.take(n) =~= blocks.drop_last().take(n));
        lemma_count_prefix(blocks.drop_last(), n);
    } else {
        assert(blocks.take(n) =~= blocks);
    }
}

/// Whether every register that an operand names is one of the eight of its file.
pub open spec fn registers_in_range(operand: LirOperand) -> bool {
    match operand {
        LirOperand::Register(register, _) => register < 8,
        LirOperand::Indirect(inner) => match *inner {
            LirOperand::Register(register, _) => register < 8,
            _ => true,
        },
        LirOperand::IndirectPostIncrement(inner) => match *inner {
            LirOperand::Register(register, _) => register < 8,
            _ => true,
        },
        LirOperand::IndirectPreDecrement(inner) => match *inner {
            LirOperand::Register(register, _) => register < 8,
            _ => true,
        },
        LirOperand::IndirectOffset { base, offset } => match *base {
            LirOperand::Register(register, _) => register < 8,
            _ => true,
        },
        _ => true,
    }
}

/// The operand that the disassembler reads back for an encoded operand.
pub open spec fn decoded_form(operand: LirOperand) -> DecodedOperand {
    match operand {
        LirOperand::Direct(value) => DecodedOperand::Immediate(value as u32),
        LirOperand::Register(register, RegisterType::Data) => DecodedOperand::DataRegister(register),
        LirOperand::Register(register, RegisterType::Address) => DecodedOperand::AddressRegister(
            register,
        ),
        LirOperand::Indirect(inner) => DecodedOperand::Indirect(inner->Register_0),
        LirOperand::IndirectPostIncrement(inner) => DecodedOperand::IndirectPostIncrement(
            inner->Register_0,
        ),
        LirOperand::IndirectPreDecrement(inner) => DecodedOperand::IndirectPreDecrement(
            inner->Register_0,
        ),
        LirOperand::IndirectOffset { base, offset } => match *offset {
            LirOperand::Direct(value) => DecodedOperand::IndirectOffsetImmediate(
                base->Register_0,
                value as u32,
            ),
            _ => DecodedOperand::IndirectOffsetRegister(base->Register_0, offset->Register_0),
        },
        LirOperand::IndirectDirect(address) => DecodedOperand::IndirectDirect(address as u32),
        LirOperand::VirtualRegister(_, _) => DecodedOperand::Immediate(0),
    }
}

/// Four bytes written most significant first read back as the same word.
pub proof fn lemma_be_word_round_trip(value: u32)
    ensures
        ({
            let bytes = be_bytes_32(value);
            be_word(bytes[0], bytes[1], bytes[2], bytes[3]) == value
        }),
{
    let bytes = be_bytes_32(value);
    let b0 = bytes[0];
    let b1 = bytes[1];
    let b2 = bytes[2];
    let b3 = bytes[3];
    assert(((((b0 as u32) << 24u32) | ((b1 as u32) << 16u32) | ((b2 as u32) << 8u32) | (b3 as u32))
        as u32) == value) by (bit_vector)
        requires
            b0 == (value >> 24u32) as u8,
            b1 == (value >> 16u32) as u8,
            b2 == (value >> 8u32) as u8,
            b3 == value as u8,
    ;
}

/// The disassembler reads back what the assembler wrote: an encoded operand, with the word
/// that follows it (if any) placed after the words read so far, decodes to the same operand,
/// and exactly its following words are consumed.
pub proof fn lemma_operand_round_trip(operand: LirOperand, program: Seq<u32>, last: int)
    requires
        encodable(operand),
        registers_in_range(operand),
        (operand_encoding(operand)->0).1.len() == 4 ==> ({
            let tail = (operand_encoding(operand)->0).1;
            word_at(program, last + 1) == be_word(tail[0], tail[1], tail[2], tail[3])
        }),
    ensures
        decode_operand_at((operand_encoding(operand)->0).0, program, last) == (
            decoded_form(operand),
            last + (operand_encoding(operand)->0).1.len() / 4,
        ),
{
    match operand {
        LirOperand::Direct(value) => {
            lemma_operand_byte_decodes(Mode::Direct, 0, 0);
            lemma_be_word_round_trip(value as u32);
        },
        LirOperand::Register(register, RegisterType::Data) => {
            lemma_operand_byte_decodes(Mode::DataRegister, register, 0);
        },
        LirOperand::Register(register, RegisterType::Address) => {
            lemma_operand_byte_decodes(Mode::AddressRegister, register, 0);
        },
        LirOperand::Indirect(inner) => {
            lemma_operand_byte_decodes(Mode::Indirect, inner->Register_0, 0);
        },
        LirOperand::IndirectPostIncrement(inner) => {
            lemma_operand_byte_decodes(Mode::IndirectPostIncrement, inner->Register_0, 0);
        },
        LirOperand::IndirectPreDecrement(inner) => {
            lemma_operand_byte_decodes(Mode::IndirectPreDecrement, inner->Register_0, 0);
        },
        LirOperand::IndirectOffset { base, offset } => {
            match *offset {
                LirOperand::Direct(value) => {
                    lemma_operand_byte_decodes(Mode::IndirectOffset, base->Register_0, 0);
                    lemma_be_word_round_trip(value as u32);
                },
                _ => {
                    let index = offset->Register_0;
                    lemma_operand_byte_decodes(Mode::IndirectOffset, base->Register_0, (index - 4) as u8);
                },
            }
        },
        LirOperand::IndirectDirect(address) => {
            lemma_operand_byte_decodes(Mode::IndirectDirect, 0, 0);
            lemma_be_word_round_trip(address as u32);
        },
        LirOperand::VirtualRegister(_, _) => {},
    }
}

/// Turns low-level instructions into machine code, remembering where each block starts and
/// where jump targets are still to be filled in.
pub struct AsmTranslator {
    pub data: Vec<u8>,
    pub block_address: std::collections::HashMap<BlockId, Address>,
    pub jumps: Vec<(usize, BlockId)>,
}

impl AsmTranslator {
    fn operator_code(operator: Operator) -> (code: u8)
        ensures
            code == operator_code(operator),
    {
        match operator {
        Operator::Hlt => 0x00,
        Operator::Mov => 0x01,
        Operator::Mova => 0x02,
        Operator::Cmp => 0x03,
        Operator::Add => 0x10,
        Operator::Adc => 0x11,
        Operator::Sub => 0x12,
        Operator::Mul => 0x13,
        Operator::Div => 0x14,
        Operator::Rem => 0x15,
        Operator::And => 0x16,
        Operator::Or => 0x17,
        Operator::Xor => 0x18,
        Operator::Not => 0x19,
        Operator::Lsl => 0x1A,
        Operator::Lsr => 0x1B,
        Operator::Asl => 0x1C,
        Operator::Asr => 0x1D,
        Operator::Jmp => 0x20,
        Operator::Call => 0x21,
        Operator::Ret => 0x22,
        Operator::IntRet => 0x23,
        Operator::Beq => 0x30,
        Operator::Bne => 0x31,
        Operator::Bgt => 0x32,
        Operator::Bge => 0x33,
        Operator::Blt => 0x34,
        Operator::Ble => 0x35,
        Operator::Bcs => 0x36,
        Operator::Bcc => 0x37,
        Operator::Bvs => 0x38,
        Operator::Bvc => 0x39,
        Operator::VAdd => 0x40,
        Operator::VSub => 0x42,
        Operator::VMul => 0x43,
        Operator::VDiv => 0x44,
        Operator::VRem => 0x45,
        Operator::VAnd => 0x46,
        Operator::VOr => 0x47,
        Operator::VXor => 0x48,
        Operator::In => 0x50,
        Operator::Out => 0x51,
        Operator::EI => 0x52,
        Operator::DI => 0x53,
        Operator::VCmpBeq => 0x60,
        Operator::VCmpBne => 0x61,
        Operator::VCmpBgt => 0x62,
        Operator::VCmpBge => 0x63,
        Operator::VCmpBlt => 0x64,
        Operator::VCmpBle => 0x65,
        Operator::VCmpBcs => 0x66,
        Operator::VCmpBcc => 0x67,
        Operator::VCmpBvs => 0x68,
        Operator::VCmpBvc => 0x69,
        }
    }

    fn mode_code(mode: Mode) -> (code: u8)
        ensures
            code == mode_code(mode),
    {
        match mode {
            Mode::Direct => 0,
            Mode::DataRegister => 1,
            Mode::AddressRegister => 2,
            Mode::Indirect => 3,
            Mode::IndirectPostIncrement => 4,
            Mode::IndirectPreDecrement => 5,
            Mode::IndirectOffset => 6,
            Mode::IndirectDirect => 7,
        }
    }

    fn head_byte(operator: Operator, size: WordSize) -> (byte: u8)
        ensures
            byte == head_byte(operator, size),
    {
        let size_code: u8 = match size {
            WordSize::Byte => 0,
            WordSize::Long => 1,
        };
        (Self::operator_code(operator) << 1) | size_code
    }

    fn operand_byte(mode: Mode, register: u8, offset: u8) -> (byte: u8)
        ensures
            byte == operand_byte(mode, register, offset),
    {
        (Self::mode_code(mode) << 5) | (register << 2) | offset
    }

    fn be_bytes_32(value: u32) -> (bytes: Vec<u8>)
        ensures
            bytes@ == be_bytes_32(value),
    {
        let bytes = vec![(value >> 24) as u8, (value >> 16) as u8, (value >> 8) as u8, value as u8];
        assert(bytes@ =~= be_bytes_32(value));
        bytes
    }

    fn condition_to_operator(condition: Condition) -> (operator: Operator)
        ensures
            operator == condition_operator(condition),
    {
        match condition {
            Condition::Equal => Operator::Beq,
            Condition::NotEqual => Operator::Bne,
            Condition::Greater => Operator::Bgt,
            Condition::GreaterEqual => Operator::Bge,
            Condition::Lower => Operator::Blt,
            Condition::LowerEqual => Operator::Ble,
            Condition::CarrySet => Operator::Bcs,
            Condition::CarryClear => Operator::Bcc,
            Condition::OverflowSet => Operator::Bvs,
            Condition::OverflowClear => Operator::Bvc,
        }
    }

    fn translate_2_operand_instruction(
        &mut self,
        operator: Operator,
        size: WordSize,
        first: &LirOperand,
        second: &LirOperand,
    )
        requires
            encodable(*first),
            encodable(*second),
        ensures
            final(self).data@ == old(self).data@ + two_operand_bytes(operator, size, *first, *second),
            final(self).jumps@ == old(self).jumps@,
            final(self).block_address@ == old(self).block_address@,
    {
        let head = Self::head_byte(operator, size);
        let (first_code, mut first_tail) = self.translate_operand(first);
        let (second_code, mut second_tail) = self.translate_operand(second);
        let ghost start = self.data@;
        self.data.push(head);
        self.data.push(first_code);
        self.data.push(second_code);
        self.data.push(0);
        self.data.append(&mut first_tail);
        self.data.append(&mut second_tail);
        assert(self.data@ =~= start + two_operand_bytes(operator, size, *first, *second));
    }

    fn translate_3_operand_instruction(
        &mut self,
        operator: Operator,
        size: WordSize,
        first: &LirOperand,
        second: &LirOperand,
        third: &LirOperand,
    )
        requires
            encodable(*first),
            encodable(*second),
            encodable(*third),
        ensures
            final(self).data@ == old(self).data@ + three_operand_bytes(
                operator,
                size,
                *first,
                *second,
                *third,
            ),
            final(self).jumps@ == old(self).jumps@,
            final(self).block_address@ == old(self).block_address@,
    {
        let head = Self::head_byte(operator, size);
        let (first_code, mut first_tail) = self.translate_operand(first);
        let (second_code, mut second_tail) = self.translate_operand(second);
        let (third_code, mut third_tail) = self.translate_operand(third);
        let ghost start = self.data@;
        self.data.push(head);
        self.data.push(first_code);
        self.data.push(second_code);
        self.data.push(third_code);
        self.data.append(&mut first_tail);
        self.data.append(&mut second_tail);
        self.data.append(&mut third_tail);
        assert(self.data@ =~= start + three_operand_bytes(operator, size, *first, *second, *third));
    }

    /// Emits a jump, call or branch and records where its target is to be filled in.
    fn translate_branch(&mut self, operator: Operator, label: BlockId)
        ensures
            final(self).data@ == old(self).data@ + branch_bytes(operator),
            final(self).jumps@ == old(self).jumps@.push(((old(self).data@.len() + 1) as usize, label)),
            final(self).block_address@ == old(self).block_address@,
    {
        let ghost start = self.data@;
        self.data.push(Self::head_byte(operator, WordSize::Byte));
        let patch_offset = self.data.len();
        self.jumps.push((patch_offset, label));
        let mut k: usize = 0;
        while k < 7
            invariant
                k <= 7,
                self.jumps@ == old(self).jumps@.push(((old(self).data@.len() + 1) as usize, label)),
                self.block_address@ == old(self).block_address@,
                self.data@ == start + seq![head_byte(operator, WordSize::Byte)] + Seq::new(
                    k as nat,
                    |i: int| 0u8,
                ),
            decreases 7 - k,
        {
            self.data.push(0);
            k = k + 1;
            assert(self.data@ =~= start + seq![head_byte(operator, WordSize::Byte)] + Seq::new(
                k as nat,
                |i: int| 0u8,
            ));
        }
        assert(self.data@ =~= start + branch_bytes(operator));
    }

    /// Emits an instruction without operands.
    fn translate_bare(&mut self, operator: Operator)
        ensures
            final(self).data@ == old(self).data@ + bare_bytes(operator),
            final(self).jumps@ == old(self).jumps@,
            final(self).block_address@ == old(self).block_address@,
    {
        let ghost start = self.data@;
        self.data.push(Self::head_byte(operator, WordSize::Byte));
        self.data.push(0);
        self.data.push(0);
        self.data.push(0);
        assert(self.data@ =~= start + bare_bytes(operator));
    }

    /// Emits an input or output instruction; the port must be an immediate byte.
    fn translate_io(
        &mut self,
        operator: Operator,
        port: &LirOperand,
        operand: &LirOperand,
        word_size: WordSize,
    )
        requires
            port_encodable(*port),
            encodable(*operand),
        ensures
            final(self).data@ == old(self).data@ + io_bytes(operator, *port, *operand, word_size),
            final(self).jumps@ == old(self).jumps@,
            final(self).block_address@ == old(self).block_address@,
    {
        let head = Self::head_byte(operator, word_size);
        match port {
            LirOperand::Direct(number) => {
                let port_code = *number as u8;
                let (value_code, mut value_tail) = self.translate_operand(operand);
                let ghost start = self.data@;
                self.data.push(head);
                self.data.push(port_code);
                self.data.push(value_code);
                self.data.push(0);
                self.data.append(&mut value_tail);
                assert(self.data@ =~= start + io_bytes(operator, *port, *operand, word_size));
            },
            _ => {
                assert(false);
            },
        }
    }

    /// Overwrites the seven bytes from `offset` with the low seven bytes of `value`.
    fn write_be_56(&mut self, offset: usize, value: u64)
        requires
            offset + 7 <= old(self).data@.len(),
        ensures
            final(self).data@ == old(self).data@.take(offset as int) + be_bytes_56(value) + old(
                self,
            ).data@.skip(offset + 7),
            final(self).jumps@ == old(self).jumps@,
            final(self).block_address@ == old(self).block_address@,
    {
        let length = self.data.len();
        assert(offset + 7 <= length);
        self.data.set(offset, (value >> 48) as u8);
        self.data.set(offset + 1, (value >> 40) as u8);
        self.data.set(offset + 2, (value >> 32) as u8);
        self.data.set(offset + 3, (value >> 24) as u8);
        self.data.set(offset + 4, (value >> 16) as u8);
        self.data.set(offset + 5, (value >> 8) as u8);
        self.data.set(offset + 6, value as u8);
        assert(self.data@ =~= old(self).data@.take(offset as int) + be_bytes_56(value) + old(
            self,
        ).data@.skip(offset + 7));
    }

    /// Emits `SetBool`: a branch on the condition to a move of 1, over a move of 0 and a jump
    /// past it.
    fn translate_set_bool(&mut self, condition: Condition, destination: &LirOperand)
        requires
            encodable(*destination),
            old(self).data@.len() + 64 < usize::MAX,
        ensures
            final(self).data@ == old(self).data@ + set_bool_bytes(
                condition,
                *destination,
                old(self).data@.len() as int,
            ),
            final(self).jumps@ == old(self).jumps@,
            final(self).block_address@ == old(self).block_address@,
    {
        let ghost start = self.data@;
        let ghost p = start.len() as int;
        let ghost clear = two_operand_bytes(Operator::Mov, WordSize::Long, LirOperand::Direct(0), *destination);
        let ghost set = two_operand_bytes(Operator::Mov, WordSize::Long, LirOperand::Direct(1), *destination);
        let operator = Self::condition_to_operator(condition);
        self.data.push(Self::head_byte(operator, WordSize::Byte));
        let true_address = self.data.len();
        let mut k: usize = 0;
        while k < 7
            invariant
                k <= 7,
                true_address == p + 1,
                self.jumps@ == old(self).jumps@,
                self.block_address@ == old(self).block_address@,
                self.data@ == start + seq![head_byte(operator, WordSize::Byte)] + Seq::new(
                    k as nat,
                    |i: int| 0u8,
                ),
            decreases 7 - k,
        {
            self.data.push(0);
            k = k + 1;
            assert(self.data@ =~= start + seq![head_byte(operator, WordSize::Byte)] + Seq::new(
                k as nat,
                |i: int| 0u8,
            ));
        }
        let zero = LirOperand::Direct(0);
        self.translate_2_operand_instruction(Operator::Mov, WordSize::Long, &zero, destination);
        self.data.push(Self::head_byte(Operator::Jmp, WordSize::Byte));
        let jump_address = self.data.len();
        let mut k: usize = 0;
        while k < 7
            invariant
                k <= 7,
                jump_address == p + 9 + clear.len(),
                self.jumps@ == old(self).jumps@,
                self.block_address@ == old(self).block_address@,
                self.data@ == start + seq![head_byte(operator, WordSize::Byte)] + Seq::new(
                    7,
                    |i: int| 0u8,
                ) + clear + seq![head_byte(Operator::Jmp, WordSize::Byte)] + Seq::new(
                    k as nat,
                    |i: int| 0u8,
                ),
            decreases 7 - k,
        {
            self.data.push(0);
            k = k + 1;
            assert(self.data@ =~= start + seq![head_byte(operator, WordSize::Byte)] + Seq::new(
                7,
                |i: int| 0u8,
            ) + clear + seq![head_byte(Operator::Jmp, WordSize::Byte)] + Seq::new(
                k as nat,
                |i: int| 0u8,
            ));
        }
        let set_address = self.data.len() as u64 / 4;
        self.write_be_56(true_address, set_address);
        let one = LirOperand::Direct(1);
        self.translate_2_operand_instruction(Operator::Mov, WordSize::Long, &one, destination);
        let end_address = self.data.len() as u64 / 4;
        self.write_be_56(jump_address, end_address);
        assert(self.data@ =~= start + set_bool_bytes(condition, *destination, p));
    }

    /// Appends the code of one instruction at the current end.
    fn add_instruction(&mut self, instruction: &LirInstruction)
        requires
            instruction_encodable(*instruction),
            old(self).data@.len() + 64 < usize::MAX,
        ensures
            final(self).data@ == old(self).data@ + instruction_bytes(
                *instruction,
                old(self).data@.len() as int,
            ),
            final(self).jumps@ == old(self).jumps@ + instruction_jumps(
                *instruction,
                old(self).data@.len() as int,
            ),
            final(self).block_address@ == old(self).block_address@,
    {
        let ghost jumps_before = self.jumps@;
        match instruction {
            LirInstruction::Mov { size, source, destination } => {
                self.translate_2_operand_instruction(Operator::Mov, *size, source, destination);
            },
            LirInstruction::Cmp { size, that, with } => {
                self.translate_2_operand_instruction(Operator::Cmp, *size, that, with);
            },
            LirInstruction::Add { size, left, right, destination } => {
                self.translate_3_operand_instruction(Operator::Add, *size, left, right, destination);
            },
            LirInstruction::Sub { size, left, right, destination } => {
                self.translate_3_operand_instruction(Operator::Sub, *size, left, right, destination);
            },
            LirInstruction::Mul { size, left, right, destination } => {
                self.translate_3_operand_instruction(Operator::Mul, *size, left, right, destination);
            },
            LirInstruction::Div { size, left, right, destination } => {
                self.translate_3_operand_instruction(Operator::Div, *size, left, right, destination);
            },
            LirInstruction::Rem { size, left, right, destination } => {
                self.translate_3_operand_instruction(Operator::Rem, *size, left, right, destination);
            },
            LirInstruction::Lsl { size, source, count, destination } => {
                self.translate_3_operand_instruction(Operator::Lsl, *size, source, count, destination);
            },
            LirInstruction::Lsr { size, source, count, destination } => {
                self.translate_3_operand_instruction(Operator::Lsr, *size, source, count, destination);
            },
            LirInstruction::And { size, left, right, destination } => {
                self.translate_3_operand_instruction(Operator::And, *size, left, right, destination);
            },
            LirInstruction::Or { size, left, right, destination } => {
                self.translate_3_operand_instruction(Operator::Or, *size, left, right, destination);
            },
            LirInstruction::Xor { size, left, right, destination } => {
                self.translate_3_operand_instruction(Operator::Xor, *size, left, right, destination);
            },
            LirInstruction::Not { size, source, destination } => {
                self.translate_2_operand_instruction(Operator::Not, *size, source, destination);
            },
            LirInstruction::Jmp { label } => {
                self.translate_branch(Operator::Jmp, *label);
            },
            LirInstruction::Branch { condition, label } => {
                let operator = Self::condition_to_operator(*condition);
                self.translate_branch(operator, *label);
            },
            LirInstruction::VAdd { left, right, destination } => {
                self.translate_3_operand_instruction(Operator::VAdd, WordSize::Long, left, right, destination);
            },
            LirInstruction::VSub { left, right, destination } => {
                self.translate_3_operand_instruction(Operator::VSub, WordSize::Long, left, right, destination);
            },
            LirInstruction::VMul { left, right, destination } => {
                self.translate_3_operand_instruction(Operator::VMul, WordSize::Long, left, right, destination);
            },
            LirInstruction::VDiv { left, right, destination } => {
                self.translate_3_operand_instruction(Operator::VDiv, WordSize::Long, left, right, destination);
            },
            LirInstruction::VRem { left, right, destination } => {
                self.translate_3_operand_instruction(Operator::VRem, WordSize::Long, left, right, destination);
            },
            LirInstruction::VAnd { left, right, destination } => {
                self.translate_3_operand_instruction(Operator::VAnd, WordSize::Long, left, right, destination);
            },
            LirInstruction::VOr { left, right, destination } => {
                self.translate_3_operand_instruction(Operator::VOr, WordSize::Long, left, right, destination);
            },
            LirInstruction::VXor { left, right, destination } => {
                self.translate_3_operand_instruction(Operator::VXor, WordSize::Long, left, right, destination);
            },
            LirInstruction::VCmpBeq { left, right, destination } => {
                self.translate_3_operand_instruction(Operator::VCmpBeq, WordSize::Long, left, right, destination);
            },
            LirInstruction::VCmpBne { left, right, destination } => {
                self.translate_3_operand_instruction(Operator::VCmpBne, WordSize::Long, left, right, destination);
            },
            LirInstruction::VCmpBgt { left, right, destination } => {
                self.translate_3_operand_instruction(Operator::VCmpBgt, WordSize::Long, left, right, destination);
            },
            LirInstruction::VCmpBge { left, right, destination } => {
                self.translate_3_operand_instruction(Operator::VCmpBge, WordSize::Long, left, right, destination);
            },
            LirInstruction::VCmpBlt { left, right, destination } => {
                self.translate_3_operand_instruction(Operator::VCmpBlt, WordSize::Long, left, right, destination);
            },
            LirInstruction::VCmpBle { left, right, destination } => {
                self.translate_3_operand_instruction(Operator::VCmpBle, WordSize::Long, left, right, destination);
            },
            LirInstruction::Call { label } => {
                self.translate_branch(Operator::Call, *label);
            },
            LirInstruction::Ret => {
                self.translate_bare(Operator::Ret);
            },
            LirInstruction::IntRet => {
                self.translate_bare(Operator::IntRet);
            },
            LirInstruction::SetBool { condition, destination } => {
                self.translate_set_bool(*condition, destination);
            },
            LirInstruction::In { port, destination, word_size } => {
                self.translate_io(Operator::In, port, destination, *word_size);
            },
            LirInstruction::Out { port, value, word_size } => {
                self.translate_io(Operator::Out, port, value, *word_size);
            },
            LirInstruction::Halt => {
                self.translate_bare(Operator::Hlt);
            },
            LirInstruction::AllocateStackFrame => {
                assert(false);
            },
        }
        assert(self.jumps@ =~= jumps_before + instruction_jumps(*instruction, old(self).data@.len() as int));
    }

    /// Appends the code of a block at the current end and records where the block starts.
    fn add_block(&mut self, block: LirBlock)
        requires
            forall|i: int|
                0 <= i < block.instructions@.len() ==> instruction_encodable(
                    #[trigger] block.instructions@[i],
                ),
            old(self).data@.len() + 40 * block.instructions@.len() + 64 < usize::MAX,
        ensures
            final(self).data@ == old(self).data@ + instructions_bytes(
                block.instructions@,
                old(self).data@.len() as int,
            ),
            final(self).jumps@ == old(self).jumps@ + instructions_jumps(
                block.instructions@,
                old(self).data@.len() as int,
            ),
            final(self).block_address@ == old(self).block_address@.insert(
                block.id,
                old(self).data@.len() as u64,
            ),
    {
        let start = self.data.len();
        self.block_address.insert(block.id, start as Address);
        let ghost p = start as int;
        let instructions = &block.instructions;
        let n = instructions.len();
        let mut i: usize = 0;
        while i < n
            invariant
                n == instructions@.len(),
                i <= n,
                p == old(self).data@.len(),
                instructions == &block.instructions,
                forall|j: int|
                    0 <= j < instructions@.len() ==> instruction_encodable(#[trigger] instructions@[j]),
                old(self).data@.len() + 40 * instructions@.len() + 64 < usize::MAX,
                self.data@ == old(self).data@ + instructions_bytes(instructions@.take(i as int), p),
                self.jumps@ == old(self).jumps@ + instructions_jumps(instructions@.take(i as int), p),
                self.block_address@ == old(self).block_address@.insert(block.id, p as u64),
            decreases n - i,
        {
            let ghost before = self.data@;
            let ghost jumps_before = self.jumps@;
            proof {
                let t = instructions@.take(i as int);
                assert forall|j: int| 0 <= j < t.len() implies instruction_encodable(#[trigger] t[j]) by {
                    assert(t[j] == instructions@[j]);
                }
                lemma_instructions_size(t, p);
                assert(instructions@.take(i + 1).drop_last() =~= t);
                assert(instructions@.take(i + 1).last() == instructions@[i as int]);
            }
            self.add_instruction(&instructions[i]);
            proof {
                let t = instructions@.take(i as int);
                assert(self.data@ =~= old(self).data@ + instructions_bytes(
                    instructions@.take(i + 1),
                    p,
                ));
                assert(self.jumps@ =~= old(self).jumps@ + instructions_jumps(
                    instructions@.take(i + 1),
                    p,
                ));
            }
            i = i + 1;
        }
        proof {
            assert(instructions@.take(n as int) =~= instructions@);
        }
    }

    fn new() -> (translator: Self)
        ensures
            translator.data@ == Seq::<u8>::empty(),
            translator.jumps@ == Seq::<(usize, BlockId)>::empty(),
            translator.block_address@ == Map::<BlockId, Address>::empty(),
    {
        Self { data: Vec::new(), block_address: std::collections::HashMap::new(), jumps: Vec::new() }
    }

    /// Lays out the blocks one after another, then fills in every jump target.
    fn add_blocks(&mut self, blocks: Vec<LirBlock>)
        requires
            old(self).data@ == Seq::<u8>::empty(),
            old(self).jumps@ == Seq::<(usize, BlockId)>::empty(),
            old(self).block_address@ == Map::<BlockId, Address>::empty(),
            text_encodable(blocks@),
            40 * instruction_count(blocks@) + 64 < usize::MAX,
            forall|k: int|
                0 <= k < text_jumps(blocks@).len() ==> block_starts(blocks@).contains_key(
                    (#[trigger] text_jumps(blocks@)[k]).1,
                ),
        ensures
            final(self).data@ == patched(text_bytes(blocks@), text_jumps(blocks@), block_starts(blocks@)),
            final(self).block_address@ == block_starts(blocks@),
    {
        let n = blocks.len();
        let mut i: usize = 0;
        let mut rest = blocks;
        let ghost all = rest@;
        while i < n
            invariant
                n == all.len(),
                i <= n,
                rest@ == all.skip(i as int),
                text_encodable(all),
                40 * instruction_count(all) + 64 < usize::MAX,
                self.data@ == text_bytes(all.take(i as int)),
                self.jumps@ == text_jumps(all.take(i as int)),
                self.block_address@ == block_starts(all.take(i as int)),
            decreases n - i,
        {
            let block = rest.remove(0);
            proof {
                let t = all.take(i as int);
                assert(all.take(i + 1).drop_last() =~= t);
                assert(all.take(i + 1).last() == all[i as int]);
                assert(block == all[i as int]);
                assert forall|b: int, j: int|
                    0 <= b < t.len() && 0 <= j < t[b].instructions@.len() implies instruction_encodable(
                    #[trigger] t[b].instructions@[j],
                ) by {
                    assert(t[b] == all[b]);
                }
                lemma_text_size(t);
                lemma_count_prefix(all, i + 1);
                assert(instruction_count(all.take(i + 1)) == instruction_count(t)
                    + block.instructions@.len());
                assert forall|j: int| 0 <= j < block.instructions@.len() implies instruction_encodable(
                    #[trigger] block.instructions@[j],
                ) by {
                    assert(all[i as int].instructions@[j] == block.instructions@[j]);
                }
            }
            self.add_block(block);
            i = i + 1;
        }
        proof {
            assert(all.take(n as int) =~= all);
            assert(blocks@ == all);
            lemma_text_size(all);
            lemma_text_jumps_within(all);
        }
        self.patch_jumps();
    }

    /// Fills in the word address of each recorded target.
    fn patch_jumps(&mut self)
        requires
            jumps_within(old(self).jumps@, 0, old(self).data@.len() as int),
            forall|k: int|
                0 <= k < old(self).jumps@.len() ==> old(self).block_address@.contains_key(
                    (#[trigger] old(self).jumps@[k]).1,
                ),
        ensures
            final(self).data@ == patched(old(self).data@, old(self).jumps@, old(self).block_address@),
            final(self).block_address@ == old(self).block_address@,
            final(self).jumps@ == old(self).jumps@,
    {
        let n = self.jumps.len();
        let mut k: usize = 0;
        while k < n
            invariant
                n == self.jumps@.len(),
                k <= n,
                self.jumps@ == old(self).jumps@,
                self.block_address@ == old(self).block_address@,
                jumps_within(old(self).jumps@, 0, old(self).data@.len() as int),
                forall|j: int|
                    0 <= j < old(self).jumps@.len() ==> old(self).block_address@.contains_key(
                        (#[trigger] old(self).jumps@[j]).1,
                    ),
                self.data@.len() == old(self).data@.len(),
                self.data@ == patched(old(self).data@, old(self).jumps@.take(k as int), old(self).block_address@),
            decreases n - k,
        {
            let (offset, block_id) = self.jumps[k];
            proof {
                assert(old(self).jumps@[k as int] == (offset, block_id));
                assert(old(self).jumps@.take(k + 1).drop_last() =~= old(self).jumps@.take(k as int));
                assert(old(self).jumps@.take(k + 1).last() == (offset, block_id));
            }
            let target = match self.block_address.get(&block_id) {
                Some(address) => *address,
                None => {
                    assert(false);
                    0
                },
            };
            self.write_be_56(offset, target / 4);
            k = k + 1;
        }
        proof {
            assert(old(self).jumps@.take(n as int) =~= old(self).jumps@);
        }
    }

    /// The word address of each interrupt block.
    fn get_interrupt_vectors(&self, interrupt_blocks: [BlockId; 8]) -> (vectors: [Address; 8])
        requires
            forall|i: int| 0 <= i < 8 ==> self.block_address@.contains_key(#[trigger] interrupt_blocks@[i]),
        ensures
            forall|i: int|
                0 <= i < 8 ==> #[trigger] vectors@[i] == self.block_address@[interrupt_blocks@[i]] / 4,
    {
        let mut vectors: [Address; 8] = [0; 8];
        let mut i: usize = 0;
        while i < 8
            invariant
                i <= 8,
                forall|j: int| 0 <= j < 8 ==> self.block_address@.contains_key(#[trigger] interrupt_blocks@[j]),
                forall|j: int|
                    0 <= j < i ==> #[trigger] vectors@[j] == self.block_address@[interrupt_blocks@[j]] / 4,
            decreases 8 - i,
        {
            let block_id = interrupt_blocks[i];
            let address = match self.block_address.get(&block_id) {
                Some(address) => *address,
                None => {
                    assert(false);
                    0
                },
            };
            vectors[i] = address / 4;
            i = i + 1;
        }
        vectors
    }

    /// The operand byte and the following bytes of an operand.
    fn translate_operand(&self, operand: &LirOperand) -> (encoded: (u8, Vec<u8>))
        requires
            encodable(*operand),
        ensures
            encoded.0 == (operand_encoding(*operand)->0).0,
            encoded.1@ == (operand_encoding(*operand)->0).1,
    {
        match operand {
            LirOperand::Direct(value) => {
                (Self::operand_byte(Mode::Direct, 0, 0), Self::be_bytes_32(*value as u32))
            },
            LirOperand::Register(register, RegisterType::Data) => {
                (Self::operand_byte(Mode::DataRegister, *register, 0), Vec::new())
            },
            LirOperand::Register(register, RegisterType::Address) => {
                (Self::operand_byte(Mode::AddressRegister, *register, 0), Vec::new())
            },
            LirOperand::Indirect(inner) => match &**inner {
                LirOperand::Register(register, RegisterType::Address) => {
                    (Self::operand_byte(Mode::Indirect, *register, 0), Vec::new())
                },
                _ => {
                    assert(false);
                    (0, Vec::new())
                },
            },
            LirOperand::IndirectPostIncrement(inner) => match &**inner {
                LirOperand::Register(register, RegisterType::Address) => {
                    (Self::operand_byte(Mode::IndirectPostIncrement, *register, 0), Vec::new())
                },
                _ => {
                    assert(false);
                    (0, Vec::new())
                },
            },
            LirOperand::IndirectPreDecrement(inner) => match &**inner {
                LirOperand::Register(register, RegisterType::Address) => {
                    (Self::operand_byte(Mode::IndirectPreDecrement, *register, 0), Vec::new())
                },
                _ => {
                    assert(false);
                    (0, Vec::new())
                },
            },
            LirOperand::IndirectOffset { base, offset } => match &**base {
                LirOperand::Register(base, RegisterType::Address) => match &**offset {
                    LirOperand::Register(index, RegisterType::Data) => {
                        (Self::operand_byte(Mode::IndirectOffset, *base, *index - 4), Vec::new())
                    },
                    LirOperand::Direct(value) => {
                        (
                            Self::operand_byte(Mode::IndirectOffset, *base, 0),
                            Self::be_bytes_32(*value as u32),
                        )
                    },
                    _ => {
                        assert(false);
                        (0, Vec::new())
                    },
                },
                _ => {
                    assert(false);
                    (0, Vec::new())
                },
            },
            LirOperand::IndirectDirect(address) => {
                (Self::operand_byte(Mode::IndirectDirect, 0, 0), Self::be_bytes_32(*address as u32))
            },
            LirOperand::VirtualRegister(_, _) => {
                assert(false);
                (0, Vec::new())
            },
        }
    }
}

/// Whether every jump, call and branch names a block of the code, and every interrupt
/// vector a block too.
pub open spec fn targets_defined(blocks: Seq<LirBlock>, interrupt_blocks: [BlockId; 8]) -> bool {
    &&& forall|k: int|
        0 <= k < text_jumps(blocks).len() ==> block_starts(blocks).contains_key(
            (#[trigger] text_jumps(blocks)[k]).1,
        )
    &&& forall|i: int| 0 <= i < 8 ==> block_starts(blocks).contains_key(#[trigger] interrupt_blocks@[i])
}

/// The words of a byte sequence, four bytes each.
fn words_from_bytes(bytes: &Vec<u8>) -> (words: Vec<u32>)
    ensures
        words@ == words_of(bytes@),
{
    let n = bytes.len() / 4;
    let mut words: Vec<u32> = Vec::new();
    let mut i: usize = 0;
    while i < n
        invariant
            n == bytes@.len() / 4,
            i <= n,
            words@ == words_of(bytes@).take(i as int),
        decreases n - i,
    {
        let length = bytes.len();
        assert(4 * i + 3 < length) by (nonlinear_arith)
            requires
                i < n,
                n == length / 4,
        ;
        let word = ((bytes[4 * i] as u32) << 24) | ((bytes[4 * i + 1] as u32) << 16) | ((bytes[4 * i
            + 2] as u32) << 8) | (bytes[4 * i + 3] as u32);
        words.push(word);
        proof {
            assert(words@ =~= words_of(bytes@).take(i + 1));
        }
        i = i + 1;
    }
    proof {
        assert(words_of(bytes@).take(n as int) =~= words_of(bytes@));
    }
    words
}

/// The data section laid out by address: one value per address up to the highest one, zero
/// where the section holds nothing.
fn lay_out_data(section: &std::collections::HashMap<Address, (u64, WordSize)>) -> (data: Vec<u64>)
    requires
        section@.dom().len() > 0,
        forall|address: Address| #[trigger] section@.contains_key(address) ==> address < usize::MAX,
    ensures
        data@.len() > 0,
        section@.contains_key((data@.len() - 1) as Address),
        forall|address: Address| #[trigger] section@.contains_key(address) ==> address < data@.len(),
        forall|i: int|
            0 <= i < data@.len() ==> #[trigger] data@[i] == if section@.contains_key(i as Address) {
                section@[i as Address].0
            } else {
                0
            },
{
    let ghost entries = IteratorSpec::remaining(&spec_hash_map_iter(section));
    let ghost mut count: int = 0;
    let mut max_address: Address = 0;
    let mut seen = false;
    for entry in it: section.iter()
        invariant
            it.seq() == entries,
            count == it.index(),
            seen ==> section@.contains_key(max_address),
            forall|k: int| 0 <= k < count ==> #[trigger] (*entries[k].0) <= max_address,
            seen <==> count > 0,
    {
        let address = *entry.0;
        if !seen || address > max_address {
            max_address = address;
        }
        seen = true;
        proof {
            count = count + 1;
        }
    }
    proof {
        assert(count == entries.len());
        assert forall|a: Address| #[trigger] section@.contains_key(a) implies a <= max_address by {
            assert(entries.contains((&a, &section@[a])));
            let k = choose|k: int| 0 <= k < entries.len() && entries[k] == (&a, &section@[a]);
            assert(*entries[k].0 <= max_address);
        }
        if !seen {
            let a = section@.dom().choose();
            assert(section@.dom().contains(a));
        }
    }
    let length = (max_address as usize) + 1;
    let mut data: Vec<u64> = vec![0; length];
    let ghost mut done: int = 0;
    for entry in it: section.iter()
        invariant
            it.seq() == entries,
            done == it.index(),
            data@.len() == length,
            length == max_address + 1,
            forall|a: Address| #[trigger] section@.contains_key(a) ==> a <= max_address,
            forall|i: int|
                0 <= i < length ==> #[trigger] data@[i] == if exists|k: int|
                    0 <= k < done && *entries[k].0 == i as Address {
                    section@[i as Address].0
                } else {
                    0
                },
    {
        let address = *entry.0;
        proof {
            assert(entries[done] == entry);
            assert(section@.contains_key(address) && section@[address] == *entry.1);
        }
        data.set(address as usize, entry.1.0);
        proof {
            assert forall|i: int| 0 <= i < length implies #[trigger] data@[i] == if exists|k: int|
                0 <= k < done + 1 && *entries[k].0 == i as Address {
                section@[i as Address].0
            } else {
                0
            } by {
                if i == address {
                    assert(*entries[done].0 == i as Address);
                } else {
                    if exists|k: int| 0 <= k < done + 1 && *entries[k].0 == i as Address {
                        let k = choose|k: int| 0 <= k < done + 1 && *entries[k].0 == i as Address;
                        assert(k != done);
                    }
                }
            }
            done = done + 1;
        }
    }
    proof {
        assert(done == entries.len());
        assert forall|i: int| 0 <= i < data@.len() implies #[trigger] data@[i] == if section@.contains_key(
            i as Address,
        ) {
            section@[i as Address].0
        } else {
            0
        } by {
            if section@.contains_key(i as Address) {
                let a = i as Address;
                assert(entries.contains((&a, &section@[a])));
                let k = choose|k: int| 0 <= k < entries.len() && entries[k] == (&a, &section@[a]);
                assert(*entries[k].0 == i as Address);
            } else {
                if exists|k: int| 0 <= k < done && *entries[k].0 == i as Address {
                    let k = choose|k: int| 0 <= k < done && *entries[k].0 == i as Address;
                    assert(section@.contains_key(*entries[k].0));
                }
            }
        }
    }
    data
}

/// Assembles the back end's output into what the processor loads: the code with every
/// target filled in, as words; the data section laid out by address; and the word address of
/// each interrupt block.
pub fn translate(lir_package: LirPackage) -> (package: ControlUnitPackage)
    requires
        text_encodable(lir_package.text_section@),
        40 * instruction_count(lir_package.text_section@) + 64 < usize::MAX,
        targets_defined(lir_package.text_section@, lir_package.interrupt_blocks),
        lir_package.data_section@.dom().len() > 0,
        forall|address: Address|
            #[trigger] lir_package.data_section@.contains_key(address) ==> address < usize::MAX,
    ensures
        package.program@ == words_of(
            patched(
                text_bytes(lir_package.text_section@),
                text_jumps(lir_package.text_section@),
                block_starts(lir_package.text_section@),
            ),
        ),
        forall|i: int|
            0 <= i < 8 ==> #[trigger] package.interrupt_vectors@[i] == block_starts(
                lir_package.text_section@,
            )[lir_package.interrupt_blocks@[i]] / 4,
        package.data@.len() > 0,
        lir_package.data_section@.contains_key((package.data@.len() - 1) as Address),
        forall|address: Address|
            #[trigger] lir_package.data_section@.contains_key(address) ==> address
                < package.data@.len(),
        forall|i: int|
            0 <= i < package.data@.len() ==> #[trigger] package.data@[i]
                == if lir_package.data_section@.contains_key(i as Address) {
                lir_package.data_section@[i as Address].0
            } else {
                0
            },
{
    let mut translator = AsmTranslator::default();
    let ghost text = lir_package.text_section@;
    translator.add_blocks(lir_package.text_section);
    let interrupt_vectors = translator.get_interrupt_vectors(lir_package.interrupt_blocks);
    let program = words_from_bytes(&translator.data);
    let data = lay_out_data(&lir_package.data_section);
    ControlUnitPackage::new(program, data, interrupt_vectors)
}

impl Default for AsmTranslator {
    fn default() -> (translator: Self)
        ensures
            translator.data@ == Seq::<u8>::empty(),
            translator.jumps@ == Seq::<(usize, BlockId)>::empty(),
            translator.block_address@ == Map::<BlockId, Address>::empty(),
    {
        Self::new()
    }
}

/// What the assembler hands to the processor: the program words, the data section (one
/// value per data address) and the entry points of the eight interrupt vectors.
pub struct ControlUnitPackage {
    pub program: Vec<u32>,
    pub data: Vec<u64>,
    pub interrupt_vectors: [Address; 8],
}

impl ControlUnitPackage {
    pub fn new(program: Vec<u32>, data: Vec<u64>, interrupt_vectors: [Address; 8]) -> (package:
        Self)
        ensures
            package.program@ == program@,
            package.data@ == data@,
            package.interrupt_vectors == interrupt_vectors,
    {
        Self { program, data, interrupt_vectors }
    }
}

} // verus!
