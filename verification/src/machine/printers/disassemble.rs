use crate::isa::Mode;
use crate::machine::alu::AluOperator;
use crate::machine::control_unit::{branch_address, three_operand_operation};
use crate::machine::instruction_parser::{mode_for_code, opcode_of, operator_for_code};
use crate::translator::expression::decimal_text;
use vstd::prelude::*;

verus! {

/// An operand as the disassembler reads it back, with any word that follows the instruction
/// word already taken in.
#[derive(Clone, Copy, PartialEq, Eq, Structural)]
pub enum DecodedOperand {
    Immediate(u32),
    DataRegister(u8),
    AddressRegister(u8),
    Indirect(u8),
    IndirectPostIncrement(u8),
    IndirectPreDecrement(u8),
    IndirectOffsetImmediate(u8, u32),
    IndirectOffsetRegister(u8, u8),
    IndirectDirect(u32),
}

/// How an operation code's instruction carries its arguments.
#[derive(Clone, Copy, PartialEq, Eq, Structural)]
pub enum InstructionLayout {
    NoArguments,
    Target,
    TwoOperands,
    PortAndOperand,
    ThreeOperands,
    Unknown,
}

/// The layout of each operation code.
pub open spec fn layout_of(code: u8) -> InstructionLayout {
    if code == 0x00 || code == 0x22 || code == 0x23 || code == 0x52 || code == 0x53 {
        InstructionLayout::NoArguments
    } else if code == 0x20 || code == 0x21 || (0x30 <= code <= 0x39) {
        InstructionLayout::Target
    } else if code == 0x01 || code == 0x02 || code == 0x03 || code == 0x19 {
        InstructionLayout::TwoOperands
    } else if code == 0x50 || code == 0x51 {
        InstructionLayout::PortAndOperand
    } else if (0x10 <= code <= 0x18) || (0x1A <= code <= 0x1D) || (0x40 <= code <= 0x48) || (0x60
        <= code <= 0x69) {
        InstructionLayout::ThreeOperands
    } else {
        InstructionLayout::Unknown
    }
}

/// The word at index `i`, or 0 past the end of the program.
pub open spec fn word_at(program: Seq<u32>, i: int) -> u32 {
    if 0 <= i < program.len() {
        program[i]
    } else {
        0
    }
}

/// The operand that `byte` describes when the instruction has consumed the words up to index
/// `i`, and the index of the last word consumed after it.
pub open spec fn decode_operand_at(byte: u8, program: Seq<u32>, i: int) -> (DecodedOperand, int) {
    let register = (byte >> 2u8) & 7;
    let offset = byte & 3;
    match mode_for_code((byte >> 5u8) & 7) {
        Mode::Direct => (DecodedOperand::Immediate(word_at(program, i + 1)), i + 1),
        Mode::DataRegister => (DecodedOperand::DataRegister(register), i),
        Mode::AddressRegister => (DecodedOperand::AddressRegister(register), i),
        Mode::Indirect => (DecodedOperand::Indirect(register), i),
        Mode::IndirectPostIncrement => (DecodedOperand::IndirectPostIncrement(register), i),
        Mode::IndirectPreDecrement => (DecodedOperand::IndirectPreDecrement(register), i),
        Mode::IndirectOffset => if offset == 0 {
            (DecodedOperand::IndirectOffsetImmediate(register, word_at(program, i + 1)), i + 1)
        } else {
            (DecodedOperand::IndirectOffsetRegister(register, (4 + offset) as u8), i)
        },
        Mode::IndirectDirect => (DecodedOperand::IndirectDirect(word_at(program, i + 1)), i + 1),
    }
}

/// Byte `byte` (0 for the most significant) of an instruction word.
pub open spec fn word_byte(ir: u32, byte: int) -> u8 {
    ((ir >> ((24 - 8 * byte) as u32)) & 0xff) as u8
}

/// The operands of the instruction at `start` with the given number of operand bytes
/// (starting at byte `first`), and the index of its last word.
pub open spec fn decode_operands(program: Seq<u32>, start: int, first: int, count: nat) -> (
    Seq<DecodedOperand>,
    int,
)
    decreases count,
{
    if count == 0 {
        (Seq::empty(), start)
    } else {
        let (before, last) = decode_operands(program, start, first, (count - 1) as nat);
        let (operand, next) = decode_operand_at(
            word_byte(program[start], first + count - 1),
            program,
            last,
        );
        (before.push(operand), next)
    }
}

/// What the disassembler reads at index `start`: the operation code, the width bit, the
/// branch target, the port, the operands, and the index of the instruction's last word.
pub open spec fn decode_at(program: Seq<u32>, start: int) -> (
    u8,
    bool,
    Option<u64>,
    Option<u8>,
    Seq<DecodedOperand>,
    int,
) {
    let ir = program[start];
    let code = opcode_of(ir);
    let long = (ir >> 24u32) & 1 == 1;
    match layout_of(code) {
        InstructionLayout::Target => (
            code,
            long,
            Some(branch_address(ir, word_at(program, start + 1))),
            None,
            Seq::empty(),
            start + 1,
        ),
        InstructionLayout::TwoOperands => {
            let (operands, last) = decode_operands(program, start, 1, 2);
            (code, long, None, None, operands, last)
        },
        InstructionLayout::PortAndOperand => {
            let (operands, last) = decode_operands(program, start, 2, 1);
            (code, long, None, Some(word_byte(ir, 1)), operands, last)
        },
        InstructionLayout::ThreeOperands => {
            let (operands, last) = decode_operands(program, start, 1, 3);
            (code, long, None, None, operands, last)
        },
        _ => (code, long, None, None, Seq::empty(), start),
    }
}

/// One instruction as the disassembler reads it back.
pub struct DecodedInstruction {
    pub start: usize,
    pub end: usize,
    pub opcode: u8,
    pub long: bool,
    pub target: Option<u64>,
    pub port: Option<u8>,
    pub operands: Vec<DecodedOperand>,
}

impl DecodedInstruction {
    /// Whether this record is what the disassembler reads at its start index.
    pub open spec fn read_from(&self, program: Seq<u32>) -> bool {
        let decoded = decode_at(program, self.start as int);
        &&& self.start < program.len()
        &&& self.opcode == decoded.0
        &&& self.long == decoded.1
        &&& self.target == decoded.2
        &&& self.port == decoded.3
        &&& self.operands@ == decoded.4
        &&& self.end == decoded.5
    }
}

/// The records are exactly what the disassembler reads walking the program from index 0:
/// each instruction starts right after the last word of the one before, and the walk ends
/// with the program.
pub open spec fn walks(program: Seq<u32>, records: Seq<DecodedInstruction>) -> bool {
    &&& forall|k: int| 0 <= k < records.len() ==> #[trigger] records[k].read_from(program)
    &&& records.len() == 0 <==> program.len() == 0
    &&& records.len() > 0 ==> records[0].start == 0
    &&& forall|k: int|
        0 <= k < records.len() - 1 ==> #[trigger] records[k + 1].start == records[k].end + 1
    &&& records.len() > 0 ==> records.last().end + 1 >= program.len()
}

/// An instruction never ends before it starts, and takes at most three words after the
/// instruction word.
pub proof fn lemma_operands_extent(program: Seq<u32>, start: int, first: int, count: nat)
    ensures
        start <= decode_operands(program, start, first, count).1 <= start + count,
    decreases count,
{
    if count > 0 {
        lemma_operands_extent(program, start, first, (count - 1) as nat);
    }
}

/// The word at index `i`, or 0 past the end.
fn fetch_word(program: &[u32], i: usize) -> (word: u32)
    ensures
        word == word_at(program@, i as int),
{
    if i < program.len() {
        program[i]
    } else {
        0
    }
}

/// Reads one operand; `last` is the index of the last word consumed so far.
fn decode_operand(byte: u8, program: &[u32], last: usize) -> (decoded: (DecodedOperand, usize))
    requires
        last + 1 < usize::MAX,
    ensures
        (decoded.0, decoded.1 as int) == decode_operand_at(byte, program@, last as int),
{
    let register = (byte >> 2) & 7;
    let offset = byte & 3;
    proof {
        assert(offset < 4) by (bit_vector)
            requires
                offset == byte & 3,
        ;
    }
    match (byte >> 5) & 7 {
        0 => (DecodedOperand::Immediate(fetch_word(program, last + 1)), last + 1),
        1 => (DecodedOperand::DataRegister(register), last),
        2 => (DecodedOperand::AddressRegister(register), last),
        3 => (DecodedOperand::Indirect(register), last),
        4 => (DecodedOperand::IndirectPostIncrement(register), last),
        5 => (DecodedOperand::IndirectPreDecrement(register), last),
        6 => {
            if offset == 0 {
                (DecodedOperand::IndirectOffsetImmediate(register, fetch_word(program, last + 1)), last + 1)
            } else {
                (DecodedOperand::IndirectOffsetRegister(register, 4 + offset), last)
            }
        },
        _ => (DecodedOperand::IndirectDirect(fetch_word(program, last + 1)), last + 1),
    }
}

/// Reads `count` operands from bytes `first`, `first + 1`, ... of the instruction at `start`.
fn read_operands(program: &[u32], start: usize, first: usize, count: usize) -> (decoded: (
    Vec<DecodedOperand>,
    usize,
))
    requires
        start < program@.len(),
        1 <= first,
        first + count <= 4,
        start + 8 < usize::MAX,
    ensures
        (decoded.0@, decoded.1 as int) == decode_operands(program@, start as int, first as int, count as nat),
{
    let ir = program[start];
    let mut operands: Vec<DecodedOperand> = Vec::new();
    let mut last = start;
    let mut k: usize = 0;
    while k < count
        invariant
            k <= count,
            1 <= first,
            first + count <= 4,
            start + 8 < usize::MAX,
            start < program@.len(),
            ir == program@[start as int],
            (operands@, last as int) == decode_operands(program@, start as int, first as int, k as nat),
        decreases count - k,
    {
        proof {
            lemma_operands_extent(program@, start as int, first as int, k as nat);
        }
        let shift = (24 - 8 * (first + k)) as u32;
        let byte = ((ir >> shift) & 0xff) as u8;
        let (operand, next) = decode_operand(byte, program, last);
        operands.push(operand);
        last = next;
        k = k + 1;
    }
    (operands, last)
}

/// The layout of an operation code.
fn layout(code: u8) -> (layout: InstructionLayout)
    ensures
        layout == layout_of(code),
{
    if code == 0x00 || code == 0x22 || code == 0x23 || code == 0x52 || code == 0x53 {
        InstructionLayout::NoArguments
    } else if code == 0x20 || code == 0x21 || (0x30 <= code && code <= 0x39) {
        InstructionLayout::Target
    } else if code == 0x01 || code == 0x02 || code == 0x03 || code == 0x19 {
        InstructionLayout::TwoOperands
    } else if code == 0x50 || code == 0x51 {
        InstructionLayout::PortAndOperand
    } else if (0x10 <= code && code <= 0x18) || (0x1A <= code && code <= 0x1D) || (0x40 <= code
        && code <= 0x48) || (0x60 <= code && code <= 0x69) {
        InstructionLayout::ThreeOperands
    } else {
        InstructionLayout::Unknown
    }
}

/// Reads the instruction at index `start`.
fn decode_instruction(program: &[u32], start: usize) -> (decoded: DecodedInstruction)
    requires
        start < program@.len(),
        start + 8 < usize::MAX,
    ensures
        decoded.start == start,
        decoded.read_from(program@),
        start <= decoded.end <= start + 3,
{
    let ir = program[start];
    let code = ((ir >> 25) & 0x7f) as u8;
    let long = (ir >> 24) & 1 == 1;
    match layout(code) {
        InstructionLayout::Target => {
            let high = ((ir & 0x00ff_ffff) as u64) << 32;
            let low = fetch_word(program, start + 1) as u64;
            DecodedInstruction {
                start,
                end: start + 1,
                opcode: code,
                long,
                target: Some(high | low),
                port: None,
                operands: Vec::new(),
            }
        },
        InstructionLayout::TwoOperands => {
            let (operands, last) = read_operands(program, start, 1, 2);
            proof {
                lemma_operands_extent(program@, start as int, 1, 2);
            }
            DecodedInstruction { start, end: last, opcode: code, long, target: None, port: None, operands }
        },
        InstructionLayout::PortAndOperand => {
            let (operands, last) = read_operands(program, start, 2, 1);
            proof {
                lemma_operands_extent(program@, start as int, 2, 1);
            }
            let port = ((ir >> 16) & 0xff) as u8;
            DecodedInstruction {
                start,
                end: last,
                opcode: code,
                long,
                target: None,
                port: Some(port),
                operands,
            }
        },
        InstructionLayout::ThreeOperands => {
            let (operands, last) = read_operands(program, start, 1, 3);
            proof {
                lemma_operands_extent(program@, start as int, 1, 3);
            }
            DecodedInstruction { start, end: last, opcode: code, long, target: None, port: None, operands }
        },
        _ => {
            DecodedInstruction {
                start,
                end: start,
                opcode: code,
                long,
                target: None,
                port: None,
                operands: Vec::new(),
            }
        },
    }
}

/// Walks a program from its first word and reads back every instruction.
pub fn decode_program(program: &[u32]) -> (records: Vec<DecodedInstruction>)
    requires
        program@.len() + 8 < usize::MAX,
    ensures
        walks(program@, records@),
{
    let n = program.len();
    let mut records: Vec<DecodedInstruction> = Vec::new();
    let mut i: usize = 0;
    while i < n
        invariant
            n == program@.len(),
            n + 8 < usize::MAX,
            i <= n + 3,
            forall|k: int| 0 <= k < records@.len() ==> #[trigger] records@[k].read_from(program@),
            records@.len() == 0 <==> i == 0,
            records@.len() > 0 ==> records@[0].start == 0,
            forall|k: int|
                0 <= k < records@.len() - 1 ==> #[trigger] records@[k + 1].start == records@[k].end + 1,
            records@.len() > 0 ==> i == records@.last().end + 1,
        decreases n + 3 - i,
    {
        let record = decode_instruction(program, i);
        let end = record.end;
        records.push(record);
        i = end + 1;
    }
    if records.len() > 0 {
        assert(records@[0].read_from(program@));
    }
    assert(records@.len() > 0 ==> records@.last().end + 1 >= program@.len());
    assert(forall|k: int| 0 <= k < records@.len() ==> #[trigger] records@[k].read_from(program@));
    records
}

/// The upper-case hexadecimal digit of a value below 16.
pub open spec fn hex_digit(d: nat) -> char {
    if d < 10 {
        (('0' as nat) + d) as char
    } else {
        (('A' as nat) + d - 10) as char
    }
}

/// The upper-case hexadecimal digits of a number, as `{:X}` writes them.
pub open spec fn hex_text(n: nat) -> Seq<char>
    decreases n,
{
    if n < 16 {
        seq![hex_digit(n)]
    } else {
        hex_text(n / 16).push(hex_digit(n % 16))
    }
}

/// A text with zeros in front up to `width` characters, as `{:0width}` pads.
pub open spec fn zero_padded(text: Seq<char>, width: nat) -> Seq<char> {
    if text.len() >= width {
        text
    } else {
        Seq::new((width - text.len()) as nat, |i: int| '0') + text
    }
}

/// A text with spaces after it up to `width` characters, as `{:<width}` pads.
pub open spec fn space_padded(text: Seq<char>, width: nat) -> Seq<char> {
    if text.len() >= width {
        text
    } else {
        text + Seq::new((width - text.len()) as nat, |i: int| ' ')
    }
}

/// Texts joined with a separator between each two.
pub open spec fn joined(parts: Seq<Seq<char>>, separator: Seq<char>) -> Seq<char>
    decreases parts.len(),
{
    if parts.len() == 0 {
        Seq::empty()
    } else if parts.len() == 1 {
        parts[0]
    } else {
        joined(parts.drop_last(), separator) + separator + parts.last()
    }
}

/// The decimal text of a signed 32-bit value.
pub open spec fn signed_text(value: i32) -> Seq<char> {
    if value < 0 {
        seq!['-'] + decimal_text((-(value as int)) as u64)
    } else {
        decimal_text(value as u64)
    }
}

/// The mnemonic of an operation code.
pub open spec fn operator_text(code: u8) -> Seq<char> {
    if code == 0x00 { "HLT"@ }
    else if code == 0x01 { "MOV"@ }
    else if code == 0x02 { "MOVA"@ }
    else if code == 0x03 { "CMP"@ }
    else if code == 0x10 { "ADD"@ }
    else if code == 0x11 { "ADC"@ }
    else if code == 0x12 { "SUB"@ }
    else if code == 0x13 { "MUL"@ }
    else if code == 0x14 { "DIV"@ }
    else if code == 0x15 { "REM"@ }
    else if code == 0x16 { "AND"@ }
    else if code == 0x17 { "OR"@ }
    else if code == 0x18 { "XOR"@ }
    else if code == 0x19 { "NOT"@ }
    else if code == 0x1A { "LSL"@ }
    else if code == 0x1B { "LSR"@ }
    else if code == 0x1C { "ASL"@ }
    else if code == 0x1D { "ASR"@ }
    else if code == 0x20 { "JMP"@ }
    else if code == 0x21 { "CALL"@ }
    else if code == 0x22 { "RET"@ }
    else if code == 0x23 { "INTRET"@ }
    else if code == 0x30 { "BEQ"@ }
    else if code == 0x31 { "BNE"@ }
    else if code == 0x32 { "BGT"@ }
    else if code == 0x33 { "BGE"@ }
    else if code == 0x34 { "BLT"@ }
    else if code == 0x35 { "BLE"@ }
    else if code == 0x36 { "BCS"@ }
    else if code == 0x37 { "BCC"@ }
    else if code == 0x38 { "BVS"@ }
    else if code == 0x39 { "BVC"@ }
    else if code == 0x40 { "VADD"@ }
    else if code == 0x42 { "VSUB"@ }
    else if code == 0x43 { "VMUL"@ }
    else if code == 0x44 { "VDIV"@ }
    else if code == 0x45 { "VREM"@ }
    else if code == 0x46 { "VAND"@ }
    else if code == 0x47 { "VOR"@ }
    else if code == 0x48 { "VXOR"@ }
    else if code == 0x50 { "IN"@ }
    else if code == 0x51 { "OUT"@ }
    else if code == 0x52 { "EI"@ }
    else if code == 0x53 { "DI"@ }
    else if code == 0x60 { "VCMPBEQ"@ }
    else if code == 0x61 { "VCMPBNE"@ }
    else if code == 0x62 { "VCMPBGT"@ }
    else if code == 0x63 { "VCMPBGE"@ }
    else if code == 0x64 { "VCMPBLT"@ }
    else if code == 0x65 { "VCMPBLE"@ }
    else if code == 0x66 { "VCMPBCS"@ }
    else if code == 0x67 { "VCMPBCC"@ }
    else if code == 0x68 { "VCMPBVS"@ }
    else if code == 0x69 { "VCMPBVC"@ }
    else { "???"@ }
}

/// The decimal text of a register number or a port.
pub open spec fn small_text(value: u8) -> Seq<char> {
    decimal_text(value as u64)
}

/// An operand in assembler notation.
pub open spec fn operand_mnemonic(operand: DecodedOperand) -> Seq<char> {
    match operand {
        DecodedOperand::Immediate(imm) => "#"@ + signed_text(imm as i32),
        DecodedOperand::DataRegister(r) => "D"@ + small_text(r),
        DecodedOperand::AddressRegister(r) => "A"@ + small_text(r),
        DecodedOperand::Indirect(r) => "(A"@ + small_text(r) + ")"@,
        DecodedOperand::IndirectPostIncrement(r) => "(A"@ + small_text(r) + ")+"@,
        DecodedOperand::IndirectPreDecrement(r) => "-(A"@ + small_text(r) + ")"@,
        DecodedOperand::IndirectOffsetImmediate(r, imm) => "(A"@ + small_text(r) + ":#"@
            + signed_text(imm as i32) + ")"@,
        DecodedOperand::IndirectOffsetRegister(r, d) => "(A"@ + small_text(r) + ":D"@ + small_text(
            d,
        ) + ")"@,
        DecodedOperand::IndirectDirect(imm) => "(#"@ + decimal_text(imm as u64) + ")"@,
    }
}

/// An operand in register-transfer notation.
pub open spec fn operand_transfer(operand: DecodedOperand) -> Seq<char> {
    match operand {
        DecodedOperand::Immediate(imm) => signed_text(imm as i32),
        DecodedOperand::DataRegister(r) => "D"@ + small_text(r),
        DecodedOperand::AddressRegister(r) => "A"@ + small_text(r),
        DecodedOperand::Indirect(r) => "MEM[A"@ + small_text(r) + "]"@,
        DecodedOperand::IndirectPostIncrement(r) => "MEM[A"@ + small_text(r) + "++]"@,
        DecodedOperand::IndirectPreDecrement(r) => "MEM[--A"@ + small_text(r) + "]"@,
        DecodedOperand::IndirectOffsetImmediate(r, imm) => "MEM[A"@ + small_text(r) + " + "@
            + signed_text(imm as i32) + "]"@,
        DecodedOperand::IndirectOffsetRegister(r, d) => "MEM[A"@ + small_text(r) + " + D"@
            + small_text(d) + "]"@,
        DecodedOperand::IndirectDirect(imm) => "MEM["@ + decimal_text(imm as u64) + "]"@,
    }
}

/// The register-transfer text of a lane-wise vector operation.
pub open spec fn vector_text(d: Seq<Seq<char>>, symbol: Seq<char>) -> Seq<char> {
    "for i in 0..4 do MEM["@ + d[2] + " + i] <- MEM["@ + d[0] + " + i] "@ + symbol + " MEM["@ + d[1]
        + " + i]"@
}

/// The register-transfer text of a lane-wise vector comparison.
pub open spec fn compare_text(d: Seq<Seq<char>>, symbol: Seq<char>) -> Seq<char> {
    "for i in 0..4 do MEM["@ + d[2] + " + i] <- MEM["@ + d[0] + " + i] "@ + symbol + " MEM["@ + d[1]
        + " + i] ? TRUE_MASK : 0x0"@
}

/// The register-transfer text of a lane-wise flag test.
pub open spec fn flag_text(d: Seq<Seq<char>>, condition: Seq<char>) -> Seq<char> {
    "for i in 0..4 do MEM["@ + d[2] + " + i] <- "@ + condition + " ? TRUE_MASK : 0x0"@
}

/// What an instruction does, in register-transfer notation over its argument texts.
pub open spec fn description_text(code: u8, d: Seq<Seq<char>>) -> Seq<char> {
    if code == 0x00 { "Остановка выполнения процессора"@ }
    else if code == 0x01 || code == 0x02 { d[1] + " <- "@ + d[0] }
    else if code == 0x03 { "NZCV <- "@ + d[0] + " - "@ + d[1] }
    else if code == 0x10 { d[2] + " <- "@ + d[0] + " + "@ + d[1] }
    else if code == 0x11 { d[2] + " <- "@ + d[0] + " + "@ + d[1] + " + C"@ }
    else if code == 0x12 { d[2] + " <- "@ + d[0] + " - "@ + d[1] }
    else if code == 0x13 { d[2] + " <- "@ + d[0] + " * "@ + d[1] }
    else if code == 0x14 { d[2] + " <- "@ + d[0] + " / "@ + d[1] }
    else if code == 0x15 { d[2] + " <- "@ + d[0] + " % "@ + d[1] }
    else if code == 0x16 { d[2] + " <- "@ + d[0] + " & "@ + d[1] }
    else if code == 0x17 { d[2] + " <- "@ + d[0] + " | "@ + d[1] }
    else if code == 0x18 { d[2] + " <- "@ + d[0] + " ^ "@ + d[1] }
    else if code == 0x19 { d[1] + " <- !"@ + d[0] }
    else if code == 0x1A || code == 0x1C { d[2] + " <- "@ + d[0] + " << "@ + d[1] }
    else if code == 0x1B || code == 0x1D { d[2] + " <- "@ + d[0] + " >> "@ + d[1] }
    else if code == 0x20 { "PC <- "@ + d[0] }
    else if code == 0x21 { "MEM[--A7] <- PC + 1; PC <- "@ + d[0] }
    else if code == 0x22 { "PC <- MEM[A7++]"@ }
    else if code == 0x23 { "PC <- MEM[A7++]; NZCV <- MEM[A7++]; INT <- 0"@ }
    else if code == 0x30 { "if Z == 1 then PC <- "@ + d[0] }
    else if code == 0x31 { "if Z == 0 then PC <- "@ + d[0] }
    else if code == 0x32 { "if Z == 0 and N == O then PC <- "@ + d[0] }
    else if code == 0x33 { "if N == 0 then PC <- "@ + d[0] }
    else if code == 0x34 { "if N == 1 then PC <- "@ + d[0] }
    else if code == 0x35 { "if Z == 1 or N == 0 then PC <- "@ + d[0] }
    else if code == 0x36 { "if C == 1 then PC <- "@ + d[0] }
    else if code == 0x37 { "if C == 0 then PC <- "@ + d[0] }
    else if code == 0x38 { "if V == 1 then PC <- "@ + d[0] }
    else if code == 0x39 { "if V == 0 then PC <- "@ + d[0] }
    else if code == 0x40 { vector_text(d, "+"@) }
    else if code == 0x42 { vector_text(d, "-"@) }
    else if code == 0x43 { vector_text(d, "*"@) }
    else if code == 0x44 { vector_text(d, "/"@) }
    else if code == 0x45 { vector_text(d, "%"@) }
    else if code == 0x46 { vector_text(d, "&"@) }
    else if code == 0x47 { vector_text(d, "|"@) }
    else if code == 0x48 { vector_text(d, "^"@) }
    else if code == 0x50 { d[1] + " <- IO["@ + d[0] + "]"@ }
    else if code == 0x51 { "IO["@ + d[0] + "] <- "@ + d[1] }
    else if code == 0x52 { "IF <- 1; Включает прерывания"@ }
    else if code == 0x53 { "IF <- 0; Выключает прерывания"@ }
    else if code == 0x60 { compare_text(d, "=="@) }
    else if code == 0x61 { compare_text(d, "!="@) }
    else if code == 0x62 { compare_text(d, ">"@) }
    else if code == 0x63 { compare_text(d, ">="@) }
    else if code == 0x64 { compare_text(d, "<"@) }
    else if code == 0x65 { compare_text(d, "<="@) }
    else if code == 0x66 { flag_text(d, "C == 1"@) }
    else if code == 0x67 { flag_text(d, "C == 0"@) }
    else if code == 0x68 { flag_text(d, "V == 1"@) }
    else if code == 0x69 { flag_text(d, "V == 0"@) }
    else { "Неизвестная инструкция"@ }
}

/// The argument texts of an instruction, in assembler notation or, with `transfer`, in
/// register-transfer notation: the branch target, the port, then the operands.
pub open spec fn argument_texts(record: DecodedInstruction, transfer: bool) -> Seq<Seq<char>> {
    let target = match record.target {
        Some(t) => seq!["0x"@ + hex_text(t as nat)],
        None => Seq::empty(),
    };
    let port = match record.port {
        Some(p) => seq![
            if transfer {
                small_text(p)
            } else {
                "#"@ + small_text(p)
            },
        ],
        None => Seq::empty(),
    };
    target + port + record.operands@.map_values(|o: DecodedOperand| operand_text(o, transfer))
}

/// One operand in the form that its instruction lists it.
pub open spec fn operand_text(operand: DecodedOperand, transfer: bool) -> Seq<char> {
    if transfer {
        operand_transfer(operand)
    } else {
        operand_mnemonic(operand)
    }
}

/// Whether an instruction's mnemonic carries its width.
pub open spec fn sized(code: u8) -> bool {
    (0x01 <= code <= 0x03) || (0x10 <= code <= 0x1D)
}

/// An instruction in assembler notation.
pub open spec fn mnemonic_text(record: DecodedInstruction) -> Seq<char> {
    let arguments = argument_texts(record, false);
    if arguments.len() == 0 {
        operator_text(record.opcode)
    } else {
        let width = if sized(record.opcode) {
            if record.long {
                ".l"@
            } else {
                ".b"@
            }
        } else {
            Seq::empty()
        };
        operator_text(record.opcode) + width + " "@ + joined(arguments, ", "@)
    }
}

/// The eight-digit hexadecimal texts of the words from index `from` to index `to`, those
/// inside the program.
pub open spec fn word_texts(program: Seq<u32>, from: int, to: int) -> Seq<Seq<char>>
    decreases to - from + 1,
{
    if to < from {
        Seq::empty()
    } else {
        let before = word_texts(program, from, to - 1);
        if 0 <= to < program.len() {
            before.push(zero_padded(hex_text(program[to] as nat), 8))
        } else {
            before
        }
    }
}

/// The listing line of an instruction: its address, its words, its assembler notation and
/// what it does.
pub open spec fn listing_line(program: Seq<u32>, record: DecodedInstruction) -> Seq<char> {
    "0x"@ + zero_padded(hex_text(record.start as nat), 4) + " | "@ + space_padded(
        joined(word_texts(program, record.start as int, record.end as int), " "@),
        35,
    ) + " | "@ + space_padded(mnemonic_text(record), 35) + " | "@ + description_text(
        record.opcode,
        argument_texts(record, true),
    )
}

/// How many argument texts the description of an operation code reads.
pub open spec fn arguments_needed(code: u8) -> nat {
    if code == 0x20 || code == 0x21 || (0x30 <= code <= 0x39) {
        1
    } else if code == 0x01 || code == 0x02 || code == 0x03 || code == 0x19 || code == 0x50 || code == 0x51 {
        2
    } else if (0x10 <= code <= 0x18) || (0x1A <= code <= 0x1D) || (0x40 <= code <= 0x48) || (0x60
        <= code <= 0x69) {
        3
    } else {
        0
    }
}

/// As many operands are read as there are operand bytes.
pub proof fn lemma_operands_count(program: Seq<u32>, start: int, first: int, count: nat)
    ensures
        decode_operands(program, start, first, count).0.len() == count,
    decreases count,
{
    if count > 0 {
        lemma_operands_count(program, start, first, (count - 1) as nat);
    }
}

/// A record read from a program has every argument its description reads.
pub proof fn lemma_enough_arguments(record: DecodedInstruction, program: Seq<u32>, transfer: bool)
    requires
        record.read_from(program),
    ensures
        argument_texts(record, transfer).len() >= arguments_needed(record.opcode),
{
    let start = record.start as int;
    lemma_operands_count(program, start, 1, 2);
    lemma_operands_count(program, start, 2, 1);
    lemma_operands_count(program, start, 1, 3);
}

/// Appends the characters of a text.
fn append_text(buffer: &mut Vec<char>, text: &str)
    ensures
        final(buffer)@ == old(buffer)@ + text@,
{
    let chars = crate::io::chars_of(text);
    append_chars(buffer, &chars);
}

/// Appends characters.
fn append_chars(buffer: &mut Vec<char>, chars: &Vec<char>)
    ensures
        final(buffer)@ == old(buffer)@ + chars@,
{
    let ghost start = buffer@;
    let mut k: usize = 0;
    while k < chars.len()
        invariant
            k <= chars@.len(),
            buffer@ == start + chars@.take(k as int),
        decreases chars@.len() - k,
    {
        buffer.push(chars[k]);
        proof {
            assert(start + chars@.take(k + 1) =~= (start + chars@.take(k as int)).push(chars@[k as int]));
        }
        k = k + 1;
    }
    proof {
        assert(chars@.take(k as int) =~= chars@);
    }
}

/// The characters of a text.
fn text_chars(text: &str) -> (chars: Vec<char>)
    ensures
        chars@ == text@,
{
    crate::io::chars_of(text)
}

/// The hexadecimal digit of a value below 16.
fn hex_digit_char(d: u64) -> (c: char)
    requires
        d < 16,
    ensures
        c == hex_digit(d as nat),
{
    let digits = ['0', '1', '2', '3', '4', '5', '6', '7', '8', '9', 'A', 'B', 'C', 'D', 'E', 'F'];
    let c = digits[d as usize];
    proof {
        assert(digits@[d as int] == hex_digit(d as nat)) by {
            assert(digits@ =~= seq!['0', '1', '2', '3', '4', '5', '6', '7', '8', '9', 'A', 'B', 'C', 'D', 'E', 'F']);
        }
    }
    c
}

/// The upper-case hexadecimal digits of a number.
fn hex_chars(n: u64) -> (chars: Vec<char>)
    ensures
        chars@ == hex_text(n as nat),
    decreases n,
{
    if n < 16 {
        let mut chars: Vec<char> = Vec::new();
        chars.push(hex_digit_char(n));
        proof {
            assert(chars@ =~= seq![hex_digit(n as nat)]);
        }
        chars
    } else {
        let mut chars = hex_chars(n / 16);
        chars.push(hex_digit_char(n % 16));
        chars
    }
}

/// Zeros in front up to `width` characters.
fn zero_pad(text: Vec<char>, width: usize) -> (padded: Vec<char>)
    ensures
        padded@ == zero_padded(text@, width as nat),
{
    if text.len() >= width {
        return text;
    }
    let mut padded: Vec<char> = Vec::new();
    let fill = width - text.len();
    let mut k: usize = 0;
    while k < fill
        invariant
            k <= fill,
            padded@ == Seq::new(k as nat, |i: int| '0'),
        decreases fill - k,
    {
        padded.push('0');
        proof {
            assert(padded@ =~= Seq::new((k + 1) as nat, |i: int| '0'));
        }
        k = k + 1;
    }
    append_chars(&mut padded, &text);
    padded
}

/// Spaces after the text up to `width` characters.
fn space_pad(text: Vec<char>, width: usize) -> (padded: Vec<char>)
    ensures
        padded@ == space_padded(text@, width as nat),
{
    if text.len() >= width {
        return text;
    }
    let mut padded = text;
    let ghost start = padded@;
    let fill = width - padded.len();
    let mut k: usize = 0;
    while k < fill
        invariant
            k <= fill,
            padded@ == start + Seq::new(k as nat, |i: int| ' '),
        decreases fill - k,
    {
        padded.push(' ');
        proof {
            assert(padded@ =~= start + Seq::new((k + 1) as nat, |i: int| ' '));
        }
        k = k + 1;
    }
    padded
}

/// The views of character vectors.
pub open spec fn texts_of(parts: Seq<Vec<char>>) -> Seq<Seq<char>> {
    parts.map_values(|p: Vec<char>| p@)
}

/// Texts joined with a separator.
fn join_chars(parts: &Vec<Vec<char>>, separator: &str) -> (text: Vec<char>)
    ensures
        text@ == joined(texts_of(parts@), separator@),
{
    let mut text: Vec<char> = Vec::new();
    let mut k: usize = 0;
    proof {
        assert(texts_of(parts@).take(0) =~= Seq::<Seq<char>>::empty());
    }
    while k < parts.len()
        invariant
            k <= parts@.len(),
            text@ == joined(texts_of(parts@).take(k as int), separator@),
        decreases parts@.len() - k,
    {
        let ghost before = texts_of(parts@).take(k as int);
        proof {
            assert(texts_of(parts@).take(k + 1).drop_last() =~= before);
            assert(texts_of(parts@).take(k + 1).last() == parts@[k as int]@);
        }
        if k > 0 {
            append_text(&mut text, separator);
        } else {
            proof {
                assert(texts_of(parts@).take(1) =~= seq![parts@[0]@]);
            }
        }
        append_chars(&mut text, &parts[k]);
        k = k + 1;
    }
    proof {
        assert(texts_of(parts@).take(k as int) =~= texts_of(parts@));
    }
    text
}

/// The decimal digits of a number.
fn decimal_chars(value: u64) -> (chars: Vec<char>)
    ensures
        chars@ == decimal_text(value),
{
    let text = crate::translator::expression::number_text(value);
    crate::io::chars_of(text.as_str())
}

/// The decimal text of a signed 32-bit value.
fn signed_chars(value: i32) -> (chars: Vec<char>)
    ensures
        chars@ == signed_text(value),
{
    if value < 0 {
        let magnitude = (-(value as i64)) as u64;
        let mut chars: Vec<char> = Vec::new();
        chars.push('-');
        let digits = decimal_chars(magnitude);
        append_chars(&mut chars, &digits);
        proof {
            assert(seq!['-'] =~= Seq::<char>::empty().push('-'));
        }
        chars
    } else {
        decimal_chars(value as u64)
    }
}

/// The mnemonic of an operation code.
fn operator_name(code: u8) -> (name: &'static str)
    ensures
        name@ == operator_text(code),
{
    match code {
        0x00 => "HLT",
        0x01 => "MOV",
        0x02 => "MOVA",
        0x03 => "CMP",
        0x10 => "ADD",
        0x11 => "ADC",
        0x12 => "SUB",
        0x13 => "MUL",
        0x14 => "DIV",
        0x15 => "REM",
        0x16 => "AND",
        0x17 => "OR",
        0x18 => "XOR",
        0x19 => "NOT",
        0x1A => "LSL",
        0x1B => "LSR",
        0x1C => "ASL",
        0x1D => "ASR",
        0x20 => "JMP",
        0x21 => "CALL",
        0x22 => "RET",
        0x23 => "INTRET",
        0x30 => "BEQ",
        0x31 => "BNE",
        0x32 => "BGT",
        0x33 => "BGE",
        0x34 => "BLT",
        0x35 => "BLE",
        0x36 => "BCS",
        0x37 => "BCC",
        0x38 => "BVS",
        0x39 => "BVC",
        0x40 => "VADD",
        0x42 => "VSUB",
        0x43 => "VMUL",
        0x44 => "VDIV",
        0x45 => "VREM",
        0x46 => "VAND",
        0x47 => "VOR",
        0x48 => "VXOR",
        0x50 => "IN",
        0x51 => "OUT",
        0x52 => "EI",
        0x53 => "DI",
        0x60 => "VCMPBEQ",
        0x61 => "VCMPBNE",
        0x62 => "VCMPBGT",
        0x63 => "VCMPBGE",
        0x64 => "VCMPBLT",
        0x65 => "VCMPBLE",
        0x66 => "VCMPBCS",
        0x67 => "VCMPBCC",
        0x68 => "VCMPBVS",
        0x69 => "VCMPBVC",
        _ => "???",
    }
}

/// An operand in assembler notation or, with `transfer`, in register-transfer notation.
fn operand_chars(operand: DecodedOperand, transfer: bool) -> (chars: Vec<char>)
    ensures
        chars@ == if transfer {
            operand_transfer(operand)
        } else {
            operand_mnemonic(operand)
        },
{
    let mut chars: Vec<char> = Vec::new();
    match operand {
        DecodedOperand::Immediate(imm) => {
            if !transfer {
                append_text(&mut chars, "#");
            }
            append_chars(&mut chars, &signed_chars(imm as i32));
        },
        DecodedOperand::DataRegister(r) => {
            append_text(&mut chars, "D");
            append_chars(&mut chars, &decimal_chars(r as u64));
        },
        DecodedOperand::AddressRegister(r) => {
            append_text(&mut chars, "A");
            append_chars(&mut chars, &decimal_chars(r as u64));
        },
        DecodedOperand::Indirect(r) => {
            append_text(&mut chars, if transfer { "MEM[A" } else { "(A" });
            append_chars(&mut chars, &decimal_chars(r as u64));
            append_text(&mut chars, if transfer { "]" } else { ")" });
        },
        DecodedOperand::IndirectPostIncrement(r) => {
            append_text(&mut chars, if transfer { "MEM[A" } else { "(A" });
            append_chars(&mut chars, &decimal_chars(r as u64));
            append_text(&mut chars, if transfer { "++]" } else { ")+" });
        },
        DecodedOperand::IndirectPreDecrement(r) => {
            append_text(&mut chars, if transfer { "MEM[--A" } else { "-(A" });
            append_chars(&mut chars, &decimal_chars(r as u64));
            append_text(&mut chars, if transfer { "]" } else { ")" });
        },
        DecodedOperand::IndirectOffsetImmediate(r, imm) => {
            append_text(&mut chars, if transfer { "MEM[A" } else { "(A" });
            append_chars(&mut chars, &decimal_chars(r as u64));
            append_text(&mut chars, if transfer { " + " } else { ":#" });
            append_chars(&mut chars, &signed_chars(imm as i32));
            append_text(&mut chars, if transfer { "]" } else { ")" });
        },
        DecodedOperand::IndirectOffsetRegister(r, d) => {
            append_text(&mut chars, if transfer { "MEM[A" } else { "(A" });
            append_chars(&mut chars, &decimal_chars(r as u64));
            append_text(&mut chars, if transfer { " + D" } else { ":D" });
            append_chars(&mut chars, &decimal_chars(d as u64));
            append_text(&mut chars, if transfer { "]" } else { ")" });
        },
        DecodedOperand::IndirectDirect(imm) => {
            append_text(&mut chars, if transfer { "MEM[" } else { "(#" });
            append_chars(&mut chars, &decimal_chars(imm as u64));
            append_text(&mut chars, if transfer { "]" } else { ")" });
        },
    }
    proof {
        assert(chars@ =~= if transfer {
            operand_transfer(operand)
        } else {
            operand_mnemonic(operand)
        });
    }
    chars
}

/// The description of an instruction whose operation code satisfies `code <= 0x23`.
fn scalar_description(code: u8, d: &Vec<Vec<char>>) -> (chars: Vec<char>)
    requires
        code <= 0x23,
        d@.len() >= arguments_needed(code),
    ensures
        chars@ == description_text(code, texts_of(d@)),
{
    let mut chars: Vec<char> = Vec::new();
    match code {
        0x00 => {
            append_text(&mut chars, "Остановка выполнения процессора");
        },
        0x01 | 0x02 => {
            append_chars(&mut chars, &d[1]);
            append_text(&mut chars, " <- ");
            append_chars(&mut chars, &d[0]);
        },
        0x03 => {
            append_text(&mut chars, "NZCV <- ");
            append_chars(&mut chars, &d[0]);
            append_text(&mut chars, " - ");
            append_chars(&mut chars, &d[1]);
        },
        0x10 => {
            append_chars(&mut chars, &d[2]);
            append_text(&mut chars, " <- ");
            append_chars(&mut chars, &d[0]);
            append_text(&mut chars, " + ");
            append_chars(&mut chars, &d[1]);
        },
        0x11 => {
            append_chars(&mut chars, &d[2]);
            append_text(&mut chars, " <- ");
            append_chars(&mut chars, &d[0]);
            append_text(&mut chars, " + ");
            append_chars(&mut chars, &d[1]);
            append_text(&mut chars, " + C");
        },
        0x12 => {
            append_chars(&mut chars, &d[2]);
            append_text(&mut chars, " <- ");
            append_chars(&mut chars, &d[0]);
            append_text(&mut chars, " - ");
            append_chars(&mut chars, &d[1]);
        },
        0x13 => {
            append_chars(&mut chars, &d[2]);
            append_text(&mut chars, " <- ");
            append_chars(&mut chars, &d[0]);
            append_text(&mut chars, " * ");
            append_chars(&mut chars, &d[1]);
        },
        0x14 => {
            append_chars(&mut chars, &d[2]);
            append_text(&mut chars, " <- ");
            append_chars(&mut chars, &d[0]);
            append_text(&mut chars, " / ");
            append_chars(&mut chars, &d[1]);
        },
        0x15 => {
            append_chars(&mut chars, &d[2]);
            append_text(&mut chars, " <- ");
            append_chars(&mut chars, &d[0]);
            append_text(&mut chars, " % ");
            append_chars(&mut chars, &d[1]);
        },
        0x16 => {
            append_chars(&mut chars, &d[2]);
            append_text(&mut chars, " <- ");
            append_chars(&mut chars, &d[0]);
            append_text(&mut chars, " & ");
            append_chars(&mut chars, &d[1]);
        },
        0x17 => {
            append_chars(&mut chars, &d[2]);
            append_text(&mut chars, " <- ");
            append_chars(&mut chars, &d[0]);
            append_text(&mut chars, " | ");
            append_chars(&mut chars, &d[1]);
        },
        0x18 => {
            append_chars(&mut chars, &d[2]);
            append_text(&mut chars, " <- ");
            append_chars(&mut chars, &d[0]);
            append_text(&mut chars, " ^ ");
            append_chars(&mut chars, &d[1]);
        },
        0x19 => {
            append_chars(&mut chars, &d[1]);
            append_text(&mut chars, " <- !");
            append_chars(&mut chars, &d[0]);
        },
        0x1A => {
            append_chars(&mut chars, &d[2]);
            append_text(&mut chars, " <- ");
            append_chars(&mut chars, &d[0]);
            append_text(&mut chars, " << ");
            append_chars(&mut chars, &d[1]);
        },
        0x1B => {
            append_chars(&mut chars, &d[2]);
            append_text(&mut chars, " <- ");
            append_chars(&mut chars, &d[0]);
            append_text(&mut chars, " >> ");
            append_chars(&mut chars, &d[1]);
        },
        0x1C => {
            append_chars(&mut chars, &d[2]);
            append_text(&mut chars, " <- ");
            append_chars(&mut chars, &d[0]);
            append_text(&mut chars, " << ");
            append_chars(&mut chars, &d[1]);
        },
        0x1D => {
            append_chars(&mut chars, &d[2]);
            append_text(&mut chars, " <- ");
            append_chars(&mut chars, &d[0]);
            append_text(&mut chars, " >> ");
            append_chars(&mut chars, &d[1]);
        },
        0x20 => {
            append_text(&mut chars, "PC <- ");
            append_chars(&mut chars, &d[0]);
        },
        0x21 => {
            append_text(&mut chars, "MEM[--A7] <- PC + 1; PC <- ");
            append_chars(&mut chars, &d[0]);
        },
        0x22 => {
            append_text(&mut chars, "PC <- MEM[A7++]");
        },
        0x23 => {
            append_text(&mut chars, "PC <- MEM[A7++]; NZCV <- MEM[A7++]; INT <- 0");
        },
        _ => {
            append_text(&mut chars, "Неизвестная инструкция");
        },
    }
    proof {
        assert(chars@ =~= description_text(code, texts_of(d@)));
    }
    chars
}

/// The description of an instruction whose operation code satisfies `0x30 <= code <= 0x39`.
fn branch_description(code: u8, d: &Vec<Vec<char>>) -> (chars: Vec<char>)
    requires
        0x30 <= code <= 0x39,
        d@.len() >= arguments_needed(code),
    ensures
        chars@ == description_text(code, texts_of(d@)),
{
    let mut chars: Vec<char> = Vec::new();
    match code {
        0x30 => {
            append_text(&mut chars, "if Z == 1 then PC <- ");
            append_chars(&mut chars, &d[0]);
        },
        0x31 => {
            append_text(&mut chars, "if Z == 0 then PC <- ");
            append_chars(&mut chars, &d[0]);
        },
        0x32 => {
            append_text(&mut chars, "if Z == 0 and N == O then PC <- ");
            append_chars(&mut chars, &d[0]);
        },
        0x33 => {
            append_text(&mut chars, "if N == 0 then PC <- ");
            append_chars(&mut chars, &d[0]);
        },
        0x34 => {
            append_text(&mut chars, "if N == 1 then PC <- ");
            append_chars(&mut chars, &d[0]);
        },
        0x35 => {
            append_text(&mut chars, "if Z == 1 or N == 0 then PC <- ");
            append_chars(&mut chars, &d[0]);
        },
        0x36 => {
            append_text(&mut chars, "if C == 1 then PC <- ");
            append_chars(&mut chars, &d[0]);
        },
        0x37 => {
            append_text(&mut chars, "if C == 0 then PC <- ");
            append_chars(&mut chars, &d[0]);
        },
        0x38 => {
            append_text(&mut chars, "if V == 1 then PC <- ");
            append_chars(&mut chars, &d[0]);
        },
        0x39 => {
            append_text(&mut chars, "if V == 0 then PC <- ");
            append_chars(&mut chars, &d[0]);
        },
        _ => {
            append_text(&mut chars, "Неизвестная инструкция");
        },
    }
    proof {
        assert(chars@ =~= description_text(code, texts_of(d@)));
    }
    chars
}

/// The description of an instruction whose operation code satisfies `0x40 <= code`.
fn vector_description(code: u8, d: &Vec<Vec<char>>) -> (chars: Vec<char>)
    requires
        0x40 <= code,
        d@.len() >= arguments_needed(code),
    ensures
        chars@ == description_text(code, texts_of(d@)),
{
    let mut chars: Vec<char> = Vec::new();
    match code {
        0x40 => {
            append_text(&mut chars, "for i in 0..4 do MEM[");
            append_chars(&mut chars, &d[2]);
            append_text(&mut chars, " + i] <- MEM[");
            append_chars(&mut chars, &d[0]);
            append_text(&mut chars, " + i] ");
            append_text(&mut chars, "+");
            append_text(&mut chars, " MEM[");
            append_chars(&mut chars, &d[1]);
            append_text(&mut chars, " + i]");
        },
        0x42 => {
            append_text(&mut chars, "for i in 0..4 do MEM[");
            append_chars(&mut chars, &d[2]);
            append_text(&mut chars, " + i] <- MEM[");
            append_chars(&mut chars, &d[0]);
            append_text(&mut chars, " + i] ");
            append_text(&mut chars, "-");
            append_text(&mut chars, " MEM[");
            append_chars(&mut chars, &d[1]);
            append_text(&mut chars, " + i]");
        },
        0x43 => {
            append_text(&mut chars, "for i in 0..4 do MEM[");
            append_chars(&mut chars, &d[2]);
            append_text(&mut chars, " + i] <- MEM[");
            append_chars(&mut chars, &d[0]);
            append_text(&mut chars, " + i] ");
            append_text(&mut chars, "*");
            append_text(&mut chars, " MEM[");
            append_chars(&mut chars, &d[1]);
            append_text(&mut chars, " + i]");
        },
        0x44 => {
            append_text(&mut chars, "for i in 0..4 do MEM[");
            append_chars(&mut chars, &d[2]);
            append_text(&mut chars, " + i] <- MEM[");
            append_chars(&mut chars, &d[0]);
            append_text(&mut chars, " + i] ");
            append_text(&mut chars, "/");
            append_text(&mut chars, " MEM[");
            append_chars(&mut chars, &d[1]);
            append_text(&mut chars, " + i]");
        },
        0x45 => {
            append_text(&mut chars, "for i in 0..4 do MEM[");
            append_chars(&mut chars, &d[2]);
            append_text(&mut chars, " + i] <- MEM[");
            append_chars(&mut chars, &d[0]);
            append_text(&mut chars, " + i] ");
            append_text(&mut chars, "%");
            append_text(&mut chars, " MEM[");
            append_chars(&mut chars, &d[1]);
            append_text(&mut chars, " + i]");
        },
        0x46 => {
            append_text(&mut chars, "for i in 0..4 do MEM[");
            append_chars(&mut chars, &d[2]);
            append_text(&mut chars, " + i] <- MEM[");
            append_chars(&mut chars, &d[0]);
            append_text(&mut chars, " + i] ");
            append_text(&mut chars, "&");
            append_text(&mut chars, " MEM[");
            append_chars(&mut chars, &d[1]);
            append_text(&mut chars, " + i]");
        },
        0x47 => {
            append_text(&mut chars, "for i in 0..4 do MEM[");
            append_chars(&mut chars, &d[2]);
            append_text(&mut chars, " + i] <- MEM[");
            append_chars(&mut chars, &d[0]);
            append_text(&mut chars, " + i] ");
            append_text(&mut chars, "|");
            append_text(&mut chars, " MEM[");
            append_chars(&mut chars, &d[1]);
            append_text(&mut chars, " + i]");
        },
        0x48 => {
            append_text(&mut chars, "for i in 0..4 do MEM[");
            append_chars(&mut chars, &d[2]);
            append_text(&mut chars, " + i] <- MEM[");
            append_chars(&mut chars, &d[0]);
            append_text(&mut chars, " + i] ");
            append_text(&mut chars, "^");
            append_text(&mut chars, " MEM[");
            append_chars(&mut chars, &d[1]);
            append_text(&mut chars, " + i]");
        },
        0x50 => {
            append_chars(&mut chars, &d[1]);
            append_text(&mut chars, " <- IO[");
            append_chars(&mut chars, &d[0]);
            append_text(&mut chars, "]");
        },
        0x51 => {
            append_text(&mut chars, "IO[");
            append_chars(&mut chars, &d[0]);
            append_text(&mut chars, "] <- ");
            append_chars(&mut chars, &d[1]);
        },
        0x52 => {
            append_text(&mut chars, "IF <- 1; Включает прерывания");
        },
        0x53 => {
            append_text(&mut chars, "IF <- 0; Выключает прерывания");
        },
        0x60 => {
            append_text(&mut chars, "for i in 0..4 do MEM[");
            append_chars(&mut chars, &d[2]);
            append_text(&mut chars, " + i] <- MEM[");
            append_chars(&mut chars, &d[0]);
            append_text(&mut chars, " + i] ");
            append_text(&mut chars, "==");
            append_text(&mut chars, " MEM[");
            append_chars(&mut chars, &d[1]);
            append_text(&mut chars, " + i] ? TRUE_MASK : 0x0");
        },
        0x61 => {
            append_text(&mut chars, "for i in 0..4 do MEM[");
            append_chars(&mut chars, &d[2]);
            append_text(&mut chars, " + i] <- MEM[");
            append_chars(&mut chars, &d[0]);
            append_text(&mut chars, " + i] ");
            append_text(&mut chars, "!=");
            append_text(&mut chars, " MEM[");
            append_chars(&mut chars, &d[1]);
            append_text(&mut chars, " + i] ? TRUE_MASK : 0x0");
        },
        0x62 => {
            append_text(&mut chars, "for i in 0..4 do MEM[");
            append_chars(&mut chars, &d[2]);
            append_text(&mut chars, " + i] <- MEM[");
            append_chars(&mut chars, &d[0]);
            append_text(&mut chars, " + i] ");
            append_text(&mut chars, ">");
            append_text(&mut chars, " MEM[");
            append_chars(&mut chars, &d[1]);
            append_text(&mut chars, " + i] ? TRUE_MASK : 0x0");
        },
        0x63 => {
            append_text(&mut chars, "for i in 0..4 do MEM[");
            append_chars(&mut chars, &d[2]);
            append_text(&mut chars, " + i] <- MEM[");
            append_chars(&mut chars, &d[0]);
            append_text(&mut chars, " + i] ");
            append_text(&mut chars, ">=");
            append_text(&mut chars, " MEM[");
            append_chars(&mut chars, &d[1]);
            append_text(&mut chars, " + i] ? TRUE_MASK : 0x0");
        },
        0x64 => {
            append_text(&mut chars, "for i in 0..4 do MEM[");
            append_chars(&mut chars, &d[2]);
            append_text(&mut chars, " + i] <- MEM[");
            append_chars(&mut chars, &d[0]);
            append_text(&mut chars, " + i] ");
            append_text(&mut chars, "<");
            append_text(&mut chars, " MEM[");
            append_chars(&mut chars, &d[1]);
            append_text(&mut chars, " + i] ? TRUE_MASK : 0x0");
        },
        0x65 => {
            append_text(&mut chars, "for i in 0..4 do MEM[");
            append_chars(&mut chars, &d[2]);
            append_text(&mut chars, " + i] <- MEM[");
            append_chars(&mut chars, &d[0]);
            append_text(&mut chars, " + i] ");
            append_text(&mut chars, "<=");
            append_text(&mut chars, " MEM[");
            append_chars(&mut chars, &d[1]);
            append_text(&mut chars, " + i] ? TRUE_MASK : 0x0");
        },
        0x66 => {
            append_text(&mut chars, "for i in 0..4 do MEM[");
            append_chars(&mut chars, &d[2]);
            append_text(&mut chars, " + i] <- ");
            append_text(&mut chars, "C == 1");
            append_text(&mut chars, " ? TRUE_MASK : 0x0");
        },
        0x67 => {
            append_text(&mut chars, "for i in 0..4 do MEM[");
            append_chars(&mut chars, &d[2]);
            append_text(&mut chars, " + i] <- ");
            append_text(&mut chars, "C == 0");
            append_text(&mut chars, " ? TRUE_MASK : 0x0");
        },
        0x68 => {
            append_text(&mut chars, "for i in 0..4 do MEM[");
            append_chars(&mut chars, &d[2]);
            append_text(&mut chars, " + i] <- ");
            append_text(&mut chars, "V == 1");
            append_text(&mut chars, " ? TRUE_MASK : 0x0");
        },
        0x69 => {
            append_text(&mut chars, "for i in 0..4 do MEM[");
            append_chars(&mut chars, &d[2]);
            append_text(&mut chars, " + i] <- ");
            append_text(&mut chars, "V == 0");
            append_text(&mut chars, " ? TRUE_MASK : 0x0");
        },
        _ => {
            append_text(&mut chars, "Неизвестная инструкция");
        },
    }
    proof {
        assert(chars@ =~= description_text(code, texts_of(d@)));
    }
    chars
}

/// What an instruction does, in register-transfer notation over its argument texts.
fn description_chars(code: u8, d: &Vec<Vec<char>>) -> (chars: Vec<char>)
    requires
        d@.len() >= arguments_needed(code),
    ensures
        chars@ == description_text(code, texts_of(d@)),
{
    if code <= 0x23 {
        scalar_description(code, d)
    } else if 0x30 <= code && code <= 0x39 {
        branch_description(code, d)
    } else if 0x40 <= code {
        vector_description(code, d)
    } else {
        let chars = text_chars("Неизвестная инструкция");
        chars
    }
}

/// The argument texts of an instruction.
fn argument_chars(record: &DecodedInstruction, transfer: bool) -> (texts: Vec<Vec<char>>)
    ensures
        texts_of(texts@) == argument_texts(*record, transfer),
{
    let mut texts: Vec<Vec<char>> = Vec::new();
    match record.target {
        Some(t) => {
            let mut label = text_chars("0x");
            append_chars(&mut label, &hex_chars(t));
            texts.push(label);
        },
        None => {},
    }
    match record.port {
        Some(p) => {
            let mut port = if transfer {
                Vec::new()
            } else {
                text_chars("#")
            };
            append_chars(&mut port, &decimal_chars(p as u64));
            texts.push(port);
        },
        None => {},
    }
    let ghost head = texts_of(texts@);
    proof {
        let target = match record.target {
            Some(t) => seq!["0x"@ + hex_text(t as nat)],
            None => Seq::<Seq<char>>::empty(),
        };
        let port = match record.port {
            Some(p) => seq![
                if transfer {
                    small_text(p)
                } else {
                    "#"@ + small_text(p)
                },
            ],
            None => Seq::<Seq<char>>::empty(),
        };
        assert(head =~= target + port);
    }
    let mut k: usize = 0;
    while k < record.operands.len()
        invariant
            k <= record.operands@.len(),
            texts@.len() == head.len() + k,
            forall|i: int| 0 <= i < head.len() ==> #[trigger] texts@[i]@ == head[i],
            forall|j: int|
                0 <= j < k ==> #[trigger] texts@[head.len() + j]@ == operand_text(
                    record.operands@[j],
                    transfer,
                ),
        decreases record.operands@.len() - k,
    {
        let operand = operand_chars(record.operands[k], transfer);
        texts.push(operand);
        proof {
            assert(texts@[head.len() + k]@ == operand_text(record.operands@[k as int], transfer));
        }
        k = k + 1;
    }
    proof {
        let whole = argument_texts(*record, transfer);
        assert forall|i: int| 0 <= i < whole.len() implies #[trigger] texts_of(texts@)[i] == whole[i] by {
            if i >= head.len() {
                let j = i - head.len();
                assert(texts@[head.len() + j]@ == operand_text(record.operands@[j], transfer));
            }
        }
        assert(texts_of(texts@) =~= whole);
    }
    texts
}

/// Whether an instruction's mnemonic carries its width.
fn is_sized(code: u8) -> (carries: bool)
    ensures
        carries == sized(code),
{
    (0x01 <= code && code <= 0x03) || (0x10 <= code && code <= 0x1D)
}

/// An instruction in assembler notation.
fn mnemonic_chars(record: &DecodedInstruction) -> (chars: Vec<char>)
    ensures
        chars@ == mnemonic_text(*record),
{
    let arguments = argument_chars(record, false);
    let mut chars = text_chars(operator_name(record.opcode));
    if arguments.len() == 0 {
        return chars;
    }
    let ghost name = chars@;
    if is_sized(record.opcode) {
        append_text(&mut chars, if record.long { ".l" } else { ".b" });
    } else {
        proof {
            assert(name + Seq::<char>::empty() =~= name);
        }
    }
    append_text(&mut chars, " ");
    append_chars(&mut chars, &join_chars(&arguments, ", "));
    chars
}

/// The hexadecimal texts of the words from index `from` to index `to`.
fn word_chars(program: &[u32], from: usize, to: usize) -> (texts: Vec<Vec<char>>)
    requires
        from <= to + 1,
        to + 1 < usize::MAX,
    ensures
        texts_of(texts@) == word_texts(program@, from as int, to as int),
{
    let mut texts: Vec<Vec<char>> = Vec::new();
    let mut j: usize = from;
    proof {
        assert(texts_of(texts@) =~= word_texts(program@, from as int, from - 1));
    }
    while j <= to
        invariant
            from <= j <= to + 1,
            to + 1 < usize::MAX,
            texts_of(texts@) == word_texts(program@, from as int, j - 1),
        decreases to + 1 - j,
    {
        let ghost before = texts_of(texts@);
        if j < program.len() {
            let word = zero_pad(hex_chars(program[j] as u64), 8);
            texts.push(word);
            proof {
                assert(texts_of(texts@) =~= before.push(word@));
            }
        }
        j = j + 1;
    }
    texts
}

/// An instruction never ends before it starts, and takes at most three words after the
/// instruction word.
pub proof fn lemma_record_extent(record: DecodedInstruction, program: Seq<u32>)
    requires
        record.read_from(program),
    ensures
        record.start <= record.end <= record.start + 3,
{
    let start = record.start as int;
    lemma_operands_extent(program, start, 1, 2);
    lemma_operands_extent(program, start, 2, 1);
    lemma_operands_extent(program, start, 1, 3);
}

/// The listing line of an instruction.
fn listing_line_chars(program: &[u32], record: &DecodedInstruction) -> (line: Vec<char>)
    requires
        record.read_from(program@),
        program@.len() + 8 < usize::MAX,
    ensures
        line@ == listing_line(program@, *record),
{
    proof {
        lemma_record_extent(*record, program@);
        lemma_enough_arguments(*record, program@, true);
    }
    let mut line = text_chars("0x");
    append_chars(&mut line, &zero_pad(hex_chars(record.start as u64), 4));
    append_text(&mut line, " | ");
    let words = join_chars(&word_chars(program, record.start, record.end), " ");
    append_chars(&mut line, &space_pad(words, 35));
    append_text(&mut line, " | ");
    append_chars(&mut line, &space_pad(mnemonic_chars(record), 35));
    append_text(&mut line, " | ");
    let arguments = argument_chars(record, true);
    append_chars(&mut line, &description_chars(record.opcode, &arguments));
    line
}

/// The listing of a program: one line per instruction, with its address, its words in
/// hexadecimal, its assembler notation and what it does.
pub fn disassemble(program: &[u32]) -> (lines: Vec<String>)
    requires
        program@.len() + 8 < usize::MAX,
    ensures
        exists|records: Seq<DecodedInstruction>|
            #![trigger walks(program@, records)]
            walks(program@, records) && lines@.len() == records.len() && forall|k: int|
                0 <= k < records.len() ==> #[trigger] lines@[k]@ == listing_line(program@, records[k]),
{
    let records = decode_program(program);
    let mut lines: Vec<String> = Vec::new();
    let mut k: usize = 0;
    while k < records.len()
        invariant
            k <= records@.len(),
            program@.len() + 8 < usize::MAX,
            walks(program@, records@),
            lines@.len() == k,
            forall|j: int| 0 <= j < k ==> #[trigger] lines@[j]@ == listing_line(program@, records@[j]),
        decreases records@.len() - k,
    {
        proof {
            assert(records@[k as int].read_from(program@));
        }
        let line = listing_line_chars(program, &records[k]);
        lines.push(crate::translator::expression::text_of(line.as_slice()));
        k = k + 1;
    }
    lines
}

/// The infix symbol by which a listing writes an ALU operation.
pub open spec fn alu_symbol(operator: AluOperator) -> Seq<char> {
    match operator {
        AluOperator::Add | AluOperator::Adc => "+"@,
        AluOperator::Sub => "-"@,
        AluOperator::Mul => "*"@,
        AluOperator::Div => "/"@,
        AluOperator::Rem => "%"@,
        AluOperator::And => "&"@,
        AluOperator::Or => "|"@,
        AluOperator::Xor => "^"@,
        AluOperator::Lsl | AluOperator::Asl => "<<"@,
        AluOperator::Lsr | AluOperator::Asr => ">>"@,
        _ => seq![],
    }
}

/// The description of an instruction with two sources and a destination reads as the
/// machine computes it: the destination (the third operand) receives the first source
/// combined with the second, in that order, by the instruction's ALU operation; the
/// control unit feeds the first source to the left ALU input and the second to the right
/// one, so for SUB the destination gets the first source minus the second.
pub proof fn lemma_three_operand_description(code: u8, d: Seq<Seq<char>>, operator: AluOperator)
    requires
        operator_for_code(code) matches Some(o) && three_operand_operation(o) == Some(operator),
        operator != AluOperator::Adc,
        d.len() >= 3,
    ensures
        description_text(code, d) == d[2] + " <- "@ + d[0] + " "@ + alu_symbol(operator) + " "@
            + d[1],
{
    reveal_strlit(" <- ");
    reveal_strlit(" ");
    reveal_strlit(" + ");
    reveal_strlit(" - ");
    reveal_strlit(" * ");
    reveal_strlit(" / ");
    reveal_strlit(" % ");
    reveal_strlit(" & ");
    reveal_strlit(" | ");
    reveal_strlit(" ^ ");
    reveal_strlit(" << ");
    reveal_strlit(" >> ");
    reveal_strlit("+");
    reveal_strlit("-");
    reveal_strlit("*");
    reveal_strlit("/");
    reveal_strlit("%");
    reveal_strlit("&");
    reveal_strlit("|");
    reveal_strlit("^");
    reveal_strlit("<<");
    reveal_strlit(">>");
    let symbol = alu_symbol(operator);
    assert(" "@ + symbol + " "@ =~= seq![' '] + symbol + seq![' ']);
    assert(d[2] + " <- "@ + d[0] + " "@ + symbol + " "@ + d[1] =~= d[2] + " <- "@ + d[0] + (" "@
        + symbol + " "@) + d[1]);
}

} // verus!
