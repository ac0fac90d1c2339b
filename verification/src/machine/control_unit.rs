use crate::isa::{Mode, Operand, Operator, WordSize};
use crate::machine::alu::{alu_outcome, flags_after, signed, word_modulus, wrap, Alu, AluOperator};
use crate::machine::data_path::{
    AluInputSelector, BranchSelector, DataPath, DataSelector, ExternalSelector, PostModeSelector,
    PreModeSelector, VectorModeSelector, WriteDataSelector, WriteSelector,
};
use crate::machine::instruction_parser::{operand_of, operator_for_code, opcode_of, word_size_of, InstructionParser};
use crate::machine::io::interrupt_pending;
use crate::machine::nzcv::{packed_flags, unpacked_flags, Nzcv};
use crate::machine::data_memory::VectorWord;
use crate::machine::data_path::{data_memory_words, merge_part, width_mask};
use crate::machine::program_memory::ProgramMemory;
use crate::machine::vector_alu::{lane_operator, VectorAluOperator};
use crate::translator::common::Address;
use vstd::prelude::*;

verus! {

/// Which ALU input an operand is routed to.
#[derive(Clone, Copy, PartialEq, Eq, Structural)]
pub enum AluInput {
    Left,
    Right,
    Nothing,
}

/// Where the program counter takes its next value from.
#[derive(Clone, Copy, PartialEq, Eq, Structural)]
pub enum PcSelector {
    NextWord,
    ByAddress,
    ByDataPath,
    ByInterrupt,
}

/// Whether the program counter output carries the current or the next address.
#[derive(Clone, Copy, PartialEq, Eq, Structural)]
pub enum OutputPcSelector {
    Current,
    Next,
}

/// What the control unit puts on its output to the data path.
#[derive(Clone, Copy, PartialEq, Eq, Structural)]
pub enum OutputSelector {
    Memory,
    PC,
}

/// The phase of the control unit within an instruction.
#[derive(Clone, Copy, PartialEq, Eq, Structural)]
pub enum ExecutionState {
    Start,
    Execute(u8),
    Done,
    Stop,
}

/// Whether an operand is latched in a buffer or used straight from the bus.
#[derive(Clone, Copy, PartialEq, Eq, Structural)]
pub enum PrepareMode {
    Register,
    Immediate,
}

/// The conditions under which the processor cannot go on; the machine stops on them.
#[derive(Clone, Copy, PartialEq, Eq, Structural)]
pub enum MachineFault {
    UnknownOperator,
    ProgramAddressOutOfRange,
    DataAddressOutOfRange,
    ImmediateDestination,
    MissingInterruptVector,
    AddressOverflow,
    TickOverflow,
    InvalidStep,
    ProgramTooLarge,
}

/// The record of one executed instruction: when it ran, where, and what it was.
pub struct InstructionTrace {
    pub start_tick: u64,
    pub end_tick: u64,
    pub pc: Address,
    pub opcode: String,
    pub operands: Vec<String>,
    pub events: Vec<String>,
}

impl InstructionTrace {
    pub fn new(tick: u64, pc: Address, opcode: String) -> (trace: Self)
        ensures
            trace.start_tick == tick,
            trace.end_tick == tick,
            trace.pc == pc,
            trace.opcode == opcode,
            trace.operands@.len() == 0,
            trace.events@.len() == 0,
    {
        Self {
            start_tick: tick,
            end_tick: tick,
            pc,
            opcode,
            operands: Vec::new(),
            events: Vec::new(),
        }
    }

    pub fn finish(&mut self, tick: u64)
        ensures
            final(self).end_tick == tick,
            final(self).start_tick == old(self).start_tick,
            final(self).pc == old(self).pc,
            final(self).opcode == old(self).opcode,
            final(self).operands == old(self).operands,
            final(self).events == old(self).events,
    {
        self.end_tick = tick;
    }
}

/// The number of words of program memory.
pub open spec fn program_words() -> nat {
    100000
}

/// The rank of a phase in the measure that each step decreases.
pub open spec fn state_rank(state: ExecutionState) -> int {
    match state {
        ExecutionState::Stop => 0,
        ExecutionState::Execute(_) => 1,
        ExecutionState::Start => 2,
        ExecutionState::Done => 3,
    }
}

/// The operand byte `byte` (0 for the most significant) of an instruction word.
pub open spec fn instruction_byte(ir: u32, byte: u8) -> u8 {
    ((ir >> (((3 - byte) * 8) as u32)) & 0xff) as u8
}

/// The 56-bit target address of a branch: the low 24 bits of the instruction word above the
/// 32 bits of the word that follows it.
pub open spec fn branch_address(ir: u32, next_word: u32) -> u64 {
    (((ir & 0x00ff_ffff) as u64) << 32u64) | (next_word as u64)
}

/// The data path after `value` is put on an ALU input side, and latched in that side's
/// buffer where asked.
pub open spec fn routed(data_path: DataPath, input: AluInput, value: u64, mode: PrepareMode) -> DataPath {
    match input {
        AluInput::Left => DataPath {
            left_data: value,
            left_buffer: if mode == PrepareMode::Register {
                value
            } else {
                data_path.left_buffer
            },
            ..data_path
        },
        AluInput::Right => DataPath {
            right_data: value,
            right_buffer: if mode == PrepareMode::Register {
                value
            } else {
                data_path.right_buffer
            },
            ..data_path
        },
        AluInput::Nothing => data_path,
    }
}

/// The data path after the ALU passes its left bus through: the left input and the output
/// take the value on the left bus, and the flags follow that value.
pub open spec fn passed_left(data_path: DataPath) -> DataPath {
    DataPath {
        left_alu_input: data_path.left_data,
        alu_output: data_path.left_data,
        alu: Alu {
            nzcv: flags_after(
                data_path.alu.nzcv,
                alu_outcome(
                    AluOperator::Trl,
                    data_path.left_data,
                    data_path.right_alu_input,
                    data_path.alu.nzcv.carry,
                ),
            ),
        },
        ..data_path
    }
}

/// The vector word of data memory that the data address points into.
pub open spec fn addressed_word(data_path: DataPath) -> VectorWord {
    data_path.data_memory.data@[data_path.data_word_index()]
}

/// The lane of the addressed word that the data address selects, cut to the width.
pub open spec fn addressed_value(data_path: DataPath, word_size: WordSize) -> u64 {
    addressed_word(data_path)@[data_path.data_lane()] & width_mask(word_size)
}

/// The data address that latching the ALU output gives: one less when pre-decrementing.
pub open spec fn next_data_address(data_path: DataPath) -> u64 {
    (data_path.alu_output - data_path.decrement_amount()) as u64
}

/// Whether latching the ALU output as the data address stays in the word range.
pub open spec fn data_address_latchable(data_path: DataPath) -> bool {
    !(data_path.pre_mode_selector == PreModeSelector::Decrement && data_path.alu_output == 0)
}

/// Whether latching the ALU output into an address register, adjusted as the mode selectors
/// say, stays in the word range.
pub open spec fn address_latchable(data_path: DataPath) -> bool {
    let increment = data_path.post_mode_selector == PostModeSelector::Increment;
    let decrement = data_path.pre_mode_selector == PreModeSelector::Decrement;
    !(increment && data_path.alu_output == u64::MAX) && !(decrement && !increment
        && data_path.alu_output == 0)
}

/// The address registers after latching the ALU output, adjusted, into register `register`.
pub open spec fn latched_address_registers(
    data_path: DataPath,
    register: u8,
    word_size: WordSize,
) -> Seq<u64> {
    data_path.address_registers@.update(
        register as int,
        (data_path.address_update(data_path.alu_output) as u64) & width_mask(word_size),
    )
}

/// The data path after a memory operand is read at the data address: the addressed word
/// goes to the memory output and the write buffer, and its selected lane, cut to the width,
/// is routed to an ALU input side.
pub open spec fn loaded(
    data_path: DataPath,
    input: AluInput,
    mode: PrepareMode,
    word_size: WordSize,
) -> DataPath {
    let word = addressed_word(data_path);
    let value = addressed_value(data_path, word_size);
    routed(
        DataPath {
            memory_output: word,
            memory_output_mmux: value,
            write_data_mux: word,
            write_data: word,
            ..data_path
        },
        input,
        value,
        mode,
    )
}

/// The data path once A7 is passed through the ALU, the first half of a stack access.
pub open spec fn stack_pointer_passed(data_path: DataPath) -> DataPath {
    let top = data_path.address_registers@[7];
    passed_left(DataPath { address_registers_mux: top, left_data: top, ..data_path })
}

/// The data path set up to pop the stack: A7 passed through the ALU, to be incremented.
pub open spec fn popping(data_path: DataPath) -> DataPath {
    DataPath {
        post_mode_selector: PostModeSelector::Increment,
        ..stack_pointer_passed(data_path)
    }
}

/// The data path set up to push onto the stack: A7 passed through the ALU, to be decremented.
pub open spec fn pushing(data_path: DataPath) -> DataPath {
    DataPath {
        pre_mode_selector: PreModeSelector::Decrement,
        ..stack_pointer_passed(data_path)
    }
}

/// Whether `after` keeps what operand preparation never touches: the data registers, data
/// memory, I/O, the write buffer and the vector side of the data path.
pub open spec fn keeps_stores(before: DataPath, after: DataPath) -> bool {
    &&& after.data_registers == before.data_registers
    &&& after.data_memory == before.data_memory
    &&& after.io == before.io
    &&& after.write_data == before.write_data
    &&& after.left_vector_input == before.left_vector_input
    &&& after.right_vector_input == before.right_vector_input
    &&& after.vector_output == before.vector_output
    &&& after.vector_output_mux == before.vector_output_mux
    &&& after.vector_alu == before.vector_alu
}

/// Whether an operand lies in data memory, so that its value is read in a later tick.
pub open spec fn in_memory(operand: Operand) -> bool {
    operand.mode == Mode::Indirect || operand.mode == Mode::IndirectPreDecrement
        || operand.mode == Mode::IndirectPostIncrement || operand.mode == Mode::IndirectOffset
        || operand.mode == Mode::IndirectDirect
}

/// The data path after comparing: the ALU subtracts the second operand, on the right bus,
/// from the first, kept in the left buffer, and sets the flags from the difference.
pub open spec fn compared(data_path: DataPath) -> DataPath {
    let outcome = alu_outcome(
        AluOperator::Sub,
        data_path.left_buffer,
        data_path.right_data,
        data_path.alu.nzcv.carry,
    );
    DataPath {
        left_alu_input: data_path.left_buffer,
        right_alu_input: data_path.right_data,
        alu_output: outcome.result,
        alu: Alu { nzcv: flags_after(data_path.alu.nzcv, outcome) },
        ..data_path
    }
}

/// Lane `lane` of a vector result: the vector ALU on the lanes of `left` and of the right
/// vector input, or, for a comparison, all ones where the branch condition holds of that
/// lane's flags and zero where it does not.
pub open spec fn vector_lane(
    data_path: DataPath,
    left: VectorWord,
    operator: VectorAluOperator,
    mode: VectorModeSelector,
    branch: BranchSelector,
    lane: int,
) -> u64 {
    let flags = data_path.vector_alu.block@[lane].nzcv;
    let outcome = alu_outcome(
        lane_operator(operator),
        left@[lane],
        data_path.right_vector_input@[lane],
        flags.carry,
    );
    match mode {
        VectorModeSelector::Alu => outcome.result,
        VectorModeSelector::Decoder => if crate::machine::data_path::condition_holds(
            branch,
            flags_after(flags, outcome),
        ) {
            0xffff_ffff_ffff_ffffu64
        } else {
            0u64
        },
    }
}

/// The vector ALU operation, result selection and lane condition of a vector instruction.
pub open spec fn vector_form(operator: Operator) -> Option<
    (VectorAluOperator, VectorModeSelector, BranchSelector),
> {
    match operator {
        Operator::VAdd => Some((VectorAluOperator::Add, VectorModeSelector::Alu, BranchSelector::Beq)),
        Operator::VSub => Some((VectorAluOperator::Sub, VectorModeSelector::Alu, BranchSelector::Beq)),
        Operator::VMul => Some((VectorAluOperator::Mul, VectorModeSelector::Alu, BranchSelector::Beq)),
        Operator::VDiv => Some((VectorAluOperator::Div, VectorModeSelector::Alu, BranchSelector::Beq)),
        Operator::VRem => Some((VectorAluOperator::Rem, VectorModeSelector::Alu, BranchSelector::Beq)),
        Operator::VAnd => Some((VectorAluOperator::And, VectorModeSelector::Alu, BranchSelector::Beq)),
        Operator::VOr => Some((VectorAluOperator::Or, VectorModeSelector::Alu, BranchSelector::Beq)),
        Operator::VXor => Some((VectorAluOperator::Xor, VectorModeSelector::Alu, BranchSelector::Beq)),
        Operator::VCmpBeq => Some((VectorAluOperator::Sub, VectorModeSelector::Decoder, BranchSelector::Beq)),
        Operator::VCmpBne => Some((VectorAluOperator::Sub, VectorModeSelector::Decoder, BranchSelector::Bne)),
        Operator::VCmpBgt => Some((VectorAluOperator::Sub, VectorModeSelector::Decoder, BranchSelector::Bgt)),
        Operator::VCmpBge => Some((VectorAluOperator::Sub, VectorModeSelector::Decoder, BranchSelector::Bge)),
        Operator::VCmpBlt => Some((VectorAluOperator::Sub, VectorModeSelector::Decoder, BranchSelector::Blt)),
        Operator::VCmpBle => Some((VectorAluOperator::Sub, VectorModeSelector::Decoder, BranchSelector::Ble)),
        Operator::VCmpBcs => Some((VectorAluOperator::Sub, VectorModeSelector::Decoder, BranchSelector::Bcs)),
        Operator::VCmpBcc => Some((VectorAluOperator::Sub, VectorModeSelector::Decoder, BranchSelector::Bcc)),
        Operator::VCmpBvs => Some((VectorAluOperator::Sub, VectorModeSelector::Decoder, BranchSelector::Bvs)),
        Operator::VCmpBvc => Some((VectorAluOperator::Sub, VectorModeSelector::Decoder, BranchSelector::Bvc)),
        _ => None,
    }
}

/// The data path after the ALU runs `operator` on `left` and `right`: the inputs, the
/// output and the flags follow the operation.
pub open spec fn after_alu(data_path: DataPath, operator: AluOperator, left: u64, right: u64) -> DataPath {
    let outcome = alu_outcome(operator, left, right, data_path.alu.nzcv.carry);
    DataPath {
        left_alu_input: left,
        right_alu_input: right,
        alu_output: outcome.result,
        alu: Alu { nzcv: flags_after(data_path.alu.nzcv, outcome) },
        ..data_path
    }
}

/// The ALU operation of an instruction with two sources and a destination.
pub open spec fn three_operand_operation(operator: Operator) -> Option<AluOperator> {
    match operator {
        Operator::Add => Some(AluOperator::Add),
        Operator::Adc => Some(AluOperator::Adc),
        Operator::Sub => Some(AluOperator::Sub),
        Operator::Mul => Some(AluOperator::Mul),
        Operator::Div => Some(AluOperator::Div),
        Operator::Rem => Some(AluOperator::Rem),
        Operator::And => Some(AluOperator::And),
        Operator::Or => Some(AluOperator::Or),
        Operator::Xor => Some(AluOperator::Xor),
        Operator::Lsl => Some(AluOperator::Lsl),
        Operator::Lsr => Some(AluOperator::Lsr),
        Operator::Asl => Some(AluOperator::Asl),
        Operator::Asr => Some(AluOperator::Asr),
        _ => None,
    }
}

/// The microcoded control unit that drives the data path one tick at a time.
pub struct ControlUnit {
    pub instruction_parser: InstructionParser,
    pub data_path: DataPath,
    pub program_memory: ProgramMemory,
    pub pc: Address,
    pub read_data: u32,
    pub ir: u32,
    pub output_pc_mux: u64,
    pub word_size: WordSize,
    pub operator: Operator,
    pub execution_state: ExecutionState,
    pub interrupt_flag: bool,
    pub interrupt_processing: bool,
    pub vector_table: Vec<Option<Address>>,
    pub tick: u64,
    pub fault: Option<MachineFault>,
}

impl ControlUnit {
    /// A measure that every step that does not halt decreases.
    pub open spec fn progress(&self) -> int {
        4 * (u64::MAX - self.tick) + state_rank(self.execution_state)
    }

    /// Whether the machine has stopped.
    pub open spec fn stopped(&self) -> bool {
        self.execution_state == ExecutionState::Stop
    }

    /// A fault always leaves the machine stopped.
    pub open spec fn consistent(&self) -> bool {
        self.fault is Some ==> self.execution_state == ExecutionState::Stop
    }

    /// The operand that byte `byte` of the instruction register describes.
    pub open spec fn operand_in(&self, byte: u8) -> Operand {
        operand_of(instruction_byte(self.ir, byte))
    }

    /// The state with the tick advanced by one.
    pub open spec fn ticked(&self) -> ControlUnit {
        ControlUnit { tick: (self.tick + 1) as u64, ..*self }
    }

    /// What the first micro-step of `JMP` or of a conditional branch does: the word after the
    /// instruction is read, and the program counter takes the branch target when the branch is
    /// taken (always for `JMP`), or moves past that word when it is not.
    pub open spec fn jump_done(&self, final_state: &Self) -> bool {
        let word = self.program_memory.data@[self.pc as int];
        match branch_taken(self.operator, self.data_path.alu.nzcv) {
            Some(taken) => self.pc < self.program_memory.data@.len() && (taken || self.pc
                < u64::MAX) ==> *final_state == (ControlUnit {
                read_data: word,
                pc: if taken {
                    branch_address(self.ir, word)
                } else {
                    (self.pc + 1) as u64
                },
                execution_state: ExecutionState::Done,
                ..*self
            }),
            None => true,
        }
    }

    /// What `EI` and `DI` do in their one micro-step: the interrupt flag is set by `EI` and
    /// cleared by `DI`, and the instruction is done.
    pub open spec fn interrupt_switch_done(&self, final_state: &Self) -> bool {
        (self.operator == Operator::EI || self.operator == Operator::DI) ==> *final_state == (
        ControlUnit {
            interrupt_flag: self.operator == Operator::EI,
            execution_state: ExecutionState::Done,
            ..*self
        })
    }

    fn fail(&mut self, fault: MachineFault)
        ensures
            *final(self) == (ControlUnit {
                fault: Some(fault),
                execution_state: ExecutionState::Stop,
                ..*old(self)
            }),
    {
        self.fault = Some(fault);
        self.execution_state = ExecutionState::Stop;
    }

    fn latch_pc(&mut self, signal: PcSelector) -> (ok: bool)
        requires
            old(self).consistent(),
        ensures
            final(self).tick == old(self).tick,
            final(self).consistent(),
            !ok ==> final(self).fault is Some,
            signal == PcSelector::NextWord ==> (ok == (old(self).pc < u64::MAX)),
            signal == PcSelector::ByAddress ==> ok,
            signal == PcSelector::ByDataPath ==> ok,
            signal == PcSelector::ByInterrupt ==> (ok == (old(self).data_path.io.interrupt_vector
                < old(self).vector_table@.len() && old(self).vector_table@[old(
                self,
            ).data_path.io.interrupt_vector as int] is Some)),
            !ok && signal == PcSelector::NextWord ==> *final(self) == old(self).failed(
                MachineFault::ProgramAddressOutOfRange,
            ),
            !ok && signal == PcSelector::ByInterrupt ==> *final(self) == old(self).failed(
                MachineFault::MissingInterruptVector,
            ),
            ok ==> *final(self) == (ControlUnit {
                pc: match signal {
                    PcSelector::NextWord => (old(self).pc + 1) as u64,
                    PcSelector::ByAddress => branch_address(old(self).ir, old(self).read_data),
                    PcSelector::ByDataPath => old(self).data_path.alu_output,
                    PcSelector::ByInterrupt => old(self).vector_table@[old(
                        self,
                    ).data_path.io.interrupt_vector as int]->0,
                },
                ..*old(self)
            }),
            final(self).data_path == old(self).data_path,
            final(self).ir == old(self).ir,
            final(self).read_data == old(self).read_data,
            final(self).interrupt_flag == old(self).interrupt_flag,
    {
        match signal {
            PcSelector::NextWord => {
                if self.pc == u64::MAX {
                    self.fail(MachineFault::ProgramAddressOutOfRange);
                    return false;
                }
                self.pc = self.pc + 1;
            },
            PcSelector::ByAddress => {
                self.pc = self.assemble_branch_address();
            },
            PcSelector::ByDataPath => {
                self.pc = self.data_path.alu_output;
            },
            PcSelector::ByInterrupt => {
                let vector = self.data_path.io.interrupt_vector as usize;
                if vector >= self.vector_table.len() {
                    self.fail(MachineFault::MissingInterruptVector);
                    return false;
                }
                match self.vector_table[vector] {
                    Some(address) => {
                        self.pc = address;
                    },
                    None => {
                        self.fail(MachineFault::MissingInterruptVector);
                        return false;
                    },
                }
            },
        }
        true
    }

    fn update_read_data(&mut self) -> (ok: bool)
        requires
            old(self).consistent(),
        ensures
            final(self).tick == old(self).tick,
            final(self).consistent(),
            ok == (old(self).pc < old(self).program_memory.data@.len()),
            !ok ==> *final(self) == (ControlUnit {
                fault: Some(MachineFault::ProgramAddressOutOfRange),
                execution_state: ExecutionState::Stop,
                ..*old(self)
            }),
            ok ==> *final(self) == (ControlUnit {
                read_data: old(self).program_memory.data@[old(self).pc as int],
                ..*old(self)
            }),
            !ok ==> final(self).fault is Some,
            ok ==> final(self).fault == old(self).fault,
            ok ==> final(self).execution_state == old(self).execution_state,
            final(self).data_path == old(self).data_path,
            final(self).pc == old(self).pc,
            final(self).ir == old(self).ir,
            final(self).interrupt_flag == old(self).interrupt_flag,
    {
        if self.pc >= self.program_memory.data.len() as u64 {
            self.fail(MachineFault::ProgramAddressOutOfRange);
            return false;
        }
        self.read_data = self.program_memory.read(self.pc);
        true
    }

    fn latch_ir(&mut self)
        ensures
            *final(self) == (ControlUnit { ir: old(self).read_data, ..*old(self) }),
    {
        self.ir = self.read_data;
    }

    fn update_control_unit_output(&mut self, selector: OutputSelector)
        ensures
            final(self).data_path == (DataPath {
                control_unit_output: match selector {
                    OutputSelector::Memory => ((old(self).read_data as i32) as i64) as u64,
                    OutputSelector::PC => old(self).output_pc_mux,
                },
                ..old(self).data_path
            }),
            *final(self) == (ControlUnit { data_path: final(self).data_path, ..*old(self) }),
    {
        match selector {
            OutputSelector::Memory => {
                self.data_path.control_unit_output = self.read_data as i32 as i64 as u64
            },
            OutputSelector::PC => self.data_path.control_unit_output = self.output_pc_mux,
        }
    }

    fn update_output_pc_mux(&mut self, selector: OutputPcSelector) -> (ok: bool)
        requires
            old(self).consistent(),
        ensures
            final(self).tick == old(self).tick,
            final(self).consistent(),
            !ok ==> final(self).fault is Some,
            ok == (selector == OutputPcSelector::Current || old(self).pc < u64::MAX),
            !ok ==> *final(self) == old(self).failed(MachineFault::ProgramAddressOutOfRange),
            ok ==> *final(self) == (ControlUnit {
                output_pc_mux: match selector {
                    OutputPcSelector::Current => old(self).pc,
                    OutputPcSelector::Next => (old(self).pc + 1) as u64,
                },
                ..*old(self)
            }),
    {
        match selector {
            OutputPcSelector::Current => self.output_pc_mux = self.pc,
            OutputPcSelector::Next => {
                if self.pc == u64::MAX {
                    self.fail(MachineFault::ProgramAddressOutOfRange);
                    return false;
                }
                self.output_pc_mux = self.pc + 1;
            },
        }
        true
    }

    fn assemble_branch_address(&self) -> (address: u64)
        ensures
            address == branch_address(self.ir, self.read_data),
    {
        let high = ((self.ir & 0x00ffffff) as u64) << 32;
        let low = self.read_data as u64;
        high | low
    }

    /// The value of an operand that is not in memory: a data or address register, or the
    /// immediate word at the program counter, sign-extended from 32 bits.
    pub open spec fn operand_value(&self, operand: Operand) -> u64 {
        match operand.mode {
            Mode::DataRegister => self.data_path.data_registers@[operand.main_register as int],
            Mode::AddressRegister => self.data_path.address_registers@[operand.main_register as int],
            _ => ((self.program_memory.data@[self.pc as int] as i32) as i64) as u64,
        }
    }

    /// The state once an operand that is not in memory is routed to an ALU input side: an
    /// immediate is read from the word at the program counter, which then moves past it.
    pub open spec fn prepared(&self, input: AluInput, operand: Operand, mode: PrepareMode) -> ControlUnit {
        let value = self.operand_value(operand);
        match operand.mode {
            Mode::DataRegister => ControlUnit {
                data_path: routed(
                    DataPath { data_registers_mux: value, ..self.data_path },
                    input,
                    value,
                    mode,
                ),
                ..*self
            },
            Mode::AddressRegister => ControlUnit {
                data_path: routed(
                    DataPath { address_registers_mux: value, ..self.data_path },
                    input,
                    value,
                    mode,
                ),
                ..*self
            },
            _ => ControlUnit {
                read_data: self.program_memory.data@[self.pc as int],
                pc: (self.pc + 1) as u64,
                data_path: routed(
                    DataPath {
                        control_unit_output: value,
                        external_selector: ExternalSelector::ControlUnit,
                        ..self.data_path
                    },
                    input,
                    value,
                    mode,
                ),
                ..*self
            },
        }
    }

    /// Whether an operand that is not in memory can be prepared: an immediate needs a word at
    /// the program counter.
    pub open spec fn operand_ready(&self, operand: Operand) -> bool {
        operand.mode == Mode::Direct ==> self.pc < self.program_memory.data@.len()
    }

    /// What sending `value` to port `port` leaves: it is logged as an integer on port 4 and as
    /// a character on port 5, the instruction is done, and the registers and data memory stay.
    pub open spec fn after_output(&self, final_state: &Self, port: u8, value: u64) -> bool {
        let io = self.data_path.io;
        &&& final_state.fault is None
        &&& final_state.execution_state == ExecutionState::Done
        &&& final_state.data_path.io.int_output_log@ == if port == 4 {
            io.int_output_log@.push(value as i64)
        } else {
            io.int_output_log@
        }
        &&& final_state.data_path.io.char_output_log@ == if port == 5 {
            io.char_output_log@.push(crate::machine::io::byte_char(value as i64))
        } else {
            io.char_output_log@
        }
        &&& final_state.data_path.data_registers == self.data_path.data_registers
        &&& final_state.data_path.address_registers == self.data_path.address_registers
        &&& final_state.data_path.data_memory == self.data_path.data_memory
    }

    /// What storing the ALU output into a destination operand leaves, moving on to `next`: a
    /// data register takes it cut to the width; an address register takes it adjusted as
    /// the mode selectors say, or the machine stops where that leaves the word range; a
    /// memory operand gets it in its lane of the write buffer; an immediate cannot be written.
    #[verifier::opaque]
    pub open spec fn after_store_operand(
        &self,
        final_state: &Self,
        operand: Operand,
        next: ExecutionState,
    ) -> bool {
        let data_path = self.data_path;
        match operand.mode {
            Mode::DataRegister => {
                &&& final_state.data_path.data_registers@ == data_path.data_registers@.update(
                    operand.main_register as int,
                    data_path.alu_output & width_mask(self.word_size),
                )
                &&& final_state.data_path == (DataPath {
                    data_registers: final_state.data_path.data_registers,
                    ..data_path
                })
                &&& *final_state == (ControlUnit {
                    data_path: final_state.data_path,
                    execution_state: next,
                    ..*self
                })
            },
            Mode::AddressRegister => if address_latchable(data_path) {
                &&& final_state.data_path.address_registers@ == latched_address_registers(
                    data_path,
                    operand.main_register,
                    self.word_size,
                )
                &&& final_state.data_path == (DataPath {
                    address_registers: final_state.data_path.address_registers,
                    ..data_path
                })
                &&& *final_state == (ControlUnit {
                    data_path: final_state.data_path,
                    execution_state: next,
                    ..*self
                })
            } else {
                *final_state == self.failed(MachineFault::AddressOverflow)
            },
            Mode::Direct => *final_state == self.failed(MachineFault::ImmediateDestination),
            _ => self.after_lane_write(
                final_state,
                data_path,
                data_path.alu_output,
                self.word_size,
                next,
            ),
        }
    }

    /// A store that succeeded may be followed by moving on to `next`; one that failed stopped.
    pub proof fn lemma_store_moves_on(
        staged: ControlUnit,
        stored: ControlUnit,
        operand: Operand,
        next: ExecutionState,
    )
        requires
            staged.fault is None,
            staged.after_store_operand(&stored, operand, staged.execution_state),
        ensures
            stored.fault is Some ==> staged.after_store_operand(&stored, operand, next),
            stored.fault is None ==> staged.after_store_operand(
                &ControlUnit { execution_state: next, ..stored },
                operand,
                next,
            ),
    {
        reveal(ControlUnit::after_store_operand);
    }

    /// The state of the machine stopped by a fault.
    pub open spec fn failed(&self, fault: MachineFault) -> ControlUnit {
        ControlUnit { fault: Some(fault), execution_state: ExecutionState::Stop, ..*self }
    }

    /// What a push of the stack leaves, moving on to `next`: A7 shrinks by one and the data
    /// address points at the new top, or the machine stops where A7 would leave the word range.
    pub open spec fn after_push(&self, final_state: &Self, next: ExecutionState) -> bool {
        let prepared = pushing(self.data_path);
        if data_address_latchable(prepared) && address_latchable(prepared) {
            &&& final_state.data_path == (DataPath {
                address_registers: final_state.data_path.address_registers,
                data_address: next_data_address(prepared),
                pre_mode_selector: PreModeSelector::Unchanged,
                ..prepared
            })
            &&& final_state.data_path.address_registers@ == latched_address_registers(
                prepared,
                7,
                WordSize::Long,
            )
            &&& *final_state == (ControlUnit {
                data_path: final_state.data_path,
                execution_state: next,
                ..*self
            })
        } else {
            &&& *final_state == (ControlUnit {
                data_path: final_state.data_path,
                ..self.failed(MachineFault::AddressOverflow)
            })
            &&& final_state.data_path.data_memory == self.data_path.data_memory
        }
    }

    /// What a pop of the stack leaves, moving on to `next`: the data address points at the
    /// top and A7 grows by one, or the machine stops where A7 would leave the word range.
    pub open spec fn after_pop(&self, final_state: &Self, next: ExecutionState) -> bool {
        let prepared = popping(self.data_path);
        if data_address_latchable(prepared) && address_latchable(prepared) {
            &&& final_state.data_path == (DataPath {
                address_registers: final_state.data_path.address_registers,
                data_address: next_data_address(prepared),
                post_mode_selector: PostModeSelector::Unchanged,
                ..prepared
            })
            &&& final_state.data_path.address_registers@ == latched_address_registers(
                prepared,
                7,
                WordSize::Long,
            )
            &&& *final_state == (ControlUnit {
                data_path: final_state.data_path,
                execution_state: next,
                ..*self
            })
        } else {
            &&& *final_state == (ControlUnit {
                data_path: final_state.data_path,
                ..self.failed(MachineFault::AddressOverflow)
            })
            &&& final_state.data_path.data_memory == self.data_path.data_memory
        }
    }

    /// What popping the program counter leaves, moving on to `next`: the program counter
    /// takes the word at the top of the stack, or the machine stops where the data address
    /// lies outside data memory.
    pub open spec fn after_pc_pop(&self, final_state: &Self, next: ExecutionState) -> bool {
        if self.data_path.data_address_in_range() {
            let value = addressed_value(self.data_path, WordSize::Long);
            *final_state == (ControlUnit {
                pc: value,
                data_path: passed_left(
                    DataPath {
                        memory_output: addressed_word(self.data_path),
                        memory_output_mmux: value,
                        left_data: value,
                        ..self.data_path
                    },
                ),
                execution_state: next,
                ..*self
            })
        } else {
            *final_state == self.failed(MachineFault::DataAddressOutOfRange)
        }
    }

    /// What reading the addressed word into the write buffer leaves, moving on to `next`, or
    /// the stop where the data address lies outside data memory.
    pub open spec fn after_stack_read(&self, final_state: &Self, next: ExecutionState) -> bool {
        if self.data_path.data_address_in_range() {
            let word = addressed_word(self.data_path);
            *final_state == (ControlUnit {
                data_path: DataPath {
                    memory_output: word,
                    write_data_mux: word,
                    write_data: word,
                    ..self.data_path
                },
                execution_state: next,
                ..*self
            })
        } else {
            *final_state == self.failed(MachineFault::DataAddressOutOfRange)
        }
    }

    /// What storing the write buffer at the data address leaves, moving on to `next`, or the
    /// stop where the data address lies outside data memory.
    pub open spec fn after_store(&self, final_state: &Self, next: ExecutionState) -> bool {
        if self.data_path.data_address_in_range() {
            &&& final_state.data_path.data_memory.data@ == self.data_path.data_memory.data@.update(
                self.data_path.data_word_index(),
                self.data_path.write_data,
            )
            &&& *final_state == (ControlUnit {
                data_path: DataPath {
                    data_memory: final_state.data_path.data_memory,
                    ..self.data_path
                },
                execution_state: next,
                ..*self
            })
        } else {
            *final_state == self.failed(MachineFault::DataAddressOutOfRange)
        }
    }

    /// What putting `value` into lane `data_address % 4` of the write buffer, cut to
    /// `word_size`, leaves, with the data path otherwise as `data_path` and moving on to `next`.
    pub open spec fn after_lane_write(
        &self,
        final_state: &Self,
        data_path: DataPath,
        value: u64,
        word_size: WordSize,
        next: ExecutionState,
    ) -> bool {
        &&& final_state.data_path == (DataPath {
            write_data: final_state.data_path.write_data,
            write_data_mux: [value, value, value, value],
            ..data_path
        })
        &&& final_state.data_path.write_data@ == data_path.write_data@.update(
            data_path.data_lane(),
            merge_part(data_path.write_data@[data_path.data_lane()], value, word_size),
        )
        &&& *final_state == (ControlUnit {
            data_path: final_state.data_path,
            execution_state: next,
            ..*self
        })
    }

    /// The state once `CALL` has read its target: the return address is on the right side of
    /// the data path and the program counter holds the target.
    pub open spec fn call_entered(&self) -> ControlUnit {
        let word = self.program_memory.data@[self.pc as int];
        let next = (self.pc + 1) as u64;
        ControlUnit {
            read_data: word,
            output_pc_mux: next,
            pc: branch_address(self.ir, word),
            data_path: DataPath {
                control_unit_output: next,
                external_selector: ExternalSelector::ControlUnit,
                right_data: next,
                right_buffer: next,
                ..self.data_path
            },
            ..*self
        }
    }

    /// The state once an interrupt is entered: interrupts are off and the current program
    /// counter is on the control unit's output.
    pub open spec fn interrupt_entered(&self) -> ControlUnit {
        ControlUnit {
            interrupt_flag: false,
            output_pc_mux: self.pc,
            data_path: DataPath { control_unit_output: self.pc, ..self.data_path },
            ..*self
        }
    }

    /// What every helper keeps: the tick, and a fault only together with a stop; a helper
    /// that reports failure has faulted, one that reports success has not changed the phase.
    spec fn helper_outcome(&self, before: &Self, ok: bool) -> bool {
        &&& self.tick == before.tick
        &&& self.consistent()
        &&& !ok ==> self.fault is Some
        &&& ok ==> self.fault == before.fault && self.execution_state == before.execution_state
    }

    /// Reads data memory at the data address, stopping the machine where it lies outside.
    fn read_memory(&mut self) -> (ok: bool)
        requires
            old(self).consistent(),
        ensures
            final(self).helper_outcome(old(self), ok),
            ok == old(self).data_path.data_address_in_range(),
            !ok ==> *final(self) == old(self).failed(MachineFault::DataAddressOutOfRange),
            ok ==> *final(self) == (ControlUnit {
                data_path: DataPath {
                    memory_output: addressed_word(old(self).data_path),
                    ..old(self).data_path
                },
                ..*old(self)
            }),
    {
        if self.data_path.data_address / 4 >= self.data_path.data_memory.data.len() as u64 {
            self.fail(MachineFault::DataAddressOutOfRange);
            return false;
        }
        self.data_path.read_data_memory();
        true
    }

    /// Writes data memory at the data address, stopping the machine where it lies outside.
    fn write_memory(&mut self, selector: WriteSelector) -> (ok: bool)
        requires
            old(self).consistent(),
        ensures
            final(self).helper_outcome(old(self), ok),
            ok == old(self).data_path.data_address_in_range(),
            !ok ==> *final(self) == old(self).failed(MachineFault::DataAddressOutOfRange),
            ok ==> *final(self) == (ControlUnit {
                data_path: DataPath {
                    data_memory: final(self).data_path.data_memory,
                    ..old(self).data_path
                },
                ..*old(self)
            }),
            ok ==> final(self).data_path.data_memory.data@ == old(
                self,
            ).data_path.data_memory.data@.update(
                old(self).data_path.data_word_index(),
                match selector {
                    WriteSelector::Scalar => old(self).data_path.write_data,
                    WriteSelector::Vector => old(self).data_path.vector_output_mux,
                },
            ),
    {
        if self.data_path.data_address / 4 >= self.data_path.data_memory.data.len() as u64 {
            self.fail(MachineFault::DataAddressOutOfRange);
            return false;
        }
        self.data_path.write_data_memory(selector);
        true
    }

    /// Latches an address register, stopping the machine where the increment or decrement
    /// would leave the word range.
    fn latch_address(&mut self, register: u8, word_size: WordSize) -> (ok: bool)
        requires
            old(self).consistent(),
            register < 8,
        ensures
            final(self).helper_outcome(old(self), ok),
            ok == address_latchable(old(self).data_path),
            !ok ==> *final(self) == old(self).failed(MachineFault::AddressOverflow),
            ok ==> *final(self) == (ControlUnit {
                data_path: DataPath {
                    address_registers: final(self).data_path.address_registers,
                    ..old(self).data_path
                },
                ..*old(self)
            }),
            ok ==> final(self).data_path.address_registers@ == latched_address_registers(
                old(self).data_path,
                register,
                word_size,
            ),
    {
        let increment = self.data_path.post_mode_selector == PostModeSelector::Increment;
        let decrement = self.data_path.pre_mode_selector == PreModeSelector::Decrement;
        if increment && self.data_path.alu_output == u64::MAX {
            self.fail(MachineFault::AddressOverflow);
            return false;
        }
        if decrement && !increment && self.data_path.alu_output == 0 {
            self.fail(MachineFault::AddressOverflow);
            return false;
        }
        self.data_path.latch_address_register(register, &word_size);
        true
    }

    /// Latches the data address, stopping the machine where a pre-decrement would go below zero.
    fn latch_address_for_data(&mut self) -> (ok: bool)
        requires
            old(self).consistent(),
        ensures
            final(self).helper_outcome(old(self), ok),
            ok == data_address_latchable(old(self).data_path),
            !ok ==> *final(self) == old(self).failed(MachineFault::AddressOverflow),
            ok ==> *final(self) == (ControlUnit {
                data_path: DataPath {
                    data_address: next_data_address(old(self).data_path),
                    ..old(self).data_path
                },
                ..*old(self)
            }),
    {
        if self.data_path.pre_mode_selector == PreModeSelector::Decrement
            && self.data_path.alu_output == 0 {
            self.fail(MachineFault::AddressOverflow);
            return false;
        }
        self.data_path.latch_data_address();
        true
    }

    /// The operand described by byte `byte` of the instruction register.
    fn parse_data_readable(&mut self, byte: u8) -> (operand: Operand)
        requires
            byte <= 3,
        ensures
            operand == operand_of(instruction_byte(old(self).ir, byte)),
            operand.main_register < 8,
            operand.offset < 4,
            *final(self) == *old(self),
    {
        let offset = ((3 - byte) * 8) as u32;
        let operand = ((self.ir >> offset) & 0xff) as u8;
        self.instruction_parser.parse_operand(operand)
    }

    /// The destination operand described by byte `byte`; `None` where it is an immediate,
    /// which cannot be written.
    fn parse_data_writable(&mut self, byte: u8) -> (operand: Option<Operand>)
        requires
            byte <= 3,
        ensures
            operand is Some <==> operand_of(instruction_byte(old(self).ir, byte)).mode
                != Mode::Direct,
            operand is Some ==> operand->0 == operand_of(instruction_byte(old(self).ir, byte)),
            operand is Some ==> operand->0.main_register < 8 && operand->0.offset < 4,
            *final(self) == *old(self),
    {
        let operand = self.parse_data_readable(byte);
        if operand.mode == Mode::Direct {
            None
        } else {
            Some(operand)
        }
    }

    /// The port number held in byte `byte` of the instruction register.
    fn parse_port(&mut self, byte: u8) -> (port: u8)
        requires
            byte <= 3,
        ensures
            port == instruction_byte(old(self).ir, byte),
            *final(self) == *old(self),
    {
        let offset = ((3 - byte) * 8) as u32;
        ((self.ir >> offset) & 0xff) as u8
    }

    /// Whether an operand needs a memory access in a later tick.
    fn is_operand_needed_second_step(operand: &Operand) -> (needed: bool)
        ensures
            needed == (operand.mode == Mode::Indirect || operand.mode == Mode::IndirectPreDecrement
                || operand.mode == Mode::IndirectPostIncrement || operand.mode
                == Mode::IndirectOffset || operand.mode == Mode::IndirectDirect),
    {
        match operand.mode {
            Mode::Indirect
            | Mode::IndirectPreDecrement
            | Mode::IndirectPostIncrement
            | Mode::IndirectOffset
            | Mode::IndirectDirect => true,
            _ => false,
        }
    }

    fn prepare_left_alu_input(&mut self, mode: PrepareMode)
        ensures
            final(self).data_path == (match mode {
                PrepareMode::Immediate => old(self).data_path,
                PrepareMode::Register => DataPath {
                    left_buffer: old(self).data_path.left_data,
                    ..old(self).data_path
                },
            }),
            *final(self) == (ControlUnit { data_path: final(self).data_path, ..*old(self) }),
    {
        match mode {
            PrepareMode::Immediate => {},
            PrepareMode::Register => {
                self.data_path.latch_left_data_register();
            },
        }
    }

    fn prepare_right_alu_input(&mut self, mode: PrepareMode)
        ensures
            final(self).data_path == (match mode {
                PrepareMode::Immediate => old(self).data_path,
                PrepareMode::Register => DataPath {
                    right_buffer: old(self).data_path.right_data,
                    ..old(self).data_path
                },
            }),
            *final(self) == (ControlUnit { data_path: final(self).data_path, ..*old(self) }),
    {
        match mode {
            PrepareMode::Immediate => {},
            PrepareMode::Register => {
                self.data_path.latch_right_data_register();
            },
        }
    }

    /// Routes a selected source to an ALU input side, latching it where asked.
    fn route_to_input(&mut self, input: AluInput, selector: DataSelector, mode: PrepareMode)
        ensures
            *final(self) == (ControlUnit {
                data_path: routed(
                    old(self).data_path,
                    input,
                    old(self).data_path.data_source(selector),
                    mode,
                ),
                ..*old(self)
            }),
    {
        match input {
            AluInput::Left => {
                self.data_path.update_left_data(selector);
                self.prepare_left_alu_input(mode);
            },
            AluInput::Right => {
                self.data_path.update_right_data(selector);
                self.prepare_right_alu_input(mode);
            },
            AluInput::Nothing => {},
        }
    }

    /// Brings an operand's value (or, for memory operands, its address) into the data path.
    #[verifier::rlimit(25)]
    fn prepare_operand(&mut self, input: AluInput, operand: &Operand, mode: PrepareMode) -> (ok:
        bool)
        requires
            old(self).consistent(),
            operand.main_register < 8,
            operand.offset < 4,
        ensures
            final(self).helper_outcome(old(self), ok),
            keeps_stores(old(self).data_path, final(self).data_path),
            !in_memory(*operand) ==> ok == old(self).operand_ready(*operand),
            !in_memory(*operand) && ok ==> *final(self) == old(self).prepared(input, *operand, mode),
            !in_memory(*operand) && !ok ==> *final(self) == old(self).failed(
                MachineFault::ProgramAddressOutOfRange,
            ),
            operand.mode == Mode::DataRegister ==> ok && *final(self) == (ControlUnit {
                data_path: routed(
                    DataPath {
                        data_registers_mux: old(self).data_path.data_registers@[operand.main_register as int],
                        ..old(self).data_path
                    },
                    input,
                    old(self).data_path.data_registers@[operand.main_register as int],
                    mode,
                ),
                ..*old(self)
            }),
    {
        match operand.mode {
            Mode::Direct => {
                let ghost before = *self;
                if !self.update_read_data() {
                    return false;
                }
                proof {
                    assert(before.pc < before.program_memory.data.len());
                }
                self.update_control_unit_output(OutputSelector::Memory);
                if !self.latch_pc(PcSelector::NextWord) {
                    return false;
                }
                self.data_path.external_selector = ExternalSelector::ControlUnit;
                self.route_to_input(input, DataSelector::External, mode);
            },
            Mode::DataRegister => {
                self.data_path.read_data_register(operand.main_register);
                self.route_to_input(input, DataSelector::DataRegister, mode);
            },
            Mode::AddressRegister => {
                self.data_path.read_address_register(operand.main_register);
                self.route_to_input(input, DataSelector::AddressRegister, mode);
            },
            _ => {
                return self.prepare_memory_operand(operand);
            },
        }
        true
    }

    /// Computes the address of a memory operand into the data address, adjusting its address
    /// register where the mode asks, and reading an offset or an address from the program where
    /// the mode has one.
    #[verifier::rlimit(40)]
    fn prepare_memory_operand(&mut self, operand: &Operand) -> (ok: bool)
        requires
            old(self).consistent(),
            operand.main_register < 8,
            operand.offset < 4,
            in_memory(*operand),
        ensures
            final(self).helper_outcome(old(self), ok),
            keeps_stores(old(self).data_path, final(self).data_path),
    {
        match operand.mode {
            Mode::Indirect | Mode::IndirectPostIncrement | Mode::IndirectPreDecrement => {
                self.data_path.read_address_register(operand.main_register);
                self.data_path.update_left_data(DataSelector::AddressRegister);
                self.data_path.update_left_alu_input(AluInputSelector::Data);
                self.data_path.execute_alu(AluOperator::Trl);
                match operand.mode {
                    Mode::IndirectPreDecrement => {
                        self.data_path.pre_mode_selector = PreModeSelector::Decrement
                    },
                    Mode::IndirectPostIncrement => {
                        self.data_path.post_mode_selector = PostModeSelector::Increment
                    },
                    _ => {},
                }
                if !self.latch_address_for_data() {
                    return false;
                }
                if !self.latch_address(operand.main_register, WordSize::Long) {
                    return false;
                }
                self.data_path.pre_mode_selector = PreModeSelector::Unchanged;
                self.data_path.post_mode_selector = PostModeSelector::Unchanged;
            },
            Mode::IndirectOffset => {
                self.data_path.read_address_register(operand.main_register);
                self.data_path.update_left_data(DataSelector::AddressRegister);
                self.data_path.update_left_alu_input(AluInputSelector::Data);
                if operand.offset == 0 {
                    if !self.update_read_data() {
                        return false;
                    }
                    self.update_control_unit_output(OutputSelector::Memory);
                    if !self.latch_pc(PcSelector::NextWord) {
                        return false;
                    }
                    self.data_path.external_selector = ExternalSelector::ControlUnit;
                    self.data_path.update_right_data(DataSelector::External);
                    self.data_path.update_right_alu_input(AluInputSelector::Data);
                } else {
                    let offset_register = operand.offset + 4;
                    self.data_path.read_data_register(offset_register);
                    self.data_path.update_right_data(DataSelector::DataRegister);
                    self.data_path.update_right_alu_input(AluInputSelector::Data);
                }
                self.data_path.execute_alu(AluOperator::Add);
                if !self.latch_address_for_data() {
                    return false;
                }
            },
            Mode::IndirectDirect => {
                if !self.update_read_data() {
                    return false;
                }
                self.update_control_unit_output(OutputSelector::Memory);
                if !self.latch_pc(PcSelector::NextWord) {
                    return false;
                }
                self.data_path.external_selector = ExternalSelector::ControlUnit;
                self.data_path.update_left_data(DataSelector::External);
                self.data_path.update_left_alu_input(AluInputSelector::Data);
                self.data_path.execute_alu(AluOperator::Trl);
                if !self.latch_address_for_data() {
                    return false;
                }
            },
            _ => {},
        }
        true
    }

    /// Points the data address at the top of the stack and pops it: A7 grows by one.
    fn prepare_stack_with_increment(&mut self) -> (ok: bool)
        requires
            old(self).consistent(),
        ensures
            final(self).helper_outcome(old(self), ok),
            ok == (data_address_latchable(popping(old(self).data_path)) && address_latchable(
                popping(old(self).data_path),
            )),
            !ok ==> *final(self) == (ControlUnit {
                data_path: final(self).data_path,
                ..old(self).failed(MachineFault::AddressOverflow)
            }),
            final(self).data_path.data_memory == old(self).data_path.data_memory,
            ok ==> *final(self) == (ControlUnit { data_path: final(self).data_path, ..*old(self) }),
            ok ==> final(self).data_path == (DataPath {
                address_registers: final(self).data_path.address_registers,
                data_address: next_data_address(popping(old(self).data_path)),
                post_mode_selector: PostModeSelector::Unchanged,
                ..popping(old(self).data_path)
            }),
            ok ==> final(self).data_path.address_registers@ == latched_address_registers(
                popping(old(self).data_path),
                7,
                WordSize::Long,
            ),
    {
        self.data_path.read_address_register(7);
        self.data_path.update_left_data(DataSelector::AddressRegister);
        self.data_path.update_left_alu_input(AluInputSelector::Data);
        self.data_path.execute_alu(AluOperator::Trl);
        self.data_path.post_mode_selector = PostModeSelector::Increment;
        if !self.latch_address_for_data() {
            return false;
        }
        if !self.latch_address(7, WordSize::Long) {
            return false;
        }
        self.data_path.post_mode_selector = PostModeSelector::Unchanged;
        true
    }

    /// Pushes: A7 shrinks by one and the data address points at the new top.
    fn prepare_stack_with_decrement(&mut self) -> (ok: bool)
        requires
            old(self).consistent(),
        ensures
            final(self).helper_outcome(old(self), ok),
            ok == (data_address_latchable(pushing(old(self).data_path)) && address_latchable(
                pushing(old(self).data_path),
            )),
            !ok ==> *final(self) == (ControlUnit {
                data_path: final(self).data_path,
                ..old(self).failed(MachineFault::AddressOverflow)
            }),
            final(self).data_path.data_memory == old(self).data_path.data_memory,
            ok ==> *final(self) == (ControlUnit { data_path: final(self).data_path, ..*old(self) }),
            ok ==> final(self).data_path == (DataPath {
                address_registers: final(self).data_path.address_registers,
                data_address: next_data_address(pushing(old(self).data_path)),
                pre_mode_selector: PreModeSelector::Unchanged,
                ..pushing(old(self).data_path)
            }),
            ok ==> final(self).data_path.address_registers@ == latched_address_registers(
                pushing(old(self).data_path),
                7,
                WordSize::Long,
            ),
    {
        self.data_path.read_address_register(7);
        self.data_path.update_left_data(DataSelector::AddressRegister);
        self.data_path.update_left_alu_input(AluInputSelector::Data);
        self.data_path.execute_alu(AluOperator::Trl);
        self.data_path.pre_mode_selector = PreModeSelector::Decrement;
        if !self.latch_address_for_data() {
            return false;
        }
        if !self.latch_address(7, WordSize::Long) {
            return false;
        }
        self.data_path.pre_mode_selector = PreModeSelector::Unchanged;
        true
    }

    /// Reads a memory operand at the data address and routes it to an ALU input side.
    fn load_indirect_operand(&mut self, input: AluInput, mode: PrepareMode) -> (ok: bool)
        requires
            old(self).consistent(),
        ensures
            final(self).helper_outcome(old(self), ok),
            ok == old(self).data_path.data_address_in_range(),
            !ok ==> *final(self) == old(self).failed(MachineFault::DataAddressOutOfRange),
            ok ==> *final(self) == (ControlUnit {
                data_path: loaded(old(self).data_path, input, mode, old(self).word_size),
                ..*old(self)
            }),
    {
        if !self.read_memory() {
            return false;
        }
        let word_size = self.word_size;
        self.data_path.update_memory_output_mmux(&word_size);
        self.data_path.update_write_data_mux(WriteDataSelector::Memory);
        self.data_path.latch_write_data();
        self.route_to_input(input, DataSelector::Memory, mode);
        true
    }

    /// Stores the ALU output into a register operand, or into the write buffer for a memory
    /// operand.
    fn store_operand(&mut self, operand: Operand) -> (ok: bool)
        requires
            old(self).consistent(),
            operand.main_register < 8,
        ensures
            final(self).helper_outcome(old(self), ok),
            operand.mode == Mode::DataRegister ==> ok && *final(self) == (ControlUnit {
                data_path: DataPath {
                    data_registers: final(self).data_path.data_registers,
                    ..old(self).data_path
                },
                ..*old(self)
            }) && final(self).data_path.data_registers@ == old(self).data_path.data_registers@.update(
                operand.main_register as int,
                old(self).data_path.alu_output & width_mask(old(self).word_size),
            ),
            operand.mode == Mode::Direct ==> !ok && *final(self) == old(self).failed(
                MachineFault::ImmediateDestination,
            ),
            final(self).data_path.io == old(self).data_path.io,
            in_memory(operand) ==> ok && old(self).after_lane_write(
                final(self),
                old(self).data_path,
                old(self).data_path.alu_output,
                old(self).word_size,
                old(self).execution_state,
            ),
            old(self).after_store_operand(final(self), operand, old(self).execution_state),
    {
        proof {
            reveal(ControlUnit::after_store_operand);
        }
        let word_size = self.word_size;
        match operand.mode {
            Mode::DataRegister => {
                self.data_path.latch_data_register(operand.main_register, &word_size);
            },
            Mode::AddressRegister => {
                if !self.latch_address(operand.main_register, word_size) {
                    return false;
                }
            },
            Mode::Direct => {
                self.fail(MachineFault::ImmediateDestination);
                return false;
            },
            _ => {
                self.data_path.update_write_data_mux(WriteDataSelector::Alu);
                self.data_path.latch_write_data_part(&word_size);
            },
        }
        true
    }

    fn store_indirect_operand(&mut self) -> (ok: bool)
        requires
            old(self).consistent(),
        ensures
            final(self).helper_outcome(old(self), ok),
            ok == old(self).data_path.data_address_in_range(),
            !ok ==> *final(self) == old(self).failed(MachineFault::DataAddressOutOfRange),
            ok ==> *final(self) == (ControlUnit {
                data_path: DataPath {
                    data_memory: final(self).data_path.data_memory,
                    ..old(self).data_path
                },
                ..*old(self)
            }),
            ok ==> final(self).data_path.data_memory.data@ == old(
                self,
            ).data_path.data_memory.data@.update(
                old(self).data_path.data_word_index(),
                old(self).data_path.write_data,
            ),
    {
        self.write_memory(WriteSelector::Scalar)
    }

    /// What every micro-step keeps: the tick, and a fault only together with a stop.
    spec fn step_outcome(&self, before: &Self) -> bool {
        &&& self.tick == before.tick
        &&& self.consistent()
    }

    /// What each micro-step of an ALU instruction with two sources and a destination does:
    /// the first source is kept in the left buffer, the second in the right, memory operands
    /// are read in steps of their own, and the result goes to the destination.
    #[verifier::opaque]
    pub open spec fn three_operand_done(&self, final_state: &Self, step: u8, operator: AluOperator) -> bool {
        let left = self.operand_in(1);
        let right = self.operand_in(2);
        let destination = self.operand_in(3);
        let direct = ExecutionState::Done;
        &&& (step == 0 || step == 2 || step == 4 || step == 5) && destination.mode == Mode::Direct
            ==> *final_state == self.failed(MachineFault::ImmediateDestination)
        &&& step == 0 && destination.mode != Mode::Direct && !in_memory(left) && !in_memory(right)
            && !in_memory(destination) ==> {
            let first = self.prepared(AluInput::Left, left, PrepareMode::Immediate);
            let second = first.prepared(AluInput::Right, right, PrepareMode::Immediate);
            if !self.operand_ready(left) {
                *final_state == self.failed(MachineFault::ProgramAddressOutOfRange)
            } else if !first.operand_ready(right) {
                *final_state == first.failed(MachineFault::ProgramAddressOutOfRange)
            } else {
                (ControlUnit {
                    data_path: after_alu(
                        second.data_path,
                        operator,
                        second.data_path.left_data,
                        second.data_path.right_data,
                    ),
                    ..second
                }).after_store_operand(final_state, destination, direct)
            }
        }
        &&& step == 0 && destination.mode != Mode::Direct && (in_memory(left) || in_memory(right)
            || in_memory(destination)) && !in_memory(left) ==> if self.operand_ready(left) {
            *final_state == (ControlUnit {
                execution_state: ExecutionState::Execute(2),
                ..self.prepared(AluInput::Left, left, PrepareMode::Register)
            })
        } else {
            *final_state == self.failed(MachineFault::ProgramAddressOutOfRange)
        }
        &&& step == 0 && destination.mode != Mode::Direct && in_memory(left)
            && final_state.fault is None ==> final_state.execution_state
            == ExecutionState::Execute(1)
        &&& step == 1 ==> if self.data_path.data_address_in_range() {
            *final_state == (ControlUnit {
                data_path: loaded(self.data_path, AluInput::Left, PrepareMode::Register, self.word_size),
                execution_state: ExecutionState::Execute(2),
                ..*self
            })
        } else {
            *final_state == self.failed(MachineFault::DataAddressOutOfRange)
        }
        &&& step == 2 && destination.mode != Mode::Direct && !in_memory(right) && !in_memory(
            destination,
        ) ==> {
            let second = self.prepared(AluInput::Right, right, PrepareMode::Immediate);
            if self.operand_ready(right) {
                (ControlUnit {
                    data_path: after_alu(
                        second.data_path,
                        operator,
                        second.data_path.left_buffer,
                        second.data_path.right_data,
                    ),
                    ..second
                }).after_store_operand(final_state, destination, direct)
            } else {
                *final_state == self.failed(MachineFault::ProgramAddressOutOfRange)
            }
        }
        &&& step == 2 && destination.mode != Mode::Direct && in_memory(destination) && !in_memory(
            right,
        ) ==> if self.operand_ready(right) {
            *final_state == (ControlUnit {
                execution_state: ExecutionState::Execute(4),
                ..self.prepared(AluInput::Right, right, PrepareMode::Register)
            })
        } else {
            *final_state == self.failed(MachineFault::ProgramAddressOutOfRange)
        }
        &&& step == 2 && destination.mode != Mode::Direct && in_memory(right)
            && final_state.fault is None ==> final_state.execution_state
            == ExecutionState::Execute(3)
        &&& step == 3 ==> if self.data_path.data_address_in_range() {
            *final_state == (ControlUnit {
                data_path: loaded(self.data_path, AluInput::Right, PrepareMode::Register, self.word_size),
                execution_state: ExecutionState::Execute(4),
                ..*self
            })
        } else {
            *final_state == self.failed(MachineFault::DataAddressOutOfRange)
        }
        &&& step == 4 && destination.mode != Mode::Direct && !in_memory(destination) ==> (
        ControlUnit {
            data_path: after_alu(
                self.data_path,
                operator,
                self.data_path.left_buffer,
                self.data_path.right_buffer,
            ),
            ..*self
        }).after_store_operand(final_state, destination, direct)
        &&& step == 4 && in_memory(destination) && final_state.fault is None
            ==> final_state.execution_state == ExecutionState::Execute(5)
        &&& step == 5 && destination.mode != Mode::Direct ==> if self.data_path.data_address_in_range() {
            let read = loaded(self.data_path, AluInput::Nothing, PrepareMode::Register, self.word_size);
            (ControlUnit {
                data_path: after_alu(read, operator, read.left_buffer, read.right_buffer),
                ..*self
            }).after_store_operand(final_state, destination, ExecutionState::Execute(6))
        } else {
            *final_state == self.failed(MachineFault::DataAddressOutOfRange)
        }
        &&& step == 6 ==> self.after_store(final_state, ExecutionState::Done)
        &&& step > 6 ==> *final_state == self.failed(MachineFault::InvalidStep)
    }

    /// What each micro-step of `MOV` or `NOT` does: the source is brought to the left side of
    /// the ALU (from memory in a step of its own), passed through it for `MOV` or inverted for
    /// `NOT`, and stored into the destination.
    #[verifier::opaque]
    pub open spec fn two_operand_done(&self, final_state: &Self, step: u8, operator: AluOperator) -> bool {
        let source = self.operand_in(1);
        let destination = self.operand_in(2);
        &&& (step == 0 || step == 2 || step == 3) && destination.mode == Mode::Direct
            ==> *final_state == self.failed(MachineFault::ImmediateDestination)
        &&& step == 0 && destination.mode != Mode::Direct && !in_memory(source) && !in_memory(
            destination,
        ) ==> {
            let ready = self.prepared(AluInput::Left, source, PrepareMode::Immediate);
            if self.operand_ready(source) {
                (ControlUnit {
                    data_path: after_alu(
                        ready.data_path,
                        operator,
                        ready.data_path.left_data,
                        ready.data_path.right_alu_input,
                    ),
                    ..ready
                }).after_store_operand(final_state, destination, ExecutionState::Done)
            } else {
                *final_state == self.failed(MachineFault::ProgramAddressOutOfRange)
            }
        }
        &&& step == 0 && destination.mode != Mode::Direct && in_memory(destination) && !in_memory(
            source,
        ) ==> if self.operand_ready(source) {
            *final_state == (ControlUnit {
                execution_state: ExecutionState::Execute(2),
                ..self.prepared(AluInput::Left, source, PrepareMode::Register)
            })
        } else {
            *final_state == self.failed(MachineFault::ProgramAddressOutOfRange)
        }
        &&& step == 0 && destination.mode != Mode::Direct && in_memory(source)
            && final_state.fault is None ==> final_state.execution_state
            == ExecutionState::Execute(1)
        &&& step == 1 ==> if self.data_path.data_address_in_range() {
            *final_state == (ControlUnit {
                data_path: loaded(self.data_path, AluInput::Left, PrepareMode::Register, self.word_size),
                execution_state: ExecutionState::Execute(2),
                ..*self
            })
        } else {
            *final_state == self.failed(MachineFault::DataAddressOutOfRange)
        }
        &&& step == 2 && destination.mode != Mode::Direct && !in_memory(destination) ==> (
        ControlUnit {
            data_path: after_alu(
                self.data_path,
                operator,
                self.data_path.left_buffer,
                self.data_path.right_alu_input,
            ),
            ..*self
        }).after_store_operand(final_state, destination, ExecutionState::Done)
        &&& step == 2 && in_memory(destination) && final_state.fault is None
            ==> final_state.execution_state == ExecutionState::Execute(3)
        &&& step == 3 && destination.mode != Mode::Direct ==> if self.data_path.data_address_in_range() {
            let read = loaded(self.data_path, AluInput::Nothing, PrepareMode::Immediate, self.word_size);
            (ControlUnit {
                data_path: after_alu(read, operator, read.left_buffer, read.right_alu_input),
                ..*self
            }).after_store_operand(final_state, destination, ExecutionState::Execute(4))
        } else {
            *final_state == self.failed(MachineFault::DataAddressOutOfRange)
        }
        &&& step == 4 ==> self.after_store(final_state, ExecutionState::Done)
        &&& step > 4 ==> *final_state == self.failed(MachineFault::InvalidStep)
    }

    /// Step 0 of `MOV` or `NOT`.
    #[verifier::rlimit(25)]
    fn two_operand_start(&mut self, alu_op: AluOperator)
        requires
            old(self).fault is None,
        ensures
            final(self).step_outcome(old(self)),
            old(self).two_operand_done(final(self), 0, alu_op),
    {
        proof {
            reveal(ControlUnit::two_operand_done);
        }
        let source = self.parse_data_readable(1);
        let destination = match self.parse_data_writable(2) {
            Some(d) => d,
            None => {
                self.fail(MachineFault::ImmediateDestination);
                return ;
            },
        };
        if !Self::is_operand_needed_second_step(&source)
            && !Self::is_operand_needed_second_step(&destination) {
            let ghost start = *self;
            if !self.prepare_operand(AluInput::Left, &source, PrepareMode::Immediate) {
                return ;
            }
            let ghost ready = *self;
            proof {
                assert(ready == start.prepared(AluInput::Left, source, PrepareMode::Immediate));
            }
            self.data_path.update_left_alu_input(AluInputSelector::Data);
            self.data_path.execute_alu(alu_op);
            proof {
                assert(*self == (ControlUnit {
                    data_path: after_alu(
                        ready.data_path,
                        alu_op,
                        ready.data_path.left_data,
                        ready.data_path.right_alu_input,
                    ),
                    ..ready
                }));
            }
            let ghost staged = *self;
            let stored = self.store_operand(destination);
            proof {
                ControlUnit::lemma_store_moves_on(staged, *self, destination, ExecutionState::Done);
            }
            if !stored {
                return ;
            }
            self.execution_state = ExecutionState::Done;
        } else {
            if !self.prepare_operand(AluInput::Left, &source, PrepareMode::Register) {
                return ;
            }
            self.execution_state = if Self::is_operand_needed_second_step(&source) {
                ExecutionState::Execute(1)
            } else {
                ExecutionState::Execute(2)
            };
        }
    }

    /// Step 2 of `MOV` or `NOT`.
    #[verifier::rlimit(25)]
    fn two_operand_apply(&mut self, alu_op: AluOperator)
        requires
            old(self).fault is None,
        ensures
            final(self).step_outcome(old(self)),
            old(self).two_operand_done(final(self), 2, alu_op),
    {
        proof {
            reveal(ControlUnit::two_operand_done);
        }
        let destination = match self.parse_data_writable(2) {
            Some(d) => d,
            None => {
                self.fail(MachineFault::ImmediateDestination);
                return ;
            },
        };
        if Self::is_operand_needed_second_step(&destination) {
            if !self.prepare_operand(AluInput::Nothing, &destination, PrepareMode::Immediate) {
                return ;
            }
            self.execution_state = ExecutionState::Execute(3);
        } else {
            let ghost start = *self;
            self.data_path.update_left_alu_input(AluInputSelector::Buffer);
            self.data_path.execute_alu(alu_op);
            proof {
                assert(*self == (ControlUnit {
                    data_path: after_alu(
                        start.data_path,
                        alu_op,
                        start.data_path.left_buffer,
                        start.data_path.right_alu_input,
                    ),
                    ..start
                }));
            }
            let ghost staged = *self;
            let stored = self.store_operand(destination);
            proof {
                ControlUnit::lemma_store_moves_on(staged, *self, destination, ExecutionState::Done);
            }
            if !stored {
                return ;
            }
            self.execution_state = ExecutionState::Done;
        }
    }

    /// Step 3 of `MOV` or `NOT`.
    #[verifier::rlimit(25)]
    fn two_operand_reload(&mut self, alu_op: AluOperator)
        requires
            old(self).fault is None,
        ensures
            final(self).step_outcome(old(self)),
            old(self).two_operand_done(final(self), 3, alu_op),
    {
        proof {
            reveal(ControlUnit::two_operand_done);
        }
        let destination = match self.parse_data_writable(2) {
            Some(d) => d,
            None => {
                self.fail(MachineFault::ImmediateDestination);
                return ;
            },
        };
        let ghost start = *self;
        if !self.load_indirect_operand(AluInput::Nothing, PrepareMode::Immediate) {
            return ;
        }
        self.data_path.update_left_alu_input(AluInputSelector::Buffer);
        self.data_path.execute_alu(alu_op);
        proof {
            let read = loaded(start.data_path, AluInput::Nothing, PrepareMode::Immediate, start.word_size);
            assert(*self == (ControlUnit {
                data_path: after_alu(read, alu_op, read.left_buffer, read.right_alu_input),
                ..start
            }));
        }
        let ghost staged = *self;
        let stored = self.store_operand(destination);
        proof {
            ControlUnit::lemma_store_moves_on(staged, *self, destination, ExecutionState::Execute(4));
        }
        if !stored {
            return ;
        }
        self.execution_state = ExecutionState::Execute(4);
    }

    fn execute_2_operand_operator(&mut self, step: u8, alu_op: AluOperator)
        requires
            old(self).fault is None,
        ensures
            final(self).step_outcome(old(self)),
            old(self).two_operand_done(final(self), step, alu_op),
    {
        match step {
            0 => self.two_operand_start(alu_op),
            1 => {
                proof {
                    reveal(ControlUnit::two_operand_done);
                }
                if !self.load_indirect_operand(AluInput::Left, PrepareMode::Register) {
                    return ;
                }
                self.execution_state = ExecutionState::Execute(2);
            },
            2 => self.two_operand_apply(alu_op),
            3 => self.two_operand_reload(alu_op),
            4 => {
                proof {
                    reveal(ControlUnit::two_operand_done);
                }
                if !self.store_indirect_operand() {
                    return ;
                }
                self.execution_state = ExecutionState::Done;
            },
            _ => {
                proof {
                    reveal(ControlUnit::two_operand_done);
                }
                self.fail(MachineFault::InvalidStep);
            },
        }
    }

    /// What each micro-step of `CMP` does: the first operand is kept in the left buffer, the
    /// second is subtracted from it, and the flags are set from the difference.
    #[verifier::opaque]
    pub open spec fn compare_done(&self, final_state: &Self, step: u8) -> bool {
        &&& (step == 0 && !in_memory(self.operand_in(1)) && !self.operand_ready(
                self.operand_in(1),
            ) ==> *final_state == self.failed(MachineFault::ProgramAddressOutOfRange))
        &&& (step == 0 && !in_memory(self.operand_in(1)) && self.operand_ready(
                self.operand_in(1),
            ) ==> *final_state == (ControlUnit {
                execution_state: ExecutionState::Execute(2),
                ..self.prepared(AluInput::Left, self.operand_in(1), PrepareMode::Register)
            }))
        &&& (step == 0 && in_memory(self.operand_in(1)) && final_state.fault is None ==> final_state.execution_state == ExecutionState::Execute(1))
        &&& (step == 1 && !self.data_path.data_address_in_range() ==> *final_state == self.failed(MachineFault::DataAddressOutOfRange))
        &&& (step == 1 && self.data_path.data_address_in_range() ==> *final_state == (
            ControlUnit {
                data_path: loaded(
                    self.data_path,
                    AluInput::Left,
                    PrepareMode::Register,
                    self.word_size,
                ),
                execution_state: ExecutionState::Execute(2),
                ..*self
            }))
        &&& (step == 2 && !in_memory(self.operand_in(2)) && !self.operand_ready(
                self.operand_in(2),
            ) ==> *final_state == self.failed(MachineFault::ProgramAddressOutOfRange))
        &&& (step == 2 && !in_memory(self.operand_in(2)) && self.operand_ready(
                self.operand_in(2),
            ) ==> {
                let prepared = self.prepared(
                    AluInput::Right,
                    self.operand_in(2),
                    PrepareMode::Immediate,
                );
                *final_state == (ControlUnit {
                    data_path: compared(prepared.data_path),
                    execution_state: ExecutionState::Done,
                    ..prepared
                })
            })
        &&& (step == 2 && in_memory(self.operand_in(2)) && final_state.fault is None ==> final_state.execution_state == ExecutionState::Execute(3))
        &&& (step == 3 && !self.data_path.data_address_in_range() ==> *final_state == self.failed(MachineFault::DataAddressOutOfRange))
        &&& (step == 3 && self.data_path.data_address_in_range() ==> *final_state == (
            ControlUnit {
                data_path: compared(
                    loaded(
                        self.data_path,
                        AluInput::Right,
                        PrepareMode::Immediate,
                        self.word_size,
                    ),
                ),
                execution_state: ExecutionState::Done,
                ..*self
            }))
        &&& (step > 3 ==> *final_state == self.failed(MachineFault::InvalidStep))
    }

    fn execute_compare(&mut self, step: u8)
        requires
            old(self).fault is None,
        ensures
            final(self).step_outcome(old(self)),
            old(self).compare_done(final(self), step),
    {
        proof {
            reveal(ControlUnit::compare_done);
        }
        match step {
            0 => {
                let first = self.parse_data_readable(1);
                if !self.prepare_operand(AluInput::Left, &first, PrepareMode::Register) {
                    return ;
                }
                self.execution_state = if Self::is_operand_needed_second_step(&first) {
                    ExecutionState::Execute(1)
                } else {
                    ExecutionState::Execute(2)
                };
            },
            1 => {
                if !self.load_indirect_operand(AluInput::Left, PrepareMode::Register) {
                    return ;
                }
                self.execution_state = ExecutionState::Execute(2);
            },
            2 => {
                let second = self.parse_data_readable(2);
                if !self.prepare_operand(AluInput::Right, &second, PrepareMode::Immediate) {
                    return ;
                }
                if Self::is_operand_needed_second_step(&second) {
                    self.execution_state = ExecutionState::Execute(3);
                } else {
                    self.data_path.update_left_alu_input(AluInputSelector::Buffer);
                    self.data_path.update_right_alu_input(AluInputSelector::Data);
                    self.data_path.execute_alu(AluOperator::Sub);
                    self.execution_state = ExecutionState::Done;
                }
            },
            3 => {
                if !self.load_indirect_operand(AluInput::Right, PrepareMode::Immediate) {
                    return ;
                }
                self.data_path.update_left_alu_input(AluInputSelector::Buffer);
                self.data_path.update_right_alu_input(AluInputSelector::Data);
                self.data_path.execute_alu(AluOperator::Sub);
                self.execution_state = ExecutionState::Done;
            },
            _ => {
                self.fail(MachineFault::InvalidStep);
            },
        }
    }

    /// Step 0 of an ALU instruction with two sources and a destination.
    #[verifier::rlimit(25)]
    fn three_operand_start(&mut self, alu_op: AluOperator)
        requires
            old(self).fault is None,
        ensures
            final(self).step_outcome(old(self)),
            old(self).three_operand_done(final(self), 0, alu_op),
    {
        proof {
            reveal(ControlUnit::three_operand_done);
        }
        let left = self.parse_data_readable(1);
        let right = self.parse_data_readable(2);
        let destination = match self.parse_data_writable(3) {
            Some(d) => d,
            None => {
                self.fail(MachineFault::ImmediateDestination);
                return ;
            },
        };
        if !Self::is_operand_needed_second_step(&left)
            && !Self::is_operand_needed_second_step(&right)
            && !Self::is_operand_needed_second_step(&destination) {
            let ghost start = *self;
            if !self.prepare_operand(AluInput::Left, &left, PrepareMode::Immediate) {
                return ;
            }
            let ghost first = *self;
            proof {
                assert(first == start.prepared(AluInput::Left, left, PrepareMode::Immediate));
            }
            if !self.prepare_operand(AluInput::Right, &right, PrepareMode::Immediate) {
                return ;
            }
            let ghost second = *self;
            proof {
                assert(second == first.prepared(AluInput::Right, right, PrepareMode::Immediate));
            }
            self.data_path.update_left_alu_input(AluInputSelector::Data);
            self.data_path.update_right_alu_input(AluInputSelector::Data);
            self.data_path.execute_alu(alu_op);
            proof {
                assert(*self == (ControlUnit {
                    data_path: after_alu(
                        second.data_path,
                        alu_op,
                        second.data_path.left_data,
                        second.data_path.right_data,
                    ),
                    ..second
                }));
            }
            let ghost staged = *self;
            let stored = self.store_operand(destination);
            proof {
                ControlUnit::lemma_store_moves_on(staged, *self, destination, ExecutionState::Done);
            }
            if !stored {
                return ;
            }
            self.execution_state = ExecutionState::Done;
        } else {
            if !self.prepare_operand(AluInput::Left, &left, PrepareMode::Register) {
                return ;
            }
            self.execution_state = if Self::is_operand_needed_second_step(&left) {
                ExecutionState::Execute(1)
            } else {
                ExecutionState::Execute(2)
            };
        }
    }

    /// Step 2 of an ALU instruction with two sources and a destination.
    #[verifier::rlimit(25)]
    fn three_operand_right(&mut self, alu_op: AluOperator)
        requires
            old(self).fault is None,
        ensures
            final(self).step_outcome(old(self)),
            old(self).three_operand_done(final(self), 2, alu_op),
    {
        proof {
            reveal(ControlUnit::three_operand_done);
        }
        let right = self.parse_data_readable(2);
        let destination = match self.parse_data_writable(3) {
            Some(d) => d,
            None => {
                self.fail(MachineFault::ImmediateDestination);
                return ;
            },
        };
        if !Self::is_operand_needed_second_step(&right)
            && !Self::is_operand_needed_second_step(&destination) {
            let ghost start = *self;
            if !self.prepare_operand(AluInput::Right, &right, PrepareMode::Immediate) {
                return ;
            }
            let ghost second = *self;
            proof {
                assert(second == start.prepared(AluInput::Right, right, PrepareMode::Immediate));
            }
            self.data_path.update_left_alu_input(AluInputSelector::Buffer);
            self.data_path.update_right_alu_input(AluInputSelector::Data);
            self.data_path.execute_alu(alu_op);
            proof {
                assert(*self == (ControlUnit {
                    data_path: after_alu(
                        second.data_path,
                        alu_op,
                        second.data_path.left_buffer,
                        second.data_path.right_data,
                    ),
                    ..second
                }));
            }
            let ghost staged = *self;
            let stored = self.store_operand(destination);
            proof {
                ControlUnit::lemma_store_moves_on(staged, *self, destination, ExecutionState::Done);
            }
            if !stored {
                return ;
            }
            self.execution_state = ExecutionState::Done;
        } else {
            if !self.prepare_operand(AluInput::Right, &right, PrepareMode::Register) {
                return ;
            }
            self.execution_state = if Self::is_operand_needed_second_step(&right) {
                ExecutionState::Execute(3)
            } else {
                ExecutionState::Execute(4)
            };
        }
    }

    /// Step 4 of an ALU instruction with two sources and a destination.
    #[verifier::rlimit(25)]
    fn three_operand_finish(&mut self, alu_op: AluOperator)
        requires
            old(self).fault is None,
        ensures
            final(self).step_outcome(old(self)),
            old(self).three_operand_done(final(self), 4, alu_op),
    {
        proof {
            reveal(ControlUnit::three_operand_done);
        }
        let destination = match self.parse_data_writable(3) {
            Some(d) => d,
            None => {
                self.fail(MachineFault::ImmediateDestination);
                return ;
            },
        };
        if Self::is_operand_needed_second_step(&destination) {
            if !self.prepare_operand(AluInput::Nothing, &destination, PrepareMode::Immediate) {
                return ;
            }
            self.execution_state = ExecutionState::Execute(5);
        } else {
            let ghost start = *self;
            self.data_path.update_left_alu_input(AluInputSelector::Buffer);
            self.data_path.update_right_alu_input(AluInputSelector::Buffer);
            self.data_path.execute_alu(alu_op);
            proof {
                assert(*self == (ControlUnit {
                    data_path: after_alu(
                        start.data_path,
                        alu_op,
                        start.data_path.left_buffer,
                        start.data_path.right_buffer,
                    ),
                    ..start
                }));
            }
            let ghost staged = *self;
            let stored = self.store_operand(destination);
            proof {
                ControlUnit::lemma_store_moves_on(staged, *self, destination, ExecutionState::Done);
            }
            if !stored {
                return ;
            }
            self.execution_state = ExecutionState::Done;
        }
    }

    /// Step 5 of an ALU instruction with two sources and a destination.
    #[verifier::rlimit(25)]
    fn three_operand_reload(&mut self, alu_op: AluOperator)
        requires
            old(self).fault is None,
        ensures
            final(self).step_outcome(old(self)),
            old(self).three_operand_done(final(self), 5, alu_op),
    {
        proof {
            reveal(ControlUnit::three_operand_done);
        }
        let destination = match self.parse_data_writable(3) {
            Some(d) => d,
            None => {
                self.fail(MachineFault::ImmediateDestination);
                return ;
            },
        };
        let ghost start = *self;
        if !self.load_indirect_operand(AluInput::Nothing, PrepareMode::Register) {
            return ;
        }
        self.data_path.update_left_alu_input(AluInputSelector::Buffer);
        self.data_path.update_right_alu_input(AluInputSelector::Buffer);
        self.data_path.execute_alu(alu_op);
        proof {
            let read = loaded(start.data_path, AluInput::Nothing, PrepareMode::Register, start.word_size);
            assert(*self == (ControlUnit {
                data_path: after_alu(read, alu_op, read.left_buffer, read.right_buffer),
                ..start
            }));
        }
        let ghost staged = *self;
        let stored = self.store_operand(destination);
        proof {
            ControlUnit::lemma_store_moves_on(staged, *self, destination, ExecutionState::Execute(6));
        }
        if !stored {
            return ;
        }
        self.execution_state = ExecutionState::Execute(6);
    }

    fn execute_3_operand_operator(&mut self, step: u8, alu_op: AluOperator)
        requires
            old(self).fault is None,
        ensures
            final(self).step_outcome(old(self)),
            old(self).three_operand_done(final(self), step, alu_op),
    {
        match step {
            0 => self.three_operand_start(alu_op),
            1 => {
                proof {
                    reveal(ControlUnit::three_operand_done);
                }
                if !self.load_indirect_operand(AluInput::Left, PrepareMode::Register) {
                    return ;
                }
                self.execution_state = ExecutionState::Execute(2);
            },
            2 => self.three_operand_right(alu_op),
            3 => {
                proof {
                    reveal(ControlUnit::three_operand_done);
                }
                if !self.load_indirect_operand(AluInput::Right, PrepareMode::Register) {
                    return ;
                }
                self.execution_state = ExecutionState::Execute(4);
            },
            4 => self.three_operand_finish(alu_op),
            5 => self.three_operand_reload(alu_op),
            6 => {
                proof {
                    reveal(ControlUnit::three_operand_done);
                }
                if !self.store_indirect_operand() {
                    return ;
                }
                self.execution_state = ExecutionState::Done;
            },
            _ => {
                proof {
                    reveal(ControlUnit::three_operand_done);
                }
                self.fail(MachineFault::InvalidStep);
            },
        }
    }

    /// Computes a vector operand's address into the data address.
    fn vector_address(&mut self, operand: &Operand, indirect: bool) -> (ok: bool)
        requires
            old(self).consistent(),
            operand.main_register < 8,
            operand.offset < 4,
        ensures
            final(self).helper_outcome(old(self), ok),
            indirect && !old(self).data_path.data_address_in_range() ==> !ok && *final(self) == old(
                self,
            ).failed(MachineFault::DataAddressOutOfRange),
            !indirect || old(self).data_path.data_address_in_range() ==> {
                let carried = passed_left(
                    if indirect {
                        loaded(
                            old(self).data_path,
                            AluInput::Left,
                            PrepareMode::Immediate,
                            old(self).word_size,
                        )
                    } else {
                        old(self).data_path
                    },
                );
                &&& ok == data_address_latchable(carried)
                &&& !ok ==> *final(self) == (ControlUnit {
                    data_path: carried,
                    ..old(self).failed(MachineFault::AddressOverflow)
                })
                &&& ok ==> *final(self) == (ControlUnit {
                    data_path: DataPath { data_address: next_data_address(carried), ..carried },
                    ..*old(self)
                })
            },
    {
        if indirect {
            if !self.load_indirect_operand(AluInput::Left, PrepareMode::Immediate) {
                return false;
            }
        }
        self.data_path.update_left_alu_input(AluInputSelector::Data);
        self.data_path.execute_alu(AluOperator::Trl);
        self.latch_address_for_data()
    }

    /// Reads the left vector at the data address and runs the vector ALU on it and the right
    /// vector, setting the vector result.
    fn combine_vectors(
        &mut self,
        operator: VectorAluOperator,
        vector_mode_selector: VectorModeSelector,
        branch_selector: BranchSelector,
    ) -> (ok: bool)
        requires
            old(self).consistent(),
        ensures
            final(self).helper_outcome(old(self), ok),
            ok == old(self).data_path.data_address_in_range(),
            !ok ==> *final(self) == old(self).failed(MachineFault::DataAddressOutOfRange),
            ok ==> final(self).data_path.left_vector_input == addressed_word(old(self).data_path),
            ok ==> forall|lane: int|
                0 <= lane < 4 ==> #[trigger] final(self).data_path.vector_output_mux@[lane]
                    == vector_lane(
                    old(self).data_path,
                    addressed_word(old(self).data_path),
                    operator,
                    vector_mode_selector,
                    branch_selector,
                    lane,
                ),
            ok ==> *final(self) == (ControlUnit {
                data_path: DataPath {
                    memory_output: addressed_word(old(self).data_path),
                    left_vector_input: addressed_word(old(self).data_path),
                    vector_output: final(self).data_path.vector_output,
                    vector_output_mux: final(self).data_path.vector_output_mux,
                    vector_alu: final(self).data_path.vector_alu,
                    ..old(self).data_path
                },
                ..*old(self)
            }),
    {
        let ghost before = self.data_path;
        if !self.read_memory() {
            return false;
        }
        self.data_path.latch_left_vector_input_register();
        self.data_path.execute_vector_alu(operator);
        let ghost computed = self.data_path;
        self.data_path.update_vector_alu_output_mux(vector_mode_selector, branch_selector);
        proof {
            assert forall|lane: int| 0 <= lane < 4 implies #[trigger] self.data_path.vector_output_mux@[lane]
                == vector_lane(
                before,
                addressed_word(before),
                operator,
                vector_mode_selector,
                branch_selector,
                lane,
            ) by {
                assert(computed.vector_output@[lane] == alu_outcome(
                    lane_operator(operator),
                    addressed_word(before)@[lane],
                    before.right_vector_input@[lane],
                    before.vector_alu.block@[lane].nzcv.carry,
                ).result);
                assert(self.data_path.vector_output_mux@[lane] == self.data_path.vector_output_mux@[lane]);
            }
        }
        true
    }

    /// What each micro-step of a vector instruction does: both vectors are read from memory,
    /// combined lane by lane, and the result is stored.
    #[verifier::opaque]
    pub open spec fn vector_done(
        &self,
        final_state: &Self,
        step: u8,
        operator: VectorAluOperator,
        vector_mode_selector: VectorModeSelector,
        branch_selector: BranchSelector,
    ) -> bool {
        &&& (step == 0 && final_state.fault is None ==> final_state.execution_state == if in_memory(
                self.operand_in(1),
            ) {
                ExecutionState::Execute(1)
            } else {
                ExecutionState::Execute(2)
            })
        &&& (step == 1 || step == 3 || step == 5 ==> self.data_path.data_address_in_range() || final_state.fault is Some)
        &&& ((step == 1 || step == 3 || step == 5) && final_state.fault is None ==> {
                &&& final_state.execution_state == ExecutionState::Execute((step + 1) as u8)
                &&& final_state.data_path.data_address == next_data_address(
                    passed_left(
                        loaded(
                            self.data_path,
                            AluInput::Left,
                            PrepareMode::Immediate,
                            self.word_size,
                        ),
                    ),
                )
            })
        &&& ((step == 2 || step == 4 || step == 6) && !self.data_path.data_address_in_range()
                ==> *final_state == self.failed(MachineFault::DataAddressOutOfRange))
        &&& (step == 2 && self.data_path.data_address_in_range() ==> final_state.data_path.right_vector_input == addressed_word(self.data_path))
        &&& (step == 2 && final_state.fault is None ==> final_state.execution_state == if in_memory(
                self.operand_in(2),
            ) {
                ExecutionState::Execute(3)
            } else {
                ExecutionState::Execute(4)
            })
        &&& (step == 4 && self.data_path.data_address_in_range() ==> {
                &&& final_state.data_path.left_vector_input == addressed_word(self.data_path)
                &&& forall|lane: int|
                    0 <= lane < 4 ==> #[trigger] final_state.data_path.vector_output_mux@[lane]
                        == vector_lane(
                        self.data_path,
                        addressed_word(self.data_path),
                        operator,
                        vector_mode_selector,
                        branch_selector,
                        lane,
                    )
            })
        &&& (step == 4 && final_state.fault is None ==> final_state.execution_state == if in_memory(
                self.operand_in(3),
            ) {
                ExecutionState::Execute(5)
            } else {
                ExecutionState::Execute(6)
            })
        &&& (step == 6 && self.data_path.data_address_in_range() ==> {
                &&& final_state.data_path.data_memory.data@
                    == self.data_path.data_memory.data@.update(
                    self.data_path.data_word_index(),
                    self.data_path.vector_output_mux,
                )
                &&& *final_state == (ControlUnit {
                    data_path: DataPath {
                        data_memory: final_state.data_path.data_memory,
                        ..self.data_path
                    },
                    execution_state: ExecutionState::Done,
                    ..*self
                })
            })
        &&& (step > 6 ==> *final_state == self.failed(MachineFault::InvalidStep))
    }

    #[verifier::rlimit(25)]
    #[verifier::spinoff_prover]
    fn execute_vector(
        &mut self,
        step: u8,
        operator: VectorAluOperator,
        vector_mode_selector: VectorModeSelector,
        branch_selector: BranchSelector,
    )
        requires
            old(self).fault is None,
        ensures
            final(self).step_outcome(old(self)),
            old(self).vector_done(final(self), step, operator, vector_mode_selector, branch_selector),
    {
        proof {
            reveal(ControlUnit::vector_done);
        }
        match step {
            0 => {
                let right = self.parse_data_readable(1);
                if !self.prepare_operand(AluInput::Left, &right, PrepareMode::Immediate) {
                    return ;
                }
                if Self::is_operand_needed_second_step(&right) {
                    self.execution_state = ExecutionState::Execute(1);
                } else {
                    if !self.vector_address(&right, false) {
                        return ;
                    }
                    self.execution_state = ExecutionState::Execute(2);
                }
            },
            1 => {
                let right = self.parse_data_readable(1);
                if !self.vector_address(&right, true) {
                    return ;
                }
                self.execution_state = ExecutionState::Execute(2);
            },
            2 => {
                if !self.read_memory() {
                    return ;
                }
                self.data_path.latch_right_vector_input_register();
                let left = self.parse_data_readable(2);
                if !self.prepare_operand(AluInput::Left, &left, PrepareMode::Immediate) {
                    return ;
                }
                if Self::is_operand_needed_second_step(&left) {
                    self.execution_state = ExecutionState::Execute(3);
                } else {
                    if !self.vector_address(&left, false) {
                        return ;
                    }
                    self.execution_state = ExecutionState::Execute(4);
                }
            },
            3 => {
                let left = self.parse_data_readable(2);
                if !self.vector_address(&left, true) {
                    return ;
                }
                self.execution_state = ExecutionState::Execute(4);
            },
            4 => {
                if !self.combine_vectors(operator, vector_mode_selector, branch_selector) {
                    return ;
                }
                let destination = self.parse_data_readable(3);
                if !self.prepare_operand(AluInput::Left, &destination, PrepareMode::Immediate) {
                    return ;
                }
                if Self::is_operand_needed_second_step(&destination) {
                    self.execution_state = ExecutionState::Execute(5);
                } else {
                    if !self.vector_address(&destination, false) {
                        return ;
                    }
                    self.execution_state = ExecutionState::Execute(6);
                }
            },
            5 => {
                let destination = self.parse_data_readable(3);
                if !self.vector_address(&destination, true) {
                    return ;
                }
                self.execution_state = ExecutionState::Execute(6);
            },
            6 => {
                if !self.write_memory(WriteSelector::Vector) {
                    return ;
                }
                self.execution_state = ExecutionState::Done;
            },
            _ => {
                self.fail(MachineFault::InvalidStep);
            },
        }
    }

    fn execute_jump(&mut self, step: u8)
        requires
            old(self).fault is None,
        ensures
            final(self).step_outcome(old(self)),
            step == 0 && old(self).pc < old(self).program_memory.data@.len() ==> *final(self) == (
            ControlUnit {
                read_data: old(self).program_memory.data@[old(self).pc as int],
                pc: branch_address(old(self).ir, old(self).program_memory.data@[old(self).pc as int]),
                execution_state: ExecutionState::Done,
                ..*old(self)
            }),
    {
        match step {
            0 => {
                if !self.update_read_data() {
                    return ;
                }
                if !self.latch_pc(PcSelector::ByAddress) {
                    return ;
                }
                self.execution_state = ExecutionState::Done;
            },
            _ => {
                self.fail(MachineFault::InvalidStep);
            },
        }
    }

    /// What each micro-step of `CALL` does: the return address is pushed and the program
    /// counter takes the target.
    #[verifier::opaque]
    pub open spec fn call_done(&self, final_state: &Self, step: u8) -> bool {
        &&& (step == 0 && self.pc >= self.program_memory.data@.len() ==> *final_state
                == self.failed(MachineFault::ProgramAddressOutOfRange))
        &&& (step == 0 && self.pc < self.program_memory.data@.len() ==> self.call_entered().after_push(final_state, ExecutionState::Execute(1)))
        &&& (step == 1 ==> self.after_stack_read(final_state, ExecutionState::Execute(2)))
        &&& (step == 2 ==> self.after_lane_write(
                final_state,
                DataPath {
                    right_alu_input: self.data_path.right_buffer,
                    alu_output: self.data_path.right_buffer,
                    alu: Alu {
                        nzcv: flags_after(
                            self.data_path.alu.nzcv,
                            alu_outcome(
                                AluOperator::Trr,
                                self.data_path.left_alu_input,
                                self.data_path.right_buffer,
                                self.data_path.alu.nzcv.carry,
                            ),
                        ),
                    },
                    ..self.data_path
                },
                self.data_path.right_buffer,
                WordSize::Long,
                ExecutionState::Execute(3),
            ))
        &&& (step == 3 ==> self.after_store(final_state, ExecutionState::Done))
        &&& (step > 3 ==> *final_state == self.failed(MachineFault::InvalidStep))
    }

    fn execute_call(&mut self, step: u8)
        requires
            old(self).fault is None,
        ensures
            final(self).step_outcome(old(self)),
            old(self).call_done(final(self), step),
    {
        proof {
            reveal(ControlUnit::call_done);
        }
        match step {
            0 => {
                let ghost before = *self;
                if !self.update_read_data() {
                    return ;
                }
                proof {
                    assert(before.pc < before.program_memory.data.len());
                }
                if !self.update_output_pc_mux(OutputPcSelector::Next) {
                    return ;
                }
                self.update_control_unit_output(OutputSelector::PC);
                self.data_path.external_selector = ExternalSelector::ControlUnit;
                self.data_path.update_right_data(DataSelector::External);
                self.data_path.latch_right_data_register();
                if !self.latch_pc(PcSelector::ByAddress) {
                    return ;
                }
                proof {
                    assert(*self == before.call_entered());
                }
                if !self.prepare_stack_with_decrement() {
                    return ;
                }
                self.execution_state = ExecutionState::Execute(1);
            },
            1 => {
                if !self.read_memory() {
                    return ;
                }
                self.data_path.update_write_data_mux(WriteDataSelector::Memory);
                self.data_path.latch_write_data();
                self.execution_state = ExecutionState::Execute(2);
            },
            2 => {
                self.data_path.update_right_alu_input(AluInputSelector::Buffer);
                self.data_path.execute_alu(AluOperator::Trr);
                self.data_path.update_write_data_mux(WriteDataSelector::Alu);
                self.data_path.latch_write_data_part(&WordSize::Long);
                self.execution_state = ExecutionState::Execute(3);
            },
            3 => {
                if !self.write_memory(WriteSelector::Scalar) {
                    return ;
                }
                self.execution_state = ExecutionState::Done;
            },
            _ => {
                self.fail(MachineFault::InvalidStep);
            },
        }
    }

    /// Pops the return address from the stack into the program counter.
    fn pop_program_counter(&mut self) -> (ok: bool)
        requires
            old(self).consistent(),
        ensures
            final(self).helper_outcome(old(self), ok),
            ok == old(self).data_path.data_address_in_range(),
            !ok ==> *final(self) == old(self).failed(MachineFault::DataAddressOutOfRange),
            ok ==> *final(self) == (ControlUnit {
                pc: addressed_value(old(self).data_path, WordSize::Long),
                data_path: passed_left(
                    DataPath {
                        memory_output: addressed_word(old(self).data_path),
                        memory_output_mmux: addressed_value(old(self).data_path, WordSize::Long),
                        left_data: addressed_value(old(self).data_path, WordSize::Long),
                        ..old(self).data_path
                    },
                ),
                ..*old(self)
            }),
    {
        if !self.read_memory() {
            return false;
        }
        self.data_path.update_memory_output_mmux(&WordSize::Long);
        self.data_path.update_left_data(DataSelector::Memory);
        self.data_path.update_left_alu_input(AluInputSelector::Data);
        self.data_path.execute_alu(AluOperator::Trl);
        self.latch_pc(PcSelector::ByDataPath)
    }

    /// What each micro-step of `RET` does: the return address is popped into the program
    /// counter.
    #[verifier::opaque]
    pub open spec fn return_done(&self, final_state: &Self, step: u8) -> bool {
        &&& (step == 0 ==> self.after_pop(final_state, ExecutionState::Execute(1)))
        &&& (step == 1 ==> self.after_pc_pop(final_state, ExecutionState::Done))
        &&& (step > 1 ==> *final_state == self.failed(MachineFault::InvalidStep))
    }

    fn execute_return(&mut self, step: u8)
        requires
            old(self).fault is None,
        ensures
            final(self).step_outcome(old(self)),
            old(self).return_done(final(self), step),
    {
        proof {
            reveal(ControlUnit::return_done);
        }
        match step {
            0 => {
                if !self.prepare_stack_with_increment() {
                    return ;
                }
                self.execution_state = ExecutionState::Execute(1);
            },
            1 => {
                if !self.pop_program_counter() {
                    return ;
                }
                self.execution_state = ExecutionState::Done;
            },
            _ => {
                self.fail(MachineFault::InvalidStep);
            },
        }
    }

    /// What each micro-step of entering an interrupt does: interrupts are disabled, the flags
    /// and the return address are pushed and the program counter takes the interrupt vector.
    #[verifier::opaque]
    pub open spec fn interrupt_entry_done(&self, final_state: &Self, step: u8) -> bool {
        &&& (step == 0 ==> {
                let entered = self.interrupt_entered();
                let vector = self.data_path.io.interrupt_vector as int;
                if vector < self.vector_table@.len() && self.vector_table@[vector] is Some {
                    (ControlUnit { pc: self.vector_table@[vector]->0, ..entered }).after_push(
                        final_state,
                        ExecutionState::Execute(1),
                    )
                } else {
                    *final_state == entered.failed(MachineFault::MissingInterruptVector)
                }
            })
        &&& (step == 1 ==> self.after_stack_read(final_state, ExecutionState::Execute(2)))
        &&& (step == 2 ==> self.after_lane_write(
                final_state,
                DataPath {
                    alu_output: packed_flags(self.data_path.alu.nzcv) as u64,
                    ..self.data_path
                },
                packed_flags(self.data_path.alu.nzcv) as u64,
                WordSize::Byte,
                ExecutionState::Execute(3),
            ))
        &&& (step == 3 && !self.data_path.data_address_in_range() ==> *final_state == self.failed(MachineFault::DataAddressOutOfRange))
        &&& (step == 3 && self.data_path.data_address_in_range() ==> {
                &&& final_state.data_path.data_memory.data@
                    == self.data_path.data_memory.data@.update(
                    self.data_path.data_word_index(),
                    self.data_path.write_data,
                )
                &&& (ControlUnit {
                    data_path: DataPath {
                        data_memory: final_state.data_path.data_memory,
                        ..self.data_path
                    },
                    ..*self
                }).after_push(final_state, ExecutionState::Execute(4))
            })
        &&& (step == 4 ==> self.after_stack_read(final_state, ExecutionState::Execute(5)))
        &&& (step == 5 ==> self.after_lane_write(
                final_state,
                passed_left(
                    DataPath {
                        external_selector: ExternalSelector::ControlUnit,
                        left_data: self.data_path.control_unit_output,
                        ..self.data_path
                    },
                ),
                self.data_path.control_unit_output,
                WordSize::Long,
                ExecutionState::Execute(6),
            ))
        &&& (step == 6 && !self.data_path.data_address_in_range() ==> *final_state == self.failed(MachineFault::DataAddressOutOfRange))
        &&& (step == 6 && self.data_path.data_address_in_range() ==> (ControlUnit {
                interrupt_processing: false,
                ..*self
            }).after_store(
                final_state,
                ExecutionState::Done,
            ))
        &&& (step > 6 ==> *final_state == self.failed(MachineFault::InvalidStep))
    }

    /// Step 0 of entering an interrupt.
    #[verifier::rlimit(25)]
    fn interrupt_step_0(&mut self)
        requires
            old(self).fault is None,
        ensures
            final(self).step_outcome(old(self)),
            old(self).interrupt_entry_done(final(self), 0),
    {
        proof {
            reveal(ControlUnit::interrupt_entry_done);
        }
        self.interrupt_flag = false;
        if !self.update_output_pc_mux(OutputPcSelector::Current) {
            return ;
        }
        self.update_control_unit_output(OutputSelector::PC);
        if !self.latch_pc(PcSelector::ByInterrupt) {
            return ;
        }
        if !self.prepare_stack_with_decrement() {
            return ;
        }
        self.execution_state = ExecutionState::Execute(1);
    }

    /// Step 1 of entering an interrupt.
    #[verifier::rlimit(25)]
    fn interrupt_step_1(&mut self)
        requires
            old(self).fault is None,
        ensures
            final(self).step_outcome(old(self)),
            old(self).interrupt_entry_done(final(self), 1),
    {
        proof {
            reveal(ControlUnit::interrupt_entry_done);
        }
        if !self.read_memory() {
            return ;
        }
        self.data_path.update_write_data_mux(WriteDataSelector::Memory);
        self.data_path.latch_write_data();
        self.execution_state = ExecutionState::Execute(2);
    }

    /// Step 2 of entering an interrupt.
    #[verifier::rlimit(25)]
    fn interrupt_step_2(&mut self)
        requires
            old(self).fault is None,
        ensures
            final(self).step_outcome(old(self)),
            old(self).interrupt_entry_done(final(self), 2),
    {
        proof {
            reveal(ControlUnit::interrupt_entry_done);
        }
        self.data_path.set_nzcv_to_alu_output();
        self.data_path.update_write_data_mux(WriteDataSelector::Alu);
        self.data_path.latch_write_data_part(&WordSize::Byte);
        self.execution_state = ExecutionState::Execute(3);
    }

    /// Step 3 of entering an interrupt.
    #[verifier::rlimit(25)]
    fn interrupt_step_3(&mut self)
        requires
            old(self).fault is None,
        ensures
            final(self).step_outcome(old(self)),
            old(self).interrupt_entry_done(final(self), 3),
    {
        proof {
            reveal(ControlUnit::interrupt_entry_done);
        }
        if !self.write_memory(WriteSelector::Scalar) {
            return ;
        }
        if !self.prepare_stack_with_decrement() {
            return ;
        }
        self.execution_state = ExecutionState::Execute(4);
    }

    /// Step 4 of entering an interrupt.
    #[verifier::rlimit(25)]
    fn interrupt_step_4(&mut self)
        requires
            old(self).fault is None,
        ensures
            final(self).step_outcome(old(self)),
            old(self).interrupt_entry_done(final(self), 4),
    {
        proof {
            reveal(ControlUnit::interrupt_entry_done);
        }
        if !self.read_memory() {
            return ;
        }
        self.data_path.update_write_data_mux(WriteDataSelector::Memory);
        self.data_path.latch_write_data();
        self.execution_state = ExecutionState::Execute(5);
    }

    /// Step 5 of entering an interrupt.
    #[verifier::rlimit(25)]
    fn interrupt_step_5(&mut self)
        requires
            old(self).fault is None,
        ensures
            final(self).step_outcome(old(self)),
            old(self).interrupt_entry_done(final(self), 5),
    {
        proof {
            reveal(ControlUnit::interrupt_entry_done);
        }
        self.data_path.external_selector = ExternalSelector::ControlUnit;
        self.data_path.update_left_data(DataSelector::External);
        self.data_path.update_left_alu_input(AluInputSelector::Data);
        self.data_path.execute_alu(AluOperator::Trl);
        self.data_path.update_write_data_mux(WriteDataSelector::Alu);
        self.data_path.latch_write_data_part(&WordSize::Long);
        self.execution_state = ExecutionState::Execute(6);
    }

    /// Step 6 of entering an interrupt.
    #[verifier::rlimit(25)]
    fn interrupt_step_6(&mut self)
        requires
            old(self).fault is None,
        ensures
            final(self).step_outcome(old(self)),
            old(self).interrupt_entry_done(final(self), 6),
    {
        proof {
            reveal(ControlUnit::interrupt_entry_done);
        }
        if !self.write_memory(WriteSelector::Scalar) {
            return ;
        }
        self.interrupt_processing = false;
        self.execution_state = ExecutionState::Done;
    }

    fn execute_interrupt(&mut self, step: u8)
        requires
            old(self).fault is None,
        ensures
            final(self).step_outcome(old(self)),
            old(self).interrupt_entry_done(final(self), step),
    {
        match step {
            0 => self.interrupt_step_0(),
            1 => self.interrupt_step_1(),
            2 => self.interrupt_step_2(),
            3 => self.interrupt_step_3(),
            4 => self.interrupt_step_4(),
            5 => self.interrupt_step_5(),
            6 => self.interrupt_step_6(),
            _ => {
                proof {
                    reveal(ControlUnit::interrupt_entry_done);
                }
                self.fail(MachineFault::InvalidStep);
            },
        }
    }

    /// What each micro-step of `INTRET` does: the program counter and then the flags are popped,
    /// and interrupts are enabled again.
    #[verifier::opaque]
    pub open spec fn interrupt_return_done(&self, final_state: &Self, step: u8) -> bool {
        &&& (step == 0 ==> self.after_pop(final_state, ExecutionState::Execute(1)))
        &&& (step == 1 ==> self.after_pc_pop(final_state, ExecutionState::Execute(2)))
        &&& (step == 2 ==> self.after_pop(final_state, ExecutionState::Execute(3)))
        &&& (step == 3 && !self.data_path.data_address_in_range() ==> *final_state == self.failed(MachineFault::DataAddressOutOfRange))
        &&& (step == 3 && self.data_path.data_address_in_range() ==> *final_state == (
            ControlUnit {
                interrupt_flag: true,
                execution_state: ExecutionState::Done,
                data_path: DataPath {
                    alu: Alu {
                        nzcv: unpacked_flags(
                            (addressed_value(self.data_path, WordSize::Byte) & 0xff) as u8,
                        ),
                    },
                    ..passed_left(
                        DataPath {
                            memory_output: addressed_word(self.data_path),
                            memory_output_mmux: addressed_value(self.data_path, WordSize::Byte),
                            left_data: addressed_value(self.data_path, WordSize::Byte),
                            ..self.data_path
                        },
                    )
                },
                ..*self
            }))
        &&& (step > 3 ==> *final_state == self.failed(MachineFault::InvalidStep))
    }

    fn execute_interrupt_return(&mut self, step: u8)
        requires
            old(self).fault is None,
        ensures
            final(self).step_outcome(old(self)),
            old(self).interrupt_return_done(final(self), step),
    {
        proof {
            reveal(ControlUnit::interrupt_return_done);
        }
        match step {
            0 => {
                if !self.prepare_stack_with_increment() {
                    return ;
                }
                self.execution_state = ExecutionState::Execute(1);
            },
            1 => {
                if !self.pop_program_counter() {
                    return ;
                }
                self.execution_state = ExecutionState::Execute(2);
            },
            2 => {
                if !self.prepare_stack_with_increment() {
                    return ;
                }
                self.execution_state = ExecutionState::Execute(3);
            },
            3 => {
                if !self.read_memory() {
                    return ;
                }
                self.data_path.update_memory_output_mmux(&WordSize::Byte);
                self.data_path.update_left_data(DataSelector::Memory);
                self.data_path.update_left_alu_input(AluInputSelector::Data);
                self.data_path.execute_alu(AluOperator::Trl);
                self.data_path.restore_nzcv();
                self.interrupt_flag = true;
                self.execution_state = ExecutionState::Done;
            },
            _ => {
                self.fail(MachineFault::InvalidStep);
            },
        }
    }

    fn execute_branch(&mut self, step: u8, condition: bool)
        requires
            old(self).fault is None,
        ensures
            final(self).step_outcome(old(self)),
            step == 0 && old(self).pc < old(self).program_memory.data@.len() && (condition || old(
                self,
            ).pc < u64::MAX) ==> *final(self) == (ControlUnit {
                read_data: old(self).program_memory.data@[old(self).pc as int],
                pc: if condition {
                    branch_address(old(self).ir, old(self).program_memory.data@[old(self).pc as int])
                } else {
                    (old(self).pc + 1) as u64
                },
                execution_state: ExecutionState::Done,
                ..*old(self)
            }),
    {
        match step {
            0 => {
                if !self.update_read_data() {
                    return ;
                }
                let signal = if condition {
                    PcSelector::ByAddress
                } else {
                    PcSelector::NextWord
                };
                if !self.latch_pc(signal) {
                    return ;
                }
                self.execution_state = ExecutionState::Done;
            },
            _ => {
                self.fail(MachineFault::InvalidStep);
            },
        }
    }

    /// What each micro-step of `IN` does: the port's value goes to the destination.
    #[verifier::opaque]
    pub open spec fn input_done(&self, final_state: &Self, step: u8) -> bool {
        &&& (step == 0 ==> final_state.data_path.io.output == crate::machine::io::read_port_value(
                self.data_path.io,
                instruction_byte(self.ir, 1),
            ))
        &&& (step == 0 && self.operand_in(2).mode == Mode::Direct ==> *final_state == (
            ControlUnit {
                data_path: final_state.data_path,
                ..self.failed(MachineFault::ImmediateDestination)
            }))
        &&& (step == 0 && self.operand_in(2).mode == Mode::DataRegister ==> {
                &&& final_state.fault is None
                &&& final_state.execution_state == ExecutionState::Done
                &&& final_state.pc == self.pc
                &&& final_state.data_path.data_registers@ == self.data_path.data_registers@.update(
                    self.operand_in(2).main_register as int,
                    (crate::machine::io::read_port_value(
                        self.data_path.io,
                        instruction_byte(self.ir, 1),
                    ) as u64) & width_mask(self.word_size),
                )
            })
        &&& (step == 0 && in_memory(self.operand_in(2)) && final_state.fault is None
                ==> final_state.execution_state == ExecutionState::Execute(1))
        &&& (step == 0 && self.operand_in(2).mode == Mode::AddressRegister && final_state.fault is None ==> final_state.execution_state == ExecutionState::Done)
        &&& (step == 1 && self.operand_in(2).mode == Mode::Direct ==> *final_state == self.failed(MachineFault::ImmediateDestination))
        &&& (step == 1 && in_memory(self.operand_in(2))
                && !self.data_path.data_address_in_range() ==> *final_state == self.failed(MachineFault::DataAddressOutOfRange))
        &&& (step == 1 && in_memory(self.operand_in(2))
                && self.data_path.data_address_in_range() ==> {
                let word = addressed_word(self.data_path);
                let lane = self.data_path.data_lane();
                &&& final_state.fault is None
                &&& final_state.execution_state == ExecutionState::Execute(2)
                &&& final_state.data_path.write_data@ == word@.update(
                    lane,
                    merge_part(word@[lane], self.data_path.right_buffer, self.word_size),
                )
            })
        &&& (step == 2 ==> self.after_store(final_state, ExecutionState::Done))
        &&& (step > 2 ==> *final_state == self.failed(MachineFault::InvalidStep))
    }

    fn execute_input(&mut self, step: u8)
        requires
            old(self).fault is None,
        ensures
            final(self).step_outcome(old(self)),
            old(self).input_done(final(self), step),
    {
        proof {
            reveal(ControlUnit::input_done);
        }
        match step {
            0 => {
                let port = self.parse_port(1);
                self.data_path.read_io(port);
                self.data_path.io.update_interrupt_vector();
                self.data_path.external_selector = ExternalSelector::IO;
                let operand = match self.parse_data_writable(2) {
                    Some(d) => d,
                    None => {
                        self.fail(MachineFault::ImmediateDestination);
                        return ;
                    },
                };
                if !self.prepare_operand(AluInput::Left, &operand, PrepareMode::Immediate) {
                    return ;
                }
                if Self::is_operand_needed_second_step(&operand) {
                    self.data_path.update_right_data(DataSelector::External);
                    self.data_path.latch_right_data_register();
                    self.execution_state = ExecutionState::Execute(1);
                } else {
                    self.data_path.update_right_data(DataSelector::External);
                    self.data_path.update_right_alu_input(AluInputSelector::Data);
                    self.data_path.execute_alu(AluOperator::Trr);
                    if !self.store_operand(operand) {
                        return ;
                    }
                    self.execution_state = ExecutionState::Done;
                }
            },
            1 => {
                let operand = match self.parse_data_writable(2) {
                    Some(d) => d,
                    None => {
                        self.fail(MachineFault::ImmediateDestination);
                        return ;
                    },
                };
                if !self.load_indirect_operand(AluInput::Left, PrepareMode::Immediate) {
                    return ;
                }
                self.data_path.update_right_alu_input(AluInputSelector::Buffer);
                self.data_path.execute_alu(AluOperator::Trr);
                if !self.store_operand(operand) {
                    return ;
                }
                self.execution_state = ExecutionState::Execute(2);
            },
            2 => {
                if !self.store_indirect_operand() {
                    return ;
                }
                self.execution_state = ExecutionState::Done;
            },
            _ => {
                self.fail(MachineFault::InvalidStep);
            },
        }
    }

    /// What each micro-step of `OUT` does: the operand's value goes to the port.
    #[verifier::opaque]
    pub open spec fn output_done(&self, final_state: &Self, step: u8) -> bool {
        &&& (step == 0 && !in_memory(self.operand_in(2)) && !self.operand_ready(
                self.operand_in(2),
            ) ==> *final_state == self.failed(MachineFault::ProgramAddressOutOfRange))
        &&& (step == 0 && !in_memory(self.operand_in(2)) && self.operand_ready(
                self.operand_in(2),
            ) ==> self.after_output(
                final_state,
                instruction_byte(self.ir, 1),
                self.operand_value(self.operand_in(2)),
            ))
        &&& (step == 0 && in_memory(self.operand_in(2)) && final_state.fault is None ==> final_state.execution_state == ExecutionState::Execute(1))
        &&& (step == 1 && !self.data_path.data_address_in_range() ==> *final_state == self.failed(MachineFault::DataAddressOutOfRange))
        &&& (step == 1 && self.data_path.data_address_in_range() ==> self.after_output(
                final_state,
                instruction_byte(self.ir, 1),
                addressed_value(self.data_path, self.word_size),
            ))
        &&& (step > 1 ==> *final_state == self.failed(MachineFault::InvalidStep))
    }

    fn execute_output(&mut self, step: u8)
        requires
            old(self).fault is None,
        ensures
            final(self).step_outcome(old(self)),
            old(self).output_done(final(self), step),
    {
        proof {
            reveal(ControlUnit::output_done);
        }
        match step {
            0 => {
                let port = self.parse_port(1);
                let operand = self.parse_data_readable(2);
                if !self.prepare_operand(AluInput::Left, &operand, PrepareMode::Immediate) {
                    return ;
                }
                if Self::is_operand_needed_second_step(&operand) {
                    self.execution_state = ExecutionState::Execute(1);
                } else {
                    self.data_path.update_left_alu_input(AluInputSelector::Data);
                    self.data_path.execute_alu(AluOperator::Trl);
                    self.data_path.write_io(port);
                    self.execution_state = ExecutionState::Done;
                }
            },
            1 => {
                let port = self.parse_port(1);
                if !self.load_indirect_operand(AluInput::Left, PrepareMode::Immediate) {
                    return ;
                }
                self.data_path.update_left_alu_input(AluInputSelector::Data);
                self.data_path.execute_alu(AluOperator::Trl);
                self.data_path.write_io(port);
                self.execution_state = ExecutionState::Done;
            },
            _ => {
                self.fail(MachineFault::InvalidStep);
            },
        }
    }

    fn enable_interrupt(&mut self, step: u8)
        requires
            old(self).fault is None,
        ensures
            final(self).step_outcome(old(self)),
            step == 0 ==> *final(self) == (ControlUnit {
                interrupt_flag: true,
                execution_state: ExecutionState::Done,
                ..*old(self)
            }),
    {
        match step {
            0 => {
                self.interrupt_flag = true;
                self.execution_state = ExecutionState::Done;
            },
            _ => {
                self.fail(MachineFault::InvalidStep);
            },
        }
    }

    fn disable_interrupt(&mut self, step: u8)
        requires
            old(self).fault is None,
        ensures
            final(self).step_outcome(old(self)),
            step == 0 ==> *final(self) == (ControlUnit {
                interrupt_flag: false,
                execution_state: ExecutionState::Done,
                ..*old(self)
            }),
    {
        match step {
            0 => {
                self.interrupt_flag = false;
                self.execution_state = ExecutionState::Done;
            },
            _ => {
                self.fail(MachineFault::InvalidStep);
            },
        }
    }

    /// Runs one micro-step of the current instruction: one tick.
    /// What micro-step `step` of the current instruction does; the state is taken with the
    /// tick already advanced.
    pub open spec fn operation_done(&self, final_state: &Self, step: u8) -> bool {
        match self.operator {
            Operator::Hlt => *final_state == (ControlUnit {
                execution_state: ExecutionState::Stop,
                ..*self
            }),
            Operator::Mov | Operator::Mova => self.two_operand_done(final_state, step, AluOperator::Trl),
            Operator::Not => self.two_operand_done(final_state, step, AluOperator::Not),
            Operator::Cmp => self.compare_done(final_state, step),
            Operator::Call => self.call_done(final_state, step),
            Operator::Ret => self.return_done(final_state, step),
            Operator::IntRet => self.interrupt_return_done(final_state, step),
            Operator::In => self.input_done(final_state, step),
            Operator::Out => self.output_done(final_state, step),
            _ => match three_operand_operation(self.operator) {
                Some(operation) => self.three_operand_done(final_state, step, operation),
                None => match vector_form(self.operator) {
                    Some((operator, mode, branch)) => self.vector_done(
                        final_state,
                        step,
                        operator,
                        mode,
                        branch,
                    ),
                    None => true,
                },
            },
        }
    }

    fn execute_step(&mut self, step: u8)
        requires
            old(self).fault is None,
        ensures
            old(self).tick < u64::MAX && !old(self).interrupt_processing ==> old(
                self,
            ).ticked().operation_done(final(self), step),
            old(self).tick < u64::MAX && old(self).interrupt_processing ==> old(
                self,
            ).ticked().interrupt_entry_done(final(self), step),
            final(self).consistent(),
            old(self).tick == u64::MAX ==> *final(self) == (ControlUnit {
                fault: Some(MachineFault::TickOverflow),
                execution_state: ExecutionState::Stop,
                ..*old(self)
            }),
            old(self).tick < u64::MAX ==> final(self).tick == old(self).tick + 1,
            old(self).tick < u64::MAX && !old(self).interrupt_processing && old(self).operator
                == Operator::Hlt ==> *final(self) == (ControlUnit {
                tick: (old(self).tick + 1) as u64,
                execution_state: ExecutionState::Stop,
                ..*old(self)
            }),
            old(self).tick < u64::MAX && !old(self).interrupt_processing && step == 0 ==> old(
                self,
            ).ticked().jump_done(final(self)),
            old(self).tick < u64::MAX && !old(self).interrupt_processing && step == 0 ==> old(
                self,
            ).ticked().interrupt_switch_done(final(self)),
    {
        if self.tick == u64::MAX {
            self.fail(MachineFault::TickOverflow);
            return ;
        }
        self.tick = self.tick + 1;
        if self.interrupt_processing {
            self.execute_interrupt(step);
            return ;
        }
        let flags = *self.data_path.transmit_nzcv();
        match self.operator {
            Operator::Hlt => {
                self.execution_state = ExecutionState::Stop;
            },
            Operator::Mov | Operator::Mova => self.execute_2_operand_operator(step, AluOperator::Trl),
            Operator::Cmp => self.execute_compare(step),
            Operator::Add => self.execute_3_operand_operator(step, AluOperator::Add),
            Operator::Adc => self.execute_3_operand_operator(step, AluOperator::Adc),
            Operator::Sub => self.execute_3_operand_operator(step, AluOperator::Sub),
            Operator::Mul => self.execute_3_operand_operator(step, AluOperator::Mul),
            Operator::Div => self.execute_3_operand_operator(step, AluOperator::Div),
            Operator::Rem => self.execute_3_operand_operator(step, AluOperator::Rem),
            Operator::And => self.execute_3_operand_operator(step, AluOperator::And),
            Operator::Or => self.execute_3_operand_operator(step, AluOperator::Or),
            Operator::Xor => self.execute_3_operand_operator(step, AluOperator::Xor),
            Operator::Not => self.execute_2_operand_operator(step, AluOperator::Not),
            Operator::Lsl => self.execute_3_operand_operator(step, AluOperator::Lsl),
            Operator::Lsr => self.execute_3_operand_operator(step, AluOperator::Lsr),
            Operator::Asl => self.execute_3_operand_operator(step, AluOperator::Asl),
            Operator::Asr => self.execute_3_operand_operator(step, AluOperator::Asr),
            Operator::Jmp => self.execute_jump(step),
            Operator::Call => self.execute_call(step),
            Operator::Ret => self.execute_return(step),
            Operator::IntRet => self.execute_interrupt_return(step),
            Operator::Beq => self.execute_branch(step, flags.zero),
            Operator::Bne => self.execute_branch(step, !flags.zero),
            Operator::Bgt => self.execute_branch(
                step,
                !flags.zero && flags.negative == flags.overflow,
            ),
            Operator::Bge => self.execute_branch(step, flags.negative == flags.overflow),
            Operator::Blt => self.execute_branch(step, flags.negative != flags.overflow),
            Operator::Ble => self.execute_branch(
                step,
                flags.zero || flags.negative != flags.overflow,
            ),
            Operator::Bcs => self.execute_branch(step, flags.carry),
            Operator::Bcc => self.execute_branch(step, !flags.carry),
            Operator::Bvs => self.execute_branch(step, flags.overflow),
            Operator::Bvc => self.execute_branch(step, !flags.overflow),
            Operator::In => self.execute_input(step),
            Operator::Out => self.execute_output(step),
            Operator::EI => self.enable_interrupt(step),
            Operator::DI => self.disable_interrupt(step),
            Operator::VAdd => self.execute_vector(
                step,
                VectorAluOperator::Add,
                VectorModeSelector::Alu,
                BranchSelector::Beq,
            ),
            Operator::VSub => self.execute_vector(
                step,
                VectorAluOperator::Sub,
                VectorModeSelector::Alu,
                BranchSelector::Beq,
            ),
            Operator::VMul => self.execute_vector(
                step,
                VectorAluOperator::Mul,
                VectorModeSelector::Alu,
                BranchSelector::Beq,
            ),
            Operator::VDiv => self.execute_vector(
                step,
                VectorAluOperator::Div,
                VectorModeSelector::Alu,
                BranchSelector::Beq,
            ),
            Operator::VRem => self.execute_vector(
                step,
                VectorAluOperator::Rem,
                VectorModeSelector::Alu,
                BranchSelector::Beq,
            ),
            Operator::VAnd => self.execute_vector(
                step,
                VectorAluOperator::And,
                VectorModeSelector::Alu,
                BranchSelector::Beq,
            ),
            Operator::VOr => self.execute_vector(
                step,
                VectorAluOperator::Or,
                VectorModeSelector::Alu,
                BranchSelector::Beq,
            ),
            Operator::VXor => self.execute_vector(
                step,
                VectorAluOperator::Xor,
                VectorModeSelector::Alu,
                BranchSelector::Beq,
            ),
            Operator::VCmpBeq => self.execute_vector(
                step,
                VectorAluOperator::Sub,
                VectorModeSelector::Decoder,
                BranchSelector::Beq,
            ),
            Operator::VCmpBne => self.execute_vector(
                step,
                VectorAluOperator::Sub,
                VectorModeSelector::Decoder,
                BranchSelector::Bne,
            ),
            Operator::VCmpBgt => self.execute_vector(
                step,
                VectorAluOperator::Sub,
                VectorModeSelector::Decoder,
                BranchSelector::Bgt,
            ),
            Operator::VCmpBge => self.execute_vector(
                step,
                VectorAluOperator::Sub,
                VectorModeSelector::Decoder,
                BranchSelector::Bge,
            ),
            Operator::VCmpBlt => self.execute_vector(
                step,
                VectorAluOperator::Sub,
                VectorModeSelector::Decoder,
                BranchSelector::Blt,
            ),
            Operator::VCmpBle => self.execute_vector(
                step,
                VectorAluOperator::Sub,
                VectorModeSelector::Decoder,
                BranchSelector::Ble,
            ),
            Operator::VCmpBcs => self.execute_vector(
                step,
                VectorAluOperator::Sub,
                VectorModeSelector::Decoder,
                BranchSelector::Bcs,
            ),
            Operator::VCmpBcc => self.execute_vector(
                step,
                VectorAluOperator::Sub,
                VectorModeSelector::Decoder,
                BranchSelector::Bcc,
            ),
            Operator::VCmpBvs => self.execute_vector(
                step,
                VectorAluOperator::Sub,
                VectorModeSelector::Decoder,
                BranchSelector::Bvs,
            ),
            Operator::VCmpBvc => self.execute_vector(
                step,
                VectorAluOperator::Sub,
                VectorModeSelector::Decoder,
                BranchSelector::Bvc,
            ),
        }
    }

    /// The state after fetching and decoding the instruction at the program counter, with
    /// the tick advanced: a fault where the tick counter is exhausted, the program counter
    /// lies outside program memory or the operation code is unassigned.
    pub open spec fn after_fetch(&self) -> ControlUnit {
        if self.tick == u64::MAX {
            ControlUnit {
                fault: Some(MachineFault::TickOverflow),
                execution_state: ExecutionState::Stop,
                ..*self
            }
        } else if self.pc >= self.program_memory.data@.len() {
            ControlUnit {
                tick: (self.tick + 1) as u64,
                fault: Some(MachineFault::ProgramAddressOutOfRange),
                execution_state: ExecutionState::Stop,
                ..*self
            }
        } else {
            let word = self.program_memory.data@[self.pc as int];
            match operator_for_code(opcode_of(word)) {
                Option::None => ControlUnit {
                    tick: (self.tick + 1) as u64,
                    read_data: word,
                    ir: word,
                    fault: Some(MachineFault::UnknownOperator),
                    execution_state: ExecutionState::Stop,
                    ..*self
                },
                Option::Some(operator) => ControlUnit {
                    tick: (self.tick + 1) as u64,
                    read_data: word,
                    ir: word,
                    operator: operator,
                    word_size: word_size_of(word),
                    pc: (self.pc + 1) as u64,
                    execution_state: ExecutionState::Execute(0),
                    ..*self
                },
            }
        }
    }

    /// Fetches the instruction word at the program counter and decodes it: one tick.
    fn fetch(&mut self)
        requires
            old(self).fault is None,
        ensures
            *final(self) == old(self).after_fetch(),
    {
        if self.tick == u64::MAX {
            self.fail(MachineFault::TickOverflow);
            return ;
        }
        self.tick = self.tick + 1;
        if !self.update_read_data() {
            return ;
        }
        self.latch_ir();
        let code = self.instruction_parser.opcode(self.ir);
        if self.instruction_parser.decode_operator(code).is_none() {
            self.fail(MachineFault::UnknownOperator);
            return ;
        }
        let (operator, word_size) = self.instruction_parser.parse_operator(self.ir);
        self.word_size = word_size;
        self.operator = operator;
        let program_length = self.program_memory.data.len();
        assert(self.pc < program_length);
        let ok = self.latch_pc(PcSelector::NextWord);
        assert(ok);
        self.execution_state = ExecutionState::Execute(0);
    }

    /// What one tick does to a running machine: the fetch, the entry into an interrupt and
    /// the micro-steps of the instructions whose effects are stated, each with the tick
    /// advanced; a machine never faults without stopping.
    pub open spec fn stepped(&self, final_state: &Self) -> bool {
        &&& (final_state.consistent())
        &&& (self.execution_state == ExecutionState::Done ==> *final_state == (ControlUnit {
                execution_state: ExecutionState::Start,
                ..*self
            }))
        &&& (self.execution_state == ExecutionState::Start && self.interrupt_flag
                && interrupt_pending(self.data_path.io) ==> *final_state == (ControlUnit {
                interrupt_processing: true,
                execution_state: ExecutionState::Execute(0),
                ..*self
            }))
        &&& (self.execution_state == ExecutionState::Start && !(self.interrupt_flag
                && interrupt_pending(self.data_path.io)) ==> *final_state
                == self.after_fetch())
        &&& (self.execution_state is Execute && self.tick < u64::MAX ==> final_state.tick
                == self.tick + 1)
        &&& (self.execution_state is Execute && self.tick == u64::MAX ==> final_state.fault
                == Some(MachineFault::TickOverflow))
        &&& (self.execution_state is Execute && self.tick < u64::MAX
                && !self.interrupt_processing && self.operator == Operator::Hlt
                ==> final_state.stopped() && final_state.fault is None)
        &&& (self.execution_state == ExecutionState::Execute(0) && self.tick < u64::MAX
                && !self.interrupt_processing ==> self.ticked().jump_done(final_state))
        &&& (self.execution_state == ExecutionState::Execute(0) && self.tick < u64::MAX
                && !self.interrupt_processing ==> self.ticked().interrupt_switch_done(
                final_state,
            ))
        &&& (self.execution_state is Execute && self.tick < u64::MAX
                && !self.interrupt_processing ==> self.ticked().operation_done(
                final_state,
                self.execution_state->0,
            ))
        &&& (self.execution_state is Execute && self.tick < u64::MAX
                && self.interrupt_processing ==> self.ticked().interrupt_entry_done(
                final_state,
                self.execution_state->0,
            ))
    }

    /// Advances the machine by one step of its control automaton and reports whether it has
    /// stopped. A stopped machine stays as it is; every other step decreases `progress`.
    pub fn step(&mut self) -> (halted: bool)
        requires
            old(self).consistent(),
        ensures
            halted == (old(self).execution_state == ExecutionState::Stop),
            halted ==> *final(self) == *old(self),
            !halted ==> final(self).progress() < old(self).progress(),
            old(self).stepped(final(self)),
    {
        match self.execution_state {
            ExecutionState::Start => {
                if self.interrupt_flag && self.data_path.io.check_interrupt() {
                    self.interrupt_processing = true;
                    self.execution_state = ExecutionState::Execute(0);
                    return false;
                }
                self.fetch();
                false
            },
            ExecutionState::Execute(step) => {
                self.execute_step(step);
                false
            },
            ExecutionState::Done => {
                self.execution_state = ExecutionState::Start;
                false
            },
            ExecutionState::Stop => true,
        }
    }

    /// Copies a program into program memory from address 0; the rest is kept.
    pub fn load_program(&mut self, program: &[u32])
        requires
            program@.len() <= old(self).program_memory.data@.len(),
        ensures
            final(self).program_memory.data@.len() == old(self).program_memory.data@.len(),
            forall|i: int|
                0 <= i < final(self).program_memory.data@.len() ==> #[trigger] final(self).program_memory.data@[i] == if i < program@.len() {
                    program@[i]
                } else {
                    old(self).program_memory.data@[i]
                },
            *final(self) == (ControlUnit { program_memory: final(self).program_memory, ..*old(self) }),
    {
        let mut i: usize = 0;
        while i < program.len()
            invariant
                i <= program@.len(),
                program@.len() <= old(self).program_memory.data@.len(),
                self.program_memory.data@.len() == old(self).program_memory.data@.len(),
                forall|j: int|
                    0 <= j < self.program_memory.data@.len() ==> #[trigger] self.program_memory.data@[j]
                        == if j < i {
                        program@[j]
                    } else {
                        old(self).program_memory.data@[j]
                    },
                *self == (ControlUnit { program_memory: self.program_memory, ..*old(self) }),
            decreases program@.len() - i,
        {
            self.program_memory.write(i as Address, program[i]);
            i = i + 1;
        }
    }

    /// Loads the data section into data memory: value `i` goes to lane `i % 4` of vector word
    /// `i / 4`; every other lane is kept.
    pub fn load_data_section(&mut self, data_section: Vec<u64>)
        requires
            data_section@.len() <= 4 * old(self).data_path.data_memory.data@.len(),
        ensures
            final(self).data_path.data_memory.data@.len()
                == old(self).data_path.data_memory.data@.len(),
            forall|w: int, lane: int|
                0 <= w < final(self).data_path.data_memory.data@.len() && 0 <= lane < 4
                    ==> #[trigger] final(self).data_path.data_memory.data@[w]@[lane] == if 4 * w
                    + lane < data_section@.len() {
                    data_section@[4 * w + lane]
                } else {
                    old(self).data_path.data_memory.data@[w]@[lane]
                },
            *final(self) == (ControlUnit { data_path: final(self).data_path, ..*old(self) }),
            final(self).data_path.data_registers == old(self).data_path.data_registers,
            final(self).data_path.address_registers == old(self).data_path.address_registers,
            final(self).data_path.io == old(self).data_path.io,
    {
        let mut i: usize = 0;
        while i < data_section.len()
            invariant
                i <= data_section@.len(),
                data_section@.len() <= 4 * old(self).data_path.data_memory.data@.len(),
                self.data_path.data_memory.data@.len() == old(self).data_path.data_memory.data@.len(),
                forall|w: int, lane: int|
                    0 <= w < self.data_path.data_memory.data@.len() && 0 <= lane < 4
                        ==> #[trigger] self.data_path.data_memory.data@[w]@[lane] == if 4 * w
                        + lane < i {
                        data_section@[4 * w + lane]
                    } else {
                        old(self).data_path.data_memory.data@[w]@[lane]
                    },
                *self == (ControlUnit { data_path: self.data_path, ..*old(self) }),
                self.data_path.data_registers == old(self).data_path.data_registers,
                self.data_path.address_registers == old(self).data_path.address_registers,
                self.data_path.io == old(self).data_path.io,
            decreases data_section@.len() - i,
        {
            let ghost before = self.data_path.data_memory.data@;
            self.data_path.data_address = i as u64;
            self.data_path.read_data_memory();
            self.data_path.update_write_data_mux(WriteDataSelector::Memory);
            self.data_path.latch_write_data();
            self.data_path.alu_output = data_section[i];
            self.data_path.update_write_data_mux(WriteDataSelector::Alu);
            self.data_path.latch_write_data_part(&WordSize::Long);
            self.data_path.write_data_memory(WriteSelector::Scalar);
            proof {
                let word = i as int / 4;
                let lane0 = i as int % 4;
                assert forall|w: int, lane: int|
                    0 <= w < self.data_path.data_memory.data@.len() && 0 <= lane < 4 implies
                    #[trigger] self.data_path.data_memory.data@[w]@[lane] == if 4 * w + lane < i
                        + 1 {
                        data_section@[4 * w + lane]
                    } else {
                        old(self).data_path.data_memory.data@[w]@[lane]
                    } by {
                    if w == word {
                        assert(4 * w + lane0 == i);
                        if lane == lane0 {
                        } else {
                            assert(4 * w + lane != i);
                            assert(self.data_path.data_memory.data@[w]@[lane] == before[w]@[lane]);
                        }
                    } else {
                        assert(4 * w + lane != i);
                    }
                }
            }
            i = i + 1;
        }
    }

    /// Sets the entry points of interrupt vectors 0 to 7.
    pub fn load_interrupt_vectors(&mut self, interrupt_vectors: [Address; 8])
        requires
            old(self).vector_table@.len() >= 8,
        ensures
            final(self).vector_table@.len() == old(self).vector_table@.len(),
            forall|i: int|
                0 <= i < final(self).vector_table@.len() ==> #[trigger] final(self).vector_table@[i]
                    == if i < 8 {
                    Some(interrupt_vectors@[i])
                } else {
                    old(self).vector_table@[i]
                },
            *final(self) == (ControlUnit { vector_table: final(self).vector_table, ..*old(self) }),
    {
        let mut i: usize = 0;
        while i < 8
            invariant
                i <= 8,
                self.vector_table@.len() == old(self).vector_table@.len(),
                old(self).vector_table@.len() >= 8,
                forall|j: int|
                    0 <= j < self.vector_table@.len() ==> #[trigger] self.vector_table@[j] == if j
                        < i {
                        Some(interrupt_vectors@[j])
                    } else {
                        old(self).vector_table@[j]
                    },
                *self == (ControlUnit { vector_table: self.vector_table, ..*old(self) }),
            decreases 8 - i,
        {
            self.vector_table.set(i, Some(interrupt_vectors[i]));
            i = i + 1;
        }
    }
}

impl Default for ControlUnit {
    fn default() -> (control_unit: Self)
        ensures
            control_unit.program_memory.data@.len() == program_words(),
            forall|i: int|
                0 <= i < program_words() ==> #[trigger] control_unit.program_memory.data@[i] == 0,
            control_unit.data_path.data_memory.data@.len() == data_memory_words(),
            forall|i: int|
                0 <= i < data_memory_words() ==> #[trigger] control_unit.data_path.data_memory.data@[i]@
                    == seq![0u64, 0, 0, 0],
            control_unit.data_path.data_registers@ == seq![0u64, 0, 0, 0, 0, 0, 0, 0],
            control_unit.data_path.address_registers@ == seq![0u64, 0, 0, 0, 0, 0, 0, 0],
            control_unit.vector_table@.len() == 256,
            forall|i: int| 0 <= i < 256 ==> #[trigger] control_unit.vector_table@[i] is None,
            control_unit.pc == 0,
            control_unit.tick == 0,
            control_unit.execution_state == ExecutionState::Start,
            control_unit.fault is None,
            control_unit.interrupt_flag,
            !control_unit.interrupt_processing,
            control_unit.operator == Operator::Hlt,
            control_unit.word_size == WordSize::Long,
            control_unit.data_path.io.int_output_log@ == Seq::<i64>::empty(),
            control_unit.data_path.io.char_output_log@ == Seq::<char>::empty(),
            !control_unit.data_path.io.int_input_device.interrupt,
            !control_unit.data_path.io.char_input_device.interrupt,
    {
        let mut vector_table: Vec<Option<Address>> = Vec::new();
        let mut i: usize = 0;
        while i < 256
            invariant
                i <= 256,
                vector_table@.len() == i,
                forall|j: int| 0 <= j < i ==> #[trigger] vector_table@[j] is None,
            decreases 256 - i,
        {
            vector_table.push(None);
            i = i + 1;
        }
        Self {
            instruction_parser: InstructionParser::new(),
            data_path: DataPath::default(),
            program_memory: ProgramMemory::new(100000),
            pc: 0,
            read_data: 0,
            ir: 0,
            output_pc_mux: 0,
            word_size: WordSize::Long,
            operator: Operator::Hlt,
            execution_state: ExecutionState::Start,
            interrupt_flag: true,
            interrupt_processing: false,
            vector_table,
            tick: 0,
            fault: None,
        }
    }
}

/// Whether a jump or a branch is taken with these flags; `None` for other instructions.
pub open spec fn branch_taken(operator: Operator, flags: Nzcv) -> Option<bool> {
    match operator {
        Operator::Jmp => Some(true),
        Operator::Beq => Some(flags.zero),
        Operator::Bne => Some(!flags.zero),
        Operator::Bgt => Some(!flags.zero && flags.negative == flags.overflow),
        Operator::Bge => Some(flags.negative == flags.overflow),
        Operator::Blt => Some(flags.negative != flags.overflow),
        Operator::Ble => Some(flags.zero || flags.negative != flags.overflow),
        Operator::Bcs => Some(flags.carry),
        Operator::Bcc => Some(!flags.carry),
        Operator::Bvs => Some(flags.overflow),
        Operator::Bvc => Some(!flags.overflow),
        _ => None,
    }
}

/// A difference of two words, taken modulo 2^64, as a word.
proof fn lemma_wrap_difference(v: int)
    requires
        -word_modulus() < v < word_modulus(),
    ensures
        wrap(v) as int == if v >= 0 {
            v
        } else {
            v + word_modulus()
        },
{
    let m = word_modulus();
    if v >= 0 {
        vstd::arithmetic::div_mod::lemma_small_mod(v as nat, m as nat);
    } else {
        vstd::arithmetic::div_mod::lemma_mod_add_multiples_vanish(v, m);
        vstd::arithmetic::div_mod::lemma_small_mod((v + m) as nat, m as nat);
    }
}

/// After `CMP`, which subtracts its second operand from its first (kept in the left buffer
/// and on the right bus), each conditional branch is taken exactly when its comparison
/// holds between the two operands: `BEQ` and `BNE` on equality, `BGT`, `BGE`, `BLT` and
/// `BLE` on the operands read as signed words, `BCS` and `BCC` on them read as unsigned.
pub proof fn lemma_branch_after_compare(data_path: DataPath)
    ensures
        ({
            let first = data_path.left_buffer;
            let second = data_path.right_data;
            let flags = compared(data_path).alu.nzcv;
            &&& branch_taken(Operator::Beq, flags) == Some(first == second)
            &&& branch_taken(Operator::Bne, flags) == Some(first != second)
            &&& branch_taken(Operator::Bgt, flags) == Some(signed(first) > signed(second))
            &&& branch_taken(Operator::Bge, flags) == Some(signed(first) >= signed(second))
            &&& branch_taken(Operator::Blt, flags) == Some(signed(first) < signed(second))
            &&& branch_taken(Operator::Ble, flags) == Some(signed(first) <= signed(second))
            &&& branch_taken(Operator::Bcs, flags) == Some(first < second)
            &&& branch_taken(Operator::Bcc, flags) == Some(first >= second)
        }),
{
    let a = data_path.left_buffer;
    let b = data_path.right_data;
    let m = word_modulus();
    let r = wrap(a - b);
    lemma_wrap_difference(a - b);
    let x = signed(a);
    let y = signed(b);
    assert(x - y == a - b || x - y == a - b + m || x - y == a - b - m);
}

} // verus!
