use crate::isa::WordSize;
use crate::machine::alu::{alu_outcome, flags_after, Alu, AluOperator};
use crate::machine::data_memory::{DataMemory, VectorWord};
use crate::machine::io::IO;
use crate::machine::nzcv::{packed_flags, unpacked_flags, Nzcv};
use crate::machine::vector_alu::{lane_operator, VectorAlu, VectorAluOperator};
use vstd::prelude::*;

verus! {

pub type DataRegisterReadSelector = u8;

pub type DataRegisterWriteSelector = u8;

pub type AddressRegisterReadSelector = u8;

pub type AddressRegisterWriteSelector = u8;

/// What a write to data memory stores: the scalar write buffer or the vector result.
#[derive(Clone, Copy, PartialEq, Eq, Structural)]
pub enum WriteSelector {
    Scalar,
    Vector,
}

/// Where the write buffer multiplexer takes its value from.
#[derive(Clone, Copy, PartialEq, Eq, Structural)]
pub enum WriteDataSelector {
    Memory,
    Alu,
}

/// The sources of an operand bus.
#[derive(Clone, Copy, PartialEq, Eq, Structural)]
pub enum DataSelector {
    DataRegister,
    AddressRegister,
    Memory,
    External,
}

/// The sources of an operand buffer.
#[derive(Clone, Copy, PartialEq, Eq, Structural)]
pub enum BufferSelector {
    DataRegister,
    External,
}

/// Whether an ALU input takes the operand bus directly or the buffer latched earlier.
#[derive(Clone, Copy, PartialEq, Eq, Structural)]
pub enum AluInputSelector {
    Data,
    Buffer,
}

/// Whether an address computation decrements before use.
#[derive(Clone, Copy, PartialEq, Eq, Structural)]
pub enum PreModeSelector {
    Unchanged,
    Decrement,
}

/// Whether an address register is incremented after use.
#[derive(Clone, Copy, PartialEq, Eq, Structural)]
pub enum PostModeSelector {
    Unchanged,
    Increment,
}

/// Where the external input of the data path comes from.
#[derive(Clone, Copy, PartialEq, Eq, Structural)]
pub enum ExternalSelector {
    ControlUnit,
    IO,
}

/// Whether the vector result is the vector ALU output or a lane mask from its flags.
#[derive(Clone, Copy, PartialEq, Eq, Structural)]
pub enum VectorModeSelector {
    Alu,
    Decoder,
}

/// The condition that the lane mask decoder tests.
#[derive(Clone, Copy, PartialEq, Eq, Structural)]
pub enum BranchSelector {
    Beq,
    Bne,
    Bgt,
    Bge,
    Blt,
    Ble,
    Bcs,
    Bcc,
    Bvs,
    Bvc,
}

/// Whether a branch condition holds for a set of flags.
pub open spec fn condition_holds(branch: BranchSelector, nzcv: Nzcv) -> bool {
    match branch {
        BranchSelector::Beq => nzcv.zero,
        BranchSelector::Bne => !nzcv.zero,
        BranchSelector::Bgt => !nzcv.zero && nzcv.negative == nzcv.overflow,
        BranchSelector::Bge => nzcv.negative == nzcv.overflow,
        BranchSelector::Blt => nzcv.negative != nzcv.overflow,
        BranchSelector::Ble => nzcv.zero || nzcv.negative != nzcv.overflow,
        BranchSelector::Bcs => nzcv.carry,
        BranchSelector::Bcc => !nzcv.carry,
        BranchSelector::Bvs => nzcv.overflow,
        BranchSelector::Bvc => !nzcv.overflow,
    }
}

/// The part of a word that an access of the given width keeps.
pub open spec fn width_mask(word_size: WordSize) -> u64 {
    match word_size {
        WordSize::Byte => 0xff,
        WordSize::Long => 0xffff_ffff_ffff_ffff,
    }
}

/// `old` with the bits selected by the width replaced by those of `new`.
pub open spec fn merge_part(old: u64, new: u64, word_size: WordSize) -> u64 {
    match word_size {
        WordSize::Byte => (old & !0xffu64) | (new & 0xff),
        WordSize::Long => new,
    }
}

/// The number of vector words in the data memory.
pub open spec fn data_memory_words() -> nat {
    25000
}

/// The data path: register files, ALUs, data memory, I/O and the latches and
/// multiplexers between them.
pub struct DataPath {
    pub left_alu_input: u64,
    pub right_alu_input: u64,
    pub alu: Alu,
    pub alu_output: u64,
    pub data_registers_mux: u64,
    pub data_registers: [u64; 8],
    pub address_registers_mux: u64,
    pub address_registers: [u64; 8],
    pub left_data: u64,
    pub left_buffer: u64,
    pub right_data: u64,
    pub right_buffer: u64,
    pub external_selector: ExternalSelector,
    pub pre_mode_selector: PreModeSelector,
    pub post_mode_selector: PostModeSelector,
    pub data_memory: DataMemory,
    pub memory_output: VectorWord,
    pub data_address: u64,
    pub memory_output_mmux: u64,
    pub write_data: VectorWord,
    pub write_data_mux: VectorWord,
    pub io: IO,
    pub control_unit_output: u64,
    pub vector_alu: VectorAlu,
    pub left_vector_input: VectorWord,
    pub right_vector_input: VectorWord,
    pub vector_output: VectorWord,
    pub vector_output_mux: VectorWord,
}

impl DataPath {
    /// The value the data buses deliver for a source selector.
    pub open spec fn data_source(&self, selector: DataSelector) -> u64 {
        match selector {
            DataSelector::DataRegister => self.data_registers_mux,
            DataSelector::AddressRegister => self.address_registers_mux,
            DataSelector::Memory => self.memory_output_mmux,
            DataSelector::External => self.external_value(),
        }
    }

    /// The value of the external input.
    pub open spec fn external_value(&self) -> u64 {
        match self.external_selector {
            ExternalSelector::ControlUnit => self.control_unit_output,
            ExternalSelector::IO => self.io.output as u64,
        }
    }

    /// The value the buffers take for a source selector.
    pub open spec fn buffer_source(&self, selector: BufferSelector) -> u64 {
        match selector {
            BufferSelector::DataRegister => self.data_registers_mux,
            BufferSelector::External => self.external_value(),
        }
    }

    /// One when the address register is to be post-incremented, else zero.
    pub open spec fn increment_amount(&self) -> int {
        if self.post_mode_selector == PostModeSelector::Increment {
            1
        } else {
            0
        }
    }

    /// One when the address is to be pre-decremented, else zero.
    pub open spec fn decrement_amount(&self) -> int {
        if self.pre_mode_selector == PreModeSelector::Decrement {
            1
        } else {
            0
        }
    }

    /// The address register value after a post-increment or pre-decrement of `value`.
    pub open spec fn address_update(&self, value: u64) -> int {
        value + self.increment_amount() - self.decrement_amount()
    }

    /// The vector word that `data_address` falls in.
    pub open spec fn data_word_index(&self) -> int {
        self.data_address as int / 4
    }

    /// The lane of its vector word that `data_address` selects.
    pub open spec fn data_lane(&self) -> int {
        self.data_address as int % 4
    }

    /// Whether `data_address` lies inside the data memory.
    pub open spec fn data_address_in_range(&self) -> bool {
        self.data_word_index() < self.data_memory.data@.len()
    }

    pub fn read_data_register(&mut self, selector: DataRegisterReadSelector)
        requires
            selector < 8,
        ensures
            *final(self) == (DataPath {
                data_registers_mux: old(self).data_registers@[selector as int],
                ..*old(self)
            }),
    {
        self.data_registers_mux = self.data_registers[selector as usize];
    }

    /// Writes the ALU output, cut to the width, into a data register.
    pub fn latch_data_register(
        &mut self,
        register_selector: DataRegisterWriteSelector,
        word_size_selector: &WordSize,
    )
        requires
            register_selector < 8,
        ensures
            final(self).data_registers@ == old(self).data_registers@.update(
                register_selector as int,
                old(self).alu_output & width_mask(*word_size_selector),
            ),
            *final(self) == (DataPath { data_registers: final(self).data_registers, ..*old(self) }),
    {
        let value = match word_size_selector {
            WordSize::Byte => self.alu_output & 0xFF,
            WordSize::Long => self.alu_output,
        };
        proof {
            let v = self.alu_output;
            assert(v & 0xffff_ffff_ffff_ffffu64 == v) by (bit_vector);
        }
        self.data_registers[register_selector as usize] = value;
    }

    pub fn read_address_register(&mut self, selector: AddressRegisterReadSelector)
        requires
            selector < 8,
        ensures
            *final(self) == (DataPath {
                address_registers_mux: old(self).address_registers@[selector as int],
                ..*old(self)
            }),
    {
        self.address_registers_mux = self.address_registers[selector as usize];
    }

    /// Writes the ALU output into an address register, incremented or decremented as the
    /// mode selectors say and cut to the width; the adjustment must not leave the word range.
    pub fn latch_address_register(
        &mut self,
        register_selector: AddressRegisterWriteSelector,
        word_size_selector: &WordSize,
    )
        requires
            register_selector < 8,
            old(self).alu_output + old(self).increment_amount() <= u64::MAX,
            0 <= old(self).address_update(old(self).alu_output),
        ensures
            final(self).address_registers@ == old(self).address_registers@.update(
                register_selector as int,
                (old(self).address_update(old(self).alu_output) as u64) & width_mask(
                    *word_size_selector,
                ),
            ),
            *final(self) == (DataPath {
                address_registers: final(self).address_registers,
                ..*old(self)
            }),
    {
        let decrement: u64 = match self.pre_mode_selector {
            PreModeSelector::Unchanged => 0,
            PreModeSelector::Decrement => 1,
        };
        let increment: u64 = match self.post_mode_selector {
            PostModeSelector::Unchanged => 0,
            PostModeSelector::Increment => 1,
        };
        let input = self.alu_output + increment - decrement;
        let value = match word_size_selector {
            WordSize::Byte => input & 0xFF,
            WordSize::Long => input,
        };
        proof {
            assert(input & 0xffff_ffff_ffff_ffffu64 == input) by (bit_vector);
        }
        self.address_registers[register_selector as usize] = value;
    }

    /// Reads the vector word that holds `data_address`, which must lie inside the memory.
    pub fn read_data_memory(&mut self)
        requires
            old(self).data_address_in_range(),
        ensures
            *final(self) == (DataPath {
                memory_output: old(self).data_memory.data@[old(self).data_word_index()],
                ..*old(self)
            }),
    {
        self.memory_output = self.data_memory.read(self.data_address / 4);
    }

    /// Stores the write buffer or the vector result at the vector word that holds
    /// `data_address`, which must lie inside the memory.
    pub fn write_data_memory(&mut self, selector: WriteSelector)
        requires
            old(self).data_address_in_range(),
        ensures
            final(self).data_memory.data@ == old(self).data_memory.data@.update(
                old(self).data_word_index(),
                match selector {
                    WriteSelector::Scalar => old(self).write_data,
                    WriteSelector::Vector => old(self).vector_output_mux,
                },
            ),
            *final(self) == (DataPath { data_memory: final(self).data_memory, ..*old(self) }),
    {
        let value = match selector {
            WriteSelector::Scalar => self.write_data,
            WriteSelector::Vector => self.vector_output_mux,
        };
        self.data_memory.write(self.data_address / 4, value);
    }

    /// Selects the memory output, or the ALU output repeated in every lane, for writing.
    pub fn update_write_data_mux(&mut self, selector: WriteDataSelector)
        ensures
            *final(self) == (DataPath {
                write_data_mux: match selector {
                    WriteDataSelector::Memory => old(self).memory_output,
                    WriteDataSelector::Alu => [
                        old(self).alu_output,
                        old(self).alu_output,
                        old(self).alu_output,
                        old(self).alu_output,
                    ],
                },
                ..*old(self)
            }),
    {
        self.write_data_mux = match selector {
            WriteDataSelector::Memory => self.memory_output,
            WriteDataSelector::Alu => [self.alu_output, self.alu_output, self.alu_output, self.alu_output],
        }
    }

    pub fn latch_write_data(&mut self)
        ensures
            *final(self) == (DataPath { write_data: old(self).write_data_mux, ..*old(self) }),
    {
        self.write_data = self.write_data_mux;
    }

    /// Replaces the part of the write buffer's lane `data_address % 4` that the width
    /// selects with the same part of the multiplexer's lane.
    pub fn latch_write_data_part(&mut self, word_size: &WordSize)
        ensures
            final(self).write_data@ == old(self).write_data@.update(
                old(self).data_lane(),
                merge_part(
                    old(self).write_data@[old(self).data_lane()],
                    old(self).write_data_mux@[old(self).data_lane()],
                    *word_size,
                ),
            ),
            *final(self) == (DataPath { write_data: final(self).write_data, ..*old(self) }),
    {
        let low_address = (self.data_address % 4) as usize;
        let mask: u64 = match word_size {
            WordSize::Byte => 0xff,
            WordSize::Long => 0xffffffffffffffff,
        };
        let current = self.write_data[low_address];
        let incoming = self.write_data_mux[low_address];
        proof {
            assert((current & !0xffff_ffff_ffff_ffffu64) | (incoming & 0xffff_ffff_ffff_ffffu64)
                == incoming) by (bit_vector);
        }
        self.write_data[low_address] = (current & !mask) | (incoming & mask);
    }

    fn update_data(&mut self, selector: DataSelector) -> (value: u64)
        ensures
            value == old(self).data_source(selector),
            *final(self) == *old(self),
    {
        match selector {
            DataSelector::DataRegister => self.data_registers_mux,
            DataSelector::AddressRegister => self.address_registers_mux,
            DataSelector::Memory => self.memory_output_mmux,
            DataSelector::External => match self.external_selector {
                ExternalSelector::ControlUnit => self.control_unit_output,
                ExternalSelector::IO => self.io.output as u64,
            },
        }
    }

    fn update_buffer(&mut self, selector: BufferSelector) -> (value: u64)
        ensures
            value == old(self).buffer_source(selector),
            *final(self) == *old(self),
    {
        match selector {
            BufferSelector::DataRegister => self.data_registers_mux,
            BufferSelector::External => match self.external_selector {
                ExternalSelector::ControlUnit => self.control_unit_output,
                ExternalSelector::IO => self.io.output as u64,
            },
        }
    }

    pub fn update_left_data(&mut self, selector: DataSelector)
        ensures
            *final(self) == (DataPath { left_data: old(self).data_source(selector), ..*old(self) }),
    {
        self.left_data = self.update_data(selector);
    }

    pub fn update_left_buffer(&mut self, selector: BufferSelector)
        ensures
            *final(self) == (DataPath {
                left_buffer: old(self).buffer_source(selector),
                ..*old(self)
            }),
    {
        self.left_buffer = self.update_buffer(selector);
    }

    /// Keeps the value on the left operand bus in the left buffer.
    pub fn latch_left_data_register(&mut self)
        ensures
            *final(self) == (DataPath { left_buffer: old(self).left_data, ..*old(self) }),
    {
        self.left_buffer = self.left_data;
    }

    pub fn update_left_alu_input(&mut self, selector: AluInputSelector)
        ensures
            *final(self) == (DataPath {
                left_alu_input: match selector {
                    AluInputSelector::Data => old(self).left_data,
                    AluInputSelector::Buffer => old(self).left_buffer,
                },
                ..*old(self)
            }),
    {
        self.left_alu_input = match selector {
            AluInputSelector::Data => self.left_data,
            AluInputSelector::Buffer => self.left_buffer,
        }
    }

    pub fn update_right_data(&mut self, selector: DataSelector)
        ensures
            *final(self) == (DataPath { right_data: old(self).data_source(selector), ..*old(self) }),
    {
        self.right_data = self.update_data(selector);
    }

    pub fn update_right_buffer(&mut self, selector: BufferSelector)
        ensures
            *final(self) == (DataPath {
                right_buffer: old(self).buffer_source(selector),
                ..*old(self)
            }),
    {
        self.right_buffer = self.update_buffer(selector);
    }

    /// Keeps the value on the right operand bus in the right buffer.
    pub fn latch_right_data_register(&mut self)
        ensures
            *final(self) == (DataPath { right_buffer: old(self).right_data, ..*old(self) }),
    {
        self.right_buffer = self.right_data;
    }

    pub fn update_right_alu_input(&mut self, selector: AluInputSelector)
        ensures
            *final(self) == (DataPath {
                right_alu_input: match selector {
                    AluInputSelector::Data => old(self).right_data,
                    AluInputSelector::Buffer => old(self).right_buffer,
                },
                ..*old(self)
            }),
    {
        self.right_alu_input = match selector {
            AluInputSelector::Data => self.right_data,
            AluInputSelector::Buffer => self.right_buffer,
        }
    }

    /// Runs the ALU on its two inputs and latches the result.
    pub fn execute_alu(&mut self, operator: AluOperator)
        ensures
            *final(self) == (DataPath {
                alu_output: alu_outcome(
                    operator,
                    old(self).left_alu_input,
                    old(self).right_alu_input,
                    old(self).alu.nzcv.carry,
                ).result,
                alu: Alu {
                    nzcv: flags_after(
                        old(self).alu.nzcv,
                        alu_outcome(
                            operator,
                            old(self).left_alu_input,
                            old(self).right_alu_input,
                            old(self).alu.nzcv.carry,
                        ),
                    ),
                },
                ..*old(self)
            }),
    {
        self.alu_output = self.alu.execute_operator(operator, self.left_alu_input, self.right_alu_input);
    }

    /// Latches the ALU output as the data address, one less when pre-decrementing; the
    /// decrement must not go below zero.
    pub fn latch_data_address(&mut self)
        requires
            old(self).pre_mode_selector == PreModeSelector::Decrement ==> old(self).alu_output >= 1,
        ensures
            *final(self) == (DataPath {
                data_address: match old(self).pre_mode_selector {
                    PreModeSelector::Unchanged => old(self).alu_output,
                    PreModeSelector::Decrement => (old(self).alu_output - 1) as u64,
                },
                ..*old(self)
            }),
    {
        self.data_address = match self.pre_mode_selector {
            PreModeSelector::Unchanged => self.alu_output,
            PreModeSelector::Decrement => self.alu_output - 1,
        };
    }

    /// Selects lane `data_address % 4` of the memory output, cut to the width.
    pub fn update_memory_output_mmux(&mut self, word_size: &WordSize)
        ensures
            *final(self) == (DataPath {
                memory_output_mmux: old(self).memory_output@[old(self).data_lane()]
                    & width_mask(*word_size),
                ..*old(self)
            }),
    {
        let mask: u64 = match word_size {
            WordSize::Byte => 0xFF,
            WordSize::Long => 0xFFFFFFFFFFFFFFFF,
        };
        self.memory_output_mmux = self.memory_output[(self.data_address % 4) as usize] & mask;
    }

    pub fn latch_left_vector_input_register(&mut self)
        ensures
            *final(self) == (DataPath { left_vector_input: old(self).memory_output, ..*old(self) }),
    {
        self.left_vector_input = self.memory_output;
    }

    pub fn latch_right_vector_input_register(&mut self)
        ensures
            *final(self) == (DataPath { right_vector_input: old(self).memory_output, ..*old(self) }),
    {
        self.right_vector_input = self.memory_output;
    }

    /// Runs the vector ALU on the two vector inputs and latches the result.
    pub fn execute_vector_alu(&mut self, operator: VectorAluOperator)
        ensures
            forall|i: int|
                0 <= i < 4 ==> {
                    let outcome = alu_outcome(
                        lane_operator(operator),
                        old(self).left_vector_input@[i],
                        old(self).right_vector_input@[i],
                        old(self).vector_alu.block@[i].nzcv.carry,
                    );
                    &&& #[trigger] final(self).vector_output@[i] == outcome.result
                    &&& final(self).vector_alu.block@[i].nzcv == flags_after(
                        old(self).vector_alu.block@[i].nzcv,
                        outcome,
                    )
                },
            *final(self) == (DataPath {
                vector_output: final(self).vector_output,
                vector_alu: final(self).vector_alu,
                ..*old(self)
            }),
    {
        let left = self.left_vector_input;
        let right = self.right_vector_input;
        let ghost before = self.vector_alu;
        let output = self.vector_alu.execute_operator(operator, left, right);
        self.vector_output = output;
        assert forall|i: int| 0 <= i < 4 implies {
            let outcome = alu_outcome(
                lane_operator(operator),
                left@[i],
                right@[i],
                before.block@[i].nzcv.carry,
            );
            &&& #[trigger] self.vector_output@[i] == outcome.result
            &&& self.vector_alu.block@[i].nzcv == flags_after(before.block@[i].nzcv, outcome)
        } by {
            assert(output@[i] == self.vector_output@[i]);
        }
    }

    /// Sets each lane of the vector result to the vector ALU's lane, or to all ones or all
    /// zeros as the branch condition holds for that lane's flags.
    pub fn update_vector_alu_output_mux(
        &mut self,
        mode_selector: VectorModeSelector,
        branch_selector: BranchSelector,
    )
        ensures
            forall|i: int|
                0 <= i < 4 ==> #[trigger] final(self).vector_output_mux@[i] == match mode_selector {
                    VectorModeSelector::Alu => old(self).vector_output@[i],
                    VectorModeSelector::Decoder => if condition_holds(
                        branch_selector,
                        old(self).vector_alu.block@[i].nzcv,
                    ) {
                        0xffff_ffff_ffff_ffffu64
                    } else {
                        0u64
                    },
                },
            *final(self) == (DataPath { vector_output_mux: final(self).vector_output_mux, ..*old(self) }),
    {
        let mut i: usize = 0;
        while i < 4
            invariant
                i <= 4,
                *self == (DataPath { vector_output_mux: self.vector_output_mux, ..*old(self) }),
                forall|j: int|
                    0 <= j < i ==> #[trigger] self.vector_output_mux@[j] == match mode_selector {
                        VectorModeSelector::Alu => old(self).vector_output@[j],
                        VectorModeSelector::Decoder => if condition_holds(
                            branch_selector,
                            old(self).vector_alu.block@[j].nzcv,
                        ) {
                            0xffff_ffff_ffff_ffffu64
                        } else {
                            0u64
                        },
                    },
            decreases 4 - i,
        {
            let ghost before = self.vector_output_mux@;
            let value = match mode_selector {
                VectorModeSelector::Alu => self.vector_output[i],
                VectorModeSelector::Decoder => {
                    let nzcv = self.vector_alu.block[i].nzcv;
                    let holds = match branch_selector {
                        BranchSelector::Beq => nzcv.zero,
                        BranchSelector::Bne => !nzcv.zero,
                        BranchSelector::Bgt => !nzcv.zero && nzcv.negative == nzcv.overflow,
                        BranchSelector::Bge => nzcv.negative == nzcv.overflow,
                        BranchSelector::Blt => nzcv.negative != nzcv.overflow,
                        BranchSelector::Ble => nzcv.zero || nzcv.negative != nzcv.overflow,
                        BranchSelector::Bcs => nzcv.carry,
                        BranchSelector::Bcc => !nzcv.carry,
                        BranchSelector::Bvs => nzcv.overflow,
                        BranchSelector::Bvc => !nzcv.overflow,
                    };
                    if holds {
                        0xffffffffffffffff
                    } else {
                        0
                    }
                },
            };
            self.vector_output_mux[i] = value;
            assert(forall|j: int| 0 <= j < 4 && j != i ==> self.vector_output_mux@[j] == before[j]);
            i = i + 1;
        }
    }

    /// Puts the packed flags on the ALU output.
    pub fn set_nzcv_to_alu_output(&mut self)
        ensures
            *final(self) == (DataPath {
                alu_output: packed_flags(old(self).alu.nzcv) as u64,
                ..*old(self)
            }),
    {
        self.alu_output = self.alu.nzcv.to_byte();
    }

    /// The flags of the scalar ALU.
    pub fn transmit_nzcv(&self) -> (nzcv: &Nzcv)
        ensures
            *nzcv == self.alu.nzcv,
    {
        &self.alu.nzcv
    }

    /// Sets the flags of the scalar ALU from the low byte of the ALU output.
    pub fn restore_nzcv(&mut self)
        ensures
            *final(self) == (DataPath {
                alu: Alu { nzcv: unpacked_flags((old(self).alu_output & 0xff) as u8) },
                ..*old(self)
            }),
    {
        let byte = (self.alu_output & 0xff) as u8;
        self.alu.nzcv.restore(byte);
    }

    /// Reads an I/O port into the I/O output latch.
    pub fn read_io(&mut self, port: u8)
        ensures
            final(self).io.output == crate::machine::io::read_port_value(old(self).io, port),
            final(self).io.int_input_device.interrupt
                == crate::machine::io::int_interrupt_after_read(old(self).io, port),
            final(self).io.char_input_device.interrupt
                == crate::machine::io::char_interrupt_after_read(old(self).io, port),
            final(self).io.input == old(self).io.input,
            final(self).io.int_input_device.data == old(self).io.int_input_device.data,
            final(self).io.int_input_device.vector == old(self).io.int_input_device.vector,
            final(self).io.char_input_device.data == old(self).io.char_input_device.data,
            final(self).io.char_input_device.vector == old(self).io.char_input_device.vector,
            final(self).io.int_output_log@ == old(self).io.int_output_log@,
            final(self).io.char_output_log@ == old(self).io.char_output_log@,
            final(self).io.interrupt_vector == old(self).io.interrupt_vector,
            *final(self) == (DataPath { io: final(self).io, ..*old(self) }),
    {
        self.io.read(port);
    }

    /// Sends the ALU output to an I/O port.
    pub fn write_io(&mut self, port: u8)
        ensures
            final(self).io.int_input_device.vector == (if port == 1 {
                (old(self).alu_output as i64) as u8
            } else {
                old(self).io.int_input_device.vector
            }),
            final(self).io.char_input_device.vector == (if port == 3 {
                (old(self).alu_output as i64) as u8
            } else {
                old(self).io.char_input_device.vector
            }),
            final(self).io.int_output_log@ == (if port == 4 {
                old(self).io.int_output_log@.push(old(self).alu_output as i64)
            } else {
                old(self).io.int_output_log@
            }),
            final(self).io.char_output_log@ == (if port == 5 {
                old(self).io.char_output_log@.push(
                    crate::machine::io::byte_char(old(self).alu_output as i64),
                )
            } else {
                old(self).io.char_output_log@
            }),
            final(self).io.input == old(self).alu_output as i64,
            final(self).io.output == old(self).io.output,
            final(self).io.int_input_device.data == old(self).io.int_input_device.data,
            final(self).io.int_input_device.interrupt == old(self).io.int_input_device.interrupt,
            final(self).io.char_input_device.data == old(self).io.char_input_device.data,
            final(self).io.char_input_device.interrupt
                == old(self).io.char_input_device.interrupt,
            final(self).io.interrupt_vector == old(self).io.interrupt_vector,
            *final(self) == (DataPath { io: final(self).io, ..*old(self) }),
    {
        self.io.input = self.alu_output as i64;
        self.io.write(port);
    }
}

impl Default for DataPath {
    fn default() -> (data_path: Self)
        ensures
            data_path.data_memory.data@.len() == data_memory_words(),
            forall|i: int|
                0 <= i < data_memory_words() ==> #[trigger] data_path.data_memory.data@[i]@ == seq![
                    0u64,
                    0,
                    0,
                    0,
                ],
            data_path.data_registers@ == seq![0u64, 0, 0, 0, 0, 0, 0, 0],
            data_path.address_registers@ == seq![0u64, 0, 0, 0, 0, 0, 0, 0],
            data_path.alu.nzcv == (Nzcv { negative: false, zero: true, carry: false, overflow: false }),
            data_path.alu_output == 0,
            data_path.data_address == 0,
            data_path.pre_mode_selector == PreModeSelector::Unchanged,
            data_path.post_mode_selector == PostModeSelector::Unchanged,
            data_path.external_selector == ExternalSelector::ControlUnit,
            data_path.io.int_output_log@ == Seq::<i64>::empty(),
            data_path.io.char_output_log@ == Seq::<char>::empty(),
            !data_path.io.int_input_device.interrupt,
            !data_path.io.char_input_device.interrupt,
    {
        Self {
            data_memory: DataMemory::new(25000),
            left_alu_input: 0,
            right_alu_input: 0,
            alu: Alu::default(),
            alu_output: 0,
            data_registers_mux: 0,
            data_registers: [0u64, 0, 0, 0, 0, 0, 0, 0],
            address_registers_mux: 0,
            address_registers: [0u64, 0, 0, 0, 0, 0, 0, 0],
            left_data: 0,
            left_buffer: 0,
            right_data: 0,
            right_buffer: 0,
            external_selector: ExternalSelector::ControlUnit,
            pre_mode_selector: PreModeSelector::Unchanged,
            post_mode_selector: PostModeSelector::Unchanged,
            memory_output: [0u64, 0, 0, 0],
            data_address: 0,
            memory_output_mmux: 0,
            write_data: [0u64, 0, 0, 0],
            write_data_mux: [0u64, 0, 0, 0],
            io: IO::new(),
            control_unit_output: 0,
            vector_alu: VectorAlu::new(),
            left_vector_input: [0u64, 0, 0, 0],
            right_vector_input: [0u64, 0, 0, 0],
            vector_output: [0u64, 0, 0, 0],
            vector_output_mux: [0u64, 0, 0, 0],
        }
    }
}

} // verus!
