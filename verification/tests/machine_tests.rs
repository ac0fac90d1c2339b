use proc_translator::isa::{Mode, Operator, WordSize};
use proc_translator::machine::alu::{Alu, AluOperator};
use proc_translator::machine::control_unit::ControlUnit;
use proc_translator::machine::data_memory::DataMemory;
use proc_translator::machine::instruction_parser::InstructionParser;
use proc_translator::machine::io::IO;
use proc_translator::machine::memory::Memory;
use proc_translator::machine::nzcv::Nzcv;
use proc_translator::machine::register::Register;
use proc_translator::machine::stack::Stack;
use proc_translator::machine::vector_alu::{VectorAlu, VectorAluOperator};

#[test]
fn nzcv_packs_flags_as_nzcv_bits() {
    let flags = Nzcv::new(true, false, true, false);
    assert_eq!(flags.to_byte(), 0b1010);
    assert_eq!(Nzcv::default().to_byte(), 0b0100);
}

#[test]
fn nzcv_restore_undoes_to_byte() {
    let original = Nzcv::new(false, true, true, true);
    let byte = original.to_byte() as u8;
    let mut restored = Nzcv::new(true, false, false, false);
    restored.restore(byte);
    assert!(!restored.negative);
    assert!(restored.zero);
    assert!(restored.carry);
    assert!(restored.overflow);
}

#[test]
fn stack_pops_what_was_pushed_last() {
    let mut stack = Stack::new();
    stack.push(5);
    stack.push(7);
    assert_eq!(stack.pop(), 7);
    assert_eq!(stack.pop(), 5);
}

#[test]
fn register_reads_what_was_written() {
    let mut register = Register::new(3);
    assert_eq!(register.read(), 3);
    register.write(9);
    assert_eq!(register.read(), 9);
    assert_eq!(Register::default().read(), 0);
}

#[test]
fn memory_reads_back_big_endian_words() {
    let mut memory = Memory::new(16);
    memory.write_u32(4, 0x1234_5678);
    assert_eq!(memory.read_u32(4), 0x1234_5678);
    memory.write_u64(8, 0x0102_0304_0506_0708);
    assert_eq!(memory.read_u64(8), 0x0102_0304_0506_0708);
    assert_eq!(memory.read_u32(8), 0x0102_0304);
    assert_eq!(memory.read_u32(12), 0x0506_0708);
    memory.write_u8(8, 0xff);
    assert_eq!(memory.read_u32(8), 0xff02_0304);
}

#[test]
fn data_memory_reads_back_vector_words() {
    let mut memory = DataMemory::new(4);
    assert_eq!(memory.read(2), [0, 0, 0, 0]);
    memory.write(2, [1, 2, 3, 4]);
    assert_eq!(memory.read(2), [1, 2, 3, 4]);
    assert_eq!(memory.read(1), [0, 0, 0, 0]);
}

#[test]
fn vector_alu_works_lane_by_lane() {
    let mut unit = VectorAlu::new();
    let sum = unit.execute_operator(VectorAluOperator::Add, [1, 2, 3, u64::MAX], [10, 20, 30, 1]);
    assert_eq!(sum, [11, 22, 33, 0]);
    let difference = unit.execute_operator(VectorAluOperator::Sub, [5, 5, 5, 5], [1, 2, 3, 4]);
    assert_eq!(difference, [4, 3, 2, 1]);
}

#[test]
fn alu_adc_adds_the_carry() {
    let mut alu = Alu::default();
    alu.execute_operator(AluOperator::Add, u64::MAX, 1);
    assert!(alu.nzcv.carry);
    let result = alu.execute_operator(AluOperator::Adc, 2, 3);
    assert_eq!(result, 6);
    assert!(!alu.nzcv.carry);
}

#[test]
fn alu_transfers_and_division() {
    let mut alu = Alu::default();
    assert_eq!(alu.execute_operator(AluOperator::Trl, 4, 9), 4);
    assert_eq!(alu.execute_operator(AluOperator::Trr, 4, 9), 9);
    assert_eq!(alu.execute_operator(AluOperator::Div, (-7i64) as u64, 2) as i64, -3);
    assert_eq!(alu.execute_operator(AluOperator::Rem, (-7i64) as u64, 2) as i64, -1);
    assert_eq!(alu.execute_operator(AluOperator::Div, 10, 0), 0);
    assert!(alu.nzcv.carry);
    assert!(alu.nzcv.zero);
}

#[test]
fn instruction_parser_decodes_head_and_operands() {
    let parser = InstructionParser::new();
    let (operator, size) = parser.parse_operator(0x2100_0000 | (0x10 << 25));
    assert!(operator == Operator::Add);
    assert!(size == WordSize::Long);
    let (operator, size) = parser.parse_operator(0x03 << 25);
    assert!(operator == Operator::Cmp);
    assert!(size == WordSize::Byte);
    let operand = parser.parse_operand(0b110_011_10);
    assert!(operand.mode == Mode::IndirectOffset);
    assert_eq!(operand.main_register, 3);
    assert_eq!(operand.offset, 2);
}

#[test]
fn io_read_acknowledges_the_interrupt() {
    let mut io = IO::new();
    io.write_internal(0, 42);
    io.int_input_device.interrupt = true;
    assert!(io.check_interrupt());
    io.update_interrupt_vector();
    assert_eq!(io.interrupt_vector, 0);
    io.read(0);
    assert_eq!(io.output, 42);
    assert!(!io.int_input_device.interrupt);
    assert!(!io.check_interrupt());
}

#[test]
fn io_write_logs_integers_and_characters() {
    let mut io = IO::new();
    io.input = 65;
    io.write(4);
    io.write(5);
    io.write(7);
    assert_eq!(io.int_output_log, vec![65]);
    assert_eq!(io.char_output_log, vec!['A']);
}

#[test]
fn control_unit_stops_on_halt() {
    let mut control_unit = ControlUnit::default();
    control_unit.load_program(&[0x0100_0000]);
    let mut steps = 0;
    while !control_unit.step() {
        steps += 1;
        assert!(steps < 10);
    }
    assert!(control_unit.fault.is_none());
    assert_eq!(control_unit.tick, 2);
}

#[test]
fn control_unit_faults_on_unknown_operator() {
    let mut control_unit = ControlUnit::default();
    control_unit.load_program(&[0x7f << 25]);
    let mut steps = 0;
    while !control_unit.step() {
        steps += 1;
        assert!(steps < 10);
    }
    assert!(control_unit.fault.is_some());
}

#[test]
fn control_unit_loads_data_by_lane() {
    let mut control_unit = ControlUnit::default();
    control_unit.load_data_section(vec![1, 2, 3, 4, 5]);
    assert_eq!(control_unit.data_path.data_memory.read(0), [1, 2, 3, 4]);
    assert_eq!(control_unit.data_path.data_memory.read(1), [5, 0, 0, 0]);
}

fn run(control_unit: &mut ControlUnit) {
    let mut steps = 0;
    while !control_unit.step() {
        steps += 1;
        assert!(steps < 1000);
    }
}

#[test]
fn register_add_writes_the_destination() {
    let mut control_unit = ControlUnit::default();
    control_unit.data_path.data_registers[1] = 5;
    control_unit.data_path.data_registers[2] = 7;
    control_unit.load_program(&[0x2124_282C]);
    run(&mut control_unit);
    assert_eq!(control_unit.data_path.data_registers[3], 12);
    assert!(!control_unit.data_path.alu.nzcv.zero);
    assert!(control_unit.fault.is_none());
}

#[test]
fn register_mov_cuts_to_the_byte() {
    let mut control_unit = ControlUnit::default();
    control_unit.data_path.data_registers[1] = 0x1ff;
    control_unit.load_program(&[0x0224_2000]);
    run(&mut control_unit);
    assert_eq!(control_unit.data_path.data_registers[0], 0xff);
}

#[test]
fn register_sub_sets_the_flags() {
    let mut control_unit = ControlUnit::default();
    control_unit.data_path.data_registers[1] = 3;
    control_unit.data_path.data_registers[2] = 3;
    control_unit.load_program(&[0x2524_282C]);
    run(&mut control_unit);
    assert_eq!(control_unit.data_path.data_registers[3], 0);
    assert!(control_unit.data_path.alu.nzcv.zero);
}

#[test]
fn interrupt_switches_set_and_clear_the_flag() {
    let mut control_unit = ControlUnit::default();
    control_unit.load_program(&[0xA400_0000, 0]);
    run(&mut control_unit);
    assert!(control_unit.interrupt_flag);
    assert!(control_unit.fault.is_none());

    let mut control_unit = ControlUnit::default();
    control_unit.load_program(&[0xA400_0000, 0xA600_0000, 0]);
    run(&mut control_unit);
    assert!(!control_unit.interrupt_flag);
    assert!(control_unit.fault.is_none());
}

#[test]
fn compare_sets_the_flags_of_the_first_minus_the_second() {
    let mut control_unit = ControlUnit::default();
    control_unit.load_program(&[0x0700_0000, 3, 5, 0]);
    run(&mut control_unit);
    let flags = *control_unit.data_path.transmit_nzcv();
    assert!(control_unit.fault.is_none());
    assert!(flags.negative && flags.carry && !flags.zero && !flags.overflow);

    let mut control_unit = ControlUnit::default();
    control_unit.load_program(&[0x0700_0000, 5, 3, 0]);
    run(&mut control_unit);
    let flags = *control_unit.data_path.transmit_nzcv();
    assert!(!flags.negative && !flags.carry && !flags.zero && !flags.overflow);
}

#[test]
fn byte_encoding_reads_the_main_register_from_bits_four_to_two() {
    let parser = proc_translator::machine::isa::InstructionParser::new();
    let operand = parser.parse_operand(0x36);
    assert!(operand.mode == proc_translator::machine::isa::Mode::DataRegister);
    assert_eq!(operand.main_register, 5);
    assert_eq!(operand.offset_register, 2);
}

#[test]
fn data_memory_keeps_the_last_write() {
    let mut memory = DataMemory::new(4);
    memory.write(1, [1, 2, 3, 4]);
    memory.write(2, [5, 6, 7, 8]);
    memory.write(1, [9, 9, 9, 9]);
    assert_eq!(memory.read(1), [9, 9, 9, 9]);
    assert_eq!(memory.read(2), [5, 6, 7, 8]);
    assert_eq!(memory.read(3), [0, 0, 0, 0]);
}

#[test]
fn lone_halt_stops_after_two_ticks_and_keeps_the_registers() {
    let mut control_unit = ControlUnit::default();
    control_unit.load_program(&[0x0000_0000]);
    assert!(!control_unit.step());
    assert!(!control_unit.step());
    assert!(control_unit.step());
    assert!(control_unit.step());
    assert_eq!(control_unit.tick, 2);
    assert_eq!(control_unit.data_path.data_registers, [0; 8]);
    assert!(control_unit.fault.is_none());
}

#[test]
fn move_of_an_immediate_writes_the_register() {
    let mut control_unit = ControlUnit::default();
    control_unit.load_program(&[0x0300_2000, 42, 0]);
    run(&mut control_unit);
    assert_eq!(control_unit.data_path.data_registers[0], 42);
    assert!(control_unit.fault.is_none());
}

#[test]
fn not_inverts_the_source() {
    let mut control_unit = ControlUnit::default();
    control_unit.data_path.data_registers[1] = 0x0f;
    control_unit.load_program(&[0x3324_2000, 0]);
    run(&mut control_unit);
    assert_eq!(control_unit.data_path.data_registers[0], !0x0fu64);
    assert!(control_unit.fault.is_none());
}

#[test]
fn mova_copies_between_registers() {
    let mut control_unit = ControlUnit::default();
    control_unit.data_path.data_registers[1] = 77;
    control_unit.load_program(&[0x0524_2000, 0]);
    run(&mut control_unit);
    assert_eq!(control_unit.data_path.data_registers[0], 77);
    assert!(control_unit.fault.is_none());
}
