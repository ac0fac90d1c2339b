pub mod disassemble;
