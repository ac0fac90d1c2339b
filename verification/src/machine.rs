pub mod alu;
pub mod control_unit;
pub mod data_memory;
pub mod data_path;
pub mod instruction_parser;
pub mod io;
pub mod isa;
pub mod memory;
pub mod nzcv;
pub mod printers;
pub mod program_memory;
pub mod register;
pub mod simulation;
pub mod stack;
pub mod vector_alu;
