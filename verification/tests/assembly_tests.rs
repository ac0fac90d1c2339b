use proc_translator::isa::WordSize;
use proc_translator::machine::simulation::{
    select_interrupts, simulate_machine, DeviceChoice, InterruptRequest,
};
use proc_translator::translator::assembly::{translate, ControlUnitPackage};
use proc_translator::translator::lir::{
    Condition, LirBlock, LirInstruction, LirOperand, LirPackage, RegisterType,
};
use std::collections::HashMap;

fn data_register(number: u8) -> LirOperand {
    LirOperand::Register(number, RegisterType::Data)
}

fn package(blocks: Vec<LirBlock>, interrupt_blocks: [usize; 8]) -> LirPackage {
    let mut data_section = HashMap::new();
    data_section.insert(0u64, (7u64, WordSize::Long));
    LirPackage { text_section: blocks, data_section, interrupt_blocks }
}

fn print_42() -> Vec<LirBlock> {
    vec![LirBlock {
        id: 0,
        instructions: vec![
            LirInstruction::Mov {
                size: WordSize::Long,
                source: LirOperand::Direct(42),
                destination: data_register(0),
            },
            LirInstruction::Out {
                port: LirOperand::Direct(4),
                value: data_register(0),
                word_size: WordSize::Long,
            },
            LirInstruction::Halt,
        ],
    }]
}

#[test]
fn translate_encodes_words_big_endian() {
    let assembled = translate(package(print_42(), [0; 8]));
    assert_eq!(assembled.program, vec![0x0300_2000, 42, 0xA304_2000, 0]);
    assert_eq!(assembled.interrupt_vectors, [0; 8]);
    assert_eq!(assembled.data, vec![7]);
}

#[test]
fn translate_lays_out_data_by_address() {
    let mut data_section = HashMap::new();
    data_section.insert(3u64, (30u64, WordSize::Long));
    data_section.insert(1u64, (10u64, WordSize::Byte));
    let lir = LirPackage {
        text_section: vec![LirBlock { id: 0, instructions: vec![LirInstruction::Halt] }],
        data_section,
        interrupt_blocks: [0; 8],
    };
    let assembled = translate(lir);
    assert_eq!(assembled.data, vec![0, 10, 0, 30]);
    assert_eq!(assembled.program, vec![0]);
}

#[test]
fn translate_fills_in_jump_targets() {
    let blocks = vec![
        LirBlock { id: 5, instructions: vec![LirInstruction::Jmp { label: 9 }] },
        LirBlock {
            id: 9,
            instructions: vec![
                LirInstruction::Branch { condition: Condition::Equal, label: 5 },
                LirInstruction::Ret,
            ],
        },
    ];
    let assembled = translate(package(blocks, [9; 8]));
    assert_eq!(
        assembled.program,
        vec![0x4000_0000, 2, 0x6000_0000, 0, 0x4400_0000]
    );
    assert_eq!(assembled.interrupt_vectors, [2; 8]);
}

#[test]
fn translate_expands_set_bool() {
    let blocks = vec![LirBlock {
        id: 0,
        instructions: vec![LirInstruction::SetBool {
            condition: Condition::Lower,
            destination: data_register(1),
        }],
    }];
    let assembled = translate(package(blocks, [0; 8]));
    assert_eq!(
        assembled.program,
        vec![0x6800_0000, 6, 0x0300_2400, 0, 0x4000_0000, 8, 0x0300_2400, 1]
    );
}

#[test]
fn translate_encodes_indirect_operands() {
    let blocks = vec![LirBlock {
        id: 0,
        instructions: vec![LirInstruction::Add {
            size: WordSize::Byte,
            left: LirOperand::IndirectOffset {
                base: Box::new(LirOperand::Register(2, RegisterType::Address)),
                offset: Box::new(data_register(6)),
            },
            right: LirOperand::IndirectPostIncrement(Box::new(LirOperand::Register(
                7,
                RegisterType::Address,
            ))),
            destination: LirOperand::IndirectDirect(0x1234),
        }],
    }];
    let assembled = translate(package(blocks, [0; 8]));
    assert_eq!(assembled.program, vec![0x20CA_9CE0, 0x1234]);
}

#[test]
fn simulation_runs_an_assembled_program() {
    let assembled = translate(package(print_42(), [0; 8]));
    let (integers, characters, _) = simulate_machine(assembled, vec![]);
    assert_eq!(integers, vec![42]);
    assert!(characters.is_empty());
}

#[test]
fn simulation_delivers_an_interrupt_to_its_handler() {
    let blocks = vec![
        LirBlock {
            id: 0,
            instructions: vec![LirInstruction::Mov {
                size: WordSize::Long,
                source: LirOperand::Direct(1000),
                destination: LirOperand::Register(7, RegisterType::Address),
            }],
        },
        LirBlock { id: 1, instructions: vec![LirInstruction::Jmp { label: 1 }] },
        LirBlock {
            id: 2,
            instructions: vec![
                LirInstruction::In {
                    port: LirOperand::Direct(0),
                    destination: data_register(0),
                    word_size: WordSize::Long,
                },
                LirInstruction::Out {
                    port: LirOperand::Direct(4),
                    value: data_register(0),
                    word_size: WordSize::Long,
                },
                LirInstruction::Halt,
            ],
        },
    ];
    let assembled = translate(package(blocks, [2; 8]));
    let requests = vec![InterruptRequest::new(3, 99, DeviceChoice::IntInput)];
    let (integers, _, _) = simulate_machine(assembled, requests);
    assert_eq!(integers, vec![99]);
}

#[test]
fn simulation_outputs_characters() {
    let blocks = vec![LirBlock {
        id: 0,
        instructions: vec![
            LirInstruction::Mov {
                size: WordSize::Long,
                source: LirOperand::Direct(72),
                destination: data_register(2),
            },
            LirInstruction::Out {
                port: LirOperand::Direct(5),
                value: data_register(2),
                word_size: WordSize::Byte,
            },
            LirInstruction::Add {
                size: WordSize::Long,
                left: data_register(2),
                right: LirOperand::Direct(1),
                destination: data_register(2),
            },
            LirInstruction::Out {
                port: LirOperand::Direct(5),
                value: data_register(2),
                word_size: WordSize::Byte,
            },
            LirInstruction::Halt,
        ],
    }];
    let (_, characters, _) = simulate_machine(translate(package(blocks, [0; 8])), vec![]);
    assert_eq!(characters, vec!['H', 'I']);
}

#[test]
fn package_new_keeps_its_parts() {
    let package = ControlUnitPackage::new(vec![1, 2], vec![3], [4; 8]);
    assert_eq!(package.program, vec![1, 2]);
    assert_eq!(package.data, vec![3]);
    assert_eq!(package.interrupt_vectors, [4; 8]);
}

#[test]
fn interrupt_selection_serves_the_oldest_integer_request() {
    let requests = vec![
        InterruptRequest::new(5, 1, DeviceChoice::IntInput),
        InterruptRequest::new(3, 2, DeviceChoice::CharInput),
        InterruptRequest::new(4, 3, DeviceChoice::IntInput),
        InterruptRequest::new(10, 4, DeviceChoice::IntInput),
    ];
    let selection = select_interrupts(&requests, 5, false);
    assert!(selection.chosen == Some(InterruptRequest::new(4, 3, DeviceChoice::IntInput)));
    assert!(selection.remaining == vec![requests[1], requests[3]]);
}

#[test]
fn interrupt_selection_falls_back_to_characters() {
    let requests = vec![
        InterruptRequest::new(2, 7, DeviceChoice::CharInput),
        InterruptRequest::new(1, 8, DeviceChoice::CharInput),
        InterruptRequest::new(9, 9, DeviceChoice::IntInput),
    ];
    let selection = select_interrupts(&requests, 3, false);
    assert!(selection.chosen == Some(requests[1]));
    assert!(selection.remaining == vec![requests[2]]);
}

#[test]
fn interrupt_selection_drops_arrivals_while_busy() {
    let requests = vec![
        InterruptRequest::new(1, 1, DeviceChoice::IntInput),
        InterruptRequest::new(8, 2, DeviceChoice::CharInput),
    ];
    let selection = select_interrupts(&requests, 4, true);
    assert!(selection.chosen.is_none());
    assert!(selection.remaining == vec![requests[1]]);
    let idle = select_interrupts(&requests, 0, false);
    assert!(idle.chosen.is_none());
    assert!(idle.remaining == requests);
}

fn output_block(id: usize, value: u64) -> LirBlock {
    LirBlock {
        id,
        instructions: vec![
            LirInstruction::Mov {
                size: WordSize::Long,
                source: LirOperand::Direct(value),
                destination: data_register(1),
            },
            LirInstruction::Out {
                port: LirOperand::Direct(4),
                value: data_register(1),
                word_size: WordSize::Long,
            },
            LirInstruction::Halt,
        ],
    }
}

#[test]
fn jump_skips_to_its_target() {
    let blocks = vec![
        LirBlock { id: 0, instructions: vec![LirInstruction::Jmp { label: 2 }] },
        output_block(1, 1),
        output_block(2, 2),
    ];
    let (integers, _, _) = simulate_machine(translate(package(blocks, [0; 8])), vec![]);
    assert_eq!(integers, vec![2]);
}

#[test]
fn branch_follows_the_flags() {
    let compare = |that: u64, with: u64| LirBlock {
        id: 0,
        instructions: vec![
            LirInstruction::Cmp {
                size: WordSize::Long,
                that: LirOperand::Direct(that),
                with: LirOperand::Direct(with),
            },
            LirInstruction::Branch { condition: Condition::Equal, label: 2 },
        ],
    };
    let taken = vec![compare(5, 5), output_block(1, 1), output_block(2, 2)];
    let (integers, _, _) = simulate_machine(translate(package(taken, [0; 8])), vec![]);
    assert_eq!(integers, vec![2]);
    let not_taken = vec![compare(5, 6), output_block(1, 1), output_block(2, 2)];
    let (integers, _, _) = simulate_machine(translate(package(not_taken, [0; 8])), vec![]);
    assert_eq!(integers, vec![1]);
}

#[test]
fn lone_halt_runs_two_ticks_and_writes_nothing() {
    let package = ControlUnitPackage { program: vec![0x0000_0000], data: vec![], interrupt_vectors: [0; 8] };
    let (integers, characters, ticks) = simulate_machine(package, vec![]);
    assert!(integers.is_empty());
    assert!(characters.is_empty());
    assert_eq!(ticks, 2);
}
