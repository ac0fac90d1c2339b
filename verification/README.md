# proc_translator

A front end for a small Java-like language and a microcoded processor that runs the
machine code, written in Verus with the behaviour of each part stated in its contracts.

- `src/parser.rs`: splits source text into sentences and builds the syntax tree.
- `src/translator/`: expressions (`expression`), statement trees (`ast`), the rewriting
  of `for`, `else if` and compound assignments (`simplifier`), the type checker
  (`analyzer`), the low-level instruction set (`lir`) and the assembler (`assembly`).
- `src/machine/`: the ALU and vector ALU, flags, registers, memories, I/O devices, the
  data path, the instruction decoder, the control unit (one micro-step per tick), the
  simulation loop with interrupts, and the disassembler (`printers::disassemble`).
- `src/io.rs`: reading of program, data, vector and interrupt files from their text.
- `app/`: the command line, file access and logging.
- `tests/`: tests of the library.

The instruction encoding follows `isa.md` of the processor: `MOVA` has operation code 0x02,
`CMP` has 0x03 and sets the flags of its first operand minus its second, and `NOT` stores
the bitwise inverse of its source.
