use proc_translator::machine::printers::disassemble::{decode_program, disassemble, DecodedOperand};

#[test]
fn decoder_walks_instructions_and_their_words() {
    let program = [0x0300_2000, 42, 0xA304_2000, 0x4000_0000, 2, 0x20CA_9CE0, 0x1234, 0];
    let records = decode_program(&program);
    assert_eq!(records.len(), 5);

    assert_eq!((records[0].start, records[0].end, records[0].opcode), (0, 1, 0x01));
    assert!(records[0].long);
    assert!(records[0].operands == vec![DecodedOperand::Immediate(42), DecodedOperand::DataRegister(0)]);

    assert_eq!((records[1].start, records[1].end, records[1].opcode), (2, 2, 0x51));
    assert_eq!(records[1].port, Some(4));
    assert!(records[1].operands == vec![DecodedOperand::DataRegister(0)]);

    assert_eq!((records[2].start, records[2].end), (3, 4));
    assert_eq!(records[2].target, Some(2));

    assert_eq!((records[3].start, records[3].end, records[3].opcode), (5, 6, 0x10));
    assert!(!records[3].long);
    assert!(
        records[3].operands
            == vec![
                DecodedOperand::IndirectOffsetRegister(2, 6),
                DecodedOperand::IndirectPostIncrement(7),
                DecodedOperand::IndirectDirect(0x1234),
            ]
    );

    assert_eq!((records[4].start, records[4].end, records[4].opcode), (7, 7, 0));
}

#[test]
fn decoder_reads_zero_past_the_end() {
    let records = decode_program(&[0x0300_2000]);
    assert_eq!(records.len(), 1);
    assert!(records[0].operands[0] == DecodedOperand::Immediate(0));
    assert_eq!(records[0].end, 1);
    assert!(decode_program(&[]).is_empty());
}

fn listing(address: &str, words: &str, mnemonic: &str, description: &str) -> String {
    format!("{} | {:<35} | {:<35} | {}", address, words, mnemonic, description)
}

#[test]
fn listing_shows_words_notation_and_meaning() {
    let program = [0x0300_2000, 42, 0xA304_2000, 0x4000_0000, 2, 0x20CA_9CE0, 0x1234, 0];
    let lines = disassemble(&program);
    assert_eq!(lines.len(), 5);
    assert_eq!(lines[0], listing("0x0000", "03002000 0000002A", "MOV.l #42, D0", "D0 <- 42"));
    assert_eq!(lines[1], listing("0x0002", "A3042000", "OUT #4, D0", "IO[4] <- D0"));
    assert_eq!(lines[2], listing("0x0003", "40000000 00000002", "JMP 0x2", "PC <- 0x2"));
    assert_eq!(
        lines[3],
        listing(
            "0x0005",
            "20CA9CE0 00001234",
            "ADD.b (A2:D6), (A7)+, (#4660)",
            "MEM[4660] <- MEM[A2 + D6] + MEM[A7++]"
        )
    );
    assert_eq!(lines[4], listing("0x0007", "00000000", "HLT", "Остановка выполнения процессора"));
}

#[test]
fn listing_of_nothing_is_empty() {
    assert!(disassemble(&[]).is_empty());
}

#[test]
fn listing_names_unknown_operations() {
    let lines = disassemble(&[0xFE00_0000]);
    assert_eq!(lines, vec![listing("0x0000", "FE000000", "???", "Неизвестная инструкция")]);
    let lines = disassemble(&[0x8224_282C]);
    assert_eq!(lines, vec![listing("0x0000", "8224282C", "??? D1, D2, D3", "Неизвестная инструкция")]);
}

#[test]
fn listing_shows_negative_immediates_signed() {
    let lines = disassemble(&[0x0300_2000, 0xFFFF_FFFF]);
    assert_eq!(lines, vec![listing("0x0000", "03002000 FFFFFFFF", "MOV.l #-1, D0", "D0 <- -1")]);
}

#[test]
fn listing_names_mova_and_cmp() {
    let lines = disassemble(&[0x0524_2000, 0x0724_2800]);
    assert_eq!(lines[0], listing("0x0000", "05242000", "MOVA.l D1, D0", "D0 <- D1"));
    assert_eq!(lines[1], listing("0x0001", "07242800", "CMP.l D1, D2", "NZCV <- D1 - D2"));
}
