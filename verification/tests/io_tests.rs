use proc_translator::io::{
    parse_data, parse_interrupt_vector, parse_interrupts, parse_program, InterruptFileError,
};
use proc_translator::machine::simulation::{DeviceChoice, InterruptRequest};

#[test]
fn program_lines_are_decimal_words() {
    assert_eq!(parse_program("1\n2\n4294967295"), Some(vec![1, 2, 4294967295]));
    assert_eq!(parse_program("+7"), Some(vec![7]));
    assert_eq!(parse_program("4294967296"), None);
    assert_eq!(parse_program("1\n"), None);
    assert_eq!(parse_program("1\nx"), None);
    assert_eq!(parse_program(""), None);
}

#[test]
fn data_lines_are_64_bit_values() {
    assert_eq!(parse_data("18446744073709551615\n0"), Some(vec![u64::MAX, 0]));
    assert_eq!(parse_data("18446744073709551616"), None);
    assert_eq!(parse_data("-1"), None);
}

#[test]
fn interrupt_vector_needs_eight_lines() {
    assert_eq!(
        parse_interrupt_vector("0\n1\n2\n3\n4\n5\n6\n7"),
        Some([0, 1, 2, 3, 4, 5, 6, 7])
    );
    assert_eq!(parse_interrupt_vector("0\n1\n2"), None);
    assert_eq!(parse_interrupt_vector("0\n1\n2\n3\n4\n5\n6\n7\n8"), None);
}

#[test]
fn interrupt_file_reads_requests_and_skips_comments() {
    let text = "# header\n10 5 IntInput\n   // note\n\n20 A CharInput\n\t30 -3 IntInput  \n";
    let requests = parse_interrupts(text).ok().unwrap();
    assert!(
        requests
            == vec![
                InterruptRequest::new(10, 5, DeviceChoice::IntInput),
                InterruptRequest::new(20, 65, DeviceChoice::CharInput),
                InterruptRequest::new(30, -3, DeviceChoice::IntInput),
            ]
    );
}

#[test]
fn interrupt_file_errors_name_the_line() {
    assert!(parse_interrupts("1 2") == Err(InterruptFileError::FieldCount(1)));
    assert!(parse_interrupts("\n\nx 1 IntInput") == Err(InterruptFileError::Tick(3)));
    assert!(parse_interrupts("1 2 Keyboard") == Err(InterruptFileError::Device(1)));
    assert!(parse_interrupts("1 2 IntInput extra") == Err(InterruptFileError::FieldCount(1)));
    assert!(parse_interrupts("1 2 Keyboard\nbad") == Err(InterruptFileError::Device(1)));
    assert!(parse_interrupts("").ok().unwrap().is_empty());
}
