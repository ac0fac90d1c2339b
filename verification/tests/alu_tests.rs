use proc_translator::machine::alu::{Alu, AluOperator};
#[test]
fn test_add() {
    let mut alu = Alu::default();
    let result = alu.execute_operator(AluOperator::Add, 10, 20);
    assert_eq!(result, 30);
    assert!(!alu.nzcv.negative);
    assert!(!alu.nzcv.zero);
    assert!(!alu.nzcv.carry);
    assert!(!alu.nzcv.overflow);
}

#[test]
fn test_add_min_value() {
    let mut alu = Alu::default();
    let min_value = 1u64 << 63;
    let result = alu.execute_operator(AluOperator::Add, min_value, min_value);
    assert_eq!(result, 0);
    assert!(!alu.nzcv.negative);
    assert!(alu.nzcv.zero);
    assert!(alu.nzcv.carry);
    assert!(alu.nzcv.overflow);
}

#[test]
fn test_add_carry() {
    let mut alu = Alu::default();
    let result = alu.execute_operator(AluOperator::Add, u64::MAX, 1);
    assert_eq!(result, 0);
    assert!(!alu.nzcv.negative);
    assert!(alu.nzcv.zero);
    assert!(alu.nzcv.carry);
    assert!(!alu.nzcv.overflow);
}

#[test]
fn test_add_overflow() {
    let mut alu = Alu::default();
    let a = i64::MAX as u64;
    let result = alu.execute_operator(AluOperator::Add, a, 1);
    assert_eq!(result >> 63, 1);
    assert!(alu.nzcv.negative);
    assert!(!alu.nzcv.zero);
    assert!(alu.nzcv.overflow);
    assert!(!alu.nzcv.carry);
}

#[test]
fn test_sub() {
    let mut alu = Alu::default();
    let result = alu.execute_operator(AluOperator::Sub, 20, 10);
    assert_eq!(result, 10);
    assert!(!alu.nzcv.negative);
    assert!(!alu.nzcv.zero);
    assert!(!alu.nzcv.carry);
    assert!(!alu.nzcv.overflow);
}

#[test]
fn test_sub_carry() {
    let mut alu = Alu::default();
    let result = alu.execute_operator(AluOperator::Sub, 0, 1);
    assert_eq!(result, u64::MAX);
    assert!(alu.nzcv.negative);
    assert!(!alu.nzcv.zero);
    assert!(alu.nzcv.carry);
    assert!(!alu.nzcv.overflow);
}

#[test]
fn test_sub_overflow_to_negative() {
    let mut alu = Alu::default();
    let min_val = 1u64 << 63;
    let result = alu.execute_operator(AluOperator::Sub, min_val, 1);
    assert_eq!(result, i64::MAX as u64);
    assert!(!alu.nzcv.negative);
    assert!(alu.nzcv.overflow);
    assert!(!alu.nzcv.carry);
}

#[test]
fn test_sub_zero() {
    let mut alu = Alu::default();
    let result = alu.execute_operator(AluOperator::Sub, 0, 0);
    assert_eq!(result, 0);
    assert!(!alu.nzcv.negative);
    assert!(alu.nzcv.zero);
    assert!(!alu.nzcv.carry);
    assert!(!alu.nzcv.overflow);
}

#[test]
fn test_logical_ops() {
    let mut alu = Alu::default();

    let result = alu.execute_operator(AluOperator::And, 0b1010, 0b1100);
    assert_eq!(result, 0b1000);

    let result = alu.execute_operator(AluOperator::Xor, 0xFF, 0xFF);
    assert_eq!(result, 0);

    let result = alu.execute_operator(AluOperator::Not, 0, 0);
    assert_eq!(result, u64::MAX);
}

#[test]
fn test_lsl_carry() {
    let mut alu = Alu::default();
    let value = 1u64 << 63;
    let result = alu.execute_operator(AluOperator::Lsl, 1, value);
    assert_eq!(result, 0);
    assert!(alu.nzcv.zero);
    assert!(alu.nzcv.carry);
}

#[test]
fn test_lsl() {
    let mut alu = Alu::default();
    let result = alu.execute_operator(AluOperator::Lsl, 63, 1);
    assert_eq!(result, 1u64 << 63);
    assert!(alu.nzcv.negative);
    assert!(!alu.nzcv.carry);

    let result = alu.execute_operator(AluOperator::Lsl, 64, 0x1234);
    assert_eq!(result, 0x1234);
}

#[test]
fn test_lsr_carry() {
    let mut alu = Alu::default();
    let result = alu.execute_operator(AluOperator::Lsr, 1, 1);
    assert_eq!(result, 0);
    assert!(alu.nzcv.zero);
    assert!(alu.nzcv.carry);
}

#[test]
fn test_lsr() {
    let mut alu = Alu::default();
    let result = alu.execute_operator(AluOperator::Lsr, 63, 1u64 << 63);
    assert_eq!(result, 1);
    assert!(!alu.nzcv.negative);
    assert!(!alu.nzcv.carry);
}

#[test]
fn test_asr_sign_extension() {
    let mut alu = Alu::default();
    let value = 1u64 << 63;
    let result = alu.execute_operator(AluOperator::Asr, 2, value);
    assert_eq!(result, 0xE000000000000000);
    assert!(alu.nzcv.negative);
}

#[test]
fn test_asr_positive() {
    let mut alu = Alu::default();
    let result = alu.execute_operator(AluOperator::Asr, 1, 0x4000000000000000);
    assert_eq!(result, 0x2000000000000000);
    assert!(!alu.nzcv.negative);
}

#[test]
fn test_div_by_zero() {
    let mut alu = Alu::default();
    let _ = alu.execute_operator(AluOperator::Div, 10, 0);
    assert!(alu.nzcv.carry);
}

#[test]
fn test_div_overflow() {
    let mut alu = Alu::default();
    let min_value = 1u64 << 63;
    let _ = alu.execute_operator(AluOperator::Div, min_value, u64::MAX);
    assert!(alu.nzcv.overflow);
}

#[test]
fn test_mul() {
    let mut alu = Alu::default();
    let result = alu.execute_operator(AluOperator::Mul, 10, 5);
    assert_eq!(result, 50);
    assert!(!alu.nzcv.negative);
    assert!(!alu.nzcv.zero);
    assert!(!alu.nzcv.carry);
    assert!(!alu.nzcv.overflow);
}

#[test]
fn test_mul_carry() {
    let mut alu = Alu::default();
    let _ = alu.execute_operator(AluOperator::Mul, u64::MAX, 2);
    assert!(alu.nzcv.negative);
    assert!(!alu.nzcv.zero);
    assert!(alu.nzcv.carry);
    assert!(!alu.nzcv.overflow);
}

#[test]
fn test_mul_negative_result() {
    let mut alu = Alu::default();
    let result = alu.execute_operator(AluOperator::Mul, 5, u64::MAX);
    assert_eq!(result as i64, -5);
    assert!(alu.nzcv.negative);
    assert!(!alu.nzcv.zero);
    assert!(alu.nzcv.carry);
    assert!(!alu.nzcv.overflow);
}

#[test]
fn test_rem() {
    let mut alu = Alu::default();
    let result = alu.execute_operator(AluOperator::Rem, 10, 3);
    assert_eq!(result, 1);
    assert!(!alu.nzcv.negative);
    assert!(!alu.nzcv.zero);
    assert!(!alu.nzcv.carry);
    assert!(!alu.nzcv.overflow);
}

#[test]
fn test_rem_by_zero() {
    let mut alu = Alu::default();
    let _ = alu.execute_operator(AluOperator::Rem, 10, 0);
    assert!(alu.nzcv.carry);
}
