use apexforge::apexlang::assembly::{execute_instruction, inline_block, parse_operand};
use apexforge::forge::math::AFNSBigInt;

fn values(regs: &[AFNSBigInt]) -> Vec<String> {
    regs.iter().map(|r| r.to_string()).collect()
}

fn zeros() -> Vec<AFNSBigInt> {
    (0..4).map(|_| AFNSBigInt::new("0").unwrap()).collect()
}

#[test]
fn executes_inline_program() {
    let result = inline_block("mov r0, 5; add r0, r0; xor r1, 0x3").unwrap().expect("executes");
    assert_eq!(result.len(), 4);
    assert_eq!(result[0].to_string(), "10");
    assert_eq!(result[1].to_string(), "3");
}

#[test]
fn every_opcode_updates_its_register() {
    let regs = inline_block("MOV r0, 12; mov r1, r0; sub r1, 20; mul r1, -3; and r2, 0; or r2, 0xF0; and r2, 0x3C; xor r3, r2; nop")
        .unwrap()
        .unwrap();
    assert_eq!(values(&regs), vec!["12", "24", "48", "48"]);
    let negative = inline_block("mov r0, -6; and r0, 0xF; mov r1, -6; or r1, 1; mov r2, -6; xor r2, -1").unwrap().unwrap();
    assert_eq!(values(&negative), vec!["10", "-5", "5", "0"]);
}

#[test]
fn inline_errors_name_the_problem() {
    let err = |src: &str| inline_block(src).unwrap().unwrap_err().message().to_string();
    assert_eq!(err("jmp r0"), "Unsupported opcode 'jmp'");
    assert_eq!(err("nop r1"), "nop does not accept operands");
    assert_eq!(err("mov r0"), "mov expects exactly two operands");
    assert_eq!(err("mov r4, 1"), "Register index out of range");
    assert_eq!(err("mov x0, 1"), "Expected register operand but found 'x0'");
    assert_eq!(err("mov r0, r9"), "Register 'r9' is out of range");
    assert_eq!(err("mov r0, 0xZZ"), "Unable to parse hexadecimal literal '0xZZ'");
    assert_eq!(err("mov r0, 12q"), "Unable to parse literal '12q'");
    assert_eq!(err("add r0, 1; bad"), "Unsupported opcode 'bad'");
}

#[test]
fn empty_instructions_are_skipped_or_refused() {
    let regs = inline_block(" ; ;mov r3, 1_000;").unwrap().unwrap();
    assert_eq!(values(&regs), vec!["0", "0", "0", "1000"]);
    let mut r = zeros();
    assert_eq!(
        execute_instruction("   ", &mut r).unwrap_err().message(),
        "Inline assembly instruction is empty"
    );
    execute_instruction("add r2, 0x10", &mut r).unwrap();
    assert_eq!(values(&r), vec!["0", "0", "16", "0"]);
}

#[test]
fn opcodes_ending_inside_a_character_are_reported() {
    assert!(inline_block("\u{2126}\u{2126} r0").is_none());
}

#[test]
fn operands_read_registers_and_literals() {
    let regs = inline_block("mov r1, 7").unwrap().unwrap();
    assert_eq!(parse_operand("r1", &regs).unwrap().to_string(), "7");
    assert_eq!(parse_operand("0x1f", &regs).unwrap().to_string(), "31");
    assert_eq!(parse_operand("-12", &regs).unwrap().to_string(), "-12");
    assert!(parse_operand("r", &regs).is_err());
}

#[test]
fn an_instruction_changes_only_its_destination() {
    let mut r = zeros();
    execute_instruction("mov r0, 3", &mut r).unwrap();
    execute_instruction("mov r3, 9", &mut r).unwrap();
    execute_instruction("add r1, r3", &mut r).unwrap();
    assert_eq!(values(&r), vec!["3", "9", "0", "9"]);
    assert!(execute_instruction("mov r4, 1", &mut r).is_err());
    assert!(execute_instruction("mov r0, 12q", &mut r).is_err());
    assert_eq!(values(&r), vec!["3", "9", "0", "9"]);
}
