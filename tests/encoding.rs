use mips_assembler::assembler::{encode_line, Assembler};
use mips_assembler::error::{AsmError, LineError};
use mips_assembler::label::Label;

fn no_labels() -> Vec<Label> {
    Vec::new()
}

fn source(lines: &[&str]) -> Vec<String> {
    lines.iter().map(|l| l.to_string()).collect()
}

#[test]
fn add_three_registers() {
    let w = encode_line("add $t0, $t1, $t2", &no_labels(), 1).unwrap().unwrap();
    assert_eq!(w, 0b000000_01001_01010_01000_00000_100000);
    assert_eq!(w, 0x012A4020);
}

#[test]
fn jump_literal_address() {
    let w = encode_line("j 10", &no_labels(), 1).unwrap().unwrap();
    assert_eq!(w, 0b000010_00000000000000000000001010);
    assert_eq!(format!("{:032b}", w), "00001000000000000000000000001010");
}

#[test]
fn jump_negative_literal_is_masked() {
    let w = encode_line("j -1", &no_labels(), 1).unwrap().unwrap();
    assert_eq!(w, 0x0BFF_FFFF);
}

#[test]
fn shift_with_amount() {
    let w = encode_line("sll $t0, $t1, 4", &no_labels(), 1).unwrap().unwrap();
    assert_eq!(w, 0x0009_4100);
}

#[test]
fn shift_amount_out_of_field() {
    let r = encode_line("sll $t0, $t1, 32", &no_labels(), 1);
    assert_eq!(r, Err(AsmError::MalformedOperand));
}

#[test]
fn shift_amount_not_a_number() {
    let r = encode_line("sll $t0, $t1, four", &no_labels(), 1);
    assert_eq!(r, Err(AsmError::MalformedOperand));
}

#[test]
fn mult_two_registers() {
    let w = encode_line("mult $t0, $t1", &no_labels(), 1).unwrap().unwrap();
    assert_eq!(w, 0x0109_0018);
}

#[test]
fn jr_uses_rs() {
    let w = encode_line("jr $ra", &no_labels(), 1).unwrap().unwrap();
    assert_eq!(w, 0x03E0_0008);
}

#[test]
fn mfhi_uses_rd() {
    let w = encode_line("mfhi $t0", &no_labels(), 1).unwrap().unwrap();
    assert_eq!(w, 0x0000_4010);
}

#[test]
fn mul_has_its_own_opcode() {
    let w = encode_line("mul $t0, $t1, $t2", &no_labels(), 1).unwrap().unwrap();
    assert_eq!(w, (28 << 26) | (9 << 21) | (10 << 16) | (8 << 11) | 2);
}

#[test]
fn load_word_with_offset() {
    let w = encode_line("lw $t0, 4($t1)", &no_labels(), 1).unwrap().unwrap();
    assert_eq!(w, 0x8D28_0004);
}

#[test]
fn store_word_negative_offset() {
    let w = encode_line("sw $t0, -4($sp)", &no_labels(), 1).unwrap().unwrap();
    assert_eq!(w, 0xAFA8_FFFC);
}

#[test]
fn load_word_without_parentheses() {
    let r = encode_line("lw $t0, 4", &no_labels(), 1);
    assert_eq!(r, Err(AsmError::MalformedOperand));
}

#[test]
fn lui_fixes_rs_to_zero() {
    let w = encode_line("lui $t0, 16", &no_labels(), 1).unwrap().unwrap();
    assert_eq!(w, 0x3C08_0010);
}

#[test]
fn addi_negative_immediate() {
    let w = encode_line("addi $t0, $t1, -1", &no_labels(), 1).unwrap().unwrap();
    assert_eq!(w, (8 << 26) | (8 << 21) | (9 << 16) | 0xFFFF);
}

#[test]
fn immediate_out_of_sixteen_bits() {
    let r = encode_line("addi $t0, $t1, 40000", &no_labels(), 1);
    assert_eq!(r, Err(AsmError::MalformedOperand));
}

#[test]
fn unknown_mnemonic() {
    let r = encode_line("frob $t0, $t1", &no_labels(), 1);
    assert_eq!(r, Err(AsmError::UnknownMnemonic));
}

#[test]
fn unknown_register() {
    let r = encode_line("add $t0, $t1, $xx", &no_labels(), 1);
    assert_eq!(r, Err(AsmError::UnknownRegister));
}

#[test]
fn wrong_operand_count() {
    let r = encode_line("add $t0, $t1", &no_labels(), 1);
    assert_eq!(r, Err(AsmError::MalformedOperand));
}

#[test]
fn blank_line_has_no_word() {
    assert_eq!(encode_line(" \t ", &no_labels(), 1), Ok(None));
    assert_eq!(encode_line("", &no_labels(), 1), Ok(None));
}

#[test]
fn tabs_separate_words() {
    let w = encode_line("add\t$t0,\t$t1,  $t2", &no_labels(), 1).unwrap().unwrap();
    assert_eq!(w, 0x012A4020);
}

#[test]
fn label_only_line_has_no_word() {
    let program = Assembler::new(source(&["loop:"]));
    assert_eq!(program.labels.len(), 1);
    assert_eq!(program.labels[0].name, "loop");
    assert_eq!(program.labels[0].line, 0);
    assert_eq!(program.assemble(), Ok(Vec::new()));
}

#[test]
fn branch_back_to_label() {
    let program = Assembler::new(source(&["loop: addi $t0, $t0, 1", "beq $t0, $t1, loop"]));
    let words = program.assemble().unwrap();
    assert_eq!(words.len(), 2);
    assert_eq!(words[1], 0x1109_FFFE);
}

#[test]
fn jump_to_label_uses_absolute_address() {
    let program = Assembler::new(source(&["", "start: j start"]));
    let words = program.assemble().unwrap();
    assert_eq!(words, vec![0x0800_0000 | (0x10_0000 + 1)]);
    assert_eq!(words[0] & !0x03FF_FFFF, 0x0800_0000);
}

#[test]
fn undefined_label_aborts_run() {
    let program = Assembler::new(source(&["add $t0, $t1, $t2", "j nowhere", "add $t0, $t1, $t2"]));
    assert_eq!(program.assemble(), Err(LineError { line: 2, error: AsmError::UnknownLabel }));
}

#[test]
fn first_error_wins() {
    let program = Assembler::new(source(&["frob", "j nowhere"]));
    assert_eq!(program.assemble(), Err(LineError { line: 1, error: AsmError::UnknownMnemonic }));
}

#[test]
fn program_words_in_order() {
    let program = Assembler::new(source(&[
        "main:",
        "  add $t0, $t1, $t2",
        "",
        "  j 10",
    ]));
    assert_eq!(program.assemble(), Ok(vec![0x012A4020, 0x0800000A]));
}
