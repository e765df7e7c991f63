use mips_assembler::error::AsmError;
use mips_assembler::instruction::{instructions, Instruction, InstructionFormat};
use mips_assembler::label::Label;
use mips_assembler::register::{registers, Register};
use mips_assembler::text::{parse_literal, same_text, split_words};

#[test]
fn every_mnemonic_finds_its_entry() {
    let table = instructions();
    assert_eq!(table.len(), 31);
    for entry in table.iter() {
        let found = Instruction::get_instruction(entry.name).unwrap();
        assert_eq!(found.name, entry.name);
        assert_eq!(found.format, entry.format);
        let others = table.iter().filter(|e| e.name == entry.name).count();
        assert_eq!(others, 1);
    }
}

#[test]
fn catalog_formats() {
    assert_eq!(
        Instruction::get_instruction("add").unwrap().format,
        InstructionFormat::R { op_code: 0, function: 32 }
    );
    assert_eq!(
        Instruction::get_instruction("mul").unwrap().format,
        InstructionFormat::R { op_code: 28, function: 2 }
    );
    assert_eq!(Instruction::get_instruction("lw").unwrap().format, InstructionFormat::I { op_code: 35 });
    assert_eq!(Instruction::get_instruction("jal").unwrap().format, InstructionFormat::J { op_code: 3 });
}

#[test]
fn unknown_mnemonic_is_not_found() {
    assert!(Instruction::get_instruction("nop").is_none());
    assert!(Instruction::get_instruction("ADD").is_none());
    assert!(Instruction::get_instruction("").is_none());
}

#[test]
fn register_decorations_do_not_matter() {
    for r in registers().iter() {
        let bare = Register::get_register(r.name);
        assert_eq!(bare, Ok(r.number));
        assert_eq!(Register::get_register(&format!("${},", r.name)), bare);
        assert_eq!(Register::get_register(&format!("${}", r.name)), bare);
        assert_eq!(Register::get_register(&format!("{},", r.name)), bare);
    }
}

#[test]
fn numeric_registers() {
    assert_eq!(Register::get_register("$9,"), Ok(9));
    assert_eq!(Register::get_register("$31"), Ok(31));
    assert_eq!(Register::get_register("$32"), Err(AsmError::MalformedOperand));
    assert_eq!(Register::get_register("$xx"), Err(AsmError::UnknownRegister));
}

#[test]
fn filter_string_strips_dollar_and_comma() {
    assert_eq!(Register::filter_string("$t0,"), "t0");
    assert_eq!(Register::filter_string("$sp"), "sp");
    assert_eq!(Register::filter_string("ra"), "ra");
    assert_eq!(Register::named_to_number("sp"), Ok(29));
    assert_eq!(Register::named_to_number("$sp"), Err(AsmError::UnknownRegister));
}

#[test]
fn label_words() {
    assert!(Label::is_label("loop:"));
    assert!(!Label::is_label("loop"));
    assert!(!Label::is_label(""));
    assert!(Label::is_label_reference("loop"));
    assert!(!Label::is_label_reference("-12"));
    assert!(!Label::is_label_reference("+7"));
    assert!(Label::is_label_reference("99999999999"));
}

#[test]
fn labels_keep_physical_line_indices() {
    let lines: Vec<String> = vec!["", "start:", "  add $t0, $t1, $t2", "   ", "loop: addi $t0, $t0, 1"]
        .into_iter()
        .map(String::from)
        .collect();
    let labels = Label::find_labels(&lines);
    assert_eq!(labels.len(), 2);
    assert_eq!(labels[0].name, "start");
    assert_eq!(labels[0].line, 1);
    assert_eq!(labels[1].name, "loop");
    assert_eq!(labels[1].line, 4);
}

#[test]
fn relative_resolution() {
    let labels = vec![Label { name: "top".to_string(), line: 1 }];
    assert_eq!(Label::reference_to_relative_line(&labels, "top", 5), Ok(-4));
    assert_eq!(Label::reference_to_relative_line(&labels, "top", 0), Ok(1));
    let d = Label::reference_to_relative_line(&labels, "top", 5).unwrap();
    assert_eq!(5 + d as i64, 1);
    assert_eq!(Label::reference_to_relative_line(&labels, "none", 5), Err(AsmError::UnknownLabel));
}

#[test]
fn absolute_resolution() {
    let labels = vec![
        Label { name: "a".to_string(), line: 3 },
        Label { name: "a".to_string(), line: 9 },
    ];
    assert_eq!(Label::find_label_line(&labels, "a"), Ok(3));
    assert_eq!(Label::find_label_line_address(&labels, "a"), Ok(0x10_0003));
    assert_eq!(Label::find_label_line_address(&labels, "b"), Err(AsmError::UnknownLabel));
}

#[test]
fn words_and_literals() {
    let w = split_words("  lw\t$t0,  4($t1) ");
    assert_eq!(w, vec!["lw", "$t0,", "4($t1)"]);
    assert!(split_words(" \u{3000} ").is_empty());
    assert_eq!(parse_literal("-32768", true), Some(-32768));
    assert_eq!(parse_literal("+12", false), Some(12));
    assert_eq!(parse_literal("-12", false), None);
    assert_eq!(parse_literal("1x", true), None);
    assert_eq!(parse_literal("99999999999", true), Some(0x1_0000_0001));
    assert!(same_text("abc", "abc"));
    assert!(!same_text("abc", "abd"));
}
