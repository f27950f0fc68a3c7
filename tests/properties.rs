use std::collections::HashSet;

use wh02::assembler::{Assembler, HLT_OPCODE, MEMORY_SIZE, NOP_OPCODE};
use wh02::lexer::Lexer;
use wh02::parser::Parser;

fn image_of(source: &str) -> Vec<u8> {
    let mut parser = Parser::new(Lexer::new(source));
    parser.parse_all();
    assert!(parser.errors.is_empty(), "{:?}", parser.errors);
    let mut assembler = Assembler::new(parser.expressions);
    assembler.assemble().expect("program should assemble");
    assembler.assembled
}

const REGISTERS: [&str; 5] = ["A", "B", "C", "O1", "O2"];

fn move_table(src: &str, dst: &str) -> u8 {
    match (src, dst) {
        ("A", "B") => 0x01,
        ("A", "C") => 0x02,
        ("A", "O1") => 0x03,
        ("A", "O2") => 0x04,
        ("B", "A") => 0x06,
        ("B", "C") => 0x07,
        ("B", "O1") => 0x08,
        ("B", "O2") => 0x09,
        ("C", "A") => 0x0B,
        ("C", "B") => 0x0C,
        ("C", "O1") => 0x0D,
        ("C", "O2") => 0x0E,
        ("O1", "A") => 0x10,
        ("O1", "B") => 0x11,
        ("O1", "C") => 0x12,
        ("O1", "O2") => 0x13,
        ("O2", "A") => 0x15,
        ("O2", "B") => 0x16,
        ("O2", "C") => 0x17,
        ("O2", "O1") => 0x18,
        _ => panic!("no such move"),
    }
}

#[test]
fn register_moves_have_distinct_single_word_opcodes() {
    let mut seen = HashSet::new();
    for src in REGISTERS {
        for dst in REGISTERS {
            if src == dst {
                continue;
            }
            let image = image_of(&format!("MOV @{},@{}\nHLT\n", src, dst));
            assert_eq!(image[0], move_table(src, dst), "MOV @{},@{}", src, dst);
            assert_eq!(image[1], HLT_OPCODE);
            assert!(seen.insert(image[0]));
        }
    }
    assert_eq!(seen.len(), 20);
}

#[test]
fn nop_alone_fills_nothing_but_its_word() {
    let image = image_of("NOP\n");
    assert_eq!(image.len(), MEMORY_SIZE);
    assert_eq!(image[0], NOP_OPCODE);
    assert!(image.iter().all(|w| *w == NOP_OPCODE));
}

#[test]
fn start_sets_the_origin() {
    let image = image_of("START $10\nHLT");
    assert_eq!(image[0x10], HLT_OPCODE);
    assert_eq!(image[0], NOP_OPCODE);
}

#[test]
fn a_label_does_not_move_later_instructions() {
    let with_label = image_of("NOP\nDEF .here\nHLT\nMOV #07,@C\n");
    let without = image_of("NOP\nHLT\nMOV #07,@C\n");
    assert_eq!(with_label, without);
    assert_eq!(&with_label[..4], &[NOP_OPCODE, HLT_OPCODE, 0x23, 0x07]);
}

#[test]
fn a_label_records_the_cursor() {
    let mut parser = Parser::new(Lexer::new("START $20\nNOP\nDEF .here\nHLT\n"));
    parser.parse_all();
    let mut assembler = Assembler::new(parser.expressions);
    assembler.assemble().unwrap();
    assert_eq!(assembler.label_address("here"), Some(0x21));
    assert_eq!(assembler.assembled[0x21], HLT_OPCODE);
}

#[test]
fn an_immediate_move_into_a_encodes_two_words() {
    let image = image_of("MOV #0A,@A\n");
    assert_eq!(&image[..2], &[0x21, 0x0A]);
}

#[test]
fn end_to_end_program() {
    let source = "START $00\nMOV #0A,@A\nHLT";
    let mut parser = Parser::new(Lexer::new(source));
    parser.parse_all();
    assert!(parser.errors.is_empty());
    let mut assembler = Assembler::new(parser.expressions);
    let text = assembler.assemble().unwrap();
    let image = &assembler.assembled;
    assert_eq!(image[0], 0x21);
    assert_eq!(image[1], 0x0A);
    assert_eq!(image[2], 0x20);
    assert!(image[3..].iter().all(|w| *w == 0x00));

    let mut expected = String::from("v3.0 hex words addressed\n00: 21 0A 20 ");
    expected.push_str(&"00 ".repeat(13));
    for row in 1..16 {
        expected.push_str(&format!("\n{:02x}: ", row * 16));
        expected.push_str(&"00 ".repeat(16));
    }
    assert_eq!(text, expected);
}
