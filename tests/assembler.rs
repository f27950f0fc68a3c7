use wh02::assembler::{format_image, parse_byte, Assembler, HLT_OPCODE, MEMORY_SIZE, NOP_OPCODE};
use wh02::expressions::Expressions;
use wh02::keyword::Keyword;
use wh02::lexer::Lexer;
use wh02::operand::Operand;
use wh02::parser::Parser;

fn operand(indicator: char, value: &str) -> Operand {
    Operand { indicator, value: value.to_string() }
}

fn mov(src: Operand, dst: Operand) -> Expressions {
    Expressions::BinaryExpression {
        keyword: Keyword::MOV,
        operand1: src,
        comma: ",".to_string(),
        operand2: dst,
    }
}

fn unary(keyword: Keyword, op: Operand) -> Expressions {
    Expressions::UnaryExpression { keyword, operand: op }
}

fn bare(keyword: Keyword) -> Expressions {
    Expressions::NoOperandExpression { keyword }
}

fn assembled(source: &str) -> Assembler {
    let mut parser = Parser::new(Lexer::new(source));
    parser.parse_all();
    assert!(parser.errors.is_empty(), "{:?}", parser.errors);
    let mut assembler = Assembler::new(parser.expressions);
    assembler.assemble().expect("program should assemble");
    assembler
}

fn words_of(e: Expressions) -> Vec<u8> {
    let mut assembler = Assembler::new(Vec::new());
    assembler.assemble_expression(&e).expect("instruction should encode")
}

fn error_of(e: Expressions) -> String {
    let mut assembler = Assembler::new(vec![e]);
    assembler.assemble().unwrap_err().message
}

#[test]
fn an_immediate_move_writes_opcode_and_byte() {
    assert_eq!(words_of(mov(operand('#', "0A"), operand('@', "A"))), vec![0x21, 0x0A]);
    assert_eq!(words_of(mov(operand('#', "FF"), operand('@', "O2"))), vec![0x25, 0xFF]);
    assert_eq!(words_of(mov(operand('#', "5"), operand('$', "40"))), vec![0x26, 0x05]);
}

#[test]
fn a_memory_move_writes_opcode_and_address() {
    assert_eq!(words_of(mov(operand('$', "10"), operand('@', "B"))), vec![0x1B, 0x10]);
    assert_eq!(words_of(mov(operand('$', "10"), operand('@', "O1"))), vec![0x1D, 0x10]);
    assert_eq!(words_of(mov(operand('$', "10"), operand('$', "20"))), vec![0x1F, 0x10]);
}

#[test]
fn the_accumulator_moves_have_their_opcodes() {
    let expected = [("A", 0x27), ("B", 0x28), ("C", 0x29), ("O1", 0x2A), ("O2", 0x2B)];
    for (dst, op) in expected {
        assert_eq!(words_of(mov(operand('@', "ACC"), operand('@', dst))), vec![op]);
    }
}

#[test]
fn directives_write_nothing() {
    assert!(words_of(unary(Keyword::DEF, operand('.', "x"))).is_empty());
    assert!(words_of(unary(Keyword::START, operand('$', "10"))).is_empty());
    assert!(words_of(unary(Keyword::JMP, operand('.', "x"))).is_empty());
    assert_eq!(words_of(bare(Keyword::HLT)), vec![HLT_OPCODE]);
    assert_eq!(words_of(bare(Keyword::NOP)), vec![NOP_OPCODE]);
}

#[test]
fn an_unmapped_combination_is_an_error() {
    assert_eq!(
        error_of(mov(operand('@', "A"), operand('$', "10"))),
        "unexpected operand combination"
    );
    assert_eq!(
        error_of(mov(operand('@', "A"), operand('@', "ACC"))),
        "unexpected operand combination"
    );
    assert_eq!(
        error_of(mov(operand('#', "01"), operand('.', "A"))),
        "unexpected operand combination"
    );
}

#[test]
fn a_malformed_hex_value_is_an_error() {
    assert_eq!(error_of(unary(Keyword::START, operand('$', "GG"))), "invalid hex value");
    assert_eq!(error_of(unary(Keyword::START, operand('$', ""))), "invalid hex value");
    assert_eq!(error_of(unary(Keyword::START, operand('$', "100"))), "invalid hex value");
    assert_eq!(error_of(mov(operand('#', ""), operand('@', "A"))), "invalid hex value");
}

#[test]
fn an_unexpected_expression_is_an_error() {
    assert_eq!(error_of(bare(Keyword::MOV)), "unexpected expression type");
    assert_eq!(error_of(unary(Keyword::HLT, operand('$', "10"))), "unexpected expression type");
    assert_eq!(
        error_of(Expressions::BinaryExpression {
            keyword: Keyword::DEF,
            operand1: operand('@', "A"),
            comma: ",".to_string(),
            operand2: operand('@', "B"),
        }),
        "unexpected expression type"
    );
}

#[test]
fn writing_past_the_image_is_an_error() {
    let mut parser = Parser::new(Lexer::new("START $FF\nMOV #01,@A\n"));
    parser.parse_all();
    assert!(parser.errors.is_empty());
    let mut assembler = Assembler::new(parser.expressions);
    assert_eq!(assembler.assemble().unwrap_err().message, "write past the end of memory");
}

#[test]
fn the_last_word_of_the_image_can_be_written() {
    let assembler = assembled("START $FF\nHLT\n");
    assert_eq!(assembler.assembled[0xFF], HLT_OPCODE);
}

#[test]
fn a_later_label_definition_wins() {
    let assembler = assembled("DEF .x\nNOP\nDEF .y\nNOP\nDEF .x\n");
    assert_eq!(assembler.label_address("x"), Some(2));
    assert_eq!(assembler.label_address("y"), Some(1));
    assert_eq!(assembler.label_address("z"), None);
}

#[test]
fn each_run_starts_afresh() {
    let mut assembler = Assembler::new(vec![unary(Keyword::START, operand('$', "10")), bare(Keyword::HLT)]);
    assembler.assemble().unwrap();
    assembler.assemble().unwrap();
    assert_eq!(assembler.assembled[0x10], HLT_OPCODE);
    assert_eq!(assembler.assembled[0x11], NOP_OPCODE);
    assert_eq!(assembler.assembled.len(), MEMORY_SIZE);
}

#[test]
fn the_dump_has_a_header_and_addressed_rows() {
    let mut image = vec![0u8; MEMORY_SIZE];
    image[0] = 0xAB;
    image[0x1F] = 0x0C;
    let text = format_image(&image);
    let lines: Vec<&str> = text.split('\n').collect();
    assert_eq!(lines.len(), 17);
    assert_eq!(lines[0], "v3.0 hex words addressed");
    assert!(lines[1].starts_with("00: AB 00 "));
    assert_eq!(lines[2], format!("10: {}0C ", "00 ".repeat(15)));
    assert_eq!(lines[16], format!("f0: {}", "00 ".repeat(16)));
    assert!(lines[11].starts_with("a0: "));
}

#[test]
fn hex_bytes_are_read_from_text() {
    assert_eq!(parse_byte("0A"), Some(10));
    assert_eq!(parse_byte("ff"), Some(255));
    assert_eq!(parse_byte("7"), Some(7));
    assert_eq!(parse_byte("00FF"), Some(255));
    assert_eq!(parse_byte("100"), None);
    assert_eq!(parse_byte(""), None);
    assert_eq!(parse_byte("1G"), None);
}
