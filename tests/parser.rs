use wh02::expressions::Expressions;
use wh02::keyword::Keyword;
use wh02::lexer::Lexer;
use wh02::operand::{Operand, Register};
use wh02::parser::Parser;
use wh02::position::Position;

fn parsed(source: &str) -> Parser {
    let mut parser = Parser::new(Lexer::new(source));
    parser.parse_all();
    parser
}

fn operand(indicator: char, value: &str) -> Operand {
    Operand { indicator, value: value.to_string() }
}

#[test]
fn parses_the_three_shapes() {
    let parser = parsed("START $10\nDEF .top\nMOV #0A,@B\nNOP\nHLT");
    assert!(parser.errors.is_empty());
    assert!(!parser.has_next);
    assert_eq!(
        parser.expressions,
        vec![
            Expressions::UnaryExpression { keyword: Keyword::START, operand: operand('$', "10") },
            Expressions::UnaryExpression { keyword: Keyword::DEF, operand: operand('.', "top") },
            Expressions::BinaryExpression {
                keyword: Keyword::MOV,
                operand1: operand('#', "0A"),
                comma: ",".to_string(),
                operand2: operand('@', "B"),
            },
            Expressions::NoOperandExpression { keyword: Keyword::NOP },
            Expressions::NoOperandExpression { keyword: Keyword::HLT },
        ]
    );
}

#[test]
fn blank_lines_and_comments_are_ignored() {
    let parser = parsed("; header\n\n   \nNOP ; idle\n");
    assert!(parser.errors.is_empty());
    assert_eq!(
        parser.expressions,
        vec![Expressions::NoOperandExpression { keyword: Keyword::NOP }]
    );
}

#[test]
fn start_after_an_instruction_is_an_error() {
    let parser = parsed("NOP\nSTART $10\nHLT\n");
    assert_eq!(parser.errors.len(), 1);
    assert_eq!(parser.errors[0].message, "START must be the first instruction");
    assert_eq!(parser.errors[0].position, Position { line: 1, col: 0 });
    assert_eq!(
        parser.expressions,
        vec![Expressions::NoOperandExpression { keyword: Keyword::NOP }]
    );
}

#[test]
fn start_after_a_label_is_an_error() {
    let parser = parsed("DEF .x\nSTART $00\n");
    assert_eq!(parser.errors.len(), 1);
    assert_eq!(parser.errors[0].message, "START must be the first instruction");
}

#[test]
fn a_move_onto_its_own_source_is_an_error() {
    let parser = parsed("MOV @A,@A\n");
    assert_eq!(parser.errors.len(), 1);
    assert_eq!(parser.errors[0].message, "destination is the same as the source");
    assert!(parser.expressions.is_empty());
}

#[test]
fn bare_register_names_are_not_operands() {
    let parser = parsed("MOV A,A\n");
    assert!(!parser.errors.is_empty());
    assert!(parser.expressions.is_empty());
    let parser = parsed("MOV #0A,A\n");
    assert!(!parser.errors.is_empty());
    assert!(parser.expressions.is_empty());
}

#[test]
fn an_unknown_keyword_is_an_error() {
    let parser = parsed("FOO\nNOP\n");
    assert_eq!(parser.errors.len(), 1);
    assert_eq!(parser.errors[0].message, "invalid keyword");
    assert_eq!(
        parser.expressions,
        vec![Expressions::NoOperandExpression { keyword: Keyword::NOP }]
    );
}

#[test]
fn a_keyword_in_the_wrong_shape_is_an_error() {
    let parser = parsed("MOV\n");
    assert_eq!(parser.errors.len(), 1);
    assert_eq!(parser.errors[0].message, "keyword does not fit the expression");
    assert_eq!(parser.errors[0].position, Position { line: 0, col: 0 });
    let parser = parsed("HLT $10\n");
    assert!(!parser.errors.is_empty());
    assert!(parser.expressions.is_empty());
}

#[test]
fn an_operand_of_the_wrong_kind_is_an_error() {
    let parser = parsed("DEF $10\n");
    assert_eq!(parser.errors.len(), 1);
    assert_eq!(parser.errors[0].message, "invalid token type");
    assert_eq!(parser.errors[0].position, Position { line: 0, col: 4 });
}

#[test]
fn a_line_of_four_tokens_is_an_error() {
    let parser = parsed("MOV #01,\n");
    assert_eq!(parser.errors.len(), 1);
    assert_eq!(parser.errors[0].message, "invalid expression length, expected 2, 3, or 5");
}

#[test]
fn an_unknown_location_is_an_error() {
    let parser = parsed("MOV #01,@D\n");
    assert!(parser.errors.iter().any(|e| e.message == "invalid location"));
    assert!(parser.expressions.is_empty());
}

#[test]
fn the_accumulator_can_be_read_but_not_written() {
    let parser = parsed("MOV @ACC,@C\n");
    assert!(parser.errors.is_empty());
    let parser = parsed("MOV @A,@ACC\n");
    assert_eq!(parser.errors.len(), 1);
    assert_eq!(parser.errors[0].message, "invalid destination");
}

#[test]
fn jmp_takes_an_address_or_a_label() {
    let parser = parsed("JMP .loop\nJMP $20\n");
    assert!(parser.errors.is_empty());
    assert_eq!(parser.expressions.len(), 2);
}

#[test]
fn a_lexical_error_stops_the_parse() {
    let parser = parsed("NOP\nMOV #123,@A\nHLT\n");
    assert_eq!(parser.errors.len(), 1);
    assert_eq!(parser.errors[0].message, "invalid hex value, expected two hexits");
    assert_eq!(parser.errors[0].position, Position { line: 1, col: 7 });
    assert_eq!(
        parser.expressions,
        vec![Expressions::NoOperandExpression { keyword: Keyword::NOP }]
    );
}

#[test]
fn errors_of_several_lines_are_all_kept() {
    let parser = parsed("FOO\nMOV @B,@B\nNOP\nBAR\n");
    assert_eq!(parser.errors.len(), 3);
    assert_eq!(parser.expressions.len(), 1);
}

#[test]
fn parse_reads_one_line_at_a_time() {
    let mut parser = Parser::new(Lexer::new("NOP\nHLT"));
    assert!(parser.parse().is_ok());
    assert_eq!(parser.expressions.len(), 1);
    assert!(parser.has_next);
    assert!(parser.parse().is_ok());
    assert_eq!(parser.expressions.len(), 2);
    assert!(!parser.has_next);
}

#[test]
fn keywords_are_read_from_their_names() {
    let p = Position { line: 3, col: 1 };
    assert_eq!(Keyword::from_str("START", p).unwrap(), Keyword::START);
    assert_eq!(Keyword::from_str("JMP", p).unwrap(), Keyword::JMP);
    let error = Keyword::from_str("mov", p).unwrap_err();
    assert_eq!(error.message, "invalid keyword");
    assert_eq!(error.position, p);
}

#[test]
fn operands_split_off_their_indicator() {
    let p = Position { line: 0, col: 0 };
    assert_eq!(Operand::from_str("#0A", p).unwrap(), operand('#', "0A"));
    assert_eq!(Operand::from_str("@O1", p).unwrap(), operand('@', "O1"));
    assert_eq!(Operand::get_indicator(".x", p).unwrap(), '.');
    assert_eq!(Operand::from_str("", p).unwrap_err().message, "empty operand");
    assert!(Operand::get_indicator("", p).is_err());
}

#[test]
fn registers_are_read_from_their_names() {
    assert_eq!(Register::from_name("O2"), Some(Register::O2));
    assert_eq!(Register::from_name("ACC"), Some(Register::ACC));
    assert_eq!(Register::from_name("D"), None);
    assert_eq!(Register::from_location("@B"), Some(Register::B));
    assert_eq!(Register::from_location("B"), None);
}

#[test]
fn keywords_are_checked_against_the_shapes() {
    assert!(Expressions::validate_no_operand_keyword(Keyword::HLT).is_ok());
    assert!(Expressions::validate_no_operand_keyword(Keyword::MOV).is_err());
    assert!(Expressions::validate_unary_keyword(Keyword::JMP).is_ok());
    assert!(Expressions::validate_unary_keyword(Keyword::NOP).is_err());
    assert!(Expressions::validate_binary_keyword(Keyword::MOV).is_ok());
    assert!(Expressions::validate_binary_keyword(Keyword::DEF).is_err());
}

#[test]
fn each_fault_of_a_line_is_reported_where_it_is() {
    let parser = parsed("MOV A,A\n");
    let found: Vec<(&str, Position)> =
        parser.errors.iter().map(|e| (e.message.as_str(), e.position)).collect();
    assert_eq!(
        found,
        vec![
            ("invalid token type", Position { line: 0, col: 4 }),
            ("invalid token type", Position { line: 0, col: 6 }),
            ("invalid destination", Position { line: 0, col: 6 }),
        ]
    );
}

#[test]
fn a_second_start_is_an_error() {
    let parser = parsed("START $10\nSTART $20\nHLT\n");
    assert_eq!(parser.errors.len(), 1);
    assert_eq!(parser.errors[0].message, "START must be the first instruction");
    assert_eq!(parser.errors[0].position, Position { line: 1, col: 0 });
    assert_eq!(parser.expressions.len(), 1);
}

#[test]
fn comment_lines_are_blank() {
    let parser = parsed("\n; only a comment\nHLT ; stop\n");
    assert!(parser.errors.is_empty());
    assert_eq!(
        parser.expressions,
        vec![Expressions::NoOperandExpression { keyword: Keyword::HLT }]
    );
}
