use wh02::lexer::Lexer;
use wh02::position::Position;
use wh02::token::{Token, TokenType};

fn all_tokens(source: &str) -> Vec<Token> {
    let mut lexer = Lexer::new(source);
    let mut tokens = Vec::new();
    loop {
        let token = lexer.lex().expect("source should lex");
        let done = token.token_type == TokenType::EndOfFile;
        tokens.push(token);
        if done {
            return tokens;
        }
    }
}

fn at(line: u32, col: u32) -> Position {
    Position { line, col }
}

#[test]
fn lexes_every_kind_of_token() {
    let tokens = all_tokens("MOV #0a,@A ; note\nDEF .loop\nJMP $1f\n");
    let kinds: Vec<TokenType> = tokens.iter().map(|t| t.token_type).collect();
    assert_eq!(
        kinds,
        vec![
            TokenType::Operation,
            TokenType::Whitespace,
            TokenType::Hex,
            TokenType::Comma,
            TokenType::Location,
            TokenType::Whitespace,
            TokenType::Comment,
            TokenType::Newline,
            TokenType::Operation,
            TokenType::Whitespace,
            TokenType::Word,
            TokenType::Newline,
            TokenType::Operation,
            TokenType::Whitespace,
            TokenType::Address,
            TokenType::Newline,
            TokenType::EndOfFile,
        ]
    );
    let values: Vec<&str> = tokens.iter().map(|t| t.value.as_str()).collect();
    assert_eq!(
        values,
        vec![
            "MOV", " ", "#0A", ",", "@A", " ", "; note", "\n", "DEF", " ", ".loop", "\n", "JMP",
            " ", "$1F", "\n", ""
        ]
    );
}

#[test]
fn hex_digits_are_raised_to_upper_case() {
    let mut lexer = Lexer::new("#ab");
    let token = lexer.lex().unwrap();
    assert_eq!(token.token_type, TokenType::Hex);
    assert_eq!(token.value, "#AB");
}

#[test]
fn tokens_record_where_they_start() {
    let tokens = all_tokens("NOP\n  HLT");
    assert_eq!(tokens[0].start_position, at(0, 0));
    assert_eq!(tokens[1].start_position, at(0, 3));
    assert_eq!(tokens[2].start_position, at(1, 0));
    assert_eq!(tokens[3].start_position, at(1, 2));
    assert_eq!(tokens[3].value, "HLT");
    assert_eq!(tokens[4].token_type, TokenType::EndOfFile);
    assert_eq!(tokens[4].start_position, at(1, 5));
}

#[test]
fn three_hexits_are_rejected() {
    let mut lexer = Lexer::new("#123");
    let error = lexer.lex().unwrap_err();
    assert_eq!(error.message, "invalid hex value, expected two hexits");
    assert_eq!(error.position, at(0, 3));
}

#[test]
fn a_non_hex_digit_is_rejected() {
    let mut lexer = Lexer::new("#1G");
    let error = lexer.lex().unwrap_err();
    assert_eq!(error.message, "invalid hexit");
    assert_eq!(error.position, at(0, 2));
}

#[test]
fn an_address_takes_the_same_digit_rule() {
    let mut lexer = Lexer::new("$ABC");
    assert_eq!(lexer.lex().unwrap_err().message, "invalid hex value, expected two hexits");
    let mut lexer = Lexer::new("$x");
    assert_eq!(lexer.lex().unwrap_err().message, "invalid hexit");
}

#[test]
fn a_literal_stops_at_a_special_character() {
    let tokens = all_tokens("$7,#1;x");
    assert_eq!(tokens[0].value, "$7");
    assert_eq!(tokens[1].token_type, TokenType::Comma);
    assert_eq!(tokens[2].value, "#1");
    assert_eq!(tokens[3].token_type, TokenType::Comment);
    assert_eq!(tokens[3].value, ";x");
}

#[test]
fn an_unknown_character_is_rejected() {
    let mut lexer = Lexer::new("NOP %");
    assert_eq!(lexer.lex().unwrap().value, "NOP");
    assert_eq!(lexer.lex().unwrap().token_type, TokenType::Whitespace);
    let error = lexer.lex().unwrap_err();
    assert_eq!(error.message, "unknown character");
    assert_eq!(error.position, at(0, 4));
}

#[test]
fn a_digit_cannot_start_an_operation() {
    let mut lexer = Lexer::new("1NOP");
    assert_eq!(lexer.lex().unwrap_err().message, "unknown character");
}

#[test]
fn words_and_locations_run_over_letters_and_digits() {
    let tokens = all_tokens(".a1b2,@O1");
    assert_eq!(tokens[0].token_type, TokenType::Word);
    assert_eq!(tokens[0].value, ".a1b2");
    assert_eq!(tokens[2].token_type, TokenType::Location);
    assert_eq!(tokens[2].value, "@O1");
}

#[test]
fn newlines_come_in_runs() {
    let tokens = all_tokens("NOP\r\n\nHLT");
    assert_eq!(tokens[1].token_type, TokenType::Newline);
    assert_eq!(tokens[1].value, "\r\n\n");
    assert_eq!(tokens[2].start_position, at(3, 0));
}

#[test]
fn the_end_of_input_repeats() {
    let mut lexer = Lexer::new("");
    for _ in 0..3 {
        let token = lexer.lex().unwrap();
        assert_eq!(token.token_type, TokenType::EndOfFile);
        assert_eq!(token.value, "");
        assert_eq!(token.start_position, at(0, 0));
    }
}

#[test]
fn token_new_keeps_its_parts() {
    let token = Token::new("HLT".to_string(), TokenType::Operation, at(2, 4));
    assert_eq!(token.value, "HLT");
    assert_eq!(token.token_type, TokenType::Operation);
    assert_eq!(token.start_position, at(2, 4));
    assert_eq!(token.duplicate(), token);
}

#[test]
fn the_default_position_is_the_start() {
    assert_eq!(Position::default(), at(0, 0));
}
