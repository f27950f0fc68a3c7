//! The tokenizer: turns source characters into tokens, one per call.
use vstd::prelude::*;

use crate::position::{
    advance, advance_over, lemma_advance_over_first, lemma_advance_over_step, Position,
};
use crate::text::{
    alphabetic, alphanumeric, chars_of, is_alphabetic, is_alphanumeric, is_ascii_whitespace,
    is_ascii_ws, is_hex_digit, is_hexit, is_newline_char, owned, push_char, to_upper_hexit,
    upper_hexit,
};
use crate::token::{Token, TokenModel, TokenType};

verus! {

/// An error found while reading tokens, with the position of the offending
/// character.
#[derive(Debug, Clone, PartialEq, Eq)]
pub struct LexerError {
    pub message: String,
    pub position: Position,
}

/// A message tied to a place in the source.
#[derive(Debug, Clone, PartialEq, Eq)]
pub struct Error {
    pub message: String,
    pub position: Position,
}

/// The ways in which a token can be malformed.
#[derive(Clone, Copy, Debug, PartialEq, Eq, Structural)]
pub enum LexFault {
    UnknownCharacter,
    InvalidHexit,
    HexTooLong,
}

/// The message of each lexical error.
pub open spec fn fault_message(f: LexFault) -> Seq<char> {
    match f {
        LexFault::UnknownCharacter => "unknown character"@,
        LexFault::InvalidHexit => "invalid hexit"@,
        LexFault::HexTooLong => "invalid hex value, expected two hexits"@,
    }
}

fn fault_text(f: LexFault) -> (r: String)
    ensures
        r@ == fault_message(f),
{
    match f {
        LexFault::UnknownCharacter => owned("unknown character"),
        LexFault::InvalidHexit => owned("invalid hexit"),
        LexFault::HexTooLong => owned("invalid hex value, expected two hexits"),
    }
}

/// Characters that end a hexadecimal literal.
pub open spec fn is_special(c: char) -> bool {
    c == '#' || c == '$' || c == '@' || c == ',' || c == ';' || c == '.' || is_ascii_ws(c)
}

/// The classes of character that a token can be made of after its first one.
#[derive(Clone, Copy, Debug, PartialEq, Eq, Structural)]
pub enum CharClass {
    Alnum,
    NotNewline,
    Newline,
    Whitespace,
    Hexit,
}

pub open spec fn in_class(class: CharClass, c: char) -> bool {
    match class {
        CharClass::Alnum => alphanumeric(c),
        CharClass::NotNewline => !is_newline_char(c),
        CharClass::Newline => is_newline_char(c),
        CharClass::Whitespace => is_ascii_ws(c),
        CharClass::Hexit => is_hexit(c),
    }
}

/// Where the run of characters of `class` that starts at `i` ends.
pub open spec fn run_end(s: Seq<char>, i: int, class: CharClass) -> int
    decreases s.len() - i,
{
    if 0 <= i < s.len() && in_class(class, s[i]) {
        run_end(s, i + 1, class)
    } else {
        i
    }
}

/// One step of the tokenizer on the characters `s` from index `i`: a token of
/// kind `kind` and text `text` that ends at `end`, or a fault at index `at`.
pub enum LexStep {
    Token { kind: TokenType, text: Seq<char>, end: int },
    Fault { fault: LexFault, at: int },
}

/// Where the digits of a hexadecimal literal that start at `j` stop: at the
/// first character that is not a hexit, and after two hexits at most.
pub open spec fn hex_stop(s: Seq<char>, j: int) -> int {
    let run = run_end(s, j, CharClass::Hexit);
    if run < j + 2 {
        run
    } else {
        j + 2
    }
}

/// A hexadecimal literal (`#` or `$` at `i`): at most two hexits, raised to
/// upper case, up to the next special character or the end of the input.
pub open spec fn hex_step(s: Seq<char>, i: int, kind: TokenType) -> LexStep {
    let k = hex_stop(s, i + 1);
    if k < s.len() && !is_special(s[k]) {
        if !is_hexit(s[k]) {
            LexStep::Fault { fault: LexFault::InvalidHexit, at: k }
        } else {
            LexStep::Fault { fault: LexFault::HexTooLong, at: k }
        }
    } else {
        LexStep::Token {
            kind,
            text: seq![s[i]] + upper_text(s.subrange(i + 1, k)),
            end: k,
        }
    }
}

/// Text with its lower-case hexits raised to upper case.
pub open spec fn upper_text(t: Seq<char>) -> Seq<char> {
    t.map_values(|c: char| upper_hexit(c))
}

/// A token made of the character at `i` and the run of `class` after it.
pub open spec fn run_step(s: Seq<char>, i: int, kind: TokenType, class: CharClass) -> LexStep {
    let end = run_end(s, i + 1, class);
    LexStep::Token { kind, text: s.subrange(i, end), end }
}

/// The token that starts at index `i` of `s`, chosen by its first character.
pub open spec fn lex_step(s: Seq<char>, i: int) -> LexStep {
    if i >= s.len() {
        LexStep::Token { kind: TokenType::EndOfFile, text: Seq::empty(), end: i }
    } else {
        let c = s[i];
        if c == '.' {
            run_step(s, i, TokenType::Word, CharClass::Alnum)
        } else if c == ',' {
            LexStep::Token { kind: TokenType::Comma, text: seq![c], end: i + 1 }
        } else if c == ';' {
            run_step(s, i, TokenType::Comment, CharClass::NotNewline)
        } else if c == '#' {
            hex_step(s, i, TokenType::Hex)
        } else if c == '$' {
            hex_step(s, i, TokenType::Address)
        } else if c == '@' {
            run_step(s, i, TokenType::Location, CharClass::Alnum)
        } else if alphabetic(c) {
            run_step(s, i, TokenType::Operation, CharClass::Alnum)
        } else if is_newline_char(c) {
            run_step(s, i, TokenType::Newline, CharClass::Newline)
        } else if is_ascii_ws(c) {
            run_step(s, i, TokenType::Whitespace, CharClass::Whitespace)
        } else {
            LexStep::Fault { fault: LexFault::UnknownCharacter, at: i }
        }
    }
}

/// A position in the source that reading the rest of the input cannot
/// overflow.
pub open spec fn position_fits(p: Position, remaining: int) -> bool {
    p.line + p.col + remaining <= u32::MAX
}

/// Reads the source one token at a time.
#[derive(Debug)]
pub struct Lexer {
    pub position: Position,
    pub characters: Vec<char>,
    pub cursor: usize,
}

fn is_newline(c: char) -> (r: bool)
    ensures
        r == is_newline_char(c),
{
    c == '\n' || c == '\r'
}

fn is_special_char(c: char) -> (r: bool)
    ensures
        r == is_special(c),
{
    c == '#' || c == '$' || c == '@' || c == ',' || c == ';' || c == '.' || is_ascii_whitespace(c)
}

fn class_holds(class: CharClass, c: char) -> (r: bool)
    ensures
        r == in_class(class, c),
{
    match class {
        CharClass::Alnum => is_alphanumeric(c),
        CharClass::NotNewline => !is_newline(c),
        CharClass::Newline => is_newline(c),
        CharClass::Whitespace => is_ascii_whitespace(c),
        CharClass::Hexit => is_hex_digit(c),
    }
}

/// A run ends at or after its start, and within the text.
pub proof fn lemma_run_end_bounds(s: Seq<char>, i: int, class: CharClass)
    requires
        0 <= i <= s.len(),
    ensures
        i <= run_end(s, i, class) <= s.len(),
    decreases s.len() - i,
{
    if i < s.len() && in_class(class, s[i]) {
        lemma_run_end_bounds(s, i + 1, class);
    }
}

impl Lexer {
    /// The characters not read yet are few enough for the position to count.
    pub open spec fn wf(&self) -> bool {
        &&& self.cursor <= self.characters@.len()
        &&& position_fits(self.position, self.characters@.len() - self.cursor)
    }

    /// A lexer at the start of `source`.
    pub fn new(source: &str) -> (r: Lexer)
        requires
            source@.len() <= u32::MAX,
        ensures
            r.wf(),
            r.characters@ == source@,
            r.cursor == 0,
            r.position == (Position { line: 0, col: 0 }),
    {
        Lexer { position: Position { line: 0, col: 0 }, characters: chars_of(source), cursor: 0 }
    }

    fn peek(&self) -> (r: Option<char>)
        requires
            self.wf(),
        ensures
            self.cursor < self.characters@.len() ==> r == Some(self.characters@[self.cursor as int]),
            self.cursor == self.characters@.len() ==> r is None,
    {
        if self.cursor < self.characters.len() {
            Some(self.characters[self.cursor])
        } else {
            None
        }
    }

    fn next_char(&mut self) -> (r: Option<char>)
        requires
            old(self).wf(),
        ensures
            final(self).wf(),
            final(self).characters@ == old(self).characters@,
            old(self).cursor < old(self).characters@.len() ==> {
                &&& r == Some(old(self).characters@[old(self).cursor as int])
                &&& final(self).cursor == old(self).cursor + 1
                &&& final(self).position == advance(old(self).position, r->0)
            },
            old(self).cursor == old(self).characters@.len() ==> r is None && *final(self)
                == *old(self),
    {
        if self.cursor < self.characters.len() {
            let c = self.characters[self.cursor];
            self.cursor = self.cursor + 1;
            if is_newline(c) {
                self.position = Position { line: self.position.line + 1, col: 0 };
            } else {
                self.position = Position { line: self.position.line, col: self.position.col + 1 };
            }
            Some(c)
        } else {
            None
        }
    }

    /// Reads the run of characters of `class` that starts at the cursor,
    /// appending them to `val`.
    fn parse_run(&mut self, val: &mut String, class: CharClass)
        requires
            old(self).wf(),
        ensures
            final(self).wf(),
            final(self).characters@ == old(self).characters@,
            old(self).cursor <= final(self).cursor,
            final(self).cursor == run_end(old(self).characters@, old(self).cursor as int, class),
            final(val)@ == old(val)@ + old(self).characters@.subrange(
                old(self).cursor as int,
                final(self).cursor as int,
            ),
            final(self).position == advance_over(
                old(self).position,
                old(self).characters@.subrange(old(self).cursor as int, final(self).cursor as int),
            ),
    {
        let ghost s = self.characters@;
        let ghost c0 = self.cursor as int;
        let ghost pos0 = self.position;
        let ghost v0 = val@;
        assert(s.subrange(c0, c0) =~= Seq::<char>::empty());
        loop
            invariant
                self.wf(),
                self.characters@ == s,
                0 <= c0 <= self.cursor <= s.len(),
                run_end(s, self.cursor as int, class) == run_end(s, c0, class),
                val@ == v0 + s.subrange(c0, self.cursor as int),
                self.position == advance_over(pos0, s.subrange(c0, self.cursor as int)),
            ensures
                self.wf(),
                self.characters@ == s,
                self.cursor == run_end(s, c0, class),
                val@ == v0 + s.subrange(c0, self.cursor as int),
                self.position == advance_over(pos0, s.subrange(c0, self.cursor as int)),
            decreases s.len() - self.cursor,
        {
            let ghost k = self.cursor as int;
            let next = self.peek();
            match next {
                Some(c) => {
                    if !class_holds(class, c) {
                        break ;
                    }
                },
                None => {
                    break ;
                },
            }
            let c = self.next_char();
            proof {
                lemma_advance_over_step(pos0, s, c0, k);
                assert(s.subrange(c0, k + 1) =~= s.subrange(c0, k).push(s[k]));
            }
            push_char(val, c.unwrap());
        }
    }

    /// Reads the hexits of a literal whose `#` or `$` has just been read.
    fn parse_hex(&mut self, val: &mut String) -> (r: Result<(), LexerError>)
        requires
            old(self).wf(),
            old(self).cursor >= 1,
        ensures
            final(self).wf(),
            final(self).characters@ == old(self).characters@,
            old(self).cursor <= final(self).cursor,
            ({
                let s = old(self).characters@;
                let j = old(self).cursor as int;
                let k = hex_stop(s, j);
                if k < s.len() && !is_special(s[k]) {
                    &&& r matches Err(e)
                    &&& e.message@ == fault_message(
                        if !is_hexit(s[k]) {
                            LexFault::InvalidHexit
                        } else {
                            LexFault::HexTooLong
                        },
                    )
                    &&& e.position == advance_over(old(self).position, s.subrange(j, k))
                } else {
                    &&& r is Ok
                    &&& final(self).cursor == k
                    &&& final(val)@ == old(val)@ + upper_text(s.subrange(j, k))
                    &&& final(self).position == advance_over(old(self).position, s.subrange(j, k))
                }
            }),
    {
        let ghost s = self.characters@;
        let ghost c0 = self.cursor as int;
        let ghost pos0 = self.position;
        let ghost v0 = val@;
        let mut len: usize = 0;
        assert(s.subrange(c0, c0) =~= Seq::<char>::empty());
        assert(upper_text(s.subrange(c0, c0)) =~= Seq::<char>::empty());
        proof {
            lemma_run_end_bounds(s, c0, CharClass::Hexit);
        }
        loop
            invariant
                self.wf(),
                self.characters@ == s,
                self.cursor == c0 + len,
                len <= 2,
                self.cursor <= run_end(s, c0, CharClass::Hexit) <= s.len(),
                run_end(s, self.cursor as int, CharClass::Hexit) == run_end(s, c0, CharClass::Hexit),
                val@ == v0 + upper_text(s.subrange(c0, self.cursor as int)),
                self.position == advance_over(pos0, s.subrange(c0, self.cursor as int)),
            ensures
                self.wf(),
                self.characters@ == s,
                self.cursor == hex_stop(s, c0),
                val@ == v0 + upper_text(s.subrange(c0, self.cursor as int)),
                self.position == advance_over(pos0, s.subrange(c0, self.cursor as int)),
            decreases 3 - len,
        {
            let ghost k = self.cursor as int;
            let next = self.peek();
            match next {
                Some(c) => {
                    if is_special_char(c) {
                        break ;
                    }
                    if !is_hex_digit(c) || len == 2 {
                        break ;
                    }
                },
                None => {
                    break ;
                },
            }
            let c = self.next_char();
            proof {
                lemma_advance_over_step(pos0, s, c0, k);
                lemma_run_end_bounds(s, k + 1, CharClass::Hexit);
                assert(upper_text(s.subrange(c0, k + 1)) =~= upper_text(s.subrange(c0, k)).push(
                    upper_hexit(s[k]),
                ));
            }
            push_char(val, to_upper_hexit(c.unwrap()));
            len = len + 1;
        }
        let start = self.position;
        match self.peek() {
            Some(c) => {
                if !is_special_char(c) {
                    if !is_hex_digit(c) {
                        let message = fault_text(LexFault::InvalidHexit);
                        return Err(LexerError { message, position: start });
                    } else {
                        let message = fault_text(LexFault::HexTooLong);
                        return Err(LexerError { message, position: start });
                    }
                }
            },
            None => {},
        }
        Ok(())
    }

    /// Reads the next token, or reports why the characters at the cursor do
    /// not make one. At the end of the input the token is `EndOfFile`, with
    /// empty text, and the lexer does not move.
    pub fn lex(&mut self) -> (r: Result<Token, LexerError>)
        requires
            old(self).wf(),
        ensures
            final(self).wf(),
            final(self).characters@ == old(self).characters@,
            old(self).cursor <= final(self).cursor,
            ({
                let s = old(self).characters@;
                let i = old(self).cursor as int;
                match lex_step(s, i) {
                    LexStep::Token { kind, text, end } => {
                        &&& r matches Ok(t)
                        &&& t@ == (TokenModel { kind, text, start: old(self).position })
                        &&& final(self).cursor == end
                        &&& final(self).position == advance_over(
                            old(self).position,
                            s.subrange(i, end),
                        )
                    },
                    LexStep::Fault { fault, at } => {
                        &&& r matches Err(e)
                        &&& e.message@ == fault_message(fault)
                        &&& e.position == advance_over(old(self).position, s.subrange(i, at))
                    },
                }
            }),
    {
        let ghost s = self.characters@;
        let ghost i = self.cursor as int;
        let ghost pos0 = self.position;
        let mut val = String::new();
        let start_position = self.position;
        let token_type;
        match self.next_char() {
            Some(c) => {
                proof {
                    assert(s.subrange(i, i) =~= Seq::<char>::empty());
                    lemma_advance_over_step(pos0, s, i, i);
                    assert(s.subrange(i, i + 1) =~= seq![c]);
                }
                push_char(&mut val, c);
                assert(val@ =~= seq![c]);
                if c == '.' {
                    token_type = TokenType::Word;
                    self.parse_run(&mut val, CharClass::Alnum);
                } else if c == ',' {
                    token_type = TokenType::Comma;
                } else if c == ';' {
                    token_type = TokenType::Comment;
                    self.parse_run(&mut val, CharClass::NotNewline);
                } else if c == '#' || c == '$' {
                    token_type = if c == '#' {
                        TokenType::Hex
                    } else {
                        TokenType::Address
                    };
                    let res = self.parse_hex(&mut val);
                    if let Err(e) = res {
                        proof {
                            lemma_run_end_bounds(s, i + 1, CharClass::Hexit);
                            let k = hex_stop(s, i + 1);
                            lemma_advance_over_first(pos0, s, i, k);
                        }
                        return Err(e);
                    }
                } else if c == '@' {
                    token_type = TokenType::Location;
                    self.parse_run(&mut val, CharClass::Alnum);
                } else if is_alphabetic(c) {
                    token_type = TokenType::Operation;
                    self.parse_run(&mut val, CharClass::Alnum);
                } else if is_newline(c) {
                    token_type = TokenType::Newline;
                    self.parse_run(&mut val, CharClass::Newline);
                } else if is_ascii_whitespace(c) {
                    token_type = TokenType::Whitespace;
                    self.parse_run(&mut val, CharClass::Whitespace);
                } else {
                    let message = fault_text(LexFault::UnknownCharacter);
                    return Err(LexerError { message, position: start_position });
                }
                proof {
                    let end = self.cursor as int;
                    lemma_advance_over_first(pos0, s, i, end);
                    assert(seq![c] + s.subrange(i + 1, end) =~= s.subrange(i, end));
                }
            },
            None => {
                token_type = TokenType::EndOfFile;
                assert(s.subrange(i, i) =~= Seq::<char>::empty());
            },
        }
        Ok(Token::new(val, token_type, start_position))
    }
}

} // verus!
