//! An assembler for the WH-02, a small 8-bit CPU: source text is split into
//! tokens, grouped into checked instructions, and encoded into a memory image
//! that is written out as an addressed hex dump.
pub mod text;
pub mod position;
pub mod token;
pub mod lexer;
pub mod parser_error;
pub mod keyword;
pub mod operand;
pub mod expressions;
pub mod parser;
pub mod assembler;
