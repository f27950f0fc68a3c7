//! The operations of the assembly language.
use vstd::prelude::*;

use crate::parser_error::ParserError;
use crate::position::Position;
use crate::text::{owned, text_eq};

verus! {

/// The keywords that can start an instruction.
#[derive(Clone, Copy, Debug, PartialEq, Eq, Structural, Hash)]
pub enum Keyword {
    MOV,
    HLT,
    NOP,
    DEF,
    START,
    JMP,
}

/// The keyword that a piece of text names, if any.
pub open spec fn keyword_of(t: Seq<char>) -> Option<Keyword> {
    if t == seq!['M', 'O', 'V'] {
        Some(Keyword::MOV)
    } else if t == seq!['H', 'L', 'T'] {
        Some(Keyword::HLT)
    } else if t == seq!['N', 'O', 'P'] {
        Some(Keyword::NOP)
    } else if t == seq!['D', 'E', 'F'] {
        Some(Keyword::DEF)
    } else if t == seq!['S', 'T', 'A', 'R', 'T'] {
        Some(Keyword::START)
    } else if t == seq!['J', 'M', 'P'] {
        Some(Keyword::JMP)
    } else {
        None
    }
}

impl Keyword {
    /// The keyword named by `keyword`; any other text is an error at
    /// `position`.
    pub fn from_str(keyword: &str, position: Position) -> (r: Result<Keyword, ParserError>)
        ensures
            match keyword_of(keyword@) {
                Some(k) => r matches Ok(k2) && k2 == k,
                None => r matches Err(e) && e.position == position && e.message@
                    == "invalid keyword"@,
            },
    {
        proof {
            reveal_strlit("MOV");
            reveal_strlit("HLT");
            reveal_strlit("NOP");
            reveal_strlit("DEF");
            reveal_strlit("START");
            reveal_strlit("JMP");
            assert("MOV"@ =~= seq!['M', 'O', 'V']);
            assert("HLT"@ =~= seq!['H', 'L', 'T']);
            assert("NOP"@ =~= seq!['N', 'O', 'P']);
            assert("DEF"@ =~= seq!['D', 'E', 'F']);
            assert("START"@ =~= seq!['S', 'T', 'A', 'R', 'T']);
            assert("JMP"@ =~= seq!['J', 'M', 'P']);
        }
        if text_eq(keyword, "MOV") {
            Ok(Keyword::MOV)
        } else if text_eq(keyword, "HLT") {
            Ok(Keyword::HLT)
        } else if text_eq(keyword, "NOP") {
            Ok(Keyword::NOP)
        } else if text_eq(keyword, "DEF") {
            Ok(Keyword::DEF)
        } else if text_eq(keyword, "START") {
            Ok(Keyword::START)
        } else if text_eq(keyword, "JMP") {
            Ok(Keyword::JMP)
        } else {
            Err(ParserError { position, message: owned("invalid keyword") })
        }
    }
}

} // verus!
