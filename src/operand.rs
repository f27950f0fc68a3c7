//! Operands: an indicator character followed by a value, and the registers
//! that a value can name.
use vstd::prelude::*;

use crate::parser_error::ParserError;
use crate::position::Position;
use crate::text::{owned, text_eq};

verus! {

/// The registers of the CPU. `ACC` can be read but not written.
#[derive(Clone, Copy, Debug, PartialEq, Eq, Structural)]
pub enum Register {
    A,
    B,
    C,
    O1,
    O2,
    ACC,
}

/// The register that a piece of text names, if any.
pub open spec fn register_of(t: Seq<char>) -> Option<Register> {
    if t == seq!['A'] {
        Some(Register::A)
    } else if t == seq!['B'] {
        Some(Register::B)
    } else if t == seq!['C'] {
        Some(Register::C)
    } else if t == seq!['O', '1'] {
        Some(Register::O1)
    } else if t == seq!['O', '2'] {
        Some(Register::O2)
    } else if t == seq!['A', 'C', 'C'] {
        Some(Register::ACC)
    } else {
        None
    }
}

/// The register that a location (`@` and a register name) names, if any.
pub open spec fn location_register(t: Seq<char>) -> Option<Register> {
    if t.len() > 0 && t[0] == '@' {
        register_of(t.drop_first())
    } else {
        None
    }
}

impl Register {
    /// The register named by `name`, if any.
    pub fn from_name(name: &str) -> (r: Option<Register>)
        ensures
            r == register_of(name@),
    {
        proof {
            reveal_strlit("A");
            reveal_strlit("B");
            reveal_strlit("C");
            reveal_strlit("O1");
            reveal_strlit("O2");
            reveal_strlit("ACC");
            assert("A"@ =~= seq!['A']);
            assert("B"@ =~= seq!['B']);
            assert("C"@ =~= seq!['C']);
            assert("O1"@ =~= seq!['O', '1']);
            assert("O2"@ =~= seq!['O', '2']);
            assert("ACC"@ =~= seq!['A', 'C', 'C']);
        }
        if text_eq(name, "A") {
            Some(Register::A)
        } else if text_eq(name, "B") {
            Some(Register::B)
        } else if text_eq(name, "C") {
            Some(Register::C)
        } else if text_eq(name, "O1") {
            Some(Register::O1)
        } else if text_eq(name, "O2") {
            Some(Register::O2)
        } else if text_eq(name, "ACC") {
            Some(Register::ACC)
        } else {
            None
        }
    }

    /// The register named by a location such as `@O1`, if any.
    pub fn from_location(t: &str) -> (r: Option<Register>)
        ensures
            r == location_register(t@),
    {
        let n = t.unicode_len();
        if n == 0 || t.get_char(0) != '@' {
            return None;
        }
        let rest = t.substring_char(1, n);
        assert(rest@ =~= t@.drop_first());
        Register::from_name(rest)
    }
}

/// An operand: its indicator (`#` immediate, `$` address, `@` register,
/// `.` label) and the text after it.
#[derive(Debug, Clone, PartialEq, Eq)]
pub struct Operand {
    pub indicator: char,
    pub value: String,
}

/// An operand as an indicator and the characters of its value.
pub struct OperandModel {
    pub indicator: char,
    pub value: Seq<char>,
}

/// The operand written as `t`: its first character and the rest.
pub open spec fn split_operand(t: Seq<char>) -> OperandModel {
    OperandModel { indicator: t[0], value: t.drop_first() }
}

impl View for Operand {
    type V = OperandModel;

    open spec fn view(&self) -> OperandModel {
        OperandModel { indicator: self.indicator, value: self.value@ }
    }
}

impl Operand {
    /// The first character of `operand`; empty text is an error at `position`.
    pub fn get_indicator(operand: &str, position: Position) -> (r: Result<char, ParserError>)
        ensures
            operand@.len() > 0 ==> (r matches Ok(c) && c == operand@[0]),
            operand@.len() == 0 ==> (r matches Err(e) && e.position == position && e.message@
                == "empty operand"@),
    {
        if operand.unicode_len() == 0 {
            Err(ParserError { position, message: owned("empty operand") })
        } else {
            Ok(operand.get_char(0))
        }
    }

    /// The operand written as `keyword`, split into indicator and value.
    pub fn from_str(keyword: &str, position: Position) -> (r: Result<Operand, ParserError>)
        ensures
            keyword@.len() > 0 ==> (r matches Ok(o) && o@ == split_operand(keyword@)),
            keyword@.len() == 0 ==> (r matches Err(e) && e.position == position && e.message@
                == "empty operand"@),
    {
        let indicator = Self::get_indicator(keyword, position)?;
        let n = keyword.unicode_len();
        let value = owned(keyword.substring_char(1, n));
        assert(value@ =~= keyword@.drop_first());
        Ok(Operand { indicator, value })
    }

    /// An operand with the same indicator and value.
    pub fn duplicate(&self) -> (r: Operand)
        ensures
            r@ == self@,
    {
        Operand { indicator: self.indicator, value: owned(self.value.as_str()) }
    }
}

} // verus!
