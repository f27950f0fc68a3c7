//! Instructions, in the three shapes that a line can have.
use vstd::prelude::*;

use crate::keyword::Keyword;
use crate::operand::{Operand, OperandModel};
use crate::parser_error::ParserError;
use crate::position::Position;
use crate::text::owned;

verus! {

/// An instruction: a keyword with no, one or two operands.
#[derive(Debug, Clone, PartialEq, Eq)]
pub enum Expressions {
    NoOperandExpression { keyword: Keyword },
    UnaryExpression { keyword: Keyword, operand: Operand },
    BinaryExpression { keyword: Keyword, operand1: Operand, comma: String, operand2: Operand },
}

/// An instruction as mathematical values.
pub enum Instr {
    NoOperand { keyword: Keyword },
    Unary { keyword: Keyword, operand: OperandModel },
    Binary { keyword: Keyword, operand1: OperandModel, operand2: OperandModel },
}

impl View for Expressions {
    type V = Instr;

    open spec fn view(&self) -> Instr {
        match self {
            Expressions::NoOperandExpression { keyword } => Instr::NoOperand { keyword: *keyword },
            Expressions::UnaryExpression { keyword, operand } => Instr::Unary {
                keyword: *keyword,
                operand: operand@,
            },
            Expressions::BinaryExpression { keyword, operand1, operand2, .. } => Instr::Binary {
                keyword: *keyword,
                operand1: operand1@,
                operand2: operand2@,
            },
        }
    }
}

/// The instructions of a list, as mathematical values.
pub open spec fn instrs(v: Seq<Expressions>) -> Seq<Instr> {
    v.map_values(|e: Expressions| e@)
}

pub open spec fn is_no_operand_keyword(k: Keyword) -> bool {
    k == Keyword::HLT || k == Keyword::NOP
}

pub open spec fn is_unary_keyword(k: Keyword) -> bool {
    k == Keyword::DEF || k == Keyword::START || k == Keyword::JMP
}

pub open spec fn is_binary_keyword(k: Keyword) -> bool {
    k == Keyword::MOV
}

fn shape_error() -> (r: ParserError)
    ensures
        r.position == (Position { line: 0, col: 0 }),
        r.message@ == "keyword does not fit the expression"@,
{
    ParserError {
        position: Position { line: 0, col: 0 },
        message: owned("keyword does not fit the expression"),
    }
}

impl Expressions {
    /// Accepts the keywords that take no operand.
    pub fn validate_no_operand_keyword(keyword: Keyword) -> (r: Result<(), ParserError>)
        ensures
            r is Ok <==> is_no_operand_keyword(keyword),
            r matches Err(e) ==> e.message@ == "keyword does not fit the expression"@,
    {
        match keyword {
            Keyword::HLT => Ok(()),
            Keyword::NOP => Ok(()),
            _ => Err(shape_error()),
        }
    }

    /// Accepts the keywords that take one operand.
    pub fn validate_unary_keyword(keyword: Keyword) -> (r: Result<(), ParserError>)
        ensures
            r is Ok <==> is_unary_keyword(keyword),
            r matches Err(e) ==> e.message@ == "keyword does not fit the expression"@,
    {
        match keyword {
            Keyword::DEF => Ok(()),
            Keyword::START => Ok(()),
            Keyword::JMP => Ok(()),
            _ => Err(shape_error()),
        }
    }

    /// Accepts the keywords that take two operands.
    pub fn validate_binary_keyword(keyword: Keyword) -> (r: Result<(), ParserError>)
        ensures
            r is Ok <==> is_binary_keyword(keyword),
            r matches Err(e) ==> e.message@ == "keyword does not fit the expression"@,
    {
        match keyword {
            Keyword::MOV => Ok(()),
            _ => Err(shape_error()),
        }
    }

    /// An instruction with the same keyword and operands.
    pub fn duplicate(&self) -> (r: Expressions)
        ensures
            r@ == self@,
    {
        match self {
            Expressions::NoOperandExpression { keyword } => Expressions::NoOperandExpression {
                keyword: *keyword,
            },
            Expressions::UnaryExpression { keyword, operand } => Expressions::UnaryExpression {
                keyword: *keyword,
                operand: operand.duplicate(),
            },
            Expressions::BinaryExpression { keyword, operand1, comma, operand2 } => {
                Expressions::BinaryExpression {
                    keyword: *keyword,
                    operand1: operand1.duplicate(),
                    comma: owned(comma.as_str()),
                    operand2: operand2.duplicate(),
                }
            },
        }
    }
}

} // verus!
