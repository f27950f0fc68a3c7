//! The error reported for a line that does not parse.
use vstd::prelude::*;

use crate::position::Position;

verus! {

/// A parse error: where it was found and what is wrong.
#[derive(Debug, Clone, PartialEq, Eq)]
pub struct ParserError {
    pub position: Position,
    pub message: String,
}

/// A parse error as mathematical values.
pub struct ErrorModel {
    pub position: Position,
    pub message: Seq<char>,
}

impl View for ParserError {
    type V = ErrorModel;

    open spec fn view(&self) -> ErrorModel {
        ErrorModel { position: self.position, message: self.message@ }
    }
}

/// The errors of a list, as mathematical values.
pub open spec fn error_views(v: Seq<ParserError>) -> Seq<ErrorModel> {
    v.map_values(|e: ParserError| e@)
}

pub open spec fn error_at(position: Position, message: Seq<char>) -> ErrorModel {
    ErrorModel { position, message }
}

/// Adding an error adds its view.
pub proof fn lemma_error_views_push(v: Seq<ParserError>, e: ParserError)
    ensures
        error_views(v.push(e)) == error_views(v).push(e@),
{
    assert(error_views(v.push(e)) =~= error_views(v).push(e@));
}

} // verus!
