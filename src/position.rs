//! Places in the source text, as line and column.
use vstd::prelude::*;

use crate::text::is_newline_char;

verus! {

/// A line and a column, both counted from zero. Reading a newline character
/// moves to column zero of the next line; any other character moves one
/// column to the right.
#[derive(Clone, Copy, Debug, PartialEq, Eq, Structural)]
pub struct Position {
    pub line: u32,
    pub col: u32,
}

impl Default for Position {
    fn default() -> (r: Position)
        ensures
            r.line == 0,
            r.col == 0,
    {
        Position { line: 0, col: 0 }
    }
}

/// The position after reading `c` at position `p`.
pub open spec fn advance(p: Position, c: char) -> Position {
    if is_newline_char(c) {
        Position { line: (p.line + 1) as u32, col: 0 }
    } else {
        Position { line: p.line, col: (p.col + 1) as u32 }
    }
}

/// The position after reading all of `s`, in order, from position `p`.
pub open spec fn advance_over(p: Position, s: Seq<char>) -> Position
    decreases s.len(),
{
    if s.len() == 0 {
        p
    } else {
        advance(advance_over(p, s.drop_last()), s.last())
    }
}

/// Reading one more character extends the text read so far by that character.
pub proof fn lemma_advance_over_step(p: Position, s: Seq<char>, a: int, b: int)
    requires
        0 <= a <= b < s.len(),
    ensures
        advance_over(p, s.subrange(a, b + 1)) == advance(advance_over(p, s.subrange(a, b)), s[b]),
{
    assert(s.subrange(a, b + 1).drop_last() =~= s.subrange(a, b));
}

/// Reading `a` and then `b` ends where reading `a + b` ends.
pub proof fn lemma_advance_over_concat(p: Position, a: Seq<char>, b: Seq<char>)
    ensures
        advance_over(p, a + b) == advance_over(advance_over(p, a), b),
    decreases b.len(),
{
    if b.len() == 0 {
        assert(a + b =~= a);
    } else {
        assert((a + b).drop_last() =~= a + b.drop_last());
        lemma_advance_over_concat(p, a, b.drop_last());
    }
}

/// Reading `s[i..j]` is reading `s[i]` and then `s[i + 1..j]`.
pub proof fn lemma_advance_over_first(p: Position, s: Seq<char>, i: int, j: int)
    requires
        0 <= i < j <= s.len(),
    ensures
        advance_over(p, s.subrange(i, j)) == advance_over(advance(p, s[i]), s.subrange(i + 1, j)),
{
    lemma_advance_over_concat(p, s.subrange(i, i + 1), s.subrange(i + 1, j));
    assert(s.subrange(i, i + 1) + s.subrange(i + 1, j) =~= s.subrange(i, j));
    let t = s.subrange(i, i + 1);
    assert(t.drop_last() =~= Seq::<char>::empty());
    assert(advance_over(p, t.drop_last()) == p);
    assert(t.last() == s[i]);
}

} // verus!
