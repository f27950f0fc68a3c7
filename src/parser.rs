//! The line parser: groups tokens into lines, checks each line against the
//! three instruction shapes, and collects instructions and errors.
use vstd::prelude::*;

use crate::expressions::{
    instrs, is_binary_keyword, is_no_operand_keyword, is_unary_keyword, Expressions, Instr,
};
use crate::keyword::{keyword_of, Keyword};
use crate::lexer::{
    fault_message, hex_stop, lemma_run_end_bounds, lex_step, CharClass, LexStep, Lexer,
};
use crate::operand::{location_register, split_operand, Operand, Register};
use crate::parser_error::{error_at, error_views, lemma_error_views_push, ErrorModel, ParserError};
use crate::position::{advance_over, Position};
use crate::text::owned;
use crate::token::{Token, TokenModel, TokenType};

verus! {

/// The tokens of a list, as mathematical values.
pub open spec fn views(ts: Seq<Token>) -> Seq<TokenModel> {
    ts.map_values(|t: Token| t@)
}

/// Tokens that carry no meaning: blanks, comments and the end of the input.
pub open spec fn is_trivia(k: TokenType) -> bool {
    k == TokenType::Whitespace || k == TokenType::Comment || k == TokenType::EndOfFile
}

/// The tokens of a line that are not trivia, in order.
pub open spec fn significant(ts: Seq<TokenModel>) -> Seq<TokenModel>
    decreases ts.len(),
{
    if ts.len() == 0 {
        Seq::empty()
    } else if is_trivia(ts.last().kind) {
        significant(ts.drop_last())
    } else {
        significant(ts.drop_last()).push(ts.last())
    }
}

pub open spec fn ends_line(k: TokenType) -> bool {
    k == TokenType::Newline || k == TokenType::EndOfFile
}

/// The tokens of one line, up to and including the newline or the end of the
/// input, with the index and position after them; or the first lexical error.
pub enum LineScan {
    Line { tokens: Seq<TokenModel>, end: int, position: Position },
    Failed { message: Seq<char>, position: Position },
}

/// The line that starts at index `i` of `s`, at position `p`.
pub open spec fn scan_line(s: Seq<char>, i: int, p: Position) -> LineScan
    decreases s.len() - i,
{
    match lex_step(s, i) {
        LexStep::Fault { fault, at } => LineScan::Failed {
            message: fault_message(fault),
            position: advance_over(p, s.subrange(i, at)),
        },
        LexStep::Token { kind, text, end } => {
            let t = TokenModel { kind, text, start: p };
            let q = advance_over(p, s.subrange(i, end));
            if ends_line(kind) || !(i < end <= s.len()) {
                LineScan::Line { tokens: seq![t], end, position: q }
            } else {
                prepend(seq![t], scan_line(s, end, q))
            }
        },
    }
}

/// A line scan with `ts` in front of its tokens.
pub open spec fn prepend(ts: Seq<TokenModel>, sc: LineScan) -> LineScan {
    match sc {
        LineScan::Line { tokens, end, position } => LineScan::Line { tokens: ts + tokens, end, position },
        LineScan::Failed { message, position } => LineScan::Failed { message, position },
    }
}

/// The operand kinds that a one-operand keyword takes.
pub open spec fn unary_kinds(k: Keyword) -> Seq<TokenType> {
    match k {
        Keyword::DEF => seq![TokenType::Word],
        Keyword::START => seq![TokenType::Address],
        Keyword::JMP => seq![TokenType::Address, TokenType::Word],
        _ => Seq::empty(),
    }
}

/// The kinds that the source of a move can have.
pub open spec fn source_kinds() -> Seq<TokenType> {
    seq![TokenType::Hex, TokenType::Address, TokenType::Location]
}

/// The kinds that the destination of a move can have.
pub open spec fn destination_kinds() -> Seq<TokenType> {
    seq![TokenType::Hex, TokenType::Address, TokenType::Location, TokenType::Word]
}

/// The kinds allowed at each place of a line of `n` significant tokens that
/// starts with keyword `k`.
pub open spec fn shape_kinds(k: Keyword, n: int) -> Seq<Seq<TokenType>> {
    if n <= 2 {
        seq![seq![TokenType::Operation], seq![TokenType::Newline]]
    } else if n == 3 {
        seq![seq![TokenType::Operation], unary_kinds(k), seq![TokenType::Newline]]
    } else {
        seq![
            seq![TokenType::Operation],
            source_kinds(),
            seq![TokenType::Comma],
            destination_kinds(),
            seq![TokenType::Newline],
        ]
    }
}

/// Each token has one of the kinds allowed at its place.
pub open spec fn kinds_fit(ft: Seq<TokenModel>, kinds: Seq<Seq<TokenType>>) -> bool {
    forall|i: int| 0 <= i < ft.len() ==> #[trigger] kinds[i].contains(ft[i].kind)
}

/// The keyword takes as many operands as a line of `n` significant tokens has.
pub open spec fn keyword_fits(k: Keyword, n: int) -> bool {
    if n <= 2 {
        is_no_operand_keyword(k)
    } else if n == 3 {
        is_unary_keyword(k)
    } else {
        is_binary_keyword(k)
    }
}

/// Every location token names a register.
pub open spec fn locations_valid(ft: Seq<TokenModel>) -> bool {
    forall|i: int|
        0 <= i < ft.len() && (#[trigger] ft[i]).kind == TokenType::Location ==> location_register(
            ft[i].text,
        ) is Some
}

pub open spec fn is_address_text(t: Seq<char>) -> bool {
    t.len() > 0 && t[0] == '$'
}

/// A location of a register that can be written.
pub open spec fn writable_location(t: Seq<char>) -> bool {
    location_register(t) matches Some(r) && r != Register::ACC
}

/// The destination of a move is an address, or a writable register other
/// than the source.
pub open spec fn destination_ok(src: Seq<char>, dst: Seq<char>) -> bool {
    is_address_text(dst) || (writable_location(dst) && src != dst)
}

/// The line has one of the three shapes, with a keyword, token kinds and
/// operands that fit it (locations aside).
pub open spec fn shape_ok(ft: Seq<TokenModel>) -> bool {
    &&& ft.len() == 1 || ft.len() == 2 || ft.len() == 3 || ft.len() == 5
    &&& keyword_of(ft[0].text) matches Some(k) && keyword_fits(k, ft.len() as int) && kinds_fit(
        ft,
        shape_kinds(k, ft.len() as int),
    )
    &&& ft.len() == 3 ==> ft[1].text.len() > 0
    &&& ft.len() == 5 ==> ft[1].text.len() > 0 && ft[3].text.len() > 0 && destination_ok(
        ft[1].text,
        ft[3].text,
    )
}

/// A line with valid locations and a valid shape.
pub open spec fn line_ok(ft: Seq<TokenModel>) -> bool {
    locations_valid(ft) && shape_ok(ft)
}

/// The instruction that a valid line of significant tokens makes.
pub open spec fn line_instr(ft: Seq<TokenModel>) -> Instr {
    let k = keyword_of(ft[0].text).unwrap();
    if ft.len() <= 2 {
        Instr::NoOperand { keyword: k }
    } else if ft.len() == 3 {
        Instr::Unary { keyword: k, operand: split_operand(ft[1].text) }
    } else {
        Instr::Binary {
            keyword: k,
            operand1: split_operand(ft[1].text),
            operand2: split_operand(ft[3].text),
        }
    }
}

/// A `START` line, which must come before every other instruction.
pub open spec fn starts_program(ft: Seq<TokenModel>) -> bool {
    ft.len() == 3 && keyword_of(ft[0].text) == Some(Keyword::START)
}

/// What becomes of one line.
pub enum LineOutcome {
    Blank,
    Accepted(Instr),
    Rejected,
    Misplaced,
}

/// A line with nothing in it but, perhaps, its newline.
pub open spec fn is_blank(ft: Seq<TokenModel>) -> bool {
    ft.len() == 0 || (ft.len() == 1 && ft[0].kind == TokenType::Newline)
}

/// What becomes of a line of significant tokens `ft`, where `has_prior` says
/// whether an instruction came before it.
pub open spec fn line_outcome(ft: Seq<TokenModel>, has_prior: bool) -> LineOutcome {
    if is_blank(ft) {
        LineOutcome::Blank
    } else if has_prior && starts_program(ft) {
        LineOutcome::Misplaced
    } else if line_ok(ft) {
        LineOutcome::Accepted(line_instr(ft))
    } else {
        LineOutcome::Rejected
    }
}

/// The errors for tokens whose kind is not allowed at their place.
pub open spec fn type_errors(ft: Seq<TokenModel>, kinds: Seq<Seq<TokenType>>) -> Seq<ErrorModel>
    decreases ft.len(),
{
    if ft.len() == 0 {
        Seq::empty()
    } else {
        let i = ft.len() - 1;
        type_errors(ft.drop_last(), kinds) + if kinds[i].contains(ft[i].kind) {
            Seq::empty()
        } else {
            seq![error_at(ft[i].start, "invalid token type"@)]
        }
    }
}

/// The errors for location tokens that name no register.
pub open spec fn location_errors(ft: Seq<TokenModel>) -> Seq<ErrorModel>
    decreases ft.len(),
{
    if ft.len() == 0 {
        Seq::empty()
    } else {
        location_errors(ft.drop_last()) + if ft.last().kind == TokenType::Location
            && location_register(ft.last().text) is None {
            seq![error_at(ft.last().start, "invalid location"@)]
        } else {
            Seq::empty()
        }
    }
}

/// The error for the destination `dst` of a move from `src`, if any.
pub open spec fn destination_errors(
    k: Keyword,
    src: Seq<char>,
    dst: Seq<char>,
    at: Position,
) -> Seq<ErrorModel> {
    if k != Keyword::MOV || is_address_text(dst) {
        Seq::empty()
    } else if !writable_location(dst) {
        seq![error_at(at, "invalid destination"@)]
    } else if src == dst {
        seq![error_at(at, "destination is the same as the source"@)]
    } else {
        Seq::empty()
    }
}

/// The errors of a line's shape, keyword, token kinds and operands, in the
/// order they are found.
pub open spec fn shape_errors(ft: Seq<TokenModel>) -> Seq<ErrorModel> {
    let n = ft.len() as int;
    if !(n == 1 || n == 2 || n == 3 || n == 5) {
        seq![error_at(ft[0].start, "invalid expression length, expected 2, 3, or 5"@)]
    } else {
        match keyword_of(ft[0].text) {
            None => seq![error_at(ft[0].start, "invalid keyword"@)],
            Some(k) => {
                let base = type_errors(ft, shape_kinds(k, n)) + if keyword_fits(k, n) {
                    Seq::empty()
                } else {
                    seq![error_at(ft[0].start, "keyword does not fit the expression"@)]
                };
                if n <= 2 {
                    base
                } else if ft[1].text.len() == 0 {
                    base.push(error_at(ft[1].start, "empty operand"@))
                } else if n == 3 {
                    base
                } else if ft[3].text.len() == 0 {
                    base.push(error_at(ft[3].start, "empty operand"@))
                } else {
                    base + destination_errors(k, ft[1].text, ft[3].text, ft[3].start)
                }
            },
        }
    }
}

/// All the errors of a line of significant tokens, in the order they are
/// reported.
pub open spec fn line_errors(ft: Seq<TokenModel>) -> Seq<ErrorModel> {
    location_errors(ft) + shape_errors(ft)
}

/// The error for a `START` line after another instruction.
pub open spec fn misplaced_error(ft: Seq<TokenModel>) -> ErrorModel {
    error_at(ft[0].start, "START must be the first instruction"@)
}

proof fn lemma_type_errors(ft: Seq<TokenModel>, kinds: Seq<Seq<TokenType>>)
    requires
        ft.len() <= kinds.len(),
    ensures
        type_errors(ft, kinds).len() == 0 <==> kinds_fit(ft, kinds),
    decreases ft.len(),
{
    if ft.len() > 0 {
        let i = ft.len() - 1;
        let d = ft.drop_last();
        lemma_type_errors(d, kinds);
        if kinds_fit(ft, kinds) {
            assert forall|j: int| 0 <= j < d.len() implies #[trigger] kinds[j].contains(
                d[j].kind,
            ) by {
                assert(d[j] == ft[j]);
                assert(kinds[j].contains(ft[j].kind));
            }
            assert(kinds[i].contains(ft[i].kind));
        }
        if type_errors(ft, kinds).len() == 0 {
            assert forall|j: int| 0 <= j < ft.len() implies #[trigger] kinds[j].contains(
                ft[j].kind,
            ) by {
                if j < i {
                    assert(d[j] == ft[j]);
                    assert(kinds[j].contains(d[j].kind));
                }
            }
        }
    }
}

proof fn lemma_location_errors(ft: Seq<TokenModel>)
    ensures
        location_errors(ft).len() == 0 <==> locations_valid(ft),
    decreases ft.len(),
{
    if ft.len() > 0 {
        let i = ft.len() - 1;
        let d = ft.drop_last();
        lemma_location_errors(d);
        if locations_valid(ft) {
            assert forall|j: int|
                0 <= j < d.len() && (#[trigger] d[j]).kind == TokenType::Location implies location_register(
                d[j].text,
            ) is Some by {
                assert(d[j] == ft[j]);
            }
            assert(ft[i] == ft.last());
        }
        if location_errors(ft).len() == 0 {
            assert forall|j: int|
                0 <= j < ft.len() && (#[trigger] ft[j]).kind == TokenType::Location implies location_register(
                ft[j].text,
            ) is Some by {
                if j < i {
                    assert(d[j] == ft[j]);
                }
            }
        }
    }
}

/// A non-blank line is valid exactly when it has no errors.
pub proof fn lemma_line_errors(ft: Seq<TokenModel>)
    requires
        ft.len() > 0,
    ensures
        line_errors(ft).len() == 0 <==> line_ok(ft),
{
    lemma_location_errors(ft);
    lemma_shape_errors(ft);
}

proof fn lemma_shape_errors(ft: Seq<TokenModel>)
    requires
        ft.len() > 0,
    ensures
        shape_errors(ft).len() == 0 <==> shape_ok(ft),
{
    let n = ft.len() as int;
    if n == 1 || n == 2 || n == 3 || n == 5 {
        match keyword_of(ft[0].text) {
            Some(k) => {
                lemma_type_errors(ft, shape_kinds(k, n));
            },
            None => {},
        }
    }
}

/// The instructions of a whole program and the errors found in it.
pub struct ProgramParse {
    pub instrs: Seq<Instr>,
    pub errors: Seq<ErrorModel>,
}

/// Parsing the lines from index `i` of `s`, at position `p`, after the
/// instructions `acc`: a lexical error or a misplaced `START` ends the parse
/// with its error; a rejected line adds its errors and the parse goes on.
pub open spec fn parse_from(s: Seq<char>, i: int, p: Position, acc: Seq<Instr>) -> ProgramParse
    decreases s.len() - i,
{
    match scan_line(s, i, p) {
        LineScan::Failed { message, position } => ProgramParse {
            instrs: acc,
            errors: seq![error_at(position, message)],
        },
        LineScan::Line { tokens, end, position } => {
            let ft = significant(tokens);
            let more = tokens.last().kind != TokenType::EndOfFile && i < end <= s.len();
            match line_outcome(ft, acc.len() > 0) {
                LineOutcome::Misplaced => ProgramParse {
                    instrs: acc,
                    errors: seq![misplaced_error(ft)],
                },
                LineOutcome::Blank => if more {
                    parse_from(s, end, position, acc)
                } else {
                    ProgramParse { instrs: acc, errors: Seq::empty() }
                },
                LineOutcome::Accepted(x) => if more {
                    parse_from(s, end, position, acc.push(x))
                } else {
                    ProgramParse { instrs: acc.push(x), errors: Seq::empty() }
                },
                LineOutcome::Rejected => if more {
                    let rest = parse_from(s, end, position, acc);
                    ProgramParse { instrs: rest.instrs, errors: line_errors(ft) + rest.errors }
                } else {
                    ProgramParse { instrs: acc, errors: line_errors(ft) }
                },
            }
        },
    }
}

/// A `START` line after any instruction is refused, whatever else it holds.
pub proof fn lemma_start_must_come_first(ft: Seq<TokenModel>)
    requires
        starts_program(ft),
    ensures
        line_outcome(ft, true) == LineOutcome::Misplaced,
{
}

/// A `START` instruction.
pub open spec fn is_start(x: Instr) -> bool {
    x matches Instr::Unary { keyword, .. } && keyword == Keyword::START
}

/// No instruction after the first is a `START`.
pub open spec fn start_only_first(xs: Seq<Instr>) -> bool {
    forall|k: int| 0 < k < xs.len() ==> !is_start(#[trigger] xs[k])
}

/// Parsing keeps `START` first: a `START` line after any instruction stops the
/// parse with an error instead of being kept.
pub proof fn lemma_start_only_first(s: Seq<char>, i: int, p: Position, acc: Seq<Instr>)
    requires
        start_only_first(acc),
    ensures
        start_only_first(parse_from(s, i, p, acc).instrs),
    decreases s.len() - i,
{
    match scan_line(s, i, p) {
        LineScan::Failed { .. } => {},
        LineScan::Line { tokens, end, position } => {
            let ft = significant(tokens);
            let more = tokens.last().kind != TokenType::EndOfFile && i < end <= s.len();
            match line_outcome(ft, acc.len() > 0) {
                LineOutcome::Accepted(x) => {
                    assert(x == line_instr(ft));
                    assert(acc.len() > 0 ==> !is_start(x));
                    let next = acc.push(x);
                    assert(start_only_first(next)) by {
                        assert forall|k: int| 0 < k < next.len() implies !is_start(
                            #[trigger] next[k],
                        ) by {
                            if k < acc.len() {
                                assert(next[k] == acc[k]);
                            }
                        }
                    }
                    if more {
                        lemma_start_only_first(s, end, position, next);
                    }
                },
                LineOutcome::Blank => {
                    if more {
                        lemma_start_only_first(s, end, position, acc);
                    }
                },
                LineOutcome::Rejected => {
                    if more {
                        lemma_start_only_first(s, end, position, acc);
                    }
                },
                LineOutcome::Misplaced => {},
            }
        },
    }
}

/// A token other than the end of the input uses at least one character.
pub proof fn lemma_lex_progress(s: Seq<char>, i: int)
    requires
        0 <= i <= s.len(),
    ensures
        lex_step(s, i) matches LexStep::Token { kind, end, .. } ==> (kind == TokenType::EndOfFile
            ==> end == i) && (kind != TokenType::EndOfFile ==> i < end <= s.len()),
{
    if i < s.len() {
        lemma_run_end_bounds(s, i + 1, CharClass::Alnum);
        lemma_run_end_bounds(s, i + 1, CharClass::NotNewline);
        lemma_run_end_bounds(s, i + 1, CharClass::Newline);
        lemma_run_end_bounds(s, i + 1, CharClass::Whitespace);
        lemma_run_end_bounds(s, i + 1, CharClass::Hexit);
        assert(hex_stop(s, i + 1) >= i + 1);
    }
}

/// A line that does not end the input uses at least one character.
pub proof fn lemma_scan_line_progress(s: Seq<char>, i: int, p: Position)
    requires
        0 <= i <= s.len(),
    ensures
        scan_line(s, i, p) matches LineScan::Line { tokens, end, .. } ==> tokens.len() > 0 && i
            <= end <= s.len() && (tokens.last().kind != TokenType::EndOfFile ==> i < end),
    decreases s.len() - i,
{
    lemma_lex_progress(s, i);
    match lex_step(s, i) {
        LexStep::Fault { .. } => {},
        LexStep::Token { kind, text, end } => {
            let t = TokenModel { kind, text, start: p };
            let q = advance_over(p, s.subrange(i, end));
            if !(ends_line(kind) || !(i < end <= s.len())) {
                lemma_scan_line_progress(s, end, q);
                match scan_line(s, end, q) {
                    LineScan::Line { tokens, .. } => {
                        assert((seq![t] + tokens).last() == tokens.last());
                    },
                    LineScan::Failed { .. } => {},
                }
            }
        },
    }
}

proof fn lemma_prepend_assoc(a: Seq<TokenModel>, b: Seq<TokenModel>, sc: LineScan)
    ensures
        prepend(a, prepend(b, sc)) == prepend(a + b, sc),
{
    match sc {
        LineScan::Line { tokens, .. } => {
            assert(a + (b + tokens) =~= (a + b) + tokens);
        },
        LineScan::Failed { .. } => {},
    }
}

/// How the result of parsing the line `ft` and the parser state after it
/// follow from what becomes of the line.
pub open spec fn line_result(
    outcome: LineOutcome,
    ft: Seq<TokenModel>,
    r: Result<(), ParserError>,
    before: Parser,
    after: Parser,
) -> bool {
    match outcome {
        LineOutcome::Blank => r is Ok && after.errors@ == before.errors@ && after.expressions@
            == before.expressions@,
        LineOutcome::Accepted(x) => r is Ok && after.errors@ == before.errors@ && instrs(
            after.expressions@,
        ) == instrs(before.expressions@).push(x),
        LineOutcome::Rejected => r is Ok && error_views(after.errors@) == error_views(
            before.errors@,
        ) + line_errors(ft) && after.expressions@ == before.expressions@,
        LineOutcome::Misplaced => r matches Err(e) && e@ == misplaced_error(ft) && after.errors@
            == before.errors@ && after.expressions@ == before.expressions@,
    }
}

/// The allowed kinds of a table, as mathematical values.
pub open spec fn kind_table(types: Seq<Vec<TokenType>>) -> Seq<Seq<TokenType>> {
    types.map_values(|v: Vec<TokenType>| v@)
}

proof fn lemma_prefix_trans<T>(a: Seq<T>, b: Seq<T>, c: Seq<T>)
    requires
        a.is_prefix_of(b),
        b.is_prefix_of(c),
    ensures
        a.is_prefix_of(c),
{
    assert(a =~= c.subrange(0, a.len() as int));
}

proof fn lemma_instrs_push(v: Seq<Expressions>, x: Expressions)
    ensures
        instrs(v.push(x)) == instrs(v).push(x@),
{
    assert(instrs(v.push(x)) =~= instrs(v).push(x@));
}

fn one_kind(k: TokenType) -> (r: Vec<TokenType>)
    ensures
        r@ == seq![k],
{
    let mut r: Vec<TokenType> = Vec::new();
    r.push(k);
    assert(r@ =~= seq![k]);
    r
}

/// The operand kinds that each keyword takes, for lines of one operand.
fn unary_operand_kinds(k: Keyword) -> (r: Vec<TokenType>)
    ensures
        r@ == unary_kinds(k),
{
    let mut r: Vec<TokenType> = Vec::new();
    match k {
        Keyword::DEF => {
            r.push(TokenType::Word);
        },
        Keyword::START => {
            r.push(TokenType::Address);
        },
        Keyword::JMP => {
            r.push(TokenType::Address);
            r.push(TokenType::Word);
        },
        _ => {},
    }
    assert(r@ =~= unary_kinds(k));
    r
}

fn source_operand_kinds() -> (r: Vec<TokenType>)
    ensures
        r@ == source_kinds(),
{
    let mut r: Vec<TokenType> = Vec::new();
    r.push(TokenType::Hex);
    r.push(TokenType::Address);
    r.push(TokenType::Location);
    assert(r@ =~= source_kinds());
    r
}

fn destination_operand_kinds() -> (r: Vec<TokenType>)
    ensures
        r@ == destination_kinds(),
{
    let mut r = source_operand_kinds();
    r.push(TokenType::Word);
    assert(r@ =~= destination_kinds());
    r
}

/// The kinds allowed at each place of a line of `n` tokens with keyword `k`.
fn shape_table(k: Keyword, n: usize) -> (r: Vec<Vec<TokenType>>)
    ensures
        r@.len() == shape_kinds(k, n as int).len(),
        kind_table(r@) == shape_kinds(k, n as int),
{
    let mut r: Vec<Vec<TokenType>> = Vec::new();
    r.push(one_kind(TokenType::Operation));
    if n <= 2 {
        r.push(one_kind(TokenType::Newline));
    } else if n == 3 {
        r.push(unary_operand_kinds(k));
        r.push(one_kind(TokenType::Newline));
    } else {
        r.push(source_operand_kinds());
        r.push(one_kind(TokenType::Comma));
        r.push(destination_operand_kinds());
        r.push(one_kind(TokenType::Newline));
    }
    assert(kind_table(r@) =~= shape_kinds(k, n as int));
    r
}

fn kind_allowed(kind: TokenType, kinds: &Vec<TokenType>) -> (r: bool)
    ensures
        r == kinds@.contains(kind),
{
    let mut i: usize = 0;
    while i < kinds.len()
        invariant
            i <= kinds@.len(),
            forall|j: int| 0 <= j < i ==> kinds@[j] != kind,
        decreases kinds.len() - i,
    {
        if kinds[i] == kind {
            assert(kinds@[i as int] == kind);
            return true;
        }
        i = i + 1;
    }
    false
}

/// The tokens of `line` that are not trivia, in order.
fn significant_tokens(line: &Vec<Token>) -> (r: Vec<Token>)
    ensures
        views(r@) == significant(views(line@)),
{
    let mut r: Vec<Token> = Vec::new();
    let mut i: usize = 0;
    while i < line.len()
        invariant
            i <= line@.len(),
            views(r@) == significant(views(line@).take(i as int)),
        decreases line.len() - i,
    {
        let ghost before = views(r@);
        let t = &line[i];
        let keep = !(t.token_type == TokenType::Whitespace || t.token_type == TokenType::Comment
            || t.token_type == TokenType::EndOfFile);
        if keep {
            r.push(t.duplicate());
        }
        proof {
            let vs = views(line@);
            assert(vs.take(i + 1).drop_last() =~= vs.take(i as int));
            assert(vs.take(i + 1).last() == line@[i as int]@);
            if keep {
                assert(views(r@) =~= before.push(line@[i as int]@));
            }
        }
        i = i + 1;
    }
    assert(views(line@).take(line@.len() as int) =~= views(line@));
    r
}

/// Parses a program one line at a time.
#[derive(Debug)]
pub struct Parser {
    pub lexer: Lexer,
    pub expressions: Vec<Expressions>,
    pub errors: Vec<ParserError>,
    pub has_next: bool,
}

impl Parser {
    /// A parser that reads from `lexer`, with no instructions or errors yet.
    pub fn new(lexer: Lexer) -> (r: Parser)
        ensures
            r.lexer == lexer,
            r.expressions@.len() == 0,
            r.errors@.len() == 0,
            r.has_next,
    {
        Parser { lexer, expressions: Vec::new(), errors: Vec::new(), has_next: true }
    }

    /// Adds an error to the list.
    fn report(&mut self, e: ParserError)
        ensures
            final(self).errors@ == old(self).errors@.push(e),
            error_views(final(self).errors@) == error_views(old(self).errors@).push(e@),
            final(self).lexer == old(self).lexer,
            final(self).expressions@ == old(self).expressions@,
            final(self).has_next == old(self).has_next,
    {
        proof {
            lemma_error_views_push(self.errors@, e);
        }
        self.errors.push(e);
    }

    /// Reports each token whose kind is not allowed at its place; says
    /// whether all of them are allowed.
    fn validate_token_types(&mut self, tokens: &Vec<Token>, types: &Vec<Vec<TokenType>>) -> (r:
        bool)
        requires
            tokens@.len() <= types@.len(),
        ensures
            error_views(final(self).errors@) == error_views(old(self).errors@) + type_errors(
                views(tokens@),
                kind_table(types@),
            ),
            r == (type_errors(views(tokens@), kind_table(types@)).len() == 0),
            old(self).errors@.is_prefix_of(final(self).errors@),
            final(self).lexer == old(self).lexer,
            final(self).expressions@ == old(self).expressions@,
            final(self).has_next == old(self).has_next,
    {
        let ghost e0 = self.errors@;
        let ghost ft = views(tokens@);
        let ghost kt = kind_table(types@);
        let mut ok = true;
        let mut i: usize = 0;
        assert(ft.take(0) =~= Seq::<TokenModel>::empty());
        assert(error_views(e0) + Seq::<ErrorModel>::empty() =~= error_views(e0));
        assert(e0 =~= e0.subrange(0, e0.len() as int));
        while i < tokens.len()
            invariant
                i <= tokens@.len() <= types@.len(),
                ft == views(tokens@),
                kt == kind_table(types@),
                error_views(self.errors@) == error_views(e0) + type_errors(ft.take(i as int), kt),
                ok == (type_errors(ft.take(i as int), kt).len() == 0),
                e0.is_prefix_of(self.errors@),
                e0 == old(self).errors@,
                self.lexer == old(self).lexer,
                self.expressions@ == old(self).expressions@,
                self.has_next == old(self).has_next,
            decreases tokens.len() - i,
        {
            let ghost before = self.errors@;
            let ghost prefix = ft.take(i as int);
            assert(ft.take(i + 1).drop_last() =~= prefix);
            assert(ft.take(i + 1)[i as int] == ft[i as int]);
            assert(ft[i as int] == tokens@[i as int]@);
            assert(kt[i as int] == types@[i as int]@);
            if !kind_allowed(tokens[i].token_type, &types[i]) {
                self.report(
                    ParserError {
                        position: tokens[i].start_position,
                        message: owned("invalid token type"),
                    },
                );
                ok = false;
                assert(error_views(self.errors@) =~= error_views(e0) + type_errors(
                    ft.take(i + 1),
                    kt,
                ));
                assert(e0 =~= self.errors@.subrange(0, e0.len() as int));
            } else {
                assert(type_errors(ft.take(i + 1), kt) =~= type_errors(prefix, kt));
            }
            i = i + 1;
        }
        assert(ft.take(tokens@.len() as int) =~= ft);
        ok
    }

    /// Reports a location token that names no register.
    fn validate_location(&self, token: &Token) -> (r: Result<(), ParserError>)
        ensures
            r is Ok <==> location_register(token.value@) is Some,
            r matches Err(e) ==> e@ == error_at(token.start_position, "invalid location"@),
    {
        if Register::from_location(token.value.as_str()).is_none() {
            return Err(
                ParserError { position: token.start_position, message: owned("invalid location") },
            );
        }
        Ok(())
    }

    /// Reports each location token of a line that names no register; says
    /// whether there was none.
    fn validate_locations(&mut self, toks: &Vec<Token>) -> (r: bool)
        ensures
            error_views(final(self).errors@) == error_views(old(self).errors@) + location_errors(
                views(toks@),
            ),
            r == (location_errors(views(toks@)).len() == 0),
            old(self).errors@.is_prefix_of(final(self).errors@),
            final(self).lexer == old(self).lexer,
            final(self).expressions@ == old(self).expressions@,
            final(self).has_next == old(self).has_next,
    {
        let ghost e0 = self.errors@;
        let ghost ft = views(toks@);
        let mut ok = true;
        let mut i: usize = 0;
        assert(ft.take(0) =~= Seq::<TokenModel>::empty());
        assert(error_views(e0) + Seq::<ErrorModel>::empty() =~= error_views(e0));
        assert(e0 =~= e0.subrange(0, e0.len() as int));
        while i < toks.len()
            invariant
                i <= toks@.len(),
                ft == views(toks@),
                error_views(self.errors@) == error_views(e0) + location_errors(ft.take(i as int)),
                ok == (location_errors(ft.take(i as int)).len() == 0),
                e0.is_prefix_of(self.errors@),
                e0 == old(self).errors@,
                self.lexer == old(self).lexer,
                self.expressions@ == old(self).expressions@,
                self.has_next == old(self).has_next,
            decreases toks.len() - i,
        {
            let ghost prefix = ft.take(i as int);
            assert(ft.take(i + 1).drop_last() =~= prefix);
            assert(ft.take(i + 1).last() == ft[i as int]);
            assert(ft[i as int] == toks@[i as int]@);
            let mut bad = false;
            if toks[i].token_type == TokenType::Location {
                match self.validate_location(&toks[i]) {
                    Ok(_) => {},
                    Err(e) => {
                        self.report(e);
                        ok = false;
                        bad = true;
                    },
                }
            }
            if bad {
                assert(error_views(self.errors@) =~= error_views(e0) + location_errors(
                    ft.take(i + 1),
                ));
                assert(e0 =~= self.errors@.subrange(0, e0.len() as int));
            } else {
                assert(location_errors(ft.take(i + 1)) =~= location_errors(prefix));
            }
            i = i + 1;
        }
        assert(ft.take(toks@.len() as int) =~= ft);
        ok
    }

    /// Reports a move whose destination is not an address or a writable
    /// register, or is the source itself; says whether it is fine.
    fn validate_second_operand(
        &mut self,
        keyword: &Keyword,
        operand1: &String,
        operand2: &String,
        position: Position,
    ) -> (r: bool)
        ensures
            error_views(final(self).errors@) == error_views(old(self).errors@)
                + destination_errors(*keyword, operand1@, operand2@, position),
            r == (destination_errors(*keyword, operand1@, operand2@, position).len() == 0),
            old(self).errors@.is_prefix_of(final(self).errors@),
            final(self).lexer == old(self).lexer,
            final(self).expressions@ == old(self).expressions@,
            final(self).has_next == old(self).has_next,
    {
        let ghost e0 = self.errors@;
        assert(error_views(e0) + Seq::<ErrorModel>::empty() =~= error_views(e0));
        assert(e0 =~= e0.subrange(0, e0.len() as int));
        if *keyword != Keyword::MOV {
            return true;
        }
        let dst = operand2.as_str();
        let is_addr = dst.unicode_len() > 0 && dst.get_char(0) == '$';
        if is_addr {
            return true;
        }
        let writable = match Register::from_location(dst) {
            Some(reg) => reg != Register::ACC,
            None => false,
        };
        if !writable {
            self.report(ParserError { position, message: owned("invalid destination") });
            assert(e0 =~= self.errors@.subrange(0, e0.len() as int));
            assert(error_views(self.errors@) =~= error_views(e0) + destination_errors(
                *keyword,
                operand1@,
                operand2@,
                position,
            ));
            return false;
        }
        if *operand1 == *operand2 {
            self.report(
                ParserError { position, message: owned("destination is the same as the source") },
            );
            assert(e0 =~= self.errors@.subrange(0, e0.len() as int));
            assert(error_views(self.errors@) =~= error_views(e0) + destination_errors(
                *keyword,
                operand1@,
                operand2@,
                position,
            ));
            return false;
        }
        true
    }

    /// A line of one keyword, with or without its newline. The instruction
    /// is kept when the line and its locations (`fine`) are valid.
    fn parse_no_operand(&mut self, toks: &Vec<Token>, fine: bool)
        requires
            toks@.len() == 1 || toks@.len() == 2,
        ensures
            error_views(final(self).errors@) == error_views(old(self).errors@) + shape_errors(
                views(toks@),
            ),
            old(self).errors@.is_prefix_of(final(self).errors@),
            fine && shape_ok(views(toks@)) ==> instrs(final(self).expressions@) == instrs(
                old(self).expressions@,
            ).push(line_instr(views(toks@))),
            !(fine && shape_ok(views(toks@))) ==> final(self).expressions@ == old(
                self,
            ).expressions@,
            final(self).lexer == old(self).lexer,
            final(self).has_next == old(self).has_next,
    {
        let ghost ft = views(toks@);
        let ghost e0 = self.errors@;
        assert(ft[0] == toks@[0]@);
        proof {
            lemma_shape_errors(ft);
        }
        let keyword = match Keyword::from_str(toks[0].value.as_str(), toks[0].start_position) {
            Ok(k) => k,
            Err(e) => {
                self.report(e);
                assert(error_views(self.errors@) =~= error_views(e0) + shape_errors(ft));
                assert(e0 =~= self.errors@.subrange(0, e0.len() as int));
                return ;
            },
        };
        let types = shape_table(keyword, toks.len());
        let mut ok = self.validate_token_types(toks, &types);
        let ghost e1 = self.errors@;
        match Expressions::validate_no_operand_keyword(keyword) {
            Ok(_) => {},
            Err(e) => {
                self.report(
                    ParserError { position: toks[0].start_position, message: e.message },
                );
                ok = false;
            },
        }
        proof {
            lemma_prefix_trans(e0, e1, self.errors@);
            assert(error_views(self.errors@) =~= error_views(e0) + shape_errors(ft));
        }
        if ok && fine {
            let ghost x0 = self.expressions@;
            self.expressions.push(Expressions::NoOperandExpression { keyword });
            proof {
                lemma_instrs_push(x0, Expressions::NoOperandExpression { keyword });
            }
        }
    }

    /// A line of a keyword and one operand.
    fn parse_unary(&mut self, toks: &Vec<Token>, fine: bool)
        requires
            toks@.len() == 3,
        ensures
            error_views(final(self).errors@) == error_views(old(self).errors@) + shape_errors(
                views(toks@),
            ),
            old(self).errors@.is_prefix_of(final(self).errors@),
            fine && shape_ok(views(toks@)) ==> instrs(final(self).expressions@) == instrs(
                old(self).expressions@,
            ).push(line_instr(views(toks@))),
            !(fine && shape_ok(views(toks@))) ==> final(self).expressions@ == old(
                self,
            ).expressions@,
            final(self).lexer == old(self).lexer,
            final(self).has_next == old(self).has_next,
    {
        let ghost ft = views(toks@);
        let ghost e0 = self.errors@;
        assert(ft[0] == toks@[0]@ && ft[1] == toks@[1]@);
        proof {
            lemma_shape_errors(ft);
        }
        let keyword = match Keyword::from_str(toks[0].value.as_str(), toks[0].start_position) {
            Ok(k) => k,
            Err(e) => {
                self.report(e);
                assert(error_views(self.errors@) =~= error_views(e0) + shape_errors(ft));
                assert(e0 =~= self.errors@.subrange(0, e0.len() as int));
                return ;
            },
        };
        let types = shape_table(keyword, toks.len());
        let mut ok = self.validate_token_types(toks, &types);
        let ghost e1 = self.errors@;
        match Expressions::validate_unary_keyword(keyword) {
            Ok(_) => {},
            Err(e) => {
                self.report(
                    ParserError { position: toks[0].start_position, message: e.message },
                );
                ok = false;
            },
        }
        let ghost e2 = self.errors@;
        proof {
            lemma_prefix_trans(e0, e1, e2);
        }
        let operand = match Operand::from_str(toks[1].value.as_str(), toks[1].start_position) {
            Ok(o) => o,
            Err(e) => {
                self.report(e);
                proof {
                    lemma_prefix_trans(e0, e2, self.errors@);
                }
                assert(error_views(self.errors@) =~= error_views(e0) + shape_errors(ft));
                return ;
            },
        };
        assert(error_views(self.errors@) =~= error_views(e0) + shape_errors(ft));
        if ok && fine {
            let ghost x0 = self.expressions@;
            self.expressions.push(Expressions::UnaryExpression { keyword, operand });
            proof {
                lemma_instrs_push(x0, self.expressions@.last());
            }
        }
    }

    /// A line of a keyword, two operands and the comma between them.
    fn parse_binary(&mut self, toks: &Vec<Token>, fine: bool)
        requires
            toks@.len() == 5,
        ensures
            error_views(final(self).errors@) == error_views(old(self).errors@) + shape_errors(
                views(toks@),
            ),
            old(self).errors@.is_prefix_of(final(self).errors@),
            fine && shape_ok(views(toks@)) ==> instrs(final(self).expressions@) == instrs(
                old(self).expressions@,
            ).push(line_instr(views(toks@))),
            !(fine && shape_ok(views(toks@))) ==> final(self).expressions@ == old(
                self,
            ).expressions@,
            final(self).lexer == old(self).lexer,
            final(self).has_next == old(self).has_next,
    {
        let ghost ft = views(toks@);
        let ghost e0 = self.errors@;
        assert(ft[0] == toks@[0]@ && ft[1] == toks@[1]@ && ft[3] == toks@[3]@);
        proof {
            lemma_shape_errors(ft);
        }
        let keyword = match Keyword::from_str(toks[0].value.as_str(), toks[0].start_position) {
            Ok(k) => k,
            Err(e) => {
                self.report(e);
                assert(error_views(self.errors@) =~= error_views(e0) + shape_errors(ft));
                assert(e0 =~= self.errors@.subrange(0, e0.len() as int));
                return ;
            },
        };
        let types = shape_table(keyword, toks.len());
        let mut ok = self.validate_token_types(toks, &types);
        let ghost e1 = self.errors@;
        match Expressions::validate_binary_keyword(keyword) {
            Ok(_) => {},
            Err(e) => {
                self.report(
                    ParserError { position: toks[0].start_position, message: e.message },
                );
                ok = false;
            },
        }
        let ghost e2 = self.errors@;
        proof {
            lemma_prefix_trans(e0, e1, e2);
        }
        let operand1 = match Operand::from_str(toks[1].value.as_str(), toks[1].start_position) {
            Ok(o) => o,
            Err(e) => {
                self.report(e);
                proof {
                    lemma_prefix_trans(e0, e2, self.errors@);
                }
                assert(error_views(self.errors@) =~= error_views(e0) + shape_errors(ft));
                return ;
            },
        };
        let operand2 = match Operand::from_str(toks[3].value.as_str(), toks[3].start_position) {
            Ok(o) => o,
            Err(e) => {
                self.report(e);
                proof {
                    lemma_prefix_trans(e0, e2, self.errors@);
                }
                assert(error_views(self.errors@) =~= error_views(e0) + shape_errors(ft));
                return ;
            },
        };
        if !self.validate_second_operand(
            &keyword,
            &toks[1].value,
            &toks[3].value,
            toks[3].start_position,
        ) {
            ok = false;
        }
        proof {
            lemma_prefix_trans(e0, e2, self.errors@);
        }
        assert(error_views(self.errors@) =~= error_views(e0) + shape_errors(ft));
        if ok && fine {
            let ghost x0 = self.expressions@;
            let x = Expressions::BinaryExpression {
                keyword,
                operand1,
                comma: owned(toks[2].value.as_str()),
                operand2,
            };
            self.expressions.push(x);
            proof {
                lemma_instrs_push(x0, self.expressions@.last());
            }
        }
    }

    /// Checks one line of tokens and keeps the instruction it makes. A
    /// `START` line after another instruction is returned as an error; the
    /// other faults of the line are added to `errors`.
    fn parse_line(&mut self, line: Vec<Token>) -> (r: Result<(), ParserError>)
        ensures
            final(self).lexer == old(self).lexer,
            final(self).has_next == old(self).has_next,
            old(self).errors@.is_prefix_of(final(self).errors@),
            line_result(
                line_outcome(significant(views(line@)), old(self).expressions@.len() > 0),
                significant(views(line@)),
                r,
                *old(self),
                *final(self),
            ),
    {
        let toks = significant_tokens(&line);
        let ghost ft = views(toks@);
        let n = toks.len();
        if n == 0 || (n == 1 && toks[0].token_type == TokenType::Newline) {
            assert(self.errors@ =~= self.errors@.subrange(0, self.errors@.len() as int));
            return Ok(());
        }
        assert(ft[0] == toks@[0]@);
        if n == 3 && self.expressions.len() > 0 {
            match Keyword::from_str(toks[0].value.as_str(), toks[0].start_position) {
                Ok(k) => {
                    if k == Keyword::START {
                        assert(self.errors@ =~= self.errors@.subrange(
                            0,
                            self.errors@.len() as int,
                        ));
                        return Err(
                            ParserError {
                                position: toks[0].start_position,
                                message: owned("START must be the first instruction"),
                            },
                        );
                    }
                },
                Err(_) => {},
            }
        }
        let ghost e0 = self.errors@;
        let fine = self.validate_locations(&toks);
        let ghost e1 = self.errors@;
        if n == 1 || n == 2 {
            self.parse_no_operand(&toks, fine);
        } else if n == 3 {
            self.parse_unary(&toks, fine);
        } else if n == 5 {
            self.parse_binary(&toks, fine);
        } else {
            self.report(
                ParserError {
                    position: toks[0].start_position,
                    message: owned("invalid expression length, expected 2, 3, or 5"),
                },
            );
            assert(e1 =~= self.errors@.subrange(0, e1.len() as int));
            assert(error_views(self.errors@) =~= error_views(e1) + shape_errors(ft));
        }
        proof {
            lemma_prefix_trans(e0, e1, self.errors@);
            lemma_line_errors(ft);
            lemma_location_errors(ft);
            assert(error_views(self.errors@) =~= error_views(e0) + line_errors(ft));
            if line_errors(ft).len() == 0 {
                assert(self.errors@ =~= e0);
            }
        }
        Ok(())
    }

    /// Reads the tokens of one line, up to and including its newline or the
    /// end of the input. A lexical error ends the reading.
    fn get_line(&mut self) -> (r: Result<Vec<Token>, ParserError>)
        requires
            old(self).lexer.wf(),
        ensures
            final(self).lexer.wf(),
            final(self).lexer.characters@ == old(self).lexer.characters@,
            old(self).lexer.cursor <= final(self).lexer.cursor,
            final(self).expressions@ == old(self).expressions@,
            final(self).errors@ == old(self).errors@,
            match scan_line(
                old(self).lexer.characters@,
                old(self).lexer.cursor as int,
                old(self).lexer.position,
            ) {
                LineScan::Failed { message, position } => r matches Err(e) && e@ == error_at(
                    position,
                    message,
                ) && final(self).has_next == old(self).has_next,
                LineScan::Line { tokens, end, position } => r matches Ok(line) && views(line@)
                    == tokens && final(self).lexer.cursor == end && final(self).lexer.position
                    == position && final(self).has_next == (old(self).has_next
                    && tokens.last().kind != TokenType::EndOfFile),
            },
    {
        let ghost s = self.lexer.characters@;
        let ghost i0 = self.lexer.cursor as int;
        let ghost pos0 = self.lexer.position;
        let ghost h0 = self.has_next;
        let mut line: Vec<Token> = Vec::new();
        assert(views(line@) =~= Seq::<TokenModel>::empty());
        assert(prepend(Seq::empty(), scan_line(s, i0, pos0)) == scan_line(s, i0, pos0)) by {
            match scan_line(s, i0, pos0) {
                LineScan::Line { tokens, .. } => {
                    assert(Seq::<TokenModel>::empty() + tokens =~= tokens);
                },
                LineScan::Failed { .. } => {},
            }
        }
        loop
            invariant
                self.lexer.wf(),
                self.lexer.characters@ == s,
                s == old(self).lexer.characters@,
                i0 == old(self).lexer.cursor,
                pos0 == old(self).lexer.position,
                0 <= i0 <= self.lexer.cursor,
                scan_line(s, i0, pos0) == prepend(
                    views(line@),
                    scan_line(s, self.lexer.cursor as int, self.lexer.position),
                ),
                self.expressions@ == old(self).expressions@,
                self.errors@ == old(self).errors@,
                self.has_next == h0,
                h0 == old(self).has_next,
            decreases s.len() - self.lexer.cursor,
        {
            let ghost c = self.lexer.cursor as int;
            let ghost before = views(line@);
            proof {
                lemma_lex_progress(s, c);
            }
            match self.lexer.lex() {
                Err(e) => {
                    return Err(ParserError { position: e.position, message: e.message });
                },
                Ok(t) => {
                    let stop = t.token_type == TokenType::Newline || t.token_type
                        == TokenType::EndOfFile;
                    if t.token_type == TokenType::EndOfFile {
                        self.has_next = false;
                    }
                    let ghost tv = t@;
                    line.push(t);
                    proof {
                        assert(views(line@) =~= before + seq![tv]);
                        assert((before + seq![tv]).last() == tv);
                        if !stop {
                            lemma_prepend_assoc(
                                before,
                                seq![tv],
                                scan_line(s, self.lexer.cursor as int, self.lexer.position),
                            );
                        }
                    }
                    if stop {
                        return Ok(line);
                    }
                },
            }
        }
    }

    /// Reads and checks one line. A lexical error, or a `START` line after
    /// another instruction, is returned and ends the parse; the other faults
    /// of the line are added to `errors` and the parse can go on.
    pub fn parse(&mut self) -> (r: Result<(), ParserError>)
        requires
            old(self).lexer.wf(),
        ensures
            final(self).lexer.wf(),
            final(self).lexer.characters@ == old(self).lexer.characters@,
            old(self).lexer.cursor <= final(self).lexer.cursor,
            old(self).errors@.is_prefix_of(final(self).errors@),
            match scan_line(
                old(self).lexer.characters@,
                old(self).lexer.cursor as int,
                old(self).lexer.position,
            ) {
                LineScan::Failed { message, position } => r matches Err(e) && e@ == error_at(
                    position,
                    message,
                ) && final(self).expressions@ == old(self).expressions@ && final(self).errors@
                    == old(self).errors@ && final(self).has_next == old(self).has_next,
                LineScan::Line { tokens, end, position } => final(self).lexer.cursor == end
                    && final(self).lexer.position == position && final(self).has_next == (old(
                    self,
                ).has_next && tokens.last().kind != TokenType::EndOfFile) && line_result(
                    line_outcome(significant(tokens), old(self).expressions@.len() > 0),
                    significant(tokens),
                    r,
                    *old(self),
                    *final(self),
                ),
            },
    {
        let line = self.get_line();
        match line {
            Ok(line) => {
                self.parse_line(line)?;
            },
            Err(error) => {
                assert(self.errors@ =~= self.errors@.subrange(0, self.errors@.len() as int));
                return Err(error);
            },
        }
        Ok(())
    }

    /// Parses lines until the input ends or a fault stops the parse, which
    /// is then added to `errors`.
    pub fn parse_all(&mut self)
        requires
            old(self).lexer.wf(),
        ensures
            final(self).lexer.wf(),
            old(self).errors@.is_prefix_of(final(self).errors@),
            old(self).has_next ==> ({
                let run = parse_from(
                    old(self).lexer.characters@,
                    old(self).lexer.cursor as int,
                    old(self).lexer.position,
                    instrs(old(self).expressions@),
                );
                &&& instrs(final(self).expressions@) == run.instrs
                &&& error_views(final(self).errors@) == error_views(old(self).errors@) + run.errors
            }),
            !old(self).has_next ==> final(self).expressions@ == old(self).expressions@
                && final(self).errors@ == old(self).errors@,
    {
        let ghost s = self.lexer.characters@;
        let ghost goal = parse_from(
            s,
            self.lexer.cursor as int,
            self.lexer.position,
            instrs(self.expressions@),
        );
        let ghost err0 = self.errors@;
        let ghost h0 = self.has_next;
        let mut failed = false;
        assert(err0 =~= err0.subrange(0, err0.len() as int));
        while !failed && self.has_next
            invariant
                self.lexer.wf(),
                self.lexer.characters@ == s,
                err0.is_prefix_of(self.errors@),
                err0 == old(self).errors@,
                h0 == old(self).has_next,
                goal == parse_from(
                    s,
                    old(self).lexer.cursor as int,
                    old(self).lexer.position,
                    instrs(old(self).expressions@),
                ),
                h0 ==> if !failed && self.has_next {
                    let run = parse_from(
                        s,
                        self.lexer.cursor as int,
                        self.lexer.position,
                        instrs(self.expressions@),
                    );
                    &&& goal.instrs == run.instrs
                    &&& error_views(err0) + goal.errors == error_views(self.errors@) + run.errors
                } else {
                    &&& goal.instrs == instrs(self.expressions@)
                    &&& error_views(err0) + goal.errors == error_views(self.errors@)
                },
                !h0 ==> !self.has_next && self.expressions@ == old(self).expressions@
                    && self.errors@ == err0,
            decreases
                (if failed { 0int } else { 1int }),
                s.len() - self.lexer.cursor,
                (if self.has_next { 1int } else { 0int }),
        {
            let ghost c = self.lexer.cursor as int;
            let ghost p = self.lexer.position;
            let ghost e1 = self.errors@;
            let ghost run = parse_from(s, c, p, instrs(self.expressions@));
            proof {
                lemma_scan_line_progress(s, c, p);
            }
            let res = self.parse();
            proof {
                lemma_prefix_trans(err0, e1, self.errors@);
            }
            match res {
                Ok(_) => {
                    proof {
                        match scan_line(s, c, p) {
                            LineScan::Line { tokens, end, position } => {
                                let ft = significant(tokens);
                                let rest = parse_from(s, end, position, instrs(self.expressions@));
                                assert(error_views(e1) + (line_errors(ft) + rest.errors) =~= (
                                error_views(e1) + line_errors(ft)) + rest.errors);
                                assert(error_views(e1) + line_errors(ft) + Seq::<ErrorModel>::empty()
                                    =~= error_views(e1) + line_errors(ft));
                                assert(error_views(e1) + Seq::<ErrorModel>::empty() =~= error_views(
                                    e1,
                                ));
                            },
                            LineScan::Failed { .. } => {},
                        }
                    }
                },
                Err(error) => {
                    let ghost e2 = self.errors@;
                    let ghost ev = error@;
                    self.report(error);
                    failed = true;
                    proof {
                        assert(e2.is_prefix_of(self.errors@)) by {
                            assert(e2 =~= self.errors@.subrange(0, e2.len() as int));
                        }
                        lemma_prefix_trans(err0, e2, self.errors@);
                        assert(error_views(e2).push(ev) =~= error_views(e2) + seq![ev]);
                    }
                },
            }
        }
    }
}

} // verus!
