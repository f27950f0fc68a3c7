//! The encoder: walks the instructions once, keeping a write cursor and a
//! label table, writes opcode bytes into a fixed-size memory image, and
//! prints the image as an addressed hex dump.
use vstd::prelude::*;

use crate::expressions::{instrs, Expressions, Instr};
use crate::keyword::Keyword;
use crate::operand::{register_of, Operand, OperandModel, Register};
use crate::text::{hexit_value, is_hex_digit, is_hexit, owned, push_char, text_eq};

verus! {

/// The number of words in the memory image.
pub const MEMORY_SIZE: usize = 256;

/// The opcode of `NOP`, which also fills the memory image at the start.
pub const NOP_OPCODE: u8 = 0x00;

/// The opcode of `HLT`.
pub const HLT_OPCODE: u8 = 0x20;

/// An error that stops the encoding.
#[derive(Debug, Clone, PartialEq, Eq)]
pub struct AssemblerError {
    pub message: String,
}

/// The ways in which encoding can fail.
#[derive(Clone, Copy, Debug, PartialEq, Eq, Structural)]
pub enum AsmFault {
    UnexpectedExpression,
    UnexpectedCombination,
    InvalidHex,
    OutOfRange,
}

/// The message of each encoding error.
pub open spec fn asm_fault_message(f: AsmFault) -> Seq<char> {
    match f {
        AsmFault::UnexpectedExpression => "unexpected expression type"@,
        AsmFault::UnexpectedCombination => "unexpected operand combination"@,
        AsmFault::InvalidHex => "invalid hex value"@,
        AsmFault::OutOfRange => "write past the end of memory"@,
    }
}

fn asm_error(f: AsmFault) -> (r: AssemblerError)
    ensures
        r.message@ == asm_fault_message(f),
{
    let message = match f {
        AsmFault::UnexpectedExpression => owned("unexpected expression type"),
        AsmFault::UnexpectedCombination => owned("unexpected operand combination"),
        AsmFault::InvalidHex => owned("invalid hex value"),
        AsmFault::OutOfRange => owned("write past the end of memory"),
    };
    AssemblerError { message }
}

/// The number that a text of hexits stands for.
pub open spec fn hex_text_value(t: Seq<char>) -> int
    decreases t.len(),
{
    if t.len() == 0 {
        0
    } else {
        16 * hex_text_value(t.drop_last()) + hexit_value(t.last())
    }
}

/// A non-empty text of hexits whose value fits in a byte.
pub open spec fn is_byte_text(t: Seq<char>) -> bool {
    &&& t.len() > 0
    &&& forall|i: int| 0 <= i < t.len() ==> is_hexit(#[trigger] t[i])
    &&& 0 <= hex_text_value(t) <= 255
}

/// The opcode of a move between two registers, if the CPU has one.
pub open spec fn move_opcode(src: Register, dst: Register) -> Option<u8> {
    match (src, dst) {
        (Register::A, Register::B) => Some(0x01),
        (Register::A, Register::C) => Some(0x02),
        (Register::A, Register::O1) => Some(0x03),
        (Register::A, Register::O2) => Some(0x04),
        (Register::B, Register::A) => Some(0x06),
        (Register::B, Register::C) => Some(0x07),
        (Register::B, Register::O1) => Some(0x08),
        (Register::B, Register::O2) => Some(0x09),
        (Register::C, Register::A) => Some(0x0B),
        (Register::C, Register::B) => Some(0x0C),
        (Register::C, Register::O1) => Some(0x0D),
        (Register::C, Register::O2) => Some(0x0E),
        (Register::O1, Register::A) => Some(0x10),
        (Register::O1, Register::B) => Some(0x11),
        (Register::O1, Register::C) => Some(0x12),
        (Register::O1, Register::O2) => Some(0x13),
        (Register::O2, Register::A) => Some(0x15),
        (Register::O2, Register::B) => Some(0x16),
        (Register::O2, Register::C) => Some(0x17),
        (Register::O2, Register::O1) => Some(0x18),
        (Register::ACC, Register::A) => Some(0x27),
        (Register::ACC, Register::B) => Some(0x28),
        (Register::ACC, Register::C) => Some(0x29),
        (Register::ACC, Register::O1) => Some(0x2A),
        (Register::ACC, Register::O2) => Some(0x2B),
        _ => None,
    }
}

/// The position of a writable register in the opcode rows of immediate and
/// memory loads.
pub open spec fn register_offset(r: Register) -> Option<u8> {
    match r {
        Register::A => Some(0),
        Register::B => Some(1),
        Register::C => Some(2),
        Register::O1 => Some(3),
        Register::O2 => Some(4),
        Register::ACC => None,
    }
}

/// The opcode of a move whose source is a byte in the instruction (`#`) or
/// in memory (`$`), by destination.
pub open spec fn byte_move_opcode(src_indicator: char, dst: OperandModel) -> Option<u8> {
    let immediate = src_indicator == '#';
    if dst.indicator == '$' {
        Some(if immediate { 0x26u8 } else { 0x1Fu8 })
    } else if dst.indicator == '@' && register_of(dst.value) is Some && register_offset(
        register_of(dst.value).unwrap(),
    ) is Some {
        let off = register_offset(register_of(dst.value).unwrap()).unwrap();
        Some((if immediate { 0x21 + off } else { 0x1A + off }) as u8)
    } else {
        None
    }
}

/// The words that `MOV src,dst` writes, or why it cannot be encoded.
pub open spec fn move_words(src: OperandModel, dst: OperandModel) -> Result<Seq<u8>, AsmFault> {
    if src.indicator == '#' || src.indicator == '$' {
        match byte_move_opcode(src.indicator, dst) {
            None => Err(AsmFault::UnexpectedCombination),
            Some(op) => if is_byte_text(src.value) {
                Ok(seq![op, hex_text_value(src.value) as u8])
            } else {
                Err(AsmFault::InvalidHex)
            },
        }
    } else if src.indicator == '@' && dst.indicator == '@' {
        match (register_of(src.value), register_of(dst.value)) {
            (Some(a), Some(b)) => match move_opcode(a, b) {
                Some(op) => Ok(seq![op]),
                None => Err(AsmFault::UnexpectedCombination),
            },
            _ => Err(AsmFault::UnexpectedCombination),
        }
    } else {
        Err(AsmFault::UnexpectedCombination)
    }
}

/// What an instruction does to the encoding state.
pub enum Effect {
    /// Writes these words at the cursor and moves past them.
    Words(Seq<u8>),
    /// Records the cursor under this label.
    Label(Seq<char>),
    /// Moves the cursor to this origin.
    Origin(int),
    /// Nothing.
    Skip,
}

/// What an instruction does, or why it cannot be encoded. `JMP` is accepted
/// and, for now, writes nothing.
pub open spec fn effect(e: Instr) -> Result<Effect, AsmFault> {
    match e {
        Instr::NoOperand { keyword } => match keyword {
            Keyword::HLT => Ok(Effect::Words(seq![HLT_OPCODE])),
            Keyword::NOP => Ok(Effect::Words(seq![NOP_OPCODE])),
            _ => Err(AsmFault::UnexpectedExpression),
        },
        Instr::Unary { keyword, operand } => match keyword {
            Keyword::DEF => Ok(Effect::Label(operand.value)),
            Keyword::START => if is_byte_text(operand.value) {
                Ok(Effect::Origin(hex_text_value(operand.value)))
            } else {
                Err(AsmFault::InvalidHex)
            },
            Keyword::JMP => Ok(Effect::Skip),
            _ => Err(AsmFault::UnexpectedExpression),
        },
        Instr::Binary { keyword, operand1, operand2 } => match keyword {
            Keyword::MOV => match move_words(operand1, operand2) {
                Ok(w) => Ok(Effect::Words(w)),
                Err(f) => Err(f),
            },
            _ => Err(AsmFault::UnexpectedExpression),
        },
    }
}

/// The encoding state: write cursor, memory image and label table.
pub struct AsmState {
    pub cursor: int,
    pub image: Seq<u8>,
    pub labels: Map<Seq<char>, int>,
}

/// The image with `w` written from index `at`.
pub open spec fn write_words(image: Seq<u8>, at: int, w: Seq<u8>) -> Seq<u8> {
    Seq::new(image.len(), |j: int| if at <= j < at + w.len() { w[j - at] } else { image[j] })
}

/// One instruction applied to the state.
pub open spec fn step(st: AsmState, e: Instr) -> Result<AsmState, AsmFault> {
    match effect(e) {
        Err(f) => Err(f),
        Ok(Effect::Words(w)) => if 0 <= st.cursor && st.cursor + w.len() <= st.image.len() {
            Ok(
                AsmState {
                    cursor: st.cursor + w.len(),
                    image: write_words(st.image, st.cursor, w),
                    labels: st.labels,
                },
            )
        } else {
            Err(AsmFault::OutOfRange)
        },
        Ok(Effect::Label(name)) => Ok(
            AsmState { cursor: st.cursor, image: st.image, labels: st.labels.insert(name, st.cursor) },
        ),
        Ok(Effect::Origin(o)) => Ok(AsmState { cursor: o, image: st.image, labels: st.labels }),
        Ok(Effect::Skip) => Ok(st),
    }
}

/// The instructions applied in order from `st`; the first failure stops.
pub open spec fn run_from(st: AsmState, xs: Seq<Instr>) -> Result<AsmState, AsmFault>
    decreases xs.len(),
{
    if xs.len() == 0 {
        Ok(st)
    } else {
        match step(st, xs[0]) {
            Ok(next) => run_from(next, xs.drop_first()),
            Err(f) => Err(f),
        }
    }
}

/// The state an encoding starts from: cursor 0, an image of `NOP`s, no labels.
pub open spec fn initial_state() -> AsmState {
    AsmState {
        cursor: 0,
        image: Seq::new(MEMORY_SIZE as nat, |i: int| NOP_OPCODE),
        labels: Map::empty(),
    }
}

/// The label table of a list of (name, address) entries; a later entry for a
/// name replaces an earlier one.
pub open spec fn labels_of(v: Seq<(String, usize)>) -> Map<Seq<char>, int>
    decreases v.len(),
{
    if v.len() == 0 {
        Map::empty()
    } else {
        labels_of(v.drop_last()).insert(v.last().0@, v.last().1 as int)
    }
}

/// The name of a register, as written after `@`.
pub open spec fn register_name(r: Register) -> Seq<char> {
    match r {
        Register::A => seq!['A'],
        Register::B => seq!['B'],
        Register::C => seq!['C'],
        Register::O1 => seq!['O', '1'],
        Register::O2 => seq!['O', '2'],
        Register::ACC => seq!['A', 'C', 'C'],
    }
}

/// The operand `@r`.
pub open spec fn location_operand(r: Register) -> OperandModel {
    OperandModel { indicator: '@', value: register_name(r) }
}

/// Each register name names its register.
pub proof fn lemma_register_name(r: Register)
    ensures
        register_of(register_name(r)) == Some(r),
{
    let n = register_name(r);
    assert(n.len() >= 1 && (n.len() == 1 ==> n =~= seq![n[0]]));
    assert(seq!['A'][0] == 'A' && seq!['B'][0] == 'B' && seq!['C'][0] == 'C');
    assert(seq!['O', '1'][1] == '1' && seq!['O', '2'][1] == '2');
}

/// A move between two different writable registers is encoded as one word,
/// its opcode from the register move table, and no two such moves share an
/// opcode.
pub proof fn lemma_register_moves(a: Register, b: Register, c: Register, d: Register)
    requires
        a != Register::ACC,
        b != Register::ACC,
        c != Register::ACC,
        d != Register::ACC,
        a != b,
        c != d,
    ensures
        move_opcode(a, b) is Some,
        effect(
            Instr::Binary {
                keyword: Keyword::MOV,
                operand1: location_operand(a),
                operand2: location_operand(b),
            },
        ) == Ok::<Effect, AsmFault>(Effect::Words(seq![move_opcode(a, b).unwrap()])),
        (a != c || b != d) ==> move_opcode(a, b) != move_opcode(c, d),
{
    lemma_register_name(a);
    lemma_register_name(b);
}

/// Two results of encoding agree on the cursor and the image, or fail alike.
pub open spec fn same_layout(x: Result<AsmState, AsmFault>, y: Result<AsmState, AsmFault>) -> bool {
    match (x, y) {
        (Ok(s), Ok(t)) => s.cursor == t.cursor && s.image == t.image,
        (Err(f), Err(g)) => f == g,
        _ => false,
    }
}

/// Labels never change where or what the encoding writes.
pub proof fn lemma_run_ignores_labels(s: AsmState, t: AsmState, xs: Seq<Instr>)
    requires
        s.cursor == t.cursor,
        s.image == t.image,
    ensures
        same_layout(run_from(s, xs), run_from(t, xs)),
    decreases xs.len(),
{
    if xs.len() > 0 {
        match (step(s, xs[0]), step(t, xs[0])) {
            (Ok(s2), Ok(t2)) => {
                lemma_run_ignores_labels(s2, t2, xs.drop_first());
            },
            _ => {},
        }
    }
}

/// Encoding `a + b` is encoding `a` and then `b`.
pub proof fn lemma_run_concat(st: AsmState, a: Seq<Instr>, b: Seq<Instr>)
    ensures
        run_from(st, a + b) == match run_from(st, a) {
            Ok(m) => run_from(m, b),
            Err(f) => Err(f),
        },
    decreases a.len(),
{
    if a.len() == 0 {
        assert(a + b =~= b);
    } else {
        assert((a + b)[0] == a[0]);
        assert((a + b).drop_first() =~= a.drop_first() + b);
        match step(st, a[0]) {
            Ok(next) => {
                lemma_run_concat(next, a.drop_first(), b);
            },
            Err(_) => {},
        }
    }
}

/// A label definition writes nothing and leaves the cursor where it is, so
/// the instructions before and after it are placed exactly as they would be
/// without it.
pub proof fn lemma_label_is_transparent(
    st: AsmState,
    before: Seq<Instr>,
    label: OperandModel,
    after: Seq<Instr>,
)
    ensures
        step(st, Instr::Unary { keyword: Keyword::DEF, operand: label }) == Ok::<
            AsmState,
            AsmFault,
        >(AsmState { cursor: st.cursor, image: st.image, labels: st.labels.insert(label.value, st.cursor) }),
        same_layout(
            run_from(st, before + seq![Instr::Unary { keyword: Keyword::DEF, operand: label }] + after),
            run_from(st, before + after),
        ),
{
    let def = Instr::Unary { keyword: Keyword::DEF, operand: label };
    let tail = seq![def] + after;
    assert(before + seq![def] + after =~= before + tail);
    lemma_run_concat(st, before, tail);
    lemma_run_concat(st, before, after);
    match run_from(st, before) {
        Ok(m) => {
            assert(tail[0] == def);
            assert(tail.drop_first() =~= after);
            let m2 = AsmState {
                cursor: m.cursor,
                image: m.image,
                labels: m.labels.insert(label.value, m.cursor),
            };
            lemma_run_ignores_labels(m2, m, after);
        },
        Err(_) => {},
    }
}

/// A hexadecimal digit, upper or lower case, for a value below 16.
pub open spec fn digit_char(d: int, upper: bool) -> char {
    if d == 0 {
        '0'
    } else if d == 1 {
        '1'
    } else if d == 2 {
        '2'
    } else if d == 3 {
        '3'
    } else if d == 4 {
        '4'
    } else if d == 5 {
        '5'
    } else if d == 6 {
        '6'
    } else if d == 7 {
        '7'
    } else if d == 8 {
        '8'
    } else if d == 9 {
        '9'
    } else if d == 10 {
        if upper { 'A' } else { 'a' }
    } else if d == 11 {
        if upper { 'B' } else { 'b' }
    } else if d == 12 {
        if upper { 'C' } else { 'c' }
    } else if d == 13 {
        if upper { 'D' } else { 'd' }
    } else if d == 14 {
        if upper { 'E' } else { 'e' }
    } else {
        if upper { 'F' } else { 'f' }
    }
}

/// Two hexadecimal digits for a value below 256.
pub open spec fn two_digits(v: int, upper: bool) -> Seq<char> {
    seq![digit_char(v / 16, upper), digit_char(v % 16, upper)]
}

/// The text of the dump after its first `n` words: a header, then rows of
/// sixteen upper-case words, each followed by a space, every row after the
/// first starting on a new line with its lower-case address.
pub open spec fn dump_prefix(image: Seq<u8>, n: int) -> Seq<char>
    decreases n,
{
    if n <= 0 {
        "v3.0 hex words addressed\n00: "@
    } else {
        dump_prefix(image, n - 1) + two_digits(image[n - 1] as int, true) + seq![' '] + if n % 16
            == 0 && n < image.len() {
            seq!['\n'] + two_digits(n, false) + seq![':', ' ']
        } else {
            Seq::empty()
        }
    }
}

/// The hex dump of a memory image.
pub open spec fn hex_dump(image: Seq<u8>) -> Seq<char> {
    dump_prefix(image, image.len() as int)
}

fn digit(d: u8, upper: bool) -> (r: char)
    requires
        d < 16,
    ensures
        r == digit_char(d as int, upper),
{
    match d {
        0 => '0',
        1 => '1',
        2 => '2',
        3 => '3',
        4 => '4',
        5 => '5',
        6 => '6',
        7 => '7',
        8 => '8',
        9 => '9',
        10 => if upper { 'A' } else { 'a' },
        11 => if upper { 'B' } else { 'b' },
        12 => if upper { 'C' } else { 'c' },
        13 => if upper { 'D' } else { 'd' },
        14 => if upper { 'E' } else { 'e' },
        _ => if upper { 'F' } else { 'f' },
    }
}

fn push_two_digits(out: &mut String, v: u8, upper: bool)
    ensures
        final(out)@ == old(out)@ + two_digits(v as int, upper),
{
    push_char(out, digit(v / 16, upper));
    push_char(out, digit(v % 16, upper));
    assert(final(out)@ =~= old(out)@ + two_digits(v as int, upper));
}

/// The hex dump of a memory image of at most 256 words.
pub fn format_image(image: &Vec<u8>) -> (r: String)
    requires
        image@.len() <= MEMORY_SIZE,
    ensures
        r@ == hex_dump(image@),
{
    let mut out = String::new();
    out.append("v3.0 hex words addressed\n00: ");
    assert(out@ == dump_prefix(image@, 0));
    let mut i: usize = 0;
    while i < image.len()
        invariant
            i <= image@.len() <= MEMORY_SIZE,
            out@ == dump_prefix(image@, i as int),
        decreases image.len() - i,
    {
        push_two_digits(&mut out, image[i], true);
        push_char(&mut out, ' ');
        let n = i + 1;
        if n % 16 == 0 && n < image.len() {
            push_char(&mut out, '\n');
            push_two_digits(&mut out, n as u8, false);
            push_char(&mut out, ':');
            push_char(&mut out, ' ');
        }
        i = n;
        assert(out@ =~= dump_prefix(image@, i as int));
    }
    out
}

/// The value of a hex text that fits in a byte, if it is one.
pub fn parse_byte(t: &str) -> (r: Option<u8>)
    ensures
        is_byte_text(t@) ==> r == Some(hex_text_value(t@) as u8),
        !is_byte_text(t@) ==> r is None,
{
    let n = t.unicode_len();
    if n == 0 {
        return None;
    }
    let mut acc: u32 = 0;
    let mut i: usize = 0;
    while i < n
        invariant
            n == t@.len(),
            i <= n,
            forall|j: int| 0 <= j < i ==> is_hexit(#[trigger] t@[j]),
            hex_text_value(t@.take(i as int)) >= 0,
            acc == if hex_text_value(t@.take(i as int)) > 255 {
                256
            } else {
                hex_text_value(t@.take(i as int))
            },
        decreases n - i,
    {
        let c = t.get_char(i);
        if !is_hex_digit(c) {
            return None;
        }
        let d: u32 = hexit_of(c) as u32;
        proof {
            assert(t@.take(i + 1).drop_last() =~= t@.take(i as int));
        }
        acc = if acc > 255 {
            256
        } else {
            let v = acc * 16 + d;
            if v > 255 {
                256
            } else {
                v
            }
        };
        i = i + 1;
    }
    assert(t@.take(n as int) =~= t@);
    if acc > 255 {
        None
    } else {
        Some(acc as u8)
    }
}

fn hexit_of(c: char) -> (r: u8)
    requires
        is_hexit(c),
    ensures
        r as int == hexit_value(c),
        r < 16,
{
    if '0' <= c && c <= '9' {
        ((c as u32) - ('0' as u32)) as u8
    } else if 'a' <= c && c <= 'f' {
        ((c as u32) - ('a' as u32) + 10) as u8
    } else {
        ((c as u32) - ('A' as u32) + 10) as u8
    }
}


fn register_move_opcode(src: Register, dst: Register) -> (r: Option<u8>)
    ensures
        r == move_opcode(src, dst),
{
    match (src, dst) {
        (Register::A, Register::B) => Some(0x01),
        (Register::A, Register::C) => Some(0x02),
        (Register::A, Register::O1) => Some(0x03),
        (Register::A, Register::O2) => Some(0x04),
        (Register::B, Register::A) => Some(0x06),
        (Register::B, Register::C) => Some(0x07),
        (Register::B, Register::O1) => Some(0x08),
        (Register::B, Register::O2) => Some(0x09),
        (Register::C, Register::A) => Some(0x0B),
        (Register::C, Register::B) => Some(0x0C),
        (Register::C, Register::O1) => Some(0x0D),
        (Register::C, Register::O2) => Some(0x0E),
        (Register::O1, Register::A) => Some(0x10),
        (Register::O1, Register::B) => Some(0x11),
        (Register::O1, Register::C) => Some(0x12),
        (Register::O1, Register::O2) => Some(0x13),
        (Register::O2, Register::A) => Some(0x15),
        (Register::O2, Register::B) => Some(0x16),
        (Register::O2, Register::C) => Some(0x17),
        (Register::O2, Register::O1) => Some(0x18),
        (Register::ACC, Register::A) => Some(0x27),
        (Register::ACC, Register::B) => Some(0x28),
        (Register::ACC, Register::C) => Some(0x29),
        (Register::ACC, Register::O1) => Some(0x2A),
        (Register::ACC, Register::O2) => Some(0x2B),
        _ => None,
    }
}

fn offset_of(r: Register) -> (o: Option<u8>)
    ensures
        o == register_offset(r),
{
    match r {
        Register::A => Some(0),
        Register::B => Some(1),
        Register::C => Some(2),
        Register::O1 => Some(3),
        Register::O2 => Some(4),
        Register::ACC => None,
    }
}

fn byte_opcode(immediate: bool, dst: &Operand) -> (r: Option<u8>)
    ensures
        r == byte_move_opcode(if immediate { '#' } else { '$' }, dst@),
{
    if dst.indicator == '$' {
        return Some(if immediate { 0x26 } else { 0x1F });
    }
    if dst.indicator != '@' {
        return None;
    }
    match Register::from_name(dst.value.as_str()) {
        Some(reg) => match offset_of(reg) {
            Some(off) => Some(if immediate { 0x21 + off } else { 0x1A + off }),
            None => None,
        },
        None => None,
    }
}

/// The words of `MOV src,dst`.
fn encode_move(src: &Operand, dst: &Operand) -> (r: Result<Vec<u8>, AssemblerError>)
    ensures
        match move_words(src@, dst@) {
            Ok(w) => r matches Ok(v) && v@ == w,
            Err(f) => r matches Err(e) && e.message@ == asm_fault_message(f),
        },
{
    if src.indicator == '#' || src.indicator == '$' {
        let op = match byte_opcode(src.indicator == '#', dst) {
            Some(op) => op,
            None => {
                return Err(asm_error(AsmFault::UnexpectedCombination));
            },
        };
        let byte = match parse_byte(src.value.as_str()) {
            Some(b) => b,
            None => {
                return Err(asm_error(AsmFault::InvalidHex));
            },
        };
        let mut v: Vec<u8> = Vec::new();
        v.push(op);
        v.push(byte);
        assert(v@ =~= seq![op, byte]);
        return Ok(v);
    }
    if src.indicator == '@' && dst.indicator == '@' {
        match (Register::from_name(src.value.as_str()), Register::from_name(dst.value.as_str())) {
            (Some(a), Some(b)) => match register_move_opcode(a, b) {
                Some(op) => {
                    let mut v: Vec<u8> = Vec::new();
                    v.push(op);
                    assert(v@ =~= seq![op]);
                    return Ok(v);
                },
                None => {},
            },
            _ => {},
        }
    }
    Err(asm_error(AsmFault::UnexpectedCombination))
}

/// Writes `w` into `image` from index `at`.
fn write_at(image: &mut Vec<u8>, at: usize, w: &Vec<u8>)
    requires
        at + w@.len() <= old(image)@.len(),
    ensures
        final(image)@ == write_words(old(image)@, at as int, w@),
{
    let ghost before = image@;
    let len = image.len();
    let mut j: usize = 0;
    while j < w.len()
        invariant
            len == before.len(),
            at + w@.len() <= before.len(),
            image@.len() == before.len(),
            j <= w@.len(),
            forall|k: int|
                0 <= k < before.len() ==> #[trigger] image@[k] == if at <= k < at + j {
                    w@[k - at]
                } else {
                    before[k]
                },
        decreases w.len() - j,
    {
        image.set(at + j, w[j]);
        j = j + 1;
    }
    assert(image@ =~= write_words(before, at as int, w@));
}

/// What an assembler result says, by what the instruction does.
pub open spec fn expression_result(
    e: Instr,
    r: Result<Vec<u8>, AssemblerError>,
    before: AsmState,
    after: AsmState,
) -> bool {
    match effect(e) {
        Err(f) => r matches Err(err) && err.message@ == asm_fault_message(f),
        Ok(Effect::Words(w)) => r matches Ok(v) && v@ == w && after == before,
        Ok(_) => r matches Ok(v) && v@.len() == 0 && step(before, e) == Ok::<AsmState, AsmFault>(
            after,
        ),
    }
}

/// Encodes instructions into a memory image.
#[derive(Debug)]
pub struct Assembler {
    pub expressions: Vec<Expressions>,
    pub words: Vec<(String, usize)>,
    pub index: usize,
    pub assembled: Vec<u8>,
}

impl Assembler {
    /// The encoding state: the cursor, the image and the label table.
    pub open spec fn state(&self) -> AsmState {
        AsmState { cursor: self.index as int, image: self.assembled@, labels: labels_of(self.words@) }
    }

    /// An assembler for `expressions`, with an empty image and label table.
    pub fn new(expressions: Vec<Expressions>) -> (r: Assembler)
        ensures
            r.expressions@ == expressions@,
            r.words@.len() == 0,
            r.assembled@.len() == 0,
    {
        Assembler { expressions, words: Vec::new(), index: 0, assembled: Vec::new() }
    }

    /// The address recorded for a label, if it was defined.
    pub fn label_address(&self, name: &str) -> (r: Option<usize>)
        ensures
            r matches Some(a) ==> labels_of(self.words@).contains_key(name@) && labels_of(
                self.words@,
            )[name@] == a,
            r is None ==> !labels_of(self.words@).contains_key(name@),
    {
        let ghost v = self.words@;
        let mut i: usize = self.words.len();
        assert(v.take(i as int) =~= v);
        while i > 0
            invariant
                v == self.words@,
                i <= v.len(),
                labels_of(v).contains_key(name@) == labels_of(v.take(i as int)).contains_key(name@),
                labels_of(v).contains_key(name@) ==> labels_of(v)[name@] == labels_of(
                    v.take(i as int),
                )[name@],
            decreases i,
        {
            assert(v.take(i as int).drop_last() =~= v.take(i - 1));
            if text_eq(self.words[i - 1].0.as_str(), name) {
                return Some(self.words[i - 1].1);
            }
            i = i - 1;
        }
        None
    }

    fn assemble_no_operand_expression(&mut self, expr: &Expressions) -> (r: Result<
        Vec<u8>,
        AssemblerError,
    >)
        ensures
            final(self).expressions@ == old(self).expressions@,
            final(self).index == old(self).index,
            expr@ is NoOperand ==> expression_result(expr@, r, old(self).state(), final(self).state()),
            !(expr@ is NoOperand) ==> (r matches Err(e) && e.message@ == asm_fault_message(
                AsmFault::UnexpectedExpression,
            )),
    {
        match expr {
            Expressions::NoOperandExpression { keyword } => {
                let mut v: Vec<u8> = Vec::new();
                match keyword {
                    Keyword::HLT => {
                        v.push(HLT_OPCODE);
                    },
                    Keyword::NOP => {
                        v.push(NOP_OPCODE);
                    },
                    _ => {
                        return Err(asm_error(AsmFault::UnexpectedExpression));
                    },
                }
                assert(v@ =~= seq![v@[0]]);
                Ok(v)
            },
            _ => Err(asm_error(AsmFault::UnexpectedExpression)),
        }
    }

    fn assemble_unary_expression(&mut self, expr: &Expressions) -> (r: Result<
        Vec<u8>,
        AssemblerError,
    >)
        requires
            old(self).index <= MEMORY_SIZE,
        ensures
            final(self).expressions@ == old(self).expressions@,
            final(self).index <= MEMORY_SIZE,
            expr@ is Unary ==> expression_result(expr@, r, old(self).state(), final(self).state()),
            !(expr@ is Unary) ==> (r matches Err(e) && e.message@ == asm_fault_message(
                AsmFault::UnexpectedExpression,
            )),
    {
        match expr {
            Expressions::UnaryExpression { keyword, operand } => {
                match keyword {
                    Keyword::DEF => {
                        let ghost w0 = self.words@;
                        self.words.push((owned(operand.value.as_str()), self.index));
                        assert(self.words@.drop_last() =~= w0);
                        Ok(Vec::new())
                    },
                    Keyword::START => {
                        match parse_byte(operand.value.as_str()) {
                            Some(origin) => {
                                self.index = origin as usize;
                                Ok(Vec::new())
                            },
                            None => Err(asm_error(AsmFault::InvalidHex)),
                        }
                    },
                    Keyword::JMP => Ok(Vec::new()),
                    _ => Err(asm_error(AsmFault::UnexpectedExpression)),
                }
            },
            _ => Err(asm_error(AsmFault::UnexpectedExpression)),
        }
    }

    fn assemble_binary_expression(&mut self, expr: &Expressions) -> (r: Result<
        Vec<u8>,
        AssemblerError,
    >)
        ensures
            final(self).expressions@ == old(self).expressions@,
            final(self).index == old(self).index,
            expr@ is Binary ==> expression_result(expr@, r, old(self).state(), final(self).state()),
            !(expr@ is Binary) ==> (r matches Err(e) && e.message@ == asm_fault_message(
                AsmFault::UnexpectedExpression,
            )),
    {
        match expr {
            Expressions::BinaryExpression { keyword, operand1, operand2, .. } => {
                if *keyword == Keyword::MOV {
                    encode_move(operand1, operand2)
                } else {
                    Err(asm_error(AsmFault::UnexpectedExpression))
                }
            },
            _ => Err(asm_error(AsmFault::UnexpectedExpression)),
        }
    }

    /// Applies one instruction: a label or an origin changes the state, and
    /// the words to write are returned.
    pub fn assemble_expression(&mut self, expr: &Expressions) -> (r: Result<
        Vec<u8>,
        AssemblerError,
    >)
        requires
            old(self).index <= MEMORY_SIZE,
        ensures
            final(self).expressions@ == old(self).expressions@,
            final(self).index <= MEMORY_SIZE,
            expression_result(expr@, r, old(self).state(), final(self).state()),
    {
        match expr {
            Expressions::NoOperandExpression { .. } => self.assemble_no_operand_expression(expr),
            Expressions::UnaryExpression { .. } => self.assemble_unary_expression(expr),
            Expressions::BinaryExpression { .. } => self.assemble_binary_expression(expr),
        }
    }

    /// Encodes all the instructions, in order, into a fresh image of
    /// `MEMORY_SIZE` words filled with `NOP`, and returns its hex dump. The
    /// first instruction that cannot be encoded, or that would write past
    /// the end of the image, stops the encoding with an error.
    pub fn assemble(&mut self) -> (r: Result<String, AssemblerError>)
        ensures
            final(self).expressions@ == old(self).expressions@,
            match run_from(initial_state(), instrs(old(self).expressions@)) {
                Ok(st) => r matches Ok(text) && text@ == hex_dump(st.image)
                    && final(self).assembled@ == st.image
                    && labels_of(final(self).words@) == st.labels,
                Err(f) => r matches Err(e) && e.message@ == asm_fault_message(f),
            },
    {
        let ghost xs = instrs(self.expressions@);
        let mut image: Vec<u8> = Vec::new();
        while image.len() < MEMORY_SIZE
            invariant
                image@.len() <= MEMORY_SIZE,
                forall|k: int| 0 <= k < image@.len() ==> #[trigger] image@[k] == NOP_OPCODE,
            decreases MEMORY_SIZE - image.len(),
        {
            image.push(NOP_OPCODE);
        }
        self.assembled = image;
        self.words = Vec::new();
        self.index = 0;
        assert(self.state().image =~= initial_state().image);
        assert(self.state().labels =~= initial_state().labels);
        assert(xs.skip(0) =~= xs);
        let n = self.expressions.len();
        let mut i: usize = 0;
        while i < n
            invariant
                n == self.expressions@.len(),
                xs == instrs(self.expressions@),
                self.expressions@ == old(self).expressions@,
                i <= n,
                self.index <= MEMORY_SIZE,
                self.assembled@.len() == MEMORY_SIZE,
                run_from(initial_state(), xs) == run_from(self.state(), xs.skip(i as int)),
            decreases n - i,
        {
            let expr = self.expressions[i].duplicate();
            let ghost before = self.state();
            assert(xs.skip(i as int)[0] == expr@);
            assert(xs.skip(i as int).drop_first() =~= xs.skip(i + 1));
            let words = match self.assemble_expression(&expr) {
                Ok(w) => w,
                Err(e) => {
                    return Err(e);
                },
            };
            if words.len() > 0 {
                if self.index + words.len() > MEMORY_SIZE {
                    return Err(asm_error(AsmFault::OutOfRange));
                }
                write_at(&mut self.assembled, self.index, &words);
                self.index = self.index + words.len();
            }
            i = i + 1;
        }
        Ok(format_image(&self.assembled))
    }
}

} // verus!
