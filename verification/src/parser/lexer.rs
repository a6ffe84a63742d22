//! Splitting a statement into tokens.
//!
//! The input is bytes. White space and the comments `# ...`, `-- ...` and
//! `/* ... */` separate tokens; two dashes need white space behind them to open one. What a version comment `/*!##### ... */` holds is
//! read as part of the statement, unless it asks for a later server.

use vstd::prelude::*;

use crate::numeric;
use crate::parser::error::{ParseError, ParseErrorView};
use crate::parser::token::{Token, TokenView};
use crate::text;

verus! {

/// The version of the server, as version comments give it.
pub const SERVER_VERSION_ID: u32 = 80000;

// ---------------------------------------------------------------------------
// Characters
// ---------------------------------------------------------------------------
/// Byte `i` of the input is `c`.
pub open spec fn at(input: Seq<u8>, i: int, c: u8) -> bool {
    0 <= i < input.len() && input[i] == c
}

/// White space between tokens.
pub open spec fn blank(c: u8) -> bool {
    c == 0x20 || c == 0x09 || c == 0x0a || c == 0x0c || c == 0x0d
}

pub open spec fn digit(c: u8) -> bool {
    0x30 <= c <= 0x39
}

pub open spec fn hex_digit(c: u8) -> bool {
    digit(c) || 0x41 <= c <= 0x46 || 0x61 <= c <= 0x66
}

pub open spec fn bit_digit(c: u8) -> bool {
    c == 0x30 || c == 0x31
}

/// The bytes that an identifier may start with. Every byte of a character beyond
/// ASCII is one of them.
pub open spec fn ident_start(c: u8) -> bool {
    0x41 <= c <= 0x5a || 0x61 <= c <= 0x7a || c == 0x5f || c == 0x24 || c >= 0x80
}

/// The bytes that an identifier may go on with.
pub open spec fn ident_cont(c: u8) -> bool {
    ident_start(c) || digit(c)
}

fn is_blank(c: u8) -> (r: bool)
    ensures
        r == blank(c),
{
    c == 0x20 || c == 0x09 || c == 0x0a || c == 0x0c || c == 0x0d
}

fn is_digit(c: u8) -> (r: bool)
    ensures
        r == digit(c),
{
    0x30 <= c && c <= 0x39
}

fn is_hex_digit(c: u8) -> (r: bool)
    ensures
        r == hex_digit(c),
{
    is_digit(c) || (0x41 <= c && c <= 0x46) || (0x61 <= c && c <= 0x66)
}

fn is_bit_digit(c: u8) -> (r: bool)
    ensures
        r == bit_digit(c),
{
    c == 0x30 || c == 0x31
}

fn is_ident_start(c: u8) -> (r: bool)
    ensures
        r == ident_start(c),
{
    (0x41 <= c && c <= 0x5a) || (0x61 <= c && c <= 0x7a) || c == 0x5f || c == 0x24 || c >= 0x80
}

fn is_ident_cont(c: u8) -> (r: bool)
    ensures
        r == ident_cont(c),
{
    is_ident_start(c) || is_digit(c)
}

// ---------------------------------------------------------------------------
// Runs
// ---------------------------------------------------------------------------
/// The kinds of bytes that come in runs.
#[derive(Clone, Copy, PartialEq, Eq, Structural)]
pub enum Run {
    Digits,
    HexDigits,
    BitDigits,
    /// What an identifier goes on with.
    Identifier,
    /// The same, and dots.
    Variable,
}

/// `c` belongs to a run.
pub open spec fn belongs(run: Run, c: u8) -> bool {
    match run {
        Run::Digits => digit(c),
        Run::HexDigits => hex_digit(c),
        Run::BitDigits => bit_digit(c),
        Run::Identifier => ident_cont(c),
        Run::Variable => ident_cont(c) || c == 0x2e,
    }
}

/// Where the run from `i` on ends.
pub open spec fn run_end(input: Seq<u8>, i: int, run: Run) -> int
    decreases input.len() - i,
{
    if 0 <= i < input.len() && belongs(run, input[i]) {
        run_end(input, i + 1, run)
    } else {
        i
    }
}

/// Whether `c` belongs to a run.
fn is_in_run(run: Run, c: u8) -> (r: bool)
    ensures
        r == belongs(run, c),
{
    match run {
        Run::Digits => is_digit(c),
        Run::HexDigits => is_hex_digit(c),
        Run::BitDigits => is_bit_digit(c),
        Run::Identifier => is_ident_cont(c),
        Run::Variable => is_ident_cont(c) || c == 0x2e,
    }
}

// ---------------------------------------------------------------------------
// What separates tokens
// ---------------------------------------------------------------------------
/// The start of the line behind `i`.
pub open spec fn line_end(input: Seq<u8>, i: int) -> int
    decreases input.len() - i,
{
    if i >= input.len() || i < 0 {
        i
    } else if input[i] == 0x0a {
        i + 1
    } else {
        line_end(input, i + 1)
    }
}

/// The position behind the next `*/`, or the end.
pub open spec fn comment_end(input: Seq<u8>, i: int) -> int
    decreases input.len() - i,
{
    if i >= input.len() || i < 0 {
        i
    } else if at(input, i, 0x2a) && at(input, i + 1, 0x2f) {
        i + 2
    } else {
        comment_end(input, i + 1)
    }
}

/// The version that the digits from `i` to `end` ask for; no digits ask for
/// nothing.
pub open spec fn gate(input: Seq<u8>, i: int, end: int) -> nat {
    numeric::digits_value(text::ascii_chars(input.subrange(i, end)))
}

/// Two dashes at `i` open a comment: white space, or the end, is behind them.
pub open spec fn opens_line_comment(input: Seq<u8>, i: int) -> bool {
    at(input, i, 0x2d) && at(input, i + 1, 0x2d) && (i + 2 >= input.len() || blank(input[i + 2]))
}

/// Where the separator at `i` ends; `i` itself if there is none.
pub open spec fn separator_end(input: Seq<u8>, i: int) -> int {
    if i < 0 || i >= input.len() {
        i
    } else if blank(input[i]) {
        i + 1
    } else if input[i] == 0x23 {
        line_end(input, i)
    } else if opens_line_comment(input, i) {
        line_end(input, i + 2)
    } else if input[i] == 0x2f && at(input, i + 1, 0x2a) && at(input, i + 2, 0x21) {
        let end = run_end(input, i + 3, Run::Digits);
        if gate(input, i + 3, end) > SERVER_VERSION_ID {
            comment_end(input, end)
        } else {
            end
        }
    } else if input[i] == 0x2a && at(input, i + 1, 0x2f) {
        i + 2
    } else if input[i] == 0x2f && at(input, i + 1, 0x2a) {
        comment_end(input, i + 2)
    } else {
        i
    }
}

/// The number of bytes from `i` on.
pub open spec fn left(input: Seq<u8>, i: int) -> nat {
    if i < input.len() {
        (input.len() - i) as nat
    } else {
        0
    }
}

/// Where the separators from `i` on end.
pub open spec fn trivia_end(input: Seq<u8>, i: int) -> int
    decreases left(input, i),
{
    let next = separator_end(input, i);
    if i < next {
        trivia_end(input, next)
    } else {
        i
    }
}

// ---------------------------------------------------------------------------
// Quoted text
// ---------------------------------------------------------------------------
/// What stands for itself between two `delim`s, from `i` on, and where the
/// closing one ends. The delimiter written twice stands for one. `None` if it is
/// not closed.
pub open spec fn delimited(input: Seq<u8>, i: int, delim: u8) -> Option<(Seq<u8>, int)>
    decreases input.len() - i,
{
    if i >= input.len() || i < 0 {
        None
    } else if input[i] != delim {
        led(seq![input[i]], delimited(input, i + 1, delim))
    } else if at(input, i + 1, delim) {
        led(seq![delim], delimited(input, i + 2, delim))
    } else {
        Some((seq![], i + 1))
    }
}

/// A result with `front` put before its text.
pub open spec fn led(front: Seq<u8>, rest: Option<(Seq<u8>, int)>) -> Option<(Seq<u8>, int)> {
    match rest {
        Some((s, end)) => Some((front + s, end)),
        None => None,
    }
}

/// What a backslash and `c` stand for. `\%` and `\_` keep the backslash, so that
/// they reach a `LIKE` pattern; other characters stand for themselves.
pub open spec fn escaped(c: u8) -> Seq<u8> {
    if c == 0x30 {
        seq![0u8]
    } else if c == 0x62 {
        seq![0x08u8]
    } else if c == 0x6e {
        seq![0x0au8]
    } else if c == 0x72 {
        seq![0x0du8]
    } else if c == 0x74 {
        seq![0x09u8]
    } else if c == 0x5a {
        seq![0x1au8]
    } else if c == 0x25 || c == 0x5f {
        seq![0x5cu8, c]
    } else {
        seq![c]
    }
}

/// What a string literal stands for, from just behind its opening quote on, and
/// where its closing quote ends. `None` if it is not closed.
pub open spec fn literal(input: Seq<u8>, i: int, delim: u8) -> Option<(Seq<u8>, int)>
    decreases input.len() - i,
{
    if i >= input.len() || i < 0 {
        None
    } else if input[i] == delim {
        if at(input, i + 1, delim) {
            led(seq![delim], literal(input, i + 2, delim))
        } else {
            Some((seq![], i + 1))
        }
    } else if input[i] == 0x5c {
        if i + 1 < input.len() {
            led(escaped(input[i + 1]), literal(input, i + 2, delim))
        } else {
            None
        }
    } else {
        led(seq![input[i]], literal(input, i + 1, delim))
    }
}

// ---------------------------------------------------------------------------
// Literals
// ---------------------------------------------------------------------------
/// The number that binary digits denote.
pub open spec fn bits_value(bits: Seq<u8>) -> nat
    decreases bits.len(),
{
    if bits.len() == 0 {
        0
    } else {
        2 * bits_value(bits.drop_last()) + (bits.last() - 0x30) as nat
    }
}

/// The upper-case hexadecimal digit for `n`.
pub open spec fn upper_hex(n: nat) -> char {
    if n < 10 {
        (48 + n) as char
    } else {
        (55 + n) as char
    }
}

/// The low `count` hexadecimal digits of `n`.
pub open spec fn hex_text(n: nat, count: nat) -> Seq<char>
    decreases count,
{
    if count == 0 {
        seq![]
    } else {
        hex_text(n / 16, (count - 1) as nat).push(upper_hex(n % 16))
    }
}

/// A bit literal as the hexadecimal digits of its bytes: two for every eight bits
/// or part of eight.
pub open spec fn bits_to_hex(bits: Seq<u8>) -> Seq<char> {
    hex_text(bits_value(bits), 2 * ((bits.len() + 7) / 8))
}

/// Where the number at `i` ends: digits, a fraction, an exponent.
pub open spec fn number_end(input: Seq<u8>, i: int) -> int {
    let whole = run_end(input, i, Run::Digits);
    let fraction = if at(input, whole, 0x2e) {
        run_end(input, whole + 1, Run::Digits)
    } else {
        whole
    };
    if at(input, fraction, 0x65) || at(input, fraction, 0x45) {
        let sign = if at(input, fraction + 1, 0x2b) || at(input, fraction + 1, 0x2d) {
            fraction + 2
        } else {
            fraction + 1
        };
        run_end(input, sign, Run::Digits)
    } else {
        fraction
    }
}

/// The hexadecimal digits of `0x...`, an odd number of them with a zero in front.
pub open spec fn even_hex(digits: Seq<u8>) -> Seq<char> {
    if digits.len() % 2 == 1 {
        seq!['0'] + text::ascii_chars(digits)
    } else {
        text::ascii_chars(digits)
    }
}

/// The number, or the `0x...` or `0b...` literal, at `i`, and where it ends.
pub open spec fn number_at(input: Seq<u8>, i: int) -> (TokenView, int) {
    if at(input, i, 0x30) && (at(input, i + 1, 0x78) || at(input, i + 1, 0x58)) && i + 2
        < input.len() && hex_digit(input[i + 2]) {
        let end = run_end(input, i + 2, Run::HexDigits);
        (TokenView::Blob(even_hex(input.subrange(i + 2, end))), end)
    } else if at(input, i, 0x30) && (at(input, i + 1, 0x62) || at(input, i + 1, 0x42)) && i + 2
        < input.len() && bit_digit(input[i + 2]) {
        let end = run_end(input, i + 2, Run::BitDigits);
        (TokenView::Blob(bits_to_hex(input.subrange(i + 2, end))), end)
    } else {
        let end = number_end(input, i);
        (TokenView::Num(text::ascii_chars(input.subrange(i, end))), end)
    }
}

/// The message for a hexadecimal string of odd length.
pub open spec fn odd_hex(digits: Seq<char>) -> Seq<char> {
    "hex literal X'"@ + digits + "' must contain an even number of digits"@
}

/// The literal `X'...'` at `i`, and where it ends.
pub open spec fn hex_string_at(input: Seq<u8>, i: int) -> Result<(TokenView, int), ParseErrorView> {
    let end = run_end(input, i + 2, Run::HexDigits);
    let digits = text::ascii_chars(input.subrange(i + 2, end));
    if !at(input, end, 0x27) {
        Err(ParseErrorView::Unterminated { offset: i, kind: "hex literal"@ })
    } else if digits.len() % 2 == 1 {
        Err(ParseErrorView::Unsupported(odd_hex(digits)))
    } else {
        Ok((TokenView::Blob(digits), end + 1))
    }
}

/// The literal `b'...'` at `i`, and where it ends.
pub open spec fn bit_string_at(input: Seq<u8>, i: int) -> Result<(TokenView, int), ParseErrorView> {
    let end = run_end(input, i + 2, Run::BitDigits);
    if !at(input, end, 0x27) {
        Err(ParseErrorView::Unterminated { offset: i, kind: "bit literal"@ })
    } else {
        Ok((TokenView::Blob(bits_to_hex(input.subrange(i + 2, end))), end + 1))
    }
}

/// A variable's name without a scope in front.
pub open spec fn without_scope(raw: Seq<char>) -> Seq<char> {
    let dot = text::char_pos(raw, '.', 0);
    let scope = text::lowered(raw.take(dot));
    if dot < raw.len() && (scope == "session"@ || scope == "global"@ || scope == "local"@) {
        raw.skip(dot + 1)
    } else {
        raw
    }
}

/// The system variable at `i`, and where it ends.
pub open spec fn variable_at(input: Seq<u8>, i: int) -> (TokenView, int) {
    let end = run_end(input, i + 2, Run::Variable);
    (TokenView::SystemVar(without_scope(text::lossy_text(input.subrange(i + 2, end)))), end)
}

/// The word at `i`, and where it ends.
pub open spec fn word_at(input: Seq<u8>, i: int) -> (TokenView, int) {
    let end = run_end(input, i, Run::Identifier);
    (TokenView::Word(text::lossy_text(input.subrange(i, end))), end)
}

/// The mark at `i`, one of up to three characters, and where it ends.
pub open spec fn mark_at(input: Seq<u8>, i: int) -> (TokenView, int) {
    let c = input[i];
    if c == 0x28 {
        (TokenView::LParen, i + 1)
    } else if c == 0x29 {
        (TokenView::RParen, i + 1)
    } else if c == 0x2c {
        (TokenView::Comma, i + 1)
    } else if c == 0x2e {
        (TokenView::Dot, i + 1)
    } else if c == 0x3b {
        (TokenView::Semicolon, i + 1)
    } else if c == 0x3d {
        (TokenView::Eq, i + 1)
    } else if c == 0x2a {
        (TokenView::Star, i + 1)
    } else if c == 0x3c {
        if at(input, i + 1, 0x3d) {
            if at(input, i + 2, 0x3e) {
                (TokenView::Spaceship, i + 3)
            } else {
                (TokenView::Le, i + 2)
            }
        } else if at(input, i + 1, 0x3e) {
            (TokenView::Ne, i + 2)
        } else if at(input, i + 1, 0x3c) {
            (TokenView::ShiftLeft, i + 2)
        } else {
            (TokenView::Lt, i + 1)
        }
    } else if c == 0x3e {
        if at(input, i + 1, 0x3d) {
            (TokenView::Ge, i + 2)
        } else if at(input, i + 1, 0x3e) {
            (TokenView::ShiftRight, i + 2)
        } else {
            (TokenView::Gt, i + 1)
        }
    } else if c == 0x21 && at(input, i + 1, 0x3d) {
        (TokenView::Ne, i + 2)
    } else if c == 0x26 && at(input, i + 1, 0x26) {
        (TokenView::AmpAmp, i + 2)
    } else if c == 0x2d {
        if at(input, i + 1, 0x3e) {
            if at(input, i + 2, 0x3e) {
                (TokenView::ArrowDouble, i + 3)
            } else {
                (TokenView::Arrow, i + 2)
            }
        } else {
            (TokenView::Minus, i + 1)
        }
    } else if c == 0x2b {
        (TokenView::Plus, i + 1)
    } else if c == 0x3f {
        (TokenView::Param, i + 1)
    } else {
        (TokenView::Other(c as char), i + 1)
    }
}

/// The token at `i`, and where it ends.
pub open spec fn token_at(input: Seq<u8>, i: int) -> Result<(TokenView, int), ParseErrorView> {
    let c = input[i];
    if digit(c) || (c == 0x2e && i + 1 < input.len() && digit(input[i + 1])) {
        Ok(number_at(input, i))
    } else if c == 0x40 && at(input, i + 1, 0x40) {
        Ok(variable_at(input, i))
    } else if c == 0x60 {
        match delimited(input, i + 1, 0x60) {
            Some((s, end)) => Ok((TokenView::QuotedIdent(text::lossy_text(s)), end)),
            None => Err(ParseErrorView::Unterminated { offset: i, kind: "identifier"@ }),
        }
    } else if c == 0x22 || c == 0x27 {
        match literal(input, i + 1, c) {
            Some((s, end)) => Ok((TokenView::Str(text::lossy_text(s)), end)),
            None => Err(ParseErrorView::Unterminated { offset: i, kind: "string literal"@ }),
        }
    } else if (c == 0x78 || c == 0x58) && at(input, i + 1, 0x27) {
        hex_string_at(input, i)
    } else if (c == 0x62 || c == 0x42) && at(input, i + 1, 0x27) {
        bit_string_at(input, i)
    } else if ident_start(c) {
        Ok(word_at(input, i))
    } else {
        Ok(mark_at(input, i))
    }
}

/// The tokens from `i` on, each with the position at which it starts.
pub open spec fn tokens_from(input: Seq<u8>, i: int) -> Result<
    Seq<(TokenView, int)>,
    ParseErrorView,
>
    decreases left(input, i),
{
    let start = trivia_end(input, i);
    if start >= input.len() || start < i {
        Ok(seq![])
    } else {
        match token_at(input, start) {
            Err(e) => Err(e),
            Ok((token, end)) => if end <= start {
                Ok(seq![])
            } else {
                match tokens_from(input, end) {
                    Err(e) => Err(e),
                    Ok(rest) => Ok(seq![(token, start)] + rest),
                }
            },
        }
    }
}

// ---------------------------------------------------------------------------
// Every piece ends behind its start
// ---------------------------------------------------------------------------
proof fn run_moves(input: Seq<u8>, i: int, run: Run)
    ensures
        i <= run_end(input, i, run),
        i <= input.len() ==> run_end(input, i, run) <= input.len(),
        0 <= i < input.len() && belongs(run, input[i]) ==> i < run_end(input, i, run),
    decreases input.len() - i,
{
    if 0 <= i < input.len() && belongs(run, input[i]) {
        run_moves(input, i + 1, run);
    }
}

proof fn line_moves(input: Seq<u8>, i: int)
    ensures
        i <= line_end(input, i),
        0 <= i <= input.len() ==> line_end(input, i) <= input.len(),
        0 <= i < input.len() ==> i < line_end(input, i),
    decreases input.len() - i,
{
    if 0 <= i < input.len() && input[i] != 0x0a {
        line_moves(input, i + 1);
    }
}

proof fn comment_moves(input: Seq<u8>, i: int)
    ensures
        i <= comment_end(input, i),
        0 <= i <= input.len() ==> comment_end(input, i) <= input.len(),
    decreases input.len() - i,
{
    if 0 <= i < input.len() && !(at(input, i, 0x2a) && at(input, i + 1, 0x2f)) {
        comment_moves(input, i + 1);
    }
}

proof fn separator_moves(input: Seq<u8>, i: int)
    requires
        0 <= i <= input.len(),
    ensures
        i <= separator_end(input, i) <= input.len(),
{
    line_moves(input, i);
    line_moves(input, i + 2);
    comment_moves(input, i + 2);
    if at(input, i, 0x2f) && at(input, i + 1, 0x2a) && at(input, i + 2, 0x21) {
        run_moves(input, i + 3, Run::Digits);
        comment_moves(input, run_end(input, i + 3, Run::Digits));
    }
}

proof fn trivia_moves(input: Seq<u8>, i: int)
    requires
        0 <= i <= input.len(),
    ensures
        i <= trivia_end(input, i) <= input.len(),
    decreases left(input, i),
{
    separator_moves(input, i);
    let next = separator_end(input, i);
    if i < next {
        trivia_moves(input, next);
    }
}

proof fn delimited_moves(input: Seq<u8>, i: int, delim: u8)
    ensures
        delimited(input, i, delim) matches Some((_, end)) ==> i < end <= input.len(),
    decreases left(input, i),
{
    if 0 <= i < input.len() {
        delimited_moves(input, i + 1, delim);
        delimited_moves(input, i + 2, delim);
    }
}

proof fn literal_moves(input: Seq<u8>, i: int, delim: u8)
    ensures
        literal(input, i, delim) matches Some((_, end)) ==> i < end <= input.len(),
    decreases left(input, i),
{
    if 0 <= i < input.len() {
        literal_moves(input, i + 1, delim);
        literal_moves(input, i + 2, delim);
    }
}

proof fn number_moves(input: Seq<u8>, i: int)
    requires
        0 <= i < input.len(),
        digit(input[i]) || (input[i] == 0x2e && i + 1 < input.len() && digit(input[i + 1])),
    ensures
        i < number_end(input, i) <= input.len(),
        i < number_at(input, i).1 <= input.len(),
{
    run_moves(input, i, Run::Digits);
    let whole = run_end(input, i, Run::Digits);
    run_moves(input, whole + 1, Run::Digits);
    let fraction = if at(input, whole, 0x2e) {
        run_end(input, whole + 1, Run::Digits)
    } else {
        whole
    };
    run_moves(input, fraction + 1, Run::Digits);
    run_moves(input, fraction + 2, Run::Digits);
    run_moves(input, i + 2, Run::HexDigits);
    run_moves(input, i + 2, Run::BitDigits);
}

/// A token ends behind its start, within the input.
pub proof fn token_moves(input: Seq<u8>, i: int)
    requires
        0 <= i < input.len(),
    ensures
        token_at(input, i) matches Ok((_, end)) ==> i < end <= input.len(),
{
    let c = input[i];
    if digit(c) || (c == 0x2e && i + 1 < input.len() && digit(input[i + 1])) {
        number_moves(input, i);
    }
    run_moves(input, i + 2, Run::Variable);
    run_moves(input, i + 2, Run::HexDigits);
    run_moves(input, i + 2, Run::BitDigits);
    run_moves(input, i, Run::Identifier);
    delimited_moves(input, i + 1, 0x60);
    literal_moves(input, i + 1, c);
}

// ---------------------------------------------------------------------------
// The lexer
// ---------------------------------------------------------------------------
/// Splits bytes into tokens.
pub struct Lexer<'a> {
    input: &'a [u8],
    pos: usize,
}

/// The model of tokens with their positions.
pub open spec fn tokens_view(tokens: Seq<(Token, usize)>) -> Seq<(TokenView, int)> {
    Seq::new(tokens.len(), |i: int| (tokens[i].0@, tokens[i].1 as int))
}

impl<'a> Lexer<'a> {
    /// The bytes to be split.
    pub closed spec fn input(self) -> Seq<u8> {
        self.input@
    }

    /// The position of the next byte.
    pub closed spec fn pos(self) -> int {
        self.pos as int
    }

    #[verifier::type_invariant]
    spec fn in_bounds(self) -> bool {
        self.pos <= self.input@.len()
    }

    /// A lexer over `input`.
    pub fn new(input: &'a [u8]) -> (r: Self)
        ensures
            r.input() == input@,
            r.pos() == 0,
    {
        Lexer { input, pos: 0 }
    }

    /// Splits the whole input.
    pub fn tokenize(self) -> (r: Result<Vec<(Token, usize)>, ParseError>)
        ensures
            match r {
                Ok(tokens) => tokens_from(self.input(), self.pos()) == Ok::<
                    Seq<(TokenView, int)>,
                    ParseErrorView,
                >(tokens_view(tokens@)),
                Err(e) => tokens_from(self.input(), self.pos()) == Err::<
                    Seq<(TokenView, int)>,
                    ParseErrorView,
                >(e@),
            },
    {
        proof {
            use_type_invariant(&self);
        }
        let ghost input = self.input@;
        let ghost first = self.pos as int;
        let mut lexer = self;
        let mut tokens: Vec<(Token, usize)> = Vec::new();
        proof {
            if let Ok(rest) = tokens_from(input, first) {
                assert(tokens_view(tokens@) + rest =~= rest);
            }
        }
        loop
            invariant
                lexer.input@ == input,
                lexer.pos <= input.len(),
                match tokens_from(input, lexer.pos as int) {
                    Ok(rest) => tokens_from(input, first) == Ok::<
                        Seq<(TokenView, int)>,
                        ParseErrorView,
                    >(tokens_view(tokens@) + rest),
                    Err(e) => tokens_from(input, first) == Err::<
                        Seq<(TokenView, int)>,
                        ParseErrorView,
                    >(e),
                },
                input == self.input(),
                first == self.pos(),
            decreases input.len() - lexer.pos,
        {
            let ghost before = tokens_view(tokens@);
            let ghost here = lexer.pos as int;
            match lexer.next_token() {
                Err(e) => {
                    return Err(e);
                },
                Ok(None) => {
                    assert(before + Seq::<(TokenView, int)>::empty() =~= before);
                    return Ok(tokens);
                },
                Ok(Some(found)) => {
                    tokens.push(found);
                    proof {
                        use_type_invariant(&lexer);
                        let one = (found.0@, found.1 as int);
                        assert(tokens_view(tokens@) =~= before.push(one));
                        if let Ok(rest) = tokens_from(input, lexer.pos as int) {
                            assert(before + (seq![one] + rest) =~= tokens_view(tokens@) + rest);
                        }
                    }
                },
            }
        }
    }

    /// The byte `n` behind the next one.
    fn peek_at(&self, n: usize) -> (r: Option<u8>)
        ensures
            match r {
                Some(c) => at(self.input(), self.pos() + n, c),
                None => self.pos() + n >= self.input().len(),
            },
    {
        proof {
            use_type_invariant(self);
        }
        if self.input.len() - self.pos > n {
            Some(self.input[self.pos + n])
        } else {
            None
        }
    }

    /// Whether the byte `n` behind the next one is `c`.
    fn is_at(&self, n: usize, c: u8) -> (r: bool)
        ensures
            r == at(self.input(), self.pos() + n, c),
    {
        match self.peek_at(n) {
            Some(b) => b == c,
            None => false,
        }
    }

    /// Whether two dashes that open a comment are next.
    fn is_at_line_comment(&self) -> (r: bool)
        ensures
            r == opens_line_comment(self.input(), self.pos()),
    {
        self.is_at(0, 0x2d) && self.is_at(1, 0x2d) && match self.peek_at(2) {
            Some(c) => is_blank(c),
            None => true,
        }
    }

    /// The next byte.
    fn peek(&self) -> (r: Option<u8>)
        ensures
            match r {
                Some(c) => at(self.input(), self.pos(), c),
                None => self.pos() >= self.input().len(),
            },
    {
        self.peek_at(0)
    }

    /// Moves on by `n` bytes, which are there.
    fn advance(&mut self, n: usize)
        requires
            old(self).pos() + n <= old(self).input().len(),
        ensures
            final(self).input() == old(self).input(),
            final(self).pos() == old(self).pos() + n,
    {
        let total: usize = self.input.len();
        assert(self.pos + n <= total);
        self.pos = self.pos + n;
    }

    /// Moves over a run and gives it.
    fn take_run(&mut self, run: Run) -> (r: &'a [u8])
        ensures
            final(self).input() == old(self).input(),
            final(self).pos() == run_end(old(self).input(), old(self).pos(), run),
            final(self).pos() <= old(self).input().len(),
            r@ == old(self).input().subrange(old(self).pos(), final(self).pos()),
    {
        proof {
            use_type_invariant(&*self);
        }
        let start: usize = self.pos;
        let mut end: usize = start;
        while end < self.input.len() && is_in_run(run, self.input[end])
            invariant
                start <= end <= self.input@.len(),
                run_end(self.input@, start as int, run) == run_end(self.input@, end as int, run),
            decreases self.input@.len() - end,
        {
            end = end + 1;
        }
        let r = &self.input[start..end];
        self.pos = end;
        r
    }

    /// Moves to the start of the next line.
    fn skip_line(&mut self)
        ensures
            final(self).input() == old(self).input(),
            final(self).pos() == line_end(old(self).input(), old(self).pos()),
    {
        proof {
            use_type_invariant(&*self);
        }
        let mut i: usize = self.pos;
        let ghost start = i as int;
        while i < self.input.len() && self.input[i] != 0x0a
            invariant
                start <= i <= self.input@.len(),
                start >= 0,
                line_end(self.input@, start) == line_end(self.input@, i as int),
            decreases self.input@.len() - i,
        {
            i = i + 1;
        }
        if i < self.input.len() {
            self.pos = i + 1;
        } else {
            self.pos = i;
        }
    }

    /// Moves behind the next `*/`.
    fn skip_comment(&mut self)
        ensures
            final(self).input() == old(self).input(),
            final(self).pos() == comment_end(old(self).input(), old(self).pos()),
    {
        proof {
            use_type_invariant(&*self);
        }
        let n: usize = self.input.len();
        let mut i: usize = self.pos;
        let ghost start = i as int;
        while i < n && !(self.input[i] == 0x2a && n - i > 1 && self.input[i + 1] == 0x2f)
            invariant
                n == self.input@.len(),
                start <= i <= n,
                start >= 0,
                comment_end(self.input@, start) == comment_end(self.input@, i as int),
            decreases n - i,
        {
            i = i + 1;
        }
        if i < n {
            self.pos = i + 2;
        } else {
            self.pos = i;
        }
    }

    /// Moves over everything that separates tokens.
    fn skip_trivia(&mut self)
        ensures
            final(self).input() == old(self).input(),
            final(self).pos() == trivia_end(old(self).input(), old(self).pos()),
    {
        proof {
            use_type_invariant(&*self);
        }
        let ghost input = self.input@;
        let ghost start = self.pos as int;
        loop
            invariant
                self.input@ == input,
                self.pos <= input.len(),
                start >= 0,
                trivia_end(input, start) == trivia_end(input, self.pos as int),
                input == old(self).input(),
                start == old(self).pos(),
            decreases input.len() - self.pos,
        {
            let ghost here = self.pos as int;
            proof {
                separator_moves(input, here);
            }
            let c: u8 = match self.peek() {
                None => return,
                Some(c) => c,
            };
            if is_blank(c) {
                self.advance(1);
            } else if c == 0x23 {
                proof {
                    line_moves(input, here);
                }
                self.skip_line();
            } else if self.is_at_line_comment() {
                proof {
                    line_moves(input, here + 2);
                }
                self.advance(2);
                self.skip_line();
            } else if c == 0x2f && self.is_at(1, 0x2a) && self.is_at(2, 0x21) {
                proof {
                    run_moves(input, here + 3, Run::Digits);
                    comment_moves(input, run_end(input, here + 3, Run::Digits));
                }
                self.advance(3);
                let digits = self.take_run(Run::Digits);
                proof {
                    run_is_uniform(input, here + 3, Run::Digits);
                }
                if asks_for_later(digits) {
                    self.skip_comment();
                }
            } else if c == 0x2a && self.is_at(1, 0x2f) {
                self.advance(2);
            } else if c == 0x2f && self.is_at(1, 0x2a) {
                proof {
                    comment_moves(input, here + 2);
                }
                self.advance(2);
                self.skip_comment();
            } else {
                return;
            }
        }
    }

    /// Reads a quoted identifier; the opening backtick is the next byte.
    fn read_delimited(&mut self, delim: u8, kind: &'static str) -> (r: Result<Token, ParseError>)
        requires
            old(self).pos() < old(self).input().len(),
        ensures
            final(self).input() == old(self).input(),
            match delimited(old(self).input(), old(self).pos() + 1, delim) {
                Some((s, end)) => r is Ok && r->Ok_0@ == TokenView::QuotedIdent(text::lossy_text(s))
                    && final(self).pos() == end,
                None => r is Err && r->Err_0@ == (ParseErrorView::Unterminated {
                    offset: old(self).pos(),
                    kind: kind@,
                }),
            },
    {
        let start: usize = self.pos;
        let n: usize = self.input.len();
        let ghost input = self.input@;
        let ghost first = start + 1;
        let mut value: Vec<u8> = Vec::new();
        let mut i: usize = start + 1;
        proof {
            if let Some((s, end)) = delimited(input, first, delim) {
                assert(value@ + s =~= s);
            }
        }
        while i < n
            invariant
                self.input@ == input,
                input == old(self).input(),
                start == old(self).pos(),
                self.pos == start,
                n == input.len(),
                start < i <= n,
                match delimited(input, i as int, delim) {
                    Some((s, end)) => delimited(input, start + 1, delim) == Some((value@ + s, end)),
                    None => delimited(input, start + 1, delim) is None,
                },
            decreases n - i,
        {
            let ghost before = value@;
            let c: u8 = self.input[i];
            if c != delim {
                value.push(c);
                proof {
                    if let Some((s, end)) = delimited(input, i + 1, delim) {
                        assert(before + (seq![c] + s) =~= value@ + s);
                    }
                }
                i = i + 1;
            } else if n - i > 1 && self.input[i + 1] == delim {
                value.push(delim);
                proof {
                    if let Some((s, end)) = delimited(input, i + 2, delim) {
                        assert(before + (seq![delim] + s) =~= value@ + s);
                    }
                }
                i = i + 2;
            } else {
                assert(before + Seq::<u8>::empty() =~= before);
                self.pos = i + 1;
                return Ok(Token::QuotedIdent(text::decode_lossy(&value)));
            }
        }
        Err(ParseError::Unterminated { offset: start, kind })
    }

    /// Reads a string literal; the opening quote `delim` is the next byte.
    fn read_string(&mut self, delim: u8) -> (r: Result<Token, ParseError>)
        requires
            old(self).pos() < old(self).input().len(),
        ensures
            final(self).input() == old(self).input(),
            match literal(old(self).input(), old(self).pos() + 1, delim) {
                Some((s, end)) => r is Ok && r->Ok_0@ == TokenView::Str(text::lossy_text(s))
                    && final(self).pos() == end,
                None => r is Err && r->Err_0@ == (ParseErrorView::Unterminated {
                    offset: old(self).pos(),
                    kind: "string literal"@,
                }),
            },
    {
        let start: usize = self.pos;
        let n: usize = self.input.len();
        let ghost input = self.input@;
        let mut value: Vec<u8> = Vec::new();
        let mut i: usize = start + 1;
        proof {
            if let Some((s, end)) = literal(input, start + 1, delim) {
                assert(value@ + s =~= s);
            }
        }
        while i < n
            invariant
                self.input@ == input,
                input == old(self).input(),
                start == old(self).pos(),
                self.pos == start,
                n == input.len(),
                start < i <= n,
                match literal(input, i as int, delim) {
                    Some((s, end)) => literal(input, start + 1, delim) == Some((value@ + s, end)),
                    None => literal(input, start + 1, delim) is None,
                },
            decreases n - i,
        {
            let ghost before = value@;
            let c: u8 = self.input[i];
            if c == delim {
                if n - i > 1 && self.input[i + 1] == delim {
                    value.push(delim);
                    proof {
                        if let Some((s, end)) = literal(input, i + 2, delim) {
                            assert(before + (seq![delim] + s) =~= value@ + s);
                        }
                    }
                    i = i + 2;
                } else {
                    assert(before + Seq::<u8>::empty() =~= before);
                    self.pos = i + 1;
                    return Ok(Token::Str(text::decode_lossy(&value)));
                }
            } else if c == 0x5c {
                if n - i < 2 {
                    return Err(ParseError::Unterminated { offset: start, kind: "string literal" });
                }
                let e: u8 = self.input[i + 1];
                push_escape(&mut value, e);
                proof {
                    if let Some((s, end)) = literal(input, i + 2, delim) {
                        assert(before + (escaped(e) + s) =~= value@ + s);
                    }
                }
                i = i + 2;
            } else {
                value.push(c);
                proof {
                    if let Some((s, end)) = literal(input, i + 1, delim) {
                        assert(before + (seq![c] + s) =~= value@ + s);
                    }
                }
                i = i + 1;
            }
        }
        Err(ParseError::Unterminated { offset: start, kind: "string literal" })
    }

    /// Reads a number, or a `0x...` or `0b...` literal.
    fn read_number(&mut self) -> (r: Token)
        requires
            old(self).pos() < old(self).input().len(),
            digit(old(self).input()[old(self).pos()]) || (at(
                old(self).input(),
                old(self).pos(),
                0x2e,
            ) && old(self).pos() + 1 < old(self).input().len() && digit(
                old(self).input()[old(self).pos() + 1],
            )),
        ensures
            final(self).input() == old(self).input(),
            (r@, final(self).pos()) == number_at(old(self).input(), old(self).pos()),
    {
        let ghost input = self.input@;
        let start: usize = self.pos;
        proof {
            number_moves(input, start as int);
        }
        if self.is_at(0, 0x30) && (self.is_at(1, 0x78) || self.is_at(1, 0x58)) {
            if let Some(c) = self.peek_at(2) {
                if is_hex_digit(c) {
                    self.advance(2);
                    let digits = self.take_run(Run::HexDigits);
                    let mut hex: Vec<char> = Vec::new();
                    if digits.len() % 2 == 1 {
                        hex.push('0');
                    }
                    text::push_chars(&mut hex, &text::ascii_text(digits));
                    assert(hex@ =~= even_hex(digits@));
                    return Token::Blob(text::string_of(&hex));
                }
            }
        }
        if self.is_at(0, 0x30) && (self.is_at(1, 0x62) || self.is_at(1, 0x42)) {
            if let Some(c) = self.peek_at(2) {
                if is_bit_digit(c) {
                    self.advance(2);
                    let bits = self.take_run(Run::BitDigits);
                    proof {
                        run_is_uniform(input, start + 2, Run::BitDigits);
                    }
                    return Token::Blob(binary_to_hex(bits));
                }
            }
        }
        self.take_run(Run::Digits);
        if self.is_at(0, 0x2e) {
            self.advance(1);
            self.take_run(Run::Digits);
        }
        if self.is_at(0, 0x65) || self.is_at(0, 0x45) {
            self.advance(1);
            if self.is_at(0, 0x2b) || self.is_at(0, 0x2d) {
                self.advance(1);
            }
            self.take_run(Run::Digits);
        }
        let end: usize = self.pos;
        let written = &self.input[start..end];
        Token::Num(text::string_of(&text::ascii_text(written)))
    }

    /// Reads a literal `X'...'`.
    fn read_hex_string(&mut self) -> (r: Result<Token, ParseError>)
        requires
            old(self).pos() + 2 <= old(self).input().len(),
        ensures
            final(self).input() == old(self).input(),
            match hex_string_at(old(self).input(), old(self).pos()) {
                Ok((t, end)) => r is Ok && r->Ok_0@ == t && final(self).pos() == end,
                Err(e) => r is Err && r->Err_0@ == e,
            },
    {
        let start: usize = self.pos;
        self.advance(2);
        let digits = text::ascii_text(self.take_run(Run::HexDigits));
        if !self.is_at(0, 0x27) {
            return Err(ParseError::Unterminated { offset: start, kind: "hex literal" });
        }
        self.advance(1);
        if digits.len() % 2 == 1 {
            let mut what: Vec<char> = Vec::new();
            text::push_text(&mut what, "hex literal X'");
            text::push_chars(&mut what, &digits);
            text::push_text(&mut what, "' must contain an even number of digits");
            assert(what@ =~= odd_hex(digits@));
            return Err(ParseError::Unsupported(text::string_of(&what)));
        }
        Ok(Token::Blob(text::string_of(&digits)))
    }

    /// Reads a literal `b'...'`.
    fn read_bit_string(&mut self) -> (r: Result<Token, ParseError>)
        requires
            old(self).pos() + 2 <= old(self).input().len(),
        ensures
            final(self).input() == old(self).input(),
            match bit_string_at(old(self).input(), old(self).pos()) {
                Ok((t, end)) => r is Ok && r->Ok_0@ == t && final(self).pos() == end,
                Err(e) => r is Err && r->Err_0@ == e,
            },
    {
        let start: usize = self.pos;
        self.advance(2);
        let bits = self.take_run(Run::BitDigits);
        if !self.is_at(0, 0x27) {
            return Err(ParseError::Unterminated { offset: start, kind: "bit literal" });
        }
        proof {
            run_is_uniform(self.input@, start + 2, Run::BitDigits);
        }
        self.advance(1);
        Ok(Token::Blob(binary_to_hex(bits)))
    }

    /// Reads a system variable; `@@` are the next bytes.
    fn read_system_var(&mut self) -> (r: Token)
        requires
            old(self).pos() + 2 <= old(self).input().len(),
        ensures
            final(self).input() == old(self).input(),
            (r@, final(self).pos()) == variable_at(old(self).input(), old(self).pos()),
    {
        self.advance(2);
        let raw = text::decode_lossy(self.take_run(Run::Variable));
        let chars = text::chars_of(raw.as_str());
        let dot: usize = text::find_char(&chars, '.', 0);
        if dot < chars.len() {
            let scope = text::to_lower(&chars[0..dot]);
            assert(chars@.subrange(0, dot as int) =~= chars@.take(dot as int));
            if text::is_text(&scope, "session") || text::is_text(&scope, "global")
                || text::is_text(&scope, "local") {
                let rest = &chars[dot + 1..chars.len()];
                assert(rest@ =~= chars@.skip(dot + 1));
                return Token::SystemVar(text::string_of(rest));
            }
        }
        Token::SystemVar(raw)
    }

    /// Reads a word.
    fn read_word(&mut self) -> (r: Token)
        ensures
            final(self).input() == old(self).input(),
            (r@, final(self).pos()) == word_at(old(self).input(), old(self).pos()),
    {
        let run = self.take_run(Run::Identifier);
        Token::Word(text::decode_lossy(run))
    }

    /// Moves over the mark of `n` bytes that stands for `token`.
    fn take_mark(&mut self, n: usize, token: Token) -> (r: Token)
        requires
            old(self).pos() + n <= old(self).input().len(),
        ensures
            final(self).input() == old(self).input(),
            final(self).pos() == old(self).pos() + n,
            r == token,
    {
        self.advance(n);
        token
    }

    /// Reads a mark.
    fn read_mark(&mut self, c: u8) -> (r: Token)
        requires
            at(old(self).input(), old(self).pos(), c),
        ensures
            final(self).input() == old(self).input(),
            (r@, final(self).pos()) == mark_at(old(self).input(), old(self).pos()),
    {
        if c == 0x28 {
            self.take_mark(1, Token::LParen)
        } else if c == 0x29 {
            self.take_mark(1, Token::RParen)
        } else if c == 0x2c {
            self.take_mark(1, Token::Comma)
        } else if c == 0x2e {
            self.take_mark(1, Token::Dot)
        } else if c == 0x3b {
            self.take_mark(1, Token::Semicolon)
        } else if c == 0x3d {
            self.take_mark(1, Token::Eq)
        } else if c == 0x2a {
            self.take_mark(1, Token::Star)
        } else if c == 0x3c {
            if self.is_at(1, 0x3d) {
                if self.is_at(2, 0x3e) {
                    self.take_mark(3, Token::Spaceship)
                } else {
                    self.take_mark(2, Token::Le)
                }
            } else if self.is_at(1, 0x3e) {
                self.take_mark(2, Token::Ne)
            } else if self.is_at(1, 0x3c) {
                self.take_mark(2, Token::ShiftLeft)
            } else {
                self.take_mark(1, Token::Lt)
            }
        } else if c == 0x3e {
            if self.is_at(1, 0x3d) {
                self.take_mark(2, Token::Ge)
            } else if self.is_at(1, 0x3e) {
                self.take_mark(2, Token::ShiftRight)
            } else {
                self.take_mark(1, Token::Gt)
            }
        } else if c == 0x21 && self.is_at(1, 0x3d) {
            self.take_mark(2, Token::Ne)
        } else if c == 0x26 && self.is_at(1, 0x26) {
            self.take_mark(2, Token::AmpAmp)
        } else if c == 0x2d {
            if self.is_at(1, 0x3e) {
                if self.is_at(2, 0x3e) {
                    self.take_mark(3, Token::ArrowDouble)
                } else {
                    self.take_mark(2, Token::Arrow)
                }
            } else {
                self.take_mark(1, Token::Minus)
            }
        } else if c == 0x2b {
            self.take_mark(1, Token::Plus)
        } else if c == 0x3f {
            self.take_mark(1, Token::Param)
        } else {
            self.take_mark(1, Token::Other(c as char))
        }
    }

    /// Reads the next token, with the position at which it starts.
    fn next_token(&mut self) -> (r: Result<Option<(Token, usize)>, ParseError>)
        ensures
            final(self).input() == old(self).input(),
            ({
                let input = old(self).input();
                let start = trivia_end(input, old(self).pos());
                if start >= input.len() {
                    r matches Ok(None)
                } else {
                    match token_at(input, start) {
                        Ok((t, end)) => {
                            &&& r matches Ok(Some(found)) && found.0@ == t && found.1 == start
                            &&& final(self).pos() == end
                            &&& old(self).pos() <= start < end
                        },
                        Err(e) => r is Err && r->Err_0@ == e && old(self).pos() <= start,
                    }
                }
            }),
    {
        proof {
            use_type_invariant(&*self);
            trivia_moves(self.input@, self.pos as int);
        }
        self.skip_trivia();
        let start: usize = self.pos;
        let c: u8 = match self.peek() {
            None => return Ok(None),
            Some(c) => c,
        };
        proof {
            token_moves(self.input@, start as int);
        }
        let starts_number = is_digit(c) || (c == 0x2e && match self.peek_at(1) {
            Some(d) => is_digit(d),
            None => false,
        });
        let token = if starts_number {
            self.read_number()
        } else if c == 0x40 && self.is_at(1, 0x40) {
            self.read_system_var()
        } else if c == 0x60 {
            match self.read_delimited(0x60, "identifier") {
                Ok(t) => t,
                Err(e) => return Err(e),
            }
        } else if c == 0x22 || c == 0x27 {
            match self.read_string(c) {
                Ok(t) => t,
                Err(e) => return Err(e),
            }
        } else if (c == 0x78 || c == 0x58) && self.is_at(1, 0x27) {
            match self.read_hex_string() {
                Ok(t) => t,
                Err(e) => return Err(e),
            }
        } else if (c == 0x62 || c == 0x42) && self.is_at(1, 0x27) {
            match self.read_bit_string() {
                Ok(t) => t,
                Err(e) => return Err(e),
            }
        } else if is_ident_start(c) {
            self.read_word()
        } else {
            self.read_mark(c)
        };
        Ok(Some((token, start)))
    }
}

/// Whether the digits of a version comment ask for a later server.
fn asks_for_later(digits: &[u8]) -> (r: bool)
    requires
        forall|i: int| 0 <= i < digits@.len() ==> digit(#[trigger] digits@[i]),
    ensures
        r == (numeric::digits_value(text::ascii_chars(digits@)) > SERVER_VERSION_ID),
{
    let asked = text::ascii_text(digits);
    proof {
        assert forall|i: int| 0 <= i < asked@.len() implies numeric::is_digit_char(
            #[trigger] asked@[i],
        ) by {
            assert(digit(digits@[i]));
        }
    }
    asked.len() > 0 && numeric::parse_unsigned(&asked, SERVER_VERSION_ID as u64).is_none()
}

/// Appends what a backslash and `c` stand for.
fn push_escape(value: &mut Vec<u8>, c: u8)
    ensures
        final(value)@ == old(value)@ + escaped(c),
{
    if c == 0x30 {
        value.push(0);
    } else if c == 0x62 {
        value.push(0x08);
    } else if c == 0x6e {
        value.push(0x0a);
    } else if c == 0x72 {
        value.push(0x0d);
    } else if c == 0x74 {
        value.push(0x09);
    } else if c == 0x5a {
        value.push(0x1a);
    } else if c == 0x25 || c == 0x5f {
        value.push(0x5c);
        value.push(c);
    } else {
        value.push(c);
    }
    assert(value@ =~= old(value)@ + escaped(c));
}

/// A run consists of bytes that belong to it.
proof fn run_is_uniform(input: Seq<u8>, i: int, run: Run)
    requires
        0 <= i <= input.len(),
    ensures
        forall|j: int| i <= j < run_end(input, i, run) ==> belongs(run, #[trigger] input[j]),
        i <= run_end(input, i, run) <= input.len(),
    decreases input.len() - i,
{
    if i < input.len() && belongs(run, input[i]) {
        run_is_uniform(input, i + 1, run);
    }
}

/// How many numbers `n` hexadecimal digits can tell apart.
spec fn pow16(n: nat) -> nat
    decreases n,
{
    if n == 0 {
        1
    } else {
        16 * pow16((n - 1) as nat)
    }
}

/// One digit more than a number needs is a zero in front.
proof fn hex_text_pads(v: nat, n: nat)
    requires
        v < pow16(n),
    ensures
        hex_text(v, n + 1) == seq!['0'] + hex_text(v, n),
    decreases n,
{
    if n == 0 {
        reveal_with_fuel(hex_text, 2);
        assert(hex_text(v, 1) =~= seq!['0'] + hex_text(v, 0));
    } else {
        hex_text_pads(v / 16, (n - 1) as nat);
        assert(hex_text(v, n + 1) =~= seq!['0'] + hex_text(v, n));
    }
}

/// Up to four more binary digits.
proof fn bits_value_extends(bits: Seq<u8>, i: int, n: int)
    requires
        0 <= i,
        0 <= n <= 4,
        i + n <= bits.len(),
        forall|j: int| 0 <= j < bits.len() ==> bit_digit(#[trigger] bits[j]),
    ensures
        n == 4 ==> bits_value(bits.take(i + n)) == 16 * bits_value(bits.take(i)) + bits_value(
            bits.subrange(i, i + n),
        ),
        i == 0 ==> bits_value(bits.take(i + n)) == bits_value(bits.subrange(i, i + n)),
        bits_value(bits.subrange(i, i + n)) < 16,
{
    reveal_with_fuel(bits_value, 5);
    let s = bits.subrange(i, i + n);
    if n >= 1 {
        assert(bits.take(i + 1).drop_last() =~= bits.take(i));
        assert(bit_digit(bits[i]));
    }
    if n >= 2 {
        assert(bits.take(i + 2).drop_last() =~= bits.take(i + 1));
        assert(s.drop_last().drop_last() =~= bits.subrange(i, i + n - 2));
        assert(bit_digit(bits[i + 1]));
    }
    if n >= 3 {
        assert(bits.take(i + 3).drop_last() =~= bits.take(i + 2));
        assert(bit_digit(bits[i + 2]));
    }
    if n >= 4 {
        assert(bits.take(i + 4).drop_last() =~= bits.take(i + 3));
        assert(bit_digit(bits[i + 3]));
    }
    if i == 0 {
        assert(bits.take(n) =~= bits.subrange(0, n));
    }
}

/// The number that up to four binary digits denote.
fn nibble(bits: &[u8], from: usize, to: usize) -> (r: u8)
    requires
        from <= to <= bits@.len(),
        to - from <= 4,
        forall|i: int| 0 <= i < bits@.len() ==> bit_digit(#[trigger] bits@[i]),
    ensures
        r == bits_value(bits@.subrange(from as int, to as int)),
        r < 16,
{
    let mut value: u8 = 0;
    let mut i: usize = from;
    assert(bits@.subrange(from as int, from as int) =~= seq![]);
    while i < to
        invariant
            from <= i <= to <= bits@.len(),
            to - from <= 4,
            forall|i: int| 0 <= i < bits@.len() ==> bit_digit(#[trigger] bits@[i]),
            value == bits_value(bits@.subrange(from as int, i as int)),
            value < 16,
        decreases to - i,
    {
        proof {
            bits_value_extends(bits@, from as int, i + 1 - from);
            assert(bits@.subrange(from as int, i + 1).drop_last() =~= bits@.subrange(
                from as int,
                i as int,
            ));
            assert(bit_digit(bits@[i as int]));
        }
        value = 2 * value + (bits[i] - 0x30);
        i = i + 1;
    }
    value
}

fn upper_hex_digit(n: u8) -> (r: char)
    requires
        n < 16,
    ensures
        r == upper_hex(n as nat),
{
    if n < 10 {
        (48 + n) as char
    } else {
        (55 + n) as char
    }
}

/// Turns binary digits into the hexadecimal digits of their bytes.
fn binary_to_hex(bits: &[u8]) -> (r: String)
    requires
        forall|i: int| 0 <= i < bits@.len() ==> bit_digit(#[trigger] bits@[i]),
    ensures
        r@ == bits_to_hex(bits@),
{
    let mut out: Vec<char> = Vec::new();
    let n: usize = bits.len();
    // The first nibble has the bits that are left over when the rest come in
    // fours; a byte's high nibble that no bit reaches is zero.
    let over: usize = n % 4;
    let nibbles: usize = if over == 0 {
        n / 4
    } else {
        n / 4 + 1
    };
    if nibbles % 2 == 1 {
        out.push('0');
    }
    let ghost lead = out@;
    let mut i: usize = 0;
    let ghost mut done: nat = 0;
    proof {
        reveal_with_fuel(hex_text, 2);
        reveal_with_fuel(pow16, 2);
        assert(bits@.take(0) =~= seq![]);
    }
    assert(out@ =~= lead + hex_text(bits_value(bits@.take(0)), 0));
    if over > 0 {
        let value: u8 = nibble(bits, 0, over);
        out.push(upper_hex_digit(value));
        proof {
            bits_value_extends(bits@, 0, over as int);
            done = 1;
            assert(hex_text(value as nat, 1) =~= seq![upper_hex(value as nat)]);
            assert(out@ =~= lead + hex_text(bits_value(bits@.take(over as int)), 1));
        }
        i = over;
    }
    while i < n
        invariant
            n == bits@.len(),
            forall|i: int| 0 <= i < bits@.len() ==> bit_digit(#[trigger] bits@[i]),
            i <= n,
            (n - i) % 4 == 0,
            out@ == lead + hex_text(bits_value(bits@.take(i as int)), done),
            bits_value(bits@.take(i as int)) < pow16(done),
            4 * (nibbles - done) == n - i,
        decreases n - i,
    {
        let value: u8 = nibble(bits, i, i + 4);
        proof {
            let v = bits_value(bits@.take(i as int));
            let w = bits_value(bits@.take(i + 4));
            bits_value_extends(bits@, i as int, 4);
            assert(w == 16 * v + value);
            assert(w / 16 == v && w % 16 == value);
            assert(hex_text(w, done + 1) == hex_text(v, done).push(upper_hex(value as nat)));
            assert(lead + hex_text(w, done + 1) =~= out@.push(upper_hex(value as nat)));
            done = done + 1;
        }
        out.push(upper_hex_digit(value));
        i = i + 4;
    }
    proof {
        assert(bits@.take(n as int) =~= bits@);
        if nibbles % 2 == 1 {
            hex_text_pads(bits_value(bits@), nibbles as nat);
        }
        assert(out@ =~= bits_to_hex(bits@));
    }
    text::string_of(&out)
}

// ---------------------------------------------------------------------------
// Laws
// ---------------------------------------------------------------------------
/// Tokens come in the order in which they stand in the input, each at a place of
/// its own.
pub proof fn tokens_are_in_order(input: Seq<u8>, i: int)
    requires
        0 <= i <= input.len(),
    ensures
        tokens_from(input, i) matches Ok(ts) ==> {
            &&& forall|k: int| 0 <= k < ts.len() ==> i <= (#[trigger] ts[k]).1 < input.len()
            &&& forall|k: int, m: int| 0 <= k < m < ts.len() ==> (#[trigger] ts[k]).1 < (
            #[trigger] ts[m]).1
        },
    decreases left(input, i),
{
    trivia_moves(input, i);
    let start = trivia_end(input, i);
    if start < input.len() {
        token_moves(input, start);
        if let Ok((token, end)) = token_at(input, start) {
            tokens_are_in_order(input, end);
            if let Ok(rest) = tokens_from(input, end) {
                let ts = seq![(token, start)] + rest;
                assert forall|k: int| 0 <= k < ts.len() implies i <= (#[trigger] ts[k]).1
                    < input.len() by {
                    if k > 0 {
                        assert(ts[k] == rest[k - 1]);
                    }
                }
                assert forall|k: int, m: int| 0 <= k < m < ts.len() implies (#[trigger] ts[k]).1 < (
                #[trigger] ts[m]).1 by {
                    assert(ts[m] == rest[m - 1]);
                    if k > 0 {
                        assert(ts[k] == rest[k - 1]);
                    }
                }
            }
        }
    }
}

/// White space and comments in front of a token make no difference.
pub proof fn separators_do_not_matter(input: Seq<u8>, i: int)
    requires
        0 <= i <= input.len(),
    ensures
        tokens_from(input, trivia_end(input, i)) == tokens_from(input, i),
{
    trivia_moves(input, i);
    trivia_is_over(input, i);
}

/// What stands in a comment `/*! ... */` is read as SQL, unless the comment asks for
/// a version that is newer than the server's: then it is skipped.
pub proof fn gated_comment_runs(input: Seq<u8>, i: int)
    requires
        reads(input, i, seq![0x2fu8, 0x2au8, 0x21u8]),
    ensures
        ({
            let end = run_end(input, i + 3, Run::Digits);
            tokens_from(input, i) == tokens_from(
                input,
                if gate(input, i + 3, end) <= SERVER_VERSION_ID {
                    end
                } else {
                    comment_end(input, end)
                },
            )
        }),
{
    let here = input.subrange(i, i + 3);
    assert(here[0] == 0x2f && here[1] == 0x2a && here[2] == 0x21);
    assert(input[i] == here[0] && input[i + 1] == here[1] && input[i + 2] == here[2]);
    let end = run_end(input, i + 3, Run::Digits);
    run_moves(input, i + 3, Run::Digits);
    comment_moves(input, end);
    trivia_moves(input, separator_end(input, i));
}

proof fn trivia_is_over(input: Seq<u8>, i: int)
    ensures
        trivia_end(input, trivia_end(input, i)) == trivia_end(input, i),
    decreases left(input, i),
{
    let next = separator_end(input, i);
    if i < next {
        trivia_is_over(input, next);
    }
}

/// The bytes `b` stand in the input at `i`.
pub open spec fn reads(input: Seq<u8>, i: int, b: Seq<u8>) -> bool {
    0 <= i && i + b.len() <= input.len() && input.subrange(i, i + b.len()) == b
}

/// `s` as it is written between backticks.
pub open spec fn ident_bytes(s: Seq<u8>) -> Seq<u8>
    decreases s.len(),
{
    if s.len() == 0 {
        seq![]
    } else if s[0] == 0x60 {
        seq![0x60u8, 0x60u8] + ident_bytes(s.skip(1))
    } else {
        seq![s[0]] + ident_bytes(s.skip(1))
    }
}

/// `s` as it is written between the quotes `delim`.
pub open spec fn literal_bytes(s: Seq<u8>, delim: u8) -> Seq<u8>
    decreases s.len(),
{
    if s.len() == 0 {
        seq![]
    } else if s[0] == delim || s[0] == 0x5c {
        seq![s[0], s[0]] + literal_bytes(s.skip(1), delim)
    } else {
        seq![s[0]] + literal_bytes(s.skip(1), delim)
    }
}

/// Any name can be quoted: written between backticks, with its own backticks
/// doubled, it is read back as it was.
pub proof fn quoted_ident_roundtrips(input: Seq<u8>, i: int, s: Seq<u8>)
    requires
        reads(input, i, seq![0x60u8] + ident_bytes(s) + seq![0x60u8]),
        !at(input, i + ident_bytes(s).len() + 2, 0x60),
    ensures
        token_at(input, i) == Ok::<(TokenView, int), ParseErrorView>(
            (
                TokenView::QuotedIdent(text::lossy_text(s)),
                i + ident_bytes(s).len() + 2,
            ),
        ),
{
    let b = seq![0x60u8] + ident_bytes(s) + seq![0x60u8];
    let here = input.subrange(i, i + b.len());
    assert(here[0] == 0x60);
    assert(input.subrange(i + 1, i + b.len()) =~= here.skip(1));
    assert(here.skip(1) =~= ident_bytes(s) + seq![0x60u8]);
    delimited_reads_back(input, i + 1, s);
}

proof fn delimited_reads_back(input: Seq<u8>, i: int, s: Seq<u8>)
    requires
        reads(input, i, ident_bytes(s) + seq![0x60u8]),
        !at(input, i + ident_bytes(s).len() + 1, 0x60),
    ensures
        delimited(input, i, 0x60) == Some((s, i + ident_bytes(s).len() + 1)),
    decreases s.len(),
{
    let b = ident_bytes(s) + seq![0x60u8];
    let here = input.subrange(i, i + b.len());
    assert(here[0] == b[0]);
    if s.len() > 0 {
        let rest = s.skip(1);
        let n: int = if s[0] == 0x60 {
            2
        } else {
            1
        };
        if n == 2 {
            assert(here[1] == b[1]);
        }
        assert(input.subrange(i + n, i + b.len()) =~= here.skip(n));
        assert(here.skip(n) =~= ident_bytes(rest) + seq![0x60u8]);
        delimited_reads_back(input, i + n, rest);
        assert(seq![s[0]] + rest =~= s);
    } else {
        assert(s =~= seq![]);
    }
}

/// Any text can be written as a string literal: with its quotes and backslashes
/// doubled, it is read back as it was.
pub proof fn string_literal_roundtrips(input: Seq<u8>, i: int, s: Seq<u8>, delim: u8)
    requires
        delim == 0x27 || delim == 0x22,
        reads(input, i, seq![delim] + literal_bytes(s, delim) + seq![delim]),
        !at(input, i + literal_bytes(s, delim).len() + 2, delim),
    ensures
        token_at(input, i) == Ok::<(TokenView, int), ParseErrorView>(
            (TokenView::Str(text::lossy_text(s)), i + literal_bytes(s, delim).len() + 2),
        ),
{
    let b = seq![delim] + literal_bytes(s, delim) + seq![delim];
    let here = input.subrange(i, i + b.len());
    assert(here[0] == delim);
    assert(input.subrange(i + 1, i + b.len()) =~= here.skip(1));
    assert(here.skip(1) =~= literal_bytes(s, delim) + seq![delim]);
    literal_reads_back(input, i + 1, s, delim);
}

proof fn literal_reads_back(input: Seq<u8>, i: int, s: Seq<u8>, delim: u8)
    requires
        delim == 0x27 || delim == 0x22,
        reads(input, i, literal_bytes(s, delim) + seq![delim]),
        !at(input, i + literal_bytes(s, delim).len() + 1, delim),
    ensures
        literal(input, i, delim) == Some((s, i + literal_bytes(s, delim).len() + 1)),
    decreases s.len(),
{
    let b = literal_bytes(s, delim) + seq![delim];
    let here = input.subrange(i, i + b.len());
    assert(here[0] == b[0]);
    if s.len() > 0 {
        let rest = s.skip(1);
        let n: int = if s[0] == delim || s[0] == 0x5c {
            2
        } else {
            1
        };
        if n == 2 {
            assert(here[1] == b[1]);
        }
        assert(input.subrange(i + n, i + b.len()) =~= here.skip(n));
        assert(here.skip(n) =~= literal_bytes(rest, delim) + seq![delim]);
        literal_reads_back(input, i + n, rest, delim);
        assert(seq![s[0]] + rest =~= s);
    } else {
        assert(s =~= seq![]);
    }
}

/// A bit literal gives the same bytes in both of its spellings.
pub proof fn bit_spellings_agree(a: Seq<u8>, i: int, b: Seq<u8>, j: int, bits: Seq<u8>)
    requires
        bits.len() > 0,
        forall|k: int| 0 <= k < bits.len() ==> bit_digit(#[trigger] bits[k]),
        reads(a, i, seq![0x30u8, 0x62u8] + bits),
        i + 2 + bits.len() < a.len() ==> !bit_digit(a[i + 2 + bits.len()]),
        reads(b, j, seq![0x62u8, 0x27u8] + bits + seq![0x27u8]),
    ensures
        token_at(a, i) matches Ok((x, _)) && token_at(b, j) matches Ok((y, _)) && x == y,
{
    let p = seq![0x30u8, 0x62u8] + bits;
    let q = seq![0x62u8, 0x27u8] + bits + seq![0x27u8];
    let here = a.subrange(i, i + p.len());
    let there = b.subrange(j, j + q.len());
    assert(here[0] == 0x30 && here[1] == 0x62 && here[2] == p[2]);
    assert(p[2] == bits[0]);
    assert(there[0] == 0x62 && there[1] == 0x27);
    assert forall|k: int| 0 <= k < bits.len() implies a[i + 2 + k] == #[trigger] bits[k] && b[j + 2
        + k] == bits[k] by {
        assert(here[2 + k] == p[2 + k]);
        assert(there[2 + k] == q[2 + k]);
    }
    assert(there[2int + bits.len()] == 0x27) by {
        assert(q[2int + bits.len()] == 0x27);
    }
    run_stops(a, i + 2, bits, Run::BitDigits);
    run_stops(b, j + 2, bits, Run::BitDigits);
    assert(a.subrange(i + 2, i + 2 + bits.len()) =~= bits);
    assert(b.subrange(j + 2, j + 2 + bits.len()) =~= bits);
}

/// A run that something else follows ends there.
proof fn run_stops(input: Seq<u8>, i: int, s: Seq<u8>, run: Run)
    requires
        0 <= i,
        i + s.len() <= input.len(),
        forall|k: int| 0 <= k < s.len() ==> input[i + k] == #[trigger] s[k],
        forall|k: int| 0 <= k < s.len() ==> belongs(run, #[trigger] s[k]),
        i + s.len() < input.len() ==> !belongs(run, input[i + s.len()]),
    ensures
        run_end(input, i, run) == i + s.len(),
    decreases s.len(),
{
    if s.len() > 0 {
        let rest = s.skip(1);
        assert(input[i + 0] == s[0]);
        assert forall|k: int| 0 <= k < rest.len() implies input[(i + 1) + k] == #[trigger] rest[k]
            by {
            assert(rest[k] == s[k + 1]);
            assert(input[i + (k + 1)] == s[k + 1]);
        }
        assert forall|k: int| 0 <= k < rest.len() implies belongs(run, #[trigger] rest[k]) by {
            assert(rest[k] == s[k + 1]);
        }
        run_stops(input, i + 1, rest, run);
    }
}

} // verus!
