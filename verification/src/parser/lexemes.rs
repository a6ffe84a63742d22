//! What the tokens of a statement are, in terms of its bytes.

use vstd::prelude::*;
use vstd::utf8;

use crate::numeric;
use crate::parser::error::ParseErrorView;
use crate::parser::lexer;
use crate::parser::lexer::Run;
use crate::parser::token;
use crate::parser::token::TokenView;
use crate::text;

verus! {

// ---------------------------------------------------------------------------
// Runs of bytes
// ---------------------------------------------------------------------------
proof fn run_reaches(input: Seq<u8>, i: int, end: int, run: Run)
    requires
        0 <= i <= end <= input.len(),
        forall|k: int| i <= k < end ==> lexer::belongs(run, #[trigger] input[k]),
        end < input.len() ==> !lexer::belongs(run, input[end]),
    ensures
        lexer::run_end(input, i, run) == end,
    decreases end - i,
{
    if i < end {
        run_reaches(input, i + 1, end, run);
    }
}

/// `t` holds the bytes from `i` to `end`, each as the character of its number.
pub open spec fn spells(t: Seq<char>, input: Seq<u8>, i: int, end: int) -> bool {
    t.len() == end - i && forall|k: int| 0 <= k < t.len() ==> #[trigger] t[k] as int == input[i + k]
}

proof fn ascii_spells(input: Seq<u8>, i: int, end: int)
    requires
        0 <= i <= end <= input.len(),
    ensures
        spells(text::ascii_chars(input.subrange(i, end)), input, i, end),
{
}

/// Bytes below `0x80` are text as they stand: each is one character.
pub proof fn ascii_is_text(bytes: Seq<u8>)
    requires
        forall|k: int| 0 <= k < bytes.len() ==> #[trigger] bytes[k] < 0x80,
    ensures
        spells(text::lossy_text(bytes), bytes, 0, bytes.len() as int),
        text::lossy_text(bytes) == text::ascii_chars(bytes),
{
    let chars = text::ascii_chars(bytes);
    assert(utf8::is_ascii_chars(chars));
    utf8::is_ascii_chars_encode_utf8(chars);
    utf8::encode_utf8_valid_utf8(chars);
    utf8::encode_utf8_decode_utf8(chars);
    assert forall|k: int| 0 <= k < bytes.len() implies utf8::encode_utf8(chars)[k]
        == bytes[k] by {
        assert(chars[k] as u8 == utf8::encode_utf8(chars)[k]);
        assert(chars[k] == bytes[k] as char);
    }
    assert(utf8::encode_utf8(chars) =~= bytes);
}

// ---------------------------------------------------------------------------
// Numbers
// ---------------------------------------------------------------------------
/// Digits that no further digit, point, `e` or `E` follows are one number, unless
/// they are the zero of a `0x` or `0b` literal.
pub proof fn digits_are_one_number(input: Seq<u8>, i: int, end: int)
    requires
        0 <= i < end <= input.len(),
        forall|k: int| i <= k < end ==> 0x30 <= #[trigger] input[k] <= 0x39,
        end < input.len() ==> !(0x30 <= input[end] <= 0x39) && input[end] != 0x2e && input[end]
            != 0x65 && input[end] != 0x45,
        !opens_prefixed(input, i),
    ensures
        lexer::token_at(input, i) matches Ok((TokenView::Num(t), next)) && next == end && spells(
            t,
            input,
            i,
            end,
        ),
{
    run_reaches(input, i, end, Run::Digits);
    ascii_spells(input, i, end);
}

/// A zero at `i` opens a `0x` or a `0b` literal: an `x` and a hexadecimal digit, or a
/// `b` and a binary one, are behind it.
pub open spec fn opens_prefixed(input: Seq<u8>, i: int) -> bool {
    &&& i + 2 < input.len()
    &&& input[i] == 0x30
    &&& {
        ||| (input[i + 1] == 0x78 || input[i + 1] == 0x58) && (0x30 <= input[i + 2] <= 0x39 || 0x41
            <= input[i + 2] <= 0x46 || 0x61 <= input[i + 2] <= 0x66)
        ||| (input[i + 1] == 0x62 || input[i + 1] == 0x42) && (input[i + 2] == 0x30 || input[i + 2]
            == 0x31)
    }
}

/// Digits, a point and digits, with no digit, `e` or `E` behind them, are one number:
/// all of them, up to the last digit. The digits on one side of the point may be
/// missing.
pub proof fn decimals_are_one_number(input: Seq<u8>, i: int, point: int, end: int)
    requires
        0 <= i <= point < end <= input.len(),
        input[point] == 0x2e,
        forall|k: int| i <= k < point ==> 0x30 <= #[trigger] input[k] <= 0x39,
        forall|k: int| point < k < end ==> 0x30 <= #[trigger] input[k] <= 0x39,
        i < point || point + 1 < end,
        end < input.len() ==> !(0x30 <= input[end] <= 0x39) && input[end] != 0x65 && input[end]
            != 0x45,
    ensures
        lexer::token_at(input, i) matches Ok((TokenView::Num(t), next)) && next == end && spells(
            t,
            input,
            i,
            end,
        ),
{
    run_reaches(input, i, point, Run::Digits);
    run_reaches(input, point + 1, end, Run::Digits);
    ascii_spells(input, i, end);
    if i == point {
        assert(lexer::digit(input[i + 1]));
    }
}

/// An exponent belongs to the number in front of it: an `e` or `E`, a sign where there
/// is one, and digits that no further digit follows.
pub proof fn exponent_belongs_to_the_number(
    input: Seq<u8>,
    i: int,
    point: int,
    mark: int,
    digits: int,
    end: int,
)
    requires
        0 <= i <= point <= mark < digits < end <= input.len(),
        forall|k: int| i <= k < point ==> 0x30 <= #[trigger] input[k] <= 0x39,
        point < mark ==> input[point] == 0x2e,
        forall|k: int| point < k < mark ==> 0x30 <= #[trigger] input[k] <= 0x39,
        i < point || point + 1 < mark,
        input[mark] == 0x65 || input[mark] == 0x45,
        digits == mark + 1 || (digits == mark + 2 && (input[mark + 1] == 0x2b || input[mark + 1]
            == 0x2d)),
        forall|k: int| digits <= k < end ==> 0x30 <= #[trigger] input[k] <= 0x39,
        end < input.len() ==> !(0x30 <= input[end] <= 0x39),
    ensures
        lexer::token_at(input, i) matches Ok((TokenView::Num(t), next)) && next == end && spells(
            t,
            input,
            i,
            end,
        ),
{
    run_reaches(input, i, point, Run::Digits);
    if point < mark {
        run_reaches(input, point + 1, mark, Run::Digits);
    }
    assert(lexer::digit(input[digits]));
    run_reaches(input, digits, end, Run::Digits);
    ascii_spells(input, i, end);
    if i == point {
        assert(lexer::digit(input[i + 1]));
    }
}

// ---------------------------------------------------------------------------
// Binary literals
// ---------------------------------------------------------------------------
/// The number that a hexadecimal digit denotes.
pub open spec fn hex_digit_value(c: char) -> nat {
    if '0' <= c <= '9' {
        (c as nat - 48) as nat
    } else if 'A' <= c <= 'F' {
        (c as nat - 55) as nat
    } else {
        (c as nat - 87) as nat
    }
}

/// The number that hexadecimal digits denote.
pub open spec fn hex_value(t: Seq<char>) -> nat
    decreases t.len(),
{
    if t.len() == 0 {
        0
    } else {
        16 * hex_value(t.drop_last()) + hex_digit_value(t.last())
    }
}

/// The number that binary digits from `i` to `end` denote.
pub open spec fn binary_value(input: Seq<u8>, i: int, end: int) -> nat
    decreases end - i,
{
    if end <= i {
        0
    } else if input[end - 1] == 0x31 {
        2 * binary_value(input, i, end - 1) + 1
    } else {
        2 * binary_value(input, i, end - 1)
    }
}

spec fn two_to(n: nat) -> nat
    decreases n,
{
    if n == 0 {
        1
    } else {
        2 * two_to((n - 1) as nat)
    }
}

spec fn sixteen_to(n: nat) -> nat
    decreases n,
{
    if n == 0 {
        1
    } else {
        16 * sixteen_to((n - 1) as nat)
    }
}

proof fn bits_are_few(input: Seq<u8>, i: int, end: int)
    requires
        i <= end,
    ensures
        binary_value(input, i, end) < two_to((end - i) as nat),
    decreases end - i,
{
    if i < end {
        bits_are_few(input, i, end - 1);
    }
}

proof fn powers_agree(n: nat)
    ensures
        sixteen_to(n) == two_to(4 * n),
        n > 0 ==> two_to(4 * n) == 16 * two_to((4 * n - 4) as nat),
    decreases n,
{
    if n > 0 {
        powers_agree((n - 1) as nat);
        reveal_with_fuel(two_to, 5);
        assert(two_to(4 * n) == 2 * two_to((4 * n - 1) as nat));
        assert(two_to((4 * n - 1) as nat) == 2 * two_to((4 * n - 2) as nat));
        assert(two_to((4 * n - 2) as nat) == 2 * two_to((4 * n - 3) as nat));
        assert(two_to((4 * n - 3) as nat) == 2 * two_to((4 * n - 4) as nat));
    }
}

proof fn powers_grow(a: nat, b: nat)
    requires
        a <= b,
    ensures
        0 < two_to(a) <= two_to(b),
    decreases b,
{
    if a < b {
        powers_grow(a, (b - 1) as nat);
    } else if b > 0 {
        powers_grow((a - 1) as nat, (b - 1) as nat);
    }
}

proof fn hex_text_denotes(v: nat, n: nat)
    requires
        v < sixteen_to(n),
    ensures
        lexer::hex_text(v, n).len() == n,
        hex_value(lexer::hex_text(v, n)) == v,
    decreases n,
{
    if n > 0 {
        hex_text_denotes(v / 16, (n - 1) as nat);
        let t = lexer::hex_text(v, n);
        assert(t.drop_last() =~= lexer::hex_text(v / 16, (n - 1) as nat));
        assert(hex_digit_value(t.last()) == v % 16);
    }
}

proof fn bits_value_is(input: Seq<u8>, i: int, end: int)
    requires
        0 <= i <= end <= input.len(),
        forall|k: int| i <= k < end ==> #[trigger] input[k] == 0x30 || input[k] == 0x31,
    ensures
        lexer::bits_value(input.subrange(i, end)) == binary_value(input, i, end),
    decreases end - i,
{
    if i < end {
        bits_value_is(input, i, end - 1);
        assert(input.subrange(i, end).drop_last() =~= input.subrange(i, end - 1));
        assert(input.subrange(i, end).last() == input[end - 1]);
    }
}

proof fn bits_to_hex_denotes(input: Seq<u8>, i: int, end: int)
    requires
        0 <= i <= end <= input.len(),
        forall|k: int| i <= k < end ==> #[trigger] input[k] == 0x30 || input[k] == 0x31,
    ensures
        ({
            let t = lexer::bits_to_hex(input.subrange(i, end));
            t.len() == 2 * ((end - i + 7) / 8) && hex_value(t) == binary_value(input, i, end)
        }),
{
    let n = (2 * ((end - i + 7) / 8)) as nat;
    bits_value_is(input, i, end);
    bits_are_few(input, i, end);
    powers_agree(n);
    powers_grow((end - i) as nat, 4 * n);
    hex_text_denotes(binary_value(input, i, end), n);
}

/// `0b` and binary digits are a binary literal of the same number, two hexadecimal
/// digits for every eight bits or part of eight.
pub proof fn bit_literal_keeps_its_number(input: Seq<u8>, i: int, end: int)
    requires
        0 <= i,
        i + 2 < end <= input.len(),
        input[i] == 0x30,
        input[i + 1] == 0x62 || input[i + 1] == 0x42,
        forall|k: int| i + 2 <= k < end ==> #[trigger] input[k] == 0x30 || input[k] == 0x31,
        end < input.len() ==> input[end] != 0x30 && input[end] != 0x31,
    ensures
        lexer::token_at(input, i) matches Ok((TokenView::Blob(t), next)) && next == end && t.len()
            == 2 * ((end - i - 2 + 7) / 8) && hex_value(t) == binary_value(input, i + 2, end),
{
    assert(input[i + 2] == 0x30 || input[i + 2] == 0x31);
    run_reaches(input, i + 2, end, Run::BitDigits);
    bits_to_hex_denotes(input, i + 2, end);
}

/// `b'...'` is the same, with a quote behind the last digit.
pub proof fn bit_string_keeps_its_number(input: Seq<u8>, i: int, end: int)
    requires
        0 <= i,
        i + 2 <= end < input.len(),
        input[i] == 0x62 || input[i] == 0x42,
        input[i + 1] == 0x27,
        forall|k: int| i + 2 <= k < end ==> #[trigger] input[k] == 0x30 || input[k] == 0x31,
        input[end] != 0x30 && input[end] != 0x31,
    ensures
        input[end] == 0x27 ==> (lexer::token_at(input, i) matches Ok((TokenView::Blob(t), next))
            && next == end + 1 && t.len() == 2 * ((end - i - 2 + 7) / 8) && hex_value(t)
            == binary_value(input, i + 2, end)),
        input[end] != 0x27 ==> lexer::token_at(input, i) == Err::<(TokenView, int), ParseErrorView>(
            ParseErrorView::Unterminated { offset: i, kind: "bit literal"@ },
        ),
{
    run_reaches(input, i + 2, end, Run::BitDigits);
    bits_to_hex_denotes(input, i + 2, end);
}

/// `0x` and hexadecimal digits are a binary literal of those digits, with a zero in
/// front where their number is odd.
pub proof fn hex_literal_keeps_its_digits(input: Seq<u8>, i: int, end: int)
    requires
        0 <= i,
        i + 2 < end <= input.len(),
        input[i] == 0x30,
        input[i + 1] == 0x78 || input[i + 1] == 0x58,
        forall|k: int|
            i + 2 <= k < end ==> 0x30 <= #[trigger] input[k] <= 0x39 || 0x41 <= input[k] <= 0x46
                || 0x61 <= input[k] <= 0x66,
        end < input.len() ==> !(0x30 <= input[end] <= 0x39 || 0x41 <= input[end] <= 0x46 || 0x61
            <= input[end] <= 0x66),
    ensures
        lexer::token_at(input, i) matches Ok((TokenView::Blob(t), next)) && next == end && {
            &&& t.len() % 2 == 0
            &&& (end - i) % 2 == 0 ==> spells(t, input, i + 2, end)
            &&& (end - i) % 2 == 1 ==> t.len() > 0 && t[0] == '0' && spells(
                t.skip(1),
                input,
                i + 2,
                end,
            )
        },
{
    assert(lexer::hex_digit(input[i + 2]));
    run_reaches(input, i + 2, end, Run::HexDigits);
    let digits = text::ascii_chars(input.subrange(i + 2, end));
    ascii_spells(input, i + 2, end);
    assert((seq!['0'] + digits).skip(1) =~= digits);
}

/// `X'...'` holds an even number of hexadecimal digits, and is a binary literal of
/// them.
pub proof fn hex_string_keeps_its_digits(input: Seq<u8>, i: int, end: int)
    requires
        0 <= i,
        i + 2 <= end < input.len(),
        input[i] == 0x78 || input[i] == 0x58,
        input[i + 1] == 0x27,
        forall|k: int|
            i + 2 <= k < end ==> 0x30 <= #[trigger] input[k] <= 0x39 || 0x41 <= input[k] <= 0x46
                || 0x61 <= input[k] <= 0x66,
        !(0x30 <= input[end] <= 0x39 || 0x41 <= input[end] <= 0x46 || 0x61 <= input[end] <= 0x66),
    ensures
        input[end] == 0x27 && (end - i) % 2 == 0 ==> (lexer::token_at(input, i) matches Ok(
            (TokenView::Blob(t), next),
        ) && next == end + 1 && spells(t, input, i + 2, end)),
        input[end] == 0x27 && (end - i) % 2 == 1 ==> lexer::token_at(input, i) matches Err(
            ParseErrorView::Unsupported(_),
        ),
        input[end] != 0x27 ==> lexer::token_at(input, i) == Err::<(TokenView, int), ParseErrorView>(
            ParseErrorView::Unterminated { offset: i, kind: "hex literal"@ },
        ),
{
    run_reaches(input, i + 2, end, Run::HexDigits);
    ascii_spells(input, i + 2, end);
}

// ---------------------------------------------------------------------------
// Words and variables
// ---------------------------------------------------------------------------
/// A word starts with a letter, `_`, `$` or a byte beyond ASCII, goes on with those
/// and digits, and ends where none of them stands. Its text is what its bytes encode.
pub proof fn words_are_whole(input: Seq<u8>, i: int, end: int)
    requires
        0 <= i < end <= input.len(),
        !(0x30 <= input[i] <= 0x39),
        forall|k: int|
            i <= k < end ==> 0x41 <= #[trigger] input[k] <= 0x5a || 0x61 <= input[k] <= 0x7a
                || 0x30 <= input[k] <= 0x39 || input[k] == 0x5f || input[k] == 0x24 || input[k]
                >= 0x80,
        end < input.len() ==> !(0x41 <= input[end] <= 0x5a || 0x61 <= input[end] <= 0x7a || 0x30
            <= input[end] <= 0x39 || input[end] == 0x5f || input[end] == 0x24 || input[end] >= 0x80),
        end == i + 1 && end < input.len() && input[end] == 0x27 ==> input[i] != 0x78 && input[i]
            != 0x58 && input[i] != 0x62 && input[i] != 0x42,
    ensures
        lexer::token_at(input, i) == Ok::<(TokenView, int), ParseErrorView>(
            (TokenView::Word(text::lossy_text(input.subrange(i, end))), end),
        ),
{
    assert(lexer::ident_start(input[i]));
    run_reaches(input, i, end, Run::Identifier);
    if i + 1 < end {
        assert(lexer::ident_cont(input[i + 1]));
    }
}

/// `@@` and a name are a system variable of that name.
pub proof fn variables_are_whole(input: Seq<u8>, i: int, end: int)
    requires
        0 <= i,
        i + 2 <= end <= input.len(),
        input[i] == 0x40,
        input[i + 1] == 0x40,
        forall|k: int|
            i + 2 <= k < end ==> 0x41 <= #[trigger] input[k] <= 0x5a || 0x61 <= input[k] <= 0x7a
                || 0x30 <= input[k] <= 0x39 || input[k] == 0x5f || input[k] == 0x24 || input[k]
                == 0x2e || input[k] >= 0x80,
        end < input.len() ==> !(0x41 <= input[end] <= 0x5a || 0x61 <= input[end] <= 0x7a || 0x30
            <= input[end] <= 0x39 || input[end] == 0x5f || input[end] == 0x24 || input[end] == 0x2e
            || input[end] >= 0x80),
    ensures
        lexer::token_at(input, i) == Ok::<(TokenView, int), ParseErrorView>(
            (
                TokenView::SystemVar(
                    lexer::without_scope(text::lossy_text(input.subrange(i + 2, end))),
                ),
                end,
            ),
        ),
{
    run_reaches(input, i + 2, end, Run::Variable);
}

/// The scopes `session.`, `global.` and `local.`, in any case, are no part of a
/// variable's name; any other name is kept whole.
pub proof fn scopes_are_left_out(scope: Seq<char>, name: Seq<char>)
    requires
        forall|k: int| 0 <= k < scope.len() ==> #[trigger] scope[k] != '.',
    ensures
        text::lowered(scope) == "session"@ || text::lowered(scope) == "global"@ || text::lowered(
            scope,
        ) == "local"@ ==> lexer::without_scope(scope + seq!['.'] + name) == name,
        !(text::lowered(scope) == "session"@ || text::lowered(scope) == "global"@ || text::lowered(
            scope,
        ) == "local"@) ==> lexer::without_scope(scope + seq!['.'] + name) == scope + seq!['.']
            + name,
        lexer::without_scope(scope) == scope,
{
    let raw = scope + seq!['.'] + name;
    let n = scope.len() as int;
    assert forall|k: int| 0 <= k < n implies #[trigger] raw[k] != '.' by {
        assert(raw[k] == scope[k]);
    }
    assert(raw[n] == '.');
    text::char_pos_is(raw, '.', 0, n);
    text::char_pos_is(scope, '.', 0, n);
    assert(raw.take(n) =~= scope);
    assert(raw.skip(n + 1) =~= name);
}

// ---------------------------------------------------------------------------
// Marks
// ---------------------------------------------------------------------------
/// Marks of one character.
pub proof fn single_marks(input: Seq<u8>, i: int)
    requires
        0 <= i < input.len(),
    ensures
        input[i] == 0x28 ==> lexer::token_at(input, i) == Ok::<(TokenView, int), ParseErrorView>(
            (TokenView::LParen, i + 1),
        ),
        input[i] == 0x29 ==> lexer::token_at(input, i) == Ok::<(TokenView, int), ParseErrorView>(
            (TokenView::RParen, i + 1),
        ),
        input[i] == 0x2c ==> lexer::token_at(input, i) == Ok::<(TokenView, int), ParseErrorView>(
            (TokenView::Comma, i + 1),
        ),
        input[i] == 0x3b ==> lexer::token_at(input, i) == Ok::<(TokenView, int), ParseErrorView>(
            (TokenView::Semicolon, i + 1),
        ),
        input[i] == 0x3d ==> lexer::token_at(input, i) == Ok::<(TokenView, int), ParseErrorView>(
            (TokenView::Eq, i + 1),
        ),
        input[i] == 0x2a ==> lexer::token_at(input, i) == Ok::<(TokenView, int), ParseErrorView>(
            (TokenView::Star, i + 1),
        ),
        input[i] == 0x2b ==> lexer::token_at(input, i) == Ok::<(TokenView, int), ParseErrorView>(
            (TokenView::Plus, i + 1),
        ),
        input[i] == 0x3f ==> lexer::token_at(input, i) == Ok::<(TokenView, int), ParseErrorView>(
            (TokenView::Param, i + 1),
        ),
        input[i] == 0x2e && !(i + 1 < input.len() && 0x30 <= input[i + 1] <= 0x39)
            ==> lexer::token_at(input, i) == Ok::<(TokenView, int), ParseErrorView>(
            (TokenView::Dot, i + 1),
        ),
{
}

/// Marks that start alike are told apart by what follows, and the longest is taken:
/// `<`, `<=`, `<=>`, `<>`, `<<`, `>`, `>=`, `>>`, `!=`, `&&`, `-`, `->`, `->>`.
pub proof fn longest_mark_is_taken(input: Seq<u8>, i: int)
    requires
        0 <= i < input.len(),
    ensures
        ({
            let next = if i + 1 < input.len() {
                input[i + 1]
            } else {
                0
            };
            let third = if i + 2 < input.len() {
                input[i + 2]
            } else {
                0
            };
            let t = lexer::token_at(input, i);
            &&& input[i] == 0x3c && next == 0x3d && third == 0x3e ==> t == Ok::<
                (TokenView, int),
                ParseErrorView,
            >((TokenView::Spaceship, i + 3))
            &&& input[i] == 0x3c && next == 0x3d && third != 0x3e ==> t == Ok::<
                (TokenView, int),
                ParseErrorView,
            >((TokenView::Le, i + 2))
            &&& input[i] == 0x3c && next == 0x3e ==> t == Ok::<(TokenView, int), ParseErrorView>(
                (TokenView::Ne, i + 2),
            )
            &&& input[i] == 0x3c && next == 0x3c ==> t == Ok::<(TokenView, int), ParseErrorView>(
                (TokenView::ShiftLeft, i + 2),
            )
            &&& input[i] == 0x3c && next != 0x3d && next != 0x3e && next != 0x3c ==> t == Ok::<
                (TokenView, int),
                ParseErrorView,
            >((TokenView::Lt, i + 1))
            &&& input[i] == 0x3e && next == 0x3d ==> t == Ok::<(TokenView, int), ParseErrorView>(
                (TokenView::Ge, i + 2),
            )
            &&& input[i] == 0x3e && next == 0x3e ==> t == Ok::<(TokenView, int), ParseErrorView>(
                (TokenView::ShiftRight, i + 2),
            )
            &&& input[i] == 0x3e && next != 0x3d && next != 0x3e ==> t == Ok::<
                (TokenView, int),
                ParseErrorView,
            >((TokenView::Gt, i + 1))
            &&& input[i] == 0x21 && next == 0x3d ==> t == Ok::<(TokenView, int), ParseErrorView>(
                (TokenView::Ne, i + 2),
            )
            &&& input[i] == 0x26 && next == 0x26 ==> t == Ok::<(TokenView, int), ParseErrorView>(
                (TokenView::AmpAmp, i + 2),
            )
            &&& input[i] == 0x2d && next == 0x3e && third == 0x3e ==> t == Ok::<
                (TokenView, int),
                ParseErrorView,
            >((TokenView::ArrowDouble, i + 3))
            &&& input[i] == 0x2d && next == 0x3e && third != 0x3e ==> t == Ok::<
                (TokenView, int),
                ParseErrorView,
            >((TokenView::Arrow, i + 2))
            &&& input[i] == 0x2d && next != 0x3e ==> t == Ok::<(TokenView, int), ParseErrorView>(
                (TokenView::Minus, i + 1),
            )
        }),
{
}

// ---------------------------------------------------------------------------
// Separators
// ---------------------------------------------------------------------------
/// Between tokens, a space, a tab, a line feed, a form feed and a carriage return are
/// skipped.
pub proof fn blanks_are_skipped(input: Seq<u8>, i: int)
    requires
        0 <= i < input.len(),
        input[i] == 0x20 || input[i] == 0x09 || input[i] == 0x0a || input[i] == 0x0c || input[i]
            == 0x0d,
    ensures
        lexer::tokens_from(input, i) == lexer::tokens_from(input, i + 1),
{
    skipping(input, i);
}

proof fn skipping(input: Seq<u8>, i: int)
    requires
        0 <= i < lexer::separator_end(input, i) <= input.len(),
    ensures
        lexer::tokens_from(input, i) == lexer::tokens_from(input, lexer::separator_end(input, i)),
{
    let next = lexer::separator_end(input, i);
    lexer::separators_do_not_matter(input, i);
    lexer::separators_do_not_matter(input, next);
    assert(lexer::trivia_end(input, i) == lexer::trivia_end(input, next));
}

proof fn line_reaches(input: Seq<u8>, i: int, end: int)
    requires
        0 <= i <= end < input.len(),
        forall|k: int| i <= k < end ==> #[trigger] input[k] != 0x0a,
        input[end] == 0x0a,
    ensures
        lexer::line_end(input, i) == end + 1,
    decreases end - i,
{
    if i < end {
        line_reaches(input, i + 1, end);
    }
}

proof fn line_runs_out(input: Seq<u8>, i: int)
    requires
        0 <= i <= input.len(),
        forall|k: int| i <= k < input.len() ==> #[trigger] input[k] != 0x0a,
    ensures
        lexer::line_end(input, i) == input.len(),
    decreases input.len() - i,
{
    if i < input.len() {
        line_runs_out(input, i + 1);
    }
}

/// From `#` on, or from two dashes and white space on, the rest of the line is
/// skipped.
pub proof fn line_comments_are_skipped(input: Seq<u8>, i: int, end: int)
    requires
        0 <= i < end < input.len(),
        input[i] == 0x23 || (i + 2 < input.len() && i + 2 <= end && input[i] == 0x2d && input[i + 1]
            == 0x2d && (input[i + 2] == 0x20 || input[i + 2] == 0x09 || input[i + 2] == 0x0a
            || input[i + 2] == 0x0c || input[i + 2] == 0x0d)),
        forall|k: int| i < k < end ==> #[trigger] input[k] != 0x0a,
        input[end] == 0x0a,
    ensures
        lexer::tokens_from(input, i) == lexer::tokens_from(input, end + 1),
{
    if input[i] == 0x23 {
        line_reaches(input, i, end);
    } else {
        line_reaches(input, i + 2, end);
    }
    skipping(input, i);
}

/// A line comment on the last line ends the statement.
pub proof fn last_line_comment_ends_all(input: Seq<u8>, i: int)
    requires
        0 <= i < input.len(),
        input[i] == 0x23 || (i + 1 < input.len() && input[i] == 0x2d && input[i + 1] == 0x2d && (i
            + 2 == input.len() || input[i + 2] == 0x20 || input[i + 2] == 0x09 || input[i + 2]
            == 0x0c || input[i + 2] == 0x0d)),
        forall|k: int| i < k < input.len() ==> #[trigger] input[k] != 0x0a,
    ensures
        lexer::tokens_from(input, i) == Ok::<Seq<(TokenView, int)>, ParseErrorView>(seq![]),
{
    if input[i] == 0x23 {
        line_runs_out(input, i);
    } else {
        line_runs_out(input, i + 2);
    }
    skipping(input, i);
}

/// Two dashes with no white space behind them are two minus signs.
pub proof fn dashes_alone_are_no_comment(input: Seq<u8>, i: int)
    requires
        0 <= i,
        i + 2 < input.len(),
        input[i] == 0x2d,
        input[i + 1] == 0x2d,
        !(input[i + 2] == 0x20 || input[i + 2] == 0x09 || input[i + 2] == 0x0a || input[i + 2]
            == 0x0c || input[i + 2] == 0x0d),
    ensures
        lexer::trivia_end(input, i) == i,
        lexer::token_at(input, i) == Ok::<(TokenView, int), ParseErrorView>(
            (TokenView::Minus, i + 1),
        ),
{
}

proof fn comment_reaches(input: Seq<u8>, i: int, end: int)
    requires
        0 <= i <= end,
        end + 1 < input.len(),
        forall|k: int| i <= k < end ==> !(#[trigger] input[k] == 0x2a && input[k + 1] == 0x2f),
        input[end] == 0x2a,
        input[end + 1] == 0x2f,
    ensures
        lexer::comment_end(input, i) == end + 2,
    decreases end - i,
{
    if i < end {
        assert(!(input[i] == 0x2a && input[i + 1] == 0x2f));
        comment_reaches(input, i + 1, end);
    }
}

proof fn comment_runs_out(input: Seq<u8>, i: int)
    requires
        0 <= i <= input.len(),
        forall|k: int|
            i <= k < input.len() - 1 ==> !(#[trigger] input[k] == 0x2a && input[k + 1] == 0x2f),
    ensures
        lexer::comment_end(input, i) == input.len(),
    decreases input.len() - i,
{
    if i < input.len() {
        if i < input.len() - 1 {
            assert(!(input[i] == 0x2a && input[i + 1] == 0x2f));
        }
        comment_runs_out(input, i + 1);
    }
}

/// What stands between `/*` and the next `*/` is skipped, unless it starts with `!`.
pub proof fn block_comments_are_skipped(input: Seq<u8>, i: int, end: int)
    requires
        0 <= i,
        i + 2 <= end,
        end + 1 < input.len(),
        input[i] == 0x2f,
        input[i + 1] == 0x2a,
        input[i + 2] != 0x21,
        forall|k: int| i + 2 <= k < end ==> !(#[trigger] input[k] == 0x2a && input[k + 1] == 0x2f),
        input[end] == 0x2a,
        input[end + 1] == 0x2f,
    ensures
        lexer::tokens_from(input, i) == lexer::tokens_from(input, end + 2),
{
    comment_reaches(input, i + 2, end);
    skipping(input, i);
}

/// A version comment that asks for more than 80000 is skipped up to its `*/`; one that
/// asks for that or less, or for nothing, is read on behind its digits.
pub proof fn version_comments_are_gated(input: Seq<u8>, i: int, digits: int, end: int)
    requires
        0 <= i,
        i + 3 <= digits <= end,
        end + 1 < input.len(),
        input[i] == 0x2f,
        input[i + 1] == 0x2a,
        input[i + 2] == 0x21,
        forall|k: int| i + 3 <= k < digits ==> 0x30 <= #[trigger] input[k] <= 0x39,
        !(0x30 <= input[digits] <= 0x39),
        forall|k: int|
            digits <= k < end ==> !(#[trigger] input[k] == 0x2a && input[k + 1] == 0x2f),
        input[end] == 0x2a,
        input[end + 1] == 0x2f,
    ensures
        ({
            let asked = numeric::digits_value(text::ascii_chars(input.subrange(i + 3, digits)));
            &&& asked > 80000 ==> lexer::tokens_from(input, i) == lexer::tokens_from(input, end + 2)
            &&& asked <= 80000 ==> lexer::tokens_from(input, i) == lexer::tokens_from(input, digits)
        }),
{
    run_reaches(input, i + 3, digits, Run::Digits);
    comment_reaches(input, digits, end);
    skipping(input, i);
}

/// The end of a version comment that was read on is skipped.
pub proof fn comment_ends_are_skipped(input: Seq<u8>, i: int)
    requires
        0 <= i,
        i + 1 < input.len(),
        input[i] == 0x2a,
        input[i + 1] == 0x2f,
    ensures
        lexer::tokens_from(input, i) == lexer::tokens_from(input, i + 2),
{
    skipping(input, i);
}

/// A block comment that is not closed takes the rest.
pub proof fn open_comment_takes_the_rest(input: Seq<u8>, i: int)
    requires
        0 <= i,
        i + 1 < input.len(),
        input[i] == 0x2f,
        input[i + 1] == 0x2a,
        i + 2 < input.len() ==> input[i + 2] != 0x21,
        forall|k: int|
            i + 2 <= k < input.len() - 1 ==> !(#[trigger] input[k] == 0x2a && input[k + 1] == 0x2f),
    ensures
        lexer::tokens_from(input, i) == Ok::<Seq<(TokenView, int)>, ParseErrorView>(seq![]),
{
    comment_runs_out(input, i + 2);
    skipping(input, i);
}

/// A statement is its first token and what stands behind it; the first that cannot be
/// read is the statement's error.
pub proof fn tokens_follow_each_other(input: Seq<u8>, i: int)
    requires
        0 <= i < input.len(),
        lexer::trivia_end(input, i) == i,
    ensures
        match lexer::token_at(input, i) {
            Err(e) => lexer::tokens_from(input, i) == Err::<
                Seq<(TokenView, int)>,
                ParseErrorView,
            >(e),
            Ok((token, end)) => match lexer::tokens_from(input, end) {
                Err(e) => lexer::tokens_from(input, i) == Err::<
                    Seq<(TokenView, int)>,
                    ParseErrorView,
                >(e),
                Ok(rest) => lexer::tokens_from(input, i) == Ok::<
                    Seq<(TokenView, int)>,
                    ParseErrorView,
                >(seq![(token, i)] + rest),
            },
        },
{
    lexer::token_moves(input, i);
}

// ---------------------------------------------------------------------------
// Escapes and open quotes
// ---------------------------------------------------------------------------
/// In a string literal a backslash and a letter stand for a control character: `0`
/// for NUL, `b` for a backspace, `n` for a line feed, `r` for a carriage return, `t`
/// for a tab, `Z` for byte 26. `\\%` and `\\_` stay as they are, and any other byte
/// stands for itself.
pub proof fn escapes(c: u8)
    ensures
        c == 0x30 ==> lexer::escaped(c) == seq![0x00u8],
        c == 0x62 ==> lexer::escaped(c) == seq![0x08u8],
        c == 0x6e ==> lexer::escaped(c) == seq![0x0au8],
        c == 0x72 ==> lexer::escaped(c) == seq![0x0du8],
        c == 0x74 ==> lexer::escaped(c) == seq![0x09u8],
        c == 0x5a ==> lexer::escaped(c) == seq![0x1au8],
        c == 0x25 || c == 0x5f ==> lexer::escaped(c) == seq![0x5cu8, c],
        c != 0x30 && c != 0x62 && c != 0x6e && c != 0x72 && c != 0x74 && c != 0x5a && c != 0x25 && c
            != 0x5f ==> lexer::escaped(c) == seq![c],
{
}

/// A literal of one escape and a closing quote.
pub proof fn escape_in_a_literal(input: Seq<u8>, i: int, quote: u8)
    requires
        0 <= i,
        i + 3 < input.len(),
        quote == 0x27 || quote == 0x22,
        input[i] == quote,
        input[i + 1] == 0x5c,
        input[i + 3] == quote,
        i + 4 < input.len() ==> input[i + 4] != quote,
    ensures
        lexer::token_at(input, i) == Ok::<(TokenView, int), ParseErrorView>(
            (TokenView::Str(text::lossy_text(lexer::escaped(input[i + 2]))), i + 4),
        ),
{
    reveal_with_fuel(lexer::literal, 3);
    let e = lexer::escaped(input[i + 2]);
    assert(e + Seq::<u8>::empty() =~= e);
}

proof fn literal_is_open(input: Seq<u8>, i: int, quote: u8)
    requires
        0 <= i,
        forall|k: int| i <= k < input.len() ==> #[trigger] input[k] != quote,
    ensures
        lexer::literal(input, i, quote) is None,
        lexer::delimited(input, i, quote) is None,
    decreases input.len() - i,
{
    if i < input.len() {
        literal_is_open(input, i + 1, quote);
        if i + 1 < input.len() {
            literal_is_open(input, i + 2, quote);
        }
    }
}

/// A quote that no further one follows is an error, which tells where it stands.
pub proof fn open_quotes_are_errors(input: Seq<u8>, i: int)
    requires
        0 <= i < input.len(),
        input[i] == 0x27 || input[i] == 0x22 || input[i] == 0x60,
        forall|k: int| i < k < input.len() ==> #[trigger] input[k] != input[i],
    ensures
        lexer::token_at(input, i) == Err::<(TokenView, int), ParseErrorView>(
            ParseErrorView::Unterminated {
                offset: i,
                kind: if input[i] == 0x60 {
                    "identifier"@
                } else {
                    "string literal"@
                },
            },
        ),
{
    literal_is_open(input, i + 1, input[i]);
}

// ---------------------------------------------------------------------------
// How tokens are spoken of
// ---------------------------------------------------------------------------
/// The bytes of ASCII text.
pub open spec fn ascii_bytes(s: Seq<char>) -> Seq<u8> {
    s.map_values(|c: char| c as u8)
}

/// A mark is spoken of as it is written: what stands between the backticks of its
/// description is read as that mark.
#[verifier::rlimit(60)]
pub proof fn marks_are_described_as_written(t: TokenView)
    requires
        !(t is Word || t is QuotedIdent || t is Str || t is Num || t is Blob || t is SystemVar
            || t is Other),
    ensures
        ({
            let d = token::description(t);
            let written = ascii_bytes(d.subrange(1, d.len() - 1));
            &&& d.len() >= 3
            &&& d[0] == '`'
            &&& d.last() == '`'
            &&& lexer::token_at(written, 0) == Ok::<(TokenView, int), ParseErrorView>(
                (t, d.len() - 2),
            )
        }),
{
    let d = token::description(t);
    let s = match t {
        TokenView::LParen => seq!['('],
        TokenView::RParen => seq![')'],
        TokenView::Comma => seq![','],
        TokenView::Dot => seq!['.'],
        TokenView::Semicolon => seq![';'],
        TokenView::Eq => seq!['='],
        TokenView::Spaceship => seq!['<', '=', '>'],
        TokenView::Lt => seq!['<'],
        TokenView::Le => seq!['<', '='],
        TokenView::Ne => seq!['<', '>'],
        TokenView::Ge => seq!['>', '='],
        TokenView::Gt => seq!['>'],
        TokenView::ShiftLeft => seq!['<', '<'],
        TokenView::ShiftRight => seq!['>', '>'],
        TokenView::AmpAmp => seq!['&', '&'],
        TokenView::Arrow => seq!['-', '>'],
        TokenView::ArrowDouble => seq!['-', '>', '>'],
        TokenView::Star => seq!['*'],
        TokenView::Minus => seq!['-'],
        TokenView::Plus => seq!['+'],
        _ => seq!['?'],
    };
    reveal_strlit("(");
    assert("("@ =~= seq!['(']);
    reveal_strlit(")");
    assert(")"@ =~= seq![')']);
    reveal_strlit(",");
    assert(","@ =~= seq![',']);
    reveal_strlit(".");
    assert("."@ =~= seq!['.']);
    reveal_strlit(";");
    assert(";"@ =~= seq![';']);
    reveal_strlit("=");
    assert("="@ =~= seq!['=']);
    reveal_strlit("<=>");
    assert("<=>"@ =~= seq!['<', '=', '>']);
    reveal_strlit("<");
    assert("<"@ =~= seq!['<']);
    reveal_strlit("<=");
    assert("<="@ =~= seq!['<', '=']);
    reveal_strlit("<>");
    assert("<>"@ =~= seq!['<', '>']);
    reveal_strlit(">=");
    assert(">="@ =~= seq!['>', '=']);
    reveal_strlit(">");
    assert(">"@ =~= seq!['>']);
    reveal_strlit("<<");
    assert("<<"@ =~= seq!['<', '<']);
    reveal_strlit(">>");
    assert(">>"@ =~= seq!['>', '>']);
    reveal_strlit("&&");
    assert("&&"@ =~= seq!['&', '&']);
    reveal_strlit("->");
    assert("->"@ =~= seq!['-', '>']);
    reveal_strlit("->>");
    assert("->>"@ =~= seq!['-', '>', '>']);
    reveal_strlit("*");
    assert("*"@ =~= seq!['*']);
    reveal_strlit("-");
    assert("-"@ =~= seq!['-']);
    reveal_strlit("+");
    assert("+"@ =~= seq!['+']);
    reveal_strlit("?");
    assert("?"@ =~= seq!['?']);
    assert(d =~= seq!['`'] + s + seq!['`']);
    assert(d.subrange(1, d.len() - 1) =~= s);
    let b = ascii_bytes(s);
    assert(b.len() == s.len());
    assert(b[0] == s[0] as u8);
    if s.len() > 1 {
        assert(b[1] == s[1] as u8);
    }
    if s.len() > 2 {
        assert(b[2] == s[2] as u8);
    }
}

/// Other tokens are spoken of by their text: a word as it is, a quoted identifier and
/// a number after what they are, a variable with its `@@`.
pub proof fn names_are_described(s: Seq<char>)
    ensures
        token::description(TokenView::Word(s)) == seq!['`'] + s + seq!['`'],
        token::description(TokenView::QuotedIdent(s)) == "identifier "@ + (seq!['`'] + s + seq![
            '`',
        ]),
        token::description(TokenView::Num(s)) == "number "@ + (seq!['`'] + s + seq!['`']),
        token::description(TokenView::SystemVar(s)) == seq!['`', '@', '@'] + s + seq!['`'],
        token::description(TokenView::Str(s)) == "a string literal"@,
        token::description(TokenView::Blob(s)) == "a binary literal"@,
{
    reveal_strlit("@@");
    assert("@@"@ =~= seq!['@', '@']);
    assert(seq!['`'] + ("@@"@ + s) + seq!['`'] =~= seq!['`', '@', '@'] + s + seq!['`']);
}

} // verus!
