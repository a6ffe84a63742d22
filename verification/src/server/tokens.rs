//! Splitting a statement into words, quoted strings and punctuation.

use vstd::prelude::*;

use crate::text;

verus! {

/// The one-character tokens.
pub open spec fn punct(c: char) -> bool {
    c == '.' || c == ',' || c == ';' || c == '(' || c == ')' || c == '='
}

/// The characters that end a bare word.
pub open spec fn word_break(c: char) -> bool {
    text::space(c) || punct(c) || c == '`' || c == '\'' || c == '"'
}

/// Where the bare word that `i` is in ends.
pub open spec fn word_end(s: Seq<char>, i: int) -> int
    decreases s.len() - i,
{
    if i >= s.len() || word_break(s[i]) {
        i
    } else {
        word_end(s, i + 1)
    }
}

/// The identifier whose opening backtick stands just before `i`: a doubled
/// backtick stands for one, a single one closes, and so does the end of the text.
pub open spec fn backtick_name(s: Seq<char>, i: int) -> Seq<char>
    decreases s.len() - i,
{
    if i >= s.len() {
        seq![]
    } else if s[i] != '`' {
        seq![s[i]] + backtick_name(s, i + 1)
    } else if i + 1 < s.len() && s[i + 1] == '`' {
        seq!['`'] + backtick_name(s, i + 2)
    } else {
        seq![]
    }
}

/// Where that identifier ends: just behind the closing backtick.
pub open spec fn backtick_end(s: Seq<char>, i: int) -> int
    decreases s.len() - i,
{
    if i >= s.len() {
        i
    } else if s[i] != '`' {
        backtick_end(s, i + 1)
    } else if i + 1 < s.len() && s[i + 1] == '`' {
        backtick_end(s, i + 2)
    } else {
        i + 1
    }
}

/// Where the quoted string that opens at `i` ends: just behind the next such
/// quote, or at the end of the text.
pub open spec fn quoted_end(s: Seq<char>, i: int) -> int {
    let close = text::char_pos(s, s[i], i + 1);
    if close < s.len() {
        close + 1
    } else {
        s.len() as int
    }
}

/// The tokens of `s` from position `i` on. White space separates tokens, a
/// backticked identifier is given without its backticks, a quoted string with
/// its quotes, each of `.,;()=` is a token of its own, and what is left are words.
pub open spec fn tokens_from(s: Seq<char>, i: int) -> Seq<Seq<char>>
    decreases s.len() - i,
{
    if i >= s.len() || i < 0 {
        seq![]
    } else if text::space(s[i]) {
        tokens_from(s, i + 1)
    } else if s[i] == '`' {
        proof {
            backtick_end_moves(s, i + 1);
        }
        seq![backtick_name(s, i + 1)] + tokens_from(s, backtick_end(s, i + 1))
    } else if s[i] == '\'' || s[i] == '"' {
        proof {
            text::char_pos_bounds(s, s[i], i + 1);
        }
        seq![s.subrange(i, quoted_end(s, i))] + tokens_from(s, quoted_end(s, i))
    } else if punct(s[i]) {
        seq![seq![s[i]]] + tokens_from(s, i + 1)
    } else {
        proof {
            word_end_moves(s, i + 1);
        }
        seq![s.subrange(i, word_end(s, i))] + tokens_from(s, word_end(s, i))
    }
}

/// The tokens of a statement.
pub open spec fn tokens(s: Seq<char>) -> Seq<Seq<char>> {
    tokens_from(s, 0)
}

pub proof fn backtick_end_moves(s: Seq<char>, i: int)
    ensures
        i <= backtick_end(s, i),
        i <= s.len() ==> backtick_end(s, i) <= s.len(),
    decreases s.len() - i,
{
    if i < s.len() {
        if s[i] != '`' {
            backtick_end_moves(s, i + 1);
        } else if i + 1 < s.len() && s[i + 1] == '`' {
            backtick_end_moves(s, i + 2);
        }
    }
}

pub proof fn word_end_moves(s: Seq<char>, i: int)
    ensures
        i <= word_end(s, i),
        i <= s.len() ==> word_end(s, i) <= s.len(),
    decreases s.len() - i,
{
    if i < s.len() && !word_break(s[i]) {
        word_end_moves(s, i + 1);
    }
}

fn is_punct(c: char) -> (r: bool)
    ensures
        r == punct(c),
{
    c == '.' || c == ',' || c == ';' || c == '(' || c == ')' || c == '='
}

fn is_word_break(c: char) -> (r: bool)
    ensures
        r == word_break(c),
{
    text::is_space(c) || is_punct(c) || c == '`' || c == '\'' || c == '"'
}

/// Reads a backticked identifier from just behind its opening backtick on.
fn read_backtick(s: &[char], i: usize) -> (r: (Vec<char>, usize))
    requires
        i <= s.len(),
    ensures
        r.0@ == backtick_name(s@, i as int),
        r.1 == backtick_end(s@, i as int),
        i <= r.1 <= s.len(),
{
    let mut name: Vec<char> = Vec::new();
    let mut k: usize = i;
    loop
        invariant
            i <= k <= s.len(),
            name@ + backtick_name(s@, k as int) == backtick_name(s@, i as int),
            backtick_end(s@, k as int) == backtick_end(s@, i as int),
        decreases s.len() - k,
    {
        if k >= s.len() {
            assert(name@ + backtick_name(s@, k as int) =~= name@);
            return (name, k);
        }
        let ghost before = name@;
        if s[k] != '`' {
            name.push(s[k]);
            assert(before + (seq![s@[k as int]] + backtick_name(s@, k + 1)) =~= name@
                + backtick_name(s@, k + 1));
            k = k + 1;
        } else if s.len() - k >= 2 && s[k + 1] == '`' {
            name.push('`');
            assert(before + (seq!['`'] + backtick_name(s@, k + 2)) =~= name@ + backtick_name(
                s@,
                k + 2,
            ));
            k = k + 2;
        } else {
            assert(name@ + backtick_name(s@, k as int) =~= name@);
            return (name, k + 1);
        }
    }
}

/// Splits a statement into tokens.
pub fn tokenize(statement: &str) -> (toks: Vec<String>)
    ensures
        toks.deep_view() == tokens(statement@),
{
    let chars = text::chars_of(statement);
    tokenize_chars(&chars)
}

/// Splits a statement, given by its characters, into tokens.
pub fn tokenize_chars(s: &[char]) -> (toks: Vec<String>)
    ensures
        toks.deep_view() == tokens(s@),
{
    let mut toks: Vec<String> = Vec::new();
    let mut i: usize = 0;
    assert(toks.deep_view() + tokens_from(s@, 0) =~= tokens(s@));
    while i < s.len()
        invariant
            i <= s.len(),
            toks.deep_view() + tokens_from(s@, i as int) == tokens(s@),
        decreases s.len() - i,
    {
        let c = s[i];
        let ghost before = toks.deep_view();
        if text::is_space(c) {
            i = i + 1;
        } else {
            let start: usize = i;
            let tok: String;
            if c == '`' {
                let (name, end) = read_backtick(s, i + 1);
                tok = text::string_of(&name);
                i = end;
            } else if c == '\'' || c == '"' {
                let close: usize = text::find_char(s, c, i + 1);
                i = if close < s.len() {
                    close + 1
                } else {
                    s.len()
                };
                tok = text::string_of(&s[start..i]);
            } else if is_punct(c) {
                i = i + 1;
                tok = text::string_of(&s[start..i]);
                assert(s@.subrange(start as int, i as int) =~= seq![c]);
            } else {
                while i < s.len() && !is_word_break(s[i])
                    invariant
                        start <= i <= s.len(),
                        start < s.len(),
                        !word_break(s@[start as int]),
                        word_end(s@, start as int) == word_end(s@, i as int),
                    decreases s.len() - i,
                {
                    i = i + 1;
                }
                proof {
                    word_end_moves(s@, start + 1);
                }
                tok = text::string_of(&s[start..i]);
            }
            toks.push(tok);
            assert(toks.deep_view() =~= before.push(tok@));
            assert(before + (seq![tok@] + tokens_from(s@, i as int)) =~= toks.deep_view()
                + tokens_from(s@, i as int));
        }
    }
    assert(toks.deep_view() + tokens_from(s@, i as int) =~= toks.deep_view());
    toks
}

// ---------------------------------------------------------------------------
// Laws
// ---------------------------------------------------------------------------
/// White space makes no token.
pub proof fn spaces_separate(s: Seq<char>, i: int)
    requires
        0 <= i < s.len(),
        s[i] == ' ' || s[i] == '\t' || s[i] == '\n' || s[i] == '\r',
    ensures
        tokens_from(s, i) == tokens_from(s, i + 1),
        tokens_from(s, s.len() as int).len() == 0,
{
}

/// Each of `.`, `,`, `;`, `(`, `)` and `=` is a token of its own.
pub proof fn marks_stand_alone(s: Seq<char>, i: int)
    requires
        0 <= i < s.len(),
        s[i] == '.' || s[i] == ',' || s[i] == ';' || s[i] == '(' || s[i] == ')' || s[i] == '=',
    ensures
        tokens_from(s, i) == seq![seq![s[i]]] + tokens_from(s, i + 1),
{
}

proof fn word_reaches(s: Seq<char>, i: int, end: int)
    requires
        0 <= i <= end <= s.len(),
        forall|k: int| i <= k < end ==> !word_break(#[trigger] s[k]),
        end < s.len() ==> word_break(s[end]),
    ensures
        word_end(s, i) == end,
    decreases end - i,
{
    if i < end {
        word_reaches(s, i + 1, end);
    }
}

/// A word is what stands up to the next white space, mark or quote.
pub proof fn words_are_tokens(s: Seq<char>, i: int, end: int)
    requires
        0 <= i < end <= s.len(),
        forall|k: int|
            i <= k < end ==> !text::space(#[trigger] s[k]) && s[k] != '.' && s[k] != ',' && s[k]
                != ';' && s[k] != '(' && s[k] != ')' && s[k] != '=' && s[k] != '`' && s[k] != '\''
                && s[k] != '"',
        end < s.len() ==> text::space(s[end]) || s[end] == '.' || s[end] == ',' || s[end] == ';'
            || s[end] == '(' || s[end] == ')' || s[end] == '=' || s[end] == '`' || s[end] == '\''
            || s[end] == '"',
    ensures
        tokens_from(s, i) == seq![s.subrange(i, end)] + tokens_from(s, end),
{
    assert(!word_break(s[i]));
    word_reaches(s, i, end);
}

/// A quoted string is a token with its quotes, up to the next such quote or the end.
pub proof fn strings_keep_their_quotes(s: Seq<char>, i: int, close: int)
    requires
        0 <= i < close <= s.len(),
        s[i] == '\'' || s[i] == '"',
        forall|k: int| i < k < close ==> #[trigger] s[k] != s[i],
        close < s.len() ==> s[close] == s[i],
    ensures
        close < s.len() ==> tokens_from(s, i) == seq![s.subrange(i, close + 1)] + tokens_from(
            s,
            close + 1,
        ),
        close == s.len() ==> tokens_from(s, i) == seq![s.subrange(i, close)],
{
    text::char_pos_is(s, s[i], i + 1, close);
    if close == s.len() {
        assert(tokens_from(s, close).len() == 0);
        assert(tokens_from(s, i) =~= seq![s.subrange(i, close)]);
    }
}

/// A name between backticks, with its own backticks doubled, is that name.
pub proof fn backticks_are_undone(s: Seq<char>, i: int, name: Seq<char>)
    requires
        0 <= i,
        i + text::doubled(name, '`').len() + 2 <= s.len(),
        s.subrange(i, i + text::doubled(name, '`').len() + 2) == seq!['`'] + text::doubled(
            name,
            '`',
        ) + seq!['`'],
        i + text::doubled(name, '`').len() + 2 < s.len() ==> s[i + text::doubled(name, '`').len()
            + 2] != '`',
    ensures
        tokens_from(s, i) == seq![name] + tokens_from(s, i + text::doubled(name, '`').len() + 2),
{
    let d = text::doubled(name, '`');
    let b = seq!['`'] + d + seq!['`'];
    let here = s.subrange(i, i + b.len());
    assert(here[0] == '`' && s[i] == here[0]);
    assert(s.subrange(i + 1, i + b.len()) =~= here.skip(1));
    assert(here.skip(1) =~= d + seq!['`']);
    backtick_reads_back(s, i + 1, name);
}

proof fn backtick_reads_back(s: Seq<char>, i: int, name: Seq<char>)
    requires
        0 <= i,
        i + text::doubled(name, '`').len() + 1 <= s.len(),
        s.subrange(i, i + text::doubled(name, '`').len() + 1) == text::doubled(name, '`')
            + seq!['`'],
        i + text::doubled(name, '`').len() + 1 < s.len() ==> s[i + text::doubled(name, '`').len()
            + 1] != '`',
    ensures
        backtick_name(s, i) == name,
        backtick_end(s, i) == i + text::doubled(name, '`').len() + 1,
    decreases name.len(),
{
    let d = text::doubled(name, '`');
    let b = d + seq!['`'];
    let here = s.subrange(i, i + b.len());
    assert(here[0] == b[0] && s[i] == here[0]);
    if name.len() > 0 {
        let rest = name.skip(1);
        let n: int = if name[0] == '`' {
            2
        } else {
            1
        };
        if n == 2 {
            assert(here[1] == b[1] && s[i + 1] == here[1]);
        }
        assert(s.subrange(i + n, i + b.len()) =~= here.skip(n));
        assert(here.skip(n) =~= text::doubled(rest, '`') + seq!['`']);
        backtick_reads_back(s, i + n, rest);
        assert(seq![name[0]] + rest =~= name);
    } else {
        assert(name =~= seq![]);
    }
}

} // verus!
