//! Statements about the session itself that are recognised by their text:
//! `SELECT ROW_COUNT()`, `SELECT FOUND_ROWS()` and those on `sql_mode`.

use vstd::prelude::*;

use crate::text;

verus! {

/// The words of a statement with single blanks between them, without the
/// semicolons that end it.
pub open spec fn normalized(sql: Seq<char>) -> Seq<char> {
    text::joined(text::words(text::trimmed_end_of(text::trimmed(sql), ';')), " "@)
}

/// Normalizes the white space of a statement.
fn normalize(sql: &str) -> (r: Vec<char>)
    ensures
        r@ == normalized(sql@),
{
    let chars = text::chars_of(sql);
    let bare = text::trim_end_of(text::trim(&chars), ';');
    let joined = text::join(&text::split_words(bare), " ");
    text::chars_of(joined.as_str())
}

/// The statement is `SELECT FOUND_ROWS()`.
pub open spec fn asks_found_rows(sql: Seq<char>) -> bool {
    text::fold_eq(normalized(sql), "SELECT FOUND_ROWS()"@) || text::fold_eq(
        normalized(sql),
        "SELECT FOUND_ROWS ()"@,
    )
}

/// Whether a statement is `SELECT FOUND_ROWS()`.
pub fn is_found_rows_query(sql: &str) -> (r: bool)
    ensures
        r == asks_found_rows(sql@),
{
    let n = normalize(sql);
    text::eq_fold(&n, &text::chars_of("SELECT FOUND_ROWS()")) || text::eq_fold(
        &n,
        &text::chars_of("SELECT FOUND_ROWS ()"),
    )
}

/// The statement is `SELECT ROW_COUNT()`.
pub open spec fn asks_row_count(sql: Seq<char>) -> bool {
    text::fold_eq(normalized(sql), "SELECT ROW_COUNT()"@) || text::fold_eq(
        normalized(sql),
        "SELECT ROW_COUNT ()"@,
    )
}

/// Whether a statement is `SELECT ROW_COUNT()`.
pub fn is_row_count_query(sql: &str) -> (r: bool)
    ensures
        r == asks_row_count(sql@),
{
    let n = normalize(sql);
    text::eq_fold(&n, &text::chars_of("SELECT ROW_COUNT()")) || text::eq_fold(
        &n,
        &text::chars_of("SELECT ROW_COUNT ()"),
    )
}

/// The statement is `SELECT @@[SESSION.|GLOBAL.]sql_mode`.
pub open spec fn asks_sql_mode(sql: Seq<char>) -> bool {
    let n = text::uppered(normalized(sql));
    n == "SELECT @@SQL_MODE"@ || n == "SELECT @@SESSION.SQL_MODE"@ || n
        == "SELECT @@GLOBAL.SQL_MODE"@
}

/// Whether a statement is `SELECT @@[SESSION.|GLOBAL.]sql_mode`.
pub fn is_select_sql_mode(sql: &str) -> (r: bool)
    ensures
        r == asks_sql_mode(sql@),
{
    let n = text::to_upper(&normalize(sql));
    text::is_text(&n, "SELECT @@SQL_MODE") || text::is_text(&n, "SELECT @@SESSION.SQL_MODE")
        || text::is_text(&n, "SELECT @@GLOBAL.SQL_MODE")
}

/// `s` starts with `p`, but for ASCII case.
pub open spec fn starts_fold(s: Seq<char>, p: Seq<char>) -> bool {
    s.len() >= p.len() && text::fold_eq(s.take(p.len() as int), p)
}

/// What follows `p`, where `s` starts with it, but for ASCII case.
fn strip_fold<'a>(s: &'a [char], p: &str) -> (r: Option<&'a [char]>)
    ensures
        match r {
            Some(rest) => starts_fold(s@, p@) && rest@ == s@.skip(p@.len() as int),
            None => !starts_fold(s@, p@),
        },
{
    let prefix = text::chars_of(p);
    let n: usize = prefix.len();
    if s.len() < n {
        return None;
    }
    let head = &s[0..n];
    assert(head@ =~= s@.take(n as int));
    if text::eq_fold(head, &prefix) {
        let rest = &s[n..s.len()];
        assert(rest@ =~= s@.skip(n as int));
        Some(rest)
    } else {
        None
    }
}

/// What follows the scope of a variable, if one is given.
pub open spec fn without_scope(s: Seq<char>) -> Seq<char> {
    if starts_fold(s, "SESSION "@) {
        text::trimmed_start(s.skip("SESSION "@.len() as int))
    } else if starts_fold(s, "GLOBAL "@) {
        text::trimmed_start(s.skip("GLOBAL "@.len() as int))
    } else if starts_fold(s, "@@session."@) {
        text::trimmed_start(s.skip("@@session."@.len() as int))
    } else if starts_fold(s, "@@global."@) {
        text::trimmed_start(s.skip("@@global."@.len() as int))
    } else if starts_fold(s, "@@"@) {
        text::trimmed_start(s.skip("@@"@.len() as int))
    } else {
        s
    }
}

/// What a string literal denotes; `None` if `s` is not one such literal and nothing
/// else. Within the literal a quote is written twice.
pub open spec fn literal(s: Seq<char>) -> Option<Seq<char>> {
    if s.len() >= 2 && s[0] == '\'' && s.last() == '\'' {
        let inner = s.subrange(1, s.len() - 1);
        let value = text::undoubled(inner, '\'');
        if text::doubled(value, '\'') == inner {
            Some(value)
        } else {
            None
        }
    } else {
        None
    }
}

/// The mode that `SET [SESSION|GLOBAL] sql_mode = '...'` sets; `None` for any other
/// statement.
pub open spec fn sql_mode_set(sql: Seq<char>) -> Option<Seq<char>> {
    let s = text::trimmed(text::trimmed_end_of(text::trimmed(sql), ';'));
    if !starts_fold(s, "SET "@) {
        None
    } else {
        let rest = without_scope(text::trimmed_start(s.skip("SET "@.len() as int)));
        if !starts_fold(rest, "sql_mode"@) {
            None
        } else {
            let after = text::trimmed_start(rest.skip("sql_mode"@.len() as int));
            if after.len() > 0 && after[0] == '=' {
                literal(text::trimmed_start(after.skip(1)))
            } else {
                None
            }
        }
    }
}

fn strip_scope(s: &[char]) -> (r: &[char])
    ensures
        r@ == without_scope(s@),
{
    if let Some(rest) = strip_fold(s, "SESSION ") {
        text::trim_start(rest)
    } else if let Some(rest) = strip_fold(s, "GLOBAL ") {
        text::trim_start(rest)
    } else if let Some(rest) = strip_fold(s, "@@session.") {
        text::trim_start(rest)
    } else if let Some(rest) = strip_fold(s, "@@global.") {
        text::trim_start(rest)
    } else if let Some(rest) = strip_fold(s, "@@") {
        text::trim_start(rest)
    } else {
        s
    }
}

/// Reads the mode that a `SET [SESSION|GLOBAL] sql_mode = '...'` sets. Only a
/// single assignment of a quoted string is recognised.
pub fn parse_set_sql_mode(sql: &str) -> (r: Option<String>)
    ensures
        r.deep_view() == sql_mode_set(sql@),
{
    let chars = text::chars_of(sql);
    let s = text::trim(text::trim_end_of(text::trim(&chars), ';'));
    let rest = match strip_fold(s, "SET ") {
        None => return None,
        Some(rest) => strip_scope(text::trim_start(rest)),
    };
    let after = match strip_fold(rest, "sql_mode") {
        None => return None,
        Some(after) => text::trim_start(after),
    };
    match text::strip_first(after, '=') {
        None => None,
        Some(value) => {
            let v = text::trim_start(value);
            if v.len() >= 2 && v[0] == '\'' && v[v.len() - 1] == '\'' {
                let inner = &v[1..v.len() - 1];
                assert(inner@ =~= v@.subrange(1, v@.len() - 1));
                let mode = text::undouble(inner, '\'');
                if text::same(&text::double(&mode, '\''), inner) {
                    return Some(text::string_of(&mode));
                }
            }
            None
        },
    }
}

/// A statement that sets a mode is recognised, whatever the mode.
pub proof fn sql_mode_is_read_back(mode: Seq<char>)
    ensures
        sql_mode_set("SET sql_mode = '"@ + text::doubled(mode, '\'') + seq!['\'']) == Some(mode),
{
    let quoted = seq!['\''] + text::doubled(mode, '\'') + seq!['\''];
    let sql = "SET sql_mode = '"@ + text::doubled(mode, '\'') + seq!['\''];
    reveal_strlit("SET sql_mode = '");
    reveal_strlit("SET ");
    reveal_strlit("SESSION ");
    reveal_strlit("GLOBAL ");
    reveal_strlit("@@session.");
    reveal_strlit("@@global.");
    reveal_strlit("@@");
    reveal_strlit("sql_mode");
    assert(sql[0] == 'S' && sql.last() == '\'');
    assert(text::trimmed(sql) == sql);
    assert(text::trimmed_end_of(sql, ';') == sql);
    assert(sql.take(4) =~= "SET "@);
    let rest = sql.skip(4);
    assert(rest[0] == 's');
    assert(text::trimmed_start(rest) == rest);
    assert(text::lowered(rest.take(8))[0] == 's' && text::lowered("SESSION "@)[0] == 's');
    assert(text::lowered(rest.take(8))[1] == 'q' && text::lowered("SESSION "@)[1] == 'e');
    assert(text::lowered(rest.take(7))[0] == 's' && text::lowered("GLOBAL "@)[0] == 'g');
    assert(text::lowered(rest.take(10))[0] == 's' && text::lowered("@@session."@)[0] == '@');
    assert(text::lowered(rest.take(9))[0] == 's' && text::lowered("@@global."@)[0] == '@');
    assert(text::lowered(rest.take(2))[0] == 's' && text::lowered("@@"@)[0] == '@');
    assert(without_scope(rest) == rest);
    assert(rest.take(8) =~= "sql_mode"@);
    let after = rest.skip(8);
    reveal_with_fuel(text::trimmed_start, 2);
    assert(after[0] == ' ' && after[1] == '=');
    assert(text::trimmed_start(after) == after.drop_first());
    let value = after.drop_first().skip(1);
    assert(value[0] == ' ' && value[1] == '\'');
    assert(text::trimmed_start(value) == value.drop_first());
    assert(value.drop_first() =~= quoted);
    assert(quoted.subrange(1, quoted.len() - 1) =~= text::doubled(mode, '\''));
    text::doubling_is_undone(mode, '\'');
}

/// The statement is a `SELECT` whose first item is `SQL_CALC_FOUND_ROWS`.
pub open spec fn calculates_found_rows(sql: Seq<char>) -> bool {
    let s = text::trimmed_start(sql);
    let after = text::trimmed_start(s.skip("SELECT"@.len() as int));
    let behind = after.skip("SQL_CALC_FOUND_ROWS"@.len() as int);
    starts_fold(s, "SELECT"@) && starts_fold(after, "SQL_CALC_FOUND_ROWS"@) && (behind.len() == 0
        || !extends_word(behind[0]))
}

/// `c` would make the word before it longer.
pub open spec fn extends_word(c: char) -> bool {
    '0' <= c <= '9' || 'a' <= c <= 'z' || 'A' <= c <= 'Z' || c == '_'
}

/// Whether a statement is a `SELECT` whose first item is `SQL_CALC_FOUND_ROWS`.
pub fn has_sql_calc_found_rows(sql: &str) -> (r: bool)
    ensures
        r == calculates_found_rows(sql@),
{
    let chars = text::chars_of(sql);
    let s = text::trim_start(&chars);
    match strip_fold(s, "SELECT") {
        None => false,
        Some(rest) => match strip_fold(text::trim_start(rest), "SQL_CALC_FOUND_ROWS") {
            None => false,
            Some(behind) => {
                if behind.len() == 0 {
                    return true;
                }
                let c = behind[0];
                !(('0' <= c && c <= '9') || ('a' <= c && c <= 'z') || ('A' <= c && c <= 'Z') || c
                    == '_')
            },
        },
    }
}

// ---------------------------------------------------------------------------
// Telling the statements apart
// ---------------------------------------------------------------------------
/// Leading white space is as long as what trimming takes away.
proof fn trimmed_start_is_rest(t: Seq<char>)
    ensures
        text::trimmed_start(t).len() <= t.len(),
        text::trimmed_start(t) == t.skip(t.len() - text::trimmed_start(t).len()),
        text::words_from(t, 0) == text::words_from(
            t,
            t.len() - text::trimmed_start(t).len(),
        ),
    decreases t.len(),
{
    if t.len() > 0 && text::space(t[0]) {
        let rest = t.drop_first();
        trimmed_start_is_rest(rest);
        let k = rest.len() - text::trimmed_start(rest).len();
        assert(t.skip(k + 1) =~= rest.skip(k));
        words_shift(t, 0);
        words_shift(t, k);
    } else {
        assert(t.skip(0) =~= t);
    }
}

proof fn space_pos_shift(t: Seq<char>, i: int)
    requires
        t.len() > 0,
        0 <= i,
    ensures
        text::space_pos(t.drop_first(), i) + 1 == text::space_pos(t, i + 1),
    decreases t.len() - i,
{
    if i < t.len() - 1 && !text::space(t[i + 1]) {
        space_pos_shift(t, i + 1);
    }
}

/// The words from a position on do not depend on what stands before it.
proof fn words_shift(t: Seq<char>, i: int)
    requires
        t.len() > 0,
        0 <= i,
    ensures
        text::words_from(t.drop_first(), i) == text::words_from(t, i + 1),
    decreases t.len() - i,
{
    let rest = t.drop_first();
    if i < rest.len() {
        if text::space(rest[i]) {
            words_shift(t, i + 1);
        } else {
            space_pos_shift(t, i);
            text::space_pos_bounds(rest, i + 1);
            let end = text::space_pos(rest, i);
            assert(end > i);
            words_shift(t, end);
            assert(rest.subrange(i, end) =~= t.subrange(i + 1, end + 1));
        }
    }
}

proof fn trimmed_end_is_prefix(t: Seq<char>)
    ensures
        text::trimmed_end(t).len() <= t.len(),
        text::trimmed_end(t) == t.take(text::trimmed_end(t).len() as int),
    decreases t.len(),
{
    if t.len() > 0 && text::space(t.last()) {
        trimmed_end_is_prefix(t.drop_last());
        let n = text::trimmed_end(t).len() as int;
        assert(t.drop_last().take(n) =~= t.take(n));
    } else {
        assert(t.take(t.len() as int) =~= t);
    }
}

proof fn start_has_no_space(t: Seq<char>)
    ensures
        text::trimmed_start(t).len() > 0 ==> !text::space(text::trimmed_start(t)[0]),
    decreases t.len(),
{
    if t.len() > 0 && text::space(t[0]) {
        start_has_no_space(t.drop_first());
    }
}

/// Trimmed text starts with no white space.
pub proof fn trimmed_starts_with_no_space(t: Seq<char>)
    ensures
        text::trimmed(t).len() > 0 ==> !text::space(text::trimmed(t)[0]),
{
    let start = text::trimmed_start(t);
    start_has_no_space(t);
    trimmed_end_is_prefix(start);
    if text::trimmed(t).len() > 0 {
        assert(text::trimmed(t)[0] == start[0]);
    }
}

/// Joined pieces start with the first of them.
proof fn joined_starts(pieces: Seq<Seq<char>>, sep: Seq<char>)
    requires
        pieces.len() > 0,
    ensures
        text::joined(pieces, sep).len() >= pieces[0].len(),
        text::joined(pieces, sep).take(pieces[0].len() as int) == pieces[0],
    decreases pieces.len(),
{
    let first = pieces[0];
    if pieces.len() == 1 {
        assert(first.take(first.len() as int) =~= first);
    } else {
        let front = text::joined(pieces.drop_last(), sep);
        joined_starts(pieces.drop_last(), sep);
        let all = text::joined(pieces, sep);
        assert(all.take(first.len() as int) =~= front.take(first.len() as int));
    }
}

/// The next white space is behind what is none.
proof fn space_is_behind(t: Seq<char>, i: int, end: int)
    requires
        0 <= i <= end <= t.len(),
        forall|j: int| i <= j < end ==> !text::space(#[trigger] t[j]),
    ensures
        end <= text::space_pos(t, i) <= t.len(),
    decreases end - i,
{
    if i < end {
        space_is_behind(t, i + 1, end);
    } else {
        text::space_pos_bounds(t, i);
    }
}

/// A normalized statement starts with the letters that the statement starts with.
pub proof fn normalized_starts(sql: Seq<char>, n: int)
    requires
        ({
            let s = text::trimmed(text::trimmed_end_of(text::trimmed(sql), ';'));
            &&& 0 < n <= s.len()
            &&& forall|j: int| 0 <= j < n ==> !text::space(#[trigger] s[j])
        }),
    ensures
        n <= normalized(sql).len(),
        forall|j: int|
            0 <= j < n ==> #[trigger] normalized(sql)[j] == text::trimmed(
                text::trimmed_end_of(text::trimmed(sql), ';'),
            )[j],
{
    let t = text::trimmed_end_of(text::trimmed(sql), ';');
    let s = text::trimmed(t);
    trimmed_start_is_rest(t);
    let start = text::trimmed_start(t);
    trimmed_end_is_prefix(start);
    let k = t.len() - start.len();
    assert forall|j: int| k <= j < k + n implies !text::space(#[trigger] t[j]) by {
        assert(start[j - k] == t[j]);
        assert(s[j - k] == start[j - k]);
    }
    space_is_behind(t, k, k + n);
    let end = text::space_pos(t, k);
    let words = text::words(t);
    assert(!text::space(s[0]) && s[0] == start[0]);
    assert(words[0] =~= t.subrange(k, end));
    joined_starts(words, " "@);
    let normal = normalized(sql);
    assert forall|j: int| 0 <= j < n implies #[trigger] normal[j] == s[j] by {
        assert(normal[j] == normal.take(words[0].len() as int)[j]);
        assert(words[0][j] == t[k + j]);
        assert(start[j] == t[k + j]);
    }
}

/// A statement that sets a mode starts with `SET` when normalized.
proof fn set_starts_with_set(sql: Seq<char>)
    requires
        sql_mode_set(sql) is Some,
    ensures
        normalized(sql).len() >= 3,
        text::lower_char(normalized(sql)[2]) == 't',
{
    let t = text::trimmed_end_of(text::trimmed(sql), ';');
    let s = text::trimmed(t);
    reveal_strlit("SET ");
    assert(text::lowered(s.take(4)) == text::lowered("SET "@));
    assert(text::lowered("SET "@)[0] == 's');
    assert(text::lowered("SET "@)[1] == 'e');
    assert(text::lowered("SET "@)[2] == 't');
    assert(text::lowered(s.take(4))[0] == text::lower_char(s[0]));
    assert(text::lowered(s.take(4))[1] == text::lower_char(s[1]));
    assert(text::lowered(s.take(4))[2] == text::lower_char(s[2]));
    normalized_starts(sql, 3);
}

proof fn case_is_lost(s: Seq<char>)
    ensures
        text::lowered(text::uppered(s)) == text::lowered(s),
{
    assert(text::lowered(text::uppered(s)) =~= text::lowered(s));
}

/// What asks for a value of the session starts with `SELECT` when normalized.
pub proof fn questions_start_with_select(sql: Seq<char>)
    requires
        asks_row_count(sql) || asks_found_rows(sql) || asks_sql_mode(sql),
    ensures
        normalized(sql).len() >= 3,
        text::lower_char(normalized(sql)[0]) == 's',
        text::lower_char(normalized(sql)[2]) == 'l',
{
    let n = normalized(sql);
    let low = text::lowered(n);
    case_is_lost(n);
    reveal_strlit("SELECT ROW_COUNT()");
    reveal_strlit("SELECT ROW_COUNT ()");
    reveal_strlit("SELECT FOUND_ROWS()");
    reveal_strlit("SELECT FOUND_ROWS ()");
    reveal_strlit("SELECT @@SQL_MODE");
    reveal_strlit("SELECT @@SESSION.SQL_MODE");
    reveal_strlit("SELECT @@GLOBAL.SQL_MODE");
    if asks_row_count(sql) {
        assert(low[0] == 's' && low[2] == 'l') by {
            assert(text::lowered("SELECT ROW_COUNT()"@)[0] == 's');
            assert(text::lowered("SELECT ROW_COUNT()"@)[2] == 'l');
            assert(text::lowered("SELECT ROW_COUNT ()"@)[0] == 's');
            assert(text::lowered("SELECT ROW_COUNT ()"@)[2] == 'l');
        }
    } else if asks_found_rows(sql) {
        assert(low[0] == 's' && low[2] == 'l') by {
            assert(text::lowered("SELECT FOUND_ROWS()"@)[0] == 's');
            assert(text::lowered("SELECT FOUND_ROWS()"@)[2] == 'l');
            assert(text::lowered("SELECT FOUND_ROWS ()"@)[0] == 's');
            assert(text::lowered("SELECT FOUND_ROWS ()"@)[2] == 'l');
        }
    } else {
        assert(low[0] == 's' && low[2] == 'l') by {
            let u = text::uppered(n);
            assert(text::lowered(u)[0] == text::lower_char(u[0]));
            assert(text::lowered(u)[2] == text::lower_char(u[2]));
        }
    }
    assert(low.len() == n.len());
    assert(low[0] == text::lower_char(n[0]) && low[2] == text::lower_char(n[2]));
}

/// A statement is one of the probes at most: the order in which they are tried does
/// not matter.
pub proof fn probes_are_exclusive(sql: Seq<char>)
    ensures
        asks_row_count(sql) ==> !asks_found_rows(sql) && sql_mode_set(sql) is None
            && !asks_sql_mode(sql),
        asks_found_rows(sql) ==> sql_mode_set(sql) is None && !asks_sql_mode(sql),
        sql_mode_set(sql) is Some ==> !asks_sql_mode(sql),
{
    let n = normalized(sql);
    let low = text::lowered(n);
    case_is_lost(n);
    reveal_strlit("SELECT ROW_COUNT()");
    reveal_strlit("SELECT ROW_COUNT ()");
    reveal_strlit("SELECT FOUND_ROWS()");
    reveal_strlit("SELECT FOUND_ROWS ()");
    reveal_strlit("SELECT @@SQL_MODE");
    reveal_strlit("SELECT @@SESSION.SQL_MODE");
    reveal_strlit("SELECT @@GLOBAL.SQL_MODE");
    if asks_row_count(sql) {
        assert(low[2] == 'l' && low[7] == 'r') by {
            assert(text::lowered("SELECT ROW_COUNT()"@)[2] == 'l');
            assert(text::lowered("SELECT ROW_COUNT()"@)[7] == 'r');
            assert(text::lowered("SELECT ROW_COUNT ()"@)[2] == 'l');
            assert(text::lowered("SELECT ROW_COUNT ()"@)[7] == 'r');
        }
    }
    if asks_found_rows(sql) {
        assert(low[2] == 'l' && low[7] == 'f') by {
            assert(text::lowered("SELECT FOUND_ROWS()"@)[2] == 'l');
            assert(text::lowered("SELECT FOUND_ROWS()"@)[7] == 'f');
            assert(text::lowered("SELECT FOUND_ROWS ()"@)[2] == 'l');
            assert(text::lowered("SELECT FOUND_ROWS ()"@)[7] == 'f');
        }
    }
    if asks_sql_mode(sql) {
        assert(low[2] == 'l' && low[7] == '@') by {
            let u = text::uppered(n);
            assert(text::lowered(u)[2] == text::lower_char(u[2]));
            assert(text::lowered(u)[7] == text::lower_char(u[7]));
        }
    }
    if sql_mode_set(sql) is Some {
        set_starts_with_set(sql);
        assert(low[2] == text::lower_char(n[2]));
    }
}

/// `SELECT ROW_COUNT()` and `SELECT FOUND_ROWS()` are recognised in any case, with any
/// white space between the words, around them and before the parentheses, and with
/// semicolons at the end.
pub proof fn counts_are_asked_for(sql: Seq<char>)
    ensures
        ({
            let w = text::words(text::trimmed_end_of(text::trimmed(sql), ';'));
            let select = w.len() > 0 && text::fold_eq(w[0], "SELECT"@);
            &&& select && w.len() == 2 && text::fold_eq(w[1], "ROW_COUNT()"@) ==> asks_row_count(
                sql,
            )
            &&& select && w.len() == 3 && text::fold_eq(w[1], "ROW_COUNT"@) && w[2] == seq!['(', ')']
                ==> asks_row_count(sql)
            &&& select && w.len() == 2 && text::fold_eq(w[1], "FOUND_ROWS()"@) ==> asks_found_rows(
                sql,
            )
            &&& select && w.len() == 3 && text::fold_eq(w[1], "FOUND_ROWS"@) && w[2] == seq![
                '(',
                ')',
            ] ==> asks_found_rows(sql)
        }),
{
    let w = text::words(text::trimmed_end_of(text::trimmed(sql), ';'));
    reveal_strlit(" ");
    assert(" "@ =~= seq![' ']);
    reveal_strlit("SELECT");
    assert("SELECT"@ =~= seq!['S', 'E', 'L', 'E', 'C', 'T']);
    reveal_strlit("ROW_COUNT()");
    assert("ROW_COUNT()"@ =~= seq!['R', 'O', 'W', '_', 'C', 'O', 'U', 'N', 'T', '(', ')']);
    reveal_strlit("ROW_COUNT");
    assert("ROW_COUNT"@ =~= seq!['R', 'O', 'W', '_', 'C', 'O', 'U', 'N', 'T']);
    reveal_strlit("FOUND_ROWS()");
    assert("FOUND_ROWS()"@ =~= seq!['F', 'O', 'U', 'N', 'D', '_', 'R', 'O', 'W', 'S', '(', ')']);
    reveal_strlit("FOUND_ROWS");
    assert("FOUND_ROWS"@ =~= seq!['F', 'O', 'U', 'N', 'D', '_', 'R', 'O', 'W', 'S']);
    reveal_strlit("SELECT ROW_COUNT()");
    assert("SELECT ROW_COUNT()"@ =~= seq!['S', 'E', 'L', 'E', 'C', 'T', ' ', 'R', 'O', 'W', '_', 'C', 'O', 'U', 'N', 'T', '(', ')']);
    reveal_strlit("SELECT ROW_COUNT ()");
    assert("SELECT ROW_COUNT ()"@ =~= seq!['S', 'E', 'L', 'E', 'C', 'T', ' ', 'R', 'O', 'W', '_', 'C', 'O', 'U', 'N', 'T', ' ', '(', ')']);
    reveal_strlit("SELECT FOUND_ROWS()");
    assert("SELECT FOUND_ROWS()"@ =~= seq!['S', 'E', 'L', 'E', 'C', 'T', ' ', 'F', 'O', 'U', 'N', 'D', '_', 'R', 'O', 'W', 'S', '(', ')']);
    reveal_strlit("SELECT FOUND_ROWS ()");
    assert("SELECT FOUND_ROWS ()"@ =~= seq!['S', 'E', 'L', 'E', 'C', 'T', ' ', 'F', 'O', 'U', 'N', 'D', '_', 'R', 'O', 'W', 'S', ' ', '(', ')']);
    if w.len() == 2 {
        two_words(w);
        assert("SELECT ROW_COUNT()"@ =~= "SELECT"@ + " "@ + "ROW_COUNT()"@);
        assert("SELECT FOUND_ROWS()"@ =~= "SELECT"@ + " "@ + "FOUND_ROWS()"@);
        folding_joins(w[0], "SELECT"@, w[1], "ROW_COUNT()"@);
        folding_joins(w[0], "SELECT"@, w[1], "FOUND_ROWS()"@);
    }
    if w.len() == 3 {
        three_words(w);
        let end = " "@ + seq!['(', ')'];
        assert("SELECT ROW_COUNT ()"@ =~= "SELECT"@ + " "@ + "ROW_COUNT"@ + end);
        assert("SELECT FOUND_ROWS ()"@ =~= "SELECT"@ + " "@ + "FOUND_ROWS"@ + end);
        folding_joins(w[0], "SELECT"@, w[1], "ROW_COUNT"@);
        folding_joins(w[0], "SELECT"@, w[1], "FOUND_ROWS"@);
        if w[2] == seq!['(', ')'] {
            let n = w[0] + " "@ + w[1] + " "@ + w[2];
            assert(n =~= w[0] + " "@ + w[1] + end);
            folding_extends(w[0] + " "@ + w[1], "SELECT"@ + " "@ + "ROW_COUNT"@, end);
            folding_extends(w[0] + " "@ + w[1], "SELECT"@ + " "@ + "FOUND_ROWS"@, end);
        }
    }
}

proof fn two_words(w: Seq<Seq<char>>)
    requires
        w.len() == 2,
    ensures
        text::joined(w, " "@) == w[0] + " "@ + w[1],
{
    assert(w =~= seq![w[0]].push(w[1]));
    text::joining_puts_separators_between(seq![w[0]], w[1], " "@);
    text::joining_puts_separators_between(seq![], w[0], " "@);
}

proof fn three_words(w: Seq<Seq<char>>)
    requires
        w.len() == 3,
    ensures
        text::joined(w, " "@) == w[0] + " "@ + w[1] + " "@ + w[2],
{
    let front = seq![w[0], w[1]];
    two_words(front);
    assert(w =~= front.push(w[2]));
    text::joining_puts_separators_between(front, w[2], " "@);
}

proof fn folding_joins(a: Seq<char>, b: Seq<char>, c: Seq<char>, d: Seq<char>)
    ensures
        text::fold_eq(a, b) && text::fold_eq(c, d) ==> text::fold_eq(a + " "@ + c, b + " "@ + d),
{
    let x = a + " "@ + c;
    let y = b + " "@ + d;
    assert(text::lowered(x) =~= text::lowered(a) + text::lowered(" "@) + text::lowered(c));
    assert(text::lowered(y) =~= text::lowered(b) + text::lowered(" "@) + text::lowered(d));
}

proof fn folding_extends(a: Seq<char>, b: Seq<char>, end: Seq<char>)
    ensures
        text::fold_eq(a, b) ==> text::fold_eq(a + end, b + end),
{
    assert(text::lowered(a + end) =~= text::lowered(a) + text::lowered(end));
    assert(text::lowered(b + end) =~= text::lowered(b) + text::lowered(end));
}

/// Nothing else is taken for a question about a count: what is recognised has, in
/// lower case and with single blanks, exactly that text.
pub proof fn nothing_else_is_a_count(sql: Seq<char>)
    ensures
        asks_row_count(sql) <==> text::lowered(normalized(sql)) == "select row_count()"@
            || text::lowered(normalized(sql)) == "select row_count ()"@,
        asks_found_rows(sql) <==> text::lowered(normalized(sql)) == "select found_rows()"@
            || text::lowered(normalized(sql)) == "select found_rows ()"@,
{
    reveal_strlit("SELECT ROW_COUNT()");
    assert("SELECT ROW_COUNT()"@ =~= seq!['S', 'E', 'L', 'E', 'C', 'T', ' ', 'R', 'O', 'W', '_', 'C', 'O', 'U', 'N', 'T', '(', ')']);
    reveal_strlit("SELECT ROW_COUNT ()");
    assert("SELECT ROW_COUNT ()"@ =~= seq!['S', 'E', 'L', 'E', 'C', 'T', ' ', 'R', 'O', 'W', '_', 'C', 'O', 'U', 'N', 'T', ' ', '(', ')']);
    reveal_strlit("SELECT FOUND_ROWS()");
    assert("SELECT FOUND_ROWS()"@ =~= seq!['S', 'E', 'L', 'E', 'C', 'T', ' ', 'F', 'O', 'U', 'N', 'D', '_', 'R', 'O', 'W', 'S', '(', ')']);
    reveal_strlit("SELECT FOUND_ROWS ()");
    assert("SELECT FOUND_ROWS ()"@ =~= seq!['S', 'E', 'L', 'E', 'C', 'T', ' ', 'F', 'O', 'U', 'N', 'D', '_', 'R', 'O', 'W', 'S', ' ', '(', ')']);
    reveal_strlit("select row_count()");
    assert("select row_count()"@ =~= seq!['s', 'e', 'l', 'e', 'c', 't', ' ', 'r', 'o', 'w', '_', 'c', 'o', 'u', 'n', 't', '(', ')']);
    reveal_strlit("select row_count ()");
    assert("select row_count ()"@ =~= seq!['s', 'e', 'l', 'e', 'c', 't', ' ', 'r', 'o', 'w', '_', 'c', 'o', 'u', 'n', 't', ' ', '(', ')']);
    reveal_strlit("select found_rows()");
    assert("select found_rows()"@ =~= seq!['s', 'e', 'l', 'e', 'c', 't', ' ', 'f', 'o', 'u', 'n', 'd', '_', 'r', 'o', 'w', 's', '(', ')']);
    reveal_strlit("select found_rows ()");
    assert("select found_rows ()"@ =~= seq!['s', 'e', 'l', 'e', 'c', 't', ' ', 'f', 'o', 'u', 'n', 'd', '_', 'r', 'o', 'w', 's', ' ', '(', ')']);
    assert(text::lowered("SELECT ROW_COUNT()"@) =~= "select row_count()"@);
    assert(text::lowered("SELECT ROW_COUNT ()"@) =~= "select row_count ()"@);
    assert(text::lowered("SELECT FOUND_ROWS()"@) =~= "select found_rows()"@);
    assert(text::lowered("SELECT FOUND_ROWS ()"@) =~= "select found_rows ()"@);
}

/// A `SELECT` that starts with `SQL_CALC_FOUND_ROWS` as a whole word asks for the count
/// of all rows; a longer word does not.
pub proof fn calc_is_a_whole_word(select: Seq<char>, calc: Seq<char>, rest: Seq<char>)
    requires
        text::fold_eq(select, "SELECT"@),
        text::fold_eq(calc, "SQL_CALC_FOUND_ROWS"@),
    ensures
        calculates_found_rows(select + seq![' '] + calc + rest) <==> rest.len() == 0 || !('0'
            <= rest[0] <= '9' || 'a' <= rest[0] <= 'z' || 'A' <= rest[0] <= 'Z' || rest[0] == '_'),
{
    reveal_strlit("SELECT");
    assert("SELECT"@ =~= seq!['S', 'E', 'L', 'E', 'C', 'T']);
    reveal_strlit("SQL_CALC_FOUND_ROWS");
    assert("SQL_CALC_FOUND_ROWS"@ =~= seq!['S', 'Q', 'L', '_', 'C', 'A', 'L', 'C', '_', 'F', 'O', 'U', 'N', 'D', '_', 'R', 'O', 'W', 'S']);
    let sql = select + seq![' '] + calc + rest;
    assert(text::lowered(select).len() == 6 && text::lowered(calc).len() == 19);
    assert(text::lowered("SELECT"@)[0] == 's' && text::lowered(select)[0] == 's');
    assert(text::lowered("SQL_CALC_FOUND_ROWS"@)[0] == 's' && text::lowered(calc)[0] == 's');
    assert(text::lower_char(select[0]) == 's' && text::lower_char(calc[0]) == 's');
    assert(sql[0] == select[0]);
    assert(!text::space(sql[0]));
    assert(text::trimmed_start(sql) == sql);
    assert(sql.take(6) =~= select);
    let behind = sql.skip(6);
    let after = calc + rest;
    assert(behind[0] == ' ');
    assert(behind.drop_first() =~= after);
    assert(after[0] == calc[0]);
    reveal_with_fuel(text::trimmed_start, 2);
    assert(text::trimmed_start(behind) == after);
    assert(after.take(19) =~= calc);
    assert(after.skip(19) =~= rest);
}

} // verus!
