//! The statements that client libraries send when they connect: `SET ...`,
//! `SELECT @@max_allowed_packet`, `SELECT VERSION()` and the like.

use vstd::prelude::*;

use crate::parser::variables;
use crate::parser::variables::SERVER_VERSION;
use crate::text;

verus! {

/// The answer to a session statement.
#[derive(Debug, PartialEq, Eq)]
pub enum SessionResponse {
    /// An OK packet.
    OkReply,
    /// A result set of one row, with `None` for SQL NULL.
    Row { columns: Vec<String>, values: Vec<Option<String>> },
}

/// The model of a [`SessionResponse`].
pub enum SessionView {
    OkReply,
    Row { columns: Seq<Seq<char>>, values: Seq<Option<Seq<char>>> },
}

impl DeepView for SessionResponse {
    type V = SessionView;

    open spec fn deep_view(&self) -> SessionView {
        match *self {
            SessionResponse::OkReply => SessionView::OkReply,
            SessionResponse::Row { columns, values } => SessionView::Row {
                columns: columns.deep_view(),
                values: values.deep_view(),
            },
        }
    }
}

// ---------------------------------------------------------------------------
// Expressions
// ---------------------------------------------------------------------------
/// A variable's name without the scopes in front of it.
pub open spec fn without_scopes(var: Seq<char>) -> Seq<char> {
    text::without_prefixes(
        text::without_prefixes(
            text::without_prefixes(
                text::without_prefixes(var, "session."@),
                "SESSION."@,
            ),
            "global."@,
        ),
        "GLOBAL."@,
    )
}

/// `name` can be the name of a variable: letters, numbers and underscores.
pub open spec fn variable_name(name: Seq<char>) -> bool {
    name.len() > 0 && forall|i: int|
        0 <= i < name.len() ==> text::letter_or_digit(#[trigger] name[i]) || name[i] == '_'
}

/// The value of a system variable; unknown ones are empty.
pub open spec fn system_variable_spec(name: Seq<char>) -> Seq<char> {
    match variables::variable_value(name) {
        Some(value) => value,
        None => seq![],
    }
}

/// The value of a session expression in the database `db`, in which `None` is SQL
/// NULL. The outer `None` is for any other expression.
pub open spec fn value_of(expr: Seq<char>, db: Option<Seq<char>>) -> Option<Option<Seq<char>>> {
    let e = text::trimmed(expr);
    let u = text::uppered(e);
    if text::occurs_at(e, "@@"@, 0) {
        let name = without_scopes(e.skip("@@"@.len() as int));
        if variable_name(name) {
            Some(Some(system_variable_spec(name)))
        } else {
            None
        }
    } else if u == "VERSION()"@ {
        Some(Some(SERVER_VERSION@))
    } else if u == "DATABASE()"@ || u == "SCHEMA()"@ {
        Some(db)
    } else if u == "CONNECTION_ID()"@ {
        Some(Some("1"@))
    } else if u == "USER()"@ || u == "CURRENT_USER()"@ || u == "SESSION_USER()"@ || u
        == "SYSTEM_USER()"@ {
        Some(Some("root@localhost"@))
    } else {
        None
    }
}

/// Returns the value of a system variable.
fn system_variable(name: &str) -> (r: String)
    ensures
        r@ == system_variable_spec(name@),
{
    match variables::system_variable_value(name) {
        Some(value) => value.to_string(),
        None => {
            let none = String::new();
            assert(none@ =~= seq![]);
            none
        },
    }
}

fn is_variable_name(name: &[char]) -> (r: bool)
    ensures
        r == variable_name(name@),
{
    if name.len() == 0 {
        return false;
    }
    for i in 0..name.len()
        invariant
            forall|j: int|
                0 <= j < i ==> text::letter_or_digit(#[trigger] name@[j]) || name@[j] == '_',
    {
        if !text::is_alphanumeric(name[i]) && name[i] != '_' {
            assert(!(text::letter_or_digit(name@[i as int]) || name@[i as int] == '_'));
            return false;
        }
    }
    true
}

/// Evaluates a session expression in the given database.
pub fn eval(expr: &[char], current_db: Option<&str>) -> (r: Option<Option<String>>)
    ensures
        r.deep_view() == value_of(expr@, current_db.deep_view()),
{
    let e = text::trim(expr);
    if let Some(var) = text::strip_prefix(e, &text::chars_of("@@")) {
        let a = text::trim_prefixes(var, &text::chars_of("session."));
        let b = text::trim_prefixes(a, &text::chars_of("SESSION."));
        let c = text::trim_prefixes(b, &text::chars_of("global."));
        let name = text::trim_prefixes(c, &text::chars_of("GLOBAL."));
        if is_variable_name(name) {
            return Some(Some(system_variable(text::string_of(name).as_str())));
        }
        return None;
    }
    let u = text::to_upper(e);
    if text::is_text(&u, "VERSION()") {
        Some(Some(SERVER_VERSION.to_string()))
    } else if text::is_text(&u, "DATABASE()") || text::is_text(&u, "SCHEMA()") {
        match current_db {
            Some(db) => Some(Some(db.to_string())),
            None => Some(None),
        }
    } else if text::is_text(&u, "CONNECTION_ID()") {
        Some(Some("1".to_string()))
    } else if text::is_text(&u, "USER()") || text::is_text(&u, "CURRENT_USER()") || text::is_text(
        &u,
        "SESSION_USER()",
    ) || text::is_text(&u, "SYSTEM_USER()") {
        Some(Some("root@localhost".to_string()))
    } else {
        None
    }
}

// ---------------------------------------------------------------------------
// Select lists
// ---------------------------------------------------------------------------
/// A select list without a `LIMIT` clause at its end.
pub open spec fn without_limit(s: Seq<char>) -> Seq<char> {
    let pos = text::last_pos(text::uppered(s), " LIMIT "@, s.len() as int);
    if pos >= 0 {
        s.take(pos)
    } else {
        s
    }
}

/// Drops a `LIMIT` clause from the end of a select list.
pub fn strip_trailing_limit(s: &[char]) -> (r: &[char])
    ensures
        r@ == without_limit(s@),
{
    let upper = text::to_upper(s);
    match text::find_last(&upper, &text::chars_of(" LIMIT ")) {
        Some(pos) => {
            let r = &s[0..pos];
            assert(r@ =~= s@.take(pos as int));
            r
        },
        None => s,
    }
}

/// The items of a list, from the one that starts at `start` on, when `i` is the
/// next character and `depth` parentheses are open. A comma outside parentheses
/// ends an item.
pub open spec fn items_from(s: Seq<char>, start: int, i: int, depth: int) -> Seq<Seq<char>>
    decreases s.len() - i,
{
    if i >= s.len() || i < 0 {
        seq![s.subrange(start, s.len() as int)]
    } else if s[i] == '(' {
        items_from(s, start, i + 1, depth + 1)
    } else if s[i] == ')' {
        items_from(s, start, i + 1, depth - 1)
    } else if s[i] == ',' && depth == 0 {
        seq![s.subrange(start, i)] + items_from(s, i + 1, i + 1, depth)
    } else {
        items_from(s, start, i + 1, depth)
    }
}

/// The items of a list.
pub open spec fn list_items(s: Seq<char>) -> Seq<Seq<char>> {
    items_from(s, 0, 0, 0)
}

/// Splits a list at the commas outside parentheses.
pub fn split_top_level_commas(s: &[char]) -> (r: Vec<String>)
    ensures
        r.deep_view() == list_items(s@),
{
    let mut items: Vec<String> = Vec::new();
    let mut depth: i128 = 0;
    let mut start: usize = 0;
    let mut i: usize = 0;
    assert(items.deep_view() + items_from(s@, 0, 0, 0) =~= list_items(s@));
    while i < s.len()
        invariant
            start <= i <= s@.len(),
            -i <= depth <= i,
            items.deep_view() + items_from(s@, start as int, i as int, depth as int) == list_items(
                s@,
            ),
        decreases s@.len() - i,
    {
        let c = s[i];
        if c == '(' {
            depth = depth + 1;
            i = i + 1;
        } else if c == ')' {
            depth = depth - 1;
            i = i + 1;
        } else if c == ',' && depth == 0 {
            let ghost before = items.deep_view();
            let item = text::string_of(&s[start..i]);
            items.push(item);
            assert(items.deep_view() =~= before.push(item@));
            assert(before + (seq![item@] + items_from(s@, i + 1, i + 1, depth as int))
                =~= items.deep_view() + items_from(s@, i + 1, i + 1, depth as int));
            i = i + 1;
            start = i;
        } else {
            i = i + 1;
        }
    }
    let ghost before = items.deep_view();
    let item = text::string_of(&s[start..s.len()]);
    items.push(item);
    assert(items.deep_view() =~= before.push(item@));
    assert(before + seq![item@] =~= items.deep_view());
    items
}

/// Splitting a list loses nothing: with commas between them, its items are the
/// list again.
pub proof fn list_items_join_back(s: Seq<char>)
    ensures
        text::joined(list_items(s), seq![',']) == s,
{
    items_join_back(s, 0, 0, 0);
    assert(s.subrange(0, s.len() as int) =~= s);
}

proof fn items_join_back(s: Seq<char>, start: int, i: int, depth: int)
    requires
        0 <= start <= i <= s.len(),
    ensures
        text::joined(items_from(s, start, i, depth), seq![',']) == s.subrange(
            start,
            s.len() as int,
        ),
        items_from(s, start, i, depth).len() > 0,
    decreases s.len() - i,
{
    if i < s.len() {
        if s[i] == '(' {
            items_join_back(s, start, i + 1, depth + 1);
        } else if s[i] == ')' {
            items_join_back(s, start, i + 1, depth - 1);
        } else if s[i] == ',' && depth == 0 {
            items_join_back(s, i + 1, i + 1, depth);
            let rest = items_from(s, i + 1, i + 1, depth);
            joined_front(s.subrange(start, i), rest, seq![',']);
            assert(s.subrange(start, i) + seq![','] + s.subrange(i + 1, s.len() as int)
                =~= s.subrange(start, s.len() as int));
        } else {
            items_join_back(s, start, i + 1, depth);
        }
    }
}

/// A piece put in front of others.
proof fn joined_front(first: Seq<char>, rest: Seq<Seq<char>>, sep: Seq<char>)
    requires
        rest.len() > 0,
    ensures
        text::joined(seq![first] + rest, sep) == first + sep + text::joined(rest, sep),
    decreases rest.len(),
{
    let all = seq![first] + rest;
    if rest.len() == 1 {
        assert(all.drop_last() =~= seq![first]);
        assert(text::joined(seq![first], sep) == first);
        assert(all.last() == rest[0]);
        assert(text::joined(all, sep) =~= first + sep + text::joined(rest, sep));
    } else {
        joined_front(first, rest.drop_last(), sep);
        assert(all.last() == rest.last());
        assert(all.drop_last() =~= seq![first] + rest.drop_last());
        assert(text::joined(all, sep) =~= first + sep + text::joined(rest, sep));
    }
}

/// An item's expression and its alias, if it has one.
pub open spec fn item_parts(item: Seq<char>) -> (Seq<char>, Option<Seq<char>>) {
    let pos = text::last_pos(text::uppered(item), " AS "@, item.len() as int);
    if pos >= 0 {
        let alias = text::trimmed(item.skip(pos + " AS "@.len()));
        (
            text::trimmed(item.take(pos)),
            Some(text::trimmed_end_of(text::trimmed_start_of(alias, '`'), '`')),
        )
    } else {
        (text::trimmed(item), None)
    }
}

/// Splits an item into its expression and its alias.
pub fn split_alias(item: &[char]) -> (r: (Vec<char>, Option<String>))
    ensures
        r.0@ == item_parts(item@).0,
        r.1.deep_view() == item_parts(item@).1,
{
    let upper = text::to_upper(item);
    let keyword = text::chars_of(" AS ");
    match text::find_last(&upper, &keyword) {
        Some(pos) => {
            let total: usize = item.len();
            assert(pos + keyword@.len() <= total);
            let head = &item[0..pos];
            let tail = &item[pos + keyword.len()..item.len()];
            assert(head@ =~= item@.take(pos as int));
            assert(tail@ =~= item@.skip(pos + keyword@.len()));
            let alias = text::trim_end_of(text::trim_start_of(text::trim(tail), '`'), '`');
            (text::copy_chars(text::trim(head)), Some(text::string_of(alias)))
        },
        None => (text::copy_chars(text::trim(item)), None),
    }
}

/// The name of an item's column: its alias, or else its expression.
pub open spec fn column_name(item: Seq<char>) -> Seq<char> {
    let (expr, alias) = item_parts(text::trimmed(item));
    match alias {
        Some(a) => a,
        None => expr,
    }
}

/// The value of an item.
pub open spec fn item_value(item: Seq<char>, db: Option<Seq<char>>) -> Option<Option<Seq<char>>> {
    value_of(item_parts(text::trimmed(item)).0, db)
}

/// The row for items of which every one is a session expression.
pub open spec fn row_of(items: Seq<Seq<char>>, db: Option<Seq<char>>) -> Option<SessionView> {
    if forall|i: int| 0 <= i < items.len() ==> (#[trigger] item_value(items[i], db)) is Some {
        Some(
            SessionView::Row {
                columns: Seq::new(items.len(), |i: int| column_name(items[i])),
                values: Seq::new(items.len(), |i: int| item_value(items[i], db)->0),
            },
        )
    } else {
        None
    }
}

/// What a `SELECT` of `list` gives, if every item is a session expression.
pub open spec fn select_response(list: Seq<char>, db: Option<Seq<char>>) -> Option<SessionView> {
    let l = text::trimmed(without_limit(list));
    if l.len() == 0 {
        None
    } else {
        row_of(list_items(l), db)
    }
}

/// Answers a `SELECT` whose every item is a session expression.
fn handle_select(list: &[char], current_db: Option<&str>) -> (r: Option<SessionResponse>)
    ensures
        r.deep_view() == select_response(list@, current_db.deep_view()),
{
    let ghost db = current_db.deep_view();
    let l = text::trim(strip_trailing_limit(list));
    if l.len() == 0 {
        return None;
    }
    let items = split_top_level_commas(l);
    let ghost views = items.deep_view();
    let mut columns: Vec<String> = Vec::new();
    let mut values: Vec<Option<String>> = Vec::new();
    for i in 0..items.len()
        invariant
            db == current_db.deep_view(),
            views == items.deep_view(),
            views == list_items(l@),
            l@ == text::trimmed(without_limit(list@)),
            l@.len() > 0,
            columns@.len() == i,
            values@.len() == i,
            forall|j: int|
                0 <= j < i ==> (#[trigger] item_value(views[j], db)) is Some && columns@[j]@
                    == column_name(views[j]) && values@[j].deep_view() == item_value(views[j], db)->0,
    {
        let chars = text::chars_of(items[i].as_str());
        assert(views[i as int] == chars@);
        let (expr, alias) = split_alias(text::trim(&chars));
        match eval(&expr, current_db) {
            None => {
                assert(item_value(views[i as int], db) is None);
                return None;
            },
            Some(value) => {
                columns.push(
                    match alias {
                        Some(a) => a,
                        None => text::string_of(&expr),
                    },
                );
                values.push(value);
            },
        }
    }
    assert(columns.deep_view() =~= Seq::new(views.len(), |i: int| column_name(views[i]))) by {
        assert forall|j: int| 0 <= j < views.len() implies columns.deep_view()[j] == column_name(
            views[j],
        ) by {
            assert(item_value(views[j], db) is Some);
        }
    }
    assert(values.deep_view() =~= Seq::new(views.len(), |i: int| item_value(views[i], db)->0)) by {
        assert forall|j: int| 0 <= j < views.len() implies values.deep_view()[j] == item_value(
            views[j],
            db,
        )->0 by {
            assert(item_value(views[j], db) is Some);
        }
    }
    Some(SessionResponse::Row { columns, values })
}

// ---------------------------------------------------------------------------
// Statements
// ---------------------------------------------------------------------------
/// A statement without the white space and semicolons around it.
pub open spec fn bare_statement(sql: Seq<char>) -> Seq<char> {
    text::trimmed(text::trimmed_end_of(text::trimmed(sql), ';'))
}

/// Word `i` of a statement is `word`.
pub open spec fn word_is(words: Seq<Seq<char>>, i: int, word: Seq<char>) -> bool {
    i < words.len() && words[i] == word
}

/// The statement, in upper case, has no effect here: `SET ...`, `LOCK` and
/// `UNLOCK TABLES`, `FLUSH ...`, and dropping a routine if it exists.
pub open spec fn no_effect(upper: Seq<char>) -> bool {
    let w = text::words(upper);
    ||| upper == "SET"@
    ||| text::occurs_at(upper, "SET "@, 0)
    ||| (word_is(w, 0, "LOCK"@) || word_is(w, 0, "UNLOCK"@)) && (word_is(w, 1, "TABLES"@) || word_is(
        w,
        1,
        "TABLE"@,
    ))
    ||| word_is(w, 0, "FLUSH"@) && w.len() >= 2
    ||| word_is(w, 0, "DROP"@) && (word_is(w, 1, "PROCEDURE"@) || word_is(w, 1, "FUNCTION"@))
        && word_is(w, 2, "IF"@) && word_is(w, 3, "EXISTS"@) && w.len() >= 5
}

/// The answer to a session statement in the database `db`; `None` for any other
/// statement.
pub open spec fn session_response(sql: Seq<char>, db: Option<Seq<char>>) -> Option<SessionView> {
    let s = bare_statement(sql);
    let u = text::uppered(s);
    if no_effect(u) {
        Some(SessionView::OkReply)
    } else if text::occurs_at(u, "SELECT "@, 0) || text::occurs_at(u, "SELECT\t"@, 0) {
        select_response(s.skip(6), db)
    } else {
        None
    }
}

fn is_word(words: &Vec<String>, i: usize, word: &str) -> (r: bool)
    ensures
        r == word_is(words.deep_view(), i as int, word@),
{
    if i < words.len() {
        let chars = text::chars_of(words[i].as_str());
        assert(words.deep_view()[i as int] == chars@);
        text::is_text(&chars, word)
    } else {
        false
    }
}

/// Whether a statement in upper case has no effect here.
fn has_no_effect(upper: &[char]) -> (r: bool)
    ensures
        r == no_effect(upper@),
{
    if text::is_text(upper, "SET") || text::is_at(upper, &text::chars_of("SET "), 0) {
        return true;
    }
    let w = text::split_words(upper);
    if (is_word(&w, 0, "LOCK") || is_word(&w, 0, "UNLOCK")) && (is_word(&w, 1, "TABLES") || is_word(
        &w,
        1,
        "TABLE",
    )) {
        return true;
    }
    if is_word(&w, 0, "FLUSH") && w.len() >= 2 {
        return true;
    }
    is_word(&w, 0, "DROP") && (is_word(&w, 1, "PROCEDURE") || is_word(&w, 1, "FUNCTION"))
        && is_word(&w, 2, "IF") && is_word(&w, 3, "EXISTS") && w.len() >= 5
}

/// Answers a session statement, when no database is selected. `None` if the
/// statement is none, and has to be read as SQL.
pub fn try_handle(sql: &str) -> (r: Option<SessionResponse>)
    ensures
        r.deep_view() == session_response(sql@, None),
{
    try_handle_in_db(sql, None)
}

/// Answers a session statement in the given database, which `DATABASE()` and
/// `SCHEMA()` report. `None` if the statement is none, and has to be read as SQL.
pub fn try_handle_in_db(sql: &str, current_db: Option<&str>) -> (r: Option<SessionResponse>)
    ensures
        r.deep_view() == session_response(sql@, current_db.deep_view()),
{
    let chars = text::chars_of(sql);
    let s = text::trim(text::trim_end_of(text::trim(&chars), ';'));
    let upper = text::to_upper(s);
    if has_no_effect(&upper) {
        return Some(SessionResponse::OkReply);
    }
    if text::is_at(&upper, &text::chars_of("SELECT "), 0) || text::is_at(
        &upper,
        &text::chars_of("SELECT\t"),
        0,
    ) {
        proof {
            reveal_strlit("SELECT ");
            reveal_strlit("SELECT\t");
        }
        let list = &s[6..s.len()];
        assert(list@ =~= s@.skip(6));
        return handle_select(list, current_db);
    }
    None
}

// ---------------------------------------------------------------------------
// Laws
// ---------------------------------------------------------------------------
/// The session functions, in any case: the server's version, the database, the
/// connection's id and the user.
pub proof fn session_functions(expr: Seq<char>, db: Option<Seq<char>>)
    ensures
        text::uppered(text::trimmed(expr)) == "VERSION()"@ ==> value_of(expr, db) == Some(Some(SERVER_VERSION@)),
        text::uppered(text::trimmed(expr)) == "DATABASE()"@ ==> value_of(expr, db) == Some(db),
        text::uppered(text::trimmed(expr)) == "SCHEMA()"@ ==> value_of(expr, db) == Some(db),
        text::uppered(text::trimmed(expr)) == "CONNECTION_ID()"@ ==> value_of(expr, db) == Some(Some("1"@)),
        text::uppered(text::trimmed(expr)) == "USER()"@ ==> value_of(expr, db) == Some(Some("root@localhost"@)),
        text::uppered(text::trimmed(expr)) == "CURRENT_USER()"@ ==> value_of(expr, db) == Some(Some("root@localhost"@)),
        text::uppered(text::trimmed(expr)) == "SESSION_USER()"@ ==> value_of(expr, db) == Some(Some("root@localhost"@)),
        text::uppered(text::trimmed(expr)) == "SYSTEM_USER()"@ ==> value_of(expr, db) == Some(Some("root@localhost"@)),
{
    let e = text::trimmed(expr);
    let u = text::uppered(e);
    reveal_strlit("@@");
    assert("@@"@[0] == '@');
    reveal_strlit("VERSION()");
    assert("VERSION()"@.len() == 9 && "VERSION()"@[0] == 'V' && "VERSION()"@[1] == 'E' && "VERSION()"@[2] == 'R' && "VERSION()"@[3] == 'S' && "VERSION()"@[4] == 'I' && "VERSION()"@[5] == 'O' && "VERSION()"@[6] == 'N' && "VERSION()"@[7] == '(' && "VERSION()"@[8] == ')');
    reveal_strlit("DATABASE()");
    assert("DATABASE()"@.len() == 10 && "DATABASE()"@[0] == 'D' && "DATABASE()"@[1] == 'A' && "DATABASE()"@[2] == 'T' && "DATABASE()"@[3] == 'A' && "DATABASE()"@[4] == 'B' && "DATABASE()"@[5] == 'A' && "DATABASE()"@[6] == 'S' && "DATABASE()"@[7] == 'E' && "DATABASE()"@[8] == '(' && "DATABASE()"@[9] == ')');
    reveal_strlit("SCHEMA()");
    assert("SCHEMA()"@.len() == 8 && "SCHEMA()"@[0] == 'S' && "SCHEMA()"@[1] == 'C' && "SCHEMA()"@[2] == 'H' && "SCHEMA()"@[3] == 'E' && "SCHEMA()"@[4] == 'M' && "SCHEMA()"@[5] == 'A' && "SCHEMA()"@[6] == '(' && "SCHEMA()"@[7] == ')');
    reveal_strlit("CONNECTION_ID()");
    assert("CONNECTION_ID()"@.len() == 15 && "CONNECTION_ID()"@[0] == 'C' && "CONNECTION_ID()"@[1] == 'O' && "CONNECTION_ID()"@[2] == 'N' && "CONNECTION_ID()"@[3] == 'N' && "CONNECTION_ID()"@[4] == 'E' && "CONNECTION_ID()"@[5] == 'C' && "CONNECTION_ID()"@[6] == 'T' && "CONNECTION_ID()"@[7] == 'I' && "CONNECTION_ID()"@[8] == 'O' && "CONNECTION_ID()"@[9] == 'N' && "CONNECTION_ID()"@[10] == '_' && "CONNECTION_ID()"@[11] == 'I' && "CONNECTION_ID()"@[12] == 'D' && "CONNECTION_ID()"@[13] == '(' && "CONNECTION_ID()"@[14] == ')');
    reveal_strlit("USER()");
    assert("USER()"@.len() == 6 && "USER()"@[0] == 'U' && "USER()"@[1] == 'S' && "USER()"@[2] == 'E' && "USER()"@[3] == 'R' && "USER()"@[4] == '(' && "USER()"@[5] == ')');
    reveal_strlit("CURRENT_USER()");
    assert("CURRENT_USER()"@.len() == 14 && "CURRENT_USER()"@[0] == 'C' && "CURRENT_USER()"@[1] == 'U' && "CURRENT_USER()"@[2] == 'R' && "CURRENT_USER()"@[3] == 'R' && "CURRENT_USER()"@[4] == 'E' && "CURRENT_USER()"@[5] == 'N' && "CURRENT_USER()"@[6] == 'T' && "CURRENT_USER()"@[7] == '_' && "CURRENT_USER()"@[8] == 'U' && "CURRENT_USER()"@[9] == 'S' && "CURRENT_USER()"@[10] == 'E' && "CURRENT_USER()"@[11] == 'R' && "CURRENT_USER()"@[12] == '(' && "CURRENT_USER()"@[13] == ')');
    reveal_strlit("SESSION_USER()");
    assert("SESSION_USER()"@.len() == 14 && "SESSION_USER()"@[0] == 'S' && "SESSION_USER()"@[1] == 'E' && "SESSION_USER()"@[2] == 'S' && "SESSION_USER()"@[3] == 'S' && "SESSION_USER()"@[4] == 'I' && "SESSION_USER()"@[5] == 'O' && "SESSION_USER()"@[6] == 'N' && "SESSION_USER()"@[7] == '_' && "SESSION_USER()"@[8] == 'U' && "SESSION_USER()"@[9] == 'S' && "SESSION_USER()"@[10] == 'E' && "SESSION_USER()"@[11] == 'R' && "SESSION_USER()"@[12] == '(' && "SESSION_USER()"@[13] == ')');
    reveal_strlit("SYSTEM_USER()");
    assert("SYSTEM_USER()"@.len() == 13 && "SYSTEM_USER()"@[0] == 'S' && "SYSTEM_USER()"@[1] == 'Y' && "SYSTEM_USER()"@[2] == 'S' && "SYSTEM_USER()"@[3] == 'T' && "SYSTEM_USER()"@[4] == 'E' && "SYSTEM_USER()"@[5] == 'M' && "SYSTEM_USER()"@[6] == '_' && "SYSTEM_USER()"@[7] == 'U' && "SYSTEM_USER()"@[8] == 'S' && "SYSTEM_USER()"@[9] == 'E' && "SYSTEM_USER()"@[10] == 'R' && "SYSTEM_USER()"@[11] == '(' && "SYSTEM_USER()"@[12] == ')');
    if text::occurs_at(e, "@@"@, 0) {
        assert(e.subrange(0, 2)[0] == '@');
        assert(u[0] == text::upper_char(e[0]));
    }
}

/// `@@` and a name give the variable's value; a variable that is not known is empty.
pub proof fn variables_have_values(name: Seq<char>, db: Option<Seq<char>>)
    requires
        name.len() > 0,
        forall|k: int|
            0 <= k < name.len() ==> 'a' <= #[trigger] name[k] <= 'z' || 'A' <= name[k] <= 'Z' || '0'
                <= name[k] <= '9' || name[k] == '_',
    ensures
        value_of(seq!['@', '@'] + name, db) == Some(
            Some(
                match variables::variable_value(name) {
                    Some(value) => value,
                    None => seq![],
                },
            ),
        ),
        value_of(seq!['@', '@'] + "session."@ + name, db) == value_of(seq!['@', '@'] + name, db),
        value_of(seq!['@', '@'] + "global."@ + name, db) == value_of(seq!['@', '@'] + name, db),
{
    reveal_strlit("@@");
    assert("@@"@ =~= seq!['@', '@']);
    reveal_strlit("session.");
    assert("session."@.len() == 8 && "session."@[0] == 's' && "session."@[1] == 'e' && "session."@[2] == 's' && "session."@[3] == 's' && "session."@[4] == 'i' && "session."@[5] == 'o' && "session."@[6] == 'n' && "session."@[7] == '.');
    reveal_strlit("SESSION.");
    assert("SESSION."@.len() == 8 && "SESSION."@[0] == 'S' && "SESSION."@[1] == 'E' && "SESSION."@[2] == 'S' && "SESSION."@[3] == 'S' && "SESSION."@[4] == 'I' && "SESSION."@[5] == 'O' && "SESSION."@[6] == 'N' && "SESSION."@[7] == '.');
    reveal_strlit("global.");
    assert("global."@.len() == 7 && "global."@[0] == 'g' && "global."@[1] == 'l' && "global."@[2] == 'o' && "global."@[3] == 'b' && "global."@[4] == 'a' && "global."@[5] == 'l' && "global."@[6] == '.');
    reveal_strlit("GLOBAL.");
    assert("GLOBAL."@.len() == 7 && "GLOBAL."@[0] == 'G' && "GLOBAL."@[1] == 'L' && "GLOBAL."@[2] == 'O' && "GLOBAL."@[3] == 'B' && "GLOBAL."@[4] == 'A' && "GLOBAL."@[5] == 'L' && "GLOBAL."@[6] == '.');
    let dotted = "session."@ + name;
    let other = "global."@ + name;
    no_scope(name, "session."@, 7);
    no_scope(name, "SESSION."@, 7);
    no_scope(name, "global."@, 6);
    no_scope(name, "GLOBAL."@, 6);
    text::prefixes_are_dropped(name, "session."@);
    text::prefixes_are_dropped(name, "SESSION."@);
    text::prefixes_are_dropped(name, "global."@);
    text::prefixes_are_dropped(name, "GLOBAL."@);
    text::prefixes_are_dropped(other, "session."@);
    text::prefixes_are_dropped(other, "SESSION."@);
    assert(!text::occurs_at(other, "session."@, 0)) by {
        if text::occurs_at(other, "session."@, 0) {
            assert(other.subrange(0, 8)[0] == 's');
            assert(other[0] == 'g');
        }
    }
    assert(!text::occurs_at(other, "SESSION."@, 0)) by {
        if text::occurs_at(other, "SESSION."@, 0) {
            assert(other.subrange(0, 8)[0] == 'S');
            assert(other[0] == 'g');
        }
    }
    assert(without_scopes(name) == name);
    assert(without_scopes(dotted) == name);
    assert(without_scopes(other) == name);
    assert forall|k: int| 0 <= k < name.len() implies text::letter_or_digit(#[trigger] name[k])
        || name[k] == '_' by {}
    let last = name.last();
    assert('a' <= name[name.len() - 1] <= 'z' || 'A' <= name[name.len() - 1] <= 'Z' || '0'
        <= name[name.len() - 1] <= '9' || name[name.len() - 1] == '_');
    at_name(name, name);
    at_name(dotted, name);
    at_name(other, name);
    assert(seq!['@', '@'] + "session."@ + name =~= seq!['@', '@'] + dotted);
    assert(seq!['@', '@'] + "global."@ + name =~= seq!['@', '@'] + other);
}

proof fn no_scope(name: Seq<char>, scope: Seq<char>, dot: int)
    requires
        0 <= dot < scope.len(),
        scope[dot] == '.',
        forall|k: int|
            0 <= k < name.len() ==> 'a' <= #[trigger] name[k] <= 'z' || 'A' <= name[k] <= 'Z' || '0'
                <= name[k] <= '9' || name[k] == '_',
    ensures
        !text::occurs_at(name, scope, 0),
{
    if text::occurs_at(name, scope, 0) {
        assert(name.subrange(0, scope.len() as int)[dot] == '.');
        assert(name[dot] == '.');
    }
}

proof fn at_name(rest: Seq<char>, name: Seq<char>)
    requires
        rest.len() > 0,
        rest.last() == name.last(),
        name.len() > 0,
        !text::space(name.last()),
        "@@"@ == seq!['@', '@'],
    ensures
        text::trimmed(seq!['@', '@'] + rest) == seq!['@', '@'] + rest,
        text::occurs_at(seq!['@', '@'] + rest, "@@"@, 0),
        (seq!['@', '@'] + rest).skip(2) == rest,
{
    let e = seq!['@', '@'] + rest;
    assert(e.last() == rest.last());
    assert(e.subrange(0, 2) =~= seq!['@', '@']);
    assert(e.skip(2) =~= rest);
}

proof fn items_behind(front: Seq<char>, s: Seq<char>, start: int, i: int, depth: int)
    requires
        0 <= start <= i <= s.len(),
    ensures
        items_from(front + s, front.len() + start, front.len() + i, depth) == items_from(
            s,
            start,
            i,
            depth,
        ),
    decreases s.len() - i,
{
    let all = front + s;
    let n = front.len() as int;
    if i < s.len() {
        assert(all[n + i] == s[i]);
        if s[i] == '(' {
            items_behind(front, s, start, i + 1, depth + 1);
        } else if s[i] == ')' {
            items_behind(front, s, start, i + 1, depth - 1);
        } else if s[i] == ',' && depth == 0 {
            items_behind(front, s, i + 1, i + 1, depth);
            assert(all.subrange(n + start, n + i) =~= s.subrange(start, i));
        } else {
            items_behind(front, s, start, i + 1, depth);
        }
    } else {
        assert(all.subrange(n + start, all.len() as int) =~= s.subrange(start, s.len() as int));
    }
}

proof fn items_pass(s: Seq<char>, i: int, end: int, depth: int)
    requires
        0 <= i <= end <= s.len(),
        forall|k: int|
            i <= k < end ==> #[trigger] s[k] != '(' && s[k] != ')' && (depth == 0 ==> s[k] != ','),
    ensures
        items_from(s, 0, i, depth) == items_from(s, 0, end, depth),
    decreases end - i,
{
    if i < end {
        assert(s[i] != '(' && s[i] != ')');
        items_pass(s, i + 1, end, depth);
    }
}

/// A comma ends an item, and what follows has items of its own; a list without commas
/// is one item.
pub proof fn commas_separate_items(item: Seq<char>, rest: Seq<char>)
    requires
        forall|k: int|
            0 <= k < item.len() ==> #[trigger] item[k] != ',' && item[k] != '(' && item[k] != ')',
    ensures
        list_items(item) == seq![item],
        list_items(item + seq![','] + rest) == seq![item] + list_items(rest),
{
    let s = item + seq![','] + rest;
    let n = item.len() as int;
    items_pass(item, 0, n, 0);
    assert(item.subrange(0, n) =~= item);
    assert forall|k: int| 0 <= k < n implies #[trigger] s[k] != '(' && s[k] != ')' && s[k]
        != ',' by {
        assert(s[k] == item[k]);
    }
    items_pass(s, 0, n, 0);
    assert(s[n] == ',');
    assert(s.subrange(0, n) =~= item);
    items_behind(item + seq![','], rest, 0, 0, 0);
}

/// A comma between parentheses ends no item.
pub proof fn parentheses_hold_items_together(a: Seq<char>, b: Seq<char>, c: Seq<char>)
    requires
        forall|k: int|
            0 <= k < a.len() ==> #[trigger] a[k] != ',' && a[k] != '(' && a[k] != ')',
        forall|k: int| 0 <= k < b.len() ==> #[trigger] b[k] != '(' && b[k] != ')',
        forall|k: int|
            0 <= k < c.len() ==> #[trigger] c[k] != ',' && c[k] != '(' && c[k] != ')',
    ensures
        list_items(a + seq!['('] + b + seq![')'] + c) == seq![a + seq!['('] + b + seq![')'] + c],
{
    let s = a + seq!['('] + b + seq![')'] + c;
    let open = a.len() as int;
    let close = open + 1 + b.len();
    assert forall|k: int| 0 <= k < open implies #[trigger] s[k] != '(' && s[k] != ')' && s[k]
        != ',' by {
        assert(s[k] == a[k]);
    }
    items_pass(s, 0, open, 0);
    assert(s[open] == '(');
    assert forall|k: int| open < k < close implies #[trigger] s[k] != '(' && s[k] != ')' by {
        assert(s[k] == b[k - open - 1]);
    }
    items_pass(s, open + 1, close, 1);
    assert(s[close] == ')');
    assert forall|k: int| close < k < s.len() implies #[trigger] s[k] != '(' && s[k] != ')' && s[k]
        != ',' by {
        assert(s[k] == c[k - close - 1]);
    }
    items_pass(s, close + 1, s.len() as int, 0);
    assert(s.subrange(0, s.len() as int) =~= s);
}

/// An item without ` AS ` is its expression; behind the last ` AS `, in any case, is
/// the name of its column.
pub proof fn aliases_name_columns(item: Seq<char>, pos: int)
    requires
        0 <= pos,
        pos + 4 <= item.len(),
        text::uppered(item).subrange(pos, pos + 4) == seq![' ', 'A', 'S', ' '],
        forall|k: int|
            pos < k <= item.len() - 4 ==> #[trigger] text::uppered(item).subrange(k, k + 4) != seq![
                ' ',
                'A',
                'S',
                ' ',
            ],
    ensures
        item_parts(item).0 == text::trimmed(item.take(pos)),
        item_parts(item).1 == Some(
            text::trimmed_end_of(
                text::trimmed_start_of(text::trimmed(item.skip(pos + 4)), '`'),
                '`',
            ),
        ),
{
    reveal_strlit(" AS ");
    assert(" AS "@ =~= seq![' ', 'A', 'S', ' ']);
    let u = text::uppered(item);
    assert(text::occurs_at(u, " AS "@, pos));
    last_pos_is(u, " AS "@, item.len() as int, pos);
}

proof fn last_pos_is(s: Seq<char>, p: Seq<char>, i: int, at: int)
    requires
        0 <= at <= i,
        text::occurs_at(s, p, at),
        forall|k: int| at < k <= s.len() - p.len() ==> #[trigger] s.subrange(k, k + p.len()) != p,
    ensures
        text::last_pos(s, p, i) == at,
    decreases i - at,
{
    if at < i {
        if text::occurs_at(s, p, i) {
            assert(s.subrange(i, i + p.len()) == p);
        }
        last_pos_is(s, p, i - 1, at);
    }
}

/// A row has a column and a value for each item, in the order of the items, if and
/// only if every item has a value.
pub proof fn rows_follow_their_items(items: Seq<Seq<char>>, db: Option<Seq<char>>)
    ensures
        match row_of(items, db) {
            Some(SessionView::Row { columns, values }) => {
                &&& columns.len() == items.len() && values.len() == items.len()
                &&& forall|i: int|
                    0 <= i < items.len() ==> item_value(#[trigger] items[i], db) == Some(values[i])
                        && columns[i] == column_name(items[i])
            },
            Some(SessionView::OkReply) => false,
            None => exists|i: int|
                0 <= i < items.len() && item_value(#[trigger] items[i], db) is None,
        },
{
}

/// Statements that change nothing here are answered as done: `SET`, `LOCK` and `UNLOCK
/// TABLES`, `FLUSH` and what it names, and dropping a routine if it exists.
pub proof fn settings_are_acknowledged(sql: Seq<char>, db: Option<Seq<char>>)
    ensures
        ({
            let u = text::uppered(bare_statement(sql));
            let w = text::words(u);
            let r = session_response(sql, db);
            &&& u == "SET"@ || (u.len() >= 4 && u.take(4) == seq!['S', 'E', 'T', ' ']) ==> r
                == Some(SessionView::OkReply)
            &&& w.len() >= 2 && (w[0] == "LOCK"@ || w[0] == "UNLOCK"@) && (w[1] == "TABLES"@ || w[1]
                == "TABLE"@) ==> r == Some(SessionView::OkReply)
            &&& w.len() >= 2 && w[0] == "FLUSH"@ ==> r == Some(SessionView::OkReply)
            &&& w.len() >= 5 && w[0] == "DROP"@ && (w[1] == "PROCEDURE"@ || w[1] == "FUNCTION"@)
                && w[2] == "IF"@ && w[3] == "EXISTS"@ ==> r == Some(SessionView::OkReply)
        }),
{
    reveal_strlit("SET ");
    assert("SET "@ =~= seq!['S', 'E', 'T', ' ']);
    let u = text::uppered(bare_statement(sql));
    if u.len() >= 4 {
        assert(u.subrange(0, 4) =~= u.take(4));
    }
}

/// A `LIMIT` behind a list is left out, with what stands behind it.
pub proof fn limits_are_left_out(s: Seq<char>, pos: int)
    requires
        0 <= pos,
        pos + 7 <= s.len(),
        text::uppered(s).subrange(pos, pos + 7) == seq![' ', 'L', 'I', 'M', 'I', 'T', ' '],
        forall|k: int|
            pos < k <= s.len() - 7 ==> #[trigger] text::uppered(s).subrange(k, k + 7) != seq![
                ' ',
                'L',
                'I',
                'M',
                'I',
                'T',
                ' ',
            ],
    ensures
        without_limit(s) == s.take(pos),
{
    reveal_strlit(" LIMIT ");
    assert(" LIMIT "@ =~= seq![' ', 'L', 'I', 'M', 'I', 'T', ' ']);
    let u = text::uppered(s);
    assert(text::occurs_at(u, " LIMIT "@, pos));
    last_pos_is(u, " LIMIT "@, s.len() as int, pos);
}

/// A list without a `LIMIT` behind it is whole.
pub proof fn lists_without_limit_are_whole(s: Seq<char>)
    requires
        forall|k: int|
            0 <= k <= s.len() - 7 ==> #[trigger] text::uppered(s).subrange(k, k + 7) != seq![
                ' ',
                'L',
                'I',
                'M',
                'I',
                'T',
                ' ',
            ],
    ensures
        without_limit(s) == s,
{
    reveal_strlit(" LIMIT ");
    assert(" LIMIT "@ =~= seq![' ', 'L', 'I', 'M', 'I', 'T', ' ']);
    let u = text::uppered(s);
    let pos = text::last_pos(u, " LIMIT "@, s.len() as int);
    text::last_place_is_last(u, " LIMIT "@, s.len() as int, 0);
    if pos >= 0 {
        assert(u.subrange(pos, pos + 7) == " LIMIT "@);
    }
}

/// Only a `SET`, a `LOCK` or `UNLOCK TABLES`, a `FLUSH`, and a `DROP PROCEDURE` or
/// `FUNCTION IF EXISTS` is acknowledged, only a `SELECT` is answered with a row, and
/// everything else is left to the engine.
pub proof fn other_statements_are_left_to_the_engine(sql: Seq<char>, db: Option<Seq<char>>)
    ensures
        ({
            let u = text::uppered(bare_statement(sql));
            let w = text::words(u);
            match session_response(sql, db) {
                Some(SessionView::OkReply) => {
                    ||| u == "SET"@
                    ||| u.len() >= 4 && u.take(4) == seq!['S', 'E', 'T', ' ']
                    ||| w.len() >= 2 && (w[0] == "LOCK"@ || w[0] == "UNLOCK"@) && (w[1]
                        == "TABLES"@ || w[1] == "TABLE"@)
                    ||| w.len() >= 2 && w[0] == "FLUSH"@
                    ||| w.len() >= 5 && w[0] == "DROP"@ && (w[1] == "PROCEDURE"@ || w[1]
                        == "FUNCTION"@) && w[2] == "IF"@ && w[3] == "EXISTS"@
                },
                Some(SessionView::Row { columns, values }) => {
                    &&& u.len() >= 7
                    &&& u.take(6) == seq!['S', 'E', 'L', 'E', 'C', 'T']
                    &&& u[6] == ' ' || u[6] == '\t'
                    &&& columns.len() == values.len()
                },
                None => !(u == "SET"@) && !(w.len() >= 2 && w[0] == "FLUSH"@),
            }
        }),
{
    reveal_strlit("SET ");
    assert("SET "@ =~= seq!['S', 'E', 'T', ' ']);
    reveal_strlit("SELECT ");
    assert("SELECT "@ =~= seq!['S', 'E', 'L', 'E', 'C', 'T', ' ']);
    reveal_strlit("SELECT\t");
    assert("SELECT\t"@ =~= seq!['S', 'E', 'L', 'E', 'C', 'T', '\t']);
    let u = text::uppered(bare_statement(sql));
    if u.len() >= 4 {
        assert(u.subrange(0, 4) =~= u.take(4));
    }
    if u.len() >= 7 {
        assert(u.subrange(0, 7).take(6) =~= u.take(6));
        assert(u.subrange(0, 7)[6] == u[6]);
        assert("SELECT "@.take(6) =~= seq!['S', 'E', 'L', 'E', 'C', 'T']);
        assert("SELECT\t"@.take(6) =~= seq!['S', 'E', 'L', 'E', 'C', 'T']);
    }
}

} // verus!
