//! Recognising the `SHOW`, `DESCRIBE` and table-maintenance statements.
//!
//! A statement is split into tokens and matched keyword by keyword. What a
//! statement asks for is given as a small record; a statement of any other form
//! gives `None`, so that the caller can try the next form.

use vstd::prelude::*;

use crate::server::tokens;
use crate::text;

verus! {

// ---------------------------------------------------------------------------
// Parsed statements
// ---------------------------------------------------------------------------
/// A condition on one column of a `SHOW` result.
#[derive(Debug, PartialEq, Eq)]
pub struct RowFilter {
    /// The output column that is tested.
    pub column: String,
    /// `true` for `LIKE`, `false` for `=`.
    pub like: bool,
    /// The pattern or the value.
    pub value: String,
}

/// The model of a [`RowFilter`].
pub struct FilterView {
    pub column: Seq<char>,
    pub like: bool,
    pub value: Seq<char>,
}

impl DeepView for RowFilter {
    type V = FilterView;

    open spec fn deep_view(&self) -> FilterView {
        FilterView { column: self.column@, like: self.like, value: self.value@ }
    }
}

/// `SHOW [FULL] COLUMNS FROM tbl`, or `DESCRIBE tbl`.
#[derive(Debug, PartialEq, Eq)]
pub struct ShowColumns {
    pub full: bool,
    pub table: String,
    pub filter: Option<RowFilter>,
}

/// The model of a [`ShowColumns`].
pub struct ShowColumnsView {
    pub full: bool,
    pub table: Seq<char>,
    pub filter: Option<FilterView>,
}

impl DeepView for ShowColumns {
    type V = ShowColumnsView;

    open spec fn deep_view(&self) -> ShowColumnsView {
        ShowColumnsView {
            full: self.full,
            table: self.table@,
            filter: self.filter.deep_view(),
        }
    }
}

/// `SHOW {INDEX | INDEXES | KEYS} FROM tbl`.
#[derive(Debug, PartialEq, Eq)]
pub struct ShowIndex {
    pub table: String,
    pub filter: Option<RowFilter>,
}

/// The model of a [`ShowIndex`].
pub struct ShowIndexView {
    pub table: Seq<char>,
    pub filter: Option<FilterView>,
}

impl DeepView for ShowIndex {
    type V = ShowIndexView;

    open spec fn deep_view(&self) -> ShowIndexView {
        ShowIndexView { table: self.table@, filter: self.filter.deep_view() }
    }
}

/// `SHOW [FULL] TABLES [LIKE 'pat']`.
#[derive(Debug, PartialEq, Eq)]
pub struct ShowTables {
    pub full: bool,
    pub like: Option<String>,
}

/// The model of a [`ShowTables`].
pub struct ShowTablesView {
    pub full: bool,
    pub like: Option<Seq<char>>,
}

impl DeepView for ShowTables {
    type V = ShowTablesView;

    open spec fn deep_view(&self) -> ShowTablesView {
        ShowTablesView { full: self.full, like: self.like.deep_view() }
    }
}

/// `SHOW TABLE STATUS`, with the condition on the table's name: whether it is a
/// `LIKE`, and the pattern or the name.
#[derive(Debug, PartialEq, Eq)]
pub struct ShowTableStatus {
    pub name_filter: Option<(bool, String)>,
}

impl DeepView for ShowTableStatus {
    type V = Option<(bool, Seq<char>)>;

    open spec fn deep_view(&self) -> Option<(bool, Seq<char>)> {
        self.name_filter.deep_view()
    }
}

/// `SHOW [GLOBAL | SESSION] VARIABLES [LIKE 'pat']`.
#[derive(Debug, PartialEq, Eq)]
pub struct ShowVariables {
    pub like: Option<String>,
}

impl DeepView for ShowVariables {
    type V = Option<Seq<char>>;

    open spec fn deep_view(&self) -> Option<Seq<char>> {
        self.like.deep_view()
    }
}

/// A result set: column headers and text rows, with `None` for SQL `NULL`.
#[derive(Debug, PartialEq, Eq)]
pub struct ColumnsResult {
    pub columns: Vec<&'static str>,
    pub rows: Vec<Vec<Option<String>>>,
}

/// The model of a [`ColumnsResult`].
#[verifier::ext_equal]
pub struct ResultView {
    pub columns: Seq<Seq<char>>,
    pub rows: Seq<Seq<Option<Seq<char>>>>,
}

impl DeepView for ColumnsResult {
    type V = ResultView;

    open spec fn deep_view(&self) -> ResultView {
        ResultView { columns: self.columns.deep_view(), rows: self.rows.deep_view() }
    }
}

// ---------------------------------------------------------------------------
// Column headers
// ---------------------------------------------------------------------------
/// The headers of `SHOW [FULL] COLUMNS`.
pub open spec fn column_headers_spec(full: bool) -> Seq<Seq<char>> {
    if full {
        seq![
            "Field"@,
            "Type"@,
            "Collation"@,
            "Null"@,
            "Key"@,
            "Default"@,
            "Extra"@,
            "Privileges"@,
            "Comment"@,
        ]
    } else {
        seq!["Field"@, "Type"@, "Null"@, "Key"@, "Default"@, "Extra"@]
    }
}

/// The headers of `SHOW [FULL] COLUMNS`, in order.
pub fn column_headers(full: bool) -> (r: Vec<&'static str>)
    ensures
        r.deep_view() == column_headers_spec(full),
{
    if full {
        let r = vec![
            "Field",
            "Type",
            "Collation",
            "Null",
            "Key",
            "Default",
            "Extra",
            "Privileges",
            "Comment",
        ];
        assert(r.deep_view() =~= column_headers_spec(full));
        r
    } else {
        let r = vec!["Field", "Type", "Null", "Key", "Default", "Extra"];
        assert(r.deep_view() =~= column_headers_spec(full));
        r
    }
}

/// The headers of `SHOW INDEX`.
pub open spec fn index_headers_spec() -> Seq<Seq<char>> {
    seq![
        "Table"@,
        "Non_unique"@,
        "Key_name"@,
        "Seq_in_index"@,
        "Column_name"@,
        "Collation"@,
        "Cardinality"@,
        "Sub_part"@,
        "Packed"@,
        "Null"@,
        "Index_type"@,
        "Comment"@,
        "Index_comment"@,
        "Visible"@,
        "Expression"@,
    ]
}

/// The headers of `SHOW INDEX`, in order.
pub fn index_headers() -> (r: Vec<&'static str>)
    ensures
        r.deep_view() == index_headers_spec(),
{
    let r = vec![
        "Table",
        "Non_unique",
        "Key_name",
        "Seq_in_index",
        "Column_name",
        "Collation",
        "Cardinality",
        "Sub_part",
        "Packed",
        "Null",
        "Index_type",
        "Comment",
        "Index_comment",
        "Visible",
        "Expression",
    ];
    assert(r.deep_view() =~= index_headers_spec());
    r
}

/// Some header is `name`, but for ASCII case.
pub open spec fn has_header(headers: Seq<Seq<char>>, name: Seq<char>) -> bool {
    exists|i: int| 0 <= i < headers.len() && #[trigger] text::fold_eq(headers[i], name)
}

/// Whether some header is `name`, but for ASCII case.
pub fn knows_header(headers: &Vec<&'static str>, name: &str) -> (r: bool)
    ensures
        r == has_header(headers.deep_view(), name@),
{
    let wanted = text::chars_of(name);
    for i in 0..headers.len()
        invariant
            wanted@ == name@,
            forall|j: int|
                0 <= j < i ==> !text::fold_eq(#[trigger] headers.deep_view()[j], name@),
    {
        let header = text::chars_of(headers[i]);
        assert(headers.deep_view()[i as int] == header@);
        if text::eq_fold(&header, &wanted) {
            return true;
        }
    }
    false
}

// ---------------------------------------------------------------------------
// Pieces of the grammar
// ---------------------------------------------------------------------------
/// The tokens of a statement, without the white space and semicolons around it.
pub open spec fn statement_tokens(sql: Seq<char>) -> Seq<Seq<char>> {
    tokens::tokens(text::trimmed(text::trimmed_end_of(text::trimmed(sql), ';')))
}

/// Token `k` is the keyword `word`, in any case.
pub open spec fn kw(toks: Seq<Seq<char>>, k: int, word: Seq<char>) -> bool {
    0 <= k < toks.len() && text::fold_eq(toks[k], word)
}

/// Token `k` is the punctuation mark `c`.
pub open spec fn mark(toks: Seq<Seq<char>>, k: int, c: char) -> bool {
    0 <= k < toks.len() && toks[k] == seq![c]
}

/// `{FROM | IN}` stands at `k`.
pub open spec fn from_or_in(toks: Seq<Seq<char>>, k: int) -> bool {
    kw(toks, k, "FROM"@) || kw(toks, k, "IN"@)
}

/// The table named at `k`, as `tbl` or `db.tbl`, and the position behind it.
pub open spec fn table_name(toks: Seq<Seq<char>>, k: int) -> Option<(Seq<char>, int)> {
    if k >= toks.len() {
        None
    } else if mark(toks, k + 1, '.') {
        if k + 2 < toks.len() {
            Some((toks[k + 2], k + 3))
        } else {
            None
        }
    } else {
        Some((toks[k], k + 1))
    }
}

/// The position behind an optional `{FROM | IN} db`.
pub open spec fn after_database(toks: Seq<Seq<char>>, k: int) -> Option<int> {
    if from_or_in(toks, k) {
        if k + 1 < toks.len() {
            Some(k + 2)
        } else {
            None
        }
    } else {
        Some(k)
    }
}

/// What stands between the quotes of a token that is wrapped in the quote `q`.
pub open spec fn between(tok: Seq<char>, q: char) -> Option<Seq<char>> {
    if tok.len() >= 2 && tok[0] == q && tok.last() == q {
        Some(tok.subrange(1, tok.len() - 1))
    } else {
        None
    }
}

/// The text of a quoted token as it stands between its quotes.
pub open spec fn bare(tok: Seq<char>) -> Option<Seq<char>> {
    match between(tok, '\'') {
        Some(s) => Some(s),
        None => between(tok, '"'),
    }
}

/// The text that a quoted token denotes: doubled quotes stand for one.
pub open spec fn unquoted(tok: Seq<char>) -> Option<Seq<char>> {
    match between(tok, '\'') {
        Some(s) => Some(text::undoubled(s, '\'')),
        None => match between(tok, '"') {
            Some(s) => Some(text::undoubled(s, '"')),
            None => None,
        },
    }
}

/// Whether the operator at `k` is `LIKE` or `=`.
pub open spec fn operator(toks: Seq<Seq<char>>, k: int) -> Option<bool> {
    if mark(toks, k, '=') {
        Some(false)
    } else if kw(toks, k, "LIKE"@) {
        Some(true)
    } else {
        None
    }
}

/// The condition `col {= | LIKE} value` at `k`, over one of the given columns.
pub open spec fn condition(toks: Seq<Seq<char>>, k: int, headers: Seq<Seq<char>>) -> Option<
    FilterView,
> {
    if k + 2 >= toks.len() || !has_header(headers, toks[k]) {
        None
    } else {
        match operator(toks, k + 1) {
            None => None,
            Some(like) => Some(
                FilterView {
                    column: toks[k],
                    like,
                    value: match unquoted(toks[k + 2]) {
                        Some(v) => v,
                        None => toks[k + 2],
                    },
                },
            ),
        }
    }
}

/// Whether token `k` is the keyword `word`.
fn is_kw(toks: &Vec<String>, k: usize, word: &str) -> (r: bool)
    ensures
        r == kw(toks.deep_view(), k as int, word@),
{
    if k < toks.len() {
        let tok = text::chars_of(toks[k].as_str());
        let w = text::chars_of(word);
        assert(toks.deep_view()[k as int] == tok@);
        text::eq_fold(&tok, &w)
    } else {
        false
    }
}

/// Whether token `k` is the punctuation mark `c`.
fn is_mark(toks: &Vec<String>, k: usize, c: char) -> (r: bool)
    ensures
        r == mark(toks.deep_view(), k as int, c),
{
    if k < toks.len() {
        let tok = text::chars_of(toks[k].as_str());
        assert(toks.deep_view()[k as int] == tok@);
        let r = tok.len() == 1 && tok[0] == c;
        assert(r ==> tok@ =~= seq![c]);
        r
    } else {
        false
    }
}

/// A copy of token `k`.
fn token(toks: &Vec<String>, k: usize) -> (r: String)
    requires
        k < toks.len(),
    ensures
        r@ == toks.deep_view()[k as int],
{
    toks[k].clone()
}

/// The tokens of a statement.
fn split_statement(sql: &str) -> (toks: Vec<String>)
    ensures
        toks.deep_view() == statement_tokens(sql@),
{
    let chars = text::chars_of(sql);
    tokens::tokenize_chars(text::trim(text::trim_end_of(text::trim(&chars), ';')))
}

/// Reads a table name at `k`.
fn read_table(toks: &Vec<String>, k: usize) -> (r: Option<(String, usize)>)
    requires
        k <= toks.len(),
    ensures
        match r {
            Some((name, next)) => table_name(toks.deep_view(), k as int) == Some(
                (name@, next as int),
            ) && next <= toks.len(),
            None => table_name(toks.deep_view(), k as int) is None,
        },
{
    if k >= toks.len() {
        None
    } else if is_mark(toks, k + 1, '.') {
        if toks.len() - k > 2 {
            Some((token(toks, k + 2), k + 3))
        } else {
            None
        }
    } else {
        Some((token(toks, k), k + 1))
    }
}

/// Skips an optional `{FROM | IN} db` at `k`.
fn skip_database(toks: &Vec<String>, k: usize) -> (r: Option<usize>)
    requires
        k <= toks.len(),
    ensures
        match r {
            Some(next) => after_database(toks.deep_view(), k as int) == Some(next as int) && next
                <= toks.len(),
            None => after_database(toks.deep_view(), k as int) is None,
        },
{
    if is_kw(toks, k, "FROM") || is_kw(toks, k, "IN") {
        if toks.len() - k > 1 {
            Some(k + 2)
        } else {
            None
        }
    } else {
        Some(k)
    }
}

/// What stands between the quotes `q` of a token.
fn strip_quotes<'a>(tok: &'a [char], q: char) -> (r: Option<&'a [char]>)
    ensures
        match r {
            Some(s) => between(tok@, q) == Some(s@),
            None => between(tok@, q) is None,
        },
{
    if tok.len() >= 2 && tok[0] == q && tok[tok.len() - 1] == q {
        Some(&tok[1..tok.len() - 1])
    } else {
        None
    }
}

/// The text of a quoted token, as it stands.
fn bare_token(tok: &str) -> (r: Option<String>)
    ensures
        r.deep_view() == bare(tok@),
{
    let chars = text::chars_of(tok);
    match strip_quotes(&chars, '\'') {
        Some(s) => Some(text::string_of(s)),
        None => match strip_quotes(&chars, '"') {
            Some(s) => Some(text::string_of(s)),
            None => None,
        },
    }
}

/// Strips the quotes of a string token and reads doubled quotes as one; `None`
/// if the token is not quoted.
pub fn unquote_token(tok: &str) -> (r: Option<String>)
    ensures
        r.deep_view() == unquoted(tok@),
{
    let chars = text::chars_of(tok);
    match strip_quotes(&chars, '\'') {
        Some(s) => Some(text::string_of(&text::undouble(s, '\''))),
        None => match strip_quotes(&chars, '"') {
            Some(s) => Some(text::string_of(&text::undouble(s, '"'))),
            None => None,
        },
    }
}

/// Reads an operator at `k`.
fn read_operator(toks: &Vec<String>, k: usize) -> (r: Option<bool>)
    ensures
        r == operator(toks.deep_view(), k as int),
{
    if is_mark(toks, k, '=') {
        Some(false)
    } else if is_kw(toks, k, "LIKE") {
        Some(true)
    } else {
        None
    }
}

/// Reads a condition at `k`.
fn read_condition(toks: &Vec<String>, k: usize, headers: &Vec<&'static str>) -> (r: Option<
    RowFilter,
>)
    requires
        k <= toks.len(),
    ensures
        r.deep_view() == condition(toks.deep_view(), k as int, headers.deep_view()),
{
    if toks.len() - k < 3 {
        return None;
    }
    let column = token(toks, k);
    if !knows_header(headers, column.as_str()) {
        return None;
    }
    match read_operator(toks, k + 1) {
        None => None,
        Some(like) => {
            let raw = token(toks, k + 2);
            let value = match unquote_token(raw.as_str()) {
                Some(v) => v,
                None => raw,
            };
            Some(RowFilter { column, like, value })
        },
    }
}

// ---------------------------------------------------------------------------
// SHOW COLUMNS and DESCRIBE
// ---------------------------------------------------------------------------
/// The condition at the end of a `SHOW COLUMNS`, if there is one: `LIKE 'pat'`
/// tests `Field`. `None` if what stands there is not such a condition, or if
/// anything follows it.
pub open spec fn columns_condition(toks: Seq<Seq<char>>, k: int, full: bool) -> Option<
    Option<FilterView>,
> {
    if k == toks.len() {
        Some(None)
    } else if kw(toks, k, "LIKE"@) {
        if k + 2 != toks.len() {
            None
        } else {
            match unquoted(toks[k + 1]) {
                Some(pat) => Some(
                    Some(FilterView { column: "Field"@, like: true, value: pat }),
                ),
                None => None,
            }
        }
    } else if kw(toks, k, "WHERE"@) && k + 4 == toks.len() {
        match condition(toks, k + 1, column_headers_spec(full)) {
            Some(f) => Some(Some(f)),
            None => None,
        }
    } else {
        None
    }
}

/// What `SHOW [FULL] {COLUMNS | FIELDS} {FROM | IN} tbl [{FROM | IN} db]
/// [LIKE 'pat' | WHERE col {= | LIKE} value]` asks for.
pub open spec fn show_columns(sql: Seq<char>) -> Option<ShowColumnsView> {
    let t = statement_tokens(sql);
    let full = kw(t, 1, "FULL"@);
    let k: int = if full {
        2
    } else {
        1
    };
    if !kw(t, 0, "SHOW"@) || !(kw(t, k, "COLUMNS"@) || kw(t, k, "FIELDS"@)) || !from_or_in(
        t,
        k + 1,
    ) {
        None
    } else {
        match table_name(t, k + 2) {
            None => None,
            Some((table, k)) => match after_database(t, k) {
                None => None,
                Some(k) => match columns_condition(t, k, full) {
                    None => None,
                    Some(filter) => Some(ShowColumnsView { full, table, filter }),
                },
            },
        }
    }
}

/// What `{DESCRIBE | DESC} tbl` asks for.
pub open spec fn describe(sql: Seq<char>) -> Option<ShowColumnsView> {
    let t = statement_tokens(sql);
    if !(kw(t, 0, "DESCRIBE"@) || kw(t, 0, "DESC"@)) {
        None
    } else {
        match table_name(t, 1) {
            Some((table, k)) => if k == t.len() {
                Some(ShowColumnsView { full: false, table, filter: None })
            } else {
                None
            },
            None => None,
        }
    }
}

/// Reads the condition at the end of a `SHOW COLUMNS`.
fn read_columns_condition(toks: &Vec<String>, k: usize, full: bool) -> (r: Option<
    Option<RowFilter>,
>)
    requires
        k <= toks.len(),
    ensures
        r.deep_view() == columns_condition(toks.deep_view(), k as int, full),
{
    if k == toks.len() {
        Some(None)
    } else if is_kw(toks, k, "LIKE") {
        if toks.len() - k != 2 {
            return None;
        }
        let raw = token(toks, k + 1);
        match unquote_token(raw.as_str()) {
            Some(pat) => Some(Some(RowFilter { column: "Field".to_string(), like: true, value: pat })),
            None => None,
        }
    } else if is_kw(toks, k, "WHERE") && toks.len() - k == 4 {
        let headers = column_headers(full);
        match read_condition(toks, k + 1, &headers) {
            Some(f) => Some(Some(f)),
            None => None,
        }
    } else {
        None
    }
}

/// Recognises `SHOW [FULL] {COLUMNS | FIELDS} {FROM | IN} tbl [{FROM | IN} db]`
/// with an optional `LIKE 'pat'` or `WHERE col {= | LIKE} value` behind it.
pub fn parse_show_columns(sql: &str) -> (r: Option<ShowColumns>)
    ensures
        r.deep_view() == show_columns(sql@),
{
    let toks = split_statement(sql);
    if !is_kw(&toks, 0, "SHOW") {
        return None;
    }
    let full = is_kw(&toks, 1, "FULL");
    let k: usize = if full {
        2
    } else {
        1
    };
    if !(is_kw(&toks, k, "COLUMNS") || is_kw(&toks, k, "FIELDS")) {
        return None;
    }
    if !(is_kw(&toks, k + 1, "FROM") || is_kw(&toks, k + 1, "IN")) {
        return None;
    }
    match read_table(&toks, k + 2) {
        None => None,
        Some((table, after)) => match skip_database(&toks, after) {
            None => None,
            Some(rest) => match read_columns_condition(&toks, rest, full) {
                None => None,
                Some(filter) => Some(ShowColumns { full, table, filter }),
            },
        },
    }
}

/// Recognises `{DESCRIBE | DESC} tbl`, which is `SHOW COLUMNS FROM tbl`.
pub fn parse_describe(sql: &str) -> (r: Option<ShowColumns>)
    ensures
        r.deep_view() == describe(sql@),
{
    let toks = split_statement(sql);
    if !(is_kw(&toks, 0, "DESCRIBE") || is_kw(&toks, 0, "DESC")) {
        return None;
    }
    match read_table(&toks, 1) {
        Some((table, k)) => if k == toks.len() {
            Some(ShowColumns { full: false, table, filter: None })
        } else {
            None
        },
        None => None,
    }
}

// ---------------------------------------------------------------------------
// SHOW INDEX
// ---------------------------------------------------------------------------
/// What `SHOW {INDEX | INDEXES | KEYS} {FROM | IN} tbl [{FROM | IN} db]
/// [WHERE col {= | LIKE} value]` asks for.
pub open spec fn show_index(sql: Seq<char>) -> Option<ShowIndexView> {
    let t = statement_tokens(sql);
    if !kw(t, 0, "SHOW"@) || !(kw(t, 1, "INDEX"@) || kw(t, 1, "INDEXES"@) || kw(t, 1, "KEYS"@))
        || !from_or_in(t, 2) {
        None
    } else {
        match table_name(t, 3) {
            None => None,
            Some((table, k)) => match after_database(t, k) {
                None => None,
                Some(k) => if k == t.len() {
                    Some(ShowIndexView { table, filter: None })
                } else if kw(t, k, "WHERE"@) && k + 4 == t.len() {
                    match condition(t, k + 1, index_headers_spec()) {
                        Some(f) => Some(ShowIndexView { table, filter: Some(f) }),
                        None => None,
                    }
                } else {
                    None
                },
            },
        }
    }
}

/// Recognises `SHOW {INDEX | INDEXES | KEYS} {FROM | IN} tbl [{FROM | IN} db]`
/// with an optional `WHERE col {= | LIKE} value` behind it. A compound condition
/// or one on an unknown column is not recognised.
pub fn parse_show_index(sql: &str) -> (r: Option<ShowIndex>)
    ensures
        r.deep_view() == show_index(sql@),
{
    let toks = split_statement(sql);
    if !is_kw(&toks, 0, "SHOW") {
        return None;
    }
    if !(is_kw(&toks, 1, "INDEX") || is_kw(&toks, 1, "INDEXES") || is_kw(&toks, 1, "KEYS")) {
        return None;
    }
    if !(is_kw(&toks, 2, "FROM") || is_kw(&toks, 2, "IN")) {
        return None;
    }
    let (table, after) = match read_table(&toks, 3) {
        None => return None,
        Some(found) => found,
    };
    let k: usize = match skip_database(&toks, after) {
        None => return None,
        Some(k) => k,
    };
    if k == toks.len() {
        Some(ShowIndex { table, filter: None })
    } else if is_kw(&toks, k, "WHERE") && toks.len() - k == 4 {
        let headers = index_headers();
        match read_condition(&toks, k + 1, &headers) {
            Some(f) => Some(ShowIndex { table, filter: Some(f) }),
            None => None,
        }
    } else {
        None
    }
}

// ---------------------------------------------------------------------------
// SHOW TABLES and SHOW VARIABLES
// ---------------------------------------------------------------------------
/// The pattern of an optional `LIKE 'pat'` that ends a statement; `None` if
/// something else stands at `k`.
pub open spec fn like_clause(toks: Seq<Seq<char>>, k: int) -> Option<Option<Seq<char>>> {
    if k == toks.len() {
        Some(None)
    } else if kw(toks, k, "LIKE"@) && k + 2 == toks.len() {
        match bare(toks[k + 1]) {
            Some(pat) => Some(Some(pat)),
            None => None,
        }
    } else {
        None
    }
}

/// Reads an optional `LIKE 'pat'` that ends a statement.
fn read_like_clause(toks: &Vec<String>, k: usize) -> (r: Option<Option<String>>)
    requires
        k <= toks.len(),
    ensures
        r.deep_view() == like_clause(toks.deep_view(), k as int),
{
    if k == toks.len() {
        Some(None)
    } else if is_kw(toks, k, "LIKE") && toks.len() - k == 2 {
        let raw = token(toks, k + 1);
        match bare_token(raw.as_str()) {
            Some(pat) => Some(Some(pat)),
            None => None,
        }
    } else {
        None
    }
}

/// What `SHOW [FULL] TABLES [{FROM | IN} db] [LIKE 'pat']` asks for.
pub open spec fn show_tables(sql: Seq<char>) -> Option<ShowTablesView> {
    let t = statement_tokens(sql);
    let full = kw(t, 1, "FULL"@);
    let k: int = if full {
        2
    } else {
        1
    };
    if !kw(t, 0, "SHOW"@) || !kw(t, k, "TABLES"@) {
        None
    } else {
        match after_database(t, k + 1) {
            None => None,
            Some(k) => match like_clause(t, k) {
                None => None,
                Some(like) => Some(ShowTablesView { full, like }),
            },
        }
    }
}

/// Recognises `SHOW [FULL] TABLES [{FROM | IN} db] [LIKE 'pat']`.
pub fn parse_show_tables(sql: &str) -> (r: Option<ShowTables>)
    ensures
        r.deep_view() == show_tables(sql@),
{
    let toks = split_statement(sql);
    if !is_kw(&toks, 0, "SHOW") {
        return None;
    }
    let full = is_kw(&toks, 1, "FULL");
    let k: usize = if full {
        2
    } else {
        1
    };
    if !is_kw(&toks, k, "TABLES") {
        return None;
    }
    match skip_database(&toks, k + 1) {
        None => None,
        Some(rest) => match read_like_clause(&toks, rest) {
            None => None,
            Some(like) => Some(ShowTables { full, like }),
        },
    }
}

/// What `SHOW [GLOBAL | SESSION] VARIABLES [LIKE 'pat']` asks for.
pub open spec fn show_variables(sql: Seq<char>) -> Option<Option<Seq<char>>> {
    let t = statement_tokens(sql);
    let k: int = if kw(t, 1, "GLOBAL"@) || kw(t, 1, "SESSION"@) {
        2
    } else {
        1
    };
    if !kw(t, 0, "SHOW"@) || !kw(t, k, "VARIABLES"@) {
        None
    } else {
        like_clause(t, k + 1)
    }
}

/// Recognises `SHOW [GLOBAL | SESSION] VARIABLES [LIKE 'pat']`. There is one set
/// of values, so the scope is ignored.
pub fn parse_show_variables(sql: &str) -> (r: Option<ShowVariables>)
    ensures
        r.deep_view() == show_variables(sql@),
{
    let toks = split_statement(sql);
    if !is_kw(&toks, 0, "SHOW") {
        return None;
    }
    let k: usize = if is_kw(&toks, 1, "GLOBAL") || is_kw(&toks, 1, "SESSION") {
        2
    } else {
        1
    };
    if !is_kw(&toks, k, "VARIABLES") {
        return None;
    }
    match read_like_clause(&toks, k + 1) {
        None => None,
        Some(like) => Some(ShowVariables { like }),
    }
}

// ---------------------------------------------------------------------------
// SHOW TABLE STATUS
// ---------------------------------------------------------------------------
/// The condition on the name that ends a `SHOW TABLE STATUS`, if there is one.
pub open spec fn name_condition(toks: Seq<Seq<char>>, k: int) -> Option<
    Option<(bool, Seq<char>)>,
> {
    if k == toks.len() {
        Some(None)
    } else if kw(toks, k, "LIKE"@) {
        if k + 2 != toks.len() {
            None
        } else {
            match unquoted(toks[k + 1]) {
                Some(v) => Some(Some((true, v))),
                None => None,
            }
        }
    } else if kw(toks, k, "WHERE"@) && kw(toks, k + 1, "Name"@) && k + 4 == toks.len() {
        match (operator(toks, k + 2), unquoted(toks[k + 3])) {
            (Some(like), Some(v)) => Some(Some((like, v))),
            _ => None,
        }
    } else {
        None
    }
}

/// What `SHOW TABLE STATUS [{FROM | IN} db] [LIKE 'pat' | WHERE Name {= | LIKE}
/// 'value']` asks for.
pub open spec fn show_table_status(sql: Seq<char>) -> Option<Option<(bool, Seq<char>)>> {
    let t = statement_tokens(sql);
    if !kw(t, 0, "SHOW"@) || !kw(t, 1, "TABLE"@) || !kw(t, 2, "STATUS"@) {
        None
    } else {
        match after_database(t, 3) {
            None => None,
            Some(k) => name_condition(t, k),
        }
    }
}

/// Recognises `SHOW TABLE STATUS [{FROM | IN} db]` with an optional `LIKE 'pat'`
/// or `WHERE Name {= | LIKE} 'value'` behind it.
pub fn parse_show_table_status(sql: &str) -> (r: Option<ShowTableStatus>)
    ensures
        r.deep_view() == show_table_status(sql@),
{
    let toks = split_statement(sql);
    if !is_kw(&toks, 0, "SHOW") || !is_kw(&toks, 1, "TABLE") || !is_kw(&toks, 2, "STATUS") {
        return None;
    }
    let k: usize = match skip_database(&toks, 3) {
        None => return None,
        Some(k) => k,
    };
    if k == toks.len() {
        Some(ShowTableStatus { name_filter: None })
    } else if is_kw(&toks, k, "LIKE") {
        if toks.len() - k != 2 {
            return None;
        }
        let raw = token(&toks, k + 1);
        match unquote_token(raw.as_str()) {
            Some(v) => Some(ShowTableStatus { name_filter: Some((true, v)) }),
            None => None,
        }
    } else if is_kw(&toks, k, "WHERE") && is_kw(&toks, k + 1, "Name") && toks.len() - k == 4 {
        let raw = token(&toks, k + 3);
        match (read_operator(&toks, k + 2), unquote_token(raw.as_str())) {
            (Some(like), Some(v)) => Some(ShowTableStatus { name_filter: Some((like, v)) }),
            _ => None,
        }
    } else {
        None
    }
}

// ---------------------------------------------------------------------------
// Statements with an empty or a fixed result
// ---------------------------------------------------------------------------
/// A result without rows.
pub open spec fn no_rows(columns: Seq<Seq<char>>) -> ResultView {
    ResultView { columns, rows: seq![] }
}

/// A result without rows.
fn empty_result(columns: Vec<&'static str>) -> (r: ColumnsResult)
    ensures
        r.deep_view() == no_rows(columns.deep_view()),
{
    let r = ColumnsResult { columns, rows: Vec::new() };
    assert(r.rows.deep_view() =~= seq![]);
    r
}

/// The headers of `SHOW {WARNINGS | ERRORS}`.
pub open spec fn warning_headers() -> Seq<Seq<char>> {
    seq!["Level"@, "Code"@, "Message"@]
}

/// What `SHOW {WARNINGS | ERRORS} [LIMIT ...]` gives: nothing is ever recorded.
pub open spec fn show_warnings(sql: Seq<char>) -> Option<ResultView> {
    let t = statement_tokens(sql);
    if kw(t, 0, "SHOW"@) && (kw(t, 1, "WARNINGS"@) || kw(t, 1, "ERRORS"@)) && (t.len() <= 2 || kw(
        t,
        2,
        "LIMIT"@,
    )) {
        Some(no_rows(warning_headers()))
    } else {
        None
    }
}

/// Answers `SHOW {WARNINGS | ERRORS} [LIMIT ...]`: the headers, and no rows.
pub fn parse_show_warnings(sql: &str) -> (r: Option<ColumnsResult>)
    ensures
        r.deep_view() == show_warnings(sql@),
{
    let toks = split_statement(sql);
    if !is_kw(&toks, 0, "SHOW") || !(is_kw(&toks, 1, "WARNINGS") || is_kw(&toks, 1, "ERRORS")) {
        return None;
    }
    if toks.len() > 2 && !is_kw(&toks, 2, "LIMIT") {
        return None;
    }
    let columns = vec!["Level", "Code", "Message"];
    assert(columns.deep_view() =~= warning_headers());
    Some(empty_result(columns))
}

/// The headers of `SHOW TRIGGERS`.
pub open spec fn trigger_headers() -> Seq<Seq<char>> {
    seq![
        "Trigger"@,
        "Event"@,
        "Table"@,
        "Statement"@,
        "Timing"@,
        "Created"@,
        "sql_mode"@,
        "Definer"@,
        "character_set_client"@,
        "collation_connection"@,
        "Database Collation"@,
    ]
}

/// The headers of `SHOW EVENTS`.
pub open spec fn event_headers() -> Seq<Seq<char>> {
    seq![
        "Db"@,
        "Name"@,
        "Definer"@,
        "Time zone"@,
        "Type"@,
        "Execute at"@,
        "Interval value"@,
        "Interval field"@,
        "Starts"@,
        "Ends"@,
        "Status"@,
        "Originator"@,
        "character_set_client"@,
        "collation_connection"@,
        "Database Collation"@,
    ]
}

/// The headers of `SHOW {PROCEDURE | FUNCTION} STATUS`.
pub open spec fn routine_headers() -> Seq<Seq<char>> {
    seq![
        "Db"@,
        "Name"@,
        "Type"@,
        "Language"@,
        "Definer"@,
        "Modified"@,
        "Created"@,
        "Security_type"@,
        "Comment"@,
        "character_set_client"@,
        "collation_connection"@,
        "Database Collation"@,
    ]
}

/// What `SHOW TRIGGERS`, `SHOW EVENTS` and `SHOW {PROCEDURE | FUNCTION} STATUS`
/// give, whatever follows: there are no such objects.
pub open spec fn show_empty_enumeration(sql: Seq<char>) -> Option<ResultView> {
    let t = statement_tokens(sql);
    if !kw(t, 0, "SHOW"@) {
        None
    } else if kw(t, 1, "TRIGGERS"@) {
        Some(no_rows(trigger_headers()))
    } else if kw(t, 1, "EVENTS"@) {
        Some(no_rows(event_headers()))
    } else if (kw(t, 1, "PROCEDURE"@) || kw(t, 1, "FUNCTION"@)) && kw(t, 2, "STATUS"@) {
        Some(no_rows(routine_headers()))
    } else {
        None
    }
}

/// Answers `SHOW TRIGGERS`, `SHOW EVENTS` and `SHOW {PROCEDURE | FUNCTION}
/// STATUS`: the headers, and no rows. What follows is accepted and ignored.
pub fn parse_show_empty_enumeration(sql: &str) -> (r: Option<ColumnsResult>)
    ensures
        r.deep_view() == show_empty_enumeration(sql@),
{
    let toks = split_statement(sql);
    if !is_kw(&toks, 0, "SHOW") {
        return None;
    }
    if is_kw(&toks, 1, "TRIGGERS") {
        let columns = vec![
            "Trigger",
            "Event",
            "Table",
            "Statement",
            "Timing",
            "Created",
            "sql_mode",
            "Definer",
            "character_set_client",
            "collation_connection",
            "Database Collation",
        ];
        assert(columns.deep_view() =~= trigger_headers());
        Some(empty_result(columns))
    } else if is_kw(&toks, 1, "EVENTS") {
        let columns = vec![
            "Db",
            "Name",
            "Definer",
            "Time zone",
            "Type",
            "Execute at",
            "Interval value",
            "Interval field",
            "Starts",
            "Ends",
            "Status",
            "Originator",
            "character_set_client",
            "collation_connection",
            "Database Collation",
        ];
        assert(columns.deep_view() =~= event_headers());
        Some(empty_result(columns))
    } else if (is_kw(&toks, 1, "PROCEDURE") || is_kw(&toks, 1, "FUNCTION")) && is_kw(
        &toks,
        2,
        "STATUS",
    ) {
        let columns = vec![
            "Db",
            "Name",
            "Type",
            "Language",
            "Definer",
            "Modified",
            "Created",
            "Security_type",
            "Comment",
            "character_set_client",
            "collation_connection",
            "Database Collation",
        ];
        assert(columns.deep_view() =~= routine_headers());
        Some(empty_result(columns))
    } else {
        None
    }
}

/// The name under which a maintenance statement reports itself.
pub open spec fn maintenance_op(toks: Seq<Seq<char>>) -> Option<Seq<char>> {
    if kw(toks, 0, "ANALYZE"@) {
        Some("analyze"@)
    } else if kw(toks, 0, "CHECK"@) {
        Some("check"@)
    } else if kw(toks, 0, "OPTIMIZE"@) {
        Some("optimize"@)
    } else if kw(toks, 0, "REPAIR"@) {
        Some("repair"@)
    } else {
        None
    }
}

/// The comma-separated table names from `k` on. The list ends behind the first
/// name that no comma follows; `None` if a name breaks off behind its dot.
pub open spec fn table_list(toks: Seq<Seq<char>>, k: int) -> Option<Seq<Seq<char>>>
    decreases toks.len() - k,
{
    if k >= toks.len() {
        Some(seq![])
    } else {
        match table_name(toks, k) {
            None => None,
            Some((table, next)) => if k < next && mark(toks, next, ',') {
                match table_list(toks, next + 1) {
                    None => None,
                    Some(rest) => Some(seq![table] + rest),
                }
            } else {
                Some(seq![table])
            },
        }
    }
}

/// The headers of a maintenance statement's result.
pub open spec fn maintenance_headers() -> Seq<Seq<char>> {
    seq!["Table"@, "Op"@, "Msg_type"@, "Msg_text"@]
}

/// The row that reports success for one table.
pub open spec fn maintenance_row(table: Seq<char>, op: Seq<char>) -> Seq<Option<Seq<char>>> {
    seq![Some(table), Some(op), Some("status"@), Some("OK"@)]
}

/// What `{ANALYZE | CHECK | OPTIMIZE | REPAIR} [NO_WRITE_TO_BINLOG | LOCAL] TABLE
/// tbl [, tbl] ...` gives: one row per table.
pub open spec fn maintenance(sql: Seq<char>) -> Option<ResultView> {
    let t = statement_tokens(sql);
    let k: int = if kw(t, 1, "NO_WRITE_TO_BINLOG"@) || kw(t, 1, "LOCAL"@) {
        2
    } else {
        1
    };
    match maintenance_op(t) {
        None => None,
        Some(op) => if !kw(t, k, "TABLE"@) {
            None
        } else {
            match table_list(t, k + 1) {
                None => None,
                Some(tables) => if tables.len() == 0 {
                    None
                } else {
                    Some(
                        ResultView {
                            columns: maintenance_headers(),
                            rows: Seq::new(
                                tables.len(),
                                |i: int| maintenance_row(tables[i], op),
                            ),
                        },
                    )
                },
            }
        },
    }
}

/// Reads the table names of a maintenance statement.
fn read_table_list(toks: &Vec<String>, k: usize) -> (r: Option<Vec<String>>)
    requires
        k <= toks.len(),
    ensures
        r.deep_view() == table_list(toks.deep_view(), k as int),
{
    let mut tables: Vec<String> = Vec::new();
    let mut i: usize = k;
    let ghost all = toks.deep_view();
    proof {
        if table_list(all, k as int) is Some {
            assert(tables.deep_view() + table_list(all, k as int)->0 =~= table_list(
                all,
                k as int,
            )->0);
        }
    }
    while i < toks.len()
        invariant
            k <= i <= toks.len(),
            all == toks.deep_view(),
            table_list(all, k as int) is Some <==> table_list(all, i as int) is Some,
            table_list(all, i as int) is Some ==> table_list(all, k as int)->0
                == tables.deep_view() + table_list(all, i as int)->0,
        decreases toks.len() - i,
    {
        let ghost before = tables.deep_view();
        match read_table(toks, i) {
            None => return None,
            Some((table, next)) => {
                tables.push(table);
                assert(tables.deep_view() =~= before.push(table@));
                if !is_mark(toks, next, ',') {
                    assert(before + seq![table@] =~= tables.deep_view());
                    return Some(tables);
                }
                proof {
                    if table_list(all, next + 1) is Some {
                        let rest = table_list(all, next + 1)->0;
                        assert(before + (seq![table@] + rest) =~= tables.deep_view() + rest);
                    }
                }
                i = next + 1;
            },
        }
    }
    assert(tables.deep_view() + Seq::<Seq<char>>::empty() =~= tables.deep_view());
    Some(tables)
}

/// Answers `{ANALYZE | CHECK | OPTIMIZE | REPAIR} TABLE tbl [, tbl] ...`: there
/// is nothing to do, so every table is reported as fine. Options behind the list
/// are ignored.
pub fn parse_maintenance(sql: &str) -> (r: Option<ColumnsResult>)
    ensures
        r.deep_view() == maintenance(sql@),
{
    let toks = split_statement(sql);
    let op: &'static str = if is_kw(&toks, 0, "ANALYZE") {
        "analyze"
    } else if is_kw(&toks, 0, "CHECK") {
        "check"
    } else if is_kw(&toks, 0, "OPTIMIZE") {
        "optimize"
    } else if is_kw(&toks, 0, "REPAIR") {
        "repair"
    } else {
        return None;
    };
    let k: usize = if is_kw(&toks, 1, "NO_WRITE_TO_BINLOG") || is_kw(&toks, 1, "LOCAL") {
        2
    } else {
        1
    };
    if !is_kw(&toks, k, "TABLE") {
        return None;
    }
    let tables = match read_table_list(&toks, k + 1) {
        None => return None,
        Some(tables) => tables,
    };
    if tables.len() == 0 {
        return None;
    }
    let ghost names = tables.deep_view();
    let mut rows: Vec<Vec<Option<String>>> = Vec::new();
    for i in 0..tables.len()
        invariant
            names == tables.deep_view(),
            rows.len() == i,
            forall|j: int|
                0 <= j < i ==> #[trigger] rows@[j].deep_view() == maintenance_row(names[j], op@),
    {
        let row = vec![
            Some(tables[i].clone()),
            Some(op.to_string()),
            Some("status".to_string()),
            Some("OK".to_string()),
        ];
        assert(row.deep_view() =~= maintenance_row(names[i as int], op@));
        rows.push(row);
    }
    let columns = vec!["Table", "Op", "Msg_type", "Msg_text"];
    assert(columns.deep_view() =~= maintenance_headers());
    assert(rows.deep_view() =~= Seq::new(
        names.len(),
        |i: int| maintenance_row(names[i], op@),
    ));
    Some(ColumnsResult { columns, rows })
}

} // verus!
