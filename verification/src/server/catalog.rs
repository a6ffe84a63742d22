//! Answering the `SHOW` statements from the catalogue of the engine.
//!
//! The rows of the engine's own catalogue queries go in, as they came back, and
//! the MySQL result set comes out. The queries are given here too. Their rows
//! are, by position:
//!
//! * `PRAGMA table_info`: number, name, type, not-null flag, default, place in the
//!   primary key;
//! * `PRAGMA index_list`: number, name, uniqueness flag, origin, partial flag;
//! * `PRAGMA index_info`: place in the index, column number, column name.

use vstd::prelude::*;

use crate::numeric;
use crate::server::like;
use crate::server::schema;
use crate::server::show;
use crate::server::show::{
    ColumnsResult, FilterView, ResultView, RowFilter, ShowColumns, ShowColumnsView, ShowIndex,
    ShowIndexView, ShowTableStatus, ShowTables,
};
use crate::server::value;
use crate::server::value::{Value, ValueView};
use crate::text;

verus! {

/// The privileges that every column is reported with.
pub const PRIVILEGES: &'static str = "select,insert,update,references";

/// The collation of text columns and of tables.
pub const COLLATION: &'static str = "utf8mb4_general_ci";

/// Selects the names of the user's tables. Left out are the tables that the engine
/// keeps for itself: those of SQLite, and the `__turso_internal_` ones, whose
/// underscores are escaped so that they are no wildcards.
pub const BASE_TABLES_QUERY: &'static str = "SELECT name FROM sqlite_schema WHERE type = 'table' AND name NOT LIKE 'sqlite_%' AND name NOT LIKE '\\_\\_turso\\_internal\\_%' ESCAPE '\\'";

// ---------------------------------------------------------------------------
// Queries
// ---------------------------------------------------------------------------
/// `before`, the text with its single quotes doubled, and `after`.
pub open spec fn with_literal(before: Seq<char>, s: Seq<char>, after: Seq<char>) -> Seq<char> {
    before + text::doubled(s, '\'') + after
}

fn put_literal(before: &str, s: &str, after: &str) -> (r: String)
    ensures
        r@ == with_literal(before@, s@, after@),
{
    let mut out = text::chars_of(before);
    text::push_chars(&mut out, &text::double(&text::chars_of(s), '\''));
    text::push_text(&mut out, after);
    text::string_of(&out)
}

/// The query for the columns of a table.
pub fn table_info_query(table: &str) -> (r: String)
    ensures
        r@ == with_literal("PRAGMA table_info('"@, table@, "')"@),
{
    put_literal("PRAGMA table_info('", table, "')")
}

/// The query for the indexes of a table.
pub fn index_list_query(table: &str) -> (r: String)
    ensures
        r@ == with_literal("PRAGMA index_list('"@, table@, "')"@),
{
    put_literal("PRAGMA index_list('", table, "')")
}

/// The query for the columns of an index.
pub fn index_info_query(index: &str) -> (r: String)
    ensures
        r@ == with_literal("PRAGMA index_info('"@, index@, "')"@),
{
    put_literal("PRAGMA index_info('", index, "')")
}

/// The query for the stored `CREATE TABLE` text of a table.
pub fn create_sql_query(table: &str) -> (r: String)
    ensures
        r@ == with_literal(
            "SELECT sql FROM sqlite_schema WHERE type = 'table' AND name = '"@,
            table@,
            "'"@,
        ),
{
    put_literal("SELECT sql FROM sqlite_schema WHERE type = 'table' AND name = '", table, "'")
}

/// The query for the tables that `SHOW TABLES` lists.
pub open spec fn tables_query_spec(like: Option<Seq<char>>) -> Seq<char> {
    BASE_TABLES_QUERY@ + (match like {
        Some(pattern) => with_literal(" AND name LIKE '"@, pattern, "'"@),
        None => seq![],
    }) + " ORDER BY name"@
}

/// The query for the tables that `SHOW TABLES` lists.
pub fn tables_query(show: &ShowTables) -> (r: String)
    ensures
        r@ == tables_query_spec(show.deep_view().like),
{
    let mut out = text::chars_of(BASE_TABLES_QUERY);
    if let Some(pattern) = &show.like {
        text::push_text(&mut out, put_literal(" AND name LIKE '", pattern.as_str(), "'").as_str());
    }
    text::push_text(&mut out, " ORDER BY name");
    assert(out@ =~= tables_query_spec(show.deep_view().like));
    text::string_of(&out)
}

/// The query for the tables that `SHOW TABLE STATUS` lists. The engine's `LIKE`
/// has no escape character of its own, and MySQL's is the backslash.
pub open spec fn table_status_query_spec(filter: Option<(bool, Seq<char>)>) -> Seq<char> {
    BASE_TABLES_QUERY@ + (match filter {
        Some((true, pattern)) => with_literal(" AND name LIKE '"@, pattern, "' ESCAPE '\\'"@),
        Some((false, name)) => with_literal(" AND name = '"@, name, "'"@),
        None => seq![],
    }) + " ORDER BY name"@
}

/// The query for the tables that `SHOW TABLE STATUS` lists.
pub fn table_status_query(show: &ShowTableStatus) -> (r: String)
    ensures
        r@ == table_status_query_spec(show.deep_view()),
{
    let mut out = text::chars_of(BASE_TABLES_QUERY);
    if let Some((is_like, value)) = &show.name_filter {
        let clause = if *is_like {
            put_literal(" AND name LIKE '", value.as_str(), "' ESCAPE '\\'")
        } else {
            put_literal(" AND name = '", value.as_str(), "'")
        };
        text::push_text(&mut out, clause.as_str());
    }
    text::push_text(&mut out, " ORDER BY name");
    assert(out@ =~= table_status_query_spec(show.deep_view()));
    text::string_of(&out)
}

/// An identifier in double quotes, those within it doubled.
pub open spec fn quoted_ident(name: Seq<char>) -> Seq<char> {
    seq!['"'] + text::doubled(name, '"') + seq!['"']
}

/// Quotes an identifier for the engine.
pub fn quote_ident(name: &str) -> (r: String)
    ensures
        r@ == quoted_ident(name@),
{
    let mut out: Vec<char> = Vec::new();
    out.push('"');
    text::push_chars(&mut out, &text::double(&text::chars_of(name), '"'));
    out.push('"');
    assert(out@ =~= quoted_ident(name@));
    text::string_of(&out)
}

/// A quoted identifier stands between double quotes, and what stands between them
/// names the identifier again.
pub proof fn quoted_ident_reads_back(name: Seq<char>)
    ensures
        quoted_ident(name).len() >= 2,
        quoted_ident(name)[0] == '"',
        quoted_ident(name).last() == '"',
        text::undoubled(quoted_ident(name).subrange(1, quoted_ident(name).len() - 1), '"') == name,
{
    let q = quoted_ident(name);
    assert(q.subrange(1, q.len() - 1) =~= text::doubled(name, '"'));
    text::doubling_is_undone(name, '"');
}

/// The query that counts the rows of a table.
pub fn row_count_query(table: &str) -> (r: String)
    ensures
        r@ == "SELECT COUNT(*) FROM "@ + quoted_ident(table@),
{
    let mut out = text::chars_of("SELECT COUNT(*) FROM ");
    text::push_text(&mut out, quote_ident(table).as_str());
    text::string_of(&out)
}

// ---------------------------------------------------------------------------
// Rows of the catalogue
// ---------------------------------------------------------------------------
/// Every row has at least `width` values.
pub open spec fn are_wide(rows: Seq<Seq<ValueView>>, width: nat) -> bool {
    forall|i: int| 0 <= i < rows.len() ==> (#[trigger] rows[i]).len() >= width
}

/// Whether every row has at least `width` values.
pub fn rows_are_wide(rows: &Vec<Vec<Value>>, width: usize) -> (r: bool)
    ensures
        r == are_wide(rows.deep_view(), width as nat),
{
    for i in 0..rows.len()
        invariant
            forall|j: int| 0 <= j < i ==> (#[trigger] rows.deep_view()[j]).len() >= width,
    {
        assert(rows.deep_view()[i as int] == rows@[i as int].deep_view());
        if rows[i].len() < width {
            return false;
        }
    }
    true
}

/// A value as text; SQL NULL is the empty text.
pub open spec fn text_or_empty(v: ValueView) -> Seq<char> {
    match value::text_of(v) {
        Some(s) => s,
        None => seq![],
    }
}

/// Renders a value as text; SQL NULL is the empty text.
pub fn string_or_empty(v: &Value) -> (r: String)
    ensures
        r@ == text_or_empty(v@),
{
    match value::value_to_string(v) {
        Some(s) => s,
        None => {
            let none = String::new();
            assert(none@ =~= seq![]);
            none
        },
    }
}

/// The text of a value is exactly `s`.
fn reads(v: &Value, s: &str) -> (r: bool)
    ensures
        r == (value::text_of(v@) == Some(s@)),
{
    match value::value_to_string(v) {
        Some(t) => text::is_text(&text::chars_of(t.as_str()), s),
        None => false,
    }
}

/// An index: its row of `PRAGMA index_list`, and its rows of `PRAGMA index_info`.
#[derive(Debug, PartialEq, Eq)]
pub struct IndexRows {
    pub entry: Vec<Value>,
    pub parts: Vec<Vec<Value>>,
}

/// The model of an [`IndexRows`].
pub struct IndexView {
    pub entry: Seq<ValueView>,
    pub parts: Seq<Seq<ValueView>>,
}

impl DeepView for IndexRows {
    type V = IndexView;

    open spec fn deep_view(&self) -> IndexView {
        IndexView { entry: self.entry.deep_view(), parts: self.parts.deep_view() }
    }
}

impl IndexView {
    /// The rows hold the values that are read.
    pub open spec fn is_wide(self) -> bool {
        self.entry.len() >= 4 && are_wide(self.parts, 3)
    }

    pub open spec fn name(self) -> Seq<char> {
        text_or_empty(self.entry[1])
    }

    pub open spec fn is_unique(self) -> bool {
        value::text_of(self.entry[2]) == Some("1"@)
    }

    /// The index backs the primary key.
    pub open spec fn is_primary(self) -> bool {
        text::fold_eq(text_or_empty(self.entry[3]), "pk"@)
    }

    /// The `i`-th indexed column.
    pub open spec fn column(self, i: int) -> Seq<char> {
        text_or_empty(self.parts[i][2])
    }
}

/// Every index has the values that are read.
pub open spec fn indexes_are_wide(indexes: Seq<IndexView>) -> bool {
    forall|i: int| 0 <= i < indexes.len() ==> (#[trigger] indexes[i]).is_wide()
}

impl IndexRows {
    /// Whether the rows hold the values that are read.
    pub fn has_width(&self) -> (r: bool)
        ensures
            r == self.deep_view().is_wide(),
    {
        self.entry.len() >= 4 && rows_are_wide(&self.parts, 3)
    }

    /// The name of the index.
    pub fn name(&self) -> (r: String)
        requires
            self.deep_view().is_wide(),
        ensures
            r@ == self.deep_view().name(),
    {
        assert(self.entry.deep_view()[1] == self.entry@[1]@);
        string_or_empty(&self.entry[1])
    }

    /// Whether the index is unique.
    pub fn is_unique(&self) -> (r: bool)
        requires
            self.deep_view().is_wide(),
        ensures
            r == self.deep_view().is_unique(),
    {
        assert(self.entry.deep_view()[2] == self.entry@[2]@);
        reads(&self.entry[2], "1")
    }

    /// Whether the index backs the primary key.
    pub fn is_primary(&self) -> (r: bool)
        requires
            self.deep_view().is_wide(),
        ensures
            r == self.deep_view().is_primary(),
    {
        assert(self.entry.deep_view()[3] == self.entry@[3]@);
        let origin = string_or_empty(&self.entry[3]);
        text::eq_fold(&text::chars_of(origin.as_str()), &text::chars_of("pk"))
    }

    /// The `i`-th indexed column.
    pub fn column(&self, i: usize) -> (r: String)
        requires
            self.deep_view().is_wide(),
            i < self.parts@.len(),
        ensures
            r@ == self.deep_view().column(i as int),
    {
        assert(self.parts.deep_view()[i as int] == self.parts@[i as int].deep_view());
        assert(self.parts@[i as int].deep_view()[2] == self.parts@[i as int]@[2]@);
        string_or_empty(&self.parts[i][2])
    }
}

// ---------------------------------------------------------------------------
// Conditions on the rows of an answer
// ---------------------------------------------------------------------------
/// The outcome of a `SHOW` statement about a table.
#[derive(Debug, PartialEq, Eq)]
pub enum ShowOutcome {
    Columns(ColumnsResult),
    /// There is no such table.
    NoSuchTable(String),
}

/// The model of a [`ShowOutcome`].
pub enum OutcomeView {
    Columns(ResultView),
    NoSuchTable(Seq<char>),
}

impl DeepView for ShowOutcome {
    type V = OutcomeView;

    open spec fn deep_view(&self) -> OutcomeView {
        match self {
            ShowOutcome::Columns(r) => OutcomeView::Columns(r.deep_view()),
            ShowOutcome::NoSuchTable(t) => OutcomeView::NoSuchTable(t@),
        }
    }
}

/// The first header from `i` on that is `name`, but for ASCII case.
pub open spec fn header_pos(headers: Seq<Seq<char>>, name: Seq<char>, i: int) -> int
    decreases headers.len() - i,
{
    if i >= headers.len() || i < 0 || text::fold_eq(headers[i], name) {
        i
    } else {
        header_pos(headers, name, i + 1)
    }
}

/// A row of an answer meets a condition. SQL NULL meets none.
pub open spec fn meets(
    filter: FilterView,
    headers: Seq<Seq<char>>,
    row: Seq<Option<Seq<char>>>,
) -> bool {
    match row[header_pos(headers, filter.column, 0)] {
        None => false,
        Some(v) => if filter.like {
            like::like(filter.value, v)
        } else {
            v == filter.value
        },
    }
}

/// The rows that meet the condition, if there is one.
pub open spec fn filtered(
    rows: Seq<Seq<Option<Seq<char>>>>,
    headers: Seq<Seq<char>>,
    filter: Option<FilterView>,
) -> Seq<Seq<Option<Seq<char>>>> {
    match filter {
        None => rows,
        Some(f) => rows.filter(|row: Seq<Option<Seq<char>>>| meets(f, headers, row)),
    }
}

/// The condition is on a column that the answer has.
pub open spec fn is_known(headers: Seq<Seq<char>>, filter: Option<FilterView>) -> bool {
    filter matches Some(f) ==> show::has_header(headers, f.column)
}

proof fn header_pos_is_known(headers: Seq<Seq<char>>, name: Seq<char>, i: int, j: int)
    requires
        0 <= i <= j < headers.len(),
        text::fold_eq(headers[j], name),
    ensures
        i <= header_pos(headers, name, i) <= j,
    decreases j - i,
{
    if !text::fold_eq(headers[i], name) {
        header_pos_is_known(headers, name, i + 1, j);
    }
}

/// Keeps the rows that meet the condition.
fn keep_rows(
    rows: Vec<Vec<Option<String>>>,
    headers: &Vec<&'static str>,
    filter: &Option<RowFilter>,
) -> (r: Vec<Vec<Option<String>>>)
    requires
        is_known(headers.deep_view(), filter.deep_view()),
        forall|i: int|
            0 <= i < rows.deep_view().len() ==> (#[trigger] rows.deep_view()[i]).len()
                == headers@.len(),
    ensures
        r.deep_view() == filtered(rows.deep_view(), headers.deep_view(), filter.deep_view()),
{
    let f = match filter {
        None => return rows,
        Some(f) => f,
    };
    let ghost hs = headers.deep_view();
    let ghost all = rows.deep_view();
    let wanted = text::chars_of(f.column.as_str());
    let mut pos: usize = 0;
    proof {
        let j = choose|j: int| 0 <= j < hs.len() && #[trigger] text::fold_eq(hs[j], f.column@);
        header_pos_is_known(hs, f.column@, 0, j);
    }
    while pos < headers.len() && !text::eq_fold(&text::chars_of(headers[pos]), &wanted)
        invariant
            pos <= headers@.len(),
            hs == headers.deep_view(),
            wanted@ == f.column@,
            header_pos(hs, f.column@, 0) < hs.len(),
            header_pos(hs, f.column@, 0) == header_pos(hs, f.column@, pos as int),
        decreases headers@.len() - pos,
    {
        assert(hs[pos as int] == headers@[pos as int]@);
        pos = pos + 1;
    }
    proof {
        if pos < headers@.len() {
            assert(hs[pos as int] == headers@[pos as int]@);
        }
    }
    let ghost pred = |row: Seq<Option<Seq<char>>>| meets(f.deep_view(), hs, row);
    let mut kept: Vec<Vec<Option<String>>> = Vec::new();
    let mut rows = rows;
    proof {
        reveal(Seq::filter);
        assert(all.take(0) =~= Seq::<Seq<Option<Seq<char>>>>::empty());
        assert(kept.deep_view() =~= all.take(0).filter(pred));
    }
    let n: usize = rows.len();
    for i in 0..n
        invariant
            n == all.len(),
            rows@.len() == n,
            forall|j: int| i <= j < n ==> #[trigger] rows@[j].deep_view() == all[j],
            forall|j: int| 0 <= j < all.len() ==> (#[trigger] all[j]).len() == hs.len(),
            hs == headers.deep_view(),
            pos < hs.len(),
            pos == header_pos(hs, f.column@, 0),
            pred == (|row: Seq<Option<Seq<char>>>| meets(f.deep_view(), hs, row)),
            kept.deep_view() == all.take(i as int).filter(pred),
    {
        let mut row: Vec<Option<String>> = Vec::new();
        std::mem::swap(&mut rows[i], &mut row);
        assert(row.deep_view() == all[i as int]);
        assert(all[i as int].len() == hs.len());
        assert(row.deep_view()[pos as int] == row@[pos as int].deep_view());
        let keep = match &row[pos] {
            None => false,
            Some(v) => if f.like {
                like::like_match(f.value.as_str(), v.as_str())
            } else {
                *v == f.value
            },
        };
        assert(keep == pred(all[i as int]));
        proof {
            reveal(Seq::filter);
            assert(all.take(i + 1).drop_last() =~= all.take(i as int));
            assert(all.take(i + 1).last() == all[i as int]);
        }
        let ghost before = kept.deep_view();
        if keep {
            kept.push(row);
            assert(kept.deep_view() =~= before.push(all[i as int]));
        }
    }
    assert(all.take(all.len() as int) =~= all);
    kept
}

// ---------------------------------------------------------------------------
// SHOW COLUMNS
// ---------------------------------------------------------------------------
/// A column of a table.
#[derive(Debug, PartialEq, Eq)]
pub struct ColumnInfo {
    pub name: String,
    pub ty: String,
    pub notnull: bool,
    pub default: Option<String>,
    pub pk: bool,
    /// `UNI` or `MUL` for a column that leads an index, and otherwise empty.
    pub key: &'static str,
}

/// The model of a [`ColumnInfo`].
pub struct ColumnView {
    pub name: Seq<char>,
    pub ty: Seq<char>,
    pub notnull: bool,
    pub default: Option<Seq<char>>,
    pub pk: bool,
    pub key: Seq<char>,
}

impl DeepView for ColumnInfo {
    type V = ColumnView;

    open spec fn deep_view(&self) -> ColumnView {
        ColumnView {
            name: self.name@,
            ty: self.ty@,
            notnull: self.notnull,
            default: self.default.deep_view(),
            pk: self.pk,
            key: self.key@,
        }
    }
}

/// The row of `SHOW [FULL] COLUMNS` for a column. A column of the primary key is
/// never nullable.
pub open spec fn column_row(c: ColumnView, full: bool) -> Seq<Option<Seq<char>>> {
    let field = Some(c.name);
    let ty = Some(schema::shown_type(c.ty));
    let null = Some(
        if c.notnull || c.pk {
            "NO"@
        } else {
            "YES"@
        },
    );
    let key = Some(
        if c.pk {
            "PRI"@
        } else {
            c.key
        },
    );
    let default = match c.default {
        Some(d) => Some(schema::default_text(d)),
        None => None,
    };
    let collation = if schema::is_text_spec(c.ty) {
        Some(COLLATION@)
    } else {
        None
    };
    if full {
        seq![field, ty, collation, null, key, default, Some(""@), Some(PRIVILEGES@), Some(""@)]
    } else {
        seq![field, ty, null, key, default, Some(""@)]
    }
}

impl ColumnInfo {
    /// Gives the row of `SHOW [FULL] COLUMNS` for the column.
    pub fn into_row(self, full: bool) -> (r: Vec<Option<String>>)
        ensures
            r.deep_view() == column_row(self.deep_view(), full),
    {
        let null = if self.notnull || self.pk {
            "NO".to_string()
        } else {
            "YES".to_string()
        };
        let key = if self.pk {
            "PRI".to_string()
        } else {
            self.key.to_string()
        };
        let collation = if schema::is_text_type(self.ty.as_str()) {
            Some(COLLATION.to_string())
        } else {
            None
        };
        let ty = schema::normalize_column_type(self.ty.as_str());
        let default = schema::normalize_default(self.default);
        let ghost expected = column_row(self.deep_view(), full);
        if full {
            let row = vec![
                Some(self.name),
                Some(ty),
                collation,
                Some(null),
                Some(key),
                default,
                Some("".to_string()),
                Some(PRIVILEGES.to_string()),
                Some("".to_string()),
            ];
            assert(row.deep_view() =~= expected);
            row
        } else {
            let row = vec![
                Some(self.name),
                Some(ty),
                Some(null),
                Some(key),
                default,
                Some("".to_string()),
            ];
            assert(row.deep_view() =~= expected);
            row
        }
    }
}

/// The first indexed column that has a name.
pub open spec fn lead_from(parts: Seq<Seq<ValueView>>, i: int) -> Option<Seq<char>>
    decreases parts.len() - i,
{
    if i >= parts.len() || i < 0 {
        None
    } else {
        match value::text_of(parts[i][2]) {
            Some(name) => Some(name),
            None => lead_from(parts, i + 1),
        }
    }
}

/// The index is not the primary key's, and the column, in lower case, leads it.
pub open spec fn is_led_by(index: IndexView, column: Seq<char>) -> bool {
    !index.is_primary() && (match lead_from(index.parts, 0) {
        Some(lead) => text::lowered(lead) == column,
        None => false,
    })
}

/// The key flag of a column, its name in lower case: `UNI` if it leads a unique
/// index, `MUL` if it leads other indexes only.
pub open spec fn key_flag(indexes: Seq<IndexView>, column: Seq<char>) -> Seq<char> {
    if exists|i: int|
        0 <= i < indexes.len() && #[trigger] is_led_by(indexes[i], column)
            && indexes[i].is_unique() {
        "UNI"@
    } else if exists|i: int| 0 <= i < indexes.len() && #[trigger] is_led_by(indexes[i], column) {
        "MUL"@
    } else {
        ""@
    }
}

fn leads(index: &IndexRows, column: &[char]) -> (r: bool)
    requires
        index.deep_view().is_wide(),
    ensures
        r == is_led_by(index.deep_view(), column@),
{
    if index.is_primary() {
        return false;
    }
    let ghost parts = index.deep_view().parts;
    for i in 0..index.parts.len()
        invariant
            parts == index.parts.deep_view(),
            are_wide(parts, 3),
            lead_from(parts, 0) == lead_from(parts, i as int),
            index.deep_view().parts == parts,
            !index.deep_view().is_primary(),
    {
        assert(parts[i as int] == index.parts@[i as int].deep_view());
        assert(index.parts@[i as int].deep_view()[2] == index.parts@[i as int]@[2]@);
        if let Some(lead) = value::value_to_string(&index.parts[i][2]) {
            return text::same(&text::to_lower(&text::chars_of(lead.as_str())), column);
        }
    }
    false
}

/// Finds the key flag of a column, its name in lower case.
pub fn lead_column_key(indexes: &Vec<IndexRows>, column: &str) -> (r: &'static str)
    requires
        indexes_are_wide(indexes.deep_view()),
    ensures
        r@ == key_flag(indexes.deep_view(), column@),
{
    let name = text::chars_of(column);
    let ghost views = indexes.deep_view();
    let mut found = false;
    for i in 0..indexes.len()
        invariant
            views == indexes.deep_view(),
            indexes_are_wide(views),
            name@ == column@,
            forall|j: int|
                0 <= j < i && #[trigger] is_led_by(views[j], name@) ==> !views[j].is_unique(),
            found == exists|j: int| 0 <= j < i && #[trigger] is_led_by(views[j], name@),
    {
        assert(views[i as int] == indexes@[i as int].deep_view());
        if leads(&indexes[i], &name) {
            assert(is_led_by(views[i as int], name@));
            if indexes[i].is_unique() {
                return "UNI";
            }
            found = true;
        }
    }
    if found {
        "MUL"
    } else {
        ""
    }
}

/// A column as `PRAGMA table_info` has it, its size put back and its key flag set.
pub open spec fn column_of(
    row: Seq<ValueView>,
    types: Seq<(Seq<char>, Seq<char>)>,
    indexes: Seq<IndexView>,
) -> ColumnView {
    let name = text_or_empty(row[1]);
    ColumnView {
        name,
        ty: match schema::last_type(types, text::lowered(name)) {
            Some(ty) => ty,
            None => text_or_empty(row[2]),
        },
        notnull: value::text_of(row[3]) != Some("0"@),
        default: value::text_of(row[4]),
        pk: value::text_of(row[5]) != Some("0"@),
        key: key_flag(indexes, text::lowered(name)),
    }
}

fn read_column(row: &Vec<Value>, types: &Vec<(String, String)>, indexes: &Vec<IndexRows>) -> (r:
    ColumnInfo)
    requires
        row@.len() >= 6,
        indexes_are_wide(indexes.deep_view()),
    ensures
        r.deep_view() == column_of(row.deep_view(), types.deep_view(), indexes.deep_view()),
{
    let ghost v = row.deep_view();
    assert(v[1] == row@[1]@ && v[2] == row@[2]@ && v[3] == row@[3]@ && v[4] == row@[4]@ && v[5]
        == row@[5]@);
    let name = string_or_empty(&row[1]);
    let lower = text::string_of(&text::to_lower(&text::chars_of(name.as_str())));
    let ty = match schema::type_for(types, lower.as_str()) {
        Some(ty) => ty,
        None => string_or_empty(&row[2]),
    };
    ColumnInfo {
        name,
        ty,
        notnull: !reads(&row[3], "0"),
        default: value::value_to_string(&row[4]),
        pk: !reads(&row[5], "0"),
        key: lead_column_key(indexes, lower.as_str()),
    }
}

/// The answer to `SHOW [FULL] COLUMNS`, before any condition.
pub open spec fn column_rows(
    full: bool,
    info: Seq<Seq<ValueView>>,
    create_sql: Option<Seq<char>>,
    indexes: Seq<IndexView>,
) -> Seq<Seq<Option<Seq<char>>>> {
    Seq::new(
        info.len(),
        |i: int| column_row(column_of(info[i], schema::declared_types(create_sql), indexes), full),
    )
}

/// The answer to `SHOW [FULL] COLUMNS`. A table has columns; without any, it does
/// not exist.
pub open spec fn columns_answer(
    show: ShowColumnsView,
    info: Seq<Seq<ValueView>>,
    create_sql: Option<Seq<char>>,
    indexes: Seq<IndexView>,
) -> OutcomeView {
    if info.len() == 0 {
        OutcomeView::NoSuchTable(show.table)
    } else {
        let headers = show::column_headers_spec(show.full);
        OutcomeView::Columns(
            ResultView {
                columns: headers,
                rows: filtered(
                    column_rows(show.full, info, create_sql, indexes),
                    headers,
                    show.filter,
                ),
            },
        )
    }
}

/// Answers `SHOW [FULL] COLUMNS`, from the rows of `PRAGMA table_info`, the stored
/// `CREATE TABLE` text and the indexes of the table.
pub fn build(
    show: &ShowColumns,
    info: &Vec<Vec<Value>>,
    create_sql: &Option<String>,
    indexes: &Vec<IndexRows>,
) -> (r: ShowOutcome)
    requires
        is_known(show::column_headers_spec(show.full), show.deep_view().filter),
        are_wide(info.deep_view(), 6),
        indexes_are_wide(indexes.deep_view()),
    ensures
        r.deep_view() == columns_answer(
            show.deep_view(),
            info.deep_view(),
            create_sql.deep_view(),
            indexes.deep_view(),
        ),
{
    if info.len() == 0 {
        return ShowOutcome::NoSuchTable(show.table.clone());
    }
    let types = schema::declared_column_types(create_sql);
    let columns = show::column_headers(show.full);
    let mut rows: Vec<Vec<Option<String>>> = Vec::new();
    let ghost expected = column_rows(
        show.full,
        info.deep_view(),
        create_sql.deep_view(),
        indexes.deep_view(),
    );
    for i in 0..info.len()
        invariant
            are_wide(info.deep_view(), 6),
            indexes_are_wide(indexes.deep_view()),
            types.deep_view() == schema::declared_types(create_sql.deep_view()),
            expected == column_rows(
                show.full,
                info.deep_view(),
                create_sql.deep_view(),
                indexes.deep_view(),
            ),
            rows.deep_view() == expected.take(i as int),
    {
        let ghost before = rows.deep_view();
        assert(info.deep_view()[i as int] == info@[i as int].deep_view());
        let row = read_column(&info[i], &types, indexes).into_row(show.full);
        rows.push(row);
        assert(rows.deep_view() =~= before.push(row.deep_view()));
        assert(expected.take(i + 1) =~= expected.take(i as int).push(expected[i as int]));
    }
    assert(expected.take(expected.len() as int) =~= expected);
    assert(columns@.len() == columns.deep_view().len());
    assert forall|i: int| 0 <= i < expected.len() implies (#[trigger] expected[i]).len()
        == columns@.len() by {
        assert(expected[i] == column_row(
            column_of(
                info.deep_view()[i],
                schema::declared_types(create_sql.deep_view()),
                indexes.deep_view(),
            ),
            show.full,
        ));
    }
    let rows = keep_rows(rows, &columns, &show.filter);
    ShowOutcome::Columns(ColumnsResult { columns, rows })
}

// ---------------------------------------------------------------------------
// SHOW INDEX
// ---------------------------------------------------------------------------
/// The row of `SHOW INDEX` for a column of an index. The engine keeps no
/// statistics, and all of its indexes are ascending trees.
pub open spec fn index_row_spec(
    table: Seq<char>,
    non_unique: Seq<char>,
    key_name: Seq<char>,
    place: nat,
    column: Seq<char>,
    null: Seq<char>,
) -> Seq<Option<Seq<char>>> {
    seq![
        Some(table),
        Some(non_unique),
        Some(key_name),
        Some(numeric::decimal(place)),
        Some(column),
        Some("A"@),
        None,
        None,
        None,
        Some(null),
        Some("BTREE"@),
        Some(""@),
        Some(""@),
        Some("YES"@),
        None,
    ]
}

/// Gives the row of `SHOW INDEX` for the `place`-th column of an index, counted
/// from one.
pub fn index_row(
    table: &str,
    non_unique: &str,
    key_name: &str,
    place: usize,
    column: &str,
    null: &str,
) -> (r: Vec<Option<String>>)
    ensures
        r.deep_view() == index_row_spec(
            table@,
            non_unique@,
            key_name@,
            place as nat,
            column@,
            null@,
        ),
{
    let mut number: Vec<char> = Vec::new();
    numeric::push_decimal(&mut number, place as u64);
    assert(number@ =~= numeric::decimal(place as nat));
    let row = vec![
        Some(table.to_string()),
        Some(non_unique.to_string()),
        Some(key_name.to_string()),
        Some(text::string_of(&number)),
        Some(column.to_string()),
        Some("A".to_string()),
        None,
        None,
        None,
        Some(null.to_string()),
        Some("BTREE".to_string()),
        Some("".to_string()),
        Some("".to_string()),
        Some("YES".to_string()),
        None,
    ];
    assert(row.deep_view() =~= index_row_spec(
        table@,
        non_unique@,
        key_name@,
        place as nat,
        column@,
        null@,
    ));
    row
}

/// The place of a column in the primary key; zero for a column outside it.
pub open spec fn key_place(row: Seq<ValueView>) -> int {
    match value::text_of(row[5]) {
        Some(s) => match numeric::parsed_signed(s) {
            Some(n) => n,
            None => 0,
        },
        None => 0,
    }
}

/// The entries with `x` put behind those whose place is not larger, where they are
/// in order.
pub open spec fn placed(entries: Seq<(int, Seq<char>)>, x: (int, Seq<char>)) -> Seq<
    (int, Seq<char>),
>
    decreases entries.len(),
{
    if entries.len() > 0 && entries.last().0 > x.0 {
        placed(entries.drop_last(), x).push(entries.last())
    } else {
        entries.push(x)
    }
}

/// The columns of the primary key with their places, by place. Columns of one
/// place stay in the order of the table.
pub open spec fn key_columns(info: Seq<Seq<ValueView>>) -> Seq<(int, Seq<char>)>
    decreases info.len(),
{
    if info.len() == 0 {
        seq![]
    } else {
        let before = key_columns(info.drop_last());
        if key_place(info.last()) > 0 {
            placed(before, (key_place(info.last()), text_or_empty(info.last()[1])))
        } else {
            before
        }
    }
}

proof fn placed_keeps_order(entries: Seq<(int, Seq<char>)>, x: (int, Seq<char>))
    requires
        forall|i: int, j: int| 0 <= i <= j < entries.len() ==> entries[i].0 <= entries[j].0,
    ensures
        forall|i: int, j: int|
            0 <= i <= j < placed(entries, x).len() ==> placed(entries, x)[i].0 <= placed(
                entries,
                x,
            )[j].0,
        forall|i: int|
            0 <= i < placed(entries, x).len() ==> (#[trigger] placed(entries, x)[i]).0 <= x.0
                || placed(entries, x)[i].0 <= entries.last().0,
        placed(entries, x).len() == entries.len() + 1,
    decreases entries.len(),
{
    if entries.len() > 0 && entries.last().0 > x.0 {
        let front = entries.drop_last();
        placed_keeps_order(front, x);
        let p = placed(front, x);
        let all = placed(entries, x);
        assert forall|i: int, j: int| 0 <= i <= j < all.len() implies all[i].0 <= all[j].0 by {
            if j < p.len() {
                assert(all[i] == p[i] && all[j] == p[j]);
            } else if i < p.len() {
                assert(all[i] == p[i]);
                if front.len() > 0 {
                    assert(front.last() == entries[entries.len() - 2]);
                } else {
                    assert(p =~= seq![x]);
                }
            }
        }
    }
}

/// The columns of the primary key stand in the order of their places.
pub proof fn key_columns_are_in_order(info: Seq<Seq<ValueView>>)
    ensures
        forall|i: int, j: int|
            0 <= i <= j < key_columns(info).len() ==> key_columns(info)[i].0 <= key_columns(
                info,
            )[j].0,
    decreases info.len(),
{
    if info.len() > 0 {
        key_columns_are_in_order(info.drop_last());
        if key_place(info.last()) > 0 {
            placed_keeps_order(
                key_columns(info.drop_last()),
                (key_place(info.last()), text_or_empty(info.last()[1])),
            );
        }
    }
}

/// The column may hold SQL NULL: what the last column of that name says, and `true`
/// if there is none.
pub open spec fn is_nullable(info: Seq<Seq<ValueView>>, column: Seq<char>) -> bool
    decreases info.len(),
{
    if info.len() == 0 {
        true
    } else if text_or_empty(info.last()[1]) == column {
        value::text_of(info.last()[3]) == Some("0"@)
    } else {
        is_nullable(info.drop_last(), column)
    }
}

/// The rows for one index.
pub open spec fn rows_of_index(
    table: Seq<char>,
    info: Seq<Seq<ValueView>>,
    index: IndexView,
) -> Seq<Seq<Option<Seq<char>>>> {
    Seq::new(
        index.parts.len(),
        |i: int|
            index_row_spec(
                table,
                if index.is_unique() {
                    "0"@
                } else {
                    "1"@
                },
                if index.is_primary() {
                    "PRIMARY"@
                } else {
                    index.name()
                },
                (i + 1) as nat,
                index.column(i),
                if !index.is_primary() && is_nullable(info, index.column(i)) {
                    "YES"@
                } else {
                    ""@
                },
            ),
    )
}

/// The rows for all indexes.
pub open spec fn rows_of_indexes(
    table: Seq<char>,
    info: Seq<Seq<ValueView>>,
    indexes: Seq<IndexView>,
) -> Seq<Seq<Option<Seq<char>>>>
    decreases indexes.len(),
{
    if indexes.len() == 0 {
        seq![]
    } else {
        rows_of_indexes(table, info, indexes.drop_last()) + rows_of_index(
            table,
            info,
            indexes.last(),
        )
    }
}

/// The rows for a primary key that no index backs: the row id stands in for it.
pub open spec fn rows_of_key(table: Seq<char>, info: Seq<Seq<ValueView>>) -> Seq<
    Seq<Option<Seq<char>>>,
> {
    let keys = key_columns(info);
    Seq::new(
        keys.len(),
        |i: int|
            index_row_spec(table, "0"@, "PRIMARY"@, (i + 1) as nat, keys[i].1, ""@),
    )
}

/// The rows of `SHOW INDEX`, before any condition.
pub open spec fn index_rows(
    table: Seq<char>,
    info: Seq<Seq<ValueView>>,
    indexes: Seq<IndexView>,
) -> Seq<Seq<Option<Seq<char>>>> {
    if exists|i: int| 0 <= i < indexes.len() && (#[trigger] indexes[i]).is_primary() {
        rows_of_indexes(table, info, indexes)
    } else {
        rows_of_indexes(table, info, indexes) + rows_of_key(table, info)
    }
}

/// The answer to `SHOW INDEX`.
pub open spec fn index_answer(
    show: ShowIndexView,
    info: Seq<Seq<ValueView>>,
    indexes: Seq<IndexView>,
) -> OutcomeView {
    if info.len() == 0 {
        OutcomeView::NoSuchTable(show.table)
    } else {
        OutcomeView::Columns(
            ResultView {
                columns: show::index_headers_spec(),
                rows: filtered(
                    index_rows(show.table, info, indexes),
                    show::index_headers_spec(),
                    show.filter,
                ),
            },
        )
    }
}

/// Puts an entry into its place.
fn place_entry(entries: &mut Vec<(i64, String)>, x: (i64, String))
    ensures
        key_entries(final(entries)@) == placed(key_entries(old(entries)@), (x.0 as int, x.1@)),
{
    let ghost start = key_entries(entries@);
    let ghost entry = (x.0 as int, x.1@);
    let mut k: usize = entries.len();
    assert(start.take(k as int) =~= start);
    assert(start.skip(k as int) =~= seq![]);
    assert(placed(start, entry) =~= placed(start, entry) + start.skip(k as int));
    while k > 0 && entries[k - 1].0 > x.0
        invariant
            k <= entries@.len(),
            start == key_entries(entries@),
            entry == (x.0 as int, x.1@),
            placed(start, entry) == placed(start.take(k as int), entry) + start.skip(k as int),
        decreases k,
    {
        let ghost head = start.take(k as int);
        assert(head.last() == (entries@[k - 1].0 as int, entries@[k - 1].1@));
        assert(head.drop_last() =~= start.take(k - 1));
        assert(placed(head.drop_last(), entry).push(head.last()) + start.skip(k as int)
            =~= placed(head.drop_last(), entry) + start.skip(k - 1));
        k = k - 1;
    }
    proof {
        let head = start.take(k as int);
        if k > 0 {
            assert(head.last() == (entries@[k - 1].0 as int, entries@[k - 1].1@));
        }
        assert(placed(head, entry) == head.push(entry));
        assert(head.push(entry) + start.skip(k as int) =~= start.insert(k as int, entry));
        assert(key_entries(entries@.insert(k as int, x)) =~= start.insert(k as int, entry));
    }
    entries.insert(k, x);
}

/// The model of a list of key columns.
pub open spec fn key_entries(v: Seq<(i64, String)>) -> Seq<(int, Seq<char>)> {
    Seq::new(v.len(), |i: int| (v[i].0 as int, v[i].1@))
}

/// Lists the columns of the primary key, by their places.
fn read_key_columns(info: &Vec<Vec<Value>>) -> (r: Vec<(i64, String)>)
    requires
        are_wide(info.deep_view(), 6),
    ensures
        key_entries(r@) == key_columns(info.deep_view()),
{
    let ghost rows = info.deep_view();
    let mut keys: Vec<(i64, String)> = Vec::new();
    assert(rows.take(0) =~= seq![]);
    assert(key_entries(keys@) =~= key_columns(rows.take(0)));
    for i in 0..info.len()
        invariant
            rows == info.deep_view(),
            are_wide(rows, 6),
            key_entries(keys@) == key_columns(rows.take(i as int)),
    {
        assert(rows[i as int] == info@[i as int].deep_view());
        assert(rows[i as int][1] == info@[i as int]@[1]@);
        assert(rows[i as int][5] == info@[i as int]@[5]@);
        assert(rows.take(i + 1).drop_last() =~= rows.take(i as int));
        assert(rows.take(i + 1).last() == rows[i as int]);
        let place: i64 = match value::value_to_string(&info[i][5]) {
            Some(s) => match numeric::parse_signed(&text::chars_of(s.as_str())) {
                Some(n) => n,
                None => 0,
            },
            None => 0,
        };
        if place > 0 {
            place_entry(&mut keys, (place, string_or_empty(&info[i][1])));
        }
    }
    assert(rows.take(rows.len() as int) =~= rows);
    keys
}

/// Whether a column may hold SQL NULL.
fn may_be_null(info: &Vec<Vec<Value>>, column: &str) -> (r: bool)
    requires
        are_wide(info.deep_view(), 6),
    ensures
        r == is_nullable(info.deep_view(), column@),
{
    let ghost rows = info.deep_view();
    let wanted = text::chars_of(column);
    let mut i: usize = info.len();
    assert(rows.take(rows.len() as int) =~= rows);
    while i > 0
        invariant
            i <= info@.len(),
            rows == info.deep_view(),
            are_wide(rows, 6),
            wanted@ == column@,
            is_nullable(rows, column@) == is_nullable(rows.take(i as int), column@),
        decreases i,
    {
        i = i - 1;
        assert(rows[i as int] == info@[i as int].deep_view());
        assert(rows[i as int][1] == info@[i as int]@[1]@);
        assert(rows[i as int][3] == info@[i as int]@[3]@);
        assert(rows.take(i + 1).drop_last() =~= rows.take(i as int));
        assert(rows.take(i + 1).last() == rows[i as int]);
        let name = string_or_empty(&info[i][1]);
        if text::same(&text::chars_of(name.as_str()), &wanted) {
            return reads(&info[i][3], "0");
        }
    }
    assert(rows.take(0) =~= seq![]);
    true
}

/// Appends the rows for one index.
fn push_index(
    rows: &mut Vec<Vec<Option<String>>>,
    table: &str,
    info: &Vec<Vec<Value>>,
    index: &IndexRows,
)
    requires
        are_wide(info.deep_view(), 6),
        index.deep_view().is_wide(),
    ensures
        final(rows).deep_view() == old(rows).deep_view() + rows_of_index(
            table@,
            info.deep_view(),
            index.deep_view(),
        ),
{
    let ghost start = rows.deep_view();
    let ghost expected = rows_of_index(table@, info.deep_view(), index.deep_view());
    let is_pk = index.is_primary();
    let key_name = if is_pk {
        "PRIMARY".to_string()
    } else {
        index.name()
    };
    let non_unique = if index.is_unique() {
        "0"
    } else {
        "1"
    };
    assert(start + expected.take(0) =~= start);
    for i in 0..index.parts.len()
        invariant
            are_wide(info.deep_view(), 6),
            index.deep_view().is_wide(),
            is_pk == index.deep_view().is_primary(),
            key_name@ == if is_pk {
                "PRIMARY"@
            } else {
                index.deep_view().name()
            },
            non_unique@ == if index.deep_view().is_unique() {
                "0"@
            } else {
                "1"@
            },
            expected == rows_of_index(table@, info.deep_view(), index.deep_view()),
            rows.deep_view() == start + expected.take(i as int),
    {
        let column = index.column(i);
        let null = if !is_pk && may_be_null(info, column.as_str()) {
            "YES"
        } else {
            ""
        };
        let ghost before = rows.deep_view();
        let row = index_row(table, non_unique, key_name.as_str(), i + 1, column.as_str(), null);
        rows.push(row);
        assert(rows.deep_view() =~= before.push(row.deep_view()));
        assert(row.deep_view() == expected[i as int]);
        assert(start + expected.take(i + 1) =~= (start + expected.take(i as int)).push(
            expected[i as int],
        ));
    }
    assert(expected.take(expected.len() as int) =~= expected);
}

/// Appends the rows for the primary key.
fn push_key(rows: &mut Vec<Vec<Option<String>>>, table: &str, info: &Vec<Vec<Value>>)
    requires
        are_wide(info.deep_view(), 6),
    ensures
        final(rows).deep_view() == old(rows).deep_view() + rows_of_key(table@, info.deep_view()),
{
    let ghost start = rows.deep_view();
    let ghost expected = rows_of_key(table@, info.deep_view());
    let keys = read_key_columns(info);
    assert(start + expected.take(0) =~= start);
    for i in 0..keys.len()
        invariant
            key_entries(keys@) == key_columns(info.deep_view()),
            expected == rows_of_key(table@, info.deep_view()),
            rows.deep_view() == start + expected.take(i as int),
    {
        assert(key_entries(keys@)[i as int] == (keys@[i as int].0 as int, keys@[i as int].1@));
        let ghost before = rows.deep_view();
        let row = index_row(table, "0", "PRIMARY", i + 1, keys[i].1.as_str(), "");
        rows.push(row);
        assert(rows.deep_view() =~= before.push(row.deep_view()));
        assert(row.deep_view() == expected[i as int]);
        assert(start + expected.take(i + 1) =~= (start + expected.take(i as int)).push(
            expected[i as int],
        ));
    }
    assert(expected.take(expected.len() as int) =~= expected);
}

/// Every row of `SHOW INDEX` has a value for every header.
proof fn index_rows_are_full(
    table: Seq<char>,
    info: Seq<Seq<ValueView>>,
    indexes: Seq<IndexView>,
)
    ensures
        forall|i: int|
            0 <= i < rows_of_indexes(table, info, indexes).len() ==> (#[trigger] rows_of_indexes(
                table,
                info,
                indexes,
            )[i]).len() == 15,
    decreases indexes.len(),
{
    if indexes.len() > 0 {
        index_rows_are_full(table, info, indexes.drop_last());
        let before = rows_of_indexes(table, info, indexes.drop_last());
        let last = rows_of_index(table, info, indexes.last());
        let all = rows_of_indexes(table, info, indexes);
        assert forall|i: int| 0 <= i < all.len() implies (#[trigger] all[i]).len() == 15 by {
            if i < before.len() {
                assert(all[i] == before[i]);
            } else {
                assert(all[i] == last[i - before.len()]);
            }
        }
    }
}

/// Answers `SHOW INDEX`, from the rows of `PRAGMA table_info` and the indexes of
/// the table.
pub fn build_index(show: &ShowIndex, info: &Vec<Vec<Value>>, indexes: &Vec<IndexRows>) -> (r:
    ShowOutcome)
    requires
        is_known(show::index_headers_spec(), show.deep_view().filter),
        are_wide(info.deep_view(), 6),
        indexes_are_wide(indexes.deep_view()),
    ensures
        r.deep_view() == index_answer(show.deep_view(), info.deep_view(), indexes.deep_view()),
{
    if info.len() == 0 {
        return ShowOutcome::NoSuchTable(show.table.clone());
    }
    let ghost table = show.table@;
    let ghost views = indexes.deep_view();
    let mut rows: Vec<Vec<Option<String>>> = Vec::new();
    let mut have_pk_index = false;
    assert(views.take(0) =~= seq![]);
    assert(rows.deep_view() =~= rows_of_indexes(table, info.deep_view(), views.take(0)));
    for i in 0..indexes.len()
        invariant
            table == show.table@,
            views == indexes.deep_view(),
            are_wide(info.deep_view(), 6),
            indexes_are_wide(views),
            rows.deep_view() == rows_of_indexes(table, info.deep_view(), views.take(i as int)),
            have_pk_index == exists|j: int| 0 <= j < i && (#[trigger] views[j]).is_primary(),
    {
        assert(views[i as int] == indexes@[i as int].deep_view());
        assert(views.take(i + 1).drop_last() =~= views.take(i as int));
        assert(views.take(i + 1).last() == views[i as int]);
        if indexes[i].is_primary() {
            have_pk_index = true;
            assert(views[i as int].is_primary());
        }
        push_index(&mut rows, show.table.as_str(), info, &indexes[i]);
    }
    assert(views.take(views.len() as int) =~= views);
    if !have_pk_index {
        push_key(&mut rows, show.table.as_str(), info);
    }
    proof {
        index_rows_are_full(table, info.deep_view(), views);
    }
    let columns = show::index_headers();
    assert(columns@.len() == columns.deep_view().len() == 15);
    let rows = keep_rows(rows, &columns, &show.filter);
    ShowOutcome::Columns(ColumnsResult { columns, rows })
}

// ---------------------------------------------------------------------------
// Laws
// ---------------------------------------------------------------------------
/// `q` is `empty` with `p`, its quotes doubled, put in at `k`, between two quotes.
pub open spec fn put_between_quotes(
    empty: Seq<char>,
    p: Seq<char>,
    q: Seq<char>,
    k: int,
) -> bool {
    &&& 0 < k < empty.len()
    &&& empty[k - 1] == '\'' && empty[k] == '\''
    &&& q == empty.take(k) + text::doubled(p, '\'') + empty.skip(k)
}

/// A pattern or a name stands in a query between quotes, its own quotes doubled, and
/// changes nothing else of the query.
pub proof fn patterns_stand_between_quotes(p: Seq<char>)
    ensures
        exists|k: int| #[trigger]
            put_between_quotes(
                tables_query_spec(Some(seq![])),
                p,
                tables_query_spec(Some(p)),
                k,
            ),
        exists|k: int| #[trigger]
            put_between_quotes(
                table_status_query_spec(Some((true, seq![]))),
                p,
                table_status_query_spec(Some((true, p))),
                k,
            ),
        exists|k: int| #[trigger]
            put_between_quotes(
                table_status_query_spec(Some((false, seq![]))),
                p,
                table_status_query_spec(Some((false, p))),
                k,
            ),
{
    reveal_strlit(" AND name LIKE '");
    reveal_strlit(" AND name = '");
    reveal_strlit("'");
    reveal_strlit("' ESCAPE '\\'");
    let base = BASE_TABLES_QUERY@;
    literal_splits(base, " AND name LIKE '"@, "'"@, " ORDER BY name"@, p);
    literal_splits(base, " AND name LIKE '"@, "' ESCAPE '\\'"@, " ORDER BY name"@, p);
    literal_splits(base, " AND name = '"@, "'"@, " ORDER BY name"@, p);
    let k = (base + " AND name LIKE '"@).len() as int;
    let m = (base + " AND name = '"@).len() as int;
    assert(put_between_quotes(
        tables_query_spec(Some(seq![])),
        p,
        tables_query_spec(Some(p)),
        k,
    ));
    assert(put_between_quotes(
        table_status_query_spec(Some((true, seq![]))),
        p,
        table_status_query_spec(Some((true, p))),
        k,
    ));
    assert(put_between_quotes(
        table_status_query_spec(Some((false, seq![]))),
        p,
        table_status_query_spec(Some((false, p))),
        m,
    ));
}

proof fn literal_splits(
    base: Seq<char>,
    before: Seq<char>,
    after: Seq<char>,
    end: Seq<char>,
    p: Seq<char>,
)
    requires
        before.len() > 0,
        before.last() == '\'',
        after.len() > 0,
        after[0] == '\'',
    ensures
        ({
            let q = base + with_literal(before, seq![], after) + end;
            let k = (base + before).len() as int;
            &&& 0 < k < q.len()
            &&& q[k - 1] == '\'' && q[k] == '\''
            &&& base + with_literal(before, p, after) + end == q.take(k) + text::doubled(p, '\'')
                + q.skip(k)
        }),
{
    let none = Seq::<char>::empty();
    assert(text::doubled(none, '\'') =~= none);
    let q = base + with_literal(before, none, after) + end;
    let k = (base + before).len() as int;
    assert(q =~= base + before + after + end);
    assert(q.take(k) =~= base + before);
    assert(q.skip(k) =~= after + end);
    assert(base + with_literal(before, p, after) + end =~= q.take(k) + text::doubled(p, '\'')
        + q.skip(k));
}

/// The queries list the tables in the order of their names; without a pattern they are
/// the same.
pub proof fn tables_are_ordered(like: Option<Seq<char>>, filter: Option<(bool, Seq<char>)>)
    ensures
        text::occurs_at(
            tables_query_spec(like),
            " ORDER BY name"@,
            tables_query_spec(like).len() - " ORDER BY name"@.len(),
        ),
        text::occurs_at(
            table_status_query_spec(filter),
            " ORDER BY name"@,
            table_status_query_spec(filter).len() - " ORDER BY name"@.len(),
        ),
        tables_query_spec(None) == table_status_query_spec(None),
{
    let end = " ORDER BY name"@;
    let a = tables_query_spec(like);
    let b = table_status_query_spec(filter);
    assert(a.subrange(a.len() - end.len(), a.len() as int) =~= end);
    assert(b.subrange(b.len() - end.len(), b.len() as int) =~= end);
}

/// The place of a header: the first that is the name, in any case.
pub proof fn header_place_is_first(headers: Seq<Seq<char>>, name: Seq<char>, i: int)
    requires
        0 <= i <= headers.len(),
    ensures
        i <= header_pos(headers, name, i) <= headers.len(),
        header_pos(headers, name, i) < headers.len() ==> text::fold_eq(
            headers[header_pos(headers, name, i)],
            name,
        ),
        forall|k: int|
            i <= k < header_pos(headers, name, i) ==> !text::fold_eq(#[trigger] headers[k], name),
    decreases headers.len() - i,
{
    if i < headers.len() && !text::fold_eq(headers[i], name) {
        header_place_is_first(headers, name, i + 1);
    }
}

/// A condition keeps, in their order, the rows that meet it: those whose cell in the
/// column of that name is the value, or is like it. A cell that is NULL meets none.
pub proof fn conditions_choose_rows(
    rows: Seq<Seq<Option<Seq<char>>>>,
    headers: Seq<Seq<char>>,
    f: FilterView,
    row: Seq<Option<Seq<char>>>,
    at: int,
)
    requires
        0 <= at < headers.len(),
        text::fold_eq(headers[at], f.column),
        forall|k: int| 0 <= k < at ==> !text::fold_eq(#[trigger] headers[k], f.column),
    ensures
        filtered(rows, headers, None) == rows,
        filtered(rows, headers, Some(f)).contains(row) <==> rows.contains(row) && (row[at] matches Some(
            v,
        ) && (if f.like {
            like::like(f.value, v)
        } else {
            v == f.value
        })),
        filtered(rows, headers, Some(f)).len() <= rows.len(),
{
    header_is_at(headers, f.column, 0, at);
    let p = |r: Seq<Option<Seq<char>>>| meets(f, headers, r);
    filter_has(rows, p, row);
}

proof fn header_is_at(headers: Seq<Seq<char>>, name: Seq<char>, i: int, at: int)
    requires
        0 <= i <= at < headers.len(),
        text::fold_eq(headers[at], name),
        forall|k: int| i <= k < at ==> !text::fold_eq(#[trigger] headers[k], name),
    ensures
        header_pos(headers, name, i) == at,
    decreases at - i,
{
    if i < at {
        header_is_at(headers, name, i + 1, at);
    }
}

proof fn filter_has<A>(s: Seq<A>, p: spec_fn(A) -> bool, x: A)
    ensures
        s.filter(p).contains(x) <==> s.contains(x) && p(x),
        s.filter(p).len() <= s.len(),
    decreases s.len(),
{
    reveal(Seq::filter);
    if s.len() > 0 {
        let rest = s.drop_last();
        filter_has(rest, p, x);
        let before = rest.filter(p);
        if s.contains(x) {
            let k = choose|k: int| 0 <= k < s.len() && s[k] == x;
            if k < rest.len() {
                assert(rest[k] == x);
            }
        }
        if rest.contains(x) {
            let k = choose|k: int| 0 <= k < rest.len() && rest[k] == x;
            assert(s[k] == x);
        }
        if s.last() == x {
            assert(s[s.len() - 1] == x);
        }
        if p(s.last()) {
            assert(s.filter(p) == before.push(s.last()));
            if before.contains(x) {
                let k = choose|k: int| 0 <= k < before.len() && before[k] == x;
                assert(s.filter(p)[k] == x);
            }
            if s.last() == x {
                assert(s.filter(p)[before.len() as int] == x);
            }
            if s.filter(p).contains(x) {
                let k = choose|k: int| 0 <= k < s.filter(p).len() && s.filter(p)[k] == x;
                if k < before.len() {
                    assert(before[k] == x);
                }
            }
        }
    }
}

/// What is shown of a column: its name; its type; whether it may be NULL, which a
/// column of the primary key may not; `PRI` for such a column; its default. The short
/// and the full form agree.
pub proof fn columns_are_shown(c: ColumnView)
    ensures
        ({
            let r = column_row(c, false);
            let f = column_row(c, true);
            &&& r.len() == 6 && f.len() == 9
            &&& r[0] == Some(c.name)
            &&& r[1] == Some(schema::shown_type(c.ty))
            &&& c.notnull || c.pk ==> r[2] == Some("NO"@)
            &&& !c.notnull && !c.pk ==> r[2] == Some("YES"@)
            &&& c.pk ==> r[3] == Some("PRI"@)
            &&& !c.pk ==> r[3] == Some(c.key)
            &&& c.default is None ==> r[4] is None
            &&& c.default matches Some(d) ==> r[4] == Some(schema::default_text(d))
            &&& r[5] == Some(""@)
            &&& f[0] == r[0] && f[1] == r[1] && f[3] == r[2] && f[4] == r[3] && f[5] == r[4] && f[6]
                == r[5]
            &&& schema::is_text_spec(c.ty) ==> f[2] == Some("utf8mb4_general_ci"@)
            &&& !schema::is_text_spec(c.ty) ==> f[2] is None
            &&& f[7] == Some("select,insert,update,references"@)
            &&& f[8] == Some(""@)
        }),
{
}

/// What the engine says of a column, and what is made of it: the name is the second
/// value, and a column may be NULL, or belongs to no key, where the fourth or sixth
/// value is 0.
pub proof fn columns_are_read(
    row: Seq<ValueView>,
    types: Seq<(Seq<char>, Seq<char>)>,
    indexes: Seq<IndexView>,
)
    ensures
        ({
            let c = column_of(row, types, indexes);
            &&& row[1] matches ValueView::Text(s) ==> c.name == s
            &&& row[3] == ValueView::Integer(0) ==> !c.notnull
            &&& row[3] == ValueView::Integer(1) ==> c.notnull
            &&& row[4] is Null ==> c.default is None
            &&& row[4] matches ValueView::Text(s) ==> c.default == Some(s)
            &&& row[5] == ValueView::Integer(0) ==> !c.pk
            &&& row[5] matches ValueView::Integer(n) ==> (n > 0 ==> c.pk)
        }),
{
    numeric::decimal_notation(0, 0);
    reveal_strlit("0");
    assert("0"@ =~= seq!['0']);
    assert(numeric::signed_decimal(0) == "0"@);
    numeric::signed_decimal_reads_back(0);
    numeric::signed_decimal_reads_back(1);
    if let ValueView::Integer(n) = row[5] {
        numeric::signed_decimal_reads_back(n);
    }
}

/// The key of a column that is in no primary key: `UNI` where it leads a unique index,
/// `MUL` where it leads another, and nothing where it leads none. The index of the
/// primary key does not count.
pub proof fn keys_follow_indexes(indexes: Seq<IndexView>, column: Seq<char>, i: int)
    requires
        0 <= i < indexes.len(),
        !indexes[i].is_primary(),
        indexes[i].parts.len() > 0,
        indexes[i].parts[0][2] matches ValueView::Text(lead) && text::lowered(lead) == column,
    ensures
        indexes[i].is_unique() ==> key_flag(indexes, column) == "UNI"@,
        !indexes[i].is_unique() ==> key_flag(indexes, column) == "UNI"@ || key_flag(indexes, column)
            == "MUL"@,
        indexes.len() == 1 && !indexes[i].is_unique() ==> key_flag(indexes, column) == "MUL"@,
        key_flag(Seq::<IndexView>::empty(), column) == ""@,
{
    assert(is_led_by(indexes[i], column));
}

/// A column that leads no index but that of the primary key has no key.
pub proof fn no_index_is_no_key(indexes: Seq<IndexView>, column: Seq<char>)
    requires
        forall|i: int|
            0 <= i < indexes.len() ==> (#[trigger] indexes[i]).is_primary() || lead_from(
                indexes[i].parts,
                0,
            ) is None || text::lowered(lead_from(indexes[i].parts, 0)->0) != column,
    ensures
        key_flag(indexes, column) == ""@,
{
    assert forall|i: int| 0 <= i < indexes.len() implies !(#[trigger] is_led_by(
        indexes[i],
        column,
    )) by {
        assert(indexes[i].is_primary() || lead_from(indexes[i].parts, 0) is None || text::lowered(
            lead_from(indexes[i].parts, 0)->0,
        ) != column);
    }
}

/// A table without columns does not exist; of any other there is a row for each column,
/// in the order of the columns.
pub proof fn columns_are_answered(
    show: ShowColumnsView,
    info: Seq<Seq<ValueView>>,
    create_sql: Option<Seq<char>>,
    indexes: Seq<IndexView>,
)
    ensures
        info.len() == 0 ==> columns_answer(show, info, create_sql, indexes)
            == OutcomeView::NoSuchTable(show.table),
        info.len() > 0 && show.filter is None ==> (columns_answer(show, info, create_sql, indexes)
            matches OutcomeView::Columns(r) && r.rows.len() == info.len() && r.columns
            == show::column_headers_spec(show.full) && forall|i: int|
            0 <= i < info.len() ==> (#[trigger] r.rows[i])[0] == Some(text_or_empty(info[i][1]))),
        info.len() == 0 ==> index_answer(
            ShowIndexView { table: show.table, filter: show.filter },
            info,
            indexes,
        ) == OutcomeView::NoSuchTable(show.table),
{
    if info.len() > 0 && show.filter is None {
        let rows = column_rows(show.full, info, create_sql, indexes);
        assert forall|i: int| 0 <= i < info.len() implies (#[trigger] rows[i])[0] == Some(
            text_or_empty(info[i][1]),
        ) by {
            columns_are_shown(column_of(info[i], schema::declared_types(create_sql), indexes));
        }
    }
}

/// The rows of an index: one for each of its columns, which counts the columns from
/// one, names the table, the index and the column, and tells whether the index is
/// unique and whether the column may be NULL. The index of the primary key is
/// `PRIMARY`, and its columns may not be NULL.
pub proof fn index_rows_are_shown(
    table: Seq<char>,
    info: Seq<Seq<ValueView>>,
    index: IndexView,
    i: int,
)
    requires
        0 <= i < index.parts.len(),
    ensures
        rows_of_index(table, info, index).len() == index.parts.len(),
        ({
            let r = rows_of_index(table, info, index)[i];
            &&& r.len() == 15
            &&& r[0] == Some(table)
            &&& index.is_unique() ==> r[1] == Some("0"@)
            &&& !index.is_unique() ==> r[1] == Some("1"@)
            &&& index.is_primary() ==> r[2] == Some("PRIMARY"@) && r[9] == Some(""@)
            &&& !index.is_primary() ==> r[2] == Some(index.name())
            &&& r[3] matches Some(n) && numeric::digits_value(n) == i + 1
            &&& r[4] == Some(index.column(i))
            &&& r[5] == Some("A"@)
            &&& r[6] is None && r[7] is None && r[8] is None
            &&& !index.is_primary() && is_nullable(info, index.column(i)) ==> r[9] == Some("YES"@)
            &&& !is_nullable(info, index.column(i)) ==> r[9] == Some(""@)
            &&& r[10] == Some("BTREE"@)
            &&& r[11] == Some(""@) && r[12] == Some(""@)
            &&& r[13] == Some("YES"@)
            &&& r[14] is None
        }),
{
    numeric::decimal_reads_back((i + 1) as nat);
}

/// The indexes of a table follow each other; a primary key that no index backs is shown
/// behind them.
pub proof fn indexes_follow_each_other(
    table: Seq<char>,
    info: Seq<Seq<ValueView>>,
    indexes: Seq<IndexView>,
    index: IndexView,
    i: int,
)
    ensures
        rows_of_indexes(table, info, Seq::<IndexView>::empty()).len() == 0,
        rows_of_indexes(table, info, indexes.push(index)) == rows_of_indexes(table, info, indexes)
            + rows_of_index(table, info, index),
        0 <= i < indexes.len() && indexes[i].is_primary() ==> index_rows(table, info, indexes)
            == rows_of_indexes(table, info, indexes),
        (forall|k: int| 0 <= k < indexes.len() ==> !(#[trigger] indexes[k]).is_primary())
            ==> index_rows(table, info, indexes) == rows_of_indexes(table, info, indexes)
            + rows_of_key(table, info),
{
    assert(indexes.push(index).drop_last() =~= indexes);
}

/// The rows of a primary key that no index backs: one for each of its columns, in the
/// order of their places in the key.
pub proof fn key_rows_are_shown(table: Seq<char>, info: Seq<Seq<ValueView>>, i: int)
    requires
        0 <= i < key_columns(info).len(),
    ensures
        rows_of_key(table, info).len() == key_columns(info).len(),
        ({
            let r = rows_of_key(table, info)[i];
            &&& r[0] == Some(table)
            &&& r[1] == Some("0"@)
            &&& r[2] == Some("PRIMARY"@)
            &&& r[3] matches Some(n) && numeric::digits_value(n) == i + 1
            &&& r[4] == Some(key_columns(info)[i].1)
            &&& r[9] == Some(""@)
        }),
{
    numeric::decimal_reads_back((i + 1) as nat);
}

proof fn placed_has(entries: Seq<(int, Seq<char>)>, x: (int, Seq<char>), y: (int, Seq<char>))
    ensures
        placed(entries, x).contains(y) <==> entries.contains(y) || x == y,
        placed(entries, x).len() == entries.len() + 1,
    decreases entries.len(),
{
    let all = placed(entries, x);
    if entries.len() > 0 && entries.last().0 > x.0 {
        let front = entries.drop_last();
        let p = placed(front, x);
        placed_has(front, x, y);
        if entries.contains(y) {
            let k = choose|k: int| 0 <= k < entries.len() && entries[k] == y;
            if k < front.len() {
                assert(front[k] == y);
            } else {
                assert(all[all.len() - 1] == y);
            }
        }
        if front.contains(y) {
            let k = choose|k: int| 0 <= k < front.len() && front[k] == y;
            assert(entries[k] == y);
        }
        if p.contains(y) {
            let k = choose|k: int| 0 <= k < p.len() && p[k] == y;
            assert(all[k] == y);
        }
        if all.contains(y) {
            let k = choose|k: int| 0 <= k < all.len() && all[k] == y;
            if k < p.len() {
                assert(p[k] == y);
            } else {
                assert(entries[entries.len() - 1] == y);
            }
        }
    } else {
        if entries.contains(y) {
            let k = choose|k: int| 0 <= k < entries.len() && entries[k] == y;
            assert(all[k] == y);
        }
        if x == y {
            assert(all[entries.len() as int] == y);
        }
        if all.contains(y) {
            let k = choose|k: int| 0 <= k < all.len() && all[k] == y;
            if k < entries.len() {
                assert(entries[k] == y);
            }
        }
    }
}

/// The columns of the key are those with a place in it.
pub proof fn key_columns_have_places(info: Seq<Seq<ValueView>>, row: Seq<ValueView>)
    ensures
        key_columns(Seq::<Seq<ValueView>>::empty()).len() == 0,
        key_place(row) <= 0 ==> key_columns(info.push(row)) == key_columns(info),
        key_place(row) > 0 ==> key_columns(info.push(row)).len() == key_columns(info).len() + 1
            && key_columns(info.push(row)).contains((key_place(row), text_or_empty(row[1]))),
        row[5] matches ValueView::Integer(n) ==> key_place(row) == n,
{
    assert(info.push(row).drop_last() =~= info);
    placed_has(
        key_columns(info),
        (key_place(row), text_or_empty(row[1])),
        (key_place(row), text_or_empty(row[1])),
    );
    if let ValueView::Integer(n) = row[5] {
        numeric::signed_decimal_reads_back(n);
    }
}

/// Whether a column may be NULL is what the engine says of it; a column that it does
/// not know may.
pub proof fn nullability_is_as_declared(
    info: Seq<Seq<ValueView>>,
    row: Seq<ValueView>,
    column: Seq<char>,
)
    ensures
        is_nullable(Seq::<Seq<ValueView>>::empty(), column),
        row[1] == ValueView::Text(column) && row[3] == ValueView::Integer(0) ==> is_nullable(
            info.push(row),
            column,
        ),
        row[1] == ValueView::Text(column) && row[3] == ValueView::Integer(1) ==> !is_nullable(
            info.push(row),
            column,
        ),
        row[1] matches ValueView::Text(other) && other != column ==> is_nullable(
            info.push(row),
            column,
        ) == is_nullable(info, column),
{
    assert(info.push(row).drop_last() =~= info);
    numeric::decimal_notation(0, 0);
    reveal_strlit("0");
    assert("0"@ =~= seq!['0']);
    assert(numeric::signed_decimal(0) == "0"@);
    numeric::signed_decimal_reads_back(0);
    numeric::signed_decimal_reads_back(1);
}

/// An entry of the list of indexes holds the name of the index, a 1 if it is unique,
/// and `pk` if it backs the primary key; a row of the columns of an index holds the
/// name of the column.
pub proof fn index_entries_are_read(
    index: IndexView,
    name: Seq<char>,
    unique: i64,
    origin: Seq<char>,
    column: Seq<char>,
    i: int,
)
    requires
        index.entry.len() >= 4,
        index.entry[1] == ValueView::Text(name),
        index.entry[2] == ValueView::Integer(unique),
        index.entry[3] == ValueView::Text(origin),
        0 <= i < index.parts.len(),
        index.parts[i].len() >= 3,
        index.parts[i][2] == ValueView::Text(column),
    ensures
        index.name() == name,
        index.is_unique() <==> unique == 1,
        index.is_primary() <==> origin.len() == 2 && (origin[0] == 'p' || origin[0] == 'P') && (
        origin[1] == 'k' || origin[1] == 'K'),
        index.column(i) == column,
{
    reveal_strlit("1");
    assert("1"@ =~= seq!['1']);
    reveal_strlit("pk");
    assert("pk"@ =~= seq!['p', 'k']);
    numeric::signed_decimal_reads_back(unique);
    numeric::signed_decimal_reads_back(1);
    assert(numeric::signed_decimal(1) =~= seq!['1']);
    text::folding_compares_places(origin, "pk"@);
    if index.is_primary() {
        assert(text::lower_char(origin[0]) == text::lower_char('p'));
        assert(text::lower_char(origin[1]) == text::lower_char('k'));
    }
}

} // verus!
