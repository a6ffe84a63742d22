//! Answering the `SHOW` statements that list tables and variables, and keeping
//! indexes in step with a dropped column.

use vstd::prelude::*;

use crate::numeric;
use crate::parser::variables;
use crate::server::catalog;
use crate::server::catalog::{IndexRows, IndexView};
use crate::server::like;
use crate::server::session;
use crate::server::show::{ColumnsResult, ResultView, ShowTables, ShowVariables};
use crate::server::value;
use crate::server::value::{Value, ValueView};
use crate::text;

verus! {

// ---------------------------------------------------------------------------
// SHOW TABLES
// ---------------------------------------------------------------------------
/// The first value of every row, as text.
pub open spec fn first_texts(rows: Seq<Seq<ValueView>>) -> Seq<Seq<char>> {
    Seq::new(rows.len(), |i: int| catalog::text_or_empty(rows[i][0]))
}

/// Reads the names that a query for tables gave.
pub fn table_names(rows: &Vec<Vec<Value>>) -> (r: Vec<String>)
    requires
        catalog::are_wide(rows.deep_view(), 1),
    ensures
        r.deep_view() == first_texts(rows.deep_view()),
{
    let mut names: Vec<String> = Vec::new();
    let ghost views = rows.deep_view();
    for i in 0..rows.len()
        invariant
            views == rows.deep_view(),
            catalog::are_wide(views, 1),
            names@.len() == i,
            forall|j: int| 0 <= j < i ==> (#[trigger] names@[j])@ == first_texts(views)[j],
    {
        assert(views[i as int] == rows@[i as int].deep_view());
        assert(views[i as int][0] == rows@[i as int]@[0]@);
        names.push(catalog::string_or_empty(&rows[i][0]));
    }
    assert(names.deep_view() =~= first_texts(views));
    names
}

/// The answer to `SHOW [FULL] TABLES`.
pub open spec fn tables_answer(full: bool, names: Seq<Seq<char>>) -> ResultView {
    if full {
        ResultView {
            columns: seq!["Tables_in_database"@, "Table_type"@],
            rows: Seq::new(names.len(), |i: int| seq![Some(names[i]), Some("BASE TABLE"@)]),
        }
    } else {
        ResultView {
            columns: seq!["Tables_in_database"@],
            rows: Seq::new(names.len(), |i: int| seq![Some(names[i])]),
        }
    }
}

/// Answers `SHOW [FULL] TABLES`, from the rows of the query for the tables.
pub fn build_tables(show: &ShowTables, tables: &Vec<Vec<Value>>) -> (r: ColumnsResult)
    requires
        catalog::are_wide(tables.deep_view(), 1),
    ensures
        r.deep_view() == tables_answer(show.full, first_texts(tables.deep_view())),
{
    let names = table_names(tables);
    let ghost views = names.deep_view();
    let ghost expected = tables_answer(show.full, views);
    let mut rows: Vec<Vec<Option<String>>> = Vec::new();
    for i in 0..names.len()
        invariant
            views == names.deep_view(),
            expected == tables_answer(show.full, views),
            rows@.len() == i,
            forall|j: int| 0 <= j < i ==> (#[trigger] rows@[j]).deep_view() == expected.rows[j],
    {
        assert(views[i as int] == names@[i as int]@);
        let row = if show.full {
            vec![Some(names[i].clone()), Some("BASE TABLE".to_string())]
        } else {
            vec![Some(names[i].clone())]
        };
        assert(row.deep_view() =~= expected.rows[i as int]);
        rows.push(row);
    }
    let columns = if show.full {
        vec!["Tables_in_database", "Table_type"]
    } else {
        vec!["Tables_in_database"]
    };
    assert(columns.deep_view() =~= expected.columns);
    assert(rows.deep_view() =~= expected.rows);
    ColumnsResult { columns, rows }
}

// ---------------------------------------------------------------------------
// SHOW TABLE STATUS
// ---------------------------------------------------------------------------
/// The headers of `SHOW TABLE STATUS`.
pub open spec fn status_headers() -> Seq<Seq<char>> {
    seq![
        "Name"@,
        "Engine"@,
        "Version"@,
        "Row_format"@,
        "Rows"@,
        "Avg_row_length"@,
        "Data_length"@,
        "Max_data_length"@,
        "Index_length"@,
        "Data_free"@,
        "Auto_increment"@,
        "Create_time"@,
        "Update_time"@,
        "Check_time"@,
        "Collation"@,
        "Checksum"@,
        "Create_options"@,
        "Comment"@,
    ]
}

/// The headers of `SHOW TABLE STATUS`, in order.
pub fn table_status_columns() -> (r: Vec<&'static str>)
    ensures
        r.deep_view() == status_headers(),
{
    let columns = vec![
        "Name",
        "Engine",
        "Version",
        "Row_format",
        "Rows",
        "Avg_row_length",
        "Data_length",
        "Max_data_length",
        "Index_length",
        "Data_free",
        "Auto_increment",
        "Create_time",
        "Update_time",
        "Check_time",
        "Collation",
        "Checksum",
        "Create_options",
        "Comment",
    ];
    assert(columns.deep_view() =~= status_headers());
    columns
}

/// The row of `SHOW TABLE STATUS` for a table. Of a table the engine knows its name
/// and the number of its rows.
pub open spec fn status_row(name: Seq<char>, count: int) -> Seq<Option<Seq<char>>> {
    seq![
        Some(name),
        Some("InnoDB"@),
        Some("10"@),
        Some("Dynamic"@),
        Some(numeric::signed_decimal(count)),
        Some("0"@),
        Some("0"@),
        Some("0"@),
        Some("0"@),
        Some("0"@),
        None,
        None,
        None,
        None,
        Some(catalog::COLLATION@),
        None,
        Some(""@),
        Some(""@),
    ]
}

/// The answer to `SHOW TABLE STATUS`.
pub open spec fn table_status_answer(names: Seq<Seq<char>>, counts: Seq<i64>) -> ResultView {
    ResultView {
        columns: status_headers(),
        rows: Seq::new(names.len(), |i: int| status_row(names[i], counts[i] as int)),
    }
}

/// The count that the rows of a counting query give: the number in the last row,
/// or zero.
pub open spec fn count_of(rows: Seq<Seq<ValueView>>) -> int {
    if rows.len() == 0 {
        0
    } else {
        match value::text_of(rows.last()[0]) {
            Some(s) => match numeric::parsed_signed(s) {
                Some(n) => n,
                None => 0,
            },
            None => 0,
        }
    }
}

/// Reads the rows of a counting query.
pub fn table_row_count(rows: &Vec<Vec<Value>>) -> (r: i64)
    requires
        catalog::are_wide(rows.deep_view(), 1),
    ensures
        r == count_of(rows.deep_view()),
{
    let n: usize = rows.len();
    if n == 0 {
        return 0;
    }
    assert(rows.deep_view()[n - 1] == rows@[n - 1].deep_view());
    assert(rows.deep_view()[n - 1][0] == rows@[n - 1]@[0]@);
    match value::value_to_string(&rows[n - 1][0]) {
        Some(s) => match numeric::parse_signed(&text::chars_of(s.as_str())) {
            Some(count) => count,
            None => 0,
        },
        None => 0,
    }
}

fn status_row_of(name: &String, count: i64) -> (r: Vec<Option<String>>)
    ensures
        r.deep_view() == status_row(name@, count as int),
{
    let mut number: Vec<char> = Vec::new();
    numeric::push_signed(&mut number, count);
    assert(number@ =~= numeric::signed_decimal(count as int));
    let row = vec![
        Some(name.clone()),
        Some("InnoDB".to_string()),
        Some("10".to_string()),
        Some("Dynamic".to_string()),
        Some(text::string_of(&number)),
        Some("0".to_string()),
        Some("0".to_string()),
        Some("0".to_string()),
        Some("0".to_string()),
        Some("0".to_string()),
        None,
        None,
        None,
        None,
        Some(catalog::COLLATION.to_string()),
        None,
        Some("".to_string()),
        Some("".to_string()),
    ];
    assert(row.deep_view() =~= status_row(name@, count as int));
    row
}

/// Answers `SHOW TABLE STATUS`, from the names of the tables and the numbers of
/// their rows.
pub fn build_table_status(names: &Vec<String>, counts: &Vec<i64>) -> (r: ColumnsResult)
    requires
        names@.len() == counts@.len(),
    ensures
        r.deep_view() == table_status_answer(names.deep_view(), counts@),
{
    let ghost views = names.deep_view();
    let ghost expected = table_status_answer(views, counts@);
    let mut rows: Vec<Vec<Option<String>>> = Vec::new();
    for i in 0..names.len()
        invariant
            names@.len() == counts@.len(),
            views == names.deep_view(),
            expected == table_status_answer(views, counts@),
            rows@.len() == i,
            forall|j: int| 0 <= j < i ==> (#[trigger] rows@[j]).deep_view() == expected.rows[j],
    {
        assert(views[i as int] == names@[i as int]@);
        rows.push(status_row_of(&names[i], counts[i]));
    }
    let columns = table_status_columns();
    assert(rows.deep_view() =~= expected.rows);
    ColumnsResult { columns, rows }
}

// ---------------------------------------------------------------------------
// SHOW VARIABLES
// ---------------------------------------------------------------------------
/// The variables among `table` whose names match the pattern, if there is one.
pub open spec fn matching(
    table: Seq<(Seq<char>, Seq<char>)>,
    pattern: Option<Seq<char>>,
) -> Seq<Seq<Option<Seq<char>>>>
    decreases table.len(),
{
    if table.len() == 0 {
        seq![]
    } else {
        let before = matching(table.drop_last(), pattern);
        let (name, value) = table.last();
        if pattern matches Some(p) && !like::like(p, name) {
            before
        } else {
            before.push(seq![Some(name), Some(value)])
        }
    }
}

/// The answer to `SHOW VARIABLES`: the matching variables, in the order of their
/// names, as the table of system variables has them.
pub open spec fn variables_answer(pattern: Option<Seq<char>>) -> ResultView {
    ResultView {
        columns: seq!["Variable_name"@, "Value"@],
        rows: matching(variables::system_variables_spec(), pattern),
    }
}

/// Answers `SHOW VARIABLES`.
pub fn build_variables(show: &ShowVariables) -> (r: ColumnsResult)
    ensures
        r.deep_view() == variables_answer(show.deep_view()),
{
    let table = variables::system_variables();
    let ghost views = table.deep_view();
    let ghost pattern = show.deep_view();
    let mut rows: Vec<Vec<Option<String>>> = Vec::new();
    assert(views.take(0) =~= seq![]);
    assert(rows.deep_view() =~= matching(views.take(0), pattern));
    for i in 0..table.len()
        invariant
            views == table.deep_view(),
            pattern == show.deep_view(),
            rows.deep_view() == matching(views.take(i as int), pattern),
    {
        let (name, value) = table[i];
        assert(views[i as int] == (name@, value@));
        assert(views.take(i + 1).drop_last() =~= views.take(i as int));
        assert(views.take(i + 1).last() == views[i as int]);
        let wanted = match &show.like {
            Some(p) => like::like_match(p.as_str(), name),
            None => true,
        };
        let ghost before = rows.deep_view();
        if wanted {
            let row = vec![Some(name.to_string()), Some(value.to_string())];
            assert(row.deep_view() =~= seq![Some(name@), Some(value@)]);
            rows.push(row);
            assert(rows.deep_view() =~= before.push(row.deep_view()));
        }
    }
    assert(views.take(views.len() as int) =~= views);
    let columns = vec!["Variable_name", "Value"];
    assert(columns.deep_view() =~= seq!["Variable_name"@, "Value"@]);
    ColumnsResult { columns, rows }
}

proof fn matching_is_in_order(pattern: Option<Seq<char>>, n: int)
    requires
        0 <= n <= variables::system_variables_spec().len(),
    ensures
        ({
            let table = variables::system_variables_spec();
            let rows = matching(table.take(n), pattern);
            &&& forall|i: int|
                0 <= i < rows.len() ==> exists|k: int|
                    0 <= k < n && #[trigger] rows[i] == seq![
                        Some((#[trigger] table[k]).0),
                        Some(table[k].1),
                    ]
            &&& forall|i: int, j: int|
                0 <= i < j < rows.len() ==> variables::precedes(
                    (#[trigger] rows[i])[0]->0,
                    (#[trigger] rows[j])[0]->0,
                )
        }),
    decreases n,
{
    let table = variables::system_variables_spec();
    if n > 0 {
        matching_is_in_order(pattern, n - 1);
        let before = matching(table.take(n - 1), pattern);
        let rows = matching(table.take(n), pattern);
        assert(table.take(n).drop_last() =~= table.take(n - 1));
        assert(table.take(n).last() == table[n - 1]);
        if rows != before {
            let last = rows.len() - 1;
            assert(rows == before.push(seq![Some(table[n - 1].0), Some(table[n - 1].1)]));
            assert forall|i: int| 0 <= i < rows.len() implies exists|k: int|
                0 <= k < n && #[trigger] rows[i] == seq![
                    Some((#[trigger] table[k]).0),
                    Some(table[k].1),
                ] by {
                if i < last {
                    assert(rows[i] == before[i]);
                } else {
                    assert(rows[i] == seq![Some(table[n - 1].0), Some(table[n - 1].1)]);
                }
            }
            assert forall|i: int, j: int| 0 <= i < j < rows.len() implies variables::precedes(
                (#[trigger] rows[i])[0]->0,
                (#[trigger] rows[j])[0]->0,
            ) by {
                assert(rows[i] == before[i]);
                if j < last {
                    assert(rows[j] == before[j]);
                } else {
                    let k = choose|k: int|
                        0 <= k < n - 1 && before[i] == seq![
                            Some((#[trigger] table[k]).0),
                            Some(table[k].1),
                        ];
                    variables::variables_are_in_order(k, n - 1);
                }
            }
        }
    }
}

/// `SHOW VARIABLES` gives its rows in the order of the names, whatever the pattern.
pub proof fn variables_answer_is_in_order(pattern: Option<Seq<char>>, i: int, j: int)
    requires
        0 <= i < j < variables_answer(pattern).rows.len(),
    ensures
        variables::precedes(
            variables_answer(pattern).rows[i][0]->0,
            variables_answer(pattern).rows[j][0]->0,
        ),
{
    let table = variables::system_variables_spec();
    matching_is_in_order(pattern, table.len() as int);
    assert(table.take(table.len() as int) =~= table);
}

/// What `SHOW VARIABLES` gives for a variable is what `SELECT @@name` gives, the name
/// in any case.
pub proof fn show_and_select_agree(pattern: Option<Seq<char>>, i: int, name: Seq<char>)
    requires
        0 <= i < variables_answer(pattern).rows.len(),
        Some(text::lowered(name)) == variables_answer(pattern).rows[i][0],
    ensures
        Some(session::system_variable_spec(name)) == variables_answer(pattern).rows[i][1],
{
    let table = variables::system_variables_spec();
    let rows = variables_answer(pattern).rows;
    matching_is_in_order(pattern, table.len() as int);
    assert(table.take(table.len() as int) =~= table);
    let k = choose|k: int|
        0 <= k < table.len() && rows[i] == seq![Some((#[trigger] table[k]).0), Some(table[k].1)];
    variables::variables_are_found(k, name);
}

// ---------------------------------------------------------------------------
// ALTER TABLE ... DROP COLUMN
// ---------------------------------------------------------------------------
/// Some column of the index is `column`, but for ASCII case.
pub open spec fn covers(index: IndexView, column: Seq<char>) -> bool {
    exists|i: int| 0 <= i < index.parts.len() && text::fold_eq(#[trigger] index.column(i), column)
}

/// The quoted names of the first `n` columns of an index, but for `column`.
pub open spec fn others(index: IndexView, column: Seq<char>, n: int) -> Seq<Seq<char>>
    decreases n,
{
    if n <= 0 {
        seq![]
    } else {
        let before = others(index, column, n - 1);
        if text::fold_eq(index.column(n - 1), column) {
            before
        } else {
            before.push(catalog::quoted_ident(index.column(n - 1)))
        }
    }
}

/// The statements that take a column out of an index: the index is dropped, and
/// made again over its other columns if it has any. The index of the primary key,
/// and one that does not cover the column, are left alone.
pub open spec fn adjustment(table: Seq<char>, column: Seq<char>, index: IndexView) -> Seq<
    Seq<char>,
> {
    if index.is_primary() || !covers(index, column) {
        seq![]
    } else {
        let rest = others(index, column, index.parts.len() as int);
        let name = catalog::quoted_ident(index.name());
        seq!["DROP INDEX "@ + name] + (if rest.len() == 0 {
            seq![]
        } else {
            seq![
                "CREATE "@ + (if index.is_unique() {
                    "UNIQUE "@
                } else {
                    ""@
                }) + "INDEX "@ + name + " ON "@ + catalog::quoted_ident(table) + " ("@
                    + text::joined(rest, ", "@) + ")"@,
            ]
        })
    }
}

/// The statements that take a column out of all indexes.
pub open spec fn adjustments(table: Seq<char>, column: Seq<char>, indexes: Seq<IndexView>) -> Seq<
    Seq<char>,
>
    decreases indexes.len(),
{
    if indexes.len() == 0 {
        seq![]
    } else {
        adjustments(table, column, indexes.drop_last()) + adjustment(
            table,
            column,
            indexes.last(),
        )
    }
}

/// Appends the statements that take a column out of an index.
fn push_adjustment(out: &mut Vec<String>, table: &str, column: &str, index: &IndexRows)
    requires
        index.deep_view().is_wide(),
    ensures
        final(out).deep_view() == old(out).deep_view() + adjustment(
            table@,
            column@,
            index.deep_view(),
        ),
{
    let ghost start = out.deep_view();
    let ghost view = index.deep_view();
    assert(start + Seq::<Seq<char>>::empty() =~= start);
    if index.is_primary() {
        return;
    }
    let gone = text::chars_of(column);
    let mut rest: Vec<String> = Vec::new();
    let mut covered = false;
    assert(rest.deep_view() =~= seq![]);
    for i in 0..index.parts.len()
        invariant
            index.deep_view().is_wide(),
            view == index.deep_view(),
            gone@ == column@,
            covered == exists|j: int|
                0 <= j < i && text::fold_eq(#[trigger] view.column(j), column@),
            rest.deep_view() == others(view, column@, i as int),
    {
        let name = index.column(i);
        if text::eq_fold(&text::chars_of(name.as_str()), &gone) {
            assert(text::fold_eq(view.column(i as int), column@));
            covered = true;
        } else {
            let ghost before = rest.deep_view();
            let quoted = catalog::quote_ident(name.as_str());
            rest.push(quoted);
            assert(rest.deep_view() =~= before.push(quoted@));
        }
    }
    if !covered {
        return;
    }
    let name = catalog::quote_ident(index.name().as_str());
    let mut sql = text::chars_of("DROP INDEX ");
    text::push_text(&mut sql, name.as_str());
    let drop_sql = text::string_of(&sql);
    out.push(drop_sql);
    assert(out.deep_view() =~= start.push(drop_sql@));
    assert(rest.deep_view().len() == rest@.len());
    if rest.len() > 0 {
        let mut sql = text::chars_of("CREATE ");
        if index.is_unique() {
            text::push_text(&mut sql, "UNIQUE ");
        } else {
            text::push_text(&mut sql, "");
        }
        text::push_text(&mut sql, "INDEX ");
        text::push_text(&mut sql, name.as_str());
        text::push_text(&mut sql, " ON ");
        text::push_text(&mut sql, catalog::quote_ident(table).as_str());
        text::push_text(&mut sql, " (");
        text::push_text(&mut sql, text::join(&rest, ", ").as_str());
        text::push_text(&mut sql, ")");
        let create_sql = text::string_of(&sql);
        let ghost before = out.deep_view();
        out.push(create_sql);
        assert(out.deep_view() =~= before.push(create_sql@));
    }
    assert(out.deep_view() =~= start + adjustment(table@, column@, view));
}

/// Gives the statements to run before a column is dropped. The engine refuses to
/// drop a column that an index covers, where MySQL takes it out of the index.
pub fn adjust_indexes_for_dropped_column(
    table: &str,
    column: &str,
    indexes: &Vec<IndexRows>,
) -> (r: Vec<String>)
    requires
        catalog::indexes_are_wide(indexes.deep_view()),
    ensures
        r.deep_view() == adjustments(table@, column@, indexes.deep_view()),
{
    let mut out: Vec<String> = Vec::new();
    let ghost views = indexes.deep_view();
    assert(views.take(0) =~= seq![]);
    assert(out.deep_view() =~= adjustments(table@, column@, views.take(0)));
    for i in 0..indexes.len()
        invariant
            views == indexes.deep_view(),
            catalog::indexes_are_wide(views),
            out.deep_view() == adjustments(table@, column@, views.take(i as int)),
    {
        assert(views[i as int] == indexes@[i as int].deep_view());
        assert(views.take(i + 1).drop_last() =~= views.take(i as int));
        assert(views.take(i + 1).last() == views[i as int]);
        push_adjustment(&mut out, table, column, &indexes[i]);
    }
    assert(views.take(views.len() as int) =~= views);
    out
}

/// The columns of an index that are none of `column`.
pub open spec fn has_others(index: IndexView, column: Seq<char>) -> bool {
    exists|i: int| 0 <= i < index.parts.len() && !text::fold_eq(#[trigger] index.column(i), column)
}

proof fn others_are_some(index: IndexView, column: Seq<char>, n: int)
    requires
        0 <= n,
    ensures
        others(index, column, n).len() > 0 <==> exists|i: int|
            0 <= i < n && !text::fold_eq(#[trigger] index.column(i), column),
    decreases n,
{
    if n > 0 {
        others_are_some(index, column, n - 1);
        if !text::fold_eq(index.column(n - 1), column) {
            assert(others(index, column, n).len() > 0);
        } else if others(index, column, n).len() > 0 {
            let i = choose|i: int|
                0 <= i < n - 1 && !text::fold_eq(#[trigger] index.column(i), column);
            assert(0 <= i < n && !text::fold_eq(index.column(i), column));
        } else {
            assert forall|i: int| 0 <= i < n implies text::fold_eq(
                #[trigger] index.column(i),
                column,
            ) by {
                if i < n - 1 {
                    assert(text::fold_eq(index.column(i), column));
                }
            }
        }
    }
}

/// An index that covers the dropped column is dropped for good if it has no other
/// column, and made again otherwise.
pub proof fn covering_index_survives_with_other_columns(
    table: Seq<char>,
    column: Seq<char>,
    index: IndexView,
)
    requires
        !index.is_primary(),
        covers(index, column),
    ensures
        adjustment(table, column, index).len() == if has_others(index, column) {
            2nat
        } else {
            1nat
        },
{
    others_are_some(index, column, index.parts.len() as int);
}

// ---------------------------------------------------------------------------
// Laws
// ---------------------------------------------------------------------------
/// `SHOW TABLES` gives a row for each table, in their order: its name, and with `FULL`
/// that it is a base table.
pub proof fn tables_are_answered(names: Seq<Seq<char>>, i: int)
    requires
        0 <= i < names.len(),
    ensures
        tables_answer(false, names).rows.len() == names.len(),
        tables_answer(true, names).rows.len() == names.len(),
        tables_answer(false, names).rows[i] == seq![Some(names[i])],
        tables_answer(true, names).rows[i] == seq![Some(names[i]), Some("BASE TABLE"@)],
        tables_answer(false, names).columns == seq!["Tables_in_database"@],
        tables_answer(true, names).columns == seq!["Tables_in_database"@, "Table_type"@],
{
}

/// The names of tables are the first values of the rows, and a count is the first value
/// of the last row.
pub proof fn first_values_are_taken(rows: Seq<Seq<ValueView>>, row: Seq<ValueView>)
    ensures
        row[0] matches ValueView::Text(s) ==> first_texts(rows.push(row)) == first_texts(rows).push(
            s,
        ),
        row[0] matches ValueView::Integer(n) ==> count_of(rows.push(row)) == n,
        count_of(Seq::<Seq<ValueView>>::empty()) == 0,
{
    if let ValueView::Text(s) = row[0] {
        assert(first_texts(rows.push(row)) =~= first_texts(rows).push(s));
    }
    if let ValueView::Integer(n) = row[0] {
        numeric::signed_decimal_reads_back(n);
    }
}

/// `SHOW TABLE STATUS` gives a row for each table, under 18 headers: its name first,
/// and the number of its rows under `Rows`.
pub proof fn table_status_is_answered(names: Seq<Seq<char>>, counts: Seq<i64>, i: int)
    requires
        names.len() == counts.len(),
        0 <= i < names.len(),
    ensures
        ({
            let a = table_status_answer(names, counts);
            let r = a.rows[i];
            &&& a.rows.len() == names.len()
            &&& a.columns.len() == 18 && r.len() == 18
            &&& a.columns[0] == "Name"@ && r[0] == Some(names[i])
            &&& a.columns[1] == "Engine"@ && r[1] == Some("InnoDB"@)
            &&& a.columns[4] == "Rows"@ && (r[4] matches Some(n) && numeric::parsed_signed(n)
                == Some(counts[i] as int))
            &&& a.columns[14] == "Collation"@ && r[14] == Some("utf8mb4_general_ci"@)
        }),
{
    numeric::signed_decimal_reads_back(counts[i]);
}

/// A variable is listed if and only if there is no pattern or its name is like it.
pub proof fn variables_are_matched(
    table: Seq<(Seq<char>, Seq<char>)>,
    name: Seq<char>,
    value: Seq<char>,
    p: Seq<char>,
)
    ensures
        matching(Seq::<(Seq<char>, Seq<char>)>::empty(), Some(p)).len() == 0,
        matching(table.push((name, value)), None) == matching(table, None).push(
            seq![Some(name), Some(value)],
        ),
        like::like(p, name) ==> matching(table.push((name, value)), Some(p)) == matching(
            table,
            Some(p),
        ).push(seq![Some(name), Some(value)]),
        !like::like(p, name) ==> matching(table.push((name, value)), Some(p)) == matching(
            table,
            Some(p),
        ),
        variables_answer(None).columns == seq!["Variable_name"@, "Value"@],
{
    assert(table.push((name, value)).drop_last() =~= table);
}

/// Before a column is dropped, the indexes that hold it are dropped, and made again
/// over their other columns, in their order; other indexes and that of the primary key
/// stay.
pub proof fn indexes_are_adjusted(table: Seq<char>, column: Seq<char>, index: IndexView)
    ensures
        index.is_primary() || !(exists|i: int|
            0 <= i < index.parts.len() && text::fold_eq(#[trigger] index.column(i), column))
            ==> adjustment(table, column, index).len() == 0,
        !index.is_primary() && covers(index, column) ==> {
            let a = adjustment(table, column, index);
            let rest = others(index, column, index.parts.len() as int);
            &&& a[0] == "DROP INDEX "@ + catalog::quoted_ident(index.name())
            &&& rest.len() > 0 && index.is_unique() ==> a[1] == "CREATE "@ + "UNIQUE "@ + "INDEX "@
                + catalog::quoted_ident(index.name()) + " ON "@ + catalog::quoted_ident(table)
                + " ("@ + text::joined(rest, ", "@) + ")"@
            &&& rest.len() > 0 && !index.is_unique() ==> a[1] == "CREATE "@ + "INDEX "@
                + catalog::quoted_ident(index.name()) + " ON "@ + catalog::quoted_ident(table)
                + " ("@ + text::joined(rest, ", "@) + ")"@
        },
{
    reveal_strlit("");
    assert(""@ =~= Seq::<char>::empty());
    assert("CREATE "@ + ""@ =~= "CREATE "@);
}

/// The other columns of an index: those that are not the column, in any case, in their
/// order, each quoted.
pub proof fn other_columns_are_kept(index: IndexView, column: Seq<char>, n: int)
    requires
        0 <= n,
    ensures
        others(index, column, 0).len() == 0,
        text::fold_eq(index.column(n), column) ==> others(index, column, n + 1) == others(
            index,
            column,
            n,
        ),
        !text::fold_eq(index.column(n), column) ==> others(index, column, n + 1) == others(
            index,
            column,
            n,
        ).push(catalog::quoted_ident(index.column(n))),
{
}

/// The indexes are adjusted one after the other.
pub proof fn adjustments_follow_each_other(
    table: Seq<char>,
    column: Seq<char>,
    indexes: Seq<IndexView>,
    index: IndexView,
)
    ensures
        adjustments(table, column, Seq::<IndexView>::empty()).len() == 0,
        adjustments(table, column, indexes.push(index)) == adjustments(table, column, indexes)
            + adjustment(table, column, index),
{
    assert(indexes.push(index).drop_last() =~= indexes);
}

/// An index that has the column at any of its places, in whatever case, is dropped
/// with the column, unless it backs the primary key.
pub proof fn indexes_of_the_column_are_dropped(
    table: Seq<char>,
    column: Seq<char>,
    index: IndexView,
    i: int,
)
    requires
        !index.is_primary(),
        0 <= i < index.parts.len(),
        index.column(i).len() == column.len(),
        forall|k: int|
            0 <= k < column.len() ==> text::lower_char(#[trigger] index.column(i)[k])
                == text::lower_char(column[k]),
    ensures
        adjustment(table, column, index).len() >= 1,
        adjustment(table, column, index)[0] == "DROP INDEX "@ + catalog::quoted_ident(index.name()),
{
    text::folding_compares_places(index.column(i), column);
    assert(text::fold_eq(index.column(i), column));
    indexes_are_adjusted(table, column, index);
}

/// The count of rows is the number that the last row of the counting query holds;
/// without a row, or where it holds no number, it is zero.
pub proof fn counts_are_read(rows: Seq<Seq<ValueView>>, n: i64)
    ensures
        rows.len() == 0 ==> count_of(rows) == 0,
        rows.len() > 0 && rows.last()[0] == ValueView::Integer(n) ==> count_of(rows) == n,
        rows.len() > 0 && rows.last()[0] is Null ==> count_of(rows) == 0,
        rows.len() > 0 && (rows.last()[0] matches ValueView::Text(s) && numeric::parsed_signed(s)
            is None) ==> count_of(rows) == 0,
{
    numeric::signed_decimal_reads_back(n);
}

} // verus!
