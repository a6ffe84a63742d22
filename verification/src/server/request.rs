//! Which `SHOW`, `DESCRIBE` or maintenance statement a text is.

use vstd::prelude::*;

use crate::server::catalog;
use crate::server::listing;
use crate::server::show;
use crate::server::show::{
    ColumnsResult, ResultView, ShowColumns, ShowColumnsView, ShowIndex, ShowIndexView,
    ShowTableStatus, ShowTables, ShowTablesView,
};
use crate::text;

verus! {

/// A recognised statement. All but the last are answered from the catalogue.
#[derive(Debug, PartialEq, Eq)]
pub enum ShowRequest {
    Columns(ShowColumns),
    Tables(ShowTables),
    Index(ShowIndex),
    TableStatus(ShowTableStatus),
    Answer(ColumnsResult),
}

/// The model of a [`ShowRequest`].
pub enum RequestView {
    Columns(ShowColumnsView),
    Tables(ShowTablesView),
    Index(ShowIndexView),
    TableStatus(Option<(bool, Seq<char>)>),
    Answer(ResultView),
}

impl DeepView for ShowRequest {
    type V = RequestView;

    open spec fn deep_view(&self) -> RequestView {
        match self {
            ShowRequest::Columns(s) => RequestView::Columns(s.deep_view()),
            ShowRequest::Tables(s) => RequestView::Tables(s.deep_view()),
            ShowRequest::Index(s) => RequestView::Index(s.deep_view()),
            ShowRequest::TableStatus(s) => RequestView::TableStatus(s.deep_view()),
            ShowRequest::Answer(r) => RequestView::Answer(r.deep_view()),
        }
    }
}

/// What a statement asks for; `None` if it is none of those that are known here.
pub open spec fn request(sql: Seq<char>) -> Option<RequestView> {
    if show::show_columns(sql) is Some {
        Some(RequestView::Columns(show::show_columns(sql)->0))
    } else if show::describe(sql) is Some {
        Some(RequestView::Columns(show::describe(sql)->0))
    } else if show::show_tables(sql) is Some {
        Some(RequestView::Tables(show::show_tables(sql)->0))
    } else if show::show_index(sql) is Some {
        Some(RequestView::Index(show::show_index(sql)->0))
    } else if show::show_table_status(sql) is Some {
        Some(RequestView::TableStatus(show::show_table_status(sql)->0))
    } else if show::show_variables(sql) is Some {
        Some(RequestView::Answer(listing::variables_answer(show::show_variables(sql)->0)))
    } else if show::show_warnings(sql) is Some {
        Some(RequestView::Answer(show::show_warnings(sql)->0))
    } else if show::show_empty_enumeration(sql) is Some {
        Some(RequestView::Answer(show::show_empty_enumeration(sql)->0))
    } else if show::maintenance(sql) is Some {
        Some(RequestView::Answer(show::maintenance(sql)->0))
    } else {
        None
    }
}

/// Recognises the `SHOW`, `DESCRIBE` and maintenance statements, and answers those
/// that need no catalogue.
pub fn try_handle(sql: &str) -> (r: Option<ShowRequest>)
    ensures
        r.deep_view() == request(sql@),
{
    if let Some(parsed) = show::parse_show_columns(sql) {
        return Some(ShowRequest::Columns(parsed));
    }
    if let Some(parsed) = show::parse_describe(sql) {
        return Some(ShowRequest::Columns(parsed));
    }
    if let Some(parsed) = show::parse_show_tables(sql) {
        return Some(ShowRequest::Tables(parsed));
    }
    if let Some(parsed) = show::parse_show_index(sql) {
        return Some(ShowRequest::Index(parsed));
    }
    if let Some(parsed) = show::parse_show_table_status(sql) {
        return Some(ShowRequest::TableStatus(parsed));
    }
    if let Some(parsed) = show::parse_show_variables(sql) {
        return Some(ShowRequest::Answer(listing::build_variables(&parsed)));
    }
    if let Some(result) = show::parse_show_warnings(sql) {
        return Some(ShowRequest::Answer(result));
    }
    if let Some(result) = show::parse_show_empty_enumeration(sql) {
        return Some(ShowRequest::Answer(result));
    }
    if let Some(result) = show::parse_maintenance(sql) {
        return Some(ShowRequest::Answer(result));
    }
    None
}

/// A condition that was recognised is on a column of the answer.
pub proof fn conditions_are_known(sql: Seq<char>)
    ensures
        request(sql) matches Some(RequestView::Columns(s)) ==> catalog::is_known(
            show::column_headers_spec(s.full),
            s.filter,
        ),
        request(sql) matches Some(RequestView::Index(s)) ==> catalog::is_known(
            show::index_headers_spec(),
            s.filter,
        ),
{
    let full = show::column_headers_spec(true);
    let base = show::column_headers_spec(false);
    assert(text::fold_eq(full[0], "Field"@));
    assert(text::fold_eq(base[0], "Field"@));
}

/// What a word is told apart by, whatever its case: its length and the two letters
/// that it starts with.
spec fn mark(word: Seq<char>) -> (nat, char, char) {
    let w = text::lowered(word);
    (w.len(), w[0], w[1])
}

/// The marks of the keywords that tell the statements apart: no two are the same.
proof fn keyword_marks()
    ensures
        mark("SHOW"@) == (4nat, 's', 'h'),
        mark("DESCRIBE"@) == (8nat, 'd', 'e'),
        mark("DESC"@) == (4nat, 'd', 'e'),
        mark("ANALYZE"@) == (7nat, 'a', 'n'),
        mark("CHECK"@) == (5nat, 'c', 'h'),
        mark("OPTIMIZE"@) == (8nat, 'o', 'p'),
        mark("REPAIR"@) == (6nat, 'r', 'e'),
        mark("FULL"@) == (4nat, 'f', 'u'),
        mark("TABLES"@) == (6nat, 't', 'a'),
        mark("COLUMNS"@) == (7nat, 'c', 'o'),
        mark("FIELDS"@) == (6nat, 'f', 'i'),
        mark("INDEX"@) == (5nat, 'i', 'n'),
        mark("INDEXES"@) == (7nat, 'i', 'n'),
        mark("KEYS"@) == (4nat, 'k', 'e'),
        mark("TABLE"@) == (5nat, 't', 'a'),
        mark("GLOBAL"@) == (6nat, 'g', 'l'),
        mark("SESSION"@) == (7nat, 's', 'e'),
        mark("VARIABLES"@) == (9nat, 'v', 'a'),
        mark("WARNINGS"@) == (8nat, 'w', 'a'),
        mark("ERRORS"@) == (6nat, 'e', 'r'),
        mark("TRIGGERS"@) == (8nat, 't', 'r'),
        mark("EVENTS"@) == (6nat, 'e', 'v'),
        mark("PROCEDURE"@) == (9nat, 'p', 'r'),
        mark("FUNCTION"@) == (8nat, 'f', 'u'),
{
    reveal_strlit("SHOW");
    reveal_strlit("DESCRIBE");
    reveal_strlit("DESC");
    reveal_strlit("ANALYZE");
    reveal_strlit("CHECK");
    reveal_strlit("OPTIMIZE");
    reveal_strlit("REPAIR");
    reveal_strlit("FULL");
    reveal_strlit("TABLES");
    reveal_strlit("COLUMNS");
    reveal_strlit("FIELDS");
    reveal_strlit("INDEX");
    reveal_strlit("INDEXES");
    reveal_strlit("KEYS");
    reveal_strlit("TABLE");
    reveal_strlit("GLOBAL");
    reveal_strlit("SESSION");
    reveal_strlit("VARIABLES");
    reveal_strlit("WARNINGS");
    reveal_strlit("ERRORS");
    reveal_strlit("TRIGGERS");
    reveal_strlit("EVENTS");
    reveal_strlit("PROCEDURE");
    reveal_strlit("FUNCTION");
}

/// A statement is of one form at most: the order in which the forms are tried does
/// not matter.
pub proof fn forms_are_exclusive(sql: Seq<char>)
    ensures
        show::show_columns(sql) is Some ==> {
            &&& show::describe(sql) is None
            &&& show::show_tables(sql) is None
            &&& show::show_index(sql) is None
            &&& show::show_table_status(sql) is None
            &&& show::show_variables(sql) is None
            &&& show::show_warnings(sql) is None
            &&& show::show_empty_enumeration(sql) is None
            &&& show::maintenance(sql) is None
        },
        show::describe(sql) is Some ==> {
            &&& show::show_tables(sql) is None
            &&& show::show_index(sql) is None
            &&& show::show_table_status(sql) is None
            &&& show::show_variables(sql) is None
            &&& show::show_warnings(sql) is None
            &&& show::show_empty_enumeration(sql) is None
            &&& show::maintenance(sql) is None
        },
        show::show_tables(sql) is Some ==> {
            &&& show::show_index(sql) is None
            &&& show::show_table_status(sql) is None
            &&& show::show_variables(sql) is None
            &&& show::show_warnings(sql) is None
            &&& show::show_empty_enumeration(sql) is None
            &&& show::maintenance(sql) is None
        },
        show::show_index(sql) is Some ==> {
            &&& show::show_table_status(sql) is None
            &&& show::show_variables(sql) is None
            &&& show::show_warnings(sql) is None
            &&& show::show_empty_enumeration(sql) is None
            &&& show::maintenance(sql) is None
        },
        show::show_table_status(sql) is Some ==> {
            &&& show::show_variables(sql) is None
            &&& show::show_warnings(sql) is None
            &&& show::show_empty_enumeration(sql) is None
            &&& show::maintenance(sql) is None
        },
        show::show_variables(sql) is Some ==> {
            &&& show::show_warnings(sql) is None
            &&& show::show_empty_enumeration(sql) is None
            &&& show::maintenance(sql) is None
        },
        show::show_warnings(sql) is Some ==> {
            &&& show::show_empty_enumeration(sql) is None
            &&& show::maintenance(sql) is None
        },
        show::show_empty_enumeration(sql) is Some ==> {
            &&& show::maintenance(sql) is None
        },
{
    keyword_marks();
}

} // verus!
