//! What `SHOW`, `DESCRIBE` and maintenance statements ask for, by their tokens.

use vstd::prelude::*;

use crate::server::show;
use crate::server::show::{FilterView, ShowColumnsView, ShowIndexView, ShowTablesView};
use crate::text;

verus! {

/// The token is the keyword, in any case.
pub open spec fn says(tok: Seq<char>, word: Seq<char>) -> bool {
    tok.len() == word.len() && forall|k: int|
        0 <= k < tok.len() ==> text::lower_char(#[trigger] tok[k]) == text::lower_char(word[k])
}

proof fn says_is_fold(tok: Seq<char>, word: Seq<char>)
    ensures
        says(tok, word) == text::fold_eq(tok, word),
{
    text::folding_compares_places(tok, word);
}

/// A keyword is told from another by its length or by a letter.
proof fn words_differ(tok: Seq<char>, a: Seq<char>, b: Seq<char>, k: int)
    requires
        says(tok, a),
        a.len() != b.len() || (0 <= k < a.len() && text::lower_char(a[k]) != text::lower_char(b[k])),
    ensures
        !text::fold_eq(tok, b),
{
    says_is_fold(tok, b);
    if says(tok, b) {
        assert(text::lower_char(tok[k]) == text::lower_char(b[k]));
        assert(text::lower_char(tok[k]) == text::lower_char(a[k]));
    }
}

proof fn keywords(
    toks: Seq<Seq<char>>,
    k: int,
    word: Seq<char>,
)
    requires
        0 <= k < toks.len(),
    ensures
        show::kw(toks, k, word) == says(toks[k], word),
{
    says_is_fold(toks[k], word);
}

/// Text between quotes, its own quotes doubled.
pub open spec fn quoted(s: Seq<char>, q: char) -> Seq<char> {
    seq![q] + text::doubled(s, q) + seq![q]
}

/// A quoted token stands for what was quoted.
pub proof fn quotes_are_undone(s: Seq<char>, q: char)
    requires
        q == '\'' || q == '"',
    ensures
        show::unquoted(quoted(s, q)) == Some(s),
{
    let t = quoted(s, q);
    assert(t.subrange(1, t.len() - 1) =~= text::doubled(s, q));
    text::doubling_is_undone(s, q);
    assert(t[0] == q && t.last() == q);
}

/// A token that is not quoted stands for nothing.
pub proof fn bare_words_are_not_quoted(t: Seq<char>)
    requires
        t.len() < 2 || (t[0] != '\'' && t[0] != '"'),
    ensures
        show::unquoted(t) is None,
        show::bare(t) is None,
{
}

/// What the pattern of `SHOW TABLES LIKE` and `SHOW VARIABLES LIKE` stands for: what is
/// between its quotes, as it is.
pub proof fn patterns_are_kept(s: Seq<char>, q: char)
    requires
        q == '\'' || q == '"',
    ensures
        show::bare(seq![q] + s + seq![q]) == Some(s),
{
    let t = seq![q] + s + seq![q];
    assert(t.subrange(1, t.len() - 1) =~= s);
    assert(t[0] == q && t.last() == q);
}

proof fn spelled()
    ensures
        "SHOW"@ == seq!['S', 'H', 'O', 'W'],
        "FULL"@ == seq!['F', 'U', 'L', 'L'],
        "FROM"@ == seq!['F', 'R', 'O', 'M'],
        "IN"@ == seq!['I', 'N'],
        "LIKE"@ == seq!['L', 'I', 'K', 'E'],
        "WHERE"@ == seq!['W', 'H', 'E', 'R', 'E'],
        "COLUMNS"@ == seq!['C', 'O', 'L', 'U', 'M', 'N', 'S'],
        "FIELDS"@ == seq!['F', 'I', 'E', 'L', 'D', 'S'],
        "TABLES"@ == seq!['T', 'A', 'B', 'L', 'E', 'S'],
        "GLOBAL"@ == seq!['G', 'L', 'O', 'B', 'A', 'L'],
        "SESSION"@ == seq!['S', 'E', 'S', 'S', 'I', 'O', 'N'],
        "VARIABLES"@ == seq!['V', 'A', 'R', 'I', 'A', 'B', 'L', 'E', 'S'],
        "NO_WRITE_TO_BINLOG"@.len() == 18,
        "LOCAL"@ == seq!['L', 'O', 'C', 'A', 'L'],
        "TABLE"@ == seq!['T', 'A', 'B', 'L', 'E'],
{
    reveal_strlit("SHOW");
    assert("SHOW"@ =~= seq!['S', 'H', 'O', 'W']);
    reveal_strlit("FULL");
    assert("FULL"@ =~= seq!['F', 'U', 'L', 'L']);
    reveal_strlit("FROM");
    assert("FROM"@ =~= seq!['F', 'R', 'O', 'M']);
    reveal_strlit("IN");
    assert("IN"@ =~= seq!['I', 'N']);
    reveal_strlit("LIKE");
    assert("LIKE"@ =~= seq!['L', 'I', 'K', 'E']);
    reveal_strlit("WHERE");
    assert("WHERE"@ =~= seq!['W', 'H', 'E', 'R', 'E']);
    reveal_strlit("COLUMNS");
    assert("COLUMNS"@ =~= seq!['C', 'O', 'L', 'U', 'M', 'N', 'S']);
    reveal_strlit("FIELDS");
    assert("FIELDS"@ =~= seq!['F', 'I', 'E', 'L', 'D', 'S']);
    reveal_strlit("TABLES");
    assert("TABLES"@ =~= seq!['T', 'A', 'B', 'L', 'E', 'S']);
    reveal_strlit("GLOBAL");
    assert("GLOBAL"@ =~= seq!['G', 'L', 'O', 'B', 'A', 'L']);
    reveal_strlit("SESSION");
    assert("SESSION"@ =~= seq!['S', 'E', 'S', 'S', 'I', 'O', 'N']);
    reveal_strlit("VARIABLES");
    assert("VARIABLES"@ =~= seq!['V', 'A', 'R', 'I', 'A', 'B', 'L', 'E', 'S']);
    reveal_strlit("NO_WRITE_TO_BINLOG");
    reveal_strlit("LOCAL");
    assert("LOCAL"@ =~= seq!['L', 'O', 'C', 'A', 'L']);
    reveal_strlit("TABLE");
    assert("TABLE"@ =~= seq!['T', 'A', 'B', 'L', 'E']);
}

/// What can stand behind the table: nothing, or a database, which says nothing.
proof fn behind_the_table(t: Seq<Seq<char>>, k: int)
    requires
        0 <= k <= t.len(),
    ensures
        k == t.len() ==> show::after_database(t, k) == Some(k),
        k < t.len() && (says(t[k], "FROM"@) || says(t[k], "IN"@)) ==> show::after_database(t, k)
            == (if k + 1 < t.len() {
            Some(k + 2)
        } else {
            None
        }),
        k < t.len() && (says(t[k], "LIKE"@) || says(t[k], "WHERE"@)) ==> show::after_database(t, k)
            == Some(k),
{
    spelled();
    if k < t.len() {
        keywords(t, k, "FROM"@);
        keywords(t, k, "IN"@);
        if says(t[k], "LIKE"@) {
            words_differ(t[k], "LIKE"@, "FROM"@, 0);
            words_differ(t[k], "LIKE"@, "IN"@, 0);
        }
        if says(t[k], "WHERE"@) {
            words_differ(t[k], "WHERE"@, "FROM"@, 0);
            words_differ(t[k], "WHERE"@, "IN"@, 0);
        }
    }
}

/// A table is named by one token, or by a database, a dot and a token.
proof fn table_names(t: Seq<Seq<char>>, k: int)
    requires
        0 <= k < t.len(),
    ensures
        k + 1 == t.len() ==> show::table_name(t, k) == Some((t[k], k + 1)),
        k + 1 < t.len() && t[k + 1] != seq!['.'] ==> show::table_name(t, k) == Some((t[k], k + 1)),
        k + 2 < t.len() && t[k + 1] == seq!['.'] ==> show::table_name(t, k) == Some(
            (t[k + 2], k + 3),
        ),
        k + 2 == t.len() && t[k + 1] == seq!['.'] ==> show::table_name(t, k) is None,
{
}

/// `SHOW [FULL] COLUMNS|FIELDS FROM|IN table`, with a database in front of the table or
/// behind it, asks for all columns; `LIKE 'pattern'` asks for those whose name is like
/// it; `WHERE column = value` and `WHERE column LIKE value` for those whose column of
/// the answer is that, or like that.
#[verifier::rlimit(60)]
pub proof fn show_columns_forms(sql: Seq<char>, full: bool)
    requires
        ({
            let t = show::statement_tokens(sql);
            let k: int = if full {
                2
            } else {
                1
            };
            &&& t.len() >= k + 2
            &&& says(t[0], "SHOW"@)
            &&& full ==> says(t[1], "FULL"@)
            &&& says(t[k], "COLUMNS"@) || says(t[k], "FIELDS"@)
            &&& says(t[k + 1], "FROM"@) || says(t[k + 1], "IN"@)
        }),
    ensures
        ({
            let t = show::statement_tokens(sql);
            let k: int = if full {
                2
            } else {
                1
            };
            let r = show::show_columns(sql);
            &&& t.len() == k + 2 ==> r is None
            &&& t.len() == k + 3 ==> r == Some(
                ShowColumnsView { full, table: t[k + 2], filter: None },
            )
            &&& t.len() == k + 5 && t[k + 3] == seq!['.'] ==> r == Some(
                ShowColumnsView { full, table: t[k + 4], filter: None },
            )
            &&& t.len() == k + 5 && (says(t[k + 3], "FROM"@) || says(t[k + 3], "IN"@)) ==> r == Some(
                ShowColumnsView { full, table: t[k + 2], filter: None },
            )
            &&& t.len() == k + 5 && says(t[k + 3], "LIKE"@) ==> r == match show::unquoted(t[k + 4]) {
                Some(pattern) => Some(
                    ShowColumnsView {
                        full,
                        table: t[k + 2],
                        filter: Some(
                            FilterView { column: "Field"@, like: true, value: pattern },
                        ),
                    },
                ),
                None => None,
            }
            &&& t.len() == k + 7 && says(t[k + 3], "WHERE"@) && show::has_header(
                show::column_headers_spec(full),
                t[k + 4],
            ) && (t[k + 5] == seq!['='] || says(t[k + 5], "LIKE"@)) ==> r == Some(
                ShowColumnsView {
                    full,
                    table: t[k + 2],
                    filter: Some(
                        FilterView {
                            column: t[k + 4],
                            like: t[k + 5] != seq!['='],
                            value: match show::unquoted(t[k + 6]) {
                                Some(v) => v,
                                None => t[k + 6],
                            },
                        },
                    ),
                },
            )
        }),
{
    let t = show::statement_tokens(sql);
    let k: int = if full {
        2
    } else {
        1
    };
    spelled();
    keywords(t, 0, "SHOW"@);
    keywords(t, 1, "FULL"@);
    keywords(t, k, "COLUMNS"@);
    keywords(t, k, "FIELDS"@);
    keywords(t, k + 1, "FROM"@);
    keywords(t, k + 1, "IN"@);
    if !full {
        if says(t[1], "COLUMNS"@) {
            words_differ(t[1], "COLUMNS"@, "FULL"@, 0);
        } else {
            words_differ(t[1], "FIELDS"@, "FULL"@, 0);
        }
    }
    if t.len() >= k + 3 {
        table_names(t, k + 2);
        behind_the_table(t, k + 3);
    }
    if t.len() == k + 5 {
        behind_the_table(t, k + 5);
        keywords(t, k + 3, "LIKE"@);
        keywords(t, k + 3, "WHERE"@);
        if t[k + 3] == seq!['.'] {
            assert(t[k + 3].len() == 1);
        }
    }
    if t.len() == k + 7 {
        keywords(t, k + 3, "LIKE"@);
        keywords(t, k + 3, "WHERE"@);
        keywords(t, k + 5, "LIKE"@);
        if says(t[k + 3], "WHERE"@) {
            words_differ(t[k + 3], "WHERE"@, "LIKE"@, 0);
        }
        if says(t[k + 5], "LIKE"@) {
            assert(t[k + 5].len() == 4);
        }
    }
}

/// `DESCRIBE table` and `DESC table`, with a database in front or without, ask for all
/// columns; anything behind the table is not understood.
pub proof fn describe_forms(sql: Seq<char>)
    requires
        ({
            let t = show::statement_tokens(sql);
            t.len() >= 1 && (says(t[0], "DESCRIBE"@) || says(t[0], "DESC"@))
        }),
    ensures
        ({
            let t = show::statement_tokens(sql);
            let r = show::describe(sql);
            &&& t.len() == 1 ==> r is None
            &&& t.len() == 2 ==> r == Some(
                ShowColumnsView { full: false, table: t[1], filter: None },
            )
            &&& t.len() == 4 && t[2] == seq!['.'] ==> r == Some(
                ShowColumnsView { full: false, table: t[3], filter: None },
            )
            &&& t.len() >= 3 && t[2] != seq!['.'] ==> r is None
        }),
{
    let t = show::statement_tokens(sql);
    keywords(t, 0, "DESCRIBE"@);
    keywords(t, 0, "DESC"@);
}

/// `SHOW INDEX|INDEXES|KEYS FROM|IN table` asks for all indexes, and with `WHERE column
/// = value` or `LIKE value` for those whose column of the answer is that, or like that.
#[verifier::rlimit(60)]
pub proof fn show_index_forms(sql: Seq<char>)
    requires
        ({
            let t = show::statement_tokens(sql);
            &&& t.len() >= 3
            &&& says(t[0], "SHOW"@)
            &&& says(t[1], "INDEX"@) || says(t[1], "INDEXES"@) || says(t[1], "KEYS"@)
            &&& says(t[2], "FROM"@) || says(t[2], "IN"@)
        }),
    ensures
        ({
            let t = show::statement_tokens(sql);
            let r = show::show_index(sql);
            &&& t.len() == 3 ==> r is None
            &&& t.len() == 4 ==> r == Some(ShowIndexView { table: t[3], filter: None })
            &&& t.len() == 6 && t[4] == seq!['.'] ==> r == Some(
                ShowIndexView { table: t[5], filter: None },
            )
            &&& t.len() == 6 && (says(t[4], "FROM"@) || says(t[4], "IN"@)) ==> r == Some(
                ShowIndexView { table: t[3], filter: None },
            )
            &&& t.len() == 8 && says(t[4], "WHERE"@) && show::has_header(
                show::index_headers_spec(),
                t[5],
            ) && (t[6] == seq!['='] || says(t[6], "LIKE"@)) ==> r == Some(
                ShowIndexView {
                    table: t[3],
                    filter: Some(
                        FilterView {
                            column: t[5],
                            like: t[6] != seq!['='],
                            value: match show::unquoted(t[7]) {
                                Some(v) => v,
                                None => t[7],
                            },
                        },
                    ),
                },
            )
        }),
{
    let t = show::statement_tokens(sql);
    spelled();
    keywords(t, 0, "SHOW"@);
    keywords(t, 1, "INDEX"@);
    keywords(t, 1, "INDEXES"@);
    keywords(t, 1, "KEYS"@);
    keywords(t, 2, "FROM"@);
    keywords(t, 2, "IN"@);
    if t.len() >= 4 {
        table_names(t, 3);
        behind_the_table(t, 4);
    }
    if t.len() == 6 {
        behind_the_table(t, 6);
        if t[4] == seq!['.'] {
            assert(t[4].len() == 1);
        }
    }
    if t.len() == 8 {
        keywords(t, 4, "WHERE"@);
        keywords(t, 6, "LIKE"@);
        if says(t[6], "LIKE"@) {
            assert(t[6].len() == 4);
        }
    }
}

/// `SHOW [FULL] TABLES`, with a database behind it or without, asks for all tables, and
/// with `LIKE 'pattern'` for those whose name is like it.
#[verifier::rlimit(60)]
pub proof fn show_tables_forms(sql: Seq<char>, full: bool)
    requires
        ({
            let t = show::statement_tokens(sql);
            let k: int = if full {
                2
            } else {
                1
            };
            &&& t.len() >= k + 1
            &&& says(t[0], "SHOW"@)
            &&& full ==> says(t[1], "FULL"@)
            &&& says(t[k], "TABLES"@)
        }),
    ensures
        ({
            let t = show::statement_tokens(sql);
            let k: int = if full {
                2
            } else {
                1
            };
            let r = show::show_tables(sql);
            &&& t.len() == k + 1 ==> r == Some(ShowTablesView { full, like: None })
            &&& t.len() == k + 3 && (says(t[k + 1], "FROM"@) || says(t[k + 1], "IN"@)) ==> r == Some(
                ShowTablesView { full, like: None },
            )
            &&& t.len() == k + 3 && says(t[k + 1], "LIKE"@) ==> r == match show::bare(t[k + 2]) {
                Some(pattern) => Some(ShowTablesView { full, like: Some(pattern) }),
                None => None,
            }
            &&& t.len() == k + 5 && (says(t[k + 1], "FROM"@) || says(t[k + 1], "IN"@)) && says(
                t[k + 3],
                "LIKE"@,
            ) ==> r == match show::bare(t[k + 4]) {
                Some(pattern) => Some(ShowTablesView { full, like: Some(pattern) }),
                None => None,
            }
        }),
{
    let t = show::statement_tokens(sql);
    let k: int = if full {
        2
    } else {
        1
    };
    spelled();
    keywords(t, 0, "SHOW"@);
    keywords(t, 1, "FULL"@);
    keywords(t, k, "TABLES"@);
    if !full {
        words_differ(t[1], "TABLES"@, "FULL"@, 0);
    }
    behind_the_table(t, k + 1);
    if t.len() >= k + 2 {
        keywords(t, k + 1, "LIKE"@);
    }
    if t.len() == k + 5 {
        keywords(t, k + 3, "LIKE"@);
    }
}

/// `SHOW [GLOBAL|SESSION] VARIABLES` asks for all variables, and with `LIKE 'pattern'`
/// for those whose name is like it.
pub proof fn show_variables_forms(sql: Seq<char>, scoped: bool)
    requires
        ({
            let t = show::statement_tokens(sql);
            let k: int = if scoped {
                2
            } else {
                1
            };
            &&& t.len() >= k + 1
            &&& says(t[0], "SHOW"@)
            &&& scoped ==> says(t[1], "GLOBAL"@) || says(t[1], "SESSION"@)
            &&& says(t[k], "VARIABLES"@)
        }),
    ensures
        ({
            let t = show::statement_tokens(sql);
            let k: int = if scoped {
                2
            } else {
                1
            };
            let r = show::show_variables(sql);
            &&& t.len() == k + 1 ==> r == Some(None::<Seq<char>>)
            &&& t.len() == k + 3 && says(t[k + 1], "LIKE"@) ==> r == match show::bare(t[k + 2]) {
                Some(pattern) => Some(Some(pattern)),
                None => None,
            }
        }),
{
    let t = show::statement_tokens(sql);
    let k: int = if scoped {
        2
    } else {
        1
    };
    spelled();
    keywords(t, 0, "SHOW"@);
    keywords(t, 1, "GLOBAL"@);
    keywords(t, 1, "SESSION"@);
    keywords(t, k, "VARIABLES"@);
    if !scoped {
        words_differ(t[1], "VARIABLES"@, "GLOBAL"@, 0);
        words_differ(t[1], "VARIABLES"@, "SESSION"@, 0);
    }
    if t.len() >= k + 2 {
        keywords(t, k + 1, "LIKE"@);
    }
}

/// `SHOW TABLE STATUS`, with a database or without, asks for all tables; `LIKE
/// 'pattern'` and `WHERE Name LIKE 'pattern'` for those whose name is like it, and
/// `WHERE Name = 'name'` for the one of that name.
#[verifier::rlimit(60)]
pub proof fn show_table_status_forms(sql: Seq<char>)
    requires
        ({
            let t = show::statement_tokens(sql);
            &&& t.len() >= 3
            &&& says(t[0], "SHOW"@)
            &&& says(t[1], "TABLE"@)
            &&& says(t[2], "STATUS"@)
        }),
    ensures
        ({
            let t = show::statement_tokens(sql);
            let r = show::show_table_status(sql);
            &&& t.len() == 3 ==> r == Some(None::<(bool, Seq<char>)>)
            &&& t.len() == 5 && (says(t[3], "FROM"@) || says(t[3], "IN"@)) ==> r == Some(
                None::<(bool, Seq<char>)>,
            )
            &&& t.len() == 5 && says(t[3], "LIKE"@) ==> r == match show::unquoted(t[4]) {
                Some(v) => Some(Some((true, v))),
                None => None,
            }
            &&& t.len() == 7 && says(t[3], "WHERE"@) && says(t[4], "Name"@) && t[5] == seq!['=']
                ==> r == match show::unquoted(t[6]) {
                Some(v) => Some(Some((false, v))),
                None => None,
            }
            &&& t.len() == 7 && says(t[3], "WHERE"@) && says(t[4], "Name"@) && says(t[5], "LIKE"@)
                ==> r == match show::unquoted(t[6]) {
                Some(v) => Some(Some((true, v))),
                None => None,
            }
        }),
{
    let t = show::statement_tokens(sql);
    spelled();
    keywords(t, 0, "SHOW"@);
    keywords(t, 1, "TABLE"@);
    keywords(t, 2, "STATUS"@);
    behind_the_table(t, 3);
    if t.len() >= 4 {
        keywords(t, 3, "LIKE"@);
        keywords(t, 3, "WHERE"@);
        if says(t[3], "WHERE"@) {
            words_differ(t[3], "WHERE"@, "LIKE"@, 0);
        }
    }
    if t.len() == 7 {
        keywords(t, 4, "Name"@);
        keywords(t, 5, "LIKE"@);
        if says(t[5], "LIKE"@) {
            assert(t[5].len() == 4);
        }
    }
}

/// There are no warnings, no errors, no triggers, no events and no routines: asked for
/// them, the answer has columns and no rows.
pub proof fn nothing_to_enumerate(sql: Seq<char>)
    ensures
        ({
            let t = show::statement_tokens(sql);
            &&& t.len() == 2 && says(t[0], "SHOW"@) && (says(t[1], "WARNINGS"@) || says(
                t[1],
                "ERRORS"@,
            )) ==> (show::show_warnings(sql) matches Some(r) && r.rows.len() == 0 && r.columns
                == seq!["Level"@, "Code"@, "Message"@])
            &&& t.len() >= 3 && says(t[0], "SHOW"@) && (says(t[1], "WARNINGS"@) || says(
                t[1],
                "ERRORS"@,
            )) ==> (show::show_warnings(sql) is Some <==> says(t[2], "LIMIT"@))
            &&& t.len() >= 2 && says(t[0], "SHOW"@) && says(t[1], "TRIGGERS"@) ==> (
            show::show_empty_enumeration(sql) matches Some(r) && r.rows.len() == 0
                && r.columns.len() == 11)
            &&& t.len() >= 2 && says(t[0], "SHOW"@) && says(t[1], "EVENTS"@) ==> (
            show::show_empty_enumeration(sql) matches Some(r) && r.rows.len() == 0)
            &&& t.len() >= 3 && says(t[0], "SHOW"@) && (says(t[1], "PROCEDURE"@) || says(
                t[1],
                "FUNCTION"@,
            )) && says(t[2], "STATUS"@) ==> (show::show_empty_enumeration(sql) matches Some(r)
                && r.rows.len() == 0)
        }),
{
    let t = show::statement_tokens(sql);
    if t.len() >= 1 {
        keywords(t, 0, "SHOW"@);
    }
    if t.len() >= 2 {
        keywords(t, 1, "WARNINGS"@);
        keywords(t, 1, "ERRORS"@);
        keywords(t, 1, "TRIGGERS"@);
        keywords(t, 1, "EVENTS"@);
        keywords(t, 1, "PROCEDURE"@);
        keywords(t, 1, "FUNCTION"@);
    }
    if t.len() >= 3 {
        keywords(t, 2, "STATUS"@);
        keywords(t, 2, "LIMIT"@);
    }
}

/// `ANALYZE`, `CHECK`, `OPTIMIZE` and `REPAIR TABLE` report for the table that it is
/// fine, each under its own name.
#[verifier::rlimit(60)]
pub proof fn maintenance_reports_ok(sql: Seq<char>, word: Seq<char>, op: Seq<char>)
    requires
        ({
            let t = show::statement_tokens(sql);
            &&& t.len() == 3
            &&& says(t[0], word)
            &&& says(t[1], "TABLE"@)
            &&& {
                ||| word == "ANALYZE"@ && op == "analyze"@
                ||| word == "CHECK"@ && op == "check"@
                ||| word == "OPTIMIZE"@ && op == "optimize"@
                ||| word == "REPAIR"@ && op == "repair"@
            }
        }),
    ensures
        ({
            let t = show::statement_tokens(sql);
            show::maintenance(sql) matches Some(r) && {
                &&& r.columns == seq!["Table"@, "Op"@, "Msg_type"@, "Msg_text"@]
                &&& r.rows.len() == 1
                &&& r.rows[0] == seq![Some(t[2]), Some(op), Some("status"@), Some("OK"@)]
            }
        }),
{
    let t = show::statement_tokens(sql);
    spelled();
    reveal_strlit("ANALYZE");
    reveal_strlit("CHECK");
    reveal_strlit("OPTIMIZE");
    reveal_strlit("REPAIR");
    assert("ANALYZE"@.len() == 7 && "CHECK"@.len() == 5 && "OPTIMIZE"@.len() == 8 && "REPAIR"@.len()
        == 6);
    keywords(t, 0, "ANALYZE"@);
    keywords(t, 0, "CHECK"@);
    keywords(t, 0, "OPTIMIZE"@);
    keywords(t, 0, "REPAIR"@);
    keywords(t, 1, "TABLE"@);
    keywords(t, 1, "NO_WRITE_TO_BINLOG"@);
    keywords(t, 1, "LOCAL"@);
    if says(t[1], "LOCAL"@) {
        assert(text::lower_char(t[1][0]) == 't');
        assert(text::lower_char("TABLE"@[0]) == 't');
        assert(text::lower_char("LOCAL"@[0]) == 'l');
    }
    assert(show::table_list(t, 2) == Some(seq![t[2]]));
}

/// Several tables are listed with commas between them.
pub proof fn tables_are_listed(t: Seq<Seq<char>>, k: int)
    requires
        0 <= k < t.len(),
    ensures
        k + 1 == t.len() ==> show::table_list(t, k) == Some(seq![t[k]]),
        k + 2 < t.len() && t[k + 1] == seq![','] ==> show::table_list(t, k) == match show::table_list(
            t,
            k + 2,
        ) {
            Some(rest) => Some(seq![t[k]] + rest),
            None => None,
        },
        k + 3 == t.len() && t[k + 1] == seq!['.'] ==> show::table_list(t, k) == Some(seq![t[k + 2]]),
{
    if k + 1 < t.len() && t[k + 1] == seq![','] {
        assert(t[k + 1][0] == ',');
        assert(seq!['.'][0] == '.');
        assert(t[k + 1] != seq!['.']);
    }
}

proof fn says_both_ways(a: Seq<char>, b: Seq<char>)
    ensures
        says(a, b) == says(b, a),
{
    if says(a, b) {
        assert forall|k: int| 0 <= k < b.len() implies text::lower_char(#[trigger] b[k])
            == text::lower_char(a[k]) by {
            assert(text::lower_char(a[k]) == text::lower_char(b[k]));
        }
    }
    if says(b, a) {
        assert forall|k: int| 0 <= k < a.len() implies text::lower_char(#[trigger] a[k])
            == text::lower_char(b[k]) by {
            assert(text::lower_char(b[k]) == text::lower_char(a[k]));
        }
    }
}

proof fn keyword_stands(t: Seq<Seq<char>>, k: int, word: Seq<char>)
    ensures
        show::kw(t, k, word) <==> 0 <= k < t.len() && says(t[k], word),
{
    if 0 <= k < t.len() {
        keywords(t, k, word);
    }
}

proof fn header_is_said(headers: Seq<Seq<char>>, name: Seq<char>, i: int)
    ensures
        0 <= i < headers.len() && says(name, headers[i]) ==> show::has_header(headers, name),
        show::has_header(headers, name) ==> exists|j: int|
            0 <= j < headers.len() && says(name, #[trigger] headers[j]),
{
    if 0 <= i < headers.len() && says(name, headers[i]) {
        says_both_ways(name, headers[i]);
        says_is_fold(headers[i], name);
        assert(text::fold_eq(headers[i], name));
    }
    if show::has_header(headers, name) {
        let j = choose|j: int| 0 <= j < headers.len() && #[trigger] text::fold_eq(headers[j], name);
        says_is_fold(headers[j], name);
        says_both_ways(name, headers[j]);
        assert(says(name, headers[j]));
    }
}

/// A condition on the columns of a table is over a column of the answer, whatever its
/// case: `Collation`, `Privileges` and `Comment` are only in the full answer.
pub proof fn conditions_are_over_columns(name: Seq<char>)
    ensures
        show::has_header(show::column_headers_spec(false), name) <==> {
            ||| says(name, "Field"@)
            ||| says(name, "Type"@)
            ||| says(name, "Null"@)
            ||| says(name, "Key"@)
            ||| says(name, "Default"@)
            ||| says(name, "Extra"@)
        },
        show::has_header(show::column_headers_spec(true), name) <==> {
            ||| show::has_header(show::column_headers_spec(false), name)
            ||| says(name, "Collation"@)
            ||| says(name, "Privileges"@)
            ||| says(name, "Comment"@)
        },
{
    let few = show::column_headers_spec(false);
    let all = show::column_headers_spec(true);
    assert forall|i: int| says(name, #[trigger] few[i]) && 0 <= i < 6 implies show::has_header(
        few,
        name,
    ) by {
        header_is_said(few, name, i);
    }
    assert forall|i: int| says(name, #[trigger] all[i]) && 0 <= i < 9 implies show::has_header(
        all,
        name,
    ) by {
        header_is_said(all, name, i);
    }
    header_is_said(few, name, 0);
    header_is_said(all, name, 0);
    assert(few[0] == "Field"@ && few[1] == "Type"@ && few[2] == "Null"@ && few[3] == "Key"@ && few[4]
        == "Default"@ && few[5] == "Extra"@);
    assert(all[0] == "Field"@ && all[1] == "Type"@ && all[2] == "Collation"@ && all[3] == "Null"@
        && all[4] == "Key"@ && all[5] == "Default"@ && all[6] == "Extra"@ && all[7]
        == "Privileges"@ && all[8] == "Comment"@);
}

/// Nothing but `SHOW [FULL] COLUMNS|FIELDS FROM|IN table` asks for the columns of a
/// table, and what it asks for is said at its end.
#[verifier::rlimit(60)]
pub proof fn nothing_else_shows_columns(sql: Seq<char>)
    ensures
        show::show_columns(sql) matches Some(r) ==> ({
            let t = show::statement_tokens(sql);
            let n = t.len() as int;
            let k: int = if r.full {
                2
            } else {
                1
            };
            &&& n >= k + 3
            &&& says(t[0], "SHOW"@)
            &&& r.full <==> says(t[1], "FULL"@)
            &&& says(t[k], "COLUMNS"@) || says(t[k], "FIELDS"@)
            &&& says(t[k + 1], "FROM"@) || says(t[k + 1], "IN"@)
            &&& r.table == t[k + 2] || (n >= k + 5 && t[k + 3] == seq!['.'] && r.table == t[k + 4])
            &&& r.filter is None ==> n == k + 3 || n == k + 5 || n == k + 7
            &&& (r.filter matches Some(f) ==> {
                ||| says(t[n - 2], "LIKE"@) && f.column == "Field"@ && f.like && show::unquoted(
                    t[n - 1],
                ) == Some(f.value)
                ||| says(t[n - 4], "WHERE"@) && f.column == t[n - 3] && show::has_header(
                    show::column_headers_spec(r.full),
                    t[n - 3],
                ) && (if f.like {
                    says(t[n - 2], "LIKE"@)
                } else {
                    t[n - 2] == seq!['=']
                })
            })
        }),
{
    let t = show::statement_tokens(sql);
    let n = t.len() as int;
    keyword_stands(t, 0, "SHOW"@);
    keyword_stands(t, 1, "FULL"@);
    let k: int = if show::kw(t, 1, "FULL"@) {
        2
    } else {
        1
    };
    keyword_stands(t, k, "COLUMNS"@);
    keyword_stands(t, k, "FIELDS"@);
    keyword_stands(t, k + 1, "FROM"@);
    keyword_stands(t, k + 1, "IN"@);
    keyword_stands(t, n - 2, "LIKE"@);
    keyword_stands(t, n - 4, "WHERE"@);
}

/// Nothing but `DESCRIBE` and `DESC` with a table describes one.
pub proof fn nothing_else_describes(sql: Seq<char>)
    ensures
        show::describe(sql) matches Some(r) ==> ({
            let t = show::statement_tokens(sql);
            &&& t.len() == 2 || (t.len() == 4 && t[2] == seq!['.'])
            &&& says(t[0], "DESCRIBE"@) || says(t[0], "DESC"@)
            &&& r.table == t.last()
            &&& !r.full
            &&& r.filter is None
        }),
{
    let t = show::statement_tokens(sql);
    keyword_stands(t, 0, "DESCRIBE"@);
    keyword_stands(t, 0, "DESC"@);
}

/// Nothing but `SHOW INDEX|INDEXES|KEYS FROM|IN table` asks for the indexes of a table.
#[verifier::rlimit(60)]
pub proof fn nothing_else_shows_indexes(sql: Seq<char>)
    ensures
        show::show_index(sql) matches Some(r) ==> ({
            let t = show::statement_tokens(sql);
            let n = t.len() as int;
            &&& n >= 4
            &&& says(t[0], "SHOW"@)
            &&& says(t[1], "INDEX"@) || says(t[1], "INDEXES"@) || says(t[1], "KEYS"@)
            &&& says(t[2], "FROM"@) || says(t[2], "IN"@)
            &&& r.table == t[3] || (n >= 6 && t[4] == seq!['.'] && r.table == t[5])
            &&& r.filter is None ==> n == 4 || n == 6 || n == 8
            &&& (r.filter matches Some(f) ==> says(t[n - 4], "WHERE"@) && f.column == t[n - 3]
                && show::has_header(show::index_headers_spec(), t[n - 3]) && (if f.like {
                says(t[n - 2], "LIKE"@)
            } else {
                t[n - 2] == seq!['=']
            }))
        }),
{
    let t = show::statement_tokens(sql);
    let n = t.len() as int;
    keyword_stands(t, 0, "SHOW"@);
    keyword_stands(t, 1, "INDEX"@);
    keyword_stands(t, 1, "INDEXES"@);
    keyword_stands(t, 1, "KEYS"@);
    keyword_stands(t, 2, "FROM"@);
    keyword_stands(t, 2, "IN"@);
    keyword_stands(t, n - 2, "LIKE"@);
    keyword_stands(t, n - 4, "WHERE"@);
}

/// Nothing but `SHOW [FULL] TABLES` asks for the tables, and nothing but `SHOW
/// [GLOBAL|SESSION] VARIABLES` for the variables; a pattern is what `LIKE` says at the
/// end.
#[verifier::rlimit(60)]
pub proof fn nothing_else_lists(sql: Seq<char>)
    ensures
        show::show_tables(sql) matches Some(r) ==> ({
            let t = show::statement_tokens(sql);
            let n = t.len() as int;
            let k: int = if r.full {
                2
            } else {
                1
            };
            &&& n >= k + 1
            &&& says(t[0], "SHOW"@)
            &&& r.full <==> n > 1 && says(t[1], "FULL"@)
            &&& says(t[k], "TABLES"@)
            &&& r.like is None ==> n == k + 1 || n == k + 3
            &&& (r.like matches Some(p) ==> says(t[n - 2], "LIKE"@) && show::bare(t[n - 1]) == Some(
                p,
            ))
        }),
        show::show_variables(sql) matches Some(like) ==> ({
            let t = show::statement_tokens(sql);
            let n = t.len() as int;
            &&& n >= 2
            &&& says(t[0], "SHOW"@)
            &&& says(t[1], "VARIABLES"@) || (n >= 3 && says(t[2], "VARIABLES"@) && (says(
                t[1],
                "GLOBAL"@,
            ) || says(t[1], "SESSION"@)))
            &&& like is None ==> n == 2 || n == 3
            &&& (like matches Some(p) ==> says(t[n - 2], "LIKE"@) && show::bare(t[n - 1]) == Some(p))
        }),
{
    let t = show::statement_tokens(sql);
    let n = t.len() as int;
    keyword_stands(t, 0, "SHOW"@);
    keyword_stands(t, 1, "FULL"@);
    keyword_stands(t, 1, "TABLES"@);
    keyword_stands(t, 2, "TABLES"@);
    keyword_stands(t, 1, "GLOBAL"@);
    keyword_stands(t, 1, "SESSION"@);
    keyword_stands(t, 1, "VARIABLES"@);
    keyword_stands(t, 2, "VARIABLES"@);
    keyword_stands(t, n - 2, "LIKE"@);
}

/// Nothing but `SHOW TABLE STATUS` asks for the state of the tables, nothing but `SHOW
/// WARNINGS` and `SHOW ERRORS` for diagnostics, and nothing but `SHOW TRIGGERS`,
/// `EVENTS`, `PROCEDURE STATUS` and `FUNCTION STATUS` is answered without rows.
#[verifier::rlimit(60)]
pub proof fn nothing_else_is_enumerated(sql: Seq<char>)
    ensures
        ({
            let t = show::statement_tokens(sql);
            let n = t.len() as int;
            &&& (show::show_table_status(sql) matches Some(filter) ==> {
                &&& n >= 3
                &&& says(t[0], "SHOW"@) && says(t[1], "TABLE"@) && says(t[2], "STATUS"@)
                &&& filter is None ==> n == 3 || n == 5
                &&& (filter matches Some(f) ==> {
                    &&& show::unquoted(t[n - 1]) == Some(f.1)
                    &&& if f.0 {
                        says(t[n - 2], "LIKE"@)
                    } else {
                        t[n - 2] == seq!['='] && says(t[n - 3], "Name"@) && says(t[n - 4], "WHERE"@)
                    }
                })
            })
            &&& show::show_warnings(sql) is Some ==> n >= 2 && says(t[0], "SHOW"@) && (says(
                t[1],
                "WARNINGS"@,
            ) || says(t[1], "ERRORS"@)) && (n == 2 || says(t[2], "LIMIT"@))
            &&& show::show_empty_enumeration(sql) is Some ==> n >= 2 && says(t[0], "SHOW"@) && {
                ||| says(t[1], "TRIGGERS"@)
                ||| says(t[1], "EVENTS"@)
                ||| (says(t[1], "PROCEDURE"@) || says(t[1], "FUNCTION"@)) && n >= 3 && says(
                    t[2],
                    "STATUS"@,
                )
            }
        }),
{
    let t = show::statement_tokens(sql);
    let n = t.len() as int;
    keyword_stands(t, 0, "SHOW"@);
    keyword_stands(t, 1, "TABLE"@);
    keyword_stands(t, 2, "STATUS"@);
    keyword_stands(t, n - 2, "LIKE"@);
    keyword_stands(t, n - 3, "Name"@);
    keyword_stands(t, n - 4, "WHERE"@);
    keyword_stands(t, 1, "WARNINGS"@);
    keyword_stands(t, 1, "ERRORS"@);
    keyword_stands(t, 2, "LIMIT"@);
    keyword_stands(t, 1, "TRIGGERS"@);
    keyword_stands(t, 1, "EVENTS"@);
    keyword_stands(t, 1, "PROCEDURE"@);
    keyword_stands(t, 1, "FUNCTION"@);
}

/// Nothing but `ANALYZE`, `CHECK`, `OPTIMIZE` and `REPAIR`, each with `TABLE`, maintains
/// tables, and every table of the list is reported on.
pub proof fn nothing_else_maintains(sql: Seq<char>)
    ensures
        show::maintenance(sql) matches Some(r) ==> ({
            let t = show::statement_tokens(sql);
            &&& t.len() >= 3
            &&& says(t[0], "ANALYZE"@) || says(t[0], "CHECK"@) || says(t[0], "OPTIMIZE"@) || says(
                t[0],
                "REPAIR"@,
            )
            &&& says(t[1], "TABLE"@) || (t.len() >= 4 && says(t[2], "TABLE"@) && (says(
                t[1],
                "NO_WRITE_TO_BINLOG"@,
            ) || says(t[1], "LOCAL"@)))
            &&& r.rows.len() >= 1
            &&& forall|i: int|
                0 <= i < r.rows.len() ==> (#[trigger] r.rows[i]).len() == 4 && r.rows[i][1]
                    == r.rows[0][1] && r.rows[i][2] == Some("status"@) && r.rows[i][3] == Some(
                    "OK"@,
                )
        }),
{
    let t = show::statement_tokens(sql);
    keyword_stands(t, 0, "ANALYZE"@);
    keyword_stands(t, 0, "CHECK"@);
    keyword_stands(t, 0, "OPTIMIZE"@);
    keyword_stands(t, 0, "REPAIR"@);
    keyword_stands(t, 1, "TABLE"@);
    keyword_stands(t, 2, "TABLE"@);
    keyword_stands(t, 1, "NO_WRITE_TO_BINLOG"@);
    keyword_stands(t, 1, "LOCAL"@);
}

} // verus!
