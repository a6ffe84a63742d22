//! The format of the test files.
//!
//! A file is a sequence of records with blank lines between them. A record opens
//! with a directive; `#` opens a comment line.
//!
//! * `statement ok` and `statement error [code]`: the SQL up to the next blank
//!   line must succeed, or fail, with the given MySQL error number if there is one.
//! * `query`: the SQL up to `----` must give the lines behind it.
//! * `query types` and `query labels`: the same for the types and the names of the
//!   result columns.
//! * `exec ok`, `exec error` and `exec query`: the same with a prepared statement,
//!   whose parameters a line `params` gives, separated by tabs.

use vstd::prelude::*;

use crate::numeric;
use crate::text;

verus! {

/// A record of a test file.
#[derive(Debug, Clone, PartialEq, Eq)]
pub enum Record {
    /// A statement that must succeed or fail, perhaps with a given error number.
    Statement { line: usize, expect_ok: bool, expect_code: Option<u16>, sql: String },
    /// A query and the rows that it must give.
    Query { line: usize, sql: String, expected: Vec<String> },
    /// A query and the types that its columns must have.
    QueryTypes { line: usize, sql: String, expected: Vec<String> },
    /// A query and the names that its columns must have.
    QueryLabels { line: usize, sql: String, expected: Vec<String> },
    /// A prepared statement that must succeed or fail.
    Exec { line: usize, expect_ok: bool, sql: String, params: Vec<String> },
    /// A prepared query and the rows that it must give.
    ExecQuery { line: usize, sql: String, params: Vec<String>, expected: Vec<String> },
}

/// The model of a [`Record`].
pub enum RecordView {
    Statement { line: int, expect_ok: bool, expect_code: Option<u16>, sql: Seq<char> },
    Query { line: int, sql: Seq<char>, expected: Seq<Seq<char>> },
    QueryTypes { line: int, sql: Seq<char>, expected: Seq<Seq<char>> },
    QueryLabels { line: int, sql: Seq<char>, expected: Seq<Seq<char>> },
    Exec { line: int, expect_ok: bool, sql: Seq<char>, params: Seq<Seq<char>> },
    ExecQuery { line: int, sql: Seq<char>, params: Seq<Seq<char>>, expected: Seq<Seq<char>> },
}

impl DeepView for Record {
    type V = RecordView;

    open spec fn deep_view(&self) -> RecordView {
        match *self {
            Record::Statement { line, expect_ok, expect_code, sql } => RecordView::Statement {
                line: line as int,
                expect_ok,
                expect_code,
                sql: sql@,
            },
            Record::Query { line, sql, expected } => RecordView::Query {
                line: line as int,
                sql: sql@,
                expected: expected.deep_view(),
            },
            Record::QueryTypes { line, sql, expected } => RecordView::QueryTypes {
                line: line as int,
                sql: sql@,
                expected: expected.deep_view(),
            },
            Record::QueryLabels { line, sql, expected } => RecordView::QueryLabels {
                line: line as int,
                sql: sql@,
                expected: expected.deep_view(),
            },
            Record::Exec { line, expect_ok, sql, params } => RecordView::Exec {
                line: line as int,
                expect_ok,
                sql: sql@,
                params: params.deep_view(),
            },
            Record::ExecQuery { line, sql, params, expected } => RecordView::ExecQuery {
                line: line as int,
                sql: sql@,
                params: params.deep_view(),
                expected: expected.deep_view(),
            },
        }
    }
}

/// What is wrong with a record.
#[derive(Debug, PartialEq, Eq)]
pub enum Problem {
    /// The kind of block has no `----` line.
    MissingSeparator(&'static str),
    /// The directive has no SQL.
    NoSql(String),
    /// The error number is none.
    BadCode(String),
    /// There is no such directive.
    UnknownDirective(String),
}

/// A record that could not be read, by the line of its directive.
#[derive(Debug, PartialEq, Eq)]
pub struct FormatError {
    pub line: usize,
    pub problem: Problem,
}

/// The model of a [`Problem`].
pub enum ProblemView {
    MissingSeparator(Seq<char>),
    NoSql(Seq<char>),
    BadCode(Seq<char>),
    UnknownDirective(Seq<char>),
}

/// The model of a [`FormatError`].
pub struct FormatErrorView {
    pub line: int,
    pub problem: ProblemView,
}

impl View for FormatError {
    type V = FormatErrorView;

    open spec fn view(&self) -> FormatErrorView {
        FormatErrorView {
            line: self.line as int,
            problem: match self.problem {
                Problem::MissingSeparator(block) => ProblemView::MissingSeparator(block@),
                Problem::NoSql(directive) => ProblemView::NoSql(directive@),
                Problem::BadCode(code) => ProblemView::BadCode(code@),
                Problem::UnknownDirective(directive) => ProblemView::UnknownDirective(directive@),
            },
        }
    }
}

/// The message of an error.
pub open spec fn message_spec(e: FormatErrorView) -> Seq<char> {
    let start = "line "@ + numeric::decimal(e.line as nat) + ": "@;
    match e.problem {
        ProblemView::MissingSeparator(block) => {
            start + block + " block is missing its `----` separator"@
        },
        ProblemView::NoSql(directive) => start + "`"@ + directive + "` has no SQL"@,
        ProblemView::BadCode(code) => start + "invalid error code `"@ + code + "`"@,
        ProblemView::UnknownDirective(directive) => {
            start + "unknown directive `"@ + directive + "`"@
        },
    }
}

impl FormatError {
    /// The error in words.
    pub fn message(&self) -> (r: String)
        ensures
            r@ == message_spec(self@),
    {
        let mut out: Vec<char> = Vec::new();
        text::push_text(&mut out, "line ");
        numeric::push_decimal(&mut out, self.line as u64);
        text::push_text(&mut out, ": ");
        match &self.problem {
            Problem::MissingSeparator(block) => {
                text::push_text(&mut out, block);
                text::push_text(&mut out, " block is missing its `----` separator");
            },
            Problem::NoSql(directive) => {
                text::push_text(&mut out, "`");
                text::push_text(&mut out, directive.as_str());
                text::push_text(&mut out, "` has no SQL");
            },
            Problem::BadCode(code) => {
                text::push_text(&mut out, "invalid error code `");
                text::push_text(&mut out, code.as_str());
                text::push_text(&mut out, "`");
            },
            Problem::UnknownDirective(directive) => {
                text::push_text(&mut out, "unknown directive `");
                text::push_text(&mut out, directive.as_str());
                text::push_text(&mut out, "`");
            },
        }
        assert(out@ =~= message_spec(self@));
        text::string_of(&out)
    }
}

// ---------------------------------------------------------------------------
// Lines
// ---------------------------------------------------------------------------
/// A line without anything on it.
pub open spec fn blank(line: Seq<char>) -> bool {
    text::trimmed(line).len() == 0
}

/// The line between a query and what is expected of it.
pub open spec fn separator(line: Seq<char>) -> bool {
    text::trimmed_end(line) == "----"@
}

/// The first blank line from `i` on, or the end.
pub open spec fn body_end(lines: Seq<Seq<char>>, i: int) -> int
    decreases lines.len() - i,
{
    if i >= lines.len() || i < 0 || blank(lines[i]) {
        i
    } else {
        body_end(lines, i + 1)
    }
}

/// The first separator or blank line from `i` on, or the end.
pub open spec fn query_end(lines: Seq<Seq<char>>, i: int) -> int
    decreases lines.len() - i,
{
    if i >= lines.len() || i < 0 || separator(lines[i]) || blank(lines[i]) {
        i
    } else {
        query_end(lines, i + 1)
    }
}

/// The values of a `params` line; `None` if the line is none.
pub open spec fn params_of(line: Seq<char>) -> Option<Seq<Seq<char>>> {
    let s = text::trimmed(line);
    let rest = s.skip("params"@.len() as int);
    if !text::occurs_at(s, "params"@, 0) || (rest.len() > 0 && rest[0] != ' ' && rest[0] != '\t') {
        None
    } else {
        Some(text::pieces_from(text::trimmed_start(rest), '\t', 0))
    }
}

/// The first `params` line or blank line from `i` on, or the end.
pub open spec fn exec_end(lines: Seq<Seq<char>>, i: int) -> int
    decreases lines.len() - i,
{
    if i >= lines.len() || i < 0 || blank(lines[i]) || params_of(lines[i]) is Some {
        i
    } else {
        exec_end(lines, i + 1)
    }
}

/// Lines `i` to `end` as one text.
pub open spec fn sql_text(lines: Seq<Seq<char>>, i: int, end: int) -> Seq<char> {
    text::joined(lines.subrange(i, end), "\n"@)
}

/// The lines that are not `params` lines.
pub open spec fn sql_lines(lines: Seq<Seq<char>>) -> Seq<Seq<char>>
    decreases lines.len(),
{
    if lines.len() == 0 {
        seq![]
    } else if params_of(lines.last()) is Some {
        sql_lines(lines.drop_last())
    } else {
        sql_lines(lines.drop_last()).push(lines.last())
    }
}

/// The values of the last `params` line, if there is one.
pub open spec fn last_params(lines: Seq<Seq<char>>) -> Seq<Seq<char>>
    decreases lines.len(),
{
    if lines.len() == 0 {
        seq![]
    } else {
        match params_of(lines.last()) {
            Some(values) => values,
            None => last_params(lines.drop_last()),
        }
    }
}

// ---------------------------------------------------------------------------
// Records
// ---------------------------------------------------------------------------
/// An error at the given line.
pub open spec fn problem_at(line: int, problem: ProblemView) -> FormatErrorView {
    FormatErrorView { line, problem }
}

/// The SQL of a statement that starts at `i`, and the position behind it.
pub open spec fn statement_at(
    lines: Seq<Seq<char>>,
    i: int,
    directive: Seq<char>,
    line: int,
) -> Result<(Seq<char>, int), FormatErrorView> {
    let end = body_end(lines, i);
    if end == i {
        Err(problem_at(line, ProblemView::NoSql(directive)))
    } else {
        Ok((sql_text(lines, i, end), end))
    }
}

/// The SQL and the expected lines of a query that starts at `i`, and the position
/// behind them.
pub open spec fn query_at(lines: Seq<Seq<char>>, i: int, block: Seq<char>, line: int) -> Result<
    (Seq<char>, Seq<Seq<char>>, int),
    FormatErrorView,
> {
    let sep = query_end(lines, i);
    if sep >= lines.len() || !separator(lines[sep]) {
        Err(problem_at(line, ProblemView::MissingSeparator(block)))
    } else {
        let end = body_end(lines, sep + 1);
        Ok((sql_text(lines, i, sep), lines.subrange(sep + 1, end), end))
    }
}

/// The SQL and the parameters of a prepared statement that starts at `i`, and the
/// position behind them.
pub open spec fn exec_at(lines: Seq<Seq<char>>, i: int, directive: Seq<char>, line: int) -> Result<
    (Seq<char>, Seq<Seq<char>>, int),
    FormatErrorView,
> {
    let end = exec_end(lines, i);
    if end == i {
        Err(problem_at(line, ProblemView::NoSql(directive)))
    } else if end < lines.len() && !blank(lines[end]) {
        Ok((sql_text(lines, i, end), params_of(lines[end])->0, end + 1))
    } else {
        Ok((sql_text(lines, i, end), seq![], end))
    }
}

/// The SQL, the parameters and the expected lines of a prepared query that starts
/// at `i`, and the position behind them.
pub open spec fn exec_query_at(lines: Seq<Seq<char>>, i: int, line: int) -> Result<
    (Seq<char>, Seq<Seq<char>>, Seq<Seq<char>>, int),
    FormatErrorView,
> {
    let sep = query_end(lines, i);
    if sep >= lines.len() || !separator(lines[sep]) {
        Err(problem_at(line, ProblemView::MissingSeparator("`exec query`"@)))
    } else {
        let body = lines.subrange(i, sep);
        let end = body_end(lines, sep + 1);
        Ok(
            (
                text::joined(sql_lines(body), "\n"@),
                last_params(body),
                lines.subrange(sep + 1, end),
                end,
            ),
        )
    }
}

/// The error number that a directive `statement error [code]` gives: `None` if the
/// directive is another one, `Some(Ok(None))` if it gives none.
pub open spec fn error_code(directive: Seq<char>) -> Option<Result<Option<u16>, Seq<char>>> {
    let prefix = "statement error "@;
    if directive == "statement error"@ {
        Some(Ok(None))
    } else if text::occurs_at(directive, prefix, 0) {
        let code = text::trimmed(directive.skip(prefix.len() as int));
        if code.len() == 0 {
            Some(Ok(None))
        } else {
            match numeric::parsed_unsigned(code, 0xffff) {
                Some(n) => Some(Ok(Some(n as u16))),
                None => Some(Err(code)),
            }
        }
    } else {
        None
    }
}

/// The record that the directive in front of `i` opens, and the position behind it.
pub open spec fn record_at(lines: Seq<Seq<char>>, i: int, directive: Seq<char>) -> Result<
    (RecordView, int),
    FormatErrorView,
> {
    let line = i;
    if directive == "query"@ {
        match query_at(lines, i, "`query`"@, line) {
            Err(e) => Err(e),
            Ok((sql, expected, end)) => Ok((RecordView::Query { line, sql, expected }, end)),
        }
    } else if directive == "statement ok"@ {
        match statement_at(lines, i, directive, line) {
            Err(e) => Err(e),
            Ok((sql, end)) => Ok(
                (
                    RecordView::Statement { line, expect_ok: true, expect_code: None, sql },
                    end,
                ),
            ),
        }
    } else if error_code(directive) is Some {
        match error_code(directive)->0 {
            Err(code) => Err(problem_at(line, ProblemView::BadCode(code))),
            Ok(expect_code) => match statement_at(lines, i, directive, line) {
                Err(e) => Err(e),
                Ok((sql, end)) => Ok(
                    (RecordView::Statement { line, expect_ok: false, expect_code, sql }, end),
                ),
            },
        }
    } else if directive == "query types"@ {
        match query_at(lines, i, "query"@, line) {
            Err(e) => Err(e),
            Ok((sql, expected, end)) => Ok((RecordView::QueryTypes { line, sql, expected }, end)),
        }
    } else if directive == "query labels"@ {
        match query_at(lines, i, "query"@, line) {
            Err(e) => Err(e),
            Ok((sql, expected, end)) => Ok((RecordView::QueryLabels { line, sql, expected }, end)),
        }
    } else if directive == "exec ok"@ || directive == "exec error"@ {
        match exec_at(lines, i, directive, line) {
            Err(e) => Err(e),
            Ok((sql, params, end)) => Ok(
                (
                    RecordView::Exec {
                        line,
                        expect_ok: directive == "exec ok"@,
                        sql,
                        params,
                    },
                    end,
                ),
            ),
        }
    } else if directive == "exec query"@ {
        match exec_query_at(lines, i, line) {
            Err(e) => Err(e),
            Ok((sql, params, expected, end)) => Ok(
                (RecordView::ExecQuery { line, sql, params, expected }, end),
            ),
        }
    } else {
        Err(problem_at(line, ProblemView::UnknownDirective(directive)))
    }
}

/// A line that opens no record: blank, or a comment.
pub open spec fn skipped(line: Seq<char>) -> bool {
    let s = text::trimmed(line);
    s.len() == 0 || s[0] == '#'
}

/// The records from line `i` on.
pub open spec fn records_from(lines: Seq<Seq<char>>, i: int) -> Result<
    Seq<RecordView>,
    FormatErrorView,
>
    decreases lines.len() - i,
{
    if i >= lines.len() || i < 0 {
        Ok(seq![])
    } else if skipped(lines[i]) {
        records_from(lines, i + 1)
    } else {
        match record_at(lines, i + 1, text::trimmed(lines[i])) {
            Err(e) => Err(e),
            Ok((record, end)) => {
                proof {
                    record_moves(lines, i + 1, text::trimmed(lines[i]));
                }
                match records_from(lines, end) {
                    Err(e) => Err(e),
                    Ok(rest) => Ok(seq![record] + rest),
                }
            },
        }
    }
}

proof fn ends_move(lines: Seq<Seq<char>>, i: int)
    ensures
        i <= body_end(lines, i),
        0 <= i <= lines.len() ==> body_end(lines, i) <= lines.len(),
        i <= query_end(lines, i),
        0 <= i <= lines.len() ==> query_end(lines, i) <= lines.len(),
        i <= exec_end(lines, i),
        0 <= i <= lines.len() ==> exec_end(lines, i) <= lines.len(),
    decreases lines.len() - i,
{
    if 0 <= i < lines.len() {
        ends_move(lines, i + 1);
    }
}

/// A record ends at or behind the line that follows its directive.
pub proof fn record_moves(lines: Seq<Seq<char>>, i: int, directive: Seq<char>)
    requires
        0 <= i <= lines.len(),
    ensures
        record_at(lines, i, directive) matches Ok((_, end)) ==> i <= end <= lines.len(),
{
    ends_move(lines, i);
    ends_move(lines, query_end(lines, i) + 1);
}

// ---------------------------------------------------------------------------
// Reading
// ---------------------------------------------------------------------------
fn is_blank(line: &str) -> (r: bool)
    ensures
        r == blank(line@),
{
    let chars = text::chars_of(line);
    text::trim(&chars).len() == 0
}

fn is_separator(line: &str) -> (r: bool)
    ensures
        r == separator(line@),
{
    let chars = text::chars_of(line);
    text::is_text(text::trim_end(&chars), "----")
}

/// The values of a `params` line, separated by tabs; `None` if the line is none.
pub fn parse_params_line(line: &str) -> (r: Option<Vec<String>>)
    ensures
        r.deep_view() == params_of(line@),
{
    let chars = text::chars_of(line);
    let keyword = text::chars_of("params");
    let rest = match text::strip_prefix(text::trim(&chars), &keyword) {
        None => return None,
        Some(rest) => rest,
    };
    if rest.len() > 0 && rest[0] != ' ' && rest[0] != '\t' {
        return None;
    }
    Some(text::split_at_char(text::trim_start(rest), '\t'))
}

/// Copies of lines `from` to `to`.
fn copy_lines(lines: &Vec<String>, from: usize, to: usize) -> (r: Vec<String>)
    requires
        from <= to <= lines@.len(),
    ensures
        r.deep_view() == lines.deep_view().subrange(from as int, to as int),
{
    let mut r: Vec<String> = Vec::new();
    let mut k: usize = from;
    assert(r.deep_view() =~= lines.deep_view().subrange(from as int, from as int));
    while k < to
        invariant
            from <= k <= to <= lines@.len(),
            r.deep_view() == lines.deep_view().subrange(from as int, k as int),
        decreases to - k,
    {
        let ghost before = r.deep_view();
        r.push(lines[k].clone());
        assert(r.deep_view() =~= before.push(lines.deep_view()[k as int]));
        assert(lines.deep_view().subrange(from as int, k + 1) =~= before.push(
            lines.deep_view()[k as int],
        ));
        k = k + 1;
    }
    r
}

/// Lines `from` to `to` as one text.
fn sql_of(lines: &Vec<String>, from: usize, to: usize) -> (r: String)
    requires
        from <= to <= lines@.len(),
    ensures
        r@ == sql_text(lines.deep_view(), from as int, to as int),
{
    text::join(&copy_lines(lines, from, to), "\n")
}

fn find_body_end(lines: &Vec<String>, i: usize) -> (r: usize)
    requires
        i <= lines@.len(),
    ensures
        r == body_end(lines.deep_view(), i as int),
        i <= r <= lines@.len(),
{
    let mut k: usize = i;
    while k < lines.len() && !is_blank(lines[k].as_str())
        invariant
            i <= k <= lines@.len(),
            body_end(lines.deep_view(), i as int) == body_end(lines.deep_view(), k as int),
        decreases lines@.len() - k,
    {
        k = k + 1;
    }
    k
}

fn find_query_end(lines: &Vec<String>, i: usize) -> (r: usize)
    requires
        i <= lines@.len(),
    ensures
        r == query_end(lines.deep_view(), i as int),
        i <= r <= lines@.len(),
{
    let mut k: usize = i;
    while k < lines.len() && !is_separator(lines[k].as_str()) && !is_blank(lines[k].as_str())
        invariant
            i <= k <= lines@.len(),
            query_end(lines.deep_view(), i as int) == query_end(lines.deep_view(), k as int),
        decreases lines@.len() - k,
    {
        k = k + 1;
    }
    k
}

/// Reads the SQL of a statement, up to the next blank line.
fn read_statement_sql(lines: &Vec<String>, i: usize, directive: &str, line: usize) -> (r: Result<
    (String, usize),
    FormatError,
>)
    requires
        i <= lines@.len(),
    ensures
        match statement_at(lines.deep_view(), i as int, directive@, line as int) {
            Ok((sql, end)) => r is Ok && r->Ok_0.0@ == sql && r->Ok_0.1 == end && end
                <= lines@.len(),
            Err(e) => r is Err && r->Err_0@ == e,
        },
{
    let end: usize = find_body_end(lines, i);
    if end == i {
        return Err(FormatError { line, problem: Problem::NoSql(directive.to_string()) });
    }
    Ok((sql_of(lines, i, end), end))
}

/// Reads a query block: the SQL up to the separator, and the expected lines up to
/// the next blank line.
fn read_query_block(lines: &Vec<String>, i: usize, block: &'static str, line: usize) -> (r: Result<
    (String, Vec<String>, usize),
    FormatError,
>)
    requires
        i <= lines@.len(),
    ensures
        match query_at(lines.deep_view(), i as int, block@, line as int) {
            Ok((sql, expected, end)) => r is Ok && r->Ok_0.0@ == sql && r->Ok_0.1.deep_view()
                == expected && r->Ok_0.2 == end && end <= lines@.len(),
            Err(e) => r is Err && r->Err_0@ == e,
        },
{
    let sep: usize = find_query_end(lines, i);
    if sep >= lines.len() || !is_separator(lines[sep].as_str()) {
        return Err(FormatError { line, problem: Problem::MissingSeparator(block) });
    }
    let end: usize = find_body_end(lines, sep + 1);
    Ok((sql_of(lines, i, sep), copy_lines(lines, sep + 1, end), end))
}

/// Reads the SQL of a prepared statement, up to the next blank line or `params`
/// line, and the parameters.
fn read_sql_with_params(lines: &Vec<String>, i: usize, directive: &str, line: usize) -> (r: Result<
    (String, Vec<String>, usize),
    FormatError,
>)
    requires
        i <= lines@.len(),
    ensures
        match exec_at(lines.deep_view(), i as int, directive@, line as int) {
            Ok((sql, params, end)) => r is Ok && r->Ok_0.0@ == sql && r->Ok_0.1.deep_view()
                == params && r->Ok_0.2 == end && end <= lines@.len(),
            Err(e) => r is Err && r->Err_0@ == e,
        },
{
    let mut k: usize = i;
    let ghost all = lines.deep_view();
    while k < lines.len() && !is_blank(lines[k].as_str())
        invariant
            i <= k <= lines@.len(),
            all == lines.deep_view(),
            exec_end(all, i as int) == exec_end(all, k as int),
        decreases lines@.len() - k,
    {
        assert(all[k as int] == lines@[k as int]@);
        if let Some(params) = parse_params_line(lines[k].as_str()) {
            if k == i {
                return Err(FormatError { line, problem: Problem::NoSql(directive.to_string()) });
            }
            return Ok((sql_of(lines, i, k), params, k + 1));
        }
        k = k + 1;
    }
    if k == i {
        return Err(FormatError { line, problem: Problem::NoSql(directive.to_string()) });
    }
    let none: Vec<String> = Vec::new();
    assert(none.deep_view() =~= seq![]);
    Ok((sql_of(lines, i, k), none, k))
}

/// Reads a prepared query: SQL and `params` lines up to the separator, and the
/// expected lines up to the next blank line.
fn read_exec_query(lines: &Vec<String>, i: usize, line: usize) -> (r: Result<
    (String, Vec<String>, Vec<String>, usize),
    FormatError,
>)
    requires
        i <= lines@.len(),
    ensures
        match exec_query_at(lines.deep_view(), i as int, line as int) {
            Ok((sql, params, expected, end)) => r is Ok && r->Ok_0.0@ == sql
                && r->Ok_0.1.deep_view() == params && r->Ok_0.2.deep_view() == expected
                && r->Ok_0.3 == end && end <= lines@.len(),
            Err(e) => r is Err && r->Err_0@ == e,
        },
{
    let sep: usize = find_query_end(lines, i);
    if sep >= lines.len() || !is_separator(lines[sep].as_str()) {
        return Err(FormatError { line, problem: Problem::MissingSeparator("`exec query`") });
    }
    let ghost all = lines.deep_view();
    let ghost body = all.subrange(i as int, sep as int);
    let mut sql: Vec<String> = Vec::new();
    let mut params: Vec<String> = Vec::new();
    let mut k: usize = i;
    assert(body.take(0) =~= seq![]);
    assert(sql.deep_view() =~= seq![]);
    assert(params.deep_view() =~= seq![]);
    while k < sep
        invariant
            i <= k <= sep < lines@.len(),
            all == lines.deep_view(),
            body == all.subrange(i as int, sep as int),
            sql.deep_view() == sql_lines(body.take(k - i)),
            params.deep_view() == last_params(body.take(k - i)),
        decreases sep - k,
    {
        let ghost before = sql.deep_view();
        proof {
            assert(body.take(k + 1 - i).drop_last() =~= body.take(k - i));
            assert(body.take(k + 1 - i).last() == lines@[k as int]@);
        }
        match parse_params_line(lines[k].as_str()) {
            Some(values) => {
                params = values;
            },
            None => {
                sql.push(lines[k].clone());
                assert(sql.deep_view() =~= before.push(lines@[k as int]@));
            },
        }
        k = k + 1;
    }
    assert(body.take(sep - i) =~= body);
    let end: usize = find_body_end(lines, sep + 1);
    Ok((text::join(&sql, "\n"), params, copy_lines(lines, sep + 1, end), end))
}

/// Reads the error number of a `statement error` directive. `None` if the
/// directive is another one.
fn read_error_code(directive: &[char]) -> (r: Option<Result<Option<u16>, String>>)
    ensures
        match error_code(directive@) {
            None => r is None,
            Some(Ok(code)) => r == Some(Ok::<Option<u16>, String>(code)),
            Some(Err(code)) => r matches Some(Err(found)) && found@ == code,
        },
{
    if text::is_text(directive, "statement error") {
        return Some(Ok(None));
    }
    let prefix = text::chars_of("statement error ");
    match text::strip_prefix(directive, &prefix) {
        None => None,
        Some(rest) => {
            let code = text::trim(rest);
            if code.len() == 0 {
                return Some(Ok(None));
            }
            match numeric::parse_unsigned(code, 0xffff) {
                Some(n) => Some(Ok(Some(n as u16))),
                None => Some(Err(text::string_of(code))),
            }
        },
    }
}

/// Reads the record that the directive in front of line `i` opens.
fn read_record(lines: &Vec<String>, i: usize, directive: &[char]) -> (r: Result<
    (Record, usize),
    FormatError,
>)
    requires
        i <= lines@.len(),
    ensures
        match record_at(lines.deep_view(), i as int, directive@) {
            Ok((record, end)) => r is Ok && r->Ok_0.0.deep_view() == record && r->Ok_0.1 == end
                && i <= end <= lines@.len(),
            Err(e) => r is Err && r->Err_0@ == e,
        },
{
    let line: usize = i;
    let name = text::string_of(directive);
    proof {
        record_moves(lines.deep_view(), i as int, directive@);
    }
    if text::is_text(directive, "query") {
        let (sql, expected, end) = read_query_block(lines, i, "`query`", line)?;
        Ok((Record::Query { line, sql, expected }, end))
    } else if text::is_text(directive, "statement ok") {
        let (sql, end) = read_statement_sql(lines, i, name.as_str(), line)?;
        Ok((Record::Statement { line, expect_ok: true, expect_code: None, sql }, end))
    } else if let Some(found) = read_error_code(directive) {
        match found {
            Err(code) => Err(FormatError { line, problem: Problem::BadCode(code) }),
            Ok(expect_code) => {
                let (sql, end) = read_statement_sql(lines, i, name.as_str(), line)?;
                Ok((Record::Statement { line, expect_ok: false, expect_code, sql }, end))
            },
        }
    } else if text::is_text(directive, "query types") {
        let (sql, expected, end) = read_query_block(lines, i, "query", line)?;
        Ok((Record::QueryTypes { line, sql, expected }, end))
    } else if text::is_text(directive, "query labels") {
        let (sql, expected, end) = read_query_block(lines, i, "query", line)?;
        Ok((Record::QueryLabels { line, sql, expected }, end))
    } else if text::is_text(directive, "exec ok") || text::is_text(directive, "exec error") {
        let expect_ok = text::is_text(directive, "exec ok");
        let (sql, params, end) = read_sql_with_params(lines, i, name.as_str(), line)?;
        Ok((Record::Exec { line, expect_ok, sql, params }, end))
    } else if text::is_text(directive, "exec query") {
        let (sql, params, expected, end) = read_exec_query(lines, i, line)?;
        Ok((Record::ExecQuery { line, sql, params, expected }, end))
    } else {
        Err(FormatError { line, problem: Problem::UnknownDirective(name) })
    }
}

/// Reads the records of a test file.
pub fn parse(content: &str) -> (r: Result<Vec<Record>, FormatError>)
    ensures
        match r {
            Ok(records) => records_from(text::lines_from(content@, 0), 0) == Ok::<
                Seq<RecordView>,
                FormatErrorView,
            >(records.deep_view()),
            Err(e) => records_from(text::lines_from(content@, 0), 0) == Err::<
                Seq<RecordView>,
                FormatErrorView,
            >(e@),
        },
{
    let lines = text::split_lines(content);
    let ghost all = lines.deep_view();
    let mut records: Vec<Record> = Vec::new();
    let mut i: usize = 0;
    proof {
        if let Ok(rest) = records_from(all, 0) {
            assert(records.deep_view() + rest =~= rest);
        }
    }
    while i < lines.len()
        invariant
            i <= lines@.len(),
            all == lines.deep_view(),
            all == text::lines_from(content@, 0),
            match records_from(all, i as int) {
                Ok(rest) => records_from(all, 0) == Ok::<Seq<RecordView>, FormatErrorView>(
                    records.deep_view() + rest,
                ),
                Err(e) => records_from(all, 0) == Err::<Seq<RecordView>, FormatErrorView>(e),
            },
        decreases lines@.len() - i,
    {
        let chars = text::chars_of(lines[i].as_str());
        let directive = text::trim(&chars);
        assert(all[i as int] == chars@);
        if directive.len() == 0 || directive[0] == '#' {
            i = i + 1;
        } else {
            let ghost before = records.deep_view();
            match read_record(&lines, i + 1, directive) {
                Err(e) => return Err(e),
                Ok((record, end)) => {
                    records.push(record);
                    proof {
                        assert(records.deep_view() =~= before.push(record.deep_view()));
                        if let Ok(rest) = records_from(all, end as int) {
                            assert(before + (seq![record.deep_view()] + rest)
                                =~= records.deep_view() + rest);
                        }
                    }
                    i = end;
                },
            }
        }
    }
    assert(records.deep_view() + Seq::<RecordView>::empty() =~= records.deep_view());
    Ok(records)
}

/// The line of a record's directive.
pub open spec fn line_of(record: RecordView) -> int {
    match record {
        RecordView::Statement { line, .. } => line,
        RecordView::Query { line, .. } => line,
        RecordView::QueryTypes { line, .. } => line,
        RecordView::QueryLabels { line, .. } => line,
        RecordView::Exec { line, .. } => line,
        RecordView::ExecQuery { line, .. } => line,
    }
}

/// Records come in the order of the file, each with the number of a line of its
/// own, which is neither blank nor a comment.
pub proof fn records_are_in_order(lines: Seq<Seq<char>>, i: int)
    requires
        0 <= i <= lines.len(),
    ensures
        records_from(lines, i) matches Ok(rs) ==> {
            &&& forall|k: int|
                0 <= k < rs.len() ==> i < line_of(#[trigger] rs[k]) <= lines.len() && !skipped(
                    lines[line_of(rs[k]) - 1],
                )
            &&& forall|k: int, m: int|
                0 <= k < m < rs.len() ==> line_of(#[trigger] rs[k]) < line_of(#[trigger] rs[m])
        },
    decreases lines.len() - i,
{
    if i < lines.len() {
        if skipped(lines[i]) {
            records_are_in_order(lines, i + 1);
        } else {
            let directive = text::trimmed(lines[i]);
            record_moves(lines, i + 1, directive);
            if let Ok((record, end)) = record_at(lines, i + 1, directive) {
                assert(line_of(record) == i + 1);
                records_are_in_order(lines, end);
                if let Ok(rest) = records_from(lines, end) {
                    let rs = seq![record] + rest;
                    assert forall|k: int| 0 <= k < rs.len() implies i < line_of(#[trigger] rs[k])
                        <= lines.len() && !skipped(lines[line_of(rs[k]) - 1]) by {
                        if k > 0 {
                            assert(rs[k] == rest[k - 1]);
                        }
                    }
                    assert forall|k: int, m: int| 0 <= k < m < rs.len() implies line_of(
                        #[trigger] rs[k],
                    ) < line_of(#[trigger] rs[m]) by {
                        assert(rs[m] == rest[m - 1]);
                        if k > 0 {
                            assert(rs[k] == rest[k - 1]);
                        }
                    }
                }
            }
        }
    }
}

// ---------------------------------------------------------------------------
// Files put together
// ---------------------------------------------------------------------------
/// A record `by` lines further down.
pub open spec fn moved(record: RecordView, by: int) -> RecordView {
    match record {
        RecordView::Statement { line, expect_ok, expect_code, sql } => RecordView::Statement {
            line: line + by,
            expect_ok,
            expect_code,
            sql,
        },
        RecordView::Query { line, sql, expected } => RecordView::Query {
            line: line + by,
            sql,
            expected,
        },
        RecordView::QueryTypes { line, sql, expected } => RecordView::QueryTypes {
            line: line + by,
            sql,
            expected,
        },
        RecordView::QueryLabels { line, sql, expected } => RecordView::QueryLabels {
            line: line + by,
            sql,
            expected,
        },
        RecordView::Exec { line, expect_ok, sql, params } => RecordView::Exec {
            line: line + by,
            expect_ok,
            sql,
            params,
        },
        RecordView::ExecQuery { line, sql, params, expected } => RecordView::ExecQuery {
            line: line + by,
            sql,
            params,
            expected,
        },
    }
}

/// Records `by` lines further down.
pub open spec fn all_moved(records: Seq<RecordView>, by: int) -> Seq<RecordView> {
    Seq::new(records.len(), |k: int| moved(records[k], by))
}

/// Blocks end where they would end if the lines stood alone.
proof fn ends_behind(front: Seq<Seq<char>>, lines: Seq<Seq<char>>, i: int)
    requires
        0 <= i <= lines.len(),
    ensures
        body_end(front + lines, front.len() + i) == front.len() + body_end(lines, i),
        query_end(front + lines, front.len() + i) == front.len() + query_end(lines, i),
        exec_end(front + lines, front.len() + i) == front.len() + exec_end(lines, i),
    decreases lines.len() - i,
{
    if i < lines.len() {
        assert((front + lines)[front.len() + i] == lines[i]);
        ends_behind(front, lines, i + 1);
    }
}

proof fn cut_behind(front: Seq<Seq<char>>, lines: Seq<Seq<char>>, i: int, end: int)
    requires
        0 <= i <= end <= lines.len(),
    ensures
        (front + lines).subrange(front.len() + i, front.len() + end) == lines.subrange(i, end),
{
    assert((front + lines).subrange(front.len() + i, front.len() + end) =~= lines.subrange(i, end));
}

/// A record is read behind other lines as it is read alone.
proof fn record_behind(
    front: Seq<Seq<char>>,
    lines: Seq<Seq<char>>,
    i: int,
    directive: Seq<char>,
)
    requires
        0 <= i <= lines.len(),
    ensures
        record_at(lines, i, directive) matches Ok((record, end)) ==> record_at(
            front + lines,
            front.len() + i,
            directive,
        ) == Ok::<(RecordView, int), FormatErrorView>(
            (moved(record, front.len() as int), front.len() + end),
        ),
{
    let n = front.len();
    let all = front + lines;
    ends_move(lines, i);
    ends_behind(front, lines, i);
    let body = body_end(lines, i);
    let sep = query_end(lines, i);
    let bound = exec_end(lines, i);
    cut_behind(front, lines, i, body);
    cut_behind(front, lines, i, sep);
    cut_behind(front, lines, i, bound);
    if bound < lines.len() {
        assert(all[n + bound] == lines[bound]);
    }
    if sep < lines.len() {
        assert(all[n + sep] == lines[sep]);
        ends_move(lines, sep + 1);
        ends_behind(front, lines, sep + 1);
        cut_behind(front, lines, sep + 1, body_end(lines, sep + 1));
    }
}

/// Records are read behind other lines as they are read alone.
proof fn records_behind(front: Seq<Seq<char>>, lines: Seq<Seq<char>>, i: int)
    requires
        0 <= i <= lines.len(),
    ensures
        records_from(lines, i) matches Ok(rs) ==> records_from(front + lines, front.len() + i)
            == Ok::<Seq<RecordView>, FormatErrorView>(all_moved(rs, front.len() as int)),
    decreases lines.len() - i,
{
    let n = front.len() as int;
    if i == lines.len() {
        assert(all_moved(seq![], n) =~= seq![]);
    } else {
        assert((front + lines)[n + i] == lines[i]);
        if skipped(lines[i]) {
            records_behind(front, lines, i + 1);
        } else {
            let directive = text::trimmed(lines[i]);
            record_moves(lines, i + 1, directive);
            record_behind(front, lines, i + 1, directive);
            if let Ok((record, end)) = record_at(lines, i + 1, directive) {
                records_behind(front, lines, end);
                if let Ok(rest) = records_from(lines, end) {
                    assert(all_moved(seq![record] + rest, n) =~= seq![moved(record, n)]
                        + all_moved(rest, n));
                }
            }
        }
    }
}

/// Blocks end at the blank line behind the lines, if not before.
proof fn ends_in_front(lines: Seq<Seq<char>>, back: Seq<Seq<char>>, i: int)
    requires
        0 <= i <= lines.len(),
        back.len() > 0,
        blank(back[0]),
    ensures
        body_end(lines + back, i) == body_end(lines, i),
        query_end(lines + back, i) == query_end(lines, i),
        exec_end(lines + back, i) == exec_end(lines, i),
    decreases lines.len() - i,
{
    if i < lines.len() {
        assert((lines + back)[i] == lines[i]);
        ends_in_front(lines, back, i + 1);
    } else {
        assert((lines + back)[i] == back[0]);
    }
}

proof fn cut_in_front(lines: Seq<Seq<char>>, back: Seq<Seq<char>>, i: int, end: int)
    requires
        0 <= i <= end <= lines.len(),
    ensures
        (lines + back).subrange(i, end) == lines.subrange(i, end),
{
    assert((lines + back).subrange(i, end) =~= lines.subrange(i, end));
}

/// A record is read in front of a blank line as it is read alone.
proof fn record_in_front(
    lines: Seq<Seq<char>>,
    back: Seq<Seq<char>>,
    i: int,
    directive: Seq<char>,
)
    requires
        0 <= i <= lines.len(),
        back.len() > 0,
        blank(back[0]),
        record_at(lines, i, directive) is Ok,
    ensures
        record_at(lines + back, i, directive) == record_at(lines, i, directive),
{
    let all = lines + back;
    ends_move(lines, i);
    ends_in_front(lines, back, i);
    let body = body_end(lines, i);
    let sep = query_end(lines, i);
    let bound = exec_end(lines, i);
    cut_in_front(lines, back, i, body);
    cut_in_front(lines, back, i, sep);
    cut_in_front(lines, back, i, bound);
    if bound < lines.len() {
        assert(all[bound] == lines[bound]);
    } else {
        assert(all[bound] == back[0]);
    }
    if sep < lines.len() {
        assert(all[sep] == lines[sep]);
        ends_move(lines, sep + 1);
        ends_in_front(lines, back, sep + 1);
        cut_in_front(lines, back, sep + 1, body_end(lines, sep + 1));
    }
}

/// Records are read in front of a blank line as they are read alone, and what is
/// behind it follows.
proof fn records_in_front(lines: Seq<Seq<char>>, back: Seq<Seq<char>>, i: int)
    requires
        0 <= i <= lines.len(),
        back.len() > 0,
        blank(back[0]),
        records_from(lines, i) is Ok,
        records_from(lines + back, lines.len() as int) is Ok,
    ensures
        records_from(lines + back, i) == Ok::<Seq<RecordView>, FormatErrorView>(
            records_from(lines, i)->Ok_0 + records_from(lines + back, lines.len() as int)->Ok_0,
        ),
    decreases lines.len() - i,
{
    let later = records_from(lines + back, lines.len() as int)->Ok_0;
    if i == lines.len() {
        assert(Seq::<RecordView>::empty() + later =~= later);
    } else {
        assert((lines + back)[i] == lines[i]);
        if skipped(lines[i]) {
            records_in_front(lines, back, i + 1);
        } else {
            let directive = text::trimmed(lines[i]);
            record_moves(lines, i + 1, directive);
            record_in_front(lines, back, i + 1, directive);
            let (record, end) = record_at(lines, i + 1, directive)->Ok_0;
            records_in_front(lines, back, end);
            let rest = records_from(lines, end)->Ok_0;
            assert(seq![record] + (rest + later) =~= (seq![record] + rest) + later);
        }
    }
}

/// Blank lines hold no records.
proof fn gap_is_skipped(front: Seq<Seq<char>>, gap: Seq<Seq<char>>, back: Seq<Seq<char>>, i: int)
    requires
        0 <= i <= gap.len(),
        forall|k: int| 0 <= k < gap.len() ==> blank(#[trigger] gap[k]),
    ensures
        records_from(front + gap + back, front.len() + i) == records_from(
            front + gap + back,
            (front.len() + gap.len()) as int,
        ),
    decreases gap.len() - i,
{
    if i < gap.len() {
        assert((front + gap + back)[front.len() + i] == gap[i]);
        gap_is_skipped(front, gap, back, i + 1);
    }
}

/// Two files with a blank line between them have the records of both: those of the
/// second come behind those of the first, further down by the lines in front of
/// them. (A first file that ends in a carriage return is left out: with a line
/// feed behind it, its last line loses that.)
pub proof fn files_are_read_apart(a: Seq<char>, b: Seq<char>)
    requires
        a.len() == 0 || a.last() != '\r',
        records_from(text::lines_from(a, 0), 0) is Ok,
        records_from(text::lines_from(b, 0), 0) is Ok,
    ensures
        ({
            let first = a + seq!['\n', '\n'];
            let by = text::lines_from(first, 0).len() as int;
            records_from(text::lines_from(first + b, 0), 0) == Ok::<
                Seq<RecordView>,
                FormatErrorView,
            >(
                records_from(text::lines_from(a, 0), 0)->Ok_0 + all_moved(
                    records_from(text::lines_from(b, 0), 0)->Ok_0,
                    by,
                ),
            )
        }),
{
    let one = text::lines_from(a, 0);
    let two = text::lines_from(b, 0);
    let gap = text::lines_added(a);
    text::lines_of_two(a, b);
    assert forall|k: int| 0 <= k < gap.len() implies blank(#[trigger] gap[k]) by {
        assert(gap[k] =~= seq![]);
    }
    let all = one + gap + two;
    records_behind(one + gap, two, 0);
    gap_is_skipped(one, gap, two, 0);
    assert(all =~= one + (gap + two));
    assert((gap + two)[0] == gap[0]);
    records_in_front(one, gap + two, 0);
}

// ---------------------------------------------------------------------------
// The blocks of a file
// ---------------------------------------------------------------------------
proof fn body_reaches(lines: Seq<Seq<char>>, i: int, end: int)
    requires
        0 <= i <= end <= lines.len(),
        forall|k: int| i <= k < end ==> !blank(#[trigger] lines[k]),
        end < lines.len() ==> blank(lines[end]),
    ensures
        body_end(lines, i) == end,
    decreases end - i,
{
    if i < end {
        body_reaches(lines, i + 1, end);
    }
}

proof fn query_reaches(lines: Seq<Seq<char>>, i: int, sep: int)
    requires
        0 <= i <= sep < lines.len(),
        forall|k: int| i <= k < sep ==> !blank(#[trigger] lines[k]) && !separator(lines[k]),
        separator(lines[sep]),
    ensures
        query_end(lines, i) == sep,
    decreases sep - i,
{
    if i < sep {
        query_reaches(lines, i + 1, sep);
    }
}

proof fn exec_reaches(lines: Seq<Seq<char>>, i: int, end: int)
    requires
        0 <= i <= end <= lines.len(),
        forall|k: int| i <= k < end ==> !blank(#[trigger] lines[k]) && params_of(lines[k]) is None,
        end < lines.len() ==> blank(lines[end]) || params_of(lines[end]) is Some,
    ensures
        exec_end(lines, i) == end,
    decreases end - i,
{
    if i < end {
        exec_reaches(lines, i + 1, end);
    }
}

proof fn directives()
    ensures
        "query"@ == seq!['q', 'u', 'e', 'r', 'y'],
        "statement ok"@ == seq!['s', 't', 'a', 't', 'e', 'm', 'e', 'n', 't', ' ', 'o', 'k'],
        "statement error"@ == seq!['s', 't', 'a', 't', 'e', 'm', 'e', 'n', 't', ' ', 'e', 'r', 'r', 'o', 'r'],
        "statement error "@ == seq!['s', 't', 'a', 't', 'e', 'm', 'e', 'n', 't', ' ', 'e', 'r', 'r', 'o', 'r', ' '],
        "query types"@ == seq!['q', 'u', 'e', 'r', 'y', ' ', 't', 'y', 'p', 'e', 's'],
        "query labels"@ == seq!['q', 'u', 'e', 'r', 'y', ' ', 'l', 'a', 'b', 'e', 'l', 's'],
        "exec ok"@ == seq!['e', 'x', 'e', 'c', ' ', 'o', 'k'],
        "exec error"@ == seq!['e', 'x', 'e', 'c', ' ', 'e', 'r', 'r', 'o', 'r'],
        "exec query"@ == seq!['e', 'x', 'e', 'c', ' ', 'q', 'u', 'e', 'r', 'y'],
{
    reveal_strlit("query");
    assert("query"@ =~= seq!['q', 'u', 'e', 'r', 'y']);
    reveal_strlit("statement ok");
    assert("statement ok"@ =~= seq!['s', 't', 'a', 't', 'e', 'm', 'e', 'n', 't', ' ', 'o', 'k']);
    reveal_strlit("statement error");
    assert("statement error"@ =~= seq!['s', 't', 'a', 't', 'e', 'm', 'e', 'n', 't', ' ', 'e', 'r', 'r', 'o', 'r']);
    reveal_strlit("statement error ");
    assert("statement error "@ =~= seq!['s', 't', 'a', 't', 'e', 'm', 'e', 'n', 't', ' ', 'e', 'r', 'r', 'o', 'r', ' ']);
    reveal_strlit("query types");
    assert("query types"@ =~= seq!['q', 'u', 'e', 'r', 'y', ' ', 't', 'y', 'p', 'e', 's']);
    reveal_strlit("query labels");
    assert("query labels"@ =~= seq!['q', 'u', 'e', 'r', 'y', ' ', 'l', 'a', 'b', 'e', 'l', 's']);
    reveal_strlit("exec ok");
    assert("exec ok"@ =~= seq!['e', 'x', 'e', 'c', ' ', 'o', 'k']);
    reveal_strlit("exec error");
    assert("exec error"@ =~= seq!['e', 'x', 'e', 'c', ' ', 'e', 'r', 'r', 'o', 'r']);
    reveal_strlit("exec query");
    assert("exec query"@ =~= seq!['e', 'x', 'e', 'c', ' ', 'q', 'u', 'e', 'r', 'y']);
}

/// A line is blank if it has nothing but white space, and a separator if it is four
/// dashes, with white space behind them or without.
pub proof fn lines_are_told_apart(line: Seq<char>)
    ensures
        blank(line) <==> text::trimmed(line) == Seq::<char>::empty(),
        separator(line) <==> text::trimmed_end(line) == seq!['-', '-', '-', '-'],
        skipped(line) <==> blank(line) || text::trimmed(line)[0] == '#',
{
    reveal_strlit("----");
    assert("----"@ =~= seq!['-', '-', '-', '-']);
    if blank(line) {
        assert(text::trimmed(line) =~= Seq::<char>::empty());
    }
}

/// A `query` block: the lines up to the separator are the query, and those behind it,
/// up to the next blank line, are the rows that it must give. The same of `query types`
/// and `query labels`, for the types and the names of the columns.
#[verifier::rlimit(60)]
pub proof fn query_blocks_are_read(lines: Seq<Seq<char>>, i: int, sep: int, end: int)
    requires
        0 <= i <= sep < end <= lines.len(),
        forall|k: int| i <= k < sep ==> !blank(#[trigger] lines[k]) && !separator(lines[k]),
        separator(lines[sep]),
        forall|k: int| sep < k < end ==> !blank(#[trigger] lines[k]),
        end < lines.len() ==> blank(lines[end]),
    ensures
        ({
            let sql = text::joined(lines.subrange(i, sep), "\n"@);
            let expected = lines.subrange(sep + 1, end);
            &&& record_at(lines, i, "query"@) == Ok::<(RecordView, int), FormatErrorView>(
                (RecordView::Query { line: i, sql, expected }, end),
            )
            &&& record_at(lines, i, "query types"@) == Ok::<(RecordView, int), FormatErrorView>(
                (RecordView::QueryTypes { line: i, sql, expected }, end),
            )
            &&& record_at(lines, i, "query labels"@) == Ok::<(RecordView, int), FormatErrorView>(
                (RecordView::QueryLabels { line: i, sql, expected }, end),
            )
        }),
{
    directives();
    query_reaches(lines, i, sep);
    body_reaches(lines, sep + 1, end);
    no_code("query types"@);
    no_code("query labels"@);
    assert("query types"@.len() == 11 && "query labels"@.len() == 12 && "query"@.len() == 5
        && "statement ok"@.len() == 12);
    assert("query labels"@[0] == 'q' && "statement ok"@[0] == 's');
}

proof fn no_code(directive: Seq<char>)
    requires
        directive.len() > 0,
        directive[0] != 's',
    ensures
        error_code(directive) is None,
{
    directives();
    assert("statement error"@[0] == 's' && "statement error "@[0] == 's');
    if text::occurs_at(directive, "statement error "@, 0) {
        assert(directive.subrange(0, 16)[0] == 's');
    }
}

/// A `statement` block: the lines up to the next blank one are the statement, which must
/// succeed for `ok` and fail for `error`.
#[verifier::rlimit(60)]
pub proof fn statement_blocks_are_read(lines: Seq<Seq<char>>, i: int, end: int)
    requires
        0 <= i <= end <= lines.len(),
        forall|k: int| i <= k < end ==> !blank(#[trigger] lines[k]),
        end < lines.len() ==> blank(lines[end]),
    ensures
        ({
            let sql = text::joined(lines.subrange(i, end), "\n"@);
            &&& i < end ==> record_at(lines, i, "statement ok"@) == Ok::<
                (RecordView, int),
                FormatErrorView,
            >((RecordView::Statement { line: i, expect_ok: true, expect_code: None, sql }, end))
            &&& i < end ==> record_at(lines, i, "statement error"@) == Ok::<
                (RecordView, int),
                FormatErrorView,
            >((RecordView::Statement { line: i, expect_ok: false, expect_code: None, sql }, end))
            &&& i == end ==> record_at(lines, i, "statement ok"@) == Err::<
                (RecordView, int),
                FormatErrorView,
            >(FormatErrorView { line: i, problem: ProblemView::NoSql("statement ok"@) })
        }),
{
    directives();
    body_reaches(lines, i, end);
    assert("statement ok"@.len() == 12 && "statement error"@.len() == 15 && "query"@.len() == 5);
}

/// An error number behind `statement error` is the number that the error must have; one
/// beyond 65535 and what is no number are refused.
pub proof fn error_numbers_are_read(code: u16, other: Seq<char>)
    requires
        other.len() > 0,
        !text::space(other[0]),
        !text::space(other.last()),
        numeric::parsed_unsigned(other, 65535) is None,
    ensures
        error_code("statement error "@ + numeric::decimal(code as nat)) == Some(
            Ok::<Option<u16>, Seq<char>>(Some(code)),
        ),
        error_code("statement error "@ + other) == Some(Err::<Option<u16>, Seq<char>>(other)),
        error_code("statement error"@) == Some(Ok::<Option<u16>, Seq<char>>(None)),
{
    directives();
    let d = numeric::decimal(code as nat);
    let prefix = "statement error "@;
    assert(prefix.len() == 16 && "statement error"@.len() == 15);
    numeric::decimal_reads_back(code as nat);
    assert(numeric::is_digit_char(d[0]) && numeric::is_digit_char(d[d.len() - 1]));
    assert(text::trimmed(d) == d);
    assert(numeric::parsed_unsigned(d, 0xffff) == Some(code as nat));
    let s = prefix + d;
    assert(s.subrange(0, 16) =~= prefix);
    assert(s.skip(16) =~= d);
    let t = prefix + other;
    assert(t.subrange(0, 16) =~= prefix);
    assert(t.skip(16) =~= other);
    assert(text::trimmed(other) == other);
}

/// An `exec` block: the lines up to the line of parameters, or up to the next blank one,
/// are the statement.
#[verifier::rlimit(60)]
pub proof fn exec_blocks_are_read(lines: Seq<Seq<char>>, i: int, end: int)
    requires
        0 <= i < end <= lines.len(),
        forall|k: int| i <= k < end ==> !blank(#[trigger] lines[k]) && params_of(lines[k]) is None,
        end < lines.len() ==> blank(lines[end]) || params_of(lines[end]) is Some,
    ensures
        ({
            let sql = text::joined(lines.subrange(i, end), "\n"@);
            let given = end < lines.len() && !blank(lines[end]);
            let params = if given {
                params_of(lines[end])->0
            } else {
                seq![]
            };
            let next = if given {
                end + 1
            } else {
                end
            };
            &&& record_at(lines, i, "exec ok"@) == Ok::<(RecordView, int), FormatErrorView>(
                (RecordView::Exec { line: i, expect_ok: true, sql, params }, next),
            )
            &&& record_at(lines, i, "exec error"@) == Ok::<(RecordView, int), FormatErrorView>(
                (RecordView::Exec { line: i, expect_ok: false, sql, params }, next),
            )
        }),
{
    directives();
    exec_reaches(lines, i, end);
    no_code("exec ok"@);
    no_code("exec error"@);
    assert("exec ok"@.len() == 7 && "exec error"@.len() == 10 && "query"@.len() == 5
        && "statement ok"@.len() == 12 && "query types"@.len() == 11 && "query labels"@.len()
        == 12);
}

/// An `exec query` block with its parameters in front of the separator.
#[verifier::rlimit(60)]
pub proof fn exec_query_blocks_are_read(lines: Seq<Seq<char>>, i: int, sep: int, end: int)
    requires
        0 <= i <= sep < end <= lines.len(),
        forall|k: int| i <= k < sep ==> !blank(#[trigger] lines[k]) && !separator(lines[k]),
        separator(lines[sep]),
        forall|k: int| sep < k < end ==> !blank(#[trigger] lines[k]),
        end < lines.len() ==> blank(lines[end]),
    ensures
        record_at(lines, i, "exec query"@) == Ok::<(RecordView, int), FormatErrorView>(
            (
                RecordView::ExecQuery {
                    line: i,
                    sql: text::joined(sql_lines(lines.subrange(i, sep)), "\n"@),
                    params: last_params(lines.subrange(i, sep)),
                    expected: lines.subrange(sep + 1, end),
                },
                end,
            ),
        ),
{
    directives();
    query_reaches(lines, i, sep);
    body_reaches(lines, sep + 1, end);
    no_code("exec query"@);
    assert("exec query"@.len() == 10 && "exec error"@.len() == 10 && "exec ok"@.len() == 7
        && "query"@.len() == 5 && "statement ok"@.len() == 12 && "query types"@.len() == 11
        && "query labels"@.len() == 12);
    assert("exec query"@[5] == 'q' && "exec error"@[5] == 'e');
}

/// The lines of an `exec query` that give parameters are no part of its SQL, and the
/// last of them counts.
pub proof fn parameter_lines_are_taken_out(lines: Seq<Seq<char>>, line: Seq<char>)
    ensures
        sql_lines(Seq::<Seq<char>>::empty()).len() == 0,
        last_params(Seq::<Seq<char>>::empty()).len() == 0,
        params_of(line) is None ==> sql_lines(lines.push(line)) == sql_lines(lines).push(line)
            && last_params(lines.push(line)) == last_params(lines),
        params_of(line) matches Some(values) ==> sql_lines(lines.push(line)) == sql_lines(lines)
            && last_params(lines.push(line)) == values,
{
    assert(lines.push(line).drop_last() =~= lines);
}

/// A line of parameters is `params` and the values, with tabs between them; a longer
/// word is none.
pub proof fn parameters_are_read(rest: Seq<char>, sep: char)
    requires
        sep == ' ' || sep == '\t',
        rest.len() > 0,
        !text::space(rest[0]),
        !text::space(rest.last()),
    ensures
        params_of("params"@ + seq![sep] + rest) == Some(text::pieces_from(rest, '\t', 0)),
        params_of("params"@ + rest) is None,
        params_of("params"@) == Some(seq![Seq::<char>::empty()]),
{
    reveal_strlit("params");
    assert("params"@ =~= seq!['p', 'a', 'r', 'a', 'm', 's']);
    let p = "params"@;
    let s = p + seq![sep] + rest;
    assert(s[0] == 'p' && s.last() == rest.last());
    assert(text::trimmed(s) == s);
    assert(s.subrange(0, 6) =~= p);
    let behind = s.skip(6);
    assert(behind[0] == sep);
    assert(behind.drop_first() =~= rest);
    reveal_with_fuel(text::trimmed_start, 2);
    assert(text::trimmed_start(behind) == rest);
    let t = p + rest;
    assert(t[0] == 'p' && t.last() == rest.last());
    assert(text::trimmed(t) == t);
    assert(t.subrange(0, 6) =~= p);
    assert(t.skip(6)[0] == rest[0]);
    assert(p[0] == 'p' && p.last() == 's');
    assert(text::trimmed(p) == p);
    assert(p.subrange(0, 6) =~= p);
    let none = p.skip(6);
    assert(none =~= Seq::<char>::empty());
    text::pieces_end_at_separators(Seq::<char>::empty(), seq![], '\t');
}

/// Blank lines and comments are skipped, and any other line opens a block.
pub proof fn blocks_follow_each_other(lines: Seq<Seq<char>>, i: int)
    requires
        0 <= i < lines.len(),
    ensures
        skipped(lines[i]) ==> records_from(lines, i) == records_from(lines, i + 1),
        !skipped(lines[i]) ==> match record_at(lines, i + 1, text::trimmed(lines[i])) {
            Err(e) => records_from(lines, i) == Err::<Seq<RecordView>, FormatErrorView>(e),
            Ok((record, end)) => match records_from(lines, end) {
                Err(e) => records_from(lines, i) == Err::<Seq<RecordView>, FormatErrorView>(e),
                Ok(rest) => records_from(lines, i) == Ok::<Seq<RecordView>, FormatErrorView>(
                    seq![record] + rest,
                ),
            },
        },
{
    record_moves(lines, i + 1, text::trimmed(lines[i]));
}

/// A directive that is not known is refused, at its line.
pub proof fn other_directives_are_refused(lines: Seq<Seq<char>>, i: int, directive: Seq<char>)
    requires
        directive.len() > 0,
        directive[0] != 's' && directive[0] != 'q' && directive[0] != 'e',
    ensures
        record_at(lines, i, directive) == Err::<(RecordView, int), FormatErrorView>(
            FormatErrorView { line: i, problem: ProblemView::UnknownDirective(directive) },
        ),
{
    directives();
    no_code(directive);
    assert("query"@[0] == 'q' && "statement ok"@[0] == 's' && "query types"@[0] == 'q'
        && "query labels"@[0] == 'q' && "exec ok"@[0] == 'e' && "exec error"@[0] == 'e'
        && "exec query"@[0] == 'e');
}

} // verus!
