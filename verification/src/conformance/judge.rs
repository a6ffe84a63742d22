//! Judging what a server answered to a record.

use vstd::prelude::*;

use crate::conformance::format::{Record, RecordView};
use crate::numeric;
use crate::text;

verus! {

/// What became of a record.
#[derive(Debug, PartialEq, Eq)]
pub enum Outcome {
    Pass,
    Fail { line: usize, message: String },
}

/// The model of an [`Outcome`].
pub enum OutcomeView {
    Pass,
    Fail { line: int, message: Seq<char> },
}

impl DeepView for Outcome {
    type V = OutcomeView;

    open spec fn deep_view(&self) -> OutcomeView {
        match *self {
            Outcome::Pass => OutcomeView::Pass,
            Outcome::Fail { line, message } => OutcomeView::Fail {
                line: line as int,
                message: message@,
            },
        }
    }
}

/// What a server answered.
#[derive(Debug, PartialEq, Eq)]
pub enum Reply {
    /// A statement succeeded.
    Done,
    /// A query gave these lines.
    Rows(Vec<String>),
    /// An error, with the MySQL error number if the server sent one.
    Failed { message: String, code: Option<u16> },
}

/// The model of a [`Reply`].
pub enum ReplyView {
    Done,
    Rows(Seq<Seq<char>>),
    Failed { message: Seq<char>, code: Option<u16> },
}

impl DeepView for Reply {
    type V = ReplyView;

    open spec fn deep_view(&self) -> ReplyView {
        match *self {
            Reply::Done => ReplyView::Done,
            Reply::Rows(rows) => ReplyView::Rows(rows.deep_view()),
            Reply::Failed { message, code } => ReplyView::Failed { message: message@, code },
        }
    }
}

/// The reply is one that the record can get: lines for a query, and none for a
/// statement.
pub open spec fn fits(record: RecordView, reply: ReplyView) -> bool {
    match record {
        RecordView::Statement { .. } | RecordView::Exec { .. } => !(reply is Rows),
        _ => !(reply is Done),
    }
}

// ---------------------------------------------------------------------------
// Differences
// ---------------------------------------------------------------------------
/// How line `i` of what was expected and of what came is shown.
pub open spec fn diff_line(expected: Seq<Seq<char>>, actual: Seq<Seq<char>>, i: int) -> Seq<char> {
    if i < expected.len() && i < actual.len() {
        if expected[i] == actual[i] {
            "  "@ + expected[i] + "\n"@
        } else {
            "- "@ + expected[i] + "\n"@ + "+ "@ + actual[i] + "\n"@
        }
    } else if i < expected.len() {
        "- "@ + expected[i] + "\n"@
    } else {
        "+ "@ + actual[i] + "\n"@
    }
}

/// The first `n` lines of a comparison.
pub open spec fn diff_lines(expected: Seq<Seq<char>>, actual: Seq<Seq<char>>, n: nat) -> Seq<char>
    decreases n,
{
    if n == 0 {
        seq![]
    } else {
        diff_lines(expected, actual, (n - 1) as nat) + diff_line(expected, actual, n - 1)
    }
}

/// The greater of two numbers.
pub open spec fn greater(a: nat, b: nat) -> nat {
    if a < b {
        b
    } else {
        a
    }
}

/// What was expected and what came, line by line.
pub open spec fn difference(expected: Seq<Seq<char>>, actual: Seq<Seq<char>>) -> Seq<char> {
    text::trimmed_end(diff_lines(expected, actual, greater(expected.len(), actual.len())))
}

/// Appends a mark, a line, and a line feed.
fn push_marked(out: &mut Vec<char>, mark: &str, line: &str)
    ensures
        final(out)@ == old(out)@ + (mark@ + line@ + "\n"@),
{
    text::push_text(out, mark);
    text::push_text(out, line);
    text::push_text(out, "\n");
    assert(out@ =~= old(out)@ + (mark@ + line@ + "\n"@));
}

/// Shows what was expected beside what came.
pub fn diff(expected: &Vec<String>, actual: &Vec<String>) -> (r: String)
    ensures
        r@ == difference(expected.deep_view(), actual.deep_view()),
{
    let mut out: Vec<char> = Vec::new();
    let n: usize = if expected.len() < actual.len() {
        actual.len()
    } else {
        expected.len()
    };
    let ghost e = expected.deep_view();
    let ghost a = actual.deep_view();
    for i in 0..n
        invariant
            e == expected.deep_view(),
            a == actual.deep_view(),
            n == greater(e.len(), a.len()),
            out@ == diff_lines(e, a, i as nat),
    {
        let ghost before = out@;
        if i < expected.len() && i < actual.len() {
            if expected[i] == actual[i] {
                push_marked(&mut out, "  ", expected[i].as_str());
            } else {
                push_marked(&mut out, "- ", expected[i].as_str());
                push_marked(&mut out, "+ ", actual[i].as_str());
                assert(out@ =~= before + diff_line(e, a, i as int));
            }
        } else if i < expected.len() {
            push_marked(&mut out, "- ", expected[i].as_str());
        } else {
            push_marked(&mut out, "+ ", actual[i].as_str());
        }
    }
    text::string_of(text::trim_end(&out))
}

/// A query that gave what was expected shows no difference: every line is marked
/// as common.
pub proof fn equal_lines_show_no_difference(lines: Seq<Seq<char>>, i: int)
    requires
        0 <= i < lines.len(),
    ensures
        diff_line(lines, lines, i) == "  "@ + lines[i] + "\n"@,
{
}

// ---------------------------------------------------------------------------
// Judgement
// ---------------------------------------------------------------------------
/// A failure with a message.
pub open spec fn fail(line: int, message: Seq<char>) -> OutcomeView {
    OutcomeView::Fail { line, message }
}

/// An error number in words.
pub open spec fn code_text(code: Option<u16>) -> Seq<char> {
    match code {
        Some(c) => numeric::decimal(c as nat),
        None => "none"@,
    }
}

/// The judgement of a statement.
pub open spec fn judge_statement(
    line: int,
    expect_ok: bool,
    expect_code: Option<u16>,
    reply: ReplyView,
) -> OutcomeView {
    match reply {
        ReplyView::Failed { message, code } => if expect_ok {
            fail(line, "expected success, but statement failed: "@ + message)
        } else if expect_code is None || code == expect_code {
            OutcomeView::Pass
        } else {
            fail(
                line,
                "expected error code "@ + numeric::decimal(expect_code->0 as nat) + ", got "@
                    + code_text(code) + ": "@ + message,
            )
        },
        _ => if expect_ok {
            OutcomeView::Pass
        } else {
            fail(line, "expected an error, but statement succeeded"@)
        },
    }
}

/// The judgement of a prepared statement.
pub open spec fn judge_exec(line: int, expect_ok: bool, reply: ReplyView) -> OutcomeView {
    match reply {
        ReplyView::Failed { message, .. } => if expect_ok {
            fail(line, "expected success, but prepared statement failed: "@ + message)
        } else {
            OutcomeView::Pass
        },
        _ => if expect_ok {
            OutcomeView::Pass
        } else {
            fail(line, "expected an error, but prepared statement succeeded"@)
        },
    }
}

/// The judgement of a query.
pub open spec fn judge_query(
    line: int,
    expected: Seq<Seq<char>>,
    reply: ReplyView,
    mismatch: Seq<char>,
    failure: Seq<char>,
) -> OutcomeView {
    match reply {
        ReplyView::Rows(actual) => if actual == expected {
            OutcomeView::Pass
        } else {
            fail(line, mismatch + difference(expected, actual))
        },
        ReplyView::Failed { message, .. } => fail(line, failure + message),
        ReplyView::Done => OutcomeView::Pass,
    }
}

/// What becomes of a record to which the server answered with `reply`.
pub open spec fn judged(record: RecordView, reply: ReplyView) -> OutcomeView {
    match record {
        RecordView::Statement { line, expect_ok, expect_code, .. } => judge_statement(
            line,
            expect_ok,
            expect_code,
            reply,
        ),
        RecordView::Query { line, expected, .. } => judge_query(
            line,
            expected,
            reply,
            "result mismatch:\n"@,
            "query failed: "@,
        ),
        RecordView::QueryTypes { line, expected, .. } => judge_query(
            line,
            expected,
            reply,
            "column-type mismatch:\n"@,
            "query failed: "@,
        ),
        RecordView::QueryLabels { line, expected, .. } => judge_query(
            line,
            expected,
            reply,
            "column-label mismatch:\n"@,
            "query failed: "@,
        ),
        RecordView::Exec { line, expect_ok, .. } => judge_exec(line, expect_ok, reply),
        RecordView::ExecQuery { line, expected, .. } => judge_query(
            line,
            expected,
            reply,
            "result mismatch:\n"@,
            "prepared query failed: "@,
        ),
    }
}

/// A failure whose message is `start` and `rest`.
fn failure(line: usize, start: &str, rest: &str) -> (r: Outcome)
    ensures
        r.deep_view() == fail(line as int, start@ + rest@),
{
    let mut out: Vec<char> = Vec::new();
    text::push_text(&mut out, start);
    text::push_text(&mut out, rest);
    assert(out@ =~= start@ + rest@);
    Outcome::Fail { line, message: text::string_of(&out) }
}

/// A failure because the error number is not the expected one.
fn wrong_code(line: usize, want: u16, got: Option<u16>, message: &str) -> (r: Outcome)
    ensures
        r.deep_view() == fail(
            line as int,
            "expected error code "@ + numeric::decimal(want as nat) + ", got "@ + code_text(got)
                + ": "@ + message@,
        ),
{
    let mut out: Vec<char> = Vec::new();
    text::push_text(&mut out, "expected error code ");
    numeric::push_decimal(&mut out, want as u64);
    text::push_text(&mut out, ", got ");
    match got {
        Some(code) => numeric::push_decimal(&mut out, code as u64),
        None => text::push_text(&mut out, "none"),
    }
    text::push_text(&mut out, ": ");
    text::push_text(&mut out, message);
    assert(out@ =~= "expected error code "@ + numeric::decimal(want as nat) + ", got "@
        + code_text(got) + ": "@ + message@);
    Outcome::Fail { line, message: text::string_of(&out) }
}

/// Whether two lists of lines are the same.
fn same_lines(a: &Vec<String>, b: &Vec<String>) -> (r: bool)
    ensures
        r == (a.deep_view() == b.deep_view()),
{
    if a.len() != b.len() {
        assert(a.deep_view().len() != b.deep_view().len());
        return false;
    }
    for i in 0..a.len()
        invariant
            a@.len() == b@.len(),
            forall|j: int| 0 <= j < i ==> a@[j]@ == b@[j]@,
    {
        if !(a[i] == b[i]) {
            assert(a.deep_view()[i as int] != b.deep_view()[i as int]);
            return false;
        }
    }
    assert(a.deep_view() =~= b.deep_view());
    true
}

/// Judges a query.
fn query_outcome(
    line: usize,
    expected: &Vec<String>,
    reply: &Reply,
    mismatch: &str,
    failed: &str,
) -> (r: Outcome)
    ensures
        r.deep_view() == judge_query(
            line as int,
            expected.deep_view(),
            reply.deep_view(),
            mismatch@,
            failed@,
        ),
{
    match reply {
        Reply::Rows(actual) => if same_lines(actual, expected) {
            Outcome::Pass
        } else {
            failure(line, mismatch, diff(expected, actual).as_str())
        },
        Reply::Failed { message, .. } => failure(line, failed, message.as_str()),
        Reply::Done => Outcome::Pass,
    }
}

/// Judges what the server answered to a record.
pub fn run_record(record: &Record, reply: &Reply) -> (r: Outcome)
    requires
        fits(record.deep_view(), reply.deep_view()),
    ensures
        r.deep_view() == judged(record.deep_view(), reply.deep_view()),
{
    match record {
        Record::Statement { line, expect_ok, expect_code, .. } => match reply {
            Reply::Failed { message, code } => if *expect_ok {
                failure(*line, "expected success, but statement failed: ", message.as_str())
            } else {
                match expect_code {
                    None => Outcome::Pass,
                    Some(want) => match code {
                        Some(got) => if *got == *want {
                            Outcome::Pass
                        } else {
                            wrong_code(*line, *want, Some(*got), message.as_str())
                        },
                        None => wrong_code(*line, *want, None, message.as_str()),
                    },
                }
            },
            _ => if *expect_ok {
                Outcome::Pass
            } else {
                Outcome::Fail {
                    line: *line,
                    message: "expected an error, but statement succeeded".to_string(),
                }
            },
        },
        Record::Query { line, expected, .. } => query_outcome(
            *line,
            expected,
            reply,
            "result mismatch:\n",
            "query failed: ",
        ),
        Record::QueryTypes { line, expected, .. } => query_outcome(
            *line,
            expected,
            reply,
            "column-type mismatch:\n",
            "query failed: ",
        ),
        Record::QueryLabels { line, expected, .. } => query_outcome(
            *line,
            expected,
            reply,
            "column-label mismatch:\n",
            "query failed: ",
        ),
        Record::Exec { line, expect_ok, .. } => match reply {
            Reply::Failed { message, .. } => if *expect_ok {
                failure(*line, "expected success, but prepared statement failed: ", message.as_str())
            } else {
                Outcome::Pass
            },
            _ => if *expect_ok {
                Outcome::Pass
            } else {
                Outcome::Fail {
                    line: *line,
                    message: "expected an error, but prepared statement succeeded".to_string(),
                }
            },
        },
        Record::ExecQuery { line, expected, .. } => query_outcome(
            *line,
            expected,
            reply,
            "result mismatch:\n",
            "prepared query failed: ",
        ),
    }
}

/// What becomes of the records, one by one.
pub open spec fn judged_all(records: Seq<RecordView>, replies: Seq<ReplyView>) -> Seq<OutcomeView> {
    Seq::new(records.len(), |i: int| judged(records[i], replies[i]))
}

/// Judges what the server answered to each of the records.
pub fn run(records: &Vec<Record>, replies: &Vec<Reply>) -> (r: Vec<Outcome>)
    requires
        records@.len() == replies@.len(),
        forall|i: int|
            0 <= i < records@.len() ==> #[trigger] fits(
                records.deep_view()[i],
                replies.deep_view()[i],
            ),
    ensures
        r.deep_view() == judged_all(records.deep_view(), replies.deep_view()),
{
    let mut outcomes: Vec<Outcome> = Vec::new();
    let ghost all = judged_all(records.deep_view(), replies.deep_view());
    for i in 0..records.len()
        invariant
            records@.len() == replies@.len(),
            forall|i: int|
                0 <= i < records@.len() ==> #[trigger] fits(
                    records.deep_view()[i],
                    replies.deep_view()[i],
                ),
            all == judged_all(records.deep_view(), replies.deep_view()),
            outcomes.deep_view() =~= all.take(i as int),
    {
        let ghost before = outcomes.deep_view();
        assert(fits(records.deep_view()[i as int], replies.deep_view()[i as int]));
        outcomes.push(run_record(&records[i], &replies[i]));
        assert(outcomes.deep_view() =~= before.push(all[i as int]));
    }
    assert(all.take(records@.len() as int) =~= all);
    outcomes
}

/// A statement that is to succeed passes if and only if it did; one that is to fail
/// passes if and only if it failed, and with the error number that is asked for, if
/// one is.
pub proof fn statement_passes_as_expected(record: RecordView, reply: ReplyView)
    requires
        fits(record, reply),
        record is Statement || record is Exec,
    ensures
        judged(record, reply) is Pass <==> match record {
            RecordView::Statement { expect_ok, expect_code, .. } => if expect_ok {
                reply is Done
            } else {
                reply matches ReplyView::Failed { code, .. } && (expect_code is None || code
                    == expect_code)
            },
            RecordView::Exec { expect_ok, .. } => expect_ok == (reply is Done),
            _ => false,
        },
{
}

/// A query passes if and only if it gave exactly the expected lines.
pub proof fn query_passes_on_equal_rows(record: RecordView, reply: ReplyView)
    requires
        fits(record, reply),
        !(record is Statement),
        !(record is Exec),
    ensures
        judged(record, reply) is Pass <==> reply == ReplyView::Rows(expected_of(record)),
{
}

/// The lines that a query is expected to give.
pub open spec fn expected_of(record: RecordView) -> Seq<Seq<char>> {
    match record {
        RecordView::Query { expected, .. } => expected,
        RecordView::QueryTypes { expected, .. } => expected,
        RecordView::QueryLabels { expected, .. } => expected,
        RecordView::ExecQuery { expected, .. } => expected,
        _ => seq![],
    }
}

// ---------------------------------------------------------------------------
// Reports
// ---------------------------------------------------------------------------
/// The number of records that passed.
pub open spec fn passes(outcomes: Seq<OutcomeView>) -> nat
    decreases outcomes.len(),
{
    if outcomes.len() == 0 {
        0
    } else if outcomes.last() is Pass {
        passes(outcomes.drop_last()) + 1
    } else {
        passes(outcomes.drop_last())
    }
}

/// Every line of a message but the first is indented.
pub open spec fn indented(message: Seq<char>) -> Seq<char>
    decreases message.len(),
{
    if message.len() == 0 {
        seq![]
    } else if message.last() == '\n' {
        indented(message.drop_last()) + "\n      "@
    } else {
        indented(message.drop_last()).push(message.last())
    }
}

/// How a failure in `file` is reported.
pub open spec fn failure_line(file: Seq<char>, line: int, message: Seq<char>) -> Seq<char> {
    "  "@ + file + ":"@ + numeric::decimal(line as nat) + ": "@ + indented(message)
}

/// The reports of the failures.
pub open spec fn failure_lines(file: Seq<char>, outcomes: Seq<OutcomeView>) -> Seq<Seq<char>>
    decreases outcomes.len(),
{
    if outcomes.len() == 0 {
        seq![]
    } else {
        let before = failure_lines(file, outcomes.drop_last());
        match outcomes.last() {
            OutcomeView::Pass => before,
            OutcomeView::Fail { line, message } => before.push(failure_line(file, line, message)),
        }
    }
}

/// The first line of the report on a file.
pub open spec fn summary(file: Seq<char>, passed: nat, failed: nat) -> Seq<char> {
    if failed == 0 {
        "ok   "@ + file + " ("@ + numeric::decimal(passed) + " passed)"@
    } else {
        "FAIL "@ + file + " ("@ + numeric::decimal(passed) + " passed, "@ + numeric::decimal(failed)
            + " failed)"@
    }
}

/// The report on a file: the counts, and the lines to show.
#[derive(Debug, PartialEq, Eq)]
pub struct Report {
    pub passed: usize,
    pub failed: usize,
    pub lines: Vec<String>,
}

/// Indents every line of a message but the first.
fn indent(message: &str) -> (r: Vec<char>)
    ensures
        r@ == indented(message@),
{
    let chars = text::chars_of(message);
    let mut out: Vec<char> = Vec::new();
    for i in 0..chars.len()
        invariant
            chars@ == message@,
            out@ == indented(chars@.take(i as int)),
    {
        assert(chars@.take(i + 1).drop_last() =~= chars@.take(i as int));
        if chars[i] == '\n' {
            text::push_text(&mut out, "\n      ");
        } else {
            out.push(chars[i]);
        }
    }
    assert(chars@.take(chars@.len() as int) =~= chars@);
    out
}

/// Reports on the outcomes of a file.
pub fn report(file: &str, outcomes: &Vec<Outcome>) -> (r: Report)
    ensures
        r.passed == passes(outcomes.deep_view()),
        r.passed + r.failed == outcomes@.len(),
        r.lines.deep_view() == seq![summary(file@, r.passed as nat, r.failed as nat)]
            + failure_lines(file@, outcomes.deep_view()),
{
    let mut passed: usize = 0;
    let mut failed: usize = 0;
    let mut failures: Vec<String> = Vec::new();
    let ghost all = outcomes.deep_view();
    assert(failures.deep_view() =~= seq![]);
    assert(all.take(0) =~= seq![]);
    for i in 0..outcomes.len()
        invariant
            all == outcomes.deep_view(),
            passed == passes(all.take(i as int)),
            passed + failed == i,
            failures.deep_view() == failure_lines(file@, all.take(i as int)),
    {
        let ghost before = failures.deep_view();
        assert(all.take(i + 1).drop_last() =~= all.take(i as int));
        match &outcomes[i] {
            Outcome::Pass => {
                passed = passed + 1;
            },
            Outcome::Fail { line, message } => {
                failed = failed + 1;
                let mut out: Vec<char> = Vec::new();
                text::push_text(&mut out, "  ");
                text::push_text(&mut out, file);
                text::push_text(&mut out, ":");
                numeric::push_decimal(&mut out, *line as u64);
                text::push_text(&mut out, ": ");
                text::push_chars(&mut out, &indent(message.as_str()));
                assert(out@ =~= failure_line(file@, *line as int, message@));
                failures.push(text::string_of(&out));
                assert(failures.deep_view() =~= before.push(out@));
            },
        }
    }
    assert(all.take(outcomes@.len() as int) =~= all);
    let mut head: Vec<char> = Vec::new();
    if failed == 0 {
        text::push_text(&mut head, "ok   ");
        text::push_text(&mut head, file);
        text::push_text(&mut head, " (");
        numeric::push_decimal(&mut head, passed as u64);
        text::push_text(&mut head, " passed)");
    } else {
        text::push_text(&mut head, "FAIL ");
        text::push_text(&mut head, file);
        text::push_text(&mut head, " (");
        numeric::push_decimal(&mut head, passed as u64);
        text::push_text(&mut head, " passed, ");
        numeric::push_decimal(&mut head, failed as u64);
        text::push_text(&mut head, " failed)");
    }
    assert(head@ =~= summary(file@, passed as nat, failed as nat));
    let mut lines: Vec<String> = Vec::new();
    lines.push(text::string_of(&head));
    let ghost first = lines.deep_view();
    assert(first =~= seq![head@]);
    let mut k: usize = 0;
    while k < failures.len()
        invariant
            k <= failures@.len(),
            lines.deep_view() =~= first + failures.deep_view().take(k as int),
        decreases failures@.len() - k,
    {
        let ghost before = lines.deep_view();
        lines.push(failures[k].clone());
        assert(lines.deep_view() =~= before.push(failures.deep_view()[k as int]));
        k = k + 1;
    }
    assert(failures.deep_view().take(k as int) =~= failures.deep_view());
    Report { passed, failed, lines }
}

/// A failure is reported at the line of its record.
pub proof fn failures_are_at_their_line(record: RecordView, reply: ReplyView)
    ensures
        judged(record, reply) matches OutcomeView::Fail { line, .. } ==> line == match record {
            RecordView::Statement { line, .. } => line,
            RecordView::Query { line, .. } => line,
            RecordView::QueryTypes { line, .. } => line,
            RecordView::QueryLabels { line, .. } => line,
            RecordView::Exec { line, .. } => line,
            RecordView::ExecQuery { line, .. } => line,
        },
{
}

/// A difference shows the lines side by side: common ones as they are, an expected line
/// behind `-`, and an actual one behind `+`.
pub proof fn differences_show_both(expected: Seq<Seq<char>>, actual: Seq<Seq<char>>, i: int)
    requires
        0 <= i,
    ensures
        i < expected.len() && i < actual.len() && expected[i] != actual[i] ==> diff_line(
            expected,
            actual,
            i,
        ) == "- "@ + expected[i] + "\n"@ + "+ "@ + actual[i] + "\n"@,
        i < expected.len() && i < actual.len() && expected[i] == actual[i] ==> diff_line(
            expected,
            actual,
            i,
        ) == "  "@ + expected[i] + "\n"@,
        i < expected.len() && i >= actual.len() ==> diff_line(expected, actual, i) == "- "@
            + expected[i] + "\n"@,
        i >= expected.len() && i < actual.len() ==> diff_line(expected, actual, i) == "+ "@
            + actual[i] + "\n"@,
        diff_lines(expected, actual, 0).len() == 0,
        diff_lines(expected, actual, (i + 1) as nat) == diff_lines(expected, actual, i as nat)
            + diff_line(expected, actual, i),
        difference(expected, actual) == text::trimmed_end(
            diff_lines(
                expected,
                actual,
                if expected.len() < actual.len() {
                    actual.len()
                } else {
                    expected.len()
                },
            ),
        ),
{
}

/// Every outcome is either a pass or a line of the report.
pub proof fn outcomes_are_counted(file: Seq<char>, outcomes: Seq<OutcomeView>)
    ensures
        passes(outcomes) + failure_lines(file, outcomes).len() == outcomes.len(),
        passes(outcomes) == outcomes.len() <==> forall|i: int|
            0 <= i < outcomes.len() ==> (#[trigger] outcomes[i]) is Pass,
    decreases outcomes.len(),
{
    if outcomes.len() > 0 {
        let rest = outcomes.drop_last();
        outcomes_are_counted(file, rest);
        assert(outcomes.last() == outcomes[outcomes.len() - 1]);
        if forall|i: int| 0 <= i < outcomes.len() ==> (#[trigger] outcomes[i]) is Pass {
            assert forall|i: int| 0 <= i < rest.len() implies (#[trigger] rest[i]) is Pass by {
                assert(outcomes[i] is Pass);
            }
        }
        if passes(outcomes) == outcomes.len() {
            assert forall|i: int| 0 <= i < outcomes.len() implies (
            #[trigger] outcomes[i]) is Pass by {
                if i < rest.len() {
                    assert(rest[i] is Pass);
                }
            }
        }
    }
}

/// The failures are reported in their order, each with its file, its line and its
/// message, whose further lines are set in.
pub proof fn failures_are_reported(
    file: Seq<char>,
    outcomes: Seq<OutcomeView>,
    line: int,
    message: Seq<char>,
    c: char,
)
    ensures
        failure_lines(file, outcomes.push(OutcomeView::Pass)) == failure_lines(file, outcomes),
        failure_lines(file, outcomes.push(OutcomeView::Fail { line, message })) == failure_lines(
            file,
            outcomes,
        ).push("  "@ + file + ":"@ + numeric::decimal(line as nat) + ": "@ + indented(message)),
        indented(Seq::<char>::empty()).len() == 0,
        c != '\n' ==> indented(message.push(c)) == indented(message).push(c),
        indented(message.push('\n')) == indented(message) + "\n      "@,
{
    assert(outcomes.push(OutcomeView::Pass).drop_last() =~= outcomes);
    assert(outcomes.push(OutcomeView::Fail { line, message }).drop_last() =~= outcomes);
    assert(message.push(c).drop_last() =~= message);
    assert(message.push('\n').drop_last() =~= message);
}

/// A file is summed up as `ok` if and only if nothing failed in it.
pub proof fn summaries_tell_failures(file: Seq<char>, passed: nat, failed: nat)
    ensures
        failed == 0 ==> summary(file, passed, failed) == "ok   "@ + file + " ("@ + numeric::decimal(
            passed,
        ) + " passed)"@,
        failed > 0 ==> summary(file, passed, failed) == "FAIL "@ + file + " ("@ + numeric::decimal(
            passed,
        ) + " passed, "@ + numeric::decimal(failed) + " failed)"@,
{
}

/// Every record is judged by the reply that stands at its place.
pub proof fn records_meet_their_replies(
    records: Seq<RecordView>,
    replies: Seq<ReplyView>,
    i: int,
)
    requires
        0 <= i < records.len(),
        records.len() == replies.len(),
    ensures
        judged_all(records, replies).len() == records.len(),
        judged_all(records, replies)[i] == judged(records[i], replies[i]),
{
}

} // verus!
