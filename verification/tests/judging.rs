use turso_mysql::conformance::format::{parse, parse_params_line, Problem, Record};
use turso_mysql::conformance::judge::{diff, report, run, run_record, Outcome, Reply};
use turso_mysql::conformance::render::{
    column_type_name, join_fields, render_row, render_value, short_type_name, to_params, CellValue, Param,
};

fn strings(v: &[&str]) -> Vec<String> {
    v.iter().map(|s| s.to_string()).collect()
}

fn failed(message: &str, code: Option<u16>) -> Reply {
    Reply::Failed { message: message.to_string(), code }
}

fn fail(line: usize, message: &str) -> Outcome {
    Outcome::Fail { line, message: message.to_string() }
}

#[test]
fn every_directive_is_read() {
    let content = "# a comment\n\nquery types\nSELECT 1\n----\nLONGLONG\n\nquery labels\nSELECT 1 AS a,\n 2\n----\na\t2\n\nexec ok\nINSERT INTO t VALUES (?)\nparams 1\tx\n\nexec error\nBAD\n\nexec query\nSELECT ?\nparams NULL\n----\nNULL\n";
    assert_eq!(
        parse(content).unwrap(),
        vec![
            Record::QueryTypes {
                line: 3,
                sql: "SELECT 1".to_string(),
                expected: strings(&["LONGLONG"]),
            },
            Record::QueryLabels {
                line: 8,
                sql: "SELECT 1 AS a,\n 2".to_string(),
                expected: strings(&["a\t2"]),
            },
            Record::Exec {
                line: 14,
                expect_ok: true,
                sql: "INSERT INTO t VALUES (?)".to_string(),
                params: strings(&["1", "x"]),
            },
            Record::Exec { line: 18, expect_ok: false, sql: "BAD".to_string(), params: vec![] },
            Record::ExecQuery {
                line: 21,
                sql: "SELECT ?".to_string(),
                params: strings(&["NULL"]),
                expected: strings(&["NULL"]),
            },
        ]
    );
}

#[test]
fn malformed_files_are_refused() {
    for (content, line, message) in [
        ("query\nSELECT 1\n", 1, "line 1: `query` block is missing its `----` separator"),
        ("query\nSELECT 1\n\n----\n", 1, "line 1: `query` block is missing its `----` separator"),
        ("\nquery types\nSELECT 1", 2, "line 2: query block is missing its `----` separator"),
        ("exec query\nSELECT 1", 1, "line 1: `exec query` block is missing its `----` separator"),
        ("statement ok\n\nSELECT 1", 1, "line 1: `statement ok` has no SQL"),
        ("exec ok\nparams 1", 1, "line 1: `exec ok` has no SQL"),
        ("statement error 70000\nX", 1, "line 1: invalid error code `70000`"),
        ("statement maybe\nX", 1, "line 1: unknown directive `statement maybe`"),
    ] {
        let e = parse(content).unwrap_err();
        assert_eq!(e.line, line);
        assert_eq!(e.message(), message);
    }
    assert_eq!(
        parse("what").unwrap_err().problem,
        Problem::UnknownDirective("what".to_string())
    );
}

#[test]
fn parameter_lines_are_split_at_tabs() {
    assert_eq!(parse_params_line("params 1\ttwo\tNULL"), Some(strings(&["1", "two", "NULL"])));
    assert_eq!(parse_params_line("params"), Some(strings(&[""])));
    assert_eq!(parse_params_line("paramsX 1"), None);
    assert_eq!(parse_params_line("SELECT params"), None);
}

#[test]
fn statements_are_judged() {
    let record = |expect_ok, expect_code| Record::Statement {
        line: 4,
        expect_ok,
        expect_code,
        sql: "X".to_string(),
    };
    assert_eq!(run_record(&record(true, None), &Reply::Done), Outcome::Pass);
    assert_eq!(
        run_record(&record(true, None), &failed("boom", None)),
        fail(4, "expected success, but statement failed: boom")
    );
    assert_eq!(
        run_record(&record(false, None), &Reply::Done),
        fail(4, "expected an error, but statement succeeded")
    );
    assert_eq!(run_record(&record(false, None), &failed("boom", Some(7))), Outcome::Pass);
    assert_eq!(run_record(&record(false, Some(1062)), &failed("dup", Some(1062))), Outcome::Pass);
    assert_eq!(
        run_record(&record(false, Some(1062)), &failed("other", Some(1105))),
        fail(4, "expected error code 1062, got 1105: other")
    );
    assert_eq!(
        run_record(&record(false, Some(1062)), &failed("lost", None)),
        fail(4, "expected error code 1062, got none: lost")
    );
    let exec = |expect_ok| Record::Exec { line: 5, expect_ok, sql: "X".to_string(), params: vec![] };
    assert_eq!(run_record(&exec(true), &Reply::Done), Outcome::Pass);
    assert_eq!(
        run_record(&exec(false), &Reply::Done),
        fail(5, "expected an error, but prepared statement succeeded")
    );
    assert_eq!(
        run_record(&exec(true), &failed("boom", None)),
        fail(5, "expected success, but prepared statement failed: boom")
    );
    assert_eq!(run_record(&exec(false), &failed("boom", None)), Outcome::Pass);
}

#[test]
fn a_query_passes_on_equal_rows_only() {
    let query = Record::Query {
        line: 2,
        sql: "X".to_string(),
        expected: strings(&["1", "2"]),
    };
    assert_eq!(run_record(&query, &Reply::Rows(strings(&["1", "2"]))), Outcome::Pass);
    assert_eq!(
        run_record(&query, &Reply::Rows(strings(&["1", "3", "4"]))),
        fail(2, "result mismatch:\n  1\n- 2\n+ 3\n+ 4")
    );
    assert_eq!(run_record(&query, &failed("boom", None)), fail(2, "query failed: boom"));
    let labels = Record::QueryLabels {
        line: 3,
        sql: "X".to_string(),
        expected: strings(&["a"]),
    };
    assert_eq!(
        run_record(&labels, &Reply::Rows(vec![])),
        fail(3, "column-label mismatch:\n- a")
    );
    let types = Record::QueryTypes { line: 3, sql: "X".to_string(), expected: strings(&["a"]) };
    assert_eq!(
        run_record(&types, &Reply::Rows(strings(&["b"]))),
        fail(3, "column-type mismatch:\n- a\n+ b")
    );
    let prepared = Record::ExecQuery {
        line: 9,
        sql: "X".to_string(),
        params: vec![],
        expected: vec![],
    };
    assert_eq!(
        run_record(&prepared, &failed("boom", None)),
        fail(9, "prepared query failed: boom")
    );
}

#[test]
fn records_are_judged_one_by_one() {
    let query = |line, row: &str| Record::Query {
        line,
        sql: "X".to_string(),
        expected: strings(&[row]),
    };
    assert_eq!(
        run(
            &vec![query(1, "a"), query(4, "b")],
            &vec![Reply::Rows(strings(&["a"])), Reply::Rows(strings(&["a"]))],
        ),
        vec![Outcome::Pass, fail(4, "result mismatch:\n- b\n+ a")]
    );
    assert_eq!(run(&vec![], &vec![]), vec![]);
}

#[test]
fn differences_are_shown_line_by_line() {
    assert_eq!(diff(&strings(&["a", "b"]), &strings(&["a", "b"])), "  a\n  b");
    assert_eq!(diff(&strings(&["a"]), &strings(&[])), "- a");
    assert_eq!(diff(&strings(&[]), &strings(&["a", " "])), "+ a\n+");
    assert_eq!(diff(&strings(&[]), &strings(&[])), "");
}

#[test]
fn reports_count_and_indent() {
    let report_ok = report("a.test", &vec![Outcome::Pass, Outcome::Pass]);
    assert_eq!((report_ok.passed, report_ok.failed), (2, 0));
    assert_eq!(report_ok.lines, ["ok   a.test (2 passed)"]);
    let mixed = report("b.test", &vec![Outcome::Pass, fail(7, "x\ny")]);
    assert_eq!((mixed.passed, mixed.failed), (1, 1));
    assert_eq!(mixed.lines, ["FAIL b.test (1 passed, 1 failed)", "  b.test:7: x\n      y"]);
}

#[test]
fn values_are_written_as_test_files_have_them() {
    assert_eq!(render_value(&CellValue::Null), "NULL");
    assert_eq!(render_value(&CellValue::Bytes(vec![b'x', 0xff])), "x\u{fffd}");
    assert_eq!(render_value(&CellValue::Int(-5)), "-5");
    assert_eq!(render_value(&CellValue::UInt(u64::MAX)), "18446744073709551615");
    assert_eq!(render_value(&CellValue::Real("1.5".to_string())), "1.5");
    assert_eq!(render_value(&CellValue::Date(2024, 1, 2, 0, 0, 0, 0)), "2024-01-02 00:00:00");
    assert_eq!(
        render_value(&CellValue::Date(2024, 1, 2, 3, 4, 5, 6)),
        "2024-01-02 03:04:05.000006"
    );
    assert_eq!(render_value(&CellValue::Time(true, 1, 2, 3, 4, 0)), "-26:03:04");
    assert_eq!(render_row(&vec![CellValue::Int(1), CellValue::Null]), "1\tNULL");
    assert_eq!(join_fields(&vec!["LONG".to_string(), "DATE".to_string()]), "LONG\tDATE");
    assert_eq!(join_fields(&vec!["id".to_string()]), "id");
    assert_eq!(join_fields(&Vec::new()), "");
}

#[test]
fn column_types_have_short_names() {
    assert_eq!(short_type_name("MYSQL_TYPE_LONG"), "LONG");
    assert_eq!(short_type_name("OTHER"), "OTHER");
    assert_eq!(column_type_name(3), Some("LONG".to_string()));
    assert_eq!(column_type_name(0xfd), Some("VAR_STRING".to_string()));
    assert_eq!(column_type_name(0x20), None);
}

#[test]
fn parameters_are_typed() {
    assert_eq!(
        to_params(&strings(&["NULL", "-5", "1.5", "x", "9223372036854775808"])),
        vec![
            Param::Null,
            Param::Int(-5),
            Param::Word("1.5".to_string()),
            Param::Word("x".to_string()),
            Param::Word("9223372036854775808".to_string()),
        ]
    );
}
