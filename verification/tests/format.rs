use turso_mysql::conformance::format::{parse, Record};

#[test]
fn parses_statements_and_queries() {
    let content = "\
# a comment
statement ok
CREATE TABLE t (id INT)

statement error
CREATE TABLE

query
SELECT id FROM t ORDER BY id
----
1
2
";
    let records = parse(content).unwrap();
    assert_eq!(records.len(), 3);
    assert!(matches!(
        &records[0],
        Record::Statement {
            expect_ok: true,
            ..
        }
    ));
    assert!(matches!(
        &records[1],
        Record::Statement {
            expect_ok: false,
            ..
        }
    ));
    match &records[2] {
        Record::Query { expected, .. } => assert_eq!(expected, &["1", "2"]),
        _ => panic!("expected a query record"),
    }
}

#[test]
fn query_without_separator_is_an_error() {
    let content = "query\nSELECT 1\n";
    assert!(parse(content).is_err());
}

#[test]
fn parses_statement_error_with_code() {
    let content = "\
statement error 1062
INSERT INTO t VALUES (1)

statement error
INSERT INTO t VALUES (2)
";
    let records = parse(content).unwrap();
    assert!(matches!(
        &records[0],
        Record::Statement {
            expect_ok: false,
            expect_code: Some(1062),
            ..
        }
    ));
    // The bare form leaves the code unpinned.
    assert!(matches!(
        &records[1],
        Record::Statement {
            expect_ok: false,
            expect_code: None,
            ..
        }
    ));
}

#[test]
fn statement_error_with_bad_code_is_an_error() {
    assert!(parse("statement error notanumber\nSELECT 1\n").is_err());
}

#[test]
fn files_with_a_blank_line_between_them_are_read_apart() {
    let statement = |line: usize, sql: &str| Record::Statement {
        line,
        expect_ok: true,
        expect_code: None,
        sql: sql.to_string(),
    };
    let second = "# second\nquery\nSELECT 1\n----\n1";
    let rows = |line: usize| Record::Query {
        line,
        sql: "SELECT 1".to_string(),
        expected: vec!["1".to_string()],
    };
    assert_eq!(parse(second).unwrap(), vec![rows(2)]);
    for (first, lines) in [("statement ok\nA", 3), ("statement ok\nA\n", 4)] {
        assert_eq!(parse(first).unwrap(), vec![statement(1, "A")]);
        let both = format!("{first}\n\n{second}");
        assert_eq!(parse(&both).unwrap(), vec![statement(1, "A"), rows(lines + 2)]);
    }
    assert_eq!(parse(&format!("\n\n{second}")).unwrap(), vec![rows(4)]);
}
