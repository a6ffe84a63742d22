use turso_mysql::server::errors::{
    error_code_and_state, EngineError, ER_BAD_FIELD_ERROR, ER_BAD_NULL_ERROR, ER_DUP_ENTRY,
    ER_ERROR_GENERAL, ER_NO_SUCH_TABLE, ER_TABLE_EXISTS_ERROR,
};
use turso_mysql::server::probe::is_row_count_query;

#[test]
fn maps_engine_errors_to_mysql_codes() {
    let cases = [
        (
            EngineError::Constraint("UNIQUE constraint failed: t.k (19)".into()),
            ER_DUP_ENTRY,
            *b"23000",
        ),
        (
            EngineError::Constraint("NOT NULL constraint failed: t.c".into()),
            ER_BAD_NULL_ERROR,
            *b"23000",
        ),
        (
            EngineError::ParseError("no such table: t".into()),
            ER_NO_SUCH_TABLE,
            *b"42S02",
        ),
        (
            EngineError::ParseError("no such column: c".into()),
            ER_BAD_FIELD_ERROR,
            *b"42S22",
        ),
        (
            EngineError::ParseError("table t has no column named c".into()),
            ER_BAD_FIELD_ERROR,
            *b"42S22",
        ),
        (
            EngineError::ParseError("table t already exists".into()),
            ER_TABLE_EXISTS_ERROR,
            *b"42S01",
        ),
    ];
    for (err, code, state) in cases {
        assert_eq!(error_code_and_state(&err), (code, state), "for {err:?}");
    }

    // An unrecognized error keeps the generic code and SQLSTATE.
    assert_eq!(
        error_code_and_state(&EngineError::Other),
        (ER_ERROR_GENERAL, *b"HY000")
    );
    // A CHECK constraint is a constraint but not one we map specifically.
    assert_eq!(
        error_code_and_state(&EngineError::Constraint("CHECK constraint failed".into())),
        (ER_ERROR_GENERAL, *b"HY000")
    );
}

#[test]
fn recognizes_row_count_query() {
    // The bare standalone form, case- and whitespace-insensitive, with an
    // optional trailing semicolon and a space before the parens.
    for sql in [
        "SELECT ROW_COUNT()",
        "select row_count()",
        "  SELECT   ROW_COUNT()  ",
        "SELECT ROW_COUNT();",
        "SELECT ROW_COUNT ()",
    ] {
        assert!(is_row_count_query(sql), "should match `{sql}`");
    }
    // Anything else falls through to the parser (which rejects an inline use).
    for sql in [
        "SELECT ROW_COUNT() + 1",
        "SELECT ROW_COUNT(), 1",
        "SELECT FOUND_ROWS()",
        "SELECT 1",
    ] {
        assert!(!is_row_count_query(sql), "should not match `{sql}`");
    }
}
