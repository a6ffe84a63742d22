use turso_mysql::protocol::constants::{collation, column_flags, column_type};
use turso_mysql::server::types::map_type;

fn code_of(decl: &str) -> u8 {
    map_type(Some(decl), None).code
}

#[test]
fn maps_integer_widths() {
    assert_eq!(code_of("TINYINT"), column_type::MYSQL_TYPE_TINY);
    assert_eq!(code_of("SMALLINT"), column_type::MYSQL_TYPE_SHORT);
    assert_eq!(code_of("MEDIUMINT"), column_type::MYSQL_TYPE_INT24);
    assert_eq!(code_of("INT"), column_type::MYSQL_TYPE_LONG);
    assert_eq!(code_of("INTEGER"), column_type::MYSQL_TYPE_LONG);
    assert_eq!(code_of("BIGINT"), column_type::MYSQL_TYPE_LONGLONG);
}

#[test]
fn unsigned_modifier_sets_flag() {
    let wire = map_type(Some("BIGINT UNSIGNED"), None);
    assert_eq!(wire.code, column_type::MYSQL_TYPE_LONGLONG);
    assert_ne!(wire.flags & column_flags::UNSIGNED_FLAG, 0);
}

#[test]
fn maps_string_and_blob_families() {
    assert_eq!(code_of("VARCHAR"), column_type::MYSQL_TYPE_VAR_STRING);
    assert_eq!(code_of("CHAR"), column_type::MYSQL_TYPE_STRING);
    assert_eq!(code_of("TEXT"), column_type::MYSQL_TYPE_BLOB);
    assert_eq!(code_of("JSON"), column_type::MYSQL_TYPE_JSON);

    let blob = map_type(Some("BLOB"), None);
    assert_eq!(blob.code, column_type::MYSQL_TYPE_BLOB);
    assert_eq!(blob.charset, collation::BINARY);
    assert_ne!(blob.flags & column_flags::BLOB_FLAG, 0);
}

#[test]
fn maps_decimal_and_temporal() {
    assert_eq!(code_of("DECIMAL"), column_type::MYSQL_TYPE_NEWDECIMAL);
    assert_eq!(code_of("DATE"), column_type::MYSQL_TYPE_DATE);
    assert_eq!(code_of("DATETIME"), column_type::MYSQL_TYPE_DATETIME);
    assert_eq!(code_of("TIMESTAMP"), column_type::MYSQL_TYPE_TIMESTAMP);
}

#[test]
fn falls_back_to_affinity_for_unknown_and_expression_columns() {
    // Unknown declared type → affinity wins.
    assert_eq!(
        map_type(Some("GEOMETRY"), Some("TEXT")).code,
        column_type::MYSQL_TYPE_VAR_STRING
    );
    // No declared type (expression column) → affinity drives the mapping.
    assert_eq!(
        map_type(None, Some("INTEGER")).code,
        column_type::MYSQL_TYPE_LONGLONG
    );
    assert_eq!(
        map_type(None, Some("REAL")).code,
        column_type::MYSQL_TYPE_DOUBLE
    );
    // Nothing at all → text default.
    assert_eq!(
        map_type(None, None).code,
        column_type::MYSQL_TYPE_VAR_STRING
    );
}
