use turso_mysql::server::catalog::BASE_TABLES_QUERY;
use turso_mysql::server::like::like_match;
use turso_mysql::server::listing::{build_variables, table_status_columns};
use turso_mysql::server::schema::{is_text_type, normalize_column_type, normalize_default};
use turso_mysql::server::show::{
    parse_maintenance, parse_show_columns, parse_show_empty_enumeration, parse_show_index,
    parse_show_table_status, parse_show_tables, parse_show_variables, parse_show_warnings,
    ShowVariables,
};

#[test]
fn parses_full_columns_from_backtick_table() {
    let p = parse_show_columns("SHOW FULL COLUMNS FROM `wptests_options`").unwrap();
    assert!(p.full);
    assert_eq!(p.table, "wptests_options");
}

#[test]
fn normalizes_string_default() {
    // String defaults lose their surrounding quotes; `''` → empty.
    assert_eq!(normalize_default(Some("'hi'".to_string())), Some("hi".to_string()));
    assert_eq!(normalize_default(Some("''".to_string())), Some(String::new()));
    assert_eq!(
        normalize_default(Some("'a''b'".to_string())),
        Some("a'b".to_string())
    );
    // Numeric, keyword, and NULL defaults are unchanged.
    assert_eq!(normalize_default(Some("0".to_string())), Some("0".to_string()));
    assert_eq!(normalize_default(Some("5".to_string())), Some("5".to_string()));
    assert_eq!(
        normalize_default(Some("CURRENT_TIMESTAMP".to_string())),
        Some("CURRENT_TIMESTAMP".to_string())
    );
    assert_eq!(normalize_default(None), None);
}

#[test]
fn normalizes_integer_display_width() {
    // Integer display widths are stripped, like MySQL 8.0.
    assert_eq!(normalize_column_type("INT(11)"), "int");
    assert_eq!(normalize_column_type("int(11) unsigned"), "int unsigned");
    assert_eq!(normalize_column_type("BIGINT(20) UNSIGNED"), "bigint unsigned");
    assert_eq!(normalize_column_type("smallint(6)"), "smallint");
    assert_eq!(normalize_column_type("mediumint(9)"), "mediumint");
    assert_eq!(normalize_column_type("integer"), "int");
    assert_eq!(normalize_column_type("int"), "int");
    assert_eq!(normalize_column_type("bigint unsigned"), "bigint unsigned");

    // `tinyint(1)` (boolean) and zerofill columns keep the width.
    assert_eq!(normalize_column_type("tinyint(1)"), "tinyint(1)");
    assert_eq!(normalize_column_type("tinyint(4)"), "tinyint");
    assert_eq!(
        normalize_column_type("int(10) unsigned zerofill"),
        "int(10) unsigned zerofill"
    );

    // Non-integer types keep their size, lowercased.
    assert_eq!(normalize_column_type("VARCHAR(60)"), "varchar(60)");
    assert_eq!(normalize_column_type("Decimal(10,2)"), "decimal(10,2)");
    assert_eq!(normalize_column_type("LONGTEXT"), "longtext");
}

#[test]
fn parses_show_tables() {
    let p = parse_show_tables("SHOW TABLES").unwrap();
    assert!(!p.full);
    assert_eq!(p.like, None);

    let p = parse_show_tables("SHOW FULL TABLES LIKE 'wp_%'").unwrap();
    assert!(p.full);
    assert_eq!(p.like.as_deref(), Some("wp_%"));

    // `FROM db` qualifier is accepted and ignored.
    assert!(parse_show_tables("SHOW TABLES FROM mydb LIKE 'a%'").is_some());

    // Not SHOW TABLES, or an unhandled WHERE form.
    assert!(parse_show_tables("SHOW COLUMNS FROM t").is_none());
    assert!(parse_show_tables("SHOW TABLES WHERE 1").is_none());
}

#[test]
fn base_tables_query_excludes_internal_tables() {
    // The shared schema query both SHOW TABLES and SHOW TABLE STATUS use must
    // filter out SQLite's `sqlite_%` tables and turso's `__turso_internal_*`
    // bookkeeping tables (with the underscores escaped for `LIKE`).
    assert!(BASE_TABLES_QUERY.contains("name NOT LIKE 'sqlite_%'"));
    assert!(BASE_TABLES_QUERY.contains(r"name NOT LIKE '\_\_turso\_internal\_%' ESCAPE '\'"));
}

#[test]
fn parses_show_warnings_and_errors() {
    for sql in [
        "SHOW WARNINGS",
        "SHOW ERRORS",
        "SHOW WARNINGS LIMIT 5",
        "SHOW WARNINGS LIMIT 1, 5",
        "show warnings;",
    ] {
        let result = parse_show_warnings(sql).unwrap_or_else(|| panic!("`{sql}` should parse"));
        assert_eq!(result.columns, vec!["Level", "Code", "Message"]);
        assert!(result.rows.is_empty(), "`{sql}` should have no rows");
    }
    // The `COUNT(*)` form and unrelated SHOWs fall through.
    assert!(parse_show_warnings("SHOW COUNT(*) WARNINGS").is_none());
    assert!(parse_show_warnings("SHOW TABLES").is_none());
}

#[test]
fn parses_show_empty_enumeration() {
    // Each enumerates objects this engine never has, so it is always empty.
    for (sql, first_col, ncols) in [
        ("SHOW TRIGGERS", "Trigger", 11),
        ("SHOW EVENTS", "Db", 15),
        ("SHOW PROCEDURE STATUS", "Db", 12),
        ("SHOW FUNCTION STATUS", "Db", 12),
        // A trailing filter is accepted and irrelevant on an empty set.
        ("SHOW TRIGGERS FROM conf", "Trigger", 11),
        ("SHOW PROCEDURE STATUS LIKE 'wp_%'", "Db", 12),
        ("show function status where db = 'conf';", "Db", 12),
    ] {
        let result =
            parse_show_empty_enumeration(sql).unwrap_or_else(|| panic!("`{sql}` should parse"));
        assert_eq!(result.columns.len(), ncols, "column count for `{sql}`");
        assert_eq!(result.columns[0], first_col);
        assert!(result.rows.is_empty(), "`{sql}` should have no rows");
    }
    // Plain `SHOW STATUS` (runtime counters) and unrelated SHOWs fall through.
    assert!(parse_show_empty_enumeration("SHOW STATUS").is_none());
    assert!(parse_show_empty_enumeration("SHOW STATUS LIKE 'Uptime'").is_none());
    assert!(parse_show_empty_enumeration("SHOW TABLES").is_none());
}

#[test]
fn parses_show_table_status() {
    assert!(parse_show_table_status("SHOW TABLE STATUS")
        .unwrap()
        .name_filter
        .is_none());
    // `LIKE 'pat'` is a like-filter on the name.
    assert_eq!(
        parse_show_table_status("SHOW TABLE STATUS LIKE 'wp_posts'")
            .unwrap()
            .name_filter,
        Some((true, "wp_posts".to_string()))
    );
    // `WHERE Name = 'tbl'` is an exact filter; `WHERE Name LIKE 'pat'` a
    // like-filter (WordPress's `wpdb` issues the `=` form).
    assert_eq!(
        parse_show_table_status("SHOW TABLE STATUS WHERE Name = 'wp_posts'")
            .unwrap()
            .name_filter,
        Some((false, "wp_posts".to_string()))
    );
    assert_eq!(
        parse_show_table_status("SHOW TABLE STATUS WHERE Name LIKE 'wp\\_%'")
            .unwrap()
            .name_filter,
        Some((true, "wp\\_%".to_string()))
    );
    // The `{FROM|IN} db` qualifier is accepted and ignored.
    assert!(parse_show_table_status("SHOW TABLE STATUS FROM mydb LIKE 't'").is_some());
    // Unrelated statements and a non-`Name` WHERE column fall through.
    assert!(parse_show_table_status("SHOW TABLES").is_none());
    assert!(parse_show_table_status("SHOW TABLE STATUS WHERE Engine = 'InnoDB'").is_none());
    // The 18-column MySQL shape is reported in order.
    assert_eq!(table_status_columns().len(), 18);
    assert_eq!(table_status_columns()[0], "Name");
    assert_eq!(table_status_columns()[14], "Collation");
    assert_eq!(table_status_columns()[17], "Comment");
}

#[test]
fn parses_show_variables() {
    assert_eq!(parse_show_variables("SHOW VARIABLES").unwrap().like, None);
    assert_eq!(
        parse_show_variables("SHOW VARIABLES LIKE 'max_allowed_packet'")
            .unwrap()
            .like
            .as_deref(),
        Some("max_allowed_packet")
    );
    // The GLOBAL / SESSION scope is accepted.
    assert!(parse_show_variables("SHOW GLOBAL VARIABLES LIKE 'autocommit'").is_some());
    assert!(parse_show_variables("SHOW SESSION VARIABLES").is_some());
    // Unrelated statements and the WHERE form fall through.
    assert!(parse_show_variables("SHOW TABLES").is_none());
    assert!(parse_show_variables("SHOW VARIABLES WHERE Variable_name = 'x'").is_none());
}

#[test]
fn build_variables_filters_and_orders() {
    // An exact name yields one row.
    let one = build_variables(&ShowVariables {
        like: Some("autocommit".to_string()),
    });
    assert_eq!(one.rows.len(), 1);
    assert_eq!(one.rows[0][0].as_deref(), Some("autocommit"));
    assert_eq!(one.rows[0][1].as_deref(), Some("1"));

    // A `%` wildcard matches several, ordered by name; `_` matches one char;
    // matching is case-insensitive.
    let many = build_variables(&ShowVariables {
        like: Some("CHARACTER_SET_C%".to_string()),
    });
    let names: Vec<_> = many.rows.iter().map(|r| r[0].clone().unwrap()).collect();
    assert_eq!(names, ["character_set_client", "character_set_connection"]);

    // An unknown variable yields no rows.
    let none = build_variables(&ShowVariables {
        like: Some("no_such_xyzzy".to_string()),
    });
    assert!(none.rows.is_empty());
}

#[test]
fn like_match_semantics() {
    assert!(like_match("autocommit", "autocommit"));
    assert!(like_match("AUTO%", "autocommit"));
    assert!(like_match("autocommi_", "autocommit"));
    assert!(like_match("%commit", "autocommit"));
    assert!(like_match("%", "anything"));
    assert!(!like_match("autocommi_", "autocommit_extra"));
    assert!(!like_match("xyz", "autocommit"));
}

#[test]
fn parses_plain_columns_and_fields_synonym() {
    let p = parse_show_columns("SHOW COLUMNS FROM t").unwrap();
    assert!(!p.full);
    assert_eq!(p.table, "t");
    assert_eq!(parse_show_columns("SHOW FIELDS IN t").unwrap().table, "t");
}

#[test]
fn parses_db_qualified_table() {
    let p = parse_show_columns("SHOW COLUMNS FROM `mydb`.`t`").unwrap();
    assert_eq!(p.table, "t");
}

#[test]
fn rejects_unrelated_and_unhandled_forms() {
    assert!(parse_show_columns("SHOW TABLES").is_none());
    assert!(parse_show_columns("SHOW VARIABLES LIKE 'x'").is_none());
    assert!(parse_show_columns("SELECT 1").is_none());
    // A compound WHERE or an unknown column still falls through to the parser.
    assert!(parse_show_columns("SHOW COLUMNS FROM t WHERE Bogus = 'x'").is_none());
    assert!(
        parse_show_columns("SHOW COLUMNS FROM t WHERE Field = 'a' AND Null = 'NO'").is_none()
    );
}

#[test]
fn parses_show_columns_with_filter() {
    // `LIKE 'pat'` filters on the Field (column name).
    let p = parse_show_columns("SHOW COLUMNS FROM t LIKE 'a%'").unwrap();
    let f = p.filter.expect("a filter");
    assert_eq!(f.column, "Field");
    assert!(f.like);
    assert_eq!(f.value, "a%");

    // `WHERE col = 'value'` filters on a named output column.
    let f = parse_show_columns("SHOW COLUMNS FROM t WHERE Field='id'")
        .unwrap()
        .filter
        .expect("a filter");
    assert_eq!(f.column, "Field");
    assert!(!f.like);
    assert_eq!(f.value, "id");

    // `Collation`/`Privileges`/`Comment` are only valid columns in the FULL
    // form, so a WHERE on them parses only there.
    assert!(parse_show_columns("SHOW FULL COLUMNS FROM t WHERE Collation='x'")
        .unwrap()
        .filter
        .is_some());
    assert!(parse_show_columns("SHOW COLUMNS FROM t WHERE Collation='x'").is_none());

    // The bare form has no filter.
    assert!(parse_show_columns("SHOW COLUMNS FROM t")
        .unwrap()
        .filter
        .is_none());
}

#[test]
fn text_types_carry_a_collation() {
    assert!(is_text_type("VARCHAR"));
    assert!(is_text_type("text"));
    assert!(is_text_type("LONGTEXT"));
    assert!(!is_text_type("INT"));
    assert!(!is_text_type("BIGINT"));
}

#[test]
fn parses_maintenance_statements() {
    // Each op yields a `status`/`OK` row per table with the op name.
    let r = parse_maintenance("ANALYZE TABLE t").unwrap();
    assert_eq!(r.columns, vec!["Table", "Op", "Msg_type", "Msg_text"]);
    assert_eq!(
        r.rows,
        vec![vec![
            Some("t".to_string()),
            Some("analyze".to_string()),
            Some("status".to_string()),
            Some("OK".to_string()),
        ]]
    );

    // The op name is taken from the keyword.
    for (sql, op) in [
        ("CHECK TABLE t", "check"),
        ("OPTIMIZE TABLE t", "optimize"),
        ("REPAIR TABLE t", "repair"),
    ] {
        assert_eq!(parse_maintenance(sql).unwrap().rows[0][1], Some(op.to_string()));
    }

    // A comma-separated list gives one row per table; the `LOCAL` modifier
    // and trailing options are ignored; a `db.tbl` name uses the table part.
    assert_eq!(parse_maintenance("ANALYZE TABLE a, b").unwrap().rows.len(), 2);
    assert_eq!(parse_maintenance("OPTIMIZE LOCAL TABLE t").unwrap().rows.len(), 1);
    assert_eq!(parse_maintenance("CHECK TABLE t QUICK").unwrap().rows.len(), 1);
    assert_eq!(
        parse_maintenance("ANALYZE TABLE d.t").unwrap().rows[0][0],
        Some("t".to_string())
    );

    // Unrelated statements fall through.
    assert!(parse_maintenance("SELECT 1").is_none());
    assert!(parse_maintenance("ANALYZE t").is_none()); // missing TABLE
}

#[test]
fn parses_show_index_with_where_filter() {
    // Plain SHOW INDEX has no filter.
    let p = parse_show_index("SHOW INDEX FROM t").unwrap();
    assert_eq!(p.table, "t");
    assert!(p.filter.is_none());

    // `WHERE Key_name='a_key'` (no spaces, as WordPress emits) parses into an
    // exact-match filter with the value unquoted.
    let p = parse_show_index("SHOW INDEX FROM t WHERE Key_name='a_key'").unwrap();
    let f = p.filter.expect("a filter");
    assert_eq!(f.column, "Key_name");
    assert!(!f.like);
    assert_eq!(f.value, "a_key");

    // `LIKE` parses into a wildcard filter; the column match is
    // case-insensitive.
    let p = parse_show_index("SHOW INDEXES FROM t WHERE key_name LIKE 'a%'").unwrap();
    let f = p.filter.expect("a filter");
    assert!(f.like);
    assert_eq!(f.value, "a%");

    // A bare (unquoted) value is taken verbatim.
    let f = parse_show_index("SHOW INDEX FROM t WHERE Non_unique = 0")
        .unwrap()
        .filter
        .expect("a filter");
    assert_eq!(f.value, "0");

    // An unknown column or a compound predicate falls through (None) so the
    // statement is reported unsupported rather than silently mis-filtered.
    assert!(parse_show_index("SHOW INDEX FROM t WHERE Bogus = 'x'").is_none());
    assert!(parse_show_index("SHOW INDEX FROM t WHERE Key_name = 'a' AND Seq_in_index = 1").is_none());
}
