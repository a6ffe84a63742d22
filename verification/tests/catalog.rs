use turso_mysql::server::catalog::{
    build, build_index, create_sql_query, index_info_query, index_list_query, quote_ident,
    row_count_query, rows_are_wide, table_info_query, table_status_query, tables_query, IndexRows,
    ShowOutcome, BASE_TABLES_QUERY,
};
use turso_mysql::server::listing::{
    adjust_indexes_for_dropped_column, build_table_status, build_tables, build_variables,
    table_names, table_row_count,
};
use turso_mysql::server::request::{try_handle, ShowRequest};
use turso_mysql::server::schema::{declared_column_types, parse_column_def, split_column_list};
use turso_mysql::server::show::{
    parse_describe, parse_show_columns, parse_show_index, parse_show_table_status,
    parse_show_tables, ColumnsResult, ShowVariables,
};
use turso_mysql::server::value::Value;

fn t(s: &str) -> Value {
    Value::Text(s.to_string())
}

fn i(n: i64) -> Value {
    Value::Integer(n)
}

fn some(s: &str) -> Option<String> {
    Some(s.to_string())
}

/// Two columns: `id`, the primary key, and `name`, which may be NULL.
fn users_info() -> Vec<Vec<Value>> {
    vec![
        vec![i(0), t("id"), t("INTEGER"), i(0), Value::Null, i(1)],
        vec![i(1), t("Name"), t("varchar"), i(0), t("'it''s'"), i(0)],
        vec![i(2), t("age"), t("INT(11)"), i(1), t("0"), i(0)],
    ]
}

fn index(name: &str, unique: i64, origin: &str, columns: &[&str]) -> IndexRows {
    IndexRows {
        entry: vec![i(0), t(name), i(unique), t(origin), i(0)],
        parts: columns
            .iter()
            .enumerate()
            .map(|(k, c)| vec![i(k as i64), i(k as i64), t(c)])
            .collect(),
    }
}

fn columns(outcome: ShowOutcome) -> ColumnsResult {
    match outcome {
        ShowOutcome::Columns(result) => result,
        ShowOutcome::NoSuchTable(name) => panic!("no table {name}"),
    }
}

#[test]
fn queries_quote_what_they_are_given() {
    assert_eq!(table_info_query("it's"), "PRAGMA table_info('it''s')");
    assert_eq!(index_list_query("t"), "PRAGMA index_list('t')");
    assert_eq!(index_info_query("i'x"), "PRAGMA index_info('i''x')");
    assert_eq!(
        create_sql_query("t'"),
        "SELECT sql FROM sqlite_schema WHERE type = 'table' AND name = 't'''"
    );
    assert_eq!(quote_ident("a\"b"), "\"a\"\"b\"");
    assert_eq!(row_count_query("a\"b"), "SELECT COUNT(*) FROM \"a\"\"b\"");
}

#[test]
fn table_queries_are_filtered() {
    let plain = parse_show_tables("SHOW TABLES").unwrap();
    assert_eq!(tables_query(&plain), format!("{BASE_TABLES_QUERY} ORDER BY name"));
    let like = parse_show_tables("SHOW TABLES LIKE 'wp_%'").unwrap();
    assert_eq!(
        tables_query(&like),
        format!("{BASE_TABLES_QUERY} AND name LIKE 'wp_%' ORDER BY name")
    );
    let like = parse_show_table_status("SHOW TABLE STATUS LIKE 'wp\\_%'").unwrap();
    assert_eq!(
        table_status_query(&like),
        format!("{BASE_TABLES_QUERY} AND name LIKE 'wp\\_%' ESCAPE '\\' ORDER BY name")
    );
    let named = parse_show_table_status("SHOW TABLE STATUS WHERE Name = \"o'k\"").unwrap();
    assert_eq!(
        table_status_query(&named),
        format!("{BASE_TABLES_QUERY} AND name = 'o''k' ORDER BY name")
    );
}

#[test]
fn columns_are_shown_in_full() {
    let show = parse_show_columns("SHOW FULL COLUMNS FROM users").unwrap();
    let sql = some("CREATE TABLE users (id INTEGER PRIMARY KEY, `Name` varchar (60), age INT(11))");
    let indexes = vec![index("by_name", 0, "c", &["Name"]), index("one", 1, "c", &["name", "age"])];
    let result = columns(build(&show, &users_info(), &sql, &indexes));
    assert_eq!(
        result.columns,
        vec![
            "Field", "Type", "Collation", "Null", "Key", "Default", "Extra", "Privileges",
            "Comment"
        ]
    );
    let privileges = "select,insert,update,references";
    assert_eq!(
        result.rows,
        vec![
            vec![
                some("id"), some("int"), None, some("NO"), some("PRI"), None, some(""),
                some(privileges), some(""),
            ],
            vec![
                some("Name"), some("varchar(60)"), some("utf8mb4_general_ci"), some("YES"),
                some("UNI"), some("it's"), some(""), some(privileges), some(""),
            ],
            vec![
                some("age"), some("int"), None, some("NO"), some(""), some("0"), some(""),
                some(privileges), some(""),
            ],
        ]
    );
}

#[test]
fn columns_are_filtered() {
    let show = parse_show_columns("SHOW COLUMNS FROM users LIKE 'n%'").unwrap();
    let result = columns(build(&show, &users_info(), &None, &vec![]));
    assert_eq!(
        result.rows,
        vec![vec![some("Name"), some("varchar"), some("YES"), some(""), some("it's"), some("")]]
    );
    // NULL meets no condition.
    let show = parse_show_columns("SHOW COLUMNS FROM users WHERE default LIKE '%'").unwrap();
    let result = columns(build(&show, &users_info(), &None, &vec![]));
    assert_eq!(result.rows.len(), 2);
    let show = parse_show_columns("SHOW COLUMNS FROM users WHERE `Key` = 'PRI'").unwrap();
    let result = columns(build(&show, &users_info(), &None, &vec![]));
    assert_eq!(result.rows.len(), 1);
    assert_eq!(result.rows[0][0], some("id"));
}

#[test]
fn a_table_without_columns_does_not_exist() {
    let show = parse_describe("DESCRIBE nowhere").unwrap();
    assert_eq!(
        build(&show, &vec![], &None, &vec![]),
        ShowOutcome::NoSuchTable("nowhere".to_string())
    );
    let show = parse_show_index("SHOW INDEX FROM nowhere").unwrap();
    assert_eq!(
        build_index(&show, &vec![], &vec![]),
        ShowOutcome::NoSuchTable("nowhere".to_string())
    );
}

#[test]
fn a_leading_column_of_a_plain_index_is_multiple() {
    let show = parse_describe("DESC users").unwrap();
    let indexes = vec![index("by_age", 0, "c", &["AGE", "name"]), index("pk", 1, "PK", &["name"])];
    let result = columns(build(&show, &users_info(), &None, &indexes));
    let keys: Vec<_> = result.rows.iter().map(|r| r[3].clone().unwrap()).collect();
    assert_eq!(keys, ["PRI", "", "MUL"]);
}

fn index_row(non_unique: &str, key: &str, place: &str, column: &str, null: &str) -> Vec<Option<String>> {
    vec![
        some("users"), some(non_unique), some(key), some(place), some(column), some("A"), None,
        None, None, some(null), some("BTREE"), some(""), some(""), some("YES"), None,
    ]
}

#[test]
fn indexes_are_shown() {
    let show = parse_show_index("SHOW INDEX FROM users").unwrap();
    let indexes = vec![index("both", 0, "c", &["Name", "age"])];
    let result = columns(build_index(&show, &users_info(), &indexes));
    assert_eq!(result.columns.len(), 15);
    assert_eq!(
        result.rows,
        vec![
            index_row("1", "both", "1", "Name", "YES"),
            index_row("1", "both", "2", "age", ""),
            // The row id stands in for the primary key.
            index_row("0", "PRIMARY", "1", "id", ""),
        ]
    );
}

#[test]
fn the_index_of_the_primary_key_is_called_primary() {
    let show = parse_show_index("SHOW KEYS IN users WHERE Key_name = 'PRIMARY'").unwrap();
    let indexes = vec![index("auto", 1, "pk", &["Name"]), index("u", 1, "c", &["missing"])];
    let result = columns(build_index(&show, &users_info(), &indexes));
    assert_eq!(result.rows, vec![index_row("0", "PRIMARY", "1", "Name", "")]);
    let show = parse_show_index("SHOW KEYS IN users WHERE Key_name LIKE 'u%'").unwrap();
    let result = columns(build_index(&show, &users_info(), &indexes));
    assert_eq!(result.rows, vec![index_row("0", "u", "1", "missing", "YES")]);
}

#[test]
fn key_columns_are_in_order() {
    let info = vec![
        vec![i(0), t("b"), t("INT"), i(1), Value::Null, i(2)],
        vec![i(1), t("c"), t("INT"), i(1), Value::Null, i(0)],
        vec![i(2), t("a"), t("INT"), i(1), Value::Null, i(1)],
        vec![i(3), t("b2"), t("INT"), i(1), Value::Null, i(2)],
    ];
    let show = parse_show_index("SHOW INDEX FROM users").unwrap();
    let result = columns(build_index(&show, &info, &vec![]));
    let names: Vec<_> = result.rows.iter().map(|r| r[4].clone().unwrap()).collect();
    assert_eq!(names, ["a", "b", "b2"]);
}

#[test]
fn tables_are_listed() {
    let rows = vec![vec![t("a")], vec![Value::Null], vec![t("b"), i(1)]];
    assert!(rows_are_wide(&rows, 1));
    assert!(!rows_are_wide(&rows, 2));
    assert_eq!(table_names(&rows), ["a", "", "b"]);
    let full = parse_show_tables("SHOW FULL TABLES").unwrap();
    let result = build_tables(&full, &rows);
    assert_eq!(result.columns, vec!["Tables_in_database", "Table_type"]);
    assert_eq!(result.rows[2], vec![some("b"), some("BASE TABLE")]);
    let plain = parse_show_tables("SHOW TABLES").unwrap();
    let result = build_tables(&plain, &rows);
    assert_eq!(result.columns, vec!["Tables_in_database"]);
    assert_eq!(result.rows[0], vec![some("a")]);
}

#[test]
fn table_status_reports_the_count() {
    assert_eq!(table_row_count(&vec![vec![i(42)]]), 42);
    assert_eq!(table_row_count(&vec![vec![i(1)], vec![t("7")]]), 7);
    assert_eq!(table_row_count(&vec![vec![t("many")]]), 0);
    assert_eq!(table_row_count(&vec![]), 0);
    let result = build_table_status(&vec!["posts".to_string()], &vec![42]);
    assert_eq!(result.columns.len(), 18);
    let row = &result.rows[0];
    assert_eq!(row[0], some("posts"));
    assert_eq!(row[1], some("InnoDB"));
    assert_eq!(row[2], some("10"));
    assert_eq!(row[3], some("Dynamic"));
    assert_eq!(row[4], some("42"));
    assert_eq!(row[9], some("0"));
    assert_eq!(row[10], None);
    assert_eq!(row[14], some("utf8mb4_general_ci"));
    assert_eq!(row[17], some(""));
}

#[test]
fn variables_come_in_order() {
    let all = build_variables(&ShowVariables { like: None });
    assert_eq!(all.rows.len(), 47);
    let names: Vec<_> = all.rows.iter().map(|r| r[0].clone().unwrap()).collect();
    let mut sorted = names.clone();
    sorted.sort();
    assert_eq!(names, sorted);
}

#[test]
fn column_lists_are_split() {
    assert_eq!(
        split_column_list("a varchar (60) DEFAULT 'x,)''y', b decimal (10, 2), PRIMARY KEY (a, b)) WITHOUT ROWID"),
        [
            "a varchar (60) DEFAULT 'x,)''y'",
            " b decimal (10, 2)",
            " PRIMARY KEY (a, b)",
        ]
    );
    assert_eq!(split_column_list(" "), Vec::<String>::new());
    assert_eq!(split_column_list("a,"), ["a"]);
}

#[test]
fn column_definitions_are_read() {
    assert_eq!(
        parse_column_def("user_login varchar (60) NOT NULL"),
        Some(("user_login".to_string(), "varchar(60)".to_string()))
    );
    assert_eq!(
        parse_column_def(" `My Col` Decimal( 10 , 2 )"),
        Some(("my col".to_string(), "Decimal(10,2)".to_string()))
    );
    assert_eq!(parse_column_def("id INTEGER"), None);
    assert_eq!(parse_column_def("PRIMARY KEY (id)"), None);
    assert_eq!(parse_column_def("x int ()"), None);
    assert_eq!(parse_column_def("`open varchar(3)"), None);
    assert_eq!(parse_column_def("\"open varchar(3)"), None);
    assert_eq!(parse_column_def("KEY (id)"), None);
    // A quoted name is a column, whatever the word.
    let sized = |name: &str, ty: &str| Some((name.to_string(), ty.to_string()));
    assert_eq!(parse_column_def("`key` varchar(60)"), sized("key", "varchar(60)"));
    assert_eq!(parse_column_def("\"Primary\" char (2)"), sized("primary", "char(2)"));
    assert_eq!(parse_column_def("\"two words\" char(2)"), sized("two words", "char(2)"));
    assert_eq!(parse_column_def("Price decimal (10, 2)"), sized("price", "decimal(10,2)"));
    assert_eq!(parse_column_def("x"), None);
}

#[test]
fn declared_types_come_from_the_first_parenthesis() {
    assert_eq!(
        declared_column_types(&some("CREATE TABLE t (A char (3), b text, UNIQUE (a), c INT(11))")),
        [
            ("a".to_string(), "char(3)".to_string()),
            ("c".to_string(), "INT(11)".to_string()),
        ]
    );
    assert_eq!(declared_column_types(&some("CREATE TABLE t")), []);
    assert_eq!(declared_column_types(&None), []);
}

#[test]
fn a_dropped_column_leaves_the_indexes() {
    let indexes = vec![
        index("pk", 1, "pk", &["c"]),
        index("only", 0, "c", &["C"]),
        index("q\"x", 1, "u", &["a", "c", "b"]),
        index("other", 0, "c", &["a"]),
    ];
    assert_eq!(
        adjust_indexes_for_dropped_column("t\"1", "c", &indexes),
        [
            "DROP INDEX \"only\"",
            "DROP INDEX \"q\"\"x\"",
            "CREATE UNIQUE INDEX \"q\"\"x\" ON \"t\"\"1\" (\"a\", \"b\")",
        ]
    );
}

#[test]
fn requests_are_told_apart() {
    assert!(matches!(try_handle("SHOW COLUMNS FROM t"), Some(ShowRequest::Columns(_))));
    assert!(matches!(try_handle("DESC t"), Some(ShowRequest::Columns(_))));
    assert!(matches!(try_handle("SHOW TABLES"), Some(ShowRequest::Tables(_))));
    assert!(matches!(try_handle("SHOW INDEX FROM t"), Some(ShowRequest::Index(_))));
    assert!(matches!(try_handle("SHOW TABLE STATUS"), Some(ShowRequest::TableStatus(_))));
    for sql in ["SHOW VARIABLES", "SHOW WARNINGS", "SHOW TRIGGERS", "ANALYZE TABLE t"] {
        assert!(matches!(try_handle(sql), Some(ShowRequest::Answer(_))), "{sql}");
    }
    assert!(try_handle("SHOW GRANTS").is_none());
    assert!(try_handle("SELECT 1").is_none());
}
