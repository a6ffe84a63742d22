use turso_mysql::server::session::{try_handle, SessionResponse};

#[test]
fn set_is_ok() {
    assert!(matches!(
        try_handle("SET autocommit=1"),
        Some(SessionResponse::OkReply)
    ));
    assert!(matches!(
        try_handle("SET NAMES utf8mb4"),
        Some(SessionResponse::OkReply)
    ));
}

#[test]
fn flush_is_a_noop() {
    for sql in [
        "FLUSH TABLES",
        "FLUSH PRIVILEGES",
        "flush status;",
        "FLUSH TABLES WITH READ LOCK",
    ] {
        assert!(
            matches!(try_handle(sql), Some(SessionResponse::OkReply)),
            "expected `{sql}` to be a no-op OK"
        );
    }
    // Bare `FLUSH` (no target) is left to the parser, which rejects it.
    assert!(try_handle("FLUSH").is_none());
}

#[test]
fn drop_routine_if_exists_is_a_noop() {
    for sql in [
        "DROP PROCEDURE IF EXISTS foo",
        "DROP FUNCTION IF EXISTS foo",
        "drop procedure if exists `my proc`;",
        "DROP PROCEDURE IF EXISTS db.foo",
    ] {
        assert!(
            matches!(try_handle(sql), Some(SessionResponse::OkReply)),
            "expected `{sql}` to be a no-op OK"
        );
    }
    // Without `IF EXISTS` (or a name), or for another object, it falls
    // through to the parser, which rejects it (matching MySQL, which errors
    // because the routine does not exist).
    for sql in [
        "DROP PROCEDURE foo",
        "DROP FUNCTION foo",
        "DROP PROCEDURE IF EXISTS",
        "DROP TABLE IF EXISTS foo",
    ] {
        assert!(try_handle(sql).is_none(), "expected `{sql}` to fall through");
    }
}

#[test]
fn system_variable_select() {
    let Some(SessionResponse::Row { columns, values }) =
        try_handle("SELECT @@max_allowed_packet")
    else {
        panic!("expected a row");
    };
    assert_eq!(columns, vec!["@@max_allowed_packet"]);
    assert_eq!(values, vec![Some("67108864".to_string())]);
}

#[test]
fn data_loading_toggle_variables_default_on() {
    // mysqldump / import flows read these; both default to 1 in MySQL.
    for var in ["@@foreign_key_checks", "@@unique_checks"] {
        let Some(SessionResponse::Row { values, .. }) = try_handle(&format!("SELECT {var}"))
        else {
            panic!("expected a row for {var}");
        };
        assert_eq!(values, vec![Some("1".to_string())], "{var}");
    }
}

#[test]
fn standard_default_system_variables() {
    // Clients / Site Health probe these; each reports MySQL's fixed 8.4
    // default. `SELECT @@var` renders booleans as 0/1, as MySQL does there.
    for (var, expected) in [
        ("@@default_storage_engine", "InnoDB"),
        ("@@sql_auto_is_null", "0"),
        ("@@sql_big_selects", "1"),
        ("@@group_concat_max_len", "1024"),
        ("@@net_buffer_length", "16384"),
        ("@@character_set_system", "utf8mb3"),
        ("@@sql_select_limit", "18446744073709551615"),
        ("@@have_query_cache", "NO"),
    ] {
        let Some(SessionResponse::Row { values, .. }) = try_handle(&format!("SELECT {var}"))
        else {
            panic!("expected a row for {var}");
        };
        assert_eq!(values, vec![Some(expected.to_string())], "{var}");
    }
}

#[test]
fn multi_variable_select_with_aliases() {
    let Some(SessionResponse::Row { columns, values }) =
        try_handle("SELECT @@max_allowed_packet AS p, @@wait_timeout AS w")
    else {
        panic!("expected a row");
    };
    assert_eq!(columns, vec!["p", "w"]);
    assert_eq!(
        values,
        vec![Some("67108864".to_string()), Some("28800".to_string())]
    );
}

#[test]
fn real_select_falls_through() {
    assert!(try_handle("SELECT id FROM users").is_none());
    assert!(try_handle("SELECT 1").is_none());
}

#[test]
fn lock_tables_is_ok() {
    for sql in [
        "LOCK TABLES wp_options WRITE",
        "LOCK TABLES a READ, b WRITE",
        "LOCK TABLE t WRITE",
        "UNLOCK TABLES",
        "UNLOCK TABLE",
    ] {
        assert!(
            matches!(try_handle(sql), Some(SessionResponse::OkReply)),
            "expected `{sql}` to be acknowledged"
        );
    }
    // `LOCK INSTANCE` / `LOCK TABLESPACE` are not table locks and fall through.
    assert!(try_handle("LOCK INSTANCE FOR BACKUP").is_none());
}
