use turso_mysql::parser::error::ParseError;
use turso_mysql::protocol::command::Command;
use turso_mysql::protocol::constants::{column_type, CommandByte};
use turso_mysql::protocol::frame::{FrameDecoder, Packet};
use turso_mysql::protocol::handshake::HandshakeResponse41;
use turso_mysql::protocol::packet::{PacketReader, PacketWriter};
use turso_mysql::protocol::stmt::{BinaryValue, StmtExecute};
use turso_mysql::server::catalog::ShowOutcome;
use turso_mysql::server::connection::{
    accept, after_parse, bound_values, can_bind, counted, dispatch, finish_all, finish_execute,
    finish_prepare, finish_reset, finish_show, finish_statement, greet, scramble_for,
    start_execute, start_query, start_statement, CommandAction, ExecuteAction, Execution,
    QueryAction, RunAction, Session, StatementKind,
};
use turso_mysql::server::errors::{EngineError, Failure};
use turso_mysql::server::probe::{
    has_sql_calc_found_rows, is_found_rows_query, is_select_sql_mode, parse_set_sql_mode,
};
use turso_mysql::server::reply::binary_cells;
use turso_mysql::server::request::ShowRequest;
use turso_mysql::server::statements::{Prepared, StatementStore};
use turso_mysql::server::types::{BoundValue, ColumnMeta};
use turso_mysql::server::value::Value;

/// The packets of a reply, which must be numbered through from `seq`.
fn packets(bytes: &[u8], seq: u8) -> Vec<Vec<u8>> {
    let mut decoder = FrameDecoder::new();
    decoder.extend(bytes);
    let mut found = Vec::new();
    let mut id = seq;
    while let Some(packet) = decoder.next_packet().unwrap() {
        assert_eq!(packet.seq, id);
        id = id.wrapping_add(1);
        found.push(packet.payload);
    }
    found
}

/// The cells of a text result set.
fn rows(bytes: &[u8], seq: u8) -> Vec<Vec<Option<String>>> {
    let all = packets(bytes, seq);
    let columns = PacketReader::new(&all[0]).lenenc_u64().unwrap() as usize;
    let first = columns + 2;
    all[first..all.len() - 1]
        .iter()
        .map(|payload| {
            let mut r = PacketReader::new(payload);
            (0..columns)
                .map(|_| {
                    if payload[payload.len() - r.remaining()] == 0xfb {
                        r.u8().unwrap();
                        None
                    } else {
                        Some(String::from_utf8(r.lenenc_bytes().unwrap().to_vec()).unwrap())
                    }
                })
                .collect()
        })
        .collect()
}

fn ok() -> Vec<u8> {
    vec![0, 0, 0, 2, 0, 0, 0]
}

fn reply(action: QueryAction) -> Vec<u8> {
    match action {
        QueryAction::Reply(bytes) => bytes,
        other => panic!("expected a reply, got {other:?}"),
    }
}

fn run_reply(action: RunAction) -> Vec<u8> {
    match action {
        RunAction::Reply(bytes) => bytes,
        other => panic!("expected a reply, got {other:?}"),
    }
}

/// The error number, the SQLSTATE and the message of an error reply.
fn error(bytes: &[u8], seq: u8) -> (u16, String, String) {
    let all = packets(bytes, seq);
    assert_eq!(all.len(), 1);
    let p = &all[0];
    assert_eq!(p[0], 0xff);
    assert_eq!(p[3], b'#');
    (
        u16::from_le_bytes([p[1], p[2]]),
        String::from_utf8(p[4..9].to_vec()).unwrap(),
        String::from_utf8(p[9..].to_vec()).unwrap(),
    )
}

fn failure(error: EngineError, message: &str) -> Failure {
    Failure { error, message: message.to_string() }
}

fn command(payload: Vec<u8>) -> Packet {
    Packet { seq: 0, payload }
}

#[test]
fn the_scramble_has_no_zero() {
    for id in [0u32, 1, 42, 255, 256, u32::MAX] {
        let expected: Vec<u8> = (0..20u32)
            .map(|i| (id.wrapping_add(i) as u8).wrapping_add(1) | 1)
            .collect();
        assert_eq!(scramble_for(id).to_vec(), expected);
        assert!(expected.iter().all(|b| *b != 0));
    }
}

#[test]
fn the_greeting_is_the_first_packet() {
    let all = packets(&greet(7), 0);
    assert_eq!(all.len(), 1);
    assert_eq!(&all[0][..13], b"\x0a8.0.0-turso\x00");
    assert_eq!(&all[0][13..17], &[7, 0, 0, 0]);
}

#[test]
fn any_login_is_accepted() {
    let mut w = PacketWriter::new();
    w.u32(0x0000_8208);
    w.u32(0x0100_0000);
    w.u8(45);
    w.fill(23);
    w.null_terminated(b"root");
    w.u8(0);
    w.null_terminated(b"shop");
    let payload = w.into_bytes();
    assert_eq!(HandshakeResponse41::decode(&payload).unwrap().database.as_deref(), Some("shop"));
    let (bytes, session) = accept(&Packet { seq: 1, payload }).unwrap();
    assert_eq!(packets(&bytes, 2), vec![ok()]);
    assert_eq!(session, Session::new(Some("shop".to_string())));
    assert_eq!(session.last_row_count, -1);
    assert!(accept(&Packet { seq: 1, payload: vec![1, 2] }).is_err());
}

#[test]
fn commands_are_dispatched() {
    let mut session = Session::new(None);
    let (seq, action) = dispatch(&mut session, &command(vec![0x0e])).unwrap();
    assert_eq!(seq, 1);
    assert!(matches!(action, CommandAction::Reply(bytes) if packets(&bytes, 1) == vec![ok()]));
    let (_, action) = dispatch(&mut session, &command(b"\x02shop".to_vec())).unwrap();
    assert!(matches!(action, CommandAction::Reply(_)));
    assert_eq!(session.current_db.as_deref(), Some("shop"));
    let (_, action) = dispatch(&mut session, &command(b"\x03SELECT 1".to_vec())).unwrap();
    assert_eq!(action, CommandAction::Query("SELECT 1".to_string()));
    let (_, action) = dispatch(&mut session, &command(vec![0x01])).unwrap();
    assert_eq!(action, CommandAction::Close);
    let (_, action) = dispatch(&mut session, &command(vec![0x19, 5, 0, 0, 0])).unwrap();
    assert_eq!(action, CommandAction::Forget(5));
    let (_, action) = dispatch(&mut session, &command(vec![0x1a, 6, 0, 0, 0])).unwrap();
    assert_eq!(action, CommandAction::Reset(6));
    let (_, action) = dispatch(&mut session, &command(vec![0xee])).unwrap();
    let CommandAction::Reply(bytes) = action else { panic!("expected a reply") };
    assert_eq!(
        error(&bytes, 1),
        (1105, "HY000".to_string(), "unknown command byte 0xee".to_string())
    );
    assert!(dispatch(&mut session, &command(vec![0x03, 0xff])).is_err());
    assert_eq!(Command::decode(&[0xee]).unwrap(), Command::Unknown(0xee));
    assert_eq!(CommandByte::from_u8(0x1a), Some(CommandByte::StmtReset));
}

#[test]
fn sequence_ids_wrap() {
    let mut session = Session::new(None);
    let (seq, _) = dispatch(&mut session, &Packet { seq: 255, payload: vec![0x0e] }).unwrap();
    assert_eq!(seq, 0);
}

#[test]
fn row_count_reports_the_last_change() {
    let mut session = Session::new(None);
    let bytes = finish_statement(
        &mut session,
        1,
        &StatementKind::Update,
        &Execution::Changed { changes: 3, last_insert_rowid: 9 },
    );
    assert_eq!(packets(&bytes, 1), vec![vec![0, 3, 9, 2, 0, 0, 0]]);
    let bytes = reply(start_query(&mut session, "SELECT ROW_COUNT()", 1));
    assert_eq!(rows(&bytes, 1), vec![vec![Some("3".to_string())]]);
    let bytes = reply(start_query(&mut session, "select  row_count ();", 1));
    assert_eq!(rows(&bytes, 1), vec![vec![Some("-1".to_string())]]);
}

#[test]
fn other_statements_leave_zero_or_minus_one() {
    let mut session = Session::new(None);
    finish_statement(
        &mut session,
        1,
        &StatementKind::Other,
        &Execution::Changed { changes: 3, last_insert_rowid: 0 },
    );
    assert_eq!(session.last_row_count, 0);
    finish_statement(
        &mut session,
        1,
        &StatementKind::Insert,
        &Execution::Changed { changes: -1, last_insert_rowid: -1 },
    );
    assert_eq!(session.last_row_count, 0);
    let bytes = finish_statement(
        &mut session,
        1,
        &StatementKind::Insert,
        &Execution::Failed(failure(
            EngineError::Constraint("UNIQUE constraint failed: t.k".to_string()),
            "Runtime error: UNIQUE constraint failed: t.k",
        )),
    );
    assert_eq!(session.last_row_count, -1);
    assert_eq!(
        error(&bytes, 1),
        (
            1062,
            "23000".to_string(),
            "Runtime error: UNIQUE constraint failed: t.k".to_string()
        )
    );
}

#[test]
fn the_mode_that_is_set_is_read() {
    let mut session = Session::new(None);
    let bytes = reply(start_query(&mut session, "SET SESSION sql_mode='A''B,C'", 1));
    assert_eq!(packets(&bytes, 1), vec![ok()]);
    assert_eq!(session.last_row_count, 0);
    let bytes = reply(start_query(&mut session, "SELECT @@SESSION.sql_mode;", 1));
    assert_eq!(rows(&bytes, 1), vec![vec![Some("A'B,C".to_string())]]);
}

#[test]
fn the_selected_database_is_reported() {
    let mut session = Session::new(None);
    let ask = |session: &mut Session, sql: &str| rows(&reply(start_query(session, sql, 1)), 1);
    assert_eq!(ask(&mut session, "SELECT DATABASE()"), vec![vec![None]]);
    let mut payload = vec![0x02];
    payload.extend_from_slice(b"shop");
    dispatch(&mut session, &command(payload)).unwrap();
    assert_eq!(
        ask(&mut session, "select database(), Schema() AS s"),
        vec![vec![Some("shop".to_string()), Some("shop".to_string())]]
    );
    let mut fresh = Session::new(Some("blog".to_string()));
    assert_eq!(ask(&mut fresh, "SELECT SCHEMA();"), vec![vec![Some("blog".to_string())]]);
}

#[test]
fn sql_mode_statements_are_recognised() {
    for (sql, mode) in [
        ("SET sql_mode = ''", ""),
        ("set @@session.SQL_MODE='x'", "x"),
        ("SET @@GLOBAL.sql_mode = 'y' ;", "y"),
        ("SET GLOBAL  sql_mode='z'", "z"),
        ("SET @@sql_mode='w'", "w"),
    ] {
        assert_eq!(parse_set_sql_mode(sql), Some(mode.to_string()), "{sql}");
    }
    for sql in [
        "SET sql_mode = DEFAULT",
        "SET sql_mode = 'a', autocommit = '1'",
        "SET\tsql_mode=''",
        "SET sql_mode",
        "SET sql_mode = '",
        "SELECT 1",
        "SET NAMES é",
        "SET é",
    ] {
        assert_eq!(parse_set_sql_mode(sql), None, "{sql}");
    }
    assert!(is_select_sql_mode("select  @@Sql_Mode"));
    assert!(is_select_sql_mode("SELECT @@global.sql_mode;"));
    assert!(!is_select_sql_mode("SELECT @@sql_mode, 1"));
    assert!(is_found_rows_query(" select found_rows () ; "));
    assert!(!is_found_rows_query("SELECT FOUND_ROWS() + 1"));
}

#[test]
fn the_found_rows_modifier_is_recognised() {
    assert!(has_sql_calc_found_rows("SELECT SQL_CALC_FOUND_ROWS * FROM t"));
    assert!(has_sql_calc_found_rows("  select\n sql_calc_found_rows"));
    assert!(has_sql_calc_found_rows("SELECTsql_calc_found_rows(1)"));
    assert!(!has_sql_calc_found_rows("SELECT SQL_CALC_FOUND_ROWS_X FROM t"));
    assert!(!has_sql_calc_found_rows("SELECT a FROM t"));
    assert!(!has_sql_calc_found_rows("SELECT SQL_CALC_FOUND_ROWé"));
    assert!(!has_sql_calc_found_rows("SELEé"));
}

#[test]
fn found_rows_are_counted() {
    let mut session = Session::new(None);
    let sql = "SELECT SQL_CALC_FOUND_ROWS id FROM t LIMIT 1";
    assert_eq!(start_query(&mut session, sql, 1), QueryAction::Parse);
    let parsed = Ok(vec![StatementKind::Select]);
    assert_eq!(after_parse(&mut session, sql, 1, &parsed, true), RunAction::CountRows);
    counted(&mut session, Some(17));
    assert_eq!(
        start_statement(&mut session, 1, &StatementKind::Select, true),
        RunAction::Run
    );
    // A count that failed changes nothing.
    counted(&mut session, None);
    let bytes = reply(start_query(&mut session, "SELECT FOUND_ROWS()", 1));
    assert_eq!(rows(&bytes, 1), vec![vec![Some("17".to_string())]]);
}

#[test]
fn statements_are_answered_before_the_parser() {
    let mut session = Session::new(None);
    let bytes = reply(start_query(&mut session, "SET NAMES utf8mb4", 3));
    assert_eq!(packets(&bytes, 3), vec![ok()]);
    assert!(matches!(
        start_query(&mut session, "SHOW COLUMNS FROM t", 1),
        QueryAction::Show(ShowRequest::Columns(_))
    ));
    let bytes = reply(start_query(&mut session, "SHOW VARIABLES LIKE 'version'", 1));
    assert_eq!(
        rows(&bytes, 1),
        vec![vec![Some("version".to_string()), Some("8.0.0-turso".to_string())]]
    );
    let bytes = finish_show(1, Ok(ShowOutcome::NoSuchTable("t".to_string())));
    assert_eq!(
        error(&bytes, 1),
        (1146, "42S02".to_string(), "Table 't' doesn't exist".to_string())
    );
    let bytes = finish_show(1, Err(failure(EngineError::Other, "boom")));
    assert_eq!(error(&bytes, 1), (1105, "HY000".to_string(), "boom".to_string()));
}

#[test]
fn parse_errors_are_reported() {
    let mut session = Session::new(None);
    let unsupported = Err(ParseError::Unsupported("GRANT".to_string()));
    let bytes = run_reply(after_parse(&mut session, "GRANT", 1, &unsupported, true));
    assert_eq!(
        error(&bytes, 1),
        (1235, "42000".to_string(), "unsupported statement: GRANT".to_string())
    );
    let bytes = run_reply(after_parse(&mut session, "", 1, &Err(ParseError::Empty), true));
    assert_eq!(
        error(&bytes, 1),
        (1064, "42000".to_string(), "empty input: no statement to parse".to_string())
    );
}

#[test]
fn several_statements_get_one_reply() {
    let mut session = Session::new(None);
    let parsed = Ok(vec![StatementKind::Other, StatementKind::Other]);
    assert_eq!(
        after_parse(&mut session, "DROP TABLE a, b", 1, &parsed, true),
        RunAction::RunAll
    );
    let bytes = finish_all(&mut session, 1, &None);
    assert_eq!(packets(&bytes, 1), vec![ok()]);
    assert_eq!(session.last_row_count, 0);
    let failed = Some(failure(EngineError::ParseError("no such table: b".to_string()), "no such table: b"));
    let bytes = finish_all(&mut session, 1, &failed);
    assert_eq!(error(&bytes, 1).0, 1146);
}

#[test]
fn transactions_follow_the_server_they_stand_for() {
    let mut session = Session::new(None);
    // Without a transaction, these do nothing.
    for kind in [StatementKind::Commit, StatementKind::Rollback] {
        let bytes = run_reply(start_statement(&mut session, 1, &kind, true));
        assert_eq!(packets(&bytes, 1), vec![ok()]);
        assert_eq!(session.last_row_count, 0);
        assert_eq!(start_statement(&mut session, 1, &kind, false), RunAction::Run);
    }
    assert_eq!(start_statement(&mut session, 1, &StatementKind::Begin, true), RunAction::Run);
    assert_eq!(
        start_statement(&mut session, 1, &StatementKind::Begin, false),
        RunAction::CommitAndRun
    );
    let drop = StatementKind::DropColumn { table: "t".to_string(), column: "c".to_string() };
    assert_eq!(
        start_statement(&mut session, 1, &drop, true),
        RunAction::AdjustAndRun { table: "t".to_string(), column: "c".to_string() }
    );
}

fn meta(name: &str, decltype: &str) -> ColumnMeta {
    ColumnMeta {
        name: name.to_string(),
        table: Some("t".to_string()),
        decltype: Some(decltype.to_string()),
        affinity: None,
    }
}

#[test]
fn rows_are_sent_as_text() {
    let mut session = Session::new(None);
    let execution = Execution::Rows {
        columns: vec![meta("id", "INT"), meta("name", "TEXT")],
        rows: vec![
            vec![Value::Integer(1), Value::Text("ann".to_string())],
            vec![Value::Integer(2), Value::Null],
        ],
    };
    let bytes = finish_statement(&mut session, 1, &StatementKind::Select, &execution);
    assert_eq!(packets(&bytes, 1).len(), 1 + 2 + 1 + 2 + 1);
    assert_eq!(
        rows(&bytes, 1),
        vec![
            vec![Some("1".to_string()), Some("ann".to_string())],
            vec![Some("2".to_string()), None],
        ]
    );
    assert_eq!(session.last_row_count, -1);
}

#[test]
fn statements_are_prepared_and_run() {
    let mut store: StatementStore<&str> = StatementStore::new();
    assert!(store.has_room());
    let bytes = finish_prepare(&mut store, 1, "one", 2, &vec![meta("id", "INT")]);
    let all = packets(&bytes, 1);
    assert_eq!(all[0], vec![0, 1, 0, 0, 0, 1, 0, 2, 0, 0, 0, 0]);
    // Two parameters and an end mark, one column and an end mark.
    assert_eq!(all.len(), 1 + 3 + 2);
    let bytes = finish_prepare(&mut store, 1, "two", 0, &vec![]);
    assert_eq!(packets(&bytes, 1), vec![vec![0, 2, 0, 0, 0, 0, 0, 0, 0, 0, 0, 0]]);

    let exec = StmtExecute {
        statement_id: 1,
        flags: 0,
        params_tail: vec![2, 1, column_type::MYSQL_TYPE_TINY, 0, column_type::MYSQL_TYPE_TINY, 0, 0xff],
    };
    let ExecuteAction::Bind(params) = start_execute(&store, 1, &exec) else {
        panic!("expected parameters");
    };
    assert_eq!(params, vec![BinaryValue::I64(-1), BinaryValue::Null]);
    assert!(can_bind(&params));
    assert_eq!(bound_values(params), vec![BoundValue::Integer(-1), BoundValue::Null]);

    let short = StmtExecute { statement_id: 1, flags: 0, params_tail: vec![] };
    assert!(matches!(start_execute(&store, 1, &short), ExecuteAction::Refuse(_)));
    let unknown = StmtExecute { statement_id: 9, flags: 0, params_tail: vec![] };
    let ExecuteAction::Reply(bytes) = start_execute(&store, 1, &unknown) else {
        panic!("expected a reply");
    };
    assert_eq!(
        error(&bytes, 1),
        (1105, "HY000".to_string(), "unknown prepared statement id 9".to_string())
    );

    let columns = &store.get(1).unwrap().columns;
    let cells = binary_cells(&vec![Value::Integer(5)], columns);
    let bytes = finish_execute(1, columns, 0, 0, &vec![cells]);
    let all = packets(&bytes, 1);
    assert_eq!(all.len(), 1 + 1 + 1 + 1 + 1);
    assert_eq!(all[3], vec![0, 0, 5, 0, 0, 0]);
    let bytes = finish_execute(1, &store.get(2).unwrap().columns, 4, -1, &vec![]);
    assert_eq!(packets(&bytes, 1), vec![vec![0, 4, 0, 2, 0, 0, 0]]);
}

#[test]
fn long_durations_cannot_be_bound() {
    let long = |days| BinaryValue::Time {
        negative: false,
        days,
        hour: 15,
        minute: 0,
        second: 0,
        micros: 0,
    };
    assert!(can_bind(&vec![long(178956970)]));
    assert!(!can_bind(&vec![BinaryValue::Null, long(178956971)]));
}

#[test]
fn resets_are_answered() {
    assert_eq!(packets(&finish_reset(1, 3, &Some(None)), 1), vec![ok()]);
    assert_eq!(error(&finish_reset(1, 3, &None), 1).2, "unknown prepared statement id 3");
    let bytes = finish_reset(1, 3, &Some(Some(failure(EngineError::Other, "busy"))));
    assert_eq!(error(&bytes, 1).2, "busy");
}

#[test]
fn the_store_gives_every_statement_a_new_id() {
    let mut store: StatementStore<u8> = StatementStore::new();
    let prepared = |statement| Prepared { statement, columns: vec![], num_params: 0 };
    assert_eq!(store.insert(prepared(10)), 1);
    assert_eq!(store.insert(prepared(20)), 2);
    store.close(1);
    assert!(store.get(1).is_none());
    assert_eq!(store.insert(prepared(30)), 3);
    store.get_mut(2).unwrap().statement = 21;
    assert_eq!(store.get(2).unwrap().statement, 21);
    assert!(store.get_mut(1).is_none());
    assert_eq!(store.get(3).unwrap().statement, 30);
}

#[test]
fn acknowledged_statements_count_no_rows() {
    for sql in [
        "SET autocommit=1",
        "SET sql_mode = ''",
        "FLUSH TABLES",
        "LOCK TABLES t READ",
        "UNLOCK TABLES",
        "DROP PROCEDURE IF EXISTS p",
    ] {
        let mut session = Session::new(None);
        session.last_row_count = 7;
        start_query(&mut session, sql, 1);
        assert_eq!(session.last_row_count, 0, "{sql}");
        let QueryAction::Reply(bytes) = start_query(&mut session, "SELECT ROW_COUNT()", 1) else {
            panic!("no reply");
        };
        assert_eq!(rows(&bytes, 1), vec![vec![Some("0".to_string())]]);
        assert_eq!(session.last_row_count, -1);
    }
    // An answer with rows leaves -1.
    let mut session = Session::new(None);
    session.last_row_count = 7;
    start_query(&mut session, "SELECT VERSION()", 1);
    assert_eq!(session.last_row_count, -1);
}
