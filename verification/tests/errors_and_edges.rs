use turso_mysql::parser::error::ParseError;
use turso_mysql::parser::lexer::Lexer;
use turso_mysql::parser::token::Token;
use turso_mysql::parser::variables::{system_variable_value, system_variables};
use turso_mysql::protocol::command::Command;
use turso_mysql::protocol::constants::column_type::{
    MYSQL_TYPE_DATE, MYSQL_TYPE_DOUBLE, MYSQL_TYPE_FLOAT, MYSQL_TYPE_LONGLONG, MYSQL_TYPE_SHORT,
    MYSQL_TYPE_TIME, MYSQL_TYPE_TINY, MYSQL_TYPE_VAR_STRING,
};
use turso_mysql::protocol::error::ProtocolError;
use turso_mysql::protocol::frame::{encode_frame, parse_header, FrameDecoder, MAX_PAYLOAD};
use turso_mysql::protocol::packet::{utf8, PacketReader, PacketWriter};
use turso_mysql::protocol::stmt::{encode_binary_row, BinaryValue, StmtExecute};
use turso_mysql::server::like::like_match;
use turso_mysql::server::listing::build_variables;
use turso_mysql::server::reply::can_carry;
use turso_mysql::server::request::{try_handle as try_show, ShowRequest};
use turso_mysql::server::session::{eval, try_handle, try_handle_in_db, SessionResponse};
use turso_mysql::server::show::{
    parse_describe, parse_show_columns, parse_show_tables, unquote_token, ShowVariables,
};
use turso_mysql::server::tokens::tokenize;

fn lex(sql: &str) -> Result<Vec<(Token, usize)>, ParseError> {
    Lexer::new(sql.as_bytes()).tokenize()
}

fn kinds(sql: &str) -> Vec<Token> {
    lex(sql).unwrap().into_iter().map(|(t, _)| t).collect()
}

fn chars(s: &str) -> Vec<char> {
    s.chars().collect()
}

fn row(sql: &str) -> (Vec<String>, Vec<Option<String>>) {
    match try_handle(sql) {
        Some(SessionResponse::Row { columns, values }) => (columns, values),
        _ => panic!("no row for {sql}"),
    }
}

#[test]
fn unclosed_quotes_are_reported_where_they_open() {
    for (sql, offset, kind, message) in [
        ("SELECT 'abc", 7, "string literal", "unterminated string literal starting at byte 7"),
        ("'abc\\", 0, "string literal", "unterminated string literal starting at byte 0"),
        ("a \"b", 2, "string literal", "unterminated string literal starting at byte 2"),
        (" `x``", 1, "identifier", "unterminated identifier starting at byte 1"),
        ("x'4g'", 0, "hex literal", "unterminated hex literal starting at byte 0"),
        ("b'102'", 0, "bit literal", "unterminated bit literal starting at byte 0"),
    ] {
        let e = lex(sql).unwrap_err();
        assert_eq!(e, ParseError::Unterminated { offset, kind }, "{sql}");
        assert_eq!(e.message(), message);
    }
}

#[test]
fn parse_errors_are_put_in_words() {
    assert_eq!(
        lex("X'abc'").unwrap_err(),
        ParseError::Unsupported(
            "hex literal X'abc' must contain an even number of digits".to_string()
        )
    );
    assert_eq!(
        ParseError::Unsupported("GRANT".to_string()).message(),
        "unsupported statement: GRANT"
    );
    assert_eq!(ParseError::Empty.message(), "empty input: no statement to parse");
    assert_eq!(
        ParseError::Unexpected {
            offset: 12,
            expected: "a name".to_string(),
            found: "`(`".to_string(),
        }
        .message(),
        "syntax error at byte 12: expected a name, found `(`"
    );
}

#[test]
fn tokens_keep_their_places() {
    assert_eq!(
        lex("a <=> .5e-3 -- rest\n,?").unwrap(),
        vec![
            (Token::Word("a".to_string()), 0),
            (Token::Spaceship, 2),
            (Token::Num(".5e-3".to_string()), 6),
            (Token::Comma, 20),
            (Token::Param, 21),
        ]
    );
    assert_eq!(lex(" /* nothing */ # at all").unwrap(), vec![]);
}

#[test]
fn every_mark_is_told_apart() {
    assert_eq!(
        kinds("( ) . ; = < <= <> != >= > << >> && -> ->> * - + ! & ~"),
        vec![
            Token::LParen,
            Token::RParen,
            Token::Dot,
            Token::Semicolon,
            Token::Eq,
            Token::Lt,
            Token::Le,
            Token::Ne,
            Token::Ne,
            Token::Ge,
            Token::Gt,
            Token::ShiftLeft,
            Token::ShiftRight,
            Token::AmpAmp,
            Token::Arrow,
            Token::ArrowDouble,
            Token::Star,
            Token::Minus,
            Token::Plus,
            Token::Other('!'),
            Token::Other('&'),
            Token::Other('~'),
        ]
    );
}

#[test]
fn tokens_are_described() {
    for (token, text) in [
        (Token::Word("x".to_string()), "`x`"),
        (Token::QuotedIdent("x y".to_string()), "identifier `x y`"),
        (Token::Str("x".to_string()), "a string literal"),
        (Token::Num("1.5".to_string()), "number `1.5`"),
        (Token::LParen, "`(`"),
        (Token::Semicolon, "`;`"),
        (Token::Other('%'), "`%`"),
    ] {
        assert_eq!(token.describe(), text);
    }
}

#[test]
fn quoted_text_reads_back() {
    for name in ["", "plain", "a`b", "``", "caf\u{e9}"] {
        let sql = format!("`{}`", name.replace('`', "``"));
        assert_eq!(kinds(&sql), vec![Token::QuotedIdent(name.to_string())]);
    }
    for value in ["", "it's", "a\\b", "'\"'", "%_"] {
        let escaped = value.replace('\\', "\\\\");
        let single = format!("'{}'", escaped.replace('\'', "''"));
        assert_eq!(kinds(&single), vec![Token::Str(value.to_string())], "{single}");
        let double = format!("\"{}\"", escaped.replace('"', "\"\""));
        assert_eq!(kinds(&double), vec![Token::Str(value.to_string())], "{double}");
    }
    // What is not UTF-8 is replaced.
    let tokens = Lexer::new(b"'a\xffb'").tokenize().unwrap();
    assert_eq!(tokens[0].0, Token::Str("a\u{fffd}b".to_string()));
}

#[test]
fn variables_are_told_without_their_scope() {
    assert_eq!(kinds("@@local.x"), vec![Token::SystemVar("x".to_string())]);
    assert_eq!(kinds("@@other.x"), vec![Token::SystemVar("other.x".to_string())]);
    assert_eq!(system_variable_value("AUTOCOMMIT"), Some("1"));
    assert_eq!(system_variable_value("nothing"), None);
    // `SHOW VARIABLES` and `SELECT @@name` agree.
    let shown = build_variables(&ShowVariables { like: None });
    assert_eq!(shown.rows.len(), system_variables().len());
    for r in &shown.rows {
        let name = r[0].clone().unwrap();
        assert_eq!(eval(&chars(&format!("@@{}", name.to_uppercase())), None), Some(r[1].clone()));
    }
}

#[test]
fn session_expressions_are_evaluated() {
    assert_eq!(eval(&chars(" version() "), None), Some(Some("8.0.0-turso".to_string())));
    assert_eq!(eval(&chars("CONNECTION_ID()"), None), Some(Some("1".to_string())));
    assert_eq!(eval(&chars("current_user()"), None), Some(Some("root@localhost".to_string())));
    assert_eq!(eval(&chars("DATABASE()"), None), Some(None));
    assert_eq!(eval(&chars("DATABASE()"), Some("d")), Some(Some("d".to_string())));
    assert_eq!(eval(&chars("@@session.unknown"), None), Some(Some(String::new())));
    // A letter of any alphabet may stand in a name; an operator may not.
    assert_eq!(eval(&chars("@@\u{e9}t\u{e9}"), None), Some(Some(String::new())));
    assert_eq!(eval(&chars("@@autocommit+1"), None), None);
    assert_eq!(eval(&chars("@@"), None), None);
    assert_eq!(eval(&chars("1"), None), None);
}

#[test]
fn session_selects_are_answered_as_a_whole() {
    let (columns, values) = row("select  @@autocommit , VERSION() as `v` LIMIT 1;");
    assert_eq!(columns, ["@@autocommit", "v"]);
    assert_eq!(values, [Some("1".to_string()), Some("8.0.0-turso".to_string())]);
    assert_eq!(try_handle("SELECT @@autocommit, id"), None);
    assert_eq!(try_handle("SELECT "), None);
    assert_eq!(try_handle("SELECT\t@@autocommit").is_some(), true);
    assert_eq!(try_handle("SELECT\n@@autocommit"), None);
    assert_eq!(
        try_handle_in_db("SELECT DATABASE()", Some("d")),
        Some(SessionResponse::Row {
            columns: vec!["DATABASE()".to_string()],
            values: vec![Some("d".to_string())],
        })
    );
    assert_eq!(try_handle("SETUP"), None);
    assert_eq!(try_handle("set"), Some(SessionResponse::OkReply));
}

#[test]
fn protocol_errors_are_put_in_words() {
    let e = PacketReader::new(&[1]).u32().unwrap_err();
    assert_eq!(e.message(), "unexpected end of packet: needed 3 more byte(s) at offset 0");
    let e = PacketReader::new(&[0xff]).lenenc_u64().unwrap_err();
    assert_eq!(e.message(), "invalid length-encoded integer prefix 0xff");
    let e = utf8("query", &[0xff]).unwrap_err();
    assert_eq!(e.message(), "invalid UTF-8 in query");
    let exec = StmtExecute { statement_id: 1, flags: 0, params_tail: vec![0, 0] };
    let e = exec.parse_params(1).unwrap_err();
    assert!(matches!(e, ProtocolError::Malformed(_)));
    assert_eq!(
        e.message(),
        "malformed packet: COM_STMT_EXECUTE without a parameter-type list is not supported"
    );
    let e = PacketReader::new(&[5, 6]).null_terminated().unwrap_err();
    assert!(matches!(e, ProtocolError::UnexpectedEof { offset: 0, needed: 1 }));
}

#[test]
fn commands_that_are_not_served_are_told_apart() {
    assert!(matches!(Command::decode(&[0x04]).unwrap(), Command::Unsupported(_)));
    assert_eq!(Command::decode(&[0x63]).unwrap(), Command::Unknown(0x63));
    assert_eq!(Command::decode(&[0x1a, 1, 2, 0, 0]).unwrap(), Command::StmtReset(513));
    assert_eq!(Command::decode(&[0x19, 9, 0, 0, 0]).unwrap(), Command::StmtClose(9));
    assert!(matches!(
        Command::decode(&[0x03, 0xff]),
        Err(ProtocolError::InvalidUtf8 { field: "query" })
    ));
    assert!(matches!(
        Command::decode(&[0x17, 1]),
        Err(ProtocolError::UnexpectedEof { offset: 0, needed: 3 })
    ));
}

#[test]
fn a_full_frame_is_followed_by_another() {
    let payload = vec![7u8; MAX_PAYLOAD];
    let mut out = Vec::new();
    assert_eq!(encode_frame(&mut out, 255, &payload), 1);
    assert_eq!(out.len(), MAX_PAYLOAD + 8);
    let tail: [u8; 4] = out[MAX_PAYLOAD + 4..].try_into().unwrap();
    assert_eq!(parse_header(&tail), (0, 0));
    let mut decoder = FrameDecoder::new();
    decoder.extend(&out[..MAX_PAYLOAD + 4]);
    assert!(decoder.next_packet().unwrap().is_none());
    decoder.extend(&tail);
    let packet = decoder.next_packet().unwrap().unwrap();
    assert_eq!((packet.seq, packet.payload.len()), (255, MAX_PAYLOAD));
    // An empty payload is a frame, too.
    let mut out = Vec::new();
    assert_eq!(encode_frame(&mut out, 3, &[]), 4);
    assert_eq!(out, [0, 0, 0, 3]);
}

#[test]
fn length_encodings_take_the_shortest_form() {
    for (n, width) in [
        (0u64, 1usize),
        (250, 1),
        (251, 3),
        (65535, 3),
        (65536, 4),
        (0xff_ffff, 4),
        (0x100_0000, 9),
        (u64::MAX, 9),
    ] {
        let mut w = PacketWriter::new();
        w.lenenc_u64(n);
        assert_eq!(w.len(), width);
        let mut r = PacketReader::new(w.as_bytes());
        assert_eq!(r.lenenc_u64().unwrap(), n);
        assert!(r.is_empty());
    }
}

#[test]
fn binary_values_take_the_width_of_their_column() {
    let row = encode_binary_row(&[
        (MYSQL_TYPE_TINY, BinaryValue::I64(-1)),
        (MYSQL_TYPE_SHORT, BinaryValue::Bytes(b" 258 ".to_vec())),
        (MYSQL_TYPE_LONGLONG, BinaryValue::U64(u64::MAX)),
        (MYSQL_TYPE_FLOAT, BinaryValue::F32(1.5f32.to_bits())),
        (MYSQL_TYPE_DOUBLE, BinaryValue::F64((-0.25f64).to_bits())),
        (MYSQL_TYPE_VAR_STRING, BinaryValue::I64(-42)),
        (MYSQL_TYPE_DATE, BinaryValue::I64(1)),
        (MYSQL_TYPE_TIME, BinaryValue::Null),
    ]);
    let mut expected = vec![0, 0, 0x02, 0xff, 2, 1];
    expected.extend_from_slice(&[0xff; 8]);
    expected.extend_from_slice(&1.5f32.to_le_bytes());
    expected.extend_from_slice(&(-0.25f64).to_le_bytes());
    expected.extend_from_slice(&[3, b'-', b'4', b'2', 0]);
    assert_eq!(row, expected);
}

#[test]
fn numbers_must_have_the_form_of_their_column() {
    let carried = |code, value| can_carry(&vec![vec![(code, value)]]);
    assert!(carried(MYSQL_TYPE_FLOAT, BinaryValue::F32(0)));
    assert!(!carried(MYSQL_TYPE_FLOAT, BinaryValue::F64(0)));
    assert!(!carried(MYSQL_TYPE_DOUBLE, BinaryValue::I64(1)));
    assert!(carried(MYSQL_TYPE_DOUBLE, BinaryValue::Null));
    assert!(!carried(MYSQL_TYPE_TINY, BinaryValue::F64(0)));
    assert!(carried(MYSQL_TYPE_TINY, BinaryValue::I64(1)));
}

#[test]
fn patterns_match_percent_signs_too() {
    assert!(like_match("%b", "%ab"));
    assert!(like_match("%", ""));
    assert!(like_match("", ""));
    assert!(!like_match("", "a"));
    assert!(like_match("a%b%c", "aXbYbZc"));
    assert!(!like_match("a_c", "ac"));
    assert!(like_match("\u{e9}_", "\u{e9}\u{e9}"));
}

#[test]
fn statements_are_split_into_tokens() {
    assert_eq!(
        tokenize("SHOW `a``b`.c, 'it' = \"x\";"),
        ["SHOW", "a`b", ".", "c", ",", "'it'", "=", "\"x\"", ";"]
    );
    assert_eq!(tokenize("'open"), ["'open"]);
    assert_eq!(unquote_token("'a''b'"), Some("a'b".to_string()));
    assert_eq!(unquote_token("\"a\"\"b\""), Some("a\"b".to_string()));
    assert_eq!(unquote_token("'"), None);
    assert_eq!(unquote_token("ab"), None);
}

#[test]
fn incomplete_show_statements_are_not_recognised() {
    for sql in [
        "SHOW COLUMNS", "SHOW COLUMNS FROM", "SHOW COLUMNS FROM d.", "SHOW COLUMNS FROM t FROM",
        "SHOW COLUMNS FROM t LIKE", "SHOW COLUMNS FROM t LIKE a", "SHOW COLUMNS FROM t WHERE Field",
    ] {
        assert_eq!(parse_show_columns(sql), None, "{sql}");
    }
    assert_eq!(parse_describe("DESC d.t").unwrap().table, "t");
    assert_eq!(parse_describe("DESCRIBE t col"), None);
    assert_eq!(parse_show_tables("SHOW TABLES IN"), None);
    assert!(matches!(try_show("desc t;"), Some(ShowRequest::Columns(_))));
    assert_eq!(try_show("SHOW STATUS"), None);
}
