use turso_mysql::protocol::constants::{column_type, OK_HEADER};
use turso_mysql::protocol::packet::PacketReader;
use turso_mysql::protocol::stmt::{
    decode_datetime, encode_binary_row, BinaryValue, StmtExecute, StmtPrepareOk,
};

#[test]
fn prepare_ok_layout() {
    let bytes = StmtPrepareOk {
        statement_id: 7,
        num_columns: 2,
        num_params: 1,
        warning_count: 0,
    }
    .encode();
    assert_eq!(bytes[0], OK_HEADER);
    assert_eq!(
        u32::from_le_bytes([bytes[1], bytes[2], bytes[3], bytes[4]]),
        7
    );
    assert_eq!(u16::from_le_bytes([bytes[5], bytes[6]]), 2); // columns
    assert_eq!(u16::from_le_bytes([bytes[7], bytes[8]]), 1); // params
}

/// Builds a `COM_STMT_EXECUTE` parameter tail for the given typed values.
fn execute_tail(params: &[(u8, bool, &[u8])]) -> StmtExecute {
    let n = params.len();
    let mut tail = vec![0u8; n.div_ceil(8)]; // NULL bitmap, none null
    tail.push(1); // new-params-bound
    for (code, unsigned, _) in params {
        tail.push(*code);
        tail.push(if *unsigned { 0x80 } else { 0 });
    }
    for (_, _, value) in params {
        tail.extend_from_slice(value);
    }
    StmtExecute {
        statement_id: 1,
        flags: 0,
        params_tail: tail,
    }
}

#[test]
fn decodes_integer_and_string_params() {
    let exec = execute_tail(&[
        (
            column_type::MYSQL_TYPE_LONGLONG,
            false,
            &42i64.to_le_bytes(),
        ),
        (column_type::MYSQL_TYPE_VAR_STRING, false, &{
            let mut v = vec![3u8]; // lenenc length
            v.extend_from_slice(b"hey");
            v
        }),
    ]);
    let params = exec.parse_params(2).unwrap();
    assert_eq!(params[0], BinaryValue::I64(42));
    assert_eq!(params[1], BinaryValue::Bytes(b"hey".to_vec()));
}

#[test]
fn decodes_negative_tinyint() {
    // -1 as a signed TINYINT is 0xff; it must sign-extend, not become 255.
    let exec = execute_tail(&[(column_type::MYSQL_TYPE_TINY, false, &[0xff])]);
    assert_eq!(exec.parse_params(1).unwrap()[0], BinaryValue::I64(-1));
}

#[test]
fn large_unsigned_stays_u64() {
    let big = u64::MAX;
    let exec = execute_tail(&[(column_type::MYSQL_TYPE_LONGLONG, true, &big.to_le_bytes())]);
    assert_eq!(exec.parse_params(1).unwrap()[0], BinaryValue::U64(big));
}

#[test]
fn null_param_via_bitmap() {
    // One param, flagged NULL in the bitmap; no value bytes follow.
    let exec = StmtExecute {
        statement_id: 1,
        flags: 0,
        params_tail: vec![0b0000_0001, 1, column_type::MYSQL_TYPE_LONG, 0],
    };
    assert_eq!(exec.parse_params(1).unwrap()[0], BinaryValue::Null);
}

#[test]
fn binary_row_roundtrips_null_bitmap_and_values() {
    let cells = vec![
        (column_type::MYSQL_TYPE_LONG, BinaryValue::I64(5)),
        (column_type::MYSQL_TYPE_VAR_STRING, BinaryValue::Null),
        (
            column_type::MYSQL_TYPE_VAR_STRING,
            BinaryValue::Bytes(b"hi".to_vec()),
        ),
    ];
    let row = encode_binary_row(&cells);
    assert_eq!(row[0], 0x00);
    // bitmap is one byte; only column index 1 is null → bit (1+2)=3 set.
    assert_eq!(row[1], 0b0000_1000);
    let mut r = PacketReader::new(&row[2..]);
    assert_eq!(r.u32().unwrap(), 5);
    assert_eq!(r.lenenc_bytes().unwrap(), b"hi");
    assert!(r.is_empty());
}

#[test]
fn datetime_roundtrip() {
    let dt = BinaryValue::DateTime {
        year: 2020,
        month: 1,
        day: 2,
        hour: 3,
        minute: 4,
        second: 5,
        micros: 0,
    };
    let row = encode_binary_row(&[(column_type::MYSQL_TYPE_DATETIME, dt.clone())]);
    let mut r = PacketReader::new(&row[2..]);
    assert_eq!(decode_datetime(&mut r).unwrap(), dt);
}
