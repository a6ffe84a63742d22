use turso_mysql::protocol::constants::column_type;
use turso_mysql::protocol::stmt::BinaryValue;
use turso_mysql::server::temporal::{parse_datetime, parse_time, write_datetime, write_time};
use turso_mysql::server::types::{binary_to_value, value_to_binary, BoundValue};
use turso_mysql::server::value::{value_to_string, value_to_text, Value};

fn datetime(
    year: u16,
    month: u8,
    day: u8,
    hour: u8,
    minute: u8,
    second: u8,
    micros: u32,
) -> BinaryValue {
    BinaryValue::DateTime { year, month, day, hour, minute, second, micros }
}

#[test]
fn dates_are_read() {
    assert_eq!(parse_datetime("2024-02-29"), Some(datetime(2024, 2, 29, 0, 0, 0, 0)));
    assert_eq!(
        parse_datetime(" 2024-02-29 12:34:56.5 "),
        Some(datetime(2024, 2, 29, 12, 34, 56, 500000))
    );
    assert_eq!(
        parse_datetime("2024-02-29T01:02:03.1234567"),
        Some(datetime(2024, 2, 29, 1, 2, 3, 123456))
    );
    // The hour is one of a clock.
    assert_eq!(parse_datetime("1-1-1 23:0:0"), Some(datetime(1, 1, 1, 23, 0, 0, 0)));
    assert_eq!(parse_datetime("1-1-1 24:0:0"), None);
    assert_eq!(parse_datetime("1-1-1 257:0:0"), None);
    for bad in [
        "", "2024", "2024-02", "2024-2-3-4", "70000-1-1", "2024-1-256", "2024-1-1 ", "x-1-1",
        "2024-1-1 1:2", "2024-1-1 1:2:3.", "2024-1-1 1:2:3.x",
    ] {
        // A trailing blank is trimmed before anything is read.
        if bad == "2024-1-1 " {
            assert!(parse_datetime(bad).is_some());
        } else {
            assert_eq!(parse_datetime(bad), None, "{bad:?}");
        }
    }
}

#[test]
fn durations_are_read() {
    assert_eq!(
        parse_time("-49:30:15.25"),
        Some(BinaryValue::Time {
            negative: true,
            days: 2,
            hour: 1,
            minute: 30,
            second: 15,
            micros: 250000,
        })
    );
    assert_eq!(parse_time("1:2"), None);
    assert_eq!(parse_time("--1:2:3"), None);
}

#[test]
fn every_date_reads_back() {
    for (y, mo, d, h, mi, s, us) in [
        (0u16, 0u8, 0u8, 0u8, 0u8, 0u8, 0u32),
        (2024, 12, 31, 23, 59, 59, 999999),
        (65535, 255, 255, 23, 255, 255, 1),
        (1, 2, 3, 0, 0, 0, 7),
    ] {
        let text = write_datetime(y, mo, d, h, mi, s, us);
        assert_eq!(parse_datetime(&text), Some(datetime(y, mo, d, h, mi, s, us)), "{text}");
    }
    assert_eq!(write_datetime(1, 2, 3, 0, 0, 0, 0), "0001-02-03");
    assert_eq!(write_datetime(1, 2, 3, 4, 5, 6, 7), "0001-02-03 04:05:06.000007");
}

#[test]
fn every_duration_reads_back() {
    for (negative, days, hour, us) in [(false, 0u32, 0u8, 0u32), (true, 34, 22, 1), (false, 1000, 23, 0)]
    {
        let text = write_time(negative, days, hour, 59, 58, us);
        assert_eq!(
            parse_time(&text),
            Some(BinaryValue::Time { negative, days, hour, minute: 59, second: 58, micros: us }),
            "{text}"
        );
    }
    assert_eq!(write_time(true, 1, 1, 2, 3, 0), "-25:02:03");
}

#[test]
fn values_take_the_form_of_their_column() {
    let text = Value::Text("2020-01-02".to_string());
    assert_eq!(
        value_to_binary(&text, column_type::MYSQL_TYPE_DATE),
        datetime(2020, 1, 2, 0, 0, 0, 0)
    );
    assert_eq!(
        value_to_binary(&text, column_type::MYSQL_TYPE_VAR_STRING),
        BinaryValue::Bytes(b"2020-01-02".to_vec())
    );
    // Text that is no date stays text.
    assert_eq!(
        value_to_binary(&Value::Text("soon".to_string()), column_type::MYSQL_TYPE_DATETIME),
        BinaryValue::Bytes(b"soon".to_vec())
    );
    assert_eq!(
        value_to_binary(&Value::Text("1:2:3".to_string()), column_type::MYSQL_TYPE_TIME),
        BinaryValue::Time { negative: false, days: 0, hour: 1, minute: 2, second: 3, micros: 0 }
    );
    assert_eq!(value_to_binary(&Value::Null, column_type::MYSQL_TYPE_LONG), BinaryValue::Null);
    assert_eq!(
        value_to_binary(&Value::Integer(-3), column_type::MYSQL_TYPE_LONG),
        BinaryValue::I64(-3)
    );
    let real = Value::Real { bits: 1.5f64.to_bits(), text: "1.5".to_string() };
    assert_eq!(
        value_to_binary(&real, column_type::MYSQL_TYPE_DOUBLE),
        BinaryValue::F64(1.5f64.to_bits())
    );
    assert_eq!(
        value_to_binary(&Value::Blob(vec![1, 255]), column_type::MYSQL_TYPE_BLOB),
        BinaryValue::Bytes(vec![1, 255])
    );
}

#[test]
fn parameters_are_bound() {
    assert_eq!(binary_to_value(BinaryValue::Null), BoundValue::Null);
    assert_eq!(binary_to_value(BinaryValue::I64(-1)), BoundValue::Integer(-1));
    assert_eq!(binary_to_value(BinaryValue::U64(5)), BoundValue::Integer(5));
    assert_eq!(
        binary_to_value(BinaryValue::U64(u64::MAX)),
        BoundValue::Text("18446744073709551615".to_string())
    );
    assert_eq!(binary_to_value(BinaryValue::F32(7)), BoundValue::Single(7));
    assert_eq!(binary_to_value(BinaryValue::F64(9)), BoundValue::Double(9));
    assert_eq!(
        binary_to_value(BinaryValue::Bytes("héllo".as_bytes().to_vec())),
        BoundValue::Text("héllo".to_string())
    );
    assert_eq!(
        binary_to_value(BinaryValue::Bytes(vec![0xff, 0xfe])),
        BoundValue::Blob(vec![0xff, 0xfe])
    );
    assert_eq!(
        binary_to_value(datetime(2020, 1, 2, 3, 4, 5, 0)),
        BoundValue::Text("2020-01-02 03:04:05".to_string())
    );
    assert_eq!(
        binary_to_value(BinaryValue::Time {
            negative: true,
            days: 1,
            hour: 2,
            minute: 3,
            second: 4,
            micros: 5,
        }),
        BoundValue::Text("-26:03:04.000005".to_string())
    );
}

#[test]
fn values_are_rendered() {
    assert_eq!(value_to_string(&Value::Null), None);
    assert_eq!(value_to_string(&Value::Integer(-12)), Some("-12".to_string()));
    assert_eq!(
        value_to_string(&Value::Real { bits: 0, text: "0.0".to_string() }),
        Some("0.0".to_string())
    );
    assert_eq!(value_to_string(&Value::Blob(vec![b'a', 0xff])), Some("a\u{fffd}".to_string()));
    assert_eq!(value_to_text(&Value::Blob(vec![b'a', 0xff])), Some(vec![b'a', 0xff]));
    assert_eq!(value_to_text(&Value::Text("é".to_string())), Some("é".as_bytes().to_vec()));
    assert_eq!(value_to_text(&Value::Null), None);
}
