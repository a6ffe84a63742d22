use turso_mysql::protocol::constants::NULL_COLUMN_MARKER;
use turso_mysql::protocol::packet::PacketReader;
use turso_mysql::protocol::resultset::{encode_column_count, encode_text_row};

#[test]
fn text_row_encodes_null_and_values() {
    let row = encode_text_row(vec![Some(b"hello".as_ref()), None, Some(b"42".as_ref())]);
    let mut r = PacketReader::new(&row);
    assert_eq!(r.lenenc_bytes().unwrap(), b"hello");
    assert_eq!(r.u8().unwrap(), NULL_COLUMN_MARKER);
    assert_eq!(r.lenenc_bytes().unwrap(), b"42");
    assert!(r.is_empty());
}

#[test]
fn column_count_roundtrips() {
    let bytes = encode_column_count(3);
    let mut r = PacketReader::new(&bytes);
    assert_eq!(r.lenenc_u64().unwrap(), 3);
}
