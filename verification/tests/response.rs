use turso_mysql::protocol::constants::{ERR_HEADER, OK_HEADER};
use turso_mysql::protocol::response::{ErrPacket, OkPacket};

#[test]
fn ok_packet_has_zero_header() {
    let bytes = OkPacket::default().encode();
    assert_eq!(bytes[0], OK_HEADER);
}

#[test]
fn err_packet_carries_code_and_message() {
    let bytes = ErrPacket::new(1064, "boom").encode();
    assert_eq!(bytes[0], ERR_HEADER);
    assert_eq!(u16::from_le_bytes([bytes[1], bytes[2]]), 1064);
    assert_eq!(bytes[3], b'#');
    assert_eq!(&bytes[4..9], b"HY000");
    assert_eq!(&bytes[9..], b"boom");
}
