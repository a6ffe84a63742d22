use turso_mysql::protocol::constants::capabilities;
use turso_mysql::protocol::constants::collation;
use turso_mysql::protocol::handshake::{HandshakeResponse41, HandshakeV10};
use turso_mysql::protocol::packet::PacketWriter;

#[test]
fn greeting_encodes_to_expected_shape() {
    let hs = HandshakeV10::new("8.0.0-turso", 42, [1u8; 20]);
    let bytes = hs.encode();
    // protocol version
    assert_eq!(bytes[0], 10);
    // server version is NUL-terminated right after.
    let nul = bytes[1..].iter().position(|&b| b == 0).unwrap() + 1;
    assert_eq!(&bytes[1..nul], b"8.0.0-turso");
}

#[test]
fn response_decodes_username_and_db() {
    // Build a minimal CLIENT_PROTOCOL_41 response by hand.
    let mut w = PacketWriter::new();
    let caps = capabilities::CLIENT_PROTOCOL_41
        | capabilities::CLIENT_SECURE_CONNECTION
        | capabilities::CLIENT_CONNECT_WITH_DB
        | capabilities::CLIENT_PLUGIN_AUTH;
    w.u32(caps);
    w.u32(0x0100_0000); // max packet
    w.u8(collation::UTF8MB4_GENERAL_CI);
    w.fill(23);
    w.null_terminated(b"root");
    w.u8(0); // empty auth response (secure connection: 1-byte length)
    w.null_terminated(b"mydb");
    w.null_terminated(b"mysql_native_password");
    let payload = w.into_bytes();

    let resp = HandshakeResponse41::decode(&payload).unwrap();
    assert_eq!(resp.username, "root");
    assert_eq!(resp.database.as_deref(), Some("mydb"));
    assert_eq!(resp.auth_plugin.as_deref(), Some("mysql_native_password"));
}
