use turso_mysql::protocol::command::Command;

#[test]
fn decodes_query() {
    let mut payload = vec![0x03];
    payload.extend_from_slice(b"SELECT 1");
    assert_eq!(
        Command::decode(&payload).unwrap(),
        Command::Query("SELECT 1".to_string())
    );
}

#[test]
fn empty_payload_is_quit() {
    assert_eq!(Command::decode(&[]).unwrap(), Command::Quit);
}

#[test]
fn ping_and_quit() {
    assert_eq!(Command::decode(&[0x0e]).unwrap(), Command::Ping);
    assert_eq!(Command::decode(&[0x01]).unwrap(), Command::Quit);
}
