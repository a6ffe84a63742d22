use turso_mysql::protocol::packet::{PacketReader, PacketWriter};

#[test]
fn lenenc_int_roundtrips() {
    for v in [
        0u64,
        1,
        250,
        251,
        0xffff,
        0x1_0000,
        0xff_ffff,
        0x100_0000,
        u64::MAX,
    ] {
        let mut w = PacketWriter::new();
        w.lenenc_u64(v);
        let bytes = w.into_bytes();
        let mut r = PacketReader::new(&bytes);
        assert_eq!(r.lenenc_u64().unwrap(), v, "value {v}");
        assert!(r.is_empty());
    }
}

#[test]
fn null_terminated_roundtrips() {
    let mut w = PacketWriter::new();
    w.null_terminated(b"root").u8(0x42);
    let bytes = w.into_bytes();
    let mut r = PacketReader::new(&bytes);
    assert_eq!(r.null_terminated().unwrap(), b"root");
    assert_eq!(r.u8().unwrap(), 0x42);
}

#[test]
fn reading_past_end_errors() {
    let bytes = [1u8, 2];
    let mut r = PacketReader::new(&bytes);
    assert!(r.u32().is_err());
}
