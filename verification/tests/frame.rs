use turso_mysql::protocol::frame::{encode_frame, FrameDecoder, MAX_PAYLOAD};

#[test]
fn small_packet_roundtrips() {
    let mut out = Vec::new();
    let next = encode_frame(&mut out, 0, b"hello");
    assert_eq!(next, 1);

    let mut dec = FrameDecoder::new();
    dec.extend(&out);
    let pkt = dec.next_packet().unwrap().unwrap();
    assert_eq!(pkt.seq, 0);
    assert_eq!(pkt.payload, b"hello");
    assert!(dec.next_packet().unwrap().is_none());
}

#[test]
fn split_feed_reassembles() {
    let mut out = Vec::new();
    encode_frame(&mut out, 7, b"abcdef");

    let mut dec = FrameDecoder::new();
    // Feed one byte at a time; the packet only becomes available at the end.
    for chunk in out.chunks(1) {
        assert!(dec.next_packet().unwrap().is_none());
        dec.extend(chunk);
    }
    let pkt = dec.next_packet().unwrap().unwrap();
    assert_eq!(pkt.seq, 7);
    assert_eq!(pkt.payload, b"abcdef");
}

#[test]
fn multi_frame_payload_reassembles() {
    let payload = vec![0xabu8; MAX_PAYLOAD + 10];
    let mut out = Vec::new();
    encode_frame(&mut out, 0, &payload);

    let mut dec = FrameDecoder::new();
    dec.extend(&out);
    let pkt = dec.next_packet().unwrap().unwrap();
    assert_eq!(pkt.payload.len(), payload.len());
    assert_eq!(pkt.payload, payload);
}
