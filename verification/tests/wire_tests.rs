use vnts::wire::{
    build_frame_prefix, message_code, message_of_code, parse_frame_prefix, MessageType, NetPacket,
    WireError,
};

#[test]
fn build_then_parse_round_trip() {
    let payload: Vec<u8> = vec![0xDE, 0xAD, 0xBE, 0xEF, 0x01];
    let p = NetPacket::build(
        MessageType::Data,
        0xA5,
        7,
        0x0A1A_0002,
        0x0A1A_0003,
        &payload,
    )
    .unwrap();
    let parsed = NetPacket::parse(p.buffer().clone()).unwrap();
    let h = parsed.header();
    assert_eq!(h.version, 1);
    assert_eq!(h.msg_type, message_code(MessageType::Data));
    assert_eq!(h.flags, 0xA5);
    assert_eq!(h.seq, 7);
    assert_eq!(h.source, 0x0A1A_0002);
    assert_eq!(h.destination, 0x0A1A_0003);
    assert_eq!(parsed.payload_to_vec(), payload);
    assert_eq!(parsed.buffer(), p.buffer());
}

#[test]
fn flags_accessors() {
    let payload: Vec<u8> = Vec::new();
    let p = NetPacket::build(MessageType::Heartbeat, 0x80 | 0x40, 0, 1, 2, &payload).unwrap();
    assert!(p.is_to_gateway());
    assert!(p.is_encrypted());
    assert!(!p.is_reply());
    let q = NetPacket::build(MessageType::Data, 0x20, 0, 1, 2, &payload).unwrap();
    assert!(!q.is_to_gateway());
    assert!(!q.is_encrypted());
    assert!(q.is_reply());
}

#[test]
fn parse_rejects_bad_buffers() {
    assert_eq!(
        NetPacket::parse(vec![1, 2, 3]).err(),
        Some(WireError::LengthOutOfBounds)
    );
    // wrong version octet
    let mut buf = vec![9u8; 12];
    buf[1] = 16;
    assert_eq!(NetPacket::parse(buf).err(), Some(WireError::UnknownVersion));
    // unknown message type
    let mut buf2 = vec![0u8; 12];
    buf2[0] = 1;
    buf2[1] = 200;
    assert_eq!(NetPacket::parse(buf2).err(), Some(WireError::UnknownType));
    // a well-formed minimal packet
    let mut buf3 = vec![0u8; 12];
    buf3[0] = 1;
    buf3[1] = 10;
    assert!(NetPacket::parse(buf3).is_ok());
}

#[test]
fn message_codes_round_trip() {
    for code in 1u8..=19u8 {
        let t = message_of_code(code).unwrap();
        assert_eq!(message_code(t), code);
    }
    assert!(message_of_code(0).is_none());
    assert!(message_of_code(20).is_none());
}

#[test]
fn frame_prefix_rules() {
    assert_eq!(parse_frame_prefix(0, 0, 0, 12).unwrap(), 12);
    assert_eq!(parse_frame_prefix(0, 0, 1, 44).unwrap(), 300);
    // reserved octets must be zero
    assert_eq!(
        parse_frame_prefix(1, 0, 0, 12).err(),
        Some(WireError::UnknownVersion)
    );
    // shorter than a header
    assert_eq!(
        parse_frame_prefix(0, 0, 0, 11).err(),
        Some(WireError::LengthOutOfBounds)
    );
    assert_eq!(build_frame_prefix(300), [0, 0, 1, 44]);
    assert_eq!(build_frame_prefix(12), [0, 0, 0, 12]);
}
