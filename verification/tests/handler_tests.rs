use vnts::cache::AppCache;
use vnts::config::ConfigInfo;
use vnts::crypto::RsaCipher;
use vnts::handler::{
    encode_registration, PacketAction, PacketHandler, RegRequest, ERR_TOKEN_REJECTED,
};
use vnts::net::PeerAddr;
use vnts::wire::{be64_at, message_code, MessageType, NetPacket, FLAG_ENCRYPTED, FLAG_TO_GATEWAY};

const GW: u32 = 0x0A1A_0001;
const MASK: u32 = 0xFFFF_FF00;

fn addr(n: u16) -> PeerAddr {
    PeerAddr {
        ip: 0xFFFF_0A00_0000_0000u128 + n as u128,
        port: 60000 + n,
    }
}

fn reg_payload(token: &str, device: &str, requested: u32) -> Vec<u8> {
    encode_registration(&RegRequest {
        token: token.as_bytes().to_vec(),
        device_id: device.as_bytes().to_vec(),
        name: "node".as_bytes().to_vec(),
        version: "1.0".as_bytes().to_vec(),
        requested_ip: requested,
        client_secret: false,
    })
}

fn handler_with_tokens(tokens: Option<Vec<&str>>) -> PacketHandler {
    let mut config = ConfigInfo::new();
    config.white_token = tokens.map(|ts| ts.into_iter().map(|t| t.to_string()).collect());
    PacketHandler::new(AppCache::new(), config, None)
}

#[test]
fn whitelist_accepts_and_rejects() {
    let mut h = handler_with_tokens(Some(vec!["alpha", "beta"]));
    // token on the list: a full registration answer
    match h.handle_registration(10, &reg_payload("alpha", "dev-a", 0), addr(1)) {
        PacketAction::Reply(p) => {
            assert_eq!(p.message_type(), MessageType::RegistrationResponse);
            let body = p.payload_to_vec();
            assert_eq!(&body[0..4], &0x0A1A_0002u32.to_be_bytes());
            assert_eq!(&body[4..8], &MASK.to_be_bytes());
            assert_eq!(&body[8..12], &GW.to_be_bytes());
        }
        _ => panic!("expected a reply"),
    }
    // token off the list: rejected, nothing changes
    match h.handle_registration(11, &reg_payload("gamma", "dev-b", 0), addr(2)) {
        PacketAction::Reply(p) => {
            assert_eq!(p.message_type(), MessageType::ErrorResponse);
            assert_eq!(p.payload_to_vec(), vec![ERR_TOKEN_REJECTED]);
        }
        _ => panic!("expected a reply"),
    }
    assert!(h.cache.addr_session.entries.iter().all(|e| e.key != addr(2)));
}

#[test]
fn relay_forwards_packet_unchanged() {
    let mut h = handler_with_tokens(None);
    let a = h
        .cache
        .register_client(
            0,
            &"g".to_string(),
            "dev-a".to_string(),
            "A".to_string(),
            "1".to_string(),
            false,
            None,
            addr(1),
            GW,
            MASK,
        )
        .unwrap();
    let b = h
        .cache
        .register_client(
            1,
            &"g".to_string(),
            "dev-b".to_string(),
            "B".to_string(),
            "1".to_string(),
            false,
            None,
            addr(2),
            GW,
            MASK,
        )
        .unwrap();
    let payload: Vec<u8> = vec![0x55; 40];
    let pkt = NetPacket::build(
        MessageType::Data,
        0x05, // reserved bits are preserved on forwarding
        3,
        a.virtual_ip,
        b.virtual_ip,
        &payload,
    )
    .unwrap();
    match h.handle(100, &pkt, addr(1)) {
        PacketAction::Forward(p, dst) => {
            assert_eq!(dst, addr(2));
            assert_eq!(p.buffer(), pkt.buffer());
        }
        _ => panic!("expected a forward"),
    }
    // a forged source is dropped
    let forged = NetPacket::build(MessageType::Data, 0, 0, b.virtual_ip, a.virtual_ip, &payload)
        .unwrap();
    assert!(matches!(
        h.handle(101, &forged, addr(1)),
        PacketAction::Discard
    ));
    // an unknown destination earns an unreachable notice
    let nowhere =
        NetPacket::build(MessageType::Data, 0, 0, a.virtual_ip, 0x0A1A_00FE, &payload).unwrap();
    match h.handle(102, &nowhere, addr(1)) {
        PacketAction::Reply(p) => assert_eq!(p.message_type(), MessageType::Unreachable),
        _ => panic!("expected a reply"),
    }
    // an unregistered sender is dropped
    assert!(matches!(
        h.handle(103, &pkt, addr(9)),
        PacketAction::Discard
    ));
}

#[test]
fn punch_request_is_brokered() {
    let mut h = handler_with_tokens(None);
    let a = h
        .cache
        .register_client(
            0,
            &"g".to_string(),
            "dev-a".to_string(),
            "A".to_string(),
            "1".to_string(),
            false,
            None,
            addr(1),
            GW,
            MASK,
        )
        .unwrap();
    let b = h
        .cache
        .register_client(
            1,
            &"g".to_string(),
            "dev-b".to_string(),
            "B".to_string(),
            "1".to_string(),
            false,
            None,
            addr(2),
            GW,
            MASK,
        )
        .unwrap();
    let empty: Vec<u8> = Vec::new();
    let pkt = NetPacket::build(
        MessageType::PunchRequest,
        0,
        0,
        a.virtual_ip,
        b.virtual_ip,
        &empty,
    )
    .unwrap();
    match h.handle(50, &pkt, addr(1)) {
        PacketAction::Broker(p1, d1, p2, d2) => {
            assert_eq!(d1, addr(1));
            assert_eq!(d2, addr(2));
            assert_eq!(p1.message_type(), MessageType::PunchInfo);
            assert_eq!(p2.message_type(), MessageType::PunchInfo);
            // each endpoint learns the other's public address and port
            let b1 = p1.payload_to_vec();
            assert_eq!(&b1[16..18], &addr(2).port.to_be_bytes());
            let b2 = p2.payload_to_vec();
            assert_eq!(&b2[16..18], &addr(1).port.to_be_bytes());
        }
        _ => panic!("expected a broker pair"),
    }
}

#[test]
fn time_sync_answers_current_time() {
    let mut h = handler_with_tokens(None);
    let empty: Vec<u8> = Vec::new();
    let pkt = NetPacket::build(MessageType::TimeSync, FLAG_TO_GATEWAY, 0, 0, 0, &empty).unwrap();
    match h.handle(123_456_789, &pkt, addr(1)) {
        PacketAction::Reply(p) => {
            assert_eq!(p.message_type(), MessageType::TimeResponse);
            assert_eq!(be64_at(&p.payload_to_vec(), 0), 123_456_789);
        }
        _ => panic!("expected a reply"),
    }
}

#[test]
fn handshake_then_encrypted_registration() {
    let rsa = RsaCipher::generate().unwrap();
    let pub_der = rsa.public_key_der();
    let mut h = PacketHandler::new(AppCache::new(), ConfigInfo::new(), Some(rsa));
    // the public key is served on request
    let empty: Vec<u8> = Vec::new();
    let req = NetPacket::build(
        MessageType::PublicKeyRequest,
        FLAG_TO_GATEWAY,
        0,
        0,
        0,
        &empty,
    )
    .unwrap();
    match h.handle(1, &req, addr(1)) {
        PacketAction::Reply(p) => {
            assert_eq!(p.message_type(), MessageType::PublicKeyResponse);
            assert_eq!(p.payload_to_vec(), pub_der);
        }
        _ => panic!("expected a reply"),
    }
    // the client seals a 32-octet key and a 4-octet finger value
    let key: Vec<u8> = (0u8..32).collect();
    let mut secret = key.clone();
    secret.extend_from_slice(&0xDEAD_BEEFu32.to_be_bytes());
    let sealed = match &h.rsa {
        Some(k) => k.encrypt(&secret).unwrap(),
        None => unreachable!(),
    };
    let hs = NetPacket::build(
        MessageType::SecretKeyExchange,
        FLAG_TO_GATEWAY,
        0,
        0,
        0,
        &sealed,
    )
    .unwrap();
    let session = vnts::crypto::CipherSession::new(key.clone());
    match h.handle(2, &hs, addr(1)) {
        PacketAction::Reply(p) => {
            assert_eq!(p.message_type(), MessageType::SecretKeyResponse);
            // the acknowledgement opens under the freshly agreed key
            let aad: Vec<u8> = Vec::new();
            let opened = session.open(0, 0, &aad, &p.payload_to_vec()).unwrap();
            assert_eq!(opened, 0xDEAD_BEEFu32.to_be_bytes().to_vec());
        }
        _ => panic!("expected a reply"),
    }
    assert!(h.cache.cipher_session.entries.iter().any(|e| e.key == addr(1)));
    // the next registration travels encrypted under the session key
    let plain = reg_payload("g", "dev-a", 0);
    let probe = NetPacket::build(
        MessageType::Registration,
        FLAG_TO_GATEWAY | FLAG_ENCRYPTED,
        5,
        0,
        0,
        &Vec::new(),
    )
    .unwrap();
    let header = probe.buffer()[0..12].to_vec();
    let sealed_reg = session.seal(0, 5, &header, &plain);
    let reg = NetPacket::build(
        MessageType::Registration,
        FLAG_TO_GATEWAY | FLAG_ENCRYPTED,
        5,
        0,
        0,
        &sealed_reg,
    )
    .unwrap();
    assert_eq!(reg.buffer()[0..12], header[..]);
    match h.handle(3, &reg, addr(1)) {
        PacketAction::Reply(p) => {
            assert_eq!(p.message_type(), MessageType::RegistrationResponse);
            let body = p.payload_to_vec();
            assert_eq!(&body[0..4], &0x0A1A_0002u32.to_be_bytes());
        }
        _ => panic!("expected a reply"),
    }
}

#[test]
fn heartbeat_and_poll() {
    let mut h = handler_with_tokens(None);
    let a = h
        .cache
        .register_client(
            0,
            &"g".to_string(),
            "dev-a".to_string(),
            "A".to_string(),
            "1".to_string(),
            false,
            None,
            addr(1),
            GW,
            MASK,
        )
        .unwrap();
    let empty: Vec<u8> = Vec::new();
    let hb = NetPacket::build(MessageType::Heartbeat, FLAG_TO_GATEWAY, 0, a.virtual_ip, 0, &empty)
        .unwrap();
    match h.handle(10, &hb, addr(1)) {
        PacketAction::Reply(p) => assert_eq!(p.message_type(), MessageType::HeartbeatAck),
        _ => panic!("expected a reply"),
    }
    // polling with the current epoch: nothing new
    let mut poll_body = Vec::new();
    poll_body.extend_from_slice(&a.epoch.to_be_bytes());
    let poll = NetPacket::build(
        MessageType::PollDeviceList,
        FLAG_TO_GATEWAY,
        0,
        a.virtual_ip,
        0,
        &poll_body,
    )
    .unwrap();
    match h.handle(11, &poll, addr(1)) {
        PacketAction::Reply(p) => assert_eq!(p.message_type(), MessageType::NotModified),
        _ => panic!("expected a reply"),
    }
    // polling with a stale epoch: the full membership, five octets a row
    let mut stale_body = Vec::new();
    stale_body.extend_from_slice(&0u64.to_be_bytes());
    let poll2 = NetPacket::build(
        MessageType::PollDeviceList,
        FLAG_TO_GATEWAY,
        0,
        a.virtual_ip,
        0,
        &stale_body,
    )
    .unwrap();
    match h.handle(12, &poll2, addr(1)) {
        PacketAction::Reply(p) => {
            assert_eq!(p.message_type(), MessageType::DeviceList);
            let body = p.payload_to_vec();
            assert_eq!(body.len(), 5);
            assert_eq!(&body[0..4], &a.virtual_ip.to_be_bytes());
            assert_eq!(body[4], 1);
        }
        _ => panic!("expected a reply"),
    }
}

#[test]
fn registration_without_session_is_told_to_reconnect() {
    let mut h = handler_with_tokens(None);
    let pkt = NetPacket::build(
        MessageType::Registration,
        FLAG_TO_GATEWAY,
        0,
        0,
        0,
        &reg_payload("g", "dev-a", 0),
    )
    .unwrap();
    match h.handle(5, &pkt, addr(1)) {
        PacketAction::Reply(p) => {
            assert_eq!(p.message_type(), MessageType::ErrorResponse);
            assert_eq!(p.payload_to_vec(), vec![vnts::handler::ERR_NO_CONTEXT]);
        }
        _ => panic!("expected a reply"),
    }
    // an unregistered address polling the gateway is told the same
    let mut body = Vec::new();
    body.extend_from_slice(&0u64.to_be_bytes());
    let poll = NetPacket::build(MessageType::PollDeviceList, FLAG_TO_GATEWAY, 0, 0, 0, &body)
        .unwrap();
    match h.handle(6, &poll, addr(1)) {
        PacketAction::Reply(p) => {
            assert_eq!(p.message_type(), MessageType::ErrorResponse);
            assert_eq!(p.payload_to_vec(), vec![vnts::handler::ERR_NO_CONTEXT]);
        }
        _ => panic!("expected a reply"),
    }
}
