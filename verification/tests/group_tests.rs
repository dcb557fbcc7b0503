use vnts::group::{NetworkInfo, RegisterError};
use vnts::net::PeerAddr;

fn addr(n: u16) -> PeerAddr {
    PeerAddr {
        ip: 0xFFFF_0A00_0000_0000u128 + n as u128,
        port: 40000 + n,
    }
}

const GW: u32 = 0x0A1A_0001; // 10.26.0.1
const MASK: u32 = 0xFFFF_FF00; // /24

#[test]
fn assigns_lowest_host_addresses() {
    let mut g = NetworkInfo::new(GW, MASK);
    let a = g
        .register(
            10,
            "dev-a".to_string(),
            "A".to_string(),
            "1.0".to_string(),
            false,
            None,
            addr(1),
        )
        .unwrap();
    // 10.26.0.2: the lowest usable host after the gateway
    assert_eq!(a, 0x0A1A_0002);
    let b = g
        .register(
            11,
            "dev-b".to_string(),
            "B".to_string(),
            "1.0".to_string(),
            false,
            None,
            addr(2),
        )
        .unwrap();
    assert_eq!(b, 0x0A1A_0003);
    // re-registration keeps the address
    let a2 = g
        .register(
            12,
            "dev-a".to_string(),
            "A".to_string(),
            "1.0".to_string(),
            false,
            None,
            addr(3),
        )
        .unwrap();
    assert_eq!(a2, 0x0A1A_0002);
    assert_ne!(a, b);
}

#[test]
fn honours_free_requested_address() {
    let mut g = NetworkInfo::new(GW, MASK);
    let got = g
        .register(
            10,
            "dev-a".to_string(),
            "A".to_string(),
            "1.0".to_string(),
            false,
            Some(0x0A1A_0050),
            addr(1),
        )
        .unwrap();
    assert_eq!(got, 0x0A1A_0050);
    // a taken or unusable request falls back to the lowest free host
    let other = g
        .register(
            11,
            "dev-b".to_string(),
            "B".to_string(),
            "1.0".to_string(),
            false,
            Some(0x0A1A_0050),
            addr(2),
        )
        .unwrap();
    assert_eq!(other, 0x0A1A_0002);
    // the gateway itself can never be requested
    let third = g
        .register(
            12,
            "dev-c".to_string(),
            "C".to_string(),
            "1.0".to_string(),
            false,
            Some(GW),
            addr(3),
        )
        .unwrap();
    assert_eq!(third, 0x0A1A_0003);
}

#[test]
fn exhausts_small_subnet() {
    // /30 around 10.26.0.1: hosts 10.26.0.1 (gateway) and 10.26.0.2
    let mut g = NetworkInfo::new(GW, 0xFFFF_FFFC);
    let first = g
        .register(
            10,
            "dev-a".to_string(),
            "A".to_string(),
            "1.0".to_string(),
            false,
            None,
            addr(1),
        )
        .unwrap();
    assert_eq!(first, 0x0A1A_0002);
    let err = g.register(
        11,
        "dev-b".to_string(),
        "B".to_string(),
        "1.0".to_string(),
        false,
        None,
        addr(2),
    );
    assert_eq!(err.err(), Some(RegisterError::IpExhausted));
}

#[test]
fn epoch_strictly_increases_per_change() {
    let mut g = NetworkInfo::new(GW, MASK);
    assert_eq!(g.epoch, 0);
    let vip = g
        .register(
            10,
            "dev-a".to_string(),
            "A".to_string(),
            "1.0".to_string(),
            false,
            None,
            addr(1),
        )
        .unwrap();
    assert_eq!(g.epoch, 1);
    assert!(g.set_offline_if_match(vip, addr(1), 10));
    assert_eq!(g.epoch, 2);
    // a stale discriminator changes nothing
    assert!(!g.set_offline_if_match(vip, addr(1), 99));
    assert_eq!(g.epoch, 2);
    assert!(g.remove_client_if_addr(vip, addr(1)));
    assert_eq!(g.epoch, 3);
}

#[test]
fn guarded_eviction_spares_new_binding() {
    let mut g = NetworkInfo::new(GW, MASK);
    let vip = g
        .register(
            10,
            "dev-a".to_string(),
            "A".to_string(),
            "1.0".to_string(),
            false,
            None,
            addr(1),
        )
        .unwrap();
    // the device re-registers from a new address
    let vip2 = g
        .register(
            20,
            "dev-a".to_string(),
            "A".to_string(),
            "1.0".to_string(),
            false,
            None,
            addr(2),
        )
        .unwrap();
    assert_eq!(vip, vip2);
    // the old address can no longer evict the entry
    assert!(!g.remove_client_if_addr(vip, addr(1)));
    assert!(!g.set_offline_if_match(vip, addr(1), 10));
    assert_eq!(g.address_of_ip(vip), Some(addr(2)));
}
