use vnts::cache::AppCache;
use vnts::net::PeerAddr;

const GW: u32 = 0x0A1A_0001;
const MASK: u32 = 0xFFFF_FF00;

fn addr(n: u16) -> PeerAddr {
    PeerAddr {
        ip: 0xFFFF_0A00_0000_0000u128 + n as u128,
        port: 50000 + n,
    }
}

fn group_of<'a>(c: &'a AppCache, name: &str) -> &'a vnts::group::NetworkInfo {
    for e in c.virtual_network.entries.iter() {
        if e.key == name {
            return &e.val;
        }
    }
    panic!("group not found");
}

#[test]
fn registration_installs_both_bindings() {
    let mut c = AppCache::new();
    let grant = c
        .register_client(
            1000,
            &"g".to_string(),
            "dev-a".to_string(),
            "A".to_string(),
            "1.0".to_string(),
            false,
            None,
            addr(1),
            GW,
            MASK,
        )
        .unwrap();
    assert_eq!(grant.virtual_ip, 0x0A1A_0002);
    assert_eq!(grant.gateway, GW);
    assert_eq!(grant.netmask, MASK);
    assert_eq!(grant.epoch, 1);
    // the forward binding records group, address and timestamp
    let b = &c.addr_session.entries[0];
    assert_eq!(b.key, addr(1));
    assert_eq!(b.val.group, "g");
    assert_eq!(b.val.virtual_ip, 0x0A1A_0002);
    assert_eq!(b.val.timestamp, 1000);
    // the reverse binding points back at the address
    let ip = &c.ip_session.entries[0];
    assert_eq!(ip.key.group, "g");
    assert_eq!(ip.key.ip, 0x0A1A_0002);
    assert_eq!(ip.val, addr(1));
    // and the group holds the member at that address, online
    let g = group_of(&c, "g");
    assert_eq!(g.clients.len(), 1);
    assert_eq!(g.clients[0].address, addr(1));
    assert!(g.clients[0].online);
}

#[test]
fn context_lookup_requires_all_three() {
    let mut c = AppCache::new();
    let _ = c
        .register_client(
            0,
            &"g".to_string(),
            "dev-a".to_string(),
            "A".to_string(),
            "1.0".to_string(),
            false,
            None,
            addr(1),
            GW,
            MASK,
        )
        .unwrap();
    let ctx = c.get_context(5000, &addr(1)).unwrap();
    assert_eq!(ctx.group, "g");
    assert_eq!(ctx.virtual_ip, 0x0A1A_0002);
    assert!(c.get_context(5000, &addr(2)).is_none());
}

#[test]
fn eviction_cascade_offline_then_removal() {
    let mut c = AppCache::new();
    let grant = c
        .register_client(
            0,
            &"g".to_string(),
            "dev-a".to_string(),
            "A".to_string(),
            "1.0".to_string(),
            false,
            None,
            addr(1),
            GW,
            MASK,
        )
        .unwrap();
    let epoch0 = group_of(&c, "g").epoch;
    // the keep-alive lease is twenty seconds; with no packet in sight the
    // sweep marks the member offline and bumps the epoch by one
    c.sweep(20_001);
    {
        let g = group_of(&c, "g");
        assert!(!g.clients[0].online);
        assert_eq!(g.epoch, epoch0 + 1);
        assert_eq!(g.clients.len(), 1);
    }
    // a day later the address lease runs out too: the member is removed
    c.sweep(86_400_001);
    {
        let g = group_of(&c, "g");
        assert!(g.clients.is_empty());
        assert_eq!(g.epoch, epoch0 + 2);
    }
    assert!(!c
        .ip_session
        .entries
        .iter()
        .any(|e| e.key.ip == grant.virtual_ip));
}

#[test]
fn stale_binding_cannot_evict_live_entry() {
    let mut c = AppCache::new();
    let _ = c
        .register_client(
            0,
            &"g".to_string(),
            "dev-a".to_string(),
            "A".to_string(),
            "1.0".to_string(),
            false,
            None,
            addr(1),
            GW,
            MASK,
        )
        .unwrap();
    // the device re-registers from a new address a second later
    let _ = c
        .register_client(
            1000,
            &"g".to_string(),
            "dev-a".to_string(),
            "A".to_string(),
            "1.0".to_string(),
            false,
            None,
            addr(2),
            GW,
            MASK,
        )
        .unwrap();
    // the first address's lease expires; the member, now elsewhere, stays
    // online and the epoch is untouched by the stale eviction
    let epoch_before = group_of(&c, "g").epoch;
    c.sweep(20_001);
    let g = group_of(&c, "g");
    assert!(g.clients[0].online);
    assert_eq!(g.clients[0].address, addr(2));
    assert_eq!(g.epoch, epoch_before);
}

#[test]
fn drop_address_forgets_sessions() {
    let mut c = AppCache::new();
    let _ = c
        .register_client(
            0,
            &"g".to_string(),
            "dev-a".to_string(),
            "A".to_string(),
            "1.0".to_string(),
            false,
            None,
            addr(1),
            GW,
            MASK,
        )
        .unwrap();
    c.drop_address(&addr(1));
    assert!(c.get_context(1, &addr(1)).is_none());
    assert!(c.addr_session.entries.is_empty());
}

#[test]
fn distinct_devices_get_distinct_addresses() {
    let mut c = AppCache::new();
    let a = c
        .register_client(
            0,
            &"g".to_string(),
            "dev-a".to_string(),
            "A".to_string(),
            "1.0".to_string(),
            false,
            None,
            addr(1),
            GW,
            MASK,
        )
        .unwrap();
    let b = c
        .register_client(
            1,
            &"g".to_string(),
            "dev-b".to_string(),
            "B".to_string(),
            "1.0".to_string(),
            false,
            None,
            addr(2),
            GW,
            MASK,
        )
        .unwrap();
    assert_ne!(a.virtual_ip, b.virtual_ip);
    // same device id answers with the same address (idempotent join)
    let a2 = c
        .register_client(
            2,
            &"g".to_string(),
            "dev-a".to_string(),
            "A".to_string(),
            "1.0".to_string(),
            false,
            None,
            addr(1),
            GW,
            MASK,
        )
        .unwrap();
    assert_eq!(a.virtual_ip, a2.virtual_ip);
}
