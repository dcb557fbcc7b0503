use vnts::config::{ConfigError, ConfigInfo, Options, WebManager};
use vnts::net::{calculate_broadcast, is_valid_netmask};

fn base_options() -> Options {
    Options {
        white_token: None,
        port: None,
        backlog: None,
        gateway: None,
        netmask: None,
        finger: false,
        log_path: None,
        web_manager: None,
    }
}

#[test]
fn netmask_validation() {
    // 255.255.255.0
    assert!(is_valid_netmask(0xFFFF_FF00));
    // 255.255.255.1
    assert!(!is_valid_netmask(0xFFFF_FF01));
    // 0.0.0.0: zero leading ones, 32 trailing zeros
    assert!(is_valid_netmask(0x0000_0000));
    // 255.255.255.255
    assert!(is_valid_netmask(0xFFFF_FFFF));
    // 255.0.255.0
    assert!(!is_valid_netmask(0xFF00_FF00));
}

#[test]
fn broadcast_derivation() {
    // 10.26.0.1/24 -> 10.26.0.255
    assert_eq!(calculate_broadcast(0x0A1A_0001, 0xFFFF_FF00), 0x0A1A_00FF);
    // gateway | !netmask on an uneven mask
    assert_eq!(calculate_broadcast(0xC0A8_0101, 0xFFFF_0000), 0xC0A8_FFFF);
}

#[test]
fn gateway_broadcast_rejected() {
    let mut opts = base_options();
    opts.gateway = Some(0xFFFF_FFFF);
    assert_eq!(
        ConfigInfo::new_with_options(opts).err(),
        Some(ConfigError::GatewayInvalid)
    );
}

#[test]
fn gateway_multicast_and_unspecified_rejected() {
    let mut opts = base_options();
    // 224.0.0.1 is multicast
    opts.gateway = Some(0xE000_0001);
    assert_eq!(
        ConfigInfo::new_with_options(opts).err(),
        Some(ConfigError::GatewayInvalid)
    );
    let mut opts2 = base_options();
    opts2.gateway = Some(0);
    assert_eq!(
        ConfigInfo::new_with_options(opts2).err(),
        Some(ConfigError::GatewayInvalid)
    );
}

#[test]
fn bad_netmask_rejected() {
    let mut opts = base_options();
    opts.netmask = Some(0xFFFF_FF01);
    assert_eq!(
        ConfigInfo::new_with_options(opts).err(),
        Some(ConfigError::NetmaskInvalid)
    );
}

#[test]
fn defaults_fill_in() {
    let cfg = ConfigInfo::new_with_options(base_options()).unwrap();
    assert_eq!(cfg.port, 29872);
    assert_eq!(cfg.backlog, 256);
    assert_eq!(cfg.gateway, 0x0A1A_0001);
    assert_eq!(cfg.netmask, 0xFFFF_FF00);
    assert_eq!(cfg.broadcast, 0x0A1A_00FF);
    assert!(!cfg.finger);
    assert!(cfg.white_token.is_none());
}

#[test]
fn web_backend_port_zero_disables() {
    let mut opts = base_options();
    opts.web_manager = Some(WebManager {
        username: "a".to_string(),
        password: "b".to_string(),
        web_port: 0,
    });
    let cfg = ConfigInfo::new_with_options(opts).unwrap();
    assert!(cfg.web_manager.is_none());
}

#[test]
fn token_whitelist_membership() {
    let mut opts = base_options();
    opts.white_token = Some(vec!["alpha".to_string(), "beta".to_string()]);
    let cfg = ConfigInfo::new_with_options(opts).unwrap();
    assert!(cfg.is_token_allowed(&"alpha".to_string()));
    assert!(cfg.is_token_allowed(&"beta".to_string()));
    assert!(!cfg.is_token_allowed(&"gamma".to_string()));
    let open = ConfigInfo::new();
    assert!(open.is_token_allowed(&"anything".to_string()));
}

#[test]
fn v4_mapped_addresses() {
    // ::ffff:10.26.0.2
    let mapped: u128 = 0xFFFF_0000_0000u128 | 0x0A1A_0002u128;
    assert!(vnts::net::is_v4_mapped(mapped));
    assert_eq!(vnts::net::v4_part(mapped), 0x0A1A_0002);
    // a native v6 address is not mapped
    assert!(!vnts::net::is_v4_mapped(0x2001_0DB8u128 << 96));
}
