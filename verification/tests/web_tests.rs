use vnts::cache::AppCache;
use vnts::config::ConfigInfo;
use vnts::net::PeerAddr;
use vnts::web::{auth_api_set, LoginData, VntsWebService};

const GW: u32 = 0x0A1A_0001;
const MASK: u32 = 0xFFFF_FF00;

fn addr(n: u16) -> PeerAddr {
    PeerAddr {
        ip: 0xFFFF_0A00_0000_0000u128 + n as u128,
        port: 33000 + n,
    }
}

fn creds(u: &str, p: &str) -> LoginData {
    LoginData {
        username: u.to_string(),
        password: p.to_string(),
    }
}

#[test]
fn auth_api_set_guards_two_paths() {
    let api = auth_api_set();
    assert_eq!(api.api_set.len(), 2);
    assert!(api.requires_auth(&"/group_info".to_string()));
    assert!(api.requires_auth(&"/group_list".to_string()));
    assert!(!api.requires_auth(&"/login".to_string()));
}

#[test]
fn login_issues_day_tokens() {
    let mut s = VntsWebService::new(AppCache::new(), ConfigInfo::new());
    let token = s.login(1000, &creds("admin", "admin")).unwrap();
    assert_eq!(token.len(), 32);
    assert!(s.check_auth(&token));
    assert!(!s.check_auth(&"no-such-token".to_string()));
    assert!(s.login(1001, &creds("admin", "wrong")).is_none());
}

#[test]
fn login_throttles_after_three_failures() {
    let mut s = VntsWebService::new(AppCache::new(), ConfigInfo::new());
    for i in 0..3u64 {
        assert!(s.login(1000 + i, &creds("admin", "wrong")).is_none());
    }
    // even the right password is refused for a minute
    assert!(s.login(2000, &creds("admin", "admin")).is_none());
    // a minute after the last failure the throttle releases
    assert!(s.login(1002 + 60_000, &creds("admin", "admin")).is_some());
}

#[test]
fn group_info_reports_members_sorted() {
    let mut cache = AppCache::new();
    // register three devices; the middle one asks for the highest address
    let _ = cache
        .register_client(
            0,
            &"g".to_string(),
            "dev-a".to_string(),
            "A".to_string(),
            "1".to_string(),
            false,
            Some(0x0A1A_0060),
            addr(1),
            GW,
            MASK,
        )
        .unwrap();
    let _ = cache
        .register_client(
            1,
            &"g".to_string(),
            "dev-b".to_string(),
            "B".to_string(),
            "1".to_string(),
            false,
            None,
            addr(2),
            GW,
            MASK,
        )
        .unwrap();
    let _ = cache
        .register_client(
            2,
            &"g".to_string(),
            "dev-c".to_string(),
            "C".to_string(),
            "1".to_string(),
            false,
            None,
            addr(3),
            GW,
            MASK,
        )
        .unwrap();
    let s = VntsWebService::new(cache, ConfigInfo::new());
    let listing = s.group_list();
    assert_eq!(listing.group_list, vec!["g".to_string()]);
    let info = s.group_info(&"g".to_string()).unwrap();
    assert_eq!(info.gateway_ip, GW);
    assert_eq!(info.mask_ip, MASK);
    assert_eq!(info.epoch, 3);
    let vips: Vec<u32> = info.clients.iter().map(|c| c.virtual_ip).collect();
    assert_eq!(vips, vec![0x0A1A_0002, 0x0A1A_0003, 0x0A1A_0060]);
    assert!(info.clients.iter().all(|c| c.online));
    assert!(s.group_info(&"other".to_string()).is_none());
}
