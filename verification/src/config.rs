//! Startup configuration and its validation rules.
//!
//! The command line is read by the embedding program; it hands the chosen
//! options here as plain values.  Validation enforces the gateway and netmask
//! rules and derives the broadcast address; an invalid configuration is
//! reported, never accepted.

use vstd::prelude::*;
use crate::net;

verus! {

pub const DEFAULT_PORT: u16 = 29872;

pub const DEFAULT_BACKLOG: u16 = 256;

/// 10.26.0.1
pub const DEFAULT_GATEWAY: u32 = 0x0A1A0001;

/// 255.255.255.0
pub const DEFAULT_NETMASK: u32 = 0xFFFFFF00;

pub const DEFAULT_WEB_PORT: u16 = 29870;

/// Admin backend credentials and port.
#[derive(Clone, Debug)]
pub struct WebManager {
    pub username: String,
    pub password: String,
    pub web_port: u16,
}

/// The options as given on the command line; `None` means the option was
/// absent and its default applies.
#[derive(Clone, Debug)]
pub struct Options {
    pub white_token: Option<Vec<String>>,
    pub port: Option<u16>,
    pub backlog: Option<u16>,
    pub gateway: Option<u32>,
    pub netmask: Option<u32>,
    pub finger: bool,
    pub log_path: Option<String>,
    pub web_manager: Option<WebManager>,
}

/// Why a configuration was refused at startup.
#[derive(Clone, Copy, PartialEq, Eq, Structural, Debug)]
pub enum ConfigError {
    /// The gateway is the limited-broadcast, unspecified or a multicast
    /// address.
    GatewayInvalid,
    /// The netmask is not a contiguous prefix mask.
    NetmaskInvalid,
}

/// The gateway may be any address except the limited broadcast address,
/// the unspecified address, and multicast addresses (224.0.0.0/4).
pub open spec fn spec_gateway_acceptable(gateway: u32) -> bool {
    &&& gateway != 0xFFFF_FFFF
    &&& gateway != 0
    &&& gateway >> 28 != 0xE
}

pub fn gateway_acceptable(gateway: u32) -> (r: bool)
    ensures
        r == spec_gateway_acceptable(gateway),
{
    gateway != 0xFFFF_FFFF && gateway != 0 && (gateway >> 28) != 0xE
}

/// The validated server configuration.
#[derive(Clone, Debug)]
pub struct ConfigInfo {
    pub port: u16,
    pub backlog: u16,
    /// When present, only registrations bearing one of these tokens are
    /// accepted.
    pub white_token: Option<Vec<String>>,
    pub gateway: u32,
    pub broadcast: u32,
    pub netmask: u32,
    pub finger: bool,
    pub log_path: Option<String>,
    pub web_manager: Option<WebManager>,
}

pub open spec fn spec_chosen_gateway(args: Options) -> u32 {
    match args.gateway {
        Some(g) => g,
        None => DEFAULT_GATEWAY,
    }
}

pub open spec fn spec_chosen_netmask(args: Options) -> u32 {
    match args.netmask {
        Some(m) => m,
        None => DEFAULT_NETMASK,
    }
}

impl ConfigInfo {
    /// Whether `token` is acceptable: always when no whitelist is configured,
    /// else exactly when the whitelist holds it.
    pub open spec fn spec_token_allowed(self, token: Seq<char>) -> bool {
        match self.white_token {
            Some(list) => exists|i: int| 0 <= i < list.len() && list[i]@ == token,
            None => true,
        }
    }

    pub fn is_token_allowed(&self, token: &String) -> (r: bool)
        ensures
            r == self.spec_token_allowed(token@),
    {
        match &self.white_token {
            None => true,
            Some(list) => {
                let mut i: usize = 0;
                while i < list.len()
                    invariant
                        i <= list.len(),
                        forall|j: int| 0 <= j < i ==> list[j]@ != token@,
                        self.white_token matches Some(l) && l == list,
                    decreases list.len() - i,
                {
                    if list[i].eq(token) {
                        return true;
                    }
                    i += 1;
                }
                false
            },
        }
    }

    /// The built-in defaults: port 29872, backlog 256, gateway 10.26.0.1/24,
    /// no whitelist, fingerprint checking off.
    pub fn new() -> (c: ConfigInfo)
        ensures
            c.port == DEFAULT_PORT,
            c.backlog == DEFAULT_BACKLOG,
            c.white_token is None,
            c.gateway == DEFAULT_GATEWAY,
            c.netmask == DEFAULT_NETMASK,
            c.broadcast == DEFAULT_GATEWAY | !DEFAULT_NETMASK,
            c.finger == false,
            c.log_path matches Some(p) && p@ == "./log"@,
            c.web_manager matches Some(w) && w.username@ == "admin"@ && w.password@ == "admin"@
                && w.web_port == DEFAULT_WEB_PORT,
    {
        ConfigInfo {
            port: DEFAULT_PORT,
            backlog: DEFAULT_BACKLOG,
            white_token: None,
            gateway: DEFAULT_GATEWAY,
            broadcast: net::calculate_broadcast(DEFAULT_GATEWAY, DEFAULT_NETMASK),
            netmask: DEFAULT_NETMASK,
            finger: false,
            log_path: Some("./log".to_string()),
            web_manager: Some(
                WebManager {
                    username: "admin".to_string(),
                    password: "admin".to_string(),
                    web_port: DEFAULT_WEB_PORT,
                },
            ),
        }
    }

    /// Validate the command-line options and fill in defaults.
    ///
    /// The gateway must not be the broadcast, unspecified or a multicast
    /// address; the netmask must be a contiguous prefix mask.  The broadcast
    /// address is derived from the two.  A backend description with port 0
    /// disables the backend.
    pub fn new_with_options(args: Options) -> (r: Result<ConfigInfo, ConfigError>)
        ensures
            ({
                let g = spec_chosen_gateway(args);
                let m = spec_chosen_netmask(args);
                &&& (r is Ok <==> spec_gateway_acceptable(g) && net::spec_is_valid_netmask(m))
                &&& (r matches Err(e) ==> if !spec_gateway_acceptable(g) {
                    e == ConfigError::GatewayInvalid
                } else {
                    e == ConfigError::NetmaskInvalid
                })
                &&& (r matches Ok(c) ==> {
                    &&& c.gateway == g
                    &&& c.netmask == m
                    &&& c.broadcast == g | !m
                    &&& c.port == (match args.port {
                        Some(p) => p,
                        None => DEFAULT_PORT,
                    })
                    &&& c.backlog == (match args.backlog {
                        Some(b) => b,
                        None => DEFAULT_BACKLOG,
                    })
                    &&& c.finger == args.finger
                    &&& c.white_token == args.white_token
                    &&& (match args.log_path {
                        Some(p) => c.log_path == Some(p),
                        None => c.log_path matches Some(d) && d@ == "./log"@,
                    })
                    &&& (args.web_manager matches Some(w) && w.web_port == 0 ==> c.web_manager
                        is None)
                    &&& ((match args.web_manager {
                        Some(w) => w.web_port != 0,
                        None => true,
                    }) ==> (c.web_manager matches Some(w) && w.username@ == "admin"@
                        && w.password@ == "admin"@ && w.web_port == DEFAULT_WEB_PORT))
                })
            }),
    {
        let gateway: u32 = match args.gateway {
            Some(g) => g,
            None => DEFAULT_GATEWAY,
        };
        if !gateway_acceptable(gateway) {
            return Err(ConfigError::GatewayInvalid);
        }
        let netmask: u32 = match args.netmask {
            Some(m) => m,
            None => DEFAULT_NETMASK,
        };
        if !net::is_valid_netmask(netmask) {
            return Err(ConfigError::NetmaskInvalid);
        }
        let defaults = ConfigInfo::new();
        let web_disabled = match &args.web_manager {
            Some(w) => w.web_port == 0,
            None => false,
        };
        Ok(
            ConfigInfo {
                port: match args.port {
                    Some(p) => p,
                    None => DEFAULT_PORT,
                },
                backlog: match args.backlog {
                    Some(b) => b,
                    None => DEFAULT_BACKLOG,
                },
                white_token: args.white_token,
                gateway,
                broadcast: net::calculate_broadcast(gateway, netmask),
                netmask,
                finger: args.finger,
                log_path: match args.log_path {
                    Some(p) => Some(p),
                    None => defaults.log_path,
                },
                web_manager: if web_disabled {
                    None
                } else {
                    defaults.web_manager
                },
            },
        )
    }
}

impl Default for ConfigInfo {
    fn default() -> (c: ConfigInfo)
        ensures
            c.port == DEFAULT_PORT,
            c.backlog == DEFAULT_BACKLOG,
            c.white_token is None,
            c.gateway == DEFAULT_GATEWAY,
            c.netmask == DEFAULT_NETMASK,
            c.broadcast == DEFAULT_GATEWAY | !DEFAULT_NETMASK,
            c.finger == false,
            c.log_path matches Some(p) && p@ == "./log"@,
            c.web_manager matches Some(w) && w.username@ == "admin"@ && w.password@ == "admin"@
                && w.web_port == DEFAULT_WEB_PORT,
    {
        ConfigInfo::new()
    }
}

} // verus!
