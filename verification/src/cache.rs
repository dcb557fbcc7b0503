//! The session cache: the group table and the per-address and per-IP
//! bindings, each an expiring store, coordinated under one handle.
//!
//! Eviction cascades are guarded: a lease expiry removes a group member only
//! while the member still sits at the recorded address, and a keep-alive
//! expiry marks a member offline only while address and binding timestamp
//! both still match — a stale binding can never touch a newer one.

use vstd::prelude::*;
use crate::expire::{ExpireMap, StoreKey};
use crate::net;
use crate::net::PeerAddr;
use crate::group::NetworkInfo;
use crate::crypto::CipherSession;

verus! {

impl StoreKey for PeerAddr {
    fn key_eq(&self, other: &Self) -> (r: bool) {
        self.ip == other.ip && self.port == other.port
    }

    fn dup(&self) -> (r: Self) {
        *self
    }
}

/// The key of the reverse binding: a group and a virtual IP inside it.
pub struct GroupIpKey {
    pub group: String,
    pub ip: u32,
}

impl View for GroupIpKey {
    type V = (Seq<char>, u32);

    open spec fn view(&self) -> (Seq<char>, u32) {
        (self.group@, self.ip)
    }
}

impl StoreKey for GroupIpKey {
    fn key_eq(&self, other: &Self) -> (r: bool) {
        self.group.eq(&other.group) && self.ip == other.ip
    }

    fn dup(&self) -> (r: Self) {
        GroupIpKey { group: self.group.clone(), ip: self.ip }
    }
}

/// What an address resolves to: the group, the virtual IP, and the binding
/// timestamp that discriminates this binding from any later one.
pub struct AddrBinding {
    pub group: String,
    pub virtual_ip: u32,
    pub timestamp: u64,
}

/// A group idle this long is dropped.
pub const GROUP_TTL_MS: u64 = 7 * 24 * 3600 * 1000;

/// A virtual-IP lease lives a day past its last use.
pub const IP_SESSION_TTL_MS: u64 = 24 * 3600 * 1000;

/// An address with no inbound packet this long counts as offline.
pub const ADDR_SESSION_TTL_MS: u64 = 20 * 1000;

/// A cipher session lives two minutes past its last successful use.
pub const CIPHER_SESSION_TTL_MS: u64 = 120 * 1000;

/// Admin tokens last a day, with no renewal.
pub const AUTH_TTL_MS: u64 = 24 * 3600 * 1000;

/// The four coordinated stores, plus the admin-token store.
pub struct AppCache {
    pub virtual_network: ExpireMap<String, NetworkInfo>,
    pub ip_session: ExpireMap<GroupIpKey, PeerAddr>,
    pub addr_session: ExpireMap<PeerAddr, AddrBinding>,
    pub cipher_session: ExpireMap<PeerAddr, CipherSession>,
    pub auth_map: ExpireMap<String, bool>,
}

/// The context an inbound packet runs under.
pub struct Context {
    pub group: String,
    pub virtual_ip: u32,
}

impl AppCache {
    pub open spec fn wf(self) -> bool {
        &&& self.virtual_network.wf()
        &&& self.ip_session.wf()
        &&& self.addr_session.wf()
        &&& self.cipher_session.wf()
        &&& self.auth_map.wf()
        &&& forall|g: Seq<char>| #[trigger]
            self.virtual_network.contains_key(g) ==> self.virtual_network.val_of(g).wf()
        &&& forall|a: PeerAddr| #[trigger]
            self.cipher_session.contains_key(a) ==> self.cipher_session.val_of(a).wf()
    }

    pub fn new() -> (c: AppCache)
        ensures
            c.wf(),
            forall|g: Seq<char>| !c.virtual_network.contains_key(g),
            forall|k: (Seq<char>, u32)| !c.ip_session.contains_key(k),
            forall|a: PeerAddr| !c.addr_session.contains_key(a),
            forall|a: PeerAddr| !c.cipher_session.contains_key(a),
            forall|t: Seq<char>| !c.auth_map.contains_key(t),
    {
        AppCache {
            virtual_network: ExpireMap::new(),
            ip_session: ExpireMap::new(),
            addr_session: ExpireMap::new(),
            cipher_session: ExpireMap::new(),
            auth_map: ExpireMap::new(),
        }
    }

    /// Installs the cipher session for `addr` (two-minute lease).
    pub fn insert_cipher_session(&mut self, now: u64, addr: PeerAddr, value: CipherSession)
        requires
            old(self).wf(),
            value.wf(),
        ensures
            final(self).wf(),
            final(self).cipher_session.contains_key(addr),
            final(self).cipher_session.val_of(addr) == value,
            final(self).cipher_session.deadline_of(addr) == now.saturating_add(
                CIPHER_SESSION_TTL_MS,
            ),
            forall|a2: PeerAddr|
                a2 != addr ==> final(self).cipher_session.same_entry(
                    old(self).cipher_session,
                    a2,
                ),
            final(self).virtual_network == old(self).virtual_network,
            final(self).ip_session == old(self).ip_session,
            final(self).addr_session == old(self).addr_session,
            final(self).auth_map == old(self).auth_map,
    {
        self.cipher_session.insert(now, addr, value, CIPHER_SESSION_TTL_MS);
        proof {
            assert forall|a: PeerAddr| #[trigger]
                self.cipher_session.contains_key(a) implies self.cipher_session.val_of(
                a,
            ).wf() by {
                if a != addr {
                    assert(self.cipher_session.same_entry(old(self).cipher_session, a));
                }
            }
        }
    }

    /// Installs the reverse binding `(group, ip) -> addr` (one-day lease).
    pub fn insert_ip_session(&mut self, now: u64, group: String, ip: u32, addr: PeerAddr)
        requires
            old(self).wf(),
        ensures
            final(self).wf(),
            final(self).ip_session.contains_key((group@, ip)),
            final(self).ip_session.val_of((group@, ip)) == addr,
            final(self).ip_session.deadline_of((group@, ip)) == now.saturating_add(
                IP_SESSION_TTL_MS,
            ),
            forall|k2: (Seq<char>, u32)|
                k2 != (group@, ip) ==> final(self).ip_session.same_entry(old(self).ip_session, k2),
            final(self).virtual_network == old(self).virtual_network,
            final(self).addr_session == old(self).addr_session,
            final(self).cipher_session == old(self).cipher_session,
            final(self).auth_map == old(self).auth_map,
    {
        self.ip_session.insert(now, GroupIpKey { group, ip }, addr, IP_SESSION_TTL_MS);
    }

    /// Installs the forward binding `addr -> (group, ip, timestamp)`
    /// (twenty-second lease).
    pub fn insert_addr_session(&mut self, now: u64, addr: PeerAddr, value: AddrBinding)
        requires
            old(self).wf(),
        ensures
            final(self).wf(),
            final(self).addr_session.contains_key(addr),
            final(self).addr_session.val_of(addr) == value,
            final(self).addr_session.deadline_of(addr) == now.saturating_add(ADDR_SESSION_TTL_MS),
            forall|a2: PeerAddr|
                a2 != addr ==> final(self).addr_session.same_entry(old(self).addr_session, a2),
            final(self).virtual_network == old(self).virtual_network,
            final(self).ip_session == old(self).ip_session,
            final(self).cipher_session == old(self).cipher_session,
            final(self).auth_map == old(self).auth_map,
    {
        self.addr_session.insert(now, addr, value, ADDR_SESSION_TTL_MS);
    }

    /// Resolves the context of a packet from `addr`, renewing the forward
    /// binding, the reverse binding and the group lease.  Nothing is found
    /// unless the forward binding, the matching reverse binding and the
    /// group all are live; values everywhere are untouched.
    pub fn get_context(&mut self, now: u64, addr: &PeerAddr) -> (r: Option<Context>)
        requires
            old(self).wf(),
        ensures
            final(self).wf(),
            final(self).addr_session.vals_match(old(self).addr_session),
            final(self).ip_session.vals_match(old(self).ip_session),
            final(self).virtual_network.vals_match(old(self).virtual_network),
            final(self).cipher_session == old(self).cipher_session,
            final(self).auth_map == old(self).auth_map,
            r is Some <==> (old(self).addr_session.contains_key(*addr) && {
                let b = old(self).addr_session.val_of(*addr);
                old(self).ip_session.contains_key((b.group@, b.virtual_ip)) && old(self).virtual_network.contains_key(b.group@)
            }),
            r matches Some(c) ==> {
                let b = old(self).addr_session.val_of(*addr);
                c.group@ == b.group@ && c.virtual_ip == b.virtual_ip
            },
            !old(self).addr_session.contains_key(*addr) ==> *final(self) == *old(self),
            old(self).addr_session.contains_key(*addr) ==> {
                let b = old(self).addr_session.val_of(*addr);
                &&& final(self).addr_session.deadline_of(*addr) == now.saturating_add(
                    old(self).addr_session.ttl_of(*addr),
                )
                &&& forall|a2: PeerAddr|
                    a2 != *addr ==> final(self).addr_session.same_entry(
                        old(self).addr_session,
                        a2,
                    )
                &&& (old(self).ip_session.contains_key((b.group@, b.virtual_ip)) ==> final(self).ip_session.deadline_of((b.group@, b.virtual_ip)) == now.saturating_add(
                    old(self).ip_session.ttl_of((b.group@, b.virtual_ip)),
                ) && forall|k2: (Seq<char>, u32)|
                    k2 != (b.group@, b.virtual_ip) ==> final(self).ip_session.same_entry(
                        old(self).ip_session,
                        k2,
                    ))
                &&& (!old(self).ip_session.contains_key((b.group@, b.virtual_ip)) ==> final(self).ip_session == old(self).ip_session && final(self).virtual_network == old(
                    self,
                ).virtual_network)
                &&& (old(self).ip_session.contains_key((b.group@, b.virtual_ip)) && old(
                    self,
                ).virtual_network.contains_key(b.group@) ==> final(self).virtual_network.deadline_of(b.group@) == now.saturating_add(
                    old(self).virtual_network.ttl_of(b.group@),
                ) && forall|g2: Seq<char>|
                    g2 != b.group@ ==> final(self).virtual_network.same_entry(
                        old(self).virtual_network,
                        g2,
                    ))
                &&& (!old(self).virtual_network.contains_key(b.group@) ==> final(self).virtual_network == old(self).virtual_network)
            },
    {
        let found = self.addr_session.get_and_renew(now, addr);
        match found {
            Some(i) => {
                let group = self.addr_session.val_at(i).group.clone();
                let virtual_ip = self.addr_session.val_at(i).virtual_ip;
                let k = GroupIpKey { group: group.clone(), ip: virtual_ip };
                let found_ip = self.ip_session.get_and_renew(now, &k);
                match found_ip {
                    Some(_) => {
                        let ghost vn_pre = self.virtual_network;
                        let found_g = self.virtual_network.get_and_renew(now, &group);
                        proof {
                            lemma_group_wf_preserved(vn_pre, self.virtual_network);
                        }
                        match found_g {
                            Some(_) => Some(Context { group, virtual_ip }),
                            None => None,
                        }
                    },
                    None => None,
                }
            },
            None => None,
        }
    }

    /// Explicit teardown for `addr` (stream disconnect): both per-address
    /// stores forget it; groups and bindings by IP are left to their leases.
    pub fn drop_address(&mut self, addr: &PeerAddr)
        requires
            old(self).wf(),
        ensures
            final(self).wf(),
            !final(self).addr_session.contains_key(*addr),
            !final(self).cipher_session.contains_key(*addr),
            forall|a2: PeerAddr|
                a2 != *addr ==> final(self).addr_session.same_entry(old(self).addr_session, a2)
                    && final(self).cipher_session.same_entry(old(self).cipher_session, a2),
            final(self).virtual_network == old(self).virtual_network,
            final(self).ip_session == old(self).ip_session,
            final(self).auth_map == old(self).auth_map,
    {
        let _ = self.addr_session.remove(addr);
        let _ = self.cipher_session.remove(addr);
        proof {
            assert forall|a: PeerAddr| #[trigger]
                self.cipher_session.contains_key(a) implies self.cipher_session.val_of(
                a,
            ).wf() by {
                if a != *addr {
                    assert(self.cipher_session.same_entry(old(self).cipher_session, a));
                }
            }
        }
    }

    /// Looks up the cipher session for `addr`, renewing its lease (a
    /// successful decrypt keeps the session alive); the index into the
    /// store's entries is handed back so the caller can read the session.
    pub fn renew_cipher(&mut self, now: u64, addr: &PeerAddr) -> (r: Option<usize>)
        requires
            old(self).wf(),
        ensures
            final(self).wf(),
            final(self).cipher_session.vals_match(old(self).cipher_session),
            final(self).virtual_network == old(self).virtual_network,
            final(self).ip_session == old(self).ip_session,
            final(self).addr_session == old(self).addr_session,
            final(self).auth_map == old(self).auth_map,
            r is Some <==> old(self).cipher_session.contains_key(*addr),
            r matches Some(i) ==> i < final(self).cipher_session.entries@.len() && final(self).cipher_session.entries@[i as int].val == old(self).cipher_session.val_of(*addr) && old(self).cipher_session.val_of(*addr).wf(),
            forall|a2: PeerAddr|
                a2 != *addr ==> final(self).cipher_session.same_entry(
                    old(self).cipher_session,
                    a2,
                ),
    {
        let ghost pre = self.cipher_session;
        let r = self.cipher_session.get_and_renew(now, addr);
        proof {
            lemma_cipher_wf_preserved(pre, self.cipher_session);
        }
        r
    }
}

/// Renewals keep every group value, so the groups stay well-formed.
proof fn lemma_group_wf_preserved(
    pre: ExpireMap<String, NetworkInfo>,
    post: ExpireMap<String, NetworkInfo>,
)
    requires
        post.vals_match(pre),
        forall|g: Seq<char>| #[trigger] pre.contains_key(g) ==> pre.val_of(g).wf(),
    ensures
        forall|g: Seq<char>| #[trigger] post.contains_key(g) ==> post.val_of(g).wf(),
{
    assert forall|g: Seq<char>| #[trigger] post.contains_key(g) implies post.val_of(g).wf() by {
        assert(pre.contains_key(g) == post.contains_key(g));
    }
}

/// Renewals keep every cipher session, so the sessions stay well-formed.
proof fn lemma_cipher_wf_preserved(
    pre: ExpireMap<PeerAddr, CipherSession>,
    post: ExpireMap<PeerAddr, CipherSession>,
)
    requires
        post.vals_match(pre),
        forall|a: PeerAddr| #[trigger] pre.contains_key(a) ==> pre.val_of(a).wf(),
    ensures
        forall|a: PeerAddr| #[trigger] post.contains_key(a) ==> post.val_of(a).wf(),
{
    assert forall|a: PeerAddr| #[trigger] post.contains_key(a) implies post.val_of(a).wf() by {
        assert(pre.contains_key(a) == post.contains_key(a));
    }
}


impl AppCache {
    /// The binding invariant: every online member of every live group has a
    /// live reverse binding, and that binding points at the member's
    /// recorded address.  (An offline member may have lost its binding.)
    pub open spec fn spec_binding_consistent(self) -> bool {
        forall|g: Seq<char>, v: u32|
            (#[trigger] self.virtual_network.contains_key(g)
                && #[trigger] self.virtual_network.val_of(g).has_ip(v)
                && self.virtual_network.val_of(g).client_of(v).online)
                ==> self.ip_session.contains_key((g, v)) && self.ip_session.val_of((g, v))
                == self.virtual_network.val_of(g).client_of(v).address
    }
}

/// What a successful registration answers: the assigned virtual IP, the
/// group's subnet, and the epoch after the change.
pub struct RegistrationGrant {
    pub virtual_ip: u32,
    pub gateway: u32,
    pub netmask: u32,
    pub epoch: u64,
}

/// The group state a registration starts from: the stored group when one is
/// live, else a fresh empty group over the configured subnet.
pub open spec fn spec_group_seed(
    pre: AppCache,
    gid: Seq<char>,
    gateway: u32,
    netmask: u32,
    g0: NetworkInfo,
) -> bool {
    if pre.virtual_network.contains_key(gid) {
        g0 == pre.virtual_network.val_of(gid)
    } else {
        g0.clients@.len() == 0 && g0.epoch == 0 && g0.gateway_ip == gateway && g0.mask_ip
            == netmask && g0.network_ip == (gateway & netmask) && g0.wf()
    }
}

impl AppCache {
    /// Registers `device_id` in `group_id` (creating the group over
    /// `gateway`/`netmask` when absent), and on success installs both
    /// bindings: `(group, ip) -> addr` and `addr -> (group, ip, now)`.
    ///
    /// The device keeps its virtual IP when re-registering; a free, usable
    /// requested address is honoured; otherwise the lowest free host address
    /// is assigned; with none left the registration fails and the group is
    /// left as found.
    pub fn register_client(
        &mut self,
        now: u64,
        group_id: &String,
        device_id: String,
        name: String,
        version: String,
        client_secret: bool,
        requested_ip: Option<u32>,
        addr: PeerAddr,
        gateway: u32,
        netmask: u32,
    ) -> (r: Result<RegistrationGrant, crate::group::RegisterError>)
        requires
            old(self).wf(),
        ensures
            final(self).wf(),
            final(self).virtual_network.contains_key(group_id@),
            final(self).virtual_network.deadline_of(group_id@) == now.saturating_add(
                final(self).virtual_network.ttl_of(group_id@),
            ),
            !old(self).virtual_network.contains_key(group_id@) ==> final(self).virtual_network.ttl_of(group_id@) == GROUP_TTL_MS,
            final(self).cipher_session == old(self).cipher_session,
            final(self).auth_map == old(self).auth_map,
            old(self).spec_binding_consistent() ==> final(self).spec_binding_consistent(),
            forall|g2: Seq<char>|
                g2 != group_id@ ==> final(self).virtual_network.same_entry(
                    old(self).virtual_network,
                    g2,
                ),
            r matches Ok(grant) ==> ({
                let g1 = final(self).virtual_network.val_of(group_id@);
                &&& g1.has_ip(grant.virtual_ip)
                &&& g1.usable(grant.virtual_ip)
                &&& g1.client_of(grant.virtual_ip).device_id@ == device_id@
                &&& g1.client_of(grant.virtual_ip).address == addr
                &&& g1.client_of(grant.virtual_ip).online
                &&& g1.client_of(grant.virtual_ip).timestamp == now
                &&& g1.has_device(device_id@)
                &&& g1.device_of(device_id@) == g1.client_of(grant.virtual_ip)
                &&& grant.gateway == g1.gateway_ip
                &&& grant.netmask == g1.mask_ip
                &&& grant.epoch == g1.epoch
                &&& final(self).ip_session.contains_key((group_id@, grant.virtual_ip))
                &&& final(self).ip_session.val_of((group_id@, grant.virtual_ip)) == addr
                &&& final(self).addr_session.contains_key(addr)
                &&& final(self).addr_session.val_of(addr).group@ == group_id@
                &&& final(self).addr_session.val_of(addr).virtual_ip == grant.virtual_ip
                &&& final(self).addr_session.val_of(addr).timestamp == now
                &&& forall|k2: (Seq<char>, u32)|
                    k2 != (group_id@, grant.virtual_ip) ==> final(self).ip_session.same_entry(
                        old(self).ip_session,
                        k2,
                    )
                &&& forall|a2: PeerAddr|
                    a2 != addr ==> final(self).addr_session.same_entry(
                        old(self).addr_session,
                        a2,
                    )
            }),
            r matches Ok(grant) ==> (old(self).virtual_network.contains_key(group_id@) ==> {
                let g0 = old(self).virtual_network.val_of(group_id@);
                let g1 = final(self).virtual_network.val_of(group_id@);
                &&& (g0.has_device(device_id@) ==> grant.virtual_ip == g0.device_of(
                    device_id@,
                ).virtual_ip)
                &&& (!g0.has_device(device_id@) ==> !g0.has_ip(grant.virtual_ip))
                &&& (!g0.has_device(device_id@) && (match requested_ip {
                    Some(rip) => g0.usable(rip) && !g0.has_ip(rip),
                    None => false,
                }) ==> grant.virtual_ip == requested_ip->0)
                &&& (!g0.has_device(device_id@) && (match requested_ip {
                    Some(rip) => !g0.usable(rip) || g0.has_ip(rip),
                    None => true,
                }) ==> forall|h2: u32|
                    g0.usable(h2) && h2 < grant.virtual_ip ==> g0.has_ip(h2))
                &&& forall|ip2: u32| ip2 != grant.virtual_ip ==> g1.same_client(g0, ip2)
                &&& g1.epoch == g0.epoch.saturating_add(1)
                &&& g1.same_subnet(g0)
            }),
            r matches Ok(grant) ==> (!old(self).virtual_network.contains_key(group_id@) ==> {
                let g1 = final(self).virtual_network.val_of(group_id@);
                &&& g1.gateway_ip == gateway
                &&& g1.mask_ip == netmask
                &&& g1.epoch == 1
                &&& (match requested_ip {
                    Some(rip) => net::spec_is_usable_host(rip, gateway, netmask)
                        ==> grant.virtual_ip == rip,
                    None => true,
                })
                &&& ((match requested_ip {
                    Some(rip) => !net::spec_is_usable_host(rip, gateway, netmask),
                    None => true,
                }) ==> forall|h2: u32|
                    net::spec_is_usable_host(h2, gateway, netmask) ==> h2 >= grant.virtual_ip)
                &&& forall|ip2: u32| ip2 != grant.virtual_ip ==> !g1.has_ip(ip2)
            }),
            r is Err <==> (if old(self).virtual_network.contains_key(group_id@) {
                let g0 = old(self).virtual_network.val_of(group_id@);
                !g0.has_device(device_id@) && (match requested_ip {
                    Some(rip) => !g0.usable(rip) || g0.has_ip(rip),
                    None => true,
                }) && (forall|h2: u32| g0.usable(h2) ==> g0.has_ip(h2))
            } else {
                forall|h2: u32| !net::spec_is_usable_host(h2, gateway, netmask)
            }),
            r matches Err(e) ==> ({
                &&& e == crate::group::RegisterError::IpExhausted
                &&& final(self).ip_session == old(self).ip_session
                &&& final(self).addr_session == old(self).addr_session
                &&& (old(self).virtual_network.contains_key(group_id@) ==> {
                    let g0 = old(self).virtual_network.val_of(group_id@);
                    final(self).virtual_network.val_of(group_id@) == g0 && !g0.has_device(
                        device_id@,
                    ) && (forall|h2: u32| g0.usable(h2) ==> g0.has_ip(h2))
                })
                &&& (!old(self).virtual_network.contains_key(group_id@) ==> (forall|h2: u32|
                    !net::spec_is_usable_host(h2, gateway, netmask)))
            }),
    {
        let seed = NetworkInfo::new(gateway, netmask);
        let gi = self.virtual_network.optionally_get_with(
            now,
            group_id.clone(),
            GROUP_TTL_MS,
            seed,
        );
        let ghost vn_mid = self.virtual_network;
        let ghost g0 = self.virtual_network.val_of(group_id@);
        proof {
            if old(self).virtual_network.contains_key(group_id@) {
                assert(g0 == old(self).virtual_network.val_of(group_id@));
                assert(g0.wf());
            } else {
                assert(g0.wf());
            }
        }
        let res = self.virtual_network.entries[gi].val.register(
            now,
            device_id,
            name,
            version,
            client_secret,
            requested_ip,
            addr,
        );
        proof {
            let s0 = vn_mid.entries@;
            let s1 = self.virtual_network.entries@;
            assert(s1.len() == s0.len());
            assert(s1[gi as int].key@ == group_id@);
            assert(crate::expire::ski(s1, group_id@) == gi);
            assert forall|g2: Seq<char>| g2 != group_id@ implies self.virtual_network.same_entry(
                vn_mid,
                g2,
            ) by {
                if crate::expire::sk(s0, g2) {
                    let j = crate::expire::ski(s0, g2);
                    assert(s1[j].key@ == g2);
                    assert(crate::expire::ski(s1, g2) == j);
                    assert(j != gi);
                }
                if crate::expire::sk(s1, g2) {
                    let j = crate::expire::ski(s1, g2);
                    assert(s0[j].key@ == g2);
                }
            }
            assert forall|g2: Seq<char>| g2 != group_id@ implies self.virtual_network.same_entry(
                old(self).virtual_network,
                g2,
            ) by {
                assert(self.virtual_network.same_entry(vn_mid, g2));
                assert(vn_mid.same_entry(old(self).virtual_network, g2));
            }
            assert forall|g2: Seq<char>| #[trigger]
                self.virtual_network.contains_key(g2) implies self.virtual_network.val_of(
                g2,
            ).wf() by {
                if g2 != group_id@ {
                    assert(self.virtual_network.same_entry(old(self).virtual_network, g2));
                }
            }
            assert(spec_group_seed(*old(self), group_id@, gateway, netmask, g0));
        }
        match res {
            Ok(ip) => {
                let g = &self.virtual_network.entries[gi].val;
                let grant = RegistrationGrant {
                    virtual_ip: ip,
                    gateway: g.gateway_ip,
                    netmask: g.mask_ip,
                    epoch: g.epoch,
                };
                let ghost ip_pre = self.ip_session;
                let ghost addr_pre = self.addr_session;
                self.insert_ip_session(now, group_id.clone(), ip, addr);
                self.insert_addr_session(
                    now,
                    addr,
                    AddrBinding { group: group_id.clone(), virtual_ip: ip, timestamp: now },
                );
                proof {
                    assert forall|k2: (Seq<char>, u32)|
                        k2 != (group_id@, grant.virtual_ip) implies self.ip_session.same_entry(
                        old(self).ip_session,
                        k2,
                    ) by {
                        assert(self.ip_session.same_entry(ip_pre, k2));
                    }
                    assert forall|a2: PeerAddr|
                        a2 != addr implies self.addr_session.same_entry(
                        old(self).addr_session,
                        a2,
                    ) by {
                        assert(self.addr_session.same_entry(addr_pre, a2));
                    }
                    let g1 = self.virtual_network.val_of(group_id@);
                    assert(spec_group_seed(*old(self), group_id@, gateway, netmask, g0));
                    assert(g1.has_ip(grant.virtual_ip));
                    assert(g1.usable(grant.virtual_ip));
                    assert(g1.client_of(grant.virtual_ip).address == addr);
                    assert(g1.epoch == g0.epoch.saturating_add(1));
                    assert(g1.same_subnet(g0));
                    assert(grant.gateway == g1.gateway_ip && grant.netmask == g1.mask_ip
                        && grant.epoch == g1.epoch);
                    assert(self.ip_session.contains_key((group_id@, grant.virtual_ip)));
                    assert(self.ip_session.val_of((group_id@, grant.virtual_ip)) == addr);
                    assert(self.addr_session.contains_key(addr));
                    assert(self.addr_session.val_of(addr).group@ == group_id@);
                    assert(self.addr_session.val_of(addr).virtual_ip == grant.virtual_ip);
                    assert(self.addr_session.val_of(addr).timestamp == now);
                    if !old(self).virtual_network.contains_key(group_id@) {
                        assert(g0.clients@.len() == 0);
                        assert forall|ip2: u32|
                            ip2 != grant.virtual_ip implies !g1.has_ip(ip2) by {
                            assert(g1.same_client(g0, ip2));
                        }
                        let req_bad = match requested_ip {
                            Some(rip) => !net::spec_is_usable_host(rip, gateway, netmask),
                            None => true,
                        };
                        if req_bad {
                            assert forall|h2: u32|
                                net::spec_is_usable_host(h2, gateway, netmask) implies h2
                                >= grant.virtual_ip by {
                                if h2 < grant.virtual_ip {
                                    assert(g0.usable(h2));
                                    assert(g0.has_ip(h2));
                                }
                            }
                        }
                    }
                    if old(self).spec_binding_consistent() {
                        assert forall|g2: Seq<char>, v2: u32|
                            (self.virtual_network.contains_key(g2)
                                && self.virtual_network.val_of(g2).has_ip(v2)
                                && self.virtual_network.val_of(g2).client_of(
                                v2,
                            ).online) implies self.ip_session.contains_key((g2, v2))
                            && self.ip_session.val_of((g2, v2)) == self.virtual_network.val_of(
                            g2,
                        ).client_of(v2).address by {
                            if g2 == group_id@ {
                                if v2 == grant.virtual_ip {
                                } else {
                                    assert(g1.same_client(g0, v2));
                                    assert(old(self).virtual_network.contains_key(g2)
                                        ==> old(self).virtual_network.val_of(g2) == g0);
                                    assert(self.ip_session.same_entry(
                                        old(self).ip_session,
                                        (g2, v2),
                                    ));
                                }
                            } else {
                                assert(self.virtual_network.same_entry(
                                    old(self).virtual_network,
                                    g2,
                                ));
                                assert(self.ip_session.same_entry(
                                    old(self).ip_session,
                                    (g2, v2),
                                ));
                            }
                        }
                    }
                }
                Ok(grant)
            },
            Err(e) => {
                proof {
                    let g1 = self.virtual_network.val_of(group_id@);
                    assert(spec_group_seed(*old(self), group_id@, gateway, netmask, g0));
                    assert(g1 == g0);
                    assert(self.ip_session == old(self).ip_session);
                    assert(self.addr_session == old(self).addr_session);
                    if !old(self).virtual_network.contains_key(group_id@) {
                        assert(g0.clients@.len() == 0);
                        assert forall|h2: u32|
                            !net::spec_is_usable_host(h2, gateway, netmask) by {
                            if net::spec_is_usable_host(h2, gateway, netmask) {
                                assert(g0.usable(h2));
                                assert(g0.has_ip(h2));
                            }
                        }
                    }
                    if old(self).spec_binding_consistent() {
                        assert forall|g2: Seq<char>, v2: u32|
                            (self.virtual_network.contains_key(g2)
                                && self.virtual_network.val_of(g2).has_ip(v2)
                                && self.virtual_network.val_of(g2).client_of(
                                v2,
                            ).online) implies self.ip_session.contains_key((g2, v2))
                            && self.ip_session.val_of((g2, v2)) == self.virtual_network.val_of(
                            g2,
                        ).client_of(v2).address by {
                            if g2 != group_id@ {
                                assert(self.virtual_network.same_entry(
                                    old(self).virtual_network,
                                    g2,
                                ));
                            } else {
                                assert(self.virtual_network.val_of(g2) == g0);
                                if g0.clients@.len() == 0 {
                                    assert(!g0.has_ip(v2));
                                }
                            }
                        }
                    }
                }
                Err(e)
            },
        }
    }

    /// The lease-expiry cascade for one evicted `(group, ip) -> addr`
    /// binding: when the group is live and still records `addr` for `ip`,
    /// the member is removed and the epoch bumped; otherwise nothing
    /// changes.  The group's lease is renewed by the lookup.
    pub fn evict_ip_binding(&mut self, now: u64, gid: &String, ip: u32, addr: PeerAddr) -> (removed:
        bool)
        requires
            old(self).wf(),
        ensures
            final(self).wf(),
            final(self).ip_session == old(self).ip_session,
            final(self).addr_session == old(self).addr_session,
            final(self).cipher_session == old(self).cipher_session,
            final(self).auth_map == old(self).auth_map,
            forall|g2: Seq<char>|
                g2 != gid@ ==> final(self).virtual_network.same_entry(
                    old(self).virtual_network,
                    g2,
                ),
            final(self).virtual_network.contains_key(gid@) == old(
                self,
            ).virtual_network.contains_key(gid@),
            removed <==> (old(self).virtual_network.contains_key(gid@) && old(
                self,
            ).virtual_network.val_of(gid@).has_ip(ip) && old(self).virtual_network.val_of(
                gid@,
            ).client_of(ip).address == addr),
            old(self).virtual_network.contains_key(gid@) ==> {
                let g0 = old(self).virtual_network.val_of(gid@);
                let g1 = final(self).virtual_network.val_of(gid@);
                &&& g1.same_subnet(g0)
                &&& (removed ==> !g1.has_ip(ip) && g1.epoch == g0.epoch.saturating_add(1))
                &&& (!removed ==> g1 == g0)
                &&& forall|ip2: u32| ip2 != ip ==> g1.same_client(g0, ip2)
                &&& g1.epoch >= g0.epoch
            },
            old(self).spec_binding_consistent() ==> final(self).spec_binding_consistent(),
    {
        let found = self.virtual_network.get_and_renew(now, gid);
        match found {
            Some(i) => {
                let ghost vn_mid = self.virtual_network;
                let changed = self.virtual_network.entries[i].val.remove_client_if_addr(ip, addr);
                proof {
                    let s0 = vn_mid.entries@;
                    let s1 = self.virtual_network.entries@;
                    assert(s1[i as int].key@ == gid@);
                    assert(crate::expire::ski(s1, gid@) == i);
                    assert forall|g2: Seq<char>|
                        g2 != gid@ implies self.virtual_network.same_entry(vn_mid, g2) by {
                        if crate::expire::sk(s0, g2) {
                            let j = crate::expire::ski(s0, g2);
                            assert(s1[j].key@ == g2);
                            assert(crate::expire::ski(s1, g2) == j);
                            assert(j != i);
                        }
                        if crate::expire::sk(s1, g2) {
                            let j = crate::expire::ski(s1, g2);
                            assert(s0[j].key@ == g2);
                        }
                    }
                    assert forall|g2: Seq<char>| #[trigger]
                        self.virtual_network.contains_key(g2) implies self.virtual_network.val_of(
                        g2,
                    ).wf() by {
                        if g2 != gid@ {
                            assert(self.virtual_network.same_entry(vn_mid, g2));
                            assert(vn_mid.vals_match(old(self).virtual_network));
                        }
                    }
                    assert forall|g2: Seq<char>|
                        g2 != gid@ implies self.virtual_network.same_entry(
                        old(self).virtual_network,
                        g2,
                    ) by {
                        assert(self.virtual_network.same_entry(vn_mid, g2));
                        assert(vn_mid.same_entry(old(self).virtual_network, g2));
                    }
                    if old(self).spec_binding_consistent() {
                        assert forall|g2: Seq<char>, v2: u32|
                            (self.virtual_network.contains_key(g2)
                                && self.virtual_network.val_of(g2).has_ip(v2)
                                && self.virtual_network.val_of(g2).client_of(
                                v2,
                            ).online) implies self.ip_session.contains_key((g2, v2))
                            && self.ip_session.val_of((g2, v2)) == self.virtual_network.val_of(
                            g2,
                        ).client_of(v2).address by {
                            if g2 != gid@ {
                                assert(self.virtual_network.same_entry(
                                    old(self).virtual_network,
                                    g2,
                                ));
                            } else {
                                let g0 = old(self).virtual_network.val_of(gid@);
                                let g1 = self.virtual_network.val_of(gid@);
                                if v2 != ip {
                                    assert(g1.same_client(g0, v2));
                                }
                            }
                        }
                    }
                }
                changed
            },
            None => false,
        }
    }

    /// The keep-alive-expiry cascade for one evicted
    /// `addr -> (group, ip, ts)` binding: when the group is live and both
    /// the address and the binding timestamp still match, the member is
    /// marked offline and the epoch bumped; a stale binding changes nothing.
    pub fn evict_addr_binding(
        &mut self,
        now: u64,
        gid: &String,
        ip: u32,
        addr: PeerAddr,
        timestamp: u64,
    ) -> (changed: bool)
        requires
            old(self).wf(),
        ensures
            final(self).wf(),
            final(self).ip_session == old(self).ip_session,
            final(self).addr_session == old(self).addr_session,
            final(self).cipher_session == old(self).cipher_session,
            final(self).auth_map == old(self).auth_map,
            forall|g2: Seq<char>|
                g2 != gid@ ==> final(self).virtual_network.same_entry(
                    old(self).virtual_network,
                    g2,
                ),
            final(self).virtual_network.contains_key(gid@) == old(
                self,
            ).virtual_network.contains_key(gid@),
            changed <==> (old(self).virtual_network.contains_key(gid@) && old(
                self,
            ).virtual_network.val_of(gid@).has_ip(ip) && old(self).virtual_network.val_of(
                gid@,
            ).client_of(ip).address == addr && old(self).virtual_network.val_of(gid@).client_of(
                ip,
            ).timestamp == timestamp),
            old(self).virtual_network.contains_key(gid@) ==> {
                let g0 = old(self).virtual_network.val_of(gid@);
                let g1 = final(self).virtual_network.val_of(gid@);
                &&& g1.same_subnet(g0)
                &&& (changed ==> g1.has_ip(ip) && g1.client_of(ip) == (crate::group::ClientEntry {
                    online: false,
                    ..g0.client_of(ip)
                }) && g1.epoch == g0.epoch.saturating_add(1))
                &&& (!changed ==> g1 == g0)
                &&& forall|ip2: u32| ip2 != ip ==> g1.same_client(g0, ip2)
                &&& g1.epoch >= g0.epoch
            },
            old(self).spec_binding_consistent() ==> final(self).spec_binding_consistent(),
    {
        let found = self.virtual_network.get_and_renew(now, gid);
        match found {
            Some(i) => {
                let ghost vn_mid = self.virtual_network;
                let changed = self.virtual_network.entries[i].val.set_offline_if_match(
                    ip,
                    addr,
                    timestamp,
                );
                proof {
                    let s0 = vn_mid.entries@;
                    let s1 = self.virtual_network.entries@;
                    assert(s1[i as int].key@ == gid@);
                    assert(crate::expire::ski(s1, gid@) == i);
                    assert forall|g2: Seq<char>|
                        g2 != gid@ implies self.virtual_network.same_entry(vn_mid, g2) by {
                        if crate::expire::sk(s0, g2) {
                            let j = crate::expire::ski(s0, g2);
                            assert(s1[j].key@ == g2);
                            assert(crate::expire::ski(s1, g2) == j);
                            assert(j != i);
                        }
                        if crate::expire::sk(s1, g2) {
                            let j = crate::expire::ski(s1, g2);
                            assert(s0[j].key@ == g2);
                        }
                    }
                    assert forall|g2: Seq<char>| #[trigger]
                        self.virtual_network.contains_key(g2) implies self.virtual_network.val_of(
                        g2,
                    ).wf() by {
                        if g2 != gid@ {
                            assert(self.virtual_network.same_entry(vn_mid, g2));
                            assert(vn_mid.vals_match(old(self).virtual_network));
                        }
                    }
                    assert forall|g2: Seq<char>|
                        g2 != gid@ implies self.virtual_network.same_entry(
                        old(self).virtual_network,
                        g2,
                    ) by {
                        assert(self.virtual_network.same_entry(vn_mid, g2));
                        assert(vn_mid.same_entry(old(self).virtual_network, g2));
                    }
                    if old(self).spec_binding_consistent() {
                        assert forall|g2: Seq<char>, v2: u32|
                            (self.virtual_network.contains_key(g2)
                                && self.virtual_network.val_of(g2).has_ip(v2)
                                && self.virtual_network.val_of(g2).client_of(
                                v2,
                            ).online) implies self.ip_session.contains_key((g2, v2))
                            && self.ip_session.val_of((g2, v2)) == self.virtual_network.val_of(
                            g2,
                        ).client_of(v2).address by {
                            if g2 != gid@ {
                                assert(self.virtual_network.same_entry(
                                    old(self).virtual_network,
                                    g2,
                                ));
                            } else {
                                let g0 = old(self).virtual_network.val_of(gid@);
                                let g1 = self.virtual_network.val_of(gid@);
                                if v2 != ip {
                                    assert(g1.same_client(g0, v2));
                                }
                            }
                        }
                    }
                }
                changed
            },
            None => false,
        }
    }

    /// One timed sweep: idle groups, bindings, cipher sessions and tokens
    /// whose deadlines have passed are evicted, and each evicted binding
    /// runs its guarded cascade (removal for lease expiry, offline marking
    /// for keep-alive expiry).  Surviving groups keep their subnet and their
    /// epoch never moves backwards.
    pub fn sweep(&mut self, now: u64)
        requires
            old(self).wf(),
        ensures
            final(self).wf(),
            forall|k: (Seq<char>, u32)|
                final(self).ip_session.contains_key(k) <==> (old(self).ip_session.contains_key(k)
                    && old(self).ip_session.deadline_of(k) > now),
            forall|a: PeerAddr|
                final(self).addr_session.contains_key(a) <==> (old(
                    self,
                ).addr_session.contains_key(a) && old(self).addr_session.deadline_of(a) > now),
            forall|a: PeerAddr|
                final(self).cipher_session.contains_key(a) <==> (old(
                    self,
                ).cipher_session.contains_key(a) && old(self).cipher_session.deadline_of(a) > now),
            forall|tk: Seq<char>|
                final(self).auth_map.contains_key(tk) <==> (old(self).auth_map.contains_key(tk)
                    && old(self).auth_map.deadline_of(tk) > now),
            forall|g: Seq<char>|
                final(self).virtual_network.contains_key(g) ==> (old(
                    self,
                ).virtual_network.contains_key(g) && final(self).virtual_network.val_of(
                    g,
                ).same_subnet(old(self).virtual_network.val_of(g)) && final(self).virtual_network.val_of(g).epoch >= old(self).virtual_network.val_of(g).epoch),
            old(self).spec_binding_consistent() ==> final(self).spec_binding_consistent(),
    {
        let ghost pre = *self;
        let _ = self.virtual_network.take_expired(now);
        proof {
            assert forall|g2: Seq<char>| #[trigger]
                self.virtual_network.contains_key(g2) implies self.virtual_network.val_of(
                g2,
            ).wf() by {
                assert(old(self).virtual_network.contains_key(g2));
            }
            if old(self).spec_binding_consistent() {
                assert forall|g2: Seq<char>, v2: u32|
                    (self.virtual_network.contains_key(g2)
                        && self.virtual_network.val_of(g2).has_ip(v2)
                        && self.virtual_network.val_of(g2).client_of(
                        v2,
                    ).online) implies self.ip_session.contains_key((g2, v2))
                    && self.ip_session.val_of((g2, v2)) == self.virtual_network.val_of(
                    g2,
                ).client_of(v2).address by {
                    assert(old(self).virtual_network.contains_key(g2));
                    assert(self.virtual_network.val_of(g2) == old(self).virtual_network.val_of(
                        g2,
                    ));
                }
            }
        }
        let ghost c1 = *self;
        let gone_ips = self.ip_session.take_expired(now);
        let ghost c2 = *self;
        proof {
            if old(self).spec_binding_consistent() {
                assert forall|g2: Seq<char>, v2: u32|
                    (self.virtual_network.contains_key(g2)
                        && self.virtual_network.val_of(g2).has_ip(v2)
                        && self.virtual_network.val_of(g2).client_of(v2).online
                        && !crate::expire::sk(gone_ips@, (g2, v2))) implies (
                    self.ip_session.contains_key((g2, v2)) && self.ip_session.val_of((g2, v2))
                        == self.virtual_network.val_of(g2).client_of(v2).address) by {
                    assert(c1.ip_session.contains_key((g2, v2)));
                    if c1.ip_session.deadline_of((g2, v2)) <= now {
                        assert(crate::expire::sk(gone_ips@, (g2, v2)));
                    }
                }
                assert forall|j: int|
                    0 <= j < gone_ips@.len() implies ({
                    let gj = (#[trigger] gone_ips@[j]).key@.0;
                    let vj = gone_ips@[j].key@.1;
                    (self.virtual_network.contains_key(gj) && self.virtual_network.val_of(
                        gj,
                    ).has_ip(vj) && self.virtual_network.val_of(gj).client_of(vj).online)
                        ==> self.virtual_network.val_of(gj).client_of(vj).address == gone_ips@[
                        j
                    ].val
                }) by {
                    let k = gone_ips@[j].key@;
                    assert(gone_ips@[j].key@ == k);
                    assert(crate::expire::sk(gone_ips@, k));
                    assert(crate::expire::se(gone_ips@, k) == gone_ips@[j]);
                    assert(c1.ip_session.contains_key(k));
                    assert(c1.ip_session.entry_of(k) == crate::expire::se(gone_ips@, k));
                }
            }
        }
        let mut i: usize = 0;
        while i < gone_ips.len()
            invariant
                self.wf(),
                crate::expire::s_wf(gone_ips@),
                self.ip_session == c2.ip_session,
                self.addr_session == c2.addr_session,
                self.cipher_session == c2.cipher_session,
                self.auth_map == c2.auth_map,
                forall|g: Seq<char>|
                    self.virtual_network.contains_key(g) == c2.virtual_network.contains_key(g),
                forall|g: Seq<char>| #[trigger]
                    self.virtual_network.contains_key(g) ==> (self.virtual_network.val_of(
                        g,
                    ).same_subnet(c2.virtual_network.val_of(g)) && self.virtual_network.val_of(
                        g,
                    ).epoch >= c2.virtual_network.val_of(g).epoch),
                old(self).spec_binding_consistent() ==> forall|g2: Seq<char>, v2: u32|
                    (#[trigger] self.virtual_network.contains_key(g2)
                        && #[trigger] self.virtual_network.val_of(g2).has_ip(v2)
                        && self.virtual_network.val_of(g2).client_of(v2).online && !(exists|
                        j: int,
                    |
                        i <= j < gone_ips@.len() && (#[trigger] gone_ips@[j]).key@ == (
                        g2,
                        v2,
                        ))) ==> (self.ip_session.contains_key((g2, v2))
                        && self.ip_session.val_of((g2, v2)) == self.virtual_network.val_of(
                        g2,
                    ).client_of(v2).address),
                old(self).spec_binding_consistent() ==> forall|j: int|
                    i <= j < gone_ips@.len() ==> ({
                        let gj = (#[trigger] gone_ips@[j]).key@.0;
                        let vj = gone_ips@[j].key@.1;
                        (self.virtual_network.contains_key(gj) && self.virtual_network.val_of(
                            gj,
                        ).has_ip(vj) && self.virtual_network.val_of(gj).client_of(vj).online)
                            ==> self.virtual_network.val_of(gj).client_of(vj).address
                            == gone_ips@[j].val
                    }),
            decreases gone_ips@.len() - i,
        {
            let gid = gone_ips[i].key.group.clone();
            let ip = gone_ips[i].key.ip;
            let a = gone_ips[i].val;
            let ghost mid = *self;
            let _ = self.evict_ip_binding(now, &gid, ip, a);
            proof {
                assert forall|g: Seq<char>| #[trigger]
                    self.virtual_network.contains_key(g) implies (self.virtual_network.val_of(
                    g,
                ).same_subnet(c2.virtual_network.val_of(g)) && self.virtual_network.val_of(
                    g,
                ).epoch >= c2.virtual_network.val_of(g).epoch) by {
                    if g != gid@ {
                        assert(self.virtual_network.same_entry(mid.virtual_network, g));
                    }
                    assert(mid.virtual_network.contains_key(g));
                }
                assert forall|g: Seq<char>|
                    self.virtual_network.contains_key(g) == c2.virtual_network.contains_key(
                        g,
                    ) by {
                    if g != gid@ {
                        assert(self.virtual_network.same_entry(mid.virtual_network, g));
                    }
                }
            }
            i += 1;
            proof {
                if old(self).spec_binding_consistent() {
                    let e = gone_ips@[i as int - 1];
                    assert(gid@ == e.key@.0 && ip == e.key@.1 && a == e.val);
                    assert forall|j2: int|
                        i <= j2 < gone_ips@.len() implies ({
                        let gj = (#[trigger] gone_ips@[j2]).key@.0;
                        let vj = gone_ips@[j2].key@.1;
                        (self.virtual_network.contains_key(gj) && self.virtual_network.val_of(
                            gj,
                        ).has_ip(vj) && self.virtual_network.val_of(gj).client_of(vj).online)
                            ==> self.virtual_network.val_of(gj).client_of(vj).address
                            == gone_ips@[j2].val
                    }) by {
                        let gj = gone_ips@[j2].key@.0;
                        let vj = gone_ips@[j2].key@.1;
                        assert(gone_ips@[j2].key@ != e.key@);
                        if gj != gid@ {
                            assert(self.virtual_network.same_entry(mid.virtual_network, gj));
                        } else {
                            if mid.virtual_network.contains_key(gj) {
                                assert(self.virtual_network.val_of(gj).same_client(
                                    mid.virtual_network.val_of(gj),
                                    vj,
                                ));
                            }
                        }
                    }
                    assert forall|g2: Seq<char>, v2: u32|
                        (self.virtual_network.contains_key(g2)
                            && self.virtual_network.val_of(g2).has_ip(v2)
                            && self.virtual_network.val_of(g2).client_of(v2).online && !(exists|
                            j2: int,
                        |
                            i <= j2 < gone_ips@.len() && (#[trigger] gone_ips@[j2]).key@ == (
                            g2,
                            v2,
                            ))) implies (self.ip_session.contains_key((g2, v2))
                            && self.ip_session.val_of((g2, v2)) == self.virtual_network.val_of(
                            g2,
                        ).client_of(v2).address) by {
                        if (g2, v2) == e.key@ {
                            assert(mid.virtual_network.contains_key(g2)
                                == self.virtual_network.contains_key(g2));
                            if mid.virtual_network.contains_key(g2) {
                                let gm = mid.virtual_network.val_of(g2);
                                let gn = self.virtual_network.val_of(g2);
                                if gm.has_ip(v2) && gm.client_of(v2).online {
                                    assert(gm.client_of(v2).address == a);
                                    assert(!gn.has_ip(v2));
                                } else {
                                    assert(gn.same_client(gm, v2) || !gn.has_ip(v2));
                                    assert(!gn.has_ip(v2) || !gn.client_of(v2).online);
                                }
                            }
                        } else {
                            assert(!(exists|j2: int|
                                i - 1 <= j2 < gone_ips@.len() && (#[trigger] gone_ips@[
                                    j2
                                ]).key@ == (g2, v2)));
                            if g2 != gid@ {
                                assert(self.virtual_network.same_entry(
                                    mid.virtual_network,
                                    g2,
                                ));
                            } else {
                                assert(mid.virtual_network.contains_key(g2));
                                assert(self.virtual_network.val_of(g2).same_client(
                                    mid.virtual_network.val_of(g2),
                                    v2,
                                ));
                            }
                        }
                    }
                }
            }
        }
        proof {
            if old(self).spec_binding_consistent() {
                assert forall|g2: Seq<char>, v2: u32|
                    (self.virtual_network.contains_key(g2)
                        && self.virtual_network.val_of(g2).has_ip(v2)
                        && self.virtual_network.val_of(g2).client_of(
                        v2,
                    ).online) implies self.ip_session.contains_key((g2, v2))
                    && self.ip_session.val_of((g2, v2)) == self.virtual_network.val_of(
                    g2,
                ).client_of(v2).address by {
                    assert(!(exists|j2: int|
                        i <= j2 < gone_ips@.len() && (#[trigger] gone_ips@[j2]).key@ == (
                        g2,
                        v2,
                        )));
                }
            }
        }
        let ghost c3 = *self;
        let gone_addrs = self.addr_session.take_expired(now);
        let ghost c4 = *self;
        let mut j: usize = 0;
        while j < gone_addrs.len()
            invariant
                self.wf(),
                self.ip_session == c4.ip_session,
                self.addr_session == c4.addr_session,
                self.cipher_session == c4.cipher_session,
                self.auth_map == c4.auth_map,
                forall|g: Seq<char>|
                    self.virtual_network.contains_key(g) == c4.virtual_network.contains_key(g),
                forall|g: Seq<char>| #[trigger]
                    self.virtual_network.contains_key(g) ==> (self.virtual_network.val_of(
                        g,
                    ).same_subnet(c4.virtual_network.val_of(g)) && self.virtual_network.val_of(
                        g,
                    ).epoch >= c4.virtual_network.val_of(g).epoch),
                old(self).spec_binding_consistent() ==> self.spec_binding_consistent(),
            decreases gone_addrs@.len() - j,
        {
            let gid = gone_addrs[j].val.group.clone();
            let ip = gone_addrs[j].val.virtual_ip;
            let ts = gone_addrs[j].val.timestamp;
            let a = gone_addrs[j].key;
            let ghost mid = *self;
            let _ = self.evict_addr_binding(now, &gid, ip, a, ts);
            proof {
                assert forall|g: Seq<char>| #[trigger]
                    self.virtual_network.contains_key(g) implies (self.virtual_network.val_of(
                    g,
                ).same_subnet(c4.virtual_network.val_of(g)) && self.virtual_network.val_of(
                    g,
                ).epoch >= c4.virtual_network.val_of(g).epoch) by {
                    if g != gid@ {
                        assert(self.virtual_network.same_entry(mid.virtual_network, g));
                    }
                    assert(mid.virtual_network.contains_key(g));
                }
                assert forall|g: Seq<char>|
                    self.virtual_network.contains_key(g) == c4.virtual_network.contains_key(
                        g,
                    ) by {
                    if g != gid@ {
                        assert(self.virtual_network.same_entry(mid.virtual_network, g));
                    }
                }
            }
            j += 1;
        }
        let _ = self.cipher_session.take_expired(now);
        proof {
            assert forall|a: PeerAddr| #[trigger]
                self.cipher_session.contains_key(a) implies self.cipher_session.val_of(
                a,
            ).wf() by {
                assert(c4.cipher_session.contains_key(a));
            }
        }
        let _ = self.auth_map.take_expired(now);
    }
}

} // verus!
