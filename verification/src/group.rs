//! The per-group network descriptor: subnet, client table and epoch.
//!
//! A group is a broadcast domain with its own subnet.  Registration finds or
//! allocates a virtual IP for a device: a device already present keeps its
//! address; a free requested address is honoured; otherwise the lowest unused
//! host address is taken.  Every visible change bumps the group's epoch,
//! which clients poll to notice membership changes.

use vstd::prelude::*;
use crate::net;
use crate::net::PeerAddr;

verus! {

/// Telemetry a client reports with its heartbeats.
#[derive(Clone, Debug)]
pub struct ClientStatusInfo {
    pub p2p_list: Vec<u32>,
    pub up_stream: u64,
    pub down_stream: u64,
    pub is_cone: bool,
    pub update_time: u64,
}

/// One member of a group.
#[derive(Debug)]
pub struct ClientEntry {
    /// The re-registration key: a device keeps its virtual IP.
    pub device_id: String,
    pub name: String,
    pub version: String,
    /// The client's public transport address.
    pub address: PeerAddr,
    pub online: bool,
    pub virtual_ip: u32,
    /// When this entry was last (re-)bound; the discriminator that keeps a
    /// stale eviction from touching a newer binding.
    pub timestamp: u64,
    pub last_join_time: u64,
    pub client_secret: bool,
    pub server_secret: bool,
    /// Heartbeat telemetry.  Its wire format is not part of the protocol
    /// described here, so the dispatcher leaves it empty; once the format is
    /// settled the heartbeat path can fill it in.
    pub client_status: Option<ClientStatusInfo>,
}

/// Whether `s` holds a client with virtual IP `ip`.
pub open spec fn ck(s: Seq<ClientEntry>, ip: u32) -> bool {
    exists|i: int| 0 <= i < s.len() && s[i].virtual_ip == ip
}

pub open spec fn cki(s: Seq<ClientEntry>, ip: u32) -> int {
    choose|i: int| 0 <= i < s.len() && s[i].virtual_ip == ip
}

/// The client with virtual IP `ip` (meaningful under `ck`).
pub open spec fn ce(s: Seq<ClientEntry>, ip: u32) -> ClientEntry {
    s[cki(s, ip)]
}

/// Whether `s` holds a client with device id `d`.
pub open spec fn dk(s: Seq<ClientEntry>, d: Seq<char>) -> bool {
    exists|i: int| 0 <= i < s.len() && s[i].device_id@ == d
}

pub open spec fn dki(s: Seq<ClientEntry>, d: Seq<char>) -> int {
    choose|i: int| 0 <= i < s.len() && s[i].device_id@ == d
}

pub open spec fn de(s: Seq<ClientEntry>, d: Seq<char>) -> ClientEntry {
    s[dki(s, d)]
}

/// Virtual IPs and device ids are each unique within the table.
pub open spec fn c_wf(s: Seq<ClientEntry>) -> bool {
    forall|i: int, j: int|
        0 <= i < j < s.len() ==> s[i].virtual_ip != s[j].virtual_ip && s[i].device_id@
            != s[j].device_id@
}

#[derive(Clone, Copy, PartialEq, Eq, Structural, Debug)]
pub enum RegisterError {
    /// Every usable host address of the subnet is taken.
    IpExhausted,
}

/// The per-group descriptor.
#[derive(Debug)]
pub struct NetworkInfo {
    pub network_ip: u32,
    pub mask_ip: u32,
    pub gateway_ip: u32,
    /// Bumped on every membership or online-state change.
    pub epoch: u64,
    pub clients: Vec<ClientEntry>,
}

impl NetworkInfo {
    /// A usable host address of this group's subnet.
    pub open spec fn usable(self, ip: u32) -> bool {
        net::spec_is_usable_host(ip, self.gateway_ip, self.mask_ip)
    }

    pub open spec fn wf(self) -> bool {
        &&& self.network_ip == self.gateway_ip & self.mask_ip
        &&& c_wf(self.clients@)
        &&& forall|i: int|
            0 <= i < self.clients@.len() ==> self.usable(#[trigger] self.clients@[i].virtual_ip)
    }

    pub open spec fn has_ip(self, ip: u32) -> bool {
        ck(self.clients@, ip)
    }

    pub open spec fn client_of(self, ip: u32) -> ClientEntry {
        ce(self.clients@, ip)
    }

    pub open spec fn has_device(self, d: Seq<char>) -> bool {
        dk(self.clients@, d)
    }

    pub open spec fn device_of(self, d: Seq<char>) -> ClientEntry {
        de(self.clients@, d)
    }

    /// The subnet and epoch are as before and the client under `ip2` is
    /// untouched.
    pub open spec fn same_client(self, other: Self, ip2: u32) -> bool {
        self.has_ip(ip2) == other.has_ip(ip2) && (self.has_ip(ip2) ==> self.client_of(ip2)
            == other.client_of(ip2))
    }

    pub open spec fn same_subnet(self, other: Self) -> bool {
        self.network_ip == other.network_ip && self.mask_ip == other.mask_ip && self.gateway_ip
            == other.gateway_ip
    }

    /// A fresh, empty group over the given subnet.
    pub fn new(gateway_ip: u32, mask_ip: u32) -> (g: NetworkInfo)
        ensures
            g.wf(),
            g.gateway_ip == gateway_ip,
            g.mask_ip == mask_ip,
            g.network_ip == gateway_ip & mask_ip,
            g.epoch == 0,
            g.clients@.len() == 0,
            forall|ip: u32| !g.has_ip(ip),
            forall|d: Seq<char>| !g.has_device(d),
    {
        NetworkInfo {
            network_ip: gateway_ip & mask_ip,
            mask_ip,
            gateway_ip,
            epoch: 0,
            clients: Vec::new(),
        }
    }

    fn find_by_ip(&self, ip: u32) -> (r: Option<usize>)
        requires
            self.wf(),
        ensures
            match r {
                Some(i) => i < self.clients@.len() && self.clients@[i as int].virtual_ip == ip
                    && self.has_ip(ip) && cki(self.clients@, ip) == i,
                None => !self.has_ip(ip),
            },
    {
        let n = self.clients.len();
        let mut i: usize = 0;
        while i < n
            invariant
                n == self.clients@.len(),
                i <= n,
                self.wf(),
                forall|j: int| 0 <= j < i ==> self.clients@[j].virtual_ip != ip,
            decreases n - i,
        {
            if self.clients[i].virtual_ip == ip {
                proof {
                    let c = cki(self.clients@, ip);
                    assert(0 <= c < self.clients@.len() && self.clients@[c].virtual_ip == ip);
                    assert(c == i);
                }
                return Some(i);
            }
            i += 1;
        }
        None
    }

    fn find_by_device(&self, d: &String) -> (r: Option<usize>)
        requires
            self.wf(),
        ensures
            match r {
                Some(i) => i < self.clients@.len() && self.clients@[i as int].device_id@ == d@
                    && self.has_device(d@) && dki(self.clients@, d@) == i,
                None => !self.has_device(d@),
            },
    {
        let n = self.clients.len();
        let mut i: usize = 0;
        while i < n
            invariant
                n == self.clients@.len(),
                i <= n,
                self.wf(),
                forall|j: int| 0 <= j < i ==> self.clients@[j].device_id@ != d@,
            decreases n - i,
        {
            if self.clients[i].device_id.eq(d) {
                proof {
                    let c = dki(self.clients@, d@);
                    assert(0 <= c < self.clients@.len() && self.clients@[c].device_id@ == d@);
                    assert(c == i);
                }
                return Some(i);
            }
            i += 1;
        }
        None
    }

    /// The lowest usable host address not yet taken.
    fn lowest_free_host(&self) -> (r: Option<u32>)
        requires
            self.wf(),
        ensures
            match r {
                Some(h) => self.usable(h) && !self.has_ip(h) && forall|h2: u32|
                    self.usable(h2) && h2 < h ==> self.has_ip(h2),
                None => forall|h2: u32| self.usable(h2) ==> self.has_ip(h2),
            },
    {
        let network: u32 = self.gateway_ip & self.mask_ip;
        let broadcast: u32 = self.gateway_ip | !self.mask_ip;
        let mut hv: u64 = (network as u64) + 1;
        while hv < (broadcast as u64)
            invariant
                network == self.gateway_ip & self.mask_ip,
                broadcast == self.gateway_ip | !self.mask_ip,
                network < hv <= (broadcast as u64) || hv == (network as u64) + 1,
                self.wf(),
                forall|h2: u32| self.usable(h2) && h2 < hv ==> self.has_ip(h2),
            decreases (broadcast as u64) - hv,
        {
            let h: u32 = hv as u32;
            if h != self.gateway_ip {
                let found = self.find_by_ip(h);
                if found.is_none() {
                    return Some(h);
                }
            }
            hv = hv + 1;
        }
        None
    }

    /// Registers `device_id` in the group at time `now` and reports its
    /// virtual IP.
    ///
    /// A device already present keeps its virtual IP; its address, names and
    /// online state are refreshed.  Otherwise a usable, free `requested_ip`
    /// is honoured; otherwise the lowest free host address is taken; when
    /// none is left the registration fails and the group is unchanged.
    /// Every successful registration bumps the epoch.
    pub fn register(
        &mut self,
        now: u64,
        device_id: String,
        name: String,
        version: String,
        client_secret: bool,
        requested_ip: Option<u32>,
        addr: PeerAddr,
    ) -> (r: Result<u32, RegisterError>)
        requires
            old(self).wf(),
        ensures
            final(self).wf(),
            final(self).same_subnet(*old(self)),
            r matches Ok(ip) ==> {
                &&& final(self).has_ip(ip)
                &&& final(self).usable(ip)
                &&& final(self).client_of(ip).device_id@ == device_id@
                &&& final(self).client_of(ip).address == addr
                &&& final(self).client_of(ip).online
                &&& final(self).client_of(ip).timestamp == now
                &&& final(self).client_of(ip).virtual_ip == ip
                &&& final(self).client_of(ip).name@ == name@
                &&& final(self).client_of(ip).version@ == version@
                &&& final(self).client_of(ip).client_secret == client_secret
                &&& final(self).has_device(device_id@)
                &&& final(self).device_of(device_id@) == final(self).client_of(ip)
                &&& (old(self).has_device(device_id@) ==> ip == old(self).device_of(
                    device_id@,
                ).virtual_ip)
                &&& (!old(self).has_device(device_id@) ==> !old(self).has_ip(ip))
                &&& (!old(self).has_device(device_id@) && (match requested_ip {
                    Some(rip) => old(self).usable(rip) && !old(self).has_ip(rip),
                    None => false,
                }) ==> ip == requested_ip->0)
                &&& (!old(self).has_device(device_id@) && (match requested_ip {
                    Some(rip) => !old(self).usable(rip) || old(self).has_ip(rip),
                    None => true,
                }) ==> forall|h2: u32| old(self).usable(h2) && h2 < ip ==> old(self).has_ip(h2))
                &&& forall|ip2: u32| ip2 != ip ==> final(self).same_client(*old(self), ip2)
                &&& final(self).epoch == old(self).epoch.saturating_add(1)
            },
            r is Err <==> !old(self).has_device(device_id@) && (match requested_ip {
                Some(rip) => !old(self).usable(rip) || old(self).has_ip(rip),
                None => true,
            }) && (forall|h2: u32| old(self).usable(h2) ==> old(self).has_ip(h2)),
            r is Err ==> *final(self) == *old(self),
            old(self).epoch < u64::MAX && r is Ok ==> final(self).epoch > old(self).epoch,
    {
        let found = self.find_by_device(&device_id);
        match found {
            Some(i) => {
                let ip = self.clients[i].virtual_ip;
                let e = &mut self.clients[i];
                e.address = addr;
                e.online = true;
                e.timestamp = now;
                e.last_join_time = now;
                e.name = name;
                e.version = version;
                e.client_secret = client_secret;
                self.epoch = self.epoch.saturating_add(1);
                proof {
                    let s0 = old(self).clients@;
                    let s1 = self.clients@;
                    assert(s1[i as int].virtual_ip == ip);
                    assert(cki(s1, ip) == i);
                    assert(dki(s1, device_id@) == i);
                    assert(cki(s0, ip) == i);
                    assert forall|ip2: u32| ip2 != ip implies self.same_client(
                        *old(self),
                        ip2,
                    ) by {
                        if ck(s0, ip2) {
                            let j = cki(s0, ip2);
                            assert(s1[j].virtual_ip == ip2);
                            assert(cki(s1, ip2) == j);
                            assert(j != i);
                        }
                        if ck(s1, ip2) {
                            let j = cki(s1, ip2);
                            assert(s0[j].virtual_ip == ip2);
                        }
                    }
                }
                Ok(ip)
            },
            None => {
                let chosen: Option<u32> = match requested_ip {
                    Some(rip) => {
                        if net::is_usable_host(rip, self.gateway_ip, self.mask_ip) {
                            let taken = self.find_by_ip(rip);
                            if taken.is_none() {
                                Some(rip)
                            } else {
                                self.lowest_free_host()
                            }
                        } else {
                            self.lowest_free_host()
                        }
                    },
                    None => self.lowest_free_host(),
                };
                match chosen {
                    Some(ip) => {
                        let entry = ClientEntry {
                            device_id,
                            name,
                            version,
                            address: addr,
                            online: true,
                            virtual_ip: ip,
                            timestamp: now,
                            last_join_time: now,
                            client_secret,
                            server_secret: false,
                            client_status: None,
                        };
                        self.clients.push(entry);
                        self.epoch = self.epoch.saturating_add(1);
                        proof {
                            let s0 = old(self).clients@;
                            let s1 = self.clients@;
                            let n = s0.len() as int;
                            assert(s1[n].virtual_ip == ip);
                            assert(s1[n].device_id@ == device_id@);
                            assert(cki(s1, ip) == n);
                            assert(dki(s1, device_id@) == n);
                            assert forall|ip2: u32| ip2 != ip implies self.same_client(
                                *old(self),
                                ip2,
                            ) by {
                                if ck(s0, ip2) {
                                    let j = cki(s0, ip2);
                                    assert(s1[j].virtual_ip == ip2);
                                    assert(cki(s1, ip2) == j);
                                }
                                if ck(s1, ip2) {
                                    let j = cki(s1, ip2);
                                    assert(j < n);
                                    assert(s0[j].virtual_ip == ip2);
                                }
                            }
                        }
                        Ok(ip)
                    },
                    None => Err(RegisterError::IpExhausted),
                }
            },
        }
    }

    /// The lease-expiry effect: removes the client under `ip`, but only when
    /// its recorded address still is `addr`; a client that has re-registered
    /// from elsewhere is left alone.  Reports whether a removal happened and
    /// bumps the epoch exactly then.
    pub fn remove_client_if_addr(&mut self, ip: u32, addr: PeerAddr) -> (removed: bool)
        requires
            old(self).wf(),
        ensures
            final(self).wf(),
            final(self).same_subnet(*old(self)),
            removed <==> old(self).has_ip(ip) && old(self).client_of(ip).address == addr,
            removed ==> !final(self).has_ip(ip) && final(self).epoch == old(
                self,
            ).epoch.saturating_add(1),
            !removed ==> *final(self) == *old(self),
            forall|ip2: u32| ip2 != ip ==> final(self).same_client(*old(self), ip2),
            old(self).epoch < u64::MAX && removed ==> final(self).epoch > old(self).epoch,
    {
        let found = self.find_by_ip(ip);
        match found {
            Some(i) => {
                if self.clients[i].address == addr {
                    let ghost s0 = self.clients@;
                    let _ = self.clients.remove(i);
                    self.epoch = self.epoch.saturating_add(1);
                    proof {
                        let s1 = self.clients@;
                        assert(s1 =~= s0.remove(i as int));
                        assert forall|ip2: u32| ck(s1, ip2) implies ip2 != ip && ck(s0, ip2) by {
                            let j = cki(s1, ip2);
                            if j < i {
                                assert(s0[j].virtual_ip == ip2);
                            } else {
                                assert(s0[j + 1].virtual_ip == ip2);
                            }
                        }
                        assert forall|ip2: u32| ip2 != ip implies self.same_client(
                            *old(self),
                            ip2,
                        ) by {
                            if ck(s0, ip2) {
                                let j = cki(s0, ip2);
                                assert(j != i);
                                if j < i {
                                    assert(s1[j].virtual_ip == ip2);
                                    assert(cki(s1, ip2) == j);
                                } else {
                                    assert(s1[j - 1].virtual_ip == ip2);
                                    assert(cki(s1, ip2) == j - 1);
                                }
                            }
                        }
                    }
                    true
                } else {
                    false
                }
            },
            None => false,
        }
    }

    /// The keep-alive-expiry effect: marks the client under `ip` offline,
    /// but only when its recorded address and binding timestamp still match;
    /// a stale binding cannot touch a newer one.  Reports whether the state
    /// changed and bumps the epoch exactly then.
    pub fn set_offline_if_match(&mut self, ip: u32, addr: PeerAddr, timestamp: u64) -> (changed:
        bool)
        requires
            old(self).wf(),
        ensures
            final(self).wf(),
            final(self).same_subnet(*old(self)),
            changed <==> old(self).has_ip(ip) && old(self).client_of(ip).address == addr && old(
                self,
            ).client_of(ip).timestamp == timestamp,
            changed ==> {
                &&& final(self).has_ip(ip)
                &&& final(self).client_of(ip) == ClientEntry {
                    online: false,
                    ..old(self).client_of(ip)
                }
                &&& final(self).epoch == old(self).epoch.saturating_add(1)
            },
            !changed ==> *final(self) == *old(self),
            forall|ip2: u32| ip2 != ip ==> final(self).same_client(*old(self), ip2),
            old(self).epoch < u64::MAX && changed ==> final(self).epoch > old(self).epoch,
    {
        let found = self.find_by_ip(ip);
        match found {
            Some(i) => {
                if self.clients[i].address == addr && self.clients[i].timestamp == timestamp {
                    let e = &mut self.clients[i];
                    e.online = false;
                    self.epoch = self.epoch.saturating_add(1);
                    proof {
                        let s0 = old(self).clients@;
                        let s1 = self.clients@;
                        assert(s1[i as int].virtual_ip == ip);
                        assert(cki(s1, ip) == i);
                        assert(cki(s0, ip) == i);
                        assert forall|ip2: u32| ip2 != ip implies self.same_client(
                            *old(self),
                            ip2,
                        ) by {
                            if ck(s0, ip2) {
                                let j = cki(s0, ip2);
                                assert(s1[j].virtual_ip == ip2);
                                assert(cki(s1, ip2) == j);
                                assert(j != i);
                            }
                            if ck(s1, ip2) {
                                let j = cki(s1, ip2);
                                assert(s0[j].virtual_ip == ip2);
                            }
                        }
                    }
                    true
                } else {
                    false
                }
            },
            None => false,
        }
    }

    /// Whether the group holds a client under `ip`, and at which address.
    pub fn address_of_ip(&self, ip: u32) -> (r: Option<PeerAddr>)
        requires
            self.wf(),
        ensures
            r is Some <==> self.has_ip(ip),
            r matches Some(a) ==> a == self.client_of(ip).address,
    {
        let found = self.find_by_ip(ip);
        match found {
            Some(i) => Some(self.clients[i].address),
            None => None,
        }
    }
}

/// Registrations give out distinct virtual IPs: an address that one
/// registration holds (the first registrant's) can never be the address a
/// later registration of a new device receives, because a new device only
/// receives an address that is free at that moment.  Together with the
/// write-guarded group table this keeps any two interleaved registrations
/// from answering with the same virtual IP.
pub proof fn lemma_registrations_distinct(g: NetworkInfo, ip1: u32, ip2: u32)
    requires
        g.has_ip(ip1),
        !g.has_ip(ip2),
    ensures
        ip1 != ip2,
{
}

} // verus!
