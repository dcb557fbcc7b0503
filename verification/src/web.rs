//! The admin backend's decision logic: login throttling and tokens, and
//! read-only snapshots of the group table.  The HTTP plumbing lives outside;
//! it hands requests here as plain values.

use vstd::prelude::*;
use crate::cache::{AppCache, AUTH_TTL_MS};
use crate::config::ConfigInfo;
use crate::net::PeerAddr;

verus! {

/// Three failures arm the throttle; it releases a minute after the last.
pub const LOGIN_FAIL_LIMIT: usize = 3;

pub const LOGIN_THROTTLE_MS: u64 = 60 * 1000;

/// The paths that demand a bearer token.
pub struct AuthApi {
    pub api_set: Vec<String>,
}

impl AuthApi {
    pub fn requires_auth(&self, path: &String) -> (r: bool)
        ensures
            r == exists|i: int| 0 <= i < self.api_set@.len() && self.api_set@[i]@ == path@,
    {
        let mut i: usize = 0;
        while i < self.api_set.len()
            invariant
                i <= self.api_set@.len(),
                forall|j: int| 0 <= j < i ==> self.api_set@[j]@ != path@,
            decreases self.api_set@.len() - i,
        {
            if self.api_set[i].eq(path) {
                return true;
            }
            i += 1;
        }
        false
    }
}

/// The two guarded endpoints: the group listing and the group details.
pub fn auth_api_set() -> (r: AuthApi)
    ensures
        r.api_set@.len() == 2,
        r.api_set@[0]@ == "/group_info"@,
        r.api_set@[1]@ == "/group_list"@,
{
    let mut api_set: Vec<String> = Vec::new();
    api_set.push("/group_info".to_string());
    api_set.push("/group_list".to_string());
    AuthApi { api_set }
}

/// Relies on uuid::Uuid::new_v4 and its simple formatting: a fresh random
/// identifier rendered as 32 hexadecimal characters.
#[verifier::external_body]
pub fn new_auth_token() -> (r: String)
    ensures
        r@.len() == 32,
{
    uuid::Uuid::new_v4().simple().to_string()
}

pub struct LoginData {
    pub username: String,
    pub password: String,
}

/// A member of a group, as the backend reports it.
pub struct ClientInfo {
    pub device_id: String,
    pub version: String,
    pub name: String,
    pub client_secret: bool,
    pub server_secret: bool,
    pub address: PeerAddr,
    pub online: bool,
    pub virtual_ip: u32,
    pub up_stream: u64,
    pub down_stream: u64,
    pub last_join_time: u64,
}

/// A group, as the backend reports it: the subnet, the epoch, and the
/// members ordered by virtual IP.
pub struct NetworkInfoView {
    pub network_ip: u32,
    pub mask_ip: u32,
    pub gateway_ip: u32,
    pub epoch: u64,
    pub clients: Vec<ClientInfo>,
}

pub struct GroupList {
    pub group_list: Vec<String>,
}

/// The output row for one group member matches the stored entry.
pub open spec fn spec_row_matches(row: ClientInfo, e: crate::group::ClientEntry) -> bool {
    &&& row.device_id@ == e.device_id@
    &&& row.version@ == e.version@
    &&& row.name@ == e.name@
    &&& row.client_secret == e.client_secret
    &&& row.server_secret == e.server_secret
    &&& row.address == e.address
    &&& row.online == e.online
    &&& row.virtual_ip == e.virtual_ip
    &&& row.last_join_time == e.last_join_time
}

/// The admin backend: the shared session cache, the configuration with the
/// backend credentials, and the login throttle state.
pub struct VntsWebService {
    pub cache: AppCache,
    pub config: ConfigInfo,
    pub fail_time: u64,
    pub fail_count: usize,
}

impl VntsWebService {
    pub open spec fn wf(self) -> bool {
        self.cache.wf()
    }

    pub fn new(cache: AppCache, config: ConfigInfo) -> (s: VntsWebService)
        requires
            cache.wf(),
        ensures
            s.wf(),
            s.cache == cache,
            s.config == config,
            s.fail_count == 0,
    {
        VntsWebService { cache, config, fail_time: 0, fail_count: 0 }
    }

    /// Whether the throttle is armed: enough recent failures.
    pub open spec fn spec_throttled(self, now: u64) -> bool {
        self.fail_count >= LOGIN_FAIL_LIMIT && now < self.fail_time.saturating_add(
            LOGIN_THROTTLE_MS,
        )
    }

    /// One login attempt.  Under throttle every attempt fails.  With the
    /// backend configured and the credentials right, a fresh 32-character
    /// token is installed for a day and handed back; otherwise the failure
    /// is counted and the throttle clock reset.
    pub fn login(&mut self, now: u64, data: &LoginData) -> (r: Option<String>)
        requires
            old(self).wf(),
        ensures
            final(self).wf(),
            final(self).config == old(self).config,
            r is Some <==> (!old(self).spec_throttled(now) && (old(self).config.web_manager
                matches Some(w) && data.username@ == w.username@ && data.password@
                == w.password@)),
            r matches Some(tk) ==> {
                &&& tk@.len() == 32
                &&& final(self).cache.auth_map.contains_key(tk@)
                &&& final(self).cache.auth_map.deadline_of(tk@) == now.saturating_add(AUTH_TTL_MS)
                &&& final(self).fail_count == 0
            },
            r is None ==> final(self).cache == old(self).cache,
    {
        if self.fail_count >= LOGIN_FAIL_LIMIT && now < self.fail_time.saturating_add(
            LOGIN_THROTTLE_MS,
        ) {
            return None;
        }
        let ok = match &self.config.web_manager {
            Some(w) => data.username.eq(&w.username) && data.password.eq(&w.password),
            None => false,
        };
        if ok {
            self.fail_count = 0;
            let token = new_auth_token();
            self.cache.auth_map.insert(now, token.clone(), true, AUTH_TTL_MS);
            Some(token)
        } else {
            self.fail_time = now;
            self.fail_count = if self.fail_count < usize::MAX {
                self.fail_count + 1
            } else {
                self.fail_count
            };
            None
        }
    }

    /// Whether a bearer token is live.
    pub fn check_auth(&self, auth: &String) -> (r: bool)
        requires
            self.wf(),
        ensures
            r == self.cache.auth_map.contains_key(auth@),
    {
        match self.cache.auth_map.get_val(auth) {
            Some(_) => true,
            None => false,
        }
    }

    /// The names of the live groups, in table order.
    pub fn group_list(&self) -> (r: GroupList)
        requires
            self.wf(),
        ensures
            r.group_list@.len() == self.cache.virtual_network.entries@.len(),
            forall|i: int|
                0 <= i < r.group_list@.len() ==> r.group_list@[i]@
                    == self.cache.virtual_network.entries@[i].key@,
    {
        let mut group_list: Vec<String> = Vec::new();
        let mut i: usize = 0;
        while i < self.cache.virtual_network.entries.len()
            invariant
                i <= self.cache.virtual_network.entries@.len(),
                group_list@.len() == i,
                forall|j: int|
                    0 <= j < i ==> group_list@[j]@
                        == self.cache.virtual_network.entries@[j].key@,
            decreases self.cache.virtual_network.entries@.len() - i,
        {
            group_list.push(self.cache.virtual_network.entries[i].key.clone());
            i += 1;
        }
        GroupList { group_list }
    }

    /// The details of one group: its subnet, epoch, and members ordered by
    /// virtual IP.  Every reported row matches a stored member, rows repeat
    /// no virtual IP, and every member is reported.
    #[verifier::rlimit(100)]
    pub fn group_info(&self, group: &String) -> (r: Option<NetworkInfoView>)
        requires
            self.wf(),
        ensures
            r is Some <==> self.cache.virtual_network.contains_key(group@),
            r matches Some(v) ==> {
                let g = self.cache.virtual_network.val_of(group@);
                &&& v.network_ip == g.network_ip
                &&& v.mask_ip == g.mask_ip
                &&& v.gateway_ip == g.gateway_ip
                &&& v.epoch == g.epoch
                &&& v.clients@.len() == g.clients@.len()
                &&& forall|i: int, j: int|
                    0 <= i < j < v.clients@.len() ==> v.clients@[i].virtual_ip
                        <= v.clients@[j].virtual_ip
                &&& forall|i: int|
                    0 <= i < v.clients@.len() ==> g.has_ip(#[trigger] v.clients@[i].virtual_ip)
                        && spec_row_matches(v.clients@[i], g.client_of(v.clients@[i].virtual_ip))
                &&& forall|i: int, j: int|
                    0 <= i < j < v.clients@.len() ==> v.clients@[i].virtual_ip
                        != v.clients@[j].virtual_ip
            },
    {
        let found = self.cache.virtual_network.get_val(group);
        let g = match found {
            Some(g) => g,
            None => {
                return None;
            },
        };
        let mut rows: Vec<ClientInfo> = Vec::new();
        let mut i: usize = 0;
        while i < g.clients.len()
            invariant
                i <= g.clients@.len(),
                g.wf(),
                rows@.len() == i,
                forall|a: int, b: int|
                    0 <= a < b < rows@.len() ==> rows@[a].virtual_ip <= rows@[b].virtual_ip,
                forall|a: int|
                    0 <= a < rows@.len() ==> crate::group::ck(
                        g.clients@,
                        #[trigger] rows@[a].virtual_ip,
                    ) && spec_row_matches(
                        rows@[a],
                        crate::group::ce(g.clients@, rows@[a].virtual_ip),
                    ),
                forall|a: int, b: int|
                    0 <= a < b < rows@.len() ==> rows@[a].virtual_ip != rows@[b].virtual_ip,
                forall|a: int|
                    0 <= a < rows@.len() ==> exists|c: int|
                        0 <= c < i && g.clients@[c].virtual_ip == #[trigger] rows@[
                            a
                        ].virtual_ip,
            decreases g.clients@.len() - i,
        {
            let e = &g.clients[i];
            let (up_s, down_s): (u64, u64) = match &e.client_status {
                Some(st) => (st.up_stream, st.down_stream),
                None => (0, 0),
            };
            let row = ClientInfo {
                device_id: e.device_id.clone(),
                version: e.version.clone(),
                name: e.name.clone(),
                client_secret: e.client_secret,
                server_secret: e.server_secret,
                address: e.address,
                online: e.online,
                virtual_ip: e.virtual_ip,
                up_stream: up_s,
                down_stream: down_s,
                last_join_time: e.last_join_time,
            };
            proof {
                assert(crate::group::cki(g.clients@, g.clients@[i as int].virtual_ip) == i);
            }
            let mut pos: usize = 0;
            while pos < rows.len() && rows[pos].virtual_ip <= row.virtual_ip
                invariant
                    pos <= rows@.len(),
                    forall|a: int| 0 <= a < pos ==> rows@[a].virtual_ip <= row.virtual_ip,
                decreases rows@.len() - pos,
            {
                pos += 1;
            }
            let ghost rows0 = rows@;
            rows.insert(pos, row);
            proof {
                assert(rows@ =~= rows0.insert(pos as int, row));
                assert forall|a: int, b: int|
                    0 <= a < b < rows@.len() implies rows@[a].virtual_ip
                    <= rows@[b].virtual_ip by {
                    if b < pos {
                    } else if a > pos {
                    } else if b == pos {
                        assert(rows@[a] == rows0[a]);
                    } else if a == pos {
                        assert(rows@[b] == rows0[b - 1]);
                        assert(pos < rows0.len() ==> rows0[pos as int].virtual_ip
                            > row.virtual_ip || pos == rows0.len());
                    }
                }
            }
            i += 1;
            proof {
                assert forall|a: int|
                    0 <= a < rows@.len() implies crate::group::ck(
                    g.clients@,
                    #[trigger] rows@[a].virtual_ip,
                ) && spec_row_matches(
                    rows@[a],
                    crate::group::ce(g.clients@, rows@[a].virtual_ip),
                ) by {
                    if a < pos {
                        assert(rows@[a] == rows0[a]);
                    } else if a > pos {
                        assert(rows@[a] == rows0[a - 1]);
                    }
                }
                assert forall|a: int, b: int|
                    0 <= a < b < rows@.len() implies rows@[a].virtual_ip != rows@[
                    b
                ].virtual_ip by {
                    let va = if a < pos {
                        rows0[a]
                    } else if a > pos {
                        rows0[a - 1]
                    } else {
                        row
                    };
                    let vb = if b < pos {
                        rows0[b]
                    } else if b > pos {
                        rows0[b - 1]
                    } else {
                        row
                    };
                    assert(rows@[a] == va && rows@[b] == vb);
                    if a == pos {
                        let c = choose|c: int|
                            0 <= c < i - 1 && g.clients@[c].virtual_ip == vb.virtual_ip;
                        assert(g.clients@[c].virtual_ip != g.clients@[i as int - 1].virtual_ip);
                    } else if b == pos {
                        let c = choose|c: int|
                            0 <= c < i - 1 && g.clients@[c].virtual_ip == va.virtual_ip;
                        assert(g.clients@[c].virtual_ip != g.clients@[i as int - 1].virtual_ip);
                    }
                }
                assert forall|a: int|
                    0 <= a < rows@.len() implies exists|c: int|
                        0 <= c < i && g.clients@[c].virtual_ip == #[trigger] rows@[
                            a
                        ].virtual_ip by {
                    if a < pos {
                        assert(rows@[a] == rows0[a]);
                    } else if a > pos {
                        assert(rows@[a] == rows0[a - 1]);
                    } else {
                        assert(g.clients@[i as int - 1].virtual_ip == rows@[a].virtual_ip);
                    }
                }
            }
        }
        Some(
            NetworkInfoView {
                network_ip: g.network_ip,
                mask_ip: g.mask_ip,
                gateway_ip: g.gateway_ip,
                epoch: g.epoch,
                clients: rows,
            },
        )
    }
}

} // verus!
