//! Packet dispatch: the control plane behind the to-gateway flag, and the
//! data plane that relays or brokers client-to-client traffic.
//!
//! The handler is a pure decision engine: it takes the current time, one
//! parsed packet and its source address, mutates the session cache, and
//! answers with what the transport should do — nothing, one reply to the
//! sender, a forward to another address, or a pair of broker messages.

use vstd::prelude::*;
use crate::cache::{AppCache, GroupIpKey};
use crate::config::ConfigInfo;
use crate::crypto;
use crate::crypto::{RsaCipher, CipherSession};
use crate::net;
use crate::net::PeerAddr;
use crate::wire;
use crate::wire::{NetPacket, MessageType};
use crate::wire::spec_message_of_code;

verus! {

/// Registration was refused: the token is not on the whitelist.
pub const ERR_TOKEN_REJECTED: u8 = 1;

/// Registration was refused: no usable host address is free.
pub const ERR_IP_EXHAUSTED: u8 = 2;

/// The sender has no live binding and must register again.
pub const ERR_NO_CONTEXT: u8 = 3;

/// What the transport should do with the outcome of one packet.
pub enum PacketAction {
    /// Drop silently.
    Discard,
    /// Send this packet back to the source address.
    Reply(NetPacket),
    /// Send this packet to the given address.
    Forward(NetPacket, PeerAddr),
    /// Two broker messages, one to each rendezvous endpoint.
    Broker(NetPacket, PeerAddr, NetPacket, PeerAddr),
}

/// Relies on String::from_utf8; for ASCII input the result holds exactly
/// the input octets as characters.
#[verifier::external_body]
pub fn bytes_to_string(v: &Vec<u8>) -> (r: Option<String>)
    ensures
        r is Some || (exists|i: int| 0 <= i < v@.len() && v@[i] >= 0x80),
        r matches Some(s) ==> ((forall|i: int| 0 <= i < v@.len() ==> v@[i] < 0x80) ==> s@.len()
            == v@.len() && (forall|i: int| 0 <= i < v@.len() ==> s@[i] == v@[i] as char)),
{
    match String::from_utf8(v.clone()) {
        Ok(s) => Some(s),
        Err(_) => None,
    }
}

/// A copy of `m[start .. start + len]`.
pub fn read_slice(m: &Vec<u8>, start: usize, len: usize) -> (r: Vec<u8>)
    requires
        start + len <= m@.len(),
    ensures
        r@ == m@.subrange(start as int, start as int + len as int),
{
    proof {
        vstd::std_specs::vec::axiom_spec_len(m);
    }
    let mut out: Vec<u8> = Vec::new();
    let mut i: usize = 0;
    while i < len
        invariant
            i <= len,
            start + len <= m@.len(),
            m@.len() <= usize::MAX,
            out@ =~= m@.subrange(start as int, start as int + i as int),
        decreases len - i,
    {
        out.push(m[start + i]);
        i += 1;
        proof {
            assert(out@ =~= m@.subrange(start as int, start as int + i as int));
        }
    }
    out
}

/// A registration request: the group token, the device identity, and the
/// optional preferred address (0 for none).
pub struct RegRequest {
    pub token: Vec<u8>,
    pub device_id: Vec<u8>,
    pub name: Vec<u8>,
    pub version: Vec<u8>,
    pub requested_ip: u32,
    pub client_secret: bool,
}

/// The octets of a registration request: four length-prefixed fields, the
/// preferred address, and the client-secret flag.
pub open spec fn spec_reg_bytes(
    token: Seq<u8>,
    device_id: Seq<u8>,
    name: Seq<u8>,
    version: Seq<u8>,
    requested_ip: u32,
    client_secret: bool,
) -> Seq<u8> {
    seq![token.len() as u8] + token + seq![device_id.len() as u8] + device_id + seq![name.len()
        as u8] + name + seq![version.len() as u8] + version + wire::spec_be32_bytes(requested_ip)
        + seq![if client_secret {
        1u8
    } else {
        0u8
    }]
}

/// Encodes a registration request.
pub fn encode_registration(q: &RegRequest) -> (r: Vec<u8>)
    requires
        q.token@.len() <= 255,
        q.device_id@.len() <= 255,
        q.name@.len() <= 255,
        q.version@.len() <= 255,
    ensures
        r@ == spec_reg_bytes(
            q.token@,
            q.device_id@,
            q.name@,
            q.version@,
            q.requested_ip,
            q.client_secret,
        ),
{
    let mut out: Vec<u8> = Vec::new();
    out.push(q.token.len() as u8);
    append_vec(&mut out, &q.token);
    out.push(q.device_id.len() as u8);
    append_vec(&mut out, &q.device_id);
    out.push(q.name.len() as u8);
    append_vec(&mut out, &q.name);
    out.push(q.version.len() as u8);
    append_vec(&mut out, &q.version);
    wire::push_be32(&mut out, q.requested_ip);
    out.push(if q.client_secret {
        1
    } else {
        0
    });
    proof {
        assert(out@ =~= spec_reg_bytes(
            q.token@,
            q.device_id@,
            q.name@,
            q.version@,
            q.requested_ip,
            q.client_secret,
        ));
    }
    out
}

/// Appends all of `src`.
pub fn append_vec(out: &mut Vec<u8>, src: &Vec<u8>)
    ensures
        final(out)@ == old(out)@ + src@,
{
    let mut i: usize = 0;
    while i < src.len()
        invariant
            i <= src@.len(),
            out@ =~= old(out)@ + src@.subrange(0, i as int),
        decreases src@.len() - i,
    {
        out.push(src[i]);
        i += 1;
        proof {
            assert(out@ =~= old(out)@ + src@.subrange(0, i as int));
        }
    }
    proof {
        assert(out@ =~= old(out)@ + src@);
    }
}

/// The structural validity of a registration payload: the four length
/// prefixes fit, the fixed tail follows, and the flag octet is 0 or 1.
pub open spec fn spec_reg_wf(m: Seq<u8>) -> bool {
    &&& m.len() >= 1
    &&& {
        let tl = m[0] as int;
        &&& m.len() >= tl + 2
        &&& {
            let dl = m[1 + tl] as int;
            &&& m.len() >= tl + dl + 3
            &&& {
                let nl = m[tl + dl + 2] as int;
                &&& m.len() >= tl + dl + nl + 4
                &&& {
                    let vl = m[tl + dl + nl + 3] as int;
                    &&& m.len() == tl + dl + nl + vl + 9
                    &&& m[tl + dl + nl + vl + 8] <= 1
                }
            }
        }
    }
}

/// The fields of a well-formed registration payload, read at their offsets.
pub open spec fn spec_reg_token(m: Seq<u8>) -> Seq<u8> {
    m.subrange(1, 1 + m[0] as int)
}

pub open spec fn spec_reg_device(m: Seq<u8>) -> Seq<u8> {
    let tl = m[0] as int;
    m.subrange(tl + 2, tl + 2 + m[tl + 1] as int)
}

pub open spec fn spec_reg_name(m: Seq<u8>) -> Seq<u8> {
    let tl = m[0] as int;
    let dl = m[tl + 1] as int;
    m.subrange(tl + dl + 3, tl + dl + 3 + m[tl + dl + 2] as int)
}

pub open spec fn spec_reg_version(m: Seq<u8>) -> Seq<u8> {
    let tl = m[0] as int;
    let dl = m[tl + 1] as int;
    let nl = m[tl + dl + 2] as int;
    m.subrange(tl + dl + nl + 4, tl + dl + nl + 4 + m[tl + dl + nl + 3] as int)
}

/// The preferred address; 0 means none was asked for.
pub open spec fn spec_reg_requested(m: Seq<u8>) -> u32 {
    let tl = m[0] as int;
    let dl = m[tl + 1] as int;
    let nl = m[tl + dl + 2] as int;
    let vl = m[tl + dl + nl + 3] as int;
    wire::spec_be32(m, tl + dl + nl + vl + 4)
}

pub open spec fn spec_reg_secret(m: Seq<u8>) -> bool {
    let tl = m[0] as int;
    let dl = m[tl + 1] as int;
    let nl = m[tl + dl + 2] as int;
    let vl = m[tl + dl + nl + 3] as int;
    m[tl + dl + nl + vl + 8] == 1
}

/// Every octet is ASCII.
pub open spec fn spec_ascii(s: Seq<u8>) -> bool {
    forall|i: int| 0 <= i < s.len() ==> s[i] < 0x80
}

/// The octets as text, octet for character (meaningful under `spec_ascii`).
pub open spec fn spec_chars(s: Seq<u8>) -> Seq<char> {
    s.map_values(|b: u8| b as char)
}

/// Decodes a registration request; accepted exactly when the octets are one
/// well-formed encoding, and then the fields are the ones at the offsets.
#[verifier::rlimit(60)]
pub fn parse_registration(m: &Vec<u8>) -> (r: Option<RegRequest>)
    ensures
        r is Some <==> spec_reg_wf(m@),
        r matches Some(q) ==> {
            &&& q.token@.len() <= 255
            &&& q.device_id@.len() <= 255
            &&& q.name@.len() <= 255
            &&& q.version@.len() <= 255
            &&& m@ == spec_reg_bytes(
                q.token@,
                q.device_id@,
                q.name@,
                q.version@,
                q.requested_ip,
                q.client_secret,
            )
            &&& q.token@ == spec_reg_token(m@)
            &&& q.device_id@ == spec_reg_device(m@)
            &&& q.name@ == spec_reg_name(m@)
            &&& q.version@ == spec_reg_version(m@)
            &&& q.requested_ip == spec_reg_requested(m@)
            &&& q.client_secret == spec_reg_secret(m@)
        },
{
    if m.len() < 1 {
        return None;
    }
    let tl = m[0] as usize;
    if m.len() < 1 + tl + 1 {
        return None;
    }
    let token = read_slice(m, 1, tl);
    let o1 = 1 + tl;
    let dl = m[o1] as usize;
    if m.len() < o1 + 1 + dl + 1 {
        return None;
    }
    let device_id = read_slice(m, o1 + 1, dl);
    let o2 = o1 + 1 + dl;
    let nl = m[o2] as usize;
    if m.len() < o2 + 1 + nl + 1 {
        return None;
    }
    let name = read_slice(m, o2 + 1, nl);
    let o3 = o2 + 1 + nl;
    let vl = m[o3] as usize;
    if m.len() < o3 + 1 + vl + 5 {
        return None;
    }
    let version = read_slice(m, o3 + 1, vl);
    let o4 = o3 + 1 + vl;
    if m.len() != o4 + 5 {
        return None;
    }
    let requested_ip = wire::be32_at(m, o4);
    let secret_byte = m[o4 + 4];
    let client_secret = secret_byte != 0;
    if secret_byte > 1 {
        return None;
    }
    let q = RegRequest { token, device_id, name, version, requested_ip, client_secret };
    proof {
        wire::lemma_be32_bytes_of(m@, o4 as int);
        assert(q.token@ =~= spec_reg_token(m@));
        assert(q.device_id@ =~= spec_reg_device(m@));
        assert(q.name@ =~= spec_reg_name(m@));
        assert(q.version@ =~= spec_reg_version(m@));
        assert(m@ =~= spec_reg_bytes(
            q.token@,
            q.device_id@,
            q.name@,
            q.version@,
            q.requested_ip,
            q.client_secret,
        ));
    }
    Some(q)
}

/// The octets of a registration answer: the assigned virtual IP, the
/// netmask, the gateway, and the group epoch.
pub open spec fn spec_reg_reply_bytes(ip: u32, netmask: u32, gateway: u32, epoch: u64) -> Seq<u8> {
    wire::spec_be32_bytes(ip) + wire::spec_be32_bytes(netmask) + wire::spec_be32_bytes(gateway)
        + wire::spec_be64_bytes(epoch)
}

pub fn encode_registration_reply(ip: u32, netmask: u32, gateway: u32, epoch: u64) -> (r: Vec<u8>)
    ensures
        r@ == spec_reg_reply_bytes(ip, netmask, gateway, epoch),
        r@.len() == 20,
{
    let mut out: Vec<u8> = Vec::new();
    wire::push_be32(&mut out, ip);
    wire::push_be32(&mut out, netmask);
    wire::push_be32(&mut out, gateway);
    wire::push_be64(&mut out, epoch);
    proof {
        assert(out@ =~= spec_reg_reply_bytes(ip, netmask, gateway, epoch));
    }
    out
}

/// The octets that describe one endpoint to its rendezvous peer.
pub open spec fn spec_addr_bytes(a: PeerAddr) -> Seq<u8> {
    wire::spec_be32_bytes((a.ip >> 96) as u32) + wire::spec_be32_bytes(((a.ip >> 64)
        & 0xFFFF_FFFF) as u32) + wire::spec_be32_bytes(((a.ip >> 32) & 0xFFFF_FFFF) as u32)
        + wire::spec_be32_bytes((a.ip & 0xFFFF_FFFF) as u32) + seq![(a.port >> 8) as u8, (a.port
        & 0xFF) as u8]
}

pub fn encode_peer_addr(a: PeerAddr) -> (r: Vec<u8>)
    ensures
        r@ == spec_addr_bytes(a),
        r@.len() == 18,
{
    proof {
        let ipv = a.ip;
        assert(((ipv >> 96) <= 0xFFFF_FFFF && (ipv >> 64) & 0xFFFF_FFFF <= 0xFFFF_FFFF && (ipv
            >> 32) & 0xFFFF_FFFF <= 0xFFFF_FFFF && ipv & 0xFFFF_FFFF <= 0xFFFF_FFFF))
            by (bit_vector);
    }
    let mut out: Vec<u8> = Vec::new();
    wire::push_be32(&mut out, (a.ip >> 96u128) as u32);
    wire::push_be32(&mut out, ((a.ip >> 64u128) & 0xFFFF_FFFF) as u32);
    wire::push_be32(&mut out, ((a.ip >> 32u128) & 0xFFFF_FFFF) as u32);
    wire::push_be32(&mut out, (a.ip & 0xFFFF_FFFF) as u32);
    out.push((a.port >> 8u16) as u8);
    out.push((a.port & 0xFF) as u8);
    proof {
        assert(out@ =~= spec_addr_bytes(a));
    }
    out
}

/// The four stores a registration answer may not touch when it changes
/// nothing (the cipher store is framed by the caller).
pub open spec fn spec_reg_untouched(pre: AppCache, post: AppCache) -> bool {
    &&& post.virtual_network == pre.virtual_network
    &&& post.ip_session == pre.ip_session
    &&& post.addr_session == pre.addr_session
    &&& post.auth_map == pre.auth_map
}

/// No usable host address is left for this registration: in a live group,
/// the device is new, any preferred address is unusable or taken, and every
/// usable host is taken; in a fresh group, the subnet has no usable host at
/// all.
pub open spec fn spec_reg_exhausted(pre: AppCache, cfg: ConfigInfo, m: Seq<u8>) -> bool {
    let tok = spec_chars(spec_reg_token(m));
    let dev = spec_chars(spec_reg_device(m));
    let req = spec_reg_requested(m);
    if pre.virtual_network.contains_key(tok) {
        let g0 = pre.virtual_network.val_of(tok);
        &&& !g0.has_device(dev)
        &&& (req == 0 || !g0.usable(req) || g0.has_ip(req))
        &&& (forall|h: u32| g0.usable(h) ==> g0.has_ip(h))
    } else {
        forall|h: u32| !net::spec_is_usable_host(h, cfg.gateway, cfg.netmask)
    }
}

/// What an accepted registration owes: a full-subnet failure is answered
/// `IpExhausted` and leaves the group as found; otherwise the reply is a
/// `RegistrationResponse` carrying the grant, the registry rules decide the
/// virtual IP (a known device keeps its address; a free usable preferred
/// address is honoured; else the lowest free host), the member is recorded
/// online at the sender's address, and both bindings are installed.
pub open spec fn spec_reg_accepted(
    pre: AppCache,
    cfg: ConfigInfo,
    post: AppCache,
    m: Seq<u8>,
    now: u64,
    addr: PeerAddr,
    r: PacketAction,
) -> bool {
    let tok = spec_chars(spec_reg_token(m));
    let dev = spec_chars(spec_reg_device(m));
    let req = spec_reg_requested(m);
    &&& (spec_reg_exhausted(pre, cfg, m) ==> ({
        &&& r matches PacketAction::Reply(p) && p.wf() && p.spec_header().msg_type
            == wire::spec_message_code(MessageType::ErrorResponse) && p.spec_payload()
            == seq![ERR_IP_EXHAUSTED]
        &&& post.ip_session == pre.ip_session
        &&& post.addr_session == pre.addr_session
        &&& post.auth_map == pre.auth_map
        &&& (pre.virtual_network.contains_key(tok) ==> post.virtual_network.val_of(tok)
            == pre.virtual_network.val_of(tok))
    }))
    &&& (!spec_reg_exhausted(pre, cfg, m) ==> (r matches PacketAction::Reply(p) && p.wf()
        && p.spec_header().msg_type == wire::spec_message_code(MessageType::RegistrationResponse)
        && ({
        let vip = post.addr_session.val_of(addr).virtual_ip;
        let g1 = post.virtual_network.val_of(tok);
        &&& post.addr_session.contains_key(addr)
        &&& post.addr_session.val_of(addr).group@ == tok
        &&& post.addr_session.val_of(addr).timestamp == now
        &&& p.spec_payload() == spec_reg_reply_bytes(vip, cfg.netmask, cfg.gateway, g1.epoch)
        &&& post.virtual_network.contains_key(tok)
        &&& g1.has_ip(vip)
        &&& g1.client_of(vip).device_id@ == dev
        &&& g1.client_of(vip).address == addr
        &&& g1.client_of(vip).online
        &&& g1.client_of(vip).timestamp == now
        &&& post.ip_session.contains_key((tok, vip))
        &&& post.ip_session.val_of((tok, vip)) == addr
        &&& post.virtual_network.deadline_of(tok) == now.saturating_add(
            post.virtual_network.ttl_of(tok),
        )
        &&& (pre.virtual_network.contains_key(tok) ==> {
            let g0 = pre.virtual_network.val_of(tok);
            &&& (g0.has_device(dev) ==> vip == g0.device_of(dev).virtual_ip)
            &&& (!g0.has_device(dev) ==> !g0.has_ip(vip))
            &&& (!g0.has_device(dev) && req != 0 && g0.usable(req) && !g0.has_ip(req) ==> vip
                == req)
            &&& (!g0.has_device(dev) && (req == 0 || !g0.usable(req) || g0.has_ip(req)) ==> forall|
                h: u32,
            | g0.usable(h) && h < vip ==> g0.has_ip(h))
            &&& g1.epoch == g0.epoch.saturating_add(1)
            &&& forall|ip2: u32| ip2 != vip ==> g1.same_client(g0, ip2)
        })
        &&& (!pre.virtual_network.contains_key(tok) ==> {
            &&& g1.epoch == 1
            &&& g1.gateway_ip == cfg.gateway
            &&& g1.mask_ip == cfg.netmask
            &&& (req != 0 && net::spec_is_usable_host(req, cfg.gateway, cfg.netmask) ==> vip
                == req)
            &&& ((req == 0 || !net::spec_is_usable_host(req, cfg.gateway, cfg.netmask)) ==> forall|
                h: u32,
            | net::spec_is_usable_host(h, cfg.gateway, cfg.netmask) ==> h >= vip)
            &&& forall|ip2: u32| ip2 != vip ==> !g1.has_ip(ip2)
        })
    })))
}

/// The registration plane, whole: a malformed payload is dropped; a token
/// off the whitelist is refused with `TokenRejected` and changes nothing;
/// an allowed token registers under the registry rules (`spec_reg_accepted`);
/// a drop changes nothing.
pub open spec fn spec_reg_plane(
    pre: AppCache,
    cfg: ConfigInfo,
    post: AppCache,
    m: Seq<u8>,
    now: u64,
    addr: PeerAddr,
    r: PacketAction,
) -> bool {
    let tok = spec_chars(spec_reg_token(m));
    &&& (r is Discard ==> spec_reg_untouched(pre, post))
    &&& (!spec_reg_wf(m) ==> r is Discard)
    &&& (spec_reg_wf(m) && spec_ascii(spec_reg_token(m)) && !cfg.spec_token_allowed(tok) ==> ({
        &&& r matches PacketAction::Reply(p) && p.wf() && p.spec_header().msg_type
            == wire::spec_message_code(MessageType::ErrorResponse) && p.spec_payload()
            == seq![ERR_TOKEN_REJECTED]
        &&& spec_reg_untouched(pre, post)
    }))
    &&& (spec_reg_wf(m) && spec_ascii(spec_reg_token(m)) && spec_ascii(spec_reg_device(m))
        && spec_ascii(spec_reg_name(m)) && spec_ascii(spec_reg_version(m))
        && cfg.spec_token_allowed(tok) ==> spec_reg_accepted(pre, cfg, post, m, now, addr, r))
}

/// The packet-processing engine: the session cache and group registry, the
/// validated configuration, and the server keypair.
pub struct PacketHandler {
    pub cache: AppCache,
    pub config: ConfigInfo,
    pub rsa: Option<RsaCipher>,
}

impl PacketHandler {
    pub open spec fn wf(self) -> bool {
        &&& self.cache.wf()
        &&& (self.rsa matches Some(r) ==> r.wf())
    }

    pub fn new(cache: AppCache, config: ConfigInfo, rsa: Option<RsaCipher>) -> (h: PacketHandler)
        requires
            cache.wf(),
            rsa matches Some(r) ==> r.wf(),
        ensures
            h.wf(),
            h.cache == cache,
            h.config == config,
            h.rsa == rsa,
    {
        PacketHandler { cache, config, rsa }
    }

    /// The control-plane answer to a registration payload: the decision
    /// table `spec_reg_plane` — drop on malformed input, `TokenRejected`
    /// off the whitelist, otherwise the registry's allocation rules with a
    /// `RegistrationResponse` grant or `IpExhausted`.
    pub fn handle_registration(&mut self, now: u64, payload: &Vec<u8>, addr: PeerAddr) -> (r:
        PacketAction)
        requires
            old(self).wf(),
        ensures
            final(self).wf(),
            final(self).config == old(self).config,
            final(self).rsa == old(self).rsa,
            final(self).cache.cipher_session == old(self).cache.cipher_session,
            spec_reg_plane(
                old(self).cache,
                old(self).config,
                final(self).cache,
                payload@,
                now,
                addr,
                r,
            ),
    {
        let ghost m = payload@;
        let ghost pre = old(self).cache;
        let ghost cfg = old(self).config;
        let parsed = parse_registration(payload);
        let q = match parsed {
            Some(q) => q,
            None => {
                return PacketAction::Discard;
            },
        };
        let token_s = match bytes_to_string(&q.token) {
            Some(s) => s,
            None => {
                return PacketAction::Discard;
            },
        };
        proof {
            if spec_ascii(spec_reg_token(m)) {
                assert(token_s@ =~= spec_chars(spec_reg_token(m)));
            }
        }
        if !self.config.is_token_allowed(&token_s) {
            let code: Vec<u8> = vec![ERR_TOKEN_REJECTED];
            proof {
                assert(code@ =~= seq![ERR_TOKEN_REJECTED]);
            }
            let reply = NetPacket::build(MessageType::ErrorResponse, 0, 0, 0, 0, &code);
            match reply {
                Ok(p) => {
                    proof {
                        assert(p.spec_payload() == seq![ERR_TOKEN_REJECTED]);
                    }
                    PacketAction::Reply(p)
                },
                Err(_) => {
                    proof {
                        assert(false);
                    }
                    PacketAction::Discard
                },
            }
        } else {
            let device_s = match bytes_to_string(&q.device_id) {
                Some(s) => s,
                None => {
                    return PacketAction::Discard;
                },
            };
            let name_s = match bytes_to_string(&q.name) {
                Some(s) => s,
                None => {
                    return PacketAction::Discard;
                },
            };
            let version_s = match bytes_to_string(&q.version) {
                Some(s) => s,
                None => {
                    return PacketAction::Discard;
                },
            };
            proof {
                if spec_ascii(spec_reg_device(m)) {
                    assert(device_s@ =~= spec_chars(spec_reg_device(m)));
                }
            }
            let requested = if q.requested_ip == 0 {
                None
            } else {
                Some(q.requested_ip)
            };
            let gateway = self.config.gateway;
            let netmask = self.config.netmask;
            let res = self.cache.register_client(
                now,
                &token_s,
                device_s,
                name_s,
                version_s,
                q.client_secret,
                requested,
                addr,
                gateway,
                netmask,
            );
            proof {
                if spec_ascii(spec_reg_token(m)) && spec_ascii(spec_reg_device(m)) {
                    assert(spec_reg_exhausted(pre, cfg, m) == (res is Err)) by {
                        if pre.virtual_network.contains_key(token_s@) {
                            if q.requested_ip == 0 {
                            } else {
                            }
                        }
                    }
                }
            }
            match res {
                Ok(grant) => {
                    let body = encode_registration_reply(
                        grant.virtual_ip,
                        netmask,
                        gateway,
                        grant.epoch,
                    );
                    let reply = NetPacket::build(
                        MessageType::RegistrationResponse,
                        wire::FLAG_TO_GATEWAY | wire::FLAG_REPLY,
                        0,
                        grant.gateway,
                        grant.virtual_ip,
                        &body,
                    );
                    match reply {
                        Ok(p) => {
                            proof {
                                if spec_ascii(spec_reg_token(m)) && spec_ascii(
                                    spec_reg_device(m),
                                ) {
                                    let tok = spec_chars(spec_reg_token(m));
                                    assert(token_s@ == tok);
                                    assert(self.cache.addr_session.val_of(addr).virtual_ip
                                        == grant.virtual_ip);
                                    assert(self.cache.virtual_network.val_of(tok).epoch
                                        == grant.epoch);
                                    assert(p.spec_payload() == spec_reg_reply_bytes(
                                        grant.virtual_ip,
                                        cfg.netmask,
                                        cfg.gateway,
                                        grant.epoch,
                                    ));
                                }
                            }
                            PacketAction::Reply(p)
                        },
                        Err(_) => {
                            proof {
                                assert(false);
                            }
                            PacketAction::Discard
                        },
                    }
                },
                Err(_) => {
                    let code: Vec<u8> = vec![ERR_IP_EXHAUSTED];
                    proof {
                        assert(code@ =~= seq![ERR_IP_EXHAUSTED]);
                    }
                    let reply = NetPacket::build(MessageType::ErrorResponse, 0, 0, 0, 0, &code);
                    match reply {
                        Ok(p) => {
                            proof {
                                assert(p.spec_payload() == seq![ERR_IP_EXHAUSTED]);
                            }
                            PacketAction::Reply(p)
                        },
                        Err(_) => {
                            proof {
                                assert(false);
                            }
                            PacketAction::Discard
                        },
                    }
                },
            }
        }
    }
}

/// Octet-wise equality.
pub fn bytes_eq(a: &Vec<u8>, b: &Vec<u8>) -> (r: bool)
    ensures
        r == (a@ == b@),
{
    if a.len() != b.len() {
        return false;
    }
    let mut i: usize = 0;
    while i < a.len()
        invariant
            i <= a@.len(),
            a@.len() == b@.len(),
            forall|j: int| 0 <= j < i ==> a@[j] == b@[j],
        decreases a@.len() - i,
    {
        if a[i] != b[i] {
            return false;
        }
        i += 1;
    }
    proof {
        assert(a@ =~= b@);
    }
    true
}

/// The octets of a membership list: five per member, the virtual IP then
/// the online flag.
pub open spec fn spec_device_list_bytes(s: Seq<crate::group::ClientEntry>) -> Seq<u8>
    decreases s.len(),
{
    if s.len() == 0 {
        Seq::empty()
    } else {
        spec_device_list_bytes(s.drop_last()) + wire::spec_be32_bytes(s.last().virtual_ip)
            + seq![if s.last().online {
            1u8
        } else {
            0u8
        }]
    }
}

/// Encodes the membership list of a group.
pub fn encode_device_list(g: &crate::group::NetworkInfo) -> (r: Vec<u8>)
    requires
        g.clients@.len() <= 13104,
    ensures
        r@ == spec_device_list_bytes(g.clients@),
        r@.len() == 5 * g.clients@.len(),
{
    let mut out: Vec<u8> = Vec::new();
    let mut i: usize = 0;
    while i < g.clients.len()
        invariant
            i <= g.clients@.len(),
            g.clients@.len() <= 13104,
            out@ == spec_device_list_bytes(g.clients@.take(i as int)),
            out@.len() == 5 * i,
        decreases g.clients@.len() - i,
    {
        wire::push_be32(&mut out, g.clients[i].virtual_ip);
        out.push(
            if g.clients[i].online {
                1
            } else {
                0
            },
        );
        i += 1;
        proof {
            let p = g.clients@.take(i as int);
            assert(p.drop_last() =~= g.clients@.take(i as int - 1));
            assert(p.last() == g.clients@[i as int - 1]);
            assert(out@ =~= spec_device_list_bytes(p));
        }
    }
    proof {
        assert(g.clients@.take(g.clients@.len() as int) =~= g.clients@);
    }
    out
}

/// What the data plane owes: values everywhere are untouched (lookups only
/// renew leases); a sender without full context, or with a forged source
/// address, is dropped; a known destination receives the exact packet
/// octets at its bound address; an unknown destination is answered with an
/// `Unreachable` notice.
pub open spec fn spec_client_outcome(
    pre: AppCache,
    cfg: ConfigInfo,
    post: AppCache,
    packet: NetPacket,
    addr: PeerAddr,
    r: PacketAction,
) -> bool {
    &&& post.addr_session.vals_match(pre.addr_session)
    &&& post.ip_session.vals_match(pre.ip_session)
    &&& post.virtual_network.vals_match(pre.virtual_network)
    &&& post.cipher_session.vals_match(pre.cipher_session)
    &&& post.auth_map == pre.auth_map
    &&& (!PacketHandler::spec_ctx_ok(pre, addr) ==> r is Discard)
    &&& (PacketHandler::spec_ctx_ok(pre, addr) && packet.spec_header().source
        != pre.addr_session.val_of(addr).virtual_ip ==> r is Discard)
    &&& ({
        let b = pre.addr_session.val_of(addr);
        let dst = packet.spec_header().destination;
        PacketHandler::spec_ctx_ok(pre, addr) && packet.spec_header().source == b.virtual_ip
            && spec_message_of_wf(packet) != MessageType::PunchRequest
            && pre.ip_session.contains_key((b.group@, dst)) && (!cfg.finger
            || packet.spec_header().flags & wire::FLAG_ENCRYPTED != 0) ==> (r matches
            PacketAction::Forward(p, a) && p.buf@ == packet.buf@ && a == pre.ip_session.val_of(
            (b.group@, dst),
        ))
    })
    &&& ({
        let b = pre.addr_session.val_of(addr);
        let dst = packet.spec_header().destination;
        PacketHandler::spec_ctx_ok(pre, addr) && packet.spec_header().source == b.virtual_ip
            && spec_message_of_wf(packet) != MessageType::PunchRequest
            && !pre.ip_session.contains_key((b.group@, dst)) && (!cfg.finger
            || packet.spec_header().flags & wire::FLAG_ENCRYPTED != 0) ==> (r matches
            PacketAction::Reply(p) && p.wf() && p.spec_header().msg_type
            == wire::spec_message_code(MessageType::Unreachable))
    })
}

impl PacketHandler {
    /// Whether `addr` currently resolves to a full context: a live forward
    /// binding whose reverse binding and group also are live.
    pub open spec fn spec_ctx_ok(c: AppCache, addr: PeerAddr) -> bool {
        &&& c.addr_session.contains_key(addr)
        &&& c.ip_session.contains_key(
            (c.addr_session.val_of(addr).group@, c.addr_session.val_of(addr).virtual_ip),
        )
        &&& c.virtual_network.contains_key(c.addr_session.val_of(addr).group@)
    }

    /// The data plane (P-relay): a packet that is not for the gateway is
    /// forwarded, bit for bit, to the destination's recorded address.  A
    /// packet without context, with a forged source, or failing the
    /// fingerprint check is dropped; a destination without a live binding
    /// is answered with an `Unreachable` control message; a punch request
    /// is consumed and brokered as a pair of rendezvous messages.
    pub fn handle_client(&mut self, now: u64, packet: &NetPacket, addr: PeerAddr) -> (r:
        PacketAction)
        requires
            old(self).wf(),
            packet.wf(),
        ensures
            final(self).wf(),
            final(self).config == old(self).config,
            final(self).rsa == old(self).rsa,
            spec_client_outcome(
                old(self).cache,
                old(self).config,
                final(self).cache,
                *packet,
                addr,
                r,
            ),
    {
        let ctx = match self.cache.get_context(now, &addr) {
            Some(c) => c,
            None => {
                return PacketAction::Discard;
            },
        };
        if packet.source() != ctx.virtual_ip {
            return PacketAction::Discard;
        }
        if self.config.finger && !packet.is_encrypted() {
            let total = packet.buffer().len();
            if total < 24 {
                return PacketAction::Discard;
            }
            let body = read_slice(packet.buffer(), 0, total - 12);
            let mac = read_slice(packet.buffer(), total - 12, 12);
            let found = self.cache.renew_cipher(now, &addr);
            match found {
                Some(ci) => {
                    let expected = self.cache.cipher_session.val_at(ci).finger_mac(&body);
                    if !bytes_eq(&mac, &expected) {
                        return PacketAction::Discard;
                    }
                },
                None => {
                    return PacketAction::Discard;
                },
            }
        }
        let dst = packet.destination();
        let k2 = GroupIpKey { group: ctx.group.clone(), ip: dst };
        let mt = packet.message_type();
        if matches!(mt, MessageType::PunchRequest) {
            let found = self.cache.ip_session.get_and_renew(now, &k2);
            match found {
                Some(i) => {
                    let peer = *self.cache.ip_session.val_at(i);
                    let to_requester = encode_peer_addr(peer);
                    let to_peer = encode_peer_addr(addr);
                    let p1 = NetPacket::build(
                        MessageType::PunchInfo,
                        0,
                        0,
                        dst,
                        ctx.virtual_ip,
                        &to_requester,
                    );
                    let p2 = NetPacket::build(
                        MessageType::PunchInfo,
                        0,
                        0,
                        ctx.virtual_ip,
                        dst,
                        &to_peer,
                    );
                    match (p1, p2) {
                        (Ok(q1), Ok(q2)) => PacketAction::Broker(q1, addr, q2, peer),
                        _ => {
                            proof {
                                assert(false);
                            }
                            PacketAction::Discard
                        },
                    }
                },
                None => PacketAction::Discard,
            }
        } else {
            let found = self.cache.ip_session.get_and_renew(now, &k2);
            match found {
                Some(i) => {
                    let dst_addr = *self.cache.ip_session.val_at(i);
                    let copy = NetPacket { buf: read_slice(packet.buffer(), 0, total_len(packet)) };
                    proof {
                        assert(copy.buf@ =~= packet.buf@);
                    }
                    PacketAction::Forward(copy, dst_addr)
                },
                None => {
                    let empty: Vec<u8> = Vec::new();
                    let reply = NetPacket::build(
                        MessageType::Unreachable,
                        wire::FLAG_TO_GATEWAY,
                        0,
                        dst,
                        ctx.virtual_ip,
                        &empty,
                    );
                    match reply {
                        Ok(p) => PacketAction::Reply(p),
                        Err(_) => {
                            proof {
                                assert(false);
                            }
                            PacketAction::Discard
                        },
                    }
                },
            }
        }
    }
}

/// Nothing was inserted, removed or rewritten anywhere: every store holds
/// the same keys, values and periods (lookups may have renewed deadlines).
pub open spec fn spec_cache_read_only(pre: AppCache, post: AppCache) -> bool {
    &&& post.virtual_network.vals_match(pre.virtual_network)
    &&& post.ip_session.vals_match(pre.ip_session)
    &&& post.addr_session.vals_match(pre.addr_session)
    &&& post.cipher_session.vals_match(pre.cipher_session)
    &&& post.auth_map == pre.auth_map
}

/// What the handshake owes: without a keypair, or when the payload does not
/// RSA-open to the 36 octets of session key and finger value, the packet is
/// dropped and nothing but the sender's cipher lease may move.  On success
/// the cipher session for `addr` is installed under the opened key with its
/// two-minute lease, every other store is untouched, and the reply is a
/// `SecretKeyResponse` whose payload is the finger value sealed under the
/// new key.
pub open spec fn spec_handshake_outcome(
    pre: AppCache,
    rsa: Option<RsaCipher>,
    post: AppCache,
    m: Seq<u8>,
    now: u64,
    addr: PeerAddr,
    r: PacketAction,
) -> bool {
    &&& (post.virtual_network == pre.virtual_network && post.ip_session == pre.ip_session
        && post.addr_session == pre.addr_session && post.auth_map == pre.auth_map)
    &&& (rsa is None ==> r is Discard && post.cipher_session.vals_match(pre.cipher_session))
    &&& (rsa matches Some(k) ==> (match crypto::rsa_open_of(k.spec_pub_der(), m) {
        Some(sk) => if sk.len() == 36 {
            let key = sk.subrange(0, 32);
            let salt = crypto::sha256_of(key).subrange(0, 4);
            let fv = wire::spec_be32(sk, 32);
            &&& post.cipher_session.contains_key(addr)
            &&& post.cipher_session.val_of(addr).key@ == key
            &&& post.cipher_session.deadline_of(addr) == now.saturating_add(
                crate::cache::CIPHER_SESSION_TTL_MS,
            )
            &&& (forall|a2: PeerAddr|
                a2 != addr ==> post.cipher_session.same_entry(pre.cipher_session, a2))
            &&& r matches PacketAction::Reply(p) && p.wf() && p.spec_header().msg_type
                == wire::spec_message_code(MessageType::SecretKeyResponse) && p.spec_payload()
                == crypto::aes_seal_of(
                key,
                crypto::spec_nonce(salt, 0, 0),
                Seq::empty(),
                wire::spec_be32_bytes(fv),
            )
        } else {
            r is Discard && post.cipher_session.vals_match(pre.cipher_session)
        },
        None => r is Discard && post.cipher_session.vals_match(pre.cipher_session),
    }))
}

/// The control-plane decision table, by message type, over the (possibly
/// decrypted) payload `m`.  Each arm says what is answered and what may
/// change; types not listed — replies and data-plane types arriving at the
/// gateway — are dropped.
pub open spec fn spec_gateway_outcome(
    pre: AppCache,
    cfg: ConfigInfo,
    rsa: Option<RsaCipher>,
    post: AppCache,
    mt: MessageType,
    m: Seq<u8>,
    now: u64,
    addr: PeerAddr,
    r: PacketAction,
) -> bool {
    match mt {
        MessageType::PublicKeyRequest => {
            &&& spec_cache_read_only(pre, post)
            &&& (rsa is None ==> r is Discard)
            &&& ((rsa matches Some(k) && k.spec_pub_der().len() <= wire::MAX_PAYLOAD_LEN) ==> (r
                matches PacketAction::Reply(p) && p.wf() && p.spec_header().msg_type
                == wire::spec_message_code(MessageType::PublicKeyResponse) && p.spec_payload()
                == (rsa->0).spec_pub_der()))
        },
        MessageType::SecretKeyExchange => spec_handshake_outcome(pre, rsa, post, m, now, addr, r),
        MessageType::Registration => {
            &&& (pre.cipher_session.contains_key(addr) ==> spec_reg_plane(
                pre,
                cfg,
                post,
                m,
                now,
                addr,
                r,
            ))
            &&& (!pre.cipher_session.contains_key(addr) ==> (r matches PacketAction::Reply(p)
                && p.wf() && p.spec_header().msg_type == wire::spec_message_code(
                MessageType::ErrorResponse,
            ) && p.spec_payload() == seq![ERR_NO_CONTEXT] && spec_cache_read_only(pre, post)))
        },
        MessageType::PollDeviceList => {
            &&& spec_cache_read_only(pre, post)
            &&& (!PacketHandler::spec_ctx_ok(pre, addr) ==> (r matches PacketAction::Reply(p)
                && p.wf() && p.spec_header().msg_type == wire::spec_message_code(
                MessageType::ErrorResponse,
            ) && p.spec_payload() == seq![ERR_NO_CONTEXT]))
            &&& (PacketHandler::spec_ctx_ok(pre, addr) ==> ({
                let g1 = pre.virtual_network.val_of(pre.addr_session.val_of(addr).group@);
                &&& (m.len() < 8 ==> r is Discard)
                &&& ((m.len() >= 8 && wire::spec_be64(m, 0) == g1.epoch) ==> (r matches
                    PacketAction::Reply(p) && p.wf() && p.spec_header().msg_type
                    == wire::spec_message_code(MessageType::NotModified) && p.spec_payload()
                    == Seq::<u8>::empty()))
                &&& ((m.len() >= 8 && wire::spec_be64(m, 0) != g1.epoch && g1.clients@.len()
                    <= 13104) ==> (r matches PacketAction::Reply(p) && p.wf()
                    && p.spec_header().msg_type == wire::spec_message_code(
                    MessageType::DeviceList,
                ) && p.spec_payload() == spec_device_list_bytes(g1.clients@)))
            }))
        },
        MessageType::Heartbeat => {
            &&& spec_cache_read_only(pre, post)
            &&& (!PacketHandler::spec_ctx_ok(pre, addr) ==> (r matches PacketAction::Reply(p)
                && p.wf() && p.spec_header().msg_type == wire::spec_message_code(
                MessageType::ErrorResponse,
            ) && p.spec_payload() == seq![ERR_NO_CONTEXT]))
            &&& (PacketHandler::spec_ctx_ok(pre, addr) ==> (r matches PacketAction::Reply(p)
                && p.wf() && p.spec_header().msg_type == wire::spec_message_code(
                MessageType::HeartbeatAck,
            ) && p.spec_payload() == Seq::<u8>::empty()))
        },
        MessageType::Leave => {
            &&& r is Discard
            &&& (PacketHandler::spec_ctx_ok(pre, addr) ==> !post.addr_session.contains_key(addr)
                && !post.cipher_session.contains_key(addr))
        },
        MessageType::TimeSync => {
            &&& spec_cache_read_only(pre, post)
            &&& r matches PacketAction::Reply(p) && p.wf() && p.spec_header().msg_type
                == wire::spec_message_code(MessageType::TimeResponse) && p.spec_payload()
                == wire::spec_be64_bytes(now)
        },
        _ => r is Discard && spec_cache_read_only(pre, post),
    }
}

impl PacketHandler {
    /// The handshake: `spec_handshake_outcome` — the payload must RSA-open
    /// to the 32-octet session key and the 4-octet finger value; the cipher
    /// session is installed for two minutes and the acknowledgement is the
    /// finger value sealed under the new key.
    pub fn handle_secret_key(&mut self, now: u64, payload: &Vec<u8>, addr: PeerAddr) -> (r:
        PacketAction)
        requires
            old(self).wf(),
        ensures
            final(self).wf(),
            final(self).config == old(self).config,
            final(self).rsa == old(self).rsa,
            spec_handshake_outcome(
                old(self).cache,
                old(self).rsa,
                final(self).cache,
                payload@,
                now,
                addr,
                r,
            ),
    {
        let rsa = match &self.rsa {
            Some(k) => k,
            None => {
                return PacketAction::Discard;
            },
        };
        let opened = match rsa.decrypt_raw(payload) {
            Some(m) => m,
            None => {
                return PacketAction::Discard;
            },
        };
        let parsed = match crypto::parse_secret_key_payload(&opened) {
            Some(p) => p,
            None => {
                return PacketAction::Discard;
            },
        };
        let (key, finger_value) = parsed;
        let ghost sk = crypto::rsa_open_of((old(self).rsa->0).spec_pub_der(), payload@)->0;
        proof {
            assert(key@ == sk.subrange(0, 32));
            assert(finger_value == wire::spec_be32(sk, 32));
        }
        let session = CipherSession::new(key);
        let mut ack_body: Vec<u8> = Vec::new();
        wire::push_be32(&mut ack_body, finger_value);
        proof {
            assert(ack_body@ =~= wire::spec_be32_bytes(finger_value));
        }
        let empty_aad: Vec<u8> = Vec::new();
        let sealed = session.seal(0, 0, &empty_aad, &ack_body);
        proof {
            assert(session.salt@ == crypto::sha256_of(sk.subrange(0, 32)).subrange(0, 4));
            assert(empty_aad@ =~= Seq::<u8>::empty());
        }
        self.cache.insert_cipher_session(now, addr, session);
        let reply = NetPacket::build(
            MessageType::SecretKeyResponse,
            wire::FLAG_TO_GATEWAY | wire::FLAG_REPLY | wire::FLAG_ENCRYPTED,
            0,
            0,
            0,
            &sealed,
        );
        match reply {
            Ok(p) => PacketAction::Reply(p),
            Err(_) => {
                proof {
                    assert(false);
                }
                PacketAction::Discard
            },
        }
    }

    /// One packet, dispatched: the to-gateway flag separates the control
    /// plane (`spec_gateway_outcome` over the possibly decrypted payload)
    /// from the relayed data plane (`spec_client_outcome`); an encrypted
    /// control payload is opened under the sender's cipher session first
    /// and dropped when that fails.
    pub fn handle(&mut self, now: u64, packet: &NetPacket, addr: PeerAddr) -> (r: PacketAction)
        requires
            old(self).wf(),
            packet.wf(),
        ensures
            final(self).wf(),
            final(self).config == old(self).config,
            final(self).rsa == old(self).rsa,
            packet.spec_header().flags & wire::FLAG_TO_GATEWAY == 0 ==> spec_client_outcome(
                old(self).cache,
                old(self).config,
                final(self).cache,
                *packet,
                addr,
                r,
            ),
            (packet.spec_header().flags & wire::FLAG_TO_GATEWAY != 0 && packet.spec_header().flags
                & wire::FLAG_ENCRYPTED == 0) ==> spec_gateway_outcome(
                old(self).cache,
                old(self).config,
                old(self).rsa,
                final(self).cache,
                spec_message_of_wf(*packet),
                packet.spec_payload(),
                now,
                addr,
                r,
            ),
            (packet.spec_header().flags & wire::FLAG_TO_GATEWAY != 0 && packet.spec_header().flags
                & wire::FLAG_ENCRYPTED != 0) ==> ({
                &&& (!old(self).cache.cipher_session.contains_key(addr) ==> r is Discard
                    && spec_cache_read_only(old(self).cache, final(self).cache))
                &&& (old(self).cache.cipher_session.contains_key(addr) ==> ({
                    let s = old(self).cache.cipher_session.val_of(addr);
                    match crypto::aes_open_of(
                        s.key@,
                        crypto::spec_nonce(
                            s.salt@,
                            packet.spec_header().source,
                            packet.spec_header().seq,
                        ),
                        packet.buf@.subrange(0, wire::HEADER_LEN as int),
                        packet.spec_payload(),
                    ) {
                        Some(m) => spec_gateway_outcome(
                            old(self).cache,
                            old(self).config,
                            old(self).rsa,
                            final(self).cache,
                            spec_message_of_wf(*packet),
                            m,
                            now,
                            addr,
                            r,
                        ),
                        None => r is Discard && spec_cache_read_only(
                            old(self).cache,
                            final(self).cache,
                        ),
                    }
                }))
            }),
    {
        if !packet.is_to_gateway() {
            return self.handle_client(now, packet, addr);
        }
        let ghost pre = old(self).cache;
        let ghost cfg = old(self).config;
        let mt = packet.message_type();
        proof {
            assert(mt == spec_message_of_wf(*packet));
        }
        let payload: Vec<u8> = if packet.is_encrypted() {
            let found = self.cache.renew_cipher(now, &addr);
            match found {
                Some(ci) => {
                    let hdr = read_slice(packet.buffer(), 0, wire::HEADER_LEN);
                    proof {
                        assert(hdr@ =~= packet.buf@.subrange(0, wire::HEADER_LEN as int));
                    }
                    let body = packet.payload_to_vec();
                    let h = packet.header();
                    let opened = self.cache.cipher_session.val_at(ci).open(
                        h.source,
                        h.seq,
                        &hdr,
                        &body,
                    );
                    match opened {
                        Some(m) => m,
                        None => {
                            return PacketAction::Discard;
                        },
                    }
                },
                None => {
                    return PacketAction::Discard;
                },
            }
        } else {
            packet.payload_to_vec()
        };
        let ghost mid = self.cache;
        proof {
            assert(mid.virtual_network == pre.virtual_network && mid.ip_session == pre.ip_session
                && mid.addr_session == pre.addr_session && mid.auth_map == pre.auth_map);
            assert(mid.cipher_session.vals_match(pre.cipher_session));
        }
        match mt {
            MessageType::PublicKeyRequest => {
                match &self.rsa {
                    Some(k) => {
                        let der = k.public_key_der();
                        if der.len() > wire::MAX_PAYLOAD_LEN {
                            return PacketAction::Discard;
                        }
                        let reply = NetPacket::build(
                            MessageType::PublicKeyResponse,
                            wire::FLAG_TO_GATEWAY | wire::FLAG_REPLY,
                            0,
                            0,
                            0,
                            &der,
                        );
                        match reply {
                            Ok(p) => PacketAction::Reply(p),
                            Err(_) => {
                                proof {
                                    assert(false);
                                }
                                PacketAction::Discard
                            },
                        }
                    },
                    None => PacketAction::Discard,
                }
            },
            MessageType::SecretKeyExchange => {
                let res = self.handle_secret_key(now, &payload, addr);
                proof {
                    let post = self.cache;
                    if self.rsa is Some {
                        let opened = crypto::rsa_open_of(
                            (self.rsa->0).spec_pub_der(),
                            payload@,
                        );
                        if opened is Some && opened->0.len() == 36 {
                            assert forall|a2: PeerAddr|
                                a2 != addr implies post.cipher_session.same_entry(
                                pre.cipher_session,
                                a2,
                            ) by {
                                assert(post.cipher_session.same_entry(mid.cipher_session, a2));
                                assert(mid.cipher_session.same_entry(pre.cipher_session, a2));
                            }
                        } else {
                            crate::expire::lemma_vals_match_trans(
                                pre.cipher_session,
                                mid.cipher_session,
                                post.cipher_session,
                            );
                        }
                    } else {
                        crate::expire::lemma_vals_match_trans(
                            pre.cipher_session,
                            mid.cipher_session,
                            post.cipher_session,
                        );
                    }
                }
                res
            },
            MessageType::Registration => {
                proof {
                    assert(self.cache.cipher_session.contains_key(addr)
                        == pre.cipher_session.contains_key(addr));
                }
                let has_cipher = match self.cache.cipher_session.get_val(&addr) {
                    Some(_) => true,
                    None => false,
                };
                if has_cipher {
                    self.handle_registration(now, &payload, addr)
                } else {
                    self.reply_error(ERR_NO_CONTEXT)
                }
            },
            MessageType::PollDeviceList => {
                let ghost b = pre.addr_session.val_of(addr);
                let ctx = match self.cache.get_context(now, &addr) {
                    Some(c) => c,
                    None => {
                        let out = self.reply_error(ERR_NO_CONTEXT);
                        proof {
                            lemma_read_only_cipher_step(pre, mid, self.cache);
                        }
                        return out;
                    },
                };
                proof {
                    assert(ctx.group@ == b.group@);
                }
                if payload.len() < 8 {
                    proof {
                        lemma_read_only_cipher_step(pre, mid, self.cache);
                    }
                    return PacketAction::Discard;
                }
                let known = wire::be64_at(&payload, 0);
                let ghost after_ctx = self.cache;
                let found = self.cache.virtual_network.get_and_renew(now, &ctx.group);
                match found {
                    Some(gi) => {
                        proof {
                            assert(self.cache.virtual_network.val_of(b.group@)
                                == pre.virtual_network.val_of(b.group@));
                            lemma_read_only_two_steps(pre, mid, after_ctx, self.cache);
                        }
                        let g = self.cache.virtual_network.val_at(gi);
                        if g.epoch == known {
                            let empty: Vec<u8> = Vec::new();
                            self.reply_of(MessageType::NotModified, &empty)
                        } else {
                            if g.clients.len() > 13104 {
                                return PacketAction::Discard;
                            }
                            let body = encode_device_list(g);
                            proof {
                                assert(body@.len() <= wire::MAX_PAYLOAD_LEN);
                            }
                            self.reply_of(MessageType::DeviceList, &body)
                        }
                    },
                    None => {
                        proof {
                            assert(false);
                        }
                        self.reply_error(ERR_NO_CONTEXT)
                    },
                }
            },
            MessageType::Heartbeat => {
                let ctx = match self.cache.get_context(now, &addr) {
                    Some(c) => c,
                    None => {
                        let out = self.reply_error(ERR_NO_CONTEXT);
                        proof {
                            lemma_read_only_cipher_step(pre, mid, self.cache);
                        }
                        return out;
                    },
                };
                proof {
                    lemma_read_only_cipher_step(pre, mid, self.cache);
                }
                let empty: Vec<u8> = Vec::new();
                self.reply_of(MessageType::HeartbeatAck, &empty)
            },
            MessageType::Leave => {
                let ctx = match self.cache.get_context(now, &addr) {
                    Some(c) => c,
                    None => {
                        return PacketAction::Discard;
                    },
                };
                let _ = self.cache.evict_ip_binding(now, &ctx.group, ctx.virtual_ip, addr);
                let k2 = GroupIpKey { group: ctx.group, ip: ctx.virtual_ip };
                let _ = self.cache.ip_session.remove(&k2);
                self.cache.drop_address(&addr);
                PacketAction::Discard
            },
            MessageType::TimeSync => {
                let mut body: Vec<u8> = Vec::new();
                wire::push_be64(&mut body, now);
                proof {
                    assert(body@ =~= wire::spec_be64_bytes(now));
                    lemma_read_only_cipher_step(pre, mid, self.cache);
                }
                self.reply_of(MessageType::TimeResponse, &body)
            },
            _ => PacketAction::Discard,
        }
    }

    /// A control-plane reply with the given type and payload.
    fn reply_of(&self, t: MessageType, body: &Vec<u8>) -> (r: PacketAction)
        requires
            body@.len() <= wire::MAX_PAYLOAD_LEN,
        ensures
            r matches PacketAction::Reply(p) && p.wf() && p.spec_header().msg_type
                == wire::spec_message_code(t) && p.spec_payload() == body@,
    {
        let reply = NetPacket::build(
            t,
            wire::FLAG_TO_GATEWAY | wire::FLAG_REPLY,
            0,
            0,
            0,
            body,
        );
        match reply {
            Ok(p) => PacketAction::Reply(p),
            Err(_) => {
                proof {
                    assert(false);
                }
                PacketAction::Discard
            },
        }
    }

    /// A one-octet error reply.
    fn reply_error(&self, code: u8) -> (r: PacketAction)
        ensures
            r matches PacketAction::Reply(p) && p.wf() && p.spec_header().msg_type
                == wire::spec_message_code(MessageType::ErrorResponse) && p.spec_payload()
                == seq![code],
    {
        let body: Vec<u8> = vec![code];
        proof {
            assert(body@ =~= seq![code]);
        }
        let reply = NetPacket::build(MessageType::ErrorResponse, 0, 0, 0, 0, &body);
        match reply {
            Ok(p) => PacketAction::Reply(p),
            Err(_) => {
                proof {
                    assert(false);
                }
                PacketAction::Discard
            },
        }
    }
}

/// A cipher-lease renewal between `pre` and `mid`, then a read-only step:
/// the whole is read-only.
proof fn lemma_read_only_cipher_step(pre: AppCache, mid: AppCache, post: AppCache)
    requires
        mid.virtual_network == pre.virtual_network,
        mid.ip_session == pre.ip_session,
        mid.addr_session == pre.addr_session,
        mid.auth_map == pre.auth_map,
        mid.cipher_session.vals_match(pre.cipher_session),
        spec_cache_read_only(mid, post),
    ensures
        spec_cache_read_only(pre, post),
{
    crate::expire::lemma_vals_match_trans(
        pre.cipher_session,
        mid.cipher_session,
        post.cipher_session,
    );
}

/// Two read-only steps after a cipher-lease renewal: the whole is
/// read-only.
proof fn lemma_read_only_two_steps(pre: AppCache, mid: AppCache, mid2: AppCache, post: AppCache)
    requires
        mid.virtual_network == pre.virtual_network,
        mid.ip_session == pre.ip_session,
        mid.addr_session == pre.addr_session,
        mid.auth_map == pre.auth_map,
        mid.cipher_session.vals_match(pre.cipher_session),
        spec_cache_read_only(mid, mid2),
        spec_cache_read_only(mid2, post),
    ensures
        spec_cache_read_only(pre, post),
{
    crate::expire::lemma_vals_match_trans(
        mid.cipher_session,
        mid2.cipher_session,
        post.cipher_session,
    );
    crate::expire::lemma_vals_match_trans(
        pre.cipher_session,
        mid.cipher_session,
        post.cipher_session,
    );
    crate::expire::lemma_vals_match_trans(
        mid.virtual_network,
        mid2.virtual_network,
        post.virtual_network,
    );
    crate::expire::lemma_vals_match_trans(pre.virtual_network, mid.virtual_network, post.virtual_network);
    crate::expire::lemma_vals_match_trans(mid.ip_session, mid2.ip_session, post.ip_session);
    crate::expire::lemma_vals_match_trans(pre.ip_session, mid.ip_session, post.ip_session);
    crate::expire::lemma_vals_match_trans(mid.addr_session, mid2.addr_session, post.addr_session);
    crate::expire::lemma_vals_match_trans(pre.addr_session, mid.addr_session, post.addr_session);
}

/// The message type of a well-formed packet.
pub open spec fn spec_message_of_wf(p: NetPacket) -> MessageType {
    spec_message_of_code(p.spec_header().msg_type)->0
}

/// A copy of the whole buffer's length.
pub fn total_len(p: &NetPacket) -> (r: usize)
    ensures
        r == p.buf@.len(),
{
    p.buf.len()
}

} // verus!
