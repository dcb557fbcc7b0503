//! Addresses and subnet arithmetic.
//!
//! A transport endpoint is carried as a plain `(ip, port)` pair; IPv4
//! addresses appear v4-mapped in the low 32 bits, exactly as the dual-stack
//! listener reports them.  Subnets are described by a gateway and a
//! contiguous-prefix netmask.

use vstd::prelude::*;

verus! {

/// A transport endpoint: the peer's IP address (IPv4 peers appear v4-mapped,
/// `::ffff:a.b.c.d`) and its port.
#[derive(Clone, Copy, PartialEq, Eq, Hash, Debug, Structural)]
pub struct PeerAddr {
    pub ip: u128,
    pub port: u16,
}

impl View for PeerAddr {
    type V = PeerAddr;

    open spec fn view(&self) -> PeerAddr {
        *self
    }
}

/// Whether `ip` is an IPv4 address carried v4-mapped inside an IPv6 address.
pub open spec fn spec_is_v4_mapped(ip: u128) -> bool {
    ip >> 32 == 0xFFFF
}

pub fn is_v4_mapped(ip: u128) -> (r: bool)
    ensures
        r == spec_is_v4_mapped(ip),
{
    (ip >> 32) == 0xFFFF
}

/// The low 32 bits of an address, meaningful when it is v4-mapped.
pub fn v4_part(ip: u128) -> (r: u32)
    ensures
        r == ip & 0xFFFF_FFFF,
{
    proof {
        assert(ip & 0xFFFF_FFFF <= 0xFFFF_FFFF) by (bit_vector);
    }
    (ip & 0xFFFF_FFFF) as u32
}

/// The broadcast address of the subnet: gateway bits where the mask covers,
/// ones everywhere else.
pub fn calculate_broadcast(ip: u32, netmask: u32) -> (r: u32)
    ensures
        r == ip | !netmask,
{
    ip | !netmask
}

/// A netmask is valid when its binary form is a block of ones followed by a
/// block of zeros: its leading ones and trailing zeros together cover all 32
/// bits.
pub open spec fn spec_is_valid_netmask(netmask: u32) -> bool {
    vstd::std_specs::bits::u32_leading_ones(netmask) + vstd::std_specs::bits::u32_trailing_zeros(
        netmask,
    ) == 32
}

pub fn is_valid_netmask(netmask: u32) -> (r: bool)
    ensures
        r == spec_is_valid_netmask(netmask),
{
    proof {
        vstd::std_specs::bits::axiom_u32_leading_zeros(!netmask);
        vstd::std_specs::bits::axiom_u32_trailing_zeros(netmask);
    }
    let ones: u32 = netmask.leading_ones();
    let zeros: u32 = netmask.trailing_zeros();
    ones + zeros == 32
}

/// The network address of the subnet that `gateway`/`netmask` describe.
pub open spec fn spec_network_of(gateway: u32, netmask: u32) -> u32 {
    gateway & netmask
}

/// A usable host address of the subnet: strictly between the network address
/// and the broadcast address, and not the gateway itself.
pub open spec fn spec_is_usable_host(ip: u32, gateway: u32, netmask: u32) -> bool {
    &&& spec_network_of(gateway, netmask) < ip
    &&& ip < (gateway | !netmask)
    &&& ip != gateway
}

pub fn is_usable_host(ip: u32, gateway: u32, netmask: u32) -> (r: bool)
    ensures
        r == spec_is_usable_host(ip, gateway, netmask),
{
    let network: u32 = gateway & netmask;
    let broadcast: u32 = gateway | !netmask;
    network < ip && ip < broadcast && ip != gateway
}

} // verus!
