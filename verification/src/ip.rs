//! IP addresses and networks as plain integers.

use vstd::prelude::*;

verus! {

/// An IPv4 or IPv6 address, held as its big-endian integer value.
#[derive(Clone, Copy, Debug, PartialEq, Eq, Structural, Hash)]
pub enum IpAddress {
    V4(u32),
    V6(u128),
}

/// The integer value of the IPv4 address `a.b.c.d`.
pub open spec fn v4_bits(a: u8, b: u8, c: u8, d: u8) -> u32 {
    ((a as u32) << 24) | ((b as u32) << 16) | ((c as u32) << 8) | (d as u32)
}

/// The netmask of an IPv4 prefix length: the top `prefix` bits set.
pub open spec fn v4_mask(prefix: u8) -> u32 {
    if prefix == 0 {
        0u32
    } else {
        0xffff_ffffu32 << ((32 - prefix) as u32)
    }
}

/// The netmask of an IPv6 prefix length: the top `prefix` bits set.
pub open spec fn v6_mask(prefix: u8) -> u128 {
    if prefix == 0 {
        0u128
    } else {
        0xffff_ffff_ffff_ffff_ffff_ffff_ffff_ffffu128 << ((128 - prefix) as u128)
    }
}

/// Whether `address/prefix` names an IPv4 network: the prefix fits and no host
/// bit of the address is set.
pub open spec fn v4_network_valid(address: u32, prefix: u8) -> bool {
    prefix <= 32 && address & v4_mask(prefix) == address
}

/// Whether `address/prefix` names an IPv6 network.
pub open spec fn v6_network_valid(address: u128, prefix: u8) -> bool {
    prefix <= 128 && address & v6_mask(prefix) == address
}

/// Whether `ip` lies in the IPv4 network `address/prefix`.
pub open spec fn v4_in_network(address: u32, prefix: u8, ip: u32) -> bool {
    ip & v4_mask(prefix) == address
}

/// Whether `ip` lies in the IPv6 network `address/prefix`.
pub open spec fn v6_in_network(address: u128, prefix: u8, ip: u128) -> bool {
    ip & v6_mask(prefix) == address
}

impl IpAddress {
    /// The IPv4 address `a.b.c.d`.
    pub fn v4(a: u8, b: u8, c: u8, d: u8) -> (ip: IpAddress)
        ensures
            ip == IpAddress::V4(v4_bits(a, b, c, d)),
    {
        IpAddress::V4(((a as u32) << 24) | ((b as u32) << 16) | ((c as u32) << 8) | (d as u32))
    }

    /// Whether this is an IPv4 address.
    pub open spec fn spec_is_v4(&self) -> bool {
        *self is V4
    }

    /// Whether this is an IPv4 address.
    #[verifier::when_used_as_spec(spec_is_v4)]
    pub fn is_v4(&self) -> (b: bool)
        ensures
            b == self.spec_is_v4(),
    {
        match self {
            IpAddress::V4(_) => true,
            IpAddress::V6(_) => false,
        }
    }

    /// Whether the two addresses are the same.
    pub fn same(&self, other: &IpAddress) -> (b: bool)
        ensures
            b == (*self == *other),
    {
        match (self, other) {
            (IpAddress::V4(a), IpAddress::V4(b)) => *a == *b,
            (IpAddress::V6(a), IpAddress::V6(b)) => *a == *b,
            _ => false,
        }
    }
}

/// An IP network in CIDR form: a network address and a prefix length.
#[derive(Clone, Copy, Debug, PartialEq, Eq, Structural, Hash)]
pub enum IpNetwork {
    /// An IPv4 network address and its prefix length.
    V4(u32, u8),
    /// An IPv6 network address and its prefix length.
    V6(u128, u8),
}

/// Asks `ip_network::Ipv4Network::contains` whether `ip` lies in the network.
/// The contract claims what that method computes: the address, masked to the
/// prefix, equals the network address.
#[verifier::external_body]
fn v4_network_contains(address: u32, prefix: u8, ip: u32) -> (b: bool)
    requires
        v4_network_valid(address, prefix),
    ensures
        b == v4_in_network(address, prefix, ip),
{
    match ip_network::Ipv4Network::new(address.into(), prefix) {
        Ok(network) => network.contains(ip.into()),
        Err(_) => false,
    }
}

/// Asks `ip_network::Ipv6Network::contains` whether `ip` lies in the network.
/// The contract claims what that method computes: the address, masked to the
/// prefix, equals the network address.
#[verifier::external_body]
fn v6_network_contains(address: u128, prefix: u8, ip: u128) -> (b: bool)
    requires
        v6_network_valid(address, prefix),
    ensures
        b == v6_in_network(address, prefix, ip),
{
    match ip_network::Ipv6Network::new(address.into(), prefix) {
        Ok(network) => network.contains(ip.into()),
        Err(_) => false,
    }
}

impl IpNetwork {
    /// A network is well formed when its prefix length fits its family and its
    /// address has no host bit set.
    pub open spec fn wf(&self) -> bool {
        match *self {
            IpNetwork::V4(address, prefix) => v4_network_valid(address, prefix),
            IpNetwork::V6(address, prefix) => v6_network_valid(address, prefix),
        }
    }

    /// Whether `ip` lies in this network. An address of the other family never
    /// does.
    pub open spec fn spec_contains(&self, ip: IpAddress) -> bool {
        match (*self, ip) {
            (IpNetwork::V4(address, prefix), IpAddress::V4(bits)) => v4_in_network(
                address,
                prefix,
                bits,
            ),
            (IpNetwork::V6(address, prefix), IpAddress::V6(bits)) => v6_in_network(
                address,
                prefix,
                bits,
            ),
            _ => false,
        }
    }

    /// The prefix length.
    pub open spec fn spec_prefix(&self) -> u8 {
        match *self {
            IpNetwork::V4(_, prefix) => prefix,
            IpNetwork::V6(_, prefix) => prefix,
        }
    }

    /// The network `address/prefix`, or `None` if the prefix is too long for
    /// the address family or the address has host bits set.
    pub fn new(address: IpAddress, prefix: u8) -> (network: Option<IpNetwork>)
        ensures
            match address {
                IpAddress::V4(bits) => network == if v4_network_valid(bits, prefix) {
                    Some(IpNetwork::V4(bits, prefix))
                } else {
                    None
                },
                IpAddress::V6(bits) => network == if v6_network_valid(bits, prefix) {
                    Some(IpNetwork::V6(bits, prefix))
                } else {
                    None
                },
            },
    {
        match address {
            IpAddress::V4(bits) => {
                if prefix > 32 {
                    return None;
                }
                let mask: u32 = if prefix == 0 {
                    0
                } else {
                    0xffff_ffffu32 << ((32 - prefix) as u32)
                };
                if bits & mask == bits {
                    Some(IpNetwork::V4(bits, prefix))
                } else {
                    None
                }
            },
            IpAddress::V6(bits) => {
                if prefix > 128 {
                    return None;
                }
                let mask: u128 = if prefix == 0 {
                    0
                } else {
                    0xffff_ffff_ffff_ffff_ffff_ffff_ffff_ffffu128 << ((128 - prefix) as u128)
                };
                if bits & mask == bits {
                    Some(IpNetwork::V6(bits, prefix))
                } else {
                    None
                }
            },
        }
    }

    /// Whether the network is well formed.
    #[verifier::when_used_as_spec(wf)]
    pub fn is_valid(&self) -> (valid: bool)
        ensures
            valid == self.wf(),
    {
        match self {
            IpNetwork::V4(address, prefix) => IpNetwork::new(IpAddress::V4(*address), *prefix).is_some(),
            IpNetwork::V6(address, prefix) => IpNetwork::new(IpAddress::V6(*address), *prefix).is_some(),
        }
    }

    /// The prefix length.
    #[verifier::when_used_as_spec(spec_prefix)]
    pub fn prefix(&self) -> (p: u8)
        ensures
            p == self.spec_prefix(),
    {
        match self {
            IpNetwork::V4(_, prefix) => *prefix,
            IpNetwork::V6(_, prefix) => *prefix,
        }
    }

    /// Whether `ip` lies in this network.
    #[verifier::when_used_as_spec(spec_contains)]
    pub fn contains(&self, ip: IpAddress) -> (b: bool)
        requires
            self.wf(),
        ensures
            b == self.spec_contains(ip),
    {
        match (self, ip) {
            (IpNetwork::V4(address, prefix), IpAddress::V4(bits)) => v4_network_contains(
                *address,
                *prefix,
                bits,
            ),
            (IpNetwork::V6(address, prefix), IpAddress::V6(bits)) => v6_network_contains(
                *address,
                *prefix,
                bits,
            ),
            _ => false,
        }
    }
}

} // verus!
