//! Upstream DNS servers and the sentinel addresses that stand for them.
//!
//! Inside the tunnel each upstream resolver is reached through a sentinel
//! address drawn from a reserved range, so that queries to it can be
//! intercepted.

use crate::ip::{
    v4_in_network, v4_mask, v4_network_valid, v6_in_network, v6_mask, v6_network_valid, IpAddress,
    IpNetwork,
};
use bimap::BiHashMap;
use std::collections::hash_map::RandomState;
use vstd::prelude::*;

verus! {

/// The port that DNS servers listen on.
pub const DNS_PORT: u16 = 53;

/// The network address of the IPv4 sentinel range, `100.100.111.0/24`.
pub const DNS_SENTINELS_V4: u32 = 0x6464_6f00;

/// The prefix length of the IPv4 sentinel range.
pub const DNS_SENTINELS_V4_PREFIX: u8 = 24;

/// The network address of the IPv6 sentinel range,
/// `fd00:2021:1111:8000:100:100:111:0/120`.
pub const DNS_SENTINELS_V6: u128 = 0xfd00_2021_1111_8000_0100_0100_0111_0000;

/// The prefix length of the IPv6 sentinel range.
pub const DNS_SENTINELS_V6_PREFIX: u8 = 120;

/// An address and a port.
#[derive(Clone, Copy, Debug, PartialEq, Eq, Structural, Hash)]
pub struct SocketAddress {
    pub ip: IpAddress,
    pub port: u16,
}

/// A DNS server given by address and port.
#[derive(Clone, Copy, Debug, PartialEq, Eq, Structural, Hash)]
pub struct IpDnsServer {
    pub address: SocketAddress,
}

/// An upstream DNS server.
#[derive(Clone, Copy, Debug, PartialEq, Eq, Structural, Hash)]
pub enum DnsServer {
    IpPort(IpDnsServer),
}

impl DnsServer {
    /// The server's address.
    pub open spec fn spec_ip(&self) -> IpAddress {
        match *self {
            DnsServer::IpPort(server) => server.address.ip,
        }
    }

    /// The server's port.
    pub open spec fn spec_port(&self) -> u16 {
        match *self {
            DnsServer::IpPort(server) => server.address.port,
        }
    }

    /// The server's address.
    #[verifier::when_used_as_spec(spec_ip)]
    pub fn ip(&self) -> (ip: IpAddress)
        ensures
            ip == self.spec_ip(),
    {
        match self {
            DnsServer::IpPort(server) => server.address.ip,
        }
    }

    /// The server's port.
    #[verifier::when_used_as_spec(spec_port)]
    pub fn port(&self) -> (port: u16)
        ensures
            port == self.spec_port(),
    {
        match self {
            DnsServer::IpPort(server) => server.address.port,
        }
    }
}

/// Whether `ip` lies in one of the two sentinel ranges.
pub open spec fn in_sentinel_range(ip: IpAddress) -> bool {
    match ip {
        IpAddress::V4(bits) => v4_in_network(DNS_SENTINELS_V4, DNS_SENTINELS_V4_PREFIX, bits),
        IpAddress::V6(bits) => v6_in_network(DNS_SENTINELS_V6, DNS_SENTINELS_V6_PREFIX, bits),
    }
}

/// The IPv4 sentinel range is the addresses `100.100.111.0` to
/// `100.100.111.255`.
pub proof fn lemma_sentinel_v4_range(bits: u32)
    ensures
        in_sentinel_range(IpAddress::V4(bits)) <==> 0x6464_6f00 <= bits <= 0x6464_6fff,
        IpNetwork::V4(DNS_SENTINELS_V4, DNS_SENTINELS_V4_PREFIX).wf(),
{
    assert(0xffff_ffffu32 << 8u32 == 0xffff_ff00u32) by (bit_vector);
    assert((bits & 0xffff_ff00u32 == 0x6464_6f00u32) <==> (0x6464_6f00u32 <= bits && bits
        <= 0x6464_6fffu32)) by (bit_vector);
    assert(0x6464_6f00u32 & 0xffff_ff00u32 == 0x6464_6f00u32) by (bit_vector);
}

/// The IPv6 sentinel range is the 256 addresses from
/// `fd00:2021:1111:8000:100:100:111:0` on.
pub proof fn lemma_sentinel_v6_range(bits: u128)
    ensures
        in_sentinel_range(IpAddress::V6(bits)) <==> DNS_SENTINELS_V6 <= bits <= DNS_SENTINELS_V6
            + 0xff,
        IpNetwork::V6(DNS_SENTINELS_V6, DNS_SENTINELS_V6_PREFIX).wf(),
{
    assert(0xffff_ffff_ffff_ffff_ffff_ffff_ffff_ffffu128 << 8u128
        == 0xffff_ffff_ffff_ffff_ffff_ffff_ffff_ff00u128) by (bit_vector);
    assert((bits & 0xffff_ffff_ffff_ffff_ffff_ffff_ffff_ff00u128
        == 0xfd00_2021_1111_8000_0100_0100_0111_0000u128) <==> (
    0xfd00_2021_1111_8000_0100_0100_0111_0000u128 <= bits && bits
        <= 0xfd00_2021_1111_8000_0100_0100_0111_00ffu128)) by (bit_vector);
    assert(0xfd00_2021_1111_8000_0100_0100_0111_0000u128
        & 0xffff_ffff_ffff_ffff_ffff_ffff_ffff_ff00u128
        == 0xfd00_2021_1111_8000_0100_0100_0111_0000u128) by (bit_vector);
}

/// Whether `ip` lies in one of the two sentinel ranges.
pub fn is_sentinel(ip: IpAddress) -> (b: bool)
    ensures
        b == in_sentinel_range(ip),
{
    proof {
        lemma_sentinel_v4_range(0);
        lemma_sentinel_v6_range(0);
    }
    let v4 = IpNetwork::V4(DNS_SENTINELS_V4, DNS_SENTINELS_V4_PREFIX);
    let v6 = IpNetwork::V6(DNS_SENTINELS_V6, DNS_SENTINELS_V6_PREFIX);
    v4.contains(ip) || v6.contains(ip)
}

/// The servers made of the addresses outside the sentinel ranges, in order,
/// each on the DNS port.
pub open spec fn resolvers_outside_sentinels(resolvers: Seq<IpAddress>) -> Seq<DnsServer>
    decreases resolvers.len(),
{
    if resolvers.len() == 0 {
        Seq::empty()
    } else {
        let before = resolvers_outside_sentinels(resolvers.drop_last());
        if in_sentinel_range(resolvers.last()) {
            before
        } else {
            before.push(
                DnsServer::IpPort(
                    IpDnsServer { address: SocketAddress { ip: resolvers.last(), port: DNS_PORT } },
                ),
            )
        }
    }
}

/// The DNS servers in effect: those that the portal names or, if it names
/// none, the system's own resolvers without those in the sentinel ranges.
pub open spec fn effective_servers(
    upstream_dns: Seq<DnsServer>,
    default_resolvers: Seq<IpAddress>,
) -> Seq<DnsServer> {
    if upstream_dns.len() > 0 {
        upstream_dns
    } else {
        resolvers_outside_sentinels(default_resolvers)
    }
}

/// The DNS servers in effect. An empty result means that forwarded queries
/// will fail.
pub fn effective_dns_servers(
    upstream_dns: Vec<DnsServer>,
    default_resolvers: Vec<IpAddress>,
) -> (servers: Vec<DnsServer>)
    ensures
        servers@ == effective_servers(upstream_dns@, default_resolvers@),
{
    if upstream_dns.len() > 0 {
        return upstream_dns;
    }
    let mut servers: Vec<DnsServer> = Vec::new();
    let mut i: usize = 0;
    assert(default_resolvers@.subrange(0, 0) =~= Seq::<IpAddress>::empty());
    while i < default_resolvers.len()
        invariant
            i <= default_resolvers@.len(),
            servers@ == resolvers_outside_sentinels(default_resolvers@.subrange(0, i as int)),
        decreases default_resolvers@.len() - i,
    {
        assert(default_resolvers@.subrange(0, i + 1).drop_last() =~= default_resolvers@.subrange(
            0,
            i as int,
        ));
        let ip = default_resolvers[i];
        if !is_sentinel(ip) {
            servers.push(DnsServer::IpPort(IpDnsServer { address: SocketAddress { ip, port: DNS_PORT } }));
        }
        i = i + 1;
    }
    assert(default_resolvers@.subrange(0, i as int) =~= default_resolvers@);
    servers
}

/// No server made of the system's resolvers lies in a sentinel range.
pub proof fn lemma_resolvers_outside_sentinels(resolvers: Seq<IpAddress>)
    ensures
        forall|i: int|
            0 <= i < resolvers_outside_sentinels(resolvers).len() ==> !in_sentinel_range(
                (#[trigger] resolvers_outside_sentinels(resolvers)[i]).spec_ip(),
            ),
    decreases resolvers.len(),
{
    if resolvers.len() > 0 {
        lemma_resolvers_outside_sentinels(resolvers.drop_last());
    }
}

/// The servers in effect never include a sentinel address, unless the
/// portal itself names one.
pub proof fn lemma_effective_servers_avoid_sentinels(
    upstream_dns: Seq<DnsServer>,
    default_resolvers: Seq<IpAddress>,
)
    requires
        forall|i: int|
            0 <= i < upstream_dns.len() ==> !in_sentinel_range((#[trigger] upstream_dns[i]).spec_ip()),
    ensures
        forall|i: int|
            0 <= i < effective_servers(upstream_dns, default_resolvers).len()
                ==> !in_sentinel_range(
                (#[trigger] effective_servers(upstream_dns, default_resolvers)[i]).spec_ip(),
            ),
{
    lemma_resolvers_outside_sentinels(default_resolvers);
}

/// An address as the bijection holds it: the version, 4 or 6, and the value.
pub open spec fn ip_key(ip: IpAddress) -> (u8, u128) {
    match ip {
        IpAddress::V4(bits) => (4u8, bits as u128),
        IpAddress::V6(bits) => (6u8, bits),
    }
}

/// The address that a key stands for.
pub open spec fn key_ip(key: (u8, u128)) -> IpAddress {
    if key.0 == 4 {
        IpAddress::V4(key.1 as u32)
    } else {
        IpAddress::V6(key.1)
    }
}

/// Whether a key stands for an address.
pub open spec fn is_ip_key(key: (u8, u128)) -> bool {
    (key.0 == 4 && key.1 <= 0xffff_ffff) || key.0 == 6
}

/// A server as the bijection holds it: the key of its address and its port.
pub open spec fn server_key(server: DnsServer) -> (u8, u128, u16) {
    (ip_key(server.spec_ip()).0, ip_key(server.spec_ip()).1, server.spec_port())
}

/// The server that a key stands for.
pub open spec fn key_server(key: (u8, u128, u16)) -> DnsServer {
    DnsServer::IpPort(
        IpDnsServer { address: SocketAddress { ip: key_ip((key.0, key.1)), port: key.2 } },
    )
}

/// `bimap::BiHashMap`: a set of pairs in which no left value and no right
/// value occurs twice. Nothing is seen of it but what is named here.
#[verifier::external_type_specification]
#[verifier::external_body]
#[verifier::reject_recursive_types(L)]
#[verifier::reject_recursive_types(R)]
#[verifier::reject_recursive_types(LS)]
#[verifier::reject_recursive_types(RS)]
pub struct ExBiHashMap<L, R, LS, RS>(BiHashMap<L, R, LS, RS>);

/// The pairs that a bijection holds, as a map from left to right values.
pub uninterp spec fn bimap_pairs(
    map: BiHashMap<(u8, u128), (u8, u128, u16), RandomState, RandomState>,
) -> Map<(u8, u128), (u8, u128, u16)>;

/// The pairs after `left` and `right` are put in: every pair that held
/// either of them is gone, and the new pair is there.
pub open spec fn pairs_inserted<L, R>(pairs: Map<L, R>, left: L, right: R) -> Map<L, R> {
    Map::new(
        |l: L| l == left || (pairs.contains_key(l) && pairs[l] != right),
        |l: L|
            if l == left {
                right
            } else {
                pairs[l]
            },
    )
}

/// No pairs at all.
pub open spec fn no_pairs() -> Map<(u8, u128), (u8, u128, u16)> {
    Map::empty()
}

/// Makes an empty bijection with `bimap::BiHashMap::new`.
#[verifier::external_body]
fn bimap_new() -> (map: BiHashMap<(u8, u128), (u8, u128, u16), RandomState, RandomState>)
    ensures
        bimap_pairs(map) == no_pairs(),
{
    BiHashMap::new()
}

/// Puts a pair in with `bimap::BiHashMap::insert`, which first removes the
/// pairs that hold the left or the right value.
#[verifier::external_body]
fn bimap_insert(
    map: &mut BiHashMap<(u8, u128), (u8, u128, u16), RandomState, RandomState>,
    left: (u8, u128),
    right: (u8, u128, u16),
)
    ensures
        bimap_pairs(*final(map)) == pairs_inserted(bimap_pairs(*old(map)), left, right),
{
    map.insert(left, right);
}

/// Looks a left value up with `bimap::BiHashMap::get_by_left`.
#[verifier::external_body]
fn bimap_get_by_left(
    map: &BiHashMap<(u8, u128), (u8, u128, u16), RandomState, RandomState>,
    left: (u8, u128),
) -> (right: Option<(u8, u128, u16)>)
    ensures
        right == if bimap_pairs(*map).contains_key(left) {
            Some(bimap_pairs(*map)[left])
        } else {
            None
        },
{
    map.get_by_left(&left).copied()
}

/// Looks a right value up with `bimap::BiHashMap::get_by_right`.
#[verifier::external_body]
fn bimap_get_by_right(
    map: &BiHashMap<(u8, u128), (u8, u128, u16), RandomState, RandomState>,
    right: (u8, u128, u16),
) -> (left: Option<(u8, u128)>)
    ensures
        match left {
            Some(l) => bimap_pairs(*map).contains_key(l) && bimap_pairs(*map)[l] == right,
            None => forall|l: (u8, u128)|
                bimap_pairs(*map).contains_key(l) ==> bimap_pairs(*map)[l] != right,
        },
{
    map.get_by_right(&right).copied()
}

/// Whether a map from sentinel addresses to servers is one to one.
pub open spec fn is_one_to_one<L, R>(pairs: Map<L, R>) -> bool {
    forall|a: L, b: L|
        pairs.contains_key(a) && pairs.contains_key(b) && pairs[a] == pairs[b] ==> a == b
}

/// Putting a pair into a one-to-one map leaves it one to one.
pub proof fn lemma_pairs_inserted_one_to_one<L, R>(pairs: Map<L, R>, left: L, right: R)
    requires
        is_one_to_one(pairs),
    ensures
        is_one_to_one(pairs_inserted(pairs, left, right)),
{
}

/// The key of an address.
fn to_ip_key(ip: IpAddress) -> (key: (u8, u128))
    ensures
        key == ip_key(ip),
        is_ip_key(key),
        key_ip(key) == ip,
{
    match ip {
        IpAddress::V4(bits) => (4, bits as u128),
        IpAddress::V6(bits) => (6, bits),
    }
}

/// The address of a key.
fn from_ip_key(key: (u8, u128)) -> (ip: IpAddress)
    requires
        is_ip_key(key),
    ensures
        ip == key_ip(key),
        ip_key(ip) == key,
{
    if key.0 == 4 {
        IpAddress::V4(key.1 as u32)
    } else {
        IpAddress::V6(key.1)
    }
}

/// The bijection between sentinel addresses and the upstream servers that
/// they stand for.
#[derive(Debug)]
pub struct SentinelMapping {
    map: BiHashMap<(u8, u128), (u8, u128, u16), RandomState, RandomState>,
}

impl View for SentinelMapping {
    type V = Map<IpAddress, DnsServer>;

    closed spec fn view(&self) -> Self::V {
        Map::new(
            |ip: IpAddress| bimap_pairs(self.map).contains_key(ip_key(ip)),
            |ip: IpAddress| key_server(bimap_pairs(self.map)[ip_key(ip)]),
        )
    }
}

impl SentinelMapping {
    /// What holds of every mapping: no two sentinels stand for the same
    /// server, and every pair is an address and a server.
    #[verifier::type_invariant]
    pub closed spec fn wf(self) -> bool {
        &&& is_one_to_one(bimap_pairs(self.map))
        &&& forall|l: (u8, u128)| #[trigger]
            bimap_pairs(self.map).contains_key(l) ==> is_ip_key(l) && is_ip_key(
                (bimap_pairs(self.map)[l].0, bimap_pairs(self.map)[l].1),
            )
    }

    /// The mapping without any pair.
    pub fn new() -> (mapping: SentinelMapping)
        ensures
            mapping@ == Map::<IpAddress, DnsServer>::empty(),
    {
        let mapping = SentinelMapping { map: bimap_new() };
        assert(mapping@ =~= Map::<IpAddress, DnsServer>::empty());
        mapping
    }

    /// The mapping with `sentinel` standing for `server`. Whatever the
    /// sentinel stood for before, and whatever stood for the server, is
    /// gone.
    pub fn insert(self, sentinel: IpAddress, server: DnsServer) -> (mapping: SentinelMapping)
        ensures
            mapping@ == pairs_inserted(self@, sentinel, server),
            is_one_to_one(mapping@),
    {
        proof {
            use_type_invariant(&self);
        }
        let ghost before = bimap_pairs(self.map);
        let ghost before_view = self@;
        let left = to_ip_key(sentinel);
        let server_ip = to_ip_key(server.ip());
        let right = (server_ip.0, server_ip.1, server.port());
        assert(key_server(right) == server);
        let mut map = self.map;
        bimap_insert(&mut map, left, right);
        proof {
            lemma_pairs_inserted_one_to_one(before, left, right);
        }
        let mapping = SentinelMapping { map };
        proof {
            assert forall|ip: IpAddress| #[trigger]
                mapping@.contains_key(ip) <==> pairs_inserted(
                    before_view,
                    sentinel,
                    server,
                ).contains_key(ip) by {
                if ip != sentinel && before.contains_key(ip_key(ip)) {
                    let held = before[ip_key(ip)];
                    assert(is_ip_key((held.0, held.1)));
                    assert(server_key(key_server(held)) == held);
                }
            }
            assert forall|ip: IpAddress| #[trigger] mapping@.contains_key(ip) implies mapping@[ip]
                == pairs_inserted(before_view, sentinel, server)[ip] by {}
            assert(mapping@ =~= pairs_inserted(before_view, sentinel, server));
            assert forall|a: IpAddress, b: IpAddress|
                mapping@.contains_key(a) && mapping@.contains_key(b) && mapping@[a]
                    == mapping@[b] implies a == b by {
                let ka = bimap_pairs(mapping.map)[ip_key(a)];
                let kb = bimap_pairs(mapping.map)[ip_key(b)];
                assert(server_key(key_server(ka)) == ka);
                assert(server_key(key_server(kb)) == kb);
            }
        }
        mapping
    }

    /// The server that `sentinel` stands for.
    pub fn get_by_left(&self, sentinel: &IpAddress) -> (server: Option<DnsServer>)
        ensures
            server == if self@.contains_key(*sentinel) {
                Some(self@[*sentinel])
            } else {
                None
            },
    {
        proof {
            use_type_invariant(self);
        }
        match bimap_get_by_left(&self.map, to_ip_key(*sentinel)) {
            Some(key) => {
                let ip = from_ip_key((key.0, key.1));
                Some(DnsServer::IpPort(IpDnsServer { address: SocketAddress { ip, port: key.2 } }))
            },
            None => None,
        }
    }

    /// The sentinel that stands for `server`.
    pub fn get_by_right(&self, server: &DnsServer) -> (sentinel: Option<IpAddress>)
        ensures
            match sentinel {
                Some(ip) => self@.contains_key(ip) && self@[ip] == *server,
                None => forall|ip: IpAddress| self@.contains_key(ip) ==> self@[ip] != *server,
            },
    {
        proof {
            use_type_invariant(self);
        }
        let server_ip = to_ip_key(server.ip());
        let right = (server_ip.0, server_ip.1, server.port());
        assert(key_server(right) == *server);
        match bimap_get_by_right(&self.map, right) {
            Some(key) => Some(from_ip_key(key)),
            None => {
                assert forall|ip: IpAddress| self@.contains_key(ip) implies self@[ip]
                    != *server by {
                    let held = bimap_pairs(self.map)[ip_key(ip)];
                    assert(is_ip_key((held.0, held.1)));
                    assert(server_key(key_server(held)) == held);
                }
                None
            },
        }
    }
}

/// The addresses of an IPv4 network, first and last. A network with a prefix
/// of 32 counts as having none.
pub open spec fn v4_range(address: u32, prefix: u8) -> Option<(u32, u32)> {
    if prefix >= 32 {
        None
    } else {
        Some((address, address | !v4_mask(prefix)))
    }
}

/// The addresses of an IPv6 network, first and last. A network with a prefix
/// of 128 counts as having none.
pub open spec fn v6_range(address: u128, prefix: u8) -> Option<(u128, u128)> {
    if prefix >= 128 {
        None
    } else {
        Some((address, address | !v6_mask(prefix)))
    }
}

/// What is left of an IPv4 range after its first address is taken.
pub open spec fn v4_rest(left: Option<(u32, u32)>) -> Option<(u32, u32)> {
    match left {
        Some((next, last)) => if next < last {
            Some(((next + 1) as u32, last))
        } else {
            None
        },
        None => None,
    }
}

/// What is left of an IPv6 range after its first address is taken.
pub open spec fn v6_rest(left: Option<(u128, u128)>) -> Option<(u128, u128)> {
    match left {
        Some((next, last)) => if next < last {
            Some(((next + 1) as u128, last))
        } else {
            None
        },
        None => None,
    }
}

/// The first address of an IPv4 range.
pub open spec fn v4_first(left: Option<(u32, u32)>) -> Option<IpAddress> {
    match left {
        Some((next, _)) => Some(IpAddress::V4(next)),
        None => None,
    }
}

/// The first address of an IPv6 range.
pub open spec fn v6_first(left: Option<(u128, u128)>) -> Option<IpAddress> {
    match left {
        Some((next, _)) => Some(IpAddress::V6(next)),
        None => None,
    }
}

/// Hands out the addresses of two networks, one per family, each in
/// ascending order and each address once.
#[derive(Debug)]
pub struct IpProvider {
    ipv4: Option<(u32, u32)>,
    ipv6: Option<(u128, u128)>,
}

impl IpProvider {
    /// What holds of every provider: a range that is left has its first
    /// address no higher than its last.
    #[verifier::type_invariant]
    pub closed spec fn wf(self) -> bool {
        &&& self.ipv4 matches Some((next, last)) ==> next <= last
        &&& self.ipv6 matches Some((next, last)) ==> next <= last
    }

    /// The IPv4 addresses still to hand out, first and last.
    pub closed spec fn v4_left(&self) -> Option<(u32, u32)> {
        self.ipv4
    }

    /// The IPv6 addresses still to hand out, first and last.
    pub closed spec fn v6_left(&self) -> Option<(u128, u128)> {
        self.ipv6
    }

    /// A provider for the addresses of an IPv4 network and of an IPv6
    /// network.
    pub fn new(
        ipv4_address: u32,
        ipv4_prefix: u8,
        ipv6_address: u128,
        ipv6_prefix: u8,
    ) -> (provider: IpProvider)
        requires
            v4_network_valid(ipv4_address, ipv4_prefix),
            v6_network_valid(ipv6_address, ipv6_prefix),
        ensures
            provider.v4_left() == v4_range(ipv4_address, ipv4_prefix),
            provider.v6_left() == v6_range(ipv6_address, ipv6_prefix),
    {
        let ipv4 = if ipv4_prefix >= 32 {
            None
        } else {
            let mask: u32 = if ipv4_prefix == 0 {
                0
            } else {
                0xffff_ffffu32 << ((32 - ipv4_prefix) as u32)
            };
            assert((ipv4_address | !mask) >= ipv4_address) by (bit_vector);
            Some((ipv4_address, ipv4_address | !mask))
        };
        let ipv6 = if ipv6_prefix >= 128 {
            None
        } else {
            let mask: u128 = if ipv6_prefix == 0 {
                0
            } else {
                0xffff_ffff_ffff_ffff_ffff_ffff_ffff_ffffu128 << ((128 - ipv6_prefix) as u128)
            };
            assert((ipv6_address | !mask) >= ipv6_address) by (bit_vector);
            Some((ipv6_address, ipv6_address | !mask))
        };
        IpProvider { ipv4, ipv6 }
    }

    /// The next address of the family of `ip`, or `None` when that family's
    /// addresses are used up. The other family's addresses stay.
    pub fn get_proxy_ip_for(&mut self, ip: &IpAddress) -> (proxy_ip: Option<IpAddress>)
        ensures
            ip is V4 ==> proxy_ip == v4_first(old(self).v4_left()),
            ip is V4 ==> final(self).v4_left() == v4_rest(old(self).v4_left()),
            ip is V4 ==> final(self).v6_left() == old(self).v6_left(),
            ip is V6 ==> proxy_ip == v6_first(old(self).v6_left()),
            ip is V6 ==> final(self).v6_left() == v6_rest(old(self).v6_left()),
            ip is V6 ==> final(self).v4_left() == old(self).v4_left(),
    {
        proof {
            use_type_invariant(&*self);
        }
        match ip {
            IpAddress::V4(_) => match self.ipv4 {
                Some((next, last)) => {
                    self.ipv4 = if next < last {
                        Some((next + 1, last))
                    } else {
                        None
                    };
                    Some(IpAddress::V4(next))
                },
                None => None,
            },
            IpAddress::V6(_) => match self.ipv6 {
                Some((next, last)) => {
                    self.ipv6 = if next < last {
                        Some((next + 1, last))
                    } else {
                        None
                    };
                    Some(IpAddress::V6(next))
                },
                None => None,
            },
        }
    }
}

/// How many IPv4 sentinels there are: the addresses of the IPv4 range.
pub const SENTINELS_V4: usize = 256;

/// How many IPv6 sentinels there are: the addresses of the IPv6 range.
pub const SENTINELS_V6: usize = 256;

/// How many of the servers have an IPv4 address.
pub open spec fn count_v4(servers: Seq<DnsServer>) -> nat
    decreases servers.len(),
{
    if servers.len() == 0 {
        0
    } else {
        count_v4(servers.drop_last()) + if servers.last().spec_ip() is V4 {
            1nat
        } else {
            0nat
        }
    }
}

/// How many of the servers have an IPv6 address.
pub open spec fn count_v6(servers: Seq<DnsServer>) -> nat
    decreases servers.len(),
{
    if servers.len() == 0 {
        0
    } else {
        count_v6(servers.drop_last()) + if servers.last().spec_ip() is V6 {
            1nat
        } else {
            0nat
        }
    }
}

/// The sentinel drawn for the server at `at`: the next unused address of
/// its family's range, counting earlier servers of the same family.
pub open spec fn sentinel_at(servers: Seq<DnsServer>, at: int) -> IpAddress {
    let before = servers.subrange(0, at);
    match servers[at].spec_ip() {
        IpAddress::V4(_) => IpAddress::V4((DNS_SENTINELS_V4 + count_v4(before)) as u32),
        IpAddress::V6(_) => IpAddress::V6((DNS_SENTINELS_V6 + count_v6(before)) as u128),
    }
}

/// The mapping made by drawing a sentinel for each server in turn. A server
/// named again takes the newly drawn sentinel and gives up its earlier one.
pub open spec fn sentinel_pairs(servers: Seq<DnsServer>) -> Map<IpAddress, DnsServer>
    decreases servers.len(),
{
    if servers.len() == 0 {
        Map::empty()
    } else {
        pairs_inserted(
            sentinel_pairs(servers.drop_last()),
            sentinel_at(servers, servers.len() - 1),
            servers.last(),
        )
    }
}

/// Whether there are sentinels enough for the servers.
pub open spec fn sentinels_suffice(servers: Seq<DnsServer>) -> bool {
    count_v4(servers) <= SENTINELS_V4 && count_v6(servers) <= SENTINELS_V6
}

/// Counting over a longer run of the same servers gives no less, and more
/// if the run goes past a server of that family.
pub proof fn lemma_counts_grow(servers: Seq<DnsServer>, shorter: int, longer: int)
    requires
        0 <= shorter <= longer <= servers.len(),
    ensures
        count_v4(servers.subrange(0, shorter)) <= count_v4(servers.subrange(0, longer)),
        count_v6(servers.subrange(0, shorter)) <= count_v6(servers.subrange(0, longer)),
        shorter < longer && servers[shorter].spec_ip() is V4 ==> count_v4(
            servers.subrange(0, shorter),
        ) < count_v4(servers.subrange(0, longer)),
        shorter < longer && servers[shorter].spec_ip() is V6 ==> count_v6(
            servers.subrange(0, shorter),
        ) < count_v6(servers.subrange(0, longer)),
    decreases longer - shorter,
{
    if shorter < longer {
        assert(servers.subrange(0, longer).drop_last() =~= servers.subrange(0, longer - 1));
        lemma_counts_grow(servers, shorter, longer - 1);
    }
}

/// Each server's sentinel lies in the sentinel ranges, and no two servers
/// draw the same sentinel.
pub proof fn lemma_sentinels_distinct(servers: Seq<DnsServer>, i: int, j: int)
    requires
        sentinels_suffice(servers),
        0 <= i < servers.len(),
        0 <= j < servers.len(),
    ensures
        in_sentinel_range(sentinel_at(servers, i)),
        i != j ==> sentinel_at(servers, i) != sentinel_at(servers, j),
{
    assert(servers.subrange(0, servers.len() as int) =~= servers);
    lemma_counts_grow(servers, i, servers.len() as int);
    lemma_counts_grow(servers, j, servers.len() as int);
    if i < j {
        lemma_counts_grow(servers, i, j);
    }
    if j < i {
        lemma_counts_grow(servers, j, i);
    }
    match sentinel_at(servers, i) {
        IpAddress::V4(bits) => lemma_sentinel_v4_range(bits),
        IpAddress::V6(bits) => lemma_sentinel_v6_range(bits),
    }
}

/// The sentinel of a server does not depend on the servers after it.
proof fn lemma_sentinel_at_prefix(servers: Seq<DnsServer>, at: int)
    requires
        0 <= at < servers.len() - 1,
    ensures
        sentinel_at(servers.drop_last(), at) == sentinel_at(servers, at),
{
    assert(servers.drop_last().subrange(0, at) =~= servers.subrange(0, at));
}

/// With sentinels enough for a list of servers there are enough for the
/// list without its last server.
proof fn lemma_suffice_prefix(servers: Seq<DnsServer>)
    requires
        sentinels_suffice(servers),
        servers.len() > 0,
    ensures
        sentinels_suffice(servers.drop_last()),
{
}

/// A sentinel in the mapping was drawn for the server that it stands for.
/// The index of that server is returned.
pub proof fn lemma_sentinel_origin(servers: Seq<DnsServer>, ip: IpAddress) -> (i: int)
    requires
        sentinel_pairs(servers).contains_key(ip),
    ensures
        0 <= i < servers.len(),
        ip == sentinel_at(servers, i),
        sentinel_pairs(servers)[ip] == servers[i],
    decreases servers.len(),
{
    let last = servers.len() - 1;
    if ip == sentinel_at(servers, last) {
        last
    } else {
        let i = lemma_sentinel_origin(servers.drop_last(), ip);
        lemma_sentinel_at_prefix(servers, i);
        i
    }
}

/// Every server has a sentinel in the mapping. It is returned.
pub proof fn lemma_server_has_sentinel(servers: Seq<DnsServer>, i: int) -> (ip: IpAddress)
    requires
        sentinels_suffice(servers),
        0 <= i < servers.len(),
    ensures
        sentinel_pairs(servers).contains_key(ip),
        sentinel_pairs(servers)[ip] == servers[i],
    decreases servers.len(),
{
    let last = servers.len() - 1;
    let fresh = sentinel_at(servers, last);
    if servers[i] == servers.last() {
        fresh
    } else {
        let shorter = servers.drop_last();
        lemma_suffice_prefix(servers);
        let ip = lemma_server_has_sentinel(shorter, i);
        let k = lemma_sentinel_origin(shorter, ip);
        lemma_sentinel_at_prefix(servers, k);
        lemma_sentinels_distinct(servers, k, last);
        ip
    }
}

/// No two sentinels of the mapping stand for the same server.
pub proof fn lemma_sentinel_pairs_one_to_one(servers: Seq<DnsServer>)
    ensures
        is_one_to_one(sentinel_pairs(servers)),
    decreases servers.len(),
{
    if servers.len() > 0 {
        lemma_sentinel_pairs_one_to_one(servers.drop_last());
        lemma_pairs_inserted_one_to_one(
            sentinel_pairs(servers.drop_last()),
            sentinel_at(servers, servers.len() - 1),
            servers.last(),
        );
    }
}

/// The mapping of a list of servers is a bijection between the servers and
/// sentinels drawn from the sentinel ranges: every server has a sentinel,
/// every sentinel stands for a server of the list and lies in a sentinel
/// range, and no two sentinels stand for the same server.
pub proof fn lemma_sentinel_pairs(servers: Seq<DnsServer>)
    requires
        sentinels_suffice(servers),
    ensures
        forall|i: int|
            0 <= i < servers.len() ==> exists|ip: IpAddress|
                sentinel_pairs(servers).contains_key(ip) && #[trigger] sentinel_pairs(servers)[ip]
                    == #[trigger] servers[i],
        forall|ip: IpAddress| #[trigger]
            sentinel_pairs(servers).contains_key(ip) ==> servers.contains(
                sentinel_pairs(servers)[ip],
            ),
        forall|ip: IpAddress| #[trigger]
            sentinel_pairs(servers).contains_key(ip) ==> in_sentinel_range(ip),
        is_one_to_one(sentinel_pairs(servers)),
{
    lemma_sentinel_pairs_one_to_one(servers);
    let pairs = sentinel_pairs(servers);
    assert forall|i: int| 0 <= i < servers.len() implies exists|ip: IpAddress|
        pairs.contains_key(ip) && #[trigger] pairs[ip] == #[trigger] servers[i] by {
        let ip = lemma_server_has_sentinel(servers, i);
        assert(pairs.contains_key(ip) && pairs[ip] == servers[i]);
    }
    assert forall|ip: IpAddress| #[trigger] pairs.contains_key(ip) implies servers.contains(
        pairs[ip],
    ) && in_sentinel_range(ip) by {
        let i = lemma_sentinel_origin(servers, ip);
        lemma_sentinels_distinct(servers, i, i);
    }
}

/// The mapping depends on the list of servers alone: built again from the
/// same list, it holds the same pairs.
pub proof fn lemma_sentinel_mapping_repeatable(
    first: SentinelMapping,
    second: SentinelMapping,
    servers: Seq<DnsServer>,
)
    requires
        first@ == sentinel_pairs(servers),
        second@ == sentinel_pairs(servers),
    ensures
        first@ == second@,
{
}

/// Draws a sentinel address for each server in turn and maps it to the
/// server. The sentinels come from the two sentinel ranges, each family's in
/// ascending order.
pub fn sentinel_dns_mapping(dns: &[DnsServer]) -> (mapping: SentinelMapping)
    requires
        sentinels_suffice(dns@),
    ensures
        mapping@ == sentinel_pairs(dns@),
        is_one_to_one(mapping@),
        forall|ip: IpAddress| #[trigger] mapping@.contains_key(ip) ==> in_sentinel_range(ip),
{
    proof {
        lemma_sentinel_v4_range(0);
        lemma_sentinel_v6_range(0);
        assert(0xffff_ffffu32 << 8u32 == 0xffff_ff00u32) by (bit_vector);
        assert(0x6464_6f00u32 | !0xffff_ff00u32 == 0x6464_6fffu32) by (bit_vector);
        assert(0xffff_ffff_ffff_ffff_ffff_ffff_ffff_ffffu128 << 8u128
            == 0xffff_ffff_ffff_ffff_ffff_ffff_ffff_ff00u128) by (bit_vector);
        assert(0xfd00_2021_1111_8000_0100_0100_0111_0000u128
            | !0xffff_ffff_ffff_ffff_ffff_ffff_ffff_ff00u128
            == 0xfd00_2021_1111_8000_0100_0100_0111_00ffu128) by (bit_vector);
    }
    let mut ip_provider = IpProvider::new(
        DNS_SENTINELS_V4,
        DNS_SENTINELS_V4_PREFIX,
        DNS_SENTINELS_V6,
        DNS_SENTINELS_V6_PREFIX,
    );
    let mut mapping = SentinelMapping::new();
    let mut i: usize = 0;
    assert(dns@.subrange(0, 0) =~= Seq::<DnsServer>::empty());
    while i < dns.len()
        invariant
            i <= dns@.len(),
            sentinels_suffice(dns@),
            mapping@ == sentinel_pairs(dns@.subrange(0, i as int)),
            ip_provider.v4_left() == if count_v4(dns@.subrange(0, i as int)) < SENTINELS_V4 {
                Some(
                    (
                        (DNS_SENTINELS_V4 + count_v4(dns@.subrange(0, i as int))) as u32,
                        0x6464_6fffu32,
                    ),
                )
            } else {
                None
            },
            ip_provider.v6_left() == if count_v6(dns@.subrange(0, i as int)) < SENTINELS_V6 {
                Some(
                    (
                        (DNS_SENTINELS_V6 + count_v6(dns@.subrange(0, i as int))) as u128,
                        0xfd00_2021_1111_8000_0100_0100_0111_00ffu128,
                    ),
                )
            } else {
                None
            },
        decreases dns@.len() - i,
    {
        let ghost done = dns@.subrange(0, i as int);
        let ghost next = dns@.subrange(0, i + 1);
        proof {
            assert(next.drop_last() =~= done);
            assert(dns@.subrange(0, dns@.len() as int) =~= dns@);
            lemma_counts_grow(dns@, i + 1, dns@.len() as int);
            assert(next.subrange(0, i as int) =~= done);
        }
        let server = dns[i];
        match ip_provider.get_proxy_ip_for(&server.ip()) {
            Some(ip) => {
                assert(ip == sentinel_at(next, i as int));
                mapping = mapping.insert(ip, server);
            },
            None => {
                assert(false);
            },
        }
        i = i + 1;
    }
    proof {
        assert(dns@.subrange(0, i as int) =~= dns@);
        lemma_sentinel_pairs(dns@);
    }
    mapping
}

} // verus!
