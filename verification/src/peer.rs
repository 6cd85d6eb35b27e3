//! Peers: the local ends of the encrypted channels, and the table that
//! routes packets to them.

use crate::ip::{
    v4_in_network, v4_network_valid, v6_in_network, v6_network_valid, IpAddress, IpNetwork,
};
use crate::resources::ConnectionId;
use ip_network_table::IpNetworkTable;
use vstd::prelude::*;

verus! {

/// What is reported of a peer: the networks routed to it and the connection
/// it belongs to.
#[derive(Debug, Clone)]
pub struct PeerStats<TId> {
    pub allowed_ips: Vec<IpNetwork>,
    pub conn_id: TId,
}

/// A peer: the connection that it belongs to and the networks routed to it.
#[derive(Debug)]
pub struct Peer<TId> {
    pub conn_id: TId,
    pub allowed_ips: Vec<IpNetwork>,
}

impl<TId: ConnectionId> Peer<TId> {
    /// What is reported of the peer.
    pub fn stats(&self) -> (stats: PeerStats<TId>)
        ensures
            stats.conn_id == self.conn_id,
            stats.allowed_ips@ == self.allowed_ips@,
    {
        let mut allowed_ips: Vec<IpNetwork> = Vec::new();
        let mut i: usize = 0;
        while i < self.allowed_ips.len()
            invariant
                i <= self.allowed_ips@.len(),
                allowed_ips@ == self.allowed_ips@.subrange(0, i as int),
            decreases self.allowed_ips@.len() - i,
        {
            allowed_ips.push(self.allowed_ips[i]);
            assert(allowed_ips@ =~= self.allowed_ips@.subrange(0, i + 1));
            i = i + 1;
        }
        assert(self.allowed_ips@.subrange(0, i as int) =~= self.allowed_ips@);
        PeerStats { allowed_ips, conn_id: self.conn_id }
    }
}

/// `ip_network_table::IpNetworkTable`: a table of networks with a value
/// each. Nothing is seen of it but what is named here.
#[verifier::external_type_specification]
#[verifier::external_body]
#[verifier::reject_recursive_types(T)]
pub struct ExIpNetworkTable<T>(IpNetworkTable<T>);

/// The routes that a table holds: for each network, given by version,
/// address and prefix length, the peer that packets for it go to.
pub uninterp spec fn table_routes(table: IpNetworkTable<u128>) -> Map<(u8, u128, u8), u128>;

/// A network as the table's routes name it.
pub open spec fn network_key(network: IpNetwork) -> (u8, u128, u8) {
    match network {
        IpNetwork::V4(address, prefix) => (4u8, address as u128, prefix),
        IpNetwork::V6(address, prefix) => (6u8, address, prefix),
    }
}

/// Whether the network that a key names contains `ip`.
pub open spec fn key_covers(key: (u8, u128, u8), ip: IpAddress) -> bool {
    match ip {
        IpAddress::V4(bits) => key.0 == 4 && key.1 <= 0xffff_ffff && v4_in_network(
            key.1 as u32,
            key.2,
            bits,
        ),
        IpAddress::V6(bits) => key.0 == 6 && v6_in_network(key.1, key.2, bits),
    }
}

/// No routes at all.
pub open spec fn no_routes() -> Map<(u8, u128, u8), u128> {
    Map::empty()
}

/// The routes without those to `peer`.
pub open spec fn routes_without(routes: Map<(u8, u128, u8), u128>, peer: u128) -> Map<
    (u8, u128, u8),
    u128,
> {
    Map::new(
        |key: (u8, u128, u8)| routes.contains_key(key) && routes[key] != peer,
        |key: (u8, u128, u8)| routes[key],
    )
}

/// Whether a route is the most specific of those that cover `ip`.
pub open spec fn is_longest_match(
    routes: Map<(u8, u128, u8), u128>,
    key: (u8, u128, u8),
    ip: IpAddress,
) -> bool {
    &&& routes.contains_key(key)
    &&& key_covers(key, ip)
    &&& forall|other: (u8, u128, u8)|
        routes.contains_key(other) && key_covers(other, ip) ==> other.2 <= key.2
}

/// Whether no route covers `ip`.
pub open spec fn is_unrouted(routes: Map<(u8, u128, u8), u128>, ip: IpAddress) -> bool {
    forall|key: (u8, u128, u8)| routes.contains_key(key) ==> !key_covers(key, ip)
}

/// Makes an empty table with `IpNetworkTable::new`.
#[verifier::external_body]
fn table_new() -> (table: IpNetworkTable<u128>)
    ensures
        table_routes(table) == no_routes(),
{
    IpNetworkTable::new()
}

/// Routes an IPv4 network to a peer with `IpNetworkTable::insert`, which
/// returns the peer that the network was routed to before.
#[verifier::external_body]
fn table_insert_v4(
    table: &mut IpNetworkTable<u128>,
    address: u32,
    prefix: u8,
    peer: u128,
) -> (before: Option<u128>)
    requires
        v4_network_valid(address, prefix),
    ensures
        table_routes(*final(table)) == table_routes(*old(table)).insert(
            (4u8, address as u128, prefix),
            peer,
        ),
        before == if table_routes(*old(table)).contains_key((4u8, address as u128, prefix)) {
            Some(table_routes(*old(table))[(4u8, address as u128, prefix)])
        } else {
            None
        },
{
    match ip_network::Ipv4Network::new(address.into(), prefix) {
        Ok(network) => table.insert(network, peer),
        Err(_) => None,
    }
}

/// Routes an IPv6 network to a peer with `IpNetworkTable::insert`, which
/// returns the peer that the network was routed to before.
#[verifier::external_body]
fn table_insert_v6(
    table: &mut IpNetworkTable<u128>,
    address: u128,
    prefix: u8,
    peer: u128,
) -> (before: Option<u128>)
    requires
        v6_network_valid(address, prefix),
    ensures
        table_routes(*final(table)) == table_routes(*old(table)).insert(
            (6u8, address, prefix),
            peer,
        ),
        before == if table_routes(*old(table)).contains_key((6u8, address, prefix)) {
            Some(table_routes(*old(table))[(6u8, address, prefix)])
        } else {
            None
        },
{
    match ip_network::Ipv6Network::new(address.into(), prefix) {
        Ok(network) => table.insert(network, peer),
        Err(_) => None,
    }
}

/// Finds the route for an IPv4 address with
/// `IpNetworkTable::longest_match_ipv4`: the most specific network in the
/// table that contains the address, or none if no network contains it. The
/// network returned is a valid one.
#[verifier::external_body]
fn table_longest_match_v4(table: &IpNetworkTable<u128>, ip: u32) -> (found: Option<(u32, u8, u128)>)
    ensures
        match found {
            Some((address, prefix, peer)) => v4_network_valid(address, prefix) && is_longest_match(
                table_routes(*table),
                (4u8, address as u128, prefix),
                IpAddress::V4(ip),
            ) && table_routes(*table)[(4u8, address as u128, prefix)] == peer,
            None => is_unrouted(table_routes(*table), IpAddress::V4(ip)),
        },
{
    table.longest_match_ipv4(ip.into()).map(
        |(network, peer)| (network.network_address().into(), network.netmask(), *peer),
    )
}

/// Finds the route for an IPv6 address with
/// `IpNetworkTable::longest_match_ipv6`: the most specific network in the
/// table that contains the address, or none if no network contains it. The
/// network returned is a valid one.
#[verifier::external_body]
fn table_longest_match_v6(
    table: &IpNetworkTable<u128>,
    ip: u128,
) -> (found: Option<(u128, u8, u128)>)
    ensures
        match found {
            Some((address, prefix, peer)) => v6_network_valid(address, prefix) && is_longest_match(
                table_routes(*table),
                (6u8, address, prefix),
                IpAddress::V6(ip),
            ) && table_routes(*table)[(6u8, address, prefix)] == peer,
            None => is_unrouted(table_routes(*table), IpAddress::V6(ip)),
        },
{
    table.longest_match_ipv6(ip.into()).map(
        |(network, peer)| (network.network_address().into(), network.netmask(), *peer),
    )
}

/// Whether a route is to another peer than `peer`.
fn is_route_elsewhere(to: &u128, peer: u128) -> (elsewhere: bool)
    ensures
        elsewhere == (*to != peer),
{
    *to != peer
}

/// Drops the routes to a peer with `IpNetworkTable::retain`, which keeps
/// the routes that the condition holds of and removes the others.
#[verifier::external_body]
fn table_remove_peer(table: &mut IpNetworkTable<u128>, peer: u128)
    ensures
        table_routes(*final(table)) == routes_without(table_routes(*old(table)), peer),
{
    table.retain(|_, to| is_route_elsewhere(to, peer));
}

/// A table that routes addresses by network: each network in it leads to
/// one target, a peer or a resource, and an address goes to the target of
/// the most specific network that contains it.
pub struct RoutingTable {
    routes: IpNetworkTable<u128>,
}

impl View for RoutingTable {
    type V = Map<IpNetwork, u128>;

    closed spec fn view(&self) -> Self::V {
        Map::new(
            |network: IpNetwork| network.wf() && table_routes(self.routes).contains_key(
                network_key(network),
            ),
            |network: IpNetwork| table_routes(self.routes)[network_key(network)],
        )
    }
}

/// Whether `network` is, of the routes that contain `ip`, the most specific.
pub open spec fn is_best_route(
    routes: Map<IpNetwork, u128>,
    network: IpNetwork,
    ip: IpAddress,
) -> bool {
    &&& routes.contains_key(network)
    &&& network.spec_contains(ip)
    &&& forall|other: IpNetwork|
        routes.contains_key(other) && other.spec_contains(ip) ==> other.spec_prefix()
            <= network.spec_prefix()
}

/// Whether no route contains `ip`.
pub open spec fn has_no_route(routes: Map<IpNetwork, u128>, ip: IpAddress) -> bool {
    forall|network: IpNetwork| routes.contains_key(network) ==> !network.spec_contains(ip)
}

/// The networks that are routed to `target`.
pub open spec fn routed_to(routes: Map<IpNetwork, u128>, target: u128) -> Set<IpNetwork> {
    Set::new(|network: IpNetwork| routes.contains_key(network) && routes[network] == target)
}

/// The routes without those to `target`.
pub open spec fn routes_without_peer(routes: Map<IpNetwork, u128>, target: u128) -> Map<
    IpNetwork,
    u128,
> {
    routes.remove_keys(routed_to(routes, target))
}

impl RoutingTable {
    /// A table without routes.
    pub fn new() -> (table: RoutingTable)
        ensures
            table@ == Map::<IpNetwork, u128>::empty(),
    {
        let table = RoutingTable { routes: table_new() };
        assert(table@ =~= Map::<IpNetwork, u128>::empty());
        table
    }

    /// Routes `network` to `peer`. Returns the peer that it was routed to
    /// before, if it was routed.
    pub fn insert(&mut self, network: IpNetwork, peer: u128) -> (before: Option<u128>)
        requires
            network.wf(),
        ensures
            final(self)@ == old(self)@.insert(network, peer),
            before == if old(self)@.contains_key(network) {
                Some(old(self)@[network])
            } else {
                None
            },
    {
        let ghost routes = table_routes(self.routes);
        let before = match network {
            IpNetwork::V4(address, prefix) => table_insert_v4(
                &mut self.routes,
                address,
                prefix,
                peer,
            ),
            IpNetwork::V6(address, prefix) => table_insert_v6(
                &mut self.routes,
                address,
                prefix,
                peer,
            ),
        };
        proof {
            assert(table_routes(self.routes) == routes.insert(network_key(network), peer));
            assert forall|other: IpNetwork| network_key(other) == network_key(network) implies other
                == network by {}
            assert(self@ =~= old(self)@.insert(network, peer));
        }
        before
    }

    /// Drops every route to `peer`.
    pub fn remove(&mut self, peer: u128)
        ensures
            final(self)@ == routes_without_peer(old(self)@, peer),
    {
        table_remove_peer(&mut self.routes, peer);
        proof {
            assert(self@ =~= routes_without_peer(old(self)@, peer));
        }
    }

    /// The route for `ip`: of the networks that contain it, the one with
    /// the longest prefix, and the peer that it leads to; or `None` if no
    /// network contains it.
    pub fn longest_match(&self, ip: IpAddress) -> (found: Option<(IpNetwork, u128)>)
        ensures
            match found {
                Some((network, peer)) => is_best_route(self@, network, ip) && self@[network]
                    == peer,
                None => has_no_route(self@, ip),
            },
    {
        match ip {
            IpAddress::V4(bits) => match table_longest_match_v4(&self.routes, bits) {
                Some((address, prefix, peer)) => {
                    let network = IpNetwork::V4(address, prefix);
                    proof {
                        assert forall|other: IpNetwork|
                            self@.contains_key(other) && other.spec_contains(
                                ip,
                            ) implies other.spec_prefix() <= prefix by {
                            assert(key_covers(network_key(other), ip));
                        }
                    }
                    Some((network, peer))
                },
                None => {
                    proof {
                        assert forall|other: IpNetwork|
                            self@.contains_key(other) implies !other.spec_contains(ip) by {
                            if other.spec_contains(ip) {
                                assert(key_covers(network_key(other), ip));
                            }
                        }
                    }
                    None
                },
            },
            IpAddress::V6(bits) => match table_longest_match_v6(&self.routes, bits) {
                Some((address, prefix, peer)) => {
                    let network = IpNetwork::V6(address, prefix);
                    proof {
                        assert forall|other: IpNetwork|
                            self@.contains_key(other) && other.spec_contains(
                                ip,
                            ) implies other.spec_prefix() <= prefix by {
                            assert(key_covers(network_key(other), ip));
                        }
                    }
                    Some((network, peer))
                },
                None => {
                    proof {
                        assert forall|other: IpNetwork|
                            self@.contains_key(other) implies !other.spec_contains(ip) by {
                            if other.spec_contains(ip) {
                                assert(key_covers(network_key(other), ip));
                            }
                        }
                    }
                    None
                },
            },
        }
    }
}

/// The peer that a packet for `ip` goes to.
pub fn peer_by_ip(peers_by_ip: &RoutingTable, ip: IpAddress) -> (peer: Option<u128>)
    ensures
        match peer {
            Some(id) => exists|network: IpNetwork|
                is_best_route(peers_by_ip@, network, ip) && peers_by_ip@[network] == id,
            None => has_no_route(peers_by_ip@, ip),
        },
{
    match peers_by_ip.longest_match(ip) {
        Some((_, peer)) => Some(peer),
        None => None,
    }
}

} // verus!
