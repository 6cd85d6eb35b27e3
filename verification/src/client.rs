//! The state of the tunnel in the client role: the resources, the routes to
//! peers, and the queries and events that wait.

use crate::dns::{
    answer_held_query, asks_for_addresses, classify, interception, local_answer, DnsQuery,
    Interception, ResolveStrategy,
};
use crate::error::Error;
use crate::ip::{IpAddress, IpNetwork};
use crate::packet::{ip_destination, IpPacket};
use crate::peer::{has_no_route, is_best_route, routes_without_peer, RoutingTable};
use crate::resources::{
    not_resource, same_dns_resource, DnsResource, DnsResourceTable, GatewayId,
    ResourceDescription, ResourceDescriptionCidr, ResourceDescriptionDns, ResourceId, ResourceIps,
};
use crate::search::{
    first_index, lemma_filter_push, lemma_first_index, lemma_first_index_at,
    lemma_first_index_none,
};
use crate::sentinel::SentinelMapping;
use crate::tunnel::{Event, DNS_QUERIES_QUEUE_SIZE};
use std::collections::VecDeque;
use vstd::prelude::*;

verus! {

/// What is said of a network resource whose network is not well formed.
pub const NETWORK_REFUSED: &'static str = "the network has host bits set";

/// The queue with one more item at its end, the oldest dropped first if
/// the queue is full.
pub open spec fn bounded_push<T>(queue: Seq<T>, item: T) -> Seq<T> {
    if queue.len() >= DNS_QUERIES_QUEUE_SIZE {
        queue.subrange(1, queue.len() as int).push(item)
    } else {
        queue.push(item)
    }
}

/// The index of the network resource that owns `ip`: of the resources whose
/// network contains it, the one with the longest prefix, and of several
/// such the first.
pub open spec fn owning_resource(resources: Seq<ResourceDescriptionCidr>, ip: IpAddress) -> Option<
    int,
>
    decreases resources.len(),
{
    if resources.len() == 0 {
        None
    } else {
        let before = owning_resource(resources.drop_last(), ip);
        let last = resources.last();
        let better = match before {
            Some(i) => resources[i].address.spec_prefix() < last.address.spec_prefix(),
            None => true,
        };
        if last.address.wf() && last.address.spec_contains(ip) && better {
            Some(resources.len() - 1)
        } else {
            before
        }
    }
}

/// What `owning_resource` finds contains the address and no resource that
/// contains it has a longer prefix; where it finds nothing, no resource
/// contains the address.
pub proof fn lemma_owning_resource(resources: Seq<ResourceDescriptionCidr>, ip: IpAddress)
    ensures
        match owning_resource(resources, ip) {
            Some(i) => 0 <= i < resources.len() && resources[i].address.wf()
                && resources[i].address.spec_contains(ip) && forall|j: int|
                0 <= j < resources.len() && (#[trigger] resources[j]).address.wf()
                    && resources[j].address.spec_contains(ip) ==> resources[j].address.spec_prefix()
                    <= resources[i].address.spec_prefix(),
            None => forall|j: int|
                0 <= j < resources.len() && (#[trigger] resources[j]).address.wf()
                    ==> !resources[j].address.spec_contains(ip),
        },
    decreases resources.len(),
{
    if resources.len() > 0 {
        let shorter = resources.drop_last();
        lemma_owning_resource(shorter, ip);
        assert forall|j: int| 0 <= j < shorter.len() implies #[trigger] shorter[j]
            == resources[j] by {}
        match owning_resource(resources, ip) {
            Some(i) => {
                assert forall|j: int|
                    0 <= j < resources.len() && (#[trigger] resources[j]).address.wf()
                        && resources[j].address.spec_contains(
                        ip,
                    ) implies resources[j].address.spec_prefix()
                    <= resources[i].address.spec_prefix() by {
                    if j < shorter.len() {
                        assert(shorter[j] == resources[j]);
                    }
                }
            },
            None => {
                assert forall|j: int|
                    0 <= j < resources.len() && (#[trigger] resources[j]).address.wf()
                    implies !resources[j].address.spec_contains(ip) by {
                    if j < shorter.len() {
                        assert(shorter[j] == resources[j]);
                    }
                }
            },
        }
    }
}

/// The state of the tunnel in the client role.
pub struct ClientState {
    /// The DNS resources, each under its pattern.
    pub dns_resources: DnsResourceTable,
    /// The in-tunnel addresses that stand for each DNS resource.
    pub dns_resources_internal_ips: ResourceIps,
    /// The network resources.
    pub cidr_resources: Vec<ResourceDescriptionCidr>,
    /// The sentinels and the upstream servers that they stand for.
    pub dns_mapping: SentinelMapping,
    /// The routes to peers.
    pub peers_by_ip: RoutingTable,
    /// The gateways that the client is connected to.
    pub connected_gateway_ids: Vec<GatewayId>,
    /// Which gateway serves which resource; the first entry for a resource
    /// counts.
    pub resources_gateways: Vec<(ResourceId, GatewayId)>,
    /// The queries that wait for an upstream resolver, oldest first.
    pub forwarded_dns_queries: VecDeque<DnsQuery>,
    /// The queries that wait for their resource to get addresses: the
    /// resource, the type asked for and the packet that asked.
    pub deferred_dns_queries: Vec<(DnsResource, u16, IpPacket)>,
    /// The events that wait to be reported, oldest first.
    pub buffered_events: VecDeque<Event<GatewayId>>,
    /// The number that the next intent to connect will carry.
    pub next_reference: usize,
}

/// A copy of a list of gateways.
fn clone_gateways(gateways: &Vec<GatewayId>) -> (copy: Vec<GatewayId>)
    ensures
        copy@ == gateways@,
{
    let mut copy: Vec<GatewayId> = Vec::new();
    let mut i: usize = 0;
    while i < gateways.len()
        invariant
            i <= gateways@.len(),
            copy@ == gateways@.subrange(0, i as int),
        decreases gateways@.len() - i,
    {
        copy.push(gateways[i]);
        assert(copy@ =~= gateways@.subrange(0, i + 1));
        i = i + 1;
    }
    assert(gateways@.subrange(0, i as int) =~= gateways@);
    copy
}

/// The condition that a network resource is another than `id`.
pub open spec fn other_network(id: ResourceId) -> spec_fn(ResourceDescriptionCidr) -> bool {
    |resource: ResourceDescriptionCidr| resource.id != id
}

/// The condition that a gateway is another than `gateway_id`.
pub open spec fn other_gateway(gateway_id: GatewayId) -> spec_fn(GatewayId) -> bool {
    |id: GatewayId| id != gateway_id
}

/// The condition that an entry names the gateway of the resource `id`.
pub open spec fn serves(id: ResourceId) -> spec_fn((ResourceId, GatewayId)) -> bool {
    |entry: (ResourceId, GatewayId)| entry.0 == id
}

/// The gateway that serves a resource: that of the first entry for it.
pub open spec fn serving_gateway(
    served: Seq<(ResourceId, GatewayId)>,
    id: ResourceId,
) -> Option<GatewayId> {
    match first_index(served, serves(id)) {
        Some(i) => Some(served[i].1),
        None => None,
    }
}

/// The condition that an entry is neither for the resource nor for the
/// gateway given, where one is given.
pub open spec fn not_served(
    resource: Option<ResourceId>,
    gateway: Option<GatewayId>,
) -> spec_fn((ResourceId, GatewayId)) -> bool {
    |entry: (ResourceId, GatewayId)| resource != Some(entry.0) && gateway != Some(entry.1)
}

/// The entries with the gateway `gateway` for the resource `id`, in place
/// of the first entry for the resource or, if there is none, at the end.
pub open spec fn gateway_assigned(
    served: Seq<(ResourceId, GatewayId)>,
    id: ResourceId,
    gateway: GatewayId,
) -> Seq<(ResourceId, GatewayId)> {
    match first_index(served, serves(id)) {
        Some(i) => served.update(i, (id, gateway)),
        None => served.push((id, gateway)),
    }
}

/// The routes once the gateway, if there is one, is gone.
pub open spec fn routes_after(routes: Map<IpNetwork, u128>, gone: Option<GatewayId>) -> Map<
    IpNetwork,
    u128,
> {
    match gone {
        Some(gateway) => routes_without_peer(routes, gateway.0),
        None => routes,
    }
}

/// The connected gateways once the gateway, if there is one, is gone.
pub open spec fn connected_after(connected: Seq<GatewayId>, gone: Option<GatewayId>) -> Seq<
    GatewayId,
> {
    match gone {
        Some(gateway) => connected.filter(other_gateway(gateway)),
        None => connected,
    }
}

/// The gateways but `gateway`, in their order.
fn without_gateway(gateways: &Vec<GatewayId>, gateway: GatewayId) -> (kept: Vec<GatewayId>)
    ensures
        kept@ == gateways@.filter(other_gateway(gateway)),
{
    let ghost keep = other_gateway(gateway);
    let mut kept: Vec<GatewayId> = Vec::new();
    let mut i: usize = 0;
    assert(gateways@.subrange(0, 0).filter(keep) =~= Seq::<GatewayId>::empty()) by {
        reveal(Seq::filter);
    }
    while i < gateways.len()
        invariant
            i <= gateways@.len(),
            keep == other_gateway(gateway),
            kept@ == gateways@.subrange(0, i as int).filter(keep),
        decreases gateways@.len() - i,
    {
        proof {
            assert(gateways@.subrange(0, i + 1) =~= gateways@.subrange(0, i as int).push(
                gateways@[i as int],
            ));
            lemma_filter_push(gateways@.subrange(0, i as int), gateways@[i as int], keep);
        }
        let id = gateways[i];
        if id.0 != gateway.0 {
            kept.push(id);
        }
        i = i + 1;
    }
    assert(gateways@.subrange(0, i as int) =~= gateways@);
    kept
}

/// The entries that are neither for the resource nor for the gateway
/// given, in their order.
fn without_served(
    served: &Vec<(ResourceId, GatewayId)>,
    resource: Option<ResourceId>,
    gateway: Option<GatewayId>,
) -> (kept: Vec<(ResourceId, GatewayId)>)
    ensures
        kept@ == served@.filter(not_served(resource, gateway)),
{
    let ghost keep = not_served(resource, gateway);
    let mut kept: Vec<(ResourceId, GatewayId)> = Vec::new();
    let mut i: usize = 0;
    assert(served@.subrange(0, 0).filter(keep) =~= Seq::<(ResourceId, GatewayId)>::empty()) by {
        reveal(Seq::filter);
    }
    while i < served.len()
        invariant
            i <= served@.len(),
            keep == not_served(resource, gateway),
            kept@ == served@.subrange(0, i as int).filter(keep),
        decreases served@.len() - i,
    {
        proof {
            assert(served@.subrange(0, i + 1) =~= served@.subrange(0, i as int).push(
                served@[i as int],
            ));
            lemma_filter_push(served@.subrange(0, i as int), served@[i as int], keep);
        }
        let entry = served[i];
        let of_resource = match resource {
            Some(id) => id.0 == entry.0.0,
            None => false,
        };
        let of_gateway = match gateway {
            Some(id) => id.0 == entry.1.0,
            None => false,
        };
        if !of_resource && !of_gateway {
            kept.push(entry);
        }
        i = i + 1;
    }
    assert(served@.subrange(0, i as int) =~= served@);
    kept
}

/// The number after `reference`, starting over after the largest.
pub open spec fn reference_after(reference: usize) -> usize {
    if reference < usize::MAX {
        (reference + 1) as usize
    } else {
        0
    }
}

/// The answer that a held query gets once `resource` has the addresses
/// `ips`: none unless the query was held for that resource, asks for
/// addresses and can be answered.
pub open spec fn held_answer(
    entry: (DnsResource, u16, IpPacket),
    resource: (ResourceDescriptionDns, Seq<u8>),
    ips: Seq<IpAddress>,
) -> Option<Interception> {
    if same_dns_resource(entry.0@, resource) && asks_for_addresses(entry.2@) {
        local_answer(ips, entry.2@)
    } else {
        None
    }
}

/// The condition that a held query stays held.
pub open spec fn still_held(
    resource: (ResourceDescriptionDns, Seq<u8>),
    ips: Seq<IpAddress>,
) -> spec_fn((DnsResource, u16, IpPacket)) -> bool {
    |entry: (DnsResource, u16, IpPacket)| held_answer(entry, resource, ips) is None
}

/// The condition that a held query is answered.
pub open spec fn now_answered(
    resource: (ResourceDescriptionDns, Seq<u8>),
    ips: Seq<IpAddress>,
) -> spec_fn((DnsResource, u16, IpPacket)) -> bool {
    |entry: (DnsResource, u16, IpPacket)| held_answer(entry, resource, ips) is Some
}

/// Whether the event is the answer to a held query, as a packet for the
/// device.
pub open spec fn is_answer_to(
    event: Event<GatewayId>,
    entry: (DnsResource, u16, IpPacket),
    resource: (ResourceDescriptionDns, Seq<u8>),
    ips: Seq<IpAddress>,
) -> bool {
    event matches Event::SendPacket(reply) && held_answer(entry, resource, ips) == Some(
        Interception::LocalResponse(reply.octets(), reply is Ipv4),
    )
}

impl ClientState {
    /// Whether no more queries wait for an upstream resolver than may.
    pub open spec fn wf(&self) -> bool {
        self.forwarded_dns_queries@.len() <= DNS_QUERIES_QUEUE_SIZE
    }

    /// Whether the event is the intent to connect to `resource`, numbered
    /// as the state's next intent and naming the gateways connected.
    pub open spec fn is_intent(
        &self,
        event: Event<GatewayId>,
        resource: ResourceDescription,
    ) -> bool {
        event matches Event::ConnectionIntent { resource: wanted, connected_gateway_ids, reference }
            && wanted == resource && connected_gateway_ids@ == self.connected_gateway_ids@
            && reference == self.next_reference
    }

    /// The state of a client that knows of nothing yet, with the given
    /// sentinels.
    pub fn new(dns_mapping: SentinelMapping) -> (state: ClientState)
        ensures
            state.wf(),
            state.dns_mapping == dns_mapping,
            state.dns_resources@.len() == 0,
            state.dns_resources_internal_ips@.len() == 0,
            state.cidr_resources@.len() == 0,
            state.peers_by_ip@ == Map::<IpNetwork, u128>::empty(),
            state.connected_gateway_ids@.len() == 0,
            state.resources_gateways@.len() == 0,
            state.forwarded_dns_queries@.len() == 0,
            state.deferred_dns_queries@.len() == 0,
            state.buffered_events@.len() == 0,
            state.next_reference == 0,
    {
        ClientState {
            dns_resources: DnsResourceTable::new(),
            dns_resources_internal_ips: ResourceIps::new(),
            cidr_resources: Vec::new(),
            dns_mapping,
            peers_by_ip: RoutingTable::new(),
            connected_gateway_ids: Vec::new(),
            resources_gateways: Vec::new(),
            forwarded_dns_queries: VecDeque::new(),
            deferred_dns_queries: Vec::new(),
            buffered_events: VecDeque::new(),
            next_reference: 0,
        }
    }

    /// Takes note of a resource. A DNS resource goes under its pattern, in
    /// place of what was there. A network resource is added, unless its
    /// network is not well formed, which is an error.
    pub fn add_resource(&mut self, resource_description: ResourceDescription) -> (result: Result<
        (),
        Error,
    >)
        ensures
            final(self).dns_resources_internal_ips == old(self).dns_resources_internal_ips,
            final(self).dns_mapping == old(self).dns_mapping,
            final(self).peers_by_ip == old(self).peers_by_ip,
            final(self).connected_gateway_ids == old(self).connected_gateway_ids,
            final(self).resources_gateways == old(self).resources_gateways,
            final(self).forwarded_dns_queries == old(self).forwarded_dns_queries,
            final(self).deferred_dns_queries == old(self).deferred_dns_queries,
            final(self).buffered_events == old(self).buffered_events,
            final(self).next_reference == old(self).next_reference,
            match resource_description {
                ResourceDescription::Dns(dns) => {
                    &&& result is Ok
                    &&& final(self).cidr_resources == old(self).cidr_resources
                    &&& final(self).dns_resources@ == crate::resources::resource_inserted(
                        old(self).dns_resources@,
                        dns.address@,
                        dns,
                    )
                },
                ResourceDescription::Cidr(cidr) => {
                    &&& final(self).dns_resources == old(self).dns_resources
                    &&& if cidr.address.wf() {
                        &&& result is Ok
                        &&& final(self).cidr_resources@ == old(self).cidr_resources@.push(cidr)
                    } else {
                        &&& result matches Err(Error::Other(text)) && text@ == NETWORK_REFUSED@
                        &&& final(self).cidr_resources == old(self).cidr_resources
                    }
                },
            },
    {
        match resource_description {
            ResourceDescription::Dns(dns) => {
                self.dns_resources.insert(dns.address.clone(), dns);
                Ok(())
            },
            ResourceDescription::Cidr(cidr) => {
                if cidr.address.is_valid() {
                    self.cidr_resources.push(cidr);
                    Ok(())
                } else {
                    Err(Error::Other(NETWORK_REFUSED.to_string()))
                }
            },
        }
    }

    /// Whether `after` is `before` without the resource `id`, and `stopped`
    /// the gateway that served it. No description of the resource stays,
    /// neither among the DNS resources nor among the network resources. The
    /// gateway that served it, if there is one, is gone as
    /// `cleanup_connected_gateway` has it: no route leads to it, it no
    /// longer counts as connected, and it serves no resource.
    pub open spec fn resource_removed(
        before: ClientState,
        id: ResourceId,
        after: ClientState,
        stopped: Option<GatewayId>,
    ) -> bool {
        &&& after.dns_resources_internal_ips == before.dns_resources_internal_ips
        &&& after.dns_mapping == before.dns_mapping
        &&& after.forwarded_dns_queries == before.forwarded_dns_queries
        &&& after.deferred_dns_queries == before.deferred_dns_queries
        &&& after.buffered_events == before.buffered_events
        &&& after.next_reference == before.next_reference
        &&& after.dns_resources@ == before.dns_resources@.filter(not_resource(id))
        &&& after.cidr_resources@ == before.cidr_resources@.filter(other_network(id))
        &&& stopped == serving_gateway(before.resources_gateways@, id)
        &&& after.peers_by_ip@ == routes_after(before.peers_by_ip@, stopped)
        &&& after.connected_gateway_ids@ == connected_after(
            before.connected_gateway_ids@,
            stopped,
        )
        &&& after.resources_gateways@ == before.resources_gateways@.filter(
            not_served(Some(id), stopped),
        )
    }

    /// The place of the first entry for a resource.
    fn served_at(&self, id: ResourceId) -> (at: Option<usize>)
        ensures
            match at {
                Some(i) => i < self.resources_gateways@.len() && first_index(
                    self.resources_gateways@,
                    serves(id),
                ) == Some(i as int),
                None => first_index(self.resources_gateways@, serves(id)) is None,
            },
    {
        let ghost wanted = serves(id);
        let mut i: usize = 0;
        while i < self.resources_gateways.len()
            invariant
                i <= self.resources_gateways@.len(),
                wanted == serves(id),
                forall|j: int| 0 <= j < i ==> !wanted(#[trigger] self.resources_gateways@[j]),
            decreases self.resources_gateways@.len() - i,
        {
            if self.resources_gateways[i].0.0 == id.0 {
                proof {
                    lemma_first_index_at(self.resources_gateways@, wanted, i as int);
                }
                return Some(i);
            }
            i = i + 1;
        }
        proof {
            lemma_first_index_none(self.resources_gateways@, wanted);
        }
        None
    }

    /// The gateway that serves a resource, if one does.
    pub fn gateway_of(&self, id: ResourceId) -> (gateway: Option<GatewayId>)
        ensures
            gateway == serving_gateway(self.resources_gateways@, id),
    {
        match self.served_at(id) {
            Some(i) => Some(self.resources_gateways[i].1),
            None => None,
        }
    }

    /// Takes note that a gateway serves a resource from now on, in place of
    /// the gateway that served it before.
    pub fn gateway_assigned(&mut self, id: ResourceId, gateway: GatewayId)
        ensures
            final(self).dns_resources == old(self).dns_resources,
            final(self).dns_resources_internal_ips == old(self).dns_resources_internal_ips,
            final(self).cidr_resources == old(self).cidr_resources,
            final(self).dns_mapping == old(self).dns_mapping,
            final(self).peers_by_ip == old(self).peers_by_ip,
            final(self).connected_gateway_ids == old(self).connected_gateway_ids,
            final(self).forwarded_dns_queries == old(self).forwarded_dns_queries,
            final(self).deferred_dns_queries == old(self).deferred_dns_queries,
            final(self).buffered_events == old(self).buffered_events,
            final(self).next_reference == old(self).next_reference,
            final(self).resources_gateways@ == gateway_assigned(
                old(self).resources_gateways@,
                id,
                gateway,
            ),
            serving_gateway(final(self).resources_gateways@, id) == Some(gateway),
    {
        let ghost wanted = serves(id);
        let ghost before = self.resources_gateways@;
        proof {
            lemma_first_index(before, wanted);
        }
        match self.served_at(id) {
            Some(at) => {
                self.resources_gateways.set(at, (id, gateway));
                proof {
                    assert forall|j: int| 0 <= j < at implies !wanted(
                        #[trigger] self.resources_gateways@[j],
                    ) by {
                        assert(self.resources_gateways@[j] == before[j]);
                    }
                    lemma_first_index_at(self.resources_gateways@, wanted, at as int);
                }
            },
            None => {
                self.resources_gateways.push((id, gateway));
                proof {
                    assert forall|j: int| 0 <= j < before.len() implies !wanted(
                        #[trigger] self.resources_gateways@[j],
                    ) by {
                        assert(self.resources_gateways@[j] == before[j]);
                    }
                    lemma_first_index_at(self.resources_gateways@, wanted, before.len() as int);
                }
            },
        }
    }

    /// Forgets a resource and the gateway that serves it, and returns that
    /// gateway, whose peer is to be stopped. The other resources keep their
    /// order.
    pub fn remove_resource(&mut self, id: ResourceId) -> (stopped: Option<GatewayId>)
        ensures
            ClientState::resource_removed(*old(self), id, *final(self), stopped),
    {
        let stopped = self.gateway_of(id);
        self.dns_resources.remove(id);
        let ghost before = self.cidr_resources@;
        let ghost keep = other_network(id);
        let mut kept: Vec<ResourceDescriptionCidr> = Vec::new();
        let mut i: usize = 0;
        assert(before.subrange(0, 0).filter(keep) =~= Seq::<ResourceDescriptionCidr>::empty()) by {
            reveal(Seq::filter);
        }
        while i < self.cidr_resources.len()
            invariant
                i <= self.cidr_resources@.len(),
                before == self.cidr_resources@,
                keep == other_network(id),
                kept@ == before.subrange(0, i as int).filter(keep),
            decreases self.cidr_resources@.len() - i,
        {
            proof {
                assert(before.subrange(0, i + 1) =~= before.subrange(0, i as int).push(
                    before[i as int],
                ));
                lemma_filter_push(before.subrange(0, i as int), before[i as int], keep);
            }
            if self.cidr_resources[i].id.0 != id.0 {
                kept.push(self.cidr_resources[i].clone());
            }
            i = i + 1;
        }
        assert(before.subrange(0, i as int) =~= before);
        self.cidr_resources = kept;
        if let Some(gateway) = stopped {
            self.peers_by_ip.remove(gateway.0);
            self.connected_gateway_ids = without_gateway(&self.connected_gateway_ids, gateway);
        }
        self.resources_gateways = without_served(&self.resources_gateways, Some(id), stopped);
        stopped
    }

    /// Whether `after` is `before` with its oldest waiting event, `event`,
    /// taken out.
    pub open spec fn event_polled(
        before: ClientState,
        after: ClientState,
        event: Option<Event<GatewayId>>,
    ) -> bool {
        &&& after.dns_resources == before.dns_resources
        &&& after.dns_resources_internal_ips == before.dns_resources_internal_ips
        &&& after.cidr_resources == before.cidr_resources
        &&& after.dns_mapping == before.dns_mapping
        &&& after.peers_by_ip == before.peers_by_ip
        &&& after.connected_gateway_ids == before.connected_gateway_ids
        &&& after.resources_gateways == before.resources_gateways
        &&& after.forwarded_dns_queries == before.forwarded_dns_queries
        &&& after.deferred_dns_queries == before.deferred_dns_queries
        &&& after.next_reference == before.next_reference
        &&& match event {
            Some(e) => {
                &&& before.buffered_events@.len() > 0
                &&& e == before.buffered_events@[0]
                &&& after.buffered_events@ == before.buffered_events@.drop_first()
            },
            None => {
                &&& before.buffered_events@.len() == 0
                &&& after.buffered_events@ == before.buffered_events@
            },
        }
    }

    /// The next event that waits to be reported, oldest first.
    pub fn poll_next_event(&mut self) -> (event: Option<Event<GatewayId>>)
        ensures
            ClientState::event_polled(*old(self), *final(self), event),
    {
        self.buffered_events.pop_front()
    }

    /// The next query that waits for an upstream resolver, oldest first.
    pub fn poll_dns_queries(&mut self) -> (query: Option<DnsQuery>)
        ensures
            final(self).dns_resources == old(self).dns_resources,
            final(self).dns_resources_internal_ips == old(self).dns_resources_internal_ips,
            final(self).cidr_resources == old(self).cidr_resources,
            final(self).dns_mapping == old(self).dns_mapping,
            final(self).peers_by_ip == old(self).peers_by_ip,
            final(self).connected_gateway_ids == old(self).connected_gateway_ids,
            final(self).resources_gateways == old(self).resources_gateways,
            final(self).deferred_dns_queries == old(self).deferred_dns_queries,
            final(self).buffered_events == old(self).buffered_events,
            final(self).next_reference == old(self).next_reference,
            old(self).wf() ==> final(self).wf(),
            match query {
                Some(q) => {
                    &&& old(self).forwarded_dns_queries@.len() > 0
                    &&& q == old(self).forwarded_dns_queries@[0]
                    &&& final(self).forwarded_dns_queries@
                        == old(self).forwarded_dns_queries@.drop_first()
                },
                None => {
                    &&& old(self).forwarded_dns_queries@.len() == 0
                    &&& final(self).forwarded_dns_queries@ == old(self).forwarded_dns_queries@
                },
            },
    {
        self.forwarded_dns_queries.pop_front()
    }

    /// Whether `after` is `before` without the gateway: no route leads to
    /// it, it no longer counts as connected, and it serves no resource.
    pub open spec fn gateway_cleaned_up(
        before: ClientState,
        gateway_id: &GatewayId,
        after: ClientState,
    ) -> bool {
        &&& after.dns_resources == before.dns_resources
        &&& after.dns_resources_internal_ips == before.dns_resources_internal_ips
        &&& after.cidr_resources == before.cidr_resources
        &&& after.dns_mapping == before.dns_mapping
        &&& after.forwarded_dns_queries == before.forwarded_dns_queries
        &&& after.deferred_dns_queries == before.deferred_dns_queries
        &&& after.buffered_events == before.buffered_events
        &&& after.next_reference == before.next_reference
        &&& after.peers_by_ip@ == routes_without_peer(before.peers_by_ip@, gateway_id.0)
        &&& after.connected_gateway_ids@ == before.connected_gateway_ids@.filter(
            other_gateway(*gateway_id),
        )
        &&& after.resources_gateways@ == before.resources_gateways@.filter(
            not_served(None, Some(*gateway_id)),
        )
    }

    /// Forgets a gateway: every route to it goes, it no longer counts as
    /// connected, and it serves no resource any longer.
    pub fn cleanup_connected_gateway(&mut self, gateway_id: &GatewayId)
        ensures
            ClientState::gateway_cleaned_up(*old(self), gateway_id, *final(self)),
    {
        self.peers_by_ip.remove(gateway_id.0);
        self.connected_gateway_ids = without_gateway(&self.connected_gateway_ids, *gateway_id);
        self.resources_gateways = without_served(
            &self.resources_gateways,
            None,
            Some(*gateway_id),
        );
    }

    /// The network resource that owns `ip`.
    fn cidr_resource_for(&self, ip: IpAddress) -> (found: Option<ResourceDescriptionCidr>)
        ensures
            match owning_resource(self.cidr_resources@, ip) {
                Some(i) => found == Some(self.cidr_resources@[i]),
                None => found is None,
            },
    {
        let mut best: Option<usize> = None;
        let mut i: usize = 0;
        assert(self.cidr_resources@.subrange(0, 0) =~= Seq::<ResourceDescriptionCidr>::empty());
        while i < self.cidr_resources.len()
            invariant
                i <= self.cidr_resources@.len(),
                match owning_resource(self.cidr_resources@.subrange(0, i as int), ip) {
                    Some(k) => best == Some(k as usize) && 0 <= k < i,
                    None => best is None,
                },
            decreases self.cidr_resources@.len() - i,
        {
            let ghost so_far = self.cidr_resources@.subrange(0, i as int);
            let ghost next = self.cidr_resources@.subrange(0, i + 1);
            proof {
                assert(next.drop_last() =~= so_far);
                assert(next.last() == self.cidr_resources@[i as int]);
                match owning_resource(so_far, ip) {
                    Some(k) => {
                        assert(next[k] == self.cidr_resources@[k]);
                    },
                    None => {},
                }
            }
            let network = self.cidr_resources[i].address;
            if network.is_valid() && network.contains(ip) {
                let better = match best {
                    Some(k) => self.cidr_resources[k].address.prefix() < network.prefix(),
                    None => true,
                };
                if better {
                    best = Some(i);
                }
            }
            i = i + 1;
        }
        assert(self.cidr_resources@.subrange(0, i as int) =~= self.cidr_resources@);
        match best {
            Some(k) => Some(self.cidr_resources[k].clone()),
            None => None,
        }
    }

    /// Puts the intent to connect to `resource` among the events that wait.
    fn on_connection_intent(&mut self, resource: ResourceDescription)
        ensures
            final(self).dns_resources == old(self).dns_resources,
            final(self).dns_resources_internal_ips == old(self).dns_resources_internal_ips,
            final(self).cidr_resources == old(self).cidr_resources,
            final(self).dns_mapping == old(self).dns_mapping,
            final(self).peers_by_ip == old(self).peers_by_ip,
            final(self).connected_gateway_ids == old(self).connected_gateway_ids,
            final(self).resources_gateways == old(self).resources_gateways,
            final(self).forwarded_dns_queries == old(self).forwarded_dns_queries,
            final(self).deferred_dns_queries == old(self).deferred_dns_queries,
            final(self).next_reference == reference_after(old(self).next_reference),
            final(self).buffered_events@.len() == old(self).buffered_events@.len() + 1,
            final(self).buffered_events@.drop_last() == old(self).buffered_events@,
            old(self).is_intent(final(self).buffered_events@.last(), resource),
    {
        let event = Event::ConnectionIntent {
            resource,
            connected_gateway_ids: clone_gateways(&self.connected_gateway_ids),
            reference: self.next_reference,
        };
        let ghost before = self.buffered_events@;
        self.buffered_events.push_back(event);
        assert(self.buffered_events@.drop_last() =~= before);
        self.next_reference = if self.next_reference < usize::MAX {
            self.next_reference + 1
        } else {
            0
        };
    }

    /// Whether `after` and `routed` are what becomes of `before` and of a
    /// packet from the device, as `encapsulate` describes.
    pub open spec fn encapsulated(
        before: ClientState,
        packet: IpPacket,
        after: ClientState,
        routed: Option<(GatewayId, IpPacket)>,
    ) -> bool {
        &&& after.dns_resources == before.dns_resources
        &&& after.dns_resources_internal_ips == before.dns_resources_internal_ips
        &&& after.cidr_resources == before.cidr_resources
        &&& after.dns_mapping == before.dns_mapping
        &&& after.peers_by_ip == before.peers_by_ip
        &&& after.connected_gateway_ids == before.connected_gateway_ids
        &&& after.resources_gateways == before.resources_gateways
        &&& before.wf() ==> after.wf()
        &&& match interception(
                    before.dns_resources@,
                    before.dns_resources_internal_ips@,
                    before.dns_mapping@,
                    packet@,
                ) {
                    Some(Interception::LocalResponse(octets, ipv4)) => {
                        &&& routed is None
                        &&& after.forwarded_dns_queries == before.forwarded_dns_queries
                        &&& after.deferred_dns_queries == before.deferred_dns_queries
                        &&& after.next_reference == before.next_reference
                        &&& after.buffered_events@.len() == before.buffered_events@.len() + 1
                        &&& after.buffered_events@.drop_last() == before.buffered_events@
                        &&& after.buffered_events@.last() matches Event::SendPacket(reply)
                            && reply.octets() == octets && (reply is Ipv4) == ipv4
                    },
                    Some(Interception::ForwardQuery(name, record_type, _)) => {
                        &&& routed is None
                        &&& after.buffered_events == before.buffered_events
                        &&& after.deferred_dns_queries == before.deferred_dns_queries
                        &&& after.next_reference == before.next_reference
                        &&& exists|query: DnsQuery|
                            #![auto]
                            query.name@ == name && query.record_type == record_type && query.query
                                == packet && after.forwarded_dns_queries@ == bounded_push(
                                before.forwarded_dns_queries@,
                                query,
                            )
                    },
                    Some(Interception::DeferredResponse(resource, qtype)) => {
                        &&& routed is None
                        &&& after.forwarded_dns_queries == before.forwarded_dns_queries
                        &&& after.next_reference == reference_after(before.next_reference)
                        &&& after.buffered_events@.len() == before.buffered_events@.len() + 1
                        &&& after.buffered_events@.drop_last() == before.buffered_events@
                        &&& before.is_intent(
                            after.buffered_events@.last(),
                            ResourceDescription::Dns(resource.0),
                        )
                        &&& after.deferred_dns_queries@.len() == before.deferred_dns_queries@.len() + 1
                        &&& after.deferred_dns_queries@.drop_last() == before.deferred_dns_queries@
                        &&& after.deferred_dns_queries@.last().0@ == resource
                        &&& after.deferred_dns_queries@.last().1 == qtype
                        &&& after.deferred_dns_queries@.last().2 == packet
                    },
                    None => {
                        &&& after.forwarded_dns_queries == before.forwarded_dns_queries
                        &&& after.deferred_dns_queries == before.deferred_dns_queries
                        &&& match routed {
                            Some((gateway, given)) => {
                                &&& given == packet
                                &&& after.buffered_events == before.buffered_events
                                &&& after.next_reference == before.next_reference
                                &&& exists|network: IpNetwork|
                                    is_best_route(
                                        before.peers_by_ip@,
                                        network,
                                        ip_destination(packet@),
                                    ) && before.peers_by_ip@[network] == gateway.0
                            },
                            None => {
                                &&& has_no_route(before.peers_by_ip@, ip_destination(packet@))
                                &&& match owning_resource(
                                    before.cidr_resources@,
                                    ip_destination(packet@),
                                ) {
                                    Some(i) => {
                                        &&& after.next_reference == reference_after(
                                            before.next_reference,
                                        )
                                        &&& after.buffered_events@.len() == before.buffered_events@.len() + 1
                                        &&& after.buffered_events@.drop_last() == before.buffered_events@
                                        &&& before.is_intent(
                                            after.buffered_events@.last(),
                                            ResourceDescription::Cidr(before.cidr_resources@[i]),
                                        )
                                    },
                                    None => after.buffered_events == before.buffered_events
                                        && after.next_reference == before.next_reference,
                                }
                            },
                        }
                    },
                }
    }

    /// Decides where a packet from the device goes.
    ///
    /// A DNS query to a sentinel is dealt with here and goes nowhere: a
    /// local answer waits as a packet for the device; a query to send on
    /// waits for an upstream resolver, pushing out the oldest if a hundred
    /// wait already; a query to hold is kept with its packet, and the
    /// intent to connect to its resource waits to be reported.
    ///
    /// Any other packet goes to the peer of the most specific route that
    /// contains its destination, as it is. Without a route, the intent to
    /// connect to the network resource that owns the destination waits to
    /// be reported, and the packet is dropped; without such a resource the
    /// packet is dropped and nothing else happens.
    pub fn encapsulate(&mut self, packet: IpPacket) -> (routed: Option<(GatewayId, IpPacket)>)
        ensures
            ClientState::encapsulated(*old(self), packet, *final(self), routed),
    {
        match classify(
            &self.dns_resources,
            &self.dns_resources_internal_ips,
            &self.dns_mapping,
            &packet,
        ) {
            Some(ResolveStrategy::LocalResponse(reply)) => {
                let ghost before = self.buffered_events@;
                self.buffered_events.push_back(Event::SendPacket(reply));
                assert(self.buffered_events@.drop_last() =~= before);
                None
            },
            Some(ResolveStrategy::ForwardQuery(params)) => {
                let query = params.into_query(packet);
                let ghost pushed = query;
                if self.forwarded_dns_queries.len() >= DNS_QUERIES_QUEUE_SIZE {
                    self.forwarded_dns_queries.pop_front();
                }
                self.forwarded_dns_queries.push_back(query);
                assert(self.forwarded_dns_queries@ == bounded_push(
                    old(self).forwarded_dns_queries@,
                    pushed,
                ));
                None
            },
            Some(ResolveStrategy::DeferredResponse((resource, qtype))) => {
                let description = resource.description.clone();
                let ghost before = self.deferred_dns_queries@;
                self.deferred_dns_queries.push((resource, qtype, packet));
                assert(self.deferred_dns_queries@.drop_last() =~= before);
                self.on_connection_intent(ResourceDescription::Dns(description));
                None
            },
            None => {
                let destination = packet.destination();
                proof {
                    lemma_owning_resource(self.cidr_resources@, destination);
                }
                match self.peers_by_ip.longest_match(destination) {
                    Some((_, peer)) => Some((GatewayId(peer), packet)),
                    None => {
                        if let Some(resource) = self.cidr_resource_for(destination) {
                            self.on_connection_intent(ResourceDescription::Cidr(resource));
                        }
                        None
                    },
                }
            },
        }
    }

    /// Takes note of the addresses that stand for a DNS resource from now
    /// on, and answers the queries that were held for it. Each held query
    /// for the resource that asks for addresses and can be answered leaves
    /// the held queries, and its answer waits as a packet for the device,
    /// the answers in the order in which the queries were held. Returns how
    /// many queries were answered.
    pub fn resource_ips_assigned(
        &mut self,
        resource: DnsResource,
        ips: Vec<IpAddress>,
    ) -> (answered: usize)
        ensures
            final(self).dns_resources == old(self).dns_resources,
            final(self).cidr_resources == old(self).cidr_resources,
            final(self).dns_mapping == old(self).dns_mapping,
            final(self).peers_by_ip == old(self).peers_by_ip,
            final(self).connected_gateway_ids == old(self).connected_gateway_ids,
            final(self).resources_gateways == old(self).resources_gateways,
            final(self).forwarded_dns_queries == old(self).forwarded_dns_queries,
            final(self).next_reference == old(self).next_reference,
            final(self).dns_resources_internal_ips@ == crate::resources::ips_assigned(
                old(self).dns_resources_internal_ips@,
                resource@,
                ips@,
            ),
            final(self).deferred_dns_queries@ == old(self).deferred_dns_queries@.filter(
                still_held(resource@, ips@),
            ),
            answered == old(self).deferred_dns_queries@.filter(now_answered(resource@, ips@)).len(),
            final(self).buffered_events@.len() == old(self).buffered_events@.len() + answered,
            final(self).buffered_events@.subrange(0, old(self).buffered_events@.len() as int)
                == old(self).buffered_events@,
            forall|i: int|
                0 <= i < answered ==> is_answer_to(
                    #[trigger] final(self).buffered_events@[old(self).buffered_events@.len() + i],
                    old(self).deferred_dns_queries@.filter(now_answered(resource@, ips@))[i],
                    resource@,
                    ips@,
                ),
    {
        let mut held: Vec<(DnsResource, u16, IpPacket)> = Vec::new();
        std::mem::swap(&mut held, &mut self.deferred_dns_queries);
        let ghost events_before = self.buffered_events@;
        let ghost all = held@;
        let count = held.len();
        let ghost keep = still_held(resource@, ips@);
        let ghost answer = now_answered(resource@, ips@);
        let mut answered: usize = 0;
        let mut kept: Vec<(DnsResource, u16, IpPacket)> = Vec::new();
        proof {
            reveal(Seq::filter);
            assert(all.subrange(0, 0) =~= Seq::<(DnsResource, u16, IpPacket)>::empty());
        }
        for entry in iter: held
            invariant
                iter.seq() == all,
                all.len() == count,
                keep == still_held(resource@, ips@),
                answer == now_answered(resource@, ips@),
                self.deferred_dns_queries@.len() == 0,
                self.dns_resources == old(self).dns_resources,
                self.dns_resources_internal_ips == old(self).dns_resources_internal_ips,
                self.cidr_resources == old(self).cidr_resources,
                self.dns_mapping == old(self).dns_mapping,
                self.peers_by_ip == old(self).peers_by_ip,
                self.connected_gateway_ids == old(self).connected_gateway_ids,
                self.resources_gateways == old(self).resources_gateways,
                self.forwarded_dns_queries == old(self).forwarded_dns_queries,
                self.next_reference == old(self).next_reference,
                kept@ == all.subrange(0, iter.index() as int).filter(keep),
                answered == all.subrange(0, iter.index() as int).filter(answer).len(),
                answered <= iter.index(),
                self.buffered_events@.len() == events_before.len() + answered,
                self.buffered_events@.subrange(0, events_before.len() as int) == events_before,
                forall|i: int|
                    0 <= i < answered ==> is_answer_to(
                        #[trigger] self.buffered_events@[events_before.len() + i],
                        all.subrange(0, iter.index() as int).filter(answer)[i],
                        resource@,
                        ips@,
                    ),
        {
            let ghost at = iter.index() as int;
            let ghost so_far = all.subrange(0, at);
            proof {
                assert(all.subrange(0, at + 1) =~= so_far.push(all[at]));
                lemma_filter_push(so_far, all[at], keep);
                lemma_filter_push(so_far, all[at], answer);
                assert(entry == all[at]);
            }
            let (held_for, qtype, packet) = entry;
            let reply = if held_for.same(&resource) {
                answer_held_query(&ips, &packet)
            } else {
                None
            };
            match reply {
                Some(reply) => {
                    let ghost before = self.buffered_events@;
                    self.buffered_events.push_back(Event::SendPacket(reply));
                    proof {
                        assert(self.buffered_events@.subrange(0, events_before.len() as int)
                            =~= before.subrange(0, events_before.len() as int));
                        let found = all.subrange(0, at + 1).filter(answer);
                        assert(found == so_far.filter(answer).push(all[at]));
                        assert forall|i: int| 0 <= i < answered + 1 implies is_answer_to(
                            #[trigger] self.buffered_events@[events_before.len() + i],
                            found[i],
                            resource@,
                            ips@,
                        ) by {
                            if i < answered {
                                assert(self.buffered_events@[events_before.len() + i]
                                    == before[events_before.len() + i]);
                                assert(found[i] == so_far.filter(answer)[i]);
                            }
                        }
                    }
                    answered = answered + 1;
                },
                None => {
                    kept.push((held_for, qtype, packet));
                },
            }
        }
        proof {
            assert(all.subrange(0, all.len() as int) =~= all);
        }
        self.deferred_dns_queries = kept;
        self.dns_resources_internal_ips.insert(resource, ips);
        answered
    }
}

} // verus!
