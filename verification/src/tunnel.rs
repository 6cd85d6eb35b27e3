//! The tunnel's event loop: what to do with each thing that the device, the
//! sockets and the connections report.
//!
//! The loop itself runs elsewhere. Each turn it asks its sources in a fixed
//! order and reports what each says; the functions here say what to do
//! with it. A turn ends with the first thing that makes progress.

use crate::client::ClientState;
use crate::error::Error;
use crate::messages::ReuseConnection;
use crate::packet::{IpPacket, Packet};
use crate::peer::{routes_without_peer, Peer, PeerStats, RoutingTable};
use crate::resources::{ClientId, ConnectionId, GatewayId, ResourceDescription, ResourceId};
use crate::search::{first_index, lemma_first_index, lemma_first_index_at, lemma_first_index_none};
use crate::sentinel::SocketAddress;
use std::collections::HashMap;
use vstd::prelude::*;

verus! {

/// The largest UDP datagram.
pub const MAX_UDP_SIZE: usize = 65535;

/// How many queries may wait for an upstream resolver.
pub const DNS_QUERIES_QUEUE_SIZE: usize = 100;

/// The realm in which the relays know the client.
pub const REALM: &'static str = "firezone";

/// A snapshot of the peers' statistics, by connection.
#[allow(dead_code)]
#[derive(Debug, Clone)]
pub struct TunnelStats<TId> {
    peer_connections: HashMap<TId, PeerStats<TId>>,
}

/// What the tunnel reports to its owner.
#[derive(Debug)]
pub enum Event<TId> {
    /// A candidate for a path to the peer of a connection.
    SignalIceCandidate { conn_id: TId, candidate: String },
    /// The client wants to reach a resource that it has no connection for.
    ConnectionIntent {
        resource: ResourceDescription,
        connected_gateway_ids: Vec<GatewayId>,
        reference: usize,
    },
    /// Connections whose resources are to be asked for again.
    RefreshResources { connections: Vec<ReuseConnection> },
    /// A packet for the device.
    SendPacket(Packet),
    /// A peer is gone.
    StopPeer(TId),
}

/// What the socket, the node and the peer's transform report while a
/// datagram is taken in.
pub enum SocketInput<TId> {
    /// The sockets have nothing to read yet.
    NotReady,
    /// Reading the sockets failed.
    ReadFailed,
    /// A datagram was read; it is to be handed to the node.
    Received,
    /// The node took the datagram for itself: it was no packet of a peer.
    Consumed,
    /// The node could not decrypt the datagram.
    DecapsulateFailed,
    /// The node decrypted a packet of this connection.
    Decapsulated(TId),
    /// The peer's transform could not be undone on the packet.
    UntransformFailed,
    /// The peer's transform was undone; this is the packet for the device.
    Untransformed(Packet),
}

/// What to do next while a datagram is taken in.
pub enum SocketStep {
    /// Nothing can be done until the sockets are readable.
    Wait,
    /// Drop what there is and come back at once.
    Retry,
    /// Hand the datagram to the node.
    Decapsulate,
    /// Undo the peer's transform on the packet.
    Untransform,
    /// The packet is ready for the device.
    Deliver(Packet),
}

/// What the sockets, the node and the timer report while the connections
/// are looked after.
pub enum ConnectionInput<TId> {
    /// Whether the sockets can send; an error counts as able.
    SendReady(bool),
    /// A datagram that the node wants sent, if it has one.
    Transmit(bool),
    /// The node signals a candidate.
    SignalIceCandidate { connection: TId, candidate: String },
    /// The node gave up a connection.
    ConnectionFailed(TId),
    /// The node has no event, or one that is of no concern.
    NoEvent,
    /// Whether the timer has run out.
    Timeout(bool),
    /// When the node wants to be woken next, if at all.
    NextTimeout(bool),
}

/// What to do next while the connections are looked after.
pub enum ConnectionStep<TId> {
    /// Nothing can be done until the sockets can send.
    Wait,
    /// Ask the node for a datagram to send.
    PollTransmit,
    /// Send the node's datagram, then ask for the next.
    SendTransmit,
    /// Ask the node for an event.
    PollEvent,
    /// Report the event to the owner.
    Report(Event<TId>),
    /// Ask whether the timer has run out.
    PollTimer,
    /// Tell the node of the time, then ask when it wants to be woken next.
    HandleTimeout,
    /// Set the timer anew and come back at once.
    ResetTimer,
    /// Come back at once.
    Reschedule,
    /// There is nothing more to do this turn.
    Idle,
}

/// An encrypted datagram for a peer: where it goes, where it is to come
/// from if that matters, and what it carries.
#[derive(Debug)]
pub struct Transmit {
    pub src: Option<SocketAddress>,
    pub dst: SocketAddress,
    pub payload: Vec<u8>,
}

/// The condition that a peer belongs to the connection `id`.
pub open spec fn of_connection<TId: ConnectionId>(id: u128) -> spec_fn(Peer<TId>) -> bool {
    |peer: Peer<TId>| peer.conn_id.raw() == id
}

/// The connections to peers.
#[derive(Debug)]
pub struct ConnectionState<TId> {
    /// The peers, each of another connection.
    pub peers_by_id: Vec<Peer<TId>>,
}

impl<TId: ConnectionId> ConnectionState<TId> {
    /// Whether no two peers belong to the same connection.
    pub open spec fn wf(&self) -> bool {
        forall|i: int, j: int|
            0 <= i < self.peers_by_id@.len() && 0 <= j < self.peers_by_id@.len() && i != j
                ==> self.peers_by_id@[i].conn_id.raw() != self.peers_by_id@[j].conn_id.raw()
    }

    /// Whether there is a peer of the connection `id`.
    pub open spec fn has_peer(&self, id: TId) -> bool {
        first_index(self.peers_by_id@, of_connection::<TId>(id.raw())) is Some
    }

    /// Connections without peers.
    pub fn new() -> (state: ConnectionState<TId>)
        ensures
            state.peers_by_id@.len() == 0,
            state.wf(),
    {
        ConnectionState { peers_by_id: Vec::new() }
    }

    /// The place of the peer of a connection.
    fn position(&self, id: TId) -> (at: Option<usize>)
        ensures
            match at {
                Some(i) => i < self.peers_by_id@.len() && first_index(
                    self.peers_by_id@,
                    of_connection::<TId>(id.raw()),
                ) == Some(i as int),
                None => first_index(self.peers_by_id@, of_connection::<TId>(id.raw())) is None,
            },
    {
        let ghost wanted = of_connection::<TId>(id.raw());
        let raw = id.to_raw();
        let mut i: usize = 0;
        while i < self.peers_by_id.len()
            invariant
                i <= self.peers_by_id@.len(),
                raw == id.raw(),
                wanted == of_connection::<TId>(id.raw()),
                forall|j: int| 0 <= j < i ==> !wanted(#[trigger] self.peers_by_id@[j]),
            decreases self.peers_by_id@.len() - i,
        {
            if self.peers_by_id[i].conn_id.to_raw() == raw {
                proof {
                    lemma_first_index_at(self.peers_by_id@, wanted, i as int);
                }
                return Some(i);
            }
            i = i + 1;
        }
        proof {
            lemma_first_index_none(self.peers_by_id@, wanted);
        }
        None
    }

    /// Adds a peer, in place of the peer of the same connection if there is
    /// one.
    pub fn insert(&mut self, peer: Peer<TId>)
        ensures
            final(self).has_peer(peer.conn_id),
            old(self).wf() ==> final(self).wf(),
            match first_index(old(self).peers_by_id@, of_connection::<TId>(peer.conn_id.raw())) {
                Some(i) => final(self).peers_by_id@ == old(self).peers_by_id@.update(i, peer),
                None => final(self).peers_by_id@ == old(self).peers_by_id@.push(peer),
            },
    {
        let ghost wanted = of_connection::<TId>(peer.conn_id.raw());
        let ghost before = self.peers_by_id@;
        proof {
            lemma_first_index(before, wanted);
        }
        match self.position(peer.conn_id) {
            Some(i) => {
                self.peers_by_id.set(i, peer);
                proof {
                    assert forall|j: int| 0 <= j < i implies !wanted(
                        #[trigger] self.peers_by_id@[j],
                    ) by {
                        assert(self.peers_by_id@[j] == before[j]);
                    }
                    lemma_first_index_at(self.peers_by_id@, wanted, i as int);
                }
            },
            None => {
                self.peers_by_id.push(peer);
                proof {
                    assert forall|j: int| 0 <= j < before.len() implies !wanted(
                        #[trigger] self.peers_by_id@[j],
                    ) by {
                        assert(self.peers_by_id@[j] == before[j]);
                    }
                    lemma_first_index_at(self.peers_by_id@, wanted, before.len() as int);
                }
            },
        }
    }

    /// Takes the peer of a connection away, if there is one.
    pub fn remove(&mut self, id: TId) -> (removed: bool)
        ensures
            removed == old(self).has_peer(id),
            old(self).wf() ==> final(self).wf() && !final(self).has_peer(id),
            match first_index(old(self).peers_by_id@, of_connection::<TId>(id.raw())) {
                Some(i) => final(self).peers_by_id@ == old(self).peers_by_id@.remove(i),
                None => final(self).peers_by_id@ == old(self).peers_by_id@,
            },
    {
        let ghost wanted = of_connection::<TId>(id.raw());
        let ghost before = self.peers_by_id@;
        proof {
            lemma_first_index(before, wanted);
        }
        match self.position(id) {
            Some(i) => {
                self.peers_by_id.remove(i);
                proof {
                    if old(self).wf() {
                        assert forall|j: int| 0 <= j < self.peers_by_id@.len() implies !wanted(
                            #[trigger] self.peers_by_id@[j],
                        ) by {
                            if j < i {
                                assert(self.peers_by_id@[j] == before[j]);
                            } else {
                                assert(self.peers_by_id@[j] == before[j + 1]);
                            }
                        }
                        lemma_first_index_none(self.peers_by_id@, wanted);
                        assert forall|a: int, b: int|
                            0 <= a < self.peers_by_id@.len() && 0 <= b < self.peers_by_id@.len()
                                && a != b implies self.peers_by_id@[a].conn_id.raw()
                            != self.peers_by_id@[b].conn_id.raw() by {
                            let a0 = if a < i {
                                a
                            } else {
                                a + 1
                            };
                            let b0 = if b < i {
                                b
                            } else {
                                b + 1
                            };
                            assert(self.peers_by_id@[a] == before[a0]);
                            assert(self.peers_by_id@[b] == before[b0]);
                        }
                    }
                }
                true
            },
            None => false,
        }
    }

    /// What to hand to the sockets once the node has encrypted a packet:
    /// the datagram that it made, or nothing where it keeps the packet until
    /// the connection stands. A failure of the node is handed on.
    pub fn try_send(&self, encapsulated: Result<Option<Transmit>, Error>) -> (result: Result<
        Option<Transmit>,
        Error,
    >)
        ensures
            result == encapsulated,
    {
        let transmit = match encapsulated {
            Ok(Some(transmit)) => transmit,
            Ok(None) => {
                return Ok(None);
            },
            Err(e) => {
                return Err(e);
            },
        };
        Ok(Some(transmit))
    }

    /// What to hand to the sockets once the node has encrypted a packet,
    /// where a failure drops the packet and is otherwise of no consequence.
    pub fn send(&self, encapsulated: Result<Option<Transmit>, Error>) -> (transmit: Option<
        Transmit,
    >)
        ensures
            transmit == match encapsulated {
                Ok(made) => made,
                Err(_) => None,
            },
    {
        match self.try_send(encapsulated) {
            Ok(made) => made,
            Err(_) => None,
        }
    }

    /// What is reported of each peer, in the peers' order.
    pub fn stats(&self) -> (stats: Vec<(TId, PeerStats<TId>)>)
        ensures
            stats@.len() == self.peers_by_id@.len(),
            forall|i: int|
                0 <= i < stats@.len() ==> (#[trigger] stats@[i]).0 == self.peers_by_id@[i].conn_id
                    && stats@[i].1.conn_id == self.peers_by_id@[i].conn_id
                    && stats@[i].1.allowed_ips@ == self.peers_by_id@[i].allowed_ips@,
    {
        let mut stats: Vec<(TId, PeerStats<TId>)> = Vec::new();
        let mut i: usize = 0;
        while i < self.peers_by_id.len()
            invariant
                i <= self.peers_by_id@.len(),
                stats@.len() == i,
                forall|k: int|
                    0 <= k < i ==> (#[trigger] stats@[k]).0 == self.peers_by_id@[k].conn_id
                        && stats@[k].1.conn_id == self.peers_by_id@[k].conn_id
                        && stats@[k].1.allowed_ips@ == self.peers_by_id@[k].allowed_ips@,
            decreases self.peers_by_id@.len() - i,
        {
            let peer = &self.peers_by_id[i];
            stats.push((peer.conn_id, peer.stats()));
            i = i + 1;
        }
        stats
    }

    /// What to do next while a datagram is taken in.
    ///
    /// A datagram read goes to the node. A packet that the node decrypts
    /// has its peer's transform undone, if the connection has a peer, and
    /// is then delivered. Whatever fails on the way is dropped, and the
    /// sockets are read again at once.
    pub fn poll_sockets(&self, input: SocketInput<TId>) -> (step: SocketStep)
        ensures
            step == match input {
                SocketInput::NotReady => SocketStep::Wait,
                SocketInput::ReadFailed => SocketStep::Retry,
                SocketInput::Received => SocketStep::Decapsulate,
                SocketInput::Consumed => SocketStep::Retry,
                SocketInput::DecapsulateFailed => SocketStep::Retry,
                SocketInput::Decapsulated(conn_id) => if self.has_peer(conn_id) {
                    SocketStep::Untransform
                } else {
                    SocketStep::Retry
                },
                SocketInput::UntransformFailed => SocketStep::Retry,
                SocketInput::Untransformed(packet) => SocketStep::Deliver(packet),
            },
    {
        match input {
            SocketInput::NotReady => SocketStep::Wait,
            SocketInput::ReadFailed => SocketStep::Retry,
            SocketInput::Received => SocketStep::Decapsulate,
            SocketInput::Consumed => SocketStep::Retry,
            SocketInput::DecapsulateFailed => SocketStep::Retry,
            SocketInput::Decapsulated(conn_id) => match self.position(conn_id) {
                Some(_) => SocketStep::Untransform,
                None => SocketStep::Retry,
            },
            SocketInput::UntransformFailed => SocketStep::Retry,
            SocketInput::Untransformed(packet) => SocketStep::Deliver(packet),
        }
    }

    /// What to do next while the connections are looked after.
    ///
    /// Once the sockets can send, every datagram that the node has is sent.
    /// Then the node's event is reported: a candidate as it is, a failed
    /// connection as a stopped peer, after its peer is taken away. Without
    /// an event the timer is looked at; if it has run out, the node is told
    /// and the timer is set to when the node wants to be woken next.
    pub fn poll_next_event(&mut self, input: ConnectionInput<TId>) -> (step: ConnectionStep<TId>)
        ensures
            step == match input {
                ConnectionInput::SendReady(ready) => if ready {
                    ConnectionStep::PollTransmit
                } else {
                    ConnectionStep::Wait
                },
                ConnectionInput::Transmit(some) => if some {
                    ConnectionStep::SendTransmit
                } else {
                    ConnectionStep::PollEvent
                },
                ConnectionInput::SignalIceCandidate {
                    connection,
                    candidate,
                } => ConnectionStep::Report(
                    Event::SignalIceCandidate { conn_id: connection, candidate },
                ),
                ConnectionInput::ConnectionFailed(id) => ConnectionStep::Report(
                    Event::StopPeer(id),
                ),
                ConnectionInput::NoEvent => ConnectionStep::PollTimer,
                ConnectionInput::Timeout(ran_out) => if ran_out {
                    ConnectionStep::HandleTimeout
                } else {
                    ConnectionStep::Idle
                },
                ConnectionInput::NextTimeout(some) => if some {
                    ConnectionStep::ResetTimer
                } else {
                    ConnectionStep::Reschedule
                },
            },
            match input {
                ConnectionInput::ConnectionFailed(id) => match first_index(
                    old(self).peers_by_id@,
                    of_connection::<TId>(id.raw()),
                ) {
                    Some(i) => final(self).peers_by_id@ == old(self).peers_by_id@.remove(i),
                    None => final(self).peers_by_id@ == old(self).peers_by_id@,
                },
                _ => final(self).peers_by_id@ == old(self).peers_by_id@,
            },
            old(self).wf() ==> final(self).wf(),
    {
        match input {
            ConnectionInput::SendReady(ready) => if ready {
                ConnectionStep::PollTransmit
            } else {
                ConnectionStep::Wait
            },
            ConnectionInput::Transmit(some) => if some {
                ConnectionStep::SendTransmit
            } else {
                ConnectionStep::PollEvent
            },
            ConnectionInput::SignalIceCandidate { connection, candidate } => ConnectionStep::Report(
                Event::SignalIceCandidate { conn_id: connection, candidate },
            ),
            ConnectionInput::ConnectionFailed(id) => {
                self.remove(id);
                ConnectionStep::Report(Event::StopPeer(id))
            },
            ConnectionInput::NoEvent => ConnectionStep::PollTimer,
            ConnectionInput::Timeout(ran_out) => if ran_out {
                ConnectionStep::HandleTimeout
            } else {
                ConnectionStep::Idle
            },
            ConnectionInput::NextTimeout(some) => if some {
                ConnectionStep::ResetTimer
            } else {
                ConnectionStep::Reschedule
            },
        }
    }
}

/// Whether a source can be used now.
pub enum Readiness {
    Ready,
    NotReady,
    Failed(Error),
}

/// What came of reading the device.
pub enum DeviceRead {
    /// A packet was read.
    Packet(IpPacket),
    /// The device is closed for good.
    Closed,
    /// There is nothing to read yet.
    NotReady,
    /// Reading failed.
    Failed(Error),
}

/// What the sources of the tunnel report in the course of a turn.
pub enum TunnelInput<TId> {
    /// A turn begins.
    Start,
    /// The connections that have run out, in the gateway role.
    Expired(Vec<TId>),
    /// What came of writing a packet to the device.
    Written(Result<(), Error>),
    /// The event of the connections, if they have one.
    Connections(Option<Event<TId>>),
    /// The packet that the sockets took in, if they took one in.
    Sockets(Option<Packet>),
    /// Whether the sockets can send.
    SendReady(Readiness),
    /// What came of reading the device.
    Device(DeviceRead),
    /// Where the role sends a packet read from the device, in the gateway
    /// role.
    Encapsulated(Option<(TId, IpPacket)>),
}

/// What to do next in a turn of the tunnel.
pub enum TunnelStep<TId> {
    /// There is no device: wait for one.
    Park,
    /// Ask the role for the connections that have run out.
    PollExpired,
    /// Give these connections up, then begin the turn.
    Cleanup(Vec<TId>),
    /// Write the packet to the device and report what came of it.
    WriteToDevice(Packet),
    /// Hand the event to the owner.
    Return(Event<TId>),
    /// Hand the error to the owner.
    Fail(Error),
    /// Ask the connections for their event.
    PollConnections,
    /// Ask the sockets for a packet.
    PollSockets,
    /// Ask whether the sockets can send.
    PollSendReady,
    /// Read the device.
    ReadDevice,
    /// Ask the role where the packet goes.
    Encapsulate(IpPacket),
    /// Have the packet encrypted and sent to the peer, then come back at
    /// once.
    Send(TId, IpPacket),
    /// End the turn and come back at once.
    Reschedule,
    /// End the turn until a source has news.
    Wait,
}

/// The state of the tunnel in the gateway role: the routes to the clients.
pub struct GatewayState {
    pub peers_by_ip: RoutingTable,
}

/// The tunnel: the role's state, the connections, and whether there is a
/// device.
pub struct Tunnel<TRoleState, TId> {
    /// The state that differs by role.
    pub role_state: TRoleState,
    /// Whether the device is there.
    pub device: bool,
    /// The connections to peers.
    pub connections_state: ConnectionState<TId>,
}

/// The tunnel of a client.
pub type ClientTunnel = Tunnel<ClientState, GatewayId>;

/// The tunnel of a gateway.
pub type GatewayTunnel = Tunnel<GatewayState, ClientId>;

impl<TRoleState, TId: ConnectionId> Tunnel<TRoleState, TId> {
    /// A tunnel without a device and without peers.
    pub fn new(role_state: TRoleState) -> (tunnel: Tunnel<TRoleState, TId>)
        ensures
            tunnel.role_state == role_state,
            !tunnel.device,
            tunnel.connections_state.peers_by_id@.len() == 0,
            tunnel.connections_state.wf(),
    {
        Tunnel { role_state, device: false, connections_state: ConnectionState::new() }
    }

    /// Takes note that there is a device now.
    pub fn set_device(&mut self)
        ensures
            final(self).device,
            final(self).role_state == old(self).role_state,
            final(self).connections_state == old(self).connections_state,
    {
        self.device = true;
    }

    /// What is reported of each peer.
    pub fn stats(&self) -> (stats: Vec<(TId, PeerStats<TId>)>)
        ensures
            stats@.len() == self.connections_state.peers_by_id@.len(),
            forall|i: int|
                0 <= i < stats@.len() ==> (#[trigger] stats@[i]).0
                    == self.connections_state.peers_by_id@[i].conn_id && stats@[i].1.conn_id
                    == self.connections_state.peers_by_id@[i].conn_id
                    && stats@[i].1.allowed_ips@
                    == self.connections_state.peers_by_id@[i].allowed_ips@,
    {
        self.connections_state.stats()
    }
}

/// The peers once the peer of the gateway, if there is one, is taken away.
pub open spec fn peers_after(
    peers: Seq<Peer<GatewayId>>,
    gone: Option<GatewayId>,
) -> Seq<Peer<GatewayId>> {
    match gone {
        Some(gateway) => match first_index(peers, of_connection::<GatewayId>(gateway.raw())) {
            Some(i) => peers.remove(i),
            None => peers,
        },
        None => peers,
    }
}

impl Tunnel<ClientState, GatewayId> {
    /// Takes a resource from the tunnel and tears down the peer that
    /// references it: the resource is forgotten, and the gateway that
    /// served it loses its routes and its peer. Returns that gateway.
    pub fn remove_resource(&mut self, id: ResourceId) -> (stopped: Option<GatewayId>)
        ensures
            final(self).device == old(self).device,
            ClientState::resource_removed(
                old(self).role_state,
                id,
                final(self).role_state,
                stopped,
            ),
            final(self).connections_state.peers_by_id@ == peers_after(
                old(self).connections_state.peers_by_id@,
                stopped,
            ),
            old(self).connections_state.wf() ==> final(self).connections_state.wf(),
            old(self).connections_state.wf() ==> (stopped matches Some(gateway)
                ==> !final(self).connections_state.has_peer(gateway)),
    {
        let stopped = self.role_state.remove_resource(id);
        if let Some(gateway) = stopped {
            self.connections_state.remove(gateway);
        }
        stopped
    }
}

/// Whether `step` and the role's state `after` are what a turn of the
/// client's tunnel makes of `input`, given the role's state `before` and
/// whether there is a device.
pub open spec fn client_turn(
    before: ClientState,
    device: bool,
    input: TunnelInput<GatewayId>,
    after: ClientState,
    step: TunnelStep<GatewayId>,
) -> bool {
    match input {
        TunnelInput::Start => if !device {
            after == before && step == TunnelStep::<GatewayId>::Park
        } else {
            exists|event: Option<Event<GatewayId>>|
                #![auto]
                ClientState::event_polled(before, after, event) && step == match event {
                    Some(Event::SendPacket(packet)) => TunnelStep::WriteToDevice(packet),
                    Some(other) => TunnelStep::Return(other),
                    None => TunnelStep::PollConnections,
                }
        },
        TunnelInput::Written(Ok(_)) => after == before && step == TunnelStep::<
            GatewayId,
        >::Reschedule,
        TunnelInput::Written(Err(e)) => after == before && step == TunnelStep::<GatewayId>::Fail(e),
        TunnelInput::Connections(Some(Event::StopPeer(id))) => ClientState::gateway_cleaned_up(
            before,
            &id,
            after,
        ) && step == TunnelStep::<GatewayId>::Reschedule,
        TunnelInput::Connections(Some(other)) => after == before && step == TunnelStep::Return(
            other,
        ),
        TunnelInput::Connections(None) => after == before && step == TunnelStep::<
            GatewayId,
        >::PollSockets,
        TunnelInput::Sockets(Some(packet)) => after == before && step == TunnelStep::<
            GatewayId,
        >::WriteToDevice(packet),
        TunnelInput::Sockets(None) => after == before && step == TunnelStep::<
            GatewayId,
        >::PollSendReady,
        TunnelInput::SendReady(Readiness::Ready) => after == before && step == TunnelStep::<
            GatewayId,
        >::ReadDevice,
        TunnelInput::SendReady(Readiness::NotReady) => after == before && step == TunnelStep::<
            GatewayId,
        >::Wait,
        TunnelInput::SendReady(Readiness::Failed(e)) => after == before && step == TunnelStep::<
            GatewayId,
        >::Fail(e),
        TunnelInput::Device(DeviceRead::Packet(packet)) => exists|
            routed: Option<(GatewayId, IpPacket)>,
        |
            #![auto]
            ClientState::encapsulated(before, packet, after, routed) && step == match routed {
                Some((peer, sent)) => TunnelStep::Send(peer, sent),
                None => TunnelStep::Reschedule,
            },
        TunnelInput::Device(DeviceRead::Closed) => after == before && step == TunnelStep::<
            GatewayId,
        >::Park,
        TunnelInput::Device(DeviceRead::NotReady) => after == before && step == TunnelStep::<
            GatewayId,
        >::Wait,
        TunnelInput::Device(DeviceRead::Failed(e)) => after == before && step == TunnelStep::<
            GatewayId,
        >::Fail(e),
        TunnelInput::Expired(_) => after == before && step == TunnelStep::<GatewayId>::Wait,
        TunnelInput::Encapsulated(_) => after == before && step == TunnelStep::<GatewayId>::Wait,
    }
}

/// A waiting event of the role comes before everything else in a turn: the
/// turn goes on to the connections, and from there to the sockets and the
/// device, only where no event waits, and then the role's state is as it
/// was. A waiting packet is the one written to the device.
pub proof fn lemma_waiting_events_come_first(
    before: ClientState,
    after: ClientState,
    step: TunnelStep<GatewayId>,
)
    requires
        client_turn(before, true, TunnelInput::Start, after, step),
    ensures
        step is PollConnections <==> before.buffered_events@.len() == 0,
        step is PollConnections ==> after.buffered_events@ == before.buffered_events@,
        step is PollConnections || step is WriteToDevice || step is Return,
        step matches TunnelStep::WriteToDevice(packet) ==> before.buffered_events@[0]
            == Event::<GatewayId>::SendPacket(packet),
        step matches TunnelStep::Return(event) ==> before.buffered_events@[0] == event,
        !(step is PollConnections) ==> after.buffered_events@
            == before.buffered_events@.drop_first(),
{
}

impl Tunnel<ClientState, GatewayId> {
    /// What to do next in a turn of the client's tunnel.
    ///
    /// A turn asks its sources in this order and ends with the first that
    /// makes progress. Without a device there is nothing to do but wait for
    /// one. The role's oldest waiting event comes first: a packet is
    /// written to the device, any other event is handed to the owner. Then
    /// the connections' event: a stopped peer has its gateway forgotten,
    /// any other event is handed to the owner. Then a packet taken in by
    /// the sockets, which is written to the device. Only when the sockets
    /// can send is the device read, and the packet read is routed: to a
    /// peer, or nowhere because it has been dealt with. A device that is
    /// closed is gone. Failing to write to the device, to learn whether the
    /// sockets can send, or to read the device is an error for the owner.
    pub fn poll_next_event(&mut self, input: TunnelInput<GatewayId>) -> (step: TunnelStep<
        GatewayId,
    >)
        ensures
            final(self).connections_state == old(self).connections_state,
            final(self).device == (old(self).device && !(input matches TunnelInput::Device(
                DeviceRead::Closed,
            ))),
            step is PollSockets <==> input matches TunnelInput::Connections(None),
            step is PollSendReady <==> input matches TunnelInput::Sockets(None),
            step is ReadDevice <==> input matches TunnelInput::SendReady(Readiness::Ready),
            client_turn(
                old(self).role_state,
                old(self).device,
                input,
                final(self).role_state,
                step,
            ),
    {
        match input {
            TunnelInput::Start => {
                if !self.device {
                    return TunnelStep::Park;
                }
                let event = self.role_state.poll_next_event();
                let ghost polled = event;
                let step = match event {
                    Some(Event::SendPacket(packet)) => TunnelStep::WriteToDevice(packet),
                    Some(other) => TunnelStep::Return(other),
                    None => TunnelStep::PollConnections,
                };
                assert(ClientState::event_polled(old(self).role_state, self.role_state, polled)
                    && step == match polled {
                    Some(Event::SendPacket(packet)) => TunnelStep::WriteToDevice(packet),
                    Some(other) => TunnelStep::Return(other),
                    None => TunnelStep::PollConnections,
                });
                step
            },
            TunnelInput::Written(outcome) => match outcome {
                Ok(_) => TunnelStep::Reschedule,
                Err(e) => TunnelStep::Fail(e),
            },
            TunnelInput::Connections(Some(Event::StopPeer(id))) => {
                self.role_state.cleanup_connected_gateway(&id);
                TunnelStep::Reschedule
            },
            TunnelInput::Connections(Some(other)) => TunnelStep::Return(other),
            TunnelInput::Connections(None) => TunnelStep::PollSockets,
            TunnelInput::Sockets(packet) => match packet {
                Some(p) => TunnelStep::WriteToDevice(p),
                None => TunnelStep::PollSendReady,
            },
            TunnelInput::SendReady(readiness) => match readiness {
                Readiness::Ready => TunnelStep::ReadDevice,
                Readiness::NotReady => TunnelStep::Wait,
                Readiness::Failed(e) => TunnelStep::Fail(e),
            },
            TunnelInput::Device(DeviceRead::Packet(packet)) => {
                let routed = self.role_state.encapsulate(packet);
                let ghost given = routed;
                let step = match routed {
                    Some((peer, sent)) => TunnelStep::Send(peer, sent),
                    None => TunnelStep::Reschedule,
                };
                assert(ClientState::encapsulated(
                    old(self).role_state,
                    packet,
                    self.role_state,
                    given,
                ) && step == match given {
                    Some((peer, sent)) => TunnelStep::Send(peer, sent),
                    None => TunnelStep::Reschedule,
                });
                step
            },
            TunnelInput::Device(DeviceRead::Closed) => {
                self.device = false;
                TunnelStep::Park
            },
            TunnelInput::Device(DeviceRead::NotReady) => TunnelStep::Wait,
            TunnelInput::Device(DeviceRead::Failed(e)) => TunnelStep::Fail(e),
            TunnelInput::Expired(_) => TunnelStep::Wait,
            TunnelInput::Encapsulated(_) => TunnelStep::Wait,
        }
    }
}

impl Tunnel<GatewayState, ClientId> {
    /// What to do next in a turn of the gateway's tunnel.
    ///
    /// A turn begins with the connections that have run out, which are
    /// given up. From then on it goes as the client's turn does, but that
    /// the role has no events of its own, that a stopped peer loses its
    /// routes, and that the role is asked where a packet from the device
    /// goes.
    pub fn poll_next_event(&mut self, input: TunnelInput<ClientId>) -> (step: TunnelStep<ClientId>)
        ensures
            final(self).connections_state == old(self).connections_state,
            step is PollSockets <==> input matches TunnelInput::Connections(None),
            step is PollSendReady <==> input matches TunnelInput::Sockets(None),
            step is ReadDevice <==> input matches TunnelInput::SendReady(Readiness::Ready),
            match input {
                TunnelInput::Connections(Some(Event::StopPeer(id))) => {
                    final(self).role_state.peers_by_ip@ == routes_without_peer(
                        old(self).role_state.peers_by_ip@,
                        id.0,
                    )
                },
                _ => final(self).role_state == old(self).role_state,
            },
            final(self).device == (old(self).device && !(input matches TunnelInput::Device(
                DeviceRead::Closed,
            ))),
            step == match input {
                TunnelInput::Start => TunnelStep::<ClientId>::PollExpired,
                TunnelInput::Expired(ids) => if ids@.len() > 0 {
                    TunnelStep::Cleanup(ids)
                } else if old(self).device {
                    TunnelStep::PollConnections
                } else {
                    TunnelStep::Park
                },
                TunnelInput::Written(Ok(_)) => TunnelStep::Reschedule,
                TunnelInput::Written(Err(e)) => TunnelStep::Fail(e),
                TunnelInput::Connections(Some(Event::StopPeer(_))) => TunnelStep::Reschedule,
                TunnelInput::Connections(Some(other)) => TunnelStep::Return(other),
                TunnelInput::Connections(None) => TunnelStep::PollSockets,
                TunnelInput::Sockets(Some(p)) => TunnelStep::WriteToDevice(p),
                TunnelInput::Sockets(None) => TunnelStep::PollSendReady,
                TunnelInput::SendReady(Readiness::Ready) => TunnelStep::ReadDevice,
                TunnelInput::SendReady(Readiness::NotReady) => TunnelStep::Wait,
                TunnelInput::SendReady(Readiness::Failed(e)) => TunnelStep::Fail(e),
                TunnelInput::Device(DeviceRead::Packet(packet)) => TunnelStep::Encapsulate(packet),
                TunnelInput::Device(DeviceRead::Closed) => TunnelStep::Park,
                TunnelInput::Device(DeviceRead::NotReady) => TunnelStep::Wait,
                TunnelInput::Device(DeviceRead::Failed(e)) => TunnelStep::Fail(e),
                TunnelInput::Encapsulated(Some((peer, sent))) => TunnelStep::Send(peer, sent),
                TunnelInput::Encapsulated(None) => TunnelStep::Reschedule,
            },
    {
        match input {
            TunnelInput::Start => TunnelStep::PollExpired,
            TunnelInput::Expired(ids) => if ids.len() > 0 {
                TunnelStep::Cleanup(ids)
            } else if self.device {
                TunnelStep::PollConnections
            } else {
                TunnelStep::Park
            },
            TunnelInput::Written(Ok(_)) => TunnelStep::Reschedule,
            TunnelInput::Written(Err(e)) => TunnelStep::Fail(e),
            TunnelInput::Connections(Some(Event::StopPeer(id))) => {
                self.role_state.peers_by_ip.remove(id.0);
                TunnelStep::Reschedule
            },
            TunnelInput::Connections(Some(other)) => TunnelStep::Return(other),
            TunnelInput::Connections(None) => TunnelStep::PollSockets,
            TunnelInput::Sockets(Some(p)) => TunnelStep::WriteToDevice(p),
            TunnelInput::Sockets(None) => TunnelStep::PollSendReady,
            TunnelInput::SendReady(Readiness::Ready) => TunnelStep::ReadDevice,
            TunnelInput::SendReady(Readiness::NotReady) => TunnelStep::Wait,
            TunnelInput::SendReady(Readiness::Failed(e)) => TunnelStep::Fail(e),
            TunnelInput::Device(DeviceRead::Packet(packet)) => TunnelStep::Encapsulate(packet),
            TunnelInput::Device(DeviceRead::Closed) => {
                self.device = false;
                TunnelStep::Park
            },
            TunnelInput::Device(DeviceRead::NotReady) => TunnelStep::Wait,
            TunnelInput::Device(DeviceRead::Failed(e)) => TunnelStep::Fail(e),
            TunnelInput::Encapsulated(Some((peer, sent))) => TunnelStep::Send(peer, sent),
            TunnelInput::Encapsulated(None) => TunnelStep::Reschedule,
        }
    }
}

} // verus!
