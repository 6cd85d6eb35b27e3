use client_tunnel::client::ClientState;
use client_tunnel::error::Error;
use client_tunnel::ip::{IpAddress, IpNetwork};
use client_tunnel::name::DomainName;
use client_tunnel::packet::{IpPacket, Packet};
use client_tunnel::resources::{
    DnsResource, GatewayId, ResourceDescription, ResourceDescriptionCidr, ResourceDescriptionDns,
    ResourceId,
};
use client_tunnel::sentinel::{DnsServer, IpDnsServer, SentinelMapping, SocketAddress};
use client_tunnel::peer::{Peer, RoutingTable};
use client_tunnel::resources::ClientId;
use client_tunnel::tunnel::{
    ConnectionInput, ConnectionState, ConnectionStep, DeviceRead, Event, GatewayState, Readiness,
    SocketInput, SocketStep, Transmit, Tunnel, TunnelInput, TunnelStep,
};

fn baz() -> ResourceDescriptionDns {
    ResourceDescriptionDns {
        id: ResourceId(3),
        address: "baz.com".to_string(),
        name: "baz.com".to_string(),
    }
}

fn cidr(id: u128, a: u8, b: u8, prefix: u8) -> ResourceDescriptionCidr {
    ResourceDescriptionCidr {
        id: ResourceId(id),
        address: IpNetwork::new(IpAddress::v4(a, b, 0, 0), prefix).unwrap(),
        name: format!("net {}", id),
    }
}

fn state() -> ClientState {
    let upstream = DnsServer::IpPort(IpDnsServer {
        address: SocketAddress { ip: IpAddress::v4(1, 1, 1, 1), port: 53 },
    });
    let sentinel = IpAddress::v4(100, 100, 111, 1);
    let mut state = ClientState::new(SentinelMapping::new().insert(sentinel, upstream));
    state.add_resource(ResourceDescription::Dns(baz())).unwrap();
    state.add_resource(ResourceDescription::Cidr(cidr(10, 10, 0, 8))).unwrap();
    state.add_resource(ResourceDescription::Cidr(cidr(11, 10, 1, 16))).unwrap();
    state.add_resource(ResourceDescription::Cidr(cidr(12, 10, 1, 16))).unwrap();
    state
}

fn dns_query(id: u16, name: &[&str], qtype: u16) -> Vec<u8> {
    let mut m = vec![(id >> 8) as u8, id as u8, 0x01, 0x00, 0, 1, 0, 0, 0, 0, 0, 0];
    for label in name {
        m.push(label.len() as u8);
        m.extend_from_slice(label.as_bytes());
    }
    m.push(0);
    m.extend_from_slice(&qtype.to_be_bytes());
    m.extend_from_slice(&1u16.to_be_bytes());
    m
}

fn udp4(dst: [u8; 4], payload: &[u8]) -> IpPacket {
    let total = 20 + 8 + payload.len();
    let mut p = vec![0x45, 0, (total >> 8) as u8, total as u8, 0, 0, 0, 0, 64, 17, 0, 0];
    p.extend_from_slice(&[100, 64, 0, 7]);
    p.extend_from_slice(&dst);
    p.extend_from_slice(&40000u16.to_be_bytes());
    p.extend_from_slice(&53u16.to_be_bytes());
    p.extend_from_slice(&((8 + payload.len()) as u16).to_be_bytes());
    p.extend_from_slice(&[0, 0]);
    p.extend_from_slice(payload);
    IpPacket::new(p).unwrap()
}

fn query_for(id: u16, name: &[&str], qtype: u16) -> IpPacket {
    udp4([100, 100, 111, 1], &dns_query(id, name, qtype))
}

#[test]
fn a_network_with_host_bits_is_no_resource() {
    let mut state = state();
    let result = state.add_resource(ResourceDescription::Cidr(ResourceDescriptionCidr {
        id: ResourceId(99),
        address: IpNetwork::V4(0x0a00_0001, 8),
        name: "broken".to_string(),
    }));
    assert!(matches!(result, Err(Error::Other(_))));
    assert_eq!(state.cidr_resources.len(), 3);
}

#[test]
fn a_local_answer_waits_as_a_packet_for_the_device() {
    let mut state = state();
    let held = DnsResource::from_description(&baz(), DomainName::vec_from_str("baz.com").unwrap());
    assert_eq!(state.resource_ips_assigned(held, vec![IpAddress::v4(10, 0, 0, 5)]), 0);
    assert!(state.encapsulate(query_for(1, &["baz", "com"], 1)).is_none());
    assert_eq!(state.buffered_events.len(), 1);
    match state.poll_next_event() {
        Some(Event::SendPacket(Packet::Ipv4(reply))) => {
            assert_eq!(&reply[12..16], &[100, 100, 111, 1]);
            assert_eq!(&reply[reply.len() - 4..], &[10, 0, 0, 5]);
        }
        other => panic!("no packet for the device: {:?}", other),
    }
    assert!(state.poll_next_event().is_none());
    assert!(state.forwarded_dns_queries.is_empty());
    assert!(state.deferred_dns_queries.is_empty());
}

#[test]
fn forwarded_queries_wait_in_a_queue_of_a_hundred() {
    let mut state = state();
    for id in 0..100u16 {
        assert!(state.encapsulate(query_for(id, &["example", "org"], 1)).is_none());
        assert_eq!(state.forwarded_dns_queries.len(), usize::from(id) + 1);
    }
    // the hundred and first pushes the oldest out
    assert!(state.encapsulate(query_for(100, &["example", "org"], 1)).is_none());
    assert_eq!(state.forwarded_dns_queries.len(), 100);
    assert!(state.encapsulate(query_for(101, &["example", "org"], 28)).is_none());
    assert_eq!(state.forwarded_dns_queries.len(), 100);
    assert!(state.buffered_events.is_empty());
    let oldest = state.poll_dns_queries().unwrap();
    assert_eq!(oldest.query.udp_payload().unwrap()[..2], 2u16.to_be_bytes());
    assert_eq!(oldest.name, "example.org");
    assert_eq!(oldest.record_type, 1);
    assert_eq!(state.forwarded_dns_queries.len(), 99);
    let newest = state.forwarded_dns_queries.back().unwrap();
    assert_eq!(newest.query.udp_payload().unwrap()[..2], 101u16.to_be_bytes());
    assert_eq!(newest.record_type, 28);
    for _ in 0..99 {
        assert!(state.poll_dns_queries().is_some());
    }
    assert!(state.poll_dns_queries().is_none());
}

#[test]
fn a_deferred_query_is_held_and_answered_once_the_resource_has_addresses() {
    let mut state = state();
    state.connected_gateway_ids = vec![GatewayId(7)];
    assert!(state.encapsulate(query_for(1, &["baz", "com"], 1)).is_none());
    assert!(state.encapsulate(query_for(2, &["baz", "com"], 28)).is_none());
    assert_eq!(state.deferred_dns_queries.len(), 2);
    for expected in 0..2usize {
        match state.poll_next_event() {
            Some(Event::ConnectionIntent { resource, connected_gateway_ids, reference }) => {
                assert_eq!(resource.id(), ResourceId(3));
                assert_eq!(connected_gateway_ids, vec![GatewayId(7)]);
                assert_eq!(reference, expected);
            }
            other => panic!("no intent: {:?}", other),
        }
    }
    assert!(state.poll_next_event().is_none());
    // addresses for another name answer nothing
    let other = DnsResource::from_description(&baz(), DomainName::vec_from_str("x.com").unwrap());
    assert_eq!(state.resource_ips_assigned(other, vec![IpAddress::v4(10, 0, 0, 9)]), 0);
    assert_eq!(state.deferred_dns_queries.len(), 2);
    // addresses for the resource answer both queries, each with its family
    let held = DnsResource::from_description(&baz(), DomainName::vec_from_str("BAZ.com").unwrap());
    let answered = state.resource_ips_assigned(
        held,
        vec![IpAddress::v4(10, 0, 0, 5), IpAddress::V6(0xfd00 << 112 | 5)],
    );
    assert_eq!(answered, 2);
    assert!(state.deferred_dns_queries.is_empty());
    let mut kinds = Vec::new();
    while let Some(event) = state.poll_next_event() {
        match event {
            Event::SendPacket(Packet::Ipv4(reply)) => {
                let answer = &reply[28..];
                let count = u16::from(answer[6]) << 8 | u16::from(answer[7]);
                assert_eq!(count, 1);
                kinds.push(u16::from(answer[0]) << 8 | u16::from(answer[1]));
            }
            other => panic!("no packet for the device: {:?}", other),
        }
    }
    kinds.sort();
    assert_eq!(kinds, vec![1, 2]);
    // from now on the query is answered at once
    assert!(state.encapsulate(query_for(3, &["baz", "com"], 1)).is_none());
    assert!(matches!(state.poll_next_event(), Some(Event::SendPacket(_))));
}

#[test]
fn other_packets_go_to_the_peer_of_the_most_specific_route() {
    let mut state = state();
    state.peers_by_ip.insert(IpNetwork::V4(0x0a00_0000, 8), 1);
    state.peers_by_ip.insert(IpNetwork::V4(0x0a01_0000, 16), 2);
    let packet = udp4([10, 1, 2, 3], b"data");
    let bytes = packet.packet().to_vec();
    match state.encapsulate(packet) {
        Some((gateway, routed)) => {
            assert_eq!(gateway, GatewayId(2));
            assert_eq!(routed.packet(), &bytes[..]);
        }
        None => panic!("not routed"),
    }
    assert!(matches!(state.encapsulate(udp4([10, 2, 2, 3], b"data")), Some((GatewayId(1), _))));
    assert!(state.buffered_events.is_empty());
    // a query to an address that is no sentinel is routed like any packet
    let query = udp4([10, 1, 2, 3], &dns_query(1, &["baz", "com"], 1));
    assert!(matches!(state.encapsulate(query), Some((GatewayId(2), _))));
    // once the gateway is forgotten its routes are gone
    state.connected_gateway_ids = vec![GatewayId(1), GatewayId(2), GatewayId(1)];
    state.cleanup_connected_gateway(&GatewayId(2));
    assert_eq!(state.connected_gateway_ids, vec![GatewayId(1), GatewayId(1)]);
    assert!(matches!(state.encapsulate(udp4([10, 1, 2, 3], b"data")), Some((GatewayId(1), _))));
}

#[test]
fn a_packet_without_a_route_asks_for_the_resource_that_owns_its_destination() {
    let mut state = state();
    // 10.1.0.0/16 is owned twice; the first of the two is asked for
    assert!(state.encapsulate(udp4([10, 1, 2, 3], b"data")).is_none());
    assert!(state.encapsulate(udp4([10, 9, 2, 3], b"data")).is_none());
    assert!(state.encapsulate(udp4([11, 9, 2, 3], b"data")).is_none());
    let mut asked = Vec::new();
    while let Some(event) = state.poll_next_event() {
        match event {
            Event::ConnectionIntent { resource, reference, .. } => {
                asked.push((resource.id(), reference))
            }
            other => panic!("no intent: {:?}", other),
        }
    }
    assert_eq!(asked, vec![(ResourceId(11), 0), (ResourceId(10), 1)]);
    assert_eq!(state.next_reference, 2);
}

#[test]
fn the_clients_turn_asks_its_sources_in_order() {
    let mut tunnel: Tunnel<ClientState, GatewayId> = Tunnel::new(state());
    // without a device there is nothing to do
    assert!(matches!(tunnel.poll_next_event(TunnelInput::Start), TunnelStep::Park));
    tunnel.set_device();
    // nothing waits: the connections are asked, then the sockets, then the device
    assert!(matches!(tunnel.poll_next_event(TunnelInput::Start), TunnelStep::PollConnections));
    assert!(matches!(
        tunnel.poll_next_event(TunnelInput::Connections(None)),
        TunnelStep::PollSockets
    ));
    assert!(matches!(
        tunnel.poll_next_event(TunnelInput::Sockets(None)),
        TunnelStep::PollSendReady
    ));
    assert!(matches!(
        tunnel.poll_next_event(TunnelInput::SendReady(Readiness::NotReady)),
        TunnelStep::Wait
    ));
    assert!(matches!(
        tunnel.poll_next_event(TunnelInput::SendReady(Readiness::Failed(Error::Other(
            "socket".to_string()
        )))),
        TunnelStep::Fail(Error::Other(_))
    ));
    assert!(matches!(
        tunnel.poll_next_event(TunnelInput::SendReady(Readiness::Ready)),
        TunnelStep::ReadDevice
    ));
    assert!(matches!(
        tunnel.poll_next_event(TunnelInput::Device(DeviceRead::NotReady)),
        TunnelStep::Wait
    ));
    // a query is dealt with here; its answer is written at the next turn
    let held = DnsResource::from_description(&baz(), DomainName::vec_from_str("baz.com").unwrap());
    tunnel.role_state.resource_ips_assigned(held, vec![IpAddress::v4(10, 0, 0, 5)]);
    assert!(matches!(
        tunnel.poll_next_event(TunnelInput::Device(DeviceRead::Packet(query_for(
            1,
            &["baz", "com"],
            1
        )))),
        TunnelStep::Reschedule
    ));
    assert!(matches!(
        tunnel.poll_next_event(TunnelInput::Start),
        TunnelStep::WriteToDevice(Packet::Ipv4(_))
    ));
    assert!(matches!(
        tunnel.poll_next_event(TunnelInput::Written(Ok(()))),
        TunnelStep::Reschedule
    ));
    assert!(matches!(
        tunnel.poll_next_event(TunnelInput::Written(Err(Error::Other("tun".to_string())))),
        TunnelStep::Fail(Error::Other(_))
    ));
    // an intent is handed to the owner
    assert!(matches!(
        tunnel.poll_next_event(TunnelInput::Device(DeviceRead::Packet(udp4(
            [10, 9, 9, 9],
            b"data"
        )))),
        TunnelStep::Reschedule
    ));
    assert!(matches!(
        tunnel.poll_next_event(TunnelInput::Start),
        TunnelStep::Return(Event::ConnectionIntent { reference: 0, .. })
    ));
    // a routed packet is sent
    tunnel.role_state.peers_by_ip.insert(IpNetwork::V4(0x0a00_0000, 8), 4);
    assert!(matches!(
        tunnel.poll_next_event(TunnelInput::Device(DeviceRead::Packet(udp4(
            [10, 9, 9, 9],
            b"data"
        )))),
        TunnelStep::Send(GatewayId(4), _)
    ));
    // events of the connections
    assert!(matches!(
        tunnel.poll_next_event(TunnelInput::Connections(Some(Event::SignalIceCandidate {
            conn_id: GatewayId(4),
            candidate: "c".to_string()
        }))),
        TunnelStep::Return(Event::SignalIceCandidate { conn_id: GatewayId(4), .. })
    ));
    assert!(matches!(
        tunnel.poll_next_event(TunnelInput::Connections(Some(Event::StopPeer(GatewayId(4))))),
        TunnelStep::Reschedule
    ));
    assert!(matches!(
        tunnel.poll_next_event(TunnelInput::Device(DeviceRead::Packet(udp4(
            [10, 9, 9, 9],
            b"data"
        )))),
        TunnelStep::Reschedule
    ));
    // a packet of the sockets is written
    assert!(matches!(
        tunnel.poll_next_event(TunnelInput::Sockets(Some(Packet::Ipv4(vec![1, 2, 3])))),
        TunnelStep::WriteToDevice(Packet::Ipv4(_))
    ));
    // a closed device is gone
    assert!(matches!(
        tunnel.poll_next_event(TunnelInput::Device(DeviceRead::Failed(Error::Other(
            "read".to_string()
        )))),
        TunnelStep::Fail(_)
    ));
    assert!(tunnel.device);
    assert!(matches!(
        tunnel.poll_next_event(TunnelInput::Device(DeviceRead::Closed)),
        TunnelStep::Park
    ));
    assert!(!tunnel.device);
    assert!(matches!(tunnel.poll_next_event(TunnelInput::Start), TunnelStep::Park));
}

#[test]
fn the_gateways_turn_begins_with_what_has_run_out() {
    let mut routes = RoutingTable::new();
    routes.insert(IpNetwork::V4(0x0a00_0000, 8), 4);
    routes.insert(IpNetwork::V4(0x0b00_0000, 8), 5);
    let mut tunnel: Tunnel<GatewayState, ClientId> = Tunnel::new(GatewayState { peers_by_ip: routes });
    assert!(matches!(tunnel.poll_next_event(TunnelInput::Start), TunnelStep::PollExpired));
    assert!(matches!(
        tunnel.poll_next_event(TunnelInput::Expired(vec![ClientId(1), ClientId(2)])),
        TunnelStep::Cleanup(ids) if ids == vec![ClientId(1), ClientId(2)]
    ));
    assert!(matches!(
        tunnel.poll_next_event(TunnelInput::Expired(Vec::new())),
        TunnelStep::Park
    ));
    tunnel.set_device();
    assert!(matches!(
        tunnel.poll_next_event(TunnelInput::Expired(Vec::new())),
        TunnelStep::PollConnections
    ));
    assert!(matches!(
        tunnel.poll_next_event(TunnelInput::Connections(Some(Event::StopPeer(ClientId(4))))),
        TunnelStep::Reschedule
    ));
    assert_eq!(tunnel.role_state.peers_by_ip.longest_match(IpAddress::v4(10, 0, 0, 1)), None);
    assert!(tunnel.role_state.peers_by_ip.longest_match(IpAddress::v4(11, 0, 0, 1)).is_some());
    assert!(matches!(
        tunnel.poll_next_event(TunnelInput::Device(DeviceRead::Packet(udp4([11, 0, 0, 1], b"x")))),
        TunnelStep::Encapsulate(_)
    ));
    assert!(matches!(
        tunnel.poll_next_event(TunnelInput::Encapsulated(Some((ClientId(5), udp4([11, 0, 0, 1], b"x"))))),
        TunnelStep::Send(ClientId(5), _)
    ));
    assert!(matches!(
        tunnel.poll_next_event(TunnelInput::Encapsulated(None)),
        TunnelStep::Reschedule
    ));
    assert!(matches!(
        tunnel.poll_next_event(TunnelInput::Device(DeviceRead::Closed)),
        TunnelStep::Park
    ));
    assert!(!tunnel.device);
}

#[test]
fn connections_keep_one_peer_each() {
    let mut connections: ConnectionState<GatewayId> = ConnectionState::new();
    let peer = |id: u128, prefix: u8| Peer {
        conn_id: GatewayId(id),
        allowed_ips: vec![IpNetwork::V4(0x0a00_0000, prefix)],
    };
    connections.insert(peer(1, 8));
    connections.insert(peer(2, 9));
    connections.insert(peer(1, 10));
    assert_eq!(connections.peers_by_id.len(), 2);
    let stats = connections.stats();
    assert_eq!(stats.len(), 2);
    assert_eq!(stats[0].0, GatewayId(1));
    assert_eq!(stats[0].1.conn_id, GatewayId(1));
    assert_eq!(stats[0].1.allowed_ips, vec![IpNetwork::V4(0x0a00_0000, 10)]);
    assert_eq!(stats[1].0, GatewayId(2));
    assert!(connections.remove(GatewayId(1)));
    assert!(!connections.remove(GatewayId(1)));
    assert_eq!(connections.stats().len(), 1);
}

#[test]
fn datagrams_are_taken_in_step_by_step() {
    let mut connections: ConnectionState<GatewayId> = ConnectionState::new();
    connections.insert(Peer { conn_id: GatewayId(1), allowed_ips: Vec::new() });
    assert!(matches!(connections.poll_sockets(SocketInput::NotReady), SocketStep::Wait));
    assert!(matches!(connections.poll_sockets(SocketInput::ReadFailed), SocketStep::Retry));
    assert!(matches!(connections.poll_sockets(SocketInput::Received), SocketStep::Decapsulate));
    assert!(matches!(connections.poll_sockets(SocketInput::Consumed), SocketStep::Retry));
    assert!(matches!(connections.poll_sockets(SocketInput::DecapsulateFailed), SocketStep::Retry));
    assert!(matches!(
        connections.poll_sockets(SocketInput::Decapsulated(GatewayId(1))),
        SocketStep::Untransform
    ));
    assert!(matches!(
        connections.poll_sockets(SocketInput::Decapsulated(GatewayId(2))),
        SocketStep::Retry
    ));
    assert!(matches!(connections.poll_sockets(SocketInput::UntransformFailed), SocketStep::Retry));
    assert!(matches!(
        connections.poll_sockets(SocketInput::Untransformed(Packet::Ipv6(vec![6]))),
        SocketStep::Deliver(Packet::Ipv6(bytes)) if bytes == vec![6]
    ));
}

#[test]
fn connections_are_looked_after_step_by_step() {
    let mut connections: ConnectionState<GatewayId> = ConnectionState::new();
    connections.insert(Peer { conn_id: GatewayId(1), allowed_ips: Vec::new() });
    connections.insert(Peer { conn_id: GatewayId(2), allowed_ips: Vec::new() });
    let mut step = |input| connections.poll_next_event(input);
    assert!(matches!(step(ConnectionInput::SendReady(false)), ConnectionStep::Wait));
    assert!(matches!(step(ConnectionInput::SendReady(true)), ConnectionStep::PollTransmit));
    assert!(matches!(step(ConnectionInput::Transmit(true)), ConnectionStep::SendTransmit));
    assert!(matches!(step(ConnectionInput::Transmit(false)), ConnectionStep::PollEvent));
    assert!(matches!(
        step(ConnectionInput::SignalIceCandidate { connection: GatewayId(1), candidate: "c".to_string() }),
        ConnectionStep::Report(Event::SignalIceCandidate { conn_id: GatewayId(1), candidate }) if candidate == "c"
    ));
    assert!(matches!(step(ConnectionInput::NoEvent), ConnectionStep::PollTimer));
    assert!(matches!(step(ConnectionInput::Timeout(false)), ConnectionStep::Idle));
    assert!(matches!(step(ConnectionInput::Timeout(true)), ConnectionStep::HandleTimeout));
    assert!(matches!(step(ConnectionInput::NextTimeout(true)), ConnectionStep::ResetTimer));
    assert!(matches!(step(ConnectionInput::NextTimeout(false)), ConnectionStep::Reschedule));
    assert!(matches!(
        step(ConnectionInput::ConnectionFailed(GatewayId(1))),
        ConnectionStep::Report(Event::StopPeer(GatewayId(1)))
    ));
    assert_eq!(connections.peers_by_id.len(), 1);
    assert_eq!(connections.peers_by_id[0].conn_id, GatewayId(2));
}

#[test]
fn what_the_node_makes_is_sent_and_its_failures_are_dropped() {
    let connections: ConnectionState<GatewayId> = ConnectionState::new();
    let transmit = || Transmit {
        src: None,
        dst: SocketAddress { ip: IpAddress::v4(5, 5, 5, 5), port: 51820 },
        payload: vec![1, 2, 3],
    };
    assert!(matches!(connections.try_send(Ok(Some(transmit()))), Ok(Some(t)) if t.payload == vec![1, 2, 3]));
    assert!(matches!(connections.try_send(Ok(None)), Ok(None)));
    assert!(matches!(
        connections.try_send(Err(Error::Other("not connected".to_string()))),
        Err(Error::Other(_))
    ));
    assert!(matches!(connections.send(Ok(Some(transmit()))), Some(t) if t.dst.port == 51820));
    assert!(connections.send(Ok(None)).is_none());
    assert!(connections.send(Err(Error::Other("not connected".to_string()))).is_none());
}

#[test]
fn a_removed_resource_is_known_no_more() {
    let mut state = state();
    state.remove_resource(ResourceId(11));
    assert_eq!(
        state.cidr_resources.iter().map(|r| r.id).collect::<Vec<_>>(),
        vec![ResourceId(10), ResourceId(12)]
    );
    assert_eq!(state.dns_resources.len(), 1);
    state.remove_resource(ResourceId(3));
    assert_eq!(state.dns_resources.len(), 0);
    assert_eq!(state.cidr_resources.len(), 2);
    // a query for it now goes upstream, and its network is owned by the other
    assert!(state.encapsulate(query_for(1, &["baz", "com"], 1)).is_none());
    assert_eq!(state.forwarded_dns_queries.len(), 1);
    assert!(state.encapsulate(udp4([10, 1, 2, 3], b"data")).is_none());
    assert!(matches!(
        state.poll_next_event(),
        Some(Event::ConnectionIntent { resource, .. }) if resource.id() == ResourceId(12)
    ));
    assert_eq!(state.remove_resource(ResourceId(77)), None);
    assert_eq!(state.cidr_resources.len(), 2);
}

#[test]
fn removing_a_resource_stops_the_gateway_that_serves_it() {
    let mut state = state();
    state.peers_by_ip.insert(IpNetwork::V4(0x0a00_0000, 8), 1);
    state.peers_by_ip.insert(IpNetwork::V4(0x0a01_0000, 16), 2);
    state.connected_gateway_ids = vec![GatewayId(1), GatewayId(2)];
    state.gateway_assigned(ResourceId(10), GatewayId(9));
    state.gateway_assigned(ResourceId(10), GatewayId(1));
    state.gateway_assigned(ResourceId(11), GatewayId(2));
    state.gateway_assigned(ResourceId(3), GatewayId(1));
    assert_eq!(state.gateway_of(ResourceId(10)), Some(GatewayId(1)));
    assert_eq!(state.gateway_of(ResourceId(12)), None);
    // a resource that no gateway serves stops none
    assert_eq!(state.remove_resource(ResourceId(12)), None);
    assert_eq!(state.connected_gateway_ids, vec![GatewayId(1), GatewayId(2)]);
    // the gateway of the resource removed loses its routes and its resources
    assert_eq!(state.remove_resource(ResourceId(10)), Some(GatewayId(1)));
    assert_eq!(state.connected_gateway_ids, vec![GatewayId(2)]);
    assert_eq!(state.resources_gateways, vec![(ResourceId(11), GatewayId(2))]);
    assert_eq!(state.peers_by_ip.longest_match(IpAddress::v4(10, 2, 0, 1)), None);
    assert_eq!(
        state.peers_by_ip.longest_match(IpAddress::v4(10, 1, 0, 1)),
        Some((IpNetwork::V4(0x0a01_0000, 16), 2))
    );
    assert_eq!(
        state.cidr_resources.iter().map(|r| r.id).collect::<Vec<_>>(),
        vec![ResourceId(11)]
    );
}

#[test]
fn a_stopped_gateway_serves_no_resource_any_longer() {
    let mut state = state();
    state.gateway_assigned(ResourceId(10), GatewayId(1));
    state.gateway_assigned(ResourceId(11), GatewayId(2));
    state.cleanup_connected_gateway(&GatewayId(1));
    assert_eq!(state.gateway_of(ResourceId(10)), None);
    assert_eq!(state.gateway_of(ResourceId(11)), Some(GatewayId(2)));
}

#[test]
fn the_tunnel_takes_the_peer_of_a_removed_resource_away() {
    let mut tunnel: Tunnel<ClientState, GatewayId> = Tunnel::new(state());
    tunnel.connections_state.insert(Peer { conn_id: GatewayId(1), allowed_ips: Vec::new() });
    tunnel.connections_state.insert(Peer { conn_id: GatewayId(2), allowed_ips: Vec::new() });
    tunnel.role_state.gateway_assigned(ResourceId(10), GatewayId(2));
    assert_eq!(tunnel.remove_resource(ResourceId(11)), None);
    assert_eq!(tunnel.connections_state.peers_by_id.len(), 2);
    assert_eq!(tunnel.remove_resource(ResourceId(10)), Some(GatewayId(2)));
    let left: Vec<GatewayId> =
        tunnel.connections_state.peers_by_id.iter().map(|p| p.conn_id).collect();
    assert_eq!(left, vec![GatewayId(1)]);
}
