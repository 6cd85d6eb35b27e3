use client_tunnel::dns::{parse, DnsQuery, ResolveStrategy};
use client_tunnel::ip::IpAddress;
use client_tunnel::name::DomainName;
use client_tunnel::packet::{IpPacket, Packet};
use client_tunnel::resources::{
    DnsResource, DnsResourceTable, ResourceDescriptionDns, ResourceId, ResourceIps,
};
use client_tunnel::sentinel::{
    sentinel_dns_mapping, DnsServer, IpDnsServer, SentinelMapping, SocketAddress,
};

fn server(ip: IpAddress, port: u16) -> DnsServer {
    DnsServer::IpPort(IpDnsServer {
        address: SocketAddress { ip, port },
    })
}

fn baz() -> ResourceDescriptionDns {
    ResourceDescriptionDns {
        id: ResourceId(0xc4bb3d79_afa7_4660_8918_06c38fda3a4c),
        address: "baz.com".to_string(),
        name: "baz.com".to_string(),
    }
}

fn mapping() -> SentinelMapping {
    SentinelMapping::new().insert(
        IpAddress::v4(100, 100, 111, 1),
        server(IpAddress::v4(1, 1, 1, 1), 53),
    )
}

fn resources() -> DnsResourceTable {
    let mut table = DnsResourceTable::new();
    table.insert("baz.com".to_string(), baz());
    table
}

fn dns_query(id: u16, name: &[&str], qtype: u16, qclass: u16) -> Vec<u8> {
    let mut m = vec![(id >> 8) as u8, id as u8, 0x01, 0x00, 0, 1, 0, 0, 0, 0, 0, 0];
    for label in name {
        m.push(label.len() as u8);
        m.extend_from_slice(label.as_bytes());
    }
    m.push(0);
    m.extend_from_slice(&qtype.to_be_bytes());
    m.extend_from_slice(&qclass.to_be_bytes());
    m
}

fn ones_complement(words: &[u8]) -> u16 {
    let mut sum: u32 = 0;
    let mut i = 0;
    while i + 1 < words.len() {
        sum += u32::from(words[i]) << 8 | u32::from(words[i + 1]);
        i += 2;
    }
    if i < words.len() {
        sum += u32::from(words[i]) << 8;
    }
    while sum >> 16 != 0 {
        sum = (sum >> 16) + (sum & 0xffff);
    }
    sum as u16
}

fn udp4(src: [u8; 4], dst: [u8; 4], sport: u16, dport: u16, payload: &[u8]) -> Vec<u8> {
    let total = 20 + 8 + payload.len();
    let mut p = vec![0x45, 0, (total >> 8) as u8, total as u8, 0xab, 0xcd, 0x40, 0, 64, 17, 0, 0];
    p.extend_from_slice(&src);
    p.extend_from_slice(&dst);
    let sum = !ones_complement(&p);
    p[10] = (sum >> 8) as u8;
    p[11] = sum as u8;
    p.extend_from_slice(&sport.to_be_bytes());
    p.extend_from_slice(&dport.to_be_bytes());
    p.extend_from_slice(&((8 + payload.len()) as u16).to_be_bytes());
    p.extend_from_slice(&[0, 0]);
    p.extend_from_slice(payload);
    p
}

fn udp6(src: [u8; 16], dst: [u8; 16], sport: u16, dport: u16, payload: &[u8]) -> Vec<u8> {
    let len = 8 + payload.len();
    let mut p = vec![0x60, 0, 0, 0, (len >> 8) as u8, len as u8, 17, 64];
    p.extend_from_slice(&src);
    p.extend_from_slice(&dst);
    p.extend_from_slice(&sport.to_be_bytes());
    p.extend_from_slice(&dport.to_be_bytes());
    p.extend_from_slice(&(len as u16).to_be_bytes());
    p.extend_from_slice(&[0, 0]);
    p.extend_from_slice(payload);
    p
}

fn local(strategy: Option<ResolveStrategy<Packet, DnsQuery, (DnsResource, u16)>>) -> Vec<u8> {
    match strategy {
        Some(ResolveStrategy::LocalResponse(Packet::Ipv4(bytes))) => bytes,
        Some(ResolveStrategy::LocalResponse(Packet::Ipv6(bytes))) => bytes,
        other => panic!("no local response: {:?}", other),
    }
}

#[test]
fn end_to_end_dns_intercept() {
    let mapping = mapping();
    let sentinel = IpAddress::v4(100, 100, 111, 1);
    assert_eq!(
        mapping.get_by_left(&sentinel),
        Some(server(IpAddress::v4(1, 1, 1, 1), 53))
    );
    let resources = resources();
    let mut ips = ResourceIps::new();
    ips.insert(
        DnsResource::from_description(&baz(), DomainName::vec_from_str("baz.com").unwrap()),
        vec![IpAddress::v4(10, 0, 0, 5)],
    );
    let query = dns_query(0x1234, &["baz", "com"], 1, 1);
    let packet = udp4([100, 64, 0, 7], [100, 100, 111, 1], 40000, 53, &query);
    let reply = local(parse(&resources, &ips, &mapping, IpPacket::new(packet).unwrap()));

    // the IP header: same shape, addresses swapped, length and checksum right
    assert_eq!(reply[0], 0x45);
    assert_eq!(usize::from(reply[2]) << 8 | usize::from(reply[3]), reply.len());
    assert_eq!(&reply[12..16], &[100, 100, 111, 1]);
    assert_eq!(&reply[16..20], &[100, 64, 0, 7]);
    assert_eq!(ones_complement(&reply[..20]), 0xffff);
    // the UDP header: ports swapped, length eight more than the payload
    assert_eq!(&reply[20..22], &53u16.to_be_bytes());
    assert_eq!(&reply[22..24], &40000u16.to_be_bytes());
    let answer = &reply[28..];
    assert_eq!(usize::from(reply[24]) << 8 | usize::from(reply[25]), 8 + answer.len());
    let mut pseudo = Vec::new();
    pseudo.extend_from_slice(&reply[12..20]);
    pseudo.extend_from_slice(&[0, 17]);
    pseudo.extend_from_slice(&reply[24..26]);
    pseudo.extend_from_slice(&reply[20..]);
    assert_eq!(ones_complement(&pseudo), 0xffff);
    // the DNS answer: 10.0.0.5 with a lifetime of one second
    let message = domain::base::Message::from_octets(answer).unwrap();
    let header = message.header();
    assert_eq!(header.id(), 0x1234);
    assert!(header.qr());
    assert!(header.ra());
    assert!(header.rd());
    assert_eq!(header.rcode(), domain::base::iana::Rcode::NoError);
    assert_eq!(message.header_counts().qdcount(), 1);
    assert_eq!(message.header_counts().ancount(), 1);
    let record = message
        .answer()
        .unwrap()
        .limit_to::<domain::rdata::A>()
        .next()
        .unwrap()
        .unwrap();
    assert_eq!(record.ttl().as_secs(), 1);
    assert_eq!(record.data().addr().octets(), [10, 0, 0, 5]);
    assert_eq!(record.owner().to_string(), "baz.com");
    assert_eq!(record.class(), domain::base::iana::Class::In);
}

fn answers_of(reply: &[u8], header: usize) -> Vec<(u16, Vec<u8>, u32)> {
    let message = domain::base::Message::from_octets(&reply[header + 8..]).unwrap();
    let mut found = Vec::new();
    for record in message.answer().unwrap() {
        let record = record.unwrap();
        let data = record
            .to_record::<domain::base::rdata::UnknownRecordData<_>>()
            .unwrap()
            .unwrap();
        found.push((
            record.rtype().to_int(),
            data.data().data().to_vec(),
            record.ttl().as_secs(),
        ));
    }
    found
}

fn baz_ips(addresses: Vec<IpAddress>) -> ResourceIps {
    let mut ips = ResourceIps::new();
    ips.insert(
        DnsResource::from_description(&baz(), DomainName::vec_from_str("baz.com").unwrap()),
        addresses,
    );
    ips
}

fn to_sentinel(query: &[u8]) -> IpPacket {
    IpPacket::new(udp4([100, 64, 0, 7], [100, 100, 111, 1], 40000, 53, query)).unwrap()
}

#[test]
fn address_answers_hold_only_the_family_asked_for() {
    let mixed = vec![
        IpAddress::v4(10, 0, 0, 5),
        IpAddress::V6(0xfd00_2021_1111_0000_0000_0000_0000_0005),
        IpAddress::v4(10, 0, 0, 6),
    ];
    let query = dns_query(7, &["baz", "com"], 1, 1);
    let reply = local(parse(&resources(), &baz_ips(mixed.clone()), &mapping(), to_sentinel(&query)));
    assert_eq!(
        answers_of(&reply, 20),
        vec![(1, vec![10, 0, 0, 5], 1), (1, vec![10, 0, 0, 6], 1)]
    );
    let query = dns_query(8, &["baz", "com"], 28, 1);
    let reply = local(parse(&resources(), &baz_ips(mixed), &mapping(), to_sentinel(&query)));
    assert_eq!(
        answers_of(&reply, 20),
        vec![(
            28,
            vec![0xfd, 0, 0x20, 0x21, 0x11, 0x11, 0, 0, 0, 0, 0, 0, 0, 0, 0, 5],
            1
        )]
    );
}

#[test]
fn address_query_without_a_resource_is_forwarded() {
    let query = dns_query(9, &["example", "org"], 1, 1);
    let packet = udp4([100, 64, 0, 7], [100, 100, 111, 1], 40000, 53, &query);
    match parse(
        &resources(),
        &ResourceIps::new(),
        &mapping(),
        IpPacket::new(packet.clone()).unwrap(),
    ) {
        Some(ResolveStrategy::ForwardQuery(forwarded)) => {
            assert_eq!(forwarded.name, "example.org");
            assert_eq!(forwarded.record_type, 1);
            assert_eq!(forwarded.query.packet(), &packet[..]);
        }
        other => panic!("not forwarded: {:?}", other),
    }
}

#[test]
fn address_query_for_a_resource_without_addresses_is_deferred() {
    let query = dns_query(9, &["baz", "com"], 28, 1);
    match parse(&resources(), &ResourceIps::new(), &mapping(), to_sentinel(&query)) {
        Some(ResolveStrategy::DeferredResponse((resource, qtype))) => {
            assert_eq!(resource.description, baz());
            assert_eq!(resource.address.to_text(), "baz.com");
            assert_eq!(qtype, 28);
        }
        other => panic!("not deferred: {:?}", other),
    }
}

#[test]
fn pointer_query_is_answered_with_the_name_of_the_resource() {
    let ips = baz_ips(vec![IpAddress::v4(10, 0, 0, 5)]);
    let query = dns_query(3, &["5", "0", "0", "10", "in-addr", "arpa"], 12, 1);
    let reply = local(parse(&resources(), &ips, &mapping(), to_sentinel(&query)));
    assert_eq!(
        answers_of(&reply, 20),
        vec![(12, b"\x03baz\x03com\x00".to_vec(), 1)]
    );
    // an address that stands for no resource goes upstream
    let query = dns_query(3, &["6", "0", "0", "10", "in-addr", "arpa"], 12, 1);
    assert!(matches!(
        parse(&resources(), &ips, &mapping(), to_sentinel(&query)),
        Some(ResolveStrategy::ForwardQuery(_))
    ));
    // and so does a name that writes no address
    let query = dns_query(3, &["baz", "com"], 12, 1);
    assert!(matches!(
        parse(&resources(), &ips, &mapping(), to_sentinel(&query)),
        Some(ResolveStrategy::ForwardQuery(_))
    ));
}

#[test]
fn other_query_for_a_resource_is_neither_answered_nor_forwarded() {
    let query = dns_query(0x4242, &["baz", "com"], 16, 1);
    let ips = baz_ips(vec![IpAddress::v4(10, 0, 0, 5)]);
    assert!(parse(&resources(), &ips, &mapping(), to_sentinel(&query)).is_none());
    // the same for a name that a wildcard matches
    let mut table = resources();
    table.insert(
        "*.foo.com".to_string(),
        ResourceDescriptionDns {
            id: ResourceId(5),
            address: "*.foo.com".to_string(),
            name: "foo".to_string(),
        },
    );
    let query = dns_query(0x4242, &["a", "b", "foo", "com"], 15, 1);
    assert!(parse(&table, &ips, &mapping(), to_sentinel(&query)).is_none());
    // and is forwarded where the name is no resource
    let query = dns_query(0x4242, &["example", "org"], 16, 1);
    match parse(&resources(), &ResourceIps::new(), &mapping(), to_sentinel(&query)) {
        Some(ResolveStrategy::ForwardQuery(forwarded)) => assert_eq!(forwarded.record_type, 16),
        other => panic!("not forwarded: {:?}", other),
    }
}

#[test]
fn what_is_no_query_to_a_sentinel_is_not_intercepted() {
    let ips = baz_ips(vec![IpAddress::v4(10, 0, 0, 5)]);
    let query = dns_query(1, &["baz", "com"], 1, 1);
    // another destination
    let packet = udp4([100, 64, 0, 7], [1, 1, 1, 1], 40000, 53, &query);
    assert!(parse(&resources(), &ips, &mapping(), IpPacket::new(packet).unwrap()).is_none());
    // the second sentinel is not in use
    let packet = udp4([100, 64, 0, 7], [100, 100, 111, 2], 40000, 53, &query);
    assert!(parse(&resources(), &ips, &mapping(), IpPacket::new(packet).unwrap()).is_none());
    // not UDP
    let mut packet = udp4([100, 64, 0, 7], [100, 100, 111, 1], 40000, 53, &query);
    packet[9] = 6;
    assert!(parse(&resources(), &ips, &mapping(), IpPacket::new(packet).unwrap()).is_none());
    // a response
    let mut response = query.clone();
    response[2] |= 0x80;
    assert!(parse(&resources(), &ips, &mapping(), to_sentinel(&response)).is_none());
    // too short for a header
    assert!(parse(&resources(), &ips, &mapping(), to_sentinel(&query[..11])).is_none());
    // no question
    let mut empty = query[..12].to_vec();
    empty[5] = 0;
    assert!(parse(&resources(), &ips, &mapping(), to_sentinel(&empty)).is_none());
    // another class than IN
    let chaos = dns_query(1, &["baz", "com"], 1, 3);
    assert!(parse(&resources(), &ips, &mapping(), to_sentinel(&chaos)).is_none());
}

#[test]
fn ipv6_query_is_answered_in_an_ipv6_packet() {
    let upstream = IpAddress::V6(0x2606_4700_4700_0000_0000_0000_0000_1111);
    let mapping = sentinel_dns_mapping(&[server(upstream, 53)]);
    let sentinel: u128 = 0xfd00_2021_1111_8000_0100_0100_0111_0000;
    assert_eq!(
        mapping.get_by_right(&server(upstream, 53)),
        Some(IpAddress::V6(sentinel))
    );
    let source: u128 = 0xfd00_2021_1111_0000_0000_0000_0000_0007;
    let query = dns_query(0x77, &["baz", "com"], 1, 1);
    let packet = udp6(source.to_be_bytes(), sentinel.to_be_bytes(), 5000, 53, &query);
    let reply = match parse(
        &resources(),
        &baz_ips(vec![IpAddress::v4(10, 0, 0, 5)]),
        &mapping,
        IpPacket::new(packet).unwrap(),
    ) {
        Some(ResolveStrategy::LocalResponse(Packet::Ipv6(bytes))) => bytes,
        other => panic!("no IPv6 reply: {:?}", other),
    };
    assert_eq!(reply[0] >> 4, 6);
    assert_eq!(usize::from(reply[4]) << 8 | usize::from(reply[5]), reply.len() - 40);
    assert_eq!(&reply[8..24], &sentinel.to_be_bytes());
    assert_eq!(&reply[24..40], &source.to_be_bytes());
    assert_eq!(&reply[40..42], &53u16.to_be_bytes());
    assert_eq!(&reply[42..44], &5000u16.to_be_bytes());
    assert_eq!(usize::from(reply[44]) << 8 | usize::from(reply[45]), reply.len() - 40);
    let mut pseudo = Vec::new();
    pseudo.extend_from_slice(&reply[8..40]);
    pseudo.extend_from_slice(&[0, 17]);
    pseudo.extend_from_slice(&reply[44..46]);
    pseudo.extend_from_slice(&reply[40..]);
    assert_eq!(ones_complement(&pseudo), 0xffff);
    assert_eq!(answers_of(&reply, 40), vec![(1, vec![10, 0, 0, 5], 1)]);
}

#[test]
fn the_answers_header_follows_the_querys() {
    let ips = baz_ips(vec![IpAddress::v4(10, 0, 0, 5)]);
    for flags in [0x00u8, 0x01, 0x07, 0x29, 0x7f, 0x78] {
        for third in [0x00u8, 0x20, 0x9f, 0xff] {
            let mut query = dns_query(0xbeef, &["baz", "com"], 1, 1);
            query[2] = flags;
            query[3] = third;
            let reply = local(parse(&resources(), &ips, &mapping(), to_sentinel(&query)));
            assert_eq!(&reply[28..32], &[0xbe, 0xef, 0x80 | (flags & 0x79), 0x80]);
        }
    }
}

#[test]
fn several_addresses_are_answered_in_their_order() {
    let addresses: Vec<IpAddress> = (1..=20u8).map(|i| IpAddress::v4(10, 0, 0, i)).collect();
    let query = dns_query(1, &["baz", "com"], 1, 1);
    let reply = local(parse(&resources(), &baz_ips(addresses), &mapping(), to_sentinel(&query)));
    let answers = answers_of(&reply, 20);
    assert_eq!(answers.len(), 20);
    for (i, answer) in answers.iter().enumerate() {
        assert_eq!(answer, &(1, vec![10, 0, 0, i as u8 + 1], 1));
    }
    // a resource whose addresses are all of the other family is answered with none
    let query = dns_query(1, &["baz", "com"], 28, 1);
    let reply = local(parse(
        &resources(),
        &baz_ips(vec![IpAddress::v4(10, 0, 0, 5)]),
        &mapping(),
        to_sentinel(&query),
    ));
    assert!(answers_of(&reply, 20).is_empty());
    assert_eq!(&reply[30..32], &[0x81, 0x80]);
}
