use client_tunnel::checksum::{finish_checksum, sum_words};
use client_tunnel::ip::IpAddress;
use client_tunnel::packet::{build_response, IpPacket, Packet, Version};

fn ones_complement(words: &[u8]) -> u16 {
    let mut sum: u32 = 0;
    let mut i = 0;
    while i + 1 < words.len() {
        sum += u32::from(words[i]) << 8 | u32::from(words[i + 1]);
        i += 2;
    }
    if i < words.len() {
        sum += u32::from(words[i]) << 8;
    }
    while sum >> 16 != 0 {
        sum = (sum >> 16) + (sum & 0xffff);
    }
    sum as u16
}

fn v4_with_options(payload: &[u8]) -> Vec<u8> {
    // a header of six words: one word of options
    let total = 24 + 8 + payload.len();
    let mut p = vec![0x46, 0, (total >> 8) as u8, total as u8, 0, 1, 0, 0, 9, 17, 0, 0];
    p.extend_from_slice(&[192, 168, 1, 2]);
    p.extend_from_slice(&[192, 168, 1, 1]);
    p.extend_from_slice(&[1, 1, 1, 0]);
    p.extend_from_slice(&1234u16.to_be_bytes());
    p.extend_from_slice(&53u16.to_be_bytes());
    p.extend_from_slice(&((8 + payload.len()) as u16).to_be_bytes());
    p.extend_from_slice(&[0xde, 0xad]);
    p.extend_from_slice(payload);
    p
}

#[test]
fn the_checksum_is_the_complement_of_the_folded_sum() {
    assert_eq!(sum_words(&[]), 0);
    assert_eq!(sum_words(&[1, 2]), 0x0102);
    assert_eq!(sum_words(&[1, 2, 3]), 0x0102 + 0x0300);
    assert_eq!(sum_words(&[0xff, 0xff, 0xff, 0xff]), 0x1fffe);
    assert_eq!(finish_checksum(0), 0xffff);
    assert_eq!(finish_checksum(1), 0xfffe);
    assert_eq!(finish_checksum(0xffff), 0);
    assert_eq!(finish_checksum(0x1_0000), 0xfffe);
    assert_eq!(finish_checksum(0x1fffe), 0);
    // the example of RFC 1071
    let data = [0x00, 0x01, 0xf2, 0x03, 0xf4, 0xf5, 0xf6, 0xf7];
    assert_eq!(sum_words(&data), 0x2ddf0);
    assert_eq!(finish_checksum(sum_words(&data)), 0x220d);
}

#[test]
fn packets_are_checked_when_made() {
    let good = v4_with_options(b"hello");
    let packet = IpPacket::new(good.clone()).unwrap();
    assert_eq!(packet.version(), Version::Ipv4);
    assert_eq!(packet.header_len(), 24);
    assert_eq!(packet.source(), IpAddress::v4(192, 168, 1, 2));
    assert_eq!(packet.destination(), IpAddress::v4(192, 168, 1, 1));
    assert!(packet.is_udp());
    assert_eq!(packet.udp_payload(), Some(&b"hello"[..]));
    assert_eq!(packet.packet(), &good[..]);
    assert_eq!(packet.clone_packet().packet(), &good[..]);
    // too short, wrong version, header too short or too long, wrong length
    assert!(IpPacket::new(good[..19].to_vec()).is_none());
    assert!(IpPacket::new(Vec::new()).is_none());
    let mut bad = good.clone();
    bad[0] = 0x56;
    assert!(IpPacket::new(bad).is_none());
    let mut bad = good.clone();
    bad[0] = 0x44;
    assert!(IpPacket::new(bad).is_none());
    let mut bad = good.clone();
    bad[0] = 0x4f;
    assert!(IpPacket::new(bad).is_none());
    let mut bad = good.clone();
    bad[3] += 1;
    assert!(IpPacket::new(bad).is_none());
    let mut bad = good.clone();
    bad.push(0);
    assert!(IpPacket::new(bad).is_none());
    // an IPv6 packet
    let mut six = vec![0x60, 0, 0, 0, 0, 9, 17, 64];
    six.extend_from_slice(&(0x2001_0db8u128 << 96 | 1).to_be_bytes());
    six.extend_from_slice(&(0x2001_0db8u128 << 96 | 2).to_be_bytes());
    six.extend_from_slice(&[0, 1, 0, 2, 0, 9, 0, 0, b'x']);
    let packet = IpPacket::new(six.clone()).unwrap();
    assert_eq!(packet.version(), Version::Ipv6);
    assert_eq!(packet.header_len(), 40);
    assert_eq!(packet.source(), IpAddress::V6(0x2001_0db8u128 << 96 | 1));
    assert_eq!(packet.destination(), IpAddress::V6(0x2001_0db8u128 << 96 | 2));
    assert_eq!(packet.udp_payload(), Some(&b"x"[..]));
    assert!(IpPacket::new(six[..39].to_vec()).is_none());
    six[5] = 8;
    assert!(IpPacket::new(six).is_none());
}

#[test]
fn a_packet_without_a_whole_udp_header_carries_no_udp() {
    let mut p = vec![0x45, 0, 0, 27, 0, 0, 0, 0, 64, 17, 0, 0, 1, 1, 1, 1, 2, 2, 2, 2];
    p.extend_from_slice(&[0, 1, 0, 2, 0, 7, 0]);
    let packet = IpPacket::new(p).unwrap();
    assert!(!packet.is_udp());
    assert!(packet.udp_payload().is_none());
    assert!(build_response(&packet, b"answer".to_vec()).is_none());
    let mut tcp = v4_with_options(b"hello");
    tcp[9] = 6;
    let packet = IpPacket::new(tcp).unwrap();
    assert!(!packet.is_udp());
    assert!(build_response(&packet, b"answer".to_vec()).is_none());
}

#[test]
fn the_reply_keeps_the_headers_and_swaps_the_ends() {
    let request = v4_with_options(b"question");
    let packet = IpPacket::new(request.clone()).unwrap();
    let reply = match build_response(&packet, b"the answer".to_vec()) {
        Some(Packet::Ipv4(bytes)) => bytes,
        other => panic!("no IPv4 reply: {:?}", other),
    };
    assert_eq!(reply.len(), 24 + 8 + 10);
    // what is kept
    assert_eq!(&reply[..2], &request[..2]);
    assert_eq!(&reply[4..10], &request[4..10]);
    assert_eq!(&reply[20..24], &request[20..24]);
    // what is swapped
    assert_eq!(&reply[12..16], &request[16..20]);
    assert_eq!(&reply[16..20], &request[12..16]);
    assert_eq!(&reply[24..26], &request[26..28]);
    assert_eq!(&reply[26..28], &request[24..26]);
    // the lengths
    assert_eq!(&reply[2..4], &42u16.to_be_bytes());
    assert_eq!(&reply[28..30], &18u16.to_be_bytes());
    assert_eq!(&reply[32..], b"the answer");
    // the checksums
    assert_eq!(ones_complement(&reply[..24]), 0xffff);
    let mut pseudo = Vec::new();
    pseudo.extend_from_slice(&reply[12..20]);
    pseudo.extend_from_slice(&[0, 17, 0, 18]);
    pseudo.extend_from_slice(&reply[24..]);
    assert_eq!(ones_complement(&pseudo), 0xffff);
    // the reply is a packet of its own
    let again = IpPacket::new(reply).unwrap();
    assert_eq!(again.source(), packet.destination());
    assert_eq!(again.destination(), packet.source());
    assert_eq!(again.udp_payload(), Some(&b"the answer"[..]));
}

#[test]
fn the_reply_to_an_answer_of_odd_length_checks_too() {
    let packet = IpPacket::new(v4_with_options(b"q")).unwrap();
    let reply = match build_response(&packet, b"odd".to_vec()) {
        Some(Packet::Ipv4(bytes)) => bytes,
        other => panic!("no IPv4 reply: {:?}", other),
    };
    let mut pseudo = Vec::new();
    pseudo.extend_from_slice(&reply[12..20]);
    pseudo.extend_from_slice(&[0, 17, 0, 11]);
    pseudo.extend_from_slice(&reply[24..]);
    assert_eq!(ones_complement(&pseudo), 0xffff);
    assert_eq!(ones_complement(&reply[..24]), 0xffff);
    // an empty answer is framed as well
    let reply = match build_response(&packet, Vec::new()) {
        Some(Packet::Ipv4(bytes)) => bytes,
        other => panic!("no IPv4 reply: {:?}", other),
    };
    assert_eq!(reply.len(), 32);
    assert_eq!(&reply[28..30], &8u16.to_be_bytes());
}

#[test]
fn an_answer_too_long_for_the_length_fields_is_not_framed() {
    let packet = IpPacket::new(v4_with_options(b"q")).unwrap();
    assert!(build_response(&packet, vec![0; 0xffff - 24 - 8]).is_some());
    assert!(build_response(&packet, vec![0; 0xffff - 24 - 8 + 1]).is_none());
    let mut six = vec![0x60, 0, 0, 0, 0, 8, 17, 64];
    six.extend_from_slice(&[0; 32]);
    six.extend_from_slice(&[0, 1, 0, 2, 0, 8, 0, 0]);
    let packet = IpPacket::new(six).unwrap();
    assert!(build_response(&packet, vec![0; 0xffff - 8]).is_some());
    assert!(build_response(&packet, vec![0; 0xffff - 8 + 1]).is_none());
}
