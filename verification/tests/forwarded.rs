use client_tunnel::error::Error;
use client_tunnel::packet::{IpPacket, Packet};
use client_tunnel::upstream::{as_dns_message, build_response_from_resolve_result, ResolveFailure};
use hickory_resolver::proto::op::{Message, MessageType, ResponseCode};
use hickory_resolver::proto::rr::rdata::{A, SOA};
use hickory_resolver::proto::rr::{Name, RData, Record};
use hickory_resolver::proto::serialize::binary::BinEncodable;
use std::str::FromStr;

fn dns_query(id: u16, name: &[&str], qtype: u16) -> Vec<u8> {
    let mut m = vec![(id >> 8) as u8, id as u8, 0x01, 0x00, 0, 1, 0, 0, 0, 0, 0, 0];
    for label in name {
        m.push(label.len() as u8);
        m.extend_from_slice(label.as_bytes());
    }
    m.push(0);
    m.extend_from_slice(&qtype.to_be_bytes());
    m.extend_from_slice(&1u16.to_be_bytes());
    m
}

fn udp4(payload: &[u8]) -> Vec<u8> {
    let total = 20 + 8 + payload.len();
    let mut p = vec![0x45, 0, (total >> 8) as u8, total as u8, 0, 0, 0, 0, 64, 17, 0, 0];
    p.extend_from_slice(&[100, 64, 0, 7]);
    p.extend_from_slice(&[100, 100, 111, 1]);
    p.extend_from_slice(&40000u16.to_be_bytes());
    p.extend_from_slice(&53u16.to_be_bytes());
    p.extend_from_slice(&((8 + payload.len()) as u16).to_be_bytes());
    p.extend_from_slice(&[0, 0]);
    p.extend_from_slice(payload);
    p
}

fn asked() -> IpPacket {
    IpPacket::new(udp4(&dns_query(0x5150, &["example", "org"], 1))).unwrap()
}

fn address(last: u8) -> Record {
    Record::from_rdata(
        Name::from_str("example.org.").unwrap(),
        300,
        RData::A(A::new(93, 184, 216, last)),
    )
}

fn authority() -> Record {
    Record::from_rdata(
        Name::from_str("org.").unwrap(),
        900,
        RData::SOA(SOA::new(
            Name::from_str("a0.org.").unwrap(),
            Name::from_str("hostmaster.org.").unwrap(),
            1,
            2,
            3,
            4,
            5,
        )),
    )
}

fn reply_of(result: Result<Option<Packet>, Error>) -> (Vec<u8>, Message) {
    match result {
        Ok(Some(Packet::Ipv4(bytes))) => {
            let message = Message::from_vec(&bytes[28..]).unwrap();
            (bytes, message)
        }
        other => panic!("no IPv4 reply: {:?}", other),
    }
}

#[test]
fn records_found_are_sent_back_as_a_response() {
    let records = vec![address(34).to_bytes().unwrap(), address(35).to_bytes().unwrap()];
    let (bytes, message) = reply_of(build_response_from_resolve_result(&asked(), Ok(records)));
    assert_eq!(message.id(), 0x5150);
    assert_eq!(message.message_type(), MessageType::Response);
    assert_eq!(message.response_code(), ResponseCode::NoError);
    assert_eq!(message.queries().len(), 1);
    assert_eq!(message.queries()[0].name().to_ascii(), "example.org.");
    assert_eq!(message.answers(), &[address(34), address(35)]);
    assert!(message.name_servers().is_empty());
    // framed as the reply to the packet that asked
    assert_eq!(&bytes[12..16], &[100, 100, 111, 1]);
    assert_eq!(&bytes[16..20], &[100, 64, 0, 7]);
    assert_eq!(&bytes[20..22], &53u16.to_be_bytes());
    assert_eq!(&bytes[22..24], &40000u16.to_be_bytes());
    assert_eq!(usize::from(bytes[24]) << 8 | usize::from(bytes[25]), bytes.len() - 20);
}

#[test]
fn no_records_found_is_a_response_with_the_code_and_the_authority() {
    let failure = ResolveFailure::NoRecordsFound {
        soa: Some(authority().to_bytes().unwrap()),
        response_code: 3,
    };
    let (_, message) = reply_of(build_response_from_resolve_result(&asked(), Err(failure)));
    assert_eq!(message.message_type(), MessageType::Response);
    assert_eq!(message.response_code(), ResponseCode::NXDomain);
    assert!(message.answers().is_empty());
    assert_eq!(message.name_servers(), &[authority()]);

    let failure = ResolveFailure::NoRecordsFound { soa: None, response_code: 0 };
    let (_, message) = reply_of(build_response_from_resolve_result(&asked(), Err(failure)));
    assert_eq!(message.message_type(), MessageType::Response);
    assert_eq!(message.response_code(), ResponseCode::NoError);
    assert!(message.answers().is_empty());
    assert!(message.name_servers().is_empty());
}

#[test]
fn no_records_at_all_is_an_empty_response() {
    let (_, message) = reply_of(build_response_from_resolve_result(&asked(), Ok(Vec::new())));
    assert_eq!(message.message_type(), MessageType::Response);
    assert!(message.answers().is_empty());
    assert_eq!(message.queries().len(), 1);
}

#[test]
fn another_failure_of_the_resolver_is_an_error() {
    let result = build_response_from_resolve_result(
        &asked(),
        Err(ResolveFailure::Other("request timed out".to_string())),
    );
    assert!(matches!(result, Err(Error::Resolve(text)) if text == "request timed out"));
}

#[test]
fn a_record_that_does_not_decode_is_an_error() {
    let records = vec![address(34).to_bytes().unwrap(), vec![0xc0]];
    assert!(matches!(
        build_response_from_resolve_result(&asked(), Ok(records)),
        Err(Error::BadRecord)
    ));
    let failure = ResolveFailure::NoRecordsFound { soa: Some(vec![3, b'o']), response_code: 3 };
    assert!(matches!(
        build_response_from_resolve_result(&asked(), Err(failure)),
        Err(Error::BadRecord)
    ));
}

#[test]
fn a_packet_without_a_query_gets_no_reply() {
    // no UDP
    let mut tcp = udp4(&dns_query(1, &["example", "org"], 1));
    tcp[9] = 6;
    let packet = IpPacket::new(tcp).unwrap();
    assert!(as_dns_message(&packet).is_none());
    assert!(matches!(
        build_response_from_resolve_result(&packet, Ok(vec![address(1).to_bytes().unwrap()])),
        Ok(None)
    ));
    // no DNS message in the datagram; the resolver's failure does not matter then
    let packet = IpPacket::new(udp4(&[1, 2, 3])).unwrap();
    assert!(as_dns_message(&packet).is_none());
    assert!(matches!(
        build_response_from_resolve_result(&packet, Err(ResolveFailure::Other("x".to_string()))),
        Ok(None)
    ));
    let message = as_dns_message(&asked()).unwrap();
    assert_eq!(message.id(), 0x5150);
    assert_eq!(message.message_type(), MessageType::Query);
}

#[test]
fn a_reply_too_long_for_a_packet_is_not_sent() {
    let record = address(1).to_bytes().unwrap();
    let records: Vec<Vec<u8>> = (0..10000).map(|_| record.clone()).collect();
    assert!(matches!(
        build_response_from_resolve_result(&asked(), Ok(records)),
        Ok(None)
    ));
}

#[test]
fn the_reply_keeps_what_the_message_held_and_adds_what_was_found() {
    // a message that holds an answer already, with octets after its end
    let mut held = Message::from_vec(&dns_query(7, &["example", "org"], 1)).unwrap();
    held.add_answer(address(1));
    let mut payload = held.to_vec().unwrap();
    payload.extend_from_slice(b"left over");
    let packet = IpPacket::new(udp4(&payload)).unwrap();
    let found = vec![address(2).to_bytes().unwrap()];
    let (_, message) = reply_of(build_response_from_resolve_result(&packet, Ok(found)));
    assert_eq!(message.message_type(), MessageType::Response);
    assert_eq!(message.answers(), &[address(1), address(2)]);
    // octets after a record are not part of it
    let mut record = address(3).to_bytes().unwrap();
    record.extend_from_slice(b"more");
    let (_, message) = reply_of(build_response_from_resolve_result(&asked(), Ok(vec![record])));
    assert_eq!(message.answers(), &[address(3)]);
}

#[test]
fn a_response_code_of_any_number_is_set_as_it_is() {
    for code in [0u16, 2, 3, 5, 11, 16, 23, 4095] {
        let failure = ResolveFailure::NoRecordsFound { soa: None, response_code: code };
        let (_, message) = reply_of(build_response_from_resolve_result(&asked(), Err(failure)));
        assert_eq!(u16::from(message.response_code()) & 0xf, code & 0xf);
        assert_eq!(message.message_type(), MessageType::Response);
    }
}
