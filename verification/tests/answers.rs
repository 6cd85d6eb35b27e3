use client_tunnel::dns::{build_dns_with_answer, RecordData};
use client_tunnel::name::DomainName;

fn question(id: u16, name: &[u8], qtype: u16) -> Vec<u8> {
    let mut m = vec![(id >> 8) as u8, id as u8, 0x01, 0x00, 0, 1, 0, 0, 0, 0, 0, 0];
    m.extend_from_slice(name);
    m.extend_from_slice(&qtype.to_be_bytes());
    m.extend_from_slice(&[0, 1]);
    m
}

fn answered(query: &[u8], flags: [u8; 2], count: u16) -> Vec<u8> {
    let mut m = query.to_vec();
    m[2] = flags[0];
    m[3] = flags[1];
    m[6] = (count >> 8) as u8;
    m[7] = count as u8;
    m
}

const BAZ: &[u8] = b"\x03baz\x03com\x00";

#[test]
fn an_address_answer_is_the_question_and_the_record_on_the_wire() {
    let query = question(0x1234, BAZ, 1);
    let name = DomainName::from_wire(BAZ.to_vec()).unwrap();
    let answer =
        build_dns_with_answer(&query, &name, &Some(RecordData::A(vec![0x0a00_0005]))).unwrap();
    let mut expected = answered(&query, [0x81, 0x80], 1);
    expected.extend_from_slice(BAZ);
    expected.extend_from_slice(&[0, 1, 0, 1, 0, 0, 0, 1, 0, 4, 10, 0, 0, 5]);
    assert_eq!(answer, expected);
}

#[test]
fn several_address_records_follow_one_another_and_are_counted() {
    let query = question(9, BAZ, 1);
    let name = DomainName::from_wire(BAZ.to_vec()).unwrap();
    let ips = vec![0x0a00_0005, 0xc0a8_01fe, 0x0102_0304];
    let answer = build_dns_with_answer(&query, &name, &Some(RecordData::A(ips))).unwrap();
    let mut expected = answered(&query, [0x81, 0x80], 3);
    for ip in [[10, 0, 0, 5], [192, 168, 1, 254], [1, 2, 3, 4]] {
        expected.extend_from_slice(BAZ);
        expected.extend_from_slice(&[0, 1, 0, 1, 0, 0, 0, 1, 0, 4]);
        expected.extend_from_slice(&ip);
    }
    assert_eq!(answer, expected);
}

#[test]
fn an_ipv6_address_answer_is_the_question_and_the_record_on_the_wire() {
    let query = question(0xbeef, BAZ, 28);
    let name = DomainName::from_wire(BAZ.to_vec()).unwrap();
    let ip = 0xfd00_2021_1111_8000_0100_0100_0111_0003u128;
    let answer = build_dns_with_answer(&query, &name, &Some(RecordData::Aaaa(vec![ip]))).unwrap();
    let mut expected = answered(&query, [0x81, 0x80], 1);
    expected.extend_from_slice(BAZ);
    expected.extend_from_slice(&[0, 28, 0, 1, 0, 0, 0, 1, 0, 16]);
    expected.extend_from_slice(&[
        0xfd, 0x00, 0x20, 0x21, 0x11, 0x11, 0x80, 0x00, 0x01, 0x00, 0x01, 0x00, 0x01, 0x11, 0x00,
        0x03,
    ]);
    assert_eq!(answer, expected);
}

#[test]
fn a_pointer_answer_holds_the_name_uncompressed() {
    let asked = b"\x015\x010\x010\x0210\x07in-addr\x04arpa\x00";
    let query = question(3, asked, 12);
    let owner = DomainName::from_wire(asked.to_vec()).unwrap();
    let target = DomainName::from_wire(b"\x03Baz\x03com\x00".to_vec()).unwrap();
    let answer = build_dns_with_answer(&query, &owner, &Some(RecordData::Ptr(target))).unwrap();
    let mut expected = answered(&query, [0x81, 0x80], 1);
    expected.extend_from_slice(asked);
    expected.extend_from_slice(&[0, 12, 0, 1, 0, 0, 0, 1, 0, 9]);
    expected.extend_from_slice(b"\x03Baz\x03com\x00");
    assert_eq!(answer, expected);
}

#[test]
fn an_answer_without_data_says_that_the_name_does_not_exist() {
    let query = question(0x4242, BAZ, 16);
    let name = DomainName::from_wire(BAZ.to_vec()).unwrap();
    let answer = build_dns_with_answer(&query, &name, &None).unwrap();
    assert_eq!(answer, answered(&query, [0x81, 0x03], 0));
}

#[test]
fn an_answer_with_no_address_reports_no_error_and_counts_none() {
    let query = question(0x4242, BAZ, 1);
    let name = DomainName::from_wire(BAZ.to_vec()).unwrap();
    let answer = build_dns_with_answer(&query, &name, &Some(RecordData::A(Vec::new()))).unwrap();
    assert_eq!(answer, answered(&query, [0x81, 0x80], 0));
}

#[test]
fn only_the_flags_that_an_answer_takes_over_are_kept() {
    // every flag set in the query, operation code 2
    let mut query = question(1, BAZ, 1);
    query[2] = 0x17;
    query[3] = 0xf5;
    let name = DomainName::from_wire(BAZ.to_vec()).unwrap();
    let answer = build_dns_with_answer(&query, &name, &None).unwrap();
    assert_eq!(&answer[..4], &[0, 1, 0x91, 0x03]);
    let answer = build_dns_with_answer(&query, &name, &Some(RecordData::A(vec![1]))).unwrap();
    assert_eq!(&answer[..4], &[0, 1, 0x91, 0x80]);
}

#[test]
fn a_message_without_a_whole_header_gets_no_answer() {
    let name = DomainName::from_wire(BAZ.to_vec()).unwrap();
    let query = question(1, BAZ, 1);
    assert!(build_dns_with_answer(&query[..11], &name, &None).is_none());
    assert!(build_dns_with_answer(&[], &name, &Some(RecordData::A(vec![1]))).is_none());
    // a header alone is answered, with no question to repeat
    let answer = build_dns_with_answer(&query[..12], &name, &None).unwrap();
    assert_eq!(answer, vec![0, 1, 0x81, 0x03, 0, 0, 0, 0, 0, 0, 0, 0]);
}

#[test]
fn a_header_counts_no_more_than_its_two_octets_hold() {
    let query = question(1, BAZ, 1);
    let name = DomainName::from_wire(BAZ.to_vec()).unwrap();
    let full: Vec<u32> = (0..0xffff).collect();
    let answer = build_dns_with_answer(&query, &name, &Some(RecordData::A(full))).unwrap();
    assert_eq!(&answer[6..8], &[0xff, 0xff]);
    assert_eq!(answer.len(), query.len() + 0xffff * (BAZ.len() + 14));
    assert_eq!(&answer[answer.len() - 4..], &[0, 0, 0xff, 0xfe]);
    let over: Vec<u32> = (0..0x1_0000).collect();
    assert!(build_dns_with_answer(&query, &name, &Some(RecordData::A(over))).is_none());
}
