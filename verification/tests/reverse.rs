use client_tunnel::ip::IpAddress;
use client_tunnel::reverse::reverse_dns_addr;

#[test]
fn reverse_dns_addr_works_v4() {
    assert_eq!(
        reverse_dns_addr("1.2.3.4.in-addr.arpa"),
        Some(IpAddress::v4(4, 3, 2, 1))
    );
}

#[test]
fn reverse_dns_v4_addr_extra_number() {
    assert_eq!(reverse_dns_addr("0.1.2.3.4.in-addr.arpa"), None);
}

#[test]
fn reverse_dns_addr_wrong_ending() {
    assert_eq!(reverse_dns_addr("1.2.3.4.in-addr.carpa"), None);
}

#[test]
fn reverse_dns_v4_addr_with_ip6_ending() {
    assert_eq!(reverse_dns_addr("1.2.3.4.ip6.arpa"), None);
}

#[test]
fn reverse_dns_addr_v6() {
    // 2001:db8::567:89ab
    assert_eq!(
        reverse_dns_addr(
            "b.a.9.8.7.6.5.0.0.0.0.0.0.0.0.0.0.0.0.0.0.0.0.0.8.b.d.0.1.0.0.2.ip6.arpa"
        ),
        Some(IpAddress::V6(0x2001_0db8_0000_0000_0000_0000_0567_89ab))
    );
}

#[test]
fn reverse_dns_addr_v6_extra_number() {
    assert_eq!(
        reverse_dns_addr(
            "0.b.a.9.8.7.6.5.0.0.0.0.0.0.0.0.0.0.0.0.0.0.0.0.0.8.b.d.0.1.0.0.2.ip6.arpa"
        ),
        None
    );
}

#[test]
fn reverse_dns_addr_v6_ipv4_ending() {
    assert_eq!(
        reverse_dns_addr(
            "b.a.9.8.7.6.5.0.0.0.0.0.0.0.0.0.0.0.0.0.0.0.0.0.8.b.d.0.1.0.0.2.in-addr.arpa"
        ),
        None
    );
}

#[test]
fn reverse_dns_addr_needs_both_suffix_labels() {
    assert_eq!(reverse_dns_addr("arpa"), None);
    assert_eq!(reverse_dns_addr(""), None);
    assert_eq!(reverse_dns_addr("in-addr.arpa"), None);
    assert_eq!(reverse_dns_addr("ip6.arpa"), None);
}

#[test]
fn reverse_dns_addr_v4_rejects_what_is_no_octet() {
    assert_eq!(reverse_dns_addr("01.2.3.4.in-addr.arpa"), None);
    assert_eq!(reverse_dns_addr("256.2.3.4.in-addr.arpa"), None);
    assert_eq!(reverse_dns_addr("1..3.4.in-addr.arpa"), None);
    assert_eq!(reverse_dns_addr("a.2.3.4.in-addr.arpa"), None);
    assert_eq!(reverse_dns_addr("2.3.4.in-addr.arpa"), None);
    assert_eq!(
        reverse_dns_addr("255.0.10.199.in-addr.arpa"),
        Some(IpAddress::v4(199, 10, 0, 255))
    );
}

#[test]
fn reverse_dns_addr_v6_reads_groups_as_written() {
    // The labels are joined four to a group, so a label may hold more than
    // one digit, and a double colon stands for the groups left out.
    assert_eq!(
        reverse_dns_addr("::.ip6.arpa"),
        Some(IpAddress::V6(0))
    );
    assert_eq!(
        reverse_dns_addr("1.::.ip6.arpa"),
        Some(IpAddress::V6(1))
    );
    assert_eq!(
        reverse_dns_addr("89AB.0567.0.0.0.0.0db8.2001.ip6.arpa"),
        None
    );
    assert_eq!(
        reverse_dns_addr("B.A.9.8.7.6.5.0.0.0.0.0.0.0.0.0.0.0.0.0.0.0.0.0.8.B.D.0.1.0.0.2.ip6.arpa"),
        Some(IpAddress::V6(0x2001_0db8_0000_0000_0000_0000_0567_89ab))
    );
    assert_eq!(
        reverse_dns_addr("g.a.9.8.7.6.5.0.0.0.0.0.0.0.0.0.0.0.0.0.0.0.0.0.8.b.d.0.1.0.0.2.ip6.arpa"),
        None
    );
}
