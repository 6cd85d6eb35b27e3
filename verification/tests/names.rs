use client_tunnel::matching::matches_pattern;
use client_tunnel::name::DomainName;
use client_tunnel::resources::{
    DnsResource, DnsResourceTable, ResourceDescription, ResourceDescriptionCidr,
    ResourceDescriptionDns, ResourceId, ResourceIps,
};
use client_tunnel::ip::{IpAddress, IpNetwork};

fn name(text: &str) -> DomainName {
    DomainName::vec_from_str(text).unwrap()
}

fn description(id: u128, address: &str) -> ResourceDescriptionDns {
    ResourceDescriptionDns {
        id: ResourceId(id),
        address: address.to_string(),
        name: address.to_string(),
    }
}

#[test]
fn names_are_read_and_written_in_presentation_form() {
    assert_eq!(name("a.Foo.com").to_text(), "a.Foo.com");
    assert_eq!(name("a.foo.com.").to_text(), "a.foo.com");
    assert_eq!(name(".").to_text(), ".");
    assert_eq!(name("a.foo.com").as_wire(), b"\x01a\x03foo\x03com\x00");
    assert_eq!(name("a\\.b.com").as_wire(), b"\x03a.b\x03com\x00");
    assert_eq!(name("a\\.b.com").to_text(), "a\\.b.com");
    assert_eq!(DomainName::root().as_wire(), b"\x00");
    assert!(DomainName::vec_from_str("").is_none());
    assert!(DomainName::vec_from_str("a..com").is_none());
    assert!(DomainName::vec_from_str(&"a".repeat(64)).is_none());
    assert!(DomainName::vec_from_str(&"a".repeat(63)).is_some());
}

#[test]
fn wire_forms_are_checked() {
    assert!(DomainName::from_wire(b"\x03foo\x03com\x00".to_vec()).is_some());
    assert!(DomainName::from_wire(b"\x00".to_vec()).is_some());
    assert!(DomainName::from_wire(Vec::new()).is_none());
    // no root label
    assert!(DomainName::from_wire(b"\x03foo\x03com".to_vec()).is_none());
    // the label runs past the end
    assert!(DomainName::from_wire(b"\x03foo\x04com\x00".to_vec()).is_none());
    // something after the root label
    assert!(DomainName::from_wire(b"\x03foo\x00\x00".to_vec()).is_none());
    // a compression pointer
    assert!(DomainName::from_wire(b"\x03foo\xc0\x0c".to_vec()).is_none());
    // a label of 64 octets
    let mut long = vec![64u8];
    long.extend_from_slice(&[b'a'; 64]);
    long.push(0);
    assert!(DomainName::from_wire(long).is_none());
    // a name of 255 octets is the longest
    let mut wire = Vec::new();
    for _ in 0..127 {
        wire.extend_from_slice(b"\x01a");
    }
    wire.push(0);
    assert_eq!(wire.len(), 255);
    assert!(DomainName::from_wire(wire.clone()).is_some());
    wire.insert(0, 1);
    wire.insert(1, b'a');
    assert!(DomainName::from_wire(wire).is_none());
}

#[test]
fn parents_and_labels() {
    let n = name("a.foo.com");
    assert!(!n.is_root());
    assert_eq!(n.parent().unwrap().to_text(), "foo.com");
    assert_eq!(n.parent().unwrap().parent().unwrap().to_text(), "com");
    let root = n.parent().unwrap().parent().unwrap().parent().unwrap();
    assert!(root.is_root());
    assert!(root.parent().is_none());
    assert!(n.starts_with_label(b"a"));
    assert!(!n.starts_with_label(b"A"));
    assert!(!n.starts_with_label(b"foo"));
    assert!(!n.starts_with_label(b""));
    // the root label is the empty label
    assert!(DomainName::root().starts_with_label(b""));
    assert_eq!(n.with_label(b"www").unwrap().to_text(), "www.a.foo.com");
    assert_eq!(n.with_symbol(b'*').unwrap().to_text(), "*.a.foo.com");
    assert_eq!(DomainName::root().with_symbol(b'?').unwrap().to_text(), "?");
    assert!(n.with_label(b"").is_none());
    assert!(n.with_label(&[b'a'; 64]).is_none());
    assert!(n.with_label(&[b'a'; 63]).is_some());
    // a name of 254 octets takes no further label
    let mut wire = Vec::new();
    for _ in 0..125 {
        wire.extend_from_slice(b"\x01a");
    }
    wire.extend_from_slice(b"\x02aa\x00");
    assert_eq!(wire.len(), 254);
    let long = DomainName::from_wire(wire).unwrap();
    assert!(long.with_symbol(b'*').is_none());
    assert_eq!(long.parent().unwrap().with_symbol(b'*').unwrap().as_wire().len(), 254);
}

#[test]
fn names_compare_without_regard_to_case() {
    assert!(name("Foo.COM").eq_ignore_case(&name("foo.com")));
    assert!(!name("foo.com").eq_ignore_case(&name("foo.con")));
    assert!(!name("foo.com").eq_ignore_case(&name("a.foo.com")));
    assert!(name("a.Foo.com").has_suffix(&name("foo.COM")));
    assert!(name("a.foo.com").has_suffix(&name("a.foo.com")));
    assert!(name("a.foo.com").has_suffix(&name("com")));
    assert!(name("a.foo.com").has_suffix(&DomainName::root()));
    assert!(!name("a.foo.com").has_suffix(&name("oo.com")));
    assert!(!name("foo.com").has_suffix(&name("a.foo.com")));
    // "@" and "`" stand next to the letters and are not folded
    assert!(!name("@.com").eq_ignore_case(&name("`.com")));
    assert!(!name("[.com").eq_ignore_case(&name("{.com")));
    assert!(name("Z.com").eq_ignore_case(&name("z.com")));
}

#[test]
fn patterns_match_as_names_not_as_text() {
    assert!(matches_pattern(&name("A.FOO.com"), &name("*.foo.COM")));
    assert!(matches_pattern(&name("FOO.com"), &name("?.foo.com")));
    assert!(matches_pattern(&name("x.foo.com"), &name("?.foo.com")));
    assert!(!matches_pattern(&name("x.y.foo.com"), &name("?.foo.com")));
    assert!(matches_pattern(&name("anything.at.all"), &name("*")));
    assert!(!matches_pattern(&name("foo.com"), &name("*.a.foo.com")));
    assert!(matches_pattern(&name("?.foo.com"), &name("?.foo.com")));
    assert!(matches_pattern(&name("com"), &name("?")));
    assert!(!matches_pattern(&name("foo.com"), &name("?")));
}

#[test]
fn the_resource_table_is_keyed_by_text() {
    let mut table = DnsResourceTable::new();
    assert_eq!(table.len(), 0);
    table.insert("a.com".to_string(), description(1, "a.com"));
    table.insert("b.com".to_string(), description(2, "b.com"));
    table.insert("a.com".to_string(), description(3, "a.com again"));
    assert_eq!(table.len(), 2);
    assert_eq!(table.get(&"a.com".to_string()), Some(description(3, "a.com again")));
    assert_eq!(table.get(&"b.com".to_string()), Some(description(2, "b.com")));
    assert_eq!(table.get(&"A.com".to_string()), None);
    table.remove(ResourceId(3));
    assert_eq!(table.len(), 1);
    assert_eq!(table.get(&"a.com".to_string()), None);
    assert_eq!(table.get(&"b.com".to_string()), Some(description(2, "b.com")));
    table.remove(ResourceId(9));
    assert_eq!(table.len(), 1);
}

#[test]
fn resource_addresses_are_found_by_resource_and_by_address() {
    let star = description(1, "*.foo.com");
    let a = DnsResource::from_description(&star, name("a.foo.com"));
    let b = DnsResource::from_description(&star, name("b.foo.com"));
    let a_again = DnsResource::from_description(&star, name("A.FOO.COM"));
    let other = DnsResource::from_description(&description(2, "*.foo.com"), name("a.foo.com"));
    assert!(a.same(&a_again));
    assert!(!a.same(&b));
    assert!(!a.same(&other));
    let mut ips = ResourceIps::new();
    ips.insert(a.clone_resource(), vec![IpAddress::v4(10, 0, 0, 1)]);
    ips.insert(b.clone_resource(), vec![IpAddress::v4(10, 0, 0, 2), IpAddress::V6(2)]);
    assert_eq!(ips.len(), 2);
    assert_eq!(ips.get(&a_again), Some(vec![IpAddress::v4(10, 0, 0, 1)]));
    assert_eq!(ips.get(&other), None);
    assert!(ips.owner_of(IpAddress::V6(2)).unwrap().same(&b));
    assert!(ips.owner_of(IpAddress::v4(10, 0, 0, 3)).is_none());
    ips.insert(a_again, vec![IpAddress::v4(10, 0, 0, 3)]);
    assert_eq!(ips.len(), 2);
    assert_eq!(ips.get(&a), Some(vec![IpAddress::v4(10, 0, 0, 3)]));
    assert!(ips.owner_of(IpAddress::v4(10, 0, 0, 1)).is_none());
    assert!(ips.owner_of(IpAddress::v4(10, 0, 0, 3)).unwrap().same(&a));
}

#[test]
fn identifiers_are_read_as_uuids() {
    assert_eq!(
        ResourceId::parse("c4bb3d79-afa7-4660-8918-06c38fda3a4a"),
        Some(ResourceId(0xc4bb3d79_afa7_4660_8918_06c38fda3a4a))
    );
    assert_eq!(
        ResourceId::parse("C4BB3D79AFA74660891806C38FDA3A4A"),
        Some(ResourceId(0xc4bb3d79_afa7_4660_8918_06c38fda3a4a))
    );
    assert_eq!(ResourceId::parse("c4bb3d79-afa7-4660-8918"), None);
    assert_eq!(ResourceId::parse(""), None);
    assert_eq!(ResourceId::parse("1"), None);
}

#[test]
fn descriptions_tell_their_identifier() {
    let dns = ResourceDescription::Dns(description(5, "baz.com"));
    let cidr = ResourceDescription::Cidr(ResourceDescriptionCidr {
        id: ResourceId(6),
        address: IpNetwork::V4(0x0a00_0000, 8),
        name: "ten".to_string(),
    });
    assert_eq!(dns.id(), ResourceId(5));
    assert_eq!(cidr.id(), ResourceId(6));
    assert_eq!(cidr.clone().id(), ResourceId(6));
}
