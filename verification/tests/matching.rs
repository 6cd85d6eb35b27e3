use client_tunnel::matching::{get_description, is_subdomain};
use client_tunnel::name::DomainName;
use client_tunnel::resources::{DnsResourceTable, ResourceDescriptionDns, ResourceId};

fn foo() -> ResourceDescriptionDns {
    ResourceDescriptionDns {
        id: ResourceId(0xc4bb3d79_afa7_4660_8918_06c38fda3a4a),
        address: "*.foo.com".to_string(),
        name: "foo.com wildcard".to_string(),
    }
}

fn bar() -> ResourceDescriptionDns {
    ResourceDescriptionDns {
        id: ResourceId(0xc4bb3d79_afa7_4660_8918_06c38fda3a4b),
        address: "*.bar.com".to_string(),
        name: "bar.com wildcard".to_string(),
    }
}

fn baz() -> ResourceDescriptionDns {
    ResourceDescriptionDns {
        id: ResourceId(0xc4bb3d79_afa7_4660_8918_06c38fda3a4c),
        address: "baz.com".to_string(),
        name: "baz.com".to_string(),
    }
}

fn dns_resource_fixture() -> DnsResourceTable {
    let mut dns_resources_fixture = DnsResourceTable::new();

    dns_resources_fixture.insert("*.foo.com".to_string(), foo());

    dns_resources_fixture.insert("?.bar.com".to_string(), bar());

    dns_resources_fixture.insert("baz.com".to_string(), baz());

    dns_resources_fixture
}

fn name(text: &str) -> DomainName {
    DomainName::vec_from_str(text).unwrap()
}

#[test]
fn wildcard_matching() {
    let dns_resources_fixture = dns_resource_fixture();

    assert_eq!(
        get_description(&name("a.foo.com"), &dns_resources_fixture).unwrap(),
        foo(),
    );

    assert_eq!(
        get_description(&name("foo.com"), &dns_resources_fixture).unwrap(),
        foo(),
    );

    assert_eq!(
        get_description(&name("a.b.foo.com"), &dns_resources_fixture).unwrap(),
        foo(),
    );

    assert!(get_description(&name("oo.com"), &dns_resources_fixture).is_none(),);
}

#[test]
fn question_mark_matching() {
    let dns_resources_fixture = dns_resource_fixture();

    assert_eq!(
        get_description(&name("a.bar.com"), &dns_resources_fixture).unwrap(),
        bar(),
    );

    assert_eq!(
        get_description(&name("bar.com"), &dns_resources_fixture).unwrap(),
        bar(),
    );

    assert!(get_description(&name("a.b.bar.com"), &dns_resources_fixture).is_none(),);
}

#[test]
fn exact_matching() {
    let dns_resources_fixture = dns_resource_fixture();

    assert_eq!(
        get_description(&name("baz.com"), &dns_resources_fixture).unwrap(),
        baz(),
    );

    assert!(get_description(&name("a.baz.com"), &dns_resources_fixture).is_none());

    assert!(get_description(&name("a.b.baz.com"), &dns_resources_fixture).is_none(),);
}

#[test]
fn exact_subdomain_match() {
    assert!(is_subdomain(&name("foo.com"), "foo.com"));

    assert!(!is_subdomain(&name("a.foo.com"), "foo.com"));

    assert!(!is_subdomain(&name("a.b.foo.com"), "foo.com"));

    assert!(!is_subdomain(&name("foo.com"), "a.foo.com"));
}

#[test]
fn wildcard_subdomain_match() {
    assert!(is_subdomain(&name("foo.com"), "*.foo.com"));

    assert!(is_subdomain(&name("a.foo.com"), "*.foo.com"));

    assert!(is_subdomain(&name("a.foo.com"), "*.a.foo.com"));

    assert!(is_subdomain(&name("b.a.foo.com"), "*.a.foo.com"));

    assert!(is_subdomain(&name("a.b.foo.com"), "*.foo.com"));

    assert!(!is_subdomain(&name("afoo.com"), "*.foo.com"));

    assert!(!is_subdomain(&name("b.afoo.com"), "*.foo.com"));

    assert!(!is_subdomain(&name("bar.com"), "*.foo.com"));

    assert!(!is_subdomain(&name("foo.com"), "*.a.foo.com"));
}

#[test]
fn question_mark_subdomain_match() {
    assert!(is_subdomain(&name("foo.com"), "?.foo.com"));

    assert!(is_subdomain(&name("a.foo.com"), "?.foo.com"));

    assert!(!is_subdomain(&name("a.b.foo.com"), "?.foo.com"));

    assert!(!is_subdomain(&name("bar.com"), "?.foo.com"));

    assert!(!is_subdomain(&name("foo.com"), "?.a.foo.com"));

    assert!(!is_subdomain(&name("afoo.com"), "?.foo.com"));
}

#[test]
fn the_longest_names_still_match_the_patterns_above_them() {
    // a name of 254 octets under foo.com: no wildcard can stand before it
    let mut wire = vec![61u8];
    wire.extend_from_slice(&[b'a'; 61]);
    for _ in 0..3 {
        wire.push(60);
        wire.extend_from_slice(&[b'b'; 60]);
    }
    wire.extend_from_slice(b"\x03foo\x03com\x00");
    assert_eq!(wire.len(), 254);
    let name = DomainName::from_wire(wire).unwrap();
    assert!(name.with_symbol(b'?').is_none());
    assert_eq!(get_description(&name, &dns_resource_fixture()), Some(foo()));
    // and under the name just below a question mark pattern
    let mut table = DnsResourceTable::new();
    let parent = name.parent().unwrap();
    let key = parent.with_symbol(b'?').unwrap().to_text();
    let single = ResourceDescriptionDns {
        id: ResourceId(7),
        address: key.clone(),
        name: "deep".to_string(),
    };
    table.insert(key, single.clone());
    assert_eq!(get_description(&name, &table), Some(single));
    assert_eq!(get_description(&parent.parent().unwrap(), &table), None);
}
