//! Resources: what the user may reach, by network or by DNS name.

use crate::ip::{IpAddress, IpNetwork};
use crate::name::{name_eq, DomainName};
use crate::search::{
    first_index, lemma_filter_push, lemma_first_index, lemma_first_index_at, lemma_first_index_none,
};
use vstd::prelude::*;
use vstd::std_specs::cmp::PartialEqSpecImpl;

verus! {

/// Identifies a resource.
#[derive(Clone, Copy, Debug, PartialEq, Eq, Structural, Hash)]
pub struct ResourceId(pub u128);

/// The identifier that `uuid` reads from a text, if it reads one.
pub uninterp spec fn uuid_from_text(text: Seq<char>) -> Option<u128>;

/// Reads an identifier with `uuid::Uuid::parse_str` and takes its value with
/// `Uuid::as_u128`. The contract names the outcome.
#[verifier::external_body]
fn parse_uuid(text: &str) -> (id: Option<u128>)
    ensures
        id == uuid_from_text(text@),
{
    uuid::Uuid::parse_str(text).ok().map(|id| id.as_u128())
}

impl ResourceId {
    /// Reads a resource's identifier from its text form.
    pub fn parse(text: &str) -> (id: Option<ResourceId>)
        ensures
            id == match uuid_from_text(text@) {
                Some(value) => Some(ResourceId(value)),
                None => None,
            },
    {
        match parse_uuid(text) {
            Some(value) => Some(ResourceId(value)),
            None => None,
        }
    }
}

/// Identifies a gateway.
#[derive(Clone, Copy, Debug, PartialEq, Eq, Structural, Hash)]
pub struct GatewayId(pub u128);

/// Identifies a client.
#[derive(Clone, Copy, Debug, PartialEq, Eq, Structural, Hash)]
pub struct ClientId(pub u128);

/// An identifier of a connection: 128 bits that tell it from every other.
pub trait ConnectionId: Copy {
    /// The identifier as a number.
    spec fn raw(&self) -> u128;

    /// The identifier as a number.
    fn to_raw(&self) -> (raw: u128)
        ensures
            raw == self.raw(),
    ;
}

impl ConnectionId for GatewayId {
    open spec fn raw(&self) -> u128 {
        self.0
    }

    fn to_raw(&self) -> (raw: u128) {
        self.0
    }
}

impl ConnectionId for ClientId {
    open spec fn raw(&self) -> u128 {
        self.0
    }

    fn to_raw(&self) -> (raw: u128) {
        self.0
    }
}

/// A resource reached by DNS name. The address is a pattern: an exact name
/// (`baz.com`), any single label (`?.foo.com`) or any labels (`*.foo.com`).
#[derive(Debug)]
pub struct ResourceDescriptionDns {
    pub id: ResourceId,
    pub address: String,
    pub name: String,
}

impl Clone for ResourceDescriptionDns {
    fn clone(&self) -> (copy: Self)
        ensures
            copy == *self,
    {
        ResourceDescriptionDns {
            id: self.id,
            address: self.address.clone(),
            name: self.name.clone(),
        }
    }
}

impl PartialEq for ResourceDescriptionDns {
    fn eq(&self, other: &Self) -> (same: bool) {
        self.id.0 == other.id.0 && self.address == other.address && self.name == other.name
    }
}

impl PartialEqSpecImpl for ResourceDescriptionDns {
    open spec fn obeys_eq_spec() -> bool {
        true
    }

    open spec fn eq_spec(&self, other: &Self) -> bool {
        self.same_fields(other)
    }
}

impl ResourceDescriptionDns {
    /// Two descriptions are equal when their identifiers and texts are.
    pub open spec fn same_fields(&self, other: &Self) -> bool {
        self.id == other.id && self.address@ == other.address@ && self.name@ == other.name@
    }
}

/// A resource reached by network address.
#[derive(Debug)]
pub struct ResourceDescriptionCidr {
    pub id: ResourceId,
    pub address: IpNetwork,
    pub name: String,
}

impl Clone for ResourceDescriptionCidr {
    fn clone(&self) -> (copy: Self)
        ensures
            copy == *self,
    {
        ResourceDescriptionCidr { id: self.id, address: self.address, name: self.name.clone() }
    }
}

impl PartialEq for ResourceDescriptionCidr {
    fn eq(&self, other: &Self) -> (same: bool) {
        self.id.0 == other.id.0 && self.address == other.address && self.name == other.name
    }
}

impl PartialEqSpecImpl for ResourceDescriptionCidr {
    open spec fn obeys_eq_spec() -> bool {
        true
    }

    open spec fn eq_spec(&self, other: &Self) -> bool {
        self.id == other.id && self.address == other.address && self.name@ == other.name@
    }
}

/// A resource, by DNS name or by network.
#[derive(Debug)]
pub enum ResourceDescription {
    Dns(ResourceDescriptionDns),
    Cidr(ResourceDescriptionCidr),
}

impl Clone for ResourceDescription {
    fn clone(&self) -> (copy: Self)
        ensures
            copy == *self,
    {
        match self {
            ResourceDescription::Dns(dns) => ResourceDescription::Dns(dns.clone()),
            ResourceDescription::Cidr(cidr) => ResourceDescription::Cidr(cidr.clone()),
        }
    }
}

impl ResourceDescription {
    /// The resource's identifier.
    pub open spec fn spec_id(&self) -> ResourceId {
        match *self {
            ResourceDescription::Dns(dns) => dns.id,
            ResourceDescription::Cidr(cidr) => cidr.id,
        }
    }

    /// The resource's identifier.
    #[verifier::when_used_as_spec(spec_id)]
    pub fn id(&self) -> (id: ResourceId)
        ensures
            id == self.spec_id(),
    {
        match self {
            ResourceDescription::Dns(dns) => dns.id,
            ResourceDescription::Cidr(cidr) => cidr.id,
        }
    }
}

/// A DNS resource together with a concrete name that its pattern matched.
#[derive(Debug)]
pub struct DnsResource {
    pub description: ResourceDescriptionDns,
    pub address: DomainName,
}

/// Whether two DNS resources, each given as its description and the wire
/// form of its name, are the same: the descriptions are equal and the names
/// are equal as domain names.
pub open spec fn same_dns_resource(
    a: (ResourceDescriptionDns, Seq<u8>),
    b: (ResourceDescriptionDns, Seq<u8>),
) -> bool {
    a.0.same_fields(&b.0) && name_eq(a.1, b.1)
}

impl View for DnsResource {
    type V = (ResourceDescriptionDns, Seq<u8>);

    open spec fn view(&self) -> Self::V {
        (self.description, self.address@)
    }
}

impl DnsResource {
    /// Whether the two resources are the same.
    pub open spec fn spec_same(&self, other: &DnsResource) -> bool {
        same_dns_resource(self@, other@)
    }

    /// The resource that `description` stands for under the name `address`.
    pub fn from_description(description: &ResourceDescriptionDns, address: DomainName) -> (resource:
        DnsResource)
        ensures
            resource@ == (*description, address@),
    {
        DnsResource { description: description.clone(), address }
    }

    /// Whether the two resources are the same.
    #[verifier::when_used_as_spec(spec_same)]
    pub fn same(&self, other: &DnsResource) -> (b: bool)
        ensures
            b == self.spec_same(other),
    {
        self.description == other.description && self.address.eq_ignore_case(&other.address)
    }

    /// A copy of the resource.
    pub fn clone_resource(&self) -> (copy: DnsResource)
        ensures
            copy@ == self@,
    {
        DnsResource { description: self.description.clone(), address: self.address.clone_name() }
    }
}

/// The condition that an entry stands under `key`.
pub open spec fn under_key(key: Seq<char>) -> spec_fn((Seq<char>, ResourceDescriptionDns)) -> bool {
    |e: (Seq<char>, ResourceDescriptionDns)| e.0 == key
}

/// The index of the first entry under `key`, if there is one.
pub open spec fn resource_index(
    entries: Seq<(Seq<char>, ResourceDescriptionDns)>,
    key: Seq<char>,
) -> Option<int> {
    first_index(entries, under_key(key))
}

/// What a table of DNS resources holds under `key`: the description of the
/// first entry with that key.
pub open spec fn resource_lookup(
    entries: Seq<(Seq<char>, ResourceDescriptionDns)>,
    key: Seq<char>,
) -> Option<ResourceDescriptionDns> {
    match resource_index(entries, key) {
        Some(i) => Some(entries[i].1),
        None => None,
    }
}

/// Whether no key occurs twice among the entries.
pub open spec fn resource_keys_distinct(entries: Seq<(Seq<char>, ResourceDescriptionDns)>) -> bool {
    forall|i: int, j: int|
        0 <= i < entries.len() && 0 <= j < entries.len() && i != j ==> entries[i].0 != entries[j].0
}

/// The entries with `description` put under `key`: in place of the first
/// entry with that key or, if the key is new, after all others.
pub open spec fn resource_inserted(
    entries: Seq<(Seq<char>, ResourceDescriptionDns)>,
    key: Seq<char>,
    description: ResourceDescriptionDns,
) -> Seq<(Seq<char>, ResourceDescriptionDns)> {
    match resource_index(entries, key) {
        Some(i) => entries.update(i, (key, description)),
        None => entries.push((key, description)),
    }
}

/// The condition that an entry describes another resource than `id`.
pub open spec fn not_resource(id: ResourceId) -> spec_fn(
    (Seq<char>, ResourceDescriptionDns),
) -> bool {
    |e: (Seq<char>, ResourceDescriptionDns)| e.1.id != id
}

/// The DNS resources that the client knows, each under its pattern string.
/// A lookup finds the first entry under a key; `insert` keeps keys distinct.
#[derive(Debug)]
pub struct DnsResourceTable {
    entries: Vec<(String, ResourceDescriptionDns)>,
}

impl View for DnsResourceTable {
    type V = Seq<(Seq<char>, ResourceDescriptionDns)>;

    closed spec fn view(&self) -> Self::V {
        Seq::new(self.entries@.len(), |i: int| (self.entries@[i].0@, self.entries@[i].1))
    }
}

impl DnsResourceTable {
    /// An empty table.
    pub fn new() -> (table: DnsResourceTable)
        ensures
            table@ == Seq::<(Seq<char>, ResourceDescriptionDns)>::empty(),
    {
        let table = DnsResourceTable { entries: Vec::new() };
        assert(table@ =~= Seq::<(Seq<char>, ResourceDescriptionDns)>::empty());
        table
    }

    /// The number of entries.
    pub fn len(&self) -> (n: usize)
        ensures
            n == self@.len(),
    {
        self.entries.len()
    }

    /// The index of the first entry under `key`, if there is one.
    fn position(&self, key: &String) -> (at: Option<usize>)
        ensures
            match at {
                Some(i) => i < self@.len() && resource_index(self@, key@) == Some(i as int),
                None => resource_index(self@, key@) is None,
            },
    {
        let ghost wanted = under_key(key@);
        let mut i: usize = 0;
        while i < self.entries.len()
            invariant
                i <= self.entries@.len(),
                wanted == under_key(key@),
                forall|j: int| 0 <= j < i ==> !wanted(#[trigger] self@[j]),
            decreases self.entries@.len() - i,
        {
            if self.entries[i].0 == *key {
                proof {
                    lemma_first_index_at(self@, wanted, i as int);
                }
                return Some(i);
            }
            i = i + 1;
        }
        proof {
            lemma_first_index_none(self@, wanted);
        }
        None
    }

    /// The description held under `key`.
    pub fn get(&self, key: &String) -> (found: Option<ResourceDescriptionDns>)
        ensures
            found == resource_lookup(self@, key@),
    {
        match self.position(key) {
            Some(i) => Some(self.entries[i].1.clone()),
            None => None,
        }
    }

    /// Takes out every entry that describes the resource `id`; the others
    /// stay in their order.
    pub fn remove(&mut self, id: ResourceId)
        ensures
            final(self)@ == old(self)@.filter(not_resource(id)),
    {
        let ghost before = self@;
        let ghost keep = not_resource(id);
        let mut kept: Vec<(String, ResourceDescriptionDns)> = Vec::new();
        let mut i: usize = 0;
        assert(before.subrange(0, 0) =~= Seq::<(Seq<char>, ResourceDescriptionDns)>::empty());
        assert(Seq::new(kept@.len(), |k: int| (kept@[k].0@, kept@[k].1)) =~= before.subrange(
            0,
            0,
        ).filter(keep)) by {
            reveal(Seq::filter);
        }
        while i < self.entries.len()
            invariant
                i <= self.entries@.len(),
                before == self@,
                keep == not_resource(id),
                Seq::new(kept@.len(), |k: int| (kept@[k].0@, kept@[k].1)) == before.subrange(
                    0,
                    i as int,
                ).filter(keep),
            decreases self.entries@.len() - i,
        {
            let ghost so_far = before.subrange(0, i as int);
            let ghost next = before.subrange(0, i + 1);
            let ghost kept_before = Seq::new(kept@.len(), |k: int| (kept@[k].0@, kept@[k].1));
            proof {
                assert(next =~= so_far.push(before[i as int]));
                lemma_filter_push(so_far, before[i as int], keep);
            }
            if self.entries[i].1.id.0 != id.0 {
                let entry = &self.entries[i];
                kept.push((entry.0.clone(), entry.1.clone()));
                assert(Seq::new(kept@.len(), |k: int| (kept@[k].0@, kept@[k].1))
                    =~= kept_before.push(before[i as int]));
            }
            i = i + 1;
        }
        assert(before.subrange(0, i as int) =~= before);
        let ghost after = Seq::new(kept@.len(), |k: int| (kept@[k].0@, kept@[k].1));
        self.entries = kept;
        assert(self@ =~= after);
    }

    /// Puts `description` under `key`, in place of what was there or, if the
    /// key is new, after all other entries.
    pub fn insert(&mut self, key: String, description: ResourceDescriptionDns)
        ensures
            final(self)@ == resource_inserted(old(self)@, key@, description),
            resource_lookup(final(self)@, key@) == Some(description),
            resource_keys_distinct(old(self)@) ==> resource_keys_distinct(final(self)@),
    {
        let ghost before = self@;
        let ghost key_view = key@;
        let ghost wanted = under_key(key_view);
        proof {
            lemma_first_index(before, wanted);
        }
        match self.position(&key) {
            Some(i) => {
                self.entries.set(i, (key, description));
                assert(self@ =~= before.update(i as int, (key_view, description)));
                proof {
                    assert forall|j: int| 0 <= j < i implies !wanted(#[trigger] self@[j]) by {
                        assert(self@[j] == before[j]);
                    }
                    lemma_first_index_at(self@, wanted, i as int);
                }
            },
            None => {
                self.entries.push((key, description));
                assert(self@ =~= before.push((key_view, description)));
                proof {
                    assert forall|j: int| 0 <= j < before.len() implies !wanted(
                        #[trigger] self@[j],
                    ) by {
                        assert(self@[j] == before[j]);
                    }
                    lemma_first_index_at(self@, wanted, before.len() as int);
                }
            },
        }
    }
}

/// A copy of a list of addresses.
pub fn clone_ips(ips: &Vec<IpAddress>) -> (copy: Vec<IpAddress>)
    ensures
        copy@ == ips@,
{
    let mut copy: Vec<IpAddress> = Vec::new();
    let mut i: usize = 0;
    while i < ips.len()
        invariant
            i <= ips@.len(),
            copy@ == ips@.subrange(0, i as int),
        decreases ips@.len() - i,
    {
        copy.push(ips[i]);
        assert(copy@ =~= ips@.subrange(0, i + 1));
        i = i + 1;
    }
    assert(ips@.subrange(0, i as int) =~= ips@);
    copy
}

/// The condition that an entry belongs to the DNS resource `resource`.
pub open spec fn for_resource(resource: (ResourceDescriptionDns, Seq<u8>)) -> spec_fn(
    ((ResourceDescriptionDns, Seq<u8>), Seq<IpAddress>),
) -> bool {
    |e: ((ResourceDescriptionDns, Seq<u8>), Seq<IpAddress>)| same_dns_resource(e.0, resource)
}

/// The condition that an entry's addresses include `ip`.
pub open spec fn holding_ip(ip: IpAddress) -> spec_fn(
    ((ResourceDescriptionDns, Seq<u8>), Seq<IpAddress>),
) -> bool {
    |e: ((ResourceDescriptionDns, Seq<u8>), Seq<IpAddress>)| e.1.contains(ip)
}

/// The addresses assigned to `resource`: those of the first entry that
/// belongs to it.
pub open spec fn assigned_ips(
    entries: Seq<((ResourceDescriptionDns, Seq<u8>), Seq<IpAddress>)>,
    resource: (ResourceDescriptionDns, Seq<u8>),
) -> Option<Seq<IpAddress>> {
    match first_index(entries, for_resource(resource)) {
        Some(i) => Some(entries[i].1),
        None => None,
    }
}

/// The resource that `ip` stands for: that of the first entry whose
/// addresses include it.
pub open spec fn resource_of_ip(
    entries: Seq<((ResourceDescriptionDns, Seq<u8>), Seq<IpAddress>)>,
    ip: IpAddress,
) -> Option<(ResourceDescriptionDns, Seq<u8>)> {
    match first_index(entries, holding_ip(ip)) {
        Some(i) => Some(entries[i].0),
        None => None,
    }
}

/// The entries with `ips` assigned to `resource`: in place of the first entry
/// that belongs to it or, if there is none, after all others.
pub open spec fn ips_assigned(
    entries: Seq<((ResourceDescriptionDns, Seq<u8>), Seq<IpAddress>)>,
    resource: (ResourceDescriptionDns, Seq<u8>),
    ips: Seq<IpAddress>,
) -> Seq<((ResourceDescriptionDns, Seq<u8>), Seq<IpAddress>)> {
    match first_index(entries, for_resource(resource)) {
        Some(i) => entries.update(i, (resource, ips)),
        None => entries.push((resource, ips)),
    }
}

/// The in-tunnel addresses that stand for each DNS resource.
#[derive(Debug)]
pub struct ResourceIps {
    entries: Vec<(DnsResource, Vec<IpAddress>)>,
}

impl View for ResourceIps {
    type V = Seq<((ResourceDescriptionDns, Seq<u8>), Seq<IpAddress>)>;

    closed spec fn view(&self) -> Self::V {
        Seq::new(self.entries@.len(), |i: int| (self.entries@[i].0@, self.entries@[i].1@))
    }
}

impl ResourceIps {
    /// No resource has an address.
    pub fn new() -> (table: ResourceIps)
        ensures
            table@ == Seq::<((ResourceDescriptionDns, Seq<u8>), Seq<IpAddress>)>::empty(),
    {
        let table = ResourceIps { entries: Vec::new() };
        assert(table@ =~= Seq::<((ResourceDescriptionDns, Seq<u8>), Seq<IpAddress>)>::empty());
        table
    }

    /// The number of entries.
    pub fn len(&self) -> (n: usize)
        ensures
            n == self@.len(),
    {
        self.entries.len()
    }

    /// The index of the first entry that belongs to `resource`.
    fn position(&self, resource: &DnsResource) -> (at: Option<usize>)
        ensures
            match at {
                Some(i) => i < self@.len() && first_index(self@, for_resource(resource@)) == Some(
                    i as int,
                ),
                None => first_index(self@, for_resource(resource@)) is None,
            },
    {
        let ghost wanted = for_resource(resource@);
        let mut i: usize = 0;
        while i < self.entries.len()
            invariant
                i <= self.entries@.len(),
                wanted == for_resource(resource@),
                forall|j: int| 0 <= j < i ==> !wanted(#[trigger] self@[j]),
            decreases self.entries@.len() - i,
        {
            if self.entries[i].0.same(resource) {
                proof {
                    lemma_first_index_at(self@, wanted, i as int);
                }
                return Some(i);
            }
            i = i + 1;
        }
        proof {
            lemma_first_index_none(self@, wanted);
        }
        None
    }

    /// The addresses assigned to `resource`.
    pub fn get(&self, resource: &DnsResource) -> (found: Option<Vec<IpAddress>>)
        ensures
            match found {
                Some(ips) => assigned_ips(self@, resource@) == Some(ips@),
                None => assigned_ips(self@, resource@) is None,
            },
    {
        match self.position(resource) {
            Some(i) => Some(clone_ips(&self.entries[i].1)),
            None => None,
        }
    }

    /// Assigns `ips` to `resource`, in place of what it had.
    pub fn insert(&mut self, resource: DnsResource, ips: Vec<IpAddress>)
        ensures
            final(self)@ == ips_assigned(old(self)@, resource@, ips@),
            assigned_ips(final(self)@, resource@) == Some(ips@),
    {
        let ghost before = self@;
        let ghost key = resource@;
        let ghost value = ips@;
        let ghost wanted = for_resource(key);
        proof {
            lemma_first_index(before, wanted);
            crate::name::lemma_name_eq_refl(key.1);
        }
        match self.position(&resource) {
            Some(i) => {
                self.entries.set(i, (resource, ips));
                assert(self@ =~= before.update(i as int, (key, value)));
                proof {
                    assert forall|j: int| 0 <= j < i implies !wanted(#[trigger] self@[j]) by {
                        assert(self@[j] == before[j]);
                    }
                    lemma_first_index_at(self@, wanted, i as int);
                }
            },
            None => {
                self.entries.push((resource, ips));
                assert(self@ =~= before.push((key, value)));
                proof {
                    assert forall|j: int| 0 <= j < before.len() implies !wanted(
                        #[trigger] self@[j],
                    ) by {
                        assert(self@[j] == before[j]);
                    }
                    lemma_first_index_at(self@, wanted, before.len() as int);
                }
            },
        }
    }

    /// The resource that `ip` stands for.
    pub fn owner_of(&self, ip: IpAddress) -> (found: Option<DnsResource>)
        ensures
            match found {
                Some(resource) => resource_of_ip(self@, ip) == Some(resource@),
                None => resource_of_ip(self@, ip) is None,
            },
    {
        let ghost wanted = holding_ip(ip);
        let mut i: usize = 0;
        while i < self.entries.len()
            invariant
                i <= self.entries@.len(),
                wanted == holding_ip(ip),
                forall|j: int| 0 <= j < i ==> !wanted(#[trigger] self@[j]),
            decreases self.entries@.len() - i,
        {
            if contains_ip(&self.entries[i].1, ip) {
                proof {
                    lemma_first_index_at(self@, wanted, i as int);
                }
                return Some(self.entries[i].0.clone_resource());
            }
            i = i + 1;
        }
        proof {
            lemma_first_index_none(self@, wanted);
        }
        None
    }
}

/// Whether `ip` is among `ips`.
pub fn contains_ip(ips: &Vec<IpAddress>, ip: IpAddress) -> (found: bool)
    ensures
        found == ips@.contains(ip),
{
    let mut i: usize = 0;
    while i < ips.len()
        invariant
            i <= ips@.len(),
            forall|j: int| 0 <= j < i ==> ips@[j] != ip,
        decreases ips@.len() - i,
    {
        if ips[i].same(&ip) {
            return true;
        }
        i = i + 1;
    }
    false
}

} // verus!
