//! The DNS interceptor: what to do with a query sent to a sentinel address.

use crate::checksum::{checksum_holds, word_sum};
use crate::ip::IpAddress;
use crate::matching::{description_for, get_description};
use crate::message::{
    answer_count, answer_finish, answer_octets, answer_push_a, answer_push_aaaa, answer_push_ptr,
    answer_set_recursion_available, answer_start, answer_with, counts_nothing_more,
    dns_answer_begun, dns_first_question, first_question, is_response, question_count,
    record_octets, with_recursion_available, Question, Record, ANSWER_COUNT_AT, CLASS_IN,
    HEADER_LEN, MAX_QUESTION_LEN, MAX_RECORDS, RCODE_NOERROR, RCODE_NXDOMAIN, TYPE_A, TYPE_AAAA,
    TYPE_PTR,
};
use crate::name::{name_text, DomainName};
use crate::packet::{
    be16, build_response, can_respond, ip_destination, ip_header_len, ip_source, is_ip_packet,
    is_ipv4, is_udp, lemma_response_packet, pseudo_header_sum, response_packet, udp_payload,
    with_be16, IpPacket, Packet,
};
use crate::resources::{
    assigned_ips, resource_of_ip, DnsResource, DnsResourceTable, ResourceDescriptionDns,
    ResourceIps,
};
use crate::reverse::{reverse_dns_addr, reverse_name};
use crate::sentinel::{DnsServer, SentinelMapping};
use vstd::prelude::*;
use vstd::utf8::encode_utf8;

verus! {

/// How long a synthesized answer may be kept, in seconds.
pub const DNS_TTL: u32 = 1;

/// What to do about a query: answer it here, send it on, or hold it until
/// the resource has addresses.
#[derive(Debug)]
pub enum ResolveStrategy<T, U, V> {
    LocalResponse(T),
    ForwardQuery(U),
    DeferredResponse(V),
}

/// The data of a local answer: addresses of one family, or a name.
#[derive(Debug)]
pub enum RecordData {
    A(Vec<u32>),
    Aaaa(Vec<u128>),
    Ptr(DomainName),
}

impl RecordData {
    /// The records that the data makes, in order.
    pub open spec fn records(&self) -> Seq<Record> {
        match *self {
            RecordData::A(ips) => Seq::new(ips@.len(), |i: int| Record::A(ips@[i])),
            RecordData::Aaaa(ips) => Seq::new(ips@.len(), |i: int| Record::Aaaa(ips@[i])),
            RecordData::Ptr(name) => seq![Record::Ptr(name@)],
        }
    }
}

/// The name and type of a query that goes to an upstream resolver.
#[derive(Debug)]
pub struct DnsQueryParams {
    pub name: String,
    pub record_type: u16,
}

/// The IPv4 addresses among `ips`, in order.
pub open spec fn v4_addresses(ips: Seq<IpAddress>) -> Seq<u32>
    decreases ips.len(),
{
    if ips.len() == 0 {
        Seq::empty()
    } else {
        let before = v4_addresses(ips.drop_last());
        match ips.last() {
            IpAddress::V4(bits) => before.push(bits),
            IpAddress::V6(_) => before,
        }
    }
}

/// The IPv6 addresses among `ips`, in order.
pub open spec fn v6_addresses(ips: Seq<IpAddress>) -> Seq<u128>
    decreases ips.len(),
{
    if ips.len() == 0 {
        Seq::empty()
    } else {
        let before = v6_addresses(ips.drop_last());
        match ips.last() {
            IpAddress::V4(_) => before,
            IpAddress::V6(bits) => before.push(bits),
        }
    }
}

/// The address, if it is an IPv4 address.
pub fn get_v4(ip: IpAddress) -> (bits: Option<u32>)
    ensures
        bits == match ip {
            IpAddress::V4(v4) => Some(v4),
            IpAddress::V6(_) => None,
        },
{
    match ip {
        IpAddress::V4(v4) => Some(v4),
        IpAddress::V6(_) => None,
    }
}

/// The address, if it is an IPv6 address.
pub fn get_v6(ip: IpAddress) -> (bits: Option<u128>)
    ensures
        bits == match ip {
            IpAddress::V4(_) => None,
            IpAddress::V6(v6) => Some(v6),
        },
{
    match ip {
        IpAddress::V4(_) => None,
        IpAddress::V6(v6) => Some(v6),
    }
}

/// The IPv4 addresses among `ips`, in order.
pub fn filter_v4(ips: &Vec<IpAddress>) -> (found: Vec<u32>)
    ensures
        found@ == v4_addresses(ips@),
{
    let mut found: Vec<u32> = Vec::new();
    let mut i: usize = 0;
    assert(ips@.subrange(0, 0) =~= Seq::<IpAddress>::empty());
    while i < ips.len()
        invariant
            i <= ips@.len(),
            found@ == v4_addresses(ips@.subrange(0, i as int)),
        decreases ips@.len() - i,
    {
        assert(ips@.subrange(0, i + 1).drop_last() =~= ips@.subrange(0, i as int));
        if let Some(bits) = get_v4(ips[i]) {
            found.push(bits);
        }
        i = i + 1;
    }
    assert(ips@.subrange(0, i as int) =~= ips@);
    found
}

/// The IPv6 addresses among `ips`, in order.
pub fn filter_v6(ips: &Vec<IpAddress>) -> (found: Vec<u128>)
    ensures
        found@ == v6_addresses(ips@),
{
    let mut found: Vec<u128> = Vec::new();
    let mut i: usize = 0;
    assert(ips@.subrange(0, 0) =~= Seq::<IpAddress>::empty());
    while i < ips.len()
        invariant
            i <= ips@.len(),
            found@ == v6_addresses(ips@.subrange(0, i as int)),
        decreases ips@.len() - i,
    {
        assert(ips@.subrange(0, i + 1).drop_last() =~= ips@.subrange(0, i as int));
        if let Some(bits) = get_v6(ips[i]) {
            found.push(bits);
        }
        i = i + 1;
    }
    assert(ips@.subrange(0, i as int) =~= ips@);
    found
}

/// What a question resolves to, over plain values.
pub enum Resolution {
    /// Answer here with these records.
    LocalResponse(Seq<Record>),
    /// Ask an upstream resolver for this name and type.
    ForwardQuery(Seq<char>, u16),
    /// Hold the query until this resource has addresses.
    DeferredResponse((ResourceDescriptionDns, Seq<u8>)),
}

/// The plain value of a resolution.
pub open spec fn resolution_view(
    strategy: ResolveStrategy<RecordData, DnsQueryParams, DnsResource>,
) -> Resolution {
    match strategy {
        ResolveStrategy::LocalResponse(data) => Resolution::LocalResponse(data.records()),
        ResolveStrategy::ForwardQuery(params) => Resolution::ForwardQuery(
            params.name@,
            params.record_type,
        ),
        ResolveStrategy::DeferredResponse(resource) => Resolution::DeferredResponse(resource@),
    }
}

/// How a question is resolved.
///
/// For an address query the name is matched against the resources. Without
/// a match the query is forwarded; with a match that has no addresses yet it
/// is deferred; otherwise it is answered with the resource's addresses of
/// the family asked for. For a pointer query the address that the name
/// writes is looked up among the resources' addresses, and the query is
/// answered with the name of the resource that holds it or else forwarded.
/// A query of any other type is forwarded unless the name matches a
/// resource, in which case there is nothing to resolve it to.
pub open spec fn resolve_question(
    resources: Seq<(Seq<char>, ResourceDescriptionDns)>,
    ips: Seq<((ResourceDescriptionDns, Seq<u8>), Seq<IpAddress>)>,
    question: (Seq<u8>, u16, u16),
) -> Option<Resolution> {
    let name = question.0;
    let qtype = question.1;
    let forward = Some(Resolution::ForwardQuery(name_text(name), qtype));
    if qtype == TYPE_A || qtype == TYPE_AAAA {
        match description_for(name, resources) {
            None => forward,
            Some(description) => match assigned_ips(ips, (description, name)) {
                None => Some(Resolution::DeferredResponse((description, name))),
                Some(addresses) => Some(
                    Resolution::LocalResponse(
                        if qtype == TYPE_A {
                            Seq::new(
                                v4_addresses(addresses).len(),
                                |i: int| Record::A(v4_addresses(addresses)[i]),
                            )
                        } else {
                            Seq::new(
                                v6_addresses(addresses).len(),
                                |i: int| Record::Aaaa(v6_addresses(addresses)[i]),
                            )
                        },
                    ),
                ),
            },
        }
    } else if qtype == TYPE_PTR {
        match reverse_name(encode_utf8(name_text(name))) {
            None => forward,
            Some(ip) => match resource_of_ip(ips, ip) {
                None => forward,
                Some(resource) => Some(Resolution::LocalResponse(seq![Record::Ptr(resource.1)])),
            },
        }
    } else {
        match description_for(name, resources) {
            Some(_) => None,
            None => forward,
        }
    }
}

/// Each of the IPv4 addresses among `ips` is one of `ips`.
pub proof fn lemma_v4_addresses(ips: Seq<IpAddress>)
    ensures
        forall|i: int|
            0 <= i < v4_addresses(ips).len() ==> ips.contains(
                IpAddress::V4(#[trigger] v4_addresses(ips)[i]),
            ),
    decreases ips.len(),
{
    if ips.len() > 0 {
        let before = ips.drop_last();
        lemma_v4_addresses(before);
        assert forall|i: int| 0 <= i < v4_addresses(ips).len() implies ips.contains(
            IpAddress::V4(#[trigger] v4_addresses(ips)[i]),
        ) by {
            if i < v4_addresses(before).len() {
                let found = IpAddress::V4(v4_addresses(before)[i]);
                assert(before.contains(found));
                let k = choose|k: int| 0 <= k < before.len() && before[k] == found;
                assert(ips[k] == found);
            } else {
                assert(ips[ips.len() - 1] == IpAddress::V4(v4_addresses(ips)[i]));
            }
        }
    }
}

/// Each of the IPv6 addresses among `ips` is one of `ips`.
pub proof fn lemma_v6_addresses(ips: Seq<IpAddress>)
    ensures
        forall|i: int|
            0 <= i < v6_addresses(ips).len() ==> ips.contains(
                IpAddress::V6(#[trigger] v6_addresses(ips)[i]),
            ),
    decreases ips.len(),
{
    if ips.len() > 0 {
        let before = ips.drop_last();
        lemma_v6_addresses(before);
        assert forall|i: int| 0 <= i < v6_addresses(ips).len() implies ips.contains(
            IpAddress::V6(#[trigger] v6_addresses(ips)[i]),
        ) by {
            if i < v6_addresses(before).len() {
                let found = IpAddress::V6(v6_addresses(before)[i]);
                assert(before.contains(found));
                let k = choose|k: int| 0 <= k < before.len() && before[k] == found;
                assert(ips[k] == found);
            } else {
                assert(ips[ips.len() - 1] == IpAddress::V6(v6_addresses(ips)[i]));
            }
        }
    }
}

/// Whether a record carries one of `addresses`, of the family that the
/// query type asks for.
pub open spec fn is_address_of_family(
    record: Record,
    qtype: u16,
    addresses: Seq<IpAddress>,
) -> bool {
    match record {
        Record::A(bits) => qtype == TYPE_A && addresses.contains(IpAddress::V4(bits)),
        Record::Aaaa(bits) => qtype == TYPE_AAAA && addresses.contains(IpAddress::V6(bits)),
        Record::Ptr(_) => false,
    }
}

/// The local answer to an address query carries only addresses of the
/// family asked for, and each is one of the addresses that stand for the
/// resource that the name matched.
pub proof fn lemma_address_answers_match_family(
    resources: Seq<(Seq<char>, ResourceDescriptionDns)>,
    ips: Seq<((ResourceDescriptionDns, Seq<u8>), Seq<IpAddress>)>,
    question: (Seq<u8>, u16, u16),
)
    requires
        question.1 == TYPE_A || question.1 == TYPE_AAAA,
        resolve_question(resources, ips, question) matches Some(Resolution::LocalResponse(_)),
    ensures
        description_for(question.0, resources) is Some,
        assigned_ips(ips, (description_for(question.0, resources)->0, question.0)) is Some,
        resolve_question(resources, ips, question) matches Some(
            Resolution::LocalResponse(records),
        ) && forall|i: int|
            0 <= i < records.len() ==> is_address_of_family(
                #[trigger] records[i],
                question.1,
                assigned_ips(ips, (description_for(question.0, resources)->0, question.0))->0,
            ),
{
    let description = description_for(question.0, resources)->0;
    let addresses = assigned_ips(ips, (description, question.0))->0;
    lemma_v4_addresses(addresses);
    lemma_v6_addresses(addresses);
}

/// The strategy of sending a query on to an upstream resolver.
fn forward(name: String, record_type: u16) -> (strategy: ResolveStrategy<
    RecordData,
    DnsQueryParams,
    DnsResource,
>)
    ensures
        resolution_view(strategy) == Resolution::ForwardQuery(name@, record_type),
{
    ResolveStrategy::ForwardQuery(DnsQueryParams { name, record_type })
}

/// Resolves a question against the resources and their addresses.
pub fn resource_from_question(
    dns_resources: &DnsResourceTable,
    dns_resources_internal_ips: &ResourceIps,
    question: &Question,
) -> (resolved: Option<ResolveStrategy<RecordData, DnsQueryParams, DnsResource>>)
    ensures
        match resolved {
            Some(strategy) => resolve_question(
                dns_resources@,
                dns_resources_internal_ips@,
                question@,
            ) == Some(resolution_view(strategy)),
            None => resolve_question(dns_resources@, dns_resources_internal_ips@, question@)
                is None,
        },
{
    let name = &question.qname;
    let qtype = question.qtype;
    if qtype == TYPE_A || qtype == TYPE_AAAA {
        let description = match get_description(name, dns_resources) {
            Some(description) => description,
            None => {
                return Some(forward(name.to_text(), qtype));
            },
        };
        let resource = DnsResource::from_description(&description, name.clone_name());
        let ips = match dns_resources_internal_ips.get(&resource) {
            Some(ips) => ips,
            None => {
                return Some(ResolveStrategy::DeferredResponse(resource));
            },
        };
        if qtype == TYPE_A {
            let data = RecordData::A(filter_v4(&ips));
            assert(data.records() =~= Seq::new(
                v4_addresses(ips@).len(),
                |i: int| Record::A(v4_addresses(ips@)[i]),
            ));
            Some(ResolveStrategy::LocalResponse(data))
        } else {
            let data = RecordData::Aaaa(filter_v6(&ips));
            assert(data.records() =~= Seq::new(
                v6_addresses(ips@).len(),
                |i: int| Record::Aaaa(v6_addresses(ips@)[i]),
            ));
            Some(ResolveStrategy::LocalResponse(data))
        }
    } else if qtype == TYPE_PTR {
        let text = name.to_text();
        let ip = match reverse_dns_addr(text.as_str()) {
            Some(ip) => ip,
            None => {
                return Some(forward(text, qtype));
            },
        };
        let resource = match dns_resources_internal_ips.owner_of(ip) {
            Some(resource) => resource,
            None => {
                return Some(forward(text, qtype));
            },
        };
        Some(ResolveStrategy::LocalResponse(RecordData::Ptr(resource.address)))
    } else {
        if get_description(name, dns_resources).is_some() {
            return None;
        }
        Some(forward(name.to_text(), qtype))
    }
}

/// The message with the records added one after another for `owner`, or
/// `None` as soon as one is refused.
pub open spec fn with_records(message: Seq<u8>, owner: Seq<u8>, records: Seq<Record>) -> Option<
    Seq<u8>,
>
    decreases records.len(),
{
    if records.len() == 0 {
        Some(message)
    } else {
        match answer_with(message, owner, CLASS_IN, DNS_TTL, records[0]) {
            Some(next) => with_records(next, owner, records.drop_first()),
            None => None,
        }
    }
}

/// The records for `owner` as they go over the wire, one after another,
/// each with a lifetime of one second.
pub open spec fn records_octets(owner: Seq<u8>, records: Seq<Record>) -> Seq<u8>
    decreases records.len(),
{
    if records.len() == 0 {
        Seq::empty()
    } else {
        record_octets(owner, CLASS_IN, DNS_TTL, records[0]) + records_octets(
            owner,
            records.drop_first(),
        )
    }
}

/// Adding records to a message counts them in its header and puts them at
/// its end; they are refused where the header cannot count them all.
pub proof fn lemma_with_records(message: Seq<u8>, owner: Seq<u8>, records: Seq<Record>)
    requires
        message.len() >= HEADER_LEN,
    ensures
        with_records(message, owner, records) == (if answer_count(message) + records.len()
            <= MAX_RECORDS {
            Some(
                with_be16(
                    message,
                    ANSWER_COUNT_AT as int,
                    (answer_count(message) + records.len()) as u16,
                ) + records_octets(owner, records),
            )
        } else {
            None
        }),
    decreases records.len(),
{
    let count = answer_count(message);
    if records.len() == 0 {
        assert(with_be16(message, ANSWER_COUNT_AT as int, count as u16) + records_octets(
            owner,
            records,
        ) =~= message);
    } else if count < MAX_RECORDS {
        let first = record_octets(owner, CLASS_IN, DNS_TTL, records[0]);
        let next = answer_with(message, owner, CLASS_IN, DNS_TTL, records[0])->0;
        let rest = records.drop_first();
        lemma_with_records(next, owner, rest);
        assert(answer_count(next) == count + 1);
        if count + records.len() <= MAX_RECORDS {
            assert(with_be16(next, ANSWER_COUNT_AT as int, (count + records.len()) as u16)
                + records_octets(owner, rest) =~= with_be16(
                message,
                ANSWER_COUNT_AT as int,
                (count + records.len()) as u16,
            ) + records_octets(owner, records));
        }
    }
}

/// Whether `answer` carries exactly `records` for `owner`: its header
/// counts them as its answers and counts nothing after them, and they stand
/// at its end as they go over the wire.
pub open spec fn carries_records(answer: Seq<u8>, owner: Seq<u8>, records: Seq<Record>) -> bool {
    let tail = records_octets(owner, records);
    &&& answer.len() >= HEADER_LEN + tail.len()
    &&& answer_count(answer) == records.len()
    &&& counts_nothing_more(answer)
    &&& answer.skip(answer.len() - tail.len()) == tail
}

/// The most octets that the answer to `query` with these records takes: the
/// header, a question of the greatest length for each that the query
/// counts, and the records.
pub open spec fn answer_bound(query: Seq<u8>, owner: Seq<u8>, records: Seq<Record>) -> int {
    HEADER_LEN + MAX_QUESTION_LEN * question_count(query) + records_octets(owner, records).len()
}

/// The records, or none where there are none.
pub open spec fn records_or_none(records: Option<Seq<Record>>) -> Seq<Record> {
    match records {
        Some(records) => records,
        None => Seq::empty(),
    }
}

/// The answer to `query` for the name `qname`. Without records it says that
/// the name does not exist. With records it reports no error, says that
/// recursion is available and carries each record with a lifetime of one
/// second.
pub open spec fn composed_answer(
    query: Seq<u8>,
    qname: Seq<u8>,
    records: Option<Seq<Record>>,
) -> Option<Seq<u8>> {
    match records {
        None => dns_answer_begun(query, RCODE_NXDOMAIN),
        Some(records) => match dns_answer_begun(query, RCODE_NOERROR) {
            Some(begun) => with_records(with_recursion_available(begun), qname, records),
            None => None,
        },
    }
}

/// Whether `answer` begins as a local answer to `query` does: with the
/// query's identifier, operation code and wish for recursion, marked as a
/// response. An answer that carries what was found reports no error and
/// says that recursion is available; one that carries nothing says that the
/// name does not exist and that recursion is not available.
pub open spec fn answers_query(answer: Seq<u8>, query: Seq<u8>, found: bool) -> bool {
    &&& answer.len() >= HEADER_LEN
    &&& query.len() >= HEADER_LEN
    &&& answer[0] == query[0]
    &&& answer[1] == query[1]
    &&& answer[2] == 0x80 | (query[2] & 0x79)
    &&& answer[3] == if found {
        0x80u8
    } else {
        RCODE_NXDOMAIN
    }
}

/// The records of the data, if there is any.
pub open spec fn records_of(resource: Option<RecordData>) -> Option<Seq<Record>> {
    match resource {
        Some(data) => Some(data.records()),
        None => None,
    }
}

/// Composes the answer to `message` for the name `qname`.
pub fn build_dns_with_answer(
    message: &[u8],
    qname: &DomainName,
    resource: &Option<RecordData>,
) -> (answer: Option<Vec<u8>>)
    ensures
        answer is Some <==> message@.len() >= HEADER_LEN && records_or_none(
            records_of(*resource),
        ).len() <= MAX_RECORDS,
        match answer {
            Some(octets) => {
                &&& composed_answer(message@, qname@, records_of(*resource)) == Some(octets@)
                &&& answers_query(octets@, message@, *resource is Some)
                &&& carries_records(octets@, qname@, records_or_none(records_of(*resource)))
                &&& octets@.len() <= answer_bound(
                    message@,
                    qname@,
                    records_or_none(records_of(*resource)),
                )
            },
            None => composed_answer(message@, qname@, records_of(*resource)) is None,
        },
{
    assert(RCODE_NXDOMAIN & 0x0f == RCODE_NXDOMAIN && (RCODE_NOERROR & 0x0f) | 0x80 == 0x80u8)
        by (bit_vector);
    let data = match resource {
        Some(data) => data,
        None => {
            return match answer_start(message, RCODE_NXDOMAIN) {
                Some(builder) => {
                    let octets = answer_finish(builder);
                    assert(octets@.skip(octets@.len() as int) =~= Seq::<u8>::empty());
                    Some(octets)
                },
                None => None,
            };
        },
    };
    let mut builder = match answer_start(message, RCODE_NOERROR) {
        Some(builder) => builder,
        None => {
            return None;
        },
    };
    answer_set_recursion_available(&mut builder);
    let owner = qname.as_wire();
    let ghost start = answer_octets(builder);
    assert(answers_query(start, message@, true));
    let ghost all = data.records();
    let ghost goal = composed_answer(message@, qname@, records_of(*resource));
    assert(goal == with_records(start, owner@, all));
    proof {
        lemma_with_records(start, owner@, all);
        if all.len() <= MAX_RECORDS {
            let counted = with_be16(start, ANSWER_COUNT_AT as int, all.len() as u16);
            let tail = records_octets(owner@, all);
            assert((counted + tail).skip(counted.len() as int) =~= tail);
            assert(carries_records(counted + tail, owner@, all));
            assert(answers_query(counted + tail, message@, true));
            assert((counted + tail).len() <= answer_bound(message@, owner@, all));
        }
    }
    match data {
        RecordData::A(ips) => {
            let mut i: usize = 0;
            assert(all.skip(0) =~= all);
            while i < ips.len()
                invariant
                    i <= ips@.len(),
                    crate::name::is_name(owner@),
                    goal == composed_answer(message@, qname@, records_of(*resource)),
                    goal == with_records(start, owner@, all),
                    answer_octets(builder).len() >= HEADER_LEN,
                    message@.len() >= HEADER_LEN,
                    owner@ == qname@,
                    *resource is Some,
                    all == records_or_none(records_of(*resource)),
                    goal is Some <==> all.len() <= MAX_RECORDS,
                    goal matches Some(octets) ==> answers_query(octets, message@, true)
                        && carries_records(octets, owner@, all) && octets.len() <= answer_bound(
                        message@,
                        owner@,
                        all,
                    ),
                    all == Seq::new(ips@.len(), |k: int| Record::A(ips@[k])),
                    with_records(start, owner@, all) == with_records(
                        answer_octets(builder),
                        owner@,
                        all.skip(i as int),
                    ),
                decreases ips@.len() - i,
            {
                let ghost rest = all.skip(i as int);
                assert(rest[0] == Record::A(ips@[i as int]));
                assert(rest.drop_first() =~= all.skip(i + 1));
                if !answer_push_a(&mut builder, owner, CLASS_IN, DNS_TTL, ips[i]) {
                    return None;
                }
                i = i + 1;
            }
            assert(all.skip(i as int) =~= Seq::<Record>::empty());
        },
        RecordData::Aaaa(ips) => {
            let mut i: usize = 0;
            assert(all.skip(0) =~= all);
            while i < ips.len()
                invariant
                    i <= ips@.len(),
                    crate::name::is_name(owner@),
                    goal == composed_answer(message@, qname@, records_of(*resource)),
                    goal == with_records(start, owner@, all),
                    answer_octets(builder).len() >= HEADER_LEN,
                    message@.len() >= HEADER_LEN,
                    owner@ == qname@,
                    *resource is Some,
                    all == records_or_none(records_of(*resource)),
                    goal is Some <==> all.len() <= MAX_RECORDS,
                    goal matches Some(octets) ==> answers_query(octets, message@, true)
                        && carries_records(octets, owner@, all) && octets.len() <= answer_bound(
                        message@,
                        owner@,
                        all,
                    ),
                    all == Seq::new(ips@.len(), |k: int| Record::Aaaa(ips@[k])),
                    with_records(start, owner@, all) == with_records(
                        answer_octets(builder),
                        owner@,
                        all.skip(i as int),
                    ),
                decreases ips@.len() - i,
            {
                let ghost rest = all.skip(i as int);
                assert(rest[0] == Record::Aaaa(ips@[i as int]));
                assert(rest.drop_first() =~= all.skip(i + 1));
                if !answer_push_aaaa(&mut builder, owner, CLASS_IN, DNS_TTL, ips[i]) {
                    return None;
                }
                i = i + 1;
            }
            assert(all.skip(i as int) =~= Seq::<Record>::empty());
        },
        RecordData::Ptr(name) => {
            let target = name.as_wire();
            assert(all.drop_first() =~= Seq::<Record>::empty());
            if !answer_push_ptr(&mut builder, owner, CLASS_IN, DNS_TTL, target) {
                return None;
            }
        },
    }
    Some(answer_finish(builder))
}

/// A query that goes to an upstream resolver: the name and type asked for
/// and the packet that asked.
#[derive(Debug)]
pub struct DnsQuery {
    pub name: String,
    pub record_type: u16,
    pub query: IpPacket,
}

impl DnsQuery {
    /// The query, owning its packet.
    pub fn into_owned(self) -> (owned: DnsQuery)
        ensures
            owned == self,
    {
        self
    }
}

impl DnsQueryParams {
    /// The query that these parameters make with the packet that asked.
    pub fn into_query(self, query: IpPacket) -> (made: DnsQuery)
        ensures
            made.name == self.name,
            made.record_type == self.record_type,
            made.query == query,
    {
        DnsQuery { name: self.name, record_type: self.record_type, query }
    }
}

/// What becomes of an intercepted packet, over plain values.
pub enum Interception {
    /// This packet goes back to the device; the flag tells an IPv4 packet.
    LocalResponse(Seq<u8>, bool),
    /// The query for this name and type goes upstream, with its packet.
    ForwardQuery(Seq<char>, u16, Seq<u8>),
    /// The query of this type waits for this resource.
    DeferredResponse((ResourceDescriptionDns, Seq<u8>), u16),
}

/// The plain value of what became of a packet.
pub open spec fn interception_view(
    strategy: ResolveStrategy<Packet, DnsQuery, (DnsResource, u16)>,
) -> Interception {
    match strategy {
        ResolveStrategy::LocalResponse(packet) => Interception::LocalResponse(
            packet.octets(),
            packet is Ipv4,
        ),
        ResolveStrategy::ForwardQuery(query) => Interception::ForwardQuery(
            query.name@,
            query.record_type,
            query.query@,
        ),
        ResolveStrategy::DeferredResponse(held) => Interception::DeferredResponse(held.0@, held.1),
    }
}

/// The local reply to a query: the composed answer, framed as the reply to
/// the packet. There is none where the answer cannot be composed or framed.
pub open spec fn local_reply(
    packet: Seq<u8>,
    qname: Seq<u8>,
    records: Seq<Record>,
) -> Option<Interception> {
    match composed_answer(udp_payload(packet), qname, Some(records)) {
        Some(answer) => if can_respond(packet, answer) {
            Some(Interception::LocalResponse(response_packet(packet, answer), is_ipv4(packet)))
        } else {
            None
        },
        None => None,
    }
}

/// The question that an intercepted packet asks: the packet goes to a
/// sentinel, carries UDP, and in it a DNS query with a question of class IN.
pub open spec fn intercepted_question(
    mapping: Map<IpAddress, DnsServer>,
    packet: Seq<u8>,
) -> Option<(Seq<u8>, u16, u16)> {
    if !mapping.contains_key(ip_destination(packet)) || !is_udp(packet) {
        None
    } else {
        let payload = udp_payload(packet);
        if payload.len() < HEADER_LEN || is_response(payload) {
            None
        } else {
            match dns_first_question(payload) {
                Some(question) => if question.2 == CLASS_IN {
                    Some(question)
                } else {
                    None
                },
                None => None,
            }
        }
    }
}

/// What becomes of a packet read from the device.
///
/// A packet that asks no question of a sentinel is not intercepted. A
/// question that resolves to a forward or a deferral is handed on as such.
/// One that resolves to records is answered with them. One that resolves to
/// nothing, because it asks something else of the name of a resource, is
/// neither answered nor sent on: the packet is not intercepted.
pub open spec fn interception(
    resources: Seq<(Seq<char>, ResourceDescriptionDns)>,
    ips: Seq<((ResourceDescriptionDns, Seq<u8>), Seq<IpAddress>)>,
    mapping: Map<IpAddress, DnsServer>,
    packet: Seq<u8>,
) -> Option<Interception> {
    match intercepted_question(mapping, packet) {
        None => None,
        Some(question) => match resolve_question(resources, ips, question) {
            Some(Resolution::ForwardQuery(name, record_type)) => Some(
                Interception::ForwardQuery(name, record_type, packet),
            ),
            Some(Resolution::DeferredResponse(resource)) => Some(
                Interception::DeferredResponse(resource, question.1),
            ),
            Some(Resolution::LocalResponse(records)) => local_reply(packet, question.0, records),
            None => None,
        },
    }
}

/// The octets of the reply, where the packet is answered here.
pub open spec fn reply_octets<U, V>(strategy: Option<ResolveStrategy<Packet, U, V>>) -> Option<
    Seq<u8>,
> {
    match strategy {
        Some(ResolveStrategy::LocalResponse(reply)) => Some(reply.octets()),
        _ => None,
    }
}

/// Whether the reply to `packet` with these records surely fits the length
/// fields of a packet.
pub open spec fn reply_fits(packet: Seq<u8>, qname: Seq<u8>, records: Seq<Record>) -> bool {
    let most = answer_bound(udp_payload(packet), qname, records);
    if is_ipv4(packet) {
        ip_header_len(packet) + 8 + most <= 0xffff
    } else {
        8 + most <= 0xffff
    }
}

/// What holds of an answer made here to the question for `qname` that
/// `packet` asks. The answer can be composed if and only if its header can
/// count the records. There is a reply wherever the records can be counted
/// and the reply surely fits a packet. The reply, if there is one, carries
/// a message that begins as an answer to the query does and holds exactly
/// the records.
pub open spec fn answers_here(
    packet: Seq<u8>,
    qname: Seq<u8>,
    records: Seq<Record>,
    reply: Option<Seq<u8>>,
) -> bool {
    &&& composed_answer(udp_payload(packet), qname, Some(records)) is Some <==> records.len()
        <= MAX_RECORDS
    &&& records.len() <= MAX_RECORDS && reply_fits(packet, qname, records) ==> reply is Some
    &&& reply matches Some(octets) ==> {
        &&& answers_query(udp_payload(octets), udp_payload(packet), true)
        &&& carries_records(udp_payload(octets), qname, records)
    }
}

/// Whether `reply` is a well-made reply to `packet`: a UDP packet of the
/// same version, with the addresses and the ports swapped, a UDP length of
/// eight more than what it carries, a UDP checksum that holds and, for
/// IPv4, a header checksum that holds.
pub open spec fn is_reply_to(reply: Seq<u8>, packet: Seq<u8>) -> bool {
    let h = ip_header_len(reply);
    &&& is_udp(reply)
    &&& is_ipv4(reply) == is_ipv4(packet)
    &&& h == ip_header_len(packet)
    &&& ip_source(reply) == ip_destination(packet)
    &&& ip_destination(reply) == ip_source(packet)
    &&& be16(reply, h) == be16(packet, h + 2)
    &&& be16(reply, h + 2) == be16(packet, h)
    &&& be16(reply, h + 4) == 8 + udp_payload(reply).len()
    &&& checksum_holds(
        pseudo_header_sum(reply, is_ipv4(reply), h) + word_sum(reply.subrange(h, reply.len() as int)),
    )
    &&& is_ipv4(reply) ==> checksum_holds(word_sum(reply.subrange(0, h)))
}

/// Every local response to an intercepted packet is a well-made reply to
/// it.
pub proof fn lemma_local_response_is_reply(
    resources: Seq<(Seq<char>, ResourceDescriptionDns)>,
    ips: Seq<((ResourceDescriptionDns, Seq<u8>), Seq<IpAddress>)>,
    mapping: Map<IpAddress, DnsServer>,
    packet: Seq<u8>,
)
    requires
        is_ip_packet(packet),
        interception(resources, ips, mapping, packet) matches Some(
            Interception::LocalResponse(_, _),
        ),
    ensures
        interception(resources, ips, mapping, packet) matches Some(
            Interception::LocalResponse(reply, ipv4),
        ) && ipv4 == is_ipv4(packet) && is_reply_to(reply, packet),
{
    let question = intercepted_question(mapping, packet)->0;
    let records = resolve_question(resources, ips, question)->0->LocalResponse_0;
    let answer = composed_answer(udp_payload(packet), question.0, Some(records))->0;
    lemma_response_packet(packet, answer);
}

/// Reads the question that an intercepted packet asks.
fn read_intercepted_question(dns_mapping: &SentinelMapping, packet: &IpPacket) -> (question: Option<
    Question,
>)
    ensures
        match question {
            Some(q) => intercepted_question(dns_mapping@, packet@) == Some(q@),
            None => intercepted_question(dns_mapping@, packet@) is None,
        },
{
    if dns_mapping.get_by_left(&packet.destination()).is_none() {
        return None;
    }
    let payload = match packet.udp_payload() {
        Some(payload) => payload,
        None => {
            return None;
        },
    };
    if payload.len() < HEADER_LEN || payload[2] & 0x80 != 0 {
        return None;
    }
    match first_question(payload) {
        Some(question) => if question.qclass == CLASS_IN {
            Some(question)
        } else {
            None
        },
        None => None,
    }
}

/// The plain value of what became of a packet, where the packet that asked
/// is `packet`.
pub open spec fn classification_view(
    strategy: ResolveStrategy<Packet, DnsQueryParams, (DnsResource, u16)>,
    packet: Seq<u8>,
) -> Interception {
    match strategy {
        ResolveStrategy::LocalResponse(reply) => Interception::LocalResponse(
            reply.octets(),
            reply is Ipv4,
        ),
        ResolveStrategy::ForwardQuery(params) => Interception::ForwardQuery(
            params.name@,
            params.record_type,
            packet,
        ),
        ResolveStrategy::DeferredResponse(held) => Interception::DeferredResponse(held.0@, held.1),
    }
}

/// Decides what becomes of a packet read from the device, leaving the
/// packet with the caller.
pub fn classify(
    dns_resources: &DnsResourceTable,
    dns_resources_internal_ips: &ResourceIps,
    dns_mapping: &SentinelMapping,
    packet: &IpPacket,
) -> (strategy: Option<ResolveStrategy<Packet, DnsQueryParams, (DnsResource, u16)>>)
    ensures
        match strategy {
            Some(s) => interception(
                dns_resources@,
                dns_resources_internal_ips@,
                dns_mapping@,
                packet@,
            ) == Some(classification_view(s, packet@)),
            None => interception(
                dns_resources@,
                dns_resources_internal_ips@,
                dns_mapping@,
                packet@,
            ) is None,
        },
        ({
            let question = intercepted_question(dns_mapping@, packet@);
            let asked = question->0;
            let resolved = resolve_question(dns_resources@, dns_resources_internal_ips@, asked);
            question is Some ==> (resolved matches Some(Resolution::LocalResponse(records))
                ==> answers_here(packet@, asked.0, records, reply_octets(strategy)))
        }),
{
    let question = match read_intercepted_question(dns_mapping, packet) {
        Some(question) => question,
        None => {
            return None;
        },
    };
    let resource = match resource_from_question(
        dns_resources,
        dns_resources_internal_ips,
        &question,
    ) {
        Some(ResolveStrategy::LocalResponse(resource)) => resource,
        Some(ResolveStrategy::ForwardQuery(params)) => {
            return Some(ResolveStrategy::ForwardQuery(params));
        },
        Some(ResolveStrategy::DeferredResponse(resource)) => {
            return Some(ResolveStrategy::DeferredResponse((resource, question.qtype)));
        },
        None => {
            return None;
        },
    };
    let payload = match packet.udp_payload() {
        Some(payload) => payload,
        None => {
            return None;
        },
    };
    let response = match build_dns_with_answer(payload, &question.qname, &Some(resource)) {
        Some(response) => response,
        None => {
            return None;
        },
    };
    proof {
        if can_respond(packet@, response@) {
            lemma_response_packet(packet@, response@);
        }
    }
    match build_response(packet, response) {
        Some(reply) => Some(ResolveStrategy::LocalResponse(reply)),
        None => None,
    }
}

/// Decides what becomes of a packet read from the device: whether it is a
/// DNS query to a sentinel, and if so whether it is answered here, sent on
/// or held.
pub fn parse(
    dns_resources: &DnsResourceTable,
    dns_resources_internal_ips: &ResourceIps,
    dns_mapping: &SentinelMapping,
    packet: IpPacket,
) -> (strategy: Option<ResolveStrategy<Packet, DnsQuery, (DnsResource, u16)>>)
    ensures
        match strategy {
            Some(s) => interception(
                dns_resources@,
                dns_resources_internal_ips@,
                dns_mapping@,
                packet@,
            ) == Some(interception_view(s)),
            None => interception(
                dns_resources@,
                dns_resources_internal_ips@,
                dns_mapping@,
                packet@,
            ) is None,
        },
        ({
            let question = intercepted_question(dns_mapping@, packet@);
            let asked = question->0;
            let resolved = resolve_question(dns_resources@, dns_resources_internal_ips@, asked);
            question is Some ==> (resolved matches Some(Resolution::LocalResponse(records))
                ==> answers_here(packet@, asked.0, records, reply_octets(strategy)))
        }),
{
    match classify(dns_resources, dns_resources_internal_ips, dns_mapping, &packet) {
        Some(ResolveStrategy::LocalResponse(reply)) => Some(ResolveStrategy::LocalResponse(reply)),
        Some(ResolveStrategy::ForwardQuery(params)) => Some(
            ResolveStrategy::ForwardQuery(params.into_query(packet)),
        ),
        Some(ResolveStrategy::DeferredResponse(held)) => Some(
            ResolveStrategy::DeferredResponse(held),
        ),
        None => None,
    }
}

/// Whether a held query can now be answered locally: its packet carries a
/// DNS message whose first question asks for addresses.
pub open spec fn asks_for_addresses(packet: Seq<u8>) -> bool {
    is_udp(packet) && udp_payload(packet).len() >= HEADER_LEN && match dns_first_question(
        udp_payload(packet),
    ) {
        Some(question) => question.1 == TYPE_A || question.1 == TYPE_AAAA,
        None => false,
    }
}

/// The question that a held query asks.
pub open spec fn held_question(packet: Seq<u8>) -> (Seq<u8>, u16, u16) {
    dns_first_question(udp_payload(packet))->0
}

/// The records that answer a question for addresses: those of `ips` that
/// are of the family asked for, in their order.
pub open spec fn address_records(ips: Seq<IpAddress>, qtype: u16) -> Seq<Record> {
    if qtype == TYPE_A {
        Seq::new(v4_addresses(ips).len(), |i: int| Record::A(v4_addresses(ips)[i]))
    } else {
        Seq::new(v6_addresses(ips).len(), |i: int| Record::Aaaa(v6_addresses(ips)[i]))
    }
}

/// The octets of a packet, if there is one.
pub open spec fn packet_octets(packet: Option<Packet>) -> Option<Seq<u8>> {
    match packet {
        Some(p) => Some(p.octets()),
        None => None,
    }
}

/// The answer to a held query once its resource has the addresses `ips`:
/// those of the family asked for.
pub open spec fn local_answer(ips: Seq<IpAddress>, packet: Seq<u8>) -> Option<Interception> {
    local_reply(packet, held_question(packet).0, address_records(ips, held_question(packet).1))
}

/// Answers a held address query with the addresses that its resource has
/// been given.
pub fn create_local_answer(ips: &Vec<IpAddress>, packet: &IpPacket) -> (reply: Option<Packet>)
    requires
        asks_for_addresses(packet@),
    ensures
        match reply {
            Some(p) => local_answer(ips@, packet@) == Some(
                Interception::LocalResponse(p.octets(), p is Ipv4),
            ),
            None => local_answer(ips@, packet@) is None,
        },
        answers_here(
            packet@,
            held_question(packet@).0,
            address_records(ips@, held_question(packet@).1),
            packet_octets(reply),
        ),
{
    let payload = match packet.udp_payload() {
        Some(payload) => payload,
        None => {
            return None;
        },
    };
    let question = match first_question(payload) {
        Some(question) => question,
        None => {
            return None;
        },
    };
    let resource = if question.qtype == TYPE_A {
        let data = RecordData::A(filter_v4(ips));
        assert(data.records() =~= Seq::new(
            v4_addresses(ips@).len(),
            |i: int| Record::A(v4_addresses(ips@)[i]),
        ));
        data
    } else {
        let data = RecordData::Aaaa(filter_v6(ips));
        assert(data.records() =~= Seq::new(
            v6_addresses(ips@).len(),
            |i: int| Record::Aaaa(v6_addresses(ips@)[i]),
        ));
        data
    };
    let response = match build_dns_with_answer(payload, &question.qname, &Some(resource)) {
        Some(response) => response,
        None => {
            return None;
        },
    };
    proof {
        if can_respond(packet@, response@) {
            lemma_response_packet(packet@, response@);
        }
    }
    build_response(packet, response)
}

/// Answers a held query with the addresses that its resource has been
/// given, if the query asks for addresses; otherwise there is no answer.
pub fn answer_held_query(ips: &Vec<IpAddress>, packet: &IpPacket) -> (reply: Option<Packet>)
    ensures
        match reply {
            Some(p) => asks_for_addresses(packet@) && local_answer(ips@, packet@) == Some(
                Interception::LocalResponse(p.octets(), p is Ipv4),
            ),
            None => !asks_for_addresses(packet@) || local_answer(ips@, packet@) is None,
        },
        asks_for_addresses(packet@) ==> answers_here(
            packet@,
            held_question(packet@).0,
            address_records(ips@, held_question(packet@).1),
            packet_octets(reply),
        ),
{
    let payload = match packet.udp_payload() {
        Some(payload) => payload,
        None => {
            return None;
        },
    };
    if payload.len() < HEADER_LEN {
        return None;
    }
    match first_question(payload) {
        Some(question) => if question.qtype == TYPE_A || question.qtype == TYPE_AAAA {
            create_local_answer(ips, packet)
        } else {
            None
        },
        None => None,
    }
}

} // verus!
