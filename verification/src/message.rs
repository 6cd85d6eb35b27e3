//! DNS messages: reading the question of a query and composing the answer.
//!
//! The wire format is read and written by the `domain` crate. What it reads
//! is named here, so that the decisions around it can be stated; what it
//! adds to an answer, record by record, is written out.

use crate::name::{is_name, DomainName};
use crate::packet::{be16, with_be16};
use domain::base::message_builder::AnswerBuilder;
use vstd::prelude::*;

verus! {

/// The size of the header that every DNS message begins with.
pub const HEADER_LEN: usize = 12;

/// Query type: an IPv4 address.
pub const TYPE_A: u16 = 1;

/// Query type: a name for an address.
pub const TYPE_PTR: u16 = 12;

/// Query type: an IPv6 address.
pub const TYPE_AAAA: u16 = 28;

/// Query class: the Internet.
pub const CLASS_IN: u16 = 1;

/// Response code: no error.
pub const RCODE_NOERROR: u8 = 0;

/// Response code: the name does not exist.
pub const RCODE_NXDOMAIN: u8 = 3;

/// A question: the name asked about, and the type and class asked for.
#[derive(Debug)]
pub struct Question {
    pub qname: DomainName,
    pub qtype: u16,
    pub qclass: u16,
}

impl View for Question {
    type V = (Seq<u8>, u16, u16);

    open spec fn view(&self) -> Self::V {
        (self.qname@, self.qtype, self.qclass)
    }
}

/// One record of an answer: what its data is.
pub enum Record {
    /// An IPv4 address.
    A(u32),
    /// An IPv6 address.
    Aaaa(u128),
    /// The wire form of a domain name.
    Ptr(Seq<u8>),
}

/// The first question of a message as `domain` reads it: the name in wire
/// form, the type and the class. `None` where it reads no question.
pub uninterp spec fn dns_first_question(message: Seq<u8>) -> Option<(Seq<u8>, u16, u16)>;

/// The beginning of the answer that `domain` composes to a query with the
/// given response code: the header and the query's questions.
pub uninterp spec fn dns_answer_begun(query: Seq<u8>, rcode: u8) -> Option<Seq<u8>>;

/// The `count` low octets of `value`, the highest first.
pub open spec fn octets_of(value: int, count: nat) -> Seq<u8>
    decreases count,
{
    if count == 0 {
        Seq::empty()
    } else {
        octets_of(value / 256, (count - 1) as nat).push((value % 256) as u8)
    }
}

impl Record {
    /// The type of the record.
    pub open spec fn rtype(self) -> u16 {
        match self {
            Record::A(_) => TYPE_A,
            Record::Aaaa(_) => TYPE_AAAA,
            Record::Ptr(_) => TYPE_PTR,
        }
    }

    /// The data of the record on the wire: the octets of an address, the
    /// highest first, or a name, not compressed.
    pub open spec fn data(self) -> Seq<u8> {
        match self {
            Record::A(ip) => octets_of(ip as int, 4),
            Record::Aaaa(ip) => octets_of(ip as int, 16),
            Record::Ptr(name) => name,
        }
    }
}

/// A record on the wire: the owner's name, the type, the class, the
/// lifetime in seconds, the length of the data and the data.
pub open spec fn record_octets(owner: Seq<u8>, class: u16, ttl: u32, record: Record) -> Seq<u8> {
    owner + octets_of(record.rtype() as int, 2) + octets_of(class as int, 2) + octets_of(
        ttl as int,
        4,
    ) + octets_of(record.data().len() as int, 2) + record.data()
}

/// The offset of the number of questions in a message.
pub const QUESTION_COUNT_AT: usize = 4;

/// The most octets that a question takes on the wire: a name of at most 255
/// octets, the type and the class.
pub const MAX_QUESTION_LEN: usize = 259;

/// The number of questions that a message counts in its header.
pub open spec fn question_count(message: Seq<u8>) -> int {
    be16(message, QUESTION_COUNT_AT as int)
}

/// The offset of the number of answer records in a message.
pub const ANSWER_COUNT_AT: usize = 6;

/// The most records that a section of a message can count.
pub const MAX_RECORDS: usize = 0xffff;

/// The number of answer records that a message counts in its header.
pub open spec fn answer_count(message: Seq<u8>) -> int {
    be16(message, ANSWER_COUNT_AT as int)
}

/// Whether the header counts no record after the answers.
pub open spec fn counts_nothing_more(message: Seq<u8>) -> bool {
    &&& message.len() >= HEADER_LEN
    &&& message[8] == 0
    &&& message[9] == 0
    &&& message[10] == 0
    &&& message[11] == 0
}

/// The message with one more answer record for `owner`: the record is
/// counted in the header and stands at the end. There is none where the
/// header cannot count another record.
pub open spec fn answer_with(
    message: Seq<u8>,
    owner: Seq<u8>,
    class: u16,
    ttl: u32,
    record: Record,
) -> Option<Seq<u8>> {
    if answer_count(message) >= MAX_RECORDS {
        None
    } else {
        Some(
            with_be16(message, ANSWER_COUNT_AT as int, (answer_count(message) + 1) as u16)
                + record_octets(owner, class, ttl, record),
        )
    }
}

/// `domain::base::message_builder::AnswerBuilder`: a message in the making,
/// open for answer records. Nothing is seen of it but what is named here.
#[verifier::external_type_specification]
#[verifier::external_body]
#[verifier::reject_recursive_types(Target)]
pub struct ExAnswerBuilder<Target>(AnswerBuilder<Target>);

/// The message that an answer builder has composed so far.
pub uninterp spec fn answer_octets(builder: AnswerBuilder<Vec<u8>>) -> Seq<u8>;

/// Whether `message` begins as the answer to `query` does: with the query's
/// identifier, marked as a response, with the query's operation code and
/// its wish for recursion, every other flag clear, with the response code
/// `rcode`, and with no record counted yet. After the header it holds no
/// more than a question for each that the query counts.
pub open spec fn begins_answer(message: Seq<u8>, query: Seq<u8>, rcode: u8) -> bool {
    &&& message.len() >= HEADER_LEN
    &&& message.len() <= HEADER_LEN + MAX_QUESTION_LEN * question_count(query)
    &&& query.len() >= HEADER_LEN
    &&& message[0] == query[0]
    &&& message[1] == query[1]
    &&& message[2] == 0x80 | (query[2] & 0x79)
    &&& message[3] == rcode & 0x0f
    &&& answer_count(message) == 0
    &&& counts_nothing_more(message)
}

/// Whether the header's query/response bit marks a response.
pub open spec fn is_response(message: Seq<u8>) -> bool {
    message[2] & 0x80 != 0
}

/// The message with the recursion-available bit of its header set.
pub open spec fn with_recursion_available(message: Seq<u8>) -> Seq<u8> {
    message.update(3, message[3] | 0x80)
}

/// Reads the first question with `domain::base::Message::first_question`
/// and flattens its name with `ToDname::to_vec`. The contract names the
/// outcome and claims that the name read is an absolute name in wire form,
/// which is what a `Dname` holds.
#[verifier::external_body]
pub(crate) fn message_first_question(message: &[u8]) -> (question: Option<(Vec<u8>, u16, u16)>)
    ensures
        match question {
            Some(q) => dns_first_question(message@) == Some((q.0@, q.1, q.2)) && is_name(q.0@),
            None => dns_first_question(message@) is None,
        },
{
    let parsed = domain::base::Message::from_slice(message).ok()?;
    let question = parsed.first_question()?;
    let name: domain::base::Dname<Vec<u8>> = domain::base::ToDname::to_vec(question.qname());
    Some((name.into_octets(), question.qtype().to_int(), question.qclass().to_int()))
}

/// Reads the first question of a DNS message.
pub fn first_question(message: &[u8]) -> (question: Option<Question>)
    ensures
        match question {
            Some(q) => dns_first_question(message@) == Some(q@),
            None => dns_first_question(message@) is None,
        },
{
    match message_first_question(message) {
        Some((name, qtype, qclass)) => Some(
            Question { qname: DomainName::from_name_wire(name), qtype, qclass },
        ),
        None => None,
    }
}

/// Starts an answer with `domain::base::MessageBuilder::start_answer`, on
/// a query that `domain::base::Message::from_slice` takes. The contract
/// names the message so far and claims three things. A query is taken if
/// and only if it holds a header, and then the answer is begun: a `Vec`
/// takes whatever is appended. Of the first four octets it claims what the
/// method documents: it sets the identifier, the response bit, the
/// operation code and the recursion-desired bit from the query, and the
/// response code, in a header that was all zero. And it claims that no
/// record is counted and that the message is no longer than its header and
/// a question of the greatest length for each that the query counts: the
/// method adds the questions that it reads from the query, of which there
/// are no more than the query's header counts, each with a name of at most
/// 255 octets, and nothing else.
#[verifier::external_body]
pub(crate) fn answer_start(query: &[u8], rcode: u8) -> (builder: Option<AnswerBuilder<Vec<u8>>>)
    ensures
        builder is Some <==> query@.len() >= HEADER_LEN,
        match builder {
            Some(b) => dns_answer_begun(query@, rcode) == Some(answer_octets(b)) && begins_answer(
                answer_octets(b),
                query@,
                rcode,
            ),
            None => dns_answer_begun(query@, rcode) is None,
        },
{
    let message = domain::base::Message::from_slice(query).ok()?;
    let target = Vec::with_capacity(query.len() * 2);
    let builder = domain::base::MessageBuilder::from_target(target).ok()?;
    builder.start_answer(message, domain::base::iana::Rcode::from_int(rcode)).ok()
}

/// Sets the recursion-available flag through `Header::set_ra`. The contract
/// claims what that method does: it sets the top bit of the header's fourth
/// octet and leaves the rest of the message as it was.
#[verifier::external_body]
pub(crate) fn answer_set_recursion_available(builder: &mut AnswerBuilder<Vec<u8>>)
    requires
        answer_octets(*old(builder)).len() >= HEADER_LEN,
    ensures
        answer_octets(*final(builder)) == with_recursion_available(answer_octets(*old(builder))),
{
    builder.header_mut().set_ra(true);
}

/// Adds an address record through `AnswerBuilder::push`. The contract
/// claims what a push does to a message held in a `Vec`: it appends the
/// record as it goes over the wire, no name compressed, and counts it in
/// the header; where the header cannot count it, the push fails and the
/// message stays.
#[verifier::external_body]
pub(crate) fn answer_push_a(
    builder: &mut AnswerBuilder<Vec<u8>>,
    owner: &[u8],
    class: u16,
    ttl: u32,
    ip: u32,
) -> (pushed: bool)
    requires
        is_name(owner@),
        answer_octets(*old(builder)).len() >= HEADER_LEN,
    ensures
        match answer_with(answer_octets(*old(builder)), owner@, class, ttl, Record::A(ip)) {
            Some(message) => pushed && answer_octets(*final(builder)) == message,
            None => !pushed && answer_octets(*final(builder)) == answer_octets(*old(builder)),
        },
{
    let class = domain::base::iana::Class::from_int(class);
    match domain::base::Dname::from_slice(owner) {
        Ok(owner) => builder.push((owner, class, ttl, domain::rdata::A::new(ip.into()))).is_ok(),
        Err(_) => false,
    }
}

/// Adds an IPv6 address record through `AnswerBuilder::push`. The contract
/// claims what a push does to a message held in a `Vec`: it appends the
/// record as it goes over the wire, no name compressed, and counts it in
/// the header; where the header cannot count it, the push fails and the
/// message stays.
#[verifier::external_body]
pub(crate) fn answer_push_aaaa(
    builder: &mut AnswerBuilder<Vec<u8>>,
    owner: &[u8],
    class: u16,
    ttl: u32,
    ip: u128,
) -> (pushed: bool)
    requires
        is_name(owner@),
        answer_octets(*old(builder)).len() >= HEADER_LEN,
    ensures
        match answer_with(answer_octets(*old(builder)), owner@, class, ttl, Record::Aaaa(ip)) {
            Some(message) => pushed && answer_octets(*final(builder)) == message,
            None => !pushed && answer_octets(*final(builder)) == answer_octets(*old(builder)),
        },
{
    let class = domain::base::iana::Class::from_int(class);
    match domain::base::Dname::from_slice(owner) {
        Ok(owner) => builder.push((owner, class, ttl, domain::rdata::Aaaa::new(ip.into()))).is_ok(),
        Err(_) => false,
    }
}

/// Adds a pointer record through `AnswerBuilder::push`. The contract
/// claims what a push does to a message held in a `Vec`: it appends the
/// record as it goes over the wire, no name compressed, and counts it in
/// the header; where the header cannot count it, the push fails and the
/// message stays.
#[verifier::external_body]
pub(crate) fn answer_push_ptr(
    builder: &mut AnswerBuilder<Vec<u8>>,
    owner: &[u8],
    class: u16,
    ttl: u32,
    target: &[u8],
) -> (pushed: bool)
    requires
        is_name(owner@),
        is_name(target@),
        answer_octets(*old(builder)).len() >= HEADER_LEN,
    ensures
        match answer_with(
            answer_octets(*old(builder)),
            owner@,
            class,
            ttl,
            Record::Ptr(target@),
        ) {
            Some(message) => pushed && answer_octets(*final(builder)) == message,
            None => !pushed && answer_octets(*final(builder)) == answer_octets(*old(builder)),
        },
{
    let class = domain::base::iana::Class::from_int(class);
    match (domain::base::Dname::from_slice(owner), domain::base::Dname::from_slice(target)) {
        (Ok(owner), Ok(target)) => builder.push(
            (owner, class, ttl, domain::rdata::Ptr::new(target)),
        ).is_ok(),
        _ => false,
    }
}

/// Takes the finished message out of the builder with
/// `AnswerBuilder::finish`: the octets composed so far.
#[verifier::external_body]
pub(crate) fn answer_finish(builder: AnswerBuilder<Vec<u8>>) -> (message: Vec<u8>)
    ensures
        message@ == answer_octets(builder),
{
    builder.finish()
}

} // verus!
