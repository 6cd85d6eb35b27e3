//! Replies to the queries that were sent on to an upstream resolver.
//!
//! The reply is composed by `hickory_resolver`'s message type from the query
//! and from what the resolver found, and then framed as the reply to the
//! packet that asked.

use crate::error::Error;
use crate::packet::{
    build_response, can_respond, is_ipv4, is_udp, response_packet, udp_payload, IpPacket, Packet,
};
use hickory_resolver::proto::op::Message;
use hickory_resolver::proto::serialize::binary::BinDecodable;
use vstd::prelude::*;

verus! {

/// `hickory_resolver::proto::op::Message`: a DNS message with its sections.
/// Nothing is seen of it but what is named here.
#[verifier::external_type_specification]
#[verifier::external_body]
pub struct ExMessage(Message);

/// What a message holds, as far as this library changes it: whether it is
/// marked as a response, its response code, and its answer and name server
/// records. A record is opaque here, so a number stands for each, the same
/// number for equal records. Another number stands for everything else that
/// the message holds, which is the rest of its header, its questions and
/// its further records.
pub struct ReplyParts {
    /// Whether the message is marked as a response.
    pub response: bool,
    /// The response code of the header, as a number.
    pub code: u16,
    /// The answer records, in order.
    pub answers: Seq<int>,
    /// The name server records, in order.
    pub name_servers: Seq<int>,
    /// What else the message holds.
    pub rest: int,
}

/// The parts of a message: what its header and its sections hold.
pub uninterp spec fn message_parts(message: Message) -> ReplyParts;

/// The parts of the message that `hickory_resolver` decodes from the
/// octets, or `None` where it decodes none.
pub uninterp spec fn dns_decoded(payload: Seq<u8>) -> Option<ReplyParts>;

/// The number that stands for the record that `hickory_resolver` decodes
/// from the octets, or `None` where it decodes none. Octets that decode to
/// equal records give the same number.
pub uninterp spec fn dns_record(record: Seq<u8>) -> Option<int>;

/// The octets that `hickory_resolver` encodes a message of these parts to,
/// if it encodes it.
pub uninterp spec fn dns_encoded(parts: ReplyParts) -> Option<Seq<u8>>;

/// Decodes a message with `Message::from_vec`. The contract names what the
/// message decoded holds, as what the decoder makes of the octets.
#[verifier::external_body]
fn message_from_vec(payload: &[u8]) -> (message: Option<Message>)
    ensures
        match message {
            Some(m) => dns_decoded(payload@) == Some(message_parts(m)),
            None => dns_decoded(payload@) is None,
        },
{
    Message::from_vec(payload).ok()
}

/// Marks the message as a response with `Message::set_message_type`, which
/// sets the type in the header and changes nothing else.
#[verifier::external_body]
fn message_set_response(message: &mut Message)
    ensures
        message_parts(*final(message)) == (ReplyParts {
            response: true,
            ..message_parts(*old(message))
        }),
{
    message.set_message_type(hickory_resolver::proto::op::MessageType::Response);
}

/// Sets the response code with `Message::set_response_code`, which sets the
/// code in the header and changes nothing else. Every number stands for a
/// code of its own, so the header then holds the code of this number.
#[verifier::external_body]
fn message_set_response_code(message: &mut Message, code: u16)
    ensures
        message_parts(*final(message)) == (ReplyParts { code, ..message_parts(*old(message)) }),
{
    message.set_response_code(code.into());
}

/// Decodes a record with `Record::from_bytes` and puts it at the end of the
/// answers with `Message::add_answer`, which changes nothing else. Where
/// the octets decode to no record, the message stays as it is.
#[verifier::external_body]
fn message_add_answer(message: &mut Message, record: &[u8]) -> (added: bool)
    ensures
        match dns_record(record@) {
            Some(read) => added && message_parts(*final(message)) == (ReplyParts {
                answers: message_parts(*old(message)).answers.push(read),
                ..message_parts(*old(message))
            }),
            None => !added && message_parts(*final(message)) == message_parts(*old(message)),
        },
{
    match hickory_resolver::proto::rr::Record::from_bytes(record) {
        Ok(record) => {
            message.add_answer(record);
            true
        },
        Err(_) => false,
    }
}

/// Decodes a record with `Record::from_bytes` and puts it at the end of the
/// name servers with `Message::add_name_server`, which changes nothing
/// else. Where the octets decode to no record, the message stays as it is.
#[verifier::external_body]
fn message_add_name_server(message: &mut Message, record: &[u8]) -> (added: bool)
    ensures
        match dns_record(record@) {
            Some(read) => added && message_parts(*final(message)) == (ReplyParts {
                name_servers: message_parts(*old(message)).name_servers.push(read),
                ..message_parts(*old(message))
            }),
            None => !added && message_parts(*final(message)) == message_parts(*old(message)),
        },
{
    match hickory_resolver::proto::rr::Record::from_bytes(record) {
        Ok(record) => {
            message.add_name_server(record);
            true
        },
        Err(_) => false,
    }
}

/// Encodes the message with `Message::to_vec`. The contract names the
/// octets by what the message holds: the encoder reads nothing else.
#[verifier::external_body]
fn message_to_vec(message: &Message) -> (octets: Option<Vec<u8>>)
    ensures
        match octets {
            Some(o) => dns_encoded(message_parts(*message)) == Some(o@),
            None => dns_encoded(message_parts(*message)) is None,
        },
{
    message.to_vec().ok()
}

/// How the upstream resolver failed.
#[derive(Debug)]
pub enum ResolveFailure {
    /// The resolver found no records. It reports a response code and may
    /// report the record of the authority that said so, in wire form.
    NoRecordsFound { soa: Option<Vec<u8>>, response_code: u16 },
    /// Any other failure; the text says how.
    Other(String),
}

/// What the upstream resolver found, over plain values: records in wire
/// form, or that there are none, or a failure.
pub enum Resolved {
    Records(Seq<Seq<u8>>),
    NoRecordsFound(Option<Seq<u8>>, u16),
    Failed(Seq<char>),
}

/// The plain value of a resolver's result.
pub open spec fn resolved_view(response: Result<Vec<Vec<u8>>, ResolveFailure>) -> Resolved {
    match response {
        Ok(records) => Resolved::Records(Seq::new(records@.len(), |i: int| records@[i]@)),
        Err(ResolveFailure::NoRecordsFound { soa, response_code }) => Resolved::NoRecordsFound(
            match soa {
                Some(record) => Some(record@),
                None => None,
            },
            response_code,
        ),
        Err(ResolveFailure::Other(text)) => Resolved::Failed(text@),
    }
}

/// What becomes of a forwarded query once the resolver is done.
pub enum ForwardedReply {
    /// The packet that asked carries no DNS message: there is no reply.
    NoQuery,
    /// The resolver failed.
    Failed(Seq<char>),
    /// A record of the resolver's does not decode.
    BadRecord,
    /// The reply does not encode.
    Unencodable,
    /// The reply does not fit a packet.
    Unframed,
    /// This packet goes back to the device; the flag tells an IPv4 packet.
    Reply(Seq<u8>, bool),
}

/// Whether every record decodes.
pub open spec fn records_decode(records: Seq<Seq<u8>>) -> bool {
    forall|i: int| 0 <= i < records.len() ==> dns_record(#[trigger] records[i]) is Some
}

/// The records that the octets decode to, in order.
pub open spec fn records_read(records: Seq<Seq<u8>>) -> Seq<int> {
    Seq::new(records.len(), |i: int| dns_record(records[i])->0)
}

/// The parts of the reply to a query of the parts `query`: a response that
/// carries, after the records that the query held, the records found or,
/// where none were found, the response code and the authority's record.
pub open spec fn reply_parts(query: ReplyParts, resolved: Resolved) -> ReplyParts {
    match resolved {
        Resolved::Records(records) => ReplyParts {
            response: true,
            answers: query.answers + records_read(records),
            ..query
        },
        Resolved::NoRecordsFound(soa, code) => ReplyParts {
            response: true,
            code,
            name_servers: match soa {
                Some(record) => query.name_servers.push(dns_record(record)->0),
                None => query.name_servers,
            },
            ..query
        },
        Resolved::Failed(_) => query,
    }
}

/// What becomes of a forwarded query.
///
/// Without a DNS query in the packet there is no reply. A failure of the
/// resolver other than finding no records is an error, as is a record that
/// does not decode and a reply that does not encode. Otherwise the reply is
/// encoded and framed as the reply to the packet.
pub open spec fn forwarded_reply(request: Seq<u8>, resolved: Resolved) -> ForwardedReply {
    if !is_udp(request) || dns_decoded(udp_payload(request)) is None {
        ForwardedReply::NoQuery
    } else {
        let query = dns_decoded(udp_payload(request))->0;
        let undecodable = match resolved {
            Resolved::Records(records) => !records_decode(records),
            Resolved::NoRecordsFound(Some(record), _) => dns_record(record) is None,
            _ => false,
        };
        match resolved {
            Resolved::Failed(text) => ForwardedReply::Failed(text),
            _ => if undecodable {
                ForwardedReply::BadRecord
            } else {
                match dns_encoded(reply_parts(query, resolved)) {
                    None => ForwardedReply::Unencodable,
                    Some(octets) => if can_respond(request, octets) {
                        ForwardedReply::Reply(response_packet(request, octets), is_ipv4(request))
                    } else {
                        ForwardedReply::Unframed
                    },
                }
            },
        }
    }
}

/// The plain value of what `build_response_from_resolve_result` returns.
pub open spec fn forwarded_view(result: Result<Option<Packet>, Error>) -> ForwardedReply {
    match result {
        Ok(Some(packet)) => ForwardedReply::Reply(packet.octets(), packet is Ipv4),
        Ok(None) => ForwardedReply::Unframed,
        Err(Error::Resolve(text)) => ForwardedReply::Failed(text@),
        Err(Error::BadRecord) => ForwardedReply::BadRecord,
        Err(_) => ForwardedReply::Unencodable,
    }
}

/// The DNS message that a packet carries, if it carries one.
pub fn as_dns_message(pkt: &IpPacket) -> (message: Option<Message>)
    ensures
        match message {
            Some(m) => is_udp(pkt@) && dns_decoded(udp_payload(pkt@)) == Some(message_parts(m)),
            None => !is_udp(pkt@) || dns_decoded(udp_payload(pkt@)) is None,
        },
{
    match pkt.udp_payload() {
        Some(payload) => message_from_vec(payload),
        None => None,
    }
}

/// Makes the reply to a forwarded query out of what the resolver found and
/// frames it as the reply to the packet that asked. `Ok(None)` means that
/// there is no reply to give: the packet carries no query, or the reply does
/// not fit a packet.
pub fn build_response_from_resolve_result(
    request_pkt: &IpPacket,
    response: Result<Vec<Vec<u8>>, ResolveFailure>,
) -> (result: Result<Option<Packet>, Error>)
    ensures
        forwarded_reply(request_pkt@, resolved_view(response)) is NoQuery ==> result matches Ok(
            None,
        ),
        !(forwarded_reply(request_pkt@, resolved_view(response)) is NoQuery) ==> forwarded_view(
            result,
        ) == forwarded_reply(request_pkt@, resolved_view(response)),
        result matches Err(e) ==> e is Resolve || e is BadRecord || e is Encode,
{
    let mut message = match as_dns_message(request_pkt) {
        Some(message) => message,
        None => {
            return Ok(None);
        },
    };
    let ghost query = dns_decoded(udp_payload(request_pkt@))->0;
    let ghost resolved = resolved_view(response);
    message_set_response(&mut message);
    match response {
        Ok(records) => {
            let ghost all = Seq::new(records@.len(), |i: int| records@[i]@);
            let mut i: usize = 0;
            assert(query.answers + records_read(all.subrange(0, 0)) =~= query.answers);
            while i < records.len()
                invariant
                    i <= records@.len(),
                    is_udp(request_pkt@),
                    dns_decoded(udp_payload(request_pkt@)) == Some(query),
                    resolved == Resolved::Records(all),
                    resolved == resolved_view(response),
                    all == Seq::new(records@.len(), |k: int| records@[k]@),
                    records_decode(all.subrange(0, i as int)),
                    message_parts(message) == (ReplyParts {
                        response: true,
                        answers: query.answers + records_read(all.subrange(0, i as int)),
                        ..query
                    }),
                decreases records@.len() - i,
            {
                if !message_add_answer(&mut message, records[i].as_slice()) {
                    assert(dns_record(all[i as int]) is None);
                    return Err(Error::BadRecord);
                }
                assert(all.subrange(0, i + 1) =~= all.subrange(0, i as int).push(all[i as int]));
                assert(query.answers + records_read(all.subrange(0, i + 1)) =~= (query.answers
                    + records_read(all.subrange(0, i as int))).push(dns_record(all[i as int])->0));
                i = i + 1;
            }
            assert(all.subrange(0, i as int) =~= all);
        },
        Err(ResolveFailure::NoRecordsFound { soa, response_code }) => {
            if let Some(record) = soa {
                if !message_add_name_server(&mut message, record.as_slice()) {
                    return Err(Error::BadRecord);
                }
            }
            message_set_response_code(&mut message, response_code);
        },
        Err(ResolveFailure::Other(text)) => {
            return Err(Error::Resolve(text));
        },
    }
    match message_to_vec(&message) {
        Some(octets) => Ok(build_response(request_pkt, octets)),
        None => Err(Error::Encode),
    }
}

} // verus!
