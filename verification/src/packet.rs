//! IP packets as they pass the device, and the UDP datagrams in them.

use crate::checksum::{
    checksum_holds, checksum_of, finish_checksum, lemma_checksum_validates, lemma_word_sum_bound,
    lemma_word_sum_fill, sum_words, word_sum,
};
use crate::ip::{v4_bits, IpAddress};
use vstd::prelude::*;
use vstd::slice::*;

verus! {

/// The size of a UDP header.
pub const UDP_HEADER_SIZE: usize = 8;

/// The size of the fixed IPv6 header.
pub const IPV6_HEADER_SIZE: usize = 40;

/// The smallest IPv4 header.
pub const IPV4_HEADER_SIZE: usize = 20;

/// The protocol number of UDP.
pub const PROTOCOL_UDP: u8 = 17;

/// The version of the Internet Protocol.
#[derive(Clone, Copy, Debug, PartialEq, Eq, Structural)]
pub enum Version {
    Ipv4,
    Ipv6,
}

/// A packet read from the device or to be written to it.
#[derive(Debug)]
pub enum Packet {
    Ipv4(Vec<u8>),
    Ipv6(Vec<u8>),
}

impl Packet {
    /// The octets of the packet.
    pub open spec fn octets(&self) -> Seq<u8> {
        match *self {
            Packet::Ipv4(b) => b@,
            Packet::Ipv6(b) => b@,
        }
    }
}

/// The 16-bit big-endian number at `at`.
pub open spec fn be16(b: Seq<u8>, at: int) -> int {
    b[at] * 256 + b[at + 1]
}

/// The two octets of a 16-bit big-endian number.
pub open spec fn be16_octets(v: int) -> Seq<u8> {
    seq![(v / 256) as u8, (v % 256) as u8]
}

/// The 128-bit big-endian number that sixteen octets write.
pub open spec fn be128(s: Seq<u8>) -> u128
    decreases s.len(),
{
    if s.len() == 0 {
        0
    } else {
        (be128(s.drop_last()) << 8) | (s.last() as u128)
    }
}

/// Whether `b` is an IPv4 packet: the version is 4, the header is at least
/// five words long and lies within the packet, and the total length is that
/// of the packet.
pub open spec fn is_ipv4(b: Seq<u8>) -> bool {
    b.len() >= 20 && b[0] / 16 == 4 && b[0] % 16 >= 5 && 4 * (b[0] % 16) <= b.len() && be16(b, 2)
        == b.len()
}

/// Whether `b` is an IPv6 packet: the version is 6 and the payload length is
/// that of what follows the fixed header.
pub open spec fn is_ipv6(b: Seq<u8>) -> bool {
    b.len() >= 40 && b[0] / 16 == 6 && be16(b, 4) + 40 == b.len()
}

/// Whether `b` is an IP packet of either version.
pub open spec fn is_ip_packet(b: Seq<u8>) -> bool {
    is_ipv4(b) || is_ipv6(b)
}

/// The length of the IP header.
pub open spec fn ip_header_len(b: Seq<u8>) -> int {
    if is_ipv4(b) {
        4 * (b[0] % 16)
    } else {
        40
    }
}

/// The number of the protocol that the packet carries.
pub open spec fn ip_protocol(b: Seq<u8>) -> u8 {
    if is_ipv4(b) {
        b[9]
    } else {
        b[6]
    }
}

/// Whether the packet carries a UDP datagram with a whole header.
pub open spec fn is_udp(b: Seq<u8>) -> bool {
    is_ip_packet(b) && ip_protocol(b) == PROTOCOL_UDP && b.len() - ip_header_len(b) >= 8
}

/// What the UDP datagram carries.
pub open spec fn udp_payload(b: Seq<u8>) -> Seq<u8> {
    b.subrange(ip_header_len(b) + 8, b.len() as int)
}

/// The address that the packet comes from.
pub open spec fn ip_source(b: Seq<u8>) -> IpAddress {
    if is_ipv4(b) {
        IpAddress::V4(v4_bits(b[12], b[13], b[14], b[15]))
    } else {
        IpAddress::V6(be128(b.subrange(8, 24)))
    }
}

/// The address that the packet goes to.
pub open spec fn ip_destination(b: Seq<u8>) -> IpAddress {
    if is_ipv4(b) {
        IpAddress::V4(v4_bits(b[16], b[17], b[18], b[19]))
    } else {
        IpAddress::V6(be128(b.subrange(24, 40)))
    }
}

/// The IP header of the reply to a packet, its checksum still zero: the
/// request's header with the addresses swapped and the length set for a
/// datagram that carries `n` octets.
pub open spec fn response_ip_header(request: Seq<u8>, n: int) -> Seq<u8> {
    let h = ip_header_len(request);
    if is_ipv4(request) {
        request.subrange(0, 2) + be16_octets(h + 8 + n) + request.subrange(4, 10) + seq![
            0u8,
            0u8,
        ] + request.subrange(16, 20) + request.subrange(12, 16) + request.subrange(20, h)
    } else {
        request.subrange(0, 4) + be16_octets(8 + n) + request.subrange(6, 8) + request.subrange(
            24,
            40,
        ) + request.subrange(8, 24)
    }
}

/// The UDP header of the reply to a packet, its checksum still zero: the
/// request's ports swapped and the length set for `n` octets carried.
pub open spec fn response_udp_header(request: Seq<u8>, n: int) -> Seq<u8> {
    let h = ip_header_len(request);
    request.subrange(h + 2, h + 4) + request.subrange(h, h + 2) + be16_octets(8 + n) + seq![
        0u8,
        0u8,
    ]
}

/// The frame of the reply to a UDP packet, both checksums still zero: the
/// two headers and then the answer.
pub open spec fn unchecked_response(request: Seq<u8>, answer: Seq<u8>) -> Seq<u8> {
    response_ip_header(request, answer.len() as int) + response_udp_header(
        request,
        answer.len() as int,
    ) + answer
}

/// The sum of the words of the pseudo header that the UDP checksum covers:
/// both addresses, the protocol number and the length of the datagram.
pub open spec fn pseudo_header_sum(frame: Seq<u8>, ipv4: bool, h: int) -> nat {
    let addresses = if ipv4 {
        frame.subrange(12, 20)
    } else {
        frame.subrange(8, 40)
    };
    (word_sum(addresses) + PROTOCOL_UDP + (frame.len() - h)) as nat
}

/// The frame with the 16-bit number `v` written at `at`.
pub open spec fn with_be16(frame: Seq<u8>, at: int, v: u16) -> Seq<u8> {
    frame.update(at, (v / 256) as u8).update(at + 1, (v % 256) as u8)
}

/// The frame with its UDP checksum filled in.
pub open spec fn with_udp_checksum(frame: Seq<u8>, ipv4: bool, h: int) -> Seq<u8> {
    with_be16(
        frame,
        h + 6,
        checksum_of(
            pseudo_header_sum(frame, ipv4, h) + word_sum(frame.subrange(h, frame.len() as int)),
        ),
    )
}

/// The frame with its IPv4 header checksum filled in.
pub open spec fn with_header_checksum(frame: Seq<u8>, h: int) -> Seq<u8> {
    with_be16(frame, 10, checksum_of(word_sum(frame.subrange(0, h))))
}

/// Whether a reply that carries `answer` can be framed: the request carries
/// UDP and the lengths fit their 16-bit fields.
pub open spec fn can_respond(request: Seq<u8>, answer: Seq<u8>) -> bool {
    is_udp(request) && if is_ipv4(request) {
        ip_header_len(request) + 8 + answer.len() <= 0xffff
    } else {
        8 + answer.len() <= 0xffff
    }
}

/// The reply to a UDP packet that carries `answer`: the frame with its UDP
/// checksum and, for IPv4, its header checksum filled in.
pub open spec fn response_packet(request: Seq<u8>, answer: Seq<u8>) -> Seq<u8> {
    let h = ip_header_len(request);
    let frame = with_udp_checksum(unchecked_response(request, answer), is_ipv4(request), h);
    if is_ipv4(request) {
        with_header_checksum(frame, h)
    } else {
        frame
    }
}

/// The IPv4 header of a reply, field by field.
proof fn lemma_response_ipv4_header(request: Seq<u8>, n: int)
    requires
        is_ipv4(request),
        0 <= n,
        ip_header_len(request) + 8 + n <= 0xffff,
    ensures
        ({
            let header = response_ip_header(request, n);
            let h = ip_header_len(request);
            &&& header.len() == h
            &&& header[0] == request[0]
            &&& be16(header, 2) == h + 8 + n
            &&& header[9] == request[9]
            &&& header[10] == 0
            &&& header[11] == 0
            &&& header.subrange(12, 16) == request.subrange(16, 20)
            &&& header.subrange(16, 20) == request.subrange(12, 16)
        }),
{
    let h = ip_header_len(request);
    let a = request.subrange(0, 2) + be16_octets(h + 8 + n);
    let b = a + request.subrange(4, 10);
    let c = b + seq![0u8, 0u8];
    let d = c + request.subrange(16, 20);
    let e = d + request.subrange(12, 16);
    let header = e + request.subrange(20, h);
    assert(header == response_ip_header(request, n));
    assert(a.len() == 4 && b.len() == 10 && c.len() == 12 && d.len() == 16 && e.len() == 20);
    assert(header[0] == a[0] && header[2] == a[2] && header[3] == a[3]);
    assert(header[9] == b[9]);
    assert(header[10] == c[10] && header[11] == c[11]);
    assert(header.subrange(12, 16) =~= request.subrange(16, 20)) by {
        assert forall|i: int| 12 <= i < 16 implies header[i] == request[i + 4] by {
            assert(header[i] == d[i]);
        }
    }
    assert(header.subrange(16, 20) =~= request.subrange(12, 16)) by {
        assert forall|i: int| 16 <= i < 20 implies header[i] == request[i - 4] by {
            assert(header[i] == e[i]);
        }
    }
}

/// The IPv6 header of a reply, field by field.
proof fn lemma_response_ipv6_header(request: Seq<u8>, n: int)
    requires
        is_ipv6(request),
        !is_ipv4(request),
        0 <= n,
        8 + n <= 0xffff,
    ensures
        ({
            let header = response_ip_header(request, n);
            &&& header.len() == 40
            &&& header[0] == request[0]
            &&& be16(header, 4) == 8 + n
            &&& header[6] == request[6]
            &&& header.subrange(8, 24) == request.subrange(24, 40)
            &&& header.subrange(24, 40) == request.subrange(8, 24)
        }),
{
    let a = request.subrange(0, 4) + be16_octets(8 + n);
    let b = a + request.subrange(6, 8);
    let c = b + request.subrange(24, 40);
    let header = c + request.subrange(8, 24);
    assert(header == response_ip_header(request, n));
    assert(a.len() == 6 && b.len() == 8 && c.len() == 24);
    assert(header[0] == a[0] && header[4] == a[4] && header[5] == a[5]);
    assert(header[6] == b[6]);
    assert(header.subrange(8, 24) =~= request.subrange(24, 40)) by {
        assert forall|i: int| 8 <= i < 24 implies header[i] == request[i + 16] by {
            assert(header[i] == c[i]);
        }
    }
    assert(header.subrange(24, 40) =~= request.subrange(8, 24));
}

/// The UDP header of a reply, field by field.
proof fn lemma_response_udp_header(request: Seq<u8>, n: int)
    requires
        is_udp(request),
        0 <= n,
        8 + n <= 0xffff,
    ensures
        ({
            let header = response_udp_header(request, n);
            let h = ip_header_len(request);
            &&& header.len() == 8
            &&& be16(header, 0) == be16(request, h + 2)
            &&& be16(header, 2) == be16(request, h)
            &&& be16(header, 4) == 8 + n
            &&& header[6] == 0
            &&& header[7] == 0
        }),
{
    let h = ip_header_len(request);
    let a = request.subrange(h + 2, h + 4) + request.subrange(h, h + 2);
    let b = a + be16_octets(8 + n);
    let header = b + seq![0u8, 0u8];
    assert(header == response_udp_header(request, n));
    assert(a.len() == 4 && b.len() == 6);
    assert(header[0] == a[0] && header[1] == a[1] && header[2] == a[2] && header[3] == a[3]);
    assert(header[4] == b[4] && header[5] == b[5]);
}

/// Writing a 16-bit number leaves every other octet as it was.
proof fn lemma_with_be16(frame: Seq<u8>, at: int, v: u16)
    requires
        0 <= at,
        at + 2 <= frame.len(),
    ensures
        with_be16(frame, at, v).len() == frame.len(),
        be16(with_be16(frame, at, v), at) == v,
        forall|i: int|
            0 <= i < frame.len() && i != at && i != at + 1 ==> #[trigger] with_be16(frame, at, v)[i]
                == frame[i],
{
}

/// The words of a run of octets with a checksum written over a zero word
/// at an even offset pass the receiver's test, if the checksum is that of
/// the run's words and of `extra`.
proof fn lemma_checksum_filled(data: Seq<u8>, at: int, extra: nat)
    requires
        0 <= at,
        at % 2 == 0,
        at + 2 <= data.len(),
        data[at] == 0,
        data[at + 1] == 0,
    ensures
        checksum_holds(
            extra + word_sum(with_be16(data, at, checksum_of(extra + word_sum(data)))),
        ),
{
    let c = checksum_of(extra + word_sum(data));
    lemma_word_sum_fill(data, at, (c / 256) as u8, (c % 256) as u8);
    assert((c / 256) as u8 * 256 + (c % 256) as u8 == c);
    lemma_checksum_validates(extra + word_sum(data));
}

/// What holds of every reply: it is a UDP packet of the request's version,
/// its UDP length is eight more than the length of what it carries, what it
/// carries is the answer, its addresses and ports are the request's
/// swapped, its UDP checksum holds, and for IPv4 its header checksum holds.
pub proof fn lemma_response_packet(request: Seq<u8>, answer: Seq<u8>)
    requires
        is_ip_packet(request),
        can_respond(request, answer),
    ensures
        ({
            let reply = response_packet(request, answer);
            let h = ip_header_len(request);
            &&& is_ipv4(reply) == is_ipv4(request)
            &&& is_udp(reply)
            &&& ip_header_len(reply) == h
            &&& reply.len() == h + 8 + answer.len()
            &&& be16(reply, h + 4) == 8 + answer.len()
            &&& udp_payload(reply) == answer
            &&& ip_source(reply) == ip_destination(request)
            &&& ip_destination(reply) == ip_source(request)
            &&& be16(reply, h) == be16(request, h + 2)
            &&& be16(reply, h + 2) == be16(request, h)
            &&& checksum_holds(
                pseudo_header_sum(reply, is_ipv4(request), h) + word_sum(
                    reply.subrange(h, reply.len() as int),
                ),
            )
            &&& is_ipv4(request) ==> checksum_holds(word_sum(reply.subrange(0, h)))
        }),
{
    let h = ip_header_len(request);
    let ipv4 = is_ipv4(request);
    let n = answer.len() as int;
    let ip_header = response_ip_header(request, n);
    let udp_header = response_udp_header(request, n);
    let frame = unchecked_response(request, answer);
    lemma_response_udp_header(request, n);
    if ipv4 {
        lemma_response_ipv4_header(request, n);
    } else {
        lemma_response_ipv6_header(request, n);
    }
    assert(frame.len() == h + 8 + n);
    assert(frame.subrange(0, h) =~= ip_header);
    assert(frame.subrange(h, h + 8) =~= udp_header);
    assert(frame.subrange(h + 8, frame.len() as int) =~= answer);
    // the UDP checksum
    let segment = frame.subrange(h, frame.len() as int);
    let pseudo = pseudo_header_sum(frame, ipv4, h);
    let c = checksum_of(pseudo + word_sum(segment));
    let with_udp = with_udp_checksum(frame, ipv4, h);
    lemma_with_be16(frame, h + 6, c);
    assert(segment[6] == frame[h + 6] && segment[7] == frame[h + 7]);
    assert(frame[h + 6] == udp_header[6] && frame[h + 7] == udp_header[7]);
    lemma_checksum_filled(segment, 6, pseudo);
    assert(with_udp.subrange(h, with_udp.len() as int) =~= with_be16(segment, 6, c));
    assert(with_udp.subrange(0, h) =~= ip_header);
    if ipv4 {
        assert(with_udp.subrange(12, 20) =~= frame.subrange(12, 20));
    } else {
        assert(with_udp.subrange(8, 40) =~= frame.subrange(8, 40));
    }
    assert(pseudo_header_sum(with_udp, ipv4, h) == pseudo);
    let reply = response_packet(request, answer);
    if ipv4 {
        let c4 = checksum_of(word_sum(ip_header));
        assert(reply == with_be16(with_udp, 10, c4));
        lemma_with_be16(with_udp, 10, c4);
        lemma_checksum_filled(ip_header, 10, 0);
        assert(reply.subrange(0, h) =~= with_be16(ip_header, 10, c4));
        assert(reply.subrange(h, reply.len() as int) =~= with_udp.subrange(
            h,
            with_udp.len() as int,
        ));
        assert(reply.subrange(12, 20) =~= with_udp.subrange(12, 20));
        assert(reply[0] == ip_header[0] && reply[2] == ip_header[2] && reply[3] == ip_header[3]
            && reply[9] == ip_header[9]);
        assert(is_ipv4(reply));
        assert(reply[12] == ip_header.subrange(12, 16)[0] && reply[13] == ip_header.subrange(
            12,
            16,
        )[1] && reply[14] == ip_header.subrange(12, 16)[2] && reply[15] == ip_header.subrange(
            12,
            16,
        )[3]);
        assert(reply[16] == ip_header.subrange(16, 20)[0] && reply[17] == ip_header.subrange(
            16,
            20,
        )[1] && reply[18] == ip_header.subrange(16, 20)[2] && reply[19] == ip_header.subrange(
            16,
            20,
        )[3]);
    } else {
        assert(reply == with_udp);
        assert(reply[0] == ip_header[0] && reply[4] == ip_header[4] && reply[5] == ip_header[5]
            && reply[6] == ip_header[6]);
        assert(is_ipv6(reply));
        assert(!is_ipv4(reply));
        assert(reply.subrange(8, 24) =~= ip_header.subrange(8, 24));
        assert(reply.subrange(24, 40) =~= ip_header.subrange(24, 40));
    }
    assert(reply[h] == udp_header[0] && reply[h + 1] == udp_header[1] && reply[h + 2]
        == udp_header[2] && reply[h + 3] == udp_header[3] && reply[h + 4] == udp_header[4]
        && reply[h + 5] == udp_header[5]);
    assert(udp_payload(reply) =~= answer);
}

/// An IP packet, whole and of a known version.
#[derive(Debug)]
pub struct IpPacket {
    bytes: Vec<u8>,
}

impl View for IpPacket {
    type V = Seq<u8>;

    closed spec fn view(&self) -> Seq<u8> {
        self.bytes@
    }
}

/// Reads sixteen octets as a 128-bit big-endian number.
fn read_be128(bytes: &[u8], at: usize) -> (value: u128)
    requires
        at + 16 <= bytes@.len(),
    ensures
        value == be128(bytes@.subrange(at as int, at + 16)),
{
    let len = bytes.len();
    let mut value: u128 = 0;
    let mut i: usize = 0;
    assert(bytes@.subrange(at as int, at as int) =~= Seq::<u8>::empty());
    while i < 16
        invariant
            i <= 16,
            len == bytes@.len(),
            at + 16 <= len,
            value == be128(bytes@.subrange(at as int, at + i)),
        decreases 16 - i,
    {
        assert(bytes@.subrange(at as int, at + i + 1).drop_last() =~= bytes@.subrange(
            at as int,
            at + i,
        ));
        value = (value << 8) | (bytes[at + i] as u128);
        i = i + 1;
    }
    value
}

impl IpPacket {
    /// What holds of every packet: its octets are an IP packet.
    #[verifier::type_invariant]
    pub closed spec fn wf(self) -> bool {
        is_ip_packet(self.bytes@)
    }

    /// The packet that `bytes` hold, if they hold one.
    pub fn new(bytes: Vec<u8>) -> (packet: Option<IpPacket>)
        ensures
            packet is Some <==> is_ip_packet(bytes@),
            packet matches Some(p) ==> p@ == bytes@,
    {
        let len = bytes.len();
        if len < IPV4_HEADER_SIZE {
            return None;
        }
        let version = bytes[0] / 16;
        if version == 4 {
            let words = (bytes[0] % 16) as usize;
            let total = (bytes[2] as usize) * 256 + bytes[3] as usize;
            if words >= 5 && 4 * words <= len && total == len {
                return Some(IpPacket { bytes });
            }
            None
        } else if version == 6 {
            if len < IPV6_HEADER_SIZE {
                return None;
            }
            let payload = (bytes[4] as usize) * 256 + bytes[5] as usize;
            if payload + IPV6_HEADER_SIZE == len {
                return Some(IpPacket { bytes });
            }
            None
        } else {
            None
        }
    }

    /// The octets of the packet.
    pub fn packet(&self) -> (octets: &[u8])
        ensures
            octets@ == self@,
            is_ip_packet(self@),
    {
        proof {
            use_type_invariant(self);
        }
        self.bytes.as_slice()
    }

    /// A copy of the packet.
    pub fn clone_packet(&self) -> (copy: IpPacket)
        ensures
            copy@ == self@,
    {
        proof {
            use_type_invariant(self);
        }
        IpPacket { bytes: self.bytes.clone() }
    }

    /// The version of the packet.
    pub fn version(&self) -> (version: Version)
        ensures
            version == if is_ipv4(self@) {
                Version::Ipv4
            } else {
                Version::Ipv6
            },
    {
        proof {
            use_type_invariant(self);
        }
        if self.bytes[0] / 16 == 4 {
            Version::Ipv4
        } else {
            Version::Ipv6
        }
    }

    /// The length of the IP header.
    pub fn header_len(&self) -> (len: usize)
        ensures
            len == ip_header_len(self@),
            len <= self@.len(),
    {
        proof {
            use_type_invariant(self);
        }
        if self.bytes[0] / 16 == 4 {
            4 * ((self.bytes[0] % 16) as usize)
        } else {
            IPV6_HEADER_SIZE
        }
    }

    /// The address that the packet comes from.
    pub fn source(&self) -> (ip: IpAddress)
        ensures
            ip == ip_source(self@),
    {
        proof {
            use_type_invariant(self);
        }
        if self.bytes[0] / 16 == 4 {
            IpAddress::v4(self.bytes[12], self.bytes[13], self.bytes[14], self.bytes[15])
        } else {
            IpAddress::V6(read_be128(self.bytes.as_slice(), 8))
        }
    }

    /// The address that the packet goes to.
    pub fn destination(&self) -> (ip: IpAddress)
        ensures
            ip == ip_destination(self@),
    {
        proof {
            use_type_invariant(self);
        }
        if self.bytes[0] / 16 == 4 {
            IpAddress::v4(self.bytes[16], self.bytes[17], self.bytes[18], self.bytes[19])
        } else {
            IpAddress::V6(read_be128(self.bytes.as_slice(), 24))
        }
    }

    /// Whether the packet carries a UDP datagram.
    pub fn is_udp(&self) -> (b: bool)
        ensures
            b == is_udp(self@),
    {
        proof {
            use_type_invariant(self);
        }
        let h = self.header_len();
        let protocol = if self.bytes[0] / 16 == 4 {
            self.bytes[9]
        } else {
            self.bytes[6]
        };
        protocol == PROTOCOL_UDP && self.bytes.len() - h >= UDP_HEADER_SIZE
    }

    /// What the UDP datagram in the packet carries, if the packet carries
    /// one.
    pub fn udp_payload(&self) -> (payload: Option<&[u8]>)
        ensures
            match payload {
                Some(octets) => is_udp(self@) && octets@ == udp_payload(self@),
                None => !is_udp(self@),
            },
    {
        if !self.is_udp() {
            return None;
        }
        let h = self.header_len();
        Some(slice_subrange(self.bytes.as_slice(), h + UDP_HEADER_SIZE, self.bytes.len()))
    }
}

/// Appends the two octets of a 16-bit big-endian number.
fn push_be16(frame: &mut Vec<u8>, v: usize)
    requires
        v <= 0xffff,
    ensures
        final(frame)@ == old(frame)@ + be16_octets(v as int),
{
    frame.push((v / 256) as u8);
    frame.push((v % 256) as u8);
    assert(frame@ =~= old(frame)@ + be16_octets(v as int));
}

/// Writes a 16-bit big-endian number at `at`.
fn set_be16(frame: &mut Vec<u8>, at: usize, v: u16)
    requires
        at + 2 <= old(frame)@.len(),
    ensures
        final(frame)@ == with_be16(old(frame)@, at as int, v),
{
    let len = frame.len();
    frame.set(at, (v / 256) as u8);
    frame.set(at + 1, (v % 256) as u8);
}

/// Writes the IPv4 header of the reply to a packet, its checksum still
/// zero.
fn response_ipv4_header_octets(request: &[u8], h: usize, n: usize) -> (header: Vec<u8>)
    requires
        is_ipv4(request@),
        h == ip_header_len(request@),
        h + 8 + n <= 0xffff,
    ensures
        header@ == response_ip_header(request@, n as int),
{
    let mut header: Vec<u8> = Vec::new();
    header.extend_from_slice(slice_subrange(request, 0, 2));
    push_be16(&mut header, h + UDP_HEADER_SIZE + n);
    header.extend_from_slice(slice_subrange(request, 4, 10));
    push_be16(&mut header, 0);
    assert(be16_octets(0) =~= seq![0u8, 0u8]);
    header.extend_from_slice(slice_subrange(request, 16, 20));
    header.extend_from_slice(slice_subrange(request, 12, 16));
    header.extend_from_slice(slice_subrange(request, 20, h));
    header
}

/// Writes the IPv6 header of the reply to a packet.
fn response_ipv6_header_octets(request: &[u8], n: usize) -> (header: Vec<u8>)
    requires
        is_ipv6(request@),
        !is_ipv4(request@),
        8 + n <= 0xffff,
    ensures
        header@ == response_ip_header(request@, n as int),
{
    let mut header: Vec<u8> = Vec::new();
    header.extend_from_slice(slice_subrange(request, 0, 4));
    push_be16(&mut header, UDP_HEADER_SIZE + n);
    header.extend_from_slice(slice_subrange(request, 6, 8));
    header.extend_from_slice(slice_subrange(request, 24, 40));
    header.extend_from_slice(slice_subrange(request, 8, 24));
    header
}

/// Writes the UDP header of the reply to a packet, its checksum still zero.
fn response_udp_header_octets(request: &[u8], h: usize, n: usize) -> (header: Vec<u8>)
    requires
        is_udp(request@),
        h == ip_header_len(request@),
        8 + n <= 0xffff,
    ensures
        header@ == response_udp_header(request@, n as int),
{
    let mut header: Vec<u8> = Vec::new();
    header.extend_from_slice(slice_subrange(request, h + 2, h + 4));
    header.extend_from_slice(slice_subrange(request, h, h + 2));
    push_be16(&mut header, UDP_HEADER_SIZE + n);
    push_be16(&mut header, 0);
    assert(be16_octets(0) =~= seq![0u8, 0u8]);
    header
}

/// Frames the reply to a UDP packet: the request's headers with the
/// addresses and the ports swapped, the lengths set for `dns_answer`, and the
/// checksums computed anew. There is no reply to a packet that carries no
/// UDP, nor one that would not fit the length fields.
pub fn build_response(request_pkt: &IpPacket, dns_answer: Vec<u8>) -> (reply: Option<Packet>)
    ensures
        match reply {
            Some(packet) => can_respond(request_pkt@, dns_answer@) && packet.octets()
                == response_packet(request_pkt@, dns_answer@) && (packet is Ipv4) == is_ipv4(
                request_pkt@,
            ),
            None => !can_respond(request_pkt@, dns_answer@),
        },
{
    let request = request_pkt.packet();
    if !request_pkt.is_udp() {
        return None;
    }
    let ipv4 = match request_pkt.version() {
        Version::Ipv4 => true,
        Version::Ipv6 => false,
    };
    let h = request_pkt.header_len();
    let n = dns_answer.len();
    if n > 0xffff - UDP_HEADER_SIZE || (ipv4 && h + UDP_HEADER_SIZE + n > 0xffff) {
        return None;
    }
    let mut frame = if ipv4 {
        response_ipv4_header_octets(request, h, n)
    } else {
        response_ipv6_header_octets(request, n)
    };
    let udp_header = response_udp_header_octets(request, h, n);
    frame.extend_from_slice(udp_header.as_slice());
    frame.extend_from_slice(dns_answer.as_slice());
    assert(frame@ == unchecked_response(request_pkt@, dns_answer@));
    proof {
        lemma_response_udp_header(request_pkt@, n as int);
        if ipv4 {
            lemma_response_ipv4_header(request_pkt@, n as int);
        } else {
            lemma_response_ipv6_header(request_pkt@, n as int);
        }
        assert(frame@.len() == h + 8 + n);
    }
    let len = frame.len();
    let addresses = if ipv4 {
        sum_words(slice_subrange(frame.as_slice(), 12, 20))
    } else {
        sum_words(slice_subrange(frame.as_slice(), 8, 40))
    };
    let segment = sum_words(slice_subrange(frame.as_slice(), h, len));
    proof {
        lemma_word_sum_bound(frame@.subrange(h as int, len as int));
        if ipv4 {
            lemma_word_sum_bound(frame@.subrange(12, 20));
        } else {
            lemma_word_sum_bound(frame@.subrange(8, 40));
        }
    }
    let udp_checksum = finish_checksum(addresses + PROTOCOL_UDP as u64 + (len - h) as u64 + segment);
    set_be16(&mut frame, h + 6, udp_checksum);
    if ipv4 {
        let header_checksum = finish_checksum(sum_words(slice_subrange(frame.as_slice(), 0, h)));
        set_be16(&mut frame, 10, header_checksum);
        Some(Packet::Ipv4(frame))
    } else {
        Some(Packet::Ipv6(frame))
    }
}

} // verus!
