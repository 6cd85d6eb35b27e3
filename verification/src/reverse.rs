//! Reading the address out of a reverse-lookup name.
//!
//! The name of an IPv4 address ends in `in-addr.arpa`, that of an IPv6
//! address in `ip6.arpa`; before that stand the parts of the address, least
//! significant first.

use crate::ip::{v4_bits, IpAddress};
use crate::text::{octets_equal, pieces_view, split, split_on};
use vstd::prelude::*;
use vstd::slice::*;
use vstd::string::StringSliceAdditionalSpecFns;

verus! {

/// The dot that separates the labels of a name.
pub const DOT: u8 = 0x2e;

/// The colon that separates the groups of an IPv6 address.
pub const COLON: u8 = 0x3a;

/// The octets of `arpa`.
pub open spec fn arpa() -> Seq<u8> {
    seq![0x61u8, 0x72, 0x70, 0x61]
}

/// The octets of `in-addr`.
pub open spec fn in_addr() -> Seq<u8> {
    seq![0x69u8, 0x6e, 0x2d, 0x61, 0x64, 0x64, 0x72]
}

/// The octets of `ip6`.
pub open spec fn ip6() -> Seq<u8> {
    seq![0x69u8, 0x70, 0x36]
}

/// The value of a decimal digit.
pub open spec fn decimal_digit(b: u8) -> Option<u8> {
    if 0x30 <= b <= 0x39 {
        Some((b - 0x30) as u8)
    } else {
        None
    }
}

/// The value of a hexadecimal digit, in either case.
pub open spec fn hex_digit(b: u8) -> Option<u8> {
    if 0x30 <= b <= 0x39 {
        Some((b - 0x30) as u8)
    } else if 0x61 <= b <= 0x66 {
        Some((b - 0x61 + 10) as u8)
    } else if 0x41 <= b <= 0x46 {
        Some((b - 0x41 + 10) as u8)
    } else {
        None
    }
}

/// The octet that `s` writes in decimal: one to three digits, no leading
/// zero before another digit, at most 255.
pub open spec fn decimal_octet(s: Seq<u8>) -> Option<u8> {
    if s.len() == 1 {
        decimal_digit(s[0])
    } else if s.len() == 2 {
        match (decimal_digit(s[0]), decimal_digit(s[1])) {
            (Some(a), Some(b)) => if a != 0 {
                Some((10 * a + b) as u8)
            } else {
                None
            },
            _ => None,
        }
    } else if s.len() == 3 {
        match (decimal_digit(s[0]), decimal_digit(s[1]), decimal_digit(s[2])) {
            (Some(a), Some(b), Some(c)) => if a != 0 && 100 * a + 10 * b + c <= 255 {
                Some((100 * a + 10 * b + c) as u8)
            } else {
                None
            },
            _ => None,
        }
    } else {
        None
    }
}

/// The number that the hexadecimal digits `s` write, if all are digits.
pub open spec fn hex_number(s: Seq<u8>) -> Option<int>
    decreases s.len(),
{
    if s.len() == 0 {
        Some(0)
    } else {
        match (hex_number(s.drop_last()), hex_digit(s.last())) {
            (Some(high), Some(low)) => Some(16 * high + low),
            _ => None,
        }
    }
}

/// The 16-bit group that `s` writes: one to four hexadecimal digits.
pub open spec fn hex_group(s: Seq<u8>) -> Option<u16> {
    if 1 <= s.len() <= 4 {
        match hex_number(s) {
            Some(n) => Some(n as u16),
            None => None,
        }
    } else {
        None
    }
}

/// The groups that the pieces write, if each writes one.
pub open spec fn hex_groups(pieces: Seq<Seq<u8>>) -> Option<Seq<u16>>
    decreases pieces.len(),
{
    if pieces.len() == 0 {
        Some(Seq::empty())
    } else {
        match (hex_groups(pieces.drop_last()), hex_group(pieces.last())) {
            (Some(groups), Some(group)) => Some(groups.push(group)),
            _ => None,
        }
    }
}

/// The groups of a colon-separated run; the empty text has none.
pub open spec fn ipv6_groups(s: Seq<u8>) -> Option<Seq<u16>> {
    if s.len() == 0 {
        Some(Seq::empty())
    } else {
        hex_groups(split_on(s, COLON))
    }
}

/// Whether a double colon stands at index `i` of `s`.
pub open spec fn gap_at(s: Seq<u8>, i: int) -> bool {
    0 <= i && i + 1 < s.len() && s[i] == COLON && s[i + 1] == COLON
}

/// The index of the first double colon in `s` at or after `from`.
pub open spec fn first_gap_from(s: Seq<u8>, from: int) -> Option<int>
    decreases s.len() - from,
{
    if from < 0 || from + 1 >= s.len() {
        None
    } else if gap_at(s, from) {
        Some(from)
    } else {
        first_gap_from(s, from + 1)
    }
}

/// The address that eight groups make, the first the most significant.
pub open spec fn groups_value(g: Seq<u16>) -> u128 {
    ((g[0] as u128) << 112) | ((g[1] as u128) << 96) | ((g[2] as u128) << 80) | ((g[3] as u128)
        << 64) | ((g[4] as u128) << 48) | ((g[5] as u128) << 32) | ((g[6] as u128) << 16) | (
    g[7] as u128)
}

/// As many zero groups as `n`.
pub open spec fn zero_groups(n: int) -> Seq<u16> {
    Seq::new(n as nat, |i: int| 0u16)
}

/// The IPv6 address that a text without dots writes: eight groups separated
/// by colons, or fewer with one double colon standing for the zero groups
/// left out, of which there is at least one.
pub open spec fn ipv6_from_text(s: Seq<u8>) -> Option<u128> {
    match first_gap_from(s, 0) {
        None => match ipv6_groups(s) {
            Some(groups) => if groups.len() == 8 {
                Some(groups_value(groups))
            } else {
                None
            },
            None => None,
        },
        Some(k) => match (
            ipv6_groups(s.subrange(0, k)),
            ipv6_groups(s.subrange(k + 2, s.len() as int)),
        ) {
            (Some(head), Some(tail)) => if head.len() + tail.len() <= 7 {
                Some(groups_value(head + zero_groups(8 - head.len() - tail.len()) + tail))
            } else {
                None
            },
            _ => None,
        },
    }
}

/// The text that a run of labels makes: the labels written one after
/// another, with a colon after every fourth where more follow.
pub open spec fn grouped_text(labels: Seq<Seq<u8>>) -> Seq<u8>
    decreases labels.len(),
{
    if labels.len() == 0 {
        Seq::empty()
    } else {
        let k = labels.len() - 1;
        grouped_text(labels.drop_last()) + (if k > 0 && k % 4 == 0 {
            seq![COLON]
        } else {
            Seq::empty()
        }) + labels.last()
    }
}

/// The IPv4 address that four labels write, the least significant octet
/// first.
pub open spec fn ipv4_from_labels(labels: Seq<Seq<u8>>) -> Option<u32> {
    if labels.len() == 4 {
        match (
            decimal_octet(labels[3]),
            decimal_octet(labels[2]),
            decimal_octet(labels[1]),
            decimal_octet(labels[0]),
        ) {
            (Some(a), Some(b), Some(c), Some(d)) => Some(v4_bits(a, b, c, d)),
            _ => None,
        }
    } else {
        None
    }
}

/// The IPv6 address that labels write, the least significant first: the
/// labels are taken last to first, four to a group.
pub open spec fn ipv6_from_labels(labels: Seq<Seq<u8>>) -> Option<u128> {
    ipv6_from_text(grouped_text(labels.reverse()))
}

/// The address that a reverse-lookup name stands for. The name is split at
/// its dots; its last label must be `arpa`, the one before `in-addr` or
/// `ip6`, and the labels before those must write an address of that family.
pub open spec fn reverse_name(name: Seq<u8>) -> Option<IpAddress> {
    let labels = split_on(name, DOT);
    let n = labels.len() as int;
    if n < 2 || labels[n - 1] != arpa() {
        None
    } else if labels[n - 2] == in_addr() {
        match ipv4_from_labels(labels.subrange(0, n - 2)) {
            Some(bits) => Some(IpAddress::V4(bits)),
            None => None,
        }
    } else if labels[n - 2] == ip6() {
        match ipv6_from_labels(labels.subrange(0, n - 2)) {
            Some(bits) => Some(IpAddress::V6(bits)),
            None => None,
        }
    } else {
        None
    }
}

fn read_decimal_digit(b: u8) -> (d: Option<u8>)
    ensures
        d == decimal_digit(b),
{
    if 0x30 <= b && b <= 0x39 {
        Some(b - 0x30)
    } else {
        None
    }
}

fn read_hex_digit(b: u8) -> (d: Option<u8>)
    ensures
        d == hex_digit(b),
{
    if 0x30 <= b && b <= 0x39 {
        Some(b - 0x30)
    } else if 0x61 <= b && b <= 0x66 {
        Some(b - 0x61 + 10)
    } else if 0x41 <= b && b <= 0x46 {
        Some(b - 0x41 + 10)
    } else {
        None
    }
}

/// Reads an octet written in decimal.
pub fn read_decimal_octet(s: &[u8]) -> (octet: Option<u8>)
    ensures
        octet == decimal_octet(s@),
{
    let n = s.len();
    if n == 0 || n > 3 {
        return None;
    }
    let mut value: u16 = 0;
    let mut i: usize = 0;
    let mut digits: Vec<u8> = Vec::new();
    while i < n
        invariant
            i <= n,
            n == s@.len(),
            1 <= n <= 3,
            digits@.len() == i,
            forall|j: int| 0 <= j < i ==> decimal_digit(s@[j]) == Some(#[trigger] digits@[j]),
        decreases n - i,
    {
        match read_decimal_digit(s[i]) {
            Some(d) => {
                digits.push(d);
            },
            None => {
                return None;
            },
        }
        i = i + 1;
    }
    if n == 1 {
        return Some(digits[0]);
    }
    if digits[0] == 0 {
        return None;
    }
    if n == 2 {
        return Some(10 * digits[0] + digits[1]);
    }
    value = 100 * (digits[0] as u16) + 10 * (digits[1] as u16) + (digits[2] as u16);
    if value <= 255 {
        Some(value as u8)
    } else {
        None
    }
}

/// The numbers that one to four hexadecimal digits write stay below 65536.
proof fn lemma_hex_number_bound(s: Seq<u8>)
    requires
        s.len() <= 4,
    ensures
        hex_number(s) matches Some(n) ==> 0 <= n < 65536,
        s.len() == 0 ==> hex_number(s) == Some(0int),
        hex_number(s) matches Some(n) ==> (s.len() <= 3 ==> n < 4096),
        hex_number(s) matches Some(n) ==> (s.len() <= 2 ==> n < 256),
        hex_number(s) matches Some(n) ==> (s.len() <= 1 ==> n < 16),
    decreases s.len(),
{
    if s.len() > 0 {
        lemma_hex_number_bound(s.drop_last());
    }
}

/// Reads a group of one to four hexadecimal digits.
pub fn read_hex_group(s: &[u8]) -> (group: Option<u16>)
    ensures
        group == hex_group(s@),
{
    let n = s.len();
    if n == 0 || n > 4 {
        return None;
    }
    let mut value: u16 = 0;
    let mut i: usize = 0;
    assert(s@.subrange(0, 0) =~= Seq::<u8>::empty());
    while i < n
        invariant
            i <= n,
            n == s@.len(),
            1 <= n <= 4,
            hex_number(s@.subrange(0, i as int)) == Some(value as int),
        decreases n - i,
    {
        let ghost so_far = s@.subrange(0, i as int);
        let ghost next = s@.subrange(0, i + 1);
        proof {
            assert(next.drop_last() =~= so_far);
            assert(next.last() == s@[i as int]);
            lemma_hex_number_bound(so_far);
        }
        match read_hex_digit(s[i]) {
            Some(d) => {
                assert(value < 4096);
                value = 16 * value + d as u16;
            },
            None => {
                proof {
                    lemma_hex_prefix_fails(s@, i + 1);
                }
                return None;
            },
        }
        i = i + 1;
    }
    assert(s@.subrange(0, n as int) =~= s@);
    Some(value)
}

/// Digits that fail to write a number up to some point fail as a whole.
proof fn lemma_hex_prefix_fails(s: Seq<u8>, upto: int)
    requires
        0 <= upto <= s.len(),
        hex_number(s.subrange(0, upto)) is None,
    ensures
        hex_number(s) is None,
    decreases s.len() - upto,
{
    if upto < s.len() {
        let next = s.subrange(0, upto + 1);
        assert(next.drop_last() =~= s.subrange(0, upto));
        lemma_hex_prefix_fails(s, upto + 1);
    } else {
        assert(s.subrange(0, upto) =~= s);
    }
}

/// Reads the groups of a colon-separated run.
fn read_groups(s: &[u8]) -> (groups: Option<Vec<u16>>)
    ensures
        match groups {
            Some(g) => ipv6_groups(s@) == Some(g@),
            None => ipv6_groups(s@) is None,
        },
{
    let mut groups: Vec<u16> = Vec::new();
    if s.len() == 0 {
        return Some(groups);
    }
    let pieces = split(s, COLON);
    let ghost all = pieces_view(pieces@);
    let mut i: usize = 0;
    assert(all.subrange(0, 0) =~= Seq::<Seq<u8>>::empty());
    while i < pieces.len()
        invariant
            i <= pieces@.len(),
            s@.len() != 0,
            all == pieces_view(pieces@),
            all == split_on(s@, COLON),
            hex_groups(all.subrange(0, i as int)) == Some(groups@),
        decreases pieces@.len() - i,
    {
        let ghost so_far = all.subrange(0, i as int);
        let ghost next = all.subrange(0, i + 1);
        proof {
            assert(next.drop_last() =~= so_far);
            assert(next.last() == pieces@[i as int]@);
        }
        match read_hex_group(pieces[i].as_slice()) {
            Some(group) => {
                groups.push(group);
            },
            None => {
                proof {
                    lemma_groups_prefix_fails(all, i + 1);
                }
                return None;
            },
        }
        i = i + 1;
    }
    assert(all.subrange(0, i as int) =~= all);
    Some(groups)
}

/// Pieces that fail to write groups up to some point fail as a whole.
proof fn lemma_groups_prefix_fails(pieces: Seq<Seq<u8>>, upto: int)
    requires
        0 <= upto <= pieces.len(),
        hex_groups(pieces.subrange(0, upto)) is None,
    ensures
        hex_groups(pieces) is None,
    decreases pieces.len() - upto,
{
    if upto < pieces.len() {
        let next = pieces.subrange(0, upto + 1);
        assert(next.drop_last() =~= pieces.subrange(0, upto));
        lemma_groups_prefix_fails(pieces, upto + 1);
    } else {
        assert(pieces.subrange(0, upto) =~= pieces);
    }
}

/// Finds the first double colon.
fn find_gap(s: &[u8]) -> (at: Option<usize>)
    ensures
        match at {
            Some(k) => first_gap_from(s@, 0) == Some(k as int) && k + 2 <= s@.len(),
            None => first_gap_from(s@, 0) is None,
        },
{
    let n = s.len();
    if n < 2 {
        return None;
    }
    let mut i: usize = 0;
    while i < n - 1
        invariant
            n == s@.len(),
            n >= 2,
            i <= n - 1,
            first_gap_from(s@, 0) == first_gap_from(s@, i as int),
        decreases n - i,
    {
        if s[i] == COLON && s[i + 1] == COLON {
            return Some(i);
        }
        i = i + 1;
    }
    None
}

/// The address that eight groups make.
fn join_groups(g: &Vec<u16>) -> (bits: u128)
    requires
        g@.len() == 8,
    ensures
        bits == groups_value(g@),
{
    ((g[0] as u128) << 112) | ((g[1] as u128) << 96) | ((g[2] as u128) << 80) | ((g[3] as u128)
        << 64) | ((g[4] as u128) << 48) | ((g[5] as u128) << 32) | ((g[6] as u128) << 16) | (
    g[7] as u128)
}

/// Reads an IPv6 address from a text without dots.
pub fn read_ipv6_text(s: &[u8]) -> (bits: Option<u128>)
    ensures
        bits == ipv6_from_text(s@),
{
    match find_gap(s) {
        None => match read_groups(s) {
            Some(groups) => if groups.len() == 8 {
                Some(join_groups(&groups))
            } else {
                None
            },
            None => None,
        },
        Some(k) => {
            let n = s.len();
            let head = read_groups(slice_subrange(s, 0, k));
            let tail = read_groups(slice_subrange(s, k + 2, n));
            match (head, tail) {
                (Some(head), Some(tail)) => {
                    if head.len() > 7 || tail.len() > 7 - head.len() {
                        return None;
                    }
                    let mut all: Vec<u16> = Vec::new();
                    let zeros = 8 - head.len() - tail.len();
                    let mut i: usize = 0;
                    while i < head.len()
                        invariant
                            i <= head@.len(),
                            all@ == head@.subrange(0, i as int),
                        decreases head@.len() - i,
                    {
                        all.push(head[i]);
                        assert(all@ =~= head@.subrange(0, i + 1));
                        i = i + 1;
                    }
                    assert(head@.subrange(0, i as int) =~= head@);
                    i = 0;
                    while i < zeros
                        invariant
                            i <= zeros,
                            all@ == head@ + zero_groups(i as int),
                        decreases zeros - i,
                    {
                        all.push(0);
                        assert(all@ =~= head@ + zero_groups(i + 1));
                        i = i + 1;
                    }
                    i = 0;
                    while i < tail.len()
                        invariant
                            i <= tail@.len(),
                            all@ == head@ + zero_groups(zeros as int) + tail@.subrange(0, i as int),
                        decreases tail@.len() - i,
                    {
                        all.push(tail[i]);
                        assert(all@ =~= head@ + zero_groups(zeros as int) + tail@.subrange(
                            0,
                            i + 1,
                        ));
                        i = i + 1;
                    }
                    assert(tail@.subrange(0, i as int) =~= tail@);
                    Some(join_groups(&all))
                },
                _ => None,
            }
        },
    }
}

/// Reads an IPv4 address from its labels, the least significant first.
fn reverse_dns_addr_v4(labels: &Vec<Vec<u8>>, count: usize) -> (bits: Option<u32>)
    requires
        count <= labels@.len(),
    ensures
        bits == ipv4_from_labels(pieces_view(labels@).subrange(0, count as int)),
{
    if count != 4 {
        return None;
    }
    let ghost parts = pieces_view(labels@).subrange(0, count as int);
    assert(parts[0] == labels@[0]@ && parts[1] == labels@[1]@ && parts[2] == labels@[2]@
        && parts[3] == labels@[3]@);
    let a = read_decimal_octet(labels[3].as_slice());
    let b = read_decimal_octet(labels[2].as_slice());
    let c = read_decimal_octet(labels[1].as_slice());
    let d = read_decimal_octet(labels[0].as_slice());
    match (a, b, c, d) {
        (Some(a), Some(b), Some(c), Some(d)) => Some(
            ((a as u32) << 24) | ((b as u32) << 16) | ((c as u32) << 8) | (d as u32),
        ),
        _ => None,
    }
}

/// Reads an IPv6 address from its labels, the least significant first.
fn reverse_dns_addr_v6(labels: &Vec<Vec<u8>>, count: usize) -> (bits: Option<u128>)
    requires
        count <= labels@.len(),
    ensures
        bits == ipv6_from_labels(pieces_view(labels@).subrange(0, count as int)),
{
    let ghost backwards = pieces_view(labels@).subrange(0, count as int).reverse();
    let mut text: Vec<u8> = Vec::new();
    let mut k: usize = 0;
    assert(backwards.subrange(0, 0) =~= Seq::<Seq<u8>>::empty());
    while k < count
        invariant
            k <= count <= labels@.len(),
            backwards == pieces_view(labels@).subrange(0, count as int).reverse(),
            text@ == grouped_text(backwards.subrange(0, k as int)),
        decreases count - k,
    {
        let ghost so_far = backwards.subrange(0, k as int);
        let ghost next = backwards.subrange(0, k + 1);
        proof {
            assert(next.drop_last() =~= so_far);
            assert(next.last() == labels@[count - 1 - k]@);
        }
        let ghost before = text@;
        if k > 0 && k % 4 == 0 {
            text.push(COLON);
        }
        let ghost with_colon = text@;
        text.extend_from_slice(labels[count - 1 - k].as_slice());
        assert(text@ == with_colon + labels@[count - 1 - k]@);
        k = k + 1;
    }
    assert(backwards.subrange(0, k as int) =~= backwards);
    read_ipv6_text(text.as_slice())
}

/// The address that a reverse-lookup name stands for, if it is one.
pub fn reverse_dns_addr(name: &str) -> (ip: Option<IpAddress>)
    ensures
        ip == reverse_name(name.spec_bytes()),
{
    let labels = split(name.as_bytes(), DOT);
    let n = labels.len();
    if n < 2 {
        return None;
    }
    let mut arpa_octets: Vec<u8> = Vec::new();
    arpa_octets.push(0x61);
    arpa_octets.push(0x72);
    arpa_octets.push(0x70);
    arpa_octets.push(0x61);
    assert(arpa_octets@ =~= arpa());
    let mut in_addr_octets: Vec<u8> = Vec::new();
    in_addr_octets.push(0x69);
    in_addr_octets.push(0x6e);
    in_addr_octets.push(0x2d);
    in_addr_octets.push(0x61);
    in_addr_octets.push(0x64);
    in_addr_octets.push(0x64);
    in_addr_octets.push(0x72);
    assert(in_addr_octets@ =~= in_addr());
    let mut ip6_octets: Vec<u8> = Vec::new();
    ip6_octets.push(0x69);
    ip6_octets.push(0x70);
    ip6_octets.push(0x36);
    assert(ip6_octets@ =~= ip6());
    if !octets_equal(labels[n - 1].as_slice(), arpa_octets.as_slice()) {
        return None;
    }
    if octets_equal(labels[n - 2].as_slice(), in_addr_octets.as_slice()) {
        match reverse_dns_addr_v4(&labels, n - 2) {
            Some(bits) => Some(IpAddress::V4(bits)),
            None => None,
        }
    } else if octets_equal(labels[n - 2].as_slice(), ip6_octets.as_slice()) {
        match reverse_dns_addr_v6(&labels, n - 2) {
            Some(bits) => Some(IpAddress::V6(bits)),
            None => None,
        }
    } else {
        None
    }
}

} // verus!
