//! Reverse-lookup names, and the proof that reading one gives back the
//! address that it was made of.

use crate::ip::{v4_bits, IpAddress};
use crate::reverse::{
    arpa, decimal_digit, decimal_octet, first_gap_from, gap_at, grouped_text, groups_value,
    hex_digit, hex_group, hex_groups, hex_number, in_addr, ip6, ipv4_from_labels,
    ipv6_from_labels, ipv6_from_text, ipv6_groups, reverse_name, COLON, DOT,
};
use crate::search::{lemma_first_index_at, lemma_first_index_none};
use crate::text::{is_octet, split_on};
use vstd::prelude::*;

verus! {

/// The pieces written one after another with `sep` between them.
pub open spec fn join_with(pieces: Seq<Seq<u8>>, sep: u8) -> Seq<u8>
    decreases pieces.len(),
{
    if pieces.len() == 0 {
        Seq::empty()
    } else if pieces.len() == 1 {
        pieces[0]
    } else {
        pieces[0] + seq![sep] + join_with(pieces.drop_first(), sep)
    }
}

/// Whether `sep` does not occur in `piece`.
pub open spec fn free_of(piece: Seq<u8>, sep: u8) -> bool {
    forall|i: int| 0 <= i < piece.len() ==> piece[i] != sep
}

/// Splitting what was joined gives the pieces back, if there is at least
/// one and none holds the separator.
pub proof fn lemma_split_join(pieces: Seq<Seq<u8>>, sep: u8)
    requires
        pieces.len() >= 1,
        forall|k: int| 0 <= k < pieces.len() ==> free_of(#[trigger] pieces[k], sep),
    ensures
        split_on(join_with(pieces, sep), sep) == pieces,
    decreases pieces.len(),
{
    let joined = join_with(pieces, sep);
    let first = pieces[0];
    assert(free_of(first, sep));
    if pieces.len() == 1 {
        assert forall|j: int| 0 <= j < joined.len() implies !is_octet(sep)(#[trigger] joined[j]) by {}
        lemma_first_index_none(joined, is_octet(sep));
        assert(seq![joined] =~= pieces);
    } else {
        let rest = pieces.drop_first();
        let tail = join_with(rest, sep);
        assert(joined == first + seq![sep] + tail);
        let at = first.len() as int;
        assert(joined[at] == sep);
        assert forall|j: int| 0 <= j < at implies !is_octet(sep)(#[trigger] joined[j]) by {
            assert(joined[j] == first[j]);
        }
        lemma_first_index_at(joined, is_octet(sep), at);
        assert(joined.subrange(0, at) =~= first);
        assert(joined.subrange(at + 1, joined.len() as int) =~= tail);
        assert forall|k: int| 0 <= k < rest.len() implies free_of(#[trigger] rest[k], sep) by {
            assert(rest[k] == pieces[k + 1]);
        }
        lemma_split_join(rest, sep);
        assert(seq![first] + rest =~= pieces);
    }
}

/// The character of a decimal digit.
pub open spec fn digit_char(d: u8) -> u8 {
    (0x30 + d) as u8
}

/// An octet written in decimal, without leading zeros.
pub open spec fn decimal_text(v: u8) -> Seq<u8> {
    if v < 10 {
        seq![digit_char(v)]
    } else if v < 100 {
        seq![digit_char(v / 10), digit_char(v % 10)]
    } else {
        seq![digit_char(v / 100), digit_char((v / 10) % 10), digit_char(v % 10)]
    }
}

/// An octet written in decimal reads back as itself, and holds no dot.
pub proof fn lemma_decimal_text(v: u8)
    ensures
        decimal_octet(decimal_text(v)) == Some(v),
        free_of(decimal_text(v), DOT),
{
    let text = decimal_text(v);
    if v < 10 {
        assert(text.len() == 1 && text[0] == digit_char(v));
    } else if v < 100 {
        assert(text.len() == 2 && text[0] == digit_char(v / 10) && text[1] == digit_char(v % 10));
        assert(decimal_digit(text[0]) == Some((v / 10) as u8));
        assert(decimal_digit(text[1]) == Some((v % 10) as u8));
    } else {
        assert(text.len() == 3 && text[0] == digit_char(v / 100) && text[1] == digit_char(
            (v / 10) % 10,
        ) && text[2] == digit_char(v % 10));
        assert(decimal_digit(text[0]) == Some((v / 100) as u8));
        assert(decimal_digit(text[1]) == Some(((v / 10) % 10) as u8));
        assert(decimal_digit(text[2]) == Some((v % 10) as u8));
    }
}

/// The octet of an IPv4 address at `at`, counting from the least
/// significant at 0.
pub open spec fn v4_octet(bits: u32, at: int) -> u8 {
    ((bits >> ((8 * at) as u32)) & 0xff) as u8
}

/// The labels of the reverse-lookup name of an IPv4 address: its octets in
/// decimal, the least significant first, then `in-addr` and `arpa`.
pub open spec fn ptr_labels_v4(bits: u32) -> Seq<Seq<u8>> {
    seq![
        decimal_text(v4_octet(bits, 0)),
        decimal_text(v4_octet(bits, 1)),
        decimal_text(v4_octet(bits, 2)),
        decimal_text(v4_octet(bits, 3)),
        in_addr(),
        arpa(),
    ]
}

/// The reverse-lookup name of an IPv4 address.
pub open spec fn ptr_name_v4(bits: u32) -> Seq<u8> {
    join_with(ptr_labels_v4(bits), DOT)
}

/// Reading the reverse-lookup name of an IPv4 address gives the address.
pub proof fn lemma_reverse_inverts_v4(bits: u32)
    ensures
        reverse_name(ptr_name_v4(bits)) == Some(IpAddress::V4(bits)),
{
    let labels = ptr_labels_v4(bits);
    lemma_decimal_text(v4_octet(bits, 0));
    lemma_decimal_text(v4_octet(bits, 1));
    lemma_decimal_text(v4_octet(bits, 2));
    lemma_decimal_text(v4_octet(bits, 3));
    assert(free_of(in_addr(), DOT));
    assert(free_of(arpa(), DOT));
    lemma_split_join(labels, DOT);
    let address = labels.subrange(0, 4);
    assert(address[0] == labels[0] && address[1] == labels[1] && address[2] == labels[2]
        && address[3] == labels[3]);
    assert(in_addr().len() == 7 && arpa().len() == 4);
    let a = v4_octet(bits, 3);
    let b = v4_octet(bits, 2);
    let c = v4_octet(bits, 1);
    let d = v4_octet(bits, 0);
    assert(ipv4_from_labels(address) == Some(v4_bits(a, b, c, d)));
    let a32 = (bits >> 24u32) & 0xff;
    let b32 = (bits >> 16u32) & 0xff;
    let c32 = (bits >> 8u32) & 0xff;
    let d32 = (bits >> 0u32) & 0xff;
    assert(a32 <= 0xff && b32 <= 0xff && c32 <= 0xff && d32 <= 0xff && ((a32 << 24u32) | (b32
        << 16u32) | (c32 << 8u32) | d32) == bits) by (bit_vector)
        requires
            a32 == (bits >> 24u32) & 0xff,
            b32 == (bits >> 16u32) & 0xff,
            c32 == (bits >> 8u32) & 0xff,
            d32 == (bits >> 0u32) & 0xff,
    ;
    assert(a as u32 == a32 && b as u32 == b32 && c as u32 == c32 && d as u32 == d32);
}

/// The character of a hexadecimal digit, in small letters.
pub open spec fn hex_char(n: u8) -> u8 {
    if n < 10 {
        (0x30 + n) as u8
    } else {
        (0x61 + n - 10) as u8
    }
}

/// The four bits of an IPv6 address at `at`, counting from the least
/// significant at 0.
pub open spec fn nibble(bits: u128, at: int) -> u8 {
    ((bits >> ((4 * at) as u128)) & 0xf) as u8
}

/// The labels of the address part of the reverse-lookup name of an IPv6
/// address: its thirty-two hexadecimal digits, the least significant first.
pub open spec fn nibble_labels(bits: u128) -> Seq<Seq<u8>> {
    Seq::new(32, |k: int| seq![hex_char(nibble(bits, k))])
}

/// The labels of the reverse-lookup name of an IPv6 address: its digits,
/// then `ip6` and `arpa`.
pub open spec fn ptr_labels_v6(bits: u128) -> Seq<Seq<u8>> {
    nibble_labels(bits) + seq![ip6(), arpa()]
}

/// The reverse-lookup name of an IPv6 address.
pub open spec fn ptr_name_v6(bits: u128) -> Seq<u8> {
    join_with(ptr_labels_v6(bits), DOT)
}

/// The address written in full: eight groups of four digits, the most
/// significant first, with colons between them.
pub open spec fn full_text(bits: u128) -> Seq<u8> {
    Seq::new(
        39,
        |i: int|
            if i % 5 == 4 {
                COLON
            } else {
                hex_char(nibble(bits, 31 - (i - i / 5)))
            },
    )
}

/// The group of four digits at place `j` of the full text.
pub open spec fn full_group(bits: u128, j: int) -> Seq<u8> {
    full_text(bits).subrange(5 * j, 5 * j + 4)
}

/// The sixteen bits of an IPv6 address at place `j`, counting from the most
/// significant at 0.
pub open spec fn group_bits(bits: u128, j: int) -> u16 {
    ((bits >> ((16 * (7 - j)) as u128)) & 0xffff) as u16
}

/// A digit is below sixteen, its character reads back as itself and is
/// neither a dot nor a colon.
proof fn lemma_hex_char(bits: u128, at: int)
    requires
        0 <= at < 32,
    ensures
        nibble(bits, at) < 16,
        hex_digit(hex_char(nibble(bits, at))) == Some(nibble(bits, at)),
        hex_char(nibble(bits, at)) != DOT,
        hex_char(nibble(bits, at)) != COLON,
{
    let shift = (4 * at) as u128;
    assert((bits >> shift) & 0xf < 16) by (bit_vector);
}

/// The labels of an address, taken last to first and written four to a
/// group, make the first characters of the full text.
proof fn lemma_grouped_prefix(bits: u128, k: int)
    requires
        0 <= k <= 32,
    ensures
        grouped_text(nibble_labels(bits).reverse().subrange(0, k)) == full_text(bits).subrange(
            0,
            if k == 0 {
                0
            } else {
                k + (k - 1) / 4
            },
        ),
    decreases k,
{
    let backwards = nibble_labels(bits).reverse();
    let prefix = backwards.subrange(0, k);
    if k == 0 {
        assert(grouped_text(prefix) =~= full_text(bits).subrange(0, 0));
    } else {
        lemma_grouped_prefix(bits, k - 1);
        let j = k - 1;
        assert(prefix.drop_last() =~= backwards.subrange(0, j));
        assert(prefix.last() == seq![hex_char(nibble(bits, 31 - j))]);
        let before = if j == 0 {
            0
        } else {
            j + (j - 1) / 4
        };
        let here = j + j / 4;
        assert(here / 5 == j / 4);
        assert(here % 5 != 4);
        if j > 0 && j % 4 == 0 {
            assert(before + 1 == here);
            assert(before % 5 == 4);
        } else {
            assert(before == here);
        }
        assert(grouped_text(prefix) =~= full_text(bits).subrange(0, here + 1));
    }
}

/// The full text has no double colon.
proof fn lemma_no_gap(bits: u128, from: int)
    requires
        0 <= from <= 39,
    ensures
        first_gap_from(full_text(bits), from) is None,
    decreases 39 - from,
{
    let text = full_text(bits);
    if from + 1 < 39 {
        if from % 5 != 4 {
            lemma_hex_char(bits, 31 - (from - from / 5));
        }
        if text[from] == COLON {
            assert(from % 5 == 4);
            assert((from + 1) % 5 == 0);
            assert((from + 1) - (from + 1) / 5 >= 0 && 31 - ((from + 1) - (from + 1) / 5) >= 0);
            lemma_hex_char(bits, 31 - ((from + 1) - (from + 1) / 5));
        }
        assert(!gap_at(text, from));
        lemma_no_gap(bits, from + 1);
    }
}

/// The groups of the full text from place `j` on, joined with colons, are
/// the full text from that group on.
proof fn lemma_groups_join(bits: u128, j: int)
    requires
        0 <= j <= 7,
    ensures
        join_with(Seq::new(8, |g: int| full_group(bits, g)).subrange(j, 8), COLON) == full_text(
            bits,
        ).subrange(5 * j, 39),
    decreases 7 - j,
{
    let text = full_text(bits);
    let groups = Seq::new(8, |g: int| full_group(bits, g));
    let pieces = groups.subrange(j, 8);
    assert(pieces[0] == full_group(bits, j));
    if j == 7 {
        assert(pieces.len() == 1);
        assert(full_group(bits, 7) =~= text.subrange(35, 39));
    } else {
        lemma_groups_join(bits, j + 1);
        assert(pieces.drop_first() =~= groups.subrange(j + 1, 8));
        assert(text[5 * j + 4] == COLON);
        assert(full_group(bits, j) + seq![COLON] + text.subrange(5 * (j + 1), 39)
            =~= text.subrange(5 * j, 39));
    }
}

/// The arithmetic of four digits gives the sixteen bits that they stand for.
proof fn lemma_group_value(bits: u128, j: int)
    requires
        0 <= j <= 7,
    ensures
        hex_group(full_group(bits, j)) == Some(group_bits(bits, j)),
        free_of(full_group(bits, j), COLON),
{
    let text = full_text(bits);
    let group = full_group(bits, j);
    let low = 4 * (7 - j);
    assert(group.len() == 4);
    assert forall|t: int| 0 <= t < 4 implies group[t] == hex_char(nibble(bits, low + 3 - t)) by {
        let i = 5 * j + t;
        assert(group[t] == text[i]);
        assert(i / 5 == j);
        assert(i % 5 == t);
    }
    lemma_hex_char(bits, low);
    lemma_hex_char(bits, low + 1);
    lemma_hex_char(bits, low + 2);
    lemma_hex_char(bits, low + 3);
    let n3 = nibble(bits, low + 3);
    let n2 = nibble(bits, low + 2);
    let n1 = nibble(bits, low + 1);
    let n0 = nibble(bits, low);
    let g1 = group.drop_last();
    let g2 = g1.drop_last();
    let g3 = g2.drop_last();
    assert(g3.drop_last().len() == 0);
    assert(hex_number(g3.drop_last()) == Some(0int));
    assert(g3.last() == group[0] && g2.last() == group[1] && g1.last() == group[2] && group.last()
        == group[3]);
    assert(hex_number(g3) == Some(n3 as int));
    assert(hex_number(g2) == Some(16 * n3 + n2));
    assert(hex_number(g1) == Some(16 * (16 * n3 + n2) + n1));
    assert(hex_number(group) == Some(16 * (16 * (16 * n3 + n2) + n1) + n0));
    let s = (16 * (7 - j)) as u128;
    let w = (bits >> s) & 0xffff;
    let m3 = (bits >> ((s + 12) as u128)) & 0xf;
    let m2 = (bits >> ((s + 8) as u128)) & 0xf;
    let m1 = (bits >> ((s + 4) as u128)) & 0xf;
    let m0 = (bits >> s) & 0xf;
    let s12 = (s + 12) as u128;
    let s8 = (s + 8) as u128;
    let s4 = (s + 4) as u128;
    assert(m3 <= 15 && m2 <= 15 && m1 <= 15 && m0 <= 15 && w == 4096 * m3 + 256 * m2 + 16 * m1
        + m0) by (bit_vector)
        requires
            s <= 112,
            s12 == s + 12,
            s8 == s + 8,
            s4 == s + 4,
            w == (bits >> s) & 0xffff,
            m3 == (bits >> s12) & 0xf,
            m2 == (bits >> s8) & 0xf,
            m1 == (bits >> s4) & 0xf,
            m0 == (bits >> s) & 0xf,
    ;
    assert(w <= 0xffff) by (bit_vector)
        requires
            w == (bits >> s) & 0xffff,
    ;
    assert(4 * (low + 3) == s + 12 && 4 * (low + 2) == s + 8 && 4 * (low + 1) == s + 4 && 4 * low
        == s);
    assert(n3 == m3 && n2 == m2 && n1 == m1 && n0 == m0);
    assert forall|t: int| 0 <= t < 4 implies group[t] != COLON by {
        lemma_hex_char(bits, low + 3 - t);
    }
}

/// The groups of the full text from the first to place `upto`, read as
/// numbers, are the address's sixteen-bit parts.
proof fn lemma_groups_read(bits: u128, upto: int)
    requires
        0 <= upto <= 8,
    ensures
        hex_groups(Seq::new(8, |g: int| full_group(bits, g)).subrange(0, upto)) == Some(
            Seq::new(upto as nat, |g: int| group_bits(bits, g)),
        ),
    decreases upto,
{
    let groups = Seq::new(8, |g: int| full_group(bits, g));
    let pieces = groups.subrange(0, upto);
    if upto == 0 {
        assert(Seq::new(0, |g: int| group_bits(bits, g)) =~= Seq::<u16>::empty());
    } else {
        lemma_groups_read(bits, upto - 1);
        lemma_group_value(bits, upto - 1);
        assert(pieces.drop_last() =~= groups.subrange(0, upto - 1));
        assert(pieces.last() == full_group(bits, upto - 1));
        assert(Seq::new((upto - 1) as nat, |g: int| group_bits(bits, g)).push(
            group_bits(bits, upto - 1),
        ) =~= Seq::new(upto as nat, |g: int| group_bits(bits, g)));
    }
}

/// Reading the reverse-lookup name of an IPv6 address gives the address.
pub proof fn lemma_reverse_inverts_v6(bits: u128)
    ensures
        reverse_name(ptr_name_v6(bits)) == Some(IpAddress::V6(bits)),
{
    let labels = ptr_labels_v6(bits);
    assert forall|k: int| 0 <= k < labels.len() implies free_of(#[trigger] labels[k], DOT) by {
        if k < 32 {
            lemma_hex_char(bits, k);
            assert(labels[k] == seq![hex_char(nibble(bits, k))]);
        } else if k == 32 {
            assert(labels[k] == ip6());
        } else {
            assert(labels[k] == arpa());
        }
    }
    lemma_split_join(labels, DOT);
    assert(labels.len() == 34);
    assert(labels[33] == arpa());
    assert(labels[32] == ip6());
    assert(ip6().len() == 3 && in_addr().len() == 7);
    let address = labels.subrange(0, 32);
    assert(address =~= nibble_labels(bits));
    // the text that the labels make
    let text = full_text(bits);
    lemma_grouped_prefix(bits, 32);
    assert(nibble_labels(bits).reverse().subrange(0, 32) =~= nibble_labels(bits).reverse());
    assert(text.subrange(0, 39) =~= text);
    assert(grouped_text(address.reverse()) == text);
    // the groups that the text holds
    lemma_no_gap(bits, 0);
    let groups = Seq::new(8, |g: int| full_group(bits, g));
    lemma_groups_join(bits, 0);
    assert(groups.subrange(0, 8) =~= groups);
    assert(text.subrange(0, 39) =~= text);
    assert forall|k: int| 0 <= k < groups.len() implies free_of(#[trigger] groups[k], COLON) by {
        lemma_group_value(bits, k);
    }
    lemma_split_join(groups, COLON);
    lemma_groups_read(bits, 8);
    let values = Seq::new(8, |g: int| group_bits(bits, g));
    assert(ipv6_groups(text) == Some(values));
    // the address that the groups make
    let w0 = (bits >> 112u128) & 0xffff;
    let w1 = (bits >> 96u128) & 0xffff;
    let w2 = (bits >> 80u128) & 0xffff;
    let w3 = (bits >> 64u128) & 0xffff;
    let w4 = (bits >> 48u128) & 0xffff;
    let w5 = (bits >> 32u128) & 0xffff;
    let w6 = (bits >> 16u128) & 0xffff;
    let w7 = (bits >> 0u128) & 0xffff;
    assert(w0 <= 0xffff && w1 <= 0xffff && w2 <= 0xffff && w3 <= 0xffff && w4 <= 0xffff && w5
        <= 0xffff && w6 <= 0xffff && w7 <= 0xffff && ((w0 << 112u128) | (w1 << 96u128) | (w2
        << 80u128) | (w3 << 64u128) | (w4 << 48u128) | (w5 << 32u128) | (w6 << 16u128) | w7)
        == bits) by (bit_vector)
        requires
            w0 == (bits >> 112u128) & 0xffff,
            w1 == (bits >> 96u128) & 0xffff,
            w2 == (bits >> 80u128) & 0xffff,
            w3 == (bits >> 64u128) & 0xffff,
            w4 == (bits >> 48u128) & 0xffff,
            w5 == (bits >> 32u128) & 0xffff,
            w6 == (bits >> 16u128) & 0xffff,
            w7 == (bits >> 0u128) & 0xffff,
    ;
    assert(values[0] as u128 == w0 && values[1] as u128 == w1 && values[2] as u128 == w2
        && values[3] as u128 == w3 && values[4] as u128 == w4 && values[5] as u128 == w5
        && values[6] as u128 == w6 && values[7] as u128 == w7);
    assert(groups_value(values) == bits);
    assert(ipv6_from_text(text) == Some(bits));
    assert(ipv6_from_labels(address) == Some(bits));
}

} // verus!
