//! Splitting octet strings at a separator.

use crate::search::{first_index, lemma_first_index_at, lemma_first_index_none};
use vstd::prelude::*;
use vstd::slice::*;

verus! {

/// The condition that an octet is `wanted`.
pub open spec fn is_octet(wanted: u8) -> spec_fn(u8) -> bool {
    |b: u8| b == wanted
}

/// The pieces of `s` between occurrences of `sep`, in order. A string without
/// the separator is one piece; two separators in a row enclose an empty piece.
pub open spec fn split_on(s: Seq<u8>, sep: u8) -> Seq<Seq<u8>>
    decreases s.len(),
{
    match first_index(s, is_octet(sep)) {
        Some(i) => if 0 <= i < s.len() {
            seq![s.subrange(0, i)] + split_on(s.subrange(i + 1, s.len() as int), sep)
        } else {
            seq![s]
        },
        None => seq![s],
    }
}

/// The octet strings that a list of vectors holds.
pub open spec fn pieces_view(pieces: Seq<Vec<u8>>) -> Seq<Seq<u8>> {
    Seq::new(pieces.len(), |i: int| pieces[i]@)
}

/// Splits `bytes` at each occurrence of `sep`.
pub fn split(bytes: &[u8], sep: u8) -> (pieces: Vec<Vec<u8>>)
    ensures
        pieces_view(pieces@) == split_on(bytes@, sep),
        pieces@.len() >= 1,
{
    let len = bytes.len();
    let mut pieces: Vec<Vec<u8>> = Vec::new();
    let mut start: usize = 0;
    let mut i: usize = 0;
    assert(bytes@.subrange(0, len as int) =~= bytes@);
    assert(pieces_view(pieces@) =~= Seq::<Seq<u8>>::empty());
    while i < len
        invariant
            len == bytes@.len(),
            start <= i <= len,
            split_on(bytes@, sep) == pieces_view(pieces@) + split_on(
                bytes@.subrange(start as int, len as int),
                sep,
            ),
            forall|j: int| start <= j < i ==> bytes@[j] != sep,
        decreases len - i,
    {
        if bytes[i] == sep {
            let ghost rest = bytes@.subrange(start as int, len as int);
            let ghost before = pieces_view(pieces@);
            proof {
                assert forall|j: int| 0 <= j < i - start implies !is_octet(sep)(#[trigger] rest[j]) by {
                    assert(rest[j] == bytes@[start + j]);
                }
                assert(rest[i - start] == bytes@[i as int]);
                lemma_first_index_at(rest, is_octet(sep), i - start);
                assert(rest.subrange(0, i - start) =~= bytes@.subrange(start as int, i as int));
                assert(rest.subrange(i - start + 1, rest.len() as int) =~= bytes@.subrange(
                    i + 1,
                    len as int,
                ));
            }
            pieces.push(slice_to_vec(slice_subrange(bytes, start, i)));
            assert(pieces_view(pieces@) =~= before + seq![bytes@.subrange(start as int, i as int)]);
            start = i + 1;
        }
        i = i + 1;
    }
    let ghost rest = bytes@.subrange(start as int, len as int);
    let ghost before = pieces_view(pieces@);
    proof {
        assert forall|j: int| 0 <= j < rest.len() implies !is_octet(sep)(#[trigger] rest[j]) by {
            assert(rest[j] == bytes@[start + j]);
        }
        lemma_first_index_none(rest, is_octet(sep));
    }
    pieces.push(slice_to_vec(slice_subrange(bytes, start, len)));
    assert(pieces_view(pieces@) =~= before + seq![rest]);
    pieces
}

/// Whether two octet strings are the same.
pub fn octets_equal(a: &[u8], b: &[u8]) -> (same: bool)
    ensures
        same == (a@ == b@),
{
    if a.len() != b.len() {
        return false;
    }
    let mut i: usize = 0;
    while i < a.len()
        invariant
            i <= a@.len(),
            a@.len() == b@.len(),
            forall|j: int| 0 <= j < i ==> a@[j] == b@[j],
        decreases a@.len() - i,
    {
        if a[i] != b[i] {
            return false;
        }
        i = i + 1;
    }
    assert(a@ =~= b@);
    true
}

} // verus!
