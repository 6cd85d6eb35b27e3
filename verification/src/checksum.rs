//! The Internet checksum: the one's complement of the one's-complement sum
//! of the data taken as 16-bit big-endian words.

use vstd::prelude::*;

verus! {

/// The sum of the 16-bit big-endian words of `data`. A last odd octet counts
/// as the high octet of a word.
pub open spec fn word_sum(data: Seq<u8>) -> nat
    decreases data.len(),
{
    if data.len() == 0 {
        0
    } else if data.len() == 1 {
        (data[0] * 256) as nat
    } else {
        (data[0] * 256 + data[1]) as nat + word_sum(data.skip(2))
    }
}

/// A sum folded into 16 bits with end-around carry: zero stays zero, any
/// other sum lands in 1..=0xffff.
pub open spec fn fold16(sum: nat) -> nat {
    if sum == 0 {
        0
    } else {
        ((sum - 1) % 0xffff + 1) as nat
    }
}

/// The checksum that goes with data whose words sum to `sum`.
pub open spec fn checksum_of(sum: nat) -> u16 {
    (0xffff - fold16(sum)) as u16
}

/// Whether data whose words, checksum included, sum to `sum` passes the
/// receiver's test.
pub open spec fn checksum_holds(sum: nat) -> bool {
    fold16(sum) == 0xffff
}

/// Data that carries its own checksum passes the receiver's test.
pub proof fn lemma_checksum_validates(sum: nat)
    ensures
        checksum_holds((sum + checksum_of(sum)) as nat),
{
    if sum > 0 {
        let f = fold16(sum);
        let k = (sum - 1) / 0xffff;
        assert(sum - 1 == 0xffff * k + (sum - 1) % 0xffff) by (nonlinear_arith)
            requires
                k == (sum - 1) / 0xffff,
        ;
        let total = sum + checksum_of(sum);
        assert(total - 1 == 0xffff * k + 0xfffe) by (nonlinear_arith)
            requires
                sum - 1 == 0xffff * k + (f - 1),
                total == sum + (0xffff - f),
        ;
        assert((0xffff * k + 0xfffe) % 0xffff == 0xfffe) by (nonlinear_arith)
            requires
                k >= 0,
        ;
    }
}

/// The words of two runs of octets, the first of even length, sum to the sum
/// of both.
pub proof fn lemma_word_sum_concat(a: Seq<u8>, b: Seq<u8>)
    requires
        a.len() % 2 == 0,
    ensures
        word_sum(a + b) == word_sum(a) + word_sum(b),
    decreases a.len(),
{
    if a.len() == 0 {
        assert(a + b =~= b);
    } else {
        assert((a + b).skip(2) =~= a.skip(2) + b);
        lemma_word_sum_concat(a.skip(2), b);
    }
}

/// Every word is at most 0xffff, so the sum is at most that for each word.
pub proof fn lemma_word_sum_bound(data: Seq<u8>)
    ensures
        word_sum(data) <= 0xffff * ((data.len() + 1) / 2),
    decreases data.len(),
{
    if data.len() >= 2 {
        lemma_word_sum_bound(data.skip(2));
    }
}

/// Writing a word over a zero word at an even offset adds it to the sum.
pub proof fn lemma_word_sum_fill(data: Seq<u8>, at: int, high: u8, low: u8)
    requires
        0 <= at,
        at % 2 == 0,
        at + 2 <= data.len(),
        data[at] == 0,
        data[at + 1] == 0,
    ensures
        word_sum(data.update(at, high).update(at + 1, low)) == word_sum(data) + high * 256
            + low,
    decreases at,
{
    let filled = data.update(at, high).update(at + 1, low);
    if at == 0 {
        assert(filled.skip(2) =~= data.skip(2));
    } else {
        assert(filled.skip(2) =~= data.skip(2).update(at - 2, high).update(at - 1, low));
        lemma_word_sum_fill(data.skip(2), at - 2, high, low);
    }
}

/// Sums the 16-bit big-endian words of `data`.
pub fn sum_words(data: &[u8]) -> (sum: u64)
    requires
        data@.len() <= 0x1_0000_0000,
    ensures
        sum == word_sum(data@),
{
    let len = data.len();
    let mut sum: u64 = 0;
    let mut i: usize = 0;
    proof {
        assert(data@.subrange(0, 0) =~= Seq::<u8>::empty());
    }
    while i + 1 < len
        invariant
            len == data@.len(),
            len <= 0x1_0000_0000,
            i <= len,
            i % 2 == 0,
            sum == word_sum(data@.subrange(0, i as int)),
            sum <= 0xffff * (i / 2),
        decreases len - i,
    {
        proof {
            let done = data@.subrange(0, i as int);
            let word = data@.subrange(i as int, i + 2);
            assert(data@.subrange(0, i + 2) =~= done + word);
            lemma_word_sum_concat(done, word);
            assert(word.skip(2) =~= Seq::<u8>::empty());
            assert(word_sum(word.skip(2)) == 0);
            assert(word_sum(word) == data@[i as int] * 256 + data@[i + 1]);
        }
        sum = sum + (data[i] as u64) * 256 + data[i + 1] as u64;
        i = i + 2;
    }
    if i < len {
        proof {
            let done = data@.subrange(0, i as int);
            let last = data@.subrange(i as int, len as int);
            assert(data@ =~= done + last);
            lemma_word_sum_concat(done, last);
        }
        sum = sum + (data[i] as u64) * 256;
    } else {
        assert(data@.subrange(0, i as int) =~= data@);
    }
    sum
}

/// The checksum that goes with data whose words sum to `sum`.
pub fn finish_checksum(sum: u64) -> (checksum: u16)
    ensures
        checksum == checksum_of(sum as nat),
{
    if sum == 0 {
        0xffff
    } else {
        (0xffff - ((sum - 1) % 0xffff + 1)) as u16
    }
}

} // verus!
