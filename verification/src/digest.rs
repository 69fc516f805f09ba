//! Content digest: a compact summary of an asset's content bytes that a
//! manifest is bound to at signing time. Changing any single content byte
//! changes the digest (`lemma_digest_detects_single_flip`).

use vstd::prelude::*;
use vstd::arithmetic::div_mod::{lemma_mod_equivalence, lemma_small_mod};

verus! {

/// Modulus for the byte-sum component of a digest: 2^64.
pub const SUM_MODULUS: u128 = 0x1_0000_0000_0000_0000;

/// Digest of a byte string: its length and its byte sum reduced modulo 2^64.
#[derive(Clone, Copy, PartialEq, Eq, Structural, Debug)]
pub struct ContentDigest {
    pub len: u64,
    pub sum: u64,
}

/// Mathematical sum of a byte sequence.
pub open spec fn sum_of_bytes(s: Seq<u8>) -> nat
    decreases s.len(),
{
    if s.len() == 0 {
        0
    } else {
        (sum_of_bytes(s.drop_last()) + s.last()) as nat
    }
}

/// The digest a byte sequence is expected to carry.
pub open spec fn digest_of(s: Seq<u8>) -> ContentDigest {
    ContentDigest {
        len: s.len() as u64,
        sum: (sum_of_bytes(s) % (SUM_MODULUS as nat)) as u64,
    }
}

/// The byte sum never exceeds 255 per byte.
pub proof fn lemma_sum_bound(s: Seq<u8>)
    ensures
        sum_of_bytes(s) <= 255 * s.len(),
    decreases s.len(),
{
    if s.len() > 0 {
        lemma_sum_bound(s.drop_last());
    }
}

/// Computes the digest of the given bytes.
pub fn compute_digest(b: &Vec<u8>) -> (d: ContentDigest)
    ensures
        d == digest_of(b@),
{
    let mut i: usize = 0;
    let mut acc: u128 = 0;
    while i < b.len()
        invariant
            i <= b.len(),
            acc == sum_of_bytes(b@.take(i as int)),
            acc <= 255 * (i as int),
        decreases b.len() - i,
    {
        proof {
            assert(b@.take(i as int + 1).drop_last() =~= b@.take(i as int));
            lemma_sum_bound(b@.take(i as int + 1));
        }
        acc = acc + b[i] as u128;
        i = i + 1;
    }
    proof {
        assert(b@.take(b.len() as int) =~= b@);
    }
    ContentDigest { len: b.len() as u64, sum: (acc % SUM_MODULUS) as u64 }
}

/// Two equally long byte strings that differ in one position have sums that
/// differ by that position's difference.
proof fn lemma_sum_flip_difference(s1: Seq<u8>, s2: Seq<u8>, i: int)
    requires
        s1.len() == s2.len(),
        0 <= i < s1.len(),
        forall|j: int| 0 <= j < s1.len() && j != i ==> s1[j] == s2[j],
    ensures
        sum_of_bytes(s1) + s2[i] == sum_of_bytes(s2) + s1[i],
    decreases s1.len(),
{
    if i == s1.len() - 1 {
        assert(s1.drop_last() =~= s2.drop_last());
    } else {
        lemma_sum_flip_difference(s1.drop_last(), s2.drop_last(), i);
    }
}

/// Flipping any one byte of a byte string changes its digest.
pub proof fn lemma_digest_detects_single_flip(s1: Seq<u8>, s2: Seq<u8>, i: int)
    requires
        s1.len() == s2.len(),
        0 <= i < s1.len(),
        s1[i] != s2[i],
        forall|j: int| 0 <= j < s1.len() && j != i ==> s1[j] == s2[j],
    ensures
        digest_of(s1) != digest_of(s2),
{
    lemma_sum_flip_difference(s1, s2, i);
    let a = sum_of_bytes(s1) as int;
    let b = sum_of_bytes(s2) as int;
    let m = SUM_MODULUS as int;
    if a % m == b % m {
        if a < b {
            lemma_mod_equivalence(b, a, m);
            lemma_small_mod((b - a) as nat, m as nat);
        } else {
            lemma_mod_equivalence(a, b, m);
            lemma_small_mod((a - b) as nat, m as nat);
        }
        assert(false);
    }
}

} // verus!
