//! The signer: a detached tag over a manifest's canonical bytes, keyed by
//! caller-supplied key material. The signer is stateless; key loading from
//! disk is a collaborator concern outside this library.
//!
//! The tag is a compact 64-bit keyed fold standing in for a real signature
//! algorithm, whose bit layout this design leaves open. Equal tags do not
//! guarantee equal bytes, so verification attests exactly what its contract
//! states — that a trusted key reproduces the tag — and no more.

use vstd::prelude::*;
use crate::error::Error;

verus! {

/// Supported signature algorithms.
#[derive(Clone, Copy, PartialEq, Eq, Structural, Debug)]
pub enum SigningAlg {
    Ps256,
    Es256,
}

/// A detached signature: the algorithm identifier and the authentication tag
/// computed over the key material and the signed bytes.
#[derive(Clone, Copy, PartialEq, Eq, Structural, Debug)]
pub struct Signature {
    pub alg: SigningAlg,
    pub tag: u64,
}

/// Seed of the tag fold.
pub const TAG_OFFSET: u64 = 0xcbf2_9ce4_8422_2325;

/// Multiplier of the tag fold.
pub const TAG_PRIME: u64 = 0x0000_0100_0000_01b3;

/// One step of the tag fold: mix one byte into the accumulator.
pub open spec fn tag_step(acc: u64, b: u8) -> u64 {
    ((((acc ^ (b as u64)) as u128) * (TAG_PRIME as u128)) % 0x1_0000_0000_0000_0000) as u64
}

/// Folds a byte sequence into the accumulator, first byte first.
pub open spec fn tag_fold(acc: u64, s: Seq<u8>) -> u64
    decreases s.len(),
{
    if s.len() == 0 {
        acc
    } else {
        tag_fold(tag_step(acc, s[0]), s.drop_first())
    }
}

/// The authentication tag over a message under the given key material.
pub open spec fn tag_of(key: Seq<u8>, msg: Seq<u8>) -> u64 {
    tag_fold(tag_fold(TAG_OFFSET, key), msg)
}

/// Mixes all bytes of `s` into the accumulator.
fn tag_feed(acc: u64, s: &Vec<u8>) -> (r: u64)
    ensures
        r == tag_fold(acc, s@),
{
    let mut a = acc;
    let mut i: usize = 0;
    proof {
        assert(s@.skip(0) =~= s@);
    }
    while i < s.len()
        invariant
            i <= s.len(),
            tag_fold(acc, s@) == tag_fold(a, s@.skip(i as int)),
        decreases s.len() - i,
    {
        proof {
            assert(s@.skip(i as int)[0] == s@[i as int]);
            assert(s@.skip(i as int).drop_first() =~= s@.skip(i as int + 1));
        }
        a = (((a ^ (s[i] as u64)) as u128 * (TAG_PRIME as u128)) % 0x1_0000_0000_0000_0000u128)
            as u64;
        i = i + 1;
    }
    proof {
        assert(s@.skip(s@.len() as int) =~= Seq::<u8>::empty());
    }
    a
}

/// Signs canonical manifest bytes with the given algorithm and key material.
/// Fails exactly when the key material is empty; the content digest the
/// caller binds against is already part of the canonical bytes.
pub fn sign_bytes(canonical: &Vec<u8>, alg: SigningAlg, key: &Vec<u8>) -> (r: Result<
    Signature,
    Error,
>)
    ensures
        r is Ok <==> key@.len() > 0,
        r matches Ok(sig) ==> sig == (Signature { alg, tag: tag_of(key@, canonical@) }),
        r is Err ==> r matches Err(Error::Signing),
{
    if key.len() == 0 {
        return Err(Error::Signing);
    }
    let seeded = tag_feed(TAG_OFFSET, key);
    let tag = tag_feed(seeded, canonical);
    Ok(Signature { alg, tag })
}

/// Checks a signature over canonical bytes against a set of trusted keys:
/// it verifies exactly when some non-empty trusted key reproduces the tag.
pub fn verify_bytes(canonical: &Vec<u8>, sig: Signature, trust_roots: &Vec<Vec<u8>>) -> (r: bool)
    ensures
        r <==> exists|i: int|
            0 <= i < trust_roots@.len() && trust_roots@[i]@.len() > 0 && sig.tag == tag_of(
                trust_roots@[i]@,
                canonical@,
            ),
{
    let mut i: usize = 0;
    while i < trust_roots.len()
        invariant
            i <= trust_roots.len(),
            forall|j: int|
                0 <= j < i ==> !((#[trigger] trust_roots@[j])@.len() > 0 && sig.tag == tag_of(
                    trust_roots@[j]@,
                    canonical@,
                )),
        decreases trust_roots.len() - i,
    {
        let key = &trust_roots[i];
        if key.len() > 0 {
            let seeded = tag_feed(TAG_OFFSET, key);
            let tag = tag_feed(seeded, canonical);
            if tag == sig.tag {
                return true;
            }
        }
        i = i + 1;
    }
    false
}

/// Parses an algorithm name. Exactly "ps256" and "es256" are supported; any
/// other name fails with `UnsupportedAlgorithm`.
pub fn parse_algorithm(name: &String) -> (r: Result<SigningAlg, Error>)
    ensures
        r matches Ok(a) ==> ((a == SigningAlg::Ps256 && name@ == "ps256"@) || (a
            == SigningAlg::Es256 && name@ == "es256"@)),
        r is Err <==> (name@ != "ps256"@ && name@ != "es256"@),
        r is Err ==> r matches Err(Error::UnsupportedAlgorithm),
{
    let ps = String::from_str("ps256");
    let es = String::from_str("es256");
    if name.eq(&ps) {
        Ok(SigningAlg::Ps256)
    } else if name.eq(&es) {
        Ok(SigningAlg::Es256)
    } else {
        Err(Error::UnsupportedAlgorithm)
    }
}

} // verus!
