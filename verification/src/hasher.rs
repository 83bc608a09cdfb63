//! The hash that binds the challenge to the polynomials.

use vstd::prelude::*;

use crate::field::{all_canonical, canonical, field_values, to_integers, FieldElement};

verus! {

/// The digest of a sequence of field elements under RPO-256, as computed by
/// `miden_crypto::hash::rpo::Rpo256::hash_elements`. Elements and digest are
/// given by their canonical representatives.
pub uninterp spec fn rpo256_digest(elements: Seq<u64>) -> Seq<u64>;

/// Calls `miden_crypto::hash::rpo::Rpo256::hash_elements` on the field
/// elements whose canonical representatives are `elements` and returns the
/// canonical representatives of the four elements of the digest.
///
/// The contract is taken on trust from miden-crypto: the digest is a function
/// of the elements alone, here given the name `rpo256_digest`, and
/// `Felt::as_int` returns the representative below the modulus.
#[verifier::external_body]
fn rpo256_hash_elements(elements: &[u64]) -> (digest: [u64; 4])
    requires
        all_canonical(elements@),
    ensures
        digest@ == rpo256_digest(elements@),
        all_canonical(digest@),
{
    let felts: Vec<miden_crypto::Felt> = elements.iter().map(
        |value| miden_crypto::Felt::new(*value),
    ).collect();
    let digest = miden_crypto::hash::rpo::Rpo256::hash_elements(&felts);
    [digest[0].as_int(), digest[1].as_int(), digest[2].as_int(), digest[3].as_int()]
}

/// The two field elements that bind a verification to the values hashed.
#[derive(Clone, Copy, Debug)]
pub struct Challenge(pub FieldElement, pub FieldElement);

/// The challenge that the digest of `elements` gives: its first two elements.
pub open spec fn challenge_values(elements: Seq<u64>) -> (u64, u64) {
    (rpo256_digest(elements)[0], rpo256_digest(elements)[1])
}

/// Picks the challenge out of a digest.
pub fn challenge_from_digest(digest: &[u64; 4]) -> (challenge: Challenge)
    ensures
        challenge.0@ == canonical(digest@[0] as int),
        challenge.1@ == canonical(digest@[1] as int),
{
    Challenge(FieldElement::new(digest[0]), FieldElement::new(digest[1]))
}

/// Hashes `elements` and derives the challenge from the digest.
pub fn derive_challenge(elements: &[FieldElement]) -> (challenge: Challenge)
    ensures
        (challenge.0@, challenge.1@) == challenge_values(field_values(elements@)),
{
    let values = to_integers(elements);
    let digest = rpo256_hash_elements(values.as_slice());
    challenge_from_digest(&digest)
}

} // verus!
