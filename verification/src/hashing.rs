//! The hash primitive behind the commitment scheme.
//!
//! Creators commit to an answer by publishing its digest; the ledger
//! validates a submitted answer by recomputing the digest and comparing it
//! to the stored commitment. The digest itself is computed by an outside
//! hash implementation; its value is named by the uninterpreted function
//! [`hash_of`], so contracts can say exactly "the digest of this answer"
//! without restating the hash algorithm.

use vstd::prelude::*;

verus! {

/// The digest that the commitment hash function assigns to an answer
/// string. A commitment matches an answer exactly when it equals
/// `hash_of` of that answer's characters.
pub uninterp spec fn hash_of(answer: Seq<char>) -> Seq<u8>;

/// Relies on sha2::Sha256 (through digest::Digest::digest): the digest is
/// a pure function of the input bytes, so of the answer's characters, and
/// is exactly 32 bytes long.
#[verifier::external_body]
pub(crate) fn hash_answer(answer: &str) -> (digest: Vec<u8>)
    ensures
        digest@ == hash_of(answer@),
        digest@.len() == 32,
{
    <sha2::Sha256 as sha2::Digest>::digest(answer.as_bytes()).to_vec()
}

} // verus!
