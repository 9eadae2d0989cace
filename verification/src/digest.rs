//! The digest function: maps an arbitrary byte sequence to a fixed 32-byte
//! identifier, used both for content addressing and as the proof-of-work
//! target.

use vstd::prelude::*;
use sha2::Digest;

verus! {

/// The 32-byte digest of a byte sequence. The digest is a fixed function of
/// the bytes alone; nothing further is assumed of its structure.
pub uninterp spec fn digest_of(bytes: Seq<u8>) -> Seq<u8>;

/// Relies on `sha2::Sha256::digest`: the SHA-256 digest is a function of the
/// input bytes alone, and its output is always 32 bytes long.
#[verifier::external_body]
pub(crate) fn digest(bytes: &Vec<u8>) -> (r: Vec<u8>)
    ensures
        r@ == digest_of(bytes@),
        r@.len() == 32,
{
    sha2::Sha256::digest(bytes.as_slice()).to_vec()
}

} // verus!
