//! The digest primitive that MGF1 and the OAEP encoder are built on.
//!
//! The two hash algorithms come from outside crates; each is reached through
//! one trusted wrapper whose result is given a name, so that every contract
//! downstream can speak of the digest of a byte sequence exactly.

use sha1::Digest;
use vstd::prelude::*;

verus! {

/// Which hash algorithm drives MGF1 and the OAEP block construction.
/// The choice is fixed at the call site, as the handshake negotiates it.
#[derive(Clone, Copy, PartialEq, Eq, Structural, Debug)]
pub enum HashAlg {
    /// 160-bit digest.
    Sha1,
    /// 256-bit digest.
    Sha256,
}

/// The SHA-1 digest of a byte sequence; a function of the bytes alone.
pub uninterp spec fn sha1_of(data: Seq<u8>) -> Seq<u8>;

/// The SHA-256 digest of a byte sequence; a function of the bytes alone.
pub uninterp spec fn sha256_of(data: Seq<u8>) -> Seq<u8>;

/// Output width in bytes of the chosen algorithm.
pub open spec fn digest_len(alg: HashAlg) -> int {
    match alg {
        HashAlg::Sha1 => 20,
        HashAlg::Sha256 => 32,
    }
}

/// The digest of `data` under the chosen algorithm.
pub open spec fn digest_of(alg: HashAlg, data: Seq<u8>) -> Seq<u8> {
    match alg {
        HashAlg::Sha1 => sha1_of(data),
        HashAlg::Sha256 => sha256_of(data),
    }
}

/// Relies on sha1::Sha1 (via digest::Digest::digest): the digest is a function
/// of the input bytes alone, and is always 20 bytes wide.
#[verifier::external_body]
fn sha1_hash(data: &Vec<u8>) -> (r: Vec<u8>)
    ensures
        r@ == sha1_of(data@),
        r@.len() == 20,
{
    sha1::Sha1::digest(data.as_slice()).to_vec()
}

/// Relies on sha2::Sha256 (via digest::Digest::digest): the digest is a
/// function of the input bytes alone, and is always 32 bytes wide.
#[verifier::external_body]
fn sha256_hash(data: &Vec<u8>) -> (r: Vec<u8>)
    ensures
        r@ == sha256_of(data@),
        r@.len() == 32,
{
    sha2::Sha256::digest(data.as_slice()).to_vec()
}

/// The output width in bytes of the chosen algorithm.
pub fn digest_size(alg: HashAlg) -> (r: usize)
    ensures
        r == digest_len(alg),
{
    match alg {
        HashAlg::Sha1 => 20,
        HashAlg::Sha256 => 32,
    }
}

/// Computes the digest of `data` under `alg`.
pub fn hash_bytes(alg: HashAlg, data: &Vec<u8>) -> (r: Vec<u8>)
    ensures
        r@ == digest_of(alg, data@),
        r@.len() == digest_len(alg),
{
    match alg {
        HashAlg::Sha1 => sha1_hash(data),
        HashAlg::Sha256 => sha256_hash(data),
    }
}

} // verus!
