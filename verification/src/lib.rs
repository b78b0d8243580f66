//! RSA-OAEP encryption of a short secret under a public key handed over
//! during an authentication handshake.
//!
//! The key arrives as a PKCS#8 `SubjectPublicKeyInfo` in a PEM-like text
//! envelope; the secret is padded with OAEP (MGF1 over a chosen digest) and
//! raised to the public exponent modulo the modulus, giving a ciphertext
//! exactly as wide as the modulus.

pub mod error;
pub mod hash;
pub mod key;
pub mod mgf1;
pub mod oaep;

use crate::error::Error;
use crate::hash::{digest_len, HashAlg};
use crate::key::{first_line, has_header, is_utf8, parse, parsed_key, utf8_ok};
use crate::oaep::{left_padded, mod_pow_be, oaep_em, oaep_encrypt};
use vstd::prelude::*;

verus! {

/// Relies on rand::fill, the thread-local cryptographically secure random
/// source: it fills the buffer with random bytes. Nothing is assumed of the
/// values; only the requested length holds of every outcome.
#[verifier::external_body]
fn random_bytes(n: usize) -> (r: Vec<u8>)
    ensures
        r@.len() == n,
{
    let mut buf = vec![0u8; n];
    rand::fill(&mut buf[..]);
    buf
}

/// Encrypts `message` under the public key held in `key` (UTF-8 text in the
/// PEM-like envelope), with a fresh random OAEP seed and the chosen digest.
///
/// Exactly one of the following holds:
/// - the key bytes are not UTF-8: `Encoding`;
/// - the envelope lacks the expected header: `Format`, with the actual first
///   line;
/// - the body is not base64, or not the fixed key encoding the parser
///   assumes: `Decode`;
/// - the message is too long for the key width and digest size: `Capacity`;
/// - otherwise the call succeeds, and the ciphertext is the OAEP block built
///   from some seed one digest wide, raised to the public exponent modulo the
///   modulus and left-padded to exactly the modulus width.
pub fn encrypt(key: &[u8], message: &[u8], alg: HashAlg) -> (r: Result<Vec<u8>, Error>)
    ensures
        !is_utf8(key@) ==> r matches Err(Error::Encoding),
        is_utf8(key@) && !has_header(key@) ==> (r matches Err(Error::Format(fl)) && fl@
            == first_line(key@)),
        is_utf8(key@) && has_header(key@) && parsed_key(key@) is None ==> r matches Err(
            Error::Decode,
        ),
        is_utf8(key@) && has_header(key@) && parsed_key(key@) is Some && message@.len() + 2
            * digest_len(alg) + 2 > parsed_key(key@).unwrap().0.len() ==> r matches Err(
            Error::Capacity,
        ),
        is_utf8(key@) && has_header(key@) && parsed_key(key@) is Some && message@.len() + 2
            * digest_len(alg) + 2 <= parsed_key(key@).unwrap().0.len() ==> (r matches Ok(c)
            && c@.len() == parsed_key(key@).unwrap().0.len() && exists|seed: Seq<u8>|
            seed.len() == digest_len(alg) && c@ == left_padded(
                mod_pow_be(
                    oaep_em(alg, seed, message@, parsed_key(key@).unwrap().0.len() as int),
                    parsed_key(key@).unwrap().1,
                    parsed_key(key@).unwrap().0,
                ),
                parsed_key(key@).unwrap().0.len() as int,
            )),
{
    if !utf8_ok(key) {
        return Err(Error::Encoding);
    }
    let pub_key = match parse(key) {
        Ok(pk) => pk,
        Err(e) => {
            return Err(e);
        },
    };
    let seed = random_bytes(crate::hash::digest_size(alg));
    let r = oaep_encrypt(alg, &pub_key, message, &seed);
    proof {
        let ne = parsed_key(key@).unwrap();
        if message@.len() + 2 * digest_len(alg) + 2 <= ne.0.len() {
            let c = r.unwrap();
            assert(c@ == left_padded(
                mod_pow_be(oaep_em(alg, seed@, message@, ne.0.len() as int), ne.1, ne.0),
                ne.0.len() as int,
            ));
        }
    }
    r
}

} // verus!


