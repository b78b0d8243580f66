//! RSA-OAEP encryption: building the padded message block, masking it with
//! MGF1, and raising it to the public exponent modulo the modulus.

use crate::error::Error;
use crate::hash::{digest_len, digest_of, digest_size, hash_bytes, HashAlg};
use crate::key::PublicKey;
use crate::mgf1::{mgf1_xor, xor_mask};
use vstd::prelude::*;

verus! {

/// `n` zero bytes.
pub open spec fn zero_seq(n: int) -> Seq<u8> {
    Seq::new(n as nat, |i: int| 0u8)
}

/// `src` widened to `k` bytes by zero bytes on the left.
pub open spec fn left_padded(src: Seq<u8>, k: int) -> Seq<u8>
    recommends
        src.len() <= k,
{
    zero_seq(k - src.len()) + src
}

/// Copies `src` into the tail of `dest`, filling the leading bytes of `dest`
/// with zeros: big-endian serialization of an integer drops leading zero
/// bytes, but the protocol requires a fixed-width output.
pub fn internals_copy_with_left_pad(dest: &mut Vec<u8>, src: &Vec<u8>)
    requires
        src@.len() <= old(dest)@.len(),
    ensures
        final(dest)@ == left_padded(src@, old(dest)@.len() as int),
        final(dest)@.len() == old(dest)@.len(),
{
    let padding_bytes = dest.len() - src.len();
    let mut i: usize = 0;
    while i < padding_bytes
        invariant
            i <= padding_bytes,
            padding_bytes == dest@.len() - src@.len(),
            dest@.len() == old(dest)@.len(),
            src@.len() <= dest@.len(),
            forall|j: int| 0 <= j < i ==> dest@[j] == 0u8,
        decreases padding_bytes - i,
    {
        dest.set(i, 0);
        i = i + 1;
    }
    let mut j: usize = 0;
    while j < src.len()
        invariant
            j <= src@.len(),
            padding_bytes + src@.len() <= usize::MAX,
            padding_bytes == dest@.len() - src@.len(),
            dest@.len() == old(dest)@.len(),
            src@.len() <= dest@.len(),
            forall|t: int| 0 <= t < padding_bytes ==> dest@[t] == 0u8,
            forall|t: int| 0 <= t < j ==> dest@[padding_bytes + t] == src@[t],
        decreases src@.len() - j,
    {
        dest.set(padding_bytes + j, src[j]);
        j = j + 1;
    }
    proof {
        assert(dest@ =~= left_padded(src@, old(dest)@.len() as int));
    }
}

/// The big-endian bytes of `base ^ exp mod modulus`, each argument read as a
/// big-endian unsigned integer; a function of the three byte strings alone,
/// with leading zero bytes of the result dropped (`[0]` for a zero result).
pub uninterp spec fn mod_pow_be(base: Seq<u8>, exp: Seq<u8>, modulus: Seq<u8>) -> Seq<u8>;

/// Relies on num_bigint's BigUint: `from_bytes_be` reads big-endian bytes,
/// `modpow` returns `base ^ exp % modulus` (panicking only on a zero modulus,
/// which the precondition rules out), and `to_bytes_be` writes the minimal
/// big-endian encoding, `[0]` for zero. The result is below the modulus, and
/// the modulus bytes carry no leading zero, so the result's minimal encoding
/// is never wider than the modulus bytes (and never empty).
#[verifier::external_body]
fn mod_exp_be(base: &Vec<u8>, exp: &Vec<u8>, modulus: &Vec<u8>) -> (r: Vec<u8>)
    requires
        modulus@.len() > 0,
        modulus@[0] != 0,
    ensures
        r@ == mod_pow_be(base@, exp@, modulus@),
        1 <= r@.len() <= modulus@.len(),
{
    let b = num_bigint::BigUint::from_bytes_be(base.as_slice());
    let e = num_bigint::BigUint::from_bytes_be(exp.as_slice());
    let m = num_bigint::BigUint::from_bytes_be(modulus.as_slice());
    b.modpow(&e, &m).to_bytes_be()
}

/// The OAEP data block for a message under a key of width `k`: the digest of
/// the empty label, a zero padding string, a `0x01` separator, then the
/// message at the tail.
pub open spec fn oaep_db(alg: HashAlg, msg: Seq<u8>, k: int) -> Seq<u8>
    recommends
        msg.len() + 2 * digest_len(alg) + 2 <= k,
{
    digest_of(alg, Seq::empty()) + zero_seq(k - msg.len() - 2 * digest_len(alg) - 2) + seq![1u8]
        + msg
}

/// The OAEP-encoded block: a zero byte, then the seed masked under the masked
/// data block, then the data block masked under the seed. The data block is
/// masked first, and the masked result seeds the mask of the seed.
pub open spec fn oaep_em(alg: HashAlg, seed: Seq<u8>, msg: Seq<u8>, k: int) -> Seq<u8>
    recommends
        msg.len() + 2 * digest_len(alg) + 2 <= k,
        seed.len() == digest_len(alg),
{
    let masked_db = xor_mask(alg, seed, oaep_db(alg, msg, k));
    let masked_seed = xor_mask(alg, masked_db, seed);
    seq![0u8] + masked_seed + masked_db
}

/// RSA-OAEP encryption of `msg` under `pub_key`, with the given random seed
/// (one digest wide) and hash algorithm.
///
/// Fails with `Capacity` exactly where the message does not fit the key width
/// `k = |n|` less twice the digest size and two; otherwise the result is the
/// OAEP block raised to the public exponent modulo the modulus, left-padded
/// with zeros to exactly `k` bytes.
pub fn oaep_encrypt(alg: HashAlg, pub_key: &PublicKey, msg: &[u8], seed: &Vec<u8>) -> (r: Result<
    Vec<u8>,
    Error,
>)
    requires
        pub_key.wf(),
        seed@.len() == digest_len(alg),
    ensures
        msg@.len() + 2 * digest_len(alg) + 2 > pub_key.n@.len() ==> r matches Err(Error::Capacity),
        msg@.len() + 2 * digest_len(alg) + 2 <= pub_key.n@.len() ==> (r matches Ok(c) && c@.len()
            == pub_key.n@.len() && c@ == left_padded(
            mod_pow_be(
                oaep_em(alg, seed@, msg@, pub_key.n@.len() as int),
                pub_key.e@,
                pub_key.n@,
            ),
            pub_key.n@.len() as int,
        )),
{
    let k = pub_key.n.len();
    let h = digest_size(alg);

    if k < 2 * h + 2 || msg.len() > k - 2 * h - 2 {
        return Err(Error::Capacity);
    }

    // Data block DB = pHash || PS || 0x01 || M, of width k - h - 1.
    let ps_len = k - msg.len() - 2 * h - 2;
    let empty_label: Vec<u8> = Vec::new();
    let p_hash = hash_bytes(alg, &empty_label);
    proof {
        assert(empty_label@ =~= Seq::<u8>::empty());
    }

    let mut db: Vec<u8> = Vec::new();
    let mut i: usize = 0;
    while i < h
        invariant
            i <= h,
            p_hash@.len() == h,
            db@ == p_hash@.take(i as int),
        decreases h - i,
    {
        db.push(p_hash[i]);
        i = i + 1;
        proof {
            assert(db@ =~= p_hash@.take(i as int));
        }
    }
    proof {
        assert(db@ =~= p_hash@);
    }
    let mut z: usize = 0;
    while z < ps_len
        invariant
            z <= ps_len,
            db@ == p_hash@ + zero_seq(z as int),
        decreases ps_len - z,
    {
        db.push(0);
        z = z + 1;
        proof {
            assert(db@ =~= p_hash@ + zero_seq(z as int));
        }
    }
    db.push(1);
    let mut m: usize = 0;
    while m < msg.len()
        invariant
            m <= msg@.len(),
            db@ == p_hash@ + zero_seq(ps_len as int) + seq![1u8] + msg@.take(m as int),
        decreases msg@.len() - m,
    {
        db.push(msg[m]);
        m = m + 1;
        proof {
            assert(db@ =~= p_hash@ + zero_seq(ps_len as int) + seq![1u8] + msg@.take(m as int));
        }
    }
    proof {
        assert(db@ =~= oaep_db(alg, msg@, k as int));
    }

    // Mask DB under the seed first; the masked DB then seeds the mask of the
    // seed. The order matters.
    mgf1_xor(&mut db, alg, seed);
    proof {
        assert(db@ == xor_mask(alg, seed@, oaep_db(alg, msg@, k as int)));
    }

    let mut masked_seed: Vec<u8> = Vec::new();
    let mut s: usize = 0;
    while s < seed.len()
        invariant
            s <= seed@.len(),
            masked_seed@ == seed@.take(s as int),
        decreases seed@.len() - s,
    {
        masked_seed.push(seed[s]);
        s = s + 1;
        proof {
            assert(masked_seed@ =~= seed@.take(s as int));
        }
    }
    proof {
        assert(masked_seed@ =~= seed@);
    }
    mgf1_xor(&mut masked_seed, alg, &db);

    // EM = 0x00 || maskedSeed || maskedDB, exactly k bytes.
    let mut em: Vec<u8> = Vec::new();
    em.push(0);
    let mut a: usize = 0;
    while a < masked_seed.len()
        invariant
            a <= masked_seed@.len(),
            em@ == seq![0u8] + masked_seed@.take(a as int),
        decreases masked_seed@.len() - a,
    {
        em.push(masked_seed[a]);
        a = a + 1;
        proof {
            assert(em@ =~= seq![0u8] + masked_seed@.take(a as int));
        }
    }
    let mut b: usize = 0;
    while b < db.len()
        invariant
            b <= db@.len(),
            em@ == seq![0u8] + masked_seed@ + db@.take(b as int),
        decreases db@.len() - b,
    {
        em.push(db[b]);
        b = b + 1;
        proof {
            assert(em@ =~= seq![0u8] + masked_seed@ + db@.take(b as int));
        }
    }
    proof {
        assert(em@ =~= oaep_em(alg, seed@, msg@, k as int));
    }

    let c = mod_exp_be(&em, &pub_key.e, &pub_key.n);

    let mut out: Vec<u8> = Vec::new();
    let mut w: usize = 0;
    while w < k
        invariant
            w <= k,
            out@.len() == w,
        decreases k - w,
    {
        out.push(0);
        w = w + 1;
    }
    internals_copy_with_left_pad(&mut out, &c);
    Ok(out)
}

} // verus!
