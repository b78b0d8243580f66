//! MGF1, the mask-generation function of OAEP: hashing `seed || counter` for
//! an incrementing 4-byte big-endian counter, and XOR-ing the digests into a
//! caller-owned buffer in place.

use crate::hash::{digest_len, digest_of, hash_bytes, HashAlg};
use vstd::prelude::*;

verus! {

/// The value of a 4-byte big-endian counter.
pub open spec fn counter_val(s: Seq<u8>) -> int
    recommends
        s.len() == 4,
{
    s[0] * 0x1000000 + s[1] * 0x10000 + s[2] * 0x100 + s[3]
}

/// The 4-byte big-endian encoding of `t`, wrapped modulo 2^32.
pub open spec fn counter_bytes(t: int) -> Seq<u8> {
    let m = t % 0x100000000;
    seq![
        (m / 0x1000000) as u8,
        ((m / 0x10000) % 0x100) as u8,
        ((m / 0x100) % 0x100) as u8,
        (m % 0x100) as u8,
    ]
}

/// A 4-byte counter encodes its own value: encoding `counter_val(s)` gives
/// back `s`.
proof fn lemma_counter_bytes_of_val(s: Seq<u8>)
    requires
        s.len() == 4,
    ensures
        counter_bytes(counter_val(s)) == s,
{
    let v = counter_val(s);
    assert(0 <= v < 0x100000000);
    assert(v % 0x100000000 == v);
    let m = v;
    assert(m / 0x1000000 == s[0] && (m / 0x10000) % 0x100 == s[1] && (m / 0x100) % 0x100 == s[2]
        && m % 0x100 == s[3]) by (nonlinear_arith)
        requires
            m == s[0] * 0x1000000 + s[1] * 0x10000 + s[2] * 0x100 + s[3],
            0 <= s[0] < 0x100,
            0 <= s[1] < 0x100,
            0 <= s[2] < 0x100,
            0 <= s[3] < 0x100,
    ;
    assert(counter_bytes(v) =~= s);
}

/// The value of the encoding of `t` is `t` reduced modulo 2^32.
proof fn lemma_val_of_counter_bytes(t: int)
    requires
        t >= 0,
    ensures
        counter_val(counter_bytes(t)) == t % 0x100000000,
{
    let m = t % 0x100000000;
    assert(0 <= m < 0x100000000);
    assert((m / 0x1000000) * 0x1000000 + ((m / 0x10000) % 0x100) * 0x10000 + ((m / 0x100) % 0x100)
        * 0x100 + m % 0x100 == m) by (nonlinear_arith)
        requires
            0 <= m < 0x100000000,
    ;
    assert(m / 0x1000000 < 0x100) by (nonlinear_arith)
        requires
            0 <= m < 0x100000000,
    ;
}

/// Advances a 4-byte big-endian counter by one, wrapping the whole counter to
/// zero after the high byte overflows.
pub fn internals_inc_counter(counter: &mut Vec<u8>)
    requires
        old(counter)@.len() == 4,
    ensures
        final(counter)@.len() == 4,
        counter_val(final(counter)@) == (counter_val(old(counter)@) + 1) % 0x100000000,
{
    if counter[3] == u8::MAX {
        counter.set(3, 0);
    } else {
        let b3 = counter[3];
        counter.set(3, b3 + 1);
        return ;
    }

    if counter[2] == u8::MAX {
        counter.set(2, 0);
    } else {
        let b2 = counter[2];
        counter.set(2, b2 + 1);
        return ;
    }

    if counter[1] == u8::MAX {
        counter.set(1, 0);
    } else {
        let b1 = counter[1];
        counter.set(1, b1 + 1);
        return ;
    }

    if counter[0] == u8::MAX {
        counter.set(0, 0);
        counter.set(1, 0);
        counter.set(2, 0);
        counter.set(3, 0);
    } else {
        let b0 = counter[0];
        counter.set(0, b0 + 1);
    }
}

/// The mask byte that MGF1 produces at offset `i` of the output, for a given
/// algorithm and seed: byte `i % h` of the digest of `seed || counter`, where
/// the counter holds block number `i / h`.
pub open spec fn mgf1_mask(alg: HashAlg, seed: Seq<u8>, i: int) -> u8 {
    digest_of(alg, seed + counter_bytes(i / digest_len(alg)))[i % digest_len(alg)]
}

/// A sequence XOR-combined, byte for byte, with the MGF1 mask for `seed`.
pub open spec fn xor_mask(alg: HashAlg, seed: Seq<u8>, data: Seq<u8>) -> Seq<u8> {
    Seq::new(data.len(), |i: int| data[i] ^ mgf1_mask(alg, seed, i))
}

/// XOR-combines the MGF1 mask generated from `seed` into `out`, in place:
/// callers pass the data to be masked already resident in the buffer.
pub fn mgf1_xor(out: &mut Vec<u8>, alg: HashAlg, seed: &Vec<u8>)
    requires
        seed@.len() + 4 <= usize::MAX,
    ensures
        final(out)@ == xor_mask(alg, seed@, old(out)@),
{
    let ghost h = digest_len(alg);
    let mut counter: Vec<u8> = vec![0u8, 0u8, 0u8, 0u8];
    let ghost mut t: int = 0;
    let mut i: usize = 0;

    proof {
        assert(counter@ =~= counter_bytes(0));
    }

    while i < out.len()
        invariant
            h == digest_len(alg),
            seed@.len() + 4 <= usize::MAX,
            t >= 0,
            i <= out@.len(),
            i == t * h || (i == out@.len() && t * h >= i),
            out@.len() == old(out)@.len(),
            counter@ == counter_bytes(t),
            forall|j: int| 0 <= j < i ==> out@[j] == (old(out)@[j] ^ mgf1_mask(alg, seed@, j)),
            forall|j: int| i <= j < out@.len() ==> out@[j] == old(out)@[j],
        decreases out@.len() - i,
    {
        proof {
            assert(i < out@.len());
            assert(i == t * h);
        }
        let mut digest_input: Vec<u8> = Vec::new();
        let mut s: usize = 0;
        while s < seed.len()
            invariant
                s <= seed@.len(),
                digest_input@ == seed@.take(s as int),
            decreases seed@.len() - s,
        {
            digest_input.push(seed[s]);
            s = s + 1;
            proof {
                assert(digest_input@ =~= seed@.take(s as int));
            }
        }
        proof {
            assert(digest_input@ =~= seed@);
        }
        let mut c: usize = 0;
        while c < 4
            invariant
                c <= 4,
                counter@.len() == 4,
                digest_input@ == seed@ + counter@.take(c as int),
            decreases 4 - c,
        {
            digest_input.push(counter[c]);
            c = c + 1;
            proof {
                assert(digest_input@ =~= seed@ + counter@.take(c as int));
            }
        }
        proof {
            assert(digest_input@ =~= seed@ + counter@);
        }

        let digest_output = hash_bytes(alg, &digest_input);

        let mut j: usize = 0;
        while j < digest_output.len() && i < out.len()
            invariant
                h == digest_len(alg),
                digest_output@ == digest_of(alg, seed@ + counter_bytes(t)),
                digest_output@.len() == h,
                t >= 0,
                j <= h,
                i == t * h + j,
                i <= out@.len(),
                out@.len() == old(out)@.len(),
                forall|j2: int| 0 <= j2 < i ==> out@[j2] == (old(out)@[j2] ^ mgf1_mask(
                    alg,
                    seed@,
                    j2,
                )),
                forall|j2: int| i <= j2 < out@.len() ==> out@[j2] == old(out)@[j2],
            decreases digest_output@.len() - j,
        {
            proof {
                assert(i as int / h == t && i as int % h == j) by (nonlinear_arith)
                    requires
                        i == t * h + j,
                        0 <= (j as int) < h,
                        t >= 0,
                ;
            }
            let masked = out[i] ^ digest_output[j];
            out.set(i, masked);
            j = j + 1;
            i = i + 1;
        }
        proof {
            assert(j == h || i == out@.len());
            if j == h {
                assert(i == t * h + h == (t + 1) * h) by (nonlinear_arith)
                    requires
                        i == t * h + j,
                        j == h,
                ;
            } else {
                assert(i == out@.len());
                assert((t + 1) * h >= t * h + j) by (nonlinear_arith)
                    requires
                        j <= h,
                        t >= 0,
                ;
            }
        }
        internals_inc_counter(&mut counter);
        proof {
            let m = 0x100000000int;
            lemma_val_of_counter_bytes(t);
            vstd::arithmetic::div_mod::lemma_add_mod_noop(t, 1, m);
            assert(1int % m == 1);
            assert(counter_val(counter@) == (t + 1) % m);
            lemma_counter_bytes_of_val(counter@);
            vstd::arithmetic::div_mod::lemma_mod_twice(t + 1, m);
            assert(counter_bytes((t + 1) % m) =~= counter_bytes(t + 1));
            assert(counter@ == counter_bytes(t + 1));
            t = t + 1;
        }
    }
    proof {
        assert(out@ =~= xor_mask(alg, seed@, old(out)@));
    }
}

} // verus!
