//! Extracting an RSA public key from the PEM-like envelope the server sends.
//!
//! The parser is deliberately narrow: it assumes the one fixed PKCS#8
//! `SubjectPublicKeyInfo` encoding the targeted server produces (a 2048-bit
//! modulus and a 3-byte exponent), checks the decoded body's length against
//! that assumption, and slices the modulus and exponent out at fixed offsets.

use crate::error::Error;
use vstd::prelude::*;

verus! {

/// Total length in bytes of the one fixed DER encoding the parser accepts:
/// a PKCS#8 `SubjectPublicKeyInfo` holding a 257-byte modulus encoding and a
/// 3-byte exponent.
pub const EXPECTED_DER_LEN: usize = 294;

/// An RSA public key, held as the big-endian bytes of its two parameters,
/// each with no leading zero byte (so both are positive, and the byte width
/// of `n` is exactly the ciphertext width `k`).
pub struct PublicKey {
    /// Big-endian modulus bytes, no leading zero.
    pub n: Vec<u8>,
    /// Big-endian public-exponent bytes, no leading zero.
    pub e: Vec<u8>,
}

impl PublicKey {
    /// Both parameters are positive: nonempty, with no leading zero byte.
    pub open spec fn wf(self) -> bool {
        &&& self.n@.len() > 0
        &&& self.n@[0] != 0
        &&& self.e@.len() > 0
        &&& self.e@[0] != 0
    }

    /// Builds a key from big-endian parameter bytes, normalizing away leading
    /// zeros; `None` if either parameter is zero.
    pub fn new(n: Vec<u8>, e: Vec<u8>) -> (r: Option<PublicKey>)
        ensures
            r is Some <==> (strip_leading_zeros(n@).len() > 0 && strip_leading_zeros(e@).len()
                > 0),
            r matches Some(pk) ==> pk.wf() && pk.n@ == strip_leading_zeros(n@) && pk.e@
                == strip_leading_zeros(e@),
    {
        let n_norm = strip_zeros_vec(n.as_slice());
        let e_norm = strip_zeros_vec(e.as_slice());
        if n_norm.len() == 0 || e_norm.len() == 0 {
            None
        } else {
            Some(PublicKey { n: n_norm, e: e_norm })
        }
    }
}

/// Whether a byte sequence is valid UTF-8.
pub uninterp spec fn is_utf8(s: Seq<u8>) -> bool;

/// Relies on core::str::from_utf8: it returns `Ok` exactly when the bytes are
/// valid UTF-8, which is a function of the bytes alone.
#[verifier::external_body]
pub(crate) fn utf8_ok(bytes: &[u8]) -> (r: bool)
    ensures
        r == is_utf8(bytes@),
{
    core::str::from_utf8(bytes).is_ok()
}

/// What the standard base64 alphabet (with padding) decodes a byte sequence
/// to, or `None` where it is not valid base64.
pub uninterp spec fn base64_decoded(s: Seq<u8>) -> Option<Seq<u8>>;

/// Relies on base64's STANDARD engine: whether and to what a byte sequence
/// decodes is a function of the bytes alone.
#[verifier::external_body]
fn decode_base64(s: &Vec<u8>) -> (r: Option<Vec<u8>>)
    ensures
        match r {
            Some(v) => base64_decoded(s@) == Some(v@),
            None => base64_decoded(s@) is None,
        },
{
    match base64::Engine::decode(&base64::engine::general_purpose::STANDARD, s.as_slice()) {
        Ok(v) => Some(v),
        Err(_) => None,
    }
}

/// The header line the envelope must begin with:
/// five dashes, `BEGIN PUBLIC KEY`, five dashes, then a newline.
pub open spec fn header() -> Seq<u8> {
    seq![
        45u8, 45u8, 45u8, 45u8, 45u8,
        66u8, 69u8, 71u8, 73u8, 78u8,
        32u8,
        80u8, 85u8, 66u8, 76u8, 73u8, 67u8,
        32u8,
        75u8, 69u8, 89u8,
        45u8, 45u8, 45u8, 45u8, 45u8,
        10u8,
    ]
}

/// Whether the input begins with the exact header line.
pub open spec fn has_header(key: Seq<u8>) -> bool {
    key.len() >= 27 && key.take(27) == header()
}

/// Index of the first occurrence of `b` in `s`, or `s.len()` if absent.
pub open spec fn find_byte(s: Seq<u8>, b: u8) -> int
    decreases s.len(),
{
    if s.len() == 0 {
        0
    } else if s[0] == b {
        0
    } else {
        1 + find_byte(s.skip(1), b)
    }
}

/// The input up to (not including) its first newline; the whole input if it
/// has none. Reported in the header diagnostic.
pub open spec fn first_line(key: Seq<u8>) -> Seq<u8> {
    key.take(find_byte(key, 10))
}

/// `s` with every newline byte removed.
pub open spec fn strip_newlines(s: Seq<u8>) -> Seq<u8>
    decreases s.len(),
{
    if s.len() == 0 {
        Seq::empty()
    } else if s.last() == 10 {
        strip_newlines(s.drop_last())
    } else {
        strip_newlines(s.drop_last()) + seq![s.last()]
    }
}

/// `s` with its leading zero bytes removed.
pub open spec fn strip_leading_zeros(s: Seq<u8>) -> Seq<u8>
    decreases s.len(),
{
    if s.len() > 0 && s[0] == 0 {
        strip_leading_zeros(s.skip(1))
    } else {
        s
    }
}

/// Where the base64 body ends, relative to the end of the header: at the
/// first dash of the trailer, or at 0 if no dash follows (leaving an empty
/// body, which then fails to parse).
pub open spec fn body_end(rest: Seq<u8>) -> int {
    if find_byte(rest, 45) < rest.len() {
        find_byte(rest, 45)
    } else {
        0
    }
}

/// The base64 body: everything between the header and the next dash, with
/// embedded newlines stripped.
pub open spec fn body_of(key: Seq<u8>) -> Seq<u8> {
    strip_newlines(key.skip(27).take(body_end(key.skip(27))))
}

/// What a well-headed envelope parses to: the normalized big-endian modulus
/// and exponent bytes, or `None` where the body is not base64, is not the
/// fixed-length encoding the parser assumes, or encodes a zero parameter.
pub open spec fn parsed_key(key: Seq<u8>) -> Option<(Seq<u8>, Seq<u8>)> {
    match base64_decoded(body_of(key)) {
        Option::None => Option::None,
        Option::Some(der) => {
            if der.len() != EXPECTED_DER_LEN {
                Option::None
            } else {
                let n = strip_leading_zeros(der.subrange(der.len() - 262, der.len() - 5));
                let e = strip_leading_zeros(der.subrange(der.len() - 3, der.len() as int));
                if n.len() == 0 || e.len() == 0 {
                    Option::None
                } else {
                    Option::Some((n, e))
                }
            }
        },
    }
}

/// `find_byte` is pinned positionally: if `b` is absent before `i` and
/// present at `i` (or `i` is the length), the first occurrence is `i`.
proof fn lemma_find_byte(s: Seq<u8>, b: u8, i: int)
    requires
        0 <= i <= s.len(),
        forall|j: int| 0 <= j < i ==> s[j] != b,
        i < s.len() ==> s[i] == b,
    ensures
        find_byte(s, b) == i,
    decreases i,
{
    if i == 0 {
        if s.len() > 0 && s[0] != b {
            assert(false);
        }
    } else {
        assert(s[0] != b);
        lemma_find_byte(s.skip(1), b, i - 1);
    }
}

/// Stripping leading zeros of `s` leaves its suffix from the first nonzero
/// byte (or the empty sequence if all bytes are zero).
proof fn lemma_strip_leading_zeros(s: Seq<u8>, i: int)
    requires
        0 <= i <= s.len(),
        forall|j: int| 0 <= j < i ==> s[j] == 0,
        i < s.len() ==> s[i] != 0,
    ensures
        strip_leading_zeros(s) == s.skip(i),
    decreases i,
{
    if i == 0 {
        assert(s.skip(0) =~= s);
    } else {
        lemma_strip_leading_zeros(s.skip(1), i - 1);
        assert(s.skip(1).skip(i - 1) =~= s.skip(i));
    }
}

/// Copies the suffix of `v` that starts at its first nonzero byte.
fn strip_zeros_vec(v: &[u8]) -> (r: Vec<u8>)
    ensures
        r@ == strip_leading_zeros(v@),
        r@.len() > 0 ==> r@[0] != 0,
{
    let mut z: usize = 0;
    while z < v.len() && v[z] == 0
        invariant
            z <= v@.len(),
            forall|j: int| 0 <= j < z ==> v@[j] == 0,
        decreases v@.len() - z,
    {
        z = z + 1;
    }
    proof {
        lemma_strip_leading_zeros(v@, z as int);
    }
    let mut out: Vec<u8> = Vec::new();
    let mut i: usize = z;
    while i < v.len()
        invariant
            z <= i <= v@.len(),
            out@ == v@.subrange(z as int, i as int),
        decreases v@.len() - i,
    {
        out.push(v[i]);
        i = i + 1;
        proof {
            assert(out@ =~= v@.subrange(z as int, i as int));
        }
    }
    proof {
        assert(v@.subrange(z as int, v@.len() as int) =~= v@.skip(z as int));
    }
    out
}

/// Copies the input up to its first newline.
fn take_first_line(key: &[u8]) -> (r: Vec<u8>)
    ensures
        r@ == first_line(key@),
{
    let mut idx: usize = 0;
    while idx < key.len() && key[idx] != 10
        invariant
            idx <= key@.len(),
            forall|j: int| 0 <= j < idx ==> key@[j] != 10,
        decreases key@.len() - idx,
    {
        idx = idx + 1;
    }
    proof {
        lemma_find_byte(key@, 10, idx as int);
    }
    let mut out: Vec<u8> = Vec::new();
    let mut i: usize = 0;
    while i < idx
        invariant
            i <= idx <= key@.len(),
            out@ == key@.subrange(0, i as int),
        decreases idx - i,
    {
        out.push(key[i]);
        i = i + 1;
        proof {
            assert(out@ =~= key@.subrange(0, i as int));
        }
    }
    proof {
        assert(key@.subrange(0, idx as int) =~= key@.take(idx as int));
    }
    out
}

/// Parses a PKCS#8 PEM envelope into a `PublicKey`.
///
/// The input must begin with the exact header line; the base64 body runs from
/// there to the next dash, newlines stripped. The decoded body must be the
/// one fixed-length encoding the parser assumes; the modulus is the last 257
/// bytes before the final 5, the exponent the last 3, each normalized to drop
/// leading zeros.
pub fn parse(key: &[u8]) -> (r: Result<PublicKey, Error>)
    ensures
        !has_header(key@) ==> (r matches Err(Error::Format(fl)) && fl@ == first_line(key@)),
        has_header(key@) && parsed_key(key@) is None ==> r matches Err(Error::Decode),
        has_header(key@) && parsed_key(key@) is Some ==> (r matches Ok(pk) && pk.wf() && pk.n@
            == parsed_key(key@).unwrap().0 && pk.e@ == parsed_key(key@).unwrap().1),
{
    let hdr: Vec<u8> = vec![
        45u8, 45u8, 45u8, 45u8, 45u8,
        66u8, 69u8, 71u8, 73u8, 78u8,
        32u8,
        80u8, 85u8, 66u8, 76u8, 73u8, 67u8,
        32u8,
        75u8, 69u8, 89u8,
        45u8, 45u8, 45u8, 45u8, 45u8,
        10u8,
    ];
    proof {
        assert(hdr@ =~= header());
    }
    let mut ok = key.len() >= 27;
    let mut h: usize = 0;
    while h < 27 && ok
        invariant
            h <= 27,
            hdr@ == header(),
            ok ==> key@.len() >= 27,
            ok ==> forall|j: int| 0 <= j < h ==> key@[j] == header()[j],
            !ok ==> !has_header(key@),
        decreases 27 - h,
    {
        if key[h] != hdr[h] {
            proof {
                assert(key@.take(27)[h as int] != header()[h as int]);
            }
            ok = false;
        }
        h = h + 1;
    }
    if !ok {
        return Err(Error::Format(take_first_line(key)));
    }
    proof {
        assert(key@.take(27) =~= header());
    }

    // The body runs from the end of the header to the next dash; no dash
    // leaves an empty body.
    let rest_len = key.len() - 27;
    let ghost rest = key@.skip(27);
    let mut d: usize = 0;
    while d < rest_len && key[27 + d] != 45
        invariant
            key@.len() >= 27,
            rest_len + 27 <= usize::MAX,
            rest_len == key@.len() - 27,
            rest == key@.skip(27),
            d <= rest_len,
            forall|j: int| 0 <= j < d ==> rest[j] != 45,
        decreases rest_len - d,
    {
        proof {
            assert(rest[d as int] == key@[27 + d as int]);
        }
        d = d + 1;
    }
    proof {
        if d < rest_len {
            assert(rest[d as int] == key@[27 + d as int]);
        }
        lemma_find_byte(rest, 45, d as int);
    }
    let stop: usize = if d < rest_len {
        d
    } else {
        0
    };
    proof {
        assert(stop as int == body_end(rest));
    }

    let mut body: Vec<u8> = Vec::new();
    let mut i: usize = 0;
    while i < stop
        invariant
            key@.len() >= 27,
            stop + 27 <= usize::MAX,
            rest == key@.skip(27),
            stop <= rest.len(),
            i <= stop,
            body@ == strip_newlines(rest.take(i as int)),
        decreases stop - i,
    {
        proof {
            assert(rest.take(i + 1 as int).drop_last() =~= rest.take(i as int));
            assert(rest.take(i + 1 as int).last() == rest[i as int]);
            assert(rest[i as int] == key@[27 + i as int]);
        }
        let b = key[27 + i];
        if b != 10 {
            body.push(b);
        }
        i = i + 1;
    }
    proof {
        assert(body@ == strip_newlines(rest.take(stop as int)));
        assert(body@ == body_of(key@));
    }

    let der = match decode_base64(&body) {
        Some(der) => der,
        None => {
            return Err(Error::Decode);
        },
    };
    if der.len() != EXPECTED_DER_LEN {
        return Err(Error::Decode);
    }

    let mut n_raw: Vec<u8> = Vec::new();
    let mut j: usize = der.len() - 262;
    while j < der.len() - 5
        invariant
            der@.len() == EXPECTED_DER_LEN,
            32 <= j <= der@.len() - 5,
            n_raw@ == der@.subrange(der@.len() - 262, j as int),
        decreases der@.len() - j,
    {
        n_raw.push(der[j]);
        j = j + 1;
        proof {
            assert(n_raw@ =~= der@.subrange(der@.len() - 262, j as int));
        }
    }

    let mut e_raw: Vec<u8> = Vec::new();
    let mut j2: usize = der.len() - 3;
    while j2 < der.len()
        invariant
            der@.len() == EXPECTED_DER_LEN,
            der@.len() - 3 <= j2 <= der@.len(),
            e_raw@ == der@.subrange(der@.len() - 3, j2 as int),
        decreases der@.len() - j2,
    {
        e_raw.push(der[j2]);
        j2 = j2 + 1;
        proof {
            assert(e_raw@ =~= der@.subrange(der@.len() - 3, j2 as int));
        }
    }

    let n = strip_zeros_vec(n_raw.as_slice());
    let e = strip_zeros_vec(e_raw.as_slice());
    if n.len() == 0 || e.len() == 0 {
        return Err(Error::Decode);
    }
    Ok(PublicKey { n, e })
}

} // verus!
