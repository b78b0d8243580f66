use rsa_oaep::error::Error;
use rsa_oaep::hash::HashAlg;
use rsa_oaep::key::{parse, PublicKey};
use rsa_oaep::mgf1::internals_inc_counter;
use rsa_oaep::oaep::{internals_copy_with_left_pad, oaep_encrypt};

const INPUT: &str = "-----BEGIN PUBLIC KEY-----\nMIIBIjANBgkqhkiG9w0BAQEFAAOCAQ8AMIIBCgKCAQEAv9E+l0oFIoGnZmu6bdil\nI3WK79iug/hukj5QrWRrJVVCHL8rRxNsQGYPvQfXgqEnJW0Rqy2BBebNrnSMduny\nCazz1KM1h57hSI1xHGhg/o82Us1j9fUucKo0Pt3vg7xjVVcN0j1bwr96gEbt6B4Q\nt4eKZBhtle1bgoBcqFBhGfU17cnedSzMUCutM+kXTzzOTplKoqXeJpEZDTX8AP9F\nQ9JkoA22yTn8H2GROIAffm1UQS7DXXjI5OnzBJNs72oNSeK8i72xLkoSdfVw3vCu\ni+mpt4LJgAZLvzc2O4nLzu4Bljb+Mrch34HSWyxOfWzt1v9vpJfEVQ2/VZaIng6U\nUQIDAQAB\n-----END PUBLIC KEY-----\n";

fn n_2048() -> Vec<u8> {
    vec![
        0xbf, 0xd1, 0x3e, 0x97, 0x4a, 0x5, 0x22, 0x81, 0xa7, 0x66, 0x6b, 0xba, 0x6d, 0xd8, 0xa5,
        0x23, 0x75, 0x8a, 0xef, 0xd8, 0xae, 0x83, 0xf8, 0x6e, 0x92, 0x3e, 0x50, 0xad, 0x64, 0x6b,
        0x25, 0x55, 0x42, 0x1c, 0xbf, 0x2b, 0x47, 0x13, 0x6c, 0x40, 0x66, 0xf, 0xbd, 0x7, 0xd7,
        0x82, 0xa1, 0x27, 0x25, 0x6d, 0x11, 0xab, 0x2d, 0x81, 0x5, 0xe6, 0xcd, 0xae, 0x74, 0x8c,
        0x76, 0xe9, 0xf2, 0x9, 0xac, 0xf3, 0xd4, 0xa3, 0x35, 0x87, 0x9e, 0xe1, 0x48, 0x8d, 0x71,
        0x1c, 0x68, 0x60, 0xfe, 0x8f, 0x36, 0x52, 0xcd, 0x63, 0xf5, 0xf5, 0x2e, 0x70, 0xaa, 0x34,
        0x3e, 0xdd, 0xef, 0x83, 0xbc, 0x63, 0x55, 0x57, 0xd, 0xd2, 0x3d, 0x5b, 0xc2, 0xbf, 0x7a,
        0x80, 0x46, 0xed, 0xe8, 0x1e, 0x10, 0xb7, 0x87, 0x8a, 0x64, 0x18, 0x6d, 0x95, 0xed, 0x5b,
        0x82, 0x80, 0x5c, 0xa8, 0x50, 0x61, 0x19, 0xf5, 0x35, 0xed, 0xc9, 0xde, 0x75, 0x2c, 0xcc,
        0x50, 0x2b, 0xad, 0x33, 0xe9, 0x17, 0x4f, 0x3c, 0xce, 0x4e, 0x99, 0x4a, 0xa2, 0xa5, 0xde,
        0x26, 0x91, 0x19, 0xd, 0x35, 0xfc, 0x0, 0xff, 0x45, 0x43, 0xd2, 0x64, 0xa0, 0xd, 0xb6,
        0xc9, 0x39, 0xfc, 0x1f, 0x61, 0x91, 0x38, 0x80, 0x1f, 0x7e, 0x6d, 0x54, 0x41, 0x2e, 0xc3,
        0x5d, 0x78, 0xc8, 0xe4, 0xe9, 0xf3, 0x4, 0x93, 0x6c, 0xef, 0x6a, 0xd, 0x49, 0xe2, 0xbc,
        0x8b, 0xbd, 0xb1, 0x2e, 0x4a, 0x12, 0x75, 0xf5, 0x70, 0xde, 0xf0, 0xae, 0x8b, 0xe9, 0xa9,
        0xb7, 0x82, 0xc9, 0x80, 0x6, 0x4b, 0xbf, 0x37, 0x36, 0x3b, 0x89, 0xcb, 0xce, 0xee, 0x1,
        0x96, 0x36, 0xfe, 0x32, 0xb7, 0x21, 0xdf, 0x81, 0xd2, 0x5b, 0x2c, 0x4e, 0x7d, 0x6c, 0xed,
        0xd6, 0xff, 0x6f, 0xa4, 0x97, 0xc4, 0x55, 0xd, 0xbf, 0x55, 0x96, 0x88, 0x9e, 0xe, 0x94,
        0x51,
    ]
}

// The 1024-bit OAEP test key (RFC 8017-style vector).
fn n_1024() -> Vec<u8> {
    vec![
        0xbb, 0xf8, 0x2f, 0x09, 0x06, 0x82, 0xce, 0x9c, 0x23, 0x38, 0xac, 0x2b, 0x9d, 0xa8, 0x71,
        0xf7, 0x36, 0x8d, 0x07, 0xee, 0xd4, 0x10, 0x43, 0xa4, 0x40, 0xd6, 0xb6, 0xf0, 0x74, 0x54,
        0xf5, 0x1f, 0xb8, 0xdf, 0xba, 0xaf, 0x03, 0x5c, 0x02, 0xab, 0x61, 0xea, 0x48, 0xce, 0xeb,
        0x6f, 0xcd, 0x48, 0x76, 0xed, 0x52, 0x0d, 0x60, 0xe1, 0xec, 0x46, 0x19, 0x71, 0x9d, 0x8a,
        0x5b, 0x8b, 0x80, 0x7f, 0xaf, 0xb8, 0xe0, 0xa3, 0xdf, 0xc7, 0x37, 0x72, 0x3e, 0xe6, 0xb4,
        0xb7, 0xd9, 0x3a, 0x25, 0x84, 0xee, 0x6a, 0x64, 0x9d, 0x06, 0x09, 0x53, 0x74, 0x88, 0x34,
        0xb2, 0x45, 0x45, 0x98, 0x39, 0x4e, 0xe0, 0xaa, 0xb1, 0x2d, 0x7b, 0x61, 0xa5, 0x1f, 0x52,
        0x7a, 0x9a, 0x41, 0xf6, 0xc1, 0x68, 0x7f, 0xe2, 0x53, 0x72, 0x98, 0xca, 0x2a, 0x8f, 0x59,
        0x46, 0xf8, 0xe5, 0xfd, 0x09, 0x1d, 0xbd, 0xcb,
    ]
}

fn seed_20() -> Vec<u8> {
    vec![
        0xaa, 0xfd, 0x12, 0xf6, 0x59, 0xca, 0xe6, 0x34, 0x89, 0xb4, 0x79, 0xe5, 0x07, 0x6d, 0xde,
        0xc2, 0xf0, 0x6c, 0xb5, 0x8f,
    ]
}

fn message_16() -> Vec<u8> {
    vec![
        0xd4, 0x36, 0xe9, 0x95, 0x69, 0xfd, 0x32, 0xa7, 0xc8, 0xa0, 0x5b, 0xbc, 0x90, 0xd3, 0x2c,
        0x49,
    ]
}

#[test]
fn it_parses() {
    let key = parse(INPUT.as_bytes()).unwrap();

    let n = n_2048();
    let e = &[0x1, 0x0, 0x1][..];

    assert_eq!(key.n, n);
    assert_eq!(key.e, e);
}

#[test]
fn it_encrypts_sha1() {
    // https://github.com/pyca/cryptography/blob/master/vectors/cryptography_vectors/asymmetric/RSA/pkcs-1v2-1d2-vec/oaep-int.txt

    let pub_key = PublicKey::new(n_1024(), vec![0x11]).unwrap();

    let message = message_16();
    let seed = seed_20();

    let cipher_text = oaep_encrypt(HashAlg::Sha1, &pub_key, &message, &seed).unwrap();

    let expected_cipher_text = &[
        0x12, 0x53, 0xe0, 0x4d, 0xc0, 0xa5, 0x39, 0x7b, 0xb4, 0x4a, 0x7a, 0xb8, 0x7e, 0x9b, 0xf2,
        0xa0, 0x39, 0xa3, 0x3d, 0x1e, 0x99, 0x6f, 0xc8, 0x2a, 0x94, 0xcc, 0xd3, 0x00, 0x74, 0xc9,
        0x5d, 0xf7, 0x63, 0x72, 0x20, 0x17, 0x06, 0x9e, 0x52, 0x68, 0xda, 0x5d, 0x1c, 0x0b, 0x4f,
        0x87, 0x2c, 0xf6, 0x53, 0xc1, 0x1d, 0xf8, 0x23, 0x14, 0xa6, 0x79, 0x68, 0xdf, 0xea, 0xe2,
        0x8d, 0xef, 0x04, 0xbb, 0x6d, 0x84, 0xb1, 0xc3, 0x1d, 0x65, 0x4a, 0x19, 0x70, 0xe5, 0x78,
        0x3b, 0xd6, 0xeb, 0x96, 0xa0, 0x24, 0xc2, 0xca, 0x2f, 0x4a, 0x90, 0xfe, 0x9f, 0x2e, 0xf5,
        0xc9, 0xc1, 0x40, 0xe5, 0xbb, 0x48, 0xda, 0x95, 0x36, 0xad, 0x87, 0x00, 0xc8, 0x4f, 0xc9,
        0x13, 0x0a, 0xde, 0xa7, 0x4e, 0x55, 0x8d, 0x51, 0xa7, 0x4d, 0xdf, 0x85, 0xd8, 0xb5, 0x0d,
        0xe9, 0x68, 0x38, 0xd6, 0x06, 0x3e, 0x09, 0x55,
    ][..];

    assert_eq!(&*expected_cipher_text, &*cipher_text);
}

#[test]
fn it_encrypts_sha256() {
    // Same 1024-bit key and message as the SHA-1 vector, with a fixed 32-byte
    // seed; the expected ciphertext pins the deterministic output.
    let pub_key = PublicKey::new(n_1024(), vec![0x11]).unwrap();

    let message = message_16();
    let mut seed = seed_20();
    for b in 0u8..12u8 {
        seed.push(b);
    }
    assert_eq!(seed.len(), 32);

    let cipher_text = oaep_encrypt(HashAlg::Sha256, &pub_key, &message, &seed).unwrap();

    let expected_cipher_text = &[
        0x51, 0x0d, 0x3d, 0x44, 0x85, 0x73, 0xd7, 0x36, 0x2c, 0xe7, 0x33, 0x9e, 0xf3, 0x49, 0x42,
        0x15, 0x30, 0x65, 0xfc, 0x45, 0x05, 0x37, 0x05, 0xfa, 0x81, 0xec, 0xcb, 0x06, 0xd8, 0x9c,
        0xbe, 0x44, 0xcb, 0x7e, 0x0c, 0xd0, 0xd7, 0x98, 0x10, 0x30, 0x85, 0xeb, 0xcb, 0x6e, 0x9c,
        0x37, 0x7f, 0xe6, 0x76, 0x0c, 0xf9, 0x2f, 0xb3, 0x92, 0xbf, 0x01, 0xa7, 0x4e, 0xbf, 0x1e,
        0xbc, 0x99, 0x86, 0x2d, 0x11, 0x89, 0x71, 0xd1, 0xff, 0x4a, 0x83, 0x39, 0xef, 0x90, 0x64,
        0x88, 0x9d, 0x39, 0xab, 0x46, 0x85, 0x74, 0xe6, 0x5e, 0x58, 0xed, 0xa7, 0x17, 0x72, 0xde,
        0x06, 0xd6, 0x31, 0x7c, 0x51, 0x42, 0xc6, 0x26, 0x2a, 0x24, 0x36, 0x26, 0xb5, 0xaa, 0x63,
        0xe6, 0x25, 0x4c, 0x7a, 0x5d, 0x13, 0x79, 0x87, 0x4d, 0xa2, 0xf7, 0x86, 0x5a, 0x78, 0xfd,
        0x75, 0x08, 0x4a, 0x57, 0xe8, 0x9b, 0x50, 0xdd,
    ][..];

    assert_eq!(&*expected_cipher_text, &*cipher_text);
}

#[test]
fn header_rejected() {
    let r = parse(b"-----BEGIN RSA KEY-----\nabcd\n-----END RSA KEY-----\n");
    match r {
        Err(Error::Format(fl)) => assert_eq!(fl, b"-----BEGIN RSA KEY-----".to_vec()),
        _ => panic!("expected a format error"),
    }
}

#[test]
fn header_diagnostic_without_newline() {
    let r = parse(b"not a key at all");
    match r {
        Err(Error::Format(fl)) => assert_eq!(fl, b"not a key at all".to_vec()),
        _ => panic!("expected a format error"),
    }
}

#[test]
fn bad_base64_rejected() {
    let r = parse(b"-----BEGIN PUBLIC KEY-----\n!!!!\n-----END PUBLIC KEY-----\n");
    assert!(matches!(r, Err(Error::Decode)));
}

#[test]
fn wrong_length_body_rejected() {
    // "AAAA" is valid base64 but decodes to 3 bytes, not the fixed-size key
    // encoding the parser assumes.
    let r = parse(b"-----BEGIN PUBLIC KEY-----\nAAAA\n-----END PUBLIC KEY-----\n");
    assert!(matches!(r, Err(Error::Decode)));
}

#[test]
fn missing_trailer_rejected() {
    // With no dash after the header the body is empty, which cannot hold the
    // fixed-size key encoding.
    let r = parse(b"-----BEGIN PUBLIC KEY-----\nMIIB\n");
    assert!(matches!(r, Err(Error::Decode)));
}

#[test]
fn bad_utf8_rejected() {
    let r = rsa_oaep::encrypt(&[0xff, 0xfe, 0x2d], b"secret", HashAlg::Sha1);
    assert!(matches!(r, Err(Error::Encoding)));
}

#[test]
fn capacity_boundary() {
    // k = 128, h = 20: a message of k - 2h - 2 = 86 bytes fits; 87 does not.
    let pub_key = PublicKey::new(n_1024(), vec![0x11]).unwrap();
    let seed = seed_20();

    let fits = vec![0x41u8; 86];
    let r = oaep_encrypt(HashAlg::Sha1, &pub_key, &fits, &seed);
    assert_eq!(r.unwrap().len(), 128);

    let too_long = vec![0x41u8; 87];
    let r = oaep_encrypt(HashAlg::Sha1, &pub_key, &too_long, &seed);
    assert!(matches!(r, Err(Error::Capacity)));
}

#[test]
fn counter_wraps_to_zero() {
    let mut counter = vec![0xffu8, 0xff, 0xff, 0xff];
    internals_inc_counter(&mut counter);
    assert_eq!(counter, vec![0x00, 0x00, 0x00, 0x00]);
}

#[test]
fn counter_carries_into_third_byte() {
    let mut counter = vec![0x00u8, 0x00, 0x00, 0xff];
    internals_inc_counter(&mut counter);
    assert_eq!(counter, vec![0x00, 0x00, 0x01, 0x00]);
}

#[test]
fn counter_simple_increment() {
    let mut counter = vec![0x00u8, 0x00, 0x00, 0x00];
    internals_inc_counter(&mut counter);
    assert_eq!(counter, vec![0x00, 0x00, 0x00, 0x01]);
}

#[test]
fn left_pad_widens() {
    let mut dest = vec![9u8, 9, 9, 9];
    let src = vec![1u8, 2];
    internals_copy_with_left_pad(&mut dest, &src);
    assert_eq!(dest, vec![0, 0, 1, 2]);
}

#[test]
fn left_pad_exact_width() {
    let mut dest = vec![9u8, 9];
    let src = vec![1u8, 2];
    internals_copy_with_left_pad(&mut dest, &src);
    assert_eq!(dest, vec![1, 2]);
}

#[test]
fn output_width_is_key_width() {
    // End-to-end with the real random source: the ciphertext is always as
    // wide as the 2048-bit modulus, whatever the exponentiation produced.
    for _ in 0..4 {
        let c = rsa_oaep::encrypt(INPUT.as_bytes(), b"hunter2", HashAlg::Sha1).unwrap();
        assert_eq!(c.len(), 256);
        let c = rsa_oaep::encrypt(INPUT.as_bytes(), b"hunter2", HashAlg::Sha256).unwrap();
        assert_eq!(c.len(), 256);
    }
}

#[test]
fn key_normalizes_leading_zeros() {
    let key = PublicKey::new(vec![0x00, 0x00, 0x5a, 0x00], vec![0x00, 0x11]).unwrap();
    assert_eq!(key.n, vec![0x5a, 0x00]);
    assert_eq!(key.e, vec![0x11]);
    assert!(PublicKey::new(vec![0x00, 0x00], vec![0x11]).is_none());
    assert!(PublicKey::new(vec![0x5a], vec![]).is_none());
}
