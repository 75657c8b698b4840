use goonpass::aes::{decrypt, decrypt_block, encrypt, encrypt_block};
use goonpass::sha::hash;

const FIPS_KEY: [u8; 32] = [
    0x00, 0x01, 0x02, 0x03, 0x04, 0x05, 0x06, 0x07, 0x08, 0x09, 0x0a, 0x0b, 0x0c, 0x0d, 0x0e,
    0x0f, 0x10, 0x11, 0x12, 0x13, 0x14, 0x15, 0x16, 0x17, 0x18, 0x19, 0x1a, 0x1b, 0x1c, 0x1d,
    0x1e, 0x1f,
];

const FIPS_PLAIN: [u8; 16] = [
    0x00, 0x11, 0x22, 0x33, 0x44, 0x55, 0x66, 0x77, 0x88, 0x99, 0xaa, 0xbb, 0xcc, 0xdd, 0xee,
    0xff,
];

const FIPS_CIPHER: [u8; 16] = [
    0x8e, 0xa2, 0xb7, 0xca, 0x51, 0x67, 0x45, 0xbf, 0xea, 0xfc, 0x49, 0x90, 0x4b, 0x49, 0x60,
    0x89,
];

// The published standard's 256-bit-key single-block vector, both ways.
#[test]
fn test_block_known_answer() {
    assert_eq!(encrypt_block(&FIPS_PLAIN, &FIPS_KEY), FIPS_CIPHER.to_vec());
    assert_eq!(decrypt_block(&FIPS_CIPHER, &FIPS_KEY), FIPS_PLAIN.to_vec());
}

// The same vector through the message interface: the first block of the
// ciphertext is the standard value, the second holds only padding.
#[test]
fn test_message_known_answer() {
    let c = encrypt(&FIPS_PLAIN, &FIPS_KEY);
    assert_eq!(c.len(), 32);
    assert_eq!(&c[..16], &FIPS_CIPHER);
    assert_eq!(decrypt(&c, &FIPS_KEY), FIPS_PLAIN.to_vec());
}

#[test]
fn test_roundtrip_boundary_lengths() {
    let key = hash(b"some key material");
    for len in [0usize, 1, 15, 16, 17, 31, 32, 33, 100] {
        let p: Vec<u8> = (0..len).map(|i| (i * 7 + 3) as u8).collect();
        let c = encrypt(&p, &key);
        assert_eq!(c.len(), (len / 16 + 1) * 16);
        assert_ne!(c, p);
        assert_eq!(decrypt(&c, &key), p);
    }
}

#[test]
fn test_distinct_keys_distinct_ciphertexts() {
    let k1 = hash(b"first key");
    let k2 = hash(b"second key");
    assert_ne!(k1, k2);
    let p = b"the same plaintext".to_vec();
    assert_ne!(encrypt(&p, &k1), encrypt(&p, &k2));
}

#[test]
fn test_encrypt_deterministic() {
    let key = hash(b"a key");
    let p = b"payload".to_vec();
    assert_eq!(encrypt(&p, &key), encrypt(&p, &key));
}

// Passphrase "correct-horse" gives the session key; "hunter2" survives
// the round trip under it and decrypts to garbage under another key.
#[test]
fn test_end_to_end_scenario() {
    let k = hash(b"correct-horse");
    assert_eq!(
        k,
        [
            0x9d, 0xca, 0x66, 0x6e, 0xb5, 0x47, 0x30, 0x71, 0x46, 0x30, 0xd1, 0x51, 0x92, 0x64,
            0xa7, 0xbf, 0x1e, 0xea, 0xad, 0x00, 0xb8, 0xf2, 0xed, 0xc9, 0x0d, 0x3e, 0xcb, 0xfa,
            0xd9, 0x28, 0xd1, 0x63
        ]
    );
    let c = encrypt(b"hunter2", &k);
    assert_eq!(
        c,
        vec![
            0x82, 0xe3, 0xa0, 0x60, 0xd5, 0x9a, 0x4c, 0x0f, 0x36, 0x51, 0xf2, 0x0e, 0xa5, 0xeb,
            0x79, 0x25
        ]
    );
    assert_eq!(decrypt(&c, &k), b"hunter2".to_vec());
    let wrong = hash(b"incorrect-horse");
    let garbage = decrypt(&c, &wrong);
    assert_ne!(String::from_utf8_lossy(&garbage), "hunter2");
}
