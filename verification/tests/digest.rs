use goonpass::sha::hash;

#[test]
fn test() {
    assert_eq!(
        hash(&[0x61, 0x62, 0x63]),
        [
            0xba, 0x78, 0x16, 0xbf, 0x8f, 0x01, 0xcf, 0xea, 0x41, 0x41, 0x40, 0xde, 0x5d, 0xae,
            0x22, 0x23, 0xb0, 0x03, 0x61, 0xa3, 0x96, 0x17, 0x7a, 0x9c, 0xb4, 0x10, 0xff, 0x61,
            0xf2, 0x00, 0x15, 0xad
        ]
    );
}

#[test]
fn test_hash_empty() {
    assert_eq!(
        hash(&[]),
        [
            0xe3, 0xb0, 0xc4, 0x42, 0x98, 0xfc, 0x1c, 0x14, 0x9a, 0xfb, 0xf4, 0xc8, 0x99, 0x6f,
            0xb9, 0x24, 0x27, 0xae, 0x41, 0xe4, 0x64, 0x9b, 0x93, 0x4c, 0xa4, 0x95, 0x99, 0x1b,
            0x78, 0x52, 0xb8, 0x55
        ]
    );
}

#[test]
fn test_hash_deterministic_and_32_bytes() {
    let m: Vec<u8> = (0u8..=255).cycle().take(1000).collect();
    let a = hash(&m);
    let b = hash(&m);
    assert_eq!(a, b);
    assert_eq!(a.len(), 32);
}

// The padding boundary: remainders of 55, 56 and 63 bytes exercise the
// one-block and two-block padding paths.
#[test]
fn test_hash_padding_boundaries() {
    for len in [55usize, 56, 57, 63, 64, 65] {
        let m = vec![0x41u8; len];
        let d = hash(&m);
        assert_eq!(d.len(), 32);
        // each length must give a distinct digest from the next
        let d2 = hash(&vec![0x41u8; len + 1]);
        assert_ne!(d, d2);
    }
}

fn hamming(a: &[u8; 32], b: &[u8; 32]) -> u32 {
    let mut n = 0;
    for i in 0..32 {
        n += (a[i] ^ b[i]).count_ones();
    }
    n
}

// Avalanche sanity: one flipped input bit moves roughly half of the 256
// digest bits. A loose band serves as the regression guard.
#[test]
fn test_hash_avalanche() {
    let base = b"the quick brown fox jumps over the lazy dog".to_vec();
    let d0 = hash(&base);
    for bit in [0usize, 7, 100, 340] {
        let mut flipped = base.clone();
        flipped[bit / 8] ^= 1 << (bit % 8);
        let d1 = hash(&flipped);
        let dist = hamming(&d0, &d1);
        assert!(dist >= 64 && dist <= 192, "distance {} out of band", dist);
    }
}
