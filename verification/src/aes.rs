//! Block cipher engine: a 256-bit-key cipher over 16-byte blocks.
//!
//! The forward transform runs fourteen rounds of byte substitution, a
//! row-wise cyclic shift, a column mix in GF(2^8) (omitted in the last
//! round), and a round-key XOR; round keys come from the standard
//! word-rotation/substitution/round-constant recurrence. The inverse
//! transform applies each step's algebraic inverse in reverse order.
//!
//! Messages of arbitrary length are handled block by block, unchained:
//! the plaintext is always padded with `n` bytes of value `n`
//! (`1 <= n <= 16`) up to a block boundary, each block is transformed
//! independently, and decryption strips the padding it finds. Encryption
//! is deterministic: no initialization vector is drawn, so equal
//! plaintexts under equal keys give equal ciphertexts.
//! `lemma_encrypt_decrypt` proves the exact round trip for every key and
//! every plaintext length, including empty.
use vstd::prelude::*;

use crate::sha::word_at;

verus! {

/// The substitution table, fixed by the published standard.
pub const SBOX: [u8; 256] = [
    0x63, 0x7c, 0x77, 0x7b, 0xf2, 0x6b, 0x6f, 0xc5, 0x30, 0x01, 0x67, 0x2b, 0xfe, 0xd7, 0xab, 0x76,
    0xca, 0x82, 0xc9, 0x7d, 0xfa, 0x59, 0x47, 0xf0, 0xad, 0xd4, 0xa2, 0xaf, 0x9c, 0xa4, 0x72, 0xc0,
    0xb7, 0xfd, 0x93, 0x26, 0x36, 0x3f, 0xf7, 0xcc, 0x34, 0xa5, 0xe5, 0xf1, 0x71, 0xd8, 0x31, 0x15,
    0x04, 0xc7, 0x23, 0xc3, 0x18, 0x96, 0x05, 0x9a, 0x07, 0x12, 0x80, 0xe2, 0xeb, 0x27, 0xb2, 0x75,
    0x09, 0x83, 0x2c, 0x1a, 0x1b, 0x6e, 0x5a, 0xa0, 0x52, 0x3b, 0xd6, 0xb3, 0x29, 0xe3, 0x2f, 0x84,
    0x53, 0xd1, 0x00, 0xed, 0x20, 0xfc, 0xb1, 0x5b, 0x6a, 0xcb, 0xbe, 0x39, 0x4a, 0x4c, 0x58, 0xcf,
    0xd0, 0xef, 0xaa, 0xfb, 0x43, 0x4d, 0x33, 0x85, 0x45, 0xf9, 0x02, 0x7f, 0x50, 0x3c, 0x9f, 0xa8,
    0x51, 0xa3, 0x40, 0x8f, 0x92, 0x9d, 0x38, 0xf5, 0xbc, 0xb6, 0xda, 0x21, 0x10, 0xff, 0xf3, 0xd2,
    0xcd, 0x0c, 0x13, 0xec, 0x5f, 0x97, 0x44, 0x17, 0xc4, 0xa7, 0x7e, 0x3d, 0x64, 0x5d, 0x19, 0x73,
    0x60, 0x81, 0x4f, 0xdc, 0x22, 0x2a, 0x90, 0x88, 0x46, 0xee, 0xb8, 0x14, 0xde, 0x5e, 0x0b, 0xdb,
    0xe0, 0x32, 0x3a, 0x0a, 0x49, 0x06, 0x24, 0x5c, 0xc2, 0xd3, 0xac, 0x62, 0x91, 0x95, 0xe4, 0x79,
    0xe7, 0xc8, 0x37, 0x6d, 0x8d, 0xd5, 0x4e, 0xa9, 0x6c, 0x56, 0xf4, 0xea, 0x65, 0x7a, 0xae, 0x08,
    0xba, 0x78, 0x25, 0x2e, 0x1c, 0xa6, 0xb4, 0xc6, 0xe8, 0xdd, 0x74, 0x1f, 0x4b, 0xbd, 0x8b, 0x8a,
    0x70, 0x3e, 0xb5, 0x66, 0x48, 0x03, 0xf6, 0x0e, 0x61, 0x35, 0x57, 0xb9, 0x86, 0xc1, 0x1d, 0x9e,
    0xe1, 0xf8, 0x98, 0x11, 0x69, 0xd9, 0x8e, 0x94, 0x9b, 0x1e, 0x87, 0xe9, 0xce, 0x55, 0x28, 0xdf,
    0x8c, 0xa1, 0x89, 0x0d, 0xbf, 0xe6, 0x42, 0x68, 0x41, 0x99, 0x2d, 0x0f, 0xb0, 0x54, 0xbb, 0x16,
];

/// The inverse substitution table: `INV_SBOX[SBOX[b]] == b`.
pub const INV_SBOX: [u8; 256] = [
    0x52, 0x09, 0x6a, 0xd5, 0x30, 0x36, 0xa5, 0x38, 0xbf, 0x40, 0xa3, 0x9e, 0x81, 0xf3, 0xd7, 0xfb,
    0x7c, 0xe3, 0x39, 0x82, 0x9b, 0x2f, 0xff, 0x87, 0x34, 0x8e, 0x43, 0x44, 0xc4, 0xde, 0xe9, 0xcb,
    0x54, 0x7b, 0x94, 0x32, 0xa6, 0xc2, 0x23, 0x3d, 0xee, 0x4c, 0x95, 0x0b, 0x42, 0xfa, 0xc3, 0x4e,
    0x08, 0x2e, 0xa1, 0x66, 0x28, 0xd9, 0x24, 0xb2, 0x76, 0x5b, 0xa2, 0x49, 0x6d, 0x8b, 0xd1, 0x25,
    0x72, 0xf8, 0xf6, 0x64, 0x86, 0x68, 0x98, 0x16, 0xd4, 0xa4, 0x5c, 0xcc, 0x5d, 0x65, 0xb6, 0x92,
    0x6c, 0x70, 0x48, 0x50, 0xfd, 0xed, 0xb9, 0xda, 0x5e, 0x15, 0x46, 0x57, 0xa7, 0x8d, 0x9d, 0x84,
    0x90, 0xd8, 0xab, 0x00, 0x8c, 0xbc, 0xd3, 0x0a, 0xf7, 0xe4, 0x58, 0x05, 0xb8, 0xb3, 0x45, 0x06,
    0xd0, 0x2c, 0x1e, 0x8f, 0xca, 0x3f, 0x0f, 0x02, 0xc1, 0xaf, 0xbd, 0x03, 0x01, 0x13, 0x8a, 0x6b,
    0x3a, 0x91, 0x11, 0x41, 0x4f, 0x67, 0xdc, 0xea, 0x97, 0xf2, 0xcf, 0xce, 0xf0, 0xb4, 0xe6, 0x73,
    0x96, 0xac, 0x74, 0x22, 0xe7, 0xad, 0x35, 0x85, 0xe2, 0xf9, 0x37, 0xe8, 0x1c, 0x75, 0xdf, 0x6e,
    0x47, 0xf1, 0x1a, 0x71, 0x1d, 0x29, 0xc5, 0x89, 0x6f, 0xb7, 0x62, 0x0e, 0xaa, 0x18, 0xbe, 0x1b,
    0xfc, 0x56, 0x3e, 0x4b, 0xc6, 0xd2, 0x79, 0x20, 0x9a, 0xdb, 0xc0, 0xfe, 0x78, 0xcd, 0x5a, 0xf4,
    0x1f, 0xdd, 0xa8, 0x33, 0x88, 0x07, 0xc7, 0x31, 0xb1, 0x12, 0x10, 0x59, 0x27, 0x80, 0xec, 0x5f,
    0x60, 0x51, 0x7f, 0xa9, 0x19, 0xb5, 0x4a, 0x0d, 0x2d, 0xe5, 0x7a, 0x9f, 0x93, 0xc9, 0x9c, 0xef,
    0xa0, 0xe0, 0x3b, 0x4d, 0xae, 0x2a, 0xf5, 0xb0, 0xc8, 0xeb, 0xbb, 0x3c, 0x83, 0x53, 0x99, 0x61,
    0x17, 0x2b, 0x04, 0x7e, 0xba, 0x77, 0xd6, 0x26, 0xe1, 0x69, 0x14, 0x63, 0x55, 0x21, 0x0c, 0x7d,
];

/// Round constants of the key schedule: powers of 2 in GF(2^8).
pub const RCON: [u8; 8] = [0x00, 0x01, 0x02, 0x04, 0x08, 0x10, 0x20, 0x40];

pub open spec fn sub_byte(b: u8) -> u8 {
    SBOX[b as int]
}

pub open spec fn inv_sub_byte(b: u8) -> u8 {
    INV_SBOX[b as int]
}

pub proof fn lemma_sbox_inverse(b: u8)
    ensures
        inv_sub_byte(sub_byte(b)) == b,
{
    assert(INV_SBOX[SBOX[b as int] as int] == b);
}

/// Multiplication by x in GF(2^8) modulo the standard polynomial.
pub open spec fn xtime(b: u8) -> u8 {
    (b << 1) ^ (if b >= 0x80 {
        0x1b
    } else {
        0
    })
}

pub open spec fn gm2(b: u8) -> u8 {
    xtime(b)
}

pub open spec fn gm3(b: u8) -> u8 {
    xtime(b) ^ b
}

pub open spec fn gm9(b: u8) -> u8 {
    xtime(xtime(xtime(b))) ^ b
}

pub open spec fn gm11(b: u8) -> u8 {
    xtime(xtime(xtime(b))) ^ xtime(b) ^ b
}

pub open spec fn gm13(b: u8) -> u8 {
    xtime(xtime(xtime(b))) ^ xtime(xtime(b)) ^ b
}

pub open spec fn gm14(b: u8) -> u8 {
    xtime(xtime(xtime(b))) ^ xtime(xtime(b)) ^ xtime(b)
}

fn xtime_e(b: u8) -> (r: u8)
    ensures
        r == xtime(b),
{
    let d = b << 1u8;
    if b >= 0x80 {
        d ^ 0x1b
    } else {
        d ^ 0
    }
}

fn gm2_e(b: u8) -> (r: u8)
    ensures
        r == gm2(b),
{
    xtime_e(b)
}

fn gm3_e(b: u8) -> (r: u8)
    ensures
        r == gm3(b),
{
    xtime_e(b) ^ b
}

fn gm9_e(b: u8) -> (r: u8)
    ensures
        r == gm9(b),
{
    xtime_e(xtime_e(xtime_e(b))) ^ b
}

fn gm11_e(b: u8) -> (r: u8)
    ensures
        r == gm11(b),
{
    xtime_e(xtime_e(xtime_e(b))) ^ xtime_e(b) ^ b
}

fn gm13_e(b: u8) -> (r: u8)
    ensures
        r == gm13(b),
{
    xtime_e(xtime_e(xtime_e(b))) ^ xtime_e(xtime_e(b)) ^ b
}

fn gm14_e(b: u8) -> (r: u8)
    ensures
        r == gm14(b),
{
    xtime_e(xtime_e(xtime_e(b))) ^ xtime_e(xtime_e(b)) ^ xtime_e(b)
}

// ---- key schedule ----
pub open spec fn rot_word(w: u32) -> u32 {
    (w << 8u32) | (w >> 24u32)
}

pub open spec fn sub_word(w: u32) -> u32 {
    ((sub_byte((w >> 24u32) as u8) as u32) << 24u32) | ((sub_byte((w >> 16u32) as u8) as u32)
        << 16u32) | ((sub_byte((w >> 8u32) as u8) as u32) << 8u32) | (sub_byte(w as u8) as u32)
}

/// Word `i` of the expanded key schedule (60 words for a 256-bit key).
pub open spec fn key_word(key: Seq<u8>, i: int) -> u32
    decreases i,
{
    if i < 8 {
        word_at(key, i)
    } else {
        let prev = key_word(key, i - 1);
        let t = if i % 8 == 0 {
            sub_word(rot_word(prev)) ^ ((RCON[i / 8] as u32) << 24u32)
        } else if i % 8 == 4 {
            sub_word(prev)
        } else {
            prev
        };
        key_word(key, i - 8) ^ t
    }
}

pub open spec fn key_words(key: Seq<u8>) -> Seq<u32> {
    Seq::new(60, |i: int| key_word(key, i))
}

pub open spec fn word_byte(w: u32, j: int) -> u8 {
    if j == 0 {
        (w >> 24u32) as u8
    } else if j == 1 {
        (w >> 16u32) as u8
    } else if j == 2 {
        (w >> 8u32) as u8
    } else {
        w as u8
    }
}

/// The 16 bytes of round key `r`: words `4r..4r+4` serialised big-endian.
pub open spec fn round_key(ws: Seq<u32>, r: int) -> Seq<u8> {
    Seq::new(16, |j: int| word_byte(ws[4 * r + j / 4], j % 4))
}

fn sub_word_e(w: u32) -> (r: u32)
    ensures
        r == sub_word(w),
{
    ((SBOX[((w >> 24) as u8) as usize] as u32) << 24) | ((SBOX[((w >> 16) as u8) as usize] as u32)
        << 16) | ((SBOX[((w >> 8) as u8) as usize] as u32) << 8) | (SBOX[(w as u8) as usize] as u32)
}

fn rot_word_e(w: u32) -> (r: u32)
    ensures
        r == rot_word(w),
{
    (w << 8) | (w >> 24)
}

/// Expand a 32-byte key into the 60-word round-key schedule.
pub fn expand_key(key: &[u8; 32]) -> (w: Vec<u32>)
    ensures
        w@ == key_words(key@),
        w@.len() == 60,
{
    let mut w: Vec<u32> = Vec::new();
    for i in 0..8
        invariant
            w@.len() == i,
            forall|j: int| 0 <= j < i ==> w@[j] == key_word(key@, j),
    {
        let word = ((key[4 * i] as u32) << 24) | ((key[4 * i + 1] as u32) << 16) | ((key[4 * i
            + 2] as u32) << 8) | (key[4 * i + 3] as u32);
        assert(word == key_word(key@, i as int));
        w.push(word);
    }
    for i in 8..60
        invariant
            8 <= i <= 60,
            w@.len() == i,
            forall|j: int| 0 <= j < i ==> w@[j] == key_word(key@, j),
    {
        let prev = w[i - 1];
        let t: u32 = if i % 8 == 0 {
            sub_word_e(rot_word_e(prev)) ^ ((RCON[i / 8] as u32) << 24)
        } else if i % 8 == 4 {
            sub_word_e(prev)
        } else {
            prev
        };
        let word = w[i - 8] ^ t;
        assert(word == key_word(key@, i as int));
        w.push(word);
    }
    assert(w@ =~= key_words(key@));
    w
}

// ---- the four state transforms and their inverses ----
/// XOR the round key into the state.
pub open spec fn add_round_key(s: Seq<u8>, k: Seq<u8>) -> Seq<u8> {
    Seq::new(16, |i: int| s[i] ^ k[i])
}

pub open spec fn sub_state(s: Seq<u8>) -> Seq<u8> {
    Seq::new(16, |i: int| sub_byte(s[i]))
}

pub open spec fn inv_sub_state(s: Seq<u8>) -> Seq<u8> {
    Seq::new(16, |i: int| inv_sub_byte(s[i]))
}

/// Where byte `i` of the shifted state comes from: row `i % 4` rotates
/// left by `i % 4` columns (the state is column-major).
pub open spec fn shift_src(i: int) -> int {
    (i + 4 * (i % 4)) % 16
}

pub open spec fn inv_shift_src(i: int) -> int {
    (i + 16 - 4 * (i % 4)) % 16
}

pub open spec fn shift_rows(s: Seq<u8>) -> Seq<u8> {
    Seq::new(16, |i: int| s[shift_src(i)])
}

pub open spec fn inv_shift_rows(s: Seq<u8>) -> Seq<u8> {
    Seq::new(16, |i: int| s[inv_shift_src(i)])
}

/// Byte `i` of the mixed state: the column of `i` times the standard
/// circulant matrix over GF(2^8).
pub open spec fn mix_at(s: Seq<u8>, i: int) -> u8 {
    let c = 4 * (i / 4);
    if i % 4 == 0 {
        gm2(s[c]) ^ gm3(s[c + 1]) ^ s[c + 2] ^ s[c + 3]
    } else if i % 4 == 1 {
        s[c] ^ gm2(s[c + 1]) ^ gm3(s[c + 2]) ^ s[c + 3]
    } else if i % 4 == 2 {
        s[c] ^ s[c + 1] ^ gm2(s[c + 2]) ^ gm3(s[c + 3])
    } else {
        gm3(s[c]) ^ s[c + 1] ^ s[c + 2] ^ gm2(s[c + 3])
    }
}

pub open spec fn mix_columns(s: Seq<u8>) -> Seq<u8> {
    Seq::new(16, |i: int| mix_at(s, i))
}

pub open spec fn inv_mix_at(s: Seq<u8>, i: int) -> u8 {
    let c = 4 * (i / 4);
    if i % 4 == 0 {
        gm14(s[c]) ^ gm11(s[c + 1]) ^ gm13(s[c + 2]) ^ gm9(s[c + 3])
    } else if i % 4 == 1 {
        gm9(s[c]) ^ gm14(s[c + 1]) ^ gm11(s[c + 2]) ^ gm13(s[c + 3])
    } else if i % 4 == 2 {
        gm13(s[c]) ^ gm9(s[c + 1]) ^ gm14(s[c + 2]) ^ gm11(s[c + 3])
    } else {
        gm11(s[c]) ^ gm13(s[c + 1]) ^ gm9(s[c + 2]) ^ gm14(s[c + 3])
    }
}

pub open spec fn inv_mix_columns(s: Seq<u8>) -> Seq<u8> {
    Seq::new(16, |i: int| inv_mix_at(s, i))
}

// ---- the block transform ----
/// The state after the initial whitening and `r` middle rounds.
pub open spec fn cipher_mid(s: Seq<u8>, ws: Seq<u32>, r: int) -> Seq<u8>
    decreases r,
{
    if r <= 0 {
        add_round_key(s, round_key(ws, 0))
    } else {
        add_round_key(mix_columns(shift_rows(sub_state(cipher_mid(s, ws, r - 1)))), round_key(ws, r))
    }
}

/// The forward transform of one 16-byte block: whitening, 13 middle
/// rounds, and a final round without the column mix.
pub open spec fn cipher_block(s: Seq<u8>, ws: Seq<u32>) -> Seq<u8> {
    add_round_key(shift_rows(sub_state(cipher_mid(s, ws, 13))), round_key(ws, 14))
}

/// The inverse transform after undoing the last round key and `i` middle
/// rounds.
pub open spec fn inv_mid(c: Seq<u8>, ws: Seq<u32>, i: int) -> Seq<u8>
    decreases i,
{
    if i <= 0 {
        add_round_key(c, round_key(ws, 14))
    } else {
        inv_mix_columns(
            add_round_key(inv_sub_state(inv_shift_rows(inv_mid(c, ws, i - 1))), round_key(ws, 14 - i)),
        )
    }
}

/// The inverse transform of one 16-byte block.
pub open spec fn inv_cipher_block(c: Seq<u8>, ws: Seq<u32>) -> Seq<u8> {
    add_round_key(inv_sub_state(inv_shift_rows(inv_mid(c, ws, 13))), round_key(ws, 0))
}

// ---- inverse-step lemmas ----
pub proof fn lemma_ark_involution(s: Seq<u8>, k: Seq<u8>)
    requires
        s.len() == 16,
    ensures
        add_round_key(add_round_key(s, k), k) == s,
{
    assert forall|i: int| 0 <= i < 16 implies add_round_key(add_round_key(s, k), k)[i] == s[i] by {
        let x = s[i];
        let y = k[i];
        assert((x ^ y) ^ y == x) by (bit_vector);
    }
    assert(add_round_key(add_round_key(s, k), k) =~= s);
}

pub proof fn lemma_sub_inverse(s: Seq<u8>)
    requires
        s.len() == 16,
    ensures
        inv_sub_state(sub_state(s)) == s,
{
    assert forall|i: int| 0 <= i < 16 implies inv_sub_state(sub_state(s))[i] == s[i] by {
        lemma_sbox_inverse(s[i]);
    }
    assert(inv_sub_state(sub_state(s)) =~= s);
}

pub proof fn lemma_shift_inverse(s: Seq<u8>)
    requires
        s.len() == 16,
    ensures
        inv_shift_rows(shift_rows(s)) == s,
{
    assert forall|i: int| 0 <= i < 16 implies inv_shift_rows(shift_rows(s))[i] == s[i] by {
        let j = inv_shift_src(i);
        assert(0 <= j < 16);
        assert(shift_src(j) == i);
    }
    assert(inv_shift_rows(shift_rows(s)) =~= s);
}

#[verifier::rlimit(100)]
#[verifier::spinoff_prover]
proof fn lemma_mix_col_r0(a0: u8, a1: u8, a2: u8, a3: u8)
    ensures
        gm14(gm2(a0) ^ gm3(a1) ^ a2 ^ a3) ^ gm11(a0 ^ gm2(a1) ^ gm3(a2) ^ a3) ^ gm13(
            a0 ^ a1 ^ gm2(a2) ^ gm3(a3),
        ) ^ gm9(gm3(a0) ^ a1 ^ a2 ^ gm2(a3)) == a0,
{
    assert(gm14(gm2(a0) ^ gm3(a1) ^ a2 ^ a3) ^ gm11(a0 ^ gm2(a1) ^ gm3(a2) ^ a3) ^ gm13(
        a0 ^ a1 ^ gm2(a2) ^ gm3(a3),
    ) ^ gm9(gm3(a0) ^ a1 ^ a2 ^ gm2(a3)) == a0) by (bit_vector);
}

#[verifier::rlimit(100)]
#[verifier::spinoff_prover]
proof fn lemma_mix_col_r1(a0: u8, a1: u8, a2: u8, a3: u8)
    ensures
        gm9(gm2(a0) ^ gm3(a1) ^ a2 ^ a3) ^ gm14(a0 ^ gm2(a1) ^ gm3(a2) ^ a3) ^ gm11(
            a0 ^ a1 ^ gm2(a2) ^ gm3(a3),
        ) ^ gm13(gm3(a0) ^ a1 ^ a2 ^ gm2(a3)) == a1,
{
    assert(gm9(gm2(a0) ^ gm3(a1) ^ a2 ^ a3) ^ gm14(a0 ^ gm2(a1) ^ gm3(a2) ^ a3) ^ gm11(
        a0 ^ a1 ^ gm2(a2) ^ gm3(a3),
    ) ^ gm13(gm3(a0) ^ a1 ^ a2 ^ gm2(a3)) == a1) by (bit_vector);
}

#[verifier::rlimit(100)]
#[verifier::spinoff_prover]
proof fn lemma_mix_col_r2(a0: u8, a1: u8, a2: u8, a3: u8)
    ensures
        gm13(gm2(a0) ^ gm3(a1) ^ a2 ^ a3) ^ gm9(a0 ^ gm2(a1) ^ gm3(a2) ^ a3) ^ gm14(
            a0 ^ a1 ^ gm2(a2) ^ gm3(a3),
        ) ^ gm11(gm3(a0) ^ a1 ^ a2 ^ gm2(a3)) == a2,
{
    assert(gm13(gm2(a0) ^ gm3(a1) ^ a2 ^ a3) ^ gm9(a0 ^ gm2(a1) ^ gm3(a2) ^ a3) ^ gm14(
        a0 ^ a1 ^ gm2(a2) ^ gm3(a3),
    ) ^ gm11(gm3(a0) ^ a1 ^ a2 ^ gm2(a3)) == a2) by (bit_vector);
}

#[verifier::rlimit(100)]
#[verifier::spinoff_prover]
proof fn lemma_mix_col_r3(a0: u8, a1: u8, a2: u8, a3: u8)
    ensures
        gm11(gm2(a0) ^ gm3(a1) ^ a2 ^ a3) ^ gm13(a0 ^ gm2(a1) ^ gm3(a2) ^ a3) ^ gm9(
            a0 ^ a1 ^ gm2(a2) ^ gm3(a3),
        ) ^ gm14(gm3(a0) ^ a1 ^ a2 ^ gm2(a3)) == a3,
{
    assert(gm11(gm2(a0) ^ gm3(a1) ^ a2 ^ a3) ^ gm13(a0 ^ gm2(a1) ^ gm3(a2) ^ a3) ^ gm9(
        a0 ^ a1 ^ gm2(a2) ^ gm3(a3),
    ) ^ gm14(gm3(a0) ^ a1 ^ a2 ^ gm2(a3)) == a3) by (bit_vector);
}

#[verifier::rlimit(100)]
#[verifier::spinoff_prover]
pub proof fn lemma_mix_inverse(s: Seq<u8>)
    requires
        s.len() == 16,
    ensures
        inv_mix_columns(mix_columns(s)) == s,
{
    assert forall|i: int| 0 <= i < 16 implies inv_mix_columns(mix_columns(s))[i] == s[i] by {
        let c = 4 * (i / 4);
        let a0 = s[c];
        let a1 = s[c + 1];
        let a2 = s[c + 2];
        let a3 = s[c + 3];
        assert(mix_columns(s)[c] == gm2(a0) ^ gm3(a1) ^ a2 ^ a3);
        assert(mix_columns(s)[c + 1] == a0 ^ gm2(a1) ^ gm3(a2) ^ a3);
        assert(mix_columns(s)[c + 2] == a0 ^ a1 ^ gm2(a2) ^ gm3(a3));
        assert(mix_columns(s)[c + 3] == gm3(a0) ^ a1 ^ a2 ^ gm2(a3));
        if i % 4 == 0 {
            lemma_mix_col_r0(a0, a1, a2, a3);
        } else if i % 4 == 1 {
            lemma_mix_col_r1(a0, a1, a2, a3);
        } else if i % 4 == 2 {
            lemma_mix_col_r2(a0, a1, a2, a3);
        } else {
            lemma_mix_col_r3(a0, a1, a2, a3);
        }
    }
    assert(inv_mix_columns(mix_columns(s)) =~= s);
}

// ---- the block round trip ----
proof fn lemma_inv_mid_unwinds(b: Seq<u8>, ws: Seq<u32>, i: int)
    requires
        b.len() == 16,
        0 <= i <= 13,
    ensures
        inv_mid(cipher_block(b, ws), ws, i) == shift_rows(sub_state(cipher_mid(b, ws, 13 - i))),
    decreases i,
{
    let c = cipher_block(b, ws);
    if i == 0 {
        lemma_ark_involution(shift_rows(sub_state(cipher_mid(b, ws, 13))), round_key(ws, 14));
    } else {
        lemma_inv_mid_unwinds(b, ws, i - 1);
        let prev = shift_rows(sub_state(cipher_mid(b, ws, 13 - (i - 1))));
        lemma_shift_inverse(sub_state(cipher_mid(b, ws, 14 - i)));
        lemma_sub_inverse(cipher_mid(b, ws, 14 - i));
        assert(inv_sub_state(inv_shift_rows(prev)) == cipher_mid(b, ws, 14 - i));
        assert(cipher_mid(b, ws, 14 - i) == add_round_key(
            mix_columns(shift_rows(sub_state(cipher_mid(b, ws, 13 - i)))),
            round_key(ws, 14 - i),
        ));
        lemma_ark_involution(
            mix_columns(shift_rows(sub_state(cipher_mid(b, ws, 13 - i)))),
            round_key(ws, 14 - i),
        );
        lemma_mix_inverse(shift_rows(sub_state(cipher_mid(b, ws, 13 - i))));
    }
}

/// The inverse transform undoes the forward transform on every 16-byte
/// block, under every key schedule.
pub proof fn lemma_block_roundtrip(b: Seq<u8>, ws: Seq<u32>)
    requires
        b.len() == 16,
    ensures
        inv_cipher_block(cipher_block(b, ws), ws) == b,
{
    lemma_inv_mid_unwinds(b, ws, 13);
    lemma_shift_inverse(sub_state(cipher_mid(b, ws, 0)));
    lemma_sub_inverse(cipher_mid(b, ws, 0));
    lemma_ark_involution(b, round_key(ws, 0));
}

// ---- executable transforms ----
fn sub_state_e(s: &Vec<u8>) -> (r: Vec<u8>)
    requires
        s@.len() == 16,
    ensures
        r@ == sub_state(s@),
{
    let mut out: Vec<u8> = Vec::new();
    for i in 0..16
        invariant
            s@.len() == 16,
            out@.len() == i,
            forall|j: int| 0 <= j < i ==> out@[j] == sub_byte(s@[j]),
    {
        out.push(SBOX[s[i] as usize]);
    }
    assert(out@ =~= sub_state(s@));
    out
}

fn inv_sub_state_e(s: &Vec<u8>) -> (r: Vec<u8>)
    requires
        s@.len() == 16,
    ensures
        r@ == inv_sub_state(s@),
{
    let mut out: Vec<u8> = Vec::new();
    for i in 0..16
        invariant
            s@.len() == 16,
            out@.len() == i,
            forall|j: int| 0 <= j < i ==> out@[j] == inv_sub_byte(s@[j]),
    {
        out.push(INV_SBOX[s[i] as usize]);
    }
    assert(out@ =~= inv_sub_state(s@));
    out
}

fn shift_src_e(i: usize) -> (r: usize)
    requires
        i < 16,
    ensures
        r == shift_src(i as int),
        r < 16,
{
    (i + 4 * (i % 4)) % 16
}

fn inv_shift_src_e(i: usize) -> (r: usize)
    requires
        i < 16,
    ensures
        r == inv_shift_src(i as int),
        r < 16,
{
    (i + 16 - 4 * (i % 4)) % 16
}

fn shift_rows_e(s: &Vec<u8>) -> (r: Vec<u8>)
    requires
        s@.len() == 16,
    ensures
        r@ == shift_rows(s@),
{
    let mut out: Vec<u8> = Vec::new();
    for i in 0..16
        invariant
            s@.len() == 16,
            out@.len() == i,
            forall|j: int| 0 <= j < i ==> out@[j] == s@[shift_src(j)],
    {
        out.push(s[shift_src_e(i)]);
    }
    assert(out@ =~= shift_rows(s@));
    out
}

fn inv_shift_rows_e(s: &Vec<u8>) -> (r: Vec<u8>)
    requires
        s@.len() == 16,
    ensures
        r@ == inv_shift_rows(s@),
{
    let mut out: Vec<u8> = Vec::new();
    for i in 0..16
        invariant
            s@.len() == 16,
            out@.len() == i,
            forall|j: int| 0 <= j < i ==> out@[j] == s@[inv_shift_src(j)],
    {
        out.push(s[inv_shift_src_e(i)]);
    }
    assert(out@ =~= inv_shift_rows(s@));
    out
}

#[verifier::rlimit(100)]
fn mix_columns_e(s: &Vec<u8>) -> (r: Vec<u8>)
    requires
        s@.len() == 16,
    ensures
        r@ == mix_columns(s@),
{
    let mut out: Vec<u8> = Vec::new();
    for c in 0..4
        invariant
            s@.len() == 16,
            out@.len() == 4 * c,
            forall|j: int| 0 <= j < 4 * c ==> out@[j] == mix_at(s@, j),
    {
        let a0 = s[4 * c];
        let a1 = s[4 * c + 1];
        let a2 = s[4 * c + 2];
        let a3 = s[4 * c + 3];
        out.push(gm2_e(a0) ^ gm3_e(a1) ^ a2 ^ a3);
        out.push(a0 ^ gm2_e(a1) ^ gm3_e(a2) ^ a3);
        out.push(a0 ^ a1 ^ gm2_e(a2) ^ gm3_e(a3));
        out.push(gm3_e(a0) ^ a1 ^ a2 ^ gm2_e(a3));
        assert(out@[4 * c as int] == mix_at(s@, 4 * c as int));
        assert(out@[4 * c as int + 1] == mix_at(s@, 4 * c as int + 1));
        assert(out@[4 * c as int + 2] == mix_at(s@, 4 * c as int + 2));
        assert(out@[4 * c as int + 3] == mix_at(s@, 4 * c as int + 3));
    }
    assert(out@ =~= mix_columns(s@));
    out
}

#[verifier::rlimit(100)]
fn inv_mix_columns_e(s: &Vec<u8>) -> (r: Vec<u8>)
    requires
        s@.len() == 16,
    ensures
        r@ == inv_mix_columns(s@),
{
    let mut out: Vec<u8> = Vec::new();
    for c in 0..4
        invariant
            s@.len() == 16,
            out@.len() == 4 * c,
            forall|j: int| 0 <= j < 4 * c ==> out@[j] == inv_mix_at(s@, j),
    {
        let a0 = s[4 * c];
        let a1 = s[4 * c + 1];
        let a2 = s[4 * c + 2];
        let a3 = s[4 * c + 3];
        out.push(gm14_e(a0) ^ gm11_e(a1) ^ gm13_e(a2) ^ gm9_e(a3));
        out.push(gm9_e(a0) ^ gm14_e(a1) ^ gm11_e(a2) ^ gm13_e(a3));
        out.push(gm13_e(a0) ^ gm9_e(a1) ^ gm14_e(a2) ^ gm11_e(a3));
        out.push(gm11_e(a0) ^ gm13_e(a1) ^ gm9_e(a2) ^ gm14_e(a3));
        assert(out@[4 * c as int] == inv_mix_at(s@, 4 * c as int));
        assert(out@[4 * c as int + 1] == inv_mix_at(s@, 4 * c as int + 1));
        assert(out@[4 * c as int + 2] == inv_mix_at(s@, 4 * c as int + 2));
        assert(out@[4 * c as int + 3] == inv_mix_at(s@, 4 * c as int + 3));
    }
    assert(out@ =~= inv_mix_columns(s@));
    out
}

fn add_round_key_e(s: &Vec<u8>, w: &Vec<u32>, r: usize) -> (o: Vec<u8>)
    requires
        s@.len() == 16,
        w@.len() == 60,
        r <= 14,
    ensures
        o@ == add_round_key(s@, round_key(w@, r as int)),
{
    let mut out: Vec<u8> = Vec::new();
    for j in 0..16
        invariant
            s@.len() == 16,
            w@.len() == 60,
            r <= 14,
            out@.len() == j,
            forall|i: int|
                0 <= i < j ==> out@[i] == (s@[i] ^ round_key(w@, r as int)[i]),
    {
        let word = w[4 * r + j / 4];
        let kb: u8 = if j % 4 == 0 {
            (word >> 24) as u8
        } else if j % 4 == 1 {
            (word >> 16) as u8
        } else if j % 4 == 2 {
            (word >> 8) as u8
        } else {
            word as u8
        };
        assert(kb == round_key(w@, r as int)[j as int]);
        out.push(s[j] ^ kb);
    }
    assert(out@ =~= add_round_key(s@, round_key(w@, r as int)));
    out
}

/// Run the forward transform on the 16 bytes of `p` starting at `off`.
fn cipher_block_e(p: &[u8], off: usize, w: &Vec<u32>) -> (r: Vec<u8>)
    requires
        off + 16 <= p@.len(),
        w@.len() == 60,
    ensures
        r@ == cipher_block(p@.subrange(off as int, off as int + 16), w@),
        r@.len() == 16,
{
    let ghost blk = p@.subrange(off as int, off as int + 16);
    let plen = p.len();
    assert(off + 16 <= plen);
    let mut state: Vec<u8> = Vec::new();
    for j in 0..16
        invariant
            off + 16 <= p@.len() <= usize::MAX,
            blk == p@.subrange(off as int, off as int + 16),
            state@ =~= blk.subrange(0, j as int),
    {
        state.push(p[off + j]);
    }
    assert(state@ =~= blk);
    let mut state = add_round_key_e(&state, w, 0);
    assert(state@ == cipher_mid(blk, w@, 0));
    for r in 1..14
        invariant
            w@.len() == 60,
            1 <= r <= 14,
            state@ == cipher_mid(blk, w@, r - 1),
            state@.len() == 16,
    {
        let s1 = sub_state_e(&state);
        let s2 = shift_rows_e(&s1);
        let s3 = mix_columns_e(&s2);
        state = add_round_key_e(&s3, w, r);
        assert(state@ == cipher_mid(blk, w@, r as int));
    }
    let s1 = sub_state_e(&state);
    let s2 = shift_rows_e(&s1);
    let out = add_round_key_e(&s2, w, 14);
    assert(out@ == cipher_block(blk, w@));
    out
}

/// Run the inverse transform on the 16 bytes of `c` starting at `off`.
fn inv_cipher_block_e(c: &[u8], off: usize, w: &Vec<u32>) -> (r: Vec<u8>)
    requires
        off + 16 <= c@.len(),
        w@.len() == 60,
    ensures
        r@ == inv_cipher_block(c@.subrange(off as int, off as int + 16), w@),
        r@.len() == 16,
{
    let ghost blk = c@.subrange(off as int, off as int + 16);
    let clen = c.len();
    assert(off + 16 <= clen);
    let mut state: Vec<u8> = Vec::new();
    for j in 0..16
        invariant
            off + 16 <= c@.len() <= usize::MAX,
            blk == c@.subrange(off as int, off as int + 16),
            state@ =~= blk.subrange(0, j as int),
    {
        state.push(c[off + j]);
    }
    assert(state@ =~= blk);
    let mut state = add_round_key_e(&state, w, 14);
    assert(state@ == inv_mid(blk, w@, 0));
    for i in 1..14
        invariant
            w@.len() == 60,
            1 <= i <= 14,
            state@ == inv_mid(blk, w@, i - 1),
            state@.len() == 16,
    {
        let s1 = inv_shift_rows_e(&state);
        let s2 = inv_sub_state_e(&s1);
        let s3 = add_round_key_e(&s2, w, 14 - i);
        state = inv_mix_columns_e(&s3);
        assert(state@ == inv_mid(blk, w@, i as int));
    }
    let s1 = inv_shift_rows_e(&state);
    let s2 = inv_sub_state_e(&s1);
    let out = add_round_key_e(&s2, w, 0);
    assert(out@ == inv_cipher_block(blk, w@));
    out
}

// ---- arbitrary-length messages ----
/// The padded plaintext: `n` bytes of value `n` bring the length to the
/// next block boundary, with a whole padding block when already aligned.
pub open spec fn pad16(p: Seq<u8>) -> Seq<u8> {
    let n = 16 - (p.len() % 16);
    p + Seq::new(n as nat, |i: int| n as u8)
}

/// Strip the padding a decryption uncovered. Total: bytes that do not
/// look like padding are left untouched.
pub open spec fn unpad16(s: Seq<u8>) -> Seq<u8> {
    if s.len() == 0 {
        s
    } else {
        let n = s.last() as int;
        if 1 <= n <= 16 && n <= s.len() {
            s.take(s.len() - n)
        } else {
            s
        }
    }
}

/// The first `nb` blocks of `s`, each run through the forward transform.
pub open spec fn enc_blocks(s: Seq<u8>, ws: Seq<u32>, nb: int) -> Seq<u8>
    decreases nb,
{
    if nb <= 0 {
        Seq::<u8>::empty()
    } else {
        enc_blocks(s, ws, nb - 1) + cipher_block(s.subrange(16 * nb - 16, 16 * nb), ws)
    }
}

/// The first `nb` blocks of `c`, each run through the inverse transform.
pub open spec fn dec_blocks(c: Seq<u8>, ws: Seq<u32>, nb: int) -> Seq<u8>
    decreases nb,
{
    if nb <= 0 {
        Seq::<u8>::empty()
    } else {
        dec_blocks(c, ws, nb - 1) + inv_cipher_block(c.subrange(16 * nb - 16, 16 * nb), ws)
    }
}

/// Ciphertext of `p` under `key`: the padded plaintext, block by block
/// through the forward transform.
pub open spec fn spec_encrypt(p: Seq<u8>, key: Seq<u8>) -> Seq<u8> {
    let padded = pad16(p);
    enc_blocks(padded, key_words(key), padded.len() as int / 16)
}

/// Plaintext of `c` under `key`: whole blocks through the inverse
/// transform, any trailing fragment untouched, then the padding
/// stripped.
pub open spec fn spec_decrypt(c: Seq<u8>, key: Seq<u8>) -> Seq<u8> {
    let nb = c.len() as int / 16;
    unpad16(dec_blocks(c, key_words(key), nb) + c.skip(16 * nb))
}

pub proof fn lemma_enc_blocks_len(s: Seq<u8>, ws: Seq<u32>, nb: int)
    requires
        nb >= 0,
    ensures
        enc_blocks(s, ws, nb).len() == 16 * nb,
    decreases nb,
{
    if nb > 0 {
        lemma_enc_blocks_len(s, ws, nb - 1);
    }
}

pub proof fn lemma_dec_blocks_len(c: Seq<u8>, ws: Seq<u32>, nb: int)
    requires
        nb >= 0,
    ensures
        dec_blocks(c, ws, nb).len() == 16 * nb,
    decreases nb,
{
    if nb > 0 {
        lemma_dec_blocks_len(c, ws, nb - 1);
    }
}

/// Block `k` of the blockwise ciphertext is the transform of block `k`
/// of the input.
proof fn lemma_enc_blocks_block(s: Seq<u8>, ws: Seq<u32>, nb: int, k: int)
    requires
        0 <= k < nb,
    ensures
        enc_blocks(s, ws, nb).subrange(16 * k, 16 * k + 16) == cipher_block(
            s.subrange(16 * k, 16 * k + 16),
            ws,
        ),
    decreases nb,
{
    lemma_enc_blocks_len(s, ws, nb - 1);
    if k == nb - 1 {
        assert(enc_blocks(s, ws, nb).subrange(16 * k, 16 * k + 16) =~= cipher_block(
            s.subrange(16 * k, 16 * k + 16),
            ws,
        ));
    } else {
        lemma_enc_blocks_block(s, ws, nb - 1, k);
        assert(enc_blocks(s, ws, nb).subrange(16 * k, 16 * k + 16) =~= enc_blocks(
            s,
            ws,
            nb - 1,
        ).subrange(16 * k, 16 * k + 16));
    }
}

/// Decrypting the first `k` blocks of a blockwise ciphertext of `s`
/// gives back the first `k` blocks of `s`.
proof fn lemma_dec_enc_blocks(s: Seq<u8>, ws: Seq<u32>, nb: int, k: int)
    requires
        0 <= k <= nb,
        s.len() >= 16 * nb,
    ensures
        dec_blocks(enc_blocks(s, ws, nb), ws, k) == s.take(16 * k),
    decreases k,
{
    let c = enc_blocks(s, ws, nb);
    if k == 0 {
        assert(dec_blocks(c, ws, 0) =~= s.take(0));
    } else {
        lemma_dec_enc_blocks(s, ws, nb, k - 1);
        lemma_enc_blocks_block(s, ws, nb, k - 1);
        lemma_block_roundtrip(s.subrange(16 * k - 16, 16 * k), ws);
        assert(dec_blocks(c, ws, k) == s.take(16 * (k - 1)) + s.subrange(16 * k - 16, 16 * k));
        assert(s.take(16 * (k - 1)) + s.subrange(16 * k - 16, 16 * k) =~= s.take(16 * k));
    }
}

/// The binding round trip: under any 32-byte key, decryption undoes
/// encryption for every plaintext, of every length.
pub proof fn lemma_encrypt_decrypt(p: Seq<u8>, key: Seq<u8>)
    ensures
        spec_decrypt(spec_encrypt(p, key), key) == p,
{
    let n = 16 - (p.len() % 16);
    let padded = pad16(p);
    let ws = key_words(key);
    assert(padded.len() == p.len() + n);
    assert(padded.len() % 16 == 0) by {
        assert(p.len() % 16 + n == 16);
    }
    let nb = padded.len() as int / 16;
    assert(padded.len() == 16 * nb);
    let c = spec_encrypt(p, key);
    lemma_enc_blocks_len(padded, ws, nb);
    assert(c.len() == 16 * nb);
    assert(c.len() as int / 16 == nb);
    assert(c.skip(16 * nb) =~= Seq::<u8>::empty());
    lemma_dec_enc_blocks(padded, ws, nb, nb);
    assert(dec_blocks(c, ws, nb) == padded.take(16 * nb));
    assert(padded.take(16 * nb) =~= padded);
    let d = dec_blocks(c, ws, nb) + c.skip(16 * nb);
    assert(d =~= padded);
    assert(padded.last() == n as u8);
    assert(1 <= n <= 16 && n <= padded.len());
    assert(unpad16(padded) == padded.take(padded.len() - n));
    assert(padded.take(padded.len() - n) =~= p);
}

/// Encrypt `plaintext` under a 32-byte key. Deterministic; the result
/// length is `plaintext` rounded up to the next multiple of 16.
pub fn encrypt(plaintext: &[u8], key: &[u8; 32]) -> (c: Vec<u8>)
    requires
        plaintext@.len() + 16 <= usize::MAX,
    ensures
        c@ == spec_encrypt(plaintext@, key@),
{
    let w = expand_key(key);
    let len = plaintext.len();
    let mut padded: Vec<u8> = Vec::new();
    for i in 0..len
        invariant
            len == plaintext@.len(),
            padded@ =~= plaintext@.subrange(0, i as int),
    {
        padded.push(plaintext[i]);
    }
    assert(padded@ =~= plaintext@);
    let n = 16 - (len % 16);
    for j in 0..n
        invariant
            len == plaintext@.len(),
            len + 16 <= usize::MAX,
            n == 16 - (len % 16),
            padded@ =~= plaintext@ + Seq::new(j as nat, |k: int| n as u8),
    {
        padded.push(n as u8);
    }
    assert(padded@ =~= pad16(plaintext@));
    assert(padded@.len() % 16 == 0) by {
        assert(plaintext@.len() % 16 + n == 16);
    }
    let nb = padded.len() / 16;
    assert(padded@.len() == 16 * nb);
    let mut out: Vec<u8> = Vec::new();
    for b in 0..nb
        invariant
            w@ == key_words(key@),
            w@.len() == 60,
            padded@ == pad16(plaintext@),
            padded@.len() == 16 * nb,
            padded@.len() <= usize::MAX,
            out@ == enc_blocks(padded@, w@, b as int),
            out@.len() == 16 * b,
    {
        let mut cb = cipher_block_e(padded.as_slice(), 16 * b, &w);
        out.append(&mut cb);
        assert(out@ =~= enc_blocks(padded@, w@, b + 1));
    }
    out
}

/// Decrypt `cyphertext` under a 32-byte key. Total: whole blocks are
/// inverted, a trailing fragment is passed through, and whatever
/// padding the result shows is stripped.
pub fn decrypt(cyphertext: &[u8], key: &[u8; 32]) -> (p: Vec<u8>)
    ensures
        p@ == spec_decrypt(cyphertext@, key@),
{
    let w = expand_key(key);
    let len = cyphertext.len();
    let nb = len / 16;
    let mut out: Vec<u8> = Vec::new();
    for b in 0..nb
        invariant
            w@ == key_words(key@),
            w@.len() == 60,
            len == cyphertext@.len(),
            nb == len / 16,
            out@ == dec_blocks(cyphertext@, w@, b as int),
            out@.len() == 16 * b,
    {
        assert(16 * b + 16 <= len);
        let mut pb = inv_cipher_block_e(cyphertext, 16 * b, &w);
        out.append(&mut pb);
        assert(out@ =~= dec_blocks(cyphertext@, w@, b + 1));
    }
    let ghost whole = dec_blocks(cyphertext@, w@, nb as int);
    for i in (16 * nb)..len
        invariant
            len == cyphertext@.len(),
            nb == len / 16,
            16 * nb <= i <= len,
            out@ =~= whole + cyphertext@.subrange(16 * nb, i as int),
    {
        out.push(cyphertext[i]);
    }
    assert(out@ =~= whole + cyphertext@.skip(16 * nb));
    let ghost before = out@;
    if out.len() > 0 {
        let last = out[out.len() - 1];
        if 1 <= last && last <= 16 && (last as usize) <= out.len() {
            let newlen = out.len() - (last as usize);
            out.truncate(newlen);
            assert(out@ =~= before.take(before.len() - last as int));
        }
    }
    assert(out@ == unpad16(before));
    out
}

/// Run the forward transform on one 16-byte block: the single-block
/// interface the standard's test vectors speak of.
pub fn encrypt_block(block: &[u8], key: &[u8; 32]) -> (c: Vec<u8>)
    requires
        block@.len() == 16,
    ensures
        c@ == cipher_block(block@, key_words(key@)),
{
    let w = expand_key(key);
    let r = cipher_block_e(block, 0, &w);
    assert(block@.subrange(0, 16) =~= block@);
    r
}

/// Run the inverse transform on one 16-byte block.
pub fn decrypt_block(block: &[u8], key: &[u8; 32]) -> (p: Vec<u8>)
    requires
        block@.len() == 16,
    ensures
        p@ == inv_cipher_block(block@, key_words(key@)),
{
    let w = expand_key(key);
    let r = inv_cipher_block_e(block, 0, &w);
    assert(block@.subrange(0, 16) =~= block@);
    r
}

} // verus!
