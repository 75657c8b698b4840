//! Digest engine: a 256-bit Merkle-Damgard hash over 64-byte blocks.
//!
//! `spec_sha256` is the mathematical statement of the algorithm: pad the
//! message to a multiple of 64 bytes, thread an 8-word state through a
//! 64-round compression of each block, and serialise the final state
//! big-endian. `hash` computes it and is proved to return exactly that.
use vstd::prelude::*;

verus! {

/// Round constants, fixed by the published standard.
pub const K: [u32; 64] = [
    0x428a2f98, 0x71374491, 0xb5c0fbcf, 0xe9b5dba5, 0x3956c25b, 0x59f111f1, 0x923f82a4, 0xab1c5ed5,
    0xd807aa98, 0x12835b01, 0x243185be, 0x550c7dc3, 0x72be5d74, 0x80deb1fe, 0x9bdc06a7, 0xc19bf174,
    0xe49b69c1, 0xefbe4786, 0x0fc19dc6, 0x240ca1cc, 0x2de92c6f, 0x4a7484aa, 0x5cb0a9dc, 0x76f988da,
    0x983e5152, 0xa831c66d, 0xb00327c8, 0xbf597fc7, 0xc6e00bf3, 0xd5a79147, 0x06ca6351, 0x14292967,
    0x27b70a85, 0x2e1b2138, 0x4d2c6dfc, 0x53380d13, 0x650a7354, 0x766a0abb, 0x81c2c92e, 0x92722c85,
    0xa2bfe8a1, 0xa81a664b, 0xc24b8b70, 0xc76c51a3, 0xd192e819, 0xd6990624, 0xf40e3585, 0x106aa070,
    0x19a4c116, 0x1e376c08, 0x2748774c, 0x34b0bcb5, 0x391c0cb3, 0x4ed8aa4a, 0x5b9cca4f, 0x682e6ff3,
    0x748f82ee, 0x78a5636f, 0x84c87814, 0x8cc70208, 0x90befffa, 0xa4506ceb, 0xbef9a3f7, 0xc67178f2,
];

/// Initial state words, fixed by the published standard.
pub const H_INIT: [u32; 8] = [
    0x6a09e667, 0xbb67ae85, 0x3c6ef372, 0xa54ff53a, 0x510e527f, 0x9b05688c, 0x1f83d9ab, 0x5be0cd19,
];

pub open spec fn spec_rotr(x: u32, n: u32) -> u32 {
    (x >> n) | (x << ((32 - n) as u32))
}

fn rotr(x: u32, n: u32) -> (r: u32)
    requires
        1 <= n <= 31,
    ensures
        r == spec_rotr(x, n),
{
    (x >> n) | (x << (32 - n))
}

pub open spec fn spec_ch(x: u32, y: u32, z: u32) -> u32 {
    (x & y) ^ (!x & z)
}

pub open spec fn spec_maj(x: u32, y: u32, z: u32) -> u32 {
    (x & y) ^ (x & z) ^ (y & z)
}

pub open spec fn spec_sigma0u(x: u32) -> u32 {
    spec_rotr(x, 2) ^ spec_rotr(x, 13) ^ spec_rotr(x, 22)
}

pub open spec fn spec_sigma1u(x: u32) -> u32 {
    spec_rotr(x, 6) ^ spec_rotr(x, 11) ^ spec_rotr(x, 25)
}

pub open spec fn spec_sigma0l(x: u32) -> u32 {
    spec_rotr(x, 7) ^ spec_rotr(x, 18) ^ (x >> 3)
}

pub open spec fn spec_sigma1l(x: u32) -> u32 {
    spec_rotr(x, 17) ^ spec_rotr(x, 19) ^ (x >> 10)
}

pub fn ch(x: u32, y: u32, z: u32) -> (r: u32)
    ensures
        r == spec_ch(x, y, z),
{
    (x & y) ^ (!x & z)
}

pub fn maj(x: u32, y: u32, z: u32) -> (r: u32)
    ensures
        r == spec_maj(x, y, z),
{
    (x & y) ^ (x & z) ^ (y & z)
}

pub fn sigma0u(x: u32) -> (r: u32)
    ensures
        r == spec_sigma0u(x),
{
    rotr(x, 2) ^ rotr(x, 13) ^ rotr(x, 22)
}

pub fn sigma1u(x: u32) -> (r: u32)
    ensures
        r == spec_sigma1u(x),
{
    rotr(x, 6) ^ rotr(x, 11) ^ rotr(x, 25)
}

pub fn sigma0l(x: u32) -> (r: u32)
    ensures
        r == spec_sigma0l(x),
{
    rotr(x, 7) ^ rotr(x, 18) ^ (x >> 3)
}

pub fn sigma1l(x: u32) -> (r: u32)
    ensures
        r == spec_sigma1l(x),
{
    rotr(x, 17) ^ rotr(x, 19) ^ (x >> 10)
}

/// Word `i` of a block, read big-endian from bytes `4i..4i+4`.
pub open spec fn word_at(b: Seq<u8>, i: int) -> u32 {
    ((b[4 * i] as u32) << 24u32) | ((b[4 * i + 1] as u32) << 16u32) | ((b[4 * i + 2] as u32)
        << 8u32) | (b[4 * i + 3] as u32)
}

/// The 64-word message schedule of one block.
pub open spec fn sched(b: Seq<u8>, i: int) -> u32
    decreases i,
{
    if i < 16 {
        word_at(b, i)
    } else {
        spec_sigma1l(sched(b, i - 2)).wrapping_add(sched(b, i - 7)).wrapping_add(
            spec_sigma0l(sched(b, i - 15)),
        ).wrapping_add(sched(b, i - 16))
    }
}

/// One compression round: the two temporaries enter, the state rotates.
pub open spec fn round_step(s: Seq<u32>, w: u32, k: u32) -> Seq<u32> {
    let t1 = s[7].wrapping_add(spec_sigma1u(s[4])).wrapping_add(
        spec_ch(s[4], s[5], s[6]),
    ).wrapping_add(k).wrapping_add(w);
    let t2 = spec_sigma0u(s[0]).wrapping_add(spec_maj(s[0], s[1], s[2]));
    seq![
        t1.wrapping_add(t2),
        s[0],
        s[1],
        s[2],
        s[3].wrapping_add(t1),
        s[4],
        s[5],
        s[6],
    ]
}

/// The state after the first `i` rounds of block `b`, starting from `h`.
pub open spec fn rounds(b: Seq<u8>, h: Seq<u32>, i: int) -> Seq<u32>
    decreases i,
{
    if i <= 0 {
        h
    } else {
        round_step(rounds(b, h, i - 1), sched(b, i - 1), K[i - 1])
    }
}

/// Full compression of one 64-byte block: 64 rounds, then the wrapping
/// word-by-word addition of the incoming state.
pub open spec fn spec_compress(h: Seq<u32>, b: Seq<u8>) -> Seq<u32> {
    let r = rounds(b, h, 64);
    Seq::new(8, |i: int| h[i].wrapping_add(r[i]))
}

/// The message bit length, reduced to the 64 bits the length field holds.
pub open spec fn bit_len64(len: nat) -> u64 {
    (((len * 8) as int) % 0x1_0000_0000_0000_0000) as u64
}

pub open spec fn u64_be(x: u64) -> Seq<u8> {
    seq![
        (x >> 56u64) as u8,
        (x >> 48u64) as u8,
        (x >> 40u64) as u8,
        (x >> 32u64) as u8,
        (x >> 24u64) as u8,
        (x >> 16u64) as u8,
        (x >> 8u64) as u8,
        x as u8,
    ]
}

/// How many zero bytes stand between the 0x80 marker and the length field.
pub open spec fn zero_count(len: nat) -> int {
    (64 - ((len + 9) % 64)) % 64
}

/// The padded message: the message, one 0x80 byte, zeros, and the bit
/// length big-endian, together a multiple of 64 bytes.
pub open spec fn spec_pad(m: Seq<u8>) -> Seq<u8> {
    m + seq![0x80u8] + Seq::new(zero_count(m.len()) as nat, |i: int| 0u8) + u64_be(
        bit_len64(m.len()),
    )
}

/// The state after the first `i` blocks of the padded message `p`.
pub open spec fn chain(p: Seq<u8>, i: int) -> Seq<u32>
    decreases i,
{
    if i <= 0 {
        H_INIT@
    } else {
        spec_compress(chain(p, i - 1), p.subrange(64 * (i - 1), 64 * i))
    }
}

pub open spec fn u32_be(w: u32) -> Seq<u8> {
    seq![(w >> 24u32) as u8, (w >> 16u32) as u8, (w >> 8u32) as u8, w as u8]
}

pub open spec fn digest_bytes(s: Seq<u32>) -> Seq<u8> {
    u32_be(s[0]) + u32_be(s[1]) + u32_be(s[2]) + u32_be(s[3]) + u32_be(s[4]) + u32_be(s[5])
        + u32_be(s[6]) + u32_be(s[7])
}

/// The digest of an arbitrary byte sequence.
pub open spec fn spec_sha256(m: Seq<u8>) -> Seq<u8> {
    let p = spec_pad(m);
    digest_bytes(chain(p, p.len() as int / 64))
}

pub proof fn lemma_pad_shape(m: Seq<u8>)
    ensures
        spec_pad(m).len() == m.len() + 9 + zero_count(m.len()),
        spec_pad(m).len() % 64 == 0,
        spec_pad(m).len() >= 64,
{
    assert(spec_pad(m).len() == m.len() + 9 + zero_count(m.len()));
    assert((m.len() + 9 + zero_count(m.len())) % 64 == 0) by {
        let r = (m.len() + 9) as int % 64;
        assert(0 <= r < 64);
        assert((m.len() + 9) as int % 64 == r);
    }
}

/// The digest always has exactly 32 bytes.
pub proof fn lemma_digest_len(m: Seq<u8>)
    ensures
        spec_sha256(m).len() == 32,
{
}

fn pad_message(message: &[u8]) -> (p: Vec<u8>)
    requires
        message@.len() + 72 <= usize::MAX,
    ensures
        p@ == spec_pad(message@),
{
    let len = message.len();
    let mut p: Vec<u8> = Vec::new();
    for i in 0..len
        invariant
            len == message@.len(),
            p@ =~= message@.subrange(0, i as int),
    {
        p.push(message[i]);
    }
    assert(p@ =~= message@);
    p.push(0x80);
    let z = (64 - ((len + 9) % 64)) % 64;
    assert(z == zero_count(message@.len()));
    for j in 0..z
        invariant
            p@ =~= message@ + seq![0x80u8] + Seq::new(j as nat, |i: int| 0u8),
    {
        p.push(0);
    }
    let bits: u64 = (len as u64).wrapping_mul(8);
    assert(bits == bit_len64(message@.len()));
    p.push((bits >> 56) as u8);
    p.push((bits >> 48) as u8);
    p.push((bits >> 40) as u8);
    p.push((bits >> 32) as u8);
    p.push((bits >> 24) as u8);
    p.push((bits >> 16) as u8);
    p.push((bits >> 8) as u8);
    p.push(bits as u8);
    assert(p@ =~= spec_pad(message@));
    p
}

/// Compress the 64-byte block of `p` that starts at `off` into `hash`.
fn hash_block(p: &[u8], off: usize, hash: &mut [u32; 8])
    requires
        off + 64 <= p@.len(),
    ensures
        final(hash)@ == spec_compress(old(hash)@, p@.subrange(off as int, off as int + 64)),
{
    let ghost blk = p@.subrange(off as int, off as int + 64);
    let ghost h0 = hash@;
    let plen = p.len();
    assert(off + 64 <= plen);
    let mut w: Vec<u32> = Vec::new();
    for i in 0..16
        invariant
            i <= 16,
            off + 64 <= p@.len() <= usize::MAX,
            blk == p@.subrange(off as int, off as int + 64),
            w@.len() == i,
            forall|j: int| 0 <= j < i ==> w@[j] == sched(blk, j),
    {
        let word = ((p[off + 4 * i] as u32) << 24) | ((p[off + 4 * i + 1] as u32) << 16) | ((p[off
            + 4 * i + 2] as u32) << 8) | (p[off + 4 * i + 3] as u32);
        assert(word == word_at(blk, i as int));
        w.push(word);
    }
    for i in 16..64
        invariant
            16 <= i <= 64,
            w@.len() == i,
            forall|j: int| 0 <= j < i ==> w@[j] == sched(blk, j),
    {
        let x2 = w[i - 2];
        let x7 = w[i - 7];
        let x15 = w[i - 15];
        let x16 = w[i - 16];
        let word = sigma1l(x2).wrapping_add(x7).wrapping_add(sigma0l(x15)).wrapping_add(x16);
        assert(sched(blk, i as int) == spec_sigma1l(sched(blk, i as int - 2)).wrapping_add(
            sched(blk, i as int - 7),
        ).wrapping_add(spec_sigma0l(sched(blk, i as int - 15))).wrapping_add(
            sched(blk, i as int - 16),
        ));
        assert(word == sched(blk, i as int));
        w.push(word);
    }
    let mut a = hash[0];
    let mut b = hash[1];
    let mut c = hash[2];
    let mut d = hash[3];
    let mut e = hash[4];
    let mut f = hash[5];
    let mut g = hash[6];
    let mut h = hash[7];
    for round in 0..64
        invariant
            w@.len() == 64,
            forall|j: int| 0 <= j < 64 ==> w@[j] == sched(blk, j),
            a == rounds(blk, h0, round as int)[0],
            b == rounds(blk, h0, round as int)[1],
            c == rounds(blk, h0, round as int)[2],
            d == rounds(blk, h0, round as int)[3],
            e == rounds(blk, h0, round as int)[4],
            f == rounds(blk, h0, round as int)[5],
            g == rounds(blk, h0, round as int)[6],
            h == rounds(blk, h0, round as int)[7],
    {
        let t1 = h.wrapping_add(sigma1u(e)).wrapping_add(ch(e, f, g)).wrapping_add(
            K[round],
        ).wrapping_add(w[round]);
        let t2 = sigma0u(a).wrapping_add(maj(a, b, c));
        h = g;
        g = f;
        f = e;
        e = d.wrapping_add(t1);
        d = c;
        c = b;
        b = a;
        a = t1.wrapping_add(t2);
        assert(rounds(blk, h0, round + 1) == round_step(
            rounds(blk, h0, round as int),
            sched(blk, round as int),
            K[round as int],
        ));
    }
    *hash = [
        hash[0].wrapping_add(a),
        hash[1].wrapping_add(b),
        hash[2].wrapping_add(c),
        hash[3].wrapping_add(d),
        hash[4].wrapping_add(e),
        hash[5].wrapping_add(f),
        hash[6].wrapping_add(g),
        hash[7].wrapping_add(h),
    ];
    assert(hash@ =~= spec_compress(h0, blk));
}

/// Digest of `message`: exactly 32 bytes, a pure function of the input.
pub fn hash(message: &[u8]) -> (r: [u8; 32])
    requires
        message@.len() + 72 <= usize::MAX,
    ensures
        r@ == spec_sha256(message@),
{
    let padded = pad_message(message);
    let mut state: [u32; 8] = [
        0x6a09e667, 0xbb67ae85, 0x3c6ef372, 0xa54ff53a, 0x510e527f, 0x9b05688c, 0x1f83d9ab,
        0x5be0cd19,
    ];
    assert(state@ =~= H_INIT@);
    proof {
        lemma_pad_shape(message@);
    }
    let n = padded.len() / 64;
    assert(padded@.len() <= usize::MAX);
    for i in 0..n
        invariant
            padded@ == spec_pad(message@),
            n == padded@.len() / 64,
            padded@.len() == 64 * n,
            padded@.len() <= usize::MAX,
            state@ == chain(padded@, i as int),
    {
        hash_block(padded.as_slice(), 64 * i, &mut state);
        assert(state@ == chain(padded@, i + 1));
    }
    let digest: [u8; 32] = [
        (state[0] >> 24) as u8,
        (state[0] >> 16) as u8,
        (state[0] >> 8) as u8,
        state[0] as u8,
        (state[1] >> 24) as u8,
        (state[1] >> 16) as u8,
        (state[1] >> 8) as u8,
        state[1] as u8,
        (state[2] >> 24) as u8,
        (state[2] >> 16) as u8,
        (state[2] >> 8) as u8,
        state[2] as u8,
        (state[3] >> 24) as u8,
        (state[3] >> 16) as u8,
        (state[3] >> 8) as u8,
        state[3] as u8,
        (state[4] >> 24) as u8,
        (state[4] >> 16) as u8,
        (state[4] >> 8) as u8,
        state[4] as u8,
        (state[5] >> 24) as u8,
        (state[5] >> 16) as u8,
        (state[5] >> 8) as u8,
        state[5] as u8,
        (state[6] >> 24) as u8,
        (state[6] >> 16) as u8,
        (state[6] >> 8) as u8,
        state[6] as u8,
        (state[7] >> 24) as u8,
        (state[7] >> 16) as u8,
        (state[7] >> 8) as u8,
        state[7] as u8,
    ];
    assert(digest@ =~= digest_bytes(state@));
    digest
}

} // verus!
