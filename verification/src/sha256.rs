//! SHA-256, the hash behind page and pad digests.
//!
//! The specification follows the standard's structure: a message is padded to
//! a whole number of 64-byte blocks, and each block is compressed into eight
//! 32-bit registers by 64 rounds over a message schedule.

use vstd::prelude::*;

verus! {

/// The eight working registers.
#[derive(Clone, Copy, Debug, PartialEq, Eq, Structural)]
pub struct Registers {
    pub a: u32,
    pub b: u32,
    pub c: u32,
    pub d: u32,
    pub e: u32,
    pub f: u32,
    pub g: u32,
    pub h: u32,
}

/// The round constants: the first 32 bits of the fractional parts of the
/// cube roots of the first 64 primes.
pub const ROUND_CONSTANTS: [u32; 64] = [
    0x428a2f98, 0x71374491, 0xb5c0fbcf, 0xe9b5dba5, 0x3956c25b, 0x59f111f1, 0x923f82a4, 0xab1c5ed5,
    0xd807aa98, 0x12835b01, 0x243185be, 0x550c7dc3, 0x72be5d74, 0x80deb1fe, 0x9bdc06a7, 0xc19bf174,
    0xe49b69c1, 0xefbe4786, 0x0fc19dc6, 0x240ca1cc, 0x2de92c6f, 0x4a7484aa, 0x5cb0a9dc, 0x76f988da,
    0x983e5152, 0xa831c66d, 0xb00327c8, 0xbf597fc7, 0xc6e00bf3, 0xd5a79147, 0x06ca6351, 0x14292967,
    0x27b70a85, 0x2e1b2138, 0x4d2c6dfc, 0x53380d13, 0x650a7354, 0x766a0abb, 0x81c2c92e, 0x92722c85,
    0xa2bfe8a1, 0xa81a664b, 0xc24b8b70, 0xc76c51a3, 0xd192e819, 0xd6990624, 0xf40e3585, 0x106aa070,
    0x19a4c116, 0x1e376c08, 0x2748774c, 0x34b0bcb5, 0x391c0cb3, 0x4ed8aa4a, 0x5b9cca4f, 0x682e6ff3,
    0x748f82ee, 0x78a5636f, 0x84c87814, 0x8cc70208, 0x90befffa, 0xa4506ceb, 0xbef9a3f7, 0xc67178f2,
];

// ----- the specification -----
/// Addition modulo 2^32.
pub open spec fn sum32(x: u32, y: u32) -> u32 {
    if x + y > u32::MAX {
        (x + y - 0x1_0000_0000) as u32
    } else {
        (x + y) as u32
    }
}

/// Rotation to the right by `n` bits, `0 < n < 32`.
pub open spec fn spec_rotr(x: u32, n: u32) -> u32 {
    (x >> n) | (x << ((32 - n) as u32))
}

pub open spec fn spec_ch(x: u32, y: u32, z: u32) -> u32 {
    (x & y) ^ (!x & z)
}

pub open spec fn spec_maj(x: u32, y: u32, z: u32) -> u32 {
    (x & y) ^ (x & z) ^ (y & z)
}

pub open spec fn spec_big_sigma0(x: u32) -> u32 {
    spec_rotr(x, 2) ^ spec_rotr(x, 13) ^ spec_rotr(x, 22)
}

pub open spec fn spec_big_sigma1(x: u32) -> u32 {
    spec_rotr(x, 6) ^ spec_rotr(x, 11) ^ spec_rotr(x, 25)
}

pub open spec fn spec_small_sigma0(x: u32) -> u32 {
    spec_rotr(x, 7) ^ spec_rotr(x, 18) ^ (x >> 3u32)
}

pub open spec fn spec_small_sigma1(x: u32) -> u32 {
    spec_rotr(x, 17) ^ spec_rotr(x, 19) ^ (x >> 10u32)
}

/// The big-endian word made of four bytes.
pub open spec fn spec_word(b0: u8, b1: u8, b2: u8, b3: u8) -> u32 {
    ((b0 as u32) << 24u32) | ((b1 as u32) << 16u32) | ((b2 as u32) << 8u32) | (b3 as u32)
}

/// Word `t` of the message schedule of a 64-byte block.
pub open spec fn schedule(block: Seq<u8>, t: int) -> u32
    decreases t,
{
    if t < 16 {
        spec_word(block[4 * t], block[4 * t + 1], block[4 * t + 2], block[4 * t + 3])
    } else {
        sum32(
            sum32(
                sum32(spec_small_sigma1(schedule(block, t - 2)), schedule(block, t - 7)),
                spec_small_sigma0(schedule(block, t - 15)),
            ),
            schedule(block, t - 16),
        )
    }
}

/// One round, with round constant `k` and schedule word `w`.
pub open spec fn spec_round(r: Registers, k: u32, w: u32) -> Registers {
    let t1 = sum32(sum32(sum32(sum32(r.h, spec_big_sigma1(r.e)), spec_ch(r.e, r.f, r.g)), k), w);
    let t2 = sum32(spec_big_sigma0(r.a), spec_maj(r.a, r.b, r.c));
    Registers {
        a: sum32(t1, t2),
        b: r.a,
        c: r.b,
        d: r.c,
        e: sum32(r.d, t1),
        f: r.e,
        g: r.f,
        h: r.g,
    }
}

/// The registers after the first `t` rounds on `block`.
pub open spec fn rounds(r: Registers, block: Seq<u8>, t: nat) -> Registers
    decreases t,
{
    if t == 0 {
        r
    } else {
        spec_round(
            rounds(r, block, (t - 1) as nat),
            ROUND_CONSTANTS[t - 1],
            schedule(block, t - 1),
        )
    }
}

/// The compression function: 64 rounds, then the feed-forward addition.
pub open spec fn compress(r: Registers, block: Seq<u8>) -> Registers {
    let s = rounds(r, block, 64);
    Registers {
        a: sum32(r.a, s.a),
        b: sum32(r.b, s.b),
        c: sum32(r.c, s.c),
        d: sum32(r.d, s.d),
        e: sum32(r.e, s.e),
        f: sum32(r.f, s.f),
        g: sum32(r.g, s.g),
        h: sum32(r.h, s.h),
    }
}

/// The initial registers: the first 32 bits of the fractional parts of the
/// square roots of the first eight primes.
pub open spec fn initial_registers() -> Registers {
    Registers {
        a: 0x6a09e667,
        b: 0xbb67ae85,
        c: 0x3c6ef372,
        d: 0xa54ff53a,
        e: 0x510e527f,
        f: 0x9b05688c,
        g: 0x1f83d9ab,
        h: 0x5be0cd19,
    }
}

/// The registers after the first `blocks` 64-byte blocks of `data`.
pub open spec fn absorb(data: Seq<u8>, blocks: nat) -> Registers
    decreases blocks,
{
    if blocks == 0 {
        initial_registers()
    } else {
        compress(
            absorb(data, (blocks - 1) as nat),
            data.subrange(64 * (blocks - 1), 64 * (blocks as int)),
        )
    }
}

/// Number of zero bytes in the padding of a message of `len` bytes.
pub open spec fn zero_count(len: nat) -> nat {
    ((119 - (len % 64)) % 64) as nat
}

/// The message length in bits, modulo 2^64.
pub open spec fn bit_length(len: nat) -> u64 {
    ((len * 8) % 0x1_0000_0000_0000_0000) as u64
}

/// The big-endian bytes of a 32-bit word.
pub open spec fn be32(w: u32) -> Seq<u8> {
    seq![
        ((w >> 24u32) & 0xff) as u8,
        ((w >> 16u32) & 0xff) as u8,
        ((w >> 8u32) & 0xff) as u8,
        (w & 0xff) as u8,
    ]
}

/// The big-endian bytes of a 64-bit word.
pub open spec fn be64(w: u64) -> Seq<u8> {
    be32(((w >> 32u64) & 0xffff_ffff) as u32) + be32((w & 0xffff_ffff) as u32)
}

/// The padding of a message of `len` bytes: a one bit, zeros, and the length.
pub open spec fn padding(len: nat) -> Seq<u8> {
    seq![0x80u8] + Seq::new(zero_count(len), |i: int| 0u8) + be64(bit_length(len))
}

/// The SHA-256 digest of `data`: 32 bytes.
pub open spec fn spec_sha256(data: Seq<u8>) -> Seq<u8> {
    let padded = data + padding(data.len());
    let r = absorb(padded, padded.len() / 64);
    be32(r.a) + be32(r.b) + be32(r.c) + be32(r.d) + be32(r.e) + be32(r.f) + be32(r.g) + be32(r.h)
}

// ----- the implementation -----
fn rotr(x: u32, n: u32) -> (r: u32)
    requires
        0 < n < 32,
    ensures
        r == spec_rotr(x, n),
{
    (x >> n) | (x << (32 - n))
}

fn small_sigma0(x: u32) -> (r: u32)
    ensures
        r == spec_small_sigma0(x),
{
    rotr(x, 7) ^ rotr(x, 18) ^ (x >> 3u32)
}

fn small_sigma1(x: u32) -> (r: u32)
    ensures
        r == spec_small_sigma1(x),
{
    rotr(x, 17) ^ rotr(x, 19) ^ (x >> 10u32)
}

fn round(r: Registers, k: u32, w: u32) -> (out: Registers)
    ensures
        out == spec_round(r, k, w),
{
    let big1: u32 = rotr(r.e, 6) ^ rotr(r.e, 11) ^ rotr(r.e, 25);
    let ch: u32 = (r.e & r.f) ^ (!r.e & r.g);
    let t1: u32 = r.h.wrapping_add(big1).wrapping_add(ch).wrapping_add(k).wrapping_add(w);
    let big0: u32 = rotr(r.a, 2) ^ rotr(r.a, 13) ^ rotr(r.a, 22);
    let maj: u32 = (r.a & r.b) ^ (r.a & r.c) ^ (r.b & r.c);
    let t2: u32 = big0.wrapping_add(maj);
    Registers {
        a: t1.wrapping_add(t2),
        b: r.a,
        c: r.b,
        d: r.c,
        e: r.d.wrapping_add(t1),
        f: r.e,
        g: r.f,
        h: r.g,
    }
}

fn word(b0: u8, b1: u8, b2: u8, b3: u8) -> (w: u32)
    ensures
        w == spec_word(b0, b1, b2, b3),
{
    ((b0 as u32) << 24u32) | ((b1 as u32) << 16u32) | ((b2 as u32) << 8u32) | (b3 as u32)
}

/// Compresses the block that starts at `offset` in `data` into `r`.
fn compress_block(r: Registers, data: &Vec<u8>, offset: usize) -> (out: Registers)
    requires
        offset + 64 <= data.len(),
    ensures
        out == compress(r, data@.subrange(offset as int, offset + 64)),
{
    let ghost block = data@.subrange(offset as int, offset + 64);
    let mut w: Vec<u32> = Vec::new();
    let mut t: usize = 0;
    while t < 64
        invariant
            t <= 64,
            offset + 64 <= data.len(),
            block == data@.subrange(offset as int, offset + 64),
            w.len() == t,
            forall|j: int| 0 <= j < t ==> w[j] == schedule(block, j),
        decreases 64 - t,
    {
        let next: u32 = if t < 16 {
            let at: usize = offset + 4 * t;
            assert(block[4 * t] == data[at as int] && block[4 * t + 1] == data[at + 1] && block[4
                * t + 2] == data[at + 2] && block[4 * t + 3] == data[at + 3]);
            word(data[at], data[at + 1], data[at + 2], data[at + 3])
        } else {
            assert(schedule(block, t as int) == sum32(
                sum32(
                    sum32(spec_small_sigma1(schedule(block, t - 2)), schedule(block, t - 7)),
                    spec_small_sigma0(schedule(block, t - 15)),
                ),
                schedule(block, t - 16),
            ));
            small_sigma1(w[t - 2]).wrapping_add(w[t - 7]).wrapping_add(
                small_sigma0(w[t - 15]),
            ).wrapping_add(w[t - 16])
        };
        w.push(next);
        t += 1;
    }
    let mut s: Registers = r;
    let mut t: usize = 0;
    while t < 64
        invariant
            t <= 64,
            w.len() == 64,
            forall|j: int| 0 <= j < 64 ==> w[j] == schedule(block, j),
            s == rounds(r, block, t as nat),
        decreases 64 - t,
    {
        s = round(s, ROUND_CONSTANTS[t], w[t]);
        t += 1;
    }
    Registers {
        a: r.a.wrapping_add(s.a),
        b: r.b.wrapping_add(s.b),
        c: r.c.wrapping_add(s.c),
        d: r.d.wrapping_add(s.d),
        e: r.e.wrapping_add(s.e),
        f: r.f.wrapping_add(s.f),
        g: r.g.wrapping_add(s.g),
        h: r.h.wrapping_add(s.h),
    }
}

/// Appends the big-endian bytes of `w` to `out`.
fn push_be32(out: &mut Vec<u8>, w: u32)
    ensures
        final(out)@ == old(out)@ + be32(w),
{
    assert(((w >> 24u32) & 0xff) < 256 && ((w >> 16u32) & 0xff) < 256 && ((w >> 8u32) & 0xff) < 256
        && (w & 0xff) < 256) by (bit_vector);
    out.push(((w >> 24u32) & 0xff) as u8);
    out.push(((w >> 16u32) & 0xff) as u8);
    out.push(((w >> 8u32) & 0xff) as u8);
    out.push((w & 0xff) as u8);
    assert(out@ =~= old(out)@ + be32(w));
}

/// The SHA-256 digest of `data`.
pub fn sha256(data: &[u8]) -> (digest: Vec<u8>)
    ensures
        digest@ == spec_sha256(data@),
        digest@.len() == 32,
{
    let len: usize = data.len();
    let mut p: Vec<u8> = Vec::new();
    let mut i: usize = 0;
    while i < len
        invariant
            i <= len,
            len == data@.len(),
            p@ == data@.subrange(0, i as int),
        decreases len - i,
    {
        p.push(data[i]);
        i += 1;
        assert(p@ =~= data@.subrange(0, i as int));
    }
    assert(p@ =~= data@);
    p.push(0x80u8);
    let ghost total = zero_count(len as nat);
    let ghost mut zeros: nat = 0;
    while p.len() % 64 != 56
        invariant
            len == data@.len(),
            total == zero_count(len as nat),
            zeros <= total,
            p@ == data@ + seq![0x80u8] + Seq::new(zeros, |i: int| 0u8),
            (p@.len() + (total - zeros)) % 64 == 56,
        decreases total - zeros,
    {
        p.push(0u8);
        proof {
            zeros = zeros + 1;
        }
        assert(p@ =~= data@ + seq![0x80u8] + Seq::new(zeros, |i: int| 0u8));
    }
    assert(zeros == total);
    let bits: u64 = (len as u64).wrapping_mul(8);
    assert(bits == bit_length(len as nat));
    assert(((bits >> 32u64) & 0xffff_ffff) < 0x1_0000_0000 && (bits & 0xffff_ffff) < 0x1_0000_0000)
        by (bit_vector);
    push_be32(&mut p, ((bits >> 32u64) & 0xffff_ffff) as u32);
    push_be32(&mut p, (bits & 0xffff_ffff) as u32);
    assert(p@ =~= data@ + padding(len as nat));
    assert(p@.len() % 64 == 0);
    let blocks: usize = p.len() / 64;
    let mut r: Registers = Registers {
        a: 0x6a09e667,
        b: 0xbb67ae85,
        c: 0x3c6ef372,
        d: 0xa54ff53a,
        e: 0x510e527f,
        f: 0x9b05688c,
        g: 0x1f83d9ab,
        h: 0x5be0cd19,
    };
    let mut k: usize = 0;
    while k < blocks
        invariant
            k <= blocks,
            p@.len() == 64 * blocks,
            r == absorb(p@, k as nat),
        decreases blocks - k,
    {
        assert(64 * k + 64 <= p.len());
        r = compress_block(r, &p, 64 * k);
        k += 1;
    }
    let mut digest: Vec<u8> = Vec::new();
    push_be32(&mut digest, r.a);
    push_be32(&mut digest, r.b);
    push_be32(&mut digest, r.c);
    push_be32(&mut digest, r.d);
    push_be32(&mut digest, r.e);
    push_be32(&mut digest, r.f);
    push_be32(&mut digest, r.g);
    push_be32(&mut digest, r.h);
    digest
}

} // verus!
