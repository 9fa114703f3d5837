//! CommonCrypto's `CC_SHA256`, computed here: SHA-256 as FIPS 180-4
//! defines it, stated as spec functions, and the executable digest proved
//! to equal them.
use vstd::prelude::*;
use crate::mem::{Mem, same_outside};

verus! {

/// Right rotation of a 32-bit word by `n` bits (`0 < n < 32`).
pub open spec fn rotr(x: u32, n: u32) -> u32 {
    (x >> n) | (x << ((32 - n) as u32))
}

pub open spec fn big_sigma0(a: u32) -> u32 {
    rotr(a, 2) ^ rotr(a, 13) ^ rotr(a, 22)
}

pub open spec fn big_sigma1(e: u32) -> u32 {
    rotr(e, 6) ^ rotr(e, 11) ^ rotr(e, 25)
}

pub open spec fn small_sigma0(x: u32) -> u32 {
    rotr(x, 7) ^ rotr(x, 18) ^ (x >> 3)
}

pub open spec fn small_sigma1(x: u32) -> u32 {
    rotr(x, 17) ^ rotr(x, 19) ^ (x >> 10)
}

pub open spec fn choose_bits(e: u32, f: u32, g: u32) -> u32 {
    (e & f) ^ (!e & g)
}

pub open spec fn majority(a: u32, b: u32, c: u32) -> u32 {
    (a & b) ^ (a & c) ^ (b & c)
}

/// The round constants.
pub open spec fn round_constants() -> Seq<u32> {
    seq![
        0x428a2f98u32, 0x71374491, 0xb5c0fbcf, 0xe9b5dba5, 0x3956c25b, 0x59f111f1, 0x923f82a4, 0xab1c5ed5,
        0xd807aa98, 0x12835b01, 0x243185be, 0x550c7dc3, 0x72be5d74, 0x80deb1fe, 0x9bdc06a7, 0xc19bf174,
        0xe49b69c1, 0xefbe4786, 0x0fc19dc6, 0x240ca1cc, 0x2de92c6f, 0x4a7484aa, 0x5cb0a9dc, 0x76f988da,
        0x983e5152, 0xa831c66d, 0xb00327c8, 0xbf597fc7, 0xc6e00bf3, 0xd5a79147, 0x06ca6351, 0x14292967,
        0x27b70a85, 0x2e1b2138, 0x4d2c6dfc, 0x53380d13, 0x650a7354, 0x766a0abb, 0x81c2c92e, 0x92722c85,
        0xa2bfe8a1, 0xa81a664b, 0xc24b8b70, 0xc76c51a3, 0xd192e819, 0xd6990624, 0xf40e3585, 0x106aa070,
        0x19a4c116, 0x1e376c08, 0x2748774c, 0x34b0bcb5, 0x391c0cb3, 0x4ed8aa4a, 0x5b9cca4f, 0x682e6ff3,
        0x748f82ee, 0x78a5636f, 0x84c87814, 0x8cc70208, 0x90befffa, 0xa4506ceb, 0xbef9a3f7, 0xc67178f2,
    ]
}

/// The initial hash value.
pub open spec fn initial_hash() -> Seq<u32> {
    seq![0x6a09e667u32, 0xbb67ae85, 0x3c6ef372, 0xa54ff53a, 0x510e527f, 0x9b05688c, 0x1f83d9ab, 0x5be0cd19]
}

/// The big-endian word at `i` of `b`.
pub open spec fn be_word(b: Seq<u8>, i: int) -> u32 {
    ((b[i] as u32) << 24u32) | ((b[i + 1] as u32) << 16u32) | ((b[i + 2] as u32) << 8u32) | (b[i + 3] as u32)
}

/// Word `i` of the message schedule of a 64-byte block.
pub open spec fn schedule_word(block: Seq<u8>, i: int) -> u32
    decreases i,
{
    if i < 16 {
        be_word(block, 4 * i)
    } else {
        schedule_word(block, i - 16).wrapping_add(small_sigma0(schedule_word(block, i - 15))).wrapping_add(
            schedule_word(block, i - 7),
        ).wrapping_add(small_sigma1(schedule_word(block, i - 2)))
    }
}

/// One round of the compression function on the working variables
/// `a, b, c, d, e, f, g, h`.
pub open spec fn sha_round(s: Seq<u32>, k: u32, w: u32) -> Seq<u32> {
    let t1 = s[7].wrapping_add(big_sigma1(s[4])).wrapping_add(choose_bits(s[4], s[5], s[6])).wrapping_add(k).wrapping_add(w);
    let t2 = big_sigma0(s[0]).wrapping_add(majority(s[0], s[1], s[2]));
    seq![t1.wrapping_add(t2), s[0], s[1], s[2], s[3].wrapping_add(t1), s[4], s[5], s[6]]
}

/// The working variables after the first `n` rounds on `block`.
pub open spec fn sha_rounds(s: Seq<u32>, block: Seq<u8>, n: nat) -> Seq<u32>
    decreases n,
{
    if n == 0 {
        s
    } else {
        sha_round(sha_rounds(s, block, (n - 1) as nat), round_constants()[n - 1], schedule_word(block, n - 1))
    }
}

/// The hash value after one 64-byte block.
pub open spec fn compress(h: Seq<u32>, block: Seq<u8>) -> Seq<u32> {
    let r = sha_rounds(h, block, 64);
    Seq::new(8, |i: int| h[i].wrapping_add(r[i]))
}

/// The hash value after the first `n` blocks of `m`.
pub open spec fn hash_blocks(m: Seq<u8>, n: nat) -> Seq<u32>
    decreases n,
{
    if n == 0 {
        initial_hash()
    } else {
        compress(hash_blocks(m, (n - 1) as nat), m.subrange(64 * (n - 1), 64 * n as int))
    }
}

/// How many zero bytes follow the 0x80 byte in the padding of a message
/// of `n` bytes.
pub open spec fn pad_zeros(n: nat) -> nat {
    ((64 - (n + 9) % 64) % 64) as nat
}

/// The eight big-endian bytes of `x`.
pub open spec fn be_u64_bytes(x: u64) -> Seq<u8> {
    seq![
        (x >> 56u64) as u8, (x >> 48u64) as u8, (x >> 40u64) as u8, (x >> 32u64) as u8,
        (x >> 24u64) as u8, (x >> 16u64) as u8, (x >> 8u64) as u8, x as u8,
    ]
}

/// The padded message: the message, 0x80, zeros, and its length in bits.
pub open spec fn sha256_padded(m: Seq<u8>) -> Seq<u8> {
    m + seq![0x80u8] + Seq::new(pad_zeros(m.len()), |i: int| 0u8) + be_u64_bytes((m.len() * 8) as u64)
}

/// Byte `j` (0 to 3) of `x` in big-endian order.
pub open spec fn word_byte(x: u32, j: int) -> u8 {
    (x >> ((24 - 8 * j) as u32)) as u8
}

/// The SHA-256 digest of `m`, 32 bytes.
pub open spec fn sha256(m: Seq<u8>) -> Seq<u8> {
    let p = sha256_padded(m);
    let h = hash_blocks(p, p.len() / 64);
    Seq::new(32, |i: int| word_byte(h[i / 4], i % 4))
}

fn rotr_exec(x: u32, n: u32) -> (r: u32)
    requires
        0 < n < 32,
    ensures
        r == rotr(x, n),
{
    (x >> n) | (x << (32 - n))
}

fn round_constant_table() -> (r: [u32; 64])
    ensures
        r@ == round_constants(),
{
    let r: [u32; 64] = [
        0x428a2f98, 0x71374491, 0xb5c0fbcf, 0xe9b5dba5, 0x3956c25b, 0x59f111f1, 0x923f82a4, 0xab1c5ed5,
        0xd807aa98, 0x12835b01, 0x243185be, 0x550c7dc3, 0x72be5d74, 0x80deb1fe, 0x9bdc06a7, 0xc19bf174,
        0xe49b69c1, 0xefbe4786, 0x0fc19dc6, 0x240ca1cc, 0x2de92c6f, 0x4a7484aa, 0x5cb0a9dc, 0x76f988da,
        0x983e5152, 0xa831c66d, 0xb00327c8, 0xbf597fc7, 0xc6e00bf3, 0xd5a79147, 0x06ca6351, 0x14292967,
        0x27b70a85, 0x2e1b2138, 0x4d2c6dfc, 0x53380d13, 0x650a7354, 0x766a0abb, 0x81c2c92e, 0x92722c85,
        0xa2bfe8a1, 0xa81a664b, 0xc24b8b70, 0xc76c51a3, 0xd192e819, 0xd6990624, 0xf40e3585, 0x106aa070,
        0x19a4c116, 0x1e376c08, 0x2748774c, 0x34b0bcb5, 0x391c0cb3, 0x4ed8aa4a, 0x5b9cca4f, 0x682e6ff3,
        0x748f82ee, 0x78a5636f, 0x84c87814, 0x8cc70208, 0x90befffa, 0xa4506ceb, 0xbef9a3f7, 0xc67178f2,
    ];
    assert(r@ =~= round_constants());
    r
}


fn be_word_at(b: &Vec<u8>, i: usize) -> (r: u32)
    requires
        i + 4 <= b@.len(),
    ensures
        r == be_word(b@, i as int),
{
    let _n = b.len();
    ((b[i] as u32) << 24u32) | ((b[i + 1] as u32) << 16u32) | ((b[i + 2] as u32) << 8u32) | (b[i + 3] as u32)
}

/// The message schedule of the 64-byte block at `off` of `buf`.
fn message_schedule(buf: &Vec<u8>, off: usize) -> (w: Vec<u32>)
    requires
        off + 64 <= buf@.len(),
    ensures
        w@.len() == 64,
        forall|j: int| 0 <= j < 64 ==> #[trigger] w@[j] == schedule_word(buf@.subrange(off as int, off + 64), j),
{
    let ghost block = buf@.subrange(off as int, off + 64);
    let n = buf.len();
    let mut w: Vec<u32> = Vec::new();
    let mut i: usize = 0;
    while i < 16
        invariant
            off + 64 <= buf@.len(),
            n == buf@.len(),
            block == buf@.subrange(off as int, off + 64),
            i <= 16,
            w@.len() == i,
            forall|j: int| 0 <= j < i ==> #[trigger] w@[j] == schedule_word(block, j),
        decreases 16 - i,
    {
        let x = be_word_at(buf, off + 4 * i);
        proof {
            assert(block[4 * i] == buf@[off + 4 * i]);
            assert(block[4 * i + 1] == buf@[off + 4 * i + 1]);
            assert(block[4 * i + 2] == buf@[off + 4 * i + 2]);
            assert(block[4 * i + 3] == buf@[off + 4 * i + 3]);
        }
        w.push(x);
        i = i + 1;
    }
    while i < 64
        invariant
            16 <= i <= 64,
            w@.len() == i,
            forall|j: int| 0 <= j < i ==> #[trigger] w@[j] == schedule_word(block, j),
        decreases 64 - i,
    {
        let x15 = w[i - 15];
        let x2 = w[i - 2];
        let s0 = rotr_exec(x15, 7) ^ rotr_exec(x15, 18) ^ (x15 >> 3u32);
        let s1 = rotr_exec(x2, 17) ^ rotr_exec(x2, 19) ^ (x2 >> 10u32);
        let x = w[i - 16].wrapping_add(s0).wrapping_add(w[i - 7]).wrapping_add(s1);
        proof {
            assert(w@[i - 16] == schedule_word(block, i - 16));
            assert(w@[i - 7] == schedule_word(block, i - 7));
        }
        w.push(x);
        i = i + 1;
    }
    w
}

/// The hash value `h` after the 64-byte block at `off` of `buf`.
fn compress_block(h: &Vec<u32>, buf: &Vec<u8>, off: usize, k: &[u32; 64]) -> (r: Vec<u32>)
    requires
        h@.len() == 8,
        off + 64 <= buf@.len(),
        k@ == round_constants(),
    ensures
        r@ == compress(h@, buf@.subrange(off as int, off + 64)),
{
    let ghost block = buf@.subrange(off as int, off + 64);
    let w = message_schedule(buf, off);
    let mut a = h[0];
    let mut b = h[1];
    let mut c = h[2];
    let mut d = h[3];
    let mut e = h[4];
    let mut f = h[5];
    let mut g = h[6];
    let mut hh = h[7];
    assert(seq![a, b, c, d, e, f, g, hh] =~= h@);
    let mut i: usize = 0;
    while i < 64
        invariant
            i <= 64,
            w@.len() == 64,
            forall|j: int| 0 <= j < 64 ==> #[trigger] w@[j] == schedule_word(block, j),
            k@ == round_constants(),
            seq![a, b, c, d, e, f, g, hh] == sha_rounds(h@, block, i as nat),
        decreases 64 - i,
    {
        let ghost before = seq![a, b, c, d, e, f, g, hh];
        let s1 = rotr_exec(e, 6) ^ rotr_exec(e, 11) ^ rotr_exec(e, 25);
        let ch = (e & f) ^ (!e & g);
        let temp1 = hh.wrapping_add(s1).wrapping_add(ch).wrapping_add(k[i]).wrapping_add(w[i]);
        let s0 = rotr_exec(a, 2) ^ rotr_exec(a, 13) ^ rotr_exec(a, 22);
        let maj = (a & b) ^ (a & c) ^ (b & c);
        let temp2 = s0.wrapping_add(maj);
        hh = g;
        g = f;
        f = e;
        e = d.wrapping_add(temp1);
        d = c;
        c = b;
        b = a;
        a = temp1.wrapping_add(temp2);
        proof {
            assert(before[0] == b && before[1] == c && before[2] == d && before[4] == f && before[5] == g && before[6] == hh);
            assert(seq![a, b, c, d, e, f, g, hh] =~= sha_round(before, round_constants()[i as int], schedule_word(block, i as int)));
        }
        i = i + 1;
    }
    let mut r: Vec<u32> = Vec::new();
    r.push(h[0].wrapping_add(a));
    r.push(h[1].wrapping_add(b));
    r.push(h[2].wrapping_add(c));
    r.push(h[3].wrapping_add(d));
    r.push(h[4].wrapping_add(e));
    r.push(h[5].wrapping_add(f));
    r.push(h[6].wrapping_add(g));
    r.push(h[7].wrapping_add(hh));
    proof {
        let fin = sha_rounds(h@, block, 64);
        assert(fin == seq![a, b, c, d, e, f, g, hh]);
        assert(r@ =~= compress(h@, block));
    }
    r
}


/// The padded message of `msg` (see [sha256_padded]).
fn pad_message(msg: Vec<u8>) -> (p: Vec<u8>)
    requires
        msg@.len() <= u32::MAX,
    ensures
        p@ == sha256_padded(msg@),
        p@.len() % 64 == 0,
        p@.len() == msg@.len() + 9 + pad_zeros(msg@.len()),
{
    let ghost m = msg@;
    let len = msg.len() as u64;
    let bits: u64 = len * 8;
    let mut buffer = msg;
    buffer.push(0x80);
    let zeros: u64 = (64 - (len + 9) % 64) % 64;
    let mut j: u64 = 0;
    while j < zeros
        invariant
            j <= zeros,
            zeros == pad_zeros(m.len()),
            buffer@ == m + seq![0x80u8] + Seq::new(j as nat, |i: int| 0u8),
        decreases zeros - j,
    {
        buffer.push(0);
        proof {
            assert(Seq::new((j + 1) as nat, |i: int| 0u8) =~= Seq::new(j as nat, |i: int| 0u8).push(0u8));
        }
        j = j + 1;
    }
    buffer.push((bits >> 56u64) as u8);
    buffer.push((bits >> 48u64) as u8);
    buffer.push((bits >> 40u64) as u8);
    buffer.push((bits >> 32u64) as u8);
    buffer.push((bits >> 24u64) as u8);
    buffer.push((bits >> 16u64) as u8);
    buffer.push((bits >> 8u64) as u8);
    buffer.push(bits as u8);
    proof {
        assert(buffer@ =~= sha256_padded(m));
        assert((m.len() + 9 + pad_zeros(m.len())) % 64 == 0);
    }
    buffer
}

/// The SHA-256 digest of `msg`: 32 bytes.
pub fn sha256_digest(msg: Vec<u8>) -> (d: Vec<u8>)
    requires
        msg@.len() <= u32::MAX,
    ensures
        d@ == sha256(msg@),
{
    let ghost m = msg@;
    let k = round_constant_table();
    let buffer = pad_message(msg);
    let blen = buffer.len();
    let nblocks = blen / 64;
    let mut h: Vec<u32> = Vec::new();
    h.push(0x6a09e667);
    h.push(0xbb67ae85);
    h.push(0x3c6ef372);
    h.push(0xa54ff53a);
    h.push(0x510e527f);
    h.push(0x9b05688c);
    h.push(0x1f83d9ab);
    h.push(0x5be0cd19);
    assert(h@ =~= initial_hash());
    let mut c: usize = 0;
    while c < nblocks
        invariant
            c <= nblocks,
            blen == buffer@.len(),
            64 * nblocks == blen,
            k@ == round_constants(),
            h@.len() == 8,
            h@ == hash_blocks(buffer@, c as nat),
        decreases nblocks - c,
    {
        h = compress_block(&h, &buffer, 64 * c, &k);
        c = c + 1;
    }
    let mut d: Vec<u8> = Vec::new();
    let mut j: usize = 0;
    while j < 32
        invariant
            j <= 32,
            h@.len() == 8,
            d@.len() == j,
            forall|i: int| 0 <= i < j ==> #[trigger] d@[i] == word_byte(h@[i / 4], i % 4),
        decreases 32 - j,
    {
        let byte = (h[j / 4] >> (24 - 8 * ((j % 4) as u32))) as u8;
        d.push(byte);
        j = j + 1;
    }
    proof {
        assert(d@ =~= sha256(m));
    }
    d
}

/// `CC_SHA256`: the SHA-256 digest of the `len` bytes at `data`, written
/// to the 32 bytes at `md`; returns `md`.
pub fn cc_sha256_intercept(mem: &mut Mem, data: u32, len: u32, md: u32) -> (r: u32)
    requires
        old(mem).wf(),
        data + len <= old(mem)@.len(),
        md + 32 <= old(mem)@.len(),
    ensures
        r == md,
        final(mem).wf(),
        final(mem).next_free_spec() == old(mem).next_free_spec(),
        same_outside(old(mem)@, final(mem)@, md as int, md + 32),
        forall|i: int| 0 <= i < 32 ==> #[trigger] final(mem)@[md + i] == sha256(old(mem)@.subrange(data as int, data + len))[i],
{
    proof {
        mem.lemma_wf();
    }
    let mut buffer: Vec<u8> = Vec::new();
    let mut i: u32 = 0;
    while i < len
        invariant
            mem.wf(),
            data + len <= mem@.len(),
            mem@.len() <= u32::MAX,
            i <= len,
            buffer@ == mem@.subrange(data as int, data + i),
        decreases len - i,
    {
        buffer.push(mem.read_u8(data + i));
        proof {
            assert(buffer@ =~= mem@.subrange(data as int, data + i + 1));
        }
        i = i + 1;
    }
    let digest = sha256_digest(buffer);
    let mut j: u32 = 0;
    while j < 32
        invariant
            mem.wf(),
            md + 32 <= mem@.len(),
            mem@.len() <= u32::MAX,
            j <= 32,
            digest@ == sha256(old(mem)@.subrange(data as int, data + len)),
            mem@.len() == old(mem)@.len(),
            mem.next_free_spec() == old(mem).next_free_spec(),
            same_outside(old(mem)@, mem@, md as int, md + 32),
            forall|i: int| 0 <= i < j ==> #[trigger] mem@[md + i] == digest@[i],
        decreases 32 - j,
    {
        mem.write_u8(md + j, digest[j as usize]);
        j = j + 1;
    }
    md
}

} // verus!
