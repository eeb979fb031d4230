//! One-shot MD4 digest engine.
//!
//! The executable engine is proved against a specification-level
//! description of MD4: padding, the three 16-step rounds of the
//! compression function, and little-endian serialization of the
//! final state.

use vstd::prelude::*;
use vstd::bytes::*;
use vstd::slice::slice_subrange;

verus! {

/// Left rotation of a 32-bit word, the primitive every round step uses.
pub open spec fn rotl32(x: u32, s: u32) -> u32
    recommends
        0 < s < 32,
{
    (x << s) | (x >> (32 - s) as u32)
}

/// Selection function of round 1: each bit of the result comes from `y`
/// where `x` has a one bit, from `z` where it has a zero bit.
pub open spec fn md4_f(x: u32, y: u32, z: u32) -> u32 {
    (x & y) | (!x & z)
}

/// Majority function of round 2.
pub open spec fn md4_g(x: u32, y: u32, z: u32) -> u32 {
    (x & y) | (x & z) | (y & z)
}

/// Parity function of round 3.
pub open spec fn md4_h(x: u32, y: u32, z: u32) -> u32 {
    x ^ y ^ z
}

/// One step of round 1.
pub open spec fn md4_op1(a: u32, b: u32, c: u32, d: u32, k: u32, s: u32) -> u32 {
    rotl32(a.wrapping_add(md4_f(b, c, d)).wrapping_add(k), s)
}

/// One step of round 2, with its additive constant.
pub open spec fn md4_op2(a: u32, b: u32, c: u32, d: u32, k: u32, s: u32) -> u32 {
    rotl32(a.wrapping_add(md4_g(b, c, d)).wrapping_add(k).wrapping_add(0x5A82_7999), s)
}

/// One step of round 3, with its additive constant.
pub open spec fn md4_op3(a: u32, b: u32, c: u32, d: u32, k: u32, s: u32) -> u32 {
    rotl32(a.wrapping_add(md4_h(b, c, d)).wrapping_add(k).wrapping_add(0x6ED9_EBA1), s)
}

/// The fixed initial state.
pub open spec fn md4_iv() -> (u32, u32, u32, u32) {
    (0x6745_2301u32, 0xEFCD_AB89u32, 0x98BA_DCFEu32, 0x1032_5476u32)
}

/// The `i`-th little-endian 32-bit word of a 64-byte block.
pub open spec fn word_at(blk: Seq<u8>, i: int) -> u32
    recommends
        blk.len() == 64,
        0 <= i < 16,
{
    spec_u32_from_le_bytes(blk.subrange(4 * i, 4 * i + 4))
}

/// The MD4 compression function on one 64-byte block: three rounds of
/// sixteen steps each, then a wraparound addition into the entering state.
#[verifier::opaque]
pub open spec fn spec_compress(st: (u32, u32, u32, u32), blk: Seq<u8>) -> (u32, u32, u32, u32)
    recommends
        blk.len() == 64,
{
    let a = st.0;
    let b = st.1;
    let c = st.2;
    let d = st.3;
    // round 1: words in order 0..15, shifts 3, 7, 11, 19
    let a = md4_op1(a, b, c, d, word_at(blk, 0), 3);
    let d = md4_op1(d, a, b, c, word_at(blk, 1), 7);
    let c = md4_op1(c, d, a, b, word_at(blk, 2), 11);
    let b = md4_op1(b, c, d, a, word_at(blk, 3), 19);
    let a = md4_op1(a, b, c, d, word_at(blk, 4), 3);
    let d = md4_op1(d, a, b, c, word_at(blk, 5), 7);
    let c = md4_op1(c, d, a, b, word_at(blk, 6), 11);
    let b = md4_op1(b, c, d, a, word_at(blk, 7), 19);
    let a = md4_op1(a, b, c, d, word_at(blk, 8), 3);
    let d = md4_op1(d, a, b, c, word_at(blk, 9), 7);
    let c = md4_op1(c, d, a, b, word_at(blk, 10), 11);
    let b = md4_op1(b, c, d, a, word_at(blk, 11), 19);
    let a = md4_op1(a, b, c, d, word_at(blk, 12), 3);
    let d = md4_op1(d, a, b, c, word_at(blk, 13), 7);
    let c = md4_op1(c, d, a, b, word_at(blk, 14), 11);
    let b = md4_op1(b, c, d, a, word_at(blk, 15), 19);
    // round 2: words interleaved by four, shifts 3, 5, 9, 13
    let a = md4_op2(a, b, c, d, word_at(blk, 0), 3);
    let d = md4_op2(d, a, b, c, word_at(blk, 4), 5);
    let c = md4_op2(c, d, a, b, word_at(blk, 8), 9);
    let b = md4_op2(b, c, d, a, word_at(blk, 12), 13);
    let a = md4_op2(a, b, c, d, word_at(blk, 1), 3);
    let d = md4_op2(d, a, b, c, word_at(blk, 5), 5);
    let c = md4_op2(c, d, a, b, word_at(blk, 9), 9);
    let b = md4_op2(b, c, d, a, word_at(blk, 13), 13);
    let a = md4_op2(a, b, c, d, word_at(blk, 2), 3);
    let d = md4_op2(d, a, b, c, word_at(blk, 6), 5);
    let c = md4_op2(c, d, a, b, word_at(blk, 10), 9);
    let b = md4_op2(b, c, d, a, word_at(blk, 14), 13);
    let a = md4_op2(a, b, c, d, word_at(blk, 3), 3);
    let d = md4_op2(d, a, b, c, word_at(blk, 7), 5);
    let c = md4_op2(c, d, a, b, word_at(blk, 11), 9);
    let b = md4_op2(b, c, d, a, word_at(blk, 15), 13);
    // round 3: words in order 0,8,4,12 / 2,10,6,14 / 1,9,5,13 / 3,11,7,15,
    // shifts 3, 9, 11, 15
    let a = md4_op3(a, b, c, d, word_at(blk, 0), 3);
    let d = md4_op3(d, a, b, c, word_at(blk, 8), 9);
    let c = md4_op3(c, d, a, b, word_at(blk, 4), 11);
    let b = md4_op3(b, c, d, a, word_at(blk, 12), 15);
    let a = md4_op3(a, b, c, d, word_at(blk, 2), 3);
    let d = md4_op3(d, a, b, c, word_at(blk, 10), 9);
    let c = md4_op3(c, d, a, b, word_at(blk, 6), 11);
    let b = md4_op3(b, c, d, a, word_at(blk, 14), 15);
    let a = md4_op3(a, b, c, d, word_at(blk, 1), 3);
    let d = md4_op3(d, a, b, c, word_at(blk, 9), 9);
    let c = md4_op3(c, d, a, b, word_at(blk, 5), 11);
    let b = md4_op3(b, c, d, a, word_at(blk, 13), 15);
    let a = md4_op3(a, b, c, d, word_at(blk, 3), 3);
    let d = md4_op3(d, a, b, c, word_at(blk, 11), 9);
    let c = md4_op3(c, d, a, b, word_at(blk, 7), 11);
    let b = md4_op3(b, c, d, a, word_at(blk, 15), 15);
    (st.0.wrapping_add(a), st.1.wrapping_add(b), st.2.wrapping_add(c), st.3.wrapping_add(d))
}

/// Folds the compression function over the complete 64-byte blocks of
/// `data`; any trailing partial block is ignored.
pub open spec fn md4_process(st: (u32, u32, u32, u32), data: Seq<u8>) -> (u32, u32, u32, u32)
    decreases data.len(),
{
    if data.len() < 64 {
        st
    } else {
        md4_process(spec_compress(st, data.take(64)), data.skip(64))
    }
}

/// How many zero bytes the padding inserts between the 0x80 marker and
/// the trailing length field, so that the padded length is a multiple
/// of 64.
pub open spec fn md4_zero_count(len: nat) -> nat {
    if len % 64 < 56 {
        (55 - len % 64) as nat
    } else {
        (119 - len % 64) as nat
    }
}

/// The original length in bits, wrapped to 64 bits.
pub open spec fn md4_bit_len(len: nat) -> u64 {
    (((len * 8) % 0x1_0000_0000_0000_0000) as u64)
}

/// A message with its MD4 padding: a single 0x80 byte, zeros up to 56
/// modulo 64, then the bit length as eight little-endian bytes.
pub open spec fn md4_pad(msg: Seq<u8>) -> Seq<u8> {
    msg + seq![0x80u8] + Seq::new(md4_zero_count(msg.len()), |i: int| 0u8)
        + spec_u64_to_le_bytes(md4_bit_len(msg.len()))
}

/// The four state words serialized little-endian, in state order.
pub open spec fn md4_output(st: (u32, u32, u32, u32)) -> Seq<u8> {
    spec_u32_to_le_bytes(st.0) + spec_u32_to_le_bytes(st.1) + spec_u32_to_le_bytes(st.2)
        + spec_u32_to_le_bytes(st.3)
}

/// The MD4 digest of an arbitrary byte sequence.
pub open spec fn spec_md4(msg: Seq<u8>) -> Seq<u8> {
    md4_output(md4_process(md4_iv(), md4_pad(msg)))
}

fn rotl(x: u32, s: u32) -> (r: u32)
    requires
        0 < s < 32,
    ensures
        r == rotl32(x, s),
{
    (x << s) | (x >> (32 - s))
}

fn op1(a: u32, b: u32, c: u32, d: u32, k: u32, s: u32) -> (r: u32)
    requires
        0 < s < 32,
    ensures
        r == md4_op1(a, b, c, d, k, s),
{
    rotl(a.wrapping_add((b & c) | (!b & d)).wrapping_add(k), s)
}

fn op2(a: u32, b: u32, c: u32, d: u32, k: u32, s: u32) -> (r: u32)
    requires
        0 < s < 32,
    ensures
        r == md4_op2(a, b, c, d, k, s),
{
    rotl(
        a.wrapping_add((b & c) | (b & d) | (c & d)).wrapping_add(k).wrapping_add(0x5A82_7999),
        s,
    )
}

fn op3(a: u32, b: u32, c: u32, d: u32, k: u32, s: u32) -> (r: u32)
    requires
        0 < s < 32,
    ensures
        r == md4_op3(a, b, c, d, k, s),
{
    rotl(a.wrapping_add(b ^ c ^ d).wrapping_add(k).wrapping_add(0x6ED9_EBA1), s)
}

/// Processing a prefix and then the rest reaches the same state as
/// processing the whole, as long as the prefix is whole blocks.
pub proof fn lemma_process_append(st: (u32, u32, u32, u32), d1: Seq<u8>, d2: Seq<u8>)
    requires
        d1.len() % 64 == 0,
    ensures
        md4_process(st, d1 + d2) == md4_process(md4_process(st, d1), d2),
    decreases d1.len(),
{
    if d1.len() == 0 {
        assert(d1 + d2 =~= d2);
    } else {
        assert(d1.len() >= 64);
        assert((d1 + d2).take(64) =~= d1.take(64));
        assert((d1 + d2).skip(64) =~= d1.skip(64) + d2);
        assert(d1.skip(64).len() % 64 == 0) by {
            assert(d1.len() % 64 == 0 && d1.len() >= 64);
        };
        lemma_process_append(spec_compress(st, d1.take(64)), d1.skip(64), d2);
    }
}

/// On a single 64-byte block, processing is one compression.
pub proof fn lemma_process_one_block(st: (u32, u32, u32, u32), b: Seq<u8>)
    requires
        b.len() == 64,
    ensures
        md4_process(st, b) == spec_compress(st, b),
{
    reveal_with_fuel(md4_process, 2);
    assert(b.take(64) =~= b);
    assert(b.skip(64).len() == 0);
}

/// The one-shot MD4 engine: fixed initial state, a compression per
/// 64-byte block, padding appended by `digest`.
pub struct MD4 {
    block_len: u64,
    s0: u32,
    s1: u32,
    s2: u32,
    s3: u32,
}

impl MD4 {
    /// The four chaining words.
    pub closed spec fn st(&self) -> (u32, u32, u32, u32) {
        (self.s0, self.s1, self.s2, self.s3)
    }

    /// How many message bytes have been absorbed.
    pub closed spec fn absorbed(&self) -> u64 {
        self.block_len
    }

    /// A newly created engine: initial state, nothing absorbed.
    pub open spec fn fresh(&self) -> bool {
        self.st() == md4_iv() && self.absorbed() == 0
    }

    pub fn new() -> (r: Self)
        ensures
            r.fresh(),
    {
        MD4 {
            block_len: 0,
            s0: 0x6745_2301,
            s1: 0xEFCD_AB89,
            s2: 0x98BA_DCFE,
            s3: 0x1032_5476,
        }
    }

    #[verifier::rlimit(100)]
    fn compress(&mut self, block: &[u8])
        requires
            block@.len() == 64,
        ensures
            final(self).st() == spec_compress(old(self).st(), block@),
            final(self).absorbed() == old(self).absorbed(),
    {
        let x0 = u32_from_le_bytes(slice_subrange(block, 0, 4));
        let x1 = u32_from_le_bytes(slice_subrange(block, 4, 8));
        let x2 = u32_from_le_bytes(slice_subrange(block, 8, 12));
        let x3 = u32_from_le_bytes(slice_subrange(block, 12, 16));
        let x4 = u32_from_le_bytes(slice_subrange(block, 16, 20));
        let x5 = u32_from_le_bytes(slice_subrange(block, 20, 24));
        let x6 = u32_from_le_bytes(slice_subrange(block, 24, 28));
        let x7 = u32_from_le_bytes(slice_subrange(block, 28, 32));
        let x8 = u32_from_le_bytes(slice_subrange(block, 32, 36));
        let x9 = u32_from_le_bytes(slice_subrange(block, 36, 40));
        let x10 = u32_from_le_bytes(slice_subrange(block, 40, 44));
        let x11 = u32_from_le_bytes(slice_subrange(block, 44, 48));
        let x12 = u32_from_le_bytes(slice_subrange(block, 48, 52));
        let x13 = u32_from_le_bytes(slice_subrange(block, 52, 56));
        let x14 = u32_from_le_bytes(slice_subrange(block, 56, 60));
        let x15 = u32_from_le_bytes(slice_subrange(block, 60, 64));
        proof {
            assert(x0 == word_at(block@, 0));
            assert(x1 == word_at(block@, 1));
            assert(x2 == word_at(block@, 2));
            assert(x3 == word_at(block@, 3));
            assert(x4 == word_at(block@, 4));
            assert(x5 == word_at(block@, 5));
            assert(x6 == word_at(block@, 6));
            assert(x7 == word_at(block@, 7));
            assert(x8 == word_at(block@, 8));
            assert(x9 == word_at(block@, 9));
            assert(x10 == word_at(block@, 10));
            assert(x11 == word_at(block@, 11));
            assert(x12 == word_at(block@, 12));
            assert(x13 == word_at(block@, 13));
            assert(x14 == word_at(block@, 14));
            assert(x15 == word_at(block@, 15));
        }
        let mut a = self.s0;
        let mut b = self.s1;
        let mut c = self.s2;
        let mut d = self.s3;

        a = op1(a, b, c, d, x0, 3);
        d = op1(d, a, b, c, x1, 7);
        c = op1(c, d, a, b, x2, 11);
        b = op1(b, c, d, a, x3, 19);
        a = op1(a, b, c, d, x4, 3);
        d = op1(d, a, b, c, x5, 7);
        c = op1(c, d, a, b, x6, 11);
        b = op1(b, c, d, a, x7, 19);
        a = op1(a, b, c, d, x8, 3);
        d = op1(d, a, b, c, x9, 7);
        c = op1(c, d, a, b, x10, 11);
        b = op1(b, c, d, a, x11, 19);
        a = op1(a, b, c, d, x12, 3);
        d = op1(d, a, b, c, x13, 7);
        c = op1(c, d, a, b, x14, 11);
        b = op1(b, c, d, a, x15, 19);

        a = op2(a, b, c, d, x0, 3);
        d = op2(d, a, b, c, x4, 5);
        c = op2(c, d, a, b, x8, 9);
        b = op2(b, c, d, a, x12, 13);
        a = op2(a, b, c, d, x1, 3);
        d = op2(d, a, b, c, x5, 5);
        c = op2(c, d, a, b, x9, 9);
        b = op2(b, c, d, a, x13, 13);
        a = op2(a, b, c, d, x2, 3);
        d = op2(d, a, b, c, x6, 5);
        c = op2(c, d, a, b, x10, 9);
        b = op2(b, c, d, a, x14, 13);
        a = op2(a, b, c, d, x3, 3);
        d = op2(d, a, b, c, x7, 5);
        c = op2(c, d, a, b, x11, 9);
        b = op2(b, c, d, a, x15, 13);

        a = op3(a, b, c, d, x0, 3);
        d = op3(d, a, b, c, x8, 9);
        c = op3(c, d, a, b, x4, 11);
        b = op3(b, c, d, a, x12, 15);
        a = op3(a, b, c, d, x2, 3);
        d = op3(d, a, b, c, x10, 9);
        c = op3(c, d, a, b, x6, 11);
        b = op3(b, c, d, a, x14, 15);
        a = op3(a, b, c, d, x1, 3);
        d = op3(d, a, b, c, x9, 9);
        c = op3(c, d, a, b, x5, 11);
        b = op3(b, c, d, a, x13, 15);
        a = op3(a, b, c, d, x3, 3);
        d = op3(d, a, b, c, x11, 9);
        c = op3(c, d, a, b, x7, 11);
        b = op3(b, c, d, a, x15, 15);

        self.s0 = self.s0.wrapping_add(a);
        self.s1 = self.s1.wrapping_add(b);
        self.s2 = self.s2.wrapping_add(c);
        self.s3 = self.s3.wrapping_add(d);
        proof {
            reveal(spec_compress);
        }
    }

    /// Builds the padded tail block or blocks: the leftover input
    /// bytes, the 0x80 marker, zeros up to 56 modulo 64, and the
    /// absorbed length in bits as eight little-endian bytes.
    fn pad(&self, tail: &[u8]) -> (buf: Vec<u8>)
        requires
            tail@.len() < 64,
        ensures
            buf@ == tail@ + seq![0x80u8] + Seq::new(md4_zero_count(tail@.len()), |j: int| 0u8)
                + spec_u64_to_le_bytes(md4_bit_len(self.absorbed() as nat)),
    {
        let len = tail.len();
        let mut buf: Vec<u8> = Vec::new();
        let mut i: usize = 0;
        while i < len
            invariant
                0 <= i <= len,
                len == tail@.len(),
                buf@ =~= tail@.subrange(0, i as int),
            decreases len - i,
        {
            buf.push(tail[i]);
            i = i + 1;
        }
        buf.push(0x80);
        let zeros: usize = if len < 56 {
            55 - len
        } else {
            119 - len
        };
        assert(zeros == md4_zero_count(tail@.len()));
        let mut z: usize = 0;
        while z < zeros
            invariant
                0 <= z <= zeros,
                len == tail@.len(),
                buf@ =~= tail@ + seq![0x80u8] + Seq::new(z as nat, |j: int| 0u8),
            decreases zeros - z,
        {
            buf.push(0u8);
            proof {
                assert(Seq::new((z + 1) as nat, |j: int| 0u8) =~= Seq::new(z as nat, |j: int| 0u8)
                    + seq![0u8]);
                assert(buf@ =~= tail@ + seq![0x80u8] + Seq::new((z + 1) as nat, |j: int| 0u8));
            }
            z = z + 1;
        }
        let bits = self.block_len.wrapping_mul(8);
        proof {
            assert(bits == md4_bit_len(self.absorbed() as nat));
        }
        let mut lenb = u64_to_le_bytes(bits);
        buf.append(&mut lenb);
        proof {
            assert(buf@ =~= tail@ + seq![0x80u8] + Seq::new(
                md4_zero_count(tail@.len()),
                |j: int| 0u8,
            ) + spec_u64_to_le_bytes(md4_bit_len(self.absorbed() as nat)));
        }
        buf
    }

    /// Absorbs the whole message and its padding. The engine is meant
    /// to be used once per message: it must be fresh.
    pub fn digest(&mut self, input: &[u8])
        requires
            old(self).fresh(),
            input@.len() + 9 <= u64::MAX,
        ensures
            final(self).st() == md4_process(md4_iv(), md4_pad(input@)),
    {
        let len = input.len();
        self.block_len = len as u64;

        let ghost padded = md4_pad(input@);

        let mut pos: usize = 0;
        while len - pos >= 64
            invariant
                pos % 64 == 0,
                pos <= len,
                len == input@.len(),
                len + 9 <= u64::MAX,
                self.block_len == len as u64,
                self.st() == md4_process(md4_iv(), input@.take(pos as int)),
            decreases len - pos,
        {
            let block = slice_subrange(input, pos, pos + 64);
            self.compress(block);
            proof {
                lemma_process_append(md4_iv(), input@.take(pos as int), block@);
                assert(input@.take(pos as int) + block@ =~= input@.take(pos + 64));
                lemma_process_one_block(md4_process(md4_iv(), input@.take(pos as int)), block@);
            }
            pos = pos + 64;
        }
        let rem = len - pos;
        proof {
            assert(len % 64 == rem) by (nonlinear_arith)
                requires
                    pos % 64 == 0,
                    len == pos + rem,
                    0 <= rem < 64,
            ;
        }

        let tail = slice_subrange(input, pos, len);
        let buf = self.pad(tail);

        proof {
            lemma_auto_spec_u64_to_from_le_bytes();
            assert(md4_zero_count(tail@.len()) == md4_zero_count(input@.len()));
            assert(md4_bit_len(self.absorbed() as nat) == md4_bit_len(input@.len()));
            assert(buf@ =~= padded.skip(pos as int));
            assert(buf@.len() == rem + 9 + md4_zero_count(input@.len()));
            if rem < 56 {
                assert(buf@.len() == 64);
            } else {
                assert(buf@.len() == 128);
            }
            assert(padded.take(pos as int) =~= input@.take(pos as int));
            assert(padded =~= padded.take(pos as int) + padded.skip(pos as int));
            lemma_process_append(md4_iv(), padded.take(pos as int), padded.skip(pos as int));
        }

        if buf.len() == 64 {
            let block = slice_subrange(buf.as_slice(), 0, 64);
            proof {
                assert(block@ =~= buf@);
            }
            self.compress(block);
            proof {
                lemma_process_one_block(md4_process(md4_iv(), input@.take(pos as int)), buf@);
            }
        } else {
            let first = slice_subrange(buf.as_slice(), 0, 64);
            self.compress(first);
            let second = slice_subrange(buf.as_slice(), 64, 128);
            self.compress(second);
            proof {
                let st0 = md4_process(md4_iv(), input@.take(pos as int));
                assert(buf@ =~= first@ + second@);
                lemma_process_append(st0, first@, second@);
                lemma_process_one_block(st0, first@);
                lemma_process_one_block(spec_compress(st0, first@), second@);
            }
        }
    }

    /// Serializes the current state, little-endian, word by word.
    pub fn get_hash(&self) -> (r: [u8; 16])
        ensures
            r@ == md4_output(self.st()),
    {
        proof {
            lemma_auto_spec_u32_to_from_le_bytes();
        }
        let b0 = u32_to_le_bytes(self.s0);
        let b1 = u32_to_le_bytes(self.s1);
        let b2 = u32_to_le_bytes(self.s2);
        let b3 = u32_to_le_bytes(self.s3);
        let r: [u8; 16] = [
            b0[0],
            b0[1],
            b0[2],
            b0[3],
            b1[0],
            b1[1],
            b1[2],
            b1[3],
            b2[0],
            b2[1],
            b2[2],
            b2[3],
            b3[0],
            b3[1],
            b3[2],
            b3[3],
        ];
        proof {
            assert(r@ =~= md4_output(self.st()));
        }
        r
    }
}

/// The digest of one message through a fresh engine.
pub fn md4_digest(input: &[u8]) -> (r: [u8; 16])
    requires
        input@.len() + 9 <= u64::MAX,
    ensures
        r@ == spec_md4(input@),
{
    let mut engine = MD4::new();
    engine.digest(input);
    engine.get_hash()
}

} // verus!
