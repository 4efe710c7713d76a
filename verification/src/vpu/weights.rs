//! llama.cpp's weight formats: how a block of bytes stands for its weights.
//! Every weight is `(d * scale) * quant - dmin * min`, where `d` and `dmin`
//! are halves stored in the block and the rest are the small integers that
//! this module takes out of the packed bytes.
use crate::bits::push_all;
use crate::vpu::proto::{MM_F16, MM_F32, MM_IQ4_XS, MM_Q4_K, MM_Q5_K, MM_Q6_K, MM_Q8_0};
use vstd::prelude::*;

verus! {

/// The integers of one weight.
#[derive(Clone, Copy, PartialEq, Eq, Structural, Debug)]
pub struct Weight {
    pub scale: i32,
    pub quant: i32,
    pub min: i32,
}

/// Whether the type packs its weights in blocks.
#[verifier::allow_in_spec]
pub fn quantized(t: u32) -> bool
    returns
        (t == MM_Q4_K || t == MM_Q5_K || t == MM_Q6_K || t == MM_Q8_0 || t == MM_IQ4_XS),
{
    t == MM_Q4_K || t == MM_Q5_K || t == MM_Q6_K || t == MM_Q8_0 || t == MM_IQ4_XS
}

/// Weights in one block of the type.
#[verifier::allow_in_spec]
pub fn block_weights(t: u32) -> usize
    returns
        (if t == MM_Q8_0 {
            32usize
        } else {
            256usize
        }),
{
    if t == MM_Q8_0 {
        32
    } else {
        256
    }
}

/// Bytes of one block of the type.
#[verifier::allow_in_spec]
pub fn block_bytes(t: u32) -> usize
    returns
        (if t == MM_Q4_K {
            144usize
        } else if t == MM_Q5_K {
            176usize
        } else if t == MM_Q6_K {
            210usize
        } else if t == MM_Q8_0 {
            34usize
        } else {
            136usize
        }),
{
    if t == MM_Q4_K {
        144
    } else if t == MM_Q5_K {
        176
    } else if t == MM_Q6_K {
        210
    } else if t == MM_Q8_0 {
        34
    } else {
        136
    }
}

/// A byte as a signed number.
#[verifier::allow_in_spec]
pub fn signed8(b: u8) -> i32
    returns
        (if b < 128 {
            b as i32
        } else {
            (b - 256) as i32
        }),
{
    if b < 128 {
        b as i32
    } else {
        b as i32 - 256
    }
}

/// The scale and the minimum of sub-block `j`, out of the twelve bytes that
/// hold eight of each in six bits.
pub open spec fn spec_scale_min_k4(j: int, q: Seq<u8>) -> (u8, u8) {
    if j < 4 {
        (q[j] & 63, q[j + 4] & 63)
    } else {
        ((q[j + 4] & 0xf) | ((q[j - 4] >> 6) << 4), (q[j + 4] >> 4) | ((q[j] >> 6) << 4))
    }
}

/// The scale and the minimum of sub-block `j`, from twelve bytes at `at`.
fn scale_min_k4(j: usize, blk: &[u8], at: usize) -> (r: (u8, u8))
    requires
        j < 8,
        at + 12 <= blk@.len(),
    ensures
        r == spec_scale_min_k4(j as int, blk@.skip(at as int)),
{
    let end: usize = blk.len();
    assert(at + 12 <= end);
    if j < 4 {
        (blk[at + j] & 63, blk[at + j + 4] & 63)
    } else {
        (
            (blk[at + j + 4] & 0xf) | ((blk[at + j - 4] >> 6) << 4),
            (blk[at + j + 4] >> 4) | ((blk[at + j] >> 6) << 4),
        )
    }
}

/// The sixteen values an IQ4_XS nibble stands for.
#[verifier::allow_in_spec]
pub fn iq4nl(n: u8) -> i32
    returns
        (match n {
            0 => -127i32,
            1 => -104i32,
            2 => -83i32,
            3 => -65i32,
            4 => -49i32,
            5 => -35i32,
            6 => -22i32,
            7 => -10i32,
            8 => 1i32,
            9 => 13i32,
            10 => 25i32,
            11 => 38i32,
            12 => 53i32,
            13 => 69i32,
            14 => 89i32,
            _ => 113i32,
        }),
{
    match n {
        0 => -127,
        1 => -104,
        2 => -83,
        3 => -65,
        4 => -49,
        5 => -35,
        6 => -22,
        7 => -10,
        8 => 1,
        9 => 13,
        10 => 25,
        11 => 38,
        12 => 53,
        13 => 69,
        14 => 89,
        _ => 113,
    }
}

/// One half of a byte.
#[verifier::allow_in_spec]
pub fn nibble(b: u8, high: bool) -> u8
    returns
        (if high {
            b >> 4u8
        } else {
            b & 0xf
        }),
{
    if high {
        b >> 4u8
    } else {
        b & 0xf
    }
}

/// Weight `i` of a Q4_K or Q5_K superblock: eight sub-blocks of 32, the low
/// nibbles of bytes `32g..32g+32` sub-block `2g`, the high ones sub-block
/// `2g+1`; in Q5_K bit `j` of byte `l` of `qh` is the fifth bit of weight
/// `l` of sub-block `j`.
pub open spec fn weight_k4(t: u32, blk: Seq<u8>, i: int) -> Weight {
    let j = i / 32;
    let l = i % 32;
    let qs: int = if t == MM_Q5_K {
        48
    } else {
        16
    };
    let sm = spec_scale_min_k4(j, blk.skip(4));
    let low = nibble(blk[qs + 32 * (j / 2) + l], j % 2 == 1);
    let fifth: int = if t == MM_Q5_K && (blk[16 + l] >> (j as u8)) & 1 == 1 {
        16
    } else {
        0
    };
    Weight { scale: sm.0 as i32, quant: (low + fifth) as i32, min: sm.1 as i32 }
}

/// Weight `i` of a Q6_K superblock. In each half of 128, quarter `c` takes
/// the low (`c < 2`) or the high nibbles of 32 bytes of `ql`, and field `c`
/// of 32 bytes of `qh`; the value is 32 less.
pub open spec fn weight_q6k(blk: Seq<u8>, i: int) -> Weight {
    let h = i / 128;
    let c = (i % 128) / 32;
    let l = i % 32;
    let low = nibble(blk[64 * h + 32 * (c % 2) + l], c >= 2);
    let high = (blk[128 + 32 * h + l] >> ((2 * c) as u8)) & 3;
    Weight {
        scale: signed8(blk[192 + 8 * h + 2 * c + l / 16]),
        quant: (low + 16 * high - 32) as i32,
        min: 0,
    }
}

/// Weight `i` of an IQ4_XS superblock: each nibble names one of sixteen
/// values, the low ones of sixteen bytes first; the scale is six bits, four
/// from `scales_l` and two from `scales_h`, less 32.
pub open spec fn weight_iq4xs(blk: Seq<u8>, i: int) -> Weight {
    let ib = i / 32;
    let low = nibble(blk[4 + ib / 2], ib % 2 == 1);
    let high = (blk[2 + ib / 4] >> ((2 * (ib % 4)) as u8)) & 3;
    Weight {
        scale: (low + 16 * high - 32) as i32,
        quant: iq4nl(nibble(blk[8 + 16 * ib + i % 16], i % 32 >= 16)),
        min: 0,
    }
}

/// Weight `i` of a block of the type.
pub open spec fn weight_of(t: u32, blk: Seq<u8>, i: int) -> Weight {
    if t == MM_Q4_K || t == MM_Q5_K {
        weight_k4(t, blk, i)
    } else if t == MM_Q6_K {
        weight_q6k(blk, i)
    } else if t == MM_Q8_0 {
        Weight { scale: 1, quant: signed8(blk[2 + i]), min: 0 }
    } else {
        weight_iq4xs(blk, i)
    }
}

proof fn lemma_small(b: u8, s: u8)
    ensures
        (b & 0xf) < 16,
        (b >> 4u8) < 16,
        ((b >> s) & 3) < 4,
{
    lemma_bytes(b, b, s);
}

/// What the bit operations on a byte come to, in numbers and in words.
pub proof fn lemma_bytes(b: u8, h: u8, s: u8)
    ensures
        (b & 0xf) < 16,
        (b >> 4u8) < 16,
        ((b >> s) & 3) < 4,
        b & 0xf == b % 16,
        b >> 4u8 == b / 16,
        (b as u32) & 63 == (b & 63) as u32,
        b & 63 < 64,
        ((b as u32) & 15) | (((h as u32) & 0xc0) >> 2u8) == ((b & 0xf) | ((h >> 6) << 4)) as u32,
        (b & 0xf) | ((h >> 6) << 4) < 64,
        ((b as u32) >> 4u8) | (((h as u32) & 0xc0) >> 2u8) == ((b >> 4) | ((h >> 6) << 4)) as u32,
        (b >> 4) | ((h >> 6) << 4) < 64,
        (b as u32) | 0u32 == b as u32,
        0u32 | (b as u32) == b as u32,
        (b >> 0u8) & 3 == b % 4 && (b >> 2u8) & 3 == b / 4 % 4 && (b >> 4u8) & 3 == b / 16 % 4
            && (b >> 6u8) & 3 == b / 64 % 4,
        (b >> 0u8) & 1 == b % 2 && (b >> 1u8) & 1 == b / 2 % 2 && (b >> 2u8) & 1 == b / 4 % 2
            && (b >> 3u8) & 1 == b / 8 % 2 && (b >> 4u8) & 1 == b / 16 % 2 && (b >> 5u8) & 1 == b
            / 32 % 2 && (b >> 6u8) & 1 == b / 64 % 2 && (b >> 7u8) & 1 == b / 128 % 2,
        ((b as u32) >> 0u32) & 15 == b & 0xf && ((b as u32) >> 4u32) & 15 == b >> 4u8,
        (((b as u32) | ((h as u32) << 8u8)) >> 0u32) & 3 == (b >> 0u8) & 3,
        (((b as u32) | ((h as u32) << 8u8)) >> 2u32) & 3 == (b >> 2u8) & 3,
        (((b as u32) | ((h as u32) << 8u8)) >> 4u32) & 3 == (b >> 4u8) & 3,
        (((b as u32) | ((h as u32) << 8u8)) >> 6u32) & 3 == (b >> 6u8) & 3,
        (((b as u32) | ((h as u32) << 8u8)) >> 8u32) & 3 == (h >> 0u8) & 3,
        (((b as u32) | ((h as u32) << 8u8)) >> 10u32) & 3 == (h >> 2u8) & 3,
        (((b as u32) | ((h as u32) << 8u8)) >> 12u32) & 3 == (h >> 4u8) & 3,
        (((b as u32) | ((h as u32) << 8u8)) >> 14u32) & 3 == (h >> 6u8) & 3,
        b < 16 && h < 4 ==> (b as u32) | ((h as u32) << 4u8) == b + 16 * h,
{
    assert((b & 0xf) < 16 && (b >> 4u8) < 16 && ((b >> s) & 3) < 4 && b & 0xf == b % 16 && b >> 4u8
        == b / 16 && (b as u32) & 63 == (b & 63) as u32 && b & 63 < 64 && ((b as u32) & 15) | (((
    h as u32) & 0xc0) >> 2u8) == ((b & 0xf) | ((h >> 6) << 4)) as u32 && (b & 0xf) | ((h >> 6)
        << 4) < 64 && ((b as u32) >> 4u8) | (((h as u32) & 0xc0) >> 2u8) == ((b >> 4) | ((h >> 6)
        << 4)) as u32 && (b >> 4) | ((h >> 6) << 4) < 64 && (b as u32) | 0u32 == b as u32 && 0u32 | (
    b as u32) == b as u32 && (b >> 0u8) & 3 == b % 4 && (b >> 2u8) & 3 == b / 4 % 4 && (b >> 4u8)
        & 3 == b / 16 % 4 && (b >> 6u8) & 3 == b / 64 % 4 && (b >> 0u8) & 1 == b % 2 && (b >> 1u8)
        & 1 == b / 2 % 2 && (b >> 2u8) & 1 == b / 4 % 2 && (b >> 3u8) & 1 == b / 8 % 2 && (b
        >> 4u8) & 1 == b / 16 % 2 && (b >> 5u8) & 1 == b / 32 % 2 && (b >> 6u8) & 1 == b / 64 % 2
        && (b >> 7u8) & 1 == b / 128 % 2 && ((b as u32) >> 0u32) & 15 == b & 0xf && ((b as u32)
        >> 4u32) & 15 == b >> 4u8 && (((b as u32) | ((h as u32) << 8u8)) >> 0u32) & 3 == (b >> 0u8)
        & 3 && (((b as u32) | ((h as u32) << 8u8)) >> 2u32) & 3 == (b >> 2u8) & 3 && (((b as u32)
        | ((h as u32) << 8u8)) >> 4u32) & 3 == (b >> 4u8) & 3 && (((b as u32) | ((h as u32)
        << 8u8)) >> 6u32) & 3 == (b >> 6u8) & 3 && (((b as u32) | ((h as u32) << 8u8)) >> 8u32) & 3
        == (h >> 0u8) & 3 && (((b as u32) | ((h as u32) << 8u8)) >> 10u32) & 3 == (h >> 2u8) & 3
        && (((b as u32) | ((h as u32) << 8u8)) >> 12u32) & 3 == (h >> 4u8) & 3 && (((b as u32) | ((
    h as u32) << 8u8)) >> 14u32) & 3 == (h >> 6u8) & 3 && (b < 16 && h < 4 ==> (b as u32) | ((
    h as u32) << 4u8) == b + 16 * h)) by (bit_vector);
}

/// Weight `i` of a block of the type.
fn weight(t: u32, blk: &[u8], i: usize) -> (w: Weight)
    requires
        quantized(t),
        blk@.len() == block_bytes(t),
        i < block_weights(t),
    ensures
        w == weight_of(t, blk@, i as int),
{
    if t == MM_Q4_K || t == MM_Q5_K {
        let j: usize = i / 32;
        let l: usize = i % 32;
        let qs: usize = if t == MM_Q5_K {
            48
        } else {
            16
        };
        let sm = scale_min_k4(j, blk, 4);
        let low: u8 = nibble(blk[qs + 32 * (j / 2) + l], j % 2 == 1);
        proof {
            lemma_small(blk@[qs + 32 * (j as int / 2) + l], 0);
        }
        let fifth: u8 = if t == MM_Q5_K && (blk[16 + l] >> (j as u8)) & 1 == 1 {
            16
        } else {
            0
        };
        Weight { scale: sm.0 as i32, quant: (low + fifth) as i32, min: sm.1 as i32 }
    } else if t == MM_Q6_K {
        let h: usize = i / 128;
        let c: usize = (i % 128) / 32;
        let l: usize = i % 32;
        let low: u8 = nibble(blk[64 * h + 32 * (c % 2) + l], c >= 2);
        let high: u8 = (blk[128 + 32 * h + l] >> ((2 * c) as u8)) & 3;
        proof {
            lemma_small(blk@[64 * h + 32 * (c as int % 2) + l], 0);
            lemma_small(blk@[128 + 32 * h + l], (2 * c) as u8);
        }
        Weight {
            scale: signed8(blk[192 + 8 * h + 2 * c + l / 16]),
            quant: low as i32 + 16 * high as i32 - 32,
            min: 0,
        }
    } else if t == MM_Q8_0 {
        Weight { scale: 1, quant: signed8(blk[2 + i]), min: 0 }
    } else {
        let ib: usize = i / 32;
        let low: u8 = nibble(blk[4 + ib / 2], ib % 2 == 1);
        let high: u8 = (blk[2 + ib / 4] >> ((2 * (ib % 4)) as u8)) & 3;
        proof {
            lemma_small(blk@[4 + ib as int / 2], 0);
            lemma_small(blk@[2 + ib as int / 4], (2 * (ib as int % 4)) as u8);
        }
        Weight {
            scale: low as i32 + 16 * high as i32 - 32,
            quant: iq4nl(nibble(blk[8 + 16 * ib + i % 16], i % 32 >= 16)),
            min: 0,
        }
    }
}

/// The weights of one block, by ggml's dequantization.
pub fn weights_of(t: u32, blk: &[u8]) -> (v: Vec<Weight>)
    requires
        quantized(t),
        blk@.len() == block_bytes(t),
    ensures
        v@ == Seq::new(block_weights(t) as nat, |i: int| weight_of(t, blk@, i)),
{
    let n: usize = block_weights(t);
    let mut v: Vec<Weight> = Vec::new();
    for i in 0..n
        invariant
            n == block_weights(t),
            quantized(t),
            blk@.len() == block_bytes(t),
            v@.len() == i,
            forall|k: int| 0 <= k < i ==> #[trigger] v@[k] == weight_of(t, blk@, k),
    {
        v.push(weight(t, blk, i));
    }
    assert(v@ =~= Seq::new(n as nat, |i: int| weight_of(t, blk@, i)));
    v
}

/// The half at `at`.
pub open spec fn half_at(blk: Seq<u8>, at: int) -> u16 {
    (blk[at] as u16) | ((blk[at + 1] as u16) << 8)
}

/// Where the block's `d` is: at its end in Q6_K, at its beginning otherwise.
#[verifier::allow_in_spec]
pub fn d_offset(t: u32) -> usize
    returns
        (if t == MM_Q6_K {
            208usize
        } else {
            0usize
        }),
{
    if t == MM_Q6_K {
        208
    } else {
        0
    }
}

/// Whether the block has a `dmin`, after its `d`.
#[verifier::allow_in_spec]
pub fn has_dmin(t: u32) -> bool
    returns
        (t == MM_Q4_K || t == MM_Q5_K),
{
    t == MM_Q4_K || t == MM_Q5_K
}

/// The block's `d` and `dmin`, as halves; the second is zero where the type
/// has none.
pub fn halves_of(t: u32, blk: &[u8]) -> (r: (u16, u16))
    requires
        quantized(t),
        blk@.len() == block_bytes(t),
    ensures
        r.0 == half_at(blk@, d_offset(t) as int),
        r.1 == (if has_dmin(t) {
            half_at(blk@, 2)
        } else {
            0
        }),
{
    let at: usize = d_offset(t);
    let d: u16 = (blk[at] as u16) | ((blk[at + 1] as u16) << 8);
    if has_dmin(t) {
        (d, (blk[2] as u16) | ((blk[3] as u16) << 8))
    } else {
        (d, 0)
    }
}

/// The two bytes of a half.
pub open spec fn half_bytes(h: u16) -> Seq<u8> {
    seq![(h & 0xff) as u8, (h >> 8) as u8]
}

/// A block made of its halves and the bytes between them.
pub open spec fn spec_block(t: u32, d: u16, dmin: u16, body: Seq<u8>) -> Seq<u8> {
    if has_dmin(t) {
        half_bytes(d) + half_bytes(dmin) + body
    } else if t == MM_Q6_K {
        body + half_bytes(d)
    } else {
        half_bytes(d) + body
    }
}

/// Bytes of a block that are not its halves.
#[verifier::allow_in_spec]
pub fn body_bytes(t: u32) -> usize
    returns
        (if has_dmin(t) {
            (block_bytes(t) - 4) as usize
        } else {
            (block_bytes(t) - 2) as usize
        }),
{
    if has_dmin(t) {
        block_bytes(t) - 4
    } else {
        block_bytes(t) - 2
    }
}

/// A block made of its halves and the bytes between them.
pub fn block(t: u32, d: u16, dmin: u16, body: &[u8]) -> (v: Vec<u8>)
    requires
        quantized(t),
        body@.len() == body_bytes(t),
    ensures
        v@ == spec_block(t, d, dmin, body@),
        v@.len() == block_bytes(t),
{
    let mut v: Vec<u8> = Vec::new();
    if t == MM_Q6_K {
        push_all(&mut v, body);
    }
    v.push((d & 0xff) as u8);
    v.push((d >> 8) as u8);
    if has_dmin(t) {
        v.push((dmin & 0xff) as u8);
        v.push((dmin >> 8) as u8);
    }
    if t != MM_Q6_K {
        push_all(&mut v, body);
    }
    assert(v@ =~= spec_block(t, d, dmin, body@));
    v
}

/// A block gives back the halves it was made of.
pub proof fn law_halves_read_back(t: u32, d: u16, dmin: u16, body: Seq<u8>)
    requires
        quantized(t),
        body.len() == body_bytes(t),
    ensures
        half_at(spec_block(t, d, dmin, body), d_offset(t) as int) == d,
        has_dmin(t) ==> half_at(spec_block(t, d, dmin, body), 2) == dmin,
{
    let b = spec_block(t, d, dmin, body);
    let at = d_offset(t) as int;
    lemma_half(d);
    lemma_half(dmin);
    assert(b[at] == half_bytes(d)[0] && b[at + 1] == half_bytes(d)[1]);
    if has_dmin(t) {
        assert(b[2] == half_bytes(dmin)[0] && b[3] == half_bytes(dmin)[1]);
    }
}

proof fn lemma_half(h: u16)
    ensures
        (((h & 0xff) as u8) as u16) | ((((h >> 8) as u8) as u16) << 8) == h,
{
    assert((((h & 0xff) as u8) as u16) | ((((h >> 8) as u8) as u16) << 8) == h) by (bit_vector);
}

/// The generator of the check's weights and activations. With a pattern,
/// every quant byte is that value: a diagnostic, so a wrong mapping shows as
/// a fixed ratio.
#[derive(Clone, Copy, PartialEq, Eq, Structural, Debug)]
pub struct Rng {
    pub state: u64,
    pub pattern: Option<u8>,
}

impl Rng {
    /// The state after the next draw, which is also what it draws.
    pub open spec fn step(x: u64) -> u64 {
        let a = x ^ (x << 13);
        let b = a ^ (a >> 7);
        b ^ (b << 17)
    }

    /// The generator after `n` draws.
    pub open spec fn after(self, n: nat) -> Rng
        decreases n,
    {
        if n == 0 {
            self
        } else {
            let r = self.after((n - 1) as nat);
            Rng { state: Rng::step(r.state), ..r }
        }
    }

    /// The quant byte that draw `n` gives.
    pub open spec fn byte_at(self, n: nat) -> u8 {
        match self.pattern {
            Some(p) => p,
            None => (self.after((n + 1) as nat).state >> 24) as u8,
        }
    }

    pub fn next(&mut self) -> (x: u64)
        ensures
            x == Rng::step(old(self).state),
            *final(self) == (Rng { state: x, ..*old(self) }),
    {
        let a: u64 = self.state ^ (self.state << 13);
        let b: u64 = a ^ (a >> 7);
        self.state = b ^ (b << 17);
        self.state
    }

    /// A quant byte: the pattern, which draws nothing, or one draw.
    pub fn byte(&mut self) -> (b: u8)
        ensures
            b == old(self).byte_at(0),
            *final(self) == (if old(self).pattern is Some {
                *old(self)
            } else {
                old(self).after(1)
            }),
    {
        proof {
            reveal_with_fuel(Rng::after, 2);
        }
        match self.pattern {
            Some(p) => p,
            None => (self.next() >> 24) as u8,
        }
    }

    /// A number below `2^24`, of which the caller makes a float in [-1, 1):
    /// this over `2^23`, less one.
    pub fn unit(&mut self) -> (u: u32)
        ensures
            u == (Rng::step(old(self).state) >> 40) as u32,
            u < 0x100_0000,
            *final(self) == (Rng { state: Rng::step(old(self).state), ..*old(self) }),
    {
        let x: u64 = self.next();
        assert((x >> 40) < 0x100_0000) by (bit_vector);
        (x >> 40) as u32
    }

    /// The bytes of a block that are not its halves: random, and in Q6_K
    /// the sixteen scales at the end halved towards zero.
    pub open spec fn body_at(self, t: u32, k: int) -> u8 {
        let b = self.byte_at(k as nat);
        if t == MM_Q6_K && k >= 192 {
            halved(b)
        } else {
            b
        }
    }

    /// The bytes of a random block that are not its halves.
    pub fn body(&mut self, t: u32) -> (v: Vec<u8>)
        requires
            quantized(t),
        ensures
            v@ == Seq::new(body_bytes(t) as nat, |k: int| old(self).body_at(t, k)),
            *final(self) == (if old(self).pattern is Some {
                *old(self)
            } else {
                old(self).after(body_bytes(t) as nat)
            }),
    {
        let n: usize = body_bytes(t);
        let ghost start = *self;
        let mut v: Vec<u8> = Vec::new();
        for k in 0..n
            invariant
                start == *old(self),
                v@.len() == k,
                forall|i: int| 0 <= i < k ==> #[trigger] v@[i] == start.body_at(t, i),
                *self == (if start.pattern is Some {
                    start
                } else {
                    start.after(k as nat)
                }),
        {
            proof {
                reveal_with_fuel(Rng::after, 2);
                lemma_pattern(start, k as nat);
            }
            let b: u8 = self.byte();
            if t == MM_Q6_K && k >= 192 {
                v.push(halve(b));
            } else {
                v.push(b);
            }
        }
        assert(v@ =~= Seq::new(n as nat, |k: int| start.body_at(t, k)));
        v
    }
}

/// Draws do not change the pattern, and one more draw is one draw more.
proof fn lemma_pattern(r: Rng, n: nat)
    ensures
        r.after(n).pattern == r.pattern,
        r.after(n).after(1) == r.after(n + 1),
    decreases n,
{
    reveal_with_fuel(Rng::after, 2);
    if n > 0 {
        lemma_pattern(r, (n - 1) as nat);
    }
}

/// A signed byte halved towards zero.
pub open spec fn halved(b: u8) -> u8 {
    if b < 128 {
        (b / 2) as u8
    } else if b == 255 {
        0
    } else {
        (256 - (256 - b) / 2) as u8
    }
}

fn halve(b: u8) -> (h: u8)
    ensures
        h == halved(b),
{
    if b < 128 {
        b / 2
    } else if b == 255 {
        0
    } else {
        (256 - (256 - b as u32) / 2) as u8
    }
}

/// Bytes of one row of `k` weights in the type (ggml's row size); 0 for a
/// type the cards take no kernel for.
pub open spec fn spec_row_bytes(t: u32, k: int) -> int {
    if t == MM_F32 {
        k * 4
    } else if t == MM_F16 {
        k * 2
    } else if quantized(t) {
        k / block_weights(t) as int * block_bytes(t)
    } else {
        0
    }
}

/// A row is never longer than its weights as float32.
pub proof fn law_row_bytes(t: u32, k: int)
    requires
        k >= 0,
    ensures
        0 <= spec_row_bytes(t, k) <= k * 4,
{
    if t == MM_Q4_K {
        assert(spec_row_bytes(t, k) == k / 256 * 144);
    } else if t == MM_Q5_K {
        assert(spec_row_bytes(t, k) == k / 256 * 176);
    } else if t == MM_Q6_K {
        assert(spec_row_bytes(t, k) == k / 256 * 210);
    } else if t == MM_Q8_0 {
        assert(spec_row_bytes(t, k) == k / 32 * 34);
    } else if t == MM_IQ4_XS {
        assert(spec_row_bytes(t, k) == k / 256 * 136);
    }
}

/// Bytes of one row of `k` weights in the type (ggml's row size).
pub fn row_bytes(t: u32, k: u64) -> (b: u64)
    requires
        k * 4 <= u64::MAX,
    ensures
        b == spec_row_bytes(t, k as int),
        b <= k * 4,
{
    if t == MM_F32 {
        k * 4
    } else if t == MM_F16 {
        k * 2
    } else if t == MM_Q4_K {
        k / 256 * 144
    } else if t == MM_Q5_K {
        k / 256 * 176
    } else if t == MM_Q6_K {
        k / 256 * 210
    } else if t == MM_Q8_0 {
        k / 32 * 34
    } else if t == MM_IQ4_XS {
        k / 256 * 136
    } else {
        0
    }
}

} // verus!
