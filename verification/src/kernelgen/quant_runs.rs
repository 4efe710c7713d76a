//! What the quantized kernels do when they are run, on the core of
//! [`crate::kernelgen::machine`] with exact arithmetic: they add to every
//! accumulator lane the products of the block's weights and the activations.
use crate::kernelgen::dots;
use crate::kernelgen::dots::{
    accs_ok, activation, batch_apart, constant_is, exact, finished, is_num, minuend_at, num,
    scale_at, total, whole,
};
use crate::kernelgen::quant;
use crate::kernelgen::quant::{part, Act, BLK, CONSTS, C_LUT, C_SIXTEEN};
use crate::kernelgen::vector::{apart, Form, Lane, One, Op, Unit};
use crate::mvex::reg::{Conv, Gpr, Mem, Src, Zmm};
use crate::vpu::proto::{MM_IQ4_XS, MM_Q4_K, MM_Q5_K, MM_Q6_K, MM_Q8_0};
use crate::vpu::weights;
use crate::vpu::weights::{signed8, Weight};
use vstd::prelude::*;

verus! {

/// Weight `i` of the 256 that a kernel takes at once: one superblock, or
/// eight blocks of Q8_0.
pub open spec fn weight_at(fmt: u32, blk: Seq<u8>, i: int) -> Weight {
    if fmt == MM_Q8_0 {
        weights::weight_of(fmt, blk.subrange(34 * (i / 32), 34 * (i / 32) + 34), i % 32)
    } else {
        weights::weight_of(fmt, blk, i)
    }
}

/// The number a weight stands for: `d` times its scale times its quant, less
/// `dmin` times its minimum.
pub open spec fn value(w: Weight, d: real, dmin: real) -> real {
    d * (w.scale as real) * (w.quant as real) - dmin * (w.min as real)
}

/// Whether the block's bytes are in memory.
pub open spec fn holds(u: Unit, g: Map<Gpr, int>, blk: Seq<u8>) -> bool {
    forall|i: int|
        #![trigger blk[i]]
        0 <= i < blk.len() ==> (u.mem)(Form::Byte, g[BLK] + i) == whole(blk[i] as int) && (u.mem)(
            Form::Signed,
            g[BLK] + i,
        ) == whole(signed8(blk[i]) as int) && (u.mem)(Form::IntByte, g[BLK] + i) == Lane::Bits(
            blk[i] as u32,
        ) && (u.mem)(Form::IntSigned, g[BLK] + i) == Lane::Bits(extended(blk[i]))
}

/// A signed byte in 32 bits.
pub open spec fn extended(b: u8) -> u32 {
    if b < 128 {
        b as u32
    } else {
        (b + 0xffff_ff00) as u32
    }
}

/// A byte of the block, read as each form.
pub proof fn lemma_byte(u: Unit, g: Map<Gpr, int>, blk: Seq<u8>, i: int)
    requires
        holds(u, g, blk),
        0 <= i < blk.len(),
    ensures
        (u.mem)(Form::Byte, g[BLK] + i) == whole(blk[i] as int),
        (u.mem)(Form::Signed, g[BLK] + i) == whole(signed8(blk[i]) as int),
        (u.mem)(Form::IntByte, g[BLK] + i) == Lane::Bits(blk[i] as u32),
        (u.mem)(Form::IntSigned, g[BLK] + i) == Lane::Bits(extended(blk[i])),
{
    assert(blk[i] == blk[i]);
}

/// The sum of the first `n` values of `f`.
pub open spec fn sum(f: spec_fn(int) -> real, n: int) -> real
    decreases n,
{
    if n <= 0 {
        0int as real
    } else {
        sum(f, n - 1) + f(n - 1)
    }
}

/// A batch that is half of a superblock adds up half of the sum.
proof fn lemma_half_sum(
    u: Unit,
    g: Map<Gpr, int>,
    batch: Seq<(Zmm, i32)>,
    minuend: bool,
    x: Act,
    i: int,
    l: int,
    half: int,
    f: spec_fn(int) -> real,
    n: int,
)
    requires
        0 <= half,
        0 <= n <= batch.len(),
        forall|k: int|
            0 <= k < n ==> (#[trigger] batch[k]).1 == 8 * half + k && finished(
                u,
                g,
                u.z[batch[k].0][l],
                8 * half + k,
                minuend,
            ) * num(activation(u, g, x, i, 8 * half + k, l)) == f(8 * half + k),
    ensures
        sum(f, 8 * half + n) == sum(f, 8 * half) + dots::dotted(u, g, batch, minuend, x, i, l, n),
    decreases n,
{
    if n > 0 {
        lemma_half_sum(u, g, batch, minuend, x, i, l, half, f, n - 1);
        let k = n - 1;
        assert(batch[k].1 == 8 * half + k);
    }
}

/// The registers of a batch are in order.
proof fn lemma_eight(r: [u8; 8], half: i32)
    requires
        half == 0 || half == 1,
        forall|k: int| 0 <= k < 8 ==> 8 <= #[trigger] r[k] < 32,
        forall|j: int, k: int| 0 <= j < k < 8 ==> #[trigger] r[j] != #[trigger] r[k],
    ensures
        batch_apart(quant::spec_eight(r, half)),
        quant::spec_eight(r, half).len() == 8,
        forall|k: int|
            0 <= k < 8 ==> #[trigger] quant::spec_eight(r, half)[k] == (
                Zmm(r[k]),
                (8 * half + k) as i32,
            ),
{
}

/// The loads of a Q4_K half: 64 bytes, sixteen to a register.
#[verifier::opaque]
pub open spec fn q4k_loads(half: int) -> Seq<(u8, int)> {
    Seq::new(4, |j: int| ((8 + j) as u8, 16 + 64 * half + 16 * j))
}

#[verifier::opaque]
pub open spec fn q4k_pairs() -> Seq<(Zmm, Zmm)> {
    quant::spec_pairs([8, 9, 10, 11], [12, 13, 14, 15])
}

#[verifier::opaque]
pub open spec fn q4k_batch(half: i32) -> Seq<(Zmm, i32)> {
    quant::spec_eight([8, 9, 12, 13, 10, 11, 14, 15], half)
}

/// The quants of a Q4_K half.
pub open spec fn q4k_quants(half: i32) -> Seq<Op> {
    dots::ops_loads(q4k_loads(half as int), true, Conv::U8) + dots::ops_nibbles(q4k_pairs())
}

/// A Q4_K half.
pub open spec fn q4k_ops(half: i32, t: u8, x: Act) -> Seq<Op> {
    q4k_quants(half) + dots::ops_dot(t, q4k_batch(half), true, x)
}

/// The constants that bytes are taken apart with.
pub open spec fn splitting(u: Unit, g: Map<Gpr, int>) -> bool {
    &&& constant_is(u, g, C_SIXTEEN as int, 16int as real)
    &&& constant_is(u, g, 24, (1int as real) / (16int as real))
}

/// Whether the activations, the table and the accumulators are numbers in
/// lane `l`.
pub open spec fn ready(u: Unit, g: Map<Gpr, int>, t: u8, x: Act, l: int) -> bool {
    &&& exact(u.ar)
    &&& 1 <= t <= 8
    &&& 0 <= l < 16
    &&& accs_ok(u, t, l)
    &&& forall|i: int, v: int|
        0 <= i < t && 0 <= v < 16 ==> is_num(#[trigger] activation(u, g, x, i, v, l))
}

/// What the kernel's quants are above the weights'.
pub open spec fn bias(fmt: u32) -> int {
    if fmt == MM_Q6_K {
        32
    } else {
        0
    }
}

/// Whether something is taken off the scaled quants of a format.
pub open spec fn minuend(fmt: u32) -> bool {
    fmt == MM_Q4_K || fmt == MM_Q5_K || fmt == MM_Q6_K
}

/// Whether the table holds what finishes the weights: the scales times `d`,
/// and as minuends the minimums times `dmin` or what the quants' bias comes to.
pub open spec fn tabled(
    u: Unit,
    g: Map<Gpr, int>,
    fmt: u32,
    blk: Seq<u8>,
    d: spec_fn(int) -> real,
    dmin: real,
) -> bool {
    forall|v: int|
        0 <= v < 16 ==> #[trigger] scale_at(u, g, v) == Lane::Num(
            d(v) * (weight_at(fmt, blk, 16 * v).scale as real),
        ) && (minuend(fmt) ==> minuend_at(u, g, v) == Lane::Num(
            dmin * (weight_at(fmt, blk, 16 * v).min as real) + d(v) * (weight_at(
                fmt,
                blk,
                16 * v,
            ).scale as real) * (bias(fmt) as real),
        ))
}

/// What lane `l` of vector `v` adds for row `i`.
pub open spec fn term(
    u: Unit,
    g: Map<Gpr, int>,
    fmt: u32,
    blk: Seq<u8>,
    d: spec_fn(int) -> real,
    dmin: real,
    x: Act,
    i: int,
    l: int,
) -> spec_fn(int) -> real {
    |v: int|
        value(weight_at(fmt, blk, 16 * v + l), d(v), dmin) * num(activation(u, g, x, i, v, l))
}

/// The byte and the nibble of a Q4_K weight.
proof fn lemma_q4k_weight(blk: Seq<u8>, v: int, l: int)
    requires
        blk.len() == 144,
        0 <= v < 16,
        0 <= l < 16,
    ensures
        ({
            let w = weight_at(MM_Q4_K, blk, 16 * v + l);
            let b = blk[16 + 32 * (v / 4) + 16 * (v % 2) + l];
            &&& w.quant == (if v / 2 % 2 == 1 {
                b / 16
            } else {
                b % 16
            })
            &&& w.scale == weight_at(MM_Q4_K, blk, 16 * v).scale
            &&& w.min == weight_at(MM_Q4_K, blk, 16 * v).min
        }),
{
    let i = 16 * v + l;
    assert(i / 32 == v / 2);
    assert(i % 32 == 16 * (v % 2) + l);
    assert(16 * v / 32 == v / 2);
    let b = blk[16 + 32 * (v / 4) + 16 * (v % 2) + l];
    weights::lemma_bytes(b, b, 0);
}

/// The registers of a Q4_K half.
proof fn lemma_q4k_regs(half: i32)
    requires
        half == 0 || half == 1,
    ensures
        dots::separate(q4k_pairs()),
        q4k_pairs().len() == 4,
        forall|j: int|
            0 <= j < 4 ==> #[trigger] q4k_pairs()[j] == (Zmm((8 + j) as u8), Zmm((12 + j) as u8)),
        batch_apart(q4k_batch(half)),
        q4k_batch(half).len() == 8,
        forall|k: int|
            0 <= k < 8 ==> (#[trigger] q4k_batch(half)[k]).1 == 8 * half + k && q4k_batch(half)[k].0
                == (if k / 2 % 2 == 1 {
                Zmm((12 + 2 * (k / 4) + k % 2) as u8)
            } else {
                Zmm((8 + 2 * (k / 4) + k % 2) as u8)
            }),
{
    reveal(q4k_pairs);
    reveal(q4k_batch);
    let pairs = q4k_pairs();
    let lo: [u8; 4] = [8, 9, 10, 11];
    let hi: [u8; 4] = [12, 13, 14, 15];
    assert(lo[0] == 8 && lo[1] == 9 && lo[2] == 10 && lo[3] == 11);
    assert(hi[0] == 12 && hi[1] == 13 && hi[2] == 14 && hi[3] == 15);
    assert(pairs[0] == (Zmm(8), Zmm(12)) && pairs[1] == (Zmm(9), Zmm(13)) && pairs[2] == (
        Zmm(10),
        Zmm(14),
    ) && pairs[3] == (Zmm(11), Zmm(15)));
    let r: [u8; 8] = [8, 9, 12, 13, 10, 11, 14, 15];
    assert(r[0] == 8 && r[1] == 9 && r[2] == 12 && r[3] == 13 && r[4] == 10 && r[5] == 11 && r[6]
        == 14 && r[7] == 15);
    lemma_eight(r, half);
}

/// The quant of lane `l` of vector `v` of a Q4_K superblock.
spec fn q4k_quant(blk: Seq<u8>, v: int, l: int) -> int {
    let b = blk[16 + 32 * (v / 4) + 16 * (v % 2) + l] as int;
    if v / 2 % 2 == 1 {
        b / 16
    } else {
        b % 16
    }
}

/// Where vector `k` of a half has its bytes.
proof fn lemma_place(h: int, k: int)
    requires
        h == 0 || h == 1,
        0 <= k < 8,
    ensures
        64 * h + 16 * (2 * (k / 4) + k % 2) == 32 * ((8 * h + k) / 4) + 16 * ((8 * h + k) % 2),
        (8 * h + k) / 2 % 2 == k / 2 % 2,
        0 <= 2 * (k / 4) + k % 2 < 4,
{
}

/// The quants of a Q4_K half, each in its register.
proof fn lemma_q4k_quants(u: Unit, g: Map<Gpr, int>, blk: Seq<u8>, half: i32)
    requires
        holds(u, g, blk),
        blk.len() == 144,
        half == 0 || half == 1,
        splitting(u, g),
        exact(u.ar),
    ensures
        ({
            let v = u.all(q4k_quants(half), g);
            &&& v == (Unit { z: v.z, ..u })
            &&& forall|k: int, l: int|
                0 <= k < 8 && 0 <= l < 16 ==> #[trigger] v.z[q4k_batch(half)[k].0][l] == whole(
                    q4k_quant(blk, 8 * half + k, l),
                )
            &&& forall|r: Zmm| r.0 < 8 ==> #[trigger] v.z[r] == u.z[r]
        }),
{
    let h = half as int;
    let loads = q4k_loads(h);
    let (o1, o2) = (dots::ops_loads(loads, true, Conv::U8), dots::ops_nibbles(q4k_pairs()));
    u.lemma_parts(o1, o2, g);
    let u1 = u.all(o1, g);
    assert(loads.len() == 4 && forall|j: int|
        0 <= j < 4 ==> #[trigger] loads[j] == ((8 + j) as u8, 16 + 64 * h + 16 * j)) by {
        reveal(q4k_loads);
    }
    dots::lemma_loads(u, g, loads, true, Conv::U8);
    lemma_q4k_regs(half);
    let pairs = q4k_pairs();
    let batch = q4k_batch(half);
    let b = |j: int, l: int| blk[16 + 64 * h + 16 * j + l] as int;
    assert forall|j: int, l: int| 0 <= j < pairs.len() && 0 <= l < 16 implies #[trigger] u1.z[
    pairs[j].0][l] == whole(b(j, l)) && 0 <= b(j, l) < 256 by {
        assert(u1.z[Zmm(loads[j].0)][l] == (u.mem)(Form::Byte, g[BLK] + loads[j].1 + l));
        lemma_byte(u, g, blk, 16 + 64 * h + 16 * j + l);
    }
    dots::lemma_nibbles(u1, g, pairs, b);
    let v = u1.all(o2, g);
    assert forall|k: int, l: int| 0 <= k < 8 && 0 <= l < 16 implies #[trigger] v.z[batch[k].0][l]
        == whole(q4k_quant(blk, 8 * half + k, l)) by {
        let j: int = 2 * (k / 4) + k % 2;
        lemma_place(h, k);
        assert(v.z[pairs[j].0][l] == whole(b(j, l) % 16));
        assert(v.z[pairs[j].1][l] == whole(b(j, l) / 16));
    }
    assert forall|r: Zmm| r.0 < 8 implies #[trigger] v.z[r] == u.z[r] by {
        assert(!dots::in_pairs(pairs, r));
        assert forall|i: int| 0 <= i < loads.len() implies Zmm((#[trigger] loads[i]).0) != r by {}
        assert(u1.z[r] == u.z[r]);
    }
}

/// Half of a Q4_K superblock adds its half of the products.
pub proof fn lemma_q4k_half(
    u: Unit,
    g: Map<Gpr, int>,
    blk: Seq<u8>,
    d: spec_fn(int) -> real,
    dmin: real,
    half: i32,
    t: u8,
    x: Act,
    l: int,
)
    requires
        holds(u, g, blk),
        blk.len() == 144,
        half == 0 || half == 1,
        splitting(u, g),
        ready(u, g, t, x, l),
        tabled(u, g, MM_Q4_K, blk, d, dmin),
    ensures
        added(u, u.all(q4k_ops(half, t, x), g), g, MM_Q4_K, blk, d, dmin, half, t, x, l),
{
    let o1 = q4k_quants(half);
    let o2 = dots::ops_dot(t, q4k_batch(half), true, x);
    u.lemma_parts(o1, o2, g);
    lemma_q4k_quants(u, g, blk, half);
    lemma_q4k_regs(half);
    let w = u.all(o1, g);
    let batch = q4k_batch(half);
    assert forall|k: int| 0 <= k < 8 implies (#[trigger] batch[k]).1 == 8 * half + k && w.z[
    batch[k].0][l] == whole(
        weight_at(MM_Q4_K, blk, 16 * (8 * half + k) + l).quant + bias(MM_Q4_K),
    ) by {
        lemma_q4k_weight(blk, 8 * half + k, l);
        assert(w.z[batch[k].0][l] == whole(q4k_quant(blk, 8 * half + k, l)));
    }
    lemma_accs(u, w, t, l);
    assert forall|v: int| 0 <= v < 16 implies (#[trigger] weight_at(MM_Q4_K, blk, 16 * v + l)).scale
        == weight_at(MM_Q4_K, blk, 16 * v).scale && weight_at(MM_Q4_K, blk, 16 * v + l).min
        == weight_at(MM_Q4_K, blk, 16 * v).min by {
        lemma_q4k_weight(blk, v, l);
    }
    lemma_finish(u, w, g, MM_Q4_K, blk, d, dmin, batch, half, t, x, l);
}

/// Whether a half of a block has been added in lane `l`: to every row its half
/// of the products.
pub open spec fn added(
    u: Unit,
    n: Unit,
    g: Map<Gpr, int>,
    fmt: u32,
    blk: Seq<u8>,
    d: spec_fn(int) -> real,
    dmin: real,
    half: i32,
    t: u8,
    x: Act,
    l: int,
) -> bool {
    &&& n == (Unit { z: n.z, ..u })
    &&& accs_ok(n, t, l)
    &&& forall|i: int|
        0 <= i < t ==> #[trigger] total(n, t, i, l) == total(u, t, i, l) + sum(
            term(u, g, fmt, blk, d, dmin, x, i, l),
            8 * half + 8,
        ) - sum(term(u, g, fmt, blk, d, dmin, x, i, l), 8 * half as int)
}

proof fn lemma_accs(u: Unit, w: Unit, t: u8, l: int)
    requires
        accs_ok(u, t, l),
        t <= 8,
        forall|r: Zmm| r.0 < 8 ==> #[trigger] w.z[r] == u.z[r],
    ensures
        accs_ok(w, t, l),
{
    assert forall|r: Zmm| r.0 < dots::accs(t) implies is_num(#[trigger] w.z[r][l]) by {
        assert(w.z[r] == u.z[r]);
        assert(is_num(u.z[r][l]));
    }
}

/// A scaled quant less its minuend is the weight's value.
proof fn lemma_value(w: Weight, d: real, dmin: real, bias: int, m: bool)
    requires
        m || bias == 0 && w.min == 0,
    ensures
        ({
            let s = d * (w.scale as real);
            let q = (w.quant + bias) as real * s;
            value(w, d, dmin) == (if m {
                q - (dmin * (w.min as real) + s * (bias as real))
            } else {
                q
            })
        }),
{
    let s = d * (w.scale as real);
    let (q, b, mn) = (w.quant as real, bias as real, w.min as real);
    assert((w.quant + bias) as real == q + b);
    assert((q + b) * s == s * q + s * b) by (nonlinear_arith);
    if !m {
        assert(dmin * mn == (0int as real)) by (nonlinear_arith)
            requires
                mn == (0int as real),
        ;
        assert(s * b == (0int as real)) by (nonlinear_arith)
            requires
                b == (0int as real),
        ;
    }
}

/// A half whose quants are in their registers, finished.
proof fn lemma_finish(
    u: Unit,
    w: Unit,
    g: Map<Gpr, int>,
    fmt: u32,
    blk: Seq<u8>,
    d: spec_fn(int) -> real,
    dmin: real,
    batch: Seq<(Zmm, i32)>,
    half: i32,
    t: u8,
    x: Act,
    l: int,
)
    requires
        half == 0 || half == 1,
        ready(u, g, t, x, l),
        tabled(u, g, fmt, blk, d, dmin),
        w == (Unit { z: w.z, ..u }),
        accs_ok(w, t, l),
        forall|r: Zmm| r.0 < 8 ==> #[trigger] w.z[r] == u.z[r],
        batch_apart(batch),
        batch.len() == 8,
        forall|k: int|
            0 <= k < 8 ==> (#[trigger] batch[k]).1 == 8 * half + k && w.z[batch[k].0][l] == whole(
                weight_at(fmt, blk, 16 * (8 * half + k) + l).quant + bias(fmt),
            ),
        forall|v: int|
            0 <= v < 16 ==> (#[trigger] weight_at(fmt, blk, 16 * v + l)).scale == weight_at(
                fmt,
                blk,
                16 * v,
            ).scale && weight_at(fmt, blk, 16 * v + l).min == weight_at(fmt, blk, 16 * v).min && (
            minuend(fmt) && bias(fmt) == 0 || weight_at(fmt, blk, 16 * v + l).min == 0),
    ensures
        ({
            let n = w.all(dots::ops_dot(t, batch, minuend(fmt), x), g);
            &&& added(u, n, g, fmt, blk, d, dmin, half, t, x, l)
            &&& forall|r: Zmm|
                r.0 >= 8 && (forall|j: int| 0 <= j < batch.len() ==> (#[trigger] batch[j]).0 != r)
                    ==> #[trigger] n.z[r] == w.z[r]
        }),
{
    let m = minuend(fmt);
    assert forall|j: int| 0 <= j < batch.len() implies is_num(w.z[(#[trigger] batch[j]).0][l]) by {}
    assert forall|i: int, v: int| 0 <= i < t && 0 <= v < 16 implies is_num(
        #[trigger] activation(w, g, x, i, v, l),
    ) by {
        assert(activation(w, g, x, i, v, l) == activation(u, g, x, i, v, l));
    }
    assert forall|v: int| 0 <= v < 16 implies is_num(#[trigger] scale_at(w, g, v)) by {
        assert(scale_at(w, g, v) == scale_at(u, g, v));
    }
    assert forall|v: int| 0 <= v < 16 && m implies is_num(#[trigger] minuend_at(w, g, v)) by {
        assert(scale_at(w, g, v) == scale_at(u, g, v));
        assert(minuend_at(w, g, v) == minuend_at(u, g, v));
    }
    dots::lemma_dot(w, g, batch, t, m, x, l);
    let n = w.all(dots::ops_dot(t, batch, m, x), g);
    assert forall|i: int| 0 <= i < t implies #[trigger] total(n, t, i, l) == total(u, t, i, l) + sum(
        term(u, g, fmt, blk, d, dmin, x, i, l),
        8 * half + 8,
    ) - sum(term(u, g, fmt, blk, d, dmin, x, i, l), 8 * half as int) by {
        let f = term(u, g, fmt, blk, d, dmin, x, i, l);
        assert(total(w, t, i, l) == total(u, t, i, l)) by {
            assert(w.z[Zmm(i as u8)] == u.z[Zmm(i as u8)]);
            assert(w.z[Zmm(0)] == u.z[Zmm(0)]);
            assert(w.z[Zmm(1)] == u.z[Zmm(1)]);
            assert(w.z[Zmm(2)] == u.z[Zmm(2)]);
            assert(w.z[Zmm(3)] == u.z[Zmm(3)]);
        }
        assert forall|k: int| 0 <= k < 8 implies (#[trigger] batch[k]).1 == 8 * half + k
            && finished(w, g, w.z[batch[k].0][l], 8 * half + k, m) * num(
            activation(w, g, x, i, 8 * half + k, l),
        ) == f(8 * half + k) by {
            let v = 8 * half + k;
            let wt = weight_at(fmt, blk, 16 * v + l);
            assert(scale_at(w, g, v) == scale_at(u, g, v));
            assert(minuend_at(w, g, v) == minuend_at(u, g, v));
            lemma_value(wt, d(v), dmin, bias(fmt), m);
            assert(finished(w, g, w.z[batch[k].0][l], v, m) == value(wt, d(v), dmin));
            assert(activation(w, g, x, i, v, l) == activation(u, g, x, i, v, l));
        }
        lemma_half_sum(w, g, batch, m, x, i, l, half as int, f, 8);
    }
}

/// The loads of a Q8_0 half: four blocks of 34 bytes, two registers each.
#[verifier::opaque]
pub open spec fn q8_0_loads(half: int) -> Seq<(u8, int)> {
    Seq::new(8, |k: int| ((8 + k) as u8, 34 * (4 * half + k / 2) + 2 + 16 * (k % 2)))
}

#[verifier::opaque]
pub open spec fn q8_0_batch(half: i32) -> Seq<(Zmm, i32)> {
    quant::spec_eight([8, 9, 10, 11, 12, 13, 14, 15], half)
}

/// The quants of a Q8_0 half.
pub open spec fn q8_0_quants(half: i32) -> Seq<Op> {
    dots::ops_loads(q8_0_loads(half as int), false, Conv::S8)
}

/// A Q8_0 half.
pub open spec fn q8_0_ops(half: i32, t: u8, x: Act) -> Seq<Op> {
    q8_0_quants(half) + dots::ops_dot(t, q8_0_batch(half), false, x)
}

proof fn lemma_q8_0_regs(half: i32)
    requires
        half == 0 || half == 1,
    ensures
        batch_apart(q8_0_batch(half)),
        q8_0_batch(half).len() == 8,
        forall|k: int|
            0 <= k < 8 ==> (#[trigger] q8_0_batch(half)[k]).1 == 8 * half + k && q8_0_batch(
                half,
            )[k].0 == Zmm((8 + k) as u8),
{
    reveal(q8_0_batch);
    let r: [u8; 8] = [8, 9, 10, 11, 12, 13, 14, 15];
    assert(r[0] == 8 && r[1] == 9 && r[2] == 10 && r[3] == 11 && r[4] == 12 && r[5] == 13 && r[6]
        == 14 && r[7] == 15);
    lemma_eight(r, half);
}

/// The quant of lane `l` of vector `v` of eight Q8_0 blocks.
pub open spec fn q8_0_quant(blk: Seq<u8>, v: int, l: int) -> int {
    signed8(blk[34 * (v / 2) + 2 + 16 * (v % 2) + l]) as int
}

pub proof fn lemma_q8_0_weight(blk: Seq<u8>, v: int, l: int)
    requires
        blk.len() == 272,
        0 <= v < 16,
        0 <= l < 16,
    ensures
        ({
            let w = weight_at(MM_Q8_0, blk, 16 * v + l);
            &&& w.quant == q8_0_quant(blk, v, l)
            &&& w.scale == weight_at(MM_Q8_0, blk, 16 * v).scale
            &&& w.min == weight_at(MM_Q8_0, blk, 16 * v).min
            &&& w.min == 0
        }),
{
    let i = 16 * v + l;
    assert(i / 32 == v / 2);
    assert(i % 32 == 16 * (v % 2) + l);
}

/// The quants of a Q8_0 half, each in its register.
proof fn lemma_q8_0_quants(u: Unit, g: Map<Gpr, int>, blk: Seq<u8>, half: i32)
    requires
        holds(u, g, blk),
        blk.len() == 272,
        half == 0 || half == 1,
    ensures
        ({
            let v = u.all(q8_0_quants(half), g);
            &&& v == (Unit { z: v.z, ..u })
            &&& forall|k: int, l: int|
                0 <= k < 8 && 0 <= l < 16 ==> #[trigger] v.z[q8_0_batch(half)[k].0][l] == whole(
                    q8_0_quant(blk, 8 * half + k, l),
                )
            &&& forall|r: Zmm| r.0 < 8 ==> #[trigger] v.z[r] == u.z[r]
        }),
{
    let h = half as int;
    let loads = q8_0_loads(h);
    assert(loads.len() == 8 && forall|k: int|
        0 <= k < 8 ==> #[trigger] loads[k] == (
            (8 + k) as u8,
            34 * (4 * h + k / 2) + 2 + 16 * (k % 2),
        )) by {
        reveal(q8_0_loads);
    }
    dots::lemma_loads(u, g, loads, false, Conv::S8);
    lemma_q8_0_regs(half);
    let v = u.all(q8_0_quants(half), g);
    let batch = q8_0_batch(half);
    assert forall|k: int, l: int| 0 <= k < 8 && 0 <= l < 16 implies #[trigger] v.z[batch[k].0][l]
        == whole(q8_0_quant(blk, 8 * half + k, l)) by {
        assert(v.z[Zmm(loads[k].0)][l] == (u.mem)(Form::Signed, g[BLK] + loads[k].1 + l));
        assert((8 * h + k) / 2 == 4 * h + k / 2 && (8 * h + k) % 2 == k % 2);
        lemma_byte(u, g, blk, 34 * (4 * h + k / 2) + 2 + 16 * (k % 2) + l);
    }
    assert forall|r: Zmm| r.0 < 8 implies #[trigger] v.z[r] == u.z[r] by {
        assert forall|i: int| 0 <= i < loads.len() implies Zmm((#[trigger] loads[i]).0) != r by {}
    }
}

/// Half of the format's block adds its half of the products.
pub proof fn lemma_q8_0_half(
    u: Unit,
    g: Map<Gpr, int>,
    blk: Seq<u8>,
    d: spec_fn(int) -> real,
    dmin: real,
    half: i32,
    t: u8,
    x: Act,
    l: int,
)
    requires
        holds(u, g, blk),
        blk.len() == 272,
        half == 0 || half == 1,
        ready(u, g, t, x, l),
        tabled(u, g, MM_Q8_0, blk, d, dmin),
    ensures
        added(u, u.all(q8_0_ops(half, t, x), g), g, MM_Q8_0, blk, d, dmin, half, t, x, l),
{
    let o1 = q8_0_quants(half);
    let o2 = dots::ops_dot(t, q8_0_batch(half), minuend(MM_Q8_0), x);
    u.lemma_parts(o1, o2, g);
    lemma_q8_0_quants(u, g, blk, half);
    lemma_q8_0_regs(half);
    let w = u.all(o1, g);
    let batch = q8_0_batch(half);
    assert forall|k: int| 0 <= k < 8 implies (#[trigger] batch[k]).1 == 8 * half + k && w.z[
    batch[k].0][l] == whole(
        weight_at(MM_Q8_0, blk, 16 * (8 * half + k) + l).quant + bias(MM_Q8_0),
    ) by {
        lemma_q8_0_weight(blk, 8 * half + k, l);
        assert(w.z[batch[k].0][l] == whole(q8_0_quant(blk, 8 * half + k, l)));
    }
    lemma_accs(u, w, t, l);
    assert forall|v: int| 0 <= v < 16 implies (#[trigger] weight_at(MM_Q8_0, blk, 16 * v + l)).scale
        == weight_at(MM_Q8_0, blk, 16 * v).scale && weight_at(MM_Q8_0, blk, 16 * v + l).min
        == weight_at(MM_Q8_0, blk, 16 * v).min && (minuend(MM_Q8_0) && bias(MM_Q8_0) == 0 || weight_at(
        MM_Q8_0,
        blk,
        16 * v + l,
    ).min == 0) by {
        lemma_q8_0_weight(blk, v, l);
    }
    lemma_finish(u, w, g, MM_Q8_0, blk, d, dmin, batch, half, t, x, l);
}

/// The loads of an IQ4_XS half: 64 bytes, sixteen to a register.
#[verifier::opaque]
pub open spec fn iq4xs_loads(half: int) -> Seq<(u8, int)> {
    Seq::new(4, |j: int| ((8 + j) as u8, 8 + 64 * half + 16 * j))
}

/// The register of the nibbles of vector `k` of a half.
pub open spec fn iq4xs_reg(k: int) -> Zmm {
    if k % 2 == 0 {
        Zmm((8 + k / 2) as u8)
    } else {
        Zmm((12 + k / 2) as u8)
    }
}

/// The nibbles as integers.
#[verifier::opaque]
pub open spec fn iq4xs_indices() -> Seq<Op> {
    Seq::new(
        8,
        |k: int| Op::One { f: One::Trunc, z: iq4xs_reg(k), b: Src::Reg(iq4xs_reg(k)) },
    )
}

/// The values they name.
#[verifier::opaque]
pub open spec fn iq4xs_values() -> Seq<Op> {
    Seq::new(
        8,
        |k: int|
            Op::Perm {
                z: Zmm((16 + k) as u8),
                i: iq4xs_reg(k),
                b: Src::Mem(Mem::at(CONSTS, C_LUT)),
            },
    )
}

#[verifier::opaque]
pub open spec fn iq4xs_batch(half: i32) -> Seq<(Zmm, i32)> {
    quant::spec_eight([16, 17, 18, 19, 20, 21, 22, 23], half)
}

/// The quants of an IQ4_XS half.
pub open spec fn iq4xs_quants(half: i32) -> Seq<Op> {
    dots::ops_loads(iq4xs_loads(half as int), false, Conv::U8) + dots::ops_nibbles(q4k_pairs())
        + iq4xs_indices() + iq4xs_values()
}

/// An IQ4_XS half.
pub open spec fn iq4xs_ops(half: i32, t: u8, x: Act) -> Seq<Op> {
    iq4xs_quants(half) + dots::ops_dot(t, iq4xs_batch(half), false, x)
}

proof fn lemma_iq4xs_regs(half: i32)
    requires
        half == 0 || half == 1,
    ensures
        batch_apart(iq4xs_batch(half)),
        iq4xs_batch(half).len() == 8,
        forall|k: int|
            0 <= k < 8 ==> (#[trigger] iq4xs_batch(half)[k]).1 == 8 * half + k && iq4xs_batch(
                half,
            )[k].0 == Zmm((16 + k) as u8),
{
    reveal(iq4xs_batch);
    let r: [u8; 8] = [16, 17, 18, 19, 20, 21, 22, 23];
    assert(r[0] == 16 && r[1] == 17 && r[2] == 18 && r[3] == 19 && r[4] == 20 && r[5] == 21 && r[6]
        == 22 && r[7] == 23);
    lemma_eight(r, half);
}

/// The nibble of lane `l` of vector `v` of an IQ4_XS superblock, and the value
/// it names.
pub open spec fn iq4xs_nibble(blk: Seq<u8>, v: int, l: int) -> int {
    let b = blk[8 + 16 * (v / 2) + l] as int;
    if v % 2 == 1 {
        b / 16
    } else {
        b % 16
    }
}

pub open spec fn iq4xs_quant(blk: Seq<u8>, v: int, l: int) -> int {
    weights::iq4nl(iq4xs_nibble(blk, v, l) as u8) as int
}

pub proof fn lemma_iq4xs_weight(blk: Seq<u8>, v: int, l: int)
    requires
        blk.len() == 136,
        0 <= v < 16,
        0 <= l < 16,
    ensures
        ({
            let w = weight_at(MM_IQ4_XS, blk, 16 * v + l);
            &&& w.quant == iq4xs_quant(blk, v, l)
            &&& w.scale == weight_at(MM_IQ4_XS, blk, 16 * v).scale
            &&& w.min == weight_at(MM_IQ4_XS, blk, 16 * v).min
            &&& w.min == 0
        }),
{
    let i = 16 * v + l;
    assert(i / 32 == v / 2);
    assert(16 * v / 32 == v / 2);
    assert(i % 32 == 16 * (v % 2) + l);
    assert(i % 16 == l);
    let b = blk[8 + 16 * (v / 2) + l];
    weights::lemma_bytes(b, b, 0);
}

/// The nibbles of an IQ4_XS half, each in its register.
proof fn lemma_iq4xs_nibbles(u: Unit, g: Map<Gpr, int>, blk: Seq<u8>, half: i32)
    requires
        holds(u, g, blk),
        blk.len() == 136,
        half == 0 || half == 1,
        splitting(u, g),
        exact(u.ar),
    ensures
        ({
            let v = u.all(
                dots::ops_loads(iq4xs_loads(half as int), false, Conv::U8) + dots::ops_nibbles(
                    q4k_pairs(),
                ),
                g,
            );
            &&& v == (Unit { z: v.z, ..u })
            &&& forall|k: int, l: int|
                0 <= k < 8 && 0 <= l < 16 ==> #[trigger] v.z[iq4xs_reg(k)][l] == whole(
                    iq4xs_nibble(blk, 8 * half + k, l),
                )
            &&& forall|r: Zmm| r.0 < 8 ==> #[trigger] v.z[r] == u.z[r]
        }),
{
    let h = half as int;
    let loads = iq4xs_loads(h);
    let (o1, o2) = (dots::ops_loads(loads, false, Conv::U8), dots::ops_nibbles(q4k_pairs()));
    u.lemma_parts(o1, o2, g);
    let u1 = u.all(o1, g);
    assert(loads.len() == 4 && forall|j: int|
        0 <= j < 4 ==> #[trigger] loads[j] == ((8 + j) as u8, 8 + 64 * h + 16 * j)) by {
        reveal(iq4xs_loads);
    }
    dots::lemma_loads(u, g, loads, false, Conv::U8);
    lemma_q4k_regs(half);
    let pairs = q4k_pairs();
    let b = |j: int, l: int| blk[8 + 64 * h + 16 * j + l] as int;
    assert forall|j: int, l: int| 0 <= j < pairs.len() && 0 <= l < 16 implies #[trigger] u1.z[
    pairs[j].0][l] == whole(b(j, l)) && 0 <= b(j, l) < 256 by {
        assert(u1.z[Zmm(loads[j].0)][l] == (u.mem)(Form::Byte, g[BLK] + loads[j].1 + l));
        lemma_byte(u, g, blk, 8 + 64 * h + 16 * j + l);
    }
    dots::lemma_nibbles(u1, g, pairs, b);
    let v = u1.all(o2, g);
    assert forall|k: int, l: int| 0 <= k < 8 && 0 <= l < 16 implies #[trigger] v.z[iq4xs_reg(k)][l]
        == whole(iq4xs_nibble(blk, 8 * half + k, l)) by {
        let j: int = k / 2;
        assert((8 * h + k) / 2 == 4 * h + j && (8 * h + k) % 2 == k % 2);
        assert(v.z[pairs[j].0][l] == whole(b(j, l) % 16));
        assert(v.z[pairs[j].1][l] == whole(b(j, l) / 16));
    }
    assert forall|r: Zmm| r.0 < 8 implies #[trigger] v.z[r] == u.z[r] by {
        assert(!dots::in_pairs(pairs, r));
        assert forall|i: int| 0 <= i < loads.len() implies Zmm((#[trigger] loads[i]).0) != r by {}
        assert(u1.z[r] == u.z[r]);
    }
}

/// Whether the constants hold the sixteen values that nibbles name.
pub open spec fn valued(u: Unit, g: Map<Gpr, int>) -> bool {
    forall|n: int|
        0 <= n < 16 ==> (u.mem)(Form::Word, g[CONSTS] + C_LUT + 4 * n) == whole(
            #[trigger] weights::iq4nl(n as u8) as int,
        )
}

/// The quants of an IQ4_XS half, each in its register.
proof fn lemma_iq4xs_quants(u: Unit, g: Map<Gpr, int>, blk: Seq<u8>, half: i32)
    requires
        holds(u, g, blk),
        blk.len() == 136,
        half == 0 || half == 1,
        splitting(u, g),
        valued(u, g),
        exact(u.ar),
    ensures
        ({
            let v = u.all(iq4xs_quants(half), g);
            &&& v == (Unit { z: v.z, ..u })
            &&& forall|k: int, l: int|
                0 <= k < 8 && 0 <= l < 16 ==> #[trigger] v.z[iq4xs_batch(half)[k].0][l] == whole(
                    iq4xs_quant(blk, 8 * half + k, l),
                )
            &&& forall|r: Zmm| r.0 < 8 ==> #[trigger] v.z[r] == u.z[r]
        }),
{
    broadcast use Mem::lemma_at;

    let o12 = dots::ops_loads(iq4xs_loads(half as int), false, Conv::U8) + dots::ops_nibbles(
        q4k_pairs(),
    );
    let (o3, o4) = (iq4xs_indices(), iq4xs_values());
    u.lemma_parts(o12 + o3, o4, g);
    u.lemma_parts(o12, o3, g);
    lemma_iq4xs_nibbles(u, g, blk, half);
    lemma_iq4xs_regs(half);
    let u2 = u.all(o12, g);
    let u3 = u2.all(o3, g);
    let v = u3.all(o4, g);
    let batch = iq4xs_batch(half);
    assert(o3.len() == 8 && o4.len() == 8 && forall|k: int|
        0 <= k < 8 ==> #[trigger] o3[k] == (Op::One {
            f: One::Trunc,
            z: iq4xs_reg(k),
            b: Src::Reg(iq4xs_reg(k)),
        }) && o4[k] == (Op::Perm {
            z: Zmm((16 + k) as u8),
            i: iq4xs_reg(k),
            b: Src::Mem(Mem::at(CONSTS, C_LUT)),
        })) by {
        reveal(iq4xs_indices);
        reveal(iq4xs_values);
    }
    assert(apart(o3)) by {
        assert forall|i: int, j: int| 0 <= i < j < o3.len() implies !(#[trigger] o3[j]).reads(
            (#[trigger] o3[i]).dest()->0,
        ) && o3[i].dest() != o3[j].dest() by {}
    }
    assert(apart(o4)) by {
        assert forall|i: int, j: int| 0 <= i < j < o4.len() implies !(#[trigger] o4[j]).reads(
            (#[trigger] o4[i]).dest()->0,
        ) && o4[i].dest() != o4[j].dest() by {
            assert(o3[i].dest() != o3[j].dest());
        }
        assert forall|i: int| 0 <= i < o4.len() implies (#[trigger] o4[i]).dest() is Some by {
            assert(o3[i].dest() is Some);
        }
    }
    u2.lemma_each(o3, g);
    u3.lemma_each(o4, g);
    assert forall|k: int, l: int| 0 <= k < 8 && 0 <= l < 16 implies #[trigger] v.z[batch[k].0][l]
        == whole(iq4xs_quant(blk, 8 * half + k, l)) by {
        let n = iq4xs_nibble(blk, 8 * half + k, l);
        assert(0 <= n < 16);
        assert(u2.z[iq4xs_reg(k)][l] == whole(n));
        assert(u3.z[o3[k].dest()->0] == Seq::new(16, |l: int| u2.value(o3[k], g, l)));
        assert(u3.z[iq4xs_reg(k)][l] == (u.ar.one)(One::Trunc, whole((n as u32) as int)));
        assert(v.z[o4[k].dest()->0] == Seq::new(16, |l: int| u3.value(o4[k], g, l)));
        assert((n as u32) as int % 16 == n);
        assert((u.mem)(Form::Word, g[CONSTS] + C_LUT + 4 * n) == whole(
            weights::iq4nl(n as u8) as int,
        ));
    }
    assert forall|r: Zmm| r.0 < 8 implies #[trigger] v.z[r] == u.z[r] by {
        assert forall|i: int| 0 <= i < o3.len() implies (#[trigger] o3[i]).dest() != Some(r) by {}
        assert forall|i: int| 0 <= i < o4.len() implies (#[trigger] o4[i]).dest() != Some(r) by {
            assert(o3[i].dest() is Some);
        }
        assert(u2.z[r] == u.z[r]);
        assert(u3.z[r] == u2.z[r]);
    }
}

/// Half of the format's block adds its half of the products.
pub proof fn lemma_iq4xs_half(
    u: Unit,
    g: Map<Gpr, int>,
    blk: Seq<u8>,
    d: spec_fn(int) -> real,
    dmin: real,
    half: i32,
    t: u8,
    x: Act,
    l: int,
)
    requires
        holds(u, g, blk),
        blk.len() == 136,
        half == 0 || half == 1,
        splitting(u, g),
        valued(u, g),
        ready(u, g, t, x, l),
        tabled(u, g, MM_IQ4_XS, blk, d, dmin),
    ensures
        added(u, u.all(iq4xs_ops(half, t, x), g), g, MM_IQ4_XS, blk, d, dmin, half, t, x, l),
{
    let o1 = iq4xs_quants(half);
    let o2 = dots::ops_dot(t, iq4xs_batch(half), minuend(MM_IQ4_XS), x);
    u.lemma_parts(o1, o2, g);
    lemma_iq4xs_quants(u, g, blk, half);
    lemma_iq4xs_regs(half);
    let w = u.all(o1, g);
    let batch = iq4xs_batch(half);
    assert forall|k: int| 0 <= k < 8 implies (#[trigger] batch[k]).1 == 8 * half + k && w.z[
    batch[k].0][l] == whole(
        weight_at(MM_IQ4_XS, blk, 16 * (8 * half + k) + l).quant + bias(MM_IQ4_XS),
    ) by {
        lemma_iq4xs_weight(blk, 8 * half + k, l);
        assert(w.z[batch[k].0][l] == whole(iq4xs_quant(blk, 8 * half + k, l)));
    }
    lemma_accs(u, w, t, l);
    assert forall|v: int| 0 <= v < 16 implies (#[trigger] weight_at(MM_IQ4_XS, blk, 16 * v + l)).scale
        == weight_at(MM_IQ4_XS, blk, 16 * v).scale && weight_at(MM_IQ4_XS, blk, 16 * v + l).min
        == weight_at(MM_IQ4_XS, blk, 16 * v).min && (minuend(MM_IQ4_XS) && bias(MM_IQ4_XS) == 0 || weight_at(
        MM_IQ4_XS,
        blk,
        16 * v + l,
    ).min == 0) by {
        lemma_iq4xs_weight(blk, v, l);
    }
    lemma_finish(u, w, g, MM_IQ4_XS, blk, d, dmin, batch, half, t, x, l);
}

/// The loads of a Q6_K half: 64 bytes of nibbles, 32 of fields.
#[verifier::opaque]
pub open spec fn q6k_loads(half: int) -> Seq<(u8, int)> {
    Seq::new(
        6,
        |j: int|
            (
                (8 + j) as u8,
                if j < 4 {
                    64 * half + 16 * j
                } else {
                    128 + 32 * half + 16 * (j - 4)
                },
            ),
    )
}

#[verifier::opaque]
pub open spec fn q6k_tops() -> Seq<(Zmm, u8)> {
    seq![(Zmm(12), 14u8), (Zmm(13), 17u8)]
}

#[verifier::opaque]
pub open spec fn q6k_pairs() -> Seq<(Zmm, Zmm)> {
    quant::spec_pairs([8, 9, 10, 11], [20, 21, 22, 23])
}

#[verifier::opaque]
pub open spec fn q6k_highs() -> Seq<(Zmm, Zmm)> {
    quant::spec_pairs([8, 9, 10, 11, 20, 21, 22, 23], [12, 13, 14, 17, 15, 18, 16, 19])
}

#[verifier::opaque]
pub open spec fn q6k_batch(half: i32) -> Seq<(Zmm, i32)> {
    quant::spec_eight([8, 9, 10, 11, 20, 21, 22, 23], half)
}

/// The quants of a Q6_K half.
pub open spec fn q6k_quants(half: i32) -> Seq<Op> {
    dots::ops_loads(q6k_loads(half as int), false, Conv::U8) + dots::ops_fields(q6k_tops(), 2)
        + dots::ops_nibbles(q6k_pairs()) + dots::ops_add(q6k_highs())
}

/// A Q6_K half.
pub open spec fn q6k_ops(half: i32, t: u8, x: Act) -> Seq<Op> {
    q6k_quants(half) + dots::ops_dot(t, q6k_batch(half), true, x)
}

/// The register of vector `k` of a Q6_K half, and that of its field.
pub open spec fn q6k_reg(k: int) -> Zmm {
    if k < 4 {
        Zmm((8 + k) as u8)
    } else {
        Zmm((16 + k) as u8)
    }
}

proof fn lemma_q6k_regs(half: i32)
    requires
        half == 0 || half == 1,
    ensures
        batch_apart(q6k_batch(half)),
        q6k_batch(half).len() == 8,
        forall|k: int|
            0 <= k < 8 ==> (#[trigger] q6k_batch(half)[k]).1 == 8 * half + k && q6k_batch(half)[k].0
                == q6k_reg(k),
{
    reveal(q6k_batch);
    let r: [u8; 8] = [8, 9, 10, 11, 20, 21, 22, 23];
    assert(r[0] == 8 && r[1] == 9 && r[2] == 10 && r[3] == 11 && r[4] == 20 && r[5] == 21 && r[6]
        == 22 && r[7] == 23);
    lemma_eight(r, half);
}

proof fn lemma_q6k_tops()
    ensures
        q6k_tops().len() == 2,
        dots::fields_apart(q6k_tops(), 4),
        forall|j: int, a: int|
            0 <= j < 2 && 0 <= a < 4 ==> #[trigger] part(q6k_tops()[j], a as u8) == (if a == 0 {
                Zmm((12 + j) as u8)
            } else {
                Zmm((13 + 3 * j + a) as u8)
            }),
        forall|r: Zmm| dots::in_fields(q6k_tops(), 4, r) ==> 12 <= r.0 < 20,
{
    reveal(q6k_tops);
    let hs = q6k_tops();
    assert(hs[0] == (Zmm(12), 14u8) && hs[1] == (Zmm(13), 17u8));
    assert forall|r: Zmm| dots::in_fields(hs, 4, r) implies 12 <= r.0 < 20 by {
        let (j, a) = choose|j: int, a: int|
            0 <= j < hs.len() && 0 <= a < 4 && #[trigger] part(hs[j], a as u8) == r;
        assert(part(hs[j], a as u8) == r);
    }
}

proof fn lemma_q6k_pairs()
    ensures
        dots::separate(q6k_pairs()),
        q6k_pairs().len() == 4,
        forall|j: int|
            0 <= j < 4 ==> #[trigger] q6k_pairs()[j] == (Zmm((8 + j) as u8), Zmm((20 + j) as u8)),
{
    reveal(q6k_pairs);
    let pairs = q6k_pairs();
    let lo: [u8; 4] = [8, 9, 10, 11];
    let hi: [u8; 4] = [20, 21, 22, 23];
    assert(lo[0] == 8 && lo[1] == 9 && lo[2] == 10 && lo[3] == 11);
    assert(hi[0] == 20 && hi[1] == 21 && hi[2] == 22 && hi[3] == 23);
    assert(pairs[0] == (Zmm(8), Zmm(20)) && pairs[1] == (Zmm(9), Zmm(21)) && pairs[2] == (
        Zmm(10),
        Zmm(22),
    ) && pairs[3] == (Zmm(11), Zmm(23)));
}

proof fn lemma_q6k_highs()
    ensures
        q6k_highs().len() == 8,
        forall|k: int|
            0 <= k < 8 ==> (#[trigger] q6k_highs()[k]).0 == q6k_reg(k) && q6k_highs()[k].1 == part(
                q6k_tops()[k % 2],
                (k / 2) as u8,
            ),
        forall|i: int, j: int|
            0 <= i < 8 && 0 <= j < 8 ==> (#[trigger] q6k_highs()[i]).0 != (
            #[trigger] q6k_highs()[j]).1 && (i != j ==> q6k_highs()[i].0 != q6k_highs()[j].0),
{
    reveal(q6k_highs);
    reveal(q6k_tops);
    let hs = q6k_tops();
    assert(hs[0] == (Zmm(12), 14u8) && hs[1] == (Zmm(13), 17u8));
    let pairs = q6k_highs();
    let lo: [u8; 8] = [8, 9, 10, 11, 20, 21, 22, 23];
    let hi: [u8; 8] = [12, 13, 14, 17, 15, 18, 16, 19];
    assert(lo[0] == 8 && lo[1] == 9 && lo[2] == 10 && lo[3] == 11 && lo[4] == 20 && lo[5] == 21
        && lo[6] == 22 && lo[7] == 23);
    assert(hi[0] == 12 && hi[1] == 13 && hi[2] == 14 && hi[3] == 17 && hi[4] == 15 && hi[5] == 18
        && hi[6] == 16 && hi[7] == 19);
    assert(pairs[0] == (Zmm(8), Zmm(12)) && pairs[1] == (Zmm(9), Zmm(13)) && pairs[2] == (
        Zmm(10),
        Zmm(14),
    ) && pairs[3] == (Zmm(11), Zmm(17)) && pairs[4] == (Zmm(20), Zmm(15)) && pairs[5] == (
        Zmm(21),
        Zmm(18),
    ) && pairs[6] == (Zmm(22), Zmm(16)) && pairs[7] == (Zmm(23), Zmm(19)));
}

/// The nibble, the field and the quant of lane `l` of vector `k` of half `h`.
pub open spec fn q6k_nibble(blk: Seq<u8>, h: int, k: int, l: int) -> int {
    let b = blk[64 * h + 16 * (k % 4) + l] as int;
    if k >= 4 {
        b / 16
    } else {
        b % 16
    }
}

pub open spec fn q6k_field(blk: Seq<u8>, h: int, k: int, l: int) -> int {
    blk[128 + 32 * h + 16 * (k % 2) + l] as int / dots::pow(2 * (k / 2)) % dots::pow(2)
}

pub open spec fn q6k_quant(blk: Seq<u8>, v: int, l: int) -> int {
    q6k_nibble(blk, v / 8, v % 8, l) + 16 * q6k_field(blk, v / 8, v % 8, l)
}

pub proof fn lemma_q6k_weight(blk: Seq<u8>, v: int, l: int)
    requires
        blk.len() == 210,
        0 <= v < 16,
        0 <= l < 16,
    ensures
        ({
            let w = weight_at(MM_Q6_K, blk, 16 * v + l);
            &&& w.quant == q6k_quant(blk, v, l) - 32
            &&& w.scale == weight_at(MM_Q6_K, blk, 16 * v).scale
            &&& w.scale == signed8(blk[192 + v])
            &&& w.min == weight_at(MM_Q6_K, blk, 16 * v).min
            &&& w.min == 0
        }),
{
    let i = 16 * v + l;
    let (h, k) = (v / 8, v % 8);
    let c = k / 2;
    assert(i / 128 == h && 16 * v / 128 == h);
    assert(i % 128 / 32 == c && 16 * v % 128 / 32 == c);
    assert(i % 32 == 16 * (v % 2) + l && v % 2 == k % 2);
    assert(16 * v % 32 == 16 * (v % 2));
    assert((16 * (v % 2) + l) / 16 == v % 2);
    assert(192 + 8 * h + 2 * c + v % 2 == 192 + v);
    assert(64 * h + 32 * (c % 2) + 16 * (v % 2) == 64 * h + 16 * (k % 4));
    let b = blk[64 * h + 16 * (k % 4) + l];
    let q = blk[128 + 32 * h + 16 * (k % 2) + l];
    weights::lemma_bytes(b, b, 0);
    weights::lemma_bytes(q, q, 0);
    assert(dots::pow(0) == 1 && dots::pow(2) == 4 && dots::pow(4) == 16 && dots::pow(6) == 64) by {
        reveal_with_fuel(dots::pow, 8);
    }
    assert((q >> ((2 * c) as u8)) & 3 == q6k_field(blk, h, k, l)) by {
        if c == 0 {
        } else if c == 1 {
        } else if c == 2 {
        } else {
        }
    }
}

/// The bytes and the fields of a Q6_K half.
proof fn lemma_q6k_loaded(u: Unit, g: Map<Gpr, int>, blk: Seq<u8>, half: i32)
    requires
        holds(u, g, blk),
        blk.len() == 210,
        half == 0 || half == 1,
        dots::powers(u, g),
        exact(u.ar),
    ensures
        ({
            let v = u.all(
                dots::ops_loads(q6k_loads(half as int), false, Conv::U8) + dots::ops_fields(
                    q6k_tops(),
                    2,
                ),
                g,
            );
            &&& v == (Unit { z: v.z, ..u })
            &&& forall|j: int, l: int|
                0 <= j < 4 && 0 <= l < 16 ==> #[trigger] v.z[Zmm((8 + j) as u8)][l] == whole(
                    blk[64 * half + 16 * j + l] as int,
                )
            &&& forall|k: int, l: int|
                0 <= k < 8 && 0 <= l < 16 ==> v.z[part(q6k_tops()[k % 2], (k / 2) as u8)][l]
                    == whole(#[trigger] q6k_field(blk, half as int, k, l))
            &&& forall|r: Zmm| r.0 < 8 ==> #[trigger] v.z[r] == u.z[r]
        }),
{
    let h = half as int;
    let loads = q6k_loads(h);
    let hs = q6k_tops();
    let o1 = dots::ops_loads(loads, false, Conv::U8);
    let o2 = dots::ops_fields(hs, 2);
    u.lemma_parts(o1, o2, g);
    let u1 = u.all(o1, g);
    let u2 = u1.all(o2, g);
    assert(loads.len() == 6 && forall|j: int|
        0 <= j < 6 ==> #[trigger] loads[j] == (
            (8 + j) as u8,
            if j < 4 {
                64 * h + 16 * j
            } else {
                128 + 32 * h + 16 * (j - 4)
            },
        )) by {
        reveal(q6k_loads);
    }
    dots::lemma_loads(u, g, loads, false, Conv::U8);
    lemma_q6k_tops();
    let t = |j: int, l: int|
        if 0 <= j < 2 && 0 <= l < 16 {
            blk[128 + 32 * h + 16 * j + l] as int
        } else {
            0
        };
    assert forall|j: int, l: int| 0 <= j < hs.len() && 0 <= l < 16 implies #[trigger] u1.z[part(
        hs[j],
        0,
    )][l] == whole(t(j, l)) by {
        assert(part(hs[j], 0int as u8) == Zmm((12 + j) as u8));
        assert(u1.z[Zmm(loads[4 + j].0)][l] == (u.mem)(Form::Byte, g[BLK] + loads[4 + j].1 + l));
        lemma_byte(u, g, blk, 128 + 32 * h + 16 * j + l);
    }
    dots::lemma_fields(u1, g, hs, 2, t);
    assert forall|j: int, l: int| 0 <= j < 4 && 0 <= l < 16 implies #[trigger] u2.z[Zmm(
        (8 + j) as u8,
    )][l] == whole(blk[64 * half + 16 * j + l] as int) by {
        let r = Zmm((8 + j) as u8);
        assert(!dots::in_fields(hs, 4, r));
        assert(u2.z[r] == u1.z[r]);
        assert(u1.z[Zmm(loads[j].0)][l] == (u.mem)(Form::Byte, g[BLK] + loads[j].1 + l));
        lemma_byte(u, g, blk, 64 * h + 16 * j + l);
    }
    assert forall|k: int, l: int| 0 <= k < 8 && 0 <= l < 16 implies u2.z[part(
        hs[k % 2],
        (k / 2) as u8,
    )][l] == whole(#[trigger] q6k_field(blk, half as int, k, l)) by {
        let (j, a) = (k % 2, k / 2);
        assert(u2.z[part(hs[j], a as u8)][l] == whole(t(j, l) / dots::pow(2 * a) % dots::pow(2)));
    }
    assert forall|r: Zmm| r.0 < 8 implies #[trigger] u2.z[r] == u.z[r] by {
        assert forall|i: int| 0 <= i < loads.len() implies Zmm((#[trigger] loads[i]).0) != r by {}
        assert(u1.z[r] == u.z[r]);
        assert(!dots::in_fields(hs, 4, r));
    }
}

/// The nibbles of a Q6_K half, and its fields still.
proof fn lemma_q6k_split(u: Unit, g: Map<Gpr, int>, blk: Seq<u8>, half: i32)
    requires
        half == 0 || half == 1,
        splitting(u, g),
        exact(u.ar),
        forall|j: int, l: int|
            0 <= j < 4 && 0 <= l < 16 ==> #[trigger] u.z[Zmm((8 + j) as u8)][l] == whole(
                blk[64 * half + 16 * j + l] as int,
            ),
        forall|k: int, l: int|
            0 <= k < 8 && 0 <= l < 16 ==> u.z[part(q6k_tops()[k % 2], (k / 2) as u8)][l] == whole(
                #[trigger] q6k_field(blk, half as int, k, l),
            ),
    ensures
        ({
            let v = u.all(dots::ops_nibbles(q6k_pairs()), g);
            &&& v == (Unit { z: v.z, ..u })
            &&& forall|k: int, l: int|
                0 <= k < 8 && 0 <= l < 16 ==> v.z[q6k_reg(k)][l] == whole(
                    #[trigger] q6k_nibble(blk, half as int, k, l),
                )
            &&& forall|k: int, l: int|
                0 <= k < 8 && 0 <= l < 16 ==> v.z[part(q6k_tops()[k % 2], (k / 2) as u8)][l]
                    == whole(#[trigger] q6k_field(blk, half as int, k, l))
            &&& forall|r: Zmm| r.0 < 8 ==> #[trigger] v.z[r] == u.z[r]
        }),
{
    let h = half as int;
    let pairs = q6k_pairs();
    lemma_q6k_pairs();
    lemma_q6k_tops();
    let v = u.all(dots::ops_nibbles(pairs), g);
    let b = |j: int, l: int| blk[64 * h + 16 * j + l] as int;
    assert forall|j: int, l: int| 0 <= j < pairs.len() && 0 <= l < 16 implies #[trigger] u.z[
    pairs[j].0][l] == whole(b(j, l)) && 0 <= b(j, l) < 256 by {
        assert(u.z[Zmm((8 + j) as u8)][l] == whole(blk[64 * half + 16 * j + l] as int));
    }
    dots::lemma_nibbles(u, g, pairs, b);
    assert forall|k: int, l: int| 0 <= k < 8 && 0 <= l < 16 implies v.z[q6k_reg(k)][l] == whole(
        #[trigger] q6k_nibble(blk, half as int, k, l),
    ) by {
        let j = k % 4;
        assert(v.z[pairs[j].0][l] == whole(b(j, l) % 16));
        assert(v.z[pairs[j].1][l] == whole(b(j, l) / 16));
    }
    assert forall|k: int, l: int| 0 <= k < 8 && 0 <= l < 16 implies v.z[part(
        q6k_tops()[k % 2],
        (k / 2) as u8,
    )][l] == whole(#[trigger] q6k_field(blk, half as int, k, l)) by {
        let r = part(q6k_tops()[k % 2], (k / 2) as u8);
        assert(!dots::in_pairs(pairs, r));
        assert(v.z[r] == u.z[r]);
    }
    assert forall|r: Zmm| r.0 < 8 implies #[trigger] v.z[r] == u.z[r] by {
        assert(!dots::in_pairs(pairs, r));
    }
}

/// The quants of a Q6_K half, each in its register.
proof fn lemma_q6k_quants(u: Unit, g: Map<Gpr, int>, blk: Seq<u8>, half: i32)
    requires
        holds(u, g, blk),
        blk.len() == 210,
        half == 0 || half == 1,
        splitting(u, g),
        dots::powers(u, g),
        exact(u.ar),
    ensures
        ({
            let v = u.all(q6k_quants(half), g);
            &&& v == (Unit { z: v.z, ..u })
            &&& forall|k: int, l: int|
                0 <= k < 8 && 0 <= l < 16 ==> #[trigger] v.z[q6k_batch(half)[k].0][l] == whole(
                    q6k_quant(blk, 8 * half + k, l),
                )
            &&& forall|r: Zmm| r.0 < 8 ==> #[trigger] v.z[r] == u.z[r]
        }),
{
    let h = half as int;
    let highs = q6k_highs();
    let o12 = dots::ops_loads(q6k_loads(h), false, Conv::U8) + dots::ops_fields(q6k_tops(), 2);
    let (o3, o4) = (dots::ops_nibbles(q6k_pairs()), dots::ops_add(highs));
    u.lemma_parts(o12 + o3, o4, g);
    u.lemma_parts(o12, o3, g);
    lemma_q6k_loaded(u, g, blk, half);
    let u2 = u.all(o12, g);
    lemma_q6k_split(u2, g, blk, half);
    let u3 = u2.all(o3, g);
    let v = u3.all(o4, g);
    lemma_q6k_regs(half);
    lemma_q6k_highs();
    let w = |k: int, l: int| q6k_nibble(blk, h, k, l);
    let f = |k: int, l: int| q6k_field(blk, h, k, l);
    assert forall|k: int, l: int| 0 <= k < highs.len() && 0 <= l < 16 implies #[trigger] u3.z[
    highs[k].0][l] == whole(w(k, l)) by {
        assert(u3.z[q6k_reg(k)][l] == whole(q6k_nibble(blk, half as int, k, l)));
    }
    assert forall|k: int, l: int| 0 <= k < highs.len() && 0 <= l < 16 implies #[trigger] u3.z[
    highs[k].1][l] == whole(f(k, l)) by {
        assert(u3.z[part(q6k_tops()[k % 2], (k / 2) as u8)][l] == whole(
            q6k_field(blk, half as int, k, l),
        ));
    }
    dots::lemma_add(u3, g, highs, w, f);
    let batch = q6k_batch(half);
    assert forall|k: int, l: int| 0 <= k < 8 && 0 <= l < 16 implies #[trigger] v.z[batch[k].0][l]
        == whole(q6k_quant(blk, 8 * half + k, l)) by {
        assert((8 * h + k) / 8 == h && (8 * h + k) % 8 == k);
        assert(v.z[highs[k].0][l] == whole(w(k, l) + 16 * f(k, l)));
    }
    assert forall|r: Zmm| r.0 < 8 implies #[trigger] v.z[r] == u.z[r] by {
        assert(u2.z[r] == u.z[r]);
        assert(u3.z[r] == u2.z[r]);
        assert forall|k: int| 0 <= k < highs.len() implies (#[trigger] highs[k]).0 != r by {}
    }
}

/// Half of the format's block adds its half of the products.
pub proof fn lemma_q6k_half(
    u: Unit,
    g: Map<Gpr, int>,
    blk: Seq<u8>,
    d: spec_fn(int) -> real,
    dmin: real,
    half: i32,
    t: u8,
    x: Act,
    l: int,
)
    requires
        holds(u, g, blk),
        blk.len() == 210,
        half == 0 || half == 1,
        splitting(u, g),
        dots::powers(u, g),
        ready(u, g, t, x, l),
        tabled(u, g, MM_Q6_K, blk, d, dmin),
    ensures
        added(u, u.all(q6k_ops(half, t, x), g), g, MM_Q6_K, blk, d, dmin, half, t, x, l),
{
    let o1 = q6k_quants(half);
    let o2 = dots::ops_dot(t, q6k_batch(half), minuend(MM_Q6_K), x);
    u.lemma_parts(o1, o2, g);
    lemma_q6k_quants(u, g, blk, half);
    lemma_q6k_regs(half);
    let w = u.all(o1, g);
    let batch = q6k_batch(half);
    assert forall|k: int| 0 <= k < 8 implies (#[trigger] batch[k]).1 == 8 * half + k && w.z[
    batch[k].0][l] == whole(
        weight_at(MM_Q6_K, blk, 16 * (8 * half + k) + l).quant + bias(MM_Q6_K),
    ) by {
        lemma_q6k_weight(blk, 8 * half + k, l);
        assert(w.z[batch[k].0][l] == whole(q6k_quant(blk, 8 * half + k, l)));
    }
    lemma_accs(u, w, t, l);
    assert forall|v: int| 0 <= v < 16 implies (#[trigger] weight_at(MM_Q6_K, blk, 16 * v + l)).scale
        == weight_at(MM_Q6_K, blk, 16 * v).scale && weight_at(MM_Q6_K, blk, 16 * v + l).min
        == weight_at(MM_Q6_K, blk, 16 * v).min && (minuend(MM_Q6_K) && bias(MM_Q6_K) == 0 || weight_at(
        MM_Q6_K,
        blk,
        16 * v + l,
    ).min == 0) by {
        lemma_q6k_weight(blk, v, l);
    }
    lemma_finish(u, w, g, MM_Q6_K, blk, d, dmin, batch, half, t, x, l);
}

#[verifier::opaque]
pub open spec fn q5k_tops() -> Seq<(Zmm, u8)> {
    seq![(Zmm(12), 14u8), (Zmm(13), 21u8)]
}

/// The loads of the fifth bits of a Q5_K superblock.
#[verifier::opaque]
pub open spec fn q5k_top_loads() -> Seq<(u8, int)> {
    Seq::new(2, |j: int| ((12 + j) as u8, 16 + 16 * j))
}

/// The fifth bits of a Q5_K superblock, taken apart.
pub open spec fn q5k_bits() -> Seq<Op> {
    dots::ops_loads(q5k_top_loads(), true, Conv::U8) + dots::ops_fields(q5k_tops(), 1)
}

/// Whether they are in their registers.
pub open spec fn bits_in(u: Unit, blk: Seq<u8>) -> bool {
    forall|j: int, a: int, l: int|
        0 <= j < 2 && 0 <= a < 8 && 0 <= l < 16 ==> #[trigger] u.z[part(q5k_tops()[j], a as u8)][l]
            == whole(q5k_bit(blk, j, a, l))
}

/// Fifth bit `a` of byte `16 j + l`.
pub open spec fn q5k_bit(blk: Seq<u8>, j: int, a: int, l: int) -> int {
    blk[16 + 16 * j + l] as int / dots::pow(a) % 2
}

proof fn lemma_q5k_tops()
    ensures
        q5k_tops().len() == 2,
        dots::fields_apart(q5k_tops(), 8),
        forall|j: int, a: int|
            0 <= j < 2 && 0 <= a < 8 ==> #[trigger] part(q5k_tops()[j], a as u8) == (if a == 0 {
                Zmm((12 + j) as u8)
            } else {
                Zmm((13 + 7 * j + a) as u8)
            }),
        forall|r: Zmm| dots::in_fields(q5k_tops(), 8, r) ==> 12 <= r.0 < 28,
{
    reveal(q5k_tops);
    let hs = q5k_tops();
    assert(hs[0] == (Zmm(12), 14u8) && hs[1] == (Zmm(13), 21u8));
    assert forall|r: Zmm| dots::in_fields(hs, 8, r) implies 12 <= r.0 < 28 by {
        let (j, a) = choose|j: int, a: int|
            0 <= j < hs.len() && 0 <= a < 8 && #[trigger] part(hs[j], a as u8) == r;
        assert(part(hs[j], a as u8) == r);
    }
}

/// The fifth bits, each in its register.
pub proof fn lemma_q5k_bits(u: Unit, g: Map<Gpr, int>, blk: Seq<u8>)
    requires
        holds(u, g, blk),
        blk.len() == 176,
        dots::powers(u, g),
        exact(u.ar),
    ensures
        ({
            let v = u.all(q5k_bits(), g);
            &&& v == (Unit { z: v.z, ..u })
            &&& bits_in(v, blk)
            &&& forall|r: Zmm| r.0 < 8 ==> #[trigger] v.z[r] == u.z[r]
        }),
{
    let loads = q5k_top_loads();
    let hs = q5k_tops();
    let (o1, o2) = (dots::ops_loads(loads, true, Conv::U8), dots::ops_fields(hs, 1));
    u.lemma_parts(o1, o2, g);
    let u1 = u.all(o1, g);
    let v = u1.all(o2, g);
    assert(loads.len() == 2 && forall|j: int|
        0 <= j < 2 ==> #[trigger] loads[j] == ((12 + j) as u8, 16 + 16 * j)) by {
        reveal(q5k_top_loads);
    }
    dots::lemma_loads(u, g, loads, true, Conv::U8);
    lemma_q5k_tops();
    let t = |j: int, l: int|
        if 0 <= j < 2 && 0 <= l < 16 {
            blk[16 + 16 * j + l] as int
        } else {
            0
        };
    assert forall|j: int, l: int| 0 <= j < hs.len() && 0 <= l < 16 implies #[trigger] u1.z[part(
        hs[j],
        0,
    )][l] == whole(t(j, l)) by {
        assert(part(hs[j], 0int as u8) == Zmm((12 + j) as u8));
        assert(u1.z[Zmm(loads[j].0)][l] == (u.mem)(Form::Byte, g[BLK] + loads[j].1 + l));
        lemma_byte(u, g, blk, 16 + 16 * j + l);
    }
    dots::lemma_fields(u1, g, hs, 1, t);
    assert(dots::pow(1) == 2) by {
        reveal_with_fuel(dots::pow, 3);
    }
    assert forall|j: int, a: int, l: int|
        0 <= j < 2 && 0 <= a < 8 && 0 <= l < 16 implies #[trigger] v.z[part(hs[j], a as u8)][l]
        == whole(q5k_bit(blk, j, a, l)) by {
        assert(v.z[part(hs[j], a as u8)][l] == whole(t(j, l) / dots::pow(1 * a) % dots::pow(1)));
        assert(1 * a == a);
    }
    assert forall|r: Zmm| r.0 < 8 implies #[trigger] v.z[r] == u.z[r] by {
        assert forall|i: int| 0 <= i < loads.len() implies Zmm((#[trigger] loads[i]).0) != r by {}
        assert(u1.z[r] == u.z[r]);
        assert(!dots::in_fields(hs, 8, r));
    }
}

/// The register of byte vector `j` of a Q5_K half, and that of its high
/// nibbles.
pub open spec fn q5k_low(j: int) -> Zmm {
    if j < 2 {
        Zmm((8 + j) as u8)
    } else {
        Zmm((26 + j) as u8)
    }
}

/// The loads of a Q5_K half: 64 bytes, sixteen to a register.
#[verifier::opaque]
pub open spec fn q5k_loads(half: int) -> Seq<(u8, int)> {
    Seq::new(4, |j: int| (q5k_low(j).0, 48 + 64 * half + 16 * j))
}

#[verifier::opaque]
pub open spec fn q5k_pairs() -> Seq<(Zmm, Zmm)> {
    quant::spec_pairs([8, 9, 28, 29], [10, 11, 30, 31])
}

#[verifier::opaque]
pub open spec fn q5k_highs(half: i32) -> Seq<(Zmm, Zmm)> {
    quant::spec_pairs([8, 9, 10, 11, 28, 29, 30, 31], quant::spec_bit_regs(half))
}

#[verifier::opaque]
pub open spec fn q5k_batch(half: i32) -> Seq<(Zmm, i32)> {
    quant::spec_eight([8, 9, 10, 11, 28, 29, 30, 31], half)
}

/// The quants of a Q5_K half.
pub open spec fn q5k_quants(half: i32) -> Seq<Op> {
    dots::ops_loads(q5k_loads(half as int), true, Conv::U8) + dots::ops_nibbles(q5k_pairs())
        + dots::ops_add(q5k_highs(half))
}

/// A Q5_K half.
pub open spec fn q5k_ops(half: i32, t: u8, x: Act) -> Seq<Op> {
    q5k_quants(half) + dots::ops_dot(t, q5k_batch(half), true, x)
}

/// The register of vector `k` of a Q5_K half.
pub open spec fn q5k_reg(k: int) -> Zmm {
    if k < 4 {
        Zmm((8 + k) as u8)
    } else {
        Zmm((24 + k) as u8)
    }
}

proof fn lemma_q5k_regs(half: i32)
    requires
        half == 0 || half == 1,
    ensures
        batch_apart(q5k_batch(half)),
        q5k_batch(half).len() == 8,
        forall|k: int|
            0 <= k < 8 ==> (#[trigger] q5k_batch(half)[k]).1 == 8 * half + k && q5k_batch(half)[k].0
                == q5k_reg(k),
        dots::separate(q5k_pairs()),
        q5k_pairs().len() == 4,
        forall|j: int|
            0 <= j < 4 ==> #[trigger] q5k_pairs()[j] == (q5k_low(j), Zmm((q5k_low(j).0 + 2) as u8)),
{
    reveal(q5k_batch);
    reveal(q5k_pairs);
    let r: [u8; 8] = [8, 9, 10, 11, 28, 29, 30, 31];
    assert(r[0] == 8 && r[1] == 9 && r[2] == 10 && r[3] == 11 && r[4] == 28 && r[5] == 29 && r[6]
        == 30 && r[7] == 31);
    lemma_eight(r, half);
    let pairs = q5k_pairs();
    let lo: [u8; 4] = [8, 9, 28, 29];
    let hi: [u8; 4] = [10, 11, 30, 31];
    assert(lo[0] == 8 && lo[1] == 9 && lo[2] == 28 && lo[3] == 29);
    assert(hi[0] == 10 && hi[1] == 11 && hi[2] == 30 && hi[3] == 31);
    assert(pairs[0] == (Zmm(8), Zmm(10)) && pairs[1] == (Zmm(9), Zmm(11)) && pairs[2] == (
        Zmm(28),
        Zmm(30),
    ) && pairs[3] == (Zmm(29), Zmm(31)));
}

proof fn lemma_q5k_highs(half: i32)
    requires
        half == 0 || half == 1,
    ensures
        q5k_highs(half).len() == 8,
        forall|k: int|
            0 <= k < 8 ==> (#[trigger] q5k_highs(half)[k]).0 == q5k_reg(k) && q5k_highs(half)[k].1
                == part(q5k_tops()[k % 2], (4 * half + k / 2) as u8),
        forall|i: int, j: int|
            0 <= i < 8 && 0 <= j < 8 ==> (#[trigger] q5k_highs(half)[i]).0 != (
            #[trigger] q5k_highs(half)[j]).1 && (i != j ==> q5k_highs(half)[i].0 != q5k_highs(
                half,
            )[j].0),
{
    reveal(q5k_highs);
    reveal(q5k_tops);
    let hs = q5k_tops();
    assert(hs[0] == (Zmm(12), 14u8) && hs[1] == (Zmm(13), 21u8));
    let pairs = q5k_highs(half);
    let lo: [u8; 8] = [8, 9, 10, 11, 28, 29, 30, 31];
    let b0: [u8; 8] = [12, 13, 14, 21, 15, 22, 16, 23];
    let b1: [u8; 8] = [17, 24, 18, 25, 19, 26, 20, 27];
    assert(lo[0] == 8 && lo[1] == 9 && lo[2] == 10 && lo[3] == 11 && lo[4] == 28 && lo[5] == 29
        && lo[6] == 30 && lo[7] == 31);
    assert(b0[0] == 12 && b0[1] == 13 && b0[2] == 14 && b0[3] == 21 && b0[4] == 15 && b0[5] == 22
        && b0[6] == 16 && b0[7] == 23);
    assert(b1[0] == 17 && b1[1] == 24 && b1[2] == 18 && b1[3] == 25 && b1[4] == 19 && b1[5] == 26
        && b1[6] == 20 && b1[7] == 27);
    if half == 0 {
        assert(quant::spec_bit_regs(half) == b0);
        assert(pairs[0] == (Zmm(8), Zmm(12)) && pairs[1] == (Zmm(9), Zmm(13)) && pairs[2] == (
            Zmm(10),
            Zmm(14),
        ) && pairs[3] == (Zmm(11), Zmm(21)) && pairs[4] == (Zmm(28), Zmm(15)) && pairs[5] == (
            Zmm(29),
            Zmm(22),
        ) && pairs[6] == (Zmm(30), Zmm(16)) && pairs[7] == (Zmm(31), Zmm(23)));
    } else {
        assert(quant::spec_bit_regs(half) == b1);
        assert(pairs[0] == (Zmm(8), Zmm(17)) && pairs[1] == (Zmm(9), Zmm(24)) && pairs[2] == (
            Zmm(10),
            Zmm(18),
        ) && pairs[3] == (Zmm(11), Zmm(25)) && pairs[4] == (Zmm(28), Zmm(19)) && pairs[5] == (
            Zmm(29),
            Zmm(26),
        ) && pairs[6] == (Zmm(30), Zmm(20)) && pairs[7] == (Zmm(31), Zmm(27)));
    }
}

/// The nibble and the quant of lane `l` of vector `v` of a Q5_K superblock.
spec fn q5k_nibble(blk: Seq<u8>, v: int, l: int) -> int {
    let b = blk[48 + 32 * (v / 4) + 16 * (v % 2) + l] as int;
    if v / 2 % 2 == 1 {
        b / 16
    } else {
        b % 16
    }
}

spec fn q5k_quant(blk: Seq<u8>, v: int, l: int) -> int {
    q5k_nibble(blk, v, l) + 16 * q5k_bit(blk, v % 2, v / 2, l)
}

proof fn lemma_q5k_weight(blk: Seq<u8>, v: int, l: int)
    requires
        blk.len() == 176,
        0 <= v < 16,
        0 <= l < 16,
    ensures
        ({
            let w = weight_at(MM_Q5_K, blk, 16 * v + l);
            &&& w.quant == q5k_quant(blk, v, l)
            &&& w.scale == weight_at(MM_Q5_K, blk, 16 * v).scale
            &&& w.min == weight_at(MM_Q5_K, blk, 16 * v).min
        }),
{
    let i = 16 * v + l;
    let j = v / 2;
    assert(i / 32 == j && 16 * v / 32 == j);
    assert(i % 32 == 16 * (v % 2) + l);
    let b = blk[48 + 32 * (v / 4) + 16 * (v % 2) + l];
    let q = blk[16 + 16 * (v % 2) + l];
    weights::lemma_bytes(b, b, 0);
    weights::lemma_bytes(q, q, 0);
    assert(dots::pow(0) == 1 && dots::pow(1) == 2 && dots::pow(2) == 4 && dots::pow(3) == 8
        && dots::pow(4) == 16 && dots::pow(5) == 32 && dots::pow(6) == 64 && dots::pow(7) == 128)
        by {
        reveal_with_fuel(dots::pow, 9);
    }
    assert((q >> (j as u8)) & 1 == q5k_bit(blk, v % 2, j, l)) by {
        if j == 0 {
        } else if j == 1 {
        } else if j == 2 {
        } else if j == 3 {
        } else if j == 4 {
        } else if j == 5 {
        } else if j == 6 {
        } else {
        }
    }
}

/// The bytes of a Q5_K half.
proof fn lemma_q5k_loaded(u: Unit, g: Map<Gpr, int>, blk: Seq<u8>, half: i32)
    requires
        holds(u, g, blk),
        blk.len() == 176,
        half == 0 || half == 1,
    ensures
        ({
            let v = u.all(dots::ops_loads(q5k_loads(half as int), true, Conv::U8), g);
            &&& v == (Unit { z: v.z, ..u })
            &&& forall|j: int, l: int|
                0 <= j < 4 && 0 <= l < 16 ==> #[trigger] v.z[q5k_low(j)][l] == whole(
                    blk[48 + 64 * half + 16 * j + l] as int,
                )
            &&& forall|r: Zmm| r.0 < 8 || 12 <= r.0 < 28 ==> #[trigger] v.z[r] == u.z[r]
        }),
{
    let h = half as int;
    let loads = q5k_loads(h);
    assert(loads.len() == 4 && forall|j: int|
        0 <= j < 4 ==> #[trigger] loads[j] == (q5k_low(j).0, 48 + 64 * h + 16 * j)) by {
        reveal(q5k_loads);
    }
    dots::lemma_loads(u, g, loads, true, Conv::U8);
    let v = u.all(dots::ops_loads(loads, true, Conv::U8), g);
    assert forall|j: int, l: int| 0 <= j < 4 && 0 <= l < 16 implies #[trigger] v.z[q5k_low(j)][l]
        == whole(blk[48 + 64 * half + 16 * j + l] as int) by {
        assert(v.z[Zmm(loads[j].0)][l] == (u.mem)(Form::Byte, g[BLK] + loads[j].1 + l));
        lemma_byte(u, g, blk, 48 + 64 * h + 16 * j + l);
    }
    assert forall|r: Zmm| r.0 < 8 || 12 <= r.0 < 28 implies #[trigger] v.z[r] == u.z[r] by {
        assert forall|i: int| 0 <= i < loads.len() implies Zmm((#[trigger] loads[i]).0) != r by {}
    }
}

/// The nibbles of a Q5_K half, each in its register.
proof fn lemma_q5k_split(u: Unit, g: Map<Gpr, int>, blk: Seq<u8>, half: i32)
    requires
        half == 0 || half == 1,
        splitting(u, g),
        exact(u.ar),
        forall|j: int, l: int|
            0 <= j < 4 && 0 <= l < 16 ==> #[trigger] u.z[q5k_low(j)][l] == whole(
                blk[48 + 64 * half + 16 * j + l] as int,
            ),
    ensures
        ({
            let v = u.all(dots::ops_nibbles(q5k_pairs()), g);
            &&& v == (Unit { z: v.z, ..u })
            &&& forall|k: int, l: int|
                0 <= k < 8 && 0 <= l < 16 ==> #[trigger] v.z[q5k_reg(k)][l] == whole(
                    q5k_nibble(blk, 8 * half + k, l),
                )
            &&& forall|r: Zmm| r.0 < 8 || 12 <= r.0 < 28 ==> #[trigger] v.z[r] == u.z[r]
        }),
{
    let h = half as int;
    let pairs = q5k_pairs();
    lemma_q5k_regs(half);
    let b = |j: int, l: int| blk[48 + 64 * h + 16 * j + l] as int;
    assert forall|j: int, l: int| 0 <= j < pairs.len() && 0 <= l < 16 implies #[trigger] u.z[
    pairs[j].0][l] == whole(b(j, l)) && 0 <= b(j, l) < 256 by {
        assert(u.z[q5k_low(j)][l] == whole(blk[48 + 64 * half + 16 * j + l] as int));
    }
    dots::lemma_nibbles(u, g, pairs, b);
    let v = u.all(dots::ops_nibbles(pairs), g);
    assert forall|r: Zmm| r.0 < 8 || 12 <= r.0 < 28 implies #[trigger] v.z[r] == u.z[r] by {
        assert(!dots::in_pairs(pairs, r));
    }
    assert forall|k: int, l: int| 0 <= k < 8 && 0 <= l < 16 implies #[trigger] v.z[q5k_reg(k)][l]
        == whole(q5k_nibble(blk, 8 * half + k, l)) by {
        let j: int = 2 * (k / 4) + k % 2;
        lemma_place(h, k);
        assert(v.z[pairs[j].0][l] == whole(b(j, l) % 16));
        assert(v.z[pairs[j].1][l] == whole(b(j, l) / 16));
        lemma_q5k_reg(k);
    }
}

/// Which nibbles of which bytes vector `k` of a half is.
proof fn lemma_q5k_reg(k: int)
    requires
        0 <= k < 8,
    ensures
        q5k_reg(k) == (if k / 2 % 2 == 1 {
            Zmm((q5k_low(2 * (k / 4) + k % 2).0 + 2) as u8)
        } else {
            q5k_low(2 * (k / 4) + k % 2)
        }),
{
}

/// The quants of a Q5_K half, each in its register.
proof fn lemma_q5k_quants(u: Unit, g: Map<Gpr, int>, blk: Seq<u8>, half: i32)
    requires
        holds(u, g, blk),
        blk.len() == 176,
        half == 0 || half == 1,
        splitting(u, g),
        bits_in(u, blk),
        exact(u.ar),
    ensures
        ({
            let v = u.all(q5k_quants(half), g);
            &&& v == (Unit { z: v.z, ..u })
            &&& forall|k: int, l: int|
                0 <= k < 8 && 0 <= l < 16 ==> #[trigger] v.z[q5k_batch(half)[k].0][l] == whole(
                    q5k_quant(blk, 8 * half + k, l),
                )
            &&& forall|r: Zmm| r.0 < 8 || 12 <= r.0 < 28 ==> #[trigger] v.z[r] == u.z[r]
        }),
{
    let h = half as int;
    let highs = q5k_highs(half);
    let (o1, o2) = (
        dots::ops_loads(q5k_loads(h), true, Conv::U8),
        dots::ops_nibbles(q5k_pairs()),
    );
    let o3 = dots::ops_add(highs);
    u.lemma_parts(o1 + o2, o3, g);
    u.lemma_parts(o1, o2, g);
    lemma_q5k_loaded(u, g, blk, half);
    let u1 = u.all(o1, g);
    lemma_q5k_split(u1, g, blk, half);
    let u2 = u1.all(o2, g);
    let v = u2.all(o3, g);
    assert forall|r: Zmm| r.0 < 8 || 12 <= r.0 < 28 implies #[trigger] u2.z[r] == u.z[r] by {
        assert(u1.z[r] == u.z[r]);
    }
    lemma_q5k_regs(half);
    lemma_q5k_highs(half);
    lemma_q5k_tops();
    let w = |k: int, l: int| q5k_nibble(blk, 8 * h + k, l);
    let f = |k: int, l: int| q5k_bit(blk, k % 2, 4 * h + k / 2, l);
    assert forall|k: int, l: int| 0 <= k < highs.len() && 0 <= l < 16 implies #[trigger] u2.z[
    highs[k].0][l] == whole(w(k, l)) by {
        assert(u2.z[q5k_reg(k)][l] == whole(q5k_nibble(blk, 8 * half + k, l)));
    }
    assert forall|k: int, l: int| 0 <= k < highs.len() && 0 <= l < 16 implies #[trigger] u2.z[
    highs[k].1][l] == whole(f(k, l)) by {
        let a = 4 * h + k / 2;
        let r = part(q5k_tops()[k % 2], a as u8);
        assert(12 <= r.0 < 28);
        assert(u2.z[r] == u.z[r]);
        assert(u.z[part(q5k_tops()[k % 2], a as u8)][l] == whole(q5k_bit(blk, k % 2, a, l)));
    }
    dots::lemma_add(u2, g, highs, w, f);
    let batch = q5k_batch(half);
    assert forall|k: int, l: int| 0 <= k < 8 && 0 <= l < 16 implies #[trigger] v.z[batch[k].0][l]
        == whole(q5k_quant(blk, 8 * half + k, l)) by {
        assert((8 * h + k) / 2 == 4 * h + k / 2 && (8 * h + k) % 2 == k % 2);
        assert(v.z[highs[k].0][l] == whole(w(k, l) + 16 * f(k, l)));
    }
    assert forall|r: Zmm| r.0 < 8 || 12 <= r.0 < 28 implies #[trigger] v.z[r] == u.z[r] by {
        assert forall|k: int| 0 <= k < highs.len() implies (#[trigger] highs[k]).0 != r by {}
        assert(u2.z[r] == u.z[r]);
    }
}

/// Half of the format's block adds its half of the products.
pub proof fn lemma_q5k_half(
    u: Unit,
    g: Map<Gpr, int>,
    blk: Seq<u8>,
    d: spec_fn(int) -> real,
    dmin: real,
    half: i32,
    t: u8,
    x: Act,
    l: int,
)
    requires
        holds(u, g, blk),
        blk.len() == 176,
        half == 0 || half == 1,
        splitting(u, g),
        bits_in(u, blk),
        ready(u, g, t, x, l),
        tabled(u, g, MM_Q5_K, blk, d, dmin),
    ensures
        added(u, u.all(q5k_ops(half, t, x), g), g, MM_Q5_K, blk, d, dmin, half, t, x, l),
        bits_in(u.all(q5k_ops(half, t, x), g), blk),
{
    let o1 = q5k_quants(half);
    let o2 = dots::ops_dot(t, q5k_batch(half), minuend(MM_Q5_K), x);
    u.lemma_parts(o1, o2, g);
    lemma_q5k_quants(u, g, blk, half);
    lemma_q5k_regs(half);
    let w = u.all(o1, g);
    let batch = q5k_batch(half);
    assert forall|k: int| 0 <= k < 8 implies (#[trigger] batch[k]).1 == 8 * half + k && w.z[
    batch[k].0][l] == whole(
        weight_at(MM_Q5_K, blk, 16 * (8 * half + k) + l).quant + bias(MM_Q5_K),
    ) by {
        lemma_q5k_weight(blk, 8 * half + k, l);
        assert(w.z[batch[k].0][l] == whole(q5k_quant(blk, 8 * half + k, l)));
    }
    lemma_accs(u, w, t, l);
    assert forall|v: int| 0 <= v < 16 implies (#[trigger] weight_at(MM_Q5_K, blk, 16 * v + l)).scale
        == weight_at(MM_Q5_K, blk, 16 * v).scale && weight_at(MM_Q5_K, blk, 16 * v + l).min
        == weight_at(MM_Q5_K, blk, 16 * v).min && (minuend(MM_Q5_K) && bias(MM_Q5_K) == 0 || weight_at(
        MM_Q5_K,
        blk,
        16 * v + l,
    ).min == 0) by {
        lemma_q5k_weight(blk, v, l);
    }
    lemma_finish(u, w, g, MM_Q5_K, blk, d, dmin, batch, half, t, x, l);
    let n = w.all(o2, g);
    lemma_q5k_tops();
    assert forall|j: int, a: int, l: int|
        0 <= j < 2 && 0 <= a < 8 && 0 <= l < 16 implies #[trigger] n.z[part(
        q5k_tops()[j],
        a as u8,
    )][l] == whole(q5k_bit(blk, j, a, l)) by {
        let r = part(q5k_tops()[j], a as u8);
        assert forall|k: int| 0 <= k < batch.len() implies (#[trigger] batch[k]).0 != r by {}
        assert(n.z[r] == w.z[r]);
        assert(w.z[r] == u.z[r]);
        assert(u.z[part(q5k_tops()[j], a as u8)][l] == whole(q5k_bit(blk, j, a, l)));
    }
}

} // verus!
