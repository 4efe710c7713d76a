//! What the preparations of the quantized kernels do when they are run: they
//! leave the sixteen scales of a block, times its `d`, and its minuends in the
//! table, one for each vector of sixteen weights.
use crate::kernelgen::dots;
use crate::kernelgen::dots::{exact, minuend_at, scale_at, signed32, whole};
use crate::kernelgen::quant::{
    constant, BLK, CONSTS, C_BYTES, C_F32_32, C_IDX_D_DMIN, C_IDX_EXPAND, C_IDX_EXPAND_HI,
    C_IDX_K4_P1, C_IDX_K4_P2, C_IDX_ONE, C_IDX_SL, C_IDX_ZERO, C_SHIFT_H, C_SHIFT_L, C_U_15,
    C_U_3, C_U_32, C_U_63, C_U_C0, TAB, TAB_BYTES, TAB_MN, TAB_SC,
};
use crate::kernelgen::quant_runs;
use crate::kernelgen::quant_runs::{holds, weight_at};
use crate::kernelgen::vector;
use crate::kernelgen::vector::{Form, Lane, One, Op, Two, Unit};
use crate::mvex::reg::{Conv, Gpr, Mem, Src, Zmm};
use crate::vpu::proto::{MM_IQ4_XS, MM_Q4_K, MM_Q5_K, MM_Q6_K, MM_Q8_0};
use crate::vpu::weights;
use vstd::prelude::*;

verus! {

/// The index vectors and the shifts, as their names have them.
pub open spec fn index(off: int, m: int) -> int {
    if off == C_IDX_EXPAND {
        m / 2
    } else if off == C_IDX_EXPAND_HI {
        8 + m / 2
    } else if off == C_IDX_K4_P1 {
        if m < 4 {
            m
        } else if m < 8 {
            m + 4
        } else if m < 12 {
            m - 4
        } else {
            m - 4
        }
    } else if off == C_IDX_K4_P2 {
        if m < 4 || 8 <= m < 12 {
            0
        } else if m < 8 {
            m - 4
        } else {
            m - 8
        }
    } else if off == C_IDX_D_DMIN {
        if m < 8 {
            0
        } else {
            1
        }
    } else if off == C_IDX_ONE {
        1
    } else if off == C_IDX_SL {
        if m < 8 {
            2 + m / 2
        } else {
            0
        }
    } else if off == C_SHIFT_L {
        if m < 8 {
            4 * (m % 2)
        } else {
            0
        }
    } else if off == C_SHIFT_H {
        if m < 8 {
            2 * m
        } else {
            0
        }
    } else {
        0
    }
}

/// Whether the constants hold an index vector.
pub open spec fn indexed(u: Unit, g: Map<Gpr, int>, off: int) -> bool {
    forall|m: int|
        0 <= m < 16 ==> (u.mem)(Form::Word, g[CONSTS] + off + 4 * m) == Lane::Bits(
            #[trigger] index(off, m) as u32,
        )
}

/// Whether they hold an integer.
pub open spec fn integer_is(u: Unit, g: Map<Gpr, int>, off: int, n: u32) -> bool {
    (u.mem)(Form::Word, g[CONSTS] + off) == Lane::Bits(n)
}

/// Whether the constants hold all that the preparations read.
pub open spec fn stocked(u: Unit, g: Map<Gpr, int>) -> bool {
    &&& indexed(u, g, C_IDX_EXPAND as int)
    &&& indexed(u, g, C_IDX_EXPAND_HI as int)
    &&& indexed(u, g, C_IDX_K4_P1 as int)
    &&& indexed(u, g, C_IDX_K4_P2 as int)
    &&& indexed(u, g, C_IDX_D_DMIN as int)
    &&& indexed(u, g, C_IDX_ZERO as int)
    &&& indexed(u, g, C_IDX_ONE as int)
    &&& indexed(u, g, C_IDX_SL as int)
    &&& indexed(u, g, C_SHIFT_L as int)
    &&& indexed(u, g, C_SHIFT_H as int)
    &&& integer_is(u, g, C_U_63 as int, 63)
    &&& integer_is(u, g, C_U_15 as int, 15)
    &&& integer_is(u, g, C_U_C0 as int, 0xc0)
    &&& integer_is(u, g, C_U_3 as int, 3)
    &&& integer_is(u, g, C_U_32 as int, 32)
    &&& dots::constant_is(u, g, C_F32_32 as int, 32int as real)
}

/// Whether the table is apart from the constants and the block.
pub open spec fn table_apart(g: Map<Gpr, int>, len: int) -> bool {
    &&& g[TAB] + TAB_BYTES <= g[CONSTS] || g[CONSTS] + C_BYTES <= g[TAB]
    &&& g[TAB] + TAB_BYTES <= g[BLK] || g[BLK] + len <= g[TAB]
}

/// Whether nothing but the table, and registers from `low` on, and the mask
/// were changed.
pub open spec fn tabling(u: Unit, v: Unit, g: Map<Gpr, int>) -> bool {
    &&& v.ar == u.ar
    &&& forall|r: Zmm| r.0 < 16 ==> #[trigger] v.z[r] == u.z[r]
    &&& forall|f: Form, b: int|
        b + f.width() <= g[TAB] || g[TAB] + TAB_BYTES <= b ==> #[trigger] (v.mem)(f, b) == (u.mem)(
            f,
            b,
        )
}

/// Sixteen integers of one byte of the block each, from any place.
pub open spec fn op_low(z: u8, disp: int, conv: Conv, ints: bool, masked: bool) -> Op {
    Op::Low { z: Zmm(z), m: Mem::at(BLK, disp as i32), conv, ints, masked }
}

pub open spec fn op_high(z: u8, disp: int, conv: Conv, ints: bool, masked: bool) -> Op {
    Op::High { z: Zmm(z), m: Mem::at(BLK, (disp + 64) as i32), conv, ints, masked }
}

pub open spec fn op_index(z: u8, off: i32) -> Op {
    Op::Load { z: Zmm(z), m: Mem::at(CONSTS, off), conv: Conv::Plain }
}

pub open spec fn op_perm(z: u8, i: u8, b: u8) -> Op {
    Op::Perm { z: Zmm(z), i: Zmm(i), b: Src::Reg(Zmm(b)) }
}

pub open spec fn op_two(f: Two, z: u8, a: u8, b: u8) -> Op {
    Op::Two { f, z: Zmm(z), a: Zmm(a), b: Src::Reg(Zmm(b)), masked: false }
}

pub open spec fn op_with(f: Two, z: u8, a: u8, off: i32) -> Op {
    Op::Two { f, z: Zmm(z), a: Zmm(a), b: constant(off), masked: false }
}

pub open spec fn op_one(f: One, z: u8, b: u8) -> Op {
    Op::One { f, z: Zmm(z), b: Src::Reg(Zmm(b)) }
}

/// What one instruction leaves in its register, and all that it leaves alone.
proof fn lemma_did(u: Unit, g: Map<Gpr, int>, op: Op)
    requires
        op.dest() is Some,
    ensures
        ({
            let v = u.did(op, g);
            &&& v == (Unit { z: v.z, ..u })
            &&& forall|l: int| 0 <= l < 16 ==> #[trigger] v.z[op.dest()->0][l] == u.value(op, g, l)
            &&& forall|r: Zmm| Some(r) != op.dest() ==> #[trigger] v.z[r] == u.z[r]
        }),
{
}

/// The lanes that an index vector picks, into the table.
#[verifier::opaque]
pub open spec fn ops_expanded(v: u8, off: i32, table: i32) -> Seq<Op> {
    Seq::<Op>::empty().push(op_index(30, off)).push(op_perm(31, 30, v)).push(
        Op::Store { m: Mem::at(TAB, table), z: Zmm(31), conv: Conv::Plain, masked: false },
    )
}

proof fn lemma_expanded(u: Unit, g: Map<Gpr, int>, v: u8, off: i32, table: i32)
    requires
        indexed(u, g, off as int),
        v < 30,
        off == C_IDX_EXPAND || off == C_IDX_EXPAND_HI,
    ensures
        ({
            let n = u.all(ops_expanded(v, off, table), g);
            &&& n.ar == u.ar
            &&& n.k1 == u.k1
            &&& forall|r: Zmm| r.0 < 30 ==> #[trigger] n.z[r] == u.z[r]
            &&& forall|f: Form, b: int|
                b + f.width() <= g[TAB] + table || g[TAB] + table + 64 <= b ==> #[trigger] (n.mem)(
                    f,
                    b,
                ) == (u.mem)(f, b)
            &&& forall|m: int|
                0 <= m < 16 ==> (n.mem)(Form::Word, g[TAB] + table + 4 * m) == u.z[Zmm(v)][
                #[trigger] index(off as int, m)]
        }),
{
    broadcast use Mem::lemma_at;

    reveal(ops_expanded);
    let e = Seq::<Op>::empty();
    let (a, b) = (op_index(30, off), op_perm(31, 30, v));
    let c = Op::Store { m: Mem::at(TAB, table), z: Zmm(31), conv: Conv::Plain, masked: false };
    u.lemma_push(e, a, g);
    u.lemma_push(e.push(a), b, g);
    u.lemma_push(e.push(a).push(b), c, g);
    let u1 = u.did(a, g);
    let u2 = u1.did(b, g);
    let n = u2.did(c, g);
    lemma_did(u, g, a);
    lemma_did(u1, g, b);
    assert forall|m: int| 0 <= m < 16 implies (n.mem)(Form::Word, g[TAB] + table + 4 * m) == u.z[
    Zmm(v)][#[trigger] index(off as int, m)] by {
        let k = index(off as int, m);
        assert((u.mem)(Form::Word, g[CONSTS] + off + 4 * m) == Lane::Bits(k as u32));
        assert(u1.z[Zmm(30)][m] == u.value(a, g, m));
        assert(u1.z[Zmm(30)][m] == Lane::Bits(k as u32));
        assert(u2.z[Zmm(31)][m] == u1.value(b, g, m));
        assert(0 <= k < 16);
        assert(u2.z[Zmm(31)][m] == u.z[Zmm(v)][k]);
    }
}

/// An unpacked pair of loads.
proof fn lemma_unpacked(u: Unit, g: Map<Gpr, int>, z: u8, disp: int, conv: Conv, ints: bool)
    requires
        0 <= disp < 0x1000,
    ensures
        ({
            let v = u.did(op_low(z, disp, conv, ints, false), g).did(
                op_high(z, disp, conv, ints, false),
                g,
            );
            let f = Form::of(conv, ints);
            &&& v == (Unit { z: v.z, ..u })
            &&& forall|l: int|
                0 <= l < 16 ==> #[trigger] v.z[Zmm(z)][l] == (u.mem)(
                    f,
                    g[BLK] + disp + f.width() * l,
                )
            &&& forall|r: Zmm| r != Zmm(z) ==> #[trigger] v.z[r] == u.z[r]
        }),
{
    broadcast use Mem::lemma_at;

    let (a, b) = (op_low(z, disp, conv, ints, false), op_high(z, disp, conv, ints, false));
    let u1 = u.did(a, g);
    let v = u1.did(b, g);
    lemma_did(u, g, a);
    lemma_did(u1, g, b);
    let f = Form::of(conv, ints);
    assert forall|l: int| 0 <= l < 16 implies #[trigger] v.z[Zmm(z)][l] == (u.mem)(
        f,
        g[BLK] + disp + f.width() * l,
    ) by {
        assert(v.z[Zmm(z)][l] == u1.value(b, g, l));
        assert(u1.z[Zmm(z)][l] == u.value(a, g, l));
        assert((g[BLK] + disp + 64) % 64 == (g[BLK] + disp) % 64);
    }
}

/// A constant index vector loaded, and the lanes of `b` that it picks.
proof fn lemma_picked(u: Unit, g: Map<Gpr, int>, i: u8, off: i32, z: u8, b: u8)
    requires
        indexed(u, g, off as int),
        i != b,
        forall|m: int| 0 <= m < 16 ==> 0 <= #[trigger] index(off as int, m) < 16,
    ensures
        ({
            let v = u.did(op_index(i, off), g).did(op_perm(z, i, b), g);
            &&& v == (Unit { z: v.z, ..u })
            &&& forall|m: int|
                0 <= m < 16 ==> v.z[Zmm(z)][m] == u.z[Zmm(b)][#[trigger] index(off as int, m)]
            &&& forall|r: Zmm| r != Zmm(z) && r != Zmm(i) ==> #[trigger] v.z[r] == u.z[r]
        }),
{
    broadcast use Mem::lemma_at;

    let (p, q) = (op_index(i, off), op_perm(z, i, b));
    let u1 = u.did(p, g);
    let v = u1.did(q, g);
    lemma_did(u, g, p);
    lemma_did(u1, g, q);
    assert forall|m: int| 0 <= m < 16 implies v.z[Zmm(z)][m] == u.z[Zmm(b)][#[trigger] index(
        off as int,
        m,
    )] by {
        let k = index(off as int, m);
        assert((u.mem)(Form::Word, g[CONSTS] + off + 4 * m) == Lane::Bits(k as u32));
        assert(u1.z[Zmm(i)][m] == u.value(p, g, m));
        assert(v.z[Zmm(z)][m] == u1.value(q, g, m));
        assert(0 <= k < 16);
    }
}

/// The scales of Q6_K, times `d`.
#[verifier::opaque]
pub open spec fn ops_q6k_scaled() -> Seq<Op> {
    Seq::<Op>::empty().push(op_low(16, 192, Conv::S8, true, false)).push(
        op_high(16, 192, Conv::S8, true, false),
    ).push(op_one(One::Number, 16, 16)).push(op_low(17, 208, Conv::F16, false, false)).push(
        op_high(17, 208, Conv::F16, false, false),
    ).push(op_index(18, C_IDX_ZERO)).push(op_perm(19, 18, 17)).push(op_two(Two::Mul, 16, 16, 19))
}

pub open spec fn op_keep(table: i32, z: u8) -> Op {
    Op::Store { m: Mem::at(TAB, table), z: Zmm(z), conv: Conv::Plain, masked: false }
}

/// They and 32 times them into the table.
#[verifier::opaque]
pub open spec fn ops_q6k_table() -> Seq<Op> {
    Seq::<Op>::empty().push(op_keep(TAB_SC, 16)).push(op_with(Two::Mul, 20, 16, C_F32_32)).push(
        op_keep(TAB_MN, 20),
    )
}

/// The preparation of Q6_K.
pub open spec fn ops_q6k() -> Seq<Op> {
    ops_q6k_scaled() + ops_q6k_table()
}

proof fn lemma_q6k_scaled(u: Unit, g: Map<Gpr, int>, blk: Seq<u8>, d: real)
    requires
        exact(u.ar),
        holds(u, g, blk),
        blk.len() == 210,
        stocked(u, g),
        (u.mem)(Form::Half, g[BLK] + 208) == Lane::Num(d),
    ensures
        ({
            let v = u.all(ops_q6k_scaled(), g);
            &&& v == (Unit { z: v.z, ..u })
            &&& forall|m: int|
                0 <= m < 16 ==> #[trigger] v.z[Zmm(16)][m] == Lane::Num(
                    d * (weight_at(MM_Q6_K, blk, 16 * m).scale as real),
                )
            &&& forall|r: Zmm| r.0 < 16 ==> #[trigger] v.z[r] == u.z[r]
        }),
{
    broadcast use Mem::lemma_at;
    broadcast use Unit::lemma_push;

    reveal(ops_q6k_scaled);
    assert(u.all(Seq::<Op>::empty(), g) == u);
    let u1 = u.did(op_low(16, 192, Conv::S8, true, false), g).did(
        op_high(16, 192, Conv::S8, true, false),
        g,
    );
    lemma_unpacked(u, g, 16, 192, Conv::S8, true);
    let u2 = u1.did(op_one(One::Number, 16, 16), g);
    lemma_did(u1, g, op_one(One::Number, 16, 16));
    let u3 = u2.did(op_low(17, 208, Conv::F16, false, false), g).did(
        op_high(17, 208, Conv::F16, false, false),
        g,
    );
    lemma_unpacked(u2, g, 17, 208, Conv::F16, false);
    let u4 = u3.did(op_index(18, C_IDX_ZERO), g).did(op_perm(19, 18, 17), g);
    lemma_picked(u3, g, 18, C_IDX_ZERO, 19, 17);
    let u5 = u4.did(op_two(Two::Mul, 16, 16, 19), g);
    lemma_did(u4, g, op_two(Two::Mul, 16, 16, 19));
    assert(u5 == u.all(ops_q6k_scaled(), g));
    assert forall|m: int| 0 <= m < 16 implies #[trigger] u5.z[Zmm(16)][m] == Lane::Num(
        d * (weight_at(MM_Q6_K, blk, 16 * m).scale as real),
    ) by {
        quant_runs::lemma_byte(u, g, blk, 192 + m);
        quant_runs::lemma_q6k_weight(blk, m, 0);
        let b = blk[192 + m];
        assert(u1.z[Zmm(16)][m] == (u.mem)(Form::IntSigned, g[BLK] + 192 + m));
        assert(u2.z[Zmm(16)][m] == u1.value(op_one(One::Number, 16, 16), g, m));
        assert(u2.z[Zmm(16)][m] == whole(weights::signed8(b) as int));
        assert(index(C_IDX_ZERO as int, m) == 0);
        assert(u4.z[Zmm(19)][m] == u3.z[Zmm(17)][0]);
        assert(u3.z[Zmm(17)][0] == (u.mem)(Form::Half, g[BLK] + 208));
        assert(u4.z[Zmm(16)] == u2.z[Zmm(16)]);
        let s = weights::signed8(b) as int as real;
        assert(u5.z[Zmm(16)][m] == u4.value(op_two(Two::Mul, 16, 16, 19), g, m));
        assert(s * d == d * s) by (nonlinear_arith);
    }
    assert forall|r: Zmm| r.0 < 16 implies #[trigger] u5.z[r] == u.z[r] by {
        assert(u1.z[r] == u.z[r]);
        assert(u2.z[r] == u1.z[r]);
        assert(u3.z[r] == u2.z[r]);
        assert(u4.z[r] == u3.z[r]);
    }
}

proof fn lemma_q6k_table(u: Unit, g: Map<Gpr, int>, x: spec_fn(int) -> real)
    requires
        exact(u.ar),
        dots::constant_is(u, g, C_F32_32 as int, 32int as real),
        table_apart(g, 210),
        forall|m: int| 0 <= m < 16 ==> #[trigger] u.z[Zmm(16)][m] == Lane::Num(x(m)),
    ensures
        ({
            let v = u.all(ops_q6k_table(), g);
            &&& tabling(u, v, g)
            &&& forall|w: int|
                0 <= w < 16 ==> #[trigger] scale_at(v, g, w) == Lane::Num(x(w)) && minuend_at(
                    v,
                    g,
                    w,
                ) == Lane::Num(x(w) * (32int as real))
        }),
{
    broadcast use Mem::lemma_at;
    broadcast use Unit::lemma_push;

    reveal(ops_q6k_table);
    assert(u.all(Seq::<Op>::empty(), g) == u);
    let u6 = u.did(op_keep(TAB_SC, 16), g);
    let mu = op_with(Two::Mul, 20, 16, C_F32_32);
    let u7 = u6.did(mu, g);
    lemma_did(u6, g, mu);
    let v = u7.did(op_keep(TAB_MN, 20), g);
    assert(v == u.all(ops_q6k_table(), g));
    assert forall|w: int| 0 <= w < 16 implies #[trigger] scale_at(v, g, w) == Lane::Num(x(w))
        && minuend_at(v, g, w) == Lane::Num(x(w) * (32int as real)) by {
        assert(u.z[Zmm(16)][w] == Lane::Num(x(w)));
        assert((u6.mem)(Form::Word, g[TAB] + TAB_SC + 4 * w) == Lane::Num(x(w)));
        assert(u7.z[Zmm(20)][w] == u6.value(mu, g, w));
        assert((u6.mem)(Form::Word, g[CONSTS] + C_F32_32) == Lane::Num(32int as real));
        assert(u7.z[Zmm(20)][w] == Lane::Num(x(w) * (32int as real)));
    }
    assert forall|f: Form, b: int|
        b + f.width() <= g[TAB] || g[TAB] + TAB_BYTES <= b implies #[trigger] (v.mem)(f, b) == (
    u.mem)(f, b) by {
        assert((u6.mem)(f, b) == (u.mem)(f, b));
    }
}

/// Q6_K's table: each vector's own scale times `d`, and 32 times that.
pub proof fn lemma_prep_q6k(u: Unit, g: Map<Gpr, int>, blk: Seq<u8>, d: real)
    requires
        exact(u.ar),
        holds(u, g, blk),
        blk.len() == 210,
        stocked(u, g),
        table_apart(g, 210),
        (u.mem)(Form::Half, g[BLK] + 208) == Lane::Num(d),
    ensures
        ({
            let v = u.all(ops_q6k(), g);
            &&& tabling(u, v, g)
            &&& quant_runs::tabled(v, g, MM_Q6_K, blk, |v: int| d, 0int as real)
        }),
{
    u.lemma_parts(ops_q6k_scaled(), ops_q6k_table(), g);
    lemma_q6k_scaled(u, g, blk, d);
    let u5 = u.all(ops_q6k_scaled(), g);
    let x = |m: int| d * (weight_at(MM_Q6_K, blk, 16 * m).scale as real);
    lemma_q6k_table(u5, g, x);
    let v = u5.all(ops_q6k_table(), g);
    assert forall|w: int| 0 <= w < 16 implies #[trigger] scale_at(v, g, w) == Lane::Num(
        d * (weight_at(MM_Q6_K, blk, 16 * w).scale as real),
    ) && minuend_at(v, g, w) == Lane::Num(
        (0int as real) * (weight_at(MM_Q6_K, blk, 16 * w).min as real) + d * (weight_at(
            MM_Q6_K,
            blk,
            16 * w,
        ).scale as real) * (32int as real),
    ) by {
        assert((0int as real) * (weight_at(MM_Q6_K, blk, 16 * w).min as real) == (0int as real))
            by (nonlinear_arith);
    }
    assert forall|r: Zmm| r.0 < 16 implies #[trigger] v.z[r] == u.z[r] by {
        assert(u5.z[r] == u.z[r]);
    }
}

/// The registers and the memory as they are, but for rax.
pub open spec fn with_rax(g: Map<Gpr, int>, n: int) -> Map<Gpr, int> {
    g.insert(Gpr::Rax, n)
}

/// Which lanes the masks of the preparations select.
proof fn lemma_bits(l: int)
    requires
        0 <= l < 16,
    ensures
        vector::bit(240, l) == (4 <= l < 8),
        vector::bit(61440, l) == (12 <= l < 16),
        vector::bit(1, l) == (l == 0),
        vector::bit(2, l) == (l == 1),
        vector::bit(4, l) == (l == 2),
        vector::bit(8, l) == (l == 3),
        vector::bit(16, l) == (l == 4),
        vector::bit(32, l) == (l == 5),
        vector::bit(64, l) == (l == 6),
        vector::bit(128, l) == (l == 7),
{
    vstd::arithmetic::power2::lemma2_to64();
    let p = vstd::arithmetic::power2::pow2(l as nat);
    if l == 0 {
        assert(p == 1);
        assert(240int / 1 % 2 == 0
            && 61440int / 1 % 2 == 0
            && 1int / 1 % 2 == 1
            && 2int / 1 % 2 == 0
            && 4int / 1 % 2 == 0
            && 8int / 1 % 2 == 0
            && 16int / 1 % 2 == 0
            && 32int / 1 % 2 == 0
            && 64int / 1 % 2 == 0
            && 128int / 1 % 2 == 0);
    } else if l == 1 {
        assert(p == 2);
        assert(240int / 2 % 2 == 0
            && 61440int / 2 % 2 == 0
            && 1int / 2 % 2 == 0
            && 2int / 2 % 2 == 1
            && 4int / 2 % 2 == 0
            && 8int / 2 % 2 == 0
            && 16int / 2 % 2 == 0
            && 32int / 2 % 2 == 0
            && 64int / 2 % 2 == 0
            && 128int / 2 % 2 == 0);
    } else if l == 2 {
        assert(p == 4);
        assert(240int / 4 % 2 == 0
            && 61440int / 4 % 2 == 0
            && 1int / 4 % 2 == 0
            && 2int / 4 % 2 == 0
            && 4int / 4 % 2 == 1
            && 8int / 4 % 2 == 0
            && 16int / 4 % 2 == 0
            && 32int / 4 % 2 == 0
            && 64int / 4 % 2 == 0
            && 128int / 4 % 2 == 0);
    } else if l == 3 {
        assert(p == 8);
        assert(240int / 8 % 2 == 0
            && 61440int / 8 % 2 == 0
            && 1int / 8 % 2 == 0
            && 2int / 8 % 2 == 0
            && 4int / 8 % 2 == 0
            && 8int / 8 % 2 == 1
            && 16int / 8 % 2 == 0
            && 32int / 8 % 2 == 0
            && 64int / 8 % 2 == 0
            && 128int / 8 % 2 == 0);
    } else if l == 4 {
        assert(p == 16);
        assert(240int / 16 % 2 == 1
            && 61440int / 16 % 2 == 0
            && 1int / 16 % 2 == 0
            && 2int / 16 % 2 == 0
            && 4int / 16 % 2 == 0
            && 8int / 16 % 2 == 0
            && 16int / 16 % 2 == 1
            && 32int / 16 % 2 == 0
            && 64int / 16 % 2 == 0
            && 128int / 16 % 2 == 0);
    } else if l == 5 {
        assert(p == 32);
        assert(240int / 32 % 2 == 1
            && 61440int / 32 % 2 == 0
            && 1int / 32 % 2 == 0
            && 2int / 32 % 2 == 0
            && 4int / 32 % 2 == 0
            && 8int / 32 % 2 == 0
            && 16int / 32 % 2 == 0
            && 32int / 32 % 2 == 1
            && 64int / 32 % 2 == 0
            && 128int / 32 % 2 == 0);
    } else if l == 6 {
        assert(p == 64);
        assert(240int / 64 % 2 == 1
            && 61440int / 64 % 2 == 0
            && 1int / 64 % 2 == 0
            && 2int / 64 % 2 == 0
            && 4int / 64 % 2 == 0
            && 8int / 64 % 2 == 0
            && 16int / 64 % 2 == 0
            && 32int / 64 % 2 == 0
            && 64int / 64 % 2 == 1
            && 128int / 64 % 2 == 0);
    } else if l == 7 {
        assert(p == 128);
        assert(240int / 128 % 2 == 1
            && 61440int / 128 % 2 == 0
            && 1int / 128 % 2 == 0
            && 2int / 128 % 2 == 0
            && 4int / 128 % 2 == 0
            && 8int / 128 % 2 == 0
            && 16int / 128 % 2 == 0
            && 32int / 128 % 2 == 0
            && 64int / 128 % 2 == 0
            && 128int / 128 % 2 == 1);
    } else if l == 8 {
        assert(p == 256);
        assert(240int / 256 % 2 == 0
            && 61440int / 256 % 2 == 0
            && 1int / 256 % 2 == 0
            && 2int / 256 % 2 == 0
            && 4int / 256 % 2 == 0
            && 8int / 256 % 2 == 0
            && 16int / 256 % 2 == 0
            && 32int / 256 % 2 == 0
            && 64int / 256 % 2 == 0
            && 128int / 256 % 2 == 0);
    } else if l == 9 {
        assert(p == 512);
        assert(240int / 512 % 2 == 0
            && 61440int / 512 % 2 == 0
            && 1int / 512 % 2 == 0
            && 2int / 512 % 2 == 0
            && 4int / 512 % 2 == 0
            && 8int / 512 % 2 == 0
            && 16int / 512 % 2 == 0
            && 32int / 512 % 2 == 0
            && 64int / 512 % 2 == 0
            && 128int / 512 % 2 == 0);
    } else if l == 10 {
        assert(p == 1024);
        assert(240int / 1024 % 2 == 0
            && 61440int / 1024 % 2 == 0
            && 1int / 1024 % 2 == 0
            && 2int / 1024 % 2 == 0
            && 4int / 1024 % 2 == 0
            && 8int / 1024 % 2 == 0
            && 16int / 1024 % 2 == 0
            && 32int / 1024 % 2 == 0
            && 64int / 1024 % 2 == 0
            && 128int / 1024 % 2 == 0);
    } else if l == 11 {
        assert(p == 2048);
        assert(240int / 2048 % 2 == 0
            && 61440int / 2048 % 2 == 0
            && 1int / 2048 % 2 == 0
            && 2int / 2048 % 2 == 0
            && 4int / 2048 % 2 == 0
            && 8int / 2048 % 2 == 0
            && 16int / 2048 % 2 == 0
            && 32int / 2048 % 2 == 0
            && 64int / 2048 % 2 == 0
            && 128int / 2048 % 2 == 0);
    } else if l == 12 {
        assert(p == 4096);
        assert(240int / 4096 % 2 == 0
            && 61440int / 4096 % 2 == 1
            && 1int / 4096 % 2 == 0
            && 2int / 4096 % 2 == 0
            && 4int / 4096 % 2 == 0
            && 8int / 4096 % 2 == 0
            && 16int / 4096 % 2 == 0
            && 32int / 4096 % 2 == 0
            && 64int / 4096 % 2 == 0
            && 128int / 4096 % 2 == 0);
    } else if l == 13 {
        assert(p == 8192);
        assert(240int / 8192 % 2 == 0
            && 61440int / 8192 % 2 == 1
            && 1int / 8192 % 2 == 0
            && 2int / 8192 % 2 == 0
            && 4int / 8192 % 2 == 0
            && 8int / 8192 % 2 == 0
            && 16int / 8192 % 2 == 0
            && 32int / 8192 % 2 == 0
            && 64int / 8192 % 2 == 0
            && 128int / 8192 % 2 == 0);
    } else if l == 14 {
        assert(p == 16384);
        assert(240int / 16384 % 2 == 0
            && 61440int / 16384 % 2 == 1
            && 1int / 16384 % 2 == 0
            && 2int / 16384 % 2 == 0
            && 4int / 16384 % 2 == 0
            && 8int / 16384 % 2 == 0
            && 16int / 16384 % 2 == 0
            && 32int / 16384 % 2 == 0
            && 64int / 16384 % 2 == 0
            && 128int / 16384 % 2 == 0);
    } else {
        assert(p == 32768);
        assert(240int / 32768 % 2 == 0
            && 61440int / 32768 % 2 == 1
            && 1int / 32768 % 2 == 0
            && 2int / 32768 % 2 == 0
            && 4int / 32768 % 2 == 0
            && 8int / 32768 % 2 == 0
            && 16int / 32768 % 2 == 0
            && 32int / 32768 % 2 == 0
            && 64int / 32768 % 2 == 0
            && 128int / 32768 % 2 == 0);
    }
}

/// The first part of the preparation of Q4_K and Q5_K: the two bytes of every
/// lane.
#[verifier::opaque]
pub open spec fn ops_k4_picked() -> Seq<Op> {
    Seq::<Op>::empty().push(op_low(16, 4, Conv::U8, true, false)).push(
        op_high(16, 4, Conv::U8, true, false),
    ).push(op_index(24, C_IDX_K4_P1)).push(op_perm(17, 24, 16)).push(
        op_index(24, C_IDX_K4_P2),
    ).push(op_perm(18, 24, 16))
}

/// What they are in each of the three forms.
#[verifier::opaque]
pub open spec fn ops_k4_three() -> Seq<Op> {
    Seq::<Op>::empty().push(op_with(Two::And, 19, 17, C_U_63)).push(
        op_with(Two::And, 20, 17, C_U_15),
    ).push(op_one(One::Shr(4), 21, 17)).push(op_with(Two::And, 22, 18, C_U_C0)).push(
        op_one(One::Shr(2), 22, 22),
    ).push(op_two(Two::Or, 20, 20, 22)).push(op_two(Two::Or, 21, 21, 22)).push(
        op_two(Two::Xor, 23, 23, 23),
    )
}

pub open spec fn ops_k4_forms() -> Seq<Op> {
    ops_k4_picked() + ops_k4_three()
}

/// The byte that holds most of lane `m`, and the one that holds its high bits.
pub open spec fn k4_main(blk: Seq<u8>, m: int) -> u8 {
    blk[4 + index(C_IDX_K4_P1 as int, m)]
}

pub open spec fn k4_high(blk: Seq<u8>, m: int) -> u8 {
    blk[4 + index(C_IDX_K4_P2 as int, m)]
}

proof fn lemma_k4_picked(u: Unit, g: Map<Gpr, int>, blk: Seq<u8>, m: int)
    requires
        exact(u.ar),
        holds(u, g, blk),
        blk.len() >= 144,
        stocked(u, g),
        0 <= m < 16,
    ensures
        ({
            let v = u.all(ops_k4_picked(), g);
            &&& v == (Unit { z: v.z, ..u })
            &&& v.z[Zmm(17)][m] == Lane::Bits(k4_main(blk, m) as u32)
            &&& v.z[Zmm(18)][m] == Lane::Bits(k4_high(blk, m) as u32)
            &&& forall|r: Zmm| r.0 < 16 ==> #[trigger] v.z[r] == u.z[r]
        }),
{
    broadcast use Unit::lemma_push;

    reveal(ops_k4_picked);
    assert(u.all(Seq::<Op>::empty(), g) == u);
    let u1 = u.did(op_low(16, 4, Conv::U8, true, false), g).did(
        op_high(16, 4, Conv::U8, true, false),
        g,
    );
    lemma_unpacked(u, g, 16, 4, Conv::U8, true);
    let u2 = u1.did(op_index(24, C_IDX_K4_P1), g).did(op_perm(17, 24, 16), g);
    lemma_picked(u1, g, 24, C_IDX_K4_P1, 17, 16);
    let u3 = u2.did(op_index(24, C_IDX_K4_P2), g).did(op_perm(18, 24, 16), g);
    lemma_picked(u2, g, 24, C_IDX_K4_P2, 18, 16);
    assert(u3 == u.all(ops_k4_picked(), g));
    let (p1, p2) = (index(C_IDX_K4_P1 as int, m), index(C_IDX_K4_P2 as int, m));
    quant_runs::lemma_byte(u, g, blk, 4 + p1);
    quant_runs::lemma_byte(u, g, blk, 4 + p2);
    assert(u1.z[Zmm(16)][p1] == (u.mem)(Form::IntByte, g[BLK] + 4 + p1));
    assert(u1.z[Zmm(16)][p2] == (u.mem)(Form::IntByte, g[BLK] + 4 + p2));
    assert(u2.z[Zmm(16)] == u1.z[Zmm(16)]);
    assert(u3.z[Zmm(17)] == u2.z[Zmm(17)]);
    assert forall|r: Zmm| r.0 < 16 implies #[trigger] u3.z[r] == u.z[r] by {
        assert(u1.z[r] == u.z[r]);
        assert(u2.z[r] == u1.z[r]);
    }
}

proof fn lemma_k4_three(u: Unit, g: Map<Gpr, int>, m: int, b: u32, h: u32)
    requires
        exact(u.ar),
        integer_is(u, g, C_U_63 as int, 63),
        integer_is(u, g, C_U_15 as int, 15),
        integer_is(u, g, C_U_C0 as int, 0xc0),
        0 <= m < 16,
        u.z[Zmm(17)][m] == Lane::Bits(b),
        u.z[Zmm(18)][m] == Lane::Bits(h),
    ensures
        ({
            let v = u.all(ops_k4_three(), g);
            &&& v == (Unit { z: v.z, ..u })
            &&& v.z[Zmm(19)][m] == Lane::Bits(b & 63)
            &&& v.z[Zmm(20)][m] == Lane::Bits((b & 15) | ((h & 0xc0) >> 2u8))
            &&& v.z[Zmm(21)][m] == Lane::Bits((b >> 4u8) | ((h & 0xc0) >> 2u8))
            &&& v.z[Zmm(23)][m] == Lane::Bits(0)
            &&& forall|r: Zmm| r.0 < 16 ==> #[trigger] v.z[r] == u.z[r]
        }),
{
    broadcast use Mem::lemma_at;
    broadcast use Unit::lemma_push;

    reveal(ops_k4_three);
    assert(u.all(Seq::<Op>::empty(), g) == u);
    let u4 = u.did(op_with(Two::And, 19, 17, C_U_63), g);
    lemma_did(u, g, op_with(Two::And, 19, 17, C_U_63));
    assert(u4.z[Zmm(19)][m] == u.value(op_with(Two::And, 19, 17, C_U_63), g, m));
    let u5 = u4.did(op_with(Two::And, 20, 17, C_U_15), g);
    lemma_did(u4, g, op_with(Two::And, 20, 17, C_U_15));
    assert(u5.z[Zmm(20)][m] == u4.value(op_with(Two::And, 20, 17, C_U_15), g, m));
    let u6 = u5.did(op_one(One::Shr(4), 21, 17), g);
    lemma_did(u5, g, op_one(One::Shr(4), 21, 17));
    assert(u6.z[Zmm(21)][m] == u5.value(op_one(One::Shr(4), 21, 17), g, m));
    let u7 = u6.did(op_with(Two::And, 22, 18, C_U_C0), g);
    lemma_did(u6, g, op_with(Two::And, 22, 18, C_U_C0));
    assert(u7.z[Zmm(22)][m] == u6.value(op_with(Two::And, 22, 18, C_U_C0), g, m));
    let u8 = u7.did(op_one(One::Shr(2), 22, 22), g);
    lemma_did(u7, g, op_one(One::Shr(2), 22, 22));
    assert(u8.z[Zmm(22)][m] == u7.value(op_one(One::Shr(2), 22, 22), g, m));
    assert(u8.z[Zmm(22)][m] == Lane::Bits((h & 0xc0) >> 2u8));
    let u9 = u8.did(op_two(Two::Or, 20, 20, 22), g);
    lemma_did(u8, g, op_two(Two::Or, 20, 20, 22));
    assert(u9.z[Zmm(20)][m] == u8.value(op_two(Two::Or, 20, 20, 22), g, m));
    let u10 = u9.did(op_two(Two::Or, 21, 21, 22), g);
    lemma_did(u9, g, op_two(Two::Or, 21, 21, 22));
    assert(u10.z[Zmm(21)][m] == u9.value(op_two(Two::Or, 21, 21, 22), g, m));
    let v = u10.did(op_two(Two::Xor, 23, 23, 23), g);
    lemma_did(u10, g, op_two(Two::Xor, 23, 23, 23));
    assert(v.z[Zmm(23)][m] == u10.value(op_two(Two::Xor, 23, 23, 23), g, m));
    assert(v == u.all(ops_k4_three(), g));
    assert forall|r: Zmm| r.0 < 16 implies #[trigger] v.z[r] == u.z[r] by {
        assert(u4.z[r] == u.z[r]);
        assert(u5.z[r] == u4.z[r]);
        assert(u6.z[r] == u5.z[r]);
        assert(u7.z[r] == u6.z[r]);
        assert(u8.z[r] == u7.z[r]);
        assert(u9.z[r] == u8.z[r]);
        assert(u10.z[r] == u9.z[r]);
    }
}

proof fn lemma_k4_forms(u: Unit, g: Map<Gpr, int>, blk: Seq<u8>, m: int)
    requires
        exact(u.ar),
        holds(u, g, blk),
        blk.len() >= 144,
        stocked(u, g),
        0 <= m < 16,
    ensures
        ({
            let v = u.all(ops_k4_forms(), g);
            let (b, h) = (k4_main(blk, m) as u32, k4_high(blk, m) as u32);
            &&& v == (Unit { z: v.z, ..u })
            &&& v.z[Zmm(19)][m] == Lane::Bits(b & 63)
            &&& v.z[Zmm(20)][m] == Lane::Bits((b & 15) | ((h & 0xc0) >> 2u8))
            &&& v.z[Zmm(21)][m] == Lane::Bits((b >> 4u8) | ((h & 0xc0) >> 2u8))
            &&& v.z[Zmm(23)][m] == Lane::Bits(0)
            &&& forall|r: Zmm| r.0 < 16 ==> #[trigger] v.z[r] == u.z[r]
        }),
{
    u.lemma_parts(ops_k4_picked(), ops_k4_three(), g);
    lemma_k4_picked(u, g, blk, m);
    let u3 = u.all(ops_k4_picked(), g);
    lemma_k4_three(u3, g, m, k4_main(blk, m) as u32, k4_high(blk, m) as u32);
    let v = u3.all(ops_k4_three(), g);
    assert forall|r: Zmm| r.0 < 16 implies #[trigger] v.z[r] == u.z[r] by {
        assert(u3.z[r] == u.z[r]);
    }
}

/// One of the forms kept, where the mask in rax has it.
pub open spec fn ops_kept(b: u8) -> Seq<Op> {
    Seq::<Op>::empty().push(Op::Mask { g: Gpr::Rax }).push(
        Op::Two { f: Two::Or, z: Zmm(19), a: Zmm(b), b: Src::Reg(Zmm(23)), masked: true },
    )
}

proof fn lemma_kept(u: Unit, g: Map<Gpr, int>, b: u8, m: int, x: u32)
    requires
        exact(u.ar),
        16 <= b < 32,
        0 <= m < 16,
        u.z[Zmm(b)][m] == Lane::Bits(x),
        u.z[Zmm(23)][m] == Lane::Bits(0),
    ensures
        ({
            let v = u.all(ops_kept(b), g);
            &&& v == (Unit { z: v.z, k1: v.k1, ..u })
            &&& v.z[Zmm(19)][m] == (if vector::bit(g[Gpr::Rax], m) {
                Lane::Bits(x | 0)
            } else {
                u.z[Zmm(19)][m]
            })
            &&& forall|r: Zmm| r != Zmm(19) ==> #[trigger] v.z[r] == u.z[r]
        }),
{
    broadcast use Unit::lemma_push;

    assert(u.all(Seq::<Op>::empty(), g) == u);
    let u1 = u.did(Op::Mask { g: Gpr::Rax }, g);
    let op = Op::Two { f: Two::Or, z: Zmm(19), a: Zmm(b), b: Src::Reg(Zmm(23)), masked: true };
    let v = u1.did(op, g);
    lemma_did(u1, g, op);
    assert(v == u.all(ops_kept(b), g));
    assert(v.z[Zmm(19)][m] == u1.value(op, g, m));
}

/// The last part: as numbers, times `d` or `dmin`, into the table.
#[verifier::opaque]
pub open spec fn ops_k4_scaled() -> Seq<Op> {
    Seq::<Op>::empty().push(op_one(One::Number, 19, 19)).push(
        op_low(25, 0, Conv::F16, false, false),
    ).push(op_high(25, 0, Conv::F16, false, false)).push(op_index(24, C_IDX_D_DMIN)).push(
        op_perm(26, 24, 25),
    ).push(op_two(Two::Mul, 19, 19, 26))
}

proof fn lemma_k4_scaled(u: Unit, g: Map<Gpr, int>, d: real, dmin: real, x: spec_fn(int) -> u32)
    requires
        exact(u.ar),
        stocked(u, g),
        (u.mem)(Form::Half, g[BLK] + 0) == Lane::Num(d),
        (u.mem)(Form::Half, g[BLK] + 2) == Lane::Num(dmin),
        forall|m: int|
            0 <= m < 16 ==> #[trigger] u.z[Zmm(19)][m] == Lane::Bits(x(m)) && x(m) < 256,
    ensures
        ({
            let v = u.all(ops_k4_scaled(), g);
            &&& v == (Unit { z: v.z, ..u })
            &&& forall|m: int|
                0 <= m < 16 ==> #[trigger] v.z[Zmm(19)][m] == Lane::Num(
                    (if m < 8 {
                        d
                    } else {
                        dmin
                    }) * (x(m) as int as real),
                )
            &&& forall|r: Zmm| r.0 < 16 ==> #[trigger] v.z[r] == u.z[r]
        }),
{
    broadcast use Mem::lemma_at;
    broadcast use Unit::lemma_push;

    reveal(ops_k4_scaled);
    assert(u.all(Seq::<Op>::empty(), g) == u);
    let o1 = op_one(One::Number, 19, 19);
    let u1 = u.did(o1, g);
    lemma_did(u, g, o1);
    let u2 = u1.did(op_low(25, 0, Conv::F16, false, false), g).did(
        op_high(25, 0, Conv::F16, false, false),
        g,
    );
    lemma_unpacked(u1, g, 25, 0, Conv::F16, false);
    let u3 = u2.did(op_index(24, C_IDX_D_DMIN), g).did(op_perm(26, 24, 25), g);
    lemma_picked(u2, g, 24, C_IDX_D_DMIN, 26, 25);
    let o4 = op_two(Two::Mul, 19, 19, 26);
    let v = u3.did(o4, g);
    lemma_did(u3, g, o4);
    assert(v == u.all(ops_k4_scaled(), g));
    assert forall|m: int| 0 <= m < 16 implies #[trigger] v.z[Zmm(19)][m] == Lane::Num(
        (if m < 8 {
            d
        } else {
            dmin
        }) * (x(m) as int as real),
    ) by {
        assert(u.z[Zmm(19)][m] == Lane::Bits(x(m)));
        assert(u1.z[Zmm(19)][m] == u.value(o1, g, m));
        assert(u1.z[Zmm(19)][m] == whole(x(m) as int));
        assert(u2.z[Zmm(25)][0] == (u.mem)(Form::Half, g[BLK] + 0));
        assert(u2.z[Zmm(25)][1] == (u.mem)(Form::Half, g[BLK] + 2));
        let k = index(C_IDX_D_DMIN as int, m);
        assert(u3.z[Zmm(26)][m] == u2.z[Zmm(25)][k]);
        assert(v.z[Zmm(19)][m] == u3.value(o4, g, m));
        let (a, y) = (
            if m < 8 {
                d
            } else {
                dmin
            },
            x(m) as int as real,
        );
        assert(y * a == a * y) by (nonlinear_arith);
    }
    assert forall|r: Zmm| r.0 < 16 implies #[trigger] v.z[r] == u.z[r] by {
        assert(u1.z[r] == u.z[r]);
        assert(u2.z[r] == u1.z[r]);
        assert(u3.z[r] == u2.z[r]);
    }
}

/// Both halves of the lanes expanded into the table.
pub open spec fn ops_k4_table() -> Seq<Op> {
    ops_expanded(19, C_IDX_EXPAND, TAB_SC) + ops_expanded(19, C_IDX_EXPAND_HI, TAB_MN)
}

proof fn lemma_k4_table(u: Unit, g: Map<Gpr, int>, len: int)
    requires
        stocked(u, g),
        table_apart(g, len),
    ensures
        ({
            let v = u.all(ops_k4_table(), g);
            &&& tabling(u, v, g)
            &&& forall|w: int|
                0 <= w < 16 ==> #[trigger] scale_at(v, g, w) == u.z[Zmm(19)][w / 2] && minuend_at(
                    v,
                    g,
                    w,
                ) == u.z[Zmm(19)][8 + w / 2]
        }),
{
    let (a, b) = (
        ops_expanded(19, C_IDX_EXPAND, TAB_SC),
        ops_expanded(19, C_IDX_EXPAND_HI, TAB_MN),
    );
    u.lemma_parts(a, b, g);
    lemma_expanded(u, g, 19, C_IDX_EXPAND, TAB_SC);
    let m = u.all(a, g);
    assert(indexed(m, g, C_IDX_EXPAND_HI as int)) by {
        assert forall|k: int| 0 <= k < 16 implies (m.mem)(
            Form::Word,
            g[CONSTS] + C_IDX_EXPAND_HI + 4 * k,
        ) == Lane::Bits(#[trigger] index(C_IDX_EXPAND_HI as int, k) as u32) by {
            let at = g[CONSTS] + C_IDX_EXPAND_HI + 4 * k;
            assert((m.mem)(Form::Word, at) == (u.mem)(Form::Word, at));
        }
    }
    lemma_expanded(m, g, 19, C_IDX_EXPAND_HI, TAB_MN);
    let v = m.all(b, g);
    assert forall|w: int| 0 <= w < 16 implies #[trigger] scale_at(v, g, w) == u.z[Zmm(19)][w / 2]
        && minuend_at(v, g, w) == u.z[Zmm(19)][8 + w / 2] by {
        assert(index(C_IDX_EXPAND as int, w) == w / 2);
        assert(index(C_IDX_EXPAND_HI as int, w) == 8 + w / 2);
        let at = g[TAB] + TAB_SC + 4 * w;
        assert((v.mem)(Form::Word, at) == (m.mem)(Form::Word, at));
        assert(m.z[Zmm(19)] == u.z[Zmm(19)]);
    }
    assert forall|r: Zmm| r.0 < 16 implies #[trigger] v.z[r] == u.z[r] by {
        assert(m.z[r] == u.z[r]);
    }
    assert forall|f: Form, b: int|
        b + f.width() <= g[TAB] || g[TAB] + TAB_BYTES <= b implies #[trigger] (v.mem)(f, b) == (
    u.mem)(f, b) by {
        assert((m.mem)(f, b) == (u.mem)(f, b));
    }
}

/// The unit after the preparation of Q4_K and Q5_K.
pub open spec fn after_k4(u: Unit, g: Map<Gpr, int>) -> Unit {
    u.all(ops_k4_forms(), g).all(ops_kept(20), with_rax(g, 240)).all(
        ops_kept(21) + ops_k4_scaled() + ops_k4_table(),
        with_rax(g, 61440),
    )
}

/// Lane `m` of the scales and minimums, as an integer.
spec fn k4_lane(blk: Seq<u8>, m: int) -> u32 {
    let (b, h) = (k4_main(blk, m) as u32, k4_high(blk, m) as u32);
    if 4 <= m < 8 {
        ((b & 15) | ((h & 0xc0) >> 2u8)) | 0
    } else if 12 <= m < 16 {
        ((b >> 4u8) | ((h & 0xc0) >> 2u8)) | 0
    } else {
        b & 63
    }
}

/// The scales and minimums are those of the format.
proof fn lemma_k4_lane(fmt: u32, blk: Seq<u8>, m: int)
    requires
        fmt == MM_Q4_K || fmt == MM_Q5_K,
        blk.len() >= 144,
        0 <= m < 16,
    ensures
        k4_lane(blk, m) < 256,
        m < 8 ==> k4_lane(blk, m) == weight_at(fmt, blk, 32 * m).scale,
        m >= 8 ==> k4_lane(blk, m) == weight_at(fmt, blk, 32 * (m - 8)).min,
{
    let (b, h) = (k4_main(blk, m), k4_high(blk, m));
    weights::lemma_bytes(b, h, 0);
    let j = m % 8;
    let q = blk.skip(4);
    assert(32 * j / 32 == j);
    let sm = weights::spec_scale_min_k4(j, q);
    assert(b == q[index(C_IDX_K4_P1 as int, m)]);
    assert(h == q[index(C_IDX_K4_P2 as int, m)]);
    let x = (b & 0xf) | ((h >> 6) << 4);
    let y = (b >> 4) | ((h >> 6) << 4);
    weights::lemma_bytes(x, x, 0);
    weights::lemma_bytes(y, y, 0);
}

/// Q4_K's and Q5_K's table: eight scales times `d` and eight minimums times
/// `dmin`, each for two vectors.
pub proof fn lemma_prep_k4(
    u: Unit,
    g: Map<Gpr, int>,
    fmt: u32,
    blk: Seq<u8>,
    d: real,
    dmin: real,
)
    requires
        fmt == MM_Q4_K || fmt == MM_Q5_K,
        exact(u.ar),
        holds(u, g, blk),
        blk.len() >= 144,
        stocked(u, g),
        table_apart(g, blk.len() as int),
        (u.mem)(Form::Half, g[BLK] + 0) == Lane::Num(d),
        (u.mem)(Form::Half, g[BLK] + 2) == Lane::Num(dmin),
    ensures
        tabling(u, after_k4(u, g), g),
        quant_runs::tabled(after_k4(u, g), g, fmt, blk, |v: int| d, dmin),
{
    let (g1, g2) = (with_rax(g, 240), with_rax(g, 61440));
    let u1 = u.all(ops_k4_forms(), g);
    let u2 = u1.all(ops_kept(20), g1);
    let (a, b, c) = (ops_kept(21), ops_k4_scaled(), ops_k4_table());
    u2.lemma_parts(a + b, c, g2);
    u2.lemma_parts(a, b, g2);
    let u3 = u2.all(a, g2);
    let u4 = u3.all(b, g2);
    let v = u4.all(c, g2);
    assert(v == after_k4(u, g));
    lemma_k4_forms(u, g, blk, 0);
    let x = |m: int| k4_lane(blk, m);
    lemma_kept_all(u, g, blk);
    assert forall|m: int| 0 <= m < 16 implies #[trigger] u3.z[Zmm(19)][m] == Lane::Bits(x(m)) && x(m)
        < 256 by {
        lemma_k4_lane(fmt, blk, m);
    }
    lemma_k4_scaled(u3, g2, d, dmin, x);
    lemma_k4_table(u4, g2, blk.len() as int);
    assert forall|w: int| 0 <= w < 16 implies #[trigger] scale_at(v, g, w) == Lane::Num(
        d * (weight_at(fmt, blk, 16 * w).scale as real),
    ) && minuend_at(v, g, w) == Lane::Num(
        dmin * (weight_at(fmt, blk, 16 * w).min as real) + d * (weight_at(
            fmt,
            blk,
            16 * w,
        ).scale as real) * (0int as real),
    ) by {
        let j = w / 2;
        assert(scale_at(v, g, w) == scale_at(v, g2, w));
        assert(minuend_at(v, g, w) == minuend_at(v, g2, w));
        assert(u4.z[Zmm(19)][j] == Lane::Num(d * (x(j) as int as real)));
        assert(u4.z[Zmm(19)][8 + j] == Lane::Num(dmin * (x(8 + j) as int as real)));
        lemma_k4_lane(fmt, blk, j);
        lemma_k4_lane(fmt, blk, 8 + j);
        lemma_same_sub_block(fmt, blk, w);
        let y = d * (weight_at(fmt, blk, 16 * w).scale as real);
        assert(y * (0int as real) == (0int as real)) by (nonlinear_arith);
    }
    assert(tabling(u, v, g)) by {
        assert forall|r: Zmm| r.0 < 16 implies #[trigger] v.z[r] == u.z[r] by {
            assert(u3.z[r] == u.z[r]);
            assert(u4.z[r] == u3.z[r]);
        }
        assert forall|f: Form, b: int|
            b + f.width() <= g[TAB] || g[TAB] + TAB_BYTES <= b implies #[trigger] (v.mem)(f, b) == (
        u.mem)(f, b) by {
            assert((v.mem)(f, b) == (u4.mem)(f, b));
        }
    }
}

/// Two vectors to a sub-block.
proof fn lemma_same_sub_block(fmt: u32, blk: Seq<u8>, w: int)
    requires
        fmt == MM_Q4_K || fmt == MM_Q5_K,
        0 <= w < 16,
    ensures
        weight_at(fmt, blk, 16 * w).scale == weight_at(fmt, blk, 32 * (w / 2)).scale,
        weight_at(fmt, blk, 16 * w).min == weight_at(fmt, blk, 32 * (w / 2)).min,
{
    assert(16 * w / 32 == w / 2);
    assert(32 * (w / 2) / 32 == w / 2);
}

/// Every lane has the form that is its own.
proof fn lemma_kept_all(u: Unit, g: Map<Gpr, int>, blk: Seq<u8>)
    requires
        exact(u.ar),
        holds(u, g, blk),
        blk.len() >= 144,
        stocked(u, g),
    ensures
        ({
            let v = u.all(ops_k4_forms(), g).all(ops_kept(20), with_rax(g, 240)).all(
                ops_kept(21),
                with_rax(g, 61440),
            );
            &&& v == (Unit { z: v.z, k1: v.k1, ..u })
            &&& forall|m: int| 0 <= m < 16 ==> #[trigger] v.z[Zmm(19)][m] == Lane::Bits(k4_lane(blk, m))
            &&& forall|r: Zmm| r.0 < 16 ==> #[trigger] v.z[r] == u.z[r]
        }),
{
    let (g1, g2) = (with_rax(g, 240), with_rax(g, 61440));
    let u1 = u.all(ops_k4_forms(), g);
    let u2 = u1.all(ops_kept(20), g1);
    let v = u2.all(ops_kept(21), g2);
    assert forall|m: int| 0 <= m < 16 implies #[trigger] v.z[Zmm(19)][m] == Lane::Bits(
        k4_lane(blk, m),
    ) by {
        lemma_k4_forms(u, g, blk, m);
        let (b, h) = (k4_main(blk, m) as u32, k4_high(blk, m) as u32);
        lemma_kept(u1, g1, 20, m, (b & 15) | ((h & 0xc0) >> 2u8));
        lemma_kept(u2, g2, 21, m, (b >> 4u8) | ((h & 0xc0) >> 2u8));
        lemma_bits(m);
    }
    lemma_k4_forms(u, g, blk, 0);
    let (b, h) = (k4_main(blk, 0) as u32, k4_high(blk, 0) as u32);
    lemma_kept(u1, g1, 20, 0, (b & 15) | ((h & 0xc0) >> 2u8));
    lemma_kept(u2, g2, 21, 0, (b >> 4u8) | ((h & 0xc0) >> 2u8));
    assert forall|r: Zmm| r.0 < 16 implies #[trigger] v.z[r] == u.z[r] by {
        assert(u1.z[r] == u.z[r]);
        assert(u2.z[r] == u1.z[r]);
    }
}

/// Lane `i` of the `d`s of eight Q8_0 blocks, under a mask that has it alone.
pub open spec fn ops_q8_0_lane(i: int) -> Seq<Op> {
    Seq::<Op>::empty().push(Op::Mask { g: Gpr::Rax }).push(
        op_low(16, 34 * i, Conv::F16, false, true),
    ).push(op_high(16, 34 * i, Conv::F16, false, true))
}

proof fn lemma_rank(k: spec_fn(int) -> bool, l: int)
    requires
        forall|j: int| 0 <= j < l ==> !#[trigger] k(j),
    ensures
        vector::rank(k, l) == 0,
    decreases l,
{
    if l > 0 {
        lemma_rank(k, l - 1);
        assert(!k(l - 1));
    }
}

proof fn lemma_q8_0_lane(u: Unit, g: Map<Gpr, int>, i: int)
    requires
        0 <= i < 8,
        forall|l: int| 0 <= l < 16 ==> #[trigger] vector::bit(g[Gpr::Rax], l) == (l == i),
    ensures
        ({
            let v = u.all(ops_q8_0_lane(i), g);
            &&& v == (Unit { z: v.z, k1: v.k1, ..u })
            &&& v.z[Zmm(16)][i] == (u.mem)(Form::Half, g[BLK] + 34 * i)
            &&& forall|l: int| 0 <= l < 16 && l != i ==> #[trigger] v.z[Zmm(16)][l] == u.z[Zmm(16)][l]
            &&& forall|r: Zmm| r != Zmm(16) ==> #[trigger] v.z[r] == u.z[r]
        }),
{
    broadcast use Mem::lemma_at;
    broadcast use Unit::lemma_push;

    assert(u.all(Seq::<Op>::empty(), g) == u);
    let u1 = u.did(Op::Mask { g: Gpr::Rax }, g);
    let (a, b) = (op_low(16, 34 * i, Conv::F16, false, true), op_high(16, 34 * i, Conv::F16, false, true));
    let u2 = u1.did(a, g);
    let v = u2.did(b, g);
    lemma_did(u1, g, a);
    lemma_did(u2, g, b);
    assert(v == u.all(ops_q8_0_lane(i), g));
    assert forall|l: int| 0 <= l < 16 implies #[trigger] (u1.k1)(l) == (l == i) by {
        assert(vector::bit(g[Gpr::Rax], l) == (l == i));
    }
    lemma_rank(u1.k1, i);
    assert(v.z[Zmm(16)][i] == u2.value(b, g, i));
    assert(u2.z[Zmm(16)][i] == u1.value(a, g, i));
    assert((g[BLK] + 34 * i) % 64 < 64 && (g[BLK] + 34 * i + 64) % 64 < 64);
    assert forall|l: int| 0 <= l < 16 && l != i implies #[trigger] v.z[Zmm(16)][l] == u.z[Zmm(16)][l] by {
        assert(!(u1.k1)(l));
        assert(v.z[Zmm(16)][l] == u2.value(b, g, l));
        assert(u2.z[Zmm(16)][l] == u1.value(a, g, l));
    }
}

/// The mask that has lane `i` alone.
pub open spec fn lane_mask(i: int) -> int {
    if i == 0 {
        1
    } else if i == 1 {
        2
    } else if i == 2 {
        4
    } else if i == 3 {
        8
    } else if i == 4 {
        16
    } else if i == 5 {
        32
    } else if i == 6 {
        64
    } else {
        128
    }
}

/// The unit after the first `n` lanes.
pub open spec fn after_lanes(u: Unit, g: Map<Gpr, int>, n: int) -> Unit
    decreases n,
{
    if n <= 0 {
        u
    } else {
        after_lanes(u, g, n - 1).all(ops_q8_0_lane(n - 1), with_rax(g, lane_mask(n - 1)))
    }
}

proof fn lemma_lanes(u: Unit, g: Map<Gpr, int>, d: spec_fn(int) -> real, n: int)
    requires
        0 <= n <= 8,
        forall|i: int| 0 <= i < 8 ==> (u.mem)(Form::Half, g[BLK] + 34 * i) == Lane::Num(#[trigger] d(i)),
    ensures
        ({
            let v = after_lanes(u, g, n);
            &&& v == (Unit { z: v.z, k1: v.k1, ..u })
            &&& forall|i: int| 0 <= i < n ==> #[trigger] v.z[Zmm(16)][i] == Lane::Num(d(i))
            &&& forall|r: Zmm| r != Zmm(16) ==> #[trigger] v.z[r] == u.z[r]
        }),
    decreases n,
{
    if n > 0 {
        let i = n - 1;
        lemma_lanes(u, g, d, i);
        let m = after_lanes(u, g, i);
        let g1 = with_rax(g, lane_mask(i));
        assert forall|l: int| 0 <= l < 16 implies #[trigger] vector::bit(g1[Gpr::Rax], l) == (l
            == i) by {
            lemma_bits(l);
        }
        lemma_q8_0_lane(m, g1, i);
        let v = m.all(ops_q8_0_lane(i), g1);
        assert((u.mem)(Form::Half, g[BLK] + 34 * i) == Lane::Num(d(i)));
        assert forall|k: int| 0 <= k < n implies #[trigger] v.z[Zmm(16)][k] == Lane::Num(d(k)) by {
            if k < i {
                assert(v.z[Zmm(16)][k] == m.z[Zmm(16)][k]);
            }
        }
        assert forall|r: Zmm| r != Zmm(16) implies #[trigger] v.z[r] == u.z[r] by {
            assert(m.z[r] == u.z[r]);
        }
    }
}

/// The unit after the preparation of Q8_0.
pub open spec fn after_q8_0(u: Unit, g: Map<Gpr, int>) -> Unit {
    after_lanes(u.did(op_two(Two::Xor, 16, 16, 16), g), g, 8).all(
        ops_expanded(16, C_IDX_EXPAND, TAB_SC),
        with_rax(g, 128),
    )
}

/// Q8_0's table: the `d` of every block, for both its vectors.
pub proof fn lemma_prep_q8_0(u: Unit, g: Map<Gpr, int>, blk: Seq<u8>, d: spec_fn(int) -> real)
    requires
        exact(u.ar),
        blk.len() == 272,
        stocked(u, g),
        table_apart(g, 272),
        forall|i: int| 0 <= i < 8 ==> (u.mem)(Form::Half, g[BLK] + 34 * i) == Lane::Num(#[trigger] d(i)),
    ensures
        tabling(u, after_q8_0(u, g), g),
        quant_runs::tabled(after_q8_0(u, g), g, MM_Q8_0, blk, |v: int| d(v / 2), 0int as real),
{
    let o = op_two(Two::Xor, 16, 16, 16);
    let u1 = u.did(o, g);
    lemma_did(u, g, o);
    lemma_lanes(u1, g, d, 8);
    let u2 = after_lanes(u1, g, 8);
    let g1 = with_rax(g, 128);
    assert(indexed(u2, g1, C_IDX_EXPAND as int)) by {
        assert forall|k: int| 0 <= k < 16 implies (u2.mem)(
            Form::Word,
            g1[CONSTS] + C_IDX_EXPAND + 4 * k,
        ) == Lane::Bits(#[trigger] index(C_IDX_EXPAND as int, k) as u32) by {
            assert(indexed(u, g, C_IDX_EXPAND as int));
        }
    }
    lemma_expanded(u2, g1, 16, C_IDX_EXPAND, TAB_SC);
    let v = after_q8_0(u, g);
    assert forall|w: int| 0 <= w < 16 implies #[trigger] scale_at(v, g, w) == Lane::Num(
        d(w / 2) * (weight_at(MM_Q8_0, blk, 16 * w).scale as real),
    ) by {
        assert(index(C_IDX_EXPAND as int, w) == w / 2);
        assert(u2.z[Zmm(16)][w / 2] == Lane::Num(d(w / 2)));
        let x = d(w / 2);
        assert(x * (1int as real) == x) by (nonlinear_arith);
        assert(weight_at(MM_Q8_0, blk, 16 * w).scale == 1);
    }
    assert forall|r: Zmm| r.0 < 16 implies #[trigger] v.z[r] == u.z[r] by {
        assert(u1.z[r] == u.z[r]);
        assert(u2.z[r] == u1.z[r]);
    }
}

/// The scales of IQ4_XS as integers.
#[verifier::opaque]
pub open spec fn ops_iq4xs_low() -> Seq<Op> {
    Seq::<Op>::empty().push(op_low(16, 2, Conv::U8, true, false)).push(
        op_high(16, 2, Conv::U8, true, false),
    ).push(op_index(17, C_IDX_SL)).push(op_perm(18, 17, 16)).push(
        Op::Two {
            f: Two::Shrv,
            z: Zmm(19),
            a: Zmm(18),
            b: Src::Mem(Mem::at(CONSTS, C_SHIFT_L)),
            masked: false,
        },
    ).push(op_with(Two::And, 19, 19, C_U_15))
}

#[verifier::opaque]
pub open spec fn ops_iq4xs_high() -> Seq<Op> {
    Seq::<Op>::empty().push(op_index(17, C_IDX_ZERO)).push(op_perm(20, 17, 16)).push(
        op_index(17, C_IDX_ONE),
    ).push(op_perm(21, 17, 16)).push(op_one(One::Shl(8), 21, 21)).push(
        op_two(Two::Or, 20, 20, 21),
    ).push(
        Op::Two {
            f: Two::Shrv,
            z: Zmm(22),
            a: Zmm(20),
            b: Src::Mem(Mem::at(CONSTS, C_SHIFT_H)),
            masked: false,
        },
    ).push(op_with(Two::And, 22, 22, C_U_3)).push(op_one(One::Shl(4), 22, 22)).push(
        op_two(Two::Or, 19, 19, 22),
    )
}

/// As numbers, less 32, times `d`.
#[verifier::opaque]
pub open spec fn ops_iq4xs_scaled() -> Seq<Op> {
    Seq::<Op>::empty().push(op_with(Two::IntSub, 19, 19, C_U_32)).push(
        op_one(One::Number, 19, 19),
    ).push(op_low(23, 0, Conv::F16, false, false)).push(
        op_high(23, 0, Conv::F16, false, false),
    ).push(op_index(17, C_IDX_ZERO)).push(op_perm(24, 17, 23)).push(op_two(Two::Mul, 19, 19, 24))
}

/// The preparation of IQ4_XS.
pub open spec fn ops_iq4xs() -> Seq<Op> {
    ops_iq4xs_low() + ops_iq4xs_high() + ops_iq4xs_scaled() + ops_expanded(
        19,
        C_IDX_EXPAND,
        TAB_SC,
    )
}

/// The low four bits of scale `m`.
spec fn low_part(blk: Seq<u8>, m: int) -> u8 {
    weights::nibble(blk[4 + m / 2], m % 2 == 1)
}

/// The high two bits of scale `m`.
spec fn high_part(blk: Seq<u8>, m: int) -> u8 {
    (blk[2 + m / 4] >> ((2 * (m % 4)) as u8)) & 3
}

proof fn lemma_iq4xs_low(u: Unit, g: Map<Gpr, int>, blk: Seq<u8>)
    requires
        exact(u.ar),
        holds(u, g, blk),
        blk.len() == 136,
        stocked(u, g),
    ensures
        ({
            let v = u.all(ops_iq4xs_low(), g);
            &&& v == (Unit { z: v.z, ..u })
            &&& forall|m: int|
                0 <= m < 8 ==> #[trigger] v.z[Zmm(19)][m] == Lane::Bits(low_part(blk, m) as u32)
            &&& forall|m: int|
                0 <= m < 16 ==> #[trigger] v.z[Zmm(16)][m] == Lane::Bits(blk[2 + m] as u32)
            &&& forall|r: Zmm| r.0 < 16 ==> #[trigger] v.z[r] == u.z[r]
        }),
{
    broadcast use Mem::lemma_at;
    broadcast use Unit::lemma_push;

    reveal(ops_iq4xs_low);
    assert(u.all(Seq::<Op>::empty(), g) == u);
    let u1 = u.did(op_low(16, 2, Conv::U8, true, false), g).did(
        op_high(16, 2, Conv::U8, true, false),
        g,
    );
    lemma_unpacked(u, g, 16, 2, Conv::U8, true);
    let u2 = u1.did(op_index(17, C_IDX_SL), g).did(op_perm(18, 17, 16), g);
    lemma_picked(u1, g, 17, C_IDX_SL, 18, 16);
    let o3 = Op::Two {
        f: Two::Shrv,
        z: Zmm(19),
        a: Zmm(18),
        b: Src::Mem(Mem::at(CONSTS, C_SHIFT_L)),
        masked: false,
    };
    let u3 = u2.did(o3, g);
    lemma_did(u2, g, o3);
    let o4 = op_with(Two::And, 19, 19, C_U_15);
    let v = u3.did(o4, g);
    lemma_did(u3, g, o4);
    assert(v == u.all(ops_iq4xs_low(), g));
    assert forall|m: int| 0 <= m < 16 implies #[trigger] v.z[Zmm(16)][m] == Lane::Bits(
        blk[2 + m] as u32,
    ) by {
        quant_runs::lemma_byte(u, g, blk, 2 + m);
        assert(u1.z[Zmm(16)][m] == (u.mem)(Form::IntByte, g[BLK] + 2 + m));
    }
    assert forall|m: int| 0 <= m < 8 implies #[trigger] v.z[Zmm(19)][m] == Lane::Bits(
        low_part(blk, m) as u32,
    ) by {
        let k = index(C_IDX_SL as int, m);
        let b = blk[4 + m / 2];
        quant_runs::lemma_byte(u, g, blk, 2 + k);
        assert(u1.z[Zmm(16)][k] == (u.mem)(Form::IntByte, g[BLK] + 2 + k));
        assert(u2.z[Zmm(18)][m] == Lane::Bits(b as u32));
        let n = index(C_SHIFT_L as int, m);
        assert((u2.mem)(Form::Word, g[CONSTS] + C_SHIFT_L + 4 * m) == Lane::Bits(n as u32));
        assert(u3.z[Zmm(19)][m] == u2.value(o3, g, m));
        assert(u3.z[Zmm(19)][m] == Lane::Bits((b as u32) >> (n as u32)));
        assert(v.z[Zmm(19)][m] == u3.value(o4, g, m));
        weights::lemma_bytes(b, b, 0);
        if m % 2 == 1 {
            assert(n as u32 == 4u32);
        } else {
            assert(n as u32 == 0u32);
        }
    }
    assert forall|r: Zmm| r.0 < 16 implies #[trigger] v.z[r] == u.z[r] by {
        assert(u1.z[r] == u.z[r]);
        assert(u2.z[r] == u1.z[r]);
        assert(u3.z[r] == u2.z[r]);
    }
}

proof fn lemma_iq4xs_high(u: Unit, g: Map<Gpr, int>, blk: Seq<u8>)
    requires
        exact(u.ar),
        blk.len() == 136,
        stocked(u, g),
        forall|m: int|
            0 <= m < 8 ==> #[trigger] u.z[Zmm(19)][m] == Lane::Bits(low_part(blk, m) as u32),
        forall|m: int| 0 <= m < 16 ==> #[trigger] u.z[Zmm(16)][m] == Lane::Bits(blk[2 + m] as u32),
    ensures
        ({
            let v = u.all(ops_iq4xs_high(), g);
            &&& v == (Unit { z: v.z, ..u })
            &&& forall|m: int|
                0 <= m < 8 ==> #[trigger] v.z[Zmm(19)][m] == Lane::Bits(
                    (low_part(blk, m) + 16 * high_part(blk, m)) as u32,
                )
            &&& forall|r: Zmm| r.0 < 16 ==> #[trigger] v.z[r] == u.z[r]
        }),
{
    broadcast use Mem::lemma_at;
    broadcast use Unit::lemma_push;

    reveal(ops_iq4xs_high);
    assert(u.all(Seq::<Op>::empty(), g) == u);
    let u1 = u.did(op_index(17, C_IDX_ZERO), g).did(op_perm(20, 17, 16), g);
    lemma_picked(u, g, 17, C_IDX_ZERO, 20, 16);
    let u2 = u1.did(op_index(17, C_IDX_ONE), g).did(op_perm(21, 17, 16), g);
    lemma_picked(u1, g, 17, C_IDX_ONE, 21, 16);
    let o3 = op_one(One::Shl(8), 21, 21);
    let u3 = u2.did(o3, g);
    lemma_did(u2, g, o3);
    let o4 = op_two(Two::Or, 20, 20, 21);
    let u4 = u3.did(o4, g);
    lemma_did(u3, g, o4);
    let o5 = Op::Two {
        f: Two::Shrv,
        z: Zmm(22),
        a: Zmm(20),
        b: Src::Mem(Mem::at(CONSTS, C_SHIFT_H)),
        masked: false,
    };
    let u5 = u4.did(o5, g);
    lemma_did(u4, g, o5);
    let o6 = op_with(Two::And, 22, 22, C_U_3);
    let u6 = u5.did(o6, g);
    lemma_did(u5, g, o6);
    let o7 = op_one(One::Shl(4), 22, 22);
    let u7 = u6.did(o7, g);
    lemma_did(u6, g, o7);
    let o8 = op_two(Two::Or, 19, 19, 22);
    let v = u7.did(o8, g);
    lemma_did(u7, g, o8);
    assert(v == u.all(ops_iq4xs_high(), g));
    let (a, b) = (blk[2], blk[3]);
    assert(u.z[Zmm(16)][0] == Lane::Bits(blk[2] as u32));
    assert(u.z[Zmm(16)][1] == Lane::Bits(blk[3] as u32));
    assert forall|m: int| 0 <= m < 8 implies #[trigger] v.z[Zmm(19)][m] == Lane::Bits(
        (low_part(blk, m) + 16 * high_part(blk, m)) as u32,
    ) by {
        assert(index(C_IDX_ZERO as int, m) == 0 && index(C_IDX_ONE as int, m) == 1);
        assert(u2.z[Zmm(20)][m] == Lane::Bits(a as u32));
        assert(u2.z[Zmm(21)][m] == Lane::Bits(b as u32));
        assert(u3.z[Zmm(21)][m] == u2.value(o3, g, m));
        assert(u4.z[Zmm(20)][m] == u3.value(o4, g, m));
        let both = (a as u32) | ((b as u32) << 8u8);
        assert(u4.z[Zmm(20)][m] == Lane::Bits(both));
        let n = index(C_SHIFT_H as int, m);
        assert((u4.mem)(Form::Word, g[CONSTS] + C_SHIFT_H + 4 * m) == Lane::Bits(n as u32));
        assert(u5.z[Zmm(22)][m] == u4.value(o5, g, m));
        assert(u6.z[Zmm(22)][m] == u5.value(o6, g, m));
        let h = high_part(blk, m);
        lemma_two_bits(blk, m);
        assert(u6.z[Zmm(22)][m] == Lane::Bits(h as u32));
        assert(u7.z[Zmm(22)][m] == u6.value(o7, g, m));
        assert(u7.z[Zmm(19)] == u.z[Zmm(19)]);
        assert(u.z[Zmm(19)][m] == Lane::Bits(low_part(blk, m) as u32));
        assert(v.z[Zmm(19)][m] == u7.value(o8, g, m));
        let lo = low_part(blk, m);
        weights::lemma_bytes(blk[4 + m / 2], h, 0);
        weights::lemma_bytes(lo, h, 0);
        weights::lemma_bytes(blk[2 + m / 4], h, (2 * (m % 4)) as u8);
    }
    assert forall|r: Zmm| r.0 < 16 implies #[trigger] v.z[r] == u.z[r] by {
        assert(u1.z[r] == u.z[r]);
        assert(u2.z[r] == u1.z[r]);
        assert(u3.z[r] == u2.z[r]);
        assert(u4.z[r] == u3.z[r]);
        assert(u5.z[r] == u4.z[r]);
        assert(u6.z[r] == u5.z[r]);
        assert(u7.z[r] == u6.z[r]);
    }
}

/// Two bits of the sixteen.
proof fn lemma_two_bits(blk: Seq<u8>, m: int)
    requires
        0 <= m < 8,
    ensures
        (((blk[2] as u32) | ((blk[3] as u32) << 8u8)) >> ((2 * m) as u32)) & 3 == high_part(blk, m) as u32,
{
    weights::lemma_bytes(blk[2], blk[3], 0);
    if m == 0 {
    } else if m == 1 {
    } else if m == 2 {
    } else if m == 3 {
    } else if m == 4 {
    } else if m == 5 {
    } else if m == 6 {
    } else {
    }
}

proof fn lemma_iq4xs_scaled(u: Unit, g: Map<Gpr, int>, d: real, x: spec_fn(int) -> int)
    requires
        exact(u.ar),
        stocked(u, g),
        (u.mem)(Form::Half, g[BLK] + 0) == Lane::Num(d),
        forall|m: int|
            0 <= m < 8 ==> #[trigger] u.z[Zmm(19)][m] == Lane::Bits(x(m) as u32) && 0 <= x(m) < 64,
    ensures
        ({
            let v = u.all(ops_iq4xs_scaled(), g);
            &&& v == (Unit { z: v.z, ..u })
            &&& forall|m: int|
                0 <= m < 8 ==> #[trigger] v.z[Zmm(19)][m] == Lane::Num(d * ((x(m) - 32) as real))
            &&& forall|r: Zmm| r.0 < 16 ==> #[trigger] v.z[r] == u.z[r]
        }),
{
    broadcast use Mem::lemma_at;
    broadcast use Unit::lemma_push;

    reveal(ops_iq4xs_scaled);
    assert(u.all(Seq::<Op>::empty(), g) == u);
    let o0 = op_with(Two::IntSub, 19, 19, C_U_32);
    let u0 = u.did(o0, g);
    lemma_did(u, g, o0);
    let o1 = op_one(One::Number, 19, 19);
    let u1 = u0.did(o1, g);
    lemma_did(u0, g, o1);
    let u2 = u1.did(op_low(23, 0, Conv::F16, false, false), g).did(
        op_high(23, 0, Conv::F16, false, false),
        g,
    );
    lemma_unpacked(u1, g, 23, 0, Conv::F16, false);
    let u3 = u2.did(op_index(17, C_IDX_ZERO), g).did(op_perm(24, 17, 23), g);
    lemma_picked(u2, g, 17, C_IDX_ZERO, 24, 23);
    let o4 = op_two(Two::Mul, 19, 19, 24);
    let v = u3.did(o4, g);
    lemma_did(u3, g, o4);
    assert(v == u.all(ops_iq4xs_scaled(), g));
    assert forall|m: int| 0 <= m < 8 implies #[trigger] v.z[Zmm(19)][m] == Lane::Num(
        d * ((x(m) - 32) as real),
    ) by {
        assert(u.z[Zmm(19)][m] == Lane::Bits(x(m) as u32));
        assert(u0.z[Zmm(19)][m] == u.value(o0, g, m));
        let w = ((x(m) as u32 - 32u32) % 0x1_0000_0000) as u32;
        assert(u0.z[Zmm(19)][m] == Lane::Bits(w));
        assert(signed32(w) == x(m) - 32);
        assert(u1.z[Zmm(19)][m] == u0.value(o1, g, m));
        assert(u1.z[Zmm(19)][m] == whole(x(m) - 32));
        assert(u2.z[Zmm(23)][0] == (u.mem)(Form::Half, g[BLK] + 0));
        assert(index(C_IDX_ZERO as int, m) == 0);
        assert(u3.z[Zmm(24)][m] == u2.z[Zmm(23)][0]);
        assert(v.z[Zmm(19)][m] == u3.value(o4, g, m));
        let y = (x(m) - 32) as real;
        assert(y * d == d * y) by (nonlinear_arith);
    }
    assert forall|r: Zmm| r.0 < 16 implies #[trigger] v.z[r] == u.z[r] by {
        assert(u0.z[r] == u.z[r]);
        assert(u1.z[r] == u0.z[r]);
        assert(u2.z[r] == u1.z[r]);
        assert(u3.z[r] == u2.z[r]);
    }
}

/// IQ4_XS's table: each of eight scales times `d`, for two vectors.
pub proof fn lemma_prep_iq4xs(u: Unit, g: Map<Gpr, int>, blk: Seq<u8>, d: real)
    requires
        exact(u.ar),
        holds(u, g, blk),
        blk.len() == 136,
        stocked(u, g),
        table_apart(g, 136),
        (u.mem)(Form::Half, g[BLK] + 0) == Lane::Num(d),
    ensures
        ({
            let v = u.all(ops_iq4xs(), g);
            &&& tabling(u, v, g)
            &&& quant_runs::tabled(v, g, MM_IQ4_XS, blk, |v: int| d, 0int as real)
        }),
{
    let (a, b, c, e) = (
        ops_iq4xs_low(),
        ops_iq4xs_high(),
        ops_iq4xs_scaled(),
        ops_expanded(19, C_IDX_EXPAND, TAB_SC),
    );
    u.lemma_parts(a + b + c, e, g);
    u.lemma_parts(a + b, c, g);
    u.lemma_parts(a, b, g);
    lemma_iq4xs_low(u, g, blk);
    let u1 = u.all(a, g);
    lemma_iq4xs_high(u1, g, blk);
    let u2 = u1.all(b, g);
    let x = |m: int| low_part(blk, m) + 16 * high_part(blk, m);
    assert forall|m: int| 0 <= m < 8 implies #[trigger] u2.z[Zmm(19)][m] == Lane::Bits(x(m) as u32)
        && 0 <= x(m) < 64 by {
        weights::lemma_bytes(blk[4 + m / 2], blk[4 + m / 2], 0);
        weights::lemma_bytes(blk[2 + m / 4], blk[2 + m / 4], (2 * (m % 4)) as u8);
    }
    lemma_iq4xs_scaled(u2, g, d, x);
    let u3 = u2.all(c, g);
    lemma_expanded(u3, g, 19, C_IDX_EXPAND, TAB_SC);
    let v = u3.all(e, g);
    assert forall|w: int| 0 <= w < 16 implies #[trigger] scale_at(v, g, w) == Lane::Num(
        d * (weight_at(MM_IQ4_XS, blk, 16 * w).scale as real),
    ) by {
        let m = w / 2;
        assert(index(C_IDX_EXPAND as int, w) == m);
        assert(u3.z[Zmm(19)][m] == Lane::Num(d * ((x(m) - 32) as real)));
        assert(16 * w / 32 == m);
        weights::lemma_bytes(blk[4 + m / 2], blk[4 + m / 2], 0);
        weights::lemma_bytes(blk[2 + m / 4], blk[2 + m / 4], (2 * (m % 4)) as u8);
        assert(weight_at(MM_IQ4_XS, blk, 16 * w).scale == x(m) - 32);
    }
    assert forall|r: Zmm| r.0 < 16 implies #[trigger] v.z[r] == u.z[r] by {
        assert(u1.z[r] == u.z[r]);
        assert(u2.z[r] == u1.z[r]);
        assert(u3.z[r] == u2.z[r]);
    }
}

} // verus!
