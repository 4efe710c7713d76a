//! What the parts that the quantized kernels are made of do when they are run,
//! in exact numbers: bytes taken apart into nibbles and fields, weights
//! finished by a scale and a minuend, and products added to accumulators.
use crate::kernelgen::quant::{
    acc, constant, part, pow2neg, row, spec_field_span, spec_field_weight, Act, BLK, CONSTS,
    C_FOUR, C_POW2NEG, C_SIXTEEN, C_TWO, TAB, TAB_MN, TAB_SC,
};
use crate::kernelgen::vector::{apart, Arith, Form, Lane, One, Op, Two, Unit};
use crate::mvex::reg::{Conv, Gpr, Mem, Src, Zmm};
use vstd::prelude::*;

verus! {

/// Whether a lane holds a number: that of a float, or bits that are all clear.
pub open spec fn is_num(x: Lane) -> bool {
    x is Num || x == Lane::Bits(0)
}

/// The number in a lane.
pub open spec fn num(x: Lane) -> real {
    match x {
        Lane::Num(v) => v,
        Lane::Bits(_) => 0int as real,
    }
}

/// A whole number.
pub open spec fn whole(n: int) -> Lane {
    Lane::Num(n as real)
}

/// The signed integer of 32 bits.
pub open spec fn signed32(b: u32) -> int {
    if b < 0x8000_0000 {
        b as int
    } else {
        b - 0x1_0000_0000
    }
}

/// Whether the unit's arithmetic is that of the real numbers, and its integer
/// instructions those of 32-bit words.
pub open spec fn exact(ar: Arith) -> bool {
    &&& forall|a: Lane, b: Lane|
        is_num(a) && is_num(b) ==> #[trigger] (ar.two)(Two::Mul, a, b) == Lane::Num(
            num(a) * num(b),
        )
    &&& forall|a: Lane, b: Lane|
        is_num(a) && is_num(b) ==> #[trigger] (ar.two)(Two::Add, a, b) == Lane::Num(
            num(a) + num(b),
        )
    &&& forall|a: Lane, b: Lane|
        is_num(a) && is_num(b) ==> #[trigger] (ar.two)(Two::Sub, a, b) == Lane::Num(
            num(a) - num(b),
        )
    &&& forall|a: Lane, b: Lane, c: Lane|
        is_num(a) && is_num(b) && is_num(c) ==> #[trigger] (ar.fma)(a, b, c) == Lane::Num(
            num(a) * num(b) + num(c),
        )
    &&& forall|a: Lane, b: Lane, c: Lane|
        is_num(a) && is_num(b) && is_num(c) ==> #[trigger] (ar.fnma)(a, b, c) == Lane::Num(
            num(c) - num(a) * num(b),
        )
    &&& forall|x: real, n: int|
        #![trigger (ar.one)(One::Floor, Lane::Num(x)), whole(n)]
        n as real <= x && x < (n + 1) as real ==> (ar.one)(One::Floor, Lane::Num(x)) == whole(n)
    &&& forall|n: u32| #[trigger] (ar.one)(One::Trunc, whole(n as int)) == Lane::Bits(n)
    &&& forall|b: u32| #[trigger] (ar.one)(One::Number, Lane::Bits(b)) == whole(signed32(b))
    &&& forall|b: u32, n: u8|
        #[trigger] (ar.one)(One::Shr(n), Lane::Bits(b)) == Lane::Bits(b >> n)
    &&& forall|b: u32, n: u8|
        #[trigger] (ar.one)(One::Shl(n), Lane::Bits(b)) == Lane::Bits(b << n)
    &&& forall|a: u32, b: u32|
        #[trigger] (ar.two)(Two::And, Lane::Bits(a), Lane::Bits(b)) == Lane::Bits(a & b)
    &&& forall|a: u32, b: u32|
        #[trigger] (ar.two)(Two::Or, Lane::Bits(a), Lane::Bits(b)) == Lane::Bits(a | b)
    &&& forall|a: u32, b: u32|
        #[trigger] (ar.two)(Two::Shrv, Lane::Bits(a), Lane::Bits(b)) == Lane::Bits(a >> b)
    &&& forall|a: u32, b: u32|
        #[trigger] (ar.two)(Two::IntSub, Lane::Bits(a), Lane::Bits(b)) == Lane::Bits(
            ((a - b) % 0x1_0000_0000) as u32,
        )
    &&& forall|x: Lane| #[trigger] (ar.two)(Two::Xor, x, x) == Lane::Bits(0)
}

/// The constant at `off`, as a number.
pub open spec fn constant_is(u: Unit, g: Map<Gpr, int>, off: int, x: real) -> bool {
    (u.mem)(Form::Word, g[CONSTS] + off) == Lane::Num(x)
}

/// Whether no register is in two of the pairs, or twice in one.
pub open spec fn separate(pairs: Seq<(Zmm, Zmm)>) -> bool {
    &&& forall|i: int, j: int|
        0 <= i < j < pairs.len() ==> (#[trigger] pairs[i]).0 != (#[trigger] pairs[j]).0
            && pairs[i].1 != pairs[j].1 && pairs[i].0 != pairs[j].1 && pairs[i].1 != pairs[j].0
    &&& forall|i: int| 0 <= i < pairs.len() ==> (#[trigger] pairs[i]).0 != pairs[i].1
}

/// Whether a register is in a pair.
pub open spec fn in_pairs(pairs: Seq<(Zmm, Zmm)>, r: Zmm) -> bool {
    exists|i: int| 0 <= i < pairs.len() && ((#[trigger] pairs[i]).0 == r || pairs[i].1 == r)
}

pub open spec fn ops_high(pairs: Seq<(Zmm, Zmm)>) -> Seq<Op> {
    Seq::new(
        pairs.len(),
        |j: int|
            Op::Two { f: Two::Mul, z: pairs[j].1, a: pairs[j].0, b: pow2neg(4), masked: false },
    )
}

pub open spec fn ops_floor(pairs: Seq<(Zmm, Zmm)>) -> Seq<Op> {
    Seq::new(
        pairs.len(),
        |j: int| Op::One { f: One::Floor, z: pairs[j].1, b: Src::Reg(pairs[j].1) },
    )
}

pub open spec fn ops_low(pairs: Seq<(Zmm, Zmm)>) -> Seq<Op> {
    Seq::new(
        pairs.len(),
        |j: int| Op::Fnma { z: pairs[j].0, a: pairs[j].1, b: constant(C_SIXTEEN) },
    )
}

/// Bytes into their nibbles.
#[verifier::opaque]
pub open spec fn ops_nibbles(pairs: Seq<(Zmm, Zmm)>) -> Seq<Op> {
    ops_high(pairs) + ops_floor(pairs) + ops_low(pairs)
}

/// What one instruction leaves, where instructions are apart.
proof fn lemma_one(u: Unit, g: Map<Gpr, int>, ops: Seq<Op>, i: int)
    requires
        apart(ops),
        0 <= i < ops.len(),
    ensures
        ({
            let v = u.all(ops, g);
            &&& v == (Unit { z: v.z, ..u })
            &&& forall|l: int|
                0 <= l < 16 ==> #[trigger] v.z[ops[i].dest()->0][l] == u.value(ops[i], g, l)
        }),
{
    u.lemma_each(ops, g);
    let v = u.all(ops, g);
    assert(v.z[ops[i].dest()->0] == Seq::new(16, |l: int| u.value(ops[i], g, l)));
}

/// What they leave alone.
proof fn lemma_other(u: Unit, g: Map<Gpr, int>, ops: Seq<Op>, r: Zmm)
    requires
        apart(ops),
        forall|i: int| 0 <= i < ops.len() ==> (#[trigger] ops[i]).dest() != Some(r),
    ensures
        u.all(ops, g).z[r] == u.z[r],
        u.all(ops, g) == (Unit { z: u.all(ops, g).z, ..u }),
{
    u.lemma_each(ops, g);
}

/// Bytes into their nibbles: the high ones in each second register, the low
/// ones in the first.
pub proof fn lemma_nibbles(
    u: Unit,
    g: Map<Gpr, int>,
    pairs: Seq<(Zmm, Zmm)>,
    b: spec_fn(int, int) -> int,
)
    requires
        exact(u.ar),
        separate(pairs),
        constant_is(u, g, C_SIXTEEN as int, 16int as real),
        constant_is(u, g, 24, (1int as real) / (16int as real)),
        forall|j: int, l: int|
            0 <= j < pairs.len() && 0 <= l < 16 ==> #[trigger] u.z[pairs[j].0][l] == whole(b(j, l))
                && 0 <= b(j, l) < 256,
    ensures
        ({
            let v = u.all(ops_nibbles(pairs), g);
            &&& v == (Unit { z: v.z, ..u })
            &&& forall|j: int, l: int|
                0 <= j < pairs.len() && 0 <= l < 16 ==> #[trigger] v.z[pairs[j].0][l] == whole(
                    b(j, l) % 16,
                )
            &&& forall|j: int, l: int|
                0 <= j < pairs.len() && 0 <= l < 16 ==> #[trigger] v.z[pairs[j].1][l] == whole(
                    b(j, l) / 16,
                )
            &&& forall|r: Zmm| !in_pairs(pairs, r) ==> #[trigger] v.z[r] == u.z[r]
        }),
{
    broadcast use Mem::lemma_at;

    reveal(ops_nibbles);
    let (o1, o2, o3) = (ops_high(pairs), ops_floor(pairs), ops_low(pairs));
    u.lemma_parts(o1 + o2, o3, g);
    u.lemma_parts(o1, o2, g);
    let u1 = u.all(o1, g);
    let u2 = u1.all(o2, g);
    let v = u2.all(o3, g);
    assert(apart(o1));
    assert(apart(o2));
    assert(apart(o3));
    u.lemma_each(o1, g);
    u1.lemma_each(o2, g);
    u2.lemma_each(o3, g);
    assert forall|j: int, l: int| 0 <= j < pairs.len() && 0 <= l < 16 implies v.z[pairs[j].0][l]
        == whole(b(j, l) % 16) && v.z[pairs[j].1][l] == whole(b(j, l) / 16) by {
        let (lo, hi) = (pairs[j].0, pairs[j].1);
        let x = b(j, l);
        assert(u.z[pairs[j].0][l] == whole(x));
        lemma_one(u, g, o1, j);
        lemma_one(u1, g, o2, j);
        lemma_one(u2, g, o3, j);
        lemma_other(u, g, o1, lo);
        lemma_other(u1, g, o2, lo);
        lemma_other(u2, g, o3, hi);
        assert(o1[j].dest()->0 == hi && o2[j].dest()->0 == hi && o3[j].dest()->0 == lo);
        let y = (x as real) * ((1int as real) / (16int as real));
        assert(u1.z[hi][l] == Lane::Num(y));
        let n = x / 16;
        assert(n as real <= y && y < (n + 1) as real);
        assert(u2.z[hi][l] == (u.ar.one)(One::Floor, Lane::Num(y)));
        assert(u2.z[hi][l] == whole(n));
        assert(u2.z[lo][l] == whole(x));
        assert((x as real) - (n as real) * (16int as real) == (x % 16) as real);
        assert(v.z[lo][l] == whole(x % 16));
    }
    assert forall|r: Zmm| !in_pairs(pairs, r) implies #[trigger] v.z[r] == u.z[r] by {
        assert forall|i: int| 0 <= i < pairs.len() implies (#[trigger] pairs[i]).0 != r && pairs[i].1
            != r by {}
        lemma_other(u, g, o1, r);
        lemma_other(u1, g, o2, r);
        lemma_other(u2, g, o3, r);
    }
}

/// The scale of vector `v` in the table, and its minuend.
pub open spec fn scale_at(u: Unit, g: Map<Gpr, int>, v: int) -> Lane {
    (u.mem)(Form::Word, g[TAB] + TAB_SC + 4 * v)
}

pub open spec fn minuend_at(u: Unit, g: Map<Gpr, int>, v: int) -> Lane {
    (u.mem)(Form::Word, g[TAB] + TAB_MN + 4 * v)
}

/// Activation `l` of vector `v` of row `i`.
pub open spec fn activation(u: Unit, g: Map<Gpr, int>, x: Act, i: int, v: int, l: int) -> Lane {
    match x {
        Act::F32 => (u.mem)(Form::Word, g[row(i as u8)] + 64 * v + 4 * l),
        Act::F16 => (u.mem)(Form::Half, g[row(i as u8)] + 32 * v + 2 * l),
    }
}

pub open spec fn ops_scale(batch: Seq<(Zmm, i32)>) -> Seq<Op> {
    Seq::new(
        batch.len(),
        |j: int|
            Op::Two {
                f: Two::Mul,
                z: batch[j].0,
                a: batch[j].0,
                b: Src::MemConv(Mem::at(TAB, (TAB_SC + 4 * batch[j].1) as i32), Conv::Bcast1),
                masked: false,
            },
    )
}

pub open spec fn ops_offset(batch: Seq<(Zmm, i32)>) -> Seq<Op> {
    Seq::new(
        batch.len(),
        |j: int|
            Op::Two {
                f: Two::Sub,
                z: batch[j].0,
                a: batch[j].0,
                b: Src::MemConv(Mem::at(TAB, (TAB_MN + 4 * batch[j].1) as i32), Conv::Bcast1),
                masked: false,
            },
    )
}

pub open spec fn ops_fma_row(w: Zmm, v: i32, t: u8, x: Act) -> Seq<Op> {
    Seq::new(
        t as nat,
        |j: int| Op::Fma { z: acc(t, j as u8, v), a: w, b: x.spec_src(row(j as u8), v) },
    )
}

pub open spec fn ops_fmas(t: u8, batch: Seq<(Zmm, i32)>, x: Act) -> Seq<Op>
    decreases batch.len(),
{
    if batch.len() == 0 {
        Seq::empty()
    } else {
        ops_fmas(t, batch.drop_last(), x) + ops_fma_row(batch.last().0, batch.last().1, t, x)
    }
}

/// The weights of a batch finished and multiplied into the accumulators.
#[verifier::opaque]
pub open spec fn ops_dot(t: u8, batch: Seq<(Zmm, i32)>, minuend: bool, x: Act) -> Seq<Op> {
    if minuend {
        ops_scale(batch) + ops_offset(batch) + ops_fmas(t, batch, x)
    } else {
        ops_scale(batch) + ops_fmas(t, batch, x)
    }
}

/// Whether the registers of a batch are above the accumulators, no two the
/// same, and its vectors those of a superblock.
pub open spec fn batch_apart(batch: Seq<(Zmm, i32)>) -> bool {
    &&& forall|i: int|
        0 <= i < batch.len() ==> (#[trigger] batch[i]).0.0 >= 8 && 0 <= batch[i].1 < 16
    &&& forall|i: int, j: int|
        0 <= i < j < batch.len() ==> (#[trigger] batch[i]).0 != (#[trigger] batch[j]).0
}

/// How many accumulators there are: one to a row, or for a single row four.
pub open spec fn accs(t: u8) -> int {
    if t == 1 {
        4
    } else {
        t as int
    }
}

/// Whether every accumulator's lane `l` holds a number.
pub open spec fn accs_ok(u: Unit, t: u8, l: int) -> bool {
    forall|r: Zmm| r.0 < accs(t) ==> is_num(#[trigger] u.z[r][l])
}

/// What has been added up in lane `l` for row `i`: in the row's accumulator,
/// or for a single row in four together.
pub open spec fn total(u: Unit, t: u8, i: int, l: int) -> real {
    if t == 1 {
        num(u.z[Zmm(0)][l]) + num(u.z[Zmm(1)][l]) + num(u.z[Zmm(2)][l]) + num(u.z[Zmm(3)][l])
    } else {
        num(u.z[Zmm(i as u8)][l])
    }
}

/// One vector of weights against every row.
proof fn lemma_fma_row(u: Unit, g: Map<Gpr, int>, w: Zmm, v: i32, t: u8, x: Act, l: int)
    requires
        exact(u.ar),
        1 <= t <= 8,
        w.0 >= 8,
        0 <= v < 16,
        0 <= l < 16,
        accs_ok(u, t, l),
        is_num(u.z[w][l]),
        forall|i: int| 0 <= i < t ==> is_num(#[trigger] activation(u, g, x, i, v as int, l)),
    ensures
        ({
            let n = u.all(ops_fma_row(w, v, t, x), g);
            &&& n == (Unit { z: n.z, ..u })
            &&& accs_ok(n, t, l)
            &&& forall|r: Zmm| r.0 >= 8 ==> #[trigger] n.z[r] == u.z[r]
            &&& forall|i: int|
                0 <= i < t ==> #[trigger] total(n, t, i, l) == total(u, t, i, l) + num(u.z[w][l])
                    * num(activation(u, g, x, i, v as int, l))
        }),
{
    broadcast use Mem::lemma_at;

    let ops = ops_fma_row(w, v, t, x);
    assert(apart(ops)) by {
        assert forall|i: int, j: int| 0 <= i < j < ops.len() implies !(#[trigger] ops[j]).reads(
            (#[trigger] ops[i]).dest()->0,
        ) && ops[i].dest() != ops[j].dest() by {
            assert(t != 1);
        }
    }
    let n = u.all(ops, g);
    u.lemma_each(ops, g);
    assert forall|r: Zmm| r.0 >= 8 implies #[trigger] n.z[r] == u.z[r] by {
        lemma_other(u, g, ops, r);
    }
    assert forall|i: int| 0 <= i < t implies n.z[(#[trigger] acc(t, i as u8, v))][l] == Lane::Num(
        num(u.z[w][l]) * num(activation(u, g, x, i, v as int, l)) + num(
            u.z[acc(t, i as u8, v)][l],
        ),
    ) by {
        lemma_one(u, g, ops, i);
        assert(n.z[ops[i].dest()->0][l] == u.value(ops[i], g, l));
        let b = x.spec_src(row(i as u8), v);
        assert(u.lane(b, g, l) == activation(u, g, x, i, v as int, l));
    }
    assert forall|r: Zmm| r.0 < accs(t) implies is_num(#[trigger] n.z[r][l]) && (if t == 1 {
        r != Zmm((v % 4) as u8) ==> n.z[r] == u.z[r]
    } else {
        r.0 >= t ==> n.z[r] == u.z[r]
    }) by {
        if t == 1 {
            if r != Zmm((v % 4) as u8) {
                lemma_other(u, g, ops, r);
            } else {
                assert(r == acc(t, 0u8, v));
            }
        } else if r.0 >= t {
            lemma_other(u, g, ops, r);
        } else {
            assert(r == acc(t, r.0, v));
        }
    }
    assert forall|i: int| 0 <= i < t implies #[trigger] total(n, t, i, l) == total(u, t, i, l) + num(
        u.z[w][l],
    ) * num(activation(u, g, x, i, v as int, l)) by {
        let a = acc(t, i as u8, v);
        assert(n.z[a][l] is Num);
        if t == 1 {
            assert(a == Zmm((v % 4) as u8));
            assert(is_num(n.z[Zmm(0)][l]) && is_num(n.z[Zmm(1)][l]) && is_num(n.z[Zmm(2)][l])
                && is_num(n.z[Zmm(3)][l]));
        }
    }
}

/// The products of a batch's first `n` vectors with row `i`, added up.
pub open spec fn products(
    u: Unit,
    g: Map<Gpr, int>,
    batch: Seq<(Zmm, i32)>,
    x: Act,
    i: int,
    l: int,
    n: int,
) -> real
    decreases n,
{
    if n <= 0 {
        0int as real
    } else {
        products(u, g, batch, x, i, l, n - 1) + num(u.z[batch[n - 1].0][l]) * num(
            activation(u, g, x, i, batch[n - 1].1 as int, l),
        )
    }
}

proof fn lemma_products_take(
    u: Unit,
    g: Map<Gpr, int>,
    a: Seq<(Zmm, i32)>,
    b: Seq<(Zmm, i32)>,
    x: Act,
    i: int,
    l: int,
    n: int,
)
    requires
        n <= a.len(),
        n <= b.len(),
        forall|k: int| 0 <= k < n ==> #[trigger] a[k] == b[k],
    ensures
        products(u, g, a, x, i, l, n) == products(u, g, b, x, i, l, n),
    decreases n,
{
    if n > 0 {
        lemma_products_take(u, g, a, b, x, i, l, n - 1);
        assert(a[n - 1] == b[n - 1]);
    }
}

/// A batch against every row.
proof fn lemma_fmas(u: Unit, g: Map<Gpr, int>, batch: Seq<(Zmm, i32)>, t: u8, x: Act, l: int)
    requires
        exact(u.ar),
        1 <= t <= 8,
        batch_apart(batch),
        0 <= l < 16,
        accs_ok(u, t, l),
        forall|j: int| 0 <= j < batch.len() ==> is_num(u.z[(#[trigger] batch[j]).0][l]),
        forall|i: int, v: int|
            0 <= i < t && 0 <= v < 16 ==> is_num(#[trigger] activation(u, g, x, i, v, l)),
    ensures
        ({
            let n = u.all(ops_fmas(t, batch, x), g);
            &&& n == (Unit { z: n.z, ..u })
            &&& accs_ok(n, t, l)
            &&& forall|r: Zmm| r.0 >= 8 ==> #[trigger] n.z[r] == u.z[r]
            &&& forall|i: int|
                0 <= i < t ==> #[trigger] total(n, t, i, l) == total(u, t, i, l) + products(
                    u,
                    g,
                    batch,
                    x,
                    i,
                    l,
                    batch.len() as int,
                )
        }),
    decreases batch.len(),
{
    if batch.len() > 0 {
        let s = batch.drop_last();
        let k = batch.len() - 1;
        let (w, v) = batch.last();
        assert(batch[k] == batch.last());
        assert forall|j: int| 0 <= j < s.len() implies s[j] == batch[j] by {}
        assert(batch_apart(s)) by {
            assert forall|i: int| 0 <= i < s.len() implies (#[trigger] s[i]).0.0 >= 8 && 0 <= s[i].1
                < 16 by {
                assert(s[i] == batch[i]);
            }
            assert forall|i: int, j: int| 0 <= i < j < s.len() implies (#[trigger] s[i]).0 != (
            #[trigger] s[j]).0 by {
                assert(s[i] == batch[i] && s[j] == batch[j]);
            }
        }
        assert forall|j: int| 0 <= j < s.len() implies is_num(u.z[(#[trigger] s[j]).0][l]) by {
            assert(s[j] == batch[j]);
        }
        lemma_fmas(u, g, s, t, x, l);
        let m = u.all(ops_fmas(t, s, x), g);
        u.lemma_parts(ops_fmas(t, s, x), ops_fma_row(w, v, t, x), g);
        assert(m.z[w] == u.z[w]);
        assert forall|i: int, v: int| 0 <= i < t && 0 <= v < 16 implies #[trigger] activation(
            m,
            g,
            x,
            i,
            v,
            l,
        ) == activation(u, g, x, i, v, l) by {}
        lemma_fma_row(m, g, w, v, t, x, l);
        let n = m.all(ops_fma_row(w, v, t, x), g);
        assert forall|i: int| 0 <= i < t implies #[trigger] total(n, t, i, l) == total(u, t, i, l)
            + products(u, g, batch, x, i, l, batch.len() as int) by {
            lemma_products_take(u, g, s, batch, x, i, l, k);
            assert(total(m, t, i, l) == total(u, t, i, l) + products(u, g, s, x, i, l, k));
        }
    }
}

/// One finished weight: the quant times the scale, less the minuend where
/// there is one.
pub open spec fn finished(
    u: Unit,
    g: Map<Gpr, int>,
    w: Lane,
    v: int,
    minuend: bool,
) -> real {
    let s = num(w) * num(scale_at(u, g, v));
    if minuend {
        s - num(minuend_at(u, g, v))
    } else {
        s
    }
}

/// The finished weights of a batch's first `n` vectors times row `i`, added
/// up.
pub open spec fn dotted(
    u: Unit,
    g: Map<Gpr, int>,
    batch: Seq<(Zmm, i32)>,
    minuend: bool,
    x: Act,
    i: int,
    l: int,
    n: int,
) -> real
    decreases n,
{
    if n <= 0 {
        0int as real
    } else {
        let v = batch[n - 1].1 as int;
        dotted(u, g, batch, minuend, x, i, l, n - 1) + finished(
            u,
            g,
            u.z[batch[n - 1].0][l],
            v,
            minuend,
        ) * num(activation(u, g, x, i, v, l))
    }
}

proof fn lemma_dotted(
    u: Unit,
    f: Unit,
    g: Map<Gpr, int>,
    batch: Seq<(Zmm, i32)>,
    minuend: bool,
    x: Act,
    i: int,
    l: int,
    n: int,
)
    requires
        n <= batch.len(),
        f.mem == u.mem,
        forall|j: int|
            0 <= j < n ==> num(f.z[(#[trigger] batch[j]).0][l]) == finished(
                u,
                g,
                u.z[batch[j].0][l],
                batch[j].1 as int,
                minuend,
            ),
    ensures
        products(f, g, batch, x, i, l, n) == dotted(u, g, batch, minuend, x, i, l, n),
    decreases n,
{
    if n > 0 {
        lemma_dotted(u, f, g, batch, minuend, x, i, l, n - 1);
        let j = n - 1;
        assert(num(f.z[batch[j].0][l]) == finished(
            u,
            g,
            u.z[batch[j].0][l],
            batch[j].1 as int,
            minuend,
        ));
    }
}

/// A batch finished and multiplied into the accumulators.
pub proof fn lemma_dot(
    u: Unit,
    g: Map<Gpr, int>,
    batch: Seq<(Zmm, i32)>,
    t: u8,
    minuend: bool,
    x: Act,
    l: int,
)
    requires
        exact(u.ar),
        1 <= t <= 8,
        batch_apart(batch),
        0 <= l < 16,
        accs_ok(u, t, l),
        forall|j: int| 0 <= j < batch.len() ==> is_num(u.z[(#[trigger] batch[j]).0][l]),
        forall|i: int, v: int|
            0 <= i < t && 0 <= v < 16 ==> is_num(#[trigger] activation(u, g, x, i, v, l)),
        forall|v: int| 0 <= v < 16 ==> is_num(#[trigger] scale_at(u, g, v)),
        minuend ==> forall|v: int| 0 <= v < 16 ==> is_num(#[trigger] minuend_at(u, g, v)),
    ensures
        ({
            let n = u.all(ops_dot(t, batch, minuend, x), g);
            &&& n == (Unit { z: n.z, ..u })
            &&& accs_ok(n, t, l)
            &&& forall|r: Zmm|
                r.0 >= 8 && (forall|j: int| 0 <= j < batch.len() ==> (#[trigger] batch[j]).0 != r)
                    ==> #[trigger] n.z[r] == u.z[r]
            &&& forall|i: int|
                0 <= i < t ==> #[trigger] total(n, t, i, l) == total(u, t, i, l) + dotted(
                    u,
                    g,
                    batch,
                    minuend,
                    x,
                    i,
                    l,
                    batch.len() as int,
                )
        }),
{
    broadcast use Mem::lemma_at;

    reveal(ops_dot);
    let o1 = ops_scale(batch);
    let o2 = if minuend {
        ops_offset(batch)
    } else {
        Seq::empty()
    };
    let o3 = ops_fmas(t, batch, x);
    assert(ops_dot(t, batch, minuend, x) =~= o1 + o2 + o3);
    u.lemma_parts(o1 + o2, o3, g);
    u.lemma_parts(o1, o2, g);
    let u1 = u.all(o1, g);
    let u2 = u1.all(o2, g);
    assert(apart(o1));
    assert(apart(o2));
    u.lemma_each(o1, g);
    u1.lemma_each(o2, g);
    assert forall|j: int| 0 <= j < batch.len() implies is_num(u2.z[(#[trigger] batch[j]).0][l])
        && num(u2.z[batch[j].0][l]) == finished(
        u,
        g,
        u.z[batch[j].0][l],
        batch[j].1 as int,
        minuend,
    ) by {
        let w = batch[j].0;
        let v = batch[j].1 as int;
        lemma_one(u, g, o1, j);
        assert(o1[j].dest()->0 == w);
        assert(u1.z[w][l] == u.value(o1[j], g, l));
        assert(is_num(scale_at(u, g, v)));
        assert(u1.z[w][l] == Lane::Num(num(u.z[w][l]) * num(scale_at(u, g, v))));
        if minuend {
            lemma_one(u1, g, o2, j);
            assert(o2[j].dest()->0 == w);
            assert(u2.z[w][l] == u1.value(o2[j], g, l));
            assert(is_num(minuend_at(u, g, v)));
        }
    }
    assert forall|r: Zmm|
        (forall|j: int| 0 <= j < batch.len() ==> (#[trigger] batch[j]).0 != r)
            implies #[trigger] u2.z[r] == u.z[r] by {
        lemma_other(u, g, o1, r);
        lemma_other(u1, g, o2, r);
    }
    assert(accs_ok(u2, t, l)) by {
        assert forall|r: Zmm| r.0 < accs(t) implies is_num(#[trigger] u2.z[r][l]) by {
            assert(u2.z[r] == u.z[r]);
            assert(is_num(u.z[r][l]));
        }
    }
    assert forall|i: int, v: int| 0 <= i < t && 0 <= v < 16 implies is_num(
        #[trigger] activation(u2, g, x, i, v, l),
    ) by {
        assert(activation(u2, g, x, i, v, l) == activation(u, g, x, i, v, l));
    }
    lemma_fmas(u2, g, batch, t, x, l);
    let n = u2.all(o3, g);
    assert forall|i: int| 0 <= i < t implies #[trigger] total(n, t, i, l) == total(u, t, i, l)
        + dotted(u, g, batch, minuend, x, i, l, batch.len() as int) by {
        lemma_dotted(u, u2, g, batch, minuend, x, i, l, batch.len() as int);
        assert(total(u2, t, i, l) == total(u, t, i, l)) by {
            assert(u2.z[Zmm(i as u8)] == u.z[Zmm(i as u8)]);
            assert(u2.z[Zmm(0)] == u.z[Zmm(0)]);
            assert(u2.z[Zmm(1)] == u.z[Zmm(1)]);
            assert(u2.z[Zmm(2)] == u.z[Zmm(2)]);
            assert(u2.z[Zmm(3)] == u.z[Zmm(3)]);
        }
    }
}

/// The load of sixteen elements of the block: from an aligned place, or as a
/// pair from any.
pub open spec fn ops_load(z: u8, disp: int, aligned: bool, conv: Conv) -> Seq<Op> {
    if aligned {
        seq![Op::Load { z: Zmm(z), m: Mem::at(BLK, disp as i32), conv }]
    } else {
        seq![
            Op::Low {
                z: Zmm(z),
                m: Mem::at(BLK, disp as i32),
                conv,
                ints: false,
                masked: false,
            },
            Op::High {
                z: Zmm(z),
                m: Mem::at(BLK, (disp + 64) as i32),
                conv,
                ints: false,
                masked: false,
            },
        ]
    }
}

/// Such loads, in order.
pub open spec fn ops_loads(loads: Seq<(u8, int)>, aligned: bool, conv: Conv) -> Seq<Op>
    decreases loads.len(),
{
    if loads.len() == 0 {
        Seq::empty()
    } else {
        ops_loads(loads.drop_last(), aligned, conv) + ops_load(
            loads.last().0,
            loads.last().1,
            aligned,
            conv,
        )
    }
}

/// One load.
proof fn lemma_load(u: Unit, g: Map<Gpr, int>, z: u8, disp: int, aligned: bool, conv: Conv)
    requires
        conv is U8 || conv is S8 || conv is F16,
        0 <= disp < 0x1000,
    ensures
        ({
            let v = u.all(ops_load(z, disp, aligned, conv), g);
            let f = Form::of(conv, false);
            &&& v == (Unit { z: v.z, ..u })
            &&& v.z[Zmm(z)].len() == 16
            &&& forall|l: int|
                0 <= l < 16 ==> #[trigger] v.z[Zmm(z)][l] == (u.mem)(
                    f,
                    g[BLK] + disp + f.width() * l,
                )
            &&& forall|r: Zmm| r != Zmm(z) ==> #[trigger] v.z[r] == u.z[r]
        }),
{
    broadcast use Mem::lemma_at;

    let ops = ops_load(z, disp, aligned, conv);
    let v = u.all(ops, g);
    if aligned {
        assert(ops.drop_last() =~= Seq::empty());
        assert(v == u.did(ops[0], g)) by {
            reveal_with_fuel(Unit::all, 2);
        }
    } else {
        assert(ops.drop_last().drop_last() =~= Seq::empty());
        assert(ops.drop_last().last() == ops[0]);
        assert(v == u.did(ops[0], g).did(ops[1], g)) by {
            reveal_with_fuel(Unit::all, 3);
        }
    }
}

/// Loads into registers of their own.
pub proof fn lemma_loads(
    u: Unit,
    g: Map<Gpr, int>,
    loads: Seq<(u8, int)>,
    aligned: bool,
    conv: Conv,
)
    requires
        conv is U8 || conv is S8,
        forall|i: int| 0 <= i < loads.len() ==> 0 <= (#[trigger] loads[i]).1 < 0x1000,
        forall|i: int, j: int|
            0 <= i < j < loads.len() ==> (#[trigger] loads[i]).0 != (#[trigger] loads[j]).0,
    ensures
        ({
            let v = u.all(ops_loads(loads, aligned, conv), g);
            let f = Form::of(conv, false);
            &&& v == (Unit { z: v.z, ..u })
            &&& forall|i: int, l: int|
                0 <= i < loads.len() && 0 <= l < 16 ==> #[trigger] v.z[Zmm(loads[i].0)][l] == (
                u.mem)(f, g[BLK] + loads[i].1 + l)
            &&& forall|r: Zmm|
                (forall|i: int| 0 <= i < loads.len() ==> Zmm((#[trigger] loads[i]).0) != r)
                    ==> #[trigger] v.z[r] == u.z[r]
        }),
    decreases loads.len(),
{
    if loads.len() > 0 {
        let s = loads.drop_last();
        let (z, disp) = loads.last();
        let n = loads.len() - 1;
        assert(loads[n] == loads.last());
        assert forall|i: int| 0 <= i < s.len() implies s[i] == loads[i] by {}
        assert forall|i: int| 0 <= i < s.len() implies 0 <= (#[trigger] s[i]).1 < 0x1000 by {
            assert(s[i] == loads[i]);
        }
        assert forall|i: int, j: int| 0 <= i < j < s.len() implies (#[trigger] s[i]).0 != (
        #[trigger] s[j]).0 by {
            assert(s[i] == loads[i] && s[j] == loads[j]);
        }
        lemma_loads(u, g, s, aligned, conv);
        let m = u.all(ops_loads(s, aligned, conv), g);
        u.lemma_parts(ops_loads(s, aligned, conv), ops_load(z, disp, aligned, conv), g);
        lemma_load(m, g, z, disp, aligned, conv);
        let v = m.all(ops_load(z, disp, aligned, conv), g);
        let f = Form::of(conv, false);
        assert forall|i: int, l: int| 0 <= i < loads.len() && 0 <= l < 16 implies #[trigger] v.z[
        Zmm(loads[i].0)][l] == (u.mem)(f, g[BLK] + loads[i].1 + l) by {
            if i < n {
                assert(s[i] == loads[i]);
                assert(loads[i].0 != loads[n].0);
                assert(m.z[Zmm(s[i].0)][l] == (u.mem)(f, g[BLK] + s[i].1 + l));
            }
        }
        assert forall|r: Zmm|
            (forall|i: int| 0 <= i < loads.len() ==> Zmm((#[trigger] loads[i]).0) != r)
                implies #[trigger] v.z[r] == u.z[r] by {
            assert(Zmm(loads[n].0) != r);
            assert forall|i: int| 0 <= i < s.len() implies Zmm((#[trigger] s[i]).0) != r by {
                assert(s[i] == loads[i]);
            }
            assert(m.z[r] == u.z[r]);
        }
    }
}

/// Sixteen times some bits added to each weight.
pub open spec fn ops_add(pairs: Seq<(Zmm, Zmm)>) -> Seq<Op> {
    Seq::new(
        pairs.len(),
        |j: int| Op::Fma { z: pairs[j].0, a: pairs[j].1, b: constant(C_SIXTEEN) },
    )
}

pub proof fn lemma_add(
    u: Unit,
    g: Map<Gpr, int>,
    pairs: Seq<(Zmm, Zmm)>,
    w: spec_fn(int, int) -> int,
    b: spec_fn(int, int) -> int,
)
    requires
        exact(u.ar),
        constant_is(u, g, C_SIXTEEN as int, 16int as real),
        forall|i: int, j: int|
            0 <= i < pairs.len() && 0 <= j < pairs.len() ==> (#[trigger] pairs[i]).0 != (
            #[trigger] pairs[j]).1 && (i != j ==> pairs[i].0 != pairs[j].0),
        forall|j: int, l: int|
            0 <= j < pairs.len() && 0 <= l < 16 ==> #[trigger] u.z[pairs[j].0][l] == whole(w(j, l)),
        forall|j: int, l: int|
            0 <= j < pairs.len() && 0 <= l < 16 ==> #[trigger] u.z[pairs[j].1][l] == whole(b(j, l)),
    ensures
        ({
            let v = u.all(ops_add(pairs), g);
            &&& v == (Unit { z: v.z, ..u })
            &&& forall|j: int, l: int|
                0 <= j < pairs.len() && 0 <= l < 16 ==> #[trigger] v.z[pairs[j].0][l] == whole(
                    w(j, l) + 16 * b(j, l),
                )
            &&& forall|r: Zmm|
                (forall|j: int| 0 <= j < pairs.len() ==> (#[trigger] pairs[j]).0 != r)
                    ==> #[trigger] v.z[r] == u.z[r]
        }),
{
    broadcast use Mem::lemma_at;

    let ops = ops_add(pairs);
    assert(apart(ops)) by {
        assert forall|i: int, j: int| 0 <= i < j < ops.len() implies !(#[trigger] ops[j]).reads(
            (#[trigger] ops[i]).dest()->0,
        ) && ops[i].dest() != ops[j].dest() by {
            assert(pairs[i].0 != pairs[j].1 && pairs[i].0 != pairs[j].0);
        }
    }
    u.lemma_each(ops, g);
    let v = u.all(ops, g);
    assert forall|j: int, l: int| 0 <= j < pairs.len() && 0 <= l < 16 implies #[trigger] v.z[
    pairs[j].0][l] == whole(w(j, l) + 16 * b(j, l)) by {
        lemma_one(u, g, ops, j);
        assert(v.z[ops[j].dest()->0][l] == u.value(ops[j], g, l));
        assert(u.z[pairs[j].1][l] == whole(b(j, l)));
        assert(u.z[pairs[j].0][l] == whole(w(j, l)));
        assert((b(j, l) as real) * (16int as real) + (w(j, l) as real) == (w(j, l) + 16 * b(
            j,
            l,
        )) as real);
    }
    assert forall|r: Zmm|
        (forall|j: int| 0 <= j < pairs.len() ==> (#[trigger] pairs[j]).0 != r)
            implies #[trigger] v.z[r] == u.z[r] by {
        lemma_other(u, g, ops, r);
    }
}

/// Two to the power of a small number.
pub open spec fn pow(n: int) -> int
    decreases n,
{
    if n <= 0 {
        1
    } else {
        2 * pow(n - 1)
    }
}

/// Whether the constants hold the powers `2^-1` to `2^-8`, and two, four and
/// sixteen.
pub open spec fn powers(u: Unit, g: Map<Gpr, int>) -> bool {
    &&& forall|j: int|
        1 <= j <= 8 ==> constant_is(
            u,
            g,
            C_POW2NEG + 4 * (j - 1),
            (1int as real) / (#[trigger] pow(j) as real),
        )
    &&& constant_is(u, g, C_SIXTEEN as int, 16int as real)
    &&& constant_is(u, g, C_FOUR as int, 4int as real)
    &&& constant_is(u, g, C_TWO as int, 2int as real)
}

pub open spec fn ops_field_scaled(hs: Seq<(Zmm, u8)>, width: u8, at: u8) -> Seq<Op> {
    Seq::new(
        hs.len(),
        |j: int|
            Op::Two {
                f: Two::Mul,
                z: part(hs[j], at),
                a: hs[j].0,
                b: spec_field_weight(width, at),
                masked: false,
            },
    )
}

pub open spec fn ops_field_floor(hs: Seq<(Zmm, u8)>, width: u8, at: u8) -> Seq<Op> {
    Seq::new(
        hs.len(),
        |j: int| Op::One { f: One::Floor, z: part(hs[j], at), b: Src::Reg(part(hs[j], at)) },
    )
}

pub open spec fn ops_field_low(hs: Seq<(Zmm, u8)>, width: u8, at: u8) -> Seq<Op> {
    Seq::new(
        hs.len(),
        |j: int|
            Op::Fnma {
                z: part(hs[j], at),
                a: part(hs[j], (at + 1) as u8),
                b: spec_field_span(width),
            },
    )
}

pub open spec fn ops_fields_scaled(hs: Seq<(Zmm, u8)>, width: u8, n: u8) -> Seq<Op>
    decreases n,
{
    if n <= 1 {
        Seq::empty()
    } else {
        ops_fields_scaled(hs, width, (n - 1) as u8) + ops_field_scaled(hs, width, (n - 1) as u8)
    }
}

pub open spec fn ops_fields_floor(hs: Seq<(Zmm, u8)>, width: u8, n: u8) -> Seq<Op>
    decreases n,
{
    if n <= 1 {
        Seq::empty()
    } else {
        ops_fields_floor(hs, width, (n - 1) as u8) + ops_field_floor(hs, width, (n - 1) as u8)
    }
}

pub open spec fn ops_fields_low(hs: Seq<(Zmm, u8)>, width: u8, n: u8) -> Seq<Op>
    decreases n,
{
    if n == 0 {
        Seq::empty()
    } else {
        ops_fields_low(hs, width, (n - 1) as u8) + ops_field_low(hs, width, (n - 1) as u8)
    }
}

/// Bytes into their fields.
#[verifier::opaque]
pub open spec fn ops_fields(hs: Seq<(Zmm, u8)>, width: u8) -> Seq<Op> {
    let n = (8u8 / width) as u8;
    ops_fields_scaled(hs, width, n) + ops_fields_floor(hs, width, n) + ops_fields_low(
        hs,
        width,
        (n - 1) as u8,
    )
}

/// Whether the registers of all the fields are apart.
pub open spec fn fields_apart(hs: Seq<(Zmm, u8)>, n: int) -> bool {
    &&& forall|j: int| 0 <= j < hs.len() ==> (#[trigger] hs[j]).1 + n <= 33
    &&& forall|i: int, j: int, a: int, b: int|
        0 <= i < hs.len() && 0 <= j < hs.len() && 0 <= a < n && 0 <= b < n && (i != j || a != b)
            ==> #[trigger] part(hs[i], a as u8) != #[trigger] part(hs[j], b as u8)
}

/// Whether a register is one of a field's.
pub open spec fn in_fields(hs: Seq<(Zmm, u8)>, n: int, r: Zmm) -> bool {
    exists|j: int, a: int| 0 <= j < hs.len() && 0 <= a < n && #[trigger] part(hs[j], a as u8) == r
}

/// A stage of a field's registers: those of field `at`, each from what it
/// reads.
proof fn lemma_field_stage(
    u: Unit,
    g: Map<Gpr, int>,
    hs: Seq<(Zmm, u8)>,
    ops: Seq<Op>,
    n: int,
    at: int,
)
    requires
        fields_apart(hs, n),
        n <= 8,
        0 <= at < n,
        ops.len() == hs.len(),
        forall|j: int|
            0 <= j < hs.len() ==> (#[trigger] ops[j]).dest() == Some(part(hs[j], at as u8)),
        apart(ops),
    ensures
        ({
            let v = u.all(ops, g);
            &&& v == (Unit { z: v.z, ..u })
            &&& forall|j: int, l: int|
                0 <= j < hs.len() && 0 <= l < 16 ==> #[trigger] v.z[part(hs[j], at as u8)][l]
                    == u.value(ops[j], g, l)
            &&& forall|r: Zmm| !in_fields(hs, n, r) ==> #[trigger] v.z[r] == u.z[r]
            &&& forall|j: int, b: int|
                0 <= j < hs.len() && 0 <= b < n && b != at ==> v.z[#[trigger] part(
                    hs[j],
                    b as u8,
                )] == u.z[part(hs[j], b as u8)]
        }),
{
    u.lemma_each(ops, g);
    let v = u.all(ops, g);
    assert forall|j: int, l: int| 0 <= j < hs.len() && 0 <= l < 16 implies #[trigger] v.z[part(
        hs[j],
        at as u8,
    )][l] == u.value(ops[j], g, l) by {
        lemma_one(u, g, ops, j);
        assert(v.z[ops[j].dest()->0][l] == u.value(ops[j], g, l));
    }
    assert forall|r: Zmm| !in_fields(hs, n, r) implies #[trigger] v.z[r] == u.z[r] by {
        assert forall|i: int| 0 <= i < ops.len() implies (#[trigger] ops[i]).dest() != Some(r) by {
            assert(part(hs[i], at as u8) != r);
        }
        lemma_other(u, g, ops, r);
    }
    assert forall|j: int, b: int| 0 <= j < hs.len() && 0 <= b < n && b != at implies v.z[
    #[trigger] part(hs[j], b as u8)] == u.z[part(hs[j], b as u8)] by {
        let r = part(hs[j], b as u8);
        assert forall|i: int| 0 <= i < ops.len() implies (#[trigger] ops[i]).dest() != Some(r) by {
            assert(part(hs[i], at as u8) != part(hs[j], b as u8));
        }
        lemma_other(u, g, ops, r);
    }
}

/// The bytes divided by the fields' weights.
proof fn lemma_fields_scaled(
    u: Unit,
    g: Map<Gpr, int>,
    hs: Seq<(Zmm, u8)>,
    width: u8,
    n: int,
    m: int,
    b: spec_fn(int, int) -> int,
)
    requires
        exact(u.ar),
        powers(u, g),
        width == 1 || width == 2,
        n == 8int / width as int,
        1 <= m <= n,
        fields_apart(hs, n),
        forall|j: int, l: int|
            0 <= j < hs.len() && 0 <= l < 16 ==> #[trigger] u.z[part(hs[j], 0)][l] == whole(b(j, l)),
    ensures
        ({
            let v = u.all(ops_fields_scaled(hs, width, m as u8), g);
            &&& v == (Unit { z: v.z, ..u })
            &&& forall|j: int, at: int, l: int|
                0 <= j < hs.len() && 1 <= at < m && 0 <= l < 16 ==> #[trigger] v.z[part(
                    hs[j],
                    at as u8,
                )][l] == Lane::Num(
                    (b(j, l) as real) * ((1int as real) / (pow(width * at) as real)),
                )
            &&& forall|j: int|
                0 <= j < hs.len() ==> v.z[#[trigger] part(hs[j], 0)] == u.z[part(hs[j], 0)]
            &&& forall|r: Zmm| !in_fields(hs, n, r) ==> #[trigger] v.z[r] == u.z[r]
        }),
    decreases m,
{
    broadcast use Mem::lemma_at;

    if m > 1 {
        lemma_fields_scaled(u, g, hs, width, n, m - 1, b);
        let at = m - 1;
        let a = ops_fields_scaled(hs, width, at as u8);
        let ops = ops_field_scaled(hs, width, at as u8);
        u.lemma_parts(a, ops, g);
        let w = u.all(a, g);
        assert(apart(ops)) by {
            assert forall|i: int, j: int| 0 <= i < j < ops.len() implies !(#[trigger] ops[j]).reads(
                (#[trigger] ops[i]).dest()->0,
            ) && ops[i].dest() != ops[j].dest() by {
                assert(part(hs[i], at as u8) != part(hs[j], at as u8));
                assert(part(hs[i], at as u8) != part(hs[j], 0int as u8));
            }
        }
        lemma_field_stage(w, g, hs, ops, n, at);
        let v = w.all(ops, g);
        assert forall|j: int, q: int, l: int|
            0 <= j < hs.len() && 1 <= q < m && 0 <= l < 16 implies #[trigger] v.z[part(
            hs[j],
            q as u8,
        )][l] == Lane::Num((b(j, l) as real) * ((1int as real) / (pow(width * q) as real))) by {
            if q == at {
                let k = width * at;
                assert(1 <= k <= 8);
                assert(constant_is(
                    u,
                    g,
                    C_POW2NEG + 4 * (k - 1),
                    (1int as real) / (pow(k) as real),
                ));
                assert(v.z[part(hs[j], at as u8)][l] == w.value(ops[j], g, l));
                assert(w.z[part(hs[j], 0)] == u.z[part(hs[j], 0)]);
                assert(u.z[part(hs[j], 0)][l] == whole(b(j, l)));
            } else {
                assert(v.z[part(hs[j], q as u8)] == w.z[part(hs[j], q as u8)]);
            }
        }
        assert forall|j: int| 0 <= j < hs.len() implies v.z[#[trigger] part(hs[j], 0)] == u.z[part(
            hs[j],
            0,
        )] by {
            assert(v.z[part(hs[j], 0int as u8)] == w.z[part(hs[j], 0int as u8)]);
        }
    }
}

/// Rounded down.
proof fn lemma_fields_floor(
    u: Unit,
    g: Map<Gpr, int>,
    hs: Seq<(Zmm, u8)>,
    width: u8,
    n: int,
    m: int,
    b: spec_fn(int, int) -> int,
)
    requires
        exact(u.ar),
        width == 1 || width == 2,
        n == 8int / width as int,
        1 <= m <= n,
        fields_apart(hs, n),
        forall|j: int, l: int| #![trigger b(j, l)] 0 <= b(j, l),
        forall|j: int, at: int, l: int|
            0 <= j < hs.len() && 1 <= at < n && 0 <= l < 16 ==> #[trigger] u.z[part(
                hs[j],
                at as u8,
            )][l] == Lane::Num((b(j, l) as real) * ((1int as real) / (pow(width * at) as real))),
    ensures
        ({
            let v = u.all(ops_fields_floor(hs, width, m as u8), g);
            &&& v == (Unit { z: v.z, ..u })
            &&& forall|j: int, at: int, l: int|
                0 <= j < hs.len() && 1 <= at < m && 0 <= l < 16 ==> #[trigger] v.z[part(
                    hs[j],
                    at as u8,
                )][l] == whole(b(j, l) / pow(width * at))
            &&& forall|j: int, at: int|
                0 <= j < hs.len() && (at == 0 || m <= at < n) ==> v.z[#[trigger] part(
                    hs[j],
                    at as u8,
                )] == u.z[part(hs[j], at as u8)]
            &&& forall|r: Zmm| !in_fields(hs, n, r) ==> #[trigger] v.z[r] == u.z[r]
        }),
    decreases m,
{
    if m > 1 {
        lemma_fields_floor(u, g, hs, width, n, m - 1, b);
        let at = m - 1;
        let a = ops_fields_floor(hs, width, at as u8);
        let ops = ops_field_floor(hs, width, at as u8);
        u.lemma_parts(a, ops, g);
        let w = u.all(a, g);
        assert(apart(ops)) by {
            assert forall|i: int, j: int| 0 <= i < j < ops.len() implies !(#[trigger] ops[j]).reads(
                (#[trigger] ops[i]).dest()->0,
            ) && ops[i].dest() != ops[j].dest() by {
                assert(part(hs[i], at as u8) != part(hs[j], at as u8));
            }
        }
        lemma_field_stage(w, g, hs, ops, n, at);
        let v = w.all(ops, g);
        assert forall|j: int, q: int, l: int|
            0 <= j < hs.len() && 1 <= q < m && 0 <= l < 16 implies #[trigger] v.z[part(
            hs[j],
            q as u8,
        )][l] == whole(b(j, l) / pow(width * q)) by {
            if q == at {
                let p = pow(width * at);
                let x = b(j, l);
                let y = (x as real) * ((1int as real) / (p as real));
                assert(v.z[part(hs[j], at as u8)][l] == w.value(ops[j], g, l));
                assert(w.z[part(hs[j], at as u8)] == u.z[part(hs[j], at as u8)]);
                assert(u.z[part(hs[j], at as u8)][l] == Lane::Num(y));
                lemma_pow(width * at);
                lemma_floor(x, p);
                assert(v.z[part(hs[j], at as u8)][l] == (u.ar.one)(One::Floor, Lane::Num(y)));
                assert(whole(x / p) == whole(x / p));
            } else {
                assert(v.z[part(hs[j], q as u8)] == w.z[part(hs[j], q as u8)]);
            }
        }
    }
}

proof fn lemma_pow(n: int)
    ensures
        pow(n) >= 1,
    decreases n,
{
    if n > 0 {
        lemma_pow(n - 1);
    }
}

/// A quotient of whole numbers lies at or above its whole part, and less than
/// one above.
proof fn lemma_floor(x: int, p: int)
    requires
        x >= 0,
        p >= 1,
    ensures
        (x / p) as real <= (x as real) * ((1int as real) / (p as real)),
        (x as real) * ((1int as real) / (p as real)) < (x / p + 1) as real,
{
    let q = x / p;
    let r = x % p;
    let inv = (1int as real) / (p as real);
    let (xr, pr, qr, rr) = (x as real, p as real, q as real, r as real);
    assert(x == q * p + r) by (nonlinear_arith)
        requires
            q == x / p,
            r == x % p,
            p >= 1,
    ;
    assert(pr * inv == (1int as real)) by (nonlinear_arith)
        requires
            inv == (1int as real) / pr,
            pr >= (1int as real),
    ;
    assert(inv > (0int as real)) by (nonlinear_arith)
        requires
            pr * inv == (1int as real),
            pr >= (1int as real),
    ;
    assert((q * p) as real == qr * pr) by (nonlinear_arith)
        requires
            qr == q as real,
            pr == p as real,
    ;
    assert(xr == qr * pr + rr);
    assert(xr * inv == qr * (pr * inv) + rr * inv) by (nonlinear_arith)
        requires
            xr == qr * pr + rr,
    ;
    assert(qr * (1int as real) == qr) by (nonlinear_arith);
    assert((0int as real) <= rr * inv && rr * inv < pr * inv) by (nonlinear_arith)
        requires
            (0int as real) <= rr,
            rr < pr,
            inv > (0int as real),
    ;
}

/// Less the fields above, from the lowest on.
proof fn lemma_fields_low(
    u: Unit,
    g: Map<Gpr, int>,
    hs: Seq<(Zmm, u8)>,
    width: u8,
    n: int,
    m: int,
    b: spec_fn(int, int) -> int,
)
    requires
        exact(u.ar),
        powers(u, g),
        width == 1 || width == 2,
        n == 8int / width as int,
        0 <= m < n,
        fields_apart(hs, n),
        forall|j: int, l: int| #![trigger b(j, l)] 0 <= b(j, l),
        forall|j: int, at: int, l: int|
            0 <= j < hs.len() && 0 <= at < n && 0 <= l < 16 ==> #[trigger] u.z[part(
                hs[j],
                at as u8,
            )][l] == whole(b(j, l) / pow(width * at)),
    ensures
        ({
            let v = u.all(ops_fields_low(hs, width, m as u8), g);
            &&& v == (Unit { z: v.z, ..u })
            &&& forall|j: int, at: int, l: int|
                0 <= j < hs.len() && 0 <= at < m && 0 <= l < 16 ==> #[trigger] v.z[part(
                    hs[j],
                    at as u8,
                )][l] == whole(b(j, l) / pow(width * at) % pow(width as int))
            &&& forall|j: int, at: int|
                0 <= j < hs.len() && m <= at < n ==> v.z[#[trigger] part(hs[j], at as u8)]
                    == u.z[part(hs[j], at as u8)]
            &&& forall|r: Zmm| !in_fields(hs, n, r) ==> #[trigger] v.z[r] == u.z[r]
        }),
    decreases m,
{
    broadcast use Mem::lemma_at;

    if m > 0 {
        lemma_fields_low(u, g, hs, width, n, m - 1, b);
        let at = m - 1;
        let a = ops_fields_low(hs, width, at as u8);
        let ops = ops_field_low(hs, width, at as u8);
        u.lemma_parts(a, ops, g);
        let w = u.all(a, g);
        assert(apart(ops)) by {
            assert forall|i: int, j: int| 0 <= i < j < ops.len() implies !(#[trigger] ops[j]).reads(
                (#[trigger] ops[i]).dest()->0,
            ) && ops[i].dest() != ops[j].dest() by {
                assert(part(hs[i], at as u8) != part(hs[j], at as u8));
                assert(part(hs[i], at as u8) != part(hs[j], (at + 1) as u8));
            }
        }
        lemma_field_stage(w, g, hs, ops, n, at);
        let v = w.all(ops, g);
        assert forall|j: int, q: int, l: int|
            0 <= j < hs.len() && 0 <= q < m && 0 <= l < 16 implies #[trigger] v.z[part(
            hs[j],
            q as u8,
        )][l] == whole(b(j, l) / pow(width * q) % pow(width as int)) by {
            if q == at {
                let x = b(j, l);
                assert(v.z[part(hs[j], at as u8)][l] == w.value(ops[j], g, l));
                assert(w.z[part(hs[j], at as u8)] == u.z[part(hs[j], at as u8)]);
                assert(w.z[part(hs[j], (at + 1) as u8)] == u.z[part(hs[j], (at + 1) as u8)]);
                let (lo, hi) = (x / pow(width * at), x / pow(width * (at + 1)));
                assert(u.z[part(hs[j], at as u8)][l] == whole(lo));
                assert(u.z[part(hs[j], (at + 1) as u8)][l] == whole(hi));
                lemma_next_field(x, width as int, at);
                let s = pow(width as int);
                assert(pow(1) == 2 && pow(2) == 4) by {
                    reveal_with_fuel(pow, 4);
                }
                assert((lo as real) - (hi as real) * (s as real) == (lo % s) as real);
            } else {
                assert(v.z[part(hs[j], q as u8)] == w.z[part(hs[j], q as u8)]);
            }
        }
    }
}

/// The next field up is what is left of dividing once more.
proof fn lemma_next_field(x: int, width: int, at: int)
    requires
        width == 1 || width == 2,
        0 <= at,
        0 <= x,
    ensures
        x / pow(width * (at + 1)) == x / pow(width * at) / pow(width),
        pow(width) == 2 || pow(width) == 4,
{
    reveal_with_fuel(pow, 4);
    let p = pow(width * at);
    lemma_pow(width * at);
    if width == 1 {
        assert(pow(at + 1) == 2 * p);
        assert(x / (p * 2) == x / p / 2) by {
            vstd::arithmetic::div_mod::lemma_div_denominator(x, p, 2);
        }
    } else {
        assert(pow(2 * at + 2) == 2 * pow(2 * at + 1));
        assert(pow(2 * at + 1) == 2 * p);
        assert(x / (p * 4) == x / p / 4) by {
            vstd::arithmetic::div_mod::lemma_div_denominator(x, p, 4);
        }
    }
}

/// Bytes into their fields, each in its register.
pub proof fn lemma_fields(
    u: Unit,
    g: Map<Gpr, int>,
    hs: Seq<(Zmm, u8)>,
    width: u8,
    b: spec_fn(int, int) -> int,
)
    requires
        exact(u.ar),
        powers(u, g),
        width == 1 || width == 2,
        fields_apart(hs, 8int / width as int),
        forall|j: int, l: int| #![trigger b(j, l)] 0 <= b(j, l) < 256,
        forall|j: int, l: int|
            0 <= j < hs.len() && 0 <= l < 16 ==> #[trigger] u.z[part(hs[j], 0)][l] == whole(b(j, l)),
    ensures
        ({
            let v = u.all(ops_fields(hs, width), g);
            let n = 8int / width as int;
            &&& v == (Unit { z: v.z, ..u })
            &&& forall|j: int, at: int, l: int|
                0 <= j < hs.len() && 0 <= at < n && 0 <= l < 16 ==> #[trigger] v.z[part(
                    hs[j],
                    at as u8,
                )][l] == whole(b(j, l) / pow(width * at) % pow(width as int))
            &&& forall|r: Zmm| !in_fields(hs, n, r) ==> #[trigger] v.z[r] == u.z[r]
        }),
{
    reveal(ops_fields);
    let n = 8int / width as int;
    let o1 = ops_fields_scaled(hs, width, n as u8);
    let o2 = ops_fields_floor(hs, width, n as u8);
    let o3 = ops_fields_low(hs, width, (n - 1) as u8);
    assert(ops_fields(hs, width) == o1 + o2 + o3);
    u.lemma_parts(o1 + o2, o3, g);
    u.lemma_parts(o1, o2, g);
    lemma_fields_scaled(u, g, hs, width, n, n, b);
    let u1 = u.all(o1, g);
    lemma_fields_floor(u1, g, hs, width, n, n, b);
    let u2 = u1.all(o2, g);
    assert forall|j: int, at: int, l: int|
        0 <= j < hs.len() && 0 <= at < n && 0 <= l < 16 implies #[trigger] u2.z[part(
        hs[j],
        at as u8,
    )][l] == whole(b(j, l) / pow(width * at)) by {
        if at == 0 {
            assert(u2.z[part(hs[j], 0int as u8)] == u1.z[part(hs[j], 0int as u8)]);
            assert(u1.z[part(hs[j], 0)] == u.z[part(hs[j], 0)]);
            assert(u.z[part(hs[j], 0)][l] == whole(b(j, l)));
            assert(width * at == 0);
        }
    }
    lemma_fields_low(u2, g, hs, width, n, n - 1, b);
    let v = u2.all(o3, g);
    assert forall|j: int, at: int, l: int|
        0 <= j < hs.len() && 0 <= at < n && 0 <= l < 16 implies #[trigger] v.z[part(
        hs[j],
        at as u8,
    )][l] == whole(b(j, l) / pow(width * at) % pow(width as int)) by {
        if at == n - 1 {
            assert(v.z[part(hs[j], at as u8)] == u2.z[part(hs[j], at as u8)]);
            let x = b(j, l);
            assert(0 <= x < 256);
            assert(pow(7) == 128 && pow(6) == 64 && pow(1) == 2 && pow(2) == 4) by {
                reveal_with_fuel(pow, 9);
            }
            if width == 1 {
                assert(width * at == 7);
                assert(x / 128 % 2 == x / 128);
            } else {
                assert(width * at == 6);
                assert(x / 64 % 4 == x / 64);
            }
        }
    }
}

} // verus!
