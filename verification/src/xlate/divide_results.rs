//! What division and square root come to, in exact numbers: the quotient, and
//! the number whose square is the operand.
use crate::bits;
use crate::xlate::code::{Mvex, Rm};
use crate::xlate::divide;
use crate::xlate::em;
use crate::xlate::ev::Ev;
use crate::xlate::exact;
use crate::xlate::exact::{Elem, Exact, Select};
use crate::xlate::insn::Decoded;
use crate::xlate::laws;
use crate::xlate::meaning;
use crate::xlate::prog;
use crate::xlate::prog::{Prog, Step};
use vstd::prelude::*;

verus! {

/// Whether the constants of `p` are the first of `consts`.
pub open spec fn heads(p: Prog, consts: Seq<Seq<u8>>) -> bool {
    &&& p.consts.len() <= consts.len() < 0x1_0000
    &&& forall|i: int| 0 <= i < p.consts.len() ==> #[trigger] consts[i] == p.consts[i]
}

proof fn lemma_find(consts: Seq<Seq<u8>>, c: Seq<u8>, i: int)
    requires
        0 <= i,
    ensures
        prog::find_from(consts, c, i) matches Some(j) ==> i <= j < consts.len() && consts[j] == c,
    decreases consts.len() - i,
{
    if i < consts.len() && consts[i] != c {
        lemma_find(consts, c, i + 1);
    }
}

/// A constant is where its index says, and the ones before it stay.
proof fn lemma_constant(p: Prog, c: Seq<u8>, consts: Seq<Seq<u8>>)
    requires
        heads(p.constant(c), consts),
    ensures
        heads(p, consts),
        consts[p.index_of(c) as int] == c,
{
    lemma_find(p.consts, c, 0);
    let q = p.constant(c);
    assert forall|i: int| 0 <= i < p.consts.len() implies #[trigger] consts[i] == p.consts[i] by {
        assert(consts[i] == q.consts[i]);
    }
    assert(consts[p.index_of(c) as int] == q.consts[p.index_of(c) as int]);
}

/// A dword in every lane, as an operand.
proof fn lemma_splat32(p: Prog, v: u32, consts: Seq<Seq<u8>>, at: int, s: Exact)
    requires
        heads(p.constant(prog::splat32(v)), consts),
        0 <= at < 16,
    ensures
        heads(p, consts),
        s.operand(consts, at, Rm::Const(p.index_of(prog::splat32(v)))) == Elem::Bits(v, v),
{
    lemma_constant(p, prog::splat32(v), consts);
    meaning::lemma_words(Seq::new(16, |i: int| v));
}

/// The dwords of the doubles that are constants here.
proof fn lemma_halves()
    ensures
        (0u64 & 0xffff_ffff) as u32 == 0 && (0u64 >> 32) as u32 == 0,
        (0x3fe0_0000_0000_0000u64 & 0xffff_ffff) as u32 == 0 && (0x3fe0_0000_0000_0000u64 >> 32) as u32
            == 0x3fe0_0000,
        (0xbfe0_0000_0000_0000u64 & 0xffff_ffff) as u32 == 0 && (0xbfe0_0000_0000_0000u64 >> 32) as u32
            == 0xbfe0_0000,
        (0x3ff0_0000_0000_0000u64 & 0xffff_ffff) as u32 == 0 && (0x3ff0_0000_0000_0000u64 >> 32) as u32
            == 0x3ff0_0000,
        (0x7ff0_0000_0000_0000u64 & 0xffff_ffff) as u32 == 0 && (0x7ff0_0000_0000_0000u64 >> 32) as u32
            == 0x7ff0_0000,
        (0x7fff_ffff_ffff_ffffu64 & 0xffff_ffff) as u32 == 0xffff_ffff && (0x7fff_ffff_ffff_ffffu64
            >> 32) as u32 == 0x7fff_ffff,
{
    assert((0u64 & 0xffff_ffff) as u32 == 0 && (0u64 >> 32) as u32 == 0
        && (0x3fe0_0000_0000_0000u64 & 0xffff_ffff) as u32 == 0 && (0x3fe0_0000_0000_0000u64 >> 32) as u32
        == 0x3fe0_0000 && (0xbfe0_0000_0000_0000u64 & 0xffff_ffff) as u32 == 0 && (
    0xbfe0_0000_0000_0000u64 >> 32) as u32 == 0xbfe0_0000 && (0x3ff0_0000_0000_0000u64
        & 0xffff_ffff) as u32 == 0 && (0x3ff0_0000_0000_0000u64 >> 32) as u32 == 0x3ff0_0000 && (
    0x7ff0_0000_0000_0000u64 & 0xffff_ffff) as u32 == 0 && (0x7ff0_0000_0000_0000u64 >> 32) as u32
        == 0x7ff0_0000 && (0x7fff_ffff_ffff_ffffu64 & 0xffff_ffff) as u32 == 0xffff_ffff && (
    0x7fff_ffff_ffff_ffffu64 >> 32) as u32 == 0x7fff_ffff) by (bit_vector);
}

/// Two dwords in turn.
spec fn pair(low: u32, high: u32) -> Seq<u32> {
    Seq::new(
        16,
        |i: int|
            if i % 2 == 0 {
                low
            } else {
                high
            },
    )
}

proof fn lemma_pair(v: u64, low: u32, high: u32)
    requires
        low == (v & 0xffff_ffff) as u32,
        high == (v >> 32) as u32,
    ensures
        prog::splat64(v) == prog::dwords(pair(low, high)),
{
    assert(prog::splat64(v) =~= prog::dwords(pair(low, high)));
}

proof fn lemma_two_dwords(
    p: Prog,
    c: Seq<u8>,
    low: u32,
    high: u32,
    consts: Seq<Seq<u8>>,
    at: int,
    s: Exact,
)
    requires
        heads(p.constant(c), consts),
        meaning::words(c)[at] == low,
        meaning::words(c)[(at + 1) % 16] == high,
    ensures
        heads(p, consts),
        s.operand(consts, at, Rm::Const(p.index_of(c))) == Elem::Bits(low, high),
{
    lemma_constant(p, c, consts);
}

proof fn lemma_pair_words(ws: Seq<u32>, low: u32, high: u32, at: int)
    requires
        ws == pair(low, high),
        0 <= at < 16,
        at % 2 == 0,
    ensures
        ws[at] == low,
        ws[(at + 1) % 16] == high,
{
}

/// A qword in every lane, as an operand.
proof fn lemma_splat64(p: Prog, v: u64, consts: Seq<Seq<u8>>, at: int, s: Exact)
    requires
        heads(p.constant(prog::splat64(v)), consts),
        0 <= at < 16,
        at % 2 == 0,
    ensures
        heads(p, consts),
        s.operand(consts, at, Rm::Const(p.index_of(prog::splat64(v)))) == Elem::Bits(
            (v & 0xffff_ffff) as u32,
            (v >> 32) as u32,
        ),
{
    let low = (v & 0xffff_ffff) as u32;
    let high = (v >> 32) as u32;
    lemma_pair(v, low, high);
    meaning::lemma_words(pair(low, high));
    lemma_pair_words(meaning::words(prog::splat64(v)), low, high, at);
    lemma_two_dwords(p, prog::splat64(v), low, high, consts, at, s);
}

/// Registers of their own.
pub open spec fn distinct(s: Seq<u8>) -> bool {
    forall|i: int, j: int| 0 <= i < j < s.len() ==> #[trigger] s[i] != #[trigger] s[j]
}

/// The estimate of a reciprocal.
proof fn lemma_estimate(p: Prog, consts: Seq<Seq<u8>>, at: int, s: Exact, d: u8, b: u8, y: real)
    requires
        p.exactly(consts, at, s).z[b] == Elem::Float(y),
        y != (0int as real),
    ensures
        p.mvex(2, 1, 0, 0xCA, d, 0, Rm::Reg(b), 0, 0, None).exactly(consts, at, s) == ({
            let e = p.exactly(consts, at, s);
            Exact { z: e.z.insert(d, Elem::Float((1int as real) / y)), ..e }
        }),
{
    exact::lemma_mvex(
        p,
        consts,
        at,
        s,
        Mvex { map: 2, pp: 1, w: 0, op: 0xCA, reg: d, vvvv: 0, rm: Rm::Reg(b), k: 0, sss: 0, imm: None },
    );
}

/// A number times its reciprocal.
proof fn lemma_inverse(y: real)
    requires
        y != (0int as real),
    ensures
        y * ((1int as real) / y) == (1int as real),
{
    assert(y * ((1int as real) / y) == (1int as real)) by (nonlinear_arith)
        requires
            y != (0int as real),
    ;
}

/// The refined reciprocal is the reciprocal.
proof fn lemma_recip_ps(p: Prog, consts: Seq<Seq<u8>>, at: int, s: Exact, r: u8, b: u8, e: u8, y: real)
    requires
        heads(p.recip_ps(r, b, e), consts),
        0 <= at < 16,
        distinct(seq![b, r, e]),
        p.exactly(consts, at, s).z[b] == Elem::Float(y),
        y != (0int as real),
    ensures
        heads(p, consts),
        p.recip_ps(r, b, e).exactly(consts, at, s) == ({
            let t = p.exactly(consts, at, s);
            Exact {
                z: t.z.insert(r, Elem::Float((1int as real) / y)).insert(
                    e,
                    Elem::Float(0int as real),
                ),
                ..t
            }
        }),
{
    let inv = (1int as real) / y;
    let sq = seq![b, r, e];
    assert(sq[0] == b && sq[1] == r && sq[2] == e);
    assert(b != r && b != e && r != e);
    let t = p.exactly(consts, at, s);
    let p1 = p.mvex(2, 1, 0, 0xCA, r, 0, Rm::Reg(b), 0, 0, None);
    lemma_estimate(p, consts, at, s, r, b, y);
    let c = prog::splat32(divide::F32_ONE);
    let one = p1.index_of(c);
    let p2 = p1.constant(c);
    lemma_splat32(p1, divide::F32_ONE, consts, at, s);
    assert(p2.exactly(consts, at, s) == p1.exactly(consts, at, s));
    lemma_splat32(p1, divide::F32_ONE, consts, at, p2.exactly(consts, at, s));
    exact::lemma_vmov(p2, consts, at, s, e, Rm::Const(one), 0);
    let p3 = p2.vmov(e, Rm::Const(one), 0, 0);
    exact::lemma_fma(p3, consts, at, s, 0xBC, e, b, Rm::Reg(r), 0);
    let p4 = p3.fma(0xBC, e, b, Rm::Reg(r), 0);
    lemma_inverse(y);
    assert(p4.exactly(consts, at, s).z[e] == Elem::Float(0int as real));
    exact::lemma_fma(p4, consts, at, s, 0xB8, r, e, Rm::Reg(r), 0);
    let p5 = p4.fma(0xB8, r, e, Rm::Reg(r), 0);
    assert((0int as real) * inv == (0int as real)) by (nonlinear_arith);
    assert(p5.exactly(consts, at, s).z =~= t.z.insert(r, Elem::Float(inv)).insert(
        e,
        Elem::Float(0int as real),
    ));
}

/// Float quotients, before the special operands are looked at.
spec fn quotient_ps(p: Prog, a: u8, b: u8, r: u8, e: u8, q: u8) -> Prog {
    p.recip_ps(r, b, e).vmulp(q, a, Rm::Reg(r), 0).vmov(e, Rm::Reg(a), 0, 0).fma(
        0xBC,
        e,
        b,
        Rm::Reg(q),
        0,
    ).fma(0xB8, q, e, Rm::Reg(r), 0).mvex(2, 1, 0, 0xCA, r, 0, Rm::Reg(b), 0, 0, None).vmulp(
        r,
        a,
        Rm::Reg(r),
        0,
    )
}

proof fn lemma_quotient_ps(
    p: Prog,
    consts: Seq<Seq<u8>>,
    at: int,
    s: Exact,
    a: u8,
    b: u8,
    r: u8,
    e: u8,
    q: u8,
    x: real,
    y: real,
)
    requires
        heads(p.recip_ps(r, b, e), consts),
        0 <= at < 16,
        distinct(seq![b, r, e, q]),
        distinct(seq![a, r, e, q]),
        p.exactly(consts, at, s).z[a] == Elem::Float(x),
        p.exactly(consts, at, s).z[b] == Elem::Float(y),
        y != (0int as real),
    ensures
        ({
            let t = p.exactly(consts, at, s);
            let u = quotient_ps(p, a, b, r, e, q).exactly(consts, at, s);
            &&& u == (Exact { z: u.z, ..t })
            &&& u.z[q] == Elem::Float(x / y)
            &&& u.z[a] == Elem::Float(x)
            &&& u.z[b] == Elem::Float(y)
            &&& u.z.dom().contains(q)
        }),
{
    let inv = (1int as real) / y;
    let zero = 0int as real;
    let sa = seq![a, r, e, q];
    let sb = seq![b, r, e, q];
    assert(sa[0] == a && sa[1] == r && sa[2] == e && sa[3] == q);
    assert(sb[0] == b && sb[1] == r && sb[2] == e && sb[3] == q);
    assert(b != r && b != e && b != q && a != r && a != e && a != q && r != e && r != q && e != q);
    assert(distinct(seq![b, r, e]));
    lemma_recip_ps(p, consts, at, s, r, b, e, y);
    let p1 = p.recip_ps(r, b, e);
    exact::lemma_vmulp(p1, consts, at, s, q, a, Rm::Reg(r), 0);
    let p2 = p1.vmulp(q, a, Rm::Reg(r), 0);
    exact::lemma_vmov(p2, consts, at, s, e, Rm::Reg(a), 0);
    let p3 = p2.vmov(e, Rm::Reg(a), 0, 0);
    exact::lemma_fma(p3, consts, at, s, 0xBC, e, b, Rm::Reg(q), 0);
    let p4 = p3.fma(0xBC, e, b, Rm::Reg(q), 0);
    lemma_inverse(y);
    assert(x - y * (x * inv) == zero) by (nonlinear_arith)
        requires
            y * inv == (1int as real),
            zero == (0int as real),
    ;
    assert(p4.exactly(consts, at, s).z[e] == Elem::Float(zero));
    exact::lemma_fma(p4, consts, at, s, 0xB8, q, e, Rm::Reg(r), 0);
    let p5 = p4.fma(0xB8, q, e, Rm::Reg(r), 0);
    assert(zero * inv == zero) by (nonlinear_arith)
        requires
            zero == (0int as real),
    ;
    assert(x * inv == x / y) by (nonlinear_arith)
        requires
            y != (0int as real),
            inv == (1int as real) / y,
    ;
    assert(p5.exactly(consts, at, s).z[q] == Elem::Float(x / y));
    lemma_estimate(p5, consts, at, s, r, b, y);
    let p6 = p5.mvex(2, 1, 0, 0xCA, r, 0, Rm::Reg(b), 0, 0, None);
    exact::lemma_vmulp(p6, consts, at, s, r, a, Rm::Reg(r), 0);
}

/// A register's magnitude against a constant.
proof fn lemma_magnitude_ps(
    p: Prog,
    consts: Seq<Seq<u8>>,
    at: int,
    s: Exact,
    e: u8,
    b: u8,
    c: Rm,
    y: real,
)
    requires
        p.exactly(consts, at, s).z[b] == Elem::Float(y),
        p.exactly(consts, at, s).operand(consts, at, c) == Elem::Bits(0x7fff_ffff, 0x7fff_ffff),
    ensures
        p.i0f(0xDB, e, b, c, 0, 0).exactly(consts, at, s) == ({
            let t = p.exactly(consts, at, s);
            Exact { z: t.z.insert(e, Elem::Float(exact::magnitude(y))), ..t }
        }),
{
    exact::lemma_mvex(
        p,
        consts,
        at,
        s,
        Mvex { map: 1, pp: 1, w: 0, op: 0xDB, reg: e, vvvv: b, rm: c, k: 0, sss: 0, imm: None },
    );
}

/// A move that a comparison which does not hold keeps from happening.
proof fn lemma_passed_over(
    p: Prog,
    consts: Seq<Seq<u8>>,
    at: int,
    s: Exact,
    k: u8,
    a: u8,
    c: Rm,
    pred: u8,
    d: u8,
    x: Rm,
    w: u8,
)
    requires
        w <= 1,
        k != 0,
        pred == 0 || pred == 3,
        p.exactly(consts, at, s).z.dom().contains(d),
        exact::number(p.exactly(consts, at, s).z[a], w) is Some,
        ({
            let e = p.exactly(consts, at, s);
            let y = e.operand(consts, at, c);
            ||| exact::number(y, w) is Some && (pred == 3 || exact::number(y, w) != exact::number(
                e.z[a],
                w,
            ))
            ||| pred == 0 && exact::number(y, w) is None && (y matches Elem::Bits(low, high)
                && exact::infinite(low, high, w))
        }),
    ensures
        p.compare(k, a, c, pred, 0, w).vmov(d, x, k, w).exactly(consts, at, s) == ({
            let e = p.exactly(consts, at, s);
            Exact { k: e.k.insert(k, Select::All(false)), ..e }
        }),
{
    exact::lemma_unequal(p, consts, at, s, k, a, c, pred, w);
    exact::lemma_no_vmov(p.compare(k, a, c, pred, 0, w), consts, at, s, d, x, k, w);
}

/// Float division leaves the quotient.
proof fn lemma_div_ps(
    p: Prog,
    consts: Seq<Seq<u8>>,
    at: int,
    s: Exact,
    a: u8,
    b: u8,
    r: u8,
    e: u8,
    q: u8,
    x: real,
    y: real,
)
    requires
        heads(p.div_ps(a, b, r, e, q), consts),
        0 <= at < 16,
        p.kscr != 0,
        distinct(seq![b, r, e, q]),
        distinct(seq![a, r, e, q]),
        p.exactly(consts, at, s).z[a] == Elem::Float(x),
        p.exactly(consts, at, s).z[b] == Elem::Float(y),
        y != (0int as real),
    ensures
        p.div_ps(a, b, r, e, q).exactly(consts, at, s).z[q] == Elem::Float(x / y),
        p.div_ps(a, b, r, e, q).exactly(consts, at, s).ok == p.exactly(consts, at, s).ok,
{
    reveal(Prog::div_ps);
    let k = p.kscr;
    let sa = seq![a, r, e, q];
    let sb = seq![b, r, e, q];
    assert(sa[0] == a && sa[1] == r && sa[2] == e && sa[3] == q);
    assert(sb[0] == b && sb[1] == r && sb[2] == e && sb[3] == q);
    assert(b != e && b != q && a != e && a != q && e != q);
    let p1 = quotient_ps(p, a, b, r, e, q);
    let cm = prog::splat32(0x7fff_ffff);
    let absm = p1.index_of(cm);
    let p2 = p1.constant(cm).i0f(0xDB, e, b, Rm::Const(absm), 0, 0);
    let cz = prog::splat32(divide::F32_ZERO);
    let zero = p2.index_of(cz);
    let p3 = p2.constant(cz).compare(k, e, Rm::Const(zero), 0, 0, 0).vmov(q, Rm::Reg(r), k, 0);
    let ci = prog::splat32(divide::F32_INF);
    let inf = p3.index_of(ci);
    let p4 = p3.constant(ci).compare(k, e, Rm::Const(inf), 0, 0, 0).vmov(q, Rm::Reg(r), k, 0);
    let p5 = p4.i0f(0xDB, e, a, Rm::Const(absm), 0, 0);
    let p6 = p5.compare(k, e, Rm::Const(inf), 0, 0, 0).vmov(q, Rm::Reg(r), k, 0);
    assert(p6 == p.div_ps(a, b, r, e, q));
    assert(heads(p3.constant(ci), consts));
    lemma_splat32(p3, divide::F32_INF, consts, at, p3.exactly(consts, at, s));
    assert(heads(p2.constant(cz), consts));
    lemma_splat32(p2, divide::F32_ZERO, consts, at, p2.exactly(consts, at, s));
    assert(heads(p1.constant(cm), consts));
    lemma_splat32(p1, 0x7fff_ffff, consts, at, p1.exactly(consts, at, s));
    assert(heads(p.recip_ps(r, b, e), consts));
    lemma_quotient_ps(p, consts, at, s, a, b, r, e, q, x, y);
    lemma_magnitude_ps(p1.constant(cm), consts, at, s, e, b, Rm::Const(absm), y);
    lemma_passed_over(
        p2.constant(cz),
        consts,
        at,
        s,
        k,
        e,
        Rm::Const(zero),
        0,
        q,
        Rm::Reg(r),
        0,
    );
    lemma_passed_over(p3.constant(ci), consts, at, s, k, e, Rm::Const(inf), 0, q, Rm::Reg(r), 0);
    lemma_splat32(p1, 0x7fff_ffff, consts, at, p4.exactly(consts, at, s));
    lemma_magnitude_ps(p4, consts, at, s, e, a, Rm::Const(absm), x);
    lemma_splat32(p3, divide::F32_INF, consts, at, p5.exactly(consts, at, s));
    lemma_passed_over(p5, consts, at, s, k, e, Rm::Const(inf), 0, q, Rm::Reg(r), 0);
}

/// The first part of a float square root: the roots of `a` refined from the
/// estimate.
spec fn rooted_ps(p: Prog, a: u8, r: u8, e: u8, q: u8) -> Prog {
    let p = p.mvex(2, 1, 0, 0xCB, r, 0, Rm::Reg(a), 0, 0, None);
    let half = p.index_of(prog::splat32(divide::F32_HALF));
    let p = p.constant(prog::splat32(divide::F32_HALF));
    let three_halves = p.index_of(prog::splat32(divide::F32_THREE_HALVES));
    p.constant(prog::splat32(divide::F32_THREE_HALVES)).vmulp(e, a, Rm::Reg(r), 0).vmulp(
        e,
        e,
        Rm::Reg(r),
        0,
    ).vmov(q, Rm::Const(three_halves), 0, 0).fma(0xBC, q, e, Rm::Const(half), 0).vmulp(
        r,
        r,
        Rm::Reg(q),
        0,
    ).vmulp(q, a, Rm::Reg(r), 0).vmov(e, Rm::Reg(a), 0, 0).fma(0xBC, e, q, Rm::Reg(q), 0).vmulp(
        r,
        r,
        Rm::Const(half),
        0,
    ).fma(0xB8, q, e, Rm::Reg(r), 0)
}

/// Whether `y` is the reciprocal of a square root of `x`.
pub open spec fn is_root(x: real, y: real) -> bool {
    x * (y * y) == (1int as real)
}

/// What follows of it.
proof fn lemma_root(x: real, y: real)
    requires
        is_root(x, y),
    ensures
        x * y * y == (1int as real),
        (x * y) * (x * y) == x,
{
    assert(x * y * y == x * (y * y)) by (nonlinear_arith);
    assert((x * y) * (x * y) == x * (x * (y * y))) by (nonlinear_arith);
    assert(x * (x * (y * y)) == x) by (nonlinear_arith)
        requires
            x * (y * y) == (1int as real),
    ;
}

proof fn lemma_rooted_ps(
    p: Prog,
    consts: Seq<Seq<u8>>,
    at: int,
    s: Exact,
    a: u8,
    r: u8,
    e: u8,
    q: u8,
    x: real,
)
    requires
        heads(rooted_ps(p, a, r, e, q), consts),
        0 <= at < 16,
        distinct(seq![a, r, e, q]),
        p.exactly(consts, at, s).z[a] == Elem::Float(x),
        is_root(x, (p.exactly(consts, at, s).root)(x)),
    ensures
        heads(p, consts),
        ({
            let t = p.exactly(consts, at, s);
            let u = rooted_ps(p, a, r, e, q).exactly(consts, at, s);
            &&& u == (Exact { z: u.z, ..t })
            &&& u.z[q] == Elem::Float(x * (t.root)(x))
            &&& u.z[a] == Elem::Float(x)
            &&& u.z.dom().contains(q)
        }),
{
    let t = p.exactly(consts, at, s);
    let y = (t.root)(x);
    let one = 1int as real;
    let zero = 0int as real;
    let half = one / (2int as real);
    let sa = seq![a, r, e, q];
    assert(sa[0] == a && sa[1] == r && sa[2] == e && sa[3] == q);
    assert(a != r && a != e && a != q && r != e && r != q && e != q);
    lemma_root(x, y);
    let p1 = p.mvex(2, 1, 0, 0xCB, r, 0, Rm::Reg(a), 0, 0, None);
    exact::lemma_mvex(
        p,
        consts,
        at,
        s,
        Mvex { map: 2, pp: 1, w: 0, op: 0xCB, reg: r, vvvv: 0, rm: Rm::Reg(a), k: 0, sss: 0, imm: None },
    );
    let ch = prog::splat32(divide::F32_HALF);
    let ct = prog::splat32(divide::F32_THREE_HALVES);
    let ih = p1.index_of(ch);
    let p2 = p1.constant(ch);
    let it = p2.index_of(ct);
    let p3 = p2.constant(ct);
    assert(heads(p3, consts));
    lemma_splat32(p2, divide::F32_THREE_HALVES, consts, at, s);
    lemma_splat32(p1, divide::F32_HALF, consts, at, s);
    let q1 = p3.vmulp(e, a, Rm::Reg(r), 0);
    exact::lemma_vmulp(p3, consts, at, s, e, a, Rm::Reg(r), 0);
    let q2 = q1.vmulp(e, e, Rm::Reg(r), 0);
    exact::lemma_vmulp(q1, consts, at, s, e, e, Rm::Reg(r), 0);
    assert(q2.exactly(consts, at, s).z[e] == Elem::Float(one));
    lemma_splat32(p2, divide::F32_THREE_HALVES, consts, at, q2.exactly(consts, at, s));
    let q3 = q2.vmov(q, Rm::Const(it), 0, 0);
    exact::lemma_vmov(q2, consts, at, s, q, Rm::Const(it), 0);
    lemma_splat32(p1, divide::F32_HALF, consts, at, q3.exactly(consts, at, s));
    let q4 = q3.fma(0xBC, q, e, Rm::Const(ih), 0);
    exact::lemma_fma(q3, consts, at, s, 0xBC, q, e, Rm::Const(ih), 0);
    assert((3int as real) / (2int as real) - one * half == one);
    assert(q4.exactly(consts, at, s).z[q] == Elem::Float(one));
    let q5 = q4.vmulp(r, r, Rm::Reg(q), 0);
    exact::lemma_vmulp(q4, consts, at, s, r, r, Rm::Reg(q), 0);
    assert(q5.exactly(consts, at, s).z[r] == Elem::Float(y));
    let q6 = q5.vmulp(q, a, Rm::Reg(r), 0);
    exact::lemma_vmulp(q5, consts, at, s, q, a, Rm::Reg(r), 0);
    assert(q6.exactly(consts, at, s).z[q] == Elem::Float(x * y));
    let q7 = q6.vmov(e, Rm::Reg(a), 0, 0);
    exact::lemma_vmov(q6, consts, at, s, e, Rm::Reg(a), 0);
    let q8 = q7.fma(0xBC, e, q, Rm::Reg(q), 0);
    exact::lemma_fma(q7, consts, at, s, 0xBC, e, q, Rm::Reg(q), 0);
    assert(q8.exactly(consts, at, s).z[e] == Elem::Float(zero));
    lemma_splat32(p1, divide::F32_HALF, consts, at, q8.exactly(consts, at, s));
    let q9 = q8.vmulp(r, r, Rm::Const(ih), 0);
    exact::lemma_vmulp(q8, consts, at, s, r, r, Rm::Const(ih), 0);
    exact::lemma_fma(q9, consts, at, s, 0xB8, q, e, Rm::Reg(r), 0);
    assert(zero * (y * half) == zero) by (nonlinear_arith)
        requires
            zero == (0int as real),
    ;
}

/// A float square root leaves a number whose square is the operand.
proof fn lemma_sqrt_ps(
    p: Prog,
    consts: Seq<Seq<u8>>,
    at: int,
    s: Exact,
    a: u8,
    r: u8,
    e: u8,
    q: u8,
    x: real,
)
    requires
        heads(p.sqrt_ps(a, r, e, q), consts),
        0 <= at < 16,
        p.kscr != 0,
        distinct(seq![a, r, e, q]),
        p.exactly(consts, at, s).z[a] == Elem::Float(x),
        x > (0int as real),
        is_root(x, (p.exactly(consts, at, s).root)(x)),
    ensures
        p.sqrt_ps(a, r, e, q).exactly(consts, at, s).z[q] == Elem::Float(
            x * (p.exactly(consts, at, s).root)(x),
        ),
        p.sqrt_ps(a, r, e, q).exactly(consts, at, s).ok == p.exactly(consts, at, s).ok,
{
    reveal(Prog::sqrt_ps);
    let k = p.kscr;
    let p1 = rooted_ps(p, a, r, e, q);
    let cz = prog::splat32(divide::F32_ZERO);
    let zero = p1.index_of(cz);
    let p2 = p1.constant(cz).compare(k, a, Rm::Const(zero), 0, 0, 0).vmov(q, Rm::Reg(a), k, 0);
    let ci = prog::splat32(divide::F32_INF);
    let inf = p2.index_of(ci);
    let p3 = p2.constant(ci).compare(k, a, Rm::Const(inf), 0, 0, 0).vmov(q, Rm::Reg(a), k, 0);
    assert(p3 == p.sqrt_ps(a, r, e, q));
    assert(heads(p2.constant(ci), consts));
    lemma_splat32(p2, divide::F32_INF, consts, at, p2.exactly(consts, at, s));
    assert(heads(p1.constant(cz), consts));
    lemma_splat32(p1, divide::F32_ZERO, consts, at, p1.exactly(consts, at, s));
    lemma_rooted_ps(p, consts, at, s, a, r, e, q, x);
    lemma_passed_over(p1.constant(cz), consts, at, s, k, a, Rm::Const(zero), 0, q, Rm::Reg(a), 0);
    lemma_passed_over(p2.constant(ci), consts, at, s, k, a, Rm::Const(inf), 0, q, Rm::Reg(a), 0);
}

/// Powers of two are not zero, and those of opposite exponents are each
/// other's reciprocals.
pub proof fn lemma_power(n: int)
    ensures
        exact::power(n) > (0int as real),
        exact::power(n + 1) == (2int as real) * exact::power(n),
    decreases (if n < 0 {
        -n
    } else {
        n
    }),
{
    let two = 2int as real;
    if n > 0 {
        lemma_power(n - 1);
    } else if n < 0 {
        lemma_power(n + 1);
        let x = exact::power(n + 1);
        assert(two * (x / two) == x);
    }
}

/// The power of a sum is the product of the powers.
pub proof fn lemma_powers(m: int, n: int)
    ensures
        exact::power(m + n) == exact::power(m) * exact::power(n),
    decreases (if n < 0 {
        -n
    } else {
        n
    }),
{
    let two = 2int as real;
    let a = exact::power(m);
    if n > 0 {
        lemma_powers(m, n - 1);
        lemma_power(m + n - 1);
        lemma_power(n - 1);
        let b = exact::power(n - 1);
        assert(two * (a * b) == a * (two * b)) by (nonlinear_arith);
    } else if n < 0 {
        lemma_powers(m, n + 1);
        lemma_power(m + n);
        lemma_power(n);
        let b = exact::power(n);
        let c = exact::power(m + n);
        assert(exact::power(m + n + 1) == two * c);
        assert(exact::power(n + 1) == two * b);
        assert(two * c == a * (two * b));
        assert(c == a * b) by (nonlinear_arith)
            requires
                two * c == a * (two * b),
                two == (2int as real),
        ;
    } else {
        assert(a * (1int as real) == a) by (nonlinear_arith);
    }
}

/// The scratch mask set to the high dwords, or to the low ones.
proof fn lemma_mask(p: Prog, consts: Seq<Seq<u8>>, at: int, s: Exact, mask: u16)
    requires
        mask == 0xaaaa || mask == 0x5555,
    ensures
        ({
            let t = p.exactly(consts, at, s);
            let u = p.mask_imm(mask).exactly(consts, at, s);
            &&& u == (Exact { k: u.k, eax: u.eax, ..t })
            &&& u.k[p.kscr] == (if mask == 0xaaaa {
                Select::High
            } else {
                Select::Low
            })
        }),
{
    reveal(Exact::step);
    let b = seq![0xb8u8] + bits::le32(mask as u32);
    let p1 = p.step(Step::K);
    exact::lemma_step(p, consts, at, s, Step::K);
    let p2 = p1.step(Step::Rax);
    exact::lemma_step(p1, consts, at, s, Step::Rax);
    let p3 = p2.step(Step::Raw(b));
    exact::lemma_step(p2, consts, at, s, Step::Raw(b));
    exact::lemma_step(p3, consts, at, s, Step::VexK { op: 0x92, reg: p.kscr, rm: 0 });
    bits::lemma_word32(mask as u32);
    let c = bits::le32(mask as u32);
    assert(b[1] == c[0] && b[2] == c[1] && b[3] == c[2] && b[4] == c[3]);
    assert(bits::word32(b, 1) == bits::word32(c, 0));
}

/// The exponent of a double.
proof fn lemma_dexp(p: Prog, consts: Seq<Seq<u8>>, at: int, s: Exact, e: u8, x: u8, v: real)
    requires
        heads(p.dexp(e, x), consts),
        0 <= at < 16,
        p.exactly(consts, at, s).z[x] == Elem::Double(v),
    ensures
        heads(p, consts),
        p.dexp(e, x).exactly(consts, at, s) == ({
            let t = p.exactly(consts, at, s);
            Exact { z: t.z.insert(e, Elem::Field(exact::exponent(v))), ..t }
        }),
{
    let t = p.exactly(consts, at, s);
    let m = Mvex {
        map: 1,
        pp: 1,
        w: 0,
        op: 0x72,
        reg: 2,
        vvvv: e,
        rm: Rm::Reg(x),
        k: 0,
        sss: 0,
        imm: Some(20),
    };
    exact::lemma_mvex(p, consts, at, s, m);
    let p1 = p.shift_imm(2, e, Rm::Reg(x), 20, 0);
    let c = prog::splat32(0x7ff);
    let i = p1.index_of(c);
    assert(heads(p1.constant(c), consts));
    let p2 = p1.constant(c);
    lemma_splat32(p1, 0x7ff, consts, at, p2.exactly(consts, at, s));
    let n = Mvex {
        map: 1,
        pp: 1,
        w: 0,
        op: 0xDB,
        reg: e,
        vvvv: e,
        rm: Rm::Const(i),
        k: 0,
        sss: 0,
        imm: None,
    };
    exact::lemma_mvex(p2, consts, at, s, n);
    assert(p.dexp(e, x).exactly(consts, at, s).z =~= t.z.insert(
        e,
        Elem::Field(exact::exponent(v)),
    ));
}

/// A field shifted into the place of an exponent.
proof fn lemma_raise(p: Prog, consts: Seq<Seq<u8>>, at: int, s: Exact, t: u8, x: u8, n: int)
    requires
        exact::field(p.exactly(consts, at, s).z[x]) == Some(n),
    ensures
        p.shift_imm(6, t, Rm::Reg(x), 20, 0).exactly(consts, at, s) == ({
            let e = p.exactly(consts, at, s);
            Exact { z: e.z.insert(t, Elem::Raised(n)), ..e }
        }),
{
    let m = Mvex {
        map: 1,
        pp: 1,
        w: 0,
        op: 0x72,
        reg: 6,
        vvvv: t,
        rm: Rm::Reg(x),
        k: 0,
        sss: 0,
        imm: Some(20),
    };
    exact::lemma_mvex(p, consts, at, s, m);
}

/// A double with another exponent.
proof fn lemma_dsetexp(
    p: Prog,
    consts: Seq<Seq<u8>>,
    at: int,
    s: Exact,
    out: u8,
    x: u8,
    expo: u8,
    t: u8,
    v: real,
    n: int,
)
    requires
        heads(p.dsetexp(out, x, expo, t), consts),
        0 <= at < 16,
        p.kscr != 0,
        out != x && out != expo && out != t,
        p.exactly(consts, at, s).z[x] == Elem::Double(v),
        exact::field(p.exactly(consts, at, s).z[expo]) == Some(n),
        1 <= n <= 2046,
    ensures
        heads(p, consts),
        ({
            let b = p.exactly(consts, at, s);
            let a = p.dsetexp(out, x, expo, t).exactly(consts, at, s);
            &&& a == (Exact { z: a.z, k: a.k, eax: a.eax, ..b })
            &&& a.z == b.z.insert(t, Elem::Raised(n)).insert(
                out,
                Elem::Double(v * exact::power(n - exact::exponent(v))),
            )
        }),
{
    let b = p.exactly(consts, at, s);
    let k = p.kscr;
    let p1 = p.mask_imm(0xaaaa);
    lemma_mask(p, consts, at, s, 0xaaaa);
    let c = prog::splat32(0x800f_ffff);
    let i = p1.index_of(c);
    let p2 = p1.constant(c);
    assert(heads(p2, consts));
    lemma_splat32(p1, 0x800f_ffff, consts, at, s);
    let p3 = p2.vmov(out, Rm::Reg(x), 0, 0);
    exact::lemma_vmov(p2, consts, at, s, out, Rm::Reg(x), 0);
    lemma_splat32(p1, 0x800f_ffff, consts, at, p3.exactly(consts, at, s));
    let m = Mvex {
        map: 1,
        pp: 1,
        w: 0,
        op: 0xDB,
        reg: out,
        vvvv: out,
        rm: Rm::Const(i),
        k,
        sss: 0,
        imm: None,
    };
    exact::lemma_mvex(p3, consts, at, s, m);
    let p4 = p3.i0f(0xDB, out, out, Rm::Const(i), k, 0);
    assert(p4.exactly(consts, at, s).z[out] == Elem::Cut(v));
    let p5 = p4.shift_imm(6, t, Rm::Reg(expo), 20, 0);
    lemma_raise(p4, consts, at, s, t, expo, n);
    let o = Mvex {
        map: 1,
        pp: 1,
        w: 0,
        op: 0xEB,
        reg: out,
        vvvv: out,
        rm: Rm::Reg(t),
        k,
        sss: 0,
        imm: None,
    };
    exact::lemma_mvex(p5, consts, at, s, o);
    let a = p.dsetexp(out, x, expo, t).exactly(consts, at, s);
    assert(a.z =~= b.z.insert(t, Elem::Raised(n)).insert(
        out,
        Elem::Double(v * exact::power(n - exact::exponent(v))),
    ));
}

/// A power of two.
proof fn lemma_dpow2(p: Prog, consts: Seq<Seq<u8>>, at: int, s: Exact, out: u8, expo: u8, n: int)
    requires
        p.kscr != 0,
        exact::field(p.exactly(consts, at, s).z[expo]) == Some(n),
        1 <= n <= 2046,
    ensures
        ({
            let b = p.exactly(consts, at, s);
            let a = p.dpow2(out, expo).exactly(consts, at, s);
            &&& a == (Exact { z: a.z, k: a.k, eax: a.eax, ..b })
            &&& a.z == b.z.insert(out, Elem::Double(exact::power(n - 1023)))
        }),
{
    let b = p.exactly(consts, at, s);
    let k = p.kscr;
    let p1 = p.shift_imm(6, out, Rm::Reg(expo), 20, 0);
    lemma_raise(p, consts, at, s, out, expo, n);
    let p2 = p1.mask_imm(0x5555);
    lemma_mask(p1, consts, at, s, 0x5555);
    let m = Mvex {
        map: 1,
        pp: 1,
        w: 0,
        op: 0xEF,
        reg: out,
        vvvv: out,
        rm: Rm::Reg(out),
        k,
        sss: 0,
        imm: None,
    };
    exact::lemma_mvex(p2, consts, at, s, m);
    let a = p.dpow2(out, expo).exactly(consts, at, s);
    assert(a.z =~= b.z.insert(out, Elem::Double(exact::power(n - 1023))));
}

/// A sum or difference of fields.
proof fn lemma_field_op(
    p: Prog,
    consts: Seq<Seq<u8>>,
    at: int,
    s: Exact,
    op: u8,
    d: u8,
    a: u8,
    x: Rm,
    m: int,
    n: int,
)
    requires
        op == 0xFA || op == 0xFE || op == 0xDB && n == 1,
        exact::field(p.exactly(consts, at, s).z[a]) == Some(m),
        exact::field(p.exactly(consts, at, s).operand(consts, at, x)) == Some(n),
    ensures
        p.i0f(op, d, a, x, 0, 0).exactly(consts, at, s) == ({
            let e = p.exactly(consts, at, s);
            let v = if op == 0xFA {
                m - n
            } else if op == 0xFE {
                m + n
            } else {
                m % 2
            };
            Exact { z: e.z.insert(d, Elem::Field(v)), ..e }
        }),
{
    let i = Mvex { map: 1, pp: 1, w: 0, op, reg: d, vvvv: a, rm: x, k: 0, sss: 0, imm: None };
    exact::lemma_mvex(p, consts, at, s, i);
}

/// A seed through float: the estimate, for division or for a square root.
proof fn lemma_seed(p: Prog, consts: Seq<Seq<u8>>, at: int, s: Exact, op: u8, e: u8, q: u8, r: u8, v: real)
    requires
        op == 0xCA || op == 0xCB,
        e != q && e != r && q != r,
        p.exactly(consts, at, s).z[r] == Elem::Double(v),
        op == 0xCA ==> v != (0int as real),
    ensures
        ({
            let b = p.exactly(consts, at, s);
            let a = p.mvex(1, 1, 1, 0x5A, e, 0, Rm::Reg(r), 0, 0, None).mvex(
                2,
                1,
                0,
                op,
                e,
                0,
                Rm::Reg(e),
                0,
                0,
                None,
            ).mvex(1, 0, 0, 0x5A, q, 0, Rm::Reg(e), 0, 0, None).exactly(consts, at, s);
            let est = if op == 0xCA {
                (1int as real) / v
            } else {
                (b.root)(v)
            };
            a == (Exact {
                z: b.z.insert(e, Elem::Float(est)).insert(q, Elem::Double(est)),
                ..b
            })
        }),
{
    let b = p.exactly(consts, at, s);
    let m = Mvex { map: 1, pp: 1, w: 1, op: 0x5A, reg: e, vvvv: 0, rm: Rm::Reg(r), k: 0, sss: 0, imm: None };
    exact::lemma_mvex(p, consts, at, s, m);
    let p1 = p.mvex(1, 1, 1, 0x5A, e, 0, Rm::Reg(r), 0, 0, None);
    let n = Mvex { map: 2, pp: 1, w: 0, op, reg: e, vvvv: 0, rm: Rm::Reg(e), k: 0, sss: 0, imm: None };
    exact::lemma_mvex(p1, consts, at, s, n);
    let p2 = p1.mvex(2, 1, 0, op, e, 0, Rm::Reg(e), 0, 0, None);
    let o = Mvex { map: 1, pp: 0, w: 0, op: 0x5A, reg: q, vvvv: 0, rm: Rm::Reg(e), k: 0, sss: 0, imm: None };
    exact::lemma_mvex(p2, consts, at, s, o);
    let p3 = p2.mvex(1, 0, 0, 0x5A, q, 0, Rm::Reg(e), 0, 0, None);
    let est = if op == 0xCA {
        (1int as real) / v
    } else {
        (b.root)(v)
    };
    assert(p3.exactly(consts, at, s).z =~= b.z.insert(e, Elem::Float(est)).insert(
        q,
        Elem::Double(est),
    ));
}

/// A Newton step from the reciprocal stays there.
proof fn lemma_recip_step(
    p: Prog,
    consts: Seq<Seq<u8>>,
    at: int,
    s: Exact,
    one: usize,
    r: u8,
    e: u8,
    q: u8,
    v: real,
    y: real,
)
    requires
        e != q && e != r && q != r,
        p.exactly(consts, at, s).operand(consts, at, Rm::Const(one)) == Elem::Bits(0, 0x3ff0_0000),
        p.exactly(consts, at, s).z[r] == Elem::Double(v),
        p.exactly(consts, at, s).z[q] == Elem::Double(y),
        v * y == (1int as real),
    ensures
        ({
            let b = p.exactly(consts, at, s);
            let a = p.recip_step_pd(one, r, e, q).exactly(consts, at, s);
            a == (Exact { z: b.z.insert(e, Elem::Double(0int as real)).insert(q, Elem::Double(y)), ..b })
        }),
{
    let b = p.exactly(consts, at, s);
    let zero = 0int as real;
    let p1 = p.vmov(e, Rm::Const(one), 0, 1);
    exact::lemma_vmov(p, consts, at, s, e, Rm::Const(one), 1);
    let p2 = p1.fma(0xBC, e, r, Rm::Reg(q), 1);
    exact::lemma_fma(p1, consts, at, s, 0xBC, e, r, Rm::Reg(q), 1);
    exact::lemma_fma(p2, consts, at, s, 0xB8, q, e, Rm::Reg(q), 1);
    assert(zero * y == zero) by (nonlinear_arith)
        requires
            zero == (0int as real),
    ;
    let a = p.recip_step_pd(one, r, e, q).exactly(consts, at, s);
    assert(a.z =~= b.z.insert(e, Elem::Double(zero)).insert(q, Elem::Double(y)));
}

/// The doubles scaled: the divisor to an exponent of 1023, the dividend by the
/// same power of two.
spec fn scaled_pd(p: Prog, a: u8, b: u8, r: u8, e: u8, q: u8, ex: u8) -> Prog {
    let p = p.dexp(ex, b);
    let c1023 = p.index_of(prog::splat32(1023));
    let p = p.constant(prog::splat32(1023)).vmov(e, Rm::Const(c1023), 0, 0).dsetexp(r, b, e, q);
    let c2046 = p.index_of(prog::splat32(2046));
    p.constant(prog::splat32(2046)).vmov(e, Rm::Const(c2046), 0, 0).i0f(
        0xFA,
        e,
        e,
        Rm::Reg(ex),
        0,
        0,
    ).dpow2(ex, e).vmulp(ex, ex, Rm::Reg(a), 1)
}

/// The operands of a division, and registers of their own.
spec fn operands_pd(t: Exact, a: u8, b: u8, r: u8, e: u8, q: u8, ex: u8, x: real, y: real) -> bool {
    &&& t.z[a] == Elem::Double(x)
    &&& t.z[b] == Elem::Double(y)
    &&& a != r && a != e && a != q && a != ex
    &&& b != r && b != e && b != q && b != ex
    &&& r != e && r != q && r != ex && e != q && e != ex && q != ex
}

proof fn lemma_scaled_pd(
    p: Prog,
    consts: Seq<Seq<u8>>,
    at: int,
    s: Exact,
    a: u8,
    b: u8,
    r: u8,
    e: u8,
    q: u8,
    ex: u8,
    x: real,
    y: real,
)
    requires
        heads(scaled_pd(p, a, b, r, e, q, ex), consts),
        0 <= at < 16,
        p.kscr != 0,
        operands_pd(p.exactly(consts, at, s), a, b, r, e, q, ex, x, y),
        1 <= exact::exponent(y) <= 2045,
    ensures
        heads(p, consts),
        ({
            let t = p.exactly(consts, at, s);
            let u = scaled_pd(p, a, b, r, e, q, ex).exactly(consts, at, s);
            let f = exact::power(1023 - exact::exponent(y));
            &&& u == (Exact { z: u.z, k: u.k, eax: u.eax, ..t })
            &&& u.z[r] == Elem::Double(y * f)
            &&& u.z[ex] == Elem::Double(f * x)
            &&& u.z[a] == Elem::Double(x)
            &&& u.z[b] == Elem::Double(y)
        }),
{
    let t = p.exactly(consts, at, s);
    let n = exact::exponent(y);
    let p1 = p.dexp(ex, b);
    let c1 = prog::splat32(1023);
    let i1 = p1.index_of(c1);
    let p2 = p1.constant(c1);
    let p3 = p2.vmov(e, Rm::Const(i1), 0, 0);
    let p4 = p3.dsetexp(r, b, e, q);
    let c2 = prog::splat32(2046);
    let i2 = p4.index_of(c2);
    let p5 = p4.constant(c2);
    let p6 = p5.vmov(e, Rm::Const(i2), 0, 0);
    let p7 = p6.i0f(0xFA, e, e, Rm::Reg(ex), 0, 0);
    let p8 = p7.dpow2(ex, e);
    assert(heads(p5, consts));
    lemma_splat32(p4, 2046, consts, at, p5.exactly(consts, at, s));
    let cd = prog::splat32(0x800f_ffff);
    assert(p4.consts == p3.mask_imm(0xaaaa).constant(cd).consts);
    lemma_constant(p3.mask_imm(0xaaaa), cd, consts);
    assert(heads(p2, consts));
    lemma_splat32(p1, 1023, consts, at, p2.exactly(consts, at, s));
    lemma_dexp(p, consts, at, s, ex, b, y);
    exact::lemma_vmov(p2, consts, at, s, e, Rm::Const(i1), 0);
    lemma_dsetexp(p3, consts, at, s, r, b, e, q, y, 1023);
    exact::lemma_vmov(p5, consts, at, s, e, Rm::Const(i2), 0);
    lemma_field_op(p6, consts, at, s, 0xFA, e, e, Rm::Reg(ex), 2046, n);
    lemma_dpow2(p7, consts, at, s, ex, e, 2046 - n);
    exact::lemma_vmulp(p8, consts, at, s, ex, ex, Rm::Reg(a), 1);
}

/// Double quotients, for operands that are finite.
proof fn lemma_div_pd_finite(
    p: Prog,
    consts: Seq<Seq<u8>>,
    at: int,
    s: Exact,
    a: u8,
    b: u8,
    r: u8,
    e: u8,
    q: u8,
    ex: u8,
    x: real,
    y: real,
)
    requires
        heads(p.div_pd_finite(a, b, r, e, q, ex), consts),
        0 <= at < 16,
        at % 2 == 0,
        p.kscr != 0,
        operands_pd(p.exactly(consts, at, s), a, b, r, e, q, ex, x, y),
        1 <= exact::exponent(y) <= 2045,
        y != (0int as real),
    ensures
        heads(p, consts),
        ({
            let t = p.exactly(consts, at, s);
            let u = p.div_pd_finite(a, b, r, e, q, ex).exactly(consts, at, s);
            &&& u == (Exact { z: u.z, k: u.k, eax: u.eax, ..t })
            &&& u.z[e] == Elem::Double(x / y)
            &&& u.z[a] == Elem::Double(x)
            &&& u.z[b] == Elem::Double(y)
            &&& u.z.dom().contains(e)
        }),
{
    reveal(Prog::div_pd_finite);
    let zero = 0int as real;
    let one = 1int as real;
    let f = exact::power(1023 - exact::exponent(y));
    let v = y * f;
    lemma_power(1023 - exact::exponent(y));
    assert(v != zero) by (nonlinear_arith)
        requires
            v == y * f,
            y != zero,
            f > zero,
            zero == (0int as real),
    ;
    let inv = one / v;
    lemma_inverse(v);
    lemma_halves();
    let p1 = scaled_pd(p, a, b, r, e, q, ex);
    let p2 = p1.mvex(1, 1, 1, 0x5A, e, 0, Rm::Reg(r), 0, 0, None).mvex(
        2,
        1,
        0,
        0xCA,
        e,
        0,
        Rm::Reg(e),
        0,
        0,
        None,
    ).mvex(1, 0, 0, 0x5A, q, 0, Rm::Reg(e), 0, 0, None);
    let c = prog::splat64(divide::F64_ONE);
    let i = p2.index_of(c);
    let p3 = p2.constant(c);
    let p4 = p3.recip_step_pd(i, r, e, q);
    let p5 = p4.recip_step_pd(i, r, e, q);
    let p6 = p5.vmulp(e, ex, Rm::Reg(q), 1);
    let p7 = p6.fma(0xBC, ex, r, Rm::Reg(e), 1);
    let p8 = p7.fma(0xB8, e, ex, Rm::Reg(q), 1);
    assert(p8 == p.div_pd_finite(a, b, r, e, q, ex));
    assert(heads(p3, consts));
    lemma_splat64(p2, divide::F64_ONE, consts, at, p3.exactly(consts, at, s));
    lemma_scaled_pd(p, consts, at, s, a, b, r, e, q, ex, x, y);
    lemma_seed(p1, consts, at, s, 0xCA, e, q, r, v);
    lemma_recip_step(p3, consts, at, s, i, r, e, q, v, inv);
    lemma_splat64(p2, divide::F64_ONE, consts, at, p4.exactly(consts, at, s));
    lemma_recip_step(p4, consts, at, s, i, r, e, q, v, inv);
    exact::lemma_vmulp(p5, consts, at, s, e, ex, Rm::Reg(q), 1);
    exact::lemma_fma(p6, consts, at, s, 0xBC, ex, r, Rm::Reg(e), 1);
    let w = f * x;
    assert(w - v * (w * inv) == zero) by (nonlinear_arith)
        requires
            v * inv == one,
            one == (1int as real),
            zero == (0int as real),
    ;
    assert(p7.exactly(consts, at, s).z[ex] == Elem::Double(zero));
    exact::lemma_fma(p7, consts, at, s, 0xB8, e, ex, Rm::Reg(q), 1);
    assert(zero * inv == zero) by (nonlinear_arith)
        requires
            zero == (0int as real),
    ;
    lemma_same_quotient(x, y, f, inv);
}

/// Scaling both operands leaves the quotient.
proof fn lemma_same_quotient(x: real, y: real, f: real, inv: real)
    requires
        y != (0int as real),
        (y * f) * inv == (1int as real),
    ensures
        (f * x) * inv == x / y,
{
    let c = x / y;
    assert(c * y == x) by (nonlinear_arith)
        requires
            y != (0int as real),
            c == x / y,
    ;
    assert((f * x) * inv == c * ((y * f) * inv)) by (nonlinear_arith)
        requires
            c * y == x,
    ;
    assert(c * (1int as real) == c) by (nonlinear_arith);
}

/// An instruction of the bits whose result is not looked at.
proof fn lemma_unread(
    p: Prog,
    consts: Seq<Seq<u8>>,
    at: int,
    s: Exact,
    op: u8,
    d: u8,
    a: u8,
    x: Rm,
)
    requires
        op == 0xEF || op == 0xDB || op == 0xEB,
    ensures
        ({
            let t = p.exactly(consts, at, s);
            let u = p.i0f(op, d, a, x, 0, 1).exactly(consts, at, s);
            &&& u == (Exact { z: u.z, ..t })
            &&& exists|v: Elem| u.z == #[trigger] t.z.insert(d, v)
        }),
{
    let m = Mvex { map: 1, pp: 1, w: 1, op, reg: d, vvvv: a, rm: x, k: 0, sss: 0, imm: None };
    exact::lemma_mvex(p, consts, at, s, m);
}

/// The magnitude of a double.
proof fn lemma_magnitude_pd(
    p: Prog,
    consts: Seq<Seq<u8>>,
    at: int,
    s: Exact,
    e: u8,
    b: u8,
    c: Rm,
    y: real,
)
    requires
        p.exactly(consts, at, s).z[b] == Elem::Double(y),
        p.exactly(consts, at, s).operand(consts, at, c) == Elem::Bits(0xffff_ffff, 0x7fff_ffff),
    ensures
        p.i0f(0xDB, e, b, c, 0, 1).exactly(consts, at, s) == ({
            let t = p.exactly(consts, at, s);
            Exact { z: t.z.insert(e, Elem::Double(exact::magnitude(y))), ..t }
        }),
{
    exact::lemma_mvex(
        p,
        consts,
        at,
        s,
        Mvex { map: 1, pp: 1, w: 1, op: 0xDB, reg: e, vvvv: b, rm: c, k: 0, sss: 0, imm: None },
    );
}

/// A sum of doubles.
proof fn lemma_add_pd(p: Prog, consts: Seq<Seq<u8>>, at: int, s: Exact, d: u8, a: u8, b: u8, x: real, y: real)
    requires
        p.exactly(consts, at, s).z[a] == Elem::Double(x),
        p.exactly(consts, at, s).z[b] == Elem::Double(y),
    ensures
        p.mvex(1, 1, 1, 0x58, d, a, Rm::Reg(b), 0, 0, None).exactly(consts, at, s) == ({
            let t = p.exactly(consts, at, s);
            Exact { z: t.z.insert(d, Elem::Double(y + x)), ..t }
        }),
{
    exact::lemma_mvex(
        p,
        consts,
        at,
        s,
        Mvex { map: 1, pp: 1, w: 1, op: 0x58, reg: d, vvvv: a, rm: Rm::Reg(b), k: 0, sss: 0, imm: None },
    );
    assert(y + (1int as real) * (x * (1int as real)) == y + x) by (nonlinear_arith);
}

/// What is done for special operands, of operands that are not.
proof fn lemma_div_pd_special(
    p: Prog,
    consts: Seq<Seq<u8>>,
    at: int,
    s: Exact,
    a: u8,
    b: u8,
    r: u8,
    e: u8,
    q: u8,
    ex: u8,
    x: real,
    y: real,
)
    requires
        heads(p.div_pd_special(a, b, r, e, q, ex), consts),
        0 <= at < 16,
        at % 2 == 0,
        p.kscr != 0,
        operands_pd(p.exactly(consts, at, s), a, b, r, e, q, ex, x, y),
        p.exactly(consts, at, s).z.dom().contains(e),
        y != (0int as real),
    ensures
        heads(p, consts),
        p.div_pd_special(a, b, r, e, q, ex).exactly(consts, at, s).z[e] == p.exactly(
            consts,
            at,
            s,
        ).z[e],
        p.div_pd_special(a, b, r, e, q, ex).exactly(consts, at, s).ok == p.exactly(
            consts,
            at,
            s,
        ).ok,
{
    reveal(Prog::div_pd_special);
    lemma_halves();
    let k = p.kscr;
    let ca = prog::splat64(0x7fff_ffff_ffff_ffff);
    let cs = prog::splat64(0x8000_0000_0000_0000);
    let cz = prog::splat64(0);
    let ci = prog::splat64(divide::F64_INF);
    let cn = prog::splat64(0xfff8_0000_0000_0000);
    let absm = p.index_of(ca);
    let p1 = p.constant(ca);
    let signm = p1.index_of(cs);
    let p2 = p1.constant(cs);
    let zero = p2.index_of(cz);
    let p3 = p2.constant(cz);
    let inf = p3.index_of(ci);
    let p4 = p3.constant(ci);
    let nan = p4.index_of(cn);
    let p5 = p4.constant(cn);
    let q1 = p5.i0f(0xEF, q, a, Rm::Reg(b), 0, 1);
    let q2 = q1.i0f(0xDB, q, q, Rm::Const(signm), 0, 1);
    let q3 = q2.i0f(0xDB, r, b, Rm::Const(absm), 0, 1);
    let q4 = q3.compare(k, r, Rm::Const(zero), 0, 0, 1);
    let q5 = q4.i0f(0xEB, ex, q, Rm::Const(inf), 0, 1);
    let q6 = q5.vmov(e, Rm::Reg(ex), k, 1);
    let q7 = q6.compare(k, r, Rm::Const(inf), 0, 0, 1).vmov(e, Rm::Reg(q), k, 1);
    let q8 = q7.i0f(0xDB, ex, a, Rm::Const(absm), 0, 1);
    let q9 = q8.mvex(1, 1, 1, 0x58, r, r, Rm::Reg(ex), 0, 0, None);
    let q10 = q9.compare(k, r, Rm::Const(zero), 0, 0, 1).vmov(e, Rm::Const(nan), k, 1);
    let q11 = q10.compare(k, a, Rm::Reg(a), 3, 0, 1).vmov(e, Rm::Reg(a), k, 1);
    let q12 = q11.compare(k, b, Rm::Reg(b), 3, 0, 1).vmov(e, Rm::Reg(b), k, 1);
    assert(q12 == p.div_pd_special(a, b, r, e, q, ex));
    assert(heads(p5, consts));
    lemma_constant(p4, cn, consts);
    let my = exact::magnitude(y);
    let mx = exact::magnitude(x);
    let none = 0int as real;
    assert(my > none);
    lemma_splat64(p3, divide::F64_INF, consts, at, q6.exactly(consts, at, s));
    lemma_splat64(p2, 0, consts, at, q3.exactly(consts, at, s));
    lemma_splat64(p2, 0, consts, at, q9.exactly(consts, at, s));
    lemma_constant(p1, cs, consts);
    lemma_splat64(p, 0x7fff_ffff_ffff_ffff, consts, at, q2.exactly(consts, at, s));
    lemma_splat64(p, 0x7fff_ffff_ffff_ffff, consts, at, q7.exactly(consts, at, s));
    lemma_unread(p5, consts, at, s, 0xEF, q, a, Rm::Reg(b));
    lemma_unread(q1, consts, at, s, 0xDB, q, q, Rm::Const(signm));
    lemma_magnitude_pd(q2, consts, at, s, r, b, Rm::Const(absm), y);
    exact::lemma_unequal(q3, consts, at, s, k, r, Rm::Const(zero), 0, 1);
    lemma_unread(q4, consts, at, s, 0xEB, ex, q, Rm::Const(inf));
    exact::lemma_no_vmov(q5, consts, at, s, e, Rm::Reg(ex), k, 1);
    lemma_passed_over(q6, consts, at, s, k, r, Rm::Const(inf), 0, e, Rm::Reg(q), 1);
    lemma_magnitude_pd(q7, consts, at, s, ex, a, Rm::Const(absm), x);
    lemma_add_pd(q8, consts, at, s, r, r, ex, my, mx);
    assert(mx + my != none);
    lemma_passed_over(q9, consts, at, s, k, r, Rm::Const(zero), 0, e, Rm::Const(nan), 1);
    lemma_passed_over(q10, consts, at, s, k, a, Rm::Reg(a), 3, e, Rm::Reg(a), 1);
    lemma_passed_over(q11, consts, at, s, k, b, Rm::Reg(b), 3, e, Rm::Reg(b), 1);
}

/// The doubles scaled for a square root: to an exponent of 1023 or 1024, by an
/// even power of two, and half of that power.
proof fn lemma_sqrt_scaled(
    p: Prog,
    consts: Seq<Seq<u8>>,
    at: int,
    s: Exact,
    a: u8,
    r: u8,
    e: u8,
    q: u8,
    ex: u8,
    x: real,
)
    requires
        heads(p.sqrt_pd_scaled(a, r, e, q, ex), consts),
        0 <= at < 16,
        p.kscr != 0,
        operands_pd(p.exactly(consts, at, s), a, a, r, e, q, ex, x, x),
        1 <= exact::exponent(x) <= 2046,
    ensures
        heads(p, consts),
        ({
            let t = p.exactly(consts, at, s);
            let u = p.sqrt_pd_scaled(a, r, e, q, ex).exactly(consts, at, s);
            let n = exact::exponent(x);
            let h = (n - (n + 1) % 2 - 1023) / 2;
            &&& u == (Exact { z: u.z, k: u.k, eax: u.eax, ..t })
            &&& u.z[r] == Elem::Double(x * exact::power(-h - h))
            &&& u.z[ex] == Elem::Double(exact::power(h))
            &&& u.z[a] == Elem::Double(x)
        }),
{
    let n = exact::exponent(x);
    let m = (n + 1) % 2;
    let h = (n - m - 1023) / 2;
    assert(n - m - 1023 == 2 * h);
    let p1 = p.dexp(ex, a);
    let c1 = prog::splat32(1);
    let one = p1.index_of(c1);
    let p2 = p1.constant(c1);
    let p3 = p2.i0f(0xFE, e, ex, Rm::Const(one), 0, 0);
    let p4 = p3.i0f(0xDB, e, e, Rm::Const(one), 0, 0);
    let c2 = prog::splat32(1023);
    let i2 = p4.index_of(c2);
    let p5 = p4.constant(c2);
    let p6 = p5.i0f(0xFE, e, e, Rm::Const(i2), 0, 0);
    let p7 = p6.dsetexp(r, a, e, q);
    let c3 = prog::splat32(2046);
    let i3 = p7.index_of(c3);
    let p8 = p7.constant(c3);
    let p9 = p8.i0f(0xFA, q, ex, Rm::Reg(e), 0, 0);
    let p10 = p9.i0f(0xFE, q, q, Rm::Const(i3), 0, 0);
    let p11 = p10.shift_imm(4, q, Rm::Reg(q), 1, 0);
    let p12 = p11.dpow2(ex, q);
    assert(p12 == p.sqrt_pd_scaled(a, r, e, q, ex));
    assert(heads(p8, consts));
    lemma_splat32(p7, 2046, consts, at, p9.exactly(consts, at, s));
    let cd = prog::splat32(0x800f_ffff);
    assert(p7.consts == p6.mask_imm(0xaaaa).constant(cd).consts);
    lemma_constant(p6.mask_imm(0xaaaa), cd, consts);
    assert(heads(p5, consts));
    lemma_splat32(p4, 1023, consts, at, p5.exactly(consts, at, s));
    assert(heads(p2, consts));
    lemma_splat32(p1, 1, consts, at, p2.exactly(consts, at, s));
    lemma_splat32(p1, 1, consts, at, p3.exactly(consts, at, s));
    lemma_dexp(p, consts, at, s, ex, a, x);
    lemma_field_op(p2, consts, at, s, 0xFE, e, ex, Rm::Const(one), n, 1);
    lemma_field_op(p3, consts, at, s, 0xDB, e, e, Rm::Const(one), n + 1, 1);
    lemma_field_op(p5, consts, at, s, 0xFE, e, e, Rm::Const(i2), m, 1023);
    lemma_dsetexp(p6, consts, at, s, r, a, e, q, x, m + 1023);
    lemma_field_op(p8, consts, at, s, 0xFA, q, ex, Rm::Reg(e), n, m + 1023);
    lemma_field_op(p9, consts, at, s, 0xFE, q, q, Rm::Const(i3), n - (m + 1023), 2046);
    let i = Mvex {
        map: 1,
        pp: 1,
        w: 0,
        op: 0x72,
        reg: 4,
        vvvv: q,
        rm: Rm::Reg(q),
        k: 0,
        sss: 0,
        imm: Some(1),
    };
    exact::lemma_mvex(p10, consts, at, s, i);
    assert((n - (m + 1023) + 2046) / 2 == h + 1023);
    assert(p11.exactly(consts, at, s).z[q] == Elem::Field(h + 1023));
    lemma_dpow2(p11, consts, at, s, ex, q, h + 1023);
    assert(m + 1023 - n == -h - h);
}

/// A Newton step from the reciprocal of a square root stays there.
proof fn lemma_rsqrt_step(
    p: Prog,
    consts: Seq<Seq<u8>>,
    at: int,
    s: Exact,
    half: usize,
    mhalf: usize,
    r: u8,
    e: u8,
    q: u8,
    v: real,
    y: real,
)
    requires
        e != q && e != r && q != r,
        forall|u: Exact|
            #![trigger u.operand(consts, at, Rm::Const(half))]
            u.operand(consts, at, Rm::Const(half)) == Elem::Bits(0, 0x3fe0_0000),
        forall|u: Exact|
            #![trigger u.operand(consts, at, Rm::Const(mhalf))]
            u.operand(consts, at, Rm::Const(mhalf)) == Elem::Bits(0, 0xbfe0_0000),
        p.exactly(consts, at, s).z[r] == Elem::Double(v),
        p.exactly(consts, at, s).z[q] == Elem::Double(y),
        is_root(v, y),
    ensures
        ({
            let b = p.exactly(consts, at, s);
            let a = p.rsqrt_step_pd(half, mhalf, r, e, q).exactly(consts, at, s);
            &&& a == (Exact { z: a.z, ..b })
            &&& a.z[q] == Elem::Double(y)
            &&& forall|i: u8| i != e && i != q ==> #[trigger] a.z[i] == b.z[i]
        }),
{
    let one = 1int as real;
    let h = one / (2int as real);
    lemma_root(v, y);
    let p1 = p.vmulp(e, r, Rm::Reg(q), 1);
    exact::lemma_vmulp(p, consts, at, s, e, r, Rm::Reg(q), 1);
    let p2 = p1.vmulp(e, e, Rm::Reg(q), 1);
    exact::lemma_vmulp(p1, consts, at, s, e, e, Rm::Reg(q), 1);
    assert(p2.exactly(consts, at, s).z[e] == Elem::Double(one));
    let p3 = p2.vmulp(e, e, Rm::Reg(q), 1);
    exact::lemma_vmulp(p2, consts, at, s, e, e, Rm::Reg(q), 1);
    assert(one * y == y) by (nonlinear_arith)
        requires
            one == (1int as real),
    ;
    assert(p3.exactly(consts, at, s).z[e] == Elem::Double(y));
    let p4 = p3.vmulp(e, e, Rm::Const(mhalf), 1);
    exact::lemma_vmulp(p3, consts, at, s, e, e, Rm::Const(mhalf), 1);
    let p5 = p4.fma(0xB8, q, q, Rm::Const(half), 1);
    exact::lemma_fma(p4, consts, at, s, 0xB8, q, q, Rm::Const(half), 1);
    lemma_add_pd(p5, consts, at, s, q, q, e, y + y * h, y * (-h));
    assert(y * (-h) + (y + y * h) == y) by (nonlinear_arith);
}

/// A double square root leaves a number whose square is the operand.
#[verifier::rlimit(40)]
proof fn lemma_sqrt_pd(
    p: Prog,
    consts: Seq<Seq<u8>>,
    at: int,
    s: Exact,
    a: u8,
    r: u8,
    e: u8,
    q: u8,
    ex: u8,
    x: real,
) -> (y: real)
    requires
        heads(p.sqrt_pd(a, r, e, q, ex), consts),
        0 <= at < 16,
        at % 2 == 0,
        p.kscr != 0,
        operands_pd(p.exactly(consts, at, s), a, a, r, e, q, ex, x, x),
        1 <= exact::exponent(x) <= 2046,
        x > (0int as real),
        forall|v: real|
            v > (0int as real) ==> is_root(v, #[trigger] (p.exactly(consts, at, s).root)(v)),
    ensures
        p.sqrt_pd(a, r, e, q, ex).exactly(consts, at, s).z[e] == Elem::Double(y),
        y * y == x,
        p.sqrt_pd(a, r, e, q, ex).exactly(consts, at, s).ok == p.exactly(consts, at, s).ok,
{
    reveal(Prog::sqrt_pd);
    lemma_halves();
    let k = p.kscr;
    let zero = 0int as real;
    let hf = (1int as real) / (2int as real);
    let n = exact::exponent(x);
    let h = (n - (n + 1) % 2 - 1023) / 2;
    let f = exact::power(-h - h);
    let v = x * f;
    lemma_power(-h - h);
    assert(v > zero) by (nonlinear_arith)
        requires
            v == x * f,
            x > zero,
            f > zero,
            zero == (0int as real),
    ;
    let y = (p.exactly(consts, at, s).root)(v);
    assert(is_root(v, y));
    lemma_root(v, y);
    let p1 = p.sqrt_pd_scaled(a, r, e, q, ex);
    let p2 = p1.mvex(1, 1, 1, 0x5A, e, 0, Rm::Reg(r), 0, 0, None).mvex(
        2,
        1,
        0,
        0xCB,
        e,
        0,
        Rm::Reg(e),
        0,
        0,
        None,
    ).mvex(1, 0, 0, 0x5A, q, 0, Rm::Reg(e), 0, 0, None);
    let ch = prog::splat64(divide::F64_HALF);
    let half = p2.index_of(ch);
    let p3 = p2.constant(ch);
    let cm = prog::splat64(divide::F64_MINUS_HALF);
    let mhalf = p3.index_of(cm);
    let p4 = p3.constant(cm);
    let p5 = p4.rsqrt_step_pd(half, mhalf, r, e, q);
    let p6 = p5.rsqrt_step_pd(half, mhalf, r, e, q);
    let p7 = p6.vmulp(e, r, Rm::Reg(q), 1);
    let p8 = p7.vmulp(q, q, Rm::Const(half), 1);
    let p9 = p8.fma(0xBC, r, e, Rm::Reg(e), 1);
    let p10 = p9.fma(0xB8, e, r, Rm::Reg(q), 1);
    let p11 = p10.vmulp(e, e, Rm::Reg(ex), 1);
    let cz = prog::splat64(0);
    let iz = p11.index_of(cz);
    let p12 = p11.constant(cz);
    let ci = prog::splat64(divide::F64_INF);
    let inf = p12.index_of(ci);
    let p13 = p12.constant(ci);
    let p14 = p13.compare(k, a, Rm::Const(iz), 0, 0, 1).vmov(e, Rm::Reg(a), k, 1);
    let p15 = p14.compare(k, a, Rm::Const(inf), 0, 0, 1).vmov(e, Rm::Reg(a), k, 1);
    let p16 = p15.compare(k, a, Rm::Reg(a), 3, 0, 1).vmov(e, Rm::Reg(a), k, 1);
    assert(p16 == p.sqrt_pd(a, r, e, q, ex));
    assert(heads(p13, consts));
    lemma_splat64(p12, divide::F64_INF, consts, at, p14.exactly(consts, at, s));
    assert(heads(p12, consts));
    lemma_splat64(p11, 0, consts, at, p13.exactly(consts, at, s));
    assert(heads(p4, consts));
    assert forall|u: Exact|
        #![trigger u.operand(consts, at, Rm::Const(mhalf))]
        u.operand(consts, at, Rm::Const(mhalf)) == Elem::Bits(0, 0xbfe0_0000) by {
        lemma_splat64(p3, divide::F64_MINUS_HALF, consts, at, u);
    }
    lemma_splat64(p3, divide::F64_MINUS_HALF, consts, at, s);
    assert forall|u: Exact|
        #![trigger u.operand(consts, at, Rm::Const(half))]
        u.operand(consts, at, Rm::Const(half)) == Elem::Bits(0, 0x3fe0_0000) by {
        lemma_splat64(p2, divide::F64_HALF, consts, at, u);
    }
    lemma_splat64(p2, divide::F64_HALF, consts, at, s);
    lemma_sqrt_scaled(p, consts, at, s, a, r, e, q, ex, x);
    lemma_seed(p1, consts, at, s, 0xCB, e, q, r, v);
    lemma_rsqrt_step(p4, consts, at, s, half, mhalf, r, e, q, v, y);
    lemma_rsqrt_step(p5, consts, at, s, half, mhalf, r, e, q, v, y);
    exact::lemma_vmulp(p6, consts, at, s, e, r, Rm::Reg(q), 1);
    exact::lemma_vmulp(p7, consts, at, s, q, q, Rm::Const(half), 1);
    exact::lemma_fma(p8, consts, at, s, 0xBC, r, e, Rm::Reg(e), 1);
    assert(p9.exactly(consts, at, s).z[r] == Elem::Double(zero));
    exact::lemma_fma(p9, consts, at, s, 0xB8, e, r, Rm::Reg(q), 1);
    assert(zero * (y * hf) == zero) by (nonlinear_arith)
        requires
            zero == (0int as real),
    ;
    assert(p10.exactly(consts, at, s).z[e] == Elem::Double(v * y));
    exact::lemma_vmulp(p10, consts, at, s, e, e, Rm::Reg(ex), 1);
    let g = exact::power(h);
    let root = (v * y) * g;
    assert(p11.exactly(consts, at, s).z[e] == Elem::Double(root));
    lemma_passed_over(p13, consts, at, s, k, a, Rm::Const(iz), 0, e, Rm::Reg(a), 1);
    lemma_passed_over(p14, consts, at, s, k, a, Rm::Const(inf), 0, e, Rm::Reg(a), 1);
    lemma_passed_over(p15, consts, at, s, k, a, Rm::Reg(a), 3, e, Rm::Reg(a), 1);
    lemma_powers(-h - h, h);
    lemma_powers(-h, h);
    assert(f * g == exact::power(-h));
    assert(f * g * g == (1int as real));
    assert(root * root == ((v * y) * (v * y)) * (g * g)) by (nonlinear_arith)
        requires
            root == (v * y) * g,
    ;
    assert(v * (g * g) == x * (f * g * g)) by (nonlinear_arith)
        requires
            v == x * f,
    ;
    assert(x * (1int as real) == x) by (nonlinear_arith);
    root
}

/// The sequences have few constants.
proof fn lemma_few_div_ps(p: Prog, a: u8, b: u8, r: u8, e: u8, q: u8)
    ensures
        p.div_ps(a, b, r, e, q).consts.len() <= p.consts.len() + 4,
        p.div_ps(a, b, r, e, q).kscr == p.kscr,
{
    reveal(Prog::div_ps);
}

proof fn lemma_few_sqrt_ps(p: Prog, a: u8, r: u8, e: u8, q: u8)
    ensures
        p.sqrt_ps(a, r, e, q).consts.len() <= p.consts.len() + 4,
        p.sqrt_ps(a, r, e, q).kscr == p.kscr,
{
    reveal(Prog::sqrt_ps);
}

proof fn lemma_few_div_pd(p: Prog, a: u8, b: u8, r: u8, e: u8, q: u8, ex: u8)
    ensures
        p.div_pd_finite(a, b, r, e, q, ex).consts.len() <= p.consts.len() + 5,
        p.div_pd_finite(a, b, r, e, q, ex).kscr == p.kscr,
{
    reveal(Prog::div_pd_finite);
}

proof fn lemma_few_div_special(p: Prog, a: u8, b: u8, r: u8, e: u8, q: u8, ex: u8)
    ensures
        p.div_pd_special(a, b, r, e, q, ex).consts.len() <= p.consts.len() + 5,
        p.div_pd_special(a, b, r, e, q, ex).kscr == p.kscr,
{
    reveal(Prog::div_pd_special);
}

proof fn lemma_few_sqrt_pd(p: Prog, a: u8, r: u8, e: u8, q: u8, ex: u8)
    ensures
        p.sqrt_pd(a, r, e, q, ex).consts.len() <= p.consts.len() + 9,
        p.sqrt_pd(a, r, e, q, ex).kscr == p.kscr,
{
    reveal(Prog::sqrt_pd);
}

/// The sequence up to its arithmetic: four temporaries, each a register of its
/// own that the instruction does not name.
proof fn lemma_temps(scratch: i32, insn: Decoded, ev: Ev, consts: Seq<Seq<u8>>, at: int, s: Exact)
    requires
        meaning::between(insn, ev),
    ensures
        ({
            let p = Prog::start(scratch, insn);
            let r = p.next_temp();
            let p1 = p.temp();
            let e = p1.next_temp();
            let p2 = p1.temp();
            let q = p2.next_temp();
            let p3 = p2.temp().step(Step::K);
            let ex = p3.next_temp();
            let p4 = p3.temp();
            &&& r != e && r != q && r != ex && e != q && e != ex && q != ex
            &&& forall|z: u8| #[trigger] meaning::named(insn, z) ==> z != r && z != e && z != q && z
                != ex
            &&& p3.exactly(consts, at, s) == s
            &&& p4.exactly(consts, at, s) == s
            &&& p3.consts.len() == 0 && p4.consts.len() == 0
            &&& p3.kscr != 0 && p4.kscr == p3.kscr
        }),
{
    reveal(Exact::step);
    let p = Prog::start(scratch, insn);
    let ops = prog::operand_vregs(insn, insn.head.op_count as int);
    meaning::lemma_few_vregs(insn, insn.head.op_count as int);
    laws::law_scratch_mask(scratch, insn);
    meaning::lemma_begin(scratch, insn, ev);
    let r = p.next_temp();
    let p1 = p.temp();
    let e = p1.next_temp();
    let p2 = p1.temp();
    let q = p2.next_temp();
    let pt = p2.temp();
    let p3 = pt.step(Step::K);
    let ex = p3.next_temp();
    let u0 = ops + seq![];
    let u1 = ops + seq![r];
    let u2 = ops + seq![r, e];
    let u3 = ops + seq![r, e, q];
    assert(p1.temps =~= seq![r]);
    assert(p2.temps =~= seq![r, e]);
    assert(pt.temps =~= seq![r, e, q]);
    assert(p.operands + p.temps =~= u0);
    em::lemma_some_free(u0);
    em::lemma_some_free(u1);
    em::lemma_some_free(u2);
    em::lemma_some_free(u3);
    let n = ops.len() as int;
    assert(u1[n] == r);
    assert(u2[n] == r && u2[n + 1] == e);
    assert(u3[n] == r && u3[n + 1] == e && u3[n + 2] == q);
    assert forall|z: u8| #[trigger] meaning::named(insn, z) implies z != r && z != e && z != q && z
        != ex by {
        let i = choose|i: int| 0 <= i < ops.len() && ops[i] == z;
        assert(u0[i] == z && u1[i] == z && u2[i] == z && u3[i] == z);
    }
    exact::lemma_step(p, consts, at, s, Step::Temp(r));
    exact::lemma_step(p1, consts, at, s, Step::Temp(e));
    exact::lemma_step(p2, consts, at, s, Step::Temp(q));
    exact::lemma_step(pt, consts, at, s, Step::K);
    exact::lemma_step(p3, consts, at, s, Step::Temp(ex));
    assert(p1.exactly(consts, at, s) == p.step(Step::Temp(r)).exactly(consts, at, s));
    assert(p2.exactly(consts, at, s) == p1.step(Step::Temp(e)).exactly(consts, at, s));
    assert(pt.exactly(consts, at, s) == p2.step(Step::Temp(q)).exactly(consts, at, s));
    assert(p3.temp().exactly(consts, at, s) == p3.step(Step::Temp(ex)).exactly(consts, at, s));
}

/// The result written into the destination.
proof fn lemma_commit(p: Prog, consts: Seq<Seq<u8>>, at: int, s: Exact, d: u8, r: u8, ev: Ev)
    requires
        ev.ll == 2,
        ev.aaa == 0,
    ensures
        p.commit(d, r, ev).exactly(consts, at, s).z[d] == p.exactly(consts, at, s).z[r],
        p.commit(d, r, ev).exactly(consts, at, s).ok == p.exactly(consts, at, s).ok,
        p.commit(d, r, ev).consts == p.consts,
{
    reveal(Prog::commit);
    exact::lemma_vmov(p, consts, at, s, d, Rm::Reg(r), ev.w);
}

/// A division between registers, without a mask and at full length, leaves in
/// every lane of the destination the quotient of the sources, where the card's
/// estimates, products and sums are exact. A divisor is not zero; a double is
/// one whose exponent, and that of its reciprocal, a double has.
pub proof fn law_division(
    insn: Decoded,
    ev: Ev,
    scratch: i32,
    s: Exact,
    at: int,
    x: real,
    y: real,
)
    requires
        meaning::between(insn, ev),
        meaning::named(insn, ev.vvvv),
        meaning::named(insn, ev.rm),
        divide::is_division(insn.head.mnemonic),
        !divide::is_scalar(insn.head.mnemonic),
        ev.ll == 2,
        ev.aaa == 0,
        !ev.b,
        0 <= at < 16,
        ev.w == 1 ==> at % 2 == 0,
        s.z[ev.vvvv] == exact::holding(Some(x), ev.w),
        s.z[ev.rm] == exact::holding(Some(y), ev.w),
        y != (0int as real),
        ev.w == 1 ==> 1 <= exact::exponent(y) <= 2045,
    ensures
        divide::divsqrt_outcome(insn, ev, scratch) is Thunk,
        ({
            let p = divide::divsqrt_outcome(insn, ev, scratch)->Thunk_0;
            let after = p.exactly(p.consts, at, s);
            &&& after.z[ev.reg] == exact::holding(Some(x / y), ev.w)
            &&& after.ok == s.ok
        }),
{
    let fin = divide::divsqrt_outcome(insn, ev, scratch)->Thunk_0;
    let consts = fin.consts;
    let (a, b) = (ev.vvvv, ev.rm);
    lemma_temps(scratch, insn, ev, consts, at, s);
    let p = Prog::start(scratch, insn);
    let r = p.next_temp();
    let p1 = p.temp();
    let e = p1.next_temp();
    let p2 = p1.temp();
    let q = p2.next_temp();
    let p3 = p2.temp().step(Step::K);
    let ex = p3.next_temp();
    let p4 = p3.temp();
    if ev.w == 0 {
        let p5 = p3.div_ps(a, b, r, e, q);
        assert(fin == p5.commit(ev.reg, q, ev));
        lemma_commit(p5, consts, at, s, ev.reg, q, ev);
        lemma_few_div_ps(p3, a, b, r, e, q);
        assert(heads(p5, consts));
        lemma_div_ps(p3, consts, at, s, a, b, r, e, q, x, y);
    } else {
        let p5 = p4.div_pd_finite(a, b, r, e, q, ex);
        let p6 = p5.div_pd_special(a, b, r, e, q, ex);
        assert(fin == p6.commit(ev.reg, e, ev));
        lemma_commit(p6, consts, at, s, ev.reg, e, ev);
        lemma_few_div_pd(p4, a, b, r, e, q, ex);
        lemma_few_div_special(p5, a, b, r, e, q, ex);
        assert(heads(p6, consts));
        assert(heads(p5, consts)) by {
            reveal(Prog::div_pd_special);
            let c1 = prog::splat64(0x7fff_ffff_ffff_ffff);
            let c2 = prog::splat64(0x8000_0000_0000_0000);
            let c3 = prog::splat64(0);
            let c4 = prog::splat64(divide::F64_INF);
            let c5 = prog::splat64(0xfff8_0000_0000_0000);
            let d1 = p5.constant(c1);
            let d2 = d1.constant(c2);
            let d3 = d2.constant(c3);
            let d4 = d3.constant(c4);
            let d5 = d4.constant(c5);
            assert(p6.consts == d5.consts);
            lemma_constant(d4, c5, consts);
            lemma_constant(d3, c4, consts);
            lemma_constant(d2, c3, consts);
            lemma_constant(d1, c2, consts);
            lemma_constant(p5, c1, consts);
        }
        lemma_div_pd_finite(p4, consts, at, s, a, b, r, e, q, ex, x, y);
        lemma_div_pd_special(p5, consts, at, s, a, b, r, e, q, ex, x, y);
    }
}

/// A square root between registers, without a mask and at full length, leaves
/// in every lane of the destination a number whose square is the source's,
/// where the card's estimates, products and sums are exact. The source is
/// above zero; a double is one whose exponent a double has.
pub proof fn law_square_root(
    insn: Decoded,
    ev: Ev,
    scratch: i32,
    s: Exact,
    at: int,
    x: real,
) -> (y: real)
    requires
        meaning::between(insn, ev),
        meaning::named(insn, ev.rm),
        !divide::is_division(insn.head.mnemonic),
        !divide::is_scalar(insn.head.mnemonic),
        ev.ll == 2,
        ev.aaa == 0,
        !ev.b,
        0 <= at < 16,
        ev.w == 1 ==> at % 2 == 0,
        s.z[ev.rm] == exact::holding(Some(x), ev.w),
        x > (0int as real),
        ev.w == 1 ==> 1 <= exact::exponent(x) <= 2046,
        forall|v: real| v > (0int as real) ==> is_root(v, #[trigger] (s.root)(v)),
    ensures
        divide::divsqrt_outcome(insn, ev, scratch) is Thunk,
        ({
            let p = divide::divsqrt_outcome(insn, ev, scratch)->Thunk_0;
            let after = p.exactly(p.consts, at, s);
            &&& after.z[ev.reg] == exact::holding(Some(y), ev.w)
            &&& after.ok == s.ok
        }),
        y * y == x,
{
    let fin = divide::divsqrt_outcome(insn, ev, scratch)->Thunk_0;
    let consts = fin.consts;
    let a = ev.rm;
    lemma_temps(scratch, insn, ev, consts, at, s);
    let p = Prog::start(scratch, insn);
    let r = p.next_temp();
    let p1 = p.temp();
    let e = p1.next_temp();
    let p2 = p1.temp();
    let q = p2.next_temp();
    let p3 = p2.temp().step(Step::K);
    let ex = p3.next_temp();
    let p4 = p3.temp();
    if ev.w == 0 {
        let p5 = p3.sqrt_ps(a, r, e, q);
        assert(fin == p5.commit(ev.reg, q, ev));
        lemma_commit(p5, consts, at, s, ev.reg, q, ev);
        lemma_few_sqrt_ps(p3, a, r, e, q);
        assert(heads(p5, consts));
        assert(is_root(x, (s.root)(x)));
        lemma_root(x, (s.root)(x));
        lemma_sqrt_ps(p3, consts, at, s, a, r, e, q, x);
        x * (s.root)(x)
    } else {
        let p5 = p4.sqrt_pd(a, r, e, q, ex);
        assert(fin == p5.commit(ev.reg, e, ev));
        lemma_commit(p5, consts, at, s, ev.reg, e, ev);
        lemma_few_sqrt_pd(p4, a, r, e, q, ex);
        assert(heads(p5, consts));
        lemma_sqrt_pd(p4, consts, at, s, a, r, e, q, ex, x)
    }
}

} // verus!
