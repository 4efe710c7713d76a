//! What the steps of the float kernels do when they are run, with exact
//! arithmetic: each adds to its accumulators the products of the weights and
//! the activations it comes to.
use crate::kernelgen::dot;
use crate::kernelgen::dots::{exact, is_num, num, total};
use crate::kernelgen::listing::Listing;
use crate::kernelgen::machine::lines_of;
use crate::kernelgen::quant_kernels::{op_clear, op_fold};
use crate::kernelgen::quant_text::{lemma_blank, lemma_cat, lemma_written};
use crate::kernelgen::vector::{Form, Lane, Op, Unit};
use crate::mvex::encode::InsnV;
use crate::mvex::reg::{Conv, Gpr, Mem, Src, Zmm};
use vstd::prelude::*;

verus! {

/// Sixteen floats at any address.
pub open spec fn ops_pair(z: u8, base: Gpr, disp: int) -> Seq<Op> {
    Seq::<Op>::empty().push(
        Op::Low {
            z: Zmm(z),
            m: Mem::at(base, disp as i32),
            conv: Conv::Plain,
            ints: true,
            masked: false,
        },
    ).push(
        Op::High {
            z: Zmm(z),
            m: Mem::at(base, (disp + 64) as i32),
            conv: Conv::Plain,
            ints: true,
            masked: false,
        },
    )
}

/// Sixteen weights.
pub open spec fn ops_weights(z: u8, disp: int, half: bool) -> Seq<Op> {
    if half {
        Seq::<Op>::empty().push(
            Op::Load { z: Zmm(z), m: Mem::at(Gpr::Rdi, disp as i32), conv: Conv::F16 },
        )
    } else {
        ops_pair(z, Gpr::Rdi, disp)
    }
}

/// A product added.
pub open spec fn op_fma(acc: u8, w: u8, x: u8) -> Op {
    Op::Fma { z: Zmm(acc), a: Zmm(w), b: Src::Reg(Zmm(x)) }
}

/// The bytes of a vector of weights.
pub open spec fn step(half: bool) -> int {
    if half {
        32
    } else {
        64
    }
}

/// One vector of one row.
pub open spec fn ops_one(half: bool) -> Seq<Op> {
    (ops_weights(4, 0, half) + ops_pair(8, Gpr::Rsi, 0)).push(op_fma(0, 4, 8))
}

/// Four vectors of one row.
pub open spec fn ops_four(half: bool) -> Seq<Op> {
    (ops_weights(4, 0, half) + ops_weights(5, step(half), half) + ops_weights(
        6,
        2 * step(half),
        half,
    ) + ops_weights(7, 3 * step(half), half) + ops_pair(8, Gpr::Rsi, 0) + ops_pair(
        9,
        Gpr::Rsi,
        64,
    ) + ops_pair(10, Gpr::Rsi, 128) + ops_pair(11, Gpr::Rsi, 192)).push(op_fma(0, 4, 8)).push(
        op_fma(1, 5, 9),
    ).push(op_fma(2, 6, 10)).push(op_fma(3, 7, 11))
}

/// One vector of four rows.
pub open spec fn ops_rows(half: bool) -> Seq<Op> {
    (ops_weights(4, 0, half) + ops_pair(8, Gpr::Rsi, 0) + ops_pair(9, Gpr::R9, 0) + ops_pair(
        10,
        Gpr::R10,
        0,
    ) + ops_pair(11, Gpr::R11, 0)).push(op_fma(0, 4, 8)).push(op_fma(1, 4, 9)).push(
        op_fma(2, 4, 10),
    ).push(op_fma(3, 4, 11))
}

/// The accumulators cleared.
pub open spec fn ops_cleared() -> Seq<Op> {
    Seq::<Op>::empty().push(op_clear(0)).push(op_clear(1)).push(op_clear(2)).push(op_clear(3))
}

/// An accumulator stored.
pub open spec fn op_out(disp: i32, z: u8) -> Op {
    Op::Store { m: Mem::at(Gpr::Rcx, disp), z: Zmm(z), conv: Conv::Plain, masked: false }
}

/// The accumulators of one row folded and stored.
pub open spec fn ops_end() -> Seq<Op> {
    Seq::<Op>::empty().push(op_fold(0, 1)).push(op_fold(2, 3)).push(op_fold(0, 2)).push(
        op_out(0, 0),
    )
}

/// The accumulators of four rows stored.
pub open spec fn ops_ends() -> Seq<Op> {
    Seq::<Op>::empty().push(op_out(0, 0)).push(op_out(64, 1)).push(op_out(128, 2)).push(
        op_out(192, 3),
    )
}

/// Lane `l` of the vector of weights at `a`.
pub open spec fn weight(u: Unit, half: bool, a: int, l: int) -> Lane {
    if half {
        (u.mem)(Form::Half, a + 2 * l)
    } else {
        (u.mem)(Form::Word, a + 4 * l)
    }
}

/// Lane `l` of the vector of activations at `a`.
pub open spec fn factor(u: Unit, a: int, l: int) -> Lane {
    (u.mem)(Form::Word, a + 4 * l)
}

/// Weight times activation, `j` vectors on.
pub open spec fn product(u: Unit, g: Map<Gpr, int>, half: bool, j: int, l: int) -> real {
    num(weight(u, half, g[Gpr::Rdi] + step(half) * j, l)) * num(
        factor(u, g[Gpr::Rsi] + 64 * j, l),
    )
}

/// What a load leaves: its register, and all else as it was.
spec fn fetched(u: Unit, n: Unit, z: u8, x: spec_fn(int) -> Lane) -> bool {
    &&& n == (Unit { z: n.z, ..u })
    &&& forall|l: int| 0 <= l < 16 ==> #[trigger] n.z[Zmm(z)][l] == x(l)
    &&& forall|r: Zmm| r != Zmm(z) ==> #[trigger] n.z[r] == u.z[r]
}

proof fn lemma_pair(u: Unit, g: Map<Gpr, int>, z: u8, base: Gpr, disp: int)
    requires
        0 <= disp <= 4096,
    ensures
        fetched(u, u.all(ops_pair(z, base, disp), g), z, |l: int| factor(u, g[base] + disp, l)),
{
    broadcast use {Mem::lemma_at, Unit::lemma_push};

    let ops = ops_pair(z, base, disp);
    let m = u.did(ops[0], g);
    let n = m.did(ops[1], g);
    assert(u.all(ops, g) == n);
    let a = g[base] + disp;
    assert((a + 64) % 64 == a % 64);
    assert forall|l: int| 0 <= l < 16 implies #[trigger] n.z[Zmm(z)][l] == factor(u, a, l) by {
        assert(m.z[Zmm(z)][l] == u.value(ops[0], g, l));
        assert(n.z[Zmm(z)][l] == m.value(ops[1], g, l));
    }
}

proof fn lemma_weights(u: Unit, g: Map<Gpr, int>, z: u8, disp: int, half: bool)
    requires
        0 <= disp <= 4096,
    ensures
        fetched(
            u,
            u.all(ops_weights(z, disp, half), g),
            z,
            |l: int| weight(u, half, g[Gpr::Rdi] + disp, l),
        ),
{
    broadcast use {Mem::lemma_at, Unit::lemma_push};

    if half {
        let ops = ops_weights(z, disp, half);
        assert(u.all(ops, g) == u.did(ops[0], g));
    } else {
        lemma_pair(u, g, z, Gpr::Rdi, disp);
    }
}

/// One vector of one row adds its products.
pub proof fn law_one(u: Unit, g: Map<Gpr, int>, half: bool, l: int)
    requires
        exact(u.ar),
        0 <= l < 16,
        forall|r: Zmm| r.0 < 4 ==> is_num(#[trigger] u.z[r][l]),
        is_num(weight(u, half, g[Gpr::Rdi], l)),
        is_num(factor(u, g[Gpr::Rsi], l)),
    ensures
        ({
            let n = u.all(ops_one(half), g);
            &&& n == (Unit { z: n.z, ..u })
            &&& forall|r: Zmm| r.0 < 4 ==> is_num(#[trigger] n.z[r][l])
            &&& total(n, 1, 0, l) == total(u, 1, 0, l) + product(u, g, half, 0, l)
        }),
{
    let (a, b) = (ops_weights(4, 0, half), ops_pair(8, Gpr::Rsi, 0));
    u.lemma_parts(a, b, g);
    lemma_weights(u, g, 4, 0, half);
    let u1 = u.all(a, g);
    lemma_pair(u1, g, 8, Gpr::Rsi, 0);
    let u2 = u1.all(b, g);
    u.lemma_push(a + b, op_fma(0, 4, 8), g);
    let n = u2.did(op_fma(0, 4, 8), g);
    assert(u2.z[Zmm(4)] == u1.z[Zmm(4)]);
    assert(u2.z[Zmm(4)][l] == weight(u, half, g[Gpr::Rdi], l));
    assert(u2.z[Zmm(8)][l] == factor(u, g[Gpr::Rsi], l));
    assert forall|r: Zmm| r.0 < 4 implies #[trigger] u2.z[r] == u.z[r] by {
        assert(u2.z[r] == u1.z[r]);
    }
    assert(is_num(u.z[Zmm(0)][l]));
    assert(step(half) * 0 == 0);
    assert forall|r: Zmm| r.0 < 4 implies is_num(#[trigger] n.z[r][l]) by {
        assert(is_num(u.z[r][l]));
        assert(u2.z[r] == u.z[r]);
    }
    assert(u2.z[Zmm(1)] == u.z[Zmm(1)] && u2.z[Zmm(2)] == u.z[Zmm(2)] && u2.z[Zmm(3)]
        == u.z[Zmm(3)] && u2.z[Zmm(0)] == u.z[Zmm(0)]);
}

/// The eight vectors that four of one row take.
spec fn taken(u: Unit, n: Unit, g: Map<Gpr, int>, half: bool) -> bool {
    &&& n == (Unit { z: n.z, ..u })
    &&& forall|r: Zmm| r.0 < 4 ==> #[trigger] n.z[r] == u.z[r]
    &&& forall|j: int, l: int|
        0 <= j < 4 && 0 <= l < 16 ==> #[trigger] n.z[Zmm((4 + j) as u8)][l] == weight(
            u,
            half,
            g[Gpr::Rdi] + step(half) * j,
            l,
        )
    &&& forall|j: int, l: int|
        0 <= j < 4 && 0 <= l < 16 ==> #[trigger] n.z[Zmm((8 + j) as u8)][l] == factor(
            u,
            g[Gpr::Rsi] + 64 * j,
            l,
        )
}

proof fn lemma_taken(u: Unit, g: Map<Gpr, int>, half: bool)
    ensures
        taken(
            u,
            u.all(
                ops_weights(4, 0, half) + ops_weights(5, step(half), half) + ops_weights(
                    6,
                    2 * step(half),
                    half,
                ) + ops_weights(7, 3 * step(half), half) + ops_pair(8, Gpr::Rsi, 0) + ops_pair(
                    9,
                    Gpr::Rsi,
                    64,
                ) + ops_pair(10, Gpr::Rsi, 128) + ops_pair(11, Gpr::Rsi, 192),
                g,
            ),
            g,
            half,
        ),
{
    let s = step(half);
    let (a, b, c, d) = (
        ops_weights(4, 0, half),
        ops_weights(5, s, half),
        ops_weights(6, 2 * s, half),
        ops_weights(7, 3 * s, half),
    );
    let (e, f, h, i) = (
        ops_pair(8, Gpr::Rsi, 0),
        ops_pair(9, Gpr::Rsi, 64),
        ops_pair(10, Gpr::Rsi, 128),
        ops_pair(11, Gpr::Rsi, 192),
    );
    u.lemma_parts(a, b, g);
    u.lemma_parts(a + b, c, g);
    u.lemma_parts(a + b + c, d, g);
    u.lemma_parts(a + b + c + d, e, g);
    u.lemma_parts(a + b + c + d + e, f, g);
    u.lemma_parts(a + b + c + d + e + f, h, g);
    u.lemma_parts(a + b + c + d + e + f + h, i, g);
    lemma_weights(u, g, 4, 0, half);
    let u1 = u.all(a, g);
    lemma_weights(u1, g, 5, s, half);
    let u2 = u1.all(b, g);
    lemma_weights(u2, g, 6, 2 * s, half);
    let u3 = u2.all(c, g);
    lemma_weights(u3, g, 7, 3 * s, half);
    let u4 = u3.all(d, g);
    lemma_pair(u4, g, 8, Gpr::Rsi, 0);
    let u5 = u4.all(e, g);
    lemma_pair(u5, g, 9, Gpr::Rsi, 64);
    let u6 = u5.all(f, g);
    lemma_pair(u6, g, 10, Gpr::Rsi, 128);
    let u7 = u6.all(h, g);
    lemma_pair(u7, g, 11, Gpr::Rsi, 192);
    let n = u7.all(i, g);
    assert forall|r: Zmm| r.0 < 4 implies #[trigger] n.z[r] == u.z[r] by {
        assert(n.z[r] == u7.z[r] && u7.z[r] == u6.z[r] && u6.z[r] == u5.z[r] && u5.z[r] == u4.z[r]
            && u4.z[r] == u3.z[r] && u3.z[r] == u2.z[r] && u2.z[r] == u1.z[r] && u1.z[r]
            == u.z[r]);
    }
    assert(n.z[Zmm(4)] == u1.z[Zmm(4)]) by {
        let r = Zmm(4);
        assert(n.z[r] == u7.z[r] && u7.z[r] == u6.z[r] && u6.z[r] == u5.z[r] && u5.z[r] == u4.z[r]
            && u4.z[r] == u3.z[r] && u3.z[r] == u2.z[r] && u2.z[r] == u1.z[r]);
    }
    assert(n.z[Zmm(5)] == u2.z[Zmm(5)]) by {
        let r = Zmm(5);
        assert(n.z[r] == u7.z[r] && u7.z[r] == u6.z[r] && u6.z[r] == u5.z[r] && u5.z[r] == u4.z[r]
            && u4.z[r] == u3.z[r] && u3.z[r] == u2.z[r]);
    }
    assert(n.z[Zmm(6)] == u3.z[Zmm(6)]) by {
        let r = Zmm(6);
        assert(n.z[r] == u7.z[r] && u7.z[r] == u6.z[r] && u6.z[r] == u5.z[r] && u5.z[r] == u4.z[r]
            && u4.z[r] == u3.z[r]);
    }
    assert(n.z[Zmm(7)] == u4.z[Zmm(7)]) by {
        let r = Zmm(7);
        assert(n.z[r] == u7.z[r] && u7.z[r] == u6.z[r] && u6.z[r] == u5.z[r] && u5.z[r]
            == u4.z[r]);
    }
    assert(n.z[Zmm(8)] == u5.z[Zmm(8)]) by {
        let r = Zmm(8);
        assert(n.z[r] == u7.z[r] && u7.z[r] == u6.z[r] && u6.z[r] == u5.z[r]);
    }
    assert(n.z[Zmm(9)] == u6.z[Zmm(9)]) by {
        let r = Zmm(9);
        assert(n.z[r] == u7.z[r] && u7.z[r] == u6.z[r]);
    }
    assert(n.z[Zmm(10)] == u7.z[Zmm(10)]);
    assert forall|j: int, l: int| 0 <= j < 4 && 0 <= l < 16 implies #[trigger] n.z[Zmm(
        (4 + j) as u8,
    )][l] == weight(u, half, g[Gpr::Rdi] + step(half) * j, l) by {
        if j == 0 {
            assert(u1.z[Zmm(4)][l] == weight(u, half, g[Gpr::Rdi] + 0, l));
        } else if j == 1 {
            assert(u2.z[Zmm(5)][l] == weight(u1, half, g[Gpr::Rdi] + s, l));
        } else if j == 2 {
            assert(u3.z[Zmm(6)][l] == weight(u2, half, g[Gpr::Rdi] + 2 * s, l));
        } else {
            assert(u4.z[Zmm(7)][l] == weight(u3, half, g[Gpr::Rdi] + 3 * s, l));
        }
    }
    assert forall|j: int, l: int| 0 <= j < 4 && 0 <= l < 16 implies #[trigger] n.z[Zmm(
        (8 + j) as u8,
    )][l] == factor(u, g[Gpr::Rsi] + 64 * j, l) by {
        if j == 0 {
            assert(u5.z[Zmm(8)][l] == factor(u4, g[Gpr::Rsi] + 0, l));
        } else if j == 1 {
            assert(u6.z[Zmm(9)][l] == factor(u5, g[Gpr::Rsi] + 64, l));
        } else if j == 2 {
            assert(u7.z[Zmm(10)][l] == factor(u6, g[Gpr::Rsi] + 128, l));
        } else {
            assert(n.z[Zmm(11)][l] == factor(u7, g[Gpr::Rsi] + 192, l));
        }
    }
}

/// Four vectors of one row add their products.
pub proof fn law_four(u: Unit, g: Map<Gpr, int>, half: bool, l: int)
    requires
        exact(u.ar),
        0 <= l < 16,
        forall|r: Zmm| r.0 < 4 ==> is_num(#[trigger] u.z[r][l]),
        forall|j: int|
            0 <= j < 4 ==> is_num(
                #[trigger] weight(u, half, g[Gpr::Rdi] + step(half) * j, l),
            ),
        forall|j: int| 0 <= j < 4 ==> is_num(#[trigger] factor(u, g[Gpr::Rsi] + 64 * j, l)),
    ensures
        ({
            let n = u.all(ops_four(half), g);
            &&& n == (Unit { z: n.z, ..u })
            &&& forall|r: Zmm| r.0 < 4 ==> is_num(#[trigger] n.z[r][l])
            &&& total(n, 1, 0, l) == total(u, 1, 0, l) + product(u, g, half, 0, l) + product(
                u,
                g,
                half,
                1,
                l,
            ) + product(u, g, half, 2, l) + product(u, g, half, 3, l)
        }),
{
    broadcast use Unit::lemma_push;

    lemma_taken(u, g, half);
    let ops = ops_four(half);
    let s = step(half);
    let m = u.all(
        ops_weights(4, 0, half) + ops_weights(5, s, half) + ops_weights(6, 2 * s, half)
            + ops_weights(7, 3 * s, half) + ops_pair(8, Gpr::Rsi, 0) + ops_pair(9, Gpr::Rsi, 64)
            + ops_pair(10, Gpr::Rsi, 128) + ops_pair(11, Gpr::Rsi, 192),
        g,
    );
    let n1 = m.did(op_fma(0, 4, 8), g);
    let n2 = n1.did(op_fma(1, 5, 9), g);
    let n3 = n2.did(op_fma(2, 6, 10), g);
    let n = n3.did(op_fma(3, 7, 11), g);
    assert(u.all(ops, g) == n);
    assert(m.z[Zmm((4 + 0) as u8)][l] == weight(u, half, g[Gpr::Rdi] + step(half) * 0, l));
    assert(m.z[Zmm((4 + 1) as u8)][l] == weight(u, half, g[Gpr::Rdi] + step(half) * 1, l));
    assert(m.z[Zmm((4 + 2) as u8)][l] == weight(u, half, g[Gpr::Rdi] + step(half) * 2, l));
    assert(m.z[Zmm((4 + 3) as u8)][l] == weight(u, half, g[Gpr::Rdi] + step(half) * 3, l));
    assert(m.z[Zmm((8 + 0) as u8)][l] == factor(u, g[Gpr::Rsi] + 64 * 0, l));
    assert(m.z[Zmm((8 + 1) as u8)][l] == factor(u, g[Gpr::Rsi] + 64 * 1, l));
    assert(m.z[Zmm((8 + 2) as u8)][l] == factor(u, g[Gpr::Rsi] + 64 * 2, l));
    assert(m.z[Zmm((8 + 3) as u8)][l] == factor(u, g[Gpr::Rsi] + 64 * 3, l));
    assert(is_num(u.z[Zmm(0)][l]) && is_num(u.z[Zmm(1)][l]) && is_num(u.z[Zmm(2)][l]) && is_num(
        u.z[Zmm(3)][l],
    ));
    assert(m.z[Zmm(0)] == u.z[Zmm(0)] && m.z[Zmm(1)] == u.z[Zmm(1)] && m.z[Zmm(2)] == u.z[Zmm(2)]
        && m.z[Zmm(3)] == u.z[Zmm(3)]);
    assert forall|r: Zmm| r.0 < 4 implies is_num(#[trigger] n.z[r][l]) by {
        assert(r == Zmm(0) || r == Zmm(1) || r == Zmm(2) || r == Zmm(3));
    }
}

/// The accumulators of one row end as one sum in memory.
pub proof fn law_end(u: Unit, g: Map<Gpr, int>, l: int)
    requires
        exact(u.ar),
        0 <= l < 16,
        forall|r: Zmm| r.0 < 4 ==> is_num(#[trigger] u.z[r][l]),
    ensures
        (u.all(ops_end(), g).mem)(Form::Word, g[Gpr::Rcx] + 4 * l) == Lane::Num(total(u, 1, 0, l)),
{
    broadcast use {Mem::lemma_at, Unit::lemma_push};

    let n1 = u.did(op_fold(0, 1), g);
    let n2 = n1.did(op_fold(2, 3), g);
    let n3 = n2.did(op_fold(0, 2), g);
    assert(u.all(ops_end(), g) == n3.did(op_out(0, 0), g));
    assert(is_num(u.z[Zmm(0)][l]) && is_num(u.z[Zmm(1)][l]) && is_num(u.z[Zmm(2)][l]) && is_num(
        u.z[Zmm(3)][l],
    ));
    assert(n1.z[Zmm(0)][l] == Lane::Num(num(u.z[Zmm(0)][l]) + num(u.z[Zmm(1)][l])));
    assert(n2.z[Zmm(2)][l] == Lane::Num(num(u.z[Zmm(2)][l]) + num(u.z[Zmm(3)][l])));
    assert(n3.z[Zmm(0)][l] == Lane::Num(total(u, 1, 0, l)));
}

proof fn lemma_pair_text(l: Listing, z: u8, base: Gpr, disp: int)
    requires
        0 <= disp <= 4096,
    ensures
        l.all(dot::load_pair(z, base, disp as i32)) == l.lines(lines_of(ops_pair(z, base, disp))),
{
    let (a, b) = (dot::load_pair(z, base, disp as i32), ops_pair(z, base, disp));
    assert forall|i: int| 0 <= i < b.len() implies a[i] == (#[trigger] b[i]).insn() by {}
    l.lemma_ops(a, b);
}

proof fn lemma_weights_text(l: Listing, z: u8, disp: int, half: bool)
    requires
        0 <= disp <= 4096,
    ensures
        l.all(dot::weights(z, disp as i32, half)) == l.lines(
            lines_of(ops_weights(z, disp, half)),
        ),
{
    if half {
        let (a, b) = (dot::weights(z, disp as i32, half), ops_weights(z, disp, half));
        assert forall|i: int| 0 <= i < b.len() implies a[i] == (#[trigger] b[i]).insn() by {}
        l.lemma_ops(a, b);
    } else {
        lemma_pair_text(l, z, Gpr::Rdi, disp);
    }
}

/// The text of four vectors of one row.
pub proof fn law_four_text(l: Listing, half: bool)
    ensures
        dot::kernel_body(l, half) == l.lines(lines_of(ops_four(half))),
{
    let s = step(half);
    let (a, b, c, d) = (
        ops_weights(4, 0, half),
        ops_weights(5, s, half),
        ops_weights(6, 2 * s, half),
        ops_weights(7, 3 * s, half),
    );
    let (e, f, h, i) = (
        ops_pair(8, Gpr::Rsi, 0),
        ops_pair(9, Gpr::Rsi, 64),
        ops_pair(10, Gpr::Rsi, 128),
        ops_pair(11, Gpr::Rsi, 192),
    );
    lemma_cat(l, a, b);
    lemma_cat(l, a + b, c);
    lemma_cat(l, a + b + c, d);
    lemma_cat(l, a + b + c + d, e);
    lemma_cat(l, a + b + c + d + e, f);
    lemma_cat(l, a + b + c + d + e + f, h);
    lemma_cat(l, a + b + c + d + e + f + h, i);
    lemma_weights_text(l, 4, 0, half);
    let l1 = l.lines(lines_of(a));
    lemma_weights_text(l1, 5, s, half);
    let l2 = l1.lines(lines_of(b));
    lemma_weights_text(l2, 6, 2 * s, half);
    let l3 = l2.lines(lines_of(c));
    lemma_weights_text(l3, 7, 3 * s, half);
    let l4 = l3.lines(lines_of(d));
    lemma_pair_text(l4, 8, Gpr::Rsi, 0);
    let l5 = l4.lines(lines_of(e));
    lemma_pair_text(l5, 9, Gpr::Rsi, 64);
    let l6 = l5.lines(lines_of(f));
    lemma_pair_text(l6, 10, Gpr::Rsi, 128);
    let l7 = l6.lines(lines_of(h));
    lemma_pair_text(l7, 11, Gpr::Rsi, 192);
    broadcast use lemma_written;

}

/// The loads of one vector of four rows.
spec fn rows_taken(u: Unit, n: Unit, g: Map<Gpr, int>, half: bool) -> bool {
    &&& n == (Unit { z: n.z, ..u })
    &&& forall|r: Zmm| r.0 < 4 ==> #[trigger] n.z[r] == u.z[r]
    &&& forall|l: int|
        0 <= l < 16 ==> #[trigger] n.z[Zmm(4)][l] == weight(u, half, g[Gpr::Rdi], l) && n.z[Zmm(
            8,
        )][l] == factor(u, g[Gpr::Rsi], l) && n.z[Zmm(9)][l] == factor(u, g[Gpr::R9], l)
            && n.z[Zmm(10)][l] == factor(u, g[Gpr::R10], l) && n.z[Zmm(11)][l] == factor(
            u,
            g[Gpr::R11],
            l,
        )
}

proof fn lemma_rows_taken(u: Unit, g: Map<Gpr, int>, half: bool)
    ensures
        rows_taken(
            u,
            u.all(
                ops_weights(4, 0, half) + ops_pair(8, Gpr::Rsi, 0) + ops_pair(9, Gpr::R9, 0)
                    + ops_pair(10, Gpr::R10, 0) + ops_pair(11, Gpr::R11, 0),
                g,
            ),
            g,
            half,
        ),
{
    let (a, b, c, d, e) = (
        ops_weights(4, 0, half),
        ops_pair(8, Gpr::Rsi, 0),
        ops_pair(9, Gpr::R9, 0),
        ops_pair(10, Gpr::R10, 0),
        ops_pair(11, Gpr::R11, 0),
    );
    u.lemma_parts(a, b, g);
    u.lemma_parts(a + b, c, g);
    u.lemma_parts(a + b + c, d, g);
    u.lemma_parts(a + b + c + d, e, g);
    lemma_weights(u, g, 4, 0, half);
    let u1 = u.all(a, g);
    lemma_pair(u1, g, 8, Gpr::Rsi, 0);
    let u2 = u1.all(b, g);
    lemma_pair(u2, g, 9, Gpr::R9, 0);
    let u3 = u2.all(c, g);
    lemma_pair(u3, g, 10, Gpr::R10, 0);
    let u4 = u3.all(d, g);
    lemma_pair(u4, g, 11, Gpr::R11, 0);
    let n = u4.all(e, g);
    assert forall|r: Zmm| r.0 < 4 implies #[trigger] n.z[r] == u.z[r] by {
        assert(n.z[r] == u4.z[r] && u4.z[r] == u3.z[r] && u3.z[r] == u2.z[r] && u2.z[r] == u1.z[r]
            && u1.z[r] == u.z[r]);
    }
    assert(n.z[Zmm(4)] == u1.z[Zmm(4)]) by {
        let r = Zmm(4);
        assert(n.z[r] == u4.z[r] && u4.z[r] == u3.z[r] && u3.z[r] == u2.z[r] && u2.z[r]
            == u1.z[r]);
    }
    assert(n.z[Zmm(8)] == u2.z[Zmm(8)]) by {
        let r = Zmm(8);
        assert(n.z[r] == u4.z[r] && u4.z[r] == u3.z[r] && u3.z[r] == u2.z[r]);
    }
    assert(n.z[Zmm(9)] == u3.z[Zmm(9)]) by {
        let r = Zmm(9);
        assert(n.z[r] == u4.z[r] && u4.z[r] == u3.z[r]);
    }
    assert(n.z[Zmm(10)] == u4.z[Zmm(10)]);
    assert forall|l: int| 0 <= l < 16 implies #[trigger] n.z[Zmm(4)][l] == weight(
        u,
        half,
        g[Gpr::Rdi],
        l,
    ) && n.z[Zmm(8)][l] == factor(u, g[Gpr::Rsi], l) && n.z[Zmm(9)][l] == factor(
        u,
        g[Gpr::R9],
        l,
    ) && n.z[Zmm(10)][l] == factor(u, g[Gpr::R10], l) && n.z[Zmm(11)][l] == factor(
        u,
        g[Gpr::R11],
        l,
    ) by {
        assert(u1.z[Zmm(4)][l] == weight(u, half, g[Gpr::Rdi] + 0, l));
        assert(u2.z[Zmm(8)][l] == factor(u1, g[Gpr::Rsi] + 0, l));
        assert(u3.z[Zmm(9)][l] == factor(u2, g[Gpr::R9] + 0, l));
        assert(u4.z[Zmm(10)][l] == factor(u3, g[Gpr::R10] + 0, l));
        assert(n.z[Zmm(11)][l] == factor(u4, g[Gpr::R11] + 0, l));
    }
}

/// Where the row of accumulator `i` has come to.
pub open spec fn row_of(g: Map<Gpr, int>, i: int) -> int {
    if i == 0 {
        g[Gpr::Rsi]
    } else if i == 1 {
        g[Gpr::R9]
    } else if i == 2 {
        g[Gpr::R10]
    } else {
        g[Gpr::R11]
    }
}

/// One vector of four rows adds to each row's accumulator its products.
pub proof fn law_rows(u: Unit, g: Map<Gpr, int>, half: bool, l: int)
    requires
        exact(u.ar),
        0 <= l < 16,
        forall|r: Zmm| r.0 < 4 ==> is_num(#[trigger] u.z[r][l]),
        is_num(weight(u, half, g[Gpr::Rdi], l)),
        forall|i: int| 0 <= i < 4 ==> is_num(factor(u, #[trigger] row_of(g, i), l)),
    ensures
        ({
            let n = u.all(ops_rows(half), g);
            &&& n == (Unit { z: n.z, ..u })
            &&& forall|i: int|
                0 <= i < 4 ==> #[trigger] n.z[Zmm(i as u8)][l] == Lane::Num(
                    num(u.z[Zmm(i as u8)][l]) + num(weight(u, half, g[Gpr::Rdi], l)) * num(
                        factor(u, row_of(g, i), l),
                    ),
                )
        }),
{
    broadcast use Unit::lemma_push;

    lemma_rows_taken(u, g, half);
    let m = u.all(
        ops_weights(4, 0, half) + ops_pair(8, Gpr::Rsi, 0) + ops_pair(9, Gpr::R9, 0) + ops_pair(
            10,
            Gpr::R10,
            0,
        ) + ops_pair(11, Gpr::R11, 0),
        g,
    );
    let n1 = m.did(op_fma(0, 4, 8), g);
    let n2 = n1.did(op_fma(1, 4, 9), g);
    let n3 = n2.did(op_fma(2, 4, 10), g);
    let n = n3.did(op_fma(3, 4, 11), g);
    assert(u.all(ops_rows(half), g) == n);
    assert(m.z[Zmm(4)][l] == weight(u, half, g[Gpr::Rdi], l));
    assert(is_num(factor(u, row_of(g, 0), l)) && is_num(factor(u, row_of(g, 1), l)) && is_num(
        factor(u, row_of(g, 2), l),
    ) && is_num(factor(u, row_of(g, 3), l)));
    assert(is_num(u.z[Zmm(0)][l]) && is_num(u.z[Zmm(1)][l]) && is_num(u.z[Zmm(2)][l]) && is_num(
        u.z[Zmm(3)][l],
    ));
    assert(m.z[Zmm(0)] == u.z[Zmm(0)] && m.z[Zmm(1)] == u.z[Zmm(1)] && m.z[Zmm(2)] == u.z[Zmm(2)]
        && m.z[Zmm(3)] == u.z[Zmm(3)]);
    assert forall|i: int| 0 <= i < 4 implies #[trigger] n.z[Zmm(i as u8)][l] == Lane::Num(
        num(u.z[Zmm(i as u8)][l]) + num(weight(u, half, g[Gpr::Rdi], l)) * num(
            factor(u, row_of(g, i), l),
        ),
    ) by {
        if i == 0 {
            assert(n.z[Zmm(0)][l] == n1.z[Zmm(0)][l]);
        } else if i == 1 {
            assert(n.z[Zmm(1)][l] == n2.z[Zmm(1)][l]);
        } else if i == 2 {
            assert(n.z[Zmm(2)][l] == n3.z[Zmm(2)][l]);
        }
    }
}

/// The accumulators of four rows end in their places in memory.
pub proof fn law_ends(u: Unit, g: Map<Gpr, int>, i: int, l: int)
    requires
        0 <= i < 4,
        0 <= l < 16,
    ensures
        (u.all(ops_ends(), g).mem)(Form::Word, g[Gpr::Rcx] + 64 * i + 4 * l) == u.z[Zmm(
            i as u8,
        )][l],
{
    broadcast use {Mem::lemma_at, Unit::lemma_push};

    let n1 = u.did(op_out(0, 0), g);
    let n2 = n1.did(op_out(64, 1), g);
    let n3 = n2.did(op_out(128, 2), g);
    let n = n3.did(op_out(192, 3), g);
    assert(u.all(ops_ends(), g) == n);
    let a = g[Gpr::Rcx] + 64 * i + 4 * l;
    assert(n1.z == u.z && n2.z == u.z && n3.z == u.z);
    if i == 0 {
        assert((n1.mem)(Form::Word, a) == u.z[Zmm(0)][l]);
    } else if i == 1 {
        assert((n2.mem)(Form::Word, a) == u.z[Zmm(1)][l]);
    } else if i == 2 {
        assert((n3.mem)(Form::Word, a) == u.z[Zmm(2)][l]);
    } else {
        assert((n.mem)(Form::Word, a) == u.z[Zmm(3)][l]);
    }
}

/// The text of one vector of one row.
pub proof fn law_one_text(l: Listing, half: bool)
    ensures
        l.all(dot::weights(4, 0, half)).all(dot::load_pair(8, Gpr::Rsi, 0)).fma(0, 4, 8)
            == l.lines(lines_of(ops_one(half))),
{
    let (a, b) = (ops_weights(4, 0, half), ops_pair(8, Gpr::Rsi, 0));
    lemma_cat(l, a, b);
    lemma_weights_text(l, 4, 0, half);
    lemma_pair_text(l.lines(lines_of(a)), 8, Gpr::Rsi, 0);
    lemma_written(l, a + b, op_fma(0, 4, 8));
}

/// The text of one vector of four rows.
pub proof fn law_rows_text(l: Listing, half: bool)
    ensures
        l.all(dot::weights(4, 0, half)).all(dot::load_pair(8, Gpr::Rsi, 0)).all(
            dot::load_pair(9, Gpr::R9, 0),
        ).all(dot::load_pair(10, Gpr::R10, 0)).all(dot::load_pair(11, Gpr::R11, 0)).fma(
            0,
            4,
            8,
        ).fma(1, 4, 9).fma(2, 4, 10).fma(3, 4, 11) == l.lines(lines_of(ops_rows(half))),
{
    let (a, b, c, d, e) = (
        ops_weights(4, 0, half),
        ops_pair(8, Gpr::Rsi, 0),
        ops_pair(9, Gpr::R9, 0),
        ops_pair(10, Gpr::R10, 0),
        ops_pair(11, Gpr::R11, 0),
    );
    lemma_cat(l, a, b);
    lemma_cat(l, a + b, c);
    lemma_cat(l, a + b + c, d);
    lemma_cat(l, a + b + c + d, e);
    lemma_weights_text(l, 4, 0, half);
    let l1 = l.lines(lines_of(a));
    lemma_pair_text(l1, 8, Gpr::Rsi, 0);
    let l2 = l1.lines(lines_of(b));
    lemma_pair_text(l2, 9, Gpr::R9, 0);
    let l3 = l2.lines(lines_of(c));
    lemma_pair_text(l3, 10, Gpr::R10, 0);
    let l4 = l3.lines(lines_of(d));
    lemma_pair_text(l4, 11, Gpr::R11, 0);
    broadcast use lemma_written;

}

/// The text of a one-row kernel: its steps, between the lines that loop.
pub proof fn law_kernel_text(name: Seq<char>, half: bool)
    ensures
        dot::kernel_listing(name, half) == Listing::empty().lit("# "@).lit(name).lit(
            ": 16 partial sums of a[0..16*k16) . b[0..16*k16) into out[16]\n#   rdi = a ("@,
        ).lit(dot::weight_words(half)).lit(
            "), rsi = b (float32, any alignment), rdx = k16, rcx = out (64-byte aligned)\n"@,
        ).label(name).lines(lines_of(ops_cleared())).lit(
            "1:\n    cmp $4, %rdx\n    jl 2f\n"@,
        ).lines(lines_of(ops_four(half))).lit("    add $"@).num(4 * step(half)).lit(
            ", %rdi\n    add $256, %rsi\n    sub $4, %rdx\n    jmp 1b\n"@,
        ).lit("2:\n    test %rdx, %rdx\n    jle 3f\n"@).lines(lines_of(ops_one(half))).lit(
            "    add $"@,
        ).num(step(half)).lit(
            ", %rdi\n    add $64, %rsi\n    sub $1, %rdx\n    jmp 2b\n"@,
        ).lit("3:\n"@).lines(lines_of(ops_end())).lit("    ret\n"@).size(name),
{
    let h = Listing::empty().lit("# "@).lit(name).lit(
        ": 16 partial sums of a[0..16*k16) . b[0..16*k16) into out[16]\n#   rdi = a ("@,
    ).lit(dot::weight_words(half)).lit(
        "), rsi = b (float32, any alignment), rdx = k16, rcx = out (64-byte aligned)\n"@,
    ).label(name);
    let h1 = h.lines(lines_of(ops_cleared()));
    assert(h1 == h.clear(0).clear(1).clear(2).clear(3)) by {
        broadcast use {lemma_written, lemma_blank};

    }
    let h2 = h1.lit("1:\n    cmp $4, %rdx\n    jl 2f\n"@);
    law_four_text(h2, half);
    let h3 = h2.lines(lines_of(ops_four(half))).lit("    add $"@).num(4 * step(half)).lit(
        ", %rdi\n    add $256, %rsi\n    sub $4, %rdx\n    jmp 1b\n"@,
    ).lit("2:\n    test %rdx, %rdx\n    jle 3f\n"@);
    law_one_text(h3, half);
    let h4 = h3.lines(lines_of(ops_one(half))).lit("    add $"@).num(step(half)).lit(
        ", %rdi\n    add $64, %rsi\n    sub $1, %rdx\n    jmp 2b\n"@,
    ).lit("3:\n"@);
    assert(h4.lines(lines_of(ops_end())) == h4.fold(0, 1).fold(2, 3).fold(0, 2).i(
        InsnV::vmovaps_store(Mem::at(Gpr::Rcx, 0), Zmm(0)),
    )) by {
        broadcast use {lemma_written, lemma_blank};

    }
}

/// The text of a four-row kernel: its steps, between the lines that loop.
pub proof fn law_kernel4_text(name: Seq<char>, half: bool)
    ensures
        dot::kernel4_listing(name, half) == Listing::empty().lit("# "@).lit(name).lit(
            ": four dot products of a with b, b+nb, b+2nb, b+3nb; 16 partial sums each into out[4][16]\n#   rdi = a ("@,
        ).lit(dot::weight_words(half)).lit(
            "), rsi = b (float32, any alignment), rdx = k16, rcx = out (64-byte aligned), r8 = nb (bytes)\n"@,
        ).label(name).lit(
            "    lea (%rsi,%r8,1), %r9\n    lea (%r9,%r8,1), %r10\n    lea (%r10,%r8,1), %r11\n"@,
        ).lines(lines_of(ops_cleared())).lit(
            "1:\n    test %rdx, %rdx\n    jle 2f\n"@,
        ).lines(lines_of(ops_rows(half))).lit("    add $"@).num(step(half)).lit(
            ", %rdi\n    add $64, %rsi\n    add $64, %r9\n    add $64, %r10\n    add $64, %r11\n    sub $1, %rdx\n    jmp 1b\n"@,
        ).lit("2:\n"@).lines(lines_of(ops_ends())).lit("    ret\n"@).size(name),
{
    let h = Listing::empty().lit("# "@).lit(name).lit(
        ": four dot products of a with b, b+nb, b+2nb, b+3nb; 16 partial sums each into out[4][16]\n#   rdi = a ("@,
    ).lit(dot::weight_words(half)).lit(
        "), rsi = b (float32, any alignment), rdx = k16, rcx = out (64-byte aligned), r8 = nb (bytes)\n"@,
    ).label(name).lit(
        "    lea (%rsi,%r8,1), %r9\n    lea (%r9,%r8,1), %r10\n    lea (%r10,%r8,1), %r11\n"@,
    );
    let h1 = h.lines(lines_of(ops_cleared()));
    assert(h1 == h.clear(0).clear(1).clear(2).clear(3)) by {
        broadcast use {lemma_written, lemma_blank};

    }
    let h2 = h1.lit("1:\n    test %rdx, %rdx\n    jle 2f\n"@);
    law_rows_text(h2, half);
    let h3 = h2.lines(lines_of(ops_rows(half))).lit("    add $"@).num(step(half)).lit(
        ", %rdi\n    add $64, %rsi\n    add $64, %r9\n    add $64, %r10\n    add $64, %r11\n    sub $1, %rdx\n    jmp 1b\n"@,
    ).lit("2:\n"@);
    assert(h3.lines(lines_of(ops_ends())) == h3.i(
        InsnV::vmovaps_store(Mem::at(Gpr::Rcx, 0), Zmm(0)),
    ).i(InsnV::vmovaps_store(Mem::at(Gpr::Rcx, 64), Zmm(1))).i(
        InsnV::vmovaps_store(Mem::at(Gpr::Rcx, 128), Zmm(2)),
    ).i(InsnV::vmovaps_store(Mem::at(Gpr::Rcx, 192), Zmm(3)))) by {
        broadcast use {lemma_written, lemma_blank};

    }
}

} // verus!
