//! What the SwiGLU kernels do when they are run, on the core of
//! [`crate::kernelgen::machine`].
use crate::kernelgen::glu;
use crate::kernelgen::glu::{Out, COUNT, G, H, U};
use crate::kernelgen::listing::Listing;
use crate::kernelgen::machine;
use crate::kernelgen::machine::{Core, Line, When};
use crate::kernelgen::quant::{C_NEG_LOG2E, C_ONE};
use crate::kernelgen::vector;
use crate::kernelgen::vector::{Arith, Form, Lane, One, Op, Two, Unit};
use crate::mvex::encode::InsnV;
use crate::mvex::reg::{Conv, Gpr, Mem, Src, Zmm, K};
use vstd::prelude::*;

verus! {

/// What the results are stored as, as a conversion.
pub open spec fn conv_of(out: Out) -> Conv {
    match out {
        Out::F32 => Conv::Plain,
        Out::F16 => Conv::F16,
    }
}

/// Instruction `j` of stage `s` of the body, before the stores.
pub open spec fn stage_op(s: int, j: int) -> Op {
    let v = Zmm(j as u8);
    let t = Zmm((8 + j) as u8);
    if s == 0 {
        Op::Load { z: v, m: Mem::at(G, (64 * j) as i32), conv: Conv::Plain }
    } else if s == 1 {
        Op::Two { f: Two::Mul, z: t, a: v, b: glu::spec_broadcast(C_NEG_LOG2E), masked: false }
    } else if s == 2 {
        Op::One { f: One::Fixed, z: t, b: Src::Reg(t) }
    } else if s == 3 {
        Op::One { f: One::Exp2, z: t, b: Src::Reg(t) }
    } else if s == 4 {
        Op::Two { f: Two::Add, z: t, a: t, b: glu::spec_broadcast(C_ONE), masked: false }
    } else if s == 5 {
        Op::One { f: One::Recip, z: t, b: Src::Reg(t) }
    } else if s == 6 {
        Op::Two { f: Two::Mul, z: v, a: v, b: Src::Reg(t), masked: false }
    } else {
        Op::Two { f: Two::Mul, z: v, a: v, b: Src::Mem(Mem::at(U, (64 * j) as i32)), masked: false }
    }
}

/// Stage `s` of the body, for `n` vectors.
#[verifier::opaque]
pub open spec fn stage(s: int, n: nat) -> Seq<Op> {
    Seq::new(n, |j: int| stage_op(s, j))
}

/// The stages of the body below `s`.
#[verifier::opaque]
pub open spec fn stages(s: int, n: nat) -> Seq<Op>
    decreases s,
{
    if s <= 0 {
        Seq::empty()
    } else {
        stages(s - 1, n) + stage(s - 1, n)
    }
}

/// The stores of the body.
#[verifier::opaque]
pub open spec fn stores(n: nat, out: Out, masked: bool) -> Seq<Op> {
    Seq::new(
        n,
        |j: int|
            Op::Store {
                m: Mem::at(H, (out.bytes() * j) as i32),
                z: Zmm(j as u8),
                conv: conv_of(out),
                masked,
            },
    )
}

/// The pointers on by `n` vectors.
pub open spec fn pointers(n: nat, out: Out) -> Seq<Line> {
    seq![
        Line::Plus { n: (64 * n) as int, g: G },
        Line::Plus { n: (64 * n) as int, g: U },
        Line::Plus { n: (out.bytes() * n) as int, g: H },
    ]
}

/// The body as lines: `n` vectors, and the pointers on.
#[verifier::opaque]
pub open spec fn body(n: nat, out: Out, masked: bool) -> Seq<Line> {
    machine::lines_of(stages(8, n) + stores(n, out, masked)) + pointers(n, out)
}

/// The lines of the whole kernel: fours while there are four, then ones.
pub open spec fn swiglu_lines(out: Out) -> Seq<Line> {
    seq![
        Line::Against { n: 4, g: COUNT },
        Line::Jump { when: When::Below, label: 2, forward: true },
        Line::Mark { label: 1, indented: false },
    ] + body(4, out, false) + seq![
        Line::Minus { n: 4, g: COUNT },
        Line::Against { n: 4, g: COUNT },
        Line::Jump { when: When::NotBelow, label: 1, forward: false },
        Line::Mark { label: 2, indented: false },
        Line::Test { g: COUNT },
        Line::Jump { when: When::Zero, label: 4, forward: true },
        Line::Mark { label: 3, indented: false },
    ] + body(1, out, false) + seq![
        Line::Dec { g: COUNT },
        Line::Jump { when: When::NotZero, label: 3, forward: false },
        Line::Mark { label: 4, indented: false },
        Line::Ret,
    ]
}

/// One SwiGLU, as the unit's arithmetic gives it: `g` times the reciprocal of
/// one more than two to the power of `g` times the constant, times `u`.
pub open spec fn gated(ar: Arith, neg_log2e: Lane, one: Lane, g: Lane, u: Lane) -> Lane {
    let e = (ar.one)(One::Exp2, (ar.one)(One::Fixed, (ar.two)(Two::Mul, g, neg_log2e)));
    let sigmoid = (ar.one)(One::Recip, (ar.two)(Two::Add, e, one));
    (ar.two)(Two::Mul, (ar.two)(Two::Mul, g, sigmoid), u)
}

/// One stage: every instruction of it does what it does at the stage's start.
proof fn lemma_stage(u: Unit, g: Map<Gpr, int>, s: int, n: nat)
    requires
        0 <= s < 8,
        n <= 4,
    ensures
        ({
            let v = u.all(stage(s, n), g);
            &&& v == (Unit { z: v.z, ..u })
            &&& forall|j: int|
                #![trigger stage_op(s, j)]
                0 <= j < n ==> v.z[stage_op(s, j).dest()->0] == Seq::new(
                    16,
                    |l: int| u.value(stage_op(s, j), g, l),
                )
            &&& forall|r: Zmm|
                (forall|j: int|
                    0 <= j < n ==> (#[trigger] stage_op(s, j)).dest() != Some(r))
                    ==> #[trigger] v.z[r] == u.z[r]
        }),
{
    reveal(stage);
    let ops = stage(s, n);
    assert forall|i: int, j: int| 0 <= i < j < ops.len() implies !(#[trigger] ops[j]).reads(
        (#[trigger] ops[i]).dest()->0,
    ) && ops[i].dest() != ops[j].dest() by {
        assert(ops[i] == stage_op(s, i));
        assert(ops[j] == stage_op(s, j));
    }
    u.lemma_each(ops, g);
    let v = u.all(ops, g);
    assert forall|j: int| 0 <= j < n implies v.z[(#[trigger] stage_op(s, j)).dest()->0] == Seq::new(
        16,
        |l: int| u.value(stage_op(s, j), g, l),
    ) by {
        assert(ops[j] == stage_op(s, j));
    }
    assert forall|r: Zmm|
        (forall|j: int| 0 <= j < n ==> (#[trigger] stage_op(s, j)).dest() != Some(r))
            implies #[trigger] v.z[r] == u.z[r] by {
        assert forall|i: int| 0 <= i < ops.len() implies (#[trigger] ops[i]).dest() != Some(r) by {
            assert(ops[i] == stage_op(s, i));
        }
    }
}

/// What vector `j` and its helper hold after the stages below `s`.
pub open spec fn staged(u: Unit, g: Map<Gpr, int>, s: int, j: int, l: int) -> (Lane, Lane) {
    let x = (u.mem)(Form::Word, g[G] + 64 * j + 4 * l);
    let y = (u.mem)(Form::Word, g[U] + 64 * j + 4 * l);
    let c = (u.mem)(Form::Word, g[Gpr::R8] + C_NEG_LOG2E);
    let one = (u.mem)(Form::Word, g[Gpr::R8] + C_ONE);
    let t1 = (u.ar.two)(Two::Mul, x, c);
    let t2 = (u.ar.one)(One::Fixed, t1);
    let t3 = (u.ar.one)(One::Exp2, t2);
    let t4 = (u.ar.two)(Two::Add, t3, one);
    let t5 = (u.ar.one)(One::Recip, t4);
    let v6 = (u.ar.two)(Two::Mul, x, t5);
    let v7 = (u.ar.two)(Two::Mul, v6, y);
    if s <= 1 {
        (x, u.z[Zmm((8 + j) as u8)][l])
    } else if s == 2 {
        (x, t1)
    } else if s == 3 {
        (x, t2)
    } else if s == 4 {
        (x, t3)
    } else if s == 5 {
        (x, t4)
    } else if s == 6 {
        (x, t5)
    } else if s == 7 {
        (v6, t5)
    } else {
        (v7, t5)
    }
}

/// The stages below `s`.
pub proof fn lemma_stages(u: Unit, g: Map<Gpr, int>, s: int, n: nat)
    requires
        1 <= s <= 8,
        n <= 4,
    ensures
        ({
            let v = u.all(stages(s, n), g);
            &&& v == (Unit { z: v.z, ..u })
            &&& forall|j: int, l: int|
                #![trigger staged(u, g, s, j, l)]
                0 <= j < n && 0 <= l < 16 ==> v.z[Zmm(j as u8)][l] == staged(u, g, s, j, l).0
                    && (s > 1 ==> v.z[Zmm((8 + j) as u8)][l] == staged(u, g, s, j, l).1)
        }),
    decreases s,
{
    broadcast use Mem::lemma_at;

    reveal(stages);
    let before = stages(s - 1, n);
    let ops = stage(s - 1, n);
    let m = u.all(before, g);
    if s > 1 {
        lemma_stages(u, g, s - 1, n);
    }
    u.lemma_parts(before, ops, g);
    lemma_stage(m, g, s - 1, n);
    let v = m.all(ops, g);
    assert forall|j: int, l: int| 0 <= j < n && 0 <= l < 16 implies v.z[Zmm(j as u8)][l]
        == (#[trigger] staged(u, g, s, j, l)).0 && (s > 1 ==> v.z[Zmm((8 + j) as u8)][l] == staged(
        u,
        g,
        s,
        j,
        l,
    ).1) by {
        let a = Zmm(j as u8);
        let b = Zmm((8 + j) as u8);
        let op = stage_op(s - 1, j);
        assert(v.z[op.dest()->0] == Seq::new(16, |l: int| m.value(op, g, l)));
        assert(v.z[op.dest()->0][l] == m.value(op, g, l));
        let before = staged(u, g, s - 1, j, l);
        if s == 1 || s >= 7 {
            assert forall|i: int| 0 <= i < n implies (#[trigger] stage_op(s - 1, i)).dest() != Some(
                b,
            ) by {}
            assert(v.z[b] == m.z[b]);
        } else {
            assert forall|i: int| 0 <= i < n implies (#[trigger] stage_op(s - 1, i)).dest() != Some(
                a,
            ) by {}
            assert(v.z[a] == m.z[a]);
        }
    }
}

/// A result as it is stored.
pub open spec fn stored(ar: Arith, out: Out, x: Lane) -> Lane {
    match out {
        Out::F32 => x,
        Out::F16 => (ar.narrow)(x),
    }
}

/// Element `i` of the results at `h`.
pub open spec fn result_at(mem: spec_fn(Form, int) -> Lane, out: Out, h: int, i: int) -> Lane {
    match out {
        Out::F32 => mem(Form::Word, h + 4 * i),
        Out::F16 => mem(Form::Half, h + 2 * i),
    }
}

/// The bytes of `n` vectors of results.
pub open spec fn span(out: Out, n: int) -> int {
    match out {
        Out::F32 => 64 * n,
        Out::F16 => 32 * n,
    }
}

/// Whether memory is as it was but for the `n` bytes at `h`.
pub open spec fn same_but(
    before: spec_fn(Form, int) -> Lane,
    after: spec_fn(Form, int) -> Lane,
    h: int,
    n: int,
) -> bool {
    forall|f: Form, b: int|
        b + f.width() <= h || h + n <= b ==> #[trigger] after(f, b) == before(f, b)
}

proof fn lemma_span(out: Out, n: int)
    ensures
        out.bytes() * n == span(out, n),
{
    match out {
        Out::F32 => {
            assert(out.bytes() == 64);
        },
        Out::F16 => {
            assert(out.bytes() == 32);
        },
    }
}

/// The stores of `n` vectors.
proof fn lemma_stores(u: Unit, g: Map<Gpr, int>, n: nat, out: Out)
    requires
        n <= 4,
    ensures
        ({
            let v = u.all(stores(n, out, false), g);
            &&& v == (Unit { mem: v.mem, ..u })
            &&& same_but(u.mem, v.mem, g[H], span(out, n as int))
            &&& forall|i: int|
                0 <= i < 16 * n ==> #[trigger] result_at(v.mem, out, g[H], i) == stored(
                    u.ar,
                    out,
                    u.z[Zmm((i / 16) as u8)][i % 16],
                )
        }),
    decreases n,
{
    broadcast use Mem::lemma_at;

    reveal(stores);
    let ops = stores(n, out, false);
    let h = g[H];
    if n > 0 {
        let k = (n - 1) as nat;
        lemma_stores(u, g, k, out);
        assert(ops.drop_last() =~= stores(k, out, false));
        let m = u.all(stores(k, out, false), g);
        let v = u.all(ops, g);
        let op = ops.last();
        assert(v == m.did(op, g));
        let a = h + span(out, k as int);
        assert(out.bytes() * k == span(out, k as int)) by {
            lemma_span(out, k as int);
        }
        assert(vector::address(Mem::at(H, (out.bytes() * k) as i32), g) == a);
        assert forall|i: int| 0 <= i < 16 * n implies #[trigger] result_at(v.mem, out, h, i)
            == stored(u.ar, out, u.z[Zmm((i / 16) as u8)][i % 16]) by {
            if i < 16 * k {
                assert(result_at(m.mem, out, h, i) == stored(
                    u.ar,
                    out,
                    u.z[Zmm((i / 16) as u8)][i % 16],
                ));
            } else {
                assert(i / 16 == k && i % 16 == i - 16 * k);
            }
        }
        assert(same_but(u.mem, v.mem, h, span(out, n as int))) by {
            assert forall|f: Form, b: int|
                b + f.width() <= h || h + span(out, n as int) <= b implies #[trigger] (v.mem)(f, b)
                == (u.mem)(f, b) by {
                assert((m.mem)(f, b) == (u.mem)(f, b));
            }
        }
    }
}

/// Where a kernel for `count` vectors can begin: its arguments in their
/// registers, each on the boundary of its vectors, within memory, and the
/// results apart from what is read.
pub open spec fn begins(c: Core, out: Out, count: int) -> bool {
    let (g, u, h, k) = (c.g[G], c.g[U], c.g[H], c.g[Gpr::R8]);
    &&& c.at == 0 && c.ok && !c.done
    &&& c.g[COUNT] == count && count >= 0
    &&& g >= 0 && g % 64 == 0 && g + 64 * count < 0x1_0000_0000_0000_0000
    &&& u >= 0 && u % 64 == 0 && u + 64 * count < 0x1_0000_0000_0000_0000
    &&& h >= 0 && h % out.bytes() as int == 0 && h + span(out, count) < 0x1_0000_0000_0000_0000
    &&& k >= 0 && k % 64 == 0
    &&& h + span(out, count) <= g || g + 64 * count <= h
    &&& h + span(out, count) <= u || u + 64 * count <= h
    &&& h + span(out, count) <= k || k + 832 <= h
}

/// What element `i` of the results is, of what was in memory at the start.
pub open spec fn answer(c: Core, out: Out, i: int) -> Lane {
    stored(
        c.unit.ar,
        out,
        gated(
            c.unit.ar,
            (c.unit.mem)(Form::Word, c.g[Gpr::R8] + C_NEG_LOG2E),
            (c.unit.mem)(Form::Word, c.g[Gpr::R8] + C_ONE),
            (c.unit.mem)(Form::Word, c.g[G] + 4 * i),
            (c.unit.mem)(Form::Word, c.g[U] + 4 * i),
        ),
    )
}

/// Whether `c` is `n` vectors on, with `left` still counted.
spec fn within(before: Core, c: Core, out: Out, n: int, left: int) -> bool {
    &&& c.ok && !c.done
    &&& c.g[G] == before.g[G] + 64 * n
    &&& c.g[U] == before.g[U] + 64 * n
    &&& c.g[H] == before.g[H] + span(out, n)
    &&& c.g[Gpr::R8] == before.g[Gpr::R8]
    &&& c.g[COUNT] == left
    &&& c.unit.ar == before.unit.ar
    &&& same_but(before.unit.mem, c.unit.mem, before.g[H], span(out, n))
    &&& forall|i: int|
        0 <= i < 16 * n ==> #[trigger] result_at(c.unit.mem, out, before.g[H], i) == answer(
            before,
            out,
            i,
        )
}

/// What the instructions of a body leave.
proof fn lemma_vectors(before: Core, c: Core, out: Out, count: int, n: int, m: nat)
    requires
        begins(before, out, count),
        within(before, c, out, n, count - n),
        0 <= n,
        n + m <= count,
        m <= 4,
    ensures
        ({
            let v = c.unit.all(stages(8, m) + stores(m, out, false), c.g);
            &&& v.ar == before.unit.ar
            &&& same_but(before.unit.mem, v.mem, before.g[H], span(out, n + m))
            &&& forall|i: int|
                0 <= i < 16 * (n + m) ==> #[trigger] result_at(v.mem, out, before.g[H], i)
                    == answer(before, out, i)
        }),
{
    let u = c.unit;
    let h = before.g[H];
    u.lemma_parts(stages(8, m), stores(m, out, false), c.g);
    lemma_stages(u, c.g, 8, m);
    let s = u.all(stages(8, m), c.g);
    lemma_stores(s, c.g, m, out);
    let v = s.all(stores(m, out, false), c.g);
    assert forall|i: int| 0 <= i < 16 * (n + m) implies #[trigger] result_at(v.mem, out, h, i)
        == answer(before, out, i) by {
        if i < 16 * n {
            assert(result_at(u.mem, out, h, i) == answer(before, out, i));
        } else {
            let k = i - 16 * n;
            let j = k / 16;
            let l = k % 16;
            assert(result_at(v.mem, out, c.g[H], k) == stored(
                s.ar,
                out,
                s.z[Zmm((k / 16) as u8)][k % 16],
            ));
            assert(result_at(v.mem, out, h, i) == result_at(v.mem, out, c.g[H], k));
            let x = staged(u, c.g, 8, j, l).0;
            assert(s.z[Zmm(j as u8)][l] == x);
            assert(c.g[G] + 64 * j + 4 * l == before.g[G] + 4 * i);
            assert(c.g[U] + 64 * j + 4 * l == before.g[U] + 4 * i);
            assert((u.mem)(Form::Word, before.g[G] + 4 * i) == (before.unit.mem)(
                Form::Word,
                before.g[G] + 4 * i,
            ));
            assert((u.mem)(Form::Word, before.g[U] + 4 * i) == (before.unit.mem)(
                Form::Word,
                before.g[U] + 4 * i,
            ));
            let k8 = before.g[Gpr::R8];
            assert((u.mem)(Form::Word, k8 + C_NEG_LOG2E) == (before.unit.mem)(
                Form::Word,
                k8 + C_NEG_LOG2E,
            ));
            assert((u.mem)(Form::Word, k8 + C_ONE) == (before.unit.mem)(Form::Word, k8 + C_ONE));
        }
    }
    assert forall|f: Form, b: int|
        b + f.width() <= h || h + span(out, n + m) <= b implies #[trigger] (v.mem)(f, b) == (
    before.unit.mem)(f, b) by {
        assert((u.mem)(f, b) == (before.unit.mem)(f, b));
        assert((v.mem)(f, b) == (s.mem)(f, b));
    }
}

/// Every instruction of a body can be run.
proof fn lemma_runs(before: Core, c: Core, out: Out, count: int, n: int, m: nat)
    requires
        begins(before, out, count),
        within(before, c, out, n, count - n),
        m <= 4,
    ensures
        forall|i: int|
            #![trigger (stages(8, m) + stores(m, out, false))[i]]
            0 <= i < stages(8, m).len() + m ==> (stages(8, m) + stores(m, out, false))[i].runs(c.g),
        stores(m, out, false).len() == m,
        stages(8, m).len() == 8 * m,
{
    broadcast use Mem::lemma_at;

    lemma_stage_runs(before, c, out, count, n, m, 8);
    reveal(stores);
    let a = stages(8, m);
    let b = stores(m, out, false);
    assert forall|i: int| 0 <= i < a.len() + m implies (#[trigger] (a + b)[i]).runs(c.g) by {
        if i >= a.len() {
            let j = i - a.len();
            assert((a + b)[i] == b[j]);
            assert(c.g[H] % out.bytes() as int == 0);
            assert((c.g[H] + span(out, j)) % out.bytes() as int == 0);
            lemma_span(out, j);
        } else {
            assert((a + b)[i] == a[i]);
        }
    }
}

pub proof fn lemma_op_runs(g: Map<Gpr, int>, s: int, j: int)
    requires
        0 <= j < 4,
        g[G] % 64 == 0,
        g[U] % 64 == 0,
        g[Gpr::R8] % 64 == 0,
    ensures
        stage_op(s, j).runs(g),
{
    broadcast use Mem::lemma_at;

    assert(Form::of(Conv::Plain, false).width() == 4);
    assert((64 * j) as i32 == 64 * j);
    assert((g[G] + 64 * j) % 64 == 0);
    assert((g[U] + 64 * j) % 64 == 0);
    assert((g[Gpr::R8] + C_NEG_LOG2E) % 4 == 0);
    assert((g[Gpr::R8] + C_ONE) % 4 == 0);
}

proof fn lemma_stage_runs(before: Core, c: Core, out: Out, count: int, n: int, m: nat, s: int)
    requires
        begins(before, out, count),
        within(before, c, out, n, count - n),
        m <= 4,
        0 <= s <= 8,
    ensures
        forall|i: int| 0 <= i < stages(s, m).len() ==> (#[trigger] stages(s, m)[i]).runs(c.g),
        stages(s, m).len() == s * m,
    decreases s,
{
    broadcast use Mem::lemma_at;

    reveal(stages);
    reveal(stage);
    if s > 0 {
        lemma_stage_runs(before, c, out, count, n, m, s - 1);
        let a = stages(s - 1, m);
        let b = stage(s - 1, m);
        assert forall|i: int| 0 <= i < stages(s, m).len() implies (#[trigger] stages(s, m)[i]).runs(
            c.g,
        ) by {
            if i < a.len() {
                assert(stages(s, m)[i] == a[i]);
            } else {
                let j = i - a.len();
                assert(stages(s, m)[i] == stage_op(s - 1, j));
                assert(Form::of(Conv::Plain, false).width() == 4);
                lemma_op_runs(c.g, s - 1, j);
            }
        }
        assert((s - 1) * m + m == s * m) by (nonlinear_arith);
    }
}

/// The three pointers on.
#[verifier::rlimit(60)]
pub proof fn lemma_pointers(d: Core, m: nat, out: Out)
    requires
        d.g[G] >= 0,
        d.g[G] + 64 * m < 0x1_0000_0000_0000_0000,
        d.g[U] >= 0,
        d.g[U] + 64 * m < 0x1_0000_0000_0000_0000,
        d.g[H] >= 0,
        d.g[H] + span(out, m as int) < 0x1_0000_0000_0000_0000,
        m <= 4,
    ensures
        ({
            let e = d.passed(pointers(m, out));
            &&& e.ok == d.ok && e.done == d.done && e.unit == d.unit
            &&& e.g == d.g.insert(G, d.g[G] + 64 * m).insert(U, d.g[U] + 64 * m).insert(
                H,
                d.g[H] + span(out, m as int),
            )
        }),
{
    let tail = pointers(m, out);
    lemma_span(out, m as int);
    let (a, b, c) = (tail[0], tail[1], tail[2]);
    assert(tail =~= Seq::<Line>::empty().push(a).push(b).push(c));
    d.lemma_pass(Seq::empty(), a);
    d.lemma_pass(Seq::<Line>::empty().push(a), b);
    d.lemma_pass(Seq::<Line>::empty().push(a).push(b), c);
    let d1 = d.ran(a);
    assert(d1.g == d.g.insert(G, d.g[G] + 64 * m));
    let d2 = d1.ran(b);
    assert(d2.g == d1.g.insert(U, d.g[U] + 64 * m));
    let e = d2.ran(c);
    assert(e.g == d2.g.insert(H, d.g[H] + span(out, m as int)));
    assert(d.passed(tail) == e);
}

/// One body, from its first line to the line after it.
#[verifier::rlimit(40)]
proof fn lemma_body(before: Core, c: Core, out: Out, count: int, n: int, m: nat, lines: Seq<Line>) -> (to: Core)
    requires
        begins(before, out, count),
        within(before, c, out, n, count - n),
        0 <= n,
        n + m <= count,
        m <= 4,
        0 <= c.at,
        c.at + body(m, out, false).len() <= lines.len(),
        forall|i: int|
            0 <= i < body(m, out, false).len() ==> lines[c.at + i] == #[trigger] body(m, out, false)[i],
    ensures
        c.reaches(lines, to),
        within(before, to, out, n + m, count - n),
        to.at == c.at + body(m, out, false).len(),
{
    let ops = stages(8, m) + stores(m, out, false);
    lemma_runs(before, c, out, count, n, m);
    lemma_vectors(before, c, out, count, n, m);
    c.lemma_unit(ops);
    let d = c.passed(machine::lines_of(ops));
    let tail = pointers(m, out);
    assert(body(m, out, false) == machine::lines_of(ops) + tail) by {
        reveal(body);
    }
    c.lemma_passed(machine::lines_of(ops), tail);
    lemma_pointers(d, m, out);
    let s = body(m, out, false);
    let e = c.passed(s);
    assert(e == d.passed(tail));
    assert forall|i: int| 0 <= i < s.len() implies lines[c.at + i] == #[trigger] s[i] && (s[i] is Op
        || s[i] is Plus) by {
        if i < ops.len() {
            assert(s[i] == machine::lines_of(ops)[i]);
        } else {
            assert(s[i] == tail[i - ops.len()]);
        }
    }
    lemma_span(out, m as int);
    c.lemma_straight(lines, s);
    let to = Core { at: c.at + s.len(), ..e };
    assert(c.run(lines, s.len()) == to);
    assert(to.unit == c.unit.all(ops, c.g));
    assert(span(out, n + m) == span(out, n) + span(out, m as int)) by {
        match out {
            Out::F32 => {},
            Out::F16 => {},
        }
    }
    assert(d.g == c.g);
    assert(to.g[G] == before.g[G] + 64 * (n + m));
    assert(to.g[U] == before.g[U] + 64 * (n + m));
    assert(to.g[H] == before.g[H] + span(out, n + m));
    assert(to.g[Gpr::R8] == before.g[Gpr::R8] && to.g[COUNT] == count - n);
    assert(to.ok && !to.done);
    to
}

/// The lines of the kernel, one by one, but for the bodies.
proof fn lemma_lines(out: Out)
    ensures
        ({
            let s = swiglu_lines(out);
            &&& s.len() == 65
            &&& body(4, out, false).len() == 39
            &&& body(1, out, false).len() == 12
            &&& s[0] == (Line::Against { n: 4, g: COUNT })
            &&& s[1] == (Line::Jump { when: When::Below, label: 2, forward: true })
            &&& s[2] == (Line::Mark { label: 1, indented: false })
            &&& s[42] == (Line::Minus { n: 4, g: COUNT })
            &&& s[43] == (Line::Against { n: 4, g: COUNT })
            &&& s[44] == (Line::Jump { when: When::NotBelow, label: 1, forward: false })
            &&& s[45] == (Line::Mark { label: 2, indented: false })
            &&& s[46] == (Line::Test { g: COUNT })
            &&& s[47] == (Line::Jump { when: When::Zero, label: 4, forward: true })
            &&& s[48] == (Line::Mark { label: 3, indented: false })
            &&& s[61] == (Line::Dec { g: COUNT })
            &&& s[62] == (Line::Jump { when: When::NotZero, label: 3, forward: false })
            &&& s[63] == (Line::Mark { label: 4, indented: false })
            &&& s[64] == Line::Ret
            &&& forall|i: int|
                #![trigger body(4, out, false)[i]]
                0 <= i < 39 ==> s[3 + i] == body(4, out, false)[i]
            &&& forall|i: int|
                #![trigger body(1, out, false)[i]]
                0 <= i < 12 ==> s[49 + i] == body(1, out, false)[i]
            &&& forall|i: int| 3 <= i < 42 ==> !((#[trigger] s[i]) is Mark)
            &&& forall|i: int| 49 <= i < 61 ==> !((#[trigger] s[i]) is Mark)
        }),
{
    lemma_body_lines(4, out);
    lemma_body_lines(1, out);
    let s = swiglu_lines(out);
    assert forall|i: int| 3 <= i < 42 implies !((#[trigger] s[i]) is Mark) by {
        assert(s[i] == body(4, out, false)[i - 3]);
    }
    assert forall|i: int| 49 <= i < 61 implies !((#[trigger] s[i]) is Mark) by {
        assert(s[i] == body(1, out, false)[i - 49]);
    }
}

proof fn lemma_stages_len(s: int, n: nat)
    requires
        0 <= s,
    ensures
        stages(s, n).len() == s * n,
    decreases s,
{
    reveal(stages);
    reveal(stage);
    if s > 0 {
        lemma_stages_len(s - 1, n);
        assert((s - 1) * n + n == s * n) by (nonlinear_arith);
    } else {
        assert(s * n == 0) by (nonlinear_arith)
            requires
                s == 0,
        ;
    }
}

proof fn lemma_body_lines(n: nat, out: Out)
    ensures
        body(n, out, false).len() == 9 * n + 3,
        forall|i: int|
            0 <= i < body(n, out, false).len() ==> !((#[trigger] body(n, out, false)[i]) is Mark),
{
    lemma_stages_len(8, n);
    reveal(body);
    reveal(stores);
    let ops = stages(8, n) + stores(n, out, false);
    assert forall|i: int| 0 <= i < body(n, out, false).len() implies !((#[trigger] body(
        n,
        out,
        false,
    )[i]) is Mark) by {
        if i < ops.len() {
            assert(body(n, out, false)[i] == machine::lines_of(ops)[i]);
        } else {
            assert(body(n, out, false)[i] == pointers(n, out)[i - ops.len()]);
        }
    }
}

/// Four vectors at a time, from the label of their loop to the end of it.
proof fn lemma_fours(before: Core, c: Core, out: Out, count: int, n: int) -> (to: Core)
    requires
        begins(before, out, count),
        within(before, c, out, n, count - n),
        0 <= n,
        n + 4 <= count,
        c.at == 2,
    ensures
        c.reaches(swiglu_lines(out), to),
        to.at == 45,
        exists|m: int|
            n <= m <= count && #[trigger] within(before, to, out, m, count - m),
    decreases count - n,
{
    let lines = swiglu_lines(out);
    lemma_lines(out);
    let c1 = c.step(lines);
    assert(c1 == (Core { at: 3, ..c }));
    assert(c.run(lines, 1) == c1) by {
        reveal_with_fuel(Core::run, 2);
    }
    assert(within(before, c1, out, n, count - n));
    let c2 = lemma_body(before, c1, out, count, n, 4, lines);
    c.lemma_on(lines, c1, c2);
    let c3 = c2.step(lines);
    let c4 = c3.step(lines);
    let c5 = c4.step(lines);
    assert(c2.run(lines, 3) == c5) by {
        reveal_with_fuel(Core::run, 4);
    }
    c.lemma_on(lines, c2, c5);
    machine::lemma_behind_is(lines, 1, 44, 2);
    let m = n + 4;
    assert(c3.g =~= c2.g.insert(COUNT, count - m));
    assert(within(before, c5, out, m, count - m));
    if count - m >= 4 {
        let to = lemma_fours(before, c5, out, count, m);
        c.lemma_on(lines, c5, to);
        to
    } else {
        c5
    }
}

/// One vector at a time, from the label of their loop to the end of it.
proof fn lemma_ones(before: Core, c: Core, out: Out, count: int, n: int) -> (to: Core)
    requires
        begins(before, out, count),
        within(before, c, out, n, count - n),
        0 <= n < count,
        c.at == 48,
    ensures
        c.reaches(swiglu_lines(out), to),
        to.at == 63,
        within(before, to, out, count, 0),
    decreases count - n,
{
    let lines = swiglu_lines(out);
    lemma_lines(out);
    let c1 = c.step(lines);
    assert(c1 == (Core { at: 49, ..c }));
    assert(c.run(lines, 1) == c1) by {
        reveal_with_fuel(Core::run, 2);
    }
    assert(within(before, c1, out, n, count - n));
    let c2 = lemma_body(before, c1, out, count, n, 1, lines);
    c.lemma_on(lines, c1, c2);
    let c3 = c2.step(lines);
    let c4 = c3.step(lines);
    assert(c2.run(lines, 2) == c4) by {
        reveal_with_fuel(Core::run, 3);
    }
    c.lemma_on(lines, c2, c4);
    machine::lemma_behind_is(lines, 3, 62, 48);
    let m = n + 1;
    assert(c3.g =~= c2.g.insert(COUNT, count - m));
    assert(within(before, c4, out, m, count - m));
    if m < count {
        let to = lemma_ones(before, c4, out, count, m);
        c.lemma_on(lines, c4, to);
        to
    } else {
        c4
    }
}

/// The kernel, run on `count` vectors, returns with every result in place:
/// element `i` is the SwiGLU of element `i` of the gates and element `i` of
/// the ups, as they were at the start, and nothing else in memory is changed.
pub proof fn law_swiglu(c: Core, out: Out, count: int) -> (to: Core)
    requires
        begins(c, out, count),
    ensures
        c.reaches(swiglu_lines(out), to),
        to.done && to.ok,
        forall|i: int|
            0 <= i < 16 * count ==> #[trigger] result_at(to.unit.mem, out, c.g[H], i) == answer(
                c,
                out,
                i,
            ),
        same_but(c.unit.mem, to.unit.mem, c.g[H], span(out, count)),
{
    let lines = swiglu_lines(out);
    lemma_lines(out);
    machine::lemma_ahead_is(lines, 2, 1, 45);
    machine::lemma_ahead_is(lines, 4, 47, 63);
    let c1 = c.step(lines);
    let c2 = c1.step(lines);
    assert(c.run(lines, 2) == c2) by {
        reveal_with_fuel(Core::run, 3);
    }
    assert(within(c, c2, out, 0, count));
    let d = if count >= 4 {
        assert(c2.at == 2);
        let d = lemma_fours(c, c2, out, count, 0);
        c.lemma_on(lines, c2, d);
        d
    } else {
        c2
    };
    assert(d.at == 45);
    let n = if count >= 4 {
        choose|m: int| 0 <= m <= count && #[trigger] within(c, d, out, m, count - m)
    } else {
        0
    };
    assert(within(c, d, out, n, count - n));
    let d1 = d.step(lines);
    let d2 = d1.step(lines);
    let d3 = d2.step(lines);
    assert(d.run(lines, 3) == d3) by {
        reveal_with_fuel(Core::run, 4);
    }
    c.lemma_on(lines, d, d3);
    assert(within(c, d3, out, n, count - n));
    let e = if n < count {
        assert(d3.at == 48);
        let e = lemma_ones(c, d3, out, count, n);
        c.lemma_on(lines, d3, e);
        e
    } else {
        d3
    };
    assert(e.at == 63 && within(c, e, out, count, 0));
    let e1 = e.step(lines);
    let e2 = e1.step(lines);
    assert(e.run(lines, 2) == e2) by {
        reveal_with_fuel(Core::run, 3);
    }
    c.lemma_on(lines, e, e2);
    e2
}

/// Where the arithmetic takes a product with a zero to be that zero, a result
/// is zero where its up is.
pub proof fn law_swiglu_zero(c: Core, count: int, zero: Lane, i: int) -> (to: Core)
    requires
        begins(c, Out::F32, count),
        0 <= i < 16 * count,
        forall|x: Lane| #[trigger] (c.unit.ar.two)(Two::Mul, x, zero) == zero,
        (c.unit.mem)(Form::Word, c.g[U] + 4 * i) == zero,
    ensures
        c.reaches(swiglu_lines(Out::F32), to),
        to.done && to.ok,
        (to.unit.mem)(Form::Word, c.g[H] + 4 * i) == zero,
{
    let to = law_swiglu(c, Out::F32, count);
    assert(result_at(to.unit.mem, Out::F32, c.g[H], i) == answer(c, Out::F32, i));
    to
}

/// A jump as its text.
proof fn lemma_jump(l: Listing, w: When, label: u8, forward: bool)
    ensures
        w is Below && label == 2 && forward ==> l.t("jb 2f"@) == l.line(
            Line::Jump { when: w, label, forward },
        ),
        w is NotBelow && label == 1 && !forward ==> l.t("jae 1b"@) == l.line(
            Line::Jump { when: w, label, forward },
        ),
        w is Zero && label == 4 && forward ==> l.t("jz 4f"@) == l.line(
            Line::Jump { when: w, label, forward },
        ),
        w is NotZero && label == 3 && !forward ==> l.t("jnz 3b"@) == l.line(
            Line::Jump { when: w, label, forward },
        ),
{
    reveal(Listing::t);
    reveal(Listing::lit);
    reveal(Listing::jump);
    reveal_strlit("jb 2f");
    reveal_strlit("jae 1b");
    reveal_strlit("jz 4f");
    reveal_strlit("jnz 3b");
    reveal_strlit("jb");
    reveal_strlit("jae");
    reveal_strlit("jz");
    reveal_strlit("jnz");
    reveal_strlit("    ");
    reveal_strlit(" ");
    reveal_strlit("\n");
    reveal_strlit("f\n");
    reveal_strlit("b\n");
    reveal_strlit("1");
    reveal_strlit("2");
    reveal_strlit("3");
    reveal_strlit("4");
    if w is Below && label == 2 && forward {
        assert(l.t("jb 2f"@).s =~= l.line(Line::Jump { when: w, label, forward }).s);
    }
    if w is NotBelow && label == 1 && !forward {
        assert(l.t("jae 1b"@).s =~= l.line(Line::Jump { when: w, label, forward }).s);
    }
    if w is Zero && label == 4 && forward {
        assert(l.t("jz 4f"@).s =~= l.line(Line::Jump { when: w, label, forward }).s);
    }
    if w is NotZero && label == 3 && !forward {
        assert(l.t("jnz 3b"@).s =~= l.line(Line::Jump { when: w, label, forward }).s);
    }
}

/// A label as its text.
proof fn lemma_mark(l: Listing)
    ensures
        l.lit("1:\n"@) == l.line(Line::Mark { label: 1, indented: false }),
        l.lit("2:\n"@) == l.line(Line::Mark { label: 2, indented: false }),
        l.lit("3:\n"@) == l.line(Line::Mark { label: 3, indented: false }),
        l.lit("4:\n"@) == l.line(Line::Mark { label: 4, indented: false }),
{
    reveal(Listing::lit);
    reveal(Listing::mark);
    reveal_strlit("1:\n");
    reveal_strlit("2:\n");
    reveal_strlit("3:\n");
    reveal_strlit("4:\n");
    reveal_strlit(":\n");
    reveal_strlit("1");
    reveal_strlit("2");
    reveal_strlit("3");
    reveal_strlit("4");
    assert(l.lit("1:\n"@).s =~= l.line(Line::Mark { label: 1, indented: false }).s);
    assert(l.lit("2:\n"@).s =~= l.line(Line::Mark { label: 2, indented: false }).s);
    assert(l.lit("3:\n"@).s =~= l.line(Line::Mark { label: 3, indented: false }).s);
    assert(l.lit("4:\n"@).s =~= l.line(Line::Mark { label: 4, indented: false }).s);
}

/// Stage `s` of the body as it is written.
spec fn written(s: int, n: u8) -> Seq<InsnV> {
    if s == 0 {
        glu::glu_load(n)
    } else if s == 1 {
        glu::glu_log2(n)
    } else if s == 2 {
        glu::glu_fixed(n)
    } else if s == 3 {
        glu::glu_exp(n)
    } else if s == 4 {
        glu::glu_one(n)
    } else if s == 5 {
        glu::glu_recip(n)
    } else if s == 6 {
        glu::glu_gate(n)
    } else {
        glu::glu_up(n)
    }
}

/// A stage is written as its lines.
proof fn lemma_stage_text(l: Listing, n: u8, s: int)
    requires
        0 <= s < 8,
        n <= 4,
    ensures
        l.all(written(s, n)) == l.lines(machine::lines_of(stage(s, n as nat))),
{
    reveal(stage);
    let insns = written(s, n);
    let ops = stage(s, n as nat);
    assert forall|j: int| 0 <= j < n implies insns[j] == (#[trigger] ops[j]).insn() by {
        assert(ops[j] == stage_op(s, j));
        lemma_op_text(s, n, j);
    }
    l.lemma_ops(insns, ops);
}

proof fn lemma_op_text(s: int, n: u8, j: int)
    requires
        0 <= s < 8,
        0 <= j < n <= 4,
    ensures
        written(s, n)[j] == stage_op(s, j).insn(),
        written(s, n).len() == n,
{
    if s == 0 {
    } else if s == 1 {
    } else if s == 2 {
    } else if s == 3 {
    } else if s == 4 {
    } else if s == 5 {
    } else if s == 6 {
    } else {
    }
}

/// The stages below `s`, as they are written.
spec fn stages_written(l: Listing, s: int, n: u8) -> Listing
    decreases s,
{
    if s <= 0 {
        l
    } else {
        stages_written(l, s - 1, n).all(written(s - 1, n))
    }
}

proof fn lemma_stages_written(l: Listing, s: int, n: u8)
    requires
        0 <= s <= 8,
        n <= 4,
    ensures
        stages_written(l, s, n) == l.lines(machine::lines_of(stages(s, n as nat))),
    decreases s,
{
    reveal(stages);
    let m = n as nat;
    if s == 0 {
        l.lemma_none();
        assert(machine::lines_of(stages(0, m)) =~= Seq::empty());
    } else {
        lemma_stages_written(l, s - 1, n);
        lemma_stage_text(stages_written(l, s - 1, n), n, s - 1);
        lemma_stages_text(
            l,
            m,
            s - 1,
            stages_written(l, s - 1, n),
            stages_written(l, s, n),
        );
    }
}

/// The stores are written as their lines.
proof fn lemma_stores_text(l: Listing, n: u8, out: Out, masked: bool)
    requires
        n <= 4,
    ensures
        l.all(glu::glu_stores(n, out, vector::under(masked))) == l.lines(
            machine::lines_of(stores(n as nat, out, masked)),
        ),
{
    reveal(stores);
    l.lemma_ops(glu::glu_stores(n, out, vector::under(masked)), stores(n as nat, out, masked));
}

/// A body is written as its lines.
pub proof fn lemma_body_text(l: Listing, n: u8, out: Out, masked: bool)
    requires
        n <= 4,
    ensures
        l.glu_body(n, out, vector::under(masked)) == l.lines(body(n as nat, out, masked)),
{
    let m = n as nat;
    lemma_stages_written(l, 8, n);
    let l7 = stages_written(l, 8, n);
    lemma_stores_text(l7, n, out, masked);
    let l8 = l7.all(glu::glu_stores(n, out, vector::under(masked)));
    let ops = stages(8, m) + stores(m, out, masked);
    assert(machine::lines_of(ops) =~= machine::lines_of(stages(8, m)) + machine::lines_of(
        stores(m, out, masked),
    ));
    l.lemma_lines(machine::lines_of(stages(8, m)), machine::lines_of(stores(m, out, masked)));
    assert(l8 == l.lines(machine::lines_of(ops)));
    l.lemma_lines(machine::lines_of(ops), pointers(m, out));
    lemma_three(
        l8,
        Line::Plus { n: (64 * m) as int, g: G },
        Line::Plus { n: (64 * m) as int, g: U },
        Line::Plus { n: (out.bytes() * m) as int, g: H },
    );
    assert(body(m, out, masked) == machine::lines_of(ops) + pointers(m, out)) by {
        reveal(body);
    }
    assert(l7 == l.all(glu::glu_load(n)).all(glu::glu_log2(n)).all(glu::glu_fixed(n)).all(
        glu::glu_exp(n),
    ).all(glu::glu_one(n)).all(glu::glu_recip(n)).all(glu::glu_gate(n)).all(glu::glu_up(n))) by {
        reveal_with_fuel(stages_written, 9);
    }
    reveal(Listing::glu_body);
}

/// One more stage.
proof fn lemma_stages_text(l: Listing, n: nat, s: int, before: Listing, after: Listing)
    requires
        0 <= s,
        before == l.lines(machine::lines_of(stages(s, n))),
        after == before.lines(machine::lines_of(stage(s, n))),
    ensures
        after == l.lines(machine::lines_of(stages(s + 1, n))),
{
    reveal(stages);
    assert(machine::lines_of(stages(s + 1, n)) =~= machine::lines_of(stages(s, n))
        + machine::lines_of(stage(s, n)));
    l.lemma_lines(machine::lines_of(stages(s, n)), machine::lines_of(stage(s, n)));
}

proof fn lemma_three(l: Listing, x: Line, y: Line, z: Line)
    ensures
        l.lines(seq![x, y, z]) == l.line(x).line(y).line(z),
{
    let e = Seq::<Line>::empty();
    assert(seq![x, y, z] =~= e.push(x).push(y).push(z));
    l.lemma_none();
    l.lemma_push(e, x);
    l.lemma_push(e.push(x), y);
    l.lemma_push(e.push(x).push(y), z);
}

/// The text of the kernel is its lines, between its head and its size.
pub proof fn law_swiglu_text(l: Listing, name: Seq<char>, out: Out)
    ensures
        l.glu_looped(name, out) == l.glu_head(
            name,
            "h = silu(g) * u over rcx vectors, stored "@,
            out.spec_word(),
            ""@,
        ).lines(swiglu_lines(out)).size(name),
{
    reveal(Listing::glu_looped);
    let h = l.glu_head(
        name,
        "h = silu(g) * u over rcx vectors, stored "@,
        out.spec_word(),
        ""@,
    );
    let a = seq![
        Line::Against { n: 4, g: COUNT },
        Line::Jump { when: When::Below, label: 2, forward: true },
        Line::Mark { label: 1, indented: false },
    ];
    let b1 = seq![
        Line::Minus { n: 4, g: COUNT },
        Line::Against { n: 4, g: COUNT },
        Line::Jump { when: When::NotBelow, label: 1, forward: false },
    ];
    let b2 = seq![
        Line::Mark { label: 2, indented: false },
        Line::Test { g: COUNT },
        Line::Jump { when: When::Zero, label: 4, forward: true },
    ];
    let b3 = Line::Mark { label: 3, indented: false };
    let c1 = seq![
        Line::Dec { g: COUNT },
        Line::Jump { when: When::NotZero, label: 3, forward: false },
        Line::Mark { label: 4, indented: false },
    ];
    let four = body(4, out, false);
    let one = body(1, out, false);
    let s3 = a + four + b1 + b2;
    let s4 = s3.push(b3);
    let s6 = s4 + one + c1;
    assert(swiglu_lines(out) =~= s6.push(Line::Ret));
    let h0 = h.t_imm("cmp"@, 4 as int, COUNT);
    lemma_jump(h0, When::Below, 2, true);
    lemma_mark(h0.t("jb 2f"@));
    lemma_three(h, a[0], a[1], a[2]);
    let h1 = h.lines(a);
    assert(h1 == h0.t("jb 2f"@).lit("1:\n"@));
    lemma_body_text(h1, 4, out, false);
    h.lemma_lines(a, four);
    let h2 = h.lines(a + four);
    assert(h2 == h1.glu_body(4, out, K(0)));
    lemma_three(h2, b1[0], b1[1], b1[2]);
    lemma_jump(h2.t_imm("sub"@, 4 as int, COUNT).t_imm("cmp"@, 4 as int, COUNT), When::NotBelow, 1, false);
    h.lemma_lines(a + four, b1);
    let h3 = h.lines(a + four + b1);
    assert(h3 == h2.t_imm("sub"@, 4 as int, COUNT).t_imm("cmp"@, 4 as int, COUNT).t("jae 1b"@));
    lemma_mark(h3);
    lemma_three(h3, b2[0], b2[1], b2[2]);
    lemma_jump(h3.lit("2:\n"@).test_reg(COUNT), When::Zero, 4, true);
    h.lemma_lines(a + four + b1, b2);
    let h4 = h.lines(s3);
    assert(h4 == h3.lit("2:\n"@).test_reg(COUNT).t("jz 4f"@));
    lemma_mark(h4);
    h.lemma_push(s3, b3);
    let h5 = h.lines(s4);
    assert(h5 == h4.lit("3:\n"@));
    lemma_body_text(h5, 1, out, false);
    h.lemma_lines(s4, one);
    let h6 = h.lines(s4 + one);
    assert(h6 == h5.glu_body(1, out, K(0)));
    lemma_three(h6, c1[0], c1[1], c1[2]);
    lemma_jump(h6.dec_reg(COUNT), When::NotZero, 3, false);
    lemma_mark(h6.dec_reg(COUNT).t("jnz 3b"@));
    h.lemma_lines(s4 + one, c1);
    let h7 = h.lines(s6);
    assert(h7 == h6.dec_reg(COUNT).t("jnz 3b"@).lit("4:\n"@));
    h.lemma_push(s6, Line::Ret);
}

} // verus!
