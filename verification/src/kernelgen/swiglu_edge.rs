//! What the SwiGLU's edge kernel does when it is run: one vector, of which
//! only the lanes that the mask names are stored.
use crate::kernelgen::glu::{Out, COUNT, G, H, U};
use crate::kernelgen::listing::Listing;
use crate::kernelgen::machine;
use crate::kernelgen::machine::{lines_of, Core, Line};
use crate::kernelgen::swiglu;
use crate::kernelgen::swiglu::{
    answer, body, conv_of, pointers, result_at, same_but, span, stage, stage_op, staged, stages,
    stores,
};
use crate::kernelgen::vector;
use crate::kernelgen::vector::{Form, Op, Unit};
use crate::mvex::reg::{Conv, Gpr, Mem, Zmm};
use vstd::prelude::*;

verus! {

/// The lines of the edge kernel.
pub open spec fn edge_lines(out: Out) -> Seq<Line> {
    (lines_of(Seq::<Op>::empty().push(Op::Mask { g: COUNT })) + body(1, out, true)).push(Line::Ret)
}

/// Where the edge kernel can begin: its arguments in their registers, each on
/// the boundary of its vector and within memory.
pub open spec fn edges(c: Core, out: Out) -> bool {
    let (g, u, h, k) = (c.g[G], c.g[U], c.g[H], c.g[Gpr::R8]);
    &&& c.at == 0 && c.ok && !c.done
    &&& g >= 0 && g % 64 == 0 && g + 64 < 0x1_0000_0000_0000_0000
    &&& u >= 0 && u % 64 == 0 && u + 64 < 0x1_0000_0000_0000_0000
    &&& h >= 0 && h % out.bytes() as int == 0 && h + span(out, 1) < 0x1_0000_0000_0000_0000
    &&& k >= 0 && k % 64 == 0
}

proof fn lemma_stage_runs(g: Map<Gpr, int>, s: int)
    requires
        0 <= s <= 8,
        g[G] % 64 == 0,
        g[U] % 64 == 0,
        g[Gpr::R8] % 64 == 0,
    ensures
        forall|i: int| 0 <= i < stages(s, 1).len() ==> (#[trigger] stages(s, 1)[i]).runs(g),
    decreases s,
{
    reveal(stages);
    reveal(stage);
    if s > 0 {
        lemma_stage_runs(g, s - 1);
        let a = stages(s - 1, 1);
        let b = stage(s - 1, 1);
        assert forall|i: int| 0 <= i < stages(s, 1).len() implies (#[trigger] stages(
            s,
            1,
        )[i]).runs(g) by {
            if i < a.len() {
                assert(stages(s, 1)[i] == a[i]);
            } else {
                assert(stages(s, 1)[i] == stage_op(s - 1, 0));
                swiglu::lemma_op_runs(g, s - 1, 0);
            }
        }
    }
}

/// The one store of the edge kernel.
spec fn store(out: Out) -> Op {
    Op::Store { m: Mem::at(H, 0), z: Zmm(0), conv: conv_of(out), masked: true }
}

proof fn lemma_store(g: Map<Gpr, int>, out: Out)
    requires
        g[H] % out.bytes() as int == 0,
    ensures
        stores(1, out, true) == Seq::<Op>::empty().push(store(out)),
        store(out).runs(g),
{
    broadcast use Mem::lemma_at;

    reveal(stores);
    assert(stores(1, out, true) =~= Seq::<Op>::empty().push(store(out)));
    match out {
        Out::F32 => {
            assert(out.bytes() == 64);
            assert(16 * Form::of(Conv::Plain, false).width() == 64);
        },
        Out::F16 => {
            assert(out.bytes() == 32);
            assert(16 * Form::of(Conv::F16, false).width() == 32);
        },
    }
}

/// What is in memory after the store: the lanes of the mask, and no others.
spec fn edged(c: Core, u: Unit, out: Out, mask: int) -> bool {
    &&& same_but(c.unit.mem, u.mem, c.g[H], span(out, 1))
    &&& forall|l: int|
        0 <= l < 16 ==> #[trigger] result_at(u.mem, out, c.g[H], l) == if vector::bit(mask, l) {
            answer(c, out, l)
        } else {
            result_at(c.unit.mem, out, c.g[H], l)
        }
}

proof fn lemma_vector(c: Core, out: Out)
    requires
        edges(c, out),
    ensures
        ({
            let m = c.unit.did(Op::Mask { g: COUNT }, c.g);
            edged(c, m.all(stages(8, 1) + stores(1, out, true), c.g), out, c.g[COUNT])
        }),
{
    broadcast use Mem::lemma_at;

    let (u, g) = (c.unit, c.g);
    let m = u.did(Op::Mask { g: COUNT }, g);
    m.lemma_parts(stages(8, 1), stores(1, out, true), g);
    swiglu::lemma_stages(m, g, 8, 1);
    let s = m.all(stages(8, 1), g);
    lemma_store(g, out);
    s.lemma_push(Seq::empty(), store(out), g);
    let v = s.did(store(out), g);
    assert forall|l: int| 0 <= l < 16 implies #[trigger] result_at(v.mem, out, g[H], l)
        == if vector::bit(g[COUNT], l) {
        answer(c, out, l)
    } else {
        result_at(u.mem, out, g[H], l)
    } by {
        let x = staged(m, g, 8, 0, l).0;
        assert(s.z[Zmm(0u8)][l] == x);
        match out {
            Out::F32 => {},
            Out::F16 => {},
        }
    }
}

/// The edge kernel returns with the SwiGLU of the lanes that the mask in ecx
/// names in their places, and nothing else in memory changed.
pub proof fn law_swiglu_edge(c: Core, out: Out) -> (to: Core)
    requires
        edges(c, out),
    ensures
        c.reaches(edge_lines(out), to),
        to.done && to.ok,
        same_but(c.unit.mem, to.unit.mem, c.g[H], span(out, 1)),
        forall|l: int|
            0 <= l < 16 ==> #[trigger] result_at(to.unit.mem, out, c.g[H], l) == if vector::bit(
                c.g[COUNT],
                l,
            ) {
                answer(c, out, l)
            } else {
                result_at(c.unit.mem, out, c.g[H], l)
            },
{
    let lines = edge_lines(out);
    let op = Op::Mask { g: COUNT };
    let first = Seq::<Op>::empty().push(op);
    let ops = stages(8, 1) + stores(1, out, true);
    let tail = pointers(1, out);
    let s = lines_of(first) + body(1, out, true);
    assert(body(1, out, true) == lines_of(ops) + tail) by {
        reveal(body);
    }
    c.lemma_passed(lines_of(first), lines_of(ops) + tail);
    c.lemma_unit(first);
    c.unit.lemma_push(Seq::empty(), op, c.g);
    let c1 = c.passed(lines_of(first));
    assert(c1 == (Core { unit: c.unit.did(op, c.g), ..c }));
    c1.lemma_passed(lines_of(ops), tail);
    lemma_stage_runs(c.g, 8);
    lemma_store(c.g, out);
    assert forall|i: int| 0 <= i < ops.len() implies (#[trigger] ops[i]).runs(c1.g) by {
        if i < stages(8, 1).len() {
            assert(ops[i] == stages(8, 1)[i]);
        } else {
            assert(ops[i] == store(out));
        }
    }
    c1.lemma_unit(ops);
    let c2 = c1.passed(lines_of(ops));
    lemma_vector(c, out);
    swiglu::lemma_pointers(c2, 1, out);
    let c3 = c2.passed(tail);
    assert(c.passed(s) == c3);
    assert forall|i: int| 0 <= i < s.len() implies lines[c.at + i] == #[trigger] s[i]
        && machine::passable(s[i]) by {
        let n = first.len() as int;
        if i >= n {
            let j = i - n;
            assert(s[i] == (lines_of(ops) + tail)[j]);
            if j < ops.len() {
                assert(s[i] == lines_of(ops)[j]);
            } else {
                assert(s[i] == tail[j - ops.len()]);
            }
        } else {
            assert(s[i] == lines_of(first)[i]);
        }
    }
    c.lemma_straight(lines, s);
    let last = c.run(lines, s.len());
    c.lemma_parts(lines, s.len(), 1);
    let to = last.step(lines);
    assert(last.run(lines, 1) == to) by {
        reveal_with_fuel(Core::run, 2);
    }
    assert(c.run(lines, s.len() + 1) == to);
    assert(lines[last.at] == Line::Ret);
    assert(to.unit == c2.unit);
    to
}

/// The text of the edge kernel is that of its lines.
pub proof fn law_swiglu_edge_text(l: Listing, name: Seq<char>, out: Out)
    ensures
        l.glu_edge(name, out) == l.glu_head(
            name,
            "one vector of h = silu(g) * u, "@,
            out.spec_word(),
            ", only the lanes set in ecx"@,
        ).lines(edge_lines(out)).size(name),
{
    reveal(Listing::glu_edge);
    let h = l.glu_head(
        name,
        "one vector of h = silu(g) * u, "@,
        out.spec_word(),
        ", only the lanes set in ecx"@,
    );
    let first = lines_of(Seq::<Op>::empty().push(Op::Mask { g: COUNT }));
    h.lemma_lines(first, body(1, out, true));
    h.lemma_push(first + body(1, out, true), Line::Ret);
    crate::kernelgen::quant_text::lemma_written(h, Seq::empty(), Op::Mask { g: COUNT });
    crate::kernelgen::quant_text::lemma_blank(h);
    swiglu::lemma_body_text(h.lines(first), 1, out, true);
}

} // verus!
